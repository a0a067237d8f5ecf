//! Reading a sample count from text typed by a user.
use vstd::prelude::*;
use crate::run::{DEFAULT_SAMPLES, MIN_SAMPLES};

verus! {

pub open spec fn is_digit(c: char) -> bool {
    '0' <= c && c <= '9'
}

/// Value of a string of decimal digits.
pub open spec fn digits_value(s: Seq<char>) -> int
    decreases s.len(),
{
    if s.len() == 0 {
        0
    } else {
        digits_value(s.drop_last()) * 10 + ((s.last() as u32) as int - ('0' as u32) as int)
    }
}

/// `s` without a leading `+`, if it has one.
pub open spec fn unsigned_part(s: Seq<char>) -> Seq<char> {
    if s.len() > 0 && s[0] == '+' {
        s.drop_first()
    } else {
        s
    }
}

/// The `u64` that `s` writes in decimal: an optional `+`, then one or more
/// digits, of value at most `u64::MAX`; none for anything else.
pub open spec fn decimal_u64(s: Seq<char>) -> Option<u64> {
    let d = unsigned_part(s);
    if d.len() > 0 && (forall|i: int| 0 <= i < d.len() ==> is_digit(#[trigger] d[i]))
        && digits_value(d) <= u64::MAX {
        Some(digits_value(d) as u64)
    } else {
        None
    }
}

/// Why typed text is no sample count.
#[derive(Clone, Copy, Debug, PartialEq, Eq, Structural)]
pub enum InputError {
    /// The text is not a whole number in range.
    NotANumber,
    /// The number is below `MIN_SAMPLES`.
    TooSmall,
}

/// Relies on `u64`'s `FromStr` (`u64::from_str_radix` in base 10): an optional
/// `+` followed by one or more ASCII digits, of value at most `u64::MAX`, is
/// accepted; anything else, whitespace included, is refused.
#[verifier::external_body]
fn parse_u64(s: &str) -> (r: Option<u64>)
    ensures
        r == decimal_u64(s@),
{
    s.parse::<u64>().ok()
}

/// Reads a sample count of at least `MIN_SAMPLES` from `input`.
pub fn validate_sample_input(input: &str) -> (r: Result<u64, InputError>)
    ensures
        r == (match decimal_u64(input@) {
            None => Err::<u64, InputError>(InputError::NotANumber),
            Some(n) => if n >= MIN_SAMPLES {
                Ok::<u64, InputError>(n)
            } else {
                Err::<u64, InputError>(InputError::TooSmall)
            },
        }),
{
    match parse_u64(input) {
        Some(n) => if n >= MIN_SAMPLES {
            Ok(n)
        } else {
            Err(InputError::TooSmall)
        },
        None => Err(InputError::NotANumber),
    }
}

/// The sample count that `input` gives, or `DEFAULT_SAMPLES` where it gives none.
pub fn sample_count_or_default(input: &str) -> (r: u64)
    ensures
        r == (match decimal_u64(input@) {
            Some(n) => if n >= MIN_SAMPLES { n } else { DEFAULT_SAMPLES },
            None => DEFAULT_SAMPLES,
        }),
        r >= MIN_SAMPLES,
{
    match validate_sample_input(input) {
        Ok(n) => n,
        Err(_) => DEFAULT_SAMPLES,
    }
}

} // verus!
