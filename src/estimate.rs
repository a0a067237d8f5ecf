//! Figures derived from the counters: the estimate of π, throughput and progress.
use vstd::prelude::*;
use crate::run::CoreError;

verus! {

/// Largest scale `pi_scaled` takes: eighteen decimal digits.
pub const MAX_SCALE: u64 = 1_000_000_000_000_000_000;

/// Progress, in tenths of a percent, that counts as complete.
pub const FULL_PERMILLE: u64 = 1000;

/// `floor(4 · hits / total · scale)`: the estimate `4 · hits / total` in
/// fixed point with `scale` units per one. An empty tally has no estimate.
pub fn pi_scaled(hits: u64, total: u64, scale: u64) -> (r: Result<u128, CoreError>)
    requires
        scale <= MAX_SCALE,
    ensures
        total == 0 <==> r == Err::<u128, CoreError>(CoreError::DegenerateAggregation),
        total > 0 ==> r == Ok::<u128, CoreError>((4 * (hits as int) * (scale as int) / (total as int)) as u128),
{
    if total == 0 {
        return Err(CoreError::DegenerateAggregation);
    }
    proof {
        assert(4 * hits * scale <= 4 * 0xffff_ffff_ffff_ffffu128 * MAX_SCALE) by (nonlinear_arith)
            requires
                hits <= 0xffff_ffff_ffff_ffffu128,
                scale <= MAX_SCALE,
        ;
    }
    Ok((4 * hits as u128 * scale as u128) / total as u128)
}

/// Samples per second, rounded down, of `total` samples taken in
/// `elapsed_nanos` nanoseconds; none for an elapsed time of zero.
pub fn samples_per_second(total: u64, elapsed_nanos: u128) -> (r: Option<u128>)
    ensures
        elapsed_nanos == 0 <==> r is None,
        elapsed_nanos > 0 ==> r == Some(((total as int) * 1_000_000_000 / (elapsed_nanos as int)) as u128),
{
    if elapsed_nanos == 0 {
        None
    } else {
        Some(total as u128 * 1_000_000_000 / elapsed_nanos)
    }
}

/// Progress of `done` out of `target` samples, in tenths of a percent, at most
/// complete; a target of zero counts as complete.
pub fn progress_permille(done: u64, target: u64) -> (r: u64)
    ensures
        r <= FULL_PERMILLE,
        target == 0 ==> r == FULL_PERMILLE,
        target > 0 && (done as int) * 1000 / (target as int) <= 1000 ==> r == (done as int) * 1000 / (target as int),
        target > 0 && (done as int) * 1000 / (target as int) > 1000 ==> r == FULL_PERMILLE,
{
    if target == 0 {
        return FULL_PERMILLE;
    }
    let p = done as u128 * 1000 / target as u128;
    if p > FULL_PERMILLE as u128 { FULL_PERMILLE } else { p as u64 }
}

/// Cells of a bar `width` cells wide to fill for progress `permille`.
pub fn filled_cells(permille: u64, width: u64) -> (r: u64)
    requires
        permille <= FULL_PERMILLE,
    ensures
        r == (permille as int) * (width as int) / 1000,
        r <= width,
{
    proof {
        assert(permille * width <= 1000 * width) by (nonlinear_arith)
            requires
                permille <= 1000,
        ;
        assert(permille * width / 1000 <= width) by (nonlinear_arith)
            requires
                permille * width <= 1000 * width,
        ;
    }
    (permille as u128 * width as u128 / 1000) as u64
}

} // verus!
