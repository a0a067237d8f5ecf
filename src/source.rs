//! Worker-local random sources, backed by rand's `StdRng`.
use vstd::prelude::*;
use rand::rngs::StdRng;
use rand::{RngCore, SeedableRng};

verus! {

#[verifier::external_type_specification]
#[verifier::external_body]
pub struct ExStdRng(StdRng);

/// Word `k` (from 0) that `next_u64` gives from a `StdRng` seeded with
/// `seed_from_u64(seed)` and read by `next_u64` alone.
pub uninterp spec fn stream_word(seed: u64, k: int) -> u64;

/// A worker-local random source: a seeded `StdRng`, with the seed and the
/// number of words read so far kept as ghost state. None is ever shared
/// between workers.
pub struct Source {
    rng: StdRng,
    seed: Ghost<u64>,
    pos: Ghost<int>,
}

impl Source {
    /// Seed of the stream.
    pub closed spec fn seed(&self) -> u64 {
        self.seed@
    }

    /// Number of words read from the stream so far.
    pub closed spec fn pos(&self) -> int {
        self.pos@
    }

    /// A source at the start of the stream of `seed`.
    pub fn new(seed: u64) -> (r: Source)
        ensures
            r.seed() == seed,
            r.pos() == 0,
    {
        seeded_source(seed)
    }
}

/// Relies on rand's `SeedableRng::seed_from_u64` for `StdRng`: a generator
/// whose stream is fixed by `seed`, read from its start.
#[verifier::external_body]
fn seeded_source(seed: u64) -> (r: Source)
    ensures
        r.seed() == seed,
        r.pos() == 0,
{
    Source { rng: StdRng::seed_from_u64(seed), seed: Ghost(seed), pos: Ghost(0) }
}

/// Relies on rand's `RngCore::next_u64` for `StdRng`: the next word of the stream.
#[verifier::external_body]
pub(crate) fn next_word(src: &mut Source) -> (r: u64)
    ensures
        final(src).seed() == old(src).seed(),
        final(src).pos() == old(src).pos() + 1,
        r == stream_word(old(src).seed(), old(src).pos()),
{
    let r = src.rng.next_u64();
    src.pos = Ghost(src.pos@ + 1);
    r
}

/// Relies on `rand::random`: a fresh `u64` from the thread-local generator,
/// used to seed the sources of one run.
#[verifier::external_body]
pub(crate) fn fresh_seed() -> (r: u64) {
    rand::random::<u64>()
}

} // verus!
