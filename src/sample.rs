//! Classifying sample points against the unit quarter circle, and batches of samples.
use vstd::prelude::*;
use crate::source::{next_word, stream_word, Source};

verus! {

/// `2^53`: a coordinate is `c / 2^53` for an integer `0 <= c < 2^53`.
pub const COORD_SCALE: u128 = 9_007_199_254_740_992;

/// `2^106`, the square of `COORD_SCALE`: the radius of the circle, squared, in grid units.
pub const RADIUS_SQUARED: u128 = 81_129_638_414_606_681_695_789_005_144_064;

/// Grid coordinate of a random word: its top 53 bits, as rand's `Standard`
/// float sampling takes them for a value in `[0, 1)`.
pub open spec fn coord(w: u64) -> int {
    w as int / 2048
}

/// The point `(coord(wx), coord(wy)) / 2^53` lies inside the closed quarter circle `x² + y² ≤ 1`.
pub open spec fn inside(wx: u64, wy: u64) -> bool {
    coord(wx) * coord(wx) + coord(wy) * coord(wy) <= RADIUS_SQUARED
}

/// Number of points of `pts` that lie inside the quarter circle.
pub open spec fn hits_in(pts: Seq<(u64, u64)>) -> nat
    decreases pts.len(),
{
    if pts.len() == 0 {
        0
    } else {
        hits_in(pts.drop_last()) + if inside(pts.last().0, pts.last().1) { 1nat } else { 0nat }
    }
}

/// A batch never has more hits than points.
pub proof fn lemma_hits_bounded(pts: Seq<(u64, u64)>)
    ensures
        hits_in(pts) <= pts.len(),
    decreases pts.len(),
{
    if pts.len() > 0 {
        lemma_hits_bounded(pts.drop_last());
    }
}

/// Whether the point drawn from the words `wx`, `wy` is inside the quarter
/// circle; a point on the circle counts as inside. Exact, with no rounding.
pub fn is_inside(wx: u64, wy: u64) -> (r: bool)
    ensures
        r == inside(wx, wy),
{
    let a = (wx / 2048) as u128;
    let b = (wy / 2048) as u128;
    proof {
        assert(a * a < COORD_SCALE * COORD_SCALE) by (nonlinear_arith)
            requires
                a < COORD_SCALE,
        ;
        assert(b * b < COORD_SCALE * COORD_SCALE) by (nonlinear_arith)
            requires
                b < COORD_SCALE,
        ;
    }
    a * a + b * b <= RADIUS_SQUARED
}

/// Counts the points of `pts` inside the quarter circle.
pub fn count_hits(pts: &Vec<(u64, u64)>) -> (r: u64)
    ensures
        r == hits_in(pts@),
{
    let mut count: u64 = 0;
    let mut i: usize = 0;
    while i < pts.len()
        invariant
            0 <= i <= pts@.len(),
            count == hits_in(pts@.subrange(0, i as int)),
            count <= i,
        decreases pts@.len() - i,
    {
        let (x, y) = pts[i];
        proof {
            assert(pts@.subrange(0, i + 1).drop_last() =~= pts@.subrange(0, i as int));
        }
        if is_inside(x, y) {
            count = count + 1;
        }
        i = i + 1;
    }
    proof {
        assert(pts@.subrange(0, i as int) =~= pts@);
    }
    count
}

/// The `count` points read from the stream of `seed` from word `pos` on, two words each.
pub open spec fn stream_points(seed: u64, pos: int, count: int) -> Seq<(u64, u64)> {
    Seq::new(count as nat, |i: int| (stream_word(seed, pos + 2 * i), stream_word(seed, pos + 2 * i + 1)))
}

/// Hits of the points of two sequences, one after the other, add up.
pub proof fn lemma_hits_concat(a: Seq<(u64, u64)>, b: Seq<(u64, u64)>)
    ensures
        hits_in(a + b) == hits_in(a) + hits_in(b),
    decreases b.len(),
{
    if b.len() == 0 {
        assert(a + b =~= a);
    } else {
        lemma_hits_concat(a, b.drop_last());
        assert((a + b).drop_last() =~= a + b.drop_last());
    }
}

/// Hits of a stretch of the stream are the same however it is cut into
/// batches: `a + b` points from word `pos` hit as often as `a` points from
/// `pos` and then `b` points from `pos + 2a`.
pub proof fn lemma_batches_compose(seed: u64, pos: int, a: int, b: int)
    requires
        a >= 0,
        b >= 0,
    ensures
        hits_in(stream_points(seed, pos, a + b)) == hits_in(stream_points(seed, pos, a))
            + hits_in(stream_points(seed, pos + 2 * a, b)),
{
    assert(stream_points(seed, pos, a + b) =~= stream_points(seed, pos, a) + stream_points(seed, pos + 2 * a, b));
    lemma_hits_concat(stream_points(seed, pos, a), stream_points(seed, pos + 2 * a, b));
}

/// Draws `count` points from `src`, two words each.
pub fn draw_points(src: &mut Source, count: u64) -> (r: Vec<(u64, u64)>)
    ensures
        r@ == stream_points(old(src).seed(), old(src).pos(), count as int),
        final(src).seed() == old(src).seed(),
        final(src).pos() == old(src).pos() + 2 * count,
{
    let ghost seed = src.seed();
    let ghost pos = src.pos();
    let mut pts: Vec<(u64, u64)> = Vec::new();
    let mut i: u64 = 0;
    while i < count
        invariant
            i <= count,
            src.seed() == seed,
            src.pos() == pos + 2 * i,
            pts@ == stream_points(seed, pos, i as int),
        decreases count - i,
    {
        let x = next_word(src);
        let y = next_word(src);
        pts.push((x, y));
        proof {
            assert(pts@ =~= stream_points(seed, pos, i + 1));
        }
        i = i + 1;
    }
    pts
}

/// Samples `count` points from `src` and returns how many fell inside the quarter circle.
pub fn sample_batch(src: &mut Source, count: u64) -> (r: u64)
    ensures
        r == hits_in(stream_points(old(src).seed(), old(src).pos(), count as int)),
        r <= count,
        final(src).seed() == old(src).seed(),
        final(src).pos() == old(src).pos() + 2 * count,
{
    let pts = draw_points(src, count);
    let hits = count_hits(&pts);
    proof {
        lemma_hits_bounded(pts@);
    }
    hits
}

} // verus!
