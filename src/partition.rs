//! Splitting a sample count into contiguous chunks of indices.
use vstd::prelude::*;
use vstd::arithmetic::div_mod::{lemma_fundamental_div_mod, lemma_fundamental_div_mod_converse};

verus! {

/// Smallest chunk that the bounded-size policy hands out (unless fewer samples remain).
pub const MIN_CHUNK: u64 = 10_000;

/// Number of chunks per worker that the bounded-size policy aims for.
pub const CHUNKS_PER_WORKER: u64 = 10;

/// A contiguous range `[start, end)` of sample indices, one unit of work.
#[derive(Clone, Copy, Debug, PartialEq, Eq, Structural)]
pub struct Chunk {
    pub start: u64,
    pub end: u64,
}

impl Chunk {
    /// Number of indices in the chunk.
    pub open spec fn size(self) -> int {
        self.end - self.start
    }

    /// Whether index `k` lies in the chunk.
    pub open spec fn holds(self, k: int) -> bool {
        self.start <= k < self.end
    }

    pub fn len(&self) -> (r: u64)
        requires
            self.start <= self.end,
        ensures
            r == self.size(),
    {
        self.end - self.start
    }
}

/// The chunks lie side by side, in order, starting at 0 and ending at `n`.
pub open spec fn tiles(chunks: Seq<Chunk>, n: int) -> bool {
    &&& forall|i: int| 0 <= i < chunks.len() ==> #[trigger] chunks[i].start <= chunks[i].end
    &&& forall|i: int| 0 < i < chunks.len() ==> #[trigger] chunks[i].start == chunks[i - 1].end
    &&& chunks.len() == 0 ==> n == 0
    &&& chunks.len() > 0 ==> chunks[0].start == 0 && chunks.last().end == n
}

/// Chunk size of the bounded-size policy: about `CHUNKS_PER_WORKER` chunks per
/// worker, never below `MIN_CHUNK` and never above `n`.
pub open spec fn bounded_size(n: int, workers: int) -> int {
    let target = n / (CHUNKS_PER_WORKER * workers);
    let floored = if target < MIN_CHUNK { MIN_CHUNK as int } else { target };
    if floored > n { n } else { floored }
}

/// Number of chunks of size `size` (the last one possibly shorter) that `n` indices fill.
pub open spec fn chunk_count(n: int, size: int) -> int {
    (n + size - 1) / size
}

/// Some chunk holds index `k`.
pub open spec fn covered(chunks: Seq<Chunk>, k: int) -> bool {
    exists|i: int| 0 <= i < chunks.len() && #[trigger] chunks[i].holds(k)
}

/// The chunks of the equal split of `n` indices among `workers`.
pub open spec fn equal_chunks(n: u64, workers: u64) -> Seq<Chunk> {
    let q = n / workers;
    Seq::new(
        workers as nat,
        |i: int|
            if i < workers - 1 {
                Chunk { start: (i * q) as u64, end: ((i + 1) * q) as u64 }
            } else {
                Chunk { start: (i * q) as u64, end: n }
            },
    )
}

/// Chunk `i` of the chunks of size `size` of `n` indices.
#[verifier::opaque]
pub open spec fn sized_chunk(n: u64, size: u64, i: int) -> Chunk {
    Chunk {
        start: (i * size) as u64,
        end: if (i + 1) * size < n { ((i + 1) * size) as u64 } else { n },
    }
}

/// The chunks of size `size` (the last one possibly shorter) of `n` indices.
pub open spec fn sized_seq(n: u64, size: u64) -> Seq<Chunk> {
    Seq::new(chunk_count(n as int, size as int) as nat, |i: int| sized_chunk(n, size, i))
}

proof fn lemma_tiles_ordered(chunks: Seq<Chunk>, n: int, i: int, j: int)
    requires
        tiles(chunks, n),
        0 <= i < j < chunks.len(),
    ensures
        chunks[i].end <= chunks[j].start,
    decreases j - i,
{
    if i + 1 < j {
        lemma_tiles_ordered(chunks, n, i, j - 1);
        assert(chunks[j - 1].start <= chunks[j - 1].end);
    }
}

proof fn lemma_tiles_find(chunks: Seq<Chunk>, n: int, k: int, m: int)
    requires
        tiles(chunks, n),
        0 <= m < chunks.len(),
        0 <= k < chunks[m].end,
    ensures
        exists|i: int| 0 <= i <= m && #[trigger] chunks[i].holds(k),
    decreases m,
{
    if k >= chunks[m].start {
        assert(chunks[m].holds(k));
    } else {
        lemma_tiles_find(chunks, n, k, m - 1);
    }
}

/// Chunks that tile `[0, n)` cover every index below `n` exactly once and no other index.
pub proof fn lemma_tiling_covers_exactly(chunks: Seq<Chunk>, n: int)
    requires
        tiles(chunks, n),
    ensures
        forall|k: int| (0 <= k < n) <==> #[trigger] covered(chunks, k),
        forall|i: int, j: int, k: int|
            0 <= i < chunks.len() && 0 <= j < chunks.len() && #[trigger] chunks[i].holds(k)
                && #[trigger] chunks[j].holds(k) ==> i == j,
{
    assert forall|k: int| (0 <= k < n) <==> #[trigger] covered(chunks, k) by {
        if 0 <= k < n {
            lemma_tiles_find(chunks, n, k, chunks.len() - 1);
        }
        if covered(chunks, k) {
            let i = choose|i: int| 0 <= i < chunks.len() && #[trigger] chunks[i].holds(k);
            if i < chunks.len() - 1 {
                lemma_tiles_ordered(chunks, n, i, chunks.len() - 1);
            }
        }
    }
    assert forall|i: int, j: int, k: int|
        0 <= i < chunks.len() && 0 <= j < chunks.len() && #[trigger] chunks[i].holds(k)
            && #[trigger] chunks[j].holds(k) implies i == j by {
        if i < j {
            lemma_tiles_ordered(chunks, n, i, j);
        } else if j < i {
            lemma_tiles_ordered(chunks, n, j, i);
        }
    }
}

/// Equal split: `workers` chunks of `n / workers` indices each, the last one
/// also taking the `n % workers` left over. With `n < workers` the leading
/// chunks are empty.
pub fn equal_split(n: u64, workers: u64) -> (r: Vec<Chunk>)
    requires
        workers >= 1,
    ensures
        r@.len() == workers,
        tiles(r@, n as int),
        forall|i: int| 0 <= i < workers - 1 ==> (#[trigger] r@[i]).size() == n / workers,
        r@.last().size() == n / workers + n % workers,
        forall|k: int| (0 <= k < n) <==> #[trigger] covered(r@, k),
        r@ == equal_chunks(n, workers),
{
    let q = n / workers;
    proof {
        lemma_fundamental_div_mod(n as int, workers as int);
    }
    let mut r: Vec<Chunk> = Vec::new();
    let mut start: u64 = 0;
    let mut i: u64 = 0;
    while i < workers - 1
        invariant
            workers >= 1,
            q == n / workers,
            n == workers * q + n % workers,
            0 <= i <= workers - 1,
            start == i * q,
            r@.len() == i,
            tiles(r@, start as int),
            forall|j: int| 0 <= j < i ==> (#[trigger] r@[j]).size() == q,
            forall|j: int|
                0 <= j < i ==> #[trigger] r@[j] == (Chunk { start: (j * q) as u64, end: ((j + 1) * q) as u64 }),
        decreases workers - 1 - i,
    {
        proof {
            assert((i + 1) * q <= workers * q) by (nonlinear_arith)
                requires
                    i + 1 <= workers,
                    q >= 0,
            ;
            assert((i + 1) * q == i * q + q) by (nonlinear_arith);
        }
        let c = Chunk { start, end: start + q };
        r.push(c);
        start = start + q;
        i = i + 1;
    }
    proof {
        assert(i * q <= workers * q) by (nonlinear_arith)
            requires
                i <= workers,
                q >= 0,
        ;
        assert(workers * q == i * q + q) by (nonlinear_arith)
            requires
                i == workers - 1,
        ;
    }
    r.push(Chunk { start, end: n });
    proof {
        lemma_tiling_covers_exactly(r@, n as int);
        assert(r@ =~= equal_chunks(n, workers));
    }
    r
}

/// Chunk size of the bounded-size policy for `n` samples and `workers` workers.
pub fn bounded_chunk_size(n: u64, workers: u64) -> (r: u64)
    requires
        workers >= 1,
    ensures
        r == bounded_size(n as int, workers as int),
{
    let target: u64 = if workers > u64::MAX / CHUNKS_PER_WORKER {
        proof {
            assert(CHUNKS_PER_WORKER * workers > n) by (nonlinear_arith)
                requires
                    workers > u64::MAX / 10,
                    n <= u64::MAX,
            ;
            vstd::arithmetic::div_mod::lemma_basic_div(n as int, (CHUNKS_PER_WORKER * workers) as int);
        }
        0
    } else {
        n / (CHUNKS_PER_WORKER * workers)
    };
    let floored = if target < MIN_CHUNK { MIN_CHUNK } else { target };
    if floored > n { n } else { floored }
}

/// Bounded-size chunking: chunks of `size` indices, the last one possibly
/// shorter, `ceil(n / size)` of them. A size of 0 is refused.
pub fn sized_chunks(n: u64, size: u64) -> (r: Option<Vec<Chunk>>)
    ensures
        size == 0 <==> r is None,
        r matches Some(v) ==> {
            &&& tiles(v@, n as int)
            &&& v@.len() == chunk_count(n as int, size as int)
            &&& forall|i: int| 0 <= i < v@.len() ==> 0 < (#[trigger] v@[i]).size() <= size
            &&& forall|i: int| 0 <= i < v@.len() - 1 ==> (#[trigger] v@[i]).size() == size
            &&& forall|k: int| (0 <= k < n) <==> #[trigger] covered(v@, k)
            &&& v@ == sized_seq(n, size)
        },
{
    if size == 0 {
        return None;
    }
    let mut r: Vec<Chunk> = Vec::new();
    let mut start: u64 = 0;
    while start < n
        invariant
            size > 0,
            start <= n,
            tiles(r@, start as int),
            r@.len() > 0 ==> (r@.len() - 1) * size < start,
            start <= r@.len() * size,
            start < n ==> start == r@.len() * size,
            forall|i: int| 0 <= i < r@.len() ==> 0 < (#[trigger] r@[i]).size() <= size,
            forall|i: int| 0 <= i < r@.len() - 1 ==> (#[trigger] r@[i]).size() == size,
            start < n && r@.len() > 0 ==> r@.last().size() == size,
            forall|j: int| 0 <= j < r@.len() ==> #[trigger] r@[j] == sized_chunk(n, size, j),
        decreases n - start,
    {
        let end = if n - start > size { start + size } else { n };
        let ghost j = r@.len() as int;
        proof {
            assert(j * size + size == (j + 1) * size) by (nonlinear_arith);
            assert(start == j * size);
            assert(Chunk { start, end } == sized_chunk(n, size, j)) by {
                reveal(sized_chunk);
            }
        }
        let ghost prev = r@;
        r.push(Chunk { start, end });
        proof {
            assert(r@ == prev.push(Chunk { start, end }));
        }
        start = end;
    }
    proof {
        let c = r@.len() as int;
        let s = size as int;
        if c > 0 {
            assert((c - 1) * s == c * s - s) by (nonlinear_arith);
            assert(0 <= n + s - 1 - c * s < s);
            lemma_fundamental_div_mod_converse(n + s - 1, s, c, n + s - 1 - c * s);
        } else {
            lemma_fundamental_div_mod_converse(n + s - 1, s, 0, n + s - 1);
        }
        lemma_tiling_covers_exactly(r@, n as int);
        assert(r@ =~= sized_seq(n, size));
    }
    Some(r)
}

} // verus!
