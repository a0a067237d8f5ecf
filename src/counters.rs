//! The counters of a run: live atomic counters that workers publish into and a
//! progress reporter polls, and the verified tally that the result is read from.
use vstd::prelude::*;
use std::sync::atomic::{AtomicU64, Ordering};

verus! {

/// Live counters shared by all workers of a run: hits, samples, and one
/// progress counter per lane (unit of work). Only ever changed by atomic adds.
///
/// Nothing here is proved of the values read while workers run; the orderings
/// are chosen for the reader's sake. A batch adds its samples to `total` before
/// its hits to `hits` (with release ordering), and `snapshot` reads `hits` (with
/// acquire ordering) before `total`: by the memory model, whatever a snapshot
/// sees of a batch's hits it also sees of its samples.
pub struct SharedCounters {
    hits: AtomicU64,
    total: AtomicU64,
    progress: Vec<AtomicU64>,
}

/// What a progress reporter observed of the live counters at one moment.
#[derive(Clone, Debug, PartialEq, Eq)]
pub struct Snapshot {
    pub hits: u64,
    pub total: u64,
    pub progress: Vec<u64>,
}

impl SharedCounters {
    /// Number of lanes, each with its own progress counter.
    pub closed spec fn lanes(&self) -> nat {
        self.progress@.len()
    }

    /// Fresh counters, all zero, with `lanes` progress counters.
    pub fn new(lanes: usize) -> (r: SharedCounters)
        ensures
            r.lanes() == lanes,
    {
        let mut progress: Vec<AtomicU64> = Vec::new();
        let mut i: usize = 0;
        while i < lanes
            invariant
                i <= lanes,
                progress@.len() == i,
            decreases lanes - i,
        {
            progress.push(AtomicU64::new(0));
            i = i + 1;
        }
        SharedCounters { hits: AtomicU64::new(0), total: AtomicU64::new(0), progress }
    }

    pub fn lane_count(&self) -> (r: usize)
        ensures
            r == self.lanes(),
    {
        self.progress.len()
    }

    /// Publishes one finished batch of lane `lane`: `samples` points of which `hits` hit.
    pub fn publish(&self, lane: usize, hits: u64, samples: u64)
        requires
            lane < self.lanes(),
    {
        self.total.fetch_add(samples, Ordering::Relaxed);
        self.hits.fetch_add(hits, Ordering::Release);
        self.progress[lane].fetch_add(samples, Ordering::Relaxed);
    }

    /// Hits published so far.
    pub fn hits(&self) -> u64 {
        self.hits.load(Ordering::Acquire)
    }

    /// Samples published so far.
    pub fn total(&self) -> u64 {
        self.total.load(Ordering::Relaxed)
    }

    /// Samples published so far by lane `lane`.
    pub fn progress(&self, lane: usize) -> u64
        requires
            lane < self.lanes(),
    {
        self.progress[lane].load(Ordering::Relaxed)
    }

    /// Reads all counters, hits first.
    pub fn snapshot(&self) -> (r: Snapshot)
        ensures
            r.progress@.len() == self.lanes(),
    {
        let hits = self.hits();
        let total = self.total();
        let mut progress: Vec<u64> = Vec::new();
        let mut i: usize = 0;
        while i < self.progress.len()
            invariant
                i <= self.progress@.len(),
                progress@.len() == i,
            decreases self.progress@.len() - i,
        {
            progress.push(self.progress(i));
            i = i + 1;
        }
        Snapshot { hits, total, progress }
    }
}

/// Running totals of a run, gathered from its finished chunks.
#[derive(Clone, Copy, Debug, PartialEq, Eq, Structural)]
pub struct Tally {
    pub hits: u64,
    pub total: u64,
}

impl Tally {
    /// No more hits than samples.
    pub open spec fn wf(self) -> bool {
        self.hits <= self.total
    }

    pub fn new() -> (r: Tally)
        ensures
            r.hits == 0,
            r.total == 0,
            r.wf(),
    {
        Tally { hits: 0, total: 0 }
    }

    /// Adds a finished batch of `samples` points with `hits` hits.
    pub fn record(&mut self, hits: u64, samples: u64)
        requires
            old(self).wf(),
            hits <= samples,
            old(self).total + samples <= u64::MAX,
        ensures
            final(self).hits == old(self).hits + hits,
            final(self).total == old(self).total + samples,
            final(self).wf(),
    {
        self.hits = self.hits + hits;
        self.total = self.total + samples;
    }
}

/// Sum of a sequence of counts.
pub open spec fn sum(s: Seq<u64>) -> int
    decreases s.len(),
{
    if s.len() == 0 {
        0
    } else {
        sum(s.drop_last()) + s.last()
    }
}

pub(crate) proof fn lemma_sum_step(s: Seq<u64>, k: int)
    requires
        0 < k <= s.len(),
    ensures
        sum(s.take(k)) == sum(s.take(k - 1)) + s[k - 1],
{
    assert(s.take(k).drop_last() =~= s.take(k - 1));
}

proof fn lemma_prefix_within(hits: Seq<u64>, sizes: Seq<u64>, k: int)
    requires
        hits.len() == sizes.len(),
        forall|i: int| 0 <= i < hits.len() ==> #[trigger] hits[i] <= sizes[i],
        0 <= k <= hits.len(),
    ensures
        0 <= sum(hits.take(k)) <= sum(sizes.take(k)),
    decreases k,
{
    if k > 0 {
        lemma_prefix_within(hits, sizes, k - 1);
        lemma_sum_step(hits, k);
        lemma_sum_step(sizes, k);
        assert(hits[k - 1] <= sizes[k - 1]);
    } else {
        assert(hits.take(0) =~= Seq::<u64>::empty());
        assert(sizes.take(0) =~= Seq::<u64>::empty());
    }
}

proof fn lemma_prefix_grows(s: Seq<u64>, j: int, k: int)
    requires
        0 <= j <= k <= s.len(),
    ensures
        sum(s.take(j)) <= sum(s.take(k)),
    decreases k - j,
{
    if j < k {
        lemma_prefix_grows(s, j, k - 1);
        lemma_sum_step(s, k);
    }
}

/// Batches published one after another, none with more hits than samples:
/// after every prefix of them the hits counted lie between 0 and the samples
/// counted, and the samples counted never decrease from one prefix to a longer one.
pub proof fn lemma_batches_keep_bounds(hits: Seq<u64>, sizes: Seq<u64>)
    requires
        hits.len() == sizes.len(),
        forall|i: int| 0 <= i < hits.len() ==> #[trigger] hits[i] <= sizes[i],
    ensures
        forall|k: int| 0 <= k <= hits.len() ==> 0 <= #[trigger] sum(hits.take(k)) <= sum(sizes.take(k)),
        forall|j: int, k: int|
            0 <= j <= k <= sizes.len() ==> #[trigger] sum(sizes.take(j)) <= #[trigger] sum(sizes.take(k)),
{
    assert forall|k: int| 0 <= k <= hits.len() implies 0 <= #[trigger] sum(hits.take(k)) <= sum(sizes.take(k)) by {
        lemma_prefix_within(hits, sizes, k);
    }
    assert forall|j: int, k: int| 0 <= j <= k <= sizes.len() implies #[trigger] sum(sizes.take(j)) <= #[trigger] sum(sizes.take(k)) by {
        lemma_prefix_grows(sizes, j, k);
    }
}

/// Recording a batch never lowers either counter and keeps hits within the
/// total, whatever state the tally was observed in.
pub proof fn lemma_record_monotone(before: Tally, after: Tally, hits: u64, samples: u64)
    requires
        before.wf(),
        hits <= samples,
        after.hits == before.hits + hits,
        after.total == before.total + samples,
    ensures
        after.total >= before.total,
        after.hits >= before.hits,
        0 <= after.hits <= after.total,
{
}

} // verus!
