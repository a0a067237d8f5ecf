//! A run from sample count to tally: validation, partitioning, parallel
//! execution of the chunks, and aggregation after the join.
use vstd::prelude::*;
use rayon::iter::{IndexedParallelIterator, IntoParallelRefIterator, ParallelIterator};
use crate::counters::{lemma_sum_step, sum, SharedCounters, Tally};
use crate::partition::{
    bounded_chunk_size, bounded_size, chunk_count, equal_chunks, equal_split, sized_chunks, sized_seq,
    tiles, Chunk,
};
use crate::sample::{hits_in, lemma_batches_compose, sample_batch, stream_points};
use crate::source::{fresh_seed, Source};

verus! {

/// Fewest samples for a meaningful estimate.
pub const MIN_SAMPLES: u64 = 1000;

/// Sample count used when none valid was given.
pub const DEFAULT_SAMPLES: u64 = 1_000_000;

/// Largest batch a worker samples before publishing to the shared counters.
pub const BATCH_LIMIT: u64 = 10_000;

/// Errors of the core.
#[derive(Clone, Copy, Debug, PartialEq, Eq, Structural)]
pub enum CoreError {
    /// Fewer samples than `MIN_SAMPLES` were asked for.
    InvalidSampleCount,
    /// An estimate was asked of a tally with no samples.
    DegenerateAggregation,
}

/// How the samples are split into chunks.
#[derive(Clone, Copy, Debug, PartialEq, Eq, Structural)]
pub enum Policy {
    /// One chunk per worker, the last taking the remainder.
    EqualSplit,
    /// Chunks of a bounded size, about ten per worker.
    Bounded,
}

/// Number of chunks that `policy` makes of `n` samples for `workers` workers.
pub open spec fn planned_chunks(n: int, workers: int, policy: Policy) -> int {
    match policy {
        Policy::EqualSplit => workers,
        Policy::Bounded => chunk_count(n, bounded_size(n, workers)),
    }
}

/// The seed of the source of chunk `i` in a run seeded with `seed`.
pub open spec fn chunk_seed(seed: u64, i: int) -> u64 {
    vstd::wrapping::u64_specs::wrapping_add(seed, i as u64)
}

/// The chunks that `policy` makes of `n` samples for `workers` workers.
pub open spec fn planned_seq(n: u64, workers: usize, policy: Policy) -> Seq<Chunk> {
    match policy {
        Policy::EqualSplit => equal_chunks(n, workers as u64),
        Policy::Bounded => sized_seq(n, bounded_size(n as int, workers as int) as u64),
    }
}

/// Hits of chunk `c` when its points are read from the start of the stream of `seed`.
pub open spec fn chunk_hits(seed: u64, c: Chunk) -> nat {
    hits_in(stream_points(seed, 0, c.size()))
}

/// Hits of the first `k` chunks of `chunks` in a run seeded with `seed`,
/// chunk `i` reading the stream of `chunk_seed(seed, i)`.
pub open spec fn run_hits(chunks: Seq<Chunk>, seed: u64, k: int) -> int
    decreases k,
{
    if k <= 0 {
        0
    } else {
        run_hits(chunks, seed, k - 1) + chunk_hits(chunk_seed(seed, k - 1), chunks[k - 1])
    }
}

proof fn lemma_sum_is_run_hits(hits: Seq<u64>, chunks: Seq<Chunk>, seed: u64, k: int)
    requires
        hits.len() == chunks.len(),
        0 <= k <= hits.len(),
        forall|i: int| 0 <= i < hits.len() ==> #[trigger] hits[i] == chunk_hits(chunk_seed(seed, i), chunks[i]),
    ensures
        sum(hits.take(k)) == run_hits(chunks, seed, k),
    decreases k,
{
    if k > 0 {
        lemma_sum_is_run_hits(hits, chunks, seed, k - 1);
        lemma_sum_step(hits, k);
    } else {
        assert(hits.take(0) =~= Seq::<u64>::empty());
    }
}

/// A validated sample count, split into chunks.
#[derive(Clone, Debug, PartialEq, Eq)]
pub struct Plan {
    pub samples: u64,
    pub chunks: Vec<Chunk>,
}

impl Plan {
    /// The count is valid and the chunks tile `[0, samples)`.
    pub open spec fn wf(&self) -> bool {
        &&& self.samples >= MIN_SAMPLES
        &&& tiles(self.chunks@, self.samples as int)
    }
}

/// One unit of work: a chunk, the lane whose progress counter it advances, and
/// the seed of its random source.
#[derive(Clone, Copy, Debug, PartialEq, Eq, Structural)]
pub struct Job {
    pub lane: usize,
    pub chunk: Chunk,
    pub seed: u64,
}

/// Accepts a sample count of at least `MIN_SAMPLES`.
pub fn validate_sample_count(n: u64) -> (r: Result<u64, CoreError>)
    ensures
        r == (if n >= MIN_SAMPLES {
            Ok::<u64, CoreError>(n)
        } else {
            Err::<u64, CoreError>(CoreError::InvalidSampleCount)
        }),
{
    if n >= MIN_SAMPLES {
        Ok(n)
    } else {
        Err(CoreError::InvalidSampleCount)
    }
}

/// Validates `n` and splits it into chunks for `workers` workers under `policy`.
pub fn plan_run(n: u64, workers: usize, policy: Policy) -> (r: Result<Plan, CoreError>)
    requires
        workers >= 1,
    ensures
        n < MIN_SAMPLES <==> r == Err::<Plan, CoreError>(CoreError::InvalidSampleCount),
        n >= MIN_SAMPLES ==> r is Ok,
        r matches Ok(p) ==> {
            &&& p.wf()
            &&& p.samples == n
            &&& p.chunks@.len() == planned_chunks(n as int, workers as int, policy)
            &&& p.chunks@ == planned_seq(n, workers, policy)
        },
        r matches Ok(p) ==> policy == Policy::EqualSplit ==> {
            &&& forall|i: int| 0 <= i < workers - 1 ==> (#[trigger] p.chunks@[i]).size() == (n as int) / (workers as int)
            &&& p.chunks@.last().size() == (n as int) / (workers as int) + (n as int) % (workers as int)
        },
        r matches Ok(p) ==> policy == Policy::Bounded ==> {
            &&& forall|i: int| 0 <= i < p.chunks@.len() ==> 0 < (#[trigger] p.chunks@[i]).size() <= bounded_size(n as int, workers as int)
            &&& forall|i: int| 0 <= i < p.chunks@.len() - 1 ==> (#[trigger] p.chunks@[i]).size() == bounded_size(n as int, workers as int)
        },
{
    let n = match validate_sample_count(n) {
        Ok(n) => n,
        Err(e) => return Err(e),
    };
    match policy {
        Policy::EqualSplit => {
            let chunks = equal_split(n, workers as u64);
            Ok(Plan { samples: n, chunks })
        },
        Policy::Bounded => {
            let size = bounded_chunk_size(n, workers as u64);
            match sized_chunks(n, size) {
                Some(chunks) => Ok(Plan { samples: n, chunks }),
                // a validated count gives a positive size: this arm is never taken
                None => Err(CoreError::InvalidSampleCount),
            }
        },
    }
}

/// One job per chunk of `plan`: chunk `i` on lane `i`, with its source seeded by `chunk_seed(seed, i)`.
pub fn make_jobs(plan: &Plan, seed: u64) -> (r: Vec<Job>)
    ensures
        r@.len() == plan.chunks@.len(),
        forall|i: int|
            0 <= i < r@.len() ==> (#[trigger] r@[i]) == (Job {
                lane: i as usize,
                chunk: plan.chunks@[i],
                seed: chunk_seed(seed, i),
            }),
{
    let mut jobs: Vec<Job> = Vec::new();
    let mut i: usize = 0;
    while i < plan.chunks.len()
        invariant
            i <= plan.chunks@.len(),
            jobs@.len() == i,
            forall|j: int|
                0 <= j < i ==> (#[trigger] jobs@[j]) == (Job {
                    lane: j as usize,
                    chunk: plan.chunks@[j],
                    seed: chunk_seed(seed, j),
                }),
        decreases plan.chunks@.len() - i,
    {
        jobs.push(Job { lane: i, chunk: plan.chunks[i], seed: seed.wrapping_add(i as u64) });
        i = i + 1;
    }
    jobs
}

/// Samples the chunk of `job` in batches of at most `BATCH_LIMIT`, from a
/// source of its own seeded with the job's seed, publishing each batch to
/// `counters`. Returns its hits.
pub fn run_job(counters: &SharedCounters, job: &Job) -> (r: u64)
    requires
        job.lane < counters.lanes(),
        job.chunk.start <= job.chunk.end,
    ensures
        r == chunk_hits(job.seed, job.chunk),
        r <= job.chunk.size(),
{
    let mut src = Source::new(job.seed);
    let len = job.chunk.len();
    let mut done: u64 = 0;
    let mut hits: u64 = 0;
    while done < len
        invariant
            done <= len,
            hits <= done,
            len == job.chunk.size(),
            job.lane < counters.lanes(),
            src.seed() == job.seed,
            src.pos() == 2 * done,
            hits == hits_in(stream_points(job.seed, 0, done as int)),
        decreases len - done,
    {
        let batch = if len - done > BATCH_LIMIT { BATCH_LIMIT } else { len - done };
        let h = sample_batch(&mut src, batch);
        proof {
            lemma_batches_compose(job.seed, 0, done as int, batch as int);
        }
        counters.publish(job.lane, h, batch);
        hits = hits + h;
        done = done + batch;
    }
    hits
}

/// Relies on rayon's `par_iter` over a slice, `map` and `collect_into_vec`:
/// every job is run once by `run_job`, possibly on several threads, the call
/// returns after all have finished, and the results stand in the jobs' order.
#[verifier::external_body]
fn run_jobs_parallel(counters: &SharedCounters, jobs: &Vec<Job>) -> (r: Vec<u64>)
    requires
        forall|i: int|
            0 <= i < jobs@.len() ==> (#[trigger] jobs@[i]).lane < counters.lanes()
                && jobs@[i].chunk.start <= jobs@[i].chunk.end,
    ensures
        r@.len() == jobs@.len(),
        forall|i: int| 0 <= i < r@.len() ==> #[trigger] r@[i] == chunk_hits(jobs@[i].seed, jobs@[i].chunk),
        forall|i: int| 0 <= i < r@.len() ==> #[trigger] r@[i] <= jobs@[i].chunk.size(),
{
    let mut out = Vec::new();
    jobs.par_iter().map(|job| run_job(counters, job)).collect_into_vec(&mut out);
    out
}

/// Relies on `rayon::current_num_threads`: the number of threads of the pool
/// that parallel work runs on.
#[verifier::external_body]
fn pool_threads() -> (r: usize) {
    rayon::current_num_threads()
}

/// Adds up the hits of the finished chunks of `plan`.
pub fn aggregate(plan: &Plan, hits: &Vec<u64>) -> (r: Tally)
    requires
        plan.wf(),
        hits@.len() == plan.chunks@.len(),
        forall|i: int| 0 <= i < hits@.len() ==> #[trigger] hits@[i] <= plan.chunks@[i].size(),
    ensures
        r.wf(),
        r.total == plan.samples,
        r.hits == sum(hits@),
{
    let mut t = Tally::new();
    let mut i: usize = 0;
    while i < hits.len()
        invariant
            plan.wf(),
            hits@.len() == plan.chunks@.len(),
            forall|j: int| 0 <= j < hits@.len() ==> #[trigger] hits@[j] <= plan.chunks@[j].size(),
            i <= hits@.len(),
            t.wf(),
            t.total == (if i == 0 { 0 } else { plan.chunks@[i - 1].end as int }),
            t.hits == sum(hits@.subrange(0, i as int)),
        decreases hits@.len() - i,
    {
        let c = plan.chunks[i];
        proof {
            assert(hits@.subrange(0, i + 1).drop_last() =~= hits@.subrange(0, i as int));
            assert(c.start <= c.end);
        }
        t.record(hits[i], c.len());
        i = i + 1;
    }
    proof {
        assert(hits@.subrange(0, i as int) =~= hits@);
    }
    t
}

/// Runs all jobs of `plan` in parallel, publishing to `counters` as they go,
/// and after all have finished adds up their hits.
pub fn execute(plan: &Plan, counters: &SharedCounters, seed: u64) -> (r: Tally)
    requires
        plan.wf(),
        counters.lanes() == plan.chunks@.len(),
    ensures
        r.wf(),
        r.total == plan.samples,
        r.hits == run_hits(plan.chunks@, seed, plan.chunks@.len() as int),
{
    let jobs = make_jobs(plan, seed);
    proof {
        assert forall|i: int| 0 <= i < jobs@.len() implies (#[trigger] jobs@[i]).lane < counters.lanes()
            && jobs@[i].chunk.start <= jobs@[i].chunk.end by {
            assert(jobs@[i].chunk == plan.chunks@[i]);
        }
    }
    let hits = run_jobs_parallel(counters, &jobs);
    proof {
        assert forall|i: int| 0 <= i < hits@.len() implies #[trigger] hits@[i] == chunk_hits(
            chunk_seed(seed, i),
            plan.chunks@[i],
        ) by {
            assert(jobs@[i].chunk == plan.chunks@[i]);
        }
        lemma_sum_is_run_hits(hits@, plan.chunks@, seed, hits@.len() as int);
        assert(hits@.take(hits@.len() as int) =~= hits@);
    }
    aggregate(plan, &hits)
}

/// A whole run with sources seeded from `seed`: validates `n` before any
/// counter exists, plans, executes and aggregates.
pub fn run_seeded(n: u64, workers: usize, policy: Policy, seed: u64) -> (r: Result<Tally, CoreError>)
    requires
        workers >= 1,
    ensures
        n < MIN_SAMPLES <==> r == Err::<Tally, CoreError>(CoreError::InvalidSampleCount),
        n >= MIN_SAMPLES ==> r is Ok,
        r matches Ok(t) ==> t.wf() && t.total == n,
        r matches Ok(t) ==> t.hits == run_hits(
            planned_seq(n, workers, policy),
            seed,
            planned_chunks(n as int, workers as int, policy),
        ),
{
    let plan = match plan_run(n, workers, policy) {
        Ok(p) => p,
        Err(e) => return Err(e),
    };
    let counters = SharedCounters::new(plan.chunks.len());
    Ok(execute(&plan, &counters, seed))
}

/// Runs seeded alike agree: two tallies that both hold what `run_seeded`
/// returns for the same sample count, worker count, policy and seed have the
/// same hits and the same total, whatever order the chunks ran in.
pub proof fn lemma_seeded_runs_agree(n: u64, workers: usize, policy: Policy, seed: u64, a: Tally, b: Tally)
    requires
        a.total == n,
        b.total == n,
        a.hits == run_hits(planned_seq(n, workers, policy), seed, planned_chunks(n as int, workers as int, policy)),
        b.hits == run_hits(planned_seq(n, workers, policy), seed, planned_chunks(n as int, workers as int, policy)),
    ensures
        a == b,
{
}

/// Estimates π from `n` samples on all threads of the pool, bounded-size
/// chunks, and sources seeded afresh.
pub fn estimate_pi(n: u64) -> (r: Result<Tally, CoreError>)
    ensures
        n < MIN_SAMPLES <==> r == Err::<Tally, CoreError>(CoreError::InvalidSampleCount),
        n >= MIN_SAMPLES ==> r is Ok,
        r matches Ok(t) ==> t.wf() && t.total == n,
{
    let threads = pool_threads();
    let workers = if threads == 0 { 1 } else { threads };
    run_seeded(n, workers, Policy::Bounded, fresh_seed())
}

} // verus!
