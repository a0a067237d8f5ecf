use pi_approx::counters::{SharedCounters, Tally};
use pi_approx::estimate::{filled_cells, pi_scaled, progress_permille, samples_per_second};
use pi_approx::input::{sample_count_or_default, validate_sample_input, InputError};
use pi_approx::partition::{bounded_chunk_size, equal_split, sized_chunks, Chunk};
use pi_approx::run::{
    aggregate, estimate_pi, execute, run_job, Job, make_jobs, plan_run, run_seeded, validate_sample_count, CoreError,
    Plan, Policy, DEFAULT_SAMPLES,
};
use pi_approx::sample::{count_hits, draw_points, is_inside, sample_batch};
use pi_approx::source::Source;
use rand::rngs::StdRng;
use rand::{RngCore, SeedableRng};

fn assert_tiles(chunks: &[Chunk], n: u64) {
    let mut next = 0u64;
    for c in chunks {
        assert_eq!(c.start, next);
        assert!(c.start <= c.end);
        next = c.end;
    }
    assert_eq!(next, n);
}

fn as_f64(t: &Tally) -> f64 {
    4.0 * t.hits as f64 / t.total as f64
}

#[test]
fn equal_split_four_workers() {
    let chunks = equal_split(1_000_000, 4);
    assert_eq!(chunks.len(), 4);
    for c in &chunks {
        assert_eq!(c.len(), 250_000);
    }
    assert_tiles(&chunks, 1_000_000);
}

#[test]
fn equal_split_remainder_goes_last() {
    let chunks = equal_split(10, 4);
    let sizes: Vec<u64> = chunks.iter().map(|c| c.len()).collect();
    assert_eq!(sizes, vec![2, 2, 2, 4]);
    assert_tiles(&chunks, 10);
}

#[test]
fn equal_split_fewer_samples_than_workers() {
    let chunks = equal_split(3, 5);
    let sizes: Vec<u64> = chunks.iter().map(|c| c.len()).collect();
    assert_eq!(sizes, vec![0, 0, 0, 0, 3]);
    assert_tiles(&chunks, 3);
}

#[test]
fn partitions_cover_range_for_many_shapes() {
    for n in [1u64, 2, 7, 999, 1000, 10_001, 123_457, 1_000_000] {
        for t in [1u64, 2, 3, 4, 8, 16, 64] {
            assert_tiles(&equal_split(n, t), n);
            let size = bounded_chunk_size(n, t);
            let chunks = sized_chunks(n, size).unwrap();
            assert_tiles(&chunks, n);
            assert_eq!(chunks.len() as u64, (n + size - 1) / size);
        }
    }
}

#[test]
fn bounded_chunk_size_is_clamped() {
    assert_eq!(bounded_chunk_size(1_000_000, 4), 25_000);
    assert_eq!(bounded_chunk_size(1_000_000, 16), 10_000);
    assert_eq!(bounded_chunk_size(5_000, 4), 5_000);
    assert_eq!(bounded_chunk_size(u64::MAX, u64::MAX), 10_000);
}

#[test]
fn sized_chunks_last_is_shorter() {
    let chunks = sized_chunks(25, 10).unwrap();
    assert_eq!(chunks, vec![
        Chunk { start: 0, end: 10 },
        Chunk { start: 10, end: 20 },
        Chunk { start: 20, end: 25 },
    ]);
}

#[test]
fn sized_chunks_rejects_zero_size() {
    assert!(sized_chunks(100, 0).is_none());
}

#[test]
fn sized_chunks_of_nothing_is_empty() {
    assert_eq!(sized_chunks(0, 10).unwrap(), vec![]);
}

#[test]
fn inside_classification_is_exact() {
    assert!(is_inside(0, 0));
    assert!(is_inside(u64::MAX, 0));
    assert!(is_inside(0, u64::MAX));
    assert!(!is_inside(u64::MAX, u64::MAX));
    // 0.7 and 0.7: 0.98 <= 1; 0.71 and 0.71: 1.0082 > 1
    let w = |x: f64| ((x * 9_007_199_254_740_992.0) as u64) << 11;
    assert!(is_inside(w(0.7), w(0.7)));
    assert!(!is_inside(w(0.71), w(0.71)));
}

#[test]
fn count_hits_counts_inside_points() {
    let pts = vec![(0u64, 0u64), (u64::MAX, u64::MAX), (u64::MAX, 0), (1 << 63, 1 << 63)];
    assert_eq!(count_hits(&pts), 3);
    assert_eq!(count_hits(&vec![]), 0);
}

#[test]
fn sample_batch_stays_within_count() {
    let mut src = Source::new(7);
    let hits = sample_batch(&mut src, 10_000);
    assert!(hits <= 10_000);
    // about π/4 of the points hit
    assert!(hits > 7_500 && hits < 8_200, "hits {}", hits);
    let mut again = Source::new(7);
    assert_eq!(sample_batch(&mut again, 10_000), hits);
}

#[test]
fn sample_batch_reads_the_seeded_stream() {
    let mut rng = StdRng::seed_from_u64(42);
    let pts: Vec<(u64, u64)> = (0..300).map(|_| (rng.next_u64(), rng.next_u64())).collect();
    let mut src = Source::new(42);
    let first = sample_batch(&mut src, 100);
    let second = sample_batch(&mut src, 200);
    assert_eq!(first, count_hits(&pts[..100].to_vec()));
    assert_eq!(second, count_hits(&pts[100..].to_vec()));
    let mut whole = Source::new(42);
    assert_eq!(sample_batch(&mut whole, 300), first + second);
}

#[test]
fn sources_with_other_seeds_differ() {
    let mut a = Source::new(1);
    let mut b = Source::new(2);
    assert_ne!(draw_points(&mut a, 4), draw_points(&mut b, 4));
}

#[test]
fn tally_records_batches() {
    let mut t = Tally::new();
    t.record(3, 5);
    t.record(0, 2);
    assert_eq!(t, Tally { hits: 3, total: 7 });
    assert!(t.hits <= t.total);
}

#[test]
fn shared_counters_publish_and_snapshot() {
    let c = SharedCounters::new(3);
    assert_eq!(c.lane_count(), 3);
    c.publish(1, 4, 10);
    c.publish(2, 1, 5);
    c.publish(1, 2, 3);
    assert_eq!(c.hits(), 7);
    assert_eq!(c.total(), 18);
    assert_eq!(c.progress(0), 0);
    assert_eq!(c.progress(1), 13);
    let s = c.snapshot();
    assert_eq!(s.hits, 7);
    assert_eq!(s.total, 18);
    assert_eq!(s.progress, vec![0, 13, 5]);
}

#[test]
fn validate_sample_count_threshold() {
    assert_eq!(validate_sample_count(1000), Ok(1000));
    assert_eq!(validate_sample_count(999), Err(CoreError::InvalidSampleCount));
    assert_eq!(validate_sample_count(0), Err(CoreError::InvalidSampleCount));
}

#[test]
fn zero_samples_rejected() {
    assert_eq!(run_seeded(0, 4, Policy::EqualSplit, 1), Err(CoreError::InvalidSampleCount));
    assert_eq!(run_seeded(0, 4, Policy::Bounded, 1), Err(CoreError::InvalidSampleCount));
    assert_eq!(plan_run(0, 1, Policy::Bounded), Err(CoreError::InvalidSampleCount));
    assert_eq!(estimate_pi(0), Err(CoreError::InvalidSampleCount));
}

#[test]
fn plan_bounded_counts_chunks() {
    let p = plan_run(1_000_000, 4, Policy::Bounded).unwrap();
    assert_eq!(p.samples, 1_000_000);
    assert_eq!(p.chunks.len(), 40);
    assert_tiles(&p.chunks, 1_000_000);
    let q = plan_run(1_234, 8, Policy::Bounded).unwrap();
    assert_eq!(q.chunks, vec![Chunk { start: 0, end: 1_234 }]);
}

#[test]
fn jobs_take_lane_and_seed_from_index() {
    let p = plan_run(30_000, 3, Policy::EqualSplit).unwrap();
    let jobs = make_jobs(&p, u64::MAX);
    assert_eq!(jobs.len(), 3);
    assert_eq!(jobs[0].seed, u64::MAX);
    assert_eq!(jobs[1].seed, 0);
    assert_eq!(jobs[2].lane, 2);
    assert_eq!(jobs[2].chunk, Chunk { start: 20_000, end: 30_000 });
}

#[test]
fn aggregate_sums_chunk_hits() {
    let p = Plan { samples: 1_000, chunks: vec![Chunk { start: 0, end: 600 }, Chunk { start: 600, end: 1_000 }] };
    let t = aggregate(&p, &vec![450, 320]);
    assert_eq!(t, Tally { hits: 770, total: 1_000 });
}

#[test]
fn end_to_end_equal_split() {
    let p = plan_run(1_000_000, 4, Policy::EqualSplit).unwrap();
    assert_eq!(p.chunks.iter().map(|c| c.len()).collect::<Vec<_>>(), vec![250_000; 4]);
    let t = run_seeded(1_000_000, 4, Policy::EqualSplit, 2024).unwrap();
    assert_eq!(t.total, 1_000_000);
    assert!(t.hits <= t.total);
    let pi = as_f64(&t);
    let shown = format!("{:.10}", pi);
    assert_eq!(shown.len(), 12);
    assert!((3.0..=3.3).contains(&pi), "{}", shown);
}

#[test]
fn seeded_runs_repeat_exactly() {
    let a = run_seeded(200_000, 3, Policy::Bounded, 99).unwrap();
    let b = run_seeded(200_000, 3, Policy::Bounded, 99).unwrap();
    assert_eq!(a, b);
    let c = run_seeded(200_000, 3, Policy::EqualSplit, 5).unwrap();
    let d = run_seeded(200_000, 3, Policy::EqualSplit, 5).unwrap();
    assert_eq!(c, d);
}

#[test]
fn estimate_converges() {
    let t = run_seeded(1_000_000, 4, Policy::Bounded, 31_415).unwrap();
    assert_eq!(t.total, 1_000_000);
    assert!((as_f64(&t) - std::f64::consts::PI).abs() < 0.01, "{}", as_f64(&t));
}

#[test]
fn estimate_pi_uses_fresh_sources() {
    let t = estimate_pi(100_000).unwrap();
    assert_eq!(t.total, 100_000);
    assert!(t.hits <= t.total);
    assert!((as_f64(&t) - std::f64::consts::PI).abs() < 0.1);
}

#[test]
fn pi_scaled_fixed_point() {
    assert_eq!(pi_scaled(785_398, 1_000_000, 10_000_000_000), Ok(31_415_920_000));
    assert_eq!(pi_scaled(1, 3, 1_000), Ok(1_333));
    assert_eq!(pi_scaled(u64::MAX, u64::MAX, 1_000_000_000_000_000_000), Ok(4_000_000_000_000_000_000));
    assert_eq!(pi_scaled(0, 0, 10), Err(CoreError::DegenerateAggregation));
}

#[test]
fn throughput_per_second() {
    assert_eq!(samples_per_second(1_000_000, 500_000_000), Some(2_000_000));
    assert_eq!(samples_per_second(3, 2_000_000_000), Some(1));
    assert_eq!(samples_per_second(10, 0), None);
}

#[test]
fn progress_is_clamped() {
    assert_eq!(progress_permille(250, 1000), 250);
    assert_eq!(progress_permille(1, 3), 333);
    assert_eq!(progress_permille(5000, 1000), 1000);
    assert_eq!(progress_permille(0, 0), 1000);
    assert_eq!(progress_permille(u64::MAX, 1), 1000);
}

#[test]
fn bar_cells() {
    assert_eq!(filled_cells(500, 50), 25);
    assert_eq!(filled_cells(1000, 50), 50);
    assert_eq!(filled_cells(0, 50), 0);
    assert_eq!(filled_cells(333, 10), 3);
}

#[test]
fn sample_input_parsing() {
    assert_eq!(validate_sample_input("1000"), Ok(1000));
    assert_eq!(validate_sample_input("+5000"), Ok(5000));
    assert_eq!(validate_sample_input("999"), Err(InputError::TooSmall));
    assert_eq!(validate_sample_input("abc"), Err(InputError::NotANumber));
    assert_eq!(validate_sample_input(""), Err(InputError::NotANumber));
    assert_eq!(validate_sample_input(" 1000"), Err(InputError::NotANumber));
    assert_eq!(validate_sample_input("-1000"), Err(InputError::NotANumber));
    assert_eq!(validate_sample_input("18446744073709551616"), Err(InputError::NotANumber));
    assert_eq!(validate_sample_input("18446744073709551615"), Ok(u64::MAX));
}

#[test]
fn sample_input_falls_back_to_default() {
    assert_eq!(sample_count_or_default("2500"), 2500);
    assert_eq!(sample_count_or_default("12"), DEFAULT_SAMPLES);
    assert_eq!(sample_count_or_default("x"), DEFAULT_SAMPLES);
}

#[test]
fn live_counters_stay_consistent() {
    let n = 400_000u64;
    let plan = plan_run(n, 4, Policy::EqualSplit).unwrap();
    let counters = SharedCounters::new(plan.chunks.len());
    let (tally, observed) = rayon::join(
        || execute(&plan, &counters, 11),
        || {
            let mut last_total = 0u64;
            let mut seen = 0usize;
            loop {
                let s = counters.snapshot();
                assert!(s.hits <= s.total, "hits {} total {}", s.hits, s.total);
                assert!(s.total >= last_total);
                last_total = s.total;
                seen += 1;
                if s.total >= n {
                    break;
                }
            }
            seen
        },
    );
    assert!(observed >= 1);
    assert_eq!(tally.total, n);
    assert_eq!(counters.total(), n);
    assert_eq!(counters.hits(), tally.hits);
    let s = counters.snapshot();
    assert_eq!(s.progress, vec![100_000; 4]);
}

#[test]
fn run_job_matches_one_batch_of_the_stream() {
    let counters = SharedCounters::new(2);
    let job = Job { lane: 1, chunk: Chunk { start: 5_000, end: 30_000 }, seed: 77 };
    let hits = run_job(&counters, &job);
    let mut src = Source::new(77);
    assert_eq!(hits, sample_batch(&mut src, 25_000));
    assert_eq!(counters.total(), 25_000);
    assert_eq!(counters.hits(), hits);
    assert_eq!(counters.progress(1), 25_000);
    assert_eq!(counters.progress(0), 0);
}

#[test]
fn run_hits_are_the_sum_over_chunks() {
    for policy in [Policy::EqualSplit, Policy::Bounded] {
        let plan = plan_run(123_457, 3, policy).unwrap();
        let seed = u64::MAX - 1;
        let mut expected = 0u64;
        for (i, c) in plan.chunks.iter().enumerate() {
            let mut src = Source::new(seed.wrapping_add(i as u64));
            expected += sample_batch(&mut src, c.len());
        }
        let t = run_seeded(123_457, 3, policy, seed).unwrap();
        assert_eq!(t, Tally { hits: expected, total: 123_457 });
    }
}
