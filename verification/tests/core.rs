use rangedl::assemble::assemble;
use rangedl::coordinate::{first_worker_error, step, Event, Phase};
use rangedl::errors::DownloadError;
use rangedl::plan::plan_ranges;
use rangedl::progress::{percent, ProgressTracker};

fn sample_content(len: usize) -> Vec<u8> {
    let mut content: Vec<u8> = Vec::new();
    for i in 0..len {
        content.push((i % 251) as u8);
    }
    content
}

fn slice_parts(content: &[u8], ranges: &[rangedl::plan::WorkerRange]) -> Vec<Vec<u8>> {
    let mut parts: Vec<Vec<u8>> = Vec::new();
    for r in ranges {
        parts.push(content[r.start as usize..=r.end as usize].to_vec());
    }
    parts
}

#[test]
fn partition_even_split() {
    let ranges = plan_ranges(100, 4);
    assert_eq!(ranges.len(), 4);
    let expected = [(0u64, 24u64), (25, 49), (50, 74), (75, 99)];
    for (i, r) in ranges.iter().enumerate() {
        assert_eq!(r.index, i as u64);
        assert_eq!(r.start, expected[i].0);
        assert_eq!(r.end, expected[i].1);
    }
}

#[test]
fn partition_with_remainder() {
    let ranges = plan_ranges(10, 3);
    assert_eq!(ranges.len(), 3);
    assert_eq!((ranges[0].start, ranges[0].end), (0, 2));
    assert_eq!((ranges[1].start, ranges[1].end), (3, 5));
    assert_eq!((ranges[2].start, ranges[2].end), (6, 9));
}

#[test]
fn partition_single_worker() {
    let ranges = plan_ranges(7, 1);
    assert_eq!(ranges.len(), 1);
    assert_eq!((ranges[0].start, ranges[0].end), (0, 6));
}

#[test]
fn partition_covers_every_byte_once() {
    let total: u64 = 10007;
    for workers in [1u64, 2, 5, 16] {
        let ranges = plan_ranges(total, workers);
        let mut seen = vec![0u32; total as usize];
        for r in &ranges {
            assert!(r.start <= r.end);
            for k in r.start..=r.end {
                seen[k as usize] += 1;
            }
        }
        assert!(seen.iter().all(|&c| c == 1));
        assert_eq!(ranges.last().unwrap().end, total - 1);
    }
}

#[test]
fn partition_clamps_excess_workers() {
    let ranges = plan_ranges(5, 8);
    assert_eq!(ranges.len(), 5);
    for (i, r) in ranges.iter().enumerate() {
        assert_eq!(r.start, i as u64);
        assert_eq!(r.end, i as u64);
    }
}

#[test]
fn partition_zero_size_plans_no_fetches() {
    let ranges = plan_ranges(0, 4);
    assert!(ranges.is_empty());
}

#[test]
fn reassembly_fidelity_across_worker_counts() {
    let content = sample_content(1000);
    for workers in [1u64, 2, 5, 16] {
        let ranges = plan_ranges(content.len() as u64, workers);
        let parts = slice_parts(&content, &ranges);
        let out = assemble(&parts);
        assert_eq!(out, content);
    }
}

#[test]
fn zero_size_download_yields_empty_output() {
    let ranges = plan_ranges(0, 4);
    let parts = slice_parts(&[], &ranges);
    assert!(parts.is_empty());
    let out = assemble(&parts);
    assert!(out.is_empty());
}

#[test]
fn assemble_concatenates_in_order() {
    let parts = vec![vec![1u8, 2], vec![3], vec![], vec![4, 5, 6]];
    assert_eq!(assemble(&parts), vec![1, 2, 3, 4, 5, 6]);
}

#[test]
fn progress_counters_are_monotone() {
    let ranges = plan_ranges(100, 4);
    let mut tracker = ProgressTracker::for_plan(&ranges, 100, 4);
    assert_eq!(tracker.worker_count(), 4);
    let mut last = vec![0u64; 4];
    for step_bytes in [5u64, 10, 10] {
        for w in 0..4usize {
            tracker.record(w, step_bytes);
            let now = tracker.get(w);
            assert!(now >= last[w]);
            last[w] = now;
        }
        assert!(tracker.aggregate() <= 100);
    }
}

#[test]
fn aggregate_reaches_but_never_exceeds_total() {
    let ranges = plan_ranges(10, 3);
    let mut tracker = ProgressTracker::for_plan(&ranges, 10, 3);
    for w in 0..3usize {
        let budget = tracker.limit(w);
        tracker.record(w, budget);
    }
    assert_eq!(tracker.aggregate(), 10);
    assert!(tracker.is_complete(10));
}

#[test]
fn reporter_stops_exactly_at_total() {
    let ranges = plan_ranges(100, 2);
    let mut tracker = ProgressTracker::for_plan(&ranges, 100, 2);
    assert!(!tracker.is_complete(100));
    tracker.record(0, 50);
    assert!(!tracker.is_complete(100));
    tracker.record(1, 49);
    assert!(!tracker.is_complete(100));
    tracker.record(1, 1);
    assert!(tracker.is_complete(100));
}

#[test]
fn worker_chunk_keeps_counter_equal_to_artifact() {
    let ranges = plan_ranges(10, 2);
    let mut tracker = ProgressTracker::for_plan(&ranges, 10, 2);
    let mut artifact: Vec<u8> = Vec::new();
    rangedl::fetch::worker_chunk(&mut artifact, &mut tracker, 0, &[10, 20, 30]);
    assert_eq!(artifact, vec![10, 20, 30]);
    assert_eq!(tracker.get(0), 3);
    assert_eq!(tracker.get(1), 0);
    rangedl::fetch::worker_chunk(&mut artifact, &mut tracker, 0, &[40, 50]);
    assert_eq!(artifact, vec![10, 20, 30, 40, 50]);
    assert_eq!(tracker.get(0), 5);
    assert_eq!(tracker.aggregate(), 5);
}

#[test]
fn percent_values() {
    assert_eq!(percent(0, 200), 0);
    assert_eq!(percent(50, 200), 25);
    assert_eq!(percent(199, 200), 99);
    assert_eq!(percent(200, 200), 100);
    assert_eq!(percent(0, 0), 100);
}

#[test]
fn coordinator_happy_path() {
    let mut phase = Phase::Init;
    for event in [
        Event::Started,
        Event::SizeKnown,
        Event::Planned,
        Event::WorkersSpawned,
        Event::WorkersJoined,
        Event::Assembled,
    ] {
        phase = step(phase, event);
    }
    assert_eq!(phase, Phase::Done);
}

#[test]
fn missing_size_is_fatal() {
    let phase = step(Phase::SizeDiscovery, Event::SizeMissing);
    assert_eq!(phase, Phase::Failed(DownloadError::SizeUnavailable));
}

#[test]
fn worker_failure_is_fatal_and_skips_assembly() {
    let mut phase = Phase::Joining;
    phase = step(phase, Event::WorkerFailed(DownloadError::NetworkError));
    assert_eq!(phase, Phase::Failed(DownloadError::NetworkError));
    // No later event revives the run: assembly, which alone creates the
    // output file, is never entered.
    for event in [Event::WorkersJoined, Event::Assembled, Event::Planned] {
        phase = step(phase, event);
        assert_eq!(phase, Phase::Failed(DownloadError::NetworkError));
    }
}

#[test]
fn assembly_failure_is_fatal() {
    let phase = step(Phase::Assembling, Event::AssemblyFailed);
    assert_eq!(phase, Phase::Failed(DownloadError::IoError));
}

#[test]
fn first_error_is_reported_in_worker_order() {
    let results = vec![
        None,
        Some(DownloadError::NetworkError),
        Some(DownloadError::IoError),
    ];
    assert_eq!(first_worker_error(&results), Some(DownloadError::NetworkError));
    let all_ok: Vec<Option<DownloadError>> = vec![None, None, None];
    assert_eq!(first_worker_error(&all_ok), None);
    let empty: Vec<Option<DownloadError>> = Vec::new();
    assert_eq!(first_worker_error(&empty), None);
}
