use kvbench::cmap::ConcurrentMap;
use kvbench::histogram::Histogram;
use kvbench::load::{load_initial, load_ops};
use kvbench::report::{aggregate, get_rss_bytes, partition_ranges};
use kvbench::worker::{worker, WorkerResults};

#[test]
fn partition_four_ops_two_workers() {
    let r = partition_ranges(4, 2);
    assert_eq!(r, vec![(0, 2), (2, 4)]);
}

#[test]
fn partition_four_ops_three_workers_last_absorbs_remainder() {
    let r = partition_ranges(4, 3);
    assert_eq!(r, vec![(0, 1), (1, 2), (2, 4)]);
}

#[test]
fn partition_edge_cases() {
    assert_eq!(partition_ranges(0, 3), vec![(0, 0), (0, 0), (0, 0)]);
    assert_eq!(partition_ranges(5, 1), vec![(0, 5)]);
    // With more workers than operations every range but the last is
    // empty, and the last starts at (workers - 1) * (2 / 4) = 0, so it
    // absorbs the whole trace.
    assert_eq!(partition_ranges(2, 4), vec![(0, 0), (0, 0), (0, 0), (0, 2)]);
}

#[test]
fn worker_with_empty_range_does_nothing() {
    let m = load_initial(&vec!["abc\thttp://x".to_string()], 1);
    let ops = load_ops(&vec!["G abc".to_string()]);
    let cmap = ConcurrentMap::new(m);
    let r = worker(&cmap, &ops, 0, 0, 1_000_000, 5_000_000);
    assert_eq!(r.total_ops, 0);
    assert_eq!(r.read_count, 0);
    assert_eq!(r.write_count, 0);
}

#[test]
fn end_to_end_read_only_run() {
    // One entry, a trace of two lookups of that entry, one worker, one
    // shard: after the run there are no writes, some reads, and a read
    // latency percentile inside the histogram's range.
    let m = load_initial(&vec!["abc\thttp://x".to_string()], 1);
    let ops = load_ops(&vec!["G abc".to_string(), "G abc".to_string()]);
    assert_eq!(ops.len(), 2);
    let ranges = partition_ranges(ops.len(), 1);
    assert_eq!(ranges, vec![(0, 2)]);
    let cmap = ConcurrentMap::new(m);
    let (start, end) = ranges[0];
    let r = worker(&cmap, &ops, start, end, 5_000_000, 50_000_000);
    assert_eq!(r.write_count, 0);
    assert!(r.read_count > 0);
    assert_eq!(r.total_ops, r.read_count);
    let a = aggregate(&vec![r]);
    assert_eq!(a.writes_total, 0);
    assert!(a.reads_total > 0);
    assert_eq!(a.ops_total, a.reads_total);
    assert!(a.reads_latency_us_p50 <= 1_000_000);
    assert_eq!(a.writes_latency_us_p50, 0);
}

#[test]
fn mixed_run_records_reads_and_writes() {
    let m = load_initial(&vec!["k\tv0".to_string()], 4);
    let ops = load_ops(&vec!["G k".to_string(), "S k v1".to_string()]);
    let cmap = ConcurrentMap::new(m);
    let r = worker(&cmap, &ops, 0, 2, 0, 30_000_000);
    assert!(r.total_ops > 0);
    assert_eq!(r.total_ops, r.read_count + r.write_count);
    // The slice holds an upsert, so the map ends up overwritten.
    assert_eq!(cmap.get("k").as_deref(), Some("v1"));
}

fn results_from_samples(reads: &[u64], writes: &[u64]) -> WorkerResults {
    let mut read_hist = Histogram::new();
    for &v in reads {
        read_hist.record(v);
    }
    let mut write_hist = Histogram::new();
    for &v in writes {
        write_hist.record(v);
    }
    WorkerResults {
        read_hist,
        write_hist,
        read_count: reads.len() as u64,
        write_count: writes.len() as u64,
        total_ops: (reads.len() + writes.len()) as u64,
    }
}

#[test]
fn aggregate_merges_counters_and_histograms() {
    let w1 = results_from_samples(&[10, 20], &[100]);
    let w2 = results_from_samples(&[30], &[200, 300]);
    let a = aggregate(&vec![w1, w2]);
    assert_eq!(a.reads_total, 3);
    assert_eq!(a.writes_total, 3);
    assert_eq!(a.ops_total, 6);
    // Reads merged: {10, 20, 30}; the median is 20, the maximum 30.
    assert_eq!(a.reads_latency_us_p50, 20);
    assert_eq!(a.reads_latency_us_p99, 30);
    // Writes merged: {100, 200, 300}.
    assert_eq!(a.writes_latency_us_p50, 200);
    // All six samples together: ceil(6 * 50 / 100) = 3rd of
    // {10, 20, 30, 100, 200, 300}.
    assert_eq!(a.latency_us_p50, 30);
    assert_eq!(a.latency_us_p99, 300);
}

#[test]
fn rss_is_not_collected() {
    assert_eq!(get_rss_bytes(), None);
}
