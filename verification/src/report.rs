//! The orchestrator's verified core: partitioning the trace index range
//! contiguously across workers, and merging the per-worker results into
//! the aggregate counters and percentiles once every worker has finished.
//! Spawning and joining the workers, and turning counts into rates, is the
//! surrounding program's job.

use vstd::prelude::*;
use crate::histogram::{Histogram, HistogramModel};
use crate::worker::WorkerResults;

verus! {

/// Splits `[0, total_len)` into `workers` contiguous ranges: every worker
/// gets `total_len / workers` operations and the last absorbs the
/// remainder, so the ranges cover the whole range exactly once, in order,
/// with no overlap.
pub fn partition_ranges(total_len: usize, workers: usize) -> (ranges: Vec<(usize, usize)>)
    requires
        workers >= 1,
    ensures
        ranges@.len() == workers,
        ranges@[0].0 == 0,
        ranges@[workers - 1].1 == total_len,
        forall|i: int| 0 <= i < workers ==> (#[trigger] ranges@[i]).0 <= ranges@[i].1 <= total_len,
        forall|i: int| 0 <= i < workers - 1 ==> (#[trigger] ranges@[i]).1 == ranges@[i + 1].0,
        forall|i: int|
            0 <= i < workers ==> (#[trigger] ranges@[i]).0 == i * (total_len as int
                / workers as int),
        forall|i: int|
            0 <= i < workers - 1 ==> (#[trigger] ranges@[i]).1 == (i + 1) * (total_len as int
                / workers as int),
{
    let per: usize = total_len / workers;
    proof {
        vstd::arithmetic::div_mod::lemma_fundamental_div_mod(total_len as int, workers as int);
        assert(workers as int * (total_len as int / workers as int) <= total_len as int);
    }
    let mut ranges: Vec<(usize, usize)> = Vec::new();
    let mut i: usize = 0;
    while i < workers
        invariant
            i <= workers,
            workers >= 1,
            per == total_len as int / workers as int,
            workers as int * per as int <= total_len as int,
            ranges@.len() == i,
            forall|j: int| 0 <= j < i ==> (#[trigger] ranges@[j]).0 == j * per,
            forall|j: int|
                0 <= j < i && j < workers - 1 ==> (#[trigger] ranges@[j]).1 == (j + 1) * per,
            forall|j: int|
                0 <= j < i && j == workers - 1 ==> (#[trigger] ranges@[j]).1 == total_len,
            forall|j: int| 0 <= j < i ==> (#[trigger] ranges@[j]).0 <= ranges@[j].1 <= total_len,
        decreases workers - i,
    {
        proof {
            let ghost ig = i as int;
            let ghost wg = workers as int;
            let ghost pg = per as int;
            assert(ig * pg <= (ig + 1) * pg && (ig + 1) * pg <= wg * pg) by (nonlinear_arith)
                requires
                    0 <= ig < wg,
                    pg >= 0,
            ;
        }
        let start = i * per;
        let end = if i == workers - 1 {
            total_len
        } else {
            (i + 1) * per
        };
        ranges.push((start, end));
        i = i + 1;
    }
    ranges
}

/// The read histograms of the first `n` workers, merged.
pub open spec fn merged_reads(rs: Seq<WorkerResults>, n: int) -> HistogramModel
    decreases n,
{
    if n <= 0 {
        HistogramModel::empty()
    } else {
        merged_reads(rs, n - 1).merged(rs[n - 1].read_hist@)
    }
}

/// The write histograms of the first `n` workers, merged.
pub open spec fn merged_writes(rs: Seq<WorkerResults>, n: int) -> HistogramModel
    decreases n,
{
    if n <= 0 {
        HistogramModel::empty()
    } else {
        merged_writes(rs, n - 1).merged(rs[n - 1].write_hist@)
    }
}

/// Sum of the first `n` workers' read counts.
pub open spec fn reads_sum(rs: Seq<WorkerResults>, n: int) -> int
    decreases n,
{
    if n <= 0 {
        0
    } else {
        reads_sum(rs, n - 1) + rs[n - 1].read_count
    }
}

/// Sum of the first `n` workers' write counts.
pub open spec fn writes_sum(rs: Seq<WorkerResults>, n: int) -> int
    decreases n,
{
    if n <= 0 {
        0
    } else {
        writes_sum(rs, n - 1) + rs[n - 1].write_count
    }
}

/// Sum of the first `n` workers' operation counts.
pub open spec fn ops_sum(rs: Seq<WorkerResults>, n: int) -> int
    decreases n,
{
    if n <= 0 {
        0
    } else {
        ops_sum(rs, n - 1) + rs[n - 1].total_ops
    }
}

proof fn lemma_sums_decompose(rs: Seq<WorkerResults>, n: int)
    requires
        0 <= n <= rs.len(),
        forall|i: int| 0 <= i < rs.len() ==> (#[trigger] rs[i]).wf(),
    ensures
        reads_sum(rs, n) + writes_sum(rs, n) == ops_sum(rs, n),
        reads_sum(rs, n) >= 0,
        writes_sum(rs, n) >= 0,
    decreases n,
{
    if n > 0 {
        lemma_sums_decompose(rs, n - 1);
    }
}

proof fn lemma_ops_sum_mono(rs: Seq<WorkerResults>, m: int, n: int)
    requires
        0 <= m <= n <= rs.len(),
    ensures
        ops_sum(rs, m) <= ops_sum(rs, n),
    decreases n - m,
{
    if m < n {
        lemma_ops_sum_mono(rs, m, n - 1);
    }
}

/// Merging the empty histogram into a well-formed one changes nothing.
proof fn lemma_empty_merged(h: HistogramModel)
    requires
        h.wf(),
    ensures
        HistogramModel::empty().merged(h) == h,
{
    let e = HistogramModel::empty();
    assert(e.merged(h).fine =~= h.fine);
    assert(e.merged(h).coarse =~= h.coarse);
    crate::histogram::lemma_sum_all_zero(e.fine);
    crate::histogram::lemma_sum_all_zero(e.coarse);
    assert(e.merged(h) =~= h);
}

/// The aggregate result of a run: summed counters, the merged read, write
/// and combined histograms, and the percentile estimates drawn from them.
/// Rates (operations per second) are derived outside by dividing the
/// counts by the configured measurement duration.
pub struct Aggregate {
    pub ops_total: u64,
    pub reads_total: u64,
    pub writes_total: u64,
    pub latency_us_p50: u64,
    pub latency_us_p95: u64,
    pub latency_us_p99: u64,
    pub reads_latency_us_p50: u64,
    pub reads_latency_us_p95: u64,
    pub reads_latency_us_p99: u64,
    pub writes_latency_us_p50: u64,
    pub writes_latency_us_p95: u64,
    pub writes_latency_us_p99: u64,
    pub read_hist: Histogram,
    pub write_hist: Histogram,
    pub all_hist: Histogram,
}

impl Aggregate {
    /// The counters equal the histograms' totals, the combined histogram
    /// is the bucket-wise sum of the read and write histograms, and every
    /// percentile field is the percentile of its histogram.
    pub open spec fn wf(&self) -> bool {
        &&& self.read_hist.wf()
        &&& self.write_hist.wf()
        &&& self.all_hist.wf()
        &&& self.all_hist@ == self.read_hist@.merged(self.write_hist@)
        &&& self.reads_total == self.read_hist@.total
        &&& self.writes_total == self.write_hist@.total
        &&& self.ops_total == self.reads_total + self.writes_total
        &&& self.latency_us_p50 == self.all_hist@.percentile_value(50)
        &&& self.latency_us_p95 == self.all_hist@.percentile_value(95)
        &&& self.latency_us_p99 == self.all_hist@.percentile_value(99)
        &&& self.reads_latency_us_p50 == self.read_hist@.percentile_value(50)
        &&& self.reads_latency_us_p95 == self.read_hist@.percentile_value(95)
        &&& self.reads_latency_us_p99 == self.read_hist@.percentile_value(99)
        &&& self.writes_latency_us_p50 == self.write_hist@.percentile_value(50)
        &&& self.writes_latency_us_p95 == self.write_hist@.percentile_value(95)
        &&& self.writes_latency_us_p99 == self.write_hist@.percentile_value(99)
    }
}

/// Merges the per-worker results, once all workers have finished: sums
/// the counters (they are additive, never averaged) and merges the
/// histograms, read with read and write with write, plus a combined
/// histogram of both for the overall percentiles.
pub fn aggregate(results: &Vec<WorkerResults>) -> (a: Aggregate)
    requires
        forall|i: int| 0 <= i < results@.len() ==> (#[trigger] results@[i]).wf(),
        ops_sum(results@, results@.len() as int) <= u64::MAX,
    ensures
        a.wf(),
        a.read_hist@ == merged_reads(results@, results@.len() as int),
        a.write_hist@ == merged_writes(results@, results@.len() as int),
        a.reads_total == reads_sum(results@, results@.len() as int),
        a.writes_total == writes_sum(results@, results@.len() as int),
        a.ops_total == ops_sum(results@, results@.len() as int),
{
    let ghost rs = results@;
    let ghost len = results@.len() as int;
    let mut read_agg = Histogram::new();
    let mut write_agg = Histogram::new();
    let mut reads_total: u64 = 0;
    let mut writes_total: u64 = 0;
    let mut i: usize = 0;
    while i < results.len()
        invariant
            i <= rs.len(),
            rs == results@,
            len == rs.len(),
            forall|k: int| 0 <= k < rs.len() ==> (#[trigger] rs[k]).wf(),
            ops_sum(rs, len) <= u64::MAX,
            read_agg.wf(),
            write_agg.wf(),
            read_agg@ == merged_reads(rs, i as int),
            write_agg@ == merged_writes(rs, i as int),
            reads_total == reads_sum(rs, i as int),
            writes_total == writes_sum(rs, i as int),
            read_agg@.total == reads_total,
            write_agg@.total == writes_total,
        decreases rs.len() - i,
    {
        proof {
            lemma_sums_decompose(rs, i as int);
            lemma_sums_decompose(rs, i + 1);
            lemma_ops_sum_mono(rs, i + 1, len);
        }
        let r = &results[i];
        read_agg.merge(&r.read_hist);
        write_agg.merge(&r.write_hist);
        reads_total = reads_total + r.read_count;
        writes_total = writes_total + r.write_count;
        i = i + 1;
    }
    proof {
        lemma_sums_decompose(rs, len);
    }
    let ops_total = reads_total + writes_total;
    let mut all_agg = Histogram::new();
    all_agg.merge(&read_agg);
    proof {
        lemma_empty_merged(read_agg@);
    }
    all_agg.merge(&write_agg);
    let p50 = all_agg.percentile(50);
    let p95 = all_agg.percentile(95);
    let p99 = all_agg.percentile(99);
    let rp50 = read_agg.percentile(50);
    let rp95 = read_agg.percentile(95);
    let rp99 = read_agg.percentile(99);
    let wp50 = write_agg.percentile(50);
    let wp95 = write_agg.percentile(95);
    let wp99 = write_agg.percentile(99);
    Aggregate {
        ops_total,
        reads_total,
        writes_total,
        latency_us_p50: p50,
        latency_us_p95: p95,
        latency_us_p99: p99,
        reads_latency_us_p50: rp50,
        reads_latency_us_p95: rp95,
        reads_latency_us_p99: rp99,
        writes_latency_us_p50: wp50,
        writes_latency_us_p95: wp95,
        writes_latency_us_p99: wp99,
        read_hist: read_agg,
        write_hist: write_agg,
        all_hist: all_agg,
    }
}

/// Resident-set size of the process, were it collected; this build does
/// not read it, so the field stays absent in the report.
pub fn get_rss_bytes() -> (r: Option<u64>)
    ensures
        r is None,
{
    None
}

} // verus!
