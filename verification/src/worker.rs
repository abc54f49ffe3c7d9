//! The workload runner: one worker replays its contiguous slice of the
//! operation trace cyclically against the shared map, first untimed until
//! the warmup deadline, then timing each operation until the measurement
//! deadline and recording the latencies into per-worker histograms.

use vstd::prelude::*;
use crate::clock::{clock_now, nanos_between};
use crate::cmap::ConcurrentMap;
use crate::histogram::Histogram;
use crate::ops::{Op, OpModel};

verus! {

/// What one worker hands back: measurement-phase histograms and counters
/// only; warmup contributes nothing.
pub struct WorkerResults {
    pub read_hist: Histogram,
    pub write_hist: Histogram,
    pub read_count: u64,
    pub write_count: u64,
    pub total_ops: u64,
}

impl WorkerResults {
    /// Histograms are well-formed and the counters agree with them: each
    /// histogram holds exactly as many samples as its counter, and the
    /// total is reads plus writes.
    pub open spec fn wf(&self) -> bool {
        &&& self.read_hist.wf()
        &&& self.write_hist.wf()
        &&& self.read_hist@.total == self.read_count
        &&& self.write_hist@.total == self.write_count
        &&& self.total_ops == self.read_count + self.write_count
    }
}

/// Every operation of `ops` is a lookup.
pub open spec fn all_gets(ops: Seq<Op>) -> bool {
    forall|i: int| 0 <= i < ops.len() ==> (#[trigger] ops[i]@) is Get
}

/// Rounds a nanosecond count to the nearest microsecond.
pub open spec fn nanos_to_micros(ns: u64) -> int {
    (ns + 500) / 1000
}

/// Replays the slice `[start_idx, end_idx)` of the trace cyclically
/// against the shared map: untimed until the warmup deadline, then timed
/// per operation until the measurement deadline. Each measured latency is
/// rounded to the nearest microsecond and recorded into the read or write
/// histogram by operation kind, with the matching counter. An empty slice
/// performs no operations but still waits both deadlines out; a worker
/// finishes the operation it has started before it re-checks the
/// deadline, so it may overrun the configured duration slightly.
pub fn worker(
    map: &ConcurrentMap,
    ops: &Vec<Op>,
    start_idx: usize,
    end_idx: usize,
    warmup_ns: u64,
    measure_ns: u64,
) -> (r: WorkerResults)
    requires
        map.wf(),
        end_idx <= ops@.len(),
    ensures
        r.wf(),
        all_gets(ops@.subrange(start_idx as int, end_idx as int)) ==> r.write_count == 0,
        start_idx >= end_idx ==> r.total_ops == 0,
{
    let mut read_hist = Histogram::new();
    let mut write_hist = Histogram::new();
    let mut local_reads: u64 = 0;
    let mut local_writes: u64 = 0;
    let mut local_ops: u64 = 0;
    let measure_end_ns: u64 = if warmup_ns > u64::MAX - measure_ns {
        u64::MAX
    } else {
        warmup_ns + measure_ns
    };
    let t0 = clock_now();

    // Warmup: replay without timing. The spin counter only bounds the
    // loop for the termination check; the deadline fires long before it
    // could saturate.
    let mut op_idx = start_idx;
    let mut spins: u64 = 0;
    loop
        invariant
            map.wf(),
            end_idx <= ops@.len(),
            start_idx <= op_idx,
            start_idx < end_idx ==> op_idx < end_idx,
            start_idx >= end_idx ==> op_idx == start_idx,
        decreases u64::MAX - spins,
    {
        let now = clock_now();
        if nanos_between(&t0, &now) >= warmup_ns {
            break;
        }
        if spins == u64::MAX {
            break;
        }
        spins = spins + 1;
        if start_idx < end_idx {
            match &ops[op_idx] {
                Op::Get(code) => {
                    let _ = map.get(code.as_str());
                },
                Op::Put(code, url) => {
                    map.set(code.clone(), url.clone());
                },
            }
            op_idx = op_idx + 1;
            if op_idx >= end_idx {
                op_idx = start_idx;
            }
        }
    }

    // Measurement: replay, timing each operation individually.
    op_idx = start_idx;
    spins = 0;
    loop
        invariant
            map.wf(),
            end_idx <= ops@.len(),
            start_idx <= op_idx,
            start_idx < end_idx ==> op_idx < end_idx,
            start_idx >= end_idx ==> op_idx == start_idx,
            read_hist.wf(),
            write_hist.wf(),
            read_hist@.total == local_reads,
            write_hist@.total == local_writes,
            local_ops == local_reads + local_writes,
            local_ops <= spins,
            start_idx >= end_idx ==> local_ops == 0,
            all_gets(ops@.subrange(start_idx as int, end_idx as int)) ==> local_writes == 0,
        decreases u64::MAX - spins,
    {
        let now = clock_now();
        if nanos_between(&t0, &now) >= measure_end_ns {
            break;
        }
        if spins == u64::MAX {
            break;
        }
        spins = spins + 1;
        if start_idx < end_idx {
            let op_start = clock_now();
            let is_get = match &ops[op_idx] {
                Op::Get(code) => {
                    let _ = map.get(code.as_str());
                    true
                },
                Op::Put(code, url) => {
                    map.set(code.clone(), url.clone());
                    proof {
                        let slice = ops@.subrange(start_idx as int, end_idx as int);
                        assert(slice[op_idx - start_idx]@ == ops@[op_idx as int]@);
                        assert(!all_gets(slice));
                    }
                    false
                },
            };
            let op_end = clock_now();
            let ns = nanos_between(&op_start, &op_end);
            let us = ((ns as u128 + 500) / 1000) as u64;
            proof {
                assert(us == nanos_to_micros(ns));
            }
            if is_get {
                read_hist.record(us);
                local_reads = local_reads + 1;
            } else {
                write_hist.record(us);
                local_writes = local_writes + 1;
            }
            local_ops = local_ops + 1;
            op_idx = op_idx + 1;
            if op_idx >= end_idx {
                op_idx = start_idx;
            }
        }
    }

    WorkerResults {
        read_hist,
        write_hist,
        read_count: local_reads,
        write_count: local_writes,
        total_ops: local_ops,
    }
}

} // verus!
