//! Dual-resolution latency histogram: one bucket per microsecond below
//! `FINE_LIMIT_US`, one bucket per millisecond from there up to
//! `SATURATION_US`, and a running total. Samples at or above `SATURATION_US`
//! saturate into the last coarse bucket.

use vstd::prelude::*;

verus! {

/// Number of fine buckets (one per microsecond below `FINE_LIMIT_US`).
pub const FINE_BUCKETS: usize = 10000;

/// Number of coarse buckets (one per millisecond from `FINE_LIMIT_US` up to
/// `SATURATION_US`).
pub const COARSE_BUCKETS: usize = 990;

/// First latency, in microseconds, that falls outside the fine range.
pub const FINE_LIMIT_US: u64 = 10000;

/// Width of one coarse bucket, in microseconds.
pub const COARSE_WIDTH_US: u64 = 1000;

/// Latencies at or above this saturate into the last coarse bucket.
pub const SATURATION_US: u64 = 1000000;

/// Sum of a sequence of bucket counts.
pub open spec fn sum(s: Seq<int>) -> int
    decreases s.len(),
{
    if s.len() == 0 {
        0
    } else {
        sum(s.drop_last()) + s.last()
    }
}

/// The coarse bucket a latency of `us` microseconds falls into; defined for
/// `us >= FINE_LIMIT_US`.
pub open spec fn coarse_index_of(us: u64) -> int {
    if us >= SATURATION_US {
        COARSE_BUCKETS - 1
    } else {
        (us - FINE_LIMIT_US) / (COARSE_WIDTH_US as int)
    }
}

/// Mathematical content of a histogram: the two bucket-count sequences and
/// the total sample count.
#[verifier::ext_equal]
pub struct HistogramModel {
    pub fine: Seq<int>,
    pub coarse: Seq<int>,
    pub total: int,
}

impl HistogramModel {
    /// Bucket arrays have their fixed widths, all counts are non-negative,
    /// and the total is the sum of all bucket counts.
    pub open spec fn wf(self) -> bool {
        &&& self.fine.len() == FINE_BUCKETS
        &&& self.coarse.len() == COARSE_BUCKETS
        &&& forall|i: int| 0 <= i < self.fine.len() ==> self.fine[i] >= 0
        &&& forall|i: int| 0 <= i < self.coarse.len() ==> self.coarse[i] >= 0
        &&& self.total == sum(self.fine) + sum(self.coarse)
    }

    /// The histogram with no samples.
    pub open spec fn empty() -> HistogramModel {
        HistogramModel {
            fine: Seq::new(FINE_BUCKETS as nat, |i: int| 0),
            coarse: Seq::new(COARSE_BUCKETS as nat, |i: int| 0),
            total: 0,
        }
    }

    /// The histogram after one more sample of `us` microseconds: exactly one
    /// bucket count and the total go up by one.
    pub open spec fn recorded(self, us: u64) -> HistogramModel {
        if us < FINE_LIMIT_US {
            HistogramModel {
                fine: self.fine.update(us as int, self.fine[us as int] + 1),
                coarse: self.coarse,
                total: self.total + 1,
            }
        } else {
            HistogramModel {
                fine: self.fine,
                coarse: self.coarse.update(
                    coarse_index_of(us),
                    self.coarse[coarse_index_of(us)] + 1,
                ),
                total: self.total + 1,
            }
        }
    }

    /// Bucket-wise addition of two histograms.
    pub open spec fn merged(self, other: HistogramModel) -> HistogramModel {
        HistogramModel {
            fine: Seq::new(self.fine.len(), |i: int| self.fine[i] + other.fine[i]),
            coarse: Seq::new(self.coarse.len(), |i: int| self.coarse[i] + other.coarse[i]),
            total: self.total + other.total,
        }
    }

    /// Nearest-rank percentile estimate. For a non-empty histogram the
    /// target rank is `rank_target(total, p)`; the first fine bucket at
    /// which the running count reaches the target gives its exact
    /// microsecond index, a coarse bucket gives its midpoint, and if no
    /// bucket reaches the target the estimate saturates.
    pub open spec fn percentile_value(self, p: int) -> int {
        if self.total == 0 {
            0
        } else {
            let t = rank_target(self.total, p);
            match scan_buckets(self.fine, t) {
                Some(i) => i,
                None => match scan_buckets(self.coarse, t - sum(self.fine)) {
                    Some(j) => FINE_LIMIT_US as int + j * (COARSE_WIDTH_US as int) + 500,
                    None => SATURATION_US as int,
                },
            }
        }
    }
}

/// The sample rank a percentile query aims at: the ceiling of
/// `total * p / 100`, raised to 1 when the ceiling is 0, so that even
/// `p == 0` asks for the first recorded sample.
pub open spec fn rank_target(total: int, p: int) -> int {
    let t = (total * p + 99) / 100;
    if t == 0 {
        1
    } else {
        t
    }
}

/// The first index at which the running sum of the counts in `s` reaches
/// `target`, if any.
pub open spec fn scan_buckets(s: Seq<int>, target: int) -> Option<int>
    decreases s.len(),
{
    if s.len() == 0 {
        None
    } else if s[0] >= target {
        Some(0int)
    } else {
        match scan_buckets(s.drop_first(), target - s[0]) {
            Some(i) => Some(i + 1),
            None => None,
        }
    }
}

/// Shifts a found index by `d`.
pub open spec fn shift_opt(o: Option<int>, d: int) -> Option<int> {
    match o {
        Some(i) => Some(i + d),
        None => None,
    }
}

/// Sum of the first `n` counts of `s`.
pub open spec fn psum(s: Seq<int>, n: int) -> int {
    sum(s.take(n))
}

/// All counts in `s` are non-negative.
pub open spec fn all_nonneg(s: Seq<int>) -> bool {
    forall|i: int| 0 <= i < s.len() ==> s[i] >= 0
}

pub proof fn lemma_sum_nonneg(s: Seq<int>)
    requires
        all_nonneg(s),
    ensures
        sum(s) >= 0,
    decreases s.len(),
{
    if s.len() > 0 {
        assert(all_nonneg(s.drop_last()));
        lemma_sum_nonneg(s.drop_last());
    }
}

/// Raising one count by `d` raises the sum by `d`.
pub proof fn lemma_sum_update(s: Seq<int>, i: int, d: int)
    requires
        0 <= i < s.len(),
    ensures
        sum(s.update(i, s[i] + d)) == sum(s) + d,
    decreases s.len(),
{
    let t = s.update(i, s[i] + d);
    if i == s.len() - 1 {
        assert(t.drop_last() =~= s.drop_last());
    } else {
        assert(t.drop_last() =~= s.drop_last().update(i, s.drop_last()[i] + d));
        lemma_sum_update(s.drop_last(), i, d);
    }
}

/// Each count is at most the sum, when all counts are non-negative.
pub proof fn lemma_elem_le_sum(s: Seq<int>, i: int)
    requires
        all_nonneg(s),
        0 <= i < s.len(),
    ensures
        s[i] <= sum(s),
    decreases s.len(),
{
    if i == s.len() - 1 {
        assert(all_nonneg(s.drop_last()));
        lemma_sum_nonneg(s.drop_last());
    } else {
        assert(all_nonneg(s.drop_last()));
        lemma_elem_le_sum(s.drop_last(), i);
    }
}

/// The sum of a bucket-wise addition is the sum of the sums.
pub proof fn lemma_sum_pointwise_add(a: Seq<int>, b: Seq<int>)
    requires
        a.len() == b.len(),
    ensures
        sum(Seq::new(a.len(), |i: int| a[i] + b[i])) == sum(a) + sum(b),
    decreases a.len(),
{
    let c = Seq::new(a.len(), |i: int| a[i] + b[i]);
    if a.len() > 0 {
        assert(c.drop_last() =~= Seq::new(a.drop_last().len(), |i: int| a.drop_last()[i]
            + b.drop_last()[i]));
        lemma_sum_pointwise_add(a.drop_last(), b.drop_last());
        assert(c.last() == a.last() + b.last());
    }
}

pub proof fn lemma_psum_step(s: Seq<int>, n: int)
    requires
        0 <= n < s.len(),
    ensures
        psum(s, n + 1) == psum(s, n) + s[n],
{
    assert(s.take(n + 1).drop_last() =~= s.take(n));
    assert(s.take(n + 1).last() == s[n]);
}

pub proof fn lemma_psum_le_sum(s: Seq<int>, n: int)
    requires
        all_nonneg(s),
        0 <= n <= s.len(),
    ensures
        psum(s, n) <= sum(s),
    decreases s.len() - n,
{
    if n == s.len() {
        assert(s.take(n) =~= s);
    } else {
        lemma_psum_step(s, n);
        lemma_psum_le_sum(s, n + 1);
    }
}

pub proof fn lemma_sum_all_zero(s: Seq<int>)
    requires
        forall|i: int| 0 <= i < s.len() ==> s[i] == 0,
    ensures
        sum(s) == 0,
    decreases s.len(),
{
    if s.len() > 0 {
        lemma_sum_all_zero(s.drop_last());
    }
}

/// The histogram after recording every sample of `samples`, in order.
pub open spec fn record_all(m: HistogramModel, samples: Seq<u64>) -> HistogramModel
    decreases samples.len(),
{
    if samples.len() == 0 {
        m
    } else {
        record_all(m.recorded(samples[0]), samples.drop_first())
    }
}

/// `n` samples, all equal to `v`.
pub open spec fn repeated(v: u64, n: nat) -> Seq<u64> {
    Seq::new(n, |i: int| v)
}

/// Recording one sample preserves well-formedness.
pub proof fn lemma_recorded_wf(m: HistogramModel, us: u64)
    requires
        m.wf(),
    ensures
        m.recorded(us).wf(),
{
    if us < FINE_LIMIT_US {
        lemma_sum_update(m.fine, us as int, 1);
    } else {
        lemma_sum_update(m.coarse, coarse_index_of(us), 1);
    }
}

/// Recording a sequence of samples preserves well-formedness.
pub proof fn lemma_record_all_wf(m: HistogramModel, samples: Seq<u64>)
    requires
        m.wf(),
    ensures
        record_all(m, samples).wf(),
    decreases samples.len(),
{
    if samples.len() > 0 {
        lemma_recorded_wf(m, samples[0]);
        lemma_record_all_wf(m.recorded(samples[0]), samples.drop_first());
    }
}

/// Two samples recorded in either order give the same histogram.
pub proof fn lemma_recorded_commutes(m: HistogramModel, a: u64, b: u64)
    requires
        m.wf(),
    ensures
        m.recorded(a).recorded(b) == m.recorded(b).recorded(a),
{
    assert(m.recorded(a).recorded(b).fine =~= m.recorded(b).recorded(a).fine);
    assert(m.recorded(a).recorded(b).coarse =~= m.recorded(b).recorded(a).coarse);
    assert(m.recorded(a).recorded(b) =~= m.recorded(b).recorded(a));
}

/// Recording a sample inserted anywhere into a sequence is recording the
/// sample first and then the sequence.
pub proof fn lemma_record_all_insert(m: HistogramModel, samples: Seq<u64>, i: int, a: u64)
    requires
        m.wf(),
        0 <= i <= samples.len(),
    ensures
        record_all(m, samples.insert(i, a)) == record_all(m.recorded(a), samples),
    decreases i,
{
    let s2 = samples.insert(i, a);
    if i == 0 {
        assert(s2[0] == a);
        assert(s2.drop_first() =~= samples);
    } else {
        assert(s2[0] == samples[0]);
        assert(s2.drop_first() =~= samples.drop_first().insert(i - 1, a));
        lemma_recorded_wf(m, samples[0]);
        lemma_record_all_insert(m.recorded(samples[0]), samples.drop_first(), i - 1, a);
        lemma_recorded_commutes(m, samples[0], a);
        assert(record_all(m.recorded(a), samples) == record_all(
            m.recorded(a).recorded(samples[0]),
            samples.drop_first(),
        ));
    }
}

/// Sequences with the same samples in any order build the same histogram.
pub proof fn lemma_record_all_order_invariant(m: HistogramModel, s1: Seq<u64>, s2: Seq<u64>)
    requires
        m.wf(),
        s1.to_multiset() == s2.to_multiset(),
    ensures
        record_all(m, s1) == record_all(m, s2),
    decreases s1.len(),
{
    broadcast use vstd::seq_lib::group_to_multiset_ensures;

    if s1.len() == 0 {
        assert(s1.to_multiset().len() == s1.len());
        assert(s2.to_multiset().len() == s2.len());
        assert(s2.len() == 0);
    } else {
        let a = s1[0];
        assert(s1.contains(a));
        assert(s2.to_multiset().count(a) > 0);
        assert(s2.contains(a));
        let i = choose|i: int| 0 <= i < s2.len() && s2[i] == a;
        assert(s2.remove(i).insert(i, a) =~= s2);
        lemma_record_all_insert(m, s2.remove(i), i, a);
        assert(s1.drop_first() =~= s1.remove(0));
        assert(s1.remove(0).to_multiset() =~= s1.to_multiset().remove(a));
        assert(s2.remove(i).to_multiset() =~= s2.to_multiset().remove(a));
        lemma_recorded_wf(m, a);
        lemma_record_all_order_invariant(m.recorded(a), s1.drop_first(), s2.remove(i));
    }
}

/// Percentile results do not depend on the order in which samples were
/// recorded: any two orderings of the same samples give the same value for
/// every percentile.
pub proof fn lemma_percentile_order_invariant(
    m: HistogramModel,
    s1: Seq<u64>,
    s2: Seq<u64>,
    p: int,
)
    requires
        m.wf(),
        s1.to_multiset() == s2.to_multiset(),
    ensures
        record_all(m, s1).percentile_value(p) == record_all(m, s2).percentile_value(p),
{
    lemma_record_all_order_invariant(m, s1, s2);
}

/// Merging histograms is commutative, bucket for bucket.
pub proof fn lemma_merged_commutative(a: HistogramModel, b: HistogramModel)
    requires
        a.fine.len() == b.fine.len(),
        a.coarse.len() == b.coarse.len(),
    ensures
        a.merged(b) == b.merged(a),
{
    assert(a.merged(b).fine =~= b.merged(a).fine);
    assert(a.merged(b).coarse =~= b.merged(a).coarse);
    assert(a.merged(b) =~= b.merged(a));
}

/// Merging histograms is associative, bucket for bucket.
pub proof fn lemma_merged_associative(a: HistogramModel, b: HistogramModel, c: HistogramModel)
    requires
        a.fine.len() == b.fine.len(),
        b.fine.len() == c.fine.len(),
        a.coarse.len() == b.coarse.len(),
        b.coarse.len() == c.coarse.len(),
    ensures
        a.merged(b).merged(c) == a.merged(b.merged(c)),
{
    assert(a.merged(b).merged(c).fine =~= a.merged(b.merged(c)).fine);
    assert(a.merged(b).merged(c).coarse =~= a.merged(b.merged(c)).coarse);
    assert(a.merged(b).merged(c) =~= a.merged(b.merged(c)));
}

/// A percentile query on an empty histogram is 0, for every percentile.
pub proof fn lemma_percentile_empty(m: HistogramModel, p: int)
    requires
        m.total == 0,
    ensures
        m.percentile_value(p) == 0,
{
}

/// Recording `n` copies of `v` raises `v`'s own bucket by `n` and touches
/// nothing else.
pub proof fn lemma_record_all_repeated(m: HistogramModel, v: u64, n: nat)
    requires
        m.wf(),
    ensures
        record_all(m, repeated(v, n)).total == m.total + n,
        v < FINE_LIMIT_US ==> record_all(m, repeated(v, n)).fine == m.fine.update(
            v as int,
            m.fine[v as int] + n,
        ) && record_all(m, repeated(v, n)).coarse == m.coarse,
        v >= FINE_LIMIT_US ==> record_all(m, repeated(v, n)).coarse == m.coarse.update(
            coarse_index_of(v),
            m.coarse[coarse_index_of(v)] + n,
        ) && record_all(m, repeated(v, n)).fine == m.fine,
    decreases n,
{
    if n == 0 {
        assert(repeated(v, 0).len() == 0);
        if v < FINE_LIMIT_US {
            assert(m.fine.update(v as int, m.fine[v as int] + 0) =~= m.fine);
        } else {
            assert(m.coarse.update(coarse_index_of(v), m.coarse[coarse_index_of(v)] + 0)
                =~= m.coarse);
        }
    } else {
        assert(repeated(v, n)[0] == v);
        assert(repeated(v, n).drop_first() =~= repeated(v, (n - 1) as nat));
        lemma_recorded_wf(m, v);
        lemma_record_all_repeated(m.recorded(v), v, (n - 1) as nat);
        if v < FINE_LIMIT_US {
            assert(m.recorded(v).fine.update(
                v as int,
                m.recorded(v).fine[v as int] + (n - 1),
            ) =~= m.fine.update(v as int, m.fine[v as int] + n));
        } else {
            let b = coarse_index_of(v);
            assert(m.recorded(v).coarse.update(b, m.recorded(v).coarse[b] + (n - 1))
                =~= m.coarse.update(b, m.coarse[b] + n));
        }
    }
}

/// Scanning all-zero buckets never reaches a positive target.
pub proof fn lemma_scan_zeros(s: Seq<int>, t: int)
    requires
        t >= 1,
        forall|k: int| 0 <= k < s.len() ==> s[k] == 0,
    ensures
        scan_buckets(s, t) is None,
    decreases s.len(),
{
    if s.len() > 0 {
        lemma_scan_zeros(s.drop_first(), t);
    }
}

/// Scanning buckets that are all zero except one count `n` at index `i`
/// finds index `i` for every target between 1 and `n`.
pub proof fn lemma_scan_single(s: Seq<int>, i: int, n: int, t: int)
    requires
        0 <= i < s.len(),
        1 <= t <= n,
        forall|k: int|
            0 <= k < s.len() ==> s[k] == (if k == i {
                n
            } else {
                0
            }),
    ensures
        scan_buckets(s, t) == Some(i),
    decreases i,
{
    if i == 0 {
        assert(s[0] == n);
    } else {
        assert(s[0] == 0);
        lemma_scan_single(s.drop_first(), i - 1, n, t);
    }
}

/// Recording `n >= 1` equal samples of `v` microseconds: every percentile
/// from 1 to 100 resolves to `v`'s own bucket — exactly `v` below the fine
/// limit, and within half a coarse bucket (500 microseconds) of `v` between
/// the fine limit and the saturation threshold.
pub proof fn lemma_percentile_of_constant_samples(v: u64, n: nat, p: int)
    requires
        n >= 1,
        1 <= p <= 100,
        v < SATURATION_US,
    ensures
        ({
            let r = record_all(HistogramModel::empty(), repeated(v, n)).percentile_value(p);
            &&& v < FINE_LIMIT_US ==> r == v
            &&& v >= FINE_LIMIT_US ==> (r - v <= 500 && v - r <= 500)
        }),
{
    let m0 = HistogramModel::empty();
    assert(m0.wf()) by {
        lemma_sum_all_zero(m0.fine);
        lemma_sum_all_zero(m0.coarse);
    }
    lemma_record_all_repeated(m0, v, n);
    let m = record_all(m0, repeated(v, n));
    assert(m.total == n);
    let t = rank_target(n as int, p);
    assert(n as int * 1 <= n as int * p <= n as int * 100) by (nonlinear_arith)
        requires
            1 <= p <= 100,
            n >= 1,
    ;
    assert((n as int * 100 + 99) / 100 == n as int) by (nonlinear_arith)
        requires
            n >= 1,
    ;
    assert(1 <= t <= n);
    if v < FINE_LIMIT_US {
        assert(forall|k: int|
            0 <= k < m.fine.len() ==> m.fine[k] == (if k == v as int {
                n as int
            } else {
                0
            }));
        lemma_scan_single(m.fine, v as int, n as int, t);
    } else {
        let b = coarse_index_of(v);
        assert(0 <= b < COARSE_BUCKETS);
        assert(forall|k: int| 0 <= k < m.fine.len() ==> m.fine[k] == 0);
        lemma_scan_zeros(m.fine, t);
        lemma_sum_all_zero(m.fine);
        assert(forall|k: int|
            0 <= k < m.coarse.len() ==> m.coarse[k] == (if k == b {
                n as int
            } else {
                0
            }));
        lemma_scan_single(m.coarse, b, n as int, t);
        assert(m.percentile_value(p) == FINE_LIMIT_US as int + b * (COARSE_WIDTH_US as int)
            + 500);
        assert(b * 1000 <= v - FINE_LIMIT_US < (b + 1) * 1000) by (nonlinear_arith)
            requires
                b == (v - FINE_LIMIT_US) / 1000,
                FINE_LIMIT_US <= v,
                FINE_LIMIT_US == 10000u64,
        ;
    }
}

/// Latency distribution over non-negative integer microsecond samples,
/// kept as fixed-width fine and coarse bucket arrays plus a total count.
pub struct Histogram {
    fine: Vec<u64>,
    coarse: Vec<u64>,
    total: u64,
}

impl View for Histogram {
    type V = HistogramModel;

    closed spec fn view(&self) -> HistogramModel {
        HistogramModel {
            fine: self.fine@.map(|i: int, c: u64| c as int),
            coarse: self.coarse@.map(|i: int, c: u64| c as int),
            total: self.total as int,
        }
    }
}

impl Histogram {
    /// The representation invariant, stated of the model.
    pub open spec fn wf(&self) -> bool {
        self@.wf()
    }

    /// Creates an empty histogram: every bucket zero, total zero.
    pub fn new() -> (h: Histogram)
        ensures
            h.wf(),
            h@ == HistogramModel::empty(),
    {
        let mut fine: Vec<u64> = Vec::new();
        let mut i: usize = 0;
        while i < FINE_BUCKETS
            invariant
                i <= FINE_BUCKETS,
                fine@.len() == i,
                forall|k: int| 0 <= k < i ==> fine@[k] == 0,
            decreases FINE_BUCKETS - i,
        {
            fine.push(0);
            i = i + 1;
        }
        let mut coarse: Vec<u64> = Vec::new();
        let mut j: usize = 0;
        while j < COARSE_BUCKETS
            invariant
                j <= COARSE_BUCKETS,
                coarse@.len() == j,
                forall|k: int| 0 <= k < j ==> coarse@[k] == 0,
            decreases COARSE_BUCKETS - j,
        {
            coarse.push(0);
            j = j + 1;
        }
        let h = Histogram { fine, coarse, total: 0 };
        proof {
            assert(h@.fine =~= HistogramModel::empty().fine);
            assert(h@.coarse =~= HistogramModel::empty().coarse);
            assert(h@ =~= HistogramModel::empty());
            lemma_sum_all_zero(h@.fine);
            lemma_sum_all_zero(h@.coarse);
        }
        h
    }

    /// Records one sample of `us` microseconds: the bucket the sample falls
    /// into and the total each go up by one.
    pub fn record(&mut self, us: u64)
        requires
            old(self).wf(),
            old(self)@.total < u64::MAX,
        ensures
            final(self).wf(),
            final(self)@ == old(self)@.recorded(us),
    {
        proof {
            lemma_sum_nonneg(old(self)@.fine);
            lemma_sum_nonneg(old(self)@.coarse);
        }
        if us < FINE_LIMIT_US {
            let idx = us as usize;
            proof {
                lemma_elem_le_sum(old(self)@.fine, idx as int);
            }
            let c = self.fine[idx];
            self.fine.set(idx, c + 1);
            proof {
                assert(self@.fine =~= old(self)@.fine.update(idx as int, old(
                    self,
                )@.fine[idx as int] + 1));
                lemma_sum_update(old(self)@.fine, idx as int, 1);
            }
        } else {
            let idx: usize = if us >= SATURATION_US {
                COARSE_BUCKETS - 1
            } else {
                ((us - FINE_LIMIT_US) / COARSE_WIDTH_US) as usize
            };
            proof {
                assert(idx as int == coarse_index_of(us));
                lemma_elem_le_sum(old(self)@.coarse, idx as int);
            }
            let c = self.coarse[idx];
            self.coarse.set(idx, c + 1);
            proof {
                assert(self@.coarse =~= old(self)@.coarse.update(idx as int, old(
                    self,
                )@.coarse[idx as int] + 1));
                lemma_sum_update(old(self)@.coarse, idx as int, 1);
            }
        }
        self.total = self.total + 1;
        proof {
            assert(self@ =~= old(self)@.recorded(us));
        }
    }

    /// Adds every bucket count and the total of `other` into `self`.
    pub fn merge(&mut self, other: &Histogram)
        requires
            old(self).wf(),
            other.wf(),
            old(self)@.total + other@.total <= u64::MAX,
        ensures
            final(self).wf(),
            final(self)@ == old(self)@.merged(other@),
    {
        proof {
            lemma_sum_nonneg(old(self)@.fine);
            lemma_sum_nonneg(old(self)@.coarse);
            lemma_sum_nonneg(other@.fine);
            lemma_sum_nonneg(other@.coarse);
        }
        let mut i: usize = 0;
        while i < FINE_BUCKETS
            invariant
                i <= FINE_BUCKETS,
                self.fine@.len() == FINE_BUCKETS,
                self.coarse@ == old(self).coarse@,
                self.total == old(self).total,
                old(self).wf(),
                other.wf(),
                old(self)@.total + other@.total <= u64::MAX,
                other@.fine.len() == FINE_BUCKETS,
                forall|k: int|
                    0 <= k < i ==> self.fine@[k] as int == old(self)@.fine[k] + other@.fine[k],
                forall|k: int| i <= k < FINE_BUCKETS ==> self.fine@[k] as int == old(self)@.fine[k],
            decreases FINE_BUCKETS - i,
        {
            proof {
                lemma_elem_le_sum(old(self)@.fine, i as int);
                lemma_elem_le_sum(other@.fine, i as int);
                lemma_sum_nonneg(old(self)@.fine);
                lemma_sum_nonneg(old(self)@.coarse);
                lemma_sum_nonneg(other@.fine);
                lemma_sum_nonneg(other@.coarse);
            }
            let a = self.fine[i];
            let b = other.fine[i];
            self.fine.set(i, a + b);
            i = i + 1;
        }
        let mut j: usize = 0;
        while j < COARSE_BUCKETS
            invariant
                j <= COARSE_BUCKETS,
                self.coarse@.len() == COARSE_BUCKETS,
                self.total == old(self).total,
                old(self).wf(),
                other.wf(),
                old(self)@.total + other@.total <= u64::MAX,
                other@.coarse.len() == COARSE_BUCKETS,
                self.fine@.len() == FINE_BUCKETS,
                forall|k: int|
                    0 <= k < FINE_BUCKETS ==> self.fine@[k] as int == old(self)@.fine[k]
                        + other@.fine[k],
                forall|k: int|
                    0 <= k < j ==> self.coarse@[k] as int == old(self)@.coarse[k]
                        + other@.coarse[k],
                forall|k: int|
                    j <= k < COARSE_BUCKETS ==> self.coarse@[k] as int == old(self)@.coarse[k],
            decreases COARSE_BUCKETS - j,
        {
            proof {
                lemma_elem_le_sum(old(self)@.coarse, j as int);
                lemma_elem_le_sum(other@.coarse, j as int);
                lemma_sum_nonneg(old(self)@.fine);
                lemma_sum_nonneg(old(self)@.coarse);
                lemma_sum_nonneg(other@.fine);
                lemma_sum_nonneg(other@.coarse);
            }
            let a = self.coarse[j];
            let b = other.coarse[j];
            self.coarse.set(j, a + b);
            j = j + 1;
        }
        self.total = self.total + other.total;
        proof {
            assert(self@.fine =~= old(self)@.merged(other@).fine);
            assert(self@.coarse =~= old(self)@.merged(other@).coarse);
            assert(self@ =~= old(self)@.merged(other@));
            lemma_sum_pointwise_add(old(self)@.fine, other@.fine);
            lemma_sum_pointwise_add(old(self)@.coarse, other@.coarse);
        }
    }

    /// Nearest-rank percentile query, `p` in percent. Returns the exact
    /// microsecond value of a fine bucket, the midpoint of a coarse bucket,
    /// 0 for an empty histogram, and `SATURATION_US` when no bucket reaches
    /// the target rank.
    pub fn percentile(&self, p: u64) -> (r: u64)
        requires
            self.wf(),
            p <= 100,
        ensures
            r as int == self@.percentile_value(p as int),
            self@.total == 0 ==> r == 0,
    {
        proof {
            lemma_sum_nonneg(self@.fine);
            lemma_sum_nonneg(self@.coarse);
        }
        if self.total == 0 {
            return 0;
        }
        proof {
            assert(self@.total * (p as int) <= u64::MAX as int * 100) by (nonlinear_arith)
                requires
                    p <= 100,
                    0 <= self@.total <= u64::MAX as int,
            ;
        }
        let t128: u128 = (self.total as u128) * (p as u128) + 99;
        let t0: u128 = t128 / 100;
        proof {
            assert(self@.total * (p as int) <= self@.total * 100) by (nonlinear_arith)
                requires
                    p <= 100,
                    self@.total >= 0,
            ;
            assert((self@.total * 100 + 99) / 100 == self@.total) by (nonlinear_arith)
                requires
                    self@.total >= 0,
            ;
        }
        let mut target: u64 = t0 as u64;
        if target == 0 {
            target = 1;
        }
        let ghost t: int = rank_target(self@.total, p as int);
        proof {
            assert(target as int == t);
            assert(t >= 1);
        }
        let ghost fseq = self@.fine;
        let mut count: u64 = 0;
        let mut i: usize = 0;
        proof {
            assert(fseq.skip(0) =~= fseq);
            assert(fseq.take(0) =~= Seq::<int>::empty());
        }
        while i < FINE_BUCKETS
            invariant
                self.wf(),
                fseq == self@.fine,
                t == rank_target(self@.total, p as int),
                self@.total > 0,
                target as int == t,
                i <= FINE_BUCKETS,
                count as int == psum(fseq, i as int),
                scan_buckets(fseq, t) == shift_opt(
                    scan_buckets(fseq.skip(i as int), t - count),
                    i as int,
                ),
            decreases FINE_BUCKETS - i,
        {
            let ghost ii = i as int;
            let ghost rest = fseq.skip(ii);
            proof {
                assert(rest[0] == fseq[ii]);
                assert(rest.drop_first() =~= fseq.skip(ii + 1));
                lemma_psum_step(fseq, ii);
                assert(all_nonneg(fseq));
                lemma_psum_le_sum(fseq, ii + 1);
                lemma_sum_nonneg(self@.coarse);
            }
            let c = self.fine[i];
            count = count + c;
            if count >= target {
                proof {
                    assert(scan_buckets(rest, t - (count - c)) == Some(0int));
                    assert(scan_buckets(fseq, t) == Some(ii));
                }
                return i as u64;
            }
            i = i + 1;
        }
        proof {
            assert(fseq.skip(FINE_BUCKETS as int).len() == 0);
            assert(scan_buckets(fseq, t) is None);
            assert(fseq.take(FINE_BUCKETS as int) =~= fseq);
            assert(count as int == sum(fseq));
        }
        let ghost cseq = self@.coarse;
        let ghost t2: int = t - sum(fseq);
        let mut j: usize = 0;
        proof {
            assert(cseq.skip(0) =~= cseq);
            assert(cseq.take(0) =~= Seq::<int>::empty());
        }
        while j < COARSE_BUCKETS
            invariant
                self.wf(),
                fseq == self@.fine,
                cseq == self@.coarse,
                t == rank_target(self@.total, p as int),
                t2 == t - sum(fseq),
                self@.total > 0,
                target as int == t,
                scan_buckets(fseq, t) is None,
                j <= COARSE_BUCKETS,
                count as int == sum(fseq) + psum(cseq, j as int),
                scan_buckets(cseq, t2) == shift_opt(
                    scan_buckets(cseq.skip(j as int), t2 - psum(cseq, j as int)),
                    j as int,
                ),
            decreases COARSE_BUCKETS - j,
        {
            let ghost jj = j as int;
            let ghost rest = cseq.skip(jj);
            proof {
                assert(rest[0] == cseq[jj]);
                assert(rest.drop_first() =~= cseq.skip(jj + 1));
                lemma_psum_step(cseq, jj);
                assert(all_nonneg(cseq));
                lemma_psum_le_sum(cseq, jj + 1);
            }
            let c = self.coarse[j];
            count = count + c;
            if count >= target {
                proof {
                    assert(t2 - psum(cseq, jj) == t - (count - c));
                    assert(scan_buckets(rest, t - (count - c)) == Some(0int));
                    assert(scan_buckets(cseq, t2) == Some(jj));
                }
                return FINE_LIMIT_US + (j as u64) * COARSE_WIDTH_US + 500;
            }
            j = j + 1;
        }
        proof {
            assert(cseq.skip(COARSE_BUCKETS as int).len() == 0);
            assert(scan_buckets(cseq, t2) is None);
        }
        SATURATION_US
    }

    /// The total number of recorded samples.
    pub fn total(&self) -> (t: u64)
        ensures
            t as int == self@.total,
    {
        self.total
    }
}

} // verus!
