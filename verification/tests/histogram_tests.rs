use kvbench::histogram::Histogram;

#[test]
fn empty_histogram_percentiles_are_zero() {
    let h = Histogram::new();
    assert_eq!(h.total(), 0);
    assert_eq!(h.percentile(0), 0);
    assert_eq!(h.percentile(1), 0);
    assert_eq!(h.percentile(50), 0);
    assert_eq!(h.percentile(95), 0);
    assert_eq!(h.percentile(99), 0);
    assert_eq!(h.percentile(100), 0);
}

#[test]
fn record_counts_total() {
    let mut h = Histogram::new();
    h.record(0);
    h.record(9999);
    h.record(10000);
    h.record(999999);
    h.record(1_000_000);
    h.record(50_000_000);
    assert_eq!(h.total(), 6);
}

#[test]
fn percentile_fine_is_exact() {
    // The values 1..=100, one sample each: the p-th percentile is p itself.
    let mut h = Histogram::new();
    for v in 1..=100u64 {
        h.record(v);
    }
    assert_eq!(h.percentile(1), 1);
    assert_eq!(h.percentile(50), 50);
    assert_eq!(h.percentile(99), 99);
    assert_eq!(h.percentile(100), 100);
}

#[test]
fn percentile_zero_targets_first_sample() {
    // The target rank is at least 1: percentile(0) of a non-empty
    // histogram is the smallest recorded value, not 0.
    let mut h = Histogram::new();
    h.record(5);
    assert_eq!(h.percentile(0), 5);
}

#[test]
fn constant_samples_fine_value_is_exact() {
    let mut h = Histogram::new();
    for _ in 0..5 {
        h.record(42);
    }
    for p in 1..=100u64 {
        assert_eq!(h.percentile(p), 42);
    }
}

#[test]
fn constant_samples_coarse_value_is_bucket_midpoint() {
    // 20000 us lands in coarse bucket (20000 - 10000) / 1000 = 10, whose
    // midpoint is 10000 + 10 * 1000 + 500 = 20500: within 500 us of the
    // sample.
    let mut h = Histogram::new();
    for _ in 0..7 {
        h.record(20000);
    }
    for p in 1..=100u64 {
        assert_eq!(h.percentile(p), 20500);
    }
}

#[test]
fn coarse_boundaries() {
    let mut h = Histogram::new();
    h.record(10000);
    assert_eq!(h.percentile(50), 10500);

    let mut h2 = Histogram::new();
    h2.record(999_999);
    assert_eq!(h2.percentile(50), 999_500);

    // At and above one second the sample saturates into the last bucket.
    let mut h3 = Histogram::new();
    h3.record(1_000_000);
    assert_eq!(h3.percentile(50), 999_500);

    let mut h4 = Histogram::new();
    h4.record(50_000_000);
    assert_eq!(h4.percentile(50), 999_500);
}

#[test]
fn recording_order_does_not_change_percentiles() {
    let forwards = [3u64, 7, 3, 9, 12000, 7, 1];
    let backwards = [1u64, 7, 12000, 9, 3, 7, 3];
    let mut h1 = Histogram::new();
    for v in forwards {
        h1.record(v);
    }
    let mut h2 = Histogram::new();
    for v in backwards {
        h2.record(v);
    }
    assert_eq!(h1.total(), h2.total());
    for p in 0..=100u64 {
        assert_eq!(h1.percentile(p), h2.percentile(p));
    }
}

#[test]
fn merge_adds_totals_and_buckets() {
    let mut a = Histogram::new();
    a.record(10);
    a.record(20);
    let mut b = Histogram::new();
    b.record(30);
    a.merge(&b);
    assert_eq!(a.total(), 3);
    assert_eq!(a.percentile(100), 30);
    assert_eq!(a.percentile(1), 10);
}

#[test]
fn merge_is_commutative() {
    let sa = [5u64, 80, 15000];
    let sb = [2u64, 80, 999];
    let build = |samples: &[u64]| {
        let mut h = Histogram::new();
        for &v in samples {
            h.record(v);
        }
        h
    };
    let mut ab = build(&sa);
    ab.merge(&build(&sb));
    let mut ba = build(&sb);
    ba.merge(&build(&sa));
    assert_eq!(ab.total(), ba.total());
    for p in 0..=100u64 {
        assert_eq!(ab.percentile(p), ba.percentile(p));
    }
}

#[test]
fn merge_is_associative() {
    let sa = [1u64, 400];
    let sb = [9u64, 9, 9];
    let sc = [25_000u64, 3];
    let build = |samples: &[u64]| {
        let mut h = Histogram::new();
        for &v in samples {
            h.record(v);
        }
        h
    };
    // (A merged B) merged C
    let mut left = build(&sa);
    left.merge(&build(&sb));
    left.merge(&build(&sc));
    // A merged (B merged C)
    let mut bc = build(&sb);
    bc.merge(&build(&sc));
    let mut right = build(&sa);
    right.merge(&bc);
    assert_eq!(left.total(), right.total());
    for p in 0..=100u64 {
        assert_eq!(left.percentile(p), right.percentile(p));
    }
}
