use scorer_kit::diagnostic::{
    compare_datapoint_time, compare_history_richness, compare_offset_window, history_bucket_sum,
    max_diagnostic_timestamp, offset_window_msat, ChannelLiquidityDiagnostic,
};
use scorer_kit::order::Comparison;
use scorer_kit::sorting::{sort_diagnostics, Sort};
use scorer_kit::weight::Weight;
use std::cmp::Ordering;

fn weight(value: f64) -> Weight {
    Weight { bits: value.to_bits() }
}

fn base() -> ChannelLiquidityDiagnostic {
    ChannelLiquidityDiagnostic {
        scid: 1,
        min_liquidity_offset_msat: 10,
        max_liquidity_offset_msat: 30,
        last_updated_secs: 50,
        offset_history_last_updated_secs: 60,
        last_datapoint_time_secs: 40,
        has_history: true,
        total_valid_points_tracked: weight(5.0),
        min_history_buckets: [1; 32],
        max_history_buckets: [2; 32],
    }
}

fn same(ours: Comparison, std: Ordering) -> bool {
    match ours {
        Comparison::Less => std == Ordering::Less,
        Comparison::Equal => std == Ordering::Equal,
        Comparison::Greater => std == Ordering::Greater,
    }
}

#[test]
fn weights_compare_as_their_values() {
    let values = [
        0.0, -0.0, 1.0, -1.0, 5e-324, -5e-324, 1e300, -1e300, f64::INFINITY, f64::NEG_INFINITY,
        f64::NAN, -f64::NAN, f64::MIN_POSITIVE, 1.5, 1.25, 2.0, f64::MAX, f64::MIN,
    ];
    for a in values {
        for b in values {
            let std = a.partial_cmp(&b).unwrap_or(Ordering::Equal);
            assert!(same(weight(a).compare(weight(b)), std), "{} {}", a, b);
            assert_eq!(weight(a).precedes(weight(b)), a.total_cmp(&b) == Ordering::Less);
        }
    }
}

#[test]
fn richness_goes_by_history_weight_buckets_time_and_window() {
    let a = base();
    let mut b = base();
    b.scid = 2;
    assert_eq!(compare_history_richness(&a, &b), Comparison::Equal);
    b.max_liquidity_offset_msat = 31;
    assert_eq!(compare_history_richness(&a, &b), Comparison::Greater);
    b.offset_history_last_updated_secs = 61;
    assert_eq!(compare_history_richness(&a, &b), Comparison::Less);
    b.max_history_buckets[0] = 1;
    assert_eq!(compare_history_richness(&a, &b), Comparison::Greater);
    b.total_valid_points_tracked = weight(5.5);
    assert_eq!(compare_history_richness(&a, &b), Comparison::Less);
    b.has_history = false;
    assert_eq!(compare_history_richness(&a, &b), Comparison::Greater);
    assert_eq!(compare_history_richness(&b, &a), Comparison::Less);
    b.has_history = true;
    b.total_valid_points_tracked = weight(f64::NAN);
    assert_eq!(compare_history_richness(&a, &b), Comparison::Greater);
}

#[test]
fn recency_goes_by_datapoint_then_update_then_history_update() {
    let a = base();
    let mut b = base();
    assert_eq!(compare_datapoint_time(&a, &b), Comparison::Equal);
    b.offset_history_last_updated_secs = 70;
    assert_eq!(compare_datapoint_time(&a, &b), Comparison::Less);
    b.last_updated_secs = 49;
    assert_eq!(compare_datapoint_time(&a, &b), Comparison::Greater);
    b.last_datapoint_time_secs = 41;
    assert_eq!(compare_datapoint_time(&a, &b), Comparison::Less);
    assert_eq!(compare_datapoint_time(&b, &a), Comparison::Greater);
}

#[test]
fn entries_have_windows_sums_and_latest_times() {
    let mut d = base();
    assert_eq!(offset_window_msat(&d), 20);
    assert_eq!(history_bucket_sum(&d), 96);
    assert_eq!(max_diagnostic_timestamp(&d), 60);
    d.min_liquidity_offset_msat = 31;
    assert_eq!(offset_window_msat(&d), 0);
    assert_eq!(compare_offset_window(&d, &base()), Comparison::Less);
    d.last_datapoint_time_secs = 99;
    assert_eq!(max_diagnostic_timestamp(&d), 99);
    d.min_history_buckets = [u16::MAX; 32];
    d.max_history_buckets = [u16::MAX; 32];
    assert_eq!(history_bucket_sum(&d), 64 * 65_535);
}

#[test]
fn listings_are_stable_and_agree_with_std() {
    let mut entries = Vec::new();
    let mut seed: u64 = 7;
    for i in 0..200u64 {
        seed = seed.wrapping_mul(6364136223846793005).wrapping_add(1442695040888963407);
        let mut d = base();
        d.scid = (seed >> 40) % 50;
        d.min_liquidity_offset_msat = i;
        d.max_liquidity_offset_msat = i + (seed >> 33) % 10;
        d.last_updated_secs = (seed >> 20) % 5;
        d.offset_history_last_updated_secs = (seed >> 25) % 5;
        d.last_datapoint_time_secs = (seed >> 30) % 5;
        d.has_history = (seed >> 35) % 2 == 0;
        d.total_valid_points_tracked = weight(((seed >> 50) % 3) as f64);
        entries.push(d);
    }
    let order = |list: &Vec<ChannelLiquidityDiagnostic>| -> Vec<u64> {
        list.iter().map(|d| d.min_liquidity_offset_msat).collect()
    };
    for sort in [Sort::Narrow, Sort::Recent, Sort::History, Sort::Scid] {
        let mut sorted = entries.clone();
        sort_diagnostics(&mut sorted, sort);
        let mut expected = entries.clone();
        match sort {
            Sort::Narrow => expected.sort_by_key(offset_window_msat),
            Sort::Recent => expected.sort_by(|a, b| {
                max_diagnostic_timestamp(b)
                    .cmp(&max_diagnostic_timestamp(a))
                    .then_with(|| a.scid.cmp(&b.scid))
            }),
            Sort::History => expected.sort_by(|a, b| {
                let richness = match compare_history_richness(b, a) {
                    Comparison::Less => Ordering::Less,
                    Comparison::Equal => Ordering::Equal,
                    Comparison::Greater => Ordering::Greater,
                };
                richness.then_with(|| a.scid.cmp(&b.scid))
            }),
            Sort::Scid => expected.sort_by_key(|d| d.scid),
        }
        assert_eq!(order(&sorted), order(&expected));
    }
}

#[test]
fn comparing_reverses_and_is_transitive() {
    let mut entries = Vec::new();
    for (points, secs, width) in [(1.0, 5, 3), (1.0, 5, 2), (1.0, 6, 9), (2.0, 1, 0), (0.5, 9, 9)] {
        let mut d = base();
        d.total_valid_points_tracked = weight(points);
        d.last_datapoint_time_secs = secs;
        d.max_liquidity_offset_msat = d.min_liquidity_offset_msat + width;
        entries.push(d);
    }
    let reversed = |c: Comparison| match c {
        Comparison::Less => Comparison::Greater,
        Comparison::Equal => Comparison::Equal,
        Comparison::Greater => Comparison::Less,
    };
    for compare in [compare_history_richness, compare_datapoint_time] {
        for a in &entries {
            assert_eq!(compare(a, a), Comparison::Equal);
            for b in &entries {
                assert_eq!(compare(a, b), reversed(compare(b, a)));
                for c in &entries {
                    if compare(a, b) != Comparison::Greater && compare(b, c) != Comparison::Greater {
                        assert!(compare(a, c) != Comparison::Greater);
                    }
                }
            }
        }
    }
}
