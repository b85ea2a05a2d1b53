use scorer_kit::compare::{compare, render_compare_text, CompareCsvRow};
use scorer_kit::diagnostic::ChannelLiquidityDiagnostic;
use scorer_kit::inspect::{decode, inspect, render_inspect_text, InspectFigures};
use scorer_kit::label::{default_label, label_for};
use scorer_kit::score_file::ScoreFile;
use scorer_kit::sorting::Sort;
use scorer_kit::summary::{build_summary, percentile_u64, percentile_weight};
use scorer_kit::validate::{check_validate_request, render_validated_line};
use scorer_kit::weight::Weight;

fn weight(value: f64) -> Weight {
    Weight { bits: value.to_bits() }
}

fn value(weight: Weight) -> f64 {
    f64::from_bits(weight.bits)
}

fn entry(scid: u64, min: u64, max: u64, points: f64, secs: u64) -> ChannelLiquidityDiagnostic {
    let mut buckets = [0; 32];
    buckets[3] = 2;
    buckets[31] = 5;
    ChannelLiquidityDiagnostic {
        scid,
        min_liquidity_offset_msat: min,
        max_liquidity_offset_msat: max,
        last_updated_secs: secs,
        offset_history_last_updated_secs: secs,
        last_datapoint_time_secs: secs,
        has_history: points != 0.0,
        total_valid_points_tracked: weight(points),
        min_history_buckets: buckets,
        max_history_buckets: [1; 32],
    }
}

fn file(label: &str, diagnostics: Vec<ChannelLiquidityDiagnostic>) -> ScoreFile {
    ScoreFile { label: label.to_string(), file_size_bytes: 2048, diagnostics }
}

fn sample() -> Vec<ChannelLiquidityDiagnostic> {
    vec![
        entry(30, 10, 40, 7.0, 300),
        entry(10, 0, 5, 0.0, 100),
        entry(20, 9, 3, 9.5, 100),
        entry(40, 0, 30, 7.0, 200),
    ]
}

fn listed(sort: Sort) -> Vec<u64> {
    inspect(file("f", sample()), true, None, sort).channels.iter().map(|row| row.scid).collect()
}

#[test]
fn rows_are_listed_by_the_chosen_order() {
    assert_eq!(listed(Sort::Narrow), vec![20, 10, 30, 40]);
    assert_eq!(listed(Sort::Recent), vec![30, 40, 10, 20]);
    assert_eq!(listed(Sort::History), vec![20, 30, 40, 10]);
    assert_eq!(listed(Sort::Scid), vec![10, 20, 30, 40]);
}

#[test]
fn rows_are_limited_to_the_top() {
    let many: Vec<_> = (0..25).map(|i| entry(i, 0, i, 0.0, 0)).collect();
    let count = |all: bool, top: Option<usize>| {
        inspect(file("f", many.clone()), all, top, Sort::Narrow).channels.len()
    };
    assert_eq!(count(false, None), 20);
    assert_eq!(count(false, Some(3)), 3);
    assert_eq!(count(false, Some(0)), 0);
    assert_eq!(count(false, Some(99)), 25);
    assert_eq!(count(true, Some(3)), 25);
    let report = inspect(file("f", many.clone()), false, Some(3), Sort::Scid);
    assert_eq!(report.summary.entry_count, 25);
}

#[test]
fn rows_hold_what_entries_hold() {
    let report = inspect(file("f", vec![entry(20, 9, 33, 9.5, 100)]), false, None, Sort::Narrow);
    let row = report.channels[0];
    assert_eq!(row.scid, 20);
    assert_eq!(row.min_liquidity_offset_msat, 9);
    assert_eq!(row.max_liquidity_offset_msat, 33);
    assert_eq!(row.offset_window_msat, 24);
    assert!(row.has_history);
    assert_eq!(value(row.total_valid_points_tracked), 9.5);
    assert_eq!(row.history_bucket_sum, 39);
    assert_eq!(row.last_datapoint_time_secs, 100);
}

#[test]
fn decoding_keeps_entries_in_place_with_their_buckets() {
    let report = decode(file("f", sample()));
    assert_eq!(report.format, "scorer-kit.decoded-channel-liquidities.v1");
    let scids: Vec<u64> = report.channels.iter().map(|c| c.scid).collect();
    assert_eq!(scids, vec![30, 10, 20, 40]);
    assert_eq!(report.channels[0].min_history_buckets[31], 5);
    assert_eq!(report.channels[0].max_history_buckets, [1; 32]);
    assert_eq!(report.channels[2].offset_window_msat, 0);
    assert_eq!(report.summary.label, "f");
    assert_eq!(report.summary.entry_count, 4);
}

#[test]
fn summaries_give_percentiles() {
    let s = build_summary("f".to_string(), 1536, &sample());
    assert_eq!(s.file_size_human, "1.50 KiB");
    assert_eq!(s.history_populated_count, 3);
    assert_eq!(s.history_empty_count, 1);
    assert_eq!((s.min_offset_msat_p50, s.min_offset_msat_p95, s.min_offset_msat_max), (9, 10, 10));
    assert_eq!((s.max_offset_msat_p50, s.max_offset_msat_p95, s.max_offset_msat_max), (30, 40, 40));
    assert_eq!(
        (s.offset_window_msat_p50, s.offset_window_msat_p95, s.offset_window_msat_max),
        (30, 30, 30)
    );
    assert_eq!(value(s.total_valid_points_tracked_p50), 7.0);
    assert_eq!(value(s.total_valid_points_tracked_p95), 9.5);
    assert_eq!(value(s.total_valid_points_tracked_max), 9.5);
}

#[test]
fn the_order_of_entries_does_not_change_a_summary() {
    let mut turned = sample();
    turned.reverse();
    let a = build_summary("f".to_string(), 7, &sample());
    let b = build_summary("f".to_string(), 7, &turned);
    assert_eq!(format!("{:?}", a), format!("{:?}", b));
}

#[test]
fn an_empty_file_has_zeros() {
    let s = build_summary("f".to_string(), 0, &vec![]);
    assert_eq!(s.file_size_human, "0 B");
    assert_eq!(s.entry_count, 0);
    assert_eq!(s.history_empty_count, 0);
    assert_eq!(s.min_offset_msat_max, 0);
    assert_eq!(s.offset_window_msat_p95, 0);
    assert_eq!(value(s.total_valid_points_tracked_max), 0.0);
    assert_eq!(percentile_u64(&vec![], 50), 0);
    assert_eq!(value(percentile_weight(&vec![], 95)), 0.0);
}

#[test]
fn percentiles_are_rounded_as_fractions_are() {
    for len in 1usize..2000 {
        let sorted: Vec<u64> = (0..len as u64).collect();
        for (percent, p) in [(50u8, 0.50f64), (95, 0.95)] {
            let idx = ((len as f64 - 1.0) * p).round() as usize;
            assert_eq!(percentile_u64(&sorted, percent), sorted[idx.min(len - 1)], "{} {}", len, p);
        }
    }
    assert_eq!(value(percentile_weight(&vec![weight(1.0), weight(2.5)], 50)), 2.5);
}

fn figures(rows: usize) -> InspectFigures {
    InspectFigures {
        history_populated_pct: "75.0".to_string(),
        weight_p50: "7".to_string(),
        weight_p95: "10".to_string(),
        weight_max: "11".to_string(),
        row_weights: (0..rows).map(|i| format!("{}", i + 1)).collect(),
    }
}

#[test]
fn inspection_is_printed_in_columns() {
    let report = inspect(file("my file", sample()), false, Some(2), Sort::Scid);
    let expected = "scorer-kit inspect
  label:                  my file
  file size:              2 KiB (2048 bytes)
  entries:                4
  history populated:      3 (75.0%)
  history empty:          1

  min_offset_msat:        p50=9  p95=10  max=10
  max_offset_msat:        p50=30  p95=40  max=40
  offset_window_msat:     p50=30  p95=30  max=30
  history weight:         p50=7  p95=10  max=11

                scid      min_offset      max_offset          window  his    history_weight   datapoint
                  10               0               5               5   no                 1         100
                  20               9               3               0  yes                 2         100
";
    assert_eq!(render_inspect_text(&report, &figures(2)), expected);
    let heading = format!(
        "{:>20}  {:>14}  {:>14}  {:>14}  {:>3}  {:>16}  {:>10}\n",
        "scid", "min_offset", "max_offset", "window", "his", "history_weight", "datapoint"
    );
    assert!(expected.contains(&heading));
}

#[test]
fn wide_values_push_their_columns_out() {
    let wide = entry(u64::MAX, 123_456_789_012_345, u64::MAX, 1.0, u64::MAX);
    let report = inspect(file("f", vec![wide]), true, None, Sort::Scid);
    let mut f = figures(1);
    f.row_weights[0] = "12345678901234567890".to_string();
    let text = render_inspect_text(&report, &f);
    let row = format!(
        "{:>20}  {:>14}  {:>14}  {:>14}  {:>3}  {:>16}  {:>10}\n",
        u64::MAX,
        123_456_789_012_345u64,
        u64::MAX,
        u64::MAX - 123_456_789_012_345,
        "yes",
        "12345678901234567890",
        u64::MAX
    );
    assert!(text.ends_with(&row));
}

#[test]
fn an_inspection_without_rows_ends_after_the_figures() {
    let report = inspect(file("f", sample()), false, Some(0), Sort::Scid);
    let text = render_inspect_text(&report, &figures(0));
    assert!(text.ends_with("max=11\n\n"));
    assert!(!text.contains("scid"));
}

#[test]
fn files_are_compared_channel_by_channel() {
    let left = file("l", vec![
        entry(1, 0, 0, 2.0, 10),
        entry(2, 0, 0, 2.0, 20),
        entry(3, 0, 0, 2.0, 30),
        entry(4, 0, 0, 2.0, 30),
    ]);
    let right = file("r", vec![
        entry(2, 0, 0, 1.0, 30),
        entry(3, 0, 0, 2.0, 30),
        entry(4, 0, 0, 3.0, 10),
        entry(5, 0, 0, 3.0, 10),
        entry(6, 0, 0, 3.0, 10),
    ]);
    let report = compare(left, right);
    assert_eq!(report.overlap_count, 3);
    assert_eq!(report.left_only_count, 1);
    assert_eq!(report.right_only_count, 2);
    assert_eq!(report.left_richer_overlap_count, 1);
    assert_eq!(report.right_richer_overlap_count, 1);
    assert_eq!(report.equal_richness_overlap_count, 1);
    assert_eq!(report.left_newer_overlap_count, 1);
    assert_eq!(report.right_newer_overlap_count, 1);
    assert_eq!(report.equal_datapoint_time_overlap_count, 1);
    assert_eq!(report.left.label, "l");
    assert_eq!(report.right.entry_count, 5);
    let row = CompareCsvRow::from(&report);
    assert_eq!(row.left_label, "l");
    assert_eq!(row.right_label, "r");
    assert_eq!(row.left_entry_count, 4);
    assert_eq!(row.right_entry_count, 5);
    assert_eq!(row.overlap_count, 3);
    assert_eq!(row.right_only_count, 2);
    let expected = "scorer-kit compare
  left:                   l
  right:                  r
  left entries:           4
  right entries:          5
  overlap:                3
  left only:              1
  right only:             2

  richer history left:    1
  richer history right:   1
  equal history richness: 1

  newer datapoint left:   1
  newer datapoint right:  1
  equal datapoint time:   1
";
    assert_eq!(render_compare_text(&report), expected);
}

#[test]
fn a_comparison_the_other_way_round_mirrors() {
    let left = || file("l", vec![entry(1, 0, 0, 2.0, 10), entry(2, 0, 9, 2.0, 20)]);
    let right = || file("r", vec![entry(2, 0, 0, 2.0, 20), entry(3, 0, 0, 2.0, 20)]);
    let there = compare(left(), right());
    let back = compare(right(), left());
    assert_eq!(there.overlap_count, back.overlap_count);
    assert_eq!(there.left_only_count, back.right_only_count);
    assert_eq!(there.left_richer_overlap_count, back.right_richer_overlap_count);
    assert_eq!(there.right_richer_overlap_count, 1);
    assert_eq!(back.left_richer_overlap_count, 1);
    assert_eq!(there.equal_datapoint_time_overlap_count, 1);
    assert_eq!(format!("{:?}", there.left), format!("{:?}", back.right));
    assert_eq!(format!("{:?}", there.right), format!("{:?}", back.left));
}

#[test]
fn the_last_of_several_entries_for_a_channel_counts() {
    let left = file("l", vec![entry(1, 0, 0, 9.0, 10), entry(1, 0, 0, 1.0, 10)]);
    let right = file("r", vec![entry(1, 0, 0, 5.0, 10)]);
    let report = compare(left, right);
    assert_eq!(report.overlap_count, 1);
    assert_eq!(report.right_richer_overlap_count, 1);
    assert_eq!(report.left.entry_count, 2);
}

#[test]
fn files_are_called_by_label_then_name() {
    assert_eq!(default_label(Some("scores.bin")), "scores.bin");
    assert_eq!(default_label(None), "scorer.bin");
    assert_eq!(label_for(Some("scores.bin"), Some("z".to_string())), "z");
    assert_eq!(label_for(Some("scores.bin"), None), "scores.bin");
    assert_eq!(label_for(None, None), "scorer.bin");
}

#[test]
fn validation_wants_a_file_and_says_ok() {
    let err = check_validate_request(0).expect_err("no file");
    assert_eq!(err.to_string(), "validate requires at least one file");
    assert!(check_validate_request(1).is_ok());
    assert_eq!(
        render_validated_line("d/f.bin", &file("f", sample())),
        "ok: d/f.bin (4 entries, 2 KiB)"
    );
}

#[test]
fn a_file_compared_with_itself_is_equal_throughout() {
    let report = compare(file("f", sample()), file("f", sample()));
    assert_eq!(report.overlap_count, 4);
    assert_eq!(report.left_only_count + report.right_only_count, 0);
    assert_eq!(report.equal_richness_overlap_count, 4);
    assert_eq!(report.equal_datapoint_time_overlap_count, 4);
}

#[test]
fn figures_ascend_and_come_from_the_entries() {
    let entries: Vec<_> = [17, 3, 99, 42, 8, 64, 5].iter().map(|m| entry(*m, *m, 100, 1.0, 0)).collect();
    let s = build_summary("f".to_string(), 1, &entries);
    assert_eq!((s.min_offset_msat_p50, s.min_offset_msat_p95, s.min_offset_msat_max), (17, 99, 99));
    assert!(value(s.total_valid_points_tracked_p50) <= value(s.total_valid_points_tracked_max));
    assert!(s.offset_window_msat_p50 <= s.offset_window_msat_p95);
    assert!(s.offset_window_msat_p95 <= s.offset_window_msat_max);
}

#[test]
fn weights_that_are_no_numbers_stand_at_the_ends() {
    let of = |points: &[f64]| -> Vec<ChannelLiquidityDiagnostic> {
        points.iter().map(|p| entry(1, 0, 0, *p, 0)).collect()
    };
    let one = build_summary("f".to_string(), 1, &of(&[2.0, f64::NAN, 1.0]));
    let other = build_summary("f".to_string(), 1, &of(&[f64::NAN, 1.0, 2.0]));
    assert_eq!(format!("{:?}", one), format!("{:?}", other));
    assert_eq!(value(one.total_valid_points_tracked_p50), 2.0);
    assert!(value(one.total_valid_points_tracked_max).is_nan());
    let zeros = build_summary("f".to_string(), 1, &of(&[0.0, -0.0]));
    assert_eq!(zeros.total_valid_points_tracked_max.bits, 0);
}
