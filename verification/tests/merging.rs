use scorer_kit::diagnostic::ChannelLiquidityDiagnostic;
use scorer_kit::merge::{
    check_merge_request, choose_merge_action, find_latest_timestamp, input_label,
    merge_action_name, prepare_merge, render_merge_line, report_merge,
    ChannelLiquidityMergeAction, MergePolicy, MergeRequestError, MergeSession,
};
use scorer_kit::overlay::{
    allowlist_requested, apply_overlay_filter, collect_scids, overlay_allowlist,
};
use scorer_kit::scid_list::parse_scid_list;
use scorer_kit::score_file::ScoreFile;
use scorer_kit::scores::{encode_scores, read_score_file};
use scorer_kit::weight::Weight;
use std::collections::BTreeSet;

fn diagnostic(
    scid: u64, has_history: bool, total_valid_points_tracked: f64, history_bucket_sum: u16,
    last_datapoint_time_secs: u64,
) -> ChannelLiquidityDiagnostic {
    let mut min_history_buckets = [0; 32];
    min_history_buckets[0] = history_bucket_sum;
    ChannelLiquidityDiagnostic {
        scid,
        min_liquidity_offset_msat: 0,
        max_liquidity_offset_msat: 0,
        last_updated_secs: last_datapoint_time_secs,
        offset_history_last_updated_secs: last_datapoint_time_secs,
        last_datapoint_time_secs,
        has_history,
        total_valid_points_tracked: Weight { bits: total_valid_points_tracked.to_bits() },
        min_history_buckets,
        max_history_buckets: [0; 32],
    }
}

fn file(label: &str, entries: &[(u64, u64)]) -> ScoreFile {
    ScoreFile {
        label: label.to_string(),
        file_size_bytes: 1024,
        diagnostics: entries
            .iter()
            .map(|(scid, secs)| diagnostic(*scid, false, 0.0, 0, *secs))
            .collect(),
    }
}

fn scids_of(file: &ScoreFile) -> Vec<u64> {
    file.diagnostics.iter().map(|d| d.scid).collect()
}

#[test]
fn richer_history_policy_prefers_incoming_when_history_signal_is_stronger() {
    let existing = diagnostic(7, true, 10.0, 1, 20);
    let incoming = diagnostic(7, true, 20.0, 1, 10);

    let (action, reason) = choose_merge_action(MergePolicy::RicherHistory, &existing, &incoming);

    assert_eq!(action, ChannelLiquidityMergeAction::ReplaceWithOther);
    assert_eq!(reason, "incoming has richer historical signal");
}

#[test]
fn newer_policy_keeps_existing_on_equal_datapoint_time() {
    let existing = diagnostic(7, true, 10.0, 1, 20);
    let incoming = diagnostic(7, true, 20.0, 2, 20);

    let (action, reason) = choose_merge_action(MergePolicy::Newer, &existing, &incoming);

    assert_eq!(action, ChannelLiquidityMergeAction::KeepExisting);
    assert_eq!(reason, "equal datapoint time; keeping existing");
}

#[test]
fn every_policy_decides_with_a_reason() {
    let weak = diagnostic(7, false, 0.0, 0, 10);
    let strong = diagnostic(7, true, 5.0, 3, 20);
    let keep = ChannelLiquidityMergeAction::KeepExisting;
    let replace = ChannelLiquidityMergeAction::ReplaceWithOther;
    let cases = [
        (MergePolicy::PreferFirst, &weak, &strong, keep, "prefer-first policy"),
        (MergePolicy::PreferLast, &strong, &weak, replace, "prefer-last policy"),
        (
            MergePolicy::Combine,
            &strong,
            &weak,
            ChannelLiquidityMergeAction::Combine,
            "combine policy",
        ),
        (
            MergePolicy::RicherHistory,
            &weak,
            &strong,
            replace,
            "incoming has richer historical signal",
        ),
        (
            MergePolicy::RicherHistory,
            &strong,
            &weak,
            keep,
            "existing has richer historical signal",
        ),
        (
            MergePolicy::RicherHistory,
            &strong,
            &strong,
            keep,
            "equal historical signal; keeping existing",
        ),
        (MergePolicy::Newer, &weak, &strong, replace, "incoming has newer datapoint"),
        (MergePolicy::Newer, &strong, &weak, keep, "existing has newer datapoint"),
        (MergePolicy::Newer, &weak, &weak, keep, "equal datapoint time; keeping existing"),
    ];
    for (policy, existing, other, action, reason) in cases {
        let (got, words) = choose_merge_action(policy, existing, other);
        assert_eq!(got, action);
        assert_eq!(words, reason);
    }
}

#[test]
fn policies_and_actions_have_names() {
    assert_eq!(MergePolicy::PreferFirst.as_str(), "prefer-first");
    assert_eq!(MergePolicy::PreferLast.as_str(), "prefer-last");
    assert_eq!(MergePolicy::Combine.as_str(), "combine");
    assert_eq!(MergePolicy::RicherHistory.as_str(), "richer-history");
    assert_eq!(MergePolicy::Newer.as_str(), "newer");
    assert_eq!(merge_action_name(ChannelLiquidityMergeAction::KeepExisting), "keep-existing");
    assert_eq!(
        merge_action_name(ChannelLiquidityMergeAction::ReplaceWithOther),
        "replace-with-incoming"
    );
    assert_eq!(merge_action_name(ChannelLiquidityMergeAction::Combine), "combine");
}

#[test]
fn a_session_counts_and_records_its_decisions() {
    let weak = diagnostic(7, true, 1.0, 3, 10);
    let strong = diagnostic(7, true, 2.0, 4, 20);
    let mut session = MergeSession::new(MergePolicy::RicherHistory, 3, "base");
    assert_eq!(session.stats.input_count, 3);
    let first = session.record_decision("one", &weak, &strong);
    assert_eq!(first, ChannelLiquidityMergeAction::ReplaceWithOther);
    session.finish_input("one");
    let second = session.record_decision("two", &strong, &weak);
    assert_eq!(second, ChannelLiquidityMergeAction::KeepExisting);
    session.finish_input("two");
    assert_eq!(session.existing_label, "merged-through-two");
    assert_eq!(session.stats.duplicate_count, 2);
    assert_eq!(session.stats.kept_existing_count, 1);
    assert_eq!(session.stats.replaced_with_incoming_count, 1);
    assert_eq!(session.stats.combined_count, 0);
    let d = &session.decisions[0];
    assert_eq!(d.scid, 7);
    assert_eq!(d.existing_label, "base");
    assert_eq!(d.incoming_label, "one");
    assert_eq!(d.action, "replace-with-incoming");
    assert_eq!(d.reason, "incoming has richer historical signal");
    assert_eq!(f64::from_bits(d.existing_total_valid_points_tracked.bits), 1.0);
    assert_eq!(f64::from_bits(d.incoming_total_valid_points_tracked.bits), 2.0);
    assert_eq!(d.existing_history_bucket_sum, 3);
    assert_eq!(d.incoming_history_bucket_sum, 4);
    assert_eq!(d.existing_last_datapoint_time_secs, 10);
    assert_eq!(d.incoming_last_datapoint_time_secs, 20);
    assert_eq!(session.decisions[1].existing_label, "merged-through-one");
    assert_eq!(session.decisions[1].incoming_label, "two");

    let mut combining = MergeSession::new(MergePolicy::Combine, 2, "base");
    combining.record_decision("one", &weak, &strong);
    assert_eq!(combining.stats.combined_count, 1);
}

#[test]
fn merges_need_two_inputs_and_all_or_no_labels() {
    assert_eq!(check_merge_request(0, 0), Err(MergeRequestError::TooFewInputs));
    assert_eq!(check_merge_request(1, 5), Err(MergeRequestError::TooFewInputs));
    assert_eq!(check_merge_request(2, 1), Err(MergeRequestError::LabelCount));
    assert_eq!(check_merge_request(2, 3), Err(MergeRequestError::LabelCount));
    assert_eq!(check_merge_request(2, 0), Ok(()));
    assert_eq!(check_merge_request(3, 3), Ok(()));
    assert_eq!(
        MergeRequestError::TooFewInputs.to_string(),
        "merge requires at least two input scorer files"
    );
    assert_eq!(
        MergeRequestError::LabelCount.to_string(),
        "if provided, --label must be passed once per input"
    );
}

#[test]
fn inputs_are_called_by_their_labels_or_file_names() {
    let labels = vec!["a".to_string()];
    assert_eq!(input_label(&labels, 0, Some("x.bin")), "a");
    assert_eq!(input_label(&labels, 1, Some("x.bin")), "x.bin");
    assert_eq!(input_label(&labels, 1, None), "scorer.bin");
}

#[test]
fn the_latest_timestamp_is_over_all_entries() {
    assert_eq!(find_latest_timestamp(&vec![]), 0);
    assert_eq!(find_latest_timestamp(&vec![file("a", &[]), file("b", &[])]), 0);
    let mut files = vec![file("a", &[(1, 5), (2, 9)]), file("b", &[(3, 7)])];
    assert_eq!(find_latest_timestamp(&files), 9);
    files[1].diagnostics[0].offset_history_last_updated_secs = 11;
    assert_eq!(find_latest_timestamp(&files), 11);
    files[0].diagnostics[0].last_updated_secs = 12;
    assert_eq!(find_latest_timestamp(&files), 12);
}

#[test]
fn an_overlay_reduces_every_file_but_the_first() {
    let mut files = vec![
        file("base", &[(1, 1), (2, 2), (9, 90)]),
        file("in1", &[(2, 3), (4, 50), (5, 4)]),
        file("in2", &[]),
    ];
    let allowed = BTreeSet::from([2, 5, 6]);
    let plan = prepare_merge(&mut files, Some(&allowed), None);
    assert!(plan.preserve_baseline_without_decay);
    assert_eq!(plan.merge_timestamp_secs, 90);
    assert_eq!(scids_of(&files[0]), vec![1, 2, 9]);
    assert_eq!(scids_of(&files[1]), vec![2, 5]);
    assert_eq!(scids_of(&files[2]), Vec::<u64>::new());
    assert_eq!(plan.removed_scids, vec![vec![4], vec![]]);
    let report = plan.overlay_filter.expect("a report on the overlay");
    assert_eq!(report.mode, "incoming-scid-allowlist");
    assert_eq!(report.allowed_scid_count, 3);
    assert_eq!(report.incoming_files.len(), 2);
    let one = &report.incoming_files[0];
    assert_eq!(one.label, "in1");
    assert_eq!(one.original_entry_count, 3);
    assert_eq!(one.included_entry_count, 2);
    assert_eq!(one.removed_entry_count, 1);
    assert_eq!(one.missing_allowed_scid_count, 1);
    let two = &report.incoming_files[1];
    assert_eq!(two.original_entry_count, 0);
    assert_eq!(two.missing_allowed_scid_count, 3);
    let counts: Vec<usize> = plan.inputs.iter().map(|s| s.entry_count).collect();
    assert_eq!(counts, vec![3, 2, 0]);
    assert_eq!(plan.inputs[1].label, "in1");
}

#[test]
fn reducing_once_more_takes_nothing_out() {
    let allowed = BTreeSet::from([2, 5]);
    let mut files = vec![file("base", &[(7, 1)]), file("in", &[(2, 3), (4, 5), (5, 4)])];
    apply_overlay_filter(&mut files, &allowed);
    let (report, removed) = apply_overlay_filter(&mut files, &allowed);
    assert_eq!(scids_of(&files[1]), vec![2, 5]);
    assert_eq!(removed, vec![Vec::<u64>::new()]);
    assert_eq!(report.incoming_files[0].removed_entry_count, 0);
    assert_eq!(report.incoming_files[0].missing_allowed_scid_count, 0);
}

#[test]
fn without_an_overlay_files_stay_and_decay_goes_to_the_given_time() {
    let mut files = vec![file("a", &[(1, 5)]), file("b", &[(2, 6)])];
    let plan = prepare_merge(&mut files, None, Some(1_000));
    assert_eq!(plan.merge_timestamp_secs, 1_000);
    assert!(!plan.preserve_baseline_without_decay);
    assert!(plan.overlay_filter.is_none());
    assert!(plan.removed_scids.is_empty());
    assert_eq!(scids_of(&files[1]), vec![2]);
}

#[test]
fn an_allowlist_is_there_whenever_one_was_asked_for() {
    assert_eq!(collect_scids(&vec![5, 3, 5]), BTreeSet::from([3, 5]));
    assert_eq!(overlay_allowlist(false, collect_scids(&vec![])), None);
    assert_eq!(overlay_allowlist(true, collect_scids(&vec![4])), Some(BTreeSet::from([4])));
    assert_eq!(overlay_allowlist(true, collect_scids(&vec![])), Some(BTreeSet::new()));
    assert!(!allowlist_requested(0, 0));
    assert!(allowlist_requested(1, 0));
    assert!(allowlist_requested(0, 1));
}

#[test]
fn a_list_that_selects_nothing_lets_nothing_in() {
    let mut scids = collect_scids(&vec![]);
    parse_scid_list("# nothing selected\n", "selected.scids", &mut scids).expect("a list");
    let allowed = overlay_allowlist(true, scids);
    let mut files = vec![file("base", &[(1, 5), (2, 6)]), file("in", &[(2, 9), (3, 8)])];
    let plan = prepare_merge(&mut files, allowed.as_ref(), None);
    assert!(plan.preserve_baseline_without_decay);
    assert_eq!(scids_of(&files[0]), vec![1, 2]);
    assert_eq!(scids_of(&files[1]), Vec::<u64>::new());
    assert_eq!(plan.removed_scids, vec![vec![2, 3]]);
    let report = plan.overlay_filter.expect("a report on the overlay");
    assert_eq!(report.allowed_scid_count, 0);
    assert_eq!(report.incoming_files[0].removed_entry_count, 2);
    assert_eq!(report.incoming_files[0].missing_allowed_scid_count, 0);
}

#[test]
fn an_overlay_ignores_the_decay_time() {
    let allowed = BTreeSet::from([2]);
    let plan_for = |decay: Option<u64>| {
        let mut files = vec![file("base", &[(1, 5), (2, 6)]), file("in", &[(2, 9), (3, 8)])];
        let plan = prepare_merge(&mut files, Some(&allowed), decay);
        (format!("{:?}", files), plan)
    };
    let (files_one, one) = plan_for(None);
    let (files_other, other) = plan_for(Some(77));
    assert_eq!(files_one, files_other);
    assert_eq!(one.removed_scids, other.removed_scids);
    assert!(one.preserve_baseline_without_decay && other.preserve_baseline_without_decay);
    assert_eq!(format!("{:?}", one.overlay_filter), format!("{:?}", other.overlay_filter));
    assert_eq!(format!("{:?}", one.inputs), format!("{:?}", other.inputs));
    assert_eq!(one.merge_timestamp_secs, 9);
    assert_eq!(other.merge_timestamp_secs, 77);
    assert_eq!(one.decay_secs(), None);
    assert_eq!(other.decay_secs(), None);
    let mut files = vec![file("a", &[(1, 5)]), file("b", &[(2, 6)])];
    assert_eq!(prepare_merge(&mut files, None, None).decay_secs(), Some(6));
    assert_eq!(prepare_merge(&mut files, None, Some(77)).decay_secs(), Some(77));
}

#[test]
fn policies_show_in_the_counts() {
    let weak = diagnostic(7, true, 1.0, 3, 10);
    let strong = diagnostic(7, true, 2.0, 4, 20);
    let counts = |policy: MergePolicy| {
        let mut session = MergeSession::new(policy, 2, "a");
        session.record_decision("b", &weak, &strong);
        session.record_decision("b", &strong, &weak);
        session.record_decision("b", &weak, &weak);
        let s = session.stats;
        (s.kept_existing_count, s.replaced_with_incoming_count, s.combined_count)
    };
    assert_eq!(counts(MergePolicy::PreferFirst), (3, 0, 0));
    assert_eq!(counts(MergePolicy::PreferLast), (0, 3, 0));
    assert_eq!(counts(MergePolicy::Combine), (0, 0, 3));
    assert_eq!(counts(MergePolicy::RicherHistory), (2, 1, 0));
    assert_eq!(counts(MergePolicy::Newer), (2, 1, 0));
}

#[test]
fn the_newer_policy_goes_by_the_last_datapoint_alone() {
    let existing = diagnostic(7, true, 10.0, 1, 20);
    let mut other = existing;
    other.last_updated_secs = 30;
    other.offset_history_last_updated_secs = 40;
    let (action, reason) = choose_merge_action(MergePolicy::Newer, &existing, &other);
    assert_eq!(action, ChannelLiquidityMergeAction::KeepExisting);
    assert_eq!(reason, "equal datapoint time; keeping existing");
    other.last_updated_secs = 1;
    other.last_datapoint_time_secs = 21;
    let (action, _) = choose_merge_action(MergePolicy::Newer, &existing, &other);
    assert_eq!(action, ChannelLiquidityMergeAction::ReplaceWithOther);
}

#[test]
fn the_same_duplicates_count_the_same() {
    let weak = diagnostic(7, true, 1.0, 3, 10);
    let strong = diagnostic(7, true, 2.0, 4, 20);
    let run = || {
        let mut session = MergeSession::new(MergePolicy::Newer, 2, "a");
        session.record_decision("b", &weak, &strong);
        session.record_decision("b", &strong, &weak);
        session.record_decision("b", &weak, &weak);
        session
    };
    let (one, other) = (run(), run());
    assert_eq!(format!("{:?}", one), format!("{:?}", other));
    assert_eq!(one.stats.replaced_with_incoming_count, 1);
    assert_eq!(one.stats.kept_existing_count, 2);
}

#[test]
fn a_merge_is_accounted_for() {
    let mut files = vec![file("a", &[(1, 5)]), file("b", &[(1, 6)])];
    let plan = prepare_merge(&mut files, None, None);
    let mut session = MergeSession::new(MergePolicy::Newer, 2, "a");
    session.record_decision("b", &files[0].diagnostics[0], &files[1].diagnostics[0]);
    session.finish_input("b");
    let report =
        report_merge(plan, session, "out.bin".to_string(), 1536, &files[1].diagnostics);
    assert_eq!(report.policy, "newer");
    assert_eq!(report.output, "out.bin");
    assert_eq!(report.output_file_size_bytes, 1536);
    assert_eq!(report.output_file_size_human, "1.50 KiB");
    assert_eq!(report.merge_timestamp_secs, 6);
    assert!(!report.preserve_baseline_without_decay);
    assert!(report.overlay_filter.is_none());
    assert_eq!(report.inputs.len(), 2);
    assert_eq!(report.output_summary.label, "merged");
    assert_eq!(report.output_summary.entry_count, 1);
    assert_eq!(report.stats.replaced_with_incoming_count, 1);
    assert_eq!(report.duplicate_decisions.len(), 1);
    assert_eq!(render_merge_line(&report), "wrote out.bin (1.50 KiB, 1 entries)");
}

/// A scorer file with one channel, its times in seconds and its buckets given.
fn one_channel(scid: u64, min_bucket: u16) -> Vec<u8> {
    let mut entry = Vec::new();
    let mut field = |kind: u8, value: &[u8]| {
        entry.push(kind);
        entry.push(value.len() as u8);
        entry.extend_from_slice(value);
    };
    let time = |secs: u64| {
        let mut bytes = secs.to_be_bytes().to_vec();
        bytes.extend_from_slice(&[0; 4]);
        bytes
    };
    let buckets = |first: u16| {
        let mut bytes = vec![66, 0, 64];
        bytes.extend_from_slice(&first.to_be_bytes());
        bytes.extend_from_slice(&[0; 62]);
        bytes
    };
    field(0, &5u64.to_be_bytes());
    field(2, &9u64.to_be_bytes());
    field(4, &time(100));
    field(5, &buckets(min_bucket));
    field(7, &buckets(0));
    field(9, &time(101));
    field(11, &time(102));
    let mut map = vec![0, 1];
    map.extend_from_slice(&scid.to_be_bytes());
    map.push(entry.len() as u8);
    map.extend_from_slice(&entry);
    let mut file = vec![map.len() as u8 + 2, 0, map.len() as u8];
    file.extend_from_slice(&map);
    file
}

#[test]
fn scorer_files_read_and_write_back() {
    for bytes in [vec![4, 0, 2, 0, 0], one_channel(42, 3), one_channel(43, 0)] {
        let loaded = read_score_file("s.bin", &bytes, "s".to_string()).expect("read scores");
        assert_eq!(loaded.label, "s");
        assert_eq!(loaded.file_size_bytes, bytes.len() as u64);
        assert_eq!(encode_scores(&loaded.liquidities), bytes);
    }
    let mut longer = one_channel(42, 3);
    longer.push(7);
    let loaded = read_score_file("s.bin", &longer, "s".to_string()).expect("read scores");
    assert_eq!(loaded.file_size_bytes, longer.len() as u64);
    assert_eq!(encode_scores(&loaded.liquidities), one_channel(42, 3));
}

#[test]
fn bytes_that_are_no_scorer_file_are_refused() {
    let refused = |bytes: Vec<u8>| match read_score_file("d/s.bin", &bytes, "s".to_string()) {
        Ok(_) => panic!("no scorer file"),
        Err(failure) => failure.to_string(),
    };
    assert_eq!(refused(vec![]), "decode ChannelLiquidities from d/s.bin: ShortRead");
    assert_eq!(refused(vec![0]), "decode ChannelLiquidities from d/s.bin: InvalidValue");
    let mut short = one_channel(42, 3);
    short.truncate(40);
    assert_eq!(refused(short), "decode ChannelLiquidities from d/s.bin: ShortRead");
}

#[test]
fn the_strongest_of_several_entries_stays() {
    let entries = [
        diagnostic(7, true, 3.0, 1, 30),
        diagnostic(7, true, 9.0, 1, 10),
        diagnostic(7, false, 0.0, 0, 50),
        diagnostic(7, true, 5.0, 1, 20),
    ];
    let stays = |policy: MergePolicy| {
        let mut kept = entries[0];
        for other in &entries[1..] {
            let (action, _) = choose_merge_action(policy, &kept, other);
            if action == ChannelLiquidityMergeAction::ReplaceWithOther {
                kept = *other;
            }
        }
        kept.last_datapoint_time_secs
    };
    assert_eq!(stays(MergePolicy::RicherHistory), 10);
    assert_eq!(stays(MergePolicy::Newer), 50);
    assert_eq!(stays(MergePolicy::PreferFirst), 30);
    assert_eq!(stays(MergePolicy::PreferLast), 20);
}
