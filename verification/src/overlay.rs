//! Restricting incoming scorer files to selected channels.
use crate::diagnostic::ChannelLiquidityDiagnostic;
use crate::score_file::ScoreFile;
use std::collections::BTreeSet;
use vstd::prelude::*;

verus! {

/// What an allowlist did to the incoming files.
#[derive(Debug)]
pub struct OverlayFilterReport {
    pub mode: &'static str,
    pub allowed_scid_count: usize,
    pub incoming_files: Vec<OverlayFilteredInput>,
}

/// What an allowlist did to one incoming file.
#[derive(Debug)]
pub struct OverlayFilteredInput {
    pub label: String,
    pub original_entry_count: usize,
    pub included_entry_count: usize,
    pub removed_entry_count: usize,
    pub missing_allowed_scid_count: usize,
}

/// The entries that an allowlist keeps.
pub open spec fn kept_entries(
    diagnostics: Seq<ChannelLiquidityDiagnostic>,
    allowed: Set<u64>,
) -> Seq<ChannelLiquidityDiagnostic> {
    diagnostics.filter(|d: ChannelLiquidityDiagnostic| allowed.contains(d.scid))
}

/// The short-channel-ids of the entries that an allowlist takes out.
pub open spec fn removed_scids(
    diagnostics: Seq<ChannelLiquidityDiagnostic>,
    allowed: Set<u64>,
) -> Seq<u64> {
    diagnostics.filter(|d: ChannelLiquidityDiagnostic| !allowed.contains(d.scid)).map_values(
        |d: ChannelLiquidityDiagnostic| d.scid,
    )
}

/// Whether `after` is `before` reduced to an allowlist.
pub open spec fn is_reduced(before: ScoreFile, after: ScoreFile, allowed: Set<u64>) -> bool {
    &&& after.label@ == before.label@
    &&& after.file_size_bytes == before.file_size_bytes
    &&& after.diagnostics@ == kept_entries(before.diagnostics@, allowed)
}

/// Whether a report gives the counts of reducing a file to an allowlist.
pub open spec fn reports_reduction(
    input: OverlayFilteredInput,
    before: ScoreFile,
    allowed: Set<u64>,
) -> bool {
    let included = kept_entries(before.diagnostics@, allowed).len();
    &&& input.label@ == before.label@
    &&& input.original_entry_count == before.diagnostics@.len()
    &&& input.included_entry_count == included
    &&& input.removed_entry_count == before.diagnostics@.len() - included
    &&& input.missing_allowed_scid_count == if included < allowed.len() {
        allowed.len() - included
    } else {
        0
    }
}

/// Whether `after` is `before` with every file but the first reduced to an allowlist, with the
/// report on that and, for each later file, the short-channel-ids that were taken out.
pub open spec fn is_overlay(
    before: Seq<ScoreFile>,
    after: Seq<ScoreFile>,
    allowed: Set<u64>,
    report: OverlayFilterReport,
    removed: Seq<Vec<u64>>,
) -> bool {
    let incoming = if before.len() == 0 {
        0
    } else {
        before.len() - 1
    };
    &&& after.len() == before.len()
    &&& before.len() > 0 ==> after[0] == before[0]
    &&& forall|i: int|
        1 <= i < before.len() ==> is_reduced(before[i], #[trigger] after[i], allowed)
    &&& report.mode@ == "incoming-scid-allowlist"@
    &&& report.allowed_scid_count == allowed.len()
    &&& report.incoming_files@.len() == incoming
    &&& forall|i: int|
        0 <= i < incoming ==> reports_reduction(
            #[trigger] report.incoming_files@[i],
            before[i + 1],
            allowed,
        )
    &&& removed.len() == incoming
    &&& forall|i: int|
        0 <= i < incoming ==> #[trigger] removed[i]@ == removed_scids(
            before[i + 1].diagnostics@,
            allowed,
        )
}

/// Whether two reports say the same.
pub open spec fn reports_agree(a: OverlayFilterReport, b: OverlayFilterReport) -> bool {
    &&& a.mode@ == b.mode@
    &&& a.allowed_scid_count == b.allowed_scid_count
    &&& a.incoming_files@.len() == b.incoming_files@.len()
    &&& forall|i: int|
        0 <= i < a.incoming_files@.len() ==> inputs_agree(
            #[trigger] a.incoming_files@[i],
            b.incoming_files@[i],
        )
}

/// Whether two reports on one incoming file say the same.
pub open spec fn inputs_agree(a: OverlayFilteredInput, b: OverlayFilteredInput) -> bool {
    &&& a.label@ == b.label@
    &&& a.original_entry_count == b.original_entry_count
    &&& a.included_entry_count == b.included_entry_count
    &&& a.removed_entry_count == b.removed_entry_count
    &&& a.missing_allowed_scid_count == b.missing_allowed_scid_count
}

/// Collects short-channel-ids.
pub fn collect_scids(scids: &Vec<u64>) -> (r: BTreeSet<u64>)
    ensures
        r@ == scids@.to_set(),
{
    let mut set: BTreeSet<u64> = BTreeSet::new();
    let mut i: usize = 0;
    while i < scids.len()
        invariant
            i <= scids@.len(),
            set@ == scids@.take(i as int).to_set(),
        decreases scids@.len() - i,
    {
        proof {
            let prefix = scids@.take(i as int);
            let next = scids@.take(i + 1);
            assert(next =~= prefix.push(scids@[i as int]));
            prefix.lemma_push_to_set_commute(scids@[i as int]);
        }
        set.insert(scids[i]);
        i = i + 1;
    }
    assert(scids@.take(i as int) =~= scids@);
    set
}

/// Whether a merge is to be restricted: as soon as short-channel-ids or files that list them are
/// given.
pub fn allowlist_requested(scid_count: usize, file_count: usize) -> (r: bool)
    ensures
        r == (scid_count > 0 || file_count > 0),
{
    scid_count > 0 || file_count > 0
}

/// The allowlist of a merge: there is one as soon as short-channel-ids or lists of them were asked
/// for, even if these hold no short-channel-id at all. Such an allowlist lets nothing in.
pub fn overlay_allowlist(requested: bool, scids: BTreeSet<u64>) -> (r: Option<BTreeSet<u64>>)
    ensures
        r is Some <==> requested,
        r matches Some(allowed) ==> allowed@ == scids@,
{
    if requested {
        Some(scids)
    } else {
        None
    }
}

/// Splits entries by an allowlist: those that it keeps, and the ids of those that it takes out.
fn split_entries(
    diagnostics: &Vec<ChannelLiquidityDiagnostic>,
    allowed: &BTreeSet<u64>,
) -> (r: (Vec<ChannelLiquidityDiagnostic>, Vec<u64>))
    ensures
        r.0@ == kept_entries(diagnostics@, allowed@),
        r.1@ == removed_scids(diagnostics@, allowed@),
        r.0@.len() + r.1@.len() == diagnostics@.len(),
{
    let mut kept: Vec<ChannelLiquidityDiagnostic> = Vec::new();
    let mut removed: Vec<u64> = Vec::new();
    let mut i: usize = 0;
    while i < diagnostics.len()
        invariant
            i <= diagnostics@.len(),
            kept@ == kept_entries(diagnostics@.take(i as int), allowed@),
            removed@ == removed_scids(diagnostics@.take(i as int), allowed@),
            kept@.len() + removed@.len() == i,
        decreases diagnostics@.len() - i,
    {
        proof {
            reveal(Seq::filter);
            assert(diagnostics@.take(i + 1).drop_last() =~= diagnostics@.take(i as int));
        }
        let diag = diagnostics[i];
        if allowed.contains(&diag.scid) {
            kept.push(diag);
        } else {
            removed.push(diag.scid);
        }
        i = i + 1;
        assert(removed@ =~= removed_scids(diagnostics@.take(i as int), allowed@));
    }
    assert(diagnostics@.take(i as int) =~= diagnostics@);
    (kept, removed)
}

/// Reduces every file but the first to an allowlist. The first file is the baseline and stays as
/// it is. Beside the report come the short-channel-ids that were taken out of each later file.
pub fn apply_overlay_filter(
    input_files: &mut Vec<ScoreFile>,
    allowed_scids: &BTreeSet<u64>,
) -> (r: (OverlayFilterReport, Vec<Vec<u64>>))
    ensures
        is_overlay(
            old(input_files)@,
            final(input_files)@,
            allowed_scids@,
            r.0,
            r.1@,
        ),
{
    let ghost before = input_files@;
    let mut incoming_files: Vec<OverlayFilteredInput> = Vec::new();
    let mut removed_by_file: Vec<Vec<u64>> = Vec::new();
    let mut i: usize = 1;
    while i < input_files.len()
        invariant
            1 <= i,
            i <= before.len() || i == 1,
            before == old(input_files)@,
            input_files@.len() == before.len(),
            before.len() > 0 ==> input_files@[0] == before[0],
            forall|k: int|
                1 <= k < i && k < before.len() ==> is_reduced(
                    before[k],
                    #[trigger] input_files@[k],
                    allowed_scids@,
                ),
            forall|k: int| i <= k < before.len() ==> #[trigger] input_files@[k] == before[k],
            incoming_files@.len() == i - 1,
            forall|k: int|
                0 <= k < i - 1 ==> reports_reduction(
                    #[trigger] incoming_files@[k],
                    before[k + 1],
                    allowed_scids@,
                ),
            removed_by_file@.len() == i - 1,
            forall|k: int|
                0 <= k < i - 1 ==> #[trigger] removed_by_file@[k]@ == removed_scids(
                    before[k + 1].diagnostics@,
                    allowed_scids@,
                ),
        decreases before.len() - i,
    {
        let original_entry_count: usize = input_files[i].diagnostics.len();
        let (kept, removed) = split_entries(&input_files[i].diagnostics, allowed_scids);
        let included_entry_count: usize = kept.len();
        let label = input_files[i].label.clone();
        input_files[i].diagnostics = kept;
        incoming_files.push(
            OverlayFilteredInput {
                label,
                original_entry_count,
                included_entry_count,
                removed_entry_count: original_entry_count.saturating_sub(included_entry_count),
                missing_allowed_scid_count: allowed_scids.len().saturating_sub(
                    included_entry_count,
                ),
            },
        );
        removed_by_file.push(removed);
        i = i + 1;
    }
    let report = OverlayFilterReport {
        mode: "incoming-scid-allowlist",
        allowed_scid_count: allowed_scids.len(),
        incoming_files,
    };
    (report, removed_by_file)
}

/// An allowlist that holds only channels of a file misses none of them there.
pub proof fn an_allowlist_of_known_channels_misses_nothing(
    input: OverlayFilteredInput,
    before: ScoreFile,
    allowed: Set<u64>,
)
    requires
        reports_reduction(input, before, allowed),
        forall|scid: u64| #[trigger]
            allowed.contains(scid) ==> exists|i: int|
                0 <= i < before.diagnostics@.len() && (#[trigger] before.diagnostics@[i]).scid
                    == scid,
    ensures
        input.missing_allowed_scid_count == 0,
{
    let all = before.diagnostics@;
    let kept = kept_entries(all, allowed);
    let scids = kept.map_values(|d: ChannelLiquidityDiagnostic| d.scid);
    let keep = |d: ChannelLiquidityDiagnostic| allowed.contains(d.scid);
    assert(allowed.subset_of(scids.to_set())) by {
        assert forall|scid: u64| #[trigger] allowed.contains(scid) implies scids.to_set().contains(
            scid,
        ) by {
            let i = choose|i: int| 0 <= i < all.len() && (#[trigger] all[i]).scid == scid;
            all.lemma_filter_contains_rev(keep, all[i]);
            assert(kept.contains(all[i]));
            let k = choose|k: int| 0 <= k < kept.len() && kept[k] == all[i];
            assert(scids[k] == scid);
        }
    }
    vstd::set_lib::lemma_len_subset(allowed, scids.to_set());
    scids.lemma_cardinality_of_set();
}

/// A file that was reduced to an allowlist holds only channels of it, and reducing it once more
/// changes nothing.
pub proof fn reducing_again_changes_nothing(
    diagnostics: Seq<ChannelLiquidityDiagnostic>,
    allowed: Set<u64>,
)
    ensures
        forall|i: int|
            0 <= i < kept_entries(diagnostics, allowed).len() ==> allowed.contains(
                (#[trigger] kept_entries(diagnostics, allowed)[i]).scid,
            ),
        kept_entries(kept_entries(diagnostics, allowed), allowed) == kept_entries(
            diagnostics,
            allowed,
        ),
        removed_scids(kept_entries(diagnostics, allowed), allowed) == Seq::<u64>::empty(),
    decreases diagnostics.len(),
{
    reveal(Seq::filter);
    if diagnostics.len() > 0 {
        let init = diagnostics.drop_last();
        reducing_again_changes_nothing(init, allowed);
        let kept = kept_entries(init, allowed);
        if allowed.contains(diagnostics.last().scid) {
            assert(kept.push(diagnostics.last()).drop_last() =~= kept);
        }
    }
    assert(removed_scids(kept_entries(diagnostics, allowed), allowed) =~= Seq::<u64>::empty());
}

/// An allowlist without channels takes every entry out.
pub proof fn an_empty_allowlist_lets_nothing_in(diagnostics: Seq<ChannelLiquidityDiagnostic>)
    ensures
        kept_entries(diagnostics, Set::empty()).len() == 0,
        removed_scids(diagnostics, Set::empty()) == diagnostics.map_values(
            |d: ChannelLiquidityDiagnostic| d.scid,
        ),
{
    lemma_nothing_is_allowed(diagnostics);
}

proof fn lemma_nothing_is_allowed(diagnostics: Seq<ChannelLiquidityDiagnostic>)
    ensures
        kept_entries(diagnostics, Set::empty()).len() == 0,
        diagnostics.filter(
            |d: ChannelLiquidityDiagnostic| !Set::<u64>::empty().contains(d.scid),
        ) == diagnostics,
    decreases diagnostics.len(),
{
    reveal(Seq::filter);
    if diagnostics.len() > 0 {
        lemma_nothing_is_allowed(diagnostics.drop_last());
        assert(diagnostics.drop_last().push(diagnostics.last()) =~= diagnostics);
    }
}

/// What an allowlist does to files: the first one stays as it is. Of every later one just the
/// entries for allowed channels stay, with the label and the size of the file, and the
/// short-channel-ids of the others are those that are taken out.
pub proof fn an_overlay_keeps_what_is_allowed(
    before: Seq<ScoreFile>,
    after: Seq<ScoreFile>,
    allowed: Set<u64>,
    report: OverlayFilterReport,
    removed: Seq<Vec<u64>>,
    i: int,
)
    requires
        is_overlay(before, after, allowed, report, removed),
        0 <= i < before.len(),
    ensures
        after.len() == before.len(),
        i == 0 ==> after[i] == before[i],
        after[i].label@ == before[i].label@,
        after[i].file_size_bytes == before[i].file_size_bytes,
        i > 0 ==> {
            &&& forall|d: ChannelLiquidityDiagnostic| #[trigger]
                after[i].diagnostics@.contains(d) <==> before[i].diagnostics@.contains(d)
                    && allowed.contains(d.scid)
            &&& forall|scid: u64| #[trigger]
                removed[i - 1]@.contains(scid) <==> !allowed.contains(scid) && exists|k: int|
                    0 <= k < before[i].diagnostics@.len() && (#[trigger] before[i].diagnostics@[k]).scid
                        == scid
            &&& after[i].diagnostics@.len() + removed[i - 1]@.len()
                == before[i].diagnostics@.len()
        },
{
    if i > 0 {
        let all = before[i].diagnostics@;
        assert(is_reduced(before[i], after[i], allowed));
        assert(removed[i - 1]@ == removed_scids(all, allowed));
        lemma_kept_entries(all, allowed);
        lemma_removed_scids(all, allowed);
    }
}

proof fn lemma_kept_entries(all: Seq<ChannelLiquidityDiagnostic>, allowed: Set<u64>)
    ensures
        forall|d: ChannelLiquidityDiagnostic| #[trigger]
            kept_entries(all, allowed).contains(d) <==> all.contains(d) && allowed.contains(
                d.scid,
            ),
    decreases all.len(),
{
    let kept = kept_entries(all, allowed);
    if all.len() > 0 {
        let init = all.drop_last();
        let last = all.last();
        let before = kept_entries(init, allowed);
        lemma_kept_entries(init, allowed);
        reducing_keeps_the_order(init, last, allowed);
        assert(init.push(last) =~= all);
        assert forall|d: ChannelLiquidityDiagnostic| #[trigger] kept.contains(
            d,
        ) implies all.contains(d) && allowed.contains(d.scid) by {
            let k = choose|k: int| 0 <= k < kept.len() && kept[k] == d;
            if k < before.len() {
                assert(before[k] == d);
                assert(before.contains(d));
                let at = choose|at: int| 0 <= at < init.len() && init[at] == d;
                assert(all[at] == d);
            } else {
                assert(all[all.len() - 1] == d);
            }
        }
        assert forall|d: ChannelLiquidityDiagnostic|
            all.contains(d) && allowed.contains(d.scid) implies #[trigger] kept.contains(d) by {
            let at = choose|at: int| 0 <= at < all.len() && all[at] == d;
            if at < init.len() {
                assert(init[at] == d);
                assert(before.contains(d));
                let k = choose|k: int| 0 <= k < before.len() && before[k] == d;
                assert(kept[k] == d);
            } else {
                assert(kept[kept.len() - 1] == d);
            }
        }
    } else {
        reveal(Seq::filter);
        assert(kept =~= seq![]);
    }
}

proof fn lemma_removed_scids(all: Seq<ChannelLiquidityDiagnostic>, allowed: Set<u64>)
    ensures
        forall|scid: u64| #[trigger]
            removed_scids(all, allowed).contains(scid) <==> !allowed.contains(scid) && exists|
                k: int,
            |
                0 <= k < all.len() && (#[trigger] all[k]).scid == scid,
        kept_entries(all, allowed).len() + removed_scids(all, allowed).len() == all.len(),
    decreases all.len(),
{
    reveal(Seq::filter);
    let out = removed_scids(all, allowed);
    if all.len() > 0 {
        let init = all.drop_last();
        let last = all.last();
        lemma_removed_scids(init, allowed);
        let before = removed_scids(init, allowed);
        if allowed.contains(last.scid) {
            assert(out =~= before);
        } else {
            assert(out =~= before.push(last.scid));
        }
        assert forall|scid: u64| #[trigger] out.contains(scid) implies !allowed.contains(scid)
            && exists|k: int| 0 <= k < all.len() && (#[trigger] all[k]).scid == scid by {
            if before.contains(scid) {
                let k = choose|k: int| 0 <= k < init.len() && (#[trigger] init[k]).scid == scid;
                assert(all[k].scid == scid);
            } else {
                assert(scid == last.scid && !allowed.contains(last.scid)) by {
                    let at = choose|at: int| 0 <= at < out.len() && out[at] == scid;
                    if at < before.len() {
                        assert(before[at] == scid);
                    }
                }
                assert(all[all.len() - 1].scid == scid);
            }
        }
        assert forall|scid: u64|
            !allowed.contains(scid) && (exists|k: int|
                0 <= k < all.len() && (#[trigger] all[k]).scid
                    == scid) implies #[trigger] out.contains(scid) by {
            let k = choose|k: int| 0 <= k < all.len() && (#[trigger] all[k]).scid == scid;
            if k < init.len() {
                assert(init[k].scid == scid);
                assert(before.contains(scid));
                let at = choose|at: int| 0 <= at < before.len() && before[at] == scid;
                assert(out[at] == scid);
            } else {
                assert(out[out.len() - 1] == scid);
            }
        }
    } else {
        assert(out =~= seq![]);
    }
}

/// The report on an overlay counts, for every later file in its order, the entries that it had,
/// those that stay and those that do not, and the allowed channels beyond the entries that stay.
pub proof fn overlay_reports_count_entries(
    before: Seq<ScoreFile>,
    after: Seq<ScoreFile>,
    allowed: Set<u64>,
    report: OverlayFilterReport,
    removed: Seq<Vec<u64>>,
    i: int,
)
    requires
        is_overlay(before, after, allowed, report, removed),
        1 <= i < before.len(),
    ensures
        report.mode@ == "incoming-scid-allowlist"@,
        report.allowed_scid_count == allowed.len(),
        report.incoming_files@.len() == before.len() - 1,
        removed.len() == before.len() - 1,
        report.incoming_files@[i - 1].label@ == before[i].label@,
        report.incoming_files@[i - 1].original_entry_count == before[i].diagnostics@.len(),
        report.incoming_files@[i - 1].included_entry_count == after[i].diagnostics@.len(),
        report.incoming_files@[i - 1].removed_entry_count == removed[i - 1]@.len(),
        after[i].diagnostics@.len() <= allowed.len() ==> report.incoming_files@[i
            - 1].missing_allowed_scid_count + after[i].diagnostics@.len() == allowed.len(),
        after[i].diagnostics@.len() >= allowed.len() ==> report.incoming_files@[i
            - 1].missing_allowed_scid_count == 0,
{
    assert(is_reduced(before[i], after[i], allowed));
    assert(reports_reduction(report.incoming_files@[i - 1], before[i], allowed));
    lemma_removed_scids(before[i].diagnostics@, allowed);
    assert(removed[i - 1]@ == removed_scids(before[i].diagnostics@, allowed));
}

/// Reducing keeps entries in their order: one more entry behind a file goes behind what stays if
/// its channel is allowed, and is left out if not.
pub proof fn reducing_keeps_the_order(
    diagnostics: Seq<ChannelLiquidityDiagnostic>,
    next: ChannelLiquidityDiagnostic,
    allowed: Set<u64>,
)
    ensures
        kept_entries(diagnostics.push(next), allowed) == if allowed.contains(next.scid) {
            kept_entries(diagnostics, allowed).push(next)
        } else {
            kept_entries(diagnostics, allowed)
        },
        removed_scids(diagnostics.push(next), allowed) == if allowed.contains(next.scid) {
            removed_scids(diagnostics, allowed)
        } else {
            removed_scids(diagnostics, allowed).push(next.scid)
        },
{
    reveal(Seq::filter);
    assert(diagnostics.push(next).drop_last() =~= diagnostics);
    let rest = diagnostics.filter(
        |d: ChannelLiquidityDiagnostic| !allowed.contains(d.scid),
    );
    if !allowed.contains(next.scid) {
        assert(rest.push(next).map_values(|d: ChannelLiquidityDiagnostic| d.scid)
            =~= rest.map_values(|d: ChannelLiquidityDiagnostic| d.scid).push(next.scid));
    }
}

} // verus!
