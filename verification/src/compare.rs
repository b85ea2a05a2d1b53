//! Comparing two scorer files.
use crate::diagnostic;
use crate::diagnostic::{
    compare_datapoint_time, compare_history_richness, ChannelLiquidityDiagnostic,
};
use crate::keys;
use crate::order::Comparison;
use crate::score_file::ScoreFile;
use crate::summary;
use crate::summary::{build_summary, Summary};
use crate::text;
use crate::text::push_decimal;
use std::collections::BTreeMap;
use vstd::prelude::*;
use vstd::string::StringExecFns;

verus! {

/// How two scorer files compare.
#[derive(Debug)]
pub struct CompareReport {
    pub left: Summary,
    pub right: Summary,
    pub overlap_count: usize,
    pub left_only_count: usize,
    pub right_only_count: usize,
    pub left_richer_overlap_count: usize,
    pub right_richer_overlap_count: usize,
    pub equal_richness_overlap_count: usize,
    pub left_newer_overlap_count: usize,
    pub right_newer_overlap_count: usize,
    pub equal_datapoint_time_overlap_count: usize,
}

/// Entries by their short-channel-ids. Of several with the same id the last one counts.
pub open spec fn by_scid(diagnostics: Seq<ChannelLiquidityDiagnostic>) -> Map<
    u64,
    ChannelLiquidityDiagnostic,
>
    decreases diagnostics.len(),
{
    if diagnostics.len() == 0 {
        Map::empty()
    } else {
        by_scid(diagnostics.drop_last()).insert(diagnostics.last().scid, diagnostics.last())
    }
}

/// The channels that both files know.
pub open spec fn overlap(
    left: Map<u64, ChannelLiquidityDiagnostic>,
    right: Map<u64, ChannelLiquidityDiagnostic>,
) -> Set<u64> {
    left.dom().intersect(right.dom())
}

/// What two entries for the same channel are compared by.
#[derive(Clone, Copy, Debug, PartialEq, Eq, Structural)]
pub enum Measure {
    /// The strength of their historical signal.
    Richness,
    /// The time of their last datapoint, then of their last updates.
    Recency,
}

impl Measure {
    /// How two entries compare.
    pub open spec fn outcome(
        self,
        left: ChannelLiquidityDiagnostic,
        right: ChannelLiquidityDiagnostic,
    ) -> Comparison {
        match self {
            Measure::Richness => diagnostic::richness(left, right),
            Measure::Recency => diagnostic::recency(left, right),
        }
    }

    fn compare_entries(
        self,
        left: &ChannelLiquidityDiagnostic,
        right: &ChannelLiquidityDiagnostic,
    ) -> (r: Comparison)
        ensures
            r == self.outcome(*left, *right),
    {
        match self {
            Measure::Richness => compare_history_richness(left, right),
            Measure::Recency => compare_datapoint_time(left, right),
        }
    }
}

/// The channels that both files know and whose entries compare so.
pub open spec fn overlap_by(
    left: Map<u64, ChannelLiquidityDiagnostic>,
    right: Map<u64, ChannelLiquidityDiagnostic>,
    measure: Measure,
    outcome: Comparison,
) -> Set<u64> {
    overlap(left, right).filter(
        |scid: u64| measure.outcome(left[scid], right[scid]) == outcome,
    )
}

impl CompareReport {
    /// Whether the counts are those of comparing two files with these channels.
    pub open spec fn counts(
        self,
        left: Map<u64, ChannelLiquidityDiagnostic>,
        right: Map<u64, ChannelLiquidityDiagnostic>,
    ) -> bool {
        &&& self.overlap_count == overlap(left, right).len()
        &&& self.left_only_count == left.dom().difference(right.dom()).len()
        &&& self.right_only_count == right.dom().difference(left.dom()).len()
        &&& self.left_richer_overlap_count == overlap_by(
            left,
            right,
            Measure::Richness,
            Comparison::Greater,
        ).len()
        &&& self.right_richer_overlap_count == overlap_by(
            left,
            right,
            Measure::Richness,
            Comparison::Less,
        ).len()
        &&& self.equal_richness_overlap_count == overlap_by(
            left,
            right,
            Measure::Richness,
            Comparison::Equal,
        ).len()
        &&& self.left_newer_overlap_count == overlap_by(
            left,
            right,
            Measure::Recency,
            Comparison::Greater,
        ).len()
        &&& self.right_newer_overlap_count == overlap_by(
            left,
            right,
            Measure::Recency,
            Comparison::Less,
        ).len()
        &&& self.equal_datapoint_time_overlap_count == overlap_by(
            left,
            right,
            Measure::Recency,
            Comparison::Equal,
        ).len()
    }
}

impl CompareReport {
    /// Whether the report compares these two files.
    pub open spec fn compares(self, left: ScoreFile, right: ScoreFile) -> bool {
        &&& self.counts(by_scid(left.diagnostics@), by_scid(right.diagnostics@))
        &&& summary::summarizes(
            self.left,
            left.label@,
            left.file_size_bytes,
            left.diagnostics@,
        )
        &&& summary::summarizes(
            self.right,
            right.label@,
            right.file_size_bytes,
            right.diagnostics@,
        )
    }
}

fn index_by_scid(diagnostics: &Vec<ChannelLiquidityDiagnostic>) -> (r: BTreeMap<
    u64,
    ChannelLiquidityDiagnostic,
>)
    ensures
        r@ == by_scid(diagnostics@),
{
    let mut index: BTreeMap<u64, ChannelLiquidityDiagnostic> = BTreeMap::new();
    let mut i: usize = 0;
    while i < diagnostics.len()
        invariant
            i <= diagnostics@.len(),
            index@ == by_scid(diagnostics@.take(i as int)),
        decreases diagnostics@.len() - i,
    {
        assert(diagnostics@.take(i + 1).drop_last() =~= diagnostics@.take(i as int));
        let diag = diagnostics[i];
        index.insert(diag.scid, diag);
        i = i + 1;
    }
    assert(diagnostics@.take(i as int) =~= diagnostics@);
    index
}

/// The number of the first `n` keys that have a property.
spec fn tallied(scids: Seq<u64>, n: int, p: spec_fn(u64) -> bool) -> nat {
    scids.take(n).to_set().filter(p).len()
}

proof fn lemma_tallied_step(scids: Seq<u64>, n: int, p: spec_fn(u64) -> bool)
    requires
        keys::strictly_ascends(scids),
        0 <= n < scids.len(),
    ensures
        tallied(scids, n + 1, p) == tallied(scids, n, p) + if p(scids[n]) {
            1nat
        } else {
            0
        },
        tallied(scids, n, p) <= n,
{
    let before = scids.take(n).to_set();
    let after = scids.take(n + 1).to_set();
    let x = scids[n];
    assert(!before.contains(x)) by {
        if before.contains(x) {
            let k = choose|k: int| 0 <= k < n && scids.take(n)[k] == x;
            assert(scids[k] < scids[n]);
        }
    }
    assert(scids.take(n + 1) =~= scids.take(n).push(x));
    scids.take(n).lemma_push_to_set_commute(x);
    if p(x) {
        assert(after.filter(p) =~= before.filter(p).insert(x));
    } else {
        assert(after.filter(p) =~= before.filter(p));
    }
    before.lemma_len_filter(p);
    scids.take(n).lemma_cardinality_of_set();
}

proof fn lemma_tallied_start(scids: Seq<u64>, p: spec_fn(u64) -> bool)
    ensures
        tallied(scids, 0, p) == 0,
{
    assert(scids.take(0).to_set().filter(p) =~= Set::empty());
}

proof fn lemma_tallied_end(scids: Seq<u64>, p: spec_fn(u64) -> bool, all: Set<u64>)
    requires
        all =~= scids.to_set().filter(p),
    ensures
        tallied(scids, scids.len() as int, p) == all.len(),
{
    assert(scids.take(scids.len() as int) =~= scids);
}

/// Counts the keys of a map that another map lacks.
fn count_missing(
    scids: &Vec<u64>,
    other: &BTreeMap<u64, ChannelLiquidityDiagnostic>,
    Ghost(dom): Ghost<Set<u64>>,
) -> (r: usize)
    requires
        keys::strictly_ascends(scids@),
        scids@.to_set() == dom,
    ensures
        r == dom.difference(other@.dom()).len(),
{
    let ghost p = |scid: u64| !other@.dom().contains(scid);
    let mut count: usize = 0;
    let mut i: usize = 0;
    proof {
        lemma_tallied_start(scids@, p);
    }
    while i < scids.len()
        invariant
            i <= scids@.len(),
            keys::strictly_ascends(scids@),
            p == |scid: u64| !other@.dom().contains(scid),
            count == tallied(scids@, i as int, p),
            count <= i,
        decreases scids@.len() - i,
    {
        proof {
            lemma_tallied_step(scids@, i as int, p);
        }
        if !other.contains_key(&scids[i]) {
            count = count + 1;
        }
        i = i + 1;
    }
    proof {
        lemma_tallied_end(scids@, p, dom.difference(other@.dom()));
    }
    count
}

/// How often the channels of an overlap compare as they can.
struct OverlapCounts {
    shared: usize,
    greater: usize,
    less: usize,
    equal: usize,
}

impl OverlapCounts {
    spec fn count(
        self,
        left: Map<u64, ChannelLiquidityDiagnostic>,
        right: Map<u64, ChannelLiquidityDiagnostic>,
        measure: Measure,
    ) -> bool {
        &&& self.shared == overlap(left, right).len()
        &&& self.greater == overlap_by(left, right, measure, Comparison::Greater).len()
        &&& self.less == overlap_by(left, right, measure, Comparison::Less).len()
        &&& self.equal == overlap_by(left, right, measure, Comparison::Equal).len()
    }
}

/// The channels that another file knows too and whose entries compare so.
spec fn shared_and(
    left: Map<u64, ChannelLiquidityDiagnostic>,
    right: Map<u64, ChannelLiquidityDiagnostic>,
    measure: Measure,
    outcome: Comparison,
) -> spec_fn(u64) -> bool {
    |scid: u64|
        right.dom().contains(scid) && measure.outcome(left[scid], right[scid]) == outcome
}

/// Counts how the channels of an overlap compare.
fn count_overlap(
    scids: &Vec<u64>,
    left: &BTreeMap<u64, ChannelLiquidityDiagnostic>,
    right: &BTreeMap<u64, ChannelLiquidityDiagnostic>,
    measure: Measure,
) -> (r: OverlapCounts)
    requires
        keys::are_keys_of(scids@, left@),
    ensures
        r.count(left@, right@, measure),
{
    let ghost shared = |scid: u64| right@.dom().contains(scid);
    let ghost is_greater = shared_and(left@, right@, measure, Comparison::Greater);
    let ghost is_less = shared_and(left@, right@, measure, Comparison::Less);
    let ghost is_equal = shared_and(left@, right@, measure, Comparison::Equal);
    let mut counts = OverlapCounts { shared: 0, greater: 0, less: 0, equal: 0 };
    let mut i: usize = 0;
    proof {
        lemma_tallied_start(scids@, shared);
        lemma_tallied_start(scids@, is_greater);
        lemma_tallied_start(scids@, is_less);
        lemma_tallied_start(scids@, is_equal);
    }
    while i < scids.len()
        invariant
            i <= scids@.len(),
            keys::are_keys_of(scids@, left@),
            shared == |scid: u64| right@.dom().contains(scid),
            is_greater == shared_and(left@, right@, measure, Comparison::Greater),
            is_less == shared_and(left@, right@, measure, Comparison::Less),
            is_equal == shared_and(left@, right@, measure, Comparison::Equal),
            counts.shared == tallied(scids@, i as int, shared),
            counts.greater == tallied(scids@, i as int, is_greater),
            counts.less == tallied(scids@, i as int, is_less),
            counts.equal == tallied(scids@, i as int, is_equal),
        decreases scids@.len() - i,
    {
        let scid: u64 = scids[i];
        proof {
            assert(scids@.to_set().contains(scids@[i as int]));
            assert(left@.contains_key(scid));
            lemma_tallied_step(scids@, i as int, shared);
            lemma_tallied_step(scids@, i as int, is_greater);
            lemma_tallied_step(scids@, i as int, is_less);
            lemma_tallied_step(scids@, i as int, is_equal);
        }
        if let Some(left_diag) = left.get(&scid) {
            if let Some(right_diag) = right.get(&scid) {
                counts.shared = counts.shared + 1;
                match measure.compare_entries(left_diag, right_diag) {
                    Comparison::Greater => {
                        counts.greater = counts.greater + 1;
                    },
                    Comparison::Less => {
                        counts.less = counts.less + 1;
                    },
                    Comparison::Equal => {
                        counts.equal = counts.equal + 1;
                    },
                }
            }
        }
        i = i + 1;
    }
    proof {
        lemma_tallied_end(scids@, shared, overlap(left@, right@));
        lemma_tallied_end(
            scids@,
            is_greater,
            overlap_by(left@, right@, measure, Comparison::Greater),
        );
        lemma_tallied_end(scids@, is_less, overlap_by(left@, right@, measure, Comparison::Less));
        lemma_tallied_end(scids@, is_equal, overlap_by(left@, right@, measure, Comparison::Equal));
    }
    counts
}

/// Compares two scorer files: how many channels they share, and which of them knows more, or
/// newer things, of those.
pub fn compare(left: ScoreFile, right: ScoreFile) -> (r: CompareReport)
    ensures
        r.compares(left, right),
{
    let left_by_scid = index_by_scid(&left.diagnostics);
    let right_by_scid = index_by_scid(&right.diagnostics);
    let left_scids = keys::keys_of(&left_by_scid);
    let right_scids = keys::keys_of(&right_by_scid);
    let richness = count_overlap(&left_scids, &left_by_scid, &right_by_scid, Measure::Richness);
    let recency = count_overlap(&left_scids, &left_by_scid, &right_by_scid, Measure::Recency);
    let left_only_count: usize = count_missing(
        &left_scids,
        &right_by_scid,
        Ghost(left_by_scid@.dom()),
    );
    let right_only_count: usize = count_missing(
        &right_scids,
        &left_by_scid,
        Ghost(right_by_scid@.dom()),
    );
    CompareReport {
        left: build_summary(left.label, left.file_size_bytes, &left.diagnostics),
        right: build_summary(right.label, right.file_size_bytes, &right.diagnostics),
        overlap_count: richness.shared,
        left_only_count,
        right_only_count,
        left_richer_overlap_count: richness.greater,
        right_richer_overlap_count: richness.less,
        equal_richness_overlap_count: richness.equal,
        left_newer_overlap_count: recency.greater,
        right_newer_overlap_count: recency.less,
        equal_datapoint_time_overlap_count: recency.equal,
    }
}

/// One row with the counts of a comparison.
#[derive(Debug)]
pub struct CompareCsvRow {
    pub left_label: String,
    pub right_label: String,
    pub left_entry_count: usize,
    pub right_entry_count: usize,
    pub overlap_count: usize,
    pub left_only_count: usize,
    pub right_only_count: usize,
    pub left_richer_overlap_count: usize,
    pub right_richer_overlap_count: usize,
    pub equal_richness_overlap_count: usize,
    pub left_newer_overlap_count: usize,
    pub right_newer_overlap_count: usize,
    pub equal_datapoint_time_overlap_count: usize,
}

impl vstd::std_specs::convert::FromSpecImpl<&CompareReport> for CompareCsvRow {
    open spec fn obeys_from_spec() -> bool {
        true
    }

    open spec fn from_spec(report: &CompareReport) -> CompareCsvRow {
        CompareCsvRow {
            left_label: report.left.label,
            right_label: report.right.label,
            left_entry_count: report.left.entry_count,
            right_entry_count: report.right.entry_count,
            overlap_count: report.overlap_count,
            left_only_count: report.left_only_count,
            right_only_count: report.right_only_count,
            left_richer_overlap_count: report.left_richer_overlap_count,
            right_richer_overlap_count: report.right_richer_overlap_count,
            equal_richness_overlap_count: report.equal_richness_overlap_count,
            left_newer_overlap_count: report.left_newer_overlap_count,
            right_newer_overlap_count: report.right_newer_overlap_count,
            equal_datapoint_time_overlap_count: report.equal_datapoint_time_overlap_count,
        }
    }
}

impl From<&CompareReport> for CompareCsvRow {
    fn from(report: &CompareReport) -> (r: CompareCsvRow) {
        CompareCsvRow {
            left_label: report.left.label.clone(),
            right_label: report.right.label.clone(),
            left_entry_count: report.left.entry_count,
            right_entry_count: report.right.entry_count,
            overlap_count: report.overlap_count,
            left_only_count: report.left_only_count,
            right_only_count: report.right_only_count,
            left_richer_overlap_count: report.left_richer_overlap_count,
            right_richer_overlap_count: report.right_richer_overlap_count,
            equal_richness_overlap_count: report.equal_richness_overlap_count,
            left_newer_overlap_count: report.left_newer_overlap_count,
            right_newer_overlap_count: report.right_newer_overlap_count,
            equal_datapoint_time_overlap_count: report.equal_datapoint_time_overlap_count,
        }
    }
}

impl CompareReport {
    /// The report as text for a reader.
    pub open spec fn text(self) -> Seq<char> {
        "scorer-kit compare\n"@
            + "  left:                   "@ + self.left.label@
            + "\n  right:                  "@ + self.right.label@
            + "\n  left entries:           "@ + text::decimal(self.left.entry_count as nat)
            + "\n  right entries:          "@ + text::decimal(self.right.entry_count as nat)
            + "\n  overlap:                "@ + text::decimal(self.overlap_count as nat)
            + "\n  left only:              "@ + text::decimal(self.left_only_count as nat)
            + "\n  right only:             "@ + text::decimal(self.right_only_count as nat)
            + "\n\n  richer history left:    "@ + text::decimal(self.left_richer_overlap_count as nat)
            + "\n  richer history right:   "@ + text::decimal(self.right_richer_overlap_count as nat)
            + "\n  equal history richness: "@ + text::decimal(self.equal_richness_overlap_count as nat)
            + "\n\n  newer datapoint left:   "@ + text::decimal(self.left_newer_overlap_count as nat)
            + "\n  newer datapoint right:  "@ + text::decimal(self.right_newer_overlap_count as nat)
            + "\n  equal datapoint time:   "@ + text::decimal(self.equal_datapoint_time_overlap_count as nat)
            + "\n"@
    }
}

/// Writes a comparison as text.
pub fn render_compare_text(report: &CompareReport) -> (r: String)
    ensures
        r@ == report.text(),
{
    let mut out = String::from_str("scorer-kit compare\n");
    out.append("  left:                   ");
    out.append(report.left.label.as_str());
    out.append("\n  right:                  ");
    out.append(report.right.label.as_str());
    out.append("\n  left entries:           ");
    push_decimal(&mut out, report.left.entry_count as u64);
    out.append("\n  right entries:          ");
    push_decimal(&mut out, report.right.entry_count as u64);
    out.append("\n  overlap:                ");
    push_decimal(&mut out, report.overlap_count as u64);
    out.append("\n  left only:              ");
    push_decimal(&mut out, report.left_only_count as u64);
    out.append("\n  right only:             ");
    push_decimal(&mut out, report.right_only_count as u64);
    out.append("\n\n  richer history left:    ");
    push_decimal(&mut out, report.left_richer_overlap_count as u64);
    out.append("\n  richer history right:   ");
    push_decimal(&mut out, report.right_richer_overlap_count as u64);
    out.append("\n  equal history richness: ");
    push_decimal(&mut out, report.equal_richness_overlap_count as u64);
    out.append("\n\n  newer datapoint left:   ");
    push_decimal(&mut out, report.left_newer_overlap_count as u64);
    out.append("\n  newer datapoint right:  ");
    push_decimal(&mut out, report.right_newer_overlap_count as u64);
    out.append("\n  equal datapoint time:   ");
    push_decimal(&mut out, report.equal_datapoint_time_overlap_count as u64);
    out.append("\n");
    out
}

/// Every channel of the overlap counts once by richness and once by recency.
pub proof fn every_shared_channel_counts_once(
    report: CompareReport,
    left: Seq<ChannelLiquidityDiagnostic>,
    right: Seq<ChannelLiquidityDiagnostic>,
)
    requires
        report.counts(by_scid(left), by_scid(right)),
    ensures
        report.left_richer_overlap_count + report.right_richer_overlap_count
            + report.equal_richness_overlap_count == report.overlap_count,
        report.left_newer_overlap_count + report.right_newer_overlap_count
            + report.equal_datapoint_time_overlap_count == report.overlap_count,
{
    let l = by_scid(left);
    let r = by_scid(right);
    lemma_known_channels(left);
    lemma_split_in_three(l, r, Measure::Richness);
    lemma_split_in_three(l, r, Measure::Recency);
}

proof fn lemma_split_in_three(
    left: Map<u64, ChannelLiquidityDiagnostic>,
    right: Map<u64, ChannelLiquidityDiagnostic>,
    measure: Measure,
)
    requires
        left.dom().finite(),
    ensures
        overlap_by(left, right, measure, Comparison::Greater).len() + overlap_by(
            left,
            right,
            measure,
            Comparison::Less,
        ).len() + overlap_by(left, right, measure, Comparison::Equal).len() == overlap(
            left,
            right,
        ).len(),
{
    let all = overlap(left, right);
    let greater = overlap_by(left, right, measure, Comparison::Greater);
    let less = overlap_by(left, right, measure, Comparison::Less);
    let equal = overlap_by(left, right, measure, Comparison::Equal);
    vstd::set_lib::lemma_set_disjoint_lens(greater, less);
    vstd::set_lib::lemma_set_disjoint_lens(greater + less, equal);
    assert(greater + less + equal =~= all);
}

proof fn lemma_known_channels(diagnostics: Seq<ChannelLiquidityDiagnostic>)
    ensures
        by_scid(diagnostics).dom().finite(),
        by_scid(diagnostics).dom().len() <= diagnostics.len(),
        forall|scid: u64| #[trigger]
            by_scid(diagnostics).dom().contains(scid) <==> exists|i: int|
                0 <= i < diagnostics.len() && (#[trigger] diagnostics[i]).scid == scid,
    decreases diagnostics.len(),
{
    if diagnostics.len() > 0 {
        let init = diagnostics.drop_last();
        lemma_known_channels(init);
        assert(by_scid(diagnostics).dom() =~= by_scid(init).dom().insert(diagnostics.last().scid));
        assert forall|scid: u64| #[trigger]
            by_scid(diagnostics).dom().contains(scid) implies exists|i: int|
            0 <= i < diagnostics.len() && (#[trigger] diagnostics[i]).scid == scid by {
            if scid == diagnostics.last().scid {
                assert(diagnostics[diagnostics.len() - 1].scid == scid);
            } else {
                let i = choose|i: int| 0 <= i < init.len() && (#[trigger] init[i]).scid == scid;
                assert(diagnostics[i].scid == scid);
            }
        }
        assert forall|scid: u64|
            (exists|i: int|
                0 <= i < diagnostics.len() && (#[trigger] diagnostics[i]).scid
                    == scid) implies #[trigger] by_scid(diagnostics).dom().contains(scid) by {
            let i = choose|i: int|
                0 <= i < diagnostics.len() && (#[trigger] diagnostics[i]).scid == scid;
            if i < init.len() {
                assert(init[i].scid == scid);
            }
        }
    }
}

/// Every channel of a file is either shared or only there, and a file has no more channels
/// than entries.
pub proof fn every_channel_is_shared_or_not(
    report: CompareReport,
    left: Seq<ChannelLiquidityDiagnostic>,
    right: Seq<ChannelLiquidityDiagnostic>,
)
    requires
        report.counts(by_scid(left), by_scid(right)),
    ensures
        report.overlap_count + report.left_only_count == by_scid(left).dom().len() <= left.len(),
        report.overlap_count + report.right_only_count == by_scid(right).dom().len()
            <= right.len(),
{
    let l = by_scid(left).dom();
    let r = by_scid(right).dom();
    lemma_known_channels(left);
    lemma_known_channels(right);
    vstd::set_lib::lemma_set_disjoint_lens(l.intersect(r), l.difference(r));
    assert(l.intersect(r) + l.difference(r) =~= l);
    vstd::set_lib::lemma_set_disjoint_lens(l.intersect(r), r.difference(l));
    assert(l.intersect(r) + r.difference(l) =~= r);
}

proof fn lemma_overlap_mirrors(
    left: Map<u64, ChannelLiquidityDiagnostic>,
    right: Map<u64, ChannelLiquidityDiagnostic>,
    measure: Measure,
    outcome: Comparison,
)
    ensures
        overlap_by(right, left, measure, outcome) == overlap_by(
            left,
            right,
            measure,
            outcome.reversed(),
        ),
{
    assert forall|scid: u64| #[trigger]
        overlap_by(right, left, measure, outcome).contains(scid) == overlap_by(
            left,
            right,
            measure,
            outcome.reversed(),
        ).contains(scid) by {
        diagnostic::comparing_reverses(left[scid], right[scid]);
    }
    assert(overlap_by(right, left, measure, outcome) =~= overlap_by(
        left,
        right,
        measure,
        outcome.reversed(),
    ));
}

proof fn lemma_counts_mirror(
    left: Map<u64, ChannelLiquidityDiagnostic>,
    right: Map<u64, ChannelLiquidityDiagnostic>,
    measure: Measure,
)
    ensures
        overlap_by(right, left, measure, Comparison::Greater).len() == overlap_by(
            left,
            right,
            measure,
            Comparison::Less,
        ).len(),
        overlap_by(right, left, measure, Comparison::Less).len() == overlap_by(
            left,
            right,
            measure,
            Comparison::Greater,
        ).len(),
        overlap_by(right, left, measure, Comparison::Equal).len() == overlap_by(
            left,
            right,
            measure,
            Comparison::Equal,
        ).len(),
{
    lemma_overlap_mirrors(left, right, measure, Comparison::Greater);
    lemma_overlap_mirrors(left, right, measure, Comparison::Less);
    lemma_overlap_mirrors(left, right, measure, Comparison::Equal);
}

/// A comparison the other way round is the same with left and right exchanged, in the counts and
/// in the figures of the files.
pub proof fn comparing_the_other_way_round_mirrors(
    report: CompareReport,
    mirrored: CompareReport,
    left: ScoreFile,
    right: ScoreFile,
)
    requires
        report.compares(left, right),
        mirrored.compares(right, left),
    ensures
        summary::agree(mirrored.left, report.right),
        summary::agree(mirrored.right, report.left),
        mirrored.overlap_count == report.overlap_count,
        mirrored.left_only_count == report.right_only_count,
        mirrored.right_only_count == report.left_only_count,
        mirrored.left_richer_overlap_count == report.right_richer_overlap_count,
        mirrored.right_richer_overlap_count == report.left_richer_overlap_count,
        mirrored.equal_richness_overlap_count == report.equal_richness_overlap_count,
        mirrored.left_newer_overlap_count == report.right_newer_overlap_count,
        mirrored.right_newer_overlap_count == report.left_newer_overlap_count,
        mirrored.equal_datapoint_time_overlap_count == report.equal_datapoint_time_overlap_count,
{
    let l = by_scid(left.diagnostics@);
    let r = by_scid(right.diagnostics@);
    assert(summary::agree(mirrored.left, report.right)) by {
        summary::summaries_of_the_same_agree(
            mirrored.left,
            report.right,
            right.label@,
            right.file_size_bytes,
            right.diagnostics@,
        );
    }
    assert(summary::agree(mirrored.right, report.left)) by {
        summary::summaries_of_the_same_agree(
            mirrored.right,
            report.left,
            left.label@,
            left.file_size_bytes,
            left.diagnostics@,
        );
    }
    assert(overlap(r, l).len() == overlap(l, r).len()) by {
        assert(overlap(r, l) =~= overlap(l, r));
    }
    lemma_counts_mirror(l, r, Measure::Richness);
    lemma_counts_mirror(l, r, Measure::Recency);
}

proof fn lemma_nothing_differs_from_itself(
    m: Map<u64, ChannelLiquidityDiagnostic>,
    measure: Measure,
)
    ensures
        overlap_by(m, m, measure, Comparison::Greater).len() == 0,
        overlap_by(m, m, measure, Comparison::Less).len() == 0,
        overlap_by(m, m, measure, Comparison::Equal) == overlap(m, m),
{
    assert(overlap_by(m, m, measure, Comparison::Greater) =~= Set::empty());
    assert(overlap_by(m, m, measure, Comparison::Less) =~= Set::empty());
    assert(overlap_by(m, m, measure, Comparison::Equal) =~= overlap(m, m));
}

/// A file that is compared with itself shares every channel, neither side is richer or newer, and
/// both have the same figures.
pub proof fn a_file_equals_itself(report: CompareReport, file: ScoreFile)
    requires
        report.compares(file, file),
    ensures
        summary::agree(report.left, report.right),
        report.left_only_count == 0,
        report.right_only_count == 0,
        report.left_richer_overlap_count == 0,
        report.right_richer_overlap_count == 0,
        report.equal_richness_overlap_count == report.overlap_count,
        report.left_newer_overlap_count == 0,
        report.right_newer_overlap_count == 0,
        report.equal_datapoint_time_overlap_count == report.overlap_count,
{
    let m = by_scid(file.diagnostics@);
    summary::summaries_of_the_same_agree(
        report.left,
        report.right,
        file.label@,
        file.file_size_bytes,
        file.diagnostics@,
    );
    assert(m.dom().difference(m.dom()) =~= Set::empty());
    lemma_nothing_differs_from_itself(m, Measure::Richness);
    lemma_nothing_differs_from_itself(m, Measure::Recency);
}

/// Whether no later entry is for the same channel.
pub open spec fn is_last_of_its_channel(
    diagnostics: Seq<ChannelLiquidityDiagnostic>,
    i: int,
) -> bool {
    &&& 0 <= i < diagnostics.len()
    &&& forall|k: int|
        i < k < diagnostics.len() ==> (#[trigger] diagnostics[k]).scid != diagnostics[i].scid
}

/// Whether the last entries of two files for the same channel stand in a relation.
pub open spec fn shared_so(
    left: Seq<ChannelLiquidityDiagnostic>,
    right: Seq<ChannelLiquidityDiagnostic>,
    so: spec_fn(ChannelLiquidityDiagnostic, ChannelLiquidityDiagnostic) -> bool,
    scid: u64,
) -> bool {
    exists|i: int, j: int|
        {
            &&& #[trigger] is_last_of_its_channel(left, i)
            &&& #[trigger] is_last_of_its_channel(right, j)
            &&& left[i].scid == scid
            &&& right[j].scid == scid
            &&& so(left[i], right[j])
        }
}

/// Whether a file has an entry for a channel.
pub open spec fn knows(diagnostics: Seq<ChannelLiquidityDiagnostic>, scid: u64) -> bool {
    exists|i: int| 0 <= i < diagnostics.len() && (#[trigger] diagnostics[i]).scid == scid
}

/// Whether an entry is the later one: by its last datapoint, then by its last update, then by the
/// last update of its history.
pub open spec fn is_later(
    one: ChannelLiquidityDiagnostic,
    other: ChannelLiquidityDiagnostic,
) -> bool {
    ||| one.last_datapoint_time_secs > other.last_datapoint_time_secs
    ||| one.last_datapoint_time_secs == other.last_datapoint_time_secs && one.last_updated_secs
        > other.last_updated_secs
    ||| one.last_datapoint_time_secs == other.last_datapoint_time_secs && one.last_updated_secs
        == other.last_updated_secs && one.offset_history_last_updated_secs
        > other.offset_history_last_updated_secs
}

/// Of several entries for a channel the last one counts.
pub proof fn the_last_entry_of_a_channel_counts(
    diagnostics: Seq<ChannelLiquidityDiagnostic>,
    i: int,
)
    requires
        is_last_of_its_channel(diagnostics, i),
    ensures
        by_scid(diagnostics).contains_key(diagnostics[i].scid),
        by_scid(diagnostics)[diagnostics[i].scid] == diagnostics[i],
    decreases diagnostics.len(),
{
    let init = diagnostics.drop_last();
    if i < init.len() {
        assert(diagnostics[diagnostics.len() - 1].scid != diagnostics[i].scid);
        assert forall|k: int| i < k < init.len() implies (#[trigger] init[k]).scid
            != init[i].scid by {
            assert(diagnostics[k].scid != diagnostics[i].scid);
        }
        the_last_entry_of_a_channel_counts(init, i);
    }
}

proof fn lemma_known_has_a_last(diagnostics: Seq<ChannelLiquidityDiagnostic>, scid: u64) -> (i: int)
    requires
        by_scid(diagnostics).dom().contains(scid),
    ensures
        is_last_of_its_channel(diagnostics, i),
        diagnostics[i].scid == scid,
    decreases diagnostics.len(),
{
    if diagnostics.last().scid == scid {
        diagnostics.len() - 1
    } else {
        let init = diagnostics.drop_last();
        let i = lemma_known_has_a_last(init, scid);
        assert forall|k: int| i < k < diagnostics.len() implies (#[trigger] diagnostics[k]).scid
            != diagnostics[i].scid by {
            if k < init.len() {
                assert(init[k].scid != init[i].scid);
            }
        }
        i
    }
}

proof fn lemma_shared_so(
    left: Seq<ChannelLiquidityDiagnostic>,
    right: Seq<ChannelLiquidityDiagnostic>,
    so: spec_fn(ChannelLiquidityDiagnostic, ChannelLiquidityDiagnostic) -> bool,
    scid: u64,
)
    ensures
        shared_so(left, right, so, scid) <==> {
            &&& overlap(by_scid(left), by_scid(right)).contains(scid)
            &&& so(by_scid(left)[scid], by_scid(right)[scid])
        },
{
    if shared_so(left, right, so, scid) {
        let (i, j) = choose|i: int, j: int|
            {
                &&& #[trigger] is_last_of_its_channel(left, i)
                &&& #[trigger] is_last_of_its_channel(right, j)
                &&& left[i].scid == scid
                &&& right[j].scid == scid
                &&& so(left[i], right[j])
            };
        the_last_entry_of_a_channel_counts(left, i);
        the_last_entry_of_a_channel_counts(right, j);
    }
    if overlap(by_scid(left), by_scid(right)).contains(scid) && so(
        by_scid(left)[scid],
        by_scid(right)[scid],
    ) {
        let i = lemma_known_has_a_last(left, scid);
        let j = lemma_known_has_a_last(right, scid);
        the_last_entry_of_a_channel_counts(left, i);
        the_last_entry_of_a_channel_counts(right, j);
        assert(is_last_of_its_channel(left, i) && is_last_of_its_channel(right, j));
    }
}

proof fn lemma_overlap_so(
    left: Seq<ChannelLiquidityDiagnostic>,
    right: Seq<ChannelLiquidityDiagnostic>,
    measure: Measure,
    outcome: Comparison,
    so: spec_fn(ChannelLiquidityDiagnostic, ChannelLiquidityDiagnostic) -> bool,
)
    requires
        forall|a: ChannelLiquidityDiagnostic, b: ChannelLiquidityDiagnostic| #[trigger]
            so(a, b) == (measure.outcome(a, b) == outcome),
    ensures
        overlap_by(by_scid(left), by_scid(right), measure, outcome) == Set::new(
            |scid: u64| shared_so(left, right, so, scid),
        ),
{
    let l = by_scid(left);
    let r = by_scid(right);
    let all = Set::new(|scid: u64| shared_so(left, right, so, scid));
    assert forall|scid: u64| #[trigger]
        overlap_by(l, r, measure, outcome).contains(scid) == all.contains(scid) by {
        lemma_shared_so(left, right, so, scid);
        assert(so(l[scid], r[scid]) == (measure.outcome(l[scid], r[scid]) == outcome));
    }
    assert(overlap_by(l, r, measure, outcome) =~= all);
}

/// What the counts of a comparison count: the channels that both files have an entry for, and
/// those that only one has.
pub proof fn counts_are_of_known_channels(
    report: CompareReport,
    left: ScoreFile,
    right: ScoreFile,
)
    requires
        report.compares(left, right),
    ensures
        report.overlap_count == Set::new(
            |scid: u64| knows(left.diagnostics@, scid) && knows(right.diagnostics@, scid),
        ).len(),
        report.left_only_count == Set::new(
            |scid: u64| knows(left.diagnostics@, scid) && !knows(right.diagnostics@, scid),
        ).len(),
        report.right_only_count == Set::new(
            |scid: u64| knows(right.diagnostics@, scid) && !knows(left.diagnostics@, scid),
        ).len(),
{
    let l = by_scid(left.diagnostics@);
    let r = by_scid(right.diagnostics@);
    lemma_known_channels(left.diagnostics@);
    lemma_known_channels(right.diagnostics@);
    assert(overlap(l, r) =~= Set::new(
        |scid: u64| knows(left.diagnostics@, scid) && knows(right.diagnostics@, scid),
    ));
    assert(l.dom().difference(r.dom()) =~= Set::new(
        |scid: u64| knows(left.diagnostics@, scid) && !knows(right.diagnostics@, scid),
    ));
    assert(r.dom().difference(l.dom()) =~= Set::new(
        |scid: u64| knows(right.diagnostics@, scid) && !knows(left.diagnostics@, scid),
    ));
}

/// A shared channel counts as newer on the side whose last entry is the later one, and as equal
/// where neither is.
pub proof fn the_later_side_is_newer(report: CompareReport, left: ScoreFile, right: ScoreFile)
    requires
        report.compares(left, right),
    ensures
        report.left_newer_overlap_count == Set::new(
            |scid: u64|
                shared_so(
                    left.diagnostics@,
                    right.diagnostics@,
                    |a: ChannelLiquidityDiagnostic, b: ChannelLiquidityDiagnostic| is_later(a, b),
                    scid,
                ),
        ).len(),
        report.right_newer_overlap_count == Set::new(
            |scid: u64|
                shared_so(
                    left.diagnostics@,
                    right.diagnostics@,
                    |a: ChannelLiquidityDiagnostic, b: ChannelLiquidityDiagnostic| is_later(b, a),
                    scid,
                ),
        ).len(),
        report.equal_datapoint_time_overlap_count == Set::new(
            |scid: u64|
                shared_so(
                    left.diagnostics@,
                    right.diagnostics@,
                    |a: ChannelLiquidityDiagnostic, b: ChannelLiquidityDiagnostic|
                        !is_later(a, b) && !is_later(b, a),
                    scid,
                ),
        ).len(),
{
    let l = left.diagnostics@;
    let r = right.diagnostics@;
    lemma_overlap_so(
        l,
        r,
        Measure::Recency,
        Comparison::Greater,
        |a: ChannelLiquidityDiagnostic, b: ChannelLiquidityDiagnostic| is_later(a, b),
    );
    lemma_overlap_so(
        l,
        r,
        Measure::Recency,
        Comparison::Less,
        |a: ChannelLiquidityDiagnostic, b: ChannelLiquidityDiagnostic| is_later(b, a),
    );
    lemma_overlap_so(
        l,
        r,
        Measure::Recency,
        Comparison::Equal,
        |a: ChannelLiquidityDiagnostic, b: ChannelLiquidityDiagnostic|
            !is_later(a, b) && !is_later(b, a),
    );
}

/// A shared channel counts as richer on the side whose last entry is richer than that of the other
/// side, and as equal where neither is.
pub proof fn the_stronger_side_is_richer(report: CompareReport, left: ScoreFile, right: ScoreFile)
    requires
        report.compares(left, right),
    ensures
        report.left_richer_overlap_count == Set::new(
            |scid: u64|
                shared_so(
                    left.diagnostics@,
                    right.diagnostics@,
                    |a: ChannelLiquidityDiagnostic, b: ChannelLiquidityDiagnostic|
                        diagnostic::richness(a, b) == Comparison::Greater,
                    scid,
                ),
        ).len(),
        report.right_richer_overlap_count == Set::new(
            |scid: u64|
                shared_so(
                    left.diagnostics@,
                    right.diagnostics@,
                    |a: ChannelLiquidityDiagnostic, b: ChannelLiquidityDiagnostic|
                        diagnostic::richness(b, a) == Comparison::Greater,
                    scid,
                ),
        ).len(),
        report.equal_richness_overlap_count == Set::new(
            |scid: u64|
                shared_so(
                    left.diagnostics@,
                    right.diagnostics@,
                    |a: ChannelLiquidityDiagnostic, b: ChannelLiquidityDiagnostic|
                        diagnostic::richness(a, b) == Comparison::Equal,
                    scid,
                ),
        ).len(),
{
    let l = left.diagnostics@;
    let r = right.diagnostics@;
    lemma_overlap_so(
        l,
        r,
        Measure::Richness,
        Comparison::Greater,
        |a: ChannelLiquidityDiagnostic, b: ChannelLiquidityDiagnostic|
            diagnostic::richness(a, b) == Comparison::Greater,
    );
    let right_richer = |a: ChannelLiquidityDiagnostic, b: ChannelLiquidityDiagnostic|
        diagnostic::richness(b, a) == Comparison::Greater;
    assert forall|a: ChannelLiquidityDiagnostic, b: ChannelLiquidityDiagnostic| #[trigger]
        right_richer(a, b) == (Measure::Richness.outcome(a, b) == Comparison::Less) by {
        diagnostic::comparing_reverses(a, b);
    }
    lemma_overlap_so(l, r, Measure::Richness, Comparison::Less, right_richer);
    lemma_overlap_so(
        l,
        r,
        Measure::Richness,
        Comparison::Equal,
        |a: ChannelLiquidityDiagnostic, b: ChannelLiquidityDiagnostic|
            diagnostic::richness(a, b) == Comparison::Equal,
    );
}

/// Where two files share just one channel, the side with the later datapoint counts as newer, and
/// the side with the richer entry as richer.
pub proof fn a_single_shared_channel_decides(
    report: CompareReport,
    left: ScoreFile,
    right: ScoreFile,
    i: int,
    j: int,
)
    requires
        report.compares(left, right),
        is_last_of_its_channel(left.diagnostics@, i),
        is_last_of_its_channel(right.diagnostics@, j),
        left.diagnostics@[i].scid == right.diagnostics@[j].scid,
        forall|scid: u64| #[trigger]
            knows(left.diagnostics@, scid) && knows(right.diagnostics@, scid) ==> scid
                == left.diagnostics@[i].scid,
    ensures
        report.overlap_count == 1,
        left.diagnostics@[i].last_datapoint_time_secs
            > right.diagnostics@[j].last_datapoint_time_secs ==> report.left_newer_overlap_count
            == 1 && report.right_newer_overlap_count == 0
            && report.equal_datapoint_time_overlap_count == 0,
        left.diagnostics@[i].last_datapoint_time_secs
            < right.diagnostics@[j].last_datapoint_time_secs ==> report.right_newer_overlap_count
            == 1 && report.left_newer_overlap_count == 0
            && report.equal_datapoint_time_overlap_count == 0,
        diagnostic::richness(left.diagnostics@[i], right.diagnostics@[j]) == Comparison::Greater
            ==> report.left_richer_overlap_count == 1 && report.right_richer_overlap_count == 0
            && report.equal_richness_overlap_count == 0,
        diagnostic::richness(left.diagnostics@[i], right.diagnostics@[j]) == Comparison::Less
            ==> report.right_richer_overlap_count == 1 && report.left_richer_overlap_count == 0
            && report.equal_richness_overlap_count == 0,
{
    let l = by_scid(left.diagnostics@);
    let r = by_scid(right.diagnostics@);
    let scid = left.diagnostics@[i].scid;
    the_last_entry_of_a_channel_counts(left.diagnostics@, i);
    the_last_entry_of_a_channel_counts(right.diagnostics@, j);
    lemma_known_channels(left.diagnostics@);
    lemma_known_channels(right.diagnostics@);
    let both = overlap(l, r);
    assert forall|x: u64| #[trigger] both.contains(x) implies x == scid by {
        assert(knows(left.diagnostics@, x) && knows(right.diagnostics@, x));
    }
    assert(both =~= set![scid]);
    assert forall|measure: Measure, outcome: Comparison| #[trigger]
        overlap_by(l, r, measure, outcome).len() == if measure.outcome(l[scid], r[scid])
            == outcome {
            1nat
        } else {
            0
        } by {
        if measure.outcome(l[scid], r[scid]) == outcome {
            assert(overlap_by(l, r, measure, outcome) =~= set![scid]);
        } else {
            assert(overlap_by(l, r, measure, outcome) =~= Set::empty());
        }
    }
}

/// The row of a comparison says what its report says.
pub proof fn csv_rows_say_what_reports_say(report: &CompareReport, row: CompareCsvRow)
    requires
        call_ensures(<CompareCsvRow as From<&CompareReport>>::from, (report,), row),
    ensures
        row.left_label == report.left.label,
        row.right_label == report.right.label,
        row.left_entry_count == report.left.entry_count,
        row.right_entry_count == report.right.entry_count,
        row.overlap_count == report.overlap_count,
        row.left_only_count == report.left_only_count,
        row.right_only_count == report.right_only_count,
        row.left_richer_overlap_count == report.left_richer_overlap_count,
        row.right_richer_overlap_count == report.right_richer_overlap_count,
        row.equal_richness_overlap_count == report.equal_richness_overlap_count,
        row.left_newer_overlap_count == report.left_newer_overlap_count,
        row.right_newer_overlap_count == report.right_newer_overlap_count,
        row.equal_datapoint_time_overlap_count == report.equal_datapoint_time_overlap_count,
{
}

/// The text of a comparison starts with its heading and gives every count in a line of its own,
/// behind the words for it.
pub proof fn the_text_gives_every_count(report: CompareReport)
    ensures
        report.text().take("scorer-kit compare\n"@.len() as int) == "scorer-kit compare\n"@,
        text::holds(
            report.text(),
            "  left:                   "@ + report.left.label@ + "\n  right:                  "@,
        ),
        text::holds(
            report.text(),
            "\n  right:                  "@ + report.right.label@ + "\n  left entries:           "@,
        ),
        text::holds(
            report.text(),
            "\n  left entries:           "@ + text::decimal(report.left.entry_count as nat) + "\n  right entries:          "@,
        ),
        text::holds(
            report.text(),
            "\n  right entries:          "@ + text::decimal(report.right.entry_count as nat) + "\n  overlap:                "@,
        ),
        text::holds(
            report.text(),
            "\n  overlap:                "@ + text::decimal(report.overlap_count as nat) + "\n  left only:              "@,
        ),
        text::holds(
            report.text(),
            "\n  left only:              "@ + text::decimal(report.left_only_count as nat) + "\n  right only:             "@,
        ),
        text::holds(
            report.text(),
            "\n  right only:             "@ + text::decimal(report.right_only_count as nat) + "\n\n  richer history left:    "@,
        ),
        text::holds(
            report.text(),
            "\n\n  richer history left:    "@ + text::decimal(report.left_richer_overlap_count as nat) + "\n  richer history right:   "@,
        ),
        text::holds(
            report.text(),
            "\n  richer history right:   "@ + text::decimal(report.right_richer_overlap_count as nat) + "\n  equal history richness: "@,
        ),
        text::holds(
            report.text(),
            "\n  equal history richness: "@ + text::decimal(report.equal_richness_overlap_count as nat) + "\n\n  newer datapoint left:   "@,
        ),
        text::holds(
            report.text(),
            "\n\n  newer datapoint left:   "@ + text::decimal(report.left_newer_overlap_count as nat) + "\n  newer datapoint right:  "@,
        ),
        text::holds(
            report.text(),
            "\n  newer datapoint right:  "@ + text::decimal(report.right_newer_overlap_count as nat) + "\n  equal datapoint time:   "@,
        ),
        text::holds(
            report.text(),
            "\n  equal datapoint time:   "@ + text::decimal(report.equal_datapoint_time_overlap_count as nat) + "\n"@,
        ),
{
    let pieces = seq![
        "scorer-kit compare\n"@,
        "  left:                   "@,
        report.left.label@,
        "\n  right:                  "@,
        report.right.label@,
        "\n  left entries:           "@,
        text::decimal(report.left.entry_count as nat),
        "\n  right entries:          "@,
        text::decimal(report.right.entry_count as nat),
        "\n  overlap:                "@,
        text::decimal(report.overlap_count as nat),
        "\n  left only:              "@,
        text::decimal(report.left_only_count as nat),
        "\n  right only:             "@,
        text::decimal(report.right_only_count as nat),
        "\n\n  richer history left:    "@,
        text::decimal(report.left_richer_overlap_count as nat),
        "\n  richer history right:   "@,
        text::decimal(report.right_richer_overlap_count as nat),
        "\n  equal history richness: "@,
        text::decimal(report.equal_richness_overlap_count as nat),
        "\n\n  newer datapoint left:   "@,
        text::decimal(report.left_newer_overlap_count as nat),
        "\n  newer datapoint right:  "@,
        text::decimal(report.right_newer_overlap_count as nat),
        "\n  equal datapoint time:   "@,
        text::decimal(report.equal_datapoint_time_overlap_count as nat),
        "\n"@,
    ];
    assert(report.text() =~= text::joined(pieces)) by {
        reveal_with_fuel(text::joined, 29);
    }
    assert(report.text().take("scorer-kit compare\n"@.len() as int) =~= "scorer-kit compare\n"@);
    text::lemma_joined_holds(pieces, 1);
    text::lemma_joined_holds(pieces, 3);
    text::lemma_joined_holds(pieces, 5);
    text::lemma_joined_holds(pieces, 7);
    text::lemma_joined_holds(pieces, 9);
    text::lemma_joined_holds(pieces, 11);
    text::lemma_joined_holds(pieces, 13);
    text::lemma_joined_holds(pieces, 15);
    text::lemma_joined_holds(pieces, 17);
    text::lemma_joined_holds(pieces, 19);
    text::lemma_joined_holds(pieces, 21);
    text::lemma_joined_holds(pieces, 23);
    text::lemma_joined_holds(pieces, 25);
}

/// Each side of a comparison is summarized on its own side.
pub proof fn each_side_is_summarized(report: CompareReport, left: ScoreFile, right: ScoreFile)
    requires
        report.compares(left, right),
    ensures
        summary::summarizes(
            report.left,
            left.label@,
            left.file_size_bytes,
            left.diagnostics@,
        ),
        summary::summarizes(
            report.right,
            right.label@,
            right.file_size_bytes,
            right.diagnostics@,
        ),
        report.left.label@ == left.label@,
        report.right.label@ == right.label@,
        report.left.entry_count == left.diagnostics@.len(),
        report.right.entry_count == right.diagnostics@.len(),
{
}

} // verus!
