//! Merging scorer files: what becomes of a channel that several files know.
use crate::diagnostic;
use crate::diagnostic::{
    compare_history_richness, history_bucket_sum, max_diagnostic_timestamp,
    ChannelLiquidityDiagnostic,
};
use crate::label;
use crate::label::default_label;
use crate::order::Comparison;
use crate::overlay;
use crate::overlay::OverlayFilterReport;
use crate::score_file::ScoreFile;
use crate::size;
use crate::summary;
use crate::summary::{build_summary, Summary};
use crate::text;
use crate::weight::Weight;
use std::collections::BTreeSet;
use vstd::prelude::*;
use vstd::string::StringExecFns;

verus! {

/// What decides over a short-channel-id that is in both files.
#[derive(Clone, Copy, Debug, PartialEq, Eq, Structural)]
pub enum MergePolicy {
    /// Keep the existing entry.
    PreferFirst,
    /// Replace the existing entry.
    PreferLast,
    /// Combine the two entries.
    Combine,
    /// Prefer the entry with richer historical signal. Ties keep the existing entry.
    RicherHistory,
    /// Prefer the entry with the newer datapoint. Where the last datapoints are of the same time,
    /// the existing entry stays.
    Newer,
}

/// What becomes of two entries for the same channel.
#[derive(Clone, Copy, Debug, PartialEq, Eq, Structural)]
pub enum ChannelLiquidityMergeAction {
    KeepExisting,
    ReplaceWithOther,
    Combine,
}

impl MergePolicy {
    /// The name of a policy.
    pub open spec fn name(self) -> Seq<char> {
        match self {
            MergePolicy::PreferFirst => "prefer-first"@,
            MergePolicy::PreferLast => "prefer-last"@,
            MergePolicy::Combine => "combine"@,
            MergePolicy::RicherHistory => "richer-history"@,
            MergePolicy::Newer => "newer"@,
        }
    }

    /// Names a policy.
    pub fn as_str(self) -> (r: &'static str)
        ensures
            r@ == self.name(),
    {
        match self {
            MergePolicy::PreferFirst => "prefer-first",
            MergePolicy::PreferLast => "prefer-last",
            MergePolicy::Combine => "combine",
            MergePolicy::RicherHistory => "richer-history",
            MergePolicy::Newer => "newer",
        }
    }
}

/// The name of an action.
pub open spec fn action_name(action: ChannelLiquidityMergeAction) -> Seq<char> {
    match action {
        ChannelLiquidityMergeAction::KeepExisting => "keep-existing"@,
        ChannelLiquidityMergeAction::ReplaceWithOther => "replace-with-incoming"@,
        ChannelLiquidityMergeAction::Combine => "combine"@,
    }
}

/// Names an action.
pub fn merge_action_name(action: ChannelLiquidityMergeAction) -> (r: &'static str)
    ensures
        r@ == action_name(action),
{
    match action {
        ChannelLiquidityMergeAction::KeepExisting => "keep-existing",
        ChannelLiquidityMergeAction::ReplaceWithOther => "replace-with-incoming",
        ChannelLiquidityMergeAction::Combine => "combine",
    }
}

/// What a policy does with an existing entry and another one for the same channel.
pub open spec fn chosen_action(
    policy: MergePolicy,
    existing: ChannelLiquidityDiagnostic,
    other: ChannelLiquidityDiagnostic,
) -> ChannelLiquidityMergeAction {
    match policy {
        MergePolicy::PreferFirst => ChannelLiquidityMergeAction::KeepExisting,
        MergePolicy::PreferLast => ChannelLiquidityMergeAction::ReplaceWithOther,
        MergePolicy::Combine => ChannelLiquidityMergeAction::Combine,
        MergePolicy::RicherHistory => if diagnostic::richness(other, existing)
            == Comparison::Greater {
            ChannelLiquidityMergeAction::ReplaceWithOther
        } else {
            ChannelLiquidityMergeAction::KeepExisting
        },
        MergePolicy::Newer => if other.last_datapoint_time_secs
            > existing.last_datapoint_time_secs {
            ChannelLiquidityMergeAction::ReplaceWithOther
        } else {
            ChannelLiquidityMergeAction::KeepExisting
        },
    }
}

/// Why a policy does so.
pub open spec fn chosen_reason(
    policy: MergePolicy,
    existing: ChannelLiquidityDiagnostic,
    other: ChannelLiquidityDiagnostic,
) -> Seq<char> {
    match policy {
        MergePolicy::PreferFirst => "prefer-first policy"@,
        MergePolicy::PreferLast => "prefer-last policy"@,
        MergePolicy::Combine => "combine policy"@,
        MergePolicy::RicherHistory => match diagnostic::richness(other, existing) {
            Comparison::Greater => "incoming has richer historical signal"@,
            Comparison::Less => "existing has richer historical signal"@,
            Comparison::Equal => "equal historical signal; keeping existing"@,
        },
        MergePolicy::Newer => match Comparison::of(
            other.last_datapoint_time_secs as int,
            existing.last_datapoint_time_secs as int,
        ) {
            Comparison::Greater => "incoming has newer datapoint"@,
            Comparison::Less => "existing has newer datapoint"@,
            Comparison::Equal => "equal datapoint time; keeping existing"@,
        },
    }
}

/// Decides over an existing entry and another one for the same channel.
pub fn choose_merge_action(
    policy: MergePolicy,
    existing: &ChannelLiquidityDiagnostic,
    other: &ChannelLiquidityDiagnostic,
) -> (r: (ChannelLiquidityMergeAction, String))
    ensures
        r.0 == chosen_action(policy, *existing, *other),
        r.1@ == chosen_reason(policy, *existing, *other),
{
    match policy {
        MergePolicy::PreferFirst => (
            ChannelLiquidityMergeAction::KeepExisting,
            String::from_str("prefer-first policy"),
        ),
        MergePolicy::PreferLast => (
            ChannelLiquidityMergeAction::ReplaceWithOther,
            String::from_str("prefer-last policy"),
        ),
        MergePolicy::Combine => (
            ChannelLiquidityMergeAction::Combine,
            String::from_str("combine policy"),
        ),
        MergePolicy::RicherHistory => match compare_history_richness(other, existing) {
            Comparison::Greater => (
                ChannelLiquidityMergeAction::ReplaceWithOther,
                String::from_str("incoming has richer historical signal"),
            ),
            Comparison::Less => (
                ChannelLiquidityMergeAction::KeepExisting,
                String::from_str("existing has richer historical signal"),
            ),
            Comparison::Equal => (
                ChannelLiquidityMergeAction::KeepExisting,
                String::from_str("equal historical signal; keeping existing"),
            ),
        },
        MergePolicy::Newer => match Comparison::of_numbers(
            other.last_datapoint_time_secs,
            existing.last_datapoint_time_secs,
        ) {
            Comparison::Greater => (
                ChannelLiquidityMergeAction::ReplaceWithOther,
                String::from_str("incoming has newer datapoint"),
            ),
            Comparison::Less => (
                ChannelLiquidityMergeAction::KeepExisting,
                String::from_str("existing has newer datapoint"),
            ),
            Comparison::Equal => (
                ChannelLiquidityMergeAction::KeepExisting,
                String::from_str("equal datapoint time; keeping existing"),
            ),
        },
    }
}

/// The entry that stays where one of the two does.
pub open spec fn survivor(
    policy: MergePolicy,
    existing: ChannelLiquidityDiagnostic,
    other: ChannelLiquidityDiagnostic,
) -> ChannelLiquidityDiagnostic {
    if chosen_action(policy, existing, other) == ChannelLiquidityMergeAction::ReplaceWithOther {
        other
    } else {
        existing
    }
}

/// Of two entries the richer-history policy keeps one whose historical signal is at least as
/// strong as that of the other. It replaces the existing entry only with a richer one.
pub proof fn richer_history_keeps_the_stronger_signal(
    existing: ChannelLiquidityDiagnostic,
    other: ChannelLiquidityDiagnostic,
)
    ensures
        ({
            let stays = survivor(MergePolicy::RicherHistory, existing, other);
            &&& diagnostic::richness(stays, existing) != Comparison::Less
            &&& diagnostic::richness(stays, other) != Comparison::Less
            &&& stays == existing || diagnostic::richness(other, existing) == Comparison::Greater
            &&& chosen_action(MergePolicy::RicherHistory, existing, other)
                != ChannelLiquidityMergeAction::Combine
        }),
{
    diagnostic::comparing_reverses(existing, other);
}

/// Of two entries the newer policy keeps one whose datapoint is at least as new as that of the
/// other. It replaces the existing entry only with one that has a newer datapoint.
pub proof fn newer_keeps_the_latest_datapoint(
    existing: ChannelLiquidityDiagnostic,
    other: ChannelLiquidityDiagnostic,
)
    ensures
        ({
            let stays = survivor(MergePolicy::Newer, existing, other);
            &&& stays.last_datapoint_time_secs >= existing.last_datapoint_time_secs
            &&& stays.last_datapoint_time_secs >= other.last_datapoint_time_secs
            &&& stays == existing || other.last_datapoint_time_secs
                > existing.last_datapoint_time_secs
            &&& chosen_action(MergePolicy::Newer, existing, other)
                != ChannelLiquidityMergeAction::Combine
        }),
{
}

/// Where entries tie, by historical signal for the richer-history policy and by the time of the
/// last datapoint for the newer policy, the existing one stays.
pub proof fn ties_keep_the_existing_entry(
    existing: ChannelLiquidityDiagnostic,
    other: ChannelLiquidityDiagnostic,
)
    ensures
        diagnostic::richness(existing, other) == Comparison::Equal ==> chosen_action(
            MergePolicy::RicherHistory,
            existing,
            other,
        ) == ChannelLiquidityMergeAction::KeepExisting,
        existing.last_datapoint_time_secs == other.last_datapoint_time_secs ==> chosen_action(
            MergePolicy::Newer,
            existing,
            other,
        ) == ChannelLiquidityMergeAction::KeepExisting,
{
    diagnostic::comparing_reverses(existing, other);
}

/// Where entries do not tie, it makes no difference to the richer-history and the newer policies
/// which of the two is the existing one: the same entry stays.
pub proof fn the_same_entry_stays_either_way(
    one: ChannelLiquidityDiagnostic,
    other: ChannelLiquidityDiagnostic,
)
    ensures
        diagnostic::richness(one, other) != Comparison::Equal ==> survivor(
            MergePolicy::RicherHistory,
            one,
            other,
        ) == survivor(MergePolicy::RicherHistory, other, one),
        one.last_datapoint_time_secs != other.last_datapoint_time_secs ==> survivor(
            MergePolicy::Newer,
            one,
            other,
        ) == survivor(MergePolicy::Newer, other, one),
{
    diagnostic::comparing_reverses(one, other);
}

/// The entry that stays of several for the same channel, where each file in turn meets what
/// stayed of those before it.
pub open spec fn last_survivor(
    policy: MergePolicy,
    entries: Seq<ChannelLiquidityDiagnostic>,
) -> ChannelLiquidityDiagnostic
    recommends
        entries.len() > 0,
    decreases entries.len(),
{
    if entries.len() <= 1 {
        entries[0]
    } else {
        survivor(policy, last_survivor(policy, entries.drop_last()), entries.last())
    }
}

/// Of several entries the richer-history policy keeps one that none is richer than, where every
/// weight is a number.
pub proof fn the_richest_of_several_stays(entries: Seq<ChannelLiquidityDiagnostic>, i: int)
    requires
        0 <= i < entries.len(),
        forall|k: int|
            0 <= k < entries.len() ==> !(
            #[trigger] entries[k]).total_valid_points_tracked.is_nan(),
    ensures
        entries.contains(last_survivor(MergePolicy::RicherHistory, entries)),
        diagnostic::richness(entries[i], last_survivor(MergePolicy::RicherHistory, entries))
            != Comparison::Greater,
    decreases entries.len(),
{
    let stays = last_survivor(MergePolicy::RicherHistory, entries);
    if entries.len() == 1 {
        assert(entries.contains(entries[0]));
    } else {
        let init = entries.drop_last();
        let before = last_survivor(MergePolicy::RicherHistory, init);
        let k = if i < init.len() {
            i
        } else {
            0
        };
        the_richest_of_several_stays(init, k);
        let at = choose|at: int| 0 <= at < init.len() && init[at] == before;
        assert(entries[at] == before);
        assert(entries[entries.len() - 1] == entries.last());
        assert(entries.contains(stays));
        richer_history_keeps_the_stronger_signal(before, entries.last());
        diagnostic::comparing_reverses(before, stays);
        diagnostic::comparing_reverses(entries.last(), stays);
        if i < init.len() {
            diagnostic::richness_is_transitive(entries[i], before, stays);
        }
    }
}

/// Of several entries the newer policy keeps one that none has a newer datapoint than.
pub proof fn the_newest_of_several_stays(entries: Seq<ChannelLiquidityDiagnostic>, i: int)
    requires
        0 <= i < entries.len(),
    ensures
        entries.contains(last_survivor(MergePolicy::Newer, entries)),
        entries[i].last_datapoint_time_secs <= last_survivor(
            MergePolicy::Newer,
            entries,
        ).last_datapoint_time_secs,
    decreases entries.len(),
{
    let stays = last_survivor(MergePolicy::Newer, entries);
    if entries.len() == 1 {
        assert(entries.contains(entries[0]));
    } else {
        let init = entries.drop_last();
        let before = last_survivor(MergePolicy::Newer, init);
        let k = if i < init.len() {
            i
        } else {
            0
        };
        the_newest_of_several_stays(init, k);
        let at = choose|at: int| 0 <= at < init.len() && init[at] == before;
        assert(entries[at] == before);
        assert(entries[entries.len() - 1] == entries.last());
        assert(entries.contains(stays));
        newer_keeps_the_latest_datapoint(before, entries.last());
    }
}

/// How often duplicates were met, and what became of them.
#[derive(Clone, Copy, Debug)]
pub struct MergeStats {
    pub input_count: usize,
    pub duplicate_count: usize,
    pub kept_existing_count: usize,
    pub replaced_with_incoming_count: usize,
    pub combined_count: usize,
}

/// What was decided over one duplicate.
#[derive(Debug)]
pub struct MergeDecision {
    pub scid: u64,
    pub existing_label: String,
    pub incoming_label: String,
    pub action: String,
    pub reason: String,
    pub existing_total_valid_points_tracked: Weight,
    pub incoming_total_valid_points_tracked: Weight,
    pub existing_history_bucket_sum: u64,
    pub incoming_history_bucket_sum: u64,
    pub existing_last_datapoint_time_secs: u64,
    pub incoming_last_datapoint_time_secs: u64,
}

impl MergeDecision {
    /// Whether this is the record of what a policy decides over two entries.
    pub open spec fn records(
        self,
        policy: MergePolicy,
        existing_label: Seq<char>,
        incoming_label: Seq<char>,
        existing: ChannelLiquidityDiagnostic,
        other: ChannelLiquidityDiagnostic,
    ) -> bool {
        &&& self.scid == existing.scid
        &&& self.existing_label@ == existing_label
        &&& self.incoming_label@ == incoming_label
        &&& self.action@ == action_name(chosen_action(policy, existing, other))
        &&& self.reason@ == chosen_reason(policy, existing, other)
        &&& self.existing_total_valid_points_tracked == existing.total_valid_points_tracked
        &&& self.incoming_total_valid_points_tracked == other.total_valid_points_tracked
        &&& self.existing_history_bucket_sum == existing.bucket_sum()
        &&& self.incoming_history_bucket_sum == other.bucket_sum()
        &&& self.existing_last_datapoint_time_secs == existing.last_datapoint_time_secs
        &&& self.incoming_last_datapoint_time_secs == other.last_datapoint_time_secs
    }
}

/// The number of decisions for an action.
pub open spec fn tally(decisions: Seq<MergeDecision>, action: ChannelLiquidityMergeAction) -> nat {
    decisions.filter(|d: MergeDecision| d.action@ == action_name(action)).len()
}

proof fn lemma_tally_push(
    decisions: Seq<MergeDecision>,
    decision: MergeDecision,
    action: ChannelLiquidityMergeAction,
    counted: ChannelLiquidityMergeAction,
)
    requires
        decision.action@ == action_name(action),
    ensures
        tally(decisions.push(decision), counted) == tally(decisions, counted) + if action
            == counted {
            1nat
        } else {
            0
        },
{
    reveal(Seq::filter);
    reveal_strlit("keep-existing");
    reveal_strlit("replace-with-incoming");
    reveal_strlit("combine");
    assert(decisions.push(decision).drop_last() =~= decisions);
    assert(action_name(action) == action_name(counted) ==> action_name(action).len()
        == action_name(counted).len());
}

/// A channel that both the merged scores and an incoming file know.
pub struct Duplicate {
    pub existing_label: Seq<char>,
    pub incoming_label: Seq<char>,
    pub existing: ChannelLiquidityDiagnostic,
    pub other: ChannelLiquidityDiagnostic,
}

/// Whether decisions are those of a policy over duplicates, one for one.
pub open spec fn decide(
    decisions: Seq<MergeDecision>,
    policy: MergePolicy,
    duplicates: Seq<Duplicate>,
) -> bool {
    &&& decisions.len() == duplicates.len()
    &&& forall|i: int|
        0 <= i < decisions.len() ==> (#[trigger] decisions[i]).records(
            policy,
            duplicates[i].existing_label,
            duplicates[i].incoming_label,
            duplicates[i].existing,
            duplicates[i].other,
        )
}

proof fn lemma_same_tally(
    one: Seq<MergeDecision>,
    other: Seq<MergeDecision>,
    action: ChannelLiquidityMergeAction,
)
    requires
        one.len() == other.len(),
        forall|i: int| 0 <= i < one.len() ==> (#[trigger] one[i]).action@ == other[i].action@,
    ensures
        tally(one, action) == tally(other, action),
    decreases one.len(),
{
    reveal(Seq::filter);
    if one.len() > 0 {
        assert forall|i: int| 0 <= i < one.len() - 1 implies (
        #[trigger] one.drop_last()[i]).action@ == other.drop_last()[i].action@ by {
            assert(one[i].action@ == other[i].action@);
        }
        lemma_same_tally(one.drop_last(), other.drop_last(), action);
        assert(one[one.len() - 1].action@ == other[one.len() - 1].action@);
    }
}

/// What a policy decided so far and what it decides over one more duplicate are its decisions over
/// all of these. Beginning from none, a session that records every duplicate that it meets thus
/// holds the decisions of its policy over all of them.
pub proof fn one_more_decision(
    before: Seq<MergeDecision>,
    after: Seq<MergeDecision>,
    policy: MergePolicy,
    duplicates: Seq<Duplicate>,
    next: Duplicate,
)
    requires
        decide(before, policy, duplicates),
        after.len() == before.len() + 1,
        after.drop_last() == before,
        after.last().records(
            policy,
            next.existing_label,
            next.incoming_label,
            next.existing,
            next.other,
        ),
    ensures
        decide(after, policy, duplicates.push(next)),
{
    let all = duplicates.push(next);
    assert forall|i: int| 0 <= i < after.len() implies (#[trigger] after[i]).records(
        policy,
        all[i].existing_label,
        all[i].incoming_label,
        all[i].existing,
        all[i].other,
    ) by {
        if i < before.len() {
            assert(before[i] == after[i]);
        }
    }
}

proof fn lemma_tally_of_one(
    decisions: Seq<MergeDecision>,
    action: ChannelLiquidityMergeAction,
    counted: ChannelLiquidityMergeAction,
)
    requires
        forall|i: int|
            0 <= i < decisions.len() ==> (#[trigger] decisions[i]).action@ == action_name(action),
    ensures
        tally(decisions, counted) == if action == counted {
            decisions.len()
        } else {
            0
        },
    decreases decisions.len(),
{
    if decisions.len() == 0 {
        reveal(Seq::filter);
    } else {
        let init = decisions.drop_last();
        assert forall|i: int| 0 <= i < init.len() implies (#[trigger] init[i]).action@
            == action_name(action) by {
            assert(decisions[i].action@ == action_name(action));
        }
        lemma_tally_of_one(init, action, counted);
        assert(decisions[decisions.len() - 1].action@ == action_name(action));
        lemma_tally_push(init, decisions.last(), action, counted);
        assert(init.push(decisions.last()) =~= decisions);
    }
}

proof fn lemma_tally_of_none(
    decisions: Seq<MergeDecision>,
    policy: MergePolicy,
    duplicates: Seq<Duplicate>,
)
    requires
        decide(decisions, policy, duplicates),
        policy != MergePolicy::Combine,
    ensures
        tally(decisions, ChannelLiquidityMergeAction::Combine) == 0,
    decreases decisions.len(),
{
    if decisions.len() == 0 {
        reveal(Seq::filter);
    } else {
        let init = decisions.drop_last();
        let last = duplicates.last();
        assert forall|i: int| 0 <= i < init.len() implies (#[trigger] init[i]).records(
            policy,
            duplicates.drop_last()[i].existing_label,
            duplicates.drop_last()[i].incoming_label,
            duplicates.drop_last()[i].existing,
            duplicates.drop_last()[i].other,
        ) by {
            assert(decisions[i] == init[i]);
        }
        lemma_tally_of_none(init, policy, duplicates.drop_last());
        assert(decisions[decisions.len() - 1].records(
            policy,
            last.existing_label,
            last.incoming_label,
            last.existing,
            last.other,
        ));
        lemma_tally_push(
            init,
            decisions.last(),
            chosen_action(policy, last.existing, last.other),
            ChannelLiquidityMergeAction::Combine,
        );
        assert(init.push(decisions.last()) =~= decisions);
    }
}

/// How a policy shows in the counts: prefer-first keeps every existing entry, prefer-last replaces
/// every one, combine combines all, and the other policies combine none.
pub proof fn policies_show_in_the_counts(session: MergeSession, duplicates: Seq<Duplicate>)
    requires
        session.wf(),
        decide(session.decisions@, session.policy, duplicates),
    ensures
        session.stats.duplicate_count == duplicates.len(),
        session.policy == MergePolicy::PreferFirst ==> session.stats.kept_existing_count
            == duplicates.len(),
        session.policy == MergePolicy::PreferLast ==> session.stats.replaced_with_incoming_count
            == duplicates.len(),
        session.policy == MergePolicy::Combine ==> session.stats.combined_count
            == duplicates.len(),
        session.policy != MergePolicy::Combine ==> session.stats.combined_count == 0,
{
    let decisions = session.decisions@;
    if session.policy == MergePolicy::PreferFirst {
        let action = ChannelLiquidityMergeAction::KeepExisting;
        lemma_tally_of_one(decisions, action, action);
    } else if session.policy == MergePolicy::PreferLast {
        let action = ChannelLiquidityMergeAction::ReplaceWithOther;
        lemma_tally_of_one(decisions, action, action);
    } else if session.policy == MergePolicy::Combine {
        let action = ChannelLiquidityMergeAction::Combine;
        lemma_tally_of_one(decisions, action, action);
    }
    if session.policy != MergePolicy::Combine {
        lemma_tally_of_none(decisions, session.policy, duplicates);
    }
}

/// The same policy over the same duplicates counts the same.
pub proof fn the_same_duplicates_count_the_same(
    one: MergeSession,
    other: MergeSession,
    duplicates: Seq<Duplicate>,
)
    requires
        one.wf(),
        other.wf(),
        one.policy == other.policy,
        decide(one.decisions@, one.policy, duplicates),
        decide(other.decisions@, other.policy, duplicates),
    ensures
        one.stats.duplicate_count == other.stats.duplicate_count == duplicates.len(),
        one.stats.kept_existing_count == other.stats.kept_existing_count,
        one.stats.replaced_with_incoming_count == other.stats.replaced_with_incoming_count,
        one.stats.combined_count == other.stats.combined_count,
{
    assert forall|i: int| 0 <= i < duplicates.len() implies (
    #[trigger] one.decisions@[i]).action@ == other.decisions@[i].action@ by {
        let d = duplicates[i];
        assert(other.decisions@[i].records(
            other.policy,
            d.existing_label,
            d.incoming_label,
            d.existing,
            d.other,
        ));
    }
    lemma_same_tally(
        one.decisions@,
        other.decisions@,
        ChannelLiquidityMergeAction::KeepExisting,
    );
    lemma_same_tally(
        one.decisions@,
        other.decisions@,
        ChannelLiquidityMergeAction::ReplaceWithOther,
    );
    lemma_same_tally(one.decisions@, other.decisions@, ChannelLiquidityMergeAction::Combine);
}

/// A merge under way: the policy, the decisions so far, and what the merged scores are called.
#[derive(Debug)]
pub struct MergeSession {
    pub policy: MergePolicy,
    pub stats: MergeStats,
    pub decisions: Vec<MergeDecision>,
    pub existing_label: String,
}

impl MergeSession {
    /// Whether the counts are those of the decisions.
    pub open spec fn wf(self) -> bool {
        &&& self.stats.duplicate_count == self.decisions@.len()
        &&& self.stats.kept_existing_count == tally(
            self.decisions@,
            ChannelLiquidityMergeAction::KeepExisting,
        )
        &&& self.stats.replaced_with_incoming_count == tally(
            self.decisions@,
            ChannelLiquidityMergeAction::ReplaceWithOther,
        )
        &&& self.stats.combined_count == tally(
            self.decisions@,
            ChannelLiquidityMergeAction::Combine,
        )
        &&& self.stats.kept_existing_count + self.stats.replaced_with_incoming_count
            + self.stats.combined_count == self.stats.duplicate_count
    }

    /// Starts a merge of several files. The scores of the first one are the existing ones.
    pub fn new(policy: MergePolicy, input_count: usize, baseline_label: &str) -> (r: MergeSession)
        ensures
            r.wf(),
            r.policy == policy,
            r.stats.input_count == input_count,
            r.decisions@ == Seq::<MergeDecision>::empty(),
            r.existing_label@ == baseline_label@,
    {
        proof {
            reveal(Seq::filter);
        }
        MergeSession {
            policy,
            stats: MergeStats {
                input_count,
                duplicate_count: 0,
                kept_existing_count: 0,
                replaced_with_incoming_count: 0,
                combined_count: 0,
            },
            decisions: Vec::new(),
            existing_label: String::from_str(baseline_label),
        }
    }

    /// Decides over a channel that both the merged scores and an incoming file know, and records
    /// the decision.
    pub fn record_decision(
        &mut self,
        incoming_label: &str,
        existing: &ChannelLiquidityDiagnostic,
        other: &ChannelLiquidityDiagnostic,
    ) -> (r: ChannelLiquidityMergeAction)
        requires
            old(self).wf(),
            old(self).decisions@.len() < usize::MAX,
        ensures
            final(self).wf(),
            r == chosen_action(old(self).policy, *existing, *other),
            final(self).policy == old(self).policy,
            final(self).existing_label@ == old(self).existing_label@,
            final(self).stats.input_count == old(self).stats.input_count,
            final(self).decisions@.len() == old(self).decisions@.len() + 1,
            final(self).decisions@.drop_last() == old(self).decisions@,
            final(self).decisions@.last().records(
                old(self).policy,
                old(self).existing_label@,
                incoming_label@,
                *existing,
                *other,
            ),
    {
        let (action, reason) = choose_merge_action(self.policy, existing, other);
        let ghost before = self.decisions@;
        let decision = MergeDecision {
            scid: existing.scid,
            existing_label: self.existing_label.clone(),
            incoming_label: String::from_str(incoming_label),
            action: String::from_str(merge_action_name(action)),
            reason,
            existing_total_valid_points_tracked: existing.total_valid_points_tracked,
            incoming_total_valid_points_tracked: other.total_valid_points_tracked,
            existing_history_bucket_sum: history_bucket_sum(existing),
            incoming_history_bucket_sum: history_bucket_sum(other),
            existing_last_datapoint_time_secs: existing.last_datapoint_time_secs,
            incoming_last_datapoint_time_secs: other.last_datapoint_time_secs,
        };
        proof {
            lemma_tally_push(
                before,
                decision,
                action,
                ChannelLiquidityMergeAction::KeepExisting,
            );
            lemma_tally_push(
                before,
                decision,
                action,
                ChannelLiquidityMergeAction::ReplaceWithOther,
            );
            lemma_tally_push(before, decision, action, ChannelLiquidityMergeAction::Combine);
            assert(before.push(decision).drop_last() =~= before);
        }
        self.stats.duplicate_count = self.stats.duplicate_count + 1;
        match action {
            ChannelLiquidityMergeAction::KeepExisting => {
                self.stats.kept_existing_count = self.stats.kept_existing_count + 1;
            },
            ChannelLiquidityMergeAction::ReplaceWithOther => {
                self.stats.replaced_with_incoming_count = self.stats.replaced_with_incoming_count
                    + 1;
            },
            ChannelLiquidityMergeAction::Combine => {
                self.stats.combined_count = self.stats.combined_count + 1;
            },
        }
        self.decisions.push(decision);
        action
    }

    /// Ends an incoming file: the merged scores are called after it from now on.
    pub fn finish_input(&mut self, incoming_label: &str)
        requires
            old(self).wf(),
        ensures
            final(self).wf(),
            final(self).policy == old(self).policy,
            final(self).stats == old(self).stats,
            final(self).decisions@ == old(self).decisions@,
            final(self).existing_label@ == "merged-through-"@ + incoming_label@,
    {
        let mut label = String::from_str("merged-through-");
        label.append(incoming_label);
        self.existing_label = label;
    }
}

/// Why files cannot be merged.
#[derive(Clone, Copy, Debug, PartialEq, Eq, Structural)]
pub enum MergeRequestError {
    /// There are fewer than two of them.
    TooFewInputs,
    /// There are labels, but not one for each.
    LabelCount,
}

impl MergeRequestError {
    /// The message.
    pub open spec fn message(self) -> Seq<char> {
        match self {
            MergeRequestError::TooFewInputs => "merge requires at least two input scorer files"@,
            MergeRequestError::LabelCount => "if provided, --label must be passed once per input"@,
        }
    }

    /// Writes the message.
    pub fn to_string(&self) -> (r: String)
        ensures
            r@ == self.message(),
    {
        match self {
            MergeRequestError::TooFewInputs => String::from_str(
                "merge requires at least two input scorer files",
            ),
            MergeRequestError::LabelCount => String::from_str(
                "if provided, --label must be passed once per input",
            ),
        }
    }
}

/// Checks that so many files, with so many labels, can be merged.
pub fn check_merge_request(input_count: usize, label_count: usize) -> (r: Result<
    (),
    MergeRequestError,
>)
    ensures
        r == if input_count < 2 {
            Err::<(), MergeRequestError>(MergeRequestError::TooFewInputs)
        } else if label_count != 0 && label_count != input_count {
            Err(MergeRequestError::LabelCount)
        } else {
            Ok(())
        },
{
    if input_count < 2 {
        return Err(MergeRequestError::TooFewInputs);
    }
    if label_count != 0 && label_count != input_count {
        return Err(MergeRequestError::LabelCount);
    }
    Ok(())
}

/// The label of an input: the one given for it, else its fallback.
pub fn input_label(labels: &Vec<String>, idx: usize, file_name: Option<&str>) -> (r: String)
    ensures
        r@ == if idx < labels@.len() {
            labels@[idx as int]@
        } else {
            label::fallback_label(file_name)
        },
{
    if idx < labels.len() {
        labels[idx].clone()
    } else {
        default_label(file_name)
    }
}

/// The latest timestamp of entries, 0 of none.
pub open spec fn latest_entry(diagnostics: Seq<ChannelLiquidityDiagnostic>) -> u64
    decreases diagnostics.len(),
{
    if diagnostics.len() == 0 {
        0
    } else {
        let before = latest_entry(diagnostics.drop_last());
        if diagnostics.last().latest() > before {
            diagnostics.last().latest()
        } else {
            before
        }
    }
}

/// The latest timestamp in several files, 0 where they hold no entry.
pub open spec fn latest_timestamp(files: Seq<ScoreFile>) -> u64
    decreases files.len(),
{
    if files.len() == 0 {
        0
    } else {
        let before = latest_timestamp(files.drop_last());
        let last = latest_entry(files.last().diagnostics@);
        if last > before {
            last
        } else {
            before
        }
    }
}

proof fn lemma_latest_entry(diagnostics: Seq<ChannelLiquidityDiagnostic>, j: int)
    requires
        0 <= j < diagnostics.len(),
    ensures
        diagnostics[j].latest() <= latest_entry(diagnostics),
    decreases diagnostics.len(),
{
    if j < diagnostics.len() - 1 {
        lemma_latest_entry(diagnostics.drop_last(), j);
    }
}

proof fn lemma_latest_entry_occurs(diagnostics: Seq<ChannelLiquidityDiagnostic>) -> (j: int)
    ensures
        latest_entry(diagnostics) > 0 ==> 0 <= j < diagnostics.len() && diagnostics[j].latest()
            == latest_entry(diagnostics),
    decreases diagnostics.len(),
{
    if diagnostics.len() == 0 {
        0
    } else if latest_entry(diagnostics) == diagnostics.last().latest() {
        diagnostics.len() - 1
    } else {
        lemma_latest_entry_occurs(diagnostics.drop_last())
    }
}

/// No entry of the files is later than their latest timestamp.
pub proof fn no_entry_is_later(files: Seq<ScoreFile>, i: int, j: int)
    requires
        0 <= i < files.len(),
        0 <= j < files[i].diagnostics@.len(),
    ensures
        files[i].diagnostics@[j].latest() <= latest_timestamp(files),
    decreases files.len(),
{
    if i < files.len() - 1 {
        no_entry_is_later(files.drop_last(), i, j);
    } else {
        lemma_latest_entry(files[i].diagnostics@, j);
    }
}

/// A latest timestamp above 0 is that of an entry.
pub proof fn the_latest_timestamp_occurs(files: Seq<ScoreFile>)
    requires
        latest_timestamp(files) > 0,
    ensures
        exists|i: int, j: int|
            0 <= i < files.len() && 0 <= j < files[i].diagnostics@.len() && (
            #[trigger] files[i].diagnostics@[j]).latest() == latest_timestamp(files),
    decreases files.len(),
{
    let last = files.len() - 1;
    if latest_entry(files.last().diagnostics@) == latest_timestamp(files) {
        let j = lemma_latest_entry_occurs(files.last().diagnostics@);
        assert(files[last].diagnostics@[j].latest() == latest_timestamp(files));
    } else {
        the_latest_timestamp_occurs(files.drop_last());
        let (i, j) = choose|i: int, j: int|
            0 <= i < files.drop_last().len() && 0 <= j < files.drop_last()[i].diagnostics@.len()
                && (#[trigger] files.drop_last()[i].diagnostics@[j]).latest() == latest_timestamp(
                files.drop_last(),
            );
        assert(files[i].diagnostics@[j].latest() == latest_timestamp(files));
    }
}

fn find_latest_entry(diagnostics: &Vec<ChannelLiquidityDiagnostic>) -> (r: u64)
    ensures
        r == latest_entry(diagnostics@),
{
    let mut latest: u64 = 0;
    let mut i: usize = 0;
    while i < diagnostics.len()
        invariant
            i <= diagnostics@.len(),
            latest == latest_entry(diagnostics@.take(i as int)),
        decreases diagnostics@.len() - i,
    {
        assert(diagnostics@.take(i + 1).drop_last() =~= diagnostics@.take(i as int));
        let t: u64 = max_diagnostic_timestamp(&diagnostics[i]);
        if t > latest {
            latest = t;
        }
        i = i + 1;
    }
    assert(diagnostics@.take(i as int) =~= diagnostics@);
    latest
}

/// Finds the latest timestamp in several files.
pub fn find_latest_timestamp(files: &Vec<ScoreFile>) -> (r: u64)
    ensures
        r == latest_timestamp(files@),
{
    let mut latest: u64 = 0;
    let mut i: usize = 0;
    while i < files.len()
        invariant
            i <= files@.len(),
            latest == latest_timestamp(files@.take(i as int)),
        decreases files@.len() - i,
    {
        assert(files@.take(i + 1).drop_last() =~= files@.take(i as int));
        let t: u64 = find_latest_entry(&files[i].diagnostics);
        if t > latest {
            latest = t;
        }
        i = i + 1;
    }
    assert(files@.take(i as int) =~= files@);
    latest
}

/// What is settled before files are merged.
#[derive(Debug)]
pub struct MergePlan {
    /// The time to which scores are decayed, in seconds since the Unix epoch.
    pub merge_timestamp_secs: u64,
    /// Whether scores are merged as they are, without decay.
    pub preserve_baseline_without_decay: bool,
    /// What an allowlist did to the incoming files, if there is one.
    pub overlay_filter: Option<OverlayFilterReport>,
    /// The short-channel-ids to take out of each incoming file.
    pub removed_scids: Vec<Vec<u64>>,
    /// The figures of the inputs as they are merged.
    pub inputs: Vec<Summary>,
}

/// Whether summaries give the figures of files, one for one.
pub open spec fn summarize_all(summaries: Seq<Summary>, files: Seq<ScoreFile>) -> bool {
    &&& summaries.len() == files.len()
    &&& forall|i: int|
        0 <= i < files.len() ==> summary::summarizes(
            #[trigger] summaries[i],
            files[i].label@,
            files[i].file_size_bytes,
            files[i].diagnostics@,
        )
}

/// Whether two files have the same label, size and entries.
pub open spec fn same_file(a: ScoreFile, b: ScoreFile) -> bool {
    a.label@ == b.label@ && a.file_size_bytes == b.file_size_bytes && a.diagnostics@
        == b.diagnostics@
}

/// The short-channel-ids of an allowlist, if there is one.
pub open spec fn allowed_scids(overlay_scids: Option<&BTreeSet<u64>>) -> Option<Set<u64>> {
    match overlay_scids {
        Some(allowed) => Some(allowed@),
        None => None,
    }
}

impl MergePlan {
    /// Whether the plan settles the merge of files: what they are reduced to, and what follows
    /// from that.
    pub open spec fn settles(
        self,
        before: Seq<ScoreFile>,
        after: Seq<ScoreFile>,
        allowed: Option<Set<u64>>,
        decay_to_secs: Option<u64>,
    ) -> bool {
        &&& self.preserve_baseline_without_decay == (allowed is Some)
        &&& match allowed {
            Some(scids) => self.overlay_filter is Some && overlay::is_overlay(
                before,
                after,
                scids,
                self.overlay_filter->0,
                self.removed_scids@,
            ),
            None => self.overlay_filter is None && self.removed_scids@.len() == 0 && after
                == before,
        }
        &&& self.merge_timestamp_secs == match decay_to_secs {
            Some(secs) => secs,
            None => latest_timestamp(after),
        }
        &&& summarize_all(self.inputs@, after)
    }
}

/// Settles a merge. With an allowlist, every file but the first is reduced to it, and nothing is
/// decayed. The merge timestamp is the given one, else the latest one of what is merged.
pub fn prepare_merge(
    files: &mut Vec<ScoreFile>,
    overlay_scids: Option<&BTreeSet<u64>>,
    decay_to_secs: Option<u64>,
) -> (r: MergePlan)
    ensures
        r.settles(old(files)@, final(files)@, allowed_scids(overlay_scids), decay_to_secs),
{
    let mut overlay_filter: Option<OverlayFilterReport> = None;
    let mut removed_scids: Vec<Vec<u64>> = Vec::new();
    let preserve_baseline_without_decay = overlay_scids.is_some();
    if let Some(allowed) = overlay_scids {
        let (report, removed) = overlay::apply_overlay_filter(files, allowed);
        overlay_filter = Some(report);
        removed_scids = removed;
    }
    let merge_timestamp_secs: u64 = match decay_to_secs {
        Some(secs) => secs,
        None => find_latest_timestamp(files),
    };
    let mut inputs: Vec<Summary> = Vec::new();
    let mut i: usize = 0;
    while i < files.len()
        invariant
            i <= files@.len(),
            inputs@.len() == i,
            forall|k: int|
                0 <= k < i ==> summary::summarizes(
                    #[trigger] inputs@[k],
                    files@[k].label@,
                    files@[k].file_size_bytes,
                    files@[k].diagnostics@,
                ),
        decreases files@.len() - i,
    {
        let file = &files[i];
        inputs.push(build_summary(file.label.clone(), file.file_size_bytes, &file.diagnostics));
        i = i + 1;
    }
    MergePlan {
        merge_timestamp_secs,
        preserve_baseline_without_decay,
        overlay_filter,
        removed_scids,
        inputs,
    }
}

impl MergePlan {
    /// The time to which scores are decayed before they are merged, if they are at all.
    pub fn decay_secs(&self) -> (r: Option<u64>)
        ensures
            r == if self.preserve_baseline_without_decay {
                None::<u64>
            } else {
                Some(self.merge_timestamp_secs)
            },
    {
        if self.preserve_baseline_without_decay {
            None
        } else {
            Some(self.merge_timestamp_secs)
        }
    }
}

/// With an allowlist it makes no difference to which time scores should be decayed: two plans for
/// the same files and the same allowlist decay nothing, reduce the files to the same entries, take
/// out the same channels, and report the same. Their timestamps alone may differ.
pub proof fn an_allowlist_ignores_the_decay_time(
    one: MergePlan,
    other: MergePlan,
    before: Seq<ScoreFile>,
    after_one: Seq<ScoreFile>,
    after_other: Seq<ScoreFile>,
    allowed: Set<u64>,
    decay_one: Option<u64>,
    decay_other: Option<u64>,
)
    requires
        one.settles(before, after_one, Some(allowed), decay_one),
        other.settles(before, after_other, Some(allowed), decay_other),
    ensures
        one.preserve_baseline_without_decay && other.preserve_baseline_without_decay,
        after_one.len() == after_other.len(),
        forall|i: int|
            0 <= i < after_one.len() ==> same_file(#[trigger] after_one[i], after_other[i]),
        one.removed_scids@.len() == other.removed_scids@.len(),
        forall|i: int|
            0 <= i < one.removed_scids@.len() ==> (#[trigger] one.removed_scids@[i])@
                == other.removed_scids@[i]@,
        one.overlay_filter is Some && other.overlay_filter is Some,
        overlay::reports_agree(one.overlay_filter->0, other.overlay_filter->0),
        one.inputs@.len() == other.inputs@.len(),
        forall|i: int|
            0 <= i < one.inputs@.len() ==> summary::agree(
                #[trigger] one.inputs@[i],
                other.inputs@[i],
            ),
{
    assert forall|i: int| 0 <= i < after_one.len() implies same_file(
        #[trigger] after_one[i],
        after_other[i],
    ) by {
        if i > 0 {
            assert(overlay::is_reduced(before[i], after_one[i], allowed));
            assert(overlay::is_reduced(before[i], after_other[i], allowed));
        }
    }
    assert forall|i: int| 0 <= i < one.inputs@.len() implies summary::agree(
        #[trigger] one.inputs@[i],
        other.inputs@[i],
    ) by {
        assert(same_file(after_one[i], after_other[i]));
        summary::summaries_of_the_same_agree(
            one.inputs@[i],
            other.inputs@[i],
            after_one[i].label@,
            after_one[i].file_size_bytes,
            after_one[i].diagnostics@,
        );
    }
}

/// The account of a merge.
#[derive(Debug)]
pub struct MergeReport {
    pub policy: String,
    pub output: String,
    pub output_file_size_bytes: u64,
    pub output_file_size_human: String,
    pub merge_timestamp_secs: u64,
    pub preserve_baseline_without_decay: bool,
    pub overlay_filter: Option<OverlayFilterReport>,
    pub inputs: Vec<Summary>,
    pub output_summary: Summary,
    pub stats: MergeStats,
    pub duplicate_decisions: Vec<MergeDecision>,
}

/// Accounts for a merge that was carried out: what was planned, what was decided, and what the
/// output holds.
pub fn report_merge(
    plan: MergePlan,
    session: MergeSession,
    output: String,
    output_file_size_bytes: u64,
    output_diagnostics: &Vec<ChannelLiquidityDiagnostic>,
) -> (r: MergeReport)
    ensures
        r.policy@ == session.policy.name(),
        r.output == output,
        r.output_file_size_bytes == output_file_size_bytes,
        r.output_file_size_human@ == size::human_size(output_file_size_bytes),
        r.merge_timestamp_secs == plan.merge_timestamp_secs,
        r.preserve_baseline_without_decay == plan.preserve_baseline_without_decay,
        r.overlay_filter == plan.overlay_filter,
        r.inputs == plan.inputs,
        summary::summarizes(
            r.output_summary,
            "merged"@,
            output_file_size_bytes,
            output_diagnostics@,
        ),
        r.stats == session.stats,
        r.duplicate_decisions == session.decisions,
{
    MergeReport {
        policy: String::from_str(session.policy.as_str()),
        output,
        output_file_size_bytes,
        output_file_size_human: size::format_binary_size(output_file_size_bytes),
        merge_timestamp_secs: plan.merge_timestamp_secs,
        preserve_baseline_without_decay: plan.preserve_baseline_without_decay,
        overlay_filter: plan.overlay_filter,
        inputs: plan.inputs,
        output_summary: build_summary(
            String::from_str("merged"),
            output_file_size_bytes,
            output_diagnostics,
        ),
        stats: session.stats,
        duplicate_decisions: session.decisions,
    }
}

/// The line that tells that a merge was written.
pub open spec fn merge_line(output: Seq<char>, bytes: u64, entry_count: nat) -> Seq<char> {
    "wrote "@ + output + " ("@ + size::human_size(bytes) + ", "@ + text::decimal(entry_count)
        + " entries)"@
}

/// Tells that a merge was written.
pub fn render_merge_line(report: &MergeReport) -> (r: String)
    ensures
        r@ == merge_line(
            report.output@,
            report.output_file_size_bytes,
            report.output_summary.entry_count as nat,
        ),
{
    let mut out = String::from_str("wrote ");
    out.append(report.output.as_str());
    out.append(" (");
    out.append(size::format_binary_size(report.output_file_size_bytes).as_str());
    out.append(", ");
    text::push_decimal(&mut out, report.output_summary.entry_count as u64);
    out.append(" entries)");
    out
}

/// What every policy does: prefer-first keeps the existing entry, prefer-last takes the other one,
/// combine combines the two, richer-history takes the other one if and only if that is richer, and
/// newer if and only if it has the newer datapoint.
pub proof fn policies_do_what_they_are_called(
    existing: ChannelLiquidityDiagnostic,
    other: ChannelLiquidityDiagnostic,
)
    ensures
        chosen_action(MergePolicy::PreferFirst, existing, other)
            == ChannelLiquidityMergeAction::KeepExisting,
        chosen_action(MergePolicy::PreferLast, existing, other)
            == ChannelLiquidityMergeAction::ReplaceWithOther,
        chosen_action(MergePolicy::Combine, existing, other)
            == ChannelLiquidityMergeAction::Combine,
        chosen_action(MergePolicy::RicherHistory, existing, other)
            == ChannelLiquidityMergeAction::ReplaceWithOther <==> diagnostic::richness(
            other,
            existing,
        ) == Comparison::Greater,
        chosen_action(MergePolicy::Newer, existing, other)
            == ChannelLiquidityMergeAction::ReplaceWithOther <==> other.last_datapoint_time_secs
            > existing.last_datapoint_time_secs,
        chosen_action(MergePolicy::RicherHistory, existing, other)
            != ChannelLiquidityMergeAction::Combine,
        chosen_action(MergePolicy::Newer, existing, other)
            != ChannelLiquidityMergeAction::Combine,
{
}

/// Where no history signal tells two entries apart, the richer-history policy takes the one with
/// the later datapoint, and where the times are the same too, the one with the narrower window.
pub proof fn richer_history_goes_on_to_times_and_windows(
    existing: ChannelLiquidityDiagnostic,
    other: ChannelLiquidityDiagnostic,
)
    requires
        diagnostic::signals_tie(other, existing),
    ensures
        other.last_datapoint_time_secs > existing.last_datapoint_time_secs ==> chosen_action(
            MergePolicy::RicherHistory,
            existing,
            other,
        ) == ChannelLiquidityMergeAction::ReplaceWithOther,
        other.last_datapoint_time_secs < existing.last_datapoint_time_secs ==> chosen_action(
            MergePolicy::RicherHistory,
            existing,
            other,
        ) == ChannelLiquidityMergeAction::KeepExisting,
        diagnostic::times_tie(other, existing) ==> (chosen_action(
            MergePolicy::RicherHistory,
            existing,
            other,
        ) == ChannelLiquidityMergeAction::ReplaceWithOther <==> other.window()
            < existing.window()),
{
    diagnostic::the_first_signal_that_differs_decides(other, existing);
}

/// The reason that goes with a decision says what decided: the policy alone, or which entry is
/// richer or has the newer datapoint, or that neither is.
pub proof fn reasons_are_true(
    existing: ChannelLiquidityDiagnostic,
    other: ChannelLiquidityDiagnostic,
)
    ensures
        chosen_reason(MergePolicy::PreferFirst, existing, other) == "prefer-first policy"@,
        chosen_reason(MergePolicy::PreferLast, existing, other) == "prefer-last policy"@,
        chosen_reason(MergePolicy::Combine, existing, other) == "combine policy"@,
        diagnostic::richness(other, existing) == Comparison::Greater ==> chosen_reason(
            MergePolicy::RicherHistory,
            existing,
            other,
        ) == "incoming has richer historical signal"@,
        diagnostic::richness(existing, other) == Comparison::Greater ==> chosen_reason(
            MergePolicy::RicherHistory,
            existing,
            other,
        ) == "existing has richer historical signal"@,
        diagnostic::richness(existing, other) == Comparison::Equal ==> chosen_reason(
            MergePolicy::RicherHistory,
            existing,
            other,
        ) == "equal historical signal; keeping existing"@,
        other.last_datapoint_time_secs > existing.last_datapoint_time_secs ==> chosen_reason(
            MergePolicy::Newer,
            existing,
            other,
        ) == "incoming has newer datapoint"@,
        other.last_datapoint_time_secs < existing.last_datapoint_time_secs ==> chosen_reason(
            MergePolicy::Newer,
            existing,
            other,
        ) == "existing has newer datapoint"@,
        other.last_datapoint_time_secs == existing.last_datapoint_time_secs ==> chosen_reason(
            MergePolicy::Newer,
            existing,
            other,
        ) == "equal datapoint time; keeping existing"@,
{
    diagnostic::comparing_reverses(existing, other);
}

/// A decision carries the labels of both sides and the weights, bucket sums and datapoint times of
/// both entries, each on its own side, and it is named after what becomes of the entries.
pub proof fn decisions_tell_of_both_entries(
    decision: MergeDecision,
    policy: MergePolicy,
    existing_label: Seq<char>,
    incoming_label: Seq<char>,
    existing: ChannelLiquidityDiagnostic,
    other: ChannelLiquidityDiagnostic,
)
    requires
        decision.records(policy, existing_label, incoming_label, existing, other),
    ensures
        decision.scid == existing.scid,
        decision.existing_label@ == existing_label,
        decision.incoming_label@ == incoming_label,
        decision.existing_total_valid_points_tracked == existing.total_valid_points_tracked,
        decision.incoming_total_valid_points_tracked == other.total_valid_points_tracked,
        decision.existing_history_bucket_sum == diagnostic::bucket_total(
            existing.min_history_buckets@,
        ) + diagnostic::bucket_total(existing.max_history_buckets@),
        decision.incoming_history_bucket_sum == diagnostic::bucket_total(
            other.min_history_buckets@,
        ) + diagnostic::bucket_total(other.max_history_buckets@),
        decision.existing_last_datapoint_time_secs == existing.last_datapoint_time_secs,
        decision.incoming_last_datapoint_time_secs == other.last_datapoint_time_secs,
        decision.reason@ == chosen_reason(policy, existing, other),
        chosen_action(policy, existing, other) == ChannelLiquidityMergeAction::KeepExisting
            ==> decision.action@ == "keep-existing"@,
        chosen_action(policy, existing, other) == ChannelLiquidityMergeAction::ReplaceWithOther
            ==> decision.action@ == "replace-with-incoming"@,
        chosen_action(policy, existing, other) == ChannelLiquidityMergeAction::Combine
            ==> decision.action@ == "combine"@,
{
}

/// One more decision adds one to the count of duplicates and to the count of what it is named
/// after, and to no other.
pub proof fn every_decision_is_counted(
    before: MergeSession,
    after: MergeSession,
    decision: MergeDecision,
)
    requires
        before.wf(),
        after.wf(),
        after.decisions@ == before.decisions@.push(decision),
        decision.action@ == "keep-existing"@ || decision.action@ == "replace-with-incoming"@
            || decision.action@ == "combine"@,
    ensures
        after.stats.duplicate_count == before.stats.duplicate_count + 1,
        after.stats.kept_existing_count - before.stats.kept_existing_count == if decision.action@
            == "keep-existing"@ {
            1int
        } else {
            0
        },
        after.stats.replaced_with_incoming_count - before.stats.replaced_with_incoming_count
            == if decision.action@ == "replace-with-incoming"@ {
            1int
        } else {
            0
        },
        after.stats.combined_count - before.stats.combined_count == if decision.action@
            == "combine"@ {
            1int
        } else {
            0
        },
{
    reveal_strlit("keep-existing");
    reveal_strlit("replace-with-incoming");
    reveal_strlit("combine");
    let action = if decision.action@ == "keep-existing"@ {
        ChannelLiquidityMergeAction::KeepExisting
    } else if decision.action@ == "replace-with-incoming"@ {
        ChannelLiquidityMergeAction::ReplaceWithOther
    } else {
        ChannelLiquidityMergeAction::Combine
    };
    let decisions = before.decisions@;
    lemma_tally_push(decisions, decision, action, ChannelLiquidityMergeAction::KeepExisting);
    lemma_tally_push(decisions, decision, action, ChannelLiquidityMergeAction::ReplaceWithOther);
    lemma_tally_push(decisions, decision, action, ChannelLiquidityMergeAction::Combine);
    assert("keep-existing"@.len() != "replace-with-incoming"@.len());
    assert("keep-existing"@.len() != "combine"@.len());
    assert("combine"@.len() != "replace-with-incoming"@.len());
}

/// Without an allowlist a merge takes the files as they are, and decays them: to the time that is
/// given, else to the latest time of any entry.
pub proof fn a_plan_without_an_allowlist_decays(
    plan: MergePlan,
    before: Seq<ScoreFile>,
    after: Seq<ScoreFile>,
    decay_to_secs: Option<u64>,
)
    requires
        plan.settles(before, after, None, decay_to_secs),
    ensures
        after == before,
        plan.overlay_filter is None,
        plan.removed_scids@.len() == 0,
        !plan.preserve_baseline_without_decay,
        decay_to_secs matches Some(secs) ==> plan.merge_timestamp_secs == secs,
        decay_to_secs is None ==> forall|i: int, j: int|
            0 <= i < before.len() && 0 <= j < before[i].diagnostics@.len() ==> (
            #[trigger] before[i].diagnostics@[j]).latest() <= plan.merge_timestamp_secs,
        decay_to_secs is None && plan.merge_timestamp_secs > 0 ==> exists|i: int, j: int|
            0 <= i < before.len() && 0 <= j < before[i].diagnostics@.len() && (
            #[trigger] before[i].diagnostics@[j]).latest() == plan.merge_timestamp_secs,
{
    if decay_to_secs is None {
        assert forall|i: int, j: int|
            0 <= i < before.len() && 0 <= j < before[i].diagnostics@.len() implies (
        #[trigger] before[i].diagnostics@[j]).latest() <= plan.merge_timestamp_secs by {
            no_entry_is_later(before, i, j);
        }
        if plan.merge_timestamp_secs > 0 {
            the_latest_timestamp_occurs(before);
        }
    }
}

/// The timestamp of a plan is the given one, else it is that of the latest entry that is merged.
/// The summaries of a plan are those of the files as they are merged, in their order.
pub proof fn a_plan_looks_at_what_is_merged(
    plan: MergePlan,
    before: Seq<ScoreFile>,
    after: Seq<ScoreFile>,
    allowed: Option<Set<u64>>,
    decay_to_secs: Option<u64>,
)
    requires
        plan.settles(before, after, allowed, decay_to_secs),
    ensures
        plan.preserve_baseline_without_decay <==> allowed is Some,
        decay_to_secs matches Some(secs) ==> plan.merge_timestamp_secs == secs,
        decay_to_secs is None ==> forall|i: int, j: int|
            0 <= i < after.len() && 0 <= j < after[i].diagnostics@.len() ==> (
            #[trigger] after[i].diagnostics@[j]).latest() <= plan.merge_timestamp_secs,
        decay_to_secs is None && plan.merge_timestamp_secs > 0 ==> exists|i: int, j: int|
            0 <= i < after.len() && 0 <= j < after[i].diagnostics@.len() && (
            #[trigger] after[i].diagnostics@[j]).latest() == plan.merge_timestamp_secs,
        plan.inputs@.len() == after.len(),
        forall|i: int|
            0 <= i < after.len() ==> summary::summarizes(
                #[trigger] plan.inputs@[i],
                after[i].label@,
                after[i].file_size_bytes,
                after[i].diagnostics@,
            ),
{
    if decay_to_secs is None {
        assert forall|i: int, j: int|
            0 <= i < after.len() && 0 <= j < after[i].diagnostics@.len() implies (
        #[trigger] after[i].diagnostics@[j]).latest() <= plan.merge_timestamp_secs by {
            no_entry_is_later(after, i, j);
        }
        if plan.merge_timestamp_secs > 0 {
            the_latest_timestamp_occurs(after);
        }
    }
}

/// The line on a merge says where it was written, how large it is, and how many entries it has.
pub proof fn the_line_tells_of_the_output(output: Seq<char>, bytes: u64, entry_count: nat)
    ensures
        merge_line(output, bytes, entry_count).take("wrote "@.len() as int) == "wrote "@,
        merge_line(output, bytes, entry_count).skip(merge_line(output, bytes, entry_count).len() - " entries)"@.len()) == " entries)"@,
        text::holds(merge_line(output, bytes, entry_count), "wrote "@ + output + " ("@),
        text::holds(merge_line(output, bytes, entry_count), " ("@ + size::human_size(bytes) + ", "@),
        text::holds(merge_line(output, bytes, entry_count), ", "@ + text::decimal(entry_count) + " entries)"@),
{
    let pieces = seq!["wrote "@, output, " ("@, size::human_size(bytes), ", "@, text::decimal(entry_count), " entries)"@];
    assert(merge_line(output, bytes, entry_count) =~= text::joined(pieces)) by {
        reveal_with_fuel(text::joined, 8);
    }
    assert(merge_line(output, bytes, entry_count).take("wrote "@.len() as int) =~= "wrote "@);
    assert(merge_line(output, bytes, entry_count).skip(merge_line(output, bytes, entry_count).len() - " entries)"@.len()) =~= " entries)"@);
    text::lemma_joined_holds(pieces, 0);
    text::lemma_joined_holds(pieces, 2);
    text::lemma_joined_holds(pieces, 4);
}

/// An allowlist restricts a merge even if it holds no short-channel-id. Only without one nothing
/// is restricted.
pub proof fn any_allowlist_restricts(overlay_scids: Option<&BTreeSet<u64>>)
    ensures
        overlay_scids matches Some(allowed) ==> allowed_scids(overlay_scids) == Some(allowed@),
        overlay_scids is None ==> allowed_scids(overlay_scids) is None,
{
}

} // verus!
