//! The orders in which channel entries can be listed.
use crate::diagnostic;
use crate::diagnostic::{
    compare_history_richness, max_diagnostic_timestamp, offset_window_msat,
    ChannelLiquidityDiagnostic,
};
use crate::order;
use crate::order::Comparison;
use vstd::prelude::*;

verus! {

/// What channel entries are listed by.
#[derive(Clone, Copy, Debug, PartialEq, Eq, Structural)]
pub enum Sort {
    /// Smallest window between the liquidity offsets first.
    Narrow,
    /// Most recently updated first.
    Recent,
    /// Strongest historical signal first.
    History,
    /// Smallest short-channel-id first.
    Scid,
}

/// How two entries compare in a listing: the lesser one comes first.
pub open spec fn listing_rank(
    by: Sort,
    a: ChannelLiquidityDiagnostic,
    b: ChannelLiquidityDiagnostic,
) -> Comparison {
    match by {
        Sort::Narrow => Comparison::of(a.window() as int, b.window() as int),
        Sort::Recent => Comparison::of(b.latest() as int, a.latest() as int).or_by(
            Comparison::of(a.scid as int, b.scid as int),
        ),
        Sort::History => diagnostic::richness(b, a).or_by(
            Comparison::of(a.scid as int, b.scid as int),
        ),
        Sort::Scid => Comparison::of(a.scid as int, b.scid as int),
    }
}

/// Whether the weight of every entry is a number.
pub open spec fn weights_are_numbers(diagnostics: Seq<ChannelLiquidityDiagnostic>) -> bool {
    forall|i: int|
        0 <= i < diagnostics.len()
            ==> !(#[trigger] diagnostics[i]).total_valid_points_tracked.is_nan()
}

/// Whether `after` lists the entries of `before`. The order is settled unless entries are listed
/// by history and a weight is no number.
pub open spec fn lists(
    before: Seq<ChannelLiquidityDiagnostic>,
    after: Seq<ChannelLiquidityDiagnostic>,
    by: Sort,
) -> bool {
    &&& order::is_rearrangement(before, after)
    &&& by != Sort::History || weights_are_numbers(before) ==> order::is_stable_sort(
        before,
        after,
        |a: ChannelLiquidityDiagnostic, b: ChannelLiquidityDiagnostic| listing_rank(by, a, b),
    )
}

/// Compares two entries for a listing.
fn compare_for_listing(
    by: Sort,
    a: &ChannelLiquidityDiagnostic,
    b: &ChannelLiquidityDiagnostic,
) -> (r: Comparison)
    ensures
        r == listing_rank(by, *a, *b),
{
    match by {
        Sort::Narrow => Comparison::of_numbers(offset_window_msat(a), offset_window_msat(b)),
        Sort::Recent => Comparison::of_numbers(
            max_diagnostic_timestamp(b),
            max_diagnostic_timestamp(a),
        ).tie_break(Comparison::of_numbers(a.scid, b.scid)),
        Sort::History => compare_history_richness(b, a).tie_break(
            Comparison::of_numbers(a.scid, b.scid),
        ),
        Sort::Scid => Comparison::of_numbers(a.scid, b.scid),
    }
}

/// A listing rank orders entries, by history where every weight is a number.
proof fn lemma_listing_ranks(by: Sort, s: Seq<ChannelLiquidityDiagnostic>)
    requires
        by != Sort::History || weights_are_numbers(s),
    ensures
        order::ranks(
            s,
            |a: ChannelLiquidityDiagnostic, b: ChannelLiquidityDiagnostic| listing_rank(by, a, b),
        ),
{
    let rank = |a: ChannelLiquidityDiagnostic, b: ChannelLiquidityDiagnostic|
        listing_rank(by, a, b);
    assert forall|i: int, j: int|
        0 <= i < s.len() && 0 <= j < s.len() implies #[trigger] rank(s[i], s[j]) == rank(
        s[j],
        s[i],
    ).reversed() by {
        diagnostic::comparing_reverses(s[i], s[j]);
    }
    assert forall|i: int, j: int, k: int|
        0 <= i < s.len() && 0 <= j < s.len() && 0 <= k < s.len() && rank(s[i], s[j])
            != Comparison::Greater && rank(s[j], s[k]) != Comparison::Greater implies (
    #[trigger] rank(s[i], s[j])).or_by(#[trigger] rank(s[j], s[k])) == rank(s[i], s[k]) by {
        if by == Sort::History {
            diagnostic::richness_is_transitive(s[k], s[j], s[i]);
        }
    }
}

/// The entries that come earlier in a listing never rank behind those that come later.
pub proof fn listed_entries_are_in_order(
    before: Seq<ChannelLiquidityDiagnostic>,
    after: Seq<ChannelLiquidityDiagnostic>,
    by: Sort,
    i: int,
    j: int,
)
    requires
        lists(before, after, by),
        by != Sort::History || weights_are_numbers(before),
        0 <= i < j < after.len(),
    ensures
        listing_rank(by, after[i], after[j]) != Comparison::Greater,
{
    let rank = |a: ChannelLiquidityDiagnostic, b: ChannelLiquidityDiagnostic|
        listing_rank(by, a, b);
    let order = choose|order: Seq<usize>| #[trigger]
        order::is_arrangement(order, before.len()) && after == order::arranged(before, order)
            && order::stably_ordered(before, order, rank);
    assert(order::goes_before(before, rank, order[i], order[j]));
    assert(rank(after[i], after[j]) == listing_rank(by, after[i], after[j]));
}

/// There is one listing of the same entries.
pub proof fn listing_is_unique(
    before: Seq<ChannelLiquidityDiagnostic>,
    one: Seq<ChannelLiquidityDiagnostic>,
    other: Seq<ChannelLiquidityDiagnostic>,
    by: Sort,
)
    requires
        lists(before, one, by),
        lists(before, other, by),
        by != Sort::History || weights_are_numbers(before),
    ensures
        one == other,
{
    lemma_listing_ranks(by, before);
    order::stable_sort_is_unique(
        before,
        one,
        other,
        |a: ChannelLiquidityDiagnostic, b: ChannelLiquidityDiagnostic| listing_rank(by, a, b),
    );
}

/// Sorts entries for a listing. Entries that tie stay in the order that they had.
pub fn sort_diagnostics(diagnostics: &mut Vec<ChannelLiquidityDiagnostic>, by: Sort)
    ensures
        lists(old(diagnostics)@, final(diagnostics)@, by),
{
    let entries: &Vec<ChannelLiquidityDiagnostic> = diagnostics;
    let ghost s = entries@;
    let ghost rank = |a: ChannelLiquidityDiagnostic, b: ChannelLiquidityDiagnostic|
        listing_rank(by, a, b);
    let less = |a: usize, b: usize| -> (r: bool)
        requires
            a < entries@.len(),
            b < entries@.len(),
        ensures
            r == (listing_rank(by, entries@[a as int], entries@[b as int]) == Comparison::Less),
        { compare_for_listing(by, &entries[a], &entries[b]) == Comparison::Less };
    let order = order::sort_indices::<ChannelLiquidityDiagnostic, _>(entries.len(), &less, Ghost(s), Ghost(rank));
    let sorted: Vec<ChannelLiquidityDiagnostic> = order::arrange(entries, &order);
    proof {
        assert(order::is_arrangement(order@, s.len()) && sorted@ == order::arranged(s, order@));
        if by != Sort::History || weights_are_numbers(s) {
            lemma_listing_ranks(by, s);
        }
    }
    *diagnostics = sorted;
}

/// Whether two entries have nothing that a listing could tell them apart by.
pub open spec fn listed_alike(
    by: Sort,
    a: ChannelLiquidityDiagnostic,
    b: ChannelLiquidityDiagnostic,
) -> bool {
    match by {
        Sort::Narrow => a.window() == b.window(),
        Sort::Recent => a.latest() == b.latest() && a.scid == b.scid,
        Sort::History => diagnostic::richness(a, b) == Comparison::Equal && a.scid == b.scid,
        Sort::Scid => a.scid == b.scid,
    }
}

/// What a listing goes by: the narrowest window, the latest time or the richest history first, the
/// smallest short-channel-id first where times or histories tie, or by short-channel-id alone.
pub proof fn listings_go_by_their_keys(
    before: Seq<ChannelLiquidityDiagnostic>,
    after: Seq<ChannelLiquidityDiagnostic>,
    by: Sort,
    i: int,
    j: int,
)
    requires
        lists(before, after, by),
        by == Sort::History ==> forall|k: int|
            0 <= k < before.len() ==> !(
            #[trigger] before[k]).total_valid_points_tracked.is_nan(),
        0 <= i < j < after.len(),
    ensures
        by == Sort::Narrow ==> after[i].window() <= after[j].window(),
        by == Sort::Recent ==> {
            &&& after[i].latest() >= after[j].latest()
            &&& after[i].latest() == after[j].latest() ==> after[i].scid <= after[j].scid
        },
        by == Sort::History ==> {
            &&& diagnostic::richness(after[j], after[i]) != Comparison::Greater
            &&& diagnostic::richness(after[j], after[i]) == Comparison::Equal ==> after[i].scid
                <= after[j].scid
        },
        by == Sort::Scid ==> after[i].scid <= after[j].scid,
{
    listed_entries_are_in_order(before, after, by, i, j);
}

/// A listing holds every entry as often as the file does.
pub proof fn listings_keep_every_entry(
    before: Seq<ChannelLiquidityDiagnostic>,
    after: Seq<ChannelLiquidityDiagnostic>,
    by: Sort,
)
    requires
        lists(before, after, by),
    ensures
        after.to_multiset() == before.to_multiset(),
        after.len() == before.len(),
{
    order::rearranging_keeps_items(before, after);
}

/// Entries that a listing cannot tell apart stay in the order in which the file has them.
pub proof fn ties_stay_in_place(
    before: Seq<ChannelLiquidityDiagnostic>,
    after: Seq<ChannelLiquidityDiagnostic>,
    by: Sort,
)
    requires
        lists(before, after, by),
        by == Sort::History ==> forall|k: int|
            0 <= k < before.len() ==> !(
            #[trigger] before[k]).total_valid_points_tracked.is_nan(),
    ensures
        exists|order: Seq<usize>| #[trigger]
            order::is_arrangement(order, before.len()) && (forall|k: int|
                0 <= k < after.len() ==> #[trigger] after[k] == before[order[k] as int]) && (
            forall|i: int, j: int|
                0 <= i < j < after.len() && listed_alike(
                    by,
                    #[trigger] after[i],
                    #[trigger] after[j],
                ) ==> order[i] < order[j]),
{
    let rank = |a: ChannelLiquidityDiagnostic, b: ChannelLiquidityDiagnostic|
        listing_rank(by, a, b);
    let order = choose|order: Seq<usize>| #[trigger]
        order::is_arrangement(order, before.len()) && after == order::arranged(before, order)
            && order::stably_ordered(before, order, rank);
    assert forall|i: int, j: int|
        0 <= i < j < after.len() && listed_alike(
            by,
            #[trigger] after[i],
            #[trigger] after[j],
        ) implies order[i] < order[j] by {
        assert(order::goes_before(before, rank, order[i], order[j]));
        diagnostic::comparing_reverses(after[i], after[j]);
        assert(rank(after[i], after[j]) == Comparison::Equal);
    }
}

} // verus!
