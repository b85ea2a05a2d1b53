//! What a scorer file holds, in figures.
use crate::diagnostic::{offset_window_msat, ChannelLiquidityDiagnostic};
use crate::order;
use crate::order::Comparison;
use crate::size;
use crate::weight;
use crate::weight::Weight;
use vstd::prelude::*;

verus! {

/// The figures of one scorer file.
#[derive(Debug)]
pub struct Summary {
    pub label: String,
    pub file_size_bytes: u64,
    pub file_size_human: String,
    pub entry_count: usize,
    pub history_populated_count: usize,
    pub history_empty_count: usize,
    pub min_offset_msat_p50: u64,
    pub min_offset_msat_p95: u64,
    pub min_offset_msat_max: u64,
    pub max_offset_msat_p50: u64,
    pub max_offset_msat_p95: u64,
    pub max_offset_msat_max: u64,
    pub offset_window_msat_p50: u64,
    pub offset_window_msat_p95: u64,
    pub offset_window_msat_max: u64,
    pub total_valid_points_tracked_p50: Weight,
    pub total_valid_points_tracked_p95: Weight,
    pub total_valid_points_tracked_max: Weight,
}

/// The index nearest to `percent` hundredths of the way from the first of `len` items to the
/// last one. Halves go up.
pub open spec fn percentile_rank(len: nat, percent: nat) -> nat
    recommends
        len > 0,
{
    ((2 * (len - 1) * percent + 100) / 200) as nat
}

/// The item at a percentile of a sorted sequence, or `absent` where there is none.
pub open spec fn percentile<T>(sorted: Seq<T>, percent: nat, absent: T) -> T {
    if sorted.len() == 0 {
        absent
    } else if percentile_rank(sorted.len(), percent) < sorted.len() {
        sorted[percentile_rank(sorted.len(), percent) as int]
    } else {
        sorted.last()
    }
}

/// The last item of a sorted sequence, or `absent` where there is none.
pub open spec fn last_or<T>(sorted: Seq<T>, absent: T) -> T {
    if sorted.len() == 0 {
        absent
    } else {
        sorted.last()
    }
}

/// The order of numbers.
pub open spec fn number_order() -> spec_fn(u64, u64) -> bool {
    |a: u64, b: u64| a <= b
}

/// The order of weights: by value, and by bits where the values do not settle it.
pub open spec fn weight_order() -> spec_fn(Weight, Weight) -> bool {
    |a: Weight, b: Weight| a.rank() <= b.rank()
}

/// The median, the 95th percentile and the maximum of values, or `absent` where there is none.
pub open spec fn figures<T>(
    values: Seq<T>,
    leq: spec_fn(T, T) -> bool,
    absent: T,
    p50: T,
    p95: T,
    max: T,
) -> bool {
    let sorted = values.sort_by(leq);
    &&& p50 == percentile(sorted, 50, absent)
    &&& p95 == percentile(sorted, 95, absent)
    &&& max == last_or(sorted, absent)
}

/// The median, the 95th percentile and the maximum of numbers.
pub open spec fn number_figures(values: Seq<u64>, p50: u64, p95: u64, max: u64) -> bool {
    figures(values, number_order(), 0, p50, p95, max)
}

/// The median, the 95th percentile and the maximum of weights.
pub open spec fn weight_figures(values: Seq<Weight>, p50: Weight, p95: Weight, max: Weight) -> bool {
    figures(values, weight_order(), Weight { bits: 0 }, p50, p95, max)
}

/// The number of entries that have a history.
pub open spec fn populated(diagnostics: Seq<ChannelLiquidityDiagnostic>) -> nat {
    diagnostics.filter(|d: ChannelLiquidityDiagnostic| d.has_history).len()
}

/// Whether a summary gives the figures of these entries, of a file of this size.
pub open spec fn summarizes(
    summary: Summary,
    label: Seq<char>,
    file_size_bytes: u64,
    diagnostics: Seq<ChannelLiquidityDiagnostic>,
) -> bool {
    &&& summary.label@ == label
    &&& summary.file_size_bytes == file_size_bytes
    &&& summary.file_size_human@ == size::human_size(file_size_bytes)
    &&& summary.entry_count == diagnostics.len()
    &&& summary.history_populated_count == populated(diagnostics)
    &&& summary.history_empty_count == diagnostics.len() - populated(diagnostics)
    &&& number_figures(
        diagnostics.map_values(|d: ChannelLiquidityDiagnostic| d.min_liquidity_offset_msat),
        summary.min_offset_msat_p50,
        summary.min_offset_msat_p95,
        summary.min_offset_msat_max,
    )
    &&& number_figures(
        diagnostics.map_values(|d: ChannelLiquidityDiagnostic| d.max_liquidity_offset_msat),
        summary.max_offset_msat_p50,
        summary.max_offset_msat_p95,
        summary.max_offset_msat_max,
    )
    &&& number_figures(
        diagnostics.map_values(|d: ChannelLiquidityDiagnostic| d.window() as u64),
        summary.offset_window_msat_p50,
        summary.offset_window_msat_p95,
        summary.offset_window_msat_max,
    )
    &&& weight_figures(
        entry_weights(diagnostics),
        summary.total_valid_points_tracked_p50,
        summary.total_valid_points_tracked_p95,
        summary.total_valid_points_tracked_max,
    )
}

/// The weights of entries.
pub open spec fn entry_weights(diagnostics: Seq<ChannelLiquidityDiagnostic>) -> Seq<Weight> {
    diagnostics.map_values(|d: ChannelLiquidityDiagnostic| d.total_valid_points_tracked)
}

/// Whether two summaries say the same.
pub open spec fn agree(a: Summary, b: Summary) -> bool {
    &&& a.label@ == b.label@
    &&& a.file_size_bytes == b.file_size_bytes
    &&& a.file_size_human@ == b.file_size_human@
    &&& a.entry_count == b.entry_count
    &&& a.history_populated_count == b.history_populated_count
    &&& a.history_empty_count == b.history_empty_count
    &&& a.min_offset_msat_p50 == b.min_offset_msat_p50
    &&& a.min_offset_msat_p95 == b.min_offset_msat_p95
    &&& a.min_offset_msat_max == b.min_offset_msat_max
    &&& a.max_offset_msat_p50 == b.max_offset_msat_p50
    &&& a.max_offset_msat_p95 == b.max_offset_msat_p95
    &&& a.max_offset_msat_max == b.max_offset_msat_max
    &&& a.offset_window_msat_p50 == b.offset_window_msat_p50
    &&& a.offset_window_msat_p95 == b.offset_window_msat_p95
    &&& a.offset_window_msat_max == b.offset_window_msat_max
    &&& a.total_valid_points_tracked_p50 == b.total_valid_points_tracked_p50
    &&& a.total_valid_points_tracked_p95 == b.total_valid_points_tracked_p95
    &&& a.total_valid_points_tracked_max == b.total_valid_points_tracked_max
}

proof fn lemma_number_order()
    ensures
        vstd::relations::total_ordering(number_order()),
{
}

proof fn lemma_weight_order()
    ensures
        vstd::relations::total_ordering(weight_order()),
{
    assert forall|a: Weight, b: Weight| #[trigger] weight_order()(a, b) && #[trigger] weight_order()(
        b,
        a,
    ) implies a == b by {
        weight::ranks_keep_to_values(a, b);
    }
}

/// A stable sort of values that no two different ones tie in is the only way to sort them.
proof fn lemma_sorted<T>(
    before: Seq<T>,
    after: Seq<T>,
    rank: spec_fn(T, T) -> Comparison,
    leq: spec_fn(T, T) -> bool,
)
    requires
        order::is_stable_sort(before, after, rank),
        vstd::relations::total_ordering(leq),
        forall|a: T, b: T| rank(a, b) != Comparison::Greater ==> #[trigger] leq(a, b),
    ensures
        after == before.sort_by(leq),
{
    let order = choose|order: Seq<usize>| #[trigger]
        order::is_arrangement(order, before.len()) && after == order::arranged(before, order)
            && order::stably_ordered(before, order, rank);
    assert(order::is_rearrangement(before, after));
    order::rearranging_keeps_items(before, after);
    before.lemma_sort_by_ensures(leq);
    assert(vstd::relations::sorted_by(after, leq)) by {
        assert forall|i: int, j: int| 0 <= i < j < after.len() implies #[trigger] leq(
            after[i],
            after[j],
        ) by {
            assert(order::goes_before(before, rank, order[i], order[j]));
            assert(rank(after[i], after[j]) != Comparison::Greater);
        }
    }
    vstd::seq_lib::lemma_sorted_unique(after, before.sort_by(leq), leq);
}

/// Sorts numbers.
fn sort_numbers(values: &Vec<u64>) -> (r: Vec<u64>)
    ensures
        r@ == values@.sort_by(number_order()),
{
    let ghost s = values@;
    let ghost rank = |a: u64, b: u64| Comparison::of(a as int, b as int);
    let less = |a: usize, b: usize| -> (r: bool)
        requires
            a < values@.len(),
            b < values@.len(),
        ensures
            r == (values@[a as int] < values@[b as int]),
        { values[a] < values[b] };
    let order = order::sort_indices::<u64, _>(values.len(), &less, Ghost(s), Ghost(rank));
    let sorted: Vec<u64> = order::arrange(values, &order);
    proof {
        assert(order::ranks(s, rank));
        assert(order::is_arrangement(order@, s.len()) && sorted@ == order::arranged(s, order@));
        lemma_number_order();
        lemma_sorted(s, sorted@, rank, number_order());
    }
    sorted
}

/// Sorts weights.
fn sort_weights(values: &Vec<Weight>) -> (r: Vec<Weight>)
    ensures
        r@ == values@.sort_by(weight_order()),
{
    let ghost s = values@;
    let ghost rank = |a: Weight, b: Weight| Comparison::of(a.rank(), b.rank());
    let less = |a: usize, b: usize| -> (r: bool)
        requires
            a < values@.len(),
            b < values@.len(),
        ensures
            r == (values@[a as int].rank() < values@[b as int].rank()),
        { values[a].precedes(values[b]) };
    let order = order::sort_indices::<Weight, _>(values.len(), &less, Ghost(s), Ghost(rank));
    let sorted: Vec<Weight> = order::arrange(values, &order);
    proof {
        assert(order::ranks(s, rank));
        assert(order::is_arrangement(order@, s.len()) && sorted@ == order::arranged(s, order@));
        lemma_weight_order();
        lemma_sorted(s, sorted@, rank, weight_order());
    }
    sorted
}

/// The index of a percentile, never past the last item.
fn percentile_index(len: usize, percent: u8) -> (r: usize)
    requires
        len > 0,
    ensures
        r < len,
        r == if percentile_rank(len as nat, percent as nat) < len {
            percentile_rank(len as nat, percent as nat) as int
        } else {
            len - 1
        },
{
    let steps: u128 = (len - 1) as u128;
    assert(0 <= steps * percent <= usize::MAX * 255) by (nonlinear_arith)
        requires
            0 <= steps <= usize::MAX,
            0 <= percent <= 255,
    ;
    assert(2 * (len - 1) * percent == 2 * (steps * percent)) by (nonlinear_arith)
        requires
            steps == len - 1,
    ;
    let rank: u128 = (2 * (steps * percent as u128) + 100) / 200;
    if rank < len as u128 {
        rank as usize
    } else {
        len - 1
    }
}

/// A percentile of sorted numbers. Of none it is 0.
pub fn percentile_u64(sorted: &Vec<u64>, percent: u8) -> (r: u64)
    ensures
        r == percentile(sorted@, percent as nat, 0),
{
    if sorted.len() == 0 {
        return 0;
    }
    sorted[percentile_index(sorted.len(), percent)]
}

/// A percentile of sorted weights. Of none it is zero.
pub fn percentile_weight(sorted: &Vec<Weight>, percent: u8) -> (r: Weight)
    ensures
        r == percentile(sorted@, percent as nat, Weight { bits: 0 }),
{
    if sorted.len() == 0 {
        return Weight::zero();
    }
    sorted[percentile_index(sorted.len(), percent)]
}

fn number_summary(values: &Vec<u64>) -> (r: (u64, u64, u64))
    ensures
        number_figures(values@, r.0, r.1, r.2),
{
    let sorted = sort_numbers(values);
    let max: u64 = if sorted.len() == 0 {
        0
    } else {
        sorted[sorted.len() - 1]
    };
    (percentile_u64(&sorted, 50), percentile_u64(&sorted, 95), max)
}

fn weight_summary(values: &Vec<Weight>) -> (r: (Weight, Weight, Weight))
    ensures
        weight_figures(values@, r.0, r.1, r.2),
{
    let sorted = sort_weights(values);
    let max = if sorted.len() == 0 {
        Weight::zero()
    } else {
        sorted[sorted.len() - 1]
    };
    (percentile_weight(&sorted, 50), percentile_weight(&sorted, 95), max)
}

/// Works out the figures of a scorer file.
pub fn build_summary(
    label: String,
    file_size_bytes: u64,
    diagnostics: &Vec<ChannelLiquidityDiagnostic>,
) -> (r: Summary)
    ensures
        summarizes(r, label@, file_size_bytes, diagnostics@),
{
    let ghost has = |d: ChannelLiquidityDiagnostic| d.has_history;
    let mut populated_count: usize = 0;
    let mut mins: Vec<u64> = Vec::new();
    let mut maxs: Vec<u64> = Vec::new();
    let mut windows: Vec<u64> = Vec::new();
    let mut weights: Vec<Weight> = Vec::new();
    let mut i: usize = 0;
    while i < diagnostics.len()
        invariant
            i <= diagnostics@.len(),
            has == |d: ChannelLiquidityDiagnostic| d.has_history,
            populated_count <= i,
            populated_count == diagnostics@.take(i as int).filter(has).len(),
            mins@ == diagnostics@.take(i as int).map_values(
                |d: ChannelLiquidityDiagnostic| d.min_liquidity_offset_msat,
            ),
            maxs@ == diagnostics@.take(i as int).map_values(
                |d: ChannelLiquidityDiagnostic| d.max_liquidity_offset_msat,
            ),
            windows@ == diagnostics@.take(i as int).map_values(
                |d: ChannelLiquidityDiagnostic| d.window() as u64,
            ),
            weights@ == diagnostics@.take(i as int).map_values(
                |d: ChannelLiquidityDiagnostic| d.total_valid_points_tracked,
            ),
        decreases diagnostics@.len() - i,
    {
        proof {
            reveal(Seq::filter);
            assert(diagnostics@.take(i + 1).drop_last() =~= diagnostics@.take(i as int));
        }
        let diag = diagnostics[i];
        if diag.has_history {
            populated_count = populated_count + 1;
        }
        mins.push(diag.min_liquidity_offset_msat);
        maxs.push(diag.max_liquidity_offset_msat);
        windows.push(offset_window_msat(&diag));
        weights.push(diag.total_valid_points_tracked);
        i = i + 1;
    }
    assert(diagnostics@.take(i as int) =~= diagnostics@);
    let (min_p50, min_p95, min_max) = number_summary(&mins);
    let (max_p50, max_p95, max_max) = number_summary(&maxs);
    let (window_p50, window_p95, window_max) = number_summary(&windows);
    let (weight_p50, weight_p95, weight_max) = weight_summary(&weights);
    Summary {
        label,
        file_size_bytes,
        file_size_human: size::format_binary_size(file_size_bytes),
        entry_count: diagnostics.len(),
        history_populated_count: populated_count,
        history_empty_count: diagnostics.len() - populated_count,
        min_offset_msat_p50: min_p50,
        min_offset_msat_p95: min_p95,
        min_offset_msat_max: min_max,
        max_offset_msat_p50: max_p50,
        max_offset_msat_p95: max_p95,
        max_offset_msat_max: max_max,
        offset_window_msat_p50: window_p50,
        offset_window_msat_p95: window_p95,
        offset_window_msat_max: window_max,
        total_valid_points_tracked_p50: weight_p50,
        total_valid_points_tracked_p95: weight_p95,
        total_valid_points_tracked_max: weight_max,
    }
}

proof fn lemma_figures_ascend<T>(
    values: Seq<T>,
    leq: spec_fn(T, T) -> bool,
    absent: T,
    p50: T,
    p95: T,
    max: T,
)
    requires
        vstd::relations::total_ordering(leq),
        figures(values, leq, absent, p50, p95, max),
        values.len() > 0,
    ensures
        leq(p50, p95),
        leq(p95, max),
        values.contains(p50),
        values.contains(p95),
        values.contains(max),
        forall|i: int| 0 <= i < values.len() ==> leq(#[trigger] values[i], max),
{
    broadcast use vstd::seq_lib::group_to_multiset_ensures;

    let sorted = values.sort_by(leq);
    values.lemma_sort_by_ensures(leq);
    lemma_sorting_keeps_the_length(values, leq);
    let n = values.len();
    let low = percentile_rank(n, 50);
    let high = percentile_rank(n, 95);
    assert(low <= high < n);
    assert(leq(sorted[low as int], sorted[high as int]));
    assert(leq(sorted[high as int], sorted[n - 1]));
    assert forall|i: int| 0 <= i < sorted.len() implies values.contains(#[trigger] sorted[i]) by {
        assert(sorted.contains(sorted[i]));
        assert(values.to_multiset().count(sorted[i]) > 0);
    }
    assert(p50 == sorted[low as int]);
    assert(p95 == sorted[high as int]);
    assert(max == sorted[n - 1]);
    assert forall|i: int| 0 <= i < values.len() implies leq(#[trigger] values[i], max) by {
        assert(values.contains(values[i]));
        assert(sorted.to_multiset().count(values[i]) > 0);
        let k = choose|k: int| 0 <= k < sorted.len() && sorted[k] == values[i];
        assert(leq(sorted[k], sorted[n - 1]));
    }
}

proof fn lemma_figures_ignore_order<T>(
    values: Seq<T>,
    rearranged: Seq<T>,
    leq: spec_fn(T, T) -> bool,
)
    requires
        vstd::relations::total_ordering(leq),
        order::is_rearrangement(values, rearranged),
    ensures
        values.sort_by(leq) == rearranged.sort_by(leq),
{
    order::rearranging_keeps_items(values, rearranged);
    values.lemma_sort_by_ensures(leq);
    rearranged.lemma_sort_by_ensures(leq);
    vstd::seq_lib::lemma_sorted_unique(values.sort_by(leq), rearranged.sort_by(leq), leq);
}

/// The median of numbers is at most their 95th percentile, which is at most their maximum. All
/// three are among the numbers, and none of these is above the maximum.
pub proof fn number_figures_ascend(values: Seq<u64>, p50: u64, p95: u64, max: u64)
    requires
        number_figures(values, p50, p95, max),
        values.len() > 0,
    ensures
        p50 <= p95 <= max,
        values.contains(p50),
        values.contains(p95),
        values.contains(max),
        forall|i: int| 0 <= i < values.len() ==> #[trigger] values[i] <= max,
{
    lemma_number_order();
    lemma_figures_ascend(values, number_order(), 0, p50, p95, max);
    assert forall|i: int| 0 <= i < values.len() implies #[trigger] values[i] <= max by {
        assert(number_order()(values[i], max));
    }
}

/// The figures of numbers do not depend on the order that the numbers come in.
pub proof fn number_figures_ignore_order(
    values: Seq<u64>,
    rearranged: Seq<u64>,
    p50: u64,
    p95: u64,
    max: u64,
)
    requires
        order::is_rearrangement(values, rearranged),
        number_figures(values, p50, p95, max),
    ensures
        number_figures(rearranged, p50, p95, max),
{
    lemma_number_order();
    lemma_figures_ignore_order(values, rearranged, number_order());
}

/// The median of weights is at most their 95th percentile, which is at most their maximum, by the
/// order of all weights and by value. All three are among the weights, and none of these is above
/// the maximum.
pub proof fn weight_figures_ascend(values: Seq<Weight>, p50: Weight, p95: Weight, max: Weight)
    requires
        weight_figures(values, p50, p95, max),
        values.len() > 0,
    ensures
        p50.rank() <= p95.rank() <= max.rank(),
        p50.versus(p95) != Comparison::Greater,
        p95.versus(max) != Comparison::Greater,
        values.contains(p50),
        values.contains(p95),
        values.contains(max),
        forall|i: int| 0 <= i < values.len() ==> (#[trigger] values[i]).versus(max)
            != Comparison::Greater,
{
    lemma_weight_order();
    lemma_figures_ascend(values, weight_order(), Weight { bits: 0 }, p50, p95, max);
    weight::ranks_keep_to_values(p50, p95);
    weight::ranks_keep_to_values(p95, max);
    assert forall|i: int| 0 <= i < values.len() implies (#[trigger] values[i]).versus(max)
        != Comparison::Greater by {
        assert(weight_order()(values[i], max));
        weight::ranks_keep_to_values(values[i], max);
    }
}

/// The figures of weights do not depend on the order that the weights come in.
pub proof fn weight_figures_ignore_order(
    values: Seq<Weight>,
    rearranged: Seq<Weight>,
    p50: Weight,
    p95: Weight,
    max: Weight,
)
    requires
        order::is_rearrangement(values, rearranged),
        weight_figures(values, p50, p95, max),
    ensures
        weight_figures(rearranged, p50, p95, max),
{
    lemma_weight_order();
    lemma_figures_ignore_order(values, rearranged, weight_order());
}

/// Two summaries of the same entries, of files of the same size and label, say the same.
pub proof fn summaries_of_the_same_agree(
    one: Summary,
    other: Summary,
    label: Seq<char>,
    file_size_bytes: u64,
    diagnostics: Seq<ChannelLiquidityDiagnostic>,
)
    requires
        summarizes(one, label, file_size_bytes, diagnostics),
        summarizes(other, label, file_size_bytes, diagnostics),
    ensures
        agree(one, other),
{
}

proof fn lemma_filter_whole<T>(s: Seq<T>, p: spec_fn(T) -> bool)
    requires
        forall|i: int| 0 <= i < s.len() ==> p(#[trigger] s[i]),
    ensures
        s.filter(p).len() == s.len(),
    decreases s.len(),
{
    reveal(Seq::filter);
    if s.len() > 0 {
        assert forall|i: int| 0 <= i < s.len() - 1 implies p(#[trigger] s.drop_last()[i]) by {
            assert(p(s[i]));
        }
        lemma_filter_whole(s.drop_last(), p);
        assert(p(s[s.len() - 1]));
    }
}

proof fn lemma_filter_nothing<T>(s: Seq<T>, p: spec_fn(T) -> bool)
    requires
        forall|i: int| 0 <= i < s.len() ==> !p(#[trigger] s[i]),
    ensures
        s.filter(p).len() == 0,
    decreases s.len(),
{
    reveal(Seq::filter);
    if s.len() > 0 {
        assert forall|i: int| 0 <= i < s.len() - 1 implies !p(#[trigger] s.drop_last()[i]) by {
            assert(!p(s[i]));
        }
        lemma_filter_nothing(s.drop_last(), p);
        assert(!p(s[s.len() - 1]));
    }
}

proof fn lemma_filter_of_two<T>(a: Seq<T>, b: Seq<T>, p: spec_fn(T) -> bool)
    ensures
        (a + b).filter(p).len() == a.filter(p).len() + b.filter(p).len(),
{
    Seq::filter_distributes_over_add(a, b, p);
}

proof fn lemma_filter_in_any_order<T>(a: Seq<T>, b: Seq<T>, p: spec_fn(T) -> bool)
    requires
        a.to_multiset() == b.to_multiset(),
    ensures
        a.filter(p).len() == b.filter(p).len(),
    decreases a.len(),
{
    broadcast use vstd::seq_lib::group_to_multiset_ensures;
    broadcast use vstd::multiset::group_multiset_axioms;

    assert(a.to_multiset().len() == a.len());
    assert(b.to_multiset().len() == b.len());
    if a.len() == 0 {
        assert(a =~= b);
    } else {
        let x = a.last();
        let init = a.drop_last();
        assert(a.contains(x)) by {
            assert(a[a.len() - 1] == x);
        }
        assert(b.to_multiset().count(x) > 0);
        let k = choose|k: int| 0 <= k < b.len() && b[k] == x;
        let rest = b.remove(k);
        assert(a =~= init.push(x));
        assert(init.to_multiset() =~= a.to_multiset().remove(x));
        assert(rest.to_multiset() =~= b.to_multiset().remove(x));
        lemma_filter_in_any_order(init, rest, p);
        let one = seq![x];
        let front = b.take(k);
        let back = b.skip(k + 1);
        assert(a =~= init + one);
        assert(rest =~= front + back);
        assert(b =~= front + one + back);
        lemma_filter_of_two(init, one, p);
        lemma_filter_of_two(front, back, p);
        lemma_filter_of_two(front, one, p);
        lemma_filter_of_two(front + one, back, p);
    }
}

proof fn lemma_filter_by_key<T, U>(
    s: Seq<T>,
    f: spec_fn(T) -> U,
    p: spec_fn(U) -> bool,
    q: spec_fn(T) -> bool,
)
    requires
        forall|x: T| #[trigger] q(x) == p(f(x)),
    ensures
        s.map_values(f).filter(p).len() == s.filter(q).len(),
    decreases s.len(),
{
    reveal(Seq::filter);
    if s.len() > 0 {
        lemma_filter_by_key(s.drop_last(), f, p, q);
        assert(s.map_values(f).drop_last() =~= s.drop_last().map_values(f));
        assert(q(s.last()) == p(f(s.last())));
    }
}

proof fn lemma_sorted_counts<T>(sorted: Seq<T>, leq: spec_fn(T, T) -> bool, r: int)
    requires
        vstd::relations::total_ordering(leq),
        vstd::relations::sorted_by(sorted, leq),
        0 <= r < sorted.len(),
    ensures
        sorted.filter(|x: T| !leq(sorted[r], x)).len() <= r,
        r < sorted.filter(|x: T| leq(x, sorted[r])).len(),
{
    let below = |x: T| !leq(sorted[r], x);
    let up_to = |x: T| leq(x, sorted[r]);
    assert(sorted =~= sorted.take(r) + sorted.skip(r));
    lemma_filter_of_two(sorted.take(r), sorted.skip(r), below);
    assert forall|i: int| 0 <= i < sorted.skip(r).len() implies !below(
        #[trigger] sorted.skip(r)[i],
    ) by {
        if i > 0 {
            assert(leq(sorted[r], sorted[r + i]));
        } else {
            assert(leq(sorted[r], sorted[r]));
        }
    }
    lemma_filter_nothing(sorted.skip(r), below);
    sorted.take(r).lemma_filter_len(below);
    assert(sorted =~= sorted.take(r + 1) + sorted.skip(r + 1));
    lemma_filter_of_two(sorted.take(r + 1), sorted.skip(r + 1), up_to);
    assert forall|i: int| 0 <= i < sorted.take(r + 1).len() implies up_to(
        #[trigger] sorted.take(r + 1)[i],
    ) by {
        if i < r {
            assert(leq(sorted[i], sorted[r]));
        } else {
            assert(leq(sorted[r], sorted[r]));
        }
    }
    lemma_filter_whole(sorted.take(r + 1), up_to);
}

/// Whether a value stands nearest to so many hundredths of the way through entries that are
/// ordered by a key, halves going up: at most as many entries as that lie below it, and more than
/// that lie up to it.
pub open spec fn is_percentile_of(
    diagnostics: Seq<ChannelLiquidityDiagnostic>,
    key: spec_fn(ChannelLiquidityDiagnostic) -> int,
    percent: int,
    value: int,
) -> bool {
    exists|place: int|
        {
            &&& -50 < 100 * place - percent * (diagnostics.len() - 1) <= 50
            &&& #[trigger] splits_entries(diagnostics, key, place, value)
        }
}

/// Whether at most so many entries lie below a value, and more than that lie up to it.
pub open spec fn splits_entries(
    diagnostics: Seq<ChannelLiquidityDiagnostic>,
    key: spec_fn(ChannelLiquidityDiagnostic) -> int,
    place: int,
    value: int,
) -> bool {
    &&& diagnostics.filter(|d: ChannelLiquidityDiagnostic| key(d) < value).len() <= place
    &&& place < diagnostics.filter(|d: ChannelLiquidityDiagnostic| key(d) <= value).len()
}

/// Whether a value is the largest that entries have for a key.
pub open spec fn is_maximum_of(
    diagnostics: Seq<ChannelLiquidityDiagnostic>,
    key: spec_fn(ChannelLiquidityDiagnostic) -> int,
    value: int,
) -> bool {
    &&& forall|i: int| 0 <= i < diagnostics.len() ==> key(#[trigger] diagnostics[i]) <= value
    &&& exists|i: int| 0 <= i < diagnostics.len() && key(#[trigger] diagnostics[i]) == value
}

proof fn lemma_percentile_of<T>(
    diagnostics: Seq<ChannelLiquidityDiagnostic>,
    f: spec_fn(ChannelLiquidityDiagnostic) -> T,
    leq: spec_fn(T, T) -> bool,
    place_of: spec_fn(T) -> int,
    key: spec_fn(ChannelLiquidityDiagnostic) -> int,
    absent: T,
    percent: nat,
    value: T,
)
    requires
        vstd::relations::total_ordering(leq),
        forall|a: T, b: T| #[trigger] leq(a, b) == (place_of(a) <= place_of(b)),
        forall|d: ChannelLiquidityDiagnostic| #[trigger] key(d) == place_of(f(d)),
        diagnostics.len() > 0,
        percent <= 100,
        value == percentile(diagnostics.map_values(f).sort_by(leq), percent, absent),
    ensures
        is_percentile_of(diagnostics, key, percent as int, place_of(value)),
{
    broadcast use vstd::seq_lib::group_to_multiset_ensures;

    let values = diagnostics.map_values(f);
    let sorted = values.sort_by(leq);
    values.lemma_sort_by_ensures(leq);
    lemma_sorting_keeps_the_length(values, leq);
    let n = diagnostics.len() as int;
    assert(0 <= (n - 1) * percent <= (n - 1) * 100) by (nonlinear_arith)
        requires
            n >= 1,
            0 <= percent <= 100,
    ;
    assert(2 * (n - 1) * percent == 2 * ((n - 1) * percent)) by (nonlinear_arith);
    assert((n - 1) * percent == percent * (n - 1)) by (nonlinear_arith);
    let r = percentile_rank(n as nat, percent) as int;
    assert(0 <= r < n);
    assert(value == sorted[r]);
    lemma_sorted_counts(sorted, leq, r);
    let below = |x: T| !leq(sorted[r], x);
    let up_to = |x: T| leq(x, sorted[r]);
    lemma_filter_in_any_order(sorted, values, below);
    lemma_filter_in_any_order(sorted, values, up_to);
    let v = place_of(value);
    let key_below = |d: ChannelLiquidityDiagnostic| key(d) < v;
    let key_up_to = |d: ChannelLiquidityDiagnostic| key(d) <= v;
    assert forall|d: ChannelLiquidityDiagnostic| #[trigger] key_below(d) == below(f(d)) by {
        assert(key(d) == place_of(f(d)));
    }
    assert forall|d: ChannelLiquidityDiagnostic| #[trigger] key_up_to(d) == up_to(f(d)) by {
        assert(key(d) == place_of(f(d)));
    }
    lemma_filter_by_key(diagnostics, f, below, key_below);
    lemma_filter_by_key(diagnostics, f, up_to, key_up_to);
    assert(splits_entries(diagnostics, key, r, v));
}

proof fn lemma_maximum_of<T>(
    diagnostics: Seq<ChannelLiquidityDiagnostic>,
    f: spec_fn(ChannelLiquidityDiagnostic) -> T,
    leq: spec_fn(T, T) -> bool,
    place_of: spec_fn(T) -> int,
    key: spec_fn(ChannelLiquidityDiagnostic) -> int,
    absent: T,
    p50: T,
    p95: T,
    max: T,
)
    requires
        vstd::relations::total_ordering(leq),
        forall|a: T, b: T| #[trigger] leq(a, b) == (place_of(a) <= place_of(b)),
        forall|d: ChannelLiquidityDiagnostic| #[trigger] key(d) == place_of(f(d)),
        diagnostics.len() > 0,
        figures(diagnostics.map_values(f), leq, absent, p50, p95, max),
    ensures
        is_maximum_of(diagnostics, key, place_of(max)),
{
    let values = diagnostics.map_values(f);
    lemma_figures_ascend(values, leq, absent, p50, p95, max);
    assert forall|i: int| 0 <= i < diagnostics.len() implies key(#[trigger] diagnostics[i])
        <= place_of(max) by {
        assert(leq(values[i], max));
        assert(key(diagnostics[i]) == place_of(f(diagnostics[i])));
    }
    let k = choose|k: int| 0 <= k < values.len() && values[k] == max;
    assert(key(diagnostics[k]) == place_of(f(diagnostics[k])));
}

proof fn lemma_number_figures_of(
    diagnostics: Seq<ChannelLiquidityDiagnostic>,
    f: spec_fn(ChannelLiquidityDiagnostic) -> u64,
    key: spec_fn(ChannelLiquidityDiagnostic) -> int,
    p50: u64,
    p95: u64,
    max: u64,
)
    requires
        number_figures(diagnostics.map_values(f), p50, p95, max),
        diagnostics.len() > 0,
        forall|d: ChannelLiquidityDiagnostic| #[trigger] key(d) == f(d) as int,
    ensures
        is_percentile_of(diagnostics, key, 50, p50 as int),
        is_percentile_of(diagnostics, key, 95, p95 as int),
        is_maximum_of(diagnostics, key, max as int),
{
    let place_of = |x: u64| x as int;
    let leq = number_order();
    lemma_number_order();
    lemma_percentile_of(diagnostics, f, leq, place_of, key, 0, 50, p50);
    lemma_percentile_of(diagnostics, f, leq, place_of, key, 0, 95, p95);
    lemma_maximum_of(diagnostics, f, leq, place_of, key, 0, p50, p95, max);
}

/// The figures of a summary are the percentiles and the maxima of what they are named after: the
/// lower offsets, the upper offsets, the windows and the weights of the entries.
pub proof fn figures_are_of_their_fields(
    summary: Summary,
    label: Seq<char>,
    file_size_bytes: u64,
    diagnostics: Seq<ChannelLiquidityDiagnostic>,
)
    requires
        summarizes(summary, label, file_size_bytes, diagnostics),
        diagnostics.len() > 0,
    ensures
        is_percentile_of(
            diagnostics,
            |d: ChannelLiquidityDiagnostic| d.min_liquidity_offset_msat as int,
            50,
            summary.min_offset_msat_p50 as int,
        ),
        is_percentile_of(
            diagnostics,
            |d: ChannelLiquidityDiagnostic| d.min_liquidity_offset_msat as int,
            95,
            summary.min_offset_msat_p95 as int,
        ),
        is_maximum_of(
            diagnostics,
            |d: ChannelLiquidityDiagnostic| d.min_liquidity_offset_msat as int,
            summary.min_offset_msat_max as int,
        ),
        is_percentile_of(
            diagnostics,
            |d: ChannelLiquidityDiagnostic| d.max_liquidity_offset_msat as int,
            50,
            summary.max_offset_msat_p50 as int,
        ),
        is_percentile_of(
            diagnostics,
            |d: ChannelLiquidityDiagnostic| d.max_liquidity_offset_msat as int,
            95,
            summary.max_offset_msat_p95 as int,
        ),
        is_maximum_of(
            diagnostics,
            |d: ChannelLiquidityDiagnostic| d.max_liquidity_offset_msat as int,
            summary.max_offset_msat_max as int,
        ),
        is_percentile_of(
            diagnostics,
            |d: ChannelLiquidityDiagnostic| d.window() as int,
            50,
            summary.offset_window_msat_p50 as int,
        ),
        is_percentile_of(
            diagnostics,
            |d: ChannelLiquidityDiagnostic| d.window() as int,
            95,
            summary.offset_window_msat_p95 as int,
        ),
        is_maximum_of(
            diagnostics,
            |d: ChannelLiquidityDiagnostic| d.window() as int,
            summary.offset_window_msat_max as int,
        ),
        is_percentile_of(
            diagnostics,
            |d: ChannelLiquidityDiagnostic| d.total_valid_points_tracked.rank(),
            50,
            summary.total_valid_points_tracked_p50.rank(),
        ),
        is_percentile_of(
            diagnostics,
            |d: ChannelLiquidityDiagnostic| d.total_valid_points_tracked.rank(),
            95,
            summary.total_valid_points_tracked_p95.rank(),
        ),
        is_maximum_of(
            diagnostics,
            |d: ChannelLiquidityDiagnostic| d.total_valid_points_tracked.rank(),
            summary.total_valid_points_tracked_max.rank(),
        ),
{
    lemma_number_figures_of(
        diagnostics,
        |d: ChannelLiquidityDiagnostic| d.min_liquidity_offset_msat,
        |d: ChannelLiquidityDiagnostic| d.min_liquidity_offset_msat as int,
        summary.min_offset_msat_p50,
        summary.min_offset_msat_p95,
        summary.min_offset_msat_max,
    );
    lemma_number_figures_of(
        diagnostics,
        |d: ChannelLiquidityDiagnostic| d.max_liquidity_offset_msat,
        |d: ChannelLiquidityDiagnostic| d.max_liquidity_offset_msat as int,
        summary.max_offset_msat_p50,
        summary.max_offset_msat_p95,
        summary.max_offset_msat_max,
    );
    lemma_number_figures_of(
        diagnostics,
        |d: ChannelLiquidityDiagnostic| d.window() as u64,
        |d: ChannelLiquidityDiagnostic| d.window() as int,
        summary.offset_window_msat_p50,
        summary.offset_window_msat_p95,
        summary.offset_window_msat_max,
    );
    let weight_of = |d: ChannelLiquidityDiagnostic| d.total_valid_points_tracked;
    let key = |d: ChannelLiquidityDiagnostic| d.total_valid_points_tracked.rank();
    let place_of = |w: Weight| w.rank();
    let leq = weight_order();
    let zero = Weight { bits: 0 };
    let p50 = summary.total_valid_points_tracked_p50;
    let p95 = summary.total_valid_points_tracked_p95;
    let max = summary.total_valid_points_tracked_max;
    lemma_weight_order();
    lemma_percentile_of(diagnostics, weight_of, leq, place_of, key, zero, 50, p50);
    lemma_percentile_of(diagnostics, weight_of, leq, place_of, key, zero, 95, p95);
    lemma_maximum_of(diagnostics, weight_of, leq, place_of, key, zero, p50, p95, max);
}

proof fn lemma_sorting_keeps_the_length<T>(values: Seq<T>, leq: spec_fn(T, T) -> bool)
    requires
        vstd::relations::total_ordering(leq),
    ensures
        values.sort_by(leq).len() == values.len(),
{
    broadcast use vstd::seq_lib::group_to_multiset_ensures;

    values.lemma_sort_by_ensures(leq);
    assert(values.to_multiset().len() == values.len());
    assert(values.sort_by(leq).to_multiset().len() == values.sort_by(leq).len());
}

/// The figures of a file without entries are zero.
pub proof fn figures_of_nothing_are_zero(summary: Summary, label: Seq<char>, file_size_bytes: u64)
    requires
        summarizes(summary, label, file_size_bytes, Seq::empty()),
    ensures
        summary.entry_count == 0,
        summary.history_populated_count == 0,
        summary.history_empty_count == 0,
        summary.min_offset_msat_p50 == 0,
        summary.min_offset_msat_p95 == 0,
        summary.min_offset_msat_max == 0,
        summary.max_offset_msat_p50 == 0,
        summary.max_offset_msat_p95 == 0,
        summary.max_offset_msat_max == 0,
        summary.offset_window_msat_p50 == 0,
        summary.offset_window_msat_p95 == 0,
        summary.offset_window_msat_max == 0,
        summary.total_valid_points_tracked_p50.value() == 0,
        summary.total_valid_points_tracked_p95.value() == 0,
        summary.total_valid_points_tracked_max.value() == 0,
{
    reveal(Seq::filter);
    lemma_number_order();
    lemma_weight_order();
    let none = Seq::<ChannelLiquidityDiagnostic>::empty();
    assert(none.map_values(|d: ChannelLiquidityDiagnostic| d.min_liquidity_offset_msat)
        =~= Seq::<u64>::empty());
    assert(none.map_values(|d: ChannelLiquidityDiagnostic| d.max_liquidity_offset_msat)
        =~= Seq::<u64>::empty());
    assert(none.map_values(|d: ChannelLiquidityDiagnostic| d.window() as u64)
        =~= Seq::<u64>::empty());
    assert(entry_weights(none) =~= Seq::<Weight>::empty());
    lemma_sorting_keeps_the_length(Seq::<u64>::empty(), number_order());
    lemma_sorting_keeps_the_length(Seq::<Weight>::empty(), weight_order());
}

/// A summary names its file and its size, and counts every entry once, as one with a history or as
/// one without: one more entry adds to the count that it belongs to.
pub proof fn every_entry_is_counted(
    summary: Summary,
    longer: Summary,
    label: Seq<char>,
    file_size_bytes: u64,
    diagnostics: Seq<ChannelLiquidityDiagnostic>,
    next: ChannelLiquidityDiagnostic,
)
    requires
        summarizes(summary, label, file_size_bytes, diagnostics),
        summarizes(longer, label, file_size_bytes, diagnostics.push(next)),
    ensures
        summary.label@ == label,
        summary.file_size_bytes == file_size_bytes,
        summary.file_size_human@ == size::human_size(file_size_bytes),
        summary.entry_count == diagnostics.len(),
        summary.history_populated_count + summary.history_empty_count == summary.entry_count,
        next.has_history ==> longer.history_populated_count == summary.history_populated_count + 1
            && longer.history_empty_count == summary.history_empty_count,
        !next.has_history ==> longer.history_empty_count == summary.history_empty_count + 1
            && longer.history_populated_count == summary.history_populated_count,
{
    reveal(Seq::filter);
    assert(diagnostics.push(next).drop_last() =~= diagnostics);
}

/// A percentile of sorted values is the one nearest to so many hundredths of the way from the
/// first to the last, halves going up. All the way, it is the last one; of none, it is what stands
/// for none.
pub proof fn percentiles_are_nearest<T>(sorted: Seq<T>, percent: nat, absent: T, place: int)
    requires
        percent <= 100,
        -50 < 100 * place - percent * (sorted.len() - 1) <= 50,
    ensures
        sorted.len() > 0 ==> 0 <= place < sorted.len() && percentile(sorted, percent, absent)
            == sorted[place],
        sorted.len() > 0 ==> percentile(sorted, 100, absent) == sorted.last(),
        sorted.len() > 0 ==> percentile(sorted, 0, absent) == sorted.first(),
        sorted.len() == 0 ==> percentile(sorted, percent, absent) == absent,
{
    let n = sorted.len() as int;
    if n > 0 {
        assert(0 <= (n - 1) * percent <= (n - 1) * 100) by (nonlinear_arith)
            requires
                n >= 1,
                0 <= percent <= 100,
        ;
        assert(2 * (n - 1) * percent == 2 * ((n - 1) * percent)) by (nonlinear_arith);
        assert((n - 1) * percent == percent * (n - 1)) by (nonlinear_arith);
        assert(percentile_rank(n as nat, percent) == place);
    }
}

} // verus!
