//! What a scorer knows of one channel, and how two such entries compare.
use crate::order::Comparison;
use crate::weight::Weight;
use vstd::prelude::*;

verus! {

/// The number of buckets in which a history is kept.
pub const BUCKETS: usize = 32;

/// One channel's entry in a scorer file.
#[derive(Clone, Copy, Debug)]
pub struct ChannelLiquidityDiagnostic {
    pub scid: u64,
    pub min_liquidity_offset_msat: u64,
    pub max_liquidity_offset_msat: u64,
    pub last_updated_secs: u64,
    pub offset_history_last_updated_secs: u64,
    pub last_datapoint_time_secs: u64,
    pub has_history: bool,
    pub total_valid_points_tracked: Weight,
    pub min_history_buckets: [u16; 32],
    pub max_history_buckets: [u16; 32],
}

/// The sum of a row of buckets.
pub open spec fn bucket_total(buckets: Seq<u16>) -> nat
    decreases buckets.len(),
{
    if buckets.len() == 0 {
        0
    } else {
        bucket_total(buckets.drop_last()) + buckets.last() as nat
    }
}

impl ChannelLiquidityDiagnostic {
    /// The sum of all its history buckets.
    pub open spec fn bucket_sum(self) -> nat {
        bucket_total(self.min_history_buckets@) + bucket_total(self.max_history_buckets@)
    }

    /// The width of the window between its liquidity offsets, 0 where they cross.
    pub open spec fn window(self) -> nat {
        if self.min_liquidity_offset_msat < self.max_liquidity_offset_msat {
            (self.max_liquidity_offset_msat - self.min_liquidity_offset_msat) as nat
        } else {
            0
        }
    }

    /// The latest of its timestamps.
    pub open spec fn latest(self) -> u64 {
        if self.last_updated_secs >= self.offset_history_last_updated_secs
            && self.last_updated_secs >= self.last_datapoint_time_secs {
            self.last_updated_secs
        } else if self.offset_history_last_updated_secs >= self.last_datapoint_time_secs {
            self.offset_history_last_updated_secs
        } else {
            self.last_datapoint_time_secs
        }
    }
}

/// How two entries compare by the time of their last datapoint, then by when they and their
/// histories were last updated.
pub open spec fn recency(
    left: ChannelLiquidityDiagnostic,
    right: ChannelLiquidityDiagnostic,
) -> Comparison {
    Comparison::of(
        left.last_datapoint_time_secs as int,
        right.last_datapoint_time_secs as int,
    ).or_by(
        Comparison::of(left.last_updated_secs as int, right.last_updated_secs as int).or_by(
            Comparison::of(
                left.offset_history_last_updated_secs as int,
                right.offset_history_last_updated_secs as int,
            ),
        ),
    )
}

/// How two entries compare by the strength of their historical signal: that there is one, its
/// weight, its buckets, its recency, and last the narrower window.
pub open spec fn richness(
    left: ChannelLiquidityDiagnostic,
    right: ChannelLiquidityDiagnostic,
) -> Comparison {
    Comparison::of_flags(left.has_history, right.has_history).or_by(
        left.total_valid_points_tracked.versus(right.total_valid_points_tracked).or_by(
            Comparison::of(left.bucket_sum() as int, right.bucket_sum() as int).or_by(
                recency(left, right).or_by(
                    Comparison::of(right.window() as int, left.window() as int),
                ),
            ),
        ),
    )
}

/// A row of buckets adds up to at most the largest bucket as often as there are buckets.
proof fn lemma_bucket_total_bound(buckets: Seq<u16>)
    ensures
        bucket_total(buckets) <= buckets.len() * 0xffff,
    decreases buckets.len(),
{
    if buckets.len() > 0 {
        lemma_bucket_total_bound(buckets.drop_last());
    }
}

/// The history buckets of an entry add up to a number that fits its report.
pub proof fn bucket_sum_fits(diag: ChannelLiquidityDiagnostic)
    ensures
        diag.bucket_sum() <= 64 * 0xffff,
        diag.bucket_sum() <= u64::MAX,
{
    lemma_bucket_total_bound(diag.min_history_buckets@);
    lemma_bucket_total_bound(diag.max_history_buckets@);
}

fn sum_buckets(buckets: &[u16; 32]) -> (r: u64)
    ensures
        r == bucket_total(buckets@),
        r <= 32 * 0xffff,
{
    let mut sum: u64 = 0;
    let mut i: usize = 0;
    while i < BUCKETS
        invariant
            i <= BUCKETS,
            buckets@.len() == BUCKETS,
            sum == bucket_total(buckets@.take(i as int)),
            sum <= i * 0xffff,
        decreases BUCKETS - i,
    {
        assert(buckets@.take(i + 1).drop_last() =~= buckets@.take(i as int));
        sum = sum + buckets[i] as u64;
        i = i + 1;
    }
    assert(buckets@.take(i as int) =~= buckets@);
    sum
}

/// Adds up the history buckets of an entry.
pub fn history_bucket_sum(diag: &ChannelLiquidityDiagnostic) -> (r: u64)
    ensures
        r == diag.bucket_sum(),
{
    sum_buckets(&diag.min_history_buckets) + sum_buckets(&diag.max_history_buckets)
}

/// The latest timestamp of an entry.
pub fn max_diagnostic_timestamp(diag: &ChannelLiquidityDiagnostic) -> (r: u64)
    ensures
        r == diag.latest(),
        r >= diag.last_updated_secs,
        r >= diag.offset_history_last_updated_secs,
        r >= diag.last_datapoint_time_secs,
{
    let mut latest: u64 = diag.last_updated_secs;
    if diag.offset_history_last_updated_secs > latest {
        latest = diag.offset_history_last_updated_secs;
    }
    if diag.last_datapoint_time_secs > latest {
        latest = diag.last_datapoint_time_secs;
    }
    latest
}

/// The width of the window between the liquidity offsets of an entry.
pub fn offset_window_msat(diag: &ChannelLiquidityDiagnostic) -> (r: u64)
    ensures
        r == diag.window(),
{
    diag.max_liquidity_offset_msat.saturating_sub(diag.min_liquidity_offset_msat)
}

/// Compares two entries by their offset windows.
pub fn compare_offset_window(
    left: &ChannelLiquidityDiagnostic,
    right: &ChannelLiquidityDiagnostic,
) -> (r: Comparison)
    ensures
        r == Comparison::of(left.window() as int, right.window() as int),
{
    Comparison::of_numbers(offset_window_msat(left), offset_window_msat(right))
}

/// Compares two entries by their recency.
pub fn compare_datapoint_time(
    left: &ChannelLiquidityDiagnostic,
    right: &ChannelLiquidityDiagnostic,
) -> (r: Comparison)
    ensures
        r == recency(*left, *right),
{
    Comparison::of_numbers(
        left.last_datapoint_time_secs,
        right.last_datapoint_time_secs,
    ).tie_break(
        Comparison::of_numbers(left.last_updated_secs, right.last_updated_secs).tie_break(
            Comparison::of_numbers(
                left.offset_history_last_updated_secs,
                right.offset_history_last_updated_secs,
            ),
        ),
    )
}

/// Compares two entries by the strength of their historical signal.
pub fn compare_history_richness(
    left: &ChannelLiquidityDiagnostic,
    right: &ChannelLiquidityDiagnostic,
) -> (r: Comparison)
    ensures
        r == richness(*left, *right),
{
    let by_flag = Comparison::of_bools(left.has_history, right.has_history);
    if by_flag != Comparison::Equal {
        return by_flag;
    }
    let by_weight = left.total_valid_points_tracked.compare(right.total_valid_points_tracked);
    if by_weight != Comparison::Equal {
        return by_weight;
    }
    let by_buckets = Comparison::of_numbers(history_bucket_sum(left), history_bucket_sum(right));
    by_buckets.tie_break(
        compare_datapoint_time(left, right).tie_break(compare_offset_window(right, left)),
    )
}

/// Exchanging two entries reverses how they compare, by recency and by richness.
pub proof fn comparing_reverses(
    left: ChannelLiquidityDiagnostic,
    right: ChannelLiquidityDiagnostic,
)
    ensures
        recency(left, right) == recency(right, left).reversed(),
        richness(left, right) == richness(right, left).reversed(),
{
}

/// Entries that are at least as recent as others are so through a third one in between.
pub proof fn recency_is_transitive(
    a: ChannelLiquidityDiagnostic,
    b: ChannelLiquidityDiagnostic,
    c: ChannelLiquidityDiagnostic,
)
    requires
        recency(a, b) != Comparison::Greater,
        recency(b, c) != Comparison::Greater,
    ensures
        recency(a, c) == recency(a, b).or_by(recency(b, c)),
{
}

/// Richness is transitive too, where every weight is a number.
pub proof fn richness_is_transitive(
    a: ChannelLiquidityDiagnostic,
    b: ChannelLiquidityDiagnostic,
    c: ChannelLiquidityDiagnostic,
)
    requires
        !a.total_valid_points_tracked.is_nan(),
        !b.total_valid_points_tracked.is_nan(),
        !c.total_valid_points_tracked.is_nan(),
        richness(a, b) != Comparison::Greater,
        richness(b, c) != Comparison::Greater,
    ensures
        richness(a, c) == richness(a, b).or_by(richness(b, c)),
{
}

/// The latest time of an entry is one of its times, and none of them is later.
pub proof fn the_latest_time_is_the_greatest(diag: ChannelLiquidityDiagnostic)
    ensures
        diag.latest() >= diag.last_updated_secs,
        diag.latest() >= diag.offset_history_last_updated_secs,
        diag.latest() >= diag.last_datapoint_time_secs,
        diag.latest() == diag.last_updated_secs || diag.latest()
            == diag.offset_history_last_updated_secs || diag.latest()
            == diag.last_datapoint_time_secs,
{
}

/// The window leads from the lower liquidity offset to the upper one. Where the offsets meet or
/// cross there is none.
pub proof fn the_window_spans_the_offsets(diag: ChannelLiquidityDiagnostic)
    ensures
        diag.min_liquidity_offset_msat <= diag.max_liquidity_offset_msat
            ==> diag.min_liquidity_offset_msat + diag.window() == diag.max_liquidity_offset_msat,
        diag.max_liquidity_offset_msat <= diag.min_liquidity_offset_msat ==> diag.window() == 0,
{
}

proof fn lemma_bucket_update(buckets: Seq<u16>, i: int, v: u16)
    requires
        0 <= i < buckets.len(),
    ensures
        bucket_total(buckets.update(i, v)) + buckets[i] == bucket_total(buckets) + v,
    decreases buckets.len(),
{
    let changed = buckets.update(i, v);
    if i < buckets.len() - 1 {
        lemma_bucket_update(buckets.drop_last(), i, v);
        assert(changed.drop_last() =~= buckets.drop_last().update(i, v));
    } else {
        assert(changed.drop_last() =~= buckets.drop_last());
    }
}

proof fn lemma_empty_buckets(buckets: Seq<u16>)
    requires
        forall|i: int| 0 <= i < buckets.len() ==> #[trigger] buckets[i] == 0,
    ensures
        bucket_total(buckets) == 0,
    decreases buckets.len(),
{
    if buckets.len() > 0 {
        assert forall|i: int| 0 <= i < buckets.len() - 1 implies #[trigger] buckets.drop_last()[i]
            == 0 by {
            assert(buckets[i] == 0);
        }
        lemma_empty_buckets(buckets.drop_last());
        assert(buckets[buckets.len() - 1] == 0);
    }
}

/// Every bucket of either row counts once: where two entries differ in one bucket alone, their
/// sums differ by just as much.
pub proof fn every_bucket_counts_once(
    one: ChannelLiquidityDiagnostic,
    other: ChannelLiquidityDiagnostic,
    i: int,
)
    requires
        0 <= i < 32,
    ensures
        one.max_history_buckets@ == other.max_history_buckets@ && other.min_history_buckets@
            == one.min_history_buckets@.update(i, other.min_history_buckets@[i])
            ==> other.bucket_sum() - one.bucket_sum() == other.min_history_buckets@[i]
            - one.min_history_buckets@[i],
        one.min_history_buckets@ == other.min_history_buckets@ && other.max_history_buckets@
            == one.max_history_buckets@.update(i, other.max_history_buckets@[i])
            ==> other.bucket_sum() - one.bucket_sum() == other.max_history_buckets@[i]
            - one.max_history_buckets@[i],
{
    lemma_bucket_update(one.min_history_buckets@, i, other.min_history_buckets@[i]);
    lemma_bucket_update(one.max_history_buckets@, i, other.max_history_buckets@[i]);
}

/// Buckets that hold nothing add up to nothing.
pub proof fn empty_buckets_add_up_to_nothing(diag: ChannelLiquidityDiagnostic)
    requires
        forall|i: int| 0 <= i < 32 ==> #[trigger] diag.min_history_buckets@[i] == 0,
        forall|i: int| 0 <= i < 32 ==> #[trigger] diag.max_history_buckets@[i] == 0,
    ensures
        diag.bucket_sum() == 0,
{
    lemma_empty_buckets(diag.min_history_buckets@);
    lemma_empty_buckets(diag.max_history_buckets@);
}

/// Recency is decided by the time of the last datapoint, then by that of the last update, then by
/// that of the last update of the history. Entries with the same times tie.
pub proof fn the_first_time_that_differs_decides(
    left: ChannelLiquidityDiagnostic,
    right: ChannelLiquidityDiagnostic,
)
    ensures
        left.last_datapoint_time_secs > right.last_datapoint_time_secs ==> recency(left, right)
            == Comparison::Greater,
        left.last_datapoint_time_secs < right.last_datapoint_time_secs ==> recency(left, right)
            == Comparison::Less,
        left.last_datapoint_time_secs == right.last_datapoint_time_secs ==> {
            &&& left.last_updated_secs > right.last_updated_secs ==> recency(left, right)
                == Comparison::Greater
            &&& left.last_updated_secs < right.last_updated_secs ==> recency(left, right)
                == Comparison::Less
            &&& left.last_updated_secs == right.last_updated_secs ==> {
                &&& left.offset_history_last_updated_secs > right.offset_history_last_updated_secs
                    ==> recency(left, right) == Comparison::Greater
                &&& left.offset_history_last_updated_secs < right.offset_history_last_updated_secs
                    ==> recency(left, right) == Comparison::Less
                &&& left.offset_history_last_updated_secs
                    == right.offset_history_last_updated_secs ==> recency(left, right)
                    == Comparison::Equal
            }
        },
{
}

/// Whether neither the history flags nor the weights nor the bucket sums of two entries tell them
/// apart.
pub open spec fn signals_tie(
    left: ChannelLiquidityDiagnostic,
    right: ChannelLiquidityDiagnostic,
) -> bool {
    &&& left.has_history == right.has_history
    &&& left.total_valid_points_tracked.versus(right.total_valid_points_tracked)
        == Comparison::Equal
    &&& left.bucket_sum() == right.bucket_sum()
}

/// Whether two entries have the same times.
pub open spec fn times_tie(
    left: ChannelLiquidityDiagnostic,
    right: ChannelLiquidityDiagnostic,
) -> bool {
    &&& left.last_datapoint_time_secs == right.last_datapoint_time_secs
    &&& left.last_updated_secs == right.last_updated_secs
    &&& left.offset_history_last_updated_secs == right.offset_history_last_updated_secs
}

/// An entry with a history is richer than one without. Where both have one, or neither, the first
/// of these that differs makes an entry the richer one, with a history or without: the larger
/// weight, the larger bucket sum, the later times, the narrower window.
pub proof fn the_first_signal_that_differs_decides(
    left: ChannelLiquidityDiagnostic,
    right: ChannelLiquidityDiagnostic,
)
    ensures
        left.has_history && !right.has_history ==> richness(left, right) == Comparison::Greater,
        !left.has_history && right.has_history ==> richness(left, right) == Comparison::Less,
        left.has_history == right.has_history ==> {
            let by_weight = left.total_valid_points_tracked.versus(
                right.total_valid_points_tracked,
            );
            &&& by_weight == Comparison::Greater ==> richness(left, right) == Comparison::Greater
            &&& by_weight == Comparison::Less ==> richness(left, right) == Comparison::Less
            &&& by_weight == Comparison::Equal ==> {
                &&& left.bucket_sum() > right.bucket_sum() ==> richness(left, right)
                    == Comparison::Greater
                &&& left.bucket_sum() < right.bucket_sum() ==> richness(left, right)
                    == Comparison::Less
            }
        },
        signals_tie(left, right) ==> {
            &&& left.last_datapoint_time_secs > right.last_datapoint_time_secs ==> richness(
                left,
                right,
            ) == Comparison::Greater
            &&& left.last_datapoint_time_secs < right.last_datapoint_time_secs ==> richness(
                left,
                right,
            ) == Comparison::Less
            &&& left.last_datapoint_time_secs == right.last_datapoint_time_secs ==> {
                &&& left.last_updated_secs > right.last_updated_secs ==> richness(left, right)
                    == Comparison::Greater
                &&& left.last_updated_secs < right.last_updated_secs ==> richness(left, right)
                    == Comparison::Less
                &&& left.last_updated_secs == right.last_updated_secs ==> {
                    &&& left.offset_history_last_updated_secs
                        > right.offset_history_last_updated_secs ==> richness(left, right)
                        == Comparison::Greater
                    &&& left.offset_history_last_updated_secs
                        < right.offset_history_last_updated_secs ==> richness(left, right)
                        == Comparison::Less
                }
            }
        },
        signals_tie(left, right) && times_tie(left, right) ==> {
            &&& left.window() < right.window() ==> richness(left, right) == Comparison::Greater
            &&& left.window() > right.window() ==> richness(left, right) == Comparison::Less
            &&& left.window() == right.window() ==> richness(left, right) == Comparison::Equal
        },
{
}

} // verus!
