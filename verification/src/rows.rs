//! Channel entries as they are reported.
use crate::diagnostic;
use crate::diagnostic::{history_bucket_sum, offset_window_msat, ChannelLiquidityDiagnostic};
use crate::weight::Weight;
use vstd::prelude::*;

verus! {

/// The summary row of one channel.
#[derive(Clone, Copy, Debug)]
pub struct ChannelRow {
    pub scid: u64,
    pub min_liquidity_offset_msat: u64,
    pub max_liquidity_offset_msat: u64,
    pub offset_window_msat: u64,
    pub has_history: bool,
    pub total_valid_points_tracked: Weight,
    pub history_bucket_sum: u64,
    pub last_updated_secs: u64,
    pub offset_history_last_updated_secs: u64,
    pub last_datapoint_time_secs: u64,
}

/// One channel with all that a scorer file holds of it.
#[derive(Clone, Copy, Debug)]
pub struct DecodedChannel {
    pub scid: u64,
    pub min_liquidity_offset_msat: u64,
    pub max_liquidity_offset_msat: u64,
    pub offset_window_msat: u64,
    pub has_history: bool,
    pub total_valid_points_tracked: Weight,
    pub history_bucket_sum: u64,
    pub last_updated_secs: u64,
    pub offset_history_last_updated_secs: u64,
    pub last_datapoint_time_secs: u64,
    pub min_history_buckets: [u16; 32],
    pub max_history_buckets: [u16; 32],
}

/// The row that reports an entry.
pub open spec fn row_of(diag: ChannelLiquidityDiagnostic) -> ChannelRow {
    ChannelRow {
        scid: diag.scid,
        min_liquidity_offset_msat: diag.min_liquidity_offset_msat,
        max_liquidity_offset_msat: diag.max_liquidity_offset_msat,
        offset_window_msat: diag.window() as u64,
        has_history: diag.has_history,
        total_valid_points_tracked: diag.total_valid_points_tracked,
        history_bucket_sum: diag.bucket_sum() as u64,
        last_updated_secs: diag.last_updated_secs,
        offset_history_last_updated_secs: diag.offset_history_last_updated_secs,
        last_datapoint_time_secs: diag.last_datapoint_time_secs,
    }
}

/// The full record of an entry.
pub open spec fn decoded_of(diag: ChannelLiquidityDiagnostic) -> DecodedChannel {
    DecodedChannel {
        scid: diag.scid,
        min_liquidity_offset_msat: diag.min_liquidity_offset_msat,
        max_liquidity_offset_msat: diag.max_liquidity_offset_msat,
        offset_window_msat: diag.window() as u64,
        has_history: diag.has_history,
        total_valid_points_tracked: diag.total_valid_points_tracked,
        history_bucket_sum: diag.bucket_sum() as u64,
        last_updated_secs: diag.last_updated_secs,
        offset_history_last_updated_secs: diag.offset_history_last_updated_secs,
        last_datapoint_time_secs: diag.last_datapoint_time_secs,
        min_history_buckets: diag.min_history_buckets,
        max_history_buckets: diag.max_history_buckets,
    }
}

impl vstd::std_specs::convert::FromSpecImpl<ChannelLiquidityDiagnostic> for ChannelRow {
    open spec fn obeys_from_spec() -> bool {
        true
    }

    open spec fn from_spec(diag: ChannelLiquidityDiagnostic) -> ChannelRow {
        row_of(diag)
    }
}

impl From<ChannelLiquidityDiagnostic> for ChannelRow {
    fn from(diag: ChannelLiquidityDiagnostic) -> (r: ChannelRow) {
        ChannelRow {
            scid: diag.scid,
            min_liquidity_offset_msat: diag.min_liquidity_offset_msat,
            max_liquidity_offset_msat: diag.max_liquidity_offset_msat,
            offset_window_msat: offset_window_msat(&diag),
            has_history: diag.has_history,
            total_valid_points_tracked: diag.total_valid_points_tracked,
            history_bucket_sum: history_bucket_sum(&diag),
            last_updated_secs: diag.last_updated_secs,
            offset_history_last_updated_secs: diag.offset_history_last_updated_secs,
            last_datapoint_time_secs: diag.last_datapoint_time_secs,
        }
    }
}

impl vstd::std_specs::convert::FromSpecImpl<ChannelLiquidityDiagnostic> for DecodedChannel {
    open spec fn obeys_from_spec() -> bool {
        true
    }

    open spec fn from_spec(diag: ChannelLiquidityDiagnostic) -> DecodedChannel {
        decoded_of(diag)
    }
}

impl From<ChannelLiquidityDiagnostic> for DecodedChannel {
    fn from(diag: ChannelLiquidityDiagnostic) -> (r: DecodedChannel) {
        DecodedChannel {
            scid: diag.scid,
            min_liquidity_offset_msat: diag.min_liquidity_offset_msat,
            max_liquidity_offset_msat: diag.max_liquidity_offset_msat,
            offset_window_msat: offset_window_msat(&diag),
            has_history: diag.has_history,
            total_valid_points_tracked: diag.total_valid_points_tracked,
            history_bucket_sum: history_bucket_sum(&diag),
            last_updated_secs: diag.last_updated_secs,
            offset_history_last_updated_secs: diag.offset_history_last_updated_secs,
            last_datapoint_time_secs: diag.last_datapoint_time_secs,
            min_history_buckets: diag.min_history_buckets,
            max_history_buckets: diag.max_history_buckets,
        }
    }
}

/// The full record of an entry loses nothing: entries with the same record are the same.
pub proof fn decoding_loses_nothing(a: ChannelLiquidityDiagnostic, b: ChannelLiquidityDiagnostic)
    requires
        decoded_of(a) == decoded_of(b),
    ensures
        a == b,
{
}

/// The row of an entry carries every field of the entry under its own name. Beside these stand the
/// width of the window and the sum of the buckets.
pub proof fn rows_carry_their_entries(diag: ChannelLiquidityDiagnostic, row: ChannelRow)
    requires
        call_ensures(<ChannelRow as From<ChannelLiquidityDiagnostic>>::from, (diag,), row),
    ensures
        row.scid == diag.scid,
        row.min_liquidity_offset_msat == diag.min_liquidity_offset_msat,
        row.max_liquidity_offset_msat == diag.max_liquidity_offset_msat,
        row.has_history == diag.has_history,
        row.total_valid_points_tracked == diag.total_valid_points_tracked,
        row.last_updated_secs == diag.last_updated_secs,
        row.offset_history_last_updated_secs == diag.offset_history_last_updated_secs,
        row.last_datapoint_time_secs == diag.last_datapoint_time_secs,
        diag.min_liquidity_offset_msat <= diag.max_liquidity_offset_msat
            ==> diag.min_liquidity_offset_msat + row.offset_window_msat
            == diag.max_liquidity_offset_msat,
        diag.max_liquidity_offset_msat <= diag.min_liquidity_offset_msat
            ==> row.offset_window_msat == 0,
        row.history_bucket_sum == diagnostic::bucket_total(diag.min_history_buckets@)
            + diagnostic::bucket_total(diag.max_history_buckets@),
{
    diagnostic::bucket_sum_fits(diag);
}

/// The full record of an entry carries every field of the entry under its own name, its buckets
/// too. Beside these stand the width of the window and the sum of the buckets.
pub proof fn records_carry_their_entries(diag: ChannelLiquidityDiagnostic, channel: DecodedChannel)
    requires
        call_ensures(<DecodedChannel as From<ChannelLiquidityDiagnostic>>::from, (diag,), channel),
    ensures
        channel.scid == diag.scid,
        channel.min_liquidity_offset_msat == diag.min_liquidity_offset_msat,
        channel.max_liquidity_offset_msat == diag.max_liquidity_offset_msat,
        channel.has_history == diag.has_history,
        channel.total_valid_points_tracked == diag.total_valid_points_tracked,
        channel.last_updated_secs == diag.last_updated_secs,
        channel.offset_history_last_updated_secs == diag.offset_history_last_updated_secs,
        channel.last_datapoint_time_secs == diag.last_datapoint_time_secs,
        channel.min_history_buckets == diag.min_history_buckets,
        channel.max_history_buckets == diag.max_history_buckets,
        diag.min_liquidity_offset_msat <= diag.max_liquidity_offset_msat
            ==> diag.min_liquidity_offset_msat + channel.offset_window_msat
            == diag.max_liquidity_offset_msat,
        diag.max_liquidity_offset_msat <= diag.min_liquidity_offset_msat
            ==> channel.offset_window_msat == 0,
        channel.history_bucket_sum == diagnostic::bucket_total(diag.min_history_buckets@)
            + diagnostic::bucket_total(diag.max_history_buckets@),
{
    diagnostic::bucket_sum_fits(diag);
}

} // verus!
