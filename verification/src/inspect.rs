//! Looking into one scorer file.
use crate::diagnostic;
use crate::diagnostic::ChannelLiquidityDiagnostic;
use crate::rows;
use crate::rows::{ChannelRow, DecodedChannel};
use crate::score_file::ScoreFile;
use crate::sorting;
use crate::sorting::{sort_diagnostics, Sort};
use crate::summary;
use crate::summary::{build_summary, Summary};
use crate::text;
use crate::text::{push_aligned_decimal, push_decimal, push_right_aligned};
use vstd::prelude::*;
use vstd::string::StringExecFns;

verus! {

/// The figures of a scorer file, and rows for some of its channels.
#[derive(Debug)]
pub struct InspectReport {
    pub summary: Summary,
    pub channels: Vec<ChannelRow>,
}

/// The figures of a scorer file, and all that it holds.
#[derive(Debug)]
pub struct DecodeReport {
    pub format: &'static str,
    pub summary: Summary,
    pub channels: Vec<DecodedChannel>,
}

/// The number of rows that a report is limited to.
pub open spec fn row_limit(len: nat, all: bool, top: Option<usize>) -> nat {
    let limit: nat = if all {
        len
    } else {
        match top {
            Some(n) => n as nat,
            None => 20,
        }
    };
    if limit < len {
        limit
    } else {
        len
    }
}

impl InspectReport {
    /// Whether the report shows a file whose entries are listed in this order.
    pub open spec fn shows(
        self,
        label: Seq<char>,
        file_size_bytes: u64,
        listed: Seq<ChannelLiquidityDiagnostic>,
        limit: nat,
    ) -> bool {
        &&& summary::summarizes(self.summary, label, file_size_bytes, listed)
        &&& self.channels@ == listed.take(limit as int).map_values(
            |d: ChannelLiquidityDiagnostic| rows::row_of(d),
        )
    }
}

/// Reports on a scorer file: its figures, and the rows of the entries that come first in an
/// order.
pub fn inspect(score_file: ScoreFile, all: bool, top: Option<usize>, sort: Sort) -> (r:
    InspectReport)
    ensures
        exists|listed: Seq<ChannelLiquidityDiagnostic>|
            {
                &&& #[trigger] sorting::lists(score_file.diagnostics@, listed, sort)
                &&& r.shows(
                    score_file.label@,
                    score_file.file_size_bytes,
                    listed,
                    row_limit(listed.len(), all, top),
                )
            },
{
    let mut diagnostics = score_file.diagnostics;
    sort_diagnostics(&mut diagnostics, sort);
    let limit: usize = if all {
        diagnostics.len()
    } else {
        match top {
            Some(n) => n,
            None => 20,
        }
    };
    let summary = build_summary(score_file.label, score_file.file_size_bytes, &diagnostics);
    let mut channels: Vec<ChannelRow> = Vec::new();
    let mut i: usize = 0;
    while i < limit && i < diagnostics.len()
        invariant
            i <= limit,
            i <= diagnostics@.len(),
            channels@ == diagnostics@.take(i as int).map_values(
                |d: ChannelLiquidityDiagnostic| rows::row_of(d),
            ),
        decreases diagnostics@.len() - i,
    {
        channels.push(ChannelRow::from(diagnostics[i]));
        i = i + 1;
        assert(channels@ =~= diagnostics@.take(i as int).map_values(
            |d: ChannelLiquidityDiagnostic| rows::row_of(d),
        ));
    }
    InspectReport { summary, channels }
}

impl DecodeReport {
    /// Whether the report shows everything in a file.
    pub open spec fn shows(self, file: ScoreFile) -> bool {
        &&& summary::summarizes(
            self.summary,
            file.label@,
            file.file_size_bytes,
            file.diagnostics@,
        )
        &&& self.channels@ == file.diagnostics@.map_values(
            |d: ChannelLiquidityDiagnostic| rows::decoded_of(d),
        )
    }
}

/// Reports on everything in a scorer file, in the order in which the entries stand.
pub fn decode(score_file: ScoreFile) -> (r: DecodeReport)
    ensures
        r.format@ == "scorer-kit.decoded-channel-liquidities.v1"@,
        r.shows(score_file),
{
    let diagnostics = score_file.diagnostics;
    let summary = build_summary(score_file.label, score_file.file_size_bytes, &diagnostics);
    let mut channels: Vec<DecodedChannel> = Vec::new();
    let mut i: usize = 0;
    while i < diagnostics.len()
        invariant
            i <= diagnostics@.len(),
            channels@ == diagnostics@.take(i as int).map_values(
                |d: ChannelLiquidityDiagnostic| rows::decoded_of(d),
            ),
        decreases diagnostics@.len() - i,
    {
        channels.push(DecodedChannel::from(diagnostics[i]));
        i = i + 1;
        assert(channels@ =~= diagnostics@.take(i as int).map_values(
            |d: ChannelLiquidityDiagnostic| rows::decoded_of(d),
        ));
    }
    assert(diagnostics@.take(i as int) =~= diagnostics@);
    DecodeReport { format: "scorer-kit.decoded-channel-liquidities.v1", summary, channels }
}

/// The figures of a report that are fractions, as they are to be printed: the percentage of
/// entries with a history, and the weights, one for each row at the end.
#[derive(Debug)]
pub struct InspectFigures {
    pub history_populated_pct: String,
    pub weight_p50: String,
    pub weight_p95: String,
    pub weight_max: String,
    pub row_weights: Vec<String>,
}

/// The lines that give the figures of a file.
pub open spec fn summary_text(s: Summary, f: InspectFigures) -> Seq<char> {
    "scorer-kit inspect\n  label:                  "@
        + s.label@
        + "\n  file size:              "@
        + s.file_size_human@
        + " ("@
        + text::decimal(s.file_size_bytes as nat)
        + " bytes)\n  entries:                "@
        + text::decimal(s.entry_count as nat)
        + "\n  history populated:      "@
        + text::decimal(s.history_populated_count as nat)
        + " ("@
        + f.history_populated_pct@
        + "%)\n  history empty:          "@
        + text::decimal(s.history_empty_count as nat)
        + "\n\n  min_offset_msat:        p50="@
        + text::decimal(s.min_offset_msat_p50 as nat)
        + "  p95="@
        + text::decimal(s.min_offset_msat_p95 as nat)
        + "  max="@
        + text::decimal(s.min_offset_msat_max as nat)
        + "\n  max_offset_msat:        p50="@
        + text::decimal(s.max_offset_msat_p50 as nat)
        + "  p95="@
        + text::decimal(s.max_offset_msat_p95 as nat)
        + "  max="@
        + text::decimal(s.max_offset_msat_max as nat)
        + "\n  offset_window_msat:     p50="@
        + text::decimal(s.offset_window_msat_p50 as nat)
        + "  p95="@
        + text::decimal(s.offset_window_msat_p95 as nat)
        + "  max="@
        + text::decimal(s.offset_window_msat_max as nat)
        + "\n  history weight:         p50="@
        + f.weight_p50@
        + "  p95="@
        + f.weight_p95@
        + "  max="@
        + f.weight_max@
        + "\n\n"@
}

/// The line over the rows.
pub open spec fn heading() -> Seq<char> {
    "                scid      min_offset      max_offset          window  his    history_weight   datapoint\n"@
}

/// The line of a row.
pub open spec fn row_text(row: ChannelRow, weight: Seq<char>) -> Seq<char> {
    text::right_aligned(text::decimal(row.scid as nat), 20) + "  "@ + text::right_aligned(
        text::decimal(row.min_liquidity_offset_msat as nat),
        14,
    ) + "  "@ + text::right_aligned(text::decimal(row.max_liquidity_offset_msat as nat), 14)
        + "  "@ + text::right_aligned(text::decimal(row.offset_window_msat as nat), 14) + "  "@ + (
    if row.has_history {
        "yes"@
    } else {
        " no"@
    }) + "  "@ + text::right_aligned(weight, 16) + "  "@ + text::right_aligned(
        text::decimal(row.last_datapoint_time_secs as nat),
        10,
    ) + "\n"@
}

/// The lines of rows.
pub open spec fn rows_text(rows: Seq<ChannelRow>, weights: Seq<String>) -> Seq<char>
    decreases rows.len(),
{
    if rows.len() == 0 {
        seq![]
    } else {
        rows_text(rows.drop_last(), weights) + row_text(rows.last(), weights[rows.len() - 1]@)
    }
}

impl InspectReport {
    /// The report as text for a reader.
    pub open spec fn text(self, figures: InspectFigures) -> Seq<char> {
        summary_text(self.summary, figures) + if self.channels@.len() == 0 {
            seq![]
        } else {
            heading() + rows_text(self.channels@, figures.row_weights@)
        }
    }
}

fn render_row(row: &ChannelRow, weight: &str) -> (r: String)
    ensures
        r@ == row_text(*row, weight@),
{
    let mut out = String::new();
    push_aligned_decimal(&mut out, row.scid, 20);
    assert(out@ =~= text::right_aligned(text::decimal(row.scid as nat), 20));
    out.append("  ");
    push_aligned_decimal(&mut out, row.min_liquidity_offset_msat, 14);
    out.append("  ");
    push_aligned_decimal(&mut out, row.max_liquidity_offset_msat, 14);
    out.append("  ");
    push_aligned_decimal(&mut out, row.offset_window_msat, 14);
    out.append("  ");
    if row.has_history {
        out.append("yes");
    } else {
        out.append(" no");
    }
    out.append("  ");
    push_right_aligned(&mut out, weight, 16);
    out.append("  ");
    push_aligned_decimal(&mut out, row.last_datapoint_time_secs, 10);
    out.append("\n");
    out
}

fn render_summary(s: &Summary, f: &InspectFigures) -> (r: String)
    ensures
        r@ == summary_text(*s, *f),
{
    let mut out = String::from_str("scorer-kit inspect\n  label:                  ");
    out.append(s.label.as_str());
    out.append("\n  file size:              ");
    out.append(s.file_size_human.as_str());
    out.append(" (");
    push_decimal(&mut out, s.file_size_bytes);
    out.append(" bytes)\n  entries:                ");
    push_decimal(&mut out, s.entry_count as u64);
    out.append("\n  history populated:      ");
    push_decimal(&mut out, s.history_populated_count as u64);
    out.append(" (");
    out.append(f.history_populated_pct.as_str());
    out.append("%)\n  history empty:          ");
    push_decimal(&mut out, s.history_empty_count as u64);
    out.append("\n\n  min_offset_msat:        p50=");
    push_decimal(&mut out, s.min_offset_msat_p50);
    out.append("  p95=");
    push_decimal(&mut out, s.min_offset_msat_p95);
    out.append("  max=");
    push_decimal(&mut out, s.min_offset_msat_max);
    out.append("\n  max_offset_msat:        p50=");
    push_decimal(&mut out, s.max_offset_msat_p50);
    out.append("  p95=");
    push_decimal(&mut out, s.max_offset_msat_p95);
    out.append("  max=");
    push_decimal(&mut out, s.max_offset_msat_max);
    out.append("\n  offset_window_msat:     p50=");
    push_decimal(&mut out, s.offset_window_msat_p50);
    out.append("  p95=");
    push_decimal(&mut out, s.offset_window_msat_p95);
    out.append("  max=");
    push_decimal(&mut out, s.offset_window_msat_max);
    out.append("\n  history weight:         p50=");
    out.append(f.weight_p50.as_str());
    out.append("  p95=");
    out.append(f.weight_p95.as_str());
    out.append("  max=");
    out.append(f.weight_max.as_str());
    out.append("\n\n");
    out
}

/// Writes a report as text.
pub fn render_inspect_text(report: &InspectReport, figures: &InspectFigures) -> (r: String)
    requires
        figures.row_weights@.len() == report.channels@.len(),
    ensures
        r@ == report.text(*figures),
{
    let mut out = render_summary(&report.summary, figures);
    let ghost summary = out@;
    if report.channels.len() > 0 {
        out.append(
            "                scid      min_offset      max_offset          window  his    history_weight   datapoint\n",
        );
        let ghost above = out@;
        let mut i: usize = 0;
        assert(out@ =~= above + rows_text(report.channels@.take(0), figures.row_weights@));
        while i < report.channels.len()
            invariant
                figures.row_weights@.len() == report.channels@.len(),
                i <= report.channels@.len(),
                out@ == above + rows_text(report.channels@.take(i as int), figures.row_weights@),
            decreases report.channels@.len() - i,
        {
            let ghost next = report.channels@.take(i + 1);
            assert(next.drop_last() =~= report.channels@.take(i as int));
            let row = render_row(&report.channels[i], figures.row_weights[i].as_str());
            out.append(row.as_str());
            assert(out@ =~= above + rows_text(next, figures.row_weights@));
            i = i + 1;
        }
        assert(report.channels@.take(i as int) =~= report.channels@);
        assert(out@ =~= summary + (heading() + rows_text(report.channels@, figures.row_weights@)));
    } else {
        assert(out@ =~= report.text(*figures));
    }
    out
}

/// A report never has more rows than it is limited to, and the order in which a file is listed
/// makes no difference to how many it has.
pub proof fn rows_keep_to_the_limit(
    report: InspectReport,
    file: ScoreFile,
    all: bool,
    top: Option<usize>,
    sort: Sort,
    listed: Seq<ChannelLiquidityDiagnostic>,
)
    requires
        sorting::lists(file.diagnostics@, listed, sort),
        report.shows(
            file.label@,
            file.file_size_bytes,
            listed,
            row_limit(listed.len(), all, top),
        ),
    ensures
        report.channels@.len() == row_limit(file.diagnostics@.len(), all, top),
        all ==> report.channels@.len() == report.summary.entry_count,
{
}

/// Every row of a report carries every field of the entry in the same place of the listing under
/// its own name. Beside these stand the width of the window and the sum of the buckets.
pub proof fn rows_tell_of_the_entries_in_their_places(
    report: InspectReport,
    label: Seq<char>,
    file_size_bytes: u64,
    listed: Seq<ChannelLiquidityDiagnostic>,
    limit: nat,
    i: int,
)
    requires
        report.shows(label, file_size_bytes, listed, limit),
        limit <= listed.len(),
        0 <= i < limit,
    ensures
        report.channels@.len() == limit,
        report.channels@[i].scid == listed[i].scid,
        report.channels@[i].min_liquidity_offset_msat == listed[i].min_liquidity_offset_msat,
        report.channels@[i].max_liquidity_offset_msat == listed[i].max_liquidity_offset_msat,
        report.channels@[i].has_history == listed[i].has_history,
        report.channels@[i].total_valid_points_tracked == listed[i].total_valid_points_tracked,
        report.channels@[i].last_updated_secs == listed[i].last_updated_secs,
        report.channels@[i].offset_history_last_updated_secs == listed[i].offset_history_last_updated_secs,
        report.channels@[i].last_datapoint_time_secs == listed[i].last_datapoint_time_secs,
        listed[i].min_liquidity_offset_msat <= listed[i].max_liquidity_offset_msat
            ==> listed[i].min_liquidity_offset_msat + report.channels@[i].offset_window_msat
            == listed[i].max_liquidity_offset_msat,
        listed[i].max_liquidity_offset_msat <= listed[i].min_liquidity_offset_msat
            ==> report.channels@[i].offset_window_msat == 0,
        report.channels@[i].history_bucket_sum == diagnostic::bucket_total(
            listed[i].min_history_buckets@,
        ) + diagnostic::bucket_total(listed[i].max_history_buckets@),
{
    diagnostic::bucket_sum_fits(listed[i]);
}

/// Every decoded channel carries every field of the entry in the same place of the file under its
/// own name, its buckets too. Beside these stand the width of the window and the sum of the
/// buckets.
pub proof fn channels_tell_of_the_entries_in_their_places(
    report: DecodeReport,
    file: ScoreFile,
    i: int,
)
    requires
        report.shows(file),
        0 <= i < file.diagnostics@.len(),
    ensures
        report.channels@.len() == file.diagnostics@.len(),
        report.channels@[i].scid == file.diagnostics@[i].scid,
        report.channels@[i].min_liquidity_offset_msat == file.diagnostics@[i].min_liquidity_offset_msat,
        report.channels@[i].max_liquidity_offset_msat == file.diagnostics@[i].max_liquidity_offset_msat,
        report.channels@[i].has_history == file.diagnostics@[i].has_history,
        report.channels@[i].total_valid_points_tracked == file.diagnostics@[i].total_valid_points_tracked,
        report.channels@[i].last_updated_secs == file.diagnostics@[i].last_updated_secs,
        report.channels@[i].offset_history_last_updated_secs == file.diagnostics@[i].offset_history_last_updated_secs,
        report.channels@[i].last_datapoint_time_secs == file.diagnostics@[i].last_datapoint_time_secs,
        report.channels@[i].min_history_buckets == file.diagnostics@[i].min_history_buckets,
        report.channels@[i].max_history_buckets == file.diagnostics@[i].max_history_buckets,
        file.diagnostics@[i].min_liquidity_offset_msat <= file.diagnostics@[i].max_liquidity_offset_msat
            ==> file.diagnostics@[i].min_liquidity_offset_msat + report.channels@[i].offset_window_msat
            == file.diagnostics@[i].max_liquidity_offset_msat,
        file.diagnostics@[i].max_liquidity_offset_msat <= file.diagnostics@[i].min_liquidity_offset_msat
            ==> report.channels@[i].offset_window_msat == 0,
        report.channels@[i].history_bucket_sum == diagnostic::bucket_total(
            file.diagnostics@[i].min_history_buckets@,
        ) + diagnostic::bucket_total(file.diagnostics@[i].max_history_buckets@),
{
    diagnostic::bucket_sum_fits(file.diagnostics@[i]);
}

/// With `all` a report has a row for every entry, else as many as it is asked for, twenty where
/// nothing is said, or as many as there are.
pub proof fn the_number_of_rows_is_as_asked(len: nat, top: Option<usize>)
    ensures
        row_limit(len, true, top) == len,
        top matches Some(n) ==> n <= len ==> row_limit(len, false, top) == n,
        top matches Some(n) ==> n >= len ==> row_limit(len, false, top) == len,
        top is None && len >= 20 ==> row_limit(len, false, top) == 20,
        top is None && len <= 20 ==> row_limit(len, false, top) == len,
{
}

spec fn summary_pieces(s: Summary, f: InspectFigures) -> Seq<Seq<char>> {
    seq![
        "scorer-kit inspect\n  label:                  "@,
        s.label@,
        "\n  file size:              "@,
        s.file_size_human@,
        " ("@,
        text::decimal(s.file_size_bytes as nat),
        " bytes)\n  entries:                "@,
        text::decimal(s.entry_count as nat),
        "\n  history populated:      "@,
        text::decimal(s.history_populated_count as nat),
        " ("@,
        f.history_populated_pct@,
        "%)\n  history empty:          "@,
        text::decimal(s.history_empty_count as nat),
        "\n\n  min_offset_msat:        p50="@,
        text::decimal(s.min_offset_msat_p50 as nat),
        "  p95="@,
        text::decimal(s.min_offset_msat_p95 as nat),
        "  max="@,
        text::decimal(s.min_offset_msat_max as nat),
        "\n  max_offset_msat:        p50="@,
        text::decimal(s.max_offset_msat_p50 as nat),
        "  p95="@,
        text::decimal(s.max_offset_msat_p95 as nat),
        "  max="@,
        text::decimal(s.max_offset_msat_max as nat),
        "\n  offset_window_msat:     p50="@,
        text::decimal(s.offset_window_msat_p50 as nat),
        "  p95="@,
        text::decimal(s.offset_window_msat_p95 as nat),
        "  max="@,
        text::decimal(s.offset_window_msat_max as nat),
        "\n  history weight:         p50="@,
        f.weight_p50@,
        "  p95="@,
        f.weight_p95@,
        "  max="@,
        f.weight_max@,
        "\n\n"@,
    ]
}

proof fn lemma_summary_pieces(s: Summary, f: InspectFigures)
    ensures
        summary_text(s, f) == text::joined(summary_pieces(s, f)),
{
    let pieces = summary_pieces(s, f);
    assert(text::joined(pieces.take(1)) =~= pieces[0]) by {
        reveal_with_fuel(text::joined, 2);
    }
    text::lemma_joined_next(pieces, 1);
    text::lemma_joined_next(pieces, 2);
    text::lemma_joined_next(pieces, 3);
    text::lemma_joined_next(pieces, 4);
    text::lemma_joined_next(pieces, 5);
    text::lemma_joined_next(pieces, 6);
    text::lemma_joined_next(pieces, 7);
    text::lemma_joined_next(pieces, 8);
    text::lemma_joined_next(pieces, 9);
    text::lemma_joined_next(pieces, 10);
    text::lemma_joined_next(pieces, 11);
    text::lemma_joined_next(pieces, 12);
    text::lemma_joined_next(pieces, 13);
    text::lemma_joined_next(pieces, 14);
    text::lemma_joined_next(pieces, 15);
    text::lemma_joined_next(pieces, 16);
    text::lemma_joined_next(pieces, 17);
    text::lemma_joined_next(pieces, 18);
    text::lemma_joined_next(pieces, 19);
    text::lemma_joined_next(pieces, 20);
    text::lemma_joined_next(pieces, 21);
    text::lemma_joined_next(pieces, 22);
    text::lemma_joined_next(pieces, 23);
    text::lemma_joined_next(pieces, 24);
    text::lemma_joined_next(pieces, 25);
    text::lemma_joined_next(pieces, 26);
    text::lemma_joined_next(pieces, 27);
    text::lemma_joined_next(pieces, 28);
    text::lemma_joined_next(pieces, 29);
    text::lemma_joined_next(pieces, 30);
    text::lemma_joined_next(pieces, 31);
    text::lemma_joined_next(pieces, 32);
    text::lemma_joined_next(pieces, 33);
    text::lemma_joined_next(pieces, 34);
    text::lemma_joined_next(pieces, 35);
    text::lemma_joined_next(pieces, 36);
    text::lemma_joined_next(pieces, 37);
    text::lemma_joined_next(pieces, 38);
    assert(pieces.take(39) =~= pieces);
}

/// The text of a report names the file and gives its size and its numbers of entries, each behind
/// the words for it.
pub proof fn the_text_tells_of_the_file(s: Summary, f: InspectFigures)
    ensures
        text::holds(
            summary_text(s, f),
            "scorer-kit inspect\n  label:                  "@ + s.label@ + "\n  file size:              "@,
        ),
        text::holds(
            summary_text(s, f),
            "\n  file size:              "@ + s.file_size_human@ + " ("@ + text::decimal(s.file_size_bytes as nat) + " bytes)\n  entries:                "@,
        ),
        text::holds(
            summary_text(s, f),
            " bytes)\n  entries:                "@ + text::decimal(s.entry_count as nat) + "\n  history populated:      "@,
        ),
        text::holds(
            summary_text(s, f),
            "\n  history populated:      "@ + text::decimal(s.history_populated_count as nat) + " ("@ + f.history_populated_pct@ + "%)\n  history empty:          "@,
        ),
        text::holds(
            summary_text(s, f),
            "%)\n  history empty:          "@ + text::decimal(s.history_empty_count as nat) + "\n\n  min_offset_msat:        p50="@,
        ),
{
    let pieces = summary_pieces(s, f);
    lemma_summary_pieces(s, f);
    text::lemma_joined_holds(pieces, 0);
    text::lemma_joined_holds_five(pieces, 2);
    text::lemma_joined_holds(pieces, 6);
    text::lemma_joined_holds_five(pieces, 8);
    text::lemma_joined_holds(pieces, 12);
}

/// The text of a report gives the figures of the offsets, of the windows and of the weights, each
/// kind in a line of its own, behind the words for it.
pub proof fn the_text_gives_every_figure(s: Summary, f: InspectFigures)
    ensures
        text::holds(
            summary_text(s, f),
            "\n\n  min_offset_msat:        p50="@ + text::decimal(s.min_offset_msat_p50 as nat) + "  p95="@ + text::decimal(s.min_offset_msat_p95 as nat) + "  max="@ + text::decimal(s.min_offset_msat_max as nat) + "\n  max_offset_msat:        p50="@,
        ),
        text::holds(
            summary_text(s, f),
            "\n  max_offset_msat:        p50="@ + text::decimal(s.max_offset_msat_p50 as nat) + "  p95="@ + text::decimal(s.max_offset_msat_p95 as nat) + "  max="@ + text::decimal(s.max_offset_msat_max as nat) + "\n  offset_window_msat:     p50="@,
        ),
        text::holds(
            summary_text(s, f),
            "\n  offset_window_msat:     p50="@ + text::decimal(s.offset_window_msat_p50 as nat) + "  p95="@ + text::decimal(s.offset_window_msat_p95 as nat) + "  max="@ + text::decimal(s.offset_window_msat_max as nat) + "\n  history weight:         p50="@,
        ),
        text::holds(
            summary_text(s, f),
            "\n  history weight:         p50="@ + f.weight_p50@ + "  p95="@ + f.weight_p95@ + "  max="@ + f.weight_max@ + "\n\n"@,
        ),
{
    let pieces = summary_pieces(s, f);
    lemma_summary_pieces(s, f);
    text::lemma_joined_holds_seven(pieces, 14);
    text::lemma_joined_holds_seven(pieces, 20);
    text::lemma_joined_holds_seven(pieces, 26);
    text::lemma_joined_holds_seven(pieces, 32);
}

/// In the line of a row whose values fit their columns, every value stands at the right edge of
/// its own column, with two spaces between columns.
pub proof fn rows_stand_in_columns(row: ChannelRow, weight: Seq<char>)
    requires
        text::decimal(row.scid as nat).len() <= 20,
        text::decimal(row.min_liquidity_offset_msat as nat).len() <= 14,
        text::decimal(row.max_liquidity_offset_msat as nat).len() <= 14,
        text::decimal(row.offset_window_msat as nat).len() <= 14,
        weight.len() <= 16,
        text::decimal(row.last_datapoint_time_secs as nat).len() <= 10,
    ensures
        row_text(row, weight).len() == 104,
        row_text(row, weight).subrange(0, 20) == text::right_aligned(text::decimal(row.scid as nat), 20),
        row_text(row, weight).subrange(22, 36) == text::right_aligned(text::decimal(row.min_liquidity_offset_msat as nat), 14),
        row_text(row, weight).subrange(38, 52) == text::right_aligned(text::decimal(row.max_liquidity_offset_msat as nat), 14),
        row_text(row, weight).subrange(54, 68) == text::right_aligned(text::decimal(row.offset_window_msat as nat), 14),
        row_text(row, weight).subrange(75, 91) == text::right_aligned(weight, 16),
        row_text(row, weight).subrange(93, 103) == text::right_aligned(text::decimal(row.last_datapoint_time_secs as nat), 10),
        row.has_history ==> row_text(row, weight).subrange(70, 73) == "yes"@,
        !row.has_history ==> row_text(row, weight).subrange(70, 73) == " no"@,
        row_text(row, weight)[103] == '\n',
        forall|i: int|
            i == 20 || i == 36 || i == 52 || i == 68 || i == 73 || i == 91 ==> #[trigger] row_text(
                row,
                weight,
            )[i] == ' ' && row_text(row, weight)[i + 1] == ' ',
{
    reveal_strlit("  ");
    reveal_strlit("yes");
    reveal_strlit(" no");
    reveal_strlit("\n");
    text::columns_are_filled_from_the_right(text::decimal(row.scid as nat), 20);
    text::columns_are_filled_from_the_right(text::decimal(row.min_liquidity_offset_msat as nat), 14);
    text::columns_are_filled_from_the_right(text::decimal(row.max_liquidity_offset_msat as nat), 14);
    text::columns_are_filled_from_the_right(text::decimal(row.offset_window_msat as nat), 14);
    text::columns_are_filled_from_the_right(weight, 16);
    text::columns_are_filled_from_the_right(text::decimal(row.last_datapoint_time_secs as nat), 10);
    let line = row_text(row, weight);
    assert(line.subrange(0, 20) =~= text::right_aligned(text::decimal(row.scid as nat), 20));
    assert(line.subrange(22, 36) =~= text::right_aligned(text::decimal(row.min_liquidity_offset_msat as nat), 14));
    assert(line.subrange(38, 52) =~= text::right_aligned(text::decimal(row.max_liquidity_offset_msat as nat), 14));
    assert(line.subrange(54, 68) =~= text::right_aligned(text::decimal(row.offset_window_msat as nat), 14));
    assert(line.subrange(75, 91) =~= text::right_aligned(weight, 16));
    assert(line.subrange(93, 103) =~= text::right_aligned(text::decimal(row.last_datapoint_time_secs as nat), 10));
    assert(line.subrange(70, 73) =~= if row.has_history {
        "yes"@
    } else {
        " no"@
    });
}

/// One more row adds its line to the end of the text, under the heading where it is the first one.
/// Without rows the text ends with the figures.
pub proof fn every_row_adds_its_line(
    report: InspectReport,
    longer: InspectReport,
    figures: InspectFigures,
    next: ChannelRow,
)
    requires
        longer.summary == report.summary,
        longer.channels@ == report.channels@.push(next),
    ensures
        report.channels@.len() == 0 ==> report.text(figures) == summary_text(
            report.summary,
            figures,
        ),
        report.channels@.len() == 0 ==> longer.text(figures) == report.text(figures)
            + "                scid      min_offset      max_offset          window  his    history_weight   datapoint\n"@
            + row_text(next, figures.row_weights@[0]@),
        report.channels@.len() > 0 ==> longer.text(figures) == report.text(figures) + row_text(
            next,
            figures.row_weights@[report.channels@.len() as int]@,
        ),
{
    let rows = report.channels@;
    let weights = figures.row_weights@;
    assert(rows.push(next).drop_last() =~= rows);
    if rows.len() == 0 {
        assert(rows_text(rows, weights) =~= seq![]);
        assert(report.text(figures) =~= summary_text(report.summary, figures));
        assert(longer.text(figures) =~= report.text(figures) + heading() + row_text(
            next,
            weights[0]@,
        ));
    } else {
        assert(longer.text(figures) =~= report.text(figures) + row_text(
            next,
            weights[rows.len() as int]@,
        ));
    }
}

/// The figures of a report are those of all entries, however many rows it is limited to.
pub proof fn figures_cover_every_entry(
    report: InspectReport,
    file: ScoreFile,
    sort: Sort,
    listed: Seq<ChannelLiquidityDiagnostic>,
    limit: nat,
)
    requires
        sorting::lists(file.diagnostics@, listed, sort),
        report.shows(file.label@, file.file_size_bytes, listed, limit),
    ensures
        summary::summarizes(report.summary, file.label@, file.file_size_bytes, listed),
        report.summary.entry_count == file.diagnostics@.len(),
        listed.to_multiset() == file.diagnostics@.to_multiset(),
{
    sorting::listings_keep_every_entry(file.diagnostics@, listed, sort);
}

/// The figures of a decoded file are those of its entries.
pub proof fn decoded_figures_are_of_the_file(report: DecodeReport, file: ScoreFile)
    requires
        report.shows(file),
    ensures
        summary::summarizes(
            report.summary,
            file.label@,
            file.file_size_bytes,
            file.diagnostics@,
        ),
        report.summary.entry_count == file.diagnostics@.len(),
{
}

} // verus!
