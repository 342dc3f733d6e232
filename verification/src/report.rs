//! Activity reports: the histogram shown on `s`, the tidy CSV report, and
//! the data of the JSON report.

use vstd::prelude::*;
use crate::level::{LogLevel, level_label, level_at, LEVEL_COUNT};
use crate::stats::{
    Stats, StatsBucket, StatsModel, BucketModel, Row, bucket_total, bucket_level, stats_total,
    stats_level, bar_spec, files_sorted, round_div, is_file_summary, pairs_model, STATS_BAR_WIDTH,
};
use crate::paths::{ReportFormat, report_format, report_format_spec};
use crate::text::{
    chars_of, dec, dec_int, pad_right, pad_left, push_dec, push_dec_i64, push_padded_left,
    push_padded_right, push_repeat, repeat, truncate_end, truncate_end_spec, csv_field, csv_field_spec,
};

verus! {

/// The time formats the reports use.
pub open spec fn supported_time_format(f: Seq<char>) -> bool {
    f == "%H:%M"@ || f == "%Y-%m-%d"@ || f == "%Y-%m-%dT%H:%M:%S%:z"@ || f == "%Y-%m-%d %H:%M:%S"@
}

/// An ASCII decimal digit.
pub open spec fn is_digit(c: char) -> bool {
    '0' <= c && c <= '9'
}

/// `t` has the layout `tmpl`: in the layout `d` stands for a decimal digit,
/// `\u{b1}` for `+` or `-`, and any other character for itself.
pub open spec fn fits(t: Seq<char>, tmpl: Seq<char>) -> bool {
    &&& t.len() == tmpl.len()
    &&& forall|i: int|
        0 <= i < t.len() ==> if tmpl[i] == 'd' {
            is_digit(#[trigger] t[i])
        } else if tmpl[i] == '\u{b1}' {
            t[i] == '+' || t[i] == '-'
        } else {
            t[i] == tmpl[i]
        }
}

/// A year as `%Y` writes it: at least four digits, with a leading sign for
/// years outside 0 to 9999.
pub open spec fn year_text(y: Seq<char>) -> bool {
    ||| y.len() >= 4 && forall|i: int| 0 <= i < y.len() ==> is_digit(#[trigger] y[i])
    ||| y.len() >= 5 && (y[0] == '+' || y[0] == '-') && forall|i: int| 1 <= i < y.len() ==> is_digit(#[trigger] y[i])
}

/// A year followed by text of the layout `tail`.
pub open spec fn dated(t: Seq<char>, tail: Seq<char>) -> bool {
    &&& t.len() >= tail.len()
    &&& year_text(t.take(t.len() - tail.len()))
    &&& fits(t.skip(t.len() - tail.len()), tail)
}

/// The layout of a time written in one of the supported formats: `%H`,
/// `%M`, `%S`, `%m` and `%d` are two digits, `%Y` a year, `%:z` a signed
/// `hh:mm` offset.
pub open spec fn time_text_shape(fmt: Seq<char>, t: Seq<char>) -> bool {
    if fmt == "%H:%M"@ {
        fits(t, "dd:dd"@)
    } else if fmt == "%Y-%m-%d"@ {
        dated(t, "-dd-dd"@)
    } else if fmt == "%Y-%m-%d %H:%M:%S"@ {
        dated(t, "-dd-dd dd:dd:dd"@)
    } else {
        dated(t, "-dd-ddTdd:dd:dd\u{b1}dd:dd"@)
    }
}

/// The format of bucket starts and timestamps in the report files.
pub open spec fn iso_format() -> Seq<char> {
    "%Y-%m-%dT%H:%M:%S%:z"@
}

/// Instants that chrono can place in its calendar: its dates run from
/// the year -262143 to 262142, and these bounds, about 253,000 years on
/// either side of 1970, lie well inside them.
pub open spec fn in_calendar(epoch: int) -> bool {
    -8_000_000_000_000 <= epoch <= 8_000_000_000_000
}

/// A time as the reports write it: the local time of `epoch` in `fmt`; the
/// decimal `epoch` can only come for an instant outside `in_calendar`.
pub open spec fn time_or_epoch(fmt: Seq<char>, epoch: int, t: Seq<char>) -> bool {
    time_text_shape(fmt, t) || (!in_calendar(epoch) && t == dec_int(epoch))
}

/// One start text per bucket, each the bucket's start as the report files
/// write it.
pub open spec fn starts_shaped(s: StatsModel, starts: Seq<Seq<char>>) -> bool {
    &&& starts.len() == s.len()
    &&& forall|i: int| 0 <= i < s.len() ==> time_or_epoch(iso_format(), s[i].0, #[trigger] starts[i])
}

/// The histogram's span: empty, or the date, a space, and the first and
/// last bucket's `HH:MM` joined by `-`.
pub open spec fn span_shape(span: Seq<char>) -> bool {
    span.len() == 0 || (span.len() >= 12 && time_text_shape("%Y-%m-%d"@, span.take(span.len() - 12))
        && fits(span.skip(span.len() - 12), " dd:dd-dd:dd"@))
}

/// One label per shown bucket, each its start as `HH:MM` or the epoch
/// seconds.
pub open spec fn labels_shaped(r: StatsModel, labels: Seq<Seq<char>>) -> bool {
    &&& labels.len() == r.len()
    &&& forall|i: int| 0 <= i < r.len() ==> time_or_epoch("%H:%M"@, r[i].0, #[trigger] labels[i])
}

/// The span built from a date and two clock times has the span's layout.
proof fn lemma_span_shape(d: Seq<char>, a: Seq<char>, b: Seq<char>)
    requires
        time_text_shape("%Y-%m-%d"@, d),
        fits(a, "dd:dd"@),
        fits(b, "dd:dd"@),
    ensures
        span_shape(d + " "@ + a + "-"@ + b),
{
    reveal_strlit("dd:dd");
    reveal_strlit(" dd:dd-dd:dd");
    reveal_strlit(" ");
    reveal_strlit("-");
    let t = d + " "@ + a + "-"@ + b;
    let tail = t.skip(t.len() - 12);
    assert(t.take(t.len() - 12) =~= d);
    assert(tail =~= " "@ + a + "-"@ + b);
    let tmpl = " dd:dd-dd:dd"@;
    assert forall|i: int| 0 <= i < tail.len() implies if tmpl[i] == 'd' {
        is_digit(#[trigger] tail[i])
    } else if tmpl[i] == '\u{b1}' {
        tail[i] == '+' || tail[i] == '-'
    } else {
        tail[i] == tmpl[i]
    } by {
        if 1 <= i < 6 {
            assert(tail[i] == a[i - 1]);
            assert(tmpl[i] == "dd:dd"@[i - 1]);
        } else if 7 <= i < 12 {
            assert(tail[i] == b[i - 7]);
            assert(tmpl[i] == "dd:dd"@[i - 7]);
        }
    }
}

/// The local time of `epoch` seconds formatted with the strftime-style
/// `fmt`, or `None` when that instant has no single local time.
///
/// Trusted: `chrono::Local.timestamp_opt(epoch, 0).single()`, then
/// `chrono::DateTime::format(fmt)` rendered to a `String`. The formats are
/// the fixed ones of `supported_time_format`, which chrono accepts, so
/// rendering cannot fail. The contract states the layout chrono documents
/// for each specifier (two zero-padded digits for `%H`, `%M`, `%S`, `%m`,
/// `%d`; at least four digits, signed outside 0 to 9999, for `%Y`; a signed
/// `hh:mm` for `%:z`). chrono documents that `timestamp_opt` gives `None`
/// only for a number of seconds out of its range and otherwise a single
/// local time (`DateTime::from_timestamp` fails only for dates outside the
/// years -262143 to 262142), so every instant of `in_calendar` has a text.
/// Which digits come depends on the machine's time zone, so they are left
/// unsaid.
#[verifier::external_body]
pub(crate) fn local_time_text(epoch: i64, fmt: &str) -> (res: Option<String>)
    requires
        supported_time_format(fmt@),
    ensures
        res matches Some(t) ==> time_text_shape(fmt@, t@),
        in_calendar(epoch as int) ==> res is Some,
{
    match chrono::TimeZone::timestamp_opt(&chrono::Local, epoch, 0).single() {
        Some(t) => Some(t.format(fmt).to_string()),
        None => None,
    }
}

/// The local time of `epoch` in `fmt`, or the decimal `epoch` when the
/// local time does not exist.
pub(crate) fn local_text_or_key(epoch: i64, fmt: &str) -> (res: String)
    requires
        supported_time_format(fmt@),
    ensures
        time_or_epoch(fmt@, epoch as int, res@),
{
    match local_time_text(epoch, fmt) {
        Some(t) => t,
        None => crate::text::dec_i64(epoch),
    }
}

// ---------------------------------------------------------------------------
// Histogram
// ---------------------------------------------------------------------------

/// Most recent buckets drawn in the `s` histogram.
pub const STATS_HISTOGRAM_ROWS: usize = 20;

/// Files listed in the histogram's "by file" summary.
pub const STATS_TOP_FILES: usize = 10;

/// Character width of a full bar in the "by file" summary.
pub const STATS_FILE_BAR_WIDTH: usize = 24;

/// Width the file names are cut and padded to in the summary.
pub const FILE_NAME_WIDTH: usize = 28;

/// The histogram's first line.
pub open spec fn title_line(interval: int, span: Seq<char>) -> Seq<char> {
    "\u{2500}\u{2500} Activity \u{2500}\u{2500} "@ + dec_int(interval) + "s buckets \u{2500}\u{2500} "@ + span + " \u{2500}\u{2500}"@
}

/// The histogram's legend line.
pub open spec fn legend_line() -> Seq<char> {
    "   (\u{2593} error/fatal  \u{2592} warn  \u{2591} info/debug/other)"@
}

/// The most recent buckets shown in the histogram.
pub open spec fn recent(s: StatsModel) -> StatsModel {
    if s.len() <= STATS_HISTOGRAM_ROWS {
        s
    } else {
        s.skip(s.len() - STATS_HISTOGRAM_ROWS)
    }
}

/// The largest bucket total of `s` (0 when empty).
pub open spec fn max_bucket_total(s: StatsModel) -> int
    decreases s.len(),
{
    if s.len() == 0 {
        0
    } else {
        let m = max_bucket_total(s.drop_last());
        let t = bucket_total(s.last().1);
        if t > m {
            t
        } else {
            m
        }
    }
}

/// One histogram row: the bucket's label, its bar padded to the full bar
/// width, and its total.
pub open spec fn histogram_line(label: Seq<char>, b: BucketModel, max_total: int) -> Seq<char> {
    label + "  "@ + pad_right(bar_spec(b, max_total), STATS_BAR_WIDTH as nat) + "  "@ + dec(bucket_total(b) as nat)
}

/// The histogram rows of the first `k` recent buckets.
pub open spec fn histogram_lines(r: StatsModel, labels: Seq<Seq<char>>, max_total: int, k: int) -> Seq<Seq<char>>
    decreases k,
{
    if k <= 0 {
        Seq::empty()
    } else {
        histogram_lines(r, labels, max_total, k - 1).push(histogram_line(labels[k - 1], r[k - 1].1, max_total))
    }
}

/// `label count` for each severity with a nonzero count among the first
/// `k` severities.
pub open spec fn level_parts(s: StatsModel, k: int) -> Seq<Seq<char>>
    decreases k,
{
    if k <= 0 {
        Seq::empty()
    } else {
        let r = level_parts(s, k - 1);
        let c = stats_level(s, k - 1);
        if c > 0 {
            r.push(level_label(level_at(k - 1)) + " "@ + dec(c as nat))
        } else {
            r
        }
    }
}

/// The parts joined by `, `.
pub open spec fn join_comma(parts: Seq<Seq<char>>) -> Seq<char>
    decreases parts.len(),
{
    if parts.len() == 0 {
        Seq::empty()
    } else if parts.len() == 1 {
        parts[0]
    } else {
        join_comma(parts.drop_last()) + ", "@ + parts.last()
    }
}

/// The totals line: all lines, then the nonzero severities.
pub open spec fn totals_line(s: StatsModel) -> Seq<char> {
    let parts = level_parts(s, LEVEL_COUNT as int);
    "Totals: "@ + dec(stats_total(s) as nat) + " lines"@ + if parts.len() == 0 {
        Seq::empty()
    } else {
        " \u{2014} "@ + join_comma(parts)
    }
}

/// One line of the by-file summary: the name cut and padded, the count
/// right-aligned, and a bar scaled so `max_file` fills the file bar width.
pub open spec fn file_line(name: Seq<char>, count: int, max_file: int) -> Seq<char> {
    "  "@ + pad_right(truncate_end_spec(name, FILE_NAME_WIDTH as nat), FILE_NAME_WIDTH as nat) + " "@
        + pad_left(dec(count as nat), 8) + "  "@ + repeat(
        '\u{2588}',
        round_div(count * STATS_FILE_BAR_WIDTH, max_file) as nat,
    )
}

/// The by-file lines of the first `k` files.
pub open spec fn file_lines(files: Seq<(Seq<char>, int)>, max_file: int, k: int) -> Seq<Seq<char>>
    decreases k,
{
    if k <= 0 {
        Seq::empty()
    } else {
        file_lines(files, max_file, k - 1).push(file_line(files[k - 1].0, files[k - 1].1, max_file))
    }
}

/// The by-file summary: up to `STATS_TOP_FILES` files and how many more
/// there are.
pub open spec fn file_section(files: Seq<(Seq<char>, int)>) -> Seq<Seq<char>> {
    if files.len() == 0 {
        Seq::empty()
    } else {
        let max_file = if files[0].1 >= 1 { files[0].1 } else { 1 };
        let k = if files.len() <= STATS_TOP_FILES { files.len() as int } else { STATS_TOP_FILES as int };
        seq!["By file:"@] + file_lines(files, max_file, k) + if files.len() > STATS_TOP_FILES {
            seq!["  \u{2026} and "@ + dec((files.len() - STATS_TOP_FILES) as nat) + " more files"@]
        } else {
            Seq::<Seq<char>>::empty()
        }
    }
}

/// The histogram shown on `s`, given the span text, the labels of the
/// recent buckets and the per-file summary.
pub open spec fn report_spec(
    s: StatsModel,
    interval: int,
    span: Seq<char>,
    labels: Seq<Seq<char>>,
    files: Seq<(Seq<char>, int)>,
) -> Seq<Seq<char>> {
    if s.len() == 0 {
        seq!["-- no activity recorded yet --"@]
    } else {
        let r = recent(s);
        seq![title_line(interval, span), legend_line()] + histogram_lines(r, labels, max_bucket_total(r), r.len() as int)
            + seq![totals_line(s)] + file_section(files)
    }
}


/// Every bucket of `s` holds at most `max_bucket_total(s)` lines.
proof fn lemma_max_bucket_total(s: StatsModel, i: int)
    requires
        0 <= i < s.len(),
    ensures
        bucket_total(s[i].1) <= max_bucket_total(s),
    decreases s.len(),
{
    if i < s.len() - 1 {
        lemma_max_bucket_total(s.drop_last(), i);
    }
}

/// The separator and parts of the totals line's severity breakdown.
pub open spec fn breakdown(parts: Seq<Seq<char>>) -> Seq<char> {
    if parts.len() == 0 {
        Seq::empty()
    } else {
        " \u{2014} "@ + join_comma(parts)
    }
}

proof fn lemma_breakdown_push(parts: Seq<Seq<char>>, x: Seq<char>)
    ensures
        breakdown(parts.push(x)) == breakdown(parts) + (if parts.len() == 0 {
            " \u{2014} "@
        } else {
            ", "@
        }) + x,
{
    let p = parts.push(x);
    assert(p.drop_last() =~= parts);
    if parts.len() == 0 {
        assert(join_comma(p) == x);
        assert(breakdown(p) =~= breakdown(parts) + " \u{2014} "@ + x);
    } else {
        assert(breakdown(p) =~= breakdown(parts) + ", "@ + x);
    }
}

/// A bar of the histogram: at most `STATS_BAR_WIDTH` shade characters.
pub open spec fn shades(bar: Seq<char>) -> bool {
    &&& bar.len() <= STATS_BAR_WIDTH
    &&& forall|i: int|
        0 <= i < bar.len() ==> #[trigger] bar[i] == '\u{2593}' || bar[i] == '\u{2592}' || bar[i] == '\u{2591}'
}

/// A bucket's bar, scaled to a maximum no smaller than its total, is made
/// of shade characters, at most the full width, and exactly the full width
/// when the bucket is the maximum.
proof fn lemma_bar_shape(b: BucketModel, m: int)
    requires
        files_sorted(b),
        0 <= bucket_total(b) <= m,
        m > 0,
    ensures
        shades(bar_spec(b, m)),
        bucket_total(b) == m ==> bar_spec(b, m).len() == STATS_BAR_WIDTH,
{
    let t = bucket_total(b);
    if t > 0 {
        let width = crate::stats::bar_width(b, m);
        assert(0 <= (2 * (t * 32) + m) / (2 * m) <= 32) by (nonlinear_arith)
            requires
                0 <= t <= m,
                m > 0,
        ;
        if t == m {
            assert((2 * (m * 32) + m) / (2 * m) == 32) by (nonlinear_arith)
                requires
                    m > 0,
            ;
        }
        crate::stats::lemma_level_le_bucket(b, 0);
        crate::stats::lemma_level_le_bucket(b, 1);
        crate::stats::lemma_level_le_bucket(b, 2);
        let err = bucket_level(b, 0) + bucket_level(b, 1);
        let warn = bucket_level(b, 2);
        if width > 0 {
            assert(0 <= (2 * (err * width) + t) / (2 * t)) by (nonlinear_arith)
                requires
                    err >= 0,
                    width >= 0,
                    t > 0,
            ;
            assert(0 <= (2 * (warn * width) + t) / (2 * t)) by (nonlinear_arith)
                requires
                    warn >= 0,
                    width >= 0,
                    t > 0,
            ;
            let bar = bar_spec(b, m);
            assert(bar.len() == width);
            assert forall|i: int| 0 <= i < bar.len() implies #[trigger] bar[i] == '\u{2593}' || bar[i] == '\u{2592}'
                || bar[i] == '\u{2591}' by {
            }
        }
    }
}

/// Row `k` of the histogram lines.
proof fn lemma_histogram_row(r: StatsModel, labels: Seq<Seq<char>>, m: int, n: int, k: int)
    requires
        0 <= k < n,
    ensures
        histogram_lines(r, labels, m, n).len() == n,
        histogram_lines(r, labels, m, n)[k] == histogram_line(labels[k], r[k].1, m),
    decreases n,
{
    if n > 0 {
        lemma_histogram_len(r, labels, m, n - 1);
        if k < n - 1 {
            lemma_histogram_row(r, labels, m, n - 1, k);
        }
    }
}

proof fn lemma_histogram_len(r: StatsModel, labels: Seq<Seq<char>>, m: int, n: int)
    ensures
        histogram_lines(r, labels, m, n).len() == if n <= 0 { 0 } else { n },
    decreases n,
{
    if n > 0 {
        lemma_histogram_len(r, labels, m, n - 1);
    }
}

/// Some bucket holds the largest total.
proof fn lemma_max_bucket_reached(s: StatsModel)
    requires
        s.len() > 0,
        forall|i: int| 0 <= i < s.len() ==> 0 <= bucket_total(#[trigger] s[i].1),
    ensures
        exists|k: int| 0 <= k < s.len() && bucket_total(#[trigger] s[k].1) == max_bucket_total(s),
    decreases s.len(),
{
    let t = s.drop_last();
    let last = s.len() - 1;
    assert(s[last] == s.last());
    assert(0 <= bucket_total(s[last].1));
    if s.len() > 1 {
        assert forall|i: int| 0 <= i < t.len() implies 0 <= bucket_total(#[trigger] t[i].1) by {
            assert(t[i] == s[i]);
        }
        lemma_max_bucket_reached(t);
        let k = choose|k: int| 0 <= k < t.len() && bucket_total(#[trigger] t[k].1) == max_bucket_total(t);
        assert(s[k] == t[k]);
        if bucket_total(s.last().1) > max_bucket_total(t) {
            assert(bucket_total(s[last].1) == max_bucket_total(s));
        } else {
            assert(bucket_total(s[k].1) == max_bucket_total(s));
        }
    } else {
        assert(t.len() == 0);
        assert(max_bucket_total(t) == 0);
        assert(bucket_total(s[last].1) == max_bucket_total(s));
    }
}

/// The histogram's bars are scaled to the busiest bucket shown: each row
/// shows its bucket's label, a bar of at most the full width made of shade
/// characters (padded with spaces to the full width) and the bucket's
/// total; and some shown bucket, one with no smaller total than any other
/// shown, has a bar of exactly the full width.
pub proof fn law_histogram_scaled_to_busiest(
    s: StatsModel,
    interval: int,
    span: Seq<char>,
    labels: Seq<Seq<char>>,
    files: Seq<(Seq<char>, int)>,
)
    requires
        crate::stats::stats_sorted(s),
        s.len() > 0,
        labels.len() == recent(s).len(),
        exists|i: int| 0 <= i < recent(s).len() && bucket_total(#[trigger] recent(s)[i].1) > 0,
    ensures
        ({
            let r = recent(s);
            let lines = report_spec(s, interval, span, labels, files);
            &&& forall|i: int|
                #![trigger r[i]]
                0 <= i < r.len() ==> exists|bar: Seq<char>|
                    #[trigger] shades(bar) && lines[i + 2] == labels[i] + "  "@ + pad_right(bar, STATS_BAR_WIDTH as nat) + "  "@
                        + dec(bucket_total(r[i].1) as nat)
            &&& exists|k: int, bar: Seq<char>|
                #![trigger shades(bar), r[k]]
                0 <= k < r.len() && shades(bar) && bar.len() == STATS_BAR_WIDTH && (forall|j: int|
                    0 <= j < r.len() ==> bucket_total(#[trigger] r[j].1) <= bucket_total(r[k].1)) && lines[k + 2]
                    == labels[k] + "  "@ + bar + "  "@ + dec(bucket_total(r[k].1) as nat)
        }),
{
    let r = recent(s);
    let m = max_bucket_total(r);
    let lines = report_spec(s, interval, span, labels, files);
    let h = histogram_lines(r, labels, m, r.len() as int);
    lemma_histogram_len(r, labels, m, r.len() as int);
    assert(r.len() > 0);
    let i0 = choose|i: int| 0 <= i < r.len() && bucket_total(#[trigger] r[i].1) > 0;
    lemma_max_bucket_total(r, i0);
    assert(m > 0);
    assert forall|i: int| 0 <= i < r.len() implies files_sorted(#[trigger] r[i].1) && 0 <= bucket_total(r[i].1) by {
        let off = s.len() - r.len();
        assert(r[i] == s[i + off]);
        crate::stats::lemma_bucket_le_total(s, i + off);
    }
    assert forall|i: int| 0 <= i < r.len() implies lines[i + 2] == h[i] by {
        assert(lines == seq![title_line(interval, span), legend_line()] + h + seq![totals_line(s)] + file_section(files));
    }
    assert forall|i: int| #![trigger r[i]] 0 <= i < r.len() implies exists|bar: Seq<char>|
        #[trigger] shades(bar) && lines[i + 2] == labels[i] + "  "@ + pad_right(bar, STATS_BAR_WIDTH as nat) + "  "@ + dec(
            bucket_total(r[i].1) as nat,
        ) by {
        lemma_max_bucket_total(r, i);
        lemma_bar_shape(r[i].1, m);
        lemma_histogram_row(r, labels, m, r.len() as int, i);
        let bar = bar_spec(r[i].1, m);
        assert(shades(bar));
        assert(lines[i + 2] == labels[i] + "  "@ + pad_right(bar, STATS_BAR_WIDTH as nat) + "  "@ + dec(
            bucket_total(r[i].1) as nat,
        ));
    }
    lemma_max_bucket_reached(r);
    let k = choose|k: int| 0 <= k < r.len() && bucket_total(#[trigger] r[k].1) == m;
    lemma_bar_shape(r[k].1, m);
    lemma_histogram_row(r, labels, m, r.len() as int, k);
    let bar = bar_spec(r[k].1, m);
    assert(pad_right(bar, STATS_BAR_WIDTH as nat) == bar);
    assert forall|j: int| 0 <= j < r.len() implies bucket_total(#[trigger] r[j].1) <= bucket_total(r[k].1) by {
        lemma_max_bucket_total(r, j);
    }
    assert(shades(bar) && r[k] == r[k]);
}

impl Stats {
    /// The histogram's title line.
    fn title(&self, span: &str) -> (res: String)
        ensures
            res@ == title_line(self.interval(), span@),
    {
        let mut s = "\u{2500}\u{2500} Activity \u{2500}\u{2500} ".to_owned();
        push_dec_i64(&mut s, self.interval_secs());
        s.append("s buckets \u{2500}\u{2500} ");
        s.append(span);
        s.append(" \u{2500}\u{2500}");
        s
    }

    /// The largest total among the buckets from position `from` on.
    fn max_total_from(&self, from: usize) -> (res: u64)
        requires
            self.wf(),
            from <= self.model().len(),
        ensures
            res == max_bucket_total(self.model().skip(from as int)),
    {
        let ghost s = self.model();
        let ghost r = s.skip(from as int);
        let n = self.bucket_count();
        let mut m: u64 = 0;
        let mut i = from;
        assert(r.take(0) =~= Seq::<(int, BucketModel)>::empty());
        while i < n
            invariant
                self.wf(),
                s == self.model(),
                r == s.skip(from as int),
                n == s.len(),
                from <= i <= n,
                m == max_bucket_total(r.take(i - from)),
            decreases n - i,
        {
            let entry = self.bucket_at(i);
            proof {
                crate::stats::lemma_bucket_le_total(s, i as int);
                assert(r.take(i + 1 - from).drop_last() =~= r.take(i - from));
                assert(r.take(i + 1 - from).last() == s[i as int]);
            }
            let t = entry.bucket().total();
            if t > m {
                m = t;
            }
            i += 1;
        }
        assert(r.take(n - from) =~= r);
        m
    }

    /// The totals line.
    fn totals(&self) -> (res: String)
        requires
            self.wf(),
        ensures
            res@ == totals_line(self.model()),
    {
        let ghost s = self.model();
        let levels = self.level_totals();
        let all = crate::level::all_levels();
        let mut s_out = "Totals: ".to_owned();
        push_dec(&mut s_out, self.total_lines());
        s_out.append(" lines");
        let ghost head = s_out@;
        let mut suffix = String::new();
        let mut any = false;
        let mut l: usize = 0;
        while l < LEVEL_COUNT
            invariant
                l <= LEVEL_COUNT,
                s == self.model(),
                forall|k: int| 0 <= k < LEVEL_COUNT ==> #[trigger] levels@[k] == stats_level(s, k),
                forall|k: int| 0 <= k < LEVEL_COUNT ==> #[trigger] all@[k] == level_at(k),
                suffix@ == breakdown(level_parts(s, l as int)),
                any == (level_parts(s, l as int).len() > 0),
            decreases LEVEL_COUNT - l,
        {
            let c = levels[l];
            if c > 0 {
                let ghost parts = level_parts(s, l as int);
                if any {
                    suffix.append(", ");
                } else {
                    suffix.append(" \u{2014} ");
                }
                suffix.append(all[l].label());
                suffix.append(" ");
                push_dec(&mut suffix, c);
                proof {
                    let x = level_label(level_at(l as int)) + " "@ + dec(c as nat);
                    lemma_breakdown_push(parts, x);
                    assert(level_parts(s, l + 1) == parts.push(x));
                    assert(suffix@ =~= breakdown(parts.push(x)));
                }
                any = true;
            } else {
                assert(level_parts(s, l + 1) == level_parts(s, l as int));
            }
            l += 1;
        }
        s_out.append(suffix.as_str());
        assert(s_out@ =~= totals_line(s));
        s_out
    }

    /// One line of the by-file summary.
    fn file_summary_line(name: &str, count: u64, max_file: u64) -> (res: String)
        requires
            1 <= max_file,
            count <= max_file,
        ensures
            res@ == file_line(name@, count as int, max_file as int),
    {
        let mut s = "  ".to_owned();
        let cut = truncate_end(name, FILE_NAME_WIDTH);
        push_padded_right(&mut s, &chars_of(cut.as_str()), FILE_NAME_WIDTH);
        s.append(" ");
        let digits = crate::text::dec_u64(count);
        push_padded_left(&mut s, &chars_of(digits.as_str()), 8);
        s.append("  ");
        let c: u128 = count as u128;
        let m: u128 = max_file as u128;
        assert(c * 24 <= m * 24) by (nonlinear_arith)
            requires
                c <= m,
        ;
        let len: u128 = (2 * (c * 24) + m) / (2 * m);
        assert(len <= 24) by (nonlinear_arith)
            requires
                len == (2 * (c * 24) + m) / (2 * m),
                c <= m,
                m >= 1,
        ;
        push_repeat(&mut s, '\u{2588}', len as usize);
        assert(s@ =~= file_line(name@, count as int, max_file as int));
        s
    }

    /// The histogram shown on `s`, given the span text and the labels of the
    /// most recent buckets.
    pub fn report_lines(&self, span: &str, labels: &Vec<String>) -> (res: Vec<String>)
        requires
            self.wf(),
            labels.len() == recent(self.model()).len(),
        ensures
            exists|files: Seq<(Seq<char>, int)>|
                is_file_summary(self.model(), files) && crate::text::views(res@) == report_spec(
                    self.model(),
                    self.interval(),
                    span@,
                    crate::text::views(labels@),
                    files,
                ),
    {
        let ghost s = self.model();
        let files = self.file_totals();
        let ghost fm = pairs_model(files@);
        let mut out: Vec<String> = Vec::new();
        if self.is_empty() {
            out.push("-- no activity recorded yet --".to_owned());
            assert(crate::text::views(out@) =~= report_spec(s, self.interval(), span@, crate::text::views(labels@), fm));
            return out;
        }
        out.push(self.title(span));
        out.push("   (\u{2593} error/fatal  \u{2592} warn  \u{2591} info/debug/other)".to_owned());
        let n = self.bucket_count();
        let from = if n > STATS_HISTOGRAM_ROWS { n - STATS_HISTOGRAM_ROWS } else { 0 };
        let ghost r = recent(s);
        assert(r =~= s.skip(from as int));
        let max_total = self.max_total_from(from);
        let ghost lv = crate::text::views(labels@);
        let ghost head = seq![title_line(self.interval(), span@), legend_line()];
        assert(crate::text::views(out@) =~= head);
        let mut i = from;
        while i < n
            invariant
                self.wf(),
                s == self.model(),
                n == s.len(),
                r == s.skip(from as int),
                from <= i <= n,
                labels.len() == n - from,
                lv == crate::text::views(labels@),
                max_total == max_bucket_total(r),
                crate::text::views(out@) == head + histogram_lines(r, lv, max_total as int, i - from),
            decreases n - i,
        {
            let entry = self.bucket_at(i);
            let bucket = entry.bucket();
            proof {
                lemma_max_bucket_total(r, i - from);
                assert(r[i - from] == s[i as int]);
                crate::stats::lemma_bucket_le_total(s, i as int);
                let t = bucket_total(bucket.model());
                let m = max_total as int;
                assert(t <= m);
                if m > 0 {
                    assert((2 * (t * 32) + m) / (2 * m) <= 32) by (nonlinear_arith)
                        requires
                            0 <= t <= m,
                            m > 0,
                    ;
                }
            }
            let mut line = String::new();
            line.append(labels[i - from].as_str());
            line.append("  ");
            let bar = self.bar(bucket, max_total);
            push_padded_right(&mut line, &chars_of(bar.as_str()), STATS_BAR_WIDTH);
            line.append("  ");
            push_dec(&mut line, bucket.total());
            let ghost before = crate::text::views(out@);
            out.push(line);
            i += 1;
            assert(crate::text::views(out@) =~= before.push(histogram_line(lv[i - 1 - from], r[i - 1 - from].1, max_total as int)));
        }
        out.push(self.totals());
        let ghost mid = crate::text::views(out@);
        assert(mid =~= head + histogram_lines(r, lv, max_total as int, r.len() as int) + seq![totals_line(s)]);
        if files.len() > 0 {
            out.push("By file:".to_owned());
            let first = files[0].1;
            let max_file: u64 = if first >= 1 { first } else { 1 };
            let k = if files.len() <= STATS_TOP_FILES { files.len() } else { STATS_TOP_FILES };
            let mut j: usize = 0;
            while j < k
                invariant
                    k <= files.len(),
                    fm == pairs_model(files@),
                    crate::stats::is_file_summary(s, fm),
                    max_file as int == if fm[0].1 >= 1 { fm[0].1 } else { 1 },
                    files.len() > 0,
                    j <= k,
                    crate::text::views(out@) == mid + seq!["By file:"@] + file_lines(fm, max_file as int, j as int),
                decreases k - j,
            {
                let name = &files[j].0;
                let count = files[j].1;
                proof {
                    if j > 0 {
                        assert(crate::stats::ranks_before(fm[0], fm[j as int]));
                    }
                    assert(fm[j as int] == (name@, count as int));
                }
                let line = Self::file_summary_line(name.as_str(), count, max_file);
                let ghost before = crate::text::views(out@);
                out.push(line);
                j += 1;
                assert(crate::text::views(out@) =~= before.push(file_line(fm[j - 1].0, fm[j - 1].1, max_file as int)));
            }
            let ghost lines = file_lines(fm, max_file as int, k as int);
            assert(fm.len() == files.len());
            assert(crate::text::views(out@) == mid + seq!["By file:"@] + lines);
            if files.len() > STATS_TOP_FILES {
                let mut more = "  \u{2026} and ".to_owned();
                push_dec(&mut more, (files.len() - STATS_TOP_FILES) as u64);
                more.append(" more files");
                let ghost more_line = more@;
                assert(more_line == "  \u{2026} and "@ + dec((files.len() - STATS_TOP_FILES) as nat) + " more files"@);
                out.push(more);
                assert(crate::text::views(out@) =~= mid + seq!["By file:"@] + lines + seq![more_line]);
                assert(file_section(fm) =~= seq!["By file:"@] + lines + seq![more_line]);
            } else {
                assert(file_section(fm) =~= seq!["By file:"@] + lines);
            }
            assert(crate::text::views(out@) =~= mid + file_section(fm));
        } else {
            assert(crate::text::views(out@) =~= mid + file_section(fm));
        }
        assert(crate::text::views(out@) =~= report_spec(s, self.interval(), span@, lv, fm));
        out
    }

    /// The label of a bucket in the histogram: its local start time as
    /// `HH:MM`, or the epoch seconds when that local time does not exist.
    pub fn bucket_label(&self, key: i64) -> (res: String)
        ensures
            fits(res@, "dd:dd"@) || (!in_calendar(key as int) && res@ == dec_int(key as int)),
    {
        local_text_or_key(key, "%H:%M")
    }

    /// The histogram shown when the user presses `s`.
    pub fn render_report(&self) -> (res: Vec<String>)
        requires
            self.wf(),
        ensures
            self.model().len() == 0 ==> crate::text::views(res@) == seq!["-- no activity recorded yet --"@],
            exists|span: Seq<char>, labels: Seq<Seq<char>>, files: Seq<(Seq<char>, int)>|
                span_shape(span) && (self.model().len() > 0 && in_calendar(self.model()[0].0) && in_calendar(
                    self.model().last().0,
                ) ==> span.len() > 0) && labels_shaped(recent(self.model()), labels) && is_file_summary(self.model(), files)
                    && crate::text::views(res@) == #[trigger] report_spec(self.model(), self.interval(), span, labels, files),
    {
        let n = self.bucket_count();
        let mut labels: Vec<String> = Vec::new();
        let mut span = String::new();
        if n > 0 {
            let first = self.bucket_at(0).start();
            let last = self.bucket_at(n - 1).start();
            assert(last == self.model().last().0);
            let date = local_time_text(first, "%Y-%m-%d");
            let from_clock = local_time_text(first, "%H:%M");
            let to_clock = local_time_text(last, "%H:%M");
            match (date, from_clock, to_clock) {
                (Some(d), Some(a), Some(b)) => {
                    span.append(d.as_str());
                    span.append(" ");
                    span.append(a.as_str());
                    span.append("-");
                    span.append(b.as_str());
                    proof {
                        lemma_span_shape(d@, a@, b@);
                        assert(span@ =~= d@ + " "@ + a@ + "-"@ + b@);
                        reveal_strlit(" ");
                        assert(span@.len() > 0);
                    }
                },
                _ => {},
            }
            let from = if n > STATS_HISTOGRAM_ROWS { n - STATS_HISTOGRAM_ROWS } else { 0 };
            let ghost r = recent(self.model());
            assert(r =~= self.model().skip(from as int));
            let mut i = from;
            while i < n
                invariant
                    n == self.model().len(),
                    from <= i <= n,
                    labels.len() == i - from,
                    r == self.model().skip(from as int),
                    forall|j: int| 0 <= j < i - from ==> time_or_epoch("%H:%M"@, r[j].0, #[trigger] labels@[j]@),
                decreases n - i,
            {
                let label = self.bucket_label(self.bucket_at(i).start());
                labels.push(label);
                assert(r[i - from] == self.model()[i as int]);
                i += 1;
            }
            assert(labels_shaped(r, crate::text::views(labels@)));
        } else {
            assert(labels_shaped(recent(self.model()), crate::text::views(labels@)));
        }
        self.report_lines(span.as_str(), &labels)
    }
}


// ---------------------------------------------------------------------------
// CSV report
// ---------------------------------------------------------------------------

/// The CSV report's header line.
pub open spec fn csv_header() -> Seq<char> {
    "bucket_start,file,level,count\n"@
}

/// One CSV record: quoted start, quoted file, severity label and count.
pub open spec fn csv_record(start_field: Seq<char>, file: Seq<char>, l: int, count: int) -> Seq<char> {
    start_field + ","@ + csv_field_spec(file) + ","@ + level_label(level_at(l)) + ","@ + dec(count as nat) + "\n"@
}

/// The records of one file's row, for the first `k` severities with a
/// nonzero count.
pub open spec fn csv_row(start_field: Seq<char>, row: Row, k: int) -> Seq<char>
    decreases k,
{
    if k <= 0 {
        Seq::empty()
    } else {
        csv_row(start_field, row, k - 1) + if row.1[k - 1] > 0 {
            csv_record(start_field, row.0, k - 1, row.1[k - 1] as int)
        } else {
            Seq::empty()
        }
    }
}

/// The records of the first `k` files of a bucket.
pub open spec fn csv_bucket(start_field: Seq<char>, b: BucketModel, k: int) -> Seq<char>
    decreases k,
{
    if k <= 0 {
        Seq::empty()
    } else {
        csv_bucket(start_field, b, k - 1) + csv_row(start_field, b[k - 1], LEVEL_COUNT as int)
    }
}

/// The records of the first `k` buckets, each under its start text.
pub open spec fn csv_body(s: StatsModel, starts: Seq<Seq<char>>, k: int) -> Seq<char>
    decreases k,
{
    if k <= 0 {
        Seq::empty()
    } else {
        csv_body(s, starts, k - 1) + csv_bucket(csv_field_spec(starts[k - 1]), s[k - 1].1, s[k - 1].1.len() as int)
    }
}

/// The tidy long-format CSV report: one record per (bucket, file,
/// severity) with a nonzero count, buckets oldest first, files by name,
/// severities in their fixed order.
pub open spec fn csv_spec(s: StatsModel, starts: Seq<Seq<char>>) -> Seq<char> {
    csv_header() + csv_body(s, starts, s.len() as int)
}

/// Appends the records of one file's row.
fn push_row_csv(out: &mut String, start_field: &str, row: &crate::stats::FileCounts)
    requires
        row.row().1.len() == LEVEL_COUNT,
    ensures
        final(out)@ == old(out)@ + csv_row(start_field@, row.row(), LEVEL_COUNT as int),
{
    let all = crate::level::all_levels();
    let file = csv_field(row.file());
    let mut l: usize = 0;
    while l < LEVEL_COUNT
        invariant
            l <= LEVEL_COUNT,
            row.row().1.len() == LEVEL_COUNT,
            file@ == csv_field_spec(row.row().0),
            forall|k: int| 0 <= k < LEVEL_COUNT ==> #[trigger] all@[k] == level_at(k),
            out@ == old(out)@ + csv_row(start_field@, row.row(), l as int),
        decreases LEVEL_COUNT - l,
    {
        let level = all[l];
        let count = row.count(level);
        let ghost before = out@;
        if count > 0 {
            out.append(start_field);
            out.append(",");
            out.append(file.as_str());
            out.append(",");
            out.append(level.label());
            out.append(",");
            push_dec(out, count);
            out.append("\n");
        }
        assert(out@ =~= before + if count > 0 {
            csv_record(start_field@, row.row().0, l as int, count as int)
        } else {
            Seq::empty()
        });
        l += 1;
    }
}

impl Stats {
    /// The CSV report, given the start text of each bucket.
    pub fn csv_with_starts(&self, starts: &Vec<String>) -> (res: String)
        requires
            self.wf(),
            starts.len() == self.model().len(),
        ensures
            res@ == csv_spec(self.model(), crate::text::views(starts@)),
    {
        let ghost s = self.model();
        let ghost sv = crate::text::views(starts@);
        let mut out = "bucket_start,file,level,count\n".to_owned();
        let n = self.bucket_count();
        let mut i: usize = 0;
        while i < n
            invariant
                self.wf(),
                s == self.model(),
                n == s.len(),
                i <= n,
                starts.len() == n,
                sv == crate::text::views(starts@),
                out@ == csv_header() + csv_body(s, sv, i as int),
            decreases n - i,
        {
            let bucket = self.bucket_at(i).bucket();
            let ghost b = s[i as int].1;
            assert(files_sorted(b));
            let start_field = csv_field(starts[i].as_str());
            let m = bucket.file_count();
            let ghost head = out@;
            let mut j: usize = 0;
            while j < m
                invariant
                    bucket.model() == b,
                    files_sorted(b),
                    m == b.len(),
                    j <= m,
                    out@ == head + csv_bucket(start_field@, b, j as int),
                decreases m - j,
            {
                let row = bucket.file_at(j);
                assert(row.row().1.len() == LEVEL_COUNT);
                push_row_csv(&mut out, start_field.as_str(), row);
                j += 1;
                assert(out@ =~= head + csv_bucket(start_field@, b, j as int));
            }
            i += 1;
            assert(out@ =~= csv_header() + csv_body(s, sv, i as int));
        }
        out
    }

    /// The tidy long-format CSV report. Each bucket's start is written as
    /// its local time (`%Y-%m-%dT%H:%M:%S%:z`), or as epoch seconds when that
    /// local time does not exist.
    pub fn to_csv(&self) -> (res: String)
        requires
            self.wf(),
        ensures
            exists|starts: Seq<Seq<char>>|
                starts_shaped(self.model(), starts) && res@ == #[trigger] csv_spec(self.model(), starts),
    {
        let starts = self.start_texts();
        self.csv_with_starts(&starts)
    }

    /// The local start time of every bucket, as the reports write it.
    fn start_texts(&self) -> (res: Vec<String>)
        ensures
            starts_shaped(self.model(), crate::text::views(res@)),
    {
        let n = self.bucket_count();
        let mut out: Vec<String> = Vec::new();
        let mut i: usize = 0;
        while i < n
            invariant
                n == self.model().len(),
                i <= n,
                out.len() == i,
                forall|j: int| 0 <= j < i ==> time_or_epoch(iso_format(), self.model()[j].0, #[trigger] out@[j]@),
            decreases n - i,
        {
            out.push(local_text_or_key(self.bucket_at(i).start(), "%Y-%m-%dT%H:%M:%S%:z"));
            i += 1;
        }
        out
    }
}


// ---------------------------------------------------------------------------
// JSON report data
// ---------------------------------------------------------------------------

/// `(label, count)` for each of the first `k` severities whose count in
/// `counts` is nonzero.
pub open spec fn nonzero_levels(counts: Seq<int>, k: int) -> Seq<(Seq<char>, int)>
    decreases k,
{
    if k <= 0 {
        Seq::empty()
    } else {
        let r = nonzero_levels(counts, k - 1);
        if counts[k - 1] > 0 {
            r.push((level_label(level_at(k - 1)), counts[k - 1]))
        } else {
            r
        }
    }
}

/// The per-severity counts of a bucket.
pub open spec fn bucket_counts(b: BucketModel) -> Seq<int> {
    Seq::new(LEVEL_COUNT as nat, |l: int| bucket_level(b, l))
}

/// The per-severity counts of a row.
pub open spec fn row_counts(r: Row) -> Seq<int> {
    Seq::new(LEVEL_COUNT as nat, |l: int| r.1[l] as int)
}

/// One bucket of the JSON report, as a model: start text, total,
/// nonzero severities, and each file with its nonzero severities.
pub type BucketReportModel = (Seq<char>, int, Seq<(Seq<char>, int)>, Seq<(Seq<char>, Seq<(Seq<char>, int)>)>);

/// One bucket of the JSON report.
pub struct BucketReport {
    pub start: String,
    pub total: u64,
    pub by_level: Vec<(String, u64)>,
    pub by_file: Vec<(String, Vec<(String, u64)>)>,
}

/// A file's name and nonzero severities, as a model.
pub open spec fn file_levels_model(p: (String, Vec<(String, u64)>)) -> (Seq<char>, Seq<(Seq<char>, int)>) {
    (p.0@, pairs_model(p.1@))
}

impl BucketReport {
    pub open spec fn model(&self) -> BucketReportModel {
        (self.start@, self.total as int, pairs_model(self.by_level@), self.by_file@.map_values(
            |p: (String, Vec<(String, u64)>)| file_levels_model(p),
        ))
    }
}

/// The JSON report of a bucket whose start reads `start`.
pub open spec fn bucket_report_spec(start: Seq<char>, b: BucketModel) -> BucketReportModel {
    (
        start,
        bucket_total(b),
        nonzero_levels(bucket_counts(b), LEVEL_COUNT as int),
        b.map_values(|r: Row| (r.0, nonzero_levels(row_counts(r), LEVEL_COUNT as int))),
    )
}

/// The JSON report's buckets, each under its start text.
pub open spec fn json_buckets_spec(s: StatsModel, starts: Seq<Seq<char>>) -> Seq<BucketReportModel> {
    Seq::new(s.len(), |i: int| bucket_report_spec(starts[i], s[i].1))
}

/// The data of the JSON stats report.
pub struct StatsReport {
    pub interval_seconds: i64,
    pub generated_at: String,
    pub total_lines: u64,
    pub buckets: Vec<BucketReport>,
}

impl StatsReport {
    /// The buckets as models.
    pub open spec fn buckets_model(&self) -> Seq<BucketReportModel> {
        self.buckets@.map_values(|b: BucketReport| b.model())
    }
}

/// The `(label, count)` pairs of the nonzero counts, in severity order.
fn nonzero_level_pairs(counts: &[u64; 6]) -> (res: Vec<(String, u64)>)
    ensures
        pairs_model(res@) == nonzero_levels(
            Seq::new(LEVEL_COUNT as nat, |l: int| counts@[l] as int),
            LEVEL_COUNT as int,
        ),
{
    let ghost c = Seq::new(LEVEL_COUNT as nat, |l: int| counts@[l] as int);
    let all = crate::level::all_levels();
    let mut out: Vec<(String, u64)> = Vec::new();
    let mut l: usize = 0;
    while l < LEVEL_COUNT
        invariant
            l <= LEVEL_COUNT,
            c == Seq::new(LEVEL_COUNT as nat, |l: int| counts@[l] as int),
            forall|k: int| 0 <= k < LEVEL_COUNT ==> #[trigger] all@[k] == level_at(k),
            pairs_model(out@) == nonzero_levels(c, l as int),
        decreases LEVEL_COUNT - l,
    {
        let count = counts[l];
        if count > 0 {
            out.push((all[l].label().to_owned(), count));
        }
        l += 1;
        assert(pairs_model(out@) =~= nonzero_levels(c, l as int));
    }
    out
}

impl Stats {
    /// One bucket of the JSON report.
    fn bucket_report(bucket: &StatsBucket, start: String) -> (res: BucketReport)
        requires
            bucket.wf(),
        ensures
            res.model() == bucket_report_spec(start@, bucket.model()),
    {
        let ghost b = bucket.model();
        let levels = bucket.by_level();
        assert(Seq::new(LEVEL_COUNT as nat, |l: int| levels@[l] as int) =~= bucket_counts(b));
        let by_level = nonzero_level_pairs(&levels);
        let m = bucket.file_count();
        let mut by_file: Vec<(String, Vec<(String, u64)>)> = Vec::new();
        let mut j: usize = 0;
        while j < m
            invariant
                bucket.model() == b,
                files_sorted(b),
                m == b.len(),
                j <= m,
                by_file@.map_values(|p: (String, Vec<(String, u64)>)| file_levels_model(p)) =~= b.take(
                    j as int,
                ).map_values(|r: Row| (r.0, nonzero_levels(row_counts(r), LEVEL_COUNT as int))),
            decreases m - j,
        {
            let row = bucket.file_at(j);
            let ghost r = row.row();
            assert(r.1.len() == LEVEL_COUNT);
            let counts: [u64; 6] = [
                row.count(LogLevel::Fatal),
                row.count(LogLevel::Error),
                row.count(LogLevel::Warn),
                row.count(LogLevel::Info),
                row.count(LogLevel::Debug),
                row.count(LogLevel::Other),
            ];
            assert(Seq::new(LEVEL_COUNT as nat, |l: int| counts@[l] as int) =~= row_counts(r));
            let pairs = nonzero_level_pairs(&counts);
            let name = row.file().to_owned();
            let ghost entry = (name, pairs);
            let ghost before = by_file@.map_values(|p: (String, Vec<(String, u64)>)| file_levels_model(p));
            by_file.push((name, pairs));
            j += 1;
            assert(b.take(j as int) =~= b.take(j - 1).push(r));
            assert(by_file@.map_values(|p: (String, Vec<(String, u64)>)| file_levels_model(p)) =~= before.push(
                file_levels_model(entry),
            ));
        }
        assert(b.take(m as int) =~= b);
        let total = bucket.total();
        BucketReport { start, total, by_level, by_file }
    }

    /// The data of the JSON report, given the start text of each bucket and
    /// the generation time.
    pub fn json_with_starts(&self, starts: Vec<String>, generated_at: String) -> (res: StatsReport)
        requires
            self.wf(),
            starts.len() == self.model().len(),
        ensures
            res.interval_seconds == self.interval(),
            res.generated_at == generated_at,
            res.total_lines == stats_total(self.model()),
            res.buckets_model() == json_buckets_spec(self.model(), crate::text::views(starts@)),
    {
        let ghost s = self.model();
        let n = self.bucket_count();
        let mut buckets: Vec<BucketReport> = Vec::new();
        let mut i: usize = 0;
        while i < n
            invariant
                self.wf(),
                s == self.model(),
                n == s.len(),
                i <= n,
                starts.len() == n,
                buckets@.map_values(|b: BucketReport| b.model()) =~= json_buckets_spec(
                    s,
                    crate::text::views(starts@),
                ).take(i as int),
            decreases n - i,
        {
            let bucket = self.bucket_at(i).bucket();
            assert(files_sorted(s[i as int].1));
            proof {
                crate::stats::lemma_bucket_le_total(s, i as int);
            }
            let start = starts[i].clone();
            let report = Self::bucket_report(bucket, start);
            let ghost before = buckets@.map_values(|b: BucketReport| b.model());
            buckets.push(report);
            i += 1;
            assert(buckets@.map_values(|b: BucketReport| b.model()) =~= before.push(report.model()));
            assert(crate::text::views(starts@)[i - 1] == starts@[i - 1]@);
        }
        StatsReport {
            interval_seconds: self.interval_secs(),
            generated_at,
            total_lines: self.total_lines(),
            buckets,
        }
    }

    /// The data of the JSON report: bucket starts as local times, stamped
    /// with the current local time.
    pub fn to_json(&self) -> (res: StatsReport)
        requires
            self.wf(),
        ensures
            res.interval_seconds == self.interval(),
            res.total_lines == stats_total(self.model()),
            exists|starts: Seq<Seq<char>>|
                starts_shaped(self.model(), starts) && res.buckets_model() == #[trigger] json_buckets_spec(
                    self.model(),
                    starts,
                ),
            exists|now: int| #[trigger] time_or_epoch(iso_format(), now, res.generated_at@),
    {
        let starts = self.start_texts();
        let epoch = now_epoch();
        let now = local_text_or_key(epoch, "%Y-%m-%dT%H:%M:%S%:z");
        assert(time_or_epoch(iso_format(), epoch as int, now@));
        let res = self.json_with_starts(starts, now);
        proof {
            let sv = crate::text::views(starts@);
            assert(res.buckets_model() == json_buckets_spec(self.model(), sv));
        }
        res
    }
}

/// The current time in seconds since the epoch.
///
/// Trusted: `chrono::Local::now()` and its `timestamp()`. The value comes
/// from the machine's clock, so nothing is stated of it.
#[verifier::external_body]
fn now_epoch() -> i64 {
    chrono::Local::now().timestamp()
}

/// The body of the exit-time report file.
pub enum ReportBody {
    /// The data of a JSON report.
    Json(StatsReport),
    /// A CSV report.
    Csv(String),
}

impl Stats {
    /// The report to write to `path`: JSON when its extension is `json` in
    /// any ASCII case, else CSV.
    pub fn report_body(&self, path: &str) -> (res: ReportBody)
        requires
            self.wf(),
        ensures
            match res {
                ReportBody::Json(r) => {
                    &&& report_format_spec(path@) == ReportFormat::Json
                    &&& r.interval_seconds == self.interval()
                    &&& r.total_lines == stats_total(self.model())
                    &&& exists|starts: Seq<Seq<char>>|
                        starts_shaped(self.model(), starts) && r.buckets_model() == #[trigger] json_buckets_spec(
                            self.model(),
                            starts,
                        )
                    &&& exists|now: int| #[trigger] time_or_epoch(iso_format(), now, r.generated_at@)
                },
                ReportBody::Csv(c) => {
                    &&& report_format_spec(path@) == ReportFormat::Csv
                    &&& exists|starts: Seq<Seq<char>>|
                        starts_shaped(self.model(), starts) && c@ == #[trigger] csv_spec(self.model(), starts)
                },
            },
    {
        match report_format(path) {
            ReportFormat::Json => ReportBody::Json(self.to_json()),
            ReportFormat::Csv => ReportBody::Csv(self.to_csv()),
        }
    }
}

} // verus!
