//! The ASCII "blocks" pack: its rows are lines of styled spans, so its
//! layout decisions are span widths: the spans kept on a line, the widths
//! of its `#` bars, the header and cells of its text table and the row
//! budgets of its widgets.

use vstd::prelude::*;
use crate::cpu::{max, min, sat_sub, unify_chunk};
use crate::format::{bytes_short_text, format_bytes_short};
use crate::processes::{Column, CpuColumns, column_label};
use crate::text::{byte_width, push_char, push_str, truncate_chars, truncated};

verus! {

broadcast use vstd::string::group_string_axioms;

/// The display width of a text in terminal columns (Unicode width).
pub uninterp spec fn display_width(s: Seq<char>) -> nat;

/// Calls ratatui's `Span::width` on a raw span of `s`. Trusted: the width
/// it returns is taken to be `display_width(s@)`, the Unicode display width
/// of the text; the width table itself is not restated here.
#[verifier::external_body]
fn span_width(s: &str) -> (r: usize)
    ensures
        r == display_width(s@),
{
    ratatui::text::Span::raw(s).width()
}

/// The width of a line of spans: the sum of the span widths.
pub open spec fn line_width(spans: Seq<Seq<char>>) -> nat
    decreases spans.len(),
{
    if spans.len() == 0 {
        0
    } else {
        line_width(spans.drop_last()) + display_width(spans.last())
    }
}

/// How many leading spans a line keeps when trailing spans are dropped
/// until it fits `width` (`k` of them are still on the line).
pub open spec fn kept_spans(spans: Seq<Seq<char>>, width: nat, k: nat) -> nat
    decreases k,
{
    if k == 0 || line_width(spans.take(k as int)) <= width {
        k
    } else {
        kept_spans(spans, width, (k - 1) as nat)
    }
}

proof fn lemma_line_width_prefix(spans: Seq<Seq<char>>, k: int)
    requires
        0 < k <= spans.len(),
    ensures
        line_width(spans.take(k)) == line_width(spans.take(k - 1)) + display_width(spans[k - 1]),
{
    assert(spans.take(k).drop_last() =~= spans.take(k - 1));
}

/// The sum of the first `k` measured widths.
pub open spec fn widths_sum(w: Seq<usize>, k: int) -> nat
    decreases k,
{
    if k <= 0 || k > w.len() {
        0
    } else {
        widths_sum(w, k - 1) + w[k - 1] as nat
    }
}

/// How many leading spans of measured widths `w` stay when trailing spans
/// are dropped until the rest fits `width` (`k` of them still on the line).
pub open spec fn kept_by_width(w: Seq<usize>, width: nat, k: nat) -> nat
    decreases k,
{
    if k == 0 || widths_sum(w, k as int) <= width {
        k
    } else {
        kept_by_width(w, width, (k - 1) as nat)
    }
}

proof fn lemma_widths_sum_bound(w: Seq<usize>, k: int)
    requires
        0 <= k <= w.len(),
    ensures
        widths_sum(w, k) <= k * (usize::MAX as int),
    decreases k,
{
    if k > 0 {
        lemma_widths_sum_bound(w, k - 1);
        assert((k - 1) * (usize::MAX as int) + usize::MAX as int == k * (usize::MAX as int)) by (nonlinear_arith);
    }
}

/// The number of leading spans, of measured widths `widths`, that stay on
/// a line `width` columns wide when trailing spans are dropped while the
/// line is too wide.
pub fn kept_span_count(widths: &Vec<usize>, width: u16) -> (r: usize)
    ensures
        r == kept_by_width(widths@, width as nat, widths@.len() as nat),
        r <= widths@.len(),
{
    let n = widths.len();
    let mut total: u128 = 0;
    let mut i: usize = 0;
    while i < n
        invariant
            i <= n == widths@.len(),
            total == widths_sum(widths@, i as int),
        decreases n - i,
    {
        proof {
            lemma_widths_sum_bound(widths@, i as int);
            assert(total + widths@[i as int] <= (i + 1) * (usize::MAX as int)) by (nonlinear_arith)
                requires total <= i * (usize::MAX as int), widths@[i as int] <= usize::MAX;
            assert((i + 1) * (usize::MAX as int) <= u128::MAX) by (nonlinear_arith)
                requires i < usize::MAX;
        }
        total = total + widths[i] as u128;
        i = i + 1;
    }
    let mut k = n;
    while k > 0 && total > width as u128
        invariant
            k <= n == widths@.len(),
            total == widths_sum(widths@, k as int),
            kept_by_width(widths@, width as nat, n as nat) == kept_by_width(widths@, width as nat, k as nat),
        decreases k,
    {
        total = total - widths[k - 1] as u128;
        k = k - 1;
    }
    k
}

proof fn lemma_measured_widths(spans: Seq<Seq<char>>, w: Seq<usize>, width: nat, k: nat)
    requires
        w.len() == spans.len(),
        k <= spans.len(),
        forall|j: int| 0 <= j < spans.len() ==> #[trigger] w[j] == display_width(spans[j]),
    ensures
        widths_sum(w, k as int) == line_width(spans.take(k as int)),
        kept_by_width(w, width, k) == kept_spans(spans, width, k),
    decreases k,
{
    if k > 0 {
        lemma_measured_widths(spans, w, width, (k - 1) as nat);
        lemma_line_width_prefix(spans, k as int);
    } else {
        assert(spans.take(0) =~= Seq::<Seq<char>>::empty());
    }
}

/// The spans of a line that stay when trailing spans are dropped while the
/// line is wider than `width`: each span is measured, then
/// [`kept_span_count`] decides.
pub fn fit_spans(spans: &Vec<String>, width: u16) -> (r: usize)
    ensures
        r == kept_spans(crate::options::names_view(spans@), width as nat, spans@.len()),
        r <= spans@.len(),
{
    let ghost all = crate::options::names_view(spans@);
    let mut widths: Vec<usize> = Vec::new();
    let mut i: usize = 0;
    while i < spans.len()
        invariant
            i <= spans.len(),
            all == crate::options::names_view(spans@),
            widths@.len() == i,
            forall|k: int| 0 <= k < i ==> #[trigger] widths@[k] == display_width(all[k]),
        decreases spans.len() - i,
    {
        let w = span_width(spans[i].as_str());
        assert(all[i as int] == spans@[i as int]@);
        widths.push(w);
        i = i + 1;
    }
    proof {
        lemma_measured_widths(all, widths@, width as nat, spans@.len() as nat);
    }
    kept_span_count(&widths, width)
}

/// `#` fill of an ASCII bar: the number of `#` cells for a share is
/// rounded by the caller; the bar never exceeds its width.
pub fn ascii_fill(filled: usize, width: usize) -> (r: String)
    ensures
        r@ == Seq::new(min(filled as int, width as int) as nat, |_i: int| '#'),
{
    let n = if filled < width { filled } else { width };
    let mut out = String::new();
    let mut k: usize = 0;
    while k < n
        invariant
            k <= n,
            out@ == Seq::new(k as nat, |_i: int| '#'),
        decreases n - k,
    {
        push_char(&mut out, '#');
        k = k + 1;
        assert(out@ =~= Seq::new(k as nat, |_i: int| '#'));
    }
    out
}

/// A body text fitted to `room` columns: unchanged when its bytes fit,
/// else cut one column short of the room (`…` included).
pub open spec fn fitted_body(body: Seq<char>, room: nat) -> Seq<char> {
    if byte_width(body) > room { truncated(body, sat_sub(room as int, 1) as nat) } else { body }
}

pub fn fit_body(body: &str, room: usize) -> (r: String)
    ensures
        r@ == fitted_body(body@, room as nat),
{
    if body.len() > room {
        truncate_chars(body, if room >= 1 { room - 1 } else { 0 })
    } else {
        let mut out = String::new();
        push_str(&mut out, body);
        assert(out@ =~= body@);
        out
    }
}

/// `{used} / {total}` in compact bytes.
pub open spec fn used_slash_total_text(used: nat, total: nat) -> Seq<char> {
    bytes_short_text(used) + " / "@ + bytes_short_text(total)
}

pub fn used_slash_total(used: u64, total: u64) -> (r: String)
    ensures
        r@ == used_slash_total_text(used as nat, total as nat),
{
    let mut out = String::new();
    let a = format_bytes_short(used);
    push_str(&mut out, a.as_str());
    push_str(&mut out, " / ");
    let b = format_bytes_short(total);
    push_str(&mut out, b.as_str());
    assert(out@ =~= used_slash_total_text(used as nat, total as nat));
    out
}

/// The cpu rows of the pack: the unified row takes the last row when a row
/// is left over for it and temperature or power data exists; the core
/// lines get the rest of the height.
pub fn cpu_budget(height: u16, cores: usize, has_extra: bool) -> (r: (u16, bool))
    ensures
        r.1 == ((height as int) > cores && height >= 2 && has_extra),
        r.0 == (if r.1 { height - 1 } else { height as int }),
{
    let unify_on = (height as usize) > cores && height >= 2 && has_extra;
    (if unify_on { height - 1 } else { height }, unify_on)
}

/// What the pack's unified row below the core lines shows.
#[derive(PartialEq, Eq, Structural, Clone, Copy, Debug)]
pub enum UnifyRow {
    /// `Avg: NN%` and the average `#` bar, `bar_w` wide.
    Average { bar_w: usize },
    /// The `usage` segment, then `temp` when `temp` holds, then `power`
    /// when `power` holds, each with a `#` share bar `chunk` wide.
    Segments { chunk: u16, temp: bool, power: bool },
}

/// Choose the unified row of a cpu area `width` wide. The temp segment
/// shows only when the temperature cells are on (the `show_temp`
/// preference) and a shown core reports a temperature; the power segment
/// only when the package power is known. With neither, the classic
/// average line: no segment is made up.
pub fn unify_row(width: u16, temp_on: bool, temp_known: bool, power_known: bool) -> (r: UnifyRow)
    ensures
        (r is Segments) == ((temp_on && temp_known) || power_known),
        r matches UnifyRow::Average { bar_w } ==> bar_w == max(sat_sub(width as int, 10), 1),
        r matches UnifyRow::Segments { chunk, temp, power } ==> {
            &&& chunk == (if width >= 66 { 8int } else if width >= 50 { 6 } else if width >= 38 { 4 } else { 0 })
            &&& temp == (temp_on && temp_known)
            &&& power == power_known
        },
{
    let temp = temp_on && temp_known;
    if temp || power_known {
        UnifyRow::Segments { chunk: unify_chunk(width), temp, power: power_known }
    } else {
        UnifyRow::Average { bar_w: avg_bar_width(width) }
    }
}

/// The `#` bar width of a core line: what the label, percent, frequency,
/// heat mark and temperature cells leave of the row.
pub fn cpu_bar_width(width: u16, label_w: u16, freq_on: bool, heat: bool, temp_on: bool) -> (r: u16)
    ensures
        r == sat_sub(
            width as int,
            label_w + 1 + 4 + 1 + (if freq_on { 8int } else { 0 }) + (if heat { 2int } else { 0 }) + (
            if temp_on { 5int } else { 0 }),
        ),
{
    let x: u32 = label_w as u32 + 1 + 4 + 1 + if freq_on { 8 } else { 0 };
    let used: u32 = x + if heat { 2 } else { 0 } + if temp_on { 5 } else { 0 };
    if width as u32 >= used { (width as u32 - used) as u16 } else { 0 }
}

/// The classic average line's bar: what `Avg: 100% ` leaves, at least one.
pub fn avg_bar_width(width: u16) -> (r: usize)
    ensures
        r == max(sat_sub(width as int, 10), 1),
{
    let w = if width >= 10 { (width - 10) as usize } else { 0 };
    if w > 1 { w } else { 1 }
}

/// The widths of a meter line: the bar (at least one cell) and the free
/// spark (on wide rows with a free-share history).
pub fn meter_widths(width: u16, detail_w: usize, spark_hist: bool) -> (r: (usize, usize))
    ensures
        r.1 == (if spark_hist && width >= 64 { 6int } else { 0 }),
        r.0 == (if width >= 34 {
            max(sat_sub(width as int, 9 + 1 + detail_w + 1 + r.1), 1)
        } else {
            max(sat_sub(width as int, 9), 1)
        }),
{
    let spark_w: usize = if spark_hist && width >= 64 { 6 } else { 0 };
    let w = width as usize;
    let bar = if width >= 34 {
        let used: u128 = 9 + 1 + detail_w as u128 + 1 + spark_w as u128;
        if w as u128 >= used { w - used as usize } else { 0 }
    } else if w >= 9 {
        w - 9
    } else {
        0
    };
    (if bar > 1 { bar } else { 1 }, spark_w)
}

/// The bar of a gauge line and whether its detail trails it: the detail
/// (and its gap) comes out of the bar while the bar keeps six cells.
pub fn gauge_widths(width: u16, label_w: usize, detail_w: Option<usize>) -> (r: (usize, bool))
    ensures
        ({
            let bar = sat_sub(width as int, label_w + 5);
            match detail_w {
                Some(d) => if bar >= 6 + d + 1 {
                    r == ((bar - (d + 1)) as usize, true)
                } else {
                    r == (bar as usize, false)
                },
                None => r == (bar as usize, false),
            }
        }),
{
    let x: u128 = label_w as u128 + 5;
    let bar: usize = if width as u128 >= x { (width as u128 - x) as usize } else { 0 };
    match detail_w {
        Some(d) => if d < usize::MAX - 7 && bar >= 6 + d + 1 {
            (bar - (d + 1), true)
        } else {
            (bar, false)
        },
        None => (bar, false),
    }
}

/// The interface rows of the pack: the first `cap` interfaces, a
/// `… +n more` line when some were left out and a row remains, and, with
/// no history to chart and every interface shown, the aggregate lines in
/// the rows that remain.
pub fn net_rows(height: u16, reserve: u16, n: usize, chart_ready: bool) -> (r: (usize, bool, usize))
    ensures
        r.0 == min(sat_sub(height as int, reserve as int), n as int),
        r.1 == (r.0 < n && r.0 < height),
        r.2 == (if !chart_ready && n <= r.0 {
            min(2, height - r.0 - if r.1 { 1int } else { 0 })
        } else {
            0
        }),
{
    let cap = {
        let c = if height >= reserve { (height - reserve) as usize } else { 0 };
        if c < n { c } else { n }
    };
    let more = cap < n && cap < height as usize;
    let lines = cap + if more { 1 } else { 0 };
    let aggregate = if !chart_ready && n <= cap {
        let room = height as usize - lines;
        if room < 2 { room } else { 2 }
    } else {
        0
    };
    (cap, more, aggregate)
}

/// `text` right-aligned in `w` columns (`format!("{text:>w$}")`).
pub open spec fn pad_left(s: Seq<char>, w: nat) -> Seq<char> {
    Seq::new(if w > s.len() { (w - s.len()) as nat } else { 0 }, |_i: int| ' ') + s
}

fn push_spaces(out: &mut String, n: usize)
    ensures
        final(out)@ == old(out)@ + Seq::new(n as nat, |_i: int| ' '),
{
    let ghost base = out@;
    let mut k: usize = 0;
    while k < n
        invariant
            k <= n,
            out@ == base + Seq::new(k as nat, |_i: int| ' '),
        decreases n - k,
    {
        push_char(out, ' ');
        k = k + 1;
        assert(out@ =~= base + Seq::new(k as nat, |_i: int| ' '));
    }
}

/// One cell of a table row, `w` wide: numbers right-aligned, names and
/// texts cut to the cell and left-aligned, the spark cell blank.
pub open spec fn cell_text(col: Column, w: nat, text: Seq<char>) -> Seq<char> {
    match col {
        Column::Spark => Seq::new(w, |_i: int| ' '),
        Column::Pid | Column::CpuCore | Column::CpuTotal | Column::Mem => pad_left(text, w),
        _ => crate::network::pad_right(truncated(text, w), w),
    }
}

pub fn table_cell(col: Column, w: usize, text: &str) -> (r: String)
    ensures
        r@ == cell_text(col, w as nat, text@),
{
    let mut out = String::new();
    match col {
        Column::Spark => {
            push_spaces(&mut out, w);
            assert(out@ =~= Seq::new(w as nat, |_i: int| ' '));
        },
        Column::Pid | Column::CpuCore | Column::CpuTotal | Column::Mem => {
            let n = text.unicode_len();
            push_spaces(&mut out, if w > n { w - n } else { 0 });
            push_str(&mut out, text);
            assert(out@ =~= pad_left(text@, w as nat));
        },
        _ => {
            let t = truncate_chars(text, w);
            crate::network::push_padded_right(&mut out, t.as_str(), w);
            assert(out@ =~= crate::network::pad_right(t@, w as nat));
        },
    }
    out
}

/// Whether a table column carries the sort marker of `sorted` (the
/// kernel's sort label); `cpu_total` counts the cpu columns and `cpu_seen`
/// those left of this one.
pub open spec fn marks_sort(col: Column, sorted: Seq<char>, cpu_total: nat, cpu_seen: nat) -> bool {
    if sorted == "PID"@ {
        col == Column::Pid
    } else if sorted == "Name"@ {
        col == Column::Name
    } else if sorted == "CPU%"@ {
        col == Column::CpuCore || (col == Column::CpuTotal && (cpu_total == 1 || cpu_seen == 0))
    } else if sorted == "Mem"@ {
        col == Column::Mem
    } else {
        false
    }
}

pub open spec fn is_cpu_col(col: Column) -> bool {
    col == Column::CpuCore || col == Column::CpuTotal
}

/// The cpu columns among the first `k` columns.
pub open spec fn cpu_count(cols: Seq<(Column, u16)>, k: int) -> nat
    decreases k,
{
    if k <= 0 || k > cols.len() {
        0
    } else {
        cpu_count(cols, k - 1) + if is_cpu_col(cols[k - 1].0) { 1nat } else { 0 }
    }
}

/// The header cell of column `k`: its label (the spark caption only in a
/// spark cell of three columns) with the direction marker when it is the
/// sorted column, cut to and right-aligned in its cell (at least one
/// column).
pub open spec fn header_cell(
    cols: Seq<(Column, u16)>,
    k: int,
    mode: CpuColumns,
    sorted: Seq<char>,
    desc: bool,
) -> Seq<char> {
    let col = cols[k].0;
    let w = cols[k].1;
    let label = if col == Column::Spark && w < 3 { seq![] } else { column_label(col, mode) };
    let text = if marks_sort(col, sorted, cpu_count(cols, cols.len() as int), cpu_count(cols, k)) {
        label + seq![' '] + if desc { seq!['▼'] } else { seq!['▲'] }
    } else {
        label
    };
    let cw = max(w as int, 1) as nat;
    pad_left(truncated(text, cw), cw)
}

/// The header cells joined with `|`.
pub open spec fn header_line(cols: Seq<(Column, u16)>, k: int, mode: CpuColumns, sorted: Seq<char>, desc: bool) -> Seq<
    char,
>
    decreases k,
{
    if k <= 0 || k > cols.len() {
        seq![]
    } else if k == 1 {
        header_cell(cols, 0, mode, sorted, desc)
    } else {
        header_line(cols, k - 1, mode, sorted, desc) + seq!['|'] + header_cell(cols, k - 1, mode, sorted, desc)
    }
}

fn sort_marked(col: Column, sorted: &str, cpu_total: usize, cpu_seen: usize) -> (r: bool)
    ensures
        r == marks_sort(col, sorted@, cpu_total as nat, cpu_seen as nat),
{
    if crate::options::str_eq(sorted, "PID") {
        col == Column::Pid
    } else if crate::options::str_eq(sorted, "Name") {
        col == Column::Name
    } else if crate::options::str_eq(sorted, "CPU%") {
        col == Column::CpuCore || (col == Column::CpuTotal && (cpu_total == 1 || cpu_seen == 0))
    } else if crate::options::str_eq(sorted, "Mem") {
        col == Column::Mem
    } else {
        false
    }
}

/// The text of one header cell (see [`header_cell`]).
fn header_cell_text(col: Column, w: u16, mode: CpuColumns, marked: bool, desc: bool) -> (r: String)
    ensures
        ({
            let label = if col == Column::Spark && w < 3 { seq![] } else { column_label(col, mode) };
            let text = if marked { label + seq![' '] + if desc { seq!['▼'] } else { seq!['▲'] } } else { label };
            let cw = max(w as int, 1) as nat;
            r@ == pad_left(truncated(text, cw), cw)
        }),
{
    let mut text = String::new();
    if !(col == Column::Spark && w < 3) {
        push_str(&mut text, col.label(mode));
    }
    if marked {
        push_char(&mut text, ' ');
        push_char(&mut text, if desc { '▼' } else { '▲' });
    }
    proof {
        let label = if col == Column::Spark && w < 3 { seq![] } else { column_label(col, mode) };
        assert(text@ =~= if marked { label + seq![' '] + if desc { seq!['▼'] } else { seq!['▲'] } } else { label });
    }
    let cw: usize = if w > 1 { w as usize } else { 1 };
    let cut = truncate_chars(text.as_str(), cw);
    let n = cut.as_str().unicode_len();
    let mut out = String::new();
    push_spaces(&mut out, if cw > n { cw - n } else { 0 });
    push_str(&mut out, cut.as_str());
    assert(out@ =~= pad_left(cut@, cw as nat));
    out
}

/// The header row of the text table: the cells joined with `|`, trailing
/// whitespace removed.
pub fn table_header(cols: &Vec<(Column, u16)>, mode: CpuColumns, sorted: &str, desc: bool) -> (r: String)
    ensures
        r@ == crate::core_spec::trim_end(header_line(cols@, cols@.len() as int, mode, sorted@, desc)),
{
    let mut cpu_total: usize = 0;
    let mut i: usize = 0;
    while i < cols.len()
        invariant
            i <= cols.len(),
            cpu_total == cpu_count(cols@, i as int),
            cpu_total <= i,
        decreases cols.len() - i,
    {
        if cols[i].0 == Column::CpuCore || cols[i].0 == Column::CpuTotal {
            cpu_total = cpu_total + 1;
        }
        i = i + 1;
    }
    let ghost all = cols@;
    let mut line = String::new();
    let mut cpu_seen: usize = 0;
    let mut k: usize = 0;
    while k < cols.len()
        invariant
            k <= cols.len(),
            all == cols@,
            cpu_total == cpu_count(all, all.len() as int),
            cpu_seen == cpu_count(all, k as int),
            cpu_seen <= k,
            line@ == header_line(all, k as int, mode, sorted@, desc),
        decreases cols.len() - k,
    {
        let (col, w) = cols[k];
        let marked = sort_marked(col, sorted, cpu_total, cpu_seen);
        let cell = header_cell_text(col, w, mode, marked, desc);
        let ghost before = line@;
        if k > 0 {
            push_char(&mut line, '|');
        }
        push_str(&mut line, cell.as_str());
        proof {
            assert(cell@ == header_cell(all, k as int, mode, sorted@, desc));
            if k == 0 {
                assert(line@ =~= header_line(all, 1, mode, sorted@, desc));
            } else {
                assert(line@ =~= header_line(all, k + 1, mode, sorted@, desc));
            }
        }
        if col == Column::CpuCore || col == Column::CpuTotal {
            cpu_seen = cpu_seen + 1;
        }
        k = k + 1;
    }
    trim_end_string(&line)
}

/// `str::trim_end`.
pub fn trim_end_string(s: &String) -> (r: String)
    ensures
        r@ == crate::core_spec::trim_end(s@),
{
    let chars = crate::core_spec::chars_of(s.as_str());
    let mut b = chars.len();
    assert(chars@.take(b as int) =~= chars@);
    while b > 0 && crate::core_spec::is_whitespace_char(chars[b - 1])
        invariant
            b <= chars.len(),
            chars@ == s@,
            crate::core_spec::trim_end(s@) == crate::core_spec::trim_end(chars@.take(b as int)),
        decreases b,
    {
        assert(chars@.take(b as int).drop_last() =~= chars@.take(b - 1));
        b = b - 1;
    }
    assert(chars@.take(b as int) =~= chars@.subrange(0, b as int));
    crate::summary::string_of(&chars, 0, b)
}

/// The widths of a wide storage row of the pack: the `#` bar after the
/// twelve-column mount and its gap (drawn with at least four cells), the
/// room left to the detail text, and the free-share spark (six cells from
/// 60 columns for a disk with a total).
#[derive(PartialEq, Eq, Structural, Clone, Copy, Debug)]
pub struct DiskRowWidths {
    pub bar_w: usize,
    pub detail_room: usize,
    pub spark_w: usize,
}

pub fn disk_row_widths(width: u16, detail_w: usize, has_total: bool) -> (r: DiskRowWidths)
    ensures
        r.spark_w == (if width >= 60 && has_total { 6int } else { 0 }),
        r.bar_w == sat_sub(width as int, 12 + 2 + detail_w + 1 + r.spark_w),
        r.detail_room == sat_sub(width as int, 13),
{
    let spark_w: usize = if width >= 60 && has_total { 6 } else { 0 };
    let used: u128 = 12 + 2 + detail_w as u128 + 1 + spark_w as u128;
    let bar_w: usize = if width as u128 >= used { (width as u128 - used) as usize } else { 0 };
    let detail_room: usize = if width >= 13 { (width - 13) as usize } else { 0 };
    DiskRowWidths { bar_w, detail_room, spark_w }
}

/// A narrow storage row of the pack: the mount's width (what the percent
/// cell and a bar leave, at least one column) and the bar after it.
pub fn disk_compact_widths(width: u16) -> (r: (usize, usize))
    ensures
        r.0 == max(sat_sub(width as int, 10), 1),
        r.1 == sat_sub(width as int, r.0 + 6),
{
    let label_w: usize = if width > 11 { (width - 10) as usize } else { 1 };
    let bar_w: usize = if width as usize >= label_w + 6 { width as usize - (label_w + 6) } else { 0 };
    (label_w, bar_w)
}

/// The mount line of a storage block of the pack: the mount's width (at
/// most twelve columns, leaving the detail and a gap) and the width the
/// detail is right-aligned in.
pub fn mount_line_widths(width: u16, detail_w: usize) -> (r: (usize, usize))
    ensures
        r.0 == min(sat_sub(width as int, detail_w + 1), 12),
        r.1 == sat_sub(width as int, r.0 as int),
{
    let spare: usize = if detail_w < width as usize { width as usize - detail_w - 1 } else { 0 };
    let mount_w: usize = if spare < 12 { spare } else { 12 };
    (mount_w, width as usize - mount_w)
}

/// Each of the two `#` throughput bars of a wide device row of the pack:
/// half of what the name, the rate texts and their gaps leave, at least
/// one cell.
pub fn io_bar_width(width: u16, read_w: usize, write_w: usize) -> (r: usize)
    ensures
        r == max(sat_sub(width as int, 10 + read_w + write_w + 8) / 2, 1),
{
    let used: u128 = 10 + read_w as u128 + write_w as u128 + 8;
    let spare: usize = if width as u128 >= used { (width as u128 - used) as usize } else { 0 };
    let half = spare / 2;
    if half > 1 { half } else { 1 }
}

/// The cell of one core temperature line of the pack, in column `col` of
/// cells `cell_w` wide across a box `width` wide, for a label `label_w`
/// bytes: the room from the cell to the box edge; in a single column the
/// temperature's slot (at most `TEMP_CELL` after the label and a gap) and
/// the bar room after it; in several columns the slot the temperature is
/// right-aligned in.
#[derive(PartialEq, Eq, Structural, Clone, Copy, Debug)]
pub struct TempCellWidths {
    pub room: usize,
    pub value_room: usize,
    pub bar_room: usize,
    pub space: usize,
}

pub fn temp_cell_widths(width: u16, col: usize, cell_w: u16, label_w: usize) -> (r: TempCellWidths)
    ensures
        r.room == sat_sub(width as int, col * cell_w),
        r.value_room == min(sat_sub(r.room as int, label_w + 1), crate::sensors::TEMP_CELL as int),
        r.bar_room == sat_sub(r.room as int, label_w + 1 + r.value_room),
        r.space == sat_sub(cell_w as int, label_w + 1),
{
    assert(col as u128 * cell_w as u128 <= 0xffff_ffff_ffff_ffff * 0xffff) by (nonlinear_arith)
        requires col <= 0xffff_ffff_ffff_ffff, cell_w <= 0xffff;
    let start: u128 = col as u128 * cell_w as u128;
    let room: usize = if width as u128 >= start { (width as u128 - start) as usize } else { 0 };
    let used: u128 = label_w as u128 + 1;
    let after: usize = if room as u128 >= used { (room as u128 - used) as usize } else { 0 };
    let value_room: usize = if after < 4 { after } else { 4 };
    let bar_room: usize = after - value_room;
    let space: usize = if cell_w as u128 >= used { (cell_w as u128 - used) as usize } else { 0 };
    TempCellWidths { room, value_room, bar_room, space }
}


/// The chars of a cut text come from the sanitized text or are the
/// ellipsis.
proof fn lemma_truncated_chars(t: Seq<char>, w: nat, j: int)
    requires
        0 <= j < truncated(t, w).len(),
    ensures
        truncated(t, w)[j] == crate::text::ELLIPSIS || exists|m: int| 0 <= m < t.len() && truncated(t, w)[j]
            == crate::text::sanitize_char(t[m]),
{
    let clean = crate::text::sanitized(t);
    if w > 0 && clean.len() > w {
        if j < w - 1 {
            assert(truncated(t, w)[j] == clean[j]);
        }
    } else {
        assert(truncated(t, w)[j] == clean[j]);
    }
}

/// For the sort labels `PID`, `Name` and `Mem`, the header cell of the
/// matching column ends with the direction marker (`▼` descending, `▲`
/// ascending) whenever the cell holds its label, a space and the marker,
/// and no other header cell shows a marker.
pub proof fn sort_label_marks_its_cell(cols: Seq<(Column, u16)>, k: int, mode: CpuColumns, sorted: Seq<char>, desc: bool)
    requires
        0 <= k < cols.len(),
        sorted == "PID"@ || sorted == "Name"@ || sorted == "Mem"@,
    ensures
        ({
            let target = if sorted == "PID"@ {
                Column::Pid
            } else if sorted == "Name"@ {
                Column::Name
            } else {
                Column::Mem
            };
            let cell = header_cell(cols, k, mode, sorted, desc);
            &&& cols[k].0 == target && cols[k].1 >= column_label(target, mode).len() + 2 ==> cell.last() == (if desc {
                '▼'
            } else {
                '▲'
            })
            &&& cols[k].0 != target ==> !cell.contains('▼') && !cell.contains('▲')
        }),
{
    reveal_strlit("PID");
    reveal_strlit("Name");
    reveal_strlit("cpu");
    reveal_strlit("CPU");
    reveal_strlit("CPU%");
    reveal_strlit("Mem");
    reveal_strlit("User");
    reveal_strlit("Command");
    assert("PID"@[0] == 'P' && "Name"@[0] == 'N' && "Mem"@[0] == 'M' && "CPU%"@[0] == 'C');
    let target = if sorted == "PID"@ {
        Column::Pid
    } else if sorted == "Name"@ {
        Column::Name
    } else {
        Column::Mem
    };
    let col = cols[k].0;
    let w = cols[k].1;
    let mark = if desc { '▼' } else { '▲' };
    let label = if col == Column::Spark && w < 3 { seq![] } else { column_label(col, mode) };
    let cw = max(w as int, 1) as nat;
    let cell = header_cell(cols, k, mode, sorted, desc);
    if col == target && w >= column_label(target, mode).len() + 2 {
        let text = label + seq![' '] + seq![mark];
        assert(marks_sort(col, sorted, cpu_count(cols, cols.len() as int), cpu_count(cols, k)));
        assert(crate::text::single_column(mark));
        let clean = crate::text::sanitized(text);
        assert(clean.len() == text.len());
        assert(clean.last() == crate::text::sanitize_char(text.last()));
        assert(truncated(text, cw) == clean);
        assert(cell == pad_left(clean, cw));
        assert(cell.last() == clean.last());
    }
    if col != target {
        assert(!marks_sort(col, sorted, cpu_count(cols, cols.len() as int), cpu_count(cols, k)));
        assert(!label.contains('▼') && !label.contains('▲'));
        let t = truncated(label, cw);
        assert(cell == pad_left(t, cw));
        assert forall|j: int| 0 <= j < cell.len() implies cell[j] != '▼' && cell[j] != '▲' by {
            let pad = if cw > t.len() { (cw - t.len()) as nat } else { 0 };
            if j >= pad {
                assert(cell[j] == t[j - pad]);
                lemma_truncated_chars(label, cw, j - pad);
                if t[j - pad] != crate::text::ELLIPSIS {
                    let m = choose|m: int| 0 <= m < label.len() && t[j - pad] == crate::text::sanitize_char(label[m]);
                    assert(label[m] != '▼' && label[m] != '▲') by {
                        if label[m] == '▼' || label[m] == '▲' {
                            assert(label.contains(label[m]));
                        }
                    }
                }
            }
        }
    }
}


/// Sorting by CPU marks the per-core CPU column's header cell, and the
/// total-basis column's when it is the only CPU column, whenever the cell
/// holds its label, a space and the marker.
pub proof fn cpu_sort_marks_cpu_cell(cols: Seq<(Column, u16)>, k: int, mode: CpuColumns, desc: bool)
    requires
        0 <= k < cols.len(),
        cols[k].0 == Column::CpuCore || (cols[k].0 == Column::CpuTotal && cpu_count(cols, cols.len() as int) == 1),
        cols[k].1 >= column_label(cols[k].0, mode).len() + 2,
    ensures
        header_cell(cols, k, mode, "CPU%"@, desc).last() == (if desc { '▼' } else { '▲' }),
{
    reveal_strlit("PID");
    reveal_strlit("Name");
    reveal_strlit("CPU");
    reveal_strlit("CPU%");
    assert("PID"@[0] == 'P' && "Name"@[0] == 'N' && "CPU%"@[0] == 'C');
    let col = cols[k].0;
    let w = cols[k].1;
    let mark = if desc { '▼' } else { '▲' };
    let label = column_label(col, mode);
    let cw = max(w as int, 1) as nat;
    let text = label + seq![' '] + seq![mark];
    assert(marks_sort(col, "CPU%"@, cpu_count(cols, cols.len() as int), cpu_count(cols, k)));
    assert(crate::text::single_column(mark));
    let clean = crate::text::sanitized(text);
    assert(clean.last() == crate::text::sanitize_char(text.last()));
    assert(truncated(text, cw) == clean);
}

} // verus!
