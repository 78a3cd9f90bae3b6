//! CPU widget layout: the per-core row grid (one or two columns and which
//! extra cells survive), the cells of one row, the unified usage row below
//! the grid and the texts around it.

use vstd::prelude::*;
use crate::chart::ceil_div;
use crate::format::{dec_digits, decimal_len, push_decimal};
use crate::glyph::opt_ref_view;
use crate::options::{JsonValue, opt_bool, opt_string, boolean, string, str_eq};
use crate::text::{push_char, push_str, truncate_chars, truncated};

verus! {

broadcast use vstd::string::group_string_axioms;

/// History area narrower than this shows the numeric summary instead.
pub const CHART_MIN_WIDTH: u16 = 12;
/// Minimum bar width a row keeps while extra cells are fitted.
pub const BAR_MIN_WIDTH: u16 = 4;
/// Percent cell width (right-aligned `100%`).
pub const PCT_WIDTH: u16 = 4;
/// Frequency cell width (right-aligned `0.80GHz`).
pub const FREQ_WIDTH: u16 = 7;
/// Temperature cell width (right-aligned `47°`, up to `100°`).
pub const TEMP_WIDTH: u16 = 4;
/// The CPU model string shown in the title is capped to this many chars.
pub const MODEL_MAX_CHARS: usize = 44;

/// The `show_temp` display preference.
#[derive(PartialEq, Eq, Structural, Clone, Copy, Debug)]
pub enum TempPref {
    /// Show the per-core temperature cell when the data carries one.
    Auto,
    /// Always hide the cell.
    Off,
    /// Show it when data exists (`true` never fabricates a temperature).
    On,
}

/// `show_temp` as a string (`off`/`false`, `on`/`true`, `auto`), else as a
/// bool, else `Auto`.
pub open spec fn spec_temp_pref(opts: Option<JsonValue>) -> TempPref {
    match opts {
        None => TempPref::Auto,
        Some(o) => {
            let by_bool = match opt_bool(o, "show_temp"@) {
                Some(b) => if b { TempPref::On } else { TempPref::Off },
                None => TempPref::Auto,
            };
            match opt_string(o, "show_temp"@) {
                Some(s) => if s == "off"@ || s == "false"@ {
                    TempPref::Off
                } else if s == "on"@ || s == "true"@ {
                    TempPref::On
                } else if s == "auto"@ {
                    TempPref::Auto
                } else {
                    by_bool
                },
                None => by_bool,
            }
        },
    }
}

impl TempPref {
    pub fn from_options(options: Option<&JsonValue>) -> (r: TempPref)
        ensures
            r == spec_temp_pref(opt_ref_view(options)),
    {
        let o = match options {
            Some(o) => o,
            None => return TempPref::Auto,
        };
        let by_bool = match boolean(o, "show_temp") {
            Some(b) => if b { TempPref::On } else { TempPref::Off },
            None => TempPref::Auto,
        };
        match string(o, "show_temp") {
            Some(s) => if str_eq(s, "off") || str_eq(s, "false") {
                TempPref::Off
            } else if str_eq(s, "on") || str_eq(s, "true") {
                TempPref::On
            } else if str_eq(s, "auto") {
                TempPref::Auto
            } else {
                by_bool
            },
            None => by_bool,
        }
    }
}

/// The cells a row of `col_w` leaves to its bar after the fixed prefix and
/// the chosen extras (frequency: a gap plus its cell; temperature: the heat
/// mark, a gap and its cell).
pub open spec fn bar_room(col_w: int, prefix_w: int, freq: bool, temp: bool) -> int {
    col_w - prefix_w - (if freq { 1 + FREQ_WIDTH } else { 0int }) - (if temp {
        2 + TEMP_WIDTH
    } else {
        0int
    })
}

/// The wanted extras while the bar keeps `BAR_MIN_WIDTH` cells; the
/// temperature drops first, then the frequency.
pub open spec fn spec_fit_extras(col_w: int, prefix_w: int, want_freq: bool, want_temp: bool) -> (
    bool,
    bool,
) {
    if bar_room(col_w, prefix_w, want_freq, want_temp) >= BAR_MIN_WIDTH {
        (want_freq, want_temp)
    } else if want_temp && bar_room(col_w, prefix_w, want_freq, false) >= BAR_MIN_WIDTH {
        (want_freq, false)
    } else {
        (false, false)
    }
}

/// Which extras survive in a column of `col_w` (temperature drops before
/// frequency; the bar keeps at least `BAR_MIN_WIDTH` cells).
pub fn fit_extras(col_w: u16, prefix_w: u16, want_freq: bool, want_temp: bool) -> (r: (bool, bool))
    ensures
        r == spec_fit_extras(col_w as int, prefix_w as int, want_freq, want_temp),
        r.0 ==> want_freq,
        r.1 ==> want_temp,
        (r.0 || r.1) ==> bar_room(col_w as int, prefix_w as int, r.0, r.1) >= BAR_MIN_WIDTH,
{
    let mut freq = want_freq;
    let mut temp = want_temp;
    loop
        invariant
            (freq == want_freq && temp == want_temp)
                || (freq == want_freq && !temp && want_temp && bar_room(
                col_w as int,
                prefix_w as int,
                want_freq,
                true,
            ) < BAR_MIN_WIDTH)
                || (!freq && !temp && spec_fit_extras(col_w as int, prefix_w as int, want_freq, want_temp)
                == (false, false)),
        decreases (if freq { 1int } else { 0 }) + (if temp { 1int } else { 0 }),
    {
        let bar_w: i32 = col_w as i32 - prefix_w as i32 - (if freq {
            1 + FREQ_WIDTH as i32
        } else {
            0
        }) - (if temp { 2 + TEMP_WIDTH as i32 } else { 0 });
        if bar_w >= BAR_MIN_WIDTH as i32 {
            return (freq, temp);
        }
        if temp {
            temp = false;
        } else if freq {
            freq = false;
        } else {
            return (false, false);
        }
    }
}

/// The row label of core `id` (`CPU7`).
pub open spec fn cpu_label(id: nat) -> Seq<char> {
    seq!['C', 'P', 'U'] + dec_digits(id)
}

/// The widest label of `ids` (0 for none).
pub open spec fn widest_label(ids: Seq<usize>) -> nat
    decreases ids.len(),
{
    if ids.len() == 0 {
        0
    } else {
        let rest = widest_label(ids.drop_last());
        let last = cpu_label(ids.last() as nat).len();
        if last > rest { last } else { rest }
    }
}

/// The label column: as wide as the widest `CPUn` label, 4 without cores.
pub open spec fn label_width(ids: Seq<usize>) -> nat {
    if ids.len() == 0 { 4 } else { widest_label(ids) }
}

/// The label column width for the cores `ids`.
pub fn cpu_label_width(ids: &Vec<usize>) -> (r: u16)
    ensures
        r == label_width(ids@),
        r <= 23,
{
    if ids.len() == 0 {
        return 4;
    }
    let mut widest: u16 = 0;
    let mut i: usize = 0;
    while i < ids.len()
        invariant
            i <= ids.len(),
            widest == widest_label(ids@.take(i as int)),
            widest <= 23,
        decreases ids.len() - i,
    {
        assert(ids@.take(i + 1).drop_last() =~= ids@.take(i as int));
        let w = 3 + decimal_len(ids[i]);
        if w > widest {
            widest = w;
        }
        i = i + 1;
    }
    assert(ids@.take(ids.len() as int) =~= ids@);
    widest
}

/// The label of core `id`, left-aligned in `width` columns.
pub fn cpu_label_cell(id: usize, width: u16) -> (r: String)
    ensures
        r@ == cpu_label(id as nat) + Seq::new(
            (if width > cpu_label(id as nat).len() { width - cpu_label(id as nat).len() } else { 0int }) as nat,
            |_i: int| ' ',
        ),
{
    let mut out = String::new();
    push_char(&mut out, 'C');
    push_char(&mut out, 'P');
    push_char(&mut out, 'U');
    push_decimal(&mut out, id as u128);
    let ghost label = cpu_label(id as nat);
    assert(out@ =~= label);
    let len = 3 + decimal_len(id);
    let mut k = len;
    while k < width
        invariant
            len == label.len(),
            len <= k,
            k <= width || k == len,
            out@ == label + Seq::new((k - len) as nat, |_i: int| ' '),
        decreases width - k,
    {
        push_char(&mut out, ' ');
        k = k + 1;
        assert(out@ =~= label + Seq::new((k - len) as nat, |_i: int| ' '));
    }
    assert(out@ =~= label + Seq::new(
        (if width > label.len() { width - label.len() } else { 0int }) as nat,
        |_i: int| ' ',
    ));
    out
}

/// The core grid: `cols` columns (two when each keeps its minimum row, with
/// a one-cell gutter), the extras that fit a column, and how many rows the
/// grid takes; the rows below belong to the history.
#[derive(PartialEq, Eq, Structural, Clone, Copy, Debug)]
pub struct CpuGrid {
    /// Label, gap, percent cell, gap.
    pub prefix_w: u16,
    pub cols: u16,
    pub gutter: u16,
    pub col_w: u16,
    pub use_freq: bool,
    pub use_temp: bool,
    pub rows_per_col: usize,
    /// Cores that get a row (the rest are clipped by the area height).
    pub shown_rows: usize,
    /// Rows below the grid.
    pub leftover: u16,
}

/// Half of the width left after the gutter.
pub open spec fn half_width(width: int) -> int {
    if width >= 1 { (width - 1) / 2 } else { 0 }
}

pub open spec fn min(a: int, b: int) -> int {
    if a <= b { a } else { b }
}

/// What the grid looks like for `count` shown cores.
pub open spec fn grid_matches(
    g: CpuGrid,
    count: nat,
    label_w: nat,
    width: nat,
    height: nat,
    freq_on: bool,
    temp_on: bool,
) -> bool {
    &&& g.prefix_w == label_w + 1 + PCT_WIDTH + 1
    &&& g.cols == (if g.prefix_w + BAR_MIN_WIDTH <= half_width(width as int) { 2int } else { 1 })
    &&& g.gutter == g.cols - 1
    &&& g.col_w == (width - g.gutter) / (g.cols as int)
    &&& (g.use_freq, g.use_temp) == spec_fit_extras(
        (if g.cols == 2 { half_width(width as int) } else { g.col_w as int }),
        g.prefix_w as int,
        freq_on,
        temp_on,
    )
    &&& g.rows_per_col == min(ceil_div(count as int, g.cols as int), height as int)
    &&& g.shown_rows == min(g.rows_per_col * g.cols, count as int)
    &&& g.leftover == height - g.rows_per_col
}

/// The geometric facts every grid keeps inside a `width` x `height` area.
pub open spec fn grid_fits(g: CpuGrid, width: nat, height: nat) -> bool {
    &&& g.cols == 1 || g.cols == 2
    &&& g.gutter == g.cols - 1
    &&& g.cols * g.col_w + g.gutter <= width
    &&& g.rows_per_col <= height
    &&& g.rows_per_col + g.leftover == height
    &&& g.shown_rows <= g.rows_per_col * g.cols
    &&& g.prefix_w >= 6
    &&& g.prefix_w <= 29
    &&& g.cols == 2 ==> g.col_w >= g.prefix_w
    &&& g.use_temp ==> bar_room(g.col_w as int, g.prefix_w as int, g.use_freq, true) >= BAR_MIN_WIDTH
    &&& g.use_freq ==> bar_room(g.col_w as int, g.prefix_w as int, true, g.use_temp) >= BAR_MIN_WIDTH
}

/// Plan the grid of `count` shown cores with labels `label_w` wide in an
/// area `width` x `height`; `freq_on`/`temp_on` say whether the frequency
/// and temperature cells are wanted.
pub fn cpu_grid(count: usize, label_w: u16, width: u16, height: u16, freq_on: bool, temp_on: bool) -> (g: CpuGrid)
    requires
        count > 0,
        label_w <= 23,
    ensures
        grid_matches(g, count as nat, label_w as nat, width as nat, height as nat, freq_on, temp_on),
        grid_fits(g, width as nat, height as nat),
        height > 0 ==> g.rows_per_col > 0 && g.shown_rows > 0,
        g.cols == 2 ==> g.col_w >= g.prefix_w + BAR_MIN_WIDTH,
        g.shown_rows <= count,
        g.rows_per_col * (g.cols as int) >= count ==> g.shown_rows == count,
{
    let prefix_w = label_w + 1 + PCT_WIDTH + 1;
    let two_col_w = if width >= 1 { (width - 1) / 2 } else { 0 };
    let cols: u16 = if prefix_w + BAR_MIN_WIDTH <= two_col_w { 2 } else { 1 };
    let gutter = cols - 1;
    let col_w = (width - gutter) / cols;
    let (use_freq, use_temp) = if cols == 2 {
        fit_extras(two_col_w, prefix_w, freq_on, temp_on)
    } else {
        fit_extras(col_w, prefix_w, freq_on, temp_on)
    };
    let per_col = crate::chart::div_ceil(count, cols as usize);
    let avail = height as usize;
    let rows_per_col = if per_col < avail { per_col } else { avail };
    proof {
        if cols == 2 {
            assert(col_w == two_col_w);
        }
        assert(rows_per_col <= per_col);
        crate::chart::lemma_ceil_div_cover(count as int, cols as int);
        assert(rows_per_col * cols <= per_col * cols) by (nonlinear_arith)
            requires rows_per_col <= per_col, cols >= 1;
        assert(cols * col_w <= width - gutter) by (nonlinear_arith)
            requires col_w == (width - gutter) / (cols as int), cols >= 1, width - gutter >= 0;
    }
    let full = rows_per_col * (cols as usize);
    let shown_rows = if full < count { full } else { count };
    proof {
        if height > 0 {
            assert(per_col >= 1);
            assert(rows_per_col >= 1);
            assert(full >= 1) by (nonlinear_arith)
                requires full == rows_per_col * cols, rows_per_col >= 1, cols >= 1;
        }
    }
    CpuGrid {
        prefix_w,
        cols,
        gutter,
        col_w,
        use_freq,
        use_temp,
        rows_per_col,
        shown_rows,
        leftover: height - rows_per_col as u16,
    }
}

/// `a - b`, or 0 when `b` is larger (`u16::saturating_sub`).
pub open spec fn sat_sub(a: int, b: int) -> int {
    if a >= b { a - b } else { 0 }
}

/// The first cell of the `i`-th shown core's row (column-major fill).
pub open spec fn row_x0(g: CpuGrid, x: int, i: int) -> int {
    x + (i / (g.rows_per_col as int)) * (g.col_w + g.gutter)
}

/// The screen row of the `i`-th shown core.
pub open spec fn row_y(g: CpuGrid, y: int, i: int) -> int {
    y + i % (g.rows_per_col as int)
}

/// The cells of one core row.
#[derive(PartialEq, Eq, Structural, Clone, Copy, Debug)]
pub struct CpuRowCells {
    pub x0: u16,
    pub y: u16,
    /// One past the column's last cell.
    pub col_end: u16,
    /// Where the right-aligned percent text starts.
    pub x_pct: u16,
    /// Where the right-aligned frequency text starts (with the frequency
    /// cell on).
    pub x_freq: u16,
    pub x_bar: u16,
    pub bar_w: u16,
    /// The per-core heat mark (meaningful with the temperature cell on).
    pub heat_x: u16,
    /// Where the right-aligned temperature text starts.
    pub x_temp: u16,
}

/// The cells of the `i`-th shown core: the grid is filled column-major
/// from `(x, y)`; `pct_len`, `freq_len` and `temp_len` are the lengths of
/// the texts right-aligned in their cells.
pub fn cpu_row_cells(
    g: CpuGrid,
    x: u16,
    y: u16,
    width: u16,
    height: u16,
    label_w: u16,
    i: usize,
    pct_len: u16,
    freq_len: u16,
    temp_len: u16,
) -> (c: CpuRowCells)
    requires
        grid_fits(g, width as nat, height as nat),
        g.prefix_w == label_w + 1 + PCT_WIDTH + 1,
        i < g.shown_rows,
        x + width <= u16::MAX,
        x + g.prefix_w <= u16::MAX,
        y + height <= u16::MAX,
    ensures
        c.x0 == row_x0(g, x as int, i as int),
        c.y == row_y(g, y as int, i as int),
        c.col_end == row_x0(g, x as int, i as int) + g.col_w,
        c.x_pct == c.x0 + label_w + 1 + sat_sub(PCT_WIDTH as int, pct_len as int),
        g.use_freq ==> c.x_freq == c.x0 + g.prefix_w + 1 + sat_sub(FREQ_WIDTH as int, freq_len as int),
        c.x_bar == c.x0 + g.prefix_w + (if g.use_freq { FREQ_WIDTH + 1 } else { 0int }),
        c.bar_w == sat_sub(
            sat_sub(c.col_end as int, if g.use_temp { 2 + TEMP_WIDTH } else { 0int }),
            c.x_bar as int,
        ),
        g.use_temp ==> c.heat_x == c.col_end - TEMP_WIDTH - 1,
        g.use_temp ==> c.x_temp == c.col_end - TEMP_WIDTH + sat_sub(TEMP_WIDTH as int, temp_len as int),
        x <= c.x0,
        c.col_end <= x + width,
        y <= c.y < y + height,
        c.bar_w > 0 ==> c.x_bar + c.bar_w + (if g.use_temp { 2 + TEMP_WIDTH } else { 0int }) == c.col_end,
        (g.use_freq || g.use_temp) ==> c.bar_w >= BAR_MIN_WIDTH,
        g.use_temp ==> c.x_bar + c.bar_w < c.heat_x,
{
    let rpc = g.rows_per_col;
    proof {
        assert(i < rpc * (g.cols as int));
        assert(rpc > 0) by (nonlinear_arith)
            requires i < rpc * (g.cols as int), i >= 0, g.cols >= 1;
        assert(i / rpc < g.cols) by (nonlinear_arith)
            requires i < rpc * (g.cols as int), rpc > 0, i >= 0;
        assert(i % rpc < rpc) by (nonlinear_arith)
            requires rpc > 0, i >= 0;
    }
    let col = (i / rpc) as u16;
    let row = (i % rpc) as u16;
    proof {
        if g.cols == 2 && col == 1 {
            assert(g.cols * g.col_w == 2 * g.col_w);
            assert(col * (g.col_w + g.gutter) == g.col_w + 1);
        } else {
            assert(col == 0);
            assert(g.col_w <= g.cols * g.col_w) by (nonlinear_arith)
                requires g.cols >= 1;
            assert(col * (g.col_w + g.gutter) == 0);
        }
    }
    let x0 = x + col * (g.col_w + g.gutter);
    let ry = y + row;
    let col_end = x0 + g.col_w;
    let x_pct = x0 + label_w + 1 + if pct_len < PCT_WIDTH { PCT_WIDTH - pct_len } else { 0 };
    let x_freq = if g.use_freq {
        x0 + g.prefix_w + 1 + if freq_len < FREQ_WIDTH { FREQ_WIDTH - freq_len } else { 0 }
    } else {
        x0
    };
    let x_bar = x0 + g.prefix_w + if g.use_freq { FREQ_WIDTH + 1 } else { 0 };
    let reserved = if g.use_temp { 2 + TEMP_WIDTH } else { 0 };
    let bar_end = if col_end >= reserved { col_end - reserved } else { 0 };
    let bar_w = if bar_end >= x_bar { bar_end - x_bar } else { 0 };
    let (heat_x, x_temp) = if g.use_temp {
        (col_end - TEMP_WIDTH - 1, col_end - TEMP_WIDTH + if temp_len < TEMP_WIDTH {
            TEMP_WIDTH - temp_len
        } else {
            0
        })
    } else {
        (col_end, col_end)
    };
    CpuRowCells { x0, y: ry, col_end, x_pct, x_freq, x_bar, bar_w, heat_x, x_temp }
}

/// The share-bar chunk of each unified-row segment: wider rows get longer
/// portions; below 38 columns the row is plain text.
pub fn unify_chunk(width: u16) -> (r: u16)
    ensures
        r == (if width >= 66 {
            8int
        } else if width >= 50 {
            6
        } else if width >= 38 {
            4
        } else {
            0
        }),
{
    if width >= 66 {
        8
    } else if width >= 50 {
        6
    } else if width >= 38 {
        4
    } else {
        0
    }
}

/// Where a text of `len` chars written from `x` stops: writes stop at the
/// buffer's right edge `buf_w`.
pub open spec fn text_end(x: int, len: int, buf_w: int) -> int {
    if x >= buf_w {
        x
    } else {
        min(x + len, buf_w)
    }
}

pub open spec fn max(a: int, b: int) -> int {
    if a >= b { a } else { b }
}

/// One `label value` token and its share bar on the unified row.
#[derive(PartialEq, Eq, Structural, Clone, Copy, Debug)]
pub struct TokenCells {
    /// Where the dim label starts (`None`: the row is full).
    pub label_x: Option<u16>,
    /// Where the value starts (`None`: the row is full).
    pub value_x: Option<u16>,
    pub bar_x: u16,
    /// 0 when no share bar is drawn.
    pub bar_w: u16,
    /// The cursor past the token.
    pub cursor: u16,
}

pub open spec fn token_matches(
    t: TokenCells,
    start: int,
    x: int,
    end: int,
    buf_w: int,
    label_len: int,
    value_len: int,
    chunk: int,
) -> bool {
    let c0 = if x > start { x + 2 } else { x };
    if c0 >= end {
        t.label_x is None && t.value_x is None && t.bar_w == 0 && t.cursor == c0
    } else {
        let c1 = text_end(c0, label_len, buf_w);
        &&& t.label_x == Some(c0 as u16)
        &&& if c1 >= end {
            t.value_x is None && t.bar_w == 0 && t.cursor == c1
        } else {
            let c2 = text_end(c1, value_len, buf_w);
            &&& t.value_x == Some(c1 as u16)
            &&& if chunk > 0 && c2 < end {
                &&& t.bar_x == c2
                &&& t.bar_w == min(chunk, end - c2)
                &&& t.cursor == c2 + t.bar_w
            } else {
                t.bar_w == 0 && t.cursor == c2
            }
        }
    }
}

/// Lay out one unified-row token from cursor `x` (a two-cell gap separates
/// it from an earlier token on the row starting at `start`); the row ends
/// at `end`, texts are clipped at the buffer edge `buf_w`.
pub fn token_segment(
    start: u16,
    x: u16,
    end: u16,
    buf_w: u16,
    label_len: u16,
    value_len: u16,
    chunk: u16,
) -> (t: TokenCells)
    requires
        x > start ==> x + 2 <= u16::MAX,
    ensures
        token_matches(t, start as int, x as int, end as int, buf_w as int, label_len as int, value_len as int, chunk as int),
        t.bar_w > 0 ==> t.bar_x + t.bar_w <= end,
        t.cursor <= max(x + 2, max(end as int, buf_w as int)),
{
    let c0 = if x > start { x + 2 } else { x };
    if c0 >= end {
        return TokenCells { label_x: None, value_x: None, bar_x: c0, bar_w: 0, cursor: c0 };
    }
    let c1 = if c0 >= buf_w {
        c0
    } else if label_len < buf_w - c0 {
        c0 + label_len
    } else {
        buf_w
    };
    if c1 >= end {
        return TokenCells { label_x: Some(c0), value_x: None, bar_x: c1, bar_w: 0, cursor: c1 };
    }
    let c2 = if c1 >= buf_w {
        c1
    } else if value_len < buf_w - c1 {
        c1 + value_len
    } else {
        buf_w
    };
    if chunk > 0 && c2 < end {
        let bar_w = if chunk < end - c2 { chunk } else { end - c2 };
        TokenCells { label_x: Some(c0), value_x: Some(c1), bar_x: c2, bar_w, cursor: c2 + bar_w }
    } else {
        TokenCells { label_x: Some(c0), value_x: Some(c1), bar_x: c2, bar_w: 0, cursor: c2 }
    }
}

/// The unified usage + temperature + power row.
#[derive(PartialEq, Eq, Structural, Clone, Copy, Debug)]
pub enum UnifyPlan {
    /// Only the usage exists: the classic `Avg: n%` label and its bar.
    Classic { bar_x: u16, bar_w: u16 },
    /// `usage n%`, then `temp n°` and `power nW` when their data exists.
    Tokens { chunk: u16, usage: TokenCells, temp: Option<TokenCells>, power: Option<TokenCells> },
}

/// Lay out the unified row of an area starting at `inner_x`, `inner_w`
/// wide, in a buffer `buf_w` wide. `usage_len` is the length of the usage
/// value (`47%`); `temp_len`/`power_len` those of the temperature and power
/// values when the data exists.
pub fn unified_row(
    inner_x: u16,
    inner_w: u16,
    buf_w: u16,
    usage_len: u16,
    temp_len: Option<u16>,
    power_len: Option<u16>,
) -> (p: UnifyPlan)
    requires
        inner_x + inner_w + 4 <= u16::MAX,
        buf_w + 4 <= u16::MAX,
        inner_x + 5 + usage_len + 1 <= u16::MAX,
    ensures
        (temp_len is None && power_len is None) <==> p is Classic,
        p matches UnifyPlan::Classic { bar_x, bar_w } ==> bar_x == inner_x + 5 + usage_len + 1
            && bar_w == sat_sub(inner_x + inner_w, bar_x as int),
        p matches UnifyPlan::Tokens { chunk, usage, temp, power } ==> {
            let end = inner_x + inner_w;
            &&& chunk == (if inner_w >= 66 { 8int } else if inner_w >= 50 { 6 } else if inner_w >= 38 { 4 } else { 0 })
            &&& token_matches(usage, inner_x as int, inner_x as int, end, buf_w as int, 5, usage_len as int, chunk as int)
            &&& match temp_len {
                Some(tl) => temp matches Some(tt) && token_matches(tt, inner_x as int, usage.cursor as int, end, buf_w as int, 4, tl as int, chunk as int),
                None => temp is None,
            }
            &&& match power_len {
                Some(pl) => power matches Some(pw) && token_matches(
                    pw,
                    inner_x as int,
                    (match temp { Some(tt) => tt.cursor, None => usage.cursor }) as int,
                    end,
                    buf_w as int,
                    5,
                    pl as int,
                    chunk as int,
                ),
                None => power is None,
            }
        },
{
    let end = inner_x + inner_w;
    if temp_len.is_none() && power_len.is_none() {
        let bar_x = inner_x + 5 + usage_len + 1;
        let bar_w = if end >= bar_x { end - bar_x } else { 0 };
        return UnifyPlan::Classic { bar_x, bar_w };
    }
    let chunk = unify_chunk(inner_w);
    let usage = token_segment(inner_x, inner_x, end, buf_w, 5, usage_len, chunk);
    let temp = match temp_len {
        Some(tl) => Some(token_segment(inner_x, usage.cursor, end, buf_w, 4, tl, chunk)),
        None => None,
    };
    let x = match temp {
        Some(tt) => tt.cursor,
        None => usage.cursor,
    };
    let power = match power_len {
        Some(pl) => Some(token_segment(inner_x, x, end, buf_w, 5, pl, chunk)),
        None => None,
    };
    UnifyPlan::Tokens { chunk, usage, temp, power }
}

/// What the rows below the core grid show.
#[derive(PartialEq, Eq, Structural, Clone, Copy, Debug)]
pub enum CpuTail {
    /// The grid took every row.
    Nothing,
    /// The unified row, then the history in the rows below it.
    UnifiedAndHistory { unify_y: u16, history_rows: u16 },
    /// A single leftover row keeps the one-row history.
    History { rows: u16 },
    /// No chartable history or too narrow: the numeric summary line.
    Summary { y: u16 },
}

/// The tail below the grid ending at row `grid_end`, with `leftover` rows
/// in an area `width` wide; `has_plot` when a chartable history exists.
pub fn cpu_tail(grid_end: u16, leftover: u16, width: u16, has_plot: bool) -> (t: CpuTail)
    requires
        leftover >= 1 ==> grid_end + leftover <= u16::MAX,
    ensures
        t == (if leftover == 0 {
            CpuTail::Nothing
        } else if has_plot && width >= CHART_MIN_WIDTH {
            if leftover >= 2 {
                CpuTail::UnifiedAndHistory { unify_y: grid_end, history_rows: (leftover - 1) as u16 }
            } else {
                CpuTail::History { rows: leftover }
            }
        } else {
            CpuTail::Summary { y: grid_end }
        }),
{
    if leftover == 0 {
        CpuTail::Nothing
    } else if has_plot && width >= CHART_MIN_WIDTH {
        if leftover >= 2 {
            CpuTail::UnifiedAndHistory { unify_y: grid_end, history_rows: leftover - 1 }
        } else {
            CpuTail::History { rows: leftover }
        }
    } else {
        CpuTail::Summary { y: grid_end }
    }
}

/// The in-box label on the history divider.
pub const HISTORY_LABEL: &'static str = "history: cpu %";

/// The divider carries its label when the row has room for it and a gap.
pub fn history_label_fits(width: u16) -> (r: bool)
    ensures
        r == (width >= 15),
{
    width >= 15
}

/// Two shown cores never share a cell: they sit on different rows, or the
/// earlier core's column ends before the later core's column starts (the
/// two columns of a wide grid are kept apart by the gutter).
pub proof fn core_rows_are_disjoint(g: CpuGrid, x: int, y: int, width: nat, height: nat, i: int, j: int)
    requires
        grid_fits(g, width, height),
        0 <= i < j < g.shown_rows,
    ensures
        row_y(g, y, i) != row_y(g, y, j) || row_x0(g, x, i) + g.col_w < row_x0(g, x, j),
{
    let rpc = g.rows_per_col as int;
    assert(j < rpc * (g.cols as int));
    assert(rpc > 0) by (nonlinear_arith)
        requires j < rpc * (g.cols as int), j >= 0, g.cols >= 1;
    let ci = i / rpc;
    let cj = j / rpc;
    assert(ci <= cj) by (nonlinear_arith)
        requires i < j, rpc > 0, ci == i / rpc, cj == j / rpc, i >= 0;
    assert(cj < g.cols) by (nonlinear_arith)
        requires j < rpc * (g.cols as int), rpc > 0, j >= 0, cj == j / rpc;
    if ci == cj {
        assert(i % rpc != j % rpc) by (nonlinear_arith)
            requires i < j, rpc > 0, ci == i / rpc, cj == j / rpc, ci == cj, i >= 0;
    } else {
        assert(ci == 0 && cj == 1);
        assert(g.gutter == 1);
    }
}

/// The widget title: `head` (`CPU`, or the pack's own caption), the model
/// name cut to `MODEL_MAX_CHARS` when the
/// kernel reports one, and the max-temperature suffix (`temp_whole` and
/// `temp_tenth` are that temperature with 0 and 1 decimals, given when one
/// is reported); the whole title is cut to the frame width less 4, at least
/// 8 columns.
pub open spec fn cpu_title_text(
    head: Seq<char>,
    model: Option<Seq<char>>,
    temp_whole: Option<Seq<char>>,
    temp_tenth: Option<Seq<char>>,
    area_width: nat,
) -> Seq<char> {
    let named = match model {
        Some(m) => head + " ("@ + truncated(m, MODEL_MAX_CHARS as nat) + ")"@,
        None => head,
    };
    let full = match model {
        Some(_) => match temp_whole {
            Some(t) => named + " — Max "@ + t + "°C"@,
            None => named,
        },
        None => match temp_tenth {
            Some(t) => named + " (Max: "@ + t + "°C)"@,
            None => named,
        },
    };
    truncated(full, if area_width >= 12 { (area_width - 4) as nat } else { 8 })
}

pub fn cpu_title(
    head: &str,
    model: Option<&str>,
    temp_whole: Option<&str>,
    temp_tenth: Option<&str>,
    area_width: u16,
) -> (r: String)
    ensures
        r@ == cpu_title_text(
            head@,
            crate::options::str_view(model),
            crate::options::str_view(temp_whole),
            crate::options::str_view(temp_tenth),
            area_width as nat,
        ),
{
    let mut title = String::new();
    push_str(&mut title, head);
    match model {
        Some(m) => {
            push_str(&mut title, " (");
            let shown = truncate_chars(m, MODEL_MAX_CHARS);
            push_str(&mut title, shown.as_str());
            push_str(&mut title, ")");
            let ghost named = title@;
            assert(named =~= head@ + " ("@ + truncated(m@, MODEL_MAX_CHARS as nat) + ")"@);
            match temp_whole {
                Some(t) => {
                    push_str(&mut title, " — Max ");
                    push_str(&mut title, t);
                    push_str(&mut title, "°C");
                    assert(title@ =~= named + " — Max "@ + t@ + "°C"@);
                },
                None => {},
            }
        },
        None => {
            let ghost named = title@;
            assert(named =~= head@);
            match temp_tenth {
                Some(t) => {
                    push_str(&mut title, " (Max: ");
                    push_str(&mut title, t);
                    push_str(&mut title, "°C)");
                    assert(title@ =~= named + " (Max: "@ + t@ + "°C)"@);
                },
                None => {},
            }
        },
    }
    let width = if area_width >= 12 { area_width - 4 } else { 8 };
    truncate_chars(title.as_str(), width as usize)
}

/// The numeric line shown instead of a history: the shown/total core count
/// when a subset is shown, the average usage text `avg`, and the package
/// power `watts` when the kernel reports one.
pub open spec fn cpu_summary_text(shown: nat, total: nat, avg: Seq<char>, watts: Option<Seq<char>>) -> Seq<char> {
    let head = if shown != total {
        "Cores: "@ + dec_digits(shown) + "/"@ + dec_digits(total) + "  Avg: "@ + avg + "%"@
    } else {
        "Avg: "@ + avg + "%"@
    };
    match watts {
        Some(w) => head + "  Pkg "@ + w + "W"@,
        None => head,
    }
}

pub fn cpu_summary_line(shown: usize, total: usize, avg: &str, watts: Option<&str>) -> (r: String)
    ensures
        r@ == cpu_summary_text(shown as nat, total as nat, avg@, crate::options::str_view(watts)),
{
    let mut line = String::new();
    if shown != total {
        push_str(&mut line, "Cores: ");
        push_decimal(&mut line, shown as u128);
        push_str(&mut line, "/");
        push_decimal(&mut line, total as u128);
        push_str(&mut line, "  Avg: ");
    } else {
        push_str(&mut line, "Avg: ");
    }
    push_str(&mut line, avg);
    push_str(&mut line, "%");
    let ghost head = line@;
    assert(head =~= if shown != total {
        "Cores: "@ + dec_digits(shown as nat) + "/"@ + dec_digits(total as nat) + "  Avg: "@ + avg@ + "%"@
    } else {
        "Avg: "@ + avg@ + "%"@
    });
    match watts {
        Some(w) => {
            push_str(&mut line, "  Pkg ");
            push_str(&mut line, w);
            push_str(&mut line, "W");
            assert(line@ =~= head + "  Pkg "@ + w@ + "W"@);
        },
        None => {},
    }
    line
}

/// The temperature cells show when the preference allows them and a shown
/// core reports a temperature: never without data, whatever the option.
pub fn temp_cells_on(pref: TempPref, temps_exist: bool) -> (r: bool)
    ensures
        r == (pref != TempPref::Off && temps_exist),
        r ==> temps_exist,
{
    pref != TempPref::Off && temps_exist
}

/// The frequency cells show when asked for and a shown core reports a
/// frequency.
pub fn freq_cells_on(show_freq: bool, any_frequency: bool) -> (r: bool)
    ensures
        r == (show_freq && any_frequency),
{
    show_freq && any_frequency
}

} // verus!
