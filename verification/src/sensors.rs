//! Sensors widget layout: the per-core temperature grid (column-major, like
//! the cpu core grid), the cells of a temperature row and what follows the
//! grid (load line and load history).

use vstd::prelude::*;
use crate::chart::ceil_div;
use crate::cpu::{max, min, sat_sub};
use crate::text::{byte_width, truncate_chars, truncated};

verus! {

broadcast use vstd::string::group_string_axioms;

/// The load chart needs at least this inner width.
pub const CHART_MIN_WIDTH: u16 = 12;
/// Temperature cell width (right-aligned `100°`).
pub const TEMP_CELL: u16 = 4;

/// The temperature grid.
#[derive(PartialEq, Eq, Structural, Clone, Copy, Debug)]
pub struct SensorGrid {
    pub cell_w: u16,
    pub cols: usize,
    pub rows_used: usize,
    /// Cores that get a cell.
    pub shown: usize,
    /// Every core got a cell, so the load line and chart follow the grid.
    pub all_shown: bool,
}

/// The grid of `count` cores with labels `label_w` wide in an area
/// `width` x `height`: cells `label + gap + temperature` wide (at least
/// nine columns or the width), as many columns as fit when two fit.
pub fn sensor_grid(count: usize, label_w: u16, width: u16, height: u16) -> (g: SensorGrid)
    requires
        count >= 1,
        label_w <= 23,
    ensures
        g.cell_w == max(label_w + 1 + TEMP_CELL, min(width as int, 9)),
        g.cols == max(
            if width >= g.cell_w * 2 { min(width as int / (g.cell_w as int), count as int) } else { 1 },
            1,
        ),
        g.rows_used == min(ceil_div(count as int, g.cols as int), height as int),
        g.shown == min(g.rows_used * g.cols, count as int),
        g.all_shown == (count <= g.rows_used * g.cols),
        g.cols == 1 || g.cols * g.cell_w <= width,
        g.rows_used <= height,
        g.shown <= count,
{
    let small = if width < 9 { width } else { 9 };
    let cell_w = if label_w + 1 + TEMP_CELL > small { label_w + 1 + TEMP_CELL } else { small };
    let fit = if width as u32 >= cell_w as u32 * 2 {
        let across = (width / cell_w) as usize;
        if across < count { across } else { count }
    } else {
        1
    };
    let cols = if fit > 1 { fit } else { 1 };
    proof {
        if cols > 1 {
            assert(cols <= width / cell_w);
            vstd::arithmetic::div_mod::lemma_fundamental_div_mod(width as int, cell_w as int);
            vstd::arithmetic::div_mod::lemma_mod_pos_bound(width as int, cell_w as int);
            assert(cols * cell_w <= (width / cell_w) * cell_w) by (nonlinear_arith)
                requires cols <= width / cell_w, cell_w >= 0;
            vstd::arithmetic::mul::lemma_mul_is_commutative(cell_w as int, (width / cell_w) as int);
        }
    }
    let per_col = crate::chart::div_ceil(count, cols);
    let rows_used = if per_col < height as usize { per_col } else { height as usize };
    proof {
        crate::chart::lemma_ceil_div_cover(count as int, cols as int);
        assert(rows_used * cols <= per_col * cols) by (nonlinear_arith)
            requires rows_used <= per_col, cols >= 1;
        assert(cols <= 65535) by {
            if cols > 1 {
                vstd::arithmetic::div_mod::lemma_div_is_ordered_by_denominator(width as int, 1, cell_w as int);
            }
        }
        assert(rows_used * cols <= 65535 * 65535) by (nonlinear_arith)
            requires rows_used <= 65535, cols <= 65535;
    }
    let full = rows_used * cols;
    SensorGrid {
        cell_w,
        cols,
        rows_used,
        shown: if full < count { full } else { count },
        all_shown: count <= full,
    }
}

/// The first cell of the `i`-th shown core (column-major fill).
pub open spec fn sensor_x0(g: SensorGrid, x: int, i: int) -> int {
    x + (i / (g.rows_used as int)) * g.cell_w
}

/// The cell origin of the `i`-th shown core.
pub fn sensor_cell(g: SensorGrid, x: u16, y: u16, width: u16, height: u16, i: usize) -> (r: (u16, u16))
    requires
        g.cols == 1 || g.cols * g.cell_w <= width,
        g.rows_used <= height,
        g.shown <= g.rows_used * g.cols,
        i < g.shown,
        x + width <= u16::MAX,
        y + height <= u16::MAX,
    ensures
        r.0 == sensor_x0(g, x as int, i as int),
        r.1 == y + (i as int) % (g.rows_used as int),
        g.cols > 1 ==> r.0 + g.cell_w <= x + width,
        r.1 < y + height,
{
    let rpc = g.rows_used;
    proof {
        assert(rpc > 0) by (nonlinear_arith)
            requires i < rpc * g.cols, i >= 0;
        assert(i / rpc < g.cols) by (nonlinear_arith)
            requires i < rpc * g.cols, rpc > 0, i >= 0;
        assert(i % rpc < rpc) by (nonlinear_arith)
            requires rpc > 0, i >= 0;
        let c = i / rpc;
        if g.cols > 1 {
            assert(c * g.cell_w + g.cell_w <= g.cols * g.cell_w) by (nonlinear_arith)
                requires c < g.cols, c >= 0, g.cell_w >= 0;
        } else {
            assert(c == 0);
        }
    }
    let col = i / rpc;
    let row = i % rpc;
    ((x as usize + col * g.cell_w as usize) as u16, y + row as u16)
}

/// The cells of a single-column temperature row.
pub struct SensorRow {
    /// The label cut to the row.
    pub label: String,
    /// Where the temperature text starts, and the text (cut when the row
    /// cannot hold it).
    pub value: Option<(u16, String)>,
    /// The heat bar when at least three cells remain.
    pub bar: Option<(u16, u16)>,
}

/// Lay out a single-column row from `x0` to `end`: the label, the
/// temperature right-aligned in its cell, the bar in the rest.
pub fn sensor_row(x0: u16, end: u16, label: &str, value: &str) -> (r: SensorRow)
    requires
        x0 <= end,
    ensures
        ({
            let l = truncated(label@, (end - x0) as nat);
            let used = x0 + byte_width(l);
            let room_after = sat_sub(end as int, used);
            let value_room = min(room_after, TEMP_CELL as int);
            let v = if byte_width(value@) > room_after { truncated(value@, room_after as nat) } else { value@ };
            let after = if room_after > 0 { used + value_room + 1 } else { used };
            let bar_w = sat_sub(end as int, after);
            &&& r.label@ == l
            &&& if room_after > 0 {
                r.value matches Some((vx, vt)) && vt@ == v && vx == used + sat_sub(value_room, byte_width(v) as int)
            } else {
                r.value is None
            }
            &&& r.bar == (if bar_w >= 3 { Some((after as u16, bar_w as u16)) } else { None::<(u16, u16)> })
        }),
        r.bar matches Some((bx, bw)) ==> bx + bw == end,
{
    let shown = truncate_chars(label, (end - x0) as usize);
    let lw = shown.as_str().len();
    let used: u128 = x0 as u128 + lw as u128;
    let room_after: u128 = if end as u128 >= used { end as u128 - used } else { 0 };
    let mut after = used;
    let value_cell = if room_after > 0 {
        let value_room: u128 = if room_after < TEMP_CELL as u128 { room_after } else { TEMP_CELL as u128 };
        let v = if value.len() as u128 > room_after {
            truncate_chars(value, room_after as usize)
        } else {
            let mut s = String::new();
            crate::text::push_str(&mut s, value);
            assert(s@ =~= value@);
            s
        };
        let vl = v.as_str().len() as u128;
        let vx = used + if vl < value_room { value_room - vl } else { 0 };
        after = used + value_room + 1;
        Some((vx as u16, v))
    } else {
        None
    };
    let bar_w: u128 = if end as u128 >= after { end as u128 - after } else { 0 };
    let bar = if bar_w >= 3 { Some((after as u16, bar_w as u16)) } else { None };
    SensorRow { label: shown, value: value_cell, bar }
}

/// Where the temperature text of a multi-column cell starts: after the
/// label cut to the cell and a gap.
/// (Positions are `u32`: a cut label can take up to four bytes a char.)
pub fn cell_temp_x(x0: u16, cell_w: u16, label: &str) -> (r: (String, u32))
    ensures
        r.0@ == truncated(label@, cell_w as nat),
        r.1 == x0 + byte_width(r.0@) + 1,
{
    let shown = truncate_chars(label, cell_w as usize);
    proof {
        crate::text::lemma_byte_width_bound(shown@);
    }
    let lw = shown.as_str().len();
    (shown, x0 as u32 + lw as u32 + 1)
}

/// What follows the grid from row `y` down to `bottom`: the load line
/// when a row remains, then the load chart when two rows remain, the box is
/// wide enough and a history of two samples exists.
pub fn sensor_fill(y: u16, bottom: u16, width: u16, hist_len: usize) -> (r: (Option<u16>, u16))
    ensures
        r.0 == (if y < bottom { Some(y) } else { None::<u16> }),
        ({
            let cursor = if y < bottom { y + 1 } else { y as int };
            let leftover = sat_sub(bottom as int, cursor);
            r.1 == (if leftover >= 2 && hist_len >= 2 && width >= CHART_MIN_WIDTH { leftover } else { 0 })
        }),
{
    let cursor = if y < bottom { y + 1 } else { y };
    let leftover = if bottom >= cursor { bottom - cursor } else { 0 };
    let load = if y < bottom { Some(y) } else { None };
    let chart = if leftover >= 2 && hist_len >= 2 && width >= CHART_MIN_WIDTH { leftover } else { 0 };
    (load, chart)
}

} // verus!
