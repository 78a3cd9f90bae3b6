//! What the direct-buffer painter writes: the cells of a clipped text, of
//! a filled area and of a gradient bar, in absolute cell coordinates. The
//! renderers hand these cells to the terminal buffer.

use vstd::prelude::*;
use crate::cpu::{max, min, sat_sub};

verus! {

broadcast use vstd::string::group_string_axioms;

/// A rectangle of cells (the shape of a widget area or of the buffer).
#[derive(PartialEq, Eq, Structural, Clone, Copy, Debug)]
pub struct Area {
    pub x: u16,
    pub y: u16,
    pub width: u16,
    pub height: u16,
}

/// The first column right of the area (clamped to the coordinate range).
pub open spec fn right(a: Area) -> int {
    min(a.x + a.width, u16::MAX as int)
}

/// The first row below the area (clamped to the coordinate range).
pub open spec fn bottom(a: Area) -> int {
    min(a.y + a.height, u16::MAX as int)
}

/// The cells two areas share (`Rect::intersection`): the later start, the
/// earlier end, an empty extent when they do not overlap.
pub open spec fn spec_intersection(a: Area, b: Area) -> Area {
    let x1 = max(a.x as int, b.x as int);
    let y1 = max(a.y as int, b.y as int);
    let x2 = min(right(a), right(b));
    let y2 = min(bottom(a), bottom(b));
    Area { x: x1 as u16, y: y1 as u16, width: sat_sub(x2, x1) as u16, height: sat_sub(y2, y1) as u16 }
}

pub fn intersection(a: Area, b: Area) -> (r: Area)
    ensures
        r == spec_intersection(a, b),
{
    let ar = if a.width <= u16::MAX - a.x { a.x + a.width } else { u16::MAX };
    let br = if b.width <= u16::MAX - b.x { b.x + b.width } else { u16::MAX };
    let ab = if a.height <= u16::MAX - a.y { a.y + a.height } else { u16::MAX };
    let bb = if b.height <= u16::MAX - b.y { b.y + b.height } else { u16::MAX };
    let x1 = if a.x >= b.x { a.x } else { b.x };
    let y1 = if a.y >= b.y { a.y } else { b.y };
    let x2 = if ar <= br { ar } else { br };
    let y2 = if ab <= bb { ab } else { bb };
    Area {
        x: x1,
        y: y1,
        width: if x2 >= x1 { x2 - x1 } else { 0 },
        height: if y2 >= y1 { y2 - y1 } else { 0 },
    }
}

/// The chars of `text` written from column `x0` of a buffer `buf_w` columns
/// wide stop at the buffer's right edge.
pub open spec fn written(x0: int, len: int, buf_w: int) -> int {
    if x0 >= buf_w { 0 } else { min(len, buf_w - x0) }
}

/// The cells a text takes from `x0` (one char a cell, left to right,
/// clipped at the buffer's right edge `buf_w`) and the column past the last
/// written char.
pub fn text_cells(x0: u16, text: &str, buf_w: u16) -> (r: (Vec<(u16, char)>, u16))
    ensures
        r.0@.len() == written(x0 as int, text@.len() as int, buf_w as int),
        forall|i: int| 0 <= i < r.0@.len() ==> #[trigger] r.0@[i] == ((x0 + i) as u16, text@[i]),
        r.1 == x0 + r.0@.len(),
        forall|i: int| 0 <= i < r.0@.len() ==> #[trigger] r.0@[i].0 < buf_w,
{
    let mut cells: Vec<(u16, char)> = Vec::new();
    let mut x = x0;
    for ch in it: text.chars()
        invariant
            it.seq() == text@,
            x == x0 + cells@.len(),
            cells@.len() == written(x0 as int, it.index() as int, buf_w as int),
            forall|i: int| 0 <= i < cells@.len() ==> #[trigger] cells@[i] == ((x0 + i) as u16, text@[i]),
            forall|i: int| 0 <= i < cells@.len() ==> #[trigger] cells@[i].0 < buf_w,
    {
        if x < buf_w {
            cells.push((x, ch));
            x = x + 1;
        }
    }
    (cells, x)
}

/// The rows of `area` the painter's fill covers: its part inside the
/// buffer, `None` when nothing of it is.
pub fn fill_area(area: Area, buf: Area) -> (r: Option<Area>)
    ensures
        ({
            let i = spec_intersection(area, buf);
            r == (if i.width == 0 || i.height == 0 { None } else { Some(i) })
        }),
{
    let i = intersection(area, buf);
    if i.width == 0 || i.height == 0 {
        None
    } else {
        Some(i)
    }
}

/// The block ramp a bar's partial tip uses (eighths, bottom-up).
pub open spec fn tip_glyph(k: nat) -> char {
    crate::chart::block_level_glyph(k)
}

/// The cells of a gradient bar `width` wide from `x`, lit to `lit` eighths:
/// full `█` cells, then one partial tip when the fill does not end on a
/// cell boundary and room remains. Cells beyond the fill are left alone.
pub fn bar_cells(x: u16, width: u16, lit: usize) -> (r: Vec<(u16, char)>)
    requires
        x + width <= u16::MAX,
    ensures
        ({
            let full = min((lit / 8) as int, width as int);
            let tip = lit % 8;
            &&& r@.len() == full + if tip > 0 && full < width { 1int } else { 0 }
            &&& forall|k: int| 0 <= k < full ==> #[trigger] r@[k] == ((x + k) as u16, '█')
            &&& (tip > 0 && full < width) ==> r@[full] == ((x + full) as u16, tip_glyph(tip as nat))
            &&& forall|k: int| 0 <= k < r@.len() ==> x <= #[trigger] r@[k].0 < x + width
        }),
{
    let full: u16 = if lit / 8 < width as usize { (lit / 8) as u16 } else { width };
    let mut cells: Vec<(u16, char)> = Vec::new();
    let mut k: u16 = 0;
    while k < full
        invariant
            k <= full <= width,
            x + width <= u16::MAX,
            cells@.len() == k,
            forall|j: int| 0 <= j < k ==> #[trigger] cells@[j] == ((x + j) as u16, '█'),
        decreases full - k,
    {
        cells.push((x + k, '█'));
        k = k + 1;
    }
    let tip = lit % 8;
    if tip > 0 && full < width {
        cells.push((x + full, crate::chart::block_glyph(tip)));
    }
    cells
}

} // verus!
