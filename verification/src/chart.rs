//! The integer geometry of the chart engine and of the one-row sparks:
//! glyph ramps, sub-row resolution, how a lit column level spreads over
//! the text rows, and which samples land in which column or spark cell.
//!
//! Columns fill from the zero baseline: braille charts light 4 sub-rows per
//! text row (`⣀ ⣰ ⣶ ⣿`), block charts 8 (`▁▂▃▄▅▆▇█`); a one-row plot is a
//! sparkline and always uses the block ramp. `dot`/`bar` are not engine
//! charsets (they keep the classic chart path).

use vstd::prelude::*;
use vstd::arithmetic::div_mod::*;
use vstd::arithmetic::mul::*;
use crate::glyph::ChartCharset;

verus! {

/// Sub-rows per text row of the braille family.
pub const BRAILLE_PER_ROW: usize = 4;
/// Sub-rows per text row of the block family.
pub const BLOCK_PER_ROW: usize = 8;

/// Braille glyphs for 0..=4 lit sub-rows within one text row (bottom-up).
pub open spec fn braille_level_glyph(k: nat) -> char {
    if k == 0 { ' ' }
    else if k == 1 { '⣀' }
    else if k == 2 { '⣰' }
    else if k == 3 { '⣶' }
    else { '⣿' }
}

/// Block glyphs for 0..=8 lit sub-rows (eighths of a text row, bottom-up).
pub open spec fn block_level_glyph(k: nat) -> char {
    if k == 0 { ' ' }
    else if k == 1 { '▁' }
    else if k == 2 { '▂' }
    else if k == 3 { '▃' }
    else if k == 4 { '▄' }
    else if k == 5 { '▅' }
    else if k == 6 { '▆' }
    else if k == 7 { '▇' }
    else { '█' }
}

pub fn braille_glyph(level: usize) -> (c: char)
    requires
        level <= BRAILLE_PER_ROW,
    ensures
        c == braille_level_glyph(level as nat),
{
    if level == 0 { ' ' }
    else if level == 1 { '⣀' }
    else if level == 2 { '⣰' }
    else if level == 3 { '⣶' }
    else { '⣿' }
}

pub fn block_glyph(level: usize) -> (c: char)
    requires
        level <= BLOCK_PER_ROW,
    ensures
        c == block_level_glyph(level as nat),
{
    if level == 0 { ' ' }
    else if level == 1 { '▁' }
    else if level == 2 { '▂' }
    else if level == 3 { '▃' }
    else if level == 4 { '▄' }
    else if level == 5 { '▅' }
    else if level == 6 { '▆' }
    else if level == 7 { '▇' }
    else { '█' }
}

/// True when the engine draws the charset (braille and the block family);
/// `dot`/`bar` keep the classic chart path.
pub fn engine_charset(charset: ChartCharset) -> (r: bool)
    ensures
        r == (charset == ChartCharset::Braille || charset == ChartCharset::Block || charset
            == ChartCharset::HalfBlock),
{
    match charset {
        ChartCharset::Braille | ChartCharset::Block | ChartCharset::HalfBlock => true,
        _ => false,
    }
}

pub open spec fn spec_spark_levels(charset: ChartCharset) -> nat {
    if charset == ChartCharset::Braille { 4 } else { 8 }
}

/// The max sub-levels one spark cell shows under `charset`.
pub fn spark_levels(charset: ChartCharset) -> (r: usize)
    ensures
        r == spec_spark_levels(charset),
{
    if charset == ChartCharset::Braille {
        BRAILLE_PER_ROW
    } else {
        BLOCK_PER_ROW
    }
}

/// The glyph of one spark cell at `level`, clamped to `1..=levels` (a
/// painted spark cell is never blank).
pub fn spark_glyph(charset: ChartCharset, level: usize) -> (c: char)
    ensures
        ({
            let max = spec_spark_levels(charset);
            let k: nat = if level < 1 { 1 } else if level > max { max } else { level as nat };
            c == if charset == ChartCharset::Braille {
                braille_level_glyph(k)
            } else {
                block_level_glyph(k)
            }
        }),
{
    let max_levels = spark_levels(charset);
    let level = if level < 1 {
        1
    } else if level > max_levels {
        max_levels
    } else {
        level
    };
    if charset == ChartCharset::Braille {
        braille_glyph(level)
    } else {
        block_glyph(level)
    }
}

/// How a chart of a given height resolves: the total lit sub-rows of a full
/// column, the sub-rows of one text cell and which glyph ramp paints.
#[derive(PartialEq, Eq, Structural, Clone, Copy, Debug)]
pub struct PlotGeometry {
    pub levels_total: usize,
    pub per_cell: usize,
    pub block_ramp: bool,
}

pub open spec fn spec_plot_geometry(charset: ChartCharset, height: nat) -> Option<PlotGeometry> {
    match charset {
        ChartCharset::Dot | ChartCharset::Bar => None,
        _ => {
            let block = charset != ChartCharset::Braille;
            let per_row: nat = if block { 8 } else { 4 };
            let ramp = block || height == 1;
            Some(PlotGeometry {
                levels_total: (if height == 1 && !block { 8 } else { height * per_row }) as usize,
                per_cell: if ramp { 8 } else { 4 },
                block_ramp: ramp,
            })
        },
    }
}

/// The geometry of an engine chart `height` text rows tall; `None` for the
/// non-engine charsets.
pub fn plot_geometry(charset: ChartCharset, height: usize) -> (r: Option<PlotGeometry>)
    requires
        height * BLOCK_PER_ROW <= usize::MAX,
    ensures
        r == spec_plot_geometry(charset, height as nat),
{
    let block = match charset {
        ChartCharset::Braille => false,
        ChartCharset::Block | ChartCharset::HalfBlock => true,
        ChartCharset::Dot | ChartCharset::Bar => return None,
    };
    let per_row = if block { BLOCK_PER_ROW } else { BRAILLE_PER_ROW };
    let ramp = block || height == 1;
    Some(PlotGeometry {
        levels_total: if height == 1 && !block { BLOCK_PER_ROW } else { height * per_row },
        per_cell: if ramp { BLOCK_PER_ROW } else { BRAILLE_PER_ROW },
        block_ramp: ramp,
    })
}

/// Lit sub-rows of the text row `below` rows above the bottom, for a column
/// lit to `level`.
pub open spec fn cell_fill(level: nat, per_cell: nat, below: nat) -> nat {
    if level <= below * per_cell {
        0
    } else if level - below * per_cell >= per_cell {
        per_cell
    } else {
        (level - below * per_cell) as nat
    }
}

/// The glyph level of text row `ry` (0 = top) of a column lit to `level`
/// in a plot `height` rows tall with `per_cell` sub-rows per row.
pub fn cell_level(level: usize, height: usize, per_cell: usize, ry: usize) -> (r: usize)
    requires
        ry < height,
        height * per_cell <= usize::MAX,
    ensures
        r == cell_fill(level as nat, per_cell as nat, (height - 1 - ry) as nat),
        r <= per_cell,
{
    proof {
        lemma_mul_inequality((height - 1 - ry) as int, height as int, per_cell as int);
    }
    let sub_below = (height - 1 - ry) * per_cell;
    if level <= sub_below {
        0
    } else if level - sub_below >= per_cell {
        per_cell
    } else {
        level - sub_below
    }
}

/// Lit sub-rows of the bottom `rows` text rows together.
pub open spec fn rows_fill(level: nat, per_cell: nat, rows: nat) -> nat
    decreases rows,
{
    if rows == 0 {
        0
    } else {
        rows_fill(level, per_cell, (rows - 1) as nat) + cell_fill(level, per_cell, (rows - 1) as nat)
    }
}

/// A column's cells add up to its level: the text rows of a plot show
/// exactly the lit sub-rows, clipped at the plot top.
pub proof fn lit_rows_add_up(level: nat, per_cell: nat, rows: nat)
    ensures
        rows_fill(level, per_cell, rows) == if level <= rows * per_cell {
            level
        } else {
            rows * per_cell
        },
    decreases rows,
{
    if rows > 0 {
        let r1 = (rows - 1) as nat;
        lit_rows_add_up(level, per_cell, r1);
        assert(rows * per_cell == r1 * per_cell + per_cell) by (nonlinear_arith)
            requires rows >= 1, r1 == rows - 1;
        assert(rows_fill(level, per_cell, rows) == rows_fill(level, per_cell, r1) + cell_fill(
            level,
            per_cell,
            r1,
        ));
        let a = r1 * per_cell;
        if level <= a {
            assert(cell_fill(level, per_cell, r1) == 0);
        } else {
            assert(rows_fill(level, per_cell, r1) == a);
        }
    } else {
        assert(rows * per_cell == 0) by (nonlinear_arith)
            requires rows == 0;
    }
}

pub open spec fn ceil_div(a: int, b: int) -> int {
    (a + b - 1) / b
}

proof fn lemma_ceil_div_le(a: int, b: int, j: int)
    requires
        b > 0,
        a >= 0,
    ensures
        ceil_div(a, b) <= j <==> a <= j * b,
{
    lemma_fundamental_div_mod(a + b - 1, b);
    lemma_mod_pos_bound(a + b - 1, b);
    let q = ceil_div(a, b);
    let r = (a + b - 1) % b;
    assert(a + b - 1 == b * q + r);
    if q <= j {
        assert(b * q <= b * j) by (nonlinear_arith)
            requires q <= j, b > 0;
        assert(a <= j * b) by (nonlinear_arith)
            requires a + b - 1 == b * q + r, r < b, b * q <= b * j;
    }
    if a <= j * b {
        assert(q <= j) by (nonlinear_arith)
            requires a + b - 1 == b * q + r, r >= 0, r < b, a <= j * b, b > 0;
    }
}

/// `ceil_div(a, b)` groups of `b` cover `a`, and at least one group is
/// needed for a nonzero `a`.
pub(crate) proof fn lemma_ceil_div_cover(a: int, b: int)
    requires
        b > 0,
        a >= 0,
    ensures
        ceil_div(a, b) * b >= a,
        a >= 1 ==> ceil_div(a, b) >= 1,
        ceil_div(a, b) >= 0,
{
    lemma_ceil_div_le(a, b, ceil_div(a, b));
    lemma_ceil_div_le(a, b, 0);
    lemma_ceil_div_le(a, b, -1);
}

/// `a / b` rounded up (`usize::div_ceil`).
pub fn div_ceil(a: usize, b: usize) -> (r: usize)
    requires
        b > 0,
    ensures
        r == ceil_div(a as int, b as int),
{
    proof {
        lemma_fundamental_div_mod(a as int, b as int);
        lemma_mod_pos_bound(a as int, b as int);
        let q = a as int / b as int;
        let m = a as int % b as int;
        lemma_fundamental_div_mod(a + b - 1, b as int);
        lemma_mod_pos_bound(a + b - 1, b as int);
        let q2 = (a + b - 1) / (b as int);
        let m2 = (a + b - 1) % (b as int);
        // a + b - 1 == b * q + (m + b - 1), and m + b - 1 < 2b
        if m == 0 {
            assert(q2 == q) by (nonlinear_arith)
                requires a + b - 1 == b * q2 + m2, a == b * q + m, m == 0, 0 <= m2 < b, b > 0;
        } else {
            assert(q2 == q + 1) by (nonlinear_arith)
                requires a + b - 1 == b * q2 + m2, a == b * q + m, 0 < m < b, 0 <= m2 < b, b > 0;
        }
    }
    let q = a / b;
    if a % b != 0 {
        proof {
            assert(b >= 2);
            lemma_div_is_ordered_by_denominator(a as int, 2, b as int);
        }
        q + 1
    } else {
        q
    }
}

/// The samples (`[lo, hi)` indices) that fall into chart column `c` of a
/// `width`-column plot of `n` evenly spaced samples: sample `j` belongs to
/// column `floor(j * (width - 1) / (n - 1))`.
pub fn column_samples(c: usize, n: usize, width: usize) -> (r: (usize, usize))
    requires
        n >= 2,
        width >= 2,
        c < width,
        width * n <= usize::MAX,
    ensures
        r.0 == (if ceil_div((c * (n - 1)) as int, (width - 1) as int) < n - 1 {
            ceil_div((c * (n - 1)) as int, (width - 1) as int)
        } else {
            n - 1
        }),
        r.1 == (if ceil_div(((c + 1) * (n - 1)) as int, (width - 1) as int) < n {
            ceil_div(((c + 1) * (n - 1)) as int, (width - 1) as int)
        } else {
            n as int
        }),
{
    let scale = n - 1;
    let denom = width - 1;
    assert((c + 1) * scale <= width * n) by (nonlinear_arith)
        requires c + 1 <= width, scale <= n;
    assert(c * scale <= (c + 1) * scale) by (nonlinear_arith)
        requires scale >= 0;
    let a = c * scale;
    let b = (c + 1) * scale;
    let jlo = div_ceil(a, denom);
    let jhi = div_ceil(b, denom);
    (if jlo < n - 1 { jlo } else { n - 1 }, if jhi < n { jhi } else { n })
}

/// Every sample lands in the sample range of its own column.
pub proof fn sample_in_its_column(j: int, n: int, width: int)
    requires
        n >= 2,
        width >= 2,
        0 <= j < n,
    ensures
        ({
            let c = j * (width - 1) / (n - 1);
            let lo = ceil_div(c * (n - 1), width - 1);
            let hi = ceil_div((c + 1) * (n - 1), width - 1);
            &&& c < width
            &&& lo <= j
            &&& j < hi
        }),
{
    let s = n - 1;
    let d = width - 1;
    let c = j * d / s;
    lemma_fundamental_div_mod(j * d, s);
    lemma_mod_pos_bound(j * d, s);
    let r = (j * d) % s;
    assert(j * d == s * c + r);
    assert(c * s <= j * d) by (nonlinear_arith)
        requires j * d == s * c + r, r >= 0;
    lemma_ceil_div_le(c * s, d, j);
    assert(c * (n - 1) == c * s);
    assert((c + 1) * s > j * d) by (nonlinear_arith)
        requires j * d == s * c + r, r < s;
    lemma_ceil_div_le((c + 1) * s, d, j);
    assert(j * d <= (n - 1) * d) by (nonlinear_arith)
        requires j <= n - 1, d >= 0;
    assert(c < width) by (nonlinear_arith)
        requires c * s <= j * d, j * d <= s * d, s > 0, d == width - 1;
}

/// The samples (`[lo, hi)` indices) a one-row spark of `width` cells puts
/// into cell `c` when the series is longer than the row (bucket peaks).
pub fn spark_bucket(c: usize, n: usize, width: usize) -> (r: (usize, usize))
    requires
        width >= 1,
        c < width,
        width * n <= usize::MAX,
    ensures
        r.0 == (if ceil_div((c * n) as int, width as int) < n {
            ceil_div((c * n) as int, width as int)
        } else {
            n as int
        }),
        r.1 == (if ceil_div(((c + 1) * n) as int, width as int) < n {
            ceil_div(((c + 1) * n) as int, width as int)
        } else {
            n as int
        }),
{
    assert((c + 1) * n <= width * n) by (nonlinear_arith)
        requires c + 1 <= width;
    assert(c * n <= (c + 1) * n) by (nonlinear_arith);
    let a = c * n;
    let b = (c + 1) * n;
    let jlo = div_ceil(a, width);
    let jhi = div_ceil(b, width);
    (if jlo < n { jlo } else { n }, if jhi < n { jhi } else { n })
}

/// The spark buckets tile the samples: the first starts at 0, each starts
/// where the previous one ends, the last ends at `n`, and with more samples
/// than cells none is empty.
pub proof fn spark_buckets_tile(n: int, width: int, c: int)
    requires
        width >= 1,
        0 <= c < width,
        n >= width,
    ensures
        ceil_div(0 * n, width) == 0,
        ceil_div(width * n, width) == n,
        ceil_div(c * n, width) < ceil_div((c + 1) * n, width),
        ceil_div((c + 1) * n, width) <= n,
{
    assert(0 * n == 0);
    assert(ceil_div(0, width) == 0) by {
        lemma_basic_div(width - 1, width);
    }
    lemma_ceil_div_le(width * n, width, n);
    lemma_ceil_div_le(width * n, width, n - 1);
    assert(width * n == n * width) by (nonlinear_arith);
    assert(!(width * n <= (n - 1) * width)) by (nonlinear_arith)
        requires width >= 1, n >= 1;
    let lo = ceil_div(c * n, width);
    lemma_ceil_div_le(c * n, width, lo);
    lemma_ceil_div_le((c + 1) * n, width, lo);
    // (c + 1) * n > lo * width because lo * width < c * n + width <= (c + 1) * n
    lemma_fundamental_div_mod(c * n + width - 1, width);
    lemma_mod_pos_bound(c * n + width - 1, width);
    assert(lo * width <= c * n + width - 1) by (nonlinear_arith)
        requires c * n + width - 1 == width * lo + (c * n + width - 1) % width,
            (c * n + width - 1) % width >= 0;
    assert((c + 1) * n == c * n + n) by (nonlinear_arith);
    lemma_ceil_div_le((c + 1) * n, width, n);
    assert((c + 1) * n <= n * width) by (nonlinear_arith)
        requires c + 1 <= width, n >= 0;
}

/// How the history rows below a widget's content split: a dim divider on
/// the first row when at least three rows remain and the engine draws, then
/// the plot down to the area's bottom.
#[derive(PartialEq, Eq, Structural, Clone, Copy, Debug)]
pub struct HistorySplit {
    /// First of the leftover rows.
    pub top: u16,
    /// The first row carries the divider line.
    pub divider: bool,
    pub plot_y: u16,
    pub plot_h: u16,
}

/// The split of the `leftover` rows that end at row `bottom` (exclusive).
pub fn history_split(bottom: u16, leftover: u16, engine: bool) -> (r: HistorySplit)
    requires
        leftover <= bottom,
    ensures
        r.top == bottom - leftover,
        r.divider == (leftover >= 3 && engine),
        r.plot_h == (if r.divider { leftover - 1 } else { leftover as int }),
        r.plot_y == r.top + leftover - r.plot_h,
        r.plot_y + r.plot_h == bottom,
        r.divider ==> r.plot_y == r.top + 1,
        leftover > 0 ==> r.plot_h > 0,
{
    let top = bottom - leftover;
    let divider = leftover >= 3 && engine;
    let plot_h = if divider { leftover - 1 } else { leftover };
    HistorySplit { top, divider, plot_y: top + leftover - plot_h, plot_h }
}

/// The glyph of a chart cell with `k` lit sub-rows.
pub open spec fn cell_glyph(k: nat, block_ramp: bool) -> char {
    if block_ramp { block_level_glyph(k) } else { braille_level_glyph(k) }
}

/// The cells of one chart column lit to `level`, bottom text row first:
/// the text row (0 = top of the plot) and its glyph, for each row that has
/// lit sub-rows; the unlit rows above are left alone.
pub fn column_cells(level: usize, height: usize, per_cell: usize, block_ramp: bool) -> (r: Vec<(usize, char)>)
    requires
        per_cell == (if block_ramp { BLOCK_PER_ROW } else { BRAILLE_PER_ROW }),
        height * per_cell <= usize::MAX,
    ensures
        r@.len() <= height,
        forall|k: int| 0 <= k < r@.len() ==> #[trigger] r@[k] == ((height - 1 - k) as usize, cell_glyph(
            cell_fill(level as nat, per_cell as nat, k as nat),
            block_ramp,
        )) && cell_fill(level as nat, per_cell as nat, k as nat) > 0,
        forall|k: int| r@.len() <= k < height ==> #[trigger] cell_fill(level as nat, per_cell as nat, k as nat) == 0,
{
    let mut cells: Vec<(usize, char)> = Vec::new();
    let mut b: usize = 0;
    while b < height
        invariant
            b <= height,
            per_cell == (if block_ramp { BLOCK_PER_ROW } else { BRAILLE_PER_ROW }),
            height * per_cell <= usize::MAX,
            cells@.len() <= b,
            forall|k: int| 0 <= k < cells@.len() ==> #[trigger] cells@[k] == ((height - 1 - k) as usize, cell_glyph(
                cell_fill(level as nat, per_cell as nat, k as nat),
                block_ramp,
            )) && cell_fill(level as nat, per_cell as nat, k as nat) > 0,
            forall|k: int| cells@.len() <= k < b ==> #[trigger] cell_fill(level as nat, per_cell as nat, k as nat) == 0,
        decreases height - b,
    {
        let ry = height - 1 - b;
        let k = cell_level(level, height, per_cell, ry);
        assert(height - 1 - ry == b);
        if k > 0 {
            if cells.len() < b {
                let ghost j = cells@.len() as int;
                assert(cell_fill(level as nat, per_cell as nat, j as nat) == 0);
                assert(j * per_cell <= b * per_cell) by (nonlinear_arith)
                    requires j <= b, per_cell >= 0;
                assert(false);
            }
            let g = if block_ramp { block_glyph(k) } else { braille_glyph(k) };
            cells.push((ry, g));
        }
        b = b + 1;
    }
    cells
}


/// The block family draws alike: a `half_block` chart has the geometry of a
/// `block` chart, eight sub-rows per text row painted with the block ramp.
pub proof fn half_block_draws_as_block(height: nat)
    requires
        height >= 1,
        height * 8 <= usize::MAX,
    ensures
        spec_plot_geometry(ChartCharset::HalfBlock, height) == Some(
            PlotGeometry { levels_total: (8 * height) as usize, per_cell: 8, block_ramp: true },
        ),
        spec_plot_geometry(ChartCharset::Block, height) == Some(
            PlotGeometry { levels_total: (8 * height) as usize, per_cell: 8, block_ramp: true },
        ),
{
}

/// A braille chart lights four sub-rows per text row with braille glyphs;
/// a one-row braille plot is a sparkline and uses the eight-level block
/// ramp. `dot` and `bar` are not drawn by the engine.
pub proof fn braille_geometry(height: nat)
    requires
        height * 8 <= usize::MAX,
    ensures
        height >= 2 ==> spec_plot_geometry(ChartCharset::Braille, height) == Some(
            PlotGeometry { levels_total: (4 * height) as usize, per_cell: 4, block_ramp: false },
        ),
        spec_plot_geometry(ChartCharset::Braille, 1) == Some(
            PlotGeometry { levels_total: 8, per_cell: 8, block_ramp: true },
        ),
        spec_plot_geometry(ChartCharset::Dot, height) is None,
        spec_plot_geometry(ChartCharset::Bar, height) is None,
{
}

} // verus!
