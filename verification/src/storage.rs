//! Storage widget layout: tall per-disk blocks or one row per disk, and the
//! cells of each row style.

use vstd::prelude::*;
use crate::cpu::{max, min, sat_sub};
use crate::format::{format_used_free, used_free_text};
use crate::text::{byte_width, push_char, push_str, truncate_chars, truncated};

verus! {

broadcast use vstd::string::group_string_axioms;

/// Rows show label, bar, `pct  used/free` from this inner width up.
pub const FULL_WIDTH: u16 = 36;
/// Rows narrower than this show text only.
pub const TEXT_ONLY_MAX: u16 = 11;
/// Percent cell width (right-aligned `100%`).
pub const PCT_WIDTH: u16 = 4;
/// Tall per-disk blocks need at least this inner width.
pub const TALL_MIN_WIDTH: u16 = 18;
/// Width of the free-share spark at the end of a full row.
pub const FREE_SPARK_W: u16 = 6;
/// The free-share spark shows from this inner width up.
pub const SPARK_MIN_WIDTH: u16 = 60;

/// How the selected disks are drawn.
#[derive(PartialEq, Eq, Structural, Clone, Copy, Debug)]
pub enum StorageMode {
    /// One block of `per_disk` rows per disk (label row, used bar,
    /// available bar).
    Blocks { per_disk: u16 },
    /// One row per disk for the first `rows` disks.
    Rows { rows: u16 },
}

/// Blocks when every disk gets at least two rows in a box at least four
/// rows tall and `TALL_MIN_WIDTH` wide; rows otherwise.
pub fn storage_mode(width: u16, height: u16, n: usize) -> (m: StorageMode)
    requires
        1 <= n <= u16::MAX,
    ensures
        ({
            let per_disk = (height as int) / (n as int);
            m == (if per_disk >= 2 && height >= 4 && width >= TALL_MIN_WIDTH {
                StorageMode::Blocks { per_disk: per_disk as u16 }
            } else {
                StorageMode::Rows { rows: min(height as int, n as int) as u16 }
            })
        }),
        m matches StorageMode::Blocks { per_disk } ==> per_disk * n <= height,
{
    let nn = n as u16;
    let per_disk = height / nn;
    proof {
        vstd::arithmetic::div_mod::lemma_fundamental_div_mod(height as int, n as int);
        vstd::arithmetic::div_mod::lemma_mod_pos_bound(height as int, n as int);
        vstd::arithmetic::mul::lemma_mul_is_commutative(per_disk as int, n as int);
    }
    if per_disk >= 2 && height >= 4 && width >= TALL_MIN_WIDTH {
        StorageMode::Blocks { per_disk }
    } else {
        StorageMode::Rows { rows: if height < nn { height } else { nn } }
    }
}

/// The row style of a row-mode box `width` wide.
#[derive(PartialEq, Eq, Structural, Clone, Copy, Debug)]
pub enum RowStyle {
    /// Label, bar, `pct  used/free` and the free spark.
    Full,
    /// Label, percent cell, bar.
    Compact,
    /// `mount pct%` cut to the width.
    TextOnly,
}

pub fn row_style(width: u16) -> (r: RowStyle)
    ensures
        r == (if width >= FULL_WIDTH {
            RowStyle::Full
        } else if width >= TEXT_ONLY_MAX {
            RowStyle::Compact
        } else {
            RowStyle::TextOnly
        }),
{
    if width >= FULL_WIDTH {
        RowStyle::Full
    } else if width >= TEXT_ONLY_MAX {
        RowStyle::Compact
    } else {
        RowStyle::TextOnly
    }
}

/// The detail text of a disk: `{pct}%  {used/free}` (no amounts for a disk
/// without a total).
pub open spec fn disk_detail_text(pct: Seq<char>, used: nat, total: nat) -> Seq<char> {
    pct + "%  "@ + if total > 0 {
        used_free_text(used, sat_sub(total as int, used as int) as nat)
    } else {
        seq![]
    }
}

pub fn disk_detail(pct: &str, used: u64, total: u64) -> (r: String)
    ensures
        r@ == disk_detail_text(pct@, used as nat, total as nat),
{
    let mut out = String::new();
    push_str(&mut out, pct);
    push_str(&mut out, "%  ");
    let ghost head = out@;
    if total > 0 {
        let free = if total >= used { total - used } else { 0 };
        let amounts = format_used_free(used, free);
        push_str(&mut out, amounts.as_str());
    }
    assert(out@ =~= disk_detail_text(pct@, used as nat, total as nat));
    out
}

/// The cells of a full row.
#[derive(PartialEq, Eq, Structural, Clone, Copy, Debug)]
pub struct FullRowCells {
    pub label_w: u16,
    pub bar_x: u16,
    /// The bar is drawn when it keeps at least four cells.
    pub bar_w: u16,
    pub detail_x: u16,
    /// 0 without the spark.
    pub spark_w: u16,
    pub spark_x: u16,
}

/// Lay out a full row of an area from `x`, `width` wide, whose detail text
/// is `detail_w` bytes.
pub fn full_row(x: u16, width: u16, detail_w: u16) -> (c: FullRowCells)
    requires
        width >= FULL_WIDTH,
        x + width <= u16::MAX,
        detail_w <= x + width,
    ensures
        c.label_w == min(12, width as int),
        c.spark_w == (if width >= SPARK_MIN_WIDTH && width >= c.label_w + 1 + 4 + 1 + detail_w + 1
            + FREE_SPARK_W {
            FREE_SPARK_W as int
        } else {
            0
        }),
        c.bar_x == x + c.label_w + 1,
        c.bar_w == sat_sub(
            width as int,
            c.label_w + 1 + detail_w + 1 + c.spark_w + if c.spark_w > 0 { 1int } else { 0 },
        ),
        c.detail_x == x + width - detail_w - c.spark_w - if c.spark_w > 0 { 1int } else { 0 },
        c.spark_x == x + width - c.spark_w,
        c.bar_w > 0 ==> c.bar_x + c.bar_w < c.detail_x,
        c.spark_w > 0 ==> c.detail_x + detail_w < c.spark_x,
{
    let label_w: u16 = if 12 < width { 12 } else { width };
    let need: u32 = label_w as u32 + 1 + 4 + 1 + detail_w as u32 + 1 + FREE_SPARK_W as u32;
    let spark_w: u16 = if width >= SPARK_MIN_WIDTH && width as u32 >= need { FREE_SPARK_W } else { 0 };
    let gap: u16 = if spark_w > 0 { 1 } else { 0 };
    let cut: u32 = label_w as u32 + 1 + detail_w as u32 + 1 + spark_w as u32 + gap as u32;
    let bar_w: u16 = if width as u32 >= cut { (width as u32 - cut) as u16 } else { 0 };
    let end = x + width;
    let detail_x = end - detail_w - spark_w - gap;
    FullRowCells { label_w, bar_x: x + label_w + 1, bar_w, detail_x, spark_w, spark_x: end - spark_w }
}

/// The cells of a compact row.
#[derive(PartialEq, Eq, Structural, Clone, Copy, Debug)]
pub struct CompactRowCells {
    pub label_w: u16,
    pub pct_x: u16,
    pub bar_x: u16,
    pub bar_w: u16,
}

/// Lay out a compact row from `x`, `width` wide, whose percent text is
/// `pct_w` bytes: the label takes what the percent cell and a four-cell bar
/// leave (at least one column).
pub fn compact_row(x: u16, width: u16, pct_w: u16) -> (c: CompactRowCells)
    requires
        x + width <= u16::MAX,
        x + 1 + 1 + PCT_WIDTH + 1 <= u16::MAX,
    ensures
        c.label_w == max(sat_sub(width as int, PCT_WIDTH + 2 + 4), 1),
        c.pct_x == x + c.label_w + 1 + sat_sub(PCT_WIDTH as int, pct_w as int),
        c.bar_x == x + c.label_w + 1 + PCT_WIDTH + 1,
        c.bar_w == sat_sub(width as int, c.label_w + 1 + PCT_WIDTH + 1),
        c.bar_w > 0 ==> c.bar_x + c.bar_w == x + width,
{
    let spare = if width >= PCT_WIDTH + 2 + 4 { width - (PCT_WIDTH + 2 + 4) } else { 0 };
    let label_w = if spare > 1 { spare } else { 1 };
    let pct_x = x + label_w + 1 + if pct_w < PCT_WIDTH { PCT_WIDTH - pct_w } else { 0 };
    let used = label_w + 1 + PCT_WIDTH + 1;
    let bar_w = if width >= used { width - used } else { 0 };
    CompactRowCells { label_w, pct_x, bar_x: x + used, bar_w }
}

/// `{mount} {pct}%` cut to the row width.
pub open spec fn text_only_text(mount: Seq<char>, pct: Seq<char>, width: nat) -> Seq<char> {
    truncated(mount + seq![' '] + pct + "%"@, width)
}

pub fn text_only_row(mount: &str, pct: &str, width: u16) -> (r: String)
    ensures
        r@ == text_only_text(mount@, pct@, width as nat),
{
    let mut line = String::new();
    push_str(&mut line, mount);
    push_char(&mut line, ' ');
    push_str(&mut line, pct);
    push_str(&mut line, "%");
    assert(line@ =~= mount@ + seq![' '] + pct@ + "%"@);
    truncate_chars(line.as_str(), width as usize)
}

/// What the head row of a disk block carries right of its label.
#[derive(PartialEq, Eq, Structural, Clone, Copy, Debug)]
pub enum BlockHead {
    /// The `pct  used/free` detail, right-aligned.
    Detail { x: u16 },
    /// The percent text at the percent cell right of the row.
    Pct { x: u16 },
    /// The label only.
    LabelOnly,
}

/// The cells of one disk block.
#[derive(PartialEq, Eq, Structural, Clone, Copy, Debug)]
pub struct BlockCells {
    pub label_w: u16,
    pub head: BlockHead,
    /// The `U` used bar row is shown (second row).
    pub used_row: bool,
    /// The `A` available bar row is shown (third row).
    pub avail_row: bool,
    /// Both bars start after the `U `/`A ` prefix and run to the row end
    /// (the area's start when the block has no bar row).
    pub bar_x: u16,
    pub bar_w: u16,
}

/// Lay out a disk block of `rows_h` rows from `x`, `width` wide, whose
/// detail text is `detail_w` bytes.
pub fn block_cells(x: u16, width: u16, rows_h: u16, detail_w: u16) -> (c: BlockCells)
    requires
        x + width <= u16::MAX,
        rows_h >= 2 ==> x + 2 <= u16::MAX,
        width >= FULL_WIDTH ==> detail_w <= x + width,
    ensures
        c.label_w == min(12, sat_sub(width as int, 1)),
        c.head == (if width >= FULL_WIDTH {
            BlockHead::Detail { x: (x + width - detail_w) as u16 }
        } else if width >= 20 {
            BlockHead::Pct { x: (x + width - PCT_WIDTH) as u16 }
        } else {
            BlockHead::LabelOnly
        }),
        c.used_row == (rows_h >= 2),
        c.avail_row == (rows_h >= 3),
        c.used_row ==> c.bar_x == x + 2,
        c.bar_w == sat_sub(width as int, 2),
{
    let label_w = if width >= 1 { if 12 < width - 1 { 12 } else { width - 1 } } else { 0 };
    let head = if width >= FULL_WIDTH {
        BlockHead::Detail { x: x + width - detail_w }
    } else if width >= 20 {
        BlockHead::Pct { x: x + width - PCT_WIDTH }
    } else {
        BlockHead::LabelOnly
    };
    BlockCells {
        label_w,
        head,
        used_row: rows_h >= 2,
        avail_row: rows_h >= 3,
        bar_x: if rows_h >= 2 { x + 2 } else { x },
        bar_w: if width >= 2 { width - 2 } else { 0 },
    }
}

} // verus!
