//! Memory widget layout: which sections show, the cells of a meter row and
//! the one-line summary of very narrow boxes.

use vstd::prelude::*;
use crate::cpu::sat_sub;
use crate::glyph::opt_ref_view;
use crate::options::{JsonValue, name_list, names_view, opt_name_list, str_eq, str_view};
use crate::text::{byte_width, push_char, push_str};

verus! {

broadcast use vstd::string::group_string_axioms;

/// Chart minimum width; narrower boxes show the section rows only.
pub const CHART_MIN_WIDTH: u16 = 14;
/// Percent cell width (right-aligned `100%`).
pub const PCT_WIDTH: u16 = 4;
/// Below this width the sections collapse to a single summary line.
pub const SUMMARY_MAX_WIDTH: u16 = 10;
/// The label column width (`RAM`/`SWP` + gap before the percent cell).
pub const LABEL_PREFIX: u16 = 4;
/// Width of the RAM free-share spark.
pub const FREE_SPARK_W: u16 = 6;
/// The rows show the used+free detail from this inner width up.
pub const USED_FREE_MIN_WIDTH: u16 = 34;

/// The sections named in the `sections` list; absent, unparseable or
/// naming none of `memory`/`available`/`swap` keeps all three.
pub open spec fn spec_sections(opts: Option<JsonValue>) -> (bool, bool, bool) {
    match opts {
        None => (true, true, true),
        Some(o) => match opt_name_list(o, "sections"@) {
            None => (true, true, true),
            Some(list) => {
                let m = list.contains("memory"@);
                let a = list.contains("available"@);
                let s = list.contains("swap"@);
                if !m && !a && !s {
                    (true, true, true)
                } else {
                    (m, a, s)
                }
            },
        },
    }
}

/// `(memory, available, swap)`: which sections the widget shows.
pub fn selected_sections(opts: Option<&JsonValue>) -> (r: (bool, bool, bool))
    ensures
        r == spec_sections(opt_ref_view(opts)),
{
    let o = match opts {
        Some(o) => o,
        None => return (true, true, true),
    };
    let list = match name_list(o, "sections") {
        Some(l) => l,
        None => return (true, true, true),
    };
    let ghost names = names_view(list@);
    let mut memory = false;
    let mut available = false;
    let mut swap = false;
    let mut i: usize = 0;
    while i < list.len()
        invariant
            i <= list.len(),
            names == names_view(list@),
            memory == names.take(i as int).contains("memory"@),
            available == names.take(i as int).contains("available"@),
            swap == names.take(i as int).contains("swap"@),
        decreases list.len() - i,
    {
        let ghost prev = names.take(i as int);
        assert(names.take(i + 1) =~= prev.push(list@[i as int]@));
        let name = list[i].as_str();
        if str_eq(name, "memory") {
            memory = true;
        } else if str_eq(name, "available") {
            available = true;
        } else if str_eq(name, "swap") {
            swap = true;
        }
        proof {
            reveal_strlit("memory");
            reveal_strlit("available");
            reveal_strlit("swap");
            let next = names.take(i + 1);
            assert(next.last() == name@);
            assert forall|t: Seq<char>| next.contains(t) <==> (prev.contains(t) || t == name@) by {
                if next.contains(t) {
                    let j = choose|j: int| 0 <= j < next.len() && next[j] == t;
                    if j < i {
                        assert(prev[j] == t);
                    }
                }
                if prev.contains(t) {
                    let j = choose|j: int| 0 <= j < prev.len() && prev[j] == t;
                    assert(next[j] == t);
                }
                if t == name@ {
                    assert(next[i as int] == t);
                }
            }
        }
        i = i + 1;
    }
    assert(names.take(list.len() as int) =~= names);
    if !memory && !available && !swap {
        (true, true, true)
    } else {
        (memory, available, swap)
    }
}

/// The cells of one meter row.
#[derive(PartialEq, Eq, Structural, Clone, Copy, Debug)]
pub struct MeterCells {
    /// Where the right-aligned percent text starts.
    pub x_pct: u16,
    pub x_bar: u16,
    pub bar_w: u16,
    /// The used/free detail shows (right-aligned, before the spark).
    pub detail: bool,
    pub detail_x: u16,
    /// The free-share spark shows at the row end.
    pub spark: bool,
    pub spark_x: u16,
}

/// Lay out a meter row of an area from `x`, `width` wide: label, percent
/// cell, bar; on wide rows the right-aligned `detail` text of `detail_w`
/// bytes and, for rows with a free amount (`has_free`) and a free-share
/// history (`spark_ready`), the spark after it.
pub fn meter_cells(x: u16, width: u16, pct_w: u16, detail_w: u16, has_free: bool, spark_ready: bool) -> (c: MeterCells)
    requires
        x + width <= u16::MAX,
        x + LABEL_PREFIX + PCT_WIDTH + 1 <= u16::MAX,
    ensures
        ({
            let x_end = x + width;
            let bar_total = sat_sub(x_end, x + 9);
            let wide = width >= USED_FREE_MIN_WIDTH && bar_total >= 6 + 1 + detail_w;
            let dw = if wide { detail_w as int } else { 0 };
            let spark = wide && has_free && spark_ready && bar_total >= 6 + 1 + dw + 1 + FREE_SPARK_W;
            let tail_w = if spark { 1 + FREE_SPARK_W + dw } else if wide { dw } else { 0 };
            &&& c.x_pct == x + LABEL_PREFIX + sat_sub(PCT_WIDTH as int, pct_w as int)
            &&& c.x_bar == x + LABEL_PREFIX + PCT_WIDTH + 1
            &&& c.bar_w == sat_sub(bar_total, tail_w + if wide { 1int } else { 0 })
            &&& c.detail == wide
            &&& c.spark == spark
            &&& wide ==> c.detail_x == sat_sub(x_end, dw + if spark { 1 + FREE_SPARK_W } else { 0int })
            &&& spark ==> c.spark_x == x_end - FREE_SPARK_W
            &&& c.bar_w > 0 ==> c.x_bar + c.bar_w <= x_end
            &&& c.detail ==> c.x_bar + c.bar_w < c.detail_x && c.detail_x + detail_w <= x_end
            &&& c.spark ==> c.detail_x + detail_w < c.spark_x
        }),
{
    let x_end = x + width;
    let x_bar = x + LABEL_PREFIX + PCT_WIDTH + 1;
    let x_pct = x + LABEL_PREFIX + if pct_w < PCT_WIDTH { PCT_WIDTH - pct_w } else { 0 };
    let bar_total: u16 = if x_end >= x_bar { x_end - x_bar } else { 0 };
    let wide = width >= USED_FREE_MIN_WIDTH && bar_total as u32 >= 6 + 1 + detail_w as u32;
    let dw: u16 = if wide { detail_w } else { 0 };
    let spark = wide && has_free && spark_ready && bar_total as u32 >= 6 + 1 + dw as u32 + 1 + FREE_SPARK_W as u32;
    let tail_w: u16 = if spark { 1 + FREE_SPARK_W + dw } else if wide { dw } else { 0 };
    let cut: u16 = tail_w + if wide { 1 } else { 0 };
    let bar_w = if bar_total >= cut { bar_total - cut } else { 0 };
    let back: u16 = dw + if spark { 1 + FREE_SPARK_W } else { 0 };
    let detail_x = if x_end >= back { x_end - back } else { 0 };
    let spark_x = if spark { x_end - FREE_SPARK_W } else { x_end };
    MeterCells { x_pct, x_bar, bar_w, detail: wide, detail_x, spark, spark_x }
}

/// The one-line summary of a box narrower than `SUMMARY_MAX_WIDTH`: the
/// shown sections' `RAM n%`, `AVL n%` (only when an available share exists)
/// and `SWP n%`, separated by single spaces; `ram`, `avl`, `swp` are the
/// percent texts.
pub open spec fn compact_text(
    show_memory: bool,
    show_available: bool,
    show_swap: bool,
    ram: Seq<char>,
    avl: Option<Seq<char>>,
    swp: Seq<char>,
) -> Seq<char> {
    let a = if show_memory { "RAM "@ + ram + "%"@ } else { seq![] };
    let b = match avl {
        Some(v) => if show_available {
            (if a.len() > 0 { a + seq![' '] } else { a }) + "AVL "@ + v + "%"@
        } else {
            a
        },
        None => a,
    };
    if show_swap {
        (if b.len() > 0 { b + seq![' '] } else { b }) + "SWP "@ + swp + "%"@
    } else {
        b
    }
}

pub fn compact_line(
    show_memory: bool,
    show_available: bool,
    show_swap: bool,
    ram: &str,
    avl: Option<&str>,
    swp: &str,
) -> (r: String)
    ensures
        r@ == compact_text(show_memory, show_available, show_swap, ram@, str_view(avl), swp@),
{
    proof {
        reveal_strlit("RAM ");
        reveal_strlit("AVL ");
        reveal_strlit("SWP ");
    }
    let mut text = String::new();
    if show_memory {
        push_str(&mut text, "RAM ");
        push_str(&mut text, ram);
        push_str(&mut text, "%");
    }
    let ghost a = text@;
    assert(a =~= if show_memory { "RAM "@ + ram@ + "%"@ } else { seq![] });
    match avl {
        Some(v) => if show_available {
            if text.as_str().unicode_len() > 0 {
                push_char(&mut text, ' ');
            }
            let ghost sep = text@;
            push_str(&mut text, "AVL ");
            push_str(&mut text, v);
            push_str(&mut text, "%");
            assert(text@ =~= sep + "AVL "@ + v@ + "%"@);
        },
        None => {},
    }
    let ghost b = text@;
    if show_swap {
        if text.as_str().unicode_len() > 0 {
            push_char(&mut text, ' ');
        }
        let ghost sep = text@;
        push_str(&mut text, "SWP ");
        push_str(&mut text, swp);
        push_str(&mut text, "%");
        assert(text@ =~= sep + "SWP "@ + swp@ + "%"@);
    }
    text
}

/// The rows below the sections: the history chart needs a free row, the
/// chart width and a history of two samples.
pub fn memory_chart_rows(bottom: u16, y: u16, width: u16, hist_len: usize) -> (r: u16)
    ensures
        r == (if y < bottom && width >= CHART_MIN_WIDTH && hist_len >= 2 { bottom - y } else { 0int }),
{
    if y < bottom && width >= CHART_MIN_WIDTH && hist_len >= 2 {
        bottom - y
    } else {
        0
    }
}


/// A `sections` list that names at least one known section shows exactly
/// the sections it names, each flag set by its own name alone; a list
/// naming none of them (or no list) shows all three.
pub proof fn sections_follow_the_list(o: JsonValue, list: Seq<Seq<char>>)
    requires
        opt_name_list(o, "sections"@) == Some(list),
    ensures
        ({
            let r = spec_sections(Some(o));
            let named = list.contains("memory"@) || list.contains("available"@) || list.contains("swap"@);
            &&& named ==> r.0 == list.contains("memory"@)
            &&& named ==> r.1 == list.contains("available"@)
            &&& named ==> r.2 == list.contains("swap"@)
            &&& !named ==> r == (true, true, true)
        }),
{
}

/// Without a usable `sections` list every section shows.
pub proof fn sections_default_to_all(o: JsonValue)
    requires
        opt_name_list(o, "sections"@) is None,
    ensures
        spec_sections(Some(o)) == (true, true, true),
        spec_sections(None) == (true, true, true),
{
}

} // verus!
