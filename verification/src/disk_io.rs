//! Disk I/O widget layout: the device rows above the throughput history and
//! the cells of one device row.

use vstd::prelude::*;
use crate::cpu::{max, min, sat_sub};
use crate::text::{byte_width, push_char, push_str, truncate_chars, truncated};

verus! {

broadcast use vstd::string::group_string_axioms;

/// Rows carry the two throughput bars from this inner width up.
pub const BAR_WIDTH_MIN: u16 = 30;
/// Below this width the rate texts lose their inner spaces.
pub const COMPACT_MAX: u16 = 18;
/// The history needs at least this inner width.
pub const CHART_MIN_WIDTH: u16 = 16;

/// The device rows: with the history on, two rows stay free for it and a
/// `… +n more` line follows when devices were left out and a row remains.
pub fn device_rows(height: u16, n: usize, hist_on: bool) -> (r: (u16, bool))
    ensures
        r.0 == min(sat_sub(height as int, if hist_on { 2int } else { 0 }), n as int),
        r.1 == (hist_on && r.0 < n && r.0 < height),
        r.0 <= height,
{
    let (rows, more) = crate::network::list_rows(height, if hist_on { 2 } else { 0 }, n);
    (rows, hist_on && more)
}

/// `s` without its space characters.
pub open spec fn squeezed(s: Seq<char>) -> Seq<char>
    decreases s.len(),
{
    if s.len() == 0 {
        s
    } else if s.last() != ' ' {
        squeezed(s.drop_last()).push(s.last())
    } else {
        squeezed(s.drop_last())
    }
}

/// The rate text as a compact row shows it (spaces removed).
pub fn squeeze_spaces(s: &str) -> (r: String)
    ensures
        r@ == squeezed(s@),
{
    let mut out = String::new();
    for ch in it: s.chars()
        invariant
            it.seq() == s@,
            out@ == squeezed(s@.take(it.index() as int)),
    {
        let ghost before = s@.take(it.index() as int);
        assert(s@.take(it.index() as int + 1) =~= before.push(ch));
        assert(before.push(ch).drop_last() =~= before);
        if ch != ' ' {
            push_char(&mut out, ch);
        }
    }
    assert(s@.take(s@.len() as int) =~= s@);
    out
}

/// How a device row lays out its texts.
pub enum DeviceText {
    /// `name  R r  W w` then the read and write bars.
    Bars {
        name: String,
        r_x: u16,
        w_x: u16,
        /// The read bar (`x`, `w`) and the write bar after a gap; both are
        /// drawn only when the bar room keeps nine cells.
        bars: Option<((u16, u16), (u16, u16))>,
    },
    /// `name R r W w` with the name cut to what the texts leave.
    Texts { name: String, r_x: u16, w_x: u16 },
    /// Too narrow: `name R r W w` cut to the row width.
    Line { line: String },
}

/// The row of the device `name` in an area from `x`, `width` wide; `read`
/// and `write` are its rate texts as shown (see [`squeeze_spaces`]).
pub fn device_row(x: u16, width: u16, name: &str, read: &str, write: &str) -> (r: DeviceText)
    requires
        x + width <= u16::MAX,
        width >= BAR_WIDTH_MIN ==> x + 10 + 1 + 2 + byte_width(read@) + 2 + 2 + byte_width(write@) + 2 <= u16::MAX,
        width < BAR_WIDTH_MIN ==> 6 + byte_width(read@) + byte_width(write@) <= u16::MAX,
    ensures
        ({
            let rl = byte_width(read@) as int;
            let wl = byte_width(write@) as int;
            let end = x + width;
            if width >= BAR_WIDTH_MIN {
                let label_w = min(10, width as int);
                let r_at = x + label_w + 1;
                let w_at = r_at + 2 + rl + 2;
                let bars_x = w_at + 2 + wl + 2;
                let bar_w = sat_sub(end, bars_x);
                r matches DeviceText::Bars { name: n, r_x, w_x, bars }
                    && n@ == truncated(name@, label_w as nat) && r_x == r_at && w_x == w_at
                    && bars == (if bar_w >= 9 {
                        Some(((bars_x as u16, (bar_w / 2) as u16), ((bars_x + bar_w / 2 + 1) as u16, (bar_w - bar_w / 2 - 1) as u16)))
                    } else {
                        None::<((u16, u16), (u16, u16))>
                    })
            } else {
                let required = 6 + rl + wl;
                let label_w = max(sat_sub(width as int, required), 1);
                if label_w + required <= width {
                    let r_at = x + label_w + 1;
                    r matches DeviceText::Texts { name: n, r_x, w_x }
                        && n@ == truncated(name@, label_w as nat) && r_x == r_at && w_x == r_at + 2 + rl + 1
                } else {
                    r matches DeviceText::Line { line } && line@ == truncated(
                        name@ + " R "@ + read@ + " W "@ + write@,
                        width as nat,
                    )
                }
            }
        }),
        r matches DeviceText::Bars { bars: Some((rb, wb)), .. } ==> rb.0 + rb.1 < wb.0 && wb.0 + wb.1 == x + width,
{
    let rl = read.len() as u16;
    let wl = write.len() as u16;
    let end = x + width;
    if width >= BAR_WIDTH_MIN {
        let label_w = if 10 < width { 10 } else { width };
        let shown = truncate_chars(name, label_w as usize);
        let r_at = x + label_w + 1;
        let w_at = r_at + 2 + rl + 2;
        let bars_x = w_at + 2 + wl + 2;
        let bar_w = if end >= bars_x { end - bars_x } else { 0 };
        let bars = if bar_w >= 9 {
            Some(((bars_x, bar_w / 2), (bars_x + bar_w / 2 + 1, bar_w - bar_w / 2 - 1)))
        } else {
            None
        };
        return DeviceText::Bars { name: shown, r_x: r_at, w_x: w_at, bars };
    }
    let required = 6 + rl + wl;
    let spare = if width >= required { width - required } else { 0 };
    let label_w = if spare > 1 { spare } else { 1 };
    if label_w as u32 + required as u32 <= width as u32 {
        let shown = truncate_chars(name, label_w as usize);
        let r_at = x + label_w + 1;
        DeviceText::Texts { name: shown, r_x: r_at, w_x: r_at + 2 + rl + 1 }
    } else {
        let mut line = String::new();
        push_str(&mut line, name);
        push_str(&mut line, " R ");
        push_str(&mut line, read);
        push_str(&mut line, " W ");
        push_str(&mut line, write);
        assert(line@ =~= name@ + " R "@ + read@ + " W "@ + write@);
        DeviceText::Line { line: truncate_chars(line.as_str(), width as usize) }
    }
}

} // verus!
