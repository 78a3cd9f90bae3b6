//! Network widget layout: how many interface rows fit, the `… +n more`
//! line, the cells of one interface row and the aggregate totals.

use vstd::prelude::*;
use crate::cpu::{min, sat_sub};
use crate::format::{bytes_short_text, dec_digits, format_bytes_short, push_decimal};
use crate::text::{byte_width, push_char, push_str, truncate_chars, truncated};

verus! {

broadcast use vstd::string::group_string_axioms;

/// Interface rows need this inner width (narrower: aggregate lines only).
pub const ROWS_MIN_WIDTH: u16 = 26;
/// The per-interface share bar appears from this inner width.
pub const BAR_MIN_WIDTH: u16 = 41;
/// The cumulative totals column appears from this inner width.
pub const TOT_MIN_WIDTH: u16 = 60;
/// The chart needs at least this inner width.
pub const CHART_MIN_WIDTH: u16 = 16;
/// Per-interface share bar width.
pub const BAR_WIDTH: u16 = 4;
/// Interface name column width.
pub const NAME_WIDTH: usize = 8;

/// The rows a chart keeps free below the interface rows: two when a
/// history exists and the box is wide and tall enough.
pub fn chart_reserve(chart_ready: bool, width: u16, height: u16) -> (r: u16)
    ensures
        r == (if chart_ready && width >= CHART_MIN_WIDTH && height >= 3 { 2int } else { 0 }),
{
    if chart_ready && width >= CHART_MIN_WIDTH && height >= 3 {
        2
    } else {
        0
    }
}

/// How many of `n` items get a row in `height` rows less `reserve`, and
/// whether a `… +k more` line follows them (some items left over and a
/// row left for the line).
pub fn list_rows(height: u16, reserve: u16, n: usize) -> (r: (u16, bool))
    ensures
        r.0 == min(sat_sub(height as int, reserve as int), n as int),
        r.1 == (r.0 < n && r.0 < height),
        r.0 <= height,
{
    let cap = if height >= reserve { height - reserve } else { 0 };
    let rows = if (cap as usize) < n { cap } else { n as u16 };
    (rows, (rows as usize) < n && rows < height)
}

/// `… +{n} more`.
pub open spec fn more_text(n: nat) -> Seq<char> {
    seq!['…', ' ', '+'] + dec_digits(n) + " more"@
}

pub fn more_line(n: usize) -> (r: String)
    ensures
        r@ == more_text(n as nat),
{
    let mut out = String::new();
    push_char(&mut out, '…');
    push_char(&mut out, ' ');
    push_char(&mut out, '+');
    push_decimal(&mut out, n as u128);
    let ghost head = out@;
    push_str(&mut out, " more");
    assert(out@ =~= more_text(n as nat));
    out
}

/// `s` padded with spaces to `w` chars (`format!("{s:<w$}")`).
pub open spec fn pad_right(s: Seq<char>, w: nat) -> Seq<char> {
    s + Seq::new(if w > s.len() { (w - s.len()) as nat } else { 0 }, |_i: int| ' ')
}

pub(crate) fn push_padded_right(out: &mut String, s: &str, w: usize)
    ensures
        final(out)@ == old(out)@ + pad_right(s@, w as nat),
{
    push_str(out, s);
    let n = s.unicode_len();
    let ghost base = out@;
    let mut k = n;
    while k < w
        invariant
            n == s@.len(),
            n <= k,
            k <= w || k == n,
            out@ == base + Seq::new((k - n) as nat, |_i: int| ' '),
        decreases w - k,
    {
        push_char(out, ' ');
        k = k + 1;
        assert(out@ =~= base + Seq::new((k - n) as nat, |_i: int| ' '));
    }
    assert(old(out)@ + pad_right(s@, w as nat) =~= base + Seq::new(
        (if w > n { w - n } else { 0 }) as nat,
        |_i: int| ' ',
    ));
}

/// How the rate texts of an interface row are laid out.
pub enum IfaceText {
    /// `RX r  TX t  tot a / b`: `rx_x`, `tx_at` (the `TX` label) and
    /// `tot_x`, with the totals text.
    Full { rx_x: u16, tx_at: u16, tot_x: u16, tot: String },
    /// `RX r  TX t`.
    Body { rx_x: u16, tx_at: u16 },
    /// Too narrow: `name  RX r  TX t` cut to the row width, from the row
    /// start.
    Fallback { line: String },
}

/// One interface row: the name cell, the share bar's cell when the row is
/// wide enough, and the rate texts.
pub struct IfaceRow {
    /// The name cut to `NAME_WIDTH` and padded to it.
    pub name_cell: String,
    pub bar_x: Option<u16>,
    pub text: IfaceText,
}

/// `tot {received} / {transmitted}` in compact bytes.
pub open spec fn totals_text(received: nat, transmitted: nat) -> Seq<char> {
    "tot "@ + bytes_short_text(received) + " / "@ + bytes_short_text(transmitted)
}

/// `RX {rx}  TX {tx}`.
pub open spec fn body_text(rx: Seq<char>, tx: Seq<char>) -> Seq<char> {
    "RX "@ + rx + "  TX "@ + tx
}

/// The row of an interface named `name` in an area from `x`, `width` wide;
/// `rx`/`tx` are its rate texts, `received`/`transmitted` its byte totals.
pub fn iface_row(
    x: u16,
    width: u16,
    name: &str,
    rx: &str,
    tx: &str,
    received: u64,
    transmitted: u64,
) -> (r: IfaceRow)
    requires
        x + width <= u16::MAX,
        x + NAME_WIDTH + 1 + BAR_WIDTH + 1 + 3 + byte_width(rx@) + 2 + 3 + byte_width(tx@) + 2 <= u16::MAX,
    ensures
        ({
            let short = truncated(name@, NAME_WIDTH as nat);
            let x_cursor = x + NAME_WIDTH + 1 + if width >= BAR_MIN_WIDTH { BAR_WIDTH + 1 } else { 0int };
            let body = body_text(rx@, tx@);
            let tail_len = if width >= TOT_MIN_WIDTH {
                2 + byte_width(totals_text(received as nat, transmitted as nat))
            } else {
                0
            };
            let room = sat_sub(x + width, x_cursor);
            let rx_x = x_cursor + 3;
            let tx_at = x_cursor + 3 + byte_width(rx@) + 2;
            &&& r.name_cell@ == pad_right(short, NAME_WIDTH as nat)
            &&& r.bar_x == (if width >= BAR_MIN_WIDTH { Some((x + NAME_WIDTH + 1) as u16) } else { None })
            &&& if tail_len > 0 && byte_width(body) + tail_len <= room {
                r.text matches IfaceText::Full { rx_x: a, tx_at: b, tot_x: c, tot }
                    && a == rx_x && b == tx_at && c == tx_at + 3 + byte_width(tx@) + 2
                    && tot@ == totals_text(received as nat, transmitted as nat)
            } else if byte_width(body) <= room {
                r.text matches IfaceText::Body { rx_x: a, tx_at: b } && a == rx_x && b == tx_at
            } else {
                r.text matches IfaceText::Fallback { line } && line@ == truncated(
                    short + "  "@ + body,
                    width as nat,
                )
            }
        }),
{
    let short = truncate_chars(name, NAME_WIDTH);
    let mut name_cell = String::new();
    push_padded_right(&mut name_cell, short.as_str(), NAME_WIDTH);
    assert(name_cell@ =~= pad_right(short@, NAME_WIDTH as nat));
    let mut x_cursor = x + NAME_WIDTH as u16 + 1;
    let bar_x = if width >= BAR_MIN_WIDTH {
        let bx = x_cursor;
        x_cursor = x_cursor + BAR_WIDTH + 1;
        Some(bx)
    } else {
        None
    };
    let mut body = String::new();
    push_str(&mut body, "RX ");
    push_str(&mut body, rx);
    push_str(&mut body, "  TX ");
    push_str(&mut body, tx);
    assert(body@ =~= body_text(rx@, tx@));
    let mut tot = String::new();
    if width >= TOT_MIN_WIDTH {
        push_str(&mut tot, "tot ");
        let a = format_bytes_short(received);
        push_str(&mut tot, a.as_str());
        push_str(&mut tot, " / ");
        let b = format_bytes_short(transmitted);
        push_str(&mut tot, b.as_str());
        assert(tot@ =~= totals_text(received as nat, transmitted as nat));
    }
    let tail_len: u128 = if width >= TOT_MIN_WIDTH { 2 + tot.as_str().len() as u128 } else { 0 };
    let end = x + width;
    let room: u128 = if end >= x_cursor { (end - x_cursor) as u128 } else { 0 };
    let body_len = body.as_str().len() as u128;
    let rx_x = x_cursor + 3;
    let tx_at = x_cursor + 3 + rx.len() as u16 + 2;
    if tail_len > 0 && body_len <= room && tail_len <= room - body_len {
        let tot_x = tx_at + 3 + tx.len() as u16 + 2;
        IfaceRow { name_cell, bar_x, text: IfaceText::Full { rx_x, tx_at, tot_x, tot } }
    } else if body_len <= room {
        IfaceRow { name_cell, bar_x, text: IfaceText::Body { rx_x, tx_at } }
    } else {
        let mut line = String::new();
        push_str(&mut line, short.as_str());
        push_str(&mut line, "  ");
        push_str(&mut line, body.as_str());
        let cut = truncate_chars(line.as_str(), width as usize);
        assert(line@ =~= short@ + "  "@ + body@);
        IfaceRow { name_cell, bar_x, text: IfaceText::Fallback { line: cut } }
    }
}

/// The sum of `v`.
pub open spec fn total(v: Seq<u64>) -> nat
    decreases v.len(),
{
    if v.len() == 0 { 0 } else { total(v.drop_last()) + v.last() as nat }
}

/// The total of the selected interfaces' byte counters.
pub fn sum_bytes(v: &Vec<u64>) -> (r: u64)
    requires
        total(v@) <= u64::MAX,
    ensures
        r == total(v@),
{
    let mut acc: u64 = 0;
    let mut i: usize = 0;
    while i < v.len()
        invariant
            i <= v.len(),
            acc == total(v@.take(i as int)),
            total(v@) <= u64::MAX,
        decreases v.len() - i,
    {
        assert(v@.take(i + 1).drop_last() =~= v@.take(i as int));
        proof {
            lemma_total_prefix(v@, i + 1);
        }
        acc = acc + v[i];
        i = i + 1;
    }
    assert(v@.take(v.len() as int) =~= v@);
    acc
}

proof fn lemma_total_prefix(v: Seq<u64>, k: int)
    requires
        0 <= k <= v.len(),
    ensures
        total(v.take(k)) <= total(v),
    decreases v.len() - k,
{
    if k < v.len() {
        lemma_total_prefix(v, k + 1);
        assert(v.take(k + 1).drop_last() =~= v.take(k));
    } else {
        assert(v.take(k) =~= v);
    }
}

/// An aggregate line's text: `{rate}  tot {bytes}`.
pub open spec fn aggregate_text(rate: Seq<char>, bytes: nat) -> Seq<char> {
    rate + "  tot "@ + bytes_short_text(bytes)
}

pub fn aggregate_line(rate: &str, bytes: u64) -> (r: String)
    ensures
        r@ == aggregate_text(rate@, bytes as nat),
{
    let mut out = String::new();
    push_str(&mut out, rate);
    push_str(&mut out, "  tot ");
    let b = format_bytes_short(bytes);
    push_str(&mut out, b.as_str());
    assert(out@ =~= aggregate_text(rate@, bytes as nat));
    out
}

} // verus!
