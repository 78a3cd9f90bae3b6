//! Summary widget content: the process-state buckets, the process-count and
//! uptime rows, the cells of a gauge row and what the rows below the five
//! content rows show.

use vstd::prelude::*;
use crate::core_spec::{chars_of, first_pos, trim_bounds, trimmed};
use crate::cpu::{min, sat_sub};
use crate::format::{dec_digits, push_decimal, uptime_text, format_uptime};
use crate::options::{names_view, str_eq};
use crate::text::{byte_width, push_char, push_str, truncate_chars, truncated};

verus! {

broadcast use vstd::string::group_string_axioms;

/// The load chart below the content rows needs at least this inner width.
pub const CHART_MIN_WIDTH: u16 = 12;
/// Percent cell width (right-aligned `100%`).
pub const PCT_WIDTH: u16 = 4;
/// The inline sparkline needs this many spare columns on the load row.
pub const SPARK_MIN_SPARE: u16 = 8;
/// Content rows: Load, CPU, Mem, Procs, Uptime.
pub const CONTENT_ROWS: u16 = 5;

/// The canonical process states.
#[derive(PartialEq, Eq, Structural, Clone, Copy, Debug)]
pub enum StateBucket {
    Run,
    Sleep,
    Zombie,
    Idle,
    Stop,
    Other,
}

pub open spec fn bucket_label(b: StateBucket) -> Seq<char> {
    match b {
        StateBucket::Run => "Run"@,
        StateBucket::Sleep => "Sleep"@,
        StateBucket::Zombie => "Zombie"@,
        StateBucket::Idle => "Idle"@,
        StateBucket::Stop => "Stop"@,
        StateBucket::Other => "Other"@,
    }
}

impl StateBucket {
    /// The row label of the bucket.
    pub fn label(self) -> (r: &'static str)
        ensures
            r@ == bucket_label(self),
    {
        match self {
            StateBucket::Run => "Run",
            StateBucket::Sleep => "Sleep",
            StateBucket::Zombie => "Zombie",
            StateBucket::Idle => "Idle",
            StateBucket::Stop => "Stop",
            StateBucket::Other => "Other",
        }
    }
}

/// The buckets in row order.
pub open spec fn bucket_order() -> Seq<StateBucket> {
    seq![
        StateBucket::Run,
        StateBucket::Sleep,
        StateBucket::Zombie,
        StateBucket::Idle,
        StateBucket::Stop,
        StateBucket::Other,
    ]
}

/// `char::to_ascii_lowercase`.
pub open spec fn ascii_lower(c: char) -> char {
    if 'A' <= c && c <= 'Z' {
        ((c as u32) + 32) as char
    } else {
        c
    }
}

pub open spec fn lowered(s: Seq<char>) -> Seq<char> {
    s.map_values(|c: char| ascii_lower(c))
}

/// `needle` occurs in `hay` at index `i`.
pub open spec fn occurs_at(hay: Seq<char>, needle: Seq<char>, i: int) -> bool {
    0 <= i && i + needle.len() <= hay.len() && hay.subrange(i, i + needle.len()) == needle
}

/// `str::contains`.
pub open spec fn contains_text(hay: Seq<char>, needle: Seq<char>) -> bool {
    exists|i: int| occurs_at(hay, needle, i)
}

/// The bucket of one process state string: trimmed and lower-cased, then
/// the first matching substring rule (`run`; `sleep`/`slp`; `zomb`; `idle`;
/// `stop`/`trac`), everything else `Other`; `None` for an empty state.
pub open spec fn state_bucket(state: Seq<char>) -> Option<StateBucket> {
    let s = lowered(trimmed(state));
    if s.len() == 0 {
        None
    } else if contains_text(s, seq!['r', 'u', 'n']) {
        Some(StateBucket::Run)
    } else if contains_text(s, seq!['s', 'l', 'e', 'e', 'p']) || contains_text(s, seq!['s', 'l', 'p']) {
        Some(StateBucket::Sleep)
    } else if contains_text(s, seq!['z', 'o', 'm', 'b']) {
        Some(StateBucket::Zombie)
    } else if contains_text(s, seq!['i', 'd', 'l', 'e']) {
        Some(StateBucket::Idle)
    } else if contains_text(s, seq!['s', 't', 'o', 'p']) || contains_text(s, seq!['t', 'r', 'a', 'c']) {
        Some(StateBucket::Stop)
    } else {
        Some(StateBucket::Other)
    }
}

/// How many of `states` fall into bucket `b`.
pub open spec fn bucket_count(states: Seq<Seq<char>>, b: StateBucket) -> nat
    decreases states.len(),
{
    if states.len() == 0 {
        0
    } else {
        bucket_count(states.drop_last(), b) + if state_bucket(states.last()) == Some(b) {
            1nat
        } else {
            0
        }
    }
}

/// Some state string is usable (not empty after trimming).
pub open spec fn any_usable(states: Seq<Seq<char>>) -> bool {
    exists|i: int| 0 <= i < states.len() && (#[trigger] state_bucket(states[i])) is Some
}

/// How many of `states` are usable (land in some bucket).
pub open spec fn usable_count(states: Seq<Seq<char>>) -> nat
    decreases states.len(),
{
    if states.len() == 0 {
        0
    } else {
        usable_count(states.drop_last()) + if state_bucket(states.last()) is Some { 1nat } else { 0 }
    }
}

/// The six bucket counts added up.
pub open spec fn buckets_total(states: Seq<Seq<char>>) -> nat {
    bucket_count(states, StateBucket::Run) + bucket_count(states, StateBucket::Sleep) + bucket_count(
        states,
        StateBucket::Zombie,
    ) + bucket_count(states, StateBucket::Idle) + bucket_count(states, StateBucket::Stop) + bucket_count(
        states,
        StateBucket::Other,
    )
}

/// The per-state counts never fabricate a process: every usable state is
/// counted in exactly one bucket, so the counts add up to the usable
/// states, never more than the processes listed.
pub proof fn bucket_counts_add_up(states: Seq<Seq<char>>)
    ensures
        buckets_total(states) == usable_count(states),
        usable_count(states) <= states.len(),
    decreases states.len(),
{
    if states.len() > 0 {
        bucket_counts_add_up(states.drop_last());
    }
}

fn ascii_lower_char(c: char) -> (r: char)
    ensures
        r == ascii_lower(c),
{
    if 'A' <= c && c <= 'Z' {
        ((c as u8) + 32) as char
    } else {
        c
    }
}

/// `needle` occurs somewhere in `hay`.
fn contains_chars(hay: &Vec<char>, needle: &Vec<char>) -> (r: bool)
    ensures
        r == contains_text(hay@, needle@),
{
    if needle.len() > hay.len() {
        assert forall|i: int| !occurs_at(hay@, needle@, i) by {}
        return false;
    }
    let last = hay.len() - needle.len();
    let mut i: usize = 0;
    while i <= last
        invariant
            last == hay.len() - needle.len(),
            needle.len() <= hay.len(),
            forall|k: int| 0 <= k < i ==> !occurs_at(hay@, needle@, k),
        decreases last + 1 - i,
    {
        let mut j: usize = 0;
        let mut same = true;
        while j < needle.len()
            invariant
                i <= last,
                last == hay.len() - needle.len(),
                j <= needle.len(),
                same == (forall|k: int| 0 <= k < j ==> hay@[i + k] == needle@[k]),
            decreases needle.len() - j,
        {
            if hay[i + j] != needle[j] {
                same = false;
            }
            j = j + 1;
        }
        if same {
            assert(hay@.subrange(i as int, i + needle.len()) =~= needle@);
            assert(occurs_at(hay@, needle@, i as int));
            return true;
        }
        assert(!occurs_at(hay@, needle@, i as int)) by {
            if occurs_at(hay@, needle@, i as int) {
                let k = choose|k: int| 0 <= k < needle.len() && hay@[i + k] != needle@[k];
                assert(hay@.subrange(i as int, i + needle.len())[k] == hay@[i + k]);
            }
        }
        i = i + 1;
    }
    assert forall|k: int| !occurs_at(hay@, needle@, k) by {
        if 0 <= k && k + needle.len() <= hay.len() {
            assert(k < i);
        }
    }
    false
}

/// The bucket of one process state (see [`state_bucket`]).
pub fn classify_state(state: &str) -> (r: Option<StateBucket>)
    ensures
        r == state_bucket(state@),
{
    let chars = chars_of(state);
    let (lo, hi) = trim_bounds(&chars, 0, chars.len());
    assert(chars@.subrange(0, chars@.len() as int) =~= state@);
    let ghost t = trimmed(state@);
    let mut s: Vec<char> = Vec::new();
    let mut k = lo;
    while k < hi
        invariant
            lo <= k <= hi <= chars.len(),
            t == chars@.subrange(lo as int, hi as int),
            s@ == lowered(chars@.subrange(lo as int, k as int)),
        decreases hi - k,
    {
        s.push(ascii_lower_char(chars[k]));
        assert(lowered(chars@.subrange(lo as int, k + 1)) =~= lowered(chars@.subrange(lo as int, k as int)).push(
            ascii_lower(chars@[k as int]),
        ));
        k = k + 1;
    }
    assert(s@ == lowered(t));
    if s.len() == 0 {
        return None;
    }
    if contains_chars(&s, &vec!['r', 'u', 'n']) {
        Some(StateBucket::Run)
    } else if contains_chars(&s, &vec!['s', 'l', 'e', 'e', 'p']) || contains_chars(&s, &vec!['s', 'l', 'p']) {
        Some(StateBucket::Sleep)
    } else if contains_chars(&s, &vec!['z', 'o', 'm', 'b']) {
        Some(StateBucket::Zombie)
    } else if contains_chars(&s, &vec!['i', 'd', 'l', 'e']) {
        Some(StateBucket::Idle)
    } else if contains_chars(&s, &vec!['s', 't', 'o', 'p']) || contains_chars(&s, &vec!['t', 'r', 'a', 'c']) {
        Some(StateBucket::Stop)
    } else {
        Some(StateBucket::Other)
    }
}

fn bucket_index(b: StateBucket) -> (r: usize)
    ensures
        r < 6,
        bucket_order()[r as int] == b,
{
    match b {
        StateBucket::Run => 0,
        StateBucket::Sleep => 1,
        StateBucket::Zombie => 2,
        StateBucket::Idle => 3,
        StateBucket::Stop => 4,
        StateBucket::Other => 5,
    }
}

/// Canonical per-state counts over the processes' `states`: the six
/// buckets in row order with their counts, or nothing at all when no state
/// string is usable (nothing is fabricated).
pub fn state_buckets(states: &Vec<String>) -> (r: Vec<(StateBucket, usize)>)
    ensures
        !any_usable(names_view(states@)) ==> r@.len() == 0,
        any_usable(names_view(states@)) ==> r@.len() == 6 && forall|k: int|
            0 <= k < 6 ==> #[trigger] r@[k] == (bucket_order()[k], bucket_count(
                names_view(states@),
                bucket_order()[k],
            ) as usize),
{
    let ghost names = names_view(states@);
    let mut counts: Vec<usize> = Vec::new();
    counts.push(0);
    counts.push(0);
    counts.push(0);
    counts.push(0);
    counts.push(0);
    counts.push(0);
    let mut usable = false;
    let mut i: usize = 0;
    while i < states.len()
        invariant
            i <= states.len(),
            names == names_view(states@),
            counts@.len() == 6,
            forall|k: int| 0 <= k < 6 ==> #[trigger] counts@[k] == bucket_count(names.take(i as int), bucket_order()[k]),
            forall|k: int| 0 <= k < 6 ==> #[trigger] counts@[k] <= i,
            usable == any_usable(names.take(i as int)),
        decreases states.len() - i,
    {
        assert(names.take(i + 1).drop_last() =~= names.take(i as int));
        assert(names.take(i + 1).last() == states@[i as int]@);
        let b = classify_state(states[i].as_str());
        match b {
            Some(bk) => {
                let idx = bucket_index(bk);
                let v = counts[idx];
                counts.set(idx, v + 1);
                usable = true;
                assert(state_bucket(names.take(i + 1)[i as int]) is Some);
            },
            None => {
                assert forall|j: int| 0 <= j < i + 1 && (#[trigger] state_bucket(names.take(i + 1)[j])) is Some implies j < i by {}
                assert forall|j: int| 0 <= j < i && (#[trigger] state_bucket(names.take(i as int)[j])) is Some implies state_bucket(names.take(i + 1)[j]) is Some by {
                    assert(names.take(i as int)[j] == names.take(i + 1)[j]);
                }
            },
        }
        assert(usable == any_usable(names.take(i + 1))) by {
            if usable && i > 0 && any_usable(names.take(i as int)) {
                let j = choose|j: int| 0 <= j < i && (#[trigger] state_bucket(names.take(i as int)[j])) is Some;
                assert(names.take(i as int)[j] == names.take(i + 1)[j]);
            }
        }
        i = i + 1;
    }
    assert(names.take(states.len() as int) =~= names);
    let mut out: Vec<(StateBucket, usize)> = Vec::new();
    if !usable {
        return out;
    }
    out.push((StateBucket::Run, counts[0]));
    out.push((StateBucket::Sleep, counts[1]));
    out.push((StateBucket::Zombie, counts[2]));
    out.push((StateBucket::Idle, counts[3]));
    out.push((StateBucket::Stop, counts[4]));
    out.push((StateBucket::Other, counts[5]));
    out
}

/// What a piece of the process-count row shows.
#[derive(PartialEq, Eq, Structural, Clone, Copy, Debug)]
pub enum ProcsPart {
    /// `Procs n` (bold fg).
    Total,
    /// ` Run ` (dim).
    Label(StateBucket),
    /// The bucket's count (its role color).
    Count(StateBucket),
}

/// The label and count pieces of the nonzero buckets.
pub open spec fn bucket_segments(buckets: Seq<(StateBucket, usize)>) -> Seq<(Seq<char>, ProcsPart)>
    decreases buckets.len(),
{
    if buckets.len() == 0 {
        seq![]
    } else {
        let prev = bucket_segments(buckets.drop_last());
        let b = buckets.last().0;
        let n = buckets.last().1;
        if n == 0 {
            prev
        } else {
            prev + seq![
                (" "@ + bucket_label(b) + " "@, ProcsPart::Label(b)),
                (dec_digits(n as nat), ProcsPart::Count(b)),
            ]
        }
    }
}

/// `Procs {total}`, then ` {label} ` and the count of each nonzero bucket.
pub open spec fn procs_texts(total: nat, buckets: Seq<(StateBucket, usize)>) -> Seq<(Seq<char>, ProcsPart)> {
    seq![("Procs "@ + dec_digits(total), ProcsPart::Total)] + bucket_segments(buckets)
}

pub open spec fn part_views(v: Seq<(String, ProcsPart)>) -> Seq<(Seq<char>, ProcsPart)> {
    v.map_values(|p: (String, ProcsPart)| (p.0@, p.1))
}

/// The pieces of the process-count row in order.
pub fn procs_segments(total: usize, buckets: &Vec<(StateBucket, usize)>) -> (r: Vec<(String, ProcsPart)>)
    ensures
        part_views(r@) == procs_texts(total as nat, buckets@),
{
    let mut out: Vec<(String, ProcsPart)> = Vec::new();
    let mut head = String::new();
    push_str(&mut head, "Procs ");
    push_decimal(&mut head, total as u128);
    out.push((head, ProcsPart::Total));
    assert(part_views(out@) =~= procs_texts(total as nat, buckets@.take(0)));
    let mut i: usize = 0;
    while i < buckets.len()
        invariant
            i <= buckets.len(),
            part_views(out@) == seq![("Procs "@ + dec_digits(total as nat), ProcsPart::Total)]
                + bucket_segments(buckets@.take(i as int)),
        decreases buckets.len() - i,
    {
        assert(buckets@.take(i + 1).drop_last() =~= buckets@.take(i as int));
        let (b, n) = buckets[i];
        if n > 0 {
            let mut label = String::new();
            push_str(&mut label, " ");
            push_str(&mut label, b.label());
            push_str(&mut label, " ");
            let mut count = String::new();
            push_decimal(&mut count, n as u128);
            let ghost before = part_views(out@);
            out.push((label, ProcsPart::Label(b)));
            out.push((count, ProcsPart::Count(b)));
            assert(part_views(out@) =~= before + seq![
                (" "@ + bucket_label(b) + " "@, ProcsPart::Label(b)),
                (dec_digits(n as nat), ProcsPart::Count(b)),
            ]);
        }
        i = i + 1;
    }
    assert(buckets@.take(buckets.len() as int) =~= buckets@);
    out
}

/// The pieces of a single-line row written left to right from `x` up to
/// `end`: each is cut to the room left and the next starts after the bytes
/// written; pieces that find no room are dropped.
pub open spec fn clip_from(x: int, end: int, texts: Seq<Seq<char>>) -> Seq<(int, Seq<char>)>
    decreases texts.len(),
{
    if texts.len() == 0 || x >= end {
        seq![]
    } else {
        let t = truncated(texts[0], (end - x) as nat);
        seq![(x, t)] + clip_from(x + byte_width(t), end, texts.drop_first())
    }
}

pub open spec fn placed_views(v: Seq<(u16, String)>) -> Seq<(int, Seq<char>)> {
    v.map_values(|p: (u16, String)| (p.0 as int, p.1@))
}

/// Write `texts` into one row from `x0` to `end` (see [`clip_from`]).
pub fn clip_run(x0: u16, end: u16, texts: &Vec<String>) -> (r: Vec<(u16, String)>)
    ensures
        placed_views(r@) == clip_from(x0 as int, end as int, names_view(texts@)),
        forall|k: int| 0 <= k < r@.len() ==> x0 <= #[trigger] r@[k].0 < end,
{
    let ghost all = names_view(texts@);
    let mut out: Vec<(u16, String)> = Vec::new();
    let mut x: usize = x0 as usize;
    let mut i: usize = 0;
    assert(all.skip(0) =~= all);
    assert(placed_views(out@) + clip_from(x as int, end as int, all) =~= clip_from(x as int, end as int, all));
    while i < texts.len()
        invariant
            i <= texts.len(),
            all == names_view(texts@),
            x0 <= x,
            clip_from(x0 as int, end as int, all) == placed_views(out@) + clip_from(
                x as int,
                end as int,
                all.skip(i as int),
            ),
            forall|k: int| 0 <= k < out@.len() ==> x0 <= #[trigger] out@[k].0 < end,
        decreases texts.len() - i,
    {
        if x >= end as usize {
            assert(clip_from(x as int, end as int, all.skip(i as int)) =~= seq![]);
            assert(placed_views(out@) + seq![] =~= placed_views(out@));
            return out;
        }
        let room = end as usize - x;
        let t = truncate_chars(texts[i].as_str(), room);
        let w = t.as_str().len();
        let ghost rest = all.skip(i as int);
        assert(rest[0] == texts@[i as int]@);
        assert(rest.drop_first() =~= all.skip(i + 1));
        let ghost before = placed_views(out@);
        out.push((x as u16, t));
        assert(placed_views(out@) =~= before + seq![(x as int, truncated(rest[0], room as nat))]);
        let ghost next = x + w;
        assert(clip_from(x as int, end as int, rest) =~= seq![(x as int, truncated(rest[0], room as nat))]
            + clip_from(next, end as int, all.skip(i + 1)));
        if w > usize::MAX - x {
            assert(clip_from(next, end as int, all.skip(i + 1)) =~= seq![]);
            x = usize::MAX;
            assert(clip_from(x as int, end as int, all.skip(i + 1)) =~= seq![]);
        } else {
            x = x + w;
        }
        i = i + 1;
    }
    assert(all.skip(texts.len() as int) =~= seq![]);
    assert(placed_views(out@) + seq![] =~= placed_views(out@));
    out
}

/// The uptime row text: `Uptime {uptime}` cut to the row width.
pub open spec fn uptime_row_text(secs: nat, width: nat) -> Seq<char> {
    truncated("Uptime "@ + uptime_text(secs), width)
}

/// A row text split at its first space into the `Uptime` label and the
/// value; a text whose first word is not the label is all value.
pub open spec fn split_label(t: Seq<char>) -> (Seq<char>, Seq<char>) {
    let k = first_pos(t, ' ', 0);
    if k >= 0 && t.take(k) == "Uptime"@ {
        (t.take(k), t.skip(k + 1))
    } else {
        (seq![], t)
    }
}

proof fn lemma_first_pos_skip(s: Seq<char>, c: char, from: int, k: int)
    requires
        0 <= from <= k <= s.len(),
        forall|j: int| from <= j < k ==> s[j] != c,
    ensures
        first_pos(s, c, from) == first_pos(s, c, k),
    decreases k - from,
{
    if from < k {
        lemma_first_pos_skip(s, c, from + 1, k);
    }
}

/// The chars `v[lo..hi]` as a string.
pub(crate) fn string_of(v: &Vec<char>, lo: usize, hi: usize) -> (r: String)
    requires
        lo <= hi <= v.len(),
    ensures
        r@ == v@.subrange(lo as int, hi as int),
{
    let mut out = String::new();
    let mut k = lo;
    while k < hi
        invariant
            lo <= k <= hi <= v.len(),
            out@ == v@.subrange(lo as int, k as int),
        decreases hi - k,
    {
        push_char(&mut out, v[k]);
        assert(v@.subrange(lo as int, k + 1) =~= v@.subrange(lo as int, k as int).push(v@[k as int]));
        k = k + 1;
    }
    out
}

/// The uptime row of a `width`-column area: the dim label and the value.
pub fn uptime_parts(secs: u64, width: u16) -> (r: (String, String))
    ensures
        (r.0@, r.1@) == split_label(uptime_row_text(secs as nat, width as nat)),
{
    let mut full = String::new();
    push_str(&mut full, "Uptime ");
    let up = format_uptime(secs);
    push_str(&mut full, up.as_str());
    let text = truncate_chars(full.as_str(), width as usize);
    let ghost t = uptime_row_text(secs as nat, width as nat);
    assert(text@ == t);
    let chars = chars_of(text.as_str());
    let mut k: usize = 0;
    while k < chars.len() && chars[k] != ' '
        invariant
            k <= chars.len(),
            chars@ == t,
            forall|j: int| 0 <= j < k ==> chars@[j] != ' ',
        decreases chars.len() - k,
    {
        k = k + 1;
    }
    proof {
        lemma_first_pos_skip(t, ' ', 0, k as int);
    }
    if k < chars.len() {
        let label = string_of(&chars, 0, k);
        assert(label@ =~= t.take(k as int));
        if str_eq(label.as_str(), "Uptime") {
            let value = string_of(&chars, k + 1, chars.len());
            assert(value@ =~= t.skip(k + 1));
            return (label, value);
        }
    }
    (String::new(), text)
}

/// Which right-aligned text a gauge row carries.
#[derive(PartialEq, Eq, Structural, Clone, Copy, Debug)]
pub enum GaugeSide {
    /// The dim detail (`used/total`).
    Detail,
    /// The fg tail (core count).
    Tail,
}

/// The cells of a gauge row.
#[derive(PartialEq, Eq, Structural, Clone, Copy, Debug)]
pub struct GaugeCells {
    /// Where the right-aligned percent text starts.
    pub x_pct: u16,
    pub bar_x: u16,
    pub bar_w: u16,
    pub side: Option<GaugeSide>,
    /// Where the side text starts (meaningful with a side text).
    pub side_x: u16,
}

/// A side text fits when it is not empty and the bar keeps six cells and a
/// gap before it.
pub open spec fn side_fits(bar_x: int, end: int, text: Option<Seq<char>>) -> bool {
    match text {
        Some(t) => byte_width(t) > 0 && bar_x + 6 + 1 + byte_width(t) <= end,
        None => false,
    }
}

/// Lay out a gauge row of an area from `inner_x`, `inner_w` wide: bold
/// `label`, the percent text right-aligned in its cell, the bar to the row
/// end, or up to the right-aligned `detail` (else `tail`) when the bar
/// keeps at least six cells.
pub fn gauge_cells(
    inner_x: u16,
    inner_w: u16,
    label: &str,
    pct_text: &str,
    detail: Option<&str>,
    tail: Option<&str>,
) -> (g: GaugeCells)
    requires
        inner_x + inner_w <= u16::MAX,
        inner_x + byte_width(label@) + 1 + PCT_WIDTH + 1 <= u16::MAX,
    ensures
        ({
            let end = inner_x + inner_w;
            let lw = byte_width(label@) as int;
            let d = crate::options::str_view(detail);
            let t = crate::options::str_view(tail);
            &&& g.x_pct == inner_x + lw + 1 + sat_sub(PCT_WIDTH as int, byte_width(pct_text@) as int)
            &&& g.bar_x == inner_x + lw + 1 + PCT_WIDTH + 1
            &&& g.side == (if side_fits(g.bar_x as int, end, d) {
                Some(GaugeSide::Detail)
            } else if side_fits(g.bar_x as int, end, t) {
                Some(GaugeSide::Tail)
            } else {
                None
            })
            &&& match g.side {
                Some(GaugeSide::Detail) => g.side_x == end - byte_width(d->0)
                    && g.bar_w == end - (byte_width(d->0) + 1) - g.bar_x,
                Some(GaugeSide::Tail) => g.side_x == end - byte_width(t->0)
                    && g.bar_w == end - (byte_width(t->0) + 1) - g.bar_x,
                None => g.bar_w == sat_sub(end, g.bar_x as int),
            }
            &&& g.side is Some ==> g.bar_w >= 6 && g.bar_x + g.bar_w < g.side_x
        }),
{
    let end = inner_x + inner_w;
    let lw = label.len() as u16;
    let pl = pct_text.len();
    let x_pct = inner_x + lw + 1 + if pl < PCT_WIDTH as usize { PCT_WIDTH - pl as u16 } else { 0 };
    let bar_x = inner_x + lw + 1 + PCT_WIDTH + 1;
    let dw: usize = match detail { Some(d) => d.len(), None => 0 };
    let tw: usize = match tail { Some(t) => t.len(), None => 0 };
    let room: usize = if end as usize >= bar_x as usize + 7 { end as usize - (bar_x as usize + 7) } else { 0 };
    let fits = end as usize >= bar_x as usize + 7;
    let show_detail = detail.is_some() && dw > 0 && fits && dw <= room;
    let show_tail = !show_detail && tail.is_some() && tw > 0 && fits && tw <= room;
    if show_detail {
        let w = dw as u16;
        GaugeCells { x_pct, bar_x, bar_w: end - (w + 1) - bar_x, side: Some(GaugeSide::Detail), side_x: end - w }
    } else if show_tail {
        let w = tw as u16;
        GaugeCells { x_pct, bar_x, bar_w: end - (w + 1) - bar_x, side: Some(GaugeSide::Tail), side_x: end - w }
    } else {
        GaugeCells { x_pct, bar_x, bar_w: if end >= bar_x { end - bar_x } else { 0 }, side: None, side_x: end }
    }
}

/// What the rows below the five content rows show.
#[derive(PartialEq, Eq, Structural, Clone, Copy, Debug)]
pub enum SummaryTail {
    Nothing,
    /// The load-average history chart in the `rows` below the content.
    Chart { rows: u16 },
    /// The mini sparkline trailing the load row.
    Spark { x: u16, width: u16 },
}

/// The plan of a summary area from `inner_x`, `inner_w` x `inner_h`, with a
/// load history of `hist_len` samples.
#[derive(PartialEq, Eq, Structural, Clone, Copy, Debug)]
pub struct SummaryPlan {
    pub content_rows: u16,
    pub tail: SummaryTail,
}

pub fn summary_plan(inner_x: u16, inner_w: u16, inner_h: u16, hist_len: usize) -> (p: SummaryPlan)
    requires
        inner_x + inner_w <= u16::MAX,
    ensures
        p.content_rows == min(CONTENT_ROWS as int, inner_h as int),
        ({
            let leftover = inner_h - p.content_rows;
            let spare = sat_sub(inner_w as int, 19);
            let sw = min(spare, 24);
            p.tail == (if leftover == 0 {
                SummaryTail::Nothing
            } else if leftover >= 2 && hist_len >= 2 && inner_w >= CHART_MIN_WIDTH {
                SummaryTail::Chart { rows: leftover as u16 }
            } else if hist_len >= 2 && spare >= SPARK_MIN_SPARE {
                SummaryTail::Spark { x: (inner_x + inner_w - sw) as u16, width: sw as u16 }
            } else {
                SummaryTail::Nothing
            })
        }),
        p.tail matches SummaryTail::Spark { x, width } ==> inner_x <= x && x + width == inner_x + inner_w,
{
    let content_rows = if CONTENT_ROWS < inner_h { CONTENT_ROWS } else { inner_h };
    let leftover = inner_h - content_rows;
    let tail = if leftover == 0 {
        SummaryTail::Nothing
    } else if leftover >= 2 && hist_len >= 2 && inner_w >= CHART_MIN_WIDTH {
        SummaryTail::Chart { rows: leftover }
    } else if hist_len >= 2 {
        let used: u16 = 5 + 3 * 4 + 2;
        let spare = if inner_w >= used { inner_w - used } else { 0 };
        if spare >= SPARK_MIN_SPARE {
            let sw = if spare < 24 { spare } else { 24 };
            SummaryTail::Spark { x: inner_x + inner_w - sw, width: sw }
        } else {
            SummaryTail::Nothing
        }
    } else {
        SummaryTail::Nothing
    };
    SummaryPlan { content_rows, tail }
}

} // verus!
