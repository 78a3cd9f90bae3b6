//! The CPU-core subset spec of the cpu widgets: `"0,2,4-7"` — comma
//! separated ids and inclusive `a-b` ranges, parsed into ascending,
//! deduplicated ids.

use vstd::prelude::*;

verus! {

broadcast use vstd::string::group_string_axioms;

/// `char::is_whitespace`: the Unicode `White_Space` property.
pub open spec fn is_whitespace(c: char) -> bool {
    let cp = c as u32;
    ||| (0x09 <= cp && cp <= 0x0d)
    ||| cp == 0x20
    ||| cp == 0x85
    ||| cp == 0xa0
    ||| cp == 0x1680
    ||| (0x2000 <= cp && cp <= 0x200a)
    ||| cp == 0x2028
    ||| cp == 0x2029
    ||| cp == 0x202f
    ||| cp == 0x205f
    ||| cp == 0x3000
}

/// Leading whitespace removed.
pub open spec fn trim_start(s: Seq<char>) -> Seq<char>
    decreases s.len(),
{
    if s.len() > 0 && is_whitespace(s[0]) {
        trim_start(s.drop_first())
    } else {
        s
    }
}

/// Trailing whitespace removed.
pub open spec fn trim_end(s: Seq<char>) -> Seq<char>
    decreases s.len(),
{
    if s.len() > 0 && is_whitespace(s.last()) {
        trim_end(s.drop_last())
    } else {
        s
    }
}

/// `str::trim`.
pub open spec fn trimmed(s: Seq<char>) -> Seq<char> {
    trim_end(trim_start(s))
}

/// `str::split(c)`: the pieces between the separators (always at least one).
pub open spec fn split_on(s: Seq<char>, c: char) -> Seq<Seq<char>>
    decreases s.len(),
{
    if s.len() == 0 {
        seq![Seq::empty()]
    } else {
        let prev = split_on(s.drop_last(), c);
        if s.last() == c {
            prev.push(Seq::empty())
        } else {
            prev.update(prev.len() - 1, prev.last().push(s.last()))
        }
    }
}

/// Index of the first `c` at or after `from`, `-1` when there is none.
pub open spec fn first_pos(s: Seq<char>, c: char, from: int) -> int
    decreases s.len() - from,
{
    if from < 0 || from >= s.len() {
        -1
    } else if s[from] == c {
        from
    } else {
        first_pos(s, c, from + 1)
    }
}

pub open spec fn is_digit(c: char) -> bool {
    '0' <= c && c <= '9'
}

pub open spec fn digit_value(c: char) -> nat {
    (c as u32 - '0' as u32) as nat
}

pub open spec fn all_digits(s: Seq<char>) -> bool {
    forall|i: int| 0 <= i < s.len() ==> #[trigger] is_digit(s[i])
}

/// The value of a decimal digit string.
pub open spec fn digits_value(s: Seq<char>) -> nat
    decreases s.len(),
{
    if s.len() == 0 {
        0
    } else {
        digits_value(s.drop_last()) * 10 + digit_value(s.last())
    }
}

/// Unsigned integer parsing (`str::parse` of an unsigned type whose maximum
/// is `max`): an optional `+`, then one or more ASCII digits, with a value
/// at most `max`.
pub open spec fn parse_unsigned(s: Seq<char>, max: nat) -> Option<nat> {
    let body = if s.len() > 0 && s[0] == '+' { s.drop_first() } else { s };
    if body.len() > 0 && all_digits(body) && digits_value(body) <= max {
        Some(digits_value(body))
    } else {
        None
    }
}

/// `str::parse::<usize>`.
pub open spec fn parse_usize(s: Seq<char>) -> Option<usize> {
    match parse_unsigned(s, usize::MAX as nat) {
        Some(v) => Some(v as usize),
        None => None,
    }
}

/// `str::parse::<u32>`.
pub open spec fn parse_u32(s: Seq<char>) -> Option<u32> {
    match parse_unsigned(s, u32::MAX as nat) {
        Some(v) => Some(v as u32),
        None => None,
    }
}

/// One item of the spec (already split off at the commas): a plain id or an
/// inclusive `a-b` range with `a <= b`, as `(start, end)`.
pub open spec fn item_range(item: Seq<char>) -> Option<(usize, usize)> {
    let t = trimmed(item);
    let dash = first_pos(t, '-', 0);
    if t.len() == 0 {
        None
    } else if dash >= 0 {
        match (parse_usize(trimmed(t.take(dash))), parse_usize(trimmed(t.skip(dash + 1)))) {
            (Some(a), Some(b)) => if a <= b { Some((a, b)) } else { None },
            _ => None,
        }
    } else {
        match parse_usize(t) {
            Some(v) => Some((v, v)),
            None => None,
        }
    }
}

/// Every item of a comma list is well formed.
pub open spec fn items_valid(items: Seq<Seq<char>>) -> bool {
    forall|i: int| 0 <= i < items.len() ==> (#[trigger] item_range(items[i])) is Some
}

pub open spec fn range_ids(r: (usize, usize)) -> Set<usize> {
    Set::new(|x: usize| r.0 <= x && x <= r.1)
}

/// The ids the items name together.
pub open spec fn items_ids(items: Seq<Seq<char>>) -> Set<usize>
    decreases items.len(),
{
    if items.len() == 0 {
        Set::empty()
    } else {
        items_ids(items.drop_last()).union(range_ids(item_range(items.last()).unwrap()))
    }
}

pub open spec fn strictly_increasing(v: Seq<usize>) -> bool {
    forall|i: int, j: int| 0 <= i < j < v.len() ==> v[i] < v[j]
}

/// The meaning of a core spec: `None` when any item is malformed, else the
/// set of ids it names.
pub open spec fn core_spec_ids(spec: Seq<char>) -> Option<Set<usize>> {
    let items = split_on(spec, ',');
    if items_valid(items) {
        Some(items_ids(items))
    } else {
        None
    }
}

/// A parse result as a plain sequence.
pub open spec fn ids_view(res: Option<Vec<usize>>) -> Option<Seq<usize>> {
    match res {
        Some(ids) => Some(ids@),
        None => None,
    }
}

/// `res` is the result for `spec`: `None` exactly when an item is
/// malformed, else the ids the items name, ascending and without repeats.
pub open spec fn parses_to(spec: Seq<char>, res: Option<Seq<usize>>) -> bool {
    match res {
        Some(ids) => core_spec_ids(spec) == Some(ids.to_set()) && strictly_increasing(ids),
        None => core_spec_ids(spec) is None,
    }
}

// ---------------------------------------------------------------------------
// Proof helpers
// ---------------------------------------------------------------------------

proof fn lemma_split_nonempty(s: Seq<char>, c: char)
    ensures
        split_on(s, c).len() >= 1,
    decreases s.len(),
{
    if s.len() > 0 {
        lemma_split_nonempty(s.drop_last(), c);
    }
}

// ---------------------------------------------------------------------------
// Executable parsing
// ---------------------------------------------------------------------------

/// `char::is_whitespace`.
pub fn is_whitespace_char(c: char) -> (r: bool)
    ensures
        r == is_whitespace(c),
{
    let cp = c as u32;
    (0x09 <= cp && cp <= 0x0d) || cp == 0x20 || cp == 0x85 || cp == 0xa0 || cp == 0x1680 || (
    0x2000 <= cp && cp <= 0x200a) || cp == 0x2028 || cp == 0x2029 || cp == 0x202f || cp == 0x205f
        || cp == 0x3000
}

/// The chars of a `str` as a vector.
pub fn chars_of(text: &str) -> (v: Vec<char>)
    ensures
        v@ == text@,
{
    let mut v: Vec<char> = Vec::new();
    for ch in it: text.chars()
        invariant
            it.seq() == text@,
            v@ == text@.take(it.index() as int),
    {
        assert(text@.take(it.index() as int + 1) =~= text@.take(it.index() as int).push(ch));
        v.push(ch);
    }
    assert(text@.take(text@.len() as int) =~= text@);
    v
}

/// The bounds `[lo, hi)` of `s[lo..hi]` with surrounding whitespace removed.
pub(crate) fn trim_bounds(s: &Vec<char>, lo: usize, hi: usize) -> (r: (usize, usize))
    requires
        lo <= hi <= s.len(),
    ensures
        lo <= r.0 <= r.1 <= hi,
        s@.subrange(r.0 as int, r.1 as int) == trimmed(s@.subrange(lo as int, hi as int)),
{
    let ghost sub = s@.subrange(lo as int, hi as int);
    let mut a = lo;
    while a < hi && is_whitespace_char(s[a])
        invariant
            lo <= a <= hi <= s.len(),
            sub == s@.subrange(lo as int, hi as int),
            trim_start(sub) == trim_start(s@.subrange(a as int, hi as int)),
        decreases hi - a,
    {
        assert(s@.subrange(a as int, hi as int).drop_first() =~= s@.subrange(a + 1, hi as int));
        a = a + 1;
    }
    assert(trim_start(sub) == s@.subrange(a as int, hi as int));
    let mut b = hi;
    while b > a && is_whitespace_char(s[b - 1])
        invariant
            lo <= a <= b <= hi <= s.len(),
            trim_end(trim_start(sub)) == trim_end(s@.subrange(a as int, b as int)),
        decreases b - a,
    {
        assert(s@.subrange(a as int, b as int).drop_last() =~= s@.subrange(a as int, b - 1));
        b = b - 1;
    }
    (a, b)
}

/// `str::parse::<usize>` of `s[lo..hi]`.
fn parse_usize_at(s: &Vec<char>, lo: usize, hi: usize) -> (r: Option<usize>)
    requires
        lo <= hi <= s.len(),
    ensures
        r == parse_usize(s@.subrange(lo as int, hi as int)),
{
    match parse_unsigned_at(s, lo, hi, usize::MAX as u128) {
        Some(v) => Some(v as usize),
        None => None,
    }
}

/// `str::parse::<u32>` of a whole string.
pub fn parse_u32_text(text: &str) -> (r: Option<u32>)
    ensures
        r == parse_u32(text@),
{
    let s = chars_of(text);
    assert(s@.subrange(0, s@.len() as int) =~= s@);
    match parse_unsigned_at(&s, 0, s.len(), u32::MAX as u128) {
        Some(v) => Some(v as u32),
        None => None,
    }
}

/// Unsigned parsing of `s[lo..hi]` with maximum `max`.
fn parse_unsigned_at(s: &Vec<char>, lo: usize, hi: usize, max: u128) -> (r: Option<u128>)
    requires
        lo <= hi <= s.len(),
        max <= u64::MAX,
    ensures
        match r {
            Some(v) => parse_unsigned(s@.subrange(lo as int, hi as int), max as nat) == Some(v as nat),
            None => parse_unsigned(s@.subrange(lo as int, hi as int), max as nat) is None,
        },
{
    let ghost sub = s@.subrange(lo as int, hi as int);
    let start = if lo < hi && s[lo] == '+' { lo + 1 } else { lo };
    let ghost body = s@.subrange(start as int, hi as int);
    assert(body == (if sub.len() > 0 && sub[0] == '+' { sub.drop_first() } else { sub }));
    let limit: u128 = max + 1;
    let mut acc: u128 = 0;
    let mut ok = true;
    let mut i = start;
    while i < hi
        invariant
            start <= i <= hi <= s.len(),
            limit == max + 1,
            max <= u64::MAX,
            body == s@.subrange(start as int, hi as int),
            ok == all_digits(s@.subrange(start as int, i as int)),
            ok ==> acc == if digits_value(s@.subrange(start as int, i as int)) < limit {
                digits_value(s@.subrange(start as int, i as int))
            } else {
                limit as nat
            },
            acc <= limit,
        decreases hi - i,
    {
        let c = s[i];
        let ghost pre = s@.subrange(start as int, i as int);
        let ghost next = s@.subrange(start as int, i + 1);
        assert(next.drop_last() =~= pre);
        if '0' <= c && c <= '9' {
            if ok {
                let d = (c as u32 - '0' as u32) as u128;
                let grown = acc * 10 + d;
                acc = if grown < limit { grown } else { limit };
            }
        } else {
            ok = false;
        }
        assert(ok == all_digits(next)) by {
            if all_digits(next) {
                assert forall|j: int| 0 <= j < pre.len() implies #[trigger] is_digit(pre[j]) by {
                    assert(pre[j] == next[j]);
                }
                assert(is_digit(next[next.len() - 1]));
            }
        }
        i = i + 1;
    }
    assert(s@.subrange(start as int, hi as int) == body);
    if ok && start < hi && acc < limit {
        Some(acc)
    } else {
        None
    }
}

/// The `(start, end)` range of the item `s[lo..hi]`, `None` when malformed.
fn parse_item(s: &Vec<char>, lo: usize, hi: usize) -> (r: Option<(usize, usize)>)
    requires
        lo <= hi <= s.len(),
    ensures
        r == item_range(s@.subrange(lo as int, hi as int)),
{
    let (a, b) = trim_bounds(s, lo, hi);
    let ghost t = s@.subrange(a as int, b as int);
    if a == b {
        return None;
    }
    let mut dash = a;
    while dash < b && s[dash] != '-'
        invariant
            a <= dash <= b <= s.len(),
            t == s@.subrange(a as int, b as int),
            first_pos(t, '-', 0) == first_pos(t, '-', dash - a),
        decreases b - dash,
    {
        dash = dash + 1;
    }
    if dash < b {
        assert(first_pos(t, '-', (dash - a) as int) == dash - a);
        let (a1, a2) = trim_bounds(s, a, dash);
        let (b1, b2) = trim_bounds(s, dash + 1, b);
        assert(t.take(dash - a) =~= s@.subrange(a as int, dash as int));
        assert(t.skip(dash - a + 1) =~= s@.subrange(dash + 1, b as int));
        let first = parse_usize_at(s, a1, a2);
        let second = parse_usize_at(s, b1, b2);
        match (first, second) {
            (Some(x), Some(y)) => if x <= y { Some((x, y)) } else { None },
            _ => None,
        }
    } else {
        assert(first_pos(t, '-', (b - a) as int) == -1);
        match parse_usize_at(s, a, b) {
            Some(v) => Some((v, v)),
            None => None,
        }
    }
}

/// Insert `x` into a strictly increasing vector (no-op when present).
fn insert_sorted(v: &mut Vec<usize>, x: usize)
    requires
        strictly_increasing(old(v)@),
    ensures
        strictly_increasing(final(v)@),
        final(v)@.to_set() == old(v)@.to_set().insert(x),
{
    let mut i: usize = 0;
    while i < v.len() && v[i] < x
        invariant
            i <= v.len(),
            forall|j: int| 0 <= j < i ==> v@[j] < x,
        decreases v.len() - i,
    {
        i = i + 1;
    }
    if i < v.len() && v[i] == x {
        assert(v@.to_set() =~= v@.to_set().insert(x));
        return;
    }
    let ghost before = v@;
    v.insert(i, x);
    proof {
        before.insert_ensures(i as int, x);
        assert(v@ == before.insert(i as int, x));
        assert forall|a: int, b: int| 0 <= a < b < v@.len() implies v@[a] < v@[b] by {
            if b < i {
            } else if a < i && b == i {
            } else if a < i && b > i {
                assert(v@[b] == before[b - 1]);
                assert(before[b - 1] > x) by {
                    assert(before[i as int] >= x);
                    assert(before[i as int] != x);
                    if b - 1 > i {
                        assert(before[i as int] < before[b - 1]);
                    }
                }
            } else if a == i {
                assert(v@[b] == before[b - 1]);
                assert(before[i as int] > x);
                if b - 1 > i {
                    assert(before[i as int] < before[b - 1]);
                }
            } else {
                assert(v@[a] == before[a - 1]);
                assert(v@[b] == before[b - 1]);
            }
        }
        assert forall|y: usize| v@.to_set().contains(y) <==> before.to_set().insert(x).contains(
            y,
        ) by {
            if v@.contains(y) {
                let k = choose|k: int| 0 <= k < v@.len() && v@[k] == y;
                if k < i {
                    assert(before[k] == y);
                } else if k > i {
                    assert(before[k - 1] == y);
                }
            }
            if before.contains(y) {
                let k = choose|k: int| 0 <= k < before.len() && before[k] == y;
                if k < i {
                    assert(v@[k] == y);
                } else {
                    assert(v@[k + 1] == y);
                }
            }
            if y == x {
                assert(v@[i as int] == x);
            }
        }
        assert(v@.to_set() =~= before.to_set().insert(x));
    }
}

/// Parse `"0,2,4-7"` into `[0, 2, 4, 5, 6, 7]`: comma-separated items, each
/// a plain id or an inclusive `a-b` range (`a <= b`); whitespace around
/// items and numbers is ignored. Any malformed item makes the whole spec
/// invalid (`None`); the result is ascending and deduplicated.
pub fn parse_core_spec(spec: &str) -> (res: Option<Vec<usize>>)
    ensures
        parses_to(spec@, ids_view(res)),
{
    let s = chars_of(spec);
    let n = s.len();
    let mut ids: Vec<usize> = Vec::new();
    // `done` are the finished items; the current item is `s[item_lo..i]`.
    let ghost mut done: Seq<Seq<char>> = Seq::empty();
    let mut item_lo: usize = 0;
    let mut i: usize = 0;
    proof {
        assert(s@.take(0) =~= Seq::<char>::empty());
        assert(s@.subrange(0, 0) =~= Seq::<char>::empty());
        assert(split_on(s@.take(0), ',') =~= done.push(s@.subrange(0, 0)));
        assert(ids@.to_set() =~= Set::<usize>::empty());
    }
    loop
        invariant
            n == s.len(),
            s@ == spec@,
            item_lo <= i <= n,
            split_on(s@.take(i as int), ',') == done.push(s@.subrange(item_lo as int, i as int)),
            items_valid(done),
            strictly_increasing(ids@),
            ids@.to_set() == items_ids(done),
        decreases n - i,
    {
        if i == n || s[i] == ',' {
            let range = parse_item(&s, item_lo, i);
            let ghost item = s@.subrange(item_lo as int, i as int);
            match range {
                None => {
                    proof {
                        let items = split_on(spec@, ',');
                        if i == n {
                            assert(s@.take(n as int) =~= s@);
                            assert(items == done.push(item));
                            assert(item_range(items[items.len() - 1]) is None);
                        } else {
                            lemma_prefix_item_in_split(s@, i as int, done, item);
                            let k = choose|k: int| 0 <= k < items.len() && items[k] == item;
                            assert(item_range(items[k]) is None);
                        }
                    }
                    return None;
                },
                Some((lo_id, hi_id)) => {
                    let ghost before = ids@.to_set();
                    let mut x = lo_id;
                    proof {
                        assert(before.union(Set::new(|y: usize| lo_id <= y && y < x)) =~= before);
                    }
                    loop
                        invariant_except_break
                            lo_id <= x <= hi_id,
                            strictly_increasing(ids@),
                            ids@.to_set() == before.union(
                                Set::new(|y: usize| lo_id <= y && y < x),
                            ),
                        ensures
                            strictly_increasing(ids@),
                            ids@.to_set() == before.union(range_ids((lo_id, hi_id))),
                        decreases hi_id - x,
                    {
                        insert_sorted(&mut ids, x);
                        if x == hi_id {
                            assert(before.union(Set::new(|y: usize| lo_id <= y && y < x)).insert(x)
                                =~= before.union(range_ids((lo_id, hi_id))));
                            break;
                        }
                        assert(before.union(Set::new(|y: usize| lo_id <= y && y < x)).insert(x)
                            =~= before.union(Set::new(|y: usize| lo_id <= y && y < x + 1)));
                        x = x + 1;
                    }
                    let ghost next_done = done.push(item);
                    proof {
                        assert(next_done.drop_last() =~= done);
                        assert(items_ids(next_done) == items_ids(done).union(
                            range_ids((lo_id, hi_id)),
                        ));
                        assert forall|k: int| 0 <= k < next_done.len() implies (
                        #[trigger] item_range(next_done[k])) is Some by {
                            if k < done.len() {
                                assert(next_done[k] == done[k]);
                            }
                        }
                    }
                    if i == n {
                        proof {
                            assert(s@.take(n as int) =~= s@);
                        }
                        return Some(ids);
                    }
                    proof {
                        assert(s@.take(i + 1).drop_last() =~= s@.take(i as int));
                        assert(s@.take(i + 1).last() == ',');
                        assert(split_on(s@.take(i + 1), ',') == next_done.push(Seq::empty()));
                        assert(s@.subrange(i + 1, i + 1) =~= Seq::<char>::empty());
                        done = next_done;
                    }
                    item_lo = i + 1;
                },
            }
        } else {
            proof {
                lemma_split_nonempty(s@.take(i as int), ',');
                assert(s@.take(i + 1).drop_last() =~= s@.take(i as int));
                assert(s@.subrange(item_lo as int, i + 1) =~= s@.subrange(
                    item_lo as int,
                    i as int,
                ).push(s@[i as int]));
                let prev = split_on(s@.take(i as int), ',');
                assert(prev.update(prev.len() - 1, prev.last().push(s@[i as int])) =~= done.push(
                    s@.subrange(item_lo as int, i + 1),
                ));
            }
        }
        i = i + 1;
    }
}

/// An item already closed by a comma occurs among the spec's items.
proof fn lemma_prefix_item_in_split(s: Seq<char>, i: int, done: Seq<Seq<char>>, item: Seq<char>)
    requires
        0 <= i < s.len(),
        s[i] == ',',
        split_on(s.take(i), ',') == done.push(item),
    ensures
        exists|k: int| 0 <= k < split_on(s, ',').len() && split_on(s, ',')[k] == item,
{
    lemma_split_prefix_extends(s, i + 1);
    assert(s.take(i + 1).drop_last() =~= s.take(i));
    let pre = split_on(s.take(i + 1), ',');
    assert(pre == done.push(item).push(Seq::empty()));
    assert(pre[done.len() as int] == item);
    assert(split_on(s, ',')[done.len() as int] == item);
}

/// The items of a prefix are, but for the last, items of the whole string.
proof fn lemma_split_prefix_extends(s: Seq<char>, j: int)
    requires
        0 <= j <= s.len(),
    ensures
        split_on(s.take(j), ',').len() <= split_on(s, ',').len(),
        forall|k: int|
            0 <= k < split_on(s.take(j), ',').len() - 1 ==> #[trigger] split_on(s, ',')[k]
                == split_on(s.take(j), ',')[k],
    decreases s.len() - j,
{
    lemma_split_nonempty(s.take(j), ',');
    if j < s.len() {
        lemma_split_prefix_extends(s, j + 1);
        assert(s.take(j + 1).drop_last() =~= s.take(j));
        lemma_split_nonempty(s.take(j + 1), ',');
    } else {
        assert(s.take(j) =~= s);
    }
}

/// Joining two specs with a comma joins their item lists.
proof fn lemma_split_concat(a: Seq<char>, b: Seq<char>)
    ensures
        split_on(a + seq![','] + b, ',') == split_on(a, ',') + split_on(b, ','),
    decreases b.len(),
{
    let s = a + seq![','] + b;
    if b.len() == 0 {
        assert(s.drop_last() =~= a);
        assert(split_on(a, ',').push(Seq::empty()) =~= split_on(a, ',') + split_on(b, ','));
    } else {
        lemma_split_concat(a, b.drop_last());
        assert(s.drop_last() =~= a + seq![','] + b.drop_last());
        let pre_a = split_on(a, ',');
        let pre_b = split_on(b.drop_last(), ',');
        lemma_split_nonempty(b.drop_last(), ',');
        let joined = pre_a + pre_b;
        if b.last() == ',' {
            assert(joined.push(Seq::empty()) =~= pre_a + pre_b.push(Seq::empty()));
        } else {
            assert(joined.update(joined.len() - 1, joined.last().push(b.last())) =~= pre_a
                + pre_b.update(pre_b.len() - 1, pre_b.last().push(b.last())));
        }
    }
}

proof fn lemma_items_ids_concat(x: Seq<Seq<char>>, y: Seq<Seq<char>>)
    ensures
        items_ids(x + y) == items_ids(x).union(items_ids(y)),
    decreases y.len(),
{
    if y.len() == 0 {
        assert(x + y =~= x);
        assert(items_ids(x).union(Set::empty()) =~= items_ids(x));
    } else {
        lemma_items_ids_concat(x, y.drop_last());
        assert((x + y).drop_last() =~= x + y.drop_last());
        assert((x + y).last() == y.last());
        let r = range_ids(item_range(y.last()).unwrap());
        assert(items_ids(x).union(items_ids(y.drop_last())).union(r) =~= items_ids(x).union(
            items_ids(y.drop_last()).union(r),
        ));
    }
}

proof fn lemma_items_valid_concat(x: Seq<Seq<char>>, y: Seq<Seq<char>>)
    ensures
        items_valid(x + y) == (items_valid(x) && items_valid(y)),
{
    if items_valid(x + y) {
        assert forall|i: int| 0 <= i < x.len() implies (#[trigger] item_range(x[i])) is Some by {
            assert((x + y)[i] == x[i]);
        }
        assert forall|i: int| 0 <= i < y.len() implies (#[trigger] item_range(y[i])) is Some by {
            assert((x + y)[x.len() + i] == y[i]);
        }
    }
    if items_valid(x) && items_valid(y) {
        assert forall|i: int| 0 <= i < (x + y).len() implies (#[trigger] item_range((x + y)[i])) is Some by {
            if i < x.len() {
                assert((x + y)[i] == x[i]);
            } else {
                assert((x + y)[i] == y[i - x.len()]);
            }
        }
    }
}

/// The meaning of two specs joined by a comma: valid exactly when both
/// are, naming the ids of both.
proof fn lemma_joined_ids(a: Seq<char>, b: Seq<char>)
    ensures
        core_spec_ids(a + seq![','] + b) == (match (core_spec_ids(a), core_spec_ids(b)) {
            (Some(x), Some(y)) => Some(x.union(y)),
            _ => None,
        }),
{
    lemma_split_concat(a, b);
    lemma_items_valid_concat(split_on(a, ','), split_on(b, ','));
    lemma_items_ids_concat(split_on(a, ','), split_on(b, ','));
}

/// An ascending list without repeats is fixed by the set of its elements.
pub proof fn sorted_ids_agree(v: Seq<usize>, w: Seq<usize>)
    requires
        strictly_increasing(v),
        strictly_increasing(w),
        v.to_set() == w.to_set(),
    ensures
        v == w,
    decreases v.len(),
{
    if v.len() == 0 {
        if w.len() > 0 {
            assert(w.to_set().contains(w[0]));
        }
        assert(v =~= w);
    } else {
        if w.len() == 0 {
            assert(v.to_set().contains(v[0]));
        }
        let m = v.last();
        let n = w.last();
        assert(v.to_set().contains(m));
        assert(w.to_set().contains(n));
        let j = choose|j: int| 0 <= j < w.len() && w[j] == m;
        let i = choose|i: int| 0 <= i < v.len() && v[i] == n;
        assert(m <= n && n <= m);
        let vd = v.drop_last();
        let wd = w.drop_last();
        assert forall|x: usize| vd.to_set().contains(x) <==> wd.to_set().contains(x) by {
            if vd.to_set().contains(x) {
                let k = choose|k: int| 0 <= k < vd.len() && vd[k] == x;
                assert(v[k] == x && x < m);
                assert(w.to_set().contains(x));
                let l = choose|l: int| 0 <= l < w.len() && w[l] == x;
                assert(l < w.len() - 1);
                assert(wd[l] == x);
            }
            if wd.to_set().contains(x) {
                let k = choose|k: int| 0 <= k < wd.len() && wd[k] == x;
                assert(w[k] == x && x < n);
                assert(v.to_set().contains(x));
                let l = choose|l: int| 0 <= l < v.len() && v[l] == x;
                assert(l < v.len() - 1);
                assert(vd[l] == x);
            }
        }
        assert(vd.to_set() =~= wd.to_set());
        sorted_ids_agree(vd, wd);
        assert(v =~= vd.push(m));
        assert(w =~= wd.push(n));
    }
}

proof fn lemma_same_meaning_same_result(s: Seq<char>, t: Seq<char>, r: Option<Seq<usize>>, q: Option<Seq<usize>>)
    requires
        core_spec_ids(s) == core_spec_ids(t),
        parses_to(s, r),
        parses_to(t, q),
    ensures
        r == q,
{
    match (r, q) {
        (Some(x), Some(y)) => {
            sorted_ids_agree(x, y);
        },
        _ => {},
    }
}

/// The order of the comma items never changes what a core spec parses to:
/// `parse_core_spec("a,b")` and `parse_core_spec("b,a")` give the same result.
pub proof fn item_order_ignored(a: Seq<char>, b: Seq<char>, ab: Option<Seq<usize>>, ba: Option<Seq<usize>>)
    requires
        parses_to(a + seq![','] + b, ab),
        parses_to(b + seq![','] + a, ba),
    ensures
        ab == ba,
{
    lemma_joined_ids(a, b);
    lemma_joined_ids(b, a);
    match (core_spec_ids(a), core_spec_ids(b)) {
        (Some(x), Some(y)) => {
            assert(x.union(y) =~= y.union(x));
        },
        _ => {},
    }
    lemma_same_meaning_same_result(a + seq![','] + b, b + seq![','] + a, ab, ba);
}

/// Repeating the items never changes what a core spec parses to:
/// `parse_core_spec("a,a")` gives what `parse_core_spec("a")` gives.
pub proof fn repeated_items_ignored(a: Seq<char>, aa: Option<Seq<usize>>, once: Option<Seq<usize>>)
    requires
        parses_to(a + seq![','] + a, aa),
        parses_to(a, once),
    ensures
        aa == once,
{
    lemma_joined_ids(a, a);
    match core_spec_ids(a) {
        Some(x) => {
            assert(x.union(x) =~= x);
        },
        None => {},
    }
    lemma_same_meaning_same_result(a + seq![','] + a, a, aa, once);
}

} // verus!
