//! Per-widget layout `options`: a plain model of the JSON object a layout
//! node carries, and the parse helpers the widgets switch on.
//!
//! Unknown keys and malformed values are ignored: every helper falls back
//! to the documented default, so a bad option never breaks rendering.

use vstd::prelude::*;
use crate::core_spec::{parse_core_spec, core_spec_ids, strictly_increasing};

verus! {

broadcast use vstd::string::group_string_axioms;

/// A JSON value as the option helpers read it. Numbers carry no payload:
/// no option reads a numeric value, a number only counts as "not the
/// expected type".
pub enum JsonValue {
    Null,
    Bool(bool),
    Number,
    Str(String),
    Array(Vec<JsonValue>),
    /// Members in document order; keys are unique in a parsed object.
    Object(Vec<(String, JsonValue)>),
}

/// Text equality: true exactly when the two texts hold the same chars.
pub(crate) fn str_eq(a: &str, b: &str) -> (r: bool)
    ensures
        r == (a@ == b@),
{
    let n = a.unicode_len();
    if n != b.unicode_len() {
        return false;
    }
    let mut i: usize = 0;
    while i < n
        invariant
            i <= n,
            n == a@.len(),
            n == b@.len(),
            forall|j: int| 0 <= j < i ==> a@[j] == b@[j],
        decreases n - i,
    {
        if a.get_char(i) != b.get_char(i) {
            return false;
        }
        i = i + 1;
    }
    assert(a@ =~= b@);
    true
}

/// The first member named `key` at or after index `i`.
pub open spec fn member_from(entries: Seq<(String, JsonValue)>, key: Seq<char>, i: int) -> Option<
    JsonValue,
>
    decreases entries.len() - i,
{
    if i < 0 || i >= entries.len() {
        None
    } else if entries[i].0@ == key {
        Some(entries[i].1)
    } else {
        member_from(entries, key, i + 1)
    }
}

/// `Value::get(key)`: the member of an object, `None` for other values.
pub open spec fn json_get(v: JsonValue, key: Seq<char>) -> Option<JsonValue> {
    match v {
        JsonValue::Object(entries) => member_from(entries@, key, 0),
        _ => None,
    }
}

/// The string under `key`, if the member exists and is a string.
pub open spec fn opt_string(v: JsonValue, key: Seq<char>) -> Option<Seq<char>> {
    match json_get(v, key) {
        Some(JsonValue::Str(s)) => Some(s@),
        _ => None,
    }
}

/// The bool under `key`, if the member exists and is a bool.
pub open spec fn opt_bool(v: JsonValue, key: Seq<char>) -> Option<bool> {
    match json_get(v, key) {
        Some(JsonValue::Bool(b)) => Some(b),
        _ => None,
    }
}

/// The string entries of an array, in order (other entries skipped).
pub open spec fn strings_in(items: Seq<JsonValue>) -> Seq<Seq<char>>
    decreases items.len(),
{
    if items.len() == 0 {
        Seq::empty()
    } else {
        let prev = strings_in(items.drop_last());
        match items.last() {
            JsonValue::Str(s) => prev.push(s@),
            _ => prev,
        }
    }
}

/// The names under `key` when the member is an array.
pub open spec fn opt_name_list(v: JsonValue, key: Seq<char>) -> Option<Seq<Seq<char>>> {
    match json_get(v, key) {
        Some(JsonValue::Array(items)) => Some(strings_in(items@)),
        _ => None,
    }
}

pub open spec fn str_view(o: Option<&str>) -> Option<Seq<char>> {
    match o {
        Some(s) => Some(s@),
        None => None,
    }
}

pub open spec fn names_view(v: Seq<String>) -> Seq<Seq<char>> {
    v.map_values(|s: String| s@)
}

impl JsonValue {
    /// `Value::get`: the member named `key` of an object.
    pub fn get(&self, key: &str) -> (r: Option<&JsonValue>)
        ensures
            match r {
                Some(m) => json_get(*self, key@) == Some(*m),
                None => json_get(*self, key@) is None,
            },
    {
        match self {
            JsonValue::Object(entries) => {
                let mut i: usize = 0;
                while i < entries.len()
                    invariant
                        i <= entries.len(),
                        *self == JsonValue::Object(*entries),
                        member_from(entries@, key@, 0) == member_from(entries@, key@, i as int),
                    decreases entries.len() - i,
                {
                    if str_eq(entries[i].0.as_str(), key) {
                        assert(entries@[i as int].0@ == key@);
                        assert(member_from(entries@, key@, i as int) == Some(entries@[i as int].1));
                        return Some(&entries[i].1);
                    }
                    i = i + 1;
                }
                None
            },
            _ => None,
        }
    }

    /// `Value::as_str`.
    pub fn as_str(&self) -> (r: Option<&str>)
        ensures
            str_view(r) == match *self {
                JsonValue::Str(s) => Some(s@),
                _ => None,
            },
    {
        match self {
            JsonValue::Str(s) => Some(s.as_str()),
            _ => None,
        }
    }

    /// `Value::as_bool`.
    pub fn as_bool(&self) -> (r: Option<bool>)
        ensures
            r == match *self {
                JsonValue::Bool(b) => Some(b),
                _ => None,
            },
    {
        match self {
            JsonValue::Bool(b) => Some(*b),
            _ => None,
        }
    }
}

/// The value of a string-valued option key: `None` when the key is absent
/// or not a string.
pub fn string<'a>(options: &'a JsonValue, key: &str) -> (r: Option<&'a str>)
    ensures
        str_view(r) == opt_string(*options, key@),
{
    match options.get(key) {
        Some(v) => v.as_str(),
        None => None,
    }
}

/// The value of a bool-valued option key: `None` when the key is absent or
/// not a boolean.
pub fn boolean(options: &JsonValue, key: &str) -> (r: Option<bool>)
    ensures
        r == opt_bool(*options, key@),
{
    match options.get(key) {
        Some(v) => v.as_bool(),
        None => None,
    }
}

/// A list of names under `key`: `None` when the key is absent or not an
/// array; non-string entries are skipped (an array without usable entries
/// yields an empty list).
pub fn name_list(options: &JsonValue, key: &str) -> (r: Option<Vec<String>>)
    ensures
        match r {
            Some(names) => opt_name_list(*options, key@) == Some(names_view(names@)),
            None => opt_name_list(*options, key@) is None,
        },
{
    match options.get(key) {
        Some(JsonValue::Array(items)) => {
            let mut names: Vec<String> = Vec::new();
            let mut i: usize = 0;
            while i < items.len()
                invariant
                    i <= items.len(),
                    names_view(names@) == strings_in(items@.take(i as int)),
                decreases items.len() - i,
            {
                assert(items@.take(i + 1).drop_last() =~= items@.take(i as int));
                match &items[i] {
                    JsonValue::Str(s) => {
                        names.push(s.clone());
                        assert(names_view(names@) =~= strings_in(items@.take(i as int)).push(s@));
                    },
                    _ => {},
                }
                i = i + 1;
            }
            assert(items@.take(items.len() as int) =~= items@);
            Some(names)
        },
        _ => None,
    }
}

/// `"all"` or absent → `Some(None)`; an array → `Some(Some(names))`; any
/// other value → `None`.
pub open spec fn opt_all_or_names(v: JsonValue, key: Seq<char>) -> Option<Option<Seq<Seq<char>>>> {
    match json_get(v, key) {
        None => Some(None),
        Some(JsonValue::Str(s)) => if s@ == "all"@ { Some(None) } else { None },
        Some(JsonValue::Array(items)) => Some(Some(strings_in(items@))),
        Some(_) => None,
    }
}

/// A name list under `key` or the special value `"all"`.
pub fn all_or_names(options: &JsonValue, key: &str) -> (r: Option<Option<Vec<String>>>)
    ensures
        match r {
            Some(Some(names)) => opt_all_or_names(*options, key@) == Some(Some(names_view(names@))),
            Some(None) => opt_all_or_names(*options, key@) == Some(None::<Seq<Seq<char>>>),
            None => opt_all_or_names(*options, key@) is None,
        },
{
    match options.get(key) {
        None => Some(None),
        Some(JsonValue::Str(s)) => {
            if str_eq(s.as_str(), "all") {
                Some(None)
            } else {
                None
            }
        },
        Some(JsonValue::Array(_)) => match name_list(options, key) {
            Some(names) => Some(Some(names)),
            None => None,
        },
        Some(_) => None,
    }
}

/// How the cpu widget restricts the logical cores it shows.
#[derive(Debug, PartialEq, Eq)]
pub enum CoreSelection {
    /// Every core the snapshot carries (the default).
    All,
    /// The selected `cpu_id` numbers (ascending and once each when parsed
    /// from a `"0,2,4-7"` spec).
    Ids(Vec<usize>),
}

/// The ids a core option selects: `None` = every core.
pub open spec fn selected_core_ids(v: JsonValue, key: Seq<char>) -> Option<Set<usize>> {
    match opt_string(v, key) {
        None => None,
        Some(s) => if s == "all"@ {
            None
        } else {
            core_spec_ids(s)
        },
    }
}

/// Core `j` carries one of the selected ids.
pub open spec fn core_matches(cpu_ids: Seq<usize>, ids: Seq<usize>, j: int) -> bool {
    0 <= j < cpu_ids.len() && ids.contains(cpu_ids[j])
}

/// Core `a` comes before core `b`: a smaller `cpu_id`, or the same id
/// earlier in the snapshot.
pub open spec fn id_before(cpu_ids: Seq<usize>, a: usize, b: usize) -> bool {
    cpu_ids[a as int] < cpu_ids[b as int] || (cpu_ids[a as int] == cpu_ids[b as int] && a < b)
}

/// `r` lists the matching cores, each once, ascending by `cpu_id`.
pub open spec fn sorted_matches(cpu_ids: Seq<usize>, ids: Seq<usize>, r: Seq<usize>) -> bool {
    &&& forall|k: int| 0 <= k < r.len() ==> core_matches(cpu_ids, ids, #[trigger] r[k] as int)
    &&& forall|j: int| core_matches(cpu_ids, ids, j) ==> r.contains(j as usize)
    &&& forall|k: int, l: int| 0 <= k < l < r.len() ==> id_before(cpu_ids, #[trigger] r[k], #[trigger] r[l])
}

/// The cores a subset of ids shows: the matching cores ascending by
/// `cpu_id`, or every core when none matches.
pub open spec fn resolves_to(cpu_ids: Seq<usize>, ids: Seq<usize>, r: Seq<usize>) -> bool {
    if exists|j: int| core_matches(cpu_ids, ids, j) {
        sorted_matches(cpu_ids, ids, r)
    } else {
        r == all_indices(cpu_ids.len())
    }
}

pub open spec fn all_indices(n: nat) -> Seq<usize> {
    Seq::new(n, |i: int| i as usize)
}

fn contains_id(ids: &Vec<usize>, v: usize) -> (r: bool)
    ensures
        r == ids@.contains(v),
{
    let mut i: usize = 0;
    while i < ids.len()
        invariant
            i <= ids.len(),
            forall|j: int| 0 <= j < i ==> ids@[j] != v,
        decreases ids.len() - i,
    {
        if ids[i] == v {
            return true;
        }
        i = i + 1;
    }
    false
}

/// Inserting core `i` (matching, after every core listed) where the listed
/// ids pass `cpu_ids[i]` keeps the listing complete and ascending.
proof fn lemma_insert_keeps_sorted(cpu_ids: Seq<usize>, ids: Seq<usize>, old_out: Seq<usize>, pos: int, i: usize)
    requires
        i < cpu_ids.len(),
        core_matches(cpu_ids, ids, i as int),
        0 <= pos <= old_out.len(),
        forall|k: int| 0 <= k < old_out.len() ==> #[trigger] old_out[k] < i && core_matches(
            cpu_ids,
            ids,
            old_out[k] as int,
        ),
        forall|j: int| 0 <= j < i && core_matches(cpu_ids, ids, j) ==> old_out.contains(j as usize),
        forall|k: int, l: int| 0 <= k < l < old_out.len() ==> id_before(cpu_ids, #[trigger] old_out[k], #[trigger] old_out[l]),
        forall|k: int| 0 <= k < pos ==> cpu_ids[#[trigger] old_out[k] as int] <= cpu_ids[i as int],
        pos < old_out.len() ==> cpu_ids[old_out[pos] as int] > cpu_ids[i as int],
    ensures
        ({
            let nw = old_out.insert(pos, i);
            &&& forall|k: int| 0 <= k < nw.len() ==> #[trigger] nw[k] < i + 1 && core_matches(cpu_ids, ids, nw[k] as int)
            &&& forall|j: int| 0 <= j < i + 1 && core_matches(cpu_ids, ids, j) ==> nw.contains(j as usize)
            &&& forall|k: int, l: int| 0 <= k < l < nw.len() ==> id_before(cpu_ids, #[trigger] nw[k], #[trigger] nw[l])
        }),
{
    let v = cpu_ids[i as int];
    let nw = old_out.insert(pos, i);
    assert forall|k: int| pos <= k < old_out.len() implies cpu_ids[#[trigger] old_out[k] as int] > v by {
        if k > pos {
            assert(id_before(cpu_ids, old_out[pos], old_out[k]));
        }
    }
    assert forall|k: int| 0 <= k < nw.len() implies #[trigger] nw[k] < i + 1 && core_matches(cpu_ids, ids, nw[k] as int) by {
        if k < pos {
            assert(nw[k] == old_out[k]);
        } else if k > pos {
            assert(nw[k] == old_out[k - 1]);
        }
    }
    assert forall|j: int| 0 <= j < i + 1 && core_matches(cpu_ids, ids, j) implies nw.contains(j as usize) by {
        if j == i {
            assert(nw[pos] == i);
        } else {
            assert(old_out.contains(j as usize));
            let k = choose|k: int| 0 <= k < old_out.len() && old_out[k] == j as usize;
            if k < pos {
                assert(nw[k] == old_out[k]);
            } else {
                assert(nw[k + 1] == old_out[k]);
            }
        }
    }
    assert forall|k: int, l: int| 0 <= k < l < nw.len() implies id_before(cpu_ids, #[trigger] nw[k], #[trigger] nw[l]) by {
        if l < pos {
            assert(nw[k] == old_out[k] && nw[l] == old_out[l]);
        } else if l == pos {
            assert(nw[k] == old_out[k]);
            assert(cpu_ids[old_out[k] as int] <= v);
        } else if k < pos {
            assert(nw[k] == old_out[k] && nw[l] == old_out[l - 1]);
        } else if k == pos {
            assert(nw[l] == old_out[l - 1]);
            assert(cpu_ids[old_out[l - 1] as int] > v);
        } else {
            assert(nw[k] == old_out[k - 1] && nw[l] == old_out[l - 1]);
        }
    }
}

impl CoreSelection {
    /// Resolve the selection against the snapshot's core ids (in snapshot
    /// order): the indices of the cores whose id is selected, each once and
    /// ascending by `cpu_id`; an empty or unmatched selection falls back to
    /// every core so the widget never goes blank.
    pub fn resolve(&self, cpu_ids: &Vec<usize>) -> (r: Vec<usize>)
        ensures
            match *self {
                CoreSelection::All => r@ == all_indices(cpu_ids.len() as nat),
                CoreSelection::Ids(ids) => resolves_to(cpu_ids@, ids@, r@),
            },
    {
        match self {
            CoreSelection::All => every_index(cpu_ids.len()),
            CoreSelection::Ids(ids) => {
                let n = cpu_ids.len();
                let mut out: Vec<usize> = Vec::new();
                let mut i: usize = 0;
                while i < n
                    invariant
                        i <= n == cpu_ids@.len(),
                        forall|k: int| 0 <= k < out@.len() ==> #[trigger] out@[k] < i && core_matches(
                            cpu_ids@,
                            ids@,
                            out@[k] as int,
                        ),
                        forall|j: int| 0 <= j < i && core_matches(cpu_ids@, ids@, j) ==> out@.contains(j as usize),
                        forall|k: int, l: int| 0 <= k < l < out@.len() ==> id_before(cpu_ids@, #[trigger] out@[k], #[trigger] out@[l]),
                    decreases n - i,
                {
                    if contains_id(ids, cpu_ids[i]) {
                        let v = cpu_ids[i];
                        let mut pos: usize = 0;
                        while pos < out.len() && cpu_ids[out[pos]] <= v
                            invariant
                                pos <= out@.len(),
                                i < n == cpu_ids@.len(),
                                v == cpu_ids@[i as int],
                                forall|k: int| 0 <= k < out@.len() ==> #[trigger] out@[k] < i,
                                forall|k: int| 0 <= k < pos ==> cpu_ids@[#[trigger] out@[k] as int] <= v,
                            decreases out@.len() - pos,
                        {
                            pos = pos + 1;
                        }
                        proof {
                            lemma_insert_keeps_sorted(cpu_ids@, ids@, out@, pos as int, i);
                        }
                        out.insert(pos, i);
                    }
                    i = i + 1;
                }
                if out.len() == 0 {
                    proof {
                        assert forall|j: int| !core_matches(cpu_ids@, ids@, j) by {
                            if core_matches(cpu_ids@, ids@, j) {
                                assert(out@.contains(j as usize));
                            }
                        }
                    }
                    every_index(cpu_ids.len())
                } else {
                    proof {
                        assert(core_matches(cpu_ids@, ids@, out@[0] as int));
                    }
                    out
                }
            },
        }
    }
}

/// `[0, 1, .., n - 1]`.
pub fn every_index(n: usize) -> (r: Vec<usize>)
    ensures
        r@ == all_indices(n as nat),
{
    let mut out: Vec<usize> = Vec::new();
    let mut i: usize = 0;
    while i < n
        invariant
            i <= n,
            out@ == all_indices(i as nat),
        decreases n - i,
    {
        out.push(i);
        assert(out@ =~= all_indices((i + 1) as nat));
        i = i + 1;
    }
    out
}

/// Parse a CPU-core subset option: `"all"`/absent yields
/// [`CoreSelection::All`]; a valid spec yields the ascending, deduplicated
/// ids; a malformed spec also yields `All` (never break rendering).
pub fn core_selection(options: &JsonValue, key: &str) -> (r: CoreSelection)
    ensures
        match r {
            CoreSelection::All => selected_core_ids(*options, key@) is None,
            CoreSelection::Ids(ids) => selected_core_ids(*options, key@) == Some(ids@.to_set())
                && strictly_increasing(ids@),
        },
{
    match string(options, key) {
        None => CoreSelection::All,
        Some(spec) => {
            if str_eq(spec, "all") {
                CoreSelection::All
            } else {
                match parse_core_spec(spec) {
                    Some(ids) => CoreSelection::Ids(ids),
                    None => CoreSelection::All,
                }
            }
        },
    }
}

/// The history chart of the cpu widget.
#[derive(PartialEq, Eq, Structural, Clone, Copy, Debug)]
pub enum CpuChart {
    /// One machine-wide average line (the default).
    Average,
    /// One line per shown core, colored from the series ramp.
    PerCore,
}

impl CpuChart {
    /// `"per-core"` selects the per-core view; anything else keeps the
    /// average view.
    pub fn from_options(options: Option<&JsonValue>, key: &str) -> (r: CpuChart)
        ensures
            r == (match options {
                Some(o) => if opt_string(*o, key@) == Some("per-core"@) {
                    CpuChart::PerCore
                } else {
                    CpuChart::Average
                },
                None => CpuChart::Average,
            }),
    {
        match options {
            Some(o) => match string(o, key) {
                Some(s) => if str_eq(s, "per-core") {
                    CpuChart::PerCore
                } else {
                    CpuChart::Average
                },
                None => CpuChart::Average,
            },
            None => CpuChart::Average,
        }
    }
}

/// Index of the first item named `name` at or after `from`, `-1` when none.
pub open spec fn index_of_name(items: Seq<Seq<char>>, name: Seq<char>, from: int) -> int
    decreases items.len() - from,
{
    if from < 0 || from >= items.len() {
        -1
    } else if items[from] == name {
        from
    } else {
        index_of_name(items, name, from + 1)
    }
}

/// For each of `names` in order, the first item carrying it (unknown names
/// are skipped).
pub open spec fn named_picks(items: Seq<Seq<char>>, names: Seq<Seq<char>>) -> Seq<usize>
    decreases names.len(),
{
    if names.len() == 0 {
        Seq::empty()
    } else {
        let prev = named_picks(items, names.drop_last());
        let k = index_of_name(items, names.last(), 0);
        if k >= 0 { prev.push(k as usize) } else { prev }
    }
}

/// The picks of `names`, or every item when none matched.
pub open spec fn names_selection(items: Seq<Seq<char>>, names: Seq<Seq<char>>) -> Seq<usize> {
    let p = named_picks(items, names);
    if p.len() == 0 { all_indices(items.len()) } else { p }
}

fn find_name(items: &Vec<String>, name: &str) -> (r: Option<usize>)
    ensures
        match r {
            Some(k) => index_of_name(names_view(items@), name@, 0) == k as int,
            None => index_of_name(names_view(items@), name@, 0) == -1,
        },
{
    let ghost all = names_view(items@);
    let mut j: usize = 0;
    while j < items.len()
        invariant
            j <= items.len(),
            all == names_view(items@),
            index_of_name(all, name@, 0) == index_of_name(all, name@, j as int),
        decreases items.len() - j,
    {
        assert(all[j as int] == items@[j as int]@);
        if str_eq(items[j].as_str(), name) {
            return Some(j);
        }
        j = j + 1;
    }
    None
}

/// The items (by index) an interface/disk name list selects: each name
/// picks the first item with that name, in the order of the list; an empty
/// or unmatched selection falls back to every item.
pub fn select_by_names(items: &Vec<String>, names: &Vec<String>) -> (r: Vec<usize>)
    ensures
        r@ == names_selection(names_view(items@), names_view(names@)),
        forall|k: int| 0 <= k < r@.len() ==> #[trigger] r@[k] < items.len(),
{
    let ghost all = names_view(items@);
    let ghost wanted = names_view(names@);
    let mut out: Vec<usize> = Vec::new();
    let mut i: usize = 0;
    while i < names.len()
        invariant
            i <= names.len(),
            all == names_view(items@),
            wanted == names_view(names@),
            out@ == named_picks(all, wanted.take(i as int)),
            forall|k: int| 0 <= k < out@.len() ==> #[trigger] out@[k] < items.len(),
        decreases names.len() - i,
    {
        assert(wanted.take(i + 1).drop_last() =~= wanted.take(i as int));
        assert(wanted.take(i + 1).last() == names@[i as int]@);
        match find_name(items, names[i].as_str()) {
            Some(k) => {
                proof {
                    lemma_index_of_name_bound(all, names@[i as int]@, 0);
                }
                out.push(k);
            },
            None => {},
        }
        i = i + 1;
    }
    assert(wanted.take(names.len() as int) =~= wanted);
    if out.len() == 0 {
        every_index(items.len())
    } else {
        out
    }
}

proof fn lemma_index_of_name_bound(items: Seq<Seq<char>>, name: Seq<char>, from: int)
    ensures
        index_of_name(items, name, from) < items.len(),
        index_of_name(items, name, from) >= -1,
    decreases items.len() - from,
{
    if 0 <= from < items.len() && items[from] != name {
        lemma_index_of_name_bound(items, name, from + 1);
    }
}

/// What an `ifaces`/`disks` option selects among items named `items`.
pub open spec fn named_selection(opts: Option<JsonValue>, key: Seq<char>, items: Seq<Seq<char>>) -> Seq<usize> {
    match opts {
        None => all_indices(items.len()),
        Some(o) => match opt_all_or_names(o, key) {
            Some(Some(names)) => names_selection(items, names),
            _ => all_indices(items.len()),
        },
    }
}

/// Resolve an `ifaces`/`disks` selection: `"all"`, absent or malformed
/// selects every item; a name list selects by name (see
/// [`select_by_names`]).
pub fn resolve_named(opts: Option<&JsonValue>, key: &str, items: &Vec<String>) -> (r: Vec<usize>)
    ensures
        r@ == named_selection(crate::glyph::opt_ref_view(opts), key@, names_view(items@)),
        forall|k: int| 0 <= k < r@.len() ==> #[trigger] r@[k] < items.len(),
{
    match opts {
        None => every_index(items.len()),
        Some(o) => match all_or_names(o, key) {
            Some(Some(names)) => select_by_names(items, &names),
            _ => every_index(items.len()),
        },
    }
}

proof fn lemma_picks_in_range(items: Seq<Seq<char>>, names: Seq<Seq<char>>)
    ensures
        forall|k: int| 0 <= k < named_picks(items, names).len() ==> #[trigger] named_picks(items, names)[k]
            < items.len(),
    decreases names.len(),
{
    if names.len() > 0 {
        lemma_picks_in_range(items, names.drop_last());
        lemma_index_of_name_bound(items, names.last(), 0);
        let prev = named_picks(items, names.drop_last());
        let all = named_picks(items, names);
        assert forall|j: int| 0 <= j < all.len() implies #[trigger] all[j] < items.len() by {
            if j < prev.len() {
                assert(all[j] == prev[j]);
            }
        }
    }
}

/// A name filter never leaves a list blank: with items present the
/// selection is never empty (nothing matching selects every item), and it
/// only ever picks existing items.
pub proof fn name_selection_never_blank(items: Seq<Seq<char>>, names: Seq<Seq<char>>)
    requires
        items.len() > 0,
    ensures
        names_selection(items, names).len() > 0,
        forall|k: int| 0 <= k < names_selection(items, names).len() ==> #[trigger] names_selection(items, names)[k]
            < items.len(),
{
    lemma_picks_in_range(items, names);
}

/// A core subset never leaves the cpu widget blank: with cores present the
/// resolved rows are never empty (an unmatched subset shows every core),
/// and they only name existing cores.
pub proof fn core_subset_never_blank(cpu_ids: Seq<usize>, ids: Seq<usize>, r: Seq<usize>)
    requires
        cpu_ids.len() > 0,
        resolves_to(cpu_ids, ids, r),
    ensures
        r.len() > 0,
        forall|k: int| 0 <= k < r.len() ==> #[trigger] r[k] < cpu_ids.len(),
{
    if exists|j: int| core_matches(cpu_ids, ids, j) {
        let j = choose|j: int| core_matches(cpu_ids, ids, j);
        assert(r.contains(j as usize));
        assert forall|k: int| 0 <= k < r.len() implies #[trigger] r[k] < cpu_ids.len() by {
            assert(core_matches(cpu_ids, ids, r[k] as int));
        }
    } else {
        assert(r[0] == 0usize);
    }
}

/// Two listings of one set of cores, both strictly ascending by `cpu_id`
/// (snapshot order among equal ids), are the same listing.
proof fn lemma_sorted_listing_unique(cpu_ids: Seq<usize>, r: Seq<usize>, s: Seq<usize>)
    requires
        forall|k: int, l: int| 0 <= k < l < r.len() ==> id_before(cpu_ids, #[trigger] r[k], #[trigger] r[l]),
        forall|k: int, l: int| 0 <= k < l < s.len() ==> id_before(cpu_ids, #[trigger] s[k], #[trigger] s[l]),
        forall|x: usize| r.contains(x) <==> s.contains(x),
    ensures
        r == s,
    decreases r.len(),
{
    if r.len() == 0 {
        if s.len() > 0 {
            assert(s.contains(s[0]));
        }
        assert(r =~= s);
    } else {
        assert(r.contains(r[0]));
        let l = choose|l: int| 0 <= l < s.len() && s[l] == r[0];
        assert(s.contains(s[0]));
        let k = choose|k: int| 0 <= k < r.len() && r[k] == s[0];
        if k > 0 && l > 0 {
            assert(id_before(cpu_ids, r[0], r[k]));
            assert(id_before(cpu_ids, s[0], s[l]));
        }
        assert(r[0] == s[0]);
        let rt = r.subrange(1, r.len() as int);
        let st = s.subrange(1, s.len() as int);
        assert forall|x: usize| rt.contains(x) <==> st.contains(x) by {
            if rt.contains(x) {
                let a = choose|a: int| 0 <= a < rt.len() && rt[a] == x;
                assert(r[a + 1] == x);
                assert(id_before(cpu_ids, r[0], r[a + 1]));
                assert(r.contains(x));
                let b = choose|b: int| 0 <= b < s.len() && s[b] == x;
                assert(b != 0);
                assert(st[b - 1] == x);
            }
            if st.contains(x) {
                let a = choose|a: int| 0 <= a < st.len() && st[a] == x;
                assert(s[a + 1] == x);
                assert(id_before(cpu_ids, s[0], s[a + 1]));
                assert(s.contains(x));
                let b = choose|b: int| 0 <= b < r.len() && r[b] == x;
                assert(b != 0);
                assert(rt[b - 1] == x);
            }
        }
        assert forall|k: int, l: int| 0 <= k < l < rt.len() implies id_before(cpu_ids, #[trigger] rt[k], #[trigger] rt[l]) by {
            assert(rt[k] == r[k + 1] && rt[l] == r[l + 1]);
        }
        assert forall|k: int, l: int| 0 <= k < l < st.len() implies id_before(cpu_ids, #[trigger] st[k], #[trigger] st[l]) by {
            assert(st[k] == s[k + 1] && st[l] == s[l + 1]);
        }
        lemma_sorted_listing_unique(cpu_ids, rt, st);
        assert(r =~= seq![r[0]] + rt);
        assert(s =~= seq![s[0]] + st);
    }
}

/// The resolved cores are fixed by the snapshot and the selected ids:
/// one listing meets `resolves_to`.
pub proof fn resolved_cores_unique(cpu_ids: Seq<usize>, ids: Seq<usize>, r: Seq<usize>, s: Seq<usize>)
    requires
        resolves_to(cpu_ids, ids, r),
        resolves_to(cpu_ids, ids, s),
    ensures
        r == s,
{
    if exists|j: int| core_matches(cpu_ids, ids, j) {
        assert forall|x: usize| r.contains(x) <==> s.contains(x) by {
            if r.contains(x) {
                let k = choose|k: int| 0 <= k < r.len() && r[k] == x;
                assert(core_matches(cpu_ids, ids, r[k] as int));
            }
            if s.contains(x) {
                let k = choose|k: int| 0 <= k < s.len() && s[k] == x;
                assert(core_matches(cpu_ids, ids, s[k] as int));
            }
        }
        lemma_sorted_listing_unique(cpu_ids, r, s);
    }
}

} // verus!
