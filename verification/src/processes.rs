//! The process table: column model, the drop ladder that fits the columns
//! into the row width, the scroll window around the selection, the sort
//! marker placement and the text of the user/command cells.
//!
//! Full row: `PID | Name | cpu-spark | CPU… | Mem | User | Command`. The
//! trailing columns drop right-to-left as the area narrows (Command, User,
//! Mem, the total-basis CPU column, then the spark); below `PID | Name |
//! CPU` the table keeps `PID | CPU%`, then `PID` alone.

use vstd::prelude::*;
use crate::core_spec::{parse_u32, parse_u32_text};
use crate::options::{JsonValue, opt_string, opt_bool, json_get, string, str_eq};
use crate::text::{byte_width, push_char, push_str};
use crate::cpu::sat_sub;

verus! {

broadcast use vstd::string::group_string_axioms;

/// Fixed column widths.
pub const PID_W: u16 = 7;
pub const CPU_W: u16 = 6;
pub const MEM_W: u16 = 10;
pub const USER_W: u16 = 9;
/// Minimum Command width before the column drops.
pub const CMD_MIN: u16 = 10;
/// Name keeps at most this much of the row; Command gets the rest.
pub const NAME_MAX: u16 = 24;
/// Preferred spark width; degrades to [`SPARK_W_MIN`] before a column drops.
pub const SPARK_W_MAX: u16 = 4;
pub const SPARK_W_MIN: u16 = 2;
/// Minimum Name width before columns start dropping.
pub const NAME_MIN: u16 = 6;

/// How the table expresses per-row CPU usage.
#[derive(PartialEq, Eq, Structural, Clone, Copy, Debug)]
pub enum CpuColumns {
    /// The per-core fraction (`12.5%`), one column.
    Core,
    /// Machine-normalized share (`0.7`/`34`), one column.
    Total,
    /// Both columns side by side (`CPU` core + `CPU%` total).
    Both,
}

/// A table column in draw order.
#[derive(PartialEq, Eq, Structural, Clone, Copy, Debug)]
pub enum Column {
    Pid,
    Name,
    /// The per-process cpu spark.
    Spark,
    /// The per-core CPU column (`12.5%`).
    CpuCore,
    /// The total-basis CPU column (`0.7`/`34`).
    CpuTotal,
    Mem,
    User,
    /// The full command line.
    Command,
}

/// One laid-out column: first cell `x`, cell `width`; a separator column
/// follows every segment but the last.
#[derive(PartialEq, Eq, Structural, Clone, Copy, Debug)]
pub struct Segment {
    pub col: Column,
    pub x: u16,
    pub width: u16,
}

/// The `cpu` option: `"both"`, `"total"`, anything else the core basis.
pub open spec fn spec_cpu_columns(opts: JsonValue) -> CpuColumns {
    match opt_string(opts, "cpu"@) {
        Some(s) => if s == "both"@ {
            CpuColumns::Both
        } else if s == "total"@ {
            CpuColumns::Total
        } else {
            CpuColumns::Core
        },
        None => CpuColumns::Core,
    }
}

pub open spec fn spec_cpu_cols(mode: CpuColumns) -> Seq<Column> {
    match mode {
        CpuColumns::Core => seq![Column::CpuCore],
        CpuColumns::Total => seq![Column::CpuTotal],
        CpuColumns::Both => seq![Column::CpuCore, Column::CpuTotal],
    }
}

pub open spec fn spec_cpu_solo(mode: CpuColumns) -> Column {
    if mode == CpuColumns::Total { Column::CpuTotal } else { Column::CpuCore }
}

pub open spec fn spec_fixed_width(col: Column) -> Option<u16> {
    match col {
        Column::Pid => Some(PID_W),
        Column::Name | Column::Spark | Column::Command => None,
        Column::CpuCore | Column::CpuTotal => Some(CPU_W),
        Column::Mem => Some(MEM_W),
        Column::User => Some(USER_W),
    }
}

/// Sum of the fixed widths of `cols`.
pub open spec fn fixed_sum(cols: Seq<Column>) -> nat
    decreases cols.len(),
{
    if cols.len() == 0 {
        0
    } else {
        fixed_sum(cols.drop_last()) + match spec_fixed_width(cols.last()) {
            Some(w) => w as nat,
            None => 0,
        }
    }
}

/// Fixed widths plus one separator between neighbouring columns.
pub open spec fn spec_fixed_cost(cols: Seq<Column>) -> nat {
    fixed_sum(cols) + if cols.len() == 0 { 0 } else { (cols.len() - 1) as nat }
}

pub open spec fn extras(show_memory: bool, show_user: bool, show_cmd: bool) -> Seq<Column> {
    (if show_memory { seq![Column::Mem] } else { Seq::empty() }) + (if show_user {
        seq![Column::User]
    } else {
        Seq::empty()
    }) + (if show_cmd { seq![Column::Command] } else { Seq::empty() })
}

/// The full-width candidates: `PID Name Spark CPU… extras[..cut]` for
/// `cut` from all extras down to none, each with the wide then the narrow
/// spark.
pub open spec fn ladder(mode: CpuColumns, ex: Seq<Column>, cut: int) -> Seq<(Seq<Column>, u16)>
    decreases cut + 1,
{
    if cut < 0 {
        Seq::empty()
    } else {
        let cols = seq![Column::Pid, Column::Name, Column::Spark] + spec_cpu_cols(mode) + ex.take(
            cut,
        );
        seq![(cols, SPARK_W_MAX), (cols, SPARK_W_MIN)] + ladder(mode, ex, cut - 1)
    }
}

/// Every candidate row in preference order.
pub open spec fn layout_variants(
    mode: CpuColumns,
    show_memory: bool,
    show_user: bool,
    show_cmd: bool,
) -> Seq<(Seq<Column>, u16)> {
    let ex = extras(show_memory, show_user, show_cmd);
    let both: Seq<(Seq<Column>, u16)> = if mode == CpuColumns::Both {
        seq![
            (seq![Column::Pid, Column::Name, Column::CpuCore, Column::CpuTotal], 0u16),
            (seq![Column::Pid, Column::Name, Column::Spark, Column::CpuCore], SPARK_W_MAX),
            (seq![Column::Pid, Column::Name, Column::Spark, Column::CpuCore], SPARK_W_MIN),
        ]
    } else {
        Seq::empty()
    };
    let solo = spec_cpu_solo(mode);
    ladder(mode, ex, ex.len() as int) + both + seq![
        (seq![Column::Pid, Column::Name, solo], 0u16),
        (seq![Column::Pid, solo], 0u16),
        (seq![Column::Pid], 0u16),
    ]
}

/// The least width a candidate needs.
pub open spec fn min_needed(cols: Seq<Column>, spark_w: u16) -> nat {
    spec_fixed_cost(cols) + (if cols.contains(Column::Spark) { spark_w as nat } else { 0 }) + (if cols.contains(
        Column::Name,
    ) {
        NAME_MIN as nat
    } else {
        0
    }) + (if cols.contains(Column::Command) { CMD_MIN as nat } else { 0 })
}

/// The `(name, command)` widths of a fitting candidate.
pub open spec fn flex_widths(cols: Seq<Column>, spark_w: u16, inner: nat) -> (nat, nat) {
    let used = spec_fixed_cost(cols) + if cols.contains(Column::Spark) { spark_w as nat } else { 0 };
    let flex: nat = if inner >= used { (inner - used) as nat } else { 0 };
    if cols.contains(Column::Command) {
        let share: nat = if flex / 3 < NAME_MIN { NAME_MIN as nat } else if flex / 3 > NAME_MAX {
            NAME_MAX as nat
        } else {
            flex / 3
        };
        let cap: nat = if flex >= CMD_MIN && (flex - CMD_MIN) as nat >= NAME_MIN {
            (flex - CMD_MIN) as nat
        } else {
            NAME_MIN as nat
        };
        let name_w: nat = if share < cap { share } else { cap };
        (name_w, if flex >= name_w { (flex - name_w) as nat } else { 0 })
    } else if cols.contains(Column::Name) {
        (flex, 0)
    } else {
        (0, 0)
    }
}

pub open spec fn cell_width(col: Column, name_w: nat, spark_w: nat, cmd_w: nat) -> nat {
    match col {
        Column::Name => name_w,
        Column::Spark => spark_w,
        Column::Command => cmd_w,
        _ => match spec_fixed_width(col) {
            Some(w) => w as nat,
            None => 0,
        },
    }
}

/// Total cell width of `cols`.
pub open spec fn total_width(cols: Seq<Column>, name_w: nat, spark_w: nat, cmd_w: nat) -> nat
    decreases cols.len(),
{
    if cols.len() == 0 {
        0
    } else {
        total_width(cols.drop_last(), name_w, spark_w, cmd_w) + cell_width(
            cols.last(),
            name_w,
            spark_w,
            cmd_w,
        )
    }
}

/// Total cell width of the first `i` columns.
pub open spec fn widths_before(cols: Seq<Column>, i: int, name_w: nat, spark_w: nat, cmd_w: nat) -> nat {
    total_width(cols.take(i), name_w, spark_w, cmd_w)
}

/// Draw-order rank of a column.
pub open spec fn rank(c: Column) -> nat {
    match c {
        Column::Pid => 0,
        Column::Name => 1,
        Column::Spark => 2,
        Column::CpuCore => 3,
        Column::CpuTotal => 4,
        Column::Mem => 5,
        Column::User => 6,
        Column::Command => 7,
    }
}

/// Columns in strict draw order (so none repeats).
pub open spec fn in_draw_order(cols: Seq<Column>) -> bool {
    forall|i: int, j: int| 0 <= i < j < cols.len() ==> rank(#[trigger] cols[i]) < rank(#[trigger] cols[j])
}

/// The segments of a candidate laid out from `x0`, one separator column
/// between neighbours.
pub open spec fn place(cols: Seq<Column>, spark_w: u16, x0: nat, inner: nat) -> Seq<Segment> {
    let (name_w, cmd_w) = flex_widths(cols, spark_w, inner);
    Seq::new(
        cols.len(),
        |i: int|
            Segment {
                col: cols[i],
                x: (x0 + widths_before(cols, i, name_w, spark_w as nat, cmd_w) + i) as u16,
                width: cell_width(cols[i], name_w, spark_w as nat, cmd_w) as u16,
            },
    )
}

/// The first candidate at or after `i` that fits `inner`.
pub open spec fn first_fit(variants: Seq<(Seq<Column>, u16)>, i: int, inner: nat) -> int
    decreases variants.len() - i,
{
    if i < 0 || i >= variants.len() {
        -1
    } else if min_needed(variants[i].0, variants[i].1) <= inner {
        i
    } else {
        first_fit(variants, i + 1, inner)
    }
}

/// The laid-out table row: the first fitting candidate placed from `x0`
/// with its spark width; no columns (and spark 0) when nothing fits.
pub open spec fn spec_layout(
    mode: CpuColumns,
    show_memory: bool,
    show_user: bool,
    show_cmd: bool,
    x0: nat,
    inner: nat,
) -> (Seq<Segment>, u16) {
    let variants = layout_variants(mode, show_memory, show_user, show_cmd);
    let k = first_fit(variants, 0, inner);
    if k < 0 {
        (Seq::empty(), 0)
    } else {
        (place(variants[k].0, variants[k].1, x0, inner), variants[k].1)
    }
}

impl CpuColumns {
    /// The `cpu` option of the processes widget.
    pub fn from_options(opts: &JsonValue) -> (r: CpuColumns)
        ensures
            r == spec_cpu_columns(*opts),
    {
        match string(opts, "cpu") {
            Some(s) => if str_eq(s, "both") {
                CpuColumns::Both
            } else if str_eq(s, "total") {
                CpuColumns::Total
            } else {
                CpuColumns::Core
            },
            None => CpuColumns::Core,
        }
    }

    /// The CPU columns of the mode, in row order.
    pub fn cpu_cols(self) -> (r: Vec<Column>)
        ensures
            r@ == spec_cpu_cols(self),
    {
        match self {
            CpuColumns::Core => vec![Column::CpuCore],
            CpuColumns::Total => vec![Column::CpuTotal],
            CpuColumns::Both => vec![Column::CpuCore, Column::CpuTotal],
        }
    }

    /// The column that stands alone when the width only fits one CPU cell.
    pub fn cpu_solo(self) -> (r: Column)
        ensures
            r == spec_cpu_solo(self),
    {
        match self {
            CpuColumns::Total => Column::CpuTotal,
            _ => Column::CpuCore,
        }
    }
}

impl Column {
    /// The header label of the column under the CPU mode.
    pub fn label(self, mode: CpuColumns) -> (r: &'static str)
        ensures
            r@ == match self {
                Column::Pid => "PID"@,
                Column::Name => "Name"@,
                Column::Spark => "cpu"@,
                Column::CpuCore => if mode == CpuColumns::Both { "CPU"@ } else { "CPU%"@ },
                Column::CpuTotal => "CPU%"@,
                Column::Mem => "Mem"@,
                Column::User => "User"@,
                Column::Command => "Command"@,
            },
    {
        match self {
            Column::Pid => "PID",
            Column::Name => "Name",
            Column::Spark => "cpu",
            Column::CpuCore => if mode == CpuColumns::Both { "CPU" } else { "CPU%" },
            Column::CpuTotal => "CPU%",
            Column::Mem => "Mem",
            Column::User => "User",
            Column::Command => "Command",
        }
    }

    /// Fixed cell width; Name, Spark and Command are flexible.
    pub fn fixed_width(self) -> (r: Option<u16>)
        ensures
            r == spec_fixed_width(self),
    {
        match self {
            Column::Pid => Some(PID_W),
            Column::Name | Column::Spark | Column::Command => None,
            Column::CpuCore | Column::CpuTotal => Some(CPU_W),
            Column::Mem => Some(MEM_W),
            Column::User => Some(USER_W),
        }
    }
}

proof fn lemma_fixed_sum_bound(cols: Seq<Column>)
    ensures
        fixed_sum(cols) <= 10 * cols.len(),
    decreases cols.len(),
{
    if cols.len() > 0 {
        lemma_fixed_sum_bound(cols.drop_last());
    }
}

proof fn lemma_fixed_sum_prefix(cols: Seq<Column>, i: int)
    requires
        0 <= i <= cols.len(),
    ensures
        fixed_sum(cols.take(i)) <= fixed_sum(cols),
    decreases cols.len() - i,
{
    if i < cols.len() {
        lemma_fixed_sum_prefix(cols, i + 1);
        assert(cols.take(i + 1).drop_last() =~= cols.take(i));
    } else {
        assert(cols.take(i) =~= cols);
    }
}

/// Fixed cost of a column list: the fixed widths plus one separator
/// between neighbouring columns.
pub fn fixed_cost(columns: &Vec<Column>) -> (r: u16)
    requires
        spec_fixed_cost(columns@) <= u16::MAX,
    ensures
        r == spec_fixed_cost(columns@),
{
    let mut sum: u16 = 0;
    let mut i: usize = 0;
    while i < columns.len()
        invariant
            i <= columns.len(),
            sum == fixed_sum(columns@.take(i as int)),
            spec_fixed_cost(columns@) <= u16::MAX,
        decreases columns.len() - i,
    {
        proof {
            assert(columns@.take(i + 1).drop_last() =~= columns@.take(i as int));
            lemma_fixed_sum_prefix(columns@, i + 1);
        }
        match columns[i].fixed_width() {
            Some(w) => sum = sum + w,
            None => {},
        }
        i = i + 1;
    }
    assert(columns@.take(columns.len() as int) =~= columns@);
    let seps: u16 = if columns.len() == 0 { 0 } else { (columns.len() - 1) as u16 };
    sum + seps
}

fn has_column(cols: &Vec<Column>, c: Column) -> (r: bool)
    ensures
        r == cols@.contains(c),
{
    let mut i: usize = 0;
    while i < cols.len()
        invariant
            i <= cols.len(),
            forall|j: int| 0 <= j < i ==> cols@[j] != c,
        decreases cols.len() - i,
    {
        if cols[i] == c {
            return true;
        }
        i = i + 1;
    }
    false
}

pub open spec fn flex_part(c: Column, target: Column, w: nat) -> nat {
    if c == target { w } else { 0 }
}

proof fn lemma_total_split(cols: Seq<Column>, nw: nat, sw: nat, cw: nat)
    requires
        in_draw_order(cols),
    ensures
        total_width(cols, nw, sw, cw) == fixed_sum(cols) + (if cols.contains(Column::Name) {
            nw
        } else {
            0
        }) + (if cols.contains(Column::Spark) { sw } else { 0 }) + (if cols.contains(
            Column::Command,
        ) {
            cw
        } else {
            0
        }),
    decreases cols.len(),
{
    if cols.len() > 0 {
        let pre = cols.drop_last();
        assert(in_draw_order(pre)) by {
            assert forall|i: int, j: int| 0 <= i < j < pre.len() implies rank(#[trigger] pre[i])
                < rank(#[trigger] pre[j]) by {
                assert(pre[i] == cols[i] && pre[j] == cols[j]);
            }
        }
        lemma_total_split(pre, nw, sw, cw);
        let last = cols.last();
        assert(!pre.contains(last)) by {
            if pre.contains(last) {
                let k = choose|k: int| 0 <= k < pre.len() && pre[k] == last;
                assert(cols[k] == last);
                assert(rank(cols[k]) < rank(cols[cols.len() - 1]));
            }
        }
        assert forall|c: Column| cols.contains(c) <==> (pre.contains(c) || c == last) by {
            if cols.contains(c) {
                let k = choose|k: int| 0 <= k < cols.len() && cols[k] == c;
                if k < cols.len() - 1 {
                    assert(pre[k] == c);
                }
            }
            if pre.contains(c) {
                let k = choose|k: int| 0 <= k < pre.len() && pre[k] == c;
                assert(cols[k] == c);
            }
        }
    }
}

/// A candidate that fits `inner`: its row of cells and separators spans
/// at most `inner` columns, exactly `inner` when it holds the Name column.
proof fn lemma_widths_total(cols: Seq<Column>, nw: nat, sw: nat, cw: nat, spark_w: u16, inner: nat)
    requires
        in_draw_order(cols),
        cols.len() >= 1,
        min_needed(cols, spark_w) <= inner,
        (nw, cw) == flex_widths(cols, spark_w, inner),
        sw == spark_w,
    ensures
        total_width(cols, nw, sw, cw) + cols.len() - 1 <= inner,
        cols.contains(Column::Name) ==> total_width(cols, nw, sw, cw) + cols.len() - 1 == inner,
{
    lemma_total_split(cols, nw, sw, cw);
}

/// Lay one candidate out (it must fit `inner`).
fn place_columns(cols: &Vec<Column>, spark_w: u16, x0: u16, inner: u16) -> (r: Vec<Segment>)
    requires
        1 <= cols.len() <= 8,
        in_draw_order(cols@),
        min_needed(cols@, spark_w) <= inner,
        x0 + inner <= 65535,
    ensures
        r@ == place(cols@, spark_w, x0 as nat, inner as nat),
        r@.len() == cols@.len(),
        r@[r@.len() - 1].x + r@[r@.len() - 1].width <= x0 + inner,
        cols@.contains(Column::Name) ==> r@[r@.len() - 1].x + r@[r@.len() - 1].width == x0 + inner,
{
    proof { lemma_fixed_sum_bound(cols@); }
    let fixed = fixed_cost(cols);
    let has_spark = has_column(cols, Column::Spark);
    let has_name = has_column(cols, Column::Name);
    let has_cmd = has_column(cols, Column::Command);
    let used = fixed + if has_spark { spark_w } else { 0 };
    let flex = if inner >= used { inner - used } else { 0 };
    let (name_w, cmd_w) = if has_cmd {
        let third = flex / 3;
        let share = if third < NAME_MIN { NAME_MIN } else if third > NAME_MAX { NAME_MAX } else { third };
        let cap = if flex >= CMD_MIN && flex - CMD_MIN >= NAME_MIN { flex - CMD_MIN } else { NAME_MIN };
        let name_w = if share < cap { share } else { cap };
        (name_w, if flex >= name_w { flex - name_w } else { 0 })
    } else if has_name {
        (flex, 0)
    } else {
        (0, 0)
    };
    assert((name_w as nat, cmd_w as nat) == flex_widths(cols@, spark_w, inner as nat));
    let ghost nw = name_w as nat;
    let ghost cw = cmd_w as nat;
    let ghost sw = spark_w as nat;
    proof {
        lemma_widths_total(cols@, nw, sw, cw, spark_w, inner as nat);
        assert(cols@.take(cols@.len() as int) =~= cols@);
    }
    let mut segments: Vec<Segment> = Vec::new();
    let mut x: u32 = x0 as u32;
    let mut i: usize = 0;
    while i < cols.len()
        invariant
            i <= cols.len() <= 8,
            x as nat == x0 + widths_before(cols@, i as int, nw, sw, cw) + i,
            total_width(cols@, nw, sw, cw) + cols@.len() - 1 <= inner,
            cols@.take(cols@.len() as int) == cols@,
            x0 + inner <= 65535,
            nw == name_w,
            cw == cmd_w,
            sw == spark_w,
            (nw, cw) == flex_widths(cols@, spark_w, inner as nat),
            segments@ =~= place(cols@, spark_w, x0 as nat, inner as nat).take(i as int),
        decreases cols.len() - i,
    {
        let col = cols[i];
        let width = match col {
            Column::Name => name_w,
            Column::Spark => spark_w,
            Column::Command => cmd_w,
            other => match other.fixed_width() {
                Some(w) => w,
                None => 0,
            },
        };
        assert(width as nat == cell_width(cols@[i as int], nw, sw, cw));
        proof {
            assert(cols@.take(i + 1).drop_last() =~= cols@.take(i as int));
            lemma_widths_monotone(cols@, (i + 1) as int, cols@.len() as int, nw, sw, cw);
        }
        segments.push(Segment { col, x: x as u16, width });
        x = x + width as u32 + 1;
        i = i + 1;
    }
    proof {
        let n = cols@.len() as int;
        assert(segments@ =~= place(cols@, spark_w, x0 as nat, inner as nat));
        assert(cols@.take(n).drop_last() =~= cols@.take(n - 1));
        assert(widths_before(cols@, n, nw, sw, cw) == widths_before(cols@, n - 1, nw, sw, cw)
            + cell_width(cols@[n - 1], nw, sw, cw));
    }
    segments
}

fn concat_cols(a: &Vec<Column>, b: &Vec<Column>) -> (r: Vec<Column>)
    ensures
        r@ == a@ + b@,
{
    let mut out: Vec<Column> = Vec::new();
    let mut i: usize = 0;
    while i < a.len()
        invariant
            i <= a.len(),
            out@ == a@.take(i as int),
        decreases a.len() - i,
    {
        assert(a@.take(i + 1) =~= a@.take(i as int).push(a@[i as int]));
        out.push(a[i]);
        i = i + 1;
    }
    let mut j: usize = 0;
    while j < b.len()
        invariant
            j <= b.len(),
            out@ == a@.take(a.len() as int) + b@.take(j as int),
        decreases b.len() - j,
    {
        assert(b@.take(j + 1) =~= b@.take(j as int).push(b@[j as int]));
        out.push(b[j]);
        j = j + 1;
    }
    assert(a@.take(a.len() as int) =~= a@);
    assert(b@.take(b.len() as int) =~= b@);
    out
}

fn prefix_cols(a: &Vec<Column>, n: usize) -> (r: Vec<Column>)
    requires
        n <= a.len(),
    ensures
        r@ == a@.take(n as int),
{
    let mut out: Vec<Column> = Vec::new();
    let mut i: usize = 0;
    while i < n
        invariant
            i <= n <= a.len(),
            out@ == a@.take(i as int),
        decreases n - i,
    {
        assert(a@.take(i + 1) =~= a@.take(i as int).push(a@[i as int]));
        out.push(a[i]);
        i = i + 1;
    }
    out
}

proof fn lemma_concat_order(a: Seq<Column>, b: Seq<Column>)
    requires
        in_draw_order(a),
        in_draw_order(b),
        forall|i: int, j: int| 0 <= i < a.len() && 0 <= j < b.len() ==> rank(a[i]) < rank(b[j]),
    ensures
        in_draw_order(a + b),
{
    let c = a + b;
    assert forall|i: int, j: int| 0 <= i < j < c.len() implies rank(#[trigger] c[i]) < rank(
        #[trigger] c[j],
    ) by {
        if j < a.len() {
            assert(c[i] == a[i] && c[j] == a[j]);
        } else if i >= a.len() {
            assert(c[i] == b[i - a.len()] && c[j] == b[j - a.len()]);
        } else {
            assert(c[i] == a[i] && c[j] == b[j - a.len()]);
        }
    }
}

/// The least width a candidate needs (executable).
fn min_needed_exec(cols: &Vec<Column>, spark_w: u16) -> (r: u16)
    requires
        cols.len() <= 8,
        spark_w <= SPARK_W_MAX,
    ensures
        r == min_needed(cols@, spark_w),
{
    proof { lemma_fixed_sum_bound(cols@); }
    let fixed = fixed_cost(cols);
    fixed + (if has_column(cols, Column::Spark) { spark_w } else { 0 }) + (if has_column(
        cols,
        Column::Name,
    ) {
        NAME_MIN
    } else {
        0
    }) + (if has_column(cols, Column::Command) { CMD_MIN } else { 0 })
}

/// The views of the pushed candidates match their specs.
pub open spec fn vec_matches(v: Seq<(Vec<Column>, u16)>, s: Seq<(Seq<Column>, u16)>) -> bool {
    &&& v.len() == s.len()
    &&& forall|i: int| 0 <= i < s.len() ==> (#[trigger] v[i]).0@ == s[i].0 && v[i].1 == s[i].1
        && candidate_ok(s[i])
}

proof fn lemma_extend_relation(
    old_v: Seq<(Vec<Column>, u16)>,
    new_v: Seq<(Vec<Column>, u16)>,
    old_s: Seq<(Seq<Column>, u16)>,
    more: Seq<(Seq<Column>, u16)>,
)
    requires
        vec_matches(old_v, old_s),
        new_v.len() == old_v.len() + more.len(),
        forall|i: int| 0 <= i < old_v.len() ==> new_v[i] == old_v[i],
        forall|i: int| 0 <= i < more.len() ==> (#[trigger] new_v[old_v.len() + i]).0@ == more[i].0
            && new_v[old_v.len() + i].1 == more[i].1 && candidate_ok(more[i]),
    ensures
        vec_matches(new_v, old_s + more),
{
    let s = old_s + more;
    assert forall|i: int| 0 <= i < s.len() implies (#[trigger] new_v[i]).0@ == s[i].0 && new_v[i].1
        == s[i].1 && candidate_ok(s[i]) by {
        if i < old_s.len() {
            assert(new_v[i] == old_v[i]);
        } else {
            let j = i - old_v.len();
            assert(new_v[old_v.len() + j] == new_v[i]);
        }
    }
}

proof fn lemma_literal_candidates_ok(more: Seq<(Seq<Column>, u16)>)
    requires
        forall|i: int| 0 <= i < more.len() ==> 1 <= (#[trigger] more[i]).0.len() <= 4 && more[i].1 <= SPARK_W_MAX
            && forall|a: int, b: int| 0 <= a < b < more[i].0.len() ==> rank(more[i].0[a]) < rank(more[i].0[b]),
    ensures
        forall|i: int| 0 <= i < more.len() ==> candidate_ok(#[trigger] more[i]),
{
}

/// The laid-out row holds the Name column.
pub open spec fn shows_name(segs: Seq<Segment>) -> bool {
    exists|i: int| 0 <= i < segs.len() && #[trigger] segs[i].col == Column::Name
}

/// One candidate, checked: in draw order, 1 to 8 columns.
pub open spec fn candidate_ok(v: (Seq<Column>, u16)) -> bool {
    &&& in_draw_order(v.0)
    &&& 1 <= v.0.len() <= 8
    &&& v.1 <= SPARK_W_MAX
}

/// Choose the visible columns for `inner_width` and lay them out left to
/// right from `x0`; also returns the spark width. The row of the chosen
/// columns (cells plus separators) ends at or before `x0 + inner_width`,
/// exactly there whenever the Name column is shown.
#[verifier::rlimit(40)]
pub fn layout_columns(
    mode: CpuColumns,
    show_memory: bool,
    show_user: bool,
    show_cmd: bool,
    x0: u16,
    inner_width: u16,
) -> (r: (Vec<Segment>, u16))
    requires
        x0 + inner_width <= 65535,
    ensures
        (r.0@, r.1) == spec_layout(mode, show_memory, show_user, show_cmd, x0 as nat, inner_width as nat),
        r.0@.len() > 0 ==> r.0@[r.0@.len() - 1].x + r.0@[r.0@.len() - 1].width <= x0 + inner_width,
        shows_name(r.0@) ==> r.0@[r.0@.len() - 1].x + r.0@[r.0@.len() - 1].width == x0 + inner_width,
{
    let ghost spec_variants = layout_variants(mode, show_memory, show_user, show_cmd);
    let ghost ex_spec = extras(show_memory, show_user, show_cmd);
    // Optional columns in row order.
    let mut ex: Vec<Column> = Vec::new();
    if show_memory {
        ex.push(Column::Mem);
    }
    if show_user {
        ex.push(Column::User);
    }
    if show_cmd {
        ex.push(Column::Command);
    }
    assert(ex@ =~= ex_spec);
    assert(in_draw_order(ex@));
    assert(forall|i: int| 0 <= i < ex@.len() ==> rank(#[trigger] ex@[i]) >= 5);
    let cpu_cols = mode.cpu_cols();
    let solo = mode.cpu_solo();
    let base = vec![Column::Pid, Column::Name, Column::Spark];
    let head = concat_cols(&base, &cpu_cols);
    proof {
        assert(in_draw_order(head@)) by {
            lemma_concat_order(base@, cpu_cols@);
        }
    }
    let mut variants: Vec<(Vec<Column>, u16)> = Vec::new();
    let ghost mut built: Seq<(Seq<Column>, u16)> = Seq::empty();
    let mut k: usize = ex.len() + 1;
    while k > 0
        invariant
            built + ladder(mode, ex_spec, k - 1) == ladder(mode, ex_spec, ex_spec.len() as int),
            k <= ex.len() + 1,
            ex.len() <= 3,
            ex@ == ex_spec,
            in_draw_order(ex@),
            forall|i: int| 0 <= i < ex@.len() ==> rank(#[trigger] ex@[i]) >= 5,
            head@ == seq![Column::Pid, Column::Name, Column::Spark] + spec_cpu_cols(mode),
            in_draw_order(head@),
            2 <= head@.len() <= 5,
            forall|i: int| 0 <= i < head@.len() ==> rank(#[trigger] head@[i]) <= 4,
            variants@.len() == built.len(),
            forall|i: int| 0 <= i < built.len() ==> (#[trigger] variants@[i]).0@ == built[i].0
                && variants@[i].1 == built[i].1 && candidate_ok(built[i]),
        decreases k,
    {
        let cut = k - 1;
        let part = prefix_cols(&ex, cut);
        let cols = concat_cols(&head, &part);
        let cols2 = concat_cols(&head, &part);
        proof {
            assert(in_draw_order(part@)) by {
                assert forall|i: int, j: int| 0 <= i < j < part@.len() implies rank(
                    #[trigger] part@[i],
                ) < rank(#[trigger] part@[j]) by {
                    assert(part@[i] == ex@[i] && part@[j] == ex@[j]);
                }
            }
            assert forall|i: int, j: int| 0 <= i < head@.len() && 0 <= j < part@.len() implies rank(
                head@[i],
            ) < rank(part@[j]) by {
                assert(part@[j] == ex@[j]);
                assert(rank(head@[i]) <= 4);
                assert(rank(ex@[j]) >= 5);
            }
            lemma_concat_order(head@, part@);
        }
        let ghost pair = seq![(cols@, SPARK_W_MAX), (cols2@, SPARK_W_MIN)];
        assert(candidate_ok(pair[0]) && candidate_ok(pair[1]));
        assert(ladder(mode, ex_spec, cut as int) == pair + ladder(mode, ex_spec, cut - 1));
        let ghost old_variants = variants@;
        let ghost old_built = built;
        variants.push((cols, SPARK_W_MAX));
        variants.push((cols2, SPARK_W_MIN));
        proof {
            assert(built + pair + ladder(mode, ex_spec, cut - 1) =~= built + (pair + ladder(mode, ex_spec, cut - 1)));
            built = built + pair;
            assert forall|i: int| 0 <= i < built.len() implies (#[trigger] variants@[i]).0@ == built[i].0
                && variants@[i].1 == built[i].1 && candidate_ok(built[i]) by {
                if i < old_built.len() {
                    assert(variants@[i] == old_variants[i]);
                    assert(built[i] == old_built[i]);
                } else if i == old_built.len() {
                    assert(built[i] == pair[0]);
                } else {
                    assert(built[i] == pair[1]);
                }
            }
        }
        k = k - 1;
    }
    assert(ladder(mode, ex_spec, -1) =~= Seq::<(Seq<Column>, u16)>::empty());
    assert(built =~= built + ladder(mode, ex_spec, -1));
    if mode == CpuColumns::Both {
        let a = vec![Column::Pid, Column::Name, Column::CpuCore, Column::CpuTotal];
        let b = vec![Column::Pid, Column::Name, Column::Spark, Column::CpuCore];
        let b2 = vec![Column::Pid, Column::Name, Column::Spark, Column::CpuCore];
        let ghost more = seq![
            (seq![Column::Pid, Column::Name, Column::CpuCore, Column::CpuTotal], 0u16),
            (seq![Column::Pid, Column::Name, Column::Spark, Column::CpuCore], SPARK_W_MAX),
            (seq![Column::Pid, Column::Name, Column::Spark, Column::CpuCore], SPARK_W_MIN),
        ];
        assert(a@ == more[0].0 && b@ == more[1].0 && b2@ == more[2].0);
        proof {
            lemma_literal_candidates_ok(more);
        }
        let ghost old_variants = variants@;
        let ghost old_built = built;
        variants.push((a, 0));
        variants.push((b, SPARK_W_MAX));
        variants.push((b2, SPARK_W_MIN));
        proof {
            built = built + more;
            lemma_extend_relation(old_variants, variants@, old_built, more);
        }
    }
    let c1 = vec![Column::Pid, Column::Name, solo];
    let c2 = vec![Column::Pid, solo];
    let c3 = vec![Column::Pid];
    let ghost tail = seq![
        (seq![Column::Pid, Column::Name, solo], 0u16),
        (seq![Column::Pid, solo], 0u16),
        (seq![Column::Pid], 0u16),
    ];
    assert(c1@ == tail[0].0 && c2@ == tail[1].0 && c3@ == tail[2].0);
    proof {
        lemma_literal_candidates_ok(tail);
    }
    let ghost old_variants = variants@;
    let ghost old_built = built;
    variants.push((c1, 0));
    variants.push((c2, 0));
    variants.push((c3, 0));
    proof {
        built = built + tail;
        lemma_extend_relation(old_variants, variants@, old_built, tail);
        assert(built =~= spec_variants);
        assert(vec_matches(variants@, spec_variants));
    }
    let mut k: usize = 0;
    while k < variants.len()
        invariant
            k <= variants.len(),
            variants@.len() == spec_variants.len(),
            forall|i: int| 0 <= i < spec_variants.len() ==> (#[trigger] variants@[i]).0@
                == spec_variants[i].0 && variants@[i].1 == spec_variants[i].1 && candidate_ok(
                spec_variants[i],
            ),
            first_fit(spec_variants, 0, inner_width as nat) == first_fit(spec_variants, k as int, inner_width as nat),
            spec_variants == layout_variants(mode, show_memory, show_user, show_cmd),
            x0 + inner_width <= 65535,
        decreases variants.len() - k,
    {
        let spark_w = variants[k].1;
        if min_needed_exec(&variants[k].0, spark_w) <= inner_width {
            let segments = place_columns(&variants[k].0, spark_w, x0, inner_width);
            proof {
                assert(first_fit(spec_variants, k as int, inner_width as nat) == k);
                assert(variants@[k as int].0@ == spec_variants[k as int].0);
                assert(spark_w == spec_variants[k as int].1);

                let cols = spec_variants[k as int].0;
                if shows_name(segments@) {
                    let i = choose|i: int| 0 <= i < segments@.len() && segments@[i].col == Column::Name;
                    assert(cols[i] == Column::Name);
                    assert(cols.contains(Column::Name));
                }
            }
            return (segments, spark_w);
        }
        k = k + 1;
    }
    (Vec::new(), 0)
}

proof fn lemma_widths_monotone(cols: Seq<Column>, i: int, j: int, nw: nat, sw: nat, cw: nat)
    requires
        0 <= i <= j <= cols.len(),
    ensures
        widths_before(cols, i, nw, sw, cw) <= widths_before(cols, j, nw, sw, cw),
    decreases j - i,
{
    if i < j {
        lemma_widths_monotone(cols, i, j - 1, nw, sw, cw);
        assert(cols.take(j).drop_last() =~= cols.take(j - 1));
    }
}

proof fn lemma_pid_first_cost(cols: Seq<Column>)
    requires
        cols.len() >= 1,
        cols[0] == Column::Pid,
    ensures
        fixed_sum(cols) >= PID_W,
    decreases cols.len(),
{
    if cols.len() == 1 {
        assert(cols.drop_last() =~= Seq::<Column>::empty());
    } else {
        lemma_pid_first_cost(cols.drop_last());
    }
}

/// Every candidate before the first fitting one is too wide, the first
/// fitting one fits, and with none fitting every candidate from `i` on is
/// too wide.
proof fn lemma_first_fit_skips(variants: Seq<(Seq<Column>, u16)>, i: int, w: nat)
    requires
        0 <= i,
    ensures
        first_fit(variants, i, w) == -1 || i <= first_fit(variants, i, w) < variants.len(),
        first_fit(variants, i, w) >= 0 ==> min_needed(
            variants[first_fit(variants, i, w)].0,
            variants[first_fit(variants, i, w)].1,
        ) <= w,
        forall|j: int|
            i <= j < variants.len() && (first_fit(variants, i, w) < 0 || j < first_fit(variants, i, w))
                ==> min_needed(#[trigger] variants[j].0, variants[j].1) > w,
    decreases variants.len() - i,
{
    if i < variants.len() && min_needed(variants[i].0, variants[i].1) > w {
        lemma_first_fit_skips(variants, i + 1, w);
    }
}

/// The shape of a laid-out candidate: it starts at `x0` with its first
/// column, every next cell starts one separator after the previous one
/// ends, and a Spark cell is `spark_w` wide.
proof fn lemma_place_shape(cols: Seq<Column>, spark_w: u16, x0: nat, inner: nat)
    requires
        in_draw_order(cols),
        cols.len() >= 1,
        min_needed(cols, spark_w) <= inner,
        x0 + inner <= 65535,
    ensures
        ({
            let segs = place(cols, spark_w, x0, inner);
            let (nw, cw) = flex_widths(cols, spark_w, inner);
            &&& segs[0].x == x0
            &&& segs[0].col == cols[0]
            &&& segs[0].width == cell_width(cols[0], nw, spark_w as nat, cw)
            &&& forall|i: int| 0 < i < segs.len() ==> #[trigger] segs[i].x == segs[i - 1].x + segs[i - 1].width + 1
            &&& forall|i: int| 0 <= i < segs.len() && #[trigger] segs[i].col == Column::Spark ==> segs[i].width
                == spark_w
        }),
{
    let (nw, cw) = flex_widths(cols, spark_w, inner);
    let sw = spark_w as nat;
    let segs = place(cols, spark_w, x0, inner);
    lemma_widths_total(cols, nw, sw, cw, spark_w, inner);
    assert(cols.take(cols.len() as int) =~= cols);
    assert(cols.take(0) =~= Seq::<Column>::empty());
    assert(cols.take(1).drop_last() =~= cols.take(0));
    lemma_widths_monotone(cols, 1, cols.len() as int, nw, sw, cw);
    assert forall|i: int| 0 < i < segs.len() implies #[trigger] segs[i].x == segs[i - 1].x + segs[i - 1].width + 1 by {
        assert(cols.take(i).drop_last() =~= cols.take(i - 1));
        lemma_widths_monotone(cols, i, cols.len() as int, nw, sw, cw);
        lemma_widths_monotone(cols, i - 1, i, nw, sw, cw);
    }
}

/// A rung of the drop ladder: a checked candidate that starts with PID and
/// asks for a spark width only when it shows the spark.
pub open spec fn rung_ok(v: (Seq<Column>, u16)) -> bool {
    &&& candidate_ok(v)
    &&& v.0[0] == Column::Pid
    &&& (v.0.contains(Column::Spark) || v.1 == 0)
}

proof fn lemma_extras_ok(show_memory: bool, show_user: bool, show_cmd: bool)
    ensures
        ({
            let ex = extras(show_memory, show_user, show_cmd);
            &&& in_draw_order(ex)
            &&& ex.len() <= 3
            &&& forall|i: int| 0 <= i < ex.len() ==> rank(#[trigger] ex[i]) >= 5
        }),
{
    let ex = extras(show_memory, show_user, show_cmd);
    if show_memory {
        if show_user {
            if show_cmd {
                assert(ex =~= seq![Column::Mem, Column::User, Column::Command]);
            } else {
                assert(ex =~= seq![Column::Mem, Column::User]);
            }
        } else if show_cmd {
            assert(ex =~= seq![Column::Mem, Column::Command]);
        } else {
            assert(ex =~= seq![Column::Mem]);
        }
    } else if show_user {
        if show_cmd {
            assert(ex =~= seq![Column::User, Column::Command]);
        } else {
            assert(ex =~= seq![Column::User]);
        }
    } else if show_cmd {
        assert(ex =~= seq![Column::Command]);
    } else {
        assert(ex =~= Seq::<Column>::empty());
    }
}

proof fn lemma_head_order(mode: CpuColumns)
    ensures
        ({
            let head = seq![Column::Pid, Column::Name, Column::Spark] + spec_cpu_cols(mode);
            &&& in_draw_order(head)
            &&& 4 <= head.len() <= 5
            &&& head[0] == Column::Pid
            &&& head[2] == Column::Spark
            &&& forall|i: int| 0 <= i < head.len() ==> rank(#[trigger] head[i]) <= 4
        }),
{
    let head = seq![Column::Pid, Column::Name, Column::Spark] + spec_cpu_cols(mode);
    match mode {
        CpuColumns::Core => {
            assert(head =~= seq![Column::Pid, Column::Name, Column::Spark, Column::CpuCore]);
        },
        CpuColumns::Total => {
            assert(head =~= seq![Column::Pid, Column::Name, Column::Spark, Column::CpuTotal]);
        },
        CpuColumns::Both => {
            assert(head =~= seq![Column::Pid, Column::Name, Column::Spark, Column::CpuCore, Column::CpuTotal]);
        },
    }
}

proof fn lemma_ladder_ok(mode: CpuColumns, ex: Seq<Column>, cut: int)
    requires
        in_draw_order(ex),
        ex.len() <= 3,
        forall|i: int| 0 <= i < ex.len() ==> rank(#[trigger] ex[i]) >= 5,
        cut <= ex.len(),
    ensures
        forall|i: int| 0 <= i < ladder(mode, ex, cut).len() ==> rung_ok(#[trigger] ladder(mode, ex, cut)[i]),
    decreases cut + 1,
{
    if cut >= 0 {
        lemma_ladder_ok(mode, ex, cut - 1);
        lemma_head_order(mode);
        let head = seq![Column::Pid, Column::Name, Column::Spark] + spec_cpu_cols(mode);
        let part = ex.take(cut);
        assert(in_draw_order(part)) by {
            assert forall|i: int, j: int| 0 <= i < j < part.len() implies rank(#[trigger] part[i]) < rank(
                #[trigger] part[j],
            ) by {
                assert(part[i] == ex[i] && part[j] == ex[j]);
            }
        }
        assert forall|i: int, j: int| 0 <= i < head.len() && 0 <= j < part.len() implies rank(head[i])
            < rank(part[j]) by {
            assert(part[j] == ex[j]);
            assert(rank(head[i]) <= 4);
        }
        lemma_concat_order(head, part);
        let cols = head + part;
        assert(cols[0] == Column::Pid && cols[2] == Column::Spark);
        assert(cols.contains(Column::Spark));
        let pair = seq![(cols, SPARK_W_MAX), (cols, SPARK_W_MIN)];
        let rest = ladder(mode, ex, cut - 1);
        assert(rung_ok(pair[0]) && rung_ok(pair[1]));
        assert forall|i: int| 0 <= i < (pair + rest).len() implies rung_ok(#[trigger] (pair + rest)[i]) by {
            if i >= 2 {
                assert((pair + rest)[i] == rest[i - 2]);
            }
        }
    }
}

proof fn lemma_literal_rungs(more: Seq<(Seq<Column>, u16)>)
    requires
        forall|i: int| 0 <= i < more.len() ==> 1 <= (#[trigger] more[i]).0.len() <= 4 && more[i].1 <= SPARK_W_MAX
            && forall|a: int, b: int| 0 <= a < b < more[i].0.len() ==> rank(more[i].0[a]) < rank(more[i].0[b]),
        forall|i: int| 0 <= i < more.len() ==> (#[trigger] more[i]).0[0] == Column::Pid && (more[i].1 == 0
            || more[i].0.contains(Column::Spark)),
    ensures
        forall|i: int| 0 <= i < more.len() ==> rung_ok(#[trigger] more[i]),
{
}

/// Every candidate of the ladder is a rung, and the ladder ends with PID
/// alone.
proof fn lemma_variants_ok(mode: CpuColumns, show_memory: bool, show_user: bool, show_cmd: bool)
    ensures
        ({
            let v = layout_variants(mode, show_memory, show_user, show_cmd);
            &&& v.len() >= 1
            &&& v[v.len() - 1] == (seq![Column::Pid], 0u16)
            &&& forall|i: int| 0 <= i < v.len() ==> rung_ok(#[trigger] v[i])
        }),
{
    let ex = extras(show_memory, show_user, show_cmd);
    lemma_extras_ok(show_memory, show_user, show_cmd);
    lemma_ladder_ok(mode, ex, ex.len() as int);
    let lad = ladder(mode, ex, ex.len() as int);
    let both: Seq<(Seq<Column>, u16)> = if mode == CpuColumns::Both {
        seq![
            (seq![Column::Pid, Column::Name, Column::CpuCore, Column::CpuTotal], 0u16),
            (seq![Column::Pid, Column::Name, Column::Spark, Column::CpuCore], SPARK_W_MAX),
            (seq![Column::Pid, Column::Name, Column::Spark, Column::CpuCore], SPARK_W_MIN),
        ]
    } else {
        Seq::empty()
    };
    let solo = spec_cpu_solo(mode);
    let tail = seq![
        (seq![Column::Pid, Column::Name, solo], 0u16),
        (seq![Column::Pid, solo], 0u16),
        (seq![Column::Pid], 0u16),
    ];
    if mode == CpuColumns::Both {
        assert(both[1].0[2] == Column::Spark && both[2].0[2] == Column::Spark);
        assert(both[1].0.contains(Column::Spark) && both[2].0.contains(Column::Spark));
    }
    lemma_literal_rungs(both);
    lemma_literal_rungs(tail);
    let v = lad + both + tail;
    assert(v == layout_variants(mode, show_memory, show_user, show_cmd));
    assert forall|i: int| 0 <= i < v.len() implies rung_ok(#[trigger] v[i]) by {
        if i < lad.len() {
            assert(v[i] == lad[i]);
        } else if i < lad.len() + both.len() {
            assert(v[i] == both[i - lad.len()]);
        } else {
            assert(v[i] == tail[i - lad.len() - both.len()]);
        }
    }
    assert(v[v.len() - 1] == tail[2]);
}

proof fn lemma_pid_alone()
    ensures
        min_needed(seq![Column::Pid], 0) == PID_W,
{
    let last = seq![Column::Pid];
    assert(last.drop_last() =~= Seq::<Column>::empty());
    assert(!last.contains(Column::Spark) && !last.contains(Column::Name) && !last.contains(Column::Command)) by {
        assert forall|c: Column| #[trigger] last.contains(c) implies c == Column::Pid by {
            let i = choose|i: int| 0 <= i < last.len() && last[i] == c;
            assert(i == 0);
        }
    }
    assert(last.len() == 1 && last.last() == Column::Pid);
    assert(fixed_sum(last.drop_last()) == 0);
    assert(fixed_sum(last) == PID_W);
    assert(spec_fixed_cost(last) == PID_W);
}

/// The row `layout_columns` lays out, with its spark width: no columns
/// exactly when the width is under the PID column's; otherwise PID comes
/// first, at `x0` and its fixed width, every next cell starts one
/// separator after the previous one ends, a spark cell is exactly the
/// spark width, and the spark width is 0 when no spark cell is shown.
pub proof fn layout_row_shape(
    mode: CpuColumns,
    show_memory: bool,
    show_user: bool,
    show_cmd: bool,
    x0: nat,
    inner: nat,
)
    requires
        x0 + inner <= 65535,
    ensures
        ({
            let (segs, sw) = spec_layout(mode, show_memory, show_user, show_cmd, x0, inner);
            &&& (segs.len() == 0) == (inner < PID_W)
            &&& segs.len() > 0 ==> segs[0] == (Segment { col: Column::Pid, x: x0 as u16, width: PID_W })
            &&& forall|i: int| 0 < i < segs.len() ==> #[trigger] segs[i].x == segs[i - 1].x + segs[i - 1].width + 1
            &&& forall|i: int| 0 <= i < segs.len() && #[trigger] segs[i].col == Column::Spark ==> segs[i].width == sw
            &&& (forall|i: int| 0 <= i < segs.len() ==> #[trigger] segs[i].col != Column::Spark) ==> sw == 0
        }),
{
    let v = layout_variants(mode, show_memory, show_user, show_cmd);
    let k = first_fit(v, 0, inner);
    lemma_variants_ok(mode, show_memory, show_user, show_cmd);
    lemma_first_fit_skips(v, 0, inner);
    if k < 0 {
        lemma_pid_alone();
        assert(min_needed(v[v.len() - 1].0, v[v.len() - 1].1) > inner);
    } else {
        let cols = v[k].0;
        let sw = v[k].1;
        assert(rung_ok(v[k]));
        lemma_pid_first_cost(cols);
        lemma_place_shape(cols, sw, x0, inner);
        let segs = place(cols, sw, x0, inner);
        if forall|i: int| 0 <= i < segs.len() ==> #[trigger] segs[i].col != Column::Spark {
            if cols.contains(Column::Spark) {
                let i = choose|i: int| 0 <= i < cols.len() && cols[i] == Column::Spark;
                assert(segs[i].col == Column::Spark);
            }
        }
    }
}

/// A laid-out row as `(column, width)` cells.
pub open spec fn cells_of(segs: Seq<Segment>) -> Seq<(Column, u16)> {
    segs.map_values(|g: Segment| (g.col, g.width))
}

/// Sum of the cell widths.
pub open spec fn cells_width(cells: Seq<(Column, u16)>) -> nat
    decreases cells.len(),
{
    if cells.len() == 0 {
        0
    } else {
        cells_width(cells.drop_last()) + cells.last().1 as nat
    }
}

proof fn lemma_cells_width(cols: Seq<Column>, spark_w: u16, x0: nat, inner: nat, n: int)
    requires
        in_draw_order(cols),
        cols.len() >= 1,
        min_needed(cols, spark_w) <= inner,
        x0 + inner <= 65535,
        0 <= n <= cols.len(),
    ensures
        ({
            let (nw, cw) = flex_widths(cols, spark_w, inner);
            cells_width(cells_of(place(cols, spark_w, x0, inner)).take(n)) == widths_before(
                cols,
                n,
                nw,
                spark_w as nat,
                cw,
            )
        }),
    decreases n,
{
    let (nw, cw) = flex_widths(cols, spark_w, inner);
    let sw = spark_w as nat;
    let cells = cells_of(place(cols, spark_w, x0, inner));
    if n == 0 {
        assert(cells.take(0) =~= Seq::<(Column, u16)>::empty());
        assert(cols.take(0) =~= Seq::<Column>::empty());
    } else {
        lemma_cells_width(cols, spark_w, x0, inner, n - 1);
        assert(cells.take(n).drop_last() =~= cells.take(n - 1));
        assert(cols.take(n).drop_last() =~= cols.take(n - 1));
        lemma_widths_total(cols, nw, sw, cw, spark_w, inner);
        assert(cols.take(cols.len() as int) =~= cols);
        lemma_widths_monotone(cols, n, cols.len() as int, nw, sw, cw);
        assert(cell_width(cols[n - 1], nw, sw, cw) <= inner);
    }
}

/// The columns `pick_layout` returns: none exactly when the width is under
/// the PID column's; otherwise PID first at its fixed width, the cells with
/// one separator between neighbours fit the width and fill it exactly when
/// Name is shown, and the columns are those of the first rung of the drop
/// ladder that fits, every earlier rung being too wide.
pub proof fn pick_layout_fits(mode: CpuColumns, show_mem: bool, show_user: bool, show_cmd: bool, width: nat)
    requires
        width <= 65535,
    ensures
        ({
            let cells = cells_of(spec_layout(mode, show_mem, show_user, show_cmd, 0, width).0);
            let v = layout_variants(mode, show_mem, show_user, show_cmd);
            let k = first_fit(v, 0, width);
            &&& (cells.len() == 0) == (width < PID_W)
            &&& cells.len() > 0 ==> {
                &&& cells[0] == (Column::Pid, PID_W)
                &&& cells_width(cells) + cells.len() - 1 <= width
                &&& (exists|i: int| 0 <= i < cells.len() && #[trigger] cells[i].0 == Column::Name)
                    ==> cells_width(cells) + cells.len() - 1 == width
                &&& 0 <= k < v.len()
                &&& cells.map_values(|c: (Column, u16)| c.0) == v[k].0
                &&& forall|j: int| 0 <= j < k ==> min_needed(#[trigger] v[j].0, v[j].1) > width
            }
        }),
{
    layout_row_shape(mode, show_mem, show_user, show_cmd, 0, width);
    let v = layout_variants(mode, show_mem, show_user, show_cmd);
    let k = first_fit(v, 0, width);
    lemma_variants_ok(mode, show_mem, show_user, show_cmd);
    lemma_first_fit_skips(v, 0, width);
    if k >= 0 {
        let cols = v[k].0;
        let sw = v[k].1;
        assert(rung_ok(v[k]));
        let (nw, cw) = flex_widths(cols, sw, width);
        let segs = place(cols, sw, 0, width);
        let cells = cells_of(segs);
        lemma_cells_width(cols, sw, 0, width, cols.len() as int);
        assert(cells.take(cells.len() as int) =~= cells);
        assert(cols.take(cols.len() as int) =~= cols);
        lemma_widths_total(cols, nw, sw as nat, cw, sw, width);
        assert(cells.map_values(|c: (Column, u16)| c.0) =~= cols);
        if exists|i: int| 0 <= i < cells.len() && #[trigger] cells[i].0 == Column::Name {
            let i = choose|i: int| 0 <= i < cells.len() && #[trigger] cells[i].0 == Column::Name;
            assert(cols[i] == Column::Name);
            assert(cols.contains(Column::Name));
        }
    }
}

/// The ASCII pack's table columns: the same drop ladder with each column's
/// exact width (no positions); `None` when not even the PID column fits.
pub fn pick_layout(
    mode: CpuColumns,
    show_mem: bool,
    show_user: bool,
    show_cmd: bool,
    width: u16,
) -> (r: Option<Vec<(Column, u16)>>)
    ensures
        ({
            let segs = spec_layout(mode, show_mem, show_user, show_cmd, 0, width as nat).0;
            match r {
                Some(cols) => segs.len() > 0 && cols@ == cells_of(segs),
                None => segs.len() == 0,
            }
        }),
{
    let (segments, _spark) = layout_columns(mode, show_mem, show_user, show_cmd, 0, width);
    if segments.len() == 0 {
        return None;
    }
    let mut out: Vec<(Column, u16)> = Vec::new();
    let mut i: usize = 0;
    while i < segments.len()
        invariant
            i <= segments.len(),
            out@ == segments@.take(i as int).map_values(|g: Segment| (g.col, g.width)),
        decreases segments.len() - i,
    {
        assert(segments@.take(i + 1).map_values(|g: Segment| (g.col, g.width)) =~= segments@.take(
            i as int,
        ).map_values(|g: Segment| (g.col, g.width)).push((segments@[i as int].col, segments@[i as int].width)));
        out.push((segments[i].col, segments[i].width));
        i = i + 1;
    }
    assert(segments@.take(segments@.len() as int) =~= segments@);
    assert(out@ == cells_of(segments@));
    Some(out)
}

/// Window start around the selected index: the selection is always inside
/// the window, the window starts at row 0 while the selection is near the
/// top and keeps about half a screen of context after a jump.
pub fn window_start(sel_idx: usize, n: usize, view_h: usize) -> (start: usize)
    ensures
        start == (if n <= view_h {
            0
        } else {
            let lifted: int = if sel_idx >= view_h / 2 { sel_idx - view_h / 2 } else { 0 };
            if lifted < n - view_h { lifted } else { n - view_h }
        }),
        n > view_h ==> start + view_h <= n,
        sel_idx < n && view_h > 0 ==> start <= sel_idx < start + view_h,
{
    if n <= view_h {
        0
    } else {
        let lifted = if sel_idx >= view_h / 2 { sel_idx - view_h / 2 } else { 0 };
        if lifted < n - view_h { lifted } else { n - view_h }
    }
}

/// The rows `[top, bottom]` of the scrollbar thumb of a windowed list of
/// `n` rows shown `view_h` at a time from `start`.
pub fn scrollbar_thumb(start: usize, n: usize, view_h: usize) -> (r: (usize, usize))
    requires
        n > 0,
        start <= n,
        n * view_h <= usize::MAX,
    ensures
        r.0 == (start as int * view_h as int) / (n as int),
        r.1 == (if start + view_h < n { start + view_h } else { n as int }) * view_h as int / (n as int),
        r.0 <= r.1 <= view_h,
{
    let end = if view_h < n - start { start + view_h } else { n };
    proof {
        vstd::arithmetic::mul::lemma_mul_inequality(start as int, end as int, view_h as int);
        vstd::arithmetic::mul::lemma_mul_inequality(end as int, n as int, view_h as int);
        vstd::arithmetic::div_mod::lemma_div_is_ordered((start * view_h) as int, (end * view_h) as int, n as int);
        vstd::arithmetic::div_mod::lemma_div_is_ordered((end * view_h) as int, (n * view_h) as int, n as int);
        vstd::arithmetic::div_mod::lemma_div_multiples_vanish(view_h as int, n as int);
        vstd::arithmetic::mul::lemma_mul_is_commutative(n as int, view_h as int);
    }
    (start * view_h / n, end * view_h / n)
}

/// Which column carries the sort marker for the kernel's sort label
/// (`"PID"`, `"Name"`, `"Mem"`, `"CPU%"`): CPU sorts mark the core-basis
/// column whenever it exists; `"Mem"` only while the Mem column is on.
pub fn sorted_column(sort_label: &str, mode: CpuColumns, show_memory: bool) -> (r: Option<Column>)
    ensures
        r == (if sort_label@ == "PID"@ {
            Some(Column::Pid)
        } else if sort_label@ == "Name"@ {
            Some(Column::Name)
        } else if sort_label@ == "CPU%"@ {
            if mode == CpuColumns::Total { Some(Column::CpuTotal) } else { Some(Column::CpuCore) }
        } else if sort_label@ == "Mem"@ && show_memory {
            Some(Column::Mem)
        } else {
            None
        }),
{
    if str_eq(sort_label, "PID") {
        Some(Column::Pid)
    } else if str_eq(sort_label, "Name") {
        Some(Column::Name)
    } else if str_eq(sort_label, "CPU%") {
        match mode {
            CpuColumns::Core => Some(Column::CpuCore),
            CpuColumns::Total => Some(Column::CpuTotal),
            CpuColumns::Both => Some(Column::CpuCore),
        }
    } else if str_eq(sort_label, "Mem") && show_memory {
        Some(Column::Mem)
    } else {
        None
    }
}

/// The `columns` toggles `(memory, user, cmd)` of one option object: each
/// defaults to `true` unless the member is a bool.
pub open spec fn toggles_of(obj: JsonValue) -> (bool, bool, bool) {
    (
        match opt_bool(obj, "memory"@) { Some(b) => b, None => true },
        match opt_bool(obj, "user"@) { Some(b) => b, None => true },
        match opt_bool(obj, "cmd"@) { Some(b) => b, None => true },
    )
}

/// The `columns` option object (all three toggles default `true`).
pub fn column_toggles(opts: Option<&JsonValue>) -> (r: (bool, bool, bool))
    ensures
        r == (match opts {
            Some(o) => match json_get(*o, "columns"@) {
                Some(obj) => match obj {
                    JsonValue::Object(_) => toggles_of(obj),
                    _ => (true, true, true),
                },
                None => (true, true, true),
            },
            None => (true, true, true),
        }),
{
    let obj = match opts {
        Some(o) => match o.get("columns") {
            Some(v) => v,
            None => return (true, true, true),
        },
        None => return (true, true, true),
    };
    match obj {
        JsonValue::Object(_) => {
            let memory = match crate::options::boolean(obj, "memory") { Some(b) => b, None => true };
            let user = match crate::options::boolean(obj, "user") { Some(b) => b, None => true };
            let cmd = match crate::options::boolean(obj, "cmd") { Some(b) => b, None => true };
            (memory, user, cmd)
        },
        _ => (true, true, true),
    }
}

/// The `zebra` option (alternate row backgrounds), `true` unless set.
pub fn zebra_rows(opts: Option<&JsonValue>) -> (r: bool)
    ensures
        r == (match opts {
            Some(o) => match opt_bool(*o, "zebra"@) { Some(b) => b, None => true },
            None => true,
        }),
{
    match opts {
        Some(o) => match crate::options::boolean(o, "zebra") {
            Some(b) => b,
            None => true,
        },
        None => true,
    }
}

/// The CPU basis of the table: the core basis without options.
pub fn cpu_mode(opts: Option<&JsonValue>) -> (r: CpuColumns)
    ensures
        r == (match opts {
            Some(o) => spec_cpu_columns(*o),
            None => CpuColumns::Core,
        }),
{
    match opts {
        Some(o) => CpuColumns::from_options(o),
        None => CpuColumns::Core,
    }
}

/// `parts` joined with single spaces.
pub open spec fn joined(parts: Seq<Seq<char>>) -> Seq<char>
    decreases parts.len(),
{
    if parts.len() == 0 {
        Seq::empty()
    } else if parts.len() == 1 {
        parts[0]
    } else {
        joined(parts.drop_last()) + seq![' '] + parts.last()
    }
}

pub open spec fn command_line(cmd_full: Seq<Seq<char>>, cmd: Seq<char>, exe_path: Option<Seq<char>>) -> Seq<char> {
    if cmd_full.len() > 0 {
        joined(cmd_full)
    } else if cmd.len() > 0 {
        cmd
    } else {
        match exe_path {
            Some(exe) => exe,
            None => seq!['?'],
        }
    }
}

/// The full command line of a process: the argument vector joined with
/// spaces when the kernel filled it, the single `cmd` otherwise, then the
/// executable path, `?` when nothing is known.
pub fn command_text(cmd_full: &Vec<String>, cmd: &str, exe_path: Option<&str>) -> (r: String)
    ensures
        r@ == command_line(cmd_full@.map_values(|s: String| s@), cmd@, crate::options::str_view(exe_path)),
{
    let ghost parts = cmd_full@.map_values(|s: String| s@);
    if cmd_full.len() > 0 {
        let mut out = String::new();
        let mut i: usize = 0;
        while i < cmd_full.len()
            invariant
                i <= cmd_full.len(),
                parts == cmd_full@.map_values(|s: String| s@),
                out@ == joined(parts.take(i as int)),
            decreases cmd_full.len() - i,
        {
            let ghost before = out@;
            if i > 0 {
                push_char(&mut out, ' ');
            }
            push_str(&mut out, cmd_full[i].as_str());
            assert(parts[i as int] == cmd_full@[i as int]@);
            assert(parts.take(i + 1).drop_last() =~= parts.take(i as int));
            assert(parts.take(i + 1).last() == parts[i as int]);
            if i == 0 {
                assert(parts.take(1) =~= seq![parts[0]]);
                assert(out@ =~= joined(parts.take(1)));
            } else {
                assert(out@ =~= before + seq![' '] + parts[i as int]);
                assert(out@ =~= joined(parts.take(i + 1)));
            }
            i = i + 1;
        }
        assert(parts.take(cmd_full.len() as int) =~= parts);
        assert(parts.len() > 0);
        out
    } else if cmd.unicode_len() > 0 {
        let mut out = String::new();
        push_str(&mut out, cmd);
        assert(out@ =~= cmd@);
        out
    } else {
        match exe_path {
            Some(exe) => {
                let mut out = String::new();
                push_str(&mut out, exe);
                assert(out@ =~= exe@);
                out
            },
            None => {
                let mut out = String::new();
                push_char(&mut out, '?');
                assert(out@ =~= seq!['?']);
                out
            },
        }
    }
}

/// The numeric uid of a process's user id string, when it parses as `u32`
/// (the kernel's login-name lookup is keyed by it).
pub fn user_uid(user_id: &str) -> (r: Option<u32>)
    ensures
        r == parse_u32(user_id@),
{
    parse_u32_text(user_id)
}

pub open spec fn user_label(user_id: Option<Seq<char>>, login: Option<Seq<char>>) -> Seq<char> {
    match user_id {
        Some(uid) => match parse_u32(uid) {
            Some(_) => match login {
                Some(name) => name,
                None => uid,
            },
            None => uid,
        },
        None => seq!['?'],
    }
}

/// The User cell: the login name the kernel resolved for the numeric uid
/// (`login`, looked up with [`user_uid`]) when it has one, the raw user id
/// otherwise (never fabricated); `?` without a user id.
pub fn user_text(user_id: Option<&str>, login: Option<&str>) -> (r: String)
    ensures
        r@ == user_label(crate::options::str_view(user_id), crate::options::str_view(login)),
{
    let mut out = String::new();
    match user_id {
        Some(uid) => match user_uid(uid) {
            Some(_) => match login {
                Some(name) => push_str(&mut out, name),
                None => push_str(&mut out, uid),
            },
            None => push_str(&mut out, uid),
        },
        None => push_char(&mut out, '?'),
    }
    assert(out@ =~= user_label(crate::options::str_view(user_id), crate::options::str_view(login)));
    out
}

pub open spec fn title_text(tag: Seq<char>, query: Seq<char>, sort_label: Seq<char>, desc: bool) -> Seq<char> {
    if query.len() > 0 {
        "Processes ("@ + tag + "filter: "@ + query + ")"@
    } else {
        "Processes ("@ + tag + "sort: "@ + sort_label + seq![' '] + (if desc { seq!['▼'] } else { seq!['▲'] }) + ")"@
    }
}

/// The widget title: the active filter, else the sort column and its
/// direction marker (`▼` descending, `▲` ascending); `tag` is the pack's
/// caption inside the brackets (empty for the base pack, `blocks, ` for
/// the ASCII one).
pub fn process_title(tag: &str, query: &str, sort_label: &str, desc: bool) -> (r: String)
    ensures
        r@ == title_text(tag@, query@, sort_label@, desc),
{
    let mut out = String::new();
    push_str(&mut out, "Processes (");
    push_str(&mut out, tag);
    if query.unicode_len() > 0 {
        push_str(&mut out, "filter: ");
        push_str(&mut out, query);
        push_str(&mut out, ")");
        assert(out@ =~= "Processes ("@ + tag@ + "filter: "@ + query@ + ")"@);
    } else {
        let mark = if desc { '▼' } else { '▲' };
        push_str(&mut out, "sort: ");
        push_str(&mut out, sort_label);
        push_char(&mut out, ' ');
        push_char(&mut out, mark);
        push_str(&mut out, ")");
        assert(out@ =~= "Processes ("@ + tag@ + "sort: "@ + sort_label@ + seq![' '] + seq![mark] + ")"@);
    }
    assert(out@ =~= title_text(tag@, query@, sort_label@, desc));
    out
}

/// The header text of one column: its label (the spark caption only when
/// the spark column is wide enough for it) and, in the sorted column, the
/// direction marker (`▼` descending, `▲` ascending).
pub open spec fn header_text(col: Column, width: nat, mode: CpuColumns, sorted: Option<Column>, desc: bool) -> Seq<char> {
    let label = column_label(col, mode);
    let shown = if col == Column::Spark && width < byte_width(label) { seq![] } else { label };
    if sorted == Some(col) {
        shown + seq![' '] + if desc { seq!['▼'] } else { seq!['▲'] }
    } else {
        shown
    }
}

pub open spec fn column_label(col: Column, mode: CpuColumns) -> Seq<char> {
    match col {
        Column::Pid => "PID"@,
        Column::Name => "Name"@,
        Column::Spark => "cpu"@,
        Column::CpuCore => if mode == CpuColumns::Both { "CPU"@ } else { "CPU%"@ },
        Column::CpuTotal => "CPU%"@,
        Column::Mem => "Mem"@,
        Column::User => "User"@,
        Column::Command => "Command"@,
    }
}

/// The header cells of the laid-out columns: each text right-aligned in its
/// cell (by bytes, as the cells are measured).
pub fn header_cells(segments: &Vec<Segment>, mode: CpuColumns, sorted: Option<Column>, desc: bool) -> (r: Vec<(u16, String)>)
    requires
        forall|k: int| 0 <= k < segments@.len() ==> #[trigger] segments@[k].x + segments@[k].width <= u16::MAX,
    ensures
        r@.len() == segments@.len(),
        forall|k: int| 0 <= k < r@.len() ==> {
            let g = #[trigger] segments@[k];
            let t = header_text(g.col, g.width as nat, mode, sorted, desc);
            &&& r@[k].1@ == t
            &&& r@[k].0 == g.x + sat_sub(g.width as int, byte_width(t) as int)
        },
{
    let mut out: Vec<(u16, String)> = Vec::new();
    let mut i: usize = 0;
    while i < segments.len()
        invariant
            i <= segments.len(),
            out@.len() == i,
            forall|k: int| 0 <= k < segments@.len() ==> #[trigger] segments@[k].x + segments@[k].width <= u16::MAX,
            forall|k: int| 0 <= k < i ==> {
                let g = #[trigger] segments@[k];
                let t = header_text(g.col, g.width as nat, mode, sorted, desc);
                &&& out@[k].1@ == t
                &&& out@[k].0 == g.x + sat_sub(g.width as int, byte_width(t) as int)
            },
        decreases segments.len() - i,
    {
        let seg = segments[i];
        let label = seg.col.label(mode);
        let mut text = String::new();
        if !(seg.col == Column::Spark && (seg.width as usize) < label.len()) {
            push_str(&mut text, label);
        }
        let is_sorted = match sorted {
            Some(c) => c == seg.col,
            None => false,
        };
        if is_sorted {
            push_char(&mut text, ' ');
            push_char(&mut text, if desc { '▼' } else { '▲' });
        }
        proof {
            let t = header_text(seg.col, seg.width as nat, mode, sorted, desc);
            assert(text@ =~= t);
        }
        let tl = text.as_str().len();
        let x = seg.x + if tl < seg.width as usize { seg.width - tl as u16 } else { 0 };
        out.push((x, text));
        i = i + 1;
    }
    out
}

/// The separator columns: right after every column but the last, when
/// that cell is still inside the content (`end`).
pub open spec fn separator_cols(segs: Seq<Segment>, end: int) -> Seq<u16>
    decreases segs.len(),
{
    if segs.len() <= 1 {
        seq![]
    } else {
        let prev = separator_cols(segs.drop_last(), end);
        let g = segs[segs.len() - 2];
        if g.x + g.width < end { prev.push((g.x + g.width) as u16) } else { prev }
    }
}

pub fn separators(segments: &Vec<Segment>, end: u16) -> (r: Vec<u16>)
    requires
        forall|k: int| 0 <= k < segments@.len() ==> #[trigger] segments@[k].x + segments@[k].width <= u16::MAX,
    ensures
        r@ == separator_cols(segments@, end as int),
{
    let mut out: Vec<u16> = Vec::new();
    if segments.len() <= 1 {
        return out;
    }
    let mut i: usize = 1;
    while i < segments.len()
        invariant
            1 <= i <= segments.len(),
            forall|k: int| 0 <= k < segments@.len() ==> #[trigger] segments@[k].x + segments@[k].width <= u16::MAX,
            out@ == separator_cols(segments@.take(i as int), end as int),
        decreases segments.len() - i,
    {
        let ghost prefix = segments@.take(i + 1);
        assert(prefix.drop_last() =~= segments@.take(i as int));
        assert(prefix[prefix.len() - 2] == segments@[i - 1]);
        let g = segments[i - 1];
        let sep = g.x + g.width;
        if sep < end {
            out.push(sep);
        }
        i = i + 1;
    }
    assert(segments@.take(segments.len() as int) =~= segments@);
    out
}

/// `str::to_lowercase` (full Unicode case mapping).
pub uninterp spec fn lowercase(s: Seq<char>) -> Seq<char>;

/// Calls std's `str::to_lowercase`. Trusted: the returned string is taken to
/// be `lowercase(s@)`, a function of the text alone; the Unicode case tables
/// are not restated here.
#[verifier::external_body]
fn to_lower(s: &str) -> (r: String)
    ensures
        r@ == lowercase(s@),
{
    s.to_lowercase()
}

/// The first byte index at or after `i` where `needle` occurs in `hay`,
/// `-1` when it does not.
pub open spec fn first_match(hay: Seq<u8>, needle: Seq<u8>, i: int) -> int
    decreases hay.len() + 1 - i,
{
    if i < 0 || i + needle.len() > hay.len() {
        -1
    } else if hay.subrange(i, i + needle.len()) == needle {
        i
    } else {
        first_match(hay, needle, i + 1)
    }
}

/// The search highlight of a name, given the case-folded name `lower` and
/// query `q`: the byte range of the first match of `q` in `lower`; none for
/// an empty query or when case folding changed a byte length (the offsets
/// would not map).
pub open spec fn folded_highlight(name: Seq<char>, query: Seq<char>, lower: Seq<char>, q: Seq<char>) -> Option<
    (int, int),
> {
    if query.len() == 0 {
        None
    } else if byte_width(q) == byte_width(query) && byte_width(lower) == byte_width(name) {
        let s = first_match(vstd::utf8::encode_utf8(lower), vstd::utf8::encode_utf8(q), 0);
        if s >= 0 { Some((s, s + byte_width(q))) } else { None }
    } else {
        None
    }
}

/// The search highlight of a name: [`folded_highlight`] with the name and
/// the query lower-cased.
pub open spec fn highlight_of(name: Seq<char>, query: Seq<char>) -> Option<(int, int)> {
    folded_highlight(name, query, lowercase(name), lowercase(query))
}

/// The highlighted range of the Name cell for the search `query`: both are
/// lower-cased, then [`folded_match`] finds the range.
pub fn name_highlight(name: &str, query: &str) -> (r: Option<(usize, usize)>)
    ensures
        match r {
            Some((s, e)) => highlight_of(name@, query@) == Some((s as int, e as int)),
            None => highlight_of(name@, query@) is None,
        },
{
    if query.unicode_len() == 0 {
        return None;
    }
    let lower = to_lower(name);
    let q = to_lower(query);
    folded_match(name, query, lower.as_str(), q.as_str())
}

/// The highlight range of `name` for `query` given their case-folded forms
/// `lower` and `q` (see [`folded_highlight`]).
pub fn folded_match(name: &str, query: &str, lower: &str, q: &str) -> (r: Option<(usize, usize)>)
    ensures
        match r {
            Some((s, e)) => folded_highlight(name@, query@, lower@, q@) == Some((s as int, e as int)),
            None => folded_highlight(name@, query@, lower@, q@) is None,
        },
{
    if query.unicode_len() == 0 {
        return None;
    }
    if !(q.len() == query.len() && lower.len() == name.len()) {
        return None;
    }
    let hay = lower.as_bytes();
    let needle = q.as_bytes();
    let n = needle.len();
    if n == 0 {
        assert(hay@.subrange(0, 0) =~= needle@);
        return Some((0, 0));
    }
    if n > hay.len() {
        proof {
            assert(first_match(hay@, needle@, 0) == -1);
        }
        return None;
    }
    let last = hay.len() - n;
    let mut i: usize = 0;
    while i <= last
        invariant
            hay@ == vstd::utf8::encode_utf8(lower@),
            needle@ == vstd::utf8::encode_utf8(q@),
            n == needle@.len(),
            last == hay@.len() - n,
            n <= hay@.len(),
            first_match(hay@, needle@, 0) == first_match(hay@, needle@, i as int),
            n >= 1,
            hay@.len() == hay.len(),
            query@.len() > 0,
            byte_width(lower@) == byte_width(name@),
            byte_width(q@) == byte_width(query@),
        decreases last + 1 - i,
    {
        let mut j: usize = 0;
        let mut same = true;
        while j < n
            invariant
                n <= hay@.len(),
                hay@.len() == hay.len(),
                i <= last,
                last == hay@.len() - n,
                n == needle@.len(),
                j <= n,
                same == (forall|k: int| 0 <= k < j ==> hay@[i + k] == needle@[k]),
            decreases n - j,
        {
            if hay[i + j] != needle[j] {
                same = false;
            }
            j = j + 1;
        }
        if same {
            assert(hay@.subrange(i as int, i + n) =~= needle@);
            proof {
                assert(first_match(hay@, needle@, i as int) == i);
                assert(byte_width(q@) == n);
            }
            return Some((i, i + n));
        }
        assert(hay@.subrange(i as int, i + n) != needle@) by {
            let k = choose|k: int| 0 <= k < n && hay@[i + k] != needle@[k];
            assert(hay@.subrange(i as int, i + n)[k] == hay@[i + k]);
        }
        i = i + 1;
    }
    None
}

proof fn lemma_first_fit_from(variants: Seq<(Seq<Column>, u16)>, i: int, w: nat)
    ensures
        first_fit(variants, i, w) >= 0 ==> i <= first_fit(variants, i, w) < variants.len(),
    decreases variants.len() - i,
{
    if 0 <= i < variants.len() && min_needed(variants[i].0, variants[i].1) > w {
        lemma_first_fit_from(variants, i + 1, w);
    }
}

proof fn lemma_first_fit_monotone(variants: Seq<(Seq<Column>, u16)>, i: int, w1: nat, w2: nat)
    requires
        w1 <= w2,
        first_fit(variants, i, w1) >= 0,
    ensures
        i <= first_fit(variants, i, w2) <= first_fit(variants, i, w1),
    decreases variants.len() - i,
{
    lemma_first_fit_from(variants, i, w1);
    if 0 <= i < variants.len() && min_needed(variants[i].0, variants[i].1) > w1 {
        lemma_first_fit_from(variants, i + 1, w1);
        if min_needed(variants[i].0, variants[i].1) > w2 {
            lemma_first_fit_monotone(variants, i + 1, w1, w2);
        }
    }
}

/// Columns drop from the right as a box narrows, never the other way: the
/// rung of the column ladder that [`layout_columns`] lays out (the first
/// candidate that fits) is, for a wider box, the same one or an earlier,
/// richer one; a box that fits some rung still fits one when it widens.
pub proof fn wider_rows_pick_earlier_rungs(
    mode: CpuColumns,
    show_memory: bool,
    show_user: bool,
    show_cmd: bool,
    w1: nat,
    w2: nat,
)
    requires
        w1 <= w2,
    ensures
        ({
            let v = layout_variants(mode, show_memory, show_user, show_cmd);
            first_fit(v, 0, w1) >= 0 ==> 0 <= first_fit(v, 0, w2) <= first_fit(v, 0, w1)
        }),
{
    let v = layout_variants(mode, show_memory, show_user, show_cmd);
    if first_fit(v, 0, w1) >= 0 {
        lemma_first_fit_monotone(v, 0, w1, w2);
    }
}

/// With the Command column, Name keeps between `NAME_MIN` and `NAME_MAX`
/// cells and Command takes the rest of the flexible width.
pub proof fn name_width_is_capped_beside_command(cols: Seq<Column>, spark_w: u16, inner: nat)
    requires
        cols.contains(Column::Command),
    ensures
        ({
            let (name_w, cmd_w) = flex_widths(cols, spark_w, inner);
            let used = spec_fixed_cost(cols) + if cols.contains(Column::Spark) { spark_w as nat } else { 0 };
            let flex: nat = if inner >= used { (inner - used) as nat } else { 0 };
            &&& NAME_MIN <= name_w <= NAME_MAX
            &&& flex >= name_w ==> name_w + cmd_w == flex
        }),
{
}

/// The sort marker sits only in the sorted column's header cell, as its
/// last char.
pub proof fn sort_marker_only_in_sorted_cell(col: Column, width: nat, mode: CpuColumns, sorted: Option<Column>, desc: bool)
    ensures
        sorted != Some(col) ==> !header_text(col, width, mode, sorted, desc).contains('▼') && !header_text(
            col,
            width,
            mode,
            sorted,
            desc,
        ).contains('▲'),
        sorted == Some(col) ==> header_text(col, width, mode, sorted, desc).last() == (if desc {
            '▼'
        } else {
            '▲'
        }),
{
    reveal_strlit("PID");
    reveal_strlit("Name");
    reveal_strlit("cpu");
    reveal_strlit("CPU");
    reveal_strlit("CPU%");
    reveal_strlit("Mem");
    reveal_strlit("User");
    reveal_strlit("Command");
    let label = column_label(col, mode);
    assert(!label.contains('▼') && !label.contains('▲'));
}

} // verus!
