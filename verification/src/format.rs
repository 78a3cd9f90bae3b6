//! Byte, unit and uptime formatting for compact widget rows.
//!
//! Byte counts are shown the way an `f64` readout prints them: the count is
//! first taken to the nearest value a double holds (53-bit significand, ties
//! to even — exact below 2^53), scaled by 1024 steps up to `TB`, then
//! printed with a fixed number of decimals, rounding ties to even. All of
//! it is computed here in exact integer arithmetic.

use vstd::prelude::*;
use vstd::arithmetic::div_mod::*;
use vstd::arithmetic::mul::*;
use crate::text::push_char;

verus! {

/// 2^53: every count below it is held exactly by a double.
pub const F64_EXACT_LIMIT: u64 = 0x20_0000_0000_0000;

pub open spec fn pow10(d: nat) -> nat
    decreases d,
{
    if d == 0 { 1 } else { 10 * pow10((d - 1) as nat) }
}

pub open spec fn pow1024(k: nat) -> nat
    decreases k,
{
    if k == 0 { 1 } else { 1024 * pow1024((k - 1) as nat) }
}

/// The spacing of doubles around `n`: 1 below 2^53, doubling with every
/// further bit of `n`.
pub open spec fn grain(n: nat) -> nat
    decreases n,
{
    if n < F64_EXACT_LIMIT {
        1
    } else {
        2 * grain(n / 2)
    }
}

/// `n` rounded to the nearest multiple of `g`, ties to the even multiple.
pub open spec fn round_to_grain(n: nat, g: nat) -> nat {
    let q = n / g;
    let r = n % g;
    if g <= 1 {
        n
    } else if r > g / 2 || (r == g / 2 && q % 2 == 1) {
        (q + 1) * g
    } else {
        q * g
    }
}

/// The integer value of `n as f64`.
pub open spec fn as_f64(n: nat) -> nat {
    round_to_grain(n, grain(n))
}

/// `num / den` rounded to an integer, ties to even.
pub open spec fn round_half_even(num: nat, den: nat) -> nat {
    let q = num / den;
    let r = num % den;
    if 2 * r > den || (2 * r == den && q % 2 == 1) {
        q + 1
    } else {
        q
    }
}

pub open spec fn digit_char(d: nat) -> char {
    if d == 0 { '0' }
    else if d == 1 { '1' }
    else if d == 2 { '2' }
    else if d == 3 { '3' }
    else if d == 4 { '4' }
    else if d == 5 { '5' }
    else if d == 6 { '6' }
    else if d == 7 { '7' }
    else if d == 8 { '8' }
    else { '9' }
}

/// Decimal digits of `n` (no leading zeros; `0` is `"0"`).
pub open spec fn dec_digits(n: nat) -> Seq<char>
    decreases n,
{
    if n < 10 {
        seq![digit_char(n)]
    } else {
        dec_digits(n / 10).push(digit_char(n % 10))
    }
}

/// The last `d` decimal digits of `n`, zero-padded.
pub open spec fn padded_digits(n: nat, d: nat) -> Seq<char>
    decreases d,
{
    if d == 0 {
        Seq::empty()
    } else {
        padded_digits(n / 10, (d - 1) as nat).push(digit_char(n % 10))
    }
}

/// `num / den` printed with `d` decimals (ties to even).
pub open spec fn fixed_point(num: nat, den: nat, d: nat) -> Seq<char> {
    let m = round_half_even(num * pow10(d), den);
    if d == 0 {
        dec_digits(m)
    } else {
        dec_digits(m / pow10(d)) + seq!['.'] + padded_digits(m % pow10(d), d)
    }
}

/// Unit index `B=0 .. TB=4` reached by dividing `v` by 1024 while it stays
/// at/above 1024, starting from unit `k`.
pub open spec fn unit_from(v: nat, k: nat) -> nat
    decreases 4 - k,
{
    if k < 4 && v >= pow1024(k + 1) {
        unit_from(v, k + 1)
    } else {
        k
    }
}

pub open spec fn unit_of(v: nat) -> nat {
    unit_from(v, 0)
}

pub open spec fn unit_name(k: nat) -> Seq<char> {
    if k == 0 { seq!['B'] }
    else if k == 1 { seq!['K', 'B'] }
    else if k == 2 { seq!['M', 'B'] }
    else if k == 3 { seq!['G', 'B'] }
    else { seq!['T', 'B'] }
}

/// Decimals for the scaled value `v / 1024^k`: 0 for zero and at/above
/// 100, 1 at/above 10, else 2.
pub open spec fn decimals_for(v: nat, k: nat) -> nat {
    if v == 0 || v >= 100 * pow1024(k) {
        0
    } else if v >= 10 * pow1024(k) {
        1
    } else {
        2
    }
}

/// `format_bytes`: two decimals and the unit.
pub open spec fn bytes_text(bytes: nat) -> Seq<char> {
    let v = as_f64(bytes);
    let k = unit_of(v);
    fixed_point(v, pow1024(k), 2) + seq![' '] + unit_name(k)
}

/// `format_bytes_short`: adaptive decimals and the unit.
pub open spec fn bytes_short_text(bytes: nat) -> Seq<char> {
    let v = as_f64(bytes);
    let k = unit_of(v);
    fixed_point(v, pow1024(k), decimals_for(v, k)) + seq![' '] + unit_name(k)
}

pub open spec fn used_over_total_text(used: nat, total: nat) -> Seq<char> {
    let uv = as_f64(used);
    let tv = as_f64(total);
    let k = unit_of(uv);
    if k == unit_of(tv) {
        let d = decimals_for(tv, k);
        fixed_point(uv, pow1024(k), d) + seq!['/'] + fixed_point(tv, pow1024(k), d) + seq![' ']
            + unit_name(k)
    } else {
        bytes_short_text(used) + seq![' ', '/', ' '] + bytes_short_text(total)
    }
}

pub open spec fn used_free_text(used: nat, free: nat) -> Seq<char> {
    let uv = as_f64(used);
    let fv = as_f64(free);
    let k = unit_of(uv);
    if k == unit_of(fv) {
        let d: nat = if uv >= 100 * pow1024(k) || fv >= 100 * pow1024(k) { 0 } else { 1 };
        seq!['u', 's', 'e', 'd', ' '] + fixed_point(uv, pow1024(k), d) + seq![' '] + unit_name(k)
            + seq![' ', '·', ' ', 'f', 'r', 'e', 'e', ' '] + fixed_point(fv, pow1024(k), d)
            + seq![' '] + unit_name(k)
    } else {
        seq!['u', 's', 'e', 'd', ' '] + bytes_short_text(used) + seq![
            ' ',
            '·',
            ' ',
            'f',
            'r',
            'e',
            'e',
            ' ',
        ] + bytes_short_text(free)
    }
}

pub open spec fn uptime_text(secs: nat) -> Seq<char> {
    dec_digits(secs / 86400) + seq!['d', ' '] + dec_digits((secs % 86400) / 3600) + seq!['h', ' ']
        + dec_digits((secs % 3600) / 60) + seq!['m', ' '] + dec_digits(secs % 60) + seq!['s']
}

// ---------------------------------------------------------------------------
// Arithmetic facts
// ---------------------------------------------------------------------------

proof fn lemma_pow10_values()
    ensures
        pow10(0) == 1,
        pow10(1) == 10,
        pow10(2) == 100,
{
    reveal_with_fuel(pow10, 3);
}

proof fn lemma_pow1024_values()
    ensures
        pow1024(0) == 1,
        pow1024(1) == 1024,
        pow1024(2) == 1024 * 1024,
        pow1024(3) == 1024 * 1024 * 1024,
        pow1024(4) == 1024 * 1024 * 1024 * 1024,
        pow1024(5) == 1024 * 1024 * 1024 * 1024 * 1024,
{
    reveal_with_fuel(pow1024, 6);
}

/// One doubling step of the grain search.
proof fn lemma_grain_step(n: nat, g: nat)
    requires
        g > 0,
        n / g >= F64_EXACT_LIMIT,
    ensures
        g * grain(n / g) == (2 * g) * grain(n / (2 * g)),
{
    lemma_div_denominator(n as int, g as int, 2);
    assert(grain(n / g) == 2 * grain((n / g) / 2));
    assert(g * (2 * grain(n / (2 * g))) == (2 * g) * grain(n / (2 * g))) by (nonlinear_arith);
}

proof fn lemma_grain_bound(n: nat, g: nat)
    requires
        g > 0,
        n < 0x1_0000_0000_0000_0000,
        n / g >= F64_EXACT_LIMIT,
    ensures
        g < 2048,
{
    if g >= 2048 {
        lemma_div_is_ordered_by_denominator(n as int, 2048, g as int);
        assert(n / 2048 < F64_EXACT_LIMIT);
    }
}

// ---------------------------------------------------------------------------
// Executable formatting
// ---------------------------------------------------------------------------

/// The integer value of `n as f64` (u128: `u64::MAX` rounds up to 2^64).
pub fn f64_value(n: u64) -> (r: u128)
    ensures
        r == as_f64(n as nat),
        r <= 0x1_0000_0000_0000_1000,
{
    let mut g: u64 = 1;
    while n / g >= F64_EXACT_LIMIT
        invariant
            g >= 1,
            g <= 4096,
            grain(n as nat) == g * grain((n / g) as nat),
        decreases 8192 - g,
    {
        proof {
            lemma_grain_bound(n as nat, g as nat);
            lemma_grain_step(n as nat, g as nat);
        }
        g = g * 2;
    }
    let ghost gr = grain((n / g) as nat);
    assert(gr == 1);
    assert(g * gr == g) by (nonlinear_arith)
        requires gr == 1;
    let q = n / g;
    let r = n % g;
    proof {
        lemma_fundamental_div_mod(n as int, g as int);
        
    }
    if g <= 1 {
        n as u128
    } else if r > g / 2 || (r == g / 2 && q % 2 == 1) {
        assert((q + 1) * g <= n + g) by (nonlinear_arith)
            requires g * q + r == n, r >= 0;
        (q as u128 + 1) * g as u128
    } else {
        assert(q * g <= n) by (nonlinear_arith)
            requires g * q + r == n, r >= 0;
        q as u128 * g as u128
    }
}

fn pow1024_exec(k: u32) -> (p: u128)
    requires
        k <= 5,
    ensures
        p == pow1024(k as nat),
        p >= 1,
        p <= 1024 * 1024 * 1024 * 1024 * 1024,
{
    proof { lemma_pow1024_values(); }
    if k == 0 { 1 }
    else if k == 1 { 1024 }
    else if k == 2 { 1024 * 1024 }
    else if k == 3 { 1024 * 1024 * 1024 }
    else if k == 4 { 1024 * 1024 * 1024 * 1024 }
    else { 1024 * 1024 * 1024 * 1024 * 1024 }
}

fn pow10_exec(d: u32) -> (p: u128)
    requires
        d <= 2,
    ensures
        p == pow10(d as nat),
        p >= 1,
        p <= 100,
{
    proof { lemma_pow10_values(); }
    if d == 0 { 1 } else if d == 1 { 10 } else { 100 }
}

/// The unit index (`B=0 .. TB=4`) a value scales to.
pub fn unit_index(v: u128) -> (k: u32)
    ensures
        k == unit_of(v as nat),
        k <= 4,
{
    let mut k: u32 = 0;
    while k < 4 && v >= pow1024_exec(k + 1)
        invariant
            k <= 4,
            unit_of(v as nat) == unit_from(v as nat, k as nat),
        decreases 4 - k,
    {
        k = k + 1;
    }
    k
}

fn digit_to_char(d: u128) -> (c: char)
    requires
        d < 10,
    ensures
        c == digit_char(d as nat),
{
    if d == 0 { '0' }
    else if d == 1 { '1' }
    else if d == 2 { '2' }
    else if d == 3 { '3' }
    else if d == 4 { '4' }
    else if d == 5 { '5' }
    else if d == 6 { '6' }
    else if d == 7 { '7' }
    else if d == 8 { '8' }
    else { '9' }
}

proof fn lemma_digits_len_bound(n: nat, k: nat)
    requires
        k >= 1,
        n < pow10(k),
    ensures
        dec_digits(n).len() <= k,
    decreases k,
{
    if n >= 10 {
        assert(k >= 2) by {
            reveal_with_fuel(pow10, 2);
        }
        assert(n / 10 < pow10((k - 1) as nat)) by {
            lemma_div_by_multiple_is_strongly_ordered(n as int, (10 * pow10((k - 1) as nat)) as int,
                pow10((k - 1) as nat) as int, 10);
            lemma_div_multiples_vanish(pow10((k - 1) as nat) as int, 10);
        }
        lemma_digits_len_bound(n / 10, (k - 1) as nat);
    }
}

/// The number of decimal digits of `n` (`0` has one).
pub fn decimal_len(n: usize) -> (r: u16)
    ensures
        r as nat == dec_digits(n as nat).len(),
        1 <= r <= 20,
    decreases n,
{
    proof {
        reveal_with_fuel(pow10, 21);
        assert(pow10(20) == 100000000000000000000nat);
        lemma_digits_len_bound(n as nat, 20);
    }
    if n < 10 {
        1
    } else {
        decimal_len(n / 10) + 1
    }
}

/// The decimal text of `n`.
pub fn usize_text(n: usize) -> (r: String)
    ensures
        r@ == dec_digits(n as nat),
{
    let mut out = String::new();
    push_decimal(&mut out, n as u128);
    assert(out@ =~= dec_digits(n as nat));
    out
}

/// Append the decimal digits of `n`.
pub fn push_decimal(out: &mut String, n: u128)
    ensures
        final(out)@ == old(out)@ + dec_digits(n as nat),
    decreases n,
{
    if n >= 10 {
        push_decimal(out, n / 10);
    }
    push_char(out, digit_to_char(n % 10));
    assert(n < 10 ==> dec_digits(n as nat) == seq![digit_char(n as nat)]);
}

fn push_padded(out: &mut String, n: u128, d: u32)
    ensures
        final(out)@ == old(out)@ + padded_digits(n as nat, d as nat),
    decreases d,
{
    if d > 0 {
        push_padded(out, n / 10, d - 1);
        push_char(out, digit_to_char(n % 10));
    } else {
        assert(padded_digits(n as nat, 0) =~= Seq::<char>::empty());
    }
}

/// Append `num / den` with `d` decimals (ties to even).
fn push_fixed(out: &mut String, num: u128, den: u128, d: u32)
    requires
        den > 0,
        den <= 1024 * 1024 * 1024 * 1024 * 1024,
        d <= 2,
        num <= 0x1_0000_0000_0000_1000,
    ensures
        final(out)@ == old(out)@ + fixed_point(num as nat, den as nat, d as nat),
{
    let p = pow10_exec(d);
    assert(num * p <= 0x1_0000_0000_0000_1000 * 100) by (nonlinear_arith)
        requires num <= 0x1_0000_0000_0000_1000, p <= 100;
    let scaled = num * p;
    let q = scaled / den;
    let r = scaled % den;
    proof { lemma_mod_pos_bound(scaled as int, den as int); }
    let m = if 2 * r > den || (2 * r == den && q % 2 == 1) { q + 1 } else { q };
    assert(m == round_half_even(scaled as nat, den as nat));
    if d == 0 {
        push_decimal(out, m);
    } else {
        push_decimal(out, m / p);
        push_char(out, '.');
        push_padded(out, m % p, d);
        assert(old(out)@ + dec_digits((m / p) as nat) + seq!['.'] + padded_digits(
            (m % p) as nat,
            d as nat,
        ) =~= old(out)@ + fixed_point(num as nat, den as nat, d as nat));
    }
}

fn push_unit(out: &mut String, k: u32)
    requires
        k <= 4,
    ensures
        final(out)@ == old(out)@ + unit_name(k as nat),
{
    if k == 1 {
        push_char(out, 'K');
    } else if k == 2 {
        push_char(out, 'M');
    } else if k == 3 {
        push_char(out, 'G');
    } else if k == 4 {
        push_char(out, 'T');
    }
    push_char(out, 'B');
    assert(final(out)@ =~= old(out)@ + unit_name(k as nat));
}

fn decimals_exec(v: u128, k: u32) -> (d: u32)
    requires
        k <= 4,
        v <= 0x1_0000_0000_0000_1000,
    ensures
        d == decimals_for(v as nat, k as nat),
        d <= 2,
{
    let den = pow1024_exec(k);
    if v == 0 || v >= 100 * den {
        0
    } else if v >= 10 * den {
        1
    } else {
        2
    }
}

/// Append `bytes` with adaptive decimals and its unit.
fn push_bytes_short(out: &mut String, bytes: u64)
    ensures
        final(out)@ == old(out)@ + bytes_short_text(bytes as nat),
{
    let v = f64_value(bytes);
    let k = unit_index(v);
    let d = decimals_exec(v, k);
    push_fixed(out, v, pow1024_exec(k), d);
    push_char(out, ' ');
    push_unit(out, k);
    assert(final(out)@ =~= old(out)@ + bytes_short_text(bytes as nat));
}

/// A byte count with two decimals and its unit (`1.50 KB`).
pub fn format_bytes(bytes: u64) -> (res: String)
    ensures
        res@ == bytes_text(bytes as nat),
{
    let v = f64_value(bytes);
    let k = unit_index(v);
    let mut out = String::new();
    push_fixed(&mut out, v, pow1024_exec(k), 2);
    push_char(&mut out, ' ');
    push_unit(&mut out, k);
    assert(out@ =~= bytes_text(bytes as nat));
    out
}

/// A byte count with adaptive decimals for compact rows: 0 decimals at/above
/// 100 (and for zero), 1 at/above 10, 2 below (`93.8 GB`, `512 B`).
pub fn format_bytes_short(bytes: u64) -> (res: String)
    ensures
        res@ == bytes_short_text(bytes as nat),
{
    let mut out = String::new();
    push_bytes_short(&mut out, bytes);
    assert(out@ =~= bytes_short_text(bytes as nat));
    out
}

/// `used` over `total` sharing one unit and one precision (that of the
/// total) when both land on the same scale (`7.3/93.8 GB`); two sized
/// values otherwise (`512 MB / 2.00 GB`).
pub fn format_used_over_total(used: u64, total: u64) -> (res: String)
    ensures
        res@ == used_over_total_text(used as nat, total as nat),
{
    let uv = f64_value(used);
    let tv = f64_value(total);
    let uk = unit_index(uv);
    let tk = unit_index(tv);
    let mut out = String::new();
    if uk == tk {
        let d = decimals_exec(tv, tk);
        let den = pow1024_exec(uk);
        push_fixed(&mut out, uv, den, d);
        push_char(&mut out, '/');
        push_fixed(&mut out, tv, den, d);
        push_char(&mut out, ' ');
        push_unit(&mut out, uk);
    } else {
        push_bytes_short(&mut out, used);
        push_char(&mut out, ' ');
        push_char(&mut out, '/');
        push_char(&mut out, ' ');
        push_bytes_short(&mut out, total);
    }
    assert(out@ =~= used_over_total_text(used as nat, total as nat));
    out
}

fn push_used_word(out: &mut String)
    ensures
        final(out)@ == old(out)@ + seq!['u', 's', 'e', 'd', ' '],
{
    push_char(out, 'u');
    push_char(out, 's');
    push_char(out, 'e');
    push_char(out, 'd');
    push_char(out, ' ');
    assert(final(out)@ =~= old(out)@ + seq!['u', 's', 'e', 'd', ' ']);
}

fn push_free_word(out: &mut String)
    ensures
        final(out)@ == old(out)@ + seq![' ', '·', ' ', 'f', 'r', 'e', 'e', ' '],
{
    push_char(out, ' ');
    push_char(out, '·');
    push_char(out, ' ');
    push_char(out, 'f');
    push_char(out, 'r');
    push_char(out, 'e');
    push_char(out, 'e');
    push_char(out, ' ');
    assert(final(out)@ =~= old(out)@ + seq![' ', '·', ' ', 'f', 'r', 'e', 'e', ' ']);
}

/// `used` and `free` amounts in one string, sharing one precision when both
/// land on the same unit (`used 8.0 GB · free 7.0 GB`, integers once either
/// side reaches 100); two sized values otherwise.
pub fn format_used_free(used: u64, free: u64) -> (res: String)
    ensures
        res@ == used_free_text(used as nat, free as nat),
{
    let uv = f64_value(used);
    let fv = f64_value(free);
    let uk = unit_index(uv);
    let fk = unit_index(fv);
    let mut out = String::new();
    push_used_word(&mut out);
    if uk == fk {
        let den = pow1024_exec(uk);
        let d: u32 = if uv >= 100 * den || fv >= 100 * den { 0 } else { 1 };
        push_fixed(&mut out, uv, den, d);
        push_char(&mut out, ' ');
        push_unit(&mut out, uk);
        push_free_word(&mut out);
        push_fixed(&mut out, fv, den, d);
        push_char(&mut out, ' ');
        push_unit(&mut out, fk);
    } else {
        push_bytes_short(&mut out, used);
        push_free_word(&mut out);
        push_bytes_short(&mut out, free);
    }
    assert(out@ =~= used_free_text(used as nat, free as nat));
    out
}

/// Uptime as `Nd Nh Nm Ns`.
pub fn format_uptime(secs: u64) -> (res: String)
    ensures
        res@ == uptime_text(secs as nat),
{
    let mut out = String::new();
    push_decimal(&mut out, (secs / 86400) as u128);
    push_char(&mut out, 'd');
    push_char(&mut out, ' ');
    push_decimal(&mut out, ((secs % 86400) / 3600) as u128);
    push_char(&mut out, 'h');
    push_char(&mut out, ' ');
    push_decimal(&mut out, ((secs % 3600) / 60) as u128);
    push_char(&mut out, 'm');
    push_char(&mut out, ' ');
    push_decimal(&mut out, (secs % 60) as u128);
    push_char(&mut out, 's');
    assert(out@ =~= uptime_text(secs as nat));
    out
}

} // verus!
