//! The short status texts of the header and battery widgets.

use vstd::prelude::*;
use crate::core_spec::{chars_of, trim_bounds, trimmed};
use crate::format::{dec_digits, push_decimal};
use crate::options::str_view;
use crate::text::{push_str, sanitize_text, sanitized};

verus! {

broadcast use vstd::string::group_string_axioms;

/// The header's mode flags: ` [Full: {label}]` while a widget is shown
/// fullscreen, ` [/] Search` while searching, trimmed.
pub open spec fn extras_text(fullscreen: Option<Seq<char>>, searching: bool) -> Seq<char> {
    let a = match fullscreen {
        Some(l) => " [Full: "@ + l + "]"@,
        None => seq![],
    };
    trimmed(if searching { a + " [/] Search"@ } else { a })
}

pub fn header_extras(fullscreen: Option<&str>, searching: bool) -> (r: String)
    ensures
        r@ == extras_text(str_view(fullscreen), searching),
{
    let mut extras = String::new();
    match fullscreen {
        Some(label) => {
            push_str(&mut extras, " [Full: ");
            push_str(&mut extras, label);
            push_str(&mut extras, "]");
        },
        None => {},
    }
    if searching {
        push_str(&mut extras, " [/] Search");
    }
    proof {
        let a = match str_view(fullscreen) {
            Some(l) => " [Full: "@ + l + "]"@,
            None => seq![],
        };
        assert(extras@ =~= if searching { a + " [/] Search"@ } else { a });
    }
    let chars = chars_of(extras.as_str());
    let (lo, hi) = trim_bounds(&chars, 0, chars.len());
    assert(chars@.subrange(0, chars@.len() as int) =~= extras@);
    crate::summary::string_of(&chars, lo, hi)
}

/// The host name shown by the header (sanitized; `xtop` for an empty one).
pub open spec fn host_text(host: Seq<char>) -> Seq<char> {
    sanitized(if host.len() == 0 { "xtop"@ } else { host })
}

pub fn host_label(host: &str) -> (r: String)
    ensures
        r@ == host_text(host@),
{
    if host.unicode_len() == 0 {
        sanitize_text("xtop")
    } else {
        sanitize_text(host)
    }
}

/// The time hint of a battery gauge: minutes to full while charging,
/// minutes remaining while discharging, nothing otherwise.
pub open spec fn battery_time_text(state: Seq<char>, to_full: Option<u64>, to_empty: Option<u64>) -> Seq<char> {
    if to_full is Some && state == "Charging"@ {
        " "@ + dec_digits((to_full->0 / 60) as nat) + "m to full"@
    } else if to_empty is Some && state == "Discharging"@ {
        " "@ + dec_digits((to_empty->0 / 60) as nat) + "m remaining"@
    } else {
        seq![]
    }
}

pub fn battery_time(state: &str, to_full: Option<u64>, to_empty: Option<u64>) -> (r: String)
    ensures
        r@ == battery_time_text(state@, to_full, to_empty),
{
    let mut out = String::new();
    let charging = crate::options::str_eq(state, "Charging");
    let discharging = crate::options::str_eq(state, "Discharging");
    match to_full {
        Some(t) => if charging {
            push_str(&mut out, " ");
            push_decimal(&mut out, (t / 60) as u128);
            push_str(&mut out, "m to full");
            assert(out@ =~= " "@ + dec_digits((t / 60) as nat) + "m to full"@);
            return out;
        },
        None => {},
    }
    match to_empty {
        Some(t) => if discharging {
            push_str(&mut out, " ");
            push_decimal(&mut out, (t / 60) as u128);
            push_str(&mut out, "m remaining");
            assert(out@ =~= " "@ + dec_digits((t / 60) as nat) + "m remaining"@);
        },
        None => {},
    }
    out
}

} // verus!
