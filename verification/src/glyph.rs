//! Glyph configuration of a widget: the chart charset and the frame border
//! set, and their resolution from the layout-node options
//! (layout-node option > style-config value > contract default).

use vstd::prelude::*;
use crate::options::{JsonValue, json_get, str_eq, str_view};

verus! {

/// The chart glyph family of a widget.
#[derive(PartialEq, Eq, Structural, Clone, Copy, Debug)]
pub enum ChartCharset {
    Braille,
    Dot,
    Block,
    HalfBlock,
    Bar,
}

/// The frame border set of a widget.
#[derive(PartialEq, Eq, Structural, Clone, Copy, Debug)]
pub enum WidgetBorders {
    Native,
    Rounded,
    Double,
    Plain,
    Ascii,
}

/// The option key that overrides the per-widget chart charset.
pub const OPT_CHARSET: &'static str = "charset";
/// The option key that overrides the per-widget border set.
pub const OPT_BORDERS: &'static str = "borders";

/// The charset a JSON value names (serde spellings of the enum).
pub open spec fn charset_named(v: JsonValue) -> Option<ChartCharset> {
    match v {
        JsonValue::Str(s) => if s@ == "braille"@ {
            Some(ChartCharset::Braille)
        } else if s@ == "dot"@ {
            Some(ChartCharset::Dot)
        } else if s@ == "block"@ {
            Some(ChartCharset::Block)
        } else if s@ == "half_block"@ {
            Some(ChartCharset::HalfBlock)
        } else if s@ == "bar"@ {
            Some(ChartCharset::Bar)
        } else {
            None
        },
        _ => None,
    }
}

/// The border set a JSON value names (serde spellings of the enum).
pub open spec fn borders_named(v: JsonValue) -> Option<WidgetBorders> {
    match v {
        JsonValue::Str(s) => if s@ == "native"@ {
            Some(WidgetBorders::Native)
        } else if s@ == "rounded"@ {
            Some(WidgetBorders::Rounded)
        } else if s@ == "double"@ {
            Some(WidgetBorders::Double)
        } else if s@ == "plain"@ {
            Some(WidgetBorders::Plain)
        } else if s@ == "ascii"@ {
            Some(WidgetBorders::Ascii)
        } else {
            None
        },
        _ => None,
    }
}

/// The effective charset: the option value when it names one, else the
/// configured value.
pub open spec fn effective_charset(opts: Option<JsonValue>, configured: ChartCharset) -> ChartCharset {
    match opts {
        Some(o) => match json_get(o, OPT_CHARSET@) {
            Some(v) => match charset_named(v) {
                Some(c) => c,
                None => configured,
            },
            None => configured,
        },
        None => configured,
    }
}

/// The effective border set: the option value when it names one, else the
/// configured value.
pub open spec fn effective_borders(opts: Option<JsonValue>, configured: WidgetBorders) -> WidgetBorders {
    match opts {
        Some(o) => match json_get(o, OPT_BORDERS@) {
            Some(v) => match borders_named(v) {
                Some(b) => b,
                None => configured,
            },
            None => configured,
        },
        None => configured,
    }
}

pub open spec fn opt_ref_view(o: Option<&JsonValue>) -> Option<JsonValue> {
    match o {
        Some(v) => Some(*v),
        None => None,
    }
}

pub fn charset_from_value(value: &JsonValue) -> (r: Option<ChartCharset>)
    ensures
        r == charset_named(*value),
{
    match value.as_str() {
        Some(s) => {
            if str_eq(s, "braille") {
                Some(ChartCharset::Braille)
            } else if str_eq(s, "dot") {
                Some(ChartCharset::Dot)
            } else if str_eq(s, "block") {
                Some(ChartCharset::Block)
            } else if str_eq(s, "half_block") {
                Some(ChartCharset::HalfBlock)
            } else if str_eq(s, "bar") {
                Some(ChartCharset::Bar)
            } else {
                None
            }
        },
        None => None,
    }
}

pub fn borders_from_value(value: &JsonValue) -> (r: Option<WidgetBorders>)
    ensures
        r == borders_named(*value),
{
    match value.as_str() {
        Some(s) => {
            if str_eq(s, "native") {
                Some(WidgetBorders::Native)
            } else if str_eq(s, "rounded") {
                Some(WidgetBorders::Rounded)
            } else if str_eq(s, "double") {
                Some(WidgetBorders::Double)
            } else if str_eq(s, "plain") {
                Some(WidgetBorders::Plain)
            } else if str_eq(s, "ascii") {
                Some(WidgetBorders::Ascii)
            } else {
                None
            }
        },
        None => None,
    }
}

/// The effective chart charset for a widget instance: the layout-node
/// `options.charset` wins when it names a charset; otherwise the
/// style-config value `configured` (what the state reports for the widget).
pub fn resolved_charset(configured: ChartCharset, opts: Option<&JsonValue>) -> (r: ChartCharset)
    ensures
        r == effective_charset(opt_ref_view(opts), configured),
{
    match opts {
        Some(o) => match o.get(OPT_CHARSET) {
            Some(v) => match charset_from_value(v) {
                Some(c) => c,
                None => configured,
            },
            None => configured,
        },
        None => configured,
    }
}

/// The effective border set for a widget instance: the layout-node
/// `options.borders` wins when it names a set; otherwise `configured`.
pub fn resolved_borders(configured: WidgetBorders, opts: Option<&JsonValue>) -> (r: WidgetBorders)
    ensures
        r == effective_borders(opt_ref_view(opts), configured),
{
    match opts {
        Some(o) => match o.get(OPT_BORDERS) {
            Some(v) => match borders_from_value(v) {
                Some(b) => b,
                None => configured,
            },
            None => configured,
        },
        None => configured,
    }
}


/// Each serde spelling names its own border set: `"native"`, `"rounded"`,
/// `"double"`, `"plain"` and `"ascii"` give the five sets, one each, and no
/// other value names a set.
pub proof fn border_spellings(s: String)
    ensures
        s@ == "native"@ ==> borders_named(JsonValue::Str(s)) == Some(WidgetBorders::Native),
        s@ == "rounded"@ ==> borders_named(JsonValue::Str(s)) == Some(WidgetBorders::Rounded),
        s@ == "double"@ ==> borders_named(JsonValue::Str(s)) == Some(WidgetBorders::Double),
        s@ == "plain"@ ==> borders_named(JsonValue::Str(s)) == Some(WidgetBorders::Plain),
        s@ == "ascii"@ ==> borders_named(JsonValue::Str(s)) == Some(WidgetBorders::Ascii),
        !(s@ == "native"@ || s@ == "rounded"@ || s@ == "double"@ || s@ == "plain"@ || s@ == "ascii"@)
            ==> borders_named(JsonValue::Str(s)) is None,
{
    reveal_strlit("native");
    reveal_strlit("rounded");
    reveal_strlit("double");
    reveal_strlit("plain");
    reveal_strlit("ascii");
    assert("native"@[0] == 'n' && "rounded"@[0] == 'r' && "double"@[0] == 'd' && "plain"@[0] == 'p'
        && "ascii"@[0] == 'a');
}

/// Each serde spelling names its own chart charset: `"braille"`, `"dot"`,
/// `"block"`, `"half_block"` and `"bar"` give the five charsets, one each,
/// and no other value names a charset.
pub proof fn charset_spellings(s: String)
    ensures
        s@ == "braille"@ ==> charset_named(JsonValue::Str(s)) == Some(ChartCharset::Braille),
        s@ == "dot"@ ==> charset_named(JsonValue::Str(s)) == Some(ChartCharset::Dot),
        s@ == "block"@ ==> charset_named(JsonValue::Str(s)) == Some(ChartCharset::Block),
        s@ == "half_block"@ ==> charset_named(JsonValue::Str(s)) == Some(ChartCharset::HalfBlock),
        s@ == "bar"@ ==> charset_named(JsonValue::Str(s)) == Some(ChartCharset::Bar),
        !(s@ == "braille"@ || s@ == "dot"@ || s@ == "block"@ || s@ == "half_block"@ || s@ == "bar"@)
            ==> charset_named(JsonValue::Str(s)) is None,
{
    reveal_strlit("braille");
    reveal_strlit("dot");
    reveal_strlit("block");
    reveal_strlit("half_block");
    reveal_strlit("bar");
    assert("braille"@.len() == 7 && "dot"@.len() == 3 && "block"@.len() == 5 && "half_block"@.len() == 10
        && "bar"@.len() == 3);
    assert("braille"@[1] == 'r' && "block"@[1] == 'l' && "dot"@[0] == 'd' && "bar"@[0] == 'b');
}

/// A `borders` option that names a set wins over the configured set; one
/// that names none (or no option) keeps the configured set.
pub proof fn border_option_wins(opts: JsonValue, configured: WidgetBorders)
    ensures
        ({
            let eff = effective_borders(Some(opts), configured);
            match json_get(opts, OPT_BORDERS@) {
                Some(v) => match borders_named(v) {
                    Some(b) => eff == b,
                    None => eff == configured,
                },
                None => eff == configured,
            }
        }),
        effective_borders(None, configured) == configured,
{
}

/// A `charset` option that names a charset wins over the configured one;
/// one that names none (or no option) keeps the configured charset.
pub proof fn charset_option_wins(opts: JsonValue, configured: ChartCharset)
    ensures
        ({
            let eff = effective_charset(Some(opts), configured);
            match json_get(opts, OPT_CHARSET@) {
                Some(v) => match charset_named(v) {
                    Some(c) => eff == c,
                    None => eff == configured,
                },
                None => eff == configured,
            }
        }),
        effective_charset(None, configured) == configured,
{
}

} // verus!
