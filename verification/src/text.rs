//! Single-column text helpers: sanitizing model text so that every char
//! occupies exactly one terminal column, and cutting text to a width with a
//! visible `…` mark.

use vstd::prelude::*;

verus! {

broadcast use vstd::string::group_string_axioms;

/// The ellipsis that marks a cut string.
pub const ELLIPSIS: char = '…';

/// Calls std's `String::push`. Trusted: afterwards the string holds its old
/// chars followed by `c`.
#[verifier::external_body]
pub(crate) fn push_char(s: &mut String, c: char)
    ensures
        final(s)@ == old(s)@.push(c),
{
    s.push(c);
}

/// Appends every char of `text`.
pub(crate) fn push_str(out: &mut String, text: &str)
    ensures
        final(out)@ == old(out)@ + text@,
{
    let ghost start = out@;
    for ch in it: text.chars()
        invariant
            it.seq() == text@,
            out@ == start + text@.take(it.index() as int),
    {
        assert(text@.take(it.index() as int + 1) =~= text@.take(it.index() as int).push(ch));
        push_char(out, ch);
    }
    assert(text@.take(text@.len() as int) =~= text@);
}

/// The bytes of the UTF-8 encoding of `s`, as `str::len` reports them.
pub open spec fn byte_width(s: Seq<char>) -> nat {
    (vstd::utf8::encode_utf8(s).len() as usize) as nat
}

proof fn lemma_encode_len(s: Seq<char>)
    ensures
        vstd::utf8::encode_utf8(s).len() <= 4 * s.len(),
    decreases s.len(),
{
    if s.len() > 0 {
        lemma_encode_len(s.drop_first());
    }
}

/// A text takes at most four bytes per char.
pub proof fn lemma_byte_width_bound(s: Seq<char>)
    ensures
        byte_width(s) <= 4 * s.len(),
{
    lemma_encode_len(s);
}

/// Unicode general category `Cc` (what `char::is_control` tests).
pub open spec fn is_control_code(cp: u32) -> bool {
    cp <= 0x1f || (0x7f <= cp && cp <= 0x9f)
}

/// Combining marks and variation selectors (zero-width in a terminal).
pub open spec fn is_combining_code(cp: u32) -> bool {
    ||| (0x0300 <= cp && cp <= 0x036f)
    ||| (0x1ab0 <= cp && cp <= 0x1aff)
    ||| (0x1dc0 <= cp && cp <= 0x1dff)
    ||| (0x20d0 <= cp && cp <= 0x20ff)
    ||| (0xfe00 <= cp && cp <= 0xfe0f)
    ||| (0xfe20 <= cp && cp <= 0xfe2f)
}

/// CJK, full-width forms, emoji and the zero-width joiner.
pub open spec fn is_wide_code(cp: u32) -> bool {
    ||| (0x1100 <= cp && cp <= 0x115f)
    ||| (0x2e80 <= cp && cp <= 0x303e)
    ||| (0x3041 <= cp && cp <= 0x33ff)
    ||| (0x3400 <= cp && cp <= 0x4dbf)
    ||| (0x4e00 <= cp && cp <= 0x9fff)
    ||| (0xa000 <= cp && cp <= 0xa4cf)
    ||| (0xa960 <= cp && cp <= 0xa97f)
    ||| (0xac00 <= cp && cp <= 0xd7a3)
    ||| (0xf900 <= cp && cp <= 0xfaff)
    ||| (0xfe10 <= cp && cp <= 0xfe19)
    ||| (0xfe30 <= cp && cp <= 0xfe6f)
    ||| (0xff00 <= cp && cp <= 0xff60)
    ||| (0xffe0 <= cp && cp <= 0xffe6)
    ||| (0x1f000 <= cp && cp <= 0x1faff)
    ||| (0x1f1e6 <= cp && cp <= 0x1f1ff)
    ||| (0x20000 <= cp && cp <= 0x3fffd)
    ||| cp == 0x200d
}

/// A char occupies exactly one terminal column in the model the renderers
/// assume.
pub open spec fn single_column(c: char) -> bool {
    let cp = c as u32;
    !(is_control_code(cp) || is_combining_code(cp) || is_wide_code(cp))
}

/// The sanitized form of one char: itself when single-column, `?` otherwise.
pub open spec fn sanitize_char(c: char) -> char {
    if single_column(c) { c } else { '?' }
}

/// Sanitized text: every char that is not exactly one column wide becomes
/// `?`.
pub open spec fn sanitized(s: Seq<char>) -> Seq<char> {
    s.map_values(|c: char| sanitize_char(c))
}

/// Text cut to `width` columns: sanitized; when longer than `width` it
/// keeps `width - 1` chars and ends with `…`; nothing at width 0.
pub open spec fn truncated(s: Seq<char>, width: nat) -> Seq<char> {
    let clean = sanitized(s);
    if width == 0 {
        Seq::empty()
    } else if clean.len() > width {
        clean.take(width - 1).push(ELLIPSIS)
    } else {
        clean
    }
}

fn in_range(cp: u32, lo: u32, hi: u32) -> (r: bool)
    ensures
        r == (lo <= cp && cp <= hi),
{
    lo <= cp && cp <= hi
}

/// True when `c` occupies exactly one terminal column (ASCII, box drawing,
/// braille and block glyphs do; control codes, combining marks, CJK,
/// full-width forms and emoji do not).
pub fn is_single_column(c: char) -> (r: bool)
    ensures
        r == single_column(c),
{
    let cp = c as u32;
    let control = cp <= 0x1f || in_range(cp, 0x7f, 0x9f);
    let combining = in_range(cp, 0x0300, 0x036f) || in_range(cp, 0x1ab0, 0x1aff)
        || in_range(cp, 0x1dc0, 0x1dff) || in_range(cp, 0x20d0, 0x20ff)
        || in_range(cp, 0xfe00, 0xfe0f) || in_range(cp, 0xfe20, 0xfe2f);
    let wide = in_range(cp, 0x1100, 0x115f) || in_range(cp, 0x2e80, 0x303e)
        || in_range(cp, 0x3041, 0x33ff) || in_range(cp, 0x3400, 0x4dbf)
        || in_range(cp, 0x4e00, 0x9fff) || in_range(cp, 0xa000, 0xa4cf)
        || in_range(cp, 0xa960, 0xa97f) || in_range(cp, 0xac00, 0xd7a3)
        || in_range(cp, 0xf900, 0xfaff) || in_range(cp, 0xfe10, 0xfe19)
        || in_range(cp, 0xfe30, 0xfe6f) || in_range(cp, 0xff00, 0xff60)
        || in_range(cp, 0xffe0, 0xffe6) || in_range(cp, 0x1f000, 0x1faff)
        || in_range(cp, 0x1f1e6, 0x1f1ff) || in_range(cp, 0x20000, 0x3fffd)
        || cp == 0x200d;
    !(control || combining || wide)
}

/// Replace every char that is not one terminal column wide (or a control
/// code) with `?`, so fixed-column rows never misalign on model text.
pub fn sanitize_text(text: &str) -> (res: String)
    ensures
        res@ == sanitized(text@),
        res@.len() == text@.len(),
{
    let mut out = String::new();
    for ch in it: text.chars()
        invariant
            it.seq() == text@,
            out@ == sanitized(text@.take(it.index() as int)),
    {
        let c = if is_single_column(ch) { ch } else { '?' };
        assert(sanitized(text@.take(it.index() as int + 1)) =~= sanitized(
            text@.take(it.index() as int),
        ).push(sanitize_char(ch)));
        push_char(&mut out, c);
    }
    assert(text@.take(text@.len() as int) =~= text@);
    out
}

/// Truncate sanitized text to `width` columns; a cut string ends with `…`
/// (the ellipsis takes the last of the `width` columns).
pub fn truncate_chars(text: &str, width: usize) -> (res: String)
    ensures
        res@ == truncated(text@, width as nat),
{
    let clean = sanitize_text(text);
    if width == 0 {
        return String::new();
    }
    let n = clean.as_str().unicode_len();
    let cut = n > width;
    let keep = if cut { width - 1 } else { n };
    let mut out = String::new();
    let mut count: usize = 0;
    for ch in it: clean.as_str().chars()
        invariant
            it.seq() == clean@,
            n == clean@.len(),
            keep <= n,
            count <= keep,
            count == if it.index() <= keep { it.index() as int } else { keep as int },
            out@ == clean@.take(count as int),
    {
        if count < keep {
            assert(clean@.take(count as int + 1) =~= clean@.take(count as int).push(ch));
            push_char(&mut out, ch);
            count = count + 1;
        }
    }
    if cut {
        push_char(&mut out, ELLIPSIS);
    } else {
        assert(clean@.take(clean@.len() as int) =~= clean@);
    }
    out
}

/// Sanitizing keeps the length and leaves only single-column chars.
pub proof fn sanitized_is_single_column(s: Seq<char>)
    ensures
        sanitized(s).len() == s.len(),
        forall|i: int| 0 <= i < s.len() ==> single_column(#[trigger] sanitized(s)[i]),
        forall|i: int| 0 <= i < s.len() && single_column(s[i]) ==> #[trigger] sanitized(s)[i] == s[i],
{
    assert(single_column('?'));
}

/// A cut text never takes more than `width` columns, every char of it is
/// single-column, a text that fits is kept whole (sanitized) and a text
/// that does not fit ends with the ellipsis after its first `width - 1`
/// chars.
pub proof fn truncation_fits(s: Seq<char>, width: nat)
    ensures
        truncated(s, width).len() <= width,
        forall|i: int| 0 <= i < truncated(s, width).len() ==> single_column(#[trigger] truncated(s, width)[i]),
        s.len() <= width ==> truncated(s, width) == sanitized(s),
        s.len() > width && width > 0 ==> truncated(s, width).len() == width && truncated(s, width).last()
            == ELLIPSIS && truncated(s, width).drop_last() == sanitized(s).take(width - 1),
{
    sanitized_is_single_column(s);
    assert(single_column(ELLIPSIS));
    let t = truncated(s, width);
    if s.len() > width && width > 0 {
        assert(t.drop_last() =~= sanitized(s).take(width - 1));
        assert forall|i: int| 0 <= i < t.len() implies single_column(#[trigger] t[i]) by {
            if i < width - 1 {
                assert(t[i] == sanitized(s)[i]);
            }
        }
    }
}


/// Wide chars (CJK, Hangul jamo and syllables, full-width forms, emoji,
/// the zero-width joiner) take two columns (or none), so sanitizing
/// replaces each of them with `?`.
pub proof fn wide_chars_become_question_marks(s: Seq<char>, i: int)
    requires
        0 <= i < s.len(),
        ({
            let cp = s[i] as u32;
            ||| (0x1100 <= cp && cp <= 0x115f)
            ||| (0x2e80 <= cp && cp <= 0x303e)
            ||| (0x3041 <= cp && cp <= 0x33ff)
            ||| (0x3400 <= cp && cp <= 0x4dbf)
            ||| (0x4e00 <= cp && cp <= 0x9fff)
            ||| (0xa000 <= cp && cp <= 0xa4cf)
            ||| (0xa960 <= cp && cp <= 0xa97f)
            ||| (0xac00 <= cp && cp <= 0xd7a3)
            ||| (0xf900 <= cp && cp <= 0xfaff)
            ||| (0xfe10 <= cp && cp <= 0xfe19)
            ||| (0xfe30 <= cp && cp <= 0xfe6f)
            ||| (0xff00 <= cp && cp <= 0xff60)
            ||| (0xffe0 <= cp && cp <= 0xffe6)
            ||| (0x1f000 <= cp && cp <= 0x1faff)
            ||| (0x1f1e6 <= cp && cp <= 0x1f1ff)
            ||| (0x20000 <= cp && cp <= 0x3fffd)
            ||| cp == 0x200d
        }),
    ensures
        !single_column(s[i]),
        sanitized(s)[i] == '?',
{
}

/// Control codes and combining marks (zero columns) are replaced with `?`.
pub proof fn control_and_combining_become_question_marks(s: Seq<char>, i: int)
    requires
        0 <= i < s.len(),
        ({
            let cp = s[i] as u32;
            ||| cp <= 0x1f
            ||| (0x7f <= cp && cp <= 0x9f)
            ||| (0x0300 <= cp && cp <= 0x036f)
            ||| (0x1ab0 <= cp && cp <= 0x1aff)
            ||| (0x1dc0 <= cp && cp <= 0x1dff)
            ||| (0x20d0 <= cp && cp <= 0x20ff)
            ||| (0xfe00 <= cp && cp <= 0xfe0f)
            ||| (0xfe20 <= cp && cp <= 0xfe2f)
        }),
    ensures
        !single_column(s[i]),
        sanitized(s)[i] == '?',
{
}

/// The one-column chars the rows are built from stay as they are: printable
/// ASCII and Latin-1, box drawing, block elements and braille.
pub proof fn narrow_chars_are_kept(s: Seq<char>, i: int)
    requires
        0 <= i < s.len(),
        ({
            let cp = s[i] as u32;
            ||| (0x20 <= cp && cp <= 0x7e)
            ||| (0xa0 <= cp && cp <= 0x2ff)
            ||| (0x2500 <= cp && cp <= 0x259f)
            ||| (0x2800 <= cp && cp <= 0x28ff)
        }),
    ensures
        single_column(s[i]),
        sanitized(s)[i] == s[i],
{
}

} // verus!
