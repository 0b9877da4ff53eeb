//! Colours and values for style sheets.

use vstd::prelude::*;
use vstd::string::*;

use crate::text;
use crate::text::{chars_of, contains, lower, trim, trim_leading};

verus! {

/// `c` is a hexadecimal digit.
pub open spec fn is_hex(c: char) -> bool {
    ('0' <= c && c <= '9') || ('a' <= c && c <= 'f') || ('A' <= c && c <= 'F')
}

/// The value of a hexadecimal digit.
pub open spec fn hex_value(c: char) -> int {
    if '0' <= c && c <= '9' {
        c as int - 48
    } else if 'a' <= c && c <= 'f' {
        c as int - 87
    } else {
        c as int - 55
    }
}

/// The value of the two hexadecimal digits at `i`.
pub open spec fn hex_pair(h: Seq<char>, i: int) -> int {
    16 * hex_value(h[i]) + hex_value(h[i + 1])
}

/// The colour that a hexadecimal notation names: three or six digits, with or without an alpha
/// that is left aside, with white space and `#` signs in front allowed.
pub open spec fn hex_color(s: Seq<char>) -> Option<(int, int, int)> {
    let h = text::without_leading(text::trimmed(s), '#');
    if !(forall|i: int| 0 <= i < h.len() ==> is_hex(#[trigger] h[i])) {
        None
    } else if h.len() == 3 || h.len() == 4 {
        Some((17 * hex_value(h[0]), 17 * hex_value(h[1]), 17 * hex_value(h[2])))
    } else if h.len() == 6 || h.len() == 8 {
        Some((hex_pair(h, 0), hex_pair(h, 2), hex_pair(h, 4)))
    } else {
        None
    }
}

/// The value of a hexadecimal digit.
pub fn hex_digit(c: char) -> (r: Option<u8>)
    ensures
        match r {
            Some(v) => is_hex(c) && v == hex_value(c) && v < 16,
            None => !is_hex(c),
        },
{
    if '0' <= c && c <= '9' {
        Some((c as u8) - 48)
    } else if 'a' <= c && c <= 'f' {
        Some((c as u8) - 87)
    } else if 'A' <= c && c <= 'F' {
        Some((c as u8) - 55)
    } else {
        None
    }
}

/// Reads a hexadecimal colour as red, green and blue.
pub fn parse_hex_color(s: &str) -> (r: Option<[u8; 3]>)
    ensures
        match r {
            Some(c) => hex_color(s@) == Some((c@[0] as int, c@[1] as int, c@[2] as int)),
            None => hex_color(s@) is None,
        },
{
    let h = chars_of(trim_leading(trim(s).as_str(), '#').as_str());
    let mut values: Vec<u8> = Vec::new();
    let mut i: usize = 0;
    while i < h.len()
        invariant
            i <= h@.len(),
            values@.len() == i,
            h@ == text::without_leading(text::trimmed(s@), '#'),
            forall|k: int| 0 <= k < i ==> is_hex(#[trigger] h@[k]),
            forall|k: int|
                0 <= k < i ==> (#[trigger] values@[k]) == hex_value(h@[k]) && values@[k] < 16,
        decreases h.len() - i,
    {
        match hex_digit(h[i]) {
            Some(v) => values.push(v),
            None => return None,
        }
        i = i + 1;
    }
    if values.len() == 3 || values.len() == 4 {
        Some([values[0] * 17, values[1] * 17, values[2] * 17])
    } else if values.len() == 6 || values.len() == 8 {
        Some(
            [
                values[0] * 16 + values[1],
                values[2] * 16 + values[3],
                values[4] * 16 + values[5],
            ],
        )
    } else {
        None
    }
}

/// The characters that could end a declaration, an attribute or an element.
pub open spec fn is_meta(c: char) -> bool {
    c == ';' || c == '{' || c == '}' || c == '<' || c == '>' || c == '"'
}

/// The value calls for something outside the sheet: it loads a resource or runs a script.
pub open spec fn is_dangerous(raw: Seq<char>) -> bool {
    let s = text::ascii_lower(raw);
    ||| text::occurs(s, "url("@)
    ||| text::occurs(s, "expression("@)
    ||| text::occurs(s, "@import"@)
    ||| text::occurs(s, "javascript:"@)
}

/// What one character of a safe value becomes.
pub open spec fn kept(c: char) -> Seq<char> {
    if is_meta(c) {
        Seq::empty()
    } else {
        seq![c]
    }
}

/// The value without its meta characters.
pub open spec fn without_meta(raw: Seq<char>) -> Seq<char> {
    text::mapped(raw, |c: char| kept(c))
}

/// The value as it may stand in a style sheet. What is left without the meta characters is looked at
/// too: taking them out may join what was apart.
pub open spec fn sanitized(raw: Seq<char>, fallback: Seq<char>) -> Seq<char> {
    if is_dangerous(raw) || is_dangerous(without_meta(raw)) {
        fallback
    } else {
        without_meta(raw)
    }
}

fn dangerous(s: &str) -> (r: bool)
    ensures
        r == is_dangerous(s@),
{
    let low = lower(s);
    contains(low.as_str(), "url(") || contains(low.as_str(), "expression(") || contains(
        low.as_str(),
        "@import",
    ) || contains(low.as_str(), "javascript:")
}

/// Makes a value safe to stand in a style sheet: it loses its meta characters, and one that is
/// dangerous, before or after, gives way to the fallback.
pub fn sanitize_css_value(raw: &str, fallback: &str) -> (r: String)
    ensures
        r@ == sanitized(raw@, fallback@),
{
    if dangerous(raw) {
        return fallback.to_owned();
    }
    let cs = chars_of(raw);
    let mut out = String::new();
    let mut i: usize = 0;
    while i < cs.len()
        invariant
            i <= cs@.len(),
            cs@ == raw@,
            out@ == without_meta(raw@.take(i as int)),
        decreases cs.len() - i,
    {
        let c = cs[i];
        proof {
            text::lemma_mapped_step(raw@, |c: char| kept(c), i as int);
        }
        if !(c == ';' || c == '{' || c == '}' || c == '<' || c == '>' || c == '"') {
            out.push(c);
        }
        proof {
            assert(out@ =~= without_meta(raw@.take(i as int)) + kept(c));
        }
        i = i + 1;
    }
    proof {
        text::lemma_take_all(raw@);
    }
    if dangerous(out.as_str()) {
        return fallback.to_owned();
    }
    out
}

/// A value calls for nothing outside the sheet and holds nothing that could end a declaration.
pub open spec fn is_safe(value: Seq<char>) -> bool {
    !is_dangerous(value) && forall|c: char| is_meta(c) ==> !value.contains(c)
}

/// Whatever the value is, a safe one comes out, as long as the fallback is safe.
pub proof fn law_sanitized_is_safe(raw: Seq<char>, fallback: Seq<char>)
    requires
        is_safe(fallback),
    ensures
        is_safe(sanitized(raw, fallback)),
{
    assert forall|c: char| is_meta(c) implies !without_meta(raw).contains(c) by {
        lemma_no_meta_left(raw, c);
    }
}

/// What is safe stays as it is, so that sanitizing twice is sanitizing once.
pub proof fn law_safe_value_is_kept(raw: Seq<char>, fallback: Seq<char>)
    requires
        is_safe(raw),
    ensures
        sanitized(raw, fallback) == raw,
{
    assert forall|i: int| 0 <= i < raw.len() implies !is_meta(#[trigger] raw[i]) by {
        assert(raw.contains(raw[i]));
    }
    lemma_nothing_dropped(raw);
}

proof fn lemma_no_meta_left(raw: Seq<char>, c: char)
    requires
        is_meta(c),
    ensures
        !without_meta(raw).contains(c),
{
    let f = |x: char| kept(x);
    assert forall|x: char| !(#[trigger] f(x)).contains(c) by {
        if f(x).contains(c) {
            assert(f(x)[0] == c);
        }
    }
    text::lemma_mapped_avoids(raw, f, c);
}

proof fn lemma_nothing_dropped(raw: Seq<char>)
    requires
        forall|i: int| 0 <= i < raw.len() ==> !is_meta(#[trigger] raw[i]),
    ensures
        without_meta(raw) == raw,
    decreases raw.len(),
{
    if raw.len() > 0 {
        assert forall|i: int| 0 <= i < raw.drop_last().len() implies !is_meta(
            #[trigger] raw.drop_last()[i],
        ) by {
            assert(raw.drop_last()[i] == raw[i]);
        }
        lemma_nothing_dropped(raw.drop_last());
        assert(raw.drop_last() + seq![raw.last()] =~= raw);
    }
}

// ---------------------------------------------------------------------------
// How colors are read
// ---------------------------------------------------------------------------

/// A text of hexadecimal digits behind a number sign.
pub open spec fn behind_sign(digits: Seq<char>) -> Seq<char> {
    seq!['#'] + digits
}

proof fn lemma_behind_sign(digits: Seq<char>)
    requires
        digits.len() > 0,
        forall|i: int| 0 <= i < digits.len() ==> is_hex(#[trigger] digits[i]),
    ensures
        text::without_leading(text::trimmed(behind_sign(digits)), '#') == digits,
        text::without_leading(text::trimmed(digits), '#') == digits,
{
    let s = behind_sign(digits);
    assert(s.last() == digits.last());
    assert(is_hex(digits[0]) && is_hex(digits[digits.len() - 1]));
    text::lemma_trimmed_same(s);
    text::lemma_trimmed_same(digits);
    assert(s.skip(1) =~= digits);
    assert(text::without_leading(digits, '#') == digits);
}

/// A color of six digits is read as three numbers in base sixteen: red, green and blue.
pub proof fn law_six_digits_are_three_numbers(r: (char, char), g: (char, char), b: (char, char))
    requires
        is_hex(r.0) && is_hex(r.1) && is_hex(g.0) && is_hex(g.1) && is_hex(b.0) && is_hex(b.1),
    ensures
        hex_color(behind_sign(seq![r.0, r.1, g.0, g.1, b.0, b.1])) == Some(
            (
                hex_value(r.0) * 16 + hex_value(r.1),
                hex_value(g.0) * 16 + hex_value(g.1),
                hex_value(b.0) * 16 + hex_value(b.1),
            ),
        ),
{
    lemma_behind_sign(seq![r.0, r.1, g.0, g.1, b.0, b.1]);
}

/// The sixteen digits are worth the numbers from zero to fifteen, in either case.
pub proof fn law_digits_are_worth_their_place(d: int)
    requires
        0 <= d < 16,
    ensures
        hex_value("0123456789abcdef"@[d]) == d,
        hex_value("0123456789ABCDEF"@[d]) == d,
        is_hex("0123456789abcdef"@[d]),
        is_hex("0123456789ABCDEF"@[d]),
{
    reveal_strlit("0123456789abcdef");
    reveal_strlit("0123456789ABCDEF");
}

/// A digit is read the same in either case.
pub proof fn law_case_of_digits_does_not_matter(c: char)
    requires
        is_hex(c),
    ensures
        is_hex(text::lower_char(c)),
        hex_value(text::lower_char(c)) == hex_value(c),
        0 <= hex_value(c) < 16,
{
}

/// Three digits are a color of six, each digit twice.
pub proof fn law_short_color_is_doubled(r: char, g: char, b: char)
    requires
        is_hex(r) && is_hex(g) && is_hex(b),
    ensures
        hex_color(behind_sign(seq![r, g, b])) == hex_color(behind_sign(seq![r, r, g, g, b, b])),
        hex_color(behind_sign(seq![r, g, b])) is Some,
{
    lemma_behind_sign(seq![r, g, b]);
    lemma_behind_sign(seq![r, r, g, g, b, b]);
}

/// The transparency behind a color is not part of it, and neither is the number sign.
pub proof fn law_transparency_is_left_out(h: Seq<char>, a: char, z: char)
    requires
        h.len() == 3 || h.len() == 6,
        forall|i: int| 0 <= i < h.len() ==> is_hex(#[trigger] h[i]),
        is_hex(a) && is_hex(z),
    ensures
        hex_color(h) == hex_color(behind_sign(h)),
        h.len() == 6 ==> hex_color(behind_sign(h + seq![a, z])) == hex_color(behind_sign(h)),
        h.len() == 3 ==> hex_color(behind_sign(h + seq![a])) == hex_color(behind_sign(h)),
{
    lemma_behind_sign(h);
    if h.len() == 6 {
        lemma_behind_sign(h + seq![a, z]);
    } else {
        lemma_behind_sign(h + seq![a]);
    }
}

/// What has another number of digits, or anything but digits, is no color.
pub proof fn law_other_lengths_are_no_colors(h: Seq<char>)
    requires
        h.len() > 0,
        forall|i: int| 0 <= i < h.len() ==> is_hex(#[trigger] h[i]),
    ensures
        hex_color(behind_sign(h)) is Some <==> h.len() == 3 || h.len() == 4 || h.len() == 6
            || h.len() == 8,
{
    lemma_behind_sign(h);
}

/// A value that could load or run something is replaced, in whatever case it is written, and nothing
/// that could end the declaration around it is left in any value.
pub proof fn law_dangerous_values_are_replaced(raw: Seq<char>, fallback: Seq<char>, c: char)
    ensures
        text::occurs(text::ascii_lower(raw), "url("@) || text::occurs(
            text::ascii_lower(raw),
            "expression("@,
        ) || text::occurs(text::ascii_lower(raw), "@import"@) || text::occurs(
            text::ascii_lower(raw),
            "javascript:"@,
        ) ==> sanitized(raw, fallback) == fallback,
        (c == ';' || c == '{' || c == '}' || c == '<' || c == '>' || c == '"') && !fallback.contains(c)
            ==> !sanitized(raw, fallback).contains(c),
{
    if c == ';' || c == '{' || c == '}' || c == '<' || c == '>' || c == '"' {
        lemma_no_meta_left(raw, c);
    }
}

} // verus!
