//! Colour notations.

use vstd::prelude::*;
use vstd::string::*;

use crate::css;
use crate::css::parse_hex_color;
use crate::text;
use crate::text::{chars_of, lower, parse_unsigned, same, slice, split, strip_prefix, trim};

verus! {

/// The byte that a text stands for.
pub open spec fn byte_value(s: Seq<char>) -> Option<int> {
    match text::unsigned_value(s) {
        Some(v) => if v <= 255 {
            Some(v)
        } else {
            None
        },
        None => None,
    }
}

/// The first three of the components between commas.
pub open spec fn rgb_components(s: Seq<char>) -> Option<(int, int, int)> {
    let parts = text::split_on(s, ',');
    if parts.len() < 3 {
        None
    } else {
        match (
            byte_value(text::trimmed(parts[0])),
            byte_value(text::trimmed(parts[1])),
            byte_value(text::trimmed(parts[2])),
        ) {
            (Some(r), Some(g), Some(b)) => Some((r, g, b)),
            _ => None,
        }
    }
}

/// The colours that have names.
pub open spec fn name_color(name: Seq<char>) -> Option<(int, int, int)> {
    if name == "black"@ {
        Some((0, 0, 0))
    } else if name == "white"@ {
        Some((255, 255, 255))
    } else if name == "red"@ {
        Some((255, 0, 0))
    } else if name == "green"@ {
        Some((0, 128, 0))
    } else if name == "blue"@ {
        Some((0, 0, 255))
    } else if name == "yellow"@ {
        Some((255, 255, 0))
    } else if name == "gray"@ || name == "grey"@ {
        Some((128, 128, 128))
    } else if name == "orange"@ {
        Some((255, 165, 0))
    } else if name == "purple"@ {
        Some((128, 0, 128))
    } else if name == "transparent"@ {
        Some((255, 255, 255))
    } else {
        None
    }
}

/// What stands between an opening and a closing bracket.
pub open spec fn inside(s: Seq<char>, open: Seq<char>) -> Option<Seq<char>> {
    if open.is_prefix_of(s) && s.len() > open.len() && s.last() == ')' {
        Some(s.skip(open.len() as int).drop_last())
    } else {
        None
    }
}

/// The colour that a notation names: hexadecimal, `rgb()` or `rgba()`, or a name.
pub open spec fn any_color(s: Seq<char>) -> Option<(int, int, int)> {
    let t = text::trimmed(s);
    match css::hex_color(t) {
        Some(c) => Some(c),
        None => {
            let l = text::ascii_lower(t);
            match inside(l, "rgba("@) {
                Some(parts) => rgb_components(parts),
                None => match inside(l, "rgb("@) {
                    Some(parts) => rgb_components(parts),
                    None => name_color(l),
                },
            }
        },
    }
}

/// The byte that a text stands for.
pub fn parse_byte(s: &str) -> (r: Option<u8>)
    ensures
        match r {
            Some(v) => byte_value(s@) == Some(v as int),
            None => byte_value(s@) is None,
        },
{
    match parse_unsigned(s, 255) {
        Some(v) => Some(v as u8),
        None => None,
    }
}

/// The first three of the components between commas.
pub fn parse_rgb_components(rest: &str) -> (r: Option<(u8, u8, u8)>)
    ensures
        match r {
            Some(c) => rgb_components(rest@) == Some((c.0 as int, c.1 as int, c.2 as int)),
            None => rgb_components(rest@) is None,
        },
{
    let parts = split(rest, ',');
    proof {
        assert(parts@.len() == text::split_on(rest@, ',').len());
    }
    if parts.len() < 3 {
        return None;
    }
    proof {
        assert(text::texts(parts@)[0] == parts@[0]@);
        assert(text::texts(parts@)[1] == parts@[1]@);
        assert(text::texts(parts@)[2] == parts@[2]@);
    }
    let r = parse_byte(trim(parts[0].as_str()).as_str());
    let g = parse_byte(trim(parts[1].as_str()).as_str());
    let b = parse_byte(trim(parts[2].as_str()).as_str());
    match (r, g, b) {
        (Some(r), Some(g), Some(b)) => Some((r, g, b)),
        _ => None,
    }
}

/// The colours that have names.
pub fn named_color(name: &str) -> (r: Option<(u8, u8, u8)>)
    ensures
        match r {
            Some(c) => name_color(name@) == Some((c.0 as int, c.1 as int, c.2 as int)),
            None => name_color(name@) is None,
        },
{
    if same(name, "black") {
        Some((0, 0, 0))
    } else if same(name, "white") {
        Some((255, 255, 255))
    } else if same(name, "red") {
        Some((255, 0, 0))
    } else if same(name, "green") {
        Some((0, 128, 0))
    } else if same(name, "blue") {
        Some((0, 0, 255))
    } else if same(name, "yellow") {
        Some((255, 255, 0))
    } else if same(name, "gray") || same(name, "grey") {
        Some((128, 128, 128))
    } else if same(name, "orange") {
        Some((255, 165, 0))
    } else if same(name, "purple") {
        Some((128, 0, 128))
    } else if same(name, "transparent") {
        Some((255, 255, 255))
    } else {
        None
    }
}

fn between(s: &str, open: &str) -> (r: Option<String>)
    ensures
        text::opt_text(r) == inside(s@, open@),
{
    match strip_prefix(s, open) {
        Some(rest) => {
            let cs = chars_of(rest.as_str());
            if cs.len() > 0 && cs[cs.len() - 1] == ')' {
                proof {
                    assert(cs@.last() == s@.last());
                    assert(cs@.drop_last() =~= cs@.subrange(0, cs@.len() - 1));
                }
                Some(slice(&cs, 0, cs.len() - 1))
            } else {
                None
            }
        },
        None => None,
    }
}

/// The colour that a notation names.
pub fn parse_color_any(color: &str) -> (r: Option<(u8, u8, u8)>)
    ensures
        match r {
            Some(c) => any_color(color@) == Some((c.0 as int, c.1 as int, c.2 as int)),
            None => any_color(color@) is None,
        },
{
    let trimmed = trim(color);
    match parse_hex_color(trimmed.as_str()) {
        Some(c) => Some((c[0], c[1], c[2])),
        None => {
            let low = lower(trimmed.as_str());
            match between(low.as_str(), "rgba(") {
                Some(parts) => parse_rgb_components(parts.as_str()),
                None => match between(low.as_str(), "rgb(") {
                    Some(parts) => parse_rgb_components(parts.as_str()),
                    None => named_color(low.as_str()),
                },
            }
        },
    }
}

/// A number of no more than two hundred and fifty-five, in decimal.
pub open spec fn is_byte(v: int) -> bool {
    0 <= v <= 255
}

proof fn lemma_byte_read(v: nat)
    requires
        v <= 255,
    ensures
        byte_value(text::trimmed(text::decimal(v))) == Some(v as int),
        !text::decimal(v).contains(','),
{
    text::law_decimal_is_read(v);
    let s = text::decimal(v);
    assert('0' <= s[0] && s[0] <= '9');
    assert('0' <= s[s.len() - 1] && s[s.len() - 1] <= '9');
    text::lemma_trimmed_same(s);
    if s.contains(',') {
        let i = choose|i: int| 0 <= i < s.len() && s[i] == ',';
        assert('0' <= s[i] && s[i] <= '9');
    }
}

/// Three numbers between commas are red, green and blue, in this order, whatever comes behind them.
pub proof fn law_components_are_read_in_order(r: nat, g: nat, b: nat, rest: Seq<char>)
    requires
        r <= 255 && g <= 255 && b <= 255,
        !rest.contains(','),
    ensures
        ({
            let three = text::decimal(r) + seq![','] + text::decimal(g) + seq![','] + text::decimal(
                b,
            );
            &&& rgb_components(three) == Some((r as int, g as int, b as int))
            &&& rgb_components(three + seq![','] + rest) == Some((r as int, g as int, b as int))
        }),
{
    lemma_byte_read(r);
    lemma_byte_read(g);
    lemma_byte_read(b);
    let nothing = Seq::<char>::empty();
    let dr = text::decimal(r);
    assert(nothing + dr =~= dr);
    text::lemma_split_tail(nothing, dr, ',');
    assert(text::split_on(nothing, ',') =~= seq![nothing]);
    assert(text::split_on(dr, ',') =~= seq![dr]);
    text::lemma_split_more(dr, text::decimal(g), ',');
    let two = dr + seq![','] + text::decimal(g);
    text::lemma_split_more(two, text::decimal(b), ',');
    let three = two + seq![','] + text::decimal(b);
    text::lemma_split_more(three, rest, ',');
}

/// A number above two hundred and fifty-five makes the whole no color.
pub proof fn law_components_are_bytes(s: Seq<char>)
    ensures
        rgb_components(s) matches Some((r, g, b)) ==> is_byte(r) && is_byte(g) && is_byte(b),
        text::split_on(s, ',').len() < 3 ==> rgb_components(s) is None,
{
    let parts = text::split_on(s, ',');
    if parts.len() >= 3 {
        text::lemma_unsigned_not_negative(text::trimmed(parts[0]));
        text::lemma_unsigned_not_negative(text::trimmed(parts[1]));
        text::lemma_unsigned_not_negative(text::trimmed(parts[2]));
    }
}

} // verus!
