//! JSON, read and written through `serde_json`.

use vstd::prelude::*;
use vstd::string::*;

use crate::num::{Num, NumView};
use crate::text;

verus! {

/// A JSON value, opaque; see `json_content`.
#[verifier::external_type_specification]
#[verifier::external_body]
pub struct ExValue(serde_json::Value);

/// What a JSON value is; a number is taken as the double that it reads as.
pub enum Json {
    Null,
    Bool(bool),
    Number(NumView),
    Text(Seq<char>),
    Array(Seq<Json>),
    Object(Map<Seq<char>, Json>),
}

/// What a `serde_json::Value` holds.
pub uninterp spec fn json_content(v: serde_json::Value) -> Json;

/// The value that `serde_json::from_str` reads a text as; `None` where it is not JSON.
pub uninterp spec fn json_read(text: Seq<char>) -> Option<Json>;

/// The values, one by one.
pub open spec fn json_contents(s: Seq<serde_json::Value>) -> Seq<Json> {
    s.map_values(|v: serde_json::Value| json_content(v))
}

/// What stands under a key: null where the value is no object or lacks the key.
pub open spec fn under(j: Json, key: Seq<char>) -> Json {
    match j {
        Json::Object(m) => if m.dom().contains(key) {
            m[key]
        } else {
            Json::Null
        },
        _ => Json::Null,
    }
}

/// What stands at an index: null where the value is no array or is too short.
pub open spec fn at(j: Json, i: int) -> Json {
    match j {
        Json::Array(s) => if 0 <= i < s.len() {
            s[i]
        } else {
            Json::Null
        },
        _ => Json::Null,
    }
}

/// The text that the value is.
pub open spec fn as_text(j: Json) -> Option<Seq<char>> {
    match j {
        Json::Text(s) => Some(s),
        _ => None,
    }
}

/// The number that the value is.
pub open spec fn as_number(j: Json) -> Option<NumView> {
    match j {
        Json::Number(n) => Some(n),
        _ => None,
    }
}

/// Calls `serde_json::from_str` for a `serde_json::Value`: whether it succeeds and what it reads
/// follow from the text alone.
#[verifier::external_body]
pub(crate) fn read(text: &str) -> (r: Option<serde_json::Value>)
    ensures
        match r {
            Some(v) => json_read(text@) == Some(json_content(v)),
            None => json_read(text@) is None,
        },
{
    serde_json::from_str::<serde_json::Value>(text).ok()
}

/// Indexes a `serde_json::Value` with a string (`Index::index`): what stands under the key, null
/// where there is nothing.
#[verifier::external_body]
pub(crate) fn get<'a>(v: &'a serde_json::Value, key: &str) -> (r: &'a serde_json::Value)
    ensures
        json_content(*r) == under(json_content(*v), key@),
{
    &v[key]
}

/// Indexes a `serde_json::Value` with a number (`Index::index`): what stands at the index, null
/// where there is nothing.
#[verifier::external_body]
pub(crate) fn get_at(v: &serde_json::Value, i: usize) -> (r: &serde_json::Value)
    ensures
        json_content(*r) == at(json_content(*v), i as int),
{
    &v[i]
}

/// Calls `serde_json::Value::as_str`: the text, where the value is one.
#[verifier::external_body]
pub(crate) fn text_of(v: &serde_json::Value) -> (r: Option<String>)
    ensures
        text::opt_text(r) == as_text(json_content(*v)),
{
    v.as_str().map(|s| s.to_owned())
}

/// Calls `serde_json::Value::as_f64`: the number, where the value is one, as its bits and as it
/// prints.
#[verifier::external_body]
pub(crate) fn number_of(v: &serde_json::Value) -> (r: Option<Num>)
    ensures
        crate::canvas::opt_num(r) == as_number(json_content(*v)),
{
    v.as_f64().map(|n| Num { bits: n.to_bits(), text: n.to_string() })
}

/// Calls `serde_json::Value::as_array`: the items, where the value is an array.
#[verifier::external_body]
pub(crate) fn items_of(v: &serde_json::Value) -> (r: Option<&Vec<serde_json::Value>>)
    ensures
        match r {
            Some(items) => json_content(*v) == Json::Array(json_contents(items@)),
            None => json_content(*v) !is Array,
        },
{
    v.as_array()
}

/// The lower-case hexadecimal digit.
pub open spec fn hex_digit(d: int) -> char {
    if d < 10 {
        (48 + d) as char
    } else {
        (87 + d) as char
    }
}

/// What one character becomes in a JSON string.
pub open spec fn json_char(c: char) -> Seq<char> {
    if c == '"' {
        "\\\""@
    } else if c == '\\' {
        "\\\\"@
    } else if c == '\u{8}' {
        "\\b"@
    } else if c == '\t' {
        "\\t"@
    } else if c == '\n' {
        "\\n"@
    } else if c == '\u{c}' {
        "\\f"@
    } else if c == '\r' {
        "\\r"@
    } else if '\0' <= c && ' ' > c {
        "\\u00"@ + seq![hex_digit(c as int / 16), hex_digit(c as int % 16)]
    } else {
        seq![c]
    }
}

/// The text as a JSON string, in quotes.
pub open spec fn quoted(s: Seq<char>) -> Seq<char> {
    "\""@ + text::mapped(s, |c: char| json_char(c)) + "\""@
}

/// The text of an object that carries a piece of an answer, where `content` is the piece in quotes.
pub open spec fn delta_text(content: Seq<char>) -> Seq<char> {
    "{\"choices\":[{\"delta\":{\"content\":"@ + content + "},\"index\":0}]}"@
}

/// The object that carries a piece of an answer.
pub open spec fn delta_object(content: Seq<char>) -> Json {
    let choice = Json::Object(
        map![
            "delta"@ => Json::Object(map!["content"@ => Json::Text(content)]),
            "index"@ => Json::Number(NumView { bits: 0, text: "0"@ }),
        ],
    );
    Json::Object(map!["choices"@ => Json::Array(seq![choice])])
}

/// Prints a `serde_json::Value` that is a string (`Value::to_string`): the text in quotes, with
/// quotes, backslashes and control characters escaped as `serde_json` escapes them, and all else as
/// it stands. `serde_json::from_str` takes the escapes back: it reads an object that carries what is
/// printed as one that carries the text.
#[verifier::external_body]
pub(crate) fn quote(s: &str) -> (r: String)
    ensures
        r@ == quoted(s@),
        json_read(delta_text(r@)) == Some(delta_object(s@)),
{
    serde_json::Value::String(s.to_owned()).to_string()
}

/// A JSON string holds no control character: it stays on its line.
pub proof fn law_string_stays_on_its_line(s: Seq<char>, bad: char)
    requires
        '\0' <= bad && ' ' > bad,
    ensures
        !quoted(s).contains(bad),
{
    let f = |c: char| json_char(c);
    reveal_strlit("\"");
    assert forall|c: char| !(#[trigger] f(c)).contains(bad) by {
        reveal_strlit("\\\"");
        reveal_strlit("\\\\");
        reveal_strlit("\\b");
        reveal_strlit("\\t");
        reveal_strlit("\\n");
        reveal_strlit("\\f");
        reveal_strlit("\\r");
        reveal_strlit("\\u00");
        let t = json_char(c);
        assert(f(c) == t);
        if t.contains(bad) {
            let k = choose|k: int| 0 <= k < t.len() && t[k] == bad;
            assert(t[k] == bad);
            if '\0' <= c && ' ' > c && t.len() == 6 {
                let x = hex_digit(c as int / 16);
                let y = hex_digit(c as int % 16);
                assert(t[4] == x && t[5] == y);
                assert(x >= '0' && y >= '0');
                assert(t[k] == "\\u00"@[k] || k == 4 || k == 5);
            }
        }
    }
    text::lemma_mapped_avoids(s, f, bad);
    let body = text::mapped(s, f);
    if quoted(s).contains(bad) {
        let k = choose|k: int| 0 <= k < quoted(s).len() && quoted(s)[k] == bad;
        if 0 < k < quoted(s).len() - 1 {
            assert(body[k - 1] == bad);
        }
    }
}

} // verus!
