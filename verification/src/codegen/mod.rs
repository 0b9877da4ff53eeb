//! Code generation: what the renderers of a document share.

use vstd::prelude::*;
use vstd::string::*;

use crate::canvas::{DocumentView, PageView, PenDocument};
use crate::css;
use crate::css::sanitize_css_value;
use crate::markup;
use crate::num;
use crate::num::{Num, NumView};
use crate::text;
use crate::text::{chars_of, signed_number};

pub mod classes;
pub mod html;
pub mod react;
pub mod styles;
pub mod swiftui;
pub mod tokens;
pub mod views;

verus! {

/// Nodes nested deeper than this are not rendered.
pub const MAX_CODEGEN_DEPTH: usize = 128;

/// What one character becomes in HTML text and attributes.
pub open spec fn html_char(c: char) -> Seq<char> {
    if c == '&' {
        "&amp;"@
    } else if c == '<' {
        "&lt;"@
    } else if c == '>' {
        "&gt;"@
    } else if c == '"' {
        "&quot;"@
    } else if c == '\'' {
        "&#x27;"@
    } else {
        seq![c]
    }
}

/// The text with the characters that are special in HTML written as entities.
pub open spec fn html_escaped(s: Seq<char>) -> Seq<char> {
    text::mapped(s, |c: char| html_char(c))
}

/// The colour as it may stand in a style; a dangerous one is transparent.
pub open spec fn safe_color(raw: Seq<char>) -> Seq<char> {
    css::sanitized(raw, "transparent"@)
}

/// A length in whole pixels.
pub open spec fn pixels(n: NumView) -> Seq<char> {
    text::signed_decimal(num::truncated(n.bits))
}

/// Writes the characters that are special in HTML as entities.
pub fn escape_html(s: &str) -> (r: String)
    ensures
        r@ == html_escaped(s@),
{
    let cs = chars_of(s);
    let mut out = String::new();
    let mut i: usize = 0;
    while i < cs.len()
        invariant
            i <= cs@.len(),
            cs@ == s@,
            out@ == html_escaped(s@.take(i as int)),
        decreases cs.len() - i,
    {
        let c = cs[i];
        proof {
            text::lemma_mapped_step(s@, |c: char| html_char(c), i as int);
        }
        if c == '&' {
            out.append("&amp;");
        } else if c == '<' {
            out.append("&lt;");
        } else if c == '>' {
            out.append("&gt;");
        } else if c == '"' {
            out.append("&quot;");
        } else if c == '\'' {
            out.append("&#x27;");
        } else {
            out.push(c);
            proof {
                assert(out@ =~= html_escaped(s@.take(i as int)) + seq![c]);
            }
        }
        i = i + 1;
    }
    proof {
        text::lemma_take_all(s@);
    }
    out
}

/// Makes a text safe to stand in an attribute.
pub fn escape_attr(s: &str) -> (r: String)
    ensures
        r@ == html_escaped(s@),
{
    escape_html(s)
}

/// Makes a colour safe to stand in a style.
pub fn sanitize_css_color(raw: &str) -> (r: String)
    ensures
        r@ == safe_color(raw@),
{
    sanitize_css_value(raw, "transparent")
}

/// The number in whole pixels.
pub fn px(n: &Num) -> (r: String)
    ensures
        r@ == pixels(n@),
{
    signed_number(n.to_i32() as i64)
}

/// The middle between the two others.
pub fn wrap(before: &str, middle: &str, after: &str) -> (r: String)
    ensures
        r@ == before@ + middle@ + after@,
{
    before.to_owned().concat(middle).concat(after)
}

/// What code is written in.
#[derive(Debug, Clone, Copy, PartialEq, Eq, Structural)]
pub enum CodegenTarget {
    Html,
    ReactTailwind,
    SwiftUi,
}

/// The code of one page.
pub open spec fn page_code(p: PageView, target: CodegenTarget) -> Seq<char> {
    match target {
        CodegenTarget::Html => html::html_page(p),
        CodegenTarget::ReactTailwind => react::react_page(p),
        CodegenTarget::SwiftUi => swiftui::swift_page(p, 0),
    }
}

/// The code of the pages, one after the other.
pub open spec fn pages_code(d: DocumentView, target: CodegenTarget) -> Seq<char> {
    text::flattened(d.pages.map_values(|p: PageView| page_code(p, target)))
}

/// The code of a document: that of its pages, in Swift after the extensions for its tokens.
pub open spec fn is_code_of(code: Seq<char>, d: DocumentView, target: CodegenTarget) -> bool {
    match target {
        CodegenTarget::SwiftUi => exists|exts: Seq<swiftui::TokenExtView>|
            swiftui::are_extensions(exts, d.pages) && code == #[trigger] swiftui::ext_source(exts)
                + pages_code(d, target),
        _ => code == pages_code(d, target),
    }
}

/// The code of a document, as its colours stand.
pub fn document_code(doc: &PenDocument, target: CodegenTarget) -> (r: String)
    ensures
        is_code_of(r@, doc@, target),
{
    let mut out = String::new();
    let ghost codes = doc@.pages.map_values(|p: PageView| page_code(p, target));
    let mut i: usize = 0;
    while i < doc.pages.len()
        invariant
            i <= doc.pages@.len(),
            codes == doc@.pages.map_values(|p: PageView| page_code(p, target)),
            out@ == text::flattened(codes.take(i as int)),
        decreases doc.pages.len() - i,
    {
        let page = &doc.pages[i];
        let code = match target {
            CodegenTarget::Html => html::render_page_html(page),
            CodegenTarget::ReactTailwind => react::render_page_react(page),
            CodegenTarget::SwiftUi => swiftui::render_page_swiftui(page, 0),
        };
        out.append(code.as_str());
        proof {
            assert(codes[i as int] == code@);
            text::lemma_take_step(codes, i as int);
        }
        i = i + 1;
    }
    proof {
        text::lemma_take_all(codes);
    }
    match target {
        CodegenTarget::SwiftUi => {
            let exts = swiftui::collect_token_extensions(doc);
            swiftui::render_token_extensions(&exts).concat(out.as_str())
        },
        _ => out,
    }
}

// ---------------------------------------------------------------------------
// Laws
// ---------------------------------------------------------------------------

/// Escaped text holds no character that opens or closes a tag or an attribute.
pub proof fn law_escaped_text_is_inert(s: Seq<char>, bad: char)
    requires
        bad == '<' || bad == '>' || bad == '"' || bad == '\'',
    ensures
        !html_escaped(s).contains(bad),
{
    let f = |c: char| html_char(c);
    assert forall|c: char| !(#[trigger] f(c)).contains(bad) by {
        reveal_strlit("&amp;");
        reveal_strlit("&lt;");
        reveal_strlit("&gt;");
        reveal_strlit("&quot;");
        reveal_strlit("&#x27;");
        if f(c).contains(bad) {
            let t = html_char(c);
            let k = choose|k: int| 0 <= k < t.len() && t[k] == bad;
            assert(t[k] == bad);
        }
    }
    text::lemma_mapped_avoids(s, f, bad);
}

/// One of the entities stands at the position.
pub open spec fn entity_at(t: Seq<char>, i: int) -> bool {
    text::occurs_at(t, "&amp;"@, i) || text::occurs_at(t, "&lt;"@, i) || text::occurs_at(
        t,
        "&gt;"@,
        i,
    ) || text::occurs_at(t, "&quot;"@, i) || text::occurs_at(t, "&#x27;"@, i)
}

/// The text that a browser shows: each entity stands for its character.
pub open spec fn html_shown(t: Seq<char>) -> Seq<char>
    decreases t.len(),
{
    if t.len() == 0 {
        Seq::empty()
    } else if text::occurs_at(t, "&amp;"@, 0) && t.len() >= 5 {
        seq!['&'] + html_shown(t.skip(5))
    } else if text::occurs_at(t, "&lt;"@, 0) && t.len() >= 4 {
        seq!['<'] + html_shown(t.skip(4))
    } else if text::occurs_at(t, "&gt;"@, 0) && t.len() >= 4 {
        seq!['>'] + html_shown(t.skip(4))
    } else if text::occurs_at(t, "&quot;"@, 0) && t.len() >= 6 {
        seq!['"'] + html_shown(t.skip(6))
    } else if text::occurs_at(t, "&#x27;"@, 0) && t.len() >= 6 {
        seq!['\''] + html_shown(t.skip(6))
    } else {
        seq![t[0]] + html_shown(t.skip(1))
    }
}

proof fn lemma_front_shown(c: char, rest: Seq<char>)
    ensures
        html_shown(html_char(c) + rest) == seq![c] + html_shown(rest),
{
    reveal_strlit("&amp;");
    reveal_strlit("&lt;");
    reveal_strlit("&gt;");
    reveal_strlit("&quot;");
    reveal_strlit("&#x27;");
    let e = html_char(c);
    let t = e + rest;
    assert(t.skip(e.len() as int) =~= rest);
    assert(t.subrange(0, e.len() as int) =~= e);
    assert forall|k: int| 0 <= k < e.len() implies t[k] == e[k] by {}
    let a = "&amp;"@;
    let l = "&lt;"@;
    let g = "&gt;"@;
    let q = "&quot;"@;
    let x = "&#x27;"@;
    assert(text::occurs_at(t, a, 0) ==> t[0] == a[0] && t[1] == a[1] && t[2] == a[2]) by {
        if text::occurs_at(t, a, 0) {
            assert(t.subrange(0, 5)[0] == a[0] && t.subrange(0, 5)[1] == a[1] && t.subrange(0, 5)[2]
                == a[2]);
        }
    }
    assert(text::occurs_at(t, l, 0) ==> t[0] == l[0] && t[1] == l[1]) by {
        if text::occurs_at(t, l, 0) {
            assert(t.subrange(0, 4)[0] == l[0] && t.subrange(0, 4)[1] == l[1]);
        }
    }
    assert(text::occurs_at(t, g, 0) ==> t[0] == g[0] && t[1] == g[1]) by {
        if text::occurs_at(t, g, 0) {
            assert(t.subrange(0, 4)[0] == g[0] && t.subrange(0, 4)[1] == g[1]);
        }
    }
    assert(text::occurs_at(t, q, 0) ==> t[0] == q[0] && t[1] == q[1]) by {
        if text::occurs_at(t, q, 0) {
            assert(t.subrange(0, 6)[0] == q[0] && t.subrange(0, 6)[1] == q[1]);
        }
    }
    assert(text::occurs_at(t, x, 0) ==> t[0] == x[0] && t[1] == x[1]) by {
        if text::occurs_at(t, x, 0) {
            assert(t.subrange(0, 6)[0] == x[0] && t.subrange(0, 6)[1] == x[1]);
        }
    }
}

proof fn lemma_shown_before(s: Seq<char>, rest: Seq<char>)
    ensures
        html_shown(html_escaped(s) + rest) == s + html_shown(rest),
    decreases s.len(),
{
    let f = |c: char| html_char(c);
    if s.len() == 0 {
        assert(html_escaped(s) + rest =~= rest);
        assert(s + html_shown(rest) =~= html_shown(rest));
    } else {
        let front = html_escaped(s.drop_last());
        assert(html_escaped(s) + rest =~= front + (html_char(s.last()) + rest));
        lemma_shown_before(s.drop_last(), html_char(s.last()) + rest);
        lemma_front_shown(s.last(), rest);
        assert(s.drop_last() + (seq![s.last()] + html_shown(rest)) =~= s + html_shown(rest));
    }
}

/// Escaped text shows as the text that it was made from.
pub proof fn law_escaped_text_shows_as_it_was(s: Seq<char>)
    ensures
        html_shown(html_escaped(s)) == s,
{
    lemma_shown_before(s, Seq::empty());
    assert(html_escaped(s) + Seq::empty() =~= html_escaped(s));
    assert(s + html_shown(Seq::empty()) =~= s);
}

/// Every `&` of an escaped text begins an entity.
pub proof fn law_ampersands_begin_entities(s: Seq<char>, i: int)
    requires
        0 <= i < html_escaped(s).len(),
        html_escaped(s)[i] == '&',
    ensures
        entity_at(html_escaped(s), i),
    decreases s.len(),
{
    let front = html_escaped(s.drop_last());
    let e = html_char(s.last());
    let t = html_escaped(s);
    assert(t == front + e);
    reveal_strlit("&amp;");
    reveal_strlit("&lt;");
    reveal_strlit("&gt;");
    reveal_strlit("&quot;");
    reveal_strlit("&#x27;");
    if i < front.len() {
        law_ampersands_begin_entities(s.drop_last(), i);
        assert forall|m: Seq<char>| #[trigger] text::occurs_at(front, m, i) implies text::occurs_at(
            t,
            m,
            i,
        ) by {
            assert(t.subrange(i, i + m.len()) =~= front.subrange(i, i + m.len()));
        }
    } else {
        assert(e[i - front.len()] == '&');
        assert(i == front.len());
        assert(t.subrange(i, i + e.len()) =~= e);
    }
}

/// Whole pixels are written as numbers are.
pub(crate) proof fn lemma_pixels_written(n: NumView)
    ensures
        num::is_written(pixels(n)),
        pixels(n).len() > 0,
{
    lemma_signed_written(num::truncated(n.bits));
}

pub(crate) proof fn lemma_signed_written(v: int)
    ensures
        num::is_written(text::signed_decimal(v)),
        text::signed_decimal(v).len() > 0,
{
    let d = if v < 0 {
        text::decimal((-v) as nat)
    } else {
        text::decimal(v as nat)
    };
    text::law_decimal_is_read(
        if v < 0 {
            (-v) as nat
        } else {
            v as nat
        },
    );
    let s = text::signed_decimal(v);
    assert forall|i: int| 0 <= i < s.len() implies num::is_number_char(#[trigger] s[i]) by {
        if v < 0 {
            if i > 0 {
                assert(s[i] == d[i - 1]);
            }
        } else {
            assert(s[i] == d[i]);
        }
    }
}

/// A safe colour holds no character that could end its place.
pub(crate) proof fn lemma_safe_color(raw: Seq<char>, bad: char)
    requires
        css::is_meta(bad),
    ensures
        !safe_color(raw).contains(bad),
{
    reveal_strlit("transparent");
    assert(css::is_safe("transparent"@)) by {
        lemma_transparent();
    }
    css::law_sanitized_is_safe(raw, "transparent"@);
}

proof fn lemma_transparent()
    ensures
        css::is_safe("transparent"@),
{
    reveal_strlit("transparent");
    reveal_strlit("url(");
    reveal_strlit("expression(");
    reveal_strlit("@import");
    reveal_strlit("javascript:");
    let t = "transparent"@;
    let s = text::ascii_lower(t);
    assert(s =~= t);
    assert forall|i: int| !text::occurs_at(t, "url("@, i) by {
        if text::occurs_at(t, "url("@, i) {
            assert(t.subrange(i, i + 4)[3] == t[i + 3]);
            assert("url("@[3] == '(');
        }
    }
    assert forall|i: int| !text::occurs_at(t, "expression("@, i) by {
        if text::occurs_at(t, "expression("@, i) {
            assert(t.subrange(i, i + 11)[10] == t[i + 10]);
            assert("expression("@[10] == '(');
        }
    }
    assert forall|i: int| !text::occurs_at(t, "@import"@, i) by {
        if text::occurs_at(t, "@import"@, i) {
            assert(t.subrange(i, i + 7)[0] == t[i]);
            assert("@import"@[0] == '@');
        }
    }
    assert forall|i: int| !text::occurs_at(t, "javascript:"@, i) by {
        if text::occurs_at(t, "javascript:"@, i) {
            assert(t.subrange(i, i + 11)[10] == t[i + 10]);
            assert("javascript:"@[10] == ':');
        }
    }
    assert forall|c: char| css::is_meta(c) implies !t.contains(c) by {
        if t.contains(c) {
            let i = choose|i: int| 0 <= i < t.len() && t[i] == c;
            assert(t[i] == c);
        }
    }
}

/// Escaped text stands for the text that was escaped.
pub proof fn law_escaped_text_reads_back(s: Seq<char>)
    ensures
        markup::decoded(html_escaped(s)) == s,
    decreases s.len(),
{
    let f = |c: char| html_char(c);
    if s.len() == 0 {
        assert(markup::decoded(html_escaped(s)) =~= s);
    } else {
        let rest = s.skip(1);
        assert(s =~= seq![s[0]] + rest);
        text::lemma_mapped_front(s[0], rest, f);
        law_escaped_text_reads_back(rest);
        lemma_escaped_char(s[0]);
        markup::lemma_entity(s[0], html_char(s[0]), html_escaped(rest));
    }
}

proof fn lemma_escaped_char(c: char)
    ensures
        match c {
            '&' => html_char(c) == seq!['&', 'a', 'm', 'p', ';'],
            '<' => html_char(c) == seq!['&', 'l', 't', ';'],
            '>' => html_char(c) == seq!['&', 'g', 't', ';'],
            '"' => html_char(c) == seq!['&', 'q', 'u', 'o', 't', ';'],
            '\'' => html_char(c) == seq!['&', '#', 'x', '2', '7', ';'],
            _ => html_char(c) == seq![c],
        },
{
    reveal_strlit("&amp;");
    reveal_strlit("&lt;");
    reveal_strlit("&gt;");
    reveal_strlit("&quot;");
    reveal_strlit("&#x27;");
    assert("&amp;"@ =~= seq!['&', 'a', 'm', 'p', ';']);
    assert("&lt;"@ =~= seq!['&', 'l', 't', ';']);
    assert("&gt;"@ =~= seq!['&', 'g', 't', ';']);
    assert("&quot;"@ =~= seq!['&', 'q', 'u', 'o', 't', ';']);
    assert("&#x27;"@ =~= seq!['&', '#', 'x', '2', '7', ';']);
}

/// The pages of a document stand one after the other, in their order, each written in the language
/// that was asked for.
pub proof fn law_pages_stand_in_order(d: DocumentView, p: PageView, target: CodegenTarget)
    ensures
        pages_code(DocumentView { pages: d.pages.push(p), ..d }, target) == pages_code(d, target)
            + page_code(p, target),
        pages_code(DocumentView { pages: Seq::empty(), ..d }, target).len() == 0,
        page_code(p, CodegenTarget::Html) == html::html_page(p),
        page_code(p, CodegenTarget::ReactTailwind) == react::react_page(p),
        page_code(p, CodegenTarget::SwiftUi) == swiftui::swift_page(p, 0),
{
    let f = |p: PageView| page_code(p, target);
    let codes = d.pages.map_values(f);
    assert(d.pages.push(p).map_values(f) =~= codes.push(page_code(p, target)));
    assert(codes.push(page_code(p, target)).drop_last() =~= codes);
    assert(Seq::<PageView>::empty().map_values(f) =~= Seq::<Seq<char>>::empty());
}

} // verus!
