//! What the renderers share: file names, escaping, image references, colors, and the elements of
//! a page.

use vstd::prelude::*;
use vstd::string::*;

use crate::canvas;
use crate::canvas::{clone_opt_num, clone_opt_text, NodeKind, NodeView, PenNode};
use crate::design_system;
use crate::design_system::{DesignSystemRegistry, SystemView, TokenValue, ValueView};
use crate::export;
use crate::export::{CanvasElement, CanvasPage, ElementView};
use crate::markup;
use crate::num;
use crate::text;
use crate::text::{
    chars_of, contains, replace_char, same, slice, starts_with, strip_prefix, to_lowercase, trim,
};

verus! {

// ---------------------------------------------------------------------------
// File names
// ---------------------------------------------------------------------------

/// Whether `char::is_alphanumeric` holds of a character beyond ASCII.
pub uninterp spec fn alphanumeric(c: char) -> bool;

/// The character is a letter or a digit; in ASCII these are the letters `a` to `z` in both cases
/// and the digits `0` to `9`.
pub open spec fn letter_or_digit(c: char) -> bool {
    if (c as u32) < 128 {
        ('0' <= c && c <= '9') || ('a' <= c && c <= 'z') || ('A' <= c && c <= 'Z')
    } else {
        alphanumeric(c)
    }
}

/// Calls `char::is_alphanumeric`. Its answer follows from the character; on ASCII it holds of the
/// letters and the digits only.
#[verifier::external_body]
fn is_alphanumeric(c: char) -> (r: bool)
    ensures
        r == (if (c as u32) < 128 {
            ('0' <= c && c <= '9') || ('a' <= c && c <= 'z') || ('A' <= c && c <= 'Z')
        } else {
            alphanumeric(c)
        }),
{
    c.is_alphanumeric()
}

/// What stands for a character in a file name.
pub open spec fn file_char(c: char) -> char {
    if letter_or_digit(c) || c == '-' || c == '_' {
        c
    } else {
        '_'
    }
}

/// The file name for a page; one without a name is called `page`.
pub open spec fn file_stem(name: Seq<char>) -> Seq<char> {
    if name.len() == 0 {
        "page"@
    } else {
        name.map_values(|c: char| file_char(c))
    }
}

/// The name as a file name: letters, digits, hyphens and underscores stay, everything else becomes
/// an underscore.
pub fn sanitize_filename(name: &str) -> (r: String)
    ensures
        r@ == file_stem(name@),
{
    let cs = chars_of(name);
    if cs.len() == 0 {
        return "page".to_owned();
    }
    let mut out: Vec<char> = Vec::new();
    let mut i: usize = 0;
    while i < cs.len()
        invariant
            i <= cs@.len(),
            cs@ == name@,
            out@.len() == i,
            forall|k: int| 0 <= k < i ==> #[trigger] out@[k] == file_char(name@[k]),
        decreases cs.len() - i,
    {
        let c = cs[i];
        if is_alphanumeric(c) || c == '-' || c == '_' {
            out.push(c);
        } else {
            out.push('_');
        }
        i = i + 1;
    }
    proof {
        assert(out@ =~= file_stem(name@));
        assert(out@.subrange(0, out@.len() as int) =~= out@);
    }
    slice(&out, 0, out.len())
}

// ---------------------------------------------------------------------------
// Escaping
// ---------------------------------------------------------------------------

/// What stands for a character in XML.
pub open spec fn xml_char(c: char) -> Seq<char> {
    if c == '&' {
        "&amp;"@
    } else if c == '<' {
        "&lt;"@
    } else if c == '>' {
        "&gt;"@
    } else if c == '"' {
        "&quot;"@
    } else {
        seq![c]
    }
}

/// The text with what has a meaning in XML written as entities.
pub open spec fn xml_escaped(s: Seq<char>) -> Seq<char> {
    text::mapped(s, |c: char| xml_char(c))
}

/// The text with what has a meaning in XML written as entities.
pub fn xml_escape(s: &str) -> (r: String)
    ensures
        r@ == xml_escaped(s@),
{
    let cs = chars_of(s);
    let mut out = String::new();
    let mut i: usize = 0;
    while i < cs.len()
        invariant
            i <= cs@.len(),
            cs@ == s@,
            out@ == text::mapped(s@.take(i as int), |c: char| xml_char(c)),
        decreases cs.len() - i,
    {
        let c = cs[i];
        let ghost before = out@;
        if c == '&' {
            out.append("&amp;");
        } else if c == '<' {
            out.append("&lt;");
        } else if c == '>' {
            out.append("&gt;");
        } else if c == '"' {
            out.append("&quot;");
        } else {
            out.push(c);
            proof {
                assert(out@ =~= before + seq![c]);
            }
        }
        proof {
            text::lemma_mapped_step(s@, |c: char| xml_char(c), i as int);
        }
        i = i + 1;
    }
    proof {
        assert(s@.take(s@.len() as int) =~= s@);
    }
    out
}

// ---------------------------------------------------------------------------
// Image references
// ---------------------------------------------------------------------------

/// A `:` that ends a scheme: no `/`, `?` or `#` comes before it.
pub open spec fn ends_scheme(t: Seq<char>, i: int) -> bool {
    t[i] == ':' && forall|k: int| 0 <= k < i ==> !starts_part(#[trigger] t[k])
}

/// The character starts a part of an address that comes after the scheme.
pub open spec fn starts_part(c: char) -> bool {
    c == '/' || c == '?' || c == '#'
}

/// The address names a scheme.
pub open spec fn has_scheme(t: Seq<char>) -> bool {
    exists|i: int| 0 <= i < t.len() && ends_scheme(t, i)
}

/// The path climbs out of its directory.
pub open spec fn climbs(path: Seq<char>) -> bool {
    text::occurs(path, "/../"@) || "../"@.is_prefix_of(path) || path == ".."@
}

/// The address is an image that it holds itself.
pub open spec fn embeds_image(t: Seq<char>) -> bool {
    "data:image/"@.is_prefix_of(text::lowercase(t))
}

/// The address is a path on this machine that stays below where it starts: it names no scheme and no
/// host.
pub open spec fn is_local_path(t: Seq<char>) -> bool {
    !has_scheme(t) && !"//"@.is_prefix_of(t) && !climbs(t)
}

/// The address of an image as far as it is let through: embedded images and local paths.
pub open spec fn image_url(raw: Seq<char>) -> Seq<char> {
    let t = text::trimmed(raw);
    if embeds_image(t) || is_local_path(t) {
        t
    } else {
        Seq::empty()
    }
}

fn names_scheme(t: &str) -> (r: bool)
    ensures
        r == has_scheme(t@),
{
    let cs = chars_of(t);
    let mut i: usize = 0;
    while i < cs.len()
        invariant
            i <= cs@.len(),
            cs@ == t@,
            forall|k: int| 0 <= k < i ==> !starts_part(#[trigger] t@[k]) && t@[k] != ':',
        decreases cs.len() - i,
    {
        let c = cs[i];
        if c == ':' {
            assert(ends_scheme(t@, i as int));
            return true;
        }
        if c == '/' || c == '?' || c == '#' {
            assert(starts_part(t@[i as int]));
            return false;
        }
        i = i + 1;
    }
    false
}

/// The address of an image, or nothing where it is not an embedded image or a local path.
pub fn sanitize_image_url(raw: &str) -> (r: String)
    ensures
        r@ == image_url(raw@),
{
    let trimmed = trim(raw);
    let t = trimmed.as_str();
    if starts_with(to_lowercase(t).as_str(), "data:image/") {
        return trimmed;
    }
    if names_scheme(t) || starts_with(t, "//") || contains(t, "/../") || starts_with(t, "../")
        || same(t, "..") {
        return String::new();
    }
    trimmed
}

// ---------------------------------------------------------------------------
// Colors
// ---------------------------------------------------------------------------

/// The name of the token that a color refers to, written `var(--name)` or `token:name`.
pub open spec fn var_name(t: Seq<char>) -> Option<Seq<char>> {
    let rest = t.skip("var(--"@.len() as int);
    if "var(--"@.is_prefix_of(t) && rest.len() > 0 && rest.last() == ')' {
        Some(text::trimmed(rest.drop_last()))
    } else if "token:"@.is_prefix_of(t) {
        Some(text::trimmed(t.skip("token:"@.len() as int)))
    } else {
        None
    }
}

/// What a token of the system in use gives as a color. A token that is no color gives what its
/// reference ends at, unless nothing or a variable is left there.
pub open spec fn token_color(system: Option<SystemView>, name: Seq<char>) -> Option<Seq<char>> {
    match system {
        Some(s) => match design_system::first_named(s.tokens, name) {
            Some(t) => match t.value {
                ValueView::Color(c) => Some(c),
                _ => {
                    let end = design_system::followed(s.tokens, t.value, Seq::empty(), 0).0;
                    if end.len() > 0 && !"var("@.is_prefix_of(end) {
                        Some(end)
                    } else {
                        None
                    }
                },
            },
            None => None,
        },
        None => None,
    }
}

/// A color with a reference to a token replaced by what the token gives. The name is tried as it
/// stands, and with dots in place of hyphens; where neither gives a color the value stays.
pub open spec fn resolved_color(system: Option<SystemView>, value: Seq<char>) -> Seq<char> {
    match var_name(text::trimmed(value)) {
        Some(name) => match token_color(system, name) {
            Some(c) => c,
            None => match token_color(
                system,
                name.map_values(|c: char| if c == '-' { '.' } else { c }),
            ) {
                Some(c) => c,
                None => value,
            },
        },
        None => value,
    }
}

pub open spec fn resolved_opt(system: Option<SystemView>, value: Option<Seq<char>>) -> Option<
    Seq<char>,
> {
    match value {
        Some(v) => Some(resolved_color(system, v)),
        None => None,
    }
}

fn find_var_name(t: &str) -> (r: Option<String>)
    ensures
        text::opt_text(r) == var_name(t@),
{
    match strip_prefix(t, "var(--") {
        Some(rest) => {
            let cs = chars_of(rest.as_str());
            if cs.len() > 0 && cs[cs.len() - 1] == ')' {
                let inner = slice(&cs, 0, cs.len() - 1);
                proof {
                    assert(rest@.drop_last() =~= rest@.subrange(0, rest@.len() - 1));
                }
                return Some(trim(inner.as_str()));
            }
        },
        None => {},
    }
    match strip_prefix(t, "token:") {
        Some(rest) => Some(trim(rest.as_str())),
        None => None,
    }
}

fn color_of_token(reg: &DesignSystemRegistry, name: &str) -> (r: Option<String>)
    ensures
        text::opt_text(r) == token_color(design_system::active_system(reg@), name@),
{
    match (reg.lookup(name), reg.active()) {
        (Some(value), Some(system)) => {
            match value {
                TokenValue::Color(c) => Some(c.clone()),
                _ => {
                    let mut visited: Vec<String> = Vec::new();
                    proof {
                        assert(text::texts(visited@) =~= Seq::empty());
                    }
                    let end = system.resolve_reference(value, &mut visited);
                    if !end.as_str().is_empty() && !starts_with(end.as_str(), "var(") {
                        Some(end)
                    } else {
                        None
                    }
                },
            }
        },
        _ => None,
    }
}

/// A color with a reference to a token of the system in use replaced by what the token gives.
pub fn resolve_color_var(value: &Option<String>, reg: &DesignSystemRegistry) -> (r: Option<String>)
    ensures
        text::opt_text(r) == resolved_opt(
            design_system::active_system(reg@),
            text::opt_text(*value),
        ),
{
    let s = match value {
        Some(s) => s,
        None => return None,
    };
    match find_var_name(trim(s.as_str()).as_str()) {
        Some(name) => {
            match color_of_token(reg, name.as_str()) {
                Some(c) => return Some(c),
                None => {},
            }
            match color_of_token(reg, replace_char(name.as_str(), '-', '.').as_str()) {
                Some(c) => return Some(c),
                None => {},
            }
        },
        None => {},
    }
    Some(s.clone())
}

/// The element with its colors resolved.
pub open spec fn with_colors(system: Option<SystemView>, e: ElementView) -> ElementView {
    ElementView {
        fill: resolved_opt(system, e.fill),
        stroke: resolved_opt(system, e.stroke),
        ..e
    }
}

/// Replaces the references to tokens in the colors of a page.
pub fn resolve_page_token_vars(page: &mut CanvasPage, reg: &DesignSystemRegistry)
    ensures
        final(page)@.elements == old(page)@.elements.map_values(
            |e: ElementView| with_colors(design_system::active_system(reg@), e),
        ),
        final(page)@.id == old(page)@.id,
        final(page)@.name == old(page)@.name,
        final(page)@.width == old(page)@.width,
        final(page)@.height == old(page)@.height,
{
    let ghost system = design_system::active_system(reg@);
    let ghost before = page.elements@;
    let mut i: usize = 0;
    while i < page.elements.len()
        invariant
            i <= page.elements@.len(),
            page.elements@.len() == before.len(),
            before == old(page).elements@,
            page.id == old(page).id,
            page.name == old(page).name,
            page.width == old(page).width,
            page.height == old(page).height,
            system == design_system::active_system(reg@),
            forall|k: int|
                0 <= k < i ==> (#[trigger] page.elements@[k])@ == with_colors(system, before[k]@),
            forall|k: int| i <= k < before.len() ==> #[trigger] page.elements@[k] == before[k],
        decreases page.elements.len() - i,
    {
        let fill = resolve_color_var(&page.elements[i].fill, reg);
        let stroke = resolve_color_var(&page.elements[i].stroke, reg);
        let el = &mut page.elements[i];
        el.fill = fill;
        el.stroke = stroke;
        i = i + 1;
    }
    proof {
        assert(page@.elements =~= old(page)@.elements.map_values(
            |e: ElementView| with_colors(system, e),
        ));
    }
}

// ---------------------------------------------------------------------------
// The elements of a page
// ---------------------------------------------------------------------------

/// The name of a kind of node.
pub open spec fn kind_name(kind: NodeKind) -> Seq<char> {
    match kind {
        NodeKind::Rect => "rect"@,
        NodeKind::Circle => "circle"@,
        NodeKind::Text => "text"@,
        NodeKind::Image => "image"@,
        NodeKind::Group => "group"@,
    }
}

/// The element for a node, without what is inside it.
pub open spec fn element_of(n: NodeView) -> ElementView {
    ElementView {
        kind: kind_name(n.kind),
        x: n.x,
        y: n.y,
        w: n.w,
        h: n.h,
        text: n.text,
        fill: n.style.fill,
        stroke: n.style.stroke,
        stroke_width: n.style.stroke_width,
        radius: n.style.radius,
        opacity: n.style.opacity,
        font_size: n.style.font_size,
        font_family: n.style.font_family,
        rotation: if num::equal(n.rotation.bits, num::ZERO) {
            None
        } else {
            Some(n.rotation)
        },
        center_x: n.measure.center_x,
        center_y: n.measure.center_y,
        half_side: n.measure.half_side,
    }
}

/// The elements for a node: its own, then those for the nodes inside it.
pub open spec fn node_elements(n: NodeView) -> Seq<ElementView>
    decreases n,
{
    seq![element_of(n)] + nodes_elements(n.children)
}

/// The elements for several nodes, one after the other.
pub open spec fn nodes_elements(ns: Seq<NodeView>) -> Seq<ElementView>
    decreases ns,
{
    if ns.len() == 0 {
        Seq::empty()
    } else {
        nodes_elements(ns.drop_last()) + node_elements(ns.last())
    }
}

fn element_for(node: &PenNode) -> (r: CanvasElement)
    ensures
        r@ == element_of(node@),
{
    let kind = match node.kind {
        NodeKind::Rect => "rect",
        NodeKind::Circle => "circle",
        NodeKind::Text => "text",
        NodeKind::Image => "image",
        NodeKind::Group => "group",
    };
    CanvasElement {
        kind: kind.to_owned(),
        x: node.x.copy(),
        y: node.y.copy(),
        w: node.w.copy(),
        h: node.h.copy(),
        text: clone_opt_text(&node.text),
        fill: clone_opt_text(&node.style.fill),
        stroke: clone_opt_text(&node.style.stroke),
        stroke_width: clone_opt_num(&node.style.stroke_width),
        radius: clone_opt_num(&node.style.radius),
        opacity: clone_opt_num(&node.style.opacity),
        font_size: clone_opt_num(&node.style.font_size),
        font_family: clone_opt_text(&node.style.font_family),
        rotation: if node.rotation.is_zero() {
            None
        } else {
            Some(node.rotation.copy())
        },
        center_x: node.measure.center_x.copy(),
        center_y: node.measure.center_y.copy(),
        half_side: node.measure.half_side.copy(),
    }
}

/// Adds the elements for a node and for all that is inside it.
pub fn collect_elements(node: &PenNode, out: &mut Vec<CanvasElement>)
    ensures
        export::element_views(final(out)@) == export::element_views(old(out)@) + node_elements(
            node@,
        ),
    decreases node,
{
    let ghost start = export::element_views(out@);
    out.push(element_for(node));
    let ghost own = seq![element_of(node@)];
    proof {
        assert(export::element_views(out@) =~= start + own);
        assert(node@.children.take(0) =~= Seq::empty());
        assert(own + nodes_elements(node@.children.take(0)) =~= own);
    }
    let mut i: usize = 0;
    while i < node.children.len()
        invariant
            i <= node.children@.len(),
            export::element_views(out@) == start + (own + nodes_elements(
                node@.children.take(i as int),
            )),
        decreases node.children.len() - i,
    {
        let ghost so_far = nodes_elements(node@.children.take(i as int));
        proof {
            assert(node@.children[i as int] == node.children@[i as int]@);
            text::lemma_take_step(node@.children, i as int);
        }
        collect_elements(&node.children[i], out);
        proof {
            let more = node_elements(node@.children[i as int]);
            assert(start + (own + so_far) + more =~= start + (own + (so_far + more)));
        }
        i = i + 1;
    }
    proof {
        text::lemma_take_all(node@.children);
    }
}

// ---------------------------------------------------------------------------
// Laws
// ---------------------------------------------------------------------------

/// A file name is never empty, stays in its directory and is no hidden file.
pub proof fn law_file_name_stays_in_place(name: Seq<char>)
    ensures
        file_stem(name).len() > 0,
        !file_stem(name).contains('/'),
        !file_stem(name).contains('\\'),
        !file_stem(name).contains('.'),
        !file_stem(name).contains('\0'),
{
    reveal_strlit("page");
}

/// A name that already is a file name stays as it is.
pub proof fn law_file_name_is_kept(name: Seq<char>)
    ensures
        file_stem(file_stem(name)) == file_stem(name),
{
    reveal_strlit("page");
    assert(file_stem(file_stem(name)) =~= file_stem(name));
}

/// Escaped text cannot leave the place where it stands: it opens no tag, closes none, and does not
/// end a quoted value.
pub proof fn law_escaped_text_is_inert(s: Seq<char>, bad: char)
    requires
        bad == '<' || bad == '>' || bad == '"',
    ensures
        !xml_escaped(s).contains(bad),
{
    reveal_strlit("&amp;");
    reveal_strlit("&lt;");
    reveal_strlit("&gt;");
    reveal_strlit("&quot;");
    text::lemma_mapped_avoids(s, |c: char| xml_char(c), bad);
}

/// An address either is let through as it stands, without the white space around it, or is left
/// out.
pub proof fn law_address_is_kept_or_left_out(raw: Seq<char>)
    ensures
        image_url(raw) == text::trimmed(raw) || image_url(raw).len() == 0,
{
}

/// What is let through is an embedded image or a local path, and nothing else is.
pub proof fn law_only_images_and_local_paths_pass(raw: Seq<char>)
    ensures
        image_url(raw).len() > 0 <==> text::trimmed(raw).len() > 0 && (embeds_image(
            text::trimmed(raw),
        ) || is_local_path(text::trimmed(raw))),
{
}

/// Whatever names a scheme is left out, unless it is an embedded image.
pub proof fn law_schemes_do_not_pass(scheme: Seq<char>, rest: Seq<char>)
    requires
        forall|k: int| 0 <= k < scheme.len() ==> !starts_part(#[trigger] scheme[k]),
        text::trimmed(scheme.push(':') + rest) == scheme.push(':') + rest,
        !embeds_image(scheme.push(':') + rest),
    ensures
        image_url(scheme.push(':') + rest).len() == 0,
{
    let t = scheme.push(':') + rest;
    assert forall|k: int| 0 <= k < scheme.len() implies !starts_part(#[trigger] t[k]) by {
        assert(t[k] == scheme[k]);
    }
    assert(ends_scheme(t, scheme.len() as int));
}

/// Every node of the tree has exactly one element, so that nothing nested is lost.
pub proof fn law_no_node_is_lost(n: NodeView)
    ensures
        node_elements(n).len() == 1 + canvas::node_count(n.children),
        node_elements(n)[0] == element_of(n),
    decreases n,
{
    lemma_nodes_counted(n.children);
}

proof fn lemma_nodes_counted(ns: Seq<NodeView>)
    ensures
        nodes_elements(ns).len() == canvas::node_count(ns),
    decreases ns,
{
    if ns.len() > 0 {
        lemma_nodes_counted(ns.drop_last());
        law_no_node_is_lost(ns.last());
    }
}

/// A color that refers to no token stays as it is.
pub proof fn law_plain_color_is_kept(system: Option<SystemView>, value: Seq<char>)
    requires
        var_name(text::trimmed(value)) is None,
    ensures
        resolved_color(system, value) == value,
{
}

/// Escaped text stands for the text that was escaped.
pub proof fn law_escaped_text_reads_back(s: Seq<char>)
    ensures
        markup::decoded(xml_escaped(s)) == s,
    decreases s.len(),
{
    let f = |c: char| xml_char(c);
    if s.len() == 0 {
        assert(markup::decoded(xml_escaped(s)) =~= s);
    } else {
        let rest = s.skip(1);
        assert(s =~= seq![s[0]] + rest);
        text::lemma_mapped_front(s[0], rest, f);
        law_escaped_text_reads_back(rest);
        lemma_escaped_char(s[0]);
        markup::lemma_entity(s[0], xml_char(s[0]), xml_escaped(rest));
    }
}

proof fn lemma_escaped_char(c: char)
    ensures
        match c {
            '&' => xml_char(c) == seq!['&', 'a', 'm', 'p', ';'],
            '<' => xml_char(c) == seq!['&', 'l', 't', ';'],
            '>' => xml_char(c) == seq!['&', 'g', 't', ';'],
            '"' => xml_char(c) == seq!['&', 'q', 'u', 'o', 't', ';'],
            '\'' => xml_char(c) == seq!['\''],
            _ => xml_char(c) == seq![c],
        },
{
    reveal_strlit("&amp;");
    reveal_strlit("&lt;");
    reveal_strlit("&gt;");
    reveal_strlit("&quot;");
    assert("&amp;"@ =~= seq!['&', 'a', 'm', 'p', ';']);
    assert("&lt;"@ =~= seq!['&', 'l', 't', ';']);
    assert("&gt;"@ =~= seq!['&', 'g', 't', ';']);
    assert("&quot;"@ =~= seq!['&', 'q', 'u', 'o', 't', ';']);
}

/// An element says of its node the kind, the box, the text and the paint as they are; a rotation of
/// zero is none.
pub proof fn law_element_says_what_the_node_is(n: NodeView)
    ensures
        ({
            let e = element_of(n);
            &&& e.x == n.x && e.y == n.y && e.w == n.w && e.h == n.h
            &&& e.text == n.text
            &&& e.fill == n.style.fill
            &&& e.stroke == n.style.stroke && e.stroke_width == n.style.stroke_width
            &&& e.radius == n.style.radius
            &&& e.opacity == n.style.opacity
            &&& e.font_size == n.style.font_size && e.font_family == n.style.font_family
            &&& e.center_x == n.measure.center_x && e.center_y == n.measure.center_y
            &&& e.half_side == n.measure.half_side
            &&& e.rotation is None <==> num::equal(n.rotation.bits, num::ZERO)
            &&& e.rotation is Some ==> e.rotation == Some(n.rotation)
        }),
{
}

/// Nodes of different kinds are told apart.
pub proof fn law_kinds_are_told_apart(a: NodeKind, b: NodeKind)
    ensures
        kind_name(a) == kind_name(b) ==> a == b,
        kind_name(NodeKind::Rect) == "rect"@,
        kind_name(NodeKind::Circle) == "circle"@,
        kind_name(NodeKind::Text) == "text"@,
        kind_name(NodeKind::Image) == "image"@,
{
    reveal_strlit("rect");
    reveal_strlit("circle");
    reveal_strlit("text");
    reveal_strlit("image");
    reveal_strlit("group");
    assert("text"@[0] != "rect"@[0]);
    assert("image"@[0] != "group"@[0]);
}

/// Elements stand in the order of their nodes, and those inside a node right behind it.
pub proof fn law_elements_stand_in_order(a: Seq<NodeView>, n: NodeView, b: Seq<NodeView>)
    ensures
        nodes_elements(a + seq![n] + b) == nodes_elements(a) + (seq![element_of(n)]
            + nodes_elements(n.children)) + nodes_elements(b),
{
    lemma_elements_join(a + seq![n], b);
    lemma_elements_join(a, seq![n]);
    assert(seq![n].drop_last() =~= Seq::<NodeView>::empty());
    assert(nodes_elements(Seq::<NodeView>::empty()) == Seq::<ElementView>::empty());
    assert(nodes_elements(seq![n]) =~= node_elements(n));
}

proof fn lemma_elements_join(a: Seq<NodeView>, b: Seq<NodeView>)
    ensures
        nodes_elements(a + b) == nodes_elements(a) + nodes_elements(b),
    decreases b.len(),
{
    if b.len() == 0 {
        assert(a + b =~= a);
        assert(nodes_elements(a) + Seq::<ElementView>::empty() =~= nodes_elements(a));
    } else {
        lemma_elements_join(a, b.drop_last());
        assert((a + b).drop_last() =~= a + b.drop_last());
        let m = nodes_elements(b.drop_last());
        let l = node_elements(b.last());
        assert(nodes_elements(a) + m + l =~= nodes_elements(a) + (m + l));
    }
}

/// A color written as a reference becomes the color of the token it names, in either writing; a
/// name with hyphens also finds the token with dots in their place.
pub proof fn law_reference_becomes_its_color(s: SystemView, name: Seq<char>, c: Seq<char>)
    requires
        name.len() > 0 && !text::is_white(name[0]) && !text::is_white(name.last()),
        token_color(Some(s), name) == Some(c) || (token_color(Some(s), name) is None
            && token_color(Some(s), dotted(name)) == Some(c)),
    ensures
        resolved_color(Some(s), "var(--"@ + name + seq![')']) == c,
        resolved_color(Some(s), "token:"@ + name) == c,
{
    reveal_strlit("var(--");
    reveal_strlit("token:");
    let v = "var(--"@ + name + seq![')'];
    let t = "token:"@ + name;
    text::lemma_trimmed_same(v);
    assert(t.last() == name.last());
    text::lemma_trimmed_same(t);
    text::lemma_trimmed_same(name);
    assert("var(--"@ =~= v.subrange(0, 6));
    assert(v.skip(6).drop_last() =~= name);
    assert("token:"@ =~= t.subrange(0, 6));
    assert(t.skip(6) =~= name);
    assert(!"var(--"@.is_prefix_of(t)) by {
        assert(t[0] == 't');
        if "var(--"@.is_prefix_of(t) {
            assert("var(--"@[0] == t.subrange(0, 6)[0]);
        }
    }
}

/// The name with dots in place of hyphens.
pub open spec fn dotted(name: Seq<char>) -> Seq<char> {
    name.map_values(|c: char| if c == '-' { '.' } else { c })
}

/// A token that is a color gives that color; without a system, or without a token of that name,
/// nothing is given.
pub proof fn law_color_token_gives_its_color(s: SystemView, i: int)
    requires
        0 <= i < s.tokens.len(),
        forall|j: int| 0 <= j < i ==> (#[trigger] s.tokens[j]).name != s.tokens[i].name,
        s.tokens[i].value is Color,
    ensures
        token_color(Some(s), s.tokens[i].name) == Some(s.tokens[i].value->Color_0),
        token_color(None, s.tokens[i].name) is None,
{
    design_system::lemma_first_named(s.tokens, s.tokens[i].name, i);
}

/// An unknown name leaves the color as it stands, and the colors of an element are resolved each
/// for itself, with everything else left as it is.
pub proof fn law_only_colors_are_resolved(system: Option<SystemView>, e: ElementView)
    ensures
        ({
            let r = with_colors(system, e);
            &&& r == (ElementView { fill: r.fill, stroke: r.stroke, ..e })
            &&& r.fill is Some <==> e.fill is Some
            &&& r.stroke is Some <==> e.stroke is Some
            &&& e.fill is Some ==> r.fill->0 == resolved_color(system, e.fill->0)
            &&& e.stroke is Some ==> r.stroke->0 == resolved_color(system, e.stroke->0)
            &&& system is None ==> r == e
        }),
{
}

/// What may stand in a file name stays where it stands, and everything else becomes an underscore.
pub proof fn law_letters_and_digits_stay(name: Seq<char>, i: int)
    requires
        0 <= i < name.len(),
    ensures
        file_stem(name).len() == name.len(),
        'a' <= name[i] <= 'z' || 'A' <= name[i] <= 'Z' || '0' <= name[i] <= '9' || name[i] == '-'
            || name[i] == '_' ==> file_stem(name)[i] == name[i],
        file_stem(name)[i] == name[i] || file_stem(name)[i] == '_',
        file_stem(Seq::empty()) == "page"@,
{
}

/// A path that climbs out of its directory, at its start or further on, or that names a host, is left
/// out.
pub proof fn law_climbing_paths_do_not_pass(a: Seq<char>, b: Seq<char>)
    ensures
        ({
            let t = text::trimmed(a + "/../"@ + b);
            t == a + "/../"@ + b && !embeds_image(t) ==> image_url(t).len() == 0
        }),
        ({
            let t = text::trimmed("../"@ + b);
            t == "../"@ + b && !embeds_image(t) ==> image_url(t).len() == 0
        }),
        ({
            let t = text::trimmed("//"@ + b);
            t == "//"@ + b && !embeds_image(t) ==> image_url(t).len() == 0
        }),
{
    text::lemma_occurs_between(a, "/../"@, b);
    reveal_strlit("../");
    reveal_strlit("//");
    let up = "../"@ + b;
    assert("../"@ =~= up.subrange(0, 3));
    let host = "//"@ + b;
    assert("//"@ =~= host.subrange(0, 2));
}

/// A plain path passes as it stands: one without a colon that does not climb and names no host.
pub proof fn law_plain_paths_pass(t: Seq<char>)
    requires
        text::trimmed(t) == t,
        !t.contains(':'),
        !text::occurs(t, "/../"@) && !"../"@.is_prefix_of(t) && t != ".."@ && !"//"@.is_prefix_of(t),
    ensures
        image_url(t) == t,
{
    if has_scheme(t) {
        let i = choose|i: int| 0 <= i < t.len() && ends_scheme(t, i);
        assert(t[i] == ':');
    }
}

} // verus!
