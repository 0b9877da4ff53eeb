//! What the modifiers of SwiftUI views say.

use vstd::prelude::*;

use crate::canvas::{FlexDirection, LayoutView, NodeKind, NodeView, PageView, StyleView};
use crate::codegen;
use crate::codegen::classes;
use crate::codegen::classes::zero;
use crate::codegen::swiftui;
use crate::codegen::swiftui::TokenExtView;
use crate::css;
use crate::markup;
use crate::num;
use crate::text;

verus! {

/// The radius of a node's corners: none where nothing is said.
pub open spec fn corner(n: NodeView) -> Seq<char> {
    match n.style.radius {
        Some(r) => codegen::pixels(r),
        None => "0"@,
    }
}

spec fn offset_part(n: NodeView) -> Seq<char> {
    if num::equal(n.x.bits, num::ZERO) && num::equal(n.y.bits, num::ZERO) {
        Seq::empty()
    } else {
        ".offset(x: "@ + codegen::pixels(n.x) + ", y: "@ + codegen::pixels(n.y) + ")"@
    }
}

spec fn fill_part(n: NodeView) -> Seq<char> {
    match n.style.fill {
        Some(fill) => ".background(swift_ui_color(\""@ + swiftui::swift_escaped(fill) + "\"))"@,
        None => Seq::empty(),
    }
}

spec fn stroke_part(n: NodeView) -> Seq<char> {
    swiftui::stroke_modifier(n.style)
}

spec fn radius_part(n: NodeView) -> Seq<char> {
    match n.style.radius {
        Some(r) => if num::positive(r.bits) {
            ".cornerRadius("@ + codegen::pixels(r) + ")"@
        } else {
            Seq::empty()
        },
        None => Seq::empty(),
    }
}

spec fn opacity_part(n: NodeView) -> Seq<char> {
    match n.style.opacity {
        Some(o) => if swiftui::is_translucent(o.bits) {
            ".opacity("@ + o.text + ")"@
        } else {
            Seq::empty()
        },
        None => Seq::empty(),
    }
}

spec fn rotation_part(n: NodeView) -> Seq<char> {
    if num::equal(n.rotation.bits, num::ZERO) {
        Seq::empty()
    } else {
        ".rotationEffect(.degrees("@ + codegen::pixels(n.rotation) + "))"@
    }
}

spec fn depth_part(n: NodeView) -> Seq<char> {
    if n.z_index != 0 {
        ".zIndex("@ + text::signed_decimal(n.z_index as int) + ")"@
    } else {
        Seq::empty()
    }
}

spec fn font_part(n: NodeView) -> Seq<char> {
    swiftui::font_modifier(n.style)
}

/// The modifiers, by what they speak of.
spec fn groups(n: NodeView) -> Seq<Seq<char>> {
    seq![
        offset_part(n),
        fill_part(n),
        stroke_part(n),
        radius_part(n),
        opacity_part(n),
        rotation_part(n),
        depth_part(n),
        font_part(n),
    ]
}

proof fn lemma_flat(
    g0: Seq<char>,
    g1: Seq<char>,
    g2: Seq<char>,
    g3: Seq<char>,
    g4: Seq<char>,
    g5: Seq<char>,
    g6: Seq<char>,
    g7: Seq<char>,
)
    ensures
        markup::flat(seq![g0, g1, g2, g3, g4, g5, g6, g7]) == g0 + g1 + g2 + g3 + g4 + g5 + g6 + g7,
{
    markup::lemma_flat_one(g0);
    markup::lemma_flat_push(seq![g0], g1);
    assert(seq![g0].push(g1) =~= seq![g0, g1]);
    markup::lemma_flat_push(seq![g0, g1], g2);
    assert(seq![g0, g1].push(g2) =~= seq![g0, g1, g2]);
    markup::lemma_flat_push(seq![g0, g1, g2], g3);
    assert(seq![g0, g1, g2].push(g3) =~= seq![g0, g1, g2, g3]);
    markup::lemma_flat_push(seq![g0, g1, g2, g3], g4);
    assert(seq![g0, g1, g2, g3].push(g4) =~= seq![g0, g1, g2, g3, g4]);
    markup::lemma_flat_push(seq![g0, g1, g2, g3, g4], g5);
    assert(seq![g0, g1, g2, g3, g4].push(g5) =~= seq![g0, g1, g2, g3, g4, g5]);
    markup::lemma_flat_push(seq![g0, g1, g2, g3, g4, g5], g6);
    assert(seq![g0, g1, g2, g3, g4, g5].push(g6) =~= seq![g0, g1, g2, g3, g4, g5, g6]);
    markup::lemma_flat_push(seq![g0, g1, g2, g3, g4, g5, g6], g7);
    assert(seq![g0, g1, g2, g3, g4, g5, g6].push(g7) =~= seq![g0, g1, g2, g3, g4, g5, g6, g7]);
}

proof fn lemma_modifiers(n: NodeView)
    ensures
        swiftui::modifiers(n) == markup::flat(groups(n)),
{
    lemma_flat(
        offset_part(n),
        fill_part(n),
        stroke_part(n),
        radius_part(n),
        opacity_part(n),
        rotation_part(n),
        depth_part(n),
        font_part(n),
    );
}

/// One modifier, against the same without it.
proof fn lemma_part(n: NodeView, m: NodeView, k: int)
    requires
        0 <= k < groups(n).len(),
        groups(m) == groups(n).update(k, Seq::empty()),
    ensures
        markup::adds(swiftui::modifiers(n), swiftui::modifiers(m), groups(n)[k]),
        groups(n)[k] == Seq::<char>::empty() ==> swiftui::modifiers(n) == swiftui::modifiers(m),
{
    lemma_modifiers(n);
    lemma_modifiers(m);
    markup::lemma_flat_group(groups(n), k);
    markup::lemma_piece_added(
        markup::flat(groups(n).take(k)),
        groups(n)[k],
        markup::flat(groups(n).skip(k + 1)),
    );
    if groups(n)[k] == Seq::<char>::empty() {
        assert(groups(n).update(k, Seq::empty()) =~= groups(n));
    }
}

/// A node away from the origin is moved to its coordinates, and nothing else comes of them.
pub proof fn law_offset_adds_its_modifier(n: NodeView)
    ensures
        !(num::equal(n.x.bits, num::ZERO) && num::equal(n.y.bits, num::ZERO)) ==> markup::adds(
            swiftui::modifiers(n),
            swiftui::modifiers(NodeView { x: zero(), y: zero(), ..n }),
            ".offset(x: "@ + codegen::pixels(n.x) + ", y: "@ + codegen::pixels(n.y) + ")"@,
        ),
        num::equal(n.x.bits, num::ZERO) && num::equal(n.y.bits, num::ZERO) ==> swiftui::modifiers(n)
            == swiftui::modifiers(
            NodeView { x: zero(), y: zero(), ..n },
        ),
{
    let m = NodeView { x: zero(), y: zero(), ..n };
    assert(groups(m) =~= groups(n).update(0, Seq::empty()));
    lemma_part(n, m, 0);
}

/// The fill adds a background of its color, and nothing else.
pub proof fn law_fill_adds_its_modifier(n: NodeView)
    ensures
        n.style.fill is Some ==> markup::adds(
            swiftui::modifiers(n),
            swiftui::modifiers(NodeView { style: StyleView { fill: None, ..n.style }, ..n }),
            ".background(swift_ui_color(\""@ + swiftui::swift_escaped(n.style.fill->0) + "\"))"@,
        ),
        n.style.fill is None ==> swiftui::modifiers(n) == swiftui::modifiers(
            NodeView { style: StyleView { fill: None, ..n.style }, ..n },
        ),
{
    let m = NodeView { style: StyleView { fill: None, ..n.style }, ..n };
    assert(groups(m) =~= groups(n).update(1, Seq::empty()));
    lemma_part(n, m, 1);
}

/// The stroke adds an outline of its color and width around the corners of the node.
pub proof fn law_stroke_adds_its_modifier(n: NodeView)
    ensures
        n.style.stroke is Some ==> markup::adds(
            swiftui::modifiers(n),
            swiftui::modifiers(NodeView { style: StyleView { stroke: None, ..n.style }, ..n }),
            ".overlay(RoundedRectangle(cornerRadius: "@ + corner(n) + ").stroke(swift_ui_color(\""@
                + swiftui::swift_escaped(n.style.stroke->0) + "\"), lineWidth: "@ + classes::stroke_pixels(n)
                + "))"@,
        ),
        n.style.stroke is None ==> swiftui::modifiers(n) == swiftui::modifiers(
            NodeView { style: StyleView { stroke: None, ..n.style }, ..n },
        ),
{
    let m = NodeView { style: StyleView { stroke: None, ..n.style }, ..n };
    assert(groups(m) =~= groups(n).update(2, Seq::empty()));
    lemma_part(n, m, 2);
}

/// An opacity adds its modifier unless it is one.
pub proof fn law_opacity_adds_its_modifier(n: NodeView)
    ensures
        n.style.opacity is Some && swiftui::is_translucent(n.style.opacity->0.bits) ==> markup::adds(
            swiftui::modifiers(n),
            swiftui::modifiers(NodeView { style: StyleView { opacity: None, ..n.style }, ..n }),
            ".opacity("@ + n.style.opacity->0.text + ")"@,
        ),
        !(n.style.opacity is Some && swiftui::is_translucent(n.style.opacity->0.bits))
            ==> swiftui::modifiers(n) == swiftui::modifiers(
            NodeView { style: StyleView { opacity: None, ..n.style }, ..n },
        ),
{
    let m = NodeView { style: StyleView { opacity: None, ..n.style }, ..n };
    assert(groups(m) =~= groups(n).update(4, Seq::empty()));
    lemma_part(n, m, 4);
}

/// A rotation adds a turn by its degrees, and nothing else.
pub proof fn law_rotation_adds_its_modifier(n: NodeView)
    ensures
        !num::equal(n.rotation.bits, num::ZERO) ==> markup::adds(
            swiftui::modifiers(n),
            swiftui::modifiers(NodeView { rotation: zero(), ..n }),
            ".rotationEffect(.degrees("@ + codegen::pixels(n.rotation) + "))"@,
        ),
        num::equal(n.rotation.bits, num::ZERO) ==> swiftui::modifiers(n) == swiftui::modifiers(
            NodeView { rotation: zero(), ..n },
        ),
{
    let m = NodeView { rotation: zero(), ..n };
    assert(groups(m) =~= groups(n).update(5, Seq::empty()));
    lemma_part(n, m, 5);
}

/// A depth adds its index, and nothing else.
pub proof fn law_depth_adds_its_modifier(n: NodeView)
    ensures
        n.z_index != 0 ==> markup::adds(
            swiftui::modifiers(n),
            swiftui::modifiers(NodeView { z_index: 0, ..n }),
            ".zIndex("@ + text::signed_decimal(n.z_index as int) + ")"@,
        ),
        n.z_index == 0 ==> swiftui::modifiers(n) == swiftui::modifiers(
            NodeView { z_index: 0, ..n },
        ),
{
    let m = NodeView { z_index: 0, ..n };
    assert(groups(m) =~= groups(n).update(6, Seq::empty()));
    lemma_part(n, m, 6);
}

/// A radius above zero rounds the corners of a node without an outline, and nothing else comes of it.
pub proof fn law_radius_adds_its_modifier(n: NodeView)
    requires
        n.style.stroke is None,
    ensures
        n.style.radius is Some && num::positive(n.style.radius->0.bits) ==> markup::adds(
            swiftui::modifiers(n),
            swiftui::modifiers(NodeView { style: StyleView { radius: None, ..n.style }, ..n }),
            ".cornerRadius("@ + codegen::pixels(n.style.radius->0) + ")"@,
        ),
        !(n.style.radius is Some && num::positive(n.style.radius->0.bits)) ==> swiftui::modifiers(n)
            == swiftui::modifiers(NodeView { style: StyleView { radius: None, ..n.style }, ..n }),
{
    let m = NodeView { style: StyleView { radius: None, ..n.style }, ..n };
    assert(groups(m) =~= groups(n).update(3, Seq::empty()));
    lemma_part(n, m, 3);
}

/// The font comes last: its family and size as far as they are said, a family without a size in
/// sixteen points; a node without either has no font.
pub proof fn law_font_adds_its_modifier(n: NodeView)
    ensures
        ({
            let m = NodeView {
                style: StyleView { font_size: None, font_family: None, ..n.style },
                ..n
            };
            let plain = swiftui::modifiers(m);
            match (n.style.font_size, n.style.font_family) {
                (Some(size), Some(family)) => swiftui::modifiers(n) == plain + (
                ".font(.custom(\""@ + swiftui::swift_escaped(family) + "\", size: "@
                    + codegen::pixels(size) + "))"@),
                (Some(size), None) => swiftui::modifiers(n) == plain + (".font(.system(size: "@
                    + codegen::pixels(size) + "))"@),
                (None, Some(family)) => swiftui::modifiers(n) == plain + (".font(.custom(\""@
                    + swiftui::swift_escaped(family) + "\", size: 16))"@),
                (None, None) => swiftui::modifiers(n) == plain,
            }
        }),
{
    let m = NodeView { style: StyleView { font_size: None, font_family: None, ..n.style }, ..n };
    assert(groups(m) =~= groups(n).update(7, Seq::empty()));
    lemma_modifiers(n);
    lemma_modifiers(m);
    markup::lemma_flat_group(groups(n), 7);
    assert(groups(n).skip(8) =~= Seq::<Seq<char>>::empty());
    assert(markup::flat(Seq::<Seq<char>>::empty()) == Seq::<char>::empty());
    let start = markup::flat(groups(n).take(7));
    assert(start + Seq::<char>::empty() =~= start);
    assert(start + groups(n)[7] + Seq::<char>::empty() =~= start + groups(n)[7]);
    if n.style.font_size is None && n.style.font_family is None {
        assert(start + Seq::<char>::empty() =~= start);
    }
}

/// A rectangle has a frame of its own width and height, as far as they are above zero.
pub proof fn law_rect_is_framed(n: NodeView, indent: nat, children: Seq<char>)
    requires
        n.kind == NodeKind::Rect,
        n.children.len() == 0,
    ensures
        ({
            let view = swiftui::swift_view(n, indent, children);
            let start = swiftui::padding(indent) + "Color.clear"@;
            let end = swiftui::modifiers(n) + "\n"@;
            let wide = num::positive(n.w.bits);
            let high = num::positive(n.h.bits);
            &&& wide && high ==> view == start + (".frame("@ + ("width: "@ + codegen::pixels(n.w))
                + ", "@ + ("height: "@ + codegen::pixels(n.h)) + ")"@) + end
            &&& wide && !high ==> view == start + (".frame("@ + ("width: "@ + codegen::pixels(n.w))
                + ")"@) + end
            &&& !wide && high ==> view == start + (".frame("@ + ("height: "@ + codegen::pixels(n.h))
                + ")"@) + end
            &&& !wide && !high ==> view == start + end
        }),
{
    let start = swiftui::padding(indent) + "Color.clear"@;
    let f = swiftui::frame(n);
    let m = swiftui::modifiers(n);
    assert(start + f + m + "\n"@ =~= start + f + (m + "\n"@));
    if !num::positive(n.w.bits) && !num::positive(n.h.bits) {
        assert(start + f =~= start);
    }
}

/// A circle is as wide as it is high, and as wide as the node unless that has no width.
pub proof fn law_circle_is_round(n: NodeView, indent: nat, children: Seq<char>)
    requires
        n.kind == NodeKind::Circle,
        n.children.len() == 0,
    ensures
        ({
            let across = if num::positive(n.w.bits) { codegen::pixels(n.w) } else {
                codegen::pixels(n.h)
            };
            swiftui::swift_view(n, indent, children) == swiftui::padding(indent) + "Circle()"@
                + swiftui::modifiers(n) + ".frame(width: "@ + across + ", height: "@ + across
                + ")\n"@
        }),
{
}

/// A text shows its own text.
pub proof fn law_text_shows_its_text(n: NodeView, indent: nat, children: Seq<char>)
    requires
        n.kind == NodeKind::Text,
        n.children.len() == 0,
    ensures
        swiftui::swift_view(n, indent, children) == swiftui::padding(indent) + "Text(\""@
            + swiftui::swift_text(text::text_or_empty(n.text)) + "\")"@ + swiftui::modifiers(n)
            + "\n"@,
{
}

/// A group stands around its children: in a row, in a column or in layers, by its layout.
pub proof fn law_group_stands_around_its_children(n: NodeView, indent: nat, children: Seq<char>)
    requires
        n.kind == NodeKind::Group,
    ensures
        ({
            let view = swiftui::swift_view(n, indent, children);
            let start = swiftui::padding(indent) + (match n.style.layout {
                LayoutView::Free => "ZStack"@,
                LayoutView::Grid(_) => "LazyVGrid"@ + "("@ + "spacing: 8"@ + ")"@,
                LayoutView::Flex(p) => (if p.direction == FlexDirection::Row || p.direction
                    == FlexDirection::RowReverse {
                    "HStack"@
                } else {
                    "VStack"@
                }) + "("@ + (if num::positive(p.gap.bits) {
                    "spacing: "@ + codegen::pixels(p.gap)
                } else {
                    "spacing: 0"@
                }) + ")"@,
            });
            view == start + " {\n"@ + children + swiftui::padding(indent) + "}"@
                + swiftui::modifiers(n) + "\n"@
        }),
{
}

/// What a node with children renders as stands in layers with them, in front of them in the text.
pub proof fn law_leaf_stands_with_its_children(n: NodeView, indent: nat, children: Seq<char>)
    requires
        n.kind != NodeKind::Group,
        n.children.len() > 0,
    ensures
        swiftui::swift_view(n, indent, children) == swiftui::padding(indent) + "ZStack {\n"@
            + swiftui::swift_view(
            NodeView { children: Seq::empty(), ..n },
            indent,
            Seq::empty(),
        ) + children + swiftui::padding(indent) + "}\n"@,
{
    let alone = NodeView { children: Seq::empty(), ..n };
    assert(swiftui::modifiers(alone) == swiftui::modifiers(n));
    assert(swiftui::frame(alone) == swiftui::frame(n));
    assert(swiftui::swift_leaf(alone, indent) == swiftui::swift_leaf(n, indent));
}

/// A hexadecimal color is given by its three components in the order red, green and blue, a token
/// by its name, any other color by itself.
pub proof fn law_color_is_given_by_components(color: Seq<char>)
    ensures
        !"token:"@.is_prefix_of(color) && css::hex_color(color) is Some ==> ({
            let (red, green, blue) = css::hex_color(color)->0;
            swiftui::swift_color(color) == "Color(red: "@ + text::decimal(red as nat)
                + "/255, green: "@ + text::decimal(green as nat) + "/255, blue: "@ + text::decimal(
                blue as nat,
            ) + "/255)"@
        }),
        !"token:"@.is_prefix_of(color) && css::hex_color(color) is None
            ==> swiftui::swift_color(color) == "Color(\""@ + swiftui::swift_escaped(color) + "\")"@,
        "token:"@.is_prefix_of(color) ==> swiftui::swift_color(color) == "DesignTokens."@
            + swiftui::swift_name(color.skip("token:"@.len() as int)),
{
}

/// Nodes are rendered one after the other, in their order.
pub proof fn law_views_stand_in_order(a: Seq<NodeView>, b: Seq<NodeView>, indent: nat, depth: nat)
    ensures
        swiftui::swift_nodes(a + b, indent, depth) == swiftui::swift_nodes(a, indent, depth)
            + swiftui::swift_nodes(b, indent, depth),
    decreases b.len(),
{
    let first = swiftui::swift_nodes(a, indent, depth);
    if b.len() == 0 {
        assert(a + b =~= a);
        assert(first + Seq::<char>::empty() =~= first);
    } else {
        law_views_stand_in_order(a, b.drop_last(), indent, depth);
        assert((a + b).drop_last() =~= a + b.drop_last());
        let middle = swiftui::swift_nodes(b.drop_last(), indent, depth);
        let last = swiftui::swift_node(b.last(), indent, depth);
        assert(first + middle + last =~= first + (middle + last));
    }
}

/// A reference to a token declares the color that the node has there: its fill under `fill`, its
/// stroke under `stroke`, and nothing under any other name; a name that is declared already stays.
pub proof fn law_reference_declares_its_color(
    style: StyleView,
    key: Seq<char>,
    token: Seq<char>,
    exts: Seq<TokenExtView>,
)
    ensures
        ({
            let more = swiftui::with_ref(style, (key, token), exts);
            let name = swiftui::swift_name(token);
            let known = swiftui::has_name(exts, name);
            &&& key == "fill"@ && style.fill is Some && !known ==> more == exts.push(
                TokenExtView { swift_name: name, color_expr: swiftui::swift_color(style.fill->0) },
            )
            &&& key == "stroke"@ && style.stroke is Some && !known ==> more == exts.push(
                TokenExtView { swift_name: name, color_expr: swiftui::swift_color(style.stroke->0) },
            )
            &&& known ==> more == exts
            &&& key != "fill"@ && key != "stroke"@ ==> more == exts
            &&& key == "fill"@ && style.fill is None ==> more == exts
            &&& key == "stroke"@ && style.stroke is None ==> more == exts
        }),
{
    reveal_strlit("fill");
    reveal_strlit("stroke");
    assert("fill"@[0] != "stroke"@[0]);
}

/// What is declared stays declared, in its place, whatever references come after it.
pub proof fn law_declared_names_stay(
    n: NodeView,
    ns: Seq<NodeView>,
    ps: Seq<PageView>,
    refs: Seq<(Seq<char>, Seq<char>)>,
    exts: Seq<TokenExtView>,
)
    ensures
        exts.is_prefix_of(swiftui::with_refs(n.style, refs, exts)),
        exts.is_prefix_of(swiftui::with_node(n, exts)),
        exts.is_prefix_of(swiftui::with_nodes(ns, exts)),
        exts.is_prefix_of(swiftui::with_pages(ps, exts)),
{
    lemma_refs_grow(n.style, refs, exts);
    lemma_node_grows(n, exts);
    lemma_nodes_grow(ns, exts);
    lemma_pages_grow(ps, exts);
}

proof fn lemma_longer(a: Seq<TokenExtView>, b: Seq<TokenExtView>, c: Seq<TokenExtView>)
    requires
        a.is_prefix_of(b),
        b.is_prefix_of(c),
    ensures
        a.is_prefix_of(c),
{
    assert(a =~= c.subrange(0, a.len() as int)) by {
        assert forall|i: int| 0 <= i < a.len() implies a[i] == c[i] by {
            assert(a[i] == b.subrange(0, a.len() as int)[i]);
            assert(b[i] == c.subrange(0, b.len() as int)[i]);
        }
    }
}

proof fn lemma_refs_grow(
    style: StyleView,
    refs: Seq<(Seq<char>, Seq<char>)>,
    exts: Seq<TokenExtView>,
)
    ensures
        exts.is_prefix_of(swiftui::with_refs(style, refs, exts)),
    decreases refs.len(),
{
    if refs.len() == 0 {
        assert(exts =~= exts.subrange(0, exts.len() as int));
    } else {
        let before = swiftui::with_refs(style, refs.drop_last(), exts);
        let after = swiftui::with_refs(style, refs, exts);
        lemma_refs_grow(style, refs.drop_last(), exts);
        assert(before =~= after.subrange(0, before.len() as int));
        lemma_longer(exts, before, after);
    }
}

proof fn lemma_node_grows(n: NodeView, exts: Seq<TokenExtView>)
    ensures
        exts.is_prefix_of(swiftui::with_node(n, exts)),
    decreases n,
{
    let own = swiftui::with_refs(n.style, n.style.refs, exts);
    lemma_refs_grow(n.style, n.style.refs, exts);
    lemma_nodes_grow(n.children, own);
    lemma_longer(exts, own, swiftui::with_node(n, exts));
}

proof fn lemma_nodes_grow(ns: Seq<NodeView>, exts: Seq<TokenExtView>)
    ensures
        exts.is_prefix_of(swiftui::with_nodes(ns, exts)),
    decreases ns,
{
    if ns.len() == 0 {
        assert(exts =~= exts.subrange(0, exts.len() as int));
    } else {
        let before = swiftui::with_nodes(ns.drop_last(), exts);
        lemma_nodes_grow(ns.drop_last(), exts);
        lemma_node_grows(ns.last(), before);
        lemma_longer(exts, before, swiftui::with_nodes(ns, exts));
    }
}

proof fn lemma_pages_grow(ps: Seq<PageView>, exts: Seq<TokenExtView>)
    ensures
        exts.is_prefix_of(swiftui::with_pages(ps, exts)),
    decreases ps.len(),
{
    if ps.len() == 0 {
        assert(exts =~= exts.subrange(0, exts.len() as int));
    } else {
        let before = swiftui::with_pages(ps.drop_last(), exts);
        lemma_pages_grow(ps.drop_last(), exts);
        lemma_nodes_grow(ps.last().nodes, before);
        lemma_longer(exts, before, swiftui::with_pages(ps, exts));
    }
}

proof fn lemma_name_stays(a: Seq<TokenExtView>, b: Seq<TokenExtView>, name: Seq<char>)
    requires
        a.is_prefix_of(b),
        swiftui::has_name(a, name),
    ensures
        swiftui::has_name(b, name),
{
    let i = choose|i: int| 0 <= i < a.len() && (#[trigger] a[i]).swift_name == name;
    assert(a[i] == b.subrange(0, a.len() as int)[i]);
    assert(b[i].swift_name == name);
}

proof fn lemma_ref_declared(
    style: StyleView,
    refs: Seq<(Seq<char>, Seq<char>)>,
    exts: Seq<TokenExtView>,
    k: int,
)
    requires
        0 <= k < refs.len(),
        swiftui::ref_color(style, refs[k].0) is Some,
    ensures
        swiftui::has_name(swiftui::with_refs(style, refs, exts), swiftui::swift_name(refs[k].1)),
    decreases refs.len(),
{
    let before = swiftui::with_refs(style, refs.drop_last(), exts);
    let after = swiftui::with_refs(style, refs, exts);
    let name = swiftui::swift_name(refs[k].1);
    if k == refs.len() - 1 {
        if !swiftui::has_name(before, name) {
            assert(after[before.len() as int].swift_name == name);
        }
    } else {
        lemma_ref_declared(style, refs.drop_last(), exts, k);
        assert(before =~= after.subrange(0, before.len() as int));
        lemma_name_stays(before, after, name);
    }
}

/// Every reference of a node to a token for its fill or its stroke is declared among the extensions
/// of the pages, wherever the node stands on its page.
pub proof fn law_every_reference_is_declared(ns: Seq<NodeView>, exts: Seq<TokenExtView>, i: int, k: int)
    requires
        0 <= i < ns.len(),
        0 <= k < ns[i].style.refs.len(),
        ns[i].style.refs[k].0 == "fill"@ && ns[i].style.fill is Some || ns[i].style.refs[k].0
            == "stroke"@ && ns[i].style.stroke is Some,
    ensures
        swiftui::has_name(
            swiftui::with_nodes(ns, exts),
            swiftui::swift_name(ns[i].style.refs[k].1),
        ),
    decreases ns.len(),
{
    reveal_strlit("fill");
    reveal_strlit("stroke");
    assert("fill"@[0] != "stroke"@[0]);
    let n = ns[i];
    let name = swiftui::swift_name(n.style.refs[k].1);
    let before = swiftui::with_nodes(ns.drop_last(), exts);
    if i == ns.len() - 1 {
        let own = swiftui::with_refs(n.style, n.style.refs, before);
        lemma_ref_declared(n.style, n.style.refs, before, k);
        lemma_nodes_grow(n.children, own);
        lemma_name_stays(own, swiftui::with_node(n, before), name);
    } else {
        law_every_reference_is_declared(ns.drop_last(), exts, i, k);
        lemma_node_grows(ns.last(), before);
        lemma_name_stays(before, swiftui::with_nodes(ns, exts), name);
    }
}

/// Each extension stands in the source as a constant of its name and its color.
pub proof fn law_extensions_are_written(exts: Seq<TokenExtView>, i: int)
    requires
        0 <= i < exts.len(),
    ensures
        text::occurs(
            swiftui::ext_source(exts),
            "static let "@ + exts[i].swift_name + " = "@ + exts[i].color_expr + "\n"@,
        ),
{
    let line = "static let "@ + exts[i].swift_name + " = "@ + exts[i].color_expr + "\n"@;
    lemma_line_written(exts, i, line);
    let lines = swiftui::ext_lines(exts);
    let a = "extension Color {\n"@ + "    enum DesignTokens {\n"@;
    let b = "    }\n"@ + "}\n\n"@;
    text::lemma_occurs_within(a, lines, b, line);
    assert(a + lines + b =~= swiftui::ext_source(exts));
}

proof fn lemma_line_written(exts: Seq<TokenExtView>, i: int, line: Seq<char>)
    requires
        0 <= i < exts.len(),
        line == "static let "@ + exts[i].swift_name + " = "@ + exts[i].color_expr + "\n"@,
    ensures
        text::occurs(swiftui::ext_lines(exts), line),
    decreases exts.len(),
{
    let nothing = Seq::<char>::empty();
    let front = swiftui::ext_lines(exts.drop_last());
    let last = "        static let "@ + exts.last().swift_name + " = "@ + exts.last().color_expr
        + "\n"@;
    if i == exts.len() - 1 {
        reveal_strlit("        static let ");
        reveal_strlit("static let ");
        reveal_strlit("        ");
        assert("        static let "@ =~= "        "@ + "static let "@);
        assert(last =~= "        "@ + line);
        let start = front + "        "@;
        text::lemma_occurs_between(start, line, nothing);
        assert(start + line + nothing =~= front + last);
    } else {
        lemma_line_written(exts.drop_last(), i, line);
        text::lemma_occurs_within(nothing, front, last, line);
        assert(nothing + front + last =~= front + last);
    }
}

/// A name in Swift is the name of the token with underscores for its dots, letter by letter.
pub proof fn law_names_have_underscores(s: Seq<char>, i: int)
    requires
        0 <= i < s.len(),
    ensures
        swiftui::swift_name(s).len() == s.len(),
        s[i] == '.' ==> swiftui::swift_name(s)[i] == '_',
        s[i] != '.' ==> swiftui::swift_name(s)[i] == s[i],
{
}

/// The text that a literal with backslashes stands for.
pub open spec fn unescaped(t: Seq<char>) -> Seq<char>
    decreases t.len(),
{
    if t.len() == 0 {
        Seq::empty()
    } else if t.len() >= 2 && t[0] == '\\' {
        seq![
            if t[1] == 'n' {
                '\n'
            } else if t[1] == 'r' {
                '\r'
            } else {
                t[1]
            },
        ] + unescaped(t.skip(2))
    } else {
        seq![t[0]] + unescaped(t.skip(1))
    }
}

/// An escaped text stands for the text that was escaped, in a color and in a text node.
pub proof fn law_literal_reads_back(s: Seq<char>)
    ensures
        unescaped(swiftui::swift_escaped(s)) == s,
        unescaped(swiftui::swift_text(s)) == s,
    decreases s.len(),
{
    let f = |c: char| swiftui::swift_char(c);
    let g = |c: char| swiftui::swift_text_char(c);
    if s.len() == 0 {
        assert(unescaped(swiftui::swift_escaped(s)) =~= s);
        assert(unescaped(swiftui::swift_text(s)) =~= s);
    } else {
        let rest = s.skip(1);
        assert(s =~= seq![s[0]] + rest);
        text::lemma_mapped_front(s[0], rest, f);
        text::lemma_mapped_front(s[0], rest, g);
        law_literal_reads_back(rest);
        lemma_escape(s[0]);
        lemma_unescaped(s[0], swiftui::swift_char(s[0]), swiftui::swift_escaped(rest));
        lemma_unescaped(s[0], swiftui::swift_text_char(s[0]), swiftui::swift_text(rest));
    }
}

spec fn is_escape(c: char, e: Seq<char>) -> bool {
    ||| c != '\\' && e == seq![c]
    ||| c == '\n' && e == seq!['\\', 'n']
    ||| c == '\r' && e == seq!['\\', 'r']
    ||| c != 'n' && c != 'r' && e == seq!['\\', c]
}

proof fn lemma_escape(c: char)
    ensures
        is_escape(c, swiftui::swift_char(c)),
        is_escape(c, swiftui::swift_text_char(c)),
{
    reveal_strlit("\\\\");
    reveal_strlit("\\\"");
    reveal_strlit("\\n");
    reveal_strlit("\\r");
    assert("\\\\"@ =~= seq!['\\', '\\']);
    assert("\\\""@ =~= seq!['\\', '"']);
    assert("\\n"@ =~= seq!['\\', 'n']);
    assert("\\r"@ =~= seq!['\\', 'r']);
}

proof fn lemma_unescaped(c: char, e: Seq<char>, rest: Seq<char>)
    requires
        is_escape(c, e),
    ensures
        unescaped(e + rest) == seq![c] + unescaped(rest),
{
    let t = e + rest;
    assert(t[0] == e[0]);
    assert(t.skip(e.len() as int) =~= rest);
    if e.len() == 2 {
        assert(t[1] == e[1]);
    }
}

/// A node as opaque as can be has no modifier for it, and neither has one whose opacity is no number.
pub proof fn law_one_is_opaque(bits: u64)
    ensures
        num::equal(bits, 0x3ff0_0000_0000_0000) || num::is_nan(bits) ==> !swiftui::is_translucent(
            bits,
        ),
        !num::is_nan(bits) && (num::negative(bits) || bits < 0x3fef_ffff_ffff_fffe)
            ==> swiftui::is_translucent(bits),
        !num::is_nan(bits) && !num::negative(bits) && bits > 0x3ff0_0000_0000_0001
            ==> swiftui::is_translucent(bits),
{
}

/// A page shows its nodes one below the other, each a step further in.
pub proof fn law_page_shows_its_nodes(p: PageView, indent: nat)
    ensures
        text::occurs(swiftui::swift_page(p, indent), swiftui::swift_nodes(p.nodes, indent + 1, 0)),
        swiftui::padding(indent + 1) == swiftui::padding(indent) + "    "@,
{
    let a = swiftui::padding(indent) + "VStack(spacing: 0) {\n"@;
    let nodes = swiftui::swift_nodes(p.nodes, indent + 1, 0);
    let b = swiftui::padding(indent) + "}\n"@;
    text::lemma_occurs_between(a, nodes, b);
    assert(a + nodes + b =~= swiftui::swift_page(p, indent));
}

} // verus!
