//! Rendering as SwiftUI views.

use vstd::prelude::*;
use vstd::string::*;

use crate::canvas;
use crate::canvas::{
    FlexDirection, LayoutMode, LayoutView, NodeKind, NodeStyle, NodeView, Page, PageView,
    PenDocument, PenNode, StyleView,
};
use crate::codegen;
use crate::codegen::{px, wrap, MAX_CODEGEN_DEPTH};
use crate::css;
use crate::css::parse_hex_color;
use crate::num;
use crate::num::{num_lt, ONE_LESS_EPSILON, ONE_PLUS_EPSILON};
use crate::text;
use crate::text::{
    chars_of, number, or_empty, repeat, replace_char, same, signed_number, stands_before,
    strip_prefix,
};

verus! {

// ---------------------------------------------------------------------------
// What is rendered
// ---------------------------------------------------------------------------

/// What one character becomes in a Swift string literal.
pub open spec fn swift_char(c: char) -> Seq<char> {
    if c == '\\' {
        "\\\\"@
    } else if c == '"' {
        "\\\""@
    } else if c == '\n' {
        "\\n"@
    } else if c == '\r' {
        "\\r"@
    } else {
        seq![c]
    }
}

/// The text as it may stand in a Swift string literal.
pub open spec fn swift_escaped(s: Seq<char>) -> Seq<char> {
    text::mapped(s, |c: char| swift_char(c))
}

/// What one character of a text node becomes in a Swift string literal.
pub open spec fn swift_text_char(c: char) -> Seq<char> {
    if c == '\\' {
        "\\\\"@
    } else if c == '"' {
        "\\\""@
    } else {
        seq![c]
    }
}

/// The content of a text node in a Swift string literal.
pub open spec fn swift_text(s: Seq<char>) -> Seq<char> {
    text::mapped(s, |c: char| swift_text_char(c))
}

/// The name with underscores for its dots.
pub open spec fn swift_name(s: Seq<char>) -> Seq<char> {
    s.map_values(|c: char| if c == '.' { '_' } else { c })
}

/// The colour as a Swift expression: a token by its name, a hexadecimal colour by its components,
/// any other by its name.
pub open spec fn swift_color(color: Seq<char>) -> Seq<char> {
    if "token:"@.is_prefix_of(color) {
        "DesignTokens."@ + swift_name(color.skip("token:"@.len() as int))
    } else {
        match css::hex_color(color) {
            Some((r, g, b)) => "Color(red: "@ + text::decimal(r as nat) + "/255, green: "@
                + text::decimal(g as nat) + "/255, blue: "@ + text::decimal(b as nat) + "/255)"@,
            None => "Color(\""@ + swift_escaped(color) + "\")"@,
        }
    }
}

/// The opacity differs from one by more than an epsilon.
pub open spec fn is_translucent(bits: u64) -> bool {
    num::less(bits, ONE_LESS_EPSILON) || num::less(ONE_PLUS_EPSILON, bits)
}

/// The font of a node, where its style names a size or a family.
pub open spec fn font_modifier(s: StyleView) -> Seq<char> {
    match (s.font_size, s.font_family) {
        (Some(n), Some(f)) => ".font(.custom(\""@ + swift_escaped(f) + "\", size: "@
            + codegen::pixels(n) + "))"@,
        (Some(n), None) => ".font(.system(size: "@ + codegen::pixels(n) + "))"@,
        (None, Some(f)) => ".font(.custom(\""@ + swift_escaped(f) + "\", size: 16))"@,
        (None, None) => Seq::empty(),
    }
}

/// The outline of a node; without a width it is one wide, without a radius its corners are sharp.
pub open spec fn stroke_modifier(s: StyleView) -> Seq<char> {
    match s.stroke {
        Some(stroke) => ".overlay(RoundedRectangle(cornerRadius: "@ + (match s.radius {
            Some(r) => codegen::pixels(r),
            None => "0"@,
        }) + ").stroke(swift_ui_color(\""@ + swift_escaped(stroke) + "\"), lineWidth: "@ + (
        match s.stroke_width {
            Some(w) => codegen::pixels(w),
            None => "1"@,
        }) + "))"@,
        None => Seq::empty(),
    }
}

/// The modifiers of a node.
pub open spec fn modifiers(n: NodeView) -> Seq<char> {
    (if num::equal(n.x.bits, num::ZERO) && num::equal(n.y.bits, num::ZERO) {
        Seq::empty()
    } else {
        ".offset(x: "@ + codegen::pixels(n.x) + ", y: "@ + codegen::pixels(n.y) + ")"@
    }) + (match n.style.fill {
        Some(fill) => ".background(swift_ui_color(\""@ + swift_escaped(fill) + "\"))"@,
        None => Seq::empty(),
    }) + stroke_modifier(n.style) + (match n.style.radius {
        Some(r) => if num::positive(r.bits) {
            ".cornerRadius("@ + codegen::pixels(r) + ")"@
        } else {
            Seq::empty()
        },
        None => Seq::empty(),
    }) + (match n.style.opacity {
        Some(o) => if is_translucent(o.bits) {
            ".opacity("@ + o.text + ")"@
        } else {
            Seq::empty()
        },
        None => Seq::empty(),
    }) + (if num::equal(n.rotation.bits, num::ZERO) {
        Seq::empty()
    } else {
        ".rotationEffect(.degrees("@ + codegen::pixels(n.rotation) + "))"@
    }) + (if n.z_index != 0 {
        ".zIndex("@ + text::signed_decimal(n.z_index as int) + ")"@
    } else {
        Seq::empty()
    }) + font_modifier(n.style)
}

/// The frame of a rectangle, as far as its sides are above zero.
pub open spec fn frame(n: NodeView) -> Seq<char> {
    let w = "width: "@ + codegen::pixels(n.w);
    let h = "height: "@ + codegen::pixels(n.h);
    if num::positive(n.w.bits) {
        if num::positive(n.h.bits) {
            ".frame("@ + w + ", "@ + h + ")"@
        } else {
            ".frame("@ + w + ")"@
        }
    } else if num::positive(n.h.bits) {
        ".frame("@ + h + ")"@
    } else {
        Seq::empty()
    }
}

/// The diameter of a circle: its width, or its height where the width is not above zero.
pub open spec fn diameter(n: NodeView) -> Seq<char> {
    if num::positive(n.w.bits) {
        codegen::pixels(n.w)
    } else {
        codegen::pixels(n.h)
    }
}

/// The container that a group becomes.
pub open spec fn container(layout: LayoutView) -> Seq<char> {
    match layout {
        LayoutView::Free => "ZStack"@,
        LayoutView::Flex(p) => (match p.direction {
            FlexDirection::Row => "HStack"@,
            FlexDirection::RowReverse => "HStack"@,
            FlexDirection::Column => "VStack"@,
            FlexDirection::ColumnReverse => "VStack"@,
        }) + "("@ + (if num::positive(p.gap.bits) {
            "spacing: "@ + codegen::pixels(p.gap)
        } else {
            "spacing: 0"@
        }) + ")"@,
        LayoutView::Grid(g) => "LazyVGrid"@ + "("@ + "spacing: 8"@ + ")"@,
    }
}

/// The white space in front of a line.
pub open spec fn padding(indent: nat) -> Seq<char> {
    text::repeated("    "@, indent)
}

/// A node that is no group, without what stands inside it.
pub open spec fn swift_leaf(n: NodeView, indent: nat) -> Seq<char> {
    match n.kind {
        NodeKind::Rect => padding(indent) + "Color.clear"@ + frame(n) + modifiers(n) + "\n"@,
        NodeKind::Circle => padding(indent) + "Circle()"@ + modifiers(n) + ".frame(width: "@
            + diameter(n) + ", height: "@ + diameter(n) + ")\n"@,
        NodeKind::Text => padding(indent) + "Text(\""@ + swift_text(text::text_or_empty(n.text))
            + "\")"@ + modifiers(n) + "\n"@,
        _ => padding(indent) + "Image(systemName: \"photo\")"@ + modifiers(n) + "\n"@,
    }
}

/// A node around what its children render as; a leaf with children stands with them in a stack.
pub open spec fn swift_view(n: NodeView, indent: nat, children: Seq<char>) -> Seq<char> {
    if n.kind == NodeKind::Group {
        padding(indent) + container(n.style.layout) + " {\n"@ + children + padding(indent) + "}"@
            + modifiers(n) + "\n"@
    } else if n.children.len() == 0 {
        swift_leaf(n, indent)
    } else {
        padding(indent) + "ZStack {\n"@ + swift_leaf(n, indent) + children + padding(indent)
            + "}\n"@
    }
}

/// A node as a SwiftUI view; below the depth limit a comment stands in its place.
pub open spec fn swift_node(n: NodeView, indent: nat, depth: nat) -> Seq<char>
    decreases n,
{
    if depth > MAX_CODEGEN_DEPTH {
        padding(indent) + "/* codegen depth limit reached */\n"@
    } else {
        swift_view(n, indent, swift_nodes(n.children, indent + 1, depth + 1))
    }
}

/// The nodes as SwiftUI views, one after the other.
pub open spec fn swift_nodes(ns: Seq<NodeView>, indent: nat, depth: nat) -> Seq<char>
    decreases ns,
{
    if ns.len() == 0 {
        Seq::empty()
    } else {
        swift_nodes(ns.drop_last(), indent, depth) + swift_node(ns.last(), indent, depth)
    }
}

/// A page as a SwiftUI view.
pub open spec fn swift_page(p: PageView, indent: nat) -> Seq<char> {
    padding(indent) + "VStack(spacing: 0) {\n"@ + swift_nodes(p.nodes, indent + 1, 0) + padding(
        indent,
    ) + "}\n"@
}

// ---------------------------------------------------------------------------
// Rendering
// ---------------------------------------------------------------------------

/// Makes a text safe to stand in a Swift string literal.
pub fn escape_swift_string(s: &str) -> (r: String)
    ensures
        r@ == swift_escaped(s@),
{
    let cs = chars_of(s);
    let mut out = String::new();
    let mut i: usize = 0;
    while i < cs.len()
        invariant
            i <= cs@.len(),
            cs@ == s@,
            out@ == swift_escaped(s@.take(i as int)),
        decreases cs.len() - i,
    {
        let c = cs[i];
        proof {
            text::lemma_mapped_step(s@, |c: char| swift_char(c), i as int);
        }
        if c == '\\' {
            out.append("\\\\");
        } else if c == '"' {
            out.append("\\\"");
        } else if c == '\n' {
            out.append("\\n");
        } else if c == '\r' {
            out.append("\\r");
        } else {
            out.push(c);
            proof {
                assert(out@ =~= swift_escaped(s@.take(i as int)) + seq![c]);
            }
        }
        i = i + 1;
    }
    proof {
        text::lemma_take_all(s@);
    }
    out
}

fn escape_swift_text(s: &str) -> (r: String)
    ensures
        r@ == swift_text(s@),
{
    let cs = chars_of(s);
    let mut out = String::new();
    let mut i: usize = 0;
    while i < cs.len()
        invariant
            i <= cs@.len(),
            cs@ == s@,
            out@ == swift_text(s@.take(i as int)),
        decreases cs.len() - i,
    {
        let c = cs[i];
        proof {
            text::lemma_mapped_step(s@, |c: char| swift_text_char(c), i as int);
        }
        if c == '\\' {
            out.append("\\\\");
        } else if c == '"' {
            out.append("\\\"");
        } else {
            out.push(c);
            proof {
                assert(out@ =~= swift_text(s@.take(i as int)) + seq![c]);
            }
        }
        i = i + 1;
    }
    proof {
        text::lemma_take_all(s@);
    }
    out
}

/// The colour as a Swift expression.
pub fn swift_ui_color(color: &str) -> (r: String)
    ensures
        r@ == swift_color(color@),
{
    match strip_prefix(color, "token:") {
        Some(rest) => "DesignTokens.".to_owned().concat(
            replace_char(rest.as_str(), '.', '_').as_str(),
        ),
        None => match parse_hex_color(color) {
            Some(c) => "Color(red: ".to_owned().concat(number(c[0] as u64).as_str()).concat(
                "/255, green: ",
            ).concat(number(c[1] as u64).as_str()).concat("/255, blue: ").concat(
                number(c[2] as u64).as_str(),
            ).concat("/255)"),
            None => wrap("Color(\"", escape_swift_string(color).as_str(), "\")"),
        },
    }
}

fn font_swift(s: &NodeStyle) -> (r: String)
    ensures
        r@ == font_modifier(s@),
{
    match (&s.font_size, &s.font_family) {
        (Some(n), Some(f)) => wrap(
            ".font(.custom(\"",
            escape_swift_string(f.as_str()).as_str(),
            "\", size: ",
        ).concat(px(n).as_str()).concat("))"),
        (Some(n), None) => wrap(".font(.system(size: ", px(n).as_str(), "))"),
        (None, Some(f)) => wrap(
            ".font(.custom(\"",
            escape_swift_string(f.as_str()).as_str(),
            "\", size: 16))",
        ),
        (None, None) => String::new(),
    }
}

fn stroke_swift(s: &NodeStyle) -> (r: String)
    ensures
        r@ == stroke_modifier(s@),
{
    match &s.stroke {
        Some(stroke) => {
            let radius = match &s.radius {
                Some(n) => px(n),
                None => "0".to_owned(),
            };
            let width = match &s.stroke_width {
                Some(n) => px(n),
                None => "1".to_owned(),
            };
            ".overlay(RoundedRectangle(cornerRadius: ".to_owned().concat(radius.as_str()).concat(
                ").stroke(swift_ui_color(\"",
            ).concat(escape_swift_string(stroke.as_str()).as_str()).concat(
                "\"), lineWidth: ",
            ).concat(width.as_str()).concat("))")
        },
        None => String::new(),
    }
}

fn modifiers_swift(node: &PenNode) -> (r: String)
    ensures
        r@ == modifiers(node@),
{
    let offset = if node.x.is_zero() && node.y.is_zero() {
        String::new()
    } else {
        wrap(".offset(x: ", px(&node.x).as_str(), ", y: ").concat(px(&node.y).as_str()).concat(")")
    };
    let fill = match &node.style.fill {
        Some(fill) => wrap(
            ".background(swift_ui_color(\"",
            escape_swift_string(fill.as_str()).as_str(),
            "\"))",
        ),
        None => String::new(),
    };
    let radius = match &node.style.radius {
        Some(n) => if n.is_positive() {
            wrap(".cornerRadius(", px(n).as_str(), ")")
        } else {
            String::new()
        },
        None => String::new(),
    };
    let opacity = match &node.style.opacity {
        Some(n) => if num_lt(n.bits, ONE_LESS_EPSILON) || num_lt(ONE_PLUS_EPSILON, n.bits) {
            wrap(".opacity(", n.text.as_str(), ")")
        } else {
            String::new()
        },
        None => String::new(),
    };
    let rotation = if node.rotation.is_zero() {
        String::new()
    } else {
        wrap(".rotationEffect(.degrees(", px(&node.rotation).as_str(), "))")
    };
    let z_index = if node.z_index != 0 {
        wrap(".zIndex(", signed_number(node.z_index as i64).as_str(), ")")
    } else {
        String::new()
    };
    offset.concat(fill.as_str()).concat(stroke_swift(&node.style).as_str()).concat(
        radius.as_str(),
    ).concat(opacity.as_str()).concat(rotation.as_str()).concat(z_index.as_str()).concat(
        font_swift(&node.style).as_str(),
    )
}

fn frame_swift(node: &PenNode) -> (r: String)
    ensures
        r@ == frame(node@),
{
    let w = "width: ".to_owned().concat(px(&node.w).as_str());
    let h = "height: ".to_owned().concat(px(&node.h).as_str());
    if node.w.is_positive() {
        if node.h.is_positive() {
            wrap(".frame(", w.as_str(), ", ").concat(h.as_str()).concat(")")
        } else {
            wrap(".frame(", w.as_str(), ")")
        }
    } else if node.h.is_positive() {
        wrap(".frame(", h.as_str(), ")")
    } else {
        String::new()
    }
}

fn container_swift(layout: &LayoutMode) -> (r: String)
    ensures
        r@ == container(layout@),
{
    match layout {
        LayoutMode::Free => "ZStack".to_owned(),
        LayoutMode::Flex(p) => {
            let stack = match p.direction {
                FlexDirection::Row => "HStack",
                FlexDirection::RowReverse => "HStack",
                FlexDirection::Column => "VStack",
                FlexDirection::ColumnReverse => "VStack",
            };
            let spacing = if p.gap.is_positive() {
                "spacing: ".to_owned().concat(px(&p.gap).as_str())
            } else {
                "spacing: 0".to_owned()
            };
            wrap(stack, "(", spacing.as_str()).concat(")")
        },
        LayoutMode::Grid(_) => wrap("LazyVGrid", "(", "spacing: 8").concat(")"),
    }
}

fn leaf_swift(node: &PenNode, indent: usize) -> (r: String)
    ensures
        r@ == swift_leaf(node@, indent as nat),
{
    let pad = repeat("    ", indent);
    let mods = modifiers_swift(node);
    match node.kind {
        NodeKind::Rect => pad.concat("Color.clear").concat(frame_swift(node).as_str()).concat(
            mods.as_str(),
        ).concat("\n"),
        NodeKind::Circle => {
            let size = if node.w.is_positive() {
                px(&node.w)
            } else {
                px(&node.h)
            };
            pad.concat("Circle()").concat(mods.as_str()).concat(".frame(width: ").concat(
                size.as_str(),
            ).concat(", height: ").concat(size.as_str()).concat(")\n")
        },
        NodeKind::Text => pad.concat("Text(\"").concat(
            escape_swift_text(or_empty(&node.text).as_str()).as_str(),
        ).concat("\")").concat(mods.as_str()).concat("\n"),
        _ => pad.concat("Image(systemName: \"photo\")").concat(mods.as_str()).concat("\n"),
    }
}

fn view_swift(node: &PenNode, indent: usize, children: &str) -> (r: String)
    ensures
        r@ == swift_view(node@, indent as nat, children@),
{
    let pad = repeat("    ", indent);
    if node.kind == NodeKind::Group {
        pad.clone().concat(container_swift(&node.style.layout).as_str()).concat(" {\n").concat(
            children,
        ).concat(pad.as_str()).concat("}").concat(modifiers_swift(node).as_str()).concat("\n")
    } else if node.children.len() == 0 {
        leaf_swift(node, indent)
    } else {
        pad.clone().concat("ZStack {\n").concat(leaf_swift(node, indent).as_str()).concat(
            children,
        ).concat(pad.as_str()).concat("}\n")
    }
}

/// A node at a depth as a SwiftUI view, with all that is inside it.
pub fn node_to_swiftui_inner(node: &PenNode, indent: usize, depth: usize) -> (r: String)
    requires
        depth <= MAX_CODEGEN_DEPTH ==> indent + (MAX_CODEGEN_DEPTH + 1 - depth) <= usize::MAX,
    ensures
        r@ == swift_node(node@, indent as nat, depth as nat),
    decreases node,
{
    if depth > MAX_CODEGEN_DEPTH {
        return repeat("    ", indent).concat("/* codegen depth limit reached */\n");
    }
    let mut children = String::new();
    let mut i: usize = 0;
    while i < node.children.len()
        invariant
            i <= node.children@.len(),
            depth <= MAX_CODEGEN_DEPTH,
            indent + (MAX_CODEGEN_DEPTH + 1 - depth) <= usize::MAX,
            children@ == swift_nodes(
                node@.children.take(i as int),
                (indent + 1) as nat,
                (depth + 1) as nat,
            ),
        decreases node.children.len() - i,
    {
        let child = node_to_swiftui_inner(&node.children[i], indent + 1, depth + 1);
        children.append(child.as_str());
        proof {
            text::lemma_take_step(node@.children, i as int);
        }
        i = i + 1;
    }
    proof {
        text::lemma_take_all(node@.children);
    }
    view_swift(node, indent, children.as_str())
}

/// A node as a SwiftUI view, with all that is inside it.
pub fn node_to_swiftui(node: &PenNode, indent: usize) -> (r: String)
    requires
        indent + MAX_CODEGEN_DEPTH + 1 <= usize::MAX,
    ensures
        r@ == swift_node(node@, indent as nat, 0),
{
    node_to_swiftui_inner(node, indent, 0)
}

/// A page as a SwiftUI view.
pub fn render_page_swiftui(page: &Page, indent: usize) -> (r: String)
    requires
        indent + MAX_CODEGEN_DEPTH + 2 <= usize::MAX,
    ensures
        r@ == swift_page(page@, indent as nat),
{
    let pad = repeat("    ", indent);
    let mut nodes = String::new();
    let mut i: usize = 0;
    while i < page.nodes.len()
        invariant
            i <= page.nodes@.len(),
            indent + MAX_CODEGEN_DEPTH + 2 <= usize::MAX,
            nodes@ == swift_nodes(page@.nodes.take(i as int), (indent + 1) as nat, 0),
        decreases page.nodes.len() - i,
    {
        nodes.append(node_to_swiftui(&page.nodes[i], indent + 1).as_str());
        proof {
            text::lemma_take_step(page@.nodes, i as int);
        }
        i = i + 1;
    }
    proof {
        text::lemma_take_all(page@.nodes);
    }
    pad.clone().concat("VStack(spacing: 0) {\n").concat(nodes.as_str()).concat(
        pad.as_str(),
    ).concat("}\n")
}

// ---------------------------------------------------------------------------
// Token extensions
// ---------------------------------------------------------------------------

/// A colour constant that stands for a design token.
#[derive(Debug)]
pub struct TokenExt {
    pub swift_name: String,
    pub color_expr: String,
}

/// What a `TokenExt` holds.
#[verifier::ext_equal]
pub struct TokenExtView {
    pub swift_name: Seq<char>,
    pub color_expr: Seq<char>,
}

impl TokenExt {
    pub open spec fn view(&self) -> TokenExtView {
        TokenExtView { swift_name: self.swift_name@, color_expr: self.color_expr@ }
    }
}

pub open spec fn ext_views(s: Seq<TokenExt>) -> Seq<TokenExtView> {
    s.map_values(|e: TokenExt| e@)
}

/// Some extension bears the name.
pub open spec fn has_name(exts: Seq<TokenExtView>, name: Seq<char>) -> bool {
    exists|i: int| 0 <= i < exts.len() && (#[trigger] exts[i]).swift_name == name
}

/// The colour that a token reference stands for; only fill and stroke have one.
pub open spec fn ref_color(style: StyleView, key: Seq<char>) -> Option<Seq<char>> {
    if key == "fill"@ {
        style.fill
    } else if key == "stroke"@ {
        style.stroke
    } else {
        None
    }
}

/// The extensions after one more token reference: the first colour under a name stays.
pub open spec fn with_ref(
    style: StyleView,
    r: (Seq<char>, Seq<char>),
    exts: Seq<TokenExtView>,
) -> Seq<TokenExtView> {
    match ref_color(style, r.0) {
        Some(color) => if has_name(exts, swift_name(r.1)) {
            exts
        } else {
            exts.push(
                TokenExtView { swift_name: swift_name(r.1), color_expr: swift_color(color) },
            )
        },
        None => exts,
    }
}

pub open spec fn with_refs(
    style: StyleView,
    refs: Seq<(Seq<char>, Seq<char>)>,
    exts: Seq<TokenExtView>,
) -> Seq<TokenExtView>
    decreases refs.len(),
{
    if refs.len() == 0 {
        exts
    } else {
        with_ref(style, refs.last(), with_refs(style, refs.drop_last(), exts))
    }
}

/// The extensions after the references of a node and of all that is inside it.
pub open spec fn with_node(n: NodeView, exts: Seq<TokenExtView>) -> Seq<TokenExtView>
    decreases n,
{
    with_nodes(n.children, with_refs(n.style, n.style.refs, exts))
}

pub open spec fn with_nodes(ns: Seq<NodeView>, exts: Seq<TokenExtView>) -> Seq<TokenExtView>
    decreases ns,
{
    if ns.len() == 0 {
        exts
    } else {
        with_node(ns.last(), with_nodes(ns.drop_last(), exts))
    }
}

pub open spec fn with_pages(ps: Seq<PageView>, exts: Seq<TokenExtView>) -> Seq<TokenExtView>
    decreases ps.len(),
{
    if ps.len() == 0 {
        exts
    } else {
        with_nodes(ps.last().nodes, with_pages(ps.drop_last(), exts))
    }
}

/// No two extensions bear the same name.
pub open spec fn distinct_names(exts: Seq<TokenExtView>) -> bool {
    forall|i: int, j: int|
        0 <= i < j < exts.len() ==> (#[trigger] exts[i]).swift_name != (
        #[trigger] exts[j]).swift_name
}

/// The names stand in order.
pub open spec fn sorted_names(exts: Seq<TokenExtView>) -> bool {
    forall|i: int, j: int|
        0 <= i < j < exts.len() ==> !text::before(
            (#[trigger] exts[j]).swift_name,
            (#[trigger] exts[i]).swift_name,
        )
}

fn has_ext(exts: &Vec<TokenExt>, name: &str) -> (r: bool)
    ensures
        r == has_name(ext_views(exts@), name@),
{
    let mut i: usize = 0;
    while i < exts.len()
        invariant
            i <= exts@.len(),
            forall|k: int|
                0 <= k < i ==> (#[trigger] ext_views(exts@)[k]).swift_name != name@,
        decreases exts.len() - i,
    {
        if same(exts[i].swift_name.as_str(), name) {
            proof {
                assert(ext_views(exts@)[i as int].swift_name == name@);
            }
            return true;
        }
        i = i + 1;
    }
    false
}

fn ref_color_swift(style: &NodeStyle, key: &str) -> (r: Option<String>)
    ensures
        match ref_color(style@, key@) {
            Some(c) => r is Some && r->0@ == swift_color(c),
            None => r is None,
        },
{
    let color = if same(key, "fill") {
        &style.fill
    } else if same(key, "stroke") {
        &style.stroke
    } else {
        &None
    };
    match color {
        Some(c) => Some(swift_ui_color(c.as_str())),
        None => None,
    }
}

fn collect_refs(style: &NodeStyle, seen: &mut Vec<TokenExt>)
    ensures
        ext_views(final(seen)@) == with_refs(style@, style@.refs, ext_views(old(seen)@)),
{
    let mut i: usize = 0;
    let ghost start = ext_views(seen@);
    while i < style.design_token_refs.len()
        invariant
            i <= style.design_token_refs@.len(),
            ext_views(seen@) == with_refs(style@, style@.refs.take(i as int), start),
        decreases style.design_token_refs.len() - i,
    {
        let key = &style.design_token_refs[i].0;
        let name = replace_char(style.design_token_refs[i].1.as_str(), '.', '_');
        proof {
            text::lemma_take_step(style@.refs, i as int);
            assert(style@.refs[i as int] == (key@, style.design_token_refs@[i as int].1@));
        }
        let ghost before = ext_views(seen@);
        if !has_ext(seen, name.as_str()) {
            match ref_color_swift(style, key.as_str()) {
                Some(expr) => {
                    seen.push(TokenExt { swift_name: name, color_expr: expr });
                    proof {
                        assert(ext_views(seen@) =~= before.push(
                            TokenExtView { swift_name: name@, color_expr: expr@ },
                        ));
                    }
                },
                None => {},
            }
        }
        i = i + 1;
    }
    proof {
        text::lemma_take_all(style@.refs);
    }
}

fn collect_token_exts_from_node(node: &PenNode, seen: &mut Vec<TokenExt>)
    ensures
        ext_views(final(seen)@) == with_node(node@, ext_views(old(seen)@)),
    decreases node,
{
    collect_refs(&node.style, seen);
    let mut i: usize = 0;
    let ghost start = ext_views(seen@);
    while i < node.children.len()
        invariant
            i <= node.children@.len(),
            ext_views(seen@) == with_nodes(node@.children.take(i as int), start),
        decreases node.children.len() - i,
    {
        collect_token_exts_from_node(&node.children[i], seen);
        proof {
            text::lemma_take_step(node@.children, i as int);
        }
        i = i + 1;
    }
    proof {
        text::lemma_take_all(node@.children);
    }
}

/// Adds the extensions for the token references of the nodes and of all that is inside them.
pub fn collect_token_exts_from_nodes(nodes: &Vec<PenNode>, seen: &mut Vec<TokenExt>)
    ensures
        ext_views(final(seen)@) == with_nodes(canvas::node_views(nodes@), ext_views(old(seen)@)),
{
    let mut i: usize = 0;
    let ghost start = ext_views(seen@);
    let ghost views = canvas::node_views(nodes@);
    while i < nodes.len()
        invariant
            i <= nodes@.len(),
            views == canvas::node_views(nodes@),
            ext_views(seen@) == with_nodes(views.take(i as int), start),
        decreases nodes.len() - i,
    {
        collect_token_exts_from_node(&nodes[i], seen);
        proof {
            text::lemma_take_step(views, i as int);
        }
        i = i + 1;
    }
    proof {
        text::lemma_take_all(views);
    }
}

/// Puts an extension at its place among sorted ones.
fn insert_sorted(exts: &mut Vec<TokenExt>, ext: TokenExt)
    requires
        sorted_names(ext_views(old(exts)@)),
    ensures
        sorted_names(ext_views(final(exts)@)),
        ext_views(final(exts)@).to_multiset() == ext_views(old(exts)@).to_multiset().insert(ext@),
{
    let mut at: usize = 0;
    let ghost views = ext_views(exts@);
    while at < exts.len() && stands_before(exts[at].swift_name.as_str(), ext.swift_name.as_str())
        invariant
            at <= exts@.len(),
            views == ext_views(exts@),
            forall|k: int|
                0 <= k < at ==> text::before(
                    (#[trigger] views[k]).swift_name,
                    ext@.swift_name,
                ),
        decreases exts.len() - at,
    {
        proof {
            assert(views[at as int] == exts@[at as int]@);
        }
        at = at + 1;
    }
    exts.insert(at, ext);
    proof {
        let after = ext_views(exts@);
        assert(after =~= views.insert(at as int, ext@));
        assert forall|i: int, j: int| 0 <= i < j < after.len() implies !text::before(
            (#[trigger] after[j]).swift_name,
            (#[trigger] after[i]).swift_name,
        ) by {
            if j < at {
                assert(after[i] == views[i] && after[j] == views[j]);
            } else if j == at {
                assert(after[i] == views[i]);
                text::lemma_before_asymmetric(views[i].swift_name, ext@.swift_name);
            } else {
                assert(after[j] == views[j - 1]);
                if i < at {
                    assert(after[i] == views[i]);
                } else if i == at {
                    assert(views[at as int].swift_name == exts@[at + 1].swift_name@);
                    if j - 1 > at {
                        text::lemma_before_transitive(
                            ext@.swift_name,
                            views[at as int].swift_name,
                            views[j - 1].swift_name,
                        );
                    }
                } else {
                    assert(after[i] == views[i - 1]);
                }
            }
        }
        views.to_multiset_ensures();
        vstd::seq_lib::to_multiset_insert(views, at as int, ext@);
    }
}

/// The extensions for the token references of the pages, in the order of their names.
pub open spec fn are_extensions(exts: Seq<TokenExtView>, ps: Seq<PageView>) -> bool {
    sorted_names(exts) && exts.to_multiset() == with_pages(ps, Seq::empty()).to_multiset()
}

/// The extensions for the token references of a document, in the order of their names.
pub fn collect_token_extensions(doc: &PenDocument) -> (r: Vec<TokenExt>)
    ensures
        are_extensions(ext_views(r@), doc@.pages),
{
    let mut seen: Vec<TokenExt> = Vec::new();
    let mut i: usize = 0;
    proof {
        assert(ext_views(seen@) =~= Seq::empty());
    }
    while i < doc.pages.len()
        invariant
            i <= doc.pages@.len(),
            ext_views(seen@) == with_pages(doc@.pages.take(i as int), Seq::empty()),
        decreases doc.pages.len() - i,
    {
        collect_token_exts_from_nodes(&doc.pages[i].nodes, &mut seen);
        proof {
            text::lemma_take_step(doc@.pages, i as int);
        }
        i = i + 1;
    }
    proof {
        text::lemma_take_all(doc@.pages);
    }
    let ghost all = ext_views(seen@);
    let mut out: Vec<TokenExt> = Vec::new();
    let mut j: usize = 0;
    proof {
        assert(ext_views(out@) =~= all.take(0));
    }
    while j < seen.len()
        invariant
            j <= seen@.len(),
            all == ext_views(seen@),
            sorted_names(ext_views(out@)),
            ext_views(out@).to_multiset() == all.take(j as int).to_multiset(),
        decreases seen.len() - j,
    {
        let ext = TokenExt {
            swift_name: seen[j].swift_name.clone(),
            color_expr: seen[j].color_expr.clone(),
        };
        proof {
            text::lemma_take_step(all, j as int);
            all.take(j as int).to_multiset_ensures();
        }
        insert_sorted(&mut out, ext);
        j = j + 1;
    }
    proof {
        text::lemma_take_all(all);
    }
    out
}

/// The lines of the extensions.
pub open spec fn ext_lines(exts: Seq<TokenExtView>) -> Seq<char>
    decreases exts.len(),
{
    if exts.len() == 0 {
        Seq::empty()
    } else {
        ext_lines(exts.drop_last()) + ("        static let "@ + exts.last().swift_name + " = "@
            + exts.last().color_expr + "\n"@)
    }
}

/// The extensions as Swift source.
pub open spec fn ext_source(exts: Seq<TokenExtView>) -> Seq<char> {
    "extension Color {\n"@ + "    enum DesignTokens {\n"@ + ext_lines(exts) + "    }\n"@
        + "}\n\n"@
}

/// The extensions as Swift source.
pub fn render_token_extensions(exts: &Vec<TokenExt>) -> (r: String)
    ensures
        r@ == ext_source(ext_views(exts@)),
{
    let mut lines = String::new();
    let mut i: usize = 0;
    while i < exts.len()
        invariant
            i <= exts@.len(),
            lines@ == ext_lines(ext_views(exts@).take(i as int)),
        decreases exts.len() - i,
    {
        let line = wrap("        static let ", exts[i].swift_name.as_str(), " = ").concat(
            exts[i].color_expr.as_str(),
        ).concat("\n");
        lines.append(line.as_str());
        proof {
            text::lemma_take_step(ext_views(exts@), i as int);
        }
        i = i + 1;
    }
    proof {
        text::lemma_take_all(ext_views(exts@));
    }
    "extension Color {\n".to_owned().concat("    enum DesignTokens {\n").concat(
        lines.as_str(),
    ).concat("    }\n").concat("}\n\n")
}

// ---------------------------------------------------------------------------
// Laws
// ---------------------------------------------------------------------------

/// Whatever its kind, a node that is rendered holds what its children render as, one after the
/// other; below the depth limit a comment stands for it.
pub proof fn law_children_are_kept(n: NodeView, indent: nat, depth: nat)
    ensures
        depth <= MAX_CODEGEN_DEPTH ==> text::occurs(
            swift_node(n, indent, depth),
            text::flattened(
                n.children.map_values(|c: NodeView| swift_node(c, indent + 1, depth + 1)),
            ),
        ),
        depth > MAX_CODEGEN_DEPTH ==> swift_node(n, indent, depth) == padding(indent)
            + "/* codegen depth limit reached */\n"@,
{
    lemma_children_follow(n.children, indent + 1, depth + 1);
    if depth <= MAX_CODEGEN_DEPTH {
        lemma_children_are_inside(n, indent, depth);
    }
}

proof fn lemma_children_follow(ns: Seq<NodeView>, indent: nat, depth: nat)
    ensures
        swift_nodes(ns, indent, depth) == text::flattened(
            ns.map_values(|c: NodeView| swift_node(c, indent, depth)),
        ),
    decreases ns.len(),
{
    if ns.len() > 0 {
        lemma_children_follow(ns.drop_last(), indent, depth);
        let all = ns.map_values(|c: NodeView| swift_node(c, indent, depth));
        assert(all.drop_last() =~= ns.drop_last().map_values(
            |c: NodeView| swift_node(c, indent, depth),
        ));
    }
}

proof fn lemma_children_are_inside(n: NodeView, indent: nat, depth: nat)
    requires
        depth <= MAX_CODEGEN_DEPTH,
    ensures
        text::occurs(
            swift_node(n, indent, depth),
            swift_nodes(n.children, indent + 1, depth + 1),
        ),
{
    let inner = swift_nodes(n.children, indent + 1, depth + 1);
    let whole = swift_node(n, indent, depth);
    if n.kind == NodeKind::Group {
        let i = (padding(indent) + container(n.style.layout) + " {\n"@).len() as int;
        assert(whole.subrange(i, i + inner.len()) =~= inner);
        assert(text::occurs_at(whole, inner, i));
    } else if n.children.len() == 0 {
        assert(whole.subrange(0, 0) =~= inner);
        assert(text::occurs_at(whole, inner, 0));
    } else {
        let i = (padding(indent) + "ZStack {\n"@ + swift_leaf(n, indent)).len() as int;
        assert(whole.subrange(i, i + inner.len()) =~= inner);
        assert(text::occurs_at(whole, inner, i));
    }
}

/// A text in a Swift string literal spans no line: it holds neither line feed nor return.
pub proof fn law_literal_stays_on_its_line(s: Seq<char>, bad: char)
    requires
        bad == '\n' || bad == '\r',
    ensures
        !swift_escaped(s).contains(bad),
{
    let f = |c: char| swift_char(c);
    assert forall|c: char| !(#[trigger] f(c)).contains(bad) by {
        reveal_strlit("\\\\");
        reveal_strlit("\\\"");
        reveal_strlit("\\n");
        reveal_strlit("\\r");
        let t = swift_char(c);
        if t.contains(bad) {
            let k = choose|k: int| 0 <= k < t.len() && t[k] == bad;
            assert(t[k] == bad);
        }
    }
    text::lemma_mapped_avoids(s, f, bad);
}

/// Each token has one extension: no name occurs twice among those of a document.
pub proof fn law_names_are_distinct(ps: Seq<PageView>)
    ensures
        distinct_names(with_pages(ps, Seq::empty())),
    decreases ps.len(),
{
    if ps.len() > 0 {
        law_names_are_distinct(ps.drop_last());
        lemma_nodes_keep_distinct(ps.last().nodes, with_pages(ps.drop_last(), Seq::empty()));
    }
}

proof fn lemma_refs_keep_distinct(
    style: StyleView,
    refs: Seq<(Seq<char>, Seq<char>)>,
    exts: Seq<TokenExtView>,
)
    requires
        distinct_names(exts),
    ensures
        distinct_names(with_refs(style, refs, exts)),
    decreases refs.len(),
{
    if refs.len() > 0 {
        lemma_refs_keep_distinct(style, refs.drop_last(), exts);
    }
}

proof fn lemma_node_keeps_distinct(n: NodeView, exts: Seq<TokenExtView>)
    requires
        distinct_names(exts),
    ensures
        distinct_names(with_node(n, exts)),
    decreases n,
{
    lemma_refs_keep_distinct(n.style, n.style.refs, exts);
    lemma_nodes_keep_distinct(n.children, with_refs(n.style, n.style.refs, exts));
}

proof fn lemma_nodes_keep_distinct(ns: Seq<NodeView>, exts: Seq<TokenExtView>)
    requires
        distinct_names(exts),
    ensures
        distinct_names(with_nodes(ns, exts)),
    decreases ns,
{
    if ns.len() > 0 {
        lemma_nodes_keep_distinct(ns.drop_last(), exts);
        lemma_node_keeps_distinct(ns.last(), with_nodes(ns.drop_last(), exts));
    }
}

/// Where a reader of a Swift string literal is: in it, behind a backslash in it, or out of it,
/// because a quote or the end of the line closed it or an interpolation began.
pub enum Scan {
    Inside,
    Escaped,
    Outside,
}

pub open spec fn scan_char(at: Scan, c: char) -> Scan {
    match at {
        Scan::Inside => if c == '\\' {
            Scan::Escaped
        } else if c == '"' || c == '\n' || c == '\r' {
            Scan::Outside
        } else {
            Scan::Inside
        },
        Scan::Escaped => if c == '(' {
            Scan::Outside
        } else {
            Scan::Inside
        },
        Scan::Outside => Scan::Outside,
    }
}

/// Where a reader is that began inside a literal and has read the text.
pub open spec fn scan(s: Seq<char>) -> Scan
    decreases s.len(),
{
    if s.len() == 0 {
        Scan::Inside
    } else {
        scan_char(scan(s.drop_last()), s.last())
    }
}

/// Escaped text never leaves the string literal it stands in: it does not close it, begins no
/// interpolation in it, and does not swallow the quote that ends it.
pub proof fn law_literal_is_not_left(s: Seq<char>)
    ensures
        scan(swift_escaped(s)) is Inside,
    decreases s.len(),
{
    if s.len() > 0 {
        law_literal_is_not_left(s.drop_last());
        let front = swift_escaped(s.drop_last());
        let c = s.last();
        let back = swift_char(c);
        reveal_strlit("\\\\");
        reveal_strlit("\\\"");
        reveal_strlit("\\n");
        reveal_strlit("\\r");
        let all = front + back;
        assert(swift_escaped(s) == all);
        if back.len() == 2 {
            assert(all.drop_last().drop_last() =~= front);
            assert(all.drop_last().last() == '\\');
            assert(scan(all.drop_last()) is Escaped);
        } else {
            assert(all.drop_last() =~= front);
        }
    } else {
        assert(swift_escaped(s) =~= Seq::empty());
    }
}

} // verus!
