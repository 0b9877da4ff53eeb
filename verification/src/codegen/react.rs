//! Rendering as React elements with Tailwind classes.

use vstd::prelude::*;
use vstd::string::*;

use crate::canvas::{
    AlignItems, FlexDirection, FlexParams, FlexView, FlexWrap, JustifyContent, LayoutMode,
    LayoutView, NodeKind, NodeView, Page, PageView, PenNode,
};
use crate::codegen;
use crate::codegen::{escape_attr, escape_html, px, sanitize_css_color, wrap, MAX_CODEGEN_DEPTH};
use crate::num;
use crate::text;
use crate::text::{join, or_empty, signed_number};

verus! {

// ---------------------------------------------------------------------------
// What is rendered
// ---------------------------------------------------------------------------

/// The class, where the condition holds.
pub open spec fn class_if(c: bool, class: Seq<char>) -> Seq<Seq<char>> {
    if c {
        seq![class]
    } else {
        Seq::empty()
    }
}

pub open spec fn direction_class(d: FlexDirection) -> Seq<char> {
    match d {
        FlexDirection::Row => "flex-row"@,
        FlexDirection::RowReverse => "flex-row-reverse"@,
        FlexDirection::Column => "flex-col"@,
        FlexDirection::ColumnReverse => "flex-col-reverse"@,
    }
}

pub open spec fn align_class(a: AlignItems) -> Seq<char> {
    match a {
        AlignItems::Start => "items-start"@,
        AlignItems::Center => "items-center"@,
        AlignItems::End => "items-end"@,
        AlignItems::Stretch => "items-stretch"@,
    }
}

pub open spec fn justify_class(j: JustifyContent) -> Seq<char> {
    match j {
        JustifyContent::Start => "justify-start"@,
        JustifyContent::Center => "justify-center"@,
        JustifyContent::End => "justify-end"@,
        JustifyContent::SpaceBetween => "justify-between"@,
        JustifyContent::SpaceAround => "justify-around"@,
        JustifyContent::SpaceEvenly => "justify-evenly"@,
    }
}

pub open spec fn wrap_class(w: FlexWrap) -> Seq<char> {
    match w {
        FlexWrap::NoWrap => "flex-nowrap"@,
        FlexWrap::Wrap => "flex-wrap"@,
    }
}

/// The classes of a flex container.
pub open spec fn flex_classes(p: FlexView) -> Seq<Seq<char>> {
    seq!["relative"@, "flex"@, direction_class(p.direction)] + class_if(
        num::positive(p.gap.bits),
        "gap-["@ + codegen::pixels(p.gap) + "px]"@,
    ) + seq![align_class(p.align_items), justify_class(p.justify_content), wrap_class(p.wrap)]
}

/// The classes that place a node: only a free one stands at its own coordinates.
pub open spec fn layout_classes(n: NodeView) -> Seq<Seq<char>> {
    match n.style.layout {
        LayoutView::Free => seq![
            "absolute"@,
            "left-["@ + codegen::pixels(n.x) + "px]"@,
            "top-["@ + codegen::pixels(n.y) + "px]"@,
        ],
        LayoutView::Flex(p) => flex_classes(p),
        LayoutView::Grid(g) => seq!["relative"@, "grid"@],
    }
}

/// The classes of a border; without a width it is one pixel wide.
pub open spec fn border_classes(n: NodeView) -> Seq<Seq<char>> {
    match n.style.stroke {
        Some(stroke) => seq![
            "border-["@ + (match n.style.stroke_width {
                Some(w) => codegen::pixels(w),
                None => "1"@,
            }) + "px]"@,
            "border-["@ + codegen::safe_color(stroke) + "]"@,
        ],
        None => Seq::empty(),
    }
}

/// The classes of a node.
pub open spec fn classes(n: NodeView) -> Seq<Seq<char>> {
    layout_classes(n) + class_if(
        num::positive(n.w.bits),
        "w-["@ + codegen::pixels(n.w) + "px]"@,
    ) + class_if(num::positive(n.h.bits), "h-["@ + codegen::pixels(n.h) + "px]"@) + (
    match n.style.fill {
        Some(fill) => seq!["bg-["@ + codegen::safe_color(fill) + "]"@],
        None => Seq::empty(),
    }) + border_classes(n) + (match n.style.radius {
        Some(r) => seq!["rounded-["@ + codegen::pixels(r) + "px]"@],
        None => Seq::empty(),
    }) + (match n.style.opacity {
        Some(o) => seq!["opacity-["@ + o.text + "]"@],
        None => Seq::empty(),
    }) + class_if(
        !num::equal(n.rotation.bits, num::ZERO),
        "rotate-["@ + n.rotation.text + "deg]"@,
    ) + class_if(n.z_index != 0, "z-["@ + text::signed_decimal(n.z_index as int) + "]"@) + (
    match n.style.font_size {
        Some(s) => seq!["text-["@ + codegen::pixels(s) + "px]"@],
        None => Seq::empty(),
    }) + (match n.style.font_family {
        Some(f) => seq!["font-["@ + codegen::safe_color(f) + "]"@],
        None => Seq::empty(),
    })
}

/// The classes of a node, as one attribute.
pub open spec fn tailwind(n: NodeView) -> Seq<char> {
    text::joined(classes(n), " "@)
}

/// The start of an element: its tag, the classes and the node's id.
pub open spec fn opening(tag: Seq<char>, classes: Seq<char>, id: Seq<char>) -> Seq<char> {
    tag + classes + "\" data-id=\""@ + codegen::html_escaped(id)
}

/// A node around what its children render as.
pub open spec fn react_element(n: NodeView, children: Seq<char>) -> Seq<char> {
    let div = opening("      <div className=\""@, tailwind(n), n.id);
    let round = opening("      <div className=\""@, tailwind(n) + " rounded-full"@, n.id);
    match n.kind {
        NodeKind::Rect => if children.len() == 0 {
            div + "\"/>\n"@
        } else {
            div + "\">\n"@ + children + "</div>\n"@
        },
        NodeKind::Circle => if children.len() == 0 {
            round + "\"/>\n"@
        } else {
            round + "\">\n"@ + children + "</div>\n"@
        },
        NodeKind::Text => div + "\">"@ + codegen::html_escaped(text::text_or_empty(n.text))
            + children + "</div>\n"@,
        NodeKind::Image => if children.len() == 0 {
            opening("      <img className=\""@, tailwind(n), n.id) + "\" alt=\"\"/>\n"@
        } else {
            div + "\"><img alt=\"\"/>"@ + children + "</div>\n"@
        },
        NodeKind::Group => div + "\">\n"@ + children + "      </div>\n"@,
    }
}

/// A node as a React element; below the depth limit a comment stands in its place.
pub open spec fn react_node(n: NodeView, depth: nat) -> Seq<char>
    decreases n,
{
    if depth > MAX_CODEGEN_DEPTH {
        "{/* codegen depth limit reached */}\n"@
    } else {
        react_element(n, react_nodes(n.children, depth + 1))
    }
}

/// The nodes as React elements, one after the other.
pub open spec fn react_nodes(ns: Seq<NodeView>, depth: nat) -> Seq<char>
    decreases ns,
{
    if ns.len() == 0 {
        Seq::empty()
    } else {
        react_nodes(ns.drop_last(), depth) + react_node(ns.last(), depth)
    }
}

/// A page as React elements.
pub open spec fn react_page(p: PageView) -> Seq<char> {
    "      {/* page: "@ + p.id + " */}\n"@ + react_nodes(p.nodes, 0)
}

// ---------------------------------------------------------------------------
// Rendering
// ---------------------------------------------------------------------------

fn when(c: bool, class: String) -> (r: Vec<String>)
    ensures
        text::texts(r@) == class_if(c, class@),
{
    let mut out: Vec<String> = Vec::new();
    if c {
        out.push(class);
    }
    proof {
        assert(text::texts(out@) =~= class_if(c, class@));
    }
    out
}

fn extend(all: &mut Vec<String>, more: Vec<String>)
    ensures
        text::texts(final(all)@) == text::texts(old(all)@) + text::texts(more@),
{
    let mut rest = more;
    all.append(&mut rest);
    proof {
        assert(text::texts(all@) =~= text::texts(old(all)@) + text::texts(more@));
    }
}

fn direction_name(d: FlexDirection) -> (r: &'static str)
    ensures
        r@ == direction_class(d),
{
    match d {
        FlexDirection::Row => "flex-row",
        FlexDirection::RowReverse => "flex-row-reverse",
        FlexDirection::Column => "flex-col",
        FlexDirection::ColumnReverse => "flex-col-reverse",
    }
}

fn align_name(a: AlignItems) -> (r: &'static str)
    ensures
        r@ == align_class(a),
{
    match a {
        AlignItems::Start => "items-start",
        AlignItems::Center => "items-center",
        AlignItems::End => "items-end",
        AlignItems::Stretch => "items-stretch",
    }
}

fn justify_name(j: JustifyContent) -> (r: &'static str)
    ensures
        r@ == justify_class(j),
{
    match j {
        JustifyContent::Start => "justify-start",
        JustifyContent::Center => "justify-center",
        JustifyContent::End => "justify-end",
        JustifyContent::SpaceBetween => "justify-between",
        JustifyContent::SpaceAround => "justify-around",
        JustifyContent::SpaceEvenly => "justify-evenly",
    }
}

fn wrap_name(w: FlexWrap) -> (r: &'static str)
    ensures
        r@ == wrap_class(w),
{
    match w {
        FlexWrap::NoWrap => "flex-nowrap",
        FlexWrap::Wrap => "flex-wrap",
    }
}

fn flex_tailwind(p: &FlexParams) -> (r: Vec<String>)
    ensures
        text::texts(r@) == flex_classes(p@),
{
    let mut out: Vec<String> = vec![
        "relative".to_owned(),
        "flex".to_owned(),
        direction_name(p.direction).to_owned(),
    ];
    proof {
        assert(text::texts(out@) =~= seq!["relative"@, "flex"@, direction_class(p.direction)]);
    }
    extend(&mut out, when(p.gap.is_positive(), wrap("gap-[", px(&p.gap).as_str(), "px]")));
    let rest: Vec<String> = vec![
        align_name(p.align_items).to_owned(),
        justify_name(p.justify_content).to_owned(),
        wrap_name(p.wrap).to_owned(),
    ];
    proof {
        assert(text::texts(rest@) =~= seq![
            align_class(p.align_items),
            justify_class(p.justify_content),
            wrap_class(p.wrap),
        ]);
    }
    extend(&mut out, rest);
    out
}

fn layout_tailwind(node: &PenNode) -> (r: Vec<String>)
    ensures
        text::texts(r@) == layout_classes(node@),
{
    let out: Vec<String> = match &node.style.layout {
        LayoutMode::Free => vec![
            "absolute".to_owned(),
            wrap("left-[", px(&node.x).as_str(), "px]"),
            wrap("top-[", px(&node.y).as_str(), "px]"),
        ],
        LayoutMode::Flex(p) => flex_tailwind(p),
        LayoutMode::Grid(_) => vec!["relative".to_owned(), "grid".to_owned()],
    };
    proof {
        assert(text::texts(out@) =~= layout_classes(node@));
    }
    out
}

fn border_tailwind(node: &PenNode) -> (r: Vec<String>)
    ensures
        text::texts(r@) == border_classes(node@),
{
    let out: Vec<String> = match &node.style.stroke {
        Some(stroke) => {
            let width = match &node.style.stroke_width {
                Some(w) => px(w),
                None => "1".to_owned(),
            };
            vec![
                wrap("border-[", width.as_str(), "px]"),
                wrap("border-[", sanitize_css_color(stroke.as_str()).as_str(), "]"),
            ]
        },
        None => Vec::new(),
    };
    proof {
        assert(text::texts(out@) =~= border_classes(node@));
    }
    out
}

/// The classes of a node, as one attribute.
pub fn node_to_tailwind(node: &PenNode) -> (r: String)
    ensures
        r@ == tailwind(node@),
{
    let mut all = layout_tailwind(node);
    extend(&mut all, when(node.w.is_positive(), wrap("w-[", px(&node.w).as_str(), "px]")));
    extend(&mut all, when(node.h.is_positive(), wrap("h-[", px(&node.h).as_str(), "px]")));
    extend(
        &mut all,
        match &node.style.fill {
            Some(fill) => when(true, wrap("bg-[", sanitize_css_color(fill.as_str()).as_str(), "]")),
            None => when(false, String::new()),
        },
    );
    extend(&mut all, border_tailwind(node));
    extend(
        &mut all,
        match &node.style.radius {
            Some(n) => when(true, wrap("rounded-[", px(n).as_str(), "px]")),
            None => when(false, String::new()),
        },
    );
    extend(
        &mut all,
        match &node.style.opacity {
            Some(n) => when(true, wrap("opacity-[", n.text.as_str(), "]")),
            None => when(false, String::new()),
        },
    );
    extend(
        &mut all,
        when(!node.rotation.is_zero(), wrap("rotate-[", node.rotation.text.as_str(), "deg]")),
    );
    extend(
        &mut all,
        when(node.z_index != 0, wrap("z-[", signed_number(node.z_index as i64).as_str(), "]")),
    );
    extend(
        &mut all,
        match &node.style.font_size {
            Some(n) => when(true, wrap("text-[", px(n).as_str(), "px]")),
            None => when(false, String::new()),
        },
    );
    extend(
        &mut all,
        match &node.style.font_family {
            Some(f) => when(true, wrap("font-[", sanitize_css_color(f.as_str()).as_str(), "]")),
            None => when(false, String::new()),
        },
    );
    join(&all, " ")
}

fn opening_tag(tag: &str, classes: &str, id: &str) -> (r: String)
    ensures
        r@ == opening(tag@, classes@, id@),
{
    tag.to_owned().concat(classes).concat("\" data-id=\"").concat(escape_attr(id).as_str())
}

fn element_react(node: &PenNode, children: &str) -> (r: String)
    ensures
        r@ == react_element(node@, children@),
{
    let class = node_to_tailwind(node);
    let id = node.id.as_str();
    let div = opening_tag("      <div className=\"", class.as_str(), id);
    match node.kind {
        NodeKind::Rect => if children.is_empty() {
            div.concat("\"/>\n")
        } else {
            div.concat("\">\n").concat(children).concat("</div>\n")
        },
        NodeKind::Circle => {
            let round = opening_tag(
                "      <div className=\"",
                class.concat(" rounded-full").as_str(),
                id,
            );
            if children.is_empty() {
                round.concat("\"/>\n")
            } else {
                round.concat("\">\n").concat(children).concat("</div>\n")
            }
        },
        NodeKind::Text => div.concat("\">").concat(
            escape_html(or_empty(&node.text).as_str()).as_str(),
        ).concat(children).concat("</div>\n"),
        NodeKind::Image => if children.is_empty() {
            opening_tag("      <img className=\"", class.as_str(), id).concat("\" alt=\"\"/>\n")
        } else {
            div.concat("\"><img alt=\"\"/>").concat(children).concat("</div>\n")
        },
        NodeKind::Group => div.concat("\">\n").concat(children).concat("      </div>\n"),
    }
}

/// A node at a depth as a React element, with all that is inside it.
pub fn node_to_react_inner(node: &PenNode, depth: usize) -> (r: String)
    ensures
        r@ == react_node(node@, depth as nat),
        depth <= MAX_CODEGEN_DEPTH ==> text::occurs(
            r@,
            text::flattened(
                node@.children.map_values(|c: NodeView| react_node(c, (depth + 1) as nat)),
            ),
        ),
        depth > MAX_CODEGEN_DEPTH ==> r@ == "{/* codegen depth limit reached */}\n"@,
    decreases node,
{
    if depth > MAX_CODEGEN_DEPTH {
        return "{/* codegen depth limit reached */}\n".to_owned();
    }
    let mut children = String::new();
    let mut i: usize = 0;
    while i < node.children.len()
        invariant
            i <= node.children@.len(),
            depth <= MAX_CODEGEN_DEPTH,
            children@ == react_nodes(node@.children.take(i as int), (depth + 1) as nat),
        decreases node.children.len() - i,
    {
        let child = node_to_react_inner(&node.children[i], depth + 1);
        children.append(child.as_str());
        proof {
            text::lemma_take_step(node@.children, i as int);
        }
        i = i + 1;
    }
    proof {
        text::lemma_take_all(node@.children);
        law_children_are_kept(node@, depth as nat);
    }
    element_react(node, children.as_str())
}

/// A node as a React element, with all that is inside it.
pub fn node_to_react(node: &PenNode) -> (r: String)
    ensures
        r@ == react_node(node@, 0),
{
    node_to_react_inner(node, 0)
}

/// A page as React elements.
pub fn render_page_react(page: &Page) -> (r: String)
    ensures
        r@ == react_page(page@),
{
    let mut nodes = String::new();
    let mut i: usize = 0;
    while i < page.nodes.len()
        invariant
            i <= page.nodes@.len(),
            nodes@ == react_nodes(page@.nodes.take(i as int), 0),
        decreases page.nodes.len() - i,
    {
        nodes.append(node_to_react(&page.nodes[i]).as_str());
        proof {
            text::lemma_take_step(page@.nodes, i as int);
        }
        i = i + 1;
    }
    proof {
        text::lemma_take_all(page@.nodes);
    }
    wrap("      {/* page: ", page.id.as_str(), " */}\n").concat(nodes.as_str())
}

// ---------------------------------------------------------------------------
// Laws
// ---------------------------------------------------------------------------

/// Whatever its kind, a node that is rendered holds what its children render as, one after the
/// other; below the depth limit a comment stands for it.
pub proof fn law_children_are_kept(n: NodeView, depth: nat)
    ensures
        depth <= MAX_CODEGEN_DEPTH ==> text::occurs(
            react_node(n, depth),
            text::flattened(n.children.map_values(|c: NodeView| react_node(c, depth + 1))),
        ),
        depth > MAX_CODEGEN_DEPTH ==> react_node(n, depth) == "{/* codegen depth limit reached */}\n"@,
{
    lemma_children_follow(n.children, depth + 1);
    if depth <= MAX_CODEGEN_DEPTH {
        lemma_children_are_inside(n, depth);
    }
}

proof fn lemma_children_follow(ns: Seq<NodeView>, depth: nat)
    ensures
        react_nodes(ns, depth) == text::flattened(
            ns.map_values(|c: NodeView| react_node(c, depth)),
        ),
    decreases ns.len(),
{
    if ns.len() > 0 {
        lemma_children_follow(ns.drop_last(), depth);
        let all = ns.map_values(|c: NodeView| react_node(c, depth));
        assert(all.drop_last() =~= ns.drop_last().map_values(
            |c: NodeView| react_node(c, depth),
        ));
    }
}

proof fn lemma_children_are_inside(n: NodeView, depth: nat)
    requires
        depth <= MAX_CODEGEN_DEPTH,
    ensures
        text::occurs(react_node(n, depth), react_nodes(n.children, depth + 1)),
{
    let inner = react_nodes(n.children, depth + 1);
    let whole = react_node(n, depth);
    if inner.len() == 0 {
        assert(whole.subrange(0, 0) =~= inner);
        assert(text::occurs_at(whole, inner, 0));
    } else {
        let end = if n.kind == NodeKind::Group {
            "      </div>\n"@
        } else {
            "</div>\n"@
        };
        let i = whole.len() - end.len() - inner.len();
        assert(whole.subrange(i, i + inner.len()) =~= inner);
        assert(text::occurs_at(whole, inner, i));
    }
}

} // verus!
