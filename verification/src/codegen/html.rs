//! Rendering as HTML with inline styles.

use vstd::prelude::*;
use vstd::string::*;

use crate::canvas;
use crate::canvas::{
    AlignItems, FlexDirection, FlexParams, FlexView, FlexWrap, GridParams, GridView, JustifyContent,
    LayoutMode, LayoutView, NodeKind, NodeView, Page, PageView, PenNode, TrackSizing, TrackView,
};
use crate::codegen;
use crate::codegen::{escape_attr, escape_html, px, sanitize_css_color, wrap, MAX_CODEGEN_DEPTH};
use crate::num;
use crate::text;
use crate::text::{join, or_empty, signed_number};

verus! {

// ---------------------------------------------------------------------------
// What is rendered
// ---------------------------------------------------------------------------

pub open spec fn direction_style(d: FlexDirection) -> Seq<char> {
    match d {
        FlexDirection::Row => "flex-direction:row;"@,
        FlexDirection::RowReverse => "flex-direction:row-reverse;"@,
        FlexDirection::Column => "flex-direction:column;"@,
        FlexDirection::ColumnReverse => "flex-direction:column-reverse;"@,
    }
}

pub open spec fn align_style(a: AlignItems) -> Seq<char> {
    match a {
        AlignItems::Start => "align-items:flex-start;"@,
        AlignItems::Center => "align-items:center;"@,
        AlignItems::End => "align-items:flex-end;"@,
        AlignItems::Stretch => "align-items:stretch;"@,
    }
}

pub open spec fn justify_style(j: JustifyContent) -> Seq<char> {
    match j {
        JustifyContent::Start => "justify-content:flex-start;"@,
        JustifyContent::Center => "justify-content:center;"@,
        JustifyContent::End => "justify-content:flex-end;"@,
        JustifyContent::SpaceBetween => "justify-content:space-between;"@,
        JustifyContent::SpaceAround => "justify-content:space-around;"@,
        JustifyContent::SpaceEvenly => "justify-content:space-evenly;"@,
    }
}

pub open spec fn wrap_style(w: FlexWrap) -> Seq<char> {
    match w {
        FlexWrap::NoWrap => "flex-wrap:nowrap;"@,
        FlexWrap::Wrap => "flex-wrap:wrap;"@,
    }
}

/// The declarations of a flex container.
pub open spec fn flex_style(p: FlexView) -> Seq<char> {
    "display:flex;"@ + direction_style(p.direction) + (if num::positive(p.gap.bits) {
        "gap:"@ + codegen::pixels(p.gap) + "px;"@
    } else {
        Seq::empty()
    }) + align_style(p.align_items) + justify_style(p.justify_content) + wrap_style(p.wrap) + (
    if num::positive(p.padding.top.bits) || num::positive(p.padding.right.bits) || num::positive(
        p.padding.bottom.bits,
    ) || num::positive(p.padding.left.bits) {
        "padding:"@ + codegen::pixels(p.padding.top) + "px "@ + codegen::pixels(p.padding.right)
            + "px "@ + codegen::pixels(p.padding.bottom) + "px "@ + codegen::pixels(
            p.padding.left,
        ) + "px;"@
    } else {
        Seq::empty()
    })
}

/// The size of one track.
pub open spec fn track_size(t: TrackView) -> Seq<char> {
    match t {
        TrackView::Fixed(n) => codegen::pixels(n) + "px"@,
        TrackView::Auto => "auto"@,
        TrackView::Flex(n) => n.text + "fr"@,
        TrackView::Percent(n) => n.text + "%"@,
    }
}

/// The sizes of the tracks, one after the other.
pub open spec fn track_sizes(ts: Seq<TrackView>) -> Seq<Seq<char>> {
    ts.map_values(|t: TrackView| track_size(t))
}

/// The declarations of a grid container.
pub open spec fn grid_style(g: GridView) -> Seq<char> {
    "display:grid;"@ + (if g.columns.len() > 0 {
        "grid-template-columns:"@ + text::joined(track_sizes(g.columns), " "@) + ";"@
    } else {
        Seq::empty()
    }) + (if g.rows.len() > 0 {
        "grid-template-rows:"@ + text::joined(track_sizes(g.rows), " "@) + ";"@
    } else {
        Seq::empty()
    }) + (if num::positive(g.column_gap.bits) || num::positive(g.row_gap.bits) {
        "gap:"@ + codegen::pixels(g.row_gap) + "px "@ + codegen::pixels(g.column_gap) + "px;"@
    } else {
        Seq::empty()
    })
}

/// The declarations that place a node: only a free one stands at its own coordinates.
pub open spec fn layout_style(n: NodeView) -> Seq<char> {
    match n.style.layout {
        LayoutView::Free => "position:absolute;left:"@ + codegen::pixels(n.x) + "px;top:"@
            + codegen::pixels(n.y) + "px;"@,
        LayoutView::Flex(p) => "position:relative;"@ + flex_style(p),
        LayoutView::Grid(g) => "position:relative;"@ + grid_style(g),
    }
}

/// The border of a node; without a width it is one pixel wide.
pub open spec fn border_style(n: NodeView) -> Seq<char> {
    match n.style.stroke {
        Some(stroke) => "border:"@ + (match n.style.stroke_width {
            Some(w) => codegen::pixels(w),
            None => "1"@,
        }) + "px solid "@ + codegen::safe_color(stroke) + ";"@,
        None => Seq::empty(),
    }
}

/// The inline style of a node.
pub open spec fn inline_style(n: NodeView) -> Seq<char> {
    layout_style(n) + (if num::positive(n.w.bits) {
        "width:"@ + codegen::pixels(n.w) + "px;"@
    } else {
        Seq::empty()
    }) + (if num::positive(n.h.bits) {
        "height:"@ + codegen::pixels(n.h) + "px;"@
    } else {
        Seq::empty()
    }) + (match n.style.fill {
        Some(fill) => "background:"@ + codegen::safe_color(fill) + ";"@,
        None => Seq::empty(),
    }) + border_style(n) + (match n.style.radius {
        Some(r) => "border-radius:"@ + codegen::pixels(r) + "px;"@,
        None => Seq::empty(),
    }) + (match n.style.opacity {
        Some(o) => "opacity:"@ + o.text + ";"@,
        None => Seq::empty(),
    }) + (if num::equal(n.rotation.bits, num::ZERO) {
        Seq::empty()
    } else {
        "transform:rotate("@ + n.rotation.text + "deg);"@
    }) + (if n.z_index != 0 {
        "z-index:"@ + text::signed_decimal(n.z_index as int) + ";"@
    } else {
        Seq::empty()
    }) + (match n.style.font_size {
        Some(s) => "font-size:"@ + codegen::pixels(s) + "px;"@,
        None => Seq::empty(),
    }) + (match n.style.font_family {
        Some(f) => "font-family:"@ + codegen::safe_color(f) + ";"@,
        None => Seq::empty(),
    })
}

/// The start of an element: its tag, the node's id and the style.
pub open spec fn opening(tag: Seq<char>, n: NodeView, style: Seq<char>) -> Seq<char> {
    tag + codegen::html_escaped(n.id) + "\" style=\""@ + style
}

/// A node around what its children render as.
pub open spec fn html_element(n: NodeView, children: Seq<char>) -> Seq<char> {
    let style = inline_style(n);
    let div = opening("<div data-id=\""@, n, style);
    match n.kind {
        NodeKind::Rect => if children.len() == 0 {
            div + "\"></div>\n"@
        } else {
            div + "\">"@ + children + "</div>\n"@
        },
        NodeKind::Circle => if children.len() == 0 {
            div + "border-radius:50%;"@ + "\"></div>\n"@
        } else {
            div + "border-radius:50%;"@ + "\">"@ + children + "</div>\n"@
        },
        NodeKind::Text => div + "\">"@ + codegen::html_escaped(text::text_or_empty(n.text))
            + children + "</div>\n"@,
        NodeKind::Image => if children.len() == 0 {
            opening("<img data-id=\""@, n, style) + "\" alt=\"\"/>\n"@
        } else {
            div + "\"><img style=\""@ + style + "\" alt=\"\"/>"@ + children + "</div>\n"@
        },
        NodeKind::Group => div + "\">\n"@ + children + "</div>\n"@,
    }
}

/// A node as HTML; below the depth limit a comment stands in its place.
pub open spec fn html_node(n: NodeView, depth: nat) -> Seq<char>
    decreases n,
{
    if depth > MAX_CODEGEN_DEPTH {
        "<!-- codegen depth limit reached -->\n"@
    } else {
        html_element(n, html_nodes(n.children, depth + 1))
    }
}

/// The nodes as HTML, one after the other.
pub open spec fn html_nodes(ns: Seq<NodeView>, depth: nat) -> Seq<char>
    decreases ns,
{
    if ns.len() == 0 {
        Seq::empty()
    } else {
        html_nodes(ns.drop_last(), depth) + html_node(ns.last(), depth)
    }
}

/// A page as HTML.
pub open spec fn html_page(p: PageView) -> Seq<char> {
    "<section data-page=\""@ + p.id + "\" style=\"width:"@ + codegen::pixels(p.width)
        + "px;height:"@ + codegen::pixels(p.height) + "px;position:relative;\">\n"@ + html_nodes(
        p.nodes,
        0,
    ) + "</section>\n"@
}

// ---------------------------------------------------------------------------
// Rendering
// ---------------------------------------------------------------------------

fn direction_css(d: FlexDirection) -> (r: &'static str)
    ensures
        r@ == direction_style(d),
{
    match d {
        FlexDirection::Row => "flex-direction:row;",
        FlexDirection::RowReverse => "flex-direction:row-reverse;",
        FlexDirection::Column => "flex-direction:column;",
        FlexDirection::ColumnReverse => "flex-direction:column-reverse;",
    }
}

fn align_css(a: AlignItems) -> (r: &'static str)
    ensures
        r@ == align_style(a),
{
    match a {
        AlignItems::Start => "align-items:flex-start;",
        AlignItems::Center => "align-items:center;",
        AlignItems::End => "align-items:flex-end;",
        AlignItems::Stretch => "align-items:stretch;",
    }
}

fn justify_css(j: JustifyContent) -> (r: &'static str)
    ensures
        r@ == justify_style(j),
{
    match j {
        JustifyContent::Start => "justify-content:flex-start;",
        JustifyContent::Center => "justify-content:center;",
        JustifyContent::End => "justify-content:flex-end;",
        JustifyContent::SpaceBetween => "justify-content:space-between;",
        JustifyContent::SpaceAround => "justify-content:space-around;",
        JustifyContent::SpaceEvenly => "justify-content:space-evenly;",
    }
}

fn wrap_css(w: FlexWrap) -> (r: &'static str)
    ensures
        r@ == wrap_style(w),
{
    match w {
        FlexWrap::NoWrap => "flex-wrap:nowrap;",
        FlexWrap::Wrap => "flex-wrap:wrap;",
    }
}

/// The declarations of a flex container.
pub fn flex_css(p: &FlexParams) -> (r: String)
    ensures
        r@ == flex_style(p@),
{
    let gap = if p.gap.is_positive() {
        wrap("gap:", px(&p.gap).as_str(), "px;")
    } else {
        String::new()
    };
    let padding = if p.padding.top.is_positive() || p.padding.right.is_positive()
        || p.padding.bottom.is_positive() || p.padding.left.is_positive() {
        "padding:".to_owned().concat(px(&p.padding.top).as_str()).concat("px ").concat(
            px(&p.padding.right).as_str(),
        ).concat("px ").concat(px(&p.padding.bottom).as_str()).concat("px ").concat(
            px(&p.padding.left).as_str(),
        ).concat("px;")
    } else {
        String::new()
    };
    "display:flex;".to_owned().concat(direction_css(p.direction)).concat(gap.as_str()).concat(
        align_css(p.align_items),
    ).concat(justify_css(p.justify_content)).concat(wrap_css(p.wrap)).concat(padding.as_str())
}

fn track_css(t: &TrackSizing) -> (r: String)
    ensures
        r@ == track_size(t@),
{
    match t {
        TrackSizing::Fixed(n) => px(n).concat("px"),
        TrackSizing::Auto => "auto".to_owned(),
        TrackSizing::Flex(n) => n.text.clone().concat("fr"),
        TrackSizing::Percent(n) => n.text.clone().concat("%"),
    }
}

fn tracks_css(ts: &Vec<TrackSizing>) -> (r: String)
    ensures
        r@ == text::joined(track_sizes(canvas::track_views(ts@)), " "@),
{
    let mut sizes: Vec<String> = Vec::new();
    let mut i: usize = 0;
    while i < ts.len()
        invariant
            i <= ts@.len(),
            sizes@.len() == i,
            forall|k: int| 0 <= k < i ==> (#[trigger] sizes@[k])@ == track_size(ts@[k]@),
        decreases ts.len() - i,
    {
        sizes.push(track_css(&ts[i]));
        i = i + 1;
    }
    proof {
        assert(text::texts(sizes@) =~= track_sizes(canvas::track_views(ts@)));
    }
    join(&sizes, " ")
}

/// The declarations of a grid container.
pub fn grid_css(g: &GridParams) -> (r: String)
    ensures
        r@ == grid_style(g@),
{
    let columns = if g.columns.len() > 0 {
        wrap("grid-template-columns:", tracks_css(&g.columns).as_str(), ";")
    } else {
        String::new()
    };
    let rows = if g.rows.len() > 0 {
        wrap("grid-template-rows:", tracks_css(&g.rows).as_str(), ";")
    } else {
        String::new()
    };
    let gap = if g.gap.0.is_positive() || g.gap.1.is_positive() {
        "gap:".to_owned().concat(px(&g.gap.1).as_str()).concat("px ").concat(
            px(&g.gap.0).as_str(),
        ).concat("px;")
    } else {
        String::new()
    };
    "display:grid;".to_owned().concat(columns.as_str()).concat(rows.as_str()).concat(gap.as_str())
}

fn layout_css(node: &PenNode) -> (r: String)
    ensures
        r@ == layout_style(node@),
{
    match &node.style.layout {
        LayoutMode::Free => "position:absolute;left:".to_owned().concat(
            px(&node.x).as_str(),
        ).concat("px;top:").concat(px(&node.y).as_str()).concat("px;"),
        LayoutMode::Flex(p) => "position:relative;".to_owned().concat(flex_css(p).as_str()),
        LayoutMode::Grid(g) => "position:relative;".to_owned().concat(grid_css(g).as_str()),
    }
}

fn border_css(node: &PenNode) -> (r: String)
    ensures
        r@ == border_style(node@),
{
    match &node.style.stroke {
        Some(stroke) => {
            let width = match &node.style.stroke_width {
                Some(w) => px(w),
                None => "1".to_owned(),
            };
            "border:".to_owned().concat(width.as_str()).concat("px solid ").concat(
                sanitize_css_color(stroke.as_str()).as_str(),
            ).concat(";")
        },
        None => String::new(),
    }
}

/// The inline style of a node.
pub fn format_style_inline(node: &PenNode) -> (r: String)
    ensures
        r@ == inline_style(node@),
{
    let width = if node.w.is_positive() {
        wrap("width:", px(&node.w).as_str(), "px;")
    } else {
        String::new()
    };
    let height = if node.h.is_positive() {
        wrap("height:", px(&node.h).as_str(), "px;")
    } else {
        String::new()
    };
    let fill = match &node.style.fill {
        Some(fill) => wrap("background:", sanitize_css_color(fill.as_str()).as_str(), ";"),
        None => String::new(),
    };
    let radius = match &node.style.radius {
        Some(n) => wrap("border-radius:", px(n).as_str(), "px;"),
        None => String::new(),
    };
    let opacity = match &node.style.opacity {
        Some(n) => wrap("opacity:", n.text.as_str(), ";"),
        None => String::new(),
    };
    let rotation = if node.rotation.is_zero() {
        String::new()
    } else {
        wrap("transform:rotate(", node.rotation.text.as_str(), "deg);")
    };
    let z_index = if node.z_index != 0 {
        wrap("z-index:", signed_number(node.z_index as i64).as_str(), ";")
    } else {
        String::new()
    };
    let font_size = match &node.style.font_size {
        Some(n) => wrap("font-size:", px(n).as_str(), "px;"),
        None => String::new(),
    };
    let font_family = match &node.style.font_family {
        Some(f) => wrap("font-family:", sanitize_css_color(f.as_str()).as_str(), ";"),
        None => String::new(),
    };
    layout_css(node).concat(width.as_str()).concat(height.as_str()).concat(fill.as_str()).concat(
        border_css(node).as_str(),
    ).concat(radius.as_str()).concat(opacity.as_str()).concat(rotation.as_str()).concat(
        z_index.as_str(),
    ).concat(font_size.as_str()).concat(font_family.as_str())
}

fn element_html(node: &PenNode, children: &str) -> (r: String)
    ensures
        r@ == html_element(node@, children@),
{
    let style = format_style_inline(node);
    let id = escape_attr(node.id.as_str());
    let div = "<div data-id=\"".to_owned().concat(id.as_str()).concat("\" style=\"").concat(
        style.as_str(),
    );
    match node.kind {
        NodeKind::Rect => if children.is_empty() {
            div.concat("\"></div>\n")
        } else {
            div.concat("\">").concat(children).concat("</div>\n")
        },
        NodeKind::Circle => if children.is_empty() {
            div.concat("border-radius:50%;").concat("\"></div>\n")
        } else {
            div.concat("border-radius:50%;").concat("\">").concat(children).concat("</div>\n")
        },
        NodeKind::Text => div.concat("\">").concat(
            escape_html(or_empty(&node.text).as_str()).as_str(),
        ).concat(children).concat("</div>\n"),
        NodeKind::Image => if children.is_empty() {
            "<img data-id=\"".to_owned().concat(id.as_str()).concat("\" style=\"").concat(
                style.as_str(),
            ).concat("\" alt=\"\"/>\n")
        } else {
            div.concat("\"><img style=\"").concat(style.as_str()).concat("\" alt=\"\"/>").concat(
                children,
            ).concat("</div>\n")
        },
        NodeKind::Group => div.concat("\">\n").concat(children).concat("</div>\n"),
    }
}

/// A node at a depth as HTML, with all that is inside it.
pub fn node_to_html_inner(node: &PenNode, depth: usize) -> (r: String)
    ensures
        r@ == html_node(node@, depth as nat),
    decreases node,
{
    if depth > MAX_CODEGEN_DEPTH {
        return "<!-- codegen depth limit reached -->\n".to_owned();
    }
    let mut children = String::new();
    let mut i: usize = 0;
    while i < node.children.len()
        invariant
            i <= node.children@.len(),
            depth <= MAX_CODEGEN_DEPTH,
            children@ == html_nodes(node@.children.take(i as int), (depth + 1) as nat),
        decreases node.children.len() - i,
    {
        let child = node_to_html_inner(&node.children[i], depth + 1);
        children.append(child.as_str());
        proof {
            text::lemma_take_step(node@.children, i as int);
        }
        i = i + 1;
    }
    proof {
        text::lemma_take_all(node@.children);
    }
    element_html(node, children.as_str())
}

/// A node as HTML, with all that is inside it.
pub fn node_to_html(node: &PenNode) -> (r: String)
    ensures
        r@ == html_node(node@, 0),
{
    node_to_html_inner(node, 0)
}

/// A page as HTML.
pub fn render_page_html(page: &Page) -> (r: String)
    ensures
        r@ == html_page(page@),
{
    let mut nodes = String::new();
    let mut i: usize = 0;
    while i < page.nodes.len()
        invariant
            i <= page.nodes@.len(),
            nodes@ == html_nodes(page@.nodes.take(i as int), 0),
        decreases page.nodes.len() - i,
    {
        nodes.append(node_to_html(&page.nodes[i]).as_str());
        proof {
            text::lemma_take_step(page@.nodes, i as int);
        }
        i = i + 1;
    }
    proof {
        text::lemma_take_all(page@.nodes);
    }
    "<section data-page=\"".to_owned().concat(page.id.as_str()).concat(
        "\" style=\"width:",
    ).concat(px(&page.width).as_str()).concat("px;height:").concat(
        px(&page.height).as_str(),
    ).concat("px;position:relative;\">\n").concat(nodes.as_str()).concat("</section>\n")
}

// ---------------------------------------------------------------------------
// Laws
// ---------------------------------------------------------------------------

/// Whatever its kind, a node that is rendered holds what its children render as, one after the
/// other; below the depth limit a comment stands for it.
pub proof fn law_children_are_kept(n: NodeView, depth: nat)
    ensures
        depth <= MAX_CODEGEN_DEPTH ==> text::occurs(
            html_node(n, depth),
            text::flattened(n.children.map_values(|c: NodeView| html_node(c, depth + 1))),
        ),
        depth > MAX_CODEGEN_DEPTH ==> html_node(n, depth) == "<!-- codegen depth limit reached -->\n"@,
{
    lemma_children_follow(n.children, depth + 1);
    if depth <= MAX_CODEGEN_DEPTH {
        lemma_children_are_inside(n, depth);
    }
}

proof fn lemma_children_follow(ns: Seq<NodeView>, depth: nat)
    ensures
        html_nodes(ns, depth) == text::flattened(
            ns.map_values(|c: NodeView| html_node(c, depth)),
        ),
    decreases ns.len(),
{
    if ns.len() > 0 {
        lemma_children_follow(ns.drop_last(), depth);
        let all = ns.map_values(|c: NodeView| html_node(c, depth));
        assert(all.drop_last() =~= ns.drop_last().map_values(
            |c: NodeView| html_node(c, depth),
        ));
    }
}

proof fn lemma_children_are_inside(n: NodeView, depth: nat)
    requires
        depth <= MAX_CODEGEN_DEPTH,
    ensures
        text::occurs(html_node(n, depth), html_nodes(n.children, depth + 1)),
{
    let inner = html_nodes(n.children, depth + 1);
    let whole = html_node(n, depth);
    if inner.len() == 0 {
        assert(whole.subrange(0, 0) =~= inner);
        assert(text::occurs_at(whole, inner, 0));
    } else {
        let end = "</div>\n"@;
        let i = whole.len() - end.len() - inner.len();
        assert(whole.subrange(i, i + inner.len()) =~= inner);
        assert(text::occurs_at(whole, inner, i));
    }
}

} // verus!
