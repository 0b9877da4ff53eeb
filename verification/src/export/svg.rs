//! Rendering as SVG, and as an HTML page around it.

use vstd::prelude::*;
use vstd::string::*;

use crate::codegen::wrap;
use crate::export;
use crate::export::util;
use crate::export::util::{sanitize_image_url, xml_escape};
use crate::export::{CanvasElement, CanvasPage, CanvasView, ElementView};
use crate::num;
use crate::num::NumView;
use crate::text;
use crate::text::same;

verus! {

pub open spec fn paint_or_none(color: Option<Seq<char>>) -> Seq<char> {
    match color {
        Some(c) => util::xml_escaped(c),
        None => util::xml_escaped("none"@),
    }
}

/// An attribute with a number, where there is one.
pub open spec fn number_attr(before: Seq<char>, n: Option<NumView>, after: Seq<char>) -> Seq<char> {
    match n {
        Some(n) => before + n.text + after,
        None => Seq::empty(),
    }
}

pub open spec fn corner_attr(e: ElementView) -> Seq<char> {
    match e.radius {
        Some(r) => "rx=\""@ + r.text + "\" ry=\""@ + r.text + "\""@,
        None => Seq::empty(),
    }
}

/// The rotation around the middle of the element.
pub open spec fn turn(e: ElementView, angle: NumView) -> Seq<char> {
    "transform=\"rotate("@ + angle.text + " "@ + e.center_x.text + " "@ + e.center_y.text + ")\""@
}

pub open spec fn turn_attr(e: ElementView) -> Seq<char> {
    match e.rotation {
        Some(r) => turn(e, r),
        None => Seq::empty(),
    }
}

/// The attributes that all shapes share.
pub open spec fn paint_attrs(e: ElementView) -> Seq<char> {
    "fill=\""@ + paint_or_none(e.fill) + "\" stroke=\""@ + paint_or_none(e.stroke) + "\" "@
        + number_attr("stroke-width=\""@, e.stroke_width, "\""@) + " "@ + corner_attr(e) + " "@
        + number_attr("opacity=\""@, e.opacity, "\""@) + " "@ + turn_attr(e)
}

pub open spec fn family_attr(e: ElementView) -> Seq<char> {
    match e.font_family {
        Some(f) => "font-family=\""@ + util::xml_escaped(f) + "\""@,
        None => Seq::empty(),
    }
}

/// The rotation of a text; none where the angle is zero.
pub open spec fn text_turn_attr(e: ElementView) -> Seq<char> {
    match e.rotation {
        Some(r) => if num::equal(r.bits, num::ZERO) {
            Seq::empty()
        } else {
            turn(e, r)
        },
        None => Seq::empty(),
    }
}

/// One element as SVG.
pub open spec fn svg_element(e: ElementView) -> Seq<char> {
    if e.kind == "rect"@ {
        "<rect x=\""@ + e.x.text + "\" y=\""@ + e.y.text + "\" width=\""@ + e.w.text
            + "\" height=\""@ + e.h.text + "\" "@ + paint_attrs(e) + "/>\n"@
    } else if e.kind == "circle"@ {
        "<circle cx=\""@ + e.center_x.text + "\" cy=\""@ + e.center_y.text + "\" r=\""@
            + e.half_side.text + "\" "@ + paint_attrs(e) + "/>\n"@
    } else if e.kind == "text"@ {
        "<text x=\""@ + e.x.text + "\" y=\""@ + e.y.text + "\" fill=\""@ + paint_or_none(e.fill)
            + "\" "@ + number_attr("font-size=\""@, e.font_size, "px\""@) + " "@ + family_attr(e)
            + " "@ + text_turn_attr(e) + ">"@ + util::xml_escaped(text::text_or_empty(e.text))
            + "</text>\n"@
    } else if e.kind == "image"@ {
        "<image x=\""@ + e.x.text + "\" y=\""@ + e.y.text + "\" width=\""@ + e.w.text
            + "\" height=\""@ + e.h.text + "\" href=\""@ + util::xml_escaped(
            util::image_url(text::text_or_empty(e.text)),
        ) + "\" "@ + paint_attrs(e) + "/>\n"@
    } else if e.kind == "group"@ {
        "<!-- group -->\n"@
    } else {
        "<!-- 未知元素类型 "@ + util::xml_escaped(e.kind) + " -->\n"@
    }
}

/// The elements as SVG, one after the other.
pub open spec fn svg_elements(es: Seq<ElementView>) -> Seq<char>
    decreases es.len(),
{
    if es.len() == 0 {
        Seq::empty()
    } else {
        svg_elements(es.drop_last()) + svg_element(es.last())
    }
}

/// A page as SVG.
pub open spec fn svg_page(p: CanvasView) -> Seq<char> {
    "<svg xmlns=\"http://www.w3.org/2000/svg\" width=\""@ + p.width.text + "\" height=\""@
        + p.height.text + "\" viewBox=\"0 0 "@ + p.width.text + " "@ + p.height.text + "\">\n"@
        + svg_elements(p.elements) + "</svg>"@
}

/// A page as HTML around the SVG.
pub open spec fn html_page(p: CanvasView) -> Seq<char> {
    "<!DOCTYPE html>\n<html><head><meta charset=\"utf-8\"><title>"@ + util::xml_escaped(p.name)
        + "</title><style>body{margin:0;display:flex;justify-content:center;align-items:center;min-height:100vh;background:#f5f5f5;}</style></head>\n<body>"@
        + svg_page(p) + "</body></html>"@
}

// ---------------------------------------------------------------------------
// Rendering
// ---------------------------------------------------------------------------

fn paint(color: &Option<String>) -> (r: String)
    ensures
        r@ == paint_or_none(text::opt_text(*color)),
{
    match color {
        Some(c) => xml_escape(c.as_str()),
        None => xml_escape("none"),
    }
}

fn attr(before: &str, n: &Option<num::Num>, after: &str) -> (r: String)
    ensures
        r@ == number_attr(before@, crate::canvas::opt_num(*n), after@),
{
    match n {
        Some(n) => wrap(before, n.text.as_str(), after),
        None => String::new(),
    }
}

fn turned(el: &CanvasElement, angle: &num::Num) -> (r: String)
    ensures
        r@ == turn(el@, angle@),
{
    wrap("transform=\"rotate(", angle.text.as_str(), " ").concat(el.center_x.text.as_str()).concat(
        " ",
    ).concat(el.center_y.text.as_str()).concat(")\"")
}

fn shared_attrs(el: &CanvasElement) -> (r: String)
    ensures
        r@ == paint_attrs(el@),
{
    let fill = paint(&el.fill);
    let stroke = paint(&el.stroke);
    let sw = attr("stroke-width=\"", &el.stroke_width, "\"");
    let rx = match &el.radius {
        Some(r) => wrap("rx=\"", r.text.as_str(), "\" ry=\"").concat(r.text.as_str()).concat("\""),
        None => String::new(),
    };
    let opacity = attr("opacity=\"", &el.opacity, "\"");
    let transform = match &el.rotation {
        Some(r) => turned(el, r),
        None => String::new(),
    };
    wrap("fill=\"", fill.as_str(), "\" stroke=\"").concat(stroke.as_str()).concat("\" ").concat(
        sw.as_str(),
    ).concat(" ").concat(rx.as_str()).concat(" ").concat(opacity.as_str()).concat(" ").concat(
        transform.as_str(),
    )
}

fn text_of(el: &CanvasElement) -> (r: String)
    ensures
        r@ == text::text_or_empty(el@.text),
{
    match &el.text {
        Some(t) => t.clone(),
        None => String::new(),
    }
}

fn text_element(el: &CanvasElement) -> (r: String)
    requires
        el@.kind == "text"@,
    ensures
        r@ == svg_element(el@),
{
    let fill = paint(&el.fill);
    let size = attr("font-size=\"", &el.font_size, "px\"");
    let family = match &el.font_family {
        Some(f) => wrap("font-family=\"", xml_escape(f.as_str()).as_str(), "\""),
        None => String::new(),
    };
    let transform = match &el.rotation {
        Some(r) => if r.is_zero() {
            String::new()
        } else {
            turned(el, r)
        },
        None => String::new(),
    };
    let content = xml_escape(text_of(el).as_str());
    proof {
        reveal_strlit("text");
        reveal_strlit("rect");
        reveal_strlit("circle");
        assert("text"@[0] != "rect"@[0]);
        assert("text"@[0] != "circle"@[0]);
    }
    wrap("<text x=\"", el.x.text.as_str(), "\" y=\"").concat(el.y.text.as_str()).concat(
        "\" fill=\"",
    ).concat(fill.as_str()).concat("\" ").concat(size.as_str()).concat(" ").concat(
        family.as_str(),
    ).concat(" ").concat(transform.as_str()).concat(">").concat(content.as_str()).concat(
        "</text>\n",
    )
}

/// One element as SVG; a kind that is not known leaves a comment.
pub fn render_element_svg(el: &CanvasElement) -> (r: String)
    ensures
        r@ == svg_element(el@),
{
    let attrs = shared_attrs(el);
    let kind = el.kind.as_str();
    if same(kind, "rect") {
        wrap("<rect x=\"", el.x.text.as_str(), "\" y=\"").concat(el.y.text.as_str()).concat(
            "\" width=\"",
        ).concat(el.w.text.as_str()).concat("\" height=\"").concat(el.h.text.as_str()).concat(
            "\" ",
        ).concat(attrs.as_str()).concat("/>\n")
    } else if same(kind, "circle") {
        wrap("<circle cx=\"", el.center_x.text.as_str(), "\" cy=\"").concat(
            el.center_y.text.as_str(),
        ).concat("\" r=\"").concat(el.half_side.text.as_str()).concat("\" ").concat(
            attrs.as_str(),
        ).concat("/>\n")
    } else if same(kind, "text") {
        text_element(el)
    } else if same(kind, "image") {
        let href = xml_escape(sanitize_image_url(text_of(el).as_str()).as_str());
        wrap("<image x=\"", el.x.text.as_str(), "\" y=\"").concat(el.y.text.as_str()).concat(
            "\" width=\"",
        ).concat(el.w.text.as_str()).concat("\" height=\"").concat(el.h.text.as_str()).concat(
            "\" href=\"",
        ).concat(href.as_str()).concat("\" ").concat(attrs.as_str()).concat("/>\n")
    } else if same(kind, "group") {
        "<!-- group -->\n".to_owned()
    } else {
        wrap("<!-- 未知元素类型 ", xml_escape(kind).as_str(), " -->\n")
    }
}

/// A page as SVG.
pub fn render_svg(page: &CanvasPage) -> (r: String)
    ensures
        r@ == svg_page(page@),
{
    let ghost views = page@.elements;
    let mut body = String::new();
    let mut i: usize = 0;
    while i < page.elements.len()
        invariant
            i <= page.elements@.len(),
            views == export::element_views(page.elements@),
            body@ == svg_elements(views.take(i as int)),
        decreases page.elements.len() - i,
    {
        proof {
            text::lemma_take_step(views, i as int);
        }
        body.append(render_element_svg(&page.elements[i]).as_str());
        i = i + 1;
    }
    proof {
        text::lemma_take_all(views);
    }
    let width = page.width.text.as_str();
    let height = page.height.text.as_str();
    wrap("<svg xmlns=\"http://www.w3.org/2000/svg\" width=\"", width, "\" height=\"").concat(
        height,
    ).concat("\" viewBox=\"0 0 ").concat(width).concat(" ").concat(height).concat("\">\n").concat(
        body.as_str(),
    ).concat("</svg>")
}

/// A page as HTML around the SVG.
pub fn render_html(page: &CanvasPage) -> (r: String)
    ensures
        r@ == html_page(page@),
{
    let svg = render_svg(page);
    let name = xml_escape(page.name.as_str());
    wrap(
        "<!DOCTYPE html>\n<html><head><meta charset=\"utf-8\"><title>",
        name.as_str(),
        "</title><style>body{margin:0;display:flex;justify-content:center;align-items:center;min-height:100vh;background:#f5f5f5;}</style></head>\n<body>",
    ).concat(svg.as_str()).concat("</body></html>")
}

} // verus!
