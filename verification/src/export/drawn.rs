//! What the elements of an SVG say, read back.

use vstd::prelude::*;

use crate::export::svg;
use crate::export::util;
use crate::export::{CanvasView, ElementView};
use crate::markup;
use crate::num;
use crate::num::NumView;
use crate::text;

verus! {

spec fn own(p: Seq<char>, v: Option<Seq<char>>, name: Seq<char>) -> Seq<Seq<char>> {
    match v {
        Some(v) => if p == name {
            seq![v]
        } else {
            Seq::empty()
        },
        None => Seq::empty(),
    }
}

proof fn lemma_names()
    ensures
        "x"@.len() == 1,
        "y"@.len() == 1,
        "r"@.len() == 1,
        "cx"@.len() == 2,
        "cy"@.len() == 2,
        "rx"@.len() == 2,
        "ry"@.len() == 2,
        "href"@.len() == 4,
        "fill"@.len() == 4,
        "width"@.len() == 5,
        "height"@.len() == 6,
        "stroke"@.len() == 6,
        "opacity"@.len() == 7,
        "transform"@.len() == 9,
        "font-size"@.len() == 9,
        "font-family"@.len() == 11,
        "stroke-width"@.len() == 12,
        "x"@ != "y"@,
        "x"@ != "r"@,
        "y"@ != "r"@,
        "cx"@ != "cy"@,
        "cx"@ != "rx"@,
        "cx"@ != "ry"@,
        "cy"@ != "rx"@,
        "cy"@ != "ry"@,
        "rx"@ != "ry"@,
        "href"@ != "fill"@,
        "height"@ != "stroke"@,
        "transform"@ != "font-size"@,
        !"x"@.contains('"') && !"x"@.contains(' '),
        !"y"@.contains('"') && !"y"@.contains(' '),
        !"r"@.contains('"') && !"r"@.contains(' '),
        !"cx"@.contains('"') && !"cx"@.contains(' '),
        !"cy"@.contains('"') && !"cy"@.contains(' '),
        !"rx"@.contains('"') && !"rx"@.contains(' '),
        !"ry"@.contains('"') && !"ry"@.contains(' '),
        !"href"@.contains('"') && !"href"@.contains(' '),
        !"fill"@.contains('"') && !"fill"@.contains(' '),
        !"width"@.contains('"') && !"width"@.contains(' '),
        !"height"@.contains('"') && !"height"@.contains(' '),
        !"stroke"@.contains('"') && !"stroke"@.contains(' '),
        !"opacity"@.contains('"') && !"opacity"@.contains(' '),
        !"transform"@.contains('"') && !"transform"@.contains(' '),
        !"font-size"@.contains('"') && !"font-size"@.contains(' '),
        !"font-family"@.contains('"') && !"font-family"@.contains(' '),
        !"stroke-width"@.contains('"') && !"stroke-width"@.contains(' '),
{
    reveal_strlit("x");
    reveal_strlit("y");
    reveal_strlit("r");
    reveal_strlit("cx");
    reveal_strlit("cy");
    reveal_strlit("rx");
    reveal_strlit("ry");
    reveal_strlit("href");
    reveal_strlit("fill");
    reveal_strlit("width");
    reveal_strlit("height");
    reveal_strlit("stroke");
    reveal_strlit("opacity");
    reveal_strlit("transform");
    reveal_strlit("font-size");
    reveal_strlit("font-family");
    reveal_strlit("stroke-width");
    assert("x"@[0] != "y"@[0]);
    assert("x"@[0] != "r"@[0]);
    assert("y"@[0] != "r"@[0]);
    assert("cx"@[1] != "cy"@[1]);
    assert("cx"@[0] != "rx"@[0]);
    assert("cx"@[0] != "ry"@[0]);
    assert("cy"@[0] != "rx"@[0]);
    assert("cy"@[0] != "ry"@[0]);
    assert("rx"@[1] != "ry"@[1]);
    assert("href"@[0] != "fill"@[0]);
    assert("height"@[0] != "stroke"@[0]);
    assert("transform"@[0] != "font-size"@[0]);
}

/// The numbers of the element are written as numbers are.
pub open spec fn element_written(e: ElementView) -> bool {
    &&& num::is_written(e.x.text)
    &&& num::is_written(e.y.text)
    &&& num::is_written(e.w.text)
    &&& num::is_written(e.h.text)
    &&& num::is_written(e.center_x.text)
    &&& num::is_written(e.center_y.text)
    &&& num::is_written(e.half_side.text)
    &&& opt_written(e.stroke_width)
    &&& opt_written(e.radius)
    &&& opt_written(e.opacity)
    &&& opt_written(e.font_size)
    &&& opt_written(e.rotation)
}

pub open spec fn opt_written(o: Option<NumView>) -> bool {
    o matches Some(n) ==> num::is_written(n.text)
}

proof fn lemma_avoids(a: Seq<char>, b: Seq<char>, bad: char)
    requires
        !a.contains(bad),
        !b.contains(bad),
    ensures
        !(a + b).contains(bad),
{
    if (a + b).contains(bad) {
        let i = choose|i: int| 0 <= i < (a + b).len() && (a + b)[i] == bad;
        if i < a.len() {
            assert(a[i] == bad);
        } else {
            assert(b[i - a.len()] == bad);
        }
    }
}

/// One more attribute in front of what follows.
proof fn lemma_step(
    s: Seq<char>,
    lead: Seq<char>,
    p: Seq<char>,
    v: Seq<char>,
    rest: Seq<char>,
    name: Seq<char>,
)
    requires
        s == lead + p + "=\""@ + v + "\""@ + rest,
        !lead.contains('"'),
        lead.len() > 0,
        lead.last() == ' ',
        !p.contains('"') && !p.contains(' '),
        !v.contains('"'),
    ensures
        markup::attribute(s, name) == own(p, Some(v), name) + markup::attribute(rest, name),
{
    markup::lemma_attribute_step(lead, p, v, rest, name);
}

proof fn lemma_nothing(s: Seq<char>, name: Seq<char>)
    requires
        !s.contains('"'),
    ensures
        markup::attribute(s, name) == Seq::<Seq<char>>::empty(),
{
    markup::lemma_no_attributes(s);
}

spec fn is_lead(lead: Seq<char>) -> bool {
    !lead.contains('"') && lead.len() > 0 && lead.last() == ' '
}

proof fn lemma_lead(lead: Seq<char>)
    requires
        is_lead(lead),
    ensures
        is_lead(lead + " "@),
        is_lead(" "@),
{
    reveal_strlit(" ");
    lemma_avoids(lead, " "@, '"');
}

proof fn lemma_space()
    ensures
        is_lead(" "@),
{
    reveal_strlit(" ");
}

spec fn turn_value(e: ElementView) -> Seq<char> {
    "rotate("@ + e.rotation->0.text + " "@ + e.center_x.text + " "@ + e.center_y.text + ")"@
}

proof fn lemma_turn(e: ElementView)
    requires
        element_written(e),
        e.rotation is Some,
    ensures
        svg::turn(e, e.rotation->0) == "transform"@ + "=\""@ + turn_value(e) + "\""@,
        !turn_value(e).contains('"'),
{
    reveal_strlit("transform");
    reveal_strlit("transform=\"rotate(");
    reveal_strlit("rotate(");
    reveal_strlit("=\"");
    reveal_strlit("\"");
    reveal_strlit(" ");
    reveal_strlit(")");
    reveal_strlit(")\"");
    let a = e.rotation->0.text;
    num::lemma_written(a, '"');
    num::lemma_written(e.center_x.text, '"');
    num::lemma_written(e.center_y.text, '"');
    let s1 = "rotate("@ + a;
    let s2 = s1 + " "@;
    let s3 = s2 + e.center_x.text;
    let s4 = s3 + " "@;
    let s5 = s4 + e.center_y.text;
    lemma_avoids("rotate("@, a, '"');
    lemma_avoids(s1, " "@, '"');
    lemma_avoids(s2, e.center_x.text, '"');
    lemma_avoids(s3, " "@, '"');
    lemma_avoids(s4, e.center_y.text, '"');
    lemma_avoids(s5, ")"@, '"');
    assert(svg::turn(e, e.rotation->0) =~= "transform"@ + "=\""@ + turn_value(e) + "\""@);
}

spec fn turn_given(e: ElementView) -> Option<Seq<char>> {
    match e.rotation {
        Some(_) => Some(turn_value(e)),
        None => None,
    }
}

spec fn number_given(n: Option<NumView>) -> Option<Seq<char>> {
    match n {
        Some(n) => Some(n.text),
        None => None,
    }
}

/// The end of the shared attributes, from the rotation on.
spec fn tail4(lead: Seq<char>, e: ElementView) -> Seq<char> {
    lead + svg::turn_attr(e) + "/>\n"@
}

spec fn tail3(lead: Seq<char>, e: ElementView) -> Seq<char> {
    lead + svg::number_attr("opacity=\""@, e.opacity, "\""@) + " "@ + svg::turn_attr(e) + "/>\n"@
}

spec fn tail2(lead: Seq<char>, e: ElementView) -> Seq<char> {
    lead + svg::corner_attr(e) + " "@ + svg::number_attr("opacity=\""@, e.opacity, "\""@) + " "@
        + svg::turn_attr(e) + "/>\n"@
}

spec fn tail1(lead: Seq<char>, e: ElementView) -> Seq<char> {
    lead + svg::number_attr("stroke-width=\""@, e.stroke_width, "\""@) + " "@ + svg::corner_attr(e)
        + " "@ + svg::number_attr("opacity=\""@, e.opacity, "\""@) + " "@ + svg::turn_attr(e)
        + "/>\n"@
}

proof fn lemma_tail4(lead: Seq<char>, e: ElementView, name: Seq<char>)
    requires
        is_lead(lead),
        element_written(e),
    ensures
        markup::attribute(tail4(lead, e), name) == own("transform"@, turn_given(e), name),
{
    lemma_names();
    reveal_strlit("/>\n");
    lemma_nothing("/>\n"@, name);
    if e.rotation is Some {
        lemma_turn(e);
        assert(tail4(lead, e) =~= lead + "transform"@ + "=\""@ + turn_value(e) + "\""@ + "/>\n"@);
        lemma_step(tail4(lead, e), lead, "transform"@, turn_value(e), "/>\n"@, name);
        assert(own("transform"@, turn_given(e), name) + Seq::<Seq<char>>::empty() =~= own(
            "transform"@,
            turn_given(e),
            name,
        ));
    } else {
        assert(tail4(lead, e) =~= lead + "/>\n"@);
        lemma_avoids(lead, "/>\n"@, '"');
        lemma_nothing(lead + "/>\n"@, name);
    }
}

proof fn lemma_tail3(lead: Seq<char>, e: ElementView, name: Seq<char>)
    requires
        is_lead(lead),
        element_written(e),
    ensures
        markup::attribute(tail3(lead, e), name) == own("opacity"@, number_given(e.opacity), name)
            + own("transform"@, turn_given(e), name),
{
    lemma_names();
    lemma_lead(lead);
    let after = own("transform"@, turn_given(e), name);
    if e.opacity is Some {
        let v = e.opacity->0.text;
        reveal_strlit("opacity");
        reveal_strlit("opacity=\"");
        reveal_strlit("=\"");
        num::lemma_written(v, '"');
        lemma_tail4(" "@, e, name);
        assert(tail3(lead, e) =~= lead + "opacity"@ + "=\""@ + v + "\""@ + tail4(" "@, e));
        lemma_step(tail3(lead, e), lead, "opacity"@, v, tail4(" "@, e), name);
    } else {
        lemma_tail4(lead + " "@, e, name);
        assert(tail3(lead, e) =~= tail4(lead + " "@, e));
        assert(Seq::<Seq<char>>::empty() + after =~= after);
    }
}

proof fn lemma_tail2(lead: Seq<char>, e: ElementView, name: Seq<char>)
    requires
        is_lead(lead),
        element_written(e),
    ensures
        markup::attribute(tail2(lead, e), name) == own("rx"@, number_given(e.radius), name) + (own(
            "ry"@,
            number_given(e.radius),
            name,
        ) + (own("opacity"@, number_given(e.opacity), name) + own("transform"@, turn_given(e), name))),
{
    lemma_names();
    lemma_lead(lead);
    let after = own("opacity"@, number_given(e.opacity), name) + own(
        "transform"@,
        turn_given(e),
        name,
    );
    if e.radius is Some {
        let v = e.radius->0.text;
        reveal_strlit("rx");
        reveal_strlit("ry");
        reveal_strlit("rx=\"");
        reveal_strlit("\" ry=\"");
        reveal_strlit("=\"");
        reveal_strlit("\"");
        reveal_strlit(" ");
        num::lemma_written(v, '"');
        lemma_tail3(" "@, e, name);
        let rest = " "@ + "ry"@ + "=\""@ + v + "\""@ + tail3(" "@, e);
        assert(tail2(lead, e) =~= lead + "rx"@ + "=\""@ + v + "\""@ + rest);
        lemma_step(tail2(lead, e), lead, "rx"@, v, rest, name);
        lemma_step(rest, " "@, "ry"@, v, tail3(" "@, e), name);
    } else {
        lemma_tail3(lead + " "@, e, name);
        assert(tail2(lead, e) =~= tail3(lead + " "@, e));
        let nothing = Seq::<Seq<char>>::empty();
        assert(nothing + (nothing + after) =~= after);
    }
}

/// What the optional attributes add.
spec fn optional(e: ElementView, name: Seq<char>) -> Seq<Seq<char>> {
    own("stroke-width"@, number_given(e.stroke_width), name) + (own(
        "rx"@,
        number_given(e.radius),
        name,
    ) + (own("ry"@, number_given(e.radius), name) + (own(
        "opacity"@,
        number_given(e.opacity),
        name,
    ) + own("transform"@, turn_given(e), name))))
}

proof fn lemma_tail1(lead: Seq<char>, e: ElementView, name: Seq<char>)
    requires
        is_lead(lead),
        element_written(e),
    ensures
        markup::attribute(tail1(lead, e), name) == optional(e, name),
{
    lemma_names();
    lemma_lead(lead);
    if e.stroke_width is Some {
        let v = e.stroke_width->0.text;
        reveal_strlit("stroke-width");
        reveal_strlit("stroke-width=\"");
        reveal_strlit("=\"");
        num::lemma_written(v, '"');
        lemma_tail2(" "@, e, name);
        assert(tail1(lead, e) =~= lead + "stroke-width"@ + "=\""@ + v + "\""@ + tail2(" "@, e));
        lemma_step(tail1(lead, e), lead, "stroke-width"@, v, tail2(" "@, e), name);
    } else {
        lemma_tail2(lead + " "@, e, name);
        assert(tail1(lead, e) =~= tail2(lead + " "@, e));
        assert(optional(e, name) =~= markup::attribute(tail2(lead + " "@, e), name));
    }
}

proof fn lemma_paint(c: Option<Seq<char>>)
    ensures
        !svg::paint_or_none(c).contains('"'),
{
    match c {
        Some(v) => util::law_escaped_text_is_inert(v, '"'),
        None => util::law_escaped_text_is_inert("none"@, '"'),
    }
}

/// The shared attributes, as they follow the others.
spec fn paints(e: ElementView) -> Seq<char> {
    " "@ + svg::paint_attrs(e) + "/>\n"@
}

#[verifier::rlimit(40)]
proof fn lemma_paints_text(
    f: Seq<char>,
    k: Seq<char>,
    a: Seq<char>,
    b: Seq<char>,
    c: Seq<char>,
    d: Seq<char>,
)
    ensures
        " "@ + ("fill=\""@ + f + "\" stroke=\""@ + k + "\" "@ + a + " "@ + b + " "@ + c + " "@ + d)
            + "/>\n"@ == " "@ + "fill"@ + "=\""@ + f + "\""@ + (" "@ + "stroke"@ + "=\""@ + k
            + "\""@ + (" "@ + a + " "@ + b + " "@ + c + " "@ + d + "/>\n"@)),
{
    reveal_strlit("fill");
    reveal_strlit("stroke");
    reveal_strlit("fill=\"");
    reveal_strlit("\" stroke=\"");
    reveal_strlit("\" ");
    reveal_strlit("=\"");
    reveal_strlit("\"");
    reveal_strlit(" ");
    let end = a + " "@ + b + " "@ + c + " "@ + d + "/>\n"@;
    let x = " "@ + ("fill=\""@ + f + "\" stroke=\""@ + k + "\" "@) + end;
    let y = " "@ + "fill"@ + "=\""@ + f + "\""@ + (" "@ + "stroke"@ + "=\""@ + k + "\""@ + (" "@
        + end));
    assert(x =~= y);
    assert(" "@ + ("fill=\""@ + f + "\" stroke=\""@ + k + "\" "@ + a + " "@ + b + " "@ + c + " "@
        + d) + "/>\n"@ =~= x);
    assert(" "@ + a + " "@ + b + " "@ + c + " "@ + d + "/>\n"@ =~= " "@ + end);
}

proof fn lemma_paints(e: ElementView, name: Seq<char>)
    requires
        element_written(e),
    ensures
        markup::attribute(paints(e), name) == own("fill"@, Some(svg::paint_or_none(e.fill)), name)
            + (own("stroke"@, Some(svg::paint_or_none(e.stroke)), name) + optional(e, name)),
{
    lemma_names();
    lemma_space();
    lemma_paint(e.fill);
    lemma_paint(e.stroke);
    lemma_tail1(" "@, e, name);
    let f = svg::paint_or_none(e.fill);
    let k = svg::paint_or_none(e.stroke);
    let rest = " "@ + "stroke"@ + "=\""@ + k + "\""@ + tail1(" "@, e);
    lemma_paints_text(
        f,
        k,
        svg::number_attr("stroke-width=\""@, e.stroke_width, "\""@),
        svg::corner_attr(e),
        svg::number_attr("opacity=\""@, e.opacity, "\""@),
        svg::turn_attr(e),
    );
    lemma_step(paints(e), " "@, "fill"@, f, rest, name);
    lemma_step(rest, " "@, "stroke"@, k, tail1(" "@, e), name);
}

proof fn lemma_kinds()
    ensures
        "rect"@ != "circle"@ && "rect"@ != "text"@ && "rect"@ != "image"@,
        "circle"@ != "text"@ && "circle"@ != "image"@,
        "text"@ != "image"@,
{
    reveal_strlit("rect");
    reveal_strlit("circle");
    reveal_strlit("text");
    reveal_strlit("image");
    assert("rect"@[0] == 'r' && "circle"@[0] == 'c' && "text"@[0] == 't' && "image"@[0] == 'i');
}

proof fn lemma_rect_text(
    x: Seq<char>,
    y: Seq<char>,
    w: Seq<char>,
    h: Seq<char>,
    a: Seq<char>,
)
    ensures
        "<rect x=\""@ + x + "\" y=\""@ + y + "\" width=\""@ + w + "\" height=\""@ + h + "\" "@ + a + "/>\n"@
            == "<rect "@ + "x"@ + "=\""@ + x + "\""@ + (
            " "@ + "y"@ + "=\""@ + y + "\""@ + (
            " "@ + "width"@ + "=\""@ + w + "\""@ + (
            " "@ + "height"@ + "=\""@ + h + "\""@ + (
            " "@ + a + "/>\n"@)))),
{
    reveal_strlit("=\"");
    reveal_strlit("\"");
    reveal_strlit(" ");
    reveal_strlit("<rect ");
    reveal_strlit("<rect x=\"");
    reveal_strlit("\" ");
    reveal_strlit("x");
    reveal_strlit("y");
    reveal_strlit("width");
    reveal_strlit("height");
    reveal_strlit("\" y=\"");
    reveal_strlit("\" width=\"");
    reveal_strlit("\" height=\"");
    let end = " "@ + a + "/>\n"@;
    let r3 = " "@ + "height"@ + "=\""@ + h + "\""@ + end;
    let r2 = " "@ + "width"@ + "=\""@ + w + "\""@ + r3;
    let r1 = " "@ + "y"@ + "=\""@ + y + "\""@ + r2;
    let l0 = "<rect x=\""@ + x;
    let l1 = l0 + "\" y=\""@ + y;
    let l2 = l1 + "\" width=\""@ + w;
    let l3 = l2 + "\" height=\""@ + h;
    assert(l3 + "\" "@ + a + "/>\n"@ =~= l3 + "\""@ + end);
    assert(l3 + "\""@ + end =~= l2 + "\""@ + r3);
    assert(l2 + "\""@ + r3 =~= l1 + "\""@ + r2);
    assert(l1 + "\""@ + r2 =~= l0 + "\""@ + r1);
    assert(l0 + "\""@ + r1 =~= "<rect "@ + "x"@ + "=\""@ + x + "\""@ + r1);
}

proof fn lemma_rect_tag()
    ensures
        !"<rect "@.contains('"') && "<rect "@.len() > 0 && "<rect "@.last() == ' ',
        !" "@.contains('"') && " "@.len() > 0 && " "@.last() == ' ',
{
    reveal_strlit("<rect ");
    reveal_strlit(" ");
}

proof fn lemma_rect(e: ElementView, name: Seq<char>)
    requires
        element_written(e),
        e.kind == "rect"@,
    ensures
        markup::attribute(svg::svg_element(e), name) == own("x"@, Some(e.x.text), name) + (
            own("y"@, Some(e.y.text), name) + (
            own("width"@, Some(e.w.text), name) + (
            own("height"@, Some(e.h.text), name) + (
            markup::attribute(paints(e), name))))),
{
    lemma_names();
    lemma_kinds();
    lemma_rect_tag();
    num::lemma_written(e.x.text, '"');
    num::lemma_written(e.y.text, '"');
    num::lemma_written(e.w.text, '"');
    num::lemma_written(e.h.text, '"');
    let r4 = paints(e);
    let r3 = " "@ + "height"@ + "=\""@ + e.h.text + "\""@ + r4;
    let r2 = " "@ + "width"@ + "=\""@ + e.w.text + "\""@ + r3;
    let r1 = " "@ + "y"@ + "=\""@ + e.y.text + "\""@ + r2;
    let r0 = "<rect "@ + "x"@ + "=\""@ + e.x.text + "\""@ + r1;
    lemma_rect_text(
        e.x.text,
        e.y.text,
        e.w.text,
        e.h.text,
        svg::paint_attrs(e),
    );
    assert(svg::svg_element(e) == r0);
    lemma_step(r0, "<rect "@, "x"@, e.x.text, r1, name);
    lemma_step(r1, " "@, "y"@, e.y.text, r2, name);
    lemma_step(r2, " "@, "width"@, e.w.text, r3, name);
    lemma_step(r3, " "@, "height"@, e.h.text, r4, name);
}

proof fn lemma_circle_text(
    x: Seq<char>,
    y: Seq<char>,
    r: Seq<char>,
    a: Seq<char>,
)
    ensures
        "<circle cx=\""@ + x + "\" cy=\""@ + y + "\" r=\""@ + r + "\" "@ + a + "/>\n"@
            == "<circle "@ + "cx"@ + "=\""@ + x + "\""@ + (
            " "@ + "cy"@ + "=\""@ + y + "\""@ + (
            " "@ + "r"@ + "=\""@ + r + "\""@ + (
            " "@ + a + "/>\n"@))),
{
    reveal_strlit("=\"");
    reveal_strlit("\"");
    reveal_strlit(" ");
    reveal_strlit("<circle ");
    reveal_strlit("<circle cx=\"");
    reveal_strlit("\" ");
    reveal_strlit("cx");
    reveal_strlit("cy");
    reveal_strlit("r");
    reveal_strlit("\" cy=\"");
    reveal_strlit("\" r=\"");
    let end = " "@ + a + "/>\n"@;
    let r2 = " "@ + "r"@ + "=\""@ + r + "\""@ + end;
    let r1 = " "@ + "cy"@ + "=\""@ + y + "\""@ + r2;
    let l0 = "<circle cx=\""@ + x;
    let l1 = l0 + "\" cy=\""@ + y;
    let l2 = l1 + "\" r=\""@ + r;
    assert(l2 + "\" "@ + a + "/>\n"@ =~= l2 + "\""@ + end);
    assert(l2 + "\""@ + end =~= l1 + "\""@ + r2);
    assert(l1 + "\""@ + r2 =~= l0 + "\""@ + r1);
    assert(l0 + "\""@ + r1 =~= "<circle "@ + "cx"@ + "=\""@ + x + "\""@ + r1);
}

proof fn lemma_circle_tag()
    ensures
        !"<circle "@.contains('"') && "<circle "@.len() > 0 && "<circle "@.last() == ' ',
        !" "@.contains('"') && " "@.len() > 0 && " "@.last() == ' ',
{
    reveal_strlit("<circle ");
    reveal_strlit(" ");
}

proof fn lemma_circle(e: ElementView, name: Seq<char>)
    requires
        element_written(e),
        e.kind == "circle"@,
    ensures
        markup::attribute(svg::svg_element(e), name) == own("cx"@, Some(e.center_x.text), name) + (
            own("cy"@, Some(e.center_y.text), name) + (
            own("r"@, Some(e.half_side.text), name) + (
            markup::attribute(paints(e), name)))),
{
    lemma_names();
    lemma_kinds();
    lemma_circle_tag();
    num::lemma_written(e.center_x.text, '"');
    num::lemma_written(e.center_y.text, '"');
    num::lemma_written(e.half_side.text, '"');
    let r3 = paints(e);
    let r2 = " "@ + "r"@ + "=\""@ + e.half_side.text + "\""@ + r3;
    let r1 = " "@ + "cy"@ + "=\""@ + e.center_y.text + "\""@ + r2;
    let r0 = "<circle "@ + "cx"@ + "=\""@ + e.center_x.text + "\""@ + r1;
    lemma_circle_text(
        e.center_x.text,
        e.center_y.text,
        e.half_side.text,
        svg::paint_attrs(e),
    );
    assert(svg::svg_element(e) == r0);
    lemma_step(r0, "<circle "@, "cx"@, e.center_x.text, r1, name);
    lemma_step(r1, " "@, "cy"@, e.center_y.text, r2, name);
    lemma_step(r2, " "@, "r"@, e.half_side.text, r3, name);
}

/// The address in an image, escaped.
pub open spec fn image_href(e: ElementView) -> Seq<char> {
    util::xml_escaped(util::image_url(text::text_or_empty(e.text)))
}

#[verifier::rlimit(40)]
proof fn lemma_image_text(
    x: Seq<char>,
    y: Seq<char>,
    w: Seq<char>,
    h: Seq<char>,
    u: Seq<char>,
    a: Seq<char>,
)
    ensures
        "<image x=\""@ + x + "\" y=\""@ + y + "\" width=\""@ + w + "\" height=\""@ + h
            + "\" href=\""@ + u + "\" "@ + a + "/>\n"@ == "<image "@ + "x"@ + "=\""@ + x + "\""@ + (
        " "@ + "y"@ + "=\""@ + y + "\""@ + (" "@ + "width"@ + "=\""@ + w + "\""@ + (" "@ + "height"@
            + "=\""@ + h + "\""@ + (" "@ + "href"@ + "=\""@ + u + "\""@ + (" "@ + a
            + "/>\n"@))))),
{
    reveal_strlit("=\"");
    reveal_strlit("\"");
    reveal_strlit(" ");
    reveal_strlit("<image ");
    reveal_strlit("<image x=\"");
    reveal_strlit("x");
    reveal_strlit("y");
    reveal_strlit("width");
    reveal_strlit("height");
    reveal_strlit("href");
    reveal_strlit("\" y=\"");
    reveal_strlit("\" width=\"");
    reveal_strlit("\" height=\"");
    reveal_strlit("\" href=\"");
    reveal_strlit("\" ");
    let end = " "@ + a + "/>\n"@;
    let r4 = " "@ + "href"@ + "=\""@ + u + "\""@ + end;
    let r3 = " "@ + "height"@ + "=\""@ + h + "\""@ + r4;
    let r2 = " "@ + "width"@ + "=\""@ + w + "\""@ + r3;
    let r1 = " "@ + "y"@ + "=\""@ + y + "\""@ + r2;
    let l0 = "<image x=\""@ + x;
    let l1 = l0 + "\" y=\""@ + y;
    let l2 = l1 + "\" width=\""@ + w;
    let l3 = l2 + "\" height=\""@ + h;
    let l4 = l3 + "\" href=\""@ + u;
    assert(l4 + "\" "@ + a + "/>\n"@ =~= l4 + "\""@ + end);
    assert(l4 + "\""@ + end =~= l3 + "\""@ + r4);
    assert(l3 + "\""@ + r4 =~= l2 + "\""@ + r3);
    assert(l2 + "\""@ + r3 =~= l1 + "\""@ + r2);
    assert(l1 + "\""@ + r2 =~= l0 + "\""@ + r1);
    assert(l0 + "\""@ + r1 =~= "<image "@ + "x"@ + "=\""@ + x + "\""@ + r1);
}

proof fn lemma_image_tag()
    ensures
        !"<image "@.contains('"') && "<image "@.len() > 0 && "<image "@.last() == ' ',
        !" "@.contains('"') && " "@.len() > 0 && " "@.last() == ' ',
{
    reveal_strlit("<image ");
    reveal_strlit(" ");
}

proof fn lemma_image(e: ElementView, name: Seq<char>)
    requires
        element_written(e),
        e.kind == "image"@,
    ensures
        markup::attribute(svg::svg_element(e), name) == own("x"@, Some(e.x.text), name) + (own(
            "y"@,
            Some(e.y.text),
            name,
        ) + (own("width"@, Some(e.w.text), name) + (own("height"@, Some(e.h.text), name) + (own(
            "href"@,
            Some(image_href(e)),
            name,
        ) + (markup::attribute(paints(e), name)))))),
{
    lemma_names();
    lemma_kinds();
    lemma_image_tag();
    num::lemma_written(e.x.text, '"');
    num::lemma_written(e.y.text, '"');
    num::lemma_written(e.w.text, '"');
    num::lemma_written(e.h.text, '"');
    util::law_escaped_text_is_inert(util::image_url(text::text_or_empty(e.text)), '"');
    let r5 = paints(e);
    let r4 = " "@ + "href"@ + "=\""@ + image_href(e) + "\""@ + r5;
    let r3 = " "@ + "height"@ + "=\""@ + e.h.text + "\""@ + r4;
    let r2 = " "@ + "width"@ + "=\""@ + e.w.text + "\""@ + r3;
    let r1 = " "@ + "y"@ + "=\""@ + e.y.text + "\""@ + r2;
    let r0 = "<image "@ + "x"@ + "=\""@ + e.x.text + "\""@ + r1;
    lemma_image_text(
        e.x.text,
        e.y.text,
        e.w.text,
        e.h.text,
        image_href(e),
        svg::paint_attrs(e),
    );
    assert(svg::svg_element(e) == r0);
    lemma_step(r0, "<image "@, "x"@, e.x.text, r1, name);
    lemma_step(r1, " "@, "y"@, e.y.text, r2, name);
    lemma_step(r2, " "@, "width"@, e.w.text, r3, name);
    lemma_step(r3, " "@, "height"@, e.h.text, r4, name);
    lemma_step(r4, " "@, "href"@, image_href(e), r5, name);
}

/// What a text shows, and the end of its element.
spec fn content(e: ElementView) -> Seq<char> {
    ">"@ + util::xml_escaped(text::text_or_empty(e.text)) + "</text>\n"@
}

proof fn lemma_content(e: ElementView)
    ensures
        !content(e).contains('"'),
{
    reveal_strlit(">");
    reveal_strlit("</text>\n");
    util::law_escaped_text_is_inert(text::text_or_empty(e.text), '"');
    let t = util::xml_escaped(text::text_or_empty(e.text));
    lemma_avoids(">"@, t, '"');
    lemma_avoids(">"@ + t, "</text>\n"@, '"');
}

spec fn text_turn_given(e: ElementView) -> Option<Seq<char>> {
    match e.rotation {
        Some(r) => if num::equal(r.bits, num::ZERO) {
            None
        } else {
            Some(turn_value(e))
        },
        None => None,
    }
}

spec fn family_given(e: ElementView) -> Option<Seq<char>> {
    match e.font_family {
        Some(f) => Some(util::xml_escaped(f)),
        None => None,
    }
}

spec fn size_given(e: ElementView) -> Option<Seq<char>> {
    match e.font_size {
        Some(s) => Some(s.text + "px"@),
        None => None,
    }
}

spec fn words3(lead: Seq<char>, e: ElementView) -> Seq<char> {
    lead + svg::text_turn_attr(e) + content(e)
}

spec fn words2(lead: Seq<char>, e: ElementView) -> Seq<char> {
    lead + svg::family_attr(e) + " "@ + svg::text_turn_attr(e) + content(e)
}

spec fn words1(lead: Seq<char>, e: ElementView) -> Seq<char> {
    lead + svg::number_attr("font-size=\""@, e.font_size, "px\""@) + " "@ + svg::family_attr(e)
        + " "@ + svg::text_turn_attr(e) + content(e)
}

proof fn lemma_words3(lead: Seq<char>, e: ElementView, name: Seq<char>)
    requires
        is_lead(lead),
        element_written(e),
    ensures
        markup::attribute(words3(lead, e), name) == own("transform"@, text_turn_given(e), name),
{
    lemma_names();
    lemma_content(e);
    lemma_nothing(content(e), name);
    if text_turn_given(e) is Some {
        lemma_turn(e);
        assert(words3(lead, e) =~= lead + "transform"@ + "=\""@ + turn_value(e) + "\""@ + content(
            e,
        ));
        lemma_step(words3(lead, e), lead, "transform"@, turn_value(e), content(e), name);
        let d = own("transform"@, text_turn_given(e), name);
        assert(d + Seq::<Seq<char>>::empty() =~= d);
    } else {
        assert(words3(lead, e) =~= lead + content(e));
        lemma_avoids(lead, content(e), '"');
        lemma_nothing(lead + content(e), name);
    }
}

proof fn lemma_words2(lead: Seq<char>, e: ElementView, name: Seq<char>)
    requires
        is_lead(lead),
        element_written(e),
    ensures
        markup::attribute(words2(lead, e), name) == own("font-family"@, family_given(e), name) + own(
            "transform"@,
            text_turn_given(e),
            name,
        ),
{
    lemma_names();
    lemma_lead(lead);
    let after = own("transform"@, text_turn_given(e), name);
    if e.font_family is Some {
        let v = util::xml_escaped(e.font_family->0);
        reveal_strlit("font-family");
        reveal_strlit("font-family=\"");
        reveal_strlit("=\"");
        util::law_escaped_text_is_inert(e.font_family->0, '"');
        lemma_words3(" "@, e, name);
        assert(words2(lead, e) =~= lead + "font-family"@ + "=\""@ + v + "\""@ + words3(" "@, e));
        lemma_step(words2(lead, e), lead, "font-family"@, v, words3(" "@, e), name);
    } else {
        lemma_words3(lead + " "@, e, name);
        assert(words2(lead, e) =~= words3(lead + " "@, e));
        assert(Seq::<Seq<char>>::empty() + after =~= after);
    }
}

proof fn lemma_words1(lead: Seq<char>, e: ElementView, name: Seq<char>)
    requires
        is_lead(lead),
        element_written(e),
    ensures
        markup::attribute(words1(lead, e), name) == own("font-size"@, size_given(e), name) + (own(
            "font-family"@,
            family_given(e),
            name,
        ) + own("transform"@, text_turn_given(e), name)),
{
    lemma_names();
    lemma_lead(lead);
    let after = own("font-family"@, family_given(e), name) + own(
        "transform"@,
        text_turn_given(e),
        name,
    );
    if e.font_size is Some {
        let v = e.font_size->0.text + "px"@;
        reveal_strlit("font-size");
        reveal_strlit("font-size=\"");
        reveal_strlit("=\"");
        reveal_strlit("\"");
        reveal_strlit("px");
        reveal_strlit("px\"");
        num::lemma_written(e.font_size->0.text, '"');
        lemma_avoids(e.font_size->0.text, "px"@, '"');
        lemma_words2(" "@, e, name);
        assert(words1(lead, e) =~= lead + "font-size"@ + "=\""@ + v + "\""@ + words2(" "@, e));
        lemma_step(words1(lead, e), lead, "font-size"@, v, words2(" "@, e), name);
    } else {
        lemma_words2(lead + " "@, e, name);
        assert(words1(lead, e) =~= words2(lead + " "@, e));
        assert(Seq::<Seq<char>>::empty() + after =~= after);
    }
}

#[verifier::rlimit(40)]
proof fn lemma_text_text(
    x: Seq<char>,
    y: Seq<char>,
    f: Seq<char>,
    a: Seq<char>,
    b: Seq<char>,
    c: Seq<char>,
    t: Seq<char>,
)
    ensures
        "<text x=\""@ + x + "\" y=\""@ + y + "\" fill=\""@ + f + "\" "@ + a + " "@ + b + " "@ + c
            + ">"@ + t + "</text>\n"@ == "<text "@ + "x"@ + "=\""@ + x + "\""@ + (" "@ + "y"@ + "=\""@
            + y + "\""@ + (" "@ + "fill"@ + "=\""@ + f + "\""@ + (" "@ + a + " "@ + b + " "@ + c + (">"@
            + t + "</text>\n"@)))),
{
    reveal_strlit("<text ");
    reveal_strlit("<text x=\"");
    reveal_strlit("x");
    reveal_strlit("y");
    reveal_strlit("fill");
    reveal_strlit("\" y=\"");
    reveal_strlit("\" fill=\"");
    reveal_strlit("\" ");
    reveal_strlit("=\"");
    reveal_strlit("\"");
    reveal_strlit(" ");
    let end = a + " "@ + b + " "@ + c + (">"@ + t + "</text>\n"@);
    let front = "<text x=\""@ + x + "\" y=\""@ + y + "\" fill=\""@ + f + "\" "@;
    let z = "<text "@ + "x"@ + "=\""@ + x + "\""@ + (" "@ + "y"@ + "=\""@ + y + "\""@ + (" "@
        + "fill"@ + "=\""@ + f + "\""@ + (" "@ + end)));
    assert(front + end =~= z);
    assert("<text x=\""@ + x + "\" y=\""@ + y + "\" fill=\""@ + f + "\" "@ + a + " "@ + b + " "@
        + c + ">"@ + t + "</text>\n"@ =~= front + end);
    assert(" "@ + a + " "@ + b + " "@ + c + (">"@ + t + "</text>\n"@) =~= " "@ + end);
}

proof fn lemma_text(e: ElementView, name: Seq<char>)
    requires
        element_written(e),
        e.kind == "text"@,
    ensures
        markup::attribute(svg::svg_element(e), name) == own("x"@, Some(e.x.text), name) + (own(
            "y"@,
            Some(e.y.text),
            name,
        ) + (own("fill"@, Some(svg::paint_or_none(e.fill)), name) + (markup::attribute(
            words1(" "@, e),
            name,
        )))),
{
    lemma_names();
    lemma_kinds();
    lemma_space();
    lemma_text_tag();
    num::lemma_written(e.x.text, '"');
    num::lemma_written(e.y.text, '"');
    lemma_paint(e.fill);
    let f = svg::paint_or_none(e.fill);
    lemma_text_text(
        e.x.text,
        e.y.text,
        f,
        svg::number_attr("font-size=\""@, e.font_size, "px\""@),
        svg::family_attr(e),
        svg::text_turn_attr(e),
        util::xml_escaped(text::text_or_empty(e.text)),
    );
    let r3 = words1(" "@, e);
    let r2 = " "@ + "fill"@ + "=\""@ + f + "\""@ + r3;
    let r1 = " "@ + "y"@ + "=\""@ + e.y.text + "\""@ + r2;
    let r0 = "<text "@ + "x"@ + "=\""@ + e.x.text + "\""@ + r1;
    assert(svg::svg_element(e) == r0);
    lemma_step(r0, "<text "@, "x"@, e.x.text, r1, name);
    lemma_step(r1, " "@, "y"@, e.y.text, r2, name);
    lemma_step(r2, " "@, "fill"@, f, r3, name);
}

proof fn lemma_text_tag()
    ensures
        is_lead("<text "@),
{
    reveal_strlit("<text ");
}

// ---------------------------------------------------------------------------
// Laws
// ---------------------------------------------------------------------------

/// One value, where there is one.
pub open spec fn only(v: Option<Seq<char>>) -> Seq<Seq<char>> {
    match v {
        Some(v) => seq![v],
        None => Seq::empty(),
    }
}

/// A rectangle says where it stands and how large it is, each once.
pub proof fn law_rect_stands_in_its_box(e: ElementView)
    requires
        element_written(e),
        e.kind == "rect"@,
    ensures
        markup::attribute(svg::svg_element(e), "x"@) == seq![e.x.text],
        markup::attribute(svg::svg_element(e), "y"@) == seq![e.y.text],
        markup::attribute(svg::svg_element(e), "width"@) == seq![e.w.text],
        markup::attribute(svg::svg_element(e), "height"@) == seq![e.h.text],
{
    lemma_names();
    lemma_rect(e, "x"@);
    lemma_paints(e, "x"@);
    assert(markup::attribute(svg::svg_element(e), "x"@) =~= seq![e.x.text]);
    lemma_rect(e, "y"@);
    lemma_paints(e, "y"@);
    assert(markup::attribute(svg::svg_element(e), "y"@) =~= seq![e.y.text]);
    lemma_rect(e, "width"@);
    lemma_paints(e, "width"@);
    assert(markup::attribute(svg::svg_element(e), "width"@) =~= seq![e.w.text]);
    lemma_rect(e, "height"@);
    lemma_paints(e, "height"@);
    assert(markup::attribute(svg::svg_element(e), "height"@) =~= seq![e.h.text]);
}

/// A rectangle says its colors; one that it lacks is `none`.
pub proof fn law_rect_is_painted(e: ElementView)
    requires
        element_written(e),
        e.kind == "rect"@,
    ensures
        markup::attribute(svg::svg_element(e), "fill"@) == seq![
            match e.fill {
                Some(c) => util::xml_escaped(c),
                None => util::xml_escaped("none"@),
            },
        ],
        markup::attribute(svg::svg_element(e), "stroke"@) == seq![
            match e.stroke {
                Some(c) => util::xml_escaped(c),
                None => util::xml_escaped("none"@),
            },
        ],
{
    lemma_names();
    lemma_rect(e, "fill"@);
    lemma_paints(e, "fill"@);
    assert(markup::attribute(svg::svg_element(e), "fill"@) =~= seq![
            match e.fill {
                Some(c) => util::xml_escaped(c),
                None => util::xml_escaped("none"@),
            },
        ]);
    lemma_rect(e, "stroke"@);
    lemma_paints(e, "stroke"@);
    assert(markup::attribute(svg::svg_element(e), "stroke"@) =~= seq![
            match e.stroke {
                Some(c) => util::xml_escaped(c),
                None => util::xml_escaped("none"@),
            },
        ]);
}

/// A rectangle says its other style, each part once and only where it has it; it turns around its
/// middle.
pub proof fn law_rect_bears_its_style(e: ElementView)
    requires
        element_written(e),
        e.kind == "rect"@,
    ensures
        markup::attribute(svg::svg_element(e), "stroke-width"@) == only(
            match e.stroke_width {
                Some(n) => Some(n.text),
                None => None,
            },
        ),
        markup::attribute(svg::svg_element(e), "opacity"@) == only(
            match e.opacity {
                Some(n) => Some(n.text),
                None => None,
            },
        ),
        markup::attribute(svg::svg_element(e), "rx"@) == only(
            match e.radius {
                Some(n) => Some(n.text),
                None => None,
            },
        ),
        markup::attribute(svg::svg_element(e), "ry"@) == only(
            match e.radius {
                Some(n) => Some(n.text),
                None => None,
            },
        ),
        markup::attribute(svg::svg_element(e), "transform"@) == only(
            match e.rotation {
                Some(r) => Some(
                    "rotate("@ + r.text + " "@ + e.center_x.text + " "@ + e.center_y.text
                        + ")"@,
                ),
                None => None,
            },
        ),
{
    lemma_names();
    lemma_rect(e, "stroke-width"@);
    lemma_paints(e, "stroke-width"@);
    assert(markup::attribute(svg::svg_element(e), "stroke-width"@) =~= only(
            match e.stroke_width {
                Some(n) => Some(n.text),
                None => None,
            },
        ));
    lemma_rect(e, "opacity"@);
    lemma_paints(e, "opacity"@);
    assert(markup::attribute(svg::svg_element(e), "opacity"@) =~= only(
            match e.opacity {
                Some(n) => Some(n.text),
                None => None,
            },
        ));
    lemma_rect(e, "rx"@);
    lemma_paints(e, "rx"@);
    assert(markup::attribute(svg::svg_element(e), "rx"@) =~= only(
            match e.radius {
                Some(n) => Some(n.text),
                None => None,
            },
        ));
    lemma_rect(e, "ry"@);
    lemma_paints(e, "ry"@);
    assert(markup::attribute(svg::svg_element(e), "ry"@) =~= only(
            match e.radius {
                Some(n) => Some(n.text),
                None => None,
            },
        ));
    lemma_rect(e, "transform"@);
    lemma_paints(e, "transform"@);
    assert(markup::attribute(svg::svg_element(e), "transform"@) =~= only(
            match e.rotation {
                Some(r) => Some(
                    "rotate("@ + r.text + " "@ + e.center_x.text + " "@ + e.center_y.text
                        + ")"@,
                ),
                None => None,
            },
        ));
}

/// A circle says its middle and its radius, each once.
pub proof fn law_circle_stands_in_its_box(e: ElementView)
    requires
        element_written(e),
        e.kind == "circle"@,
    ensures
        markup::attribute(svg::svg_element(e), "cx"@) == seq![e.center_x.text],
        markup::attribute(svg::svg_element(e), "cy"@) == seq![e.center_y.text],
        markup::attribute(svg::svg_element(e), "r"@) == seq![e.half_side.text],
{
    lemma_names();
    lemma_circle(e, "cx"@);
    lemma_paints(e, "cx"@);
    assert(markup::attribute(svg::svg_element(e), "cx"@) =~= seq![e.center_x.text]);
    lemma_circle(e, "cy"@);
    lemma_paints(e, "cy"@);
    assert(markup::attribute(svg::svg_element(e), "cy"@) =~= seq![e.center_y.text]);
    lemma_circle(e, "r"@);
    lemma_paints(e, "r"@);
    assert(markup::attribute(svg::svg_element(e), "r"@) =~= seq![e.half_side.text]);
}

/// A circle says its colors; one that it lacks is `none`.
pub proof fn law_circle_is_painted(e: ElementView)
    requires
        element_written(e),
        e.kind == "circle"@,
    ensures
        markup::attribute(svg::svg_element(e), "fill"@) == seq![
            match e.fill {
                Some(c) => util::xml_escaped(c),
                None => util::xml_escaped("none"@),
            },
        ],
        markup::attribute(svg::svg_element(e), "stroke"@) == seq![
            match e.stroke {
                Some(c) => util::xml_escaped(c),
                None => util::xml_escaped("none"@),
            },
        ],
{
    lemma_names();
    lemma_circle(e, "fill"@);
    lemma_paints(e, "fill"@);
    assert(markup::attribute(svg::svg_element(e), "fill"@) =~= seq![
            match e.fill {
                Some(c) => util::xml_escaped(c),
                None => util::xml_escaped("none"@),
            },
        ]);
    lemma_circle(e, "stroke"@);
    lemma_paints(e, "stroke"@);
    assert(markup::attribute(svg::svg_element(e), "stroke"@) =~= seq![
            match e.stroke {
                Some(c) => util::xml_escaped(c),
                None => util::xml_escaped("none"@),
            },
        ]);
}

/// A circle says its other style, each part once and only where it has it.
pub proof fn law_circle_bears_its_style(e: ElementView)
    requires
        element_written(e),
        e.kind == "circle"@,
    ensures
        markup::attribute(svg::svg_element(e), "stroke-width"@) == only(
            match e.stroke_width {
                Some(n) => Some(n.text),
                None => None,
            },
        ),
        markup::attribute(svg::svg_element(e), "opacity"@) == only(
            match e.opacity {
                Some(n) => Some(n.text),
                None => None,
            },
        ),
        markup::attribute(svg::svg_element(e), "rx"@) == only(
            match e.radius {
                Some(n) => Some(n.text),
                None => None,
            },
        ),
        markup::attribute(svg::svg_element(e), "ry"@) == only(
            match e.radius {
                Some(n) => Some(n.text),
                None => None,
            },
        ),
        markup::attribute(svg::svg_element(e), "transform"@) == only(
            match e.rotation {
                Some(r) => Some(
                    "rotate("@ + r.text + " "@ + e.center_x.text + " "@ + e.center_y.text
                        + ")"@,
                ),
                None => None,
            },
        ),
{
    lemma_names();
    lemma_circle(e, "stroke-width"@);
    lemma_paints(e, "stroke-width"@);
    assert(markup::attribute(svg::svg_element(e), "stroke-width"@) =~= only(
            match e.stroke_width {
                Some(n) => Some(n.text),
                None => None,
            },
        ));
    lemma_circle(e, "opacity"@);
    lemma_paints(e, "opacity"@);
    assert(markup::attribute(svg::svg_element(e), "opacity"@) =~= only(
            match e.opacity {
                Some(n) => Some(n.text),
                None => None,
            },
        ));
    lemma_circle(e, "rx"@);
    lemma_paints(e, "rx"@);
    assert(markup::attribute(svg::svg_element(e), "rx"@) =~= only(
            match e.radius {
                Some(n) => Some(n.text),
                None => None,
            },
        ));
    lemma_circle(e, "ry"@);
    lemma_paints(e, "ry"@);
    assert(markup::attribute(svg::svg_element(e), "ry"@) =~= only(
            match e.radius {
                Some(n) => Some(n.text),
                None => None,
            },
        ));
    lemma_circle(e, "transform"@);
    lemma_paints(e, "transform"@);
    assert(markup::attribute(svg::svg_element(e), "transform"@) =~= only(
            match e.rotation {
                Some(r) => Some(
                    "rotate("@ + r.text + " "@ + e.center_x.text + " "@ + e.center_y.text
                        + ")"@,
                ),
                None => None,
            },
        ));
}

/// An image says where it stands, how large it is and where it comes from, each once.
pub proof fn law_image_stands_in_its_box(e: ElementView)
    requires
        element_written(e),
        e.kind == "image"@,
    ensures
        markup::attribute(svg::svg_element(e), "x"@) == seq![e.x.text],
        markup::attribute(svg::svg_element(e), "y"@) == seq![e.y.text],
        markup::attribute(svg::svg_element(e), "width"@) == seq![e.w.text],
        markup::attribute(svg::svg_element(e), "height"@) == seq![e.h.text],
        markup::attribute(svg::svg_element(e), "href"@) == seq![image_href(e)],
{
    lemma_names();
    lemma_image(e, "x"@);
    lemma_paints(e, "x"@);
    assert(markup::attribute(svg::svg_element(e), "x"@) =~= seq![e.x.text]);
    lemma_image(e, "y"@);
    lemma_paints(e, "y"@);
    assert(markup::attribute(svg::svg_element(e), "y"@) =~= seq![e.y.text]);
    lemma_image(e, "width"@);
    lemma_paints(e, "width"@);
    assert(markup::attribute(svg::svg_element(e), "width"@) =~= seq![e.w.text]);
    lemma_image(e, "height"@);
    lemma_paints(e, "height"@);
    assert(markup::attribute(svg::svg_element(e), "height"@) =~= seq![e.h.text]);
    lemma_image(e, "href"@);
    lemma_paints(e, "href"@);
    assert(markup::attribute(svg::svg_element(e), "href"@) =~= seq![image_href(e)]);
}

/// An image says its colors; one that it lacks is `none`.
pub proof fn law_image_is_painted(e: ElementView)
    requires
        element_written(e),
        e.kind == "image"@,
    ensures
        markup::attribute(svg::svg_element(e), "fill"@) == seq![
            match e.fill {
                Some(c) => util::xml_escaped(c),
                None => util::xml_escaped("none"@),
            },
        ],
        markup::attribute(svg::svg_element(e), "stroke"@) == seq![
            match e.stroke {
                Some(c) => util::xml_escaped(c),
                None => util::xml_escaped("none"@),
            },
        ],
{
    lemma_names();
    lemma_image(e, "fill"@);
    lemma_paints(e, "fill"@);
    assert(markup::attribute(svg::svg_element(e), "fill"@) =~= seq![
            match e.fill {
                Some(c) => util::xml_escaped(c),
                None => util::xml_escaped("none"@),
            },
        ]);
    lemma_image(e, "stroke"@);
    lemma_paints(e, "stroke"@);
    assert(markup::attribute(svg::svg_element(e), "stroke"@) =~= seq![
            match e.stroke {
                Some(c) => util::xml_escaped(c),
                None => util::xml_escaped("none"@),
            },
        ]);
}

/// An image says its other style, each part once and only where it has it.
pub proof fn law_image_bears_its_style(e: ElementView)
    requires
        element_written(e),
        e.kind == "image"@,
    ensures
        markup::attribute(svg::svg_element(e), "stroke-width"@) == only(
            match e.stroke_width {
                Some(n) => Some(n.text),
                None => None,
            },
        ),
        markup::attribute(svg::svg_element(e), "opacity"@) == only(
            match e.opacity {
                Some(n) => Some(n.text),
                None => None,
            },
        ),
        markup::attribute(svg::svg_element(e), "rx"@) == only(
            match e.radius {
                Some(n) => Some(n.text),
                None => None,
            },
        ),
        markup::attribute(svg::svg_element(e), "ry"@) == only(
            match e.radius {
                Some(n) => Some(n.text),
                None => None,
            },
        ),
        markup::attribute(svg::svg_element(e), "transform"@) == only(
            match e.rotation {
                Some(r) => Some(
                    "rotate("@ + r.text + " "@ + e.center_x.text + " "@ + e.center_y.text
                        + ")"@,
                ),
                None => None,
            },
        ),
{
    lemma_names();
    lemma_image(e, "stroke-width"@);
    lemma_paints(e, "stroke-width"@);
    assert(markup::attribute(svg::svg_element(e), "stroke-width"@) =~= only(
            match e.stroke_width {
                Some(n) => Some(n.text),
                None => None,
            },
        ));
    lemma_image(e, "opacity"@);
    lemma_paints(e, "opacity"@);
    assert(markup::attribute(svg::svg_element(e), "opacity"@) =~= only(
            match e.opacity {
                Some(n) => Some(n.text),
                None => None,
            },
        ));
    lemma_image(e, "rx"@);
    lemma_paints(e, "rx"@);
    assert(markup::attribute(svg::svg_element(e), "rx"@) =~= only(
            match e.radius {
                Some(n) => Some(n.text),
                None => None,
            },
        ));
    lemma_image(e, "ry"@);
    lemma_paints(e, "ry"@);
    assert(markup::attribute(svg::svg_element(e), "ry"@) =~= only(
            match e.radius {
                Some(n) => Some(n.text),
                None => None,
            },
        ));
    lemma_image(e, "transform"@);
    lemma_paints(e, "transform"@);
    assert(markup::attribute(svg::svg_element(e), "transform"@) =~= only(
            match e.rotation {
                Some(r) => Some(
                    "rotate("@ + r.text + " "@ + e.center_x.text + " "@ + e.center_y.text
                        + ")"@,
                ),
                None => None,
            },
        ));
}

proof fn lemma_text_words(e: ElementView, name: Seq<char>)
    requires
        element_written(e),
    ensures
        markup::attribute(words1(" "@, e), name) == own("font-size"@, size_given(e), name) + (own(
            "font-family"@,
            family_given(e),
            name,
        ) + own("transform"@, text_turn_given(e), name)),
{
    reveal_strlit(" ");
    lemma_words1(" "@, e, name);
}

/// A text says where it stands and its color, each once.
pub proof fn law_text_stands_at_its_place(e: ElementView)
    requires
        element_written(e),
        e.kind == "text"@,
    ensures
        markup::attribute(svg::svg_element(e), "x"@) == seq![e.x.text],
        markup::attribute(svg::svg_element(e), "y"@) == seq![e.y.text],
        markup::attribute(svg::svg_element(e), "fill"@) == seq![
            match e.fill {
                Some(c) => util::xml_escaped(c),
                None => util::xml_escaped("none"@),
            },
        ],
{
    lemma_names();
    lemma_text(e, "x"@);
    lemma_text_words(e, "x"@);
    assert(markup::attribute(svg::svg_element(e), "x"@) =~= seq![e.x.text]);
    lemma_text(e, "y"@);
    lemma_text_words(e, "y"@);
    assert(markup::attribute(svg::svg_element(e), "y"@) =~= seq![e.y.text]);
    lemma_text(e, "fill"@);
    lemma_text_words(e, "fill"@);
    assert(markup::attribute(svg::svg_element(e), "fill"@) =~= seq![
            match e.fill {
                Some(c) => util::xml_escaped(c),
                None => util::xml_escaped("none"@),
            },
        ]);
}

/// A text says its font and its rotation, each once and only where it has it; it is not turned by zero.
pub proof fn law_text_bears_its_font(e: ElementView)
    requires
        element_written(e),
        e.kind == "text"@,
    ensures
        markup::attribute(svg::svg_element(e), "font-size"@) == only(
            match e.font_size {
                Some(n) => Some(n.text + "px"@),
                None => None,
            },
        ),
        markup::attribute(svg::svg_element(e), "font-family"@) == only(
            match e.font_family {
                Some(f) => Some(util::xml_escaped(f)),
                None => None,
            },
        ),
        markup::attribute(svg::svg_element(e), "transform"@) == only(
            match e.rotation {
                Some(r) => if num::equal(r.bits, num::ZERO) {
                    None
                } else {
                    Some(
                        "rotate("@ + r.text + " "@ + e.center_x.text + " "@ + e.center_y.text
                            + ")"@,
                    )
                },
                None => None,
            },
        ),
{
    lemma_names();
    lemma_text(e, "font-size"@);
    lemma_text_words(e, "font-size"@);
    assert(markup::attribute(svg::svg_element(e), "font-size"@) =~= only(
            match e.font_size {
                Some(n) => Some(n.text + "px"@),
                None => None,
            },
        ));
    lemma_text(e, "font-family"@);
    lemma_text_words(e, "font-family"@);
    assert(markup::attribute(svg::svg_element(e), "font-family"@) =~= only(
            match e.font_family {
                Some(f) => Some(util::xml_escaped(f)),
                None => None,
            },
        ));
    lemma_text(e, "transform"@);
    lemma_text_words(e, "transform"@);
    assert(markup::attribute(svg::svg_element(e), "transform"@) =~= only(
            match e.rotation {
                Some(r) => if num::equal(r.bits, num::ZERO) {
                    None
                } else {
                    Some(
                        "rotate("@ + r.text + " "@ + e.center_x.text + " "@ + e.center_y.text
                            + ")"@,
                    )
                },
                None => None,
            },
        ));
}

/// A text shows its own text, escaped, up to the end of its element.
pub proof fn law_text_shows_its_text(e: ElementView)
    requires
        e.kind == "text"@,
    ensures
        ({
            let s = svg::svg_element(e);
            let end = ">"@ + util::xml_escaped(text::text_or_empty(e.text)) + "</text>\n"@;
            end.len() <= s.len() && s.skip(s.len() - end.len()) == end
        }),
{
    lemma_kinds();
    let s = svg::svg_element(e);
    let end = ">"@ + util::xml_escaped(text::text_or_empty(e.text)) + "</text>\n"@;
    assert(s.skip(s.len() - end.len()) =~= end);
}

/// A page says its width and its height, and shows just that.
pub proof fn law_page_says_its_size(p: CanvasView)
    requires
        num::is_written(p.width.text),
        num::is_written(p.height.text),
    ensures
        ({
            let said = markup::attributes(svg::svg_page(p));
            &&& said.len() >= 4
            &&& said[1] == ("width"@, p.width.text)
            &&& said[2] == ("height"@, p.height.text)
            &&& said[3] == ("viewBox"@, "0 0 "@ + p.width.text + " "@ + p.height.text)
        }),
{
    lemma_page_text(p);
    lemma_page_parts(p);
    let w = p.width.text;
    let h = p.height.text;
    let view = "0 0 "@ + w + " "@ + h;
    let r4 = ">\n"@ + svg::svg_elements(p.elements) + "</svg>"@;
    let r3 = " "@ + "viewBox"@ + "=\""@ + view + "\""@ + r4;
    let r2 = " "@ + "height"@ + "=\""@ + h + "\""@ + r3;
    let r1 = " "@ + "width"@ + "=\""@ + w + "\""@ + r2;
    markup::lemma_attribute("<svg "@, "xmlns"@, "http://www.w3.org/2000/svg"@, r1);
    markup::lemma_attribute(" "@, "width"@, w, r2);
    markup::lemma_attribute(" "@, "height"@, h, r3);
    markup::lemma_attribute(" "@, "viewBox"@, view, r4);
}

#[verifier::rlimit(40)]
proof fn lemma_page_text(p: CanvasView)
    ensures
        ({
            let w = p.width.text;
            let h = p.height.text;
            let view = "0 0 "@ + w + " "@ + h;
            let r4 = ">\n"@ + svg::svg_elements(p.elements) + "</svg>"@;
            let r3 = " "@ + "viewBox"@ + "=\""@ + view + "\""@ + r4;
            let r2 = " "@ + "height"@ + "=\""@ + h + "\""@ + r3;
            let r1 = " "@ + "width"@ + "=\""@ + w + "\""@ + r2;
            svg::svg_page(p) == "<svg "@ + "xmlns"@ + "=\""@ + "http://www.w3.org/2000/svg"@ + "\""@
                + r1
        }),
{
    reveal_strlit("<svg ");
    reveal_strlit("xmlns");
    reveal_strlit("http://www.w3.org/2000/svg");
    reveal_strlit("=\"");
    reveal_strlit("\"");
    reveal_strlit(" ");
    reveal_strlit("width");
    reveal_strlit("height");
    reveal_strlit("viewBox");
    reveal_strlit("0 0 ");
    reveal_strlit(">\n");
    reveal_strlit("<svg xmlns=\"http://www.w3.org/2000/svg\" width=\"");
    reveal_strlit("\" height=\"");
    reveal_strlit("\" viewBox=\"0 0 ");
    reveal_strlit("\">\n");
    let w = p.width.text;
    let h = p.height.text;
    let view = "0 0 "@ + w + " "@ + h;
    let r4 = ">\n"@ + svg::svg_elements(p.elements) + "</svg>"@;
    let r3 = " "@ + "viewBox"@ + "=\""@ + view + "\""@ + r4;
    let r2 = " "@ + "height"@ + "=\""@ + h + "\""@ + r3;
    let r1 = " "@ + "width"@ + "=\""@ + w + "\""@ + r2;
    assert(svg::svg_page(p) =~= "<svg "@ + "xmlns"@ + "=\""@ + "http://www.w3.org/2000/svg"@ + "\""@
        + r1);
}

proof fn lemma_page_parts(p: CanvasView)
    requires
        num::is_written(p.width.text),
        num::is_written(p.height.text),
    ensures
        is_lead("<svg "@),
        is_lead(" "@),
        !"xmlns"@.contains('"') && !"xmlns"@.contains(' '),
        !"width"@.contains('"') && !"width"@.contains(' '),
        !"height"@.contains('"') && !"height"@.contains(' '),
        !"viewBox"@.contains('"') && !"viewBox"@.contains(' '),
        !"http://www.w3.org/2000/svg"@.contains('"'),
        !p.width.text.contains('"'),
        !p.height.text.contains('"'),
        !("0 0 "@ + p.width.text + " "@ + p.height.text).contains('"'),
{
    reveal_strlit("<svg ");
    reveal_strlit("xmlns");
    reveal_strlit("http://www.w3.org/2000/svg");
    reveal_strlit(" ");
    reveal_strlit("viewBox");
    reveal_strlit("0 0 ");
    lemma_names();
    num::lemma_written(p.width.text, '"');
    num::lemma_written(p.height.text, '"');
    lemma_avoids("0 0 "@, p.width.text, '"');
    lemma_avoids("0 0 "@ + p.width.text, " "@, '"');
    lemma_avoids("0 0 "@ + p.width.text + " "@, p.height.text, '"');
}

/// The elements of a page are drawn in their order, each as it would be alone.
pub proof fn law_elements_are_drawn_in_order(a: Seq<ElementView>, b: Seq<ElementView>)
    ensures
        svg::svg_elements(a + b) == svg::svg_elements(a) + svg::svg_elements(b),
    decreases b.len(),
{
    if b.len() == 0 {
        assert(a + b =~= a);
        assert(svg::svg_elements(a) + svg::svg_elements(b) =~= svg::svg_elements(a));
    } else {
        law_elements_are_drawn_in_order(a, b.drop_last());
        assert((a + b).drop_last() =~= a + b.drop_last());
        assert((a + b).last() == b.last());
        assert(svg::svg_elements(a + b) =~= svg::svg_elements(a) + svg::svg_elements(b));
    }
}

/// The page in HTML shows the SVG, and its title is the page's name, escaped.
pub proof fn law_html_shows_the_svg(p: CanvasView)
    ensures
        text::occurs(svg::html_page(p), "<body>"@ + svg::svg_page(p) + "</body>"@),
        text::occurs(svg::html_page(p), "<title>"@ + util::xml_escaped(p.name) + "</title>"@),
{
    reveal_strlit("<body>");
    reveal_strlit("</body>");
    reveal_strlit("</body></html>");
    reveal_strlit("<title>");
    reveal_strlit("</title>");
    reveal_strlit("<!DOCTYPE html>\n<html><head><meta charset=\"utf-8\"><title>");
    reveal_strlit(
        "</title><style>body{margin:0;display:flex;justify-content:center;align-items:center;min-height:100vh;background:#f5f5f5;}</style></head>\n<body>",
    );
    let s = svg::html_page(p);
    let body = "<body>"@ + svg::svg_page(p) + "</body>"@;
    let i = s.len() - "</body></html>"@.len() - svg::svg_page(p).len() - "<body>"@.len();
    assert(s.subrange(i, i + body.len()) =~= body);
    assert(text::occurs_at(s, body, i));
    let title = "<title>"@ + util::xml_escaped(p.name) + "</title>"@;
    let j = "<!DOCTYPE html>\n<html><head><meta charset=\"utf-8\"><title>"@.len() - "<title>"@.len();
    assert(s.subrange(j, j + title.len()) =~= title);
    assert(text::occurs_at(s, title, j));
}

/// A group draws nothing itself, and an element of an unknown kind draws nothing but is named in a
/// comment.
pub proof fn law_other_kinds_draw_nothing(e: ElementView)
    requires
        e.kind != "rect"@ && e.kind != "circle"@ && e.kind != "text"@ && e.kind != "image"@,
    ensures
        "<!-- "@.is_prefix_of(svg::svg_element(e)),
        " -->\n"@.is_suffix_of(svg::svg_element(e)),
        e.kind != "group"@ ==> text::occurs(svg::svg_element(e), util::xml_escaped(e.kind)),
{
    reveal_strlit("<!-- ");
    reveal_strlit(" -->\n");
    reveal_strlit("<!-- group -->\n");
    reveal_strlit("<!-- 未知元素类型 ");
    let s = svg::svg_element(e);
    let k = util::xml_escaped(e.kind);
    assert("<!-- "@ =~= s.subrange(0, 5));
    assert(" -->\n"@ =~= s.subrange(s.len() - 5, s.len() as int));
    if e.kind != "group"@ {
        text::lemma_occurs_between("<!-- 未知元素类型 "@, k, " -->\n"@);
    }
}

} // verus!
