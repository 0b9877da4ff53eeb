//! What is drawn on a PDF page, operation by operation. Where an operation needs coordinates, it
//! names the element they are worked out from.

use vstd::prelude::*;
use vstd::string::*;

use crate::canvas::clone_opt_num;
use crate::css;
use crate::css::parse_hex_color;
use crate::export::{CanvasElement, CanvasPage, ElementView};
use crate::num;
use crate::num::{Num, NumView};
use crate::text;
use crate::text::{chars_of, position, same};

verus! {

/// A color.
#[derive(Debug, Clone, Copy, PartialEq, Eq, Structural)]
pub struct Rgb {
    pub r: u8,
    pub g: u8,
    pub b: u8,
}

/// How a shape is painted.
#[derive(Debug, Clone, Copy, PartialEq, Eq, Structural)]
pub enum PaintMode {
    Fill,
    Stroke,
    FillStroke,
}

/// One operation of drawing.
#[derive(Debug)]
pub enum PdfOp {
    SaveState,
    RestoreState,
    /// Turns what follows around the middle of the element.
    Turn(usize),
    FillColor(Rgb),
    OutlineColor(Rgb),
    OutlineThickness(Num),
    Rectangle { element: usize, mode: PaintMode },
    Circle { element: usize, mode: PaintMode },
    StartText,
    /// The embedded font or the built-in one; without a size it is twelve points.
    SetFont { embedded: bool, size: Option<Num> },
    /// Places the text at the middle of the element, turned.
    TextTurn(usize),
    /// Places the text at the corner of the element.
    TextCursor(usize),
    ShowText(String),
    EndText,
}

/// What a `PdfOp` holds.
#[verifier::ext_equal]
pub enum OpView {
    SaveState,
    RestoreState,
    Turn(int),
    FillColor(Rgb),
    OutlineColor(Rgb),
    OutlineThickness(NumView),
    Rectangle { element: int, mode: PaintMode },
    Circle { element: int, mode: PaintMode },
    StartText,
    SetFont { embedded: bool, size: Option<NumView> },
    TextTurn(int),
    TextCursor(int),
    ShowText(Seq<char>),
    EndText,
}

impl PdfOp {
    pub open spec fn view(&self) -> OpView {
        match *self {
            PdfOp::SaveState => OpView::SaveState,
            PdfOp::RestoreState => OpView::RestoreState,
            PdfOp::Turn(i) => OpView::Turn(i as int),
            PdfOp::FillColor(c) => OpView::FillColor(c),
            PdfOp::OutlineColor(c) => OpView::OutlineColor(c),
            PdfOp::OutlineThickness(n) => OpView::OutlineThickness(n@),
            PdfOp::Rectangle { element, mode } => OpView::Rectangle { element: element as int, mode },
            PdfOp::Circle { element, mode } => OpView::Circle { element: element as int, mode },
            PdfOp::StartText => OpView::StartText,
            PdfOp::SetFont { embedded, size } => OpView::SetFont {
                embedded,
                size: crate::canvas::opt_num(size),
            },
            PdfOp::TextTurn(i) => OpView::TextTurn(i as int),
            PdfOp::TextCursor(i) => OpView::TextCursor(i as int),
            PdfOp::ShowText(s) => OpView::ShowText(s@),
            PdfOp::EndText => OpView::EndText,
        }
    }
}

pub open spec fn op_views(s: Seq<PdfOp>) -> Seq<OpView> {
    s.map_values(|o: PdfOp| o@)
}

/// What is drawn on a page, and the kinds of elements that are not.
#[derive(Debug)]
pub struct PdfPlan {
    pub ops: Vec<PdfOp>,
    pub skipped: Vec<String>,
}

// ---------------------------------------------------------------------------
// What is drawn
// ---------------------------------------------------------------------------

/// The character is an ideograph, or punctuation or a full-width form that goes with them.
pub open spec fn is_cjk(c: char) -> bool {
    (0x4E00 <= c as u32 <= 0x9FFF) || (0x3400 <= c as u32 <= 0x4DBF) || (0xF900 <= c as u32
        <= 0xFAFF) || (0x3000 <= c as u32 <= 0x303F) || (0xFF00 <= c as u32 <= 0xFFEF)
}

/// The text holds such a character.
pub open spec fn has_cjk(s: Seq<char>) -> bool {
    exists|i: int| 0 <= i < s.len() && is_cjk(#[trigger] s[i])
}

/// The page has a text with such a character.
pub open spec fn page_needs_cjk(es: Seq<ElementView>) -> bool {
    exists|i: int|
        0 <= i < es.len() && (#[trigger] es[i]).kind == "text"@ && has_cjk(
            text::text_or_empty(es[i].text),
        )
}

/// The color that a text gives, where it gives one.
pub open spec fn rgb(color: Option<Seq<char>>) -> Option<Rgb> {
    match color {
        Some(s) => match css::hex_color(s) {
            Some((r, g, b)) => Some(Rgb { r: r as u8, g: g as u8, b: b as u8 }),
            None => None,
        },
        None => None,
    }
}

pub open spec fn paint_mode(fill: Option<Rgb>, stroke: Option<Rgb>) -> PaintMode {
    match (fill, stroke) {
        (Some(_), Some(_)) => PaintMode::FillStroke,
        (None, Some(_)) => PaintMode::Stroke,
        _ => PaintMode::Fill,
    }
}

/// The element is turned by an angle that is not zero.
pub open spec fn is_turned(e: ElementView) -> bool {
    e.rotation matches Some(a) && !num::equal(a.bits, num::ZERO)
}

pub open spec fn turn_ops(i: int, e: ElementView) -> Seq<OpView> {
    if is_turned(e) {
        seq![OpView::Turn(i)]
    } else {
        Seq::empty()
    }
}

pub open spec fn fill_ops(fill: Option<Rgb>) -> Seq<OpView> {
    match fill {
        Some(c) => seq![OpView::FillColor(c)],
        None => Seq::empty(),
    }
}

pub open spec fn stroke_ops(stroke: Option<Rgb>, width: Option<NumView>) -> Seq<OpView> {
    match stroke {
        Some(c) => match width {
            Some(w) => seq![OpView::OutlineColor(c), OpView::OutlineThickness(w)],
            None => seq![OpView::OutlineColor(c)],
        },
        None => Seq::empty(),
    }
}

/// What draws a shape; one with neither a fill nor an outline is not drawn.
pub open spec fn shape_ops(i: int, e: ElementView) -> Seq<OpView> {
    let fill = rgb(e.fill);
    let stroke = rgb(e.stroke);
    let mode = paint_mode(fill, stroke);
    if fill is None && stroke is None {
        Seq::empty()
    } else {
        seq![OpView::SaveState] + turn_ops(i, e) + fill_ops(fill) + stroke_ops(
            stroke,
            e.stroke_width,
        ) + seq![
            if e.kind == "rect"@ {
                OpView::Rectangle { element: i, mode }
            } else {
                OpView::Circle { element: i, mode }
            },
            OpView::RestoreState,
        ]
    }
}

/// What draws a text. Only a text that needs the embedded font is set in it.
pub open spec fn text_ops(i: int, e: ElementView, embedded: bool) -> Seq<OpView> {
    let content = text::text_or_empty(e.text);
    seq![
        OpView::StartText,
        OpView::SetFont { embedded: embedded && has_cjk(content), size: e.font_size },
        if is_turned(e) {
            OpView::TextTurn(i)
        } else {
            OpView::TextCursor(i)
        },
        OpView::ShowText(content),
        OpView::EndText,
    ]
}

/// The kind of element is a shape.
pub open spec fn is_shape(kind: Seq<char>) -> bool {
    kind == "rect"@ || kind == "circle"@
}

/// The kind of element is drawn.
pub open spec fn is_drawn(kind: Seq<char>) -> bool {
    is_shape(kind) || kind == "text"@
}

pub open spec fn element_ops(i: int, e: ElementView, embedded: bool) -> Seq<OpView> {
    if is_shape(e.kind) {
        shape_ops(i, e)
    } else if e.kind == "text"@ {
        text_ops(i, e, embedded)
    } else {
        Seq::empty()
    }
}

/// What draws a page: its elements in their order.
pub open spec fn page_ops(es: Seq<ElementView>, embedded: bool) -> Seq<OpView>
    decreases es.len(),
{
    if es.len() == 0 {
        Seq::empty()
    } else {
        page_ops(es.drop_last(), embedded) + element_ops(es.len() - 1, es.last(), embedded)
    }
}

/// The kinds that are not drawn, each once.
pub open spec fn skipped_kinds(es: Seq<ElementView>) -> Seq<Seq<char>>
    decreases es.len(),
{
    if es.len() == 0 {
        Seq::empty()
    } else {
        let rest = skipped_kinds(es.drop_last());
        if is_drawn(es.last().kind) || rest.contains(es.last().kind) {
            rest
        } else {
            rest.push(es.last().kind)
        }
    }
}

// ---------------------------------------------------------------------------
// Planning
// ---------------------------------------------------------------------------

/// Whether the text holds an ideograph, or punctuation or a full-width form that goes with them.
pub fn text_has_cjk(s: &str) -> (r: bool)
    ensures
        r == has_cjk(s@),
{
    let cs = chars_of(s);
    let mut i: usize = 0;
    while i < cs.len()
        invariant
            i <= cs@.len(),
            cs@ == s@,
            forall|k: int| 0 <= k < i ==> !is_cjk(#[trigger] s@[k]),
        decreases cs.len() - i,
    {
        let cp = cs[i] as u32;
        proof {
            assert(s@[i as int] == cs@[i as int]);
        }
        if (0x4E00 <= cp && cp <= 0x9FFF) || (0x3400 <= cp && cp <= 0x4DBF) || (0xF900 <= cp && cp
            <= 0xFAFF) || (0x3000 <= cp && cp <= 0x303F) || (0xFF00 <= cp && cp <= 0xFFEF) {
            return true;
        }
        i = i + 1;
    }
    false
}

/// Whether the page has a text that the built-in font cannot show.
pub fn page_has_cjk_text(page: &CanvasPage) -> (r: bool)
    ensures
        r == page_needs_cjk(page@.elements),
{
    let ghost views = page@.elements;
    let mut i: usize = 0;
    while i < page.elements.len()
        invariant
            i <= page.elements@.len(),
            views == page@.elements,
            forall|k: int|
                0 <= k < i ==> !((#[trigger] views[k]).kind == "text"@ && has_cjk(
                    text::text_or_empty(views[k].text),
                )),
        decreases page.elements.len() - i,
    {
        let el = &page.elements[i];
        proof {
            assert(views[i as int] == el@);
        }
        if same(el.kind.as_str(), "text") {
            match &el.text {
                Some(t) => {
                    if text_has_cjk(t.as_str()) {
                        return true;
                    }
                },
                None => {},
            }
        }
        i = i + 1;
    }
    false
}

fn color_of(color: &Option<String>) -> (r: Option<Rgb>)
    ensures
        r == rgb(text::opt_text(*color)),
{
    match color {
        Some(s) => match parse_hex_color(s.as_str()) {
            Some(c) => Some(Rgb { r: c[0], g: c[1], b: c[2] }),
            None => None,
        },
        None => None,
    }
}

fn turns(el: &CanvasElement) -> (r: bool)
    ensures
        r == is_turned(el@),
{
    match &el.rotation {
        Some(a) => !a.is_zero(),
        None => false,
    }
}

fn put(ops: &mut Vec<PdfOp>, op: PdfOp)
    ensures
        op_views(final(ops)@) == op_views(old(ops)@).push(op@),
{
    ops.push(op);
    proof {
        assert(op_views(ops@) =~= op_views(old(ops)@).push(op@));
    }
}

fn plan_stroke(ops: &mut Vec<PdfOp>, stroke: Option<Rgb>, width: &Option<Num>)
    ensures
        op_views(final(ops)@) == op_views(old(ops)@) + stroke_ops(
            stroke,
            crate::canvas::opt_num(*width),
        ),
{
    match stroke {
        Some(c) => {
            put(ops, PdfOp::OutlineColor(c));
            match width {
                Some(w) => put(ops, PdfOp::OutlineThickness(w.copy())),
                None => {},
            }
        },
        None => {},
    }
    proof {
        assert(op_views(ops@) =~= op_views(old(ops)@) + stroke_ops(
            stroke,
            crate::canvas::opt_num(*width),
        ));
    }
}

fn plan_shape(ops: &mut Vec<PdfOp>, i: usize, el: &CanvasElement)
    ensures
        op_views(final(ops)@) == op_views(old(ops)@) + shape_ops(i as int, el@),
{
    let ghost start = op_views(ops@);
    let fill = color_of(&el.fill);
    let stroke = color_of(&el.stroke);
    if fill.is_none() && stroke.is_none() {
        proof {
            assert(start + Seq::<OpView>::empty() =~= start);
        }
        return;
    }
    let mode = match (fill, stroke) {
        (Some(_), Some(_)) => PaintMode::FillStroke,
        (None, Some(_)) => PaintMode::Stroke,
        _ => PaintMode::Fill,
    };
    put(ops, PdfOp::SaveState);
    if turns(el) {
        put(ops, PdfOp::Turn(i));
    }
    proof {
        assert(op_views(ops@) =~= start + (seq![OpView::SaveState] + turn_ops(i as int, el@)));
    }
    match fill {
        Some(c) => put(ops, PdfOp::FillColor(c)),
        None => {},
    }
    proof {
        assert(op_views(ops@) =~= start + (seq![OpView::SaveState] + turn_ops(i as int, el@)
            + fill_ops(fill)));
    }
    plan_stroke(ops, stroke, &el.stroke_width);
    let ghost so_far = op_views(ops@);
    let shape = if same(el.kind.as_str(), "rect") {
        PdfOp::Rectangle { element: i, mode }
    } else {
        PdfOp::Circle { element: i, mode }
    };
    let ghost shown = shape@;
    put(ops, shape);
    put(ops, PdfOp::RestoreState);
    proof {
        assert(op_views(ops@) =~= so_far + seq![shown, OpView::RestoreState]);
        assert(op_views(ops@) =~= start + shape_ops(i as int, el@));
    }
}

fn plan_text(ops: &mut Vec<PdfOp>, i: usize, el: &CanvasElement, embedded: bool)
    ensures
        op_views(final(ops)@) == op_views(old(ops)@) + text_ops(i as int, el@, embedded),
{
    let content = match &el.text {
        Some(t) => t.clone(),
        None => String::new(),
    };
    let special = text_has_cjk(content.as_str());
    put(ops, PdfOp::StartText);
    put(ops, PdfOp::SetFont { embedded: embedded && special, size: clone_opt_num(&el.font_size) });
    if turns(el) {
        put(ops, PdfOp::TextTurn(i));
    } else {
        put(ops, PdfOp::TextCursor(i));
    }
    put(ops, PdfOp::ShowText(content));
    put(ops, PdfOp::EndText);
    proof {
        assert(op_views(ops@) =~= op_views(old(ops)@) + text_ops(i as int, el@, embedded));
    }
}

/// What is drawn on the page. `embedded` says whether a font for ideographs is at hand.
pub fn plan_pdf(page: &CanvasPage, embedded: bool) -> (r: PdfPlan)
    ensures
        op_views(r.ops@) == page_ops(page@.elements, embedded),
        text::texts(r.skipped@) == skipped_kinds(page@.elements),
{
    let ghost views = page@.elements;
    let mut ops: Vec<PdfOp> = Vec::new();
    let mut skipped: Vec<String> = Vec::new();
    proof {
        assert(op_views(ops@) =~= Seq::empty());
        assert(text::texts(skipped@) =~= Seq::empty());
    }
    let mut i: usize = 0;
    while i < page.elements.len()
        invariant
            i <= page.elements@.len(),
            views == page@.elements,
            op_views(ops@) == page_ops(views.take(i as int), embedded),
            text::texts(skipped@) == skipped_kinds(views.take(i as int)),
        decreases page.elements.len() - i,
    {
        let el = &page.elements[i];
        let kind = el.kind.as_str();
        let ghost so_far = op_views(ops@);
        let ghost named = text::texts(skipped@);
        proof {
            assert(views[i as int] == el@);
            text::lemma_take_step(views, i as int);
            assert(so_far + Seq::<OpView>::empty() =~= so_far);
        }
        if same(kind, "rect") || same(kind, "circle") {
            plan_shape(&mut ops, i, el);
        } else if same(kind, "text") {
            plan_text(&mut ops, i, el, embedded);
        } else {
            match position(&skipped, kind) {
                Some(k) => {
                    proof {
                        assert(named[k as int] == el@.kind);
                    }
                },
                None => {
                    skipped.push(el.kind.clone());
                    proof {
                        assert(!named.contains(el@.kind));
                        assert(text::texts(skipped@) =~= named.push(el@.kind));
                    }
                },
            }
        }
        i = i + 1;
    }
    proof {
        text::lemma_take_all(views);
    }
    PdfPlan { ops, skipped }
}

// ---------------------------------------------------------------------------
// Laws
// ---------------------------------------------------------------------------

/// How deep the saved states are nested after the operations; below zero nothing is saved.
pub open spec fn saved(ops: Seq<OpView>) -> int
    decreases ops.len(),
{
    if ops.len() == 0 {
        0
    } else {
        saved(ops.drop_last()) + (match ops.last() {
            OpView::SaveState => 1int,
            OpView::RestoreState => -1int,
            _ => 0int,
        })
    }
}

proof fn lemma_saved_join(a: Seq<OpView>, b: Seq<OpView>)
    ensures
        saved(a + b) == saved(a) + saved(b),
    decreases b.len(),
{
    if b.len() == 0 {
        assert(a + b =~= a);
    } else {
        lemma_saved_join(a, b.drop_last());
        assert((a + b).drop_last() =~= a + b.drop_last());
    }
}

proof fn lemma_none_saved(ops: Seq<OpView>)
    requires
        forall|i: int| 0 <= i < ops.len() ==> !(#[trigger] ops[i] is SaveState) && !(
        ops[i] is RestoreState),
    ensures
        saved(ops) == 0,
    decreases ops.len(),
{
    if ops.len() > 0 {
        lemma_none_saved(ops.drop_last());
    }
}

proof fn lemma_element_balanced(i: int, e: ElementView, embedded: bool)
    ensures
        saved(element_ops(i, e, embedded)) == 0,
{
    let fill = rgb(e.fill);
    let stroke = rgb(e.stroke);
    if is_shape(e.kind) && !(fill is None && stroke is None) {
        let open = seq![OpView::SaveState];
        let turn = turn_ops(i, e);
        let paint = fill_ops(fill);
        let line = stroke_ops(stroke, e.stroke_width);
        let all = shape_ops(i, e);
        let close = all.skip(all.len() - 2);
        assert(all =~= open + turn + paint + line + close);
        lemma_none_saved(turn);
        lemma_none_saved(paint);
        lemma_none_saved(line);
        lemma_saved_join(open, turn);
        lemma_saved_join(open + turn, paint);
        lemma_saved_join(open + turn + paint, line);
        lemma_saved_join(open + turn + paint + line, close);
        assert(open.drop_last() =~= Seq::empty());
        assert(saved(open) == 1) by {
            reveal_with_fuel(saved, 2);
        }
        assert(close.drop_last() =~= seq![close[0]]);
        assert(seq![close[0]].drop_last() =~= Seq::empty());
        assert(saved(close) == -1) by {
            reveal_with_fuel(saved, 3);
        }
    } else if e.kind == "text"@ && !is_shape(e.kind) {
        lemma_none_saved(text_ops(i, e, embedded));
    }
}

/// Every state that is saved is restored, so that no element is drawn with the colors or the
/// rotation of another.
pub proof fn law_states_are_restored(es: Seq<ElementView>, embedded: bool)
    ensures
        saved(page_ops(es, embedded)) == 0,
    decreases es.len(),
{
    if es.len() > 0 {
        law_states_are_restored(es.drop_last(), embedded);
        lemma_element_balanced(es.len() - 1, es.last(), embedded);
        lemma_saved_join(
            page_ops(es.drop_last(), embedded),
            element_ops(es.len() - 1, es.last(), embedded),
        );
    }
}

proof fn lemma_ops_contain(es: Seq<ElementView>, embedded: bool, i: int, op: OpView)
    requires
        0 <= i < es.len(),
        element_ops(i, es[i], embedded).contains(op),
    ensures
        page_ops(es, embedded).contains(op),
    decreases es.len(),
{
    let front = page_ops(es.drop_last(), embedded);
    let back = element_ops(es.len() - 1, es.last(), embedded);
    if i == es.len() - 1 {
        let k = choose|k: int| 0 <= k < back.len() && back[k] == op;
        assert((front + back)[front.len() + k] == op);
    } else {
        lemma_ops_contain(es.drop_last(), embedded, i, op);
        let k = choose|k: int| 0 <= k < front.len() && front[k] == op;
        assert((front + back)[k] == op);
    }
}

/// A rectangle or a circle with a color is drawn, and a text is shown: a page with such elements
/// is not blank.
pub proof fn law_elements_are_drawn(es: Seq<ElementView>, embedded: bool, i: int)
    requires
        0 <= i < es.len(),
    ensures
        is_shape(es[i].kind) && (rgb(es[i].fill) is Some || rgb(es[i].stroke) is Some) ==> ({
            let mode = paint_mode(rgb(es[i].fill), rgb(es[i].stroke));
            page_ops(es, embedded).contains(
                if es[i].kind == "rect"@ {
                    OpView::Rectangle { element: i, mode }
                } else {
                    OpView::Circle { element: i, mode }
                },
            )
        }),
        es[i].kind == "text"@ ==> page_ops(es, embedded).contains(
            OpView::ShowText(text::text_or_empty(es[i].text)),
        ),
{
    let e = es[i];
    reveal_strlit("rect");
    reveal_strlit("circle");
    reveal_strlit("text");
    assert("text"@[0] != "rect"@[0] && "text"@[0] != "circle"@[0]);
    if is_shape(e.kind) && (rgb(e.fill) is Some || rgb(e.stroke) is Some) {
        let ops = shape_ops(i, e);
        lemma_ops_contain(es, embedded, i, ops[ops.len() - 2]);
    } else if e.kind == "text"@ {
        let ops = text_ops(i, e, embedded);
        lemma_ops_contain(es, embedded, i, ops[3]);
    }
}

/// Nothing is left out in silence: every kind that is not drawn is named, once.
pub proof fn law_left_out_kinds_are_named(es: Seq<ElementView>)
    ensures
        forall|i: int|
            0 <= i < es.len() && !is_drawn((#[trigger] es[i]).kind) ==> skipped_kinds(es).contains(
                es[i].kind,
            ),
        forall|k: int|
            0 <= k < skipped_kinds(es).len() ==> !is_drawn(#[trigger] skipped_kinds(es)[k]),
        skipped_kinds(es).no_duplicates(),
    decreases es.len(),
{
    if es.len() > 0 {
        let front = es.drop_last();
        law_left_out_kinds_are_named(front);
        let rest = skipped_kinds(front);
        let all = skipped_kinds(es);
        assert forall|i: int| 0 <= i < es.len() && !is_drawn((#[trigger] es[i]).kind) implies
            all.contains(es[i].kind) by {
            if i < es.len() - 1 {
                assert(front[i] == es[i]);
                let k = choose|k: int| 0 <= k < rest.len() && rest[k] == es[i].kind;
                assert(all[k] == es[i].kind);
            } else if !rest.contains(es[i].kind) {
                assert(all[rest.len() as int] == es[i].kind);
            }
        }
    }
}

/// A shape is drawn in its own colors and no others: a fill where the fill is a color, an outline
/// where the stroke is one, as thick as is said.
pub proof fn law_shape_has_its_colors(i: int, e: ElementView, op: OpView)
    requires
        is_shape(e.kind),
    ensures
        ({
            let ops = element_ops(i, e, false);
            let drawn = rgb(e.fill) is Some || rgb(e.stroke) is Some;
            &&& ops.len() == 0 <==> !drawn
            &&& op matches OpView::FillColor(c) ==> (ops.contains(op) <==> rgb(e.fill) == Some(c))
            &&& op matches OpView::OutlineColor(c) ==> (ops.contains(op) <==> rgb(e.stroke) == Some(
                c,
            ))
            &&& op matches OpView::OutlineThickness(w) ==> (ops.contains(op) <==> rgb(
                e.stroke,
            ) is Some && e.stroke_width == Some(w))
            &&& op matches OpView::Turn(k) ==> (ops.contains(op) <==> k == i && drawn && is_turned(e))
            &&& op matches OpView::Rectangle { element, mode } ==> (ops.contains(op) <==> element
                == i && drawn && e.kind == "rect"@ && mode == paint_mode(
                rgb(e.fill),
                rgb(e.stroke),
            ))
            &&& op matches OpView::Circle { element, mode } ==> (ops.contains(op) <==> element == i
                && drawn && e.kind == "circle"@ && mode == paint_mode(rgb(e.fill), rgb(e.stroke)))
        }),
{
    reveal_strlit("rect");
    reveal_strlit("circle");
    assert("rect"@[0] != "circle"@[0]);
    let ops = element_ops(i, e, false);
    let fill = rgb(e.fill);
    let stroke = rgb(e.stroke);
    if fill is Some || stroke is Some {
        let a = turn_ops(i, e);
        let b = fill_ops(fill);
        let c = stroke_ops(stroke, e.stroke_width);
        let start = seq![OpView::SaveState];
        let end = seq![ops[ops.len() - 2], OpView::RestoreState];
        assert(ops =~= start + a + b + c + end);
        lemma_five_parts(start, a, b, c, end, op);
        assert(start.contains(op) <==> op == start[0]) by {
            assert(start[0] == OpView::SaveState);
        }
        assert(end.contains(op) <==> op == end[0] || op == end[1]) by {
            assert(end[0] == ops[ops.len() - 2] && end[1] == OpView::RestoreState);
        }
        assert(is_turned(e) ==> a[0] == OpView::Turn(i));
        if let Some(f) = fill {
            assert(b[0] == OpView::FillColor(f));
        }
        if let Some(s) = stroke {
            assert(c[0] == OpView::OutlineColor(s));
            if let Some(w) = e.stroke_width {
                assert(c[1] == OpView::OutlineThickness(w));
            }
        }
    }
}

proof fn lemma_five_parts(
    a: Seq<OpView>,
    b: Seq<OpView>,
    c: Seq<OpView>,
    d: Seq<OpView>,
    e: Seq<OpView>,
    op: OpView,
)
    ensures
        (a + b + c + d + e).contains(op) <==> a.contains(op) || b.contains(op) || c.contains(op)
            || d.contains(op) || e.contains(op),
{
    lemma_contains_join(a, b, op);
    lemma_contains_join(a + b, c, op);
    lemma_contains_join(a + b + c, d, op);
    lemma_contains_join(a + b + c + d, e, op);
}

proof fn lemma_contains_join(a: Seq<OpView>, b: Seq<OpView>, op: OpView)
    ensures
        (a + b).contains(op) <==> a.contains(op) || b.contains(op),
{
    let s = a + b;
    if s.contains(op) {
        let i = choose|i: int| 0 <= i < s.len() && s[i] == op;
        if i < a.len() {
            assert(a[i] == op);
        } else {
            assert(b[i - a.len()] == op);
        }
    }
    if a.contains(op) {
        let i = choose|i: int| 0 <= i < a.len() && a[i] == op;
        assert(s[i] == op);
    }
    if b.contains(op) {
        let i = choose|i: int| 0 <= i < b.len() && b[i] == op;
        assert(s[a.len() + i] == op);
    }
}

/// Whatever draws a shape stands between saving and restoring the state, and the shape itself
/// comes last in between.
pub proof fn law_shape_stands_for_itself(i: int, e: ElementView)
    requires
        is_shape(e.kind),
        rgb(e.fill) is Some || rgb(e.stroke) is Some,
    ensures
        ({
            let ops = element_ops(i, e, false);
            &&& ops[0] == OpView::SaveState
            &&& ops.last() == OpView::RestoreState
            &&& ops[ops.len() - 2] is Rectangle || ops[ops.len() - 2] is Circle
        }),
{
}

/// A shape is filled where it has a fill and outlined where it has an outline.
pub proof fn law_shape_is_painted_as_colored(fill: Option<Rgb>, stroke: Option<Rgb>)
    requires
        fill is Some || stroke is Some,
    ensures
        fill is Some && stroke is Some <==> paint_mode(fill, stroke) == PaintMode::FillStroke,
        fill is Some && stroke is None <==> paint_mode(fill, stroke) == PaintMode::Fill,
        fill is None && stroke is Some <==> paint_mode(fill, stroke) == PaintMode::Stroke,
{
}

/// The channels of a color are those of its hexadecimal digits, in the same order.
pub proof fn law_color_keeps_its_channels(color: Seq<char>)
    ensures
        match (rgb(Some(color)), css::hex_color(color)) {
            (Some(c), Some((r, g, b))) => 0 <= r <= 255 && 0 <= g <= 255 && 0 <= b <= 255 ==> c.r
                == r && c.g == g && c.b == b,
            (None, None) => true,
            _ => false,
        },
{
}

/// A text is set in its own size, at its own place, turned where it is turned, and shows its own
/// text; it uses the embedded font only where there is one and the text needs it.
pub proof fn law_text_is_set_and_shown(i: int, e: ElementView, embedded: bool)
    requires
        e.kind == "text"@,
    ensures
        ({
            let ops = element_ops(i, e, embedded);
            let content = text::text_or_empty(e.text);
            &&& ops.len() == 5
            &&& ops[0] == OpView::StartText && ops[4] == OpView::EndText
            &&& ops[1] matches OpView::SetFont { embedded: special, size } && size == e.font_size && (
            special <==> embedded && has_cjk(content))
            &&& is_turned(e) ==> ops[2] == OpView::TextTurn(i)
            &&& !is_turned(e) ==> ops[2] == OpView::TextCursor(i)
            &&& ops[3] == OpView::ShowText(content)
        }),
{
    reveal_strlit("rect");
    reveal_strlit("circle");
    reveal_strlit("text");
    assert("text"@[0] != "rect"@[0] && "text"@[0] != "circle"@[0]);
}

/// What comes first is drawn first: later elements change nothing in front of them.
pub proof fn law_elements_are_drawn_in_order(es: Seq<ElementView>, e: ElementView, embedded: bool)
    ensures
        page_ops(es.push(e), embedded) == page_ops(es, embedded) + element_ops(
            es.len() as int,
            e,
            embedded,
        ),
{
    assert(es.push(e).drop_last() =~= es);
}

/// Ideographs need the embedded font, and Latin text does not.
pub proof fn law_latin_text_needs_no_font(s: Seq<char>, t: Seq<char>, c: char)
    requires
        forall|i: int| 0 <= i < s.len() ==> (#[trigger] s[i]) as u32 <= 0x2FFF,
        0x4E00 <= c as u32 <= 0x9FFF,
    ensures
        !has_cjk(s),
        has_cjk(s + seq![c] + t),
{
    let all = s + seq![c] + t;
    assert(is_cjk(all[s.len() as int]));
}

/// A page needs the embedded font exactly where one of its texts does; what other elements hold does
/// not count.
pub proof fn law_texts_decide_on_the_font(es: Seq<ElementView>, e: ElementView)
    ensures
        page_needs_cjk(es.push(e)) <==> page_needs_cjk(es) || (e.kind == "text"@ && has_cjk(
            text::text_or_empty(e.text),
        )),
        !page_needs_cjk(Seq::empty()),
{
    let all = es.push(e);
    if page_needs_cjk(all) {
        let i = choose|i: int|
            0 <= i < all.len() && (#[trigger] all[i]).kind == "text"@ && has_cjk(
                text::text_or_empty(all[i].text),
            );
        if i < es.len() {
            assert(es[i] == all[i]);
        }
    }
    if page_needs_cjk(es) {
        let i = choose|i: int|
            0 <= i < es.len() && (#[trigger] es[i]).kind == "text"@ && has_cjk(
                text::text_or_empty(es[i].text),
            );
        assert(all[i] == es[i]);
    }
    assert(all[es.len() as int] == e);
}

} // verus!
