//! What the styles and elements of HTML say, read back.

use vstd::prelude::*;

use crate::canvas::{
    AlignItems, FlexDirection, FlexView, FlexWrap, GridView, JustifyContent, LayoutView, NodeKind,
    NodeView, PageView, TrackView,
};
use crate::codegen;
use crate::codegen::html;
use crate::markup;
use crate::num;
use crate::num::NumView;
use crate::text;

verus! {

// ---------------------------------------------------------------------------
// What a style declares
// ---------------------------------------------------------------------------

/// What a declaration of `property` adds to the values under `name`.
spec fn own(property: Seq<char>, value: Option<Seq<char>>, name: Seq<char>) -> Seq<Seq<char>> {
    match value {
        Some(v) => if property == name {
            seq![v]
        } else {
            Seq::empty()
        },
        None => Seq::empty(),
    }
}

/// The value, where the condition holds.
spec fn when(c: bool, v: Seq<char>) -> Option<Seq<char>> {
    if c {
        Some(v)
    } else {
        None
    }
}

proof fn lemma_properties()
    ensures
        "position"@.len() == 8,
        "left"@.len() == 4,
        "top"@.len() == 3,
        "width"@.len() == 5,
        "height"@.len() == 6,
        "background"@.len() == 10,
        "border"@.len() == 6,
        "border-radius"@.len() == 13,
        "opacity"@.len() == 7,
        "transform"@.len() == 9,
        "z-index"@.len() == 7,
        "font-size"@.len() == 9,
        "font-family"@.len() == 11,
        "display"@.len() == 7,
        "flex-direction"@.len() == 14,
        "gap"@.len() == 3,
        "align-items"@.len() == 11,
        "justify-content"@.len() == 15,
        "flex-wrap"@.len() == 9,
        "padding"@.len() == 7,
        "grid-template-columns"@.len() == 21,
        "grid-template-rows"@.len() == 18,
        "top"@ != "gap"@,
        "height"@ != "border"@,
        "opacity"@ != "z-index"@,
        "opacity"@ != "display"@,
        "opacity"@ != "padding"@,
        "transform"@ != "font-size"@,
        "transform"@ != "flex-wrap"@,
        "z-index"@ != "display"@,
        "z-index"@ != "padding"@,
        "font-size"@ != "flex-wrap"@,
        "font-family"@ != "align-items"@,
        "display"@ != "padding"@,
        !"position"@.contains(':') && !"position"@.contains(';') && !"position"@.contains('"'),
        !"left"@.contains(':') && !"left"@.contains(';') && !"left"@.contains('"'),
        !"top"@.contains(':') && !"top"@.contains(';') && !"top"@.contains('"'),
        !"width"@.contains(':') && !"width"@.contains(';') && !"width"@.contains('"'),
        !"height"@.contains(':') && !"height"@.contains(';') && !"height"@.contains('"'),
        !"background"@.contains(':')
            && !"background"@.contains(';') && !"background"@.contains('"'),
        !"border"@.contains(':') && !"border"@.contains(';') && !"border"@.contains('"'),
        !"border-radius"@.contains(':')
            && !"border-radius"@.contains(';') && !"border-radius"@.contains('"'),
        !"opacity"@.contains(':') && !"opacity"@.contains(';') && !"opacity"@.contains('"'),
        !"transform"@.contains(':') && !"transform"@.contains(';') && !"transform"@.contains('"'),
        !"z-index"@.contains(':') && !"z-index"@.contains(';') && !"z-index"@.contains('"'),
        !"font-size"@.contains(':') && !"font-size"@.contains(';') && !"font-size"@.contains('"'),
        !"font-family"@.contains(':')
            && !"font-family"@.contains(';') && !"font-family"@.contains('"'),
        !"display"@.contains(':') && !"display"@.contains(';') && !"display"@.contains('"'),
        !"flex-direction"@.contains(':')
            && !"flex-direction"@.contains(';') && !"flex-direction"@.contains('"'),
        !"gap"@.contains(':') && !"gap"@.contains(';') && !"gap"@.contains('"'),
        !"align-items"@.contains(':')
            && !"align-items"@.contains(';') && !"align-items"@.contains('"'),
        !"justify-content"@.contains(':')
            && !"justify-content"@.contains(';') && !"justify-content"@.contains('"'),
        !"flex-wrap"@.contains(':') && !"flex-wrap"@.contains(';') && !"flex-wrap"@.contains('"'),
        !"padding"@.contains(':') && !"padding"@.contains(';') && !"padding"@.contains('"'),
        !"grid-template-columns"@.contains(':')
            && !"grid-template-columns"@.contains(';') && !"grid-template-columns"@.contains('"'),
        !"grid-template-rows"@.contains(':')
            && !"grid-template-rows"@.contains(';') && !"grid-template-rows"@.contains('"'),
{
    reveal_strlit("position");
    reveal_strlit("left");
    reveal_strlit("top");
    reveal_strlit("width");
    reveal_strlit("height");
    reveal_strlit("background");
    reveal_strlit("border");
    reveal_strlit("border-radius");
    reveal_strlit("opacity");
    reveal_strlit("transform");
    reveal_strlit("z-index");
    reveal_strlit("font-size");
    reveal_strlit("font-family");
    reveal_strlit("display");
    reveal_strlit("flex-direction");
    reveal_strlit("gap");
    reveal_strlit("align-items");
    reveal_strlit("justify-content");
    reveal_strlit("flex-wrap");
    reveal_strlit("padding");
    reveal_strlit("grid-template-columns");
    reveal_strlit("grid-template-rows");
    assert("top"@[0] != "gap"@[0]);
    assert("height"@[0] != "border"@[0]);
    assert("opacity"@[0] != "z-index"@[0]);
    assert("opacity"@[0] != "display"@[0]);
    assert("opacity"@[0] != "padding"@[0]);
    assert("transform"@[0] != "font-size"@[0]);
    assert("transform"@[0] != "flex-wrap"@[0]);
    assert("z-index"@[0] != "display"@[0]);
    assert("z-index"@[0] != "padding"@[0]);
    assert("font-size"@[1] != "flex-wrap"@[1]);
    assert("font-family"@[0] != "align-items"@[0]);
    assert("display"@[0] != "padding"@[0]);
}

proof fn lemma_avoids(a: Seq<char>, b: Seq<char>, bad: char)
    requires
        !a.contains(bad),
        !b.contains(bad),
    ensures
        !(a + b).contains(bad),
{
    if (a + b).contains(bad) {
        let i = choose|i: int| 0 <= i < (a + b).len() && (a + b)[i] == bad;
        if i < a.len() {
            assert(a[i] == bad);
        } else {
            assert(b[i - a.len()] == bad);
        }
    }
}

proof fn lemma_part(part: Seq<char>, property: Seq<char>, value: Option<Seq<char>>, name: Seq<char>)
    requires
        !property.contains(':') && !property.contains(';') && !property.contains('"'),
        match value {
            Some(v) => part == property + ":"@ + v + ";"@ && !v.contains(';') && !v.contains('"'),
            None => part == Seq::<char>::empty(),
        },
    ensures
        markup::declared(part, name) == own(property, value, name),
        markup::is_closed(part),
        !part.contains('"'),
{
    reveal_strlit(":");
    reveal_strlit(";");
    match value {
        Some(v) => {
            markup::lemma_declared_one(property, v, name);
            lemma_avoids(property, ":"@, '"');
            lemma_avoids(property + ":"@, v, '"');
            lemma_avoids(property + ":"@ + v, ";"@, '"');
        },
        None => markup::lemma_declared_none(name),
    }
}

/// A length in pixels, as a value.
spec fn px(n: NumView) -> Seq<char> {
    codegen::pixels(n) + "px"@
}

proof fn lemma_px(n: NumView, bad: char)
    requires
        !num::is_number_char(bad),
    ensures
        !px(n).contains(bad),
{
    reveal_strlit("px");
    codegen::lemma_pixels_written(n);
    num::lemma_written(codegen::pixels(n), bad);
    lemma_avoids(codegen::pixels(n), "px"@, bad);
}

/// The numbers that stand in the style as they are written are written as numbers are.
pub open spec fn numbers_written(n: NodeView) -> bool {
    &&& n.style.opacity matches Some(o) ==> num::is_written(o.text)
    &&& num::is_written(n.rotation.text)
    &&& n.style.layout matches LayoutView::Grid(g) ==> tracks_written(g.columns) && tracks_written(
        g.rows,
    )
}

pub open spec fn tracks_written(ts: Seq<TrackView>) -> bool {
    forall|i: int|
        0 <= i < ts.len() ==> match #[trigger] ts[i] {
            TrackView::Flex(x) => num::is_written(x.text),
            TrackView::Percent(x) => num::is_written(x.text),
            _ => true,
        }
}

spec fn width_value(n: NodeView) -> Option<Seq<char>> {
    when(num::positive(n.w.bits), px(n.w))
}

spec fn height_value(n: NodeView) -> Option<Seq<char>> {
    when(num::positive(n.h.bits), px(n.h))
}

spec fn background_value(n: NodeView) -> Option<Seq<char>> {
    match n.style.fill {
        Some(f) => Some(codegen::safe_color(f)),
        None => None,
    }
}

spec fn border_value(n: NodeView) -> Option<Seq<char>> {
    match n.style.stroke {
        Some(s) => Some(
            (match n.style.stroke_width {
                Some(w) => px(w),
                None => "1px"@,
            }) + " solid "@ + codegen::safe_color(s),
        ),
        None => None,
    }
}

spec fn radius_value(n: NodeView) -> Option<Seq<char>> {
    match n.style.radius {
        Some(r) => Some(px(r)),
        None => None,
    }
}

spec fn opacity_value(n: NodeView) -> Option<Seq<char>> {
    match n.style.opacity {
        Some(o) => Some(o.text),
        None => None,
    }
}

spec fn transform_value(n: NodeView) -> Option<Seq<char>> {
    when(
        !num::equal(n.rotation.bits, num::ZERO),
        "rotate("@ + n.rotation.text + "deg)"@,
    )
}

spec fn depth_value(n: NodeView) -> Option<Seq<char>> {
    when(n.z_index != 0, text::signed_decimal(n.z_index as int))
}

spec fn size_value(n: NodeView) -> Option<Seq<char>> {
    match n.style.font_size {
        Some(s) => Some(px(s)),
        None => None,
    }
}

spec fn family_value(n: NodeView) -> Option<Seq<char>> {
    match n.style.font_family {
        Some(f) => Some(codegen::safe_color(f)),
        None => None,
    }
}

spec fn width_part(n: NodeView) -> Seq<char> {
    if num::positive(n.w.bits) {
        "width:"@ + codegen::pixels(n.w) + "px;"@
    } else {
        Seq::empty()
    }
}

proof fn lemma_width_part(n: NodeView, name: Seq<char>)
    requires
        numbers_written(n),
    ensures
        markup::declared(width_part(n), name) == own("width"@, width_value(n), name),
        markup::is_closed(width_part(n)),
        !width_part(n).contains('\"'),
{
    lemma_properties();
    reveal_strlit(":");
    reveal_strlit(";");
    reveal_strlit("px");
    reveal_strlit("px;");
    lemma_px(n.w, ';');
    lemma_px(n.w, '\"');
    reveal_strlit("width:");
    reveal_strlit("width");
    if let Some(v) = width_value(n) {
        assert(width_part(n) =~= "width"@ + ":"@ + v + ";"@);
    }
    lemma_part(width_part(n), "width"@, width_value(n), name);
}

spec fn height_part(n: NodeView) -> Seq<char> {
    if num::positive(n.h.bits) {
        "height:"@ + codegen::pixels(n.h) + "px;"@
    } else {
        Seq::empty()
    }
}

proof fn lemma_height_part(n: NodeView, name: Seq<char>)
    requires
        numbers_written(n),
    ensures
        markup::declared(height_part(n), name) == own("height"@, height_value(n), name),
        markup::is_closed(height_part(n)),
        !height_part(n).contains('\"'),
{
    lemma_properties();
    reveal_strlit(":");
    reveal_strlit(";");
    reveal_strlit("px");
    reveal_strlit("px;");
    lemma_px(n.h, ';');
    lemma_px(n.h, '\"');
    reveal_strlit("height:");
    reveal_strlit("height");
    if let Some(v) = height_value(n) {
        assert(height_part(n) =~= "height"@ + ":"@ + v + ";"@);
    }
    lemma_part(height_part(n), "height"@, height_value(n), name);
}

spec fn background_part(n: NodeView) -> Seq<char> {
    match n.style.fill {
        Some(fill) => "background:"@ + codegen::safe_color(fill) + ";"@,
        None => Seq::empty(),
    }
}

proof fn lemma_background_part(n: NodeView, name: Seq<char>)
    requires
        numbers_written(n),
    ensures
        markup::declared(background_part(n), name) == own("background"@, background_value(n), name),
        markup::is_closed(background_part(n)),
        !background_part(n).contains('\"'),
{
    lemma_properties();
    reveal_strlit(":");
    reveal_strlit(";");
    reveal_strlit("px");
    reveal_strlit("px;");
    if let Some(f) = n.style.fill {
        codegen::lemma_safe_color(f, ';');
    codegen::lemma_safe_color(f, '\"');
    }
    reveal_strlit("background:");
    reveal_strlit("background");
    if let Some(v) = background_value(n) {
        assert(background_part(n) =~= "background"@ + ":"@ + v + ";"@);
    }
    lemma_part(background_part(n), "background"@, background_value(n), name);
}

spec fn border_part(n: NodeView) -> Seq<char> {
    html::border_style(n)
}

proof fn lemma_border_part(n: NodeView, name: Seq<char>)
    requires
        numbers_written(n),
    ensures
        markup::declared(border_part(n), name) == own("border"@, border_value(n), name),
        markup::is_closed(border_part(n)),
        !border_part(n).contains('\"'),
{
    lemma_properties();
    reveal_strlit(":");
    reveal_strlit(";");
    reveal_strlit("px");
    reveal_strlit("px;");
    lemma_border(n);
    lemma_part(border_part(n), "border"@, border_value(n), name);
}

spec fn radius_part(n: NodeView) -> Seq<char> {
    match n.style.radius {
        Some(r) => "border-radius:"@ + codegen::pixels(r) + "px;"@,
        None => Seq::empty(),
    }
}

proof fn lemma_radius_part(n: NodeView, name: Seq<char>)
    requires
        numbers_written(n),
    ensures
        markup::declared(radius_part(n), name) == own("border-radius"@, radius_value(n), name),
        markup::is_closed(radius_part(n)),
        !radius_part(n).contains('\"'),
{
    lemma_properties();
    reveal_strlit(":");
    reveal_strlit(";");
    reveal_strlit("px");
    reveal_strlit("px;");
    if let Some(r) = n.style.radius {
        lemma_px(r, ';');
    lemma_px(r, '\"');
    }
    reveal_strlit("border-radius:");
    reveal_strlit("border-radius");
    if let Some(v) = radius_value(n) {
        assert(radius_part(n) =~= "border-radius"@ + ":"@ + v + ";"@);
    }
    lemma_part(radius_part(n), "border-radius"@, radius_value(n), name);
}

spec fn opacity_part(n: NodeView) -> Seq<char> {
    match n.style.opacity {
        Some(o) => "opacity:"@ + o.text + ";"@,
        None => Seq::empty(),
    }
}

proof fn lemma_opacity_part(n: NodeView, name: Seq<char>)
    requires
        numbers_written(n),
    ensures
        markup::declared(opacity_part(n), name) == own("opacity"@, opacity_value(n), name),
        markup::is_closed(opacity_part(n)),
        !opacity_part(n).contains('\"'),
{
    lemma_properties();
    reveal_strlit(":");
    reveal_strlit(";");
    reveal_strlit("px");
    reveal_strlit("px;");
    if let Some(o) = n.style.opacity {
        num::lemma_written(o.text, ';');
    num::lemma_written(o.text, '\"');
    }
    reveal_strlit("opacity:");
    reveal_strlit("opacity");
    if let Some(v) = opacity_value(n) {
        assert(opacity_part(n) =~= "opacity"@ + ":"@ + v + ";"@);
    }
    lemma_part(opacity_part(n), "opacity"@, opacity_value(n), name);
}

spec fn transform_part(n: NodeView) -> Seq<char> {
    if num::equal(n.rotation.bits, num::ZERO) {
        Seq::empty()
    } else {
        "transform:rotate("@ + n.rotation.text + "deg);"@
    }
}

proof fn lemma_transform_part(n: NodeView, name: Seq<char>)
    requires
        numbers_written(n),
    ensures
        markup::declared(transform_part(n), name) == own("transform"@, transform_value(n), name),
        markup::is_closed(transform_part(n)),
        !transform_part(n).contains('\"'),
{
    lemma_properties();
    reveal_strlit(":");
    reveal_strlit(";");
    reveal_strlit("px");
    reveal_strlit("px;");
    lemma_rotate(n.rotation.text);
    lemma_part(transform_part(n), "transform"@, transform_value(n), name);
}

spec fn depth_part(n: NodeView) -> Seq<char> {
    if n.z_index != 0 {
        "z-index:"@ + text::signed_decimal(n.z_index as int) + ";"@
    } else {
        Seq::empty()
    }
}

proof fn lemma_depth_part(n: NodeView, name: Seq<char>)
    requires
        numbers_written(n),
    ensures
        markup::declared(depth_part(n), name) == own("z-index"@, depth_value(n), name),
        markup::is_closed(depth_part(n)),
        !depth_part(n).contains('\"'),
{
    lemma_properties();
    reveal_strlit(":");
    reveal_strlit(";");
    reveal_strlit("px");
    reveal_strlit("px;");
    codegen::lemma_signed_written(n.z_index as int);
    num::lemma_written(text::signed_decimal(n.z_index as int), ';');
    num::lemma_written(text::signed_decimal(n.z_index as int), '\"');
    reveal_strlit("z-index:");
    reveal_strlit("z-index");
    if let Some(v) = depth_value(n) {
        assert(depth_part(n) =~= "z-index"@ + ":"@ + v + ";"@);
    }
    lemma_part(depth_part(n), "z-index"@, depth_value(n), name);
}

spec fn size_part(n: NodeView) -> Seq<char> {
    match n.style.font_size {
        Some(s) => "font-size:"@ + codegen::pixels(s) + "px;"@,
        None => Seq::empty(),
    }
}

proof fn lemma_size_part(n: NodeView, name: Seq<char>)
    requires
        numbers_written(n),
    ensures
        markup::declared(size_part(n), name) == own("font-size"@, size_value(n), name),
        markup::is_closed(size_part(n)),
        !size_part(n).contains('\"'),
{
    lemma_properties();
    reveal_strlit(":");
    reveal_strlit(";");
    reveal_strlit("px");
    reveal_strlit("px;");
    if let Some(s) = n.style.font_size {
        lemma_px(s, ';');
    lemma_px(s, '\"');
    }
    reveal_strlit("font-size:");
    reveal_strlit("font-size");
    if let Some(v) = size_value(n) {
        assert(size_part(n) =~= "font-size"@ + ":"@ + v + ";"@);
    }
    lemma_part(size_part(n), "font-size"@, size_value(n), name);
}

spec fn family_part(n: NodeView) -> Seq<char> {
    match n.style.font_family {
        Some(f) => "font-family:"@ + codegen::safe_color(f) + ";"@,
        None => Seq::empty(),
    }
}

proof fn lemma_family_part(n: NodeView, name: Seq<char>)
    requires
        numbers_written(n),
    ensures
        markup::declared(family_part(n), name) == own("font-family"@, family_value(n), name),
        markup::is_closed(family_part(n)),
        !family_part(n).contains('\"'),
{
    lemma_properties();
    reveal_strlit(":");
    reveal_strlit(";");
    reveal_strlit("px");
    reveal_strlit("px;");
    if let Some(f) = n.style.font_family {
        codegen::lemma_safe_color(f, ';');
    codegen::lemma_safe_color(f, '\"');
    }
    reveal_strlit("font-family:");
    reveal_strlit("font-family");
    if let Some(v) = family_value(n) {
        assert(family_part(n) =~= "font-family"@ + ":"@ + v + ";"@);
    }
    lemma_part(family_part(n), "font-family"@, family_value(n), name);
}

proof fn lemma_style(n: NodeView, name: Seq<char>)
    requires
        numbers_written(n),
    ensures
        markup::declared(html::inline_style(n), name) == markup::declared(
            html::layout_style(n),
            name,
        ) + own("width"@, width_value(n), name) + own("height"@, height_value(n), name) + own(
            "background"@,
            background_value(n),
            name,
        ) + own("border"@, border_value(n), name) + own("border-radius"@, radius_value(n), name)
            + own("opacity"@, opacity_value(n), name) + own("transform"@, transform_value(n), name)
            + own("z-index"@, depth_value(n), name) + own("font-size"@, size_value(n), name) + own(
            "font-family"@,
            family_value(n),
            name,
        ),
        markup::is_closed(html::inline_style(n)),
        !html::inline_style(n).contains('"'),
{
    lemma_layout_closed(n);
    lemma_layout_plain(n);
    let s0 = html::layout_style(n);
    lemma_width_part(n, name);
    let s1 = s0 + width_part(n);
    markup::lemma_declared_join(s0, width_part(n), name);
    lemma_avoids(s0, width_part(n), '"');
    lemma_height_part(n, name);
    let s2 = s1 + height_part(n);
    markup::lemma_declared_join(s1, height_part(n), name);
    lemma_avoids(s1, height_part(n), '"');
    lemma_background_part(n, name);
    let s3 = s2 + background_part(n);
    markup::lemma_declared_join(s2, background_part(n), name);
    lemma_avoids(s2, background_part(n), '"');
    lemma_border_part(n, name);
    let s4 = s3 + border_part(n);
    markup::lemma_declared_join(s3, border_part(n), name);
    lemma_avoids(s3, border_part(n), '"');
    lemma_radius_part(n, name);
    let s5 = s4 + radius_part(n);
    markup::lemma_declared_join(s4, radius_part(n), name);
    lemma_avoids(s4, radius_part(n), '"');
    lemma_opacity_part(n, name);
    let s6 = s5 + opacity_part(n);
    markup::lemma_declared_join(s5, opacity_part(n), name);
    lemma_avoids(s5, opacity_part(n), '"');
    lemma_transform_part(n, name);
    let s7 = s6 + transform_part(n);
    markup::lemma_declared_join(s6, transform_part(n), name);
    lemma_avoids(s6, transform_part(n), '"');
    lemma_depth_part(n, name);
    let s8 = s7 + depth_part(n);
    markup::lemma_declared_join(s7, depth_part(n), name);
    lemma_avoids(s7, depth_part(n), '"');
    lemma_size_part(n, name);
    let s9 = s8 + size_part(n);
    markup::lemma_declared_join(s8, size_part(n), name);
    lemma_avoids(s8, size_part(n), '"');
    lemma_family_part(n, name);
    let s10 = s9 + family_part(n);
    markup::lemma_declared_join(s9, family_part(n), name);
    lemma_avoids(s9, family_part(n), '"');
    assert(html::inline_style(n) == s10);
}

proof fn lemma_border(n: NodeView)
    ensures
        match border_value(n) {
            Some(v) => html::border_style(n) == "border"@ + ":"@ + v + ";"@
                && !v.contains(';') && !v.contains('"'),
            None => html::border_style(n) == Seq::<char>::empty(),
        },
{
    reveal_strlit("border");
    reveal_strlit("border:");
    reveal_strlit(":");
    reveal_strlit(";");
    reveal_strlit("1");
    reveal_strlit("1px");
    reveal_strlit("px");
    reveal_strlit(" solid ");
    reveal_strlit("px solid ");
    if let Some(s) = n.style.stroke {
        let v = border_value(n)->0;
        codegen::lemma_safe_color(s, ';');
    codegen::lemma_safe_color(s, '\"');
        match n.style.stroke_width {
            Some(w) => {
                lemma_px(w, ';');
    lemma_px(w, '\"');
                lemma_avoids(px(w), " solid "@, ';');
    lemma_avoids(px(w), " solid "@, '\"');
                lemma_avoids(px(w) + " solid "@, codegen::safe_color(s), ';');
    lemma_avoids(px(w) + " solid "@, codegen::safe_color(s), '\"');
            },
            None => {
                lemma_avoids("1px"@, " solid "@, ';');
    lemma_avoids("1px"@, " solid "@, '\"');
                lemma_avoids("1px"@ + " solid "@, codegen::safe_color(s), ';');
    lemma_avoids("1px"@ + " solid "@, codegen::safe_color(s), '\"');
            },
        }
        assert(html::border_style(n) =~= "border"@ + ":"@ + v + ";"@);
    }
}

proof fn lemma_rotate(t: Seq<char>)
    requires
        num::is_written(t),
    ensures
        "transform:rotate("@ + t + "deg);"@ == "transform"@ + ":"@ + ("rotate("@ + t + "deg)"@)
            + ";"@,
        !("rotate("@ + t + "deg)"@).contains(';'),
        !("rotate("@ + t + "deg)"@).contains('"'),
{
    reveal_strlit("transform:rotate(");
    reveal_strlit("transform");
    reveal_strlit("rotate(");
    reveal_strlit("deg)");
    reveal_strlit("deg);");
    reveal_strlit(":");
    reveal_strlit(";");
    num::lemma_written(t, ';');
    num::lemma_written(t, '\"');
    lemma_avoids("rotate("@, t, ';');
    lemma_avoids("rotate("@, t, '\"');
    lemma_avoids("rotate("@ + t, "deg)"@, ';');
    lemma_avoids("rotate("@ + t, "deg)"@, '\"');
    assert("transform:rotate("@ + t + "deg);"@ =~= "transform"@ + ":"@ + ("rotate("@ + t
        + "deg)"@) + ";"@);
}

spec fn left_value(n: NodeView) -> Option<Seq<char>> {
    when(n.style.layout is Free, px(n.x))
}

spec fn top_value(n: NodeView) -> Option<Seq<char>> {
    when(n.style.layout is Free, px(n.y))
}

spec fn position_value(n: NodeView) -> Seq<char> {
    if n.style.layout is Free {
        "absolute"@
    } else {
        "relative"@
    }
}

/// What a container declares beside its position.
spec fn container_style(n: NodeView) -> Seq<char> {
    match n.style.layout {
        LayoutView::Free => Seq::empty(),
        LayoutView::Flex(p) => html::flex_style(p),
        LayoutView::Grid(g) => html::grid_style(g),
    }
}

proof fn lemma_layout(n: NodeView, name: Seq<char>)
    ensures
        markup::declared(html::layout_style(n), name) == own(
            "position"@,
            Some(position_value(n)),
            name,
        ) + own("left"@, left_value(n), name) + own("top"@, top_value(n), name)
            + markup::declared(container_style(n), name),
{
    lemma_properties();
    reveal_strlit("position");
    reveal_strlit("left");
    reveal_strlit("top");
    reveal_strlit("absolute");
    reveal_strlit("relative");
    reveal_strlit(":");
    reveal_strlit(";");
    reveal_strlit("px");
    reveal_strlit("px;");
    reveal_strlit("px;top:");
    reveal_strlit("position:absolute;left:");
    reveal_strlit("position:relative;");
    let p0 = "position"@ + ":"@ + position_value(n) + ";"@;
    lemma_part(p0, "position"@, Some(position_value(n)), name);
    markup::lemma_declared_none(name);
    if n.style.layout is Free {
        lemma_px(n.x, ';');
    lemma_px(n.x, '\"');
        lemma_px(n.y, ';');
    lemma_px(n.y, '\"');
        let p1 = "left"@ + ":"@ + px(n.x) + ";"@;
        let p2 = "top"@ + ":"@ + px(n.y) + ";"@;
        lemma_part(p1, "left"@, Some(px(n.x)), name);
        lemma_part(p2, "top"@, Some(px(n.y)), name);
        markup::lemma_declared_join(p0, p1, name);
    lemma_avoids(p0, p1, '"');
        markup::lemma_declared_join(p0 + p1, p2, name);
    lemma_avoids(p0 + p1, p2, '"');
        assert(html::layout_style(n) =~= p0 + p1 + p2);
        let d = own("position"@, Some(position_value(n)), name) + own("left"@, left_value(n), name)
            + own("top"@, top_value(n), name);
        assert(d + Seq::<Seq<char>>::empty() =~= d);
    } else {
        assert(html::layout_style(n) =~= p0 + container_style(n));
        markup::lemma_declared_join(p0, container_style(n), name);
        let d = own("position"@, Some(position_value(n)), name);
        assert(d + own("left"@, left_value(n), name) + own("top"@, top_value(n), name) =~= d);
    }
}

proof fn lemma_layout_plain(n: NodeView)
    requires
        numbers_written(n),
    ensures
        !html::layout_style(n).contains('"'),
{
    reveal_strlit("px;");
    reveal_strlit("px;top:");
    reveal_strlit("position:absolute;left:");
    reveal_strlit("position:relative;");
    match n.style.layout {
        LayoutView::Free => {
            codegen::lemma_pixels_written(n.x);
            codegen::lemma_pixels_written(n.y);
            num::lemma_written(codegen::pixels(n.x), '"');
            num::lemma_written(codegen::pixels(n.y), '"');
            let a = "position:absolute;left:"@ + codegen::pixels(n.x);
            let b = a + "px;top:"@;
            let c = b + codegen::pixels(n.y);
            lemma_avoids("position:absolute;left:"@, codegen::pixels(n.x), '"');
            lemma_avoids(a, "px;top:"@, '"');
            lemma_avoids(b, codegen::pixels(n.y), '"');
            lemma_avoids(c, "px;"@, '"');
        },
        LayoutView::Flex(p) => {
            lemma_flex(p, Seq::empty());
            lemma_avoids("position:relative;"@, html::flex_style(p), '"');
        },
        LayoutView::Grid(g) => {
            lemma_grid(g, Seq::empty());
            lemma_avoids("position:relative;"@, html::grid_style(g), '"');
        },
    }
}

proof fn lemma_layout_closed(n: NodeView)
    ensures
        markup::is_closed(html::layout_style(n)),
{
    reveal_strlit("px;");
    reveal_strlit("display:flex;");
    reveal_strlit("display:grid;");
    reveal_strlit("flex-wrap:nowrap;");
    reveal_strlit("flex-wrap:wrap;");
    reveal_strlit(";");
}

spec fn direction_word(d: FlexDirection) -> Seq<char> {
    match d {
        FlexDirection::Row => "row"@,
        FlexDirection::RowReverse => "row-reverse"@,
        FlexDirection::Column => "column"@,
        FlexDirection::ColumnReverse => "column-reverse"@,
    }
}

spec fn align_word(a: AlignItems) -> Seq<char> {
    match a {
        AlignItems::Start => "flex-start"@,
        AlignItems::Center => "center"@,
        AlignItems::End => "flex-end"@,
        AlignItems::Stretch => "stretch"@,
    }
}

spec fn justify_word(j: JustifyContent) -> Seq<char> {
    match j {
        JustifyContent::Start => "flex-start"@,
        JustifyContent::Center => "center"@,
        JustifyContent::End => "flex-end"@,
        JustifyContent::SpaceBetween => "space-between"@,
        JustifyContent::SpaceAround => "space-around"@,
        JustifyContent::SpaceEvenly => "space-evenly"@,
    }
}

spec fn wrap_word(w: FlexWrap) -> Seq<char> {
    match w {
        FlexWrap::NoWrap => "nowrap"@,
        FlexWrap::Wrap => "wrap"@,
    }
}

#[verifier::rlimit(40)]
proof fn lemma_words(p: FlexView)
    ensures
        html::direction_style(p.direction) == "flex-direction"@ + ":"@ + direction_word(p.direction)
            + ";"@,
        html::align_style(p.align_items) == "align-items"@ + ":"@ + align_word(p.align_items)
            + ";"@,
        html::justify_style(p.justify_content) == "justify-content"@ + ":"@ + justify_word(
            p.justify_content,
        ) + ";"@,
        html::wrap_style(p.wrap) == "flex-wrap"@ + ":"@ + wrap_word(p.wrap) + ";"@,
        !direction_word(p.direction).contains(';') && !direction_word(p.direction).contains('"'),
        !align_word(p.align_items).contains(';') && !align_word(p.align_items).contains('"'),
        !justify_word(p.justify_content).contains(';')
            && !justify_word(p.justify_content).contains('"'),
        !wrap_word(p.wrap).contains(';') && !wrap_word(p.wrap).contains('"'),
{
    reveal_strlit(":");
    reveal_strlit(";");
    reveal_strlit("flex-direction");
    reveal_strlit("align-items");
    reveal_strlit("justify-content");
    reveal_strlit("flex-wrap");
    reveal_strlit("row");
    reveal_strlit("row-reverse");
    reveal_strlit("column");
    reveal_strlit("column-reverse");
    reveal_strlit("flex-start");
    reveal_strlit("center");
    reveal_strlit("flex-end");
    reveal_strlit("stretch");
    reveal_strlit("space-between");
    reveal_strlit("space-around");
    reveal_strlit("space-evenly");
    reveal_strlit("nowrap");
    reveal_strlit("wrap");
    reveal_strlit("flex-direction:row;");
    reveal_strlit("flex-direction:row-reverse;");
    reveal_strlit("flex-direction:column;");
    reveal_strlit("flex-direction:column-reverse;");
    reveal_strlit("align-items:flex-start;");
    reveal_strlit("align-items:center;");
    reveal_strlit("align-items:flex-end;");
    reveal_strlit("align-items:stretch;");
    reveal_strlit("justify-content:flex-start;");
    reveal_strlit("justify-content:center;");
    reveal_strlit("justify-content:flex-end;");
    reveal_strlit("justify-content:space-between;");
    reveal_strlit("justify-content:space-around;");
    reveal_strlit("justify-content:space-evenly;");
    reveal_strlit("flex-wrap:nowrap;");
    reveal_strlit("flex-wrap:wrap;");
    assert(html::direction_style(p.direction) =~= "flex-direction"@ + ":"@ + direction_word(
        p.direction,
    ) + ";"@);
    assert(html::align_style(p.align_items) =~= "align-items"@ + ":"@ + align_word(p.align_items)
        + ";"@);
    assert(html::justify_style(p.justify_content) =~= "justify-content"@ + ":"@ + justify_word(
        p.justify_content,
    ) + ";"@);
    assert(html::wrap_style(p.wrap) =~= "flex-wrap"@ + ":"@ + wrap_word(p.wrap) + ";"@);
}

/// The padding, where there is any: top, right, bottom and left.
spec fn padding_value(p: FlexView) -> Option<Seq<char>> {
    when(
        num::positive(p.padding.top.bits) || num::positive(p.padding.right.bits) || num::positive(
            p.padding.bottom.bits,
        ) || num::positive(p.padding.left.bits),
        px(p.padding.top) + " "@ + px(p.padding.right) + " "@ + px(p.padding.bottom) + " "@ + px(
            p.padding.left,
        ),
    )
}

#[verifier::rlimit(40)]
proof fn lemma_flex(p: FlexView, name: Seq<char>)
    ensures
        markup::declared(html::flex_style(p), name) == own("display"@, Some("flex"@), name) + own(
            "flex-direction"@,
            Some(direction_word(p.direction)),
            name,
        ) + own("gap"@, when(num::positive(p.gap.bits), px(p.gap)), name) + own(
            "align-items"@,
            Some(align_word(p.align_items)),
            name,
        ) + own("justify-content"@, Some(justify_word(p.justify_content)), name) + own(
            "flex-wrap"@,
            Some(wrap_word(p.wrap)),
            name,
        ) + own("padding"@, padding_value(p), name),
        !html::flex_style(p).contains('"'),
{
    lemma_properties();
    lemma_words(p);
    reveal_strlit("display");
    reveal_strlit("flex");
    reveal_strlit("display:flex;");
    reveal_strlit(":");
    reveal_strlit(";");
    reveal_strlit("gap");
    reveal_strlit("gap:");
    reveal_strlit("px");
    reveal_strlit("px;");
    reveal_strlit("px ");
    reveal_strlit(" ");
    reveal_strlit("padding");
    reveal_strlit("padding:");
    let p0 = "display:flex;"@;
    assert(p0 =~= "display"@ + ":"@ + "flex"@ + ";"@);
    lemma_part(p0, "display"@, Some("flex"@), name);
    let p1 = html::direction_style(p.direction);
    lemma_part(p1, "flex-direction"@, Some(direction_word(p.direction)), name);
    let p2 = if num::positive(p.gap.bits) {
        "gap:"@ + codegen::pixels(p.gap) + "px;"@
    } else {
        Seq::empty()
    };
    lemma_px(p.gap, ';');
    lemma_px(p.gap, '\"');
    if num::positive(p.gap.bits) {
        assert(p2 =~= "gap"@ + ":"@ + px(p.gap) + ";"@);
    }
    lemma_part(p2, "gap"@, when(num::positive(p.gap.bits), px(p.gap)), name);
    let p3 = html::align_style(p.align_items);
    lemma_part(p3, "align-items"@, Some(align_word(p.align_items)), name);
    let p4 = html::justify_style(p.justify_content);
    lemma_part(p4, "justify-content"@, Some(justify_word(p.justify_content)), name);
    let p5 = html::wrap_style(p.wrap);
    lemma_part(p5, "flex-wrap"@, Some(wrap_word(p.wrap)), name);
    let p6 = if num::positive(p.padding.top.bits) || num::positive(p.padding.right.bits)
        || num::positive(p.padding.bottom.bits) || num::positive(p.padding.left.bits) {
        "padding:"@ + codegen::pixels(p.padding.top) + "px "@ + codegen::pixels(p.padding.right)
            + "px "@ + codegen::pixels(p.padding.bottom) + "px "@ + codegen::pixels(p.padding.left)
            + "px;"@
    } else {
        Seq::empty()
    };
    if let Some(v) = padding_value(p) {
        lemma_px(p.padding.top, ';');
    lemma_px(p.padding.top, '\"');
        lemma_px(p.padding.right, ';');
    lemma_px(p.padding.right, '\"');
        lemma_px(p.padding.bottom, ';');
    lemma_px(p.padding.bottom, '\"');
        lemma_px(p.padding.left, ';');
    lemma_px(p.padding.left, '\"');
        let a = px(p.padding.top) + " "@;
        let b = a + px(p.padding.right);
        let c = b + " "@;
        let d = c + px(p.padding.bottom);
        let e = d + " "@;
        lemma_avoids(px(p.padding.top), " "@, ';');
    lemma_avoids(px(p.padding.top), " "@, '\"');
        lemma_avoids(a, px(p.padding.right), ';');
    lemma_avoids(a, px(p.padding.right), '\"');
        lemma_avoids(b, " "@, ';');
    lemma_avoids(b, " "@, '\"');
        lemma_avoids(c, px(p.padding.bottom), ';');
    lemma_avoids(c, px(p.padding.bottom), '\"');
        lemma_avoids(d, " "@, ';');
    lemma_avoids(d, " "@, '\"');
        lemma_avoids(e, px(p.padding.left), ';');
    lemma_avoids(e, px(p.padding.left), '\"');
        assert(p6 =~= "padding"@ + ":"@ + v + ";"@);
    }
    lemma_part(p6, "padding"@, padding_value(p), name);
    markup::lemma_declared_join(p0, p1, name);
    lemma_avoids(p0, p1, '"');
    markup::lemma_declared_join(p0 + p1, p2, name);
    lemma_avoids(p0 + p1, p2, '"');
    markup::lemma_declared_join(p0 + p1 + p2, p3, name);
    lemma_avoids(p0 + p1 + p2, p3, '"');
    markup::lemma_declared_join(p0 + p1 + p2 + p3, p4, name);
    lemma_avoids(p0 + p1 + p2 + p3, p4, '"');
    markup::lemma_declared_join(p0 + p1 + p2 + p3 + p4, p5, name);
    lemma_avoids(p0 + p1 + p2 + p3 + p4, p5, '"');
    markup::lemma_declared_join(p0 + p1 + p2 + p3 + p4 + p5, p6, name);
    lemma_avoids(p0 + p1 + p2 + p3 + p4 + p5, p6, '"');
    assert(html::flex_style(p) == p0 + p1 + p2 + p3 + p4 + p5 + p6);
}

/// The sizes of tracks, with spaces between them.
spec fn tracks_value(ts: Seq<TrackView>) -> Seq<char> {
    text::joined(html::track_sizes(ts), " "@)
}

#[verifier::rlimit(40)]
proof fn lemma_tracks(ts: Seq<TrackView>)
    requires
        tracks_written(ts),
    ensures
        !tracks_value(ts).contains(';'),
        !tracks_value(ts).contains('"'),
    decreases ts.len(),
{
    reveal_strlit("px");
    reveal_strlit("auto");
    reveal_strlit("fr");
    reveal_strlit("%");
    reveal_strlit(" ");
    let all = html::track_sizes(ts);
    if ts.len() > 0 {
        let last = ts[ts.len() - 1];
        assert(all.last() == html::track_size(last));
        assert(!html::track_size(last).contains(';') && !html::track_size(last).contains('"')) by {
            match last {
                TrackView::Fixed(x) => {
                    lemma_px(x, ';');
                    lemma_px(x, '"');
                },
                TrackView::Auto => {},
                TrackView::Flex(x) => {
                    num::lemma_written(x.text, ';');
    num::lemma_written(x.text, '\"');
                    lemma_avoids(x.text, "fr"@, ';');
    lemma_avoids(x.text, "fr"@, '\"');
                },
                TrackView::Percent(x) => {
                    num::lemma_written(x.text, ';');
    num::lemma_written(x.text, '\"');
                    lemma_avoids(x.text, "%"@, ';');
    lemma_avoids(x.text, "%"@, '\"');
                },
            }
        }
        if ts.len() > 1 {
            let init = ts.drop_last();
            assert(tracks_written(init)) by {
                assert forall|i: int| 0 <= i < init.len() implies match #[trigger] init[i] {
                    TrackView::Flex(x) => num::is_written(x.text),
                    TrackView::Percent(x) => num::is_written(x.text),
                    _ => true,
                } by {
                    assert(init[i] == ts[i]);
                }
            }
            lemma_tracks(init);
            assert(all.drop_last() =~= html::track_sizes(init));
            lemma_avoids(tracks_value(init), " "@, ';');
    lemma_avoids(tracks_value(init), " "@, '\"');
            lemma_avoids(tracks_value(init) + " "@, all.last(), ';');
    lemma_avoids(tracks_value(init) + " "@, all.last(), '\"');
        } else {
            assert(all[0] == html::track_size(last));
        }
    }
}

spec fn grid_gap_value(g: GridView) -> Option<Seq<char>> {
    when(
        num::positive(g.column_gap.bits) || num::positive(g.row_gap.bits),
        px(g.row_gap) + " "@ + px(g.column_gap),
    )
}

#[verifier::rlimit(40)]
proof fn lemma_grid(g: GridView, name: Seq<char>)
    requires
        tracks_written(g.columns),
        tracks_written(g.rows),
    ensures
        markup::declared(html::grid_style(g), name) == own("display"@, Some("grid"@), name) + own(
            "grid-template-columns"@,
            when(g.columns.len() > 0, tracks_value(g.columns)),
            name,
        ) + own("grid-template-rows"@, when(g.rows.len() > 0, tracks_value(g.rows)), name) + own(
            "gap"@,
            grid_gap_value(g),
            name,
        ),
        !html::grid_style(g).contains('"'),
{
    lemma_properties();
    lemma_tracks(g.columns);
    lemma_tracks(g.rows);
    reveal_strlit("display");
    reveal_strlit("grid");
    reveal_strlit("display:grid;");
    reveal_strlit(":");
    reveal_strlit(";");
    reveal_strlit("gap");
    reveal_strlit("gap:");
    reveal_strlit("px");
    reveal_strlit("px;");
    reveal_strlit("px ");
    reveal_strlit(" ");
    reveal_strlit("grid-template-columns");
    reveal_strlit("grid-template-columns:");
    reveal_strlit("grid-template-rows");
    reveal_strlit("grid-template-rows:");
    let p0 = "display:grid;"@;
    assert(p0 =~= "display"@ + ":"@ + "grid"@ + ";"@);
    lemma_part(p0, "display"@, Some("grid"@), name);
    let p1 = if g.columns.len() > 0 {
        "grid-template-columns:"@ + tracks_value(g.columns) + ";"@
    } else {
        Seq::empty()
    };
    if g.columns.len() > 0 {
        assert(p1 =~= "grid-template-columns"@ + ":"@ + tracks_value(g.columns) + ";"@);
    }
    lemma_part(
        p1,
        "grid-template-columns"@,
        when(g.columns.len() > 0, tracks_value(g.columns)),
        name,
    );
    let p2 = if g.rows.len() > 0 {
        "grid-template-rows:"@ + tracks_value(g.rows) + ";"@
    } else {
        Seq::empty()
    };
    if g.rows.len() > 0 {
        assert(p2 =~= "grid-template-rows"@ + ":"@ + tracks_value(g.rows) + ";"@);
    }
    lemma_part(p2, "grid-template-rows"@, when(g.rows.len() > 0, tracks_value(g.rows)), name);
    let p3 = if num::positive(g.column_gap.bits) || num::positive(g.row_gap.bits) {
        "gap:"@ + codegen::pixels(g.row_gap) + "px "@ + codegen::pixels(g.column_gap) + "px;"@
    } else {
        Seq::empty()
    };
    if let Some(v) = grid_gap_value(g) {
        lemma_px(g.row_gap, ';');
    lemma_px(g.row_gap, '\"');
        lemma_px(g.column_gap, ';');
    lemma_px(g.column_gap, '\"');
        lemma_avoids(px(g.row_gap), " "@, ';');
    lemma_avoids(px(g.row_gap), " "@, '\"');
        lemma_avoids(px(g.row_gap) + " "@, px(g.column_gap), ';');
    lemma_avoids(px(g.row_gap) + " "@, px(g.column_gap), '\"');
        assert(p3 =~= "gap"@ + ":"@ + v + ";"@);
    }
    lemma_part(p3, "gap"@, grid_gap_value(g), name);
    markup::lemma_declared_join(p0, p1, name);
    lemma_avoids(p0, p1, '"');
    markup::lemma_declared_join(p0 + p1, p2, name);
    lemma_avoids(p0 + p1, p2, '"');
    markup::lemma_declared_join(p0 + p1 + p2, p3, name);
    lemma_avoids(p0 + p1 + p2, p3, '"');
    assert(html::grid_style(g) == p0 + p1 + p2 + p3);
}

/// No container declares what belongs to the box itself.
proof fn lemma_container(n: NodeView, name: Seq<char>)
    requires
        numbers_written(n),
        name != "display"@,
        name != "flex-direction"@,
        name != "gap"@,
        name != "align-items"@,
        name != "justify-content"@,
        name != "flex-wrap"@,
        name != "padding"@,
        name != "grid-template-columns"@,
        name != "grid-template-rows"@,
    ensures
        markup::declared(container_style(n), name) == Seq::<Seq<char>>::empty(),
{
    match n.style.layout {
        LayoutView::Free => markup::lemma_declared_none(name),
        LayoutView::Flex(p) => lemma_flex(p, name),
        LayoutView::Grid(g) => lemma_grid(g, name),
    }
    assert(markup::declared(container_style(n), name) =~= Seq::<Seq<char>>::empty());
}

// ---------------------------------------------------------------------------
// Laws
// ---------------------------------------------------------------------------

/// One value, where the condition holds.
pub open spec fn only_if(c: bool, v: Seq<char>) -> Seq<Seq<char>> {
    if c {
        seq![v]
    } else {
        Seq::empty()
    }
}

/// The style of a node declares the width and the height of its box in whole pixels, each once and
/// only where it is above zero.
pub proof fn law_style_declares_the_size(n: NodeView)
    requires
        numbers_written(n),
    ensures
        markup::declared(html::inline_style(n), "width"@) == only_if(
            num::positive(n.w.bits),
            codegen::pixels(n.w) + "px"@,
        ),
        markup::declared(html::inline_style(n), "height"@) == only_if(
            num::positive(n.h.bits),
            codegen::pixels(n.h) + "px"@,
        ),
{
    lemma_properties();
    lemma_named(n, "width"@);
    lemma_named(n, "height"@);
}

/// The style of a free node places it at its coordinates; that of a container does not.
pub proof fn law_style_declares_the_place(n: NodeView)
    requires
        numbers_written(n),
    ensures
        markup::declared(html::inline_style(n), "left"@) == only_if(
            n.style.layout is Free,
            codegen::pixels(n.x) + "px"@,
        ),
        markup::declared(html::inline_style(n), "top"@) == only_if(
            n.style.layout is Free,
            codegen::pixels(n.y) + "px"@,
        ),
        markup::declared(html::inline_style(n), "position"@) == seq![
            if n.style.layout is Free {
                "absolute"@
            } else {
                "relative"@
            },
        ],
{
    lemma_properties();
    lemma_named(n, "left"@);
    lemma_named(n, "top"@);
    lemma_named(n, "position"@);
}

/// The style declares the fill as the background and the stroke as the border, each once and only
/// where the node has it; a border without a width is one pixel wide.
pub proof fn law_style_declares_the_paint(n: NodeView)
    requires
        numbers_written(n),
    ensures
        markup::declared(html::inline_style(n), "background"@) == only_if(
            n.style.fill is Some,
            codegen::safe_color(n.style.fill->0),
        ),
        markup::declared(html::inline_style(n), "border"@) == only_if(
            n.style.stroke is Some,
            (match n.style.stroke_width {
                Some(w) => codegen::pixels(w) + "px"@,
                None => "1px"@,
            }) + " solid "@ + codegen::safe_color(n.style.stroke->0),
        ),
        markup::declared(html::inline_style(n), "opacity"@) == only_if(
            n.style.opacity is Some,
            n.style.opacity->0.text,
        ),
{
    lemma_properties();
    lemma_named(n, "background"@);
    lemma_named(n, "border"@);
    lemma_named(n, "opacity"@);
}

/// The style declares the corners, the rotation, the depth and the font, each once and only where
/// the node has it.
pub proof fn law_style_declares_the_shape(n: NodeView)
    requires
        numbers_written(n),
    ensures
        markup::declared(html::inline_style(n), "border-radius"@) == only_if(
            n.style.radius is Some,
            codegen::pixels(n.style.radius->0) + "px"@,
        ),
        markup::declared(html::inline_style(n), "transform"@) == only_if(
            !num::equal(n.rotation.bits, num::ZERO),
            "rotate("@ + n.rotation.text + "deg)"@,
        ),
        markup::declared(html::inline_style(n), "z-index"@) == only_if(
            n.z_index != 0,
            text::signed_decimal(n.z_index as int),
        ),
        markup::declared(html::inline_style(n), "font-size"@) == only_if(
            n.style.font_size is Some,
            codegen::pixels(n.style.font_size->0) + "px"@,
        ),
        markup::declared(html::inline_style(n), "font-family"@) == only_if(
            n.style.font_family is Some,
            codegen::safe_color(n.style.font_family->0),
        ),
{
    lemma_properties();
    lemma_named(n, "border-radius"@);
    lemma_named(n, "transform"@);
    lemma_named(n, "z-index"@);
    lemma_named(n, "font-size"@);
    lemma_named(n, "font-family"@);
}

proof fn lemma_named(n: NodeView, name: Seq<char>)
    requires
        numbers_written(n),
        name == "position"@ || name == "left"@ || name == "top"@ || name == "width"@ || name
            == "height"@ || name == "background"@ || name == "border"@ || name == "border-radius"@
            || name == "opacity"@ || name == "transform"@ || name == "z-index"@ || name
            == "font-size"@ || name == "font-family"@,
    ensures
        name == "position"@ ==> markup::declared(html::inline_style(n), name) == seq![
            position_value(n),
        ],
        name == "left"@ ==> markup::declared(html::inline_style(n), name) == own(
            "left"@,
            left_value(n),
            name,
        ),
        name == "top"@ ==> markup::declared(html::inline_style(n), name) == own(
            "top"@,
            top_value(n),
            name,
        ),
        name == "width"@ ==> markup::declared(html::inline_style(n), name) == own(
            "width"@,
            width_value(n),
            name,
        ),
        name == "height"@ ==> markup::declared(html::inline_style(n), name) == own(
            "height"@,
            height_value(n),
            name,
        ),
        name == "background"@ ==> markup::declared(html::inline_style(n), name) == own(
            "background"@,
            background_value(n),
            name,
        ),
        name == "border"@ ==> markup::declared(html::inline_style(n), name) == own(
            "border"@,
            border_value(n),
            name,
        ),
        name == "border-radius"@ ==> markup::declared(html::inline_style(n), name) == own(
            "border-radius"@,
            radius_value(n),
            name,
        ),
        name == "opacity"@ ==> markup::declared(html::inline_style(n), name) == own(
            "opacity"@,
            opacity_value(n),
            name,
        ),
        name == "transform"@ ==> markup::declared(html::inline_style(n), name) == own(
            "transform"@,
            transform_value(n),
            name,
        ),
        name == "z-index"@ ==> markup::declared(html::inline_style(n), name) == own(
            "z-index"@,
            depth_value(n),
            name,
        ),
        name == "font-size"@ ==> markup::declared(html::inline_style(n), name) == own(
            "font-size"@,
            size_value(n),
            name,
        ),
        name == "font-family"@ ==> markup::declared(html::inline_style(n), name) == own(
            "font-family"@,
            family_value(n),
            name,
        ),
{
    lemma_properties();
    lemma_style(n, name);
    lemma_layout(n, name);
    lemma_container(n, name);
    let d = markup::declared(html::inline_style(n), name);
    if name == "position"@ {
        assert(d =~= seq![position_value(n)]);
    } else if name == "left"@ {
        assert(d =~= own("left"@, left_value(n), name));
    } else if name == "top"@ {
        assert(d =~= own("top"@, top_value(n), name));
    } else if name == "width"@ {
        assert(d =~= own("width"@, width_value(n), name));
    } else if name == "height"@ {
        assert(d =~= own("height"@, height_value(n), name));
    } else if name == "background"@ {
        assert(d =~= own("background"@, background_value(n), name));
    } else if name == "border"@ {
        assert(d =~= own("border"@, border_value(n), name));
    } else if name == "border-radius"@ {
        assert(d =~= own("border-radius"@, radius_value(n), name));
    } else if name == "opacity"@ {
        assert(d =~= own("opacity"@, opacity_value(n), name));
    } else if name == "transform"@ {
        assert(d =~= own("transform"@, transform_value(n), name));
    } else if name == "z-index"@ {
        assert(d =~= own("z-index"@, depth_value(n), name));
    } else if name == "font-size"@ {
        assert(d =~= own("font-size"@, size_value(n), name));
    } else {
        assert(d =~= own("font-family"@, family_value(n), name));
    }
}

/// The style of a flex container declares its direction, its gap, how its items are aligned and
/// distributed, and its padding from the top clockwise.
pub proof fn law_flex_declares_its_layout(p: FlexView)
    ensures
        markup::declared(html::flex_style(p), "display"@) == seq!["flex"@],
        p.direction == FlexDirection::Row ==> markup::declared(
            html::flex_style(p),
            "flex-direction"@,
        ) == seq!["row"@],
        p.direction == FlexDirection::RowReverse ==> markup::declared(
            html::flex_style(p),
            "flex-direction"@,
        ) == seq!["row-reverse"@],
        p.direction == FlexDirection::Column ==> markup::declared(
            html::flex_style(p),
            "flex-direction"@,
        ) == seq!["column"@],
        p.direction == FlexDirection::ColumnReverse ==> markup::declared(
            html::flex_style(p),
            "flex-direction"@,
        ) == seq!["column-reverse"@],
        markup::declared(html::flex_style(p), "gap"@) == only_if(
            num::positive(p.gap.bits),
            codegen::pixels(p.gap) + "px"@,
        ),
        markup::declared(html::flex_style(p), "align-items"@) == seq![
            match p.align_items {
                AlignItems::Start => "flex-start"@,
                AlignItems::Center => "center"@,
                AlignItems::End => "flex-end"@,
                AlignItems::Stretch => "stretch"@,
            },
        ],
        markup::declared(html::flex_style(p), "justify-content"@) == seq![
            match p.justify_content {
                JustifyContent::Start => "flex-start"@,
                JustifyContent::Center => "center"@,
                JustifyContent::End => "flex-end"@,
                JustifyContent::SpaceBetween => "space-between"@,
                JustifyContent::SpaceAround => "space-around"@,
                JustifyContent::SpaceEvenly => "space-evenly"@,
            },
        ],
        markup::declared(html::flex_style(p), "flex-wrap"@) == seq![
            match p.wrap {
                FlexWrap::NoWrap => "nowrap"@,
                FlexWrap::Wrap => "wrap"@,
            },
        ],
        markup::declared(html::flex_style(p), "padding"@) == only_if(
            num::positive(p.padding.top.bits) || num::positive(p.padding.right.bits)
                || num::positive(p.padding.bottom.bits) || num::positive(p.padding.left.bits),
            codegen::pixels(p.padding.top) + "px"@ + " "@ + (codegen::pixels(p.padding.right)
                + "px"@) + " "@ + (codegen::pixels(p.padding.bottom) + "px"@) + " "@ + (
            codegen::pixels(p.padding.left) + "px"@),
        ),
{
    lemma_properties();
    lemma_flex(p, "display"@);
    assert(markup::declared(html::flex_style(p), "display"@)
        =~= own("display"@, Some("flex"@), "display"@));
    lemma_flex(p, "flex-direction"@);
    assert(markup::declared(html::flex_style(p), "flex-direction"@)
        =~= own("flex-direction"@, Some(direction_word(p.direction)), "flex-direction"@));
    lemma_flex(p, "gap"@);
    assert(markup::declared(html::flex_style(p), "gap"@)
        =~= own("gap"@, when(num::positive(p.gap.bits), px(p.gap)), "gap"@));
    lemma_flex(p, "align-items"@);
    assert(markup::declared(html::flex_style(p), "align-items"@)
        =~= own("align-items"@, Some(align_word(p.align_items)), "align-items"@));
    lemma_flex(p, "justify-content"@);
    assert(markup::declared(html::flex_style(p), "justify-content"@)
        =~= own("justify-content"@, Some(justify_word(p.justify_content)), "justify-content"@));
    lemma_flex(p, "flex-wrap"@);
    assert(markup::declared(html::flex_style(p), "flex-wrap"@)
        =~= own("flex-wrap"@, Some(wrap_word(p.wrap)), "flex-wrap"@));
    lemma_flex(p, "padding"@);
    assert(markup::declared(html::flex_style(p), "padding"@)
        =~= own("padding"@, padding_value(p), "padding"@));
}

/// The style of a grid container declares its columns, its rows, and the gaps: that between the rows
/// first.
pub proof fn law_grid_declares_its_layout(g: GridView)
    requires
        tracks_written(g.columns),
        tracks_written(g.rows),
    ensures
        markup::declared(html::grid_style(g), "display"@) == seq!["grid"@],
        markup::declared(html::grid_style(g), "grid-template-columns"@) == only_if(
            g.columns.len() > 0,
            text::joined(html::track_sizes(g.columns), " "@),
        ),
        markup::declared(html::grid_style(g), "grid-template-rows"@) == only_if(
            g.rows.len() > 0,
            text::joined(html::track_sizes(g.rows), " "@),
        ),
        markup::declared(html::grid_style(g), "gap"@) == only_if(
            num::positive(g.column_gap.bits) || num::positive(g.row_gap.bits),
            codegen::pixels(g.row_gap) + "px"@ + " "@ + (codegen::pixels(g.column_gap) + "px"@),
        ),
{
    lemma_properties();
    lemma_grid(g, "display"@);
    assert(markup::declared(html::grid_style(g), "display"@) =~= own(
        "display"@,
        Some("grid"@),
        "display"@,
    ));
    lemma_grid(g, "grid-template-columns"@);
    assert(markup::declared(html::grid_style(g), "grid-template-columns"@) =~= own(
        "grid-template-columns"@,
        when(g.columns.len() > 0, tracks_value(g.columns)),
        "grid-template-columns"@,
    ));
    lemma_grid(g, "grid-template-rows"@);
    assert(markup::declared(html::grid_style(g), "grid-template-rows"@) =~= own(
        "grid-template-rows"@,
        when(g.rows.len() > 0, tracks_value(g.rows)),
        "grid-template-rows"@,
    ));
    lemma_grid(g, "gap"@);
    assert(markup::declared(html::grid_style(g), "gap"@) =~= own(
        "gap"@,
        grid_gap_value(g),
        "gap"@,
    ));
}

/// Nodes that are drawn with the same style have the same size in whole pixels, and free ones stand at
/// the same place.
pub proof fn law_sizes_are_told_apart(a: NodeView, b: NodeView)
    requires
        numbers_written(a),
        numbers_written(b),
        html::inline_style(a) == html::inline_style(b),
    ensures
        num::positive(a.h.bits) ==> num::positive(b.h.bits) && num::truncated(a.h.bits)
            == num::truncated(b.h.bits),
        num::positive(a.w.bits) ==> num::positive(b.w.bits) && num::truncated(a.w.bits)
            == num::truncated(b.w.bits),
        a.style.layout is Free ==> b.style.layout is Free && num::truncated(a.x.bits)
            == num::truncated(b.x.bits) && num::truncated(a.y.bits) == num::truncated(b.y.bits),
{
    lemma_told_apart(a, b, html::inline_style(a));
}

proof fn lemma_told_apart(a: NodeView, b: NodeView, s: Seq<char>)
    requires
        numbers_written(a),
        numbers_written(b),
        html::inline_style(a) == s,
        html::inline_style(b) == s,
    ensures
        num::positive(a.h.bits) ==> num::positive(b.h.bits) && num::truncated(a.h.bits)
            == num::truncated(b.h.bits),
        num::positive(a.w.bits) ==> num::positive(b.w.bits) && num::truncated(a.w.bits)
            == num::truncated(b.w.bits),
        a.style.layout is Free ==> b.style.layout is Free && num::truncated(a.x.bits)
            == num::truncated(b.x.bits) && num::truncated(a.y.bits) == num::truncated(b.y.bits),
{
    lemma_declares(a, s);
    lemma_declares(b, s);
    lemma_px_tells(num::positive(a.h.bits), a.h, num::positive(b.h.bits), b.h);
    lemma_px_tells(num::positive(a.w.bits), a.w, num::positive(b.w.bits), b.w);
    lemma_px_tells(a.style.layout is Free, a.x, b.style.layout is Free, b.x);
    lemma_px_tells(a.style.layout is Free, a.y, b.style.layout is Free, b.y);
}

proof fn lemma_declares(n: NodeView, s: Seq<char>)
    requires
        numbers_written(n),
        html::inline_style(n) == s,
    ensures
        markup::declared(s, "width"@) == only_if(num::positive(n.w.bits), px(n.w)),
        markup::declared(s, "height"@) == only_if(num::positive(n.h.bits), px(n.h)),
        markup::declared(s, "left"@) == only_if(n.style.layout is Free, px(n.x)),
        markup::declared(s, "top"@) == only_if(n.style.layout is Free, px(n.y)),
{
    law_style_declares_the_size(n);
    law_style_declares_the_place(n);
}

proof fn lemma_px_tells(c: bool, a: NumView, d: bool, b: NumView)
    ensures
        only_if(c, px(a)) == only_if(d, px(b)) ==> c == d && (c ==> num::truncated(a.bits)
            == num::truncated(b.bits)),
{
    if only_if(c, px(a)) == only_if(d, px(b)) {
        assert(only_if(c, px(a)).len() == only_if(d, px(b)).len());
        if c {
            assert(only_if(c, px(a))[0] == px(a));
            assert(only_if(d, px(b))[0] == px(b));
            assert(codegen::pixels(a) =~= px(a).take(px(a).len() - "px"@.len()));
            assert(codegen::pixels(b) =~= px(b).take(px(b).len() - "px"@.len()));
            text::law_signed_decimal_tells_numbers_apart(
                num::truncated(a.bits),
                num::truncated(b.bits),
            );
        }
    }
}

/// A track is as large as it says: in whole pixels, by its share, or in hundredths.
pub proof fn law_tracks_are_sized(ts: Seq<TrackView>, i: int)
    requires
        0 <= i < ts.len(),
    ensures
        html::track_sizes(ts).len() == ts.len(),
        ts[i] matches TrackView::Fixed(x) ==> html::track_sizes(ts)[i] == codegen::pixels(x)
            + "px"@,
        ts[i] matches TrackView::Flex(x) ==> html::track_sizes(ts)[i] == x.text + "fr"@,
        ts[i] matches TrackView::Percent(x) ==> html::track_sizes(ts)[i] == x.text + "%"@,
        ts[i] is Auto ==> html::track_sizes(ts)[i] == "auto"@,
{
}

/// The element of a node bears its id and its style, in this order; that of a circle is round.
pub proof fn law_element_bears_id_and_style(n: NodeView, children: Seq<char>)
    requires
        numbers_written(n),
    ensures
        ({
            let said = markup::attributes(html::html_element(n, children));
            &&& said.len() >= 2
            &&& said[0] == ("data-id"@, codegen::html_escaped(n.id))
            &&& said[1] == (
                "style"@,
                if n.kind == NodeKind::Circle {
                    html::inline_style(n) + "border-radius:50%;"@
                } else {
                    html::inline_style(n)
                },
            )
        }),
{
    let style = if n.kind == NodeKind::Circle {
        html::inline_style(n) + "border-radius:50%;"@
    } else {
        html::inline_style(n)
    };
    let tag = if n.kind == NodeKind::Image && children.len() == 0 {
        "<img "@
    } else {
        "<div "@
    };
    lemma_element_parts(n, tag, style);
    lemma_element_start(n, children, tag, style);
    markup::lemma_two_attributes(
        html::html_element(n, children),
        tag,
        "data-id"@,
        codegen::html_escaped(n.id),
        "style"@,
        style,
    );
}

proof fn lemma_element_parts(n: NodeView, tag: Seq<char>, style: Seq<char>)
    requires
        numbers_written(n),
        tag == "<img "@ || tag == "<div "@,
        style == html::inline_style(n) || style == html::inline_style(n) + "border-radius:50%;"@,
    ensures
        !tag.contains('"') && tag.len() > 0 && tag.last() == ' ',
        !"data-id"@.contains('"') && !"data-id"@.contains(' '),
        !"style"@.contains('"') && !"style"@.contains(' '),
        !codegen::html_escaped(n.id).contains('"'),
        !style.contains('"'),
{
    reveal_strlit("data-id");
    reveal_strlit("style");
    reveal_strlit("<div ");
    reveal_strlit("<img ");
    reveal_strlit("border-radius:50%;");
    lemma_style(n, Seq::empty());
    codegen::law_escaped_text_is_inert(n.id, '"');
    lemma_avoids(html::inline_style(n), "border-radius:50%;"@, '"');
}

#[verifier::rlimit(40)]
proof fn lemma_element_start(n: NodeView, children: Seq<char>, tag: Seq<char>, style: Seq<char>)
    requires
        tag == if n.kind == NodeKind::Image && children.len() == 0 {
            "<img "@
        } else {
            "<div "@
        },
        style == if n.kind == NodeKind::Circle {
            html::inline_style(n) + "border-radius:50%;"@
        } else {
            html::inline_style(n)
        },
    ensures
        ({
            let e = html::html_element(n, children);
            let start = tag + "data-id"@ + "=\""@ + codegen::html_escaped(n.id) + "\" "@
                + "style"@ + "=\""@ + style + "\""@;
            &&& start.len() <= e.len()
            &&& e.take(start.len() as int) == start
        }),
{
    reveal_strlit("<div ");
    reveal_strlit("<img ");
    reveal_strlit("data-id");
    reveal_strlit("style");
    reveal_strlit("=\"");
    reveal_strlit("\" ");
    reveal_strlit("\"");
    reveal_strlit("<div data-id=\"");
    reveal_strlit("<img data-id=\"");
    reveal_strlit("\" style=\"");
    reveal_strlit("\"></div>\n");
    reveal_strlit("\">");
    reveal_strlit("\">\n");
    reveal_strlit("\" alt=\"\"/>\n");
    reveal_strlit("\"><img style=\"");
    reveal_strlit("</div>\n");
    let e = html::html_element(n, children);
    let start = tag + "data-id"@ + "=\""@ + codegen::html_escaped(n.id) + "\" "@ + "style"@
        + "=\""@ + style + "\""@;
    assert(e.take(start.len() as int) =~= start);
}

/// A text shows its own text, escaped, in front of what is inside it.
pub proof fn law_text_shows_its_text(n: NodeView, children: Seq<char>)
    requires
        n.kind == NodeKind::Text,
    ensures
        ({
            let e = html::html_element(n, children);
            let end = ">"@ + codegen::html_escaped(text::text_or_empty(n.text)) + children
                + "</div>\n"@;
            end.len() <= e.len() && e.skip(e.len() - end.len()) == end
        }),
{
    reveal_strlit(">");
    reveal_strlit("\">");
    let e = html::html_element(n, children);
    let end = ">"@ + codegen::html_escaped(text::text_or_empty(n.text)) + children + "</div>\n"@;
    assert(e.skip(e.len() - end.len()) =~= end);
}

/// A page bears its id, and its style declares its size.
#[verifier::rlimit(40)]
pub proof fn law_page_bears_id_and_size(p: PageView)
    requires
        !p.id.contains('"'),
    ensures
        ({
            let said = markup::attributes(html::html_page(p));
            &&& said.len() >= 2
            &&& said[0] == ("data-page"@, p.id)
            &&& said[1].0 == "style"@
            &&& markup::declared(said[1].1, "width"@) == seq![codegen::pixels(p.width) + "px"@]
            &&& markup::declared(said[1].1, "height"@) == seq![codegen::pixels(p.height) + "px"@]
            &&& markup::declared(said[1].1, "position"@) == seq!["relative"@]
        }),
{
    lemma_properties();
    lemma_px(p.width, ';');
    lemma_px(p.width, '"');
    lemma_px(p.height, ';');
    lemma_px(p.height, '"');
    let a = "width"@ + ":"@ + px(p.width) + ";"@;
    let b = "height"@ + ":"@ + px(p.height) + ";"@;
    let c = "position"@ + ":"@ + "relative"@ + ";"@;
    lemma_page_start(p);
    lemma_page_style(a, b, c, px(p.width), px(p.height), "width"@);
    lemma_page_style(a, b, c, px(p.width), px(p.height), "height"@);
    lemma_page_style(a, b, c, px(p.width), px(p.height), "position"@);
    markup::lemma_two_attributes(
        html::html_page(p),
        "<section "@,
        "data-page"@,
        p.id,
        "style"@,
        a + b + c,
    );
}

#[verifier::rlimit(40)]
proof fn lemma_page_start(p: PageView)
    ensures
        ({
            let e = html::html_page(p);
            let style = ("width"@ + ":"@ + px(p.width) + ";"@) + ("height"@ + ":"@ + px(p.height)
                + ";"@) + ("position"@ + ":"@ + "relative"@ + ";"@);
            let start = "<section "@ + "data-page"@ + "=\""@ + p.id + "\" "@ + "style"@ + "=\""@
                + style + "\""@;
            start.len() <= e.len() && e.take(start.len() as int) == start
        }),
        !"<section "@.contains('"') && "<section "@.len() > 0 && "<section "@.last() == ' ',
        !"data-page"@.contains('"') && !"data-page"@.contains(' '),
        !"style"@.contains('"') && !"style"@.contains(' '),
{
    reveal_strlit("data-page");
    reveal_strlit("style");
    reveal_strlit("<section ");
    reveal_strlit("=\"");
    reveal_strlit("\" ");
    reveal_strlit("\"");
    reveal_strlit("<section data-page=\"");
    reveal_strlit("\" style=\"width:");
    reveal_strlit("px;height:");
    reveal_strlit("px;position:relative;\">\n");
    reveal_strlit("width");
    reveal_strlit("height");
    reveal_strlit("position");
    reveal_strlit("relative");
    reveal_strlit("px");
    reveal_strlit(":");
    reveal_strlit(";");
    let e = html::html_page(p);
    let style = ("width"@ + ":"@ + px(p.width) + ";"@) + ("height"@ + ":"@ + px(p.height) + ";"@) + (
    "position"@ + ":"@ + "relative"@ + ";"@);
    let start = "<section "@ + "data-page"@ + "=\""@ + p.id + "\" "@ + "style"@ + "=\""@ + style
        + "\""@;
    assert(e.take(start.len() as int) =~= start);
}

proof fn lemma_page_style(
    a: Seq<char>,
    b: Seq<char>,
    c: Seq<char>,
    w: Seq<char>,
    h: Seq<char>,
    name: Seq<char>,
)
    requires
        a == "width"@ + ":"@ + w + ";"@,
        b == "height"@ + ":"@ + h + ";"@,
        c == "position"@ + ":"@ + "relative"@ + ";"@,
        !w.contains(';') && !w.contains('"'),
        !h.contains(';') && !h.contains('"'),
        name == "width"@ || name == "height"@ || name == "position"@,
    ensures
        !(a + b + c).contains('"'),
        name == "width"@ ==> markup::declared(a + b + c, name) == seq![w],
        name == "height"@ ==> markup::declared(a + b + c, name) == seq![h],
        name == "position"@ ==> markup::declared(a + b + c, name) == seq!["relative"@],
{
    lemma_properties();
    reveal_strlit("relative");
    lemma_part(a, "width"@, Some(w), name);
    lemma_part(b, "height"@, Some(h), name);
    lemma_part(c, "position"@, Some("relative"@), name);
    markup::lemma_declared_join(a, b, name);
    markup::lemma_declared_join(a + b, c, name);
    lemma_avoids(a, b, '"');
    lemma_avoids(a + b, c, '"');
    let d = markup::declared(a + b + c, name);
    if name == "width"@ {
        assert(d =~= seq![w]);
    } else if name == "height"@ {
        assert(d =~= seq![h]);
    } else {
        assert(d =~= seq!["relative"@]);
    }
}

/// Nodes stand one after the other, in their order.
pub proof fn law_elements_stand_in_order(a: Seq<NodeView>, b: Seq<NodeView>, depth: nat)
    ensures
        html::html_nodes(a + b, depth) == html::html_nodes(a, depth) + html::html_nodes(b, depth),
    decreases b.len(),
{
    let first = html::html_nodes(a, depth);
    if b.len() == 0 {
        assert(a + b =~= a);
        assert(first + Seq::<char>::empty() =~= first);
    } else {
        law_elements_stand_in_order(a, b.drop_last(), depth);
        assert((a + b).drop_last() =~= a + b.drop_last());
        let middle = html::html_nodes(b.drop_last(), depth);
        let last = html::html_node(b.last(), depth);
        assert(first + middle + last =~= first + (middle + last));
    }
}

} // verus!
