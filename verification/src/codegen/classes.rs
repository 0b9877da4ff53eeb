//! What the classes of React elements say.

use vstd::prelude::*;

use crate::canvas::{
    AlignItems, FlexDirection, FlexWrap, JustifyContent, LayoutView, NodeKind, NodeView, PageView,
    StyleView,
};
use crate::codegen;
use crate::codegen::react;
use crate::markup;
use crate::num;
use crate::num::NumView;
use crate::text;

verus! {

/// Zero, which is no size and no rotation.
pub open spec fn zero() -> NumView {
    NumView { bits: num::ZERO, text: "0"@ }
}

/// The width of a stroke in pixels: one where nothing is said.
pub open spec fn stroke_pixels(n: NodeView) -> Seq<char> {
    match n.style.stroke_width {
        Some(w) => codegen::pixels(w),
        None => "1"@,
    }
}

proof fn lemma_layout_words(n: NodeView)
    ensures
        react::layout_classes(n).len() > 0,
        react::layout_classes(n)[0].len() > 0,
{
    reveal_strlit("absolute");
    reveal_strlit("relative");
}

spec fn w_words(n: NodeView) -> Seq<Seq<char>> {
    react::class_if(
        num::positive(n.w.bits),
        "w-["@ + codegen::pixels(n.w) + "px]"@,
    )
}

spec fn h_words(n: NodeView) -> Seq<Seq<char>> {
    react::class_if(num::positive(n.h.bits), "h-["@ + codegen::pixels(n.h) + "px]"@)
}

spec fn fill_words(n: NodeView) -> Seq<Seq<char>> {
    match n.style.fill {
        Some(fill) => seq!["bg-["@ + codegen::safe_color(fill) + "]"@],
        None => Seq::empty(),
    }
}

spec fn border_words(n: NodeView) -> Seq<Seq<char>> {
    react::border_classes(n)
}

spec fn radius_words(n: NodeView) -> Seq<Seq<char>> {
    match n.style.radius {
        Some(r) => seq!["rounded-["@ + codegen::pixels(r) + "px]"@],
        None => Seq::empty(),
    }
}

spec fn opacity_words(n: NodeView) -> Seq<Seq<char>> {
    match n.style.opacity {
        Some(o) => seq!["opacity-["@ + o.text + "]"@],
        None => Seq::empty(),
    }
}

spec fn turn_words(n: NodeView) -> Seq<Seq<char>> {
    react::class_if(
        !num::equal(n.rotation.bits, num::ZERO),
        "rotate-["@ + n.rotation.text + "deg]"@,
    )
}

spec fn z_words(n: NodeView) -> Seq<Seq<char>> {
    react::class_if(n.z_index != 0, "z-["@ + text::signed_decimal(n.z_index as int) + "]"@)
}

spec fn size_words(n: NodeView) -> Seq<Seq<char>> {
    match n.style.font_size {
        Some(s) => seq!["text-["@ + codegen::pixels(s) + "px]"@],
        None => Seq::empty(),
    }
}

spec fn family_words(n: NodeView) -> Seq<Seq<char>> {
    match n.style.font_family {
        Some(f) => seq!["font-["@ + codegen::safe_color(f) + "]"@],
        None => Seq::empty(),
    }
}

/// The classes, by what they speak of.
spec fn groups(n: NodeView) -> Seq<Seq<Seq<char>>> {
    seq![
        react::layout_classes(n),
        w_words(n),
        h_words(n),
        fill_words(n),
        border_words(n),
        radius_words(n),
        opacity_words(n),
        turn_words(n),
        z_words(n),
        size_words(n),
        family_words(n),
    ]
}

proof fn lemma_flat(
    g0: Seq<Seq<char>>,
    g1: Seq<Seq<char>>,
    g2: Seq<Seq<char>>,
    g3: Seq<Seq<char>>,
    g4: Seq<Seq<char>>,
    g5: Seq<Seq<char>>,
    g6: Seq<Seq<char>>,
    g7: Seq<Seq<char>>,
    g8: Seq<Seq<char>>,
    g9: Seq<Seq<char>>,
    g10: Seq<Seq<char>>,
)
    ensures
        markup::flat(seq![g0, g1, g2, g3, g4, g5, g6, g7, g8, g9, g10]) == g0 + g1 + g2 + g3 + g4
            + g5 + g6 + g7 + g8 + g9 + g10,
{
    markup::lemma_flat_one(g0);
    markup::lemma_flat_push(seq![g0], g1);
    assert(seq![g0].push(g1) =~= seq![g0, g1]);
    markup::lemma_flat_push(seq![g0, g1], g2);
    assert(seq![g0, g1].push(g2) =~= seq![g0, g1, g2]);
    markup::lemma_flat_push(seq![g0, g1, g2], g3);
    assert(seq![g0, g1, g2].push(g3) =~= seq![g0, g1, g2, g3]);
    markup::lemma_flat_push(seq![g0, g1, g2, g3], g4);
    assert(seq![g0, g1, g2, g3].push(g4) =~= seq![g0, g1, g2, g3, g4]);
    markup::lemma_flat_push(seq![g0, g1, g2, g3, g4], g5);
    assert(seq![g0, g1, g2, g3, g4].push(g5) =~= seq![g0, g1, g2, g3, g4, g5]);
    markup::lemma_flat_push(seq![g0, g1, g2, g3, g4, g5], g6);
    assert(seq![g0, g1, g2, g3, g4, g5].push(g6) =~= seq![g0, g1, g2, g3, g4, g5, g6]);
    markup::lemma_flat_push(seq![g0, g1, g2, g3, g4, g5, g6], g7);
    assert(seq![g0, g1, g2, g3, g4, g5, g6].push(g7) =~= seq![g0, g1, g2, g3, g4, g5, g6, g7]);
    markup::lemma_flat_push(seq![g0, g1, g2, g3, g4, g5, g6, g7], g8);
    assert(seq![g0, g1, g2, g3, g4, g5, g6, g7].push(g8)
        =~= seq![g0, g1, g2, g3, g4, g5, g6, g7, g8]);
    markup::lemma_flat_push(seq![g0, g1, g2, g3, g4, g5, g6, g7, g8], g9);
    assert(seq![g0, g1, g2, g3, g4, g5, g6, g7, g8].push(g9)
        =~= seq![g0, g1, g2, g3, g4, g5, g6, g7, g8, g9]);
    markup::lemma_flat_push(seq![g0, g1, g2, g3, g4, g5, g6, g7, g8, g9], g10);
    assert(seq![g0, g1, g2, g3, g4, g5, g6, g7, g8, g9].push(g10)
        =~= seq![g0, g1, g2, g3, g4, g5, g6, g7, g8, g9, g10]);
}

proof fn lemma_tailwind(n: NodeView)
    ensures
        react::tailwind(n) == text::joined(markup::flat(groups(n)), " "@),
{
    lemma_flat(
        react::layout_classes(n),
        w_words(n),
        h_words(n),
        fill_words(n),
        border_words(n),
        radius_words(n),
        opacity_words(n),
        turn_words(n),
        z_words(n),
        size_words(n),
        family_words(n),
    );
}

/// What stands in front of a group begins with the layout.
proof fn lemma_before(n: NodeView, k: int)
    requires
        1 <= k <= groups(n).len(),
    ensures
        markup::flat(groups(n).take(k)).len() > 0,
        markup::flat(groups(n).take(k))[0].len() > 0,
    decreases k,
{
    lemma_layout_words(n);
    let before = groups(n).take(k);
    if k == 1 {
        assert(before =~= seq![react::layout_classes(n)]);
        markup::lemma_flat_one(react::layout_classes(n));
    } else {
        lemma_before(n, k - 1);
        assert(before.drop_last() =~= groups(n).take(k - 1));
    }
}

/// A group of one word, against the same without the word.
proof fn lemma_word_of_group(n: NodeView, m: NodeView, k: int, word: Seq<char>)
    requires
        1 <= k < groups(n).len(),
        groups(m) == groups(n).update(k, Seq::empty()),
    ensures
        groups(n)[k] == seq![word] ==> markup::adds_word(
            react::tailwind(n),
            react::tailwind(m),
            word,
        ),
        groups(n)[k] == Seq::<Seq<char>>::empty() ==> react::tailwind(n) == react::tailwind(m),
{
    lemma_tailwind(n);
    lemma_tailwind(m);
    lemma_before(n, k);
    markup::lemma_flat_group(groups(n), k);
    let l = markup::flat(groups(n).take(k));
    let r = markup::flat(groups(n).skip(k + 1));
    markup::lemma_word_added(l, word, r);
    if groups(n)[k] == Seq::<Seq<char>>::empty() {
        assert(groups(n).update(k, Seq::empty()) =~= groups(n));
    }
}

/// The width adds one class, where there is one, and nothing else.
pub proof fn law_width_adds_its_class(n: NodeView)
    ensures
        num::positive(n.w.bits) ==> markup::adds_word(
            react::tailwind(n),
            react::tailwind(NodeView { w: zero(), ..n }),
            "w-["@ + codegen::pixels(n.w) + "px]"@,
        ),
        !(num::positive(n.w.bits)) ==> react::tailwind(n) == react::tailwind(
            NodeView { w: zero(), ..n },
        ),
{
    let m = NodeView { w: zero(), ..n };
    let word = "w-["@ + codegen::pixels(n.w) + "px]"@;
    assert(w_words(m) == Seq::<Seq<char>>::empty());
    assert(groups(m) =~= groups(n).update(1, Seq::empty()));
    lemma_word_of_group(n, m, 1, word);
}

/// The height adds one class, where there is one, and nothing else.
pub proof fn law_height_adds_its_class(n: NodeView)
    ensures
        num::positive(n.h.bits) ==> markup::adds_word(
            react::tailwind(n),
            react::tailwind(NodeView { h: zero(), ..n }),
            "h-["@ + codegen::pixels(n.h) + "px]"@,
        ),
        !(num::positive(n.h.bits)) ==> react::tailwind(n) == react::tailwind(
            NodeView { h: zero(), ..n },
        ),
{
    let m = NodeView { h: zero(), ..n };
    let word = "h-["@ + codegen::pixels(n.h) + "px]"@;
    assert(h_words(m) == Seq::<Seq<char>>::empty());
    assert(groups(m) =~= groups(n).update(2, Seq::empty()));
    lemma_word_of_group(n, m, 2, word);
}

/// The fill adds one class, where there is one, and nothing else.
pub proof fn law_fill_adds_its_class(n: NodeView)
    ensures
        n.style.fill is Some ==> markup::adds_word(
            react::tailwind(n),
            react::tailwind(NodeView { style: StyleView { fill: None, ..n.style }, ..n }),
            "bg-["@ + codegen::safe_color(n.style.fill->0) + "]"@,
        ),
        n.style.fill is None ==> react::tailwind(n) == react::tailwind(
            NodeView { style: StyleView { fill: None, ..n.style }, ..n },
        ),
{
    let m = NodeView { style: StyleView { fill: None, ..n.style }, ..n };
    let word = "bg-["@ + codegen::safe_color(n.style.fill->0) + "]"@;
    assert(fill_words(m) == Seq::<Seq<char>>::empty());
    assert(groups(m) =~= groups(n).update(3, Seq::empty()));
    lemma_word_of_group(n, m, 3, word);
}

/// The radius adds one class, where there is one, and nothing else.
pub proof fn law_radius_adds_its_class(n: NodeView)
    ensures
        n.style.radius is Some ==> markup::adds_word(
            react::tailwind(n),
            react::tailwind(NodeView { style: StyleView { radius: None, ..n.style }, ..n }),
            "rounded-["@ + codegen::pixels(n.style.radius->0) + "px]"@,
        ),
        n.style.radius is None ==> react::tailwind(n) == react::tailwind(
            NodeView { style: StyleView { radius: None, ..n.style }, ..n },
        ),
{
    let m = NodeView { style: StyleView { radius: None, ..n.style }, ..n };
    let word = "rounded-["@ + codegen::pixels(n.style.radius->0) + "px]"@;
    assert(radius_words(m) == Seq::<Seq<char>>::empty());
    assert(groups(m) =~= groups(n).update(5, Seq::empty()));
    lemma_word_of_group(n, m, 5, word);
}

/// The opacity adds one class, where there is one, and nothing else.
pub proof fn law_opacity_adds_its_class(n: NodeView)
    ensures
        n.style.opacity is Some ==> markup::adds_word(
            react::tailwind(n),
            react::tailwind(NodeView { style: StyleView { opacity: None, ..n.style }, ..n }),
            "opacity-["@ + n.style.opacity->0.text + "]"@,
        ),
        n.style.opacity is None ==> react::tailwind(n) == react::tailwind(
            NodeView { style: StyleView { opacity: None, ..n.style }, ..n },
        ),
{
    let m = NodeView { style: StyleView { opacity: None, ..n.style }, ..n };
    let word = "opacity-["@ + n.style.opacity->0.text + "]"@;
    assert(opacity_words(m) == Seq::<Seq<char>>::empty());
    assert(groups(m) =~= groups(n).update(6, Seq::empty()));
    lemma_word_of_group(n, m, 6, word);
}

/// The rotation adds one class, where there is one, and nothing else.
pub proof fn law_rotation_adds_its_class(n: NodeView)
    ensures
        !num::equal(n.rotation.bits, num::ZERO) ==> markup::adds_word(
            react::tailwind(n),
            react::tailwind(NodeView { rotation: zero(), ..n }),
            "rotate-["@ + n.rotation.text + "deg]"@,
        ),
        num::equal(n.rotation.bits, num::ZERO) ==> react::tailwind(n) == react::tailwind(
            NodeView { rotation: zero(), ..n },
        ),
{
    let m = NodeView { rotation: zero(), ..n };
    let word = "rotate-["@ + n.rotation.text + "deg]"@;
    assert(turn_words(m) == Seq::<Seq<char>>::empty());
    assert(groups(m) =~= groups(n).update(7, Seq::empty()));
    lemma_word_of_group(n, m, 7, word);
}

/// The depth adds one class, where there is one, and nothing else.
pub proof fn law_depth_adds_its_class(n: NodeView)
    ensures
        n.z_index != 0 ==> markup::adds_word(
            react::tailwind(n),
            react::tailwind(NodeView { z_index: 0, ..n }),
            "z-["@ + text::signed_decimal(n.z_index as int) + "]"@,
        ),
        n.z_index == 0 ==> react::tailwind(n) == react::tailwind(
            NodeView { z_index: 0, ..n },
        ),
{
    let m = NodeView { z_index: 0, ..n };
    let word = "z-["@ + text::signed_decimal(n.z_index as int) + "]"@;
    assert(z_words(m) == Seq::<Seq<char>>::empty());
    assert(groups(m) =~= groups(n).update(8, Seq::empty()));
    lemma_word_of_group(n, m, 8, word);
}

/// The font size adds one class, where there is one, and nothing else.
pub proof fn law_font_size_adds_its_class(n: NodeView)
    ensures
        n.style.font_size is Some ==> markup::adds_word(
            react::tailwind(n),
            react::tailwind(NodeView { style: StyleView { font_size: None, ..n.style }, ..n }),
            "text-["@ + codegen::pixels(n.style.font_size->0) + "px]"@,
        ),
        n.style.font_size is None ==> react::tailwind(n) == react::tailwind(
            NodeView { style: StyleView { font_size: None, ..n.style }, ..n },
        ),
{
    let m = NodeView { style: StyleView { font_size: None, ..n.style }, ..n };
    let word = "text-["@ + codegen::pixels(n.style.font_size->0) + "px]"@;
    assert(size_words(m) == Seq::<Seq<char>>::empty());
    assert(groups(m) =~= groups(n).update(9, Seq::empty()));
    lemma_word_of_group(n, m, 9, word);
}

/// The font family adds one class, where there is one, and nothing else.
pub proof fn law_font_family_adds_its_class(n: NodeView)
    ensures
        n.style.font_family is Some ==> markup::adds_word(
            react::tailwind(n),
            react::tailwind(NodeView { style: StyleView { font_family: None, ..n.style }, ..n }),
            "font-["@ + codegen::safe_color(n.style.font_family->0) + "]"@,
        ),
        n.style.font_family is None ==> react::tailwind(n) == react::tailwind(
            NodeView { style: StyleView { font_family: None, ..n.style }, ..n },
        ),
{
    let m = NodeView { style: StyleView { font_family: None, ..n.style }, ..n };
    let word = "font-["@ + codegen::safe_color(n.style.font_family->0) + "]"@;
    assert(family_words(m) == Seq::<Seq<char>>::empty());
    assert(groups(m) =~= groups(n).update(10, Seq::empty()));
    lemma_word_of_group(n, m, 10, word);
}

/// The stroke adds two classes, where there is one: its width, which is one pixel where nothing is
/// said, and its color.
pub proof fn law_stroke_adds_its_classes(n: NodeView)
    ensures
        n.style.stroke is Some ==> exists|half: Seq<char>|
            #[trigger] markup::adds_word(
                half,
                react::tailwind(NodeView { style: StyleView { stroke: None, ..n.style }, ..n }),
                "border-["@ + stroke_pixels(n) + "px]"@,
            ) && markup::adds_word(
                react::tailwind(n),
                half,
                "border-["@ + codegen::safe_color(n.style.stroke->0) + "]"@,
            ),
{
    let m = NodeView { style: StyleView { stroke: None, ..n.style }, ..n };
    assert(groups(m) =~= groups(n).update(4, Seq::empty()));
    if let Some(stroke) = n.style.stroke {
        lemma_border(n, m);
        let half = text::joined(
            markup::flat(groups(n).take(4)) + seq!["border-["@ + stroke_pixels(n) + "px]"@]
                + markup::flat(groups(n).skip(5)),
            " "@,
        );
        assert(markup::adds_word(
            half,
            react::tailwind(m),
            "border-["@ + stroke_pixels(n) + "px]"@,
        ));
    }
}

proof fn lemma_border(n: NodeView, m: NodeView)
    requires
        n.style.stroke is Some,
        groups(m) == groups(n).update(4, Seq::empty()),
    ensures
        ({
            let l = markup::flat(groups(n).take(4));
            let r = markup::flat(groups(n).skip(5));
            let width = "border-["@ + stroke_pixels(n) + "px]"@;
            let color = "border-["@ + codegen::safe_color(n.style.stroke->0) + "]"@;
            let half = text::joined(l + seq![width] + r, " "@);
            &&& markup::adds_word(half, react::tailwind(m), width)
            &&& markup::adds_word(react::tailwind(n), half, color)
        }),
{
    lemma_tailwind(n);
    lemma_tailwind(m);
    lemma_before(n, 4);
    markup::lemma_flat_group(groups(n), 4);
    let l = markup::flat(groups(n).take(4));
    let r = markup::flat(groups(n).skip(5));
    let width = "border-["@ + stroke_pixels(n) + "px]"@;
    let color = "border-["@ + codegen::safe_color(n.style.stroke->0) + "]"@;
    assert(groups(n)[4] =~= seq![width, color]);
    lemma_two_added(l, width, color, r);
}

proof fn lemma_two_added(l: Seq<Seq<char>>, a: Seq<char>, b: Seq<char>, r: Seq<Seq<char>>)
    requires
        l.len() > 0,
        l[0].len() > 0,
    ensures
        markup::adds_word(
            text::joined(l + seq![a] + r, " "@),
            text::joined(l + r, " "@),
            a,
        ),
        markup::adds_word(
            text::joined(l + seq![a, b] + r, " "@),
            text::joined(l + seq![a] + r, " "@),
            b,
        ),
{
    markup::lemma_word_added(l, a, r);
    assert((l + seq![a])[0] == l[0]);
    markup::lemma_word_added(l + seq![a], b, r);
    assert(l + seq![a] + seq![b] =~= l + seq![a, b]);
}

proof fn lemma_layout_first(n: NodeView)
    ensures
        react::tailwind(n) == text::joined(
            react::layout_classes(n) + markup::flat(groups(n).skip(1)),
            " "@,
        ),
{
    lemma_tailwind(n);
    let g = groups(n);
    assert(g =~= seq![g[0]] + g.skip(1));
    markup::lemma_flat_join(seq![g[0]], g.skip(1));
    markup::lemma_flat_one(g[0]);
}

/// A free node stands at its coordinates; a container says how it lays out what is inside it.
pub proof fn law_layout_comes_first(n: NodeView)
    ensures
        n.style.layout is Free ==> ("absolute"@ + " "@ + ("left-["@ + codegen::pixels(n.x) + "px]"@)
            + " "@ + ("top-["@ + codegen::pixels(n.y) + "px]"@)).is_prefix_of(react::tailwind(n)),
        n.style.layout is Grid ==> ("relative"@ + " "@ + "grid"@).is_prefix_of(react::tailwind(n)),
        n.style.layout is Flex ==> ("relative"@ + " "@ + "flex"@ + " "@).is_prefix_of(
            react::tailwind(n),
        ),
{
    let l = react::layout_classes(n);
    let rest = markup::flat(groups(n).skip(1));
    lemma_layout_first(n);
    match n.style.layout {
        LayoutView::Free => {
            let a = "left-["@ + codegen::pixels(n.x) + "px]"@;
            let b = "top-["@ + codegen::pixels(n.y) + "px]"@;
            markup::lemma_three_words("absolute"@, a, b, rest);
            assert(l =~= seq!["absolute"@, a, b]);
        },
        LayoutView::Grid(_) => {
            markup::lemma_two_words("relative"@, "grid"@, rest);
            assert(l =~= seq!["relative"@, "grid"@]);
        },
        LayoutView::Flex(p) => {
            let more = l.skip(3) + rest;
            markup::lemma_three_words("relative"@, "flex"@, l[2], more);
            assert(l + rest =~= seq!["relative"@, "flex"@, l[2]] + more);
            markup::lemma_prefix_shorter(
                "relative"@ + " "@ + "flex"@ + " "@,
                l[2],
                react::tailwind(n),
            );
        },
    }
}

/// A flex container says its direction, its gap, and how its items are aligned and distributed.
pub proof fn law_flex_says_its_layout(n: NodeView, i: int)
    requires
        n.style.layout is Flex,
    ensures
        ({
            let p = n.style.layout->Flex_0;
            let ws = react::layout_classes(n);
            &&& ws[2] == (match p.direction {
                FlexDirection::Row => "flex-row"@,
                FlexDirection::RowReverse => "flex-row-reverse"@,
                FlexDirection::Column => "flex-col"@,
                FlexDirection::ColumnReverse => "flex-col-reverse"@,
            })
            &&& num::positive(p.gap.bits) ==> ws.len() == 7 && ws[3] == "gap-["@ + codegen::pixels(
                p.gap,
            ) + "px]"@
            &&& !num::positive(p.gap.bits) ==> ws.len() == 6
            &&& ws[ws.len() - 3] == (match p.align_items {
                AlignItems::Start => "items-start"@,
                AlignItems::Center => "items-center"@,
                AlignItems::End => "items-end"@,
                AlignItems::Stretch => "items-stretch"@,
            })
            &&& ws[ws.len() - 2] == (match p.justify_content {
                JustifyContent::Start => "justify-start"@,
                JustifyContent::Center => "justify-center"@,
                JustifyContent::End => "justify-end"@,
                JustifyContent::SpaceBetween => "justify-between"@,
                JustifyContent::SpaceAround => "justify-around"@,
                JustifyContent::SpaceEvenly => "justify-evenly"@,
            })
            &&& ws[ws.len() - 1] == (match p.wrap {
                FlexWrap::NoWrap => "flex-nowrap"@,
                FlexWrap::Wrap => "flex-wrap"@,
            })
            &&& 0 <= i < ws.len() ==> text::occurs(react::tailwind(n), ws[i])
        }),
{
    let ws = react::layout_classes(n);
    let rest = markup::flat(groups(n).skip(1));
    let all = ws + rest;
    lemma_layout_first(n);
    if 0 <= i < ws.len() {
        assert(all[i] == ws[i]);
        let nothing = Seq::<char>::empty();
        assert(nothing + ws[i] + nothing =~= ws[i]);
        text::lemma_occurs_between(nothing, ws[i], nothing);
        text::lemma_joined_holds(all, " "@, i, ws[i]);
    }
}

/// An element bears its classes and its id, in this order; that of a circle is round.
pub proof fn law_element_bears_classes_and_id(n: NodeView, children: Seq<char>)
    requires
        !react::tailwind(n).contains('"'),
    ensures
        ({
            let said = markup::attributes(react::react_element(n, children));
            &&& said.len() >= 2
            &&& said[0] == (
                "className"@,
                if n.kind == NodeKind::Circle {
                    react::tailwind(n) + " rounded-full"@
                } else {
                    react::tailwind(n)
                },
            )
            &&& said[1] == ("data-id"@, codegen::html_escaped(n.id))
        }),
{
    let tag = if n.kind == NodeKind::Image && children.len() == 0 {
        "      <img "@
    } else {
        "      <div "@
    };
    let class = if n.kind == NodeKind::Circle {
        react::tailwind(n) + " rounded-full"@
    } else {
        react::tailwind(n)
    };
    lemma_element_start(n, children, tag, class);
    lemma_element_parts(n, tag, class);
    markup::lemma_two_attributes(
        react::react_element(n, children),
        tag,
        "className"@,
        class,
        "data-id"@,
        codegen::html_escaped(n.id),
    );
}

proof fn lemma_element_parts(n: NodeView, tag: Seq<char>, class: Seq<char>)
    requires
        !react::tailwind(n).contains('"'),
        tag == "      <img "@ || tag == "      <div "@,
        class == react::tailwind(n) || class == react::tailwind(n) + " rounded-full"@,
    ensures
        !tag.contains('"') && tag.len() > 0 && tag.last() == ' ',
        !"className"@.contains('"') && !"className"@.contains(' '),
        !"data-id"@.contains('"') && !"data-id"@.contains(' '),
        !codegen::html_escaped(n.id).contains('"'),
        !class.contains('"'),
{
    reveal_strlit("      <img ");
    reveal_strlit("      <div ");
    reveal_strlit("className");
    reveal_strlit("data-id");
    reveal_strlit(" rounded-full");
    codegen::law_escaped_text_is_inert(n.id, '"');
    let t = react::tailwind(n);
    let r = t + " rounded-full"@;
    if r.contains('"') {
        let i = choose|i: int| 0 <= i < r.len() && r[i] == '"';
        if i < t.len() {
            assert(t[i] == '"');
        }
    }
}

#[verifier::rlimit(40)]
proof fn lemma_element_start(n: NodeView, children: Seq<char>, tag: Seq<char>, class: Seq<char>)
    requires
        tag == if n.kind == NodeKind::Image && children.len() == 0 {
            "      <img "@
        } else {
            "      <div "@
        },
        class == if n.kind == NodeKind::Circle {
            react::tailwind(n) + " rounded-full"@
        } else {
            react::tailwind(n)
        },
    ensures
        ({
            let e = react::react_element(n, children);
            let start = tag + "className"@ + "=\""@ + class + "\" "@ + "data-id"@ + "=\""@
                + codegen::html_escaped(n.id) + "\""@;
            start.len() <= e.len() && e.take(start.len() as int) == start
        }),
{
    reveal_strlit("      <img ");
    reveal_strlit("      <div ");
    reveal_strlit("className");
    reveal_strlit("data-id");
    reveal_strlit("=\"");
    reveal_strlit("\" ");
    reveal_strlit("\"");
    reveal_strlit("      <div className=\"");
    reveal_strlit("      <img className=\"");
    reveal_strlit("\" data-id=\"");
    reveal_strlit("\"/>\n");
    reveal_strlit("\">\n");
    reveal_strlit("\">");
    reveal_strlit("\" alt=\"\"/>\n");
    reveal_strlit("\"><img alt=\"\"/>");
    let e = react::react_element(n, children);
    let start = tag + "className"@ + "=\""@ + class + "\" "@ + "data-id"@ + "=\""@
        + codegen::html_escaped(n.id) + "\""@;
    assert(e.take(start.len() as int) =~= start);
}

/// A text shows its own text, escaped, in front of what is inside it.
pub proof fn law_text_shows_its_text(n: NodeView, children: Seq<char>)
    requires
        n.kind == NodeKind::Text,
    ensures
        ({
            let e = react::react_element(n, children);
            let end = ">"@ + codegen::html_escaped(text::text_or_empty(n.text)) + children
                + "</div>\n"@;
            end.len() <= e.len() && e.skip(e.len() - end.len()) == end
        }),
{
    reveal_strlit(">");
    reveal_strlit("\">");
    let e = react::react_element(n, children);
    let end = ">"@ + codegen::html_escaped(text::text_or_empty(n.text)) + children + "</div>\n"@;
    assert(e.skip(e.len() - end.len()) =~= end);
}

/// Nodes stand one after the other, in their order.
pub proof fn law_elements_stand_in_order(a: Seq<NodeView>, b: Seq<NodeView>, depth: nat)
    ensures
        react::react_nodes(a + b, depth) == react::react_nodes(a, depth) + react::react_nodes(
            b,
            depth,
        ),
    decreases b.len(),
{
    let first = react::react_nodes(a, depth);
    if b.len() == 0 {
        assert(a + b =~= a);
        assert(first + Seq::<char>::empty() =~= first);
    } else {
        law_elements_stand_in_order(a, b.drop_last(), depth);
        assert((a + b).drop_last() =~= a + b.drop_last());
        let middle = react::react_nodes(b.drop_last(), depth);
        let last = react::react_node(b.last(), depth);
        assert(first + middle + last =~= first + (middle + last));
    }
}

/// A page is marked with its id in front of its nodes.
pub proof fn law_page_bears_its_id(p: PageView)
    ensures
        text::occurs(react::react_page(p), p.id),
        react::react_nodes(p.nodes, 0).is_suffix_of(react::react_page(p)),
{
    let nodes = react::react_nodes(p.nodes, 0);
    let page = react::react_page(p);
    text::lemma_occurs_between("      {/* page: "@, p.id, " */}\n"@ + nodes);
    assert("      {/* page: "@ + p.id + (" */}\n"@ + nodes) =~= page);
    assert(nodes =~= page.subrange(page.len() - nodes.len(), page.len() as int));
}

} // verus!
