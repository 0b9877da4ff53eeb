//! What the rules promise.

use vstd::prelude::*;

use crate::canvas;
use crate::canvas::{LayoutView, NodeKind, NodeView, PageView};
use crate::design_system::{SystemView, TokenView, ValueView};
use crate::lint;
use crate::lint::color;
use crate::lint::detectors;
use crate::lint::{LintRule, LintSeverity, LinterView, ViolationView};
use crate::num;
use crate::text;

verus! {

// ---------------------------------------------------------------------------
// Overlaps
// ---------------------------------------------------------------------------

/// The sides of the node's box are numbers.
pub open spec fn has_box(n: NodeView) -> bool {
    !num::is_nan(n.x.bits) && !num::is_nan(n.y.bits) && !num::is_nan(n.measure.right.bits)
        && !num::is_nan(n.measure.bottom.bits)
}

/// One of the boxes ends where the other begins, or before: beside it, above it or below it.
pub open spec fn stand_apart(a: NodeView, b: NodeView) -> bool {
    ||| num::at_most(a.measure.right.bits, b.x.bits)
    ||| num::at_most(b.measure.right.bits, a.x.bits)
    ||| num::at_most(a.measure.bottom.bits, b.y.bits)
    ||| num::at_most(b.measure.bottom.bits, a.y.bits)
}

/// The point lies strictly inside the node's box.
pub open spec fn inside_box(n: NodeView, x: u64, y: u64) -> bool {
    num::less(n.x.bits, x) && num::less(x, n.measure.right.bits) && num::less(n.y.bits, y)
        && num::less(y, n.measure.bottom.bits)
}

/// Two boxes overlap exactly where none of them ends where the other begins, in either direction.
pub proof fn law_boxes_overlap_or_stand_apart(a: NodeView, b: NodeView)
    requires
        has_box(a),
        has_box(b),
    ensures
        detectors::overlap(a, b) <==> !stand_apart(a, b),
        detectors::pair_finding(a, b).len() == 1 <==> !stand_apart(a, b),
        detectors::pair_finding(a, b).len() == 0 <==> stand_apart(a, b),
{
}

/// Where some point lies strictly inside both boxes, they overlap.
pub proof fn law_common_point_is_found(a: NodeView, b: NodeView, x: u64, y: u64)
    requires
        inside_box(a, x, y),
        inside_box(b, x, y),
    ensures
        detectors::pair_finding(a, b).len() == 1,
{
}

/// An overlap names both nodes, and is of less weight where they are more than one level apart.
pub proof fn law_overlap_names_both_nodes(a: NodeView, b: NodeView)
    requires
        detectors::pair_finding(a, b).len() > 0,
    ensures
        ({
            let v = detectors::pair_finding(a, b)[0];
            &&& v.rule == LintRule::OverlappingNodes
            &&& v.node_id == a.id + "+"@ + b.id
            &&& v.severity == LintSeverity::Info <==> (a.z_index - b.z_index > 1 || b.z_index
                - a.z_index > 1)
            &&& v.severity != LintSeverity::Error
        }),
{
}

proof fn lemma_overlaps_of(ns: Seq<NodeView>, i: int, j: int, k: int)
    requires
        0 <= i < j <= k < ns.len(),
        detectors::pair_finding(ns[i], ns[k]).len() > 0,
    ensures
        detectors::overlaps_of(ns, i, j).contains(detectors::pair_finding(ns[i], ns[k])[0]),
    decreases k - j,
{
    let head = detectors::pair_finding(ns[i], ns[j]);
    let rest = detectors::overlaps_of(ns, i, j + 1);
    let v = detectors::pair_finding(ns[i], ns[k])[0];
    if j == k {
        assert((head + rest)[0] == v);
    } else {
        lemma_overlaps_of(ns, i, j + 1, k);
        let m = choose|m: int| 0 <= m < rest.len() && rest[m] == v;
        assert((head + rest)[head.len() + m] == v);
    }
}

proof fn lemma_overlaps_from(ns: Seq<NodeView>, from: int, i: int, k: int)
    requires
        0 <= from <= i < k < ns.len(),
        detectors::pair_finding(ns[i], ns[k]).len() > 0,
    ensures
        detectors::overlaps_from(ns, from).contains(detectors::pair_finding(ns[i], ns[k])[0]),
    decreases i - from,
{
    let head = detectors::overlaps_of(ns, from, from + 1);
    let rest = detectors::overlaps_from(ns, from + 1);
    let v = detectors::pair_finding(ns[i], ns[k])[0];
    if from == i {
        lemma_overlaps_of(ns, i, i + 1, k);
        let m = choose|m: int| 0 <= m < head.len() && head[m] == v;
        assert((head + rest)[m] == v);
    } else {
        lemma_overlaps_from(ns, from + 1, i, k);
        let m = choose|m: int| 0 <= m < rest.len() && rest[m] == v;
        assert((head + rest)[head.len() + m] == v);
    }
}

/// Every two siblings that overlap are reported, as long as there are not too many siblings.
pub proof fn law_every_overlap_is_reported(ns: Seq<NodeView>, i: int, k: int)
    requires
        0 <= i < k < ns.len() <= 200,
        has_box(ns[i]),
        has_box(ns[k]),
        !stand_apart(ns[i], ns[k]),
    ensures
        exists|m: int|
            0 <= m < detectors::overlapping_nodes(ns).len() && (
            #[trigger] detectors::overlapping_nodes(ns)[m]).node_id == ns[i].id + "+"@ + ns[k].id,
{
    law_boxes_overlap_or_stand_apart(ns[i], ns[k]);
    law_overlap_names_both_nodes(ns[i], ns[k]);
    lemma_overlaps_from(ns, 0, i, k);
    let v = detectors::pair_finding(ns[i], ns[k])[0];
    let m = choose|m: int|
        0 <= m < detectors::overlaps_from(ns, 0).len() && detectors::overlaps_from(ns, 0)[m] == v;
    assert(detectors::overlapping_nodes(ns)[m] == v);
}

proof fn lemma_only_overlaps_of(ns: Seq<NodeView>, i: int, j: int, m: int)
    requires
        0 <= i < j,
        0 <= m < detectors::overlaps_of(ns, i, j).len(),
    ensures
        exists|k: int|
            j <= k < ns.len() && #[trigger] detectors::pair_finding(ns[i], ns[k]).len() > 0
                && detectors::overlaps_of(ns, i, j)[m] == detectors::pair_finding(ns[i], ns[k])[0],
    decreases ns.len() - j,
{
    let head = detectors::pair_finding(ns[i], ns[j]);
    if m < head.len() {
        assert(detectors::pair_finding(ns[i], ns[j]).len() > 0);
    } else {
        let rest = detectors::overlaps_of(ns, i, j + 1);
        lemma_only_overlaps_of(ns, i, j + 1, m - head.len());
        assert(detectors::overlaps_of(ns, i, j)[m] == rest[m - head.len()]);
    }
}

proof fn lemma_only_overlaps_from(ns: Seq<NodeView>, from: int, m: int)
    requires
        0 <= from,
        0 <= m < detectors::overlaps_from(ns, from).len(),
    ensures
        exists|i: int, k: int|
            0 <= i < k < ns.len() && #[trigger] detectors::pair_finding(ns[i], ns[k]).len() > 0
                && detectors::overlaps_from(ns, from)[m] == detectors::pair_finding(ns[i], ns[k])[0],
    decreases ns.len() - from,
{
    let head = detectors::overlaps_of(ns, from, from + 1);
    let rest = detectors::overlaps_from(ns, from + 1);
    if m < head.len() {
        lemma_only_overlaps_of(ns, from, from + 1, m);
        let k = choose|k: int|
            from + 1 <= k < ns.len() && #[trigger] detectors::pair_finding(ns[from], ns[k]).len() > 0
                && head[m] == detectors::pair_finding(ns[from], ns[k])[0];
        assert(detectors::pair_finding(ns[from], ns[k]).len() > 0);
    } else {
        lemma_only_overlaps_from(ns, from + 1, m - head.len());
        assert(detectors::overlaps_from(ns, from)[m] == rest[m - head.len()]);
    }
}

/// Only siblings that overlap are reported: none of whose boxes ends where the other begins.
pub proof fn law_only_overlaps_are_reported(ns: Seq<NodeView>, m: int)
    requires
        0 <= m < detectors::overlapping_nodes(ns).len(),
        forall|i: int| 0 <= i < ns.len() ==> has_box(#[trigger] ns[i]),
    ensures
        ns.len() <= 200,
        exists|i: int, k: int|
            0 <= i < k < ns.len() && !#[trigger] stand_apart(ns[i], ns[k])
                && detectors::overlapping_nodes(ns)[m].node_id == ns[i].id + "+"@ + ns[k].id,
{
    lemma_only_overlaps_from(ns, 0, m);
    let (i, k) = choose|i: int, k: int|
        0 <= i < k < ns.len() && #[trigger] detectors::pair_finding(ns[i], ns[k]).len() > 0
            && detectors::overlaps_from(ns, 0)[m] == detectors::pair_finding(ns[i], ns[k])[0];
    assert(has_box(ns[i]) && has_box(ns[k]));
    law_boxes_overlap_or_stand_apart(ns[i], ns[k]);
    law_overlap_names_both_nodes(ns[i], ns[k]);
    assert(!stand_apart(ns[i], ns[k]));
}

// ---------------------------------------------------------------------------
// Single nodes
// ---------------------------------------------------------------------------

/// What a rule finds in a node bears the rule and the node's id.
pub proof fn law_findings_name_rule_and_node(
    l: LinterView,
    rule: LintRule,
    n: NodeView,
    around: Option<Seq<char>>,
    i: int,
)
    requires
        0 <= i < lint::rule_findings(l, rule, n, around).len(),
    ensures
        lint::rule_findings(l, rule, n, around)[i].rule == rule,
        lint::rule_findings(l, rule, n, around)[i].node_id == n.id,
{
}

/// The contrast of a text is an error below three to one, a warning below four and a half, and well
/// from there on.
pub proof fn law_contrast_is_graded(n: NodeView, fg: Seq<char>, bg: Seq<char>)
    requires
        n.kind == NodeKind::Text,
        n.style.fill == Some(fg),
        fg.len() > 0 && bg.len() > 0,
        color::any_color(fg) is Some && color::any_color(bg) is Some,
    ensures
        detectors::contrast(n, Some(bg)).len() <= 1,
        detectors::contrast(n, Some(bg)).len() == 1 <==> num::less(
            n.measure.contrast.bits,
            detectors::FOUR_AND_A_HALF,
        ),
        detectors::contrast(n, Some(bg)).len() == 1 ==> (detectors::contrast(n, Some(bg))[0].severity
            == if num::less(n.measure.contrast.bits, detectors::THREE) {
            LintSeverity::Error
        } else {
            LintSeverity::Warning
        }),
{
    assert(num::less(n.measure.contrast.bits, detectors::THREE) ==> num::less(
        n.measure.contrast.bits,
        detectors::FOUR_AND_A_HALF,
    ));
}

/// The thresholds are what they are called; four and a half lies in the middle between the patterns of
/// four and five.
pub proof fn law_thresholds_are_in_order()
    ensures
        num::truncated(detectors::THREE) == 3,
        num::truncated(detectors::FOUR_AND_A_HALF) == 4,
        num::truncated(detectors::NINETY) == 90,
        num::truncated(detectors::HUNDREDTH) == 0,
        num::less(num::ZERO, detectors::HUNDREDTH),
        2 * detectors::FOUR_AND_A_HALF == 0x4010_0000_0000_0000 + 0x4014_0000_0000_0000,
{
    num::law_patterns_of_thresholds();
}

/// An input is reported exactly where nothing inside it bears the name of a label.
pub proof fn law_input_needs_a_label(n: NodeView)
    ensures
        detectors::names_input(n.name) && (forall|i: int|
            0 <= i < n.children.len() ==> !detectors::names_label((#[trigger] n.children[i]).name))
            ==> detectors::unlabeled_input(n).len() == 1
            && detectors::unlabeled_input(n)[0].severity == LintSeverity::Error,
        (!detectors::names_input(n.name) || (exists|i: int|
            0 <= i < n.children.len() && detectors::names_label((#[trigger] n.children[i]).name)))
            ==> detectors::unlabeled_input(n).len() == 0,
{
}

/// A label inside an input silences the rule, whatever else is inside.
pub proof fn law_label_silences_the_rule(n: NodeView, label: NodeView)
    requires
        detectors::names_label(label.name),
    ensures
        detectors::unlabeled_input(NodeView { children: n.children.push(label), ..n }).len() == 0,
{
    let m = NodeView { children: n.children.push(label), ..n };
    assert(detectors::names_label(m.children[n.children.len() as int].name));
}

/// The words by which an input, a label, a control and a state are known, in any case of letters.
pub proof fn law_names_are_known_by_their_words(name: Seq<char>)
    ensures
        text::occurs(text::lowercase(name), "input"@) ==> detectors::names_input(name)
            && detectors::names_control(name),
        text::occurs(text::lowercase(name), "textfield"@) ==> detectors::names_input(name)
            && detectors::names_control(name),
        text::occurs(text::lowercase(name), "textarea"@) ==> detectors::names_input(name),
        text::occurs(text::lowercase(name), "label"@) ==> detectors::names_label(name),
        text::occurs(text::lowercase(name), "placeholder"@) ==> detectors::names_label(name),
        text::occurs(text::lowercase(name), "hint"@) ==> detectors::names_label(name),
        text::occurs(text::lowercase(name), "button"@) ==> detectors::names_control(name),
        text::occurs(text::lowercase(name), "btn"@) ==> detectors::names_control(name),
        text::occurs(text::lowercase(name), "link"@) ==> detectors::names_control(name),
        text::occurs(text::lowercase(name), "hover"@) ==> detectors::names_state(name),
        text::occurs(text::lowercase(name), "active"@) ==> detectors::names_state(name),
        text::occurs(text::lowercase(name), "focus"@) ==> detectors::names_state(name),
        text::occurs(text::lowercase(name), "pressed"@) ==> detectors::names_state(name),
        text::occurs(text::lowercase(name), "disabled"@) ==> detectors::names_state(name),
{
}

/// A text is reported for a gradient exactly where its fill begins as one; nothing else is.
pub proof fn law_gradients_are_for_shapes(n: NodeView)
    ensures
        n.kind != NodeKind::Text ==> detectors::text_effects(n).len() == 0,
        n.style.fill is None ==> detectors::text_effects(n).len() == 0,
        n.kind == NodeKind::Text ==> (n.style.fill matches Some(f) ==> (
        detectors::text_effects(n).len() == 1 <==> ("linear-gradient"@.is_prefix_of(f)
            || "radial-gradient"@.is_prefix_of(f) || "conic-gradient"@.is_prefix_of(f)))),
        forall|i: int|
            0 <= i < detectors::text_effects(n).len() ==> (
            #[trigger] detectors::text_effects(n)[i]).severity == LintSeverity::Warning,
{
}

/// A rotation is an error beyond ninety degrees in either direction; within, it is remarked on where
/// it is no whole step of fifteen degrees. A node that is not turned is never reported.
pub proof fn law_rotation_is_graded(n: NodeView)
    requires
        !num::is_nan(n.rotation.bits),
    ensures
        num::less(detectors::NINETY, n.rotation.bits) ==> detectors::abnormal_rotation(n).len() == 1
            && detectors::abnormal_rotation(n)[0].severity == LintSeverity::Error,
        num::order_key(n.rotation.bits) < -num::order_key(detectors::NINETY)
            ==> detectors::abnormal_rotation(n).len() == 1
            && detectors::abnormal_rotation(n)[0].severity == LintSeverity::Error,
        num::equal(n.rotation.bits, num::ZERO) ==> detectors::abnormal_rotation(n).len() == 0,
        -num::order_key(detectors::NINETY) <= num::order_key(n.rotation.bits) <= num::order_key(
            detectors::NINETY,
        ) && !num::equal(n.rotation.bits, num::ZERO) ==> (detectors::abnormal_rotation(n).len() == 1
            <==> num::less(detectors::HUNDREDTH, n.measure.rotation_rest.bits)),
        -num::order_key(detectors::NINETY) <= num::order_key(n.rotation.bits) <= num::order_key(
            detectors::NINETY,
        ) ==> forall|i: int|
            0 <= i < detectors::abnormal_rotation(n).len() ==> (
            #[trigger] detectors::abnormal_rotation(n)[i]).severity == LintSeverity::Info,
{
}

/// One where the condition holds, else none.
pub open spec fn one_if(c: bool) -> int {
    if c {
        1
    } else {
        0
    }
}

/// There is one finding for each of fill, stroke and font family that is given but blank.
pub proof fn law_blank_attributes_are_counted(n: NodeView)
    ensures
        detectors::empty_effects(n).len() == one_if(
            n.style.fill matches Some(s) && text::trimmed(s).len() == 0,
        ) + one_if(n.style.stroke matches Some(s) && text::trimmed(s).len() == 0) + one_if(
            n.style.font_family matches Some(s) && text::trimmed(s).len() == 0,
        ),
        (n.style.fill matches Some(s) && text::trimmed(s).len() == 0) ==> text::occurs(
            detectors::empty_effects(n)[0].message,
            "填充色"@,
        ),
        (n.style.fill is None && (n.style.stroke matches Some(s) && text::trimmed(s).len() == 0))
            ==> text::occurs(detectors::empty_effects(n)[0].message, "描边色"@),
        (n.style.fill is None && n.style.stroke is None && (n.style.font_family matches Some(s)
            && text::trimmed(s).len() == 0)) ==> text::occurs(
            detectors::empty_effects(n)[0].message,
            "字体族"@,
        ),
{
    reveal_strlit("' 声明了填充色但值为空");
    reveal_strlit("填充色");
    reveal_strlit("' 声明了描边色但值为空");
    reveal_strlit("描边色");
    reveal_strlit("' 声明了字体族但值为空");
    reveal_strlit("字体族");
    let front = "节点 '"@ + n.name;
    lemma_word_in(front, "' 声明了填充色但值为空"@, "填充色"@);
    lemma_word_in(front, "' 声明了描边色但值为空"@, "描边色"@);
    lemma_word_in(front, "' 声明了字体族但值为空"@, "字体族"@);
}

proof fn lemma_word_in(front: Seq<char>, s: Seq<char>, word: Seq<char>)
    requires
        s.len() >= 8,
        word.len() == 3,
        s[5] == word[0] && s[6] == word[1] && s[7] == word[2],
    ensures
        text::occurs(front + s, word),
{
    let i: int = (front.len() + 5) as int;
    assert((front + s).subrange(i, i + 3) =~= word);
    assert(text::occurs_at(front + s, word, i));
}

/// A node is reported for its name exactly where it is one that new nodes bear.
pub proof fn law_default_names_are_reported(n: NodeView)
    ensures
        detectors::unnamed_node(n).len() == one_if(
            n.name == "Rect"@ || n.name == "Text"@ || n.name == "Circle"@ || n.name == "Image"@
                || n.name == "Group"@,
        ),
{
}

/// A text that is not blank is reported exactly where its box has no width or less than the text needs;
/// nothing else is.
pub proof fn law_overflow_is_reported(n: NodeView)
    requires
        !num::is_nan(n.w.bits),
        !num::is_nan(n.measure.text_width.bits),
    ensures
        n.kind != NodeKind::Text ==> detectors::text_overflow(n).len() == 0,
        n.kind == NodeKind::Text && text::trimmed(text::text_or_empty(n.text)).len() > 0 ==> (
        detectors::text_overflow(n).len() == 1 <==> (num::at_most(n.w.bits, num::ZERO) || num::less(
            n.w.bits,
            n.measure.text_width.bits,
        ))),
        forall|i: int|
            0 <= i < detectors::text_overflow(n).len() ==> (
            #[trigger] detectors::text_overflow(n)[i]).severity == LintSeverity::Error,
{
}

/// A gap and a padding are reported where they are not zero and have no token behind them.
pub proof fn law_spacing_needs_tokens(n: NodeView)
    ensures
        n.style.layout is Free ==> detectors::hardcoded_spacing(n).len() == 0,
        n.style.layout matches LayoutView::Flex(p) ==> detectors::hardcoded_spacing(n).len()
            == one_if(!num::equal(p.gap.bits, num::ZERO) && !detectors::has_ref(n, "gap"@)) + one_if(
            !(num::equal(p.padding.top.bits, num::ZERO) && num::equal(
                p.padding.right.bits,
                num::ZERO,
            ) && num::equal(p.padding.bottom.bits, num::ZERO) && num::equal(
                p.padding.left.bits,
                num::ZERO,
            )) && !detectors::has_ref(n, "padding"@),
        ),
        n.style.layout matches LayoutView::Grid(g) ==> detectors::hardcoded_spacing(n).len()
            == one_if(
            !(num::equal(g.column_gap.bits, num::ZERO) && num::equal(g.row_gap.bits, num::ZERO))
                && !detectors::has_ref(n, "gap"@),
        ),
{
}

/// A font size is reported where it is above zero and has no token behind it.
pub proof fn law_font_size_needs_a_token(n: NodeView)
    ensures
        detectors::hardcoded_font_size(n).len() == one_if(
            (n.style.font_size matches Some(s) && num::positive(s.bits)) && !detectors::has_ref(
                n,
                "font_size"@,
            ),
        ),
{
}

/// A control is reported exactly where nothing inside it bears the name of a state.
pub proof fn law_control_needs_a_state(n: NodeView)
    ensures
        detectors::names_control(n.name) && (forall|i: int|
            0 <= i < n.children.len() ==> !detectors::names_state((#[trigger] n.children[i]).name))
            ==> detectors::missing_interaction_state(n).len() == 1
            && detectors::missing_interaction_state(n)[0].severity == LintSeverity::Warning,
        (!detectors::names_control(n.name) || (exists|i: int|
            0 <= i < n.children.len() && detectors::names_state((#[trigger] n.children[i]).name)))
            ==> detectors::missing_interaction_state(n).len() == 0,
{
}

// ---------------------------------------------------------------------------
// Tokens
// ---------------------------------------------------------------------------

/// The token stands for the text: it is that colour, or a text that is no reference.
pub open spec fn stands_for(t: TokenView, s: Seq<char>) -> bool {
    t.value == ValueView::Color(s) || (t.value == ValueView::Text(s) && !"token:"@.is_prefix_of(s))
}

/// The token stands for the number, as it is written.
pub open spec fn stands_for_number(t: TokenView, s: Seq<char>) -> bool {
    match t.value {
        ValueView::Number(n) => n.text == s,
        ValueView::Text(v) => !"token:"@.is_prefix_of(v) && t.reading == Some(s),
        _ => false,
    }
}

/// A token that is found for a text stands for it, and where none is found none does.
pub proof fn law_token_found_stands_for_the_text(ts: Seq<TokenView>, s: Seq<char>)
    ensures
        match lint::token_for(lint::keyed(ts, false), s) {
            Some(name) => exists|i: int|
                0 <= i < ts.len() && (#[trigger] ts[i]).name == name && stands_for(ts[i], s),
            None => forall|i: int| 0 <= i < ts.len() ==> !stands_for(#[trigger] ts[i], s),
        },
    decreases ts.len(),
{
    if ts.len() > 0 {
        let init = ts.drop_last();
        let last = ts[ts.len() - 1];
        law_token_found_stands_for_the_text(init, s);
        let all = lint::keyed(ts, false);
        if lint::style_key(last) is Some {
            assert(all.drop_last() =~= lint::keyed(init, false));
        }
        match lint::token_for(all, s) {
            Some(name) => {
                if lint::style_key(last) == Some(s) {
                    assert(ts[ts.len() - 1].name == name && stands_for(last, s));
                } else {
                    let i = choose|i: int|
                        0 <= i < init.len() && (#[trigger] init[i]).name == name && stands_for(
                            init[i],
                            s,
                        );
                    assert(ts[i] == init[i]);
                }
            },
            None => {
                assert forall|i: int| 0 <= i < ts.len() implies !stands_for(#[trigger] ts[i], s) by {
                    if i < init.len() {
                        assert(init[i] == ts[i]);
                    }
                }
            },
        }
    }
}

/// So it is with numbers.
pub proof fn law_token_found_stands_for_the_number(ts: Seq<TokenView>, s: Seq<char>)
    ensures
        match lint::token_for(lint::keyed(ts, true), s) {
            Some(name) => exists|i: int|
                0 <= i < ts.len() && (#[trigger] ts[i]).name == name && stands_for_number(ts[i], s),
            None => forall|i: int| 0 <= i < ts.len() ==> !stands_for_number(#[trigger] ts[i], s),
        },
    decreases ts.len(),
{
    if ts.len() > 0 {
        let init = ts.drop_last();
        let last = ts[ts.len() - 1];
        law_token_found_stands_for_the_number(init, s);
        let all = lint::keyed(ts, true);
        if lint::number_key(last) is Some {
            assert(all.drop_last() =~= lint::keyed(init, true));
        }
        match lint::token_for(all, s) {
            Some(name) => {
                if lint::number_key(last) == Some(s) {
                    assert(ts[ts.len() - 1].name == name && stands_for_number(last, s));
                } else {
                    let i = choose|i: int|
                        0 <= i < init.len() && (#[trigger] init[i]).name == name
                            && stands_for_number(init[i], s);
                    assert(ts[i] == init[i]);
                }
            },
            None => {
                assert forall|i: int| 0 <= i < ts.len() implies !stands_for_number(
                    #[trigger] ts[i],
                    s,
                ) by {
                    if i < init.len() {
                        assert(init[i] == ts[i]);
                    }
                }
            },
        }
    }
}

/// Some token of the system stands for the value.
pub open spec fn has_token(s: SystemView, value: Option<Seq<char>>) -> bool {
    value matches Some(v) && exists|i: int| 0 <= i < s.tokens.len() && stands_for(#[trigger] s.tokens[i], v)
}

/// There is one finding for each of fill and stroke that a token of the system stands for.
pub proof fn law_literal_colors_are_reported(n: NodeView, s: SystemView)
    ensures
        detectors::token_inconsistency(n, Some(s)).len() == one_if(has_token(s, n.style.fill))
            + one_if(has_token(s, n.style.stroke)),
        detectors::token_inconsistency(n, None).len() == 0,
        forall|i: int|
            0 <= i < detectors::token_inconsistency(n, Some(s)).len() ==> (
            #[trigger] detectors::token_inconsistency(n, Some(s))[i]).severity == LintSeverity::Info,
{
    if let Some(v) = n.style.fill {
        law_token_found_stands_for_the_text(s.tokens, v);
    }
    if let Some(v) = n.style.stroke {
        law_token_found_stands_for_the_text(s.tokens, v);
    }
}

// ---------------------------------------------------------------------------
// Siblings and trees
// ---------------------------------------------------------------------------

proof fn lemma_layouts(ns: Seq<NodeView>, from: int, j: int)
    requires
        1 <= from <= j < ns.len(),
    ensures
        !detectors::same_layout_sort(ns[0].style.layout, ns[j].style.layout) ==> exists|m: int|
            0 <= m < detectors::layout_findings(ns, from).len() && (
            #[trigger] detectors::layout_findings(ns, from)[m]).node_id == ns[0].id + "+"@
                + ns[j].id,
    decreases j - from,
{
    let all = detectors::layout_findings(ns, from);
    let rest = detectors::layout_findings(ns, from + 1);
    if !detectors::same_layout_sort(ns[0].style.layout, ns[j].style.layout) {
        if from == j {
            assert(all[0].node_id == ns[0].id + "+"@ + ns[j].id);
        } else {
            lemma_layouts(ns, from + 1, j);
            let m = choose|m: int|
                0 <= m < rest.len() && (#[trigger] rest[m]).node_id == ns[0].id + "+"@ + ns[j].id;
            assert(all[all.len() - rest.len() + m] == rest[m]);
        }
    }
}

/// A sibling whose layout is of another sort than that of the first is reported together with it.
pub proof fn law_mixed_layouts_are_reported(ns: Seq<NodeView>, j: int)
    requires
        1 <= j < ns.len(),
        !(ns[0].style.layout is Free && ns[j].style.layout is Free),
        !(ns[0].style.layout is Flex && ns[j].style.layout is Flex),
        !(ns[0].style.layout is Grid && ns[j].style.layout is Grid),
    ensures
        exists|m: int|
            0 <= m < detectors::layout_inconsistency(ns).len() && (
            #[trigger] detectors::layout_inconsistency(ns)[m]).node_id == ns[0].id + "+"@ + ns[j].id,
{
    lemma_layouts(ns, 1, j);
    let m = choose|m: int|
        0 <= m < detectors::layout_findings(ns, 1).len() && (#[trigger] detectors::layout_findings(
            ns,
            1,
        )[m]).node_id == ns[0].id + "+"@ + ns[j].id;
    assert(detectors::layout_inconsistency(ns)[m] == detectors::layout_findings(ns, 1)[m]);
}

proof fn lemma_uniform(ns: Seq<NodeView>, from: int)
    requires
        1 <= from,
        forall|j: int|
            0 <= j < ns.len() ==> detectors::same_layout_sort(
                ns[0].style.layout,
                (#[trigger] ns[j]).style.layout,
            ),
    ensures
        detectors::layout_findings(ns, from).len() == 0,
    decreases ns.len() - from,
{
    if from < ns.len() {
        lemma_uniform(ns, from + 1);
        assert(detectors::same_layout_sort(ns[0].style.layout, ns[from].style.layout));
    }
}

/// Siblings with layouts of one sort are not reported.
pub proof fn law_uniform_layouts_are_fine(ns: Seq<NodeView>)
    requires
        (forall|j: int| 0 <= j < ns.len() ==> (#[trigger] ns[j]).style.layout is Free) || (forall|
            j: int,
        | 0 <= j < ns.len() ==> (#[trigger] ns[j]).style.layout is Flex) || (forall|j: int|
            0 <= j < ns.len() ==> (#[trigger] ns[j]).style.layout is Grid),
    ensures
        detectors::layout_inconsistency(ns).len() == 0,
{
    if ns.len() > 0 {
        assert forall|j: int| 0 <= j < ns.len() implies detectors::same_layout_sort(
            ns[0].style.layout,
            (#[trigger] ns[j]).style.layout,
        ) by {
            let first = ns[0];
            let other = ns[j];
        }
        lemma_uniform(ns, 1);
    }
}

proof fn lemma_in_sum(a: Seq<ViolationView>, b: Seq<ViolationView>, v: ViolationView)
    ensures
        a.contains(v) ==> (a + b).contains(v),
        b.contains(v) ==> (a + b).contains(v),
        (a + b).contains(v) ==> a.contains(v) || b.contains(v),
{
    if a.contains(v) {
        let i = choose|i: int| 0 <= i < a.len() && a[i] == v;
        assert((a + b)[i] == v);
    }
    if b.contains(v) {
        let i = choose|i: int| 0 <= i < b.len() && b[i] == v;
        assert((a + b)[a.len() + i] == v);
    }
    if (a + b).contains(v) {
        let i = choose|i: int| 0 <= i < (a + b).len() && (a + b)[i] == v;
        if i < a.len() {
            assert(a[i] == v);
        } else {
            assert(b[i - a.len()] == v);
        }
    }
}

/// What the rules find, one after the other.
spec fn gathered(rules: Seq<LintRule>, found: spec_fn(LintRule) -> Seq<ViolationView>) -> Seq<
    ViolationView,
>
    decreases rules.len(),
{
    if rules.len() == 0 {
        Seq::empty()
    } else {
        gathered(rules.drop_last(), found) + found(rules.last())
    }
}

proof fn lemma_gathered(
    rules: Seq<LintRule>,
    found: spec_fn(LintRule) -> Seq<ViolationView>,
    rule: LintRule,
    v: ViolationView,
)
    requires
        rules.contains(rule),
        found(rule).contains(v),
    ensures
        gathered(rules, found).contains(v),
    decreases rules.len(),
{
    let init = rules.drop_last();
    let k = choose|k: int| 0 <= k < rules.len() && rules[k] == rule;
    lemma_in_sum(gathered(init, found), found(rules.last()), v);
    if k < init.len() {
        assert(init[k] == rule);
        lemma_gathered(init, found, rule, v);
    }
}

proof fn lemma_node_gathers(
    l: LinterView,
    rules: Seq<LintRule>,
    n: NodeView,
    around: Option<Seq<char>>,
    found: spec_fn(LintRule) -> Seq<ViolationView>,
)
    requires
        forall|r: LintRule| #[trigger] found(r) == lint::rule_findings(l, r, n, around),
    ensures
        lint::node_findings(l, rules, n, around) == gathered(rules, found),
    decreases rules.len(),
{
    if rules.len() > 0 {
        lemma_node_gathers(l, rules.drop_last(), n, around, found);
        assert(found(rules.last()) == lint::rule_findings(l, rules.last(), n, around));
    }
}

proof fn lemma_rules_apply(
    l: LinterView,
    rules: Seq<LintRule>,
    rule: LintRule,
    n: NodeView,
    around: Option<Seq<char>>,
    v: ViolationView,
)
    requires
        rules.contains(rule),
        lint::rule_findings(l, rule, n, around).contains(v),
    ensures
        lint::node_findings(l, rules, n, around).contains(v),
{
    let found = |r: LintRule| lint::rule_findings(l, r, n, around);
    lemma_node_gathers(l, rules, n, around, found);
    assert(found(rule).contains(v));
    lemma_gathered(rules, found, rule, v);
}

/// What a chosen rule finds in a node is reported; what is inside the node is held against its fill,
/// and reported too.
pub proof fn law_every_node_is_checked(
    l: LinterView,
    rule: LintRule,
    n: NodeView,
    around: Option<Seq<char>>,
    i: int,
    v: ViolationView,
)
    requires
        l.rules.contains(rule),
    ensures
        lint::rule_findings(l, rule, n, around).contains(v) ==> lint::tree_findings(
            l,
            n,
            around,
        ).contains(v),
        0 <= i < n.children.len() && lint::tree_findings(
            l,
            n.children[i],
            n.style.fill,
        ).contains(v) ==> lint::tree_findings(l, n, around).contains(v),
        rule == LintRule::OverlappingNodes && detectors::overlapping_nodes(n.children).contains(v)
            ==> lint::tree_findings(l, n, around).contains(v),
        rule == LintRule::LayoutInconsistency && detectors::layout_inconsistency(
            n.children,
        ).contains(v) ==> lint::tree_findings(l, n, around).contains(v),
{
    let own = lint::node_findings(l, l.rules, n, around);
    let sib = lint::sibling_findings(l, n.children);
    let list = lint::list_findings(l, n.children, n.style.fill);
    lemma_in_sum(sib, list, v);
    lemma_in_sum(own, sib + list, v);
    if lint::rule_findings(l, rule, n, around).contains(v) {
        lemma_rules_apply(l, l.rules, rule, n, around, v);
    }
    if 0 <= i < n.children.len() && lint::tree_findings(l, n.children[i], n.style.fill).contains(v) {
        lemma_list_holds(l, n.children, n.style.fill, i, v);
    }
    lemma_siblings(l, n.children, v);
}

proof fn lemma_siblings(l: LinterView, ns: Seq<NodeView>, v: ViolationView)
    ensures
        l.rules.contains(LintRule::OverlappingNodes) && detectors::overlapping_nodes(ns).contains(v)
            ==> lint::sibling_findings(l, ns).contains(v),
        l.rules.contains(LintRule::LayoutInconsistency) && detectors::layout_inconsistency(
            ns,
        ).contains(v) ==> lint::sibling_findings(l, ns).contains(v),
{
    let a = if l.rules.contains(LintRule::OverlappingNodes) {
        detectors::overlapping_nodes(ns)
    } else {
        Seq::empty()
    };
    let b = if l.rules.contains(LintRule::LayoutInconsistency) {
        detectors::layout_inconsistency(ns)
    } else {
        Seq::empty()
    };
    lemma_in_sum(a, b, v);
}

proof fn lemma_list_holds(
    l: LinterView,
    ns: Seq<NodeView>,
    around: Option<Seq<char>>,
    i: int,
    v: ViolationView,
)
    requires
        0 <= i < ns.len(),
        lint::tree_findings(l, ns[i], around).contains(v),
    ensures
        lint::list_findings(l, ns, around).contains(v),
    decreases ns.len(),
{
    let init = ns.drop_last();
    lemma_in_sum(
        lint::list_findings(l, init, around),
        lint::tree_findings(l, ns.last(), around),
        v,
    );
    if i < init.len() {
        assert(init[i] == ns[i]);
        lemma_list_holds(l, init, around, i, v);
    }
}

/// Every page is checked: what is found in one of its nodes, which stand on nothing, and among them is
/// reported.
pub proof fn law_every_page_is_checked(
    l: LinterView,
    ps: Seq<PageView>,
    k: int,
    i: int,
    v: ViolationView,
)
    requires
        0 <= k < ps.len(),
    ensures
        0 <= i < ps[k].nodes.len() && lint::tree_findings(l, ps[k].nodes[i], None).contains(v)
            ==> lint::page_findings(l, ps).contains(v),
        l.rules.contains(LintRule::OverlappingNodes) && detectors::overlapping_nodes(
            ps[k].nodes,
        ).contains(v) ==> lint::page_findings(l, ps).contains(v),
        l.rules.contains(LintRule::LayoutInconsistency) && detectors::layout_inconsistency(
            ps[k].nodes,
        ).contains(v) ==> lint::page_findings(l, ps).contains(v),
    decreases ps.len(),
{
    let init = ps.drop_last();
    let sib = lint::sibling_findings(l, ps.last().nodes);
    let list = lint::list_findings(l, ps.last().nodes, None);
    lemma_in_sum(sib, list, v);
    lemma_in_sum(lint::page_findings(l, init), sib + list, v);
    if k < init.len() {
        assert(init[k] == ps[k]);
        law_every_page_is_checked(l, init, k, i, v);
    } else {
        lemma_siblings(l, ps[k].nodes, v);
        if 0 <= i < ps[k].nodes.len() && lint::tree_findings(l, ps[k].nodes[i], None).contains(v) {
            lemma_list_holds(l, ps[k].nodes, None, i, v);
        }
    }
}

/// Nothing is found in a node but what one of the rules in use finds there, what is found among its
/// children as siblings, and what is found in them on the ground of its fill.
pub proof fn law_findings_come_from_rules(
    l: LinterView,
    n: NodeView,
    around: Option<Seq<char>>,
    v: ViolationView,
)
    requires
        lint::tree_findings(l, n, around).contains(v),
    ensures
        (exists|k: int|
            0 <= k < l.rules.len() && lint::rule_findings(
                l,
                #[trigger] l.rules[k],
                n,
                around,
            ).contains(v)) || (l.rules.contains(LintRule::OverlappingNodes)
            && detectors::overlapping_nodes(n.children).contains(v)) || (l.rules.contains(
            LintRule::LayoutInconsistency,
        ) && detectors::layout_inconsistency(n.children).contains(v)) || (exists|i: int|
            0 <= i < n.children.len() && lint::tree_findings(
                l,
                #[trigger] n.children[i],
                n.style.fill,
            ).contains(v)),
{
    let own = lint::node_findings(l, l.rules, n, around);
    let sib = lint::sibling_findings(l, n.children);
    let list = lint::list_findings(l, n.children, n.style.fill);
    lemma_in_sum(sib, list, v);
    lemma_in_sum(own, sib + list, v);
    if own.contains(v) {
        lemma_from_rule(l, l.rules, n, around, v);
    } else if sib.contains(v) {
        lemma_from_siblings(l, n.children, v);
    } else {
        lemma_from_list(l, n.children, n.style.fill, v);
    }
}

proof fn lemma_from_rule(
    l: LinterView,
    rules: Seq<LintRule>,
    n: NodeView,
    around: Option<Seq<char>>,
    v: ViolationView,
)
    requires
        lint::node_findings(l, rules, n, around).contains(v),
    ensures
        exists|k: int|
            0 <= k < rules.len() && lint::rule_findings(l, #[trigger] rules[k], n, around).contains(
                v,
            ),
{
    let found = |r: LintRule| lint::rule_findings(l, r, n, around);
    lemma_node_gathers(l, rules, n, around, found);
    lemma_from_gathered(rules, found, v);
    let k = choose|k: int| 0 <= k < rules.len() && found(#[trigger] rules[k]).contains(v);
    assert(lint::rule_findings(l, rules[k], n, around).contains(v));
}

proof fn lemma_from_gathered(
    rules: Seq<LintRule>,
    found: spec_fn(LintRule) -> Seq<ViolationView>,
    v: ViolationView,
)
    requires
        gathered(rules, found).contains(v),
    ensures
        exists|k: int| 0 <= k < rules.len() && found(#[trigger] rules[k]).contains(v),
    decreases rules.len(),
{
    if rules.len() > 0 {
        let init = rules.drop_last();
        lemma_in_sum(gathered(init, found), found(rules.last()), v);
        if gathered(init, found).contains(v) {
            lemma_from_gathered(init, found, v);
            let k = choose|k: int| 0 <= k < init.len() && found(#[trigger] init[k]).contains(v);
            assert(found(rules[k]).contains(v));
        } else {
            assert(found(rules[rules.len() - 1]).contains(v));
        }
    }
}

proof fn lemma_from_siblings(l: LinterView, ns: Seq<NodeView>, v: ViolationView)
    requires
        lint::sibling_findings(l, ns).contains(v),
    ensures
        (l.rules.contains(LintRule::OverlappingNodes) && detectors::overlapping_nodes(ns).contains(
            v,
        )) || (l.rules.contains(LintRule::LayoutInconsistency) && detectors::layout_inconsistency(
            ns,
        ).contains(v)),
{
    let a = if l.rules.contains(LintRule::OverlappingNodes) {
        detectors::overlapping_nodes(ns)
    } else {
        Seq::empty()
    };
    let b = if l.rules.contains(LintRule::LayoutInconsistency) {
        detectors::layout_inconsistency(ns)
    } else {
        Seq::empty()
    };
    lemma_in_sum(a, b, v);
}

proof fn lemma_from_list(
    l: LinterView,
    ns: Seq<NodeView>,
    around: Option<Seq<char>>,
    v: ViolationView,
)
    requires
        lint::list_findings(l, ns, around).contains(v),
    ensures
        exists|i: int|
            0 <= i < ns.len() && lint::tree_findings(l, #[trigger] ns[i], around).contains(v),
    decreases ns.len(),
{
    if ns.len() > 0 {
        let init = ns.drop_last();
        lemma_in_sum(
            lint::list_findings(l, init, around),
            lint::tree_findings(l, ns.last(), around),
            v,
        );
        if lint::list_findings(l, init, around).contains(v) {
            lemma_from_list(l, init, around, v);
            let i = choose|i: int|
                0 <= i < init.len() && lint::tree_findings(l, #[trigger] init[i], around).contains(v);
            assert(lint::tree_findings(l, ns[i], around).contains(v));
        } else {
            assert(lint::tree_findings(l, ns[ns.len() - 1], around).contains(v));
        }
    }
}

/// Nothing is found on the pages but what is found in one of their nodes, or among the nodes of one
/// page as siblings.
pub proof fn law_page_findings_come_from_nodes(l: LinterView, ps: Seq<PageView>, v: ViolationView)
    requires
        lint::page_findings(l, ps).contains(v),
    ensures
        exists|k: int|
            0 <= k < ps.len() && found_on_page(l, #[trigger] ps[k], v),
    decreases ps.len(),
{
    if ps.len() > 0 {
        let init = ps.drop_last();
        let nodes = ps.last().nodes;
        let sib = lint::sibling_findings(l, nodes);
        let list = lint::list_findings(l, nodes, None);
        lemma_in_sum(sib, list, v);
        lemma_in_sum(lint::page_findings(l, init), sib + list, v);
        if lint::page_findings(l, init).contains(v) {
            law_page_findings_come_from_nodes(l, init, v);
            let k = choose|k: int| 0 <= k < init.len() && found_on_page(l, #[trigger] init[k], v);
            assert(found_on_page(l, ps[k], v));
        } else {
            if sib.contains(v) {
                lemma_from_siblings(l, nodes, v);
            } else {
                lemma_from_list(l, nodes, None, v);
            }
            assert(found_on_page(l, ps[ps.len() - 1], v));
        }
    }
}

/// The finding is one in a node of the page, which stands on no fill, or one among its nodes as
/// siblings.
pub open spec fn found_on_page(l: LinterView, p: PageView, v: ViolationView) -> bool {
    (exists|i: int|
        0 <= i < p.nodes.len() && lint::tree_findings(l, #[trigger] p.nodes[i], None).contains(v))
        || (l.rules.contains(LintRule::OverlappingNodes) && detectors::overlapping_nodes(
        p.nodes,
    ).contains(v)) || (l.rules.contains(LintRule::LayoutInconsistency)
        && detectors::layout_inconsistency(p.nodes).contains(v))
}

/// The contrast is looked at only of a text with a fill, on a fill, where both are colors.
pub proof fn law_contrast_needs_two_colors(n: NodeView, around: Option<Seq<char>>)
    ensures
        detectors::contrast(n, around).len() > 0 ==> n.kind == NodeKind::Text && (n.style.fill
            matches Some(fg) && color::any_color(fg) is Some) && (around matches Some(bg)
            && color::any_color(bg) is Some),
{
}

/// Each violation is counted under its own severity, once.
pub proof fn law_violations_are_counted(vs: Seq<ViolationView>, v: ViolationView, s: LintSeverity)
    ensures
        lint::severity_count(vs.push(v), s) == lint::severity_count(vs, s) + (if v.severity == s {
            1nat
        } else {
            0
        }),
        lint::severity_count(Seq::empty(), s) == 0,
{
    assert(vs.push(v).drop_last() =~= vs);
}

/// The nodes of all pages are counted.
pub proof fn law_pages_are_counted(ps: Seq<PageView>, p: PageView)
    ensures
        lint::page_node_count(ps.push(p)) == lint::page_node_count(ps) + canvas::node_count(p.nodes),
        lint::page_node_count(Seq::empty()) == 0,
{
    assert(ps.push(p).drop_last() =~= ps);
}

/// No two rules share a name.
pub proof fn law_rules_are_known_by_their_names(a: LintRule, b: LintRule)
    ensures
        a.spec_name() == b.spec_name() ==> a == b,
{
    reveal_strlit("contrast_check");
    reveal_strlit("unlabeled_input");
    reveal_strlit("text_effects");
    reveal_strlit("abnormal_rotation");
    reveal_strlit("empty_effects");
    reveal_strlit("token_inconsistency");
    reveal_strlit("unnamed_node");
    reveal_strlit("text_overflow");
    reveal_strlit("overlapping_nodes");
    reveal_strlit("hardcoded_spacing");
    reveal_strlit("hardcoded_font_size");
    reveal_strlit("missing_interaction_state");
    reveal_strlit("layout_inconsistency");
    let x = a.spec_name();
    let y = b.spec_name();
    assert(x.len() != y.len() || x[0] != y[0] || a == b);
}

} // verus!
