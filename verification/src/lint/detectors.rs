//! The rules, one by one.

use vstd::prelude::*;
use vstd::string::*;

use crate::canvas;
use crate::canvas::{LayoutMode, LayoutView, NodeKind, NodeView, PenNode};
use crate::codegen::wrap;
use crate::design_system::{DesignSystem, SystemView};
use crate::lint;
use crate::lint::color;
use crate::lint::color::parse_color_any;
use crate::lint::{
    build_token_map, extend, find_token, LintRule, LintSeverity, LintViolation, ViolationView,
};
use crate::num;
use crate::num::{num_eq, num_lt};
use crate::text;
use crate::text::{chars_of, contains, number, or_empty, same, starts_with, to_lowercase, trim};

verus! {

/// More siblings than this are not checked for overlaps.
pub const OVERLAP_CHECK_THRESHOLD: usize = 200;

/// The bit pattern of 90.
pub const NINETY: u64 = 0x4056_8000_0000_0000;

/// The bit pattern of 0.01.
pub const HUNDREDTH: u64 = 0x3f84_7ae1_47ae_147b;

/// The bit pattern of 3.
pub const THREE: u64 = 0x4008_0000_0000_0000;

/// The bit pattern of 4.5.
pub const FOUR_AND_A_HALF: u64 = 0x4012_0000_0000_0000;

// ---------------------------------------------------------------------------
// What the rules find
// ---------------------------------------------------------------------------

/// One finding.
pub open spec fn finding(
    rule: LintRule,
    id: Seq<char>,
    message: Seq<char>,
    suggestion: Seq<char>,
    severity: LintSeverity,
) -> Seq<ViolationView> {
    seq![ViolationView { rule, node_id: id, message, suggestion, severity }]
}

/// The contrast of a text with the fill around it, where both are colours.
pub open spec fn contrast(n: NodeView, around: Option<Seq<char>>) -> Seq<ViolationView> {
    match (n.style.fill, around) {
        (Some(fg), Some(bg)) => if n.kind != NodeKind::Text || fg.len() == 0 || bg.len() == 0
            || color::any_color(fg) is None || color::any_color(bg) is None {
            Seq::empty()
        } else if num::less(n.measure.contrast.bits, THREE) {
            finding(
                LintRule::ContrastCheck,
                n.id,
                "对比度 "@ + n.measure.contrast.text + ":1 不足（最低 3:1）"@,
                "增大前景色与背景色的明度差"@,
                LintSeverity::Error,
            )
        } else if num::less(n.measure.contrast.bits, FOUR_AND_A_HALF) {
            finding(
                LintRule::ContrastCheck,
                n.id,
                "对比度 "@ + n.measure.contrast.text + ":1 偏低（建议 4.5:1）"@,
                "建议对比度达到 4.5:1 以满足 WCAG AA 标准"@,
                LintSeverity::Warning,
            )
        } else {
            Seq::empty()
        },
        _ => Seq::empty(),
    }
}

/// The name is that of an input.
pub open spec fn names_input(name: Seq<char>) -> bool {
    let l = text::lowercase(name);
    text::occurs(l, "input"@) || text::occurs(l, "textfield"@) || text::occurs(l, "textarea"@)
        || text::occurs(l, "搜索"@) || text::occurs(l, "输入"@)
}

/// The name is that of a label or of a placeholder.
pub open spec fn names_label(name: Seq<char>) -> bool {
    let l = text::lowercase(name);
    text::occurs(l, "label"@) || text::occurs(l, "标题"@) || text::occurs(l, "placeholder"@)
        || text::occurs(l, "提示"@) || text::occurs(l, "hint"@)
}

/// An input without a label inside it.
pub open spec fn unlabeled_input(n: NodeView) -> Seq<ViolationView> {
    if names_input(n.name) && !(exists|i: int|
        0 <= i < n.children.len() && names_label((#[trigger] n.children[i]).name)) {
        finding(
            LintRule::UnlabeledInput,
            n.id,
            "输入控件 '"@ + n.name + "' 缺少标签"@,
            "添加 label 或 placeholder 子节点"@,
            LintSeverity::Error,
        )
    } else {
        Seq::empty()
    }
}

/// A text filled with a gradient.
pub open spec fn text_effects(n: NodeView) -> Seq<ViolationView> {
    match n.style.fill {
        Some(fill) => if n.kind == NodeKind::Text && ("linear-gradient"@.is_prefix_of(fill)
            || "radial-gradient"@.is_prefix_of(fill) || "conic-gradient"@.is_prefix_of(fill)) {
            finding(
                LintRule::TextEffects,
                n.id,
                "文本节点 '"@ + n.name + "' 使用了渐变填充"@,
                "文本渐变降低可读性，建议使用纯色填充"@,
                LintSeverity::Warning,
            )
        } else {
            Seq::empty()
        },
        None => Seq::empty(),
    }
}

/// The number is further from zero than 90.
pub open spec fn beyond_ninety(bits: u64) -> bool {
    !num::is_nan(bits) && num::magnitude(bits) > NINETY
}

/// A rotation by more than 90 degrees, or by no whole step of fifteen.
pub open spec fn abnormal_rotation(n: NodeView) -> Seq<ViolationView> {
    if beyond_ninety(n.rotation.bits) {
        finding(
            LintRule::AbnormalRotation,
            n.id,
            "节点 '"@ + n.name + "' 旋转角度 "@ + n.measure.rotation_label + "° 超过 90°"@,
            "超过 90° 的旋转可能导致内容不可读，请确认是否正确"@,
            LintSeverity::Error,
        )
    } else if !num::equal(n.rotation.bits, num::ZERO) && num::less(
        HUNDREDTH,
        n.measure.rotation_rest.bits,
    ) {
        finding(
            LintRule::AbnormalRotation,
            n.id,
            "节点 '"@ + n.name + "' 旋转角度 "@ + n.measure.rotation_label + "° 非 15° 倍数"@,
            "建议使用 15° 倍数的旋转角度以保持对齐一致"@,
            LintSeverity::Info,
        )
    } else {
        Seq::empty()
    }
}

/// The attribute is there, but holds nothing.
pub open spec fn is_blank(o: Option<Seq<char>>) -> bool {
    o matches Some(s) && text::trimmed(s).len() == 0
}

/// A blank attribute.
pub open spec fn blank_finding(
    n: NodeView,
    attribute: Option<Seq<char>>,
    message: Seq<char>,
    suggestion: Seq<char>,
) -> Seq<ViolationView> {
    if is_blank(attribute) {
        finding(
            LintRule::EmptyEffects,
            n.id,
            "节点 '"@ + n.name + message,
            suggestion,
            LintSeverity::Warning,
        )
    } else {
        Seq::empty()
    }
}

/// Blank attributes.
pub open spec fn empty_effects(n: NodeView) -> Seq<ViolationView> {
    blank_finding(
        n,
        n.style.fill,
        "' 声明了填充色但值为空"@,
        "移除空的填充声明或设置颜色值"@,
    ) + blank_finding(
        n,
        n.style.stroke,
        "' 声明了描边色但值为空"@,
        "移除空的描边声明或设置颜色值"@,
    ) + blank_finding(
        n,
        n.style.font_family,
        "' 声明了字体族但值为空"@,
        "移除空的字体声明或设置字体族"@,
    )
}

/// A colour for which there is a token.
pub open spec fn token_finding(
    n: NodeView,
    value: Option<Seq<char>>,
    attribute: Seq<char>,
    system: SystemView,
) -> Seq<ViolationView> {
    match value {
        Some(v) => match lint::token_for(lint::keyed(system.tokens, false), v) {
            Some(token) => finding(
                LintRule::TokenInconsistency,
                n.id,
                "节点 '"@ + n.name + attribute + v + "' 匹配 Token '"@ + token
                    + "'，建议直接引用 Token"@,
                "使用 Token 引用替代硬编码值: "@ + token,
                LintSeverity::Info,
            ),
            None => Seq::empty(),
        },
        None => Seq::empty(),
    }
}

/// Colours for which the design system has tokens.
pub open spec fn token_inconsistency(
    n: NodeView,
    system: Option<SystemView>,
) -> Seq<ViolationView> {
    match system {
        Some(s) => token_finding(n, n.style.fill, "' 填充色 '"@, s) + token_finding(
            n,
            n.style.stroke,
            "' 描边色 '"@,
            s,
        ),
        None => Seq::empty(),
    }
}

/// The name is one that a new node bears.
pub open spec fn is_default_name(name: Seq<char>) -> bool {
    name == "Rect"@ || name == "Text"@ || name == "Circle"@ || name == "Image"@ || name
        == "Group"@
}

/// A node with a default name.
pub open spec fn unnamed_node(n: NodeView) -> Seq<ViolationView> {
    if is_default_name(n.name) {
        finding(
            LintRule::UnnamedNode,
            n.id,
            "节点 '"@ + n.name + "' 使用默认名称，缺少语义标识"@,
            "为节点设置有意义的名称便于维护"@,
            LintSeverity::Warning,
        )
    } else {
        Seq::empty()
    }
}

/// A text that its box is too narrow for.
pub open spec fn text_overflow(n: NodeView) -> Seq<ViolationView> {
    let t = text::trimmed(text::text_or_empty(n.text));
    if n.kind != NodeKind::Text || t.len() == 0 || (num::positive(n.w.bits) && num::at_most(
        n.measure.text_width.bits,
        n.w.bits,
    )) {
        Seq::empty()
    } else {
        finding(
            LintRule::TextOverflow,
            n.id,
            "文本节点 '"@ + n.name + "' 内容将溢出（w="@ + n.w.text + ", h="@ + n.h.text
                + ", 文本长="@ + text::decimal(t.len()) + "）"@,
            "为文本节点设置宽高，或使用自适应布局"@,
            LintSeverity::Error,
        )
    }
}

/// The boxes of the nodes have inner points in common.
pub open spec fn overlap(a: NodeView, b: NodeView) -> bool {
    num::less(a.x.bits, b.measure.right.bits) && num::less(b.x.bits, a.measure.right.bits)
        && num::less(a.y.bits, b.measure.bottom.bits) && num::less(
        b.y.bits,
        a.measure.bottom.bits,
    )
}

/// Two nodes that overlap; far apart in depth they may be meant to.
pub open spec fn pair_finding(a: NodeView, b: NodeView) -> Seq<ViolationView> {
    if overlap(a, b) {
        finding(
            LintRule::OverlappingNodes,
            a.id + "+"@ + b.id,
            "节点 '"@ + a.name + "' 与 '"@ + b.name + "' 边界框重叠"@,
            "调整节点位置或使用不同的 z-index 避免遮挡"@,
            if a.z_index - b.z_index > 1 || b.z_index - a.z_index > 1 {
                LintSeverity::Info
            } else {
                LintSeverity::Warning
            },
        )
    } else {
        Seq::empty()
    }
}

/// The overlaps of node `i` with those from `j` on.
pub open spec fn overlaps_of(ns: Seq<NodeView>, i: int, j: int) -> Seq<ViolationView>
    decreases ns.len() - j,
{
    if j >= ns.len() {
        Seq::empty()
    } else {
        pair_finding(ns[i], ns[j]) + overlaps_of(ns, i, j + 1)
    }
}

/// The overlaps of the nodes from `i` on with those after them.
pub open spec fn overlaps_from(ns: Seq<NodeView>, i: int) -> Seq<ViolationView>
    decreases ns.len() - i,
{
    if i >= ns.len() {
        Seq::empty()
    } else {
        overlaps_of(ns, i, i + 1) + overlaps_from(ns, i + 1)
    }
}

/// Siblings that overlap, pair by pair; too many siblings are not looked at.
pub open spec fn overlapping_nodes(ns: Seq<NodeView>) -> Seq<ViolationView> {
    if ns.len() > OVERLAP_CHECK_THRESHOLD {
        Seq::empty()
    } else {
        overlaps_from(ns, 0)
    }
}

/// The style attribute has a token behind it.
pub open spec fn has_ref(n: NodeView, key: Seq<char>) -> bool {
    exists|i: int| 0 <= i < n.style.refs.len() && (#[trigger] n.style.refs[i]).0 == key
}

pub open spec fn not_zero(bits: u64) -> bool {
    !num::equal(bits, num::ZERO)
}

/// Gaps and paddings without tokens behind them.
pub open spec fn hardcoded_spacing(n: NodeView) -> Seq<ViolationView> {
    match n.style.layout {
        LayoutView::Flex(p) => (if not_zero(p.gap.bits) && !has_ref(n, "gap"@) {
            finding(
                LintRule::HardcodedSpacing,
                n.id,
                "节点 '"@ + n.name + "' Flex gap="@ + p.gap.text + " 未引用设计 Token"@,
                "使用 design_token_refs 引用 spacing Token"@,
                LintSeverity::Info,
            )
        } else {
            Seq::empty()
        }) + (if (not_zero(p.padding.top.bits) || not_zero(p.padding.right.bits) || not_zero(
            p.padding.bottom.bits,
        ) || not_zero(p.padding.left.bits)) && !has_ref(n, "padding"@) {
            finding(
                LintRule::HardcodedSpacing,
                n.id,
                "节点 '"@ + n.name + "' padding(t="@ + p.padding.top.text + "/r="@
                    + p.padding.right.text + "/b="@ + p.padding.bottom.text + "/l="@
                    + p.padding.left.text + ") 未引用设计 Token"@,
                "使用 design_token_refs 引用 spacing Token"@,
                LintSeverity::Info,
            )
        } else {
            Seq::empty()
        }),
        LayoutView::Grid(g) => if (not_zero(g.column_gap.bits) || not_zero(g.row_gap.bits))
            && !has_ref(n, "gap"@) {
            finding(
                LintRule::HardcodedSpacing,
                n.id,
                "节点 '"@ + n.name + "' Grid gap=("@ + g.column_gap.text + ", "@ + g.row_gap.text
                    + ") 未引用设计 Token"@,
                "使用 design_token_refs 引用 spacing Token"@,
                LintSeverity::Info,
            )
        } else {
            Seq::empty()
        },
        LayoutView::Free => Seq::empty(),
    }
}

/// A font size without a token behind it.
pub open spec fn hardcoded_font_size(n: NodeView) -> Seq<ViolationView> {
    match n.style.font_size {
        Some(s) => if num::positive(s.bits) && !has_ref(n, "font_size"@) {
            finding(
                LintRule::HardcodedFontSize,
                n.id,
                "节点 '"@ + n.name + "' font_size="@ + s.text + " 未引用设计 Token"@,
                "使用 design_token_refs 引用 typography Token"@,
                LintSeverity::Info,
            )
        } else {
            Seq::empty()
        },
        None => Seq::empty(),
    }
}

/// The name is that of something to be clicked or typed into.
pub open spec fn names_control(name: Seq<char>) -> bool {
    let l = text::lowercase(name);
    text::occurs(l, "button"@) || text::occurs(l, "btn"@) || text::occurs(l, "input"@)
        || text::occurs(l, "textfield"@) || text::occurs(l, "link"@) || text::occurs(l, "按钮"@)
        || text::occurs(l, "链接"@)
}

/// The name is that of a state of a control.
pub open spec fn names_state(name: Seq<char>) -> bool {
    let l = text::lowercase(name);
    text::occurs(l, "hover"@) || text::occurs(l, "active"@) || text::occurs(l, "focus"@)
        || text::occurs(l, "pressed"@) || text::occurs(l, "disabled"@)
}

/// A control without a state inside it.
pub open spec fn missing_interaction_state(n: NodeView) -> Seq<ViolationView> {
    if names_control(n.name) && !(exists|i: int|
        0 <= i < n.children.len() && names_state((#[trigger] n.children[i]).name)) {
        finding(
            LintRule::MissingInteractionState,
            n.id,
            "交互控件 '"@ + n.name + "' 缺少 hover/active 状态定义"@,
            "添加 hover/active/focus 状态子节点"@,
            LintSeverity::Warning,
        )
    } else {
        Seq::empty()
    }
}

/// The name of a layout.
pub open spec fn layout_name(l: LayoutView) -> Seq<char> {
    match l {
        LayoutView::Free => "free"@,
        LayoutView::Flex(_) => "flex"@,
        LayoutView::Grid(_) => "grid"@,
    }
}

/// The layouts are of the same sort.
pub open spec fn same_layout_sort(a: LayoutView, b: LayoutView) -> bool {
    (a is Free && b is Free) || (a is Flex && b is Flex) || (a is Grid && b is Grid)
}

/// The siblings from `j` on whose layout differs from that of the first.
pub open spec fn layout_findings(ns: Seq<NodeView>, j: int) -> Seq<ViolationView>
    decreases ns.len() - j,
{
    if j >= ns.len() {
        Seq::empty()
    } else {
        (if same_layout_sort(ns[0].style.layout, ns[j].style.layout) {
            Seq::empty()
        } else {
            finding(
                LintRule::LayoutInconsistency,
                ns[0].id + "+"@ + ns[j].id,
                "同级节点 '"@ + ns[0].name + "' 使用 "@ + layout_name(ns[0].style.layout)
                    + " 布局，'"@ + ns[j].name + "' 使用 "@ + layout_name(ns[j].style.layout)
                    + " 布局，不一致"@,
                "同级节点建议使用统一的布局模式"@,
                LintSeverity::Warning,
            )
        }) + layout_findings(ns, j + 1)
    }
}

/// Siblings whose layouts differ.
pub open spec fn layout_inconsistency(ns: Seq<NodeView>) -> Seq<ViolationView> {
    layout_findings(ns, 1)
}

// ---------------------------------------------------------------------------
// The checks
// ---------------------------------------------------------------------------

fn report(
    rule: LintRule,
    id: &str,
    message: String,
    suggestion: String,
    severity: LintSeverity,
) -> (r: Vec<LintViolation>)
    ensures
        lint::violation_views(r@) == finding(rule, id@, message@, suggestion@, severity),
{
    let r: Vec<LintViolation> = vec![
        LintViolation { rule, node_id: id.to_owned(), message, suggestion, severity },
    ];
    proof {
        assert(lint::violation_views(r@) =~= finding(
            rule,
            id@,
            message@,
            suggestion@,
            severity,
        ));
    }
    r
}

fn nothing() -> (r: Vec<LintViolation>)
    ensures
        lint::violation_views(r@) == Seq::<ViolationView>::empty(),
{
    let r: Vec<LintViolation> = Vec::new();
    proof {
        assert(lint::violation_views(r@) =~= Seq::empty());
    }
    r
}

/// The contrast of a text with the fill around it.
pub fn check_contrast(node: &PenNode, around: &Option<String>) -> (r: Vec<LintViolation>)
    ensures
        lint::violation_views(r@) == contrast(node@, text::opt_text(*around)),
{
    let (fg, bg) = match (&node.style.fill, around) {
        (Some(fg), Some(bg)) => (fg, bg),
        _ => return nothing(),
    };
    if node.kind != NodeKind::Text || fg.as_str().is_empty() || bg.as_str().is_empty()
        || parse_color_any(fg.as_str()).is_none() || parse_color_any(bg.as_str()).is_none() {
        return nothing();
    }
    let ratio = &node.measure.contrast;
    if num_lt(ratio.bits, THREE) {
        report(
            LintRule::ContrastCheck,
            node.id.as_str(),
            wrap("对比度 ", ratio.text.as_str(), ":1 不足（最低 3:1）"),
            "增大前景色与背景色的明度差".to_owned(),
            LintSeverity::Error,
        )
    } else if num_lt(ratio.bits, FOUR_AND_A_HALF) {
        report(
            LintRule::ContrastCheck,
            node.id.as_str(),
            wrap("对比度 ", ratio.text.as_str(), ":1 偏低（建议 4.5:1）"),
            "建议对比度达到 4.5:1 以满足 WCAG AA 标准".to_owned(),
            LintSeverity::Warning,
        )
    } else {
        nothing()
    }
}

fn is_input_name(name: &str) -> (r: bool)
    ensures
        r == names_input(name@),
{
    let l = to_lowercase(name);
    contains(l.as_str(), "input") || contains(l.as_str(), "textfield") || contains(
        l.as_str(),
        "textarea",
    ) || contains(l.as_str(), "搜索") || contains(l.as_str(), "输入")
}

fn is_label_name(name: &str) -> (r: bool)
    ensures
        r == names_label(name@),
{
    let l = to_lowercase(name);
    contains(l.as_str(), "label") || contains(l.as_str(), "标题") || contains(
        l.as_str(),
        "placeholder",
    ) || contains(l.as_str(), "提示") || contains(l.as_str(), "hint")
}

fn is_control_name(name: &str) -> (r: bool)
    ensures
        r == names_control(name@),
{
    let l = to_lowercase(name);
    contains(l.as_str(), "button") || contains(l.as_str(), "btn") || contains(l.as_str(), "input")
        || contains(l.as_str(), "textfield") || contains(l.as_str(), "link") || contains(
        l.as_str(),
        "按钮",
    ) || contains(l.as_str(), "链接")
}

fn is_state_name(name: &str) -> (r: bool)
    ensures
        r == names_state(name@),
{
    let l = to_lowercase(name);
    contains(l.as_str(), "hover") || contains(l.as_str(), "active") || contains(
        l.as_str(),
        "focus",
    ) || contains(l.as_str(), "pressed") || contains(l.as_str(), "disabled")
}

/// An input without a label inside it.
pub fn check_unlabeled_input(node: &PenNode) -> (r: Vec<LintViolation>)
    ensures
        lint::violation_views(r@) == unlabeled_input(node@),
{
    if !is_input_name(node.name.as_str()) {
        return nothing();
    }
    let mut i: usize = 0;
    while i < node.children.len()
        invariant
            i <= node.children@.len(),
            forall|k: int| 0 <= k < i ==> !names_label((#[trigger] node@.children[k]).name),
        decreases node.children.len() - i,
    {
        proof {
            assert(node@.children[i as int] == node.children@[i as int]@);
        }
        if is_label_name(node.children[i].name.as_str()) {
            return nothing();
        }
        i = i + 1;
    }
    report(
        LintRule::UnlabeledInput,
        node.id.as_str(),
        wrap("输入控件 '", node.name.as_str(), "' 缺少标签"),
        "添加 label 或 placeholder 子节点".to_owned(),
        LintSeverity::Error,
    )
}

/// A text filled with a gradient.
pub fn check_text_effects(node: &PenNode) -> (r: Vec<LintViolation>)
    ensures
        lint::violation_views(r@) == text_effects(node@),
{
    match &node.style.fill {
        Some(fill) => {
            let f = fill.as_str();
            if node.kind == NodeKind::Text && (starts_with(f, "linear-gradient") || starts_with(
                f,
                "radial-gradient",
            ) || starts_with(f, "conic-gradient")) {
                report(
                    LintRule::TextEffects,
                    node.id.as_str(),
                    wrap("文本节点 '", node.name.as_str(), "' 使用了渐变填充"),
                    "文本渐变降低可读性，建议使用纯色填充".to_owned(),
                    LintSeverity::Warning,
                )
            } else {
                nothing()
            }
        },
        None => nothing(),
    }
}

/// A rotation by more than 90 degrees, or by no whole step of fifteen.
pub fn check_abnormal_rotation(node: &PenNode) -> (r: Vec<LintViolation>)
    ensures
        lint::violation_views(r@) == abnormal_rotation(node@),
{
    let bits = node.rotation.bits;
    let label = node.measure.rotation_label.as_str();
    if !num::nan(bits) && bits % 0x8000_0000_0000_0000 > NINETY {
        report(
            LintRule::AbnormalRotation,
            node.id.as_str(),
            wrap("节点 '", node.name.as_str(), "' 旋转角度 ").concat(label).concat(
                "° 超过 90°",
            ),
            "超过 90° 的旋转可能导致内容不可读，请确认是否正确".to_owned(),
            LintSeverity::Error,
        )
    } else if !node.rotation.is_zero() && num_lt(HUNDREDTH, node.measure.rotation_rest.bits) {
        report(
            LintRule::AbnormalRotation,
            node.id.as_str(),
            wrap("节点 '", node.name.as_str(), "' 旋转角度 ").concat(label).concat(
                "° 非 15° 倍数",
            ),
            "建议使用 15° 倍数的旋转角度以保持对齐一致".to_owned(),
            LintSeverity::Info,
        )
    } else {
        nothing()
    }
}

pub(crate) fn blank(o: &Option<String>) -> (r: bool)
    ensures
        r == is_blank(text::opt_text(*o)),
{
    match o {
        Some(s) => trim(s.as_str()).as_str().is_empty(),
        None => false,
    }
}

fn report_blank(
    node: &PenNode,
    attribute: &Option<String>,
    message: &str,
    suggestion: &str,
) -> (r: Vec<LintViolation>)
    ensures
        lint::violation_views(r@) == blank_finding(
            node@,
            text::opt_text(*attribute),
            message@,
            suggestion@,
        ),
{
    if blank(attribute) {
        report(
            LintRule::EmptyEffects,
            node.id.as_str(),
            wrap("节点 '", node.name.as_str(), message),
            suggestion.to_owned(),
            LintSeverity::Warning,
        )
    } else {
        nothing()
    }
}

/// Blank attributes.
pub fn check_empty_effects(node: &PenNode) -> (r: Vec<LintViolation>)
    ensures
        lint::violation_views(r@) == empty_effects(node@),
{
    let mut out = report_blank(
        node,
        &node.style.fill,
        "' 声明了填充色但值为空",
        "移除空的填充声明或设置颜色值",
    );
    extend(
        &mut out,
        report_blank(
            node,
            &node.style.stroke,
            "' 声明了描边色但值为空",
            "移除空的描边声明或设置颜色值",
        ),
    );
    extend(
        &mut out,
        report_blank(
            node,
            &node.style.font_family,
            "' 声明了字体族但值为空",
            "移除空的字体声明或设置字体族",
        ),
    );
    out
}

fn report_token(
    node: &PenNode,
    value: &Option<String>,
    attribute: &str,
    system: &DesignSystem,
) -> (r: Vec<LintViolation>)
    ensures
        lint::violation_views(r@) == token_finding(
            node@,
            text::opt_text(*value),
            attribute@,
            system@,
        ),
{
    match value {
        Some(v) => match find_token(&build_token_map(system), v.as_str()) {
            Some(token) => report(
                LintRule::TokenInconsistency,
                node.id.as_str(),
                wrap("节点 '", node.name.as_str(), attribute).concat(v.as_str()).concat(
                    "' 匹配 Token '",
                ).concat(token.as_str()).concat("'，建议直接引用 Token"),
                "使用 Token 引用替代硬编码值: ".to_owned().concat(token.as_str()),
                LintSeverity::Info,
            ),
            None => nothing(),
        },
        None => nothing(),
    }
}

/// Colours for which the design system has tokens.
pub fn check_token_inconsistency(node: &PenNode, system: &Option<DesignSystem>) -> (r: Vec<
    LintViolation,
>)
    ensures
        lint::violation_views(r@) == token_inconsistency(
            node@,
            match *system {
                Some(s) => Some(s@),
                None => None,
            },
        ),
{
    match system {
        Some(s) => {
            let mut out = report_token(node, &node.style.fill, "' 填充色 '", s);
            extend(&mut out, report_token(node, &node.style.stroke, "' 描边色 '", s));
            out
        },
        None => nothing(),
    }
}

pub(crate) fn default_name(name: &str) -> (r: bool)
    ensures
        r == is_default_name(name@),
{
    same(name, "Rect") || same(name, "Text") || same(name, "Circle") || same(name, "Image")
        || same(name, "Group")
}

/// A node with a default name.
pub fn check_unnamed_node(node: &PenNode) -> (r: Vec<LintViolation>)
    ensures
        lint::violation_views(r@) == unnamed_node(node@),
{
    if default_name(node.name.as_str()) {
        report(
            LintRule::UnnamedNode,
            node.id.as_str(),
            wrap("节点 '", node.name.as_str(), "' 使用默认名称，缺少语义标识"),
            "为节点设置有意义的名称便于维护".to_owned(),
            LintSeverity::Warning,
        )
    } else {
        nothing()
    }
}

/// A text that its box is too narrow for.
pub fn check_text_overflow(node: &PenNode) -> (r: Vec<LintViolation>)
    ensures
        lint::violation_views(r@) == text_overflow(node@),
{
    let t = chars_of(trim(or_empty(&node.text).as_str()).as_str());
    let needed = node.measure.text_width.bits;
    if node.kind != NodeKind::Text || t.len() == 0 || (node.w.is_positive() && (num_lt(
        needed,
        node.w.bits,
    ) || num_eq(needed, node.w.bits))) {
        return nothing();
    }
    report(
        LintRule::TextOverflow,
        node.id.as_str(),
        wrap("文本节点 '", node.name.as_str(), "' 内容将溢出（w=").concat(
            node.w.text.as_str(),
        ).concat(", h=").concat(node.h.text.as_str()).concat(", 文本长=").concat(
            number(t.len() as u64).as_str(),
        ).concat("）"),
        "为文本节点设置宽高，或使用自适应布局".to_owned(),
        LintSeverity::Error,
    )
}

/// Whether the boxes of the nodes have inner points in common.
pub fn rects_overlap(a: &PenNode, b: &PenNode) -> (r: bool)
    ensures
        r == overlap(a@, b@),
{
    num_lt(a.x.bits, b.measure.right.bits) && num_lt(b.x.bits, a.measure.right.bits) && num_lt(
        a.y.bits,
        b.measure.bottom.bits,
    ) && num_lt(b.y.bits, a.measure.bottom.bits)
}

fn report_pair(a: &PenNode, b: &PenNode) -> (r: Vec<LintViolation>)
    ensures
        lint::violation_views(r@) == pair_finding(a@, b@),
{
    if !rects_overlap(a, b) {
        return nothing();
    }
    let apart: i64 = a.z_index as i64 - b.z_index as i64;
    report(
        LintRule::OverlappingNodes,
        wrap(a.id.as_str(), "+", b.id.as_str()).as_str(),
        wrap("节点 '", a.name.as_str(), "' 与 '").concat(b.name.as_str()).concat(
            "' 边界框重叠",
        ),
        "调整节点位置或使用不同的 z-index 避免遮挡".to_owned(),
        if apart > 1 || apart < -1 {
            LintSeverity::Info
        } else {
            LintSeverity::Warning
        },
    )
}

/// Siblings that overlap.
pub fn check_overlapping_nodes(siblings: &Vec<PenNode>) -> (r: Vec<LintViolation>)
    ensures
        lint::violation_views(r@) == overlapping_nodes(canvas::node_views(siblings@)),
{
    let mut out = nothing();
    if siblings.len() > OVERLAP_CHECK_THRESHOLD {
        return out;
    }
    let ghost ns = canvas::node_views(siblings@);
    let mut i: usize = 0;
    proof {
        assert(lint::violation_views(out@) + overlaps_from(ns, 0) =~= overlaps_from(ns, 0));
    }
    while i < siblings.len()
        invariant
            i <= siblings@.len() <= OVERLAP_CHECK_THRESHOLD,
            ns == canvas::node_views(siblings@),
            lint::violation_views(out@) + overlaps_from(ns, i as int) == overlaps_from(ns, 0),
        decreases siblings.len() - i,
    {
        let ghost before = lint::violation_views(out@);
        let mut j: usize = i + 1;
        while j < siblings.len()
            invariant
                i < j <= siblings@.len(),
                ns == canvas::node_views(siblings@),
                lint::violation_views(out@) + overlaps_of(ns, i as int, j as int) == before
                    + overlaps_of(ns, i as int, i + 1),
            decreases siblings.len() - j,
        {
            let ghost so_far = lint::violation_views(out@);
            let more = report_pair(&siblings[i], &siblings[j]);
            let ghost found = lint::violation_views(more@);
            extend(&mut out, more);
            proof {
                assert(found == pair_finding(ns[i as int], ns[j as int]));
                assert(so_far + overlaps_of(ns, i as int, j as int) =~= so_far + found
                    + overlaps_of(ns, i as int, j + 1));
            }
            j = j + 1;
        }
        proof {
            assert(lint::violation_views(out@) + overlaps_of(ns, i as int, j as int)
                =~= lint::violation_views(out@));
            assert(before + overlaps_from(ns, i as int) =~= before + overlaps_of(
                ns,
                i as int,
                i + 1,
            ) + overlaps_from(ns, i + 1));
        }
        i = i + 1;
    }
    proof {
        assert(lint::violation_views(out@) + overlaps_from(ns, i as int)
            =~= lint::violation_views(out@));
    }
    out
}

/// Whether the style attribute has a token behind it.
pub(crate) fn refers_to(node: &PenNode, key: &str) -> (r: bool)
    ensures
        r == has_ref(node@, key@),
{
    let mut i: usize = 0;
    while i < node.style.design_token_refs.len()
        invariant
            i <= node.style.design_token_refs@.len(),
            forall|k: int| 0 <= k < i ==> (#[trigger] node@.style.refs[k]).0 != key@,
        decreases node.style.design_token_refs.len() - i,
    {
        if same(node.style.design_token_refs[i].0.as_str(), key) {
            proof {
                assert(node@.style.refs[i as int].0 == key@);
            }
            return true;
        }
        i = i + 1;
    }
    false
}

/// Gaps and paddings without tokens behind them.
pub fn check_hardcoded_spacing(node: &PenNode) -> (r: Vec<LintViolation>)
    ensures
        lint::violation_views(r@) == hardcoded_spacing(node@),
{
    match &node.style.layout {
        LayoutMode::Flex(p) => {
            let mut out = if !p.gap.is_zero() && !refers_to(node, "gap") {
                report(
                    LintRule::HardcodedSpacing,
                    node.id.as_str(),
                    wrap("节点 '", node.name.as_str(), "' Flex gap=").concat(
                        p.gap.text.as_str(),
                    ).concat(" 未引用设计 Token"),
                    "使用 design_token_refs 引用 spacing Token".to_owned(),
                    LintSeverity::Info,
                )
            } else {
                nothing()
            };
            let q = &p.padding;
            let more = if (!q.top.is_zero() || !q.right.is_zero() || !q.bottom.is_zero()
                || !q.left.is_zero()) && !refers_to(node, "padding") {
                report(
                    LintRule::HardcodedSpacing,
                    node.id.as_str(),
                    wrap("节点 '", node.name.as_str(), "' padding(t=").concat(
                        q.top.text.as_str(),
                    ).concat("/r=").concat(q.right.text.as_str()).concat("/b=").concat(
                        q.bottom.text.as_str(),
                    ).concat("/l=").concat(q.left.text.as_str()).concat(") 未引用设计 Token"),
                    "使用 design_token_refs 引用 spacing Token".to_owned(),
                    LintSeverity::Info,
                )
            } else {
                nothing()
            };
            extend(&mut out, more);
            out
        },
        LayoutMode::Grid(g) => if (!g.gap.0.is_zero() || !g.gap.1.is_zero()) && !refers_to(
            node,
            "gap",
        ) {
            report(
                LintRule::HardcodedSpacing,
                node.id.as_str(),
                wrap("节点 '", node.name.as_str(), "' Grid gap=(").concat(
                    g.gap.0.text.as_str(),
                ).concat(", ").concat(g.gap.1.text.as_str()).concat(") 未引用设计 Token"),
                "使用 design_token_refs 引用 spacing Token".to_owned(),
                LintSeverity::Info,
            )
        } else {
            nothing()
        },
        LayoutMode::Free => nothing(),
    }
}

/// A font size without a token behind it.
pub fn check_hardcoded_font_size(node: &PenNode) -> (r: Vec<LintViolation>)
    ensures
        lint::violation_views(r@) == hardcoded_font_size(node@),
{
    match &node.style.font_size {
        Some(s) => if s.is_positive() && !refers_to(node, "font_size") {
            report(
                LintRule::HardcodedFontSize,
                node.id.as_str(),
                wrap("节点 '", node.name.as_str(), "' font_size=").concat(
                    s.text.as_str(),
                ).concat(" 未引用设计 Token"),
                "使用 design_token_refs 引用 typography Token".to_owned(),
                LintSeverity::Info,
            )
        } else {
            nothing()
        },
        None => nothing(),
    }
}

/// A control without a state inside it.
pub fn check_missing_interaction_state(node: &PenNode) -> (r: Vec<LintViolation>)
    ensures
        lint::violation_views(r@) == missing_interaction_state(node@),
{
    if !is_control_name(node.name.as_str()) {
        return nothing();
    }
    let mut i: usize = 0;
    while i < node.children.len()
        invariant
            i <= node.children@.len(),
            forall|k: int| 0 <= k < i ==> !names_state((#[trigger] node@.children[k]).name),
        decreases node.children.len() - i,
    {
        proof {
            assert(node@.children[i as int] == node.children@[i as int]@);
        }
        if is_state_name(node.children[i].name.as_str()) {
            return nothing();
        }
        i = i + 1;
    }
    report(
        LintRule::MissingInteractionState,
        node.id.as_str(),
        wrap("交互控件 '", node.name.as_str(), "' 缺少 hover/active 状态定义"),
        "添加 hover/active/focus 状态子节点".to_owned(),
        LintSeverity::Warning,
    )
}

fn name_of_layout(l: &LayoutMode) -> (r: &'static str)
    ensures
        r@ == layout_name(l@),
{
    match l {
        LayoutMode::Free => "free",
        LayoutMode::Flex(_) => "flex",
        LayoutMode::Grid(_) => "grid",
    }
}

/// Siblings whose layouts differ.
pub fn check_layout_inconsistency(siblings: &Vec<PenNode>) -> (r: Vec<LintViolation>)
    ensures
        lint::violation_views(r@) == layout_inconsistency(canvas::node_views(siblings@)),
{
    let mut out = nothing();
    if siblings.len() < 2 {
        return out;
    }
    let ghost ns = canvas::node_views(siblings@);
    let first = &siblings[0];
    let mut j: usize = 1;
    proof {
        assert(lint::violation_views(out@) + layout_findings(ns, 1) =~= layout_findings(ns, 1));
    }
    while j < siblings.len()
        invariant
            1 <= j <= siblings@.len(),
            ns == canvas::node_views(siblings@),
            first@ == ns[0],
            lint::violation_views(out@) + layout_findings(ns, j as int) == layout_findings(ns, 1),
        decreases siblings.len() - j,
    {
        let other = &siblings[j];
        let ghost before = lint::violation_views(out@);
        let alike = match (&first.style.layout, &other.style.layout) {
            (LayoutMode::Free, LayoutMode::Free) => true,
            (LayoutMode::Flex(_), LayoutMode::Flex(_)) => true,
            (LayoutMode::Grid(_), LayoutMode::Grid(_)) => true,
            _ => false,
        };
        let more = if alike {
            nothing()
        } else {
            report(
                LintRule::LayoutInconsistency,
                wrap(first.id.as_str(), "+", other.id.as_str()).as_str(),
                wrap("同级节点 '", first.name.as_str(), "' 使用 ").concat(
                    name_of_layout(&first.style.layout),
                ).concat(" 布局，'").concat(other.name.as_str()).concat("' 使用 ").concat(
                    name_of_layout(&other.style.layout),
                ).concat(" 布局，不一致"),
                "同级节点建议使用统一的布局模式".to_owned(),
                LintSeverity::Warning,
            )
        };
        let ghost found = lint::violation_views(more@);
        extend(&mut out, more);
        proof {
            assert(other@ == ns[j as int]);
            assert(layout_findings(ns, j as int) == found + layout_findings(ns, j + 1));
            assert(before + layout_findings(ns, j as int) =~= before + found + layout_findings(
                ns,
                j + 1,
            ));
        }
        j = j + 1;
    }
    proof {
        assert(lint::violation_views(out@) + layout_findings(ns, j as int)
            =~= lint::violation_views(out@));
    }
    out
}

// ---------------------------------------------------------------------------
// Laws
// ---------------------------------------------------------------------------

/// Only a text is held against the fill around it, and only where there is one.
pub proof fn law_contrast_needs_text_and_background(n: NodeView, around: Option<Seq<char>>)
    ensures
        n.kind != NodeKind::Text ==> contrast(n, around).len() == 0,
        around is None ==> contrast(n, around).len() == 0,
{
}

/// An empty text overflows nothing.
pub proof fn law_blank_text_never_overflows(n: NodeView)
    requires
        text::trimmed(text::text_or_empty(n.text)).len() == 0,
    ensures
        text_overflow(n).len() == 0,
{
}

/// Overlapping is mutual.
pub proof fn law_overlap_is_mutual(a: NodeView, b: NodeView)
    ensures
        overlap(a, b) == overlap(b, a),
{
}

} // verus!
