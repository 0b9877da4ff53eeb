//! What the findings say in words.

use vstd::prelude::*;

use crate::canvas::{LayoutView, NodeView};
use crate::design_system::SystemView;
use crate::lint;
use crate::lint::detectors;
use crate::text;

verus! {

proof fn lemma_parts3(p0: Seq<char>, p1: Seq<char>, p2: Seq<char>)
    ensures
        text::occurs(p0 + p1 + p2, p0),
        text::occurs(p0 + p1 + p2, p1),
        text::occurs(p0 + p1 + p2, p2),
{
    text::lemma_occurs_itself(p0);
    text::lemma_occurs_longer(p0, p1, p0);
    text::lemma_occurs_longer(p0 + p1, p2, p0);
    text::lemma_occurs_last(p0, p1);
    text::lemma_occurs_longer(p0 + p1, p2, p1);
    text::lemma_occurs_last(p0 + p1, p2);
}

proof fn lemma_parts5(p0: Seq<char>, p1: Seq<char>, p2: Seq<char>, p3: Seq<char>, p4: Seq<char>)
    ensures
        text::occurs(p0 + p1 + p2 + p3 + p4, p0),
        text::occurs(p0 + p1 + p2 + p3 + p4, p1),
        text::occurs(p0 + p1 + p2 + p3 + p4, p2),
        text::occurs(p0 + p1 + p2 + p3 + p4, p3),
        text::occurs(p0 + p1 + p2 + p3 + p4, p4),
{
    text::lemma_occurs_itself(p0);
    text::lemma_occurs_longer(p0, p1, p0);
    text::lemma_occurs_longer(p0 + p1, p2, p0);
    text::lemma_occurs_longer(p0 + p1 + p2, p3, p0);
    text::lemma_occurs_longer(p0 + p1 + p2 + p3, p4, p0);
    text::lemma_occurs_last(p0, p1);
    text::lemma_occurs_longer(p0 + p1, p2, p1);
    text::lemma_occurs_longer(p0 + p1 + p2, p3, p1);
    text::lemma_occurs_longer(p0 + p1 + p2 + p3, p4, p1);
    text::lemma_occurs_last(p0 + p1, p2);
    text::lemma_occurs_longer(p0 + p1 + p2, p3, p2);
    text::lemma_occurs_longer(p0 + p1 + p2 + p3, p4, p2);
    text::lemma_occurs_last(p0 + p1 + p2, p3);
    text::lemma_occurs_longer(p0 + p1 + p2 + p3, p4, p3);
    text::lemma_occurs_last(p0 + p1 + p2 + p3, p4);
}

proof fn lemma_parts7(
    p0: Seq<char>,
    p1: Seq<char>,
    p2: Seq<char>,
    p3: Seq<char>,
    p4: Seq<char>,
    p5: Seq<char>,
    p6: Seq<char>,
)
    ensures
        text::occurs(p0 + p1 + p2 + p3 + p4 + p5 + p6, p0),
        text::occurs(p0 + p1 + p2 + p3 + p4 + p5 + p6, p1),
        text::occurs(p0 + p1 + p2 + p3 + p4 + p5 + p6, p2),
        text::occurs(p0 + p1 + p2 + p3 + p4 + p5 + p6, p3),
        text::occurs(p0 + p1 + p2 + p3 + p4 + p5 + p6, p4),
        text::occurs(p0 + p1 + p2 + p3 + p4 + p5 + p6, p5),
        text::occurs(p0 + p1 + p2 + p3 + p4 + p5 + p6, p6),
{
    text::lemma_occurs_itself(p0);
    text::lemma_occurs_longer(p0, p1, p0);
    text::lemma_occurs_longer(p0 + p1, p2, p0);
    text::lemma_occurs_longer(p0 + p1 + p2, p3, p0);
    text::lemma_occurs_longer(p0 + p1 + p2 + p3, p4, p0);
    text::lemma_occurs_longer(p0 + p1 + p2 + p3 + p4, p5, p0);
    text::lemma_occurs_longer(p0 + p1 + p2 + p3 + p4 + p5, p6, p0);
    text::lemma_occurs_last(p0, p1);
    text::lemma_occurs_longer(p0 + p1, p2, p1);
    text::lemma_occurs_longer(p0 + p1 + p2, p3, p1);
    text::lemma_occurs_longer(p0 + p1 + p2 + p3, p4, p1);
    text::lemma_occurs_longer(p0 + p1 + p2 + p3 + p4, p5, p1);
    text::lemma_occurs_longer(p0 + p1 + p2 + p3 + p4 + p5, p6, p1);
    text::lemma_occurs_last(p0 + p1, p2);
    text::lemma_occurs_longer(p0 + p1 + p2, p3, p2);
    text::lemma_occurs_longer(p0 + p1 + p2 + p3, p4, p2);
    text::lemma_occurs_longer(p0 + p1 + p2 + p3 + p4, p5, p2);
    text::lemma_occurs_longer(p0 + p1 + p2 + p3 + p4 + p5, p6, p2);
    text::lemma_occurs_last(p0 + p1 + p2, p3);
    text::lemma_occurs_longer(p0 + p1 + p2 + p3, p4, p3);
    text::lemma_occurs_longer(p0 + p1 + p2 + p3 + p4, p5, p3);
    text::lemma_occurs_longer(p0 + p1 + p2 + p3 + p4 + p5, p6, p3);
    text::lemma_occurs_last(p0 + p1 + p2 + p3, p4);
    text::lemma_occurs_longer(p0 + p1 + p2 + p3 + p4, p5, p4);
    text::lemma_occurs_longer(p0 + p1 + p2 + p3 + p4 + p5, p6, p4);
    text::lemma_occurs_last(p0 + p1 + p2 + p3 + p4, p5);
    text::lemma_occurs_longer(p0 + p1 + p2 + p3 + p4 + p5, p6, p5);
    text::lemma_occurs_last(p0 + p1 + p2 + p3 + p4 + p5, p6);
}

/// What is said of a node names it.
pub proof fn law_findings_name_the_node(n: NodeView, i: int)
    ensures
        detectors::unlabeled_input(n).len() > 0 ==> text::occurs(
            detectors::unlabeled_input(n)[0].message,
            n.name,
        ),
        detectors::text_effects(n).len() > 0 ==> text::occurs(
            detectors::text_effects(n)[0].message,
            n.name,
        ),
        detectors::unnamed_node(n).len() > 0 ==> text::occurs(
            detectors::unnamed_node(n)[0].message,
            n.name,
        ),
        detectors::missing_interaction_state(n).len() > 0 ==> text::occurs(
            detectors::missing_interaction_state(n)[0].message,
            n.name,
        ),
        0 <= i < detectors::empty_effects(n).len() ==> text::occurs(
            detectors::empty_effects(n)[i].message,
            n.name,
        ),
{
    lemma_parts3("输入控件 '"@, n.name, "' 缺少标签"@);
    lemma_parts3("文本节点 '"@, n.name, "' 使用了渐变填充"@);
    lemma_parts3("节点 '"@, n.name, "' 使用默认名称，缺少语义标识"@);
    lemma_parts3("交互控件 '"@, n.name, "' 缺少 hover/active 状态定义"@);
    lemma_parts3("节点 '"@, n.name, "' 声明了填充色但值为空"@);
    lemma_parts3("节点 '"@, n.name, "' 声明了描边色但值为空"@);
    lemma_parts3("节点 '"@, n.name, "' 声明了字体族但值为空"@);
}

/// A rotation is told with the node and the angle, and a contrast with its ratio.
pub proof fn law_measures_are_told(n: NodeView, around: Option<Seq<char>>)
    ensures
        detectors::abnormal_rotation(n).len() > 0 ==> text::occurs(
            detectors::abnormal_rotation(n)[0].message,
            n.name,
        ) && text::occurs(detectors::abnormal_rotation(n)[0].message, n.measure.rotation_label),
        detectors::contrast(n, around).len() > 0 ==> text::occurs(
            detectors::contrast(n, around)[0].message,
            n.measure.contrast.text,
        ),
{
    lemma_parts5("节点 '"@, n.name, "' 旋转角度 "@, n.measure.rotation_label, "° 超过 90°"@);
    lemma_parts5("节点 '"@, n.name, "' 旋转角度 "@, n.measure.rotation_label, "° 非 15° 倍数"@);
    lemma_parts3("对比度 "@, n.measure.contrast.text, ":1 不足（最低 3:1）"@);
    lemma_parts3("对比度 "@, n.measure.contrast.text, ":1 偏低（建议 4.5:1）"@);
}

/// A color that a token stands for is told with the node, the color and the token.
pub proof fn law_tokens_are_told(
    n: NodeView,
    value: Seq<char>,
    attribute: Seq<char>,
    s: SystemView,
    token: Seq<char>,
)
    requires
        lint::token_for(lint::keyed(s.tokens, false), value) == Some(token),
    ensures
        ({
            let found = detectors::token_finding(n, Some(value), attribute, s);
            &&& found.len() == 1
            &&& text::occurs(found[0].message, n.name)
            &&& text::occurs(found[0].message, value)
            &&& text::occurs(found[0].message, token)
            &&& token.is_suffix_of(found[0].suggestion)
        }),
{
    lemma_parts7(
        "节点 '"@,
        n.name,
        attribute,
        value,
        "' 匹配 Token '"@,
        token,
        "'，建议直接引用 Token"@,
    );
    let hint = "使用 Token 引用替代硬编码值: "@ + token;
    assert(token =~= hint.subrange(hint.len() - token.len(), hint.len() as int));
}

/// A text that does not fit is told with the node, its width, its height and the length of the text,
/// each under its name.
pub proof fn law_overflow_is_told(n: NodeView)
    requires
        detectors::text_overflow(n).len() > 0,
    ensures
        text::occurs(detectors::text_overflow(n)[0].message, n.name),
        text::occurs(
            detectors::text_overflow(n)[0].message,
            "w="@ + n.w.text + ", h="@ + n.h.text + ", 文本长="@ + text::decimal(
                text::trimmed(text::text_or_empty(n.text)).len(),
            ),
        ),
{
    let len = text::decimal(text::trimmed(text::text_or_empty(n.text)).len());
    lemma_overflow_text(n.name, n.w.text, n.h.text, len);
}

proof fn lemma_overflow_text(name: Seq<char>, w: Seq<char>, h: Seq<char>, len: Seq<char>)
    ensures
        text::occurs(
            "文本节点 '"@ + name + "' 内容将溢出（w="@ + w + ", h="@ + h + ", 文本长="@ + len + "）"@,
            "w="@ + w + ", h="@ + h + ", 文本长="@ + len,
        ),
        text::occurs(
            "文本节点 '"@ + name + "' 内容将溢出（w="@ + w + ", h="@ + h + ", 文本长="@ + len + "）"@,
            name,
        ),
{
    reveal_strlit("' 内容将溢出（w=");
    reveal_strlit("w=");
    let lit = "' 内容将溢出（w="@;
    let cut = lit.take(lit.len() - 2);
    assert(lit =~= cut + "w="@);
    let said = "w="@ + w + ", h="@ + h + ", 文本长="@ + len;
    let start = "文本节点 '"@ + name + cut;
    let rest = lit + w + ", h="@ + h + ", 文本长="@ + len + "）"@;
    let all = "文本节点 '"@ + name + lit + w + ", h="@ + h + ", 文本长="@ + len + "）"@;
    text::lemma_occurs_between(start, said, "）"@);
    assert(start + said + "）"@ =~= all);
    text::lemma_occurs_between("文本节点 '"@, name, rest);
    assert("文本节点 '"@ + name + rest =~= all);
}

/// A gap, the paddings of the four sides and a font size are told with the node, each under its name.
pub proof fn law_spacing_is_told(n: NodeView, i: int)
    requires
        0 <= i < detectors::hardcoded_spacing(n).len(),
    ensures
        text::occurs(detectors::hardcoded_spacing(n)[i].message, n.name),
        n.style.layout matches LayoutView::Flex(p) ==> text::occurs(
            detectors::hardcoded_spacing(n)[i].message,
            "gap="@ + p.gap.text,
        ) || text::occurs(
            detectors::hardcoded_spacing(n)[i].message,
            "t="@ + p.padding.top.text + "/r="@ + p.padding.right.text + "/b="@
                + p.padding.bottom.text + "/l="@ + p.padding.left.text,
        ),
        n.style.layout matches LayoutView::Grid(g) ==> text::occurs(
            detectors::hardcoded_spacing(n)[i].message,
            "gap=("@ + g.column_gap.text + ", "@ + g.row_gap.text,
        ),
{
    match n.style.layout {
        LayoutView::Flex(p) => {
            lemma_gap_text(n.name, p.gap.text);
            lemma_padding_text(
                n.name,
                p.padding.top.text,
                p.padding.right.text,
                p.padding.bottom.text,
                p.padding.left.text,
            );
        },
        LayoutView::Grid(g) => {
            lemma_grid_text(n.name, g.column_gap.text, g.row_gap.text);
        },
        LayoutView::Free => {},
    }
}

proof fn lemma_gap_text(name: Seq<char>, gap: Seq<char>)
    ensures
        text::occurs("节点 '"@ + name + "' Flex gap="@ + gap + " 未引用设计 Token"@, name),
        text::occurs("节点 '"@ + name + "' Flex gap="@ + gap + " 未引用设计 Token"@, "gap="@ + gap),
{
    reveal_strlit("' Flex gap=");
    reveal_strlit("gap=");
    let lit = "' Flex gap="@;
    let cut = lit.take(lit.len() - 4);
    assert(lit =~= cut + "gap="@);
    let all = "节点 '"@ + name + lit + gap + " 未引用设计 Token"@;
    lemma_parts5("节点 '"@, name, lit, gap, " 未引用设计 Token"@);
    text::lemma_occurs_between("节点 '"@ + name + cut, "gap="@ + gap, " 未引用设计 Token"@);
    assert("节点 '"@ + name + cut + ("gap="@ + gap) + " 未引用设计 Token"@ =~= all);
}

proof fn lemma_grid_text(name: Seq<char>, column: Seq<char>, row: Seq<char>)
    ensures
        text::occurs(
            "节点 '"@ + name + "' Grid gap=("@ + column + ", "@ + row + ") 未引用设计 Token"@,
            name,
        ),
        text::occurs(
            "节点 '"@ + name + "' Grid gap=("@ + column + ", "@ + row + ") 未引用设计 Token"@,
            "gap=("@ + column + ", "@ + row,
        ),
{
    reveal_strlit("' Grid gap=(");
    reveal_strlit("gap=(");
    let lit = "' Grid gap=("@;
    let cut = lit.take(lit.len() - 5);
    assert(lit =~= cut + "gap=("@);
    let all = "节点 '"@ + name + lit + column + ", "@ + row + ") 未引用设计 Token"@;
    lemma_parts7("节点 '"@, name, lit, column, ", "@, row, ") 未引用设计 Token"@);
    let said = "gap=("@ + column + ", "@ + row;
    text::lemma_occurs_between("节点 '"@ + name + cut, said, ") 未引用设计 Token"@);
    assert("节点 '"@ + name + cut + said + ") 未引用设计 Token"@ =~= all);
}

proof fn lemma_padding_text(
    name: Seq<char>,
    top: Seq<char>,
    right: Seq<char>,
    bottom: Seq<char>,
    left: Seq<char>,
)
    ensures
        text::occurs(
            "节点 '"@ + name + "' padding(t="@ + top + "/r="@ + right + "/b="@ + bottom + "/l="@
                + left + ") 未引用设计 Token"@,
            name,
        ),
        text::occurs(
            "节点 '"@ + name + "' padding(t="@ + top + "/r="@ + right + "/b="@ + bottom + "/l="@
                + left + ") 未引用设计 Token"@,
            "t="@ + top + "/r="@ + right + "/b="@ + bottom + "/l="@ + left,
        ),
{
    reveal_strlit("' padding(t=");
    reveal_strlit("t=");
    let lit = "' padding(t="@;
    let cut = lit.take(lit.len() - 2);
    assert(lit =~= cut + "t="@);
    let said = "t="@ + top + "/r="@ + right + "/b="@ + bottom + "/l="@ + left;
    let start = "节点 '"@ + name + cut;
    let end = ") 未引用设计 Token"@;
    let rest = lit + top + "/r="@ + right + "/b="@ + bottom + "/l="@ + left + end;
    let all = "节点 '"@ + name + lit + top + "/r="@ + right + "/b="@ + bottom + "/l="@ + left + end;
    text::lemma_occurs_between(start, said, end);
    assert(start + said + end =~= all);
    text::lemma_occurs_between("节点 '"@, name, rest);
    assert("节点 '"@ + name + rest =~= all);
}

/// A font size is told with the node and the size.
pub proof fn law_font_size_is_told(n: NodeView)
    requires
        detectors::hardcoded_font_size(n).len() > 0,
    ensures
        text::occurs(detectors::hardcoded_font_size(n)[0].message, n.name),
        text::occurs(detectors::hardcoded_font_size(n)[0].message, n.style.font_size->0.text),
{
    lemma_parts5(
        "节点 '"@,
        n.name,
        "' font_size="@,
        n.style.font_size->0.text,
        " 未引用设计 Token"@,
    );
}

/// Two nodes that overlap are both named, the first one first.
pub proof fn law_overlap_is_told(a: NodeView, b: NodeView)
    requires
        detectors::overlap(a, b),
    ensures
        text::occurs(
            detectors::pair_finding(a, b)[0].message,
            a.name + "' 与 '"@ + b.name,
        ),
{
    let said = a.name + "' 与 '"@ + b.name;
    text::lemma_occurs_between("节点 '"@, said, "' 边界框重叠"@);
    assert("节点 '"@ + said + "' 边界框重叠"@ =~= "节点 '"@ + a.name + "' 与 '"@ + b.name
        + "' 边界框重叠"@);
}

/// The layouts are named each by its own name.
pub proof fn law_layouts_are_named(l: LayoutView)
    ensures
        l is Free <==> detectors::layout_name(l) == "free"@,
        l is Flex <==> detectors::layout_name(l) == "flex"@,
        l is Grid <==> detectors::layout_name(l) == "grid"@,
{
    reveal_strlit("free");
    reveal_strlit("flex");
    reveal_strlit("grid");
    assert("free"@[1] != "flex"@[1] && "free"@[0] != "grid"@[0] && "flex"@[0] != "grid"@[0]);
}

} // verus!
