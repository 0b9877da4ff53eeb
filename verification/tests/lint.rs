use fusion_design::canvas::{
    AlignItems, FlexDirection, FlexParams, FlexWrap, JustifyContent, LayoutMode, Measure,
    NodeKind, NodeStyle, Padding, Page, PenDocument, PenNode,
};
use fusion_design::css::parse_hex_color;
use fusion_design::design_system::{DesignSystem, DesignSystemRegistry};
use fusion_design::lint::color::parse_color_any;
use fusion_design::lint::detectors::rects_overlap;
use fusion_design::lint::fix::{apply_tokens_to_document, apply_tokens_to_nodes, FixResult};
use fusion_design::lint::{
    build_numeric_token_map, build_token_map, find_token, LintRule, LintSeverity, LintViolation,
    Linter,
};
use fusion_design::num::Num;

fn num(x: f64) -> Num {
    Num { bits: x.to_bits(), text: x.to_string() }
}

fn value(n: &Num) -> f64 {
    f64::from_bits(n.bits)
}

fn style() -> NodeStyle {
    NodeStyle {
        fill: None,
        stroke: None,
        stroke_width: None,
        radius: None,
        opacity: None,
        font_size: None,
        font_family: None,
        layout: LayoutMode::Free,
        design_token_refs: vec![],
    }
}

fn filled(color: &str) -> NodeStyle {
    NodeStyle { fill: Some(color.into()), ..style() }
}

fn flex(gap: f64) -> LayoutMode {
    LayoutMode::Flex(FlexParams {
        direction: FlexDirection::Row,
        gap: num(gap),
        align_items: AlignItems::Stretch,
        justify_content: JustifyContent::Start,
        wrap: FlexWrap::NoWrap,
        padding: Padding { top: num(0.0), right: num(0.0), bottom: num(0.0), left: num(0.0) },
    })
}

fn node(kind: NodeKind, id: &str, name: &str, x: f64, y: f64, w: f64, h: f64) -> PenNode {
    PenNode {
        id: id.into(),
        kind,
        name: name.into(),
        x: num(x),
        y: num(y),
        w: num(w),
        h: num(h),
        style: style(),
        text: None,
        children: vec![],
        rotation: num(0.0),
        z_index: 0,
        measure: Measure {
            right: num(0.0),
            bottom: num(0.0),
            text_width: num(0.0),
            rotation_rest: num(0.0),
            rotation_label: String::new(),
            contrast: num(0.0),
            center_x: num(0.0),
            center_y: num(0.0),
            half_side: num(0.0),
        },
    }
}

fn text_node(id: &str, name: &str, style: NodeStyle) -> PenNode {
    PenNode { style, ..node(NodeKind::Text, id, name, 0.0, 0.0, 100.0, 30.0) }
}

fn rect_node(id: &str, name: &str, style: NodeStyle) -> PenNode {
    PenNode { style, ..node(NodeKind::Rect, id, name, 0.0, 0.0, 100.0, 100.0) }
}

fn group_node(id: &str, name: &str, children: Vec<PenNode>) -> PenNode {
    PenNode { children, ..node(NodeKind::Group, id, name, 0.0, 0.0, 200.0, 40.0) }
}

fn linear(c: u8) -> f64 {
    let c = c as f64 / 255.0;
    if c <= 0.03928 {
        c / 12.92
    } else {
        ((c + 0.055) / 1.055).powf(2.4)
    }
}

fn luminance(color: &str) -> f64 {
    match parse_color_any(color) {
        Some((r, g, b)) => 0.2126 * linear(r) + 0.7152 * linear(g) + 0.0722 * linear(b),
        None => -1.0,
    }
}

fn measure(n: &mut PenNode, around: Option<&str>) {
    let (x, y, w, h) = (value(&n.x), value(&n.y), value(&n.w), value(&n.h));
    let rotation = value(&n.rotation);
    let letters = n.text.as_deref().unwrap_or("").trim().chars().count() as f64;
    let size = n.style.font_size.as_ref().map(value).unwrap_or(16.0);
    let fg = luminance(n.style.fill.as_deref().unwrap_or(""));
    let bg = luminance(around.unwrap_or(""));
    let ratio = (fg.max(bg) + 0.05) / (fg.min(bg) + 0.05);
    n.measure = Measure {
        right: num(x + w),
        bottom: num(y + h),
        text_width: num(letters * size),
        rotation_rest: num((rotation % 15.0).abs()),
        rotation_label: format!("{rotation:.1}"),
        contrast: Num { bits: ratio.to_bits(), text: format!("{ratio:.1}") },
        center_x: num(x + w / 2.0),
        center_y: num(y + h / 2.0),
        half_side: num(w.min(h) / 2.0),
    };
    let inner = n.style.fill.clone();
    for c in n.children.iter_mut() {
        measure(c, inner.as_deref());
    }
}

fn make_doc(mut nodes: Vec<PenNode>) -> PenDocument {
    for n in nodes.iter_mut() {
        measure(n, None);
    }
    PenDocument {
        schema_version: 1,
        pages: vec![Page {
            id: "page-1".into(),
            name: "Page 1".into(),
            width: num(800.0),
            height: num(600.0),
            nodes,
        }],
        active_design_system: None,
    }
}

fn of_rule(nodes: Vec<PenNode>, rule: LintRule) -> Vec<LintViolation> {
    let result = Linter::new().lint(&make_doc(nodes));
    result.violations.into_iter().filter(|v| v.rule == rule).collect()
}

fn found(nodes: Vec<PenNode>, rule: LintRule) -> bool {
    !of_rule(nodes, rule).is_empty()
}

fn system(id: &str) -> DesignSystem {
    let mut reg = DesignSystemRegistry::new();
    reg.register_builtin();
    reg.get(id).unwrap().clone()
}

fn text_on(fill: &str, text: &str) -> Vec<PenNode> {
    let mut parent = rect_node("r1", "box", filled(fill));
    parent.children = vec![text_node("t1", "label", filled(text))];
    vec![parent]
}

#[test]
fn contrast_low_ratio_detected() {
    let v = of_rule(text_on("#333333", "#000000"), LintRule::ContrastCheck);
    assert!(!v.is_empty());
    assert_eq!(v[0].node_id, "t1");
    assert_eq!(v[0].severity, LintSeverity::Error);
    assert_eq!(v[0].message, "对比度 1.7:1 不足（最低 3:1）");
}

#[test]
fn contrast_middling_ratio_is_a_warning() {
    let v = of_rule(text_on("#ffffff", "#808080"), LintRule::ContrastCheck);
    assert_eq!(v.len(), 1);
    assert_eq!(v[0].severity, LintSeverity::Warning);
    assert_eq!(v[0].message, "对比度 3.9:1 偏低（建议 4.5:1）");
}

#[test]
fn contrast_good_ratio_no_violation() {
    let style = NodeStyle {
        fill: Some("#ffffff".into()),
        stroke: Some("#000000".into()),
        ..style()
    };
    assert!(!found(vec![rect_node("r1", "box", style)], LintRule::ContrastCheck));
}

#[test]
fn contrast_rgb_color_detected() {
    assert!(found(text_on("rgb(51,51,51)", "#000000"), LintRule::ContrastCheck));
}

#[test]
fn contrast_named_color_white_on_black_detected() {
    assert!(!found(text_on("black", "white"), LintRule::ContrastCheck));
}

#[test]
fn contrast_rgba_parsing_no_skip() {
    assert!(!found(text_on("#000000", "rgba(255,255,255,1.0)"), LintRule::ContrastCheck));
    assert!(found(text_on("#000000", "rgba(0,0,0,1.0)"), LintRule::ContrastCheck));
}

#[test]
fn contrast_stroke_only_not_treated_as_bg() {
    let style = NodeStyle { fill: None, stroke: Some("#444444".into()), ..style() };
    assert!(!found(vec![rect_node("r1", "box", style)], LintRule::ContrastCheck));
}

#[test]
fn unlabeled_input_detected() {
    assert!(found(vec![group_node("c1", "SearchInput", vec![])], LintRule::UnlabeledInput));
}

#[test]
fn labeled_input_no_violation() {
    let label = text_node("l1", "Label", style());
    let input = group_node("c1", "SearchInput", vec![label]);
    assert!(!found(vec![input], LintRule::UnlabeledInput));
}

#[test]
fn text_gradient_detected() {
    let style = filled("linear-gradient(90deg, #ff0000, #0000ff)");
    assert!(found(vec![text_node("t1", "fancy", style)], LintRule::TextEffects));
}

#[test]
fn rect_with_gradient_no_text_effect_violation() {
    let style = filled("linear-gradient(90deg, #ff0000, #0000ff)");
    assert!(!found(vec![rect_node("r1", "bg", style)], LintRule::TextEffects));
}

fn rotated(angle: f64) -> Vec<PenNode> {
    let mut node = rect_node("r1", "rotated", style());
    node.rotation = num(angle);
    vec![node]
}

#[test]
fn abnormal_rotation_over_90_detected() {
    let v = of_rule(rotated(120.0), LintRule::AbnormalRotation);
    assert!(v.iter().any(|v| v.severity == LintSeverity::Error));
    assert_eq!(v[0].message, "节点 'rotated' 旋转角度 120.0° 超过 90°");
    let v = of_rule(rotated(-90.5), LintRule::AbnormalRotation);
    assert!(v.iter().any(|v| v.severity == LintSeverity::Error));
}

#[test]
fn non_15_multiple_rotation_info() {
    let v = of_rule(rotated(7.0), LintRule::AbnormalRotation);
    assert!(v.iter().any(|v| v.severity == LintSeverity::Info));
    assert_eq!(v[0].message, "节点 'rotated' 旋转角度 7.0° 非 15° 倍数");
}

#[test]
fn rotation_0_no_violation() {
    assert!(!found(rotated(0.0), LintRule::AbnormalRotation));
}

#[test]
fn rotation_45_no_violation() {
    assert!(!found(rotated(45.0), LintRule::AbnormalRotation));
}

#[test]
fn empty_fill_detected() {
    assert!(found(vec![rect_node("r1", "box", filled(""))], LintRule::EmptyEffects));
}

#[test]
fn empty_stroke_detected() {
    let style = NodeStyle { stroke: Some("   ".into()), ..style() };
    assert!(found(vec![rect_node("r1", "box", style)], LintRule::EmptyEffects));
}

#[test]
fn empty_font_family_detected() {
    let style = NodeStyle { font_family: Some("  ".into()), ..style() };
    assert!(found(vec![text_node("t1", "txt", style)], LintRule::EmptyEffects));
}

#[test]
fn no_design_system_skips_token_check() {
    let node = rect_node("r1", "box", filled("#007AFF"));
    assert!(!found(vec![node], LintRule::TokenInconsistency));
}

#[test]
fn literal_color_of_a_token_is_reported() {
    let doc = make_doc(vec![rect_node("r1", "box", filled("#007AFF"))]);
    let result = Linter::new().with_design_system(system("apple-hig")).lint(&doc);
    assert!(result.violations.iter().any(|v| v.rule == LintRule::TokenInconsistency));
}

#[test]
fn lint_stats_counts_correct() {
    let mut t = text_node("t1", "label", filled("#000000"));
    t.w = num(10.0);
    t.text = Some("一段很长会溢出容器宽度的文本内容".into());
    let result = Linter::new().lint(&make_doc(vec![t]));
    assert_eq!(result.stats.total_nodes, 1);
    assert!(result.stats.total_violations > 0);
    assert_eq!(
        result.stats.errors + result.stats.warnings + result.stats.infos,
        result.stats.total_violations
    );
    assert_eq!(result.stats.total_violations, result.violations.len());
}

#[test]
fn empty_document_no_violations() {
    let result = Linter::new().lint(&make_doc(vec![]));
    assert!(result.violations.is_empty());
    assert_eq!(result.stats.total_nodes, 0);
}

#[test]
fn with_rules_filters_rules() {
    let doc = make_doc(rotated(120.0));
    let result = Linter::with_rules(vec![LintRule::ContrastCheck]).lint(&doc);
    assert!(!result.violations.iter().any(|v| v.rule == LintRule::AbnormalRotation));
}

#[test]
fn hex_color_3_digit_parsing() {
    let style = NodeStyle { fill: Some("#fff".into()), stroke: Some("#000".into()), ..style() };
    assert!(!found(vec![rect_node("r1", "box", style)], LintRule::ContrastCheck));
    assert!(!found(text_on("#fff", "#000"), LintRule::ContrastCheck));
}

#[test]
fn hex_color_4_and_8_digit_alpha_ignored() {
    assert_eq!(parse_hex_color("#FF0000FF"), Some([255, 0, 0]));
    assert_eq!(parse_hex_color("#00FF0080"), Some([0, 255, 0]));
    assert_eq!(parse_hex_color("#F00F"), Some([255, 0, 0]));
    assert_eq!(parse_hex_color("#0F0F"), Some([0, 255, 0]));
    assert_eq!(parse_hex_color("FF0000FF"), Some([255, 0, 0]));
    assert_eq!(parse_hex_color("F00F"), Some([255, 0, 0]));
    assert_eq!(parse_hex_color("#FF0"), Some([255, 255, 0]));
    assert_eq!(parse_hex_color("#FF00"), Some([255, 255, 0]));
    assert_eq!(parse_hex_color("#FF000"), None);
    assert_eq!(parse_hex_color("#FF0000"), Some([255, 0, 0]));
}

#[test]
fn hex_color_8_digit_contrast_no_false_violation() {
    let style = NodeStyle {
        fill: Some("#FFFFFF".into()),
        stroke: Some("#000000FF".into()),
        ..style()
    };
    assert!(!found(vec![rect_node("r1", "box", style)], LintRule::ContrastCheck));
}

#[test]
fn color_names_and_functions_are_read() {
    assert_eq!(parse_color_any(" Grey "), Some((128, 128, 128)));
    assert_eq!(parse_color_any("transparent"), Some((255, 255, 255)));
    assert_eq!(parse_color_any("RGB( 1 , +2, 3)"), Some((1, 2, 3)));
    assert_eq!(parse_color_any("rgba(1,2,3,x)"), Some((1, 2, 3)));
    assert_eq!(parse_color_any("rgb(1,2)"), None);
    assert_eq!(parse_color_any("rgb(1,2,256)"), None);
    assert_eq!(parse_color_any("teal"), None);
}

#[test]
fn nested_nodes_counted() {
    let child = rect_node("c1", "child", style());
    let parent = PenNode {
        children: vec![child],
        ..node(NodeKind::Group, "p1", "parent", 0.0, 0.0, 200.0, 200.0)
    };
    let result = Linter::new().lint(&make_doc(vec![parent]));
    assert_eq!(result.stats.total_nodes, 2);
}

#[test]
fn unnamed_node_default_name_detected() {
    assert!(found(vec![rect_node("r1", "Rect", style())], LintRule::UnnamedNode));
}

#[test]
fn named_node_no_unnamed_violation() {
    assert!(!found(vec![rect_node("r1", "HeaderBackground", style())], LintRule::UnnamedNode));
}

#[test]
fn text_overflow_zero_size_detected() {
    let mut node = text_node("t1", "Text", style());
    node.w = num(0.0);
    node.h = num(0.0);
    node.text = Some("有内容但容器为零必然溢出".into());
    let v = of_rule(vec![node], LintRule::TextOverflow);
    assert_eq!(v.len(), 1);
    assert_eq!(v[0].message, "文本节点 'Text' 内容将溢出（w=0, h=0, 文本长=12）");
}

#[test]
fn text_that_just_fits_does_not_overflow() {
    let mut node = text_node("t1", "label", style());
    node.text = Some("abc".into());
    node.w = num(48.0);
    assert!(!found(vec![node.clone()], LintRule::TextOverflow));
    node.w = num(47.0);
    assert!(found(vec![node], LintRule::TextOverflow));
}

#[test]
fn text_with_size_no_overflow_violation() {
    assert!(!found(vec![text_node("t1", "label", style())], LintRule::TextOverflow));
}

fn boxed(id: &str, name: &str, at: f64) -> PenNode {
    node(NodeKind::Rect, id, name, at, at, 100.0, 100.0)
}

#[test]
fn overlapping_nodes_detected() {
    let nodes = vec![boxed("a", "A", 0.0), boxed("b", "B", 50.0)];
    assert!(found(nodes, LintRule::OverlappingNodes));
}

#[test]
fn overlap_is_mutual() {
    let doc = make_doc(vec![boxed("a", "A", 0.0), boxed("b", "B", 50.0), boxed("c", "C", 100.0)]);
    let n = &doc.pages[0].nodes;
    assert!(rects_overlap(&n[0], &n[1]) && rects_overlap(&n[1], &n[0]));
    assert!(!rects_overlap(&n[0], &n[2]) && !rects_overlap(&n[2], &n[0]));
}

#[test]
fn check_overlapping_skips_when_over_threshold() {
    let mut siblings = Vec::new();
    for i in 0..201 {
        let name = format!("n{i}");
        siblings.push(node(NodeKind::Rect, &name, &name, 0.0, 0.0, 10.0, 10.0));
    }
    assert!(!found(siblings, LintRule::OverlappingNodes));
}

#[test]
fn non_overlapping_nodes_no_violation() {
    let nodes = vec![boxed("a", "A", 0.0), boxed("b", "B", 200.0)];
    assert!(!found(nodes, LintRule::OverlappingNodes));
}

#[test]
fn overlapping_different_zindex_detected_as_info() {
    let b = PenNode { z_index: 5, ..boxed("b", "B", 50.0) };
    let v = of_rule(vec![boxed("a", "A", 0.0), b], LintRule::OverlappingNodes);
    assert!(!v.is_empty());
    assert!(v.iter().all(|v| v.severity == LintSeverity::Info));
}

#[test]
fn hardcoded_spacing_flex_gap_detected() {
    let style = NodeStyle { layout: flex(16.0), ..style() };
    assert!(found(vec![rect_node("r1", "Container", style)], LintRule::HardcodedSpacing));
}

#[test]
fn token_ref_spacing_no_violation() {
    let style = NodeStyle {
        layout: flex(16.0),
        design_token_refs: vec![("gap".to_string(), "spacing-md".to_string())],
        ..style()
    };
    assert!(!found(vec![rect_node("r1", "Container", style)], LintRule::HardcodedSpacing));
}

#[test]
fn hardcoded_font_size_detected() {
    let style = NodeStyle { font_size: Some(num(14.0)), ..style() };
    assert!(found(vec![text_node("t1", "Label", style)], LintRule::HardcodedFontSize));
}

#[test]
fn token_ref_font_size_no_violation() {
    let style = NodeStyle {
        font_size: Some(num(14.0)),
        design_token_refs: vec![("font_size".to_string(), "typography-body".to_string())],
        ..style()
    };
    assert!(!found(vec![text_node("t1", "Label", style)], LintRule::HardcodedFontSize));
}

#[test]
fn missing_interaction_state_button_detected() {
    let btn = group_node("b1", "SubmitButton", vec![]);
    assert!(found(vec![btn], LintRule::MissingInteractionState));
}

#[test]
fn button_with_hover_no_violation() {
    let hover = rect_node("h1", "Hover", style());
    let btn = group_node("b1", "SubmitButton", vec![hover]);
    assert!(!found(vec![btn], LintRule::MissingInteractionState));
}

#[test]
fn layout_inconsistency_detected() {
    let a = rect_node("a", "ItemA", NodeStyle { layout: flex(0.0), ..style() });
    let b = rect_node("b", "ItemB", style());
    assert!(found(vec![a, b], LintRule::LayoutInconsistency));
}

#[test]
fn consistent_layout_no_violation() {
    let a = rect_node("a", "ItemA", style());
    let b = rect_node("b", "ItemB", style());
    assert!(!found(vec![a, b], LintRule::LayoutInconsistency));
}

#[test]
fn all_rules_count_is_13() {
    assert_eq!(LintRule::all().len(), 13);
}

#[test]
fn apply_tokens_replaces_fill_with_ref() {
    let style = NodeStyle {
        design_token_refs: vec![("fill".into(), "primary".into())],
        ..filled("#007AFF")
    };
    let mut doc = make_doc(vec![rect_node("r1", "box", style)]);
    let result = apply_tokens_to_document(&mut doc, &system("apple-hig"));
    assert!(!result.details.iter().any(|d| d.action == "fill→token_ref"));
}

#[test]
fn apply_tokens_adds_fill_ref() {
    let mut doc = make_doc(vec![rect_node("r1", "box", filled("#007AFF"))]);
    let result = apply_tokens_to_document(&mut doc, &system("apple-hig"));
    assert!(result.fixes_applied > 0);
    assert!(result.details.iter().any(|d| d.action == "fill→token_ref"));
    let refs = &doc.pages[0].nodes[0].style.design_token_refs;
    assert!(refs.iter().any(|(k, v)| k == "fill" && v == "color.accent"));
}

#[test]
fn fixing_twice_is_fixing_once() {
    let mut doc = make_doc(vec![rect_node("r1", "box", filled("#007AFF"))]);
    apply_tokens_to_document(&mut doc, &system("apple-hig"));
    assert_eq!(apply_tokens_to_document(&mut doc, &system("apple-hig")).fixes_applied, 0);
}

#[test]
fn auto_fix_removes_empty_fill() {
    let mut doc = make_doc(vec![rect_node("r1", "Rect", filled(""))]);
    let linter = Linter::new().with_design_system(system("apple-hig"));
    let result = linter.auto_fix(&mut doc);
    assert!(result.details.iter().any(|d| d.action == "remove_empty_fill"));
    assert!(doc.pages[0].nodes[0].style.fill.is_none());
}

#[test]
fn auto_fix_names_unnamed_node() {
    let mut doc = make_doc(vec![rect_node("abc12345def", "Rect", style())]);
    let linter = Linter::new().with_design_system(system("apple-hig"));
    let result = linter.auto_fix(&mut doc);
    assert!(result.details.iter().any(|d| d.action == "auto_name"));
    assert!(doc.pages[0].nodes[0].name.starts_with("rect_"));
    assert_eq!(doc.pages[0].nodes[0].name, "rect_abc12345");
}

#[test]
fn auto_fix_names_cjk_id_no_panic() {
    let mut doc = make_doc(vec![rect_node("登录按钮节点标识符0123456789", "Rect", style())]);
    let linter = Linter::new().with_design_system(system("apple-hig"));
    let result = linter.auto_fix(&mut doc);
    assert!(result.details.iter().any(|d| d.action == "auto_name"));
    let renamed = &doc.pages[0].nodes[0].name;
    assert!(renamed.starts_with("rect_"), "renamed={renamed}");
    assert!(renamed.contains("登录"), "renamed={renamed}");
}

#[test]
fn auto_fix_without_design_system_skips_token_fixes() {
    let mut doc = make_doc(vec![rect_node("r1", "box", filled("#007AFF"))]);
    let result = Linter::new().auto_fix(&mut doc);
    assert_eq!(result.fixes_applied, 0);
    assert!(result.fixes_skipped > 0);
}

#[test]
fn build_numeric_token_map_includes_number_variant() {
    let map = build_numeric_token_map(&system("robot-sim"));
    assert_eq!(find_token(&map, "8"), Some("spacing.gauge".to_string()));
    assert_eq!(find_token(&map, "4"), Some("radius.panel".to_string()));
    assert_eq!(find_token(&map, "13"), Some("font.size.body".to_string()));
}

#[test]
fn auto_fix_gap_matches_number_spacing_token() {
    let style = NodeStyle { layout: flex(8.0), ..style() };
    let mut doc = make_doc(vec![rect_node("r1", "Container", style)]);
    let result = apply_tokens_to_document(&mut doc, &system("robot-sim"));
    assert!(result.details.iter().any(|d| d.action == "gap→token_ref"));
    let refs = &doc.pages[0].nodes[0].style.design_token_refs;
    assert!(refs.iter().any(|(k, v)| k == "gap" && v == "spacing.gauge"));
}

#[test]
fn mended_document_has_no_default_names() {
    let inner = rect_node("inner-node", "Rect", filled(" "));
    let mut doc = make_doc(vec![group_node("outer-node", "Group", vec![inner])]);
    let linter = Linter::new().with_design_system(system("apple-hig"));
    linter.auto_fix(&mut doc);
    let outer = &doc.pages[0].nodes[0];
    assert_eq!(outer.name, "group_outer-no");
    assert_eq!(outer.children[0].name, "rect_inner-no");
    let names = Linter::with_rules(vec![LintRule::UnnamedNode]).lint(&doc);
    assert_eq!(names.violations.len(), 0);
}

#[test]
fn mended_nodes_stay() {
    let styles = build_token_map(&system("apple-hig"));
    let numbers = build_numeric_token_map(&system("apple-hig"));
    let mut nodes = vec![group_node("g1", "Group", vec![rect_node("r1", "box", filled("#007AFF"))])];
    let mut result = FixResult { fixes_applied: 0, fixes_skipped: 3, details: vec![] };
    apply_tokens_to_nodes(&mut nodes, &styles, &numbers, &mut result);
    let (applied, told) = (result.fixes_applied, result.details.len());
    assert!(applied > 0 && applied == told);
    let name = nodes[0].name.clone();
    apply_tokens_to_nodes(&mut nodes, &styles, &numbers, &mut result);
    assert_eq!((result.fixes_applied, result.details.len()), (applied, told));
    assert_eq!(result.fixes_skipped, 3);
    assert_eq!(nodes[0].name, name);
}
