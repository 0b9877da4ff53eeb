use fusion_design::canvas::{
    LayoutMode, Measure, NodeKind, NodeStyle, Page, PenDocument, PenNode,
};
use fusion_design::design_system::DesignSystemRegistry;
use fusion_design::export::pdf::{
    page_has_cjk_text, plan_pdf, text_has_cjk, PaintMode, PdfOp, Rgb,
};
use fusion_design::export::svg::{render_element_svg, render_html, render_svg};
use fusion_design::export::util::{
    collect_elements, resolve_color_var, sanitize_filename, sanitize_image_url, xml_escape,
};
use fusion_design::export::{
    check_raster_size, chosen_formats, CanvasElement, CanvasPage, Content, ExportError,
    ExportFormat, Exporter, FormatOutcome, FormatsReport,
};
use fusion_design::num::Num;

fn num(x: f64) -> Num {
    Num { bits: x.to_bits(), text: x.to_string() }
}

fn style() -> NodeStyle {
    NodeStyle {
        fill: None,
        stroke: None,
        stroke_width: None,
        radius: None,
        opacity: None,
        font_size: None,
        font_family: None,
        layout: LayoutMode::Free,
        design_token_refs: vec![],
    }
}

fn node(id: &str, kind: NodeKind, x: f64, y: f64, w: f64, h: f64) -> PenNode {
    PenNode {
        id: id.to_string(),
        kind,
        name: id.to_string(),
        x: num(x),
        y: num(y),
        w: num(w),
        h: num(h),
        style: style(),
        text: None,
        children: vec![],
        rotation: num(0.0),
        z_index: 0,
        measure: Measure {
            right: num(x + w),
            bottom: num(y + h),
            text_width: num(0.0),
            rotation_rest: num(0.0),
            rotation_label: "0.0".to_string(),
            contrast: num(1.0),
            center_x: num(x + w / 2.0),
            center_y: num(y + h / 2.0),
            half_side: num(w.min(h) / 2.0),
        },
    }
}

fn page(id: &str, name: &str, width: f64, height: f64, nodes: Vec<PenNode>) -> Page {
    Page {
        id: id.to_string(),
        name: name.to_string(),
        width: num(width),
        height: num(height),
        nodes,
    }
}

fn document(pages: Vec<Page>) -> PenDocument {
    PenDocument { schema_version: 1, pages, active_design_system: None }
}

fn element(kind: &str, x: f64, y: f64, w: f64, h: f64) -> CanvasElement {
    CanvasElement {
        kind: kind.to_string(),
        x: num(x),
        y: num(y),
        w: num(w),
        h: num(h),
        text: None,
        fill: None,
        stroke: None,
        stroke_width: None,
        radius: None,
        opacity: None,
        font_size: None,
        font_family: None,
        rotation: None,
        center_x: num(x + w / 2.0),
        center_y: num(y + h / 2.0),
        half_side: num(w.min(h) / 2.0),
    }
}

fn canvas(id: &str, name: &str, side: f64, elements: Vec<CanvasElement>) -> CanvasPage {
    CanvasPage {
        id: id.to_string(),
        name: name.to_string(),
        width: num(side),
        height: num(side),
        elements,
    }
}

fn sample_page() -> CanvasPage {
    let mut rect = element("rect", 0.0, 0.0, 50.0, 50.0);
    rect.fill = Some("#FFF".into());
    rect.stroke = Some("#000".into());
    rect.stroke_width = Some(num(1.0));
    rect.radius = Some(num(4.0));
    let mut text = element("text", 10.0, 20.0, 0.0, 0.0);
    text.text = Some("hello".into());
    text.fill = Some("#000".into());
    text.font_size = Some(num(14.0));
    text.font_family = Some("Helvetica".into());
    canvas("p1", "Test Page", 100.0, vec![rect, text])
}

fn text_of(content: Content) -> String {
    match content {
        Content::Text(s) => s,
        other => panic!("{other:?}"),
    }
}

#[test]
fn export_html_writes_file() {
    let file = Exporter::export_page(&sample_page(), ExportFormat::Html);
    assert_eq!(file.file_name, "Test_Page.html");
    let content = text_of(file.content);
    assert!(content.contains("<svg"));
    assert!(content.contains("hello"));
    assert!(content.contains("font-size"));
}

#[test]
fn export_html_escapes_title_xss() {
    let page = canvas("xss", "</title><script>alert(1)</script>", 100.0, vec![]);
    let content = text_of(Exporter::export_page(&page, ExportFormat::Html).content);
    assert!(!content.contains("<script>alert(1)</script>"));
    assert!(content.contains("&lt;script&gt;"));
    assert!(content.contains("&lt;/title&gt;"));
}

#[test]
fn html_page_is_exact() {
    let page = canvas("p", "A&B", 10.0, vec![]);
    assert_eq!(
        render_html(&page),
        "<!DOCTYPE html>\n<html><head><meta charset=\"utf-8\"><title>A&amp;B</title><style>body{margin:0;display:flex;justify-content:center;align-items:center;min-height:100vh;background:#f5f5f5;}</style></head>\n<body><svg xmlns=\"http://www.w3.org/2000/svg\" width=\"10\" height=\"10\" viewBox=\"0 0 10 10\">\n</svg></body></html>"
    );
}

#[test]
fn export_svg_writes_file() {
    let content = text_of(Exporter::export_page(&sample_page(), ExportFormat::Svg).content);
    assert!(content.starts_with("<svg"));
    assert!(content.contains("rx=\"4\""));
    assert!(content.contains("stroke-width"));
}

#[test]
fn export_json_writes_file() {
    match Exporter::export_page(&sample_page(), ExportFormat::Json).content {
        Content::Json(p) => {
            assert_eq!(p.id, "p1");
            assert_eq!(p.elements.len(), 2);
        }
        other => panic!("{other:?}"),
    }
}

#[test]
fn export_png_writes_file() {
    let file = Exporter::export_page(&sample_page(), ExportFormat::Png);
    assert_eq!(file.file_name, "Test_Page.png");
    match file.content {
        Content::Raster(svg) => assert_eq!(svg, render_svg(&sample_page())),
        other => panic!("{other:?}"),
    }
}

#[test]
fn export_pdf_writes_file() {
    let file = Exporter::export_page(&sample_page(), ExportFormat::Pdf);
    assert_eq!(file.file_name, "Test_Page.pdf");
    assert!(matches!(file.content, Content::Drawing { cjk: false, .. }));
}

fn rect_page() -> CanvasPage {
    let mut rect = element("rect", 10.0, 10.0, 40.0, 40.0);
    rect.fill = Some("#ff0000".into());
    canvas("r", "R", 100.0, vec![rect])
}

#[test]
fn render_pdf_rect_emits_rectangle_op() {
    let ops = plan_pdf(&rect_page(), false).ops;
    assert!(ops
        .iter()
        .any(|o| matches!(o, PdfOp::Rectangle { element: 0, mode: PaintMode::Fill })));
    assert!(ops.iter().any(|o| matches!(o, PdfOp::FillColor(Rgb { r: 255, g: 0, b: 0 }))));
    assert!(plan_pdf(&canvas("e", "E", 100.0, vec![]), false).ops.is_empty());
}

#[test]
fn render_pdf_circle_emits_fill_color_op() {
    let mut circle = element("circle", 10.0, 10.0, 40.0, 40.0);
    circle.fill = Some("#00ff00".into());
    circle.stroke = Some("#000000".into());
    circle.stroke_width = Some(num(1.0));
    let ops = plan_pdf(&canvas("c", "C", 100.0, vec![circle]), false).ops;
    assert!(ops.iter().any(|o| matches!(o, PdfOp::FillColor(Rgb { r: 0, g: 255, b: 0 }))));
    assert!(ops.iter().any(|o| matches!(o, PdfOp::OutlineColor(Rgb { r: 0, g: 0, b: 0 }))));
    assert!(ops.iter().any(|o| matches!(o, PdfOp::OutlineThickness(n) if n.text == "1")));
    assert!(ops
        .iter()
        .any(|o| matches!(o, PdfOp::Circle { element: 0, mode: PaintMode::FillStroke })));
}

#[test]
fn render_pdf_hex_color_invalid_skipped_not_panic() {
    let mut rect = element("rect", 0.0, 0.0, 10.0, 10.0);
    rect.fill = Some("not-a-color".into());
    rect.stroke = Some("#zzz".into());
    rect.stroke_width = Some(num(2.0));
    let plan = plan_pdf(&canvas("x", "X", 100.0, vec![rect]), false);
    assert!(plan.ops.is_empty());
    assert!(plan.skipped.is_empty());
}

#[test]
fn text_has_cjk_detects_chinese() {
    assert!(text_has_cjk("登录页面"));
    assert!(text_has_cjk("hello 世界"));
    assert!(text_has_cjk("全角　空格"));
    assert!(!text_has_cjk("plain ascii"));
    assert!(!text_has_cjk(""));
    assert!(!text_has_cjk("café résumé"));
}

fn text_page(content: &str) -> CanvasPage {
    let mut text = element("text", 0.0, 0.0, 100.0, 20.0);
    text.text = Some(content.to_string());
    text.font_size = Some(num(12.0));
    canvas("c", "C", 100.0, vec![text])
}

#[test]
fn page_has_cjk_text_detection() {
    assert!(page_has_cjk_text(&text_page("你好")));
    assert!(!page_has_cjk_text(&text_page("login")));
}

#[test]
fn render_pdf_cjk_text_produces_valid_pdf() {
    let page = text_page("登录页面");
    assert!(matches!(
        Exporter::export_page(&page, ExportFormat::Pdf).content,
        Content::Drawing { cjk: true, .. }
    ));
    let ops = plan_pdf(&page, true).ops;
    assert!(ops.iter().any(|o| matches!(o, PdfOp::SetFont { embedded: true, .. })));
    let ops = plan_pdf(&page, false).ops;
    assert!(ops.iter().any(|o| matches!(o, PdfOp::SetFont { embedded: false, .. })));
    let ops = plan_pdf(&text_page("login"), true).ops;
    assert!(matches!(ops[0], PdfOp::StartText));
    assert!(matches!(&ops[1], PdfOp::SetFont { embedded: false, size: Some(n) } if n.text == "12"));
    assert!(matches!(ops[2], PdfOp::TextCursor(0)));
    assert!(matches!(&ops[3], PdfOp::ShowText(s) if s == "login"));
    assert!(matches!(ops[4], PdfOp::EndText));
}

#[test]
fn pdf_export_rotated_shape_not_skipped() {
    let mut page = rect_page();
    page.elements[0].rotation = Some(num(45.0));
    let ops = plan_pdf(&page, false).ops;
    assert!(matches!(ops[0], PdfOp::SaveState));
    assert!(matches!(ops[1], PdfOp::Turn(0)));
    assert!(ops.iter().any(|o| matches!(o, PdfOp::Rectangle { .. })));
    assert!(ops.iter().any(|o| matches!(o, PdfOp::FillColor(_))));
    assert!(matches!(ops.last(), Some(PdfOp::RestoreState)));
    let mut page = text_page("x");
    page.elements[0].rotation = Some(num(30.0));
    assert!(matches!(plan_pdf(&page, false).ops[2], PdfOp::TextTurn(0)));
}

#[test]
fn render_pdf_skips_unsupported_kind_safely() {
    let mut rect = element("rect", 0.0, 0.0, 10.0, 10.0);
    rect.fill = Some("#000000".into());
    let page = canvas(
        "s",
        "S",
        100.0,
        vec![
            element("image", 0.0, 0.0, 50.0, 50.0),
            rect,
            element("image", 0.0, 0.0, 5.0, 5.0),
            element("group", 0.0, 0.0, 5.0, 5.0),
        ],
    );
    let plan = plan_pdf(&page, false);
    assert!(plan.ops.iter().any(|o| matches!(o, PdfOp::Rectangle { element: 1, .. })));
    assert_eq!(plan.skipped, vec!["image", "group"]);
}

#[test]
fn render_png_rejects_total_pixels_over_limit() {
    let msg = check_raster_size(9000, 9000).unwrap_err().message();
    assert_eq!(
        msg,
        "渲染失败: 画布总像素 81000000 (9000x9000) 超出上限 64000000，拒绝渲染 PNG 防止 OOM"
    );
    assert_eq!(
        check_raster_size(16385, 1).unwrap_err().message(),
        "渲染失败: 画布尺寸 16385x1 超出光栅化上限 16384x16384，拒绝渲染 PNG 防止 OOM"
    );
    assert_eq!(
        check_raster_size(0, 10).unwrap_err().message(),
        "渲染失败: 页面尺寸为零，无法渲染 PNG"
    );
    assert!(check_raster_size(8000, 8000).is_ok());
}

#[test]
fn export_batch_multiple_pages() {
    let pages = vec![sample_page(), canvas("p2", "Second", 200.0, vec![])];
    let files = Exporter::export_batch(&pages, ExportFormat::Svg);
    assert_eq!(files.len(), 2);
    assert_eq!(files[1].file_name, "Second.svg");
}

#[test]
fn export_batch_reports_all_failures() {
    let names = vec!["a".to_string(), "b".to_string(), "c".to_string()];
    let outcomes = vec![
        Ok("/out/a.svg".to_string()),
        Err(ExportError::Io("full".to_string())),
        Err(ExportError::UnsupportedFormat(ExportFormat::Pdf)),
    ];
    let e = Exporter::outcome(&names, outcomes).unwrap_err();
    assert_eq!(
        e.message(),
        "批量导出存在 2 项失败:\n页面 'b' 导出失败: IO 错误: full\n页面 'c' 导出失败: 不支持的导出格式: Pdf"
    );
    let outcomes = vec![Ok("x".to_string()), Ok("y".to_string()), Ok("z".to_string())];
    assert_eq!(Exporter::outcome(&names, outcomes).unwrap(), vec!["x", "y", "z"]);
    assert_eq!(ExportError::Serialize("s".into()).message(), "序列化错误: s");
}

#[test]
fn failed_formats_are_summed_up() {
    assert_eq!(chosen_formats(None, ExportFormat::Svg), vec![ExportFormat::Svg]);
    assert_eq!(
        chosen_formats(Some(vec![ExportFormat::Png, ExportFormat::Pdf]), ExportFormat::Svg),
        vec![ExportFormat::Png, ExportFormat::Pdf]
    );
    let report = FormatsReport::new(&vec![
        FormatOutcome { format: ExportFormat::Svg, pages: Ok(3) },
        FormatOutcome { format: ExportFormat::Png, pages: Err(ExportError::Io("full".into())) },
        FormatOutcome { format: ExportFormat::Html, pages: Ok(2) },
    ]);
    assert_eq!(report.total, 5);
    assert_eq!(report.failures, vec!["png: IO 错误: full"]);
    assert_eq!(
        report.verdict(),
        Err("批量导出部分失败: 成功导出 5 页，1 项格式失败".to_string())
    );
    assert_eq!(FormatsReport::new(&vec![]).verdict(), Ok(()));
}

#[test]
fn format_extension_and_mime() {
    assert_eq!(ExportFormat::Html.extension(), "html");
    assert_eq!(ExportFormat::Svg.mime(), "image/svg+xml");
}

#[test]
fn render_element_svg_unknown_kind_commented() {
    let svg = render_element_svg(&element("weird", 0.0, 0.0, 0.0, 0.0));
    assert!(svg.contains("未知元素"));
    assert_eq!(svg, "<!-- 未知元素类型 weird -->\n");
    assert_eq!(render_element_svg(&element("group", 0.0, 0.0, 0.0, 0.0)), "<!-- group -->\n");
}

#[test]
fn render_svg_includes_circle() {
    let mut circle = element("circle", 0.0, 0.0, 10.0, 10.0);
    circle.fill = Some("#F00".into());
    let svg = render_svg(&canvas("p", "n", 10.0, vec![circle]));
    assert!(svg.contains("<circle"));
    assert!(svg.contains("<circle cx=\"5\" cy=\"5\" r=\"5\" fill=\"#F00\" stroke=\"none\""));
}

#[test]
fn from_pen_document_converts() {
    let mut n = node("n1", NodeKind::Rect, 10.0, 20.0, 50.0, 30.0);
    n.style.fill = Some("#FF0000".into());
    n.style.radius = Some(num(8.0));
    let doc = document(vec![page("p1", "Home", 100.0, 200.0, vec![n])]);
    let cp = CanvasPage::from_page(&doc.pages[0]);
    assert_eq!(cp.id, "p1");
    assert_eq!(cp.name, "Home");
    assert_eq!(cp.width.text, "100");
    assert_eq!(cp.elements.len(), 1);
    assert_eq!(cp.elements[0].fill.as_deref(), Some("#FF0000"));
    assert_eq!(cp.elements[0].radius.as_ref().unwrap().text, "8");
}

#[test]
fn from_pen_document_export_html() {
    let mut text = node("n2", NodeKind::Text, 10.0, 20.0, 0.0, 0.0);
    text.text = Some("world".into());
    let rect = node("n1", NodeKind::Rect, 0.0, 0.0, 50.0, 50.0);
    let doc = document(vec![page("p1", "Demo", 100.0, 100.0, vec![rect, text])]);
    let mut files = Exporter::from_pen_document(&doc, ExportFormat::Html);
    assert_eq!(files.len(), 1);
    assert!(text_of(files.remove(0).content).contains("world"));
}

#[test]
fn from_pen_document_multi_page_streams() {
    let mut pages = vec![];
    for i in 0..5 {
        let mut n = node("n", NodeKind::Text, 10.0, 10.0, 0.0, 0.0);
        n.text = Some(format!("mark{i}"));
        pages.push(page(&format!("p{i}"), &format!("Page{i}"), 100.0, 100.0, vec![n]));
    }
    let files = Exporter::from_pen_document(&document(pages), ExportFormat::Svg);
    assert_eq!(files.len(), 5);
    for (i, f) in files.into_iter().enumerate() {
        assert_eq!(f.page_name, format!("Page{i}"));
        assert!(text_of(f.content).contains(&format!("mark{i}")));
    }
}

#[test]
fn sanitize_filename_strips_special() {
    assert_eq!(sanitize_filename("Hello/World"), "Hello_World");
    assert_eq!(sanitize_filename("Page 1"), "Page_1");
    assert_eq!(sanitize_filename("ok-name_123"), "ok-name_123");
    assert_eq!(sanitize_filename("登录·页"), "登录_页");
}

#[test]
fn sanitize_filename_empty_defaults_to_page() {
    assert_eq!(sanitize_filename(""), "page");
    assert_eq!(sanitize_filename("   "), "___");
    assert_eq!(sanitize_filename("///"), "___");
    assert_eq!(sanitize_filename("!!!"), "___");
}

#[test]
fn export_empty_name_page_not_hidden_file() {
    let page = canvas("p1", "", 100.0, vec![]);
    let files = Exporter::export_batch(&vec![page], ExportFormat::Svg);
    assert_eq!(files[0].file_name, "page.svg");
}

#[test]
fn xml_escape_handles_special() {
    assert_eq!(xml_escape("<b>bold</b>"), "&lt;b&gt;bold&lt;/b&gt;");
    assert_eq!(xml_escape("a&b"), "a&amp;b");
    assert_eq!(xml_escape("he said \"hi\""), "he said &quot;hi&quot;");
    assert_eq!(xml_escape("&lt;"), "&amp;lt;");
}

#[test]
fn svg_attribute_injection_escaped() {
    let mut el = element("rect", 0.0, 0.0, 10.0, 10.0);
    el.fill = Some("red\" onclick=\"alert(1)".into());
    el.stroke = Some("blue\" onload=\"evil()".into());
    let svg = render_element_svg(&el);
    assert!(!svg.contains("\" onclick=\""), "{svg}");
    assert!(!svg.contains("\" onload=\""), "{svg}");
    assert!(svg.contains("fill=\"red&quot;"), "{svg}");
    assert!(svg.contains("stroke=\"blue&quot;"), "{svg}");
}

#[test]
fn rotation_in_svg() {
    let mut el = element("rect", 10.0, 20.0, 50.0, 30.0);
    el.fill = Some("#000".into());
    el.rotation = Some(num(45.0));
    let svg = render_element_svg(&el);
    assert!(svg.contains("rotate(45"));
    assert_eq!(
        svg,
        "<rect x=\"10\" y=\"20\" width=\"50\" height=\"30\" fill=\"#000\" stroke=\"none\"    transform=\"rotate(45 35 35)\"/>\n"
    );
}

#[test]
fn rotation_in_svg_text() {
    let mut el = element("text", 10.0, 20.0, 50.0, 30.0);
    el.text = Some("hello".into());
    el.fill = Some("#000".into());
    el.font_size = Some(num(14.0));
    el.rotation = Some(num(30.0));
    let svg = render_element_svg(&el);
    assert!(svg.contains("rotate(30"), "{svg}");
    assert!(svg.contains("hello"), "{svg}");
}

#[test]
fn rotation_zero_svg_text_no_transform() {
    let mut el = element("text", 10.0, 20.0, 50.0, 30.0);
    el.text = Some("hi".into());
    el.fill = Some("#000".into());
    el.font_size = Some(num(12.0));
    el.rotation = Some(num(0.0));
    assert!(!render_element_svg(&el).contains("transform"));
    el.rotation = None;
    assert!(!render_element_svg(&el).contains("transform"));
}

#[test]
fn nested_children_flattened() {
    let mut group = node("g1", NodeKind::Group, 0.0, 0.0, 0.0, 0.0);
    group.children = vec![node("c1", NodeKind::Rect, 5.0, 5.0, 10.0, 10.0)];
    let cp = CanvasPage::from_page(&page("p1", "Nested", 100.0, 100.0, vec![group.copy()]));
    assert_eq!(cp.elements.len(), 2);
    assert_eq!(cp.elements[0].kind, "group");
    assert_eq!(cp.elements[1].kind, "rect");
    let mut out = vec![];
    group.rotation = num(30.0);
    collect_elements(&group, &mut out);
    assert_eq!(out.len(), 2);
    assert_eq!(out[0].rotation.as_ref().unwrap().text, "30");
    assert!(out[1].rotation.is_none());
}

fn apple_hig_registry() -> DesignSystemRegistry {
    let mut reg = DesignSystemRegistry::new();
    reg.register_builtin();
    reg.activate("apple-hig").unwrap();
    reg
}

#[test]
fn resolve_color_var_dot_form() {
    let v = resolve_color_var(&Some("var(--color.accent)".into()), &apple_hig_registry());
    assert_eq!(v.as_deref(), Some("#007AFF"));
}

#[test]
fn resolve_color_var_dash_form() {
    let v = resolve_color_var(&Some("var(--color-accent)".into()), &apple_hig_registry());
    assert_eq!(v.as_deref(), Some("#007AFF"));
}

#[test]
fn resolve_color_var_token_prefix() {
    let v = resolve_color_var(&Some("token:color.accent".into()), &apple_hig_registry());
    assert_eq!(v.as_deref(), Some("#007AFF"));
}

#[test]
fn resolve_color_var_passthrough_plain() {
    let reg = apple_hig_registry();
    assert_eq!(resolve_color_var(&Some("#FF8800".into()), &reg).as_deref(), Some("#FF8800"));
    assert_eq!(resolve_color_var(&None, &reg), None);
    assert_eq!(
        resolve_color_var(&Some("var(--no-such)".into()), &reg).as_deref(),
        Some("var(--no-such)")
    );
    assert_eq!(
        resolve_color_var(&Some("var(--color-accent)".into()), &DesignSystemRegistry::new())
            .as_deref(),
        Some("var(--color-accent)")
    );
}

#[test]
fn from_pen_document_with_tokens_resolves_svg() {
    let mut n = node("n1", NodeKind::Rect, 0.0, 0.0, 50.0, 50.0);
    n.style.fill = Some("var(--color-accent)".into());
    let doc = document(vec![page("p1", "Token", 100.0, 100.0, vec![n])]);
    let reg = apple_hig_registry();
    let mut files = Exporter::from_pen_document_with_tokens(&doc, ExportFormat::Svg, &reg);
    let svg = text_of(files.remove(0).content);
    assert!(svg.contains("fill=\"#007AFF\""), "{svg}");
    assert!(!svg.contains("var(--"), "{svg}");
}

#[test]
fn from_pen_document_with_tokens_png_resolved() {
    let mut n = node("n1", NodeKind::Rect, 0.0, 0.0, 40.0, 40.0);
    n.style.fill = Some("var(--color-accent)".into());
    let doc = document(vec![page("p1", "Png", 40.0, 40.0, vec![n])]);
    let files =
        Exporter::from_pen_document_with_tokens(&doc, ExportFormat::Png, &apple_hig_registry());
    match &files[0].content {
        Content::Raster(svg) => assert!(svg.contains("#007AFF")),
        other => panic!("{other:?}"),
    }
}

#[test]
fn sanitize_image_url_whitelist() {
    assert_eq!(sanitize_image_url("data:image/png;base64,xxx"), "data:image/png;base64,xxx");
    assert_eq!(sanitize_image_url("assets/logo.svg"), "assets/logo.svg");
    assert_eq!(sanitize_image_url("photo.jpg"), "photo.jpg");
    assert_eq!(sanitize_image_url(""), "");
}

#[test]
fn sanitize_image_url_rejects_executable_and_remote() {
    assert_eq!(sanitize_image_url("javascript:alert(1)"), "");
    assert_eq!(sanitize_image_url("data:text/html,<script>alert(1)</script>"), "");
    assert_eq!(sanitize_image_url("https://evil.com/x.png"), "");
    assert_eq!(sanitize_image_url("http://10.0.0.1/exfil.png"), "");
    assert_eq!(sanitize_image_url("file:///etc/passwd"), "");
    assert_eq!(sanitize_image_url("  JavaScript:alert(1)"), "");
    assert_eq!(sanitize_image_url(" a.png "), "a.png");
    assert_eq!(sanitize_image_url("ws://evil.com/x.png"), "");
    assert_eq!(sanitize_image_url("blob:abc"), "");
    assert_eq!(sanitize_image_url("//evil.com/x.png"), "");
    assert_eq!(sanitize_image_url("DATA:IMAGE/png,x"), "DATA:IMAGE/png,x");
    assert_eq!(sanitize_image_url("a/b:c.png"), "a/b:c.png");
    assert_eq!(sanitize_image_url("a.png?t=1:2"), "a.png?t=1:2");
}

#[test]
fn sanitize_image_url_rejects_dotdot_traversal() {
    assert_eq!(sanitize_image_url("../secret"), "");
    assert_eq!(sanitize_image_url("a/../b"), "");
    assert_eq!(sanitize_image_url("../../etc/passwd"), "");
    assert_eq!(sanitize_image_url(".."), "");
}

#[test]
fn sanitize_image_url_allows_normal_relative() {
    assert_eq!(sanitize_image_url("logo.png"), "logo.png");
    assert_eq!(sanitize_image_url("assets/icon.svg"), "assets/icon.svg");
    assert_eq!(sanitize_image_url("data:image/png;base64,xxx"), "data:image/png;base64,xxx");
}

#[test]
fn svg_image_href_injection_blocked() {
    let mut el = element("image", 0.0, 0.0, 10.0, 10.0);
    el.text = Some("javascript:alert(1)".into());
    let svg = render_element_svg(&el);
    assert!(!svg.contains("javascript:"), "{svg}");
    assert!(svg.contains("href=\"\""), "{svg}");
}
