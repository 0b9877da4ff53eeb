use fusion_design::canvas::{
    AlignItems, FlexDirection, FlexParams, FlexWrap, GridParams, JustifyContent, LayoutMode,
    Measure, NodeKind, NodeStyle, Padding, Page, PenDocument, PenNode, TrackSizing,
};
use fusion_design::cli::codegen;
use fusion_design::codegen::html::{node_to_html, render_page_html};
use fusion_design::codegen::react::{
    node_to_react, node_to_react_inner, node_to_tailwind, render_page_react,
};
use fusion_design::codegen::swiftui::{
    collect_token_extensions, escape_swift_string, node_to_swiftui, render_page_swiftui,
    render_token_extensions, swift_ui_color,
};
use fusion_design::codegen::tokens::resolve_tokens;
use fusion_design::codegen::{document_code, escape_html, sanitize_css_color, CodegenTarget};
use fusion_design::design_system::DesignSystemRegistry;
use fusion_design::num::Num;

fn num(x: f64) -> Num {
    Num { bits: x.to_bits(), text: x.to_string() }
}

fn node(id: &str, kind: NodeKind) -> PenNode {
    PenNode {
        id: id.into(),
        kind,
        name: id.into(),
        x: num(10.9),
        y: num(-20.5),
        w: num(100.0),
        h: num(0.0),
        style: NodeStyle {
            fill: None,
            stroke: None,
            stroke_width: None,
            radius: None,
            opacity: None,
            font_size: None,
            font_family: None,
            layout: LayoutMode::Free,
            design_token_refs: vec![],
        },
        text: None,
        children: vec![],
        rotation: num(0.0),
        z_index: 0,
        measure: Measure {
            right: num(0.0),
            bottom: num(0.0),
            text_width: num(0.0),
            rotation_rest: num(0.0),
            rotation_label: "0.0".into(),
            contrast: num(0.0),
            center_x: num(0.0),
            center_y: num(0.0),
            half_side: num(0.0),
        },
    }
}

fn page(nodes: Vec<PenNode>) -> Page {
    Page { id: "p1".into(), name: "P".into(), width: num(390.0), height: num(844.0), nodes }
}

fn flex() -> LayoutMode {
    LayoutMode::Flex(FlexParams {
        direction: FlexDirection::ColumnReverse,
        gap: num(8.0),
        align_items: AlignItems::Center,
        justify_content: JustifyContent::SpaceBetween,
        wrap: FlexWrap::Wrap,
        padding: Padding { top: num(1.0), right: num(2.0), bottom: num(3.0), left: num(4.0) },
    })
}

fn decorated() -> PenNode {
    let mut n = node("n\"1", NodeKind::Rect);
    n.style.fill = Some("#ff0000".into());
    n.style.stroke = Some("red;}".into());
    n.style.stroke_width = Some(num(2.5));
    n.style.radius = Some(num(4.0));
    n.style.opacity = Some(num(0.5));
    n.style.font_size = Some(num(14.0));
    n.style.font_family = Some("Inter".into());
    n.rotation = num(7.5);
    n.z_index = -3;
    n
}

#[test]
fn html_of_a_decorated_box() {
    assert_eq!(
        node_to_html(&decorated()),
        "<div data-id=\"n&quot;1\" style=\"position:absolute;left:10px;top:-20px;width:100px;background:#ff0000;border:2px solid red;border-radius:4px;opacity:0.5;transform:rotate(7.5deg);z-index:-3;font-size:14px;font-family:Inter;\"></div>\n"
    );
}

#[test]
fn html_of_every_kind() {
    let position = "position:absolute;left:10px;top:-20px;width:100px;";
    let mut text = node("t", NodeKind::Text);
    text.text = Some("a<b>&'c'".into());
    assert_eq!(
        node_to_html(&text),
        format!("<div data-id=\"t\" style=\"{position}\">a&lt;b&gt;&amp;&#x27;c&#x27;</div>\n")
    );
    assert_eq!(
        node_to_html(&node("c", NodeKind::Circle)),
        format!("<div data-id=\"c\" style=\"{position}border-radius:50%;\"></div>\n")
    );
    assert_eq!(
        node_to_html(&node("i", NodeKind::Image)),
        format!("<img data-id=\"i\" style=\"{position}\" alt=\"\"/>\n")
    );
    let mut image = node("i", NodeKind::Image);
    image.children = vec![text];
    assert_eq!(
        node_to_html(&image),
        format!("<div data-id=\"i\" style=\"{position}\"><img style=\"{position}\" alt=\"\"/>{}</div>\n", node_to_html(&image.children[0]))
    );
    assert_eq!(
        node_to_html(&node("g", NodeKind::Group)),
        format!("<div data-id=\"g\" style=\"{position}\">\n</div>\n")
    );
}

#[test]
fn html_of_layouts() {
    let mut n = node("f", NodeKind::Rect);
    n.style.layout = flex();
    assert_eq!(
        node_to_html(&n),
        "<div data-id=\"f\" style=\"position:relative;display:flex;flex-direction:column-reverse;gap:8px;align-items:center;justify-content:space-between;flex-wrap:wrap;padding:1px 2px 3px 4px;width:100px;\"></div>\n"
    );
    n.style.layout = LayoutMode::Grid(GridParams {
        columns: vec![
            TrackSizing::Fixed(num(20.0)),
            TrackSizing::Auto,
            TrackSizing::Flex(num(1.5)),
            TrackSizing::Percent(num(25.0)),
        ],
        rows: vec![],
        gap: (num(3.0), num(5.0)),
    });
    assert_eq!(
        node_to_html(&n),
        "<div data-id=\"f\" style=\"position:relative;display:grid;grid-template-columns:20px auto 1.5fr 25%;gap:5px 3px;width:100px;\"></div>\n"
    );
}

#[test]
fn html_page_holds_its_nodes() {
    let html = render_page_html(&page(vec![node("a", NodeKind::Rect), node("b", NodeKind::Rect)]));
    assert!(html.starts_with(
        "<section data-page=\"p1\" style=\"width:390px;height:844px;position:relative;\">\n"
    ));
    assert!(html.ends_with("</section>\n"));
    assert!(html.find("data-id=\"a\"").unwrap() < html.find("data-id=\"b\"").unwrap());
}

fn nested(kind: NodeKind, depth: usize) -> PenNode {
    let mut n = node("leaf", kind);
    for _ in 0..depth {
        let mut outer = node("o", kind);
        outer.children = vec![n];
        n = outer;
    }
    n
}

#[test]
fn deep_nesting_is_cut_off() {
    let kept = nested(NodeKind::Rect, 128);
    assert!(node_to_html(&kept).contains("data-id=\"leaf\""));
    assert!(node_to_react(&kept).contains("data-id=\"leaf\""));
    let cut = nested(NodeKind::Rect, 129);
    assert!(node_to_html(&cut).contains("<!-- codegen depth limit reached -->"));
    assert!(!node_to_html(&cut).contains("data-id=\"leaf\""));
    assert!(node_to_react(&cut).contains("{/* codegen depth limit reached */}"));
    assert!(node_to_swiftui(&cut, 0).contains("/* codegen depth limit reached */"));
}

#[test]
fn tailwind_of_a_decorated_box() {
    assert_eq!(
        node_to_tailwind(&decorated()),
        "absolute left-[10px] top-[-20px] w-[100px] bg-[#ff0000] border-[2px] border-[red] rounded-[4px] opacity-[0.5] rotate-[7.5deg] z-[-3] text-[14px] font-[Inter]"
    );
    let mut n = node("f", NodeKind::Rect);
    n.style.layout = flex();
    assert_eq!(
        node_to_tailwind(&n),
        "relative flex flex-col-reverse gap-[8px] items-center justify-between flex-wrap w-[100px]"
    );
}

#[test]
fn react_of_every_kind() {
    let cls = "absolute left-[10px] top-[-20px] w-[100px]";
    assert_eq!(
        node_to_react(&node("c", NodeKind::Circle)),
        format!("      <div className=\"{cls} rounded-full\" data-id=\"c\"/>\n")
    );
    let mut group = node("g", NodeKind::Group);
    group.children = vec![node("i", NodeKind::Image)];
    assert_eq!(
        node_to_react(&group),
        format!("      <div className=\"{cls}\" data-id=\"g\">\n      <img className=\"{cls}\" data-id=\"i\" alt=\"\"/>\n      </div>\n")
    );
    let mut rect = node("r", NodeKind::Rect);
    let mut text = node("t", NodeKind::Text);
    text.text = Some("x & y".into());
    rect.children = vec![text];
    assert_eq!(
        node_to_react(&rect),
        format!("      <div className=\"{cls}\" data-id=\"r\">\n      <div className=\"{cls}\" data-id=\"t\">x &amp; y</div>\n</div>\n")
    );
    assert_eq!(render_page_react(&page(vec![])), "      {/* page: p1 */}\n");
}

#[test]
fn swiftui_of_a_decorated_box() {
    assert_eq!(
        node_to_swiftui(&decorated(), 1),
        "    Color.clear.frame(width: 100).offset(x: 10, y: -20).background(swift_ui_color(\"#ff0000\")).overlay(RoundedRectangle(cornerRadius: 4).stroke(swift_ui_color(\"red;}\"), lineWidth: 2)).cornerRadius(4).opacity(0.5).rotationEffect(.degrees(7)).zIndex(-3).font(.custom(\"Inter\", size: 14))\n"
    );
}

#[test]
fn swiftui_of_groups_and_nesting() {
    let mut text = node("t", NodeKind::Text);
    text.x = num(0.0);
    text.y = num(0.0);
    text.text = Some("say \"hi\" \\".into());
    let mut group = node("g", NodeKind::Group);
    group.x = num(0.0);
    group.y = num(0.0);
    group.style.layout = flex();
    group.children = vec![text.clone()];
    assert_eq!(
        node_to_swiftui(&group, 0),
        "VStack(spacing: 8) {\n    Text(\"say \\\"hi\\\" \\\\\")\n}\n"
    );
    let mut circle = node("c", NodeKind::Circle);
    circle.x = num(0.0);
    circle.y = num(0.0);
    circle.children = vec![text];
    assert_eq!(
        node_to_swiftui(&circle, 0),
        "ZStack {\nCircle().frame(width: 100, height: 100)\n    Text(\"say \\\"hi\\\" \\\\\")\n}\n"
    );
    assert_eq!(render_page_swiftui(&page(vec![]), 1), "    VStack(spacing: 0) {\n    }\n");
}

#[test]
fn swift_colors() {
    assert_eq!(swift_ui_color("token:color.accent"), "DesignTokens.color_accent");
    assert_eq!(swift_ui_color("#0f8"), "Color(red: 0/255, green: 255/255, blue: 136/255)");
    assert_eq!(
        swift_ui_color("red\"); evil(); /*\n"),
        "Color(\"red\\\"); evil(); /*\\n\")"
    );
    assert_eq!(escape_swift_string("a\\\"\r\nb"), "a\\\\\\\"\\r\\nb");
}

#[test]
fn token_extensions_are_sorted_and_distinct() {
    let mut b = node("b", NodeKind::Rect);
    b.style.fill = Some("#ff0000".into());
    b.style.design_token_refs = vec![("fill".into(), "color.b".into())];
    let mut a = node("a", NodeKind::Rect);
    a.style.stroke = Some("#00ff00".into());
    a.style.design_token_refs = vec![
        ("stroke".into(), "color.a".into()),
        ("fill".into(), "color.none".into()),
        ("radius".into(), "radius.card".into()),
    ];
    b.children = vec![a, b.clone()];
    let doc = PenDocument {
        schema_version: 1,
        pages: vec![page(vec![b])],
        active_design_system: None,
    };
    let exts = collect_token_extensions(&doc);
    assert_eq!(
        render_token_extensions(&exts),
        "extension Color {\n    enum DesignTokens {\n        static let color_a = Color(red: 0/255, green: 255/255, blue: 0/255)\n        static let color_b = Color(red: 255/255, green: 0/255, blue: 0/255)\n    }\n}\n\n"
    );
}

#[test]
fn untrusted_text_is_made_harmless() {
    assert_eq!(
        escape_html("<a href=\"x\">'&'</a>"),
        "&lt;a href=&quot;x&quot;&gt;&#x27;&amp;&#x27;&lt;/a&gt;"
    );
    assert_eq!(sanitize_css_color("url(http://evil)"), "transparent");
    assert_eq!(sanitize_css_color("rgb(1, 2, 3)"), "rgb(1, 2, 3)");
}

#[test]
fn document_code_is_that_of_its_pages() {
    let mut n = node("a", NodeKind::Rect);
    n.style.fill = Some("#ff0000".into());
    n.style.design_token_refs = vec![("fill".into(), "color.accent".into())];
    let doc = PenDocument {
        schema_version: 1,
        pages: vec![page(vec![n]), page(vec![node("b", NodeKind::Text)])],
        active_design_system: None,
    };
    let html: String = doc.pages.iter().map(render_page_html).collect();
    assert_eq!(document_code(&doc, CodegenTarget::Html), html);
    let react: String = doc.pages.iter().map(render_page_react).collect();
    assert_eq!(document_code(&doc, CodegenTarget::ReactTailwind), react);
    let swift = document_code(&doc, CodegenTarget::SwiftUi);
    let extensions = render_token_extensions(&collect_token_extensions(&doc));
    assert!(extensions.contains("static let"));
    let pages: String = doc.pages.iter().map(|p| render_page_swiftui(p, 0)).collect();
    assert_eq!(swift, extensions + &pages);
}

#[test]
fn children_are_kept_in_order() {
    let mut outer = node("o", NodeKind::Image);
    outer.children = vec![node("a", NodeKind::Text), node("b", NodeKind::Rect)];
    let inside: String = outer.children.iter().map(|c| node_to_react_inner(c, 4)).collect();
    assert!(node_to_react_inner(&outer, 3).contains(&inside));
    assert_eq!(node_to_react_inner(&outer, 129), "{/* codegen depth limit reached */}\n");
    assert_eq!(
        node_to_react_inner(&outer, usize::MAX),
        "{/* codegen depth limit reached */}\n"
    );
}

#[test]
fn escaped_text_shows_as_it_was() {
    let text = "&amp; <b> \"x\" 'y' & z";
    let shown = escape_html(text)
        .replace("&lt;", "<")
        .replace("&gt;", ">")
        .replace("&quot;", "\"")
        .replace("&#x27;", "'")
        .replace("&amp;", "&");
    assert_eq!(shown, text);
}

#[test]
fn references_are_resolved_at_every_depth() {
    let mut inner = node("inner", NodeKind::Rect);
    inner.style.fill = Some("token:color.accent".into());
    inner.style.stroke = Some("token:no.such".into());
    let mut outer = node("outer", NodeKind::Group);
    outer.style.stroke = Some(" token:color.accent ".into());
    outer.style.fill = Some("red".into());
    outer.children = vec![inner];
    let doc = PenDocument {
        schema_version: 1,
        pages: vec![page(vec![]), page(vec![outer])],
        active_design_system: Some("apple-hig".into()),
    };
    let mut reg = DesignSystemRegistry::new();
    reg.register_builtin();
    reg.activate("apple-hig").unwrap();
    let out = resolve_tokens(&doc, &reg);
    let outer = &out.pages[1].nodes[0];
    assert_eq!(outer.style.stroke.as_deref(), Some("#007AFF"));
    assert_eq!(outer.style.fill.as_deref(), Some("red"));
    assert_eq!(outer.children[0].style.fill.as_deref(), Some("#007AFF"));
    assert_eq!(outer.children[0].style.stroke.as_deref(), Some("token:no.such"));
    let html = codegen(&doc, CodegenTarget::Html);
    assert_eq!(html, document_code(&out, CodegenTarget::Html));
    assert!(html.contains("#007AFF") && !html.contains("token:color.accent"));
    assert!(document_code(&doc, CodegenTarget::Html).contains("token:color.accent"));
    let unknown = PenDocument { active_design_system: None, ..doc };
    assert!(codegen(&unknown, CodegenTarget::Html).contains("token:color.accent"));
}
