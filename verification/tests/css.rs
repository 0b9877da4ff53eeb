use fusion_design::css::{parse_hex_color, sanitize_css_value};

#[test]
fn parse_hex_color_ascii_gate_rejects_cjk() {
    assert_eq!(parse_hex_color("蓝"), None);
    assert_eq!(parse_hex_color("#中"), None);
    assert_eq!(parse_hex_color("#中文ab"), None);
    assert_eq!(parse_hex_color("😀"), None);
    assert_eq!(parse_hex_color("#a蓝b"), None);
}

#[test]
fn parse_hex_color_valid_forms() {
    assert_eq!(parse_hex_color("#fff"), Some([255, 255, 255]));
    assert_eq!(parse_hex_color("fff"), Some([255, 255, 255]));
    assert_eq!(parse_hex_color("#abcd"), Some([170, 187, 204]));
    assert_eq!(parse_hex_color("#aabbcc"), Some([170, 187, 204]));
    assert_eq!(parse_hex_color("#aabbccff"), Some([170, 187, 204]));
    assert_eq!(parse_hex_color("  #FF8800  "), Some([255, 136, 0]));
}

#[test]
fn parse_hex_color_rejects_invalid_length() {
    assert_eq!(parse_hex_color("#12345"), None);
    assert_eq!(parse_hex_color("#1234567"), None);
    assert_eq!(parse_hex_color(""), None);
}

#[test]
fn parse_hex_color_rejects_non_hex_chars() {
    assert_eq!(parse_hex_color("#gg0000"), None);
    assert_eq!(parse_hex_color("#12gh34"), None);
}

#[test]
fn sanitize_css_value_rejects_url() {
    assert_eq!(sanitize_css_value("red;url(http://evil)", "transparent"), "transparent");
    assert_eq!(sanitize_css_value("url(http://x)", "transparent"), "transparent");
    assert_eq!(
        sanitize_css_value("background:expression(alert(1))", "transparent"),
        "transparent"
    );
    assert_eq!(sanitize_css_value("@import 'evil.css'", "transparent"), "transparent");
    assert_eq!(sanitize_css_value("javascript:alert(1)", "transparent"), "transparent");
    assert_eq!(sanitize_css_value("URL(HTTP://X)", "transparent"), "transparent");
}

#[test]
fn sanitize_css_value_strips_quote() {
    assert_eq!(sanitize_css_value(r#"a"b"#, "transparent"), "ab");
    assert_eq!(sanitize_css_value(r#"red"{"#, "transparent"), "red");
}

#[test]
fn sanitize_css_value_preserves_safe() {
    assert_eq!(sanitize_css_value("#FF0000", "transparent"), "#FF0000");
    assert_eq!(sanitize_css_value("rgb(255,0,0)", "transparent"), "rgb(255,0,0)");
    assert_eq!(sanitize_css_value("Helvetica, sans-serif", ""), "Helvetica, sans-serif");
    assert_eq!(sanitize_css_value("red", "transparent"), "red");
}

#[test]
fn sanitize_css_value_strips_meta_chars() {
    assert_eq!(sanitize_css_value("red;}", "transparent"), "red");
    assert_eq!(sanitize_css_value("a{b}c", "transparent"), "abc");
    assert_eq!(sanitize_css_value("a<b>c", "transparent"), "abc");
}

#[test]
fn sanitize_css_value_font_fallback_empty() {
    assert_eq!(sanitize_css_value("url(x)", ""), "");
}

#[test]
fn sanitized_value_holds_no_meta_character() {
    let value = sanitize_css_value("a;b{c}d<e>f\"g", "x");
    assert_eq!(value, "abcdefg");
    assert_eq!(sanitize_css_value(&value, "x"), value);
}

#[test]
fn joined_pieces_are_refused_too() {
    assert_eq!(sanitize_css_value("u;rl(x)", "transparent"), "transparent");
    assert_eq!(sanitize_css_value("@im{port 'x'", ""), "");
    assert_eq!(sanitize_css_value("java<script:x", "none"), "none");
    assert_eq!(sanitize_css_value("EXPRES\"SION(1)", "none"), "none");
    let once = sanitize_css_value("re;d", "transparent");
    assert_eq!(once, "red");
    assert_eq!(sanitize_css_value(&once, "transparent"), once);
}
