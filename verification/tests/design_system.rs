use fusion_design::design_system::{
    builtin_apple_hig, overlay_tokens, DesignSystem, DesignSystemRegistry, ImportError,
    ResolveError, Theme, Token, TokenValue, MAX_IMPORT_TOKENS, MAX_TOKEN_STR_LEN,
};
use fusion_design::num::Num;
use fusion_design::sharing::SharedValue;

fn num(x: f64) -> Num {
    Num { bits: x.to_bits(), text: x.to_string() }
}

fn token(name: &str, value: TokenValue, description: &str) -> Token {
    Token { name: name.into(), value, description: description.into(), reading: None }
}

fn color(name: &str, value: &str) -> Token {
    token(name, TokenValue::Color(value.into()), "")
}

fn number(name: &str, value: f64) -> Token {
    token(name, TokenValue::Number(num(value)), "")
}

fn reference(name: &str, target: &str) -> Token {
    token(name, TokenValue::String(format!("token:{target}")), "")
}

fn make_system(id: &str, extends: Option<&str>, tokens: Vec<Token>) -> DesignSystem {
    DesignSystem {
        id: id.into(),
        name: id.into(),
        tokens,
        dark_tokens: None,
        extends: extends.map(|s| s.to_string()),
    }
}

#[test]
fn registry_register_and_activate() {
    let mut reg = DesignSystemRegistry::new();
    reg.register(builtin_apple_hig()).unwrap();
    reg.activate("apple-hig").unwrap();
    assert!(reg.active().is_some());
    assert_eq!(reg.active().unwrap().name, "Apple HIG");
}

#[test]
fn registry_duplicate_rejected() {
    let mut reg = DesignSystemRegistry::new();
    reg.register(builtin_apple_hig()).unwrap();
    assert!(reg.register(builtin_apple_hig()).is_err());
}

#[test]
fn registry_activate_unknown_rejected() {
    let mut reg = DesignSystemRegistry::new();
    assert!(reg.activate("nope").is_err());
}

#[test]
fn register_builtin_loads_three() {
    let mut reg = DesignSystemRegistry::new();
    reg.register_builtin();
    assert_eq!(reg.list().len(), 3);
    reg.activate("apple-hig").unwrap();
    assert!(reg.lookup("color.bg").is_some());
}

#[test]
fn list_design_systems_prints_builtin_presets() {
    let mut reg = DesignSystemRegistry::new();
    reg.register_builtin();
    let ids = reg.list();
    assert!(ids.contains(&"apple-hig".to_string()));
    assert!(ids.contains(&"minimal-dashboard".to_string()));
    assert!(ids.contains(&"robot-sim".to_string()));
}

#[test]
fn robot_sim_preset_registered_and_lookup() {
    let mut reg = DesignSystemRegistry::new();
    reg.register_builtin();
    reg.activate("robot-sim").unwrap();
    match reg.lookup("color.bg").unwrap() {
        TokenValue::Color(c) => assert_eq!(c, "#0F1115"),
        _ => panic!("期望 Color"),
    }
    match reg.lookup("color.danger").unwrap() {
        TokenValue::Color(c) => assert_eq!(c, "#F85149"),
        _ => panic!("期望 Color"),
    }
    match reg.lookup("font.mono").unwrap() {
        TokenValue::String(s) => assert!(s.contains("SF Mono")),
        _ => panic!("期望 String"),
    }
}

#[test]
fn lookup_returns_token_value() {
    let mut reg = DesignSystemRegistry::new();
    reg.register_builtin();
    reg.activate("apple-hig").unwrap();
    match reg.lookup("color.accent").unwrap() {
        TokenValue::Color(c) => assert_eq!(c, "#007AFF"),
        _ => panic!("期望 Color"),
    }
}

#[test]
fn lookup_missing_returns_none() {
    let mut reg = DesignSystemRegistry::new();
    reg.register_builtin();
    reg.activate("apple-hig").unwrap();
    assert!(reg.lookup("no.such.token").is_none());
}

#[test]
fn lookup_without_active_returns_none() {
    let reg = DesignSystemRegistry::new();
    assert!(reg.lookup("color.bg").is_none());
}

#[test]
fn export_import_roundtrip() {
    let mut reg = DesignSystemRegistry::new();
    reg.register_builtin();
    reg.activate("minimal-dashboard").unwrap();
    let shared = reg.export_shared().unwrap();
    let mut reg2 = DesignSystemRegistry::new();
    reg2.import_shared(&shared).unwrap();
    assert_eq!(reg2.list().len(), 1);
}

#[test]
fn shared_tokens_keep_their_kinds() {
    let tokens = vec![color("c", "#fff"), number("n", 12.0), reference("r", "c")];
    let mut reg = DesignSystemRegistry::new();
    reg.register(make_system("mine", Some("apple-hig"), tokens)).unwrap();
    assert!(reg.export_shared().is_none());
    reg.activate("mine").unwrap();
    let mut other = DesignSystemRegistry::new();
    other.register_builtin();
    other.import_shared(&reg.export_shared().unwrap()).unwrap();
    let back = other.get("mine").unwrap();
    assert_eq!(back.extends.as_deref(), Some("apple-hig"));
    assert!(matches!(&back.tokens[0].value, TokenValue::Color(c) if c == "#fff"));
    assert!(matches!(&back.tokens[1].value, TokenValue::Number(n) if n.text == "12"));
    assert_eq!(back.tokens[2].value.reference_target().as_deref(), Some("c"));
    assert!(back.to_css_custom_properties().contains("--r: #fff;"));
    assert!(other.get("apple-hig").is_some());
}

#[test]
fn shared_shadow_looks_the_same() {
    for v in [
        TokenValue::Shadow("0 2px 4px rgba(0,0,0,0.1)".into()),
        TokenValue::String("SF Pro".into()),
    ] {
        let back = TokenValue::from_shared(&v.shared());
        assert!(matches!(back, TokenValue::Color(_)));
        assert_eq!(back.to_css_value(), v.to_css_value());
    }
    assert!(matches!(TokenValue::String("token:x".into()).shared(), SharedValue::Text(s) if s == "token:x"));
}

#[test]
fn token_value_color_to_css() {
    let v = TokenValue::Color("#007AFF".into());
    assert_eq!(v.to_css_value(), "#007AFF");
}

#[test]
fn token_value_number_to_css() {
    let v = TokenValue::Number(num(17.0));
    assert_eq!(v.to_css_value(), "17px");
}

#[test]
fn token_value_shadow_to_css() {
    let v = TokenValue::Shadow("0 2px 4px rgba(0,0,0,0.1)".into());
    assert_eq!(v.to_css_value(), "0 2px 4px rgba(0,0,0,0.1)");
}

#[test]
fn token_value_string_to_css() {
    let v = TokenValue::String("SF Pro, sans-serif".into());
    assert_eq!(v.to_css_value(), "SF Pro, sans-serif");
}

#[test]
fn token_value_reference_to_css_var() {
    let v = TokenValue::String("token:color.accent".into());
    assert_eq!(v.to_css_value(), "var(--color.accent)");
}

#[test]
fn token_value_is_reference() {
    assert!(TokenValue::String("token:color.accent".into()).is_reference());
    assert!(!TokenValue::String("SF Pro".into()).is_reference());
    assert!(!TokenValue::Color("#FFF".into()).is_reference());
}

#[test]
fn token_value_reference_target() {
    let v = TokenValue::String("token:color.accent".into());
    assert_eq!(v.reference_target().as_deref(), Some("color.accent"));
    let v2 = TokenValue::String("no-ref".into());
    assert_eq!(v2.reference_target(), None);
}

#[test]
fn design_system_css_custom_properties() {
    let css = builtin_apple_hig().to_css_custom_properties();
    assert!(css.starts_with(":root {"));
    assert!(css.contains("--color-bg: #F2F2F7;"));
    assert!(css.contains("--color-fg: #1C1C1E;"));
    assert!(css.contains("--color-accent: #007AFF;"));
    assert!(css.contains("--font-size-body: 17px;"));
    assert!(css.contains("--radius-card: 10px;"));
    assert!(css.ends_with("}"));
}

#[test]
fn design_system_css_with_references() {
    let ds = make_system(
        "ref-test",
        None,
        vec![color("color.primary", "#007AFF"), reference("color.button", "color.primary")],
    );
    assert!(ds.to_css_custom_properties().contains("--color-button: #007AFF;"));
}

#[test]
fn design_system_circular_reference_safe() {
    let ds = make_system("circular", None, vec![reference("a", "b"), reference("b", "a")]);
    let css = ds.to_css_custom_properties();
    assert!(css.contains("--a:") || css.contains("--b:"));
}

#[test]
fn resolve_direct_value() {
    let ds = builtin_apple_hig();
    let mut visited = vec![];
    let val = ds.resolve_reference(&TokenValue::Color("#FFF".into()), &mut visited);
    assert_eq!(val, "#FFF");
}

#[test]
fn resolve_single_reference() {
    let ds = builtin_apple_hig();
    let mut visited = vec![];
    let val =
        ds.resolve_reference(&TokenValue::String("token:color.accent".into()), &mut visited);
    assert_eq!(val, "#007AFF");
    assert_eq!(visited, vec!["color.accent"]);
}

#[test]
fn resolve_chained_reference() {
    let ds = make_system(
        "chain",
        None,
        vec![
            color("color.base", "#007AFF"),
            reference("color.mid", "color.base"),
            reference("color.top", "color.mid"),
        ],
    );
    let mut visited = vec![];
    let val = ds.resolve_reference(&TokenValue::String("token:color.top".into()), &mut visited);
    assert_eq!(val, "#007AFF");
}

#[test]
fn resolve_missing_reference_falls_back() {
    let ds = builtin_apple_hig();
    let mut visited = vec![];
    let val = ds.resolve_reference(&TokenValue::String("token:nonexistent".into()), &mut visited);
    assert_eq!(val, "var(--nonexistent)");
}

#[test]
fn import_json_rejects_too_many_tokens() {
    let mut reg = DesignSystemRegistry::new();
    let tokens = (0..MAX_IMPORT_TOKENS + 1).map(|i| number(&format!("t{i}"), 1.0)).collect();
    match reg.import_shared(&make_system("huge", None, tokens).shared()) {
        Err(ImportError::TooManyTokens(n)) => assert_eq!(n, MAX_IMPORT_TOKENS + 1),
        other => panic!("期望 TooManyTokens，得 {other:?}"),
    }
    assert!(reg.list().is_empty());
}

#[test]
fn import_json_rejects_value_too_long() {
    let mut reg = DesignSystemRegistry::new();
    let tokens = vec![color("x", &"0".repeat(MAX_TOKEN_STR_LEN + 1))];
    match reg.import_shared(&make_system("longstr", None, tokens).shared()) {
        Err(ImportError::ValueTooLong(n)) => assert_eq!(n, MAX_TOKEN_STR_LEN + 1),
        other => panic!("期望 ValueTooLong，得 {other:?}"),
    }
}

#[test]
fn resolve_deep_non_cyclic_chain_hits_depth_cap() {
    let mut tokens = vec![];
    for i in 1..=100u32 {
        if i == 100 {
            tokens.push(color("a100", "#000000"));
        } else {
            tokens.push(reference(&format!("a{i}"), &format!("a{}", i + 1)));
        }
    }
    let ds = make_system("deep", None, tokens);
    let mut visited = vec![];
    let val = ds.resolve_reference(&TokenValue::String("token:a1".into()), &mut visited);
    assert!(val.starts_with("var(--a"), "深度封顶应回退 var(--aN)，得 {val}");
}

#[test]
fn register_builtin_idempotent_no_overwrite() {
    let mut reg = DesignSystemRegistry::new();
    reg.register_builtin();
    assert_eq!(reg.list().len(), 3);
    reg.register_builtin();
    assert_eq!(reg.list().len(), 3);
}

#[test]
fn register_builtin_preserves_user_customized_system() {
    let mut reg = DesignSystemRegistry::new();
    let mut custom = builtin_apple_hig();
    custom.name = "我的自定义 HIG".into();
    reg.register(custom).unwrap();
    reg.register_builtin();
    assert_eq!(reg.list().len(), 3);
    reg.activate("apple-hig").unwrap();
    assert_eq!(reg.active().unwrap().name, "我的自定义 HIG");
}

#[test]
fn dark_theme_css_merges_light_base_with_dark_overlay() {
    let system = DesignSystem {
        id: "test-dark-merge".into(),
        name: "Test Dark Merge".into(),
        tokens: vec![color("color.bg", "#FFFFFF"), number("font.size.body", 16.0)],
        extends: None,
        dark_tokens: Some(vec![color("color.bg", "#000000")]),
    };
    let css = system.to_css_custom_properties_for_theme(Theme::Dark);
    assert!(css.contains("--color-bg: #000000;"));
    assert!(css.contains("--font-size-body: 16px;"));
    assert!(system
        .to_css_custom_properties_for_theme(Theme::Light)
        .contains("--color-bg: #FFFFFF;"));
}

#[test]
fn resolve_no_extends_returns_self() {
    let mut reg = DesignSystemRegistry::new();
    reg.register(make_system("base", None, vec![color("color.bg", "#FFF")])).unwrap();
    let resolved = reg.resolve("base").unwrap();
    assert_eq!(resolved.extends, None);
    assert_eq!(resolved.tokens.len(), 1);
    assert_eq!(resolved.tokens[0].name, "color.bg");
}

#[test]
fn resolve_extends_overlays_child_tokens() {
    let mut reg = DesignSystemRegistry::new();
    reg.register(builtin_apple_hig()).unwrap();
    reg.register(make_system("custom", Some("apple-hig"), vec![color("color.bg", "#FF0000")]))
        .unwrap();
    let resolved = reg.resolve("custom").unwrap();
    assert_eq!(resolved.tokens.len(), 5);
    let bg = resolved.tokens.iter().find(|t| t.name == "color.bg").expect("color.bg 应存在");
    assert!(matches!(&bg.value, TokenValue::Color(c) if c == "#FF0000"));
    assert!(resolved.tokens.iter().any(|t| t.name == "color.fg"));
    assert_eq!(resolved.extends, None);
}

#[test]
fn resolve_extends_chain_multi_level() {
    let mut reg = DesignSystemRegistry::new();
    reg.register(make_system("grand", None, vec![number("a", 1.0), number("b", 2.0)])).unwrap();
    reg.register(make_system("mid", Some("grand"), vec![number("b", 20.0)])).unwrap();
    reg.register(make_system("leaf", Some("mid"), vec![number("c", 3.0)])).unwrap();
    let resolved = reg.resolve("leaf").unwrap();
    assert_eq!(resolved.tokens.len(), 3);
    let b = resolved.tokens.iter().find(|t| t.name == "b").expect("b 应存在");
    assert!(matches!(&b.value, TokenValue::Number(n) if n.text == "20"));
    let a = resolved.tokens.iter().find(|t| t.name == "a").expect("a 应存在");
    assert!(matches!(&a.value, TokenValue::Number(n) if n.text == "1"));
}

#[test]
fn resolve_circular_chain_errors() {
    let mut reg = DesignSystemRegistry::new();
    reg.register(make_system("x", Some("y"), vec![number("a", 1.0)])).unwrap();
    reg.register(make_system("y", Some("x"), vec![number("b", 2.0)])).unwrap();
    match reg.resolve("x") {
        Err(ResolveError::Circular { id, .. }) => assert_eq!(id, "x"),
        other => panic!("期望 Circular，得 {other:?}"),
    }
}

#[test]
fn circle_is_reported_with_its_chain() {
    let mut reg = DesignSystemRegistry::new();
    reg.register(make_system("x", Some("y"), vec![])).unwrap();
    reg.register(make_system("y", Some("z"), vec![])).unwrap();
    reg.register(make_system("z", Some("y"), vec![])).unwrap();
    match reg.resolve("x") {
        Err(ResolveError::Circular { id, chain }) => {
            assert_eq!(id, "y");
            assert_eq!(chain, vec!["x", "y", "z"]);
        }
        other => panic!("{other:?}"),
    }
}

#[test]
fn resolve_missing_parent_errors() {
    let mut reg = DesignSystemRegistry::new();
    reg.register(make_system("orphan", Some("ghost"), vec![number("a", 1.0)])).unwrap();
    match reg.resolve("orphan") {
        Err(ResolveError::NotFound(name)) => assert_eq!(name, "ghost"),
        other => panic!("期望 NotFound ghost，得 {other:?}"),
    }
}

#[test]
fn resolve_extends_inherits_parent_dark_tokens() {
    let mut reg = DesignSystemRegistry::new();
    let mut parent = builtin_apple_hig();
    parent.id = "parent-dark".into();
    reg.register(parent).unwrap();
    reg.register(make_system(
        "child-no-dark",
        Some("parent-dark"),
        vec![color("color.bg", "#FFFFFF")],
    ))
    .unwrap();
    let resolved = reg.resolve("child-no-dark").unwrap();
    assert!(resolved.dark_tokens.is_some());
    assert!(resolved.dark_tokens.unwrap().iter().any(|t| t.name == "color.bg"));
}

#[test]
fn resolve_to_css_for_theme_with_inherited_tokens() {
    let mut reg = DesignSystemRegistry::new();
    reg.register(builtin_apple_hig()).unwrap();
    reg.register(make_system("branded", Some("apple-hig"), vec![color("color.bg", "#FF0000")]))
        .unwrap();
    let css = reg.resolve("branded").unwrap().to_css_custom_properties();
    assert!(css.contains("--color-bg: #FF0000;"), "{css}");
    assert!(css.contains("--color-accent: #007AFF;"), "{css}");
}

#[test]
fn overlay_wins_and_keeps_the_rest() {
    let base = vec![number("a", 1.0), number("b", 2.0)];
    let over = vec![number("b", 20.0), number("c", 3.0)];
    let all = overlay_tokens(&base, &over);
    let names: Vec<&str> = all.iter().map(|t| t.name.as_str()).collect();
    assert_eq!(names, vec!["a", "b", "c"]);
    assert!(matches!(&all[1].value, TokenValue::Number(n) if n.text == "20"));
}

#[test]
fn theme_can_be_switched() {
    let mut reg = DesignSystemRegistry::new();
    assert_eq!(reg.current_theme(), Theme::Light);
    reg.activate_theme(Theme::Dark);
    assert_eq!(reg.current_theme(), Theme::Dark);
}
