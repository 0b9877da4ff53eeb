use fusion_design::ecosystem::templates::{
    builtin_scene_templates, needs_install, template_file_name, DesignTemplate, EcosystemLink,
    Installed,
};
use fusion_design::ecosystem::{
    check_subpath, code_changes, code_file_names, ipc_size_allowed, message_file_name,
    sanitize_ipc_subpath, stays_below, unfinished_file_name, EcosystemTarget, SubpathError, TrainerClient, MAX_IPC_FILE,
};

#[test]
fn ipc_dir_names() {
    assert_eq!(EcosystemTarget::FusionCode.ipc_dir(), "fusion-code");
    assert_eq!(EcosystemTarget::FusionKB.ipc_dir(), "fusion-kb");
    assert_eq!(
        EcosystemTarget::Custom("fusion-simulation".into()).ipc_dir(),
        "fusion-simulation"
    );
}

#[test]
fn send_rejects_path_traversal_custom_target() {
    let dir = EcosystemTarget::Custom("../evil".into()).ipc_dir();
    let err = sanitize_ipc_subpath("/base", &dir, &None).unwrap_err();
    assert!(err.message().contains(".."), "{err:?}");
    assert!(matches!(err, SubpathError::ParentDir(_)));
    assert_eq!(check_subpath("").unwrap_err().message(), "IPC 子路径为空");
    assert_eq!(
        sanitize_ipc_subpath("/base", "/etc", &None).unwrap_err().message(),
        "IPC 子路径不允许绝对路径: /etc"
    );
    assert!(check_subpath("a/b..c").is_ok());
}

#[test]
fn accepted_directory_lies_below_the_base() {
    assert_eq!(sanitize_ipc_subpath("/base", "a/b", &None).unwrap(), "/base/a/b");
    assert_eq!(sanitize_ipc_subpath("/base/", "./a", &None).unwrap(), "/base/./a");
    assert_eq!(sanitize_ipc_subpath("", "a", &None).unwrap(), "a");
    assert_eq!(sanitize_ipc_subpath(".", "a", &None).unwrap(), "./a");
    let inside = Some(("/real/base".to_string(), "/real/base/a".to_string()));
    assert_eq!(sanitize_ipc_subpath("/base", "a", &inside).unwrap(), "/base/a");
    let outside = Some(("/real/base".to_string(), "/real/base2".to_string()));
    assert_eq!(
        sanitize_ipc_subpath("/base", "a", &outside).unwrap_err().message(),
        "IPC 子路径逃出基目录: a"
    );
    assert!(matches!(
        sanitize_ipc_subpath("/base", "link", &Some(("/base".into(), "/etc".into()))),
        Err(SubpathError::Outside(s)) if s == "link"
    ));
}

#[test]
fn paths_are_compared_by_their_parts() {
    for (base, path) in [
        ("/a/b", "/a/b/c"), ("/a/b", "/a/b"), ("/a//b/", "/a/./b/c"), ("", "x"), ("a", "a/./"),
        ("/", "/x"), (".", "./x"),
    ] {
        assert!(stays_below(base, path, &None), "{base} {path}");
    }
    for (base, path) in
        [("/a/b", "/a/bc"), ("/a/b", "/a"), ("a", "/a"), ("/a", "a"), (".", "x"), ("b", "a/b")]
    {
        assert!(!stays_below(base, path, &None), "{base} {path}");
    }
}

#[test]
fn send_filename_contains_pid_and_seq() {
    let fname = message_file_name(1_700_000_000_000_000_000, 4711, 3);
    let stem = fname.strip_suffix(".json").unwrap();
    let parts: Vec<&str> = stem.rsplitn(3, '_').collect();
    assert_eq!(parts.len(), 3, "{fname}");
    assert!(parts[0].parse::<u64>().is_ok(), "{fname}");
    assert_eq!(parts[1], "4711", "{fname}");
    assert!(parts[2].parse::<u128>().is_ok(), "{fname}");
    assert_ne!(fname, unfinished_file_name(1_700_000_000_000_000_000, 4711, 3));
}

#[test]
fn send_concurrent_does_not_collide() {
    assert_ne!(message_file_name(5, 1, 0), message_file_name(5, 1, 1));
}

#[test]
fn large_messages_are_refused() {
    assert!(ipc_size_allowed(MAX_IPC_FILE));
    assert!(!ipc_size_allowed(MAX_IPC_FILE + 1));
}

#[test]
fn watch_code_changes_extracts_mutations() {
    let payload = r##"{"mutations": [
        {"node_id": "n1", "fill": "#ff0000", "w": 200.0},
        {"node_id": "n2", "stroke": "#000", "opacity": 0.5}
    ]}"##;
    let mut cmds = code_changes("style-change", payload);
    cmds.extend(code_changes("other-action", "{}"));
    assert_eq!(cmds.len(), 2);
    assert_eq!(cmds[0].node_id, "n1");
    assert_eq!(cmds[0].fill.as_deref(), Some("#ff0000"));
    assert_eq!(cmds[0].w.as_ref().map(|n| f64::from_bits(n.bits)), Some(200.0));
    assert_eq!(cmds[1].node_id, "n2");
    assert_eq!(cmds[1].stroke.as_deref(), Some("#000"));
    assert_eq!(cmds[1].opacity.as_ref().map(|n| f64::from_bits(n.bits)), Some(0.5));
    assert_eq!(cmds[1].opacity.as_ref().unwrap().text, "0.5");
}

#[test]
fn watch_code_changes_drops_invalid_mutations_keeps_valid() {
    let payload = r##"{"mutations": [
        {"node_id": "good1", "fill": "#abc"},
        "not-an-object",
        {"fill": "#fff"},
        42,
        {"node_id": "good2", "w": 100.0},
        null
    ]}"##;
    let cmds = code_changes("style-change", payload);
    let ids: Vec<&str> = cmds.iter().map(|c| c.node_id.as_str()).collect();
    assert_eq!(ids, vec!["good1", "good2"]);
}

#[test]
fn message_without_changes_has_none() {
    assert!(code_changes("style-change", "{}").is_empty());
    assert!(code_changes("style-change", "{\"mutations\": 3}").is_empty());
    assert!(code_changes("other-action", "{\"mutations\": [{\"node_id\": \"n\"}]}").is_empty());
}

fn template(id: &str, name: &str, tags: &[&str], category: &str, at: u64) -> DesignTemplate {
    DesignTemplate {
        id: id.into(),
        name: name.into(),
        tags: tags.iter().map(|t| t.to_string()).collect(),
        category: category.into(),
        document_json: "{}".into(),
        created_at: at,
    }
}

fn ids(found: &[DesignTemplate]) -> Vec<&str> {
    found.iter().map(|t| t.id.as_str()).collect()
}

fn names(tags: &[&str]) -> Vec<String> {
    tags.iter().map(|t| t.to_string()).collect()
}

#[test]
fn save_and_search_template() {
    let mut link = EcosystemLink::new("/base");
    assert!(link.needs_reading(Some(10)));
    link.keep(10, vec![template("login-v1", "登录页面", &["login", "auth"], "表单", 1000)]);
    assert_eq!(ids(&link.search_templates("登录")), vec!["login-v1"]);
    assert_eq!(link.search_templates("auth").len(), 1);
    assert_eq!(link.search_templates("表单").len(), 1);
    assert_eq!(link.search_templates("").len(), 1);
    assert!(link.search_templates("dashboard").is_empty());
    assert_eq!(link.base_dir(), "/base");
    assert_eq!(template_file_name("login-v1"), "login-v1.json");
}

#[test]
fn search_templates_empty_when_no_dir() {
    let mut link = EcosystemLink::new("/base");
    assert!(!link.needs_reading(None));
    assert!(link.search_templates("anything").is_empty());
}

#[test]
fn search_templates_by_tags_intersection() {
    let mut link = EcosystemLink::new("/base");
    link.keep(
        10,
        vec![
            template("t1", "Login", &["auth", "form"], "表单", 1000),
            template("t2", "Signup", &["auth", "register"], "表单", 2000),
        ],
    );
    assert_eq!(ids(&link.search_templates_by_tags(&names(&["auth"]))), vec!["t2", "t1"]);
    assert_eq!(ids(&link.search_templates_by_tags(&names(&["auth", "form"]))), vec!["t1"]);
    assert!(link.search_templates_by_tags(&names(&["nonexistent"])).is_empty());
    assert_eq!(link.search_templates_by_tags(&names(&[])).len(), 2);
}

#[test]
fn template_search_cache_repeated_query_consistent() {
    let mut link = EcosystemLink::new("/base");
    link.keep(10, vec![template("c1", "Cache", &["x"], "cat", 1000)]);
    assert!(!link.needs_reading(Some(10)));
    assert_eq!(ids(&link.search_templates("Cache")), vec!["c1"]);
    assert_eq!(ids(&link.search_templates("Cache")), vec!["c1"]);
    assert_eq!(link.search_templates_by_tags(&names(&["x"])).len(), 1);
    assert!(link.needs_reading(Some(11)));
    assert!(link.needs_reading(Some(0)));
}

#[test]
fn template_cache_invalidated_on_save_same_second() {
    let mut link = EcosystemLink::new("/base");
    link.keep(10, vec![template("s1", "First", &[], "c", 1000)]);
    assert_eq!(link.search_templates("").len(), 1);
    link.forget();
    assert!(link.needs_reading(Some(10)));
    link.keep(
        10,
        vec![template("s1", "First", &[], "c", 1000), template("s2", "Second", &[], "c", 2000)],
    );
    assert_eq!(ids(&link.search_templates("")), vec!["s2", "s1"]);
}

#[test]
fn template_cache_cleared_when_dir_absent() {
    let mut link = EcosystemLink::new("/base");
    link.keep(10, vec![template("d1", "D", &[], "c", 1000)]);
    assert_eq!(link.search_templates("").len(), 1);
    assert!(!link.needs_reading(None));
    assert_eq!(link.search_templates("").len(), 0);
}

#[test]
fn builtin_templates_has_four() {
    assert_eq!(builtin_scene_templates(0).len(), 4);
}

#[test]
fn builtin_templates_categories() {
    let templates = builtin_scene_templates(7);
    let categories: Vec<&str> = templates.iter().map(|t| t.category.as_str()).collect();
    assert!(categories.contains(&"mobile"));
    assert!(categories.contains(&"admin"));
    assert!(categories.contains(&"website"));
    assert!(categories.contains(&"mini-program"));
    assert!(templates.iter().all(|t| t.created_at == 7));
}

#[test]
fn builtin_templates_valid_json() {
    for tmpl in builtin_scene_templates(0) {
        let v: serde_json::Value = serde_json::from_str(&tmpl.document_json).unwrap();
        assert!(v.get("pages").is_some(), "{}", tmpl.id);
        assert_eq!(v.to_string(), tmpl.document_json);
    }
}

#[test]
fn install_builtin_templates_idempotent() {
    let templates = builtin_scene_templates(0);
    let first = templates.iter().filter(|t| needs_install(&Installed::Missing, &t.id)).count();
    assert_eq!(first, 4);
    let again =
        templates.iter().filter(|t| needs_install(&Installed::Template(t.id.clone()), &t.id));
    assert_eq!(again.count(), 0);
}

#[test]
fn install_builtin_templates_reinstalls_corrupt_file() {
    assert!(needs_install(&Installed::Broken, "builtin-mobile-app"));
    assert!(needs_install(&Installed::Template("other".into()), "builtin-mobile-app"));
}

#[test]
fn search_builtin_by_category() {
    let mut link = EcosystemLink::new("/base");
    link.keep(10, builtin_scene_templates(0));
    assert!(!link.search_templates("mobile").is_empty());
}

#[test]
fn trainer_resolve_bin_honors_env() {
    let bin = TrainerClient::resolve_bin(&Some("/tmp/ft-test-bin".to_string()));
    assert_eq!(bin, "/tmp/ft-test-bin");
    assert_eq!(TrainerClient::resolve_bin(&None), "fusion-trainer");
    assert_eq!(TrainerClient::new(&None).bin, "fusion-trainer");
}

#[test]
fn trainer_with_bin_stores_path() {
    let client = TrainerClient::with_bin("/nonexistent/fusion-trainer");
    assert!(client.missing_message().contains("fusion-trainer CLI 未找到"));
    assert_eq!(
        client.run_sft("/tmp/ds.jsonl", "qwen2.5-7b-4bit", &None),
        vec!["sft", "--dataset", "/tmp/ds.jsonl", "--model", "qwen2.5-7b-4bit"]
    );
}

#[test]
fn trainer_rlsl_missing_bin_bails() {
    let client = TrainerClient::with_bin("/nonexistent/fusion-trainer");
    assert!(client.missing_message().contains("fusion-trainer CLI 未找到"));
    let args = client.run_rlsl("grpo", "/tmp/ds.jsonl", "m", &Some("c.toml".to_string()));
    assert_eq!(
        args,
        vec![
            "rlsl", "--method", "grpo", "--dataset", "/tmp/ds.jsonl", "--model", "m", "--config",
            "c.toml"
        ]
    );
}

#[test]
fn unknown_training_method_is_refused() {
    let client = TrainerClient::with_bin("x");
    assert_eq!(
        client.args_for_method("dpo", "d", "m", &None),
        Err("不支持的 --method: dpo (仅 sft|grpo)".to_string())
    );
    assert_eq!(client.args_for_method("sft", "d", "m", &None).unwrap()[0], "sft");
}

#[test]
fn code_files_are_named_after_the_component() {
    assert_eq!(code_file_names("Home"), ("Home.html".to_string(), "Home.tsx".to_string()));
}
