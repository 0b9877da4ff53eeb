use fusion_design::host::{
    check_endpoint_host, is_external_url, HostBridgeConfig, HostConfigError,
};

fn config(dir: &str, endpoint: &str) -> HostBridgeConfig {
    HostBridgeConfig {
        frontend_dir: dir.into(),
        backend_endpoint: endpoint.into(),
        block_external: true,
    }
}

#[test]
fn is_external_url_flags_public() {
    assert!(is_external_url("https://api.openai.com"));
    assert!(is_external_url("http://10.0.0.1:80"));
}

#[test]
fn is_external_url_allows_localhost() {
    assert!(!is_external_url("http://127.0.0.1:8080"));
    assert!(!is_external_url("http://localhost:9000"));
}

#[test]
fn is_external_url_allows_file_and_invalid() {
    assert!(!is_external_url("file:///path/index.html"));
    assert!(!is_external_url("not-a-url"));
}

#[test]
fn config_validate_rejects_missing_frontend() {
    let cfg = config("/nonexistent/path", "http://127.0.0.1:8080");
    let e = cfg.validate(false, false).unwrap_err();
    assert!(matches!(e, HostConfigError::FrontendMissing(_)));
    assert_eq!(e.message(), "前端目录不存在: /nonexistent/path");
}

#[test]
fn config_validate_rejects_missing_index() {
    let cfg = config("/srv/web", "http://127.0.0.1:8080");
    let e = cfg.validate(true, false).unwrap_err();
    assert_eq!(e.message(), "前端目录缺少 index.html: /srv/web");
}

#[test]
fn config_validate_rejects_public_endpoint() {
    let cfg = config("/srv/web", "http://1.2.3.4:80");
    let e = cfg.validate(true, true).unwrap_err();
    assert_eq!(e.message(), "违反离线约束：endpoint host 1.2.3.4 非 localhost");
}

#[test]
fn config_validate_rejects_what_is_no_url() {
    let e = config("/srv/web", "nonsense").validate(true, true).unwrap_err();
    assert!(matches!(e, HostConfigError::InvalidEndpoint(_)));
    assert!(e.message().starts_with("无效 endpoint: "));
}

#[test]
fn config_validate_passes_valid() {
    config("/srv/web", "http://127.0.0.1:8080").validate(true, true).unwrap();
}

#[test]
fn endpoint_hosts_of_this_machine() {
    assert!(check_endpoint_host(Ok(Some("localhost".into()))).is_ok());
    assert!(check_endpoint_host(Ok(Some("example.com".into()))).is_err());
}

#[test]
fn index_url_uses_file_protocol() {
    let url = config("/srv/web", "http://127.0.0.1:8080").index_url();
    assert!(url.starts_with("file://"));
    assert!(url.ends_with("index.html"));
    assert_eq!(url, "file:///srv/web/index.html");
}
