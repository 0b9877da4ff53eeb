use fusion_design::canvas::{CanvasError, PenDocument};
use fusion_design::cli::{
    advise_on_canvas, advise_on_export, advise_on_message, build_registry, decode_stdin_bytes,
    file_size_allowed, log_dir_override, pick_multi_variant_styles, probe_model, rotate_backup,
    should_disable_file, take_chunk, BackupMove, STDIN_READ_CAP,
};
use fusion_design::export::{ExportError, ExportFormat};
use fusion_design::frames::{
    frame_for, ndjson_frame_delta, ndjson_frame_done, ndjson_frame_error, sse_frame_delta,
    sse_frame_done, sse_frame_error, StreamFormat,
};
use fusion_design::mlx::stream::MlxStreamDelta;

fn some(s: &str) -> Option<String> {
    Some(s.to_string())
}

fn read(s: &str) -> serde_json::Value {
    serde_json::from_str(s).unwrap()
}

#[test]
fn decode_stdin_bytes_multibyte_split() {
    let mut bytes = vec![0xE4, 0xB8, 0xAD];
    bytes.push(0xE4);
    let mut full = bytes.clone();
    full.push(0xB8);
    full.push(0xAD);
    let got = decode_stdin_bytes(full).unwrap();
    assert_eq!(got, "中中");
    let e = decode_stdin_bytes(bytes).unwrap_err();
    assert!(e.reason.contains("utf-8"), "{}", e.reason);
    assert_eq!(e.message(), format!("stdin 输入非 UTF-8: {}", e.reason));
    let e = decode_stdin_bytes(vec![b'a', b'b', 0xff]).unwrap_err();
    assert_eq!(e.reason, "invalid utf-8 sequence of 1 bytes from index 2");
}

#[test]
fn chunks_are_taken_up_to_the_limit() {
    let mut buf = vec![1, 2];
    let mut chunk = vec![3];
    assert!(take_chunk(&mut buf, &mut chunk));
    assert_eq!(buf, vec![1, 2, 3]);
    assert!(chunk.is_empty());
    let mut large = vec![0; STDIN_READ_CAP];
    assert!(!take_chunk(&mut buf, &mut large));
    assert!(file_size_allowed(STDIN_READ_CAP as u64));
    assert!(!file_size_allowed(STDIN_READ_CAP as u64 + 1));
}

#[test]
fn sse_frame_delta_shape() {
    let f = sse_frame_delta("hello");
    assert!(f.starts_with("data: "));
    assert!(f.contains("choices"));
    assert!(f.contains("hello"));
    assert_eq!(f.lines().count(), 2);
    assert_eq!(
        f,
        "data: {\"choices\":[{\"delta\":{\"content\":\"hello\"},\"index\":0}]}\n\n"
    );
}

#[test]
fn sse_frame_done_shape() {
    let f = sse_frame_done();
    assert!(f.contains("finish_reason"));
    assert!(f.contains("stop"));
    assert!(f.contains("[DONE]"));
    assert_eq!(f.lines().count(), 4);
}

#[test]
fn sse_frame_error_shape() {
    let f = sse_frame_error("boom");
    assert!(f.starts_with("data: "));
    assert!(f.contains("error"));
    assert!(f.contains("boom"));
    assert_eq!(f.lines().count(), 2);
}

#[test]
fn ndjson_delta_frame_contract() {
    let frame = read(&ndjson_frame_delta("你"));
    assert_eq!(frame["type"], "delta");
    assert_eq!(frame["token"], "你");
}

#[test]
fn ndjson_done_frame_is_chat_done_not_done() {
    let frame = read(&ndjson_frame_done());
    assert_eq!(frame["type"], "chat_done");
    assert_eq!(frame["finish_reason"], "stop");
}

#[test]
fn ndjson_error_frame_contract() {
    let frame = read(&ndjson_frame_error("连接失败"));
    assert_eq!(frame["type"], "error");
    assert_eq!(frame["message"], "连接失败");
}

#[test]
fn frames_stay_on_one_line() {
    let token = "a\nb\r\"\\\u{1}\u{8}\u{c}\t\u{1f}\u{7f}/é";
    let frame = ndjson_frame_delta(token);
    assert!(!frame.contains('\n') && !frame.contains('\r'));
    assert_eq!(read(&frame)["token"], token);
    assert_eq!(
        frame,
        "{\"token\":\"a\\nb\\r\\\"\\\\\\u0001\\b\\f\\t\\u001f\u{7f}/é\",\"type\":\"delta\"}"
    );
    let sse = sse_frame_delta(token);
    assert_eq!(sse.lines().count(), 2);
}

#[test]
fn frames_follow_the_stream() {
    let piece = Ok(MlxStreamDelta { token: "x".to_string(), finished: false });
    let frame = frame_for(StreamFormat::Ndjson, &piece);
    assert_eq!(frame.output, "{\"token\":\"x\",\"type\":\"delta\"}\n");
    assert!(!frame.over);
    assert_eq!(frame_for(StreamFormat::Sse, &piece).output, sse_frame_delta("x"));
    let nothing = Ok(MlxStreamDelta { token: String::new(), finished: false });
    assert_eq!(frame_for(StreamFormat::Sse, &nothing).output, "");
    let end = Ok(MlxStreamDelta { token: String::new(), finished: true });
    let frame = frame_for(StreamFormat::Sse, &end);
    assert_eq!(frame.output, sse_frame_done());
    assert!(frame.over);
    let failed = Err("boom".to_string());
    let frame = frame_for(StreamFormat::Ndjson, &failed);
    assert_eq!(frame.output, "{\"message\":\"boom\",\"type\":\"error\"}\n");
    assert!(frame.over);
}

#[test]
fn pick_multi_variant_styles_preserves_full_user_input() {
    let picked =
        pick_multi_variant_styles(Some(vec!["neon".into(), "glass".into(), "flat".into()]));
    assert_eq!(picked, ["neon", "glass", "flat"]);
    let four = vec!["a".into(), "b".into(), "c".into(), "d".into()];
    assert_eq!(pick_multi_variant_styles(Some(four)), ["a", "b", "c"]);
}

#[test]
fn pick_multi_variant_styles_fills_under3_with_defaults() {
    let picked = pick_multi_variant_styles(Some(vec!["neon".into()]));
    assert_eq!(picked[0], "neon");
    assert_eq!(picked.len(), 3);
    let defaults = ["极简风", "卡片风", "深色风"];
    assert!(picked[1..].iter().all(|s| defaults.contains(&s.as_str())), "{picked:?}");
}

#[test]
fn usual_styles_are_not_repeated() {
    let picked = pick_multi_variant_styles(Some(vec!["卡片风".into()]));
    assert_eq!(picked, ["卡片风", "极简风", "深色风"]);
    let picked = pick_multi_variant_styles(Some(vec!["极简风".into(), "卡片风".into()]));
    assert_eq!(picked, ["极简风", "卡片风", "深色风"]);
}

#[test]
fn pick_multi_variant_styles_none_uses_all_defaults() {
    assert_eq!(pick_multi_variant_styles(None), ["极简风", "卡片风", "深色风"]);
}

#[test]
fn pick_multi_variant_styles_empty_uses_all_defaults() {
    assert_eq!(pick_multi_variant_styles(Some(vec![])), ["极简风", "卡片风", "深色风"]);
}

#[test]
fn disable_file_unset_is_false() {
    assert!(!should_disable_file(&None));
}

#[test]
fn disable_file_one_is_true() {
    assert!(should_disable_file(&some("1")));
}

#[test]
fn disable_file_true_case_insensitive() {
    assert!(should_disable_file(&some("TRUE")));
}

#[test]
fn disable_file_other_value_is_false() {
    assert!(!should_disable_file(&some("0")));
}

#[test]
fn resolve_log_dir_env_override() {
    assert_eq!(log_dir_override(&some("/var/log/x")), some("/var/log/x"));
}

#[test]
fn resolve_log_dir_empty_env_falls_back() {
    assert_eq!(log_dir_override(&some("")), None);
    assert_eq!(log_dir_override(&None), None);
}

#[test]
fn backups_are_rotated() {
    assert_eq!(
        rotate_backup(true, true, true),
        vec![BackupMove::DropOldest, BackupMove::SecondToThird, BackupMove::FirstToSecond]
    );
    assert_eq!(rotate_backup(true, false, false), vec![BackupMove::FirstToSecond]);
    assert!(rotate_backup(false, false, false).is_empty());
}

#[test]
fn model_to_probe_is_chosen_in_order() {
    assert_eq!(probe_model(" a ", &some("b"), &some("c")), "a");
    assert_eq!(probe_model("", &some(" b "), &some("c")), "b");
    assert_eq!(probe_model("", &some("  "), &some("c")), "c");
    assert_eq!(probe_model("", &None, &None), "default");
}

#[test]
fn registry_uses_the_system_that_the_document_names() {
    let mut doc = PenDocument { schema_version: 1, pages: vec![], active_design_system: None };
    assert!(build_registry(&doc).active().is_none());
    doc.active_design_system = some("apple-hig");
    assert_eq!(build_registry(&doc).active().unwrap().id, "apple-hig");
    doc.active_design_system = some("nowhere");
    assert!(build_registry(&doc).active().is_none());
}

#[test]
fn failures_are_explained() {
    assert_eq!(advise_on_message("HTTP 401").category, "鉴权失败");
    assert_eq!(advise_on_message("connection refused").category, "服务不可达");
    assert_eq!(advise_on_message("got 502").category, "上游服务错误");
    assert_eq!(advise_on_message("返回空 choices").category, "模型返回空");
    assert_eq!(advise_on_message("else").category, "运行错误");
    assert_eq!(
        advise_on_export(&ExportError::UnsupportedFormat(ExportFormat::Pdf)).category,
        "导出格式不支持"
    );
    assert_eq!(
        advise_on_export(&ExportError::BatchPartial { count: 2, detail: String::new() }).hint,
        "2 个页面导出失败，详见日志中失败清单；已导出文件保留"
    );
    assert_eq!(advise_on_export(&ExportError::RenderFailed(String::new())).category, "渲染失败");
    assert_eq!(advise_on_export(&ExportError::Io(String::new())).category, "文件 IO 错误");
    assert_eq!(advise_on_export(&ExportError::Serialize(String::new())).category, "序列化错误");
}

#[test]
fn document_failures_are_explained() {
    for (e, category) in [
        (CanvasError::NodeNotFound, "节点未找到"),
        (CanvasError::PageNotFound, "页面未找到"),
        (CanvasError::ParseError, "文档解析失败"),
        (CanvasError::DepthExceeded, "文档超限"),
        (CanvasError::NodeTotalExceeded, "文档超限"),
        (CanvasError::SchemaVersion, "文档 schema 版本不支持"),
    ] {
        assert_eq!(advise_on_canvas(e).category, category);
    }
    assert_eq!(
        advise_on_canvas(CanvasError::NodeNotFound).hint,
        "检查操作的目标 node id 是否存在于当前文档"
    );
}
