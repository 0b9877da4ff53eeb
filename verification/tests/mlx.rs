use fusion_design::design_system::builtin_apple_hig;
use fusion_design::mlx::chat::{
    add_context, bearer_token, detect_image_mime, encode_image, first_choice, image_data_url,
    image_mime, missing_sketch_request, node_edit_request, nodes_edit_request, page_request,
    prepare_messages, screenshot_request, single_turn, sketch_request, stream_request,
    styled_prompt, text_chunks, token_prompt_fragment, ChatDelta, ChatInputError, ChatRequest,
    FusionMlxChatProvider, MlxChatMessage, StopReason,
};
use fusion_design::frames::sse_frame_delta;
use fusion_design::mlx::address::{is_private_or_local, loopback, read_address, HostIp};
use fusion_design::mlx::endpoint::{
    check_endpoints, check_parsed, endpoint_for_attempt, parse_endpoints, resolve_endpoint,
    validate_localhost, EndpointError,
};
use fusion_design::mlx::retry::{
    backoff_delay, deadline_message, is_transient_status, refused_message, retry_deadline_secs,
    retry_max_attempts, unreachable_message, Reply, Step, Tries, RETRY_DEFAULT_MAX_ATTEMPTS,
};
use fusion_design::mlx::status::{
    error_reason, health_from_answer, health_unreachable, models_in, probe_after, probe_deadline,
    require_loaded, require_usable, GenerateProbeStatus, ProbeStep,
};
use fusion_design::mlx::stream::{
    delta_of_content, parse_sse_line, sse_buffer_cap, stream_idle_secs, SseBuffer, StreamEvent,
    StreamStep,
};

fn some(s: &str) -> Option<String> {
    Some(s.to_string())
}

fn message(role: &str, content: &str) -> MlxChatMessage {
    MlxChatMessage { role: role.to_string(), content: content.to_string() }
}

// Endpoints

#[test]
fn resolve_endpoint_empty_falls_back_to_default() {
    assert_eq!(resolve_endpoint("", &None), vec!["http://127.0.0.1:11432"]);
}

#[test]
fn resolve_endpoint_explicit_overrides_env() {
    let ep = resolve_endpoint("http://127.0.0.1:11432", &some("http://127.0.0.1:11434"));
    assert_eq!(ep, vec!["http://127.0.0.1:11432"]);
}

#[test]
fn resolve_endpoint_reads_the_environment() {
    let ep = resolve_endpoint("  ", &some(" http://127.0.0.1:11434 "));
    assert_eq!(ep, vec!["http://127.0.0.1:11434"]);
    assert_eq!(resolve_endpoint("", &some("  ")), vec!["http://127.0.0.1:11432"]);
}

#[test]
fn resolve_endpoint_multi_value_split_by_comma() {
    let ep = resolve_endpoint("http://127.0.0.1:11432,http://10.0.0.5:11432", &None);
    assert_eq!(ep, vec!["http://127.0.0.1:11432", "http://10.0.0.5:11432"]);
    assert!(check_endpoints(&ep).is_ok());
}

#[test]
fn resolve_endpoint_multi_value_rejects_public() {
    let ep = resolve_endpoint("http://127.0.0.1:11432,http://8.8.8.8:11432", &None);
    match check_endpoints(&ep) {
        Err(EndpointError::PublicAddress(h)) => assert_eq!(h, "8.8.8.8"),
        other => panic!("{other:?}"),
    }
}

#[test]
fn parse_endpoints_splits_and_trims() {
    assert_eq!(
        parse_endpoints("http://a:1, http://b:2 ,http://c:3"),
        vec!["http://a:1", "http://b:2", "http://c:3"]
    );
    assert_eq!(parse_endpoints(""), vec!["http://127.0.0.1:11432"]);
    assert_eq!(parse_endpoints("  ,  "), vec!["http://127.0.0.1:11432"]);
}

#[test]
fn mock_server_endpoint_is_localhost() {
    assert!(validate_localhost("http://127.0.0.1:8080").is_ok());
    assert!(validate_localhost("http://localhost:9999").is_ok());
    assert!(validate_localhost("https://api.openai.com").is_err());
}

#[test]
fn endpoint_errors_are_told_apart() {
    assert!(matches!(check_endpoints(&vec![]), Err(EndpointError::Empty)));
    match validate_localhost("not a url") {
        Err(EndpointError::Invalid { endpoint, reason }) => {
            assert_eq!(endpoint, "not a url");
            assert!(!reason.is_empty());
        }
        other => panic!("{other:?}"),
    }
    match validate_localhost("http://example.com") {
        Err(EndpointError::UnknownName(h)) => assert_eq!(h, "example.com"),
        other => panic!("{other:?}"),
    }
    match check_parsed("http://[2001:db8::1]/", Ok(some("[2001:db8::1]"))) {
        Err(EndpointError::PublicAddress(h)) => assert_eq!(h, "2001:db8::1"),
        other => panic!("{other:?}"),
    }
}

#[test]
fn accepted_endpoints_are_local() {
    let ep = vec!["http://[fd00::1]:1".to_string(), "http://localhost:2".to_string()];
    assert!(check_endpoints(&ep).is_ok());
    assert!(check_endpoints(&vec!["http://[::1]:8080".to_string()]).is_ok());
    let ep = vec!["http://localhost:2".to_string(), "http://[2001:db8::1]:1".to_string()];
    match check_endpoints(&ep) {
        Err(EndpointError::PublicAddress(h)) => assert_eq!(h, "2001:db8::1"),
        other => panic!("{other:?}"),
    }
    assert!(validate_localhost("http://[::ffff:8.8.8.8]/").is_err());
    assert!(validate_localhost("http://0x7f.1/").is_ok());
    match validate_localhost("http://0.0.0.0/") {
        Err(EndpointError::PublicAddress(h)) => assert_eq!(h, "0.0.0.0"),
        other => panic!("{other:?}"),
    }
}

#[test]
fn addresses_are_read_as_they_are_written() {
    for (host, a) in [
        ("127.0.0.1", [127, 0, 0, 1]),
        ("10.0.0.5", [10, 0, 0, 5]),
        ("255.255.255.255", [255, 255, 255, 255]),
    ] {
        assert!(matches!(read_address(host), Some(HostIp::V4(r)) if r == a), "{host}");
    }
    for (host, s) in [
        ("::", [0, 0, 0, 0, 0, 0, 0, 0]),
        ("::1", [0, 0, 0, 0, 0, 0, 0, 1]),
        ("1::", [1, 0, 0, 0, 0, 0, 0, 0]),
        ("fe80::1", [0xfe80, 0, 0, 0, 0, 0, 0, 1]),
        ("fd00::abcd:1", [0xfd00, 0, 0, 0, 0, 0, 0xabcd, 1]),
        ("2001:db8::8a2e:370:7334", [0x2001, 0xdb8, 0, 0, 0, 0x8a2e, 0x370, 0x7334]),
        ("1:2:3:4:5:6:7:8", [1, 2, 3, 4, 5, 6, 7, 8]),
        ("1:2:3:4:5:6:7::", [1, 2, 3, 4, 5, 6, 7, 0]),
        ("::2:3:4:5:6:7:8", [0, 2, 3, 4, 5, 6, 7, 8]),
        ("FE80::A", [0xfe80, 0, 0, 0, 0, 0, 0, 0xa]),
        ("0:0:0:0:0:0:0:1", [0, 0, 0, 0, 0, 0, 0, 1]),
    ] {
        assert!(matches!(read_address(host), Some(HostIp::V6(r)) if r == s), "{host}");
    }
    for host in [
        "256.0.0.1", "01.2.3.4", "1.2.3", "1.2.3.4.5", "1.2.3.", "+1.2.3.4",
        "", "localhost", "1:2:3:4:5:6:7", "1:2:3:4:5:6:7:8:9", "1:2:3:4::5:6:7:8", "1::2::3",
        ":::", ":1", "1:", "12345::", "g::1",
    ] {
        assert!(read_address(host).is_none(), "{host}");
    }
}

#[test]
fn private_addresses_are_local() {
    assert!(loopback(&HostIp::V4([127, 0, 0, 1])));
    assert!(loopback(&HostIp::V6([0, 0, 0, 0, 0, 0, 0, 1])));
    assert!(is_private_or_local(&HostIp::V4([10, 1, 2, 3])));
    assert!(is_private_or_local(&HostIp::V4([172, 16, 0, 1])));
    assert!(is_private_or_local(&HostIp::V4([172, 31, 0, 1])));
    assert!(!is_private_or_local(&HostIp::V4([172, 32, 0, 1])));
    assert!(is_private_or_local(&HostIp::V4([192, 168, 1, 1])));
    assert!(is_private_or_local(&HostIp::V4([169, 254, 1, 1])));
    assert!(!is_private_or_local(&HostIp::V4([8, 8, 8, 8])));
    assert!(is_private_or_local(&HostIp::V6([0xfe80, 0, 0, 0, 0, 0, 0, 1])));
    assert!(is_private_or_local(&HostIp::V6([0xfd00, 0, 0, 0, 0, 0, 0, 1])));
    assert!(!is_private_or_local(&HostIp::V6([0x2001, 0xdb8, 0, 0, 0, 0, 0, 1])));
}

#[test]
fn endpoints_take_turns() {
    assert_eq!(endpoint_for_attempt(1, 7), (0, 7));
    assert_eq!(endpoint_for_attempt(3, 7), (1, 8));
    assert_eq!(endpoint_for_attempt(2, u32::MAX), (1, 0));
}

// Retrying

#[test]
fn is_transient_status_classifies_502_503_only() {
    assert!(is_transient_status(502));
    assert!(is_transient_status(503));
    assert!(!is_transient_status(200));
    assert!(!is_transient_status(401));
    assert!(!is_transient_status(403));
    assert!(!is_transient_status(404));
    assert!(!is_transient_status(500));
}

#[test]
fn backoff_delay_exponential_capped() {
    let ms = |attempt: u32| std::time::Duration::from_millis(backoff_delay(attempt));
    assert_eq!(ms(0), std::time::Duration::from_millis(500));
    assert_eq!(ms(1), std::time::Duration::from_millis(1000));
    assert_eq!(ms(2), std::time::Duration::from_millis(2000));
    assert_eq!(ms(3), std::time::Duration::from_millis(4000));
    assert_eq!(ms(10), std::time::Duration::from_millis(8000), "封顶 8s");
}

#[test]
fn retry_max_attempts_env_override() {
    assert_eq!(retry_max_attempts(&some("2")), 2);
    assert_eq!(retry_max_attempts(&None), RETRY_DEFAULT_MAX_ATTEMPTS);
    assert_eq!(retry_max_attempts(&some("0")), RETRY_DEFAULT_MAX_ATTEMPTS);
    assert_eq!(retry_max_attempts(&some("notanumber")), RETRY_DEFAULT_MAX_ATTEMPTS);
    assert_eq!(retry_deadline_secs(&some(" 12 ")), 12);
    assert_eq!(retry_deadline_secs(&some("-1")), 300);
}

fn statuses_until_end(codes: &[u16]) -> (usize, Step) {
    let mut tries = Tries::new(retry_max_attempts(&None));
    let mut calls = 0;
    for code in codes {
        calls += 1;
        match tries.after(Reply::Status(*code)) {
            Step::Wait(_) => {}
            end => return (calls, end),
        }
    }
    panic!("the replies ran out")
}

#[test]
fn blocking_post_retries_on_503_then_succeeds() {
    assert_eq!(statuses_until_end(&[503, 503, 200]), (3, Step::Read));
}

#[test]
fn blocking_post_no_retry_on_401() {
    assert_eq!(statuses_until_end(&[401, 200]), (1, Step::Refused(401)));
}

#[test]
fn blocking_post_retries_exhaust_then_bail() {
    let (calls, end) = statuses_until_end(&[503, 503, 503, 503, 503, 503, 503, 503]);
    assert_eq!(calls as u32, RETRY_DEFAULT_MAX_ATTEMPTS);
    assert_eq!(end, Step::Refused(503));
    let mut tries = Tries::new(2);
    assert_eq!(tries.after(Reply::Status(503)), Step::Wait(500));
    assert_eq!(refused_message(503, &tries), "fusion-mlx HTTP 503（尝试 2/2 次）");
}

#[test]
fn blocking_post_failover_to_next_endpoint() {
    let mut tries = Tries::new(4);
    let (first, counter) = endpoint_for_attempt(2, 0);
    assert_eq!(first, 0);
    assert_eq!(tries.after(Reply::Status(503)), Step::Wait(500));
    let (second, _) = endpoint_for_attempt(2, counter);
    assert_eq!(second, 1);
    assert_eq!(tries.after(Reply::Status(200)), Step::Read);
}

#[test]
fn blocking_post_failover_all_endpoints_down() {
    let mut tries = Tries::new(2);
    assert_eq!(tries.after(Reply::Unreachable), Step::Wait(500));
    assert_eq!(tries.after(Reply::Unreachable), Step::Unreachable);
    assert_eq!(tries.count(), 1);
    assert_eq!(tries.max(), 2);
    assert_eq!(
        unreachable_message(false, &tries, "refused"),
        "fusion-mlx 连接失败（尝试 2/2 次）: refused"
    );
    assert_eq!(
        unreachable_message(true, &tries, "refused"),
        "SSE 请求失败（尝试 2/2 次）: refused"
    );
    assert_eq!(
        deadline_message(false, &tries, "300s"),
        "fusion-mlx 重试超过总 deadline 300s（尝试 1/2 次）"
    );
    assert_eq!(
        deadline_message(true, &tries, "300s"),
        "fusion-mlx 建连重试超过总 deadline 300s（尝试 1/2 次）"
    );
}

// Streams

#[test]
fn done_marker_yields_finished_delta() {
    let d = parse_sse_line("data: [DONE]").expect("DONE -> Some");
    assert!(d.finished);
    assert!(d.token.is_empty());
}

#[test]
fn content_line_yields_token_delta() {
    let body = r#"data: {"choices":[{"delta":{"content":"hi"}}]}"#;
    let d = parse_sse_line(body).expect("content -> Some");
    assert!(!d.finished);
    assert_eq!(d.token, "hi");
}

#[test]
fn empty_content_returns_none() {
    let body = r#"data: {"choices":[{"delta":{"content":""}}]}"#;
    assert!(parse_sse_line(body).is_none());
    assert!(delta_of_content(some("")).is_none());
    assert!(delta_of_content(None).is_none());
    assert_eq!(delta_of_content(some("x")).unwrap().token, "x");
}

#[test]
fn non_data_line_returns_none() {
    assert!(parse_sse_line(": keepalive comment").is_none());
    assert!(parse_sse_line("").is_none());
    assert!(parse_sse_line("event: ping").is_none());
}

#[test]
fn bad_json_returns_none() {
    assert!(parse_sse_line("data: {not json").is_none());
}

#[test]
fn cjk_content_preserved() {
    let body = r#"data: {"choices":[{"delta":{"content":"登录页"}}]}"#;
    let d = parse_sse_line(body).expect("cjk -> Some");
    assert_eq!(d.token, "登录页");
}

/// Feeds the chunks and then the end, and collects what comes out.
fn read_all(chunks: &[&[u8]]) -> (String, bool) {
    let mut buffer = SseBuffer::new();
    let mut tokens = String::new();
    let mut done = false;
    for chunk in chunks {
        let mut event = StreamEvent::Chunk(chunk.to_vec());
        loop {
            match buffer.step(event, 8 * 1024 * 1024, 60) {
                StreamStep::Emit(d) => {
                    done = done || d.finished;
                    tokens.push_str(&d.token);
                    event = StreamEvent::Chunk(vec![]);
                }
                StreamStep::More => break,
                other => panic!("{other:?}"),
            }
        }
    }
    loop {
        match buffer.step(StreamEvent::Eof, 8 * 1024 * 1024, 60) {
            StreamStep::Emit(d) => {
                done = done || d.finished;
                tokens.push_str(&d.token);
            }
            StreamStep::End => break,
            other => panic!("{other:?}"),
        }
    }
    (tokens, done)
}

#[test]
fn chat_stream_messages_emits_deltas_and_finishes() {
    let text = "data: {\"choices\":[{\"delta\":{\"content\":\"Hel\"}}]}\r\n\r\ndata: {\"choices\":[{\"delta\":{\"content\":\"lo\"}}]}\r\n\r\ndata: [DONE]\r\n\r\n";
    let (tokens, done) = read_all(&[text.as_bytes()]);
    assert_eq!(tokens, "Hello");
    assert!(done);
}

#[test]
fn chat_stream_messages_early_eof_drains_and_terminates() {
    let text = "data: {\"choices\":[{\"delta\":{\"content\":\"Hel\"}}]}\r\n\r\ndata: {\"choices\":[{\"delta\":{\"content\":\"lo\"}}]}";
    let (tokens, done) = read_all(&[text.as_bytes()]);
    assert_eq!(tokens, "Hello");
    assert!(!done);
}

#[test]
fn chat_stream_messages_retries_on_502_then_streams() {
    assert_eq!(statuses_until_end(&[502, 200]), (2, Step::Read));
    let text = "data: {\"choices\":[{\"delta\":{\"content\":\"Hi\"}}]}\r\n\r\ndata: [DONE]\r\n\r\n";
    let (tokens, done) = read_all(&[text.as_bytes()]);
    assert_eq!(tokens, "Hi");
    assert!(done);
}

#[test]
fn frame_reads_as_its_token() {
    for token in ["x", "a\nb", "\"\\\u{1}\u{7f}", "登录页 🎨", " "] {
        let frame = sse_frame_delta(token);
        let line = frame.strip_suffix("\n\n").unwrap();
        assert!(!line.contains('\n'));
        let delta = parse_sse_line(line).unwrap();
        assert_eq!(delta.token, token);
        assert!(!delta.finished);
    }
    assert!(parse_sse_line(sse_frame_delta("").trim_end()).is_none());
}

#[test]
fn chat_stream_messages_cjk_split_across_chunks_no_replacement() {
    let text = "data: {\"choices\":[{\"delta\":{\"content\":\"登录\"}}]}\r\n\r\ndata: [DONE]\r\n\r\n";
    let bytes = text.as_bytes();
    let split_at = bytes.iter().position(|b| *b == 0xE7).unwrap() + 2;
    let (tokens, done) = read_all(&[&bytes[..split_at], &bytes[split_at..]]);
    assert_eq!(tokens, "登录");
    assert!(!tokens.contains('\u{FFFD}'));
    assert!(done);
}

#[test]
fn chat_stream_messages_stall_timeout() {
    let mut buffer = SseBuffer::new();
    match buffer.step(StreamEvent::Stalled, 100, 1) {
        StreamStep::Fail(e) => assert_eq!(
            e,
            "SSE 流 stall：超过 1s 未见下一 chunk（FUSION_MLX_STREAM_IDLE_SECS 可调）"
        ),
        other => panic!("{other:?}"),
    }
}

#[test]
fn stream_failures_are_reported() {
    let mut buffer = SseBuffer::new();
    match buffer.step(StreamEvent::Chunk(vec![b'x'; 11]), 10, 60) {
        StreamStep::Fail(e) => assert_eq!(e, "SSE buffer 残留超限 (10 字节) 无完整行"),
        other => panic!("{other:?}"),
    }
    match buffer.step(StreamEvent::Failed("reset".to_string()), 10, 60) {
        StreamStep::Fail(e) => assert_eq!(e, "SSE 读取出错: reset"),
        other => panic!("{other:?}"),
    }
    assert!(matches!(buffer.step(StreamEvent::Chunk(vec![b'x'; 10]), 10, 60), StreamStep::More));
}

#[test]
fn stream_settings_have_defaults() {
    assert_eq!(sse_buffer_cap(&None), 8 * 1024 * 1024);
    assert_eq!(sse_buffer_cap(&some("1024")), 1024);
    assert_eq!(stream_idle_secs(&None), 60);
    assert_eq!(stream_idle_secs(&some("5")), 5);
}

// Health and probe

#[test]
fn health_check_401_marks_auth_failure() {
    let s = health_from_answer(401, "401 Unauthorized", models_in(r#"{"error":"unauthorized"}"#));
    assert!(!s.available);
    assert_eq!(s.auth_ok, Some(false));
    assert!(s.models.is_empty());
    assert!(s.status.as_deref().unwrap().contains("鉴权"));
    assert_eq!(
        require_usable(&s),
        Err("❌ fusion-mlx 不可用：鉴权失败（401 Unauthorized）：FUSION_MLX_API_KEY 缺失或无效".to_string())
    );
}

#[test]
fn health_check_empty_models_not_available() {
    let s = health_from_answer(200, "200 OK", models_in(r#"{"data":[]}"#));
    assert!(!s.available);
    assert_eq!(s.auth_ok, Some(true));
    assert!(s.model.is_none());
    assert!(s.status.as_deref().unwrap().contains("无模型"));
}

#[test]
fn health_check_with_models_available() {
    let body = r#"{"data":[{"id":"qwen3-coder"},{"id":"qwen2.5-vl"}]}"#;
    let s = health_from_answer(200, "200 OK", models_in(body));
    assert!(s.available);
    assert_eq!(s.auth_ok, Some(true));
    assert_eq!(s.model.as_deref(), Some("qwen3-coder"));
    assert_eq!(s.models.len(), 2);
    assert_eq!(s.status.as_deref(), Some("可用（2 个模型，首个 qwen3-coder）"));
    assert_eq!(require_usable(&s), Ok(()));
}

#[test]
fn health_tells_other_failures() {
    let s = health_from_answer(500, "500 Internal Server Error", vec![]);
    assert_eq!(s.status.as_deref(), Some("MLX 返回 500 Internal Server Error"));
    assert_eq!(s.auth_ok, None);
    let s = health_unreachable("connection refused");
    assert_eq!(s.status.as_deref(), Some("不可达：connection refused"));
    assert!(!s.available);
    assert!(models_in("not json").is_empty());
    assert_eq!(models_in(r#"{"data":[{"id":1},{"id":"m"},3]}"#), vec!["m"]);
}

/// The same reply to every try, until the probe is over.
fn probe(code: u16, body: &str, model: &str) -> GenerateProbeStatus {
    let mut tries = Tries::new(retry_max_attempts(&None));
    loop {
        match probe_after(&mut tries, Reply::Status(code), model, &error_reason(body)) {
            ProbeStep::Wait(_) => {}
            ProbeStep::Done(p) => return p,
        }
    }
}

#[test]
fn check_generate_502_marks_model_not_loaded() {
    let p = probe(
        502,
        r#"{"error":{"message":"Chat failed","type":"server_error"}}"#,
        "qwen3.5-4b-4bit",
    );
    assert!(!p.available);
    assert!(!p.model_loaded);
    assert_eq!(p.http_code, Some(502));
    assert_eq!(
        p.status.as_deref(),
        Some("模型未加载（502 Chat failed）：重试 4 次仍 502/503，generate 失败")
    );
}

#[test]
fn check_generate_503_marks_model_loading() {
    let p = probe(503, r#"{"error":{"message":"model loading","type":"api_error"}}"#, "m");
    assert!(!p.available);
    assert!(!p.model_loaded);
    assert_eq!(p.http_code, Some(503));
}

#[test]
fn check_generate_200_marks_available() {
    let p = probe(200, r#"{"choices":[{"message":{"content":"ok"}}]}"#, "qwen3.5-4b-4bit");
    assert!(p.available);
    assert!(p.model_loaded);
    assert_eq!(p.http_code, Some(200));
    assert_eq!(
        p.status.as_deref(),
        Some("推理探针通过（模型 qwen3.5-4b-4bit 已加载，尝试 1/4 次）")
    );
    assert_eq!(require_loaded(&p), Ok(()));
}

#[test]
fn check_generate_401_marks_auth_failure() {
    let p = probe(401, r#"{"error":{"message":"unauthorized"}}"#, "m");
    assert!(!p.available);
    assert_eq!(p.http_code, Some(401));
    assert!(p.status.as_deref().unwrap().contains("鉴权"));
}

#[test]
fn check_generate_sees_through_gateway_false_green() {
    let listed = models_in(
        r#"{"object":"list","data":[{"id":"qwen3.5-4b-4bit","object":"model"}]}"#,
    );
    assert!(health_from_answer(200, "200 OK", listed).available);
    let p = probe(502, "", "qwen3.5-4b-4bit");
    assert!(!p.available);
    assert!(!p.model_loaded);
    assert_eq!(p.http_code, Some(502));
    assert!(p.status.as_deref().unwrap().contains("未加载"));
    assert!(p.status.as_deref().unwrap().contains("无错误体"));
    assert!(require_loaded(&p).is_err());
}

#[test]
fn check_generate_retries_on_503_then_loaded() {
    let mut tries = Tries::new(4);
    assert!(matches!(
        probe_after(&mut tries, Reply::Status(503), "m", ""),
        ProbeStep::Wait(500)
    ));
    assert!(matches!(
        probe_after(&mut tries, Reply::Status(503), "m", ""),
        ProbeStep::Wait(1000)
    ));
    match probe_after(&mut tries, Reply::Status(200), "m", "") {
        ProbeStep::Done(p) => {
            assert!(p.model_loaded);
            assert_eq!(p.status.as_deref(), Some("推理探针通过（模型 m 已加载，尝试 3/4 次）"));
        }
        other => panic!("{other:?}"),
    }
}

#[test]
fn probe_tells_other_failures() {
    let mut tries = Tries::new(1);
    match probe_after(&mut tries, Reply::Unreachable, "m", "refused") {
        ProbeStep::Done(p) => {
            assert_eq!(p.status.as_deref(), Some("generate 请求失败（重试 1 次）：refused"));
            assert_eq!(p.http_code, None);
        }
        other => panic!("{other:?}"),
    }
    match probe_after(&mut tries, Reply::Status(404), "m", "") {
        ProbeStep::Done(p) => assert_eq!(p.status.as_deref(), Some("generate 返回 404")),
        other => panic!("{other:?}"),
    }
    let p = probe_deadline(&tries, "300s");
    assert_eq!(
        p.status.as_deref(),
        Some("推理探针重试超过总 deadline 300s（尝试 0/1 次）")
    );
}

// Conversations

#[test]
fn chat_async_empty_choices_errors() {
    assert_eq!(first_choice(vec![]), Err("fusion-mlx 返回空 choices".to_string()));
    assert_eq!(first_choice(vec!["a".to_string(), "b".to_string()]), Ok("a".to_string()));
}

#[test]
fn send_folds_history_into_messages_wire() {
    let history = vec![
        message("user", "什么是登录页"),
        message("assistant", "登录页是用户身份认证入口"),
    ];
    let provider = FusionMlxChatProvider::new("default-model");
    let call = provider.call_for(&ChatRequest {
        system_prompt: "你是 UI 生成器".to_string(),
        user_message: "生成登录页".to_string(),
        history,
        max_output_tokens: 256,
        model: some("qwen3.5"),
    });
    let deltas = provider.send(Ok("ok".to_string()));
    assert!(deltas.iter().any(|d| matches!(d, ChatDelta::TextDelta(_))));
    let msgs = &call.messages;
    assert_eq!(msgs.len(), 4);
    assert_eq!(msgs[0].role, "system");
    assert_eq!(msgs[0].content, "你是 UI 生成器");
    assert_eq!(msgs[1].role, "user");
    assert_eq!(msgs[1].content, "什么是登录页");
    assert_eq!(msgs[2].role, "assistant");
    assert_eq!(msgs[2].content, "登录页是用户身份认证入口");
    assert_eq!(msgs[3].role, "user");
    assert_eq!(msgs[3].content, "生成登录页");
    assert_eq!(call.model, "qwen3.5");
    assert_eq!(call.max_tokens, 256);
}

#[test]
fn send_empty_system_prompt_omits_system_message() {
    let provider = FusionMlxChatProvider::new("default-model");
    assert_eq!(provider.provider_label(), "fusion-mlx (local)");
    let call = provider.call_for(&ChatRequest {
        system_prompt: "   ".to_string(),
        user_message: "hi".to_string(),
        history: vec![],
        max_output_tokens: 64,
        model: None,
    });
    let msgs = &call.messages;
    assert_eq!(msgs.len(), 1);
    assert_eq!(msgs[0].role, "user");
    assert_eq!(msgs[0].content, "hi");
    assert_eq!(call.model, "default-model");
}

fn text_deltas(deltas: &[ChatDelta]) -> Vec<String> {
    let mut out = Vec::new();
    for d in deltas {
        if let ChatDelta::TextDelta(s) = d {
            out.push(s.clone());
        }
    }
    out
}

#[test]
fn send_chunks_multiline_into_multiple_deltas() {
    let deltas = FusionMlxChatProvider::new("m").send(Ok("line1\nline2\nline3".to_string()));
    assert_eq!(text_deltas(&deltas), vec!["line1\n", "line2\n", "line3"]);
    assert!(matches!(deltas.last(), Some(ChatDelta::Done { stop_reason: StopReason::EndTurn })));
}

#[test]
fn send_single_line_one_delta() {
    let deltas = FusionMlxChatProvider::new("m").send(Ok("oneliner".to_string()));
    assert_eq!(text_deltas(&deltas), vec!["oneliner"]);
}

#[test]
fn send_empty_text_no_text_delta() {
    let deltas = FusionMlxChatProvider::new("m").send(Ok(String::new()));
    assert!(text_deltas(&deltas).is_empty());
    assert!(matches!(deltas[0], ChatDelta::Done { .. }));
}

#[test]
fn send_hands_on_a_failure() {
    let deltas = FusionMlxChatProvider::new("m").send(Err("boom".to_string()));
    assert_eq!(deltas.len(), 1);
    assert!(matches!(&deltas[0], ChatDelta::Error(e) if e == "boom"));
}

#[test]
fn chunks_make_up_the_answer() {
    for answer in ["", "a", "a\n", "\n\n", "登录\n页"] {
        assert_eq!(text_chunks(answer).concat(), answer);
    }
    assert_eq!(text_chunks("\n\n").len(), 2);
}

#[test]
fn encoded_image_is_recognised() {
    assert_eq!(encode_image(&b"fusion".to_vec()), "ZnVzaW9u");
    assert_eq!(encode_image(&vec![255]), "/w==");
    let png = vec![0x89, 0x50, 0x4e, 0x47, 0x0d, 0x0a, 0x1a, 0x0a, 0, 0, 0, 0, 0];
    assert_eq!(detect_image_mime(&encode_image(&png)), "image/png");
}

#[test]
fn single_turn_has_instructions_and_question() {
    let msgs = single_turn("sys", "usr");
    assert_eq!(msgs.len(), 2);
    assert_eq!((msgs[0].role.as_str(), msgs[0].content.as_str()), ("system", "sys"));
    assert_eq!((msgs[1].role.as_str(), msgs[1].content.as_str()), ("user", "usr"));
}

#[test]
fn context_follows_the_instructions() {
    assert_eq!(add_context("sys", &None), "sys");
    assert_eq!(add_context("", &some("rag")), "rag");
    assert_eq!(add_context("sys", &some("rag")), "sys\n\n--- 以下为参考上下文 ---\nrag");
}

#[test]
fn prepared_messages_are_checked() {
    assert!(matches!(prepare_messages("", vec![]), Err(ChatInputError::NoMessages)));
    assert!(matches!(
        prepare_messages("s", vec![message("user", "a"), message("tool", "b")]),
        Err(ChatInputError::BadRole(r)) if r == "tool"
    ));
    let msgs = prepare_messages("s", vec![message("assistant", "a")]).unwrap();
    assert_eq!(msgs.len(), 2);
    assert_eq!(msgs[0].role, "system");
}

#[test]
fn bearer_token_leaves_out_a_blank_key() {
    assert_eq!(bearer_token(&None), None);
    assert_eq!(bearer_token(&some("  ")), None);
    assert_eq!(bearer_token(&some(" k ")), some("Bearer k"));
}

#[test]
fn image_formats_are_told_by_their_first_bytes() {
    assert_eq!(image_mime(&vec![0x89, 0x50, 0x4e, 0x47]), "image/png");
    assert_eq!(image_mime(&vec![0xff, 0xd8, 0xff, 0xe0]), "image/jpeg");
    assert_eq!(image_mime(&b"RIFF0000WEBPVP8 ".to_vec()), "image/webp");
    assert_eq!(image_mime(&b"RIFF0000WAVEfmt ".to_vec()), "image/png");
    assert_eq!(image_mime(&b"GIF89a".to_vec()), "image/gif");
    assert_eq!(image_mime(&b"GIF87a".to_vec()), "image/gif");
    assert_eq!(image_mime(&vec![]), "image/png");
}

#[test]
fn chat_with_image_sends_data_url() {
    assert_eq!(detect_image_mime("iVBORw0KGgoAAAANSUhEUg=="), "image/png");
    assert_eq!(detect_image_mime("/9j/4AAQSkZJRgABAQ=="), "image/jpeg");
    assert_eq!(detect_image_mime("R0lGODlhAQABAIAAAAAAAP=="), "image/gif");
    assert_eq!(detect_image_mime("UklGRiQAAABXRUJQVlA4IA=="), "image/webp");
    assert_eq!(detect_image_mime("不是 base64"), "image/png");
    assert_eq!(image_data_url("image/png", "AAAA"), "data:image/png;base64,AAAA");
}

#[test]
fn requests_are_worded() {
    assert_eq!(page_request("Home", "登录"), "生成页面「Home」。需求：登录");
    assert_eq!(
        sketch_request("h", "P"),
        "补充说明：h\n请根据上方草图图片生成页面「P」对应的 UI 布局。"
    );
    assert_eq!(
        missing_sketch_request("/s.png", "gone", "h", "P"),
        "草图路径：/s.png（无法读取：gone）\n补充说明：h\n生成页面「P」对应的 UI 布局。"
    );
    assert_eq!(screenshot_request("h", "P"), "补充说明：h\n生成页面「P」对应的 UI 布局。");
    assert_eq!(stream_request("d", "P"), "描述：d\n生成页面「P」对应的 UI 布局。");
    assert_eq!(node_edit_request("{}", "i"), "节点：{}\n指令：i");
    assert_eq!(nodes_edit_request("[]", "i"), "选中节点：\n[]\n\n编辑指令：i");
    assert_eq!(styled_prompt("p", "s"), "p（风格：s）");
}

#[test]
fn token_fragment_lists_the_variables() {
    assert_eq!(token_prompt_fragment(None), None);
    let system = builtin_apple_hig();
    let text = token_prompt_fragment(Some(&system)).unwrap();
    assert!(text.starts_with("当前设计系统 Token（CSS Custom Properties）：\n"));
    assert!(text.contains(&system.to_css_custom_properties()));
    assert!(text.ends_with("生成的 UI 必须使用这些 CSS 变量。"));
}
