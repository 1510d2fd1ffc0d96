use harness::json::{Json, Number};
use harness::model::{
    BackendError, ContentBlock, Message, SamplingParams, StopReason, TerminalKind,
    ToolCallRequest, TransientKind, TurnRequest, UserBlock,
};
use harness::ollama::{
    build_request_body, classify_status, classify_transport_error, estimate_prompt_tokens,
    extract_error_message, finish_turn, is_local_ollama_url, is_success, length_in_show,
    map_error_status, map_response, map_stop_reason, map_tool, needs_probe,
    ollama_usage_inconsistency_warning, resolve_context_length, resolve_num_ctx,
    resolve_tool_name, show_call, ContextLengthError, ContextLengthErrorKind, ErrorBody,
    MappedResponse, NumCtxResolution, NumCtxSource, OllamaBackend, ResolvedContextLength, ResponseBody,
    ResponseMessage, ResponseToolCall, ResponseToolCallFunction, ThinkLevel, MIN_EXPECTED_NUM_CTX,
};

use serde::de::{Deserialize, Deserializer, Error, IgnoredAny, MapAccess, SeqAccess, Visitor};

const URL: &str = "http://127.0.0.1:11434";

fn json(text: &str) -> Json {
    Json::parse(text).expect("valid JSON")
}

/// A body of one text field, which may be left out, as `serde` reads it: members
/// of other names are skipped, and the field may not come twice.
struct OneField(String);

struct OneFieldVisitor;

impl<'de> Visitor<'de> for OneFieldVisitor {
    type Value = OneField;

    fn expecting(&self, f: &mut std::fmt::Formatter<'_>) -> std::fmt::Result {
        f.write_str("an error body")
    }

    fn visit_seq<A: SeqAccess<'de>>(self, mut seq: A) -> Result<OneField, A::Error> {
        Ok(OneField(seq.next_element()?.unwrap_or_default()))
    }

    fn visit_map<A: MapAccess<'de>>(self, mut map: A) -> Result<OneField, A::Error> {
        let mut error: Option<String> = None;
        while let Some(name) = map.next_key::<String>()? {
            if name != "error" {
                map.next_value::<IgnoredAny>()?;
            } else if error.is_some() {
                return Err(A::Error::duplicate_field("error"));
            } else {
                error = Some(map.next_value()?);
            }
        }
        Ok(OneField(error.unwrap_or_default()))
    }
}

impl<'de> Deserialize<'de> for OneField {
    fn deserialize<D: Deserializer<'de>>(deserializer: D) -> Result<Self, D::Error> {
        deserializer.deserialize_struct("ErrorBody", &["error"], OneFieldVisitor)
    }
}

fn read_error(body: &str) -> Option<ErrorBody> {
    serde_json::from_str::<OneField>(body)
        .ok()
        .map(|OneField(error)| ErrorBody { error })
}

fn error_message(body: &str) -> String {
    extract_error_message(read_error(body), body)
}

fn params() -> SamplingParams {
    SamplingParams {
        max_tokens: 1024,
        temperature: Some(Number::Other("0.0".to_string())),
        stop_sequences: vec!["STOP".to_string()],
    }
}

fn user(text: &str) -> Vec<Message> {
    vec![Message::User {
        content: vec![UserBlock::Text(text.to_string())],
    }]
}

fn user_hi() -> Vec<Message> {
    user("hi")
}

fn backend() -> OllamaBackend {
    OllamaBackend::new("qwen3.6".to_string(), URL.to_string())
}

fn call(id: &str, name: &str, input: &str) -> ContentBlock {
    ContentBlock::ToolCall(ToolCallRequest {
        id: id.to_string(),
        name: name.to_string(),
        input: json(input),
    })
}

fn result(call_id: &str, content: &str, is_error: bool) -> UserBlock {
    UserBlock::ToolResult {
        call_id: call_id.to_string(),
        content: content.to_string(),
        is_error,
    }
}

fn sent(backend: &OllamaBackend, messages: &[Message], p: &SamplingParams) -> Json {
    let req = TurnRequest {
        system: None,
        messages,
        tools: &[],
        params: p,
    };
    let call = backend.prepare(&req).expect("prepared");
    json(&call.body.to_json().to_text())
}

fn at<'a>(value: &'a Json, path: &[&str]) -> &'a Json {
    path.iter().fold(value, |v, name| match name.parse::<usize>() {
        Ok(i) => match v {
            Json::Array(items) => &items[i],
            other => panic!("no array: {other:?}"),
        },
        Err(_) => v.get(name).unwrap_or(&Json::Null),
    })
}

fn str_at<'a>(value: &'a Json, path: &[&str]) -> &'a str {
    at(value, path).as_str().unwrap_or("<no text>")
}

fn answer(content: &str) -> ResponseBody {
    ResponseBody {
        message: ResponseMessage {
            content: content.to_string(),
            thinking: None,
            tool_calls: vec![],
        },
        done_reason: Some("stop".to_string()),
        prompt_eval_count: Some(1),
        eval_count: Some(1),
        prompt_eval_cached_count: None,
    }
}

fn answered_call(name: &str, arguments: &str) -> ResponseToolCall {
    ResponseToolCall {
        function: ResponseToolCallFunction {
            name: name.to_string(),
            arguments: json(arguments),
        },
    }
}

#[test]
fn maps_thinking_content_and_two_tool_calls() {
    let mut body = answer("here you go");
    body.message.thinking = Some("let me reason".to_string());
    body.message.tool_calls = vec![
        answered_call("read_file", r#"{"path": "a.rs"}"#),
        answered_call("list_dir", r#"{"path": "."}"#),
    ];
    body.prompt_eval_count = Some(42);
    body.eval_count = Some(7);
    let MappedResponse { turn, warning } =
        finish_turn(200, "", Ok(body), None).expect("turn ok");
    assert_eq!(turn.content.len(), 4);
    match &turn.content[0] {
        ContentBlock::Reasoning { text, opaque } => {
            assert_eq!(text, "let me reason");
            assert!(opaque.is_none());
        }
        other => panic!("expected Reasoning first, got {other:?}"),
    }
    assert_eq!(turn.text(), "here you go");
    let calls = turn.tool_calls();
    assert_eq!(calls.len(), 2);
    assert_eq!(calls[0].id, "ollama-call-0");
    assert_eq!(calls[0].name, "read_file");
    assert_eq!(calls[0].input, json(r#"{"path": "a.rs"}"#));
    assert_eq!(calls[1].id, "ollama-call-1");
    assert_eq!(calls[1].name, "list_dir");
    assert!(matches!(turn.stop_reason, StopReason::ToolUse));
    assert_eq!(turn.usage.input_tokens, 42);
    assert_eq!(turn.usage.output_tokens, 7);
    assert_eq!(turn.usage.cache_read_tokens, None);
    assert_eq!(turn.usage.cache_write_tokens, None);
    assert_eq!(turn.usage.reasoning_tokens, None);
    assert_eq!(warning, None);
}

fn usage_body(total: Option<u32>, cached: Option<u32>, output: u32) -> ResponseBody {
    let mut body = answer("ok");
    body.prompt_eval_count = total;
    body.prompt_eval_cached_count = cached;
    body.eval_count = Some(output);
    body
}

#[test]
fn maps_cached_prompt_tokens_into_cache_read() {
    let mapped = map_response(usage_body(Some(29721), Some(29696), 7));
    let usage = mapped.turn.usage;
    assert_eq!(usage.input_tokens, 25);
    assert_eq!(usage.cache_read_tokens, Some(29696));
    assert_eq!(usage.output_tokens, 7);
    assert_eq!(usage.cache_write_tokens, None);
    assert_eq!(usage.reasoning_tokens, None);
    assert_eq!(
        usage
            .input_tokens
            .saturating_add(usage.cache_read_tokens.unwrap_or(0)),
        29721
    );
    assert_eq!(mapped.warning, None);
}

#[test]
fn clamps_input_when_cached_exceeds_total_and_warns() {
    let mapped = map_response(usage_body(Some(10), Some(25), 1));
    let usage = mapped.turn.usage;
    assert_eq!(usage.input_tokens, 0);
    assert_eq!(usage.cache_read_tokens, Some(25));
    assert_eq!(usage.output_tokens, 1);
    assert_eq!(usage.cache_write_tokens, None);
    assert_eq!(usage.reasoning_tokens, None);

    let warning = ollama_usage_inconsistency_warning(10, 25);
    assert!(warning.starts_with("warning: ollama usage inconsistency — prompt_eval_cached_count "));
    assert!(warning.contains("25 > prompt_eval_count 10"));
    assert!(warning.ends_with("; clamping input_tokens to 0"));
    assert_eq!(mapped.warning, Some(warning));
    assert!(map_response(usage_body(None, Some(3), 1)).warning.is_some());
}

#[test]
fn zero_cached_count_is_some_zero() {
    let usage = map_response(usage_body(Some(29721), Some(0), 7)).turn.usage;
    assert_eq!(usage.input_tokens, 29721);
    assert_eq!(usage.cache_read_tokens, Some(0));
    assert_eq!(usage.output_tokens, 7);
    assert_eq!(usage.cache_write_tokens, None);
}

#[test]
fn absent_cached_count_stays_none_not_zero() {
    let usage = map_response(usage_body(Some(29721), None, 7)).turn.usage;
    assert_eq!(usage.input_tokens, 29721);
    assert_eq!(usage.cache_read_tokens, None);
    assert_eq!(usage.output_tokens, 7);
    assert_eq!(usage.cache_write_tokens, None);
}

#[test]
fn outgoing_request_shape_is_correct() {
    let messages = user("hello");
    let tools = vec![json(
        r#"{"name": "echo", "description": "echoes input back",
            "input_schema": {"type": "object", "properties": {}}}"#,
    )];
    let p = SamplingParams {
        max_tokens: 512,
        temperature: Some(Number::Other("0.3".to_string())),
        stop_sequences: vec!["END".to_string()],
    };
    let req = TurnRequest {
        system: Some("you are a harness"),
        messages: &messages,
        tools: &tools,
        params: &p,
    };
    let backend = OllamaBackend::new("glm-5.2:cloud".to_string(), URL.to_string())
        .with_api_key("sk-cloud".to_string())
        .with_num_ctx(100_000)
        .with_think(ThinkLevel::High);
    let call = backend.prepare(&req).expect("prepared");
    assert_eq!(call.authorization.as_deref(), Some("Bearer sk-cloud"));
    assert_eq!(call.url, "http://127.0.0.1:11434/api/chat");

    let parsed = json(&call.body.to_json().to_text());
    assert_eq!(str_at(&parsed, &["model"]), "glm-5.2:cloud");
    assert_eq!(at(&parsed, &["stream"]), &Json::Bool(false));
    assert_eq!(str_at(&parsed, &["think"]), "high");

    assert_eq!(str_at(&parsed, &["messages", "0", "role"]), "system");
    assert_eq!(
        str_at(&parsed, &["messages", "0", "content"]),
        "you are a harness"
    );
    assert_eq!(str_at(&parsed, &["messages", "1", "role"]), "user");
    assert_eq!(str_at(&parsed, &["messages", "1", "content"]), "hello");

    assert_eq!(str_at(&parsed, &["tools", "0", "type"]), "function");
    let function = at(&parsed, &["tools", "0", "function"]);
    assert_eq!(str_at(function, &["name"]), "echo");
    assert_eq!(str_at(function, &["description"]), "echoes input back");
    assert_eq!(
        at(function, &["parameters"]),
        &json(r#"{"type": "object", "properties": {}}"#)
    );
    assert!(
        function.get("input_schema").is_none(),
        "input_schema must be renamed to parameters"
    );

    let options = at(&parsed, &["options"]);
    assert_eq!(at(options, &["num_predict"]), &json("512"));
    assert_eq!(at(options, &["temperature"]), &json("0.3"));
    assert_eq!(at(options, &["stop"]), &json(r#"["END"]"#));
    assert_eq!(at(options, &["num_ctx"]), &json("100000"));
}

#[test]
fn think_off_serializes_false_and_no_key_omits_bearer() {
    let backend = backend().with_think(ThinkLevel::Off);
    let messages = user_hi();
    let p = params();
    let req = TurnRequest {
        system: None,
        messages: &messages,
        tools: &[],
        params: &p,
    };
    let call = backend.prepare(&req).expect("prepared");
    assert!(
        call.authorization.is_none(),
        "no api key => no Authorization header"
    );
    assert_eq!(
        at(&call.body.to_json(), &["think"]),
        &Json::Bool(false)
    );
}

#[test]
fn optional_fields_omitted_when_unset() {
    let p = SamplingParams {
        max_tokens: 16,
        temperature: None,
        stop_sequences: vec![],
    };
    let body_text = sent(&backend(), &user_hi(), &p).to_text();
    assert!(!body_text.contains("\"think\""));
    assert!(!body_text.contains("\"tools\""));
    assert!(!body_text.contains("\"temperature\""));
    assert!(!body_text.contains("\"stop\""));
    assert!(!body_text.contains("\"num_ctx\""));
    assert!(body_text.contains("\"model\""));
    assert!(body_text.contains("\"stream\":false"));
    assert!(body_text.contains("\"num_predict\""));
}

#[test]
fn tool_result_resolves_name_and_prefixes_error() {
    let messages = vec![
        Message::Assistant {
            content: vec![call("ollama-call-0", "read_file", r#"{"path": "a.rs"}"#)],
        },
        Message::User {
            content: vec![result("ollama-call-0", "boom", true)],
        },
    ];
    let parsed = sent(&backend(), &messages, &params());
    assert_eq!(str_at(&parsed, &["messages", "0", "role"]), "assistant");
    let wire_call = at(&parsed, &["messages", "0", "tool_calls", "0"]);
    assert_eq!(str_at(wire_call, &["type"]), "function");
    assert_eq!(str_at(wire_call, &["function", "name"]), "read_file");
    assert_eq!(at(wire_call, &["function", "index"]), &json("0"));
    assert_eq!(
        at(wire_call, &["function", "arguments"]),
        &json(r#"{"path": "a.rs"}"#)
    );
    let tool_msg = at(&parsed, &["messages", "1"]);
    assert_eq!(str_at(tool_msg, &["role"]), "tool");
    assert_eq!(str_at(tool_msg, &["tool_name"]), "read_file");
    assert_eq!(str_at(tool_msg, &["content"]), "ERROR: boom");
}

#[test]
fn unresolvable_call_id_is_protocol_error_and_sends_nothing() {
    let messages = vec![Message::User {
        content: vec![result("ollama-call-99", "orphan", false)],
    }];
    let p = params();
    let req = TurnRequest {
        system: None,
        messages: &messages,
        tools: &[],
        params: &p,
    };
    match backend().prepare(&req) {
        Err(BackendError::Protocol { message, raw }) => {
            assert!(message.contains("ollama-call-99"));
            assert!(raw.is_none());
        }
        Err(other) => panic!("expected Protocol, got {other:?}"),
        Ok(_) => panic!("nothing may be sent"),
    }
    assert!(build_request_body("m", None, None, &req).is_err());
}

#[test]
fn parallel_duplicate_name_calls_keep_result_order() {
    let messages = vec![
        Message::Assistant {
            content: vec![
                call("ollama-call-0", "search", r#"{"q": "first"}"#),
                call("ollama-call-1", "search", r#"{"q": "second"}"#),
            ],
        },
        Message::User {
            content: vec![
                result("ollama-call-1", "for second", false),
                result("ollama-call-0", "for first", false),
            ],
        },
    ];
    let parsed = sent(&backend(), &messages, &params());
    assert_eq!(str_at(&parsed, &["messages", "1", "role"]), "tool");
    assert_eq!(str_at(&parsed, &["messages", "1", "tool_name"]), "search");
    assert_eq!(
        str_at(&parsed, &["messages", "1", "content"]),
        "for second"
    );
    assert_eq!(str_at(&parsed, &["messages", "2", "role"]), "tool");
    assert_eq!(str_at(&parsed, &["messages", "2", "tool_name"]), "search");
    assert_eq!(str_at(&parsed, &["messages", "2", "content"]), "for first");
}

#[test]
fn the_most_recent_call_names_a_result() {
    let messages = vec![
        Message::Assistant {
            content: vec![call("c", "first", "{}")],
        },
        Message::Assistant {
            content: vec![call("c", "second", "{}"), call("d", "other", "{}")],
        },
        Message::User {
            content: vec![result("c", "x", false)],
        },
    ];
    assert_eq!(resolve_tool_name(&messages, 2, "c"), Some("second"));
    assert_eq!(resolve_tool_name(&messages, 1, "c"), Some("first"));
    assert_eq!(resolve_tool_name(&messages, 1, "d"), None);
    assert_eq!(resolve_tool_name(&messages, 0, "c"), None);
}

#[test]
fn assistant_reasoning_echoes_into_thinking_field() {
    let messages = vec![Message::Assistant {
        content: vec![
            ContentBlock::Reasoning {
                text: "prior thought".to_string(),
                opaque: None,
            },
            ContentBlock::Text("prior answer".to_string()),
        ],
    }];
    let parsed = sent(&backend(), &messages, &params());
    let msg = at(&parsed, &["messages", "0"]);
    assert_eq!(str_at(msg, &["role"]), "assistant");
    assert_eq!(str_at(msg, &["content"]), "prior answer");
    assert_eq!(str_at(msg, &["thinking"]), "prior thought");
}

#[test]
fn stop_reason_mapping_covers_arms() {
    assert!(matches!(
        map_stop_reason(true, Some("length")),
        StopReason::ToolUse
    ));
    assert!(matches!(
        map_stop_reason(false, Some("stop")),
        StopReason::EndTurn
    ));
    assert!(matches!(
        map_stop_reason(false, Some("length")),
        StopReason::MaxTokens
    ));
    match map_stop_reason(false, Some("guard")) {
        StopReason::Other(s) => assert_eq!(s, "guard"),
        other => panic!("expected Other, got {other:?}"),
    }
    match map_stop_reason(false, None) {
        StopReason::Other(s) => assert!(s.is_empty()),
        other => panic!("expected Other(\"\"), got {other:?}"),
    }
}

#[test]
fn length_done_reason_maps_to_max_tokens() {
    let mut body = answer("truncated");
    body.done_reason = Some("length".to_string());
    let turn = map_response(body).turn;
    assert!(matches!(turn.stop_reason, StopReason::MaxTokens));
    assert_eq!(turn.content.len(), 1);
    assert_eq!(turn.text(), "truncated");
}

#[test]
fn empty_content_and_thinking_produce_no_blocks() {
    let mut body = answer("");
    body.message.thinking = Some(String::new());
    let turn = map_response(body).turn;
    assert_eq!(turn.content.len(), 0);
    assert!(matches!(turn.stop_reason, StopReason::EndTurn));
}

fn error_turn(status: u16, body: &str) -> BackendError {
    finish_turn(status, body, Err("not read".to_string()), read_error(body)).expect_err("must fail")
}

#[test]
fn maps_404_to_unknown_model() {
    match error_turn(404, r#"{"error":"model 'bogus' not found"}"#) {
        BackendError::Terminal { kind, message } => {
            assert_eq!(kind, TerminalKind::UnknownModel);
            assert!(message.contains("bogus"));
        }
        other => panic!("expected UnknownModel, got {other:?}"),
    }
}

#[test]
fn maps_not_found_folklore_body_under_non_404() {
    let err = error_turn(400, r#"{"error":"model qwen3.6 not found, pull it first"}"#);
    assert!(matches!(
        err,
        BackendError::Terminal {
            kind: TerminalKind::UnknownModel,
            ..
        }
    ));
}

#[test]
fn maps_401_and_403_to_auth() {
    for status in [401u16, 403] {
        let err = error_turn(status, r#"{"error":"unauthorized"}"#);
        assert!(matches!(
            err,
            BackendError::Terminal {
                kind: TerminalKind::Auth,
                ..
            }
        ));
    }
}

#[test]
fn maps_400_does_not_support_tools_to_schema_rejected() {
    let err = error_turn(400, r#"{"error":"model does not support tools"}"#);
    assert!(matches!(
        err,
        BackendError::Terminal {
            kind: TerminalKind::SchemaRejected,
            ..
        }
    ));
}

#[test]
fn folklore_is_found_in_any_case() {
    let body = r#"{"error":"Model DOES NOT SUPPORT TOOLS"}"#;
    let err = map_error_status(400, read_error(body), body);
    assert!(matches!(
        err,
        BackendError::Terminal {
            kind: TerminalKind::SchemaRejected,
            ..
        }
    ));
}

#[test]
fn maps_400_generic_to_bad_request() {
    match error_turn(400, r#"{"error":"invalid options.num_predict"}"#) {
        BackendError::Terminal { kind, message } => {
            assert_eq!(kind, TerminalKind::BadRequest);
            assert!(message.contains("num_predict"));
        }
        other => panic!("expected BadRequest, got {other:?}"),
    }
}

#[test]
fn maps_429_to_rate_limit_without_retry_after() {
    let err = error_turn(429, r#"{"error":"rate limited"}"#);
    assert!(err.is_retryable());
    match err {
        BackendError::Transient { kind, retry_after } => {
            assert_eq!(kind, TransientKind::RateLimit);
            assert!(retry_after.is_none(), "cloud sends no Retry-After");
        }
        other => panic!("expected Transient RateLimit, got {other:?}"),
    }
}

#[test]
fn maps_500_to_server_error() {
    let err = error_turn(500, r#"{"error":"internal"}"#);
    assert!(matches!(
        err,
        BackendError::Transient {
            kind: TransientKind::ServerError,
            ..
        }
    ));
}

#[test]
fn maps_unlabeled_status_to_terminal_other() {
    match error_turn(418, "i'm a teapot") {
        BackendError::Terminal { kind, message } => {
            assert_eq!(kind, TerminalKind::Other);
            assert_eq!(message, "i'm a teapot");
        }
        other => panic!("expected Terminal Other, got {other:?}"),
    }
}

#[test]
fn statuses_are_classified_at_their_edges() {
    let kind = |status: u16| match classify_status(status, "m".to_string(), "m") {
        BackendError::Transient { kind, .. } => format!("{kind:?}"),
        BackendError::Terminal { kind, .. } => format!("{kind:?}"),
        other => format!("{other:?}"),
    };
    assert_eq!(kind(499), "Other");
    assert_eq!(kind(500), "ServerError");
    assert_eq!(kind(599), "ServerError");
    assert_eq!(kind(600), "Other");
    assert!(!is_success(199) && is_success(200) && is_success(299) && !is_success(300));
}

#[test]
fn malformed_success_body_maps_to_protocol_with_raw() {
    let parsed = Err("expected ident at line 1 column 2".to_string());
    match finish_turn(200, "not even json", parsed, None).expect_err("must fail") {
        BackendError::Protocol { message, raw } => {
            assert!(message.contains("not parseable"));
            assert_eq!(raw.as_deref(), Some("not even json"));
        }
        other => panic!("expected Protocol, got {other:?}"),
    }
}

#[test]
fn transport_error_classification_covers_timeout_and_network() {
    assert!(matches!(
        classify_transport_error(true),
        BackendError::Transient {
            kind: TransientKind::Timeout,
            ..
        }
    ));
    assert!(matches!(
        classify_transport_error(false),
        BackendError::Transient {
            kind: TransientKind::Network,
            ..
        }
    ));
}

#[test]
fn extract_error_message_falls_back_to_raw_body() {
    assert_eq!(error_message(r#"{"error":"boom"}"#), "boom");
    assert_eq!(error_message(r#"{"error":""}"#), r#"{"error":""}"#);
    assert_eq!(error_message("plain text"), "plain text");
}

#[test]
fn error_messages_of_other_shapes() {
    assert_eq!(error_message(r#"{"error":7}"#), r#"{"error":7}"#);
    assert_eq!(error_message("{}"), "{}");
    assert_eq!(error_message(r#"["boom"]"#), "boom");
    assert_eq!(error_message("[]"), "[]");
    assert_eq!(error_message(r#"["a","b"]"#), r#"["a","b"]"#);
    assert_eq!(extract_error_message(None, "raw"), "raw");
    let read = |error: &str| Some(ErrorBody { error: error.to_string() });
    assert_eq!(extract_error_message(read("e"), "raw"), "e");
    assert_eq!(extract_error_message(read(""), "raw"), "raw");
}

#[test]
fn error_bodies_with_other_members() {
    let twice = r#"{"error":"a","error":"b"}"#;
    assert_eq!(error_message(twice), twice);
    let deep = format!(r#"{{"trace":{}{},"error":"boom"}}"#, "[".repeat(200), "]".repeat(200));
    assert_eq!(error_message(&deep), "boom");
    assert_eq!(error_message(r#"{"n":1e999,"error":"boom"}"#), "boom");
    assert_eq!(error_message(r#"{"s":"\ud800","error":"boom"}"#), "boom");
}

#[test]
fn think_level_serializes_to_wire_forms() {
    assert_eq!(ThinkLevel::Off.wire_form(), Json::Bool(false));
    assert_eq!(ThinkLevel::On.wire_form(), Json::Bool(true));
    assert_eq!(ThinkLevel::Low.wire_form(), json("\"low\""));
    assert_eq!(ThinkLevel::Medium.wire_form(), json("\"medium\""));
    assert_eq!(ThinkLevel::High.wire_form(), json("\"high\""));
    assert_eq!(ThinkLevel::Max.wire_form(), json("\"max\""));
}

#[test]
fn think_level_as_str_is_the_env_spelling_not_the_wire_form() {
    assert_eq!(ThinkLevel::Off.as_str(), "off");
    assert_eq!(ThinkLevel::On.as_str(), "on");
    assert_eq!(ThinkLevel::Low.as_str(), "low");
    assert_eq!(ThinkLevel::Medium.as_str(), "medium");
    assert_eq!(ThinkLevel::High.as_str(), "high");
    assert_eq!(ThinkLevel::Max.as_str(), "max");
    assert_eq!(ThinkLevel::Off.wire_form(), Json::Bool(false));
}

#[test]
fn context_guard_trips_before_sending() {
    let messages = user(&"x".repeat(4000));
    let p = params();
    let req = TurnRequest {
        system: None,
        messages: &messages,
        tools: &[],
        params: &p,
    };
    match backend().with_num_ctx(100).prepare(&req) {
        Err(err) => {
            assert!(matches!(err, BackendError::ContextLengthExceeded));
            assert!(!err.is_retryable());
        }
        Ok(_) => panic!("guard must trip"),
    }
}

#[test]
fn no_guard_when_num_ctx_unset() {
    let messages = user(&"x".repeat(4000));
    let parsed = sent(&backend(), &messages, &params());
    assert_eq!(
        str_at(&parsed, &["messages", "0", "content"]).len(),
        4000
    );
}

#[test]
fn the_guard_trips_at_the_estimate() {
    let messages = user(&"é".repeat(400));
    let p = params();
    let req = TurnRequest {
        system: None,
        messages: &messages,
        tools: &[],
        params: &p,
    };
    let body = build_request_body("m", None, None, &req).expect("body");
    let estimate = estimate_prompt_tokens(&body);
    assert_eq!(estimate, 100);
    assert!(backend().with_num_ctx(100).prepare(&req).is_err());
    assert!(backend().with_num_ctx(101).prepare(&req).is_ok());
}

#[test]
fn base_url_with_trailing_slash_is_normalized() {
    let backend = OllamaBackend::new("qwen3.6".to_string(), format!("{URL}//"));
    let messages = user_hi();
    let p = params();
    let req = TurnRequest {
        system: None,
        messages: &messages,
        tools: &[],
        params: &p,
    };
    let call = backend.prepare(&req).expect("prepared");
    assert_eq!(call.url, format!("{URL}/api/chat"));
}

#[test]
fn a_tool_without_some_of_its_parts_is_sent_without_them() {
    let wire = map_tool(&json(r#"{"name": "echo", "extra": 1}"#));
    assert_eq!(
        wire.to_text(),
        r#"{"function":{"name":"echo"},"type":"function"}"#
    );
}

#[test]
fn show_request_shape_is_correct() {
    let call = show_call(URL, "qwen3.6:35b", None);
    assert_eq!(call.url, format!("{URL}/api/show"));
    assert_eq!(call.body, json(r#"{"model": "qwen3.6:35b"}"#));
}

#[test]
fn show_bearer_present_when_api_key_set() {
    let call = show_call(URL, "qwen3.6:35b", Some("sk-test"));
    assert_eq!(call.authorization.as_deref(), Some("Bearer sk-test"));
}

#[test]
fn show_no_bearer_when_no_api_key() {
    let call = show_call(URL, "qwen3.6:35b", None);
    assert!(
        call.authorization.is_none(),
        "no api key => no Authorization header"
    );
}

fn show(model: &str, status: u16, body: &str) -> Result<ResolvedContextLength, ContextLengthError> {
    resolve_context_length(URL, model, Ok((status, body.to_string())))
}

fn malformed(body: &str) -> String {
    match show("m", 200, body).expect_err("must fail").kind {
        ContextLengthErrorKind::Malformed(msg) => msg,
        other => panic!("expected Malformed, got {other:?}"),
    }
}

#[test]
fn show_gptoss_decoy_regression() {
    let r = show(
        "gpt-oss:20b",
        200,
        r#"{"model_info": {
            "general.architecture": "gptoss",
            "gptoss.context_length": 131072,
            "gptoss.rope.scaling.original_context_length": 4096
        }}"#,
    )
    .expect("resolve ok");
    assert_eq!(r.value, 131_072);
    assert_eq!(r.architecture, "gptoss");
    assert_eq!(r.key, "gptoss.context_length");
}

#[test]
fn show_qwen35moe_pinned() {
    let r = show(
        "qwen3.6:35b",
        200,
        r#"{"model_info": {"general.architecture": "qwen35moe", "qwen35moe.context_length": 262144}}"#,
    )
    .expect("resolve ok");
    assert_eq!(r.value, 262_144);
    assert_eq!(r.architecture, "qwen35moe");
    assert_eq!(r.key, "qwen35moe.context_length");
}

#[test]
fn show_404_yields_status_error() {
    let err = show("x", 404, r#"{"error":"model 'x' not found"}"#).expect_err("must fail");
    assert!(matches!(
        err.kind,
        ContextLengthErrorKind::Status { status: 404, .. }
    ));
    let display = err.message();
    assert!(display.contains('x'), "should contain model id");
    assert!(display.contains("404"), "should contain status code");
    assert!(display.contains(URL) || display.contains("api/show"));
    assert_eq!(
        display,
        "could not resolve context length for model `x` from http://127.0.0.1:11434/api/show: HTTP 404: {\"error\":\"model 'x' not found\"}"
    );
}

#[test]
fn show_unreachable_yields_transport_error() {
    let err = resolve_context_length("http://127.0.0.1:1", "model", Err("refused".to_string()))
        .expect_err("must fail");
    assert!(
        matches!(err.kind, ContextLengthErrorKind::Transport(_)),
        "expected Transport, got {:?}",
        err.kind
    );
    assert!(err.message().ends_with("transport failure: refused"));
}

#[test]
fn show_malformed_not_json() {
    let msg = malformed("not json at all");
    assert!(msg.contains("body not JSON"), "got: {msg}");
}

#[test]
fn show_malformed_no_model_info() {
    let msg = malformed(r#"{"other_field": 1}"#);
    assert!(msg.contains("model_info missing"), "got: {msg}");
}

#[test]
fn show_malformed_model_info_not_object() {
    let msg = malformed(r#"{"model_info": []}"#);
    assert!(msg.contains("model_info not an object"), "got: {msg}");
}

#[test]
fn show_malformed_no_general_architecture() {
    let msg = malformed(r#"{"model_info": {"other.key": 1}}"#);
    assert!(
        msg.contains("model_info.general.architecture missing"),
        "got: {msg}"
    );
}

#[test]
fn show_malformed_architecture_not_string() {
    let msg = malformed(r#"{"model_info": {"general.architecture": 42}}"#);
    assert!(
        msg.contains("model_info.general.architecture not a string"),
        "got: {msg}"
    );
}

fn malformed_length(value: &str) -> String {
    malformed(&format!(
        r#"{{"model_info": {{"general.architecture": "myarch", "myarch.context_length": {value}}}}}"#
    ))
}

#[test]
fn show_malformed_context_length_missing() {
    let msg = malformed(r#"{"model_info": {"general.architecture": "myarch"}}"#);
    assert!(
        msg.contains("model_info.myarch.context_length missing"),
        "got: {msg}"
    );
}

#[test]
fn show_malformed_context_length_negative() {
    let msg = malformed_length("-1");
    assert!(
        msg.contains("model_info.myarch.context_length not a u32"),
        "got: {msg}"
    );
}

#[test]
fn show_malformed_context_length_string() {
    let msg = malformed_length("\"262144\"");
    assert!(
        msg.contains("model_info.myarch.context_length not a u32"),
        "got: {msg}"
    );
}

#[test]
fn show_malformed_context_length_too_large() {
    let msg = malformed_length("4294967296");
    assert!(
        msg.contains("model_info.myarch.context_length not a u32"),
        "got: {msg}"
    );
}

#[test]
fn show_malformed_context_length_zero() {
    let msg = malformed_length("0");
    assert!(
        msg.contains("model_info.myarch.context_length is zero"),
        "got: {msg}"
    );
}

#[test]
fn show_trailing_slash_base_url_is_tolerated() {
    let call = show_call(&format!("{URL}/"), "qwen3.6:35b", None);
    assert_eq!(call.url, format!("{URL}/api/show"));
    let err = resolve_context_length(&format!("{URL}/"), "m", Err("e".to_string())).unwrap_err();
    assert_eq!(err.url, format!("{URL}/api/show"));
}

#[test]
fn show_below_floor_value_returned_verbatim() {
    let body = json(r#"{"model_info": {"general.architecture": "qwen3", "qwen3.context_length": 8192}}"#);
    let r = length_in_show(Some(&body)).expect("resolve ok");
    assert_eq!(r.value, 8192);
    assert_eq!(r.architecture, "qwen3");
    assert_eq!(r.key, "qwen3.context_length");
}

fn found(value: u32, architecture: &str) -> ResolvedContextLength {
    ResolvedContextLength {
        value,
        architecture: architecture.to_string(),
        key: format!("{architecture}.context_length"),
    }
}

#[test]
fn num_ctx_empty_env_is_unset_not_parse_error() {
    for raw in ["", "   "] {
        assert!(!needs_probe("https://ollama.com", Some(raw)));
        let r = resolve_num_ctx("https://ollama.com", "m", Some(raw), None)
            .expect("empty env value must fall through, not Err");
        assert_eq!(r.value, None);
        assert_eq!(r.source, NumCtxSource::Default);
        assert_eq!(r.desc, "num_ctx=default");
        assert!(r.warning.is_none());
    }
}

#[test]
fn num_ctx_explicit_value_is_used_without_probe() {
    assert!(!needs_probe(URL, Some("65536")));
    let r = resolve_num_ctx(URL, "m", Some("65536"), None)
        .expect("explicit value must succeed without a probe");
    assert_eq!(r.value, Some(65_536));
    assert_eq!(r.source, NumCtxSource::Explicit);
    assert_eq!(r.desc, "num_ctx=65536 (explicit OLLAMA_NUM_CTX)");
    assert!(r.warning.is_none());
}

#[test]
fn num_ctx_bad_env_is_parse_error_with_untrimmed_raw() {
    for raw in ["not-a-number", " 12x ", " 12 ", "4294967296", "-1"] {
        let err = resolve_num_ctx("https://ollama.com", "m", Some(raw), None)
            .expect_err("non-u32 env value must be Err");
        assert!(
            err.contains(raw),
            "error must name the raw string `{raw}`: {err}"
        );
        assert!(
            err.contains("OLLAMA_NUM_CTX"),
            "error must name the var: {err}"
        );
    }
}

#[test]
fn num_ctx_local_probe_above_floor_is_probe() {
    assert!(needs_probe(URL, None));
    let probed = Some(Ok(found(262_144, "qwen35moe")));
    let r = resolve_num_ctx(URL, "qwen3.6:35b", None, probed).expect("probe must resolve");
    assert_eq!(r.value, Some(262_144));
    assert_eq!(r.source, NumCtxSource::Probe);
    assert!(r.desc.contains("resolved: arch="), "desc: {}", r.desc);
    assert!(r.desc.contains("key="), "desc: {}", r.desc);
    assert!(r.warning.is_none());
    assert_eq!(
        r.desc,
        "num_ctx=262144 (resolved: arch=qwen35moe key=qwen35moe.context_length)"
    );
}

#[test]
fn num_ctx_local_probe_below_floor_warns() {
    let probed = Some(Ok(found(8_192, "qwen3")));
    let r = resolve_num_ctx(URL, "qwen3:1b", None, probed)
        .expect("below floor is data, not a failure");
    assert_eq!(r.value, Some(8_192));
    assert_eq!(r.source, NumCtxSource::Probe);
    assert!(r.desc.contains("BELOW-FLOOR"), "desc: {}", r.desc);
    let w = r.warning.expect("below-floor must carry a warning");
    assert!(
        w.contains(&format!("BELOW the {MIN_EXPECTED_NUM_CTX} sanity floor")),
        "warning: {w}"
    );
    assert!(w.contains("set OLLAMA_NUM_CTX to override"), "warning: {w}");
}

#[test]
fn num_ctx_non_local_unset_is_default() {
    let r = resolve_num_ctx("https://ollama.com", "m", None, None)
        .expect("non-local unset must succeed");
    assert_eq!(r.value, None);
    assert_eq!(r.source, NumCtxSource::Default);
    assert_eq!(r.desc, "num_ctx=default");
    assert!(r.warning.is_none());
}

#[test]
fn num_ctx_probe_failure_is_err_naming_model_and_url() {
    let failed = show("m", 404, "{}").expect_err("no such model");
    let err = resolve_num_ctx(URL, "m", None, Some(Err(failed)))
        .expect_err("probe failure must be Err, never a fallback");
    assert!(err.contains('m'), "must name the model: {err}");
    assert!(err.contains(URL), "must name the server uri: {err}");
}

#[test]
fn is_local_ollama_url_gate() {
    assert!(is_local_ollama_url("http://localhost:11434"));
    assert!(is_local_ollama_url("http://127.0.0.1:11434"));
    assert!(!is_local_ollama_url("https://ollama.com"));
    assert!(!is_local_ollama_url("http://jason-desktop:11434"));
}

#[test]
fn num_ctx_source_as_str_mapping() {
    assert_eq!(NumCtxSource::Explicit.as_str(), "explicit");
    assert_eq!(NumCtxSource::Probe.as_str(), "probe");
    assert_eq!(NumCtxSource::Default.as_str(), "default");
    let r = NumCtxResolution {
        value: Some(1),
        source: NumCtxSource::Default,
        desc: "num_ctx=default".to_string(),
        warning: None,
    };
    assert_eq!(r.source.as_str(), "default");
}

#[test]
fn an_unresolved_call_id_is_quoted() {
    let messages = vec![Message::User {
        content: vec![result("a\"b\n", "orphan", false)],
    }];
    let p = params();
    let req = TurnRequest {
        system: None,
        messages: &messages,
        tools: &[],
        params: &p,
    };
    match build_request_body("m", None, None, &req) {
        Err(BackendError::Protocol { message, .. }) => assert_eq!(
            message,
            "tool result call_id \"a\\\"b\\n\" does not resolve to any prior assistant tool call"
        ),
        Err(other) => panic!("expected Protocol, got {other:?}"),
        Ok(_) => panic!("nothing may be sent"),
    }
}

#[test]
fn error_bodies_are_looked_at_in_lower_case() {
    let body = r#"{"error": "Model 'X' NOT FOUND"}"#;
    assert!(matches!(
        map_error_status(418, read_error(body), body),
        BackendError::Terminal {
            kind: TerminalKind::UnknownModel,
            message,
        } if message == "Model 'X' NOT FOUND"
    ));
    assert!(matches!(
        map_error_status(400, None, "Does Not Support Tools"),
        BackendError::Terminal {
            kind: TerminalKind::SchemaRejected,
            ..
        }
    ));
}
