use std::fmt;

use harness::json::{Json, Number};
use harness::model::{
    AssistantTurn, BackendError, ContentBlock, Message, SamplingParams, StopReason, TerminalKind,
    ToolCallRequest, TransientKind, TurnRequest, Usage, UserBlock,
};
use harness::time::Duration;

fn json(text: &str) -> Json {
    Json::parse(text).expect("valid JSON")
}

fn sample_tool_call() -> ToolCallRequest {
    ToolCallRequest {
        id: "call-1".to_string(),
        name: "read_file".to_string(),
        input: json(r#"{ "path": "src/lib.rs" }"#),
    }
}

fn sample_usage() -> Usage {
    Usage {
        input_tokens: 1024,
        output_tokens: 256,
        cache_read_tokens: Some(800),
        cache_write_tokens: Some(128),
        reasoning_tokens: Some(64),
    }
}

fn sample_assistant_turn() -> AssistantTurn {
    AssistantTurn {
        content: vec![
            ContentBlock::Text("starting up".to_string()),
            ContentBlock::Reasoning {
                text: "let me look at the file".to_string(),
                opaque: Some("sig-abc".to_string()),
            },
            ContentBlock::ToolCall(sample_tool_call()),
            ContentBlock::Text(" — and then continue".to_string()),
        ],
        stop_reason: StopReason::ToolUse,
        usage: sample_usage(),
    }
}

#[test]
fn usage_absent_is_distinct_from_zero() {
    let absent = Usage {
        input_tokens: 1,
        output_tokens: 1,
        cache_read_tokens: None,
        cache_write_tokens: None,
        reasoning_tokens: None,
    };
    let zero = Usage {
        input_tokens: 1,
        output_tokens: 1,
        cache_read_tokens: Some(0),
        cache_write_tokens: Some(0),
        reasoning_tokens: Some(0),
    };
    assert_ne!(absent, zero);
}

#[test]
fn text_concatenates_only_text_blocks_in_order() {
    let turn = sample_assistant_turn();
    assert_eq!(turn.text(), "starting up — and then continue");
}

#[test]
fn text_empty_when_no_text_blocks() {
    let turn = AssistantTurn {
        content: vec![
            ContentBlock::Reasoning {
                text: "x".to_string(),
                opaque: None,
            },
            ContentBlock::ToolCall(sample_tool_call()),
        ],
        stop_reason: StopReason::ToolUse,
        usage: sample_usage(),
    };
    assert_eq!(turn.text(), "");
}

#[test]
fn tool_calls_returns_each_call_in_order() {
    let c1 = ToolCallRequest {
        id: "id-1".to_string(),
        name: "a".to_string(),
        input: json("{}"),
    };
    let c2 = ToolCallRequest {
        id: "id-2".to_string(),
        name: "b".to_string(),
        input: json(r#"{"x": 1}"#),
    };
    let turn = AssistantTurn {
        content: vec![
            ContentBlock::Text("intro".to_string()),
            ContentBlock::ToolCall(c1.clone()),
            ContentBlock::Reasoning {
                text: "midway".to_string(),
                opaque: None,
            },
            ContentBlock::ToolCall(c2.clone()),
        ],
        stop_reason: StopReason::ToolUse,
        usage: sample_usage(),
    };
    let calls = turn.tool_calls();
    assert_eq!(calls.len(), 2);
    assert_eq!(calls[0], &c1);
    assert_eq!(calls[1], &c2);
}

#[test]
fn tool_calls_empty_when_no_tool_use() {
    let turn = AssistantTurn {
        content: vec![ContentBlock::Text("just words".to_string())],
        stop_reason: StopReason::EndTurn,
        usage: sample_usage(),
    };
    assert!(turn.tool_calls().is_empty());
}

#[test]
fn from_assistant_turn_yields_assistant_message_with_identical_content() {
    let turn = sample_assistant_turn();
    let content_clone = turn.content.clone();
    let msg: Message = turn.into();
    match msg {
        Message::Assistant { content } => {
            assert_eq!(
                content, content_clone,
                "Message::Assistant.content must equal the turn's content"
            );
        }
        Message::User { .. } => panic!("expected Assistant variant"),
    }
}

#[test]
fn is_retryable_is_true_only_for_transient() {
    let transient_kinds = [
        TransientKind::RateLimit,
        TransientKind::Overloaded,
        TransientKind::ServerError,
        TransientKind::Network,
        TransientKind::Timeout,
    ];
    for kind in transient_kinds {
        let with_hint = BackendError::Transient {
            kind,
            retry_after: Some(Duration::from_secs(2)),
        };
        assert!(with_hint.is_retryable(), "Transient {kind:?} retryable");
        let without_hint = BackendError::Transient {
            kind,
            retry_after: None,
        };
        assert!(without_hint.is_retryable());
        let _ = with_hint.message();
    }

    let ctx = BackendError::ContextLengthExceeded;
    assert!(!ctx.is_retryable());
    assert!(ctx.message().contains("context length"));

    for kind in [
        TerminalKind::Auth,
        TerminalKind::BadRequest,
        TerminalKind::UnknownModel,
        TerminalKind::SchemaRejected,
        TerminalKind::Other,
    ] {
        let term = BackendError::Terminal {
            kind,
            message: format!("term: {kind:?}"),
        };
        assert!(!term.is_retryable(), "Terminal {kind:?} not retryable");
        assert!(term.message().contains("terminal"));
    }

    let proto = BackendError::Protocol {
        message: "unparsable".to_string(),
        raw: Some("{not json".to_string()),
    };
    assert!(!proto.is_retryable());
    let proto_no_raw = BackendError::Protocol {
        message: "schema drift".to_string(),
        raw: None,
    };
    assert!(!proto_no_raw.is_retryable());
    assert!(proto.message().contains("protocol"));
    assert!(proto_no_raw.message().contains("protocol"));
}

#[derive(Debug)]
struct Shown(BackendError);

impl fmt::Display for Shown {
    fn fmt(&self, f: &mut fmt::Formatter<'_>) -> fmt::Result {
        f.write_str(&self.0.message())
    }
}

impl std::error::Error for Shown {}

#[test]
fn backend_error_implements_std_error() {
    fn assert_error<E: std::error::Error>(e: &E) -> String {
        e.to_string()
    }
    let e = Shown(BackendError::ContextLengthExceeded);
    assert_eq!(assert_error(&e), "context length exceeded");
}

#[test]
fn turn_request_borrows_compose() {
    let messages = vec![
        Message::User {
            content: vec![UserBlock::Text("hi".to_string())],
        },
        Message::Assistant {
            content: vec![ContentBlock::Text("hello".to_string())],
        },
    ];
    let tools: Vec<Json> = vec![json(r#"{"name": "echo"}"#)];
    let params = SamplingParams {
        max_tokens: 256,
        temperature: Some(Number::Other("0.0".to_string())),
        stop_sequences: vec![],
    };
    let req = TurnRequest {
        system: Some("you are a harness"),
        messages: &messages,
        tools: &tools,
        params: &params,
    };
    assert_eq!(req.system, Some("you are a harness"));
    assert_eq!(req.messages.len(), 2);
    assert_eq!(req.tools.len(), 1);
    assert_eq!(req.params.max_tokens, 256);
}

#[test]
fn backend_errors_say_what_happened() {
    let transient = |retry_after| BackendError::Transient {
        kind: TransientKind::Network,
        retry_after,
    };
    assert_eq!(
        transient(None).message(),
        "transient backend failure (Network; retry_after=None)"
    );
    assert_eq!(
        transient(Some(Duration {
            secs: 1,
            nanos: 500_000_000
        }))
        .message(),
        "transient backend failure (Network; retry_after=Some(1.5s))"
    );
    assert_eq!(
        BackendError::ContextLengthExceeded.message(),
        "context length exceeded"
    );
    let terminal = BackendError::Terminal {
        kind: TerminalKind::Auth,
        message: "no key".to_string(),
    };
    assert_eq!(terminal.message(), "terminal backend failure (Auth): no key");
    let protocol = BackendError::Protocol {
        message: "not JSON".to_string(),
        raw: Some("<html>".to_string()),
    };
    assert_eq!(protocol.message(), "protocol error: not JSON");
}
