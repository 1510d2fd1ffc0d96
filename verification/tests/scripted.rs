use harness::json::Json;
use harness::model::{
    AssistantTurn, BackendError, ContentBlock, Message, SamplingParams, StopReason, TerminalKind,
    ToolCallRequest, TransientKind, TurnRequest, Usage, UserBlock,
};
use harness::test_support::MockBackend;

fn turn(text: &str) -> AssistantTurn {
    AssistantTurn {
        content: vec![ContentBlock::Text(text.to_string())],
        stop_reason: StopReason::EndTurn,
        usage: Usage {
            input_tokens: 1,
            output_tokens: 1,
            cache_read_tokens: None,
            cache_write_tokens: None,
            reasoning_tokens: None,
        },
    }
}

fn params() -> SamplingParams {
    SamplingParams {
        max_tokens: 1,
        temperature: None,
        stop_sequences: vec![],
    }
}

fn history() -> Vec<Message> {
    vec![
        Message::User {
            content: vec![UserBlock::Text("hi".to_string())],
        },
        Message::Assistant {
            content: vec![
                ContentBlock::Reasoning {
                    text: "hm".to_string(),
                    opaque: Some("sig".to_string()),
                },
                ContentBlock::ToolCall(ToolCallRequest {
                    id: "c1".to_string(),
                    name: "echo".to_string(),
                    input: Json::parse(r#"{"i": [1, null]}"#).expect("valid JSON"),
                }),
            ],
        },
        Message::User {
            content: vec![UserBlock::ToolResult {
                call_id: "c1".to_string(),
                content: "out".to_string(),
                is_error: true,
            }],
        },
    ]
}

#[test]
fn a_script_is_followed_in_order_and_then_fails() {
    let p = params();
    let messages = history();
    let ask = |n: usize, system| TurnRequest {
        system,
        messages: &messages[..n],
        tools: &[],
        params: &p,
    };
    let mut backend = MockBackend::new(vec![
        Ok(turn("one")),
        Err(BackendError::Transient {
            kind: TransientKind::Network,
            retry_after: None,
        }),
    ]);
    assert_eq!(backend.calls(), 0);
    assert!(backend.last_messages().is_empty());
    assert_eq!(backend.turn(&ask(1, Some("sys"))).expect("first"), turn("one"));
    assert!(matches!(
        backend.turn(&ask(3, None)),
        Err(BackendError::Transient { .. })
    ));
    for _ in 0..2 {
        assert!(matches!(
            backend.turn(&ask(1, None)),
            Err(BackendError::Terminal { kind: TerminalKind::Other, message })
                if message == "MockBackend script exhausted (over-drawn)"
        ));
    }
    assert_eq!(backend.calls(), 4);
    assert_eq!(
        backend.systems_seen(),
        vec![Some("sys".to_string()), None, None, None]
    );
    assert_eq!(backend.last_messages(), messages[..1].to_vec());
    assert_eq!(backend.messages_seen()[1], messages);
    assert_eq!(backend.messages_seen().len(), 4);
}

#[test]
fn turns_make_a_script() {
    let p = params();
    let req = TurnRequest {
        system: None,
        messages: &[],
        tools: &[],
        params: &p,
    };
    let mut backend = MockBackend::from_turns(vec![turn("a"), turn("b")]);
    assert_eq!(backend.turn(&req).expect("a").text(), "a");
    assert_eq!(backend.turn(&req).expect("b").text(), "b");
    assert!(backend.turn(&req).is_err());
}
