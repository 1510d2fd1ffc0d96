use harness::json;
use harness::json::{Json, Members};
use harness::path::FilePath;
use harness::tool::{
    DeclaredTool, EchoTool, OffloadSink, StubOffloadSink, Tool, ToolCtx, ToolRegistry, ToolResult,
    DETAIL_CAP,
};

fn json_of(text: &str) -> Json {
    Json::parse(text).expect("valid JSON")
}

#[test]
fn ok_and_error_constructors_set_flags() {
    let ok = ToolResult::ok("done".to_string());
    assert!(!ok.is_error);
    assert_eq!(ok.summary, "done");
    assert!(ok.detail.is_none());
    assert!(ok.offload_path.is_none());

    let err = ToolResult::error("boom".to_string());
    assert!(err.is_error);
    assert_eq!(err.summary, "boom");
}

#[test]
fn detail_under_cap_passes_through() {
    let ctx = ToolCtx::stub();
    let small = "a".repeat(DETAIL_CAP);
    let result = ToolResult::with_detail("sum".to_string(), small.clone(), &ctx);

    assert_eq!(result.detail.as_deref(), Some(small.as_str()));
    assert!(result.offload_path.is_none());
    assert!(!result.is_error);
}

#[test]
fn detail_over_cap_truncates_and_flags() {
    let ctx = ToolCtx::stub();
    let big = "b".repeat(DETAIL_CAP + 500);
    let result = ToolResult::with_detail("sum".to_string(), big, &ctx);

    let detail = result.detail.expect("detail present");
    assert!(
        detail.contains("truncated"),
        "detail should be flagged truncated"
    );
    assert!(
        detail.starts_with(&"b".repeat(DETAIL_CAP)),
        "inline copy keeps the first {DETAIL_CAP} chars"
    );
    let kept = detail.split('\n').next().unwrap();
    assert_eq!(kept.chars().count(), DETAIL_CAP);
    assert_eq!(result.offload_path, Some(FilePath::from_text("<offload-stub>")));
}

#[test]
fn stub_sink_returns_placeholder_path() {
    let sink = StubOffloadSink;
    assert_eq!(sink.offload("anything"), FilePath::from_text("<offload-stub>"));
    let ctx = ToolCtx::new(StubOffloadSink);
    assert_eq!(ctx.offload("x"), FilePath::from_text("<offload-stub>"));
}

#[test]
fn schema_is_parseable_json_object() {
    let schema = EchoTool.schema();
    assert!(
        matches!(schema, Json::Object(_)),
        "schema must be a JSON object"
    );
    let text = schema.to_text();
    let reparsed = Json::parse(&text).expect("reparse schema");
    assert_eq!(reparsed.text_at("name"), Some("echo"));
}

#[test]
fn echo_tool_returns_input_as_summary() {
    let out = EchoTool.run(&json_of(r#"{"hello": "world"}"#));
    assert!(!out.is_error);
    assert_eq!(out.summary, r#"{"hello":"world"}"#);
}

#[test]
fn registry_register_get_list_and_invoke() {
    let mut registry = ToolRegistry::new();
    registry.register("echo".to_string(), EchoTool);

    assert!(registry.get("echo").is_some());

    let schemas = registry.list();
    assert_eq!(schemas.len(), 1);
    assert_eq!(schemas[0].text_at("name"), Some("echo"));

    let tool = registry.invoke("echo").expect("registered");
    let out = tool.run(&json_of(r#"{"k": 1}"#));
    assert!(!out.is_error);
    assert_eq!(out.summary, r#"{"k":1}"#);
}

#[test]
fn unknown_tool_returns_structured_error_not_panic() {
    let registry: ToolRegistry<EchoTool> = ToolRegistry::default();
    let out = registry.invoke("does_not_exist").expect_err("unknown");

    assert!(out.is_error);
    assert!(out.summary.contains("does_not_exist"));
    assert_eq!(
        out.summary,
        "unknown tool `does_not_exist`: not registered (registered tools are the only callable surface)"
    );
    assert!(registry.get("does_not_exist").is_none());
}

#[test]
fn register_replaces_existing_name() {
    let mut registry = ToolRegistry::new();
    registry.register("echo".to_string(), EchoTool);
    registry.register("echo".to_string(), EchoTool);
    assert_eq!(registry.list().len(), 1);
}

fn named(name: &str) -> DeclaredTool {
    let mut schema = Members::new();
    schema.push("name", json::text(name));
    DeclaredTool::new(name.to_string(), schema.object())
}

fn listed(order: &[&str]) -> Vec<String> {
    let mut registry = ToolRegistry::new();
    for name in order {
        registry.register(name.to_string(), named(name));
    }
    registry
        .list()
        .iter()
        .map(|s| s.text_at("name").unwrap().to_string())
        .collect()
}

#[test]
fn the_order_of_registration_does_not_show() {
    let expected = vec!["a", "ab", "b", "é"];
    assert_eq!(listed(&["b", "a", "é", "ab"]), expected);
    assert_eq!(listed(&["é", "ab", "b", "a", "b"]), expected);
}

#[test]
fn a_cut_detail_names_the_path_and_the_cap() {
    let ctx = ToolCtx::stub();
    let big = "é".repeat(DETAIL_CAP + 1);
    let result = ToolResult::with_detail("sum".to_string(), big, &ctx);
    let expected = format!(
        "{}\n…[truncated at 25000 chars; full output at <offload-stub>]",
        "é".repeat(DETAIL_CAP)
    );
    assert_eq!(result.detail, Some(expected));
    assert_eq!(result.summary, "sum");
}
