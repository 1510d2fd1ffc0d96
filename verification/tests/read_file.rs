use std::cell::RefCell;

use harness::json;
use harness::json::{Json, Members};
use harness::path::FilePath;
use harness::tool::{OffloadSink, Tool, ToolCtx, ToolResult, DETAIL_CAP};
use harness::tools::read_file::{ReadFileTool, READ_FILE_TOOL_NAME};
use harness::workspace::{DirProbe, Workspace};

struct Kept(RefCell<Vec<String>>);

impl OffloadSink for Kept {
    fn offload(&self, contents: &str) -> FilePath {
        self.0.borrow_mut().push(contents.to_string());
        FilePath::from_text("/usr/offload-0000.txt")
    }
}

fn workspace() -> Workspace {
    let probe = |p: &str| DirProbe {
        path: FilePath::from_text(p),
        canonical: Some(FilePath::from_text(p)),
    };
    Workspace::from_probes(probe("/proc"), Some(probe("/usr"))).expect("workspace")
}

fn json_of(text: &str) -> Json {
    Json::parse(text).expect("valid JSON")
}

fn read_bytes(input: &str, bytes: &[u8]) -> ToolResult {
    let ctx = ToolCtx::stub();
    match ReadFileTool.plan(&json_of(input), &workspace()) {
        Ok((args, _)) => ReadFileTool.finish(&args, Ok(bytes.to_vec()), &ctx),
        Err(refusal) => refusal,
    }
}

fn read(input: &str, content: &str) -> ToolResult {
    read_bytes(input, content.as_bytes())
}

#[test]
fn tool_name_matches_constant() {
    assert_eq!(ReadFileTool.name(), READ_FILE_TOOL_NAME);
}

#[test]
fn reads_content_back_exactly() {
    let out = read(r#"{"path": "hello.txt"}"#, "hello world\n");
    assert!(!out.is_error, "unexpected error: {}", out.summary);
    assert_eq!(out.summary, "hello.txt: 1 lines");
    assert_eq!(out.detail.as_deref(), Some("hello world\n"));
    assert!(out.offload_path.is_none());
}

#[test]
fn offset_and_limit_slice_one_based() {
    let out = read(
        r#"{"path": "f.txt", "offset": 2, "limit": 2}"#,
        "l1\nl2\nl3\nl4\n",
    );
    assert!(!out.is_error);
    assert_eq!(out.summary, "f.txt: 2 lines");
    assert_eq!(out.detail.as_deref(), Some("l2\nl3"));
}

#[test]
fn offset_only_returns_from_offset_to_end() {
    let out = read(r#"{"path": "f.txt", "offset": 2}"#, "a\nb\nc\n");
    assert!(!out.is_error);
    assert_eq!(out.summary, "f.txt: 2 lines");
    assert_eq!(out.detail.as_deref(), Some("b\nc"));
}

#[test]
fn limit_only_returns_from_start() {
    let out = read(r#"{"path": "f.txt", "limit": 2}"#, "a\nb\nc\n");
    assert!(!out.is_error);
    assert_eq!(out.summary, "f.txt: 2 lines");
    assert_eq!(out.detail.as_deref(), Some("a\nb"));
}

#[test]
fn null_offset_and_limit_are_treated_as_missing() {
    let out = read(r#"{"path": "f.txt", "offset": null, "limit": null}"#, "hi");
    assert!(!out.is_error);
    assert_eq!(out.detail.as_deref(), Some("hi"));
}

#[test]
fn offset_out_of_range_reports_line_count() {
    let out = read(r#"{"path": "small.txt", "offset": 10}"#, "only\n");
    assert!(out.is_error);
    assert!(out.summary.contains("small.txt"), "names the file");
    assert!(out.summary.contains("1 lines"), "states the line count");
    assert_eq!(
        out.summary,
        "read_file: offset 10 is past the end of `small.txt` (1 lines)"
    );
}

#[test]
fn zero_offset_is_steering_error() {
    let out = read(r#"{"path": "f.txt", "offset": 0}"#, "a\n");
    assert!(out.is_error);
    assert!(out.summary.contains("1-based"));
}

#[test]
fn missing_file_is_steering_error_naming_path() {
    let (args, target) = ReadFileTool
        .plan(&json_of(r#"{"path": "no-such.txt"}"#), &workspace())
        .expect("planned");
    assert_eq!(target, FilePath::from_text("/proc/no-such.txt"));
    let failed = Err("No such file or directory (os error 2)".to_string());
    let out = ReadFileTool.finish(&args, failed, &ToolCtx::stub());
    assert!(out.is_error);
    assert_eq!(
        out.summary,
        "read_file: cannot read `no-such.txt`: No such file or directory (os error 2)"
    );
}

#[test]
fn parent_traversal_is_steering_error() {
    let out = read(r#"{"path": "../escape"}"#, "");
    assert!(out.is_error);
    assert!(out.summary.contains("../escape"));
    assert!(out.summary.contains("workspace"));
}

#[test]
fn absolute_non_offload_path_is_steering_error() {
    let out = read(r#"{"path": "/etc/hostname"}"#, "");
    assert!(out.is_error);
    assert!(out.summary.contains("/etc/hostname"));
    assert!(out.summary.contains("relative"));
}

#[test]
fn absolute_path_under_offload_root_is_readable() {
    let out = read(r#"{"path": "/usr/offload-0000.txt"}"#, "payload");
    assert!(!out.is_error, "unexpected error: {}", out.summary);
    assert_eq!(out.detail.as_deref(), Some("payload"));
}

#[test]
fn file_over_detail_cap_truncates_and_offloads() {
    let body = "a".repeat(DETAIL_CAP + 500);
    let ctx = ToolCtx::new(Kept(RefCell::new(Vec::new())));
    let (args, _) = ReadFileTool
        .plan(&json_of(r#"{"path": "big.txt"}"#), &workspace())
        .expect("planned");
    let out = ReadFileTool.finish(&args, Ok(body.clone().into_bytes()), &ctx);
    assert!(!out.is_error);
    let detail = out.detail.expect("detail present");
    assert!(detail.contains("truncated"), "detail flagged truncated");
    assert_eq!(
        out.offload_path,
        Some(FilePath::from_text("/usr/offload-0000.txt"))
    );
    assert_eq!(*ctx.sink.0.borrow(), vec![body]);
}

#[test]
fn non_utf8_bytes_are_lossy_and_noted_in_summary() {
    let out = read_bytes(r#"{"path": "weird.bin"}"#, &[b'a', 0xFF, b'b']);
    assert!(!out.is_error);
    assert_eq!(
        out.summary,
        "weird.bin: 1 lines (non-UTF-8 bytes replaced with U+FFFD)"
    );
    assert_eq!(out.detail.as_deref(), Some("a\u{fffd}b"));
}

#[test]
fn schema_is_parseable_json_and_names_all_three_properties() {
    let schema = ReadFileTool.schema();
    assert!(matches!(schema, Json::Object(_)), "schema is a JSON object");
    assert_eq!(schema.text_at("name"), Some(READ_FILE_TOOL_NAME));
    let text = schema.to_text();
    let reparsed = Json::parse(&text).expect("reparse");
    let input = reparsed.get("input_schema").expect("input schema");
    let props = input.get("properties").expect("properties");
    for name in ["path", "offset", "limit"] {
        assert!(
            matches!(props.get(name), Some(Json::Object(_))),
            "{name} property present"
        );
    }
    assert_eq!(input.get("required"), Some(&json_of(r#"["path"]"#)));
    let desc = reparsed.text_at("description").unwrap().to_lowercase();
    assert!(desc.contains("raw"), "description mentions RAW: {desc}");
    assert!(
        desc.contains("no line-number") || desc.contains("no line number"),
        "description mentions no line-number prefixes: {desc}"
    );
    assert!(
        desc.contains("offload"),
        "description mentions offload paths: {desc}"
    );
}

#[test]
fn missing_path_field_is_steering_error() {
    let out = read("{}", "");
    assert!(out.is_error);
    assert!(out.summary.contains("path"));
}

#[test]
fn non_string_path_field_is_steering_error() {
    let out = read(r#"{"path": 42}"#, "");
    assert!(out.is_error);
    assert!(out.summary.contains("path"));
}

#[test]
fn non_integer_offset_is_steering_error() {
    let out = read(r#"{"path": "x", "offset": "two"}"#, "");
    assert!(out.is_error);
    assert!(out.summary.contains("offset"));
}

#[test]
fn non_integer_limit_is_steering_error() {
    let out = read(r#"{"path": "x", "limit": -1}"#, "");
    assert!(out.is_error);
    assert!(out.summary.contains("limit"));
}

#[test]
fn empty_file_reports_zero_lines() {
    let out = read(r#"{"path": "empty.txt"}"#, "");
    assert!(!out.is_error);
    assert_eq!(out.summary, "empty.txt: 0 lines");
    assert_eq!(out.detail.as_deref(), Some(""));
}

#[test]
fn slices_of_a_file_fit_together() {
    let content = "a\r\nb\n\nd";
    let mut front = Members::new();
    front.push("path", json::text("f"));
    front.push("limit", json::number(2));
    let mut back = Members::new();
    back.push("path", json::text("f"));
    back.push("offset", json::number(3));
    let show = |m: Members| read(&m.object().to_text(), content).detail.unwrap();
    assert_eq!(format!("{}\n{}", show(front), show(back)), content);
}

#[test]
fn a_slice_is_a_passage_of_the_file() {
    let out = read(r#"{"path": "f", "limit": 2}"#, "a\r\nb\r\n");
    assert_eq!(out.summary, "f: 2 lines");
    assert_eq!(out.detail.as_deref(), Some("a\r\nb"));
    for content in ["a\r\nb\r\nc\r", "\r\n\n\r\n", "x\ry\nz\n", "\n", "é\r\nü"] {
        let lines: Vec<&str> = content.lines().collect();
        for first in 1..=lines.len() {
            for count in 0..=lines.len() {
                let input = format!(r#"{{"path": "f", "offset": {first}, "limit": {count}}}"#);
                let out = read(&input, content);
                let detail = out.detail.expect("a detail");
                assert!(content.contains(&detail), "{content:?} {detail:?}");
                let last = lines.len().min(first - 1 + count);
                assert_eq!(
                    detail.lines().collect::<Vec<_>>().join("|").trim_end_matches('|'),
                    lines[first - 1..last].join("|").trim_end_matches('|')
                );
            }
        }
    }
}

#[test]
fn an_offset_into_an_empty_file_gives_nothing() {
    let out = read(r#"{"path": "f", "offset": 18446744073709551615, "limit": 0}"#, "");
    assert!(!out.is_error);
    assert_eq!(out.summary, "f: 0 lines");
    assert_eq!(out.detail.as_deref(), Some(""));
}
