use harness::exec::{CheckCommand, CheckReport, ChecksRunner, ExecOutcome, ExecSpec};
use harness::json::Json;
use harness::path::FilePath;
use harness::time::Duration;
use harness::tool::{Tool, ToolCtx, ToolResult, DETAIL_CAP};
use harness::tools::bash::BashTool;
use harness::tools::command::show_code;
use harness::tools::run_checks::RunChecksTool;
use harness::tools::run_command::RunCommandTool;

const ROOT: &str = "/work";

fn json(text: &str) -> Json {
    Json::parse(text).expect("valid JSON")
}

fn outcome(exit_code: Option<i32>, stdout: &str) -> ExecOutcome {
    ExecOutcome {
        exit_code,
        stdout: stdout.to_string(),
        stderr: String::new(),
        timed_out: false,
    }
}

fn timeout() -> ExecOutcome {
    ExecOutcome {
        exit_code: None,
        stdout: String::new(),
        stderr: String::new(),
        timed_out: true,
    }
}

fn bash(input: &str, outcome: ExecOutcome) -> (Option<ExecSpec>, ToolResult) {
    match BashTool.plan(&json(input), &FilePath::from_text(ROOT)) {
        Ok(spec) => {
            let result = BashTool.finish(&spec, &outcome, "1.5s", &ToolCtx::stub());
            (Some(spec), result)
        }
        Err(result) => (None, result),
    }
}

fn run_command(input: &str, outcome: ExecOutcome) -> (Option<ExecSpec>, ToolResult) {
    match RunCommandTool.plan(&json(input), &FilePath::from_text(ROOT)) {
        Ok(spec) => {
            let result = RunCommandTool.finish(&spec, &outcome, "1.5s", &ToolCtx::stub());
            (Some(spec), result)
        }
        Err(result) => (None, result),
    }
}

#[test]
fn bash_happy_path_reports_exit_zero_and_output() {
    let (spec, out) = bash(
        r#"{ "command": "echo hi-there" }"#,
        outcome(Some(0), "hi-there\n"),
    );
    assert!(!out.is_error);
    assert!(
        out.summary.starts_with("exit 0 ("),
        "summary: {}",
        out.summary
    );
    assert!(out.detail.unwrap().contains("hi-there"));
    let spec = spec.unwrap();
    assert_eq!(spec.program, "sh");
    assert_eq!(spec.args, vec!["-c", "echo hi-there"]);
    assert_eq!(spec.cwd, FilePath::from_text(ROOT));
    assert_eq!(spec.timeout, Duration::from_secs(300));
}

#[test]
fn bash_failing_command_sets_is_error() {
    let (_, out) = bash(r#"{ "command": "exit 5" }"#, outcome(Some(5), ""));
    assert!(out.is_error);
    assert!(
        out.summary.starts_with("exit 5 ("),
        "summary: {}",
        out.summary
    );
    assert_eq!(out.summary, "exit 5 (1.5s)");
}

#[test]
fn bash_timeout_path_sets_is_error_and_summary() {
    let (spec, out) = bash(r#"{ "command": "sleep 30", "timeout_secs": 1 }"#, timeout());
    assert!(out.is_error);
    assert!(
        out.summary.contains("timed out after 1s"),
        "summary: {}",
        out.summary
    );
    assert_eq!(spec.unwrap().timeout, Duration::from_secs(1));
}

#[test]
fn bash_spawn_failure_reports_unknown_exit_as_error() {
    let (_, out) = bash(
        r#"{ "command": "/no/such/program-xyzzy" }"#,
        outcome(Some(127), ""),
    );
    assert!(out.is_error);
    assert!(out.summary.starts_with("exit "), "summary: {}", out.summary);
}

#[test]
fn bash_large_output_offloads() {
    let (_, out) = bash(
        r#"{ "command": "yes" }"#,
        outcome(Some(0), &"aaaaaaaaaaaaaaaaaaaaaaaaaaaaaaaaaaaa\n".repeat(1000)),
    );
    assert!(!out.is_error);
    assert!(out.offload_path.is_some(), "large output should offload");
    let detail = out.detail.expect("detail present");
    assert!(
        detail.contains("truncated"),
        "detail should be flagged truncated"
    );
    assert!(detail.chars().count() <= DETAIL_CAP + 200);
}

#[test]
fn bash_missing_command_is_a_steering_error() {
    let (spec, out) = bash("{}", outcome(Some(0), ""));
    assert!(spec.is_none());
    assert!(out.is_error);
    assert!(out.summary.contains("requires a `command`"));
}

#[test]
fn bash_non_integer_timeout_is_rejected() {
    let (spec, out) = bash(
        r#"{ "command": "true", "timeout_secs": "soon" }"#,
        outcome(Some(0), ""),
    );
    assert!(spec.is_none());
    assert!(out.is_error);
    assert!(out.summary.contains("positive integer"));
}

#[test]
fn bash_oversized_timeout_is_clamped_and_still_runs() {
    let (spec, out) = bash(
        r#"{ "command": "echo ok", "timeout_secs": 100000 }"#,
        outcome(Some(0), "ok\n"),
    );
    assert!(!out.is_error);
    assert!(out.detail.unwrap().contains("ok"));
    assert_eq!(spec.unwrap().timeout, Duration::from_secs(600));
}

#[test]
fn bash_schema_advertises_name_and_required_command() {
    let schema = BashTool.schema();
    assert_eq!(schema.text_at("name"), Some("bash"));
    let input = schema.get("input_schema").unwrap();
    assert_eq!(input.get("required"), Some(&json(r#"["command"]"#)));
    assert!(
        input.get("properties").unwrap().get("args").is_none(),
        "bash schema must not advertise an `args` field"
    );
}

#[test]
fn name_is_bash() {
    assert_eq!(BashTool.name(), "bash");
}

#[test]
fn run_command_happy_path_reports_exit_zero_and_output() {
    let (spec, out) = run_command(
        r#"{ "command": "/bin/sh", "args": ["-c", "echo hi-there"] }"#,
        outcome(Some(0), "hi-there\n"),
    );
    assert!(!out.is_error);
    assert!(
        out.summary.starts_with("exit 0 ("),
        "summary: {}",
        out.summary
    );
    assert_eq!(
        out.detail.unwrap(),
        "--- stdout ---\nhi-there\n\n--- stderr ---\n"
    );
    let spec = spec.unwrap();
    assert_eq!(spec.program, "/bin/sh");
    assert_eq!(spec.args, vec!["-c", "echo hi-there"]);
    assert_eq!(spec.cwd, FilePath::from_text(ROOT));
}

#[test]
fn run_command_failing_command_sets_is_error() {
    let (_, out) = run_command(
        r#"{ "command": "/bin/sh", "args": ["-c", "exit 5"] }"#,
        outcome(Some(5), ""),
    );
    assert!(out.is_error);
    assert!(
        out.summary.starts_with("exit 5 ("),
        "summary: {}",
        out.summary
    );
}

#[test]
fn run_command_timeout_path_sets_is_error_and_summary() {
    let (_, out) = run_command(
        r#"{ "command": "/bin/sh", "args": ["-c", "sleep 30"], "timeout_secs": 1 }"#,
        timeout(),
    );
    assert!(out.is_error);
    assert!(
        out.summary.contains("timed out after 1s"),
        "summary: {}",
        out.summary
    );
}

#[test]
fn run_command_spawn_failure_reports_unknown_exit_as_error() {
    let (_, out) = run_command(
        r#"{ "command": "/no/such/program-xyzzy" }"#,
        outcome(None, ""),
    );
    assert!(out.is_error);
    assert!(
        out.summary.starts_with("exit unknown ("),
        "summary: {}",
        out.summary
    );
}

#[test]
fn run_command_large_output_offloads() {
    let (_, out) = run_command(
        r#"{ "command": "yes" }"#,
        outcome(Some(0), &"aaaaaaaaaaaaaaaaaaaaaaaaaaaaaaaaaaaa\n".repeat(1000)),
    );
    assert!(!out.is_error);
    assert!(out.offload_path.is_some(), "large output should offload");
    let detail = out.detail.expect("detail present");
    assert!(
        detail.contains("truncated"),
        "detail should be flagged truncated"
    );
    assert!(detail.chars().count() <= DETAIL_CAP + 200);
}

#[test]
fn run_command_missing_command_is_a_steering_error() {
    let (_, out) = run_command("{}", outcome(Some(0), ""));
    assert!(out.is_error);
    assert!(out.summary.contains("requires a `command`"));
}

#[test]
fn non_string_args_element_is_rejected() {
    let (_, out) = run_command(
        r#"{ "command": "/bin/sh", "args": [1, 2] }"#,
        outcome(Some(0), ""),
    );
    assert!(out.is_error);
    assert!(out.summary.contains("array of strings"));
}

#[test]
fn non_array_args_is_rejected() {
    let (_, out) = run_command(
        r#"{ "command": "/bin/sh", "args": "oops" }"#,
        outcome(Some(0), ""),
    );
    assert!(out.is_error);
    assert!(out.summary.contains("array of strings"));
}

#[test]
fn run_command_non_integer_timeout_is_rejected() {
    let (_, out) = run_command(
        r#"{ "command": "/bin/sh", "args": ["-c", "true"], "timeout_secs": "soon" }"#,
        outcome(Some(0), ""),
    );
    assert!(out.is_error);
    assert!(out.summary.contains("positive integer"));
}

#[test]
fn run_command_oversized_timeout_is_clamped_and_still_runs() {
    let (spec, out) = run_command(
        r#"{ "command": "/bin/sh", "args": ["-c", "echo ok"], "timeout_secs": 100000 }"#,
        outcome(Some(0), "ok\n"),
    );
    assert!(!out.is_error);
    assert!(out.detail.unwrap().contains("ok"));
    assert_eq!(spec.unwrap().timeout, Duration::from_secs(600));
}

#[test]
fn run_command_schema_advertises_name_and_required_command() {
    let schema = RunCommandTool.schema();
    assert_eq!(schema.text_at("name"), Some("run_command"));
    assert_eq!(
        schema.get("input_schema").unwrap().get("required"),
        Some(&json(r#"["command"]"#))
    );
}

#[test]
fn name_is_run_command() {
    assert_eq!(RunCommandTool.name(), "run_command");
}

#[test]
fn null_and_zero_inputs_of_commands() {
    let (spec, _) = run_command(
        r#"{ "command": "ls", "args": null, "timeout_secs": null }"#,
        outcome(Some(0), ""),
    );
    let spec = spec.unwrap();
    assert!(spec.args.is_empty());
    assert_eq!(spec.timeout, Duration::from_secs(300));
    let (spec, _) = bash(
        r#"{ "command": "ls", "timeout_secs": 0 }"#,
        outcome(Some(0), ""),
    );
    assert_eq!(spec.unwrap().timeout, Duration::from_secs(1));
    let (spec, out) = bash(
        r#"{ "command": "ls", "timeout_secs": -1 }"#,
        outcome(Some(0), ""),
    );
    assert!(spec.is_none());
    assert!(out.is_error);
}

#[test]
fn exit_codes_are_shown_with_their_sign() {
    assert_eq!(show_code(Some(0)), "0");
    assert_eq!(show_code(Some(-11)), "-11");
    assert_eq!(show_code(Some(i32::MIN)), "-2147483648");
    assert_eq!(show_code(None), "unknown");
}

fn checks_tool(script: &str) -> RunChecksTool {
    RunChecksTool::new(ChecksRunner::new(
        CheckCommand {
            program: "/bin/sh".to_string(),
            args: vec!["-c".to_string(), script.to_string()],
        },
        FilePath::from_text("/"),
        Duration::from_secs(10),
    ))
}

fn report(passed: bool, exit_code: Option<i32>, timed_out: bool) -> CheckReport {
    CheckReport {
        passed,
        exit_code,
        timed_out,
        duration: Duration::from_secs(2),
        excerpt: "checkoutput".to_string(),
        offload_path: None,
    }
}

#[test]
fn passing_checks_report_ok() {
    let tool = checks_tool("exit 0");
    let out = tool.finish(&report(true, Some(0), false), "2s", &ToolCtx::stub());
    assert!(!out.is_error);
    assert!(
        out.summary.starts_with("checks passed ("),
        "summary: {}",
        out.summary
    );
}

#[test]
fn failing_checks_report_exit_code_and_error() {
    let tool = checks_tool("exit 4");
    let out = tool.finish(&report(false, Some(4), false), "2s", &ToolCtx::stub());
    assert!(out.is_error);
    assert!(
        out.summary.contains("checks FAILED: exit 4"),
        "summary: {}",
        out.summary
    );
}

#[test]
fn timed_out_checks_report_timeout() {
    let tool = checks_tool("sleep 30");
    let out = tool.finish(&report(false, None, true), "2s", &ToolCtx::stub());
    assert!(out.is_error);
    assert!(
        out.summary.contains("checks FAILED: timed out"),
        "summary: {}",
        out.summary
    );
}

#[test]
fn spawn_failure_reports_unknown_exit() {
    let tool = checks_tool("true");
    let out = tool.finish(&report(false, None, false), "2s", &ToolCtx::stub());
    assert!(out.is_error);
    assert!(
        out.summary.contains("checks FAILED: exit unknown"),
        "summary: {}",
        out.summary
    );
}

#[test]
fn detail_notes_offload_path() {
    let tool = checks_tool("echo checkoutput");
    let mut report = report(true, Some(0), false);
    report.offload_path = Some(FilePath::from_text("/out/offload-0000.txt"));
    let out = tool.finish(&report, "2s", &ToolCtx::stub());
    assert!(out.offload_path.is_some());
    let detail = out.detail.expect("detail present");
    assert!(detail.contains("checkoutput"));
    assert!(detail.contains("full check output"));
    assert_eq!(
        detail,
        "checkoutput\n\n[full check output: /out/offload-0000.txt]"
    );
}

#[test]
fn schema_takes_no_required_args() {
    let schema = checks_tool("true").schema();
    assert_eq!(schema.text_at("name"), Some("run_checks"));
    assert!(schema
        .get("input_schema")
        .unwrap()
        .get("required")
        .is_none());
}

#[test]
fn name_is_run_checks() {
    assert_eq!(checks_tool("true").name(), "run_checks");
}
