use harness::engine::{FinishTool, FINISH_TOOL_NAME};
use harness::exec::{CheckCommand, ChecksRunner};
use harness::json::Json;
use harness::path::FilePath;
use harness::time::Duration;
use harness::tool::{Tool, ToolRegistry};
use harness::tools::{answer_registry, standard_registry, StandardTool};

fn runner() -> ChecksRunner {
    ChecksRunner::new(
        CheckCommand {
            program: "/bin/sh".to_string(),
            args: vec!["-c".to_string(), "exit 0".to_string()],
        },
        FilePath::from_text("/"),
        Duration::from_secs(10),
    )
}

fn names(registry: &ToolRegistry<StandardTool>) -> Vec<String> {
    registry
        .list()
        .into_iter()
        .filter_map(|s| s.text_at("name").map(str::to_string))
        .collect()
}

#[test]
fn registers_all_v1_tools_without_checks() {
    let registry = standard_registry(None);
    let got = names(&registry);
    assert_eq!(
        got,
        vec![
            "bash".to_string(),
            "edit_file".to_string(),
            FINISH_TOOL_NAME.to_string(),
            "list_files".to_string(),
            "read_file".to_string(),
        ],
        "no-checks registry excludes run_checks"
    );
}

#[test]
fn registers_run_checks_when_checks_are_supplied() {
    let registry = standard_registry(Some(runner()));
    let got = names(&registry);
    assert_eq!(
        got,
        vec![
            "bash".to_string(),
            "edit_file".to_string(),
            FINISH_TOOL_NAME.to_string(),
            "list_files".to_string(),
            "read_file".to_string(),
            "run_checks".to_string(),
        ],
        "with-checks registry includes run_checks"
    );
}

#[test]
fn each_registered_tool_is_get_able() {
    let registry = standard_registry(Some(runner()));
    for name in [
        "read_file",
        "list_files",
        "edit_file",
        "bash",
        FINISH_TOOL_NAME,
        "run_checks",
    ] {
        let tool = registry.get(name);
        assert!(
            tool.is_some(),
            "standard_registry must register `{name}`"
        );
        assert_eq!(tool.unwrap().name(), name);
    }
}

#[test]
fn answer_registry_is_read_only_without_checks() {
    let registry = answer_registry(None);
    let got = names(&registry);
    assert_eq!(
        got,
        vec![
            "bash".to_string(),
            FINISH_TOOL_NAME.to_string(),
            "list_files".to_string(),
            "read_file".to_string(),
        ],
        "the answer registry excludes edit_file and run_checks"
    );
    assert!(
        registry.get("edit_file").is_none(),
        "an answer run must not be handed edit_file"
    );
}

#[test]
fn answer_registry_adds_run_checks_but_still_no_edit_file() {
    let registry = answer_registry(Some(runner()));
    let got = names(&registry);
    assert_eq!(
        got,
        vec![
            "bash".to_string(),
            FINISH_TOOL_NAME.to_string(),
            "list_files".to_string(),
            "read_file".to_string(),
            "run_checks".to_string(),
        ],
        "with-checks answer registry includes run_checks, never edit_file"
    );
    assert!(
        registry.get("edit_file").is_none(),
        "an answer run must not be handed edit_file even with checks wired"
    );
}

fn dispositions(schema: &Json) -> Json {
    schema
        .get("input_schema")
        .and_then(|s| s.get("properties"))
        .and_then(|p| p.get("disposition"))
        .and_then(|d| d.get("enum"))
        .expect("disposition enum")
        .clone()
}

#[test]
fn answer_registry_advertises_the_answer_mode_finish_schema() {
    let answer = answer_registry(None);
    let finish = answer.get(FINISH_TOOL_NAME).expect("finish is registered");
    assert_eq!(
        dispositions(&finish.schema()),
        Json::parse(r#"["done", "blocked", "failed", "already_satisfied", "answer"]"#).unwrap(),
        "the answer registry advertises the answer-mode finish schema"
    );

    let standard = standard_registry(None);
    let finish = standard
        .get(FINISH_TOOL_NAME)
        .expect("finish is registered");
    assert_eq!(
        dispositions(&finish.schema()),
        Json::parse(r#"["done", "blocked", "failed", "already_satisfied"]"#).unwrap(),
        "standard_registry's finish schema is unchanged — no `answer`"
    );
}

#[test]
fn the_result_is_offered_in_answer_mode_only_and_never_required() {
    for (tool, offered) in [
        (FinishTool::default(), false),
        (FinishTool { answer_mode: true }, true),
    ] {
        let schema = tool.schema();
        let input = schema.get("input_schema").unwrap();
        let properties = input.get("properties").unwrap();
        assert_eq!(properties.get("result").is_some(), offered);
        assert_eq!(
            input.get("required"),
            Some(&Json::parse(r#"["disposition"]"#).unwrap())
        );
    }
}
