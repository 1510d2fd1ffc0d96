use harness::engine::{FinishTool, FINISH_TOOL_NAME};
use harness::json;
use harness::json::Members;
use harness::prompt::{
    render_answer_prompt, render_answer_system_prompt, render_nudge_prompt, render_ralph_prompt,
    render_system_prompt, render_task_prompt, render_task_prompt_from_spec,
    render_task_prompt_from_spec_with, render_test_first_approach, render_verification_section,
    tool_lines, AnswerPromptTemplate, AnswerSystemPromptTemplate, NudgePromptTemplate,
    RalphPromptTemplate, ToolLine,
};
use harness::task_spec::{FileToModify, TaskSpec};
use harness::tool::{DeclaredTool, EchoTool, Tool, ToolRegistry};

const ANSWER_SYSTEM_PROMPT_GOLDEN: &str = "# Role

You are an autonomous read-only analyst operating inside a confined
workspace. Every path you emit or resolve is workspace-relative — the
workspace root is your world, and there is no filesystem outside it that you
should touch. Your deliverable is DATA, not a change: you investigate the
workspace and report a structured result.

# Tools available

- foo — does the foo thing
- bar — does the bar thing

# Read-only contract

This run must not modify the workspace. The harness observed the working tree
before your first turn and observes it again when you finish: an accepted
answer REQUIRES the tree to be unchanged since the run started. A modified
tree is rejected and fed back to you — revert your edits (restore tracked
files, delete files you created) and finish again.

That constraint is on the WORKSPACE, not on your thinking. Read, list, search
and run read-only shell commands freely. Do not write, move, or delete files,
and do not run commands that mutate the tree or its git state.

# Workflow

Orient before you conclude. List and read enough of the workspace to ground
the answer in what is actually there, and prefer citing a file and line you
read over recalling something you did not. Then assemble the result payload
the task's result schema describes, and finish.

# Steering semantics

Tool results that come back with `is_error: true` are recoverable guidance,
not fatal errors. Read the message carefully, adjust your approach, and try
again. Do not give up because a single tool call returned an error.

Long tool outputs are truncated in your view. When a result advertises a
full-output path (for example, \"full output at <path>\"), you can read the
untruncated contents via `read_file` on that path when the inline slice is
not enough.

# Disposition guidance

This run accepts exactly three terminal dispositions:

- `answer` — you investigated the question and have the deliverable. Supply a
  `result` that conforms to the run's configured result schema; the harness
  validates it and feeds any validation errors back to you rather than
  terminating the run. The working tree must be unchanged since the run
  started.
- `blocked` — the question or the environment is the problem: retrying the
  same run unchanged is guaranteed not to produce an answer until a human
  makes a decision. State exactly what decision is needed.
- `failed` — the attempt is the problem: something in how *this* run went
  wrong, and a fresh attempt might succeed. Summarize what went wrong.";

fn two_tools() -> Vec<ToolLine> {
    vec![
        ToolLine {
            name: "foo".to_string(),
            description: "does the foo thing".to_string(),
        },
        ToolLine {
            name: "bar".to_string(),
            description: "does the bar thing".to_string(),
        },
    ]
}

#[test]
fn system_prompt_lists_every_supplied_tool_name_and_description() {
    let tools = two_tools();
    let rendered = render_system_prompt(&tools, Some("cargo nextest run"));
    for tool in &tools {
        assert!(
            rendered.contains(&tool.name),
            "rendered prompt must contain tool name `{}`",
            tool.name
        );
        assert!(
            rendered.contains(&tool.description),
            "rendered prompt must contain description `{}`",
            tool.description
        );
    }
}

#[test]
fn system_prompt_pins_the_verification_contract_phrases() {
    let rendered = render_system_prompt(&[], Some("cargo nextest run"));
    assert!(
        rendered.contains("REJECTED") || rendered.contains("rejected"),
        "verification contract must state that a failed finish is rejected; got:\n{rendered}"
    );
    assert!(
        rendered.contains("run_checks"),
        "verification contract must reference the run_checks tool by name; got:\n{rendered}"
    );
    assert!(
        rendered.contains("verified"),
        "verification contract must speak of the fix being verified; got:\n{rendered}"
    );
}

#[test]
fn system_prompt_none_check_renders_no_checks_wording_not_rejection() {
    let rendered = render_system_prompt(&[], None);
    assert!(
        rendered.to_lowercase().contains("no checks"),
        "no-check variant must announce that no checks are configured; got:\n{rendered}"
    );
    assert!(
        !rendered.contains("run_checks"),
        "no-check variant must not reference the run_checks tool; got:\n{rendered}"
    );
    assert!(
        !rendered.contains("the checks pass"),
        "no-check variant must not promise a checks-based rejection; got:\n{rendered}"
    );
    assert!(
        rendered.contains("working tree is unchanged"),
        "no-check variant must still state the unchanged-tree rejection; got:\n{rendered}"
    );
}

#[test]
fn system_prompt_advertises_already_satisfied_on_both_check_branches() {
    for check in [Some("cargo nextest run"), None] {
        let rendered = render_system_prompt(&[], check);
        assert!(
            rendered.contains("already_satisfied"),
            "already_satisfied must render for checks={check:?}; got:\n{rendered}"
        );
    }
}

#[test]
fn system_prompt_pins_the_harness_owns_the_commit_contract() {
    for check in [Some("cargo nextest run"), None] {
        let rendered = render_system_prompt(&[], check);
        let flattened_chunks: Vec<String> = rendered
            .split("\n\n")
            .map(|chunk| chunk.split_whitespace().collect::<Vec<_>>().join(" "))
            .collect();
        let ownership_chunk = flattened_chunks
            .iter()
            .find(|chunk| chunk.contains("uncommitted"))
            .unwrap_or_else(|| {
                panic!(
                    "system prompt must contain the git-ownership paragraph \
                     for checks={check:?}; got:\n{rendered}"
                )
            });
        for literal in ["git add", "git commit", "git push", "owns", "uncommitted"] {
            assert!(
                ownership_chunk.contains(literal),
                "git-ownership paragraph must contain `{literal}` \
                 (checks={check:?}); got:\n{ownership_chunk}"
            );
        }
    }
    let rendered_none = render_system_prompt(&[], None);
    assert!(
        rendered_none.len() < 4000,
        "no-tools system prompt must stay under 4000 chars (anchor, never \
         compacted); got {}",
        rendered_none.len()
    );
}

#[test]
fn system_prompt_renders_check_command_string_verbatim() {
    let rendered = render_system_prompt(&[], Some("cargo test && cargo clippy"));
    assert!(rendered.contains("cargo test && cargo clippy"));
}

#[test]
fn special_characters_pass_through_unescaped() {
    let tools = vec![ToolLine {
        name: "quoted".to_string(),
        description: r#"handles "quotes" & <angles> and &amp; itself"#.to_string(),
    }];
    let rendered = render_system_prompt(&tools, Some("echo 5 > 3 && true"));

    assert!(rendered.contains(r#""quotes""#), "quotes preserved");
    assert!(rendered.contains("<angles>"), "angle brackets preserved");
    assert!(rendered.contains(" & "), "ampersand preserved");
    assert!(rendered.contains("5 > 3"), "> in check command preserved");

    assert!(
        !rendered.contains("&quot;"),
        "should not HTML-escape quotes"
    );
    assert!(!rendered.contains("&lt;"), "should not HTML-escape <");
    assert!(!rendered.contains("&gt;"), "should not HTML-escape >");
    assert!(
        !rendered.contains("&amp;amp;"),
        "the literal `&amp;` in the description should not be double-escaped"
    );
}

#[test]
fn rendering_is_byte_deterministic() {
    let tools = two_tools();
    let first = render_system_prompt(&tools, Some("cargo test"));
    let second = render_system_prompt(&tools, Some("cargo test"));
    assert_eq!(
        first.as_bytes(),
        second.as_bytes(),
        "same inputs must produce byte-identical output"
    );

    let a = render_system_prompt(&tools, None);
    let b = render_system_prompt(&tools, None);
    assert_eq!(a.as_bytes(), b.as_bytes());
}

#[test]
fn task_prompt_contains_the_task_verbatim() {
    let task = "Refactor the widget to support 5 > 3 & \"quoted\" input";
    let rendered = render_task_prompt(task);
    assert!(
        rendered.contains(task),
        "task prompt must include the task verbatim (no escaping); got:\n{rendered}"
    );
}

#[test]
fn task_prompt_rendering_is_byte_deterministic() {
    let first = render_task_prompt("do the thing");
    let second = render_task_prompt("do the thing");
    assert_eq!(first.as_bytes(), second.as_bytes());
}

fn declared<T: Tool>(tool: &T) -> DeclaredTool {
    DeclaredTool::new(tool.name().to_string(), tool.schema())
}

#[test]
fn tool_lines_extracts_from_the_registered_schemas() {
    let mut registry = ToolRegistry::new();
    registry.register("echo".to_string(), declared(&EchoTool));
    registry.register(
        FINISH_TOOL_NAME.to_string(),
        declared(&FinishTool::default()),
    );

    let lines = tool_lines(&registry);
    assert_eq!(lines.len(), 2);
    assert_eq!(lines[0].name, "echo");
    assert!(
        !lines[0].description.is_empty(),
        "EchoTool advertises a description"
    );
    assert_eq!(lines[1].name, FINISH_TOOL_NAME);
    assert!(
        lines[1].description.contains("End the run"),
        "FinishTool description should flow through unchanged; got `{}`",
        lines[1].description
    );
}

#[test]
fn tool_lines_tolerates_schema_without_description() {
    let mut registry = ToolRegistry::new();
    let mut input = Members::new();
    input.push("type", json::text("object"));
    let mut schema = Members::new();
    schema.push("name", json::text("bare"));
    schema.push("input_schema", input.object());
    registry.register(
        "bare".to_string(),
        DeclaredTool::new("bare".to_string(), schema.object()),
    );

    let lines = tool_lines(&registry);
    assert_eq!(lines.len(), 1);
    assert_eq!(lines[0].name, "bare");
    assert_eq!(
        lines[0].description, "",
        "missing description must degrade to empty string, not panic"
    );
}

#[test]
fn tool_lines_skips_schema_without_name() {
    let mut registry = ToolRegistry::new();
    let mut schema = Members::new();
    schema.push("description", json::text("orphan"));
    registry.register(
        "nameless".to_string(),
        DeclaredTool::new("nameless".to_string(), schema.object()),
    );

    let lines = tool_lines(&registry);
    assert!(
        lines.is_empty(),
        "a schema without a `name` field is filtered out; got {lines:?}"
    );
}

#[test]
fn tool_lines_from_empty_registry_is_empty() {
    let registry: ToolRegistry<DeclaredTool> = ToolRegistry::new();
    assert!(tool_lines(&registry).is_empty());
}

#[test]
fn tool_lines_feeds_render_system_prompt_end_to_end() {
    let mut registry = ToolRegistry::new();
    registry.register("echo".to_string(), declared(&EchoTool));
    registry.register(
        FINISH_TOOL_NAME.to_string(),
        declared(&FinishTool::default()),
    );

    let lines = tool_lines(&registry);
    let rendered = render_system_prompt(&lines, Some("cargo nextest run"));

    assert!(rendered.contains("echo"));
    assert!(rendered.contains(FINISH_TOOL_NAME));
    assert!(rendered.contains("End the run"));
}

fn sentinel_spec() -> TaskSpec {
    TaskSpec {
        title: "SENTINEL_TITLE".to_string(),
        description: "SENTINEL_DESC".to_string(),
        acceptance_criteria: vec!["SENTINEL_AC_1".to_string(), "SENTINEL_AC_2".to_string()],
        files_to_modify: vec![
            FileToModify {
                path: "SENTINEL_PATH_1".to_string(),
                change: "SENTINEL_CHANGE_1".to_string(),
            },
            FileToModify {
                path: "SENTINEL_PATH_2".to_string(),
                change: "SENTINEL_CHANGE_2".to_string(),
            },
        ],
        gate_command: "SENTINEL_GATE".to_string(),
    }
}

#[test]
fn render_task_prompt_from_spec_nine_sentinels() {
    let spec = sentinel_spec();
    let rendered = render_task_prompt_from_spec(&spec);

    assert!(rendered.contains("SENTINEL_TITLE"), "title must appear");
    assert!(
        rendered.contains("SENTINEL_DESC"),
        "description must appear"
    );
    assert!(rendered.contains("SENTINEL_AC_1"), "AC 1 must appear");
    assert!(rendered.contains("SENTINEL_AC_2"), "AC 2 must appear");
    assert!(rendered.contains("SENTINEL_PATH_1"), "path 1 must appear");
    assert!(
        rendered.contains("SENTINEL_CHANGE_1"),
        "change 1 must appear"
    );
    assert!(rendered.contains("SENTINEL_PATH_2"), "path 2 must appear");
    assert!(
        rendered.contains("SENTINEL_CHANGE_2"),
        "change 2 must appear"
    );
    assert!(
        rendered.contains("SENTINEL_GATE"),
        "gate_command must appear"
    );
}

#[test]
fn render_task_prompt_from_spec_empty_collections_no_panic() {
    let spec = TaskSpec {
        title: "TITLE_SENTINEL".to_string(),
        description: "DESC_SENTINEL".to_string(),
        acceptance_criteria: vec![],
        files_to_modify: vec![],
        gate_command: "GATE_SENTINEL".to_string(),
    };
    let rendered = render_task_prompt_from_spec(&spec);
    assert!(
        rendered.contains("TITLE_SENTINEL"),
        "title still renders with empty collections"
    );
    assert!(
        rendered.contains("DESC_SENTINEL"),
        "description still renders with empty collections"
    );
    assert!(
        rendered.contains("GATE_SENTINEL"),
        "gate_command still renders with empty collections"
    );
}

#[test]
fn render_task_prompt_from_spec_byte_deterministic() {
    let spec = sentinel_spec();
    let first = render_task_prompt_from_spec(&spec);
    let second = render_task_prompt_from_spec(&spec);
    assert_eq!(
        first.as_bytes(),
        second.as_bytes(),
        "same TaskSpec must produce byte-identical output"
    );
}

#[test]
fn render_task_prompt_from_spec_unescaped_passthrough() {
    let spec = TaskSpec {
        title: "T".to_string(),
        description: r#"handles "quotes" & <angles>"#.to_string(),
        acceptance_criteria: vec![r#"AC with "quotes" & <angles>"#.to_string()],
        files_to_modify: vec![],
        gate_command: "cargo test".to_string(),
    };
    let rendered = render_task_prompt_from_spec(&spec);

    assert!(
        rendered.contains(r#""quotes""#),
        "double quotes pass through"
    );
    assert!(rendered.contains("<angles>"), "angle brackets pass through");
    assert!(rendered.contains(" & "), "ampersand passes through");
    assert!(
        !rendered.contains("&quot;"),
        "should not HTML-escape quotes"
    );
    assert!(!rendered.contains("&lt;"), "should not HTML-escape <");
    assert!(!rendered.contains("&gt;"), "should not HTML-escape >");
}

#[test]
fn render_task_prompt_from_spec_bash_navigation_guidance() {
    let spec = TaskSpec {
        title: "T".to_string(),
        description: "D".to_string(),
        acceptance_criteria: vec![],
        files_to_modify: vec![],
        gate_command: "cargo test".to_string(),
    };
    let rendered = render_task_prompt_from_spec(&spec);
    assert!(
        rendered.contains("bash tool"),
        "files_to_modify section must contain affirmative bash-tool navigation guidance; \
         got:\n{rendered}"
    );
    assert!(
        !rendered.to_lowercase().contains("no search tool"),
        "files_to_modify section must NOT contain the old denial phrase 'No search tool'; \
         got:\n{rendered}"
    );
}

#[test]
fn render_task_prompt_from_spec_carries_test_first_framing() {
    let spec = TaskSpec {
        title: "T".to_string(),
        description: "D".to_string(),
        acceptance_criteria: vec![],
        files_to_modify: vec![],
        gate_command: "cargo test".to_string(),
    };
    let rendered = render_task_prompt_from_spec(&spec);
    assert!(
        rendered.contains("FIRST"),
        "approach section must instruct the model to write a failing test \
         first; got:\n{rendered}"
    );
    assert!(
        rendered.contains("Confirm it fails"),
        "test-first framing must require observing the RED state, not just \
         writing a test; got:\n{rendered}"
    );
    assert!(
        !rendered.contains("As soon as this command passes"),
        "the unconditional passing-gate phrasing is a trap on a repo whose \
         gate is already green; got:\n{rendered}"
    );
}

#[test]
fn test_first_toggle_strips_the_section_but_never_on_the_production_path() {
    let spec = TaskSpec {
        title: "T".to_string(),
        description: "D".to_string(),
        acceptance_criteria: vec![],
        files_to_modify: vec![],
        gate_command: "cargo test".to_string(),
    };
    let with = render_task_prompt_from_spec_with(&spec, true);
    let without = render_task_prompt_from_spec_with(&spec, false);

    assert!(with.contains("## Approach"), "got:\n{with}");
    assert!(!without.contains("## Approach"), "got:\n{without}");
    assert!(!without.contains("Confirm it fails"), "got:\n{without}");
    assert_eq!(with.replace(&render_test_first_approach(), ""), without);
    assert_eq!(render_task_prompt_from_spec(&spec), with);
    for r in [&with, &without] {
        assert!(r.contains("finish(done) immediately"), "got:\n{r}");
    }
}

#[test]
fn task_spec_prompt_embeds_the_shared_test_first_template_verbatim() {
    let shared = render_test_first_approach();
    let spec = TaskSpec {
        title: "T".to_string(),
        description: "D".to_string(),
        acceptance_criteria: vec![],
        files_to_modify: vec![],
        gate_command: "cargo test".to_string(),
    };
    let rendered = render_task_prompt_from_spec(&spec);
    assert!(
        rendered.contains(shared.trim_end()),
        "task-spec prompt must embed the shared approach template verbatim;\n\
         shared:\n{shared}\nrendered:\n{rendered}"
    );
    assert_eq!(shared, render_test_first_approach());
}

#[test]
fn render_task_prompt_from_spec_finish_discipline_framing() {
    let spec = TaskSpec {
        title: "T".to_string(),
        description: "D".to_string(),
        acceptance_criteria: vec![],
        files_to_modify: vec![],
        gate_command: "cargo test".to_string(),
    };
    let rendered = render_task_prompt_from_spec(&spec);
    assert!(
        rendered.contains("finish(done) immediately"),
        "verification section must instruct the model to call finish(done) \
         immediately after a passing check; got:\n{rendered}"
    );
}

#[test]
fn render_task_prompt_from_spec_no_top_level_heading() {
    let spec = sentinel_spec();
    let rendered = render_task_prompt_from_spec(&spec);
    for line in rendered.lines() {
        assert!(
            line != "# Task",
            "rendered slot content must not contain a line exactly equal to '# Task'; \
             got:\n{rendered}"
        );
        assert!(
            !line.starts_with("# "),
            "rendered slot content must not contain a top-level '# ' heading; \
             offending line: {line:?}; full output:\n{rendered}"
        );
    }
}

#[test]
fn verification_section_pins_no_reverify_line() {
    assert!(
        render_verification_section("cargo test").contains(
            "Do not re-verify individual acceptance criteria with extra reads or commands"
        ),
        "the anti-loop line must stay in verification_section.md"
    );
}

#[test]
fn render_task_prompt_from_spec_production_byte_identity() {
    const GOLDEN: &str = "## T\n\nD\n\n## Acceptance Criteria\n\n- a1\n\n## Files to Modify\n\nThe paths listed below are starting points for navigation — they are a map, not\na complete inventory. Use the bash tool (e.g., `grep`, `find`) to locate code\nwithin and around these files. Edit exactly what the task requires and no more;\nprefer edit_file for mutations (its unique-match contract is safer than sed -i).\n\n- `p`: c\n\n## Approach\n\nWrite a test that captures the acceptance criteria FIRST, before you change any\nother code, and run it. Confirm it fails, and that it fails for the reason you\nexpect — a test that passes before you have implemented anything is testing\nnothing. Then implement until it passes.\n\nIf the task genuinely has no test-shaped outcome (a pure refactor, a dependency\nbump, a docs or config change), state that in one line and go straight to the\nchange.\n## Verification\n\nRun the following command to verify the task is complete:\n\n    cargo test\n\nOnce your new test passes and this command is green, call finish(done) immediately.\nNote that this command may already be green before you start — a green gate on\nuntouched code means you have not begun, not that you are done.\nDo not re-verify individual acceptance criteria with extra reads or commands\nafter a passing check — the passing check IS the verification, and every\nadditional step spends your iteration budget without adding evidence.";
    let spec = TaskSpec {
        title: "T".to_string(),
        description: "D".to_string(),
        acceptance_criteria: vec!["a1".to_string()],
        files_to_modify: vec![FileToModify {
            path: "p".to_string(),
            change: "c".to_string(),
        }],
        gate_command: "cargo test".to_string(),
    };
    assert_eq!(render_task_prompt_from_spec(&spec), GOLDEN);
}

#[test]
fn render_task_prompt_from_spec_ends_with_shared_verification_section() {
    let spec = TaskSpec {
        title: "T".to_string(),
        description: "D".to_string(),
        acceptance_criteria: vec!["a1".to_string()],
        files_to_modify: vec![FileToModify {
            path: "p".to_string(),
            change: "c".to_string(),
        }],
        gate_command: "cargo test".to_string(),
    };
    assert!(
        render_task_prompt_from_spec(&spec)
            .ends_with(&render_verification_section(&spec.gate_command))
    );
    assert!(render_verification_section("X").starts_with("## Verification\n"));
    assert!(render_verification_section("X").contains("\n    X\n"));
}

#[test]
fn render_nudge_prompt_pins_exact_wording() {
    let rendered = render_nudge_prompt();
    let expected = "The quality gates are currently green. \
        If the acceptance criteria are met, call `finish(done)` now. \
        If nothing needed changing because the task was already complete, \
        call `finish(already_satisfied)` with a `reason`. \
        If they are not yet met, reply with a one-sentence status: \
        what remains, and why you are still working.";
    assert_eq!(
        rendered, expected,
        "nudge wording must match the pinned text exactly; got:\n{rendered}"
    );
}

#[test]
fn render_nudge_prompt_is_byte_deterministic() {
    let a = render_nudge_prompt();
    let b = render_nudge_prompt();
    assert_eq!(
        a.as_bytes(),
        b.as_bytes(),
        "same (empty) inputs must produce byte-identical nudge output"
    );
}

#[test]
fn nudge_prompt_template_renders_via_derive() {
    let via_struct = NudgePromptTemplate
    .render();
    let via_fn = render_nudge_prompt();
    assert_eq!(via_struct, via_fn);
}

#[test]
fn render_ralph_prompt_pins_phrases_and_injects_fields() {
    let objective = "SENTINEL_OBJECTIVE do the ralph thing";
    let notes = "SENTINEL_NOTES prior iteration journal";
    let notes_file = "SENTINEL_NOTES_FILE.md";
    let rendered = render_ralph_prompt(objective, notes, notes_file);

    assert!(
        rendered.contains("one thing — not one thing plus a quick refactor"),
        "ralph prompt must contain the literal discipline phrase; got:\n{rendered}"
    );

    assert!(
        rendered.contains("append"),
        "ralph prompt must instruct the agent to append; got:\n{rendered}"
    );
    assert!(
        rendered.contains(notes_file),
        "ralph prompt must name the injected notes file `{notes_file}`; got:\n{rendered}"
    );

    assert!(
        rendered.contains(objective),
        "ralph prompt must inject the objective verbatim; got:\n{rendered}"
    );
    assert!(
        rendered.contains(notes),
        "ralph prompt must inject the notes verbatim; got:\n{rendered}"
    );

    for line in rendered.lines() {
        assert!(
            !line.starts_with("# "),
            "ralph prompt must not contain a top-level '# ' heading; \
             offending line: {line:?}; full output:\n{rendered}"
        );
    }
}

#[test]
fn render_ralph_prompt_is_byte_deterministic() {
    let first = render_ralph_prompt("obj", "notes", "PROGRESS.md");
    let second = render_ralph_prompt("obj", "notes", "PROGRESS.md");
    assert_eq!(
        first.as_bytes(),
        second.as_bytes(),
        "same ralph inputs must produce byte-identical output"
    );
}

#[test]
fn render_ralph_prompt_empty_notes_renders() {
    let rendered = render_ralph_prompt("objective", "", "PROGRESS.md");
    assert!(rendered.contains("objective"));
    assert!(rendered.contains("PROGRESS.md"));
}

#[test]
fn ralph_prompt_template_renders_via_derive() {
    let via_struct = RalphPromptTemplate {
        objective: "obj",
        notes: "notes",
        notes_file: "PROGRESS.md",
    }
    .render();
    let via_fn = render_ralph_prompt("obj", "notes", "PROGRESS.md");
    assert_eq!(via_struct, via_fn);
}

fn gnarly_schema_text() -> &'static str {
    "{\"title\":\"q & a <v1>\",\"type\":\"object\",\"required\":[\"answer\"],\
     \"properties\":{\"answer\":{\"type\":\"string\"}},\"additionalProperties\":false}"
}

#[test]
fn render_answer_prompt_carries_question_and_schema_verbatim() {
    let question = "What does exit code 30 mean in this repo?";
    let rendered = render_answer_prompt(question, gnarly_schema_text());
    assert!(
        rendered.contains(question),
        "the question must appear verbatim; got:\n{rendered}"
    );
    assert!(
        rendered.contains(gnarly_schema_text()),
        "the schema text must appear verbatim; got:\n{rendered}"
    );
}

#[test]
fn render_answer_prompt_unescaped_passthrough() {
    let question = r#"why does "x" & <y> differ?"#;
    let rendered = render_answer_prompt(question, gnarly_schema_text());

    assert!(rendered.contains(r#""x""#), "double quotes pass through");
    assert!(rendered.contains("<y>"), "angle brackets pass through");
    assert!(rendered.contains(" & "), "ampersand passes through");
    assert!(!rendered.contains("&quot;"), "must not HTML-escape quotes");
    assert!(!rendered.contains("&lt;"), "must not HTML-escape <");
    assert!(!rendered.contains("&gt;"), "must not HTML-escape >");
    assert!(!rendered.contains("&amp;"), "must not HTML-escape &");
}

#[test]
fn render_answer_prompt_is_byte_deterministic() {
    let a = render_answer_prompt("q?", gnarly_schema_text());
    let b = render_answer_prompt("q?", gnarly_schema_text());
    assert_eq!(a, b, "re-rendering identical inputs must be byte-identical");
}

#[test]
fn render_answer_prompt_skeleton_is_pinned() {
    let question = "SENTINEL-QUESTION";
    let schema = "SENTINEL-SCHEMA";
    let rendered = render_answer_prompt(question, schema);

    let idx = |needle: &str| {
        rendered
            .find(needle)
            .unwrap_or_else(|| panic!("missing {needle:?} in:\n{rendered}"))
    };
    let q_heading = idx("## Question");
    let q_text = idx(question);
    let s_heading = idx("## Result schema");
    let fence_open = idx("```json\n");
    let s_text = idx(schema);
    let rules = idx("## Rules");

    assert!(q_heading < q_text, "the question follows `## Question`");
    assert!(
        q_text < s_heading,
        "`## Result schema` follows the question"
    );
    assert!(
        s_heading < fence_open,
        "the fence follows `## Result schema`"
    );
    assert!(fence_open < s_text, "the schema sits inside the fence");
    assert!(
        rendered[s_text..].contains("\n```"),
        "the json fence must be closed after the schema; got:\n{rendered}"
    );
    assert!(s_text < rules, "`## Rules` follows the schema fence");
}

#[test]
fn render_answer_prompt_no_top_level_heading() {
    let rendered = render_answer_prompt("q?", gnarly_schema_text());
    for line in rendered.lines() {
        assert!(
            !line.starts_with("# "),
            "rendered slot content must not contain a top-level '# ' heading; \
             offending line: {line:?}; full output:\n{rendered}"
        );
    }
}

#[test]
fn render_answer_prompt_frame_states_the_three_rules() {
    let rendered = render_answer_prompt("q?", gnarly_schema_text());
    assert!(
        rendered.contains("answering a question about the workspace"),
        "(a) the agent is answering a question about the workspace; got:\n{rendered}"
    );
    assert!(
        rendered.contains("must not modify"),
        "(b) it must not modify the workspace; got:\n{rendered}"
    );
    assert!(
        rendered.contains("makes the answer unacceptable"),
        "(b) a modified tree makes the answer unacceptable; got:\n{rendered}"
    );
    assert!(
        rendered.contains("finish(answer)"),
        "(c) it must end the run with finish(answer); got:\n{rendered}"
    );
    assert!(
        rendered.contains("`result` that matches the schema"),
        "(c) supplying a result that matches the schema shown; got:\n{rendered}"
    );
}

#[test]
fn render_answer_prompt_shows_the_schema_byte_for_byte() {
    let rendered = render_answer_prompt("q?", gnarly_schema_text());
    assert!(
        rendered.contains(gnarly_schema_text()),
        "the schema must appear byte-for-byte as supplied; got:\n{rendered}"
    );
    let t = rendered.find("\"title\"").expect("title key present");
    let ty = rendered.find("\"type\"").expect("type key present");
    assert!(t < ty, "source key order must survive; got:\n{rendered}");
}

#[test]
fn answer_prompt_template_struct_matches_the_free_function() {
    let via_struct = AnswerPromptTemplate {
        question: "q?",
        schema_text: gnarly_schema_text(),
    }
    .render();
    assert_eq!(via_struct, render_answer_prompt("q?", gnarly_schema_text()));
}

#[test]
fn render_answer_system_prompt_production_byte_identity() {
    const GOLDEN: &str = ANSWER_SYSTEM_PROMPT_GOLDEN;
    assert_eq!(render_answer_system_prompt(&two_tools()), GOLDEN);
}

#[test]
fn answer_system_prompt_lists_every_supplied_tool_name_and_description() {
    let tools = two_tools();
    let rendered = render_answer_system_prompt(&tools);
    for tool in &tools {
        assert!(
            rendered.contains(&tool.name),
            "rendered prompt must contain tool name `{}`",
            tool.name
        );
        assert!(
            rendered.contains(&tool.description),
            "rendered prompt must contain description `{}`",
            tool.description
        );
    }
}

#[test]
fn answer_system_prompt_names_only_the_three_answer_mode_terminals() {
    let rendered = render_answer_system_prompt(&[]);
    assert!(rendered.contains("answer"), "must name `answer`");
    assert!(rendered.contains("blocked"), "must name `blocked`");
    assert!(rendered.contains("failed"), "must name `failed`");
    assert!(
        !rendered.contains("already_satisfied"),
        "answer mode must not advertise already_satisfied; got:\n{rendered}"
    );
    assert!(
        !rendered.contains("`done`"),
        "answer mode must not advertise `done`; got:\n{rendered}"
    );
}

#[test]
fn answer_and_build_system_prompts_are_distinct_documents() {
    let tools = two_tools();
    assert_ne!(
        render_answer_system_prompt(&tools),
        render_system_prompt(&tools, None),
        "answer mode must render its own system prompt"
    );
}

#[test]
fn answer_system_prompt_template_struct_matches_the_free_function() {
    let tools = two_tools();
    let via_struct = AnswerSystemPromptTemplate { tools: &tools }
    .render();
    assert_eq!(via_struct, render_answer_system_prompt(&tools));
}
