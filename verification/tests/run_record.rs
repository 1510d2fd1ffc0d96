use std::collections::BTreeMap;

use harness::json::Json;
use harness::model::{ContentBlock, Message, ToolCallRequest, UserBlock};
use harness::run_record::{
    AcceptanceCriterion, BudgetConsumed, BudgetLimits, Budgets, ChecklistItem, CriterionStatus,
    DurableFacts, Evidence, FailureMode, GateOutcome, GateResult, Phase, ProjectConfig, RunRecord,
    Task, SCHEMA_VERSION,
};

fn sample_run_record() -> RunRecord {
    let mut run_checks = BTreeMap::new();
    run_checks.insert("fmt".to_string(), "cargo fmt --check".to_string());
    let mut gates = BTreeMap::new();
    gates.insert(
        "clippy".to_string(),
        GateOutcome {
            passed: false,
            summary: "1 warning".to_string(),
            failure_extract: Some("warning: unused variable `x`".to_string()),
        },
    );
    RunRecord {
        run_id: "run-2026-06-22-abc".to_string(),
        schema_version: SCHEMA_VERSION,
        attempt_n: 1,
        task: Task {
            task_id: "t".to_string(),
            title: "title".to_string(),
            description: "description".to_string(),
            acceptance_criteria: vec![AcceptanceCriterion {
                id: "ac1".to_string(),
                criterion: "round-trips".to_string(),
                check: Some("cargo nextest run".to_string()),
            }],
            files_in_scope: vec!["src/lib.rs".to_string()],
            scope_out: vec![],
        },
        project_config: ProjectConfig {
            run_checks,
            model_routing_hint: Some("sonnet".to_string()),
        },
        phase: Phase::InnerLoop,
        durable_facts: DurableFacts {
            checklist: vec![ChecklistItem {
                id: "ac1".to_string(),
                criterion: "round-trips".to_string(),
                status: CriterionStatus::Verified(Evidence::NeedsHuman),
            }],
            findings: vec!["a finding".to_string()],
        },
        budgets: Budgets {
            consumed: BudgetConsumed {
                iterations: 7,
                tokens: 12_345,
                cost_micros: 6_780,
            },
            limits: BudgetLimits {
                iterations: 50,
                tokens: 1_000_000,
                cost_micros: 5_000_000,
            },
            wall_clock_start: "2026-06-22T00:00:00Z".to_string(),
        },
        last_gate_result: Some(GateResult {
            passed: false,
            gates,
        }),
        disposition: None,
        recovery_facts: None,
        messages: vec![
            Message::User {
                content: vec![UserBlock::Text("Do the task.".to_string())],
            },
            Message::Assistant {
                content: vec![ContentBlock::ToolCall(ToolCallRequest {
                    id: "c1".to_string(),
                    name: "read_file".to_string(),
                    input: Json::parse(r#"{ "path": "src/lib.rs" }"#).unwrap(),
                })],
            },
        ],
    }
}

#[test]
fn schema_version_constant_is_what_we_publish() {
    assert_eq!(SCHEMA_VERSION, 2);
    assert_eq!(sample_run_record().schema_version, SCHEMA_VERSION);
}

#[test]
fn small_types_are_copy_and_clone() {
    let p = Phase::Done;
    let p2 = p;
    assert_eq!(p, p2);

    let m = FailureMode::TransientInfra;
    let m2 = m;
    assert_eq!(m, m2);

    let bc = BudgetConsumed {
        iterations: 1,
        tokens: 2,
        cost_micros: 3,
    };
    let bc2 = bc;
    assert_eq!(bc, bc2);

    let bl = BudgetLimits {
        iterations: 10,
        tokens: 20,
        cost_micros: 30,
    };
    let bl2 = bl;
    assert_eq!(bl, bl2);
}

#[test]
fn record_clone_is_equal_to_source() {
    let r = sample_run_record();
    let cloned = r.clone();
    assert_eq!(r, cloned);
}

#[test]
fn defaults_are_empty_and_zero() {
    let facts = DurableFacts::default();
    assert!(facts.checklist.is_empty());
    assert!(facts.findings.is_empty());
    let spent = BudgetConsumed::default();
    assert_eq!((spent.iterations, spent.tokens, spent.cost_micros), (0, 0, 0));
}
