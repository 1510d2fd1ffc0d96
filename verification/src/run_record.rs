//! The run record: the state that a run reduces over, and the events it logs.
//!
//! Durable state (phase, facts, budgets, gate result, disposition) is kept
//! apart from the disposable context (the messages), so that a run can start
//! over with a fresh context without losing its progress.
use std::collections::BTreeMap;

use vstd::prelude::*;

use crate::exec::CheckReport;
use crate::json::Json;
use crate::model::Message;

verus! {

/// The version of the record's format, carried on every [`RunRecord`].
pub const SCHEMA_VERSION: u32 = 2;

/// The state of one run.
#[derive(Debug, Clone, PartialEq)]
pub struct RunRecord {
    /// `{task_id}:{attempt_n}`, the same for every restart of an attempt.
    pub run_id: String,
    /// See [`SCHEMA_VERSION`].
    pub schema_version: u32,
    pub attempt_n: u32,
    /// The task as it was dispatched.
    pub task: Task,
    pub project_config: ProjectConfig,
    pub phase: Phase,
    pub durable_facts: DurableFacts,
    pub budgets: Budgets,
    /// The latest result of the checks; none before the first.
    pub last_gate_result: Option<GateResult>,
    /// None until the run is over.
    pub disposition: Option<Disposition>,
    /// Set only where the gates were green and the agent never finished.
    pub recovery_facts: Option<RecoveryFacts>,
    /// The model's context, which may be dropped.
    pub messages: Vec<Message>,
}

/// A groomed task, frozen at dispatch.
#[derive(Debug, Clone, PartialEq, Eq)]
pub struct Task {
    pub task_id: String,
    pub title: String,
    pub description: String,
    pub acceptance_criteria: Vec<AcceptanceCriterion>,
    pub files_in_scope: Vec<String>,
    /// What the task does not cover.
    pub scope_out: Vec<String>,
}

/// One acceptance criterion, with the check that verifies it, if any.
#[derive(Debug, Clone, PartialEq, Eq)]
pub struct AcceptanceCriterion {
    pub id: String,
    pub criterion: String,
    pub check: Option<String>,
}

/// Per-project settings.
#[derive(Debug, Clone, PartialEq, Eq)]
pub struct ProjectConfig {
    /// The commands of the gates, by their names.
    pub run_checks: BTreeMap<String, String>,
    pub model_routing_hint: Option<String>,
}

/// Where the outer control flow stands.
#[derive(Debug, Clone, Copy, PartialEq, Eq, Structural)]
pub enum Phase {
    Init,
    Orient,
    InnerLoop,
    Checks,
    Finalize,
    Done,
}

/// What survives a change of context: the checklist and the findings.
#[derive(Debug, Clone, PartialEq, Eq)]
pub struct DurableFacts {
    pub checklist: Vec<ChecklistItem>,
    pub findings: Vec<String>,
}

impl Default for DurableFacts {
    fn default() -> (r: Self)
        ensures
            r.checklist@.len() == 0,
            r.findings@.len() == 0,
    {
        DurableFacts { checklist: Vec::new(), findings: Vec::new() }
    }
}

/// One criterion and how far it has come.
#[derive(Debug, Clone, PartialEq, Eq)]
pub struct ChecklistItem {
    pub id: String,
    pub criterion: String,
    pub status: CriterionStatus,
}

/// How far a criterion has come. The agent claims; only the harness verifies,
/// and a verified criterion carries its evidence.
#[derive(Debug, Clone, PartialEq, Eq)]
pub enum CriterionStatus {
    NotStarted,
    InProgress,
    ClaimedDone,
    Verified(Evidence),
}

/// What backs a verified criterion, from the strongest to the weakest.
#[derive(Debug, Clone, PartialEq, Eq)]
pub enum Evidence {
    /// A check passed.
    Test { name: String, command: String },
    /// A judge model passed it.
    Judge { judge_id: String, rationale: String },
    /// No check can be automated.
    NeedsHuman,
}

/// What a run has spent and what it may spend.
#[derive(Debug, Clone, PartialEq, Eq)]
pub struct Budgets {
    pub consumed: BudgetConsumed,
    pub limits: BudgetLimits,
    /// When the run started, as text.
    pub wall_clock_start: String,
}

/// What a run has spent.
#[derive(Debug, Clone, Copy, PartialEq, Eq, Structural)]
pub struct BudgetConsumed {
    pub iterations: u32,
    pub tokens: u64,
    /// Millionths of a dollar.
    pub cost_micros: u64,
}

impl Default for BudgetConsumed {
    fn default() -> (r: Self)
        ensures
            r.iterations == 0,
            r.tokens == 0,
            r.cost_micros == 0,
    {
        BudgetConsumed { iterations: 0, tokens: 0, cost_micros: 0 }
    }
}

/// What a run may spend.
#[derive(Debug, Clone, Copy, PartialEq, Eq, Structural)]
pub struct BudgetLimits {
    pub iterations: u32,
    pub tokens: u64,
    pub cost_micros: u64,
}

/// The result of the checks, gate by gate.
#[derive(Debug, Clone, PartialEq, Eq)]
pub struct GateResult {
    /// Whether every gate passed.
    pub passed: bool,
    pub gates: BTreeMap<String, GateOutcome>,
}

/// The result of one gate.
#[derive(Debug, Clone, PartialEq, Eq)]
pub struct GateOutcome {
    pub passed: bool,
    pub summary: String,
    pub failure_extract: Option<String>,
}

/// What justifies a `done`.
#[derive(Debug, Clone, PartialEq)]
pub enum Verification {
    /// The checks were run and passed.
    Checks(CheckReport),
    /// There were no checks to run.
    NoChecksConfigured,
}

/// How a run ended.
#[derive(Debug, Clone, PartialEq)]
pub enum Disposition {
    /// It worked.
    Done { summary: String, verification: Verification },
    /// Trying again unchanged cannot help.
    Blocked { decision_needed: String },
    /// Trying again might help.
    Failed { mode: FailureMode, summary: String },
}

/// Why a failed run failed.
#[derive(Debug, Clone, Copy, PartialEq, Eq, Structural)]
pub enum FailureMode {
    Loop,
    BudgetExhausted,
    PersistentToolError,
    TransientInfra,
    StoppedWithoutFinish,
    /// The gates were green but the agent never finished.
    FinishDiscipline,
}

/// The report that goes with a disposition.
#[derive(Debug, Clone, PartialEq, Eq)]
pub struct DispositionReport {
    pub checklist_final: Vec<ChecklistItem>,
    pub budget_spent: BudgetConsumed,
    pub event_log_ref: String,
}

/// What the loop saw of a run that was ended though its gates were green.
#[derive(Debug, Clone, PartialEq, Eq)]
pub struct RecoveryFacts {
    pub gates_green_at_exit: bool,
    pub tree_dirty: bool,
    pub nudge_statuses: Vec<String>,
}

/// One entry of the event log. `seq` orders the entries of a run.
#[derive(Debug, Clone, PartialEq)]
pub enum Event {
    ModelCall { seq: u64, model: String, prompt_tokens: u64, completion_tokens: u64 },
    /// Logged before the call is made; paired with its result by `call_id`.
    ToolCallStarted { seq: u64, name: String, args: Json, call_id: String },
    ToolCallResult {
        seq: u64,
        name: String,
        is_error: bool,
        summary: String,
        offload_path: Option<String>,
    },
    PhaseTransition { seq: u64, from: Phase, to: Phase },
    BudgetTick { seq: u64, consumed: BudgetConsumed },
    DispositionSet { seq: u64, disposition: Disposition },
}

} // verus!
