//! The inner loop, as the rest of the harness sees it: how a pass ended, what it
//! took, and the tool by which the model ends it.
use vstd::prelude::*;

use crate::json;
use crate::json::{Items, Json, JsonV, Members};
use crate::model::BackendError;
use crate::run_record::Disposition;
use crate::tool::Tool;

verus! {

/// The name that the finish tool is registered under.
pub const FINISH_TOOL_NAME: &'static str = "finish";

/// How one pass of the inner loop ended.
#[derive(Debug)]
pub enum LoopOutcome {
    /// The agent finished, with an accepted disposition.
    Finished(Disposition),
    /// The model stopped without finishing.
    StoppedWithoutFinish,
    /// The model could not be reached, or answered with an error.
    BackendError(BackendError),
    /// The inner loop made all the iterations that it may.
    MaxIterations,
    /// A budget of the inner loop was spent; the text says which.
    BudgetExhausted(String),
}

/// What one pass of the inner loop took.
#[derive(Debug, Clone, Copy, PartialEq, Eq, Structural)]
pub struct RunStats {
    pub iterations: u32,
}

/// The outcome is a finish with `done`: the only one that is kept.
pub open spec fn green(o: LoopOutcome) -> bool {
    o matches LoopOutcome::Finished(d) && d is Done
}

impl LoopOutcome {
    /// Whether the pass finished with `done`.
    pub fn is_green(&self) -> (r: bool)
        ensures
            r == green(*self),
    {
        match self {
            LoopOutcome::Finished(d) => match d {
                Disposition::Done { .. } => true,
                _ => false,
            },
            _ => false,
        }
    }

    /// Whether the pass ended on a backend error.
    pub fn is_backend_error(&self) -> (r: bool)
        ensures
            r == (*self is BackendError),
    {
        match self {
            LoopOutcome::BackendError(_) => true,
            _ => false,
        }
    }
}

// ---------------------------------------------------------------------------
// The finish tool
// ---------------------------------------------------------------------------

/// What the finish tool is, as told to the model.
pub const FINISH_DESCRIPTION: &'static str = "End the run with a disposition. The harness checks the claim before it accepts it; a claim that is not accepted comes back as an error, and the run goes on.";

/// What `disposition` is, as told to the model.
pub const DISPOSITION_DESCRIPTION: &'static str = "How the run ends.";

/// What `summary` is, as told to the model.
pub const SUMMARY_DESCRIPTION: &'static str = "What was done, or what went wrong.";

/// What `reason` is, as told to the model.
pub const REASON_DESCRIPTION: &'static str = "Why the run is blocked, or why nothing was left to do.";

/// What `result` is, as told to the model.
pub const RESULT_DESCRIPTION: &'static str = "The answer's payload.";

/// The tool by which the model ends a run.
#[derive(Debug, Clone, Copy)]
pub struct FinishTool {
    /// Whether the run is to end with an answer, not with a change.
    pub answer_mode: bool,
}

impl Default for FinishTool {
    fn default() -> (r: Self)
        ensures
            !r.answer_mode,
    {
        FinishTool { answer_mode: false }
    }
}

impl FinishTool {
    /// The dispositions that are offered, the answer last and only in answer
    /// mode.
    pub open spec fn dispositions(self) -> Seq<JsonV> {
        let plain = Seq::empty().push(JsonV::String("done"@)).push(JsonV::String("blocked"@)).push(
            JsonV::String("failed"@),
        ).push(JsonV::String("already_satisfied"@));
        if self.answer_mode {
            plain.push(JsonV::String("answer"@))
        } else {
            plain
        }
    }

    /// What the tool takes; a result only in answer mode.
    pub open spec fn properties(self) -> Seq<(Seq<char>, JsonV)> {
        let disposition = JsonV::Object(
            Seq::empty().push(("type"@, JsonV::String("string"@))).push(
                ("enum"@, JsonV::Array(self.dispositions())),
            ).push(("description"@, JsonV::String(DISPOSITION_DESCRIPTION@))),
        );
        let plain = Seq::empty().push(("disposition"@, disposition)).push(
            ("summary"@, json::typed("string"@, SUMMARY_DESCRIPTION@)),
        ).push(("reason"@, json::typed("string"@, REASON_DESCRIPTION@)));
        if self.answer_mode {
            plain.push(
                (
                    "result"@,
                    JsonV::Object(
                        Seq::empty().push(("description"@, JsonV::String(RESULT_DESCRIPTION@))),
                    ),
                ),
            )
        } else {
            plain
        }
    }
}

impl Tool for FinishTool {
    open spec fn name_view(&self) -> Seq<char> {
        FINISH_TOOL_NAME@
    }

    open spec fn schema_view(&self) -> JsonV {
        JsonV::Object(
            Seq::empty().push(("name"@, JsonV::String(FINISH_TOOL_NAME@))).push(
                ("description"@, JsonV::String(FINISH_DESCRIPTION@)),
            ).push(
                (
                    "input_schema"@,
                    JsonV::Object(
                        Seq::empty().push(("type"@, JsonV::String("object"@))).push(
                            ("properties"@, JsonV::Object(self.properties())),
                        ).push(
                            (
                                "required"@,
                                JsonV::Array(Seq::empty().push(JsonV::String("disposition"@))),
                            ),
                        ),
                    ),
                ),
            ),
        )
    }

    fn name(&self) -> (r: &str) {
        FINISH_TOOL_NAME
    }

    fn schema(&self) -> (r: Json) {
        let mut dispositions = Items::new();
        dispositions.push(json::text("done"));
        dispositions.push(json::text("blocked"));
        dispositions.push(json::text("failed"));
        dispositions.push(json::text("already_satisfied"));
        if self.answer_mode {
            dispositions.push(json::text("answer"));
        }
        let mut disposition = Members::new();
        disposition.push("type", json::text("string"));
        disposition.push("enum", dispositions.array());
        disposition.push("description", json::text(DISPOSITION_DESCRIPTION));
        let mut properties = Members::new();
        properties.push("disposition", disposition.object());
        properties.push("summary", json::property("string", SUMMARY_DESCRIPTION));
        properties.push("reason", json::property("string", REASON_DESCRIPTION));
        if self.answer_mode {
            let mut result = Members::new();
            result.push("description", json::text(RESULT_DESCRIPTION));
            properties.push("result", result.object());
        }
        let mut required = Items::new();
        required.push(json::text("disposition"));
        let mut input = Members::new();
        input.push("type", json::text("object"));
        input.push("properties", properties.object());
        input.push("required", required.array());
        let mut s = Members::new();
        s.push("name", json::text(FINISH_TOOL_NAME));
        s.push("description", json::text(FINISH_DESCRIPTION));
        s.push("input_schema", input.object());
        s.object()
    }
}

} // verus!
