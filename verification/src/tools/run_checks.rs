//! The `run_checks` tool: runs the checks that the task is configured with. The
//! same checks decide whether a finish is accepted.
use vstd::prelude::*;

use crate::exec::{CheckReport, ChecksRunner};
use crate::json;
use crate::json::{Json, JsonV, Members};
use crate::path::{opt_view, shown};
use crate::text;
use crate::text::concat;
use crate::tool;
use crate::tool::{OffloadSink, Tool, ToolCtx, ToolResult};
use crate::tools::command;
use crate::tools::command::show_code;

verus! {

/// What the tool is, as told to the model.
pub const DESCRIPTION: &'static str = "Run the task's configured quality checks (the project's declared gates). Takes no arguments — the checks are fixed by project config, not chosen by you. This is the mechanical done-oracle: when you finish with status `done`, the harness re-runs these exact checks to verify the claim, so a green result here is the bar you must clear.";

/// The `run_checks` tool, with the checks that it runs.
#[derive(Debug, Clone)]
pub struct RunChecksTool {
    pub runner: ChecksRunner,
}

/// The summary of a run of the checks; `duration` is how long they took, as text.
pub open spec fn checks_summary(report: CheckReport, duration: Seq<char>) -> Seq<char> {
    if report.passed {
        "checks passed ("@ + duration + ")"@
    } else if report.timed_out {
        "checks FAILED: timed out ("@ + duration + ")"@
    } else {
        "checks FAILED: exit "@ + command::shown_code(report.exit_code) + " ("@ + duration
            + ")"@
    }
}

/// The excerpt of a run of the checks, and where the whole output is.
pub open spec fn checks_detail(report: CheckReport) -> Seq<char> {
    match report.offload_path {
        Some(path) => report.excerpt@ + "\n\n[full check output: "@ + shown(path@) + "]"@,
        None => report.excerpt@,
    }
}

impl RunChecksTool {
    /// The tool for these checks.
    #[must_use]
    pub fn new(runner: ChecksRunner) -> (r: Self)
        ensures
            r.runner == runner,
    {
        RunChecksTool { runner }
    }

    /// The result of running the checks. It is a problem for the model unless
    /// they passed, and names the path that the checks' own output is at.
    /// `duration` is how long they took, as text.
    pub fn finish<S: OffloadSink>(
        &self,
        report: &CheckReport,
        duration: &str,
        ctx: &ToolCtx<S>,
    ) -> (r: ToolResult)
        ensures
            exists|plain: ToolResult|
                #[trigger] tool::detailed(
                    *ctx,
                    checks_summary(*report, duration@),
                    checks_detail(*report),
                    plain,
                ) && r.summary == plain.summary && r.detail == plain.detail,
            opt_view(r.offload_path) == opt_view(report.offload_path),
            r.is_error == !report.passed,
    {
        let mut summary = String::new();
        if report.passed {
            summary = concat("checks passed (", duration);
        } else if report.timed_out {
            summary = concat("checks FAILED: timed out (", duration);
        } else {
            summary = concat("checks FAILED: exit ", show_code(report.exit_code).as_str());
            summary.append(" (");
            summary.append(duration);
        }
        summary.append(")");
        let mut detail = report.excerpt.clone();
        if let Some(path) = &report.offload_path {
            detail.append("\n\n[full check output: ");
            detail.append(path.show().as_str());
            detail.append("]");
        }
        proof {
            assert(summary@ == checks_summary(*report, duration@));
            assert(detail@ == checks_detail(*report));
        }
        let plain = ToolResult::with_detail(summary, detail, ctx);
        proof {
            assert(tool::detailed(*ctx, checks_summary(*report, duration@), checks_detail(*report), plain));
        }
        let offload_path = match &report.offload_path {
            Some(p) => Some(p.dup()),
            None => None,
        };
        ToolResult {
            summary: plain.summary,
            detail: plain.detail,
            offload_path,
            is_error: !report.passed,
        }
    }
}

impl Tool for RunChecksTool {
    open spec fn name_view(&self) -> Seq<char> {
        "run_checks"@
    }

    open spec fn schema_view(&self) -> JsonV {
        JsonV::Object(
            Seq::empty().push(("name"@, JsonV::String("run_checks"@))).push(
                ("description"@, JsonV::String(DESCRIPTION@)),
            ).push(
                (
                    "input_schema"@,
                    JsonV::Object(
                        Seq::empty().push(("type"@, JsonV::String("object"@))).push(
                            ("properties"@, JsonV::Object(Seq::empty())),
                        ),
                    ),
                ),
            ),
        )
    }

    fn name(&self) -> (r: &str) {
        "run_checks"
    }

    fn schema(&self) -> (r: Json) {
        let mut input = Members::new();
        input.push("type", json::text("object"));
        input.push("properties", Members::new().object());
        let mut s = Members::new();
        s.push("name", json::text("run_checks"));
        s.push("description", json::text(DESCRIPTION));
        s.push("input_schema", input.object());
        s.object()
    }
}

// ---------------------------------------------------------------------------
// Laws
// ---------------------------------------------------------------------------

/// The checks are a problem for the model if and only if they did not pass; what they
/// printed is told as it was reported, with where all of it lies, and that place is
/// handed on.
pub proof fn law_what_the_checks_said_is_told<S: OffloadSink>(
    tool: RunChecksTool,
    report: CheckReport,
    duration: &str,
    ctx: ToolCtx<S>,
    r: ToolResult,
)
    requires
        call_ensures(RunChecksTool::finish::<S>, (&tool, &report, duration, &ctx), r),
    ensures
        r.is_error == !report.passed,
        opt_view(r.offload_path) == opt_view(report.offload_path),
        report.passed ==> r.summary@ == "checks passed ("@ + duration@ + ")"@,
        !report.passed && report.timed_out ==> r.summary@ == "checks FAILED: timed out ("@
            + duration@ + ")"@,
        !report.passed && !report.timed_out ==> (report.exit_code matches Some(n) ==> r.summary@
            == "checks FAILED: exit "@ + text::dec_int(n as int) + " ("@ + duration@ + ")"@),
        report.offload_path is None && report.excerpt@.len() <= 25_000 ==> (
        r.detail matches Some(d) && d@ == report.excerpt@),
        report.offload_path matches Some(path) ==> {
            let whole = report.excerpt@ + "\n\n[full check output: "@ + shown(path@) + "]"@;
            whole.len() <= 25_000 ==> (r.detail matches Some(d) && d@ == whole)
        },
{
}

} // verus!
