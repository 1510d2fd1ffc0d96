//! The `bash` tool: runs a shell command line at the workspace root.
use vstd::prelude::*;

use crate::exec::{ExecOutcome, ExecSpec};
use crate::json;
use crate::json::{Json, JsonV, Members};
use crate::path::FilePath;
use crate::text;
use crate::time::Duration;
use crate::tool;
use crate::tool::{OffloadSink, Tool, ToolCtx, ToolResult};
use crate::tools::command;
use crate::tools::command::{command_result, timeout_secs};

verus! {

/// What the tool is, as told to the model.
pub const DESCRIPTION: &'static str = "Run a shell command in the workspace root and capture its output. `command` is a full shell command string passed to `sh -c` — shell features (pipes, globs, redirection, `&&`, `||`, `$VARS`) work directly. Use grep or find via this tool to locate code; prefer edit_file for file mutations (its unique-match contract is safer than sed -i). A non-zero exit code or a timeout is returned as an error so you can react to it.";

/// What `command` is, as told to the model.
pub const COMMAND_DESCRIPTION: &'static str = "The shell command to run. Passed verbatim to `sh -c`. Pipes, globs, &&, ||, and $VARS all work.";

/// What `timeout_secs` is, as told to the model.
pub const TIMEOUT_DESCRIPTION: &'static str = "Maximum seconds before the command is killed. Default 300, clamped to a maximum of 600.";

/// The message for an input without a command.
pub const NO_COMMAND: &'static str = "bash requires a `command` string (a shell command line)";

/// The message for a timeout that is not an integer.
pub const BAD_TIMEOUT: &'static str = "bash `timeout_secs` must be a positive integer";

/// The `bash` tool.
#[derive(Debug, Default, Clone, Copy)]
pub struct BashTool;

impl Tool for BashTool {
    open spec fn name_view(&self) -> Seq<char> {
        "bash"@
    }

    open spec fn schema_view(&self) -> JsonV {
        JsonV::Object(
            Seq::empty().push(("name"@, JsonV::String("bash"@))).push(
                ("description"@, JsonV::String(DESCRIPTION@)),
            ).push(
                (
                    "input_schema"@,
                    JsonV::Object(
                        Seq::empty().push(("type"@, JsonV::String("object"@))).push(
                            (
                                "properties"@,
                                JsonV::Object(
                                    Seq::empty().push(
                                        ("command"@, json::typed("string"@, COMMAND_DESCRIPTION@)),
                                    ).push(
                                        (
                                            "timeout_secs"@,
                                            json::typed("integer"@, TIMEOUT_DESCRIPTION@),
                                        ),
                                    ),
                                ),
                            ),
                        ).push(
                            (
                                "required"@,
                                JsonV::Array(Seq::empty().push(JsonV::String("command"@))),
                            ),
                        ),
                    ),
                ),
            ),
        )
    }

    fn name(&self) -> (r: &str) {
        "bash"
    }

    fn schema(&self) -> (r: Json) {
        let mut properties = Members::new();
        properties.push("command", json::property("string", COMMAND_DESCRIPTION));
        properties.push("timeout_secs", json::property("integer", TIMEOUT_DESCRIPTION));
        let mut required = json::Items::new();
        required.push(json::text("command"));
        let mut input = Members::new();
        input.push("type", json::text("object"));
        input.push("properties", properties.object());
        input.push("required", required.array());
        let mut s = Members::new();
        s.push("name", json::text("bash"));
        s.push("description", json::text(DESCRIPTION));
        s.push("input_schema", input.object());
        s.object()
    }
}

impl BashTool {
    /// The command to run for `input`, or what is wrong with the input.
    pub fn plan(&self, input: &Json, root: &FilePath) -> (r: Result<ExecSpec, ToolResult>)
        ensures
            match (json::text_field(input@, "command"@), command::timeout_of(input@)) {
                (None, _) => r matches Err(e) && tool::refusal(e, NO_COMMAND@),
                (Some(_), None) => r matches Err(e) && tool::refusal(e, BAD_TIMEOUT@),
                (Some(line), Some(secs)) => r matches Ok(spec) && {
                    &&& spec.program@ == "sh"@
                    &&& text::views(spec.args@) == seq!["-c"@, line]
                    &&& spec.cwd@ == root@
                    &&& spec.timeout.secs == secs
                    &&& spec.timeout.nanos == 0
                },
            },
    {
        let line = match input.text_at("command") {
            Some(c) => c,
            None => {
                return Err(ToolResult::error(NO_COMMAND.to_owned()));
            },
        };
        let secs: u64 = match timeout_secs(input) {
            Some(n) => n,
            None => {
                return Err(ToolResult::error(BAD_TIMEOUT.to_owned()));
            },
        };
        let args: Vec<String> = vec!["-c".to_owned(), line.to_owned()];
        proof {
            assert(text::views(args@) =~= seq!["-c"@, line@]);
        }
        Ok(
            ExecSpec {
                program: "sh".to_owned(),
                args,
                cwd: root.dup(),
                timeout: Duration::from_secs(secs),
            },
        )
    }

    /// The result of running the planned command.
    pub fn finish<S: OffloadSink>(
        &self,
        spec: &ExecSpec,
        outcome: &ExecOutcome,
        duration: &str,
        ctx: &ToolCtx<S>,
    ) -> (r: ToolResult)
        ensures
            tool::detailed(
                *ctx,
                command::command_summary(spec.timeout.secs as int, *outcome, duration@),
                command::command_detail(*outcome),
                r,
            ),
            r.is_error == (outcome.timed_out || outcome.exit_code != Some(0i32)),
    {
        command_result(spec.timeout.secs, outcome, duration, ctx)
    }
}

// ---------------------------------------------------------------------------
// Laws
// ---------------------------------------------------------------------------

/// The shell gets the command line as the model gave it, as one argument, and runs
/// at the workspace root; without a command line nothing is run.
pub proof fn law_the_shell_gets_the_line_as_it_is(
    tool: BashTool,
    input: Json,
    root: FilePath,
    r: Result<ExecSpec, ToolResult>,
)
    requires
        call_ensures(BashTool::plan, (&tool, &input, &root), r),
    ensures
        r matches Ok(spec) ==> {
            &&& spec.program@ == "sh"@
            &&& spec.args@.len() == 2
            &&& spec.args@[0]@ == "-c"@
            &&& json::field(input@, "command"@) == Some(JsonV::String(spec.args@[1]@))
            &&& spec.cwd@ == root@
            &&& 1 <= spec.timeout.secs <= 600
        },
        !(json::field(input@, "command"@) matches Some(JsonV::String(_))) ==> r is Err,
        (json::field(input@, "command"@) matches Some(JsonV::String(_))) && json::field(
            input@,
            "timeout_secs"@,
        ) is None ==> (r matches Ok(spec) && spec.timeout.secs == 300 && spec.timeout.nanos == 0),
        r matches Err(e) ==> e.is_error,
{
    if let Ok(spec) = r {
        let v = text::views(spec.args@);
        assert(v.len() == 2);
        assert(v[0] == spec.args@[0]@ && v[1] == spec.args@[1]@);
    }
}

/// What the shell gave is told in full, and is a problem unless it exited with 0 in
/// time.
pub proof fn law_what_the_shell_gave_is_told<S: OffloadSink>(
    tool: BashTool,
    spec: ExecSpec,
    o: ExecOutcome,
    duration: &str,
    ctx: ToolCtx<S>,
    r: ToolResult,
)
    requires
        call_ensures(BashTool::finish::<S>, (&tool, &spec, &o, duration, &ctx), r),
        o.stdout@.len() + o.stderr@.len() < 24_900,
    ensures
        !r.is_error <==> !o.timed_out && o.exit_code == Some(0i32),
        r.detail matches Some(d) && d@ == "--- stdout ---\n"@ + o.stdout@ + "\n--- stderr ---\n"@
            + o.stderr@,
{
    reveal_strlit("--- stdout ---\n");
    reveal_strlit("\n--- stderr ---\n");
}

} // verus!
