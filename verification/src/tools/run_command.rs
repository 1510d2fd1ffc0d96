//! The `run_command` tool: runs one program, without a shell, at the workspace
//! root.
use vstd::prelude::*;

use crate::exec::{ExecOutcome, ExecSpec};
use crate::json;
use crate::json::{Items, Json, JsonV, Members};
use crate::path::FilePath;
use crate::text;
use crate::time::Duration;
use crate::tool;
use crate::tool::{OffloadSink, Tool, ToolCtx, ToolResult};
use crate::tools::command;
use crate::tools::command::{command_result, timeout_secs};

verus! {

/// What the tool is, as told to the model.
pub const DESCRIPTION: &'static str = "Run a program in the workspace root and capture its output. `command` is the program to execute directly — it is NOT interpreted by a shell, so shell features (pipes, globs, redirection, `&&`, `$VARS`) will not work unless you invoke a shell yourself: set command=\"sh\" and args=[\"-c\", \"<your shell line>\"]. Pass ordinary arguments as separate strings via `args`. A non-zero exit code or a timeout is returned as an error so you can react to it.";

/// What `command` is, as told to the model.
pub const COMMAND_DESCRIPTION: &'static str = "The program to run. Not shell-interpreted. Use \"sh\" with args [\"-c\", \"...\"] when you need shell features.";

/// What `args` is, as told to the model.
pub const ARGS_DESCRIPTION: &'static str = "Arguments passed verbatim to the program, each as its own string.";

/// What `timeout_secs` is, as told to the model.
pub const TIMEOUT_DESCRIPTION: &'static str = "Maximum seconds before the command is killed. Default 300, clamped to a maximum of 600.";

/// The message for an input without a command.
pub const NO_COMMAND: &'static str = "run_command requires a `command` string (the program to run; pass arguments via `args`)";

/// The message for arguments that are not strings.
pub const BAD_ARGS: &'static str = "run_command `args` must be an array of strings";

/// The message for a timeout that is not an integer.
pub const BAD_TIMEOUT: &'static str = "run_command `timeout_secs` must be a positive integer";

/// The `run_command` tool.
#[derive(Debug, Default, Clone, Copy)]
pub struct RunCommandTool;

/// The texts of the items; none where an item is no string.
pub open spec fn texts_of(items: Seq<JsonV>) -> Option<Seq<Seq<char>>>
    decreases items.len(),
{
    if items.len() == 0 {
        Some(Seq::empty())
    } else {
        match (texts_of(items.drop_last()), json::as_text(items.last())) {
            (Some(before), Some(t)) => Some(before.push(t)),
            _ => None,
        }
    }
}

/// The arguments that an input gives: none at all is an empty list; anything
/// but a list of strings is refused.
pub open spec fn args_of(input: JsonV) -> Option<Seq<Seq<char>>> {
    match json::field(input, "args"@) {
        None => Some(Seq::empty()),
        Some(JsonV::Null) => Some(Seq::empty()),
        Some(JsonV::Array(items)) => texts_of(items),
        Some(_) => None,
    }
}

/// A list with an item that is no string has no texts, whatever follows.
proof fn lemma_texts_of_prefix(items: Seq<JsonV>, k: int)
    requires
        0 <= k <= items.len(),
        texts_of(items.take(k)) is None,
    ensures
        texts_of(items) is None,
    decreases items.len(),
{
    if k == items.len() {
        assert(items.take(k) =~= items);
    } else {
        assert(items.drop_last().take(k) =~= items.take(k));
        lemma_texts_of_prefix(items.drop_last(), k);
    }
}

impl Tool for RunCommandTool {
    open spec fn name_view(&self) -> Seq<char> {
        "run_command"@
    }

    open spec fn schema_view(&self) -> JsonV {
        let args = JsonV::Object(
            Seq::empty().push(("type"@, JsonV::String("array"@))).push(
                (
                    "items"@,
                    JsonV::Object(Seq::empty().push(("type"@, JsonV::String("string"@)))),
                ),
            ).push(("description"@, JsonV::String(ARGS_DESCRIPTION@))),
        );
        let properties = JsonV::Object(
            Seq::empty().push(("command"@, json::typed("string"@, COMMAND_DESCRIPTION@))).push(
                ("args"@, args),
            ).push(("timeout_secs"@, json::typed("integer"@, TIMEOUT_DESCRIPTION@))),
        );
        JsonV::Object(
            Seq::empty().push(("name"@, JsonV::String("run_command"@))).push(
                ("description"@, JsonV::String(DESCRIPTION@)),
            ).push(
                (
                    "input_schema"@,
                    JsonV::Object(
                        Seq::empty().push(("type"@, JsonV::String("object"@))).push(
                            ("properties"@, properties),
                        ).push(
                            (
                                "required"@,
                                JsonV::Array(Seq::empty().push(JsonV::String("command"@))),
                            ),
                        ),
                    ),
                ),
            ),
        )
    }

    fn name(&self) -> (r: &str) {
        "run_command"
    }

    fn schema(&self) -> (r: Json) {
        let mut item = Members::new();
        item.push("type", json::text("string"));
        let mut args = Members::new();
        args.push("type", json::text("array"));
        args.push("items", item.object());
        args.push("description", json::text(ARGS_DESCRIPTION));
        let mut properties = Members::new();
        properties.push("command", json::property("string", COMMAND_DESCRIPTION));
        properties.push("args", args.object());
        properties.push("timeout_secs", json::property("integer", TIMEOUT_DESCRIPTION));
        let mut required = Items::new();
        required.push(json::text("command"));
        let mut input = Members::new();
        input.push("type", json::text("object"));
        input.push("properties", properties.object());
        input.push("required", required.array());
        let mut s = Members::new();
        s.push("name", json::text("run_command"));
        s.push("description", json::text(DESCRIPTION));
        s.push("input_schema", input.object());
        s.object()
    }
}

impl RunCommandTool {
    /// The arguments that `input` gives.
    pub fn parse_args(input: &Json) -> (r: Result<Vec<String>, ToolResult>)
        ensures
            match args_of(input@) {
                Some(args) => r matches Ok(v) && text::views(v@) == args,
                None => r matches Err(e) && tool::refusal(e, BAD_ARGS@),
            },
    {
        let mut out: Vec<String> = Vec::new();
        proof {
            assert(text::views(out@) =~= Seq::<Seq<char>>::empty());
        }
        let value = match input.get("args") {
            Some(v) => v,
            None => {
                return Ok(out);
            },
        };
        match value {
            Json::Null => Ok(out),
            Json::Array(items) => {
                let ghost iv = json::items_view(items@);
                let mut i: usize = 0;
                proof {
                    assert(iv.take(0) =~= Seq::<JsonV>::empty());
                }
                while i < items.len()
                    invariant
                        i <= items@.len(),
                        iv == json::items_view(items@),
                        args_of(input@) == texts_of(iv),
                        texts_of(iv.take(i as int)) == Some(text::views(out@)),
                    decreases items@.len() - i,
                {
                    let ghost before = text::views(out@);
                    proof {
                        assert(iv.take(i + 1).drop_last() =~= iv.take(i as int));
                        assert(iv.take(i + 1).last() == items@[i as int]@);
                    }
                    match items[i].as_str() {
                        Some(s) => {
                            out.push(s.to_owned());
                            proof {
                                assert(text::views(out@) =~= before.push(s@));
                            }
                        },
                        None => {
                            proof {
                                lemma_texts_of_prefix(iv, i + 1);
                            }
                            return Err(ToolResult::error(BAD_ARGS.to_owned()));
                        },
                    }
                    i = i + 1;
                }
                proof {
                    assert(iv.take(i as int) =~= iv);
                }
                Ok(out)
            },
            _ => Err(ToolResult::error(BAD_ARGS.to_owned())),
        }
    }

    /// The command to run for `input`, or what is wrong with the input.
    pub fn plan(&self, input: &Json, root: &FilePath) -> (r: Result<ExecSpec, ToolResult>)
        ensures
            match (
                json::text_field(input@, "command"@),
                args_of(input@),
                command::timeout_of(input@),
            ) {
                (None, _, _) => r matches Err(e) && tool::refusal(e, NO_COMMAND@),
                (Some(_), None, _) => r matches Err(e) && tool::refusal(e, BAD_ARGS@),
                (Some(_), Some(_), None) => r matches Err(e) && tool::refusal(e, BAD_TIMEOUT@),
                (Some(program), Some(args), Some(secs)) => r matches Ok(spec) && {
                    &&& spec.program@ == program
                    &&& text::views(spec.args@) == args
                    &&& spec.cwd@ == root@
                    &&& spec.timeout.secs == secs
                    &&& spec.timeout.nanos == 0
                },
            },
    {
        let program = match input.text_at("command") {
            Some(c) => c,
            None => {
                return Err(ToolResult::error(NO_COMMAND.to_owned()));
            },
        };
        let args = match RunCommandTool::parse_args(input) {
            Ok(a) => a,
            Err(e) => {
                return Err(e);
            },
        };
        let secs: u64 = match timeout_secs(input) {
            Some(n) => n,
            None => {
                return Err(ToolResult::error(BAD_TIMEOUT.to_owned()));
            },
        };
        Ok(
            ExecSpec {
                program: program.to_owned(),
                args,
                cwd: root.dup(),
                timeout: Duration::from_secs(secs),
            },
        )
    }

    /// The result of running the planned command.
    pub fn finish<S: OffloadSink>(
        &self,
        spec: &ExecSpec,
        outcome: &ExecOutcome,
        duration: &str,
        ctx: &ToolCtx<S>,
    ) -> (r: ToolResult)
        ensures
            tool::detailed(
                *ctx,
                command::command_summary(spec.timeout.secs as int, *outcome, duration@),
                command::command_detail(*outcome),
                r,
            ),
            r.is_error == (outcome.timed_out || outcome.exit_code != Some(0i32)),
    {
        command_result(spec.timeout.secs, outcome, duration, ctx)
    }
}

// ---------------------------------------------------------------------------
// Laws
// ---------------------------------------------------------------------------

/// What texts a list holds: as many as it has items, in their order and as they are,
/// and nothing unless every item is a text.
proof fn lemma_texts_of(items: Seq<JsonV>)
    ensures
        texts_of(items) matches Some(texts) ==> texts.len() == items.len() && forall|i: int|
            0 <= i < items.len() ==> items[i] == JsonV::String(#[trigger] texts[i]),
        texts_of(items) is None <==> exists|i: int|
            0 <= i < items.len() && !(#[trigger] items[i] is String),
    decreases items.len(),
{
    if items.len() > 0 {
        let front = items.drop_last();
        lemma_texts_of(front);
        if texts_of(items) is None {
            if texts_of(front) is None {
                let i = choose|i: int| 0 <= i < front.len() && !(#[trigger] front[i] is String);
                assert(!(items[i] is String));
            } else {
                assert(!(items[items.len() - 1] is String));
            }
        } else if exists|i: int| 0 <= i < items.len() && !(#[trigger] items[i] is String) {
            let i = choose|i: int| 0 <= i < items.len() && !(#[trigger] items[i] is String);
            if i < front.len() {
                assert(!(front[i] is String));
            }
        }
    }
}

/// The program gets its arguments one by one, as the model gave them and in their
/// order, and runs at the workspace root; without a program, and with an argument
/// that is no text, nothing is run.
pub proof fn law_the_program_gets_its_arguments_as_they_are(
    tool: RunCommandTool,
    input: Json,
    root: FilePath,
    r: Result<ExecSpec, ToolResult>,
    i: int,
)
    requires
        call_ensures(RunCommandTool::plan, (&tool, &input, &root), r),
    ensures
        r matches Ok(spec) ==> {
            &&& json::field(input@, "command"@) == Some(JsonV::String(spec.program@))
            &&& spec.cwd@ == root@
            &&& 1 <= spec.timeout.secs <= 600
            &&& json::field(input@, "args"@) matches Some(JsonV::Array(items)) ==> {
                &&& spec.args@.len() == items.len()
                &&& 0 <= i < items.len() ==> items[i] == JsonV::String(spec.args@[i]@)
            }
            &&& json::field(input@, "args"@) is None || json::field(input@, "args"@) == Some(
                JsonV::Null,
            ) ==> spec.args@.len() == 0
        },
        !(json::field(input@, "command"@) matches Some(JsonV::String(_))) ==> r is Err,
        json::field(input@, "args"@) matches Some(JsonV::Array(items)) ==> 0 <= i < items.len()
            && !(items[i] is String) ==> r is Err,
        r matches Err(e) ==> e.is_error,
{
    if let Some(JsonV::Array(items)) = json::field(input@, "args"@) {
        lemma_texts_of(items);
        if let Ok(spec) = r {
            let v = text::views(spec.args@);
            if 0 <= i < items.len() {
                assert(items[i] == JsonV::String(v[i]));
            }
        }
    }
    if let Ok(spec) = r {
        assert(text::views(spec.args@).len() == spec.args@.len());
    }
}

/// What the program gave is told in full, and is a problem unless it exited with 0
/// in time.
pub proof fn law_what_the_program_gave_is_told<S: OffloadSink>(
    tool: RunCommandTool,
    spec: ExecSpec,
    o: ExecOutcome,
    duration: &str,
    ctx: ToolCtx<S>,
    r: ToolResult,
)
    requires
        call_ensures(RunCommandTool::finish::<S>, (&tool, &spec, &o, duration, &ctx), r),
        o.stdout@.len() + o.stderr@.len() < 24_900,
    ensures
        !r.is_error <==> !o.timed_out && o.exit_code == Some(0i32),
        r.detail matches Some(d) && d@ == "--- stdout ---\n"@ + o.stdout@ + "\n--- stderr ---\n"@
            + o.stderr@,
{
    reveal_strlit("--- stdout ---\n");
    reveal_strlit("\n--- stderr ---\n");
}

} // verus!
