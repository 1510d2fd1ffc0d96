//! What tools that run a command have in common.
use vstd::prelude::*;

use crate::exec::ExecOutcome;
use crate::json;
use crate::json::{Json, JsonV, NumberV};
use crate::text;
use crate::text::{concat, dec_i32, dec_u64};
use crate::tool;
use crate::tool::{OffloadSink, ToolCtx, ToolResult};

verus! {

/// How many seconds a command may take, unless the model says otherwise.
pub const DEFAULT_TIMEOUT_SECS: u64 = 300;

/// How many seconds a command may take at most.
pub const MAX_TIMEOUT_SECS: u64 = 600;

/// The timeout that an input asks for, brought into range; none where it is not
/// an integer from zero up.
pub open spec fn timeout_of(input: JsonV) -> Option<int> {
    match json::field(input, "timeout_secs"@) {
        None => Some(DEFAULT_TIMEOUT_SECS as int),
        Some(JsonV::Null) => Some(DEFAULT_TIMEOUT_SECS as int),
        Some(v) => match json::as_unsigned(v) {
            Some(n) => Some(
                if n < 1 {
                    1
                } else if n > MAX_TIMEOUT_SECS {
                    MAX_TIMEOUT_SECS as int
                } else {
                    n
                },
            ),
            None => None,
        },
    }
}

/// The timeout that an input asks for.
pub fn timeout_secs(input: &Json) -> (r: Option<u64>)
    ensures
        r is Some == timeout_of(input@) is Some,
        r matches Some(n) ==> timeout_of(input@) == Some(n as int),
{
    match input.get("timeout_secs") {
        None => Some(DEFAULT_TIMEOUT_SECS),
        Some(v) => {
            if v.is_null() {
                return Some(DEFAULT_TIMEOUT_SECS);
            }
            match v.as_u64() {
                Some(n) => if n < 1 {
                    Some(1)
                } else if n > MAX_TIMEOUT_SECS {
                    Some(MAX_TIMEOUT_SECS)
                } else {
                    Some(n)
                },
                None => None,
            }
        },
    }
}

/// An exit code, as summaries show it.
pub open spec fn shown_code(code: Option<i32>) -> Seq<char> {
    match code {
        Some(n) => text::dec_int(n as int),
        None => "unknown"@,
    }
}

/// An exit code, as summaries show it.
pub fn show_code(code: Option<i32>) -> (r: String)
    ensures
        r@ == shown_code(code),
{
    match code {
        Some(n) => dec_i32(n),
        None => "unknown".to_owned(),
    }
}

/// The summary of a command.
pub open spec fn command_summary(
    timeout_secs: int,
    o: ExecOutcome,
    duration: Seq<char>,
) -> Seq<char> {
    if o.timed_out {
        "timed out after "@ + text::dec(timeout_secs as nat) + "s"@
    } else {
        "exit "@ + shown_code(o.exit_code) + " ("@ + duration + ")"@
    }
}

/// The output of a command.
pub open spec fn command_detail(o: ExecOutcome) -> Seq<char> {
    "--- stdout ---\n"@ + o.stdout@ + "\n--- stderr ---\n"@ + o.stderr@
}

/// The result of a command. It is a problem for the model unless the command
/// exited with 0 in time.
pub fn command_result<S: OffloadSink>(
    timeout_secs: u64,
    o: &ExecOutcome,
    duration: &str,
    ctx: &ToolCtx<S>,
) -> (r: ToolResult)
    ensures
        tool::detailed(
            *ctx,
            command_summary(timeout_secs as int, *o, duration@),
            command_detail(*o),
            r,
        ),
        r.is_error == (o.timed_out || o.exit_code != Some(0i32)),
{
    let mut summary = String::new();
    if o.timed_out {
        summary = concat("timed out after ", dec_u64(timeout_secs).as_str());
        summary.append("s");
    } else {
        summary = concat("exit ", show_code(o.exit_code).as_str());
        summary.append(" (");
        summary.append(duration);
        summary.append(")");
    }
    let mut detail = concat("--- stdout ---\n", o.stdout.as_str());
    detail.append("\n--- stderr ---\n");
    detail.append(o.stderr.as_str());
    let passed: bool = match o.exit_code {
        Some(code) => code == 0 && !o.timed_out,
        None => false,
    };
    let r = ToolResult::with_detail(summary, detail, ctx);
    ToolResult { is_error: !passed, ..r }
}

// ---------------------------------------------------------------------------
// Laws
// ---------------------------------------------------------------------------

/// What a command gave is told in full: both of its outputs stand in the detail, as
/// they are and each behind its heading, while they are short enough; and it is a
/// problem if and only if the command did not exit with 0, or not in time.
pub proof fn law_what_a_command_gave_is_told<S: OffloadSink>(
    timeout: u64,
    o: ExecOutcome,
    duration: &str,
    ctx: ToolCtx<S>,
    r: ToolResult,
)
    requires
        call_ensures(command_result::<S>, (timeout, &o, duration, &ctx), r),
    ensures
        !r.is_error <==> !o.timed_out && o.exit_code == Some(0i32),
        ({
            let whole = "--- stdout ---\n"@ + o.stdout@ + "\n--- stderr ---\n"@ + o.stderr@;
            &&& whole.len() <= 25_000 ==> (r.detail matches Some(d) && d@ == whole)
                && r.offload_path is None
            &&& whole.len() > 25_000 ==> r.offload_path is Some && (r.detail matches Some(d)
                && d@.take(25_000) == whole.take(25_000))
        }),
        o.timed_out ==> r.summary@ == "timed out after "@ + text::dec(timeout as nat) + "s"@,
        !o.timed_out ==> r.summary@ == "exit "@ + (match o.exit_code {
            Some(n) => text::dec_int(n as int),
            None => "unknown"@,
        }) + " ("@ + duration@ + ")"@,
{
    let whole = "--- stdout ---\n"@ + o.stdout@ + "\n--- stderr ---\n"@ + o.stderr@;
    if whole.len() > 25_000 {
        assert(r.detail->Some_0@.take(25_000) =~= whole.take(25_000));
    }
}

/// How long a command may take: as long as the input says, in seconds, but at least
/// one and at most 600; 300 where it does not say; and an input that says anything
/// else than a whole number is refused.
pub proof fn law_how_long_a_command_may_take(input: Json, r: Option<u64>)
    requires
        call_ensures(timeout_secs, (&input,), r),
    ensures
        r matches Some(n) ==> 1 <= n <= 600,
        json::field(input@, "timeout_secs"@) is None ==> r == Some(300u64),
        json::field(input@, "timeout_secs"@) == Some(JsonV::Null) ==> r == Some(300u64),
        json::field(input@, "timeout_secs"@) matches Some(JsonV::Number(NumberV::Int(n))) ==> {
            &&& 1 <= n <= 600 ==> (r matches Some(k) && k == n)
            &&& n == 0 ==> r == Some(1u64)
            &&& 600 < n <= u64::MAX ==> r == Some(600u64)
            &&& n < 0 ==> r is None
        },
        json::field(input@, "timeout_secs"@) matches Some(JsonV::String(_)) ==> r is None,
{
}

} // verus!
