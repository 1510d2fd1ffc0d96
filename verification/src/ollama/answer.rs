//! The answer of the chat endpoint: a turn of the model, or the error that the
//! status and the body stand for.
use vstd::prelude::*;

use crate::json::Json;
use crate::model::{
    AssistantTurn, BackendError, ContentBlock, StopReason, TerminalKind, ToolCallRequest,
    TransientKind, Usage,
};
use crate::ollama::request;
use crate::text;
use crate::text::{concat, contains_str, dec_u64, lower, str_eq};

verus! {

/// The body of an answer of `POST /api/chat`.
#[derive(Debug)]
pub struct ResponseBody {
    pub message: ResponseMessage,
    pub done_reason: Option<String>,
    /// The tokens of the prompt, cached ones included.
    pub prompt_eval_count: Option<u32>,
    pub eval_count: Option<u32>,
    /// The tokens of the prompt that came from the cache, where reported.
    pub prompt_eval_cached_count: Option<u32>,
}

/// The `{"error": "..."}` body of an answer that is no success. The text is empty
/// where the body has none.
#[derive(Debug)]
pub struct ErrorBody {
    pub error: String,
}

/// The message of an answer.
#[derive(Debug)]
pub struct ResponseMessage {
    pub content: String,
    pub thinking: Option<String>,
    pub tool_calls: Vec<ResponseToolCall>,
}

/// One tool call of an answer.
#[derive(Debug)]
pub struct ResponseToolCall {
    pub function: ResponseToolCallFunction,
}

/// Which function a call is for.
#[derive(Debug)]
pub struct ResponseToolCallFunction {
    pub name: String,
    pub arguments: Json,
}

/// An answer, translated, and what is to be warned of.
#[derive(Debug)]
pub struct MappedResponse {
    pub turn: AssistantTurn,
    pub warning: Option<String>,
}

/// Zero where a count is absent.
pub open spec fn or_zero(n: Option<u32>) -> u32 {
    match n {
        Some(k) => k,
        None => 0,
    }
}

/// More tokens came from the cache than the prompt has.
pub open spec fn inconsistent(body: ResponseBody) -> bool {
    body.prompt_eval_cached_count matches Some(c) && c > or_zero(body.prompt_eval_count)
}

/// The usage of an answer. The input is what did not come from the cache.
pub open spec fn usage_of(body: ResponseBody) -> Usage {
    let total = or_zero(body.prompt_eval_count);
    Usage {
        input_tokens: match body.prompt_eval_cached_count {
            Some(c) => if c <= total {
                (total - c) as u32
            } else {
                0
            },
            None => total,
        },
        output_tokens: or_zero(body.eval_count),
        cache_read_tokens: body.prompt_eval_cached_count,
        cache_write_tokens: None,
        reasoning_tokens: None,
    }
}

/// The warning for a usage report that contradicts itself.
pub open spec fn inconsistency_text(total: u32, cached: u32) -> Seq<char> {
    "warning: ollama usage inconsistency — prompt_eval_cached_count "@ + text::dec(cached as nat)
        + " > prompt_eval_count "@ + text::dec(total as nat) + "; clamping input_tokens to 0"@
}

/// The warning for a usage report that contradicts itself.
pub fn ollama_usage_inconsistency_warning(total: u32, cached: u32) -> (r: String)
    ensures
        r@ == inconsistency_text(total, cached),
{
    let mut s = concat(
        "warning: ollama usage inconsistency — prompt_eval_cached_count ",
        dec_u64(cached as u64).as_str(),
    );
    s.append(" > prompt_eval_count ");
    s.append(dec_u64(total as u64).as_str());
    s.append("; clamping input_tokens to 0");
    s
}

/// `reason` is why a model stopped that gave calls or not, and this reason.
pub open spec fn stopped_for(calls: bool, done: Option<Seq<char>>, reason: StopReason) -> bool {
    if calls {
        reason is ToolUse
    } else {
        match done {
            Some(d) => if d == "stop"@ {
                reason is EndTurn
            } else if d == "length"@ {
                reason is MaxTokens
            } else {
                reason matches StopReason::Other(other) && other@ == d
            },
            None => reason matches StopReason::Other(other) && other@.len() == 0,
        }
    }
}

/// Why the model stopped. A call beats the reported reason: the service has no
/// reason of its own for a call.
pub fn map_stop_reason(has_tool_calls: bool, done_reason: Option<&str>) -> (r: StopReason)
    ensures
        stopped_for(
            has_tool_calls,
            match done_reason {
                Some(d) => Some(d@),
                None => None,
            },
            r,
        ),
{
    if has_tool_calls {
        return StopReason::ToolUse;
    }
    match done_reason {
        Some(d) => if str_eq(d, "stop") {
            StopReason::EndTurn
        } else if str_eq(d, "length") {
            StopReason::MaxTokens
        } else {
            StopReason::Other(d.to_owned())
        },
        None => StopReason::Other(String::new()),
    }
}

/// The blocks of an answer that come before its calls: the thinking, then the
/// content, each where there is any.
pub open spec fn leading_blocks(m: ResponseMessage) -> Seq<ContentBlock> {
    (match m.thinking {
        Some(t) => if t@.len() > 0 {
            seq![ContentBlock::Reasoning { text: t, opaque: None }]
        } else {
            Seq::empty()
        },
        None => Seq::empty(),
    }) + (if m.content@.len() > 0 {
        seq![ContentBlock::Text(m.content)]
    } else {
        Seq::empty()
    })
}

/// `block` is the call with this number.
pub open spec fn is_call(block: ContentBlock, number: int, call: ResponseToolCall) -> bool {
    block matches ContentBlock::ToolCall(c) && {
        &&& c.id@ == "ollama-call-"@ + text::dec(number as nat)
        &&& c.name@ == call.function.name@
        &&& c.input@ == call.function.arguments@
    }
}

/// `turn` is what the answer `body` says.
pub open spec fn translates(body: ResponseBody, turn: AssistantTurn) -> bool {
    let lead = leading_blocks(body.message);
    let calls = body.message.tool_calls@;
    &&& turn.content@.len() == lead.len() + calls.len()
    &&& forall|i: int| 0 <= i < lead.len() ==> #[trigger] turn.content@[i] == lead[i]
    &&& forall|i: int|
        0 <= i < calls.len() ==> is_call(#[trigger] turn.content@[lead.len() + i], i, calls[i])
    &&& stopped_for(calls.len() > 0, request::opt_text(body.done_reason), turn.stop_reason)
    &&& turn.usage == usage_of(body)
}

/// Translates an answer. The thinking comes first, then the content, then the
/// calls; a usage report that contradicts itself is clamped and warned of.
pub fn map_response(body: ResponseBody) -> (r: MappedResponse)
    ensures
        translates(body, r.turn),
        r.warning is Some == inconsistent(body),
        r.warning matches Some(w) ==> w@ == inconsistency_text(
            or_zero(body.prompt_eval_count),
            or_zero(body.prompt_eval_cached_count),
        ),
{
    let ghost lead = leading_blocks(body.message);
    let mut blocks: Vec<ContentBlock> = Vec::new();
    if let Some(thinking) = body.message.thinking {
        if !thinking.as_str().is_empty() {
            blocks.push(ContentBlock::Reasoning { text: thinking, opaque: None });
        }
    }
    if !body.message.content.as_str().is_empty() {
        blocks.push(ContentBlock::Text(body.message.content));
    }
    proof {
        assert(blocks@ =~= lead);
    }
    let calls = body.message.tool_calls;
    let mut i: usize = 0;
    while i < calls.len()
        invariant
            i <= calls@.len(),
            blocks@.len() == lead.len() + i,
            forall|k: int| 0 <= k < lead.len() ==> #[trigger] blocks@[k] == lead[k],
            forall|k: int|
                0 <= k < i ==> is_call(#[trigger] blocks@[lead.len() + k], k, calls@[k]),
        decreases calls@.len() - i,
    {
        let call = &calls[i];
        let id = concat("ollama-call-", dec_u64(i as u64).as_str());
        let ghost before = blocks@;
        blocks.push(
            ContentBlock::ToolCall(
                ToolCallRequest {
                    id,
                    name: call.function.name.clone(),
                    input: call.function.arguments.dup(),
                },
            ),
        );
        proof {
            assert forall|k: int| 0 <= k < i + 1 implies is_call(
                #[trigger] blocks@[lead.len() + k],
                k,
                calls@[k],
            ) by {
                if k < i {
                    assert(blocks@[lead.len() + k] == before[lead.len() + k]);
                }
            }
        }
        i = i + 1;
    }
    let total: u32 = match body.prompt_eval_count {
        Some(n) => n,
        None => 0,
    };
    let output_tokens: u32 = match body.eval_count {
        Some(n) => n,
        None => 0,
    };
    let mut warning: Option<String> = None;
    let input_tokens: u32 = match body.prompt_eval_cached_count {
        Some(c) => if c <= total {
            total - c
        } else {
            warning = Some(ollama_usage_inconsistency_warning(total, c));
            0
        },
        None => total,
    };
    let done_reason = match &body.done_reason {
        Some(d) => Some(d.as_str()),
        None => None,
    };
    let stop_reason = map_stop_reason(calls.len() > 0, done_reason);
    MappedResponse {
        turn: AssistantTurn {
            content: blocks,
            stop_reason,
            usage: Usage {
                input_tokens,
                output_tokens,
                cache_read_tokens: body.prompt_eval_cached_count,
                cache_write_tokens: None,
                reasoning_tokens: None,
            },
        },
        warning,
    }
}

// ---------------------------------------------------------------------------
// Errors
// ---------------------------------------------------------------------------

/// The message of an error answer: what its body says under `error`, where the body
/// could be read and that is not empty; else the body as it came.
pub open spec fn message_in(parsed: Option<ErrorBody>, body: Seq<char>) -> Seq<char> {
    match parsed {
        Some(e) => if e.error@.len() > 0 {
            e.error@
        } else {
            body
        },
        None => body,
    }
}

/// The message of an error answer. `parsed` is the body as read, if it could be
/// read.
pub fn extract_error_message(parsed: Option<ErrorBody>, body_text: &str) -> (r: String)
    ensures
        r@ == message_in(parsed, body_text@),
{
    match parsed {
        Some(e) => if !e.error.as_str().is_empty() {
            e.error
        } else {
            body_text.to_owned()
        },
        None => body_text.to_owned(),
    }
}

/// The error of a request that got no answer.
pub fn classify_transport_error(is_timeout: bool) -> (r: BackendError)
    ensures
        r == (BackendError::Transient {
            kind: if is_timeout {
                TransientKind::Timeout
            } else {
                TransientKind::Network
            },
            retry_after: None,
        }),
{
    let kind = if is_timeout {
        TransientKind::Timeout
    } else {
        TransientKind::Network
    };
    BackendError::Transient { kind, retry_after: None }
}

/// The kind of an error that will not go away, by the status and the message in
/// lower case; none for one that may go away.
pub open spec fn terminal_kind(status: u16, lower: Seq<char>) -> Option<TerminalKind> {
    if status == 404 || text::contains(lower, "not found"@) {
        Some(TerminalKind::UnknownModel)
    } else if status == 401 || status == 403 {
        Some(TerminalKind::Auth)
    } else if status == 400 {
        if text::contains(lower, "does not support tools"@) {
            Some(TerminalKind::SchemaRejected)
        } else {
            Some(TerminalKind::BadRequest)
        }
    } else if status == 429 || 500 <= status < 600 {
        None
    } else {
        Some(TerminalKind::Other)
    }
}

/// `e` is the error for this status and message.
pub open spec fn status_error(
    status: u16,
    lower: Seq<char>,
    message: Seq<char>,
    e: BackendError,
) -> bool {
    match terminal_kind(status, lower) {
        Some(k) => e matches BackendError::Terminal { kind, message: m } && kind == k && m@
            == message,
        None => e == (BackendError::Transient {
            kind: if status == 429 {
                TransientKind::RateLimit
            } else {
                TransientKind::ServerError
            },
            retry_after: None,
        }),
    }
}

/// The error for a status, a message, and the message in lower case.
pub fn classify_status(status: u16, message: String, lower_message: &str) -> (r: BackendError)
    ensures
        status_error(status, lower_message@, message@, r),
{
    let kind = if status == 404 || contains_str(lower_message, "not found") {
        TerminalKind::UnknownModel
    } else if status == 401 || status == 403 {
        TerminalKind::Auth
    } else if status == 400 {
        if contains_str(lower_message, "does not support tools") {
            TerminalKind::SchemaRejected
        } else {
            TerminalKind::BadRequest
        }
    } else if status == 429 {
        return BackendError::Transient { kind: TransientKind::RateLimit, retry_after: None };
    } else if 500 <= status && status < 600 {
        return BackendError::Transient { kind: TransientKind::ServerError, retry_after: None };
    } else {
        TerminalKind::Other
    };
    BackendError::Terminal { kind, message }
}

/// The error for an answer with a status that is no success. `parsed` is the body
/// as read, if it could be read.
pub fn map_error_status(status: u16, parsed: Option<ErrorBody>, body_text: &str) -> (r:
    BackendError)
    ensures
        ({
            let message = message_in(parsed, body_text@);
            status_error(status, text::lowercase(message), message, r)
        }),
{
    let message = extract_error_message(parsed, body_text);
    let lower_message = lower(message.as_str());
    classify_status(status, message, lower_message.as_str())
}

/// The status says that the request succeeded.
pub open spec fn success(status: u16) -> bool {
    200 <= status < 300
}

/// Whether the status says that the request succeeded.
pub fn is_success(status: u16) -> (r: bool)
    ensures
        r == success(status),
{
    200 <= status && status < 300
}

/// What an answer comes to: the error of its status; or, where the status is a
/// success, the turn that its body says. `parsed` is the body as read, or why
/// it could not be read; it is looked at only for a success. `error` is the body
/// as read for any other status, if it could be read.
pub fn finish_turn(
    status: u16,
    body_text: &str,
    parsed: Result<ResponseBody, String>,
    error: Option<ErrorBody>,
) -> (r: Result<MappedResponse, BackendError>)
    ensures
        r is Ok == (success(status) && parsed is Ok),
        r matches Ok(m) ==> translates(parsed->Ok_0, m.turn) && (m.warning is Some
            == inconsistent(parsed->Ok_0)) && (m.warning matches Some(w) ==> w@
            == inconsistency_text(
            or_zero(parsed->Ok_0.prompt_eval_count),
            or_zero(parsed->Ok_0.prompt_eval_cached_count),
        )),
        !success(status) ==> (r matches Err(e) && ({
            let message = message_in(error, body_text@);
            status_error(status, text::lowercase(message), message, e)
        })),
        success(status) && parsed is Err ==> (r matches Err(
            BackendError::Protocol { message, raw },
        ) && message@ == "response body not parseable: "@ + parsed->Err_0@ && request::opt_text(raw)
            == Some(body_text@)),
{
    if !is_success(status) {
        return Err(map_error_status(status, error, body_text));
    }
    match parsed {
        Ok(body) => Ok(map_response(body)),
        Err(e) => Err(
            BackendError::Protocol {
                message: concat("response body not parseable: ", e.as_str()),
                raw: Some(body_text.to_owned()),
            },
        ),
    }
}

// ---------------------------------------------------------------------------
// Laws
// ---------------------------------------------------------------------------

/// A consistent usage report is split without loss: what was evaluated and what
/// came from the cache add up to the whole prompt. Where the cached count is
/// absent the whole prompt is input, and absent is not zero.
pub proof fn law_usage_adds_up(body: ResponseBody)
    ensures
        !inconsistent(body) ==> usage_of(body).input_tokens + or_zero(
            usage_of(body).cache_read_tokens,
        ) == or_zero(body.prompt_eval_count),
        inconsistent(body) ==> usage_of(body).input_tokens == 0,
        usage_of(body).cache_read_tokens is None <==> body.prompt_eval_cached_count is None,
{
}

/// Every call of an answer is a call of the turn, with its own name and its own
/// arguments, in the order of the answer and behind all else; and no two calls of a
/// turn have the same id.
pub proof fn law_every_call_keeps_its_name_and_arguments(
    body: ResponseBody,
    m: MappedResponse,
    i: int,
    j: int,
)
    requires
        call_ensures(map_response, (body,), m),
        0 <= i < body.message.tool_calls@.len(),
        0 <= j < body.message.tool_calls@.len(),
    ensures
        ({
            let asked = body.message.tool_calls@;
            let lead = m.turn.content@.len() - asked.len();
            &&& lead >= 0
            &&& m.turn.content@[lead + i] matches ContentBlock::ToolCall(c) && {
                &&& c.name@ == asked[i].function.name@
                &&& c.input@ == asked[i].function.arguments@
                &&& c.id@ == "ollama-call-"@ + text::dec(i as nat)
                &&& i != j ==> (m.turn.content@[lead + j] matches ContentBlock::ToolCall(d) && d.id@
                    != c.id@)
            }
        }),
{
    let lead = leading_blocks(body.message).len();
    assert(is_call(m.turn.content@[lead + i], i, body.message.tool_calls@[i]));
    assert(is_call(m.turn.content@[lead + j], j, body.message.tool_calls@[j]));
    if i != j {
        let head = "ollama-call-"@;
        let x = text::dec(i as nat);
        let y = text::dec(j as nat);
        assert(x =~= (head + x).skip(head.len() as int));
        assert(y =~= (head + y).skip(head.len() as int));
        text::lemma_number_of_dec(i as nat);
        text::lemma_number_of_dec(j as nat);
    }
}

/// What a turn holds before its calls: the thinking where there is any, then the text
/// where there is any, each whole and as it came, and nothing else.
pub proof fn law_a_turn_holds_the_thinking_and_the_text(body: ResponseBody, m: MappedResponse)
    requires
        call_ensures(map_response, (body,), m),
    ensures
        ({
            let thought = body.message.thinking matches Some(t) && t@.len() > 0;
            let said = body.message.content@.len() > 0;
            let first: int = if thought {
                1
            } else {
                0
            };
            let lead: int = if said {
                first + 1
            } else {
                first
            };
            &&& m.turn.content@.len() == lead + body.message.tool_calls@.len()
            &&& thought ==> (m.turn.content@[0] matches ContentBlock::Reasoning { text, opaque }
                && Some(text@) == request::opt_text(body.message.thinking) && opaque is None)
            &&& said ==> (m.turn.content@[first] matches ContentBlock::Text(text) && text@
                == body.message.content@)
        }),
{
    let lead = leading_blocks(body.message);
    assert forall|i: int| 0 <= i < lead.len() implies #[trigger] m.turn.content@[i] == lead[i] by {}
}

/// Why a turn stopped: for its calls where it has any, whatever the service said;
/// else for what the service said.
pub proof fn law_a_turn_says_why_it_stopped(body: ResponseBody, m: MappedResponse)
    requires
        call_ensures(map_response, (body,), m),
    ensures
        m.turn.stop_reason is ToolUse <==> body.message.tool_calls@.len() > 0,
        body.message.tool_calls@.len() == 0 ==> {
            let said = match body.done_reason {
                Some(d) => d@,
                None => Seq::empty(),
            };
            &&& m.turn.stop_reason is EndTurn <==> said == "stop"@
            &&& m.turn.stop_reason is MaxTokens <==> said == "length"@
            &&& said != "stop"@ && said != "length"@ ==> (
            m.turn.stop_reason matches StopReason::Other(other) && other@ == said)
        },
{
    reveal_strlit("stop");
    reveal_strlit("length");
    assert("stop"@.len() == 4 && "length"@.len() == 6);
    if body.done_reason is None {
        if let StopReason::Other(other) = m.turn.stop_reason {
            assert(other@ =~= Seq::<char>::empty());
        }
    }
}

/// What a turn took: the tokens that the service counted, those from the cache taken
/// out of the input and put beside it; what was not counted is nothing, and where
/// more came from the cache than there is, no input is left. There is a warning only
/// then.
pub proof fn law_a_turn_takes_what_was_counted(body: ResponseBody, m: MappedResponse)
    requires
        call_ensures(map_response, (body,), m),
    ensures
        ({
            let total: int = match body.prompt_eval_count {
                Some(n) => n as int,
                None => 0,
            };
            let cached: int = match body.prompt_eval_cached_count {
                Some(n) => n as int,
                None => 0,
            };
            &&& cached <= total ==> m.turn.usage.input_tokens + cached == total
            &&& cached > total ==> m.turn.usage.input_tokens == 0
            &&& m.warning is Some <==> cached > total
            &&& m.turn.usage.output_tokens == (match body.eval_count {
                Some(n) => n as int,
                None => 0,
            })
            &&& m.turn.usage.cache_read_tokens == body.prompt_eval_cached_count
            &&& m.turn.usage.cache_write_tokens is None
            &&& m.turn.usage.reasoning_tokens is None
        }),
{
}

/// A turn can be sent back: as a message of the conversation it carries the calls of
/// the answer, one for one, with their names and arguments, numbered from 0.
pub proof fn law_a_turn_can_be_sent_back(body: ResponseBody, m: MappedResponse, i: int)
    requires
        call_ensures(map_response, (body,), m),
        0 <= i < body.message.tool_calls@.len(),
    ensures
        ({
            let sent = request::call_wires(m.turn.content@);
            let asked = body.message.tool_calls@;
            &&& sent.len() == asked.len()
            &&& sent[i].name == asked[i].function.name@
            &&& sent[i].arguments == asked[i].function.arguments@
            &&& sent[i].index == i
            &&& sent[i].kind == "function"@
        }),
{
    let lead = leading_blocks(body.message).len() as int;
    lemma_sent_back(body, m.turn, lead + body.message.tool_calls@.len());
    assert(m.turn.content@.take(m.turn.content@.len() as int) =~= m.turn.content@);
}

proof fn lemma_sent_back(body: ResponseBody, turn: AssistantTurn, n: int)
    requires
        translates(body, turn),
        0 <= n <= turn.content@.len(),
    ensures
        ({
            let sent = request::call_wires(turn.content@.take(n));
            let asked = body.message.tool_calls@;
            let lead = leading_blocks(body.message).len();
            &&& sent.len() == (if n < lead {
                0
            } else {
                n - lead
            })
            &&& forall|i: int|
                0 <= i < sent.len() ==> (#[trigger] sent[i]).name == asked[i].function.name@
                    && sent[i].arguments == asked[i].function.arguments@ && sent[i].index == i
                    && sent[i].kind == "function"@
        }),
    decreases n,
{
    if n > 0 {
        lemma_sent_back(body, turn, n - 1);
        let lead = leading_blocks(body.message);
        assert(turn.content@.take(n).drop_last() =~= turn.content@.take(n - 1));
        assert(turn.content@.take(n).last() == turn.content@[n - 1]);
        if n - 1 < lead.len() {
            assert(turn.content@[n - 1] == lead[n - 1]);
            assert(!(lead[n - 1] is ToolCall));
        } else {
            let k = n - 1 - lead.len();
            assert(is_call(turn.content@[lead.len() + k], k, body.message.tool_calls@[k]));
        }
    }
}

/// How an answer that is no success is told apart: what is too much or the server's
/// own fault may go away, unless it says that something was not found; everything
/// else will not, and keeps its message, which is what the body says under `error`,
/// word for word, if that is anything, and else all of the body.
pub proof fn law_which_errors_may_go_away(
    status: u16,
    parsed: Option<ErrorBody>,
    body_text: &str,
    e: BackendError,
    message: Seq<char>,
)
    requires
        call_ensures(map_error_status, (status, parsed, body_text), e),
        message == (if parsed is Some && parsed->Some_0.error@.len() > 0 {
            parsed->Some_0.error@
        } else {
            body_text@
        }),
    ensures
        ({
            let lower = text::lowercase(message);
            let lost = exists|i: int| #[trigger] text::matches_at(lower, "not found"@, i);
            let toolless = exists|i: int| #[trigger]
                text::matches_at(lower, "does not support tools"@, i);
            let passing = !lost && (status == 429 || (500 <= status && status <= 599));
            &&& e is Transient <==> passing
            &&& e is Terminal <==> !passing
            &&& e matches BackendError::Transient { kind, retry_after } ==> retry_after is None && (
            kind is RateLimit <==> status == 429) && (kind is ServerError <==> status != 429)
            &&& e matches BackendError::Terminal { kind, message: m } ==> {
                &&& m@ == message
                &&& kind is UnknownModel <==> status == 404 || lost
                &&& kind is Auth <==> !lost && (status == 401 || status == 403)
                &&& kind is SchemaRejected <==> !lost && status == 400 && toolless
                &&& kind is BadRequest <==> !lost && status == 400 && !toolless
            }
        }),
{
    assert(message == message_in(parsed, body_text@));
    assert(status_error(status, text::lowercase(message), message, e));
}

/// What an answer comes to: a turn only where its status lies between 200 and 299
/// and its body could be read, and then one that holds the calls of the body, with
/// their names and arguments, behind its thinking and its text. A body that could
/// not be read for a success is handed on as it came.
pub proof fn law_what_an_answer_comes_to(
    status: u16,
    body_text: &str,
    parsed: Result<ResponseBody, String>,
    error: Option<ErrorBody>,
    r: Result<MappedResponse, BackendError>,
    i: int,
)
    requires
        call_ensures(finish_turn, (status, body_text, parsed, error), r),
    ensures
        r is Ok <==> status / 100 == 2 && parsed is Ok,
        r matches Ok(m) ==> {
            let asked = parsed->Ok_0.message.tool_calls@;
            let lead = m.turn.content@.len() - asked.len();
            &&& 0 <= lead <= 2
            &&& parsed->Ok_0.message.content@.len() > 0 ==> lead > 0 && (
            m.turn.content@[lead - 1] matches ContentBlock::Text(t) && t@
                == parsed->Ok_0.message.content@)
            &&& 0 <= i < asked.len() ==> (
            m.turn.content@[lead + i] matches ContentBlock::ToolCall(c) && c.name@
                == asked[i].function.name@ && c.input@ == asked[i].function.arguments@)
        },
        r matches Err(e) ==> (e is Protocol <==> status / 100 == 2),
        r matches Err(BackendError::Protocol { message, raw }) ==> raw matches Some(t) && t@
            == body_text@,
{
    if let Ok(m) = r {
        let body = parsed->Ok_0;
        let lead = leading_blocks(body.message);
        assert(translates(body, m.turn));
        if body.message.content@.len() > 0 {
            assert(m.turn.content@[lead.len() - 1] == lead[lead.len() - 1]);
        }
        if 0 <= i < body.message.tool_calls@.len() {
            assert(is_call(m.turn.content@[lead.len() + i], i, body.message.tool_calls@[i]));
        }
    }
}

} // verus!
