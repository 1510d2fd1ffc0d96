//! The request to the chat endpoint: the conversation in the form that the
//! service takes, and whether it fits.
use vstd::prelude::*;

use crate::json;
use crate::json::{Json, JsonV, Members, Number, NumberV};
use crate::model::{BackendError, ContentBlock, Message, TurnRequest, UserBlock};
use crate::ollama::{OllamaBackend, ThinkLevel};
use crate::text;
use crate::text::{concat, copy_strings, debug_of, join_strings, str_eq, trimmed_end_char};

verus! {

/// The body of `POST /api/chat`.
pub struct RequestBody {
    pub model: String,
    pub messages: Vec<WireMessage>,
    /// Always false: the service streams unless told not to.
    pub stream: bool,
    pub tools: Option<Vec<Json>>,
    pub think: Option<ThinkLevel>,
    pub options: Options,
}

/// The sampling options of a request.
pub struct Options {
    pub num_predict: u32,
    pub temperature: Option<Number>,
    pub stop: Option<Vec<String>>,
    pub num_ctx: Option<u32>,
}

/// One message of a request.
pub struct WireMessage {
    pub role: &'static str,
    pub content: String,
    /// An assistant's reasoning, echoed back.
    pub thinking: Option<String>,
    /// The tool that a result comes from.
    pub tool_name: Option<String>,
    /// The calls that an assistant asked for.
    pub tool_calls: Option<Vec<WireToolCall>>,
}

/// One call of an assistant message.
pub struct WireToolCall {
    pub kind: &'static str,
    pub function: WireToolCallFunction,
}

/// Which function a call is for.
pub struct WireToolCallFunction {
    pub index: usize,
    pub name: String,
    pub arguments: Json,
}

/// What a [`WireToolCall`] is, mathematically.
pub struct CallV {
    pub kind: Seq<char>,
    pub index: int,
    pub name: Seq<char>,
    pub arguments: JsonV,
}

/// What a [`WireMessage`] is, mathematically.
pub struct WireV {
    pub role: Seq<char>,
    pub content: Seq<char>,
    pub thinking: Option<Seq<char>>,
    pub tool_name: Option<Seq<char>>,
    pub tool_calls: Option<Seq<CallV>>,
}

impl View for WireToolCall {
    type V = CallV;

    open spec fn view(&self) -> CallV {
        CallV {
            kind: self.kind@,
            index: self.function.index as int,
            name: self.function.name@,
            arguments: self.function.arguments@,
        }
    }
}

/// The views of the calls.
pub open spec fn call_views(v: Seq<WireToolCall>) -> Seq<CallV> {
    Seq::new(v.len(), |i: int| v[i]@)
}

/// The view of an optional text.
pub open spec fn opt_text(s: Option<String>) -> Option<Seq<char>> {
    match s {
        Some(t) => Some(t@),
        None => None,
    }
}

impl View for WireMessage {
    type V = WireV;

    open spec fn view(&self) -> WireV {
        WireV {
            role: self.role@,
            content: self.content@,
            thinking: opt_text(self.thinking),
            tool_name: opt_text(self.tool_name),
            tool_calls: match self.tool_calls {
                Some(calls) => Some(call_views(calls@)),
                None => None,
            },
        }
    }
}

/// The views of the messages.
pub open spec fn wire_views(v: Seq<WireMessage>) -> Seq<WireV> {
    Seq::new(v.len(), |i: int| v[i]@)
}

/// A message of nothing but a role and a content.
pub open spec fn plain(role: Seq<char>, content: Seq<char>) -> WireV {
    WireV { role, content, thinking: None, tool_name: None, tool_calls: None }
}

impl WireMessage {
    /// A message of nothing but a role and a content.
    pub fn simple(role: &'static str, content: String) -> (r: Self)
        ensures
            r@ == plain(role@, content@),
    {
        WireMessage { role, content, thinking: None, tool_name: None, tool_calls: None }
    }
}

/// The name of the last call among the blocks that has this id.
pub open spec fn last_call(blocks: Seq<ContentBlock>, id: Seq<char>) -> Option<Seq<char>>
    decreases blocks.len(),
{
    if blocks.len() == 0 {
        None
    } else {
        match blocks.last() {
            ContentBlock::ToolCall(c) => if c.id@ == id {
                Some(c.name@)
            } else {
                last_call(blocks.drop_last(), id)
            },
            _ => last_call(blocks.drop_last(), id),
        }
    }
}

/// The name of the tool that the call with this id asked for, looked up in the
/// first `upto` messages, the most recent first.
pub open spec fn called_tool(messages: Seq<Message>, upto: int, id: Seq<char>) -> Option<Seq<char>>
    decreases upto,
{
    if upto <= 0 {
        None
    } else {
        match messages[upto - 1] {
            Message::Assistant { content } => match last_call(content@, id) {
                Some(name) => Some(name),
                None => called_tool(messages, upto - 1, id),
            },
            _ => called_tool(messages, upto - 1, id),
        }
    }
}

/// Looks up which tool the call with the id `call_id` asked for, in the first
/// `upto` messages, the most recent first.
pub fn resolve_tool_name<'a>(messages: &'a [Message], upto: usize, call_id: &str) -> (r: Option<
    &'a str,
>)
    requires
        upto <= messages@.len(),
    ensures
        r is Some == called_tool(messages@, upto as int, call_id@) is Some,
        r matches Some(name) ==> called_tool(messages@, upto as int, call_id@) == Some(name@),
{
    let mut i: usize = upto;
    while i > 0
        invariant
            i <= upto <= messages@.len(),
            called_tool(messages@, upto as int, call_id@) == called_tool(
                messages@,
                i as int,
                call_id@,
            ),
        decreases i,
    {
        if let Message::Assistant { content } = &messages[i - 1] {
            let mut j: usize = content.len();
            proof {
                assert(content@.take(j as int) =~= content@);
            }
            while j > 0
                invariant
                    0 < i <= upto <= messages@.len(),
                    messages@[i - 1] == (Message::Assistant { content: *content }),
                    called_tool(messages@, upto as int, call_id@) == called_tool(
                        messages@,
                        i as int,
                        call_id@,
                    ),
                    j <= content@.len(),
                    last_call(content@, call_id@) == last_call(
                        content@.take(j as int),
                        call_id@,
                    ),
                decreases j,
            {
                proof {
                    assert(content@.take(j as int).drop_last() =~= content@.take(j - 1));
                }
                if let ContentBlock::ToolCall(call) = &content[j - 1] {
                    if str_eq(call.id.as_str(), call_id) {
                        return Some(call.name.as_str());
                    }
                }
                j = j - 1;
            }
        }
        i = i - 1;
    }
    None
}

/// The texts among the blocks of a user message.
pub open spec fn user_texts(blocks: Seq<UserBlock>) -> Seq<Seq<char>>
    decreases blocks.len(),
{
    if blocks.len() == 0 {
        Seq::empty()
    } else {
        match blocks.last() {
            UserBlock::Text(t) => user_texts(blocks.drop_last()).push(t@),
            _ => user_texts(blocks.drop_last()),
        }
    }
}

/// The message of one tool result: an error says so in front.
pub open spec fn result_wire(
    name: Option<Seq<char>>,
    content: Seq<char>,
    is_error: bool,
) -> WireV {
    WireV {
        role: "tool"@,
        content: if is_error {
            "ERROR: "@ + content
        } else {
            content
        },
        thinking: None,
        tool_name: name,
        tool_calls: None,
    }
}

/// The messages of the tool results among the blocks of message `idx`.
pub open spec fn result_wires(
    messages: Seq<Message>,
    idx: int,
    blocks: Seq<UserBlock>,
) -> Seq<WireV>
    decreases blocks.len(),
{
    if blocks.len() == 0 {
        Seq::empty()
    } else {
        match blocks.last() {
            UserBlock::ToolResult { call_id, content, is_error } => result_wires(
                messages,
                idx,
                blocks.drop_last(),
            ).push(result_wire(called_tool(messages, idx, call_id@), content@, is_error)),
            _ => result_wires(messages, idx, blocks.drop_last()),
        }
    }
}

/// The id of the first tool result among the blocks that answers no call of an
/// earlier message.
pub open spec fn first_lost_in(
    messages: Seq<Message>,
    idx: int,
    blocks: Seq<UserBlock>,
) -> Option<Seq<char>>
    decreases blocks.len(),
{
    if blocks.len() == 0 {
        None
    } else {
        match first_lost_in(messages, idx, blocks.drop_last()) {
            Some(id) => Some(id),
            None => match blocks.last() {
                UserBlock::ToolResult { call_id, .. } => if called_tool(
                    messages,
                    idx,
                    call_id@,
                ) is None {
                    Some(call_id@)
                } else {
                    None
                },
                _ => None,
            },
        }
    }
}

/// The id of the first tool result in the first `n` messages that answers no
/// call of an earlier message.
pub open spec fn first_lost(messages: Seq<Message>, n: int) -> Option<Seq<char>>
    decreases n,
{
    if n <= 0 {
        None
    } else {
        match first_lost(messages, n - 1) {
            Some(id) => Some(id),
            None => match messages[n - 1] {
                Message::User { content } => first_lost_in(messages, n - 1, content@),
                _ => None,
            },
        }
    }
}

/// The texts among the blocks of an assistant message.
pub open spec fn said_texts(blocks: Seq<ContentBlock>) -> Seq<Seq<char>>
    decreases blocks.len(),
{
    if blocks.len() == 0 {
        Seq::empty()
    } else {
        match blocks.last() {
            ContentBlock::Text(t) => said_texts(blocks.drop_last()).push(t@),
            _ => said_texts(blocks.drop_last()),
        }
    }
}

/// The reasoning among the blocks of an assistant message.
pub open spec fn thought_texts(blocks: Seq<ContentBlock>) -> Seq<Seq<char>>
    decreases blocks.len(),
{
    if blocks.len() == 0 {
        Seq::empty()
    } else {
        match blocks.last() {
            ContentBlock::Reasoning { text, .. } => thought_texts(blocks.drop_last()).push(text@),
            _ => thought_texts(blocks.drop_last()),
        }
    }
}

/// The calls among the blocks of an assistant message, numbered from 0.
pub open spec fn call_wires(blocks: Seq<ContentBlock>) -> Seq<CallV>
    decreases blocks.len(),
{
    if blocks.len() == 0 {
        Seq::empty()
    } else {
        let before = call_wires(blocks.drop_last());
        match blocks.last() {
            ContentBlock::ToolCall(c) => before.push(
                CallV {
                    kind: "function"@,
                    index: before.len() as int,
                    name: c.name@,
                    arguments: c.input@,
                },
            ),
            _ => before,
        }
    }
}

/// The parts as one text, with an empty line between neighbours.
pub open spec fn paragraphs(parts: Seq<Seq<char>>) -> Seq<char> {
    text::join(parts, "\n\n"@)
}

/// What message `idx` is sent as. A user message is sent as its texts, if it
/// has any, followed by its tool results; an assistant message as one message.
pub open spec fn encode_message(messages: Seq<Message>, idx: int) -> Seq<WireV> {
    match messages[idx] {
        Message::User { content } => {
            let texts = user_texts(content@);
            (if texts.len() > 0 {
                seq![plain("user"@, paragraphs(texts))]
            } else {
                Seq::empty()
            }) + result_wires(messages, idx, content@)
        },
        Message::Assistant { content } => {
            let thoughts = thought_texts(content@);
            let calls = call_wires(content@);
            seq![
                WireV {
                    role: "assistant"@,
                    content: paragraphs(said_texts(content@)),
                    thinking: if thoughts.len() > 0 {
                        Some(paragraphs(thoughts))
                    } else {
                        None
                    },
                    tool_name: None,
                    tool_calls: if calls.len() > 0 {
                        Some(calls)
                    } else {
                        None
                    },
                },
            ]
        },
    }
}

/// What the first `n` messages are sent as, after what comes first.
pub open spec fn encode(first: Seq<WireV>, messages: Seq<Message>, n: int) -> Seq<WireV>
    decreases n,
{
    if n <= 0 {
        first
    } else {
        encode(first, messages, n - 1) + encode_message(messages, n - 1)
    }
}

/// The system prompt, if there is one, comes first.
pub open spec fn system_first(system: Option<Seq<char>>) -> Seq<WireV> {
    match system {
        Some(s) => seq![plain("system"@, s)],
        None => Seq::empty(),
    }
}

/// What the service is told of a tool: the same, with the schema of its input
/// under another name.
pub open spec fn function_members(tool: JsonV) -> Seq<(Seq<char>, JsonV)> {
    let a = match json::field(tool, "name"@) {
        Some(v) => Seq::empty().push(("name"@, v)),
        None => Seq::empty(),
    };
    let b = match json::field(tool, "description"@) {
        Some(v) => a.push(("description"@, v)),
        None => a,
    };
    match json::field(tool, "input_schema"@) {
        Some(v) => b.push(("parameters"@, v)),
        None => b,
    }
}

/// What a tool's schema is sent as.
pub open spec fn tool_wire(tool: JsonV) -> JsonV {
    JsonV::Object(
        Seq::empty().push(("type"@, JsonV::String("function"@))).push(
            ("function"@, JsonV::Object(function_members(tool))),
        ),
    )
}

/// What the tools' schemas are sent as.
pub open spec fn tool_wires(tools: Seq<Json>) -> Seq<JsonV> {
    Seq::new(tools.len(), |i: int| tool_wire(tools[i]@))
}

/// What a tool's schema is sent as.
pub fn map_tool(tool: &Json) -> (r: Json)
    ensures
        r@ == tool_wire(tool@),
{
    let mut function = Members::new();
    if let Some(name) = tool.get("name") {
        function.push("name", name.dup());
    }
    if let Some(description) = tool.get("description") {
        function.push("description", description.dup());
    }
    if let Some(schema) = tool.get("input_schema") {
        function.push("parameters", schema.dup());
    }
    let mut root = Members::new();
    root.push("type", json::text("function"));
    root.push("function", function.object());
    root.object()
}

/// The error for a tool result that answers no earlier call.
pub open spec fn lost_message(id: Seq<char>) -> Seq<char> {
    "tool result call_id "@ + text::str_debug(id)
        + " does not resolve to any prior assistant tool call"@
}

/// The error for a tool result that answers no earlier call.
fn lost_error(call_id: &str) -> (r: BackendError)
    ensures
        r matches BackendError::Protocol { message, raw } && message@ == lost_message(call_id@)
            && raw is None,
{
    let mut message = concat("tool result call_id ", debug_of(call_id).as_str());
    message.append(" does not resolve to any prior assistant tool call");
    BackendError::Protocol { message, raw: None }
}

/// Appends the messages of `more` to `all`.
fn append_wires(all: &mut Vec<WireMessage>, more: Vec<WireMessage>)
    ensures
        wire_views(final(all)@) == wire_views(old(all)@) + wire_views(more@),
{
    let ghost added = more@;
    let mut rest = more;
    all.append(&mut rest);
    proof {
        assert(wire_views(all@) =~= wire_views(old(all)@) + wire_views(added));
    }
}

/// What a user message is sent as.
fn encode_user(messages: &[Message], idx: usize, content: &Vec<UserBlock>) -> (r: Result<
    Vec<WireMessage>,
    BackendError,
>)
    requires
        idx < messages@.len(),
        messages@[idx as int] == (Message::User { content: *content }),
    ensures
        first_lost_in(messages@, idx as int, content@) is None ==> (r matches Ok(v) && wire_views(
            v@,
        ) == encode_message(messages@, idx as int)),
        first_lost_in(messages@, idx as int, content@) matches Some(id) ==> (r matches Err(
            BackendError::Protocol { message, raw },
        ) && message@ == lost_message(id) && raw is None),
{
    let mut texts: Vec<String> = Vec::new();
    let mut results: Vec<WireMessage> = Vec::new();
    let mut i: usize = 0;
    proof {
        assert(text::views(texts@) =~= user_texts(content@.take(0)));
        assert(wire_views(results@) =~= result_wires(messages@, idx as int, content@.take(0)));
    }
    while i < content.len()
        invariant
            i <= content@.len(),
            idx < messages@.len(),
            text::views(texts@) == user_texts(content@.take(i as int)),
            wire_views(results@) == result_wires(messages@, idx as int, content@.take(i as int)),
            first_lost_in(messages@, idx as int, content@.take(i as int)) is None,
        decreases content@.len() - i,
    {
        let ghost t0 = text::views(texts@);
        let ghost r0 = wire_views(results@);
        proof {
            assert(content@.take(i + 1).drop_last() =~= content@.take(i as int));
        }
        match &content[i] {
            UserBlock::Text(t) => {
                texts.push(t.clone());
                proof {
                    assert(text::views(texts@) =~= t0.push(t@));
                }
            },
            UserBlock::ToolResult { call_id, content: body, is_error } => {
                match resolve_tool_name(messages, idx, call_id.as_str()) {
                    None => {
                        proof {
                            lemma_first_lost_stays(
                                messages@,
                                idx as int,
                                content@,
                                i + 1,
                            );
                        }
                        return Err(lost_error(call_id.as_str()));
                    },
                    Some(name) => {
                        let sent = if *is_error {
                            concat("ERROR: ", body.as_str())
                        } else {
                            body.clone()
                        };
                        results.push(
                            WireMessage {
                                role: "tool",
                                content: sent,
                                thinking: None,
                                tool_name: Some(name.to_owned()),
                                tool_calls: None,
                            },
                        );
                        proof {
                            assert(wire_views(results@) =~= r0.push(results@.last()@));
                        }
                    },
                }
            },
        }
        i = i + 1;
    }
    proof {
        assert(content@.take(i as int) =~= content@);
    }
    let mut out: Vec<WireMessage> = Vec::new();
    if texts.len() > 0 {
        out.push(WireMessage::simple("user", join_strings(&texts, "\n\n")));
        proof {
            assert(wire_views(out@) =~= seq![plain("user"@, paragraphs(user_texts(content@)))]);
        }
    } else {
        proof {
            assert(text::views(texts@).len() == 0);
            assert(wire_views(out@) =~= Seq::<WireV>::empty());
        }
    }
    append_wires(&mut out, results);
    Ok(out)
}

/// Once a lost result is found, the blocks after it do not change which is the
/// first.
proof fn lemma_first_lost_stays(
    messages: Seq<Message>,
    idx: int,
    blocks: Seq<UserBlock>,
    k: int,
)
    requires
        0 <= k <= blocks.len(),
        first_lost_in(messages, idx, blocks.take(k)) is Some,
    ensures
        first_lost_in(messages, idx, blocks) == first_lost_in(messages, idx, blocks.take(k)),
    decreases blocks.len(),
{
    if k == blocks.len() {
        assert(blocks.take(k) =~= blocks);
    } else {
        assert(blocks.drop_last().take(k) =~= blocks.take(k));
        lemma_first_lost_stays(messages, idx, blocks.drop_last(), k);
    }
}

/// What an assistant message is sent as.
fn encode_assistant(content: &Vec<ContentBlock>) -> (r: WireMessage)
    ensures
        r@.role == "assistant"@,
        r@.content == paragraphs(said_texts(content@)),
        r@.thinking == (if thought_texts(content@).len() > 0 {
            Some(paragraphs(thought_texts(content@)))
        } else {
            None
        }),
        r@.tool_name is None,
        r@.tool_calls == (if call_wires(content@).len() > 0 {
            Some(call_wires(content@))
        } else {
            None
        }),
{
    let mut texts: Vec<String> = Vec::new();
    let mut thoughts: Vec<String> = Vec::new();
    let mut calls: Vec<WireToolCall> = Vec::new();
    let mut i: usize = 0;
    proof {
        assert(text::views(texts@) =~= said_texts(content@.take(0)));
        assert(text::views(thoughts@) =~= thought_texts(content@.take(0)));
        assert(call_views(calls@) =~= call_wires(content@.take(0)));
    }
    while i < content.len()
        invariant
            i <= content@.len(),
            text::views(texts@) == said_texts(content@.take(i as int)),
            text::views(thoughts@) == thought_texts(content@.take(i as int)),
            call_views(calls@) == call_wires(content@.take(i as int)),
        decreases content@.len() - i,
    {
        let ghost t0 = text::views(texts@);
        let ghost h0 = text::views(thoughts@);
        let ghost c0 = call_views(calls@);
        proof {
            assert(content@.take(i + 1).drop_last() =~= content@.take(i as int));
        }
        match &content[i] {
            ContentBlock::Text(t) => {
                texts.push(t.clone());
                proof {
                    assert(text::views(texts@) =~= t0.push(t@));
                }
            },
            ContentBlock::Reasoning { text: t, opaque: _ } => {
                thoughts.push(t.clone());
                proof {
                    assert(text::views(thoughts@) =~= h0.push(t@));
                }
            },
            ContentBlock::ToolCall(call) => {
                let index: usize = calls.len();
                calls.push(
                    WireToolCall {
                        kind: "function",
                        function: WireToolCallFunction {
                            index,
                            name: call.name.clone(),
                            arguments: call.input.dup(),
                        },
                    },
                );
                proof {
                    assert(c0.len() == index);
                    assert(call_views(calls@) =~= c0.push(calls@.last()@));
                }
            },
        }
        i = i + 1;
    }
    proof {
        assert(content@.take(i as int) =~= content@);
        assert(text::views(thoughts@).len() == thoughts@.len());
        assert(call_views(calls@).len() == calls@.len());
    }
    let thinking = if thoughts.len() > 0 {
        Some(join_strings(&thoughts, "\n\n"))
    } else {
        None
    };
    let tool_calls = if calls.len() > 0 {
        Some(calls)
    } else {
        None
    };
    WireMessage {
        role: "assistant",
        content: join_strings(&texts, "\n\n"),
        thinking,
        tool_name: None,
        tool_calls,
    }
}

/// What a [`RequestBody`] is, mathematically.
pub struct RequestV {
    pub model: Seq<char>,
    pub messages: Seq<WireV>,
    pub stream: bool,
    pub tools: Option<Seq<JsonV>>,
    pub think: Option<ThinkLevel>,
    pub num_predict: int,
    pub temperature: Option<NumberV>,
    pub stop: Option<Seq<Seq<char>>>,
    pub num_ctx: Option<u32>,
}

impl View for RequestBody {
    type V = RequestV;

    open spec fn view(&self) -> RequestV {
        RequestV {
            model: self.model@,
            messages: wire_views(self.messages@),
            stream: self.stream,
            tools: match self.tools {
                Some(t) => Some(json::items_view(t@)),
                None => None,
            },
            think: self.think,
            num_predict: self.options.num_predict as int,
            temperature: match self.options.temperature {
                Some(t) => Some(t@),
                None => None,
            },
            stop: match self.options.stop {
                Some(s) => Some(text::views(s@)),
                None => None,
            },
            num_ctx: self.options.num_ctx,
        }
    }
}

/// What a request is sent as: the system prompt first, then the messages in
/// order; tools and stop sequences are left out where there are none.
pub open spec fn request_view(
    model: Seq<char>,
    num_ctx: Option<u32>,
    think: Option<ThinkLevel>,
    req: TurnRequest<'_>,
) -> RequestV {
    RequestV {
        model,
        messages: encode(
            system_first(
                match req.system {
                    Some(s) => Some(s@),
                    None => None,
                },
            ),
            req.messages@,
            req.messages@.len() as int,
        ),
        stream: false,
        tools: if req.tools@.len() == 0 {
            None
        } else {
            Some(tool_wires(req.tools@))
        },
        think,
        num_predict: req.params.max_tokens as int,
        temperature: match req.params.temperature {
            Some(t) => Some(t@),
            None => None,
        },
        stop: if req.params.stop_sequences@.len() == 0 {
            None
        } else {
            Some(text::views(req.params.stop_sequences@))
        },
        num_ctx,
    }
}

/// The messages of a request, or the error for the first tool result that
/// answers no earlier call.
fn encode_messages(req: &TurnRequest<'_>) -> (r: Result<Vec<WireMessage>, BackendError>)
    ensures
        first_lost(req.messages@, req.messages@.len() as int) is None ==> (r matches Ok(v)
            && wire_views(v@) == encode(
            system_first(
                match req.system {
                    Some(s) => Some(s@),
                    None => None,
                },
            ),
            req.messages@,
            req.messages@.len() as int,
        )),
        first_lost(req.messages@, req.messages@.len() as int) matches Some(id) ==> (r matches Err(
            BackendError::Protocol { message, raw },
        ) && message@ == lost_message(id) && raw is None),
{
    let mut out: Vec<WireMessage> = Vec::new();
    let ghost first = system_first(
        match req.system {
            Some(s) => Some(s@),
            None => None,
        },
    );
    if let Some(system) = req.system {
        out.push(WireMessage::simple("system", system.to_owned()));
    }
    proof {
        assert(wire_views(out@) =~= first);
    }
    let mut i: usize = 0;
    while i < req.messages.len()
        invariant
            i <= req.messages@.len(),
            wire_views(out@) == encode(first, req.messages@, i as int),
            first_lost(req.messages@, i as int) is None,
        decreases req.messages@.len() - i,
    {
        match &req.messages[i] {
            Message::User { content } => {
                match encode_user(req.messages, i, content) {
                    Err(e) => {
                        proof {
                            lemma_first_lost_message_stays(
                                req.messages@,
                                i + 1,
                                req.messages@.len() as int,
                            );
                        }
                        return Err(e);
                    },
                    Ok(more) => {
                        append_wires(&mut out, more);
                    },
                }
            },
            Message::Assistant { content } => {
                let ghost before = wire_views(out@);
                out.push(encode_assistant(content));
                proof {
                    let sent = out@.last()@;
                    assert(encode_message(req.messages@, i as int) =~= seq![sent]);
                    assert(wire_views(out@) =~= before + seq![sent]);
                }
            },
        }
        i = i + 1;
    }
    Ok(out)
}

/// Once a lost result is found, the messages after it do not change which is
/// the first.
proof fn lemma_first_lost_message_stays(messages: Seq<Message>, k: int, n: int)
    requires
        0 <= k <= n,
        first_lost(messages, k) is Some,
    ensures
        first_lost(messages, n) == first_lost(messages, k),
    decreases n,
{
    if k < n {
        lemma_first_lost_message_stays(messages, k, n - 1);
    }
}

/// The tools as they are sent.
fn map_tools(tools: &[Json]) -> (r: Vec<Json>)
    ensures
        json::items_view(r@) == tool_wires(tools@),
{
    let mut out: Vec<Json> = Vec::new();
    let mut i: usize = 0;
    while i < tools.len()
        invariant
            i <= tools@.len(),
            json::items_view(out@) == tool_wires(tools@).take(i as int),
        decreases tools@.len() - i,
    {
        let ghost before = json::items_view(out@);
        out.push(map_tool(&tools[i]));
        proof {
            assert(json::items_view(out@) =~= before.push(out@.last()@));
            assert(tool_wires(tools@).take(i + 1) =~= tool_wires(tools@).take(i as int).push(
                tool_wire(tools@[i as int]@),
            ));
        }
        i = i + 1;
    }
    proof {
        assert(tool_wires(tools@).take(i as int) =~= tool_wires(tools@));
    }
    out
}

/// The body of the request for `req`. It fails, before anything is sent, where
/// a tool result answers no earlier call.
pub fn build_request_body(
    model: &str,
    num_ctx: Option<u32>,
    think: Option<ThinkLevel>,
    req: &TurnRequest<'_>,
) -> (r: Result<RequestBody, BackendError>)
    ensures
        first_lost(req.messages@, req.messages@.len() as int) is None ==> (r matches Ok(body)
            && body@ == request_view(model@, num_ctx, think, *req)),
        first_lost(req.messages@, req.messages@.len() as int) matches Some(id) ==> (r matches Err(
            BackendError::Protocol { message, raw },
        ) && message@ == lost_message(id) && raw is None),
{
    let messages = match encode_messages(req) {
        Ok(m) => m,
        Err(e) => {
            return Err(e);
        },
    };
    let tools = if req.tools.len() == 0 {
        None
    } else {
        Some(map_tools(req.tools))
    };
    let stop = if req.params.stop_sequences.len() == 0 {
        None
    } else {
        Some(copy_strings(&req.params.stop_sequences))
    };
    let temperature = match &req.params.temperature {
        Some(t) => Some(t.dup()),
        None => None,
    };
    Ok(
        RequestBody {
            model: model.to_owned(),
            messages,
            stream: false,
            tools,
            think,
            options: Options { num_predict: req.params.max_tokens, temperature, stop, num_ctx },
        },
    )
}

/// How many characters an optional text has.
pub open spec fn opt_chars(s: Option<Seq<char>>) -> nat {
    match s {
        Some(t) => t.len(),
        None => 0,
    }
}

/// The characters of the names and arguments of calls.
pub open spec fn calls_chars(calls: Seq<CallV>) -> nat
    decreases calls.len(),
{
    if calls.len() == 0 {
        0
    } else {
        calls_chars(calls.drop_last()) + calls.last().name.len() + json::json_print(
            calls.last().arguments,
        ).len()
    }
}

/// The characters of the texts of messages.
pub open spec fn messages_chars(messages: Seq<WireV>) -> nat
    decreases messages.len(),
{
    if messages.len() == 0 {
        0
    } else {
        let m = messages.last();
        messages_chars(messages.drop_last()) + m.content.len() + opt_chars(m.thinking) + opt_chars(
            m.tool_name,
        ) + (match m.tool_calls {
            Some(calls) => calls_chars(calls),
            None => 0,
        })
    }
}

/// The characters of the schemas of tools.
pub open spec fn tools_chars(tools: Seq<JsonV>) -> nat
    decreases tools.len(),
{
    if tools.len() == 0 {
        0
    } else {
        tools_chars(tools.drop_last()) + json::json_print(tools.last()).len()
    }
}

/// The characters of the messages and tools of a request.
pub open spec fn prompt_chars(body: RequestV) -> nat {
    messages_chars(body.messages) + (match body.tools {
        Some(tools) => tools_chars(tools),
        None => 0,
    })
}

/// `n`, or the largest `usize` where `n` is more.
pub open spec fn capped(n: nat) -> nat {
    if n > usize::MAX {
        usize::MAX as nat
    } else {
        n
    }
}

/// Adds the characters of `s` to a capped count.
fn add_chars(n: usize, s: &str) -> (r: usize)
    ensures
        r == capped(n as nat + s@.len()),
{
    n.saturating_add(s.unicode_len())
}

/// Adds the characters of a message to a capped count.
fn add_message(n: usize, m: &WireMessage, Ghost(before): Ghost<Seq<WireV>>) -> (r: usize)
    requires
        n == capped(messages_chars(before)),
    ensures
        r == capped(messages_chars(before.push(m@))),
{
    proof {
        assert(before.push(m@).drop_last() =~= before);
    }
    let mut total: usize = add_chars(n, m.content.as_str());
    if let Some(thinking) = &m.thinking {
        total = add_chars(total, thinking.as_str());
    }
    if let Some(name) = &m.tool_name {
        total = add_chars(total, name.as_str());
    }
    if let Some(calls) = &m.tool_calls {
        let ghost cv = call_views(calls@);
        let ghost start = messages_chars(before) + m@.content.len() + opt_chars(m@.thinking)
            + opt_chars(m@.tool_name);
        let mut i: usize = 0;
        proof {
            assert(cv.take(0) =~= Seq::<CallV>::empty());
        }
        while i < calls.len()
            invariant
                i <= calls@.len(),
                cv == call_views(calls@),
                total == capped(start + calls_chars(cv.take(i as int))),
            decreases calls@.len() - i,
        {
            proof {
                assert(cv.take(i + 1).drop_last() =~= cv.take(i as int));
            }
            total = add_chars(total, calls[i].function.name.as_str());
            let arguments = calls[i].function.arguments.to_text();
            total = add_chars(total, arguments.as_str());
            i = i + 1;
        }
        proof {
            assert(cv.take(i as int) =~= cv);
        }
    }
    total
}

/// A rough count of the tokens of a request: a quarter of the characters of
/// its messages and tools. It need not be exact, only large enough to notice a
/// request that cannot fit.
pub fn estimate_prompt_tokens(body: &RequestBody) -> (r: usize)
    ensures
        r == capped(prompt_chars(body@)) / 4,
{
    let ghost wires = wire_views(body.messages@);
    let mut total: usize = 0;
    let mut i: usize = 0;
    proof {
        assert(wires.take(0) =~= Seq::<WireV>::empty());
    }
    while i < body.messages.len()
        invariant
            i <= body.messages@.len(),
            wires == wire_views(body.messages@),
            total == capped(messages_chars(wires.take(i as int))),
        decreases body.messages@.len() - i,
    {
        total = add_message(total, &body.messages[i], Ghost(wires.take(i as int)));
        proof {
            assert(wires.take(i + 1) =~= wires.take(i as int).push(wires[i as int]));
        }
        i = i + 1;
    }
    proof {
        assert(wires.take(i as int) =~= wires);
    }
    if let Some(tools) = &body.tools {
        let ghost tv = json::items_view(tools@);
        let mut j: usize = 0;
        proof {
            assert(tv.take(0) =~= Seq::<JsonV>::empty());
        }
        while j < tools.len()
            invariant
                j <= tools@.len(),
                tv == json::items_view(tools@),
                total == capped(messages_chars(wires) + tools_chars(tv.take(j as int))),
            decreases tools@.len() - j,
        {
            proof {
                assert(tv.take(j + 1).drop_last() =~= tv.take(j as int));
                assert(tv.take(j + 1).last() == tools@[j as int]@);
            }
            let schema = tools[j].to_text();
            total = add_chars(total, schema.as_str());
            j = j + 1;
        }
        proof {
            assert(tv.take(j as int) =~= tv);
        }
    }
    total / 4
}

/// A request that is ready to be sent.
pub struct ChatCall {
    pub url: String,
    /// The value of the `authorization` header, if there is a key.
    pub authorization: Option<String>,
    pub body: RequestBody,
}

/// Where a request goes: the base URL without trailing slashes, and the path.
pub open spec fn endpoint(base_url: Seq<char>, path: Seq<char>) -> Seq<char> {
    text::trim_end_char(base_url, '/') + path
}

/// The `authorization` header for a key.
pub open spec fn bearer(key: Option<Seq<char>>) -> Option<Seq<char>> {
    match key {
        Some(k) => Some("Bearer "@ + k),
        None => None,
    }
}

/// Where a request goes.
pub(crate) fn endpoint_url(base_url: &str, path: &str) -> (r: String)
    ensures
        r@ == endpoint(base_url@, path@),
{
    concat(trimmed_end_char(base_url, '/').as_str(), path)
}

/// The request does not fit in the context window, by the estimate.
pub open spec fn too_long(num_ctx: Option<u32>, body: RequestV) -> bool {
    num_ctx matches Some(n) && capped(prompt_chars(body)) / 4 >= n
}

impl OllamaBackend {
    /// What to send for `req`. It fails, before anything is sent, where a tool
    /// result answers no earlier call, or where the request does not fit in the
    /// context window: the service would drop its oldest messages in silence.
    pub fn prepare(&self, req: &TurnRequest<'_>) -> (r: Result<ChatCall, BackendError>)
        ensures
            ({
                let lost = first_lost(req.messages@, req.messages@.len() as int);
                let body = request_view(self.model@, self.num_ctx, self.think, *req);
                match lost {
                    Some(id) => r matches Err(BackendError::Protocol { message, raw }) && message@
                        == lost_message(id) && raw is None,
                    None => if too_long(self.num_ctx, body) {
                        r matches Err(e) && e is ContextLengthExceeded
                    } else {
                        r matches Ok(call) && {
                            &&& call.url@ == endpoint(self.base_url@, "/api/chat"@)
                            &&& opt_text(call.authorization) == bearer(opt_text(self.api_key))
                            &&& call.body@ == body
                        }
                    },
                }
            }),
    {
        let body = match build_request_body(self.model.as_str(), self.num_ctx, self.think, req) {
            Ok(b) => b,
            Err(e) => {
                return Err(e);
            },
        };
        if let Some(num_ctx) = self.num_ctx {
            if estimate_prompt_tokens(&body) >= num_ctx as usize {
                return Err(BackendError::ContextLengthExceeded);
            }
        }
        let authorization = match &self.api_key {
            Some(key) => Some(concat("Bearer ", key.as_str())),
            None => None,
        };
        Ok(
            ChatCall { url: endpoint_url(self.base_url.as_str(), "/api/chat"), authorization, body },
        )
    }
}

// ---------------------------------------------------------------------------
// Laws
// ---------------------------------------------------------------------------

/// A tool result is named after the most recent call with its id: a later call
/// hides the earlier ones, and messages without that call change nothing.
pub proof fn law_most_recent_call_wins(messages: Seq<Message>, next: Message, id: Seq<char>)
    ensures
        called_tool(messages.push(next), messages.len() as int + 1, id) == (match next {
            Message::Assistant { content } => match last_call(content@, id) {
                Some(name) => Some(name),
                None => called_tool(messages, messages.len() as int, id),
            },
            Message::User { .. } => called_tool(messages, messages.len() as int, id),
        }),
{
    lemma_called_tool_prefix(messages, messages.push(next), messages.len() as int, id);
}

/// What is looked up in the first messages does not depend on later ones.
proof fn lemma_called_tool_prefix(a: Seq<Message>, b: Seq<Message>, n: int, id: Seq<char>)
    requires
        0 <= n <= a.len(),
        n <= b.len(),
        forall|k: int| 0 <= k < n ==> a[k] == b[k],
    ensures
        called_tool(a, n, id) == called_tool(b, n, id),
    decreases n,
{
    if n > 0 {
        lemma_called_tool_prefix(a, b, n - 1, id);
    }
}

/// The ids of the tool results among the blocks, in order.
pub open spec fn result_ids(blocks: Seq<UserBlock>) -> Seq<Seq<char>>
    decreases blocks.len(),
{
    if blocks.len() == 0 {
        Seq::empty()
    } else {
        match blocks.last() {
            UserBlock::ToolResult { call_id, .. } => result_ids(blocks.drop_last()).push(call_id@),
            _ => result_ids(blocks.drop_last()),
        }
    }
}

/// Tool results are sent in the order that they stand in, one message each,
/// under the name of the call that each answers. That order is all that tells
/// two calls of one tool apart.
pub proof fn law_results_keep_their_order(
    messages: Seq<Message>,
    idx: int,
    blocks: Seq<UserBlock>,
)
    ensures
        result_wires(messages, idx, blocks).len() == result_ids(blocks).len(),
        forall|k: int|
            0 <= k < result_ids(blocks).len() ==> {
                let sent = #[trigger] result_wires(messages, idx, blocks)[k];
                &&& sent.role == "tool"@
                &&& sent.tool_name == called_tool(messages, idx, result_ids(blocks)[k])
            },
    decreases blocks.len(),
{
    if blocks.len() > 0 {
        law_results_keep_their_order(messages, idx, blocks.drop_last());
    }
}

/// A request is sent only if every tool result in it answers a call of an
/// earlier message; so no result is ever sent without the name of its tool.
pub proof fn law_sent_results_are_named(messages: Seq<Message>, idx: int, blocks: Seq<UserBlock>)
    requires
        first_lost_in(messages, idx, blocks) is None,
    ensures
        forall|k: int|
            0 <= k < result_wires(messages, idx, blocks).len() ==> (
            #[trigger] result_wires(messages, idx, blocks)[k]).tool_name is Some,
    decreases blocks.len(),
{
    if blocks.len() > 0 {
        law_sent_results_are_named(messages, idx, blocks.drop_last());
    }
}

/// Trailing slashes of the base URL do not matter.
pub proof fn law_trailing_slashes_do_not_matter(base_url: Seq<char>, path: Seq<char>)
    ensures
        endpoint(base_url.push('/'), path) == endpoint(base_url, path),
{
    assert(base_url.push('/').drop_last() =~= base_url);
}

/// The schema of a tool's input is sent under `parameters`, its name and its
/// description under their own names, and nothing else of it is sent.
pub proof fn law_tools_are_renamed(tool: JsonV)
    ensures
        json::field(tool_wire(tool), "type"@) == Some(JsonV::String("function"@)),
        json::field(tool_wire(tool), "function"@) == Some(
            JsonV::Object(function_members(tool)),
        ),
        json::member(function_members(tool), "name"@) == json::field(tool, "name"@),
        json::member(function_members(tool), "description"@) == json::field(tool, "description"@),
        json::member(function_members(tool), "parameters"@) == json::field(tool, "input_schema"@),
{
    reveal_strlit("name");
    reveal_strlit("description");
    reveal_strlit("parameters");
    reveal_strlit("type");
    reveal_strlit("function");
    assert("name"@ != "description"@ && "name"@ != "parameters"@ && "description"@
        != "parameters"@) by {
        assert("name"@.len() == 4 && "description"@.len() == 11 && "parameters"@.len() == 10);
    }
    assert("type"@ != "function"@) by {
        assert("type"@.len() == 4 && "function"@.len() == 8);
    }
    let none = Seq::<(Seq<char>, JsonV)>::empty();
    let a = match json::field(tool, "name"@) {
        Some(v) => none.push(("name"@, v)),
        None => none,
    };
    let b = match json::field(tool, "description"@) {
        Some(v) => a.push(("description"@, v)),
        None => a,
    };
    if let Some(v) = json::field(tool, "name"@) {
        json::lemma_member_push(none, "name"@, v, "name"@);
        json::lemma_member_push(none, "name"@, v, "description"@);
        json::lemma_member_push(none, "name"@, v, "parameters"@);
    }
    if let Some(v) = json::field(tool, "description"@) {
        json::lemma_member_push(a, "description"@, v, "name"@);
        json::lemma_member_push(a, "description"@, v, "description"@);
        json::lemma_member_push(a, "description"@, v, "parameters"@);
    }
    if let Some(v) = json::field(tool, "input_schema"@) {
        json::lemma_member_push(b, "parameters"@, v, "name"@);
        json::lemma_member_push(b, "parameters"@, v, "description"@);
        json::lemma_member_push(b, "parameters"@, v, "parameters"@);
    }
    let first = none.push(("type"@, JsonV::String("function"@)));
    let function = JsonV::Object(function_members(tool));
    json::lemma_member_push(none, "type"@, JsonV::String("function"@), "type"@);
    json::lemma_member_push(first, "function"@, function, "type"@);
    json::lemma_member_push(first, "function"@, function, "function"@);
}

/// What is sent of a request beside its messages: the model, the sampling options,
/// the level of thinking and the context window, as they were given, and whether to
/// stream, which is never; stop sequences one for one and in order, and left out
/// where there are none.
pub proof fn law_the_options_are_sent_as_given(
    model: &str,
    num_ctx: Option<u32>,
    think: Option<ThinkLevel>,
    req: TurnRequest<'_>,
    body: RequestBody,
    i: int,
)
    requires
        call_ensures(build_request_body, (model, num_ctx, think, &req), Ok(body)),
    ensures
        body.model@ == model@,
        !body.stream,
        body.think == think,
        body.options.num_ctx == num_ctx,
        body.options.num_predict == req.params.max_tokens,
        body.options.temperature is Some <==> req.params.temperature is Some,
        body.options.temperature matches Some(t) ==> t@ == req.params.temperature->Some_0@,
        body.options.stop is Some <==> req.params.stop_sequences@.len() > 0,
        body.options.stop matches Some(s) ==> s@.len() == req.params.stop_sequences@.len() && (0
            <= i < s@.len() ==> s@[i]@ == req.params.stop_sequences@[i]@),
{
    let v = request_view(model@, num_ctx, think, req);
    assert(body@ == v);
    assert(body@.temperature == v.temperature);
    assert(body@.stop == v.stop);
    if let Some(s) = body.options.stop {
        let a = text::views(s@);
        let b = text::views(req.params.stop_sequences@);
        assert(a == b);
        assert(a.len() == s@.len());
        assert(b.len() == req.params.stop_sequences@.len());
        if 0 <= i < s@.len() {
            assert(a[i] == b[i]);
        }
    }
}

/// Every tool is sent, in order, as a function with the name, the description and the
/// schema that it has, each if it has it; and tools are left out where there are
/// none.
pub proof fn law_every_tool_is_sent(
    model: &str,
    num_ctx: Option<u32>,
    think: Option<ThinkLevel>,
    req: TurnRequest<'_>,
    body: RequestBody,
    i: int,
)
    requires
        call_ensures(build_request_body, (model, num_ctx, think, &req), Ok(body)),
        0 <= i < req.tools@.len(),
    ensures
        body.tools is Some,
        body.tools->Some_0@.len() == req.tools@.len(),
        ({
            let sent = body.tools->Some_0@[i]@;
            let tool = req.tools@[i]@;
            &&& json::field(sent, "type"@) == Some(JsonV::String("function"@))
            &&& json::field(sent, "function"@) matches Some(f) && {
                &&& json::field(f, "name"@) == json::field(tool, "name"@)
                &&& json::field(f, "description"@) == json::field(tool, "description"@)
                &&& json::field(f, "parameters"@) == json::field(tool, "input_schema"@)
            }
        }),
{
    let v = request_view(model@, num_ctx, think, req);
    assert(body@ == v);
    assert(body@.tools == v.tools);
    let a = json::items_view(body.tools->Some_0@);
    let b = tool_wires(req.tools@);
    assert(a == b);
    assert(a.len() == body.tools->Some_0@.len());
    assert(a[i] == b[i]);
    law_tools_are_renamed(req.tools@[i]@);
}

/// The conversation is sent in order, behind the system prompt: one more message at
/// its end adds what that message is sent as behind all that was sent without it, and
/// changes nothing of that.
pub proof fn law_one_more_message_is_sent_behind_the_others(
    model: &str,
    num_ctx: Option<u32>,
    think: Option<ThinkLevel>,
    req: TurnRequest<'_>,
    body: RequestBody,
    longer: TurnRequest<'_>,
    more: RequestBody,
    next: Message,
)
    requires
        call_ensures(build_request_body, (model, num_ctx, think, &req), Ok(body)),
        call_ensures(build_request_body, (model, num_ctx, think, &longer), Ok(more)),
        longer.system == req.system,
        longer.messages@ == req.messages@.push(next),
    ensures
        wire_views(more.messages@) == wire_views(body.messages@) + encode_message(
            longer.messages@,
            req.messages@.len() as int,
        ),
{
    let n = req.messages@.len() as int;
    let first = system_first(
        match req.system {
            Some(s) => Some(s@),
            None => None,
        },
    );
    assert(body@ == request_view(model@, num_ctx, think, req));
    assert(more@ == request_view(model@, num_ctx, think, longer));
    lemma_encode_prefix(first, req.messages@, longer.messages@, n);
}

proof fn lemma_encode_prefix(first: Seq<WireV>, a: Seq<Message>, b: Seq<Message>, n: int)
    requires
        0 <= n <= a.len(),
        n <= b.len(),
        forall|k: int| 0 <= k < n ==> a[k] == b[k],
    ensures
        encode(first, a, n) == encode(first, b, n),
    decreases n,
{
    if n > 0 {
        lemma_encode_prefix(first, a, b, n - 1);
        if let Message::User { content } = a[n - 1] {
            lemma_result_wires_prefix(a, b, n - 1, content@);
        }
    }
}

proof fn lemma_result_wires_prefix(
    a: Seq<Message>,
    b: Seq<Message>,
    n: int,
    blocks: Seq<UserBlock>,
)
    requires
        0 <= n <= a.len(),
        n <= b.len(),
        forall|k: int| 0 <= k < n ==> a[k] == b[k],
    ensures
        result_wires(a, n, blocks) == result_wires(b, n, blocks),
    decreases blocks.len(),
{
    if blocks.len() > 0 {
        lemma_result_wires_prefix(a, b, n, blocks.drop_last());
        if let UserBlock::ToolResult { call_id, .. } = blocks.last() {
            lemma_called_tool_prefix(a, b, n, call_id@);
        }
    }
}

/// A conversation without messages is sent as the system prompt alone, as it is, and
/// as nothing where there is none.
pub proof fn law_the_system_prompt_is_sent_first(
    model: &str,
    num_ctx: Option<u32>,
    think: Option<ThinkLevel>,
    req: TurnRequest<'_>,
    body: RequestBody,
)
    requires
        call_ensures(build_request_body, (model, num_ctx, think, &req), Ok(body)),
        req.messages@.len() == 0,
    ensures
        req.system is None ==> body.messages@.len() == 0,
        req.system matches Some(s) ==> body.messages@.len() == 1 && {
            let m = body.messages@[0];
            &&& m.role@ == "system"@
            &&& m.content@ == s@
            &&& m.thinking is None
            &&& m.tool_name is None
            &&& m.tool_calls is None
        },
{
    let v = request_view(model@, num_ctx, think, req);
    assert(body@ == v);
    let sent = wire_views(body.messages@);
    assert(sent.len() == body.messages@.len());
    if req.system is Some {
        assert(sent[0] == body.messages@[0]@);
    }
}

/// What an assistant's message is sent as: one message, which holds each block as it
/// is. One more text is put behind the texts, and one more thought behind the
/// thoughts, each with an empty line between; one more call is put behind the calls,
/// under the next number and with its name and arguments; and nothing else changes.
pub proof fn law_what_an_assistant_said_is_sent(
    messages: Seq<Message>,
    longer: Seq<Message>,
    idx: int,
    blocks: Vec<ContentBlock>,
    grown: Vec<ContentBlock>,
    b: ContentBlock,
)
    requires
        0 <= idx < messages.len(),
        0 <= idx < longer.len(),
        messages[idx] == (Message::Assistant { content: blocks }),
        longer[idx] == (Message::Assistant { content: grown }),
        grown@ == blocks@.push(b),
    ensures
        encode_message(messages, idx).len() == 1,
        encode_message(longer, idx).len() == 1,
        blocks@.len() == 0 ==> encode_message(messages, idx)[0] == (WireV {
            role: "assistant"@,
            content: Seq::empty(),
            thinking: None,
            tool_name: None,
            tool_calls: None,
        }),
        ({
            let was = encode_message(messages, idx)[0];
            let is = encode_message(longer, idx)[0];
            let spoke = exists|i: int| 0 <= i < blocks@.len() && #[trigger] blocks@[i] is Text;
            &&& was.role == "assistant"@ && is.role == "assistant"@
            &&& is.tool_name is None
            &&& match b {
                ContentBlock::Text(t) => {
                    &&& is.content == (if spoke {
                        was.content + "\n\n"@ + t@
                    } else {
                        t@
                    })
                    &&& is.thinking == was.thinking
                    &&& is.tool_calls == was.tool_calls
                },
                ContentBlock::Reasoning { text, opaque } => {
                    &&& is.thinking == Some(
                        match was.thinking {
                            Some(before) => before + "\n\n"@ + text@,
                            None => text@,
                        },
                    )
                    &&& is.content == was.content
                    &&& is.tool_calls == was.tool_calls
                },
                ContentBlock::ToolCall(c) => {
                    let before = match was.tool_calls {
                        Some(calls) => calls,
                        None => Seq::empty(),
                    };
                    &&& is.tool_calls == Some(
                        before.push(
                            CallV {
                                kind: "function"@,
                                index: before.len() as int,
                                name: c.name@,
                                arguments: c.input@,
                            },
                        ),
                    )
                    &&& is.content == was.content
                    &&& is.thinking == was.thinking
                },
            }
        }),
{
    assert(grown@.drop_last() =~= blocks@);
    lemma_spoke(blocks@);
    let texts = said_texts(blocks@);
    let thoughts = thought_texts(blocks@);
    match b {
        ContentBlock::Text(t) => {
            lemma_one_more_paragraph(texts, t@);
        },
        ContentBlock::Reasoning { text, opaque } => {
            lemma_one_more_paragraph(thoughts, text@);
        },
        ContentBlock::ToolCall(c) => {
            let calls = call_wires(blocks@);
            if calls.len() == 0 {
                assert(calls =~= Seq::empty());
            }
        },
    }
}

proof fn lemma_spoke(blocks: Seq<ContentBlock>)
    ensures
        said_texts(blocks).len() > 0 <==> exists|i: int|
            0 <= i < blocks.len() && #[trigger] blocks[i] is Text,
    decreases blocks.len(),
{
    if blocks.len() > 0 {
        let front = blocks.drop_last();
        lemma_spoke(front);
        if said_texts(front).len() > 0 {
            let i = choose|i: int| 0 <= i < front.len() && #[trigger] front[i] is Text;
            assert(blocks[i] is Text);
        }
        if blocks.last() is Text {
            assert(blocks[blocks.len() - 1] is Text);
        } else if exists|i: int| 0 <= i < blocks.len() && #[trigger] blocks[i] is Text {
            let i = choose|i: int| 0 <= i < blocks.len() && #[trigger] blocks[i] is Text;
            assert(front[i] is Text);
        }
    }
}

proof fn lemma_one_more_paragraph(parts: Seq<Seq<char>>, t: Seq<char>)
    ensures
        paragraphs(parts.push(t)) == (if parts.len() > 0 {
            paragraphs(parts) + "\n\n"@ + t
        } else {
            t
        }),
{
    assert(parts.push(t).drop_last() =~= parts);
}

/// What a user's message is sent as: first its texts, as one message, if it has any,
/// with an empty line between neighbours; then its tool results, one message each.
/// One more text is put behind the texts, and one more result behind the results,
/// with the name of the tool that it comes from and with `ERROR: ` in front if it is
/// one; and nothing else changes.
pub proof fn law_what_a_user_said_is_sent(
    messages: Seq<Message>,
    longer: Seq<Message>,
    idx: int,
    blocks: Vec<UserBlock>,
    grown: Vec<UserBlock>,
    b: UserBlock,
)
    requires
        0 <= idx < messages.len(),
        longer == messages.update(idx, Message::User { content: grown }),
        messages[idx] == (Message::User { content: blocks }),
        grown@ == blocks@.push(b),
    ensures
        blocks@.len() == 0 ==> encode_message(messages, idx).len() == 0,
        ({
            let was = encode_message(messages, idx);
            let is = encode_message(longer, idx);
            let spoke = exists|i: int| 0 <= i < blocks@.len() && #[trigger] blocks@[i] is Text;
            match b {
                UserBlock::Text(t) => if spoke {
                    &&& was.len() > 0
                    &&& is == was.update(
                        0,
                        WireV { content: was[0].content + "\n\n"@ + t@, ..was[0] },
                    )
                } else {
                    is == seq![
                        WireV {
                            role: "user"@,
                            content: t@,
                            thinking: None,
                            tool_name: None,
                            tool_calls: None,
                        },
                    ] + was
                },
                UserBlock::ToolResult { call_id, content, is_error } => is == was.push(
                    WireV {
                        role: "tool"@,
                        content: if is_error {
                            "ERROR: "@ + content@
                        } else {
                            content@
                        },
                        thinking: None,
                        tool_name: called_tool(messages, idx, call_id@),
                        tool_calls: None,
                    },
                ),
            }
        }),
{
    assert(grown@.drop_last() =~= blocks@);
    lemma_user_spoke(blocks@);
    lemma_result_wires_prefix(messages, longer, idx, blocks@);
    lemma_result_wires_prefix(messages, longer, idx, grown@);
    let texts = user_texts(blocks@);
    let was = encode_message(messages, idx);
    let is = encode_message(longer, idx);
    let results = result_wires(messages, idx, blocks@);
    match b {
        UserBlock::Text(t) => {
            lemma_one_more_paragraph(texts, t@);
            if texts.len() > 0 {
                assert(is =~= was.update(
                    0,
                    WireV { content: was[0].content + "\n\n"@ + t@, ..was[0] },
                ));
            } else {
                assert(was =~= results);
            }
        },
        UserBlock::ToolResult { call_id, content, is_error } => {
            let sent = result_wire(called_tool(messages, idx, call_id@), content@, is_error);
            assert(is =~= was.push(sent));
        },
    }
}

proof fn lemma_user_spoke(blocks: Seq<UserBlock>)
    ensures
        user_texts(blocks).len() > 0 <==> exists|i: int|
            0 <= i < blocks.len() && #[trigger] blocks[i] is Text,
    decreases blocks.len(),
{
    if blocks.len() > 0 {
        let front = blocks.drop_last();
        lemma_user_spoke(front);
        if user_texts(front).len() > 0 {
            let i = choose|i: int| 0 <= i < front.len() && #[trigger] front[i] is Text;
            assert(blocks[i] is Text);
        }
        if blocks.last() is Text {
            assert(blocks[blocks.len() - 1] is Text);
        } else if exists|i: int| 0 <= i < blocks.len() && #[trigger] blocks[i] is Text {
            let i = choose|i: int| 0 <= i < blocks.len() && #[trigger] blocks[i] is Text;
            assert(front[i] is Text);
        }
    }
}

/// Among the messages before `upto`, message `k` holds at place `j` a call with this
/// id.
pub open spec fn calls_at(messages: Seq<Message>, k: int, j: int, id: Seq<char>) -> bool {
    &&& 0 <= k < messages.len()
    &&& messages[k] matches Message::Assistant { content } && 0 <= j < content@.len() && (
    content@[j] matches ContentBlock::ToolCall(c) && c.id@ == id)
}

/// A result is named after the last call with its id: the one behind which no call
/// with that id stands, neither in its own message nor in a later one. Without such a
/// call there is no name.
pub proof fn law_a_result_is_named_after_the_last_call(
    messages: Seq<Message>,
    upto: usize,
    id: &str,
    all: &[Message],
    r: Option<&str>,
    k: int,
    j: int,
)
    requires
        all@ == messages,
        upto <= messages.len(),
        call_ensures(resolve_tool_name, (all, upto, id), r),
    ensures
        k < upto && calls_at(messages, k, j, id@) && (forall|m: int, n: int|
            m < upto && #[trigger] calls_at(messages, m, n, id@) ==> m < k || (m == k && n <= j))
            ==> (r matches Some(name) && name@
            == messages[k]->Assistant_content@[j]->ToolCall_0.name@),
        (forall|m: int, n: int| m < upto ==> !#[trigger] calls_at(messages, m, n, id@)) ==> r is None,
{
    lemma_called_tool(messages, upto as int, id@, k, j);
}

proof fn lemma_called_tool(messages: Seq<Message>, upto: int, id: Seq<char>, k: int, j: int)
    requires
        0 <= upto <= messages.len(),
    ensures
        k < upto && calls_at(messages, k, j, id) && (forall|m: int, n: int|
            m < upto && #[trigger] calls_at(messages, m, n, id) ==> m < k || (m == k && n <= j))
            ==> called_tool(messages, upto, id) == Some(
            messages[k]->Assistant_content@[j]->ToolCall_0.name@,
        ),
        (forall|m: int, n: int| m < upto ==> !#[trigger] calls_at(messages, m, n, id))
            ==> called_tool(messages, upto, id) is None,
    decreases upto,
{
    if upto > 0 {
        lemma_called_tool(messages, upto - 1, id, k, j);
        if let Message::Assistant { content } = messages[upto - 1] {
            lemma_last_call(content@, id);
            if last_call(content@, id) is Some {
                let n = choose|n: int|
                    #![trigger content@[n]]
                    0 <= n < content@.len() && is_call_of(content@[n], id) && last_call(
                        content@,
                        id,
                    ) == Some(content@[n]->ToolCall_0.name@) && forall|i: int|
                        n < i < content@.len() ==> !is_call_of(#[trigger] content@[i], id);
                assert(calls_at(messages, upto - 1, n, id));
                if k == upto - 1 && calls_at(messages, k, j, id) {
                    if n < j {
                        assert(!is_call_of(content@[j], id));
                    }
                }
            } else {
                assert forall|n: int| !#[trigger] calls_at(messages, upto - 1, n, id) by {
                    if calls_at(messages, upto - 1, n, id) {
                        assert(is_call_of(content@[n], id));
                    }
                }
            }
        } else {
            assert forall|n: int| !#[trigger] calls_at(messages, upto - 1, n, id) by {}
        }
    }
}

/// The block is a call with this id.
spec fn is_call_of(block: ContentBlock, id: Seq<char>) -> bool {
    block matches ContentBlock::ToolCall(c) && c.id@ == id
}

proof fn lemma_last_call(blocks: Seq<ContentBlock>, id: Seq<char>)
    ensures
        last_call(blocks, id) is Some ==> exists|n: int|
            #![trigger blocks[n]]
            0 <= n < blocks.len() && is_call_of(blocks[n], id) && last_call(blocks, id) == Some(
                blocks[n]->ToolCall_0.name@,
            ) && forall|i: int| n < i < blocks.len() ==> !is_call_of(#[trigger] blocks[i], id),
        last_call(blocks, id) is None ==> forall|n: int|
            0 <= n < blocks.len() ==> !is_call_of(#[trigger] blocks[n], id),
    decreases blocks.len(),
{
    if blocks.len() > 0 {
        let front = blocks.drop_last();
        let last = blocks.len() - 1;
        lemma_last_call(front, id);
        if is_call_of(blocks[last], id) {
        } else if last_call(front, id) is Some {
            let n = choose|n: int|
                #![trigger front[n]]
                0 <= n < front.len() && is_call_of(front[n], id) && last_call(front, id) == Some(
                    front[n]->ToolCall_0.name@,
                ) && forall|i: int| n < i < front.len() ==> !is_call_of(#[trigger] front[i], id);
            assert(blocks[n] == front[n]);
            assert forall|i: int| n < i < blocks.len() implies !is_call_of(
                #[trigger] blocks[i],
                id,
            ) by {
                if i < last {
                    assert(blocks[i] == front[i]);
                }
            }
        } else {
            assert forall|n: int| 0 <= n < blocks.len() implies !is_call_of(
                #[trigger] blocks[n],
                id,
            ) by {
                if n < last {
                    assert(blocks[n] == front[n]);
                }
            }
        }
    }
}

/// Message `k` holds at place `j` a tool result that answers no call of an earlier
/// message.
pub open spec fn lost_at(messages: Seq<Message>, k: int, j: int) -> bool {
    &&& 0 <= k < messages.len()
    &&& messages[k] matches Message::User { content } && 0 <= j < content@.len() && (
    content@[j] matches UserBlock::ToolResult { call_id, .. } && called_tool(
        messages,
        k,
        call_id@,
    ) is None)
}

/// A request is refused before anything is sent if and only if it holds a tool result
/// that answers no call of an earlier message; and what is refused is the first such
/// result.
pub proof fn law_lost_results_are_refused(
    model: &str,
    num_ctx: Option<u32>,
    think: Option<ThinkLevel>,
    req: TurnRequest<'_>,
    r: Result<RequestBody, BackendError>,
    k: int,
    j: int,
)
    requires
        call_ensures(build_request_body, (model, num_ctx, think, &req), r),
    ensures
        r is Ok <==> forall|m: int, n: int| !#[trigger] lost_at(req.messages@, m, n),
        r matches Err(e) ==> e is Protocol,
        lost_at(req.messages@, k, j) && (forall|m: int, n: int| #[trigger]
            lost_at(req.messages@, m, n) ==> k < m || (k == m && j <= n)) ==> (r matches Err(
            BackendError::Protocol { message, raw },
        ) && raw is None && message@ == "tool result call_id "@ + text::str_debug(
            req.messages@[k]->User_content@[j]->call_id@,
        ) + " does not resolve to any prior assistant tool call"@),
{
    let n = req.messages@.len() as int;
    lemma_first_lost_at(req.messages@, n);
    if first_lost(req.messages@, n) is Some {
        let (a, b) = choose|a: int, b: int|
            {
                &&& #[trigger] lost_at(req.messages@, a, b)
                &&& a < n
                &&& first_lost(req.messages@, n) == Some(
                    req.messages@[a]->User_content@[b]->call_id@,
                )
                &&& forall|m: int, i: int|
                    m < n && #[trigger] lost_at(req.messages@, m, i) ==> a < m || (a == m && b
                        <= i)
            };
        assert(lost_at(req.messages@, a, b));
    }
}

proof fn lemma_first_lost_at(messages: Seq<Message>, n: int)
    requires
        0 <= n <= messages.len(),
    ensures
        first_lost(messages, n) is None ==> forall|m: int, i: int|
            m < n ==> !#[trigger] lost_at(messages, m, i),
        first_lost(messages, n) is Some ==> exists|a: int, b: int|
            {
                &&& #[trigger] lost_at(messages, a, b)
                &&& a < n
                &&& first_lost(messages, n) == Some(messages[a]->User_content@[b]->call_id@)
                &&& forall|m: int, i: int|
                    m < n && #[trigger] lost_at(messages, m, i) ==> a < m || (a == m && b <= i)
            },
    decreases n,
{
    if n > 0 {
        lemma_first_lost_at(messages, n - 1);
        if first_lost(messages, n - 1) is Some {
            let (a, b) = choose|a: int, b: int|
                {
                    &&& #[trigger] lost_at(messages, a, b)
                    &&& a < n - 1
                    &&& first_lost(messages, n - 1) == Some(
                        messages[a]->User_content@[b]->call_id@,
                    )
                    &&& forall|m: int, i: int|
                        m < n - 1 && #[trigger] lost_at(messages, m, i) ==> a < m || (a == m && b
                            <= i)
                };
            assert forall|m: int, i: int| m < n && #[trigger] lost_at(messages, m, i) implies a < m
                || (a == m && b <= i) by {}
            assert(lost_at(messages, a, b));
        } else if let Message::User { content } = messages[n - 1] {
            lemma_first_lost_in(messages, n - 1, content@);
            if first_lost_in(messages, n - 1, content@) is Some {
                let b = choose|b: int|
                    {
                        &&& #[trigger] lost_block(messages, n - 1, content@, b)
                        &&& first_lost_in(messages, n - 1, content@) == Some(
                            content@[b]->call_id@,
                        )
                        &&& forall|i: int|
                            #[trigger] lost_block(messages, n - 1, content@, i) ==> b <= i
                    };
                assert(lost_at(messages, n - 1, b));
                assert forall|m: int, i: int| m < n && #[trigger] lost_at(messages, m, i) implies n
                    - 1 < m || (n - 1 == m && b <= i) by {
                    if m == n - 1 {
                        assert(lost_block(messages, n - 1, content@, i));
                    }
                }
            } else {
                assert forall|m: int, i: int| m < n implies !#[trigger] lost_at(
                    messages,
                    m,
                    i,
                ) by {
                    if m == n - 1 {
                        assert(!lost_block(messages, n - 1, content@, i));
                    }
                }
            }
        }
    }
}

/// The block at this place is a tool result that answers no earlier call.
spec fn lost_block(messages: Seq<Message>, idx: int, blocks: Seq<UserBlock>, i: int) -> bool {
    0 <= i < blocks.len() && (blocks[i] matches UserBlock::ToolResult { call_id, .. }
        && called_tool(messages, idx, call_id@) is None)
}

proof fn lemma_first_lost_in(messages: Seq<Message>, idx: int, blocks: Seq<UserBlock>)
    ensures
        first_lost_in(messages, idx, blocks) is None ==> forall|i: int|
            !#[trigger] lost_block(messages, idx, blocks, i),
        first_lost_in(messages, idx, blocks) is Some ==> exists|b: int|
            {
                &&& #[trigger] lost_block(messages, idx, blocks, b)
                &&& first_lost_in(messages, idx, blocks) == Some(blocks[b]->call_id@)
                &&& forall|i: int| #[trigger] lost_block(messages, idx, blocks, i) ==> b <= i
            },
    decreases blocks.len(),
{
    if blocks.len() > 0 {
        let front = blocks.drop_last();
        let last = blocks.len() - 1;
        lemma_first_lost_in(messages, idx, front);
        assert forall|i: int| i != last implies lost_block(messages, idx, blocks, i)
            == #[trigger] lost_block(messages, idx, front, i) by {}
        assert forall|i: int| #[trigger] lost_block(messages, idx, blocks, i) implies i == last
            || lost_block(messages, idx, front, i) by {}
        if first_lost_in(messages, idx, front) is Some {
            let b = choose|b: int|
                {
                    &&& #[trigger] lost_block(messages, idx, front, b)
                    &&& first_lost_in(messages, idx, front) == Some(front[b]->call_id@)
                    &&& forall|i: int| #[trigger] lost_block(messages, idx, front, i) ==> b <= i
                };
            assert(lost_block(messages, idx, blocks, b));
        } else if lost_block(messages, idx, blocks, last) {
        }
    }
}

/// The estimate counts every character: of each message its text, its thoughts, the
/// name of its tool, and the name and arguments of each of its calls; of each tool
/// what is sent of it. A quarter of them all is the estimate.
pub proof fn law_the_estimate_counts_every_character(
    body: RequestV,
    m: WireV,
    calls: Seq<CallV>,
    call: CallV,
    tools: Seq<JsonV>,
    tool: JsonV,
)
    ensures
        body.messages.len() == 0 && body.tools is None ==> prompt_chars(body) == 0,
        prompt_chars(RequestV { messages: body.messages.push(m), ..body }) == prompt_chars(body)
            + m.content.len() + (match m.thinking {
            Some(t) => t.len(),
            None => 0,
        }) + (match m.tool_name {
            Some(t) => t.len(),
            None => 0,
        }) + (match m.tool_calls {
            Some(c) => calls_chars(c),
            None => 0,
        }),
        calls_chars(Seq::empty()) == 0,
        calls_chars(calls.push(call)) == calls_chars(calls) + call.name.len() + json::json_print(
            call.arguments,
        ).len(),
        prompt_chars(RequestV { tools: Some(tools.push(tool)), ..body }) == prompt_chars(
            RequestV { tools: Some(tools), ..body },
        ) + json::json_print(tool).len(),
        prompt_chars(RequestV { tools: Some(Seq::empty()), ..body }) == prompt_chars(
            RequestV { tools: None, ..body },
        ),
{
    assert(body.messages.push(m).drop_last() =~= body.messages);
    assert(calls.push(call).drop_last() =~= calls);
    assert(tools.push(tool).drop_last() =~= tools);
}

/// What is sent, and when it is not: a request of which a quarter of the characters
/// do not stay below the context window is not sent, and no other is held back for
/// its length. What is sent goes to the chat endpoint below the base URL, with the
/// key, if there is one, and is the body of the request.
pub proof fn law_what_is_sent_fits(
    backend: OllamaBackend,
    req: TurnRequest<'_>,
    r: Result<ChatCall, BackendError>,
)
    requires
        call_ensures(OllamaBackend::prepare, (&backend, &req), r),
    ensures
        r matches Ok(call) ==> {
            &&& call.body.model@ == backend.model@
            &&& call.body.think == backend.think
            &&& call.body.options.num_ctx == backend.num_ctx
            &&& call.authorization is Some <==> backend.api_key is Some
            &&& call.authorization matches Some(a) ==> a@ == "Bearer "@
                + backend.api_key->Some_0@
            &&& backend.num_ctx matches Some(n) ==> prompt_chars(call.body@) < usize::MAX
                ==> prompt_chars(call.body@) / 4 < n
            &&& exists|i: int|
                0 <= i <= backend.base_url@.len() && call.url@ == #[trigger] backend.base_url@.take(
                    i,
                ) + "/api/chat"@ && (i > 0 ==> backend.base_url@[i - 1] != '/') && forall|k: int|
                    i <= k < backend.base_url@.len() ==> #[trigger] backend.base_url@[k] == '/'
        },
        r matches Err(e) ==> e is Protocol || (e is ContextLengthExceeded && backend.num_ctx
            is Some),
        backend.num_ctx is None ==> !(r matches Err(e) && e is ContextLengthExceeded),
        r matches Err(e) && e is ContextLengthExceeded ==> prompt_chars(
            request_view(backend.model@, backend.num_ctx, backend.think, req),
        ) / 4 >= backend.num_ctx->Some_0,
{
    if let Ok(call) = r {
        let v = request_view(backend.model@, backend.num_ctx, backend.think, req);
        assert(call.body@ == v);
        assert(call.body@.model == v.model);
        let i = text::lemma_trim_end_char(backend.base_url@, '/');
        assert(call.url@ == backend.base_url@.take(i) + "/api/chat"@);
    }
}

/// The estimate is a quarter of all characters of a request, rounded down.
pub proof fn law_the_estimate_is_a_quarter_of_the_characters(body: RequestBody, r: usize)
    requires
        call_ensures(estimate_prompt_tokens, (&body,), r),
        prompt_chars(body@) <= usize::MAX,
    ensures
        4 * r <= prompt_chars(body@) < 4 * r + 4,
{
}

} // verus!
