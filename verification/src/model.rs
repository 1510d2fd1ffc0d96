//! The conversation with a model, in the form that every backend is
//! translated into. The assistant's blocks and the user's blocks are different
//! types, so an assistant message cannot hold a tool result nor a user message
//! a tool call. There is no system message: the system prompt rides on
//! [`TurnRequest`].
use vstd::prelude::*;

use crate::json::{Json, JsonV, Number};
use crate::time::Duration;

verus! {

/// A tool call that the model asks for.
#[derive(Debug, Clone, PartialEq, Eq)]
pub struct ToolCallRequest {
    /// What a later tool result names the call by.
    pub id: String,
    pub name: String,
    pub input: Json,
}

/// What an assistant message is made of.
#[derive(Debug, Clone, PartialEq, Eq)]
pub enum ContentBlock {
    Text(String),
    /// A reasoning trace; `opaque` is what a provider wants echoed back.
    Reasoning { text: String, opaque: Option<String> },
    ToolCall(ToolCallRequest),
}

/// What a user message is made of.
#[derive(Debug, Clone, PartialEq, Eq)]
pub enum UserBlock {
    Text(String),
    /// The result of the tool call with the id `call_id`.
    ToolResult { call_id: String, content: String, is_error: bool },
}

/// One message of the conversation.
#[allow(inconsistent_fields)]
#[derive(Debug, Clone, PartialEq, Eq)]
pub enum Message {
    User { content: Vec<UserBlock> },
    Assistant { content: Vec<ContentBlock> },
}

/// What a [`ContentBlock`] is, mathematically.
#[verifier::ext_equal]
pub enum ContentV {
    Text(Seq<char>),
    Reasoning(Seq<char>, Option<Seq<char>>),
    ToolCall(Seq<char>, Seq<char>, JsonV),
}

/// What a [`UserBlock`] is, mathematically.
#[verifier::ext_equal]
pub enum UserV {
    Text(Seq<char>),
    ToolResult(Seq<char>, Seq<char>, bool),
}

/// What a [`Message`] is, mathematically.
#[verifier::ext_equal]
pub enum MessageV {
    User(Seq<UserV>),
    Assistant(Seq<ContentV>),
}

impl View for ContentBlock {
    type V = ContentV;

    open spec fn view(&self) -> ContentV {
        match self {
            ContentBlock::Text(t) => ContentV::Text(t@),
            ContentBlock::Reasoning { text, opaque } => ContentV::Reasoning(
                text@,
                match opaque {
                    Some(o) => Some(o@),
                    None => None,
                },
            ),
            ContentBlock::ToolCall(c) => ContentV::ToolCall(c.id@, c.name@, c.input@),
        }
    }
}

impl View for UserBlock {
    type V = UserV;

    open spec fn view(&self) -> UserV {
        match self {
            UserBlock::Text(t) => UserV::Text(t@),
            UserBlock::ToolResult { call_id, content, is_error } => UserV::ToolResult(
                call_id@,
                content@,
                *is_error,
            ),
        }
    }
}

/// The views of the blocks.
pub open spec fn content_views(blocks: Seq<ContentBlock>) -> Seq<ContentV> {
    Seq::new(blocks.len(), |i: int| blocks[i]@)
}

/// The views of the blocks.
pub open spec fn user_views(blocks: Seq<UserBlock>) -> Seq<UserV> {
    Seq::new(blocks.len(), |i: int| blocks[i]@)
}

/// The views of the messages.
pub open spec fn message_views(messages: Seq<Message>) -> Seq<MessageV> {
    Seq::new(messages.len(), |i: int| messages[i]@)
}

impl View for Message {
    type V = MessageV;

    open spec fn view(&self) -> MessageV {
        match self {
            Message::User { content } => MessageV::User(user_views(content@)),
            Message::Assistant { content } => MessageV::Assistant(content_views(content@)),
        }
    }
}

impl ContentBlock {
    /// A copy of the block.
    pub fn dup(&self) -> (r: ContentBlock)
        ensures
            r@ == self@,
    {
        match self {
            ContentBlock::Text(t) => ContentBlock::Text(t.clone()),
            ContentBlock::Reasoning { text, opaque } => ContentBlock::Reasoning {
                text: text.clone(),
                opaque: match opaque {
                    Some(o) => Some(o.clone()),
                    None => None,
                },
            },
            ContentBlock::ToolCall(c) => ContentBlock::ToolCall(
                ToolCallRequest { id: c.id.clone(), name: c.name.clone(), input: c.input.dup() },
            ),
        }
    }
}

impl UserBlock {
    /// A copy of the block.
    pub fn dup(&self) -> (r: UserBlock)
        ensures
            r@ == self@,
    {
        match self {
            UserBlock::Text(t) => UserBlock::Text(t.clone()),
            UserBlock::ToolResult { call_id, content, is_error } => UserBlock::ToolResult {
                call_id: call_id.clone(),
                content: content.clone(),
                is_error: *is_error,
            },
        }
    }
}

impl Message {
    /// A copy of the message.
    pub fn dup(&self) -> (r: Message)
        ensures
            r@ == self@,
    {
        match self {
            Message::User { content } => {
                let mut out: Vec<UserBlock> = Vec::new();
                let mut i: usize = 0;
                while i < content.len()
                    invariant
                        i <= content@.len(),
                        out@.len() == i,
                        forall|k: int| 0 <= k < i ==> (#[trigger] out@[k])@ == content@[k]@,
                    decreases content@.len() - i,
                {
                    out.push(content[i].dup());
                    i = i + 1;
                }
                proof {
                    assert(user_views(out@) =~= user_views(content@));
                }
                Message::User { content: out }
            },
            Message::Assistant { content } => {
                let mut out: Vec<ContentBlock> = Vec::new();
                let mut i: usize = 0;
                while i < content.len()
                    invariant
                        i <= content@.len(),
                        out@.len() == i,
                        forall|k: int| 0 <= k < i ==> (#[trigger] out@[k])@ == content@[k]@,
                    decreases content@.len() - i,
                {
                    out.push(content[i].dup());
                    i = i + 1;
                }
                proof {
                    assert(content_views(out@) =~= content_views(content@));
                }
                Message::Assistant { content: out }
            },
        }
    }
}

/// A copy of the messages.
pub fn copy_messages(messages: &[Message]) -> (r: Vec<Message>)
    ensures
        message_views(r@) == message_views(messages@),
{
    let mut out: Vec<Message> = Vec::new();
    let mut i: usize = 0;
    while i < messages.len()
        invariant
            i <= messages@.len(),
            out@.len() == i,
            forall|k: int| 0 <= k < i ==> (#[trigger] out@[k])@ == messages@[k]@,
        decreases messages@.len() - i,
    {
        out.push(messages[i].dup());
        i = i + 1;
    }
    proof {
        assert(message_views(out@) =~= message_views(messages@));
    }
    out
}

/// Why the model stopped.
#[derive(Debug, Clone, PartialEq, Eq)]
pub enum StopReason {
    EndTurn,
    ToolUse,
    MaxTokens,
    StopSequence,
    Other(String),
}

/// The tokens of one turn. Where an optional count is absent the provider did
/// not report it, which is not the same as zero.
#[derive(Debug, Clone, Copy, PartialEq, Eq, Structural)]
pub struct Usage {
    pub input_tokens: u32,
    pub output_tokens: u32,
    pub cache_read_tokens: Option<u32>,
    pub cache_write_tokens: Option<u32>,
    pub reasoning_tokens: Option<u32>,
}

/// One answer of the model.
#[derive(Debug, Clone, PartialEq, Eq)]
pub struct AssistantTurn {
    pub content: Vec<ContentBlock>,
    pub stop_reason: StopReason,
    pub usage: Usage,
}

/// The texts of the text blocks, one after the other.
pub open spec fn said(blocks: Seq<ContentBlock>) -> Seq<char>
    decreases blocks.len(),
{
    if blocks.len() == 0 {
        Seq::empty()
    } else {
        match blocks.last() {
            ContentBlock::Text(t) => said(blocks.drop_last()) + t@,
            _ => said(blocks.drop_last()),
        }
    }
}

/// The tool calls among the blocks, in order.
pub open spec fn calls(blocks: Seq<ContentBlock>) -> Seq<ToolCallRequest>
    decreases blocks.len(),
{
    if blocks.len() == 0 {
        Seq::empty()
    } else {
        match blocks.last() {
            ContentBlock::ToolCall(c) => calls(blocks.drop_last()).push(c),
            _ => calls(blocks.drop_last()),
        }
    }
}

impl AssistantTurn {
    /// What the model said: its text blocks, one after the other.
    pub fn text(&self) -> (r: String)
        ensures
            r@ == said(self.content@),
    {
        let mut out = String::new();
        let mut i: usize = 0;
        while i < self.content.len()
            invariant
                i <= self.content@.len(),
                out@ == said(self.content@.take(i as int)),
            decreases self.content@.len() - i,
        {
            proof {
                assert(self.content@.take(i + 1).drop_last() =~= self.content@.take(i as int));
            }
            if let ContentBlock::Text(t) = &self.content[i] {
                out.append(t.as_str());
            }
            i = i + 1;
        }
        proof {
            assert(self.content@.take(i as int) =~= self.content@);
        }
        out
    }

    /// The tool calls of the turn, in order.
    pub fn tool_calls(&self) -> (r: Vec<&ToolCallRequest>)
        ensures
            r@.len() == calls(self.content@).len(),
            forall|k: int| 0 <= k < r@.len() ==> *#[trigger] r@[k] == calls(self.content@)[k],
    {
        let mut out: Vec<&ToolCallRequest> = Vec::new();
        let mut i: usize = 0;
        while i < self.content.len()
            invariant
                i <= self.content@.len(),
                out@.len() == calls(self.content@.take(i as int)).len(),
                forall|k: int|
                    0 <= k < out@.len() ==> *#[trigger] out@[k] == calls(
                        self.content@.take(i as int),
                    )[k],
            decreases self.content@.len() - i,
        {
            proof {
                assert(self.content@.take(i + 1).drop_last() =~= self.content@.take(i as int));
            }
            if let ContentBlock::ToolCall(c) = &self.content[i] {
                out.push(c);
            }
            i = i + 1;
        }
        proof {
            assert(self.content@.take(i as int) =~= self.content@);
        }
        out
    }
}

impl From<AssistantTurn> for Message {
    /// The turn as a message of the history: its content, and nothing else.
    fn from(turn: AssistantTurn) -> (r: Self) {
        Message::Assistant { content: turn.content }
    }
}

impl vstd::std_specs::convert::FromSpecImpl<AssistantTurn> for Message {
    open spec fn obeys_from_spec() -> bool {
        true
    }

    open spec fn from_spec(turn: AssistantTurn) -> Self {
        Message::Assistant { content: turn.content }
    }
}

/// How to sample, for one call. The temperature only passes through.
#[derive(Debug, Clone, PartialEq, Eq)]
pub struct SamplingParams {
    pub max_tokens: u32,
    pub temperature: Option<Number>,
    pub stop_sequences: Vec<String>,
}

/// One request to a backend. The model is fixed where the backend is made.
#[derive(Debug, Clone, Copy)]
pub struct TurnRequest<'a> {
    pub system: Option<&'a str>,
    pub messages: &'a [Message],
    pub tools: &'a [Json],
    pub params: &'a SamplingParams,
}

/// Why a failure may go away by itself.
#[derive(Debug, Clone, Copy, PartialEq, Eq, Structural)]
pub enum TransientKind {
    RateLimit,
    Overloaded,
    ServerError,
    Network,
    Timeout,
}

/// Why a failure will not go away by itself.
#[derive(Debug, Clone, Copy, PartialEq, Eq, Structural)]
pub enum TerminalKind {
    Auth,
    BadRequest,
    UnknownModel,
    SchemaRejected,
    Other,
}

impl TransientKind {
    /// The kind's name.
    pub open spec fn text(self) -> Seq<char> {
        match self {
            TransientKind::RateLimit => "RateLimit"@,
            TransientKind::Overloaded => "Overloaded"@,
            TransientKind::ServerError => "ServerError"@,
            TransientKind::Network => "Network"@,
            TransientKind::Timeout => "Timeout"@,
        }
    }

    /// The kind's name.
    pub fn name(self) -> (r: &'static str)
        ensures
            r@ == self.text(),
    {
        match self {
            TransientKind::RateLimit => "RateLimit",
            TransientKind::Overloaded => "Overloaded",
            TransientKind::ServerError => "ServerError",
            TransientKind::Network => "Network",
            TransientKind::Timeout => "Timeout",
        }
    }
}

impl TerminalKind {
    /// The kind's name.
    pub open spec fn text(self) -> Seq<char> {
        match self {
            TerminalKind::Auth => "Auth"@,
            TerminalKind::BadRequest => "BadRequest"@,
            TerminalKind::UnknownModel => "UnknownModel"@,
            TerminalKind::SchemaRejected => "SchemaRejected"@,
            TerminalKind::Other => "Other"@,
        }
    }

    /// The kind's name.
    pub fn name(self) -> (r: &'static str)
        ensures
            r@ == self.text(),
    {
        match self {
            TerminalKind::Auth => "Auth",
            TerminalKind::BadRequest => "BadRequest",
            TerminalKind::UnknownModel => "UnknownModel",
            TerminalKind::SchemaRejected => "SchemaRejected",
            TerminalKind::Other => "Other",
        }
    }
}

/// Why a call of a backend failed.
#[allow(inconsistent_fields)]
#[derive(Debug)]
pub enum BackendError {
    /// The same request may work later; `retry_after` is the provider's hint.
    Transient { kind: TransientKind, retry_after: Option<Duration> },
    /// The request is too long; it can work only once it is made shorter.
    ContextLengthExceeded,
    /// The request cannot work.
    Terminal { kind: TerminalKind, message: String },
    /// The answer could not be understood; `raw` is the answer.
    Protocol { message: String, raw: Option<String> },
}

/// What `std::time::Duration` writes of itself for `{:?}`.
pub uninterp spec fn duration_debug(secs: u64, nanos: u32) -> Seq<char>;

/// Writes a duration as `std::time::Duration` does for `{:?}`. The contract
/// only names the text, as a function of the seconds and nanoseconds.
#[verifier::external_body]
fn write_duration(d: Duration) -> (r: String)
    requires
        d.wf(),
    ensures
        r@ == duration_debug(d.secs, d.nanos),
{
    format!("{:?}", std::time::Duration::new(d.secs, d.nanos))
}

impl BackendError {
    /// A hint, where there is one, is a well-formed duration.
    pub open spec fn wf(self) -> bool {
        self matches BackendError::Transient { retry_after: Some(d), .. } ==> d.wf()
    }

    /// Whether the same request may work later.
    pub fn is_retryable(&self) -> (r: bool)
        ensures
            r == (*self is Transient),
    {
        match self {
            BackendError::Transient { .. } => true,
            _ => false,
        }
    }

    /// What the error says.
    pub open spec fn says(self) -> Seq<char> {
        match self {
            BackendError::Transient { kind, retry_after } => "transient backend failure ("@
                + kind.text() + "; retry_after="@ + (match retry_after {
                Some(d) => "Some("@ + duration_debug(d.secs, d.nanos) + ")"@,
                None => "None"@,
            }) + ")"@,
            BackendError::ContextLengthExceeded => "context length exceeded"@,
            BackendError::Terminal { kind, message } => "terminal backend failure ("@ + kind.text()
                + "): "@ + message@,
            BackendError::Protocol { message, .. } => "protocol error: "@ + message@,
        }
    }

    /// The error as a message.
    pub fn message(&self) -> (r: String)
        requires
            self.wf(),
        ensures
            r@ == self.says(),
    {
        match self {
            BackendError::Transient { kind, retry_after } => {
                let mut s = "transient backend failure (".to_owned();
                s.append(kind.name());
                s.append("; retry_after=");
                let mut hint = "None".to_owned();
                if let Some(d) = retry_after {
                    hint = "Some(".to_owned();
                    hint.append(write_duration(*d).as_str());
                    hint.append(")");
                }
                s.append(hint.as_str());
                s.append(")");
                s
            },
            BackendError::ContextLengthExceeded => "context length exceeded".to_owned(),
            BackendError::Terminal { kind, message } => {
                let mut s = "terminal backend failure (".to_owned();
                s.append(kind.name());
                s.append("): ");
                s.append(message.as_str());
                s
            },
            BackendError::Protocol { message, raw: _ } => {
                let mut s = "protocol error: ".to_owned();
                s.append(message.as_str());
                s
            },
        }
    }
}

// ---------------------------------------------------------------------------
// Laws
// ---------------------------------------------------------------------------

/// What a turn said is all of its texts, one behind the other and as they are: one
/// more text is put at the end, and a block that is no text changes nothing.
pub proof fn law_a_turn_says_all_of_its_texts(
    turn: AssistantTurn,
    longer: AssistantTurn,
    b: ContentBlock,
    r: String,
    s: String,
)
    requires
        call_ensures(AssistantTurn::text, (&turn,), r),
        call_ensures(AssistantTurn::text, (&longer,), s),
        longer.content@ == turn.content@.push(b),
    ensures
        turn.content@.len() == 0 ==> r@.len() == 0,
        s@ == (match b {
            ContentBlock::Text(t) => r@ + t@,
            _ => r@,
        }),
{
    assert(longer.content@.drop_last() =~= turn.content@);
}

/// The calls of a turn are all of its call blocks, in their order and as they are: one
/// more is put at the end, and any other block changes nothing.
pub proof fn law_a_turn_has_all_of_its_calls(turn: Seq<ContentBlock>, b: ContentBlock)
    ensures
        calls(Seq::empty()).len() == 0,
        calls(turn.push(b)) == (match b {
            ContentBlock::ToolCall(c) => calls(turn).push(c),
            _ => calls(turn),
        }),
{
    assert(turn.push(b).drop_last() =~= turn);
}

/// Only a failure that may go away by itself is worth another try.
pub proof fn law_only_passing_failures_are_retried(e: BackendError, r: bool)
    requires
        call_ensures(BackendError::is_retryable, (&e,), r),
    ensures
        r <==> e is Transient,
        e is Terminal || e is Protocol || e is ContextLengthExceeded ==> !r,
{
}

} // verus!
