//! The request body as JSON. What is not set is left out of it.
use vstd::prelude::*;

use crate::json;
use crate::json::{Items, Json, JsonV, Members, NumberV};
use crate::ollama::request::{CallV, RequestBody, RequestV, WireMessage, WireToolCall, WireV};
use crate::text;

verus! {

/// The members with one more, if there is one.
pub open spec fn with_optional(
    members: Seq<(Seq<char>, JsonV)>,
    name: Seq<char>,
    value: Option<JsonV>,
) -> Seq<(Seq<char>, JsonV)> {
    match value {
        Some(v) => members.push((name, v)),
        None => members,
    }
}

/// A call as JSON.
pub open spec fn call_json(c: CallV) -> JsonV {
    let function = JsonV::Object(
        Seq::empty().push(("index"@, JsonV::Number(NumberV::Int(c.index)))).push(
            ("name"@, JsonV::String(c.name)),
        ).push(("arguments"@, c.arguments)),
    );
    JsonV::Object(
        Seq::empty().push(("type"@, JsonV::String(c.kind))).push(("function"@, function)),
    )
}

/// Calls as JSON.
pub open spec fn calls_json(calls: Seq<CallV>) -> Seq<JsonV> {
    Seq::new(calls.len(), |i: int| call_json(calls[i]))
}

/// A text as JSON, if there is one.
pub open spec fn text_json(s: Option<Seq<char>>) -> Option<JsonV> {
    match s {
        Some(t) => Some(JsonV::String(t)),
        None => None,
    }
}

/// A message as JSON.
pub open spec fn message_json(m: WireV) -> JsonV {
    let plain = Seq::empty().push(("role"@, JsonV::String(m.role))).push(
        ("content"@, JsonV::String(m.content)),
    );
    let thinking = with_optional(plain, "thinking"@, text_json(m.thinking));
    let tool_name = with_optional(thinking, "tool_name"@, text_json(m.tool_name));
    JsonV::Object(
        with_optional(
            tool_name,
            "tool_calls"@,
            match m.tool_calls {
                Some(calls) => Some(JsonV::Array(calls_json(calls))),
                None => None,
            },
        ),
    )
}

/// Messages as JSON.
pub open spec fn messages_json(messages: Seq<WireV>) -> Seq<JsonV> {
    Seq::new(messages.len(), |i: int| message_json(messages[i]))
}

/// Texts as JSON.
pub open spec fn texts_json(texts: Seq<Seq<char>>) -> Seq<JsonV> {
    Seq::new(texts.len(), |i: int| JsonV::String(texts[i]))
}

/// The sampling options as JSON.
pub open spec fn options_json(b: RequestV) -> JsonV {
    let plain = Seq::empty().push(("num_predict"@, JsonV::Number(NumberV::Int(b.num_predict))));
    let temperature = with_optional(
        plain,
        "temperature"@,
        match b.temperature {
            Some(t) => Some(JsonV::Number(t)),
            None => None,
        },
    );
    let stop = with_optional(
        temperature,
        "stop"@,
        match b.stop {
            Some(texts) => Some(JsonV::Array(texts_json(texts))),
            None => None,
        },
    );
    JsonV::Object(
        with_optional(
            stop,
            "num_ctx"@,
            match b.num_ctx {
                Some(n) => Some(JsonV::Number(NumberV::Int(n as int))),
                None => None,
            },
        ),
    )
}

/// The tools of a request as JSON, if it has any.
pub open spec fn tools_json(b: RequestV) -> Option<JsonV> {
    match b.tools {
        Some(tools) => Some(JsonV::Array(tools)),
        None => None,
    }
}

/// How hard the model should think, as JSON, if it was said.
pub open spec fn think_json(b: RequestV) -> Option<JsonV> {
    match b.think {
        Some(level) => Some(level.wire()),
        None => None,
    }
}

/// The members of a request body.
pub open spec fn body_members(b: RequestV) -> Seq<(Seq<char>, JsonV)> {
    let plain = Seq::empty().push(("model"@, JsonV::String(b.model))).push(
        ("messages"@, JsonV::Array(messages_json(b.messages))),
    ).push(("stream"@, JsonV::Bool(b.stream)));
    let tools = with_optional(plain, "tools"@, tools_json(b));
    let think = with_optional(tools, "think"@, think_json(b));
    think.push(("options"@, options_json(b)))
}

/// A call as JSON.
fn call_to_json(c: &WireToolCall) -> (r: Json)
    ensures
        r@ == call_json(c@),
{
    let mut function = Members::new();
    function.push("index", json::number(c.function.index as u64));
    function.push("name", json::text(c.function.name.as_str()));
    function.push("arguments", c.function.arguments.dup());
    let mut call = Members::new();
    call.push("type", json::text(c.kind));
    call.push("function", function.object());
    call.object()
}

/// A message as JSON.
fn message_to_json(m: &WireMessage) -> (r: Json)
    ensures
        r@ == message_json(m@),
{
    let mut members = Members::new();
    members.push("role", json::text(m.role));
    members.push("content", json::text(m.content.as_str()));
    if let Some(t) = &m.thinking {
        members.push("thinking", json::text(t.as_str()));
    }
    if let Some(t) = &m.tool_name {
        members.push("tool_name", json::text(t.as_str()));
    }
    if let Some(calls) = &m.tool_calls {
        let ghost views = m@.tool_calls->Some_0;
        let mut items = Items::new();
        let mut i: usize = 0;
        while i < calls.len()
            invariant
                i <= calls@.len(),
                views.len() == calls@.len(),
                forall|k: int| 0 <= k < calls@.len() ==> views[k] == (#[trigger] calls@[k])@,
                items@ == calls_json(views).take(i as int),
            decreases calls@.len() - i,
        {
            items.push(call_to_json(&calls[i]));
            proof {
                assert(views[i as int] == calls@[i as int]@);
                assert(items@ =~= calls_json(views).take(i + 1));
            }
            i = i + 1;
        }
        proof {
            assert(calls_json(views).take(i as int) =~= calls_json(views));
        }
        members.push("tool_calls", items.array());
    }
    members.object()
}

impl RequestBody {
    /// The sampling options as JSON.
    fn options_to_json(&self) -> (r: Json)
        ensures
            r@ == options_json(self@),
    {
        let mut members = Members::new();
        members.push("num_predict", json::number(self.options.num_predict as u64));
        if let Some(t) = &self.options.temperature {
            members.push("temperature", Json::Number(t.dup()));
        }
        if let Some(texts) = &self.options.stop {
            let mut items = Items::new();
            let mut i: usize = 0;
            while i < texts.len()
                invariant
                    i <= texts@.len(),
                    items@ == texts_json(text::views(texts@)).take(i as int),
                decreases texts@.len() - i,
            {
                items.push(json::text(texts[i].as_str()));
                proof {
                    assert(items@ =~= texts_json(text::views(texts@)).take(i + 1));
                }
                i = i + 1;
            }
            proof {
                let all = texts_json(text::views(texts@));
                assert(all.take(i as int) =~= all);
            }
            members.push("stop", items.array());
        }
        if let Some(n) = self.options.num_ctx {
            members.push("num_ctx", json::number(n as u64));
        }
        members.object()
    }

    /// The body as it is sent.
    pub fn to_json(&self) -> (r: Json)
        ensures
            r@ == JsonV::Object(body_members(self@)),
    {
        let ghost views = self@.messages;
        let mut messages = Items::new();
        let mut i: usize = 0;
        while i < self.messages.len()
            invariant
                i <= self.messages@.len(),
                views == self@.messages,
                messages@ == messages_json(views).take(i as int),
            decreases self.messages@.len() - i,
        {
            messages.push(message_to_json(&self.messages[i]));
            proof {
                assert(messages@ =~= messages_json(views).take(i + 1));
            }
            i = i + 1;
        }
        proof {
            assert(messages_json(views).take(i as int) =~= messages_json(views));
        }
        let mut members = Members::new();
        members.push("model", json::text(self.model.as_str()));
        members.push("messages", messages.array());
        members.push("stream", Json::Bool(self.stream));
        if let Some(tools) = &self.tools {
            let ghost all = json::items_view(tools@);
            let mut items = Items::new();
            let mut j: usize = 0;
            while j < tools.len()
                invariant
                    j <= tools@.len(),
                    all == json::items_view(tools@),
                    items@ == all.take(j as int),
                decreases tools@.len() - j,
            {
                items.push(tools[j].dup());
                proof {
                    assert(items@ =~= all.take(j + 1));
                }
                j = j + 1;
            }
            proof {
                assert(all.take(j as int) =~= all);
            }
            members.push("tools", items.array());
        }
        if let Some(level) = self.think {
            members.push("think", level.wire_form());
        }
        members.push("options", self.options_to_json());
        members.object()
    }
}

// ---------------------------------------------------------------------------
// Laws
// ---------------------------------------------------------------------------

/// What the members with an optional one are read as.
proof fn lemma_with_optional(
    members: Seq<(Seq<char>, JsonV)>,
    name: Seq<char>,
    value: Option<JsonV>,
    other: Seq<char>,
)
    ensures
        json::member(with_optional(members, name, value), other) == (if other == name
            && value is Some {
            value
        } else {
            json::member(members, other)
        }),
{
    if let Some(v) = value {
        json::lemma_member_push(members, name, v, other);
    }
}

/// What the body holds under a name.
proof fn lemma_body_member(b: RequestV, name: Seq<char>)
    ensures
        json::member(body_members(b), name) == (if name == "options"@ {
            Some(options_json(b))
        } else if name == "think"@ && think_json(b) is Some {
            think_json(b)
        } else if name == "tools"@ && tools_json(b) is Some {
            tools_json(b)
        } else if name == "stream"@ {
            Some(JsonV::Bool(b.stream))
        } else if name == "messages"@ {
            Some(JsonV::Array(messages_json(b.messages)))
        } else if name == "model"@ {
            Some(JsonV::String(b.model))
        } else {
            None
        }),
{
    let none = Seq::<(Seq<char>, JsonV)>::empty();
    let model = JsonV::String(b.model);
    let messages = JsonV::Array(messages_json(b.messages));
    let a = none.push(("model"@, model));
    let c = a.push(("messages"@, messages));
    let d = c.push(("stream"@, JsonV::Bool(b.stream)));
    let e = with_optional(d, "tools"@, tools_json(b));
    let f = with_optional(e, "think"@, think_json(b));
    json::lemma_member_push(none, "model"@, model, name);
    json::lemma_member_push(a, "messages"@, messages, name);
    json::lemma_member_push(c, "stream"@, JsonV::Bool(b.stream), name);
    lemma_with_optional(d, "tools"@, tools_json(b), name);
    lemma_with_optional(e, "think"@, think_json(b), name);
    json::lemma_member_push(f, "options"@, options_json(b), name);
}

/// What is not set is not sent: tools and thinking stand in the body if and only
/// if they are set. Whether to stream always stands in it, as the service would
/// stream otherwise.
pub proof fn law_what_is_not_set_is_not_sent(b: RequestV)
    ensures
        json::member(body_members(b), "tools"@) == tools_json(b),
        json::member(body_members(b), "think"@) == think_json(b),
        json::member(body_members(b), "stream"@) == Some(JsonV::Bool(b.stream)),
        json::member(body_members(b), "options"@) == Some(options_json(b)),
{
    lemma_body_member(b, "tools"@);
    lemma_body_member(b, "think"@);
    lemma_body_member(b, "stream"@);
    lemma_body_member(b, "options"@);
    reveal_strlit("options");
    reveal_strlit("think");
    reveal_strlit("tools");
    reveal_strlit("stream");
    reveal_strlit("messages");
    reveal_strlit("model");
    assert("options"@.len() == 7 && "stream"@.len() == 6 && "messages"@.len() == 8);
    assert("think"@[1] == 'h' && "tools"@[1] == 'o' && "model"@[0] == 'm');
    assert("think"@[0] == 't' && "tools"@[0] == 't');
    assert("think"@.len() == 5 && "tools"@.len() == 5 && "model"@.len() == 5);
}

/// A message is sent with its role and its text, as they are, and with its thoughts,
/// the name of its tool and its calls, each if and only if it has it.
pub proof fn law_a_message_is_sent_with_what_it_has(m: WireV)
    ensures
        json::field(message_json(m), "role"@) == Some(JsonV::String(m.role)),
        json::field(message_json(m), "content"@) == Some(JsonV::String(m.content)),
        json::field(message_json(m), "thinking"@) == (match m.thinking {
            Some(t) => Some(JsonV::String(t)),
            None => None,
        }),
        json::field(message_json(m), "tool_name"@) == (match m.tool_name {
            Some(t) => Some(JsonV::String(t)),
            None => None,
        }),
        m.tool_calls is None ==> json::field(message_json(m), "tool_calls"@) is None,
        m.tool_calls matches Some(calls) ==> (json::field(
            message_json(m),
            "tool_calls"@,
        ) matches Some(JsonV::Array(sent)) && sent.len() == calls.len()),
{
    lemma_message_member(m, "role"@);
    lemma_message_member(m, "content"@);
    lemma_message_member(m, "thinking"@);
    lemma_message_member(m, "tool_name"@);
    lemma_message_member(m, "tool_calls"@);
    reveal_strlit("role");
    reveal_strlit("content");
    reveal_strlit("thinking");
    reveal_strlit("tool_name");
    reveal_strlit("tool_calls");
    assert("role"@.len() == 4 && "content"@.len() == 7 && "thinking"@.len() == 8 && "tool_name"@.len()
        == 9 && "tool_calls"@.len() == 10);
}

/// What a message holds under a name.
proof fn lemma_message_member(m: WireV, name: Seq<char>)
    ensures
        json::field(message_json(m), name) == (if name == "tool_calls"@ && m.tool_calls is Some {
            Some(JsonV::Array(calls_json(m.tool_calls->Some_0)))
        } else if name == "tool_name"@ && m.tool_name is Some {
            text_json(m.tool_name)
        } else if name == "thinking"@ && m.thinking is Some {
            text_json(m.thinking)
        } else if name == "content"@ {
            Some(JsonV::String(m.content))
        } else if name == "role"@ {
            Some(JsonV::String(m.role))
        } else {
            None
        }),
{
    let none = Seq::<(Seq<char>, JsonV)>::empty();
    let role = JsonV::String(m.role);
    let content = JsonV::String(m.content);
    let a = none.push(("role"@, role));
    let b = a.push(("content"@, content));
    let c = with_optional(b, "thinking"@, text_json(m.thinking));
    let d = with_optional(c, "tool_name"@, text_json(m.tool_name));
    json::lemma_member_push(none, "role"@, role, name);
    json::lemma_member_push(a, "content"@, content, name);
    lemma_with_optional(b, "thinking"@, text_json(m.thinking), name);
    lemma_with_optional(c, "tool_name"@, text_json(m.tool_name), name);
    lemma_with_optional(
        d,
        "tool_calls"@,
        match m.tool_calls {
            Some(calls) => Some(JsonV::Array(calls_json(calls))),
            None => None,
        },
        name,
    );
}

/// A call is sent as a function with its number, its name and its arguments, as they
/// are, and each in its place.
pub proof fn law_a_call_is_sent_with_its_arguments(calls: Seq<CallV>, i: int)
    requires
        0 <= i < calls.len(),
    ensures
        calls_json(calls).len() == calls.len(),
        ({
            let sent = calls_json(calls)[i];
            &&& json::field(sent, "type"@) == Some(JsonV::String(calls[i].kind))
            &&& json::field(sent, "function"@) matches Some(f) && {
                &&& json::field(f, "index"@) == Some(JsonV::Number(NumberV::Int(calls[i].index)))
                &&& json::field(f, "name"@) == Some(JsonV::String(calls[i].name))
                &&& json::field(f, "arguments"@) == Some(calls[i].arguments)
            }
        }),
{
    let c = calls[i];
    let none = Seq::<(Seq<char>, JsonV)>::empty();
    let index = JsonV::Number(NumberV::Int(c.index));
    let name = JsonV::String(c.name);
    let a = none.push(("index"@, index));
    let b = a.push(("name"@, name));
    let f = JsonV::Object(b.push(("arguments"@, c.arguments)));
    let t = none.push(("type"@, JsonV::String(c.kind)));
    reveal_strlit("index");
    reveal_strlit("name");
    reveal_strlit("arguments");
    reveal_strlit("type");
    reveal_strlit("function");
    assert("index"@.len() == 5 && "name"@.len() == 4 && "arguments"@.len() == 9 && "type"@.len() == 4
        && "function"@.len() == 8);
    json::law_what_is_put_in_is_found(none, "index"@, index, "name"@);
    json::law_what_is_put_in_is_found(a, "name"@, name, "index"@);
    json::law_what_is_put_in_is_found(b, "arguments"@, c.arguments, "index"@);
    json::law_what_is_put_in_is_found(b, "arguments"@, c.arguments, "name"@);
    json::law_what_is_put_in_is_found(none, "type"@, JsonV::String(c.kind), "type"@);
    json::law_what_is_put_in_is_found(t, "function"@, f, "type"@);
}

/// What is sent of a request, on the wire: the model, whether to stream, and every
/// message in its place; and of the options the number of tokens, and the
/// temperature, the stop sequences and the context window, each if and only if it is
/// set.
pub proof fn law_what_stands_on_the_wire(body: RequestBody, sent: Json, i: int)
    requires
        call_ensures(RequestBody::to_json, (&body,), sent),
    ensures
        json::field(sent@, "model"@) == Some(JsonV::String(body.model@)),
        json::field(sent@, "stream"@) == Some(JsonV::Bool(body.stream)),
        json::field(sent@, "messages"@) matches Some(JsonV::Array(messages)) && messages.len()
            == body.messages@.len() && (0 <= i < messages.len() ==> messages[i] == message_json(
            body.messages@[i]@,
        )),
        json::field(sent@, "options"@) matches Some(options) && {
            &&& json::field(options, "num_predict"@) == Some(
                JsonV::Number(NumberV::Int(body.options.num_predict as int)),
            )
            &&& json::field(options, "temperature"@) == (match body.options.temperature {
                Some(t) => Some(JsonV::Number(t@)),
                None => None,
            })
            &&& json::field(options, "num_ctx"@) == (match body.options.num_ctx {
                Some(n) => Some(JsonV::Number(NumberV::Int(n as int))),
                None => None,
            })
            &&& body.options.stop is None ==> json::field(options, "stop"@) is None
            &&& body.options.stop matches Some(texts) ==> (json::field(
                options,
                "stop"@,
            ) matches Some(JsonV::Array(stop)) && stop.len() == texts@.len() && (0 <= i
                < stop.len() ==> stop[i] == JsonV::String(texts@[i]@)))
        },
{
    let v = body@;
    lemma_body_member(v, "model"@);
    lemma_body_member(v, "messages"@);
    law_what_is_not_set_is_not_sent(v);
    reveal_strlit("options");
    reveal_strlit("think");
    reveal_strlit("tools");
    reveal_strlit("stream");
    reveal_strlit("messages");
    reveal_strlit("model");
    reveal_strlit("num_predict");
    reveal_strlit("temperature");
    reveal_strlit("stop");
    reveal_strlit("num_ctx");
    assert("options"@.len() == 7 && "stream"@.len() == 6 && "messages"@.len() == 8);
    assert("think"@[0] == 't' && "tools"@[0] == 't' && "model"@[0] == 'm');
    assert("num_predict"@[4] == 'p' && "temperature"@[0] == 't' && "stop"@.len() == 4
        && "num_ctx"@.len() == 7 && "num_predict"@.len() == 11);
    assert("num_predict"@[0] == 'n');
    let none = Seq::<(Seq<char>, JsonV)>::empty();
    let predict = JsonV::Number(NumberV::Int(v.num_predict));
    let temperature = match v.temperature {
        Some(t) => Some(JsonV::Number(t)),
        None => None,
    };
    let stop = match v.stop {
        Some(texts) => Some(JsonV::Array(texts_json(texts))),
        None => None,
    };
    let num_ctx = match v.num_ctx {
        Some(n) => Some(JsonV::Number(NumberV::Int(n as int))),
        None => None,
    };
    let a = none.push(("num_predict"@, predict));
    let b = with_optional(a, "temperature"@, temperature);
    let c = with_optional(b, "stop"@, stop);
    lemma_options_member(none, a, b, c, predict, temperature, stop, num_ctx, "num_predict"@);
    lemma_options_member(none, a, b, c, predict, temperature, stop, num_ctx, "temperature"@);
    lemma_options_member(none, a, b, c, predict, temperature, stop, num_ctx, "stop"@);
    lemma_options_member(none, a, b, c, predict, temperature, stop, num_ctx, "num_ctx"@);
    assert(options_json(v) == JsonV::Object(with_optional(c, "num_ctx"@, num_ctx)));
}

proof fn lemma_options_member(
    none: Seq<(Seq<char>, JsonV)>,
    a: Seq<(Seq<char>, JsonV)>,
    b: Seq<(Seq<char>, JsonV)>,
    c: Seq<(Seq<char>, JsonV)>,
    predict: JsonV,
    temperature: Option<JsonV>,
    stop: Option<JsonV>,
    num_ctx: Option<JsonV>,
    name: Seq<char>,
)
    requires
        none == Seq::<(Seq<char>, JsonV)>::empty(),
        a == none.push(("num_predict"@, predict)),
        b == with_optional(a, "temperature"@, temperature),
        c == with_optional(b, "stop"@, stop),
    ensures
        json::member(with_optional(c, "num_ctx"@, num_ctx), name) == (if name == "num_ctx"@
            && num_ctx is Some {
            num_ctx
        } else if name == "stop"@ && stop is Some {
            stop
        } else if name == "temperature"@ && temperature is Some {
            temperature
        } else if name == "num_predict"@ {
            Some(predict)
        } else {
            None
        }),
{
    json::lemma_member_push(none, "num_predict"@, predict, name);
    lemma_with_optional(a, "temperature"@, temperature, name);
    lemma_with_optional(b, "stop"@, stop, name);
    lemma_with_optional(c, "num_ctx"@, num_ctx, name);
}

} // verus!
