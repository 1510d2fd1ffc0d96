//! The Ollama backend: from a [`TurnRequest`](crate::model::TurnRequest) to the
//! body of `POST /api/chat`, from the answer to an
//! [`AssistantTurn`](crate::model::AssistantTurn), and the context length of a
//! model from `POST /api/show`. The requests themselves are sent outside this
//! crate.
//!
//! A local daemon and the hosted service speak the same protocol; only the base
//! URL and the key differ.
use vstd::prelude::*;

use crate::json;
use crate::json::{Json, JsonV};

pub mod answer;
pub mod context;
pub mod request;
pub mod wire;

pub use answer::{
    classify_status, classify_transport_error, extract_error_message, finish_turn, is_success,
    map_error_status, map_response, map_stop_reason, ollama_usage_inconsistency_warning,
    ErrorBody, MappedResponse, ResponseBody, ResponseMessage, ResponseToolCall,
    ResponseToolCallFunction,
};
pub use context::{
    is_local_ollama_url, length_in_show, needs_probe, resolve_context_length, resolve_num_ctx,
    show_call, ContextLengthError, ContextLengthErrorKind, NumCtxResolution, NumCtxSource,
    ResolvedContextLength, ShowCall, MIN_EXPECTED_NUM_CTX,
};
pub use request::{
    build_request_body, estimate_prompt_tokens, map_tool, resolve_tool_name, ChatCall, Options,
    RequestBody, WireMessage, WireToolCall, WireToolCallFunction,
};

verus! {

/// How hard the model should think.
#[derive(Debug, Clone, Copy, PartialEq, Eq, Structural)]
pub enum ThinkLevel {
    Off,
    On,
    Low,
    Medium,
    High,
    Max,
}

impl ThinkLevel {
    /// The level as it is spelled in the environment.
    pub open spec fn text(self) -> Seq<char> {
        match self {
            ThinkLevel::Off => "off"@,
            ThinkLevel::On => "on"@,
            ThinkLevel::Low => "low"@,
            ThinkLevel::Medium => "medium"@,
            ThinkLevel::High => "high"@,
            ThinkLevel::Max => "max"@,
        }
    }

    /// The level as it is sent: a boolean for on and off, else its spelling.
    pub open spec fn wire(self) -> JsonV {
        match self {
            ThinkLevel::Off => JsonV::Bool(false),
            ThinkLevel::On => JsonV::Bool(true),
            _ => JsonV::String(self.text()),
        }
    }

    /// The level as it is spelled in the environment.
    #[must_use]
    pub fn as_str(self) -> (r: &'static str)
        ensures
            r@ == self.text(),
    {
        match self {
            ThinkLevel::Off => "off",
            ThinkLevel::On => "on",
            ThinkLevel::Low => "low",
            ThinkLevel::Medium => "medium",
            ThinkLevel::High => "high",
            ThinkLevel::Max => "max",
        }
    }

    /// The level as it is sent.
    pub fn wire_form(self) -> (r: Json)
        ensures
            r@ == self.wire(),
    {
        match self {
            ThinkLevel::Off => Json::Bool(false),
            ThinkLevel::On => Json::Bool(true),
            _ => json::text(self.as_str()),
        }
    }
}

/// Which model to ask, where, and how. It has no `Debug`, so that the key
/// cannot be printed by accident.
pub struct OllamaBackend {
    pub model: String,
    pub base_url: String,
    pub api_key: Option<String>,
    pub num_ctx: Option<u32>,
    pub think: Option<ThinkLevel>,
}

impl OllamaBackend {
    /// A backend for `model` at `base_url`, with nothing else set.
    pub fn new(model: String, base_url: String) -> (r: Self)
        ensures
            r == (OllamaBackend { model, base_url, api_key: None, num_ctx: None, think: None }),
    {
        OllamaBackend { model, base_url, api_key: None, num_ctx: None, think: None }
    }

    /// The same, with a key to send along.
    #[must_use]
    pub fn with_api_key(self, api_key: String) -> (r: Self)
        ensures
            r == (OllamaBackend { api_key: Some(api_key), ..self }),
    {
        OllamaBackend { api_key: Some(api_key), ..self }
    }

    /// The same, with a context window, which also arms the guard against
    /// requests that do not fit in it.
    #[must_use]
    pub fn with_num_ctx(self, num_ctx: u32) -> (r: Self)
        ensures
            r == (OllamaBackend { num_ctx: Some(num_ctx), ..self }),
    {
        OllamaBackend { num_ctx: Some(num_ctx), ..self }
    }

    /// The same, with a level of thinking.
    #[must_use]
    pub fn with_think(self, think: ThinkLevel) -> (r: Self)
        ensures
            r == (OllamaBackend { think: Some(think), ..self }),
    {
        OllamaBackend { think: Some(think), ..self }
    }
}

} // verus!
