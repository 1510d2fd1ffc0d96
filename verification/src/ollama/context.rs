//! The context length that a model advertises, and the context window to ask
//! for.
use vstd::prelude::*;

use crate::json;
use crate::json::{Json, JsonV, Members, NumberV};
use crate::ollama::answer;
use crate::ollama::answer::is_success;
use crate::ollama::request;
use crate::ollama::request::endpoint_url;
use crate::text;
use crate::text::{concat, contains_str, dec_u64, parse_u32, trimmed};

verus! {

/// The context length that a model advertises, and where it was found.
#[derive(Debug, Clone, PartialEq, Eq)]
pub struct ResolvedContextLength {
    pub value: u32,
    /// What `model_info["general.architecture"]` says.
    pub architecture: String,
    /// The key that the value was found under.
    pub key: String,
}

/// Why the context length of a model is not known.
#[derive(Debug)]
pub struct ContextLengthError {
    pub model: String,
    pub url: String,
    pub kind: ContextLengthErrorKind,
}

/// What went wrong in asking for a context length.
#[derive(Debug)]
pub enum ContextLengthErrorKind {
    /// There was no answer.
    Transport(String),
    /// The answer had a status that is no success.
    Status { status: u16, body: String },
    /// The answer was not of the expected shape; the text says where.
    Malformed(String),
}

impl ContextLengthErrorKind {
    /// What the error says.
    pub open spec fn says(self) -> Seq<char> {
        match self {
            ContextLengthErrorKind::Transport(e) => "transport failure: "@ + e@,
            ContextLengthErrorKind::Status { status, body } => "HTTP "@ + text::dec(status as nat)
                + ": "@ + body@,
            ContextLengthErrorKind::Malformed(m) => "malformed /api/show payload: "@ + m@,
        }
    }

    /// The error as a message.
    pub fn message(&self) -> (r: String)
        ensures
            r@ == self.says(),
    {
        match self {
            ContextLengthErrorKind::Transport(e) => concat("transport failure: ", e.as_str()),
            ContextLengthErrorKind::Status { status, body } => {
                let mut s = concat("HTTP ", dec_u64(*status as u64).as_str());
                s.append(": ");
                s.append(body.as_str());
                s
            },
            ContextLengthErrorKind::Malformed(m) => concat(
                "malformed /api/show payload: ",
                m.as_str(),
            ),
        }
    }
}

impl ContextLengthError {
    /// What the error says.
    pub open spec fn says(self) -> Seq<char> {
        "could not resolve context length for model `"@ + self.model@ + "` from "@ + self.url@
            + ": "@ + self.kind.says()
    }

    /// The error as a message.
    pub fn message(&self) -> (r: String)
        ensures
            r@ == self.says(),
    {
        let mut s = concat("could not resolve context length for model `", self.model.as_str());
        s.append("` from ");
        s.append(self.url.as_str());
        s.append(": ");
        s.append(self.kind.message().as_str());
        s
    }
}

/// The request that asks for the context length of a model.
pub struct ShowCall {
    pub url: String,
    pub authorization: Option<String>,
    pub body: Json,
}

/// The request that asks for the context length of `model`.
pub fn show_call(base_url: &str, model: &str, api_key: Option<&str>) -> (r: ShowCall)
    ensures
        r.url@ == request::endpoint(base_url@, "/api/show"@),
        request::opt_text(r.authorization) == request::bearer(
            match api_key {
                Some(k) => Some(k@),
                None => None,
            },
        ),
        r.body@ == JsonV::Object(seq![("model"@, JsonV::String(model@))]),
{
    let authorization = match api_key {
        Some(key) => Some(concat("Bearer ", key)),
        None => None,
    };
    let mut body = Members::new();
    body.push("model", json::text(model));
    proof {
        assert(body@ =~= seq![("model"@, JsonV::String(model@))]);
    }
    ShowCall { url: endpoint_url(base_url, "/api/show"), authorization, body: body.object() }
}

/// The key that the context length of an architecture is found under.
pub open spec fn context_key(architecture: Seq<char>) -> Seq<char> {
    architecture + ".context_length"@
}

/// What an answer of `POST /api/show` says, once it is read as JSON: the
/// context length and the architecture, or what is wrong with it. No other key
/// is looked at, however alike it is.
pub open spec fn shown_length(payload: Option<JsonV>) -> Result<(int, Seq<char>), Seq<char>> {
    match payload {
        None => Err("body not JSON"@),
        Some(p) => match json::field(p, "model_info"@) {
            None => Err("model_info missing"@),
            Some(JsonV::Object(info)) => match json::member(info, "general.architecture"@) {
                None => Err("model_info.general.architecture missing"@),
                Some(JsonV::String(arch)) => {
                    let key = context_key(arch);
                    match json::member(info, key) {
                        None => Err("model_info."@ + key + " missing"@),
                        Some(v) => match json::as_unsigned(v) {
                            Some(n) => if n > u32::MAX {
                                Err("model_info."@ + key + " not a u32"@)
                            } else if n == 0 {
                                Err("model_info."@ + key + " is zero"@)
                            } else {
                                Ok((n, arch))
                            },
                            None => Err("model_info."@ + key + " not a u32"@),
                        },
                    }
                },
                Some(_) => Err("model_info.general.architecture not a string"@),
            },
            Some(_) => Err("model_info not an object"@),
        },
    }
}

/// A key of the model information, with what is wrong with it.
fn key_fault(key: &str, fault: &str) -> (r: String)
    ensures
        r@ == "model_info."@ + key@ + fault@,
{
    let mut s = concat("model_info.", key);
    s.append(fault);
    s
}

/// Reads the context length from an answer of `POST /api/show`.
pub fn length_in_show(payload: Option<&Json>) -> (r: Result<ResolvedContextLength, String>)
    ensures
        match shown_length(
            match payload {
                Some(p) => Some(p@),
                None => None,
            },
        ) {
            Ok((n, arch)) => r matches Ok(found) && {
                &&& found.value == n
                &&& found.architecture@ == arch
                &&& found.key@ == context_key(arch)
            },
            Err(m) => r matches Err(e) && e@ == m,
        },
{
    let payload = match payload {
        Some(p) => p,
        None => {
            return Err("body not JSON".to_owned());
        },
    };
    let info = match payload.get("model_info") {
        Some(i) => i,
        None => {
            return Err("model_info missing".to_owned());
        },
    };
    match info {
        Json::Object(_) => {},
        _ => {
            return Err("model_info not an object".to_owned());
        },
    }
    let arch_value = match info.get("general.architecture") {
        Some(v) => v,
        None => {
            return Err("model_info.general.architecture missing".to_owned());
        },
    };
    let arch = match arch_value.as_str() {
        Some(a) => a,
        None => {
            return Err("model_info.general.architecture not a string".to_owned());
        },
    };
    let key = concat(arch, ".context_length");
    let value = match info.get(key.as_str()) {
        Some(v) => v,
        None => {
            return Err(key_fault(key.as_str(), " missing"));
        },
    };
    let n: u64 = match value.as_u64() {
        Some(n) => n,
        None => {
            return Err(key_fault(key.as_str(), " not a u32"));
        },
    };
    if n > 0xffff_ffff {
        return Err(key_fault(key.as_str(), " not a u32"));
    }
    if n == 0 {
        return Err(key_fault(key.as_str(), " is zero"));
    }
    Ok(ResolvedContextLength { value: n as u32, architecture: arch.to_owned(), key })
}

/// `e` is the error for `model` at `base_url` with a kind that says this.
pub open spec fn length_error(
    base_url: Seq<char>,
    model: Seq<char>,
    e: ContextLengthError,
) -> bool {
    e.model@ == model && e.url@ == request::endpoint(base_url, "/api/show"@)
}

/// The context length of `model`, from what `POST /api/show` came to: a status
/// and a body, or why there was no answer.
pub fn resolve_context_length(
    base_url: &str,
    model: &str,
    reply: Result<(u16, String), String>,
) -> (r: Result<ResolvedContextLength, ContextLengthError>)
    ensures
        r matches Err(e) ==> length_error(base_url@, model@, e),
        match reply {
            Err(cause) => r matches Err(e) && e.kind == ContextLengthErrorKind::Transport(cause),
            Ok((status, body)) => if !answer::success(status) {
                r matches Err(e) && e.kind == (ContextLengthErrorKind::Status { status, body })
            } else {
                match shown_length(json::json_parse(body@)) {
                    Ok((n, arch)) => r matches Ok(found) && {
                        &&& found.value == n
                        &&& found.architecture@ == arch
                        &&& found.key@ == context_key(arch)
                    },
                    Err(m) => r matches Err(e) && (e.kind matches ContextLengthErrorKind::Malformed(
                        text,
                    ) && text@ == m),
                }
            },
        },
{
    let url = endpoint_url(base_url, "/api/show");
    let kind = match reply {
        Err(cause) => ContextLengthErrorKind::Transport(cause),
        Ok((status, body)) => if !is_success(status) {
            ContextLengthErrorKind::Status { status, body }
        } else {
            let read = match Json::parse(body.as_str()) {
                Some(j) => length_in_show(Some(&j)),
                None => length_in_show(None),
            };
            match read {
                Ok(found) => {
                    return Ok(found);
                },
                Err(m) => ContextLengthErrorKind::Malformed(m),
            }
        },
    };
    Err(ContextLengthError { model: model.to_owned(), url, kind })
}

/// A probed context length below this is warned of. It is never used as a
/// value.
pub const MIN_EXPECTED_NUM_CTX: u32 = 32_768;

/// The URL names a daemon on this machine.
pub open spec fn local_url(url: Seq<char>) -> bool {
    text::contains(url, "localhost"@) || text::contains(url, "127.0.0.1"@)
}

/// Whether `base_url` names a daemon on this machine.
pub fn is_local_ollama_url(base_url: &str) -> (r: bool)
    ensures
        r == local_url(base_url@),
{
    contains_str(base_url, "localhost") || contains_str(base_url, "127.0.0.1")
}

/// Where a context window comes from.
#[derive(Debug, Clone, Copy, PartialEq, Eq, Structural)]
pub enum NumCtxSource {
    /// It was set.
    Explicit,
    /// A local daemon advertised it.
    Probe,
    /// Nothing was set or asked: the service decides.
    Default,
}

impl NumCtxSource {
    /// The source's name.
    pub open spec fn text(self) -> Seq<char> {
        match self {
            NumCtxSource::Explicit => "explicit"@,
            NumCtxSource::Probe => "probe"@,
            NumCtxSource::Default => "default"@,
        }
    }

    /// The source's name.
    pub fn as_str(self) -> (r: &'static str)
        ensures
            r@ == self.text(),
    {
        match self {
            NumCtxSource::Explicit => "explicit",
            NumCtxSource::Probe => "probe",
            NumCtxSource::Default => "default",
        }
    }
}

/// A context window, where it comes from, and what to say of it.
#[derive(Debug, Clone, PartialEq, Eq)]
pub struct NumCtxResolution {
    pub value: Option<u32>,
    pub source: NumCtxSource,
    pub desc: String,
    pub warning: Option<String>,
}

/// What a [`NumCtxResolution`] is, mathematically.
pub struct NumCtxV {
    pub value: Option<u32>,
    pub source: NumCtxSource,
    pub desc: Seq<char>,
    pub warning: Option<Seq<char>>,
}

impl View for NumCtxResolution {
    type V = NumCtxV;

    open spec fn view(&self) -> NumCtxV {
        NumCtxV {
            value: self.value,
            source: self.source,
            desc: self.desc@,
            warning: request::opt_text(self.warning),
        }
    }
}

/// The variable is set to more than white space.
pub open spec fn is_set(raw_env: Option<&str>) -> bool {
    raw_env matches Some(s) && text::trim(s@).len() > 0
}

/// The context window has to be asked for: it is not set, and the daemon is on
/// this machine.
pub open spec fn probe_needed(base_url: Seq<char>, raw_env: Option<&str>) -> bool {
    !is_set(raw_env) && local_url(base_url)
}

/// Whether the variable is set to more than white space.
fn env_is_set(raw_env: Option<&str>) -> (r: bool)
    ensures
        r == is_set(raw_env),
{
    match raw_env {
        Some(s) => !trimmed(s).as_str().is_empty(),
        None => false,
    }
}

/// Whether the context window has to be asked for.
pub fn needs_probe(base_url: &str, raw_env: Option<&str>) -> (r: bool)
    ensures
        r == probe_needed(base_url@, raw_env),
{
    !env_is_set(raw_env) && is_local_ollama_url(base_url)
}

/// What is made of a probed context length: it is used as it is, and warned of
/// where it is below what is expected.
pub open spec fn probed_window(model: Seq<char>, v: u32, a: Seq<char>, k: Seq<char>) -> NumCtxV {
    let low = v < MIN_EXPECTED_NUM_CTX;
    NumCtxV {
        value: Some(v),
        source: NumCtxSource::Probe,
        desc: "num_ctx="@ + text::dec(v as nat) + (if low {
            " (resolved, BELOW-FLOOR: arch="@
        } else {
            " (resolved: arch="@
        }) + a + " key="@ + k + ")"@,
        warning: if low {
            Some(
                "WARNING: resolved num_ctx="@ + text::dec(v as nat) + " for `"@ + model
                    + "` (arch="@ + a + ", key="@ + k + ") is BELOW the "@ + text::dec(
                    MIN_EXPECTED_NUM_CTX as nat,
                )
                    + " sanity floor; the run may be truncation-invalid — set OLLAMA_NUM_CTX to override"@,
            )
        } else {
            None
        },
    }
}

/// What is made of a probed context length.
fn window_from_probe(model: &str, found: &ResolvedContextLength) -> (r: NumCtxResolution)
    ensures
        r@ == probed_window(model@, found.value, found.architecture@, found.key@),
{
    let low: bool = found.value < MIN_EXPECTED_NUM_CTX;
    let n = dec_u64(found.value as u64);
    let arch = found.architecture.as_str();
    let key = found.key.as_str();
    let mut desc = concat("num_ctx=", n.as_str());
    if low {
        desc.append(" (resolved, BELOW-FLOOR: arch=");
    } else {
        desc.append(" (resolved: arch=");
    }
    desc.append(arch);
    desc.append(" key=");
    desc.append(key);
    desc.append(")");
    let mut warning: Option<String> = None;
    if low {
        let mut w = concat("WARNING: resolved num_ctx=", n.as_str());
        w.append(" for `");
        w.append(model);
        w.append("` (arch=");
        w.append(arch);
        w.append(", key=");
        w.append(key);
        w.append(") is BELOW the ");
        w.append(dec_u64(MIN_EXPECTED_NUM_CTX as u64).as_str());
        w.append(
            " sanity floor; the run may be truncation-invalid — set OLLAMA_NUM_CTX to override",
        );
        warning = Some(w);
    }
    NumCtxResolution { value: Some(found.value), source: NumCtxSource::Probe, desc, warning }
}

/// The context window to ask a backend for. What is set decides; else a local
/// daemon is asked, and what it says is used as it is; else nothing is asked
/// for. `probed` is what the daemon said, and is looked at only where it had to
/// be asked: a failed probe is an error, never a default.
pub fn resolve_num_ctx(
    base_url: &str,
    model: &str,
    raw_env: Option<&str>,
    probed: Option<Result<ResolvedContextLength, ContextLengthError>>,
) -> (r: Result<NumCtxResolution, String>)
    requires
        probe_needed(base_url@, raw_env) ==> probed is Some,
    ensures
        is_set(raw_env) ==> match text::u32_value(raw_env->Some_0@) {
            Some(n) => r matches Ok(w) && w@ == (NumCtxV {
                value: Some(n as u32),
                source: NumCtxSource::Explicit,
                desc: "num_ctx="@ + text::dec(n) + " (explicit OLLAMA_NUM_CTX)"@,
                warning: None,
            }),
            None => r matches Err(e) && e@ == "OLLAMA_NUM_CTX must be a valid u32, got `"@
                + raw_env->Some_0@ + "`"@,
        },
        probe_needed(base_url@, raw_env) ==> match probed->Some_0 {
            Ok(found) => r matches Ok(w) && w@ == probed_window(
                model@,
                found.value,
                found.architecture@,
                found.key@,
            ),
            Err(cause) => r matches Err(e) && e@ == cause.says(),
        },
        !is_set(raw_env) && !local_url(base_url@) ==> (r matches Ok(w) && w@ == (NumCtxV {
            value: None,
            source: NumCtxSource::Default,
            desc: "num_ctx=default"@,
            warning: None,
        })),
{
    if env_is_set(raw_env) {
        if let Some(s) = raw_env {
            return match parse_u32(s) {
                Some(n) => {
                    let mut desc = concat("num_ctx=", dec_u64(n as u64).as_str());
                    desc.append(" (explicit OLLAMA_NUM_CTX)");
                    Ok(
                        NumCtxResolution {
                            value: Some(n),
                            source: NumCtxSource::Explicit,
                            desc,
                            warning: None,
                        },
                    )
                },
                None => {
                    let mut e = concat("OLLAMA_NUM_CTX must be a valid u32, got `", s);
                    e.append("`");
                    Err(e)
                },
            };
        }
    }
    if is_local_ollama_url(base_url) {
        if let Some(outcome) = probed {
            return match outcome {
                Ok(found) => Ok(window_from_probe(model, &found)),
                Err(cause) => Err(cause.message()),
            };
        }
    }
    Ok(
        NumCtxResolution {
            value: None,
            source: NumCtxSource::Default,
            desc: "num_ctx=default".to_owned(),
            warning: None,
        },
    )
}

// ---------------------------------------------------------------------------
// Laws
// ---------------------------------------------------------------------------

/// The context length depends on three things alone: whether there is an
/// object under `model_info`, the architecture in it, and the value under that
/// architecture's key. Keys that merely look alike change nothing.
pub proof fn law_decoy_keys_change_nothing(
    info: Seq<(Seq<char>, JsonV)>,
    decoy: Seq<char>,
    value: JsonV,
)
    requires
        decoy != "general.architecture"@,
        json::member(info, "general.architecture"@) matches Some(JsonV::String(arch)) ==> decoy
            != context_key(arch),
    ensures
        ({
            let with = json::with_member(info, decoy, value);
            shown_length(Some(JsonV::Object(seq![("model_info"@, JsonV::Object(with))])))
                == shown_length(Some(JsonV::Object(seq![("model_info"@, JsonV::Object(info))])))
        }),
{
    let with = json::with_member(info, decoy, value);
    json::lemma_with_member(info, decoy, value, "general.architecture"@);
    if let Some(JsonV::String(arch)) = json::member(info, "general.architecture"@) {
        json::lemma_with_member(info, decoy, value, context_key(arch));
    }
    let a = seq![("model_info"@, JsonV::Object(with))];
    let b = seq![("model_info"@, JsonV::Object(info))];
    assert(a.last().0 == "model_info"@);
    assert(b.last().0 == "model_info"@);
}

/// A context length is what the model says of itself: the whole number above zero
/// that stands in its information under the name of its architecture and
/// `.context_length`. It is found if and only if it stands there and fits.
pub proof fn law_a_context_length_is_what_the_model_says(
    payload: &Json,
    r: Result<ResolvedContextLength, String>,
    info: Seq<(Seq<char>, JsonV)>,
    arch: Seq<char>,
    n: int,
)
    requires
        call_ensures(length_in_show, (Some(payload),), r),
    ensures
        r matches Ok(found) ==> found.value > 0 && found.key@ == found.architecture@
            + ".context_length"@ && (json::field(payload@, "model_info"@) matches Some(
            JsonV::Object(held),
        ) && json::member(held, "general.architecture"@) == Some(
            JsonV::String(found.architecture@),
        ) && json::member(held, found.key@) == Some(
            JsonV::Number(NumberV::Int(found.value as int)),
        )),
        json::field(payload@, "model_info"@) == Some(JsonV::Object(info)) && json::member(
            info,
            "general.architecture"@,
        ) == Some(JsonV::String(arch)) && json::member(info, arch + ".context_length"@) == Some(
            JsonV::Number(NumberV::Int(n)),
        ) ==> (r is Ok <==> 0 < n <= u32::MAX) && (r matches Ok(found) ==> found.value == n
            && found.architecture@ == arch),
{
}

/// A daemon that could not be reached, that answered with a status that is no
/// success, and whose answer could not be read, gives an error that names the model
/// and where it was asked; never a length.
pub proof fn law_a_failed_probe_gives_no_length(
    base_url: &str,
    model: &str,
    reply: Result<(u16, String), String>,
    r: Result<ResolvedContextLength, ContextLengthError>,
)
    requires
        call_ensures(resolve_context_length, (base_url, model, reply), r),
    ensures
        reply is Err ==> r is Err,
        reply matches Ok((status, body)) ==> status / 100 != 2 ==> r is Err,
        reply matches Ok((status, body)) ==> json::json_parse(body@) is None ==> r is Err,
        r matches Ok(found) ==> found.value > 0,
        r matches Err(e) ==> e.model@ == model@ && e.url@ == request::endpoint(
            base_url@,
            "/api/show"@,
        ),
        r matches Err(e) ==> match e.kind {
            ContextLengthErrorKind::Transport(cause) => reply == Err::<(u16, String), String>(
                cause,
            ),
            ContextLengthErrorKind::Status { status, body } => reply == Ok::<(u16, String), String>(
                (status, body),
            ),
            ContextLengthErrorKind::Malformed(_) => reply is Ok && reply->Ok_0.0 / 100 == 2,
        },
{
}

/// What decides over the context window: what is set, if anything but white space is,
/// and then as the number that it writes, or it is refused; else, at a daemon on this
/// machine, what that says of the model, and where it says nothing there is an error
/// and never a default; else nothing, and none is asked for. A length below 32768 is
/// used as it is, and warned of.
pub proof fn law_what_decides_over_the_context_window(
    base_url: &str,
    model: &str,
    raw_env: Option<&str>,
    probed: Option<Result<ResolvedContextLength, ContextLengthError>>,
    r: Result<NumCtxResolution, String>,
)
    requires
        call_ensures(resolve_num_ctx, (base_url, model, raw_env, probed), r),
        probe_needed(base_url@, raw_env) ==> probed is Some,
    ensures
        ({
            let set = raw_env is Some && exists|i: int|
                0 <= i < raw_env->Some_0@.len() && !text::white(#[trigger] raw_env->Some_0@[i]);
            let local = (exists|i: int| #[trigger]
                text::matches_at(base_url@, "localhost"@, i)) || (exists|i: int| #[trigger]
                text::matches_at(base_url@, "127.0.0.1"@, i));
            &&& set ==> (match text::u32_value(raw_env->Some_0@) {
                Some(n) => r matches Ok(w) && w.value == Some(n as u32) && w.source is Explicit
                    && w.warning is None,
                None => r matches Err(e) && text::contains(e@, raw_env->Some_0@),
            })
            &&& !set && local ==> probed is Some && (match probed->Some_0 {
                Ok(found) => r matches Ok(w) && w.value == Some(found.value) && w.source is Probe
                    && (w.warning is Some <==> found.value < 32_768),
                Err(cause) => r matches Err(e) && e@ == cause.says(),
            })
            &&& !set && !local ==> (r matches Ok(w) && w.value is None && w.source is Default
                && w.warning is None)
            &&& probe_needed(base_url@, raw_env) <==> !set && local
        }),
{
    if raw_env is Some {
        let s = raw_env->Some_0@;
        text::law_a_text_is_blank_if_it_is_white(s);
        if is_set(raw_env) && text::u32_value(s) is None {
            let said = r->Err_0@;
            let i = "OLLAMA_NUM_CTX must be a valid u32, got `"@.len() as int;
            assert(said.subrange(i, i + s.len()) =~= s);
            assert(text::matches_at(said, s, i));
        }
    }
    if let Ok(w) = r {
        assert(w@.value == w.value && w@.source == w.source);
        assert(w@.warning == request::opt_text(w.warning));
    }
}

/// What a daemon is asked: the model, by its name as it is, at the show endpoint below
/// the base URL, with the key, if there is one.
pub proof fn law_what_a_daemon_is_asked(
    base_url: &str,
    model: &str,
    key: Option<&str>,
    r: ShowCall,
)
    requires
        call_ensures(show_call, (base_url, model, key), r),
    ensures
        json::field(r.body@, "model"@) == Some(JsonV::String(model@)),
        r.authorization is Some <==> key is Some,
        r.authorization matches Some(a) ==> a@ == "Bearer "@ + key->Some_0@,
        exists|i: int|
            0 <= i <= base_url@.len() && r.url@ == #[trigger] base_url@.take(i) + "/api/show"@ && (i
                > 0 ==> base_url@[i - 1] != '/') && forall|k: int|
                i <= k < base_url@.len() ==> #[trigger] base_url@[k] == '/',
{
    let i = text::lemma_trim_end_char(base_url@, '/');
    assert(r.url@ == base_url@.take(i) + "/api/show"@);
    let members = seq![("model"@, JsonV::String(model@))];
    assert(members.last().0 == "model"@);
}

/// A daemon is asked only where nothing is set, and only on this machine.
pub proof fn law_when_a_daemon_is_asked(base_url: &str, raw_env: Option<&str>, r: bool)
    requires
        call_ensures(needs_probe, (base_url, raw_env), r),
    ensures
        r <==> (raw_env is Some ==> forall|i: int|
            0 <= i < raw_env->Some_0@.len() ==> text::white(#[trigger] raw_env->Some_0@[i])) && ((
        exists|i: int| #[trigger] text::matches_at(base_url@, "localhost"@, i)) || (exists|i: int|
         #[trigger] text::matches_at(base_url@, "127.0.0.1"@, i))),
{
    if raw_env is Some {
        text::law_a_text_is_blank_if_it_is_white(raw_env->Some_0@);
    }
}

} // verus!
