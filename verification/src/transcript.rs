//! The transcript of a run: one JSON object to a line, each with what happened,
//! when, and how long into the run.
//!
//! Writing a transcript never gets in the way of a run: the first thing that
//! fails turns the transcript off, with one warning, and the run goes on.
use vstd::prelude::*;

use crate::json;
use crate::json::{Json, JsonV, Members, NumberV};
use crate::path::{shown, FilePath};
use crate::text;
use crate::text::{concat, str_eq, trimmed};
use crate::time;
use crate::time::{format_rfc3339, Duration, UnixTime};

verus! {

/// The version of the events' form.
pub const TRANSCRIPT_VERSION: u32 = 1;

/// What a line can be about.
pub fn event_kinds() -> (r: Vec<&'static str>)
    ensures
        r@.map_values(|s: &'static str| s@) == seq![
            "run_start"@,
            "model_request"@,
            "backend_error"@,
            "model_response"@,
            "tool_result"@,
            "harness_message"@,
            "iteration_end"@,
            "run_end"@,
            "contract_violation"@,
        ],
{
    let r = vec![
        "run_start",
        "model_request",
        "backend_error",
        "model_response",
        "tool_result",
        "harness_message",
        "iteration_end",
        "run_end",
        "contract_violation",
    ];
    proof {
        assert(r@.map_values(|s: &'static str| s@) =~= seq![
            "run_start"@,
            "model_request"@,
            "backend_error"@,
            "model_response"@,
            "tool_result"@,
            "harness_message"@,
            "iteration_end"@,
            "run_end"@,
            "contract_violation"@,
        ]);
    }
    r
}

/// Where a transcript goes, and what it calls the run.
#[derive(Debug, Clone, PartialEq, Eq)]
pub struct TranscriptConfig {
    pub path: FilePath,
    /// Put into the transcript as it is.
    pub label: String,
}

/// What a flag that turns transcripts on or off says, if it says either.
pub open spec fn flag_of(value: Option<Seq<char>>) -> Option<bool> {
    match value {
        None => Some(false),
        Some(v) => if text::trim(v).len() == 0 || text::trim(v) == "0"@ {
            Some(false)
        } else if text::trim(v) == "1"@ {
            Some(true)
        } else {
            None
        },
    }
}

/// Whether the variable `var_name`, which has the value `v`, turns transcripts
/// on. White space around the value does not count; no value, an empty one and
/// `0` mean no, `1` means yes, and anything else is an error.
pub fn parse_transcripts_flag(var_name: &str, v: Option<&str>) -> (r: Result<bool, String>)
    ensures
        match flag_of(
            match v {
                Some(s) => Some(s@),
                None => None,
            },
        ) {
            Some(on) => r == Ok::<bool, String>(on),
            None => r matches Err(e) && v matches Some(s) && e@ == var_name@
                + ": expected `0`, `1`, or empty, got `"@ + text::trim(s@) + "`"@,
        },
{
    let raw = match v {
        Some(s) => trimmed(s),
        None => {
            return Ok(false);
        },
    };
    if raw.as_str().is_empty() || str_eq(raw.as_str(), "0") {
        Ok(false)
    } else if str_eq(raw.as_str(), "1") {
        Ok(true)
    } else {
        let mut e = concat(var_name, ": expected `0`, `1`, or empty, got `");
        e.append(raw.as_str());
        e.append("`");
        Err(e)
    }
}

/// A span in milliseconds, as far as they can be counted.
pub open spec fn millis(d: Duration) -> int {
    let n = d.secs * 1000 + d.nanos as int / 1_000_000;
    if n <= u64::MAX {
        n
    } else {
        u64::MAX as int
    }
}

/// A span in milliseconds; the largest number where there are more.
pub fn elapsed_ms(d: Duration) -> (r: u64)
    ensures
        r == millis(d),
{
    let n: u128 = d.secs as u128 * 1000 + (d.nanos / 1_000_000) as u128;
    if n <= u64::MAX as u128 {
        n as u64
    } else {
        u64::MAX
    }
}

/// The members of a line: those of the payload, with what happened, when and how
/// long into the run in place of any of the same names. A payload that is no
/// object is put under `value`.
pub open spec fn line_members(
    event: Seq<char>,
    fields: JsonV,
    secs: int,
    elapsed: int,
) -> Seq<(Seq<char>, JsonV)> {
    let payload = match fields {
        JsonV::Object(members) => members,
        other => Seq::empty().push(("value"@, other)),
    };
    json::with_member(
        json::with_member(
            json::with_member(payload, "event"@, JsonV::String(event)),
            "ts"@,
            JsonV::String(time::timestamp_text(secs)),
        ),
        "elapsed_ms"@,
        JsonV::Number(NumberV::Int(elapsed)),
    )
}

/// The second of a time, the first one of all where it lies before it.
pub open spec fn second_of(t: UnixTime) -> int {
    if t.secs < 0 {
        0
    } else {
        t.secs as int
    }
}

/// The line for an event.
pub open spec fn line_text(event: Seq<char>, fields: JsonV, now: UnixTime, elapsed: Duration) -> Seq<
    char,
> {
    json::json_print(
        JsonV::Object(line_members(event, fields, second_of(now), millis(elapsed))),
    ) + "\n"@
}

/// The warning that a transcript is turned off.
pub open spec fn warning(path: Seq<u8>, error: Seq<char>) -> Seq<char> {
    "warning: transcript disabled ("@ + shown(path) + "): "@ + error
}

/// What is known of a transcript while it is written: where it is, and whether it
/// is still on.
#[derive(Debug)]
pub struct TranscriptWriter {
    enabled: bool,
    path: FilePath,
}

impl TranscriptWriter {
    /// Whether lines are still written.
    pub closed spec fn on(self) -> bool {
        self.enabled
    }

    /// Where the transcript is.
    pub closed spec fn path_view(self) -> Seq<u8> {
        self.path@
    }

    /// A transcript that was asked for, or not; if so, what opening its file for
    /// appending gave. With it comes the warning to print where that failed.
    pub fn open(asked: Option<(&TranscriptConfig, Result<(), String>)>) -> (r: (
        TranscriptWriter,
        Option<String>,
    ))
        ensures
            match asked {
                None => !r.0.on() && r.1 is None,
                Some((cfg, Ok(_))) => r.0.on() && r.0.path_view() == cfg.path@ && r.1 is None,
                Some((cfg, Err(e))) => !r.0.on() && r.0.path_view() == cfg.path@ && (
                r.1 matches Some(w) && w@ == warning(cfg.path@, e@)),
            },
    {
        match asked {
            None => (TranscriptWriter { enabled: false, path: FilePath::from_text("") }, None),
            Some((cfg, opened)) => {
                let mut writer = TranscriptWriter { enabled: true, path: cfg.path.dup() };
                let warning = writer.wrote(opened);
                (writer, warning)
            },
        }
    }

    /// Whether lines are still written.
    pub fn is_enabled(&self) -> (r: bool)
        ensures
            r == self.on(),
    {
        self.enabled
    }

    /// The line to append for an event, with its line feed; none where the
    /// transcript is off.
    pub fn emit(&self, event: &str, fields: Json, now: UnixTime, elapsed: Duration) -> (r: Option<
        String,
    >)
        ensures
            !self.on() ==> r is None,
            self.on() ==> (r matches Some(line) && line@ == line_text(
                event@,
                fields@,
                now,
                elapsed,
            )),
            r matches Some(line) ==> forall|i: int|
                0 <= i < line@.len() - 1 ==> line@[i] != '\n',
            r matches Some(line) ==> ({
                let object = JsonV::Object(
                    line_members(event@, fields@, second_of(now), millis(elapsed)),
                );
                json::shallow(object, json::READ_DEPTH as nat) ==> json::reads_back(
                    object,
                    json::json_parse(line@.drop_last()),
                )
            }),
    {
        if !self.enabled {
            return None;
        }
        let mut members = match fields {
            Json::Object(list) => Members { list },
            other => {
                let mut m = Members::new();
                m.push("value", other);
                m
            },
        };
        members.insert("event", json::text(event));
        members.insert("ts", Json::String(format_rfc3339(now)));
        members.insert("elapsed_ms", json::number(elapsed_ms(elapsed)));
        let mut line = members.object().to_text();
        let ghost printed = line@;
        line.append("\n");
        proof {
            reveal_strlit("\n");
            assert(line@.drop_last() =~= printed);
        }
        Some(line)
    }

    /// What becomes of a transcript once writing a line gave `outcome`, and what is
    /// warned of.
    pub open spec fn notes(
        self,
        outcome: Result<(), String>,
        warned: Option<String>,
        next: TranscriptWriter,
    ) -> bool {
        &&& next.path_view() == self.path_view()
        &&& next.on() == (self.on() && outcome is Ok)
        &&& match outcome {
            Err(e) => if self.on() {
                warned matches Some(w) && w@ == warning(self.path_view(), e@)
            } else {
                warned is None
            },
            Ok(_) => warned is None,
        }
    }

    /// Takes note of what writing a line gave. A failure turns the transcript
    /// off, with the warning to print; once it is off it stays off, and there is
    /// no further warning.
    pub fn wrote(&mut self, outcome: Result<(), String>) -> (r: Option<String>)
        ensures
            old(self).notes(outcome, r, *final(self)),
            final(self).path_view() == old(self).path_view(),
            final(self).on() == (old(self).on() && outcome is Ok),
            match outcome {
                Err(e) => if old(self).on() {
                    r matches Some(w) && w@ == warning(old(self).path_view(), e@)
                } else {
                    r is None
                },
                Ok(_) => r is None,
            },
    {
        match outcome {
            Ok(_) => None,
            Err(e) => {
                if !self.enabled {
                    return None;
                }
                self.enabled = false;
                let mut w = concat("warning: transcript disabled (", self.path.show().as_str());
                w.append("): ");
                w.append(e.as_str());
                Some(w)
            },
        }
    }
}

// ---------------------------------------------------------------------------
// Laws
// ---------------------------------------------------------------------------

/// A line says what happened, when and how long into the run, whatever the
/// payload holds under those names; every other member of the payload is in it
/// as it was.
pub proof fn law_lines_hold_their_event_and_payload(
    event: Seq<char>,
    payload: Seq<(Seq<char>, JsonV)>,
    secs: int,
    elapsed: int,
    name: Seq<char>,
)
    ensures
        ({
            let line = line_members(event, JsonV::Object(payload), secs, elapsed);
            &&& json::member(line, "event"@) == Some(JsonV::String(event))
            &&& json::member(line, "ts"@) == Some(JsonV::String(time::timestamp_text(secs)))
            &&& json::member(line, "elapsed_ms"@) == Some(JsonV::Number(NumberV::Int(elapsed)))
            &&& name != "event"@ && name != "ts"@ && name != "elapsed_ms"@ ==> json::member(
                line,
                name,
            ) == json::member(payload, name)
        }),
{
    lemma_line_members(event, payload, secs, elapsed, name);
    lemma_line_members(event, payload, secs, elapsed, "event"@);
    lemma_line_members(event, payload, secs, elapsed, "ts"@);
    lemma_line_members(event, payload, secs, elapsed, "elapsed_ms"@);
    reveal_strlit("event");
    reveal_strlit("ts");
    reveal_strlit("elapsed_ms");
    assert("event"@.len() == 5 && "ts"@.len() == 2 && "elapsed_ms"@.len() == 10);
}

/// A line that is read back is an object, and says what happened, when and how
/// long into the run.
pub proof fn law_lines_read_back(
    event: Seq<char>,
    payload: Seq<(Seq<char>, JsonV)>,
    secs: int,
    elapsed: int,
    read: Option<JsonV>,
)
    requires
        json::reads_back(
            JsonV::Object(line_members(event, JsonV::Object(payload), secs, elapsed)),
            read,
        ),
    ensures
        read matches Some(v) && {
            &&& json::text_field(v, "event"@) == Some(event)
            &&& json::text_field(v, "ts"@) == Some(time::timestamp_text(secs))
            &&& json::field(v, "elapsed_ms"@) == Some(JsonV::Number(NumberV::Int(elapsed)))
        },
{
    let line = line_members(event, JsonV::Object(payload), secs, elapsed);
    law_lines_hold_their_event_and_payload(event, payload, secs, elapsed, "event"@);
    assert(json::plain_member(json::member(line, "event"@)));
    assert(json::plain_member(json::member(line, "ts"@)));
    assert(json::plain_member(json::member(line, "elapsed_ms"@)));
}

/// What a line holds under a name.
proof fn lemma_line_members(
    event: Seq<char>,
    payload: Seq<(Seq<char>, JsonV)>,
    secs: int,
    elapsed: int,
    name: Seq<char>,
)
    ensures
        json::member(line_members(event, JsonV::Object(payload), secs, elapsed), name) == (if name
            == "elapsed_ms"@ {
            Some(JsonV::Number(NumberV::Int(elapsed)))
        } else if name == "ts"@ {
            Some(JsonV::String(time::timestamp_text(secs)))
        } else if name == "event"@ {
            Some(JsonV::String(event))
        } else {
            json::member(payload, name)
        }),
{
    let a = json::with_member(payload, "event"@, JsonV::String(event));
    let b = json::with_member(a, "ts"@, JsonV::String(time::timestamp_text(secs)));
    json::lemma_with_member(payload, "event"@, JsonV::String(event), name);
    json::lemma_with_member(a, "ts"@, JsonV::String(time::timestamp_text(secs)), name);
    json::lemma_with_member(b, "elapsed_ms"@, JsonV::Number(NumberV::Int(elapsed)), name);
}

/// A payload that is no object is not lost: it stands under `value`.
pub proof fn law_other_payloads_are_kept(event: Seq<char>, fields: JsonV, secs: int, elapsed: int)
    requires
        !(fields is Object),
    ensures
        json::member(line_members(event, fields, secs, elapsed), "value"@) == Some(fields),
{
    let payload = Seq::<(Seq<char>, JsonV)>::empty().push(("value"@, fields));
    json::lemma_member_push(Seq::empty(), "value"@, fields, "value"@);
    lemma_line_members(event, payload, secs, elapsed, "value"@);
    assert(line_members(event, fields, secs, elapsed) == line_members(
        event,
        JsonV::Object(payload),
        secs,
        elapsed,
    ));
    reveal_strlit("value");
    reveal_strlit("event");
    reveal_strlit("ts");
    reveal_strlit("elapsed_ms");
    assert("value"@[0] == 'v');
    assert("event"@[0] == 'e');
    assert("ts"@[0] == 't');
    assert("elapsed_ms"@[0] == 'e');
}

/// What turns transcripts on and off: nothing, white space and `0` turn them off, and
/// `1` turns them on, with white space around them or without; anything else is
/// refused, with the name of the variable.
pub proof fn law_what_turns_transcripts_on(
    name: &str,
    v: Option<&str>,
    r: Result<bool, String>,
)
    requires
        call_ensures(parse_transcripts_flag, (name, v), r),
    ensures
        v is None ==> r == Ok::<bool, String>(false),
        v matches Some(s) ==> (forall|k: int| 0 <= k < s@.len() ==> text::white(#[trigger] s@[k]))
            ==> r == Ok::<bool, String>(false),
        r == Ok::<bool, String>(true) ==> v is Some && text::trim(v->Some_0@) == "1"@,
        v matches Some(s) ==> text::trim(s@) == "1"@ ==> r == Ok::<bool, String>(true),
        v matches Some(s) ==> text::trim(s@) == "0"@ ==> r == Ok::<bool, String>(false),
        v matches Some(s) ==> text::trim(s@).len() > 1 ==> (r matches Err(e) && text::contains(
            e@,
            name@,
        )),
{
    reveal_strlit("0");
    reveal_strlit("1");
    assert("0"@[0] == '0' && "1"@[0] == '1' && "0"@.len() == 1 && "1"@.len() == 1);
    if let Some(s) = v {
        text::law_a_text_is_blank_if_it_is_white(s@);
        if let Err(e) = r {
            assert(e@.subrange(0, name@.len() as int) =~= name@);
            assert(text::matches_at(e@, name@, 0));
        }
    }
}

/// A transcript that is off writes nothing; one that is on writes one line for each
/// event, and that ends with the only line feed in it.
pub proof fn law_an_event_is_a_line(
    writer: TranscriptWriter,
    event: &str,
    fields: Json,
    now: UnixTime,
    elapsed: Duration,
    r: Option<String>,
    i: int,
)
    requires
        call_ensures(TranscriptWriter::emit, (&writer, event, fields, now, elapsed), r),
    ensures
        r is Some <==> writer.on(),
        r matches Some(line) ==> line@.len() > 0 && line@.last() == '\n' && (0 <= i < line@.len()
            - 1 ==> line@[i] != '\n'),
        r matches Some(line) ==> line@.drop_last() == json::json_print(
            JsonV::Object(
                line_members(
                    event@,
                    fields@,
                    if now.secs < 0 {
                        0
                    } else {
                        now.secs as int
                    },
                    millis(elapsed),
                ),
            ),
        ),
        elapsed.secs < 1_000_000_000_000 ==> millis(elapsed) == elapsed.secs * 1000 + elapsed.nanos
            / 1_000_000,
{
    reveal_strlit("\n");
    if let Some(line) = r {
        let printed = json::json_print(
            JsonV::Object(line_members(event@, fields@, second_of(now), millis(elapsed))),
        );
        assert(line@ == printed + "\n"@);
        assert(line@.drop_last() =~= printed);
    }
}

/// A transcript is turned off by the first thing that fails, with one warning that
/// names its file and the cause; from there on it stays off, and there is no further
/// warning.
pub proof fn law_a_transcript_is_turned_off_once(
    a: TranscriptWriter,
    outcome: Result<(), String>,
    warned: Option<String>,
    b: TranscriptWriter,
)
    requires
        a.notes(outcome, warned, b),
    ensures
        b.path_view() == a.path_view(),
        b.on() <==> a.on() && outcome is Ok,
        warned is Some <==> a.on() && outcome is Err,
        warned matches Some(w) ==> text::contains(w@, shown(a.path_view())) && text::contains(
            w@,
            outcome->Err_0@,
        ),
{
    if let Some(w) = warned {
        let p = shown(a.path_view());
        let e = outcome->Err_0@;
        let i = "warning: transcript disabled ("@.len() as int;
        assert(w@.subrange(i, i + p.len()) =~= p);
        assert(text::matches_at(w@, p, i));
        let j = w@.len() - e.len();
        assert(w@.subrange(j, j + e.len()) =~= e);
        assert(text::matches_at(w@, e, j));
    }
}

/// A transcript is on from the start if and only if it was asked for and its file could
/// be opened; where it could not, there is a warning that names the file.
pub proof fn law_a_transcript_starts_on_if_its_file_opens(
    asked: Option<(&TranscriptConfig, Result<(), String>)>,
    r: (TranscriptWriter, Option<String>),
)
    requires
        call_ensures(TranscriptWriter::open, (asked,), r),
    ensures
        r.0.on() <==> asked is Some && asked->Some_0.1 is Ok,
        r.1 is Some <==> asked is Some && asked->Some_0.1 is Err,
        asked matches Some((cfg, _)) ==> r.0.path_view() == cfg.path@,
        r.1 matches Some(w) ==> text::contains(w@, shown(asked->Some_0.0.path@)),
{
    if let Some(w) = r.1 {
        let p = shown(asked->Some_0.0.path@);
        let i = "warning: transcript disabled ("@.len() as int;
        assert(w@.subrange(i, i + p.len()) =~= p);
        assert(text::matches_at(w@, p, i));
    }
}

} // verus!
