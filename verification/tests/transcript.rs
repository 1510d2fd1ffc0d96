use harness::json::{Json, Number};
use harness::path::FilePath;
use harness::time::{Duration, UnixTime};
use harness::transcript::{
    elapsed_ms, event_kinds, parse_transcripts_flag, TranscriptConfig, TranscriptWriter,
    TRANSCRIPT_VERSION,
};

fn json(text: &str) -> Json {
    Json::parse(text).expect("valid JSON")
}

fn config() -> TranscriptConfig {
    TranscriptConfig {
        path: FilePath::from_text("/tmp/t.jsonl"),
        label: "t".to_string(),
    }
}

fn now() -> UnixTime {
    UnixTime {
        secs: 1_700_000_000,
        nanos: 0,
    }
}

#[test]
fn parse_transcripts_flag_covers_the_pinned_tuples() {
    assert_eq!(parse_transcripts_flag("X_VAR", None), Ok(false));
    assert_eq!(parse_transcripts_flag("X_VAR", Some("")), Ok(false));
    assert_eq!(parse_transcripts_flag("X_VAR", Some("   ")), Ok(false));
    assert_eq!(parse_transcripts_flag("X_VAR", Some("0")), Ok(false));
    assert_eq!(parse_transcripts_flag("X_VAR", Some(" 0 ")), Ok(false));
    assert_eq!(parse_transcripts_flag("X_VAR", Some("1")), Ok(true));
    assert_eq!(parse_transcripts_flag("X_VAR", Some(" 1 ")), Ok(true));
}

#[test]
fn parse_transcripts_flag_error_is_pinned_verbatim() {
    assert_eq!(
        parse_transcripts_flag("X_VAR", Some("yes")),
        Err("X_VAR: expected `0`, `1`, or empty, got `yes`".to_string())
    );
}

#[test]
fn a_refused_flag_is_quoted_without_its_white_space() {
    assert_eq!(
        parse_transcripts_flag("V", Some("\t10\u{a0}")),
        Err("V: expected `0`, `1`, or empty, got `10`".to_string())
    );
}

#[test]
fn open_none_is_disabled_with_no_filesystem_io() {
    let (writer, warning) = TranscriptWriter::open(None);
    assert!(!writer.is_enabled());
    assert_eq!(warning, None);
}

#[test]
fn parent_is_a_regular_file_disables_the_writer() {
    let cfg = config();
    let failed = Err("Not a directory (os error 20)".to_string());
    let (writer, warning) = TranscriptWriter::open(Some((&cfg, failed)));
    assert!(!writer.is_enabled());
    assert_eq!(
        warning.as_deref(),
        Some("warning: transcript disabled (/tmp/t.jsonl): Not a directory (os error 20)")
    );
}

#[test]
fn dev_full_disables_after_first_emit_and_does_not_panic_on_second() {
    let cfg = config();
    let (mut writer, warning) = TranscriptWriter::open(Some((&cfg, Ok(()))));
    assert!(writer.is_enabled());
    assert_eq!(warning, None);

    let line = writer.emit("run_start", json("{}"), now(), Duration::from_secs(0));
    assert!(line.is_some());
    let warning = writer.wrote(Err("No space left on device (os error 28)".to_string()));
    assert_eq!(
        warning.as_deref(),
        Some("warning: transcript disabled (/tmp/t.jsonl): No space left on device (os error 28)")
    );
    assert!(!writer.is_enabled());

    let line = writer.emit("run_end", json("{}"), now(), Duration::from_secs(0));
    assert_eq!(line, None);
    assert_eq!(writer.wrote(Err("again".to_string())), None);
    assert!(!writer.is_enabled());
}

#[test]
fn happy_path_two_emits_produce_two_valid_lines() {
    let cfg = config();
    let (mut writer, _) = TranscriptWriter::open(Some((&cfg, Ok(()))));
    assert!(writer.is_enabled());

    let mut contents = String::new();
    for (event, fields) in [
        ("run_start", r#"{"label": "t"}"#),
        ("run_end", r#"{"outcome": "Finished"}"#),
    ] {
        let line = writer
            .emit(event, json(fields), now(), Duration::from_secs(2))
            .expect("enabled");
        contents.push_str(&line);
        assert_eq!(writer.wrote(Ok(())), None);
    }

    let lines: Vec<&str> = contents.lines().collect();
    assert_eq!(lines.len(), 2, "two emits produce two lines");
    for line in lines {
        let value = Json::parse(line).expect("valid JSON line");
        assert!(matches!(value, Json::Object(_)));
        assert!(value.get("event").is_some());
        let ts = value.text_at("ts").expect("ts is a string");
        assert_eq!(ts.len(), 20, "ts is YYYY-MM-DDTHH:MM:SSZ (20 chars)");
        assert!(ts.ends_with('Z'));
        assert!(value.get("elapsed_ms").is_some());
    }
}

#[test]
fn a_line_is_the_payload_with_three_members_put_in() {
    let cfg = config();
    let (writer, _) = TranscriptWriter::open(Some((&cfg, Ok(()))));
    let elapsed = Duration {
        secs: 1,
        nanos: 2_999_999,
    };
    let line = writer
        .emit(
            "run_end",
            json(r#"{"outcome":"a\nb","ts":"mine","event":3}"#),
            now(),
            elapsed,
        )
        .unwrap();
    assert_eq!(
        line,
        "{\"elapsed_ms\":1002,\"event\":\"run_end\",\"outcome\":\"a\\nb\",\"ts\":\"2023-11-14T22:13:20Z\"}\n"
    );
}

#[test]
fn a_payload_that_is_no_object_is_kept() {
    let cfg = config();
    let (writer, _) = TranscriptWriter::open(Some((&cfg, Ok(()))));
    let line = writer
        .emit("run_end", json("[1,2]"), now(), Duration::from_secs(0))
        .unwrap();
    let value = Json::parse(&line).unwrap();
    assert_eq!(value.get("value"), Some(&json("[1,2]")));
    assert_eq!(value.text_at("event"), Some("run_end"));
    assert_eq!(
        value.get("elapsed_ms"),
        Some(&Json::Number(Number::Unsigned(0)))
    );
}

#[test]
fn milliseconds_stop_at_the_largest_number() {
    assert_eq!(
        elapsed_ms(Duration {
            secs: 3,
            nanos: 999_999
        }),
        3_000
    );
    assert_eq!(elapsed_ms(Duration::from_secs(u64::MAX)), u64::MAX);
}

#[test]
fn the_events_are_a_closed_set() {
    assert_eq!(TRANSCRIPT_VERSION, 1);
    assert_eq!(
        event_kinds(),
        vec![
            "run_start",
            "model_request",
            "backend_error",
            "model_response",
            "tool_result",
            "harness_message",
            "iteration_end",
            "run_end",
            "contract_violation",
        ]
    );
}
