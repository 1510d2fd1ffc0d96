use harness::json::Json;
use harness::run_record::{BudgetConsumed, Disposition, Event, Phase, Verification};
use harness::store::{event_kind, stamp, with_seq, StoreError};

fn tick(seq: u64) -> Event {
    Event::BudgetTick {
        seq,
        consumed: BudgetConsumed::default(),
    }
}

#[test]
fn store_error_display_covers_all_variants() {
    let sql = StoreError::Sql("Query returned no rows".to_string());
    assert!(sql.message().contains("sql error"));

    let ser = StoreError::Serialization("expected ident at line 1 column 2".to_string());
    assert!(ser.message().contains("serialization error"));

    let join = StoreError::Join("oops".to_string());
    assert!(join.message().contains("background task error"));

    let poisoned = StoreError::LockPoisoned;
    assert!(poisoned.message().contains("poisoned"));

    let _ = format!("{poisoned:?}");
}

#[test]
fn event_kind_returns_variant_name() {
    let cases: &[(Event, &str)] = &[
        (
            Event::ModelCall {
                seq: 0,
                model: "m".to_string(),
                prompt_tokens: 0,
                completion_tokens: 0,
            },
            "ModelCall",
        ),
        (
            Event::ToolCallStarted {
                seq: 0,
                name: "t".to_string(),
                args: Json::Null,
                call_id: "c-t".to_string(),
            },
            "ToolCallStarted",
        ),
        (
            Event::ToolCallResult {
                seq: 0,
                name: "t".to_string(),
                is_error: false,
                summary: String::new(),
                offload_path: None,
            },
            "ToolCallResult",
        ),
        (
            Event::PhaseTransition {
                seq: 0,
                from: Phase::Init,
                to: Phase::Orient,
            },
            "PhaseTransition",
        ),
        (tick(0), "BudgetTick"),
        (
            Event::DispositionSet {
                seq: 0,
                disposition: Disposition::Done {
                    summary: "done".to_string(),
                    verification: Verification::NoChecksConfigured,
                },
            },
            "DispositionSet",
        ),
    ];
    for (ev, expected) in cases {
        assert_eq!(event_kind(ev), *expected);
    }
}

#[test]
fn with_seq_overwrites_seq_for_every_variant() {
    let cases = [
        Event::ModelCall {
            seq: 99,
            model: "m".to_string(),
            prompt_tokens: 1,
            completion_tokens: 2,
        },
        Event::ToolCallStarted {
            seq: 99,
            name: "t".to_string(),
            args: Json::parse(r#"{"x": 1}"#).unwrap(),
            call_id: "c-with-seq".to_string(),
        },
        Event::ToolCallResult {
            seq: 99,
            name: "t".to_string(),
            is_error: true,
            summary: "boom".to_string(),
            offload_path: Some("/tmp/x".to_string()),
        },
        Event::PhaseTransition {
            seq: 99,
            from: Phase::Init,
            to: Phase::Orient,
        },
        Event::BudgetTick {
            seq: 99,
            consumed: BudgetConsumed {
                iterations: 1,
                tokens: 1,
                cost_micros: 1,
            },
        },
        Event::DispositionSet {
            seq: 99,
            disposition: Disposition::Blocked {
                decision_needed: "?".to_string(),
            },
        },
    ];
    for ev in cases {
        let stamped = with_seq(ev.clone(), 7);
        let new_seq = match &stamped {
            Event::ModelCall { seq, .. }
            | Event::ToolCallStarted { seq, .. }
            | Event::ToolCallResult { seq, .. }
            | Event::PhaseTransition { seq, .. }
            | Event::BudgetTick { seq, .. }
            | Event::DispositionSet { seq, .. } => *seq,
        };
        assert_eq!(new_seq, 7);
        assert_eq!(with_seq(stamped, 99), ev);
    }
}

#[test]
fn events_are_numbered_from_zero_in_each_run() {
    let mut largest = None;
    for expected in 0..5u64 {
        let stamped = stamp(tick(99), largest);
        assert_eq!(stamped.seq, expected);
        assert_eq!(stamped.event, tick(expected));
        assert_eq!(stamped.kind, "BudgetTick");
        largest = Some(stamped.seq as i64);
    }
    assert_eq!(stamp(tick(3), None).seq, 0);
    assert_eq!(stamp(tick(3), Some(41)).seq, 42);
    assert_eq!(stamp(tick(3), Some(-1)).seq, 0);
}

#[test]
fn store_errors_say_what_happened() {
    assert_eq!(StoreError::Sql("x".to_string()).message(), "sql error: x");
    assert_eq!(
        StoreError::Serialization("x".to_string()).message(),
        "serialization error: x"
    );
    assert_eq!(
        StoreError::Join("x".to_string()).message(),
        "background task error: x"
    );
    assert_eq!(
        StoreError::LockPoisoned.message(),
        "internal connection mutex was poisoned"
    );
}

#[test]
fn a_run_is_numbered_whatever_other_runs_do() {
    let mut log: Vec<(&str, u64, Event)> = Vec::new();
    for (run, seq) in [("a", 7), ("b", 0), ("a", 7), ("a", 99), ("b", 1)] {
        let event = Event::ModelCall {
            seq,
            model: format!("{run}{}", log.len()),
            prompt_tokens: 1,
            completion_tokens: 2,
        };
        let largest = log
            .iter()
            .filter(|row| row.0 == run)
            .map(|row| i64::try_from(row.1).expect("fits"))
            .max();
        let stamped = stamp(event, largest);
        log.push((run, stamped.seq, stamped.event));
    }
    let read = |run: &str| -> Vec<(u64, String)> {
        log.iter()
            .filter(|row| row.0 == run)
            .map(|row| match &row.2 {
                Event::ModelCall { seq, model, .. } => (*seq, model.clone()),
                other => panic!("unexpected {other:?}"),
            })
            .collect()
    };
    let expected = |rows: &[(u64, &str)]| -> Vec<(u64, String)> {
        rows.iter().map(|(n, m)| (*n, m.to_string())).collect()
    };
    assert_eq!(read("a"), expected(&[(0, "a0"), (1, "a2"), (2, "a3")]));
    assert_eq!(read("b"), expected(&[(0, "b1"), (1, "b4")]));
}
