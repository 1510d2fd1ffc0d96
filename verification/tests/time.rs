use std::sync::Arc;

use harness::time::{
    days_to_ymd, format_rfc3339, instant_from_epoch, Clock, Duration, FakeClock, SystemClock,
    UnixTime,
};

fn after_epoch(secs: u64) -> UnixTime {
    UnixTime::epoch().plus(Duration::from_secs(secs))
}

#[test]
fn epoch_formats_as_zero_time() {
    assert_eq!(format_rfc3339(UnixTime::epoch()), "1970-01-01T00:00:00Z");
}

#[test]
fn known_timestamp_formats_correctly() {
    let t = after_epoch(1_700_000_000);
    assert_eq!(format_rfc3339(t), "2023-11-14T22:13:20Z");
}

#[test]
fn system_clock_now_is_after_epoch() {
    let mut clock = SystemClock;
    let now = clock.now();
    assert!(
        now.secs > 0,
        "SystemClock::now() should be after the Unix epoch"
    );
}

#[test]
fn system_clock_is_debug_send_sync() {
    fn assert_debug_send_sync<T: std::fmt::Debug + Send + Sync>() {}
    assert_debug_send_sync::<SystemClock>();
}

#[test]
fn system_clock_arc_dyn_clock_is_clone_and_debug() {
    let c: Arc<dyn Clock> = Arc::new(SystemClock);
    let _c2 = c.clone();
    let _ = format!("{c:?}");
}

#[test]
fn fake_clock_starts_at_given_time() {
    let t0 = after_epoch(1_000);
    let mut clock = FakeClock::new(t0);
    assert_eq!(clock.now(), t0);
    assert_eq!(clock.now(), t0);
}

#[test]
fn fake_clock_advance_moves_time_forward() {
    let t0 = UnixTime::epoch();
    let mut clock = FakeClock::new(t0);
    clock.advance(Duration::from_secs(42));
    assert_eq!(
        clock.now(),
        t0.plus(Duration::from_secs(42)),
        "advance must move the clock forward by the given duration"
    );
}

#[test]
fn fake_clock_advance_is_cumulative() {
    let t0 = UnixTime::epoch();
    let mut clock = FakeClock::new(t0);
    clock.advance(Duration::from_secs(10));
    clock.advance(Duration::from_secs(5));
    assert_eq!(clock.now(), t0.plus(Duration::from_secs(15)));
}

#[test]
fn fake_clock_implements_clock_trait() {
    let mut clock = FakeClock::new(after_epoch(500));
    let dyn_clock: &mut dyn Clock = &mut clock;
    assert_eq!(dyn_clock.now(), after_epoch(500));
}

#[test]
fn fake_clock_auto_advance_per_now_call() {
    let t0 = UnixTime::epoch();
    let step = Duration::from_secs(10);
    let mut clock = FakeClock::new_auto_advance(t0, step);
    assert_eq!(clock.now(), t0);
    assert_eq!(clock.now(), t0.plus(Duration::from_secs(10)));
    assert_eq!(clock.now(), t0.plus(Duration::from_secs(20)));
}

#[test]
fn a_copied_clock_goes_its_own_way() {
    let mut clock = FakeClock::new_auto_advance(UnixTime::epoch(), Duration::from_secs(1));
    let mut copy = clock.clone();
    clock.now();
    clock.now();
    assert_eq!(copy.now(), UnixTime::epoch());
    assert_eq!(clock.now(), after_epoch(2));
}

#[test]
fn a_clock_stops_at_the_last_instant() {
    let last = UnixTime {
        secs: i64::MAX,
        nanos: 999_999_999,
    };
    let mut clock = FakeClock::new_auto_advance(last, Duration::from_secs(1));
    assert_eq!(clock.now(), last);
    assert_eq!(clock.now(), last);
}

#[test]
fn leap_days_and_year_ends_are_dated() {
    assert_eq!(days_to_ymd(0), (1970, 1, 1));
    assert_eq!(days_to_ymd(364), (1970, 12, 31));
    assert_eq!(days_to_ymd(365), (1971, 1, 1));
    assert_eq!(days_to_ymd(11_016), (2000, 2, 29));
    assert_eq!(days_to_ymd(11_017), (2000, 3, 1));
    assert_eq!(days_to_ymd(47_540), (2100, 2, 28));
    assert_eq!(days_to_ymd(47_541), (2100, 3, 1));
    assert_eq!(
        format_rfc3339(after_epoch(951_868_799)),
        "2000-02-29T23:59:59Z"
    );
}

#[test]
fn an_instant_before_the_epoch_is_written_as_the_epoch() {
    let before = instant_from_epoch(false, 5, 1);
    assert_eq!(
        before,
        UnixTime {
            secs: -6,
            nanos: 999_999_999
        }
    );
    assert_eq!(format_rfc3339(before), "1970-01-01T00:00:00Z");
    let after = instant_from_epoch(true, 5, 1);
    assert_eq!(after, UnixTime { secs: 5, nanos: 1 });
}

#[test]
fn spans_between_instants_borrow_from_the_second() {
    let a = UnixTime {
        secs: 10,
        nanos: 900_000_000,
    };
    let b = UnixTime {
        secs: 12,
        nanos: 100_000_000,
    };
    assert_eq!(
        b.since(a),
        Duration {
            secs: 1,
            nanos: 200_000_000
        }
    );
    assert_eq!(a.since(b), Duration { secs: 0, nanos: 0 });
    assert_eq!(a.plus(b.since(a)), b);
}

#[test]
fn timestamps_are_in_the_order_of_the_instants() {
    let seconds: [i64; 9] = [
        0,
        59,
        60,
        86_399,
        86_400,
        951_782_399,
        951_782_400,
        4_102_444_800,
        253_402_300_799,
    ];
    let stamps: Vec<String> = seconds
        .iter()
        .map(|&secs| format_rfc3339(UnixTime { secs, nanos: 5 }))
        .collect();
    for pair in stamps.windows(2) {
        assert!(pair[0] < pair[1], "{pair:?}");
        assert_eq!(pair[0].len(), 20);
    }
    assert_eq!(stamps[6], "2000-02-29T00:00:00Z");
    assert_eq!(stamps[8], "9999-12-31T23:59:59Z");
}
