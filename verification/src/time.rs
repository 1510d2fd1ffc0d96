//! Time: durations, instants counted from the Unix epoch, clocks, and UTC
//! timestamps in the form of RFC 3339.
use vstd::prelude::*;

use crate::text;
use crate::text::dec_padded;

verus! {

// ---------------------------------------------------------------------------
// The Gregorian calendar
// ---------------------------------------------------------------------------

/// `y` is a leap year.
pub open spec fn leap(y: int) -> bool {
    y % 4 == 0 && (y % 100 != 0 || y % 400 == 0)
}

/// How many days year `y` has.
pub open spec fn year_days(y: int) -> int {
    if leap(y) {
        366
    } else {
        365
    }
}

/// How many days month `m` of year `y` has.
pub open spec fn month_days(y: int, m: int) -> int {
    if m == 2 {
        if leap(y) {
            29
        } else {
            28
        }
    } else if m == 4 || m == 6 || m == 9 || m == 11 {
        30
    } else {
        31
    }
}

/// How many days there are from the start of year 0 to the start of year `y`.
pub open spec fn days_before_year(y: int) -> int
    decreases y,
{
    if y <= 0 {
        0
    } else {
        days_before_year(y - 1) + year_days(y - 1)
    }
}

/// How many days of year `y` come before its month `m`.
pub open spec fn days_before_month(y: int, m: int) -> int
    decreases m,
{
    if m <= 1 {
        0
    } else {
        days_before_month(y, m - 1) + month_days(y, m - 1)
    }
}

/// There is a day `d` in a month `m` of year `y`.
pub open spec fn valid_date(y: int, m: int, d: int) -> bool {
    0 <= y && 1 <= m <= 12 && 1 <= d <= month_days(y, m)
}

/// The number of days from the start of year 0 to the given date.
pub open spec fn day_number(y: int, m: int, d: int) -> int {
    days_before_year(y) + days_before_month(y, m) + (d - 1)
}

/// The number of days from 1970-01-01 to the given date.
pub open spec fn unix_day(y: int, m: int, d: int) -> int {
    day_number(y, m, d) - day_number(1970, 1, 1)
}

/// How many of the years 1 to `y` are leap years.
spec fn leaps(y: int) -> int {
    y / 4 - y / 100 + y / 400
}

proof fn lemma_leaps(y: int)
    requires
        1 <= y,
    ensures
        leaps(y) == leaps(y - 1) + (if leap(y) {
            1int
        } else {
            0int
        }),
{
    assert(y / 4 == (y - 1) / 4 + (if y % 4 == 0 {
        1int
    } else {
        0
    }));
    assert(y / 100 == (y - 1) / 100 + (if y % 100 == 0 {
        1int
    } else {
        0
    }));
    assert(y / 400 == (y - 1) / 400 + (if y % 400 == 0 {
        1int
    } else {
        0
    }));
    assert(y % 400 == 0 ==> y % 100 == 0);
    assert(y % 100 == 0 ==> y % 4 == 0);
}

proof fn lemma_days_before_year(y: int)
    requires
        0 <= y,
    ensures
        days_before_year(y) == (if y == 0 {
            0
        } else {
            365 * y + leaps(y - 1) + 1
        }),
    decreases y,
{
    if y >= 1 {
        lemma_days_before_year(y - 1);
        if y >= 2 {
            lemma_leaps(y - 1);
        }
    }
}

/// The day of a cycle of 400 years, counted from the first of March.
proof fn lemma_year_of_era(doe: int, yoe: int)
    requires
        0 <= doe < 146097,
        yoe == (doe - doe / 1460 + doe / 36524 - doe / 146096) / 365,
    ensures
        0 <= yoe < 400,
        0 <= doe - (365 * yoe + yoe / 4 - yoe / 100) <= 365,
        doe - (365 * yoe + yoe / 4 - yoe / 100) == 365 ==> leap(yoe + 1),
{
}

/// The month and day of the day `doy` of a year that starts in March.
proof fn lemma_month_of_year(y: int, doy: int, mp: int)
    requires
        0 <= y,
        0 <= doy <= 365,
        doy == 365 ==> leap(y + 1),
        mp == (5 * doy + 2) / 153,
    ensures
        0 <= mp <= 11,
        ({
            let d = doy - (153 * mp + 2) / 5 + 1;
            let m = if mp < 10 {
                mp + 3
            } else {
                mp - 9
            };
            let year = if m <= 2 {
                y + 1
            } else {
                y
            };
            &&& valid_date(year, m, d)
            &&& day_number(year, m, d) == 60 + 365 * y + leaps(y) + doy
        }),
{
    reveal_with_fuel(days_before_month, 13);
    lemma_days_before_year(y);
    lemma_days_before_year(y + 1);
    if y >= 1 {
        lemma_leaps(y);
    }
    lemma_leaps(y + 1);
}

/// The calendar date that is `days` days after 1970-01-01, as year, month and
/// day of the month.
pub open spec fn civil_date(days: int) -> (int, int, int) {
    choose|t: (int, int, int)|
        #![trigger unix_day(t.0, t.1, t.2)]
        valid_date(t.0, t.1, t.2) && unix_day(t.0, t.1, t.2) == days
}

/// A later month starts later within the year.
proof fn lemma_months_grow(y: int, m: int, n: int)
    requires
        1 <= m < n,
    ensures
        days_before_month(y, m) + month_days(y, m) <= days_before_month(y, n),
    decreases n,
{
    if n > m + 1 {
        lemma_months_grow(y, m, n - 1);
    }
}

/// A year is over when the next one starts.
proof fn lemma_day_in_year(y: int, m: int, d: int)
    requires
        valid_date(y, m, d),
    ensures
        days_before_year(y) <= day_number(y, m, d) < days_before_year(y + 1),
{
    reveal_with_fuel(days_before_month, 13);
}

proof fn lemma_years_grow(y: int, z: int)
    requires
        0 <= y <= z,
    ensures
        days_before_year(y) <= days_before_year(z),
    decreases z,
{
    if y < z {
        lemma_years_grow(y, z - 1);
    }
}

/// No two dates are the same day: the calendar date of a day is unique.
pub proof fn lemma_dates_are_distinct(a: (int, int, int), b: (int, int, int))
    requires
        valid_date(a.0, a.1, a.2),
        valid_date(b.0, b.1, b.2),
        unix_day(a.0, a.1, a.2) == unix_day(b.0, b.1, b.2),
    ensures
        a == b,
{
    lemma_day_in_year(a.0, a.1, a.2);
    lemma_day_in_year(b.0, b.1, b.2);
    if a.0 < b.0 {
        lemma_years_grow(a.0 + 1, b.0);
    }
    if b.0 < a.0 {
        lemma_years_grow(b.0 + 1, a.0);
    }
    if a.1 < b.1 {
        lemma_months_grow(a.0, a.1, b.1);
    }
    if b.1 < a.1 {
        lemma_months_grow(a.0, b.1, a.1);
    }
}

/// What the date of a day is, once a date of that day is known.
proof fn lemma_civil_date_is(days: int, y: int, m: int, d: int)
    requires
        valid_date(y, m, d),
        unix_day(y, m, d) == days,
    ensures
        civil_date(days) == (y, m, d),
{
    let t = (y, m, d);
    assert(valid_date(t.0, t.1, t.2) && unix_day(t.0, t.1, t.2) == days);
    lemma_dates_are_distinct(civil_date(days), t);
}

/// The epoch's own day number.
proof fn lemma_epoch()
    ensures
        day_number(1970, 1, 1) == 719_528,
{
    lemma_days_before_year(1970);
}

/// Cycles of 400 years put in front of a year only shift the count of days.
proof fn lemma_era(z: int, era: int, yoe: int, y: int, doy: int)
    requires
        0 <= era,
        0 <= yoe < 400,
        y == yoe + era * 400,
        z == era * 146_097 + 365 * yoe + yoe / 4 - yoe / 100 + doy,
    ensures
        365 * y + leaps(y) + doy == z,
        leap(yoe + 1) ==> leap(y + 1),
{
    assert(y / 4 == yoe / 4 + era * 100);
    assert(y / 100 == yoe / 100 + era * 4);
    assert(y / 400 == era);
}

/// The calendar date `days` days after 1970-01-01. The year is given modulo
/// 2^32.
pub fn days_to_ymd(days: u64) -> (r: (u32, u32, u32))
    requires
        days <= u64::MAX - 719_468,
    ensures
        valid_date(civil_date(days as int).0, civil_date(days as int).1, civil_date(days as int).2),
        unix_day(civil_date(days as int).0, civil_date(days as int).1, civil_date(days as int).2)
            == days,
        r.0 == civil_date(days as int).0 % 0x1_0000_0000,
        r.1 == civil_date(days as int).1,
        r.2 == civil_date(days as int).2,
{
    let z: u64 = days + 719_468;
    let era: u64 = z / 146_097;
    let doe: u64 = z - era * 146_097;
    let yoe: u64 = (doe - doe / 1_460 + doe / 36_524 - doe / 146_096) / 365;
    proof {
        lemma_year_of_era(doe as int, yoe as int);
    }
    let y: u64 = yoe + era * 400;
    let doy: u64 = doe - (365 * yoe + yoe / 4 - yoe / 100);
    let mp: u64 = (5 * doy + 2) / 153;
    proof {
        lemma_era(z as int, era as int, yoe as int, y as int, doy as int);
        lemma_month_of_year(y as int, doy as int, mp as int);
    }
    let d: u64 = doy - (153 * mp + 2) / 5 + 1;
    let m: u64 = if mp < 10 {
        mp + 3
    } else {
        mp - 9
    };
    let year: u64 = if m <= 2 {
        y + 1
    } else {
        y
    };
    proof {
        lemma_epoch();
        lemma_civil_date_is(days as int, year as int, m as int, d as int);
        assert(year as u32 == year % 0x1_0000_0000) by (bit_vector);
    }
    (year as u32, m as u32, d as u32)
}

// ---------------------------------------------------------------------------
// Durations and instants
// ---------------------------------------------------------------------------

/// How many nanoseconds there are in a second.
pub const NANOS_PER_SEC: u32 = 1_000_000_000;

/// A span of time: whole seconds, and nanoseconds within the second.
#[derive(Debug, Clone, Copy, PartialEq, Eq, Structural)]
pub struct Duration {
    pub secs: u64,
    pub nanos: u32,
}

impl Duration {
    /// The nanoseconds stay within the second.
    pub open spec fn wf(self) -> bool {
        self.nanos < NANOS_PER_SEC
    }

    /// The whole span, in nanoseconds.
    pub open spec fn total(self) -> int {
        self.secs * NANOS_PER_SEC + self.nanos
    }

    /// A span of whole seconds.
    pub fn from_secs(secs: u64) -> (r: Duration)
        ensures
            r.wf(),
            r.secs == secs,
            r.nanos == 0,
            r.total() == secs * NANOS_PER_SEC,
    {
        Duration { secs, nanos: 0 }
    }
}

/// An instant, counted from the Unix epoch: whole seconds, rounded down, and
/// nanoseconds within the second.
#[derive(Debug, Clone, Copy, PartialEq, Eq, Structural)]
pub struct UnixTime {
    pub secs: i64,
    pub nanos: u32,
}

impl UnixTime {
    /// The nanoseconds stay within the second.
    pub open spec fn wf(self) -> bool {
        self.nanos < NANOS_PER_SEC
    }

    /// Nanoseconds from the epoch to this instant.
    pub open spec fn total(self) -> int {
        self.secs * NANOS_PER_SEC + self.nanos
    }

    /// The last instant there is.
    pub open spec fn last() -> UnixTime {
        UnixTime { secs: i64::MAX, nanos: 999_999_999 }
    }

    /// `to` is the instant `d` after this one, or the last instant where that
    /// is out of range.
    pub open spec fn moved(self, d: Duration, to: UnixTime) -> bool {
        if self.total() + d.total() <= UnixTime::last().total() {
            to.total() == self.total() + d.total()
        } else {
            to == UnixTime::last()
        }
    }

    /// 1970-01-01T00:00:00Z.
    pub fn epoch() -> (r: UnixTime)
        ensures
            r.wf(),
            r.total() == 0,
    {
        UnixTime { secs: 0, nanos: 0 }
    }

    /// The instant `d` later, or the last instant where that is out of range.
    pub fn plus(self, d: Duration) -> (r: UnixTime)
        requires
            self.wf(),
            d.wf(),
        ensures
            r.wf(),
            self.moved(d, r),
    {
        let sum: u32 = self.nanos + d.nanos;
        let carry: i128 = if sum >= NANOS_PER_SEC {
            1
        } else {
            0
        };
        let secs: i128 = self.secs as i128 + d.secs as i128 + carry;
        if secs > 0x7fff_ffff_ffff_ffff {
            return UnixTime { secs: 0x7fff_ffff_ffff_ffff, nanos: 999_999_999 };
        }
        let nanos: u32 = if sum >= NANOS_PER_SEC {
            sum - NANOS_PER_SEC
        } else {
            sum
        };
        UnixTime { secs: secs as i64, nanos }
    }

    /// How much later this instant is than `earlier`: nothing where it is not.
    pub fn since(self, earlier: UnixTime) -> (r: Duration)
        requires
            self.wf(),
            earlier.wf(),
        ensures
            r.wf(),
            self.total() >= earlier.total() ==> r.total() == self.total() - earlier.total(),
            self.total() < earlier.total() ==> r.total() == 0,
    {
        let mut secs: i128 = self.secs as i128 - earlier.secs as i128;
        let mut nanos: u32 = 0;
        if self.nanos >= earlier.nanos {
            nanos = self.nanos - earlier.nanos;
        } else {
            nanos = self.nanos + NANOS_PER_SEC - earlier.nanos;
            secs = secs - 1;
        }
        if secs < 0 {
            return Duration { secs: 0, nanos: 0 };
        }
        Duration { secs: secs as u64, nanos }
    }
}

// ---------------------------------------------------------------------------
// Clocks
// ---------------------------------------------------------------------------

/// Where the harness reads the wall clock, so that tests can drive time.
/// Reading takes `&mut self` because a clock may move when it is read.
pub trait Clock: core::fmt::Debug + Send + Sync {
    /// The current instant.
    fn now(&mut self) -> (r: UnixTime)
        ensures
            r.wf(),
    ;
}

/// The machine's own clock.
#[derive(Debug, Clone, Copy)]
pub struct SystemClock;

/// Reads `std::time::SystemTime::now` and hands it on as the seconds and
/// nanoseconds by which it lies after the epoch, or before it. Nothing is said
/// of which instant that is; the nanoseconds stay within the second, as
/// `Duration::subsec_nanos` documents.
#[verifier::external_body]
fn read_system_time() -> (r: Result<(u64, u32), (u64, u32)>)
    ensures
        r matches Ok(p) ==> p.1 < NANOS_PER_SEC,
        r matches Err(p) ==> p.1 < NANOS_PER_SEC,
{
    match std::time::SystemTime::now().duration_since(std::time::UNIX_EPOCH) {
        Ok(d) => Ok((d.as_secs(), d.subsec_nanos())),
        Err(e) => Err((e.duration().as_secs(), e.duration().subsec_nanos())),
    }
}

/// `r` lies `secs` seconds and `nanos` nanoseconds after the epoch (`after`), or
/// before it; it is the last instant, or the first, where that is out of range.
pub open spec fn placed(after: bool, secs: u64, nanos: u32, r: UnixTime) -> bool {
    if secs <= i64::MAX {
        r.total() == if after {
            secs * NANOS_PER_SEC + nanos
        } else {
            -(secs * NANOS_PER_SEC + nanos)
        }
    } else if after {
        r == UnixTime::last()
    } else {
        r == (UnixTime { secs: i64::MIN, nanos: 0 })
    }
}

/// The machine's clock was read, and `r` is where what it gave lies.
pub closed spec fn machine_time(r: UnixTime) -> bool {
    exists|read: Result<(u64, u32), (u64, u32)>| #[trigger]
        call_ensures(read_system_time, (), read) && match read {
            Ok((secs, nanos)) => placed(true, secs, nanos, r),
            Err((secs, nanos)) => placed(false, secs, nanos, r),
        }
}

/// The instant that lies `secs` seconds and `nanos` nanoseconds after the
/// epoch (`after`), or before it.
pub fn instant_from_epoch(after: bool, secs: u64, nanos: u32) -> (r: UnixTime)
    requires
        nanos < NANOS_PER_SEC,
    ensures
        r.wf(),
        placed(after, secs, nanos, r),
{
    if after {
        if secs > 0x7fff_ffff_ffff_ffff {
            UnixTime { secs: 0x7fff_ffff_ffff_ffff, nanos: 999_999_999 }
        } else {
            UnixTime { secs: secs as i64, nanos }
        }
    } else if secs > 0x7fff_ffff_ffff_ffff {
        UnixTime { secs: i64::MIN, nanos: 0 }
    } else if nanos == 0 {
        UnixTime { secs: -(secs as i64), nanos: 0 }
    } else {
        UnixTime { secs: -(secs as i64) - 1, nanos: NANOS_PER_SEC - nanos }
    }
}

impl Clock for SystemClock {
    /// What the machine's clock gives.
    fn now(&mut self) -> (r: UnixTime)
        ensures
            machine_time(r),
    {
        match read_system_time() {
            Ok((secs, nanos)) => instant_from_epoch(true, secs, nanos),
            Err((secs, nanos)) => instant_from_epoch(false, secs, nanos),
        }
    }
}

/// A clock that moves only when told to: by [`FakeClock::advance`], and by a
/// fixed step each time it is read.
#[derive(Debug)]
pub struct FakeClock {
    current: UnixTime,
    step: Duration,
}

impl FakeClock {
    /// The instant that the next reading gives.
    pub closed spec fn current(self) -> UnixTime {
        self.current
    }

    /// How far each reading moves the clock.
    pub closed spec fn step(self) -> Duration {
        self.step
    }

    #[verifier::type_invariant]
    spec fn inv(self) -> bool {
        self.current.wf() && self.step.wf()
    }

    /// A clock at `start` that reading does not move.
    pub fn new(start: UnixTime) -> (r: FakeClock)
        requires
            start.wf(),
        ensures
            r.current() == start,
            r.step().total() == 0,
    {
        FakeClock { current: start, step: Duration { secs: 0, nanos: 0 } }
    }

    /// A clock at `start` that each reading moves by `step`.
    pub fn new_auto_advance(start: UnixTime, step: Duration) -> (r: FakeClock)
        requires
            start.wf(),
            step.wf(),
        ensures
            r.current() == start,
            r.step() == step,
    {
        FakeClock { current: start, step }
    }

    /// `next` is the same clock, `d` later.
    pub open spec fn moves(self, d: Duration, next: FakeClock) -> bool {
        &&& next.step() == self.step()
        &&& next.current().total() == self.current().total() + d.total()
    }

    /// Moves the clock forward by `d`.
    pub fn advance(&mut self, d: Duration)
        requires
            d.wf(),
            old(self).current().total() + d.total() <= UnixTime::last().total(),
        ensures
            old(self).moves(d, *final(self)),
            final(self).step() == old(self).step(),
            final(self).current().total() == old(self).current().total() + d.total(),
    {
        proof {
            use_type_invariant(&*self);
        }
        self.current = self.current.plus(d);
    }
}

impl Clone for FakeClock {
    fn clone(&self) -> (r: FakeClock)
        ensures
            r == *self,
    {
        proof {
            use_type_invariant(self);
        }
        FakeClock { current: self.current, step: self.step }
    }
}

impl Clock for FakeClock {
    /// Gives the current instant, then moves the clock by its step, at most to
    /// the last instant there is.
    fn now(&mut self) -> (r: UnixTime)
        ensures
            read_once(*old(self), r, *final(self)),
    {
        proof {
            use_type_invariant(&*self);
        }
        let t = self.current;
        self.current = t.plus(self.step);
        t
    }
}

/// The clock read once: it gives its current instant and moves by its step.
pub open spec fn read_once(before: FakeClock, reading: UnixTime, after: FakeClock) -> bool {
    &&& reading == before.current()
    &&& after.step() == before.step()
    &&& reading.moved(before.step(), after.current())
}

/// The readings of a clock are evenly spaced: the first is the instant that it
/// was set to, and each one is a step later than the one before. A clock without
/// a step stands still.
pub proof fn law_readings_are_evenly_spaced(
    clocks: Seq<FakeClock>,
    readings: Seq<UnixTime>,
    i: int,
)
    requires
        clocks.len() == readings.len() + 1,
        forall|k: int|
            #![trigger readings[k]]
            0 <= k < readings.len() ==> read_once(clocks[k], readings[k], clocks[k + 1]),
        0 <= i < readings.len(),
        0 <= clocks[0].step().total(),
        clocks[0].current().total() + i * clocks[0].step().total() <= UnixTime::last().total(),
    ensures
        readings[i].total() == clocks[0].current().total() + i * clocks[0].step().total(),
        clocks[i].step() == clocks[0].step(),
    decreases i,
{
    let step = clocks[0].step().total();
    assert(read_once(clocks[i], readings[i], clocks[i + 1]));
    if i == 0 {
        assert(0 * step == 0);
    } else {
        assert((i - 1) * step + step == i * step) by (nonlinear_arith);
        law_readings_are_evenly_spaced(clocks, readings, i - 1);
        assert(read_once(clocks[i - 1], readings[i - 1], clocks[i]));
    }
}

// ---------------------------------------------------------------------------
// Timestamps
// ---------------------------------------------------------------------------

/// The text of a UTC timestamp: the date, `T`, the time of day, `Z`.
pub open spec fn timestamp_text(secs: int) -> Seq<char> {
    let date = civil_date(secs / 86_400);
    text::zero_pad(text::dec((date.0 % 0x1_0000_0000) as nat), 4) + "-"@
        + text::zero_pad(text::dec(date.1 as nat), 2) + "-"@ + text::zero_pad(
        text::dec(date.2 as nat),
        2,
    ) + "T"@ + text::zero_pad(text::dec((secs / 3_600 % 24) as nat), 2) + ":"@
        + text::zero_pad(text::dec((secs / 60 % 60) as nat), 2) + ":"@
        + text::zero_pad(text::dec((secs % 60) as nat), 2) + "Z"@
}

/// The text has the form `YYYY-MM-DDTHH:MM:SSZ`.
pub open spec fn stamp_form(s: Seq<char>) -> bool {
    &&& s.len() == 20
    &&& s[4] == '-'
    &&& s[7] == '-'
    &&& s[10] == 'T'
    &&& s[13] == ':'
    &&& s[16] == ':'
    &&& s[19] == 'Z'
}

/// A small number padded to two digits takes two characters, and one below ten
/// thousand padded to four takes four.
proof fn lemma_padded_len(n: nat)
    ensures
        n < 100 ==> text::zero_pad(text::dec(n), 2).len() == 2,
        n < 10_000 ==> text::zero_pad(text::dec(n), 4).len() == 4,
{
    reveal_with_fuel(text::dec, 5);
}

/// A timestamp whose parts are within their ranges has the form.
proof fn lemma_stamp_form(secs: int)
    requires
        0 <= secs,
        0 <= civil_date(secs / 86_400).0 <= 9_999,
        valid_date(
            civil_date(secs / 86_400).0,
            civil_date(secs / 86_400).1,
            civil_date(secs / 86_400).2,
        ),
    ensures
        stamp_form(timestamp_text(secs)),
{
    let date = civil_date(secs / 86_400);
    lemma_padded_len((date.0 % 0x1_0000_0000) as nat);
    lemma_padded_len(date.1 as nat);
    lemma_padded_len(date.2 as nat);
    lemma_padded_len((secs / 3_600 % 24) as nat);
    lemma_padded_len((secs / 60 % 60) as nat);
    lemma_padded_len((secs % 60) as nat);
    reveal_strlit("-");
    reveal_strlit("T");
    reveal_strlit(":");
    reveal_strlit("Z");
}

/// `t` as a UTC timestamp of the form `YYYY-MM-DDTHH:MM:SSZ`. An instant before
/// the epoch is written as the epoch.
pub fn format_rfc3339(t: UnixTime) -> (r: String)
    ensures
        r@ == timestamp_text(if t.secs < 0 {
            0
        } else {
            t.secs as int
        }),
        (if t.secs < 0 {
            1970
        } else {
            civil_date(t.secs as int / 86_400).0
        }) <= 9_999 ==> stamp_form(r@),
{
    let secs: u64 = if t.secs < 0 {
        0
    } else {
        t.secs as u64
    };
    let (year, month, day) = days_to_ymd(secs / 86_400);
    let mut s = dec_padded(year as u64, 4);
    s.append("-");
    s.append(dec_padded(month as u64, 2).as_str());
    s.append("-");
    s.append(dec_padded(day as u64, 2).as_str());
    s.append("T");
    s.append(dec_padded(secs / 3_600 % 24, 2).as_str());
    s.append(":");
    s.append(dec_padded(secs / 60 % 60, 2).as_str());
    s.append(":");
    s.append(dec_padded(secs % 60, 2).as_str());
    s.append("Z");
    proof {
        if t.secs < 0 {
            lemma_civil_date_is(0, 1970, 1, 1);
        }
        if civil_date(secs as int / 86_400).0 <= 9_999 {
            lemma_stamp_form(secs as int);
        }
    }
    s
}

/// There is a date for every day from the epoch on.
proof fn lemma_civil_date(days: int)
    requires
        0 <= days,
    ensures
        valid_date(civil_date(days).0, civil_date(days).1, civil_date(days).2),
        unix_day(civil_date(days).0, civil_date(days).1, civil_date(days).2) == days,
{
    let z = days + 719_468;
    let era = z / 146_097;
    let doe = z - era * 146_097;
    let yoe = (doe - doe / 1_460 + doe / 36_524 - doe / 146_096) / 365;
    lemma_year_of_era(doe, yoe);
    let y = yoe + era * 400;
    let doy = doe - (365 * yoe + yoe / 4 - yoe / 100);
    let mp = (5 * doy + 2) / 153;
    lemma_era(z, era, yoe, y, doy);
    lemma_month_of_year(y, doy, mp);
    let d = doy - (153 * mp + 2) / 5 + 1;
    let m = if mp < 10 {
        mp + 3
    } else {
        mp - 9
    };
    let year = if m <= 2 {
        y + 1
    } else {
        y
    };
    lemma_epoch();
    lemma_civil_date_is(days, year, m, d);
}

/// A date comes before another: by year, then month, then day.
pub open spec fn date_before(a: (int, int, int), b: (int, int, int)) -> bool {
    a.0 < b.0 || (a.0 == b.0 && (a.1 < b.1 || (a.1 == b.1 && a.2 < b.2)))
}

/// Dates are in the order of their days.
proof fn lemma_dates_are_ordered(a: (int, int, int), b: (int, int, int))
    requires
        valid_date(a.0, a.1, a.2),
        valid_date(b.0, b.1, b.2),
        unix_day(a.0, a.1, a.2) < unix_day(b.0, b.1, b.2),
    ensures
        date_before(a, b),
{
    lemma_day_in_year(a.0, a.1, a.2);
    lemma_day_in_year(b.0, b.1, b.2);
    if b.0 < a.0 {
        lemma_years_grow(b.0 + 1, a.0);
    }
    if a.0 == b.0 && b.1 < a.1 {
        lemma_months_grow(a.0, b.1, a.1);
    }
}

/// The seconds since the epoch that a timestamp of the form `YYYY-MM-DDTHH:MM:SSZ`
/// stands for.
pub open spec fn stamp_seconds(s: Seq<char>) -> int {
    unix_day(
        text::number(s.subrange(0, 4)) as int,
        text::number(s.subrange(5, 7)) as int,
        text::number(s.subrange(8, 10)) as int,
    ) * 86_400 + text::number(s.subrange(11, 13)) * 3_600 + text::number(s.subrange(14, 16)) * 60
        + text::number(s.subrange(17, 19))
}

/// What stands in the fields of a timestamp.
proof fn lemma_stamp_fields(secs: int)
    requires
        0 <= secs,
        0 <= civil_date(secs / 86_400).0 <= 9_999,
        valid_date(
            civil_date(secs / 86_400).0,
            civil_date(secs / 86_400).1,
            civil_date(secs / 86_400).2,
        ),
    ensures
        ({
            let t = timestamp_text(secs);
            let date = civil_date(secs / 86_400);
            &&& text::number(t.subrange(0, 4)) == date.0
            &&& text::number(t.subrange(5, 7)) == date.1
            &&& text::number(t.subrange(8, 10)) == date.2
            &&& text::number(t.subrange(11, 13)) == secs / 3_600 % 24
            &&& text::number(t.subrange(14, 16)) == secs / 60 % 60
            &&& text::number(t.subrange(17, 19)) == secs % 60
        }),
{
    let date = civil_date(secs / 86_400);
    let (y, m, d) = (date.0 as nat, date.1 as nat, date.2 as nat);
    let h = (secs / 3_600 % 24) as nat;
    let mi = (secs / 60 % 60) as nat;
    let se = (secs % 60) as nat;
    assert(date.0 % 0x1_0000_0000 == date.0);
    lemma_padded_len(y);
    lemma_padded_len(m);
    lemma_padded_len(d);
    lemma_padded_len(h);
    lemma_padded_len(mi);
    lemma_padded_len(se);
    text::lemma_number_of_padded(y, 4);
    text::lemma_number_of_padded(m, 2);
    text::lemma_number_of_padded(d, 2);
    text::lemma_number_of_padded(h, 2);
    text::lemma_number_of_padded(mi, 2);
    text::lemma_number_of_padded(se, 2);
    reveal_strlit("-");
    reveal_strlit("T");
    reveal_strlit(":");
    reveal_strlit("Z");
    let t = timestamp_text(secs);
    assert(t.subrange(0, 4) =~= text::zero_pad(text::dec(y), 4));
    assert(t.subrange(5, 7) =~= text::zero_pad(text::dec(m), 2));
    assert(t.subrange(8, 10) =~= text::zero_pad(text::dec(d), 2));
    assert(t.subrange(11, 13) =~= text::zero_pad(text::dec(h), 2));
    assert(t.subrange(14, 16) =~= text::zero_pad(text::dec(mi), 2));
    assert(t.subrange(17, 19) =~= text::zero_pad(text::dec(se), 2));
}

/// A timestamp reads back to the second that it was made of, for the years of four
/// digits.
pub proof fn law_timestamps_read_back(secs: int)
    requires
        0 <= secs,
        civil_date(secs / 86_400).0 <= 9_999,
    ensures
        stamp_form(timestamp_text(secs)),
        stamp_seconds(timestamp_text(secs)) == secs,
{
    lemma_civil_date(secs / 86_400);
    lemma_stamp_form(secs);
    lemma_stamp_fields(secs);
    lemma_clock_parts(secs);
}

/// What follows the date in a timestamp.
spec fn clock_text(h: nat, mi: nat, se: nat) -> Seq<char> {
    text::zero_pad(text::dec(h), 2) + (":"@ + (text::zero_pad(text::dec(mi), 2) + (":"@ + (
    text::zero_pad(text::dec(se), 2) + "Z"@))))
}

/// Times of day are ordered as their texts are.
proof fn lemma_clock_order(h: nat, mi: nat, se: nat, h2: nat, mi2: nat, se2: nat)
    requires
        h < 24 && mi < 60 && se < 60 && h2 < 24 && mi2 < 60 && se2 < 60,
        h * 3_600 + mi * 60 + se < h2 * 3_600 + mi2 * 60 + se2,
    ensures
        text::before(clock_text(h, mi, se), clock_text(h2, mi2, se2)),
{
    lemma_padded_len(h);
    lemma_padded_len(mi);
    lemma_padded_len(se);
    lemma_padded_len(h2);
    lemma_padded_len(mi2);
    lemma_padded_len(se2);
    let s1 = text::zero_pad(text::dec(se), 2) + "Z"@;
    let s2 = text::zero_pad(text::dec(se2), 2) + "Z"@;
    let m1 = text::zero_pad(text::dec(mi), 2) + (":"@ + s1);
    let m2 = text::zero_pad(text::dec(mi2), 2) + (":"@ + s2);
    if h == h2 {
        if mi == mi2 {
            text::lemma_field_order(se, se2, 2, "Z"@, "Z"@);
            text::lemma_before_same_front(":"@, s1, s2);
        }
        text::lemma_field_order(mi, mi2, 2, ":"@ + s1, ":"@ + s2);
        text::lemma_before_same_front(":"@, m1, m2);
    }
    text::lemma_field_order(h, h2, 2, ":"@ + m1, ":"@ + m2);
}

/// The text of a date and what follows it.
spec fn date_text(y: nat, m: nat, d: nat, rest: Seq<char>) -> Seq<char> {
    text::zero_pad(text::dec(y), 4) + ("-"@ + (text::zero_pad(text::dec(m), 2) + ("-"@ + (
    text::zero_pad(text::dec(d), 2) + ("T"@ + rest)))))
}

/// The time of day of a second, as a text.
spec fn clock_of(secs: int) -> Seq<char> {
    clock_text((secs / 3_600 % 24) as nat, (secs / 60 % 60) as nat, (secs % 60) as nat)
}

/// Texts put one after the other, grouped from the back.
proof fn lemma_regrouped(x: Seq<char>, y: Seq<char>, z: Seq<char>)
    ensures
        (x + y) + z == x + (y + z),
{
    assert((x + y) + z =~= x + (y + z));
}

/// A timestamp is a date and a time of day.
proof fn lemma_timestamp_parts(secs: int)
    requires
        0 <= secs,
        0 <= civil_date(secs / 86_400).0 <= 9_999,
    ensures
        timestamp_text(secs) == date_text(
            civil_date(secs / 86_400).0 as nat,
            civil_date(secs / 86_400).1 as nat,
            civil_date(secs / 86_400).2 as nat,
            clock_of(secs),
        ),
{
    let date = civil_date(secs / 86_400);
    assert(date.0 % 0x1_0000_0000 == date.0);
    let y = text::zero_pad(text::dec(date.0 as nat), 4);
    let m = text::zero_pad(text::dec(date.1 as nat), 2);
    let d = text::zero_pad(text::dec(date.2 as nat), 2);
    let h = text::zero_pad(text::dec((secs / 3_600 % 24) as nat), 2);
    let mi = text::zero_pad(text::dec((secs / 60 % 60) as nat), 2);
    let se = text::zero_pad(text::dec((secs % 60) as nat), 2);
    lemma_twelve(y, "-"@, m, "-"@, d, "T"@, h, ":"@, mi, ":"@, se, "Z"@);
}

/// Twelve texts put one after the other, grouped from the back.
proof fn lemma_twelve(
    a: Seq<char>,
    b: Seq<char>,
    c: Seq<char>,
    d: Seq<char>,
    e: Seq<char>,
    f: Seq<char>,
    g: Seq<char>,
    h: Seq<char>,
    i: Seq<char>,
    j: Seq<char>,
    k: Seq<char>,
    l: Seq<char>,
)
    ensures
        a + b + c + d + e + f + g + h + i + j + k + l == a + (b + (c + (d + (e + (f + (g + (h + (i
            + (j + (k + l)))))))))),
{
    lemma_regrouped(a + b + c + d + e + f + g + h + i + j, k, l);
    lemma_regrouped(a + b + c + d + e + f + g + h + i, j, k + l);
    lemma_regrouped(a + b + c + d + e + f + g + h, i, j + (k + l));
    lemma_regrouped(a + b + c + d + e + f + g, h, i + (j + (k + l)));
    lemma_regrouped(a + b + c + d + e + f, g, h + (i + (j + (k + l))));
    lemma_regrouped(a + b + c + d + e, f, g + (h + (i + (j + (k + l)))));
    lemma_regrouped(a + b + c + d, e, f + (g + (h + (i + (j + (k + l))))));
    lemma_regrouped(a + b + c, d, e + (f + (g + (h + (i + (j + (k + l)))))));
    lemma_regrouped(a + b, c, d + (e + (f + (g + (h + (i + (j + (k + l))))))));
    lemma_regrouped(a, b, c + (d + (e + (f + (g + (h + (i + (j + (k + l)))))))));
}

/// The hours, minutes and seconds of a second make up its place in the day.
proof fn lemma_clock_parts(secs: int)
    requires
        0 <= secs,
    ensures
        (secs / 3_600 % 24) * 3_600 + (secs / 60 % 60) * 60 + secs % 60 == secs % 86_400,
        secs == (secs / 86_400) * 86_400 + secs % 86_400,
{
    assert(secs / 3_600 / 24 == secs / 86_400);
    assert(secs / 60 / 60 == secs / 3_600);
}

/// Dates, and what follows them, are ordered as their texts are.
proof fn lemma_date_order(
    a: (int, int, int),
    b: (int, int, int),
    u: Seq<char>,
    v: Seq<char>,
)
    requires
        valid_date(a.0, a.1, a.2),
        valid_date(b.0, b.1, b.2),
        a.0 <= 9_999 && b.0 <= 9_999,
        date_before(a, b) || (a == b && text::before(u, v)),
    ensures
        text::before(
            date_text(a.0 as nat, a.1 as nat, a.2 as nat, u),
            date_text(b.0 as nat, b.1 as nat, b.2 as nat, v),
        ),
{
    let (y, m, d) = (a.0 as nat, a.1 as nat, a.2 as nat);
    let (y2, m2, d2) = (b.0 as nat, b.1 as nat, b.2 as nat);
    let d1t = text::zero_pad(text::dec(d), 2) + ("T"@ + u);
    let d2t = text::zero_pad(text::dec(d2), 2) + ("T"@ + v);
    let m1t = text::zero_pad(text::dec(m), 2) + ("-"@ + d1t);
    let m2t = text::zero_pad(text::dec(m2), 2) + ("-"@ + d2t);
    lemma_padded_len(y);
    lemma_padded_len(m);
    lemma_padded_len(d);
    lemma_padded_len(y2);
    lemma_padded_len(m2);
    lemma_padded_len(d2);
    if y == y2 {
        if m == m2 {
            text::lemma_before_same_front("T"@, u, v);
            text::lemma_field_order(d, d2, 2, "T"@ + u, "T"@ + v);
            text::lemma_before_same_front("-"@, d1t, d2t);
        }
        text::lemma_field_order(m, m2, 2, "-"@ + d1t, "-"@ + d2t);
        text::lemma_before_same_front("-"@, m1t, m2t);
    }
    text::lemma_field_order(y, y2, 4, "-"@ + m1t, "-"@ + m2t);
}

/// Timestamps are in the order of the instants, for the years of four digits: a
/// later second has a timestamp that comes later as a text.
pub proof fn law_timestamps_are_in_order(a: int, b: int)
    requires
        0 <= a < b,
        civil_date(a / 86_400).0 <= 9_999,
        civil_date(b / 86_400).0 <= 9_999,
    ensures
        text::before(timestamp_text(a), timestamp_text(b)),
{
    lemma_civil_date(a / 86_400);
    lemma_civil_date(b / 86_400);
    lemma_timestamp_parts(a);
    lemma_timestamp_parts(b);
    if a / 86_400 < b / 86_400 {
        lemma_dates_are_ordered(civil_date(a / 86_400), civil_date(b / 86_400));
    } else {
        lemma_clock_parts(a);
        lemma_clock_parts(b);
        lemma_clock_order(
            (a / 3_600 % 24) as nat,
            (a / 60 % 60) as nat,
            (a % 60) as nat,
            (b / 3_600 % 24) as nat,
            (b / 60 % 60) as nat,
            (b % 60) as nat,
        );
    }
    lemma_date_order(
        civil_date(a / 86_400),
        civil_date(b / 86_400),
        clock_of(a),
        clock_of(b),
    );
}

/// The calendar: a year has 366 days if it can be divided by 4 and not by 100, or by
/// 400, and else 365; its months have 31 days, but for the fourth, sixth, ninth and
/// eleventh, which have 30, and the second, which has what is left.
pub proof fn law_the_calendar(y: int, m: int)
    ensures
        year_days(y) == 366 <==> (y % 4 == 0 && y % 100 != 0) || y % 400 == 0,
        year_days(y) == 365 || year_days(y) == 366,
        m == 2 ==> month_days(y, m) == year_days(y) - 337,
        m == 4 || m == 6 || m == 9 || m == 11 ==> month_days(y, m) == 30,
        m != 2 && m != 4 && m != 6 && m != 9 && m != 11 ==> month_days(y, m) == 31,
        days_before_month(y, 13) == year_days(y),
{
    reveal_with_fuel(days_before_month, 14);
    assert(y % 400 == 0 ==> y % 100 == 0 && y % 4 == 0);
}

/// Days follow each other: the day after a date is the next one of its month, or the
/// first of the next month, or the first of the next year.
pub proof fn law_days_follow_each_other(y: int, m: int, d: int)
    requires
        valid_date(y, m, d),
    ensures
        civil_date(unix_day(y, m, d)) == (y, m, d),
        unix_day(1970, 1, 1) == 0,
        civil_date(unix_day(y, m, d) + 1) == (if d < month_days(y, m) {
            (y, m, d + 1)
        } else if m < 12 {
            (y, m + 1, 1int)
        } else {
            (y + 1, 1int, 1int)
        }),
{
    lemma_civil_date_is(unix_day(y, m, d), y, m, d);
    reveal_with_fuel(days_before_month, 14);
    let next = unix_day(y, m, d) + 1;
    if d < month_days(y, m) {
        lemma_civil_date_is(next, y, m, d + 1);
    } else if m < 12 {
        lemma_civil_date_is(next, y, m + 1, 1);
    } else {
        lemma_civil_date_is(next, y + 1, 1, 1);
    }
}

/// A written timestamp is read back as the second that it was made of, and the epoch
/// where that lies before it.
pub proof fn law_written_timestamps_read_back(t: UnixTime, r: String)
    requires
        call_ensures(format_rfc3339, (t,), r),
        t.secs >= 0 ==> civil_date(t.secs as int / 86_400).0 <= 9_999,
    ensures
        stamp_form(r@),
        t.secs >= 0 ==> stamp_seconds(r@) == t.secs,
        t.secs < 0 ==> stamp_seconds(r@) == 0,
{
    if t.secs >= 0 {
        law_timestamps_read_back(t.secs as int);
    } else {
        lemma_civil_date_is(0, 1970, 1, 1);
        law_timestamps_read_back(0);
    }
}

/// Going forward and looking back are each other's undoing: the time between an
/// instant and the one that lies a span later is that span, as long as there is such
/// an instant.
pub proof fn law_what_goes_by_is_measured(
    a: UnixTime,
    d: Duration,
    b: UnixTime,
    e: Duration,
)
    requires
        a.wf(),
        d.wf(),
        call_ensures(UnixTime::plus, (a, d), b),
        call_ensures(UnixTime::since, (b, a), e),
        a.secs + d.secs < i64::MAX,
    ensures
        e.secs == d.secs,
        e.nanos == d.nanos,
{
}

/// What moving a clock forward by two spans does: the same as moving it by both at
/// once; and how far it moves by itself stays as it was.
pub proof fn law_a_clock_moves_as_far_as_it_is_told(
    a: FakeClock,
    d: Duration,
    b: FakeClock,
    e: Duration,
    c: FakeClock,
)
    requires
        a.moves(d, b),
        b.moves(e, c),
    ensures
        c.current().total() - a.current().total() == d.total() + e.total(),
        c.step() == a.step(),
{
}

} // verus!
