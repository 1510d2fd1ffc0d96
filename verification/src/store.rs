//! What the event log of a run is made of: each event gets the next number of
//! its run and is stored under the name of its kind. Beside the log stands the
//! latest snapshot of each run. The database itself is outside this crate.
use vstd::prelude::*;

use crate::run_record::{Event, RunRecord};
use crate::text::concat;

verus! {

/// What can go wrong with a store.
#[derive(Debug, Clone, PartialEq, Eq)]
pub enum StoreError {
    /// The database says so.
    Sql(String),
    /// Something could not be turned into JSON, or back.
    Serialization(String),
    /// The task that did the work did not come back.
    Join(String),
    /// An earlier user of the connection panicked.
    LockPoisoned,
}

impl StoreError {
    /// What the error says.
    pub open spec fn says(self) -> Seq<char> {
        match self {
            StoreError::Sql(e) => "sql error: "@ + e@,
            StoreError::Serialization(e) => "serialization error: "@ + e@,
            StoreError::Join(e) => "background task error: "@ + e@,
            StoreError::LockPoisoned => "internal connection mutex was poisoned"@,
        }
    }

    /// The error as a message.
    pub fn message(&self) -> (r: String)
        ensures
            r@ == self.says(),
    {
        match self {
            StoreError::Sql(e) => concat("sql error: ", e.as_str()),
            StoreError::Serialization(e) => concat("serialization error: ", e.as_str()),
            StoreError::Join(e) => concat("background task error: ", e.as_str()),
            StoreError::LockPoisoned => "internal connection mutex was poisoned".to_owned(),
        }
    }
}

/// The name of an event's kind.
pub open spec fn kind(event: Event) -> Seq<char> {
    match event {
        Event::ModelCall { .. } => "ModelCall"@,
        Event::ToolCallStarted { .. } => "ToolCallStarted"@,
        Event::ToolCallResult { .. } => "ToolCallResult"@,
        Event::PhaseTransition { .. } => "PhaseTransition"@,
        Event::BudgetTick { .. } => "BudgetTick"@,
        Event::DispositionSet { .. } => "DispositionSet"@,
    }
}

/// The name that an event is stored under.
pub fn event_kind(event: &Event) -> (r: &'static str)
    ensures
        r@ == kind(*event),
{
    match event {
        Event::ModelCall { .. } => "ModelCall",
        Event::ToolCallStarted { .. } => "ToolCallStarted",
        Event::ToolCallResult { .. } => "ToolCallResult",
        Event::PhaseTransition { .. } => "PhaseTransition",
        Event::BudgetTick { .. } => "BudgetTick",
        Event::DispositionSet { .. } => "DispositionSet",
    }
}

/// An event's number.
pub open spec fn seq_of(event: Event) -> u64 {
    match event {
        Event::ModelCall { seq, .. } => seq,
        Event::ToolCallStarted { seq, .. } => seq,
        Event::ToolCallResult { seq, .. } => seq,
        Event::PhaseTransition { seq, .. } => seq,
        Event::BudgetTick { seq, .. } => seq,
        Event::DispositionSet { seq, .. } => seq,
    }
}

/// The event with another number, and nothing else changed.
pub open spec fn numbered(event: Event, seq: u64) -> Event {
    match event {
        Event::ModelCall { model, prompt_tokens, completion_tokens, .. } => Event::ModelCall {
            seq,
            model,
            prompt_tokens,
            completion_tokens,
        },
        Event::ToolCallStarted { name, args, call_id, .. } => Event::ToolCallStarted {
            seq,
            name,
            args,
            call_id,
        },
        Event::ToolCallResult { name, is_error, summary, offload_path, .. } =>
            Event::ToolCallResult { seq, name, is_error, summary, offload_path },
        Event::PhaseTransition { from, to, .. } => Event::PhaseTransition { seq, from, to },
        Event::BudgetTick { consumed, .. } => Event::BudgetTick { seq, consumed },
        Event::DispositionSet { disposition, .. } => Event::DispositionSet { seq, disposition },
    }
}

/// The event with the number that the store gives it, whatever number it had.
pub fn with_seq(event: Event, seq: u64) -> (r: Event)
    ensures
        r == numbered(event, seq),
{
    match event {
        Event::ModelCall { model, prompt_tokens, completion_tokens, .. } => Event::ModelCall {
            seq,
            model,
            prompt_tokens,
            completion_tokens,
        },
        Event::ToolCallStarted { name, args, call_id, .. } => Event::ToolCallStarted {
            seq,
            name,
            args,
            call_id,
        },
        Event::ToolCallResult { name, is_error, summary, offload_path, .. } =>
            Event::ToolCallResult { seq, name, is_error, summary, offload_path },
        Event::PhaseTransition { from, to, .. } => Event::PhaseTransition { seq, from, to },
        Event::BudgetTick { consumed, .. } => Event::BudgetTick { seq, consumed },
        Event::DispositionSet { disposition, .. } => Event::DispositionSet { seq, disposition },
    }
}

/// The number that follows the largest one of a run: one more, and zero for a run
/// without events.
pub open spec fn next_number(largest: Option<int>) -> int {
    match largest {
        Some(n) => n + 1,
        None => 0,
    }
}

/// An event that is ready to be stored.
#[derive(Debug)]
pub struct Stamped {
    pub seq: u64,
    pub kind: &'static str,
    pub event: Event,
}

/// The event with the next number of its run, given the largest number that is
/// stored for the run. The database holds its numbers as signed ones; there is
/// room for one more, and none below the first is stored.
pub fn stamp(event: Event, largest: Option<i64>) -> (r: Stamped)
    requires
        largest matches Some(n) ==> -1 <= n < i64::MAX,
    ensures
        r.seq == next_number(
            match largest {
                Some(n) => Some(n as int),
                None => None,
            },
        ),
        r.event == numbered(event, r.seq),
        r.kind@ == kind(event),
{
    let seq: u64 = match largest {
        Some(n) => (n + 1) as u64,
        None => 0,
    };
    let kind = event_kind(&event);
    Stamped { seq, kind, event: with_seq(event, seq) }
}

// ---------------------------------------------------------------------------
// Laws
// ---------------------------------------------------------------------------

/// The store has the last word on an event's number: whatever number it had, and
/// however often it was numbered before, it has the last one it was given, and
/// its kind stays the same.
pub proof fn law_the_store_numbers_events(event: Event, a: u64, b: u64)
    ensures
        seq_of(numbered(event, a)) == a,
        numbered(numbered(event, a), b) == numbered(event, b),
        numbered(event, seq_of(event)) == event,
        kind(numbered(event, a)) == kind(event),
{
}

/// The largest number of a run in a log, whose rows are the run and the number
/// of each event.
pub open spec fn largest(log: Seq<(Seq<char>, int)>, run: Seq<char>) -> Option<int>
    decreases log.len(),
{
    if log.len() == 0 {
        None
    } else {
        let before = largest(log.drop_last(), run);
        if log.last().0 != run {
            before
        } else {
            match before {
                Some(n) => Some(
                    if log.last().1 > n {
                        log.last().1
                    } else {
                        n
                    },
                ),
                None => Some(log.last().1),
            }
        }
    }
}

/// The log with one more event of the run, under the next number.
pub open spec fn appended(log: Seq<(Seq<char>, int)>, run: Seq<char>) -> Seq<(Seq<char>, int)> {
    log.push((run, next_number(largest(log, run))))
}

/// No number of the run in the log is above the largest.
proof fn lemma_largest(log: Seq<(Seq<char>, int)>, run: Seq<char>, i: int)
    requires
        0 <= i < log.len(),
        log[i].0 == run,
    ensures
        largest(log, run) matches Some(n) && log[i].1 <= n,
    decreases log.len(),
{
    if i < log.len() - 1 {
        lemma_largest(log.drop_last(), run, i);
    }
}

/// Numbers only go up: the number that an event gets is above all that its run
/// has, so that none is given twice; and other runs are not touched.
pub proof fn law_numbers_go_up(log: Seq<(Seq<char>, int)>, run: Seq<char>, other: Seq<char>, i: int)
    requires
        0 <= i < log.len(),
        log[i].0 == run,
    ensures
        log[i].1 < appended(log, run).last().1,
        other != run ==> largest(appended(log, run), other) == largest(log, other),
{
    lemma_largest(log, run, i);
    assert(appended(log, run).drop_last() =~= log);
}

/// Appending `k` events of a run.
pub open spec fn appended_times(log: Seq<(Seq<char>, int)>, run: Seq<char>, k: nat) -> Seq<
    (Seq<char>, int),
>
    decreases k,
{
    if k == 0 {
        log
    } else {
        appended(appended_times(log, run, (k - 1) as nat), run)
    }
}

/// Numbers count up from zero, each run by itself: in a run without events, the
/// events that are appended get zero, one, two and so on, whatever the log holds
/// for other runs.
pub proof fn law_numbers_count_from_zero(log: Seq<(Seq<char>, int)>, run: Seq<char>, k: nat)
    requires
        largest(log, run) is None,
    ensures
        next_number(largest(appended_times(log, run, k), run)) == k,
        k > 0 ==> appended_times(log, run, k).last() == (run, k - 1),
    decreases k,
{
    if k > 0 {
        let before = appended_times(log, run, (k - 1) as nat);
        law_numbers_count_from_zero(log, run, (k - 1) as nat);
        assert(appended(before, run).drop_last() =~= before);
    }
}

/// The runs and numbers of the rows of a log, whose rows are the run and the event
/// of each.
pub open spec fn numbers(rows: Seq<(Seq<char>, Event)>) -> Seq<(Seq<char>, int)> {
    Seq::new(rows.len(), |i: int| (rows[i].0, seq_of(rows[i].1) as int))
}

/// The rows with one more event of the run, under the next number.
pub open spec fn with_row(
    rows: Seq<(Seq<char>, Event)>,
    run: Seq<char>,
    event: Event,
) -> Seq<(Seq<char>, Event)> {
    rows.push((run, numbered(event, next_number(largest(numbers(rows), run)) as u64)))
}

/// The rows of a log to which these events were appended, one after the other,
/// whatever numbers they had.
pub open spec fn rows_of(appends: Seq<(Seq<char>, Event)>) -> Seq<(Seq<char>, Event)>
    decreases appends.len(),
{
    if appends.len() == 0 {
        Seq::empty()
    } else {
        with_row(rows_of(appends.drop_last()), appends.last().0, appends.last().1)
    }
}

/// The events of a run, in the order of the rows.
pub open spec fn of_run(rows: Seq<(Seq<char>, Event)>, run: Seq<char>) -> Seq<Event>
    decreases rows.len(),
{
    if rows.len() == 0 {
        Seq::empty()
    } else if rows.last().0 == run {
        of_run(rows.drop_last(), run).push(rows.last().1)
    } else {
        of_run(rows.drop_last(), run)
    }
}

/// What the largest number of a run is, and what its events are.
proof fn lemma_rows(appends: Seq<(Seq<char>, Event)>, run: Seq<char>)
    requires
        appends.len() <= u64::MAX,
    ensures
        of_run(rows_of(appends), run).len() == of_run(appends, run).len() <= appends.len(),
        largest(numbers(rows_of(appends)), run) == (if of_run(appends, run).len() == 0 {
            None
        } else {
            Some(of_run(appends, run).len() - 1)
        }),
        forall|i: int|
            0 <= i < of_run(appends, run).len() ==> #[trigger] of_run(rows_of(appends), run)[i]
                == numbered(of_run(appends, run)[i], i as u64),
    decreases appends.len(),
{
    if appends.len() == 0 {
        assert(numbers(rows_of(appends)) =~= Seq::empty());
    } else {
        let front = appends.drop_last();
        let (to, event) = appends.last();
        let rows = rows_of(front);
        lemma_rows(front, run);
        lemma_rows(front, to);
        let all = with_row(rows, to, event);
        let n = next_number(largest(numbers(rows), to));
        assert(n == of_run(front, to).len());
        law_the_store_numbers_events(event, n as u64, n as u64);
        assert(all.drop_last() =~= rows);
        assert(numbers(all).drop_last() =~= numbers(rows));
        assert(numbers(all).last() == (to, n));
    }
}

/// Reading a run back gives its events in the order in which they were appended,
/// numbered from zero, whatever numbers they had and whatever was appended to other
/// runs in between; and the next event of the run gets the number that follows.
/// The numbers go up, so that reading in the order of the numbers is the same.
pub proof fn law_a_run_reads_back(appends: Seq<(Seq<char>, Event)>, run: Seq<char>, i: int)
    requires
        appends.len() <= u64::MAX,
    ensures
        of_run(rows_of(appends), run).len() == of_run(appends, run).len(),
        0 <= i < of_run(appends, run).len() ==> of_run(rows_of(appends), run)[i] == numbered(
            of_run(appends, run)[i],
            i as u64,
        ) && seq_of(of_run(rows_of(appends), run)[i]) == i,
        next_number(largest(numbers(rows_of(appends)), run)) == of_run(appends, run).len(),
{
    lemma_rows(appends, run);
    if 0 <= i < of_run(appends, run).len() {
        law_the_store_numbers_events(of_run(appends, run)[i], i as u64, i as u64);
    }
}

/// Appending to one run leaves what is read of every other as it was, and adds the
/// event at the end of its own.
pub proof fn law_other_runs_are_not_touched(
    rows: Seq<(Seq<char>, Event)>,
    run: Seq<char>,
    event: Event,
    other: Seq<char>,
)
    ensures
        other != run ==> of_run(with_row(rows, run, event), other) == of_run(rows, other),
        of_run(with_row(rows, run, event), run) == of_run(rows, run).push(
            numbered(event, next_number(largest(numbers(rows), run)) as u64),
        ),
{
    assert(with_row(rows, run, event).drop_last() =~= rows);
}

/// What a store holds: the log, and the latest snapshot of each run that has one.
#[verifier::ext_equal]
pub struct StoreV {
    pub rows: Seq<(Seq<char>, Event)>,
    pub snapshots: Map<Seq<char>, RunRecord>,
}

/// What is done to a store.
pub enum StoreOp {
    /// Appends an event to the log of the run.
    Append(Seq<char>, Event),
    /// Replaces the snapshot of the run.
    Checkpoint(Seq<char>, RunRecord),
}

impl StoreV {
    /// A store that holds nothing.
    pub open spec fn empty() -> StoreV {
        StoreV { rows: Seq::empty(), snapshots: Map::empty() }
    }

    /// The number that the next event of the run gets.
    pub open spec fn next_seq(self, run: Seq<char>) -> int {
        next_number(largest(numbers(self.rows), run))
    }

    /// The store with one more event of the run in its log.
    pub open spec fn append_event(self, run: Seq<char>, event: Event) -> StoreV {
        StoreV { rows: with_row(self.rows, run, event), snapshots: self.snapshots }
    }

    /// The store with another snapshot of the run.
    pub open spec fn checkpoint(self, run: Seq<char>, record: RunRecord) -> StoreV {
        StoreV { rows: self.rows, snapshots: self.snapshots.insert(run, record) }
    }

    /// The latest snapshot of the run, if it has one.
    pub open spec fn load(self, run: Seq<char>) -> Option<RunRecord> {
        if self.snapshots.dom().contains(run) {
            Some(self.snapshots[run])
        } else {
            None
        }
    }

    /// The events of the run, in the order of their numbers.
    pub open spec fn list_events(self, run: Seq<char>) -> Seq<Event> {
        of_run(self.rows, run)
    }

    /// The store after one more operation.
    pub open spec fn after(self, op: StoreOp) -> StoreV {
        match op {
            StoreOp::Append(run, event) => self.append_event(run, event),
            StoreOp::Checkpoint(run, record) => self.checkpoint(run, record),
        }
    }
}

/// What a new store holds after these operations, one after the other.
pub open spec fn store_of(ops: Seq<StoreOp>) -> StoreV
    decreases ops.len(),
{
    if ops.len() == 0 {
        StoreV::empty()
    } else {
        store_of(ops.drop_last()).after(ops.last())
    }
}

/// The events that the operations append, with the run of each.
pub open spec fn appends_of(ops: Seq<StoreOp>) -> Seq<(Seq<char>, Event)>
    decreases ops.len(),
{
    if ops.len() == 0 {
        Seq::empty()
    } else {
        match ops.last() {
            StoreOp::Append(run, event) => appends_of(ops.drop_last()).push((run, event)),
            StoreOp::Checkpoint(_, _) => appends_of(ops.drop_last()),
        }
    }
}

/// The record that the last checkpoint of the run among the operations held, if
/// there is one.
pub open spec fn last_checkpoint(ops: Seq<StoreOp>, run: Seq<char>) -> Option<RunRecord>
    decreases ops.len(),
{
    if ops.len() == 0 {
        None
    } else {
        match ops.last() {
            StoreOp::Checkpoint(to, record) => if to == run {
                Some(record)
            } else {
                last_checkpoint(ops.drop_last(), run)
            },
            StoreOp::Append(_, _) => last_checkpoint(ops.drop_last(), run),
        }
    }
}

/// The log of a store is that of the events that were appended, and its snapshots
/// are those of the last checkpoints.
proof fn lemma_store_of(ops: Seq<StoreOp>, run: Seq<char>)
    ensures
        store_of(ops).rows == rows_of(appends_of(ops)),
        appends_of(ops).len() <= ops.len(),
        store_of(ops).load(run) == last_checkpoint(ops, run),
    decreases ops.len(),
{
    if ops.len() > 0 {
        lemma_store_of(ops.drop_last(), run);
        let before = appends_of(ops.drop_last());
        if let StoreOp::Append(to, event) = ops.last() {
            assert(before.push((to, event)).drop_last() =~= before);
        }
    }
}

/// The log and the snapshots are kept apart. Appending an event leaves the snapshot
/// of every run as it was, that of its own run too. A checkpoint replaces the
/// snapshot of its own run and no other, and leaves the log as it was.
pub proof fn law_the_log_and_the_snapshots_are_kept_apart(
    store: StoreV,
    run: Seq<char>,
    event: Event,
    record: RunRecord,
    other: Seq<char>,
)
    ensures
        store.append_event(run, event).snapshots == store.snapshots,
        store.append_event(run, event).load(other) == store.load(other),
        store.checkpoint(run, record).load(run) == Some(record),
        other != run ==> store.checkpoint(run, record).load(other) == store.load(other),
        store.checkpoint(run, record).rows == store.rows,
        store.checkpoint(run, record).list_events(other) == store.list_events(other),
        store.checkpoint(run, record).next_seq(other) == store.next_seq(other),
{
}

/// What is read back of a store, whatever was done to it before: of each run the
/// events that were appended to it, in their order and numbered from zero, and the
/// record of its last checkpoint.
pub proof fn law_a_store_reads_back(ops: Seq<StoreOp>, run: Seq<char>, i: int)
    requires
        ops.len() <= u64::MAX,
    ensures
        store_of(ops).list_events(run).len() == of_run(appends_of(ops), run).len(),
        0 <= i < of_run(appends_of(ops), run).len() ==> store_of(ops).list_events(run)[i]
            == numbered(of_run(appends_of(ops), run)[i], i as u64) && seq_of(
            store_of(ops).list_events(run)[i],
        ) == i,
        store_of(ops).load(run) == last_checkpoint(ops, run),
{
    lemma_store_of(ops, run);
    law_a_run_reads_back(appends_of(ops), run, i);
}

/// An event gets the number of events that its run had before, whatever number it
/// came with, and stands under it behind those; the events of the other runs and
/// the snapshots of all runs stay as they were.
pub proof fn law_an_append_gets_the_next_number(
    ops: Seq<StoreOp>,
    run: Seq<char>,
    event: Event,
    other: Seq<char>,
)
    requires
        ops.len() < u64::MAX,
    ensures
        ({
            let before = store_of(ops);
            let after = store_of(ops.push(StoreOp::Append(run, event)));
            let k = of_run(appends_of(ops), run).len();
            &&& before.next_seq(run) == k
            &&& before.list_events(run).len() == k
            &&& after.list_events(run) == before.list_events(run).push(numbered(event, k as u64))
            &&& other != run ==> after.list_events(other) == before.list_events(other)
            &&& after.load(other) == before.load(other)
            &&& after.load(run) == before.load(run)
        }),
{
    let before = store_of(ops);
    lemma_store_of(ops, run);
    law_a_run_reads_back(appends_of(ops), run, 0);
    law_other_runs_are_not_touched(before.rows, run, event, other);
    assert(ops.push(StoreOp::Append(run, event)).drop_last() =~= ops);
}

/// What the store makes of an event: the same event under the number behind the
/// largest of its run, or under zero, and the number and the kind beside it. Nothing
/// else of the event changes.
pub proof fn law_an_event_keeps_all_but_its_number(event: Event, largest: Option<i64>, r: Stamped)
    requires
        largest matches Some(n) ==> -1 <= n < i64::MAX,
        call_ensures(stamp, (event, largest), r),
    ensures
        largest is None ==> r.seq == 0,
        largest matches Some(n) ==> r.seq == n + 1,
        seq_of(r.event) == r.seq,
        numbered(r.event, seq_of(event)) == event,
        r.kind@ == kind(r.event),
{
}

} // verus!
