//! The outer loop: one pass of the inner loop after another, each with a fresh
//! context, until a stop command says that the objective is met or a limit is
//! hit.
//!
//! A pass that finishes with `done` and changed the work tree is committed. A
//! pass that left changes behind without such a finish, or whose commit was
//! refused, is put back to the last commit. What carries over from pass to
//! pass is on disk: the work tree, its history, and a notes file.
//!
//! [`RalphLoop`] decides; its caller runs the commands, the inner loop and the
//! clock that it asks for, and hands back what came of them.
use vstd::prelude::*;

use crate::engine;
use crate::engine::{LoopOutcome, RunStats};
use crate::exec::{CheckCommand, ChecksRunner, ExecOutcome, ExecSpec};
use crate::path::FilePath;
use crate::prompt;
use crate::prompt::render_ralph_prompt;
use crate::run_record::Disposition;
use crate::text;
use crate::text::{concat, copy_strings, dec_i32, dec_u64, trimmed};
use crate::time::{Duration, SystemClock, UnixTime};

verus! {

/// How many passes in a row may bring no progress, unless configured.
pub const DEFAULT_STUCK_K: u32 = 3;

/// How many do-overs in a row are tolerated, unless configured.
pub const DEFAULT_MAX_DO_OVERS: u32 = 3;

/// How many seconds the stop command may take, unless configured.
pub const DEFAULT_STOP_COMMAND_TIMEOUT_SECS: u64 = 300;

/// How many seconds a git command may take.
pub const GIT_TIMEOUT_SECS: u64 = 60;

/// What an outer loop works toward, and its limits.
#[derive(Debug, Clone)]
pub struct RalphConfig<C = SystemClock> {
    /// Goes into every prompt and every commit message as it is.
    pub objective: String,
    /// Exits with 0 once the objective is met.
    pub stop_command: CheckCommand,
    pub stop_command_timeout: Duration,
    /// The notes file, relative to the workspace root.
    pub notes_file: String,
    pub max_outer_iterations: u32,
    /// This many passes in a row without progress outside the notes file end
    /// the loop.
    pub stuck_k: u32,
    /// This many do-overs in a row end the loop.
    pub max_do_overs: u32,
    /// How long the whole loop may take; 0 is without limit.
    pub wall_clock_secs: u64,
    pub clock: C,
    pub inner_max_iterations: u32,
    /// The checks of the inner loop, which are not the stop command.
    pub inner_checks: Option<ChecksRunner>,
}

impl RalphConfig<SystemClock> {
    /// A configuration with the default limits.
    #[must_use]
    pub fn new(
        objective: String,
        stop_command: CheckCommand,
        max_outer_iterations: u32,
        inner_max_iterations: u32,
    ) -> (r: Self)
        ensures
            r.objective == objective,
            r.stop_command == stop_command,
            r.stop_command_timeout.total() == 300_000_000_000,
            r.stop_command_timeout.wf(),
            r.notes_file@ == "PROGRESS.md"@,
            r.max_outer_iterations == max_outer_iterations,
            r.stuck_k == DEFAULT_STUCK_K,
            r.max_do_overs == DEFAULT_MAX_DO_OVERS,
            r.wall_clock_secs == 0,
            r.inner_max_iterations == inner_max_iterations,
            r.inner_checks is None,
    {
        RalphConfig {
            objective,
            stop_command,
            stop_command_timeout: Duration::from_secs(DEFAULT_STOP_COMMAND_TIMEOUT_SECS),
            notes_file: "PROGRESS.md".to_owned(),
            max_outer_iterations,
            stuck_k: DEFAULT_STUCK_K,
            max_do_overs: DEFAULT_MAX_DO_OVERS,
            wall_clock_secs: 0,
            clock: SystemClock,
            inner_max_iterations,
            inner_checks: None,
        }
    }
}

impl<C> RalphConfig<C> {
    /// The same, with another limit on passes without progress.
    #[must_use]
    pub fn with_stuck_k(self, stuck_k: u32) -> (r: Self)
        ensures
            r == (RalphConfig { stuck_k, ..self }),
    {
        RalphConfig { stuck_k, ..self }
    }

    /// The same, with another limit on do-overs.
    #[must_use]
    pub fn with_max_do_overs(self, max_do_overs: u32) -> (r: Self)
        ensures
            r == (RalphConfig { max_do_overs, ..self }),
    {
        RalphConfig { max_do_overs, ..self }
    }

    /// The same, with another timeout for the stop command.
    #[must_use]
    pub fn with_stop_command_timeout(self, timeout: Duration) -> (r: Self)
        ensures
            r == (RalphConfig { stop_command_timeout: timeout, ..self }),
    {
        RalphConfig { stop_command_timeout: timeout, ..self }
    }

    /// The same, with another notes file.
    #[must_use]
    pub fn with_notes_file(self, notes_file: String) -> (r: Self)
        ensures
            r == (RalphConfig { notes_file, ..self }),
    {
        RalphConfig { notes_file, ..self }
    }

    /// The same, with another limit on the whole loop's time.
    #[must_use]
    pub fn with_wall_clock_secs(self, secs: u64) -> (r: Self)
        ensures
            r == (RalphConfig { wall_clock_secs: secs, ..self }),
    {
        RalphConfig { wall_clock_secs: secs, ..self }
    }

    /// The same, with another clock.
    #[must_use]
    pub fn with_clock<D>(self, clock: D) -> (r: RalphConfig<D>)
        ensures
            r.clock == clock,
            r.objective == self.objective,
            r.stop_command == self.stop_command,
            r.stop_command_timeout == self.stop_command_timeout,
            r.notes_file == self.notes_file,
            r.max_outer_iterations == self.max_outer_iterations,
            r.stuck_k == self.stuck_k,
            r.max_do_overs == self.max_do_overs,
            r.wall_clock_secs == self.wall_clock_secs,
            r.inner_max_iterations == self.inner_max_iterations,
            r.inner_checks == self.inner_checks,
    {
        RalphConfig {
            objective: self.objective,
            stop_command: self.stop_command,
            stop_command_timeout: self.stop_command_timeout,
            notes_file: self.notes_file,
            max_outer_iterations: self.max_outer_iterations,
            stuck_k: self.stuck_k,
            max_do_overs: self.max_do_overs,
            wall_clock_secs: self.wall_clock_secs,
            clock,
            inner_max_iterations: self.inner_max_iterations,
            inner_checks: self.inner_checks,
        }
    }

    /// The same, with checks for the inner loop.
    #[must_use]
    pub fn with_inner_checks(self, checks: ChecksRunner) -> (r: Self)
        ensures
            r == (RalphConfig { inner_checks: Some(checks), ..self }),
    {
        RalphConfig { inner_checks: Some(checks), ..self }
    }
}

/// Why an outer loop ended.
#[derive(Debug, Clone, PartialEq, Eq)]
pub enum RalphTerminal {
    /// The stop command exited with 0.
    StopConditionMet,
    /// As many passes as allowed were made.
    MaxIterationsExhausted,
    /// As many passes as allowed in a row brought no progress.
    Stuck,
    /// The loop took as long as allowed.
    TimeBudgetExhausted,
    /// As many do-overs as allowed came in a row.
    DoOversExhausted,
    /// A command that the harness itself needs failed; the text says which.
    /// The pass it failed in is not recorded.
    Error(String),
}

impl RalphTerminal {
    /// The exit code of a process that ends with this: 0 for an objective that
    /// is met, 1 for an error, 20 for a limit that was hit.
    pub open spec fn code(self) -> int {
        match self {
            RalphTerminal::StopConditionMet => 0,
            RalphTerminal::Error(_) => 1,
            _ => 20,
        }
    }

    /// The exit code of a process that ends with this.
    pub fn exit_code(&self) -> (r: i32)
        ensures
            r == self.code(),
    {
        match self {
            RalphTerminal::StopConditionMet => 0,
            RalphTerminal::Error(_) => 1,
            _ => 20,
        }
    }
}

/// One pass, as recorded.
#[derive(Debug)]
pub struct RalphIterationOutcome {
    /// Which pass, from 0.
    pub iteration: u32,
    pub inner_outcome: LoopOutcome,
    pub inner_stats: RunStats,
    /// Whether the work tree differed from the last commit, notes included.
    pub made_changes: bool,
    /// Whether the work tree did not differ from it outside the notes file.
    pub progress_empty: bool,
    pub committed: bool,
}

/// What an outer loop came to.
#[derive(Debug)]
pub struct RalphReport {
    pub objective: String,
    pub terminal: RalphTerminal,
    pub iterations: Vec<RalphIterationOutcome>,
}

/// The iterations that the inner loops of the recorded passes took, together.
pub open spec fn inner_total(passes: Seq<RalphIterationOutcome>) -> int
    decreases passes.len(),
{
    if passes.len() == 0 {
        0
    } else {
        inner_total(passes.drop_last()) + passes.last().inner_stats.iterations
    }
}

proof fn lemma_inner_total_grows(passes: Seq<RalphIterationOutcome>, k: int)
    requires
        0 <= k <= passes.len(),
    ensures
        0 <= inner_total(passes.take(k)) <= inner_total(passes),
    decreases passes.len(),
{
    if passes.len() == 0 {
        assert(passes.take(k) =~= passes);
    } else if k == passes.len() {
        assert(passes.take(k) =~= passes);
        lemma_inner_total_grows(passes.drop_last(), k - 1);
    } else {
        lemma_inner_total_grows(passes.drop_last(), k);
        assert(passes.drop_last().take(k) =~= passes.take(k));
    }
}

impl RalphReport {
    /// How many passes were recorded, modulo 2^32.
    #[must_use]
    pub fn outer_iterations(&self) -> (r: u32)
        ensures
            r == self.iterations@.len() % 0x1_0000_0000,
    {
        let n: u64 = self.iterations.len() as u64;
        proof {
            assert(n as u32 == n % 0x1_0000_0000) by (bit_vector);
        }
        n as u32
    }

    /// How many iterations the inner loops took, together.
    #[must_use]
    pub fn total_inner_iterations(&self) -> (r: u64)
        requires
            inner_total(self.iterations@) <= u64::MAX,
        ensures
            r == inner_total(self.iterations@),
    {
        let mut total: u64 = 0;
        let mut i: usize = 0;
        while i < self.iterations.len()
            invariant
                i <= self.iterations@.len(),
                inner_total(self.iterations@) <= u64::MAX,
                total == inner_total(self.iterations@.take(i as int)),
            decreases self.iterations@.len() - i,
        {
            proof {
                assert(self.iterations@.take(i + 1).drop_last() =~= self.iterations@.take(
                    i as int,
                ));
                lemma_inner_total_grows(self.iterations@, i + 1);
            }
            total = total + self.iterations[i].inner_stats.iterations as u64;
            i = i + 1;
        }
        proof {
            assert(self.iterations@.take(i as int) =~= self.iterations@);
        }
        total
    }
}

// ---------------------------------------------------------------------------
// The rules of a pass
// ---------------------------------------------------------------------------

/// What is known of the pass under way.
#[derive(Debug)]
pub struct Pass {
    pub outcome: LoopOutcome,
    pub stats: RunStats,
    /// The work tree differs from the last commit.
    pub made_changes: bool,
    /// It does not differ outside the notes file.
    pub progress_empty: bool,
    pub committed: bool,
    pub commit_failed: bool,
}

/// A pass is committed if it finished with `done` and changed the work tree.
pub open spec fn wants_commit(p: Pass) -> bool {
    engine::green(p.outcome) && p.made_changes
}

/// A pass is put back if it left changes behind that are not committed.
pub open spec fn wants_revert(p: Pass) -> bool {
    p.made_changes && (!engine::green(p.outcome) || p.commit_failed)
}

/// A do-over: the pass left changes behind that are not committed, and so was
/// put back. A backend error is not counted.
pub open spec fn is_do_over(p: Pass) -> bool {
    if engine::green(p.outcome) {
        p.commit_failed
    } else {
        !(p.outcome is BackendError) && p.made_changes
    }
}

/// The do-overs in a row, after a pass: a commit starts the count anew.
pub open spec fn do_overs_after(count: int, p: Pass) -> int {
    if engine::green(p.outcome) && p.committed {
        0
    } else if is_do_over(p) {
        count + 1
    } else {
        count
    }
}

/// The passes without progress in a row, after a pass. Only a finish with
/// `done` whose commit was not refused moves this count.
pub open spec fn stuck_after(count: int, p: Pass) -> int {
    if engine::green(p.outcome) && (p.committed || !p.made_changes) {
        if p.progress_empty {
            count + 1
        } else {
            0
        }
    } else {
        count
    }
}

/// The record of a pass.
pub open spec fn record_of(iteration: u32, p: Pass) -> RalphIterationOutcome {
    RalphIterationOutcome {
        iteration,
        inner_outcome: p.outcome,
        inner_stats: p.stats,
        made_changes: p.made_changes,
        progress_empty: p.progress_empty,
        committed: p.committed,
    }
}

/// How many do-overs in a row the recorded passes end with. A commit ends the
/// row; a pass that is neither a commit nor a do-over does not count.
pub open spec fn trailing_do_overs(passes: Seq<RalphIterationOutcome>) -> nat
    decreases passes.len(),
{
    if passes.len() == 0 {
        0
    } else {
        let last = passes.last();
        let before = trailing_do_overs(passes.drop_last());
        if engine::green(last.inner_outcome) {
            if last.committed {
                0
            } else if last.made_changes {
                before + 1
            } else {
                before
            }
        } else if last.inner_outcome is BackendError || !last.made_changes {
            before
        } else {
            before + 1
        }
    }
}

/// How many passes without progress in a row the recorded passes end with. A pass
/// with progress ends the row; one that did not finish with `done`, or whose
/// commit was refused, does not count.
pub open spec fn trailing_quiet(passes: Seq<RalphIterationOutcome>) -> nat
    decreases passes.len(),
{
    if passes.len() == 0 {
        0
    } else {
        let last = passes.last();
        let before = trailing_quiet(passes.drop_last());
        if engine::green(last.inner_outcome) && (last.committed || !last.made_changes) {
            if last.progress_empty {
                before + 1
            } else {
                0
            }
        } else {
            before
        }
    }
}

// ---------------------------------------------------------------------------
// The loop
// ---------------------------------------------------------------------------

/// What the loop waits for.
#[derive(Debug)]
pub enum Stage {
    /// The content of the notes file.
    Notes,
    /// The inner loop, with this as its task.
    Inner(String),
    /// `git status`, notes file included.
    Status(Pass),
    /// `git status`, notes file left out.
    Progress(Pass),
    /// `git add`.
    Add(Pass),
    /// `git commit`.
    Commit(Pass),
    /// `git reset`.
    Reset(Pass),
    /// `git clean`.
    Clean(Pass),
    /// The stop command.
    Stop(Pass),
    /// The clock.
    Clock,
    /// Nothing: the loop is over.
    Done(RalphTerminal),
}

/// What came of what the loop asked for.
#[derive(Debug)]
pub enum RalphEvent {
    /// The notes file's content; empty where there is no such file.
    Notes(String),
    /// How the inner loop ended, and what it took.
    Inner(LoopOutcome, RunStats),
    /// What a command gave.
    Exec(ExecOutcome),
    /// The current instant.
    Clock(UnixTime),
}

/// What the loop asks for.
#[derive(Debug)]
pub enum RalphAction {
    /// Read this file, relative to the workspace root.
    ReadNotes(String),
    /// Run the inner loop with this as its task, for at most so many iterations.
    RunInner(String, u32),
    /// Run this command.
    Exec(ExecSpec),
    /// Read the clock.
    ReadClock,
    /// Nothing more.
    Finish,
}

/// An outer loop under way.
#[derive(Debug)]
pub struct RalphLoop<'a, C> {
    pub config: &'a RalphConfig<C>,
    /// The workspace root.
    pub root: FilePath,
    /// When the loop started.
    pub start: UnixTime,
    /// Which pass, from 0.
    pub iteration: u32,
    pub stuck: u32,
    pub do_overs: u32,
    pub iterations: Vec<RalphIterationOutcome>,
    pub stage: Stage,
}

impl<'a, C> RalphLoop<'a, C> {
    /// The recorded passes are numbered from 0, and only a finish with `done`
    /// that changed something was committed.
    pub open spec fn records_wf(self) -> bool {
        forall|k: int|
            0 <= k < self.iterations@.len() ==> {
                let it = #[trigger] self.iterations@[k];
                &&& it.iteration == k
                &&& it.committed ==> engine::green(it.inner_outcome) && it.made_changes
            }
    }

    /// What is known of the pass fits the stage that it has come to.
    pub open spec fn stage_wf(self) -> bool {
        match self.stage {
            Stage::Status(p) => !p.committed && !p.commit_failed,
            Stage::Progress(p) => !p.committed && !p.commit_failed,
            Stage::Add(p) => wants_commit(p) && !p.committed && !p.commit_failed,
            Stage::Commit(p) => wants_commit(p) && !p.committed && !p.commit_failed,
            Stage::Reset(p) => wants_revert(p) && !p.committed && (p.commit_failed ==> wants_commit(
                p,
            )),
            Stage::Clean(p) => wants_revert(p) && !p.committed && (p.commit_failed ==> wants_commit(
                p,
            )),
            Stage::Stop(p) => wants_commit(p) == (p.committed || p.commit_failed) && !(p.committed
                && p.commit_failed),
            _ => true,
        }
    }

    /// What holds of a loop at every moment.
    pub open spec fn wf(self) -> bool {
        &&& self.start.wf()
        &&& self.records_wf()
        &&& self.stage_wf()
        &&& self.iterations@.len() <= self.config.max_outer_iterations
        &&& self.do_overs == trailing_do_overs(self.iterations@)
        &&& self.stage == Stage::Done(RalphTerminal::DoOversExhausted) || self.stuck
            == trailing_quiet(self.iterations@)
        &&& !(self.stage is Done) ==> {
            &&& self.iteration < self.config.max_outer_iterations
            &&& self.stage is Clock ==> self.config.wall_clock_secs != 0 && self.iteration + 1
                < self.config.max_outer_iterations
            &&& self.do_overs < self.config.max_do_overs || self.iterations@.len() == 0
            &&& self.stuck < self.config.stuck_k || self.stuck == 0
            &&& self.iterations@.len() == self.iteration + (if self.stage is Clock {
                1int
            } else {
                0int
            })
        }
    }
}

/// An exit code, as errors show it.
pub open spec fn code_text(code: Option<i32>) -> Seq<char> {
    match code {
        None => "None"@,
        Some(n) => "Some("@ + text::dec_int(n as int) + ")"@,
    }
}

/// The error of a command that had to exit with 0 and did not.
pub open spec fn exit_error(label: Seq<char>, o: ExecOutcome) -> Seq<char> {
    label + " exited "@ + code_text(o.exit_code) + ": "@ + text::trim(o.stderr@)
}

/// The error of a command that could not be started.
pub open spec fn spawn_error(label: Seq<char>, o: ExecOutcome) -> Seq<char> {
    label + " failed to spawn: "@ + text::trim(o.stderr@)
}

/// The loop is over with this error.
pub open spec fn over_with_error(stage: Stage, message: Seq<char>) -> bool {
    stage matches Stage::Done(RalphTerminal::Error(m)) && m@ == message
}

/// The command exited with 0.
pub open spec fn exited_ok(o: ExecOutcome) -> bool {
    o.exit_code == Some(0i32)
}

/// Where a pass goes once its changes are known and, if it wants a commit, the
/// commit was tried.
pub open spec fn settled(p: Pass) -> Stage {
    if wants_revert(p) {
        Stage::Reset(p)
    } else {
        Stage::Stop(p)
    }
}

impl<'a, C> RalphLoop<'a, C> {
    /// `next` is the same loop with the same passes behind it.
    pub open spec fn same_passes(self, next: Self) -> bool {
        &&& next.config == self.config
        &&& next.root == self.root
        &&& next.start == self.start
        &&& next.iteration == self.iteration
        &&& next.stuck == self.stuck
        &&& next.do_overs == self.do_overs
        &&& next.iterations@ == self.iterations@
    }

    /// `next` is the same loop once the pass `p` is recorded and is not the
    /// last for having met the objective. The limits are looked at in this
    /// order: do-overs, passes without progress, passes; then the clock, if
    /// there is a limit on time.
    pub open spec fn recorded(self, p: Pass, next: Self) -> bool {
        let do_overs = do_overs_after(self.do_overs as int, p);
        let stuck = stuck_after(self.stuck as int, p);
        &&& next.config == self.config
        &&& next.root == self.root
        &&& next.start == self.start
        &&& next.iterations@ == self.iterations@.push(record_of(self.iteration, p))
        &&& next.do_overs == do_overs
        &&& if do_overs >= self.config.max_do_overs {
            &&& next.stage == Stage::Done(RalphTerminal::DoOversExhausted)
            &&& next.stuck == self.stuck
            &&& next.iteration == self.iteration
        } else {
            &&& next.stuck == stuck
            &&& if stuck >= self.config.stuck_k {
                &&& next.stage == Stage::Done(RalphTerminal::Stuck)
                &&& next.iteration == self.iteration
            } else if self.iteration + 1 >= self.config.max_outer_iterations {
                &&& next.stage == Stage::Done(RalphTerminal::MaxIterationsExhausted)
                &&& next.iteration == self.iteration
            } else if self.config.wall_clock_secs != 0 {
                &&& next.stage == Stage::Clock
                &&& next.iteration == self.iteration
            } else {
                &&& next.stage == Stage::Notes
                &&& next.iteration == self.iteration + 1
            }
        }
    }

    /// `next` is what becomes of this loop when `event` comes. An event that
    /// the loop does not wait for changes nothing.
    pub open spec fn stepped(self, event: RalphEvent, next: Self) -> bool {
        match (self.stage, event) {
            (Stage::Notes, RalphEvent::Notes(notes)) => {
                &&& self.same_passes(next)
                &&& next.stage matches Stage::Inner(task) && task@ == prompt::ralph_prompt(
                    self.config.objective@,
                    notes@,
                    self.config.notes_file@,
                )
            },
            (Stage::Inner(_), RalphEvent::Inner(outcome, stats)) => {
                &&& self.same_passes(next)
                &&& next.stage == Stage::Status(
                    Pass {
                        outcome,
                        stats,
                        made_changes: false,
                        progress_empty: false,
                        committed: false,
                        commit_failed: false,
                    },
                )
            },
            (Stage::Status(p), RalphEvent::Exec(o)) => {
                &&& self.same_passes(next)
                &&& if exited_ok(o) {
                    next.stage == Stage::Progress(
                        Pass { made_changes: text::trim(o.stdout@).len() > 0, ..p },
                    )
                } else {
                    over_with_error(next.stage, exit_error("git status"@, o))
                }
            },
            (Stage::Progress(p), RalphEvent::Exec(o)) => {
                &&& self.same_passes(next)
                &&& if exited_ok(o) {
                    let q = Pass { progress_empty: text::trim(o.stdout@).len() == 0, ..p };
                    next.stage == (if wants_commit(q) {
                        Stage::Add(q)
                    } else {
                        settled(q)
                    })
                } else {
                    over_with_error(next.stage, exit_error("git status (progress signal)"@, o))
                }
            },
            (Stage::Add(p), RalphEvent::Exec(o)) => {
                &&& self.same_passes(next)
                &&& if exited_ok(o) {
                    next.stage == Stage::Commit(p)
                } else {
                    over_with_error(next.stage, exit_error("git add"@, o))
                }
            },
            (Stage::Commit(p), RalphEvent::Exec(o)) => {
                &&& self.same_passes(next)
                &&& match o.exit_code {
                    None => over_with_error(next.stage, spawn_error("git commit"@, o)),
                    Some(code) => next.stage == settled(
                        Pass { committed: code == 0, commit_failed: code != 0, ..p },
                    ),
                }
            },
            (Stage::Reset(p), RalphEvent::Exec(o)) => {
                &&& self.same_passes(next)
                &&& if exited_ok(o) {
                    next.stage == Stage::Clean(p)
                } else {
                    over_with_error(next.stage, exit_error("git reset --hard HEAD"@, o))
                }
            },
            (Stage::Clean(p), RalphEvent::Exec(o)) => {
                &&& self.same_passes(next)
                &&& if exited_ok(o) {
                    next.stage == Stage::Stop(p)
                } else {
                    over_with_error(next.stage, exit_error("git clean -fd"@, o))
                }
            },
            (Stage::Stop(p), RalphEvent::Exec(o)) => {
                if !o.timed_out && o.exit_code is None {
                    &&& self.same_passes(next)
                    &&& over_with_error(next.stage, spawn_error("stop_command"@, o))
                } else if !o.timed_out && exited_ok(o) {
                    &&& next.config == self.config
                    &&& next.root == self.root
                    &&& next.start == self.start
                    &&& next.iteration == self.iteration
                    &&& next.iterations@ == self.iterations@.push(record_of(self.iteration, p))
                    &&& next.stuck == stuck_after(self.stuck as int, p)
                    &&& next.do_overs == do_overs_after(self.do_overs as int, p)
                    &&& next.stage == Stage::Done(RalphTerminal::StopConditionMet)
                } else {
                    self.recorded(p, next)
                }
            },
            (Stage::Clock, RalphEvent::Clock(now)) => {
                &&& next.config == self.config
                &&& next.root == self.root
                &&& next.start == self.start
                &&& next.stuck == self.stuck
                &&& next.do_overs == self.do_overs
                &&& next.iterations@ == self.iterations@
                &&& if now.total() - self.start.total() >= self.config.wall_clock_secs
                    * 1_000_000_000 {
                    &&& next.stage == Stage::Done(RalphTerminal::TimeBudgetExhausted)
                    &&& next.iteration == self.iteration
                } else {
                    &&& next.stage == Stage::Notes
                    &&& next.iteration == self.iteration + 1
                }
            },
            _ => self.same_passes(next) && next.stage == self.stage,
        }
    }
}

/// An exit code, as errors show it.
fn render_code(code: Option<i32>) -> (r: String)
    ensures
        r@ == code_text(code),
{
    match code {
        None => "None".to_owned(),
        Some(n) => {
            let mut s = "Some(".to_owned();
            s.append(dec_i32(n).as_str());
            s.append(")");
            s
        },
    }
}

/// The end of a loop for a command that had to exit with 0 and did not.
fn exit_failure(label: &str, o: &ExecOutcome) -> (r: Stage)
    ensures
        over_with_error(r, exit_error(label@, *o)),
{
    let mut s = concat(label, " exited ");
    s.append(render_code(o.exit_code).as_str());
    s.append(": ");
    s.append(trimmed(o.stderr.as_str()).as_str());
    Stage::Done(RalphTerminal::Error(s))
}

/// The end of a loop for a command that could not be started.
fn spawn_failure(label: &str, o: &ExecOutcome) -> (r: Stage)
    ensures
        over_with_error(r, spawn_error(label@, *o)),
{
    let mut s = concat(label, " failed to spawn: ");
    s.append(trimmed(o.stderr.as_str()).as_str());
    Stage::Done(RalphTerminal::Error(s))
}

/// Whether the command exited with 0.
fn ok(o: &ExecOutcome) -> (r: bool)
    ensures
        r == exited_ok(*o),
{
    match o.exit_code {
        Some(code) => code == 0,
        None => false,
    }
}

/// Whether the command printed nothing but white space.
fn is_blank(output: &str) -> (r: bool)
    ensures
        r == (text::trim(output@).len() == 0),
{
    trimmed(output).as_str().is_empty()
}

/// Where a pass goes once the commit, if it wants one, was tried.
fn settle(p: Pass) -> (r: Stage)
    ensures
        r == settled(p),
{
    if p.made_changes && (!p.outcome.is_green() || p.commit_failed) {
        Stage::Reset(p)
    } else {
        Stage::Stop(p)
    }
}

/// Where a pass goes when a command comes back, at the stages before the stop
/// command.
fn advance(stage: Stage, o: ExecOutcome) -> (r: Stage)
    requires
        stage is Status || stage is Progress || stage is Add || stage is Commit || stage is Reset
            || stage is Clean,
    ensures
        match stage {
            Stage::Status(p) => if exited_ok(o) {
                r == Stage::Progress(Pass { made_changes: text::trim(o.stdout@).len() > 0, ..p })
            } else {
                over_with_error(r, exit_error("git status"@, o))
            },
            Stage::Progress(p) => if exited_ok(o) {
                let q = Pass { progress_empty: text::trim(o.stdout@).len() == 0, ..p };
                r == (if wants_commit(q) {
                    Stage::Add(q)
                } else {
                    settled(q)
                })
            } else {
                over_with_error(r, exit_error("git status (progress signal)"@, o))
            },
            Stage::Add(p) => if exited_ok(o) {
                r == Stage::Commit(p)
            } else {
                over_with_error(r, exit_error("git add"@, o))
            },
            Stage::Commit(p) => match o.exit_code {
                None => over_with_error(r, spawn_error("git commit"@, o)),
                Some(code) => r == settled(
                    Pass { committed: code == 0, commit_failed: code != 0, ..p },
                ),
            },
            Stage::Reset(p) => if exited_ok(o) {
                r == Stage::Clean(p)
            } else {
                over_with_error(r, exit_error("git reset --hard HEAD"@, o))
            },
            Stage::Clean(p) => if exited_ok(o) {
                r == Stage::Stop(p)
            } else {
                over_with_error(r, exit_error("git clean -fd"@, o))
            },
            _ => true,
        },
{
    match stage {
        Stage::Status(p) => {
            if !ok(&o) {
                return exit_failure("git status", &o);
            }
            Stage::Progress(Pass { made_changes: !is_blank(o.stdout.as_str()), ..p })
        },
        Stage::Progress(p) => {
            if !ok(&o) {
                return exit_failure("git status (progress signal)", &o);
            }
            let q = Pass { progress_empty: is_blank(o.stdout.as_str()), ..p };
            if q.outcome.is_green() && q.made_changes {
                Stage::Add(q)
            } else {
                settle(q)
            }
        },
        Stage::Add(p) => {
            if !ok(&o) {
                return exit_failure("git add", &o);
            }
            Stage::Commit(p)
        },
        Stage::Commit(p) => match o.exit_code {
            None => spawn_failure("git commit", &o),
            Some(code) => settle(Pass { committed: code == 0, commit_failed: code != 0, ..p }),
        },
        Stage::Reset(p) => {
            if !ok(&o) {
                return exit_failure("git reset --hard HEAD", &o);
            }
            Stage::Clean(p)
        },
        Stage::Clean(p) => {
            if !ok(&o) {
                return exit_failure("git clean -fd", &o);
            }
            Stage::Stop(p)
        },
        other => other,
    }
}

impl<'a, C> RalphLoop<'a, C> {
    /// A loop that is about to make its first pass; one that may make no pass
    /// is over at once.
    pub fn new(config: &'a RalphConfig<C>, root: FilePath, start: UnixTime) -> (r: Self)
        requires
            start.wf(),
        ensures
            r.wf(),
            r.config == config,
            r.root == root,
            r.start == start,
            r.iteration == 0,
            r.stuck == 0,
            r.do_overs == 0,
            r.iterations@.len() == 0,
            r.stage == (if config.max_outer_iterations == 0 {
                Stage::Done(RalphTerminal::MaxIterationsExhausted)
            } else {
                Stage::Notes
            }),
    {
        let stage = if config.max_outer_iterations == 0 {
            Stage::Done(RalphTerminal::MaxIterationsExhausted)
        } else {
            Stage::Notes
        };
        RalphLoop {
            config,
            root,
            start,
            iteration: 0,
            stuck: 0,
            do_overs: 0,
            iterations: Vec::new(),
            stage,
        }
    }

    /// Records the pass that the stop command was run for, and moves on.
    fn close_pass(self, o: ExecOutcome) -> (r: Self)
        requires
            self.wf(),
            self.stage is Stop,
        ensures
            self.stepped(RalphEvent::Exec(o), r),
            r.wf(),
    {
        let p = match self.stage {
            Stage::Stop(p) => p,
            _ => {
                return self;
            },
        };
        if !o.timed_out && o.exit_code.is_none() {
            return RalphLoop { stage: spawn_failure("stop_command", &o), ..self };
        }
        let met: bool = !o.timed_out && ok(&o);
        let is_green = p.outcome.is_green();
        let is_backend_error = p.outcome.is_backend_error();
        let max_do_overs: u32 = self.config.max_do_overs;
        let mut do_overs: u32 = self.do_overs;
        if is_green && p.committed {
            do_overs = 0;
        } else if (is_green && p.commit_failed) || (!is_green && !is_backend_error
            && p.made_changes) {
            do_overs = do_overs + 1;
        }
        let mut stuck: u32 = self.stuck;
        if is_green && (p.committed || !p.made_changes) {
            stuck = if p.progress_empty {
                stuck + 1
            } else {
                0
            };
        }
        let record = RalphIterationOutcome {
            iteration: self.iteration,
            inner_outcome: p.outcome,
            inner_stats: p.stats,
            made_changes: p.made_changes,
            progress_empty: p.progress_empty,
            committed: p.committed,
        };
        let mut iterations = self.iterations;
        iterations.push(record);
        proof {
            assert(iterations@.drop_last() =~= self.iterations@);
        }
        if met {
            return RalphLoop {
                iterations,
                do_overs,
                stuck,
                stage: Stage::Done(RalphTerminal::StopConditionMet),
                ..self
            };
        }
        if do_overs >= max_do_overs {
            return RalphLoop {
                iterations,
                do_overs,
                stage: Stage::Done(RalphTerminal::DoOversExhausted),
                ..self
            };
        }
        if stuck >= self.config.stuck_k {
            return RalphLoop {
                iterations,
                do_overs,
                stuck,
                stage: Stage::Done(RalphTerminal::Stuck),
                ..self
            };
        }
        if self.iteration + 1 >= self.config.max_outer_iterations {
            return RalphLoop {
                iterations,
                do_overs,
                stuck,
                stage: Stage::Done(RalphTerminal::MaxIterationsExhausted),
                ..self
            };
        }
        if self.config.wall_clock_secs != 0 {
            return RalphLoop { iterations, do_overs, stuck, stage: Stage::Clock, ..self };
        }
        RalphLoop {
            iterations,
            do_overs,
            stuck,
            iteration: self.iteration + 1,
            stage: Stage::Notes,
            ..self
        }
    }

    /// What becomes of the loop when `event` comes.
    pub fn step(self, event: RalphEvent) -> (r: Self)
        requires
            self.wf(),
            event matches RalphEvent::Clock(now) ==> now.wf(),
        ensures
            self.stepped(event, r),
            r.wf(),
    {
        match event {
            RalphEvent::Notes(notes) => match self.stage {
                Stage::Notes => {
                    let task = render_ralph_prompt(
                        self.config.objective.as_str(),
                        notes.as_str(),
                        self.config.notes_file.as_str(),
                    );
                    RalphLoop { stage: Stage::Inner(task), ..self }
                },
                _ => self,
            },
            RalphEvent::Inner(outcome, stats) => match self.stage {
                Stage::Inner(_) => {
                    let p = Pass {
                        outcome,
                        stats,
                        made_changes: false,
                        progress_empty: false,
                        committed: false,
                        commit_failed: false,
                    };
                    RalphLoop { stage: Stage::Status(p), ..self }
                },
                _ => self,
            },
            RalphEvent::Exec(o) => match self.stage {
                Stage::Stop(_) => self.close_pass(o),
                Stage::Status(_)
                | Stage::Progress(_)
                | Stage::Add(_)
                | Stage::Commit(_)
                | Stage::Reset(_)
                | Stage::Clean(_) => {
                    let stage = advance(self.stage, o);
                    RalphLoop { stage, ..self }
                },
                _ => self,
            },
            RalphEvent::Clock(now) => match self.stage {
                Stage::Clock => {
                    let elapsed = now.since(self.start);
                    if elapsed.secs >= self.config.wall_clock_secs {
                        RalphLoop {
                            stage: Stage::Done(RalphTerminal::TimeBudgetExhausted),
                            ..self
                        }
                    } else {
                        RalphLoop { stage: Stage::Notes, iteration: self.iteration + 1, ..self }
                    }
                },
                _ => self,
            },
        }
    }
}

/// `spec` runs git with these arguments at the workspace root.
pub open spec fn is_git(spec: ExecSpec, args: Seq<Seq<char>>, root: Seq<u8>) -> bool {
    &&& spec.program@ == "git"@
    &&& text::views(spec.args@) == args
    &&& spec.cwd@ == root
    &&& spec.timeout.wf()
    &&& spec.timeout.total() == 60_000_000_000
}

/// The message of a commit.
pub open spec fn commit_message(iteration: int, objective: Seq<char>) -> Seq<char> {
    "ralph: iteration "@ + text::dec(iteration as nat) + " — "@ + objective
}

/// A git command at the workspace root.
fn git(args: Vec<String>, root: &FilePath) -> (r: ExecSpec)
    ensures
        is_git(r, text::views(args@), root@),
{
    ExecSpec {
        program: "git".to_owned(),
        args,
        cwd: root.dup(),
        timeout: Duration::from_secs(GIT_TIMEOUT_SECS),
    }
}

impl<'a, C> RalphLoop<'a, C> {
    /// `action` is what the loop asks for at its stage.
    pub open spec fn asks(self, action: RalphAction) -> bool {
        match self.stage {
            Stage::Notes => action matches RalphAction::ReadNotes(path) && path@
                == self.config.notes_file@,
            Stage::Inner(task) => action matches RalphAction::RunInner(t, max) && t@ == task@ && max
                == self.config.inner_max_iterations,
            Stage::Status(_) => action matches RalphAction::Exec(spec) && is_git(
                spec,
                seq!["status"@, "--porcelain"@],
                self.root@,
            ),
            Stage::Progress(_) => action matches RalphAction::Exec(spec) && is_git(
                spec,
                seq![
                    "status"@,
                    "--porcelain"@,
                    "--"@,
                    "."@,
                    ":(exclude)"@ + self.config.notes_file@,
                ],
                self.root@,
            ),
            Stage::Add(_) => action matches RalphAction::Exec(spec) && is_git(
                spec,
                seq!["add"@, "-A"@],
                self.root@,
            ),
            Stage::Commit(_) => action matches RalphAction::Exec(spec) && is_git(
                spec,
                seq![
                    "-c"@,
                    "user.name=talos-ralph"@,
                    "-c"@,
                    "user.email=talos-ralph@localhost"@,
                    "commit"@,
                    "-m"@,
                    commit_message(self.iteration as int, self.config.objective@),
                ],
                self.root@,
            ),
            Stage::Reset(_) => action matches RalphAction::Exec(spec) && is_git(
                spec,
                seq!["reset"@, "--hard"@, "HEAD"@],
                self.root@,
            ),
            Stage::Clean(_) => action matches RalphAction::Exec(spec) && is_git(
                spec,
                seq!["clean"@, "-fd"@],
                self.root@,
            ),
            Stage::Stop(_) => action matches RalphAction::Exec(spec) && {
                &&& spec.program@ == self.config.stop_command.program@
                &&& text::views(spec.args@) == text::views(self.config.stop_command.args@)
                &&& spec.cwd@ == self.root@
                &&& spec.timeout == self.config.stop_command_timeout
            },
            Stage::Clock => action is ReadClock,
            Stage::Done(_) => action is Finish,
        }
    }

    /// What the loop asks for next.
    pub fn next_action(&self) -> (r: RalphAction)
        ensures
            self.asks(r),
    {
        let root = &self.root;
        match &self.stage {
            Stage::Notes => RalphAction::ReadNotes(self.config.notes_file.clone()),
            Stage::Inner(task) => RalphAction::RunInner(
                task.clone(),
                self.config.inner_max_iterations,
            ),
            Stage::Status(_) => {
                let args: Vec<String> = vec!["status".to_owned(), "--porcelain".to_owned()];
                proof {
                    assert(text::views(args@) =~= seq!["status"@, "--porcelain"@]);
                }
                RalphAction::Exec(git(args, root))
            },
            Stage::Progress(_) => {
                let exclude = concat(":(exclude)", self.config.notes_file.as_str());
                let args: Vec<String> =
                    vec![
                    "status".to_owned(),
                    "--porcelain".to_owned(),
                    "--".to_owned(),
                    ".".to_owned(),
                    exclude,
                ];
                proof {
                    assert(text::views(args@) =~= seq![
                        "status"@,
                        "--porcelain"@,
                        "--"@,
                        "."@,
                        ":(exclude)"@ + self.config.notes_file@,
                    ]);
                }
                RalphAction::Exec(git(args, root))
            },
            Stage::Add(_) => {
                let args: Vec<String> = vec!["add".to_owned(), "-A".to_owned()];
                proof {
                    assert(text::views(args@) =~= seq!["add"@, "-A"@]);
                }
                RalphAction::Exec(git(args, root))
            },
            Stage::Commit(_) => {
                let mut message = concat(
                    "ralph: iteration ",
                    dec_u64(self.iteration as u64).as_str(),
                );
                message.append(" — ");
                message.append(self.config.objective.as_str());
                let args: Vec<String> =
                    vec![
                    "-c".to_owned(),
                    "user.name=talos-ralph".to_owned(),
                    "-c".to_owned(),
                    "user.email=talos-ralph@localhost".to_owned(),
                    "commit".to_owned(),
                    "-m".to_owned(),
                    message,
                ];
                proof {
                    assert(text::views(args@) =~= seq![
                        "-c"@,
                        "user.name=talos-ralph"@,
                        "-c"@,
                        "user.email=talos-ralph@localhost"@,
                        "commit"@,
                        "-m"@,
                        commit_message(self.iteration as int, self.config.objective@),
                    ]);
                }
                RalphAction::Exec(git(args, root))
            },
            Stage::Reset(_) => {
                let args: Vec<String> =
                    vec!["reset".to_owned(), "--hard".to_owned(), "HEAD".to_owned()];
                proof {
                    assert(text::views(args@) =~= seq!["reset"@, "--hard"@, "HEAD"@]);
                }
                RalphAction::Exec(git(args, root))
            },
            Stage::Clean(_) => {
                let args: Vec<String> = vec!["clean".to_owned(), "-fd".to_owned()];
                proof {
                    assert(text::views(args@) =~= seq!["clean"@, "-fd"@]);
                }
                RalphAction::Exec(git(args, root))
            },
            Stage::Stop(_) => RalphAction::Exec(
                ExecSpec {
                    program: self.config.stop_command.program.clone(),
                    args: copy_strings(&self.config.stop_command.args),
                    cwd: self.root.dup(),
                    timeout: self.config.stop_command_timeout,
                },
            ),
            Stage::Clock => RalphAction::ReadClock,
            Stage::Done(_) => RalphAction::Finish,
        }
    }

    /// The report of a loop that is over; nothing while it is not.
    pub fn into_report(self) -> (r: Option<RalphReport>)
        ensures
            r is Some == (self.stage is Done),
            r matches Some(report) ==> {
                &&& report.objective@ == self.config.objective@
                &&& self.stage == Stage::Done(report.terminal)
                &&& report.iterations == self.iterations
            },
    {
        match self.stage {
            Stage::Done(terminal) => Some(
                RalphReport {
                    objective: self.config.objective.clone(),
                    terminal,
                    iterations: self.iterations,
                },
            ),
            _ => None,
        }
    }
}

// ---------------------------------------------------------------------------
// Laws
// ---------------------------------------------------------------------------

/// The loop comes to `git commit` only for a pass that finished with `done`
/// and changed the work tree, and no other pass is ever recorded as committed.
pub proof fn law_only_green_passes_are_committed<C>(m: RalphLoop<'_, C>, k: int)
    requires
        m.wf(),
    ensures
        m.stage matches Stage::Commit(p) ==> engine::green(p.outcome) && p.made_changes,
        0 <= k < m.iterations@.len() && m.iterations@[k].committed ==> engine::green(
            m.iterations@[k].inner_outcome,
        ) && m.iterations@[k].made_changes,
{
}

/// A pass that left changes behind which are not committed is put back: it
/// comes to the stop command only through `git reset` and then `git clean`.
pub proof fn law_uncommitted_changes_are_put_back<C>(
    a: RalphLoop<'_, C>,
    e: RalphEvent,
    b: RalphLoop<'_, C>,
)
    requires
        a.wf(),
        a.stepped(e, b),
        b.stage is Stop,
        !(a.stage is Stop),
    ensures
        b.stage->Stop_0.made_changes && !b.stage->Stop_0.committed ==> a.stage is Clean,
        a.stage is Clean ==> b.stage->Stop_0 == a.stage->Clean_0,
{
}

/// Clean follows reset, and reset is entered only for what must be put back.
pub proof fn law_reset_precedes_clean<C>(
    a: RalphLoop<'_, C>,
    e: RalphEvent,
    b: RalphLoop<'_, C>,
)
    requires
        a.wf(),
        a.stepped(e, b),
    ensures
        b.stage is Clean && !(a.stage is Clean) ==> a.stage is Reset,
        b.stage matches Stage::Reset(p) ==> wants_revert(p) && !p.committed,
{
}

/// An error records nothing: the pass that it came in is left out.
pub proof fn law_an_error_records_nothing<C>(
    a: RalphLoop<'_, C>,
    e: RalphEvent,
    b: RalphLoop<'_, C>,
)
    requires
        a.wf(),
        a.stepped(e, b),
        b.stage matches Stage::Done(t) && t is Error,
    ensures
        b.iterations@ == a.iterations@,
{
}

/// Every other end after a pass records that pass first, and only once.
pub proof fn law_an_ended_pass_is_recorded<C>(
    a: RalphLoop<'_, C>,
    e: RalphEvent,
    b: RalphLoop<'_, C>,
)
    requires
        a.wf(),
        a.stepped(e, b),
        a.stage is Stop,
        !(b.stage is Stop),
        !(b.stage matches Stage::Done(t) && t is Error),
    ensures
        b.iterations@ == a.iterations@.push(record_of(a.iteration, a.stage->Stop_0)),
{
}

/// A met objective wins over every limit: however the counts stand, a stop
/// command that exits with 0 in time ends the loop with `StopConditionMet`.
pub proof fn law_a_met_objective_wins<C>(
    a: RalphLoop<'_, C>,
    o: ExecOutcome,
    b: RalphLoop<'_, C>,
)
    requires
        a.wf(),
        a.stage is Stop,
        a.stepped(RalphEvent::Exec(o), b),
    ensures
        (!o.timed_out && o.exit_code == Some(0i32)) <==> b.stage == Stage::Done(
            RalphTerminal::StopConditionMet,
        ),
{
}

/// The two counts never go up together: what is a do-over leaves the count of
/// passes without progress as it was.
pub proof fn law_one_count_moves_at_a_time(p: Pass, do_overs: nat, stuck: nat)
    requires
        wants_commit(p) == (p.committed || p.commit_failed),
        !(p.committed && p.commit_failed),
    ensures
        do_overs_after(do_overs as int, p) > do_overs ==> stuck_after(stuck as int, p) == stuck,
{
}

/// A do-over is always put back: only what left changes behind counts, and a pass
/// that left the work tree clean and did not finish moves neither count.
pub proof fn law_only_what_is_put_back_is_a_do_over(p: Pass, do_overs: nat, stuck: nat)
    requires
        wants_commit(p) == (p.committed || p.commit_failed),
    ensures
        do_overs_after(do_overs as int, p) > do_overs ==> wants_revert(p),
        !engine::green(p.outcome) && !p.made_changes ==> do_overs_after(do_overs as int, p)
            == do_overs && stuck_after(stuck as int, p) == stuck,
{
}

/// A backend error moves neither count.
pub proof fn law_backend_errors_are_exempt(p: Pass, do_overs: int, stuck: int)
    requires
        p.outcome is BackendError,
    ensures
        do_overs_after(do_overs, p) == do_overs,
        stuck_after(stuck, p) == stuck,
{
}

/// The loop gives up on do-overs exactly when the recorded passes end with as
/// many do-overs in a row as are tolerated, and the objective was not met.
pub proof fn law_do_overs_are_counted_in_a_row<C>(
    a: RalphLoop<'_, C>,
    o: ExecOutcome,
    b: RalphLoop<'_, C>,
)
    requires
        a.wf(),
        b.wf(),
        a.stage is Stop,
        a.stepped(RalphEvent::Exec(o), b),
        o.timed_out || (o.exit_code is Some && o.exit_code != Some(0i32)),
    ensures
        b.stage == Stage::Done(RalphTerminal::DoOversExhausted) <==> trailing_do_overs(
            b.iterations@,
        ) >= a.config.max_do_overs,
{
}

/// How far the loop still has to go: a number that every awaited event brings
/// down.
pub open spec fn distance<C>(m: RalphLoop<'_, C>) -> int {
    let rank: int = match m.stage {
        Stage::Notes => 10,
        Stage::Inner(_) => 9,
        Stage::Status(_) => 8,
        Stage::Progress(_) => 7,
        Stage::Add(_) => 6,
        Stage::Commit(_) => 5,
        Stage::Reset(_) => 4,
        Stage::Clean(_) => 3,
        Stage::Stop(_) => 2,
        Stage::Clock => 1,
        Stage::Done(_) => 0,
    };
    if m.stage is Done {
        0
    } else {
        (m.config.max_outer_iterations - m.iteration) * 11 + rank
    }
}

/// The event is one that the loop waits for.
pub open spec fn awaited(stage: Stage, e: RalphEvent) -> bool {
    match stage {
        Stage::Notes => e is Notes,
        Stage::Inner(_) => e is Inner,
        Stage::Clock => e is Clock,
        Stage::Done(_) => false,
        _ => e is Exec,
    }
}

/// The loop ends: every event that it waits for brings it closer to the end,
/// and it never makes more passes than allowed.
pub proof fn law_the_loop_ends<C>(a: RalphLoop<'_, C>, e: RalphEvent, b: RalphLoop<'_, C>)
    requires
        a.wf(),
        b.wf(),
        awaited(a.stage, e),
        a.stepped(e, b),
    ensures
        0 <= distance(b) < distance(a),
        b.iterations@.len() <= b.config.max_outer_iterations,
{
}

/// No error message is made up: an error comes only from a command that did
/// not exit with 0, or could not be started.
pub proof fn law_errors_come_from_failed_commands<C>(
    a: RalphLoop<'_, C>,
    e: RalphEvent,
    b: RalphLoop<'_, C>,
)
    requires
        a.wf(),
        a.stepped(e, b),
        !(a.stage is Done),
        b.stage matches Stage::Done(t) && t is Error,
    ensures
        e matches RalphEvent::Exec(o) && o.exit_code != Some(0i32),
{
}

/// What a loop of passes says of itself is what git said: a pass made changes if
/// and only if `git status` printed more than white space, made progress if and only
/// if it did so with the notes file left out, and is committed if and only if
/// `git commit` exited with 0. Nothing else of the pass changes on the way.
pub proof fn law_a_pass_is_what_git_said<C>(
    a: RalphLoop<'_, C>,
    o: ExecOutcome,
    b: RalphLoop<'_, C>,
    p: Pass,
    q: Pass,
)
    requires
        call_ensures(RalphLoop::<C>::step, (a, RalphEvent::Exec(o)), b),
        match a.stage {
            Stage::Status(x) => x == p,
            Stage::Progress(x) => x == p,
            Stage::Add(x) => x == p,
            Stage::Commit(x) => x == p,
            Stage::Reset(x) => x == p,
            Stage::Clean(x) => x == p,
            _ => false,
        },
        match b.stage {
            Stage::Progress(x) => x == q,
            Stage::Add(x) => x == q,
            Stage::Commit(x) => x == q,
            Stage::Reset(x) => x == q,
            Stage::Clean(x) => x == q,
            Stage::Stop(x) => x == q,
            _ => false,
        },
    ensures
        q.outcome == p.outcome,
        q.stats == p.stats,
        q.made_changes == (if a.stage is Status {
            exists|i: int| 0 <= i < o.stdout@.len() && !text::white(#[trigger] o.stdout@[i])
        } else {
            p.made_changes
        }),
        q.progress_empty == (if a.stage is Progress {
            forall|i: int| 0 <= i < o.stdout@.len() ==> text::white(#[trigger] o.stdout@[i])
        } else {
            p.progress_empty
        }),
        q.committed == (if a.stage is Commit {
            o.exit_code == Some(0i32)
        } else {
            p.committed
        }),
        q.commit_failed == (if a.stage is Commit {
            o.exit_code matches Some(code) && code != 0
        } else {
            p.commit_failed
        }),
{
    text::law_a_text_is_blank_if_it_is_white(o.stdout@);
}

/// The order of a pass: the inner loop first, then what changed, with the notes and
/// without; then, for a finish with `done` that changed something, `git add` and
/// `git commit`; then, for changes that are not committed, `git reset` and
/// `git clean`; then the stop command.
pub proof fn law_the_order_of_a_pass<C>(a: RalphLoop<'_, C>, o: ExecOutcome, b: RalphLoop<'_, C>)
    requires
        a.wf(),
        call_ensures(RalphLoop::<C>::step, (a, RalphEvent::Exec(o)), b),
        o.exit_code == Some(0i32),
    ensures
        a.stage is Status ==> b.stage is Progress,
        a.stage matches Stage::Progress(p) ==> (if !p.made_changes {
            b.stage is Stop
        } else if p.outcome matches LoopOutcome::Finished(Disposition::Done { .. }) {
            b.stage is Add
        } else {
            b.stage is Reset
        }),
        a.stage is Add ==> b.stage is Commit,
        a.stage is Commit ==> b.stage is Stop,
        a.stage is Reset ==> b.stage is Clean,
        a.stage is Clean ==> b.stage is Stop,
{
}

/// A refused commit is put back, and is no error of the loop; a command that the
/// loop itself needs and that did not exit with 0 is one, and ends it at once.
pub proof fn law_what_a_failed_command_does<C>(
    a: RalphLoop<'_, C>,
    o: ExecOutcome,
    b: RalphLoop<'_, C>,
)
    requires
        a.wf(),
        call_ensures(RalphLoop::<C>::step, (a, RalphEvent::Exec(o)), b),
        o.exit_code != Some(0i32),
    ensures
        a.stage is Commit && o.exit_code is Some ==> b.stage is Reset,
        a.stage is Status || a.stage is Progress || a.stage is Add || a.stage is Reset
            || a.stage is Clean || (a.stage is Commit && o.exit_code is None) || (a.stage is Stop
            && o.exit_code is None && !o.timed_out) ==> (b.stage matches Stage::Done(t)
            && t is Error),
        !(a.stage is Stop) || (o.exit_code is None && !o.timed_out) ==> b.iterations@
            == a.iterations@ && b.stuck == a.stuck && b.do_overs == a.do_overs,
{
}

/// What a pass does to the count of passes without progress, unless it ends the loop
/// as a do-over too many: one that finished with `done` and whose commit was not
/// refused adds one where nothing outside the notes file changed, and sets the count
/// back to nothing where something did; any other leaves it as it was.
pub proof fn law_progress_sets_the_count_back<C>(
    a: RalphLoop<'_, C>,
    o: ExecOutcome,
    b: RalphLoop<'_, C>,
    p: Pass,
)
    requires
        a.wf(),
        a.stage == Stage::Stop(p),
        call_ensures(RalphLoop::<C>::step, (a, RalphEvent::Exec(o)), b),
        o.timed_out || o.exit_code is Some,
        b.stage != Stage::Done(RalphTerminal::DoOversExhausted),
    ensures
        ({
            let finished = p.outcome matches LoopOutcome::Finished(Disposition::Done { .. });
            &&& finished && !p.commit_failed && !p.progress_empty ==> b.stuck == 0
            &&& finished && !p.commit_failed && p.progress_empty ==> b.stuck == a.stuck + 1
            &&& !finished || p.commit_failed ==> b.stuck == a.stuck
        }),
{
}

/// What a pass does to the count of do-overs: a commit sets it back to nothing,
/// changes that had to be put back add one, unless the backend was at fault, and
/// anything else leaves it as it was.
pub proof fn law_a_commit_sets_the_do_overs_back<C>(
    a: RalphLoop<'_, C>,
    o: ExecOutcome,
    b: RalphLoop<'_, C>,
    p: Pass,
)
    requires
        a.wf(),
        a.stage == Stage::Stop(p),
        call_ensures(RalphLoop::<C>::step, (a, RalphEvent::Exec(o)), b),
        o.timed_out || o.exit_code is Some,
    ensures
        p.committed ==> b.do_overs == 0,
        !p.committed && p.made_changes && !(p.outcome is BackendError) ==> b.do_overs == a.do_overs
            + 1,
        !p.committed && (!p.made_changes || p.outcome is BackendError) ==> b.do_overs
            == a.do_overs,
{
}

/// How a pass ends whose stop command was not met: with too many do-overs, else with
/// too many passes without progress, else with the last pass that is allowed; else
/// the loop goes on, by way of the clock where there is a limit on time.
pub proof fn law_the_limits_come_in_order<C>(
    a: RalphLoop<'_, C>,
    o: ExecOutcome,
    b: RalphLoop<'_, C>,
)
    requires
        a.wf(),
        a.stage is Stop,
        call_ensures(RalphLoop::<C>::step, (a, RalphEvent::Exec(o)), b),
        o.timed_out || (o.exit_code is Some && o.exit_code != Some(0i32)),
    ensures
        b.stage == (if b.do_overs >= a.config.max_do_overs {
            Stage::Done(RalphTerminal::DoOversExhausted)
        } else if b.stuck >= a.config.stuck_k {
            Stage::Done(RalphTerminal::Stuck)
        } else if b.iterations@.len() >= a.config.max_outer_iterations {
            Stage::Done(RalphTerminal::MaxIterationsExhausted)
        } else if a.config.wall_clock_secs > 0 {
            Stage::Clock
        } else {
            Stage::Notes
        }),
        b.stage is Notes ==> b.iteration == a.iteration + 1,
{
}

/// The loop runs out of time once as many whole seconds have gone by since its start
/// as it was given, and not before; a clock that was set back is as one that stands
/// still.
pub proof fn law_the_time_runs_out<C>(a: RalphLoop<'_, C>, now: UnixTime, b: RalphLoop<'_, C>)
    requires
        a.wf(),
        now.wf(),
        a.stage is Clock,
        call_ensures(RalphLoop::<C>::step, (a, RalphEvent::Clock(now)), b),
    ensures
        b.stage == (if (now.total() - a.start.total()) / 1_000_000_000
            >= a.config.wall_clock_secs {
            Stage::Done(RalphTerminal::TimeBudgetExhausted)
        } else {
            Stage::Notes
        }),
        b.iterations@ == a.iterations@,
        b.stage is Notes ==> b.iteration == a.iteration + 1,
{
}

/// The count of passes without progress is taken in a row: from the last pass with
/// progress on, or from the first of all, it is the number of passes that finished
/// with `done` and were not refused. `kept` says which those are.
pub proof fn law_passes_without_progress_are_counted_in_a_row<C>(
    m: RalphLoop<'_, C>,
    k: int,
    kept: spec_fn(RalphIterationOutcome) -> bool,
)
    requires
        m.wf(),
        m.stage != Stage::Done(RalphTerminal::DoOversExhausted),
        forall|it: RalphIterationOutcome| #[trigger]
            kept(it) <==> (it.inner_outcome matches LoopOutcome::Finished(Disposition::Done { .. }))
                && (it.committed || !it.made_changes),
        0 <= k <= m.iterations@.len(),
        k > 0 ==> kept(m.iterations@[k - 1]) && !m.iterations@[k - 1].progress_empty,
        forall|j: int|
            k <= j < m.iterations@.len() && kept(#[trigger] m.iterations@[j])
                ==> m.iterations@[j].progress_empty,
    ensures
        m.stuck == m.iterations@.skip(k).filter(kept).len(),
{
    lemma_quiet_in_a_row(m.iterations@, k, kept);
}

proof fn lemma_quiet_in_a_row(
    passes: Seq<RalphIterationOutcome>,
    k: int,
    kept: spec_fn(RalphIterationOutcome) -> bool,
)
    requires
        forall|it: RalphIterationOutcome| #[trigger]
            kept(it) <==> engine::green(it.inner_outcome) && (it.committed || !it.made_changes),
        0 <= k <= passes.len(),
        k > 0 ==> kept(passes[k - 1]) && !passes[k - 1].progress_empty,
        forall|j: int|
            k <= j < passes.len() && kept(#[trigger] passes[j]) ==> passes[j].progress_empty,
    ensures
        trailing_quiet(passes) == passes.skip(k).filter(kept).len(),
    decreases passes.len(),
{
    reveal(Seq::filter);
    if k == passes.len() {
        assert(passes.skip(k) =~= Seq::empty());
    } else {
        let front = passes.drop_last();
        assert forall|j: int| k <= j < front.len() && kept(#[trigger] front[j]) implies
            front[j].progress_empty by {
            assert(front[j] == passes[j]);
        }
        lemma_quiet_in_a_row(front, k, kept);
        assert(passes.skip(k).drop_last() =~= front.skip(k));
        assert(passes.skip(k).last() == passes[passes.len() - 1]);
    }
}

/// The count of do-overs is taken in a row: from the last commit on, or from the
/// first pass of all, it is the number of passes whose changes were not committed,
/// without those that the backend spoilt. `put_back` says which those are.
pub proof fn law_do_overs_are_counted_from_the_last_commit<C>(
    m: RalphLoop<'_, C>,
    k: int,
    put_back: spec_fn(RalphIterationOutcome) -> bool,
)
    requires
        m.wf(),
        forall|it: RalphIterationOutcome| #[trigger]
            put_back(it) <==> it.made_changes && !it.committed && !(
            it.inner_outcome is BackendError),
        0 <= k <= m.iterations@.len(),
        k > 0 ==> m.iterations@[k - 1].committed,
        forall|j: int| k <= j < m.iterations@.len() ==> !(#[trigger] m.iterations@[j]).committed,
    ensures
        m.do_overs == m.iterations@.skip(k).filter(put_back).len(),
{
    assert forall|j: int| 0 <= j < m.iterations@.len() implies (#[trigger]
    m.iterations@[j]).committed ==> engine::green(m.iterations@[j].inner_outcome) by {}
    lemma_do_overs_in_a_row(m.iterations@, k, put_back);
}

proof fn lemma_do_overs_in_a_row(
    passes: Seq<RalphIterationOutcome>,
    k: int,
    put_back: spec_fn(RalphIterationOutcome) -> bool,
)
    requires
        forall|it: RalphIterationOutcome| #[trigger]
            put_back(it) <==> it.made_changes && !it.committed && !(
            it.inner_outcome is BackendError),
        forall|j: int|
            0 <= j < passes.len() ==> (#[trigger] passes[j]).committed ==> engine::green(
                passes[j].inner_outcome,
            ),
        0 <= k <= passes.len(),
        k > 0 ==> passes[k - 1].committed,
        forall|j: int| k <= j < passes.len() ==> !(#[trigger] passes[j]).committed,
    ensures
        trailing_do_overs(passes) == passes.skip(k).filter(put_back).len(),
    decreases passes.len(),
{
    reveal(Seq::filter);
    if k == passes.len() {
        assert(passes.skip(k) =~= Seq::empty());
    } else {
        let front = passes.drop_last();
        assert forall|j: int| 0 <= j < front.len() implies (#[trigger] front[j]).committed
            ==> engine::green(front[j].inner_outcome) by {
            assert(front[j] == passes[j]);
        }
        assert forall|j: int| k <= j < front.len() implies !(#[trigger] front[j]).committed by {
            assert(front[j] == passes[j]);
        }
        lemma_do_overs_in_a_row(front, k, put_back);
        assert(passes.skip(k).drop_last() =~= front.skip(k));
        assert(passes.skip(k).last() == passes[passes.len() - 1]);
    }
}

/// The record of a pass is what the pass was: it is put behind the others, under the
/// next number, and the others stay as they were.
pub proof fn law_a_record_is_what_the_pass_was<C>(
    a: RalphLoop<'_, C>,
    o: ExecOutcome,
    b: RalphLoop<'_, C>,
    p: Pass,
)
    requires
        a.wf(),
        a.stage == Stage::Stop(p),
        call_ensures(RalphLoop::<C>::step, (a, RalphEvent::Exec(o)), b),
        o.timed_out || o.exit_code is Some,
    ensures
        b.iterations@.len() == a.iterations@.len() + 1,
        b.iterations@.drop_last() == a.iterations@,
        ({
            let it = b.iterations@.last();
            &&& it.iteration == a.iterations@.len()
            &&& it.inner_outcome == p.outcome
            &&& it.inner_stats == p.stats
            &&& it.made_changes == p.made_changes
            &&& it.progress_empty == p.progress_empty
            &&& it.committed == p.committed
        }),
{
    assert(b.iterations@.drop_last() =~= a.iterations@);
}

/// What the loop asks for at each stage, word for word: the notes file; the inner loop
/// with its task; git at the workspace root, which never cleans ignored files, and
/// commits under the number of the pass and the whole objective; and the stop
/// command as it was configured.
pub proof fn law_what_the_loop_asks_for<C>(m: RalphLoop<'_, C>, action: RalphAction)
    requires
        call_ensures(RalphLoop::<C>::next_action, (&m,), action),
    ensures
        m.stage is Notes ==> (action matches RalphAction::ReadNotes(p) && p@
            == m.config.notes_file@),
        m.stage matches Stage::Inner(task) ==> (action matches RalphAction::RunInner(t, n) && t@
            == task@ && n == m.config.inner_max_iterations),
        action matches RalphAction::Exec(spec) ==> spec.cwd@ == m.root@,
        m.stage is Status || m.stage is Progress || m.stage is Add || m.stage is Commit
            || m.stage is Reset || m.stage is Clean ==> (action matches RalphAction::Exec(spec)
            && spec.program@ == "git"@ && spec.timeout.secs == 60 && spec.timeout.nanos == 0),
        m.stage is Status ==> (action matches RalphAction::Exec(spec) && spec.args@.len() == 2
            && spec.args@[0]@ == "status"@ && spec.args@[1]@ == "--porcelain"@),
        m.stage is Progress ==> (action matches RalphAction::Exec(spec) && spec.args@.len() == 5
            && spec.args@[0]@ == "status"@ && spec.args@[1]@ == "--porcelain"@ && spec.args@[2]@
            == "--"@ && spec.args@[3]@ == "."@ && spec.args@[4]@ == ":(exclude)"@
            + m.config.notes_file@),
        m.stage is Add ==> (action matches RalphAction::Exec(spec) && spec.args@.len() == 2
            && spec.args@[0]@ == "add"@ && spec.args@[1]@ == "-A"@),
        m.stage is Commit ==> (action matches RalphAction::Exec(spec) && spec.args@.len() == 7
            && spec.args@[4]@ == "commit"@ && spec.args@[5]@ == "-m"@ && spec.args@[6]@
            == "ralph: iteration "@ + text::dec(m.iteration as nat) + " — "@
            + m.config.objective@),
        m.stage is Reset ==> (action matches RalphAction::Exec(spec) && spec.args@.len() == 3
            && spec.args@[0]@ == "reset"@ && spec.args@[1]@ == "--hard"@ && spec.args@[2]@
            == "HEAD"@),
        m.stage is Clean ==> (action matches RalphAction::Exec(spec) && spec.args@.len() == 2
            && spec.args@[0]@ == "clean"@ && spec.args@[1]@ == "-fd"@),
        m.stage is Stop ==> (action matches RalphAction::Exec(spec) && spec.program@
            == m.config.stop_command.program@ && spec.args@.len()
            == m.config.stop_command.args@.len() && (forall|i: int|
            0 <= i < spec.args@.len() ==> (#[trigger] spec.args@[i])@
                == m.config.stop_command.args@[i]@) && spec.timeout
            == m.config.stop_command_timeout),
        m.stage is Clock ==> action is ReadClock,
        m.stage is Done ==> action is Finish,
{
    if let RalphAction::Exec(spec) = action {
        let v = text::views(spec.args@);
        assert(v.len() == spec.args@.len());
        assert forall|i: int| 0 <= i < spec.args@.len() implies v[i] == #[trigger]
            spec.args@[i]@ by {}
        if m.stage is Stop {
            let w = text::views(m.config.stop_command.args@);
            assert(w.len() == m.config.stop_command.args@.len());
            assert forall|i: int| 0 <= i < spec.args@.len() implies (#[trigger] spec.args@[i])@
                == m.config.stop_command.args@[i]@ by {
                assert(v[i] == w[i]);
            }
        } else {
            assert(v[0] == spec.args@[0]@ && v[1] == spec.args@[1]@);
            if v.len() > 2 {
                assert(v[2] == spec.args@[2]@);
            }
            if v.len() > 4 {
                assert(v[3] == spec.args@[3]@ && v[4] == spec.args@[4]@);
            }
            if v.len() > 6 {
                assert(v[5] == spec.args@[5]@ && v[6] == spec.args@[6]@);
            }
        }
    }
}

/// A pass starts afresh: the inner loop is told the objective and the notes as they
/// are, and nothing is known of its pass but how it ended and what it took.
pub proof fn law_a_pass_starts_afresh<C>(
    a: RalphLoop<'_, C>,
    notes: String,
    b: RalphLoop<'_, C>,
    outcome: LoopOutcome,
    stats: RunStats,
    c: RalphLoop<'_, C>,
)
    requires
        a.wf(),
        a.stage is Notes,
        call_ensures(RalphLoop::<C>::step, (a, RalphEvent::Notes(notes)), b),
        call_ensures(RalphLoop::<C>::step, (b, RalphEvent::Inner(outcome, stats)), c),
    ensures
        b.stage matches Stage::Inner(task) && text::contains(task@, a.config.objective@)
            && text::contains(task@, notes@) && text::contains(task@, a.config.notes_file@),
        c.stage matches Stage::Status(p) && p.outcome == outcome && p.stats == stats
            && !p.committed && !p.commit_failed,
        c.iterations@ == a.iterations@,
        c.stuck == a.stuck,
        c.do_overs == a.do_overs,
        c.iteration == a.iteration,
{
    prompt::law_outer_prompts_hold_their_inputs(
        a.config.objective@,
        notes@,
        a.config.notes_file@,
    );
}

/// A report says what the loop came to, with all of its passes; there is none before
/// the loop is over.
pub proof fn law_a_report_holds_every_pass<C>(m: RalphLoop<'_, C>, r: Option<RalphReport>)
    requires
        call_ensures(RalphLoop::<C>::into_report, (m,), r),
    ensures
        r is Some <==> m.stage is Done,
        r matches Some(report) ==> report.iterations@ == m.iterations@ && report.objective@
            == m.config.objective@ && m.stage == Stage::Done(report.terminal),
{
}

/// What a process that ran a loop exits with: 0 only where the objective was met, 1
/// only for an error, and 20 for every limit.
pub proof fn law_what_a_loop_exits_with(t: RalphTerminal, r: i32)
    requires
        call_ensures(RalphTerminal::exit_code, (&t,), r),
    ensures
        r == 0 <==> t is StopConditionMet,
        r == 1 <==> t is Error,
        !(t is StopConditionMet) && !(t is Error) ==> r == 20,
{
}

/// Only a finish with `done` is kept.
pub proof fn law_only_a_finish_with_done_is_green(o: LoopOutcome, r: bool)
    requires
        call_ensures(LoopOutcome::is_green, (&o,), r),
    ensures
        r <==> (o matches LoopOutcome::Finished(Disposition::Done { .. })),
{
}

/// The iterations of a report are those of its passes, added up.
pub proof fn law_inner_iterations_add_up(
    passes: Seq<RalphIterationOutcome>,
    it: RalphIterationOutcome,
)
    ensures
        inner_total(Seq::empty()) == 0,
        inner_total(passes.push(it)) == inner_total(passes) + it.inner_stats.iterations,
{
    assert(passes.push(it).drop_last() =~= passes);
}

/// A loop starts with nothing behind it: no pass, no count, and the notes to be read
/// first; one that may make no pass is over at once.
pub proof fn law_a_loop_starts_with_nothing_behind_it<C>(
    config: &RalphConfig<C>,
    root: FilePath,
    start: UnixTime,
    m: RalphLoop<'_, C>,
)
    requires
        start.wf(),
        call_ensures(RalphLoop::<C>::new, (config, root, start), m),
    ensures
        m.wf(),
        m.iterations@.len() == 0,
        m.stuck == 0,
        m.do_overs == 0,
        m.iteration == 0,
        m.start == start,
        m.root@ == root@,
        m.config == config,
        config.max_outer_iterations > 0 ==> m.stage is Notes,
        config.max_outer_iterations == 0 ==> m.stage == Stage::Done(
            RalphTerminal::MaxIterationsExhausted,
        ),
{
}

} // verus!
