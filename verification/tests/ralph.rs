use harness::engine::{LoopOutcome, RunStats};
use harness::exec::{CheckCommand, ChecksRunner, ExecOutcome, ExecSpec};
use harness::model::{BackendError, TerminalKind};
use harness::path::FilePath;
use harness::ralph::{
    RalphAction, RalphConfig, RalphEvent, RalphLoop, RalphReport, RalphTerminal, DEFAULT_STUCK_K,
};
use harness::run_record::{Disposition, Verification};
use harness::time::{Clock, Duration, FakeClock, UnixTime};

/// What one inner pass leaves in the work tree.
#[derive(Clone, Copy, PartialEq)]
enum Left {
    Nothing,
    Notes,
    Files,
}

/// How one inner pass ends.
#[derive(Clone, Copy)]
enum End {
    Done,
    Stopped,
    BackendError,
}

/// A work tree with a history, and the passes that an agent will make.
struct World {
    passes: Vec<(Left, End)>,
    tree: Left,
    commits: usize,
    messages: Vec<String>,
    tasks: Vec<String>,
    commands: Vec<String>,
    notes: String,
    stop_at_commits: Option<usize>,
    stop_outcome: Option<ExecOutcome>,
    hook_rejects: bool,
    broken: Option<&'static str>,
    clock: FakeClock,
    advance: u64,
}

fn exited(code: Option<i32>, stdout: &str, stderr: &str) -> ExecOutcome {
    ExecOutcome {
        exit_code: code,
        stdout: stdout.to_string(),
        stderr: stderr.to_string(),
        timed_out: false,
    }
}

impl World {
    fn new(passes: Vec<(Left, End)>) -> World {
        World {
            passes,
            tree: Left::Nothing,
            commits: 0,
            messages: Vec::new(),
            tasks: Vec::new(),
            commands: Vec::new(),
            notes: String::new(),
            stop_at_commits: None,
            stop_outcome: None,
            hook_rejects: false,
            broken: None,
            clock: FakeClock::new(UnixTime::epoch()),
            advance: 0,
        }
    }

    fn stop_at(mut self, commits: usize) -> World {
        self.stop_at_commits = Some(commits);
        self
    }

    fn inner(&mut self, task: String) -> RalphEvent {
        self.tasks.push(task);
        self.clock.advance(Duration::from_secs(self.advance));
        let (left, end) = self.passes.remove(0);
        self.tree = left;
        let outcome = match end {
            End::Done => LoopOutcome::Finished(Disposition::Done {
                summary: "done".to_string(),
                verification: Verification::NoChecksConfigured,
            }),
            End::Stopped => LoopOutcome::StoppedWithoutFinish,
            End::BackendError => LoopOutcome::BackendError(BackendError::Terminal {
                kind: TerminalKind::Other,
                message: "boom".to_string(),
            }),
        };
        RalphEvent::Inner(outcome, RunStats { iterations: 2 })
    }

    fn exec(&mut self, spec: &ExecSpec) -> ExecOutcome {
        let line = format!("{} {}", spec.program, spec.args.join(" "));
        self.commands.push(line.clone());
        assert_eq!(spec.cwd, FilePath::from_text("/work"));
        if self.broken.is_some_and(|b| line.starts_with(b)) {
            return exited(Some(128), "", " fatal: broken \n");
        }
        if spec.program != "git" {
            if let Some(outcome) = &self.stop_outcome {
                return outcome.clone();
            }
            let met = self.stop_at_commits.is_some_and(|n| self.commits >= n);
            return exited(Some(if met { 0 } else { 1 }), "", "");
        }
        assert_eq!(spec.timeout, Duration::from_secs(60));
        match spec.args[0].as_str() {
            "status" => {
                let outside_notes = spec.args.len() > 2;
                let dirty = match self.tree {
                    Left::Nothing => false,
                    Left::Notes => !outside_notes,
                    Left::Files => true,
                };
                exited(Some(0), if dirty { "?? f\n" } else { "\n" }, "")
            }
            "add" => exited(Some(0), "", ""),
            "-c" => {
                if self.hook_rejects {
                    return exited(Some(1), "", "hook");
                }
                self.commits += 1;
                self.messages.push(spec.args[6].clone());
                self.tree = Left::Nothing;
                exited(Some(0), "", "")
            }
            "reset" => exited(Some(0), "", ""),
            "clean" => {
                self.tree = Left::Nothing;
                exited(Some(0), "", "")
            }
            other => panic!("unknown git command: {other}"),
        }
    }

    fn run<C>(&mut self, config: &RalphConfig<C>) -> RalphReport {
        let start = self.clock.now();
        let mut ralph = RalphLoop::new(config, FilePath::from_text("/work"), start);
        loop {
            let event = match ralph.next_action() {
                RalphAction::ReadNotes(path) => {
                    assert_eq!(path, config.notes_file);
                    RalphEvent::Notes(self.notes.clone())
                }
                RalphAction::RunInner(task, max) => {
                    assert_eq!(max, config.inner_max_iterations);
                    self.inner(task)
                }
                RalphAction::Exec(spec) => RalphEvent::Exec(self.exec(&spec)),
                RalphAction::ReadClock => RalphEvent::Clock(self.clock.now()),
                RalphAction::Finish => break,
            };
            ralph = ralph.step(event);
        }
        ralph.into_report().expect("a loop that has finished has a report")
    }
}

fn stop_command() -> CheckCommand {
    CheckCommand {
        program: "/bin/sh".to_string(),
        args: vec!["-c".to_string(), "test".to_string()],
    }
}

fn config(objective: &str, max_outer: u32) -> RalphConfig {
    RalphConfig::new(objective.to_string(), stop_command(), max_outer, 4)
}

#[test]
fn happy_path_edits_finish_and_stops_when_target_commits_exist() {
    let mut world = World::new(vec![(Left::Files, End::Done); 2]).stop_at(2);
    let report = world.run(&config("happy-path-objective", 5));
    assert_eq!(report.terminal, RalphTerminal::StopConditionMet);
    assert_eq!(report.outer_iterations(), 2);
    assert_eq!(world.commits, 2);
    for (n, it) in report.iterations.iter().enumerate() {
        assert!(it.made_changes, "iteration {n} must report made_changes");
        assert!(it.committed, "iteration {n} must report committed");
        assert!(matches!(
            it.inner_outcome,
            LoopOutcome::Finished(Disposition::Done { .. })
        ));
    }
    assert_eq!(report.total_inner_iterations(), 4);
    assert_eq!(
        world.messages,
        vec![
            "ralph: iteration 0 — happy-path-objective",
            "ralph: iteration 1 — happy-path-objective",
        ]
    );
    assert_eq!(
        world.commands[..5],
        [
            "git status --porcelain",
            "git status --porcelain -- . :(exclude)PROGRESS.md",
            "git add -A",
            "git -c user.name=talos-ralph -c user.email=talos-ralph@localhost commit -m ralph: iteration 0 — happy-path-objective",
            "/bin/sh -c test",
        ]
    );
}

#[test]
fn fresh_context_proven_across_iterations() {
    let mut world = World::new(vec![(Left::Files, End::Done); 2]).stop_at(2);
    let report = world.run(&config("FRESH_CONTEXT_SENTINEL", 5));
    assert_eq!(report.terminal, RalphTerminal::StopConditionMet);
    assert_eq!(report.outer_iterations(), 2);
    assert_eq!(world.tasks.len(), 2);
    assert!(world.tasks[1].contains("FRESH_CONTEXT_SENTINEL"));
    assert_eq!(world.tasks[0], world.tasks[1]);
}

#[test]
fn max_iterations_exhausted_when_stop_never_met() {
    let mut world = World::new(vec![(Left::Files, End::Done); 3]);
    let report = world.run(&config("max-iter-objective", 3));
    assert_eq!(report.terminal, RalphTerminal::MaxIterationsExhausted);
    assert_eq!(report.outer_iterations(), 3);
}

#[test]
fn stuck_inert_when_agent_never_edits() {
    let mut world = World::new(vec![(Left::Nothing, End::Done); 4]);
    let report = world.run(&config("stuck-inert-objective", 10).with_stuck_k(3));
    assert_eq!(report.terminal, RalphTerminal::Stuck);
    assert_eq!(report.outer_iterations(), DEFAULT_STUCK_K);
    for it in &report.iterations {
        assert!(!it.made_changes, "inert pass must report no changes");
        assert!(!it.committed, "inert pass must not commit");
    }
}

#[test]
fn stuck_notes_only_commits_but_still_counts_toward_stuck() {
    let mut world = World::new(vec![(Left::Notes, End::Done); 3]);
    let report = world.run(&config("stuck-notes-objective", 10).with_stuck_k(3));
    assert_eq!(report.terminal, RalphTerminal::Stuck);
    assert_eq!(report.outer_iterations(), 3, "Stuck after stuck_k passes");
    for it in &report.iterations {
        assert!(it.made_changes, "notes-only pass must report made_changes");
        assert!(it.committed, "notes-only pass must commit the journal");
    }
    assert_eq!(world.commits, 3);
}

#[test]
fn inner_gate_green_while_stop_command_nonzero_continues() {
    let runner = ChecksRunner::new(
        CheckCommand {
            program: "/bin/sh".to_string(),
            args: vec!["-c".to_string(), "exit 0".to_string()],
        },
        FilePath::from_text("/work"),
        Duration::from_secs(10),
    );
    let mut world = World::new(vec![(Left::Files, End::Done); 2]);
    let report = world.run(&config("two-command-objective", 2).with_inner_checks(runner));
    assert_eq!(report.outer_iterations(), 2);
    for it in &report.iterations {
        assert!(it.inner_outcome.is_green());
    }
    assert_eq!(report.terminal, RalphTerminal::MaxIterationsExhausted);
}

#[test]
fn time_budget_exhausted_when_clock_advances_past_budget() {
    let mut world = World::new(vec![(Left::Nothing, End::Done); 10]);
    world.advance = 5;
    let config = config("time-budget-objective", 10)
        .with_stuck_k(100)
        .with_wall_clock_secs(3)
        .with_clock(FakeClock::new(UnixTime::epoch()));
    let report = world.run(&config);
    assert_eq!(report.terminal, RalphTerminal::TimeBudgetExhausted);
    assert_eq!(report.outer_iterations(), 1);
}

#[test]
fn the_time_budget_is_looked_at_between_passes() {
    let mut world = World::new(vec![(Left::Files, End::Done); 10]);
    world.advance = 5;
    let report = world.run(&config("o", 10).with_wall_clock_secs(15));
    assert_eq!(report.terminal, RalphTerminal::TimeBudgetExhausted);
    assert_eq!(report.outer_iterations(), 3);
    let mut world = World::new(vec![(Left::Files, End::Done); 10]);
    world.advance = 5;
    let report = world.run(&config("o", 3).with_wall_clock_secs(15));
    assert_eq!(report.terminal, RalphTerminal::MaxIterationsExhausted);
}

#[test]
fn error_stop_command_spawn_failure_does_not_append_iteration() {
    let mut world = World::new(vec![(Left::Files, End::Done)]);
    world.stop_outcome = Some(exited(None, "", " No such file \n"));
    let report = world.run(&config("error-spawn-objective", 5));
    assert_eq!(
        report.terminal,
        RalphTerminal::Error("stop_command failed to spawn: No such file".to_string())
    );
    assert!(report.iterations.is_empty());
}

#[test]
fn error_git_status_nonzero_when_root_is_not_a_work_tree() {
    let mut world = World::new(vec![(Left::Nothing, End::Done)]);
    world.broken = Some("git status");
    let report = world.run(&config("error-status-objective", 5));
    assert!(
        matches!(report.terminal, RalphTerminal::Error(ref e) if e.contains("git status")),
        "terminal must be a git-status Error; got {:?}",
        report.terminal
    );
    assert_eq!(
        report.terminal,
        RalphTerminal::Error("git status exited Some(128): fatal: broken".to_string())
    );
    assert!(report.iterations.is_empty());
}

#[test]
fn error_git_add_fails_via_stale_index_lock() {
    let mut world = World::new(vec![(Left::Files, End::Done)]);
    world.broken = Some("git add");
    let report = world.run(&config("error-add-objective", 5));
    assert!(
        matches!(report.terminal, RalphTerminal::Error(ref e) if e.contains("git add")),
        "terminal must be a git-add Error; got {:?}",
        report.terminal
    );
    assert!(report.iterations.is_empty());
}

#[test]
fn error_git_commit_fails_via_failing_pre_commit_hook() {
    let mut world = World::new(vec![(Left::Files, End::Done); 3]);
    world.hook_rejects = true;
    let report = world.run(&config("error-commit-objective", 5));
    assert!(matches!(report.terminal, RalphTerminal::DoOversExhausted));
    assert_eq!(report.outer_iterations(), 3);
    assert_eq!(world.commits, 0);
    assert!(report.iterations.iter().all(|it| !it.committed));
}

#[test]
fn non_green_reverts_does_not_commit_and_removes_untracked_file() {
    let mut world = World::new(vec![(Left::Files, End::Stopped)]);
    let report = world.run(&config("revert-objective", 1));
    assert_eq!(report.terminal, RalphTerminal::MaxIterationsExhausted);
    assert_eq!(report.outer_iterations(), 1, "exactly one outer iteration");
    assert!(!report.iterations[0].committed);
    assert_eq!(world.commits, 0);
    assert!(world.tree == Left::Nothing, "the tree is put back");
    assert_eq!(
        world.commands[2..4],
        ["git reset --hard HEAD", "git clean -fd"]
    );
}

#[test]
fn three_consecutive_non_green_exhausts_do_overs() {
    let mut world = World::new(vec![(Left::Files, End::Stopped); 3]);
    let report = world.run(&config("doover-objective", 10).with_max_do_overs(3));
    assert!(matches!(report.terminal, RalphTerminal::DoOversExhausted));
    assert_eq!(report.outer_iterations(), 3);
}

#[test]
fn a_pass_that_stops_on_a_clean_tree_is_no_do_over() {
    let mut world = World::new(vec![(Left::Nothing, End::Stopped)]);
    let report = world.run(&config("o", 1).with_max_do_overs(1));
    assert_eq!(report.terminal, RalphTerminal::MaxIterationsExhausted);
    assert_eq!(report.outer_iterations(), 1);
    let mut world = World::new(vec![
        (Left::Files, End::Stopped),
        (Left::Nothing, End::Stopped),
        (Left::Nothing, End::Stopped),
        (Left::Files, End::Stopped),
    ]);
    let report = world.run(&config("o", 10).with_max_do_overs(2));
    assert_eq!(report.terminal, RalphTerminal::DoOversExhausted);
    assert_eq!(report.outer_iterations(), 4);
}

#[test]
fn green_commit_between_failures_resets_do_over_counter() {
    let failed = (Left::Files, End::Stopped);
    let mut world = World::new(vec![
        failed,
        failed,
        (Left::Files, End::Done),
        failed,
        failed,
        failed,
    ]);
    let report = world.run(&config("reset-objective", 10).with_max_do_overs(3));
    assert!(matches!(report.terminal, RalphTerminal::DoOversExhausted));
    assert_eq!(report.outer_iterations(), 6);
    assert_eq!(world.commits, 1);
}

#[test]
fn revert_command_failure_returns_error_before_append() {
    let mut world = World::new(vec![(Left::Files, End::Stopped)]);
    world.broken = Some("git reset");
    let report = world.run(&config("revert-error-objective", 5));
    assert!(
        matches!(report.terminal, RalphTerminal::Error(ref e) if e.contains("git reset")),
        "terminal must be a git-reset Error; got {:?}",
        report.terminal
    );
    assert!(report.iterations.is_empty());
}

#[test]
fn every_command_that_fails_is_named() {
    for (broken, left, end, label) in [
        ("git status --porcelain --", Left::Files, End::Done, "git status (progress signal)"),
        ("git clean", Left::Files, End::Stopped, "git clean -fd"),
    ] {
        let mut world = World::new(vec![(left, end)]);
        world.broken = Some(broken);
        let report = world.run(&config("o", 5));
        assert_eq!(
            report.terminal,
            RalphTerminal::Error(format!("{label} exited Some(128): fatal: broken"))
        );
        assert!(report.iterations.is_empty());
    }
}

#[test]
fn stop_command_timeout_falls_through_not_error() {
    let mut world = World::new(vec![(Left::Nothing, End::Done); 2]);
    world.stop_outcome = Some(ExecOutcome {
        exit_code: None,
        stdout: String::new(),
        stderr: String::new(),
        timed_out: true,
    });
    let config = config("timeout-objective", 2)
        .with_stuck_k(100)
        .with_stop_command_timeout(Duration {
            secs: 0,
            nanos: 200_000_000,
        });
    let report = world.run(&config);
    assert_eq!(report.terminal, RalphTerminal::MaxIterationsExhausted);
    assert_eq!(report.outer_iterations(), 2);
}

#[test]
fn missing_notes_file_yields_empty_string_no_panic() {
    let mut world = World::new(vec![(Left::Files, End::Done)]).stop_at(1);
    let report = world.run(&config("missing-notes-objective", 5));
    assert_eq!(report.terminal, RalphTerminal::StopConditionMet);
    assert_eq!(report.outer_iterations(), 1);
    assert!(world.tasks[0].contains("missing-notes-objective"));
}

#[test]
fn notes_go_into_the_next_prompt() {
    let mut world = World::new(vec![(Left::Files, End::Done)]);
    world.notes = "NOTES_SENTINEL".to_string();
    world.run(&config("o", 1).with_notes_file("JOURNAL.md".to_string()));
    assert!(world.tasks[0].contains("NOTES_SENTINEL"));
    assert!(world.tasks[0].contains("JOURNAL.md"));
    assert_eq!(
        world.commands[1],
        "git status --porcelain -- . :(exclude)JOURNAL.md"
    );
}

#[test]
fn max_outer_iterations_zero_yields_max_iterations_with_no_passes() {
    let mut world = World::new(vec![]);
    let report = world.run(&config("zero-objective", 0));
    assert_eq!(report.terminal, RalphTerminal::MaxIterationsExhausted);
    assert_eq!(report.outer_iterations(), 0);
}

#[test]
fn inner_backend_error_is_recorded_and_loop_continues() {
    let mut world = World::new(vec![(Left::Nothing, End::BackendError); 2]);
    let report = world.run(&config("backend-error-objective", 2).with_stuck_k(100));
    assert_eq!(report.terminal, RalphTerminal::MaxIterationsExhausted);
    assert_eq!(report.outer_iterations(), 2);
    for it in &report.iterations {
        assert!(matches!(it.inner_outcome, LoopOutcome::BackendError(_)));
        assert!(!it.committed, "a BackendError pass makes no changes");
    }
}

#[test]
fn backend_errors_are_put_back_and_not_counted() {
    let mut world = World::new(vec![(Left::Files, End::BackendError); 5]);
    let report = world.run(&config("o", 5).with_max_do_overs(1));
    assert_eq!(report.terminal, RalphTerminal::MaxIterationsExhausted);
    assert_eq!(world.commits, 0);
    assert!(world.tree == Left::Nothing);
}

#[test]
fn a_met_objective_wins_over_the_limits() {
    let mut world = World::new(vec![(Left::Files, End::Stopped)]);
    world.stop_outcome = Some(exited(Some(0), "", ""));
    let report = world.run(&config("o", 1).with_max_do_overs(1).with_stuck_k(0));
    assert_eq!(report.terminal, RalphTerminal::StopConditionMet);
    assert_eq!(report.outer_iterations(), 1);
}

#[test]
fn exit_codes_follow_the_terminal() {
    assert_eq!(RalphTerminal::StopConditionMet.exit_code(), 0);
    assert_eq!(RalphTerminal::Error("e".to_string()).exit_code(), 1);
    for limit in [
        RalphTerminal::MaxIterationsExhausted,
        RalphTerminal::Stuck,
        RalphTerminal::TimeBudgetExhausted,
        RalphTerminal::DoOversExhausted,
    ] {
        assert_eq!(limit.exit_code(), 20);
    }
}

#[test]
fn ralph_types_derive_as_pinned() {
    let terminal = RalphTerminal::StopConditionMet;
    assert_eq!(terminal, RalphTerminal::StopConditionMet);
    let _ = format!("{terminal:?}");
    let err = RalphTerminal::Error("e".to_string());
    assert_eq!(err, RalphTerminal::Error("e".to_string()));
    let _ = terminal.clone();

    let config = RalphConfig::new("o".to_string(), stop_command(), 1, 1);
    let _cloned: RalphConfig = config.clone();
    let _ = format!("{config:?}");
}

#[test]
fn ralph_report_accessors_on_empty() {
    let report = RalphReport {
        objective: "o".to_string(),
        terminal: RalphTerminal::MaxIterationsExhausted,
        iterations: vec![],
    };
    assert_eq!(report.outer_iterations(), 0);
    assert_eq!(report.total_inner_iterations(), 0);
}

#[test]
fn the_defaults_of_a_configuration() {
    let config = config("o", 7);
    assert_eq!(config.notes_file, "PROGRESS.md");
    assert_eq!(config.stuck_k, 3);
    assert_eq!(config.max_do_overs, 3);
    assert_eq!(config.wall_clock_secs, 0);
    assert_eq!(config.stop_command_timeout, Duration::from_secs(300));
    assert_eq!(config.max_outer_iterations, 7);
    assert_eq!(config.inner_max_iterations, 4);
    assert!(config.inner_checks.is_none());
}
