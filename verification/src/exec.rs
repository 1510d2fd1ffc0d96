//! Child processes, as the harness asks for them and as they come back. The
//! processes themselves are run outside this crate.
use vstd::prelude::*;

use crate::path::FilePath;
use crate::time::Duration;

verus! {

/// A command line: a program and its arguments.
#[derive(Debug, Clone, PartialEq, Eq)]
pub struct CheckCommand {
    pub program: String,
    pub args: Vec<String>,
}

/// A command to run: where, and for how long at most.
#[derive(Debug, Clone, PartialEq, Eq)]
pub struct ExecSpec {
    pub program: String,
    pub args: Vec<String>,
    pub cwd: FilePath,
    pub timeout: Duration,
}

/// What running a command gave.
#[derive(Debug, Clone, PartialEq, Eq)]
pub struct ExecOutcome {
    /// The exit code; none where the command could not be started, or was
    /// ended by a signal or by the timeout.
    pub exit_code: Option<i32>,
    pub stdout: String,
    pub stderr: String,
    pub timed_out: bool,
}

/// The task's quality checks: the command, where it runs, and for how long.
#[derive(Debug, Clone, PartialEq, Eq)]
pub struct ChecksRunner {
    pub command: CheckCommand,
    pub cwd: FilePath,
    pub timeout: Duration,
}

impl ChecksRunner {
    /// Checks that run `command` in `cwd`.
    pub fn new(command: CheckCommand, cwd: FilePath, timeout: Duration) -> (r: ChecksRunner)
        ensures
            r.command == command,
            r.cwd == cwd,
            r.timeout == timeout,
    {
        ChecksRunner { command, cwd, timeout }
    }
}

/// What running the checks gave.
#[derive(Debug, Clone, PartialEq, Eq)]
pub struct CheckReport {
    pub passed: bool,
    pub exit_code: Option<i32>,
    pub timed_out: bool,
    /// How long the checks took.
    pub duration: Duration,
    /// A bounded part of the output.
    pub excerpt: String,
    /// Where the whole output lies, if it was put on disk.
    pub offload_path: Option<FilePath>,
}

} // verus!
