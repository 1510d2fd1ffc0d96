//! A groomed task, as a dispatcher hands it over. Every field is required.
use vstd::prelude::*;

verus! {

/// A task: what to do, how to tell that it is done, and where to look.
#[derive(Debug, Clone, PartialEq, Eq)]
pub struct TaskSpec {
    pub title: String,
    pub description: String,
    pub acceptance_criteria: Vec<String>,
    pub files_to_modify: Vec<FileToModify>,
    /// The shell command that tells whether the task is done.
    pub gate_command: String,
}

/// A file of a task, and what to change in it.
#[derive(Debug, Clone, PartialEq, Eq)]
pub struct FileToModify {
    pub path: String,
    pub change: String,
}

} // verus!
