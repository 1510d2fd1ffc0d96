//! The tools themselves. Each one reads its input, says what has to be done
//! outside this crate, and makes a result of what came of that.
//!
//! [`standard_registry`] gathers the tools of a run that changes the workspace,
//! [`answer_registry`] those of one that only looks at it.
use vstd::prelude::*;

use crate::engine::{FinishTool, FINISH_TOOL_NAME};
use crate::exec::ChecksRunner;
use crate::json::{Json, JsonV};
use crate::tool::{Tool, ToolRegistry};
use crate::tools::bash::BashTool;
use crate::tools::edit_file::EditFileTool;
use crate::tools::list_files::ListFilesTool;
use crate::tools::read_file::{ReadFileTool, READ_FILE_TOOL_NAME};
use crate::tools::run_checks::RunChecksTool;

pub mod bash;
pub mod command;
pub mod edit_file;
pub mod list_files;
pub mod read_file;
pub mod run_checks;
pub mod run_command;

verus! {

/// One of the tools that a run can have.
#[derive(Debug, Clone)]
pub enum StandardTool {
    ReadFile(ReadFileTool),
    ListFiles(ListFilesTool),
    EditFile(EditFileTool),
    Bash(BashTool),
    Finish(FinishTool),
    RunChecks(RunChecksTool),
}

impl Tool for StandardTool {
    open spec fn name_view(&self) -> Seq<char> {
        match self {
            StandardTool::ReadFile(t) => t.name_view(),
            StandardTool::ListFiles(t) => t.name_view(),
            StandardTool::EditFile(t) => t.name_view(),
            StandardTool::Bash(t) => t.name_view(),
            StandardTool::Finish(t) => t.name_view(),
            StandardTool::RunChecks(t) => t.name_view(),
        }
    }

    open spec fn schema_view(&self) -> JsonV {
        match self {
            StandardTool::ReadFile(t) => t.schema_view(),
            StandardTool::ListFiles(t) => t.schema_view(),
            StandardTool::EditFile(t) => t.schema_view(),
            StandardTool::Bash(t) => t.schema_view(),
            StandardTool::Finish(t) => t.schema_view(),
            StandardTool::RunChecks(t) => t.schema_view(),
        }
    }

    fn name(&self) -> (r: &str) {
        match self {
            StandardTool::ReadFile(t) => t.name(),
            StandardTool::ListFiles(t) => t.name(),
            StandardTool::EditFile(t) => t.name(),
            StandardTool::Bash(t) => t.name(),
            StandardTool::Finish(t) => t.name(),
            StandardTool::RunChecks(t) => t.name(),
        }
    }

    fn schema(&self) -> (r: Json) {
        match self {
            StandardTool::ReadFile(t) => t.schema(),
            StandardTool::ListFiles(t) => t.schema(),
            StandardTool::EditFile(t) => t.schema(),
            StandardTool::Bash(t) => t.schema(),
            StandardTool::Finish(t) => t.schema(),
            StandardTool::RunChecks(t) => t.schema(),
        }
    }
}

/// The tool that a run has under a name, if any: `edit_file` only where it may
/// change the workspace, and `run_checks` only where there are checks.
pub open spec fn tool_for(
    checks: Option<ChecksRunner>,
    answer_mode: bool,
    name: Seq<char>,
) -> Option<StandardTool> {
    if name == READ_FILE_TOOL_NAME@ {
        Some(StandardTool::ReadFile(ReadFileTool))
    } else if name == "list_files"@ {
        Some(StandardTool::ListFiles(ListFilesTool))
    } else if name == "edit_file"@ {
        if answer_mode {
            None
        } else {
            Some(StandardTool::EditFile(EditFileTool))
        }
    } else if name == "bash"@ {
        Some(StandardTool::Bash(BashTool))
    } else if name == FINISH_TOOL_NAME@ {
        Some(StandardTool::Finish(FinishTool { answer_mode }))
    } else if name == "run_checks"@ {
        match checks {
            Some(runner) => Some(StandardTool::RunChecks(RunChecksTool { runner })),
            None => None,
        }
    } else {
        None
    }
}

/// The registry holds exactly the tools of such a run.
pub open spec fn equipped(
    r: ToolRegistry<StandardTool>,
    checks: Option<ChecksRunner>,
    answer_mode: bool,
) -> bool {
    &&& r.wf()
    &&& forall|n: Seq<char>|
        #![trigger r.has(n)]
        r.has(n) == tool_for(checks, answer_mode, n) is Some && (r.has(n) ==> Some(r.tool(n))
            == tool_for(checks, answer_mode, n))
}

/// The tools of a run that may change the workspace.
#[must_use]
pub fn standard_registry(checks: Option<ChecksRunner>) -> (r: ToolRegistry<StandardTool>)
    ensures
        equipped(r, checks, false),
{
    build_registry(checks, false)
}

/// The tools of a run that only answers a question: without `edit_file`, and
/// with the answer among the dispositions that finish offers.
#[must_use]
pub fn answer_registry(checks: Option<ChecksRunner>) -> (r: ToolRegistry<StandardTool>)
    ensures
        equipped(r, checks, true),
{
    build_registry(checks, true)
}

/// The tools of a run.
fn build_registry(checks: Option<ChecksRunner>, answer_mode: bool) -> (r: ToolRegistry<
    StandardTool,
>)
    ensures
        equipped(r, checks, answer_mode),
{
    proof {
        lemma_names_differ();
    }
    let mut registry: ToolRegistry<StandardTool> = ToolRegistry::new();
    registry.register(READ_FILE_TOOL_NAME.to_owned(), StandardTool::ReadFile(ReadFileTool));
    registry.register("list_files".to_owned(), StandardTool::ListFiles(ListFilesTool));
    if !answer_mode {
        registry.register("edit_file".to_owned(), StandardTool::EditFile(EditFileTool));
    }
    registry.register("bash".to_owned(), StandardTool::Bash(BashTool));
    registry.register(
        FINISH_TOOL_NAME.to_owned(),
        StandardTool::Finish(FinishTool { answer_mode }),
    );
    if let Some(runner) = checks {
        registry.register(
            "run_checks".to_owned(),
            StandardTool::RunChecks(RunChecksTool::new(runner)),
        );
    }
    registry
}

/// The tools' names are different.
proof fn lemma_names_differ()
    ensures
        READ_FILE_TOOL_NAME@ != "list_files"@,
        READ_FILE_TOOL_NAME@ != "edit_file"@,
        READ_FILE_TOOL_NAME@ != "bash"@,
        READ_FILE_TOOL_NAME@ != FINISH_TOOL_NAME@,
        READ_FILE_TOOL_NAME@ != "run_checks"@,
        "list_files"@ != "edit_file"@,
        "list_files"@ != "bash"@,
        "list_files"@ != FINISH_TOOL_NAME@,
        "list_files"@ != "run_checks"@,
        "edit_file"@ != "bash"@,
        "edit_file"@ != FINISH_TOOL_NAME@,
        "edit_file"@ != "run_checks"@,
        "bash"@ != FINISH_TOOL_NAME@,
        "bash"@ != "run_checks"@,
        FINISH_TOOL_NAME@ != "run_checks"@,
{
    reveal_strlit("read_file");
    reveal_strlit("list_files");
    reveal_strlit("edit_file");
    reveal_strlit("bash");
    reveal_strlit("finish");
    reveal_strlit("run_checks");
    assert("read_file"@[0] == 'r');
    assert("list_files"@[0] == 'l');
    assert("edit_file"@[0] == 'e');
    assert("bash"@[0] == 'b');
    assert("finish"@[0] == 'f');
    assert("run_checks"@.len() == 10);
    assert("read_file"@.len() == 9);
    assert("run_checks"@[0] == 'r');
}

/// Every tool of a run is registered under the name that it goes by.
pub proof fn law_tools_go_by_their_names(
    r: ToolRegistry<StandardTool>,
    checks: Option<ChecksRunner>,
    answer_mode: bool,
    name: Seq<char>,
)
    requires
        equipped(r, checks, answer_mode),
        r.has(name),
    ensures
        r.tool(name).name_view() == name,
{
}

/// A run that only answers a question has the same tools as one that may change
/// the workspace, but for two things: `edit_file` is missing, and finish offers
/// the answer.
pub proof fn law_answer_mode_changes_two_tools(
    standard: ToolRegistry<StandardTool>,
    answer: ToolRegistry<StandardTool>,
    checks: Option<ChecksRunner>,
    name: Seq<char>,
)
    requires
        equipped(standard, checks, false),
        equipped(answer, checks, true),
    ensures
        !answer.has("edit_file"@),
        name != "edit_file"@ ==> answer.has(name) == standard.has(name),
        name != "edit_file"@ && name != FINISH_TOOL_NAME@ && standard.has(name) ==> answer.tool(name)
            == standard.tool(name),
        answer.has(FINISH_TOOL_NAME@) && answer.tool(FINISH_TOOL_NAME@) == StandardTool::Finish(
            FinishTool { answer_mode: true },
        ),
        standard.has(FINISH_TOOL_NAME@) && standard.tool(FINISH_TOOL_NAME@) == StandardTool::Finish(
            FinishTool { answer_mode: false },
        ),
{
    lemma_names_differ();
    assert(standard.has(name) && name != "edit_file"@ ==> answer.has(name));
}

/// Which tools a run has: to read a file, to list files, to run a command line and to
/// finish; to edit a file unless it only answers a question; to run the checks if it
/// has any, and then those; and no others.
pub proof fn law_which_tools_a_run_has(
    standard: ToolRegistry<StandardTool>,
    answer: ToolRegistry<StandardTool>,
    checks: Option<ChecksRunner>,
    name: Seq<char>,
)
    requires
        call_ensures(standard_registry, (checks,), standard),
        call_ensures(answer_registry, (checks,), answer),
    ensures
        standard.has(name) <==> name == "read_file"@ || name == "list_files"@ || name
            == "edit_file"@ || name == "bash"@ || name == "finish"@ || (name == "run_checks"@
            && checks is Some),
        answer.has(name) <==> standard.has(name) && name != "edit_file"@,
        standard.has(name) ==> standard.tool(name).name_view() == name,
        answer.has(name) ==> answer.tool(name).name_view() == name,
        standard.tool("finish"@) == StandardTool::Finish(FinishTool { answer_mode: false }),
        answer.tool("finish"@) == StandardTool::Finish(FinishTool { answer_mode: true }),
        checks matches Some(runner) ==> standard.tool("run_checks"@) == StandardTool::RunChecks(
            RunChecksTool { runner },
        ) && answer.tool("run_checks"@) == standard.tool("run_checks"@),
{
    lemma_names_differ();
    assert(standard.has("finish"@) && answer.has("finish"@));
    assert(checks is Some ==> standard.has("run_checks"@) && answer.has("run_checks"@));
}

} // verus!
