//! The prompts. Rendering only puts texts one after the other: nothing is
//! escaped, and the same inputs give the same text.
use vstd::prelude::*;

use crate::json;
use crate::json::JsonV;
use crate::task_spec::{FileToModify, TaskSpec};
use crate::text;
use crate::tool::{Tool, ToolRegistry};

verus! {

/// The system prompt, up to the tools.
pub const SYSTEM_HEAD: &'static str = "# Role\n\
\n\
You are an autonomous coding agent operating inside a confined workspace.\n\
Every path you emit or resolve is workspace-relative — the workspace root is\n\
your world, and there is no filesystem outside it that you should touch.\n\
\n\
# Tools available\n\
\n\
";

/// The verification contract of a run with checks, up to the command.
pub const SYSTEM_CHECKS_HEAD: &'static str = "\n\
# Verification contract\n\
\n\
This run has quality checks configured:\n\
\n\
\x20   ";

/// The verification contract of a run with checks, from the command on.
pub const SYSTEM_CHECKS_TAIL: &'static str = "\n\
\n\
Run them with the `run_checks` tool. When you finish with `done`, the harness\n\
re-runs these exact checks itself: a claim is accepted only once it has been\n\
verified. If they fail, the finish is REJECTED, the failure is fed back to you,\n\
and the run goes on. A `done` whose working tree is unchanged since the run\n\
started is rejected too.\n\
";

/// The verification contract of a run without checks.
pub const SYSTEM_NO_CHECKS: &'static str = "\n\
# Verification contract\n\
\n\
No checks are configured for this run, so nothing mechanical backs a claim of\n\
`done`: review your own change before you finish. A `done` whose\n\
working tree is unchanged since the run started is rejected, and the run goes\n\
on.\n\
";

/// The rest of the system prompt.
pub const SYSTEM_TAIL: &'static str = "\n\
# Workflow\n\
\n\
Orient before you edit: list and read enough of the workspace to understand\n\
the task in context. Make the smallest change that does what the task asks,\n\
and look at the result before you finish.\n\
\n\
The harness owns version control for this run. Do not run `git add`,\n\
`git commit` or `git push`: leave your changes uncommitted in the working tree\n\
and they are picked up from there.\n\
\n\
# Steering semantics\n\
\n\
Tool results that come back with `is_error: true` are recoverable guidance,\n\
not fatal errors. Read the message, adjust your approach, and try again.\n\
\n\
Long tool outputs are truncated in your view. When a result advertises a\n\
full-output path, read the untruncated contents with `read_file` on that path.\n\
\n\
# Disposition guidance\n\
\n\
- `done` — the task is complete. Summarize what you changed.\n\
- `already_satisfied` — nothing needed changing: the workspace already met the\n\
\x20 task before you started. Give the `reason`.\n\
- `blocked` — the task or the environment is the problem: the same run cannot\n\
\x20 succeed until a human makes a decision. State which decision.\n\
- `failed` — the attempt is the problem, and a fresh attempt might succeed.\n\
\x20 Summarize what went wrong.";

/// The heading over a task.
pub const TASK_HEAD: &'static str = "# Task\n\
\n\
";

/// What stands between the description and the criteria.
pub const TASK_CRITERIA_HEAD: &'static str = "\n\
\n\
## Acceptance Criteria\n\
\n\
";

/// What stands between the criteria and the files.
pub const TASK_FILES_HEAD: &'static str = "\n\
## Files to Modify\n\
\n\
The paths listed below are starting points for navigation — they are a map, not\n\
a complete inventory. Use the bash tool (e.g., `grep`, `find`) to locate code\n\
within and around these files. Edit exactly what the task requires and no more;\n\
prefer edit_file for mutations (its unique-match contract is safer than sed -i).\n\
\n\
";

/// The test-first guidance.
pub const TEST_FIRST_APPROACH: &'static str = "## Approach\n\
\n\
Write a test that captures the acceptance criteria FIRST, before you change any\n\
other code, and run it. Confirm it fails, and that it fails for the reason you\n\
expect — a test that passes before you have implemented anything is testing\n\
nothing. Then implement until it passes.\n\
\n\
If the task genuinely has no test-shaped outcome (a pure refactor, a dependency\n\
bump, a docs or config change), state that in one line and go straight to the\n\
change.";

/// The verification section, up to the command.
pub const VERIFICATION_HEAD: &'static str = "## Verification\n\
\n\
Run the following command to verify the task is complete:\n\
\n\
\x20   ";

/// The verification section, from the command on.
pub const VERIFICATION_TAIL: &'static str = "\n\
\n\
Once your new test passes and this command is green, call finish(done) immediately.\n\
Note that this command may already be green before you start — a green gate on\n\
untouched code means you have not begun, not that you are done.\n\
Do not re-verify individual acceptance criteria with extra reads or commands\n\
after a passing check — the passing check IS the verification, and every\n\
additional step spends your iteration budget without adding evidence.";

/// The heading over the objective of an outer pass.
pub const RALPH_HEAD: &'static str = "## Objective\n\
\n\
";

/// The heading over the notes of earlier passes.
pub const RALPH_NOTES_HEAD: &'static str = "\n\
\n\
## Progress notes so far\n\
\n\
";

/// How an outer pass works, up to the name of the notes file.
pub const RALPH_RULES: &'static str = "\n\
\n\
## How to work this pass\n\
\n\
You start with a fresh context: what earlier passes did is in the workspace,\n\
in its git history and in the notes above, and nowhere else. Look at them\n\
first. Then do one thing — not one thing plus a quick refactor — that brings\n\
the objective closer, and make sure that it holds.\n\
\n\
Before you finish, append what you did, what you learned and what comes next\n\
to `";

/// How an outer pass works, from the name of the notes file on.
pub const RALPH_TAIL: &'static str = "`. The next pass reads that file; leave what is already\n\
in it as it stands.";

/// The nudge to finish.
pub const NUDGE: &'static str = "The quality gates are currently green. If the acceptance criteria are met, call `finish(done)` now. If nothing needed changing because the task was already complete, call `finish(already_satisfied)` with a `reason`. If they are not yet met, reply with a one-sentence status: what remains, and why you are still working.";

/// The heading over the question.
pub const ANSWER_QUESTION_HEAD: &'static str = "## Question\n\
\n\
";

/// The heading over the result schema, and the opening of its fence.
pub const ANSWER_SCHEMA_HEAD: &'static str = "\n\
\n\
## Result schema\n\
\n\
```json\n\
";

/// The closing of the fence, and the rules of an answer.
pub const ANSWER_RULES: &'static str = "\n\
```\n\
\n\
## Rules\n\
\n\
- You are answering a question about the workspace. The answer is data, not a\n\
\x20 change.\n\
- You must not modify the workspace. A tree that differs from what it was when\n\
\x20 the run started makes the answer unacceptable.\n\
- End the run with finish(answer), and supply a `result` that matches the schema\n\
\x20 shown above.";

/// The answer-mode system prompt, up to the tools.
pub const ANSWER_SYSTEM_HEAD: &'static str = "# Role\n\
\n\
You are an autonomous read-only analyst operating inside a confined\n\
workspace. Every path you emit or resolve is workspace-relative — the\n\
workspace root is your world, and there is no filesystem outside it that you\n\
should touch. Your deliverable is DATA, not a change: you investigate the\n\
workspace and report a structured result.\n\
\n\
# Tools available\n\
\n\
";

/// The answer-mode system prompt, from the tools on.
pub const ANSWER_SYSTEM_TAIL: &'static str = "\n\
# Read-only contract\n\
\n\
This run must not modify the workspace. The harness observed the working tree\n\
before your first turn and observes it again when you finish: an accepted\n\
answer REQUIRES the tree to be unchanged since the run started. A modified\n\
tree is rejected and fed back to you — revert your edits (restore tracked\n\
files, delete files you created) and finish again.\n\
\n\
That constraint is on the WORKSPACE, not on your thinking. Read, list, search\n\
and run read-only shell commands freely. Do not write, move, or delete files,\n\
and do not run commands that mutate the tree or its git state.\n\
\n\
# Workflow\n\
\n\
Orient before you conclude. List and read enough of the workspace to ground\n\
the answer in what is actually there, and prefer citing a file and line you\n\
read over recalling something you did not. Then assemble the result payload\n\
the task's result schema describes, and finish.\n\
\n\
# Steering semantics\n\
\n\
Tool results that come back with `is_error: true` are recoverable guidance,\n\
not fatal errors. Read the message carefully, adjust your approach, and try\n\
again. Do not give up because a single tool call returned an error.\n\
\n\
Long tool outputs are truncated in your view. When a result advertises a\n\
full-output path (for example, \"full output at <path>\"), you can read the\n\
untruncated contents via `read_file` on that path when the inline slice is\n\
not enough.\n\
\n\
# Disposition guidance\n\
\n\
This run accepts exactly three terminal dispositions:\n\
\n\
- `answer` — you investigated the question and have the deliverable. Supply a\n\
\x20 `result` that conforms to the run's configured result schema; the harness\n\
\x20 validates it and feeds any validation errors back to you rather than\n\
\x20 terminating the run. The working tree must be unchanged since the run\n\
\x20 started.\n\
- `blocked` — the question or the environment is the problem: retrying the\n\
\x20 same run unchanged is guaranteed not to produce an answer until a human\n\
\x20 makes a decision. State exactly what decision is needed.\n\
- `failed` — the attempt is the problem: something in how *this* run went\n\
\x20 wrong, and a fresh attempt might succeed. Summarize what went wrong.";

/// One line of a tool listing: a tool's name and what it is for.
#[derive(Debug, Clone, PartialEq, Eq)]
pub struct ToolLine {
    pub name: String,
    /// Empty where the tool's schema has no description.
    pub description: String,
}

// ---------------------------------------------------------------------------
// What the prompts are
// ---------------------------------------------------------------------------

/// The tool listing: one line `- name — description` for each tool.
pub open spec fn tool_list(tools: Seq<ToolLine>) -> Seq<char>
    decreases tools.len(),
{
    if tools.len() == 0 {
        Seq::empty()
    } else {
        tool_list(tools.drop_last()) + "- "@ + tools.last().name@ + " — "@
            + tools.last().description@ + "\n"@
    }
}

/// The criteria: one line `- criterion` for each.
pub open spec fn criteria_list(criteria: Seq<Seq<char>>) -> Seq<char>
    decreases criteria.len(),
{
    if criteria.len() == 0 {
        Seq::empty()
    } else {
        criteria_list(criteria.drop_last()) + "- "@ + criteria.last() + "\n"@
    }
}

/// The files: one line naming the path and the change for each.
pub open spec fn file_list(files: Seq<FileToModify>) -> Seq<char>
    decreases files.len(),
{
    if files.len() == 0 {
        Seq::empty()
    } else {
        file_list(files.drop_last()) + "- `"@ + files.last().path@ + "`: "@ + files.last().change@
            + "\n"@
    }
}

/// The system prompt of a run with the given tools and check command.
pub open spec fn system_prompt(tools: Seq<ToolLine>, check: Option<Seq<char>>) -> Seq<char> {
    SYSTEM_HEAD@ + tool_list(tools) + (match check {
        Some(c) => SYSTEM_CHECKS_HEAD@ + c + SYSTEM_CHECKS_TAIL@,
        None => SYSTEM_NO_CHECKS@,
    }) + SYSTEM_TAIL@
}

/// The verification section for a gate command.
pub open spec fn verification_section(gate: Seq<char>) -> Seq<char> {
    VERIFICATION_HEAD@ + gate + VERIFICATION_TAIL@
}

/// The part of a task prompt before the approach.
pub open spec fn task_spec_front(spec: TaskSpec) -> Seq<char> {
    "## "@ + spec.title@ + "\n\n"@ + spec.description@ + TASK_CRITERIA_HEAD@ + criteria_list(
        text::views(spec.acceptance_criteria@),
    ) + TASK_FILES_HEAD@ + file_list(spec.files_to_modify@) + "\n"@
}

/// The part of a task prompt after the approach.
pub open spec fn task_spec_back(spec: TaskSpec) -> Seq<char> {
    "\n"@ + verification_section(spec.gate_command@)
}

/// The task prompt of a groomed task, with or without the test-first guidance.
pub open spec fn task_spec_prompt(spec: TaskSpec, test_first: bool) -> Seq<char> {
    task_spec_front(spec) + (if test_first {
        TEST_FIRST_APPROACH@
    } else {
        Seq::empty()
    }) + task_spec_back(spec)
}

/// The prompt of one outer pass.
pub open spec fn ralph_prompt(
    objective: Seq<char>,
    notes: Seq<char>,
    notes_file: Seq<char>,
) -> Seq<char> {
    RALPH_HEAD@ + objective + RALPH_NOTES_HEAD@ + notes + RALPH_RULES@ + notes_file + RALPH_TAIL@
}

/// The task prompt of answer mode.
pub open spec fn answer_prompt(question: Seq<char>, schema: Seq<char>) -> Seq<char> {
    ANSWER_QUESTION_HEAD@ + question + ANSWER_SCHEMA_HEAD@ + schema + ANSWER_RULES@
}

/// The system prompt of answer mode.
pub open spec fn answer_system_prompt(tools: Seq<ToolLine>) -> Seq<char> {
    ANSWER_SYSTEM_HEAD@ + tool_list(tools) + ANSWER_SYSTEM_TAIL@
}

// ---------------------------------------------------------------------------
// Templates
// ---------------------------------------------------------------------------

/// The listing of `tools`.
fn render_tool_list(tools: &[ToolLine]) -> (r: String)
    ensures
        r@ == tool_list(tools@),
{
    let mut s = String::new();
    let mut i: usize = 0;
    while i < tools.len()
        invariant
            i <= tools@.len(),
            s@ == tool_list(tools@.take(i as int)),
        decreases tools@.len() - i,
    {
        proof {
            assert(tools@.take(i + 1).drop_last() =~= tools@.take(i as int));
        }
        s.append("- ");
        s.append(tools[i].name.as_str());
        s.append(" — ");
        s.append(tools[i].description.as_str());
        s.append("\n");
        i = i + 1;
    }
    proof {
        assert(tools@.take(i as int) =~= tools@);
    }
    s
}

/// The system prompt.
pub struct SystemPromptTemplate<'a> {
    pub tools: &'a [ToolLine],
    pub check_command: Option<&'a str>,
}

impl<'a> SystemPromptTemplate<'a> {
    /// The prompt, with every value put in as it is.
    pub fn render(&self) -> (r: String)
        ensures
            r@ == system_prompt(
                self.tools@,
                match self.check_command {
                    Some(c) => Some(c@),
                    None => None,
                },
            ),
    {
        let mut s = SYSTEM_HEAD.to_owned();
        s.append(render_tool_list(self.tools).as_str());
        let mut contract = String::new();
        match self.check_command {
            Some(c) => {
                contract = SYSTEM_CHECKS_HEAD.to_owned();
                contract.append(c);
                contract.append(SYSTEM_CHECKS_TAIL);
            },
            None => {
                contract = SYSTEM_NO_CHECKS.to_owned();
            },
        }
        s.append(contract.as_str());
        s.append(SYSTEM_TAIL);
        s
    }
}

/// The frame of a task.
pub struct TaskPromptTemplate<'a> {
    pub task: &'a str,
}

impl<'a> TaskPromptTemplate<'a> {
    /// The heading and the task as it is.
    pub fn render(&self) -> (r: String)
        ensures
            r@ == TASK_HEAD@ + self.task@,
    {
        let mut s = TASK_HEAD.to_owned();
        s.append(self.task);
        s
    }
}

/// The task prompt of a groomed task.
pub struct TaskSpecPromptTemplate<'a> {
    pub spec: &'a TaskSpec,
    pub include_test_first: bool,
}

impl<'a> TaskSpecPromptTemplate<'a> {
    /// The prompt, with every value put in as it is.
    pub fn render(&self) -> (r: String)
        ensures
            r@ == task_spec_prompt(*self.spec, self.include_test_first),
    {
        let spec = self.spec;
        let mut s = "## ".to_owned();
        s.append(spec.title.as_str());
        s.append("\n\n");
        s.append(spec.description.as_str());
        s.append(TASK_CRITERIA_HEAD);
        let mut list = String::new();
        let ghost criteria = text::views(spec.acceptance_criteria@);
        let mut i: usize = 0;
        while i < spec.acceptance_criteria.len()
            invariant
                i <= spec.acceptance_criteria@.len(),
                criteria == text::views(spec.acceptance_criteria@),
                list@ == criteria_list(criteria.take(i as int)),
            decreases spec.acceptance_criteria@.len() - i,
        {
            proof {
                assert(criteria.take(i + 1).drop_last() =~= criteria.take(i as int));
            }
            list.append("- ");
            list.append(spec.acceptance_criteria[i].as_str());
            list.append("\n");
            i = i + 1;
        }
        proof {
            assert(criteria.take(i as int) =~= criteria);
        }
        s.append(list.as_str());
        s.append(TASK_FILES_HEAD);
        let mut files = String::new();
        let mut j: usize = 0;
        while j < spec.files_to_modify.len()
            invariant
                j <= spec.files_to_modify@.len(),
                files@ == file_list(spec.files_to_modify@.take(j as int)),
            decreases spec.files_to_modify@.len() - j,
        {
            proof {
                assert(spec.files_to_modify@.take(j + 1).drop_last() =~= spec.files_to_modify@.take(
                    j as int,
                ));
            }
            files.append("- `");
            files.append(spec.files_to_modify[j].path.as_str());
            files.append("`: ");
            files.append(spec.files_to_modify[j].change.as_str());
            files.append("\n");
            j = j + 1;
        }
        proof {
            assert(spec.files_to_modify@.take(j as int) =~= spec.files_to_modify@);
        }
        s.append(files.as_str());
        s.append("\n");
        let mut approach = String::new();
        if self.include_test_first {
            approach = TestFirstApproachTemplate.render();
        }
        s.append(approach.as_str());
        let mut back = "\n".to_owned();
        let section = VerificationSectionTemplate { gate_command: spec.gate_command.as_str() };
        back.append(section.render().as_str());
        s.append(back.as_str());
        s
    }
}

/// The test-first guidance, which two prompts share.
pub struct TestFirstApproachTemplate;

impl TestFirstApproachTemplate {
    /// The guidance.
    pub fn render(&self) -> (r: String)
        ensures
            r@ == TEST_FIRST_APPROACH@,
    {
        TEST_FIRST_APPROACH.to_owned()
    }
}

/// The verification section, which two prompts share.
pub struct VerificationSectionTemplate<'a> {
    pub gate_command: &'a str,
}

impl<'a> VerificationSectionTemplate<'a> {
    /// The section, with the command put in as it is.
    pub fn render(&self) -> (r: String)
        ensures
            r@ == verification_section(self.gate_command@),
    {
        let mut s = VERIFICATION_HEAD.to_owned();
        s.append(self.gate_command);
        s.append(VERIFICATION_TAIL);
        s
    }
}

/// The prompt of one outer pass.
pub struct RalphPromptTemplate<'a> {
    pub objective: &'a str,
    pub notes: &'a str,
    pub notes_file: &'a str,
}

impl<'a> RalphPromptTemplate<'a> {
    /// The prompt, with every value put in as it is.
    pub fn render(&self) -> (r: String)
        ensures
            r@ == ralph_prompt(self.objective@, self.notes@, self.notes_file@),
    {
        let mut s = RALPH_HEAD.to_owned();
        s.append(self.objective);
        s.append(RALPH_NOTES_HEAD);
        s.append(self.notes);
        s.append(RALPH_RULES);
        s.append(self.notes_file);
        s.append(RALPH_TAIL);
        s
    }
}

/// The nudge to finish.
pub struct NudgePromptTemplate;

impl NudgePromptTemplate {
    /// The nudge.
    pub fn render(&self) -> (r: String)
        ensures
            r@ == NUDGE@,
    {
        NUDGE.to_owned()
    }
}

/// The task prompt of answer mode.
pub struct AnswerPromptTemplate<'a> {
    pub question: &'a str,
    pub schema_text: &'a str,
}

impl<'a> AnswerPromptTemplate<'a> {
    /// The prompt, with the question and the schema put in as they are.
    pub fn render(&self) -> (r: String)
        ensures
            r@ == answer_prompt(self.question@, self.schema_text@),
    {
        let mut s = ANSWER_QUESTION_HEAD.to_owned();
        s.append(self.question);
        s.append(ANSWER_SCHEMA_HEAD);
        s.append(self.schema_text);
        s.append(ANSWER_RULES);
        s
    }
}

/// The system prompt of answer mode.
pub struct AnswerSystemPromptTemplate<'a> {
    pub tools: &'a [ToolLine],
}

impl<'a> AnswerSystemPromptTemplate<'a> {
    /// The prompt, with every value put in as it is.
    pub fn render(&self) -> (r: String)
        ensures
            r@ == answer_system_prompt(self.tools@),
    {
        let mut s = ANSWER_SYSTEM_HEAD.to_owned();
        s.append(render_tool_list(self.tools).as_str());
        s.append(ANSWER_SYSTEM_TAIL);
        s
    }
}

// ---------------------------------------------------------------------------
// Rendering
// ---------------------------------------------------------------------------

/// The system prompt of a run with `tools` and, where it has checks, the
/// command that runs them.
#[must_use]
pub fn render_system_prompt(tools: &[ToolLine], check_command: Option<&str>) -> (r: String)
    ensures
        r@ == system_prompt(
            tools@,
            match check_command {
                Some(c) => Some(c@),
                None => None,
            },
        ),
{
    SystemPromptTemplate { tools, check_command }.render()
}

/// `task` under a heading, as it is.
#[must_use]
pub fn render_task_prompt(task: &str) -> (r: String)
    ensures
        r@ == TASK_HEAD@ + task@,
{
    TaskPromptTemplate { task }.render()
}

/// The task prompt of a groomed task, always with the test-first guidance.
#[must_use]
pub fn render_task_prompt_from_spec(spec: &TaskSpec) -> (r: String)
    ensures
        r@ == task_spec_prompt(*spec, true),
{
    render_task_prompt_from_spec_with(spec, true)
}

/// The task prompt of a groomed task, with or without the test-first guidance.
#[must_use]
pub fn render_task_prompt_from_spec_with(spec: &TaskSpec, include_test_first: bool) -> (r: String)
    ensures
        r@ == task_spec_prompt(*spec, include_test_first),
{
    TaskSpecPromptTemplate { spec, include_test_first }.render()
}

/// The prompt of one outer pass: the objective, the notes of earlier passes,
/// and the file that the notes go to.
#[must_use]
pub fn render_ralph_prompt(objective: &str, notes: &str, notes_file: &str) -> (r: String)
    ensures
        r@ == ralph_prompt(objective@, notes@, notes_file@),
{
    RalphPromptTemplate { objective, notes, notes_file }.render()
}

/// The nudge to finish.
#[must_use]
pub fn render_nudge_prompt() -> (r: String)
    ensures
        r@ == NUDGE@,
{
    NudgePromptTemplate.render()
}

/// The test-first guidance by itself.
#[must_use]
pub fn render_test_first_approach() -> (r: String)
    ensures
        r@ == TEST_FIRST_APPROACH@,
{
    TestFirstApproachTemplate.render()
}

/// The verification section by itself.
#[must_use]
pub fn render_verification_section(gate_command: &str) -> (r: String)
    ensures
        r@ == verification_section(gate_command@),
{
    VerificationSectionTemplate { gate_command }.render()
}

/// The task prompt of answer mode. The schema is put in as it was supplied.
#[must_use]
pub fn render_answer_prompt(question: &str, schema_text: &str) -> (r: String)
    ensures
        r@ == answer_prompt(question@, schema_text@),
{
    AnswerPromptTemplate { question, schema_text }.render()
}

/// The system prompt of answer mode.
#[must_use]
pub fn render_answer_system_prompt(tools: &[ToolLine]) -> (r: String)
    ensures
        r@ == answer_system_prompt(tools@),
{
    AnswerSystemPromptTemplate { tools }.render()
}

// ---------------------------------------------------------------------------
// Tool lines
// ---------------------------------------------------------------------------

/// The line of a tool with this schema: none where it has no name, and an empty
/// description where it has none.
pub open spec fn line_of(schema: JsonV) -> Option<(Seq<char>, Seq<char>)> {
    match json::text_field(schema, "name"@) {
        Some(name) => Some(
            (
                name,
                match json::text_field(schema, "description"@) {
                    Some(d) => d,
                    None => Seq::empty(),
                },
            ),
        ),
        None => None,
    }
}

/// The lines of tools with these schemas, in their order.
pub open spec fn lines_of_schemas(schemas: Seq<JsonV>) -> Seq<(Seq<char>, Seq<char>)>
    decreases schemas.len(),
{
    if schemas.len() == 0 {
        Seq::empty()
    } else {
        let front = lines_of_schemas(schemas.drop_last());
        match line_of(schemas.last()) {
            Some(line) => front.push(line),
            None => front,
        }
    }
}

/// The lines' names and descriptions.
pub open spec fn line_views(lines: Seq<ToolLine>) -> Seq<(Seq<char>, Seq<char>)> {
    Seq::new(lines.len(), |i: int| (lines[i].name@, lines[i].description@))
}

/// The schemas of a registry's tools, in the order of their names.
pub open spec fn schemas<T: Tool>(registry: ToolRegistry<T>) -> Seq<JsonV> {
    Seq::new(registry.tools@.len(), |i: int| registry.tools@[i].schema_view())
}

/// The lines of a registry's tools, in the order of their names.
#[must_use]
pub fn tool_lines<T: Tool>(registry: &ToolRegistry<T>) -> (r: Vec<ToolLine>)
    requires
        registry.wf(),
    ensures
        line_views(r@) == lines_of_schemas(schemas(*registry)),
{
    let list = registry.list();
    let ghost all = schemas(*registry);
    let mut out: Vec<ToolLine> = Vec::new();
    let mut i: usize = 0;
    proof {
        assert(all.take(0) =~= Seq::<JsonV>::empty());
        assert(line_views(out@) =~= Seq::<(Seq<char>, Seq<char>)>::empty());
    }
    while i < list.len()
        invariant
            i <= list@.len(),
            list@.len() == all.len(),
            forall|k: int| 0 <= k < list@.len() ==> (#[trigger] list@[k])@ == all[k],
            line_views(out@) == lines_of_schemas(all.take(i as int)),
        decreases list@.len() - i,
    {
        let ghost before = line_views(out@);
        proof {
            assert(all.take(i + 1).drop_last() =~= all.take(i as int));
            assert(all.take(i + 1).last() == list@[i as int]@);
        }
        if let Some(name) = list[i].text_at("name") {
            let description = match list[i].text_at("description") {
                Some(d) => d.to_owned(),
                None => String::new(),
            };
            let ghost line = (name@, description@);
            out.push(ToolLine { name: name.to_owned(), description });
            proof {
                assert(line_views(out@) =~= before.push(line));
                assert(line.1 =~= line_of(all[i as int])->Some_0.1);
            }
        }
        i = i + 1;
    }
    proof {
        assert(all.take(i as int) =~= all);
    }
    out
}

// ---------------------------------------------------------------------------
// Laws
// ---------------------------------------------------------------------------

/// A text stands in a text that it is a part of.
proof fn lemma_part(whole: Seq<char>, front: Seq<char>, part: Seq<char>, back: Seq<char>)
    requires
        whole == front + part + back,
    ensures
        text::contains(whole, part),
{
    assert(whole.subrange(front.len() as int, (front.len() + part.len()) as int) =~= part);
    assert(text::matches_at(whole, part, front.len() as int));
}

/// A text that stands in a part of a text stands in the text.
proof fn lemma_part_of_part(
    whole: Seq<char>,
    front: Seq<char>,
    part: Seq<char>,
    back: Seq<char>,
    inner: Seq<char>,
)
    requires
        whole == front + part + back,
        text::contains(part, inner),
    ensures
        text::contains(whole, inner),
{
    let i = choose|i: int| text::matches_at(part, inner, i);
    let at = front.len() + i;
    assert(whole.subrange(at, at + inner.len()) =~= part.subrange(i, i + inner.len()));
    assert(text::matches_at(whole, inner, at));
}

/// The listing names every tool and says what it is for.
proof fn lemma_tool_list_holds(tools: Seq<ToolLine>, i: int)
    requires
        0 <= i < tools.len(),
    ensures
        text::contains(
            tool_list(tools),
            "- "@ + tools[i].name@ + " — "@ + tools[i].description@ + "\n"@,
        ),
    decreases tools.len(),
{
    let line = "- "@ + tools[i].name@ + " — "@ + tools[i].description@ + "\n"@;
    let front = tool_list(tools.drop_last());
    if i == tools.len() - 1 {
        assert(tool_list(tools) =~= front + line + Seq::empty());
        lemma_part(tool_list(tools), front, line, Seq::empty());
    } else {
        lemma_tool_list_holds(tools.drop_last(), i);
        assert(tools.drop_last()[i] == tools[i]);
        let back = "- "@ + tools.last().name@ + " — "@ + tools.last().description@ + "\n"@;
        assert(tool_list(tools) =~= Seq::empty() + front + back);
        lemma_part_of_part(tool_list(tools), Seq::empty(), front, back, line);
    }
}

/// Every tool is listed, by its name and description as they are, in both system
/// prompts, and the check command stands in the one that has checks.
pub proof fn law_system_prompts_list_every_tool(
    tools: Seq<ToolLine>,
    check: Option<Seq<char>>,
    i: int,
)
    requires
        0 <= i < tools.len(),
    ensures
        ({
            let line = "- "@ + tools[i].name@ + " — "@ + tools[i].description@ + "\n"@;
            &&& text::contains(system_prompt(tools, check), line)
            &&& text::contains(answer_system_prompt(tools), line)
        }),
        check matches Some(c) ==> text::contains(system_prompt(tools, check), c),
{
    let line = "- "@ + tools[i].name@ + " — "@ + tools[i].description@ + "\n"@;
    lemma_tool_list_holds(tools, i);
    let p = system_prompt(tools, check);
    let middle = match check {
        Some(c) => SYSTEM_CHECKS_HEAD@ + c + SYSTEM_CHECKS_TAIL@,
        None => SYSTEM_NO_CHECKS@,
    };
    assert(p =~= SYSTEM_HEAD@ + tool_list(tools) + (middle + SYSTEM_TAIL@));
    lemma_part_of_part(p, SYSTEM_HEAD@, tool_list(tools), middle + SYSTEM_TAIL@, line);
    let q = answer_system_prompt(tools);
    lemma_part_of_part(q, ANSWER_SYSTEM_HEAD@, tool_list(tools), ANSWER_SYSTEM_TAIL@, line);
    if let Some(c) = check {
        let front = SYSTEM_HEAD@ + tool_list(tools) + SYSTEM_CHECKS_HEAD@;
        let back = SYSTEM_CHECKS_TAIL@ + SYSTEM_TAIL@;
        assert(p =~= front + c + back);
        lemma_part(p, front, c, back);
    }
}

/// The criteria are listed as they are.
proof fn lemma_criteria_list_holds(criteria: Seq<Seq<char>>, i: int)
    requires
        0 <= i < criteria.len(),
    ensures
        text::contains(criteria_list(criteria), "- "@ + criteria[i] + "\n"@),
    decreases criteria.len(),
{
    let line = "- "@ + criteria[i] + "\n"@;
    let front = criteria_list(criteria.drop_last());
    if i == criteria.len() - 1 {
        assert(criteria_list(criteria) =~= front + line + Seq::empty());
        lemma_part(criteria_list(criteria), front, line, Seq::empty());
    } else {
        lemma_criteria_list_holds(criteria.drop_last(), i);
        let back = "- "@ + criteria.last() + "\n"@;
        assert(criteria_list(criteria) =~= Seq::empty() + front + back);
        lemma_part_of_part(criteria_list(criteria), Seq::empty(), front, back, line);
    }
}

/// The files are listed as they are.
proof fn lemma_file_list_holds(files: Seq<FileToModify>, i: int)
    requires
        0 <= i < files.len(),
    ensures
        text::contains(
            file_list(files),
            "- `"@ + files[i].path@ + "`: "@ + files[i].change@ + "\n"@,
        ),
    decreases files.len(),
{
    let line = "- `"@ + files[i].path@ + "`: "@ + files[i].change@ + "\n"@;
    let front = file_list(files.drop_last());
    if i == files.len() - 1 {
        assert(file_list(files) =~= front + line + Seq::empty());
        lemma_part(file_list(files), front, line, Seq::empty());
    } else {
        lemma_file_list_holds(files.drop_last(), i);
        assert(files.drop_last()[i] == files[i]);
        let back = "- `"@ + files.last().path@ + "`: "@ + files.last().change@ + "\n"@;
        assert(file_list(files) =~= Seq::empty() + front + back);
        lemma_part_of_part(file_list(files), Seq::empty(), front, back, line);
    }
}

/// A task's criteria stand in its prompt as they are, one to a line.
pub proof fn law_task_prompts_hold_every_criterion(spec: TaskSpec, test_first: bool, i: int)
    requires
        0 <= i < spec.acceptance_criteria@.len(),
    ensures
        text::contains(
            task_spec_prompt(spec, test_first),
            "- "@ + spec.acceptance_criteria@[i]@ + "\n"@,
        ),
{
    let criteria = text::views(spec.acceptance_criteria@);
    let p = task_spec_prompt(spec, test_first);
    lemma_criteria_list_holds(criteria, i);
    let approach = if test_first {
        TEST_FIRST_APPROACH@
    } else {
        Seq::empty()
    };
    let front = "## "@ + spec.title@ + "\n\n"@ + spec.description@ + TASK_CRITERIA_HEAD@;
    let back = TASK_FILES_HEAD@ + file_list(spec.files_to_modify@) + "\n"@ + approach
        + task_spec_back(spec);
    assert(p =~= front + criteria_list(criteria) + back);
    lemma_part_of_part(
        p,
        front,
        criteria_list(criteria),
        back,
        "- "@ + spec.acceptance_criteria@[i]@ + "\n"@,
    );
}

/// A task's files stand in its prompt as they are, one to a line.
pub proof fn law_task_prompts_hold_every_file(spec: TaskSpec, test_first: bool, i: int)
    requires
        0 <= i < spec.files_to_modify@.len(),
    ensures
        text::contains(
            task_spec_prompt(spec, test_first),
            "- `"@ + spec.files_to_modify@[i].path@ + "`: "@ + spec.files_to_modify@[i].change@
                + "\n"@,
        ),
{
    let files = spec.files_to_modify@;
    let p = task_spec_prompt(spec, test_first);
    lemma_file_list_holds(files, i);
    let approach = if test_first {
        TEST_FIRST_APPROACH@
    } else {
        Seq::empty()
    };
    let front = "## "@ + spec.title@ + "\n\n"@ + spec.description@ + TASK_CRITERIA_HEAD@
        + criteria_list(text::views(spec.acceptance_criteria@)) + TASK_FILES_HEAD@;
    let back = "\n"@ + approach + task_spec_back(spec);
    assert(p =~= front + file_list(files) + back);
    lemma_part_of_part(
        p,
        front,
        file_list(files),
        back,
        "- `"@ + files[i].path@ + "`: "@ + files[i].change@ + "\n"@,
    );
}

/// The test-first guidance is all that its switch adds: with it the prompt is
/// the one without it, and the guidance put in at one place.
pub proof fn law_the_switch_adds_the_guidance_alone(spec: TaskSpec)
    ensures
        task_spec_prompt(spec, true) == task_spec_front(spec) + TEST_FIRST_APPROACH@
            + task_spec_back(spec),
        task_spec_prompt(spec, false) == task_spec_front(spec) + task_spec_back(spec),
{
    assert(task_spec_prompt(spec, false) =~= task_spec_front(spec) + task_spec_back(spec));
}

/// The verification section that stands by itself is the one that a task prompt
/// ends with, and so is the test-first guidance the one in it.
pub proof fn law_shared_sections_are_the_same(spec: TaskSpec, test_first: bool)
    ensures
        verification_section(spec.gate_command@).is_suffix_of(task_spec_prompt(spec, test_first)),
        text::contains(task_spec_prompt(spec, true), TEST_FIRST_APPROACH@),
        text::contains(task_spec_prompt(spec, test_first), spec.gate_command@),
{
    let p = task_spec_prompt(spec, test_first);
    let v = verification_section(spec.gate_command@);
    let approach = if test_first {
        TEST_FIRST_APPROACH@
    } else {
        Seq::empty()
    };
    let front = task_spec_front(spec) + approach + "\n"@;
    assert(p =~= front + v);
    assert(v =~= p.subrange(p.len() - v.len(), p.len() as int));
    lemma_part(
        task_spec_prompt(spec, true),
        task_spec_front(spec),
        TEST_FIRST_APPROACH@,
        task_spec_back(spec),
    );
    assert(p =~= (front + VERIFICATION_HEAD@) + spec.gate_command@ + VERIFICATION_TAIL@);
    lemma_part(p, front + VERIFICATION_HEAD@, spec.gate_command@, VERIFICATION_TAIL@);
}

/// What goes under the task heading does not start with a heading of that level:
/// the prompts of groomed tasks, outer passes and answer mode start with one of
/// the second level.
pub proof fn law_task_contents_start_below_the_task_heading(
    spec: TaskSpec,
    test_first: bool,
    a: Seq<char>,
    b: Seq<char>,
    c: Seq<char>,
)
    ensures
        "## "@.is_prefix_of(task_spec_prompt(spec, test_first)),
        "## "@.is_prefix_of(ralph_prompt(a, b, c)),
        "## "@.is_prefix_of(answer_prompt(a, b)),
{
    reveal_strlit("## ");
    assert("## "@ =~= task_spec_prompt(spec, test_first).subrange(0, 3));
    reveal_strlit("## Objective\n\n");
    reveal_strlit("## Question\n\n");
    assert("## "@ =~= ralph_prompt(a, b, c).subrange(0, 3)) by {
        assert(ralph_prompt(a, b, c).subrange(0, 3) =~= RALPH_HEAD@.subrange(0, 3));
    }
    assert("## "@ =~= answer_prompt(a, b).subrange(0, 3)) by {
        assert(answer_prompt(a, b).subrange(0, 3) =~= ANSWER_QUESTION_HEAD@.subrange(0, 3));
    }
}

/// An outer pass is told its objective, the notes of earlier passes and the name
/// of the notes file as they are.
pub proof fn law_outer_prompts_hold_their_inputs(
    objective: Seq<char>,
    notes: Seq<char>,
    notes_file: Seq<char>,
)
    ensures
        text::contains(ralph_prompt(objective, notes, notes_file), objective),
        text::contains(ralph_prompt(objective, notes, notes_file), notes),
        text::contains(ralph_prompt(objective, notes, notes_file), notes_file),
{
    let p = ralph_prompt(objective, notes, notes_file);
    let tail = notes_file + RALPH_TAIL@;
    assert(p =~= RALPH_HEAD@ + objective + (RALPH_NOTES_HEAD@ + notes + RALPH_RULES@ + tail));
    lemma_part(p, RALPH_HEAD@, objective, RALPH_NOTES_HEAD@ + notes + RALPH_RULES@ + tail);
    let front = RALPH_HEAD@ + objective + RALPH_NOTES_HEAD@;
    assert(p =~= front + notes + (RALPH_RULES@ + tail));
    lemma_part(p, front, notes, RALPH_RULES@ + tail);
    lemma_part(p, front + notes + RALPH_RULES@, notes_file, RALPH_TAIL@);
}

/// Answer mode is told the question and the result schema as they are.
pub proof fn law_answer_prompts_hold_their_inputs(question: Seq<char>, schema: Seq<char>)
    ensures
        text::contains(answer_prompt(question, schema), question),
        text::contains(answer_prompt(question, schema), schema),
{
    let p = answer_prompt(question, schema);
    let back = ANSWER_SCHEMA_HEAD@ + schema + ANSWER_RULES@;
    assert(p =~= ANSWER_QUESTION_HEAD@ + question + back);
    lemma_part(p, ANSWER_QUESTION_HEAD@, question, back);
    lemma_part(p, ANSWER_QUESTION_HEAD@ + question + ANSWER_SCHEMA_HEAD@, schema, ANSWER_RULES@);
}

/// The prompts of outer passes differ in their inputs alone: around the objective, the
/// notes and the name of the notes file, which stand in it as they are and in this
/// order, each says the same.
pub proof fn law_outer_prompts_differ_in_their_inputs_alone(
    objective: &str,
    notes: &str,
    notes_file: &str,
    r: String,
    objective2: &str,
    notes2: &str,
    notes_file2: &str,
    r2: String,
)
    requires
        call_ensures(render_ralph_prompt, (objective, notes, notes_file), r),
        call_ensures(render_ralph_prompt, (objective2, notes2, notes_file2), r2),
    ensures
        exists|a: Seq<char>, b: Seq<char>, c: Seq<char>, d: Seq<char>|
            r@ == #[trigger] (a + objective@ + b + notes@ + c + notes_file@ + d) && r2@ == a
                + objective2@ + b + notes2@ + c + notes_file2@ + d,
{
    let (a, b, c, d) = (RALPH_HEAD@, RALPH_NOTES_HEAD@, RALPH_RULES@, RALPH_TAIL@);
    assert(r@ == a + objective@ + b + notes@ + c + notes_file@ + d);
}

/// The prompts of answer mode differ in the question and the schema alone, which stand
/// in them as they are and in this order.
pub proof fn law_answer_prompts_differ_in_their_inputs_alone(
    question: &str,
    schema: &str,
    r: String,
    question2: &str,
    schema2: &str,
    r2: String,
)
    requires
        call_ensures(render_answer_prompt, (question, schema), r),
        call_ensures(render_answer_prompt, (question2, schema2), r2),
    ensures
        exists|a: Seq<char>, b: Seq<char>, c: Seq<char>|
            r@ == #[trigger] (a + question@ + b + schema@ + c) && r2@ == a + question2@ + b
                + schema2@ + c,
{
    let (a, b, c) = (ANSWER_QUESTION_HEAD@, ANSWER_SCHEMA_HEAD@, ANSWER_RULES@);
    assert(r@ == a + question@ + b + schema@ + c);
}

/// A plain task ends its prompt, as it is, and what stands before it is the same for
/// every task; so does a gate command stand in its section.
pub proof fn law_plain_prompts_differ_in_their_input_alone(
    task: &str,
    r: String,
    task2: &str,
    r2: String,
    gate: &str,
    s: String,
    gate2: &str,
    s2: String,
)
    requires
        call_ensures(render_task_prompt, (task,), r),
        call_ensures(render_task_prompt, (task2,), r2),
        call_ensures(render_verification_section, (gate,), s),
        call_ensures(render_verification_section, (gate2,), s2),
    ensures
        exists|a: Seq<char>| r@ == #[trigger] (a + task@) && r2@ == a + task2@,
        exists|a: Seq<char>, b: Seq<char>|
            s@ == #[trigger] (a + gate@ + b) && s2@ == a + gate2@ + b,
{
    assert(r@ == TASK_HEAD@ + task@);
    assert(s@ == VERIFICATION_HEAD@ + gate@ + VERIFICATION_TAIL@);
}

/// A tool that is put behind the others adds its line to the system prompts, in one
/// place, and changes nothing else of them; and so does every one before it.
pub proof fn law_one_more_tool_adds_its_line(
    tools: &[ToolLine],
    more: &[ToolLine],
    check: Option<&str>,
    r: String,
    r2: String,
    s: String,
    s2: String,
    t: ToolLine,
)
    requires
        more@ == tools@.push(t),
        call_ensures(render_system_prompt, (tools, check), r),
        call_ensures(render_system_prompt, (more, check), r2),
        call_ensures(render_answer_system_prompt, (tools,), s),
        call_ensures(render_answer_system_prompt, (more,), s2),
    ensures
        exists|i: int|
            0 <= i <= r@.len() && r2@ == #[trigger] r@.take(i) + ("- "@ + t.name@ + " — "@
                + t.description@ + "\n"@) + r@.skip(i),
        exists|i: int|
            0 <= i <= s@.len() && s2@ == #[trigger] s@.take(i) + ("- "@ + t.name@ + " — "@
                + t.description@ + "\n"@) + s@.skip(i),
{
    let line = "- "@ + t.name@ + " — "@ + t.description@ + "\n"@;
    assert(more@.drop_last() =~= tools@);
    let list = tool_list(tools@);
    assert(tool_list(more@) =~= list + line);
    let i = (SYSTEM_HEAD@ + list).len() as int;
    let rest = (match check {
        Some(c) => SYSTEM_CHECKS_HEAD@ + c@ + SYSTEM_CHECKS_TAIL@,
        None => SYSTEM_NO_CHECKS@,
    }) + SYSTEM_TAIL@;
    assert(r@ =~= SYSTEM_HEAD@ + list + rest);
    assert(r@.take(i) =~= SYSTEM_HEAD@ + list);
    assert(r@.skip(i) =~= rest);
    assert(r2@ =~= r@.take(i) + line + r@.skip(i));
    let j = (ANSWER_SYSTEM_HEAD@ + list).len() as int;
    assert(s@.take(j) =~= ANSWER_SYSTEM_HEAD@ + list);
    assert(s@.skip(j) =~= ANSWER_SYSTEM_TAIL@);
    assert(s2@ =~= s@.take(j) + line + s@.skip(j));
}

/// A groomed task's title, description and gate command stand in its prompt as they
/// are; and one more criterion adds its line in one place, and changes nothing else.
pub proof fn law_task_prompts_hold_the_task(
    spec: TaskSpec,
    more: TaskSpec,
    test_first: bool,
    r: String,
    r2: String,
    criterion: Seq<char>,
)
    requires
        call_ensures(render_task_prompt_from_spec_with, (&spec, test_first), r),
        call_ensures(render_task_prompt_from_spec_with, (&more, test_first), r2),
        more.title@ == spec.title@,
        more.description@ == spec.description@,
        more.files_to_modify@ == spec.files_to_modify@,
        more.gate_command@ == spec.gate_command@,
        text::views(more.acceptance_criteria@) == text::views(spec.acceptance_criteria@).push(
            criterion,
        ),
    ensures
        text::contains(r@, spec.title@),
        text::contains(r@, spec.description@),
        text::contains(r@, spec.gate_command@),
        exists|i: int|
            0 <= i <= r@.len() && r2@ == #[trigger] r@.take(i) + ("- "@ + criterion + "\n"@)
                + r@.skip(i),
{
    law_shared_sections_are_the_same(spec, test_first);
    let criteria = text::views(spec.acceptance_criteria@);
    let line = "- "@ + criterion + "\n"@;
    let list = criteria_list(criteria);
    let head = task_head(spec);
    let tail = task_tail(spec, test_first);
    lemma_task_parts(spec, test_first);
    lemma_task_parts(more, test_first);
    lemma_task_head(spec);
    lemma_one_more_criterion(criteria, criterion);
    lemma_regroup(head, list, line);
    assert(r@ == (head + list) + tail);
    assert(r2@ == ((head + list) + line) + tail);
    let i = (head + list).len() as int;
    assert(r@.take(i) =~= head + list);
    assert(r@.skip(i) =~= tail);
    assert(r2@ == r@.take(i) + line + r@.skip(i));
    lemma_regroup(head, list, tail);
    assert(r@ =~= Seq::empty() + head + (list + tail));
    lemma_part_of_part(r@, Seq::empty(), head, list + tail, spec.title@);
    lemma_part_of_part(r@, Seq::empty(), head, list + tail, spec.description@);
}

/// What stands before the criteria of a task.
spec fn task_head(spec: TaskSpec) -> Seq<char> {
    "## "@ + spec.title@ + "\n\n"@ + spec.description@ + TASK_CRITERIA_HEAD@
}

/// What stands behind the criteria of a task.
spec fn task_tail(spec: TaskSpec, test_first: bool) -> Seq<char> {
    TASK_FILES_HEAD@ + file_list(spec.files_to_modify@) + "\n"@ + (if test_first {
        TEST_FIRST_APPROACH@
    } else {
        Seq::empty()
    }) + task_spec_back(spec)
}

proof fn lemma_regroup(a: Seq<char>, b: Seq<char>, c: Seq<char>)
    ensures
        (a + b) + c == a + (b + c),
{
    assert((a + b) + c =~= a + (b + c));
}

/// A task prompt is what stands before its criteria, these, and what stands behind
/// them.
proof fn lemma_task_parts(spec: TaskSpec, test_first: bool)
    ensures
        task_spec_prompt(spec, test_first) == (task_head(spec) + criteria_list(
            text::views(spec.acceptance_criteria@),
        )) + task_tail(spec, test_first),
{
    let x = task_head(spec) + criteria_list(text::views(spec.acceptance_criteria@));
    let files = file_list(spec.files_to_modify@);
    let approach = if test_first {
        TEST_FIRST_APPROACH@
    } else {
        Seq::empty()
    };
    let a = TASK_FILES_HEAD@ + files;
    let b = a + "\n"@;
    let c = b + approach;
    lemma_regroup(x, TASK_FILES_HEAD@, files);
    lemma_regroup(x, a, "\n"@);
    lemma_regroup(x, b, approach);
    lemma_regroup(x, c, task_spec_back(spec));
}

/// The title and the description stand before the criteria.
proof fn lemma_task_head(spec: TaskSpec)
    ensures
        text::contains(task_head(spec), spec.title@),
        text::contains(task_head(spec), spec.description@),
{
    let head = task_head(spec);
    let a = "## "@ + spec.title@;
    let rest = "\n\n"@ + spec.description@ + TASK_CRITERIA_HEAD@;
    assert(head =~= a + rest);
    lemma_part(head, "## "@, spec.title@, rest);
    lemma_part(head, a + "\n\n"@, spec.description@, TASK_CRITERIA_HEAD@);
}

proof fn lemma_one_more_criterion(criteria: Seq<Seq<char>>, criterion: Seq<char>)
    ensures
        criteria_list(criteria.push(criterion)) == criteria_list(criteria) + ("- "@ + criterion
            + "\n"@),
{
    assert(criteria.push(criterion).drop_last() =~= criteria);
    let list = criteria_list(criteria);
    assert(list + "- "@ + criterion + "\n"@ =~= list + ("- "@ + criterion + "\n"@));
}

/// Every tool that has a name has a line, with its name and its description as they
/// are, and in the order of the schemas.
pub proof fn law_every_named_tool_has_a_line(schemas: Seq<JsonV>, schema: JsonV)
    ensures
        lines_of_schemas(Seq::empty()).len() == 0,
        lines_of_schemas(schemas.push(schema)) == (match json::field(schema, "name"@) {
            Some(JsonV::String(name)) => lines_of_schemas(schemas).push(
                (
                    name,
                    match json::field(schema, "description"@) {
                        Some(JsonV::String(d)) => d,
                        _ => Seq::empty(),
                    },
                ),
            ),
            _ => lines_of_schemas(schemas),
        }),
{
    assert(schemas.push(schema).drop_last() =~= schemas);
}

} // verus!
