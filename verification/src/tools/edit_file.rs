//! The `edit_file` tool: replaces the one occurrence of a text in a file, or
//! creates a file.
//!
//! There is no fuzzy matching. A text that stands nowhere or in more than one
//! place is refused with a message that tells the model how to go on. What is
//! written goes to a temporary file next to the target first, which then takes
//! the target's place.
use vstd::prelude::*;

use crate::json;
use crate::json::{Items, Json, JsonV, Members};
use crate::path;
use crate::path::{file_name, parent, utf8, FilePath};
use crate::text;
use crate::text::{
    bytes_in, chars_of, concat, count_places, dec_u64, find_chars, string_of, text_of_bytes,
};
use crate::tool;
use crate::tool::{Tool, ToolResult};
use crate::workspace;
use crate::workspace::Workspace;

verus! {

/// What the tool is, as told to the model.
pub const DESCRIPTION: &'static str = "Edit a text file by exact string replacement, or create a new file.\n\n`old_string` must appear in the file EXACTLY ONCE and match the file content byte-for-byte, including whitespace and surrounding lines — copy it verbatim from `read_file` output. If it matches zero times or more than once, the edit is refused with a steering error naming what went wrong so you can try again with more surrounding context.\n\nPass an empty string for `old_string` to CREATE a new file at `path` with `new_string` as its contents. Refuses to overwrite an existing file; use a regular replacement edit for that.\n\n`path` is workspace-relative. Files are read/written as UTF-8; the tool refuses to edit non-text (invalid-UTF-8) files.";

/// What `path` is, as told to the model.
pub const PATH_DESCRIPTION: &'static str = "Workspace-relative path to the file to edit or create.";

/// What `old_string` is, as told to the model.
pub const OLD_DESCRIPTION: &'static str = "Exact text to replace. Must appear in the file exactly once, byte-for-byte (copy it from read_file output, including whitespace). Pass an empty string to CREATE a new file at `path`.";

/// What `new_string` is, as told to the model.
pub const NEW_DESCRIPTION: &'static str = "Replacement text. In CREATE mode this is the contents of the new file. Pass an empty string to delete the matched text.";

/// The `edit_file` tool.
#[derive(Debug, Default, Clone, Copy)]
pub struct EditFileTool;

impl Tool for EditFileTool {
    open spec fn name_view(&self) -> Seq<char> {
        "edit_file"@
    }

    open spec fn schema_view(&self) -> JsonV {
        let properties = JsonV::Object(
            Seq::empty().push(("path"@, json::typed("string"@, PATH_DESCRIPTION@))).push(
                ("old_string"@, json::typed("string"@, OLD_DESCRIPTION@)),
            ).push(("new_string"@, json::typed("string"@, NEW_DESCRIPTION@))),
        );
        let required = JsonV::Array(
            Seq::empty().push(JsonV::String("path"@)).push(JsonV::String("old_string"@)).push(
                JsonV::String("new_string"@),
            ),
        );
        JsonV::Object(
            Seq::empty().push(("name"@, JsonV::String("edit_file"@))).push(
                ("description"@, JsonV::String(DESCRIPTION@)),
            ).push(
                (
                    "input_schema"@,
                    JsonV::Object(
                        Seq::empty().push(("type"@, JsonV::String("object"@))).push(
                            ("properties"@, properties),
                        ).push(("required"@, required)),
                    ),
                ),
            ),
        )
    }

    fn name(&self) -> (r: &str) {
        "edit_file"
    }

    fn schema(&self) -> (r: Json) {
        let mut properties = Members::new();
        properties.push("path", json::property("string", PATH_DESCRIPTION));
        properties.push("old_string", json::property("string", OLD_DESCRIPTION));
        properties.push("new_string", json::property("string", NEW_DESCRIPTION));
        let mut required = Items::new();
        required.push(json::text("path"));
        required.push(json::text("old_string"));
        required.push(json::text("new_string"));
        let mut input = Members::new();
        input.push("type", json::text("object"));
        input.push("properties", properties.object());
        input.push("required", required.array());
        let mut s = Members::new();
        s.push("name", json::text("edit_file"));
        s.push("description", json::text(DESCRIPTION));
        s.push("input_schema", input.object());
        s.object()
    }
}

// ---------------------------------------------------------------------------
// The input
// ---------------------------------------------------------------------------

/// The name of a value's type.
pub open spec fn kind_name(v: JsonV) -> Seq<char> {
    match v {
        JsonV::Null => "null"@,
        JsonV::Bool(_) => "boolean"@,
        JsonV::Number(_) => "number"@,
        JsonV::String(_) => "string"@,
        JsonV::Array(_) => "array"@,
        JsonV::Object(_) => "object"@,
    }
}

/// The name of a value's type.
pub fn short_type_name(v: &Json) -> (r: &'static str)
    ensures
        r@ == kind_name(v@),
{
    match v {
        Json::Null => "null",
        Json::Bool(_) => "boolean",
        Json::Number(_) => "number",
        Json::String(_) => "string",
        Json::Array(_) => "array",
        Json::Object(_) => "object",
    }
}

/// The text under `name`, or what is wrong with the input.
pub open spec fn required_text(input: JsonV, name: Seq<char>) -> Result<Seq<char>, Seq<char>> {
    match json::field(input, name) {
        Some(JsonV::String(s)) => Ok(s),
        Some(other) => Err(
            "`"@ + name + "` must be a string (got `"@ + kind_name(other) + "`)"@,
        ),
        None => Err("missing required field `"@ + name + "`"@),
    }
}

/// The text under `name`, or what is wrong with the input.
pub fn require_string(input: &Json, name: &str) -> (r: Result<String, String>)
    ensures
        match required_text(input@, name@) {
            Ok(s) => r matches Ok(t) && t@ == s,
            Err(m) => r matches Err(e) && e@ == m,
        },
{
    match input.get(name) {
        Some(v) => match v {
            Json::String(s) => Ok(s.clone()),
            _ => {
                let mut e = concat("`", name);
                e.append("` must be a string (got `");
                e.append(short_type_name(v));
                e.append("`)");
                Err(e)
            },
        },
        None => {
            let mut e = concat("missing required field `", name);
            e.append("`");
            Err(e)
        },
    }
}

/// What an edit is to do. An empty `old_string` creates the file.
#[derive(Debug, Clone, PartialEq, Eq)]
pub struct EditArgs {
    pub path: String,
    pub old_string: String,
    pub new_string: String,
}

/// What an input asks for, or the first thing that is wrong with it.
pub open spec fn edit_of(input: JsonV) -> Result<(Seq<char>, Seq<char>, Seq<char>), Seq<char>> {
    match required_text(input, "path"@) {
        Err(m) => Err(m),
        Ok(path) => match required_text(input, "old_string"@) {
            Err(m) => Err(m),
            Ok(old) => match required_text(input, "new_string"@) {
                Err(m) => Err(m),
                Ok(new) => Ok((path, old, new)),
            },
        },
    }
}

/// Pulls `path`, `old_string` and `new_string` out of the input.
pub fn parse_args(input: &Json) -> (r: Result<EditArgs, String>)
    ensures
        match edit_of(input@) {
            Ok((path, old, new)) => r matches Ok(args) && args.path@ == path && args.old_string@
                == old && args.new_string@ == new,
            Err(m) => r matches Err(e) && e@ == m,
        },
{
    let path = match require_string(input, "path") {
        Ok(s) => s,
        Err(e) => {
            return Err(e);
        },
    };
    let old_string = match require_string(input, "old_string") {
        Ok(s) => s,
        Err(e) => {
            return Err(e);
        },
    };
    let new_string = match require_string(input, "new_string") {
        Ok(s) => s,
        Err(e) => {
            return Err(e);
        },
    };
    Ok(EditArgs { path, old_string, new_string })
}

impl EditFileTool {
    /// What `input` asks for and the file that its path leads to, or what is
    /// wrong with the input or its path. Where the path leads is up to the
    /// workspace.
    pub fn plan(&self, input: &Json, workspace: &Workspace) -> (r: Result<
        (EditArgs, FilePath),
        ToolResult,
    >)
        ensures
            match edit_of(input@) {
                Ok((path, old, new)) => match r {
                    Ok((args, target)) => {
                        &&& args.path@ == path
                        &&& args.old_string@ == old
                        &&& args.new_string@ == new
                        &&& workspace.lets_write(path, Ok(target))
                    },
                    Err(e) => tool::refusal(e, workspace::path_refusal(path))
                        && workspace.refuses_write(path),
                },
                Err(m) => r matches Err(e) && tool::refusal(e, m),
            },
    {
        let args = match parse_args(input) {
            Ok(args) => args,
            Err(e) => {
                return Err(ToolResult::error(e));
            },
        };
        match workspace.resolve_write(args.path.as_str()) {
            Ok(target) => Ok((args, target)),
            Err(v) => Err(ToolResult::error(v.message())),
        }
    }
}

// ---------------------------------------------------------------------------
// Replacing
// ---------------------------------------------------------------------------

/// `content` with the first occurrence of `old` replaced by `new`.
pub open spec fn replaced(content: Seq<char>, old: Seq<char>, new: Seq<char>) -> Seq<char> {
    match text::find(content, old, 0) {
        Some(i) => content.take(i) + new + content.skip(i + old.len()),
        None => content,
    }
}

/// The refusal for a text that does not stand in exactly one place.
pub open spec fn place_refusal(path: Seq<char>, count: nat) -> Seq<char> {
    if count == 0 {
        "old_string not found in `"@ + path
            + "` — read the file and copy the exact text, including whitespace"@
    } else {
        "old_string matches "@ + text::dec(count) + " locations in `"@ + path
            + "` — include more surrounding context to make it unique"@
    }
}

/// The content after an edit, where `old` stands in exactly one place of it;
/// else the refusal.
pub fn replace_once(path: &str, content: &str, old: &str, new: &str) -> (r: Result<
    String,
    ToolResult,
>)
    requires
        old@.len() > 0,
    ensures
        text::places(content@, old@, 0) == 1 ==> (r matches Ok(s) && s@ == replaced(
            content@,
            old@,
            new@,
        )),
        text::places(content@, old@, 0) != 1 ==> (r matches Err(e) && tool::refusal(
            e,
            place_refusal(path@, text::places(content@, old@, 0)),
        )),
{
    let h = chars_of(content);
    let p = chars_of(old);
    let count: usize = count_places(&h, &p);
    if count == 0 {
        let mut e = concat("old_string not found in `", path);
        e.append("` — read the file and copy the exact text, including whitespace");
        return Err(ToolResult::error(e));
    }
    if count > 1 {
        let mut e = concat("old_string matches ", dec_u64(count as u64).as_str());
        e.append(" locations in `");
        e.append(path);
        e.append("` — include more surrounding context to make it unique");
        return Err(ToolResult::error(e));
    }
    match find_chars(&h, &p, 0) {
        Some(i) => {
            let end: usize = h.len();
            let mut s = string_of(&h, 0, i);
            s.append(new);
            s.append(string_of(&h, i + p.len(), end).as_str());
            proof {
                assert(h@.subrange(0, i as int) =~= h@.take(i as int));
                assert(h@.subrange(i + p@.len(), h@.len() as int) =~= h@.skip(i + p@.len()));
            }
            Ok(s)
        },
        None => {
            proof {
                text::lemma_find(content@, old@, 0);
                text::lemma_places(content@, old@, 0);
            }
            Ok(content.to_owned())
        },
    }
}

// ---------------------------------------------------------------------------
// The steps of an edit
// ---------------------------------------------------------------------------

/// What an edit asks for, of the file that its path leads to.
#[derive(Debug)]
pub enum EditStep {
    /// Whether it exists.
    Probe,
    /// Its parent directories.
    MakeParents,
    /// What it holds.
    Read,
    /// That it hold this.
    Write(String),
    /// Nothing more: this is the result.
    Finish(ToolResult),
}

/// What came of what an edit asked for.
#[derive(Debug)]
pub enum EditFact {
    /// Whether the file exists.
    Exists(bool),
    /// It was done.
    Done,
    /// It failed, for this reason.
    Failed(String),
    /// What the file holds.
    Bytes(Vec<u8>),
}

/// The edit is over with this refusal.
pub open spec fn refused(step: EditStep, message: Seq<char>) -> bool {
    step matches EditStep::Finish(r) && tool::refusal(r, message)
}

/// The edit is over with this good result.
pub open spec fn finished(step: EditStep, message: Seq<char>) -> bool {
    step matches EditStep::Finish(r) && {
        &&& !r.is_error
        &&& r.detail is None
        &&& r.offload_path is None
        &&& r.summary@ == message
    }
}

/// `next` is what an edit asks for once `fact` came of what it asked for. A
/// fact that does not answer the question changes nothing.
pub open spec fn follows(args: EditArgs, asked: EditStep, fact: EditFact, next: EditStep) -> bool {
    let path = args.path@;
    let create = args.old_string@.len() == 0;
    match (asked, fact) {
        (EditStep::Probe, EditFact::Exists(exists)) => if create {
            if exists {
                refused(
                    next,
                    "`"@ + path
                        + "` already exists — pass a non-empty `old_string` to edit it, or delete it first via bash if you truly need to overwrite"@,
                )
            } else {
                next is MakeParents
            }
        } else if exists {
            next is Read
        } else {
            refused(
                next,
                "`"@ + path
                    + "` does not exist — pass an empty `old_string` to create it instead"@,
            )
        },
        (EditStep::MakeParents, EditFact::Done) => if create {
            next matches EditStep::Write(s) && s@ == args.new_string@
        } else {
            next is MakeParents
        },
        (EditStep::MakeParents, EditFact::Failed(e)) => refused(
            next,
            "failed to create parent directories for `"@ + path + "`: "@ + e@,
        ),
        (EditStep::Read, EditFact::Failed(e)) => refused(
            next,
            "failed to read `"@ + path + "`: "@ + e@,
        ),
        (EditStep::Read, EditFact::Bytes(bytes)) => if create {
            next is Read
        } else if !vstd::utf8::valid_utf8(bytes@) {
            refused(
                next,
                "`"@ + path + "` is not valid UTF-8; edit_file refuses to edit non-text files"@,
            )
        } else {
            let content = vstd::utf8::decode_utf8(bytes@);
            let count = text::places(content, args.old_string@, 0);
            if count == 1 {
                next matches EditStep::Write(s) && s@ == replaced(
                    content,
                    args.old_string@,
                    args.new_string@,
                )
            } else {
                refused(next, place_refusal(path, count))
            }
        },
        (EditStep::Write(_), EditFact::Done) => finished(
            next,
            if create {
                "created "@ + path + " ("@ + text::dec(text::byte_len(args.new_string@))
                    + " bytes)"@
            } else {
                "edited "@ + path
            },
        ),
        (EditStep::Write(_), EditFact::Failed(e)) => refused(
            next,
            "failed to write `"@ + path + "`: "@ + e@,
        ),
        _ => next == asked,
    }
}

/// `head`, the path in backquotes, and `tail`.
fn about(head: &str, path: &str, tail: &str) -> (r: String)
    ensures
        r@ == head@ + path@ + tail@,
{
    let mut s = concat(head, path);
    s.append(tail);
    s
}

/// The refusal of a step that failed.
fn failed(head: &str, path: &str, cause: &str) -> (r: EditStep)
    ensures
        refused(r, head@ + path@ + "`: "@ + cause@),
{
    let mut s = about(head, path, "`: ");
    s.append(cause);
    EditStep::Finish(ToolResult::error(s))
}

impl EditArgs {
    /// What the edit asks for first.
    pub fn first(&self) -> (r: EditStep)
        ensures
            r is Probe,
    {
        EditStep::Probe
    }

    /// What the edit asks for once `fact` came of what it asked for.
    pub fn next(&self, asked: EditStep, fact: EditFact) -> (r: EditStep)
        ensures
            follows(*self, asked, fact, r),
    {
        let path = self.path.as_str();
        let create: bool = self.old_string.as_str().is_empty();
        match asked {
            EditStep::Probe => match fact {
                EditFact::Exists(exists) => if create {
                    if exists {
                        EditStep::Finish(
                            ToolResult::error(
                                about(
                                    "`",
                                    path,
                                    "` already exists — pass a non-empty `old_string` to edit it, or delete it first via bash if you truly need to overwrite",
                                ),
                            ),
                        )
                    } else {
                        EditStep::MakeParents
                    }
                } else if exists {
                    EditStep::Read
                } else {
                    EditStep::Finish(
                        ToolResult::error(
                            about(
                                "`",
                                path,
                                "` does not exist — pass an empty `old_string` to create it instead",
                            ),
                        ),
                    )
                },
                _ => EditStep::Probe,
            },
            EditStep::MakeParents => match fact {
                EditFact::Done => if create {
                    EditStep::Write(self.new_string.clone())
                } else {
                    EditStep::MakeParents
                },
                EditFact::Failed(e) => failed(
                    "failed to create parent directories for `",
                    path,
                    e.as_str(),
                ),
                _ => EditStep::MakeParents,
            },
            EditStep::Read => match fact {
                EditFact::Failed(e) => failed("failed to read `", path, e.as_str()),
                EditFact::Bytes(bytes) => {
                    if create {
                        return EditStep::Read;
                    }
                    match text_of_bytes(&bytes) {
                        None => EditStep::Finish(
                            ToolResult::error(
                                about(
                                    "`",
                                    path,
                                    "` is not valid UTF-8; edit_file refuses to edit non-text files",
                                ),
                            ),
                        ),
                        Some(content) => match replace_once(
                            path,
                            content.as_str(),
                            self.old_string.as_str(),
                            self.new_string.as_str(),
                        ) {
                            Ok(s) => EditStep::Write(s),
                            Err(e) => EditStep::Finish(e),
                        },
                    }
                },
                _ => EditStep::Read,
            },
            EditStep::Write(s) => match fact {
                EditFact::Done => if create {
                    let mut m = about("created ", path, " (");
                    m.append(dec_u64(bytes_in(self.new_string.as_str()) as u64).as_str());
                    m.append(" bytes)");
                    EditStep::Finish(ToolResult::ok(m))
                } else {
                    EditStep::Finish(ToolResult::ok(concat("edited ", path)))
                },
                EditFact::Failed(e) => failed("failed to write `", path, e.as_str()),
                _ => EditStep::Write(s),
            },
            EditStep::Finish(r) => EditStep::Finish(r),
        }
    }
}

// ---------------------------------------------------------------------------
// Temporary files
// ---------------------------------------------------------------------------

/// The directory of a temporary file: that of the target.
pub open spec fn temp_dir(target: Seq<u8>) -> Seq<u8> {
    match path::path_parent(target) {
        Some(d) => d,
        None => utf8("."@),
    }
}

/// What a temporary file is named after: the name of the target, if that is text.
pub open spec fn temp_stem(target: Seq<u8>) -> Seq<char> {
    match path::path_file_name(target) {
        Some(f) => match path::utf8_text(f) {
            Some(t) => t,
            None => "edit_file"@,
        },
        None => "edit_file"@,
    }
}

/// The temporary file for a target: next to it, named after it, the process
/// and a count.
pub open spec fn temp_path(target: Seq<u8>, pid: nat, n: nat) -> Seq<u8> {
    path::under(
        temp_dir(target),
        utf8(
            "."@ + temp_stem(target) + ".edit_file."@ + text::dec(pid) + "."@ + text::dec(n)
                + ".tmp"@,
        ),
    )
}

/// The temporary file for a target.
pub fn temp_sibling(target: &FilePath, pid: u32, n: u64) -> (r: FilePath)
    ensures
        r@ == temp_path(target@, pid as nat, n as nat),
{
    let dir = match parent(target) {
        Some(d) => d,
        None => FilePath::from_text("."),
    };
    let name = match file_name(target) {
        Some(f) => match text_of_bytes(&f.bytes) {
            Some(t) => t,
            None => "edit_file".to_owned(),
        },
        None => "edit_file".to_owned(),
    };
    let mut s = concat(".", name.as_str());
    s.append(".edit_file.");
    s.append(dec_u64(pid as u64).as_str());
    s.append(".");
    s.append(dec_u64(n).as_str());
    s.append(".tmp");
    dir.under(&FilePath::from_text(s.as_str()))
}

// ---------------------------------------------------------------------------
// Writing a file whole
// ---------------------------------------------------------------------------

/// What writing a file whole asks for. The contents go to the temporary file,
/// which then takes the place of the target; where either fails the temporary
/// file is removed.
#[derive(Debug, PartialEq, Eq)]
pub enum WriteStep {
    /// That the temporary file hold the contents.
    WriteTemp,
    /// That the temporary file take the place of the target.
    Rename,
    /// That the temporary file be gone, as this went wrong.
    RemoveTemp(String),
    /// Nothing more: this is what came of it.
    Finish(Result<(), String>),
}

/// What writing a file whole asks for, once `done` came of what it asked for.
/// Whether the temporary file could be removed does not count.
pub open spec fn writes_on(asked: WriteStep, done: Result<(), String>) -> WriteStep {
    match (asked, done) {
        (WriteStep::WriteTemp, Ok(_)) => WriteStep::Rename,
        (WriteStep::WriteTemp, Err(e)) => WriteStep::RemoveTemp(e),
        (WriteStep::Rename, Ok(_)) => WriteStep::Finish(Ok(())),
        (WriteStep::Rename, Err(e)) => WriteStep::RemoveTemp(e),
        (WriteStep::RemoveTemp(e), _) => WriteStep::Finish(Err(e)),
        (WriteStep::Finish(r), _) => WriteStep::Finish(r),
    }
}

impl WriteStep {
    /// What writing a file whole asks for first.
    pub fn first() -> (r: WriteStep)
        ensures
            r is WriteTemp,
    {
        WriteStep::WriteTemp
    }

    /// What writing a file whole asks for, once `done` came of this.
    pub fn next(self, done: Result<(), String>) -> (r: WriteStep)
        ensures
            r == writes_on(self, done),
    {
        match self {
            WriteStep::WriteTemp => match done {
                Ok(_) => WriteStep::Rename,
                Err(e) => WriteStep::RemoveTemp(e),
            },
            WriteStep::Rename => match done {
                Ok(_) => WriteStep::Finish(Ok(())),
                Err(e) => WriteStep::RemoveTemp(e),
            },
            WriteStep::RemoveTemp(e) => WriteStep::Finish(Err(e)),
            WriteStep::Finish(r) => WriteStep::Finish(r),
        }
    }
}

// ---------------------------------------------------------------------------
// Laws
// ---------------------------------------------------------------------------

/// An edit changes one place and nothing else: what is before and after it stays
/// as it was.
pub proof fn law_an_edit_changes_one_place(content: Seq<char>, old: Seq<char>, new: Seq<char>)
    requires
        text::places(content, old, 0) == 1,
    ensures
        exists|i: int|
            {
                &&& #[trigger] text::matches_at(content, old, i)
                &&& forall|j: int| text::matches_at(content, old, j) ==> j == i
                &&& replaced(content, old, new) == content.take(i) + new + content.skip(
                    i + old.len(),
                )
            },
{
    text::lemma_places(content, old, 0);
    text::lemma_find(content, old, 0);
    let i = choose|i: int|
        0 <= i && text::matches_at(content, old, i) && forall|j: int|
            0 <= j && text::matches_at(content, old, j) ==> j == i;
    assert(text::find(content, old, 0) == Some(i));
    assert forall|j: int| text::matches_at(content, old, j) implies j == i by {
        assert(0 <= j);
    }
}

/// An edit can be taken back: where the new text stands in exactly one place of
/// the edited content, replacing it by the old one gives the content as it was.
pub proof fn law_an_edit_can_be_taken_back(content: Seq<char>, old: Seq<char>, new: Seq<char>)
    requires
        text::places(content, old, 0) == 1,
        text::places(replaced(content, old, new), new, 0) == 1,
    ensures
        replaced(replaced(content, old, new), new, old) == content,
{
    text::lemma_places(content, old, 0);
    text::lemma_find(content, old, 0);
    let i = text::find(content, old, 0)->Some_0;
    let edited = replaced(content, old, new);
    assert(edited == content.take(i) + new + content.skip(i + old.len()));
    assert(edited.subrange(i, i + new.len()) =~= new);
    assert(text::matches_at(edited, new, i));
    text::lemma_places(edited, new, 0);
    text::lemma_find(edited, new, 0);
    assert(text::find(edited, new, 0) == Some(i));
    assert(edited.take(i) =~= content.take(i));
    assert(edited.skip(i + new.len()) =~= content.skip(i + old.len()));
    assert(content =~= content.take(i) + content.subrange(i, i + old.len()) + content.skip(
        i + old.len(),
    ));
}

/// Creating never overwrites: an edit without an old text comes to a write only
/// by way of the parent directories, and to those only from a file that was
/// found not to exist.
pub proof fn law_creating_never_overwrites(
    args: EditArgs,
    asked: EditStep,
    fact: EditFact,
    next: EditStep,
)
    requires
        args.old_string@.len() == 0,
        follows(args, asked, fact, next),
    ensures
        next is Write && !(asked is Write) ==> asked is MakeParents && fact is Done,
        next is MakeParents && !(asked is MakeParents) ==> asked is Probe && fact
            == EditFact::Exists(false),
{
}

/// Only a unique text is replaced: an edit with an old text comes to a write
/// only from a file that is text and holds the old text in exactly one place.
pub proof fn law_only_a_unique_text_is_replaced(
    args: EditArgs,
    asked: EditStep,
    fact: EditFact,
    next: EditStep,
)
    requires
        args.old_string@.len() > 0,
        follows(args, asked, fact, next),
    ensures
        next is Write && !(asked is Write) <==> asked is Read && (fact matches EditFact::Bytes(b)
            && vstd::utf8::valid_utf8(b@) && text::places(
            vstd::utf8::decode_utf8(b@),
            args.old_string@,
            0,
        ) == 1),
{
}

/// Two temporary files of one process are different as long as their counts
/// are.
pub proof fn law_temporary_files_differ(target: Seq<u8>, pid: nat, a: nat, b: nat)
    requires
        a != b,
    ensures
        temp_path(target, pid, a) != temp_path(target, pid, b),
{
    if temp_path(target, pid, a) == temp_path(target, pid, b) {
        let front = "."@ + temp_stem(target) + ".edit_file."@ + text::dec(pid) + "."@;
        let x = text::dec(a);
        let y = text::dec(b);
        let p = front + x + ".tmp"@;
        let q = front + y + ".tmp"@;
        path::law_names_in_a_directory_tell_paths_apart(temp_dir(target), utf8(p), utf8(q));
        path::law_the_path_of_a_text_is_shown_as_it(p, q);
        assert(x =~= p.subrange(front.len() as int, (front.len() + x.len()) as int));
        assert(y =~= q.subrange(front.len() as int, (front.len() + y.len()) as int));
        text::lemma_number_of_dec(a);
        text::lemma_number_of_dec(b);
    }
}

/// What the target and the temporary file hold, if they exist.
pub struct FilesV {
    pub target: Option<Seq<char>>,
    pub temp: Option<Seq<char>>,
}

/// What a step does to the two files where it works (`ok`), and what it may do
/// where it does not: only writing can leave something unfinished behind, and
/// that in the temporary file. A rename replaces the target at once.
pub open spec fn step_effect(
    step: WriteStep,
    contents: Seq<char>,
    ok: bool,
    before: FilesV,
    after: FilesV,
) -> bool {
    match step {
        WriteStep::WriteTemp => after.target == before.target && (ok ==> after.temp == Some(
            contents,
        )),
        WriteStep::Rename => if ok {
            after.target == before.temp && after.temp is None
        } else {
            after == before
        },
        WriteStep::RemoveTemp(_) => after.target == before.target && (ok ==> after.temp is None),
        WriteStep::Finish(_) => after == before,
    }
}

/// Where the two files stand when a step is asked for: the target is as it was
/// until all has worked, and then holds the contents.
pub open spec fn files_at(
    step: WriteStep,
    contents: Seq<char>,
    was: Option<Seq<char>>,
    files: FilesV,
) -> bool {
    match step {
        WriteStep::Rename => files.target == was && files.temp == Some(contents),
        WriteStep::Finish(Ok(_)) => files.target == Some(contents) && files.temp is None,
        _ => files.target == was,
    }
}

/// A file is never half written: before and after every step the target holds
/// what it held at the start, or all of the new contents; it ends with the latter
/// exactly where the write succeeds. No temporary file is left behind, unless
/// removing it fails too.
pub proof fn law_a_file_is_never_half_written(
    step: WriteStep,
    done: Result<(), String>,
    contents: Seq<char>,
    was: Option<Seq<char>>,
    before: FilesV,
    after: FilesV,
)
    requires
        files_at(step, contents, was, before),
        step_effect(step, contents, done is Ok, before, after),
    ensures
        files_at(writes_on(step, done), contents, was, after),
        before.target == was || before.target == Some(contents),
        after.target == was || after.target == Some(contents),
        writes_on(step, done) matches WriteStep::Finish(r) ==> (if r is Ok {
            after.target == Some(contents) && after.temp is None
        } else {
            after.target == was && (step is RemoveTemp && done is Ok ==> after.temp is None)
        }),
{
}

/// What an edit writes: where the old text stands at one place of the file and at no
/// other, the file is to hold what it held, with the new text, exactly as it was
/// given, in that place.
pub proof fn law_an_edit_writes_the_new_text_in_the_one_place(
    args: EditArgs,
    bytes: Vec<u8>,
    next: EditStep,
    content: Seq<char>,
    i: int,
)
    requires
        call_ensures(EditArgs::next, (&args, EditStep::Read, EditFact::Bytes(bytes)), next),
        args.old_string@.len() > 0,
        vstd::utf8::valid_utf8(bytes@),
        content == vstd::utf8::decode_utf8(bytes@),
        0 <= i <= content.len() - args.old_string@.len(),
        content.subrange(i, i + args.old_string@.len()) == args.old_string@,
        forall|j: int|
            0 <= j <= content.len() - args.old_string@.len() && #[trigger] content.subrange(
                j,
                j + args.old_string@.len(),
            ) == args.old_string@ ==> j == i,
    ensures
        next matches EditStep::Write(s) && {
            &&& s@ == content.take(i) + args.new_string@ + content.skip(
                i + args.old_string@.len(),
            )
            &&& s@.len() == content.len() - args.old_string@.len() + args.new_string@.len()
            &&& s@.subrange(i, i + args.new_string@.len()) == args.new_string@
        },
{
    let old = args.old_string@;
    assert(text::matches_at(content, old, i));
    assert forall|j: int| text::matches_at(content, old, j) implies j == i by {
        assert(content.subrange(j, j + old.len()) == old);
    }
    text::lemma_one_place(content, old, 0, i);
    text::lemma_find(content, old, 0);
    assert(text::find(content, old, 0) == Some(i));
    let s = content.take(i) + args.new_string@ + content.skip(i + old.len());
    assert(s.subrange(i, i + args.new_string@.len()) =~= args.new_string@);
}

/// What an edit refuses: where the old text stands at no place of the file, or at
/// two, and where the file is no text, nothing is written.
pub proof fn law_an_edit_without_one_place_is_refused(
    args: EditArgs,
    bytes: Vec<u8>,
    next: EditStep,
    i: int,
    j: int,
)
    requires
        call_ensures(EditArgs::next, (&args, EditStep::Read, EditFact::Bytes(bytes)), next),
        args.old_string@.len() > 0,
        vstd::utf8::valid_utf8(bytes@) ==> {
            let content = vstd::utf8::decode_utf8(bytes@);
            let n = args.old_string@.len();
            ||| forall|k: int|
                0 <= k <= content.len() - n ==> #[trigger] content.subrange(k, k + n)
                    != args.old_string@
            ||| {
                &&& 0 <= i < j <= content.len() - n
                &&& content.subrange(i, i + n) == args.old_string@
                &&& content.subrange(j, j + n) == args.old_string@
            }
        },
    ensures
        next matches EditStep::Finish(r) && r.is_error,
{
    let content = vstd::utf8::decode_utf8(bytes@);
    let old = args.old_string@;
    text::lemma_places(content, old, 0);
    if text::places(content, old, 0) == 1 {
        let k = choose|k: int|
            0 <= k && text::matches_at(content, old, k) && forall|m: int|
                0 <= m && text::matches_at(content, old, m) ==> m == k;
        assert(content.subrange(k, k + old.len()) == old);
        if vstd::utf8::valid_utf8(bytes@) {
            assert(!text::matches_at(content, old, i) || !text::matches_at(content, old, j));
        }
    }
}

/// A new file holds the new text, exactly as it was given, and is made only where
/// there was none.
pub proof fn law_a_new_file_holds_the_new_text(
    args: EditArgs,
    asked: EditStep,
    fact: EditFact,
    next: EditStep,
)
    requires
        call_ensures(EditArgs::next, (&args, asked, fact), next),
        args.old_string@.len() == 0,
    ensures
        asked is Probe && fact == EditFact::Exists(false) ==> next is MakeParents,
        asked is Probe && fact == EditFact::Exists(true) ==> (next matches EditStep::Finish(r)
            && r.is_error),
        asked is MakeParents && fact is Done ==> (next matches EditStep::Write(s) && s@
            == args.new_string@),
{
}

/// An edit of a file reads it if it exists, and is refused if it does not.
pub proof fn law_an_edit_reads_what_exists(args: EditArgs, exists_now: bool, next: EditStep)
    requires
        call_ensures(EditArgs::next, (&args, EditStep::Probe, EditFact::Exists(exists_now)), next),
        args.old_string@.len() > 0,
    ensures
        exists_now ==> next is Read,
        !exists_now ==> (next matches EditStep::Finish(r) && r.is_error),
{
}

/// How an edit ends: well only with a write that was done, and then it says so and
/// nothing more; with any step that failed it ends at once, as a problem, and says
/// what the problem was. Either way it names the path as it was given.
pub proof fn law_how_an_edit_ends(
    args: EditArgs,
    asked: EditStep,
    fact: EditFact,
    next: EditStep,
)
    requires
        call_ensures(EditArgs::next, (&args, asked, fact), next),
        !(asked is Finish),
    ensures
        asked is Write && fact is Done ==> next is Finish,
        !(asked is Probe) && fact is Failed ==> next is Finish,
        next matches EditStep::Finish(r) ==> {
            &&& r.is_error == !(asked is Write && fact is Done)
            &&& r.detail is None
            &&& r.offload_path is None
            &&& text::contains(r.summary@, args.path@)
            &&& fact matches EditFact::Failed(e) ==> text::contains(r.summary@, e@)
        },
{
    if let EditStep::Finish(r) = next {
        let path = args.path@;
        let said = r.summary@;
        match (asked, fact) {
            (EditStep::Probe, EditFact::Exists(exists_now)) => {
                if exists_now {
                    lemma_names(
                        "`"@,
                        path,
                        "` already exists — pass a non-empty `old_string` to edit it, or delete it first via bash if you truly need to overwrite"@,
                    );
                } else {
                    lemma_names(
                        "`"@,
                        path,
                        "` does not exist — pass an empty `old_string` to create it instead"@,
                    );
                }
            },
            (EditStep::MakeParents, EditFact::Failed(e)) => {
                lemma_names_both("failed to create parent directories for `"@, path, "`: "@, e@);
            },
            (EditStep::Read, EditFact::Failed(e)) => {
                lemma_names_both("failed to read `"@, path, "`: "@, e@);
            },
            (EditStep::Write(_), EditFact::Failed(e)) => {
                lemma_names_both("failed to write `"@, path, "`: "@, e@);
            },
            (EditStep::Read, EditFact::Bytes(bytes)) => {
                lemma_names(
                    "`"@,
                    path,
                    "` is not valid UTF-8; edit_file refuses to edit non-text files"@,
                );
                let count = text::places(
                    vstd::utf8::decode_utf8(bytes@),
                    args.old_string@,
                    0,
                );
                lemma_names(
                    "old_string not found in `"@,
                    path,
                    "` — read the file and copy the exact text, including whitespace"@,
                );
                lemma_names(
                    "old_string matches "@ + text::dec(count) + " locations in `"@,
                    path,
                    "` — include more surrounding context to make it unique"@,
                );
            },
            (EditStep::Write(_), EditFact::Done) => {
                if args.old_string@.len() == 0 {
                    let size = text::dec(text::byte_len(args.new_string@));
                    lemma_names("created "@, path, " ("@ + size + " bytes)"@);
                    assert("created "@ + path + (" ("@ + size + " bytes)"@) =~= "created "@ + path
                        + " ("@ + size + " bytes)"@);
                } else {
                    lemma_names("edited "@, path, Seq::empty());
                    assert("edited "@ + path + Seq::<char>::empty() =~= "edited "@ + path);
                }
            },
            _ => {},
        }
    }
}

/// What stands between two texts stands in them together.
proof fn lemma_names(head: Seq<char>, middle: Seq<char>, tail: Seq<char>)
    ensures
        text::contains(head + middle + tail, middle),
{
    let all = head + middle + tail;
    let i = head.len() as int;
    assert(all.subrange(i, i + middle.len()) =~= middle);
    assert(text::matches_at(all, middle, i));
}

proof fn lemma_names_both(head: Seq<char>, a: Seq<char>, between: Seq<char>, b: Seq<char>)
    ensures
        text::contains(head + a + between + b, a),
        text::contains(head + a + between + b, b),
{
    lemma_names(head, a, between + b);
    assert(head + a + (between + b) =~= head + a + between + b);
    lemma_names(head + a + between, b, Seq::empty());
    assert(head + a + between + b + Seq::<char>::empty() =~= head + a + between + b);
}

/// An edit is of the path, the old text and the new text that the input holds under
/// these names, as they are; an input that lacks one of them, or holds something
/// else there, is refused.
pub proof fn law_an_edit_is_what_the_input_says(input: JsonV)
    ensures
        edit_of(input) matches Ok((path, old, new)) ==> {
            &&& json::field(input, "path"@) == Some(JsonV::String(path))
            &&& json::field(input, "old_string"@) == Some(JsonV::String(old))
            &&& json::field(input, "new_string"@) == Some(JsonV::String(new))
        },
        edit_of(input) is Err <==> {
            ||| !(json::field(input, "path"@) matches Some(JsonV::String(_)))
            ||| !(json::field(input, "old_string"@) matches Some(JsonV::String(_)))
            ||| !(json::field(input, "new_string"@) matches Some(JsonV::String(_)))
        },
{
}

/// The file that is edited is the one that the input names: under the workspace root,
/// name by name, and with the texts of the input as they are.
pub proof fn law_the_file_edited_is_the_one_named(
    tool: EditFileTool,
    input: Json,
    w: Workspace,
    r: Result<(EditArgs, FilePath), ToolResult>,
)
    requires
        call_ensures(EditFileTool::plan, (&tool, &input, &w), r),
    ensures
        r matches Ok((args, target)) ==> {
            &&& json::field(input@, "path"@) == Some(JsonV::String(args.path@))
            &&& json::field(input@, "old_string"@) == Some(JsonV::String(args.old_string@))
            &&& json::field(input@, "new_string"@) == Some(JsonV::String(args.new_string@))
            &&& !(args.path@.len() > 0 && args.path@[0] == '/')
            &&& target@ == path::under(
                w.root_view(),
                utf8(text::join(workspace::segments(args.path@), "/"@)),
            )
        },
        r matches Err(e) ==> e.is_error && e.detail is None,
{
    if let Ok((args, target)) = r {
        assert(w.lets_write(args.path@, Ok(target)));
    }
}

/// A temporary file lies beside its target, under a name that starts with a dot and
/// ends with `.tmp`.
pub proof fn law_a_temporary_file_lies_beside_its_target(
    target: FilePath,
    pid: u32,
    n: u64,
    r: FilePath,
    dir: Seq<u8>,
)
    requires
        call_ensures(temp_sibling, (&target, pid, n), r),
        dir == (match path::path_parent(target@) {
            Some(d) => d,
            None => utf8("."@),
        }),
    ensures
        exists|name: Seq<char>|
            {
                &&& r@ == #[trigger] path::under(dir, utf8(name))
                &&& name.len() > 5
                &&& name[0] == '.'
                &&& name.skip(name.len() - 4) == ".tmp"@
            },
{
    let name = "."@ + temp_stem(target@) + ".edit_file."@ + text::dec(pid as nat) + "."@
        + text::dec(n as nat) + ".tmp"@;
    reveal_strlit(".");
    reveal_strlit(".edit_file.");
    reveal_strlit(".tmp");
    assert(name.skip(name.len() - 4) =~= ".tmp"@);
    assert(dir == temp_dir(target@));
    assert(r@ == path::under(dir, utf8(name)));
}

/// How a whole write goes on: the temporary file first, then the rename, and nothing
/// more where both worked; where either did not, the temporary file is removed, and what
/// went wrong first is what is told.
pub proof fn law_how_a_whole_write_goes_on(
    asked: WriteStep,
    done: Result<(), String>,
    next: WriteStep,
)
    requires
        call_ensures(WriteStep::next, (asked, done), next),
    ensures
        asked is WriteTemp && done is Ok ==> next is Rename,
        asked is Rename && done is Ok ==> next == WriteStep::Finish(Ok(())),
        (asked is WriteTemp || asked is Rename) && done is Err ==> next == WriteStep::RemoveTemp(
            done->Err_0,
        ),
        asked matches WriteStep::RemoveTemp(e) ==> next == WriteStep::Finish(Err(e)),
        asked is Finish ==> next == asked,
{
}

} // verus!
