//! The `read_file` tool: gives a file's text as it is, or some lines of it.
//!
//! No line numbers are put in front of the lines, so that what the model copies
//! from here is what `edit_file` finds in the file.
use vstd::prelude::*;

use crate::json;
use crate::json::{Items, Json, JsonV, Members, NumberV};
use crate::path::{under, utf8, FilePath};
use crate::text;
use crate::text::{
    chars_of, concat, dec_u64, lossy_text_of_bytes, spans_of, string_of, text_of_bytes,
};
use crate::tool;
use crate::tool::{OffloadSink, Tool, ToolCtx, ToolResult};
use crate::workspace;
use crate::workspace::Workspace;

verus! {

/// The name that the tool is registered and called under.
pub const READ_FILE_TOOL_NAME: &'static str = "read_file";

/// What the tool is, as told to the model.
pub const DESCRIPTION: &'static str = "Read a file's contents. Output is the RAW file text — no line-number prefixes are added, so a passage copied from here matches verbatim when reused as `old_string` in `edit_file`. `path` is workspace-relative; an absolute offload path advertised by a prior truncated tool result is also readable here. Optional `offset` (1-based first line) and `limit` (max lines) slice the file line-wise before it is returned.";

/// What `path` is, as told to the model.
pub const PATH_DESCRIPTION: &'static str = "Workspace-relative path to read, or an absolute offload path returned by an earlier truncated tool result.";

/// What `offset` is, as told to the model.
pub const OFFSET_DESCRIPTION: &'static str = "1-based first line to return (default: 1, the start of the file).";

/// What `limit` is, as told to the model.
pub const LIMIT_DESCRIPTION: &'static str = "Maximum number of lines to return (default: all remaining lines).";

/// The message for an input without a path.
pub const NO_PATH: &'static str = "read_file: missing required string field `path`";

/// The message for a first line of zero.
pub const ZERO_OFFSET: &'static str = "read_file: `offset` is 1-based; use offset >= 1";

/// What the summary adds where bytes were replaced.
pub const LOSSY_NOTE: &'static str = " (non-UTF-8 bytes replaced with U+FFFD)";

/// The `read_file` tool.
#[derive(Debug, Default, Clone, Copy)]
pub struct ReadFileTool;

impl Tool for ReadFileTool {
    open spec fn name_view(&self) -> Seq<char> {
        READ_FILE_TOOL_NAME@
    }

    open spec fn schema_view(&self) -> JsonV {
        let properties = JsonV::Object(
            Seq::empty().push(("path"@, json::typed("string"@, PATH_DESCRIPTION@))).push(
                ("offset"@, json::typed("integer"@, OFFSET_DESCRIPTION@)),
            ).push(("limit"@, json::typed("integer"@, LIMIT_DESCRIPTION@))),
        );
        JsonV::Object(
            Seq::empty().push(("name"@, JsonV::String(READ_FILE_TOOL_NAME@))).push(
                ("description"@, JsonV::String(DESCRIPTION@)),
            ).push(
                (
                    "input_schema"@,
                    JsonV::Object(
                        Seq::empty().push(("type"@, JsonV::String("object"@))).push(
                            ("properties"@, properties),
                        ).push(
                            (
                                "required"@,
                                JsonV::Array(Seq::empty().push(JsonV::String("path"@))),
                            ),
                        ),
                    ),
                ),
            ),
        )
    }

    fn name(&self) -> (r: &str) {
        READ_FILE_TOOL_NAME
    }

    fn schema(&self) -> (r: Json) {
        let mut properties = Members::new();
        properties.push("path", json::property("string", PATH_DESCRIPTION));
        properties.push("offset", json::property("integer", OFFSET_DESCRIPTION));
        properties.push("limit", json::property("integer", LIMIT_DESCRIPTION));
        let mut required = Items::new();
        required.push(json::text("path"));
        let mut input = Members::new();
        input.push("type", json::text("object"));
        input.push("properties", properties.object());
        input.push("required", required.array());
        let mut s = Members::new();
        s.push("name", json::text(READ_FILE_TOOL_NAME));
        s.push("description", json::text(DESCRIPTION));
        s.push("input_schema", input.object());
        s.object()
    }
}

// ---------------------------------------------------------------------------
// The input
// ---------------------------------------------------------------------------

/// The number, if any, as a mathematical one.
pub open spec fn int_of(n: Option<u64>) -> Option<int> {
    match n {
        Some(k) => Some(k as int),
        None => None,
    }
}

/// The number under `name`: none where there is no such field or it is null, and
/// an error where it is anything else than a number that fits.
pub open spec fn optional_number(input: JsonV, name: Seq<char>) -> Result<Option<int>, Seq<char>> {
    match json::field(input, name) {
        None => Ok(None),
        Some(JsonV::Null) => Ok(None),
        Some(v) => match json::as_unsigned(v) {
            Some(n) => Ok(Some(n)),
            None => Err("read_file: `"@ + name + "` must be a non-negative integer"@),
        },
    }
}

/// The number under `name`, if any.
pub fn parse_optional_u64(input: &Json, name: &str) -> (r: Result<Option<u64>, String>)
    ensures
        match optional_number(input@, name@) {
            Ok(n) => r matches Ok(k) && int_of(k) == n,
            Err(m) => r matches Err(e) && e@ == m,
        },
{
    match input.get(name) {
        None => Ok(None),
        Some(v) => {
            if v.is_null() {
                return Ok(None);
            }
            match v.as_u64() {
                Some(n) => Ok(Some(n)),
                None => {
                    let mut e = concat("read_file: `", name);
                    e.append("` must be a non-negative integer");
                    Err(e)
                },
            }
        },
    }
}

/// What to read: the path as it was supplied, and which lines.
#[derive(Debug, Clone, PartialEq, Eq)]
pub struct ReadArgs {
    pub path: String,
    pub offset: Option<u64>,
    pub limit: Option<u64>,
}

/// What an input asks for, or the first thing that is wrong with it.
pub open spec fn read_of(input: JsonV) -> Result<
    (Seq<char>, Option<int>, Option<int>),
    Seq<char>,
> {
    match json::text_field(input, "path"@) {
        None => Err(NO_PATH@),
        Some(path) => match optional_number(input, "offset"@) {
            Err(m) => Err(m),
            Ok(offset) => match optional_number(input, "limit"@) {
                Err(m) => Err(m),
                Ok(limit) => Ok((path, offset, limit)),
            },
        },
    }
}

// ---------------------------------------------------------------------------
// The result
// ---------------------------------------------------------------------------

/// The lines from the first one asked for on, and no more than asked for.
pub open spec fn sliced<A>(lines: Seq<A>, offset: Option<int>, limit: Option<int>) -> Seq<A> {
    let start = match offset {
        Some(n) => n,
        None => 1,
    };
    let rest = if start - 1 <= lines.len() {
        lines.skip(start - 1)
    } else {
        Seq::empty()
    };
    match limit {
        Some(n) => if n < rest.len() {
            rest.take(n)
        } else {
            rest
        },
        None => rest,
    }
}

/// The passage of `content` from the start of the first of these lines to the end
/// of the last, with all that stands between them.
pub open spec fn passage(content: Seq<char>, spans: Seq<(int, int)>) -> Seq<char> {
    if spans.len() == 0 {
        Seq::empty()
    } else {
        content.subrange(spans[0].0, spans.last().1)
    }
}

/// What is wrong with asking for the lines from `offset` on, if anything: there
/// is no line zero, and an offset past the last line of a file that has lines is
/// refused.
pub open spec fn offset_refusal(
    path: Seq<char>,
    lines: nat,
    offset: Option<int>,
) -> Option<Seq<char>> {
    match offset {
        None => None,
        Some(start) => if start == 0 {
            Some(ZERO_OFFSET@)
        } else if lines > 0 && start > lines {
            Some(
                "read_file: offset "@ + text::dec(start as nat) + " is past the end of `"@ + path
                    + "` ("@ + text::dec(lines) + " lines)"@,
            )
        } else {
            None
        },
    }
}

/// The summary of a read that gave `count` lines.
pub open spec fn read_summary(path: Seq<char>, count: nat, lossy: bool) -> Seq<char> {
    let head = path + ": "@ + text::dec(count) + " lines"@;
    if lossy {
        head + LOSSY_NOTE@
    } else {
        head
    }
}

/// `r` is the result of reading the text `content`. Without an offset and a
/// limit the text is given as it is; with either, the lines asked for are given as
/// one passage of it.
pub open spec fn shown<S: OffloadSink>(
    ctx: ToolCtx<S>,
    args: ReadArgs,
    content: Seq<char>,
    lossy: bool,
    r: ToolResult,
) -> bool {
    let path = args.path@;
    let lines = text::line_spans(content, 0);
    if args.offset is None && args.limit is None {
        &&& tool::detailed(ctx, read_summary(path, lines.len(), lossy), content, r)
        &&& !r.is_error
    } else {
        match offset_refusal(path, lines.len(), int_of(args.offset)) {
            Some(m) => tool::refusal(r, m),
            None => {
                let part = sliced(lines, int_of(args.offset), int_of(args.limit));
                &&& tool::detailed(
                    ctx,
                    read_summary(path, part.len(), lossy),
                    passage(content, part),
                    r,
                )
                &&& !r.is_error
            },
        }
    }
}

/// `detail` is a passage of `content`.
pub open spec fn is_passage(detail: Seq<char>, content: Seq<char>) -> bool {
    exists|i: int, j: int|
        0 <= i <= j <= content.len() && detail == #[trigger] content.subrange(i, j)
}

/// A slice is a passage.
proof fn lemma_passage(content: Seq<char>, offset: Option<int>, limit: Option<int>)
    requires
        offset matches Some(n) ==> n > 0,
        limit matches Some(n) ==> n >= 0,
    ensures
        is_passage(
            passage(content, sliced(text::line_spans(content, 0), offset, limit)),
            content,
        ),
{
    let all = text::line_spans(content, 0);
    let part = sliced(all, offset, limit);
    text::lemma_spans(content, 0);
    if part.len() == 0 {
        assert(passage(content, part) =~= content.subrange(0, 0));
    } else {
        let a = match offset {
            Some(n) => n - 1,
            None => 0,
        };
        let b = a + part.len() - 1;
        assert(part[0] == all[a]);
        assert(part.last() == all[b]);
        if a < b {
            assert(all[a].1 < all[b].0);
        }
        let i = part[0].0;
        let j = part.last().1;
        assert(passage(content, part) == content.subrange(i, j));
    }
}

/// The result of reading a file that holds `content`; `lossy` says whether bytes
/// of it were replaced.
pub fn show<S: OffloadSink>(args: &ReadArgs, content: String, lossy: bool, ctx: &ToolCtx<S>) -> (r:
    ToolResult)
    ensures
        shown(*ctx, *args, content@, lossy, r),
        !r.is_error && r.offload_path is None ==> (r.detail matches Some(d) && is_passage(
            d@,
            content@,
        )),
{
    let ghost whole = content@;
    let cs = chars_of(content.as_str());
    let lines = spans_of(&cs);
    let ghost spans = text::line_spans(whole, 0);
    let total: usize = lines.len();
    proof {
        assert(spans.len() == total);
        text::lemma_spans(whole, 0);
        assert(whole =~= whole.subrange(0, whole.len() as int));
    }
    if args.offset.is_none() && args.limit.is_none() {
        let summary = summarise(args.path.as_str(), total, lossy);
        return ToolResult::with_detail(summary, content, ctx);
    }
    let start: u64 = match args.offset {
        Some(n) => n,
        None => 1,
    };
    if start == 0 {
        return ToolResult::error(ZERO_OFFSET.to_owned());
    }
    if total > 0 && start > total as u64 {
        let mut e = concat("read_file: offset ", dec_u64(start).as_str());
        e.append(" is past the end of `");
        e.append(args.path.as_str());
        e.append("` (");
        e.append(dec_u64(total as u64).as_str());
        e.append(" lines)");
        return ToolResult::error(e);
    }
    let mut first: usize = total;
    if start - 1 < total as u64 {
        first = (start - 1) as usize;
    }
    let mut end: usize = total;
    if let Some(n) = args.limit {
        if n < (total - first) as u64 {
            end = first + n as usize;
        }
    }
    let ghost part = sliced(spans, int_of(args.offset), int_of(args.limit));
    proof {
        assert(part =~= spans.subrange(first as int, end as int));
        lemma_passage(whole, int_of(args.offset), int_of(args.limit));
    }
    let summary = summarise(args.path.as_str(), end - first, lossy);
    if first >= end {
        return ToolResult::with_detail(summary, String::new(), ctx);
    }
    let from: usize = lines[first].0;
    let to: usize = lines[end - 1].1;
    proof {
        assert(spans[first as int] == (from as int, lines@[first as int].1 as int));
        assert(spans[end - 1] == (lines@[end - 1].0 as int, to as int));
        assert(part[0] == spans[first as int]);
        assert(part.last() == spans[end - 1]);
        if first < end - 1 {
            assert(spans[first as int].1 < spans[end - 1].0);
        }
    }
    ToolResult::with_detail(summary, string_of(&cs, from, to), ctx)
}

/// The summary of a read that gave `count` lines.
fn summarise(path: &str, count: usize, lossy: bool) -> (r: String)
    ensures
        r@ == read_summary(path@, count as nat, lossy),
{
    let mut s = concat(path, ": ");
    s.append(dec_u64(count as u64).as_str());
    s.append(" lines");
    if lossy {
        s.append(LOSSY_NOTE);
    }
    s
}

impl ReadFileTool {
    /// What `input` asks for and the file that its path leads to, or what is
    /// wrong with the input or its path. Where the path leads is up to the
    /// workspace.
    pub fn plan(&self, input: &Json, workspace: &Workspace) -> (r: Result<
        (ReadArgs, FilePath),
        ToolResult,
    >)
        ensures
            match read_of(input@) {
                Ok((path, offset, limit)) => match r {
                    Ok((args, target)) => {
                        &&& args.path@ == path
                        &&& int_of(args.offset) == offset
                        &&& int_of(args.limit) == limit
                        &&& workspace.lets_read(path, Ok(target))
                    },
                    Err(e) => tool::refusal(e, workspace::path_refusal(path))
                        && workspace.refuses_read(path),
                },
                Err(m) => r matches Err(e) && tool::refusal(e, m),
            },
    {
        let path = match input.text_at("path") {
            Some(p) => p,
            None => {
                return Err(ToolResult::error(NO_PATH.to_owned()));
            },
        };
        let offset = match parse_optional_u64(input, "offset") {
            Ok(n) => n,
            Err(e) => {
                return Err(ToolResult::error(e));
            },
        };
        let limit = match parse_optional_u64(input, "limit") {
            Ok(n) => n,
            Err(e) => {
                return Err(ToolResult::error(e));
            },
        };
        match workspace.resolve_read(path) {
            Ok(target) => Ok((ReadArgs { path: path.to_owned(), offset, limit }, target)),
            Err(v) => Err(ToolResult::error(v.message())),
        }
    }

    /// The result of reading the file: its bytes, or why it could not be read.
    /// Bytes that are not text are shown with the bad ones replaced.
    pub fn finish<S: OffloadSink>(
        &self,
        args: &ReadArgs,
        read: Result<Vec<u8>, String>,
        ctx: &ToolCtx<S>,
    ) -> (r: ToolResult)
        ensures
            match read {
                Err(e) => tool::refusal(
                    r,
                    "read_file: cannot read `"@ + args.path@ + "`: "@ + e@,
                ),
                Ok(bytes) => if vstd::utf8::valid_utf8(bytes@) {
                    &&& shown(*ctx, *args, vstd::utf8::decode_utf8(bytes@), false, r)
                    &&& !r.is_error && r.offload_path is None ==> (r.detail matches Some(d)
                        && is_passage(d@, vstd::utf8::decode_utf8(bytes@)))
                } else {
                    shown(*ctx, *args, text::lossy_text(bytes@), true, r)
                },
            },
    {
        match read {
            Err(cause) => {
                let mut e = concat("read_file: cannot read `", args.path.as_str());
                e.append("`: ");
                e.append(cause.as_str());
                ToolResult::error(e)
            },
            Ok(bytes) => match text_of_bytes(&bytes) {
                Some(content) => show(args, content, false, ctx),
                None => show(args, lossy_text_of_bytes(&bytes), true, ctx),
            },
        }
    }
}

// ---------------------------------------------------------------------------
// Laws
// ---------------------------------------------------------------------------

/// A file that is read in two parts, one up to a line and one from the next line
/// on, is read whole: no line is lost and none is read twice.
pub proof fn law_slices_fit_together<A>(lines: Seq<A>, k: int)
    requires
        0 <= k <= lines.len(),
    ensures
        sliced(lines, None, Some(k)) + sliced(lines, Some(k + 1), None) == lines,
{
    assert(lines.skip(0) =~= lines);
    assert(lines.take(k) + lines.skip(k) =~= lines);
}

/// A slice is a run of the file's lines, in their order, and never more of them
/// than the limit.
pub proof fn law_a_slice_is_a_run_of_lines<A>(
    lines: Seq<A>,
    offset: Option<int>,
    limit: Option<int>,
    i: int,
)
    requires
        offset matches Some(n) ==> n > 0,
        limit matches Some(n) ==> n >= 0,
        0 <= i < sliced(lines, offset, limit).len(),
    ensures
        ({
            let start = match offset {
                Some(n) => n,
                None => 1,
            };
            sliced(lines, offset, limit)[i] == lines[start - 1 + i]
        }),
        limit matches Some(n) ==> sliced(lines, offset, limit).len() <= n,
{
}

/// What is read can be looked for: a slice stands in the file as it is, whatever
/// its lines end with, so that a passage copied from it is found there.
pub proof fn law_a_slice_stands_in_the_file(
    content: Seq<char>,
    offset: Option<int>,
    limit: Option<int>,
    i: int,
    j: int,
)
    requires
        offset matches Some(n) ==> n > 0,
        limit matches Some(n) ==> n >= 0,
        0 <= i <= j <= passage(
            content,
            sliced(text::line_spans(content, 0), offset, limit),
        ).len(),
    ensures
        text::contains(
            content,
            passage(content, sliced(text::line_spans(content, 0), offset, limit)).subrange(i, j),
        ),
{
    let all = passage(content, sliced(text::line_spans(content, 0), offset, limit));
    lemma_passage(content, offset, limit);
    let (a, b) = choose|a: int, b: int|
        0 <= a <= b <= content.len() && all == #[trigger] content.subrange(a, b);
    assert(content.subrange(a + i, a + i + (j - i)) =~= all.subrange(i, j));
    assert(text::matches_at(content, all.subrange(i, j), a + i));
}

/// Where a file has no carriage returns, a slice is its lines with line feeds
/// between them.
pub proof fn law_a_slice_joins_its_lines(
    content: Seq<char>,
    offset: Option<int>,
    limit: Option<int>,
)
    requires
        forall|k: int| 0 <= k < content.len() ==> content[k] != '\r',
        offset matches Some(n) ==> n > 0,
        limit matches Some(n) ==> n >= 0,
    ensures
        passage(content, sliced(text::line_spans(content, 0), offset, limit)) == text::join(
            sliced(text::lines(content), offset, limit),
            "\n"@,
        ),
{
    let spans = text::line_spans(content, 0);
    let lines = text::lines(content);
    text::lemma_spans_are_lines(content, 0);
    assert(content.skip(0) =~= content);
    let part = sliced(spans, offset, limit);
    let a = match offset {
        Some(n) => n - 1,
        None => 0,
    };
    if part.len() > 0 {
        let b = a + part.len();
        assert(part =~= spans.subrange(a, b));
        assert(sliced(lines, offset, limit) =~= lines.subrange(a, b));
        lemma_passage_joins(content, a, b);
    } else {
        assert(sliced(lines, offset, limit) =~= Seq::empty());
    }
}

/// The passage of some lines of a text without carriage returns.
proof fn lemma_passage_joins(content: Seq<char>, a: int, b: int)
    requires
        forall|k: int| 0 <= k < content.len() ==> content[k] != '\r',
        0 <= a < b <= text::line_spans(content, 0).len(),
    ensures
        content.subrange(text::line_spans(content, 0)[a].0, text::line_spans(content, 0)[b - 1].1)
            == text::join(text::lines(content).subrange(a, b), "\n"@),
    decreases b,
{
    let spans = text::line_spans(content, 0);
    let lines = text::lines(content);
    text::lemma_spans_are_lines(content, 0);
    text::lemma_spans(content, 0);
    assert(content.skip(0) =~= content);
    assert(lines[b - 1] == content.subrange(spans[b - 1].0, spans[b - 1].1));
    let part = lines.subrange(a, b);
    if b - 1 > a {
        lemma_passage_joins(content, a, b - 1);
        text::lemma_spans_without_returns(content, 0, b - 2);
        assert(part.drop_last() =~= lines.subrange(a, b - 1));
        reveal_strlit("\n");
        let front = content.subrange(spans[a].0, spans[b - 2].1);
        assert(spans[a].0 <= spans[b - 2].1) by {
            if a < b - 2 {
                assert(spans[a].1 < spans[b - 2].0);
            }
        }
        assert(content.subrange(spans[a].0, spans[b - 1].1) =~= front + "\n"@ + lines[b - 1]);
    }
}

/// How many lines a text has.
pub open spec fn line_count(content: Seq<char>) -> nat {
    text::occurrences(content, '\n') + (if content.len() > 0 && content.last() != '\n' {
        1nat
    } else {
        0
    })
}

/// A file that is read without an offset and a limit is shown whole: no character of
/// it is left out, added or changed, while it is short enough; and the summary names
/// the path and counts all of its lines.
pub proof fn law_a_file_is_shown_whole<S: OffloadSink>(
    args: ReadArgs,
    content: String,
    lossy: bool,
    ctx: ToolCtx<S>,
    r: ToolResult,
)
    requires
        call_ensures(show::<S>, (&args, content, lossy, &ctx), r),
        args.offset is None,
        args.limit is None,
    ensures
        !r.is_error,
        content@.len() <= 25_000 ==> (r.detail matches Some(d) && d@ == content@)
            && r.offload_path is None,
        content@.len() > 25_000 ==> r.offload_path is Some && (r.detail matches Some(d) && d@.take(
            25_000,
        ) == content@.take(25_000)),
        !lossy ==> r.summary@ == args.path@ + ": "@ + text::dec(line_count(content@)) + " lines"@,
        lossy ==> r.summary@ == args.path@ + ": "@ + text::dec(line_count(content@)) + " lines"@
            + " (non-UTF-8 bytes replaced with U+FFFD)"@,
{
    text::law_how_many_lines_a_text_has(content@);
    if content@.len() > 25_000 {
        assert(r.detail->Some_0@.take(25_000) =~= content@.take(25_000));
    }
}

/// Which lines are shown where an offset or a limit is given: from the line with the
/// number of the offset on, or from the first; as many as the limit says, or as there
/// are. They are shown as one passage of the file, from the start of the first to the
/// end of the last, and the summary says how many they are.
pub proof fn law_the_lines_asked_for_are_shown<S: OffloadSink>(
    args: ReadArgs,
    content: String,
    lossy: bool,
    ctx: ToolCtx<S>,
    r: ToolResult,
    first: int,
    count: nat,
)
    requires
        call_ensures(show::<S>, (&args, content, lossy, &ctx), r),
        args.offset is Some || args.limit is Some,
        first == (match args.offset {
            Some(n) => n as int,
            None => 1,
        }),
        count == ({
            let rest = line_count(content@) - (first - 1);
            let most: int = match args.limit {
                Some(n) => n as int,
                None => rest,
            };
            if rest <= 0 {
                0nat
            } else if most < rest {
                most as nat
            } else {
                rest as nat
            }
        }),
    ensures
        r.is_error <==> first == 0 || (line_count(content@) > 0 && first > line_count(content@)),
        !r.is_error && !lossy ==> r.summary@ == args.path@ + ": "@ + text::dec(count) + " lines"@,
        !r.is_error && count == 0 ==> (r.detail matches Some(d) && d@.len() == 0),
        !r.is_error && count > 0 && r.offload_path is None ==> exists|i: int, j: int|
            {
                &&& 0 <= i <= j <= content@.len()
                &&& r.detail matches Some(d) && d@ == #[trigger] content@.subrange(i, j)
                &&& i > 0 ==> content@[i - 1] == '\n'
                &&& text::occurrences(content@.take(i), '\n') == first - 1
                &&& text::occurrences(content@.subrange(i, j), '\n') == count - 1
                &&& j < content@.len() ==> content@[j] == '\n' || (content@[j] == '\r' && j + 1
                    < content@.len() && content@[j + 1] == '\n')
                &&& 0 < j < content@.len() && content@[j] == '\n' ==> content@[j - 1] != '\r'
            },
        !r.is_error && r.offload_path is Some ==> content@.len() > 25_000,
{
    let whole = content@;
    let spans = text::line_spans(whole, 0);
    text::law_how_many_lines_a_text_has(whole);
    text::lemma_spans(whole, 0);
    let part = sliced(spans, int_of(args.offset), int_of(args.limit));
    if !r.is_error {
        if first - 1 <= spans.len() {
            assert(part.len() == count);
        }
        if count == 0 {
            assert(part.len() == 0);
            assert(passage(whole, part).len() == 0);
        } else {
            let a = first - 1;
            let b = a + count - 1;
            assert(part[0] == spans[a]);
            assert(part.last() == spans[b]);
            let i = spans[a].0;
            let x = spans[b].0;
            let j = spans[b].1;
            text::law_where_a_line_stands(whole, a);
            text::law_where_a_line_stands(whole, b);
            if a < b {
                assert(spans[a].1 < spans[b].0);
            }
            assert(whole.subrange(0, i) =~= whole.take(i));
            assert(whole.subrange(0, x) =~= whole.take(i) + whole.subrange(i, x));
            text::lemma_occurrences_concat(whole.take(i), whole.subrange(i, x), '\n');
            assert(whole.subrange(i, j) =~= whole.subrange(i, x) + whole.subrange(x, j));
            text::lemma_occurrences_concat(whole.subrange(i, x), whole.subrange(x, j), '\n');
            text::lemma_no_occurrences(whole.subrange(x, j), '\n');
            assert(passage(whole, part) == whole.subrange(i, j));
        }
    }
}

/// What the tool shows of a file is what its bytes say: the text that they encode,
/// shown as asked for; and where the file cannot be read, a problem that names the
/// path and the cause.
pub proof fn law_the_tool_shows_what_the_bytes_say<S: OffloadSink>(
    tool: ReadFileTool,
    args: ReadArgs,
    read: Result<Vec<u8>, String>,
    ctx: ToolCtx<S>,
    r: ToolResult,
)
    requires
        call_ensures(ReadFileTool::finish::<S>, (&tool, &args, read, &ctx), r),
    ensures
        read matches Err(e) ==> r.is_error && text::contains(r.summary@, args.path@)
            && text::contains(r.summary@, e@),
        read matches Ok(bytes) ==> args.offset is None && args.limit is None && {
            &&& vstd::utf8::valid_utf8(bytes@)
            &&& vstd::utf8::decode_utf8(bytes@).len() <= 25_000
        } ==> !r.is_error && (r.detail matches Some(d) && d@ == vstd::utf8::decode_utf8(
            read->Ok_0@,
        )),
{
    if let Err(e) = read {
        let head = "read_file: cannot read `"@;
        let said = r.summary@;
        let i = head.len() as int;
        assert(said.subrange(i, i + args.path@.len()) =~= args.path@);
        assert(text::matches_at(said, args.path@, i));
        let j = said.len() - e@.len();
        assert(said.subrange(j, j + e@.len()) =~= e@);
        assert(text::matches_at(said, e@, j));
    }
}

/// What an input asks for: the path under `path`, and the numbers under `offset` and
/// `limit`, where they are there; anything else is refused.
pub proof fn law_a_read_is_what_the_input_says(input: JsonV)
    ensures
        read_of(input) matches Ok((path, offset, limit)) ==> {
            &&& json::field(input, "path"@) == Some(JsonV::String(path))
            &&& json::field(input, "offset"@) == (match offset {
                Some(n) => Some(JsonV::Number(NumberV::Int(n))),
                None => json::field(input, "offset"@),
            })
            &&& json::field(input, "limit"@) == (match limit {
                Some(n) => Some(JsonV::Number(NumberV::Int(n))),
                None => json::field(input, "limit"@),
            })
            &&& offset is None <==> json::field(input, "offset"@) is None || json::field(
                input,
                "offset"@,
            ) == Some(JsonV::Null)
            &&& limit is None <==> json::field(input, "limit"@) is None || json::field(
                input,
                "limit"@,
            ) == Some(JsonV::Null)
        },
        !(json::field(input, "path"@) matches Some(JsonV::String(_))) ==> read_of(input) is Err,
{
}

/// A file that is no text is shown with replacements, and says so; everything else is as
/// for one that is.
pub proof fn law_a_file_that_is_no_text_says_so<S: OffloadSink>(
    tool: ReadFileTool,
    args: ReadArgs,
    bytes: Vec<u8>,
    ctx: ToolCtx<S>,
    r: ToolResult,
)
    requires
        call_ensures(ReadFileTool::finish::<S>, (&tool, &args, Ok(bytes), &ctx), r),
        args.offset is None,
        args.limit is None,
    ensures
        !r.is_error,
        ({
            let content = if vstd::utf8::valid_utf8(bytes@) {
                vstd::utf8::decode_utf8(bytes@)
            } else {
                text::lossy_text(bytes@)
            };
            let head = args.path@ + ": "@ + text::dec(line_count(content)) + " lines"@;
            &&& content.len() <= 25_000 ==> (r.detail matches Some(d) && d@ == content)
            &&& r.summary@ == (if vstd::utf8::valid_utf8(bytes@) {
                head
            } else {
                head + " (non-UTF-8 bytes replaced with U+FFFD)"@
            })
        }),
{
    text::law_how_many_lines_a_text_has(vstd::utf8::decode_utf8(bytes@));
    text::law_how_many_lines_a_text_has(text::lossy_text(bytes@));
}

/// The file that is read is the one that the input names: its path, its offset and its
/// limit are those of the input, and a relative path leads under the workspace root.
pub proof fn law_the_file_read_is_the_one_named(
    tool: ReadFileTool,
    input: Json,
    w: Workspace,
    r: Result<(ReadArgs, FilePath), ToolResult>,
)
    requires
        call_ensures(ReadFileTool::plan, (&tool, &input, &w), r),
    ensures
        r matches Ok((args, target)) ==> {
            &&& json::field(input@, "path"@) == Some(JsonV::String(args.path@))
            &&& args.offset matches Some(n) ==> json::field(input@, "offset"@) == Some(
                JsonV::Number(NumberV::Int(n as int)),
            )
            &&& args.limit matches Some(n) ==> json::field(input@, "limit"@) == Some(
                JsonV::Number(NumberV::Int(n as int)),
            )
            &&& json::field(input@, "offset"@) is None ==> args.offset is None
            &&& json::field(input@, "limit"@) is None ==> args.limit is None
            &&& target@ == (if args.path@.len() > 0 && args.path@[0] == '/' {
                utf8(args.path@)
            } else {
                under(w.root_view(), utf8(text::join(workspace::segments(args.path@), "/"@)))
            })
        },
        r matches Err(e) ==> e.is_error && e.detail is None,
{
    if let Ok((args, target)) = r {
        assert(w.lets_read(args.path@, Ok(target)));
    }
}

} // verus!
