//! Tools: what each is called, what it takes, and what it gives back.
//!
//! A result has a short summary and a bounded detail; an output that is longer
//! is cut, and put away in full where its path says. Only registered tools can
//! be called, and calling another is a message for the model, not a failure.
use vstd::prelude::*;

use crate::json;
use crate::json::{Json, JsonV, Members};
use crate::path::{shown, utf8, FilePath};
use crate::text;
use crate::text::{chars_of, comes_before, concat, dec_u64, str_eq, string_of};

verus! {

/// How many characters of detail a result holds at most.
pub const DETAIL_CAP: usize = 25_000;

/// Where outsized outputs go. What a sink does with them is its own affair; it
/// gives a path in any case.
pub trait OffloadSink {
    /// Puts `contents` away and gives the path to tell the model.
    fn offload(&self, contents: &str) -> (r: FilePath);
}

/// A sink that keeps nothing.
#[derive(Debug, Default, Clone, Copy)]
pub struct StubOffloadSink;

impl OffloadSink for StubOffloadSink {
    /// Gives a placeholder.
    fn offload(&self, _contents: &str) -> (r: FilePath)
        ensures
            r@ == utf8("<offload-stub>"@),
    {
        FilePath::from_text("<offload-stub>")
    }
}

/// What tools share during a run.
pub struct ToolCtx<S> {
    pub sink: S,
}

impl<S: OffloadSink> ToolCtx<S> {
    /// A context with this sink.
    #[must_use]
    pub fn new(sink: S) -> (r: Self)
        ensures
            r.sink == sink,
    {
        ToolCtx { sink }
    }

    /// Puts `contents` away through the sink. Where they go is up to the sink.
    pub fn offload(&self, contents: &str) -> (r: FilePath)
        ensures
            call_ensures(S::offload, (&self.sink, contents), r),
    {
        self.sink.offload(contents)
    }
}

impl ToolCtx<StubOffloadSink> {
    /// A context whose sink keeps nothing.
    #[must_use]
    pub fn stub() -> (r: Self)
        ensures
            r == (ToolCtx { sink: StubOffloadSink }),
    {
        ToolCtx { sink: StubOffloadSink }
    }
}

/// What a tool gave.
#[derive(Debug, Clone, PartialEq, Eq)]
pub struct ToolResult {
    /// Always short.
    pub summary: String,
    /// At most [`DETAIL_CAP`] characters, and a note where more were cut off.
    pub detail: Option<String>,
    /// Where the whole output is, if it was put away.
    pub offload_path: Option<FilePath>,
    /// Whether the model should react to a problem.
    pub is_error: bool,
}

/// `path` is what the context's sink gave for the text `contents`.
pub open spec fn put_away<S: OffloadSink>(
    ctx: ToolCtx<S>,
    contents: Seq<char>,
    path: FilePath,
) -> bool {
    exists|s: &str| s@ == contents && #[trigger] call_ensures(S::offload, (&ctx.sink, s), path)
}

/// A detail that was cut: its first characters, and where the rest is.
pub open spec fn cut(detail: Seq<char>, path: Seq<char>) -> Seq<char> {
    detail.take(DETAIL_CAP as int) + "\n…[truncated at "@ + text::dec(DETAIL_CAP as nat)
        + " chars; full output at "@ + path + "]"@
}

/// `r` is a good result with this summary and detail: the detail as it is where
/// it is short enough, else cut, with the whole of it handed to the sink.
pub open spec fn detailed<S: OffloadSink>(
    ctx: ToolCtx<S>,
    summary: Seq<char>,
    detail: Seq<char>,
    r: ToolResult,
) -> bool {
    &&& r.summary@ == summary
    &&& if detail.len() <= DETAIL_CAP {
        &&& r.offload_path is None
        &&& r.detail matches Some(d) && d@ == detail
    } else {
        r.offload_path matches Some(path) && {
            &&& put_away(ctx, detail, path)
            &&& r.detail matches Some(d) && d@ == cut(detail, shown(path@))
        }
    }
}

/// `r` is nothing but this message, for the model to react to.
pub open spec fn refusal(r: ToolResult, message: Seq<char>) -> bool {
    r.is_error && r.detail is None && r.offload_path is None && r.summary@ == message
}

impl ToolResult {
    /// A good result.
    pub fn ok(summary: String) -> (r: Self)
        ensures
            r == (ToolResult { summary, detail: None, offload_path: None, is_error: false }),
    {
        ToolResult { summary, detail: None, offload_path: None, is_error: false }
    }

    /// A problem that the model should react to.
    pub fn error(summary: String) -> (r: Self)
        ensures
            r == (ToolResult { summary, detail: None, offload_path: None, is_error: true }),
    {
        ToolResult { summary, detail: None, offload_path: None, is_error: true }
    }

    /// A good result with a detail, which is cut where it is too long; the
    /// whole of it is put away then.
    pub fn with_detail<S: OffloadSink>(summary: String, detail: String, ctx: &ToolCtx<S>) -> (r:
        Self)
        ensures
            detailed(*ctx, summary@, detail@, r),
            !r.is_error,
    {
        if detail.as_str().unicode_len() <= DETAIL_CAP {
            return ToolResult {
                summary,
                detail: Some(detail),
                offload_path: None,
                is_error: false,
            };
        }
        let whole = detail.as_str();
        let path = ctx.offload(whole);
        proof {
            assert(put_away(*ctx, detail@, path));
        }
        let cs = chars_of(whole);
        let mut marked = string_of(&cs, 0, DETAIL_CAP);
        proof {
            assert(detail@.subrange(0, DETAIL_CAP as int) =~= detail@.take(DETAIL_CAP as int));
        }
        marked.append("\n…[truncated at ");
        marked.append(dec_u64(DETAIL_CAP as u64).as_str());
        marked.append(" chars; full output at ");
        marked.append(path.show().as_str());
        marked.append("]");
        ToolResult { summary, detail: Some(marked), offload_path: Some(path), is_error: false }
    }
}

/// Something that a model can call.
pub trait Tool {
    /// The tool's name.
    spec fn name_view(&self) -> Seq<char>;

    /// The tool's schema.
    spec fn schema_view(&self) -> JsonV;

    /// The name that the tool is called by.
    fn name(&self) -> (r: &str)
        ensures
            r@ == self.name_view(),
    ;

    /// What the tool is and what it takes, as told to the model.
    fn schema(&self) -> (r: Json)
        ensures
            r@ == self.schema_view(),
    ;
}

/// The tools that can be called, in the order of their names.
pub struct ToolRegistry<T> {
    pub names: Vec<String>,
    pub tools: Vec<T>,
}

impl<T: Tool> ToolRegistry<T> {
    /// Every name has its tool, and the names are in order, each once.
    pub open spec fn wf(self) -> bool {
        &&& self.names@.len() == self.tools@.len()
        &&& forall|i: int, j: int|
            0 <= i < j < self.names@.len() ==> text::before(
                #[trigger] self.names@[i]@,
                #[trigger] self.names@[j]@,
            )
    }

    /// A tool is registered under the name, at this place.
    pub open spec fn is_at(self, name: Seq<char>, i: int) -> bool {
        0 <= i < self.names@.len() && self.names@[i]@ == name
    }

    /// A tool is registered under the name.
    pub open spec fn has(self, name: Seq<char>) -> bool {
        exists|i: int| self.is_at(name, i)
    }

    /// The tool that is registered under the name.
    pub open spec fn tool(self, name: Seq<char>) -> T {
        self.tools@[choose|i: int| self.is_at(name, i)]
    }

    /// There is but one place for a name.
    proof fn lemma_one_place(self, name: Seq<char>, i: int, j: int)
        requires
            self.wf(),
            self.is_at(name, i),
            self.is_at(name, j),
        ensures
            i == j,
    {
        text::lemma_before_is_total(name, name);
        if i < j {
            assert(text::before(self.names@[i]@, self.names@[j]@));
        }
        if j < i {
            assert(text::before(self.names@[j]@, self.names@[i]@));
        }
    }

    /// No tools.
    #[must_use]
    pub fn new() -> (r: Self)
        ensures
            r.wf(),
            r.names@.len() == 0,
            forall|n: Seq<char>| !r.has(n),
    {
        ToolRegistry { names: Vec::new(), tools: Vec::new() }
    }

    /// The first place whose name does not come before `name`.
    fn place(&self, name: &str) -> (r: usize)
        requires
            self.wf(),
        ensures
            r <= self.names@.len(),
            forall|k: int| 0 <= k < r ==> text::before(#[trigger] self.names@[k]@, name@),
            r < self.names@.len() ==> !text::before(self.names@[r as int]@, name@),
    {
        let mut i: usize = 0;
        while i < self.names.len() && comes_before(self.names[i].as_str(), name)
            invariant
                i <= self.names@.len(),
                forall|k: int| 0 <= k < i ==> text::before(#[trigger] self.names@[k]@, name@),
            decreases self.names@.len() - i,
        {
            i = i + 1;
        }
        i
    }

    /// What can be called under a name other than `name` is the same in both.
    pub open spec fn same_but(self, name: Seq<char>, next: Self) -> bool {
        forall|n: Seq<char>|
            #![trigger next.has(n)]
            n != name ==> next.has(n) == self.has(n) && (next.has(n) ==> next.tool(n) == self.tool(
                n,
            ))
    }

    /// A tool that is found at a place is the tool of its name.
    proof fn lemma_tool_at(self, name: Seq<char>, i: int)
        requires
            self.wf(),
            self.is_at(name, i),
        ensures
            self.has(name),
            self.tool(name) == self.tools@[i],
    {
        let j = choose|j: int| self.is_at(name, j);
        self.lemma_one_place(name, i, j);
    }

    /// `next` is the same registry with `tool` under `name`.
    pub open spec fn registers(self, name: Seq<char>, tool: T, next: Self) -> bool {
        &&& next.wf()
        &&& next.has(name)
        &&& next.tool(name) == tool
        &&& self.same_but(name, next)
    }

    /// Registers `tool` under `name`, in place of any that is there.
    pub fn register(&mut self, name: String, tool: T)
        requires
            old(self).wf(),
        ensures
            old(self).registers(name@, tool, *final(self)),
            final(self).wf(),
            final(self).has(name@),
            final(self).tool(name@) == tool,
            old(self).same_but(name@, *final(self)),
    {
        let ghost before = *self;
        let ghost key = name@;
        let i: usize = self.place(name.as_str());
        if i < self.names.len() && str_eq(self.names[i].as_str(), name.as_str()) {
            self.tools.set(i, tool);
            let ghost after = *self;
            proof {
                assert(after.is_at(key, i as int));
                after.lemma_tool_at(key, i as int);
                assert forall|n: Seq<char>| n != key implies #[trigger] after.has(n) == before.has(n)
                    && (after.has(n) ==> after.tool(n) == before.tool(n)) by {
                    if after.has(n) {
                        let j = choose|j: int| after.is_at(n, j);
                        assert(before.is_at(n, j));
                        after.lemma_tool_at(n, j);
                        before.lemma_tool_at(n, j);
                    }
                    if before.has(n) {
                        let j = choose|j: int| before.is_at(n, j);
                        assert(after.is_at(n, j));
                    }
                }
            }
        } else {
            self.names.insert(i, name);
            self.tools.insert(i, tool);
            let ghost after = *self;
            proof {
                if i < before.names@.len() {
                    text::lemma_before_is_total(before.names@[i as int]@, key);
                }
                assert forall|a: int, b: int| 0 <= a < b < after.names@.len() implies text::before(
                    #[trigger] after.names@[a]@,
                    #[trigger] after.names@[b]@,
                ) by {
                    if a == i {
                        assert(after.names@[b]@ == before.names@[b - 1]@);
                        if b - 1 > i {
                            assert(text::before(before.names@[i as int]@, before.names@[b - 1]@));
                            text::lemma_before_is_transitive(
                                key,
                                before.names@[i as int]@,
                                before.names@[b - 1]@,
                            );
                        }
                    } else if b == i {
                        assert(after.names@[a]@ == before.names@[a]@);
                    } else {
                        let x = if a < i {
                            a
                        } else {
                            a - 1
                        };
                        let y = if b < i {
                            b
                        } else {
                            b - 1
                        };
                        assert(after.names@[a]@ == before.names@[x]@);
                        assert(after.names@[b]@ == before.names@[y]@);
                    }
                }
                assert(after.is_at(key, i as int));
                after.lemma_tool_at(key, i as int);
                assert forall|n: Seq<char>| n != key implies #[trigger] after.has(n) == before.has(n)
                    && (after.has(n) ==> after.tool(n) == before.tool(n)) by {
                    if after.has(n) {
                        let j = choose|j: int| after.is_at(n, j);
                        let k = if j < i {
                            j
                        } else {
                            j - 1
                        };
                        assert(before.is_at(n, k));
                        after.lemma_tool_at(n, j);
                        before.lemma_tool_at(n, k);
                    }
                    if before.has(n) {
                        let k = choose|k: int| before.is_at(n, k);
                        let j = if k < i {
                            k
                        } else {
                            k + 1
                        };
                        assert(after.is_at(n, j));
                    }
                }
            }
        }
    }

    /// The tool that is registered under `name`, if any.
    #[must_use]
    pub fn get(&self, name: &str) -> (r: Option<&T>)
        requires
            self.wf(),
        ensures
            r is Some == self.has(name@),
            r matches Some(t) ==> *t == self.tool(name@),
    {
        let mut i: usize = 0;
        while i < self.names.len()
            invariant
                i <= self.names@.len(),
                self.wf(),
                forall|k: int| 0 <= k < i ==> self.names@[k]@ != name@,
            decreases self.names@.len() - i,
        {
            if str_eq(self.names[i].as_str(), name) {
                proof {
                    assert(self.is_at(name@, i as int));
                    self.lemma_tool_at(name@, i as int);
                }
                return Some(&self.tools[i]);
            }
            i = i + 1;
        }
        None
    }

    /// The schemas of the tools, in the order of their names.
    #[must_use]
    pub fn list(&self) -> (r: Vec<Json>)
        requires
            self.wf(),
        ensures
            r@.len() == self.tools@.len(),
            forall|i: int|
                0 <= i < r@.len() ==> (#[trigger] r@[i])@ == self.tools@[i].schema_view(),
    {
        let mut out: Vec<Json> = Vec::new();
        let mut i: usize = 0;
        while i < self.tools.len()
            invariant
                i <= self.tools@.len(),
                out@.len() == i,
                forall|k: int|
                    0 <= k < i ==> (#[trigger] out@[k])@ == self.tools@[k].schema_view(),
            decreases self.tools@.len() - i,
        {
            out.push(self.tools[i].schema());
            i = i + 1;
        }
        out
    }

    /// The tool to run for a call of `name`; for a name that is not registered,
    /// the result that tells the model so.
    pub fn invoke(&self, name: &str) -> (r: Result<&T, ToolResult>)
        requires
            self.wf(),
        ensures
            self.has(name@) ==> (r matches Ok(t) && *t == self.tool(name@)),
            !self.has(name@) ==> (r matches Err(e) && refusal(
                e,
                "unknown tool `"@ + name@
                    + "`: not registered (registered tools are the only callable surface)"@,
            )),
    {
        match self.get(name) {
            Some(t) => Ok(t),
            None => {
                let mut s = concat("unknown tool `", name);
                s.append("`: not registered (registered tools are the only callable surface)");
                Err(ToolResult::error(s))
            },
        }
    }
}

impl<T: Tool> Default for ToolRegistry<T> {
    fn default() -> (r: Self)
        ensures
            r.wf(),
            forall|n: Seq<char>| !r.has(n),
    {
        ToolRegistry::new()
    }
}

/// The order in which tools were registered does not show: two registries that
/// hold the same tools under the same names hold them in the same order, and so
/// list the same schemas in the same order.
pub proof fn law_registration_order_does_not_show<T: Tool>(a: ToolRegistry<T>, b: ToolRegistry<T>)
    requires
        a.wf(),
        b.wf(),
        forall|n: Seq<char>| #[trigger] a.has(n) == b.has(n),
        forall|n: Seq<char>| #[trigger] a.has(n) ==> a.tool(n) == b.tool(n),
    ensures
        text::views(a.names@) == text::views(b.names@),
        a.tools@ == b.tools@,
{
    let x = text::views(a.names@);
    let y = text::views(b.names@);
    assert forall|k: int| 0 <= k < x.len() implies y.contains(#[trigger] x[k]) by {
        assert(a.is_at(x[k], k));
        assert(a.has(x[k]));
        let j = choose|j: int| b.is_at(x[k], j);
        assert(y[j] == x[k]);
    }
    assert forall|k: int| 0 <= k < y.len() implies x.contains(#[trigger] y[k]) by {
        assert(b.is_at(y[k], k));
        assert(a.has(y[k]));
        let j = choose|j: int| a.is_at(y[k], j);
        assert(x[j] == y[k]);
    }
    if x.len() > 0 {
        let n = x.len() - 1;
        assert(y.contains(x[n]));
        let j = choose|j: int| 0 <= j < y.len() && y[j] == x[n];
        text::lemma_rank(x, y, n, j);
    }
    if y.len() > 0 {
        let n = y.len() - 1;
        assert(x.contains(y[n]));
        let j = choose|j: int| 0 <= j < x.len() && x[j] == y[n];
        text::lemma_rank(y, x, n, j);
    }
    text::lemma_ascending_is_unique(x, y);
    assert forall|i: int| 0 <= i < a.tools@.len() implies a.tools@[i] == b.tools@[i] by {
        assert(x[i] == y[i]);
        a.lemma_tool_at(x[i], i);
        b.lemma_tool_at(x[i], i);
        assert(a.has(x[i]));
    }
    assert(a.tools@ =~= b.tools@);
}

// ---------------------------------------------------------------------------
// A tool by its declaration
// ---------------------------------------------------------------------------

/// A tool that is known by its name and schema alone; what it does is outside
/// this crate. Tools of different kinds share a registry in this form.
#[derive(Debug)]
pub struct DeclaredTool {
    pub name: String,
    pub schema: Json,
}

impl DeclaredTool {
    /// A tool of this name and schema.
    pub fn new(name: String, schema: Json) -> (r: Self)
        ensures
            r.name == name,
            r.schema == schema,
    {
        DeclaredTool { name, schema }
    }
}

impl Tool for DeclaredTool {
    open spec fn name_view(&self) -> Seq<char> {
        self.name@
    }

    open spec fn schema_view(&self) -> JsonV {
        self.schema@
    }

    fn name(&self) -> (r: &str) {
        self.name.as_str()
    }

    fn schema(&self) -> (r: Json) {
        self.schema.dup()
    }
}

// ---------------------------------------------------------------------------
// A tool that echoes
// ---------------------------------------------------------------------------

/// A tool that gives its input back.
#[derive(Debug, Default, Clone, Copy)]
pub struct EchoTool;

impl Tool for EchoTool {
    open spec fn name_view(&self) -> Seq<char> {
        "echo"@
    }

    open spec fn schema_view(&self) -> JsonV {
        JsonV::Object(
            Seq::empty().push(("name"@, JsonV::String("echo"@))).push(
                (
                    "description"@,
                    JsonV::String("Returns its JSON input unchanged as the result summary."@),
                ),
            ).push(
                (
                    "input_schema"@,
                    JsonV::Object(Seq::empty().push(("type"@, JsonV::String("object"@)))),
                ),
            ),
        )
    }

    fn name(&self) -> (r: &str) {
        "echo"
    }

    fn schema(&self) -> (r: Json) {
        let mut input = Members::new();
        input.push("type", json::text("object"));
        let mut s = Members::new();
        s.push("name", json::text("echo"));
        s.push(
            "description",
            json::text("Returns its JSON input unchanged as the result summary."),
        );
        s.push("input_schema", input.object());
        s.object()
    }
}

impl EchoTool {
    /// The input, as JSON text.
    pub fn run(&self, input: &Json) -> (r: ToolResult)
        ensures
            !r.is_error,
            r.detail is None,
            r.offload_path is None,
            r.summary@ == json::json_print(input@),
    {
        ToolResult::ok(input.to_text())
    }
}

// ---------------------------------------------------------------------------
// Laws
// ---------------------------------------------------------------------------

/// What becomes of a detail: one of at most 25000 characters is given as it is, and
/// the sink is not used; of a longer one the first 25000 characters are given, word
/// for word, with a note that names where the rest is, and all of it is handed to
/// the sink. The summary is given as it is either way.
pub proof fn law_no_detail_is_lost<S: OffloadSink>(
    summary: String,
    detail: String,
    ctx: ToolCtx<S>,
    r: ToolResult,
)
    requires
        call_ensures(ToolResult::with_detail::<S>, (summary, detail, &ctx), r),
    ensures
        !r.is_error,
        r.summary@ == summary@,
        detail@.len() <= 25_000 ==> r.offload_path is None && (r.detail matches Some(d) && d@
            == detail@),
        detail@.len() > 25_000 ==> (r.offload_path matches Some(path) && (
        r.detail matches Some(d) && {
            &&& d@.len() > 25_000
            &&& d@.take(25_000) == detail@.take(25_000)
            &&& text::contains(d@.skip(25_000), shown(path@))
            &&& exists|s: &str|
                s@ == detail@ && #[trigger] call_ensures(S::offload, (&ctx.sink, s), path)
        })),
{
    if detail@.len() > 25_000 {
        let d = r.detail->Some_0@;
        let path = r.offload_path->Some_0;
        let head = "\n…[truncated at "@ + text::dec(DETAIL_CAP as nat) + " chars; full output at "@;
        assert(d.take(25_000) =~= detail@.take(25_000));
        assert(d.skip(25_000) =~= head + shown(path@) + "]"@);
        let rest = d.skip(25_000);
        let i = head.len() as int;
        reveal_strlit("]");
        assert(rest.subrange(i, i + shown(path@).len()) =~= shown(path@));
        assert(text::matches_at(rest, shown(path@), i));
        assert(put_away(ctx, detail@, path));
    }
}

/// A good result and a problem are nothing but their message.
pub proof fn law_a_message_is_all_there_is(summary: String, good: ToolResult, bad: ToolResult)
    requires
        call_ensures(ToolResult::ok, (summary,), good),
        call_ensures(ToolResult::error, (summary,), bad),
    ensures
        !good.is_error && bad.is_error,
        good.summary@ == summary@ && bad.summary@ == summary@,
        good.detail is None && bad.detail is None,
        good.offload_path is None && bad.offload_path is None,
{
}

/// Only what is registered can be called: a name gives the tool that was registered
/// under exactly that name, and any other name gives a problem that says it.
pub proof fn law_only_registered_tools_are_called<T: Tool>(
    registry: ToolRegistry<T>,
    name: &str,
    r: Result<&T, ToolResult>,
    i: int,
)
    requires
        registry.wf(),
        call_ensures(ToolRegistry::<T>::invoke, (&registry, name), r),
    ensures
        0 <= i < registry.names@.len() && registry.names@[i]@ == name@ ==> (r matches Ok(t) && *t
            == registry.tools@[i]),
        (forall|k: int| 0 <= k < registry.names@.len() ==> (#[trigger] registry.names@[k])@
            != name@) ==> (r matches Err(e) && e.is_error && e.detail is None && text::contains(
            e.summary@,
            name@,
        )),
{
    if registry.is_at(name@, i) {
        registry.lemma_tool_at(name@, i);
    }
    if !registry.has(name@) {
        let said = r->Err_0.summary@;
        let k = "unknown tool `"@.len() as int;
        assert(said.subrange(k, k + name@.len()) =~= name@);
        assert(text::matches_at(said, name@, k));
    }
}

/// Every registered tool is told to the model, each with its own schema and once, in
/// the order of the names.
pub proof fn law_every_tool_is_listed<T: Tool>(registry: ToolRegistry<T>, r: Vec<Json>, i: int)
    requires
        registry.wf(),
        call_ensures(ToolRegistry::<T>::list, (&registry,), r),
        0 <= i < registry.tools@.len(),
    ensures
        r@.len() == registry.tools@.len() == registry.names@.len(),
        r@[i]@ == registry.tools@[i].schema_view(),
        i > 0 ==> text::before(registry.names@[i - 1]@, registry.names@[i]@),
{
}

/// Registering gives a name to one tool: the last that was registered under it is the
/// one that is called by it, whether there was one before or not, and all other names
/// stay with their tools.
pub proof fn law_the_last_registration_counts<T: Tool>(
    before: ToolRegistry<T>,
    name: Seq<char>,
    tool: T,
    after: ToolRegistry<T>,
    other: Seq<char>,
    i: int,
)
    requires
        before.wf(),
        before.registers(name, tool, after),
    ensures
        after.wf(),
        after.has(name) && after.tool(name) == tool,
        other != name ==> after.has(other) == before.has(other),
        other != name && before.has(other) ==> after.tool(other) == before.tool(other),
        0 <= i < after.names@.len() ==> after.names@[i]@ == name || before.has(after.names@[i]@),
{
    if 0 <= i < after.names@.len() {
        assert(after.is_at(after.names@[i]@, i));
        assert(after.has(after.names@[i]@));
    }
    if other != name {
        assert(after.has(other) == before.has(other));
    }
}

} // verus!
