//! The `list_files` tool: what is in a directory, down to some depth.
//!
//! Entries are listed in the order of their names, a directory's own entries
//! right behind it, so that the same tree always gives the same text. Entries
//! that are called `.git` are passed over. A symbolic link is listed like a
//! file, and what it leads to is not looked at.
use vstd::prelude::*;

use crate::json;
use crate::json::{Json, JsonV, Members, NumberV};
use crate::path;
use crate::path::{below, shown, utf8, FilePath};
use crate::text;
use crate::text::{concat, dec_u64, join_strings};
use crate::tool;
use crate::tool::{OffloadSink, Tool, ToolCtx, ToolResult};
use crate::workspace;
use crate::workspace::{is_absolute, Workspace};

verus! {

/// How deep to go where the input does not say.
pub const DEFAULT_DEPTH: u64 = 2;

/// How deep to go at most.
pub const MAX_DEPTH: u64 = 5;

/// What the tool is, as told to the model.
pub const DESCRIPTION: &'static str = "List directory contents under the workspace, recursively to a depth cap. Entries are workspace-relative, sorted lexicographically per directory, one per line, with directories suffixed `/`. `.git` directories are skipped and symlinked directories are not descended.";

/// What `path` is, as told to the model.
pub const PATH_DESCRIPTION: &'static str = "Workspace-relative directory to list. Defaults to \".\" (the workspace root).";

/// What `depth` is, as told to the model.
pub const DEPTH_DESCRIPTION: &'static str = "How many directory levels to descend. Defaults to 2; clamped to a hard maximum of 5.";

/// The `list_files` tool.
#[derive(Debug, Default, Clone, Copy)]
pub struct ListFilesTool;

impl Tool for ListFilesTool {
    open spec fn name_view(&self) -> Seq<char> {
        "list_files"@
    }

    open spec fn schema_view(&self) -> JsonV {
        let path = JsonV::Object(
            Seq::empty().push(("type"@, JsonV::String("string"@))).push(
                ("description"@, JsonV::String(PATH_DESCRIPTION@)),
            ).push(("default"@, JsonV::String("."@))),
        );
        let depth = JsonV::Object(
            Seq::empty().push(("type"@, JsonV::String("integer"@))).push(
                ("description"@, JsonV::String(DEPTH_DESCRIPTION@)),
            ).push(("default"@, JsonV::Number(NumberV::Int(DEFAULT_DEPTH as int)))).push(
                ("minimum"@, JsonV::Number(NumberV::Int(1))),
            ).push(("maximum"@, JsonV::Number(NumberV::Int(MAX_DEPTH as int)))),
        );
        let properties = JsonV::Object(Seq::empty().push(("path"@, path)).push(("depth"@, depth)));
        JsonV::Object(
            Seq::empty().push(("name"@, JsonV::String("list_files"@))).push(
                ("description"@, JsonV::String(DESCRIPTION@)),
            ).push(
                (
                    "input_schema"@,
                    JsonV::Object(
                        Seq::empty().push(("type"@, JsonV::String("object"@))).push(
                            ("properties"@, properties),
                        ),
                    ),
                ),
            ),
        )
    }

    fn name(&self) -> (r: &str) {
        "list_files"
    }

    fn schema(&self) -> (r: Json) {
        let mut path = Members::new();
        path.push("type", json::text("string"));
        path.push("description", json::text(PATH_DESCRIPTION));
        path.push("default", json::text("."));
        let mut depth = Members::new();
        depth.push("type", json::text("integer"));
        depth.push("description", json::text(DEPTH_DESCRIPTION));
        depth.push("default", json::number(DEFAULT_DEPTH));
        depth.push("minimum", json::number(1));
        depth.push("maximum", json::number(MAX_DEPTH));
        let mut properties = Members::new();
        properties.push("path", path.object());
        properties.push("depth", depth.object());
        let mut input = Members::new();
        input.push("type", json::text("object"));
        input.push("properties", properties.object());
        let mut s = Members::new();
        s.push("name", json::text("list_files"));
        s.push("description", json::text(DESCRIPTION));
        s.push("input_schema", input.object());
        s.object()
    }
}

// ---------------------------------------------------------------------------
// The input
// ---------------------------------------------------------------------------

/// What to list: the path as it was supplied, and how deep.
#[derive(Debug, Clone, PartialEq, Eq)]
pub struct ListArgs {
    pub path: String,
    pub depth: u64,
}

/// The path that an input asks for.
pub open spec fn path_of(input: JsonV) -> Seq<char> {
    match json::text_field(input, "path"@) {
        Some(p) => p,
        None => "."@,
    }
}

/// The depth that an input asks for, between one and the maximum.
pub open spec fn depth_of(input: JsonV) -> int {
    let asked = match json::field(input, "depth"@) {
        Some(v) => match json::as_unsigned(v) {
            Some(n) => n,
            None => DEFAULT_DEPTH as int,
        },
        None => DEFAULT_DEPTH as int,
    };
    if asked < 1 {
        1
    } else if asked > MAX_DEPTH {
        MAX_DEPTH as int
    } else {
        asked
    }
}

/// The depth that an input asks for.
fn depth_in(input: &Json) -> (r: u64)
    ensures
        r == depth_of(input@),
        1 <= r <= MAX_DEPTH,
{
    let asked: u64 = match input.get("depth") {
        Some(v) => match v.as_u64() {
            Some(n) => n,
            None => DEFAULT_DEPTH,
        },
        None => DEFAULT_DEPTH,
    };
    if asked < 1 {
        1
    } else if asked > MAX_DEPTH {
        MAX_DEPTH
    } else {
        asked
    }
}

// ---------------------------------------------------------------------------
// The tree
// ---------------------------------------------------------------------------

/// An entry of a directory.
#[derive(Debug)]
pub enum Node {
    /// Anything but a directory, by its name. A symbolic link is one.
    Leaf(FilePath),
    /// A directory, by its name, with its entries in any order.
    Dir(FilePath, Vec<Node>),
}

/// An entry of a directory, mathematically.
#[verifier::ext_equal]
pub enum NodeV {
    Leaf(Seq<u8>),
    Dir(Seq<u8>, Seq<NodeV>),
}

/// The view of an entry.
pub open spec fn node_view(n: Node) -> NodeV
    decreases n,
{
    match n {
        Node::Leaf(name) => NodeV::Leaf(name@),
        Node::Dir(name, entries) => NodeV::Dir(name@, nodes_view(entries@)),
    }
}

/// The views of entries.
pub open spec fn nodes_view(ns: Seq<Node>) -> Seq<NodeV>
    decreases ns,
{
    Seq::new(
        ns.len(),
        |i: int|
            if 0 <= i < ns.len() {
                node_view(ns[i])
            } else {
                NodeV::Leaf(Seq::empty())
            },
    )
}

impl View for Node {
    type V = NodeV;

    open spec fn view(&self) -> NodeV {
        node_view(*self)
    }
}

impl NodeV {
    /// The entry's name.
    pub open spec fn name(self) -> Seq<u8> {
        match self {
            NodeV::Leaf(name) => name,
            NodeV::Dir(name, _) => name,
        }
    }
}

impl Node {
    /// The entry's name.
    pub fn name(&self) -> (r: &FilePath)
        ensures
            r@ == self@.name(),
    {
        match self {
            Node::Leaf(name) => name,
            Node::Dir(name, _) => name,
        }
    }
}

// ---------------------------------------------------------------------------
// The order of entries
// ---------------------------------------------------------------------------

/// How many of the ordered entries stand in front of the name: all up to the
/// last one that does not come behind it.
pub open spec fn slot(ns: Seq<NodeV>, name: Seq<u8>) -> nat
    decreases ns.len(),
{
    if ns.len() == 0 {
        0
    } else if path::before(name, ns.last().name()) {
        slot(ns.drop_last(), name)
    } else {
        ns.len()
    }
}

/// The entries in the order of their names.
pub open spec fn in_order(ns: Seq<NodeV>) -> Seq<NodeV>
    decreases ns.len(),
{
    if ns.len() == 0 {
        Seq::empty()
    } else {
        let rest = in_order(ns.drop_last());
        rest.insert(slot(rest, ns.last().name()) as int, ns.last())
    }
}

/// The views of borrowed entries.
spec fn borrowed(ns: Seq<&Node>) -> Seq<NodeV> {
    Seq::new(ns.len(), |i: int| ns[i]@)
}

/// A slot is a place among the entries, all behind it come behind the name and
/// the one in front of it does not.
proof fn lemma_slot(ns: Seq<NodeV>, name: Seq<u8>)
    ensures
        slot(ns, name) <= ns.len(),
        forall|k: int|
            slot(ns, name) <= k < ns.len() ==> path::before(name, #[trigger] ns[k].name()),
        slot(ns, name) > 0 ==> !path::before(name, ns[slot(ns, name) - 1].name()),
    decreases ns.len(),
{
    if ns.len() > 0 && path::before(name, ns.last().name()) {
        let init = ns.drop_last();
        lemma_slot(init, name);
        assert forall|k: int| slot(ns, name) <= k < ns.len() implies path::before(
            name,
            #[trigger] ns[k].name(),
        ) by {
            if k < init.len() {
                assert(init[k] == ns[k]);
            }
        }
    }
}

/// A slot is found from the back: while the last entry comes behind the name, it
/// is among those in front of it.
proof fn lemma_slot_from_back(ns: Seq<NodeV>, name: Seq<u8>, i: int)
    requires
        0 <= i <= ns.len(),
        forall|k: int| i <= k < ns.len() ==> path::before(name, #[trigger] ns[k].name()),
        i > 0 ==> !path::before(name, ns[i - 1].name()),
    ensures
        slot(ns, name) == i,
    decreases ns.len(),
{
    if i < ns.len() {
        assert(path::before(name, ns[ns.len() - 1].name()));
        let init = ns.drop_last();
        assert forall|k: int| i <= k < init.len() implies path::before(
            name,
            #[trigger] init[k].name(),
        ) by {
            assert(init[k] == ns[k]);
        }
        lemma_slot_from_back(init, name, i);
    }
}

/// The entries in the order of their names.
fn ordered<'a>(entries: &'a Vec<Node>) -> (r: Vec<&'a Node>)
    ensures
        borrowed(r@) == in_order(nodes_view(entries@)),
{
    let ghost all = nodes_view(entries@);
    let mut out: Vec<&'a Node> = Vec::new();
    let mut i: usize = 0;
    proof {
        assert(all.take(0) =~= Seq::<NodeV>::empty());
        assert(borrowed(out@) =~= Seq::<NodeV>::empty());
    }
    while i < entries.len()
        invariant
            i <= entries@.len(),
            all == nodes_view(entries@),
            borrowed(out@) == in_order(all.take(i as int)),
        decreases entries@.len() - i,
    {
        let node = &entries[i];
        let ghost rest = borrowed(out@);
        let mut at: usize = out.len();
        while at > 0 && node.name().comes_before(out[at - 1].name())
            invariant
                at <= out@.len(),
                rest == borrowed(out@),
                forall|k: int|
                    at <= k < rest.len() ==> path::before(node@.name(), #[trigger] rest[k].name()),
            decreases at,
        {
            proof {
                assert(rest[at - 1] == out@[at - 1]@);
            }
            at = at - 1;
        }
        proof {
            if at > 0 {
                assert(rest[at - 1] == out@[at - 1]@);
            }
            lemma_slot_from_back(rest, node@.name(), at as int);
        }
        out.insert(at, node);
        proof {
            let next = all.take(i + 1);
            assert(next.drop_last() =~= all.take(i as int));
            assert(next.last() == node@);
            assert(borrowed(out@) =~= rest.insert(at as int, node@));
        }
        i = i + 1;
    }
    proof {
        assert(all.take(i as int) =~= all);
    }
    out
}

// ---------------------------------------------------------------------------
// The listing
// ---------------------------------------------------------------------------

/// Where a directory is and how its entries are shown.
#[verifier::ext_equal]
pub struct PlaceV {
    /// Its path.
    pub path: Seq<u8>,
    /// Its path from the workspace root, where it was reached by a relative path.
    pub inside: Option<Seq<u8>>,
}

impl PlaceV {
    /// The place of an entry of the directory.
    pub open spec fn entry(self, name: Seq<u8>) -> PlaceV {
        PlaceV {
            path: path::under(self.path, name),
            inside: match self.inside {
                Some(p) => Some(path::under(p, name)),
                None => None,
            },
        }
    }

    /// How the place is shown: from the workspace root where it lies below that,
    /// else in full.
    pub open spec fn label(self, root: Seq<u8>) -> Seq<char> {
        match self.inside {
            Some(p) => shown(p),
            None => match path::path_below(self.path, root) {
                Some(p) => shown(p),
                None => shown(self.path),
            },
        }
    }
}

/// Where a path leads: a relative one is kept from the root on.
pub open spec fn place_of(raw: Seq<char>, target: Seq<u8>) -> PlaceV {
    PlaceV {
        path: target,
        inside: if workspace::absolute(raw) {
            None
        } else {
            Some(utf8(workspace::plain(raw)))
        },
    }
}

/// The lines for entries that are in order already: one for each entry that is
/// not called `.git`, followed, for a directory that is not at the last level, by
/// those for its own entries.
pub open spec fn listed(ns: Seq<NodeV>, root: Seq<u8>, place: PlaceV, depth: nat) -> Seq<
    Seq<char>,
>
    decreases depth, ns.len(),
{
    if ns.len() == 0 {
        Seq::empty()
    } else {
        let front = listed(ns.drop_last(), root, place, depth);
        let at = place.entry(ns.last().name());
        if ns.last().name() == utf8(".git"@) {
            front
        } else {
            match ns.last() {
                NodeV::Leaf(_) => front.push(at.label(root)),
                NodeV::Dir(_, entries) => {
                    let line = front.push(at.label(root) + "/"@);
                    if depth > 1 {
                        line + listed(in_order(entries), root, at, (depth - 1) as nat)
                    } else {
                        line
                    }
                },
            }
        }
    }
}

/// The lines for a directory's entries.
pub open spec fn listing(ns: Seq<NodeV>, root: Seq<u8>, place: PlaceV, depth: nat) -> Seq<
    Seq<char>,
> {
    listed(in_order(ns), root, place, depth)
}

/// Where a directory is.
struct Place {
    path: FilePath,
    inside: Option<FilePath>,
}

impl View for Place {
    type V = PlaceV;

    closed spec fn view(&self) -> PlaceV {
        PlaceV {
            path: self.path@,
            inside: match self.inside {
                Some(p) => Some(p@),
                None => None,
            },
        }
    }
}

impl Place {
    /// The place of an entry.
    fn entry(&self, name: &FilePath) -> (r: Place)
        ensures
            r@ == self@.entry(name@),
    {
        Place {
            path: self.path.under(name),
            inside: match &self.inside {
                Some(p) => Some(p.under(name)),
                None => None,
            },
        }
    }

    /// How the place is shown.
    fn label(&self, root: &FilePath) -> (r: String)
        ensures
            r@ == self@.label(root@),
    {
        match &self.inside {
            Some(p) => p.show(),
            None => match below(&self.path, root) {
                Some(p) => p.show(),
                None => self.path.show(),
            },
        }
    }
}

/// Adds the lines for a directory's entries.
fn walk(entries: &Vec<Node>, root: &FilePath, place: &Place, depth: u64, out: &mut Vec<String>)
    requires
        depth >= 1,
    ensures
        text::views(final(out)@) == text::views(old(out)@) + listing(
            nodes_view(entries@),
            root@,
            place@,
            depth as nat,
        ),
    decreases depth,
{
    let sorted = ordered(entries);
    let ghost all = borrowed(sorted@);
    let ghost start = text::views(out@);
    let mut i: usize = 0;
    proof {
        assert(all.take(0) =~= Seq::<NodeV>::empty());
        assert(start + listed(all.take(0), root@, place@, depth as nat) =~= start);
    }
    while i < sorted.len()
        invariant
            i <= sorted@.len(),
            depth >= 1,
            all == borrowed(sorted@),
            text::views(out@) == start + listed(all.take(i as int), root@, place@, depth as nat),
        decreases sorted@.len() - i,
    {
        let node = sorted[i];
        let ghost done = listed(all.take(i as int), root@, place@, depth as nat);
        proof {
            assert(all.take(i + 1).drop_last() =~= all.take(i as int));
            assert(all.take(i + 1).last() == node@);
        }
        if !node.name().is(&FilePath::from_text(".git")) {
            let at = place.entry(node.name());
            let mut line = at.label(root);
            let ghost before = text::views(out@);
            match node {
                Node::Leaf(_) => {
                    let ghost v = line@;
                    out.push(line);
                    proof {
                        assert(text::views(out@) =~= before.push(v));
                        assert(before.push(v) =~= start + done.push(v));
                    }
                },
                Node::Dir(_, inner) => {
                    line.append("/");
                    let ghost v = line@;
                    out.push(line);
                    proof {
                        assert(text::views(out@) =~= before.push(v));
                        assert(before.push(v) =~= start + done.push(v));
                    }
                    if depth > 1 {
                        walk(inner, root, &at, depth - 1, out);
                        proof {
                            let more = listing(
                                nodes_view(inner@),
                                root@,
                                at@,
                                (depth - 1) as nat,
                            );
                            assert(text::views(out@) =~= start + (done.push(v) + more));
                        }
                    }
                },
            }
        }
        i = i + 1;
    }
    proof {
        assert(all.take(i as int) =~= all);
    }
}

/// What the path leads to.
#[derive(Debug)]
pub enum ListProbe {
    /// Nothing.
    Missing,
    /// Something that is no directory.
    NotADirectory,
    /// A directory with these entries, in any order.
    Dir(Vec<Node>),
}

impl ListFilesTool {
    /// What `input` asks for and where its path leads, or what is wrong with the
    /// path. Where the path leads is up to the workspace.
    pub fn plan(&self, input: &Json, workspace: &Workspace) -> (r: Result<
        (ListArgs, FilePath),
        ToolResult,
    >)
        ensures
            match r {
                Ok((args, target)) => {
                    &&& args.path@ == path_of(input@)
                    &&& args.depth == depth_of(input@)
                    &&& 1 <= args.depth <= MAX_DEPTH
                    &&& workspace.lets_read(path_of(input@), Ok(target))
                },
                Err(e) => tool::refusal(e, workspace::path_refusal(path_of(input@)))
                        && workspace.refuses_read(path_of(input@)),
            },
    {
        let path = match input.text_at("path") {
            Some(p) => p,
            None => ".",
        };
        let depth: u64 = depth_in(input);
        match workspace.resolve_read(path) {
            Ok(target) => Ok((ListArgs { path: path.to_owned(), depth }, target)),
            Err(v) => Err(ToolResult::error(v.message())),
        }
    }

    /// The result of listing what `target` was found to be; `root` is the
    /// workspace root.
    pub fn finish<S: OffloadSink>(
        &self,
        args: &ListArgs,
        root: &FilePath,
        target: &FilePath,
        found: &ListProbe,
        ctx: &ToolCtx<S>,
    ) -> (r: ToolResult)
        requires
            args.depth >= 1,
        ensures
            match *found {
                ListProbe::Missing => tool::refusal(
                    r,
                    "path `"@ + args.path@
                        + "` does not exist in the workspace; supply an existing directory"@,
                ),
                ListProbe::NotADirectory => tool::refusal(
                    r,
                    "path `"@ + args.path@
                        + "` is not a directory; list_files only lists directories"@,
                ),
                ListProbe::Dir(entries) => {
                    let lines = listing(
                        nodes_view(entries@),
                        root@,
                        place_of(args.path@, target@),
                        args.depth as nat,
                    );
                    &&& !r.is_error
                    &&& tool::detailed(
                        *ctx,
                        text::dec(lines.len()) + " entries under "@ + args.path@ + " (depth "@
                            + text::dec(args.depth as nat) + ")"@,
                        text::join(lines, "\n"@),
                        r,
                    )
                },
            },
    {
        let entries = match found {
            ListProbe::Missing => {
                let mut e = concat("path `", args.path.as_str());
                e.append("` does not exist in the workspace; supply an existing directory");
                return ToolResult::error(e);
            },
            ListProbe::NotADirectory => {
                let mut e = concat("path `", args.path.as_str());
                e.append("` is not a directory; list_files only lists directories");
                return ToolResult::error(e);
            },
            ListProbe::Dir(entries) => entries,
        };
        let place = Place {
            path: target.dup(),
            inside: if is_absolute(args.path.as_str()) {
                None
            } else {
                Some(FilePath::from_text(workspace::plain_path(args.path.as_str()).as_str()))
            },
        };
        let mut lines: Vec<String> = Vec::new();
        walk(entries, root, &place, args.depth, &mut lines);
        proof {
            let all = listing(nodes_view(entries@), root@, place@, args.depth as nat);
            assert(place@ == place_of(args.path@, target@));
            assert(text::views(lines@) =~= all);
        }
        let mut summary = dec_u64(lines.len() as u64);
        summary.append(" entries under ");
        summary.append(args.path.as_str());
        summary.append(" (depth ");
        summary.append(dec_u64(args.depth).as_str());
        summary.append(")");
        ToolResult::with_detail(summary, join_strings(&lines, "\n"), ctx)
    }
}

// ---------------------------------------------------------------------------
// Laws
// ---------------------------------------------------------------------------

/// No entry's name comes before that of one in front of it.
pub open spec fn sorted(ns: Seq<NodeV>) -> bool {
    forall|i: int, j: int|
        0 <= i < j < ns.len() ==> !path::before(
            #[trigger] ns[j].name(),
            #[trigger] ns[i].name(),
        )
}

/// No two entries have the same name.
pub open spec fn distinct(ns: Seq<NodeV>) -> bool {
    forall|i: int, j: int|
        0 <= i < j < ns.len() ==> #[trigger] ns[i].name() != #[trigger] ns[j].name()
}

/// Ordering entries puts them in the order of their names, and neither drops nor
/// adds any.
pub proof fn law_entries_are_put_in_order(ns: Seq<NodeV>)
    ensures
        sorted(in_order(ns)),
        in_order(ns).to_multiset() == ns.to_multiset(),
    decreases ns.len(),
{
    if ns.len() == 0 {
        assert(ns =~= Seq::<NodeV>::empty());
    } else {
        let rest = in_order(ns.drop_last());
        let x = ns.last();
        let k = slot(rest, x.name()) as int;
        law_entries_are_put_in_order(ns.drop_last());
        lemma_slot(rest, x.name());
        vstd::seq_lib::to_multiset_insert(rest, k, x);
        vstd::seq_lib::to_multiset_build(ns.drop_last(), x);
        assert(ns.drop_last().push(x) =~= ns);
        let all = rest.insert(k, x);
        assert forall|i: int, j: int| 0 <= i < j < all.len() implies !path::before(
            #[trigger] all[j].name(),
            #[trigger] all[i].name(),
        ) by {
            if i < k {
                assert(all[i] == rest[i]);
            }
            if j > k {
                assert(all[j] == rest[j - 1]);
            }
            if j < k {
                assert(all[j] == rest[j]);
            }
            if i > k {
                assert(all[i] == rest[i - 1]);
            }
            if i == k {
                path::lemma_before_is_total(x.name(), rest[j - 1].name());
            }
            if j == k && path::before(x.name(), rest[i].name()) {
                path::lemma_before_is_total(rest[i].name(), rest[k - 1].name());
                if rest[i].name() != rest[k - 1].name() {
                    assert(!path::before(rest[k - 1].name(), rest[i].name()));
                    path::lemma_before_is_transitive(
                        x.name(),
                        rest[i].name(),
                        rest[k - 1].name(),
                    );
                }
            }
        }
    }
}

/// The two directories hold the same, down to the depth, in whatever order their
/// entries come.
pub open spec fn alike(a: Seq<NodeV>, b: Seq<NodeV>, depth: nat) -> bool
    decreases depth, 1nat,
{
    &&& a.len() == b.len()
    &&& distinct(a)
    &&& distinct(b)
    &&& forall|i: int|
        0 <= i < a.len() ==> exists|j: int|
            0 <= j < b.len() && kin(#[trigger] a[i], #[trigger] b[j], depth)
}

/// The two entries have the same name and are the same, down to the depth.
pub open spec fn kin(a: NodeV, b: NodeV, depth: nat) -> bool
    decreases depth, 0nat,
{
    &&& a.name() == b.name()
    &&& match (a, b) {
        (NodeV::Leaf(_), NodeV::Leaf(_)) => true,
        (NodeV::Dir(_, x), NodeV::Dir(_, y)) => depth > 1 ==> alike(x, y, (depth - 1) as nat),
        _ => false,
    }
}

/// Entries with different names are in strict order once they are in order, and
/// are the same entries.
proof fn lemma_strictly_in_order(ns: Seq<NodeV>)
    requires
        distinct(ns),
    ensures
        in_order(ns).len() == ns.len(),
        forall|i: int| 0 <= i < ns.len() ==> in_order(ns).contains(#[trigger] ns[i]),
        forall|i: int|
            0 <= i < ns.len() ==> ns.contains(#[trigger] in_order(ns)[i]),
        forall|i: int, j: int|
            0 <= i < j < ns.len() ==> path::before(
                #[trigger] in_order(ns)[i].name(),
                #[trigger] in_order(ns)[j].name(),
            ),
    decreases ns.len(),
{
    law_entries_are_put_in_order(ns);
    let s = in_order(ns);
    vstd::seq_lib::to_multiset_len(ns);
    vstd::seq_lib::to_multiset_len(s);
    assert forall|i: int| 0 <= i < ns.len() implies s.contains(#[trigger] ns[i]) by {
        vstd::seq_lib::to_multiset_contains(ns, ns[i]);
        vstd::seq_lib::to_multiset_contains(s, ns[i]);
    }
    assert forall|i: int| 0 <= i < ns.len() implies ns.contains(#[trigger] s[i]) by {
        vstd::seq_lib::to_multiset_contains(ns, s[i]);
        vstd::seq_lib::to_multiset_contains(s, s[i]);
    }
    lemma_in_order_distinct(ns);
    assert forall|i: int, j: int| 0 <= i < j < ns.len() implies path::before(
        #[trigger] s[i].name(),
        #[trigger] s[j].name(),
    ) by {
        path::lemma_before_is_total(s[i].name(), s[j].name());
    }
}

/// Entries with different names still have different names once they are in
/// order.
proof fn lemma_in_order_distinct(ns: Seq<NodeV>)
    requires
        distinct(ns),
    ensures
        distinct(in_order(ns)),
    decreases ns.len(),
{
    if ns.len() > 0 {
        let init = ns.drop_last();
        let rest = in_order(init);
        let x = ns.last();
        let k = slot(rest, x.name()) as int;
        assert(distinct(init)) by {
            assert forall|i: int, j: int| 0 <= i < j < init.len() implies #[trigger] init[i].name()
                != #[trigger] init[j].name() by {
                assert(init[i] == ns[i] && init[j] == ns[j]);
            }
        }
        lemma_in_order_distinct(init);
        lemma_slot(rest, x.name());
        law_entries_are_put_in_order(init);
        assert forall|m: int| 0 <= m < rest.len() implies #[trigger] rest[m].name() != x.name() by {
            vstd::seq_lib::to_multiset_contains(rest, rest[m]);
            vstd::seq_lib::to_multiset_contains(init, rest[m]);
            let n = choose|n: int| 0 <= n < init.len() && init[n] == rest[m];
            assert(init[n] == ns[n]);
            assert(ns[n].name() != ns[ns.len() - 1].name());
        }
        let all = rest.insert(k, x);
        assert forall|i: int, j: int| 0 <= i < j < all.len() implies #[trigger] all[i].name()
            != #[trigger] all[j].name() by {
            if i < k {
                assert(all[i] == rest[i]);
            }
            if i > k {
                assert(all[i] == rest[i - 1]);
            }
            if j < k {
                assert(all[j] == rest[j]);
            }
            if j > k {
                assert(all[j] == rest[j - 1]);
            }
        }
    }
}

/// The names of entries.
spec fn names(ns: Seq<NodeV>) -> Seq<Seq<u8>> {
    Seq::new(ns.len(), |i: int| ns[i].name())
}

/// Ordered runs of entries that are kin place by place give the same lines.
proof fn lemma_kin_list_alike(
    s: Seq<NodeV>,
    t: Seq<NodeV>,
    root: Seq<u8>,
    place: PlaceV,
    depth: nat,
)
    requires
        s.len() == t.len(),
        forall|i: int| 0 <= i < s.len() ==> kin(#[trigger] s[i], t[i], depth),
    ensures
        listed(s, root, place, depth) == listed(t, root, place, depth),
    decreases depth, 0nat, s.len(),
{
    if s.len() > 0 {
        let s0 = s.drop_last();
        let t0 = t.drop_last();
        assert forall|i: int| 0 <= i < s0.len() implies kin(#[trigger] s0[i], t0[i], depth) by {
            assert(s0[i] == s[i] && t0[i] == t[i]);
        }
        lemma_kin_list_alike(s0, t0, root, place, depth);
        let n = s.len() - 1;
        assert(kin(s[n], t[n], depth));
        let at = place.entry(s.last().name());
        match (s.last(), t.last()) {
            (NodeV::Dir(_, x), NodeV::Dir(_, y)) => {
                if depth > 1 {
                    law_the_order_of_entries_does_not_show(x, y, root, at, (depth - 1) as nat);
                }
            },
            _ => {},
        }
    }
}

/// The listing does not depend on the order in which the entries of the
/// directories come, at whatever level: the same tree gives the same text.
pub proof fn law_the_order_of_entries_does_not_show(
    a: Seq<NodeV>,
    b: Seq<NodeV>,
    root: Seq<u8>,
    place: PlaceV,
    depth: nat,
)
    requires
        alike(a, b, depth),
    ensures
        listing(a, root, place, depth) == listing(b, root, place, depth),
    decreases depth, 1nat, 0nat,
{
    let s = in_order(a);
    let t = in_order(b);
    lemma_strictly_in_order(a);
    lemma_strictly_in_order(b);
    assert forall|i: int| 0 <= i < s.len() implies names(t).contains(#[trigger] names(s)[i]) by {
        let c = lemma_match(a, b, depth, i);
        assert(names(t)[c] == names(s)[i]);
    }
    path::lemma_ascending_is_unique(names(s), names(t));
    assert forall|i: int| 0 <= i < s.len() implies kin(#[trigger] s[i], t[i], depth) by {
        let c = lemma_match(a, b, depth, i);
        assert(names(s)[i] == names(t)[i]);
        path::lemma_before_is_total(t[c].name(), t[i].name());
        if c < i {
            assert(path::before(t[c].name(), t[i].name()));
        }
        if i < c {
            assert(path::before(t[i].name(), t[c].name()));
        }
    }
    lemma_kin_list_alike(s, t, root, place, depth);
}

/// An entry of the one directory, in its place, and its kin in the other.
proof fn lemma_match(a: Seq<NodeV>, b: Seq<NodeV>, depth: nat, i: int) -> (c: int)
    requires
        alike(a, b, depth),
        0 <= i < in_order(a).len(),
    ensures
        0 <= c < in_order(b).len(),
        in_order(b)[c].name() == in_order(a)[i].name(),
        kin(in_order(a)[i], in_order(b)[c], depth),
{
    let s = in_order(a);
    let t = in_order(b);
    lemma_strictly_in_order(a);
    lemma_strictly_in_order(b);
    assert(a.contains(s[i]));
    let k = choose|k: int| 0 <= k < a.len() && a[k] == s[i];
    let j = choose|j: int| 0 <= j < b.len() && kin(a[k], #[trigger] b[j], depth);
    assert(t.contains(b[j]));
    choose|c: int| 0 <= c < t.len() && t[c] == b[j]
}

/// An entry that is called `.git` leaves no trace in the listing, whatever it is
/// and holds, and wherever it stands among the others.
proof fn lemma_git_does_not_show(
    s: Seq<NodeV>,
    k: int,
    git: NodeV,
    root: Seq<u8>,
    place: PlaceV,
    depth: nat,
)
    requires
        0 <= k <= s.len(),
        git.name() == utf8(".git"@),
    ensures
        listed(s.insert(k, git), root, place, depth) == listed(s, root, place, depth),
    decreases s.len(),
{
    let all = s.insert(k, git);
    if k == s.len() {
        assert(all.drop_last() =~= s);
    } else {
        lemma_git_does_not_show(s.drop_last(), k, git, root, place, depth);
        assert(all.drop_last() =~= s.drop_last().insert(k, git));
        assert(all.last() == s.last());
    }
}

/// A directory is listed as if it held nothing that is called `.git`: such an
/// entry changes nothing, whatever it is and holds.
pub proof fn law_git_does_not_show(
    ns: Seq<NodeV>,
    git: NodeV,
    root: Seq<u8>,
    place: PlaceV,
    depth: nat,
)
    requires
        git.name() == utf8(".git"@),
    ensures
        listing(ns.push(git), root, place, depth) == listing(ns, root, place, depth),
{
    let rest = in_order(ns);
    assert(ns.push(git).drop_last() =~= ns);
    lemma_slot(rest, git.name());
    lemma_git_does_not_show(rest, slot(rest, git.name()) as int, git, root, place, depth);
}

/// An entry whose name comes behind all others is put last.
proof fn lemma_last_in_order(ns: Seq<NodeV>, x: NodeV)
    requires
        forall|i: int| 0 <= i < ns.len() ==> path::before(#[trigger] ns[i].name(), x.name()),
    ensures
        in_order(ns.push(x)) == in_order(ns).push(x),
{
    let rest = in_order(ns);
    assert(ns.push(x).drop_last() =~= ns);
    law_entries_are_put_in_order(ns);
    assert forall|i: int| 0 <= i < rest.len() implies !path::before(
        x.name(),
        #[trigger] rest[i].name(),
    ) by {
        vstd::seq_lib::to_multiset_contains(rest, rest[i]);
        vstd::seq_lib::to_multiset_contains(ns, rest[i]);
        let k = choose|k: int| 0 <= k < ns.len() && ns[k] == rest[i];
        assert(path::before(ns[k].name(), x.name()));
        path::lemma_before_is_total(ns[k].name(), x.name());
    }
    if rest.len() > 0 {
        assert(!path::before(x.name(), rest[rest.len() - 1].name()));
    }
    assert(rest.insert(rest.len() as int, x) =~= rest.push(x));
}

/// An empty directory has no lines.
pub proof fn law_an_empty_directory_has_no_lines(root: Seq<u8>, place: PlaceV, depth: nat)
    ensures
        listing(Seq::empty(), root, place, depth).len() == 0,
{
    assert(in_order(Seq::<NodeV>::empty()) =~= Seq::empty());
}

/// What an entry adds to a listing. One whose name comes behind those of all others
/// adds its lines behind theirs, and they stay as they were: none where it is called
/// `.git`; else one line with how its place is shown, to which a directory adds a
/// slash, and, where the depth allows, the whole listing of its own entries.
pub proof fn law_an_entry_adds_its_lines(
    ns: Seq<NodeV>,
    x: NodeV,
    root: Seq<u8>,
    place: PlaceV,
    depth: nat,
)
    requires
        forall|i: int| 0 <= i < ns.len() ==> path::before(#[trigger] ns[i].name(), x.name()),
    ensures
        listing(ns.push(x), root, place, depth) == listing(ns, root, place, depth) + (
        if x.name() == utf8(".git"@) {
            Seq::<Seq<char>>::empty()
        } else {
            match x {
                NodeV::Leaf(name) => seq![place.entry(name).label(root)],
                NodeV::Dir(name, entries) => seq![place.entry(name).label(root) + "/"@] + (
                if depth > 1 {
                    listing(entries, root, place.entry(name), (depth - 1) as nat)
                } else {
                    Seq::empty()
                }),
            }
        }),
{
    lemma_last_in_order(ns, x);
    let s = in_order(ns).push(x);
    assert(s.drop_last() =~= in_order(ns));
    let front = listing(ns, root, place, depth);
    let at = place.entry(x.name());
    match x {
        NodeV::Leaf(name) => {
            assert(front.push(at.label(root)) =~= front + seq![at.label(root)]);
        },
        NodeV::Dir(name, entries) => {
            let line = at.label(root) + "/"@;
            let inner = if depth > 1 {
                listing(entries, root, at, (depth - 1) as nat)
            } else {
                Seq::empty()
            };
            assert(front.push(line) + inner =~= front + (seq![line] + inner));
            assert(front.push(line) =~= front + (seq![line] + Seq::<Seq<char>>::empty()));
        },
    }
    assert(front + Seq::<Seq<char>>::empty() =~= front);
}

/// A run of lines that ordered entries keep.
proof fn lemma_listed_grows(
    s: Seq<NodeV>,
    i: int,
    root: Seq<u8>,
    place: PlaceV,
    depth: nat,
)
    requires
        0 <= i <= s.len(),
    ensures
        listed(s.take(i), root, place, depth).is_prefix_of(listed(s, root, place, depth)),
    decreases s.len(),
{
    if i < s.len() {
        lemma_listed_grows(s.drop_last(), i, root, place, depth);
        assert(s.drop_last().take(i) =~= s.take(i));
    } else {
        assert(s.take(i) =~= s);
    }
}

/// Nothing is left out: every entry that is not called `.git` has its line, whatever
/// else it is called and wherever it stands among the others; and right behind the
/// line of a directory, where the depth allows, comes the whole listing of what it
/// holds.
pub proof fn law_every_entry_is_listed(
    ns: Seq<NodeV>,
    x: int,
    root: Seq<u8>,
    place: PlaceV,
    depth: nat,
)
    requires
        0 <= x < ns.len(),
        ns[x].name() != utf8(".git"@),
    ensures
        exists|k: int|
            #![trigger listing(ns, root, place, depth)[k]]
            {
                let all = listing(ns, root, place, depth);
                &&& 0 <= k < all.len()
                &&& match ns[x] {
                    NodeV::Leaf(name) => all[k] == place.entry(name).label(root),
                    NodeV::Dir(name, entries) => {
                        let inner = listing(
                            entries,
                            root,
                            place.entry(name),
                            (depth - 1) as nat,
                        );
                        &&& all[k] == place.entry(name).label(root) + "/"@
                        &&& depth > 1 ==> k + 1 + inner.len() <= all.len() && all.subrange(
                            k + 1,
                            k + 1 + inner.len(),
                        ) == inner
                    },
                }
            },
{
    let s = in_order(ns);
    law_entries_are_put_in_order(ns);
    vstd::seq_lib::to_multiset_contains(ns, ns[x]);
    vstd::seq_lib::to_multiset_contains(s, ns[x]);
    let i = choose|i: int| 0 <= i < s.len() && s[i] == ns[x];
    let all = listing(ns, root, place, depth);
    let before = listed(s.take(i), root, place, depth);
    let upto = listed(s.take(i + 1), root, place, depth);
    lemma_listed_grows(s, i + 1, root, place, depth);
    assert(s.take(i + 1).drop_last() =~= s.take(i));
    assert(s.take(i + 1).last() == s[i]);
    let k = before.len() as int;
    assert(upto[k] == all[k]);
    if let NodeV::Dir(name, entries) = ns[x] {
        if depth > 1 {
            let inner = listing(entries, root, place.entry(name), (depth - 1) as nat);
            assert(upto =~= before.push(upto[k]) + inner);
            assert(all.subrange(k + 1, k + 1 + inner.len()) =~= inner) by {
                assert forall|m: int| 0 <= m < inner.len() implies all[k + 1 + m] == inner[m] by {
                    assert(upto[k + 1 + m] == inner[m]);
                }
            }
        }
    }
}

/// Nothing is made up and nothing comes twice: at the last level there are as many
/// lines as there are entries that are not called `.git`. `seen` says which those
/// are.
pub proof fn law_the_last_level_has_a_line_for_each_entry(
    ns: Seq<NodeV>,
    root: Seq<u8>,
    place: PlaceV,
    seen: spec_fn(NodeV) -> bool,
)
    requires
        forall|x: NodeV| #[trigger] seen(x) <==> x.name() != utf8(".git"@),
    ensures
        listing(ns, root, place, 1).len() == ns.filter(seen).len(),
    decreases ns.len(),
{
    lemma_lines_at_the_last_level(in_order(ns), root, place, seen);
    lemma_seen_in_order(ns, seen);
}

proof fn lemma_lines_at_the_last_level(
    s: Seq<NodeV>,
    root: Seq<u8>,
    place: PlaceV,
    seen: spec_fn(NodeV) -> bool,
)
    requires
        forall|x: NodeV| #[trigger] seen(x) <==> x.name() != utf8(".git"@),
    ensures
        listed(s, root, place, 1).len() == s.filter(seen).len(),
    decreases s.len(),
{
    reveal(Seq::filter);
    if s.len() > 0 {
        lemma_lines_at_the_last_level(s.drop_last(), root, place, seen);
    }
}

proof fn lemma_seen_in_order(ns: Seq<NodeV>, seen: spec_fn(NodeV) -> bool)
    ensures
        in_order(ns).filter(seen).len() == ns.filter(seen).len(),
    decreases ns.len(),
{
    reveal(Seq::filter);
    if ns.len() > 0 {
        let rest = in_order(ns.drop_last());
        let x = ns.last();
        lemma_seen_in_order(ns.drop_last(), seen);
        lemma_slot(rest, x.name());
        lemma_filter_insert(rest, slot(rest, x.name()) as int, x, seen);
    } else {
        assert(in_order(ns) =~= Seq::empty());
    }
}

proof fn lemma_filter_insert(s: Seq<NodeV>, k: int, x: NodeV, seen: spec_fn(NodeV) -> bool)
    requires
        0 <= k <= s.len(),
    ensures
        s.insert(k, x).filter(seen).len() == s.filter(seen).len() + (if seen(x) {
            1nat
        } else {
            0
        }),
    decreases s.len(),
{
    reveal(Seq::filter);
    let all = s.insert(k, x);
    if k == s.len() {
        assert(all.drop_last() =~= s);
    } else {
        lemma_filter_insert(s.drop_last(), k, x, seen);
        assert(all.drop_last() =~= s.drop_last().insert(k, x));
        assert(all.last() == s.last());
    }
}

/// How an entry is shown that was reached by a relative path: by that path, a slash
/// and its name, where these are text; in the workspace root by its name alone.
pub proof fn law_entries_are_shown_from_the_root(
    raw: Seq<char>,
    target: Seq<u8>,
    root: Seq<u8>,
    name: Seq<char>,
    inner: Seq<char>,
)
    requires
        !workspace::absolute(raw),
    ensures
        ({
            let at = text::join(workspace::segments(raw), "/"@);
            let front = if at.len() == 0 || at.last() == '/' {
                at
            } else {
                at + "/"@
            };
            let entry = place_of(raw, target).entry(utf8(name));
            &&& entry.label(root) == front + name
            &&& name.len() > 0 && name.last() != '/' ==> entry.entry(utf8(inner)).label(root)
                == front + name + "/"@ + inner
        }),
{
    let at = text::join(workspace::segments(raw), "/"@);
    let front = if at.len() == 0 || at.last() == '/' {
        at
    } else {
        at + "/"@
    };
    path::law_texts_are_put_together_as_text(at, name);
    path::law_the_path_of_a_text_is_shown_as_it(front + name, front + name);
    if name.len() > 0 && name.last() != '/' {
        assert((front + name).last() == name.last());
        path::law_texts_are_put_together_as_text(front + name, inner);
        path::law_the_path_of_a_text_is_shown_as_it(
            front + name + "/"@ + inner,
            front + name + "/"@ + inner,
        );
    }
}

/// What the tool gives for a directory: the lines of its listing, one below the
/// other, as they are while they are short enough, and how many they are; and for
/// anything else a problem that names the path.
pub proof fn law_the_tool_gives_the_listing<S: OffloadSink>(
    tool: ListFilesTool,
    args: ListArgs,
    root: FilePath,
    target: FilePath,
    found: ListProbe,
    ctx: ToolCtx<S>,
    r: ToolResult,
)
    requires
        call_ensures(
            ListFilesTool::finish::<S>,
            (&tool, &args, &root, &target, &found, &ctx),
            r,
        ),
    ensures
        r.is_error <==> !(found is Dir),
        !(found is Dir) ==> r.detail is None && text::contains(r.summary@, args.path@),
        found matches ListProbe::Dir(entries) ==> {
            let lines = listing(
                nodes_view(entries@),
                root@,
                place_of(args.path@, target@),
                args.depth as nat,
            );
            let whole = text::join(lines, "\n"@);
            &&& r.summary@ == text::dec(lines.len()) + " entries under "@ + args.path@
                + " (depth "@ + text::dec(args.depth as nat) + ")"@
            &&& whole.len() <= 25_000 ==> (r.detail matches Some(d) && d@ == whole)
                && r.offload_path is None
        },
{
    if !(found is Dir) {
        let i = "path `"@.len() as int;
        let said = r.summary@;
        assert(said.subrange(i, i + args.path@.len()) =~= args.path@);
        assert(text::matches_at(said, args.path@, i));
    }
}

/// What an input asks for: the path under `path`, or the workspace root; and the
/// depth under `depth`, or two, brought between one and five.
pub proof fn law_what_a_listing_is_asked_for(input: JsonV)
    ensures
        json::field(input, "path"@) matches Some(JsonV::String(p)) ==> path_of(input) == p,
        !(json::field(input, "path"@) matches Some(JsonV::String(_))) ==> path_of(input) == "."@,
        1 <= depth_of(input) <= 5,
        json::field(input, "depth"@) is None ==> depth_of(input) == 2,
        json::field(input, "depth"@) matches Some(JsonV::Number(NumberV::Int(n))) ==> {
            &&& 1 <= n <= 5 ==> depth_of(input) == n
            &&& n == 0 ==> depth_of(input) == 1
            &&& 5 < n <= u64::MAX ==> depth_of(input) == 5
            &&& n < 0 ==> depth_of(input) == 2
        },
{
}

/// The directory that is listed is the one that the input names: a relative path leads
/// under the workspace root, name by name.
pub proof fn law_the_directory_listed_is_the_one_named(
    tool: ListFilesTool,
    input: Json,
    w: Workspace,
    r: Result<(ListArgs, FilePath), ToolResult>,
)
    requires
        call_ensures(ListFilesTool::plan, (&tool, &input, &w), r),
    ensures
        r matches Ok((args, target)) ==> {
            &&& json::field(input@, "path"@) matches Some(JsonV::String(p)) ==> args.path@ == p
            &&& !(json::field(input@, "path"@) matches Some(JsonV::String(_))) ==> args.path@
                == "."@
            &&& 1 <= args.depth <= 5
            &&& json::field(input@, "depth"@) matches Some(JsonV::Number(NumberV::Int(n))) ==> 1
                <= n <= 5 ==> args.depth == n
            &&& json::field(input@, "depth"@) is None ==> args.depth == 2
            &&& target@ == (if args.path@.len() > 0 && args.path@[0] == '/' {
                utf8(args.path@)
            } else {
                path::under(
                    w.root_view(),
                    utf8(text::join(workspace::segments(args.path@), "/"@)),
                )
            })
        },
        r matches Err(e) ==> e.is_error && e.detail is None,
{
    if let Ok((args, target)) = r {
        assert(w.lets_read(args.path@, Ok(target)));
    }
}

/// How an entry is shown that was reached by an absolute path: by what is left of its
/// path behind the workspace root, if it lies there, and else by its whole path.
pub proof fn law_other_entries_are_shown_by_their_paths(
    raw: Seq<char>,
    target: Seq<u8>,
    root: Seq<u8>,
    name: Seq<u8>,
)
    requires
        workspace::absolute(raw),
    ensures
        ({
            let at = path::under(target, name);
            place_of(raw, target).entry(name).label(root) == shown(
                match path::path_below(at, root) {
                    Some(rest) => rest,
                    None => at,
                },
            )
        }),
{
}

/// What is known of an entry is its name, byte by byte, and what it holds.
pub proof fn law_an_entry_is_its_name_and_what_it_holds(
    name: FilePath,
    entries: Vec<Node>,
    i: int,
)
    ensures
        Node::Leaf(name)@ == NodeV::Leaf(name.bytes@),
        Node::Dir(name, entries)@ matches NodeV::Dir(n, held) && n == name.bytes@ && held.len()
            == entries@.len() && (0 <= i < held.len() ==> held[i] == entries@[i]@),
{
}

} // verus!
