//! The working directory of a run. Tools never use the paths that a model
//! supplies as they are: a [`Workspace`] turns each into a path that stays
//! inside the workspace, or refuses it with a message for the model.
//!
//! What a model supplies is text; what it leads to is a path of the file system.
use vstd::prelude::*;

use crate::path;
use crate::path::{
    canonicalize, is_dir, on_disk, opt_view, parent, path_parent, path_views, shown, under, utf8,
    within, FilePath,
};
use crate::text;
use crate::text::{chars_of, concat, dec_padded, join_strings, split_str, str_eq};

verus! {

/// What stands for the path of an output that could not be put on disk.
pub const OFFLOAD_UNAVAILABLE: &'static str = "<offload-unavailable>";

/// Why there is no workspace.
#[derive(Debug, PartialEq, Eq)]
pub enum WorkspaceError {
    /// The root is not an existing directory.
    RootNotADirectory(FilePath),
    /// The offload root is not an existing directory.
    OffloadRootNotADirectory(FilePath),
}

impl WorkspaceError {
    /// What the error says.
    pub open spec fn says(self) -> Seq<char> {
        match self {
            WorkspaceError::RootNotADirectory(p) => "workspace root `"@ + shown(
                p@,
            ) + "` does not exist or is not a directory"@,
            WorkspaceError::OffloadRootNotADirectory(p) => "offload root `"@ + shown(
                p@,
            ) + "` does not exist or is not a directory"@,
        }
    }

    /// The error as a message.
    pub fn message(&self) -> (r: String)
        ensures
            r@ == self.says(),
    {
        match self {
            WorkspaceError::RootNotADirectory(p) => {
                let mut s = concat("workspace root `", p.show().as_str());
                s.append("` does not exist or is not a directory");
                s
            },
            WorkspaceError::OffloadRootNotADirectory(p) => {
                let mut s = concat("offload root `", p.show().as_str());
                s.append("` does not exist or is not a directory");
                s
            },
        }
    }
}

/// Why a path is refused. The message names the path as it was supplied, and
/// nothing else of the file system.
#[derive(Debug, Clone, PartialEq, Eq)]
pub enum PathViolation {
    /// It is absolute.
    Absolute(String),
    /// It leaves the workspace by `..`.
    ParentTraversal(String),
    /// It leads out of the workspace, for example through a symbolic link.
    EscapesRoot(String),
}

/// What a [`PathViolation`] is, mathematically: the kind, and the path as it was
/// supplied.
pub enum ViolationV {
    Absolute(Seq<char>),
    ParentTraversal(Seq<char>),
    EscapesRoot(Seq<char>),
}

impl View for PathViolation {
    type V = ViolationV;

    open spec fn view(&self) -> ViolationV {
        match self {
            PathViolation::Absolute(p) => ViolationV::Absolute(p@),
            PathViolation::ParentTraversal(p) => ViolationV::ParentTraversal(p@),
            PathViolation::EscapesRoot(p) => ViolationV::EscapesRoot(p@),
        }
    }
}

/// Where a path was said to lead, or why it was refused.
pub open spec fn settled(r: Result<FilePath, PathViolation>) -> Result<Seq<u8>, ViolationV> {
    match r {
        Ok(p) => Ok(p@),
        Err(v) => Err(v@),
    }
}

impl PathViolation {
    /// The path as it was supplied.
    pub open spec fn path(self) -> Seq<char> {
        match self {
            PathViolation::Absolute(p) => p@,
            PathViolation::ParentTraversal(p) => p@,
            PathViolation::EscapesRoot(p) => p@,
        }
    }

    /// What the refusal says.
    pub open spec fn says(self) -> Seq<char> {
        "path `"@ + self.path() + (match self {
            PathViolation::Absolute(_) =>
                "` is absolute; supply a path relative to the workspace root instead"@,
            PathViolation::ParentTraversal(_) =>
                "` escapes the workspace via `..`; supply a path relative to and contained within the workspace root"@,
            PathViolation::EscapesRoot(_) =>
                "` resolves outside the workspace; tools may only touch files within the workspace root"@,
        })
    }

    /// The refusal as a message.
    pub fn message(&self) -> (r: String)
        ensures
            r@ == self.says(),
    {
        match self {
            PathViolation::Absolute(p) => {
                let mut s = concat("path `", p.as_str());
                s.append("` is absolute; supply a path relative to the workspace root instead");
                s
            },
            PathViolation::ParentTraversal(p) => {
                let mut s = concat("path `", p.as_str());
                s.append(
                    "` escapes the workspace via `..`; supply a path relative to and contained within the workspace root",
                );
                s
            },
            PathViolation::EscapesRoot(p) => {
                let mut s = concat("path `", p.as_str());
                s.append(
                    "` resolves outside the workspace; tools may only touch files within the workspace root",
                );
                s
            },
        }
    }
}

// ---------------------------------------------------------------------------
// Paths as supplied
// ---------------------------------------------------------------------------

/// The path is absolute.
pub open spec fn absolute(path: Seq<char>) -> bool {
    path.len() > 0 && path[0] == '/'
}

/// One more segment: an empty one and `.` are dropped, `..` takes back the
/// segment before it, unless there is none to take back.
pub open spec fn normal_step(done: Seq<Seq<char>>, segment: Seq<char>) -> Seq<Seq<char>> {
    if segment.len() == 0 || segment == "."@ {
        done
    } else if segment == ".."@ {
        if done.len() > 0 && done.last() != ".."@ {
            done.drop_last()
        } else {
            done.push(segment)
        }
    } else {
        done.push(segment)
    }
}

/// The segments, normalised one after the other.
pub open spec fn normal(segments: Seq<Seq<char>>) -> Seq<Seq<char>>
    decreases segments.len(),
{
    if segments.len() == 0 {
        Seq::empty()
    } else {
        normal_step(normal(segments.drop_last()), segments.last())
    }
}

/// The segments of a path, normalised.
pub open spec fn segments(path: Seq<char>) -> Seq<Seq<char>> {
    normal(text::split(path, '/'))
}

/// The path leaves the directory that it is relative to.
pub open spec fn climbs(path: Seq<char>) -> bool {
    segments(path).contains(".."@)
}

/// What the refusal of a path says. Which of the three it is follows from the
/// text of the path.
pub open spec fn path_refusal(raw: Seq<char>) -> Seq<char> {
    "path `"@ + raw + (if absolute(raw) {
        "` is absolute; supply a path relative to the workspace root instead"@
    } else if climbs(raw) {
        "` escapes the workspace via `..`; supply a path relative to and contained within the workspace root"@
    } else {
        "` resolves outside the workspace; tools may only touch files within the workspace root"@
    })
}

/// A relative path without the segments that normalisation drops.
pub open spec fn plain(path: Seq<char>) -> Seq<char> {
    text::join(segments(path), "/"@)
}

/// Where a relative path leads, under `root`.
pub open spec fn joined(root: Seq<u8>, path: Seq<char>) -> Seq<u8> {
    under(root, utf8(plain(path)))
}

/// Whether the path is absolute.
pub fn is_absolute(path: &str) -> (r: bool)
    ensures
        r == absolute(path@),
{
    let cs = chars_of(path);
    cs.len() > 0 && cs[0] == '/'
}

/// The segments of a path, normalised.
fn normal_segments(path: &str) -> (r: Vec<String>)
    ensures
        text::views(r@) == segments(path@),
{
    let parts = split_str(path, '/');
    let ghost pv = text::views(parts@);
    let mut done: Vec<String> = Vec::new();
    let mut i: usize = 0;
    proof {
        assert(pv.take(0) =~= Seq::<Seq<char>>::empty());
        assert(text::views(done@) =~= Seq::<Seq<char>>::empty());
    }
    while i < parts.len()
        invariant
            i <= parts@.len(),
            pv == text::views(parts@),
            text::views(done@) == normal(pv.take(i as int)),
        decreases parts@.len() - i,
    {
        let ghost before = text::views(done@);
        let part = parts[i].as_str();
        proof {
            assert(pv.take(i + 1).drop_last() =~= pv.take(i as int));
        }
        if part.is_empty() || str_eq(part, ".") {
        } else if str_eq(part, "..") {
            let n: usize = done.len();
            if n > 0 && !str_eq(done[n - 1].as_str(), "..") {
                let _ = done.pop();
                proof {
                    assert(text::views(done@) =~= before.drop_last());
                }
            } else {
                done.push("..".to_owned());
                proof {
                    assert(text::views(done@) =~= before.push(".."@));
                }
            }
        } else {
            done.push(part.to_owned());
            proof {
                assert(text::views(done@) =~= before.push(part@));
            }
        }
        i = i + 1;
    }
    proof {
        assert(pv.take(i as int) =~= pv);
    }
    done
}

/// A relative path without the segments that normalisation drops.
pub(crate) fn plain_path(path: &str) -> (r: String)
    ensures
        r@ == plain(path@),
{
    join_strings(&normal_segments(path), "/")
}

/// Where a path that a model supplied leads, by its text alone: under `root`,
/// or a refusal.
pub fn resolve_text(root: &FilePath, raw: &str) -> (r: Result<FilePath, PathViolation>)
    ensures
        if absolute(raw@) {
            r matches Err(PathViolation::Absolute(p)) && p@ == raw@
        } else if climbs(raw@) {
            r matches Err(PathViolation::ParentTraversal(p)) && p@ == raw@
        } else {
            r matches Ok(path) && path@ == joined(root@, raw@)
        },
{
    if is_absolute(raw) {
        return Err(PathViolation::Absolute(raw.to_owned()));
    }
    let parts = normal_segments(raw);
    let ghost pv = segments(raw@);
    let mut i: usize = 0;
    while i < parts.len()
        invariant
            i <= parts@.len(),
            text::views(parts@) == pv,
            pv == segments(raw@),
            !absolute(raw@),
            forall|k: int| 0 <= k < i ==> pv[k] != ".."@,
        decreases parts@.len() - i,
    {
        if str_eq(parts[i].as_str(), "..") {
            proof {
                assert(pv[i as int] == ".."@);
            }
            return Err(PathViolation::ParentTraversal(raw.to_owned()));
        }
        i = i + 1;
    }
    Ok(root.under(&FilePath::from_text(join_strings(&parts, "/").as_str())))
}

// ---------------------------------------------------------------------------
// The file system
// ---------------------------------------------------------------------------

/// `chain` is `path` and what is left of it each time its last component is taken
/// away, down to what has none to take.
pub open spec fn ancestry(path: Seq<u8>, chain: Seq<Seq<u8>>) -> bool {
    &&& chain.len() > 0
    &&& chain[0] == path
    &&& forall|k: int|
        #![trigger chain[k]]
        0 < k < chain.len() ==> path_parent(chain[k - 1]) == Some(chain[k])
    &&& path_parent(chain.last()) is None
}

/// `path` and all its ancestors, the deepest first.
pub fn ancestors(path: &FilePath) -> (r: Vec<FilePath>)
    ensures
        ancestry(path@, path_views(r@)),
{
    let mut r: Vec<FilePath> = Vec::new();
    r.push(path.dup());
    let mut here = path.dup();
    loop
        invariant
            r@.len() > 0,
            r@[0]@ == path@,
            r@.last()@ == here@,
            forall|k: int|
                #![trigger r@[k]]
                0 < k < r@.len() ==> path_parent(r@[k - 1]@) == Some(r@[k]@),
        decreases here@.len(),
    {
        match parent(&here) {
            Some(up) => {
                r.push(up.dup());
                here = up;
            },
            None => {
                proof {
                    let chain = path_views(r@);
                    assert forall|k: int| 0 < k < chain.len() implies path_parent(chain[k - 1])
                        == Some(#[trigger] chain[k]) by {
                        assert(r@[k]@ == chain[k]);
                    }
                }
                return r;
            },
        }
    }
}

/// The first of `chain` of which `found` says that it exists.
pub open spec fn first_found(chain: Seq<Seq<u8>>, found: Seq<bool>) -> Option<Seq<u8>>
    decreases chain.len(),
{
    if chain.len() == 0 || found.len() == 0 {
        None
    } else if found[0] {
        Some(chain[0])
    } else {
        first_found(chain.skip(1), found.skip(1))
    }
}

/// The deepest path of a chain, given which of them exist; `path` where none does.
pub fn deepest_of(path: &FilePath, chain: &Vec<FilePath>, found: &Vec<bool>) -> (r: FilePath)
    ensures
        r@ == (match first_found(path_views(chain@), found@) {
            Some(p) => p,
            None => path@,
        }),
{
    let ghost cv = path_views(chain@);
    let mut i: usize = 0;
    proof {
        assert(cv.skip(0) =~= cv);
        assert(found@.skip(0) =~= found@);
    }
    while i < chain.len() && i < found.len()
        invariant
            i <= chain@.len(),
            i <= found@.len(),
            cv == path_views(chain@),
            first_found(cv, found@) == first_found(cv.skip(i as int), found@.skip(i as int)),
        decreases chain@.len() - i,
    {
        if found[i] {
            return chain[i].dup();
        }
        proof {
            assert(cv.skip(i as int).skip(1) =~= cv.skip(i + 1));
            assert(found@.skip(i as int).skip(1) =~= found@.skip(i + 1));
        }
        i = i + 1;
    }
    path.dup()
}

/// The disk, asked whether there is anything at the path, gave `there`.
pub closed spec fn existence_is(path: Seq<u8>, there: bool) -> bool {
    exists|s: &FilePath| s@ == path && #[trigger] call_ensures(on_disk, (s,), there)
}

/// Of the ancestors of `path`, which are `chain`, the disk said that those before
/// place `k` do not exist and that the one at `k` does, and that one is `found`;
/// with `k` behind the last, none does, and `found` is `path`.
pub open spec fn deepest_at(
    path: Seq<u8>,
    chain: Seq<Seq<u8>>,
    k: int,
    found: Seq<u8>,
) -> bool {
    &&& ancestry(path, chain)
    &&& 0 <= k <= chain.len()
    &&& forall|j: int| 0 <= j < k ==> existence_is(#[trigger] chain[j], false)
    &&& if k < chain.len() {
        found == chain[k] && existence_is(chain[k], true)
    } else {
        found == path
    }
}

/// By what the disk said, `found` is the deepest ancestor of `path` that exists,
/// `path` itself included, or `path` where there is none.
pub open spec fn deepest_is(path: Seq<u8>, found: Seq<u8>) -> bool {
    exists|chain: Seq<Seq<u8>>, k: int| deepest_at(path, chain, k, found)
}

/// The deepest ancestor of `path` that exists on disk, `path` itself included;
/// `path` where there is none. What is on disk decides.
pub fn deepest_existing(path: &FilePath) -> (r: FilePath)
    ensures
        deepest_is(path@, r@),
{
    let chain = ancestors(path);
    let ghost cv = path_views(chain@);
    let mut found: Vec<bool> = Vec::new();
    let mut there: bool = false;
    while !there && found.len() < chain.len()
        invariant
            cv == path_views(chain@),
            found@.len() <= cv.len(),
            there ==> found@.len() > 0,
            forall|j: int|
                0 <= j < found@.len() ==> existence_is(cv[j], #[trigger] found@[j]),
            forall|j: int| 0 <= j < found@.len() - 1 ==> !#[trigger] found@[j],
            found@.len() > 0 ==> found@.last() == there,
        decreases chain@.len() - found@.len(),
    {
        let i: usize = found.len();
        there = on_disk(&chain[i]);
        proof {
            assert(existence_is(cv[i as int], there));
        }
        found.push(there);
    }
    let r = deepest_of(path, &chain, &found);
    proof {
        let k = if there {
            found@.len() - 1
        } else {
            found@.len() as int
        };
        lemma_first_found(cv, found@, k);
        assert forall|j: int| 0 <= j < k implies existence_is(#[trigger] cv[j], false) by {
            assert(!found@[j]);
        }
        assert(there ==> existence_is(cv[k], found@[k]));
        assert(deepest_at(path@, cv, k, r@));
    }
    r
}

/// Where the first that is found stands.
proof fn lemma_first_found(chain: Seq<Seq<u8>>, found: Seq<bool>, k: int)
    requires
        0 <= k <= found.len() <= chain.len(),
        forall|j: int| 0 <= j < k ==> !#[trigger] found[j],
        k < found.len() ==> found[k],
    ensures
        first_found(chain, found) == (if k < found.len() {
            Some(chain[k])
        } else {
            None
        }),
    decreases k,
{
    if k > 0 {
        assert(!found[0]);
        assert forall|j: int| 0 <= j < k - 1 implies !#[trigger] found.skip(1)[j] by {
            assert(!found[j + 1]);
        }
        lemma_first_found(chain.skip(1), found.skip(1), k - 1);
    }
}

/// What is made of a path that was looked for as a directory, once its canonical
/// path is known, if it has one, and whether that is a directory.
pub fn existing_dir(canonical: Option<FilePath>, directory: bool) -> (r: Option<FilePath>)
    ensures
        r == (if directory {
            canonical
        } else {
            None
        }),
{
    if directory {
        canonical
    } else {
        None
    }
}

/// The disk, asked for the canonical path of `path`, gave `canonical`.
pub closed spec fn canonical_is(path: Seq<u8>, canonical: Option<Seq<u8>>) -> bool {
    exists|s: &FilePath, c: Option<FilePath>|
        s@ == path && opt_view(c) == canonical && #[trigger] call_ensures(canonicalize, (s,), c)
}

/// The disk, asked whether the path is a directory, gave `directory`.
pub closed spec fn directory_is(path: Seq<u8>, directory: bool) -> bool {
    exists|s: &FilePath| s@ == path && #[trigger] call_ensures(is_dir, (s,), directory)
}

/// By what the disk said, `path` is an existing directory whose canonical path is
/// `found`, or it is none.
pub open spec fn dir_is(path: Seq<u8>, found: Option<Seq<u8>>) -> bool {
    match found {
        Some(c) => canonical_is(path, Some(c)) && directory_is(c, true),
        None => canonical_is(path, None) || exists|c: Seq<u8>| #[trigger]
            canonical_is(path, Some(c)) && directory_is(c, false),
    }
}

/// The canonical path of `path`, if it is an existing directory. What is on
/// disk decides: the canonical path that it gives for `path`, and whether it says
/// of that one that it is a directory.
fn canonicalize_dir(path: &FilePath) -> (r: Option<FilePath>)
    ensures
        dir_is(path@, opt_view(r)),
{
    let canonical = canonicalize(path);
    let directory: bool = match &canonical {
        Some(c) => is_dir(c),
        None => false,
    };
    proof {
        assert(canonical_is(path@, opt_view(canonical)));
        assert(canonical is Some ==> canonical_is(path@, Some(canonical->Some_0@)));
    }
    existing_dir(canonical, directory)
}

/// By what the disk said, `canonical` is the canonical path of the deepest
/// ancestor of `path` that exists.
pub open spec fn ancestor_is(path: Seq<u8>, canonical: Option<Seq<u8>>) -> bool {
    exists|found: Seq<u8>| #[trigger]
        deepest_is(path, found) && canonical_is(found, canonical)
}

/// The canonical path of the deepest ancestor of `path` that exists. What is on
/// disk decides.
fn canonical_ancestor(path: &FilePath) -> (r: Option<FilePath>)
    ensures
        ancestor_is(path@, opt_view(r)),
{
    let found = deepest_existing(path);
    let canonical = canonicalize(&found);
    proof {
        assert(canonical_is(found@, opt_view(canonical)));
        assert(deepest_is(path@, found@));
    }
    canonical
}

// ---------------------------------------------------------------------------
// The workspace
// ---------------------------------------------------------------------------

/// The working directory of a run, and where outsized outputs are put.
#[derive(Debug)]
pub struct Workspace {
    root: FilePath,
    offload_root: Option<FilePath>,
}

/// Where an attempt at a directory led: its path as supplied, and its canonical
/// path if it is an existing directory.
pub struct DirProbe {
    pub path: FilePath,
    pub canonical: Option<FilePath>,
}

impl Workspace {
    /// The canonical root.
    pub closed spec fn root_view(self) -> Seq<u8> {
        self.root@
    }

    /// The canonical offload root, if there is one.
    pub closed spec fn offload_view(self) -> Option<Seq<u8>> {
        match self.offload_root {
            Some(d) => Some(d@),
            None => None,
        }
    }

    /// What becomes of a path that is to be written, given the canonical path of
    /// its deepest existing ancestor: an absolute one and one that leaves the
    /// workspace by `..` are refused, and any other leads under the root, unless
    /// that ancestor lies outside of it.
    pub open spec fn written(self, raw: Seq<char>, canonical: Option<Seq<u8>>) -> Result<
        Seq<u8>,
        ViolationV,
    > {
        if absolute(raw) {
            Err(ViolationV::Absolute(raw))
        } else if climbs(raw) {
            Err(ViolationV::ParentTraversal(raw))
        } else if canonical matches Some(c) && within(c, self.root_view()) {
            Ok(joined(self.root_view(), raw))
        } else {
            Err(ViolationV::EscapesRoot(raw))
        }
    }

    /// What becomes of a path that is to be read, given the canonical path of its
    /// deepest existing ancestor: as for one that is to be written, but that an
    /// absolute one is let through as it is where that ancestor lies within the
    /// offload root.
    pub open spec fn read_at(self, raw: Seq<char>, canonical: Option<Seq<u8>>) -> Result<
        Seq<u8>,
        ViolationV,
    > {
        if absolute(raw) {
            if canonical matches Some(c) && (self.offload_view() matches Some(o) && within(c, o)) {
                Ok(utf8(raw))
            } else {
                Err(ViolationV::Absolute(raw))
            }
        } else {
            self.written(raw, canonical)
        }
    }

    /// `r` is what becomes of a path that is to be written, by what the disk said.
    /// It is asked only of a path that is fine by its text.
    pub open spec fn lets_write(self, raw: Seq<char>, r: Result<FilePath, PathViolation>) -> bool {
        if absolute(raw) || climbs(raw) {
            settled(r) == self.written(raw, None)
        } else {
            exists|c: Option<Seq<u8>>| #[trigger]
                ancestor_is(joined(self.root_view(), raw), c) && settled(r) == self.written(raw, c)
        }
    }

    /// `r` is what becomes of a path that is to be read, by what the disk said. Of
    /// an absolute path it is asked only where there is an offload root.
    pub open spec fn lets_read(self, raw: Seq<char>, r: Result<FilePath, PathViolation>) -> bool {
        if !absolute(raw) {
            self.lets_write(raw, r)
        } else if self.offload_view() is None {
            settled(r) == self.read_at(raw, None)
        } else {
            exists|c: Option<Seq<u8>>| #[trigger]
                ancestor_is(utf8(raw), c) && settled(r) == self.read_at(raw, c)
        }
    }

    /// A path that is to be written is refused, by what the disk said.
    pub open spec fn refuses_write(self, raw: Seq<char>) -> bool {
        exists|r: Result<FilePath, PathViolation>| r is Err && #[trigger] self.lets_write(raw, r)
    }

    /// A path that is to be read is refused, by what the disk said.
    pub open spec fn refuses_read(self, raw: Seq<char>) -> bool {
        exists|r: Result<FilePath, PathViolation>| r is Err && #[trigger] self.lets_read(raw, r)
    }

    /// The workspace of probed directories. Both have to exist; the root is
    /// looked at first.
    pub fn from_probes(root: DirProbe, offload_root: Option<DirProbe>) -> (r: Result<
        Workspace,
        WorkspaceError,
    >)
        ensures
            match root.canonical {
                None => r == Err::<Workspace, WorkspaceError>(
                    WorkspaceError::RootNotADirectory(root.path),
                ),
                Some(c) => match offload_root {
                    None => r matches Ok(w) && w.root_view() == c@ && w.offload_view() is None,
                    Some(o) => match o.canonical {
                        None => r == Err::<Workspace, WorkspaceError>(
                            WorkspaceError::OffloadRootNotADirectory(o.path),
                        ),
                        Some(d) => r matches Ok(w) && w.root_view() == c@ && w.offload_view()
                            == Some(d@),
                    },
                },
            },
    {
        let canonical = match root.canonical {
            Some(c) => c,
            None => {
                return Err(WorkspaceError::RootNotADirectory(root.path));
            },
        };
        match offload_root {
            None => Ok(Workspace { root: canonical, offload_root: None }),
            Some(o) => match o.canonical {
                Some(d) => Ok(Workspace { root: canonical, offload_root: Some(d) }),
                None => Err(WorkspaceError::OffloadRootNotADirectory(o.path)),
            },
        }
    }

    /// A workspace at `root`, with an offload root where one is given. Both have
    /// to be existing directories; what is on disk decides.
    pub fn new(root: FilePath, offload_root: Option<FilePath>) -> (r: Result<Workspace, WorkspaceError>)
        ensures
            match r {
                Ok(w) => {
                    &&& dir_is(root@, Some(w.root_view()))
                    &&& w.offload_view() is Some == offload_root is Some
                    &&& offload_root matches Some(d) ==> dir_is(d@, w.offload_view())
                },
                Err(WorkspaceError::RootNotADirectory(p)) => p@ == root@ && dir_is(root@, None),
                Err(WorkspaceError::OffloadRootNotADirectory(p)) => {
                    &&& exists|c: Seq<u8>| dir_is(root@, Some(c))
                    &&& offload_root matches Some(d) && p@ == d@ && dir_is(d@, None)
                },
            },
    {
        let canonical = canonicalize_dir(&root);
        let offload = match offload_root {
            Some(d) => {
                let c = canonicalize_dir(&d);
                Some(DirProbe { path: d, canonical: c })
            },
            None => None,
        };
        Workspace::from_probes(DirProbe { path: root, canonical }, offload)
    }

    /// The canonical root.
    #[must_use]
    pub fn root(&self) -> (r: &FilePath)
        ensures
            r@ == self.root_view(),
    {
        &self.root
    }

    /// What is made of a path that leads to `path` by its text, once the
    /// canonical path of its deepest existing ancestor is known: it has to lie
    /// within the root.
    pub fn accept(&self, raw: &str, path: FilePath, canonical: Option<&FilePath>) -> (r: Result<
        FilePath,
        PathViolation,
    >)
        ensures
            settled(r) == (if canonical matches Some(c) && within(c@, self.root_view()) {
                Ok::<Seq<u8>, ViolationV>(path@)
            } else {
                Err(ViolationV::EscapesRoot(raw@))
            }),
    {
        if let Some(c) = canonical {
            if c.is_within(&self.root) {
                return Ok(path);
            }
        }
        Err(PathViolation::EscapesRoot(raw.to_owned()))
    }

    /// What is made of an absolute path that is to be read, once the canonical
    /// path of its deepest existing ancestor is known: it has to lie within the
    /// offload root.
    pub fn accept_absolute(&self, raw: &str, canonical: Option<&FilePath>) -> (r: Result<
        FilePath,
        PathViolation,
    >)
        ensures
            settled(r) == (if canonical matches Some(c) && (self.offload_view() matches Some(o)
                && within(c@, o)) {
                Ok::<Seq<u8>, ViolationV>(utf8(raw@))
            } else {
                Err(ViolationV::Absolute(raw@))
            }),
    {
        if let Some(c) = canonical {
            if let Some(o) = &self.offload_root {
                if c.is_within(o) {
                    return Ok(FilePath::from_text(raw));
                }
            }
        }
        Err(PathViolation::Absolute(raw.to_owned()))
    }

    /// Where a path that is to be written leads. An absolute path and one that
    /// leaves the workspace by `..` are refused; what is let through lies under the
    /// root by its text and, by what the disk says, also through links.
    pub fn resolve_write(&self, raw: &str) -> (r: Result<FilePath, PathViolation>)
        ensures
            self.lets_write(raw@, r),
    {
        self.resolve_confined(raw)
    }

    /// Where a path that is to be read leads. It is as for writing, but for
    /// absolute paths: one that leads into the offload root is let through as it
    /// is.
    pub fn resolve_read(&self, raw: &str) -> (r: Result<FilePath, PathViolation>)
        ensures
            self.lets_read(raw@, r),
    {
        if is_absolute(raw) {
            if self.offload_root.is_none() {
                return self.accept_absolute(raw, None);
            }
            let canonical = canonical_ancestor(&FilePath::from_text(raw));
            proof {
                assert(ancestor_is(utf8(raw@), opt_view(canonical)));
            }
            return match &canonical {
                Some(c) => self.accept_absolute(raw, Some(c)),
                None => self.accept_absolute(raw, None),
            };
        }
        self.resolve_confined(raw)
    }

    /// The rules that reading and writing share.
    pub fn resolve_confined(&self, raw: &str) -> (r: Result<FilePath, PathViolation>)
        ensures
            self.lets_write(raw@, r),
    {
        let path = match resolve_text(&self.root, raw) {
            Ok(p) => p,
            Err(v) => {
                return Err(v);
            },
        };
        let canonical = canonical_ancestor(&path);
        proof {
            assert(ancestor_is(path@, opt_view(canonical)));
        }
        match &canonical {
            Some(c) => self.accept(raw, path, Some(c)),
            None => self.accept(raw, path, None),
        }
    }
}

// ---------------------------------------------------------------------------
// Outsized outputs
// ---------------------------------------------------------------------------

/// Where outsized outputs go: one file each, numbered from 0.
#[derive(Debug)]
pub struct DiskOffloadSink {
    dir: FilePath,
    counter: u64,
}

/// The number after `n`: after the last one there is, the count starts over.
pub open spec fn following(n: u64) -> int {
    (n + 1) % 0x1_0000_0000_0000_0000
}

/// The name of the output with this number.
pub open spec fn offload_name(n: int) -> Seq<char> {
    "offload-"@ + text::zero_pad(text::dec(n as nat), 4) + ".txt"@
}

/// The path of the output with this number.
pub open spec fn offload_path(dir: Seq<u8>, n: int) -> Seq<u8> {
    under(dir, utf8(offload_name(n)))
}

impl DiskOffloadSink {
    /// The directory.
    pub closed spec fn dir_view(self) -> Seq<u8> {
        self.dir@
    }

    /// The number of the next output.
    pub closed spec fn next(self) -> u64 {
        self.counter
    }

    /// A sink that puts outputs under `dir`.
    #[must_use]
    pub fn new(dir: FilePath) -> (r: Self)
        ensures
            r.dir_view() == dir@,
            r.next() == 0,
    {
        DiskOffloadSink { dir, counter: 0 }
    }

    /// The directory.
    pub fn dir(&self) -> (r: &FilePath)
        ensures
            r@ == self.dir_view(),
    {
        &self.dir
    }

    /// The path for the next output. After the last number there is, the count
    /// starts over.
    pub fn next_path(&mut self) -> (r: FilePath)
        ensures
            r@ == offload_path(old(self).dir_view(), old(self).next() as int),
            final(self).dir_view() == old(self).dir_view(),
            final(self).next() == following(old(self).next()),
    {
        let n: u64 = self.counter;
        self.counter = n.wrapping_add(1);
        let mut name = concat("offload-", dec_padded(n, 4).as_str());
        name.append(".txt");
        self.dir.under(&FilePath::from_text(name.as_str()))
    }
}

/// The path to tell a model: that of the output, or a placeholder where it
/// could not be put on disk.
pub open spec fn told(path: Seq<u8>, written: bool) -> Seq<u8> {
    if written {
        path
    } else {
        utf8(OFFLOAD_UNAVAILABLE@)
    }
}

/// The path to tell a model.
pub fn offloaded(path: FilePath, written: bool) -> (r: FilePath)
    ensures
        r@ == told(path@, written),
{
    if written {
        path
    } else {
        FilePath::from_text(OFFLOAD_UNAVAILABLE)
    }
}

/// What putting an output on disk asks for.
#[derive(Debug, PartialEq, Eq)]
pub enum OffloadStep {
    /// That the directory exist.
    MakeDir,
    /// That this file hold the output.
    Write(FilePath),
    /// Nothing more: this is the path to tell the model.
    Finish(FilePath),
}

/// What putting an output on disk asks for, once what it asked for worked (`ok`)
/// or did not, and where the sink then stands: a number is used up only once the
/// directory exists.
pub open spec fn puts_on(
    before: DiskOffloadSink,
    asked: OffloadStep,
    ok: bool,
    after: DiskOffloadSink,
    next: OffloadStep,
) -> bool {
    &&& after.dir_view() == before.dir_view()
    &&& match asked {
        OffloadStep::MakeDir => if ok {
            &&& after.next() == following(before.next())
            &&& next matches OffloadStep::Write(p) && p@ == offload_path(
                before.dir_view(),
                before.next() as int,
            )
        } else {
            &&& after.next() == before.next()
            &&& next matches OffloadStep::Finish(p) && p@ == utf8(OFFLOAD_UNAVAILABLE@)
        },
        OffloadStep::Write(path) => {
            &&& after.next() == before.next()
            &&& next matches OffloadStep::Finish(p) && p@ == told(path@, ok)
        },
        OffloadStep::Finish(path) => after.next() == before.next() && next == asked,
    }
}

impl DiskOffloadSink {
    /// What putting an output on disk asks for first.
    pub fn first() -> (r: OffloadStep)
        ensures
            r is MakeDir,
    {
        OffloadStep::MakeDir
    }

    /// What putting an output on disk asks for, once what it asked for worked (`ok`)
    /// or did not.
    pub fn next_step(&mut self, asked: OffloadStep, ok: bool) -> (r: OffloadStep)
        ensures
            puts_on(*old(self), asked, ok, *final(self), r),
    {
        match asked {
            OffloadStep::MakeDir => if ok {
                OffloadStep::Write(self.next_path())
            } else {
                OffloadStep::Finish(FilePath::from_text(OFFLOAD_UNAVAILABLE))
            },
            OffloadStep::Write(path) => OffloadStep::Finish(offloaded(path, ok)),
            OffloadStep::Finish(path) => OffloadStep::Finish(path),
        }
    }
}

// ---------------------------------------------------------------------------
// Laws
// ---------------------------------------------------------------------------

/// A name that can stand between slashes and names something below.
pub open spec fn plain_segment(s: Seq<char>) -> bool {
    &&& s.len() > 0
    &&& s != "."@
    &&& forall|j: int| 0 <= j < s.len() ==> s[j] != '/'
}

/// Every segment that normalisation leaves is a plain one, or a `..` that could
/// not be taken back.
proof fn lemma_normal_segments(parts: Seq<Seq<char>>)
    requires
        forall|k: int, j: int|
            0 <= k < parts.len() && 0 <= j < parts[k].len() ==> #[trigger] parts[k][j] != '/',
    ensures
        forall|k: int| 0 <= k < normal(parts).len() ==> plain_segment(#[trigger] normal(parts)[k]),
    decreases parts.len(),
{
    if parts.len() > 0 {
        let init = parts.drop_last();
        assert forall|k: int, j: int|
            0 <= k < init.len() && 0 <= j < init[k].len() implies #[trigger] init[k][j] != '/' by {
            assert(parts[k][j] == init[k][j]);
        }
        lemma_normal_segments(init);
        let last = parts.last();
        assert forall|j: int| 0 <= j < last.len() implies last[j] != '/' by {
            assert(parts[parts.len() - 1][j] == last[j]);
        }
        let done = normal(init);
        let all = normal(parts);
        assert(all == normal_step(done, last));
        assert forall|k: int| 0 <= k < all.len() implies plain_segment(#[trigger] all[k]) by {
            if k < done.len() {
                assert(all[k] == done[k]);
            } else {
                assert(all[k] == last);
            }
        }
    }
}

/// What is let through is made of plain names only: no `.`, no `..` and no
/// empty name is left in it, so that by its text it leads below the root.
pub proof fn law_resolved_paths_stay_below(raw: Seq<char>, k: int)
    requires
        !climbs(raw),
        0 <= k < segments(raw).len(),
    ensures
        plain_segment(segments(raw)[k]),
        segments(raw)[k] != ".."@,
{
    let parts = text::split(raw, '/');
    assert forall|i: int, j: int|
        0 <= i < parts.len() && 0 <= j < parts[i].len() implies #[trigger] parts[i][j] != '/' by {
        text::lemma_split_pieces(raw, '/', i, j);
    }
    lemma_normal_segments(parts);
}

/// Where a relative path leads is the root or lies below it.
pub proof fn law_resolved_paths_are_within(root: Seq<u8>, raw: Seq<char>)
    ensures
        within(joined(root, raw), root),
{
    let rest = utf8(plain(raw));
    let prefix = under(root, Seq::empty());
    assert(prefix.is_prefix_of(joined(root, raw))) by {
        assert(joined(root, raw) =~= prefix + rest);
    }
}

/// A relative path is read and written alike: what becomes of it is the same for
/// the same answers of the disk. An absolute path is never written; it is read
/// exactly where its deepest existing ancestor lies within the offload root, as it
/// is, and refused as absolute anywhere else.
pub proof fn law_paths_are_read_as_they_are_written(
    w: Workspace,
    raw: Seq<char>,
    canonical: Option<Seq<u8>>,
    r: Result<FilePath, PathViolation>,
)
    ensures
        !absolute(raw) ==> w.read_at(raw, canonical) == w.written(raw, canonical),
        !absolute(raw) ==> w.lets_read(raw, r) == w.lets_write(raw, r),
        absolute(raw) ==> w.written(raw, canonical) == Err::<Seq<u8>, ViolationV>(
            ViolationV::Absolute(raw),
        ),
        absolute(raw) ==> w.read_at(raw, canonical) == (if canonical matches Some(c) && (
        w.offload_view() matches Some(o) && within(c, o)) {
            Ok::<Seq<u8>, ViolationV>(utf8(raw))
        } else {
            Err(ViolationV::Absolute(raw))
        }),
{
}

/// What is let through stays inside, also through links: by what the disk said,
/// the deepest part of it that exists lies within the root or, for an absolute path
/// that is read, within the offload root.
pub proof fn law_what_is_let_through_stays_inside(w: Workspace, raw: Seq<char>, path: FilePath)
    requires
        w.lets_read(raw, Ok(path)),
    ensures
        exists|c: Seq<u8>|
            #![trigger ancestor_is(path@, Some(c))]
            ancestor_is(path@, Some(c)) && (within(c, w.root_view()) || (absolute(raw) && (
            w.offload_view() matches Some(o) && within(c, o)))),
{
    let at = if absolute(raw) {
        utf8(raw)
    } else {
        joined(w.root_view(), raw)
    };
    let r = Ok::<FilePath, PathViolation>(path);
    let c = choose|c: Option<Seq<u8>>| #[trigger]
        ancestor_is(at, c) && settled(r) == w.read_at(raw, c);
    assert(ancestor_is(path@, Some(c->Some_0)));
}

/// Outputs with different numbers go to different files.
pub proof fn law_offload_paths_differ(dir: Seq<u8>, a: nat, b: nat)
    requires
        a != b,
    ensures
        offload_path(dir, a as int) != offload_path(dir, b as int),
{
    let x = text::zero_pad(text::dec(a), 4);
    let y = text::zero_pad(text::dec(b), 4);
    let p = offload_name(a as int);
    let q = offload_name(b as int);
    if offload_path(dir, a as int) == offload_path(dir, b as int) {
        path::law_names_in_a_directory_tell_paths_apart(dir, utf8(p), utf8(q));
        path::law_the_path_of_a_text_is_shown_as_it(p, q);
        let head = "offload-"@.len() as int;
        assert(p.len() == head + x.len() + ".txt"@.len());
        assert(q.len() == head + y.len() + ".txt"@.len());
        assert(x =~= p.subrange(head, head + x.len()));
        assert(y =~= q.subrange(head, head + y.len()));
        text::lemma_padded_numerals_differ(a, b, 4);
    }
}

/// The characters of a padded numeral are digits.
proof fn lemma_numeral_digits(n: nat, width: nat, i: int)
    requires
        0 <= i < text::zero_pad(text::dec(n), width).len(),
    ensures
        text::is_digit(text::zero_pad(text::dec(n), width)[i]),
{
    let d = text::dec(n);
    let pad = if d.len() >= width {
        0
    } else {
        width - d.len()
    };
    if i >= pad {
        text::lemma_dec_digits(n, i - pad);
    }
}

/// An output lies directly in the directory of its sink.
pub proof fn law_outputs_lie_in_the_directory(dir: Seq<u8>, n: nat)
    ensures
        plain_segment(offload_name(n as int)),
        offload_path(dir, n as int) == under(dir, utf8(offload_name(n as int))),
{
    let digits = text::zero_pad(text::dec(n), 4);
    let name = offload_name(n as int);
    reveal_strlit("offload-");
    reveal_strlit(".txt");
    reveal_strlit(".");
    assert(name.len() > 1);
    assert forall|j: int| 0 <= j < name.len() implies name[j] != '/' by {
        if 8 <= j < 8 + digits.len() {
            lemma_numeral_digits(n, 4, j - 8);
            assert(name[j] == digits[j - 8]);
        }
    }
}

/// The steps of an output come to an end with its path, or with the placeholder
/// where one of them did not work; a number is used up where the directory exists.
pub proof fn law_an_output_is_told_by_its_path(
    before: DiskOffloadSink,
    made: bool,
    between: DiskOffloadSink,
    step: OffloadStep,
    wrote: bool,
    after: DiskOffloadSink,
    last: OffloadStep,
)
    requires
        puts_on(before, OffloadStep::MakeDir, made, between, step),
        puts_on(between, step, wrote, after, last),
    ensures
        last matches OffloadStep::Finish(p) && p@ == told(
            offload_path(before.dir_view(), before.next() as int),
            made && wrote,
        ),
        after.dir_view() == before.dir_view(),
        after.next() == (if made {
            following(before.next())
        } else {
            before.next() as int
        }),
{
}

/// What one output does: whether the directory could be made (`made`) and the file
/// be written (`wrote`), what was to be put out, and the path that was told.
pub struct OffloadV {
    pub made: bool,
    pub wrote: bool,
    pub contents: Seq<char>,
    pub path: Seq<u8>,
}

impl OffloadV {
    /// The output was put on disk.
    pub open spec fn ok(self) -> bool {
        self.made && self.wrote
    }
}

/// What the files hold before and after one output that goes to `path`. A write that
/// fails may leave anything in its own file.
pub open spec fn files_after(
    files: Map<Seq<u8>, Seq<char>>,
    path: Seq<u8>,
    call: OffloadV,
    now: Map<Seq<u8>, Seq<char>>,
) -> bool {
    if !call.made {
        now == files
    } else if call.wrote {
        now == files.insert(path, call.contents)
    } else {
        now.remove(path) == files.remove(path)
    }
}

/// The sink and the files before and after one output.
pub open spec fn put_out(
    before: DiskOffloadSink,
    files: Map<Seq<u8>, Seq<char>>,
    call: OffloadV,
    after: DiskOffloadSink,
    now: Map<Seq<u8>, Seq<char>>,
) -> bool {
    let path = offload_path(before.dir_view(), before.next() as int);
    &&& after.dir_view() == before.dir_view()
    &&& after.next() == (if call.made {
        following(before.next())
    } else {
        before.next() as int
    })
    &&& call.path == told(path, call.ok())
    &&& files_after(files, path, call, now)
}

/// The two steps of an output put it out.
pub proof fn law_the_steps_put_an_output_out(
    before: DiskOffloadSink,
    between: DiskOffloadSink,
    step: OffloadStep,
    after: DiskOffloadSink,
    last: OffloadStep,
    files: Map<Seq<u8>, Seq<char>>,
    call: OffloadV,
    now: Map<Seq<u8>, Seq<char>>,
)
    requires
        puts_on(before, OffloadStep::MakeDir, call.made, between, step),
        puts_on(between, step, call.wrote, after, last),
        last matches OffloadStep::Finish(p) && p@ == call.path,
        files_after(
            files,
            offload_path(before.dir_view(), before.next() as int),
            call,
            now,
        ),
    ensures
        put_out(before, files, call, after, now),
{
    law_an_output_is_told_by_its_path(
        before,
        call.made,
        between,
        step,
        call.wrote,
        after,
        last,
    );
}

/// How many of the first `i` outputs got a number.
pub open spec fn numbers_used(calls: Seq<OffloadV>, i: int) -> nat
    decreases i,
{
    if i <= 0 {
        0
    } else {
        numbers_used(calls, i - 1) + (if calls[i - 1].made {
            1nat
        } else {
            0
        })
    }
}

/// A run of outputs through a new sink over `dir`.
pub open spec fn offload_run(
    dir: Seq<u8>,
    sinks: Seq<DiskOffloadSink>,
    files: Seq<Map<Seq<u8>, Seq<char>>>,
    calls: Seq<OffloadV>,
) -> bool {
    &&& sinks.len() == calls.len() + 1
    &&& files.len() == calls.len() + 1
    &&& sinks[0].next() == 0
    &&& sinks[0].dir_view() == dir
    &&& calls.len() <= u64::MAX
    &&& forall|i: int|
        #![trigger calls[i]]
        0 <= i < calls.len() ==> put_out(sinks[i], files[i], calls[i], sinks[i + 1], files[i + 1])
}

/// Where the sink stands in a run.
proof fn lemma_offload_run(
    dir: Seq<u8>,
    sinks: Seq<DiskOffloadSink>,
    files: Seq<Map<Seq<u8>, Seq<char>>>,
    calls: Seq<OffloadV>,
    i: int,
)
    requires
        offload_run(dir, sinks, files, calls),
        0 <= i < sinks.len(),
    ensures
        sinks[i].next() == numbers_used(calls, i) <= i,
        sinks[i].dir_view() == dir,
    decreases i,
{
    if i > 0 {
        lemma_offload_run(dir, sinks, files, calls, i - 1);
        assert(put_out(sinks[i - 1], files[i - 1], calls[i - 1], sinks[i], files[i]));
    }
}

/// Later outputs have used no fewer numbers.
proof fn lemma_numbers_used_grow(calls: Seq<OffloadV>, i: int, j: int)
    requires
        0 <= i <= j,
    ensures
        numbers_used(calls, i) <= numbers_used(calls, j),
    decreases j,
{
    if i < j {
        lemma_numbers_used_grow(calls, i, j - 1);
    }
}

/// What an output of a run is told by: a path directly in the directory where it was
/// put on disk, and the placeholder where it was not.
pub proof fn law_what_an_output_is_told_by(
    dir: Seq<u8>,
    sinks: Seq<DiskOffloadSink>,
    files: Seq<Map<Seq<u8>, Seq<char>>>,
    calls: Seq<OffloadV>,
    i: int,
)
    requires
        offload_run(dir, sinks, files, calls),
        0 <= i < calls.len(),
    ensures
        calls[i].ok() ==> exists|name: Seq<char>|
            plain_segment(name) && calls[i].path == #[trigger] under(dir, utf8(name)),
        !calls[i].ok() ==> calls[i].path == utf8(OFFLOAD_UNAVAILABLE@),
{
    lemma_offload_run(dir, sinks, files, calls, i);
    assert(put_out(sinks[i], files[i], calls[i], sinks[i + 1], files[i + 1]));
    if calls[i].ok() {
        let n = sinks[i].next();
        law_outputs_lie_in_the_directory(dir, n as nat);
        assert(plain_segment(offload_name(n as int)) && calls[i].path == under(
            dir,
            utf8(offload_name(n as int)),
        ));
    }
}

/// No output is lost to a later one: over a run of outputs through one sink, those
/// that were put on disk have different paths, and each file still holds its own
/// output at the end.
pub proof fn law_outputs_are_kept_apart(
    dir: Seq<u8>,
    sinks: Seq<DiskOffloadSink>,
    files: Seq<Map<Seq<u8>, Seq<char>>>,
    calls: Seq<OffloadV>,
    i: int,
    j: int,
)
    requires
        offload_run(dir, sinks, files, calls),
        0 <= i < j <= calls.len(),
        calls[i].ok(),
    ensures
        j < calls.len() && calls[j].ok() ==> calls[i].path != calls[j].path,
        files[j].contains_pair(calls[i].path, calls[i].contents),
    decreases j,
{
    let path = calls[i].path;
    lemma_offload_run(dir, sinks, files, calls, i);
    lemma_offload_run(dir, sinks, files, calls, j);
    lemma_numbers_used_grow(calls, i + 1, j);
    law_offload_paths_differ(dir, sinks[i].next() as nat, sinks[j].next() as nat);
    assert(put_out(sinks[i], files[i], calls[i], sinks[i + 1], files[i + 1]));
    if j < calls.len() {
        assert(put_out(sinks[j], files[j], calls[j], sinks[j + 1], files[j + 1]));
    }
    if i + 1 < j {
        law_outputs_are_kept_apart(dir, sinks, files, calls, i, j - 1);
        assert(put_out(sinks[j - 1], files[j - 1], calls[j - 1], sinks[j], files[j]));
        lemma_offload_run(dir, sinks, files, calls, j - 1);
        lemma_numbers_used_grow(calls, i + 1, j - 1);
        law_offload_paths_differ(dir, sinks[i].next() as nat, sinks[j - 1].next() as nat);
        let other = offload_path(dir, sinks[j - 1].next() as int);
        if calls[j - 1].made {
            assert(path != other);
            assert(files[j - 1].remove(other).contains_pair(path, calls[i].contents));
            assert(files[j].remove(other).contains_pair(path, calls[i].contents)
                || calls[j - 1].wrote);
        }
    }
}

/// Splitting a path that goes on adds a piece.
proof fn lemma_split_goes_on(path: Seq<char>, name: Seq<char>)
    requires
        forall|j: int| 0 <= j < name.len() ==> #[trigger] name[j] != '/',
    ensures
        text::split(path + "/"@ + name, '/') == text::split(path, '/').push(name),
    decreases path.len(),
{
    reveal_strlit("/");
    let longer = path + "/"@ + name;
    text::lemma_first_index(path, '/');
    let k = text::first_index(path, '/') as int;
    if k >= path.len() {
        text::lemma_first_index_is(longer, '/', path.len() as int);
        assert(longer.take(path.len() as int) =~= path);
        assert(longer.skip(path.len() as int + 1) =~= name);
        text::lemma_first_index_is(name, '/', name.len() as int);
        assert(text::split(name, '/') == seq![name]);
        assert(text::split(path, '/') == seq![path]);
        assert(seq![path] + seq![name] =~= seq![path].push(name));
    } else {
        text::lemma_first_index_is(longer, '/', k);
        assert(longer.take(k) =~= path.take(k));
        assert(longer.skip(k + 1) =~= path.skip(k + 1) + "/"@ + name);
        lemma_split_goes_on(path.skip(k + 1), name);
        assert(text::split(longer, '/') =~= text::split(path, '/').push(name));
    }
}

/// How a path is read, name by name: a name that goes on behind a slash is put behind
/// the others, whatever it is; but an empty one and `.` change nothing, and `..` takes
/// back the name before it, unless there is none or that is a `..` itself.
pub proof fn law_a_path_is_read_name_by_name(path: Seq<char>, name: Seq<char>)
    requires
        forall|j: int| 0 <= j < name.len() ==> #[trigger] name[j] != '/',
    ensures
        segments(path + "/"@ + name) == (if name.len() == 0 || name == "."@ {
            segments(path)
        } else if name == ".."@ && segments(path).len() > 0 && segments(path).last() != ".."@ {
            segments(path).drop_last()
        } else {
            segments(path).push(name)
        }),
        segments(name) == (if name.len() == 0 || name == "."@ {
            Seq::<Seq<char>>::empty()
        } else {
            seq![name]
        }),
{
    lemma_split_goes_on(path, name);
    let parts = text::split(path, '/');
    assert(parts.push(name).drop_last() =~= parts);
    text::lemma_first_index_is(name, '/', name.len() as int);
    let one = seq![name];
    assert(text::split(name, '/') == one);
    assert(one.drop_last() =~= Seq::<Seq<char>>::empty());
    assert(normal(Seq::<Seq<char>>::empty()) == Seq::<Seq<char>>::empty());
    assert(normal(one) == normal_step(Seq::empty(), name));
    assert(Seq::<Seq<char>>::empty().push(name) =~= seq![name]);
}

/// What lies within a directory: the directory itself, and what goes on behind it with
/// a slash. A name that merely starts alike does not.
pub proof fn law_what_lies_within_a_directory(path: Seq<u8>, dir: Seq<u8>)
    requires
        dir.len() > 0,
        dir.last() != 47,
    ensures
        within(path, dir) <==> path == dir || (path.len() > dir.len() && path.take(
            dir.len() as int,
        ) == dir && path[dir.len() as int] == 47),
{
    let prefix = under(dir, Seq::empty());
    assert(prefix =~= dir.push(47u8));
    if path.len() > dir.len() {
        let n = dir.len() as int;
        let head = path.subrange(0, n + 1);
        assert(path.take(n) =~= head.drop_last());
        assert(head.last() == path[n]);
        if path.take(n) == dir && path[n] == 47 {
            assert(head =~= prefix);
        }
        if prefix.is_prefix_of(path) {
            assert(head == prefix);
            assert(prefix.drop_last() =~= dir);
            assert(prefix.last() == 47);
        }
    }
}

/// Where a path that is to be written leads: under the root, name by name, or it is
/// refused for what is wrong with it, and the refusal holds the path as it was given.
pub proof fn law_where_a_written_path_leads(
    w: Workspace,
    raw: &str,
    r: Result<FilePath, PathViolation>,
)
    requires
        call_ensures(Workspace::resolve_write, (&w, raw), r),
    ensures
        ({
            let from_root = raw@.len() > 0 && raw@[0] == '/';
            let climbing = exists|k: int|
                0 <= k < segments(raw@).len() && #[trigger] segments(raw@)[k] == ".."@;
            &&& r matches Ok(path) ==> !from_root && !climbing && path@ == under(
                w.root_view(),
                utf8(text::join(segments(raw@), "/"@)),
            ) && exists|c: Seq<u8>| #[trigger]
                ancestor_is(path@, Some(c)) && within(c, w.root_view())
            &&& from_root ==> (r matches Err(PathViolation::Absolute(p)) && p@ == raw@)
            &&& !from_root && climbing ==> (r matches Err(PathViolation::ParentTraversal(p)) && p@
                == raw@)
            &&& !from_root && !climbing && r is Err ==> (r matches Err(
                PathViolation::EscapesRoot(p),
            ) && p@ == raw@)
        }),
{
    assert(w.lets_write(raw@, r));
    if !absolute(raw@) && !climbs(raw@) {
        let c = choose|c: Option<Seq<u8>>| #[trigger]
            ancestor_is(joined(w.root_view(), raw@), c) && settled(r) == w.written(raw@, c);
        if let Ok(path) = r {
            assert(ancestor_is(path@, Some(c->Some_0)));
        }
    }
}

/// Where a path that is to be read leads: a relative one where it would be written; an
/// absolute one nowhere but to itself, and only where what exists of it lies within
/// the offload root.
pub proof fn law_where_a_read_path_leads(
    w: Workspace,
    raw: &str,
    r: Result<FilePath, PathViolation>,
)
    requires
        call_ensures(Workspace::resolve_read, (&w, raw), r),
    ensures
        ({
            let from_root = raw@.len() > 0 && raw@[0] == '/';
            &&& from_root ==> match r {
                Ok(path) => path@ == utf8(raw@) && (w.offload_view() matches Some(o) && exists|
                    c: Seq<u8>,
                | #[trigger]
                    ancestor_is(path@, Some(c)) && within(c, o)),
                Err(v) => v matches PathViolation::Absolute(p) && p@ == raw@,
            }
            &&& !from_root ==> match r {
                Ok(path) => path@ == under(
                    w.root_view(),
                    utf8(text::join(segments(raw@), "/"@)),
                ) && exists|c: Seq<u8>| #[trigger]
                    ancestor_is(path@, Some(c)) && within(c, w.root_view()),
                Err(v) => !(v is Absolute),
            }
        }),
{
    assert(w.lets_read(raw@, r));
    if let Ok(path) = r {
        let at = if absolute(raw@) {
            utf8(raw@)
        } else {
            joined(w.root_view(), raw@)
        };
        let c = choose|c: Option<Seq<u8>>| #[trigger]
            ancestor_is(at, c) && settled(r) == w.read_at(raw@, c);
        assert(ancestor_is(path@, Some(c->Some_0)));
    }
}

/// What a refusal says names the path as it was given.
pub proof fn law_a_refusal_names_the_path(v: PathViolation, said: String)
    requires
        call_ensures(PathViolation::message, (&v,), said),
    ensures
        text::contains(
            said@,
            match v {
                PathViolation::Absolute(p) => p@,
                PathViolation::ParentTraversal(p) => p@,
                PathViolation::EscapesRoot(p) => p@,
            },
        ),
{
    let p = v.path();
    let i = "path `"@.len() as int;
    assert(said@.subrange(i, i + p.len()) =~= p);
    assert(text::matches_at(said@, p, i));
}

/// A workspace is where its directories are: its root is the canonical path of the
/// directory that was given, and so is its offload root, if one was given; a directory
/// that is none is an error that names it, and that of the root comes first.
pub proof fn law_a_workspace_is_where_its_directories_are(
    root: FilePath,
    offload: Option<FilePath>,
    r: Result<Workspace, WorkspaceError>,
)
    requires
        call_ensures(Workspace::new, (root, offload), r),
    ensures
        r matches Ok(w) ==> {
            &&& canonical_is(root@, Some(w.root_view()))
            &&& directory_is(w.root_view(), true)
            &&& w.offload_view() is Some <==> offload is Some
            &&& w.offload_view() matches Some(o) ==> canonical_is(offload->Some_0@, Some(o))
                && directory_is(o, true)
        },
        r matches Err(WorkspaceError::RootNotADirectory(p)) ==> p@ == root@,
        r matches Err(WorkspaceError::OffloadRootNotADirectory(p)) ==> offload is Some && p@
            == offload->Some_0@ && exists|c: Seq<u8>| #[trigger]
            canonical_is(root@, Some(c)) && directory_is(c, true),
{
    if let Err(WorkspaceError::OffloadRootNotADirectory(p)) = r {
        let c = choose|c: Seq<u8>| dir_is(root@, Some(c));
        assert(canonical_is(root@, Some(c)) && directory_is(c, true));
    }
}

/// What was probed decides: a root that is no directory is refused first, then an
/// offload root that is none; else the workspace is at the canonical paths.
pub proof fn law_probed_directories_make_a_workspace(
    root: DirProbe,
    offload: Option<DirProbe>,
    r: Result<Workspace, WorkspaceError>,
)
    requires
        call_ensures(Workspace::from_probes, (root, offload), r),
    ensures
        r is Ok <==> root.canonical is Some && (offload is Some ==> offload->Some_0.canonical
            is Some),
        r matches Ok(w) ==> w.root_view() == root.canonical->Some_0@ && opt_view(
            match offload {
                Some(o) => o.canonical,
                None => None,
            },
        ) == w.offload_view(),
        r matches Err(WorkspaceError::RootNotADirectory(p)) ==> p@ == root.path@,
        root.canonical is None ==> (r matches Err(e) && e is RootNotADirectory),
        r matches Err(WorkspaceError::OffloadRootNotADirectory(p)) ==> p@
            == offload->Some_0.path@,
{
}

} // verus!
