//! Paths of the file system. On Linux a path is a sequence of bytes, and need not
//! be text: what a directory is called is up to whoever made it. Only where a path
//! is shown is it turned into text.
use std::path::PathBuf;

use serde_json::Value;
use vstd::prelude::*;
use vstd::string::*;

use crate::text::{lossy_text, lossy_text_of_bytes};

verus! {

/// A path, by its bytes.
#[derive(Debug, Clone, PartialEq, Eq)]
pub struct FilePath {
    pub bytes: Vec<u8>,
}

impl View for FilePath {
    type V = Seq<u8>;

    open spec fn view(&self) -> Seq<u8> {
        self.bytes@
    }
}

/// The paths, by their bytes.
pub open spec fn path_views(v: Seq<FilePath>) -> Seq<Seq<u8>> {
    Seq::new(v.len(), |i: int| v[i]@)
}

/// The bytes of the path, if there is one.
pub open spec fn opt_view(p: Option<FilePath>) -> Option<Seq<u8>> {
    match p {
        Some(f) => Some(f@),
        None => None,
    }
}

/// The bytes of a text.
pub open spec fn utf8(s: Seq<char>) -> Seq<u8> {
    vstd::utf8::encode_utf8(s)
}

/// The text of bytes that are UTF-8.
pub open spec fn utf8_text(bytes: Seq<u8>) -> Option<Seq<char>> {
    if vstd::utf8::valid_utf8(bytes) {
        Some(vstd::utf8::decode_utf8(bytes))
    } else {
        None
    }
}

/// How a path is shown: as it is where it is text; else with replacement
/// characters where it is not.
pub open spec fn shown(path: Seq<u8>) -> Seq<char> {
    match utf8_text(path) {
        Some(t) => t,
        None => lossy_text(path),
    }
}

/// The byte between the components of a path.
pub const SLASH: u8 = 47;

/// `rest` under the directory `dir`.
pub open spec fn under(dir: Seq<u8>, rest: Seq<u8>) -> Seq<u8> {
    if dir.len() == 0 || dir.last() == SLASH {
        dir + rest
    } else {
        dir.push(SLASH) + rest
    }
}

/// `path` is `dir` or lies below it. Both are canonical.
pub open spec fn within(path: Seq<u8>, dir: Seq<u8>) -> bool {
    path == dir || under(dir, Seq::empty()).is_prefix_of(path)
}

/// Whether `a` and `b` are the same bytes.
pub fn same_bytes(a: &Vec<u8>, b: &Vec<u8>) -> (r: bool)
    ensures
        r == (a@ == b@),
{
    a.len() == b.len() && starts_with(a, b)
}

/// Whether `a` starts with `b`.
pub fn starts_with(a: &Vec<u8>, b: &Vec<u8>) -> (r: bool)
    ensures
        r == b@.is_prefix_of(a@),
        a@.len() == b@.len() ==> r == (a@ == b@),
{
    if a.len() < b.len() {
        return false;
    }
    let mut i: usize = 0;
    while i < b.len()
        invariant
            i <= b@.len() <= a@.len(),
            forall|j: int| 0 <= j < i ==> a@[j] == b@[j],
        decreases b@.len() - i,
    {
        if a[i] != b[i] {
            proof {
                assert(b@.is_prefix_of(a@) ==> a@.subrange(0, b@.len() as int)[i as int]
                    == b@[i as int]);
            }
            return false;
        }
        i = i + 1;
    }
    proof {
        assert(b@ =~= a@.subrange(0, b@.len() as int));
        assert(a@.len() == b@.len() ==> a@ =~= b@);
    }
    true
}

impl FilePath {
    /// The path that a text spells.
    #[must_use]
    pub fn from_text(text: &str) -> (r: FilePath)
        ensures
            r@ == utf8(text@),
    {
        FilePath { bytes: text.as_bytes_vec() }
    }

    /// The same path once more.
    #[must_use]
    pub fn dup(&self) -> (r: FilePath)
        ensures
            r@ == self@,
    {
        let bytes = self.bytes.clone();
        proof {
            assert(bytes@ =~= self.bytes@);
        }
        FilePath { bytes }
    }

    /// How the path is shown.
    #[must_use]
    pub fn show(&self) -> (r: String)
        ensures
            r@ == shown(self@),
    {
        lossy_text_of_bytes(&self.bytes)
    }

    /// Whether it is the same path as `other`, byte by byte.
    #[must_use]
    pub fn is(&self, other: &FilePath) -> (r: bool)
        ensures
            r == (self@ == other@),
    {
        same_bytes(&self.bytes, &other.bytes)
    }

    /// `rest` under this directory.
    #[must_use]
    pub fn under(&self, rest: &FilePath) -> (r: FilePath)
        ensures
            r@ == under(self@, rest@),
    {
        let mut bytes = self.bytes.clone();
        proof {
            assert(bytes@ =~= self.bytes@);
        }
        let n: usize = bytes.len();
        if n > 0 && bytes[n - 1] != SLASH {
            bytes.push(SLASH);
        }
        let mut more = rest.bytes.clone();
        proof {
            assert(more@ =~= rest.bytes@);
        }
        bytes.append(&mut more);
        FilePath { bytes }
    }

    /// Whether it is `dir` or lies below it. Both are canonical.
    #[must_use]
    pub fn is_within(&self, dir: &FilePath) -> (r: bool)
        ensures
            r == within(self@, dir@),
    {
        if self.is(dir) {
            return true;
        }
        let prefix = dir.under(&FilePath { bytes: Vec::new() });
        proof {
            assert(prefix@ =~= under(dir@, Seq::empty()));
        }
        starts_with(&self.bytes, &prefix.bytes)
    }
}

// ---------------------------------------------------------------------------
// The order of paths
// ---------------------------------------------------------------------------

/// `a` comes before `b`: at the first place where they differ it has the
/// smaller byte, or it ends there.
pub open spec fn before(a: Seq<u8>, b: Seq<u8>) -> bool
    decreases a.len(),
{
    if b.len() == 0 {
        false
    } else if a.len() == 0 {
        true
    } else if a[0] == b[0] {
        before(a.skip(1), b.skip(1))
    } else {
        a[0] < b[0]
    }
}

/// Nothing comes before itself, and of two paths one comes before the other
/// unless they are the same.
pub proof fn lemma_before_is_total(a: Seq<u8>, b: Seq<u8>)
    ensures
        !(before(a, b) && before(b, a)),
        a == b ==> !before(a, b),
        a != b ==> before(a, b) || before(b, a),
    decreases a.len(),
{
    if a.len() > 0 && b.len() > 0 {
        if a[0] == b[0] {
            lemma_before_is_total(a.skip(1), b.skip(1));
            if a.skip(1) == b.skip(1) {
                assert(a =~= seq![a[0]] + a.skip(1));
                assert(b =~= seq![b[0]] + b.skip(1));
                assert(a == b);
            }
        }
    } else if a.len() == 0 && b.len() == 0 {
        assert(a =~= b);
    }
}

/// What comes before something that comes before a third comes before the
/// third.
pub proof fn lemma_before_is_transitive(a: Seq<u8>, b: Seq<u8>, c: Seq<u8>)
    requires
        before(a, b),
        before(b, c),
    ensures
        before(a, c),
    decreases a.len(),
{
    if a.len() > 0 && a[0] == b[0] && b[0] == c[0] {
        lemma_before_is_transitive(a.skip(1), b.skip(1), c.skip(1));
    }
}

/// Each path comes before those behind it.
pub open spec fn ascending(s: Seq<Seq<u8>>) -> bool {
    forall|i: int, j: int| 0 <= i < j < s.len() ==> before(#[trigger] s[i], #[trigger] s[j])
}

/// A path that has `i` others in front of it in one ascending run has at least
/// as many in front of it in another that holds all of the first.
pub proof fn lemma_rank(s: Seq<Seq<u8>>, t: Seq<Seq<u8>>, i: int, b: int)
    requires
        ascending(s),
        ascending(t),
        forall|k: int| 0 <= k < s.len() ==> t.contains(#[trigger] s[k]),
        0 <= i < s.len(),
        0 <= b < t.len(),
        t[b] == s[i],
    ensures
        b >= i,
    decreases i,
{
    if i > 0 {
        assert(t.contains(s[i - 1]));
        let c = choose|c: int| 0 <= c < t.len() && t[c] == s[i - 1];
        lemma_rank(s, t, i - 1, c);
        assert(before(s[i - 1], s[i]));
        lemma_before_is_total(t[c], t[b]);
        if b < c {
            assert(before(t[b], t[c]));
        }
    }
}

/// Two ascending runs of the same length, one of which holds all of the other,
/// are the same.
pub proof fn lemma_ascending_is_unique(s: Seq<Seq<u8>>, t: Seq<Seq<u8>>)
    requires
        ascending(s),
        ascending(t),
        s.len() == t.len(),
        forall|k: int| 0 <= k < s.len() ==> t.contains(#[trigger] s[k]),
    ensures
        s == t,
    decreases s.len(),
{
    if s.len() > 0 {
        let n = s.len() - 1;
        assert(t.contains(s[n]));
        let b = choose|b: int| 0 <= b < t.len() && t[b] == s[n];
        lemma_rank(s, t, n, b);
        let s0 = s.drop_last();
        let t0 = t.drop_last();
        assert forall|k: int| 0 <= k < s0.len() implies t0.contains(#[trigger] s0[k]) by {
            assert(t.contains(s[k]));
            let c = choose|c: int| 0 <= c < t.len() && t[c] == s[k];
            assert(before(s[k], s[n]));
            lemma_before_is_total(s[n], s[n]);
            assert(t0[c] == s0[k]);
        }
        lemma_ascending_is_unique(s0, t0);
        assert(s =~= s0.push(s[n]));
        assert(t =~= t0.push(t[n]));
    }
}

/// Whether `x` comes before `y`.
pub fn bytes_before(x: &Vec<u8>, y: &Vec<u8>) -> (r: bool)
    ensures
        r == before(x@, y@),
{
    let mut i: usize = 0;
    proof {
        assert(x@.skip(0) =~= x@);
        assert(y@.skip(0) =~= y@);
    }
    while i < x.len() && i < y.len() && x[i] == y[i]
        invariant
            i <= x@.len(),
            i <= y@.len(),
            before(x@, y@) == before(x@.skip(i as int), y@.skip(i as int)),
        decreases x@.len() - i,
    {
        proof {
            assert(x@.skip(i as int).skip(1) =~= x@.skip(i + 1));
            assert(y@.skip(i as int).skip(1) =~= y@.skip(i + 1));
        }
        i = i + 1;
    }
    if i >= y.len() {
        return false;
    }
    if i >= x.len() {
        return true;
    }
    x[i] < y[i]
}

impl FilePath {
    /// Whether it comes before `other` in the order of bytes.
    #[must_use]
    pub fn comes_before(&self, other: &FilePath) -> (r: bool)
        ensures
            r == before(self@, other@),
    {
        bytes_before(&self.bytes, &other.bytes)
    }
}

// ---------------------------------------------------------------------------
// The paths of std
// ---------------------------------------------------------------------------

/// The path type of std, which only passes through.
#[verifier::external_type_specification]
#[verifier::external_body]
pub struct ExPathBuf(std::path::PathBuf);

/// The `PathBuf` of the same bytes, by `serde_json::from_value`: on Linux `serde`
/// reads an `OsString` from its bytes, under the name `Unix`, and takes any bytes as
/// they are. It only serves the functions below, and nothing is said of it.
#[verifier::external_body]
fn to_std(path: &FilePath) -> PathBuf {
    let bytes = Value::from(path.bytes.clone());
    let held = Value::Object(std::iter::once(("Unix".to_owned(), bytes)).collect());
    let mut os = PathBuf::new().into_os_string();
    os = serde_json::from_value(held).unwrap_or(os);
    PathBuf::from(os)
}

/// The bytes of a `PathBuf`, by `serde_json::to_value`: on Linux `serde` writes an
/// `OsString` as its bytes, under the name `Unix`. It only serves the functions
/// below, and nothing is said of it.
#[verifier::external_body]
fn from_std(path: PathBuf) -> FilePath {
    let held = serde_json::to_value(path.into_os_string());
    let bytes = held.and_then(|v| serde_json::from_value(v["Unix"].clone()));
    FilePath { bytes: bytes.unwrap_or_default() }
}

/// Asks `Path::exists`. What is on disk decides, so nothing is said of the
/// answer.
#[verifier::external_body]
pub(crate) fn on_disk(path: &FilePath) -> (r: bool) {
    to_std(path).exists()
}

/// Asks `Path::is_dir`. What is on disk decides, so nothing is said of the
/// answer.
#[verifier::external_body]
pub(crate) fn is_dir(path: &FilePath) -> (r: bool) {
    to_std(path).is_dir()
}

/// Asks `Path::canonicalize`; nothing where it fails. What is on disk decides, so
/// nothing is said of the answer.
#[verifier::external_body]
pub(crate) fn canonicalize(path: &FilePath) -> (r: Option<FilePath>) {
    to_std(path).canonicalize().ok().map(from_std)
}

/// What `Path::parent` gives for a path: the path without its last component.
/// The harness runs on Linux only, where `/` alone separates components.
pub uninterp spec fn path_parent(path: Seq<u8>) -> Option<Seq<u8>>;

/// The path without its last component, by `Path::parent`. The contract names
/// it, and says that it is shorter, as it lacks a component.
#[verifier::external_body]
pub(crate) fn parent(path: &FilePath) -> (r: Option<FilePath>)
    ensures
        opt_view(r) == path_parent(path@),
        r matches Some(p) ==> p@.len() < path@.len(),
{
    to_std(path).parent().map(|p| from_std(p.to_path_buf()))
}

/// What `Path::file_name` gives for a path on Linux: its last component, if that
/// names something.
pub uninterp spec fn path_file_name(path: Seq<u8>) -> Option<Seq<u8>>;

/// The last component of a path, by `Path::file_name`. The contract only names
/// it.
#[verifier::external_body]
pub(crate) fn file_name(path: &FilePath) -> (r: Option<FilePath>)
    ensures
        opt_view(r) == path_file_name(path@),
{
    to_std(path).file_name().map(|n| from_std(PathBuf::from(n)))
}

/// What `Path::strip_prefix` gives on Linux for a path and a directory: what is
/// left of the path behind the directory, if it starts with that.
pub uninterp spec fn path_below(path: Seq<u8>, dir: Seq<u8>) -> Option<Seq<u8>>;

/// What is left of `path` behind `dir`, by `Path::strip_prefix`. The contract
/// only names it.
#[verifier::external_body]
pub(crate) fn below(path: &FilePath, dir: &FilePath) -> (r: Option<FilePath>)
    ensures
        opt_view(r) == path_below(path@, dir@),
{
    to_std(path).strip_prefix(to_std(dir)).ok().map(|p| from_std(p.to_path_buf()))
}

// ---------------------------------------------------------------------------
// Laws
// ---------------------------------------------------------------------------

/// A path that a text spells is shown as that text, and different texts spell
/// different paths.
pub proof fn law_the_path_of_a_text_is_shown_as_it(a: Seq<char>, b: Seq<char>)
    ensures
        shown(utf8(a)) == a,
        utf8(a) == utf8(b) ==> a == b,
{
    vstd::utf8::encode_utf8_valid_utf8(a);
    vstd::utf8::encode_utf8_decode_utf8(a);
    vstd::utf8::encode_utf8_decode_utf8(b);
}

/// Two entries of one directory are at the same path only if they have the same
/// name.
pub proof fn law_names_in_a_directory_tell_paths_apart(dir: Seq<u8>, a: Seq<u8>, b: Seq<u8>)
    requires
        under(dir, a) == under(dir, b),
    ensures
        a == b,
{
    let front = under(dir, Seq::empty());
    assert(under(dir, a) =~= front + a);
    assert(under(dir, b) =~= front + b);
    assert(a =~= (front + a).skip(front.len() as int));
    assert(b =~= (front + b).skip(front.len() as int));
}

/// The bytes of a text and of one that follows it follow each other.
proof fn lemma_utf8_concat(a: Seq<char>, b: Seq<char>)
    ensures
        utf8(a + b) == utf8(a) + utf8(b),
    decreases a.len(),
{
    if a.len() == 0 {
        assert(a + b =~= b);
        assert(utf8(a) + utf8(b) =~= utf8(b));
    } else {
        lemma_utf8_concat(a.drop_first(), b);
        assert((a + b).drop_first() =~= a.drop_first() + b);
        assert(utf8(a + b) =~= utf8(a) + utf8(b));
    }
}

/// The last byte of a character is a slash only if the character is one.
proof fn lemma_last_byte(c: char)
    ensures
        vstd::utf8::encode_scalar(c as u32).len() > 0,
        vstd::utf8::encode_scalar(c as u32).last() == SLASH <==> c == '/',
{
    let n = c as u32;
    vstd::utf8::char_is_scalar(c);
    assert(vstd::utf8::has_width_1_encoding(n) ==> vstd::utf8::leading_byte_width_1(n) == n as u8)
        by (bit_vector);
    assert(vstd::utf8::last_continuation_byte(n) >= 0x80) by (bit_vector);
}

/// One text under another is the text that they make: paths that are text are put
/// together as text is.
pub proof fn law_texts_are_put_together_as_text(dir: Seq<char>, rest: Seq<char>)
    ensures
        under(utf8(dir), utf8(rest)) == utf8(
            if dir.len() == 0 || dir.last() == '/' {
                dir + rest
            } else {
                dir + "/"@ + rest
            },
        ),
{
    reveal_strlit("/");
    assert("/"@ =~= seq!['/']);
    lemma_utf8_concat(dir, rest);
    lemma_utf8_concat(dir + "/"@, rest);
    lemma_utf8_concat(dir, "/"@);
    assert("/"@.drop_first() =~= Seq::<char>::empty());
    vstd::utf8::is_ascii_chars_encode_utf8("/"@);
    assert(utf8("/"@) =~= seq![SLASH]);
    if dir.len() > 0 {
        let front = dir.drop_last();
        let c = dir.last();
        let last = seq![c];
        assert(dir =~= front + last);
        lemma_utf8_concat(front, last);
        assert(last.drop_first() =~= Seq::<char>::empty());
        assert(utf8(last) =~= vstd::utf8::encode_scalar(c as u32));
        lemma_last_byte(c);
        assert(utf8(dir).last() == utf8(last).last());
    }
    assert(utf8(dir).push(SLASH) =~= utf8(dir) + utf8("/"@));
}

/// The order of paths is that of their first difference: one comes before another
/// if and only if the other goes on where it ends, or has the larger byte at the
/// first place where they differ.
pub proof fn law_paths_are_ordered_by_their_first_difference(a: Seq<u8>, b: Seq<u8>, k: int)
    requires
        0 <= k <= a.len(),
        k <= b.len(),
        a.take(k) == b.take(k),
        k == a.len() || k == b.len() || a[k] != b[k],
    ensures
        before(a, b) <==> k < b.len() && (k == a.len() || a[k] < b[k]),
    decreases k,
{
    if k > 0 {
        assert(a.take(k)[0] == a[0]);
        assert(b.take(k)[0] == b[0]);
        assert(a.skip(1).take(k - 1) =~= a.take(k).skip(1));
        assert(b.skip(1).take(k - 1) =~= b.take(k).skip(1));
        law_paths_are_ordered_by_their_first_difference(a.skip(1), b.skip(1), k - 1);
    }
}

} // verus!
