//! JSON values: the tree that tool inputs, tool schemas and wire payloads are
//! made of. Text goes in and out through `serde_json`.
use serde_json::Value;
use vstd::prelude::*;

use crate::text::str_eq;

verus! {

/// A JSON number, by the form it is held in.
#[derive(Debug, PartialEq, Eq)]
pub enum Number {
    /// An integer from zero up.
    Unsigned(u64),
    /// An integer below zero.
    Negative(i64),
    /// Any other number, as its numeral.
    Other(String),
}

/// A JSON value.
#[derive(Debug, PartialEq, Eq)]
pub enum Json {
    Null,
    Bool(bool),
    Number(Number),
    String(String),
    Array(Vec<Json>),
    Object(Vec<Member>),
}

/// One `name: value` member of a JSON object.
#[derive(Debug, PartialEq, Eq)]
pub struct Member {
    pub name: String,
    pub value: Json,
}

/// What a [`Number`] is, mathematically.
#[verifier::ext_equal]
pub enum NumberV {
    Int(int),
    Other(Seq<char>),
}

/// What a [`Json`] is, mathematically. An object is the sequence of its
/// members; where a name occurs twice the later member counts.
#[verifier::ext_equal]
pub enum JsonV {
    Null,
    Bool(bool),
    Number(NumberV),
    String(Seq<char>),
    Array(Seq<JsonV>),
    Object(Seq<(Seq<char>, JsonV)>),
}

impl View for Number {
    type V = NumberV;

    open spec fn view(&self) -> NumberV {
        match self {
            Number::Unsigned(n) => NumberV::Int(*n as int),
            Number::Negative(n) => NumberV::Int(*n as int),
            Number::Other(s) => NumberV::Other(s@),
        }
    }
}

/// The view of a JSON value.
pub open spec fn json_view(j: Json) -> JsonV
    decreases j,
{
    match j {
        Json::Null => JsonV::Null,
        Json::Bool(b) => JsonV::Bool(b),
        Json::Number(n) => JsonV::Number(n@),
        Json::String(s) => JsonV::String(s@),
        Json::Array(items) => JsonV::Array(items_view(items@)),
        Json::Object(members) => JsonV::Object(members_view(members@)),
    }
}

/// The views of the items of an array.
pub open spec fn items_view(items: Seq<Json>) -> Seq<JsonV>
    decreases items,
{
    Seq::new(
        items.len(),
        |i: int|
            if 0 <= i < items.len() {
                json_view(items[i])
            } else {
                JsonV::Null
            },
    )
}

/// The views of the members of an object.
pub open spec fn members_view(members: Seq<Member>) -> Seq<(Seq<char>, JsonV)>
    decreases members,
{
    Seq::new(
        members.len(),
        |i: int|
            if 0 <= i < members.len() {
                (members[i].name@, json_view(members[i].value))
            } else {
                (Seq::empty(), JsonV::Null)
            },
    )
}

impl View for Json {
    type V = JsonV;

    open spec fn view(&self) -> JsonV {
        json_view(*self)
    }
}

/// The value of the last member called `name`.
pub open spec fn member(members: Seq<(Seq<char>, JsonV)>, name: Seq<char>) -> Option<JsonV>
    decreases members.len(),
{
    if members.len() == 0 {
        None
    } else if members.last().0 == name {
        Some(members.last().1)
    } else {
        member(members.drop_last(), name)
    }
}

/// The value that `j` holds under `name`: none unless `j` is an object.
pub open spec fn field(j: JsonV, name: Seq<char>) -> Option<JsonV> {
    match j {
        JsonV::Object(members) => member(members, name),
        _ => None,
    }
}

/// The text of a string value.
pub open spec fn as_text(j: JsonV) -> Option<Seq<char>> {
    match j {
        JsonV::String(s) => Some(s),
        _ => None,
    }
}

/// The value of a number that is an integer from zero up.
pub open spec fn as_unsigned(j: JsonV) -> Option<int> {
    match j {
        JsonV::Number(NumberV::Int(n)) => if n >= 0 {
            Some(n)
        } else {
            None
        },
        _ => None,
    }
}

/// The text that `j` holds under `name`.
pub open spec fn text_field(j: JsonV, name: Seq<char>) -> Option<Seq<char>> {
    match field(j, name) {
        Some(v) => as_text(v),
        None => None,
    }
}

impl Json {
    /// The value under `name`, if this is an object that has one.
    pub fn get(&self, name: &str) -> (r: Option<&Json>)
        ensures
            r is Some == field(self@, name@) is Some,
            r matches Some(v) ==> field(self@, name@) == Some(v@) && decreases_to!(*self => *v),
    {
        match self {
            Json::Object(members) => {
                let ghost mv = members_view(members@);
                let mut i: usize = members.len();
                proof {
                    assert(mv.take(i as int) =~= mv);
                }
                while i > 0
                    invariant
                        i <= members@.len(),
                        mv == members_view(members@),
                        self@ == JsonV::Object(mv),
                        *self == Json::Object(*members),
                        member(mv, name@) == member(mv.take(i as int), name@),
                    decreases i,
                {
                    proof {
                        assert(mv.take(i as int).drop_last() =~= mv.take(i - 1));
                        assert(mv.take(i as int).last() == mv[i - 1]);
                    }
                    if str_eq(members[i - 1].name.as_str(), name) {
                        return Some(&members[i - 1].value);
                    }
                    i = i - 1;
                }
                None
            },
            _ => None,
        }
    }

    /// The text, if this is a string.
    pub fn as_str(&self) -> (r: Option<&str>)
        ensures
            r is Some == as_text(self@) is Some,
            r matches Some(s) ==> as_text(self@) == Some(s@),
    {
        match self {
            Json::String(s) => Some(s.as_str()),
            _ => None,
        }
    }

    /// The number, if this is an integer from zero up.
    pub fn as_u64(&self) -> (r: Option<u64>)
        ensures
            r is Some == as_unsigned(self@) is Some,
            r matches Some(n) ==> as_unsigned(self@) == Some(n as int),
    {
        match self {
            Json::Number(Number::Unsigned(n)) => Some(*n),
            Json::Number(Number::Negative(n)) => if *n >= 0 {
                Some(*n as u64)
            } else {
                None
            },
            _ => None,
        }
    }

    /// Whether this is `null`.
    pub fn is_null(&self) -> (r: bool)
        ensures
            r == (self@ == JsonV::Null),
    {
        match self {
            Json::Null => true,
            _ => false,
        }
    }

    /// The text under `name`, if there is a string under it.
    pub fn text_at(&self, name: &str) -> (r: Option<&str>)
        ensures
            r is Some == text_field(self@, name@) is Some,
            r matches Some(s) ==> text_field(self@, name@) == Some(s@),
    {
        match self.get(name) {
            Some(v) => v.as_str(),
            None => None,
        }
    }

    /// A copy of this value.
    pub fn dup(&self) -> (r: Json)
        ensures
            r@ == self@,
        decreases self,
    {
        match self {
            Json::Null => Json::Null,
            Json::Bool(b) => Json::Bool(*b),
            Json::Number(n) => Json::Number(n.dup()),
            Json::String(s) => Json::String(s.clone()),
            Json::Array(items) => {
                let mut out: Vec<Json> = Vec::new();
                let mut i: usize = 0;
                while i < items.len()
                    invariant
                        i <= items@.len(),
                        *self == Json::Array(*items),
                        items_view(out@) == items_view(items@).take(i as int),
                    decreases items@.len() - i,
                {
                    let ghost before = out@;
                    proof {
                        assert(decreases_to!(*self => self->Array_0));
                        assert(decreases_to!(*items => items@));
                        assert(decreases_to!(items@ => items@[i as int]));
                    }
                    out.push(items[i].dup());
                    proof {
                        assert(items_view(out@) =~= items_view(before).push(out@.last()@));
                        assert(items_view(items@).take(i + 1) =~= items_view(items@).take(
                            i as int,
                        ).push(items@[i as int]@));
                    }
                    i = i + 1;
                }
                proof {
                    assert(items_view(items@).take(i as int) =~= items_view(items@));
                }
                Json::Array(out)
            },
            Json::Object(members) => {
                let mut out: Vec<Member> = Vec::new();
                let mut i: usize = 0;
                while i < members.len()
                    invariant
                        i <= members@.len(),
                        *self == Json::Object(*members),
                        members_view(out@) == members_view(members@).take(i as int),
                    decreases members@.len() - i,
                {
                    let ghost before = out@;
                    proof {
                        assert(decreases_to!(*self => self->Object_0));
                        assert(decreases_to!(*members => members@));
                        assert(decreases_to!(members@ => members@[i as int]));
                        assert(decreases_to!(members@[i as int] => members@[i as int].value));
                    }
                    let value = members[i].value.dup();
                    out.push(Member { name: members[i].name.clone(), value });
                    proof {
                        assert(members_view(out@) =~= members_view(before).push(
                            (out@.last().name@, out@.last().value@),
                        ));
                        assert(members_view(members@).take(i + 1) =~= members_view(members@).take(
                            i as int,
                        ).push((members@[i as int].name@, members@[i as int].value@)));
                    }
                    i = i + 1;
                }
                proof {
                    assert(members_view(members@).take(i as int) =~= members_view(members@));
                }
                Json::Object(out)
            },
        }
    }
}

impl Number {
    /// A copy of this number.
    pub fn dup(&self) -> (r: Number)
        ensures
            r@ == self@,
    {
        match self {
            Number::Unsigned(n) => Number::Unsigned(*n),
            Number::Negative(n) => Number::Negative(*n),
            Number::Other(s) => Number::Other(s.clone()),
        }
    }
}

impl Clone for Number {
    fn clone(&self) -> (r: Self)
        ensures
            r@ == self@,
    {
        self.dup()
    }
}

impl Clone for Json {
    fn clone(&self) -> (r: Self)
        ensures
            r@ == self@,
    {
        self.dup()
    }
}

impl Clone for Member {
    fn clone(&self) -> (r: Self)
        ensures
            r.name@ == self.name@,
            r.value@ == self.value@,
    {
        Member { name: self.name.clone(), value: self.value.dup() }
    }
}

// ---------------------------------------------------------------------------
// Building
// ---------------------------------------------------------------------------

/// A string value.
pub fn text(s: &str) -> (r: Json)
    ensures
        r@ == JsonV::String(s@),
{
    Json::String(s.to_owned())
}

/// A number value.
pub fn number(n: u64) -> (r: Json)
    ensures
        r@ == JsonV::Number(NumberV::Int(n as int)),
{
    Json::Number(Number::Unsigned(n))
}

/// A growing list of object members.
pub struct Members {
    pub list: Vec<Member>,
}

impl View for Members {
    type V = Seq<(Seq<char>, JsonV)>;

    open spec fn view(&self) -> Seq<(Seq<char>, JsonV)> {
        members_view(self.list@)
    }
}

/// A growing list of array items.
pub struct Items {
    pub list: Vec<Json>,
}

impl View for Items {
    type V = Seq<JsonV>;

    open spec fn view(&self) -> Seq<JsonV> {
        items_view(self.list@)
    }
}

impl Items {
    /// No items.
    pub fn new() -> (r: Self)
        ensures
            r@ == Seq::<JsonV>::empty(),
    {
        let r = Items { list: Vec::new() };
        proof {
            assert(r@ =~= Seq::<JsonV>::empty());
        }
        r
    }

    /// Puts one more item at the end.
    pub fn push(&mut self, value: Json)
        ensures
            final(self)@ == old(self)@.push(value@),
    {
        let ghost before = self.list@;
        self.list.push(value);
        proof {
            assert(items_view(self.list@) =~= items_view(before).push(value@));
        }
    }

    /// The array of these items.
    pub fn array(self) -> (r: Json)
        ensures
            r@ == JsonV::Array(self@),
    {
        Json::Array(self.list)
    }
}

/// The schema of a value of this type, with a description.
pub open spec fn typed(kind: Seq<char>, description: Seq<char>) -> JsonV {
    JsonV::Object(
        Seq::empty().push(("type"@, JsonV::String(kind))).push(
            ("description"@, JsonV::String(description)),
        ),
    )
}

/// The schema of a value of this type, with a description.
pub fn property(kind: &str, description: &str) -> (r: Json)
    ensures
        r@ == typed(kind@, description@),
{
    let mut p = Members::new();
    p.push("type", text(kind));
    p.push("description", text(description));
    p.object()
}

/// The test that a member has another name than `name`.
pub open spec fn not_named(name: Seq<char>) -> spec_fn((Seq<char>, JsonV)) -> bool {
    |m: (Seq<char>, JsonV)| m.0 != name
}

/// `members` with `value` under `name`: a member of that name is taken out
/// before the new one is put at the end.
pub open spec fn with_member(
    members: Seq<(Seq<char>, JsonV)>,
    name: Seq<char>,
    value: JsonV,
) -> Seq<(Seq<char>, JsonV)> {
    members.filter(not_named(name)).push((name, value))
}

impl Members {
    /// No members.
    pub fn new() -> (r: Self)
        ensures
            r@ == Seq::<(Seq<char>, JsonV)>::empty(),
    {
        let r = Members { list: Vec::new() };
        proof {
            assert(r@ =~= Seq::<(Seq<char>, JsonV)>::empty());
        }
        r
    }

    /// Puts one more member at the end.
    pub fn push(&mut self, name: &str, value: Json)
        ensures
            final(self)@ == old(self)@.push((name@, value@)),
    {
        let ghost before = self.list@;
        self.list.push(Member { name: name.to_owned(), value });
        proof {
            assert(members_view(self.list@) =~= members_view(before).push((name@, value@)));
        }
    }

    /// Takes the member called `name` out, if there is one, and puts `value`
    /// under that name at the end.
    pub fn insert(&mut self, name: &str, value: Json)
        ensures
            final(self)@ == with_member(old(self)@, name@, value@),
    {
        let ghost all = self@;
        let ghost keep = not_named(name@);
        let mut kept = Members::new();
        let mut i: usize = 0;
        proof {
            reveal(Seq::filter);
            assert(all.take(0) =~= Seq::<(Seq<char>, JsonV)>::empty());
        }
        while i < self.list.len()
            invariant
                i <= self.list@.len(),
                all == members_view(self.list@),
                keep == not_named(name@),
                kept@ == all.take(i as int).filter(keep),
            decreases self.list@.len() - i,
        {
            let m = &self.list[i];
            proof {
                reveal(Seq::filter);
                assert(all.take(i + 1).drop_last() =~= all.take(i as int));
                assert(all.take(i + 1).last() == (m.name@, m.value@));
            }
            if !str_eq(m.name.as_str(), name) {
                kept.push(m.name.as_str(), m.value.dup());
            }
            i = i + 1;
        }
        proof {
            assert(all.take(i as int) =~= all);
        }
        kept.push(name, value);
        self.list = kept.list;
    }

    /// The object of these members.
    pub fn object(self) -> (r: Json)
        ensures
            r@ == JsonV::Object(self@),
    {
        Json::Object(self.list)
    }
}

/// What one more member at the end changes.
pub proof fn lemma_member_push(
    members: Seq<(Seq<char>, JsonV)>,
    name: Seq<char>,
    value: JsonV,
    other: Seq<char>,
)
    ensures
        member(members.push((name, value)), other) == (if other == name {
            Some(value)
        } else {
            member(members, other)
        }),
{
    assert(members.push((name, value)).drop_last() =~= members);
}

/// Taking out the members of one name leaves what the others are read as.
proof fn lemma_filtered_member(
    members: Seq<(Seq<char>, JsonV)>,
    name: Seq<char>,
    other: Seq<char>,
)
    requires
        other != name,
    ensures
        member(members.filter(not_named(name)), other) == member(
            members,
            other,
        ),
    decreases members.len(),
{
    let keep = not_named(name);
    reveal(Seq::filter);
    if members.len() > 0 {
        lemma_filtered_member(members.drop_last(), name, other);
        let short = members.drop_last().filter(keep);
        if keep(members.last()) {
            assert(members.filter(keep) == short.push(members.last()));
            assert(short.push(members.last()).drop_last() =~= short);
        }
    }
}

/// What an inserted member is read back as, and that no other changes.
pub proof fn lemma_with_member(
    members: Seq<(Seq<char>, JsonV)>,
    name: Seq<char>,
    value: JsonV,
    other: Seq<char>,
)
    ensures
        member(with_member(members, name, value), other) == (if other == name {
            Some(value)
        } else {
            member(members, other)
        }),
{
    let kept = members.filter(not_named(name));
    lemma_member_push(kept, name, value, other);
    if other != name {
        lemma_filtered_member(members, name, other);
    }
}

// ---------------------------------------------------------------------------
// Text
// ---------------------------------------------------------------------------

/// How many arrays and objects inside one another `serde_json` reads.
pub const READ_DEPTH: u8 = 127;

/// `serde_json`'s own tree of a JSON value, which only passes through.
#[verifier::external_type_specification]
#[verifier::external_body]
pub struct ExValue(serde_json::Value);

/// What `serde_json::from_str` reads from a text as a `serde_json::Value`:
/// nothing where the text is not JSON.
pub uninterp spec fn json_parse(text: Seq<char>) -> Option<JsonV>;

/// What the `Display` of `serde_json::Value` writes for a value: its compact form.
pub uninterp spec fn json_print(value: JsonV) -> Seq<char>;

/// Moves a `serde_json::Value` into a [`Json`], variant by variant.
#[verifier::external_body]
fn from_value(v: Value) -> Json {
    match v {
        Value::Null => Json::Null,
        Value::Bool(b) => Json::Bool(b),
        Value::Number(n) => Json::Number(match (n.as_u64(), n.as_i64()) {
            (Some(u), _) => Number::Unsigned(u),
            (None, Some(i)) => Number::Negative(i),
            (None, None) => Number::Other(n.to_string()),
        }),
        Value::String(s) => Json::String(s),
        Value::Array(a) => Json::Array(a.into_iter().map(from_value).collect()),
        Value::Object(o) => Json::Object(
            o.into_iter().map(|(name, v)| Member { name, value: from_value(v) }).collect(),
        ),
    }
}

/// Copies a [`Json`] into a `serde_json::Value`, variant by variant. A numeral
/// that `serde_json` cannot read becomes `null`.
#[verifier::external_body]
fn to_value(j: &Json) -> Value {
    match j {
        Json::Null => Value::Null,
        Json::Bool(b) => Value::Bool(*b),
        Json::Number(Number::Unsigned(n)) => Value::from(*n),
        Json::Number(Number::Negative(n)) => Value::from(*n),
        Json::Number(Number::Other(t)) => {
            t.parse().map_or(Value::Null, Value::Number)
        },
        Json::String(s) => Value::String(s.clone()),
        Json::Array(a) => Value::Array(a.iter().map(to_value).collect()),
        Json::Object(o) => Value::Object(
            o.iter().map(|m| (m.name.clone(), to_value(&m.value))).collect(),
        ),
    }
}

/// Reads a JSON text with `serde_json::from_str`, into a `serde_json::Value`.
/// The contract only names what it reads; which texts are JSON is left to
/// `serde_json`.
#[verifier::external_body]
fn read_text(text: &str) -> (r: Option<Json>)
    ensures
        r is Some == json_parse(text@) is Some,
        r matches Some(j) ==> json_parse(text@) == Some(j@),
{
    serde_json::from_str::<Value>(text).ok().map(from_value)
}

/// The value has at most `depth` arrays and objects inside one another.
pub open spec fn shallow(v: JsonV, depth: nat) -> bool
    decreases depth,
{
    match v {
        JsonV::Array(items) => depth > 0 && forall|i: int|
            0 <= i < items.len() ==> shallow(#[trigger] items[i], (depth - 1) as nat),
        JsonV::Object(members) => depth > 0 && forall|i: int|
            0 <= i < members.len() ==> shallow((#[trigger] members[i]).1, (depth - 1) as nat),
        _ => true,
    }
}

/// There is no member, or it is a text, an integer, a truth value or null.
pub open spec fn plain_member(m: Option<JsonV>) -> bool {
    match m {
        None => true,
        Some(JsonV::Null) => true,
        Some(JsonV::Bool(_)) => true,
        Some(JsonV::String(_)) => true,
        Some(JsonV::Number(NumberV::Int(_))) => true,
        Some(_) => false,
    }
}

/// `read` is an object with the same plain members as `v`, if that is one.
pub open spec fn reads_back(v: JsonV, read: Option<JsonV>) -> bool {
    v matches JsonV::Object(written) ==> (read matches Some(JsonV::Object(got)) && forall|n: Seq<
        char,
    >|
        plain_member(#[trigger] member(written, n)) ==> member(got, n) == member(written, n))
}

/// Writes a JSON value by the `Display` of `serde_json::Value`, which gives the
/// compact form. The contract names what it writes, and says two things of it:
/// the text is one line, as the compact form puts no white space between tokens
/// and a line feed inside a string is written as an escape; and an object that is
/// not nested deeper than `serde_json` reads is read back as an object with the
/// same plain members.
#[verifier::external_body]
fn write_text(j: &Json) -> (r: String)
    ensures
        r@ == json_print(j@),
        forall|i: int| 0 <= i < r@.len() ==> r@[i] != '\n',
        shallow(j@, READ_DEPTH as nat) ==> reads_back(j@, json_parse(r@)),
{
    to_value(j).to_string()
}

impl Json {
    /// Reads a JSON text; nothing where the text is not JSON.
    pub fn parse(text: &str) -> (r: Option<Json>)
        ensures
            r is Some == json_parse(text@) is Some,
            r matches Some(j) ==> json_parse(text@) == Some(j@),
    {
        read_text(text)
    }

    /// This value as compact JSON text, on one line.
    pub fn to_text(&self) -> (r: String)
        ensures
            r@ == json_print(self@),
            forall|i: int| 0 <= i < r@.len() ==> r@[i] != '\n',
            shallow(self@, READ_DEPTH as nat) ==> reads_back(self@, json_parse(r@)),
    {
        write_text(self)
    }
}

// ---------------------------------------------------------------------------
// Laws
// ---------------------------------------------------------------------------

/// What is found under a name: the value of the last member with exactly that name;
/// nothing where there is no such member, and nothing in anything but an object.
pub proof fn law_the_last_member_of_a_name_is_found(
    j: Json,
    members: Vec<Member>,
    name: &str,
    r: Option<&Json>,
    k: int,
)
    requires
        call_ensures(Json::get, (&j, name), r),
    ensures
        !(j is Object) ==> r is None,
        j == Json::Object(members) && 0 <= k < members@.len() && members@[k].name@ == name@ && (
        forall|i: int| k < i < members@.len() ==> (#[trigger] members@[i]).name@ != name@) ==> (
        r matches Some(v) && v@ == members@[k].value@),
        j == Json::Object(members) && (forall|i: int|
            0 <= i < members@.len() ==> (#[trigger] members@[i]).name@ != name@) ==> r is None,
{
    if j == Json::Object(members) {
        lemma_member_at(members@, name@, members@.len() as int, k);
        let all = members_view(members@);
        assert(all.take(all.len() as int) =~= all);
    }
}

proof fn lemma_member_at(members: Seq<Member>, name: Seq<char>, n: int, k: int)
    requires
        0 <= n <= members.len(),
    ensures
        0 <= k < n && members[k].name@ == name && (forall|i: int|
            k < i < n ==> (#[trigger] members[i]).name@ != name) ==> member(
            members_view(members).take(n),
            name,
        ) == Some(members[k].value@),
        (forall|i: int| 0 <= i < n ==> (#[trigger] members[i]).name@ != name) ==> member(
            members_view(members).take(n),
            name,
        ) is None,
    decreases n,
{
    let all = members_view(members);
    if n > 0 {
        lemma_member_at(members, name, n - 1, k);
        assert(all.take(n).drop_last() =~= all.take(n - 1));
        assert(all.take(n).last() == (members[n - 1].name@, members[n - 1].value@));
    }
}

/// What is put into an object is found there, and what else was in it is still
/// there.
pub proof fn law_what_is_put_in_is_found(
    members: Seq<(Seq<char>, JsonV)>,
    name: Seq<char>,
    value: JsonV,
    other: Seq<char>,
)
    ensures
        field(JsonV::Object(with_member(members, name, value)), name) == Some(value),
        other != name ==> field(JsonV::Object(with_member(members, name, value)), other) == field(
            JsonV::Object(members),
            other,
        ),
        field(JsonV::Object(members.push((name, value))), name) == Some(value),
        other != name ==> field(JsonV::Object(members.push((name, value))), other) == field(
            JsonV::Object(members),
            other,
        ),
{
    lemma_with_member(members, name, value, name);
    lemma_with_member(members, name, value, other);
    lemma_member_push(members, name, value, name);
    lemma_member_push(members, name, value, other);
}

} // verus!
