//! Text as sequences of characters: building, searching, trimming and
//! splitting strings, with the meaning of each operation given on `Seq<char>`.
use vstd::prelude::*;

verus! {

// ---------------------------------------------------------------------------
// Specifications
// ---------------------------------------------------------------------------

/// The character of the decimal digit `d`.
pub open spec fn digit(d: nat) -> char {
    (48 + d) as char
}

/// The decimal numeral of `n`, without leading zeros.
pub open spec fn dec(n: nat) -> Seq<char>
    decreases n,
{
    if n < 10 {
        seq![digit(n)]
    } else {
        dec(n / 10).push(digit(n % 10))
    }
}

/// The decimal numeral of `n`, with a leading `-` when `n` is negative.
pub open spec fn dec_int(n: int) -> Seq<char> {
    if n < 0 {
        seq!['-'] + dec((-n) as nat)
    } else {
        dec(n as nat)
    }
}

/// `s` with zeros put in front until it is at least `width` characters long.
pub open spec fn zero_pad(s: Seq<char>, width: nat) -> Seq<char> {
    if s.len() >= width {
        s
    } else {
        Seq::new((width - s.len()) as nat, |i: int| '0') + s
    }
}

/// Characters with the Unicode `White_Space` property.
pub open spec fn white(c: char) -> bool {
    let u = c as u32;
    ||| 0x09 <= u <= 0x0d
    ||| u == 0x20
    ||| u == 0x85
    ||| u == 0xa0
    ||| u == 0x1680
    ||| 0x2000 <= u <= 0x200a
    ||| u == 0x2028
    ||| u == 0x2029
    ||| u == 0x202f
    ||| u == 0x205f
    ||| u == 0x3000
}

/// `s` without its leading white space.
pub open spec fn trim_start(s: Seq<char>) -> Seq<char>
    decreases s.len(),
{
    if s.len() > 0 && white(s[0]) {
        trim_start(s.skip(1))
    } else {
        s
    }
}

/// `s` without its trailing white space.
pub open spec fn trim_end(s: Seq<char>) -> Seq<char>
    decreases s.len(),
{
    if s.len() > 0 && white(s.last()) {
        trim_end(s.drop_last())
    } else {
        s
    }
}

/// `s` without white space at either end.
pub open spec fn trim(s: Seq<char>) -> Seq<char> {
    trim_end(trim_start(s))
}

/// `s` without its trailing run of the character `c`.
pub open spec fn trim_end_char(s: Seq<char>, c: char) -> Seq<char>
    decreases s.len(),
{
    if s.len() > 0 && s.last() == c {
        trim_end_char(s.drop_last(), c)
    } else {
        s
    }
}

/// `p` stands in `h` at index `i`.
pub open spec fn matches_at(h: Seq<char>, p: Seq<char>, i: int) -> bool {
    0 <= i && i + p.len() <= h.len() && h.subrange(i, i + p.len()) == p
}

/// `p` stands somewhere in `h`.
pub open spec fn contains(h: Seq<char>, p: Seq<char>) -> bool {
    exists|i: int| matches_at(h, p, i)
}

/// The first index at or after `from` at which `p` stands in `h`.
pub open spec fn find(h: Seq<char>, p: Seq<char>, from: int) -> Option<int>
    decreases h.len() + 1 - from,
{
    if from < 0 || from + p.len() > h.len() {
        None
    } else if matches_at(h, p, from) {
        Some(from)
    } else {
        find(h, p, from + 1)
    }
}

/// At how many places from `from` on `p` stands in `h`. Places may overlap.
pub open spec fn places(h: Seq<char>, p: Seq<char>, from: int) -> nat
    decreases h.len() + 1 - from,
{
    if from < 0 || from + p.len() > h.len() {
        0
    } else {
        places(h, p, from + 1) + (if matches_at(h, p, from) {
            1nat
        } else {
            0
        })
    }
}

/// The parts one after the other, with `sep` between neighbours.
pub open spec fn join(parts: Seq<Seq<char>>, sep: Seq<char>) -> Seq<char>
    decreases parts.len(),
{
    if parts.len() == 0 {
        Seq::empty()
    } else if parts.len() == 1 {
        parts[0]
    } else {
        join(parts.drop_last(), sep) + sep + parts.last()
    }
}

/// The index of the first `c` in `s`, or the length of `s` if there is none.
pub open spec fn first_index(s: Seq<char>, c: char) -> nat
    decreases s.len(),
{
    if s.len() == 0 || s[0] == c {
        0
    } else {
        1 + first_index(s.skip(1), c)
    }
}

/// The pieces of `s` between the characters `c`: one more than there are `c`s.
pub open spec fn split(s: Seq<char>, c: char) -> Seq<Seq<char>>
    decreases s.len(),
{
    let k = first_index(s, c);
    if k >= s.len() {
        seq![s]
    } else {
        seq![s.take(k as int)] + split(s.skip(k as int + 1), c)
    }
}

/// `s` without one trailing carriage return.
pub open spec fn strip_cr(s: Seq<char>) -> Seq<char> {
    if s.len() > 0 && s.last() == '\r' {
        s.drop_last()
    } else {
        s
    }
}

/// The lines of `s`. A line ends at a line feed, which is left out together
/// with a carriage return right before it; the last line may lack the line
/// feed, and then keeps its carriage return.
pub open spec fn lines(s: Seq<char>) -> Seq<Seq<char>>
    decreases s.len(),
{
    let k = first_index(s, '\n');
    if s.len() == 0 {
        Seq::empty()
    } else if k >= s.len() {
        seq![s]
    } else {
        seq![strip_cr(s.take(k as int))] + lines(s.skip(k as int + 1))
    }
}

/// Where a line ends that starts at `from` and has its line feed, or the end of
/// the text, at `k`: before the line feed, and before a carriage return right
/// before that.
pub open spec fn line_end(s: Seq<char>, from: int, k: int) -> int {
    if from < k < s.len() && s[k - 1] == '\r' {
        k - 1
    } else {
        k
    }
}

/// Where the lines from `from` on stand in `s`: the start and the end of each.
pub open spec fn line_spans(s: Seq<char>, from: int) -> Seq<(int, int)>
    decreases s.len() + 1 - from,
{
    if from < 0 || from >= s.len() {
        Seq::empty()
    } else {
        proof {
            lemma_first_index(s.skip(from), '\n');
        }
        let k = from + first_index(s.skip(from), '\n');
        seq![(from, line_end(s, from, k))] + line_spans(s, k + 1)
    }
}

/// The spans of exec code as spans of integers.
pub open spec fn span_views(v: Seq<(usize, usize)>) -> Seq<(int, int)> {
    Seq::new(v.len(), |i: int| (v[i].0 as int, v[i].1 as int))
}

/// The views of the strings in `v`.
pub open spec fn views(v: Seq<String>) -> Seq<Seq<char>> {
    Seq::new(v.len(), |i: int| v[i]@)
}

// ---------------------------------------------------------------------------
// Characters in and out of strings
// ---------------------------------------------------------------------------

/// Appends one character. Stands for `String::push`, which puts the character
/// at the end of the string and leaves the rest as it was.
#[verifier::external_body]
pub(crate) fn push_char(s: &mut String, c: char)
    ensures
        final(s)@ == old(s)@.push(c),
{
    s.push(c);
}

/// The characters of `s`, in order.
pub fn chars_of(s: &str) -> (r: Vec<char>)
    ensures
        r@ == s@,
{
    let mut r: Vec<char> = Vec::new();
    for c in it: s.chars()
        invariant
            r@ == s@.take(it.index()),
            it.seq() == s@,
    {
        r.push(c);
    }
    proof {
        assert(s@.take(s@.len() as int) =~= s@);
    }
    r
}

/// The string of the characters `from` to `to` (excluded) of `cs`.
pub fn string_of(cs: &Vec<char>, from: usize, to: usize) -> (r: String)
    requires
        from <= to <= cs@.len(),
    ensures
        r@ == cs@.subrange(from as int, to as int),
{
    let mut r = String::new();
    let mut i: usize = from;
    while i < to
        invariant
            from <= i <= to <= cs@.len(),
            r@ == cs@.subrange(from as int, i as int),
        decreases to - i,
    {
        push_char(&mut r, cs[i]);
        i = i + 1;
    }
    r
}

/// Whether `a` and `b` are the same text.
pub fn str_eq(a: &str, b: &str) -> (r: bool)
    ensures
        r == (a@ == b@),
{
    let x = chars_of(a);
    let y = chars_of(b);
    if x.len() != y.len() {
        return false;
    }
    let mut i: usize = 0;
    while i < x.len()
        invariant
            x@ == a@,
            y@ == b@,
            x@.len() == y@.len(),
            i <= x@.len(),
            forall|j: int| 0 <= j < i ==> x@[j] == y@[j],
        decreases x@.len() - i,
    {
        if x[i] != y[i] {
            return false;
        }
        i = i + 1;
    }
    proof {
        assert(a@ =~= b@);
    }
    true
}

/// `a` followed by `b`.
pub fn concat(a: &str, b: &str) -> (r: String)
    ensures
        r@ == a@ + b@,
{
    let mut r = a.to_owned();
    r.append(b);
    r
}

/// How many bytes a text takes.
pub open spec fn byte_len(s: Seq<char>) -> nat {
    vstd::utf8::encode_utf8(s).len()
}

/// How many bytes a text takes.
pub fn bytes_in(s: &str) -> (r: usize)
    ensures
        r == byte_len(s@),
{
    s.as_bytes().len()
}

/// Reads bytes as text with `std::str::from_utf8`: it succeeds exactly where
/// they are UTF-8, and gives the characters that they encode.
#[verifier::external_body]
pub(crate) fn text_of_bytes(bytes: &Vec<u8>) -> (r: Option<String>)
    ensures
        r is Some == vstd::utf8::valid_utf8(bytes@),
        r matches Some(s) ==> s@ == vstd::utf8::decode_utf8(bytes@),
{
    std::str::from_utf8(bytes).ok().map(str::to_owned)
}

/// What `String::from_utf8_lossy` makes of bytes.
pub uninterp spec fn lossy_text(bytes: Seq<u8>) -> Seq<char>;

/// Reads bytes as text with `String::from_utf8_lossy`, which puts a replacement
/// character where they are not UTF-8. The contract says what UTF-8 is read as,
/// and only names what other bytes are read as.
#[verifier::external_body]
pub(crate) fn lossy_text_of_bytes(bytes: &Vec<u8>) -> (r: String)
    ensures
        r@ == lossy_text(bytes@),
        vstd::utf8::valid_utf8(bytes@) ==> r@ == vstd::utf8::decode_utf8(bytes@),
{
    String::from_utf8_lossy(bytes).into_owned()
}

/// What `{:?}` writes for a string: the text in quotes, with escapes.
pub uninterp spec fn str_debug(s: Seq<char>) -> Seq<char>;

/// Writes a string as `{:?}` does. The contract only names the text, as a
/// function of the string.
#[verifier::external_body]
pub(crate) fn debug_of(s: &str) -> (r: String)
    ensures
        r@ == str_debug(s@),
{
    format!("{s:?}")
}

/// What `str::to_lowercase` makes of a text.
pub uninterp spec fn lowercase(s: Seq<char>) -> Seq<char>;

/// `s` in lower case, by `str::to_lowercase`. The contract only names the
/// result, as a function of the text.
#[verifier::external_body]
pub(crate) fn lower(s: &str) -> (r: String)
    ensures
        r@ == lowercase(s@),
{
    s.to_lowercase()
}

// ---------------------------------------------------------------------------
// Numerals
// ---------------------------------------------------------------------------

/// The decimal numeral of `n`.
pub fn dec_u64(n: u64) -> (r: String)
    ensures
        r@ == dec(n as nat),
    decreases n,
{
    if n < 10 {
        let mut s = String::new();
        push_char(&mut s, (48u8 + (n as u8)) as char);
        s
    } else {
        let mut s = dec_u64(n / 10);
        push_char(&mut s, (48u8 + ((n % 10) as u8)) as char);
        s
    }
}

/// The decimal numeral of `n`, signed.
pub fn dec_i32(n: i32) -> (r: String)
    ensures
        r@ == dec_int(n as int),
{
    if n < 0 {
        let m: i64 = -(n as i64);
        let mut s = String::new();
        push_char(&mut s, '-');
        s.append(dec_u64(m as u64).as_str());
        proof {
            assert(Seq::<char>::empty().push('-') =~= seq!['-']);
        }
        s
    } else {
        dec_u64(n as u64)
    }
}

/// The decimal numeral of `n`, with zeros in front up to `width` characters.
pub fn dec_padded(n: u64, width: usize) -> (r: String)
    ensures
        r@ == zero_pad(dec(n as nat), width as nat),
{
    let d = dec_u64(n);
    let len: usize = d.as_str().unicode_len();
    if len >= width {
        return d;
    }
    let mut s = String::new();
    let mut i: usize = 0;
    while i < width - len
        invariant
            len < width,
            i <= width - len,
            s@ == Seq::new(i as nat, |j: int| '0'),
        decreases width - len - i,
    {
        push_char(&mut s, '0');
        proof {
            assert(s@ =~= Seq::new((i + 1) as nat, |j: int| '0'));
        }
        i = i + 1;
    }
    s.append(d.as_str());
    s
}

// ---------------------------------------------------------------------------
// Trimming
// ---------------------------------------------------------------------------

/// Whether `c` is white space.
pub fn is_white(c: char) -> (r: bool)
    ensures
        r == white(c),
{
    let u: u32 = c as u32;
    (0x09 <= u && u <= 0x0d) || u == 0x20 || u == 0x85 || u == 0xa0 || u == 0x1680 || (0x2000 <= u
        && u <= 0x200a) || u == 0x2028 || u == 0x2029 || u == 0x202f || u == 0x205f || u == 0x3000
}

/// `s` without white space at either end.
pub fn trimmed(s: &str) -> (r: String)
    ensures
        r@ == trim(s@),
{
    let cs = chars_of(s);
    let mut a: usize = 0;
    proof {
        assert(s@.skip(0) =~= s@);
    }
    while a < cs.len() && is_white(cs[a])
        invariant
            cs@ == s@,
            a <= cs@.len(),
            trim_start(s@) == trim_start(s@.skip(a as int)),
        decreases cs@.len() - a,
    {
        proof {
            assert(s@.skip(a as int).skip(1) =~= s@.skip(a as int + 1));
        }
        a = a + 1;
    }
    let ghost t = s@.skip(a as int);
    let mut b: usize = cs.len();
    proof {
        assert(trim_start(s@) == t);
        assert(t.take(b - a) =~= t);
    }
    while b > a && is_white(cs[b - 1])
        invariant
            cs@ == s@,
            a <= b <= cs@.len(),
            t == s@.skip(a as int),
            trim_end(t) == trim_end(t.take(b - a)),
        decreases b,
    {
        proof {
            assert(t.take(b - a).drop_last() =~= t.take(b - a - 1));
        }
        b = b - 1;
    }
    proof {
        assert(t.take(b - a) =~= s@.subrange(a as int, b as int));
    }
    string_of(&cs, a, b)
}

/// `s` without its trailing run of the character `c`.
pub fn trimmed_end_char(s: &str, c: char) -> (r: String)
    ensures
        r@ == trim_end_char(s@, c),
{
    let cs = chars_of(s);
    let mut b: usize = cs.len();
    proof {
        assert(s@.take(b as int) =~= s@);
    }
    while b > 0 && cs[b - 1] == c
        invariant
            cs@ == s@,
            b <= cs@.len(),
            trim_end_char(s@, c) == trim_end_char(s@.take(b as int), c),
        decreases b,
    {
        proof {
            assert(s@.take(b as int).drop_last() =~= s@.take(b - 1));
        }
        b = b - 1;
    }
    proof {
        assert(s@.take(b as int) =~= s@.subrange(0, b as int));
    }
    string_of(&cs, 0, b)
}

// ---------------------------------------------------------------------------
// Searching
// ---------------------------------------------------------------------------

/// Whether `p` stands in `h` at index `i`.
fn at(h: &Vec<char>, p: &Vec<char>, i: usize) -> (r: bool)
    requires
        i + p@.len() <= h@.len(),
    ensures
        r == matches_at(h@, p@, i as int),
{
    let n: usize = h.len();
    let mut j: usize = 0;
    while j < p.len()
        invariant
            j <= p@.len(),
            i + p@.len() <= h@.len() == n,
            forall|k: int| 0 <= k < j ==> h@[i + k] == p@[k],
        decreases p@.len() - j,
    {
        if h[i + j] != p[j] {
            proof {
                assert(h@.subrange(i as int, i + p@.len())[j as int] == h@[i + j]);
            }
            return false;
        }
        j = j + 1;
    }
    proof {
        assert(h@.subrange(i as int, i + p@.len()) =~= p@);
    }
    true
}

/// The first index at or after `from` at which `p` stands in `h`.
pub fn find_chars(h: &Vec<char>, p: &Vec<char>, from: usize) -> (r: Option<usize>)
    ensures
        r is Some == find(h@, p@, from as int) is Some,
        r matches Some(i) ==> find(h@, p@, from as int) == Some(i as int) && from <= i && matches_at(
            h@,
            p@,
            i as int,
        ),
{
    if h.len() < p.len() {
        return None;
    }
    let last: usize = h.len() - p.len();
    let mut i: usize = from;
    while i <= last
        invariant
            last + p@.len() == h@.len(),
            from <= i,
            find(h@, p@, from as int) == find(h@, p@, i as int),
        decreases last + 1 - i,
    {
        if at(h, p, i) {
            return Some(i);
        }
        if i == last {
            return None;
        }
        i = i + 1;
    }
    None
}

/// `find` gives the first place: it finds one if and only if `p` stands
/// somewhere at or after `from`, and nothing stands before what it finds.
pub proof fn lemma_find(h: Seq<char>, p: Seq<char>, from: int)
    requires
        0 <= from,
    ensures
        find(h, p, from) is Some <==> exists|i: int| from <= i && matches_at(h, p, i),
        find(h, p, from) matches Some(i) ==> from <= i && matches_at(h, p, i) && forall|j: int|
            from <= j < i ==> !matches_at(h, p, j),
    decreases h.len() + 1 - from,
{
    if from + p.len() > h.len() {
    } else if matches_at(h, p, from) {
    } else {
        lemma_find(h, p, from + 1);
        if exists|i: int| from <= i && matches_at(h, p, i) {
            let i = choose|i: int| from <= i && matches_at(h, p, i);
            assert(from + 1 <= i && matches_at(h, p, i));
        }
    }
}

/// Whether `p` stands somewhere in `h`.
pub fn contains_str(h: &str, p: &str) -> (r: bool)
    ensures
        r == contains(h@, p@),
{
    let hc = chars_of(h);
    let pc = chars_of(p);
    proof {
        lemma_find(h@, p@, 0);
        assert(forall|i: int| matches_at(h@, p@, i) ==> 0 <= i);
    }
    find_chars(&hc, &pc, 0).is_some()
}

/// At how many places `p` stands in `h`.
pub fn count_places(h: &Vec<char>, p: &Vec<char>) -> (r: usize)
    requires
        p@.len() > 0,
    ensures
        r == places(h@, p@, 0),
{
    if h.len() < p.len() {
        return 0;
    }
    let mut i: usize = h.len() - p.len() + 1;
    let mut n: usize = 0;
    while i > 0
        invariant
            p@.len() > 0,
            i + p@.len() <= h@.len() + 1,
            n + i + p@.len() <= h@.len() + 1,
            n == places(h@, p@, i as int),
            h@.len() <= usize::MAX,
        decreases i,
    {
        i = i - 1;
        if at(h, p, i) {
            n = n + 1;
        }
    }
    n
}

/// What the count says: nothing stands anywhere, or there is a first place; and
/// with a count of one that place is the only one.
pub proof fn lemma_places(h: Seq<char>, p: Seq<char>, from: int)
    requires
        0 <= from,
    ensures
        places(h, p, from) == 0 <==> forall|i: int| from <= i ==> !matches_at(h, p, i),
        places(h, p, from) == 1 ==> exists|i: int|
            from <= i && matches_at(h, p, i) && forall|j: int|
                from <= j && matches_at(h, p, j) ==> j == i,
    decreases h.len() + 1 - from,
{
    if from + p.len() <= h.len() {
        lemma_places(h, p, from + 1);
        if matches_at(h, p, from) {
            if places(h, p, from) == 1 {
                assert(places(h, p, from + 1) == 0);
                assert forall|j: int| from <= j && matches_at(h, p, j) implies j == from by {
                    if j > from {
                        assert(from + 1 <= j);
                    }
                }
            }
        } else {
            if places(h, p, from) == 0 {
                assert forall|i: int| from <= i implies !matches_at(h, p, i) by {
                    if i > from {
                        assert(from + 1 <= i);
                    }
                }
            }
            if places(h, p, from) == 1 {
                let i = choose|i: int|
                    from + 1 <= i && matches_at(h, p, i) && forall|j: int|
                        from + 1 <= j && matches_at(h, p, j) ==> j == i;
                assert forall|j: int| from <= j && matches_at(h, p, j) implies j == i by {
                    assert(from + 1 <= j);
                }
            }
        }
    }
}

/// A text that stands at one place and at no other is counted once.
pub proof fn lemma_one_place(h: Seq<char>, p: Seq<char>, from: int, i: int)
    requires
        0 <= from,
        matches_at(h, p, i),
        forall|j: int| #[trigger] matches_at(h, p, j) ==> j == i,
    ensures
        places(h, p, from) == (if from <= i {
            1nat
        } else {
            0
        }),
    decreases h.len() + 1 - from,
{
    if from + p.len() <= h.len() {
        lemma_one_place(h, p, from + 1, i);
        assert(matches_at(h, p, from) ==> from == i);
    }
}

// ---------------------------------------------------------------------------
// Joining and splitting
// ---------------------------------------------------------------------------

/// Joining one part more puts the separator and that part behind the rest.
pub proof fn lemma_join_push(parts: Seq<Seq<char>>, sep: Seq<char>, last: Seq<char>)
    ensures
        join(parts.push(last), sep) == (if parts.len() == 0 {
            last
        } else {
            join(parts, sep) + sep + last
        }),
{
    assert(parts.push(last).drop_last() =~= parts);
}

/// The strings one after the other, with `sep` between neighbours.
pub fn join_strings(parts: &Vec<String>, sep: &str) -> (r: String)
    ensures
        r@ == join(views(parts@), sep@),
{
    let mut r = String::new();
    let mut i: usize = 0;
    proof {
        assert(views(parts@).take(0) =~= Seq::<Seq<char>>::empty());
    }
    while i < parts.len()
        invariant
            i <= parts@.len(),
            r@ == join(views(parts@).take(i as int), sep@),
        decreases parts@.len() - i,
    {
        proof {
            lemma_join_push(views(parts@).take(i as int), sep@, parts@[i as int]@);
            assert(views(parts@).take(i + 1) =~= views(parts@).take(i as int).push(
                parts@[i as int]@,
            ));
        }
        if i > 0 {
            r.append(sep);
        }
        r.append(parts[i].as_str());
        proof {
            if i == 0 {
                assert(r@ =~= parts@[0]@);
            }
        }
        i = i + 1;
    }
    proof {
        assert(views(parts@).take(parts@.len() as int) =~= views(parts@));
    }
    r
}

/// A copy of the strings.
pub fn copy_strings(v: &Vec<String>) -> (r: Vec<String>)
    ensures
        views(r@) == views(v@),
{
    let mut r: Vec<String> = Vec::new();
    let mut i: usize = 0;
    while i < v.len()
        invariant
            i <= v@.len(),
            views(r@) == views(v@).take(i as int),
        decreases v@.len() - i,
    {
        let ghost before = views(r@);
        r.push(v[i].clone());
        proof {
            assert(views(r@) =~= before.push(v@[i as int]@));
            assert(views(v@).take(i + 1) =~= views(v@).take(i as int).push(v@[i as int]@));
        }
        i = i + 1;
    }
    proof {
        assert(views(v@).take(i as int) =~= views(v@));
    }
    r
}

/// What `first_index` means: nothing before it is `c`, and what stands at it is.
pub proof fn lemma_first_index(s: Seq<char>, c: char)
    ensures
        first_index(s, c) <= s.len(),
        first_index(s, c) < s.len() ==> s[first_index(s, c) as int] == c,
        forall|j: int| 0 <= j < first_index(s, c) ==> s[j] != c,
    decreases s.len(),
{
    if s.len() == 0 || s[0] == c {
    } else {
        let t = s.skip(1);
        lemma_first_index(t, c);
        assert forall|j: int| 0 <= j < first_index(s, c) implies s[j] != c by {
            if j > 0 {
                assert(t[j - 1] == s[j]);
            }
        }
    }
}

/// The index is the only one with the property of `lemma_first_index`.
pub proof fn lemma_first_index_is(s: Seq<char>, c: char, k: int)
    requires
        0 <= k <= s.len(),
        k < s.len() ==> s[k] == c,
        forall|j: int| 0 <= j < k ==> s[j] != c,
    ensures
        first_index(s, c) == k,
{
    lemma_first_index(s, c);
}

/// The index, at or after `from`, of the first `c` in `cs`, or its length.
fn next_index(cs: &Vec<char>, c: char, from: usize) -> (r: usize)
    requires
        from <= cs@.len(),
    ensures
        from <= r <= cs@.len(),
        first_index(cs@.skip(from as int), c) == r - from,
{
    let mut i: usize = from;
    while i < cs.len() && cs[i] != c
        invariant
            from <= i <= cs@.len(),
            forall|j: int| from <= j < i ==> cs@[j] != c,
        decreases cs@.len() - i,
    {
        i = i + 1;
    }
    proof {
        lemma_first_index_is(cs@.skip(from as int), c, i - from);
    }
    i
}

/// The pieces of `s` between the characters `c`.
pub fn split_str(s: &str, c: char) -> (r: Vec<String>)
    ensures
        views(r@) == split(s@, c),
{
    let cs = chars_of(s);
    let mut r: Vec<String> = Vec::new();
    let mut from: usize = 0;
    proof {
        assert(s@.skip(0) =~= s@);
        assert(views(r@) + split(s@.skip(0), c) =~= split(s@, c));
    }
    loop
        invariant
            cs@ == s@,
            from <= cs@.len(),
            views(r@) + split(s@.skip(from as int), c) == split(s@, c),
        decreases cs@.len() - from,
    {
        let k: usize = next_index(&cs, c, from);
        let piece = string_of(&cs, from, k);
        let ghost before = views(r@);
        let ghost rest = s@.skip(from as int);
        proof {
            assert(piece@ =~= rest.take(k - from));
        }
        r.push(piece);
        proof {
            assert(views(r@) =~= before.push(piece@));
        }
        if k >= cs.len() {
            proof {
                assert(rest.take(k - from) =~= rest);
                assert(before + seq![rest] =~= before.push(rest));
            }
            return r;
        }
        proof {
            assert(rest.skip(k - from + 1) =~= s@.skip(k as int + 1));
            assert(views(r@) + split(s@.skip(k as int + 1), c) =~= before + split(rest, c));
        }
        from = k + 1;
    }
}

/// Where the lines of a text stand in it.
pub fn spans_of(cs: &Vec<char>) -> (r: Vec<(usize, usize)>)
    ensures
        span_views(r@) == line_spans(cs@, 0),
{
    let mut r: Vec<(usize, usize)> = Vec::new();
    let mut from: usize = 0;
    proof {
        assert(span_views(r@) + line_spans(cs@, 0) =~= line_spans(cs@, 0));
    }
    while from < cs.len()
        invariant
            from <= cs@.len(),
            span_views(r@) + line_spans(cs@, from as int) == line_spans(cs@, 0),
        decreases cs@.len() - from,
    {
        let k: usize = next_index(cs, '\n', from);
        let ghost before = span_views(r@);
        let mut end: usize = k;
        if k < cs.len() && from < k && cs[k - 1] == '\r' {
            end = k - 1;
        }
        r.push((from, end));
        proof {
            assert(span_views(r@) =~= before.push((from as int, end as int)));
            assert(span_views(r@) + line_spans(cs@, k + 1) =~= before + line_spans(
                cs@,
                from as int,
            ));
        }
        if k >= cs.len() {
            proof {
                assert(line_spans(cs@, k + 1) =~= Seq::empty());
                assert(span_views(r@) + line_spans(cs@, k + 1) =~= span_views(r@));
            }
            return r;
        }
        from = k + 1;
    }
    proof {
        assert(span_views(r@) + line_spans(cs@, from as int) =~= span_views(r@));
    }
    r
}

/// Lines lie within the text, each behind the one before it.
pub proof fn lemma_spans(s: Seq<char>, from: int)
    requires
        0 <= from,
    ensures
        forall|i: int|
            0 <= i < line_spans(s, from).len() ==> from <= (#[trigger] line_spans(s, from)[i]).0
                <= line_spans(s, from)[i].1 <= s.len(),
        forall|i: int, j: int|
            0 <= i < j < line_spans(s, from).len() ==> (#[trigger] line_spans(s, from)[i]).1 < (
            #[trigger] line_spans(s, from)[j]).0,
    decreases s.len() + 1 - from,
{
    if from < s.len() {
        lemma_first_index(s.skip(from), '\n');
        let k = from + first_index(s.skip(from), '\n');
        lemma_spans(s, k + 1);
        let all = line_spans(s, from);
        let rest = line_spans(s, k + 1);
        assert forall|i: int| 0 <= i < all.len() implies from <= (#[trigger] all[i]).0 <= all[i].1
            <= s.len() by {
            if i > 0 {
                assert(all[i] == rest[i - 1]);
            }
        }
        assert forall|i: int, j: int| 0 <= i < j < all.len() implies (#[trigger] all[i]).1 < (
        #[trigger] all[j]).0 by {
            assert(all[j] == rest[j - 1]);
            if i > 0 {
                assert(all[i] == rest[i - 1]);
            }
        }
    }
}

/// What stands at the spans is the lines.
pub proof fn lemma_spans_are_lines(s: Seq<char>, from: int)
    requires
        0 <= from <= s.len(),
    ensures
        lines(s.skip(from)).len() == line_spans(s, from).len(),
        forall|i: int|
            0 <= i < line_spans(s, from).len() ==> #[trigger] lines(s.skip(from))[i] == s.subrange(
                line_spans(s, from)[i].0,
                line_spans(s, from)[i].1,
            ),
    decreases s.len() - from,
{
    let t = s.skip(from);
    if from < s.len() {
        lemma_first_index(t, '\n');
        let n = first_index(t, '\n') as int;
        let k = from + n;
        let all = line_spans(s, from);
        let rest = line_spans(s, k + 1);
        assert(all == seq![(from, line_end(s, from, k))] + rest);
        if k < s.len() {
            lemma_spans_are_lines(s, k + 1);
            assert(t.skip(n + 1) =~= s.skip(k + 1));
            assert(lines(t) == seq![strip_cr(t.take(n))] + lines(s.skip(k + 1)));
            assert(strip_cr(t.take(n)) =~= s.subrange(from, line_end(s, from, k)));
        } else {
            assert(rest =~= Seq::empty());
            assert(t =~= s.subrange(from, s.len() as int));
        }
        assert forall|i: int| 0 <= i < all.len() implies #[trigger] lines(t)[i] == s.subrange(
            all[i].0,
            all[i].1,
        ) by {
            if i > 0 {
                assert(all[i] == rest[i - 1]);
                assert(lines(t)[i] == lines(s.skip(k + 1))[i - 1]);
            }
        }
    }
}

/// In a text without carriage returns a line feed alone stands between a line and
/// the next.
pub proof fn lemma_spans_without_returns(s: Seq<char>, from: int, i: int)
    requires
        0 <= from,
        forall|k: int| 0 <= k < s.len() ==> s[k] != '\r',
        0 <= i < line_spans(s, from).len() - 1,
    ensures
        line_spans(s, from)[i + 1].0 == line_spans(s, from)[i].1 + 1,
        line_spans(s, from)[i].1 < s.len(),
        s[line_spans(s, from)[i].1] == '\n',
    decreases i,
{
    lemma_first_index(s.skip(from), '\n');
    let k = from + first_index(s.skip(from), '\n');
    let all = line_spans(s, from);
    let rest = line_spans(s, k + 1);
    assert(all == seq![(from, line_end(s, from, k))] + rest);
    assert(all[i + 1] == rest[i]);
    if i > 0 {
        assert(all[i] == rest[i - 1]);
        lemma_spans_without_returns(s, k + 1, i - 1);
    } else {
        assert(rest[0].0 == k + 1);
        assert(s.skip(from)[k - from] == s[k]);
    }
}

// ---------------------------------------------------------------------------
// Reading numerals
// ---------------------------------------------------------------------------

/// `c` is a decimal digit.
pub open spec fn is_digit(c: char) -> bool {
    48 <= c as u32 <= 57
}

/// The number that the digits of `s` write.
pub open spec fn number(s: Seq<char>) -> nat
    decreases s.len(),
{
    if s.len() == 0 {
        0
    } else {
        (number(s.drop_last()) * 10 + (s.last() as u32 - 48)) as nat
    }
}

/// `s` without one leading `+`.
pub open spec fn strip_plus(s: Seq<char>) -> Seq<char> {
    if s.len() > 0 && s[0] == '+' {
        s.skip(1)
    } else {
        s
    }
}

/// The value of `s` as an unsigned 32-bit numeral: an optional `+`, at least
/// one digit and nothing else, and a value that fits.
pub open spec fn u32_value(s: Seq<char>) -> Option<nat> {
    let d = strip_plus(s);
    if d.len() > 0 && (forall|i: int| 0 <= i < d.len() ==> is_digit(#[trigger] d[i])) && number(d)
        <= u32::MAX {
        Some(number(d))
    } else {
        None
    }
}

/// A numeral writes no less than its first digits do.
proof fn lemma_number_grows(s: Seq<char>, k: int)
    requires
        0 <= k <= s.len(),
        forall|i: int| 0 <= i < s.len() ==> is_digit(#[trigger] s[i]),
    ensures
        number(s.take(k)) <= number(s),
    decreases s.len(),
{
    if k < s.len() {
        let t = s.drop_last();
        assert forall|i: int| 0 <= i < t.len() implies is_digit(#[trigger] t[i]) by {
            assert(s[i] == t[i]);
        }
        lemma_number_grows(t, k);
        assert(t.take(k) =~= s.take(k));
        assert(is_digit(s[s.len() - 1]));
    } else {
        assert(s.take(k) =~= s);
    }
}

/// Reads `s` as an unsigned 32-bit numeral.
pub fn parse_u32(s: &str) -> (r: Option<u32>)
    ensures
        r is Some == u32_value(s@) is Some,
        r matches Some(n) ==> u32_value(s@) == Some(n as nat),
{
    let cs = chars_of(s);
    let mut i: usize = 0;
    if cs.len() > 0 && cs[0] == '+' {
        i = 1;
    }
    let start: usize = i;
    let ghost d = strip_plus(s@);
    proof {
        assert(d =~= s@.skip(start as int));
        assert(d.take(0) =~= Seq::<char>::empty());
    }
    if i >= cs.len() {
        return None;
    }
    let mut n: u64 = 0;
    while i < cs.len()
        invariant
            cs@ == s@,
            start <= i <= cs@.len(),
            d == s@.skip(start as int),
            n <= u32::MAX,
            n == number(d.take(i - start)),
            d == strip_plus(s@),
            forall|j: int| 0 <= j < i - start ==> is_digit(#[trigger] d[j]),
        decreases cs@.len() - i,
    {
        let u: u32 = cs[i] as u32;
        proof {
            assert(d[i - start] == s@[i as int]);
            assert(d.take(i - start + 1).drop_last() =~= d.take(i - start));
        }
        if u < 48 || u > 57 {
            proof {
                assert(!is_digit(d[i - start]));
            }
            return None;
        }
        n = n * 10 + (u - 48) as u64;
        if n > 0xffff_ffff {
            proof {
                if forall|j: int| 0 <= j < d.len() ==> is_digit(#[trigger] d[j]) {
                    lemma_number_grows(d, i - start + 1);
                }
            }
            return None;
        }
        i = i + 1;
    }
    proof {
        assert(d.take(i - start) =~= d);
    }
    Some(n as u32)
}

/// No piece of a split text holds the character that it was split at.
pub proof fn lemma_split_pieces(s: Seq<char>, c: char, k: int, j: int)
    requires
        0 <= k < split(s, c).len(),
        0 <= j < split(s, c)[k].len(),
    ensures
        split(s, c)[k][j] != c,
    decreases s.len(),
{
    lemma_first_index(s, c);
    let n = first_index(s, c);
    if n < s.len() && k > 0 {
        lemma_split_pieces(s.skip(n as int + 1), c, k - 1, j);
    }
}

/// Reading the numeral of a number gives the number back.
pub proof fn lemma_number_of_dec(n: nat)
    ensures
        number(dec(n)) == n,
        dec(n).len() > 0,
    decreases n,
{
    if n < 10 {
        assert(seq![digit(n)].drop_last() =~= Seq::<char>::empty());
        assert(number(Seq::<char>::empty()) == 0);
    } else {
        lemma_number_of_dec(n / 10);
        assert(dec(n).drop_last() =~= dec(n / 10));
    }
}

/// A numeral is made of digits.
pub proof fn lemma_dec_digits(n: nat, i: int)
    requires
        0 <= i < dec(n).len(),
    ensures
        is_digit(dec(n)[i]),
    decreases n,
{
    if n >= 10 && i < dec(n).len() - 1 {
        lemma_dec_digits(n / 10, i);
        assert(dec(n)[i] == dec(n / 10)[i]);
    }
}

/// Zeros in front do not change a number.
pub proof fn lemma_number_of_zeros(k: nat, s: Seq<char>)
    ensures
        number(Seq::new(k, |i: int| '0') + s) == number(s),
    decreases s.len(), k,
{
    let zeros = Seq::new(k, |i: int| '0');
    if s.len() > 0 {
        assert((zeros + s).drop_last() =~= zeros + s.drop_last());
        lemma_number_of_zeros(k, s.drop_last());
    } else if k > 0 {
        let fewer = Seq::new((k - 1) as nat, |i: int| '0');
        assert((zeros + s).drop_last() =~= fewer + s);
        lemma_number_of_zeros((k - 1) as nat, s);
    } else {
        assert(zeros + s =~= s);
    }
}

/// Reading a padded numeral gives the number back.
pub proof fn lemma_number_of_padded(n: nat, width: nat)
    ensures
        number(zero_pad(dec(n), width)) == n,
        forall|i: int|
            0 <= i < zero_pad(dec(n), width).len() ==> is_digit(
                #[trigger] zero_pad(dec(n), width)[i],
            ),
{
    let d = dec(n);
    lemma_number_of_dec(n);
    if d.len() < width {
        lemma_number_of_zeros((width - d.len()) as nat, d);
    }
    let p = zero_pad(d, width);
    assert forall|i: int| 0 <= i < p.len() implies is_digit(#[trigger] p[i]) by {
        let k = i - (p.len() - d.len());
        if k >= 0 {
            lemma_dec_digits(n, k);
            assert(p[i] == d[k]);
        }
    }
}

/// Padded numerals of different numbers are different.
pub proof fn lemma_padded_numerals_differ(a: nat, b: nat, width: nat)
    requires
        zero_pad(dec(a), width) == zero_pad(dec(b), width),
    ensures
        a == b,
{
    lemma_number_of_dec(a);
    lemma_number_of_dec(b);
    if dec(a).len() < width {
        lemma_number_of_zeros((width - dec(a).len()) as nat, dec(a));
    }
    if dec(b).len() < width {
        lemma_number_of_zeros((width - dec(b).len()) as nat, dec(b));
    }
}

// ---------------------------------------------------------------------------
// Order
// ---------------------------------------------------------------------------

/// `a` comes before `b`: at the first place where they differ it has the
/// smaller character, or it ends there.
pub open spec fn before(a: Seq<char>, b: Seq<char>) -> bool
    decreases a.len(),
{
    if b.len() == 0 {
        false
    } else if a.len() == 0 {
        true
    } else if a[0] == b[0] {
        before(a.skip(1), b.skip(1))
    } else {
        (a[0] as int) < (b[0] as int)
    }
}

/// Nothing comes before itself, and of two texts one comes before the other
/// unless they are the same.
pub proof fn lemma_before_is_total(a: Seq<char>, b: Seq<char>)
    ensures
        !(before(a, b) && before(b, a)),
        a == b ==> !before(a, b),
        a != b ==> before(a, b) || before(b, a),
    decreases a.len(),
{
    if a.len() > 0 && b.len() > 0 {
        if a[0] == b[0] {
            lemma_before_is_total(a.skip(1), b.skip(1));
            if a.skip(1) == b.skip(1) {
                assert(a =~= seq![a[0]] + a.skip(1));
                assert(b =~= seq![b[0]] + b.skip(1));
                assert(a == b);
            }
        }
    } else if a.len() == 0 && b.len() == 0 {
        assert(a =~= b);
    }
}

/// What comes before something that comes before a third comes before the
/// third.
pub proof fn lemma_before_is_transitive(a: Seq<char>, b: Seq<char>, c: Seq<char>)
    requires
        before(a, b),
        before(b, c),
    ensures
        before(a, c),
    decreases a.len(),
{
    if a.len() > 0 && a[0] == b[0] && b[0] == c[0] {
        lemma_before_is_transitive(a.skip(1), b.skip(1), c.skip(1));
    }
}

/// Of two texts of the same length that differ only from some place on, the order
/// is that of the rest.
pub proof fn lemma_before_same_front(x: Seq<char>, u: Seq<char>, v: Seq<char>)
    ensures
        before(x + u, x + v) == before(u, v),
    decreases x.len(),
{
    if x.len() == 0 {
        assert(x + u =~= u);
        assert(x + v =~= v);
    } else {
        assert((x + u).skip(1) =~= x.skip(1) + u);
        assert((x + v).skip(1) =~= x.skip(1) + v);
        lemma_before_same_front(x.skip(1), u, v);
    }
}

/// What comes before another text of the same length does so whatever follows.
pub proof fn lemma_before_front(x: Seq<char>, y: Seq<char>, u: Seq<char>, v: Seq<char>)
    requires
        x.len() == y.len(),
        before(x, y),
    ensures
        before(x + u, y + v),
    decreases x.len(),
{
    if x[0] == y[0] {
        assert((x + u).skip(1) =~= x.skip(1) + u);
        assert((y + v).skip(1) =~= y.skip(1) + v);
        lemma_before_front(x.skip(1), y.skip(1), u, v);
    }
}

/// Of two texts of the same length, the order is that of what they hold without
/// their last characters, or where that is the same, of those.
proof fn lemma_before_by_last(x: Seq<char>, y: Seq<char>)
    requires
        x.len() == y.len() > 0,
        before(x, y),
    ensures
        before(x.drop_last(), y.drop_last()) || (x.drop_last() == y.drop_last() && (x.last() as int)
            < (y.last() as int)),
    decreases x.len(),
{
    if x[0] == y[0] {
        let a = x.skip(1);
        let b = y.skip(1);
        assert(before(a, b));
        if x.len() > 1 {
            lemma_before_by_last(a, b);
            assert(x.last() == a.last() && y.last() == b.last());
            assert(x.drop_last().skip(1) =~= a.drop_last());
            assert(y.drop_last().skip(1) =~= b.drop_last());
            if a.drop_last() == b.drop_last() {
                assert(x.drop_last() =~= seq![x[0]] + a.drop_last());
                assert(y.drop_last() =~= seq![y[0]] + b.drop_last());
            }
        }
    } else if x.len() == 1 {
        assert(x.drop_last() =~= y.drop_last());
    } else {
        assert(x.drop_last()[0] == x[0] && y.drop_last()[0] == y[0]);
    }
}

/// The last digit of a numeral.
proof fn lemma_number_by_last(s: Seq<char>)
    requires
        s.len() > 0,
        is_digit(s[s.len() - 1]),
    ensures
        number(s) == number(s.drop_last()) * 10 + (s.last() as int - 48),
        48 <= s.last() as int <= 57,
{
    lemma_char_code(s[s.len() - 1]);
}

/// The code of a character is the same, however it is held.
proof fn lemma_char_code(c: char)
    ensures
        c as u32 as int == c as int,
{
}

/// Numerals of the same length are ordered as their numbers are.
pub proof fn lemma_numerals_are_ordered(x: Seq<char>, y: Seq<char>)
    requires
        x.len() == y.len(),
        forall|i: int| 0 <= i < x.len() ==> is_digit(#[trigger] x[i]),
        forall|i: int| 0 <= i < y.len() ==> is_digit(#[trigger] y[i]),
        before(x, y),
    ensures
        number(x) < number(y),
    decreases x.len(),
{
    lemma_before_by_last(x, y);
    let a = x.drop_last();
    let b = y.drop_last();
    assert(is_digit(x[x.len() - 1]));
    assert(is_digit(y[y.len() - 1]));
    lemma_number_by_last(x);
    lemma_number_by_last(y);
    if before(a, b) {
        assert forall|i: int| 0 <= i < a.len() implies is_digit(#[trigger] a[i]) by {
            assert(a[i] == x[i]);
        }
        assert forall|i: int| 0 <= i < b.len() implies is_digit(#[trigger] b[i]) by {
            assert(b[i] == y[i]);
        }
        lemma_numerals_are_ordered(a, b);
    }
}

/// A field of a text: a padded numeral and what follows. Texts whose first fields
/// take the same room are ordered by the numbers, and then by what follows.
pub proof fn lemma_field_order(n: nat, m: nat, width: nat, u: Seq<char>, v: Seq<char>)
    requires
        zero_pad(dec(n), width).len() == zero_pad(dec(m), width).len(),
        n < m || (n == m && before(u, v)),
    ensures
        before(zero_pad(dec(n), width) + u, zero_pad(dec(m), width) + v),
{
    let x = zero_pad(dec(n), width);
    let y = zero_pad(dec(m), width);
    lemma_number_of_padded(n, width);
    lemma_number_of_padded(m, width);
    if n < m {
        lemma_before_is_total(x, y);
        if before(y, x) {
            lemma_numerals_are_ordered(y, x);
        }
        lemma_before_front(x, y, u, v);
    } else {
        lemma_before_same_front(x, u, v);
    }
}

/// Each text comes before those behind it.
pub open spec fn ascending(s: Seq<Seq<char>>) -> bool {
    forall|i: int, j: int| 0 <= i < j < s.len() ==> before(#[trigger] s[i], #[trigger] s[j])
}

/// A text that has `i` others in front of it in one ascending run has at least
/// as many in front of it in another that holds all of the first.
pub proof fn lemma_rank(s: Seq<Seq<char>>, t: Seq<Seq<char>>, i: int, b: int)
    requires
        ascending(s),
        ascending(t),
        forall|k: int| 0 <= k < s.len() ==> t.contains(#[trigger] s[k]),
        0 <= i < s.len(),
        0 <= b < t.len(),
        t[b] == s[i],
    ensures
        b >= i,
    decreases i,
{
    if i > 0 {
        assert(t.contains(s[i - 1]));
        let c = choose|c: int| 0 <= c < t.len() && t[c] == s[i - 1];
        lemma_rank(s, t, i - 1, c);
        assert(before(s[i - 1], s[i]));
        lemma_before_is_total(t[c], t[b]);
        if b < c {
            assert(before(t[b], t[c]));
        }
    }
}

/// Two ascending runs of the same length, one of which holds all of the other,
/// are the same.
pub proof fn lemma_ascending_is_unique(s: Seq<Seq<char>>, t: Seq<Seq<char>>)
    requires
        ascending(s),
        ascending(t),
        s.len() == t.len(),
        forall|k: int| 0 <= k < s.len() ==> t.contains(#[trigger] s[k]),
    ensures
        s == t,
    decreases s.len(),
{
    if s.len() > 0 {
        let n = s.len() - 1;
        assert(t.contains(s[n]));
        let b = choose|b: int| 0 <= b < t.len() && t[b] == s[n];
        lemma_rank(s, t, n, b);
        let s0 = s.drop_last();
        let t0 = t.drop_last();
        assert forall|k: int| 0 <= k < s0.len() implies t0.contains(#[trigger] s0[k]) by {
            assert(t.contains(s[k]));
            let c = choose|c: int| 0 <= c < t.len() && t[c] == s[k];
            assert(before(s[k], s[n]));
            lemma_before_is_total(s[n], s[n]);
            assert(t0[c] == s0[k]);
        }
        lemma_ascending_is_unique(s0, t0);
        assert(s =~= s0.push(s[n]));
        assert(t =~= t0.push(t[n]));
    }
}

/// The code of a character.
fn code(c: char) -> (r: u32)
    ensures
        r as int == c as int,
{
    c as u32
}

/// Whether `a` comes before `b`.
pub fn comes_before(a: &str, b: &str) -> (r: bool)
    ensures
        r == before(a@, b@),
{
    let x = chars_of(a);
    let y = chars_of(b);
    let mut i: usize = 0;
    proof {
        assert(a@.skip(0) =~= a@);
        assert(b@.skip(0) =~= b@);
    }
    while i < x.len() && i < y.len() && x[i] == y[i]
        invariant
            x@ == a@,
            y@ == b@,
            i <= x@.len(),
            i <= y@.len(),
            before(a@, b@) == before(a@.skip(i as int), b@.skip(i as int)),
        decreases x@.len() - i,
    {
        proof {
            assert(a@.skip(i as int).skip(1) =~= a@.skip(i + 1));
            assert(b@.skip(i as int).skip(1) =~= b@.skip(i + 1));
        }
        i = i + 1;
    }
    if i >= y.len() {
        return false;
    }
    if i >= x.len() {
        return true;
    }
    code(x[i]) < code(y[i])
}

// ---------------------------------------------------------------------------
// Laws
// ---------------------------------------------------------------------------

/// Leading white space is all that is taken off the front: what is left is the rest
/// of the text from its first character that is not white on.
proof fn lemma_trim_start(s: Seq<char>) -> (i: int)
    ensures
        0 <= i <= s.len(),
        trim_start(s) == s.skip(i),
        forall|k: int| 0 <= k < i ==> white(#[trigger] s[k]),
        i < s.len() ==> !white(s[i]),
    decreases s.len(),
{
    if s.len() > 0 && white(s[0]) {
        let j = lemma_trim_start(s.skip(1));
        assert(s.skip(1).skip(j) =~= s.skip(j + 1));
        assert forall|k: int| 0 <= k < j + 1 implies white(#[trigger] s[k]) by {
            if k > 0 {
                assert(s.skip(1)[k - 1] == s[k]);
            }
        }
        j + 1
    } else {
        assert(s.skip(0) =~= s);
        0
    }
}

/// Trailing white space is all that is taken off the end.
proof fn lemma_trim_end(s: Seq<char>) -> (j: int)
    ensures
        0 <= j <= s.len(),
        trim_end(s) == s.take(j),
        forall|k: int| j <= k < s.len() ==> white(#[trigger] s[k]),
        j > 0 ==> !white(s[j - 1]),
    decreases s.len(),
{
    if s.len() > 0 && white(s.last()) {
        let j = lemma_trim_end(s.drop_last());
        assert(s.drop_last().take(j) =~= s.take(j));
        assert forall|k: int| j <= k < s.len() implies white(#[trigger] s[k]) by {
            if k < s.len() - 1 {
                assert(s.drop_last()[k] == s[k]);
            }
        }
        j
    } else {
        assert(s.take(s.len() as int) =~= s);
        s.len() as int
    }
}

/// Trimming takes white space off both ends and nothing else: what is left stands
/// in the text, with only white space around it, and neither starts nor ends with
/// white space.
pub proof fn law_trimming_takes_white_space_off_the_ends(s: Seq<char>)
    ensures
        exists|i: int, j: int|
            {
                &&& 0 <= i <= j <= s.len()
                &&& trim(s) == #[trigger] s.subrange(i, j)
                &&& forall|k: int|
                    0 <= k < s.len() && !(i <= k < j) ==> white(#[trigger] s[k])
                &&& i < j ==> !white(s[i]) && !white(s[j - 1])
            },
{
    let i = lemma_trim_start(s);
    let rest = s.skip(i);
    let n = lemma_trim_end(rest);
    assert(rest.take(n) =~= s.subrange(i, i + n));
    assert forall|k: int| 0 <= k < s.len() && !(i <= k < i + n) implies white(
        #[trigger] s[k],
    ) by {
        if k >= i {
            assert(rest[k - i] == s[k]);
        }
    }
    assert(trim(s) == s.subrange(i, i + n));
}

/// A text is blank if and only if it is white space from end to end.
pub proof fn law_a_text_is_blank_if_it_is_white(s: Seq<char>)
    ensures
        trim(s).len() == 0 <==> forall|k: int| 0 <= k < s.len() ==> white(#[trigger] s[k]),
{
    law_trimming_takes_white_space_off_the_ends(s);
    let (i, j) = choose|i: int, j: int|
        {
            &&& 0 <= i <= j <= s.len()
            &&& trim(s) == #[trigger] s.subrange(i, j)
            &&& forall|k: int| 0 <= k < s.len() && !(i <= k < j) ==> white(#[trigger] s[k])
            &&& i < j ==> !white(s[i]) && !white(s[j - 1])
        };
    if i < j {
        assert(!white(s[i]));
    }
}

/// How often a character stands in a text.
pub open spec fn occurrences(s: Seq<char>, c: char) -> nat {
    s.to_multiset().count(c)
}

proof fn lemma_occurrences_push(s: Seq<char>, x: char, c: char)
    ensures
        occurrences(s.push(x), c) == occurrences(s, c) + (if x == c {
            1nat
        } else {
            0
        }),
{
    broadcast use vstd::multiset::group_multiset_axioms;

    vstd::seq_lib::to_multiset_build(s, x);
}

/// In a text and one that follows it a character stands as often as in both.
pub proof fn lemma_occurrences_concat(a: Seq<char>, b: Seq<char>, c: char)
    ensures
        occurrences(a + b, c) == occurrences(a, c) + occurrences(b, c),
    decreases b.len(),
{
    if b.len() == 0 {
        assert(a + b =~= a);
        lemma_no_occurrences(b, c);
    } else {
        let front = b.drop_last();
        lemma_occurrences_concat(a, front, c);
        assert(a + b =~= (a + front).push(b.last()));
        assert(b =~= front.push(b.last()));
        lemma_occurrences_push(a + front, b.last(), c);
        lemma_occurrences_push(front, b.last(), c);
    }
}

/// What stands nowhere in a text stands in it no times.
pub proof fn lemma_no_occurrences(s: Seq<char>, c: char)
    requires
        forall|i: int| 0 <= i < s.len() ==> #[trigger] s[i] != c,
    ensures
        occurrences(s, c) == 0,
{
    vstd::seq_lib::to_multiset_contains(s, c);
}

/// Where a line stands in a text: behind as many line feeds as there are lines
/// before it, right behind the last of them, and up to the next one, or to a carriage
/// return right before that, or to the end.
pub proof fn law_where_a_line_stands(s: Seq<char>, n: int)
    requires
        0 <= n < line_spans(s, 0).len(),
    ensures
        is_line(s, 0, n, line_spans(s, 0)[n].0, line_spans(s, 0)[n].1),
{
    lemma_line_spans(s, 0, n);
}

/// From `a` to `b` of the text stands a line, with `n` line feeds between `from` and
/// its start.
pub open spec fn is_line(s: Seq<char>, from: int, n: int, a: int, b: int) -> bool {
    &&& from <= a <= b <= s.len()
    &&& occurrences(s.subrange(from, a), '\n') == n
    &&& a > 0 ==> s[a - 1] == '\n'
    &&& forall|k: int| a <= k < b ==> #[trigger] s[k] != '\n'
    &&& b < s.len() ==> s[b] == '\n' || (s[b] == '\r' && b + 1 < s.len() && s[b + 1] == '\n')
    &&& 0 < b < s.len() && s[b] == '\n' ==> s[b - 1] != '\r'
}

proof fn lemma_line_spans(s: Seq<char>, from: int, n: int)
    requires
        0 <= from <= s.len(),
        from > 0 ==> s[from - 1] == '\n',
        0 <= n < line_spans(s, from).len(),
    ensures
        is_line(s, from, n, line_spans(s, from)[n].0, line_spans(s, from)[n].1),
    decreases s.len() + 1 - from,
{
    let rest = s.skip(from);
    lemma_first_index(rest, '\n');
    let k = from + first_index(rest, '\n');
    assert forall|j: int| from <= j < k implies #[trigger] s[j] != '\n' by {
        assert(rest[j - from] == s[j]);
    }
    if k < s.len() {
        assert(rest[k - from] == s[k]);
    }
    if n == 0 {
        lemma_no_occurrences(s.subrange(from, from), '\n');
    } else {
        assert(line_spans(s, from)[n] == line_spans(s, k + 1)[n - 1]);
        lemma_line_spans(s, k + 1, n - 1);
        let a = line_spans(s, from)[n].0;
        let head = s.subrange(from, k);
        lemma_no_occurrences(head, '\n');
        lemma_occurrences_push(head, '\n', '\n');
        lemma_occurrences_concat(head.push('\n'), s.subrange(k + 1, a), '\n');
        assert(s.subrange(from, a) =~= head.push('\n') + s.subrange(k + 1, a));
    }
}

/// How many lines a text has: as many as line feeds, and one more where something
/// stands behind the last of them.
pub proof fn law_how_many_lines_a_text_has(s: Seq<char>)
    ensures
        line_spans(s, 0).len() == occurrences(s, '\n') + (if s.len() > 0 && s.last() != '\n' {
            1nat
        } else {
            0
        }),
{
    lemma_line_count(s, 0);
    assert(s.skip(0) =~= s);
}

proof fn lemma_line_count(s: Seq<char>, from: int)
    requires
        0 <= from <= s.len(),
    ensures
        line_spans(s, from).len() == occurrences(s.skip(from), '\n') + (if from < s.len()
            && s.last() != '\n' {
            1nat
        } else {
            0
        }),
    decreases s.len() + 1 - from,
{
    let rest = s.skip(from);
    lemma_first_index(rest, '\n');
    let i = first_index(rest, '\n') as int;
    if from == s.len() {
        lemma_no_occurrences(rest, '\n');
    } else if i >= rest.len() {
        lemma_no_occurrences(rest, '\n');
        assert(s.last() == rest[rest.len() - 1]);
        assert(line_spans(s, from + i + 1).len() == 0);
    } else {
        let head = rest.take(i);
        lemma_line_count(s, from + i + 1);
        lemma_no_occurrences(head, '\n');
        lemma_occurrences_push(head, '\n', '\n');
        lemma_occurrences_concat(head.push('\n'), s.skip(from + i + 1), '\n');
        assert(rest =~= head.push('\n') + s.skip(from + i + 1));
        if from + i + 1 == s.len() {
            assert(s.last() == rest[i]);
        }
    }
}

/// The order of texts is that of their first difference: one comes before another
/// if and only if the other goes on where it ends, or has the larger character at the
/// first place where they differ.
pub proof fn law_texts_are_ordered_by_their_first_difference(a: Seq<char>, b: Seq<char>, k: int)
    requires
        0 <= k <= a.len(),
        k <= b.len(),
        a.take(k) == b.take(k),
        k == a.len() || k == b.len() || a[k] != b[k],
    ensures
        before(a, b) <==> k < b.len() && (k == a.len() || (a[k] as int) < (b[k] as int)),
    decreases k,
{
    if k > 0 {
        assert(a.take(k)[0] == a[0]);
        assert(b.take(k)[0] == b[0]);
        assert(a.skip(1).take(k - 1) =~= a.take(k).skip(1));
        assert(b.skip(1).take(k - 1) =~= b.take(k).skip(1));
        law_texts_are_ordered_by_their_first_difference(a.skip(1), b.skip(1), k - 1);
    }
}

/// A run of a character at the end is all that is taken off.
pub proof fn lemma_trim_end_char(s: Seq<char>, c: char) -> (j: int)
    ensures
        0 <= j <= s.len(),
        trim_end_char(s, c) == s.take(j),
        forall|k: int| j <= k < s.len() ==> #[trigger] s[k] == c,
        j > 0 ==> s[j - 1] != c,
    decreases s.len(),
{
    if s.len() > 0 && s.last() == c {
        let j = lemma_trim_end_char(s.drop_last(), c);
        assert(s.drop_last().take(j) =~= s.take(j));
        assert forall|k: int| j <= k < s.len() implies #[trigger] s[k] == c by {
            if k < s.len() - 1 {
                assert(s.drop_last()[k] == s[k]);
            }
        }
        j
    } else {
        assert(s.take(s.len() as int) =~= s);
        s.len() as int
    }
}

/// A numeral is read as the number that it writes, with a `+` in front or without; a
/// number that is too large, an empty text, and one that holds anything but digits
/// are not read.
pub proof fn law_numerals_are_read(n: nat, s: Seq<char>, i: int)
    ensures
        n <= u32::MAX ==> u32_value(dec(n)) == Some(n) && u32_value(seq!['+'] + dec(n)) == Some(n),
        n > u32::MAX ==> u32_value(dec(n)) is None,
        s.len() == 0 ==> u32_value(s) is None,
        0 <= i < s.len() && !(48 <= s[i] as u32 <= 57) && !(i == 0 && s[i] == '+') ==> u32_value(s)
            is None,
{
    let d = dec(n);
    lemma_number_of_dec(n);
    assert forall|k: int| 0 <= k < d.len() implies is_digit(#[trigger] d[k]) by {
        lemma_dec_digits(n, k);
    }
    lemma_dec_is_not_empty(n);
    assert(is_digit(d[0]));
    assert(strip_plus(d) == d) by {
        lemma_char_code('+');
    }
    let p = seq!['+'] + d;
    assert(strip_plus(p) =~= d);
    if 0 <= i < s.len() && !is_digit(s[i]) && !(i == 0 && s[i] == '+') {
        let t = strip_plus(s);
        if s[0] == '+' {
            assert(t[i - 1] == s[i]);
        } else {
            assert(t[i] == s[i]);
        }
    }
}

proof fn lemma_dec_is_not_empty(n: nat)
    ensures
        dec(n).len() > 0,
{
}

/// A text that is split and put together again is the same, and no piece holds what
/// it was split at.
pub proof fn law_what_is_split_can_be_put_together(s: Seq<char>, c: char, k: int, j: int)
    ensures
        join(split(s, c), seq![c]) == s,
        0 <= k < split(s, c).len() && 0 <= j < split(s, c)[k].len() ==> split(s, c)[k][j] != c,
        split(s, c).len() == occurrences(s, c) + 1,
    decreases s.len(),
{
    if 0 <= k < split(s, c).len() && 0 <= j < split(s, c)[k].len() {
        lemma_split_pieces(s, c, k, j);
    }
    lemma_first_index(s, c);
    let i = first_index(s, c) as int;
    if i >= s.len() {
        lemma_no_occurrences(s, c);
    } else {
        let head = s.take(i);
        let rest = s.skip(i + 1);
        law_what_is_split_can_be_put_together(rest, c, 0, 0);
        lemma_join_front(head, split(rest, c), seq![c]);
        assert(s =~= head + seq![c] + rest);
        lemma_no_occurrences(head, c);
        lemma_occurrences_push(head, c, c);
        assert(head + seq![c] =~= head.push(c));
        lemma_occurrences_concat(head.push(c), rest, c);
        assert(s =~= head.push(c) + rest);
    }
}

proof fn lemma_join_front(first: Seq<char>, rest: Seq<Seq<char>>, sep: Seq<char>)
    requires
        rest.len() > 0,
    ensures
        join(seq![first] + rest, sep) == first + sep + join(rest, sep),
    decreases rest.len(),
{
    let all = seq![first] + rest;
    assert(all.drop_last() =~= seq![first] + rest.drop_last());
    if rest.len() > 1 {
        lemma_join_front(first, rest.drop_last(), sep);
        assert(join(all, sep) =~= first + sep + join(rest, sep));
    } else {
        assert(all.drop_last() =~= seq![first]);
        assert(join(seq![first], sep) =~= first);
        assert(rest[0] == all.last());
    }
}

/// Parts that are put together follow each other, with the separator between
/// neighbours and nowhere else.
pub proof fn law_parts_are_put_together(parts: Seq<Seq<char>>, sep: Seq<char>, last: Seq<char>)
    ensures
        join(Seq::empty(), sep).len() == 0,
        join(seq![last], sep) == last,
        parts.len() > 0 ==> join(parts.push(last), sep) == join(parts, sep) + sep + last,
{
    assert(parts.push(last).drop_last() =~= parts);
}

/// Which characters are white space: the tab and the five control characters up to the
/// carriage return, the space, and the other spaces and line breaks of Unicode; and no
/// others.
pub proof fn law_which_characters_are_white(c: char)
    ensures
        white(c) <==> {
            ||| c == '\t'
            ||| c == '\n'
            ||| c == '\u{b}'
            ||| c == '\u{c}'
            ||| c == '\r'
            ||| c == ' '
            ||| c == '\u{85}'
            ||| c == '\u{a0}'
            ||| c == '\u{1680}'
            ||| '\u{2000}' <= c && c <= '\u{200a}'
            ||| c == '\u{2028}'
            ||| c == '\u{2029}'
            ||| c == '\u{202f}'
            ||| c == '\u{205f}'
            ||| c == '\u{3000}'
        },
{
}

/// Whether a text stands in another, and where first: at the smallest place at which
/// the characters of the one are those of the other.
pub proof fn law_a_text_is_found_where_it_first_stands(
    h: Vec<char>,
    p: Vec<char>,
    from: usize,
    r: Option<usize>,
    k: int,
)
    requires
        from <= h@.len(),
        call_ensures(find_chars, (&h, &p, from), r),
    ensures
        r matches Some(i) ==> from <= i && i + p@.len() <= h@.len() && h@.subrange(
            i as int,
            i + p@.len(),
        ) == p@,
        from <= k <= h@.len() - p@.len() && h@.subrange(k, k + p@.len()) == p@ ==> (
        r matches Some(i) && i <= k),
{
    lemma_find(h@, p@, from as int);
    if from <= k <= h@.len() - p@.len() && h@.subrange(k, k + p@.len()) == p@ {
        assert(matches_at(h@, p@, k));
        assert(find(h@, p@, from as int) is Some);
    }
}

} // verus!
