//! Text as a sequence of characters: the operations that every other module
//! builds on, each stated by a short recursive function over `Seq<char>`.

use vstd::prelude::*;
use vstd::slice::slice_subrange;
use vstd::utf8::{decode_utf8, valid_utf8};

verus! {

// ---------------------------------------------------------------------------
// Characters and strings
// ---------------------------------------------------------------------------

/// `String::push` of the standard library: the character is appended.
pub assume_specification[ String::push ](s: &mut String, c: char)
    ensures
        final(s)@ == old(s)@.push(c),
;

/// The characters of `s`, in order.
pub fn chars_of(s: &str) -> (out: Vec<char>)
    ensures
        out@ == s@,
{
    let mut out: Vec<char> = Vec::new();
    for c in it: s.chars()
        invariant
            out@ == it.seq().take(it.index()),
            it.seq() == s@,
    {
        out.push(c);
    }
    out
}

/// The string that holds exactly `chars`.
pub fn string_of(chars: &[char]) -> (out: String)
    ensures
        out@ == chars@,
{
    let mut out = String::new();
    let n: usize = chars.len();
    for i in 0..n
        invariant
            n == chars@.len(),
            out@ == chars@.take(i as int),
    {
        out.push(chars[i]);
    }
    out
}

/// Whether two texts hold the same characters.
pub fn same_text(a: &str, b: &str) -> (same: bool)
    ensures
        same == (a@ == b@),
{
    let x: String = a.to_owned();
    let y: String = b.to_owned();
    x == y
}

/// The texts of a list of strings.
pub open spec fn texts(list: Seq<String>) -> Seq<Seq<char>> {
    list.map_values(|s: String| s@)
}

/// The text of an optional string.
pub open spec fn text_opt(s: Option<String>) -> Option<Seq<char>> {
    match s {
        Some(t) => Some(t@),
        None => None,
    }
}

/// A copy of a list of strings.
pub fn copy_texts(list: &Vec<String>) -> (out: Vec<String>)
    ensures
        texts(out@) == texts(list@),
{
    let mut out: Vec<String> = Vec::new();
    for i in 0..list.len()
        invariant
            texts(out@) == texts(list@).take(i as int),
    {
        out.push(list[i].clone());
        assert(texts(out@) == texts(list@).take(i as int).push(list@[i as int]@));
        assert(texts(list@).take(i + 1) == texts(list@).take(i as int).push(list@[i as int]@));
    }
    assert(texts(list@).take(list@.len() as int) == texts(list@));
    out
}

/// A copy of an optional string.
pub fn copy_opt(s: &Option<String>) -> (out: Option<String>)
    ensures
        text_opt(out) == text_opt(*s),
{
    match s {
        Some(t) => Some(t.clone()),
        None => None,
    }
}

/// The text that `String::from_utf8_lossy` makes of bytes.
pub uninterp spec fn lossy_text(bytes: Seq<u8>) -> Seq<char>;

/// Calls `String::from_utf8_lossy`. Bytes that are UTF-8 are decoded; how
/// other bytes are replaced depends on the bytes alone and is not written out:
/// the result is `lossy_text` of the bytes.
#[verifier::external_body]
pub(crate) fn decode_lossy(bytes: &[u8]) -> (text: String)
    ensures
        text@ == lossy_text(bytes@),
        valid_utf8(bytes@) ==> text@ == decode_utf8(bytes@),
{
    String::from_utf8_lossy(bytes).into_owned()
}

/// Whether a list of texts holds `wanted`.
pub fn has_text(list: &Vec<&'static str>, wanted: &str) -> (found: bool)
    ensures
        found == list.deep_view().contains(wanted@),
{
    for i in 0..list.len()
        invariant
            forall|j: int| 0 <= j < i ==> #[trigger] list.deep_view()[j] != wanted@,
    {
        if same_text(list[i], wanted) {
            assert(list.deep_view()[i as int] == wanted@);
            return true;
        }
    }
    false
}

// ---------------------------------------------------------------------------
// White space
// ---------------------------------------------------------------------------

/// The characters with the Unicode property `White_Space`.
pub open spec fn is_space(c: char) -> bool {
    let u = c as u32;
    ||| 0x9 <= u <= 0xd
    ||| u == 0x20
    ||| u == 0x85
    ||| u == 0xa0
    ||| u == 0x1680
    ||| 0x2000 <= u <= 0x200a
    ||| u == 0x2028
    ||| u == 0x2029
    ||| u == 0x202f
    ||| u == 0x205f
    ||| u == 0x3000
}

/// Whether `c` is white space.
pub fn space(c: char) -> (yes: bool)
    ensures
        yes == is_space(c),
{
    let u: u32 = c as u32;
    (0x9 <= u && u <= 0xd) || u == 0x20 || u == 0x85 || u == 0xa0 || u == 0x1680 || (0x2000 <= u
        && u <= 0x200a) || u == 0x2028 || u == 0x2029 || u == 0x202f || u == 0x205f || u == 0x3000
}

/// `s` without its leading white space.
pub open spec fn trim_left(s: Seq<char>) -> Seq<char>
    decreases s.len(),
{
    if s.len() > 0 && is_space(s[0]) {
        trim_left(s.skip(1))
    } else {
        s
    }
}

/// `s` without its trailing white space.
pub open spec fn trim_right(s: Seq<char>) -> Seq<char>
    decreases s.len(),
{
    if s.len() > 0 && is_space(s.last()) {
        trim_right(s.drop_last())
    } else {
        s
    }
}

/// `s` without the white space at both ends.
pub open spec fn trimmed(s: Seq<char>) -> Seq<char> {
    trim_right(trim_left(s))
}

/// What `trim_left` leaves is the end of the text, and starts without white
/// space.
proof fn lemma_trim_left(s: Seq<char>)
    ensures
        trim_left(s).len() <= s.len(),
        trim_left(s) == s.skip(s.len() - trim_left(s).len()),
        trim_left(s).len() > 0 ==> !is_space(trim_left(s)[0]),
    decreases s.len(),
{
    if s.len() > 0 && is_space(s[0]) {
        lemma_trim_left(s.skip(1));
        let n = trim_left(s).len();
        assert(s.skip(1).skip(s.len() - 1 - n) == s.skip(s.len() - n));
    } else {
        assert(s.skip(0) == s);
    }
}

/// What `trim_right` leaves is the beginning of the text, and ends without
/// white space.
proof fn lemma_trim_right(s: Seq<char>)
    ensures
        trim_right(s).len() <= s.len(),
        trim_right(s) == s.take(trim_right(s).len() as int),
        trim_right(s).len() > 0 ==> !is_space(trim_right(s).last()),
    decreases s.len(),
{
    if s.len() > 0 && is_space(s.last()) {
        lemma_trim_right(s.drop_last());
        let n = trim_right(s).len() as int;
        assert(s.drop_last().take(n) == s.take(n));
    } else {
        assert(s.take(s.len() as int) == s);
    }
}

/// Trimming a second time changes nothing, and adds no character.
pub proof fn lemma_trimmed(s: Seq<char>)
    ensures
        trimmed(trimmed(s)) == trimmed(s),
        trimmed(s).len() > 0 ==> !is_space(trimmed(s)[0]) && !is_space(trimmed(s).last()),
        forall|c: char| #[trigger] trimmed(s).contains(c) ==> s.contains(c),
{
    let a = trim_left(s);
    let t = trim_right(a);
    lemma_trim_left(s);
    lemma_trim_right(a);
    if t.len() > 0 {
        assert(t[0] == a[0]);
        assert(trim_left(t) == t);
        assert(trim_right(t) == t);
    }
    assert forall|c: char| #[trigger] trimmed(s).contains(c) implies s.contains(c) by {
        let i = choose|i: int| 0 <= i < t.len() && t[i] == c;
        assert(a[i] == c);
        assert(s[i + s.len() - a.len()] == c);
    }
}

/// The number of leading characters to drop for `trim_left`.
fn left_margin(v: &Vec<char>) -> (i: usize)
    ensures
        i <= v@.len(),
        trim_left(v@) == v@.skip(i as int),
{
    let mut i: usize = 0;
    assert(v@.skip(0) == v@);
    while i < v.len() && space(v[i])
        invariant
            i <= v@.len(),
            trim_left(v@) == trim_left(v@.skip(i as int)),
        decreases v@.len() - i,
    {
        assert(v@.skip(i as int).skip(1) == v@.skip(i + 1));
        i = i + 1;
    }
    i
}

/// `s` without the white space at both ends.
pub fn trim(s: &str) -> (out: String)
    ensures
        out@ == trimmed(s@),
{
    let v = chars_of(s);
    let i: usize = left_margin(&v);
    let mut j: usize = v.len();
    assert(v@.skip(i as int) == v@.subrange(i as int, j as int));
    while j > i && space(v[j - 1])
        invariant
            i <= j <= v@.len(),
            trimmed(v@) == trim_right(v@.subrange(i as int, j as int)),
        decreases j,
    {
        assert(v@.subrange(i as int, j as int).drop_last() == v@.subrange(i as int, j - 1));
        j = j - 1;
    }
    string_of(slice_subrange(v.as_slice(), i, j))
}

/// The length of the leading run of characters that are not white space.
pub open spec fn word_len(s: Seq<char>) -> nat
    decreases s.len(),
{
    if s.len() > 0 && !is_space(s[0]) {
        1 + word_len(s.skip(1))
    } else {
        0
    }
}

/// The first word of `s`, words being separated by white space.
pub open spec fn first_word_of(s: Seq<char>) -> Option<Seq<char>> {
    let t = trim_left(s);
    if t.len() == 0 {
        None
    } else {
        Some(t.take(word_len(t) as int))
    }
}

/// The first word of `s`, words being separated by white space.
pub fn first_word(s: &str) -> (out: Option<String>)
    ensures
        text_opt(out) == first_word_of(s@),
{
    let v = chars_of(s);
    let i: usize = left_margin(&v);
    if i == v.len() {
        return None;
    }
    let ghost t = v@.skip(i as int);
    let mut j: usize = i;
    assert(t.skip(0) == t);
    while j < v.len() && !space(v[j])
        invariant
            i <= j <= v@.len(),
            t == v@.skip(i as int),
            word_len(t) == (j - i) + word_len(t.skip(j - i)),
        decreases v@.len() - j,
    {
        assert(t.skip(j - i)[0] == v@[j as int]);
        assert(t.skip(j - i).skip(1) == t.skip(j + 1 - i));
        j = j + 1;
    }
    assert(t.take(j - i) == v@.subrange(i as int, j as int));
    Some(string_of(slice_subrange(v.as_slice(), i, j)))
}

// ---------------------------------------------------------------------------
// Lines
// ---------------------------------------------------------------------------

/// The index of the first `c` in `s`, or the length of `s` if there is none.
pub open spec fn position(s: Seq<char>, c: char) -> nat
    decreases s.len(),
{
    if s.len() == 0 || s[0] == c {
        0
    } else {
        1 + position(s.skip(1), c)
    }
}

/// `position` is a bound and separates what precedes the first `c` from it.
pub proof fn lemma_position(s: Seq<char>, c: char)
    ensures
        position(s, c) <= s.len(),
        position(s, c) < s.len() ==> s[position(s, c) as int] == c,
        forall|i: int| 0 <= i < position(s, c) ==> s[i] != c,
    decreases s.len(),
{
    if s.len() > 0 && s[0] != c {
        lemma_position(s.skip(1), c);
        assert forall|i: int| 0 <= i < position(s, c) implies s[i] != c by {
            if i > 0 {
                assert(s[i] == s.skip(1)[i - 1]);
            }
        }
    }
}

/// The index of the first `c` of `v` at or after `from`, or the length of `v`.
pub fn position_from(v: &Vec<char>, from: usize, c: char) -> (at: usize)
    requires
        from <= v@.len(),
    ensures
        from <= at <= v@.len(),
        at - from == position(v@.skip(from as int), c),
{
    let mut i: usize = from;
    let ghost s = v@.skip(from as int);
    assert(s.skip(0) == s);
    while i < v.len() && v[i] != c
        invariant
            from <= i <= v@.len(),
            s == v@.skip(from as int),
            position(s, c) == (i - from) + position(s.skip(i - from), c),
        decreases v@.len() - i,
    {
        assert(s.skip(i - from)[0] == v@[i as int]);
        assert(s.skip(i - from).skip(1) == s.skip(i + 1 - from));
        i = i + 1;
    }
    if i < v.len() {
        assert(s.skip(i - from)[0] == v@[i as int]);
    }
    i
}

/// A line without the carriage return that ends it.
pub open spec fn strip_cr(line: Seq<char>) -> Seq<char> {
    if line.len() > 0 && line.last() == '\r' {
        line.drop_last()
    } else {
        line
    }
}

/// The lines of `s`: each ends at a line feed, which with a carriage return
/// before it is no part of the line; the last one needs no line feed.
pub open spec fn lines_of(s: Seq<char>) -> Seq<Seq<char>>
    decreases s.len(),
{
    if s.len() == 0 {
        Seq::empty()
    } else {
        let p = position(s, '\n') as int;
        if p >= s.len() {
            seq![s]
        } else {
            seq![strip_cr(s.take(p))] + lines_of(s.skip(p + 1))
        }
    }
}

/// The lines of `s`.
pub fn lines(s: &str) -> (out: Vec<String>)
    ensures
        texts(out@) == lines_of(s@),
{
    let v = chars_of(s);
    let mut out: Vec<String> = Vec::new();
    let mut i: usize = 0;
    assert(v@.skip(0) == v@);
    while i < v.len()
        invariant
            i <= v@.len(),
            lines_of(v@) == texts(out@) + lines_of(v@.skip(i as int)),
        decreases v@.len() - i,
    {
        let p: usize = position_from(&v, i, '\n');
        let ghost rest = v@.skip(i as int);
        if p == v.len() {
            let line = string_of(slice_subrange(v.as_slice(), i, p));
            assert(v@.subrange(i as int, p as int) == rest);
            assert(lines_of(rest) == seq![rest]);
            let ghost before = texts(out@);
            out.push(line);
            assert(texts(out@) == before + seq![rest]);
            assert(lines_of(v@.skip(p as int)) == Seq::<Seq<char>>::empty());
            i = p;
        } else {
            let mut e: usize = p;
            if p > i && v[p - 1] == '\r' {
                e = p - 1;
            }
            let line = string_of(slice_subrange(v.as_slice(), i, e));
            proof {
                assert(rest.take(p - i) == v@.subrange(i as int, p as int));
                assert(strip_cr(rest.take(p - i)) == v@.subrange(i as int, e as int));
                assert(rest.skip(p - i + 1) == v@.skip(p + 1));
            }
            let ghost before = texts(out@);
            out.push(line);
            assert(texts(out@) == before + seq![line@]);
            i = p + 1;
            assert(lines_of(v@) == before + (seq![line@] + lines_of(v@.skip(i as int))));
        }
    }
    assert(lines_of(v@.skip(i as int)) == Seq::<Seq<char>>::empty());
    out
}

} // verus!
