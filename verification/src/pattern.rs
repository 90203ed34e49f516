//! Finding, splitting and replacing one text inside another, and joining texts.

use crate::text::{chars_of, position, position_from, string_of, texts};
use vstd::prelude::*;
use vstd::slice::slice_subrange;

verus! {

/// Whether `pat` stands in `s` at index `i`.
pub open spec fn occurs_at(s: Seq<char>, pat: Seq<char>, i: int) -> bool {
    0 <= i && i + pat.len() <= s.len() && s.subrange(i, i + pat.len()) == pat
}

/// The index of the first occurrence of `pat` in `s`.
pub open spec fn find(s: Seq<char>, pat: Seq<char>) -> Option<nat>
    decreases s.len(),
{
    if s.len() < pat.len() {
        None
    } else if occurs_at(s, pat, 0) {
        Some(0)
    } else if s.len() == 0 {
        None
    } else {
        match find(s.skip(1), pat) {
            Some(i) => Some(i + 1),
            None => None,
        }
    }
}

/// Whether `pat` occurs in `s`.
pub open spec fn occurs_in(s: Seq<char>, pat: Seq<char>) -> bool {
    find(s, pat) is Some
}

/// `find` returns an occurrence, no occurrence precedes it, and it returns
/// one whenever there is one.
pub proof fn lemma_find(s: Seq<char>, pat: Seq<char>)
    ensures
        find(s, pat) matches Some(i) ==> occurs_at(s, pat, i as int) && forall|j: int|
            0 <= j < i ==> !occurs_at(s, pat, j),
        find(s, pat) is None ==> forall|j: int| !occurs_at(s, pat, j),
    decreases s.len(),
{
    if s.len() >= pat.len() && !occurs_at(s, pat, 0) && s.len() > 0 {
        let t = s.skip(1);
        lemma_find(t, pat);
        assert forall|j: int| 1 <= j implies occurs_at(s, pat, j) == occurs_at(t, pat, j - 1) by {
            if j + pat.len() <= s.len() {
                assert(s.subrange(j, j + pat.len()) == t.subrange(j - 1, j - 1 + pat.len()));
            }
        }
    }
}

/// A text contains another exactly when the other stands in it somewhere.
pub proof fn law_contains_iff_stands(s: Seq<char>, pat: Seq<char>)
    ensures
        occurs_in(s, pat) <==> exists|i: int| occurs_at(s, pat, i),
{
    lemma_find(s, pat);
    if let Some(i) = find(s, pat) {
        assert(occurs_at(s, pat, i as int));
    }
}

/// Whether `pat` stands in `v` at index `i`.
fn stands_at(v: &Vec<char>, pat: &Vec<char>, i: usize) -> (yes: bool)
    requires
        i <= v@.len(),
    ensures
        yes == occurs_at(v@, pat@, i as int),
{
    if v.len() - i < pat.len() {
        return false;
    }
    let n: usize = v.len();
    let mut k: usize = 0;
    while k < pat.len()
        invariant
            n == v@.len(),
            i + pat@.len() <= n,
            k <= pat@.len(),
            forall|j: int| 0 <= j < k ==> v@[i + j] == pat@[j],
        decreases pat@.len() - k,
    {
        if v[i + k] != pat[k] {
            assert(v@.subrange(i as int, i + pat@.len())[k as int] != pat@[k as int]);
            return false;
        }
        k = k + 1;
    }
    assert(v@.subrange(i as int, i + pat@.len()) == pat@);
    true
}

/// The index of the first occurrence of `pat` in `v` at or after `from`.
pub fn find_from(v: &Vec<char>, from: usize, pat: &Vec<char>) -> (at: Option<usize>)
    requires
        from <= v@.len(),
    ensures
        at matches Some(i) ==> from <= i && i + pat@.len() <= v@.len() && find(
            v@.skip(from as int),
            pat@,
        ) == Some((i - from) as nat),
        at is None ==> find(v@.skip(from as int), pat@) is None,
{
    let mut i: usize = from;
    let ghost s = v@.skip(from as int);
    assert(s.skip(0) == s);
    loop
        invariant
            from <= i <= v@.len(),
            s == v@.skip(from as int),
            match find(s.skip(i - from), pat@) {
                Some(k) => find(s, pat@) == Some((i - from + k) as nat),
                None => find(s, pat@) is None,
            },
        decreases v@.len() - i,
    {
        let ghost t = s.skip(i - from);
        proof {
            assert(t == v@.skip(i as int));
            if i + pat@.len() <= v@.len() {
                assert(v@.subrange(i as int, i + pat@.len()) == t.subrange(0, pat@.len() as int));
            }
        }
        if stands_at(v, pat, i) {
            assert(occurs_at(t, pat@, 0));
            return Some(i);
        }
        assert(!occurs_at(t, pat@, 0));
        if v.len() - i <= pat.len() {
            if i < v.len() {
                assert(t.skip(1).len() < pat@.len());
                assert(find(t.skip(1), pat@) is None);
            }
            assert(find(t, pat@) is None);
            return None;
        }
        assert(t.skip(1) == s.skip(i + 1 - from));
        i = i + 1;
    }
}

/// Whether `pat` occurs in `s`.
pub fn contains(s: &str, pat: &str) -> (yes: bool)
    ensures
        yes == occurs_in(s@, pat@),
{
    let v = chars_of(s);
    let p = chars_of(pat);
    assert(v@.skip(0) == v@);
    find_from(&v, 0, &p).is_some()
}

/// What stands before and after the first occurrence of `pat` in `s`.
pub open spec fn split_once_of(s: Seq<char>, pat: Seq<char>) -> Option<(Seq<char>, Seq<char>)> {
    match find(s, pat) {
        Some(i) => Some((s.take(i as int), s.skip((i + pat.len()) as int))),
        None => None,
    }
}

/// What stands after the first occurrence of `pat` in `s`.
pub fn after_first(s: &str, pat: &str) -> (out: Option<String>)
    ensures
        match out {
            Some(rest) => split_once_of(s@, pat@) matches Some(halves) && rest@ == halves.1,
            None => split_once_of(s@, pat@) is None,
        },
{
    let v = chars_of(s);
    let p = chars_of(pat);
    assert(v@.skip(0) == v@);
    match find_from(&v, 0, &p) {
        Some(i) => {
            assert(v@.len() == v.len());
            let k: usize = i + p.len();
            assert(v@.skip(k as int) == v@.subrange(k as int, v@.len() as int));
            Some(string_of(slice_subrange(v.as_slice(), k, v.len())))
        },
        None => None,
    }
}

/// What stands before the first `c` in `s`; all of `s` if it holds no `c`.
pub open spec fn before_char_of(s: Seq<char>, c: char) -> Seq<char> {
    s.take(position(s, c) as int)
}

/// What stands before the first `c` in `s`; all of `s` if it holds no `c`.
pub fn before_char(s: &str, c: char) -> (out: String)
    ensures
        out@ == before_char_of(s@, c),
{
    let v = chars_of(s);
    let p: usize = position_from(&v, 0, c);
    assert(v@.skip(0) == v@);
    assert(v@.take(p as int) == v@.subrange(0, p as int));
    string_of(slice_subrange(v.as_slice(), 0, p))
}

/// The fields of `s` between the `c`s: always one more than there are `c`s.
pub open spec fn fields_of(s: Seq<char>, c: char) -> Seq<Seq<char>>
    decreases s.len(),
{
    let p = position(s, c) as int;
    if p >= s.len() {
        seq![s]
    } else {
        seq![s.take(p)] + fields_of(s.skip(p + 1), c)
    }
}

/// The fields of `s` between the `c`s.
pub fn fields(s: &str, c: char) -> (out: Vec<String>)
    ensures
        texts(out@) == fields_of(s@, c),
{
    let v = chars_of(s);
    let mut out: Vec<String> = Vec::new();
    let mut i: usize = 0;
    assert(v@.skip(0) == v@);
    loop
        invariant
            i <= v@.len(),
            v@ == s@,
            fields_of(v@, c) == texts(out@) + fields_of(v@.skip(i as int), c),
        decreases v@.len() - i,
    {
        let p: usize = position_from(&v, i, c);
        let ghost rest = v@.skip(i as int);
        let ghost before = texts(out@);
        let field = string_of(slice_subrange(v.as_slice(), i, p));
        assert(rest.take(p - i) == v@.subrange(i as int, p as int));
        out.push(field);
        assert(texts(out@) == before + seq![field@]);
        if p == v.len() {
            assert(v@.subrange(i as int, p as int) == rest);
            return out;
        }
        assert(rest.skip(p - i + 1) == v@.skip(p + 1));
        i = p + 1;
        assert(fields_of(v@, c) == before + (seq![field@] + fields_of(v@.skip(i as int), c)));
    }
}

/// `s` with each occurrence of `pat`, taken from the left without overlap,
/// replaced by `with`.
pub open spec fn replace_of(s: Seq<char>, pat: Seq<char>, with: Seq<char>) -> Seq<char>
    decreases s.len(),
{
    match find(s, pat) {
        Some(i) => if pat.len() == 0 || i + pat.len() > s.len() {
            s
        } else {
            s.take(i as int) + with + replace_of(s.skip((i + pat.len()) as int), pat, with)
        },
        None => s,
    }
}

/// `s` with each occurrence of `pat` replaced by `with`.
pub fn replace(s: &str, pat: &str, with: &str) -> (out: String)
    requires
        pat@.len() > 0,
    ensures
        out@ == replace_of(s@, pat@, with@),
{
    let v = chars_of(s);
    let p = chars_of(pat);
    let mut out = String::new();
    let mut i: usize = 0;
    assert(v@.skip(0) == v@);
    assert(replace_of(v@, p@, with@) == out@ + replace_of(v@.skip(0), p@, with@));
    loop
        invariant
            i <= v@.len(),
            v@ == s@,
            p@ == pat@,
            p@.len() > 0,
            replace_of(v@, p@, with@) == out@ + replace_of(v@.skip(i as int), p@, with@),
        decreases v@.len() - i,
    {
        let ghost rest = v@.skip(i as int);
        let ghost before = out@;
        match find_from(&v, i, &p) {
            Some(k) => {
                out.append(string_of(slice_subrange(v.as_slice(), i, k)).as_str());
                out.append(with);
                proof {
                    assert(rest.take(k - i) == v@.subrange(i as int, k as int));
                    assert(rest.skip(k - i + p@.len()) == v@.skip(k + p@.len()));
                    let tail = replace_of(v@.skip(k + p@.len()), p@, with@);
                    assert(before + (rest.take(k - i) + with@ + tail) == out@ + tail);
                }
                assert(v@.len() == v.len());
                i = k + p.len();
            },
            None => {
                out.append(string_of(slice_subrange(v.as_slice(), i, v.len())).as_str());
                assert(v@.subrange(i as int, v@.len() as int) == rest);
                return out;
            },
        }
    }
}

/// The texts of `parts` with `sep` between neighbours.
pub open spec fn join_of(parts: Seq<Seq<char>>, sep: Seq<char>) -> Seq<char>
    decreases parts.len(),
{
    if parts.len() == 0 {
        Seq::empty()
    } else if parts.len() == 1 {
        parts[0]
    } else {
        join_of(parts.drop_last(), sep) + sep + parts.last()
    }
}

/// The texts of `parts` with `sep` between neighbours.
pub fn join(parts: &Vec<String>, sep: &str) -> (out: String)
    ensures
        out@ == join_of(texts(parts@), sep@),
{
    let mut out = String::new();
    for i in 0..parts.len()
        invariant
            out@ == join_of(texts(parts@).take(i as int), sep@),
    {
        let ghost all = texts(parts@);
        assert(all.take(i + 1).drop_last() == all.take(i as int));
        if i > 0 {
            out.append(sep);
            out.append(parts[i].as_str());
        } else {
            out.append(parts[i].as_str());
            assert(out@ == parts@[0]@);
        }
    }
    assert(texts(parts@).take(parts@.len() as int) == texts(parts@));
    out
}

/// Whether `s` starts with the character `c`.
pub fn starts_with_char(s: &str, c: char) -> (yes: bool)
    ensures
        yes == (s@.len() > 0 && s@[0] == c),
{
    let v = chars_of(s);
    v.len() > 0 && v[0] == c
}

/// Whether `s` ends with the character `c`.
pub fn ends_with_char(s: &str, c: char) -> (yes: bool)
    ensures
        yes == (s@.len() > 0 && s@.last() == c),
{
    let v = chars_of(s);
    v.len() > 0 && v[v.len() - 1] == c
}

/// Whether `s` holds the character `c`.
pub fn contains_char(s: &str, c: char) -> (yes: bool)
    ensures
        yes == s@.contains(c),
{
    let v = chars_of(s);
    let p: usize = position_from(&v, 0, c);
    assert(v@.skip(0) == v@);
    proof {
        crate::text::lemma_position(v@, c);
    }
    p < v.len()
}

} // verus!
