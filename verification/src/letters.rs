//! Letter case.

use crate::text::chars_of;
use vstd::prelude::*;

verus! {

/// What `str::to_lowercase` makes of a text.
pub uninterp spec fn unicode_lowercase(s: Seq<char>) -> Seq<char>;

/// What `str::to_uppercase` makes of a text.
pub uninterp spec fn unicode_uppercase(s: Seq<char>) -> Seq<char>;

/// Whether all characters of a text are ASCII.
pub open spec fn is_ascii_text(s: Seq<char>) -> bool {
    forall|i: int| 0 <= i < s.len() ==> (#[trigger] s[i]) as u32 <= 127
}

/// The ASCII lower case of `c`: only `A` to `Z` change.
pub open spec fn ascii_lower(c: char) -> char {
    if 65 <= c as u32 <= 90 {
        ((c as u32 + 32) as char)
    } else {
        c
    }
}

/// The ASCII upper case of `c`: only `a` to `z` change.
pub open spec fn ascii_upper(c: char) -> char {
    if 97 <= c as u32 <= 122 {
        ((c as u32 - 32) as char)
    } else {
        c
    }
}

/// A text in lower case: of ASCII text letter by letter, and otherwise what
/// the Unicode mapping makes of it.
pub open spec fn lowercase_of(s: Seq<char>) -> Seq<char> {
    if is_ascii_text(s) {
        s.map_values(|c: char| ascii_lower(c))
    } else {
        unicode_lowercase(s)
    }
}

/// A text in upper case: of ASCII text letter by letter, and otherwise what
/// the Unicode mapping makes of it.
pub open spec fn uppercase_of(s: Seq<char>) -> Seq<char> {
    if is_ascii_text(s) {
        s.map_values(|c: char| ascii_upper(c))
    } else {
        unicode_uppercase(s)
    }
}

/// Calls `str::to_lowercase`. Of ASCII text it changes the letters `A` to `Z`,
/// each to its small letter, and nothing else. The Unicode mapping of other
/// texts, which depends on the text alone, is not written out here: the result
/// is `unicode_lowercase` of the text.
#[verifier::external_body]
pub(crate) fn to_lowercase(s: &str) -> (out: String)
    ensures
        is_ascii_text(s@) ==> out@ == s@.map_values(|c: char| ascii_lower(c)),
        !is_ascii_text(s@) ==> out@ == unicode_lowercase(s@),
{
    s.to_lowercase()
}

/// Calls `str::to_uppercase`. Of ASCII text it changes the letters `a` to `z`,
/// each to its capital letter, and nothing else. The Unicode mapping of other
/// texts, which depends on the text alone, is not written out here: the result
/// is `unicode_uppercase` of the text.
#[verifier::external_body]
pub(crate) fn to_uppercase(s: &str) -> (out: String)
    ensures
        is_ascii_text(s@) ==> out@ == s@.map_values(|c: char| ascii_upper(c)),
        !is_ascii_text(s@) ==> out@ == unicode_uppercase(s@),
{
    s.to_uppercase()
}

/// Whether two texts are equal but for the case of ASCII letters.
pub open spec fn same_ignoring_ascii_case(a: Seq<char>, b: Seq<char>) -> bool {
    a.len() == b.len() && forall|i: int|
        0 <= i < a.len() ==> ascii_lower(#[trigger] a[i]) == ascii_lower(b[i])
}

/// Two texts that are equal but for the case of ASCII letters, one of which is
/// ASCII, have the same lower case and the same upper case.
pub proof fn law_ascii_case(a: Seq<char>, b: Seq<char>)
    requires
        same_ignoring_ascii_case(a, b),
        is_ascii_text(b),
    ensures
        is_ascii_text(a),
        lowercase_of(a) == lowercase_of(b),
        uppercase_of(a) == uppercase_of(b),
{
    assert forall|i: int| 0 <= i < a.len() implies (#[trigger] a[i]) as u32 <= 127
        && ascii_upper(a[i]) == ascii_upper(b[i]) by {
        assert(ascii_lower(a[i]) == ascii_lower(b[i]));
        assert(b[i] as u32 <= 127);
    }
    assert(lowercase_of(a) == lowercase_of(b));
    assert(uppercase_of(a) == uppercase_of(b));
}

/// The ASCII lower case of `c`.
fn lower_ascii(c: char) -> (out: char)
    ensures
        out == ascii_lower(c),
{
    if 65 <= c as u32 && c as u32 <= 90 {
        let u: u8 = c as u8;
        (u + 32) as char
    } else {
        c
    }
}

/// Whether two texts are equal but for the case of ASCII letters.
pub fn eq_ignore_ascii_case(a: &str, b: &str) -> (same: bool)
    ensures
        same == same_ignoring_ascii_case(a@, b@),
{
    let x = chars_of(a);
    let y = chars_of(b);
    if x.len() != y.len() {
        return false;
    }
    for i in 0..x.len()
        invariant
            x@ == a@,
            y@ == b@,
            x@.len() == y@.len(),
            forall|j: int| 0 <= j < i ==> ascii_lower(#[trigger] x@[j]) == ascii_lower(y@[j]),
    {
        if lower_ascii(x[i]) != lower_ascii(y[i]) {
            return false;
        }
    }
    true
}

} // verus!
