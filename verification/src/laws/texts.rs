//! Texts and numbers: how numbers are written and read, and how texts are
//! trimmed, taken apart and put together.

use crate::number::{
    all_digits, decimal, digits_value, hexadecimal, is_digit, padded, signed_decimal, u64_of,
    unsigned_digits,
};
use crate::pattern::{
    before_char_of, fields_of, find, join_of, lemma_find, occurs_at, occurs_in, replace_of,
    split_once_of,
};
use crate::text::{
    first_word_of, is_space, lemma_position, lines_of, position, trim_left, trim_right, trimmed,
    word_len,
};
use vstd::prelude::*;

verus! {

// ---------------------------------------------------------------------------
// Numbers
// ---------------------------------------------------------------------------

/// A number is written digit by digit: one digit below ten, and otherwise the
/// digits of its tens and then the last.
pub proof fn law_decimal(n: nat, d: nat)
    requires
        d < 10,
    ensures
        decimal(d).len() == 1,
        decimal(d)[0] as int == '0' as int + d,
        n > 0 ==> decimal(10 * n + d) == decimal(n) + decimal(d),
{
    if n > 0 {
        assert((10 * n + d) / 10 == n && (10 * n + d) % 10 == d);
        assert(decimal(10 * n + d) == decimal(n) + decimal(d));
    }
}

/// A number is padded with zeros in front, up to the width and no further.
pub proof fn law_padded(n: nat, w: nat)
    ensures
        ({
            let text = padded(n, w);
            let digits = decimal(n);
            let zeros = text.len() - digits.len();
            &&& zeros == (if digits.len() < w {
                w - digits.len()
            } else {
                0
            })
            &&& text.skip(zeros) == digits
            &&& forall|i: int| 0 <= i < zeros ==> #[trigger] text[i] == '0'
        }),
{
    let text = padded(n, w);
    let digits = decimal(n);
    let zeros = text.len() - digits.len();
    assert(text.skip(zeros) == digits);
}

/// A negative number is written as its opposite behind a minus sign.
pub proof fn law_signed(n: int)
    ensures
        n >= 0 ==> signed_decimal(n) == decimal(n as nat),
        n < 0 ==> signed_decimal(n) == "-"@ + decimal((-n) as nat),
{
    reveal_strlit("-");
    assert("-"@ == seq!['-']);
}

/// A number is written in hexadecimal digit by digit, in small letters.
pub proof fn law_hexadecimal(n: nat, d: nat)
    requires
        d < 16,
    ensures
        hexadecimal(d).len() == 1,
        d < 10 ==> hexadecimal(d)[0] as int == '0' as int + d,
        d >= 10 ==> hexadecimal(d)[0] as int == 'a' as int + (d - 10),
        n > 0 ==> hexadecimal(16 * n + d) == hexadecimal(n) + hexadecimal(d),
{
    if n > 0 {
        assert((16 * n + d) / 16 == n && (16 * n + d) % 16 == d);
        assert(hexadecimal(16 * n + d) == hexadecimal(n) + hexadecimal(d));
    }
}

/// A number is read digit by digit, as long as it fits into 64 bits; what is
/// empty, or holds anything but digits, is no number.
pub proof fn law_read_number(s: Seq<char>, c: char)
    requires
        s.len() > 0 ==> s[0] != '+',
        c != '+',
    ensures
        ('0' as int) <= (c as int) <= ('9' as int) ==> u64_of(seq![c]) == Some(
            (c as int - '0' as int) as u64,
        ),
        u64_of(s) is Some && ('0' as int) <= (c as int) <= ('9' as int) ==> ({
            let value = 10 * u64_of(s)->0 + (c as int - '0' as int);
            u64_of(s.push(c)) == (if value <= u64::MAX {
                Some(value as u64)
            } else {
                None
            })
        }),
        !(('0' as int) <= (c as int) <= ('9' as int)) ==> u64_of(s.push(c)) is None,
        s.len() > 0 && u64_of(s) is None ==> u64_of(s.push(c)) is None,
        u64_of(Seq::<char>::empty()) is None,
{
    let t = s.push(c);
    let one = seq![c];
    assert(t.drop_last() == s);
    assert(one.drop_last() == Seq::<char>::empty());
    assert(digits_value(Seq::<char>::empty()) == 0);
    assert(digits_value(t) == 10 * digits_value(s) + (c as u32 - 48) as nat);
    assert(digits_value(one) == (c as u32 - 48) as nat);
    assert(unsigned_digits(t) == t) by {
        if s.len() > 0 {
            assert(t[0] == s[0]);
        }
    }
    assert(unsigned_digits(s) == s);
    assert(unsigned_digits(one) == one);
    if u64_of(s) is Some && ('0' as int) <= (c as int) <= ('9' as int) {
        assert(all_digits(t));
    }
    if !(('0' as int) <= (c as int) <= ('9' as int)) {
        assert(t[s.len() as int] == c);
        assert(!is_digit(t[s.len() as int]));
        assert(!all_digits(t));
    }
    if s.len() > 0 && u64_of(s) is None && all_digits(t) {
        assert forall|i: int| 0 <= i < s.len() implies is_digit(#[trigger] s[i]) by {
            assert(is_digit(t[i]));
        }
        assert(digits_value(s) > u64::MAX);
    }
}

/// One plus sign may stand in front of a number, and nothing else but digits.
pub proof fn law_read_plus(s: Seq<char>)
    ensures
        s.len() > 0 && s[0] != '+' ==> u64_of(seq!['+'] + s) == u64_of(s),
        s.len() == 0 || s[0] == '+' ==> u64_of(seq!['+'] + s) is None,
{
    let t = seq!['+'] + s;
    assert(t.skip(1) == s);
    assert(unsigned_digits(t) == s);
    if s.len() > 0 && s[0] == '+' {
        assert(!is_digit(s[0]));
        assert(!all_digits(s));
    }
}

// ---------------------------------------------------------------------------
// White space
// ---------------------------------------------------------------------------

/// White space is the tab, the blank, the ends of lines, pages and paragraphs,
/// and the blanks of the several widths that do and do not break a line.
pub proof fn law_white_space(c: char)
    ensures
        is_space(c) <==> c == '\t' || c == '\n' || c == '\u{b}' || c == '\u{c}' || c == '\r' || c
            == ' ' || c == '\u{85}' || c == '\u{a0}' || c == '\u{1680}' || '\u{2000}' <= c
            <= '\u{200a}' || c == '\u{2028}' || c == '\u{2029}' || c == '\u{202f}' || c
            == '\u{205f}' || c == '\u{3000}',
{
}

/// What is trimmed from a text is the white space at its two ends, all of it
/// and nothing else.
pub proof fn law_trimmed(s: Seq<char>)
    ensures
        exists|i: int, j: int|
            #![trigger s.subrange(i, j)]
            0 <= i <= j <= s.len() && trimmed(s) == s.subrange(i, j) && (forall|k: int|
                0 <= k < i || j <= k < s.len() ==> is_space(#[trigger] s[k])) && (i < j
                ==> !is_space(s[i]) && !is_space(s[j - 1])),
{
    let i = lemma_left(s);
    let a = trim_left(s);
    let j = lemma_right(a);
    assert(s.subrange(i, i + j) == trimmed(s));
    assert forall|k: int| 0 <= k < i || i + j <= k < s.len() implies is_space(#[trigger] s[k]) by {
        if k >= i {
            assert(a[k - i] == s[k]);
        }
    }
    if 0 < j {
        assert(a[j - 1] == s[i + j - 1]);
        assert(a[0] == s[i]);
    }
}

/// What is dropped in front is white space, and what is left starts without.
proof fn lemma_left(s: Seq<char>) -> (i: int)
    ensures
        0 <= i <= s.len(),
        trim_left(s) == s.skip(i),
        forall|k: int| 0 <= k < i ==> is_space(#[trigger] s[k]),
        i < s.len() ==> !is_space(s[i]),
    decreases s.len(),
{
    if s.len() > 0 && is_space(s[0]) {
        let t = s.skip(1);
        let i = lemma_left(t);
        assert(t.skip(i) == s.skip(i + 1));
        assert forall|k: int| 0 <= k < i + 1 implies is_space(#[trigger] s[k]) by {
            if k > 0 {
                assert(t[k - 1] == s[k]);
            }
        }
        i + 1
    } else {
        assert(s.skip(0) == s);
        0
    }
}

/// What is dropped behind is white space, and what is left ends without.
proof fn lemma_right(s: Seq<char>) -> (j: int)
    ensures
        0 <= j <= s.len(),
        trim_right(s) == s.take(j),
        forall|k: int| j <= k < s.len() ==> is_space(#[trigger] s[k]),
        0 < j ==> !is_space(s[j - 1]),
    decreases s.len(),
{
    if s.len() > 0 && is_space(s.last()) {
        let t = s.drop_last();
        let j = lemma_right(t);
        assert(t.take(j) == s.take(j));
        assert forall|k: int| j <= k < s.len() implies is_space(#[trigger] s[k]) by {
            if k < t.len() {
                assert(t[k] == s[k]);
            }
        }
        j
    } else {
        assert(s.take(s.len() as int) == s);
        s.len() as int
    }
}

/// The first word of a text stands behind white space and ends at white space
/// or with the text; a text of white space has none.
pub proof fn law_first_word(blank: Seq<char>, word: Seq<char>, rest: Seq<char>)
    requires
        forall|i: int| 0 <= i < blank.len() ==> is_space(#[trigger] blank[i]),
        forall|i: int| 0 <= i < word.len() ==> !is_space(#[trigger] word[i]),
        word.len() > 0,
        rest.len() > 0 ==> is_space(rest[0]),
    ensures
        first_word_of(blank + word + rest) == Some(word),
        first_word_of(blank) is None,
{
    lemma_blank(blank, word + rest);
    lemma_blank(blank, Seq::empty());
    assert(blank + word + rest == blank + (word + rest));
    assert(blank + Seq::<char>::empty() == blank);
    lemma_word(word, rest);
    assert((word + rest)[0] == word[0]);
    assert((word + rest).take(word.len() as int) == word);
}

/// White space in front of a text that starts otherwise is dropped.
proof fn lemma_blank(blank: Seq<char>, rest: Seq<char>)
    requires
        forall|i: int| 0 <= i < blank.len() ==> is_space(#[trigger] blank[i]),
        rest.len() > 0 ==> !is_space(rest[0]),
    ensures
        trim_left(blank + rest) == rest,
    decreases blank.len(),
{
    if blank.len() > 0 {
        let less = blank.skip(1);
        assert forall|i: int| 0 <= i < less.len() implies is_space(#[trigger] less[i]) by {
            assert(less[i] == blank[i + 1]);
        }
        lemma_blank(less, rest);
        assert((blank + rest)[0] == blank[0]);
        assert((blank + rest).skip(1) == less + rest);
    } else {
        assert(blank + rest == rest);
    }
}

/// A word is as long as it goes on without white space.
proof fn lemma_word(word: Seq<char>, rest: Seq<char>)
    requires
        forall|i: int| 0 <= i < word.len() ==> !is_space(#[trigger] word[i]),
        rest.len() > 0 ==> is_space(rest[0]),
    ensures
        word_len(word + rest) == word.len(),
    decreases word.len(),
{
    if word.len() > 0 {
        let less = word.skip(1);
        assert forall|i: int| 0 <= i < less.len() implies !is_space(#[trigger] less[i]) by {
            assert(less[i] == word[i + 1]);
        }
        lemma_word(less, rest);
        assert((word + rest)[0] == word[0]);
        assert((word + rest).skip(1) == less + rest);
    } else {
        assert(word + rest == rest);
    }
}

// ---------------------------------------------------------------------------
// Parts of texts
// ---------------------------------------------------------------------------

/// The place of the first of a character that is not in front.
proof fn lemma_first_place(a: Seq<char>, b: Seq<char>, c: char)
    requires
        !a.contains(c),
    ensures
        position(a + seq![c] + b, c) == a.len(),
        position(a, c) == a.len(),
{
    let s = a + seq![c] + b;
    lemma_position(s, c);
    lemma_position(a, c);
    let p = position(s, c) as int;
    assert(s[a.len() as int] == c);
    if p < a.len() {
        assert(a[p] == s[p]);
        assert(a.contains(c));
    }
    let q = position(a, c) as int;
    if q < a.len() {
        assert(a[q] == c);
        assert(a.contains(c));
    }
}

/// A text is taken apart into its lines at the ends of lines, each with or
/// without a carriage return; the last line needs no end.
pub proof fn law_lines(line: Seq<char>, rest: Seq<char>)
    requires
        !line.contains('\n'),
    ensures
        lines_of(line + "\n"@ + rest) == seq![
            if line.len() > 0 && line.last() == '\r' {
                line.drop_last()
            } else {
                line
            },
        ] + lines_of(rest),
        line.len() > 0 ==> lines_of(line) == seq![line],
        lines_of(Seq::<char>::empty()) == Seq::<Seq<char>>::empty(),
{
    reveal_strlit("\n");
    assert("\n"@ == seq!['\n']);
    let s = line + "\n"@ + rest;
    lemma_first_place(line, rest, '\n');
    assert(s.take(line.len() as int) == line);
    assert(s.skip(line.len() as int + 1) == rest);
}

/// What stands before the first of a character, and the fields between those
/// characters.
pub proof fn law_fields(field: Seq<char>, rest: Seq<char>, c: char)
    requires
        !field.contains(c),
    ensures
        before_char_of(field + seq![c] + rest, c) == field,
        before_char_of(field, c) == field,
        fields_of(field + seq![c] + rest, c) == seq![field] + fields_of(rest, c),
        fields_of(field, c) == seq![field],
{
    let s = field + seq![c] + rest;
    lemma_first_place(field, rest, c);
    assert(s.take(field.len() as int) == field);
    assert(s.skip(field.len() as int + 1) == rest);
    assert(field.take(field.len() as int) == field);
}

/// Whether the first place at which a text stands in another is the one behind
/// `before`.
pub open spec fn first_behind(before: Seq<char>, pat: Seq<char>, after: Seq<char>) -> bool {
    forall|i: int|
        0 <= i < before.len() ==> (#[trigger] (before + pat + after).subrange(i, i + pat.len()))
            != pat
}

/// The first place of a text in another is found.
proof fn lemma_first_found(before: Seq<char>, pat: Seq<char>, after: Seq<char>)
    requires
        first_behind(before, pat, after),
    ensures
        find(before + pat + after, pat) == Some(before.len()),
{
    let s = before + pat + after;
    lemma_find(s, pat);
    assert(s.subrange(before.len() as int, (before.len() + pat.len()) as int) == pat);
    assert(occurs_at(s, pat, before.len() as int));
    let i = find(s, pat)->0;
    if i < before.len() {
        assert(s.subrange(i as int, (i + pat.len()) as int) != pat);
    }
}

/// A text is split at the first place of another: into what stands before it
/// and what stands after it.
pub proof fn law_split_once(before: Seq<char>, pat: Seq<char>, after: Seq<char>)
    requires
        first_behind(before, pat, after),
    ensures
        split_once_of(before + pat + after, pat) == Some((before, after)),
        occurs_in(before + pat + after, pat),
{
    lemma_first_found(before, pat, after);
    let s = before + pat + after;
    assert(s.take(before.len() as int) == before);
    assert(s.skip((before.len() + pat.len()) as int) == after);
}

/// A text in which another stands nowhere is not split, and nothing is
/// replaced in it.
pub proof fn law_not_split(s: Seq<char>, pat: Seq<char>, with: Seq<char>)
    requires
        forall|i: int|
            0 <= i && i + pat.len() <= s.len() ==> (#[trigger] s.subrange(i, i + pat.len())) != pat,
    ensures
        split_once_of(s, pat) is None,
        !occurs_in(s, pat),
        replace_of(s, pat, with) == s,
{
    lemma_find(s, pat);
    if let Some(i) = find(s, pat) {
        assert(s.subrange(i as int, (i + pat.len()) as int) == pat);
    }
}

/// A text is replaced wherever it stands, from the left: what stands before its
/// first place is kept, and what stands after it is gone through in the same
/// way.
pub proof fn law_replaced(before: Seq<char>, pat: Seq<char>, after: Seq<char>, with: Seq<char>)
    requires
        pat.len() > 0,
        first_behind(before, pat, after),
    ensures
        replace_of(before + pat + after, pat, with) == before + with + replace_of(
            after,
            pat,
            with,
        ),
{
    lemma_first_found(before, pat, after);
    let s = before + pat + after;
    assert(s.take(before.len() as int) == before);
    assert(s.skip((before.len() + pat.len()) as int) == after);
}

/// Texts are put together in order, with the separator between two and nowhere
/// else.
pub proof fn law_join(parts: Seq<Seq<char>>, last: Seq<char>, sep: Seq<char>)
    ensures
        join_of(Seq::empty(), sep) == Seq::<char>::empty(),
        join_of(seq![last], sep) == last,
        parts.len() > 0 ==> join_of(parts.push(last), sep) == join_of(parts, sep) + sep + last,
{
    assert(parts.push(last).drop_last() == parts);
}

/// Lists run together end with the last.
pub proof fn lemma_last_run_together<A>(lists: Seq<Seq<A>>)
    requires
        lists.len() > 0,
    ensures
        lists.flatten() == lists.drop_last().flatten() + lists.last(),
    decreases lists.len(),
{
    if lists.len() == 1 {
        assert(lists.drop_first().len() == 0);
        assert(lists.drop_last().len() == 0);
        assert(lists.drop_first().flatten() == Seq::<A>::empty());
        assert(lists.flatten() == lists.first() + Seq::<A>::empty());
        assert(lists.drop_last().flatten() == Seq::<A>::empty());
        assert(lists.flatten() == Seq::<A>::empty() + lists.last());
    } else {
        lemma_last_run_together(lists.drop_first());
        assert(lists.drop_first().drop_last() == lists.drop_last().drop_first());
        assert(lists.drop_last().first() == lists.first());
        assert(lists.drop_first().last() == lists.last());
        assert(lists.flatten() == lists.first() + (lists.drop_last().drop_first().flatten()
            + lists.last()));
        assert(lists.drop_last().flatten() == lists.first()
            + lists.drop_last().drop_first().flatten());
    }
}

} // verus!
