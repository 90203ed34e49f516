//! What the window and the command line show.

use crate::cli::{conversion_line, file_item, input_kind, plan_conversion, ConvertPlan, Input};
use crate::convert::{code_text, Exit};
use crate::display::{
    compact_parent_path, compact_path, compact_text, compacted, item_row, status_color, ItemRow,
};
use crate::info::{duration_detail_text, format_time, Span};
use crate::laws::information::law_duration_text;
use crate::laws::separating::{free_of, lemma_free};
use crate::letters::{ascii_lower, ascii_upper, eq_ignore_ascii_case, lowercase_of, uppercase_of};
use crate::media::{AudioItem, AudioKind};
use crate::number::{decimal, padded};
use crate::path::FilePath;
use crate::pattern::{law_contains_iff_stands, occurs_at, occurs_in};
use vstd::prelude::*;

verus! {

// ---------------------------------------------------------------------------
// Letters
// ---------------------------------------------------------------------------

/// The letters from `A` to `Z` and from `a` to `z` are each other's, and no
/// other character of a text changes with its case.
pub proof fn law_letters(c: char)
    ensures
        'A' <= c <= 'Z' ==> ascii_lower(c) as int - 'a' as int == c as int - 'A' as int,
        !('A' <= c <= 'Z') ==> ascii_lower(c) == c,
        'a' <= c <= 'z' ==> ascii_upper(c) as int - 'A' as int == c as int - 'a' as int,
        !('a' <= c <= 'z') ==> ascii_upper(c) == c,
{
}

/// Texts are the same but for the case of letters exactly if they are of one
/// length and character by character the same, or the capital and the small
/// letter.
pub proof fn law_same_letters(a: &str, b: &str, same: bool)
    requires
        call_ensures(eq_ignore_ascii_case, (a, b), same),
    ensures
        same <==> a@.len() == b@.len() && forall|i: int|
            0 <= i < a@.len() ==> #[trigger] a@[i] == b@[i] || ('A' <= a@[i] <= 'Z' && a@[i] as int
                + 32 == b@[i] as int) || ('a' <= a@[i] <= 'z' && a@[i] as int - 32
                == b@[i] as int),
{
    if a@.len() == b@.len() {
        assert forall|i: int| 0 <= i < a@.len() implies ((ascii_lower(#[trigger] a@[i])
            == ascii_lower(b@[i])) <==> one_letter(a@[i], b@[i])) by {
            lemma_one_letter(a@[i], b@[i]);
        }
        assert forall|i: int| 0 <= i < a@.len() implies (one_letter(#[trigger] a@[i], b@[i]) <==> (
        a@[i] == b@[i] || ('A' <= a@[i] <= 'Z' && a@[i] as int + 32 == b@[i] as int) || ('a'
            <= a@[i] <= 'z' && a@[i] as int - 32 == b@[i] as int))) by {}
    }
}

/// Whether two characters are the same, or the capital and the small letter.
spec fn one_letter(x: char, y: char) -> bool {
    x == y || ('A' <= x <= 'Z' && x as int + 32 == y as int) || ('a' <= x <= 'z' && x as int - 32
        == y as int)
}

/// Letters have the same small letter exactly if they are one letter.
proof fn lemma_one_letter(x: char, y: char)
    ensures
        ascii_lower(x) == ascii_lower(y) <==> one_letter(x, y),
{
    let a = ascii_lower(x) as int;
    let b = ascii_lower(y) as int;
    assert(a == b <==> ascii_lower(x) == ascii_lower(y));
    assert(x as int == y as int <==> x == y);
    assert(a == (if 'A' <= x <= 'Z' {
        x as int + 32
    } else {
        x as int
    }));
    assert(b == (if 'A' <= y <= 'Z' {
        y as int + 32
    } else {
        y as int
    }));
}

/// Text that holds nothing but ASCII changes its case letter by letter.
pub proof fn law_ascii_letters(s: Seq<char>, i: int)
    requires
        forall|k: int| 0 <= k < s.len() ==> (#[trigger] s[k]) as int <= 127,
        0 <= i < s.len(),
    ensures
        lowercase_of(s).len() == s.len(),
        lowercase_of(s)[i] == ascii_lower(s[i]),
        uppercase_of(s).len() == s.len(),
        uppercase_of(s)[i] == ascii_upper(s[i]),
{
    assert forall|k: int| 0 <= k < s.len() implies (#[trigger] s[k]) as u32 <= 127 by {
        lemma_low(s[k]);
    }
}

/// A character has one number.
proof fn lemma_low(c: char)
    ensures
        c as int <= 127 <==> c as u32 <= 127,
{
}

// ---------------------------------------------------------------------------
// The list of items
// ---------------------------------------------------------------------------

/// A status is green if it tells of something done, found, converted or
/// successful, else red if it tells of a failure, of something not found or of
/// an error, else yellow if something is going on, and else grey.
pub proof fn law_status_color(status: &str, color: (u8, u8, u8))
    requires
        call_ensures(status_color, (status,), color),
    ensures
        ({
            let says = |word: Seq<char>| !free_of(status@, word);
            color == (if says("已完成"@) || says("已找到"@) || says("已转换"@) || says("成功"@) {
                (74u8, 222u8, 128u8)
            } else if says("失败"@) || says("未找到"@) || says("错误"@) {
                (239u8, 68u8, 68u8)
            } else if says("处理中"@) || says("转换中"@) {
                (250u8, 204u8, 21u8)
            } else {
                (148u8, 163u8, 184u8)
            })
        }),
{
    lemma_says(status@, "已完成"@);
    lemma_says(status@, "已找到"@);
    lemma_says(status@, "已转换"@);
    lemma_says(status@, "成功"@);
    lemma_says(status@, "失败"@);
    lemma_says(status@, "未找到"@);
    lemma_says(status@, "错误"@);
    lemma_says(status@, "处理中"@);
    lemma_says(status@, "转换中"@);
}

/// A text is found in another exactly if it stands somewhere in it.
proof fn lemma_says(s: Seq<char>, word: Seq<char>)
    ensures
        occurs_in(s, word) <==> !free_of(s, word),
{
    if free_of(s, word) {
        lemma_free(s, word);
    } else {
        let i = choose|i: int|
            0 <= i && i + word.len() <= s.len() && #[trigger] s.subrange(i, i + word.len()) == word;
        law_contains_iff_stands(s, word);
        assert(occurs_at(s, word, i));
    }
}

/// Whether one text is the other in that many characters: itself if it is not
/// longer, and else its beginning and its end with three dots between, of
/// which the end is at most one character longer.
pub open spec fn shortened(text: Seq<char>, max: int, out: Seq<char>) -> bool {
    &&& text.len() <= max ==> out == text
    &&& text.len() > max && max <= 3 ==> out == seq!['.', '.', '.']
    &&& text.len() > max && max > 3 ==> exists|head: int, tail: int|
        #![trigger text.take(head), text.skip(text.len() - tail)]
        head + 3 + tail == max && head <= tail <= head + 1 && out == text.take(head) + seq![
            '.',
            '.',
            '.',
        ] + text.skip(text.len() - tail)
}

/// Shortening keeps the beginning and the end of a text.
pub proof fn law_compact_text(text: &str, max: usize, out: String)
    requires
        call_ensures(compact_text, (text, max), out),
    ensures
        shortened(text@, max as int, out@),
{
    lemma_shortened(text@, max as nat);
}

/// Shortening keeps the beginning and the end of a text.
proof fn lemma_shortened(text: Seq<char>, max: nat)
    ensures
        shortened(text, max as int, compacted(text, max)),
{
    reveal_strlit("...");
    assert("..."@ == seq!['.', '.', '.']);
    if text.len() > max && max > 3 {
        let head = ((max - 3) / 2) as int;
        let tail = max - 3 - head;
        assert(head <= tail <= head + 1);
        let _ = (text.take(head), text.skip(text.len() - tail));
    }
}

/// A path is shortened as its text, and its directory as the text of its
/// parent, if it has one.
pub proof fn law_compact_path(path: &FilePath, max: usize, out: String, dir: String)
    requires
        call_ensures(compact_path, (path, max), out),
        call_ensures(compact_parent_path, (path, max), dir),
    ensures
        shortened(path.text@, max as int, out@),
        shortened(
            if path.parent is Some {
                path.parent->0@
            } else {
                path.text@
            },
            max as int,
            dir@,
        ),
{
    lemma_shortened(path.text@, max as nat);
    if path.parent is Some {
        lemma_shortened(path.parent->0@, max as nat);
    }
}

/// A row shows the name, the extension in capital letters, the status in its
/// colour, and the directory of the audio, or of the file if there is none yet,
/// in 28 characters.
pub proof fn law_item_row(item: &AudioItem, row: ItemRow, status: &str, color: (u8, u8, u8))
    requires
        call_ensures(item_row, (item,), row),
        status@ == item.status@,
        call_ensures(status_color, (status,), color),
    ensures
        row.name@ == (if item.path@.file_name() is Some {
            item.path@.file_name()->0
        } else {
            seq![]
        }),
        row.kind@ == uppercase_of(
            if item.path@.extension() is Some {
                item.path@.extension()->0
            } else {
                seq![]
            },
        ),
        row.status@ == item.status@,
        row.color == color,
        row.media@ == (if item.process_path is Some {
            item.process_path->0@
        } else {
            item.path@
        }),
        shortened(
            if row.media.parent is Some {
                row.media.parent->0@
            } else {
                row.media.text@
            },
            28,
            row.place@,
        ),
{
    let media = crate::display::media_of(item@);
    lemma_shortened(crate::display::parent_or_self(media), 28);
    assert(row.media@.parent == media.parent);
}

// ---------------------------------------------------------------------------
// Times and codes
// ---------------------------------------------------------------------------

/// A time is shown in minutes and seconds, the seconds below sixty, each in at
/// least two digits.
pub proof fn law_format_time(minutes: u64, seconds: u64, secs: u64, text: String)
    requires
        seconds < 60,
        secs == 60 * minutes + seconds,
        call_ensures(format_time, (secs,), text),
    ensures
        text@ == padded(minutes as nat, 2) + seq![':'] + padded(seconds as nat, 2),
{
    reveal_strlit(":");
    assert(":"@ == seq![':']);
    assert(secs / 60 == minutes);
    assert(secs % 60 == seconds);
}

/// A duration is shown in hours, minutes, seconds and milliseconds.
pub proof fn law_duration_detail(
    hours: u64,
    minutes: u64,
    seconds: u64,
    span: Span,
    text: String,
)
    requires
        minutes < 60,
        seconds < 60,
        span.secs == 3600 * hours + 60 * minutes + seconds,
        call_ensures(duration_detail_text, (span,), text),
    ensures
        text@ == padded(hours as nat, 2) + seq![':'] + padded(minutes as nat, 2) + seq![':']
            + padded(seconds as nat, 2) + seq!['.'] + padded(span.millis as nat, 3),
{
    reveal_strlit(":");
    assert(":"@ == seq![':']);
    reveal_strlit(".");
    assert("."@ == seq!['.']);
    law_duration_text(hours, minutes, seconds, span);
}

/// An exit code is shown as the number that it is, and as -1 where there is
/// none.
pub proof fn law_code_text(exit: &Exit, text: String)
    requires
        call_ensures(code_text, (exit,), text),
    ensures
        text@ == (match exit.code {
            Some(code) => if code < 0 {
                seq!['-'] + decimal((-code) as nat)
            } else {
                decimal(code as nat)
            },
            None => seq!['-', '1'],
        }),
{
    if exit.code is None {
        assert(seq!['-'] + decimal(1) == seq!['-', '1']);
    }
}

// ---------------------------------------------------------------------------
// The command line
// ---------------------------------------------------------------------------

/// What is a directory is scanned, what is a file is taken alone, and what is
/// neither is missing.
pub proof fn law_input_kind(is_dir: bool, is_file: bool, kind: Input)
    requires
        call_ensures(input_kind, (is_dir, is_file), kind),
    ensures
        kind == Input::Directory <==> is_dir,
        kind == Input::File <==> !is_dir && is_file,
        kind == Input::Missing <==> !is_dir && !is_file,
{
}

/// A single file waits to be worked on. It is an NCM file exactly if that is
/// its extension, letter for letter, and has no audio then; else it is its own
/// audio.
pub proof fn law_file_item(path: &FilePath, item: AudioItem)
    requires
        call_ensures(file_item, (path,), item),
    ensures
        item.path@ == path@,
        item.status@ == "待处理"@,
        item.kind == AudioKind::Ncm <==> path@.extension() == Some("ncm"@),
        item.process_path is None <==> item.kind == AudioKind::Ncm,
        item.process_path is Some ==> item.process_path->0@ == path@,
{
}

/// Only NCM files are converted, and only with ncmdump, each into its own
/// directory; what is not converted is named with the reason.
pub proof fn law_plan_conversion(item: &AudioItem, has_ncmdump: bool, plan: ConvertPlan)
    requires
        call_ensures(plan_conversion, (item, has_ncmdump), plan),
    ensures
        plan is Convert <==> item.kind == AudioKind::Ncm && has_ncmdump,
        match plan {
            ConvertPlan::Skip(line) => line@ == (if item.kind == AudioKind::Ncm {
                "ncmdump not found, cannot convert: "@
            } else {
                "Not NCM, skip: "@
            }) + item.path.text@,
            ConvertPlan::Convert { line, out_dir } => {
                &&& line@ == "Converting: "@ + item.path.text@
                &&& out_dir@ == (if item.path.parent is Some {
                    item.path.parent->0@
                } else {
                    seq!['.']
                })
            },
        },
{
    reveal_strlit(".");
    assert("."@ == seq!['.']);
}

/// A conversion is answered by where the audio is, or by why it failed.
pub proof fn law_conversion_line(result: &Result<FilePath, String>, line: String)
    requires
        call_ensures(conversion_line, (result,), line),
    ensures
        match *result {
            Ok(path) => line@ == "  -> "@ + path.text@,
            Err(e) => line@ == "  FAIL: "@ + e@,
        },
{
}

} // verus!
