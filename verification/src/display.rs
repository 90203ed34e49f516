//! How things look in the window: colours and shortened texts.

use crate::letters::{to_uppercase, uppercase_of};
use crate::media::{AudioItem, ItemView};
use crate::path::{FilePath, PathView};
use crate::pattern::{contains, occurs_in};
use crate::scan::ext_or_empty;
use crate::text::{chars_of, string_of};
use vstd::prelude::*;
use vstd::slice::slice_subrange;

verus! {

/// The colour of a status: green for what went well, red for what failed,
/// yellow for what is going on, grey for the rest. The first that applies
/// counts.
pub open spec fn color_of(status: Seq<char>) -> (u8, u8, u8) {
    if occurs_in(status, "已完成"@) || occurs_in(status, "已找到"@) || occurs_in(
        status,
        "已转换"@,
    ) || occurs_in(status, "成功"@) {
        (74, 222, 128)
    } else if occurs_in(status, "失败"@) || occurs_in(status, "未找到"@) || occurs_in(
        status,
        "错误"@,
    ) {
        (239, 68, 68)
    } else if occurs_in(status, "处理中"@) || occurs_in(status, "转换中"@) {
        (250, 204, 21)
    } else {
        (148, 163, 184)
    }
}

/// The colour of a status as red, green and blue.
pub fn status_color(status: &str) -> (color: (u8, u8, u8))
    ensures
        color == color_of(status@),
{
    if contains(status, "已完成") || contains(status, "已找到") || contains(
        status,
        "已转换",
    ) || contains(status, "成功") {
        (74, 222, 128)
    } else if contains(status, "失败") || contains(status, "未找到") || contains(
        status,
        "错误",
    ) {
        (239, 68, 68)
    } else if contains(status, "处理中") || contains(status, "转换中") {
        (250, 204, 21)
    } else {
        (148, 163, 184)
    }
}

/// A text in at most `max` characters: its middle gives way to three dots.
pub open spec fn compacted(text: Seq<char>, max: nat) -> Seq<char> {
    if text.len() <= max {
        text
    } else if max <= 3 {
        "..."@
    } else {
        let head = ((max - 3) / 2) as int;
        let tail = max - 3 - head;
        text.take(head) + "..."@ + text.skip(text.len() - tail)
    }
}

/// A text in at most `max_chars` characters, or three dots.
pub fn compact_text(text: &str, max_chars: usize) -> (out: String)
    ensures
        out@ == compacted(text@, max_chars as nat),
{
    let v = chars_of(text);
    if v.len() <= max_chars {
        return text.to_owned();
    }
    if max_chars <= 3 {
        return "...".to_string();
    }
    let head: usize = (max_chars - 3) / 2;
    let tail: usize = max_chars - 3 - head;
    let mut out = string_of(slice_subrange(v.as_slice(), 0, head));
    out.append("...");
    out.append(string_of(slice_subrange(v.as_slice(), v.len() - tail, v.len())).as_str());
    assert(v@.subrange(0, head as int) == text@.take(head as int));
    assert(v@.subrange(v@.len() - tail, v@.len() as int) == text@.skip(text@.len() - tail));
    out
}

/// The text of a path in at most `max_chars` characters.
pub fn compact_path(path: &FilePath, max_chars: usize) -> (out: String)
    ensures
        out@ == compacted(path@.text, max_chars as nat),
{
    compact_text(path.text.as_str(), max_chars)
}

/// The text of the parent of a path, or of the path if it has none.
pub open spec fn parent_or_self(path: PathView) -> Seq<char> {
    match path.parent {
        Some(dir) => dir,
        None => path.text,
    }
}

/// The text of the parent of a path in at most `max_chars` characters.
pub fn compact_parent_path(path: &FilePath, max_chars: usize) -> (out: String)
    ensures
        out@ == compacted(parent_or_self(path@), max_chars as nat),
{
    match &path.parent {
        Some(dir) => compact_text(dir.as_str(), max_chars),
        None => compact_path(path, max_chars),
    }
}

/// A shortened text is never longer than asked for, but for the dots alone.
pub proof fn law_compacted_length(text: Seq<char>, max: nat)
    ensures
        compacted(text, max).len() <= if max < 3 {
            3
        } else {
            max
        },
        text.len() > max && max > 3 ==> compacted(text, max).len() == max,
{
    reveal_strlit("...");
}

/// A text that is short enough stays as it is, so shortening twice changes
/// nothing more.
pub proof fn law_compacted_twice(text: Seq<char>, max: nat)
    ensures
        compacted(compacted(text, max), max) == compacted(text, max),
{
    law_compacted_length(text, max);
    reveal_strlit("...");
}

/// A status that tells of success is green, whatever else it says.
pub proof fn law_success_is_green(status: Seq<char>)
    requires
        occurs_in(status, "已完成"@) || occurs_in(status, "成功"@),
    ensures
        color_of(status) == (74u8, 222u8, 128u8),
{
}

/// A row of the list of items.
#[derive(Debug)]
pub struct ItemRow {
    pub name: String,
    /// The extension in upper case.
    pub kind: String,
    pub status: String,
    pub color: (u8, u8, u8),
    /// The shortened directory of the audio.
    pub place: String,
    /// The path of the audio, or of the file if it has none.
    pub media: FilePath,
}

/// How many characters of a directory a row shows.
pub const PLACE_CHARS: usize = 28;

/// The path that an item is played from and shown with.
pub open spec fn media_of(item: ItemView) -> PathView {
    match item.process_path {
        Some(p) => p,
        None => item.path,
    }
}

/// The row of an item.
pub fn item_row(item: &AudioItem) -> (row: ItemRow)
    ensures
        row.name@ == item@.path.name(),
        row.kind@ == uppercase_of(ext_or_empty(item@.path)),
        row.status@ == item@.status,
        row.color == color_of(item@.status),
        row.media@ == media_of(item@),
        row.place@ == compacted(parent_or_self(media_of(item@)), PLACE_CHARS as nat),
{
    let ext = match item.path.extension() {
        Some(e) => e,
        None => String::new(),
    };
    let media = match &item.process_path {
        Some(p) => p.clone(),
        None => item.path.clone(),
    };
    ItemRow {
        name: item.path.name(),
        kind: to_uppercase(ext.as_str()),
        status: item.status.clone(),
        color: status_color(item.status.as_str()),
        place: compact_parent_path(&media, PLACE_CHARS),
        media,
    }
}

} // verus!
