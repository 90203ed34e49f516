//! Lyrics: what a line in NetEase's JSON stands for, which lines are kept, and
//! where the lyrics inside an audio file are found.

use crate::json::{json_of_text, JsonView};
use crate::letters::lowercase_of;
use crate::lyrics::{
    chunk_text, kept_line, kept_lines, netease_line, normal_lyrics, part_lyrics, probe_lyrics,
    stamp_of, streams_lyrics, tag_lyrics, tags_lyrics,
};
use crate::number::padded;
use crate::pattern::{join_of, occurs_in};
use crate::text::{lines_of, trimmed};
use vstd::prelude::*;

verus! {

// ---------------------------------------------------------------------------
// JSON values
// ---------------------------------------------------------------------------

/// The entry of an object is the first with the key; anything but an object has
/// none.
pub proof fn law_json_entry(
    before: Seq<(Seq<char>, JsonView)>,
    key: Seq<char>,
    value: JsonView,
    after: Seq<(Seq<char>, JsonView)>,
)
    requires
        forall|i: int| 0 <= i < before.len() ==> (#[trigger] before[i]).0 != key,
    ensures
        JsonView::Object(before.push((key, value)) + after).field(key) == Some(value),
        JsonView::Object(before).field(key) is None,
        JsonView::Array(Seq::empty()).field(key) is None,
        JsonView::Text(key).field(key) is None,
        JsonView::Null.field(key) is None,
    decreases before.len(),
{
    let all = before.push((key, value)) + after;
    if before.len() > 0 {
        let rest = before.skip(1);
        assert forall|i: int| 0 <= i < rest.len() implies (#[trigger] rest[i]).0 != key by {
            assert(rest[i] == before[i + 1]);
        }
        law_json_entry(rest, key, value, after);
        assert(before[0].0 != key);
        assert(all[0] == before[0]);
        assert(all.skip(1) == rest.push((key, value)) + after);
    } else {
        assert(all[0] == (key, value));
    }
}

/// A text, a number, an array and an object are read as what they are, and as
/// nothing else.
pub proof fn law_json_kinds(
    s: Seq<char>,
    n: u64,
    list: Seq<JsonView>,
    entries: Seq<(Seq<char>, JsonView)>,
)
    ensures
        JsonView::Text(s).text() == Some(s),
        JsonView::Number(Some(n)).number() == Some(n),
        JsonView::Number(None).number() is None,
        JsonView::Array(list).elements() == Some(list),
        JsonView::Object(entries).entries() == Some(entries),
        JsonView::Number(Some(n)).text() is None,
        JsonView::Array(list).text() is None,
        JsonView::Object(entries).text() is None,
        JsonView::Bool(true).text() is None,
        JsonView::Text(s).number() is None,
        JsonView::Text(s).elements() is None,
        JsonView::Object(entries).elements() is None,
        JsonView::Array(list).entries() is None,
{
}

/// The text, and the number, of an entry are those of its value.
pub proof fn law_json_fields(value: JsonView, key: Seq<char>)
    ensures
        value.text_field(key) == (match value.field(key) {
            Some(JsonView::Text(s)) => Some(s),
            _ => None,
        }),
        value.number_field(key) == (match value.field(key) {
            Some(JsonView::Number(Some(n))) => Some(n),
            _ => None,
        }),
{
}

// ---------------------------------------------------------------------------
// Lines of NetEase
// ---------------------------------------------------------------------------

/// The text of a line is the texts of all its chunks, one after the other; a
/// chunk without a text adds nothing.
pub proof fn law_chunks(chunks: Seq<JsonView>, next: JsonView)
    ensures
        chunk_text(Seq::<JsonView>::empty()) == Seq::<char>::empty(),
        chunk_text(chunks.push(next)) == chunk_text(chunks) + (match next.field("tx"@) {
            Some(JsonView::Text(s)) => s,
            _ => Seq::empty(),
        }),
{
    assert(chunks.push(next).drop_last() == chunks);
}

/// A line with the chunks `c` is the texts of all of them in order, without the
/// white space around them, behind the time of its entry `t` if it has one; if
/// nothing is left, or there are no chunks, it is no line.
pub proof fn law_netease_line(value: JsonView)
    ensures
        netease_line(value) == (match value.field("c"@) {
            Some(JsonView::Array(chunks)) => {
                let text = trimmed(
                    chunks.fold_left(
                        Seq::<char>::empty(),
                        |before: Seq<char>, chunk: JsonView|
                            before + (match chunk.field("tx"@) {
                                Some(JsonView::Text(s)) => s,
                                _ => Seq::empty(),
                            }),
                    ),
                );
                if text == Seq::<char>::empty() {
                    None
                } else {
                    match value.field("t"@) {
                        Some(JsonView::Number(Some(ms))) => Some(stamp_of(ms as nat) + text),
                        _ => Some(text),
                    }
                }
            },
            _ => None,
        }),
{
    if let Some(JsonView::Array(chunks)) = value.field("c"@) {
        lemma_chunks(chunks);
        let text = trimmed(chunk_text(chunks));
        if text.len() == 0 {
            assert(text == Seq::<char>::empty());
        }
    }
}

/// The texts of chunks are gathered from the first to the last.
proof fn lemma_chunks(chunks: Seq<JsonView>)
    ensures
        chunk_text(chunks) == chunks.fold_left(
            Seq::<char>::empty(),
            |before: Seq<char>, chunk: JsonView|
                before + (match chunk.field("tx"@) {
                    Some(JsonView::Text(s)) => s,
                    _ => Seq::empty(),
                }),
        ),
    decreases chunks.len(),
{
    reveal(Seq::fold_left);
    if chunks.len() > 0 {
        lemma_chunks(chunks.drop_last());
    }
}

/// A time stamp gives minutes, seconds and hundredths of a second, of which the
/// seconds stay below sixty and the hundredths below a hundred.
pub proof fn law_stamp(minutes: nat, seconds: nat, hundredths: nat, thousandths: nat)
    requires
        seconds < 60,
        hundredths < 100,
        thousandths < 10,
    ensures
        stamp_of(60000 * minutes + 1000 * seconds + 10 * hundredths + thousandths) == "["@
            + padded(minutes, 2) + ":"@ + padded(seconds, 2) + "."@ + padded(hundredths, 2) + "]"@,
{
    let ms = 60000 * minutes + 1000 * seconds + 10 * hundredths + thousandths;
    assert(ms / 60000 == minutes);
    assert(ms / 1000 == 60 * minutes + seconds);
    assert((60 * minutes + seconds) % 60 == seconds);
    assert(ms / 10 == 6000 * minutes + 100 * seconds + hundredths);
    assert(ms / 10 % 100 == hundredths);
}

// ---------------------------------------------------------------------------
// The normal form
// ---------------------------------------------------------------------------

/// Lyrics in their normal form are their lines in order, with one line feed
/// between two: a line in braces as what its JSON stands for, any other as it
/// is without the white space around it; blank lines, and lines in braces that
/// stand for nothing, are left out. If no line is left, that is said.
pub proof fn law_normal_form(raw: Seq<char>)
    ensures
        ({
            let kept = lines_of(raw).filter_map(
                |line: Seq<char>|
                    {
                        let t = trimmed(line);
                        if t.len() == 0 {
                            None
                        } else if t[0] == '{' && t[t.len() - 1] == '}' {
                            match json_of_text(t) {
                                Some(value) => netease_line(value),
                                None => None,
                            }
                        } else {
                            Some(t)
                        }
                    },
            );
            normal_lyrics(raw) == (if kept.len() == 0 {
                "歌词为空"@
            } else {
                join_of(kept, "\n"@)
            })
        }),
{
    lemma_kept(lines_of(raw));
}

/// The lines that are kept are found line by line.
proof fn lemma_kept(lines: Seq<Seq<char>>)
    ensures
        kept_lines(lines) == lines.filter_map(
            |line: Seq<char>|
                {
                    let t = trimmed(line);
                    if t.len() == 0 {
                        None
                    } else if t[0] == '{' && t[t.len() - 1] == '}' {
                        match json_of_text(t) {
                            Some(value) => netease_line(value),
                            None => None,
                        }
                    } else {
                        Some(t)
                    }
                },
        ),
    decreases lines.len(),
{
    reveal(Seq::filter_map);
    if lines.len() > 0 {
        lemma_kept(lines.drop_last());
        if let Some(t) = kept_line(lines.last()) {
            let before = kept_lines(lines.drop_last());
            assert(before + seq![t] == before.push(t));
        }
    }
}

// ---------------------------------------------------------------------------
// Lyrics inside audio
// ---------------------------------------------------------------------------

/// Whether a tag holds lyrics: its name speaks of lyrics, whatever the case of
/// its letters, and it is a text that is not blank.
pub open spec fn holds_lyrics(tag: (Seq<char>, JsonView)) -> bool {
    occurs_in(lowercase_of(tag.0), "lyric"@) && (tag.1 matches JsonView::Text(s) && trimmed(s).len()
        > 0)
}

/// The tags of a part of what ffprobe wrote.
pub open spec fn tags_of(part: JsonView) -> Seq<(Seq<char>, JsonView)> {
    match part.field("tags"@) {
        Some(JsonView::Object(tags)) => tags,
        _ => Seq::empty(),
    }
}

/// Whether a tag is the first of a part that holds lyrics.
pub open spec fn first_lyrics(part: JsonView, k: int) -> bool {
    &&& 0 <= k < tags_of(part).len()
    &&& holds_lyrics(tags_of(part)[k])
    &&& forall|j: int| 0 <= j < k ==> !holds_lyrics(#[trigger] tags_of(part)[j])
}

/// Whether no tag of a part holds lyrics.
pub open spec fn no_lyrics(part: JsonView) -> bool {
    forall|j: int| 0 <= j < tags_of(part).len() ==> !holds_lyrics(#[trigger] tags_of(part)[j])
}

/// The lyrics of tags are those of the first that holds any.
proof fn lemma_tags(tags: Seq<(Seq<char>, JsonView)>, k: int)
    requires
        0 <= k <= tags.len(),
        k < tags.len() ==> holds_lyrics(tags[k]),
        forall|j: int| 0 <= j < k ==> !holds_lyrics(#[trigger] tags[j]),
    ensures
        k < tags.len() ==> tags_lyrics(tags) == Some(trimmed(tags[k].1->Text_0)),
        k == tags.len() ==> tags_lyrics(tags) is None,
    decreases tags.len(),
{
    if k > 0 {
        let rest = tags.skip(1);
        assert(!holds_lyrics(tags[0]));
        assert(tag_lyrics(tags[0].0, tags[0].1) is None);
        assert forall|j: int| 0 <= j < k - 1 implies !holds_lyrics(#[trigger] rest[j]) by {
            assert(rest[j] == tags[j + 1]);
        }
        lemma_tags(rest, k - 1);
    }
}

/// The lyrics of a part are those of its first tag that holds any.
proof fn lemma_part(part: JsonView, k: int)
    requires
        first_lyrics(part, k) || no_lyrics(part),
    ensures
        first_lyrics(part, k) ==> part_lyrics(part) == Some(
            trimmed(tags_of(part)[k].1->Text_0),
        ),
        no_lyrics(part) ==> part_lyrics(part) is None,
{
    let tags = tags_of(part);
    if first_lyrics(part, k) {
        lemma_tags(tags, k);
    }
    if no_lyrics(part) {
        lemma_tags(tags, tags.len() as int);
    }
}

/// The lyrics of streams are those of the first that has any.
proof fn lemma_streams(streams: Seq<JsonView>, i: int, k: int)
    requires
        0 <= i <= streams.len(),
        i < streams.len() ==> first_lyrics(streams[i], k),
        forall|j: int| 0 <= j < i ==> no_lyrics(#[trigger] streams[j]),
    ensures
        i < streams.len() ==> streams_lyrics(streams) == Some(
            trimmed(tags_of(streams[i])[k].1->Text_0),
        ),
        i == streams.len() ==> streams_lyrics(streams) is None,
    decreases streams.len(),
{
    if i == 0 && streams.len() > 0 {
        lemma_part(streams[0], k);
    } else if i > 0 {
        let rest = streams.skip(1);
        assert(no_lyrics(streams[0]));
        lemma_part(streams[0], k);
        assert forall|j: int| 0 <= j < i - 1 implies no_lyrics(#[trigger] rest[j]) by {
            assert(rest[j] == streams[j + 1]);
        }
        lemma_streams(rest, i - 1, k);
    }
}

/// The lyrics inside an audio file are those of the first tag of the whole file
/// that holds any, without the white space around them.
pub proof fn law_lyrics_of_file(value: JsonView, k: int)
    requires
        value.field("format"@) is Some,
        first_lyrics(value.field("format"@)->0, k),
    ensures
        probe_lyrics(value) == Some(trimmed(tags_of(value.field("format"@)->0)[k].1->Text_0)),
{
    lemma_part(value.field("format"@)->0, k);
}

/// Where the whole file has no lyrics, those of its streams are taken, of the
/// first stream that has any; if none has, there are none.
pub proof fn law_lyrics_of_streams(value: JsonView, streams: Seq<JsonView>, i: int, k: int)
    requires
        value.field("format"@) is Some ==> no_lyrics(value.field("format"@)->0),
        value.field("streams"@) == Some(JsonView::Array(streams)) || (value.field("streams"@) is None
            && streams.len() == 0),
        0 <= i <= streams.len(),
        i < streams.len() ==> first_lyrics(streams[i], k),
        forall|j: int| 0 <= j < i ==> no_lyrics(#[trigger] streams[j]),
    ensures
        i < streams.len() ==> probe_lyrics(value) == Some(
            trimmed(tags_of(streams[i])[k].1->Text_0),
        ),
        i == streams.len() ==> probe_lyrics(value) is None,
{
    if let Some(format) = value.field("format"@) {
        lemma_part(format, 0);
    }
    lemma_streams(streams, i, k);
}

} // verus!
