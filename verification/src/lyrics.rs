//! Lyrics: their normal form, lines in NetEase's JSON, and lyrics among the
//! tags of an audio file.

use crate::json::{
    entry_trees, json_of_bytes, json_of_text, parse_json, parse_json_bytes, trees, Json, JsonView,
};
use crate::letters::{lowercase_of, to_lowercase};
use crate::number::{padded, push_padded};
use crate::path::FilePath;
use crate::pattern::{contains, ends_with_char, join, join_of, occurs_in, starts_with_char};
use crate::text::{
    is_space, lemma_position, lemma_trimmed, lines, lines_of, position, strip_cr, text_opt, texts,
    trim, trim_left, trim_right, trimmed,
};
use vstd::prelude::*;

verus! {

// ---------------------------------------------------------------------------
// Lines of lyrics
// ---------------------------------------------------------------------------

/// The time stamp of a line of lyrics: minutes, seconds and hundredths.
pub open spec fn stamp_of(ms: nat) -> Seq<char> {
    "["@ + padded(ms / 60000, 2) + ":"@ + padded(ms / 1000 % 60, 2) + "."@ + padded(
        ms / 10 % 100,
        2,
    ) + "]"@
}

/// The time stamp of a line of lyrics.
pub fn format_lyric_timestamp(ms: u64) -> (stamp: String)
    ensures
        stamp@ == stamp_of(ms as nat),
{
    let total_cs: u64 = ms / 10;
    let mut stamp = "[".to_string();
    push_padded(&mut stamp, total_cs / 6000, 2);
    stamp.append(":");
    push_padded(&mut stamp, (total_cs / 100) % 60, 2);
    stamp.append(".");
    push_padded(&mut stamp, total_cs % 100, 2);
    stamp.append("]");
    assert(ms / 10 / 6000 == ms / 60000);
    assert(ms / 10 / 100 == ms / 1000);
    stamp
}

/// The texts of the chunks of a line, one after the other.
pub open spec fn chunk_text(chunks: Seq<JsonView>) -> Seq<char>
    decreases chunks.len(),
{
    if chunks.len() == 0 {
        Seq::empty()
    } else {
        chunk_text(chunks.drop_last()) + match chunks.last().text_field("tx"@) {
            Some(s) => s,
            None => Seq::empty(),
        }
    }
}

/// The line of lyrics that a JSON value stands for: the text of its chunks,
/// behind its time stamp if it has one.
pub open spec fn netease_line(value: JsonView) -> Option<Seq<char>> {
    match value.field("c"@) {
        Some(c) => match c.elements() {
            Some(chunks) => {
                let text = trimmed(chunk_text(chunks));
                if text.len() == 0 {
                    None
                } else {
                    match value.number_field("t"@) {
                        Some(ms) => Some(stamp_of(ms as nat) + text),
                        None => Some(text),
                    }
                }
            },
            None => None,
        },
        None => None,
    }
}

/// The line of lyrics that a JSON value stands for.
pub fn netease_lyric_text(value: &Json) -> (line: Option<String>)
    ensures
        text_opt(line) == netease_line(value.tree()),
{
    let chunks = match value.get("c") {
        Some(c) => match c.as_array() {
            Some(list) => list,
            None => {
                return None;
            },
        },
        None => {
            return None;
        },
    };
    let ghost all = trees(chunks@);
    let mut joined = String::new();
    assert(all.take(0) == Seq::<JsonView>::empty());
    for i in 0..chunks.len()
        invariant
            all == trees(chunks@),
            joined@ == chunk_text(all.take(i as int)),
    {
        assert(all.take(i + 1).drop_last() == all.take(i as int));
        assert(all.take(i + 1).last() == chunks@[i as int].tree());
        if let Some(tx) = chunks[i].get_str("tx") {
            joined.append(tx.as_str());
        } else {
            assert(joined@ + Seq::<char>::empty() == joined@);
        }
    }
    assert(all.take(all.len() as int) == all);
    let text = trim(joined.as_str());
    if text.as_str().is_empty() {
        return None;
    }
    match value.get_u64("t") {
        Some(ms) => {
            let mut line = format_lyric_timestamp(ms);
            line.append(text.as_str());
            Some(line)
        },
        None => Some(text),
    }
}

/// The line of lyrics that a line of JSON stands for.
pub fn parse_netease_json_lyric_line(line: &str) -> (out: Option<String>)
    ensures
        text_opt(out) == (match json_of_text(line@) {
            Some(value) => netease_line(value),
            None => None,
        }),
{
    match parse_json(line) {
        Some(value) => netease_lyric_text(&value),
        None => None,
    }
}

// ---------------------------------------------------------------------------
// The normal form
// ---------------------------------------------------------------------------

/// Whether a line is written in JSON.
pub open spec fn is_json_line(line: Seq<char>) -> bool {
    line.len() > 0 && line[0] == '{' && line.last() == '}'
}

/// What a line of lyrics is in the normal form, if it is kept: without the
/// white space around it, and in plain text.
pub open spec fn kept_line(line: Seq<char>) -> Option<Seq<char>> {
    let t = trimmed(line);
    if t.len() == 0 {
        None
    } else if is_json_line(t) {
        match json_of_text(t) {
            Some(value) => netease_line(value),
            None => None,
        }
    } else {
        Some(t)
    }
}

/// The lines of the normal form.
pub open spec fn kept_lines(lines: Seq<Seq<char>>) -> Seq<Seq<char>>
    decreases lines.len(),
{
    if lines.len() == 0 {
        Seq::empty()
    } else {
        match kept_line(lines.last()) {
            Some(t) => kept_lines(lines.drop_last()).push(t),
            None => kept_lines(lines.drop_last()),
        }
    }
}

/// The normal form of lyrics.
pub open spec fn normal_lyrics(raw: Seq<char>) -> Seq<char> {
    let kept = kept_lines(lines_of(raw));
    if kept.len() == 0 {
        "歌词为空"@
    } else {
        join_of(kept, "\n"@)
    }
}

/// What a line of lyrics is in the normal form, if it is kept.
fn keep_line(line: &str) -> (out: Option<String>)
    ensures
        text_opt(out) == kept_line(line@),
{
    let t = trim(line);
    if t.as_str().is_empty() {
        return None;
    }
    if starts_with_char(t.as_str(), '{') && ends_with_char(t.as_str(), '}') {
        return parse_netease_json_lyric_line(t.as_str());
    }
    Some(t)
}

/// The normal form of lyrics.
pub fn normalize_lyrics(raw: &str) -> (out: String)
    ensures
        out@ == normal_lyrics(raw@),
{
    let all = lines(raw);
    let ghost seen = texts(all@);
    let mut kept: Vec<String> = Vec::new();
    assert(seen.take(0) == Seq::<Seq<char>>::empty());
    assert(texts(kept@) == Seq::<Seq<char>>::empty());
    for i in 0..all.len()
        invariant
            seen == texts(all@),
            texts(kept@) == kept_lines(seen.take(i as int)),
    {
        assert(seen.take(i + 1).drop_last() == seen.take(i as int));
        assert(seen.take(i + 1).last() == all@[i as int]@);
        if let Some(t) = keep_line(all[i].as_str()) {
            let ghost before = texts(kept@);
            kept.push(t);
            assert(texts(kept@) == before.push(t@));
        }
    }
    assert(seen.take(seen.len() as int) == seen);
    assert(texts(kept@).len() == kept@.len());
    if kept.len() == 0 {
        "歌词为空".to_string()
    } else {
        join(&kept, "\n")
    }
}

/// No line of the normal form is empty.
pub proof fn law_kept_lines_not_empty(lines: Seq<Seq<char>>, i: int)
    requires
        0 <= i < kept_lines(lines).len(),
    ensures
        kept_lines(lines)[i].len() > 0,
    decreases lines.len(),
{
    if i < kept_lines(lines.drop_last()).len() {
        law_kept_lines_not_empty(lines.drop_last(), i);
    } else {
        reveal_strlit("[");
    }
}

/// Plain lines are kept as they are but for the white space around them; only
/// lines in JSON are read in another way.
pub proof fn law_plain_line_kept(line: Seq<char>)
    requires
        trimmed(line).len() > 0,
        !is_json_line(trimmed(line)),
    ensures
        kept_line(line) == Some(trimmed(line)),
{
}

/// Whether no line of the lyrics is written in JSON.
pub open spec fn is_plain_lyrics(raw: Seq<char>) -> bool {
    forall|i: int|
        0 <= i < lines_of(raw).len() ==> !is_json_line(trimmed(#[trigger] lines_of(raw)[i]))
}

/// The lines that are not blank, without the white space around them.
pub open spec fn trimmed_lines(lines: Seq<Seq<char>>) -> Seq<Seq<char>>
    decreases lines.len(),
{
    if lines.len() == 0 {
        Seq::empty()
    } else if trimmed(lines.last()).len() == 0 {
        trimmed_lines(lines.drop_last())
    } else {
        trimmed_lines(lines.drop_last()).push(trimmed(lines.last()))
    }
}

/// The normal form of lyrics is never empty.
pub proof fn law_normal_lyrics_not_empty(raw: Seq<char>)
    ensures
        normal_lyrics(raw).len() > 0,
{
    let kept = kept_lines(lines_of(raw));
    if kept.len() == 0 {
        reveal_strlit("歌词为空");
    } else {
        law_kept_lines_not_empty(lines_of(raw), kept.len() - 1);
    }
}

/// Lyrics without JSON are their lines, in order, without blank ones and
/// without the white space around them.
pub proof fn law_plain_lyrics(raw: Seq<char>)
    requires
        is_plain_lyrics(raw),
    ensures
        normal_lyrics(raw) == ({
            let kept = trimmed_lines(lines_of(raw));
            if kept.len() == 0 {
                "歌词为空"@
            } else {
                join_of(kept, "\n"@)
            }
        }),
{
    lemma_kept_plain(lines_of(raw));
}

/// Bringing lyrics without JSON into the normal form a second time changes
/// nothing.
pub proof fn law_normal_lyrics_twice(raw: Seq<char>)
    requires
        is_plain_lyrics(raw),
    ensures
        normal_lyrics(normal_lyrics(raw)) == normal_lyrics(raw),
{
    let all = lines_of(raw);
    let kept = kept_lines(all);
    let once = normal_lyrics(raw);
    lemma_kept_plain(all);
    if kept.len() == 0 {
        reveal_strlit("歌词为空");
        assert forall|i: int| 0 <= i < once.len() implies once[i] != '\n' by {
        }
        lemma_one_line(once);
        assert(trim_left(once) == once);
        assert(trim_right(once) == once);
        assert(lines_of(once).drop_last() == Seq::<Seq<char>>::empty());
        assert(kept_lines(lines_of(once).drop_last()) == Seq::<Seq<char>>::empty());
        assert(kept_lines(lines_of(once)) == seq![once]);
    } else {
        assert forall|i: int| 0 <= i < kept.len() implies is_settled(#[trigger] kept[i]) by {
            lemma_trimmed_settled(all, i);
            lemma_line_free(raw, all);
        }
        lemma_lines_of_join(kept);
        lemma_kept_settled(kept);
    }
}

/// Whether a line is as the normal form leaves it: it is one line, has no
/// white space around it and is kept as it is.
pub open spec fn is_settled(line: Seq<char>) -> bool {
    &&& line.len() > 0
    &&& !line.contains('\n')
    &&& trimmed(line) == line
    &&& !is_space(line.last())
    &&& kept_line(line) == Some(line)
}

/// Without JSON, the lines that are kept are those that are not blank.
proof fn lemma_kept_plain(lines: Seq<Seq<char>>)
    requires
        forall|i: int| 0 <= i < lines.len() ==> !is_json_line(trimmed(#[trigger] lines[i])),
    ensures
        kept_lines(lines) == trimmed_lines(lines),
    decreases lines.len(),
{
    if lines.len() > 0 {
        let rest = lines.drop_last();
        assert forall|i: int| 0 <= i < rest.len() implies !is_json_line(
            trimmed(#[trigger] rest[i]),
        ) by {
            assert(rest[i] == lines[i]);
        }
        lemma_kept_plain(rest);
        assert(lines[lines.len() - 1] == lines.last());
    }
}

/// Settled lines are all kept.
proof fn lemma_kept_settled(lines: Seq<Seq<char>>)
    requires
        forall|i: int| 0 <= i < lines.len() ==> is_settled(#[trigger] lines[i]),
    ensures
        kept_lines(lines) == lines,
    decreases lines.len(),
{
    if lines.len() > 0 {
        let rest = lines.drop_last();
        assert forall|i: int| 0 <= i < rest.len() implies is_settled(#[trigger] rest[i]) by {
            assert(rest[i] == lines[i]);
        }
        lemma_kept_settled(rest);
        assert(is_settled(lines[lines.len() - 1]));
        assert(rest.push(lines.last()) == lines);
    }
}

/// A kept line is a trimmed one, and those are settled if they are not JSON
/// and are one line.
proof fn lemma_trimmed_settled(lines: Seq<Seq<char>>, i: int)
    requires
        0 <= i < kept_lines(lines).len(),
        forall|k: int| 0 <= k < lines.len() ==> !is_json_line(trimmed(#[trigger] lines[k])),
    ensures
        (forall|k: int| 0 <= k < lines.len() ==> !(#[trigger] lines[k]).contains('\n'))
            ==> is_settled(kept_lines(lines)[i]),
    decreases lines.len(),
{
    let rest = lines.drop_last();
    assert forall|k: int| 0 <= k < rest.len() implies !is_json_line(trimmed(#[trigger] rest[k])) by {
        assert(rest[k] == lines[k]);
    }
    if forall|k: int| 0 <= k < lines.len() ==> !(#[trigger] lines[k]).contains('\n') {
        assert forall|k: int| 0 <= k < rest.len() implies !(#[trigger] rest[k]).contains('\n') by {
            assert(rest[k] == lines[k]);
        }
        assert(lines[lines.len() - 1] == lines.last());
        if i < kept_lines(rest).len() {
            lemma_trimmed_settled(rest, i);
        } else {
            lemma_trimmed(lines.last());
            let t = trimmed(lines.last());
            assert(kept_lines(lines)[i] == t);
            assert(!t.contains('\n'));
        }
    }
}

/// The lines of a text hold no line feed.
proof fn lemma_line_free(s: Seq<char>, lines: Seq<Seq<char>>)
    requires
        lines == lines_of(s),
    ensures
        forall|k: int| 0 <= k < lines.len() ==> !(#[trigger] lines[k]).contains('\n'),
    decreases s.len(),
{
    if s.len() > 0 {
        let p = position(s, '\n') as int;
        lemma_position(s, '\n');
        if p < s.len() {
            let rest = lines_of(s.skip(p + 1));
            lemma_line_free(s.skip(p + 1), rest);
            let first = strip_cr(s.take(p));
            assert forall|i: int| 0 <= i < first.len() implies first[i] != '\n' by {
                assert(first[i] == s[i]);
            }
            assert forall|k: int| 0 <= k < lines.len() implies !(#[trigger] lines[k]).contains(
                '\n',
            ) by {
                if k > 0 {
                    assert(lines[k] == rest[k - 1]);
                }
            }
        }
    }
}

/// A text without a line feed is one line.
proof fn lemma_one_line(s: Seq<char>)
    requires
        s.len() > 0,
        forall|i: int| 0 <= i < s.len() ==> s[i] != '\n',
    ensures
        lines_of(s) == seq![s],
{
    lemma_position(s, '\n');
}

/// Joining puts the first text in front of the others joined.
proof fn lemma_join_front(parts: Seq<Seq<char>>, sep: Seq<char>)
    requires
        parts.len() >= 2,
    ensures
        join_of(parts, sep) == parts[0] + sep + join_of(parts.skip(1), sep),
    decreases parts.len(),
{
    let front = parts.drop_last();
    let back = parts.skip(1);
    assert(back.last() == parts.last());
    if parts.len() == 2 {
        assert(join_of(front, sep) == parts[0]);
        assert(join_of(back, sep) == parts[1]);
    } else {
        lemma_join_front(front, sep);
        assert(front.skip(1) == back.drop_last());
        assert(join_of(back, sep) == join_of(back.drop_last(), sep) + sep + back.last());
        assert(parts[0] + sep + join_of(back.drop_last(), sep) + sep + parts.last() == parts[0]
            + sep + (join_of(back.drop_last(), sep) + sep + back.last()));
    }
}

/// Settled lines that are joined are read back as they were.
proof fn lemma_lines_of_join(lines: Seq<Seq<char>>)
    requires
        lines.len() > 0,
        forall|i: int| 0 <= i < lines.len() ==> is_settled(#[trigger] lines[i]),
    ensures
        lines_of(join_of(lines, "\n"@)) == lines,
    decreases lines.len(),
{
    reveal_strlit("\n");
    let first = lines[0];
    assert(is_settled(first));
    assert forall|i: int| 0 <= i < first.len() implies first[i] != '\n' by {
        assert(first.contains(first[i]));
    }
    if lines.len() == 1 {
        lemma_one_line(first);
        assert(lines == seq![first]);
    } else {
        let rest = lines.skip(1);
        assert forall|i: int| 0 <= i < rest.len() implies is_settled(#[trigger] rest[i]) by {
            assert(rest[i] == lines[i + 1]);
        }
        lemma_lines_of_join(rest);
        lemma_join_front(lines, "\n"@);
        let tail = join_of(rest, "\n"@);
        let s = first + "\n"@ + tail;
        lemma_position(s, '\n');
        let p = position(s, '\n') as int;
        assert(s[first.len() as int] == '\n');
        if p < first.len() {
            assert(s[p] == first[p]);
        }
        assert(p == first.len());
        assert(s.take(p) == first);
        assert(s.skip(p + 1) == tail);
        assert(strip_cr(first) == first);
        assert(seq![first] + rest == lines);
    }
}

// ---------------------------------------------------------------------------
// Lyrics among the tags of an audio file
// ---------------------------------------------------------------------------

/// The lyrics that a tag holds, if it holds any.
pub open spec fn tag_lyrics(key: Seq<char>, value: JsonView) -> Option<Seq<char>> {
    if occurs_in(lowercase_of(key), "lyric"@) {
        match value.text() {
            Some(s) => if trimmed(s).len() > 0 {
                Some(trimmed(s))
            } else {
                None
            },
            None => None,
        }
    } else {
        None
    }
}

/// The lyrics of the first of the tags that holds any.
pub open spec fn tags_lyrics(tags: Seq<(Seq<char>, JsonView)>) -> Option<Seq<char>>
    decreases tags.len(),
{
    if tags.len() == 0 {
        None
    } else {
        match tag_lyrics(tags[0].0, tags[0].1) {
            Some(s) => Some(s),
            None => tags_lyrics(tags.skip(1)),
        }
    }
}

/// The lyrics among the tags of a format or a stream.
pub open spec fn part_lyrics(part: JsonView) -> Option<Seq<char>> {
    match part.field("tags"@) {
        Some(tags) => match tags.entries() {
            Some(list) => tags_lyrics(list),
            None => None,
        },
        None => None,
    }
}

/// The lyrics of the first of the streams that holds any.
pub open spec fn streams_lyrics(streams: Seq<JsonView>) -> Option<Seq<char>>
    decreases streams.len(),
{
    if streams.len() == 0 {
        None
    } else {
        match part_lyrics(streams[0]) {
            Some(s) => Some(s),
            None => streams_lyrics(streams.skip(1)),
        }
    }
}

/// The lyrics in what ffprobe says of a file: those of the whole file, or
/// else those of its streams.
pub open spec fn probe_lyrics(value: JsonView) -> Option<Seq<char>> {
    let of_format = match value.field("format"@) {
        Some(format) => part_lyrics(format),
        None => None,
    };
    match of_format {
        Some(s) => Some(s),
        None => match value.field("streams"@) {
            Some(streams) => match streams.elements() {
                Some(list) => streams_lyrics(list),
                None => None,
            },
            None => None,
        },
    }
}

/// The lyrics of the first of the tags that holds any.
fn find_in_tags(tags: &Vec<(String, Json)>) -> (out: Option<String>)
    ensures
        text_opt(out) == tags_lyrics(entry_trees(tags@)),
{
    let ghost all = entry_trees(tags@);
    let mut i: usize = 0;
    assert(all.skip(0) == all);
    while i < tags.len()
        invariant
            all == entry_trees(tags@),
            i <= tags@.len(),
            tags_lyrics(all) == tags_lyrics(all.skip(i as int)),
        decreases tags@.len() - i,
    {
        assert(all.skip(i as int)[0] == all[i as int]);
        if contains(to_lowercase(tags[i].0.as_str()).as_str(), "lyric") {
            if let Some(s) = tags[i].1.as_str() {
                let text = trim(s.as_str());
                if !text.as_str().is_empty() {
                    return Some(text);
                }
            }
        }
        assert(all.skip(i as int).skip(1) == all.skip(i + 1));
        i = i + 1;
    }
    None
}

/// The lyrics among the tags of a format or a stream.
fn find_in_part(part: &Json) -> (out: Option<String>)
    ensures
        text_opt(out) == part_lyrics(part.tree()),
{
    match part.get("tags") {
        Some(tags) => match tags.as_object() {
            Some(list) => find_in_tags(list),
            None => None,
        },
        None => None,
    }
}

/// The lyrics in what ffprobe says of a file.
pub fn lyrics_from_probe_value(value: &Json) -> (out: Option<String>)
    ensures
        text_opt(out) == probe_lyrics(value.tree()),
{
    if let Some(format) = value.get("format") {
        if let Some(s) = find_in_part(format) {
            return Some(s);
        }
    }
    let list = match value.get("streams") {
        Some(streams) => match streams.as_array() {
            Some(list) => list,
            None => {
                return None;
            },
        },
        None => {
            return None;
        },
    };
    let ghost all = trees(list@);
    let mut i: usize = 0;
    assert(all.skip(0) == all);
    while i < list.len()
        invariant
            all == trees(list@),
            i <= list@.len(),
            probe_lyrics(value.tree()) == streams_lyrics(all.skip(i as int)),
        decreases list@.len() - i,
    {
        assert(all.skip(i as int)[0] == all[i as int]);
        if let Some(s) = find_in_part(&list[i]) {
            return Some(s);
        }
        assert(all.skip(i as int).skip(1) == all.skip(i + 1));
        i = i + 1;
    }
    None
}

/// The lyrics embedded in an audio file, given what ffprobe wrote if it
/// succeeded.
pub fn extract_embedded_lyrics(output: &Option<Vec<u8>>) -> (out: Option<String>)
    ensures
        text_opt(out) == (match *output {
            Some(bytes) => match json_of_bytes(bytes@) {
                Some(value) => probe_lyrics(value),
                None => None,
            },
            None => None,
        }),
{
    match output {
        Some(bytes) => match parse_json_bytes(bytes.as_slice()) {
            Some(value) => lyrics_from_probe_value(&value),
            None => None,
        },
        None => None,
    }
}

// ---------------------------------------------------------------------------
// What the window shows
// ---------------------------------------------------------------------------

/// What was tried to get the lyrics of a track.
#[derive(Debug)]
pub struct LyricsSources {
    /// The lyrics file, if there is one, and its text if it could be read.
    pub file: Option<(FilePath, Option<String>)>,
    /// The lyrics inside the audio.
    pub embedded: Option<String>,
}

/// The lyrics to show and what to say about them: the text of the lyrics
/// file, or else the lyrics inside the audio. A file that cannot be read is
/// reported, and the audio is then not asked.
pub fn shown_lyrics(sources: &LyricsSources) -> (shown: (String, String))
    ensures
        (shown.0@, shown.1@) == (match sources.file {
            Some((path, Some(text))) => (normal_lyrics(text@), "歌词: "@ + path@.name()),
            Some((_, None)) => ("歌词读取失败"@, "歌词读取失败"@),
            None => match sources.embedded {
                Some(text) => (normal_lyrics(text@), "歌词: 音频内嵌"@),
                None => ("未找到歌词文件"@, "未找到歌词"@),
            },
        }),
{
    match &sources.file {
        Some((path, Some(text))) => {
            let mut status = "歌词: ".to_string();
            status.append(path.name().as_str());
            (normalize_lyrics(text.as_str()), status)
        },
        Some((_, None)) => ("歌词读取失败".to_string(), "歌词读取失败".to_string()),
        None => match &sources.embedded {
            Some(text) => (normalize_lyrics(text.as_str()), "歌词: 音频内嵌".to_string()),
            None => ("未找到歌词文件".to_string(), "未找到歌词".to_string()),
        },
    }
}

/// What to say about the cover of a track: nothing was found, or the file,
/// and whether it could be read as an image.
pub fn cover_status(cover: &Option<FilePath>, readable: bool) -> (status: String)
    ensures
        status@ == (match *cover {
            Some(path) => if readable {
                "封面: "@ + path@.name()
            } else {
                "封面读取失败"@
            },
            None => "未找到封面"@,
        }),
{
    match cover {
        Some(path) => if readable {
            let mut status = "封面: ".to_string();
            status.append(path.name().as_str());
            status
        } else {
            "封面读取失败".to_string()
        },
        None => "未找到封面".to_string(),
    }
}

} // verus!
