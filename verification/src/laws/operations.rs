//! That the functions give the values of which the laws speak: each law on a
//! text, a list or a row holds of what is computed.

use crate::config::{configs_view, copy_configs, string_list, SeparatorConfig};
use crate::double::{bitrate_text, file_size_text, rate_text, size_text};
use crate::info::{
    duration_fields, ffmpeg_bit_rate, ffmpeg_duration_text, ffmpeg_report, ffmpeg_rows,
    media_info_from_ffmpeg, media_info_from_ffprobe, media_info_of_value, probe_duration_text,
    probe_info, probe_rows, probed_duration, probed_seconds, read_probe, rows_view,
    spelled_duration, spelled_rate, MediaInfo, Span,
};
use crate::json::{entry_trees, json_of_bytes, json_of_text, json_opt, trees, Json, JsonView};
use crate::laws::scanning::{
    is_input, law_files_stamped, law_scan_lists_exactly, law_stamped_count, lemma_ready_count,
};
use crate::laws::texts::lemma_last_run_together;
use crate::lyrics::{
    chunk_text, extract_embedded_lyrics, format_lyric_timestamp, lyrics_from_probe_value,
    netease_line, netease_lyric_text, normal_lyrics, normalize_lyrics,
    parse_netease_json_lyric_line, probe_lyrics, stamp_of,
};
use crate::media::{
    converted_exts, input_exts, items_view, stem_exts, stems_view, AudioItem, ItemView, StemItem,
};
use crate::number::{
    decimal, decimal_text, hexadecimal, padded, parse_u64, push_decimal, push_hex, push_padded,
    signed_decimal, signed_text, u64_of,
};
use crate::order::{indices, keys_of, sorted_indices, stable_order, text_le, text_not_above};
use crate::path::{paths_view, FilePath, PathView};
use crate::pattern::{
    after_first, before_char, before_char_of, contains, contains_char, ends_with_char, fields,
    fields_of, find_from, join, join_of, occurs_in, replace, replace_of, split_once_of,
    starts_with_char,
};
use crate::scan::{
    files_to_stamp, input_items, is_ncm_file, make_ncm_item, ncm_candidates, ncm_item, outputs_view,
    scan_for_window, scan_inputs, scan_stems, stamp_metadata_for_source, stem_items,
};
use crate::search::{candidates_view, found_view, Candidate, CandidateView, Found};
use crate::text::{
    chars_of, copy_opt, copy_texts, first_word, first_word_of, has_text, is_space, lines, lines_of,
    lossy_text, position_from, same_text, space, string_of, text_opt, texts, trim, trimmed,
};
use vstd::prelude::*;

verus! {

// ---------------------------------------------------------------------------
// Texts
// ---------------------------------------------------------------------------

/// Taking texts apart, putting them together and copying them.
pub proof fn law_text_operations(
    s: &str,
    t: &str,
    c: char,
    chars: &[char],
    list: &Vec<String>,
    maybe: &Option<String>,
    words: Vec<&str>,
    known: &Vec<&'static str>,
)
    ensures
        forall|out: Vec<char>| #[trigger] call_ensures(chars_of, (s,), out) ==> out@ == s@,
        forall|out: String| #[trigger] call_ensures(string_of, (chars,), out) ==> out@ == chars@,
        forall|yes: bool| #[trigger] call_ensures(same_text, (s, t), yes) ==> (yes <==> s@ == t@),
        forall|out: Vec<String>| #[trigger]
            call_ensures(copy_texts, (list,), out) ==> texts(out@) == texts(list@),
        forall|out: Option<String>| #[trigger]
            call_ensures(copy_opt, (maybe,), out) ==> text_opt(out) == text_opt(*maybe),
        forall|out: Vec<String>| #[trigger]
            call_ensures(string_list, (words,), out) ==> texts(out@) == words@.map_values(
                |w: &str| w@,
            ),
        forall|yes: bool| #[trigger]
            call_ensures(has_text, (known, s), yes) ==> (yes <==> known@.map_values(
                |w: &'static str| w@,
            ).contains(s@)),
        forall|yes: bool| #[trigger] call_ensures(space, (c,), yes) ==> (yes <==> is_space(c)),
        forall|out: String| #[trigger] call_ensures(trim, (s,), out) ==> out@ == trimmed(s@),
        forall|out: Option<String>| #[trigger]
            call_ensures(first_word, (s,), out) ==> text_opt(out) == first_word_of(s@),
        forall|out: Vec<String>| #[trigger]
            call_ensures(lines, (s,), out) ==> texts(out@) == lines_of(s@),
{
    assert(words.deep_view() == words@.map_values(|w: &str| w@));
    assert(known.deep_view() == known@.map_values(|w: &'static str| w@));
}

/// Looking for texts in texts.
pub proof fn law_pattern_operations(
    s: &str,
    pat: &str,
    with: &str,
    c: char,
    parts: &Vec<String>,
)
    ensures
        forall|yes: bool| #[trigger]
            call_ensures(contains, (s, pat), yes) ==> (yes <==> occurs_in(s@, pat@)),
        forall|out: Option<String>| #[trigger]
            call_ensures(after_first, (s, pat), out) ==> (out is Some <==> split_once_of(
                s@,
                pat@,
            ) is Some) && (out is Some ==> out->0@ == (split_once_of(s@, pat@)->0).1),
        forall|out: String| #[trigger]
            call_ensures(before_char, (s, c), out) ==> out@ == before_char_of(s@, c),
        forall|out: Vec<String>| #[trigger]
            call_ensures(fields, (s, c), out) ==> texts(out@) == fields_of(s@, c),
        forall|out: String| #[trigger]
            call_ensures(replace, (s, pat, with), out) ==> out@ == replace_of(s@, pat@, with@),
        forall|out: String| #[trigger]
            call_ensures(join, (parts, pat), out) ==> out@ == join_of(texts(parts@), pat@),
        forall|yes: bool| #[trigger]
            call_ensures(starts_with_char, (s, c), yes) ==> (yes <==> s@.len() > 0 && s@[0] == c),
        forall|yes: bool| #[trigger]
            call_ensures(ends_with_char, (s, c), yes) ==> (yes <==> s@.len() > 0 && s@[s@.len() - 1]
                == c),
        forall|yes: bool| #[trigger]
            call_ensures(contains_char, (s, c), yes) ==> (yes <==> exists|i: int|
                0 <= i < s@.len() && s@[i] == c),
{
}

/// Looking from a place on gives the first place from there.
pub proof fn law_places_in_texts(v: &Vec<char>, from: usize, c: char, pat: &Vec<char>)
    requires
        from <= v@.len(),
    ensures
        forall|at: usize| #[trigger]
            call_ensures(position_from, (v, from, c), at) ==> from <= at <= v@.len() && (at
                < v@.len() ==> v@[at as int] == c) && forall|i: int|
                from <= i < at ==> v@[i] != c,
        forall|at: Option<usize>| #[trigger]
            call_ensures(find_from, (v, from, pat), at) ==> match at {
                Some(i) => {
                    &&& from <= i && i + pat@.len() <= v@.len()
                    &&& v@.subrange(i as int, i + pat@.len()) == pat@
                    &&& forall|j: int|
                        from <= j < i ==> #[trigger] v@.subrange(j, j + pat@.len()) != pat@
                },
                None => forall|j: int|
                    from <= j && j + pat@.len() <= v@.len() ==> #[trigger] v@.subrange(
                        j,
                        j + pat@.len(),
                    ) != pat@,
            },
{
    let rest = v@.skip(from as int);
    crate::text::lemma_position(rest, c);
    crate::pattern::lemma_find(rest, pat@);
    assert forall|at: usize| #[trigger]
        call_ensures(position_from, (v, from, c), at) implies from <= at <= v@.len() && (at
        < v@.len() ==> v@[at as int] == c) && forall|i: int| from <= i < at ==> v@[i] != c by {
        assert forall|i: int| from <= i < at implies v@[i] != c by {
            assert(rest[i - from] == v@[i]);
        }
    }
    assert forall|j: int| from <= j && j + pat@.len() <= v@.len() implies #[trigger] v@.subrange(
        j,
        j + pat@.len(),
    ) == rest.subrange(j - from, j - from + pat@.len()) by {}
    assert forall|at: Option<usize>| #[trigger]
        call_ensures(find_from, (v, from, pat), at) implies match at {
        Some(i) => {
            &&& from <= i && i + pat@.len() <= v@.len()
            &&& v@.subrange(i as int, i + pat@.len()) == pat@
            &&& forall|j: int| from <= j < i ==> #[trigger] v@.subrange(j, j + pat@.len()) != pat@
        },
        None => forall|j: int|
            from <= j && j + pat@.len() <= v@.len() ==> #[trigger] v@.subrange(j, j + pat@.len())
                != pat@,
    } by {
        match at {
            Some(i) => {
                assert(crate::pattern::occurs_at(rest, pat@, i - from));
                assert forall|j: int| from <= j < i implies #[trigger] v@.subrange(
                    j,
                    j + pat@.len(),
                ) != pat@ by {
                    assert(!crate::pattern::occurs_at(rest, pat@, j - from));
                }
            },
            None => {
                assert forall|j: int|
                    from <= j && j + pat@.len() <= v@.len() implies #[trigger] v@.subrange(
                    j,
                    j + pat@.len(),
                ) != pat@ by {
                    assert(!crate::pattern::occurs_at(rest, pat@, j - from));
                }
            },
        }
    }
}

/// Writing and reading numbers.
pub proof fn law_number_operations(s: &str, n: u64, w: usize, i: i32)
    ensures
        forall|out: &mut String| #[trigger]
            call_ensures(push_decimal, (out, n), ()) ==> (*final(out))@ == (*out)@ + decimal(
                n as nat,
            ),
        forall|out: String| #[trigger]
            call_ensures(decimal_text, (n,), out) ==> out@ == decimal(n as nat),
        forall|out: &mut String| #[trigger]
            call_ensures(push_padded, (out, n, w), ()) ==> (*final(out))@ == (*out)@ + padded(
                n as nat,
                w as nat,
            ),
        forall|out: Option<u64>| #[trigger]
            call_ensures(parse_u64, (s,), out) ==> out == u64_of(s@),
        forall|out: String| #[trigger]
            call_ensures(signed_text, (i,), out) ==> out@ == signed_decimal(i as int),
        forall|out: &mut String| #[trigger]
            call_ensures(push_hex, (out, n), ()) ==> (*final(out))@ == (*out)@ + hexadecimal(
                n as nat,
            ),
        forall|out: String| #[trigger]
            call_ensures(file_size_text, (n,), out) ==> out@ == size_text(n as nat),
        forall|out: String| #[trigger]
            call_ensures(bitrate_text, (n,), out) ==> out@ == rate_text(n as nat),
{
}

/// Comparing and ordering texts.
pub proof fn law_order_operations(a: &Vec<char>, b: &Vec<char>, keys: &Vec<Vec<Vec<char>>>)
    ensures
        forall|yes: bool| #[trigger]
            call_ensures(text_not_above, (a, b), yes) ==> (yes <==> text_le(a@, b@)),
        forall|order: Vec<usize>| #[trigger]
            call_ensures(stable_order, (keys,), order) ==> order@.len() == keys@.len()
                && order@.map_values(|i: usize| i as int) == sorted_indices(
                keys_of(keys@),
                keys@.len(),
            ),
{
    assert forall|order: Vec<usize>| #[trigger]
        call_ensures(stable_order, (keys,), order) implies order@.map_values(|i: usize| i as int)
        == sorted_indices(keys_of(keys@), keys@.len()) by {
        assert(order@.map_values(|i: usize| i as int) == indices(order@));
    }
}

// ---------------------------------------------------------------------------
// JSON
// ---------------------------------------------------------------------------

/// A JSON value is read as what it is.
pub proof fn law_json_operations(value: &Json, key: &str)
    ensures
        forall|text: Option<&String>| #[trigger]
            call_ensures(Json::as_str, (value,), text) ==> (text is Some <==> *value is Text) && (
            text is Some ==> text->0@ == (*value)->Text_0@),
        forall|n: Option<u64>| #[trigger]
            call_ensures(Json::as_u64, (value,), n) ==> n == (if *value is Number {
                (*value)->Number_0
            } else {
                None
            }),
        forall|list: Option<&Vec<Json>>| #[trigger]
            call_ensures(Json::as_array, (value,), list) ==> (list is Some <==> *value is Array)
                && (list is Some ==> trees(list->0@) == trees((*value)->Array_0@)),
        forall|list: Option<&Vec<(String, Json)>>| #[trigger]
            call_ensures(Json::as_object, (value,), list) ==> (list is Some <==> *value is Object)
                && (list is Some ==> entry_trees(list->0@) == entry_trees((*value)->Object_0@)),
        forall|field: Option<&Json>| #[trigger]
            call_ensures(Json::get, (value, key), field) ==> (field is Some
                <==> value.tree().field(key@) is Some) && (field is Some ==> field->0.tree()
                == value.tree().field(key@)->0),
        forall|text: Option<&String>| #[trigger]
            call_ensures(Json::get_str, (value, key), text) ==> (text is Some <==> value.tree().field(
                key@,
            ) matches Some(JsonView::Text(_))) && (text is Some ==> JsonView::Text(text->0@)
                == value.tree().field(key@)->0),
        forall|n: Option<u64>| #[trigger]
            call_ensures(Json::get_u64, (value, key), n) ==> n == (
            if value.tree().field(key@) matches Some(JsonView::Number(_)) {
                (value.tree().field(key@)->0)->Number_0
            } else {
                None
            }),
{
    if *value is Array {
        assert(value.tree()->Array_0 == trees((*value)->Array_0@));
    }
    if *value is Object {
        assert(value.tree()->Object_0 == entry_trees((*value)->Object_0@));
    }
}

/// The tree of a JSON value has the same shape and the same texts.
pub proof fn law_json_tree(value: Json, i: int)
    ensures
        match value {
            Json::Null => value.tree() is Null,
            Json::Bool(b) => value.tree() == JsonView::Bool(b),
            Json::Number(n) => value.tree() == JsonView::Number(n),
            Json::Text(s) => value.tree() == JsonView::Text(s@),
            Json::Array(v) => {
                &&& value.tree() is Array
                &&& value.tree()->Array_0.len() == v@.len()
                &&& 0 <= i < v@.len() ==> value.tree()->Array_0[i] == v@[i].tree()
            },
            Json::Object(v) => {
                &&& value.tree() is Object
                &&& value.tree()->Object_0.len() == v@.len()
                &&& 0 <= i < v@.len() ==> value.tree()->Object_0[i] == (v@[i].0@, v@[i].1.tree())
            },
        },
{
}

// ---------------------------------------------------------------------------
// Lyrics
// ---------------------------------------------------------------------------

/// A line of NetEase's lyrics is its time stamp, if it has one, and the texts
/// of all its chunks one after the other; a value without chunks, or whose
/// chunks hold no text, is none.
pub proof fn law_netease_text(value: &Json, line: Option<String>, chunks: Seq<JsonView>)
    requires
        call_ensures(netease_lyric_text, (value,), line),
        value.tree().field("c"@) == Some(JsonView::Array(chunks)),
    ensures
        ({
            let text = trimmed(
                chunks.filter_map(|chunk: JsonView| chunk.text_field("tx"@)).flatten(),
            );
            &&& line is None <==> text.len() == 0
            &&& line is Some ==> line->0@ == (match value.tree().number_field("t"@) {
                Some(ms) => stamp_of(ms as nat) + text,
                None => text,
            })
        }),
{
    lemma_chunks_run_together(chunks);
}

/// The texts of chunks are run together.
proof fn lemma_chunks_run_together(chunks: Seq<JsonView>)
    ensures
        chunk_text(chunks) == chunks.filter_map(
            |chunk: JsonView| chunk.text_field("tx"@),
        ).flatten(),
    decreases chunks.len(),
{
    let tx = |chunk: JsonView| chunk.text_field("tx"@);
    let all = chunks.filter_map(tx);
    if chunks.len() == 0 {
        assert(all == Seq::<Seq<char>>::empty());
        assert(all.flatten() == Seq::<char>::empty());
    } else {
        lemma_chunks_run_together(chunks.drop_last());
        let before = chunks.drop_last().filter_map(tx);
        if tx(chunks.last()) is Some {
            assert(all == before + seq![tx(chunks.last())->0]);
            assert(all.drop_last() == before);
            assert(all.last() == tx(chunks.last())->0);
            lemma_last_run_together(all);
        }
    }
}

/// Lyrics are read from JSON, put in order and taken out of what ffprobe wrote.
pub proof fn law_lyrics_operations(
    ms: u64,
    value: &Json,
    line: &str,
    raw: &str,
    output: &Option<Vec<u8>>,
)
    ensures
        forall|out: String| #[trigger]
            call_ensures(format_lyric_timestamp, (ms,), out) ==> out@ == stamp_of(ms as nat),
        forall|out: Option<String>| #[trigger]
            call_ensures(netease_lyric_text, (value,), out) ==> text_opt(out) == netease_line(
                value.tree(),
            ),
        forall|out: Option<String>| #[trigger]
            call_ensures(parse_netease_json_lyric_line, (line,), out) ==> text_opt(out) == (
            if json_of_text(line@) is Some {
                netease_line(json_of_text(line@)->0)
            } else {
                None
            }),
        forall|out: String| #[trigger]
            call_ensures(normalize_lyrics, (raw,), out) ==> out@ == normal_lyrics(raw@),
        forall|out: Option<String>| #[trigger]
            call_ensures(lyrics_from_probe_value, (value,), out) ==> text_opt(out) == probe_lyrics(
                value.tree(),
            ),
        forall|out: Option<String>| #[trigger]
            call_ensures(extract_embedded_lyrics, (output,), out) ==> text_opt(out) == (
            if *output is Some && json_of_bytes((*output)->0@) is Some {
                probe_lyrics(json_of_bytes((*output)->0@)->0)
            } else {
                None
            }),
{
}

// ---------------------------------------------------------------------------
// Information
// ---------------------------------------------------------------------------

/// What is shown about a file, whichever tool tells it: the name, the file, the
/// rows, and what the tool wrote. If the size is known, it is the first row.
pub proof fn law_info_shown(
    path: &FilePath,
    output: &Option<Vec<u8>>,
    raw: String,
    size: Option<u64>,
    duration: Option<Span>,
    probed: Option<MediaInfo>,
    told: MediaInfo,
    shown_size: String,
)
    requires
        call_ensures(media_info_from_ffprobe, (path, output, size, duration), probed),
        call_ensures(media_info_from_ffmpeg, (path, raw, size, duration), told),
        size is Some ==> call_ensures(file_size_text, (size->0,), shown_size),
    ensures
        size is Some ==> told.rows@.len() > 0 && told.rows@[0].0@ == "文件大小"@ && told.rows@[0].1@
            == shown_size@,
        size is Some && probed is Some ==> probed->0.rows@.len() > 0 && probed->0.rows@[0].0@
            == "文件大小"@ && probed->0.rows@[0].1@ == shown_size@,
        rows_view(told.rows@) == ffmpeg_rows(raw@, size, duration),
        told.path@ == path@,
        told.raw@ == raw@,
        told.title@ == (if path@.file_name() is Some {
            path@.file_name()->0
        } else {
            seq![]
        }),
        probed is Some ==> {
            &&& *output is Some
            &&& json_of_bytes((*output)->0@) is Some
            &&& rows_view(probed->0.rows@) == probe_rows(
                json_of_bytes((*output)->0@)->0,
                size,
                duration,
            )
            &&& probed->0.path@ == path@
            &&& probed->0.raw@ == lossy_text((*output)->0@)
            &&& probed->0.title@ == told.title@
        },
        probed is None <==> *output is None || json_of_bytes((*output)->0@) is None || probe_rows(
            json_of_bytes((*output)->0@)->0,
            size,
            duration,
        ).len() == 0,
{
    assert(told@.rows == rows_view(told.rows@));
    crate::laws::information::law_size_first(
        if *output is Some && json_of_bytes((*output)->0@) is Some {
            json_of_bytes((*output)->0@)->0
        } else {
            JsonView::Null
        },
        raw@,
        size,
        duration,
    );
    if size is Some {
        assert(rows_view(told.rows@)[0] == (told.rows@[0].0@, told.rows@[0].1@));
    }
    if probed is Some {
        assert(probed->0@.rows == rows_view(probed->0.rows@));
        if size is Some {
            assert(rows_view(probed->0.rows@)[0] == (
                probed->0.rows@[0].0@,
                probed->0.rows@[0].1@,
            ));
        }
    }
}

/// What the tools wrote is read: a value, seconds, a duration, a bit rate.
pub proof fn law_info_operations(
    text: &str,
    output: &Option<Vec<u8>>,
    bytes: &Vec<u8>,
    value: &Json,
    path: &FilePath,
    size: Option<u64>,
    duration: Option<Span>,
    raw: String,
)
    ensures
        forall|out: Option<(String, String, String)>| #[trigger]
            call_ensures(duration_fields, (text,), out) ==> ({
                let parts = fields_of(text@, ':');
                &&& out is Some <==> parts.len() >= 3
                &&& out is Some ==> (out->0).0@ == parts[0] && (out->0).1@ == parts[1] && (out->0).2@
                    == parts[2]
            }),
        forall|out: Option<Json>| #[trigger]
            call_ensures(read_probe, (output,), out) ==> json_opt(out) == (if *output is Some {
                json_of_bytes((*output)->0@)
            } else {
                None
            }),
        forall|out: String| #[trigger]
            call_ensures(probed_seconds, (bytes,), out) ==> out@ == trimmed(lossy_text(bytes@)),
        forall|out: Option<String>| #[trigger]
            call_ensures(probe_duration_text, (value,), out) ==> text_opt(out) == probed_duration(
                value.tree(),
            ),
        forall|out: Option<MediaInfo>| #[trigger]
            call_ensures(media_info_of_value, (path, value, size, duration, raw), out)
                ==> crate::info::info_opt(out) == probe_info(
                path@,
                value.tree(),
                size,
                duration,
                raw@,
            ),
        forall|out: String| #[trigger]
            call_ensures(ffmpeg_report, (output,), out) ==> out@ == (if *output is Some {
                lossy_text((*output)->0@)
            } else {
                "未找到 ffmpeg，无法读取媒体流信息。"@
            }),
        forall|out: Option<String>| #[trigger]
            call_ensures(ffmpeg_duration_text, (text,), out) ==> text_opt(out) == spelled_duration(
                text@,
            ),
        forall|out: Option<u64>| #[trigger]
            call_ensures(ffmpeg_bit_rate, (text,), out) ==> out == spelled_rate(text@),
{
}

/// The duration that ffprobe tells is that of the file as it spells it.
pub proof fn law_probed_duration(value: JsonView)
    ensures
        probed_duration(value) == (match value.field("format"@) {
            Some(format) => format.text_field("duration"@),
            None => None,
        }),
{
}

// ---------------------------------------------------------------------------
// Scanning
// ---------------------------------------------------------------------------

/// The extensions of audio, of the files that are scanned for, and of stems.
pub proof fn law_extensions()
    ensures
        forall|exts: Vec<&'static str>| #[trigger]
            call_ensures(converted_exts, (), exts) ==> exts.deep_view() == seq![
                "flac"@,
                "mp3"@,
                "wav"@,
                "m4a"@,
                "aac"@,
                "ogg"@,
                "wma"@,
                "aiff"@,
                "aif"@,
            ],
        forall|exts: Vec<&'static str>| #[trigger]
            call_ensures(input_exts, (), exts) ==> exts.deep_view() == seq![
                "flac"@,
                "mp3"@,
                "wav"@,
                "m4a"@,
                "aac"@,
                "ogg"@,
                "wma"@,
                "aiff"@,
                "aif"@,
                "ncm"@,
            ],
        forall|exts: Vec<&'static str>| #[trigger]
            call_ensures(stem_exts, (), exts) ==> exts.deep_view() == seq![
                "wav"@,
                "mp3"@,
                "flac"@,
                "m4a"@,
                "aac"@,
                "ogg"@,
                "wma"@,
            ],
{
}

/// A scan lists a file exactly if it was walked and has, in lower case, one of
/// the ten extensions; so does the scan of the window. A directory that does
/// not exist has nothing to list.
pub proof fn law_scanned(
    exists_dir: bool,
    walked: &Vec<FilePath>,
    found: &Vec<Found>,
    shown: (Vec<AudioItem>, String),
    path: PathView,
)
    requires
        call_ensures(scan_for_window, (exists_dir, walked, found), shown),
    ensures
        ({
            let wanted = exists_dir && is_input(path) && exists|k: int|
                0 <= k < walked@.len() && (#[trigger] walked@[k])@ == path;
            &&& wanted <==> exists|i: int|
                0 <= i < shown.0@.len() && (#[trigger] shown.0@[i]).path@ == path
            &&& forall|items: &mut Vec<AudioItem>, count: usize| #[trigger]
                call_ensures(scan_inputs, (exists_dir, walked, found, items), count) ==> {
                    &&& count == (*final(items))@.len()
                    &&& wanted <==> exists|i: int|
                        0 <= i < count && (#[trigger] (*final(items))@[i]).path@ == path
                }
        }),
        exists_dir ==> items_view(shown.0@) == input_items(
            paths_view(walked@),
            found_view(found@),
            true,
        ),
        shown.1@ == (if exists_dir {
            "已扫描 "@ + decimal(shown.0@.len()) + " 个文件, "@ + decimal(
                items_view(shown.0@).filter(|i: ItemView| i.process_path is Some).len(),
            ) + " 个可分离"@
        } else {
            "音频目录不存在"@
        }),
        forall|items: &mut Vec<AudioItem>, count: usize| #[trigger]
            call_ensures(scan_inputs, (true, walked, found, items), count) ==> items_view(
                (*final(items))@,
            ) == input_items(paths_view(walked@), found_view(found@), false),
{
    let files = paths_view(walked@);
    let seen = found_view(found@);
    lemma_walked(walked@, path);
    law_scan_lists_exactly(files, seen, true, path);
    law_scan_lists_exactly(files, seen, false, path);
    lemma_listed(shown.0@, path);
    lemma_ready_count(items_view(shown.0@));
    assert(items_view(shown.0@).len() == shown.0@.len());
    let wanted = exists_dir && is_input(path) && exists|k: int|
        0 <= k < walked@.len() && (#[trigger] walked@[k])@ == path;
    assert forall|items: &mut Vec<AudioItem>, count: usize| #[trigger]
        call_ensures(scan_inputs, (exists_dir, walked, found, items), count) implies {
        &&& count == (*final(items))@.len()
        &&& wanted <==> exists|i: int|
            0 <= i < count && (#[trigger] (*final(items))@[i]).path@ == path
    } by {
        lemma_listed((*final(items))@, path);
    }
}

/// A file was walked exactly if it is one of the list.
proof fn lemma_walked(walked: Seq<FilePath>, path: PathView)
    ensures
        paths_view(walked).contains(path) <==> exists|k: int|
            0 <= k < walked.len() && (#[trigger] walked[k])@ == path,
{
    let files = paths_view(walked);
    if files.contains(path) {
        let k = choose|k: int| 0 <= k < files.len() && files[k] == path;
        assert(walked[k]@ == path);
    }
    if exists|k: int| 0 <= k < walked.len() && (#[trigger] walked[k])@ == path {
        let k = choose|k: int| 0 <= k < walked.len() && (#[trigger] walked[k])@ == path;
        assert(files[k] == path);
    }
}

/// A file is listed exactly if one of the items is it.
proof fn lemma_listed(items: Seq<AudioItem>, path: PathView)
    ensures
        (exists|i: int| 0 <= i < items_view(items).len() && (#[trigger] items_view(items)[i]).path
            == path) <==> exists|i: int|
            0 <= i < items.len() && (#[trigger] items[i]).path@ == path,
{
    let view = items_view(items);
    if exists|i: int| 0 <= i < view.len() && (#[trigger] view[i]).path == path {
        let i = choose|i: int| 0 <= i < view.len() && (#[trigger] view[i]).path == path;
        assert(items[i].path@ == path);
    }
    if exists|i: int| 0 <= i < items.len() && (#[trigger] items[i]).path@ == path {
        let i = choose|i: int| 0 <= i < items.len() && (#[trigger] items[i]).path@ == path;
        assert(view[i].path == path);
    }
}

/// An NCM file is known by its extension, letter for letter or whatever their
/// case; where its audio lies is looked for under its name, with each of the
/// nine extensions.
pub proof fn law_ncm_operations(
    path: &FilePath,
    fold: bool,
    walked: &Vec<FilePath>,
    found: &Vec<Found>,
)
    ensures
        forall|yes: bool| #[trigger]
            call_ensures(is_ncm_file, (path, fold), yes) ==> (yes <==> path@.extension() is Some && (
            if fold {
                crate::letters::lowercase_of(path@.extension()->0)
            } else {
                path@.extension()->0
            }) == "ncm"@),
        forall|places: Vec<Candidate>| #[trigger]
            call_ensures(ncm_candidates, (path,), places) ==> candidates_view(places@) == seq![
                "flac"@,
                "mp3"@,
                "wav"@,
                "m4a"@,
                "aac"@,
                "ogg"@,
                "wma"@,
                "aiff"@,
                "aif"@,
            ].map_values(
                |ext: Seq<char>|
                    CandidateView { base: path@.with_extension(ext).text, below: seq![] },
            ),
        forall|item: AudioItem| #[trigger]
            call_ensures(make_ncm_item, (path, walked, found), item) ==> item@ == ncm_item(
                path@,
                paths_view(walked@),
                found_view(found@),
            ),
{
    let place = |ext: Seq<char>|
        CandidateView { base: path@.with_extension(ext).text, below: seq![] };
    let exts = seq![
        "flac"@,
        "mp3"@,
        "wav"@,
        "m4a"@,
        "aac"@,
        "ogg"@,
        "wma"@,
        "aiff"@,
        "aif"@,
    ];
    assert(crate::media::converted_list() == exts);
    assert(crate::scan::sibling_places(path@) == exts.map_values(place));
}

/// A scan of stems lists those of the walked files, and keeps the selection if
/// it is still there. Which files get metadata, and how many did.
pub proof fn law_stem_operations(
    exists_dir: bool,
    walked: &Vec<FilePath>,
    selected: Option<usize>,
    dir: &FilePath,
    outputs: &Vec<Option<FilePath>>,
)
    ensures
        forall|shown: (Vec<StemItem>, Option<usize>)| #[trigger]
            call_ensures(scan_stems, (exists_dir, walked, selected), shown) ==> {
                &&& stems_view(shown.0@) == (if exists_dir {
                    stem_items(paths_view(walked@))
                } else {
                    seq![]
                })
                &&& shown.1 == (if selected is Some && selected->0 < shown.0@.len() {
                    selected
                } else {
                    None
                })
            },
        forall|out: Vec<FilePath>| #[trigger]
            call_ensures(files_to_stamp, (walked, dir), out) ==> paths_view(out@) == paths_view(
                walked@,
            ).filter(
                |p: PathView|
                    p.extension() == Some("wav"@) && p.parent_parts() is Some
                        && p.parent_parts()->0 != dir@.parts,
            ),
        forall|count: usize| #[trigger]
            call_ensures(stamp_metadata_for_source, (outputs,), count) ==> count == outputs_view(
                outputs@,
            ).filter(|s: Option<PathView>| s is Some).len(),
{
    law_files_stamped(paths_view(walked@), dir@);
    law_stamped_count(outputs_view(outputs@));
}

/// Copies of separators are the same separators.
pub proof fn law_copies(list: &Vec<SeparatorConfig>, out: Vec<SeparatorConfig>)
    requires
        call_ensures(copy_configs, (list,), out),
    ensures
        configs_view(out@) == configs_view(list@),
{
}

} // verus!
