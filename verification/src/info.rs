//! What the application says about a media file: from what ffprobe writes,
//! or else from what FFmpeg writes.

use crate::double::{bitrate_text, file_size_text, rate_text, size_text};
use crate::json::{json_of_bytes, json_opt, parse_json_bytes, trees, Json, JsonView};
use crate::number::{decimal, padded, parse_u64, push_decimal, push_padded, u64_of};
use crate::path::{FilePath, PathView};
use crate::pattern::{
    after_first, before_char, before_char_of, contains, fields, fields_of, join, join_of, occurs_in,
    split_once_of,
};
use crate::text::{
    decode_lossy, first_word, first_word_of, lines, lines_of, lossy_text, same_text, text_opt,
    texts, trim, trimmed,
};
use vstd::prelude::*;

verus! {

// ---------------------------------------------------------------------------
// Times
// ---------------------------------------------------------------------------

/// A time as whole seconds and the milliseconds beyond them.
#[derive(Debug, Clone, Copy)]
pub struct Span {
    pub secs: u64,
    pub millis: u32,
}

/// A time in minutes and seconds.
pub fn format_time(secs: u64) -> (text: String)
    ensures
        text@ == padded((secs / 60) as nat, 2) + ":"@ + padded((secs % 60) as nat, 2),
{
    let mut text = String::new();
    push_padded(&mut text, secs / 60, 2);
    text.append(":");
    push_padded(&mut text, secs % 60, 2);
    assert(text@ == padded((secs / 60) as nat, 2) + ":"@ + padded((secs % 60) as nat, 2));
    text
}

/// A time in hours, minutes, seconds and milliseconds.
pub open spec fn span_text(span: Span) -> Seq<char> {
    padded((span.secs / 3600) as nat, 2) + ":"@ + padded((span.secs % 3600 / 60) as nat, 2) + ":"@
        + padded((span.secs % 60) as nat, 2) + "."@ + padded(span.millis as nat, 3)
}

/// A time in hours, minutes, seconds and milliseconds.
pub fn duration_detail_text(span: Span) -> (text: String)
    ensures
        text@ == span_text(span),
{
    let mut text = String::new();
    push_padded(&mut text, span.secs / 3600, 2);
    text.append(":");
    push_padded(&mut text, (span.secs % 3600) / 60, 2);
    text.append(":");
    push_padded(&mut text, span.secs % 60, 2);
    text.append(".");
    push_padded(&mut text, span.millis as u64, 3);
    assert(text@ == span_text(span));
    text
}

/// The hours, minutes and seconds of a text that separates them by colons.
pub open spec fn clock_fields(text: Seq<char>) -> Option<(Seq<char>, Seq<char>, Seq<char>)> {
    let f = fields_of(text, ':');
    if f.len() >= 3 {
        Some((f[0], f[1], f[2]))
    } else {
        None
    }
}

/// The hours, minutes and seconds of a text that separates them by colons.
pub fn duration_fields(text: &str) -> (out: Option<(String, String, String)>)
    ensures
        match out {
            Some(f) => clock_fields(text@) == Some((f.0@, f.1@, f.2@)),
            None => clock_fields(text@) is None,
        },
{
    let f = fields(text, ':');
    assert(texts(f@).len() == f@.len());
    if f.len() < 3 {
        return None;
    }
    assert(texts(f@)[0] == f@[0]@ && texts(f@)[1] == f@[1]@ && texts(f@)[2] == f@[2]@);
    Some((f[0].clone(), f[1].clone(), f[2].clone()))
}

// ---------------------------------------------------------------------------
// Rows
// ---------------------------------------------------------------------------

/// What is shown about a media file.
#[derive(Debug)]
pub struct MediaInfo {
    pub title: String,
    pub path: FilePath,
    /// Labels and what they label.
    pub rows: Vec<(String, String)>,
    /// What the tool wrote.
    pub raw: String,
}

/// What is shown about a media file, as a value.
pub struct InfoView {
    pub title: Seq<char>,
    pub path: PathView,
    pub rows: Seq<(Seq<char>, Seq<char>)>,
    pub raw: Seq<char>,
}

/// The rows of a list as values.
pub open spec fn rows_view(rows: Seq<(String, String)>) -> Seq<(Seq<char>, Seq<char>)> {
    rows.map_values(|r: (String, String)| (r.0@, r.1@))
}

impl View for MediaInfo {
    type V = InfoView;

    open spec fn view(&self) -> InfoView {
        InfoView {
            title: self.title@,
            path: self.path@,
            rows: rows_view(self.rows@),
            raw: self.raw@,
        }
    }
}

/// Appends a row.
fn push_row(rows: &mut Vec<(String, String)>, label: &str, text: String)
    ensures
        rows_view(final(rows)@) == rows_view(old(rows)@).push((label@, text@)),
{
    rows.push((label.to_owned(), text));
    assert(rows_view(rows@) == rows_view(old(rows)@).push((label@, text@)));
}

/// One row, if there is something to show in it.
pub open spec fn row(label: Seq<char>, text: Option<Seq<char>>) -> Seq<(Seq<char>, Seq<char>)> {
    match text {
        Some(t) => seq![(label, t)],
        None => Seq::empty(),
    }
}

/// Appends a row, if there is something to show in it.
fn push_row_opt(rows: &mut Vec<(String, String)>, label: &str, text: Option<String>)
    ensures
        rows_view(final(rows)@) == rows_view(old(rows)@) + row(label@, text_opt(text)),
{
    match text {
        Some(t) => {
            push_row(rows, label, t);
            assert(rows_view(rows@) == rows_view(old(rows)@) + seq![(label@, t@)]);
        },
        None => {
            assert(rows_view(rows@) == rows_view(old(rows)@) + Seq::<
                (Seq<char>, Seq<char>),
            >::empty());
        },
    }
}

/// The row of the size of the file, if that is known.
pub open spec fn size_row(size: Option<u64>) -> Seq<(Seq<char>, Seq<char>)> {
    row(
        "文件大小"@,
        match size {
            Some(n) => Some(size_text(n as nat)),
            None => None,
        },
    )
}

/// The row of the duration, if that is known.
pub open spec fn duration_row(duration: Option<Span>) -> Seq<(Seq<char>, Seq<char>)> {
    row(
        "时长"@,
        match duration {
            Some(d) => Some(span_text(d)),
            None => None,
        },
    )
}

/// Appends the row of the size of the file, if that is known.
fn push_size(rows: &mut Vec<(String, String)>, size: Option<u64>)
    ensures
        rows_view(final(rows)@) == rows_view(old(rows)@) + size_row(size),
{
    let text = match size {
        Some(n) => Some(file_size_text(n)),
        None => None,
    };
    push_row_opt(rows, "文件大小", text);
}

/// Appends the row of the duration, if that is known.
fn push_duration(rows: &mut Vec<(String, String)>, duration: Option<Span>)
    ensures
        rows_view(final(rows)@) == rows_view(old(rows)@) + duration_row(duration),
{
    let text = match duration {
        Some(d) => Some(duration_detail_text(d)),
        None => None,
    };
    push_row_opt(rows, "时长", text);
}

// ---------------------------------------------------------------------------
// What ffprobe writes
// ---------------------------------------------------------------------------

/// What ffprobe wrote, read as JSON, given its output if it succeeded.
pub fn read_probe(output: &Option<Vec<u8>>) -> (value: Option<Json>)
    ensures
        json_opt(value) == (match *output {
            Some(bytes) => json_of_bytes(bytes@),
            None => None,
        }),
{
    match output {
        Some(bytes) => parse_json_bytes(bytes.as_slice()),
        None => None,
    }
}

/// The number of seconds that ffprobe wrote where it was asked for nothing
/// else, as it spells it.
pub fn probed_seconds(output: &Vec<u8>) -> (text: String)
    ensures
        text@ == trimmed(lossy_text(output@)),
{
    trim(decode_lossy(output.as_slice()).as_str())
}

/// The duration that ffprobe gives of the whole file, as it spells it.
pub open spec fn probed_duration(value: JsonView) -> Option<Seq<char>> {
    match value.field("format"@) {
        Some(format) => format.text_field("duration"@),
        None => None,
    }
}

/// The duration that ffprobe gives of the whole file, as it spells it.
pub fn probe_duration_text(value: &Json) -> (text: Option<String>)
    ensures
        text_opt(text) == probed_duration(value.tree()),
{
    match value.get("format") {
        Some(format) => match format.get_str("duration") {
            Some(s) => Some(s.clone()),
            None => None,
        },
        None => None,
    }
}

/// The name of a format: the long one if there is one.
pub open spec fn format_name_of(format: JsonView) -> Option<Seq<char>> {
    match format.text_field("format_long_name"@) {
        Some(s) => Some(s),
        None => format.text_field("format_name"@),
    }
}

/// The bit rate of a format or a stream, as it is shown.
pub open spec fn shown_rate(part: JsonView) -> Option<Seq<char>> {
    match part.text_field("bit_rate"@) {
        Some(s) => match u64_of(s) {
            Some(n) => Some(rate_text(n as nat)),
            None => None,
        },
        None => None,
    }
}

/// The rows about the format.
pub open spec fn format_rows(value: JsonView, duration: Option<Span>) -> Seq<
    (Seq<char>, Seq<char>),
> {
    match value.field("format"@) {
        Some(format) => row("格式"@, format_name_of(format)) + duration_row(duration) + row(
            "总体码率"@,
            shown_rate(format),
        ),
        None => Seq::empty(),
    }
}

/// The label of a stream.
pub open spec fn stream_label(stream: JsonView) -> Seq<char> {
    match stream.text_field("codec_type"@) {
        Some(t) => if t == "audio"@ {
            "音频流"@
        } else if t == "video"@ {
            "视频/封面流"@
        } else {
            "数据流"@
        },
        None => "数据流"@,
    }
}

/// One text, if there is one.
pub open spec fn one(text: Option<Seq<char>>) -> Seq<Seq<char>> {
    match text {
        Some(t) => seq![t],
        None => Seq::empty(),
    }
}

/// The details of a stream: its codec, sample rate, channels, bit rate and
/// picture size, as far as they are known.
pub open spec fn stream_details(stream: JsonView) -> Seq<Seq<char>> {
    one(stream.text_field("codec_name"@)) + one(
        match stream.text_field("sample_rate"@) {
            Some(r) => Some(r + " Hz"@),
            None => None,
        },
    ) + one(
        match stream.number_field("channels"@) {
            Some(n) => Some(decimal(n as nat) + " 声道"@),
            None => None,
        },
    ) + one(shown_rate(stream)) + one(
        match (stream.number_field("width"@), stream.number_field("height"@)) {
            (Some(w), Some(h)) => Some(decimal(w as nat) + "x"@ + decimal(h as nat)),
            _ => None,
        },
    )
}

/// The row about a stream, if anything is known about it.
pub open spec fn stream_row(stream: JsonView) -> Seq<(Seq<char>, Seq<char>)> {
    let details = stream_details(stream);
    if details.len() == 0 {
        Seq::empty()
    } else {
        seq![(stream_label(stream), join_of(details, " / "@))]
    }
}

/// The rows about the streams.
pub open spec fn stream_rows(streams: Seq<JsonView>) -> Seq<(Seq<char>, Seq<char>)>
    decreases streams.len(),
{
    if streams.len() == 0 {
        Seq::empty()
    } else {
        stream_rows(streams.drop_last()) + stream_row(streams.last())
    }
}

/// The rows about the streams of a file.
pub open spec fn all_stream_rows(value: JsonView) -> Seq<(Seq<char>, Seq<char>)> {
    match value.field("streams"@) {
        Some(streams) => match streams.elements() {
            Some(list) => stream_rows(list),
            None => Seq::empty(),
        },
        None => Seq::empty(),
    }
}

/// All rows made of what ffprobe wrote.
pub open spec fn probe_rows(value: JsonView, size: Option<u64>, duration: Option<Span>) -> Seq<
    (Seq<char>, Seq<char>),
> {
    size_row(size) + format_rows(value, duration) + all_stream_rows(value)
}

/// A copy of an optional text.
fn copy_str(s: Option<&String>) -> (out: Option<String>)
    ensures
        match s {
            Some(t) => text_opt(out) == Some(t@),
            None => out is None,
        },
{
    match s {
        Some(t) => Some(t.clone()),
        None => None,
    }
}

/// The bit rate of a format or a stream, as it is shown.
fn rate_of(part: &Json) -> (text: Option<String>)
    ensures
        text_opt(text) == shown_rate(part.tree()),
{
    match part.get_str("bit_rate") {
        Some(s) => match parse_u64(s.as_str()) {
            Some(n) => Some(bitrate_text(n)),
            None => None,
        },
        None => None,
    }
}

/// Appends a text, if there is one.
fn push_one(list: &mut Vec<String>, text: Option<String>)
    ensures
        texts(final(list)@) == texts(old(list)@) + one(text_opt(text)),
{
    match text {
        Some(t) => {
            list.push(t);
            assert(texts(list@) == texts(old(list)@) + seq![t@]);
        },
        None => {
            assert(texts(list@) == texts(old(list)@) + Seq::<Seq<char>>::empty());
        },
    }
}

/// The details of a stream.
fn details_of(stream: &Json) -> (details: Vec<String>)
    ensures
        texts(details@) == stream_details(stream.tree()),
{
    let mut details: Vec<String> = Vec::new();
    assert(texts(details@) == Seq::<Seq<char>>::empty());
    push_one(&mut details, copy_str(stream.get_str("codec_name")));
    assert(texts(details@) == one(stream.tree().text_field("codec_name"@)));
    let rate = match stream.get_str("sample_rate") {
        Some(r) => {
            let mut t = r.clone();
            t.append(" Hz");
            Some(t)
        },
        None => None,
    };
    push_one(&mut details, rate);
    let channels = match stream.get_u64("channels") {
        Some(n) => {
            let mut t = String::new();
            push_decimal(&mut t, n);
            t.append(" 声道");
            assert(t@ == decimal(n as nat) + " 声道"@);
            Some(t)
        },
        None => None,
    };
    push_one(&mut details, channels);
    push_one(&mut details, rate_of(stream));
    let picture = match (stream.get_u64("width"), stream.get_u64("height")) {
        (Some(w), Some(h)) => {
            let mut t = String::new();
            push_decimal(&mut t, w);
            t.append("x");
            push_decimal(&mut t, h);
            assert(t@ == decimal(w as nat) + "x"@ + decimal(h as nat));
            Some(t)
        },
        _ => None,
    };
    push_one(&mut details, picture);
    details
}

/// The label of a stream.
fn label_of(stream: &Json) -> (label: &'static str)
    ensures
        label@ == stream_label(stream.tree()),
{
    match stream.get_str("codec_type") {
        Some(t) => if same_text(t.as_str(), "audio") {
            "音频流"
        } else if same_text(t.as_str(), "video") {
            "视频/封面流"
        } else {
            "数据流"
        },
        None => "数据流",
    }
}

/// Appends the rows about the streams.
fn push_streams(rows: &mut Vec<(String, String)>, list: &Vec<Json>)
    ensures
        rows_view(final(rows)@) == rows_view(old(rows)@) + stream_rows(trees(list@)),
{
    let ghost start = rows_view(rows@);
    let ghost all = trees(list@);
    assert(all.take(0) == Seq::<JsonView>::empty());
    assert(start + stream_rows(all.take(0)) == start);
    for i in 0..list.len()
        invariant
            all == trees(list@),
            rows_view(rows@) == start + stream_rows(all.take(i as int)),
    {
        assert(all.take(i + 1).drop_last() == all.take(i as int));
        assert(all.take(i + 1).last() == list@[i as int].tree());
        let details = details_of(&list[i]);
        assert(texts(details@).len() == details@.len());
        let ghost before = rows_view(rows@);
        if details.len() > 0 {
            push_row(rows, label_of(&list[i]), join(&details, " / "));
        }
        assert(rows_view(rows@) == before + stream_row(all[i as int]));
        assert(rows_view(rows@) == start + (stream_rows(all.take(i as int)) + stream_row(
            all[i as int],
        )));
    }
    assert(all.take(all.len() as int) == all);
}

/// Appends the rows about the format.
fn push_format(rows: &mut Vec<(String, String)>, value: &Json, duration: Option<Span>)
    ensures
        rows_view(final(rows)@) == rows_view(old(rows)@) + format_rows(value.tree(), duration),
{
    let ghost start = rows_view(rows@);
    if let Some(format) = value.get("format") {
        let name = match format.get_str("format_long_name") {
            Some(s) => Some(s.clone()),
            None => copy_str(format.get_str("format_name")),
        };
        push_row_opt(rows, "格式", name);
        push_duration(rows, duration);
        push_row_opt(rows, "总体码率", rate_of(format));
    }
    assert(rows_view(rows@) == start + format_rows(value.tree(), duration));
}

/// What is shown about a file by what ffprobe wrote about it.
pub open spec fn probe_info(
    path: PathView,
    value: JsonView,
    size: Option<u64>,
    duration: Option<Span>,
    raw: Seq<char>,
) -> Option<InfoView> {
    let rows = probe_rows(value, size, duration);
    if rows.len() == 0 {
        None
    } else {
        Some(InfoView { title: path.name(), path, rows, raw })
    }
}

/// Optional information as a value.
pub open spec fn info_opt(info: Option<MediaInfo>) -> Option<InfoView> {
    match info {
        Some(i) => Some(i@),
        None => None,
    }
}

/// What is shown about a file by a value that ffprobe wrote about it, `raw`
/// being its text: `None` if it tells nothing.
pub fn media_info_of_value(
    path: &FilePath,
    value: &Json,
    size: Option<u64>,
    duration: Option<Span>,
    raw: String,
) -> (info: Option<MediaInfo>)
    ensures
        info_opt(info) == probe_info(path@, value.tree(), size, duration, raw@),
{
    let mut rows: Vec<(String, String)> = Vec::new();
    assert(rows_view(rows@) == Seq::<(Seq<char>, Seq<char>)>::empty());
    push_size(&mut rows, size);
    assert(rows_view(rows@) == size_row(size));
    push_format(&mut rows, value, duration);
    let ghost so_far = rows_view(rows@);
    if let Some(streams) = value.get("streams") {
        if let Some(list) = streams.as_array() {
            push_streams(&mut rows, list);
        }
    }
    assert(rows_view(rows@) == so_far + all_stream_rows(value.tree()));
    assert(rows_view(rows@).len() == rows@.len());
    if rows.len() == 0 {
        return None;
    }
    Some(MediaInfo { title: path.name(), path: path.clone(), rows, raw })
}

/// What is shown about a file by what ffprobe wrote about it, given its output
/// if it succeeded: `None` if that is not JSON or tells nothing. `size` is the
/// size of the file, and `duration` what `probe_duration_text` of `read_probe`
/// spells, if they are known.
pub fn media_info_from_ffprobe(
    path: &FilePath,
    output: &Option<Vec<u8>>,
    size: Option<u64>,
    duration: Option<Span>,
) -> (info: Option<MediaInfo>)
    ensures
        info_opt(info) == (match *output {
            Some(bytes) => match json_of_bytes(bytes@) {
                Some(value) => probe_info(path@, value, size, duration, lossy_text(bytes@)),
                None => None,
            },
            None => None,
        }),
{
    match output {
        Some(bytes) => match parse_json_bytes(bytes.as_slice()) {
            Some(value) => media_info_of_value(
                path,
                &value,
                size,
                duration,
                decode_lossy(bytes.as_slice()),
            ),
            None => None,
        },
        None => None,
    }
}

// ---------------------------------------------------------------------------
// What FFmpeg writes
// ---------------------------------------------------------------------------

/// What is taken for the output of FFmpeg where it could not be run.
pub const NO_FFMPEG: &'static str = "未找到 ffmpeg，无法读取媒体流信息。";

/// What FFmpeg wrote about a file, given its error output if it could be run.
pub fn ffmpeg_report(output: &Option<Vec<u8>>) -> (raw: String)
    ensures
        raw@ == (match *output {
            Some(bytes) => lossy_text(bytes@),
            None => NO_FFMPEG@,
        }),
{
    match output {
        Some(bytes) => decode_lossy(bytes.as_slice()),
        None => NO_FFMPEG.to_string(),
    }
}

/// What follows `mark` in the first of the lines that holds it.
pub open spec fn after_mark(lines: Seq<Seq<char>>, mark: Seq<char>) -> Option<Seq<char>>
    decreases lines.len(),
{
    if lines.len() == 0 {
        None
    } else {
        match split_once_of(lines[0], mark) {
            Some(halves) => Some(halves.1),
            None => after_mark(lines.skip(1), mark),
        }
    }
}

/// What follows `mark` in the first of the lines that holds it.
fn find_after(list: &Vec<String>, mark: &str) -> (out: Option<String>)
    ensures
        text_opt(out) == after_mark(texts(list@), mark@),
{
    let ghost all = texts(list@);
    let mut i: usize = 0;
    assert(all.skip(0) == all);
    while i < list.len()
        invariant
            all == texts(list@),
            i <= list@.len(),
            after_mark(all, mark@) == after_mark(all.skip(i as int), mark@),
        decreases list@.len() - i,
    {
        assert(all.skip(i as int)[0] == list@[i as int]@);
        if let Some(rest) = after_first(list[i].as_str(), mark) {
            return Some(rest);
        }
        assert(all.skip(i as int).skip(1) == all.skip(i + 1));
        i = i + 1;
    }
    None
}

/// The duration that FFmpeg gives, as it spells it.
pub open spec fn spelled_duration(raw: Seq<char>) -> Option<Seq<char>> {
    match after_mark(lines_of(raw), "Duration: "@) {
        Some(rest) => Some(trimmed(before_char_of(rest, ','))),
        None => None,
    }
}

/// The duration that FFmpeg gives, as it spells it.
pub fn ffmpeg_duration_text(raw: &str) -> (text: Option<String>)
    ensures
        text_opt(text) == spelled_duration(raw@),
{
    match find_after(&lines(raw), "Duration: ") {
        Some(rest) => Some(trim(before_char(rest.as_str(), ',').as_str())),
        None => None,
    }
}

/// The bit rate that FFmpeg gives, in kilobits per second.
pub open spec fn spelled_rate(raw: Seq<char>) -> Option<u64> {
    match after_mark(lines_of(raw), "bitrate: "@) {
        Some(rest) => match first_word_of(rest) {
            Some(word) => u64_of(word),
            None => None,
        },
        None => None,
    }
}

/// The bit rate that FFmpeg gives, in kilobits per second.
pub fn ffmpeg_bit_rate(raw: &str) -> (rate: Option<u64>)
    ensures
        rate == spelled_rate(raw@),
{
    match find_after(&lines(raw), "bitrate: ") {
        Some(rest) => match first_word(rest.as_str()) {
            Some(word) => parse_u64(word.as_str()),
            None => None,
        },
        None => None,
    }
}

/// The row about the stream that a line describes, if it describes one.
pub open spec fn line_row(line: Seq<char>) -> Seq<(Seq<char>, Seq<char>)> {
    if occurs_in(line, "Stream #"@) {
        match split_once_of(line, ": Audio: "@) {
            Some(halves) => seq![("音频流"@, trimmed(halves.1))],
            None => match split_once_of(line, ": Video: "@) {
                Some(halves) => seq![("视频/封面流"@, trimmed(halves.1))],
                None => Seq::empty(),
            },
        }
    } else {
        Seq::empty()
    }
}

/// The rows about the streams that the lines describe.
pub open spec fn line_rows(lines: Seq<Seq<char>>) -> Seq<(Seq<char>, Seq<char>)>
    decreases lines.len(),
{
    if lines.len() == 0 {
        Seq::empty()
    } else {
        line_rows(lines.drop_last()) + line_row(lines.last())
    }
}

/// All rows made of what FFmpeg wrote.
pub open spec fn told_rows(raw: Seq<char>, size: Option<u64>, duration: Option<Span>) -> Seq<
    (Seq<char>, Seq<char>),
> {
    size_row(size) + duration_row(duration) + row(
        "总体码率"@,
        match spelled_rate(raw) {
            Some(k) => Some(rate_text((k * 1000) as nat)),
            None => None,
        },
    ) + line_rows(lines_of(raw))
}

/// The rows that are shown: those that there are, or one that says that there
/// are none.
pub open spec fn ffmpeg_rows(raw: Seq<char>, size: Option<u64>, duration: Option<Span>) -> Seq<
    (Seq<char>, Seq<char>),
> {
    let rows = told_rows(raw, size, duration);
    if rows.len() == 0 {
        seq![("状态"@, "无法读取媒体信息"@)]
    } else {
        rows
    }
}

/// Appends the rows about the streams that the lines describe.
fn push_lines(rows: &mut Vec<(String, String)>, list: &Vec<String>)
    ensures
        rows_view(final(rows)@) == rows_view(old(rows)@) + line_rows(texts(list@)),
{
    let ghost start = rows_view(rows@);
    let ghost all = texts(list@);
    assert(all.take(0) == Seq::<Seq<char>>::empty());
    assert(start + line_rows(all.take(0)) == start);
    for i in 0..list.len()
        invariant
            all == texts(list@),
            rows_view(rows@) == start + line_rows(all.take(i as int)),
    {
        assert(all.take(i + 1).drop_last() == all.take(i as int));
        assert(all.take(i + 1).last() == list@[i as int]@);
        let ghost before = rows_view(rows@);
        if contains(list[i].as_str(), "Stream #") {
            if let Some(details) = after_first(list[i].as_str(), ": Audio: ") {
                push_row(rows, "音频流", trim(details.as_str()));
            } else if let Some(details) = after_first(list[i].as_str(), ": Video: ") {
                push_row(rows, "视频/封面流", trim(details.as_str()));
            }
        }
        assert(rows_view(rows@) == before + line_row(all[i as int]));
        assert(rows_view(rows@) == start + (line_rows(all.take(i as int)) + line_row(
            all[i as int],
        )));
    }
    assert(all.take(all.len() as int) == all);
}

/// What is shown about a file by what FFmpeg wrote about it. `size` is the
/// size of the file, and `duration` what `ffmpeg_duration_text` spells, if
/// they are known.
pub fn media_info_from_ffmpeg(
    path: &FilePath,
    raw: String,
    size: Option<u64>,
    duration: Option<Span>,
) -> (info: MediaInfo)
    requires
        spelled_rate(raw@) matches Some(k) ==> k * 1000 <= u64::MAX,
    ensures
        info@ == (InfoView {
            title: path@.name(),
            path: path@,
            rows: ffmpeg_rows(raw@, size, duration),
            raw: raw@,
        }),
{
    let mut rows: Vec<(String, String)> = Vec::new();
    assert(rows_view(rows@) == Seq::<(Seq<char>, Seq<char>)>::empty());
    push_size(&mut rows, size);
    assert(rows_view(rows@) == size_row(size));
    push_duration(&mut rows, duration);
    let rate = match ffmpeg_bit_rate(raw.as_str()) {
        Some(k) => Some(bitrate_text(k * 1000)),
        None => None,
    };
    push_row_opt(&mut rows, "总体码率", rate);
    push_lines(&mut rows, &lines(raw.as_str()));
    assert(rows_view(rows@) == told_rows(raw@, size, duration));
    assert(rows_view(rows@).len() == rows@.len());
    if rows.len() == 0 {
        push_row(&mut rows, "状态", "无法读取媒体信息".to_string());
        assert(rows_view(rows@) == seq![("状态"@, "无法读取媒体信息"@)]);
    }
    MediaInfo { title: path.name(), path: path.clone(), rows, raw }
}

/// Something is always shown about a file, whatever the tools wrote.
pub proof fn law_info_has_rows(raw: Seq<char>, size: Option<u64>, duration: Option<Span>)
    ensures
        ffmpeg_rows(raw, size, duration).len() > 0,
{
}

} // verus!
