//! What is shown about a media file: its size, duration, bit rate and streams,
//! whichever tool told them, and how numbers and times are written.

use crate::double::{
    double_of, doublings, half_even, rate_text, scaled_quotient, significand, size_text, spacing,
    two_to, LEAST,
};
use crate::info::{
    after_mark, ffmpeg_rows, line_rows, probe_info, probe_rows, span_text, spelled_duration,
    spelled_rate, stream_rows, Span,
};
use crate::json::JsonView;
use crate::laws::texts::{first_behind, law_split_once};
use crate::number::{decimal, padded, u64_of};
use crate::path::PathView;
use crate::pattern::{before_char_of, join_of, occurs_in, split_once_of};
use crate::text::{first_word_of, lines_of, trimmed};
use vstd::prelude::*;

verus! {

// ---------------------------------------------------------------------------
// Rows
// ---------------------------------------------------------------------------

/// If the size of a file is known, it is what is shown first, whichever tool
/// the rest comes from; if it is not known, no size is shown.
pub proof fn law_size_first(
    value: JsonView,
    raw: Seq<char>,
    size: Option<u64>,
    duration: Option<Span>,
)
    ensures
        size matches Some(n) ==> probe_rows(value, size, duration).len() > 0 && probe_rows(
            value,
            size,
            duration,
        )[0] == ("文件大小"@, size_text(n as nat)),
        size matches Some(n) ==> ffmpeg_rows(raw, size, duration).len() > 0 && ffmpeg_rows(
            raw,
            size,
            duration,
        )[0] == ("文件大小"@, size_text(n as nat)),
        size matches Some(n) ==> probe_rows(value, size, duration) == seq![
            ("文件大小"@, size_text(n as nat)),
        ] + probe_rows(value, None, duration),
{
    if let Some(n) = size {
        let first = seq![("文件大小"@, size_text(n as nat))];
        assert(probe_rows(value, size, duration) == first + probe_rows(value, None, duration));
    }
}

/// What FFmpeg tells is shown in order: the size, the duration and the bit
/// rate as far as they are known, and then each line that describes a stream of
/// audio or of pictures. If nothing is known, that is said.
pub proof fn law_ffmpeg_rows(raw: Seq<char>, size: Option<u64>, duration: Option<Span>)
    ensures
        ({
            let known = (if size is Some {
                seq![("文件大小"@, size_text(size->0 as nat))]
            } else {
                Seq::empty()
            }) + (if duration is Some {
                seq![("时长"@, span_text(duration->0))]
            } else {
                Seq::empty()
            }) + (if spelled_rate(raw) is Some {
                seq![("总体码率"@, rate_text((1000 * spelled_rate(raw)->0) as nat))]
            } else {
                Seq::empty()
            });
            let streams = lines_of(raw).filter_map(
                |line: Seq<char>|
                    if !occurs_in(line, "Stream #"@) {
                        None
                    } else if occurs_in(line, ": Audio: "@) {
                        Some(("音频流"@, trimmed((split_once_of(line, ": Audio: "@)->0).1)))
                    } else if occurs_in(line, ": Video: "@) {
                        Some(("视频/封面流"@, trimmed((split_once_of(line, ": Video: "@)->0).1)))
                    } else {
                        None
                    },
            );
            ffmpeg_rows(raw, size, duration) == (if (known + streams).len() == 0 {
                seq![("状态"@, "无法读取媒体信息"@)]
            } else {
                known + streams
            })
        }),
{
    lemma_lines(lines_of(raw));
}

/// The lines that describe streams are found line by line.
proof fn lemma_lines(lines: Seq<Seq<char>>)
    ensures
        line_rows(lines) == lines.filter_map(
            |line: Seq<char>|
                if !occurs_in(line, "Stream #"@) {
                    None
                } else if occurs_in(line, ": Audio: "@) {
                    Some(("音频流"@, trimmed((split_once_of(line, ": Audio: "@)->0).1)))
                } else if occurs_in(line, ": Video: "@) {
                    Some(("视频/封面流"@, trimmed((split_once_of(line, ": Video: "@)->0).1)))
                } else {
                    None
                },
        ),
    decreases lines.len(),
{
    reveal(Seq::filter_map);
    if lines.len() > 0 {
        lemma_lines(lines.drop_last());
        let before = line_rows(lines.drop_last());
        assert(before + Seq::<(Seq<char>, Seq<char>)>::empty() == before);
    }
}

/// A line of FFmpeg about an audio stream is shown as what it says behind
/// `Audio:`.
pub proof fn law_audio_line(head: Seq<char>, details: Seq<char>)
    requires
        occurs_in(head + ": Audio: "@ + details, "Stream #"@),
        first_behind(head, ": Audio: "@, details),
    ensures
        line_rows(seq![head + ": Audio: "@ + details]) == seq![("音频流"@, trimmed(details))],
{
    law_split_once(head, ": Audio: "@, details);
    let line = head + ": Audio: "@ + details;
    assert(seq![line].drop_last() == Seq::<Seq<char>>::empty());
    assert(line_rows(seq![line].drop_last()) == Seq::<(Seq<char>, Seq<char>)>::empty());
    assert(line_rows(seq![line]) == seq![("音频流"@, trimmed(details))]);
}

/// The duration and the bit rate that FFmpeg gives stand in the first line that
/// names them: the duration up to a comma, the rate as the word that follows.
pub proof fn law_ffmpeg_figures(
    before: Seq<Seq<char>>,
    head: Seq<char>,
    tail: Seq<char>,
    after: Seq<Seq<char>>,
    mark: Seq<char>,
)
    requires
        forall|i: int| 0 <= i < before.len() ==> !occurs_in(#[trigger] before[i], mark),
        first_behind(head, mark, tail),
    ensures
        after_mark(before.push(head + mark + tail) + after, mark) == Some(tail),
        after_mark(before, mark) is None,
    decreases before.len(),
{
    let line = head + mark + tail;
    let all = before.push(line) + after;
    law_split_once(head, mark, tail);
    if before.len() > 0 {
        let rest = before.skip(1);
        assert forall|i: int| 0 <= i < rest.len() implies !occurs_in(#[trigger] rest[i], mark) by {
            assert(rest[i] == before[i + 1]);
        }
        law_ffmpeg_figures(rest, head, tail, after, mark);
        assert(!occurs_in(before[0], mark));
        assert(all[0] == before[0]);
        assert(all.skip(1) == rest.push(line) + after);
    } else {
        assert(all[0] == line);
    }
}

/// What FFmpeg spells as the duration and as the bit rate is what follows those
/// two words.
pub proof fn law_ffmpeg_marks(raw: Seq<char>)
    ensures
        spelled_duration(raw) == (match after_mark(lines_of(raw), "Duration: "@) {
            Some(rest) => Some(trimmed(before_char_of(rest, ','))),
            None => None,
        }),
        spelled_rate(raw) == (match after_mark(lines_of(raw), "bitrate: "@) {
            Some(rest) => match first_word_of(rest) {
                Some(word) => u64_of(word),
                None => None,
            },
            None => None,
        }),
{
}

/// What ffprobe tells is shown in order: the size, the name of the format, the
/// duration and the bit rate as far as they are known, and then the streams.
pub proof fn law_probe_rows(value: JsonView, size: Option<u64>, duration: Option<Span>)
    ensures
        ({
            let format = value.field("format"@);
            let name = if format is Some && (format->0).field("format_long_name"@) matches Some(
                JsonView::Text(_),
            ) {
                (format->0).text_field("format_long_name"@)
            } else if format is Some {
                (format->0).text_field("format_name"@)
            } else {
                None
            };
            let rate = if format is Some && (format->0).text_field("bit_rate"@) is Some {
                u64_of((format->0).text_field("bit_rate"@)->0)
            } else {
                None
            };
            let streams = match value.field("streams"@) {
                Some(JsonView::Array(list)) => stream_rows(list),
                _ => Seq::empty(),
            };
            probe_rows(value, size, duration) == (if size is Some {
                seq![("文件大小"@, size_text(size->0 as nat))]
            } else {
                Seq::empty()
            }) + (if name is Some {
                seq![("格式"@, name->0)]
            } else {
                Seq::empty()
            }) + (if duration is Some && format is Some {
                seq![("时长"@, span_text(duration->0))]
            } else {
                Seq::empty()
            }) + (if rate is Some {
                seq![("总体码率"@, rate_text(rate->0 as nat))]
            } else {
                Seq::empty()
            }) + streams
        }),
{
    let format = value.field("format"@);
    let rows = probe_rows(value, size, duration);
    let streams = match value.field("streams"@) {
        Some(JsonView::Array(list)) => stream_rows(list),
        _ => Seq::empty(),
    };
    if let Some(f) = format {
        let name = if f.field("format_long_name"@) matches Some(JsonView::Text(_)) {
            f.text_field("format_long_name"@)
        } else {
            f.text_field("format_name"@)
        };
        let rate = if f.text_field("bit_rate"@) is Some {
            u64_of(f.text_field("bit_rate"@)->0)
        } else {
            None
        };
        assert(crate::info::format_name_of(f) == name);
        let s = crate::info::size_row(size);
        let n = crate::info::row("格式"@, name);
        let d = crate::info::duration_row(duration);
        let r = crate::info::row("总体码率"@, crate::info::shown_rate(f));
        assert(s + (n + d + r) + streams == s + n + d + r + streams);
    } else {
        let s = crate::info::size_row(size);
        let none = Seq::<(Seq<char>, Seq<char>)>::empty();
        assert(s + none + streams == s + none + none + none + streams);
    }
}

/// The streams that ffprobe tells of are shown one after the other, each in one
/// row if anything is known about it: under what kind it is, its codec, sample
/// rate, channels, bit rate and picture size, as far as they are known and in
/// that order.
pub proof fn law_stream_rows(streams: Seq<JsonView>, next: JsonView)
    ensures
        stream_rows(Seq::empty()) == Seq::<(Seq<char>, Seq<char>)>::empty(),
        ({
            let kind = next.text_field("codec_type"@);
            let label = if kind == Some("audio"@) {
                "音频流"@
            } else if kind == Some("video"@) {
                "视频/封面流"@
            } else {
                "数据流"@
            };
            let rate = match next.text_field("bit_rate"@) {
                Some(s) => u64_of(s),
                None => None,
            };
            let details = (match next.text_field("codec_name"@) {
                Some(s) => seq![s],
                None => Seq::empty(),
            }) + (match next.text_field("sample_rate"@) {
                Some(s) => seq![s + " Hz"@],
                None => Seq::empty(),
            }) + (match next.number_field("channels"@) {
                Some(n) => seq![decimal(n as nat) + " 声道"@],
                None => Seq::empty(),
            }) + (match rate {
                Some(n) => seq![rate_text(n as nat)],
                None => Seq::empty(),
            }) + (match (next.number_field("width"@), next.number_field("height"@)) {
                (Some(w), Some(h)) => seq![decimal(w as nat) + "x"@ + decimal(h as nat)],
                _ => Seq::empty(),
            });
            stream_rows(streams.push(next)) == stream_rows(streams) + (if details.len() == 0 {
                Seq::empty()
            } else {
                seq![(label, join_of(details, " / "@))]
            })
        }),
{
    assert(streams.push(next).drop_last() == streams);
}

/// What is shown about a file names the file and keeps what the tool wrote;
/// ffprobe is asked in vain exactly if it tells nothing.
pub proof fn law_probe_info(
    path: PathView,
    value: JsonView,
    size: Option<u64>,
    duration: Option<Span>,
    raw: Seq<char>,
)
    ensures
        match probe_info(path, value, size, duration, raw) {
            Some(info) => {
                &&& info.path == path
                &&& info.title == path.name()
                &&& info.raw == raw
                &&& info.rows == probe_rows(value, size, duration)
                &&& info.rows.len() > 0
            },
            None => probe_rows(value, size, duration).len() == 0,
        },
{
}

// ---------------------------------------------------------------------------
// Times
// ---------------------------------------------------------------------------

/// A duration is written in hours, minutes, seconds and milliseconds, of which
/// the minutes and the seconds stay below sixty.
pub proof fn law_duration_text(hours: u64, minutes: u64, seconds: u64, span: Span)
    requires
        minutes < 60,
        seconds < 60,
        span.secs == 3600 * hours + 60 * minutes + seconds,
    ensures
        span_text(span) == padded(hours as nat, 2) + ":"@ + padded(minutes as nat, 2) + ":"@
            + padded(seconds as nat, 2) + "."@ + padded(span.millis as nat, 3),
{
    assert(span.secs / 3600 == hours);
    assert(span.secs % 3600 == 60 * minutes + seconds);
    assert((60 * minutes + seconds) / 60 == minutes);
    assert(span.secs % 60 == seconds) by {
        assert(span.secs == 60 * (60 * hours + minutes) + seconds);
    }
}

// ---------------------------------------------------------------------------
// Sizes and bit rates
// ---------------------------------------------------------------------------

/// Rounding misses by at most one half.
proof fn lemma_half(n: nat, d: nat)
    requires
        d > 0,
    ensures
        2 * (half_even(n, d) * d - n) <= d,
        2 * (n - half_even(n, d) * d) <= d,
{
    let q = n / d;
    let r = n % d;
    assert(n == q * d + r && r < d) by (nonlinear_arith)
        requires
            d > 0,
            q == n / d,
            r == n % d,
    ;
    assert((q + 1) * d == q * d + d) by (nonlinear_arith);
}

/// Doubling goes on until the significand of a double is reached.
proof fn lemma_doublings(n: nat, d: nat)
    requires
        n > 0,
        d > 0,
    ensures
        n * two_to(doublings(n, d)) >= LEAST * d,
        two_to(doublings(n, d)) > 0,
    decreases
        (if n < LEAST * d {
            LEAST * d - n
        } else {
            0
        }),
{
    if n >= LEAST * d {
        assert(two_to(0) == 1);
        assert(n * 1 == n);
    } else {
        lemma_doublings(2 * n, d);
        let p = two_to(doublings(2 * n, d));
        assert(two_to(doublings(n, d)) == 2 * p);
        assert(n * (2 * p) == (2 * n) * p) by (nonlinear_arith);
    }
}

/// Below eight tera the scaled quotient is the nearest number.
proof fn lemma_quotient(n: nat, d: nat, scale: nat)
    requires
        n < 8796093022208,
        d > 0,
        1 <= scale <= 100,
    ensures
        2 * (scaled_quotient(n, d, scale) * d - scale * n) <= d,
        2 * (scale * n - scaled_quotient(n, d, scale) * d) <= d,
{
    assert(spacing(n) == 1);
    assert(half_even(n, 1) == n);
    assert(double_of(n) == n);
    let h = scaled_quotient(n, d, scale);
    if n == 0 {
        assert(doublings(0, d) == 0);
        assert(two_to(0) == 1);
        assert(0 * two_to(0) == 0);
        assert(half_even(0, d) == 0) by {
            assert(0nat / d == 0 && 0nat % d == 0) by (nonlinear_arith)
                requires
                    d > 0,
            ;
        }
        assert(0 * scale == 0);
        assert(half_even(0, 1) == 0);
        assert(h == 0);
        assert(h * d == 0 && scale * n == 0) by (nonlinear_arith)
            requires
                h == 0,
                n == 0,
        ;
    } else {
        lemma_doublings(n, d);
        let p = two_to(doublings(n, d));
        let sig = half_even(n * p, d);
        lemma_half(n * p, d);
        lemma_half(sig * scale, p);
        lemma_miss(n as int, d as int, scale as int, p as int, sig as int, h as int);
    }
}

/// Two roundings together miss by less than one more than one of them.
proof fn lemma_miss(n: int, d: int, scale: int, p: int, sig: int, h: int)
    requires
        0 < n < 8796093022208,
        d > 0,
        1 <= scale <= 100,
        p > 0,
        n * p >= 4503599627370496 * d,
        2 * (sig * d - n * p) <= d,
        2 * (n * p - sig * d) <= d,
        2 * (h * p - sig * scale) <= p,
        2 * (sig * scale - h * p) <= p,
    ensures
        2 * (h * d - scale * n) <= d,
        2 * (scale * n - h * d) <= d,
{
    assert(p > d * scale) by {
        if p <= d * scale {
            assert(n * p <= n * (d * scale)) by (nonlinear_arith)
                requires
                    p <= d * scale,
                    n > 0,
            ;
            assert(n * (d * scale) == (n * scale) * d) by (nonlinear_arith);
            assert(n * scale <= n * 100) by (nonlinear_arith)
                requires
                    n > 0,
                    scale <= 100,
            ;
            assert((n * scale) * d <= 879609302220800 * d) by (nonlinear_arith)
                requires
                    n * scale <= 879609302220800,
                    d > 0,
            ;
            assert(879609302220800 * d < 4503599627370496 * d) by (nonlinear_arith)
                requires
                    d > 0,
            ;
        }
    }
    let miss = h * d - scale * n;
    let one = h * p - sig * scale;
    let two = sig * d - n * p;
    assert(miss * p == one * d + two * scale) by (nonlinear_arith)
        requires
            miss == h * d - scale * n,
            one == h * p - sig * scale,
            two == sig * d - n * p,
    ;
    if 2 * miss > d {
        assert(2 * (one * d) <= p * d) by (nonlinear_arith)
            requires
                2 * one <= p,
                d > 0,
        ;
        assert(2 * (two * scale) <= d * scale) by (nonlinear_arith)
            requires
                2 * two <= d,
                scale > 0,
        ;
        assert((2 * miss) * p >= (d + 1) * p) by (nonlinear_arith)
            requires
                2 * miss >= d + 1,
                p > 0,
        ;
        assert((2 * miss) * p == 2 * (miss * p)) by (nonlinear_arith);
        assert((d + 1) * p == p * d + p) by (nonlinear_arith);
    }
    if -2 * miss > d {
        assert(-2 * (one * d) <= p * d) by (nonlinear_arith)
            requires
                -2 * one <= p,
                d > 0,
        ;
        assert(-2 * (two * scale) <= d * scale) by (nonlinear_arith)
            requires
                -2 * two <= d,
                scale > 0,
        ;
        assert((-2 * miss) * p >= (d + 1) * p) by (nonlinear_arith)
            requires
                -2 * miss >= d + 1,
                p > 0,
        ;
        assert((-2 * miss) * p == -2 * (miss * p)) by (nonlinear_arith);
        assert((d + 1) * p == p * d + p) by (nonlinear_arith);
    }
}

/// A number that stands exactly between two is rounded to the even one.
proof fn lemma_tie(n: nat, d: nat, m: nat)
    requires
        d > 0,
        2 * n == (2 * m + 1) * d,
    ensures
        half_even(n, d) == (if m % 2 == 0 {
            m
        } else {
            m + 1
        }),
{
    let q = n / d;
    let r = n % d;
    assert(n == q * d + r && r < d) by (nonlinear_arith)
        requires
            d > 0,
            q == n / d,
            r == n % d,
    ;
    assert((2 * m + 1) * d == 2 * (m * d) + d) by (nonlinear_arith);
    assert(q == m) by (nonlinear_arith)
        requires
            2 * (q * d) + 2 * r == 2 * (m * d) + d,
            r < d,
            d > 0,
    ;
}

/// A number that is a multiple is divided without a rest.
proof fn lemma_exact(q: nat, d: nat)
    requires
        d > 0,
    ensures
        half_even(q * d, d) == q,
{
    assert((q * d) / d == q && (q * d) % d == 0) by (nonlinear_arith)
        requires
            d > 0,
    ;
}

/// A power of two is a multiple of every lesser one.
proof fn lemma_powers(a: nat, b: nat)
    requires
        two_to(b) >= two_to(a),
    ensures
        exists|k: nat| two_to(b) == #[trigger] (k * two_to(a)),
    decreases b,
{
    if b == a {
        assert(two_to(b) == 1 * two_to(a));
    } else if b < a {
        lemma_grows(b, a);
    } else {
        lemma_grows(a, (b - 1) as nat);
        lemma_powers(a, (b - 1) as nat);
        let k = choose|k: nat| two_to((b - 1) as nat) == #[trigger] (k * two_to(a));
        assert(2 * (k * two_to(a)) == (2 * k) * two_to(a)) by (nonlinear_arith);
        assert(two_to(b) == (2 * k) * two_to(a));
    }
}

/// Powers of two grow.
proof fn lemma_grows(a: nat, b: nat)
    requires
        a <= b,
    ensures
        0 < two_to(a) <= two_to(b),
        a < b ==> two_to(a) < two_to(b),
    decreases b,
{
    if a < b {
        lemma_grows(a, (b - 1) as nat);
    } else if a > 0 {
        lemma_grows((a - 1) as nat, (a - 1) as nat);
    }
}

/// A quotient that is exact as a double is rounded from its exact value.
proof fn lemma_exact_quotient(n: nat, d: nat, scale: nat, sig: nat, m: nat)
    requires
        0 < n < 8796093022208,
        d > 0,
        n * two_to(doublings(n, d)) == sig * d,
        2 * (scale * n) == (2 * m + 1) * d,
    ensures
        scaled_quotient(n, d, scale) == (if m % 2 == 0 {
            m
        } else {
            m + 1
        }),
{
    assert(spacing(n) == 1);
    assert(half_even(n, 1) == n);
    assert(double_of(n) == n);
    let p = two_to(doublings(n, d));
    lemma_doublings(n, d);
    lemma_exact(sig, d);
    assert(significand(n, d) == sig);
    assert(2 * (sig * scale) == (2 * m + 1) * p) by (nonlinear_arith)
        requires
            n * p == sig * d,
            2 * (scale * n) == (2 * m + 1) * d,
            d > 0,
    ;
    lemma_tie(sig * scale, p, m);
}

/// Below eight tera the doubling goes beyond the divisor.
proof fn lemma_beyond(n: nat, d: nat)
    requires
        0 < n < 8796093022208,
        d > 0,
    ensures
        two_to(doublings(n, d)) >= d,
        two_to(doublings(n, d)) >= 2,
{
    lemma_doublings(n, d);
    let p = two_to(doublings(n, d));
    assert(p >= 512 * d) by (nonlinear_arith)
        requires
            n * p >= 4503599627370496 * d,
            0 < n < 8796093022208,
            d > 0,
            p > 0,
    ;
}

/// A size that stands exactly between two is written as the one that ends in an
/// even digit; a bit rate as the one with an even number of kilobits.
pub proof fn law_ties(n: nat, m: nat)
    requires
        0 < n < 8796093022208,
    ensures
        ({
            let even = if m % 2 == 0 {
                m
            } else {
                m + 1
            };
            let shown = decimal(even / 100) + "."@ + padded(even % 100, 2);
            &&& 1024 <= n < 1024 * 1024 && 200 * n == (2 * m + 1) * 1024 ==> size_text(n) == shown
                + " KB"@
            &&& 1024 * 1024 <= n < 1024 * 1024 * 1024 && 200 * n == (2 * m + 1) * (1024 * 1024)
                ==> size_text(n) == shown + " MB"@
            &&& 1024 * 1024 * 1024 <= n && 200 * n == (2 * m + 1) * (1024 * 1024 * 1024)
                ==> size_text(n) == shown + " GB"@
            &&& n < 1000000 && 2 * n == (2 * m + 1) * 1000 ==> rate_text(n) == decimal(even)
                + " kbps"@
        }),
{
    reveal_with_fuel(two_to, 31);
    assert(two_to(10) == 1024);
    assert(two_to(20) == 1048576);
    assert(two_to(30) == 1073741824);
    if 1024 <= n < 1048576 && 200 * n == (2 * m + 1) * 1024 {
        lemma_tied_power(n, 10, m);
    }
    if 1048576 <= n < 1073741824 && 200 * n == (2 * m + 1) * 1048576 {
        lemma_tied_power(n, 20, m);
    }
    if 1073741824 <= n && 200 * n == (2 * m + 1) * 1073741824 {
        lemma_tied_power(n, 30, m);
    }
    if n < 1000000 && 2 * n == (2 * m + 1) * 1000 {
        lemma_tied_thousand(n, m);
    }
}

/// A tie of a quotient by a power of two.
proof fn lemma_tied_power(n: nat, k: nat, m: nat)
    requires
        0 < n < 8796093022208,
        200 * n == (2 * m + 1) * two_to(k),
    ensures
        scaled_quotient(n, two_to(k), 100) == (if m % 2 == 0 {
            m
        } else {
            m + 1
        }),
{
    let d = two_to(k);
    lemma_grows(k, k);
    lemma_beyond(n, d);
    let j = doublings(n, d);
    lemma_powers(k, j);
    let times = choose|times: nat| two_to(j) == #[trigger] (times * d);
    assert(n * (times * d) == (n * times) * d) by (nonlinear_arith);
    lemma_exact_quotient(n, d, 100, n * times, m);
}

/// A tie of a quotient by a thousand.
proof fn lemma_tied_thousand(n: nat, m: nat)
    requires
        0 < n < 8796093022208,
        2 * n == (2 * m + 1) * 1000,
    ensures
        scaled_quotient(n, 1000, 1) == (if m % 2 == 0 {
            m
        } else {
            m + 1
        }),
{
    lemma_beyond(n, 1000);
    let j = doublings(n, 1000);
    assert(two_to(0) == 1);
    assert(j > 0);
    let half = two_to((j - 1) as nat);
    assert(two_to(j) == 2 * half);
    let sig = (2 * m + 1) * half;
    assert(n * (2 * half) == sig * 1000) by (nonlinear_arith)
        requires
            2 * n == (2 * m + 1) * 1000,
            sig == (2 * m + 1) * half,
    ;
    lemma_exact_quotient(n, 1000, 1, sig, m);
}

/// Whether a text is a number of units with two decimals, the nearest there is.
pub open spec fn nearest(text: Seq<char>, n: nat, unit: nat, name: Seq<char>) -> bool {
    exists|h: nat| #[trigger]
        decimal(h / 100) + "."@ + padded(h % 100, 2) + name == text && 2 * (h * unit - 100 * n)
            <= unit && 2 * (100 * n - h * unit) <= unit
}

/// The size of a file is written in bytes below one kilobyte, and otherwise in
/// the largest of kilobytes, megabytes and gigabytes that it reaches, with two
/// decimals, the nearest there are; a kilobyte is 1024 bytes, and so on.
pub proof fn law_size_text(n: nat)
    requires
        n < 8796093022208,
    ensures
        n < 1024 ==> size_text(n) == decimal(n) + " B"@,
        1024 <= n < 1024 * 1024 ==> nearest(size_text(n), n, 1024, " KB"@),
        1024 * 1024 <= n < 1024 * 1024 * 1024 ==> nearest(size_text(n), n, 1024 * 1024, " MB"@),
        1024 * 1024 * 1024 <= n ==> nearest(size_text(n), n, 1024 * 1024 * 1024, " GB"@),
{
    let unit: nat = if n < 1048576 {
        1024
    } else if n < 1073741824 {
        1048576
    } else {
        1073741824
    };
    let name = if n < 1048576 {
        " KB"@
    } else if n < 1073741824 {
        " MB"@
    } else {
        " GB"@
    };
    if n >= 1024 {
        let h = scaled_quotient(n, unit, 100);
        lemma_quotient(n, unit, 100);
        assert(decimal(h / 100) + "."@ + padded(h % 100, 2) + name == size_text(n));
        assert(nearest(size_text(n), n, unit, name));
    }
}

/// A bit rate is written in megabits per second from one megabit on, with two
/// decimals, and below in whole kilobits per second, the nearest there are.
pub proof fn law_rate_text(n: nat)
    requires
        n < 8796093022208,
    ensures
        n >= 1000000 ==> nearest(rate_text(n), n, 1000000, " Mbps"@),
        n < 1000000 ==> exists|k: nat| #[trigger]
            decimal(k) + " kbps"@ == rate_text(n) && 2 * (k * 1000 - n) <= 1000 && 2 * (n - k
                * 1000) <= 1000,
{
    if n >= 1000000 {
        let h = scaled_quotient(n, 1000000, 100);
        lemma_quotient(n, 1000000, 100);
        assert(decimal(h / 100) + "."@ + padded(h % 100, 2) + " Mbps"@ == rate_text(n));
        assert(nearest(rate_text(n), n, 1000000, " Mbps"@));
    } else {
        let k = scaled_quotient(n, 1000, 1);
        lemma_quotient(n, 1000, 1);
        assert(decimal(k) + " kbps"@ == rate_text(n));
    }
}

/// Doubles are not far apart.
proof fn lemma_spacing(n: nat)
    requires
        n >= LEAST,
    ensures
        0 < spacing(n),
        spacing(n) * LEAST <= n,
    decreases n,
{
    if n >= 2 * LEAST {
        lemma_spacing(n / 2);
    }
}

/// The scaled quotient of any number of 64 bits misses by less than one.
proof fn lemma_quotient_far(n: nat, d: nat)
    requires
        8796093022208 <= n <= u64::MAX,
        1000000 <= d,
    ensures
        scaled_quotient(n, d, 100) * d - 100 * n <= d,
        100 * n - scaled_quotient(n, d, 100) * d <= d,
{
    let v = double_of(n);
    let gap = spacing(n);
    if n >= LEAST {
        lemma_spacing(n);
        assert(gap < 4097) by (nonlinear_arith)
            requires
                gap * 4503599627370496 <= n,
                n <= 18446744073709551615,
        ;
    } else {
        assert(gap == 1);
    }
    lemma_half(n, gap);
    assert(2 * (v - n) <= 4096 && 2 * (n - v) <= 4096);
    let h = scaled_quotient(n, d, 100);
    lemma_doublings(v, d);
    let p = two_to(doublings(v, d));
    let sig = half_even(v * p, d);
    lemma_half(v * p, d);
    lemma_half(sig * 100, p);
    lemma_miss_far(v as int, d as int, p as int, sig as int, h as int);
}

/// Two roundings of a far quotient together miss by little more than one of
/// them.
proof fn lemma_miss_far(v: int, d: int, p: int, sig: int, h: int)
    requires
        0 < v < 18446744073709553664,
        d > 0,
        p > 0,
        v * p >= 4503599627370496 * d,
        2 * (sig * d - v * p) <= d,
        2 * (v * p - sig * d) <= d,
        2 * (h * p - sig * 100) <= p,
        2 * (sig * 100 - h * p) <= p,
    ensures
        2 * (h * d - 100 * v) <= d + 409700,
        2 * (100 * v - h * d) <= d + 409700,
{
    assert(4097 * p >= d) by (nonlinear_arith)
        requires
            v * p >= 4503599627370496 * d,
            0 < v < 18446744073709553664,
            p > 0,
            d > 0,
    ;
    let miss = h * d - 100 * v;
    let one = h * p - sig * 100;
    let two = sig * d - v * p;
    assert(miss * p == one * d + two * 100) by (nonlinear_arith)
        requires
            miss == h * d - 100 * v,
            one == h * p - sig * 100,
            two == sig * d - v * p,
    ;
    assert(2 * (one * d) <= p * d && -2 * (one * d) <= p * d) by (nonlinear_arith)
        requires
            2 * one <= p,
            -2 * one <= p,
            d > 0,
    ;
    assert(2 * (miss * p) <= p * d + 409700 * p);
    assert(-2 * (miss * p) <= p * d + 409700 * p);
    assert(2 * miss <= d + 409700) by (nonlinear_arith)
        requires
            2 * (miss * p) <= p * d + 409700 * p,
            p > 0,
    ;
    assert(-2 * miss <= d + 409700) by (nonlinear_arith)
        requires
            -2 * (miss * p) <= p * d + 409700 * p,
            p > 0,
    ;
}

/// Sizes and bit rates beyond eight tera are still written in gigabytes and in
/// megabits per second, with two decimals that miss by at most one hundredth.
pub proof fn law_far(n: nat)
    requires
        8796093022208 <= n <= u64::MAX,
    ensures
        exists|h: nat| #[trigger]
            decimal(h / 100) + "."@ + padded(h % 100, 2) + " GB"@ == size_text(n) && h * 1073741824
                - 100 * n <= 1073741824 && 100 * n - h * 1073741824 <= 1073741824,
        exists|h: nat| #[trigger]
            decimal(h / 100) + "."@ + padded(h % 100, 2) + " Mbps"@ == rate_text(n) && h * 1000000
                - 100 * n <= 1000000 && 100 * n - h * 1000000 <= 1000000,
{
    let g = scaled_quotient(n, 1073741824, 100);
    lemma_quotient_far(n, 1073741824);
    assert(decimal(g / 100) + "."@ + padded(g % 100, 2) + " GB"@ == size_text(n));
    let r = scaled_quotient(n, 1000000, 100);
    lemma_quotient_far(n, 1000000);
    assert(decimal(r / 100) + "."@ + padded(r % 100, 2) + " Mbps"@ == rate_text(n));
}

} // verus!
