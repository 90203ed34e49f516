use yyw::double::{bitrate_text, file_size_text};
use yyw::info::{
    duration_detail_text, duration_fields, ffmpeg_bit_rate, ffmpeg_duration_text, ffmpeg_report,
    format_time, media_info_from_ffmpeg, media_info_from_ffprobe, media_info_of_value,
    probe_duration_text, probed_seconds, read_probe, Span, NO_FFMPEG,
};
use yyw::path::FilePath;

fn path(text: &str) -> FilePath {
    FilePath::new(text.to_string())
}

fn row(label: &str, text: &str) -> (String, String) {
    (label.to_string(), text.to_string())
}

fn size_by_float(bytes: u64) -> String {
    let units = ["B", "KB", "MB", "GB"];
    let mut value = bytes as f64;
    let mut unit = 0usize;
    while value >= 1024.0 && unit + 1 < units.len() {
        value /= 1024.0;
        unit += 1;
    }
    if unit == 0 {
        format!("{} {}", bytes, units[unit])
    } else {
        format!("{value:.2} {}", units[unit])
    }
}

fn rate_by_float(bits: u64) -> String {
    if bits >= 1_000_000 {
        format!("{:.2} Mbps", bits as f64 / 1_000_000.0)
    } else {
        format!("{:.0} kbps", bits as f64 / 1000.0)
    }
}

fn samples() -> Vec<u64> {
    let mut all: Vec<u64> = (0..5000).collect();
    for shift in 0..64 {
        for delta in [0u64, 1, 5, 512, 1000] {
            all.push((1u64 << shift).wrapping_add(delta));
            all.push((1u64 << shift).wrapping_sub(delta));
        }
    }
    let mut x: u64 = 0x9e37_79b9_7f4a_7c15;
    for _ in 0..20000 {
        x = x.wrapping_mul(6364136223846793005).wrapping_add(1442695040888963407);
        all.push(x >> (x & 63));
        all.push((x >> 40) * 1000 + 500);
        all.push((x >> 40) * 10000 + 5000);
    }
    all
}

#[test]
fn sizes_are_those_of_floating_point() {
    for n in samples() {
        assert_eq!(file_size_text(n), size_by_float(n), "{n}");
    }
}

#[test]
fn bit_rates_are_those_of_floating_point() {
    for n in samples() {
        assert_eq!(bitrate_text(n), rate_by_float(n), "{n}");
    }
}

#[test]
fn some_sizes_and_rates() {
    assert_eq!(file_size_text(1023), "1023 B");
    assert_eq!(file_size_text(1536), "1.50 KB");
    assert_eq!(file_size_text(5_242_880), "5.00 MB");
    assert_eq!(file_size_text(u64::MAX), "17179869184.00 GB");
    assert_eq!(bitrate_text(320_000), "320 kbps");
    assert_eq!(bitrate_text(1_411_200), "1.41 Mbps");
    assert_eq!(bitrate_text(500), "0 kbps");
    assert_eq!(bitrate_text(1500), "2 kbps");
    assert_eq!(bitrate_text(1_005_000), "1.00 Mbps");
}

#[test]
fn times_as_texts() {
    assert_eq!(format_time(0), "00:00");
    assert_eq!(format_time(3661), "61:01");
    assert_eq!(duration_detail_text(Span { secs: 3661, millis: 7 }), "01:01:01.007");
    assert_eq!(duration_detail_text(Span { secs: 360_000, millis: 999 }), "100:00:00.999");
}

#[test]
fn fields_of_a_duration() {
    let f = duration_fields("00:03:25.10").unwrap();
    assert_eq!((f.0.as_str(), f.1.as_str(), f.2.as_str()), ("00", "03", "25.10"));
    assert!(duration_fields("N/A").is_none());
    assert!(duration_fields("1:2").is_none());
    assert_eq!(duration_fields("1:2:3:4").unwrap().2, "3");
}

#[test]
fn information_from_ffprobe() {
    let out = r#"{
        "streams": [
            {"codec_type":"audio","codec_name":"flac","sample_rate":"44100","channels":2,
             "bit_rate":"900000","width":0},
            {"codec_type":"video","codec_name":"mjpeg","width":600,"height":500},
            {"codec_type":"data"},
            {"codec_name":"bin","channels":-1,"bit_rate":"x"}
        ],
        "format": {"format_name":"flac","format_long_name":"raw FLAC","duration":"61.5",
                   "bit_rate":"1411200"}
    }"#;
    let value = read_probe(&Some(out.as_bytes().to_vec())).unwrap();
    assert_eq!(probe_duration_text(&value).as_deref(), Some("61.5"));
    let span = Some(Span { secs: 61, millis: 500 });
    let info =
        media_info_from_ffprobe(&path("m/a.flac"), &Some(out.as_bytes().to_vec()), Some(2048), span).unwrap();
    assert_eq!(info.title, "a.flac");
    assert_eq!(info.path.text, "m/a.flac");
    assert_eq!(info.raw, out);
    assert_eq!(
        info.rows,
        vec![
            row("文件大小", "2.00 KB"),
            row("格式", "raw FLAC"),
            row("时长", "00:01:01.500"),
            row("总体码率", "1.41 Mbps"),
            row("音频流", "flac / 44100 Hz / 2 声道 / 900 kbps"),
            row("视频/封面流", "mjpeg / 600x500"),
            row("数据流", "bin"),
        ]
    );
}

#[test]
fn ffprobe_may_tell_nothing() {
    let value = read_probe(&Some(b"{}".to_vec())).unwrap();
    assert!(media_info_of_value(&path("a"), &value, None, None, String::new()).is_none());
    assert!(media_info_from_ffprobe(&path("a"), &None, Some(1), None).is_none());
    assert!(media_info_from_ffprobe(&path("a"), &Some(b"{".to_vec()), Some(1), None).is_none());
    let sized = media_info_from_ffprobe(&path("a"), &Some(b"{}".to_vec()), Some(1), None).unwrap();
    assert_eq!(sized.rows, vec![row("文件大小", "1 B")]);
    let short = read_probe(&Some(br#"{"format":{"format_name":"mp3"}}"#.to_vec())).unwrap();
    let info = media_info_of_value(&path("a"), &short, None, None, String::new()).unwrap();
    assert_eq!(info.rows, vec![row("格式", "mp3")]);
    assert!(read_probe(&None).is_none());
    assert!(read_probe(&Some(b"{".to_vec())).is_none());
}

#[test]
fn information_from_ffmpeg() {
    let raw = "Input #0, mp3, from 'a.mp3':\n  Duration: 00:03:25.10, start: 0.0, bitrate: 320 kb/s\n  \
               Stream #0:0: Audio: mp3, 44100 Hz\n    Stream #0:1: Video: mjpeg \n  Stream #0:2: Data: x\n\
               x: Audio: not a stream\n";
    assert_eq!(ffmpeg_duration_text(raw).as_deref(), Some("00:03:25.10"));
    assert_eq!(ffmpeg_bit_rate(raw), Some(320));
    let span = Some(Span { secs: 205, millis: 100 });
    let info = media_info_from_ffmpeg(&path("a.mp3"), raw.to_string(), None, span);
    assert_eq!(
        info.rows,
        vec![
            row("时长", "00:03:25.100"),
            row("总体码率", "320 kbps"),
            row("音频流", "mp3, 44100 Hz"),
            row("视频/封面流", "mjpeg"),
        ]
    );
}

#[test]
fn ffmpeg_may_be_missing() {
    assert_eq!(ffmpeg_report(&None), NO_FFMPEG);
    assert_eq!(ffmpeg_report(&Some(b"x\xff".to_vec())), "x\u{fffd}");
    assert_eq!(probed_seconds(&b" 12.5\r\n".to_vec()), "12.5");
    assert_eq!(ffmpeg_duration_text(NO_FFMPEG), None);
    assert_eq!(ffmpeg_bit_rate(NO_FFMPEG), None);
    assert_eq!(ffmpeg_bit_rate("bitrate: N/A"), None);
    assert_eq!(ffmpeg_bit_rate("bitrate: "), None);
    let info = media_info_from_ffmpeg(&path("a.mp3"), NO_FFMPEG.to_string(), None, None);
    assert_eq!(info.rows, vec![row("状态", "无法读取媒体信息")]);
    assert_eq!(info.raw, NO_FFMPEG);
}
