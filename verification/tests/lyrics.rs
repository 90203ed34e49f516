use yyw::json::Json;
use yyw::lyrics::{
    cover_status, extract_embedded_lyrics, format_lyric_timestamp, lyrics_from_probe_value,
    netease_lyric_text, normalize_lyrics, parse_netease_json_lyric_line, shown_lyrics,
    LyricsSources,
};
use yyw::path::FilePath;

fn path(text: &str) -> FilePath {
    FilePath::new(text.to_string())
}

fn text(s: &str) -> Json {
    Json::Text(s.to_string())
}

fn object(entries: Vec<(&str, Json)>) -> Json {
    Json::Object(entries.into_iter().map(|(k, v)| (k.to_string(), v)).collect())
}

#[test]
fn time_stamps() {
    assert_eq!(format_lyric_timestamp(0), "[00:00.00]");
    assert_eq!(format_lyric_timestamp(61_239), "[01:01.23]");
    assert_eq!(format_lyric_timestamp(6_000_000), "[100:00.00]");
    assert_eq!(format_lyric_timestamp(u64::MAX), "[307445734561825:51.61]");
}

#[test]
fn lines_in_json() {
    let line = r#"{"t":1000,"c":[{"tx":"作词: "},{"tx":"某人"},{"li":"x"}]}"#;
    assert_eq!(parse_netease_json_lyric_line(line).as_deref(), Some("[00:01.00]作词: 某人"));
    assert_eq!(parse_netease_json_lyric_line(r#"{"c":[{"tx":" a "}]}"#).as_deref(), Some("a"));
    assert_eq!(parse_netease_json_lyric_line(r#"{"t":1.5,"c":[{"tx":"a"}]}"#).as_deref(), Some("a"));
    assert_eq!(parse_netease_json_lyric_line(r#"{"c":[{"tx":"  "}]}"#), None);
    assert_eq!(parse_netease_json_lyric_line(r#"{"t":1}"#), None);
    assert_eq!(parse_netease_json_lyric_line("{not json}"), None);
    assert_eq!(parse_netease_json_lyric_line("[1]"), None);
}

#[test]
fn lines_from_values() {
    let chunks = Json::Array(vec![object(vec![("tx", text("x"))]), object(vec![("tx", text("y "))])]);
    let value = object(vec![("c", chunks), ("t", Json::Number(Some(10)))]);
    assert_eq!(netease_lyric_text(&value).as_deref(), Some("[00:00.01]xy"));
    assert_eq!(netease_lyric_text(&Json::Null), None);
    assert_eq!(netease_lyric_text(&object(vec![("c", text("x"))])), None);
}

#[test]
fn the_normal_form_of_lyrics() {
    let raw = "\u{feff}\r\n  [00:01.00]第一行  \r\n\r\n{\"t\":2000,\"c\":[{\"tx\":\"第二行\"}]}\n{bad}\n";
    assert_eq!(normalize_lyrics(raw), "\u{feff}\n[00:01.00]第一行\n[00:02.00]第二行");
    assert_eq!(normalize_lyrics(" \n\t\n"), "歌词为空");
    assert_eq!(normalize_lyrics("{bad}"), "歌词为空");
    assert_eq!(normalize_lyrics("{x} y"), "{x} y");
}

#[test]
fn lyrics_among_tags() {
    let format = |tags: Json| object(vec![("format", object(vec![("tags", tags)]))]);
    let tags = object(vec![
        ("LYRICS", text("  ")),
        ("lyrics-eng", Json::Number(Some(1))),
        ("unsyncedLyrics", text(" la la ")),
        ("zLyric", text("later")),
    ]);
    assert_eq!(lyrics_from_probe_value(&format(tags)).as_deref(), Some("la la"));
    assert_eq!(lyrics_from_probe_value(&format(object(vec![("title", text("x"))]))), None);
    let streams = Json::Array(vec![
        object(vec![("index", Json::Number(Some(0)))]),
        object(vec![("tags", object(vec![("lyrics", text("from a stream"))]))]),
    ]);
    let value = object(vec![("streams", streams)]);
    assert_eq!(lyrics_from_probe_value(&value).as_deref(), Some("from a stream"));
}

#[test]
fn embedded_lyrics_from_bytes() {
    let out = br#"{"streams":[],"format":{"tags":{"title":"t","Lyrics":"one\ntwo"}}}"#.to_vec();
    assert_eq!(extract_embedded_lyrics(&Some(out)).as_deref(), Some("one\ntwo"));
    assert_eq!(extract_embedded_lyrics(&Some(b"\xff".to_vec())), None);
    assert_eq!(extract_embedded_lyrics(&None), None);
}

#[test]
fn tags_are_read_in_the_order_of_their_keys() {
    let out = br#"{"format":{"tags":{"lyrics-b":"B","lyrics-a":"A"}}}"#.to_vec();
    assert_eq!(extract_embedded_lyrics(&Some(out)).as_deref(), Some("A"));
}

#[test]
fn what_is_shown_of_lyrics() {
    let shown = |file: Option<(FilePath, Option<String>)>, embedded: Option<&str>| {
        shown_lyrics(&LyricsSources { file, embedded: embedded.map(|s| s.to_string()) })
    };
    let file = Some((path("m/a.lrc"), Some(" x ".to_string())));
    assert_eq!(shown(file, Some("y")), ("x".to_string(), "歌词: a.lrc".to_string()));
    let unreadable = Some((path("m/a.lrc"), None));
    assert_eq!(
        shown(unreadable, Some("y")),
        ("歌词读取失败".to_string(), "歌词读取失败".to_string())
    );
    assert_eq!(shown(None, Some("y")), ("y".to_string(), "歌词: 音频内嵌".to_string()));
    assert_eq!(shown(None, None), ("未找到歌词文件".to_string(), "未找到歌词".to_string()));
}

#[test]
fn what_is_said_of_covers() {
    assert_eq!(cover_status(&None, false), "未找到封面");
    assert_eq!(cover_status(&Some(path("m/c.png")), true), "封面: c.png");
    assert_eq!(cover_status(&Some(path("m/c.png")), false), "封面读取失败");
}

#[test]
fn plain_lyrics_are_normal_after_one_go() {
    for raw in [" a \r\n\n b\t\n", "", "\n \n", "x\ry", "{a} b", "歌\u{3000}\n词"] {
        let once = normalize_lyrics(raw);
        assert!(!once.is_empty());
        assert_eq!(normalize_lyrics(&once), once, "{raw:?}");
    }
}
