use yyw::command::{
    build_command, command_line, cover_args, duration_args, fallback_command, info_args,
    metadata_command, ncmdump_command, plain_command_line, separation_command, tag_args,
    transfer_metadata,
};
use yyw::config::{find_separator, load_separators, SeparatorConfig, Settings};
use yyw::convert::Exit;
use yyw::path::FilePath;

fn path(text: &str) -> FilePath {
    FilePath::new(text.to_string())
}

fn strings(list: &[&str]) -> Vec<String> {
    list.iter().map(|s| s.to_string()).collect()
}

fn spleeter() -> SeparatorConfig {
    SeparatorConfig {
        name: "Spleeter".to_string(),
        command: strings(&["spleeter", "separate"]),
        models: strings(&["2stems"]),
        modes: strings(&["vocals"]),
        args_before: strings(&["-p", "spleeter:{model}", "-o", "{output}/{model}"]),
        two_stem_flag: String::new(),
        device_flag: String::new(),
        stems_mode: "model".to_string(),
    }
}

#[test]
fn the_built_in_separator() {
    let list = load_separators(None);
    assert_eq!(list.len(), 1);
    assert_eq!(list[0].name, "Demucs");
    assert_eq!(list[0].command, ["python", "-m", "demucs"]);
    assert_eq!(list[0].models, ["htdemucs", "htdemucs_ft", "mdx_extra", "htdemucs_6s"]);
    assert_eq!(list[0].modes, ["vocals", "four_stems", "six_stems"]);
    assert_eq!(load_separators(Some(Vec::new()))[0].name, "Demucs");
    assert_eq!(load_separators(Some(vec![spleeter()]))[0].name, "Spleeter");
}

#[test]
fn separators_by_name() {
    let list = vec![spleeter(), load_separators(None).remove(0)];
    assert_eq!(find_separator(&list, "Demucs").unwrap().device_flag, "-d");
    assert!(find_separator(&list, "demucs").is_none());
}

#[test]
fn settings_are_those_saved_or_the_default() {
    let d = Settings::load(None);
    assert_eq!(d.source, r"G:\CloudMusic\VipSongsDownload");
    assert_eq!(d.output, "stems_output");
    assert_eq!((d.model.as_str(), d.mode.as_str()), ("htdemucs", "vocals"));
    assert_eq!((d.device.as_str(), d.separator.as_str()), ("auto", "Demucs"));
    let mut s = Settings::default();
    s.device = "cuda".to_string();
    assert_eq!(Settings::load(Some(s)).device, "cuda");
}

#[test]
fn the_command_of_demucs() {
    let cfg = load_separators(None).remove(0);
    let cmd = build_command(
        &cfg, &Vec::new(), &path("out"), &path("m/a b.flac"), "htdemucs", "vocals", "cuda",
    );
    assert_eq!(
        cmd,
        [
            "python", "-m", "demucs", "-n", "htdemucs", "-o", "out", "--two-stems=vocals", "-d",
            "cuda", "m/a b.flac"
        ]
    );
    let four = build_command(
        &cfg, &Vec::new(), &path("out"), &path("a.flac"), "mdx_extra", "four_stems", "auto",
    );
    assert_eq!(four, ["python", "-m", "demucs", "-n", "mdx_extra", "-o", "out", "a.flac"]);
}

#[test]
fn placeholders_are_filled_in() {
    let cmd = build_command(
        &spleeter(), &Vec::new(), &path("out"), &path("a.mp3"), "2stems", "vocals", "cpu",
    );
    assert_eq!(
        cmd,
        ["spleeter", "separate", "-p", "spleeter:2stems", "-o", "out/2stems", "a.mp3"]
    );
}

#[test]
fn six_stems_need_their_own_model() {
    let base = strings(&["demucs"]);
    let six = fallback_command(&base, &path("o"), &path("a"), "htdemucs", "six_stems", "cpu");
    assert_eq!(six, ["demucs", "-n", "htdemucs_6s", "-o", "o", "-d", "cpu", "a"]);
    let two = fallback_command(&base, &path("o"), &path("a"), "htdemucs", "vocals", "auto");
    assert_eq!(two, ["demucs", "-n", "htdemucs", "-o", "o", "--two-stems=vocals", "a"]);
}

#[test]
fn an_unknown_separator_falls_back_to_demucs() {
    let list = vec![spleeter()];
    let cmd = separation_command(
        &list, "Demucs", &strings(&["d.exe"]), &path("o"), &path("a"), "htdemucs", "vocals", "auto",
    );
    assert_eq!(cmd[0], "d.exe");
    assert_eq!(cmd.last().unwrap(), "a");
    let known = separation_command(
        &list, "Spleeter", &strings(&["d.exe"]), &path("o"), &path("a"), "2stems", "vocals", "auto",
    );
    assert_eq!(known[0], "spleeter");
}

#[test]
fn commands_as_they_are_shown() {
    let cmd = strings(&["a b", "c", "d'e", "f\"g"]);
    assert_eq!(command_line(&cmd), "\"a b\" c \"d'e\" \"f\\\"g\"");
    assert_eq!(plain_command_line(&cmd), "\"a b\" c d'e f\"g");
    assert_eq!(command_line(&Vec::new()), "");
}

#[test]
fn arguments_of_the_tools() {
    assert_eq!(
        ncmdump_command(&path("n.exe"), "m", &path("m/s.ncm")),
        ["n.exe", "-o", "m", "m/s.ncm"]
    );
    let args = metadata_command(&Some(path("f.exe")), &path("m/s.mp3"), &path("o/t/vocals.wav"));
    assert_eq!(
        args.unwrap(),
        [
            "f.exe", "-y", "-i", "o/t/vocals.wav", "-i", "m/s.mp3", "-map", "0:a",
            "-map_metadata", "1", "-map", "1:v?", "-c:a", "flac", "-disposition:v",
            "attached_pic", "o/t/vocals.flac"
        ]
    );
    assert!(metadata_command(&None, &path("m/s.mp3"), &path("o/t/vocals.wav")).is_none());
    assert_eq!(
        cover_args(&path("s.mp3"), "c.png"),
        [
            "-y", "-i", "s.mp3", "-map", "0:v:0?", "-an", "-frames:v", "1", "-update", "1", "c.png"
        ]
    );
    assert_eq!(
        duration_args(&path("s.mp3")),
        [
            "-v", "error", "-show_entries", "format=duration", "-of",
            "default=noprint_wrappers=1:nokey=1", "s.mp3"
        ]
    );
    assert_eq!(
        tag_args(&path("s.mp3")),
        [
            "-v", "quiet", "-print_format", "json", "-show_entries", "format_tags:stream_tags",
            "s.mp3"
        ]
    );
    assert_eq!(
        info_args(&path("s.mp3")),
        ["-v", "quiet", "-print_format", "json", "-show_format", "-show_streams", "s.mp3"]
    );
}

#[test]
fn metadata_is_there_only_after_a_success() {
    let stem = path("o/t/vocals.wav");
    let tool = Some(path("f.exe"));
    let end = |success| Some(Exit { success, code: Some(0) });
    let out = transfer_metadata(&tool, &stem, &end(true));
    assert_eq!(out.unwrap().text, "o/t/vocals.flac");
    assert!(transfer_metadata(&tool, &stem, &end(false)).is_none());
    assert!(transfer_metadata(&tool, &stem, &None).is_none());
    assert!(transfer_metadata(&None, &stem, &end(true)).is_none());
}
