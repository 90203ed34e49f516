use yyw::convert::{
    convert_ncm_streaming, convert_ncm_sync, dumped_candidates, streamed_candidates, DumpRun, Exit,
};
use yyw::media::{valid_image_ext, AudioItem, AudioKind};
use yyw::path::FilePath;
use yyw::scan::{
    files_to_stamp, make_ncm_item, ncm_candidates, scan_for_window, scan_inputs, scan_stems,
    stamp_metadata_for_source,
};
use yyw::search::{Candidate, Found};

fn path(text: &str) -> FilePath {
    FilePath::new(text.to_string())
}

fn paths(list: &[&str]) -> Vec<FilePath> {
    list.iter().map(|t| path(t)).collect()
}

fn at(text: &str) -> Found {
    Found { candidate: Candidate::at(text), path: path(text) }
}

fn names(items: &[AudioItem]) -> Vec<String> {
    items.iter().map(|i| i.path.name()).collect()
}

#[test]
fn a_missing_directory_has_no_files() {
    let mut items = Vec::new();
    assert_eq!(scan_inputs(false, &paths(&["m/a.flac"]), &Vec::new(), &mut items), 0);
    assert!(items.is_empty());
    let (shown, status) = scan_for_window(false, &Vec::new(), &Vec::new());
    assert!(shown.is_empty());
    assert_eq!(status, "音频目录不存在");
}

#[test]
fn inputs_are_listed_by_name() {
    let walked = paths(&["m/b.mp3", "m/x/B.FLAC", "m/a.wav", "m/cover.png", "m/noext", "m/c.NCM"]);
    let mut items = Vec::new();
    assert_eq!(scan_inputs(true, &walked, &Vec::new(), &mut items), 4);
    assert_eq!(names(&items), ["B.FLAC", "a.wav", "b.mp3", "c.NCM"]);
    assert_eq!(items[3].kind, AudioKind::Normal);
    assert_eq!(items[0].status, "待处理");
    assert_eq!(items[0].process_path.as_ref().unwrap().text, "m/x/B.FLAC");
    let (shown, status) = scan_for_window(true, &walked, &Vec::new());
    assert_eq!(names(&shown), ["a.wav", "B.FLAC", "b.mp3", "c.NCM"]);
    assert_eq!(shown[3].kind, AudioKind::Ncm);
    assert!(!shown[3].can_separate());
    assert_eq!(status, "已扫描 4 个文件, 3 个可分离");
}

#[test]
fn extensions_count_in_any_case() {
    for name in ["song.mp3", "song.MP3", "song.Mp3", "x.aIFf", "y.NCM"] {
        let mut items = Vec::new();
        assert_eq!(scan_inputs(true, &paths(&[name]), &Vec::new(), &mut items), 1, "{name}");
        assert_eq!(items[0].path.text, name);
    }
    let mut items = Vec::new();
    assert_eq!(scan_inputs(true, &paths(&["a.mp", "a.ｍｐ３"]), &Vec::new(), &mut items), 0);
}

#[test]
fn files_of_one_name_stay_in_walking_order() {
    let walked = paths(&["m/z/a.mp3", "m/a/a.mp3"]);
    let mut items = Vec::new();
    scan_inputs(true, &walked, &Vec::new(), &mut items);
    assert_eq!(items[0].path.text, "m/z/a.mp3");
    assert_eq!(items[1].path.text, "m/a/a.mp3");
}

#[test]
fn audio_beside_an_ncm_file_is_used() {
    let ncm = path("m/song.ncm");
    assert_eq!(ncm_candidates(&ncm)[1].base, "m/song.mp3");
    let item = make_ncm_item(&ncm, &paths(&["m/x/song.flac"]), &vec![at("m/song.wav"), at("m/song.mp3")]);
    assert_eq!(item.status, "已找到 MP3");
    assert_eq!(item.process_path.unwrap().text, "m/song.mp3");
    assert_eq!(item.kind, AudioKind::Ncm);
}

#[test]
fn audio_elsewhere_is_the_second_choice() {
    let ncm = path("m/song.ncm");
    let walked = paths(&["m/y/song.wav", "m/x/song.FLAC", "m/z/song.aac", "m/song.txt", "m/other.mp3"]);
    let item = make_ncm_item(&ncm, &walked, &Vec::new());
    assert_eq!(item.status, "已找到 FLAC");
    assert_eq!(item.process_path.unwrap().text, "m/x/song.FLAC");
    let near = paths(&["m/x/song.aac", "m/song.WAV"]);
    assert_eq!(make_ncm_item(&ncm, &near, &Vec::new()).process_path.unwrap().text, "m/song.WAV");
    let twice = paths(&["m/b/song.mp3", "m/a/song.mp3"]);
    assert_eq!(make_ncm_item(&ncm, &twice, &Vec::new()).process_path.unwrap().text, "m/b/song.mp3");
}

#[test]
fn an_ncm_file_without_audio_waits() {
    let item = make_ncm_item(&path("m/song.ncm"), &paths(&["m/song2.mp3"]), &Vec::new());
    assert_eq!(item.status, "NCM: 等待外部转换");
    assert!(!item.can_separate());
}

#[test]
fn stems_are_listed_by_track_and_name() {
    let walked = paths(&[
        "out/htdemucs/Song/vocals.wav",
        "out/htdemucs/song/Bass.flac",
        "out/htdemucs/Album/other.wav",
        "out/readme.txt",
        "out/x.aiff",
    ]);
    let (stems, selected) = scan_stems(true, &walked, Some(2));
    let list: Vec<(String, String)> =
        stems.iter().map(|s| (s.track_name.clone(), s.stem_name.clone())).collect();
    assert_eq!(list[0], ("Album".to_string(), "other".to_string()));
    assert_eq!(list[1], ("song".to_string(), "Bass".to_string()));
    assert_eq!(list[2], ("Song".to_string(), "vocals".to_string()));
    assert_eq!(list.len(), 3);
    assert_eq!(selected, Some(2));
    assert_eq!(scan_stems(true, &walked, Some(3)).1, None);
    let gone = scan_stems(false, &walked, Some(0));
    assert!(gone.0.is_empty() && gone.1.is_none());
}

#[test]
fn only_wav_files_below_a_track_are_stamped() {
    let walked = paths(&["out/a.wav", "out/t/a.wav", "out/t/b.WAV", "out/t/u/c.wav", "out/t/d.flac"]);
    let files = files_to_stamp(&walked, &path("out"));
    let list: Vec<String> = files.iter().map(|p| p.text.clone()).collect();
    assert_eq!(list, ["out/t/a.wav", "out/t/u/c.wav"]);
    let outputs = vec![Some(path("a")), None, Some(path("b"))];
    assert_eq!(stamp_metadata_for_source(&outputs), 2);
    assert_eq!(stamp_metadata_for_source(&Vec::new()), 0);
}

#[test]
fn images_by_extension() {
    assert!(valid_image_ext(&path("a.PNG")) && valid_image_ext(&path("a.jpeg")));
    assert!(!valid_image_ext(&path("a.gif")) && !valid_image_ext(&path("png")));
}

#[test]
fn plain_runs_of_ncmdump() {
    let ncm = path("m/song.ncm");
    let places = dumped_candidates(&ncm, "m");
    assert_eq!(places.len(), 2);
    assert_eq!(places[0].below, ["song.flac"]);
    let mp3 = vec![Found { candidate: places[1].clone(), path: path("m/song.mp3") }];
    let ok = convert_ncm_sync(&DumpRun::Finished, &ncm, "m", &mp3);
    assert_eq!(ok.unwrap().text, "m/song.mp3");
    let err = |run: DumpRun| convert_ncm_sync(&run, &ncm, "m", &Vec::new()).err().unwrap();
    assert_eq!(err(DumpRun::Finished), "ncmdump 未生成输出文件");
    assert_eq!(err(DumpRun::NotStarted("x".to_string())), "ncmdump 启动失败: x");
    assert_eq!(err(DumpRun::Failed(b"bad \xff".to_vec())), "ncmdump 返回错误: bad \u{fffd}");
}

#[test]
fn shown_runs_of_ncmdump() {
    let ncm = path("song.ncm");
    let places = streamed_candidates(&ncm, ".");
    assert_eq!(places.len(), 9);
    let wav = vec![Found { candidate: places[2].clone(), path: path("./song.wav") }];
    let done = Ok(Exit { success: true, code: Some(0) });
    assert_eq!(convert_ncm_streaming(&done, &ncm, ".", &wav).unwrap().text, "./song.wav");
    assert_eq!(
        convert_ncm_streaming(&done, &ncm, ".", &Vec::new()).err().unwrap(),
        "ncmdump 未生成输出文件"
    );
    let failed = Ok(Exit { success: false, code: Some(3) });
    assert_eq!(
        convert_ncm_streaming(&failed, &ncm, ".", &wav).err().unwrap(),
        "ncmdump 返回错误码 3"
    );
    let killed = Ok(Exit { success: false, code: None });
    assert_eq!(
        convert_ncm_streaming(&killed, &ncm, ".", &wav).err().unwrap(),
        "ncmdump 返回错误码 -1"
    );
    let broken = Err("启动命令失败: x".to_string());
    assert_eq!(convert_ncm_streaming(&broken, &ncm, ".", &wav).err().unwrap(), "启动命令失败: x");
}
