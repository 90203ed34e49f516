use yyw::cli::{conversion_line, file_item, input_kind, plan_conversion, ConvertPlan, Input};
use yyw::config::{load_separators, SeparatorConfig, Settings};
use yyw::display::{compact_parent_path, compact_path, compact_text, item_row, status_color};
use yyw::lyrics::LyricsSources;
use yyw::media::{AudioItem, AudioKind};
use yyw::message::{Mark, TaskMessage};
use yyw::path::FilePath;
use yyw::picture::CoverFile;
use yyw::session::{PlayOutcome, SeekOutcome, Sound, StemStudio};

fn path(text: &str) -> FilePath {
    FilePath::new(text.to_string())
}

fn paths(list: &[&str]) -> Vec<FilePath> {
    list.iter().map(|t| path(t)).collect()
}

fn studio(ncmdump: Option<&str>) -> StemStudio {
    let mut s = StemStudio::new(
        Settings::default(),
        load_separators(None),
        ncmdump.map(path),
        vec!["demucs".to_string()],
    );
    s.scan_inputs(true, &paths(&["m/a.mp3", "m/b.ncm"]), &Vec::new());
    s
}

#[test]
fn a_new_window() {
    let s = StemStudio::new(Settings::default(), Vec::new(), None, vec!["python".to_string()]);
    assert_eq!(s.status, "准备就绪");
    assert_eq!(s.player.now_playing, "未播放");
    assert_eq!(s.cover_status, "未加载封面");
    assert_eq!(s.lyrics_text, "未加载歌词");
    assert!(s.tool_status.starts_with("Demucs: 未发现 demucs.exe"));
    assert!(!s.running && s.items.is_empty() && s.progress.is_none());
}

#[test]
fn scanning_clears_the_selection() {
    let mut s = studio(None);
    assert_eq!(s.status, "已扫描 2 个文件, 1 个可分离");
    s.toggle_item(0);
    assert!(!s.scan_inputs(false, &Vec::new(), &Vec::new()));
    assert!(s.selected_items.is_empty() && s.items.is_empty());
    assert_eq!(s.status, "音频目录不存在");
}

#[test]
fn pressing_selects_one_item() {
    let mut s = studio(None);
    s.toggle_item(0);
    assert_eq!(s.selected_audio_indices(), [0]);
    s.toggle_item(1);
    assert_eq!(s.selected_audio_indices(), [1]);
    assert!(s.is_selected(1) && !s.is_selected(0));
    s.toggle_item(1);
    assert!(s.selected_audio_indices().is_empty());
}

#[test]
fn what_is_selected_becomes_a_job() {
    let mut s = studio(Some("n"));
    s.scan_inputs(true, &paths(&["m/a.mp3", "m/b.ncm", "m/c.wav", "m/d.ncm"]), &Vec::new());
    s.selected_items = vec![0, 1, 3];
    assert_eq!(s.selected_audio_indices(), [0, 1, 3]);
    assert_eq!(s.selected_ncm_indices(), [1, 3]);
    assert_eq!(s.play_selected_input().unwrap().text, "m/a.mp3");
    let job = s.separate_selected().job.unwrap();
    assert_eq!(job.indices, [0, 1, 3]);
    assert_eq!(job.items[2].path.text, "m/d.ncm");
}

#[test]
fn counts_of_the_window() {
    let mut s = studio(None);
    s.toggle_item(0);
    assert_eq!(s.summary(), ["输入 2 个", "可分离 1 个", "NCM 1 个", "输出音轨 0 个", "已选 1 个"]);
}

#[test]
fn choosing_a_separator() {
    let mut s = studio(None);
    s.separators.push(SeparatorConfig {
        name: "UVR".to_string(),
        command: Vec::new(),
        models: vec!["m1".to_string()],
        modes: Vec::new(),
        args_before: Vec::new(),
        two_stem_flag: String::new(),
        device_flag: String::new(),
        stems_mode: String::new(),
    });
    s.settings.mode = "four_stems".to_string();
    s.choose_separator("UVR");
    assert_eq!(s.settings.model, "m1");
    assert_eq!(s.settings.mode, "four_stems");
    assert_eq!(s.choices(), (Vec::new(), vec!["m1".to_string()]));
    s.choose_separator("Demucs");
    assert_eq!((s.settings.model.as_str(), s.settings.mode.as_str()), ("htdemucs", "vocals"));
    s.choose_separator("none");
    assert_eq!(s.settings.separator, "none");
    assert!(s.choices().0.is_empty());
}

#[test]
fn beginning_a_separation() {
    let mut s = studio(Some("n"));
    let none = s.separate_selected();
    assert!(none.job.is_none() && !none.save);
    assert_eq!(s.status, "请先选择音频");
    s.toggle_item(1);
    s.progress = Some(Mark::Counted(1, 1));
    let start = s.separate_selected();
    let job = start.job.unwrap();
    assert!(start.save && s.running && s.progress.is_none());
    assert_eq!(job.indices, [1]);
    assert_eq!(job.items[0].path.text, "m/b.ncm");
    assert_eq!(job.output_dir.text, "stems_output");
    assert_eq!(job.demucs_base, ["demucs"]);
    assert!(s.separate_selected().job.is_none());
    assert_eq!(s.status, "已有任务正在运行");
    s.stop_task();
    assert!(!s.running);
    assert_eq!(s.status, "已请求停止任务");
}

#[test]
fn beginning_a_conversion() {
    let mut s = studio(None);
    s.toggle_item(0);
    let none = s.convert_ncm_selected();
    assert!(none.job.is_none() && !none.save);
    assert_eq!(s.status, "选中项中没有 NCM 文件");
    s.toggle_item(1);
    let no_tool = s.convert_ncm_selected();
    assert!(no_tool.job.is_none() && no_tool.save);
    assert_eq!(s.status, "未找到 ncmdump");
    let mut t = studio(Some("n"));
    t.toggle_item(1);
    assert_eq!(t.selected_ncm_indices(), [1]);
    assert_eq!(t.convert_ncm_selected().job.unwrap().items.len(), 1);
    assert!(t.convert_ncm_selected().job.is_none());
    assert_eq!(t.status, "已有任务正在运行");
}

#[test]
fn messages_of_the_task() {
    let mut s = studio(Some("n"));
    s.toggle_item(1);
    s.separate_selected();
    let over = s.pump_task_messages(
        vec![
            TaskMessage::Log("x".to_string()),
            TaskMessage::Status("first".to_string()),
            TaskMessage::InputStatus(1, "已转换 FLAC".to_string(), Some(path("m/b.flac"))),
            TaskMessage::InputStatus(9, "nobody".to_string(), None),
            TaskMessage::Progress(Mark::FileEnd(0, 1)),
            TaskMessage::Status("second".to_string()),
        ],
        false,
    );
    assert!(!over && s.running);
    assert_eq!(s.status, "second");
    assert_eq!(s.items[1].status, "已转换 FLAC");
    assert!(s.items[1].can_separate());
    assert!(matches!(s.progress, Some(Mark::FileEnd(0, 1))));
    let kept = TaskMessage::InputStatus(1, "已完成".to_string(), None);
    assert!(s.pump_task_messages(vec![kept, TaskMessage::Done], false));
    assert!(!s.running);
    assert_eq!(s.items[1].process_path.as_ref().unwrap().text, "m/b.flac");
    let audio: Vec<String> = s.listed_audio().iter().map(|p| p.text.clone()).collect();
    assert_eq!(audio, ["m/a.mp3", "m/b.flac"]);
}

#[test]
fn messages_in_pieces() {
    let make = || {
        vec![
            TaskMessage::Status("one".to_string()),
            TaskMessage::InputStatus(0, "处理中".to_string(), None),
            TaskMessage::Status("two".to_string()),
        ]
    };
    let mut whole = studio(None);
    whole.pump_task_messages(make(), false);
    let mut pieces = studio(None);
    for message in make() {
        pieces.pump_task_messages(vec![message], false);
    }
    assert_eq!(whole.status, pieces.status);
    assert_eq!(whole.items[0].status, pieces.items[0].status);
    assert_eq!(whole.items[0].path.text, "m/a.mp3");
}

#[test]
fn a_task_that_is_gone_is_over() {
    let mut s = studio(None);
    s.toggle_item(0);
    s.separate_selected();
    assert!(s.pump_task_messages(Vec::new(), true));
    assert!(!s.running);
}

#[test]
fn choosing_what_to_play() {
    let mut s = studio(None);
    assert!(s.play_selected_input().is_none());
    assert_eq!(s.status, "请先选择输入音频");
    s.toggle_item(0);
    assert_eq!(s.play_selected_input().unwrap().text, "m/a.mp3");
    s.toggle_item(1);
    assert!(s.play_selected_input().is_none());
    assert!(s.wants_stems());
    assert!(s.play_selected_stem().is_none());
    assert_eq!(s.status, "未找到输出音轨，请先分离或检查输出目录");
    s.scan_stems(true, &paths(&["o/t/v.wav", "o/t/b.wav"]));
    assert!(!s.wants_stems());
    assert!(s.play_selected_stem().is_none());
    assert_eq!(s.status, "请先在右侧选择输出音轨；已找到 2 个");
    s.select_stem(1);
    assert_eq!(s.play_selected_stem().unwrap().text, "o/t/v.wav");
    s.scan_stems(false, &Vec::new());
    assert_eq!(s.selected_stem, None);
}

#[test]
fn the_player() {
    let mut s = studio(None);
    assert_eq!(s.pause_resume(), None);
    s.play_audio(&path("m/a.mp3"), PlayOutcome::Started(Some(100)));
    assert_eq!(s.player.now_playing, "正在播放: a.mp3");
    assert_eq!(s.status, "播放中");
    assert_eq!(s.player.playback_position(40), 40);
    assert_eq!(s.player.playback_position(140), 100);
    assert_eq!(s.pause_resume(), Some(Sound::Pause));
    assert_eq!(s.status, "已暂停");
    s.seek_playback(30, SeekOutcome::Restarted);
    assert!(s.player.paused);
    assert_eq!(s.player.playback_position(5), 35);
    s.seek_playback(60, SeekOutcome::Moved);
    assert_eq!(s.player.offset, 0);
    assert_eq!(s.pause_resume(), Some(Sound::Resume));
    s.stop_playback();
    assert_eq!(s.player.now_playing, "未播放");
    assert_eq!(s.player.playback_position(7), 7);
    s.play_audio(&path("m/a.mp3"), PlayOutcome::Failed);
    assert_eq!(s.status, "播放失败");
    assert!(!s.player.active);
}

#[test]
fn seeking_that_fails() {
    let mut s = studio(None);
    s.seek_playback(1, SeekOutcome::NoFile);
    assert_ne!(s.status, "跳转失败：无法打开音频");
    s.play_audio(&path("m/a.mp3"), PlayOutcome::Started(None));
    let mut after = |outcome| {
        s.seek_playback(1, outcome);
        s.status.clone()
    };
    assert_eq!(after(SeekOutcome::NoFile), "跳转失败：无法打开音频");
    assert_eq!(after(SeekOutcome::NotAudio), "跳转失败：无法解码音频");
    assert_eq!(after(SeekOutcome::NoDevice), "跳转失败：没有音频输出设备");
    assert_eq!(after(SeekOutcome::NoPlayer), "跳转失败：无法创建播放器");
}

#[test]
fn the_sidecar_of_a_track() {
    let mut s = studio(None);
    let sources = LyricsSources { file: None, embedded: Some("la".to_string()) };
    s.take_sidecar(&sources, &Some(path("m/c.png")), true);
    assert_eq!(s.lyrics_text, "la");
    assert_eq!(s.lyrics_status, "歌词: 音频内嵌");
    assert_eq!(s.cover_status, "封面: c.png");
    s.take_sidecar(&sources, &Some(path("m/c.png")), false);
    assert_eq!(s.cover_status, "封面读取失败");
}

#[test]
fn the_cover_is_shown_if_it_is_a_picture() {
    let mut s = studio(None);
    let sources = LyricsSources { file: None, embedded: None };
    let mut bytes = Vec::new();
    image::DynamicImage::new_rgba8(2, 1)
        .write_to(&mut std::io::Cursor::new(&mut bytes), image::ImageFormat::Png)
        .unwrap();
    let cover = |bytes| Some(CoverFile { path: path("m/c.png"), bytes });
    let pixels = s.load_media_sidecar(&sources, &cover(Some(bytes))).unwrap();
    assert_eq!((pixels.width, pixels.height, pixels.rgba), (2, 1, vec![0; 8]));
    assert_eq!(s.cover_status, "封面: c.png");
    assert!(s.load_media_sidecar(&sources, &cover(Some(vec![1, 2, 3]))).is_none());
    assert_eq!(s.cover_status, "封面读取失败");
    assert!(s.load_media_sidecar(&sources, &cover(None)).is_none());
    assert_eq!(s.cover_status, "封面读取失败");
    assert!(s.load_media_sidecar(&sources, &None).is_none());
    assert_eq!(s.cover_status, "未找到封面");
    assert_eq!(s.lyrics_status, "未找到歌词");
}

#[test]
fn colours_of_statuses() {
    assert_eq!(status_color("已完成"), (74, 222, 128));
    assert_eq!(status_color("转换成功但失败"), (74, 222, 128));
    assert_eq!(status_color("失败 1"), (239, 68, 68));
    assert_eq!(status_color("跳过: 未找到 ncmdump"), (239, 68, 68));
    assert_eq!(status_color("处理中"), (250, 204, 21));
    assert_eq!(status_color("转换中..."), (250, 204, 21));
    assert_eq!(status_color("待处理"), (148, 163, 184));
}

#[test]
fn shortened_texts() {
    assert_eq!(compact_text("abcdef", 6), "abcdef");
    assert_eq!(compact_text("abcdefgh", 7), "ab...gh");
    assert_eq!(compact_text("abcdefgh", 6), "a...gh");
    assert_eq!(compact_text("abcdefgh", 4), "...h");
    assert_eq!(compact_text("abcdefgh", 3), "...");
    assert_eq!(compact_text("abcdefgh", 0), "...");
    assert_eq!(compact_text("一二三四五六七八", 7), "一二...七八");
    for max in [0, 2, 3, 4, 7] {
        let once = compact_text("abcdefgh", max);
        assert_eq!(compact_text(&once, max), once);
    }
    assert_eq!(compact_path(&path("aa/bb/cc"), 7), "aa...cc");
    assert_eq!(compact_parent_path(&path("dir/file.mp3"), 28), "dir");
    assert_eq!(compact_parent_path(&path("/"), 28), "/");
}

#[test]
fn rows_of_items() {
    let mut item = AudioItem {
        path: path("m/a.ncm"),
        status: "已找到 MP3".to_string(),
        process_path: Some(path("x/a.mp3")),
        kind: AudioKind::Ncm,
    };
    let row = item_row(&item);
    assert_eq!((row.name.as_str(), row.kind.as_str()), ("a.ncm", "NCM"));
    assert_eq!((row.place.as_str(), row.media.text.as_str()), ("x", "x/a.mp3"));
    assert_eq!(row.color, (74, 222, 128));
    item.process_path = None;
    assert_eq!(item_row(&item).media.text, "m/a.ncm");
}

#[test]
fn inputs_of_the_command_line() {
    assert_eq!(input_kind(true, false), Input::Directory);
    assert_eq!(input_kind(false, true), Input::File);
    assert_eq!(input_kind(false, false), Input::Missing);
    let mp3 = file_item(&path("a.mp3"));
    assert_eq!((mp3.kind, mp3.status.as_str()), (AudioKind::Normal, "待处理"));
    assert!(mp3.can_separate());
    let ncm = file_item(&path("a.ncm"));
    assert_eq!(ncm.kind, AudioKind::Ncm);
    assert!(!ncm.can_separate());
    assert_eq!(file_item(&path("a.NCM")).kind, AudioKind::Normal);
}

#[test]
fn converting_only() {
    let skip = |plan: ConvertPlan| match plan {
        ConvertPlan::Skip(line) => line,
        ConvertPlan::Convert { .. } => panic!("not skipped"),
    };
    assert_eq!(skip(plan_conversion(&file_item(&path("a.mp3")), true)), "Not NCM, skip: a.mp3");
    assert_eq!(
        skip(plan_conversion(&file_item(&path("a.ncm")), false)),
        "ncmdump not found, cannot convert: a.ncm"
    );
    match plan_conversion(&file_item(&path("m/a.ncm")), true) {
        ConvertPlan::Convert { line, out_dir } => {
            assert_eq!((line.as_str(), out_dir.as_str()), ("Converting: m/a.ncm", "m"));
        }
        ConvertPlan::Skip(_) => panic!("skipped"),
    }
    assert_eq!(conversion_line(&Ok(path("m/a.mp3"))), "  -> m/a.mp3");
    assert_eq!(conversion_line(&Err("x".to_string())), "  FAIL: x");
}
