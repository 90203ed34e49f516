use yyw::batch::{Action, Batch, Event, Job, Reply, RunEnd, Stage};
use yyw::config::load_separators;
use yyw::convert::Exit;
use yyw::media::{AudioItem, AudioKind};
use yyw::message::{Mark, Phase, TaskMessage};
use yyw::path::FilePath;
use yyw::separation::run_separation;
use yyw::window_batch::{run_demucs_batch, run_ncm_convert_batch};

fn path(text: &str) -> FilePath {
    FilePath::new(text.to_string())
}

fn normal(text: &str) -> AudioItem {
    AudioItem {
        path: path(text),
        status: String::new(),
        process_path: Some(path(text)),
        kind: AudioKind::Normal,
    }
}

fn ncm(text: &str) -> AudioItem {
    AudioItem {
        path: path(text),
        status: String::new(),
        process_path: None,
        kind: AudioKind::Ncm,
    }
}

fn job(items: Vec<AudioItem>, ncmdump: Option<&str>) -> Job {
    let indices = (0..items.len()).map(|i| i + 10).collect();
    Job {
        items,
        indices,
        ncmdump: ncmdump.map(path),
        output_dir: path("out"),
        separators: load_separators(None),
        separator: "Demucs".to_string(),
        model: "htdemucs".to_string(),
        mode: "vocals".to_string(),
        device: "auto".to_string(),
        demucs_base: vec!["demucs".to_string()],
    }
}

fn spell(m: &TaskMessage) -> String {
    match m {
        TaskMessage::Log(s) => format!("log {s:?}"),
        TaskMessage::Status(s) => format!("status {s}"),
        TaskMessage::InputStatus(i, s, p) => {
            format!("item {i} {s} {}", p.as_ref().map(|p| p.text.clone()).unwrap_or_default())
        }
        TaskMessage::Done => "done".to_string(),
        TaskMessage::Progress(Mark::Counted(r, n)) => format!("counted {r}/{n}"),
        TaskMessage::Progress(Mark::FileEnd(r, n)) => format!("end {r}/{n}"),
        TaskMessage::Progress(Mark::Converted(r, n)) => format!("converted {r}/{n}"),
        TaskMessage::Progress(Mark::Within(s, p)) => format!("within {}/{} {p}", s.round, s.total),
        TaskMessage::Progress(Mark::Told(_, p)) => format!("told {p}"),
    }
}

fn said(reply: &Reply) -> Vec<String> {
    reply.messages.iter().map(spell).collect()
}

fn exited(success: bool, code: i32) -> Event {
    Event::Separated(RunEnd::Exited(Exit { success, code: Some(code) }))
}

fn command(reply: &Reply) -> Vec<String> {
    match &reply.action {
        Action::Separate { cmd, .. } => cmd.clone(),
        Action::Convert { cmd, .. } => cmd.clone(),
        _ => panic!("no command"),
    }
}

#[test]
fn separating_one_file() {
    let job = job(vec![normal("m/a b.mp3")], None);
    let mut batch = Batch::new();
    let first = run_separation(&job, &mut batch, Event::Running(true));
    assert_eq!(
        said(&first),
        [
            "status 分离 1/1: a b.mp3",
            "log \"\\n=== a b.mp3 ===\\n使用音频: m/a b.mp3\\n\"",
            "log \"python -m demucs -n htdemucs -o out --two-stems=vocals \\\"m/a b.mp3\\\"\\n\"",
        ]
    );
    assert_eq!(command(&first).last().unwrap(), "m/a b.mp3");
    let second = run_separation(&job, &mut batch, exited(true, 0));
    assert_eq!(said(&second), ["counted 1/1"]);
    assert!(matches!(&second.action, Action::Stamp(p) if p.text == "m/a b.mp3"));
    let third = run_separation(&job, &mut batch, Event::Stamped(2));
    assert_eq!(said(&third), ["log \"Metadata stamped: 2 stems\\n\""]);
    let last = run_separation(&job, &mut batch, Event::Running(true));
    assert_eq!(said(&last), ["status 完成 1, 失败 0", "done"]);
    assert!(matches!(last.action, Action::Finish));
    assert!(matches!(batch.stage, Stage::Over));
}

#[test]
fn converting_before_separating() {
    let job = job(vec![ncm("m/a.ncm")], Some("t/ncmdump.exe"));
    let mut batch = Batch::new();
    let first = run_separation(&job, &mut batch, Event::Running(true));
    assert_eq!(
        said(&first),
        ["status 转换 NCM 1/1: a.ncm", "log \"\\n=== a.ncm ===\\n正在转换 NCM...\\n\""]
    );
    assert_eq!(command(&first), ["t/ncmdump.exe", "-o", "m", "m/a.ncm"]);
    let second = run_separation(&job, &mut batch, Event::Converted(Ok(path("m/a.flac"))));
    assert_eq!(said(&second)[0], "log \"NCM 转换成功: m/a.flac\\n\"");
    assert_eq!(said(&second)[1], "status 分离 1/1: a.flac");
    assert_eq!(command(&second).last().unwrap(), "m/a.flac");
    let failed = run_separation(&job, &mut batch, exited(false, 1));
    assert_eq!(said(&failed), ["counted 1/1"]);
    assert_eq!((batch.ok, batch.fail), (0, 1));
    assert!(run_separation(&job, &mut batch, Event::Stamped(0)).messages.is_empty());
}

#[test]
fn files_that_cannot_be_separated_are_passed_over() {
    let mut strange = normal("m/x.mp3");
    strange.process_path = None;
    let job = job(vec![ncm("m/a.ncm"), strange], None);
    let mut batch = Batch::new();
    let first = run_separation(&job, &mut batch, Event::Running(true));
    assert_eq!(
        said(&first),
        ["log \"\\n=== a.ncm ===\\n未找到 ncmdump, 无法自动转换.\\n\"", "counted 1/2"]
    );
    assert!(matches!(first.action, Action::Ask));
    let second = run_separation(&job, &mut batch, Event::Running(true));
    assert_eq!(
        said(&second),
        ["log \"\\n=== x.mp3 ===\\n无可处理音频, 跳过.\\n\"", "counted 2/2"]
    );
    let last = run_separation(&job, &mut batch, Event::Running(true));
    assert_eq!(said(&last), ["status 完成 0, 失败 0", "done"]);
}

#[test]
fn a_failed_conversion_counts_as_a_failure() {
    let job = job(vec![ncm("m/a.ncm"), normal("m/b.mp3")], Some("n"));
    let mut batch = Batch::new();
    run_separation(&job, &mut batch, Event::Running(true));
    let failed = run_separation(&job, &mut batch, Event::Converted(Err("坏".to_string())));
    assert_eq!(said(&failed), ["log \"NCM 转换失败: 坏\\n\"", "counted 1/2"]);
    assert_eq!(batch.fail, 1);
    let next = run_separation(&job, &mut batch, Event::Running(true));
    assert_eq!(said(&next)[0], "status 分离 2/2: b.mp3");
}

#[test]
fn a_program_that_does_not_start_ends_the_batch() {
    let job = job(vec![normal("m/a.mp3"), normal("m/b.mp3")], None);
    let mut batch = Batch::new();
    run_separation(&job, &mut batch, Event::Running(true));
    let end = run_separation(&job, &mut batch, Event::Separated(RunEnd::NotRun("x".to_string())));
    assert_eq!(said(&end), ["log \"启动失败: x\\n\"", "status 完成 0, 失败 1", "done"]);
    assert!(matches!(end.action, Action::Finish));
}

#[test]
fn a_stopped_task_ends() {
    let job = job(vec![normal("m/a.mp3")], None);
    let mut batch = Batch::new();
    let end = run_separation(&job, &mut batch, Event::Running(false));
    assert_eq!(said(&end), ["status 完成 0, 失败 0", "done"]);
    let mut window = Batch::new();
    let end = run_demucs_batch(&job, &mut window, Event::Running(false));
    assert_eq!(said(&end), ["status 分离完成 0, 失败 0", "done"]);
    let mut conversions = Batch::new();
    let end = run_ncm_convert_batch(&job, &path("n"), &mut conversions, Event::Running(false));
    assert_eq!(said(&end), ["status 转换完成 0, 失败 0", "done"]);
}

#[test]
fn a_batch_ends_after_four_events_for_each_file_at_most() {
    let job = job(vec![ncm("a.ncm"), ncm("b.ncm"), normal("c.mp3")], Some("n"));
    let mut batch = Batch::new();
    let mut event = Event::Running(true);
    let mut events = 0;
    let mut marks: Vec<String> = Vec::new();
    loop {
        events += 1;
        let reply = run_separation(&job, &mut batch, event);
        marks.extend(said(&reply).into_iter().filter(|m| m.starts_with("counted")));
        event = match reply.action {
            Action::Ask => Event::Running(true),
            Action::Convert { ncm, .. } => Event::Converted(Ok(ncm.with_extension("mp3"))),
            Action::Separate { .. } => exited(true, 0),
            Action::Stamp(_) => Event::Stamped(1),
            Action::Finish => break,
        };
    }
    assert_eq!((batch.ok, batch.fail), (3, 0));
    assert_eq!(events, 4 + 4 + 3 + 1);
    assert_eq!(marks, ["counted 1/3", "counted 2/3", "counted 3/3"]);
}

#[test]
fn the_window_separates_and_tells_each_item() {
    let job = job(vec![ncm("m/a.ncm"), normal("m/b.mp3")], Some("n"));
    let mut batch = Batch::new();
    let first = run_demucs_batch(&job, &mut batch, Event::Running(true));
    assert_eq!(
        said(&first),
        [
            "item 10 转换 NCM... ",
            "status 转换 NCM 1/2: a.ncm",
            "log \"\\n=== a.ncm ===\\n正在自动转换 NCM...\\n\"",
            "within 0/2 5",
        ]
    );
    assert!(matches!(&first.action, Action::Convert { scope: Some(s), .. } if s.phase == Phase::Convert));
    let second = run_demucs_batch(&job, &mut batch, Event::Converted(Ok(path("m/a.flac"))));
    assert_eq!(
        said(&second),
        [
            "item 10 已转换 FLAC m/a.flac",
            "log \"NCM 转换成功: a.flac\\n\"",
            "converted 0/2",
            "item 10 处理中 ",
            "status 分离 1/2: a.flac",
            "log \"\\n=== a.ncm ===\\n使用音频: m/a.flac\\n\"",
        ]
    );
    assert!(matches!(&second.action, Action::Separate { scope: Some(s), .. } if s.phase == Phase::Separate));
    let third = run_demucs_batch(&job, &mut batch, exited(true, 0));
    assert_eq!(said(&third), ["item 10 已完成 ", "end 0/2"]);
    let fourth = run_demucs_batch(&job, &mut batch, Event::Running(true));
    assert!(matches!(&fourth.action, Action::Separate { scope: Some(s), .. } if s.phase == Phase::Whole && s.round == 1));
    let fifth = run_demucs_batch(&job, &mut batch, exited(false, 7));
    assert_eq!(said(&fifth), ["item 11 失败 7 ", "end 1/2"]);
    let last = run_demucs_batch(&job, &mut batch, Event::Running(true));
    assert_eq!(said(&last), ["status 分离完成 1, 失败 1", "done"]);
}

#[test]
fn the_window_passes_over_and_gives_up() {
    let mut strange = normal("m/x.mp3");
    strange.process_path = None;
    let job = job(vec![ncm("m/a.ncm"), strange, normal("m/b.mp3")], None);
    let mut batch = Batch::new();
    let first = run_demucs_batch(&job, &mut batch, Event::Running(true));
    assert_eq!(
        said(&first),
        [
            "log \"\\n=== a.ncm ===\\n未找到 ncmdump, 无法自动转换 NCM.\\n\"",
            "item 10 跳过: 未找到 ncmdump ",
            "end 0/3",
        ]
    );
    let second = run_demucs_batch(&job, &mut batch, Event::Running(true));
    assert_eq!(
        said(&second),
        [
            "item 11 跳过: 无可处理音频 ",
            "log \"\\n=== x.mp3 ===\\n未找到同名 FLAC/MP3/WAV, 已跳过.\\n\"",
            "end 1/3",
        ]
    );
    run_demucs_batch(&job, &mut batch, Event::Running(true));
    let end = run_demucs_batch(&job, &mut batch, Event::Separated(RunEnd::NotRun("x".to_string())));
    assert_eq!(
        said(&end),
        ["item 12 未安装 Demucs ", "log \"启动 Demucs 失败: x\\n\"", "status 分离完成 0, 失败 1", "done"]
    );
}

#[test]
fn a_whole_run_is_done_once_and_counts_what_it_said() {
    let items = vec![ncm("m/a.ncm"), normal("m/b.mp3"), ncm("m/c.ncm"), normal("m/d.mp3")];
    let job = job(items, Some("n"));
    let mut batch = Batch::new();
    let mut event = Event::Running(true);
    let mut told = Vec::new();
    loop {
        let reply = run_demucs_batch(&job, &mut batch, event);
        told.extend(said(&reply));
        event = match reply.action {
            Action::Ask => Event::Running(true),
            Action::Convert { .. } if batch.next == 2 => Event::Converted(Err("x".to_string())),
            Action::Convert { ncm, .. } => Event::Converted(Ok(ncm.with_extension("mp3"))),
            Action::Separate { .. } => exited(batch.next != 3, 5),
            _ => break,
        };
    }
    let count = |f: &dyn Fn(&str) -> bool| told.iter().filter(|m| f(m.as_str())).count();
    assert_eq!(count(&|m| m == "done"), 1);
    assert_eq!(told[told.len() - 2..], ["status 分离完成 2, 失败 2", "done"]);
    assert_eq!(count(&|m| m.starts_with("item") && m.contains("已完成")), 2);
    assert_eq!(count(&|m| m.starts_with("item") && m.contains("失败")), 2);
}

#[test]
fn items_without_an_index_are_left_out() {
    let mut job = job(vec![ncm("a.ncm"), ncm("b.ncm")], Some("n"));
    job.indices = vec![7];
    let mut batch = Batch::new();
    let tool = path("n");
    let first = run_ncm_convert_batch(&job, &tool, &mut batch, Event::Running(true));
    assert_eq!(said(&first)[1], "status 转换 NCM 1/1: a.ncm");
    run_ncm_convert_batch(&job, &tool, &mut batch, Event::Converted(Ok(path("a.mp3"))));
    let end = run_ncm_convert_batch(&job, &tool, &mut batch, Event::Running(true));
    assert_eq!(said(&end), ["status 转换完成 1, 失败 0", "done"]);
    job.indices = vec![7, 8, 9];
    let mut batch = Batch::new();
    let first = run_demucs_batch(&job, &mut batch, Event::Running(true));
    assert_eq!(said(&first)[1], "status 转换 NCM 1/3: a.ncm");
    batch = Batch::new();
    batch.next = 2;
    let end = run_demucs_batch(&job, &mut batch, Event::Running(true));
    assert!(matches!(end.action, Action::Finish));
}

#[test]
fn the_window_reports_failed_conversions() {
    let job = job(vec![ncm("m/a.ncm")], Some("n"));
    let mut batch = Batch::new();
    run_demucs_batch(&job, &mut batch, Event::Running(true));
    let failed = run_demucs_batch(&job, &mut batch, Event::Converted(Err("坏".to_string())));
    assert_eq!(said(&failed), ["item 10 NCM 转换失败 ", "log \"NCM 转换失败: 坏\\n\"", "end 0/1"]);
    assert_eq!(batch.fail, 1);
}

#[test]
fn the_window_converts() {
    let job = job(vec![ncm("a.ncm"), ncm("m/b.ncm")], Some("n"));
    let mut batch = Batch::new();
    let tool = path("n");
    let first = run_ncm_convert_batch(&job, &tool, &mut batch, Event::Running(true));
    assert_eq!(
        said(&first),
        [
            "item 10 转换中... ",
            "status 转换 NCM 1/2: a.ncm",
            "log \"\\n=== a.ncm ===\\n正在转换 NCM...\\n\"",
            "within 0/2 10",
        ]
    );
    assert_eq!(command(&first), ["n", "-o", "", "a.ncm"]);
    let second =
        run_ncm_convert_batch(&job, &tool, &mut batch, Event::Converted(Ok(path("a.mp3"))));
    assert_eq!(
        said(&second),
        ["item 10 已转换 MP3 a.mp3", "log \"转换成功: a.mp3\\n\"", "end 0/2"]
    );
    run_ncm_convert_batch(&job, &tool, &mut batch, Event::Running(true));
    let fourth =
        run_ncm_convert_batch(&job, &tool, &mut batch, Event::Converted(Err("坏".to_string())));
    assert_eq!(said(&fourth), ["item 11 转换失败 ", "log \"转换失败: 坏\\n\"", "end 1/2"]);
    let last = run_ncm_convert_batch(&job, &tool, &mut batch, Event::Running(true));
    assert_eq!(said(&last), ["status 转换完成 1, 失败 1", "done"]);
}
