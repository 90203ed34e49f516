use yyw::convert::Exit;
use yyw::message::{Mark, Phase, Scope, TaskMessage};
use yyw::output::{
    after_wait, announce_command, check_stop, end_output, feed, parse_progress_percent, pass_on,
    plain_line, read_output, read_text, send_output_line, start_error, AfterWait, Waited,
};

fn scope() -> Scope {
    Scope { round: 1, total: 4, phase: Phase::Separate }
}

fn log(m: &TaskMessage) -> String {
    match m {
        TaskMessage::Log(s) => s.clone(),
        _ => panic!("not a log entry"),
    }
}

#[test]
fn percentages() {
    let number = |s: &str| parse_progress_percent(s);
    assert_eq!(number(" 42%|####").as_deref(), Some("42"));
    assert_eq!(number("done 12.5 % of it 99%").as_deref(), Some("12.5"));
    assert_eq!(number("%"), None);
    assert_eq!(number("no sign 5"), None);
    assert_eq!(number("x%"), None);
    assert_eq!(number("1.2.3%"), None);
    assert_eq!(number(".%"), None);
    assert_eq!(number("5.%").as_deref(), Some("5."));
    assert_eq!(number(".5%").as_deref(), Some(".5"));
    assert_eq!(number("v1.2-7%").as_deref(), Some("7"));
}

#[test]
fn what_spells_a_number_can_be_read() {
    for s in ["0%", "100 %", "3.%", ".25%", "1..2%", "..%", "12345678901234567890%"] {
        let number = parse_progress_percent(s);
        let digits = s.trim_end_matches('%').trim_end();
        assert_eq!(number.is_some(), digits.parse::<f32>().is_ok(), "{s}");
    }
}

#[test]
fn lines_of_output() {
    let mut pending = String::from("be");
    let lines = feed(&mut pending, "gin\r\nmiddle\rend");
    assert_eq!(lines, ["begin", "", "middle"]);
    assert_eq!(pending, "end");
    assert!(feed(&mut pending, "").is_empty());
    assert_eq!(pending, "end");
}

#[test]
fn long_lines_are_told_early() {
    let mut pending = String::new();
    assert!(feed(&mut pending, &"a".repeat(1200)).is_empty());
    assert_eq!(pending.len(), 1200);
    let lines = feed(&mut pending, "b");
    assert_eq!(lines.len(), 1);
    assert_eq!(lines[0].len(), 1201);
    assert!(pending.is_empty());
    let mut wide = String::new();
    assert!(feed(&mut wide, &"歌".repeat(400)).is_empty());
    assert_eq!(feed(&mut wide, "词").len(), 1);
}

#[test]
fn no_character_is_lost() {
    let text = "a\nb\r\rc歌\n\nd";
    let mut pending = String::new();
    let mut got = String::new();
    for c in text.chars() {
        for line in feed(&mut pending, &c.to_string()) {
            got.push_str(&line);
        }
    }
    got.push_str(&pending);
    let want: String = text.chars().filter(|c| *c != '\n' && *c != '\r').collect();
    assert_eq!(got, want);
}

#[test]
fn pieces_make_the_same_lines() {
    let text = "one\rtwo\n\nthree";
    let mut whole = String::new();
    let at_once = feed(&mut whole, text);
    let mut pending = String::new();
    let mut in_pieces = Vec::new();
    for c in text.chars() {
        in_pieces.append(&mut feed(&mut pending, &c.to_string()));
    }
    assert_eq!(at_once, in_pieces);
    assert_eq!(whole, pending);
}

#[test]
fn a_line_is_logged_and_may_tell_progress() {
    let mut out = Vec::new();
    send_output_line(&mut out, "stderr", "  30%|###  ", Some(scope()));
    assert_eq!(out.len(), 2);
    assert_eq!(log(&out[0]), "[stderr] 30%|###\n");
    match &out[1] {
        TaskMessage::Progress(Mark::Told(s, p)) => {
            assert_eq!(*s, scope());
            assert_eq!(p, "30");
        }
        _ => panic!("no progress"),
    }
    let mut quiet = Vec::new();
    send_output_line(&mut quiet, "stdout", " \t ", Some(scope()));
    assert!(quiet.is_empty());
    send_output_line(&mut quiet, "stdout", "30%", None);
    assert_eq!(quiet.len(), 1);
}

#[test]
fn output_in_pieces() {
    let mut pending = String::new();
    let first = read_output(&mut pending, b"one\ntw", "stdout", None);
    assert_eq!(first.len(), 1);
    assert_eq!(log(&first[0]), "[stdout] one\n");
    let second = read_text(&mut pending, "o\n\n", "stdout", None);
    assert_eq!(second.len(), 1);
    assert_eq!(log(&second[0]), "[stdout] two\n");
    let end = end_output("rest", &Some("broken".to_string()), "stdout", None);
    assert_eq!(log(&end[0]), "[stdout] 读取输出失败: broken\n");
    assert_eq!(log(&end[1]), "[stdout] rest\n");
    assert!(end_output("", &None, "stdout", None).is_empty());
    let mut broken = String::new();
    let bad = read_output(&mut broken, b"a\xffb\n", "stdout", None);
    assert_eq!(log(&bad[0]), "[stdout] a\u{fffd}b\n");
    let good = read_output(&mut broken, "歌\n".as_bytes(), "stdout", None);
    assert_eq!(log(&good[0]), "[stdout] 歌\n");
}

#[test]
fn starting_a_program() {
    let cmd = vec!["a b".to_string(), "c".to_string()];
    assert_eq!(log(&announce_command(&cmd).unwrap()), "$ \"a b\" c\n");
    assert_eq!(announce_command(&Vec::new()).err().unwrap(), "命令为空");
    assert_eq!(start_error("x"), "启动命令失败: x");
    assert_eq!(log(&plain_line("x")), "x\n");
    let (told, stop) = pass_on("y", false);
    assert_eq!((log(&told).as_str(), stop), ("y\n", true));
    assert!(!pass_on("y", true).1);
}

#[test]
fn a_program_is_stopped_once() {
    assert!(check_stop(true, false).is_none());
    assert!(check_stop(false, true).is_none());
    assert_eq!(log(&check_stop(false, false).unwrap()), "任务已停止，正在终止当前命令...\n");
}

#[test]
fn waiting_for_a_program() {
    assert!(matches!(after_wait(&Waited::Running), AfterWait::Again));
    let ended = |success, code| match after_wait(&Waited::Ended(Exit { success, code })) {
        AfterWait::Finished(m, exit) => (log(&m), exit.success),
        _ => panic!("not finished"),
    };
    assert_eq!(ended(true, Some(0)), ("退出码: 0\n".to_string(), true));
    assert_eq!(ended(false, Some(-5)), ("退出码: -5\n".to_string(), false));
    assert_eq!(ended(false, None), ("退出码: 无\n".to_string(), false));
    match after_wait(&Waited::Failed("x".to_string())) {
        AfterWait::Broken(text) => assert_eq!(text, "等待命令失败: x"),
        _ => panic!("not broken"),
    }
}
