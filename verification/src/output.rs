//! Reading what a program writes while it runs: lines, percentages, and when
//! to stop it.

use crate::command::{command_line, shown_command};
use crate::convert::Exit;
use crate::message::{messages_view, tell, Mark, MarkView, MessageView, Scope, TaskMessage};
use crate::number::{is_digit, signed_decimal, signed_text};
use crate::text::{
    chars_of, decode_lossy, lossy_text, position, position_from, space, string_of, text_opt, texts,
    trim, trim_right, trimmed,
};
use vstd::prelude::*;
use vstd::slice::slice_subrange;

verus! {

// ---------------------------------------------------------------------------
// Percentages
// ---------------------------------------------------------------------------

/// The digits and dots at the end of a text.
pub open spec fn number_tail(s: Seq<char>) -> Seq<char>
    decreases s.len(),
{
    if s.len() > 0 && (is_digit(s.last()) || s.last() == '.') {
        number_tail(s.drop_last()).push(s.last())
    } else {
        Seq::empty()
    }
}

/// How many dots a text holds.
pub open spec fn dots(s: Seq<char>) -> nat
    decreases s.len(),
{
    if s.len() == 0 {
        0
    } else {
        dots(s.drop_last()) + if s.last() == '.' {
            1nat
        } else {
            0nat
        }
    }
}

/// Whether digits and dots spell a number: at least one digit, at most one
/// dot.
pub open spec fn spells_number(s: Seq<char>) -> bool {
    dots(s) <= 1 && dots(s) < s.len()
}

/// The number before the first percent sign of a text, if there is one.
pub open spec fn percent_in(text: Seq<char>) -> Option<Seq<char>> {
    let p = position(text, '%') as int;
    if p >= text.len() {
        None
    } else {
        let number = number_tail(trim_right(text.take(p)));
        if spells_number(number) {
            Some(number)
        } else {
            None
        }
    }
}

/// Whether `c` is a digit or a dot.
fn number_char(c: char) -> (yes: bool)
    ensures
        yes == (is_digit(c) || c == '.'),
{
    let u: u32 = c as u32;
    (48 <= u && u <= 57) || c == '.'
}

/// The number before the first percent sign of a text, if there is one.
pub fn parse_progress_percent(text: &str) -> (number: Option<String>)
    ensures
        text_opt(number) == percent_in(text@),
{
    let v = chars_of(text);
    let p: usize = position_from(&v, 0, '%');
    assert(v@.skip(0) == v@);
    if p == v.len() {
        return None;
    }
    let ghost before = v@.take(p as int);
    let mut e: usize = p;
    assert(before.take(p as int) == before);
    while e > 0 && space(v[e - 1])
        invariant
            e <= p < v@.len(),
            before == v@.take(p as int),
            trim_right(before) == trim_right(before.take(e as int)),
        decreases e,
    {
        assert(before.take(e as int).drop_last() == before.take(e - 1));
        e = e - 1;
    }
    let ghost head = before.take(e as int);
    assert(trim_right(before) == head);
    let mut b: usize = e;
    let mut seen_dots: usize = 0;
    assert(head.take(e as int) == head);
    assert(head.subrange(e as int, e as int) == Seq::<char>::empty());
    assert(number_tail(head) + Seq::<char>::empty() == number_tail(head));
    while b > 0 && number_char(v[b - 1])
        invariant
            b <= e <= p < v@.len(),
            before == v@.take(p as int),
            head == before.take(e as int),
            number_tail(head) == number_tail(head.take(b as int)) + head.subrange(
                b as int,
                e as int,
            ),
            seen_dots <= e - b,
            seen_dots == dots(head.subrange(b as int, e as int)),
        decreases b,
    {
        let ghost rest = head.subrange(b as int, e as int);
        let ghost c = head[b - 1];
        assert(c == v@[b - 1]);
        assert(head.take(b as int).drop_last() == head.take(b - 1));
        assert(head.take(b as int).last() == c);
        assert(head.subrange(b - 1, e as int) == seq![c] + rest);
        assert(number_tail(head.take(b - 1)).push(c) + rest == number_tail(head.take(b - 1)) + (
        seq![c] + rest));
        proof {
            lemma_dots_add(seq![c], rest);
            assert(seq![c].drop_last() == Seq::<char>::empty());
            assert(dots(Seq::<char>::empty()) == 0);
        }
        if v[b - 1] == '.' {
            seen_dots = seen_dots + 1;
        }
        b = b - 1;
    }
    assert(number_tail(head.take(b as int)) == Seq::<char>::empty());
    assert(number_tail(head) == head.subrange(b as int, e as int));
    assert(v@.subrange(b as int, e as int) == head.subrange(b as int, e as int));
    if seen_dots > 1 || seen_dots >= e - b {
        return None;
    }
    Some(string_of(slice_subrange(v.as_slice(), b, e)))
}

/// The dots of a text are those of its two parts.
proof fn lemma_dots_add(a: Seq<char>, b: Seq<char>)
    ensures
        dots(a + b) == dots(a) + dots(b),
    decreases b.len(),
{
    if b.len() == 0 {
        assert(a + b == a);
    } else {
        assert((a + b).drop_last() == a + b.drop_last());
        lemma_dots_add(a, b.drop_last());
    }
}

// ---------------------------------------------------------------------------
// Lines
// ---------------------------------------------------------------------------

/// What is told about a line that a program wrote: the line itself, and how
/// far the program is if it says so. A blank line is passed over.
pub open spec fn line_messages(
    source: Seq<char>,
    line: Seq<char>,
    scope: Option<Scope>,
) -> Seq<MessageView> {
    let text = trimmed(line);
    if text.len() == 0 {
        Seq::empty()
    } else {
        seq![MessageView::Log("["@ + source + "] "@ + text + "\n"@)] + match (
            scope,
            percent_in(text),
        ) {
            (Some(s), Some(p)) => seq![MessageView::Progress(MarkView::Told(s, p))],
            _ => Seq::empty(),
        }
    }
}

/// Tells about a line that a program wrote.
pub fn send_output_line(
    out: &mut Vec<TaskMessage>,
    source: &str,
    line: &str,
    scope: Option<Scope>,
)
    ensures
        messages_view(final(out)@) == messages_view(old(out)@) + line_messages(
            source@,
            line@,
            scope,
        ),
{
    let ghost start = messages_view(out@);
    let text = trim(line);
    if text.as_str().is_empty() {
        assert(start + Seq::<MessageView>::empty() == start);
        return;
    }
    let mut log = "[".to_string();
    log.append(source);
    log.append("] ");
    log.append(text.as_str());
    log.append("\n");
    tell(out, TaskMessage::Log(log));
    if let Some(s) = scope {
        if let Some(p) = parse_progress_percent(text.as_str()) {
            tell(out, TaskMessage::Progress(Mark::Told(s, p)));
        }
    }
    assert(messages_view(out@) == start + line_messages(source@, line@, scope));
}

/// Whether a character ends a line.
pub open spec fn ends_line(c: char) -> bool {
    c == '\n' || c == '\r'
}

/// The lines that are complete after a text was read, and what remains. Both
/// line feeds and carriage returns end a line.
pub open spec fn split_lines(pending: Seq<char>, read: Seq<char>) -> (Seq<Seq<char>>, Seq<char>)
    decreases read.len(),
{
    if read.len() == 0 {
        (Seq::empty(), pending)
    } else {
        let before = split_lines(pending, read.drop_last());
        if ends_line(read.last()) {
            (before.0.push(before.1), Seq::empty())
        } else {
            (before.0, before.1.push(read.last()))
        }
    }
}

/// The number of bytes of a character in UTF-8.
pub open spec fn char_bytes(c: char) -> nat {
    let u = c as u32;
    if u < 0x80 {
        1
    } else if u < 0x800 {
        2
    } else if u < 0x10000 {
        3
    } else {
        4
    }
}

/// The number of bytes of a text in UTF-8.
pub open spec fn byte_len(s: Seq<char>) -> nat
    decreases s.len(),
{
    if s.len() == 0 {
        0
    } else {
        byte_len(s.drop_last()) + char_bytes(s.last())
    }
}

/// The most bytes that wait for the end of their line.
pub const MOST_PENDING: usize = 1200;

/// The lines that are told after a text was read, and what remains: a line
/// that grows too long is told before it ends.
pub open spec fn read_lines(pending: Seq<char>, read: Seq<char>) -> (Seq<Seq<char>>, Seq<char>) {
    let split = split_lines(pending, read);
    if byte_len(split.1) > MOST_PENDING {
        (split.0.push(split.1), Seq::empty())
    } else {
        split
    }
}

/// Whether a text has more bytes than may wait.
fn too_long(s: &str) -> (yes: bool)
    ensures
        yes == (byte_len(s@) > MOST_PENDING),
{
    let v = chars_of(s);
    let mut n: usize = 0;
    assert(v@.take(0) == Seq::<char>::empty());
    for i in 0..v.len()
        invariant
            v@ == s@,
            n == byte_len(v@.take(i as int)),
            n <= MOST_PENDING,
    {
        assert(v@.take(i + 1).drop_last() == v@.take(i as int));
        let u: u32 = v[i] as u32;
        let w: usize = if u < 0x80 {
            1
        } else if u < 0x800 {
            2
        } else if u < 0x10000 {
            3
        } else {
            4
        };
        n = n + w;
        assert(n == byte_len(v@.take(i + 1)));
        if n > MOST_PENDING {
            proof {
                lemma_byte_len_grows(v@, i + 1);
            }
            return true;
        }
    }
    assert(v@.take(v@.len() as int) == v@);
    false
}

/// A beginning of a text has no more bytes than the text.
proof fn lemma_byte_len_grows(s: Seq<char>, k: int)
    requires
        0 <= k <= s.len(),
    ensures
        byte_len(s.take(k)) <= byte_len(s),
    decreases s.len() - k,
{
    if k < s.len() {
        assert(s.take(k + 1).drop_last() == s.take(k));
        lemma_byte_len_grows(s, k + 1);
    } else {
        assert(s.take(k) == s);
    }
}

/// Takes in a text that was read: returns the lines to tell about and keeps
/// what remains in `pending`.
pub fn feed(pending: &mut String, read: &str) -> (lines: Vec<String>)
    ensures
        (texts(lines@), final(pending)@) == read_lines(old(pending)@, read@),
{
    let v = chars_of(read);
    let mut rest = pending.clone();
    let mut lines: Vec<String> = Vec::new();
    let ghost start = pending@;
    assert(v@.take(0) == Seq::<char>::empty());
    assert(texts(lines@) == Seq::<Seq<char>>::empty());
    for i in 0..v.len()
        invariant
            v@ == read@,
            (texts(lines@), rest@) == split_lines(start, v@.take(i as int)),
    {
        assert(v@.take(i + 1).drop_last() == v@.take(i as int));
        assert(v@.take(i + 1).last() == v@[i as int]);
        let c: char = v[i];
        if c == '\n' || c == '\r' {
            let ghost before = texts(lines@);
            lines.push(rest);
            assert(texts(lines@) == before.push(rest@));
            rest = String::new();
        } else {
            rest.push(c);
        }
    }
    assert(v@.take(v@.len() as int) == v@);
    if too_long(rest.as_str()) {
        let ghost before = texts(lines@);
        lines.push(rest);
        assert(texts(lines@) == before.push(rest@));
        rest = String::new();
    }
    *pending = rest;
    lines
}

/// What is told about the lines that a program wrote.
pub open spec fn lines_messages(
    source: Seq<char>,
    lines: Seq<Seq<char>>,
    scope: Option<Scope>,
) -> Seq<MessageView>
    decreases lines.len(),
{
    if lines.len() == 0 {
        Seq::empty()
    } else {
        lines_messages(source, lines.drop_last(), scope) + line_messages(
            source,
            lines.last(),
            scope,
        )
    }
}

/// Takes in a text that a program wrote and tells about the lines in it.
pub fn read_text(pending: &mut String, read: &str, source: &str, scope: Option<Scope>) -> (out:
    Vec<TaskMessage>)
    ensures
        messages_view(out@) == lines_messages(
            source@,
            read_lines(old(pending)@, read@).0,
            scope,
        ),
        final(pending)@ == read_lines(old(pending)@, read@).1,
{
    let lines = feed(pending, read);
    let mut out: Vec<TaskMessage> = Vec::new();
    let ghost all = texts(lines@);
    assert(all.take(0) == Seq::<Seq<char>>::empty());
    assert(messages_view(out@) == Seq::<MessageView>::empty());
    for i in 0..lines.len()
        invariant
            all == texts(lines@),
            messages_view(out@) == lines_messages(source@, all.take(i as int), scope),
    {
        assert(all.take(i + 1).drop_last() == all.take(i as int));
        assert(all.take(i + 1).last() == lines@[i as int]@);
        send_output_line(&mut out, source, lines[i].as_str(), scope);
    }
    assert(all.take(all.len() as int) == all);
    out
}

/// Takes in bytes that a program wrote and tells about the lines in them.
pub fn read_output(pending: &mut String, read: &[u8], source: &str, scope: Option<Scope>) -> (out:
    Vec<TaskMessage>)
    ensures
        messages_view(out@) == lines_messages(
            source@,
            read_lines(old(pending)@, lossy_text(read@)).0,
            scope,
        ),
        final(pending)@ == read_lines(old(pending)@, lossy_text(read@)).1,
{
    let text = decode_lossy(read);
    read_text(pending, text.as_str(), source, scope)
}

/// What is told when the output of a program ends: what went wrong while
/// reading it, if anything did, and the line that was not ended.
pub fn end_output(pending: &str, error: &Option<String>, source: &str, scope: Option<Scope>) -> (out:
    Vec<TaskMessage>)
    ensures
        messages_view(out@) == (match *error {
            Some(e) => seq![
                MessageView::Log("["@ + source@ + "] 读取输出失败: "@ + e@ + "\n"@),
            ],
            None => Seq::empty(),
        }) + line_messages(source@, pending@, scope),
{
    let mut out: Vec<TaskMessage> = Vec::new();
    assert(messages_view(out@) == Seq::<MessageView>::empty());
    if let Some(e) = error {
        let mut log = "[".to_string();
        log.append(source);
        log.append("] 读取输出失败: ");
        log.append(e.as_str());
        log.append("\n");
        tell(&mut out, TaskMessage::Log(log));
        assert(messages_view(out@) == seq![MessageView::Log(log@)]);
    }
    send_output_line(&mut out, source, pending, scope);
    out
}

/// The characters of a text that do not end lines.
pub open spec fn within_lines(s: Seq<char>) -> Seq<char>
    decreases s.len(),
{
    if s.len() == 0 {
        Seq::empty()
    } else if ends_line(s.last()) {
        within_lines(s.drop_last())
    } else {
        within_lines(s.drop_last()).push(s.last())
    }
}

/// The texts of a list, one after the other.
pub open spec fn run_together(parts: Seq<Seq<char>>) -> Seq<char>
    decreases parts.len(),
{
    if parts.len() == 0 {
        Seq::empty()
    } else {
        run_together(parts.drop_last()) + parts.last()
    }
}

/// Splitting loses and adds nothing but the ends of lines.
proof fn lemma_split_lines(pending: Seq<char>, read: Seq<char>)
    ensures
        run_together(split_lines(pending, read).0) + split_lines(pending, read).1 == pending
            + within_lines(read),
    decreases read.len(),
{
    if read.len() == 0 {
        assert(run_together(Seq::<Seq<char>>::empty()) == Seq::<char>::empty());
    } else {
        lemma_split_lines(pending, read.drop_last());
        let before = split_lines(pending, read.drop_last());
        if ends_line(read.last()) {
            let lines = before.0.push(before.1);
            assert(lines.drop_last() == before.0);
            assert(run_together(lines) + Seq::<char>::empty() == run_together(before.0)
                + before.1);
        } else {
            assert(run_together(before.0) + before.1.push(read.last()) == (run_together(before.0)
                + before.1).push(read.last()));
            assert(pending + within_lines(read.drop_last()).push(read.last()) == (pending
                + within_lines(read.drop_last())).push(read.last()));
        }
    }
}

/// No character that a program writes is lost or added, but for those that
/// end lines: the lines to tell about and what remains are what was pending
/// and what was read.
pub proof fn law_output_kept(pending: Seq<char>, read: Seq<char>)
    ensures
        run_together(read_lines(pending, read).0) + read_lines(pending, read).1 == pending
            + within_lines(read),
{
    lemma_split_lines(pending, read);
    let split = split_lines(pending, read);
    if byte_len(split.1) > MOST_PENDING {
        let lines = split.0.push(split.1);
        assert(lines.drop_last() == split.0);
        assert(run_together(lines) + Seq::<char>::empty() == run_together(split.0) + split.1);
    }
}

/// What remains pending is never too long.
pub proof fn law_pending_bounded(pending: Seq<char>, read: Seq<char>)
    ensures
        byte_len(read_lines(pending, read).1) <= MOST_PENDING,
{
}

/// How a program's output is cut into pieces does not change its lines, as
/// long as none grows too long.
pub proof fn law_pieces_do_not_matter(pending: Seq<char>, a: Seq<char>, b: Seq<char>)
    ensures
        split_lines(pending, a + b) == ({
            let first = split_lines(pending, a);
            let second = split_lines(first.1, b);
            (first.0 + second.0, second.1)
        }),
    decreases b.len(),
{
    let first = split_lines(pending, a);
    if b.len() == 0 {
        assert(a + b == a);
        assert(first.0 + Seq::<Seq<char>>::empty() == first.0);
    } else {
        law_pieces_do_not_matter(pending, a, b.drop_last());
        assert((a + b).drop_last() == a + b.drop_last());
        assert((a + b).last() == b.last());
        let second = split_lines(first.1, b.drop_last());
        assert((first.0 + second.0).push(second.1) == first.0 + second.0.push(second.1));
    }
}

// ---------------------------------------------------------------------------
// Running a program
// ---------------------------------------------------------------------------

/// What is told about a line of a program that is passed on as it is, and
/// whether the program is to be ended after it, which it is when the task no
/// longer runs.
pub fn pass_on(line: &str, running: bool) -> (told: (TaskMessage, bool))
    ensures
        told.0@ == MessageView::Log(line@ + "\n"@),
        told.1 == !running,
{
    (plain_line(line), !running)
}

/// What is told about a line that is passed on as it is.
pub fn plain_line(line: &str) -> (m: TaskMessage)
    ensures
        m@ == MessageView::Log(line@ + "\n"@),
{
    let mut log = line.to_owned();
    log.append("\n");
    TaskMessage::Log(log)
}

/// What is told before a program is started, or why it cannot be.
pub fn announce_command(cmd: &Vec<String>) -> (r: Result<TaskMessage, String>)
    ensures
        match r {
            Ok(m) => cmd@.len() > 0 && m@ == MessageView::Log(
                "$ "@ + shown_command(texts(cmd@)) + "\n"@,
            ),
            Err(e) => cmd@.len() == 0 && e@ == "命令为空"@,
        },
{
    if cmd.len() == 0 {
        return Err("命令为空".to_string());
    }
    let mut log = "$ ".to_string();
    log.append(command_line(cmd).as_str());
    log.append("\n");
    Ok(TaskMessage::Log(log))
}

/// What came of waiting for a program for a moment.
#[derive(Debug)]
pub enum Waited {
    Running,
    Ended(Exit),
    Failed(String),
}

/// What to do after waiting.
#[derive(Debug)]
pub enum AfterWait {
    /// Wait again, after a pause.
    Again,
    /// The program has ended: tell this and go on with its end.
    Finished(TaskMessage, Exit),
    /// The program cannot be waited for.
    Broken(String),
}

/// The exit code as it is shown.
pub open spec fn shown_code(exit: Exit) -> Seq<char> {
    match exit.code {
        Some(c) => signed_decimal(c as int),
        None => "无"@,
    }
}

/// Whether a running program is to be ended now, which is told: once, when the
/// task no longer runs.
pub fn check_stop(running: bool, stop_sent: bool) -> (stop: Option<TaskMessage>)
    ensures
        match stop {
            Some(m) => !running && !stop_sent && m@ == MessageView::Log(
                "任务已停止，正在终止当前命令...\n"@,
            ),
            None => running || stop_sent,
        },
{
    if !running && !stop_sent {
        Some(TaskMessage::Log("任务已停止，正在终止当前命令...\n".to_string()))
    } else {
        None
    }
}

/// Why a program could not be started.
pub fn start_error(error: &str) -> (text: String)
    ensures
        text@ == "启动命令失败: "@ + error@,
{
    let mut text = "启动命令失败: ".to_string();
    text.append(error);
    text
}

/// What to do after waiting for a program for a moment.
pub fn after_wait(waited: &Waited) -> (next: AfterWait)
    ensures
        match (*waited, next) {
            (Waited::Running, AfterWait::Again) => true,
            (Waited::Ended(exit), AfterWait::Finished(m, e)) => e == exit && m@
                == MessageView::Log("退出码: "@ + shown_code(exit) + "\n"@),
            (Waited::Failed(e), AfterWait::Broken(text)) => text@ == "等待命令失败: "@ + e@,
            _ => false,
        },
{
    match waited {
        Waited::Running => AfterWait::Again,
        Waited::Ended(exit) => {
            let mut log = "退出码: ".to_string();
            match exit.code {
                Some(c) => {
                    log.append(signed_text(c).as_str());
                },
                None => {
                    log.append("无");
                },
            }
            log.append("\n");
            AfterWait::Finished(TaskMessage::Log(log), *exit)
        },
        Waited::Failed(e) => {
            let mut text = "等待命令失败: ".to_string();
            text.append(e.as_str());
            AfterWait::Broken(text)
        },
    }
}

} // verus!
