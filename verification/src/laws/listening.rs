//! What is told about a program while it runs.

use crate::command::command_line;
use crate::message::{messages_view, MarkView, MessageView, Scope, TaskMessage};
use crate::number::{decimal, is_digit};
use crate::output::{
    after_wait, announce_command, byte_len, char_bytes, check_stop, dots, end_output, feed,
    lines_messages, number_tail, parse_progress_percent, pass_on, plain_line, read_output,
    read_text, send_output_line, split_lines, start_error, AfterWait, Waited,
};
use crate::text::{is_space, lemma_position, lossy_text, position, texts, trim_right, trimmed};
use vstd::prelude::*;
use vstd::utf8::{encode_scalar, encode_utf8};

verus! {

// ---------------------------------------------------------------------------
// Percentages
// ---------------------------------------------------------------------------

/// Whether a character is one that a number is spelled with.
pub open spec fn numeric(c: char) -> bool {
    '0' <= c <= '9' || c == '.'
}

/// A text without a percent sign tells no percentage.
pub proof fn law_no_percent(text: &str, number: Option<String>)
    requires
        !text@.contains('%'),
        call_ensures(parse_progress_percent, (text,), number),
    ensures
        number is None,
{
    lemma_position(text@, '%');
    if position(text@, '%') < text@.len() {
        assert(text@.contains('%'));
    }
}

/// The percentage that a text tells stands before its first percent sign, with
/// nothing but white space between: all the digits and dots that stand there,
/// if there is a digit and at most one dot among them. Else it tells none.
pub proof fn law_percent(
    text: &str,
    number: Option<String>,
    before: Seq<char>,
    tail: Seq<char>,
    blank: Seq<char>,
    after: Seq<char>,
)
    requires
        call_ensures(parse_progress_percent, (text,), number),
        text@ == before + tail + blank + seq!['%'] + after,
        !(before + tail + blank).contains('%'),
        forall|i: int| 0 <= i < tail.len() ==> numeric(#[trigger] tail[i]),
        forall|i: int| 0 <= i < blank.len() ==> is_space(#[trigger] blank[i]),
        before.len() > 0 ==> !numeric(before.last()),
        before.len() > 0 && tail.len() == 0 ==> !is_space(before.last()),
    ensures
        ({
            let count = tail.filter(|c: char| c == '.').len();
            if count <= 1 && count < tail.len() {
                number is Some && number->0@ == tail
            } else {
                number is None
            }
        }),
{
    let head = before + tail + blank;
    lemma_position(text@, '%');
    let p = position(text@, '%') as int;
    assert(text@[head.len() as int] == '%');
    assert(p == head.len()) by {
        if p < head.len() {
            assert(text@[p] == head[p]);
            assert(head.contains('%'));
        }
    }
    assert(text@.take(p) == head);
    if tail.len() > 0 {
        assert((before + tail).last() == tail.last());
        assert(numeric(tail[tail.len() - 1]));
    } else {
        assert(before + tail == before);
    }
    lemma_blank_dropped(before + tail, blank);
    lemma_number_tail(before, tail);
    lemma_dots(tail);
}

/// White space at the end of a text is dropped.
proof fn lemma_blank_dropped(s: Seq<char>, blank: Seq<char>)
    requires
        forall|i: int| 0 <= i < blank.len() ==> is_space(#[trigger] blank[i]),
        s.len() > 0 ==> !is_space(s.last()),
    ensures
        trim_right(s + blank) == s,
    decreases blank.len(),
{
    if blank.len() == 0 {
        assert(s + blank == s);
    } else {
        let t = s + blank;
        assert(t.last() == blank[blank.len() - 1]);
        assert(t.drop_last() == s + blank.drop_last());
        lemma_blank_dropped(s, blank.drop_last());
    }
}

/// The digits and dots at the end of a text are all that stand there.
proof fn lemma_number_tail(before: Seq<char>, tail: Seq<char>)
    requires
        forall|i: int| 0 <= i < tail.len() ==> numeric(#[trigger] tail[i]),
        before.len() > 0 ==> !numeric(before.last()),
    ensures
        number_tail(before + tail) == tail,
    decreases tail.len(),
{
    let s = before + tail;
    if tail.len() == 0 {
        assert(s == before);
        if before.len() > 0 {
            lemma_numeric(before.last());
        }
    } else {
        assert(s.last() == tail[tail.len() - 1]);
        assert(numeric(s.last()));
        lemma_numeric(s.last());
        assert(s.drop_last() == before + tail.drop_last());
        lemma_number_tail(before, tail.drop_last());
        assert(tail.drop_last().push(tail.last()) == tail);
    }
}

/// Digits are the characters from `0` to `9`.
proof fn lemma_numeric(c: char)
    ensures
        numeric(c) <==> is_digit(c) || c == '.',
{
}

/// The dots of a text are counted.
proof fn lemma_dots(s: Seq<char>)
    ensures
        dots(s) == s.filter(|c: char| c == '.').len(),
    decreases s.len(),
{
    reveal(Seq::filter);
    if s.len() > 0 {
        lemma_dots(s.drop_last());
    }
}

// ---------------------------------------------------------------------------
// Lines
// ---------------------------------------------------------------------------

/// A line feed or a carriage return ends the line that is pending, and any
/// other character goes on with it.
pub proof fn law_line_ends(pending: Seq<char>, c: char)
    ensures
        split_lines(pending, seq![]) == (Seq::<Seq<char>>::empty(), pending),
        c == '\n' || c == '\r' ==> split_lines(pending, seq![c]) == (
            seq![pending],
            Seq::<char>::empty(),
        ),
        c != '\n' && c != '\r' ==> split_lines(pending, seq![c]) == (
            Seq::<Seq<char>>::empty(),
            pending.push(c),
        ),
{
    assert(seq![c].drop_last() == Seq::<char>::empty());
    assert(split_lines(pending, Seq::<char>::empty()) == (Seq::<Seq<char>>::empty(), pending));
    assert(Seq::<Seq<char>>::empty().push(pending) == seq![pending]);
}

/// What is counted of a text are its bytes in UTF-8.
pub proof fn law_bytes_counted(s: Seq<char>)
    ensures
        byte_len(s) == encode_utf8(s).len(),
    decreases s.len(),
{
    if s.len() > 0 {
        let rest = s.drop_first();
        law_bytes_counted(rest);
        lemma_first_counted(s);
        lemma_bytes_of(s[0]);
    }
}

/// A character has as many bytes as its encoding.
proof fn lemma_bytes_of(c: char)
    ensures
        char_bytes(c) == encode_scalar(c as u32).len(),
{
}

/// The first character of a text is counted with the rest.
proof fn lemma_first_counted(s: Seq<char>)
    requires
        s.len() > 0,
    ensures
        byte_len(s) == char_bytes(s[0]) + byte_len(s.drop_first()),
    decreases s.len(),
{
    let rest = s.drop_first();
    if s.len() == 1 {
        assert(s.drop_last() == Seq::<char>::empty());
        assert(rest == Seq::<char>::empty());
        assert(byte_len(Seq::<char>::empty()) == 0);
    } else {
        lemma_first_counted(s.drop_last());
        assert(s.drop_last().drop_first() == rest.drop_last());
    }
}

/// A text that is read completes lines and leaves the rest pending, unless the
/// rest has grown over 1200 bytes: then it is told as a line.
pub proof fn law_feed(read: &str)
    ensures
        forall|pending: &mut String, lines: Vec<String>| #[trigger]
            call_ensures(feed, (pending, read), lines) ==> ({
                let split = split_lines((*pending)@, read@);
                if encode_utf8(split.1).len() > 1200 {
                    texts(lines@) == split.0.push(split.1) && (*final(pending))@.len() == 0
                } else {
                    texts(lines@) == split.0 && (*final(pending))@ == split.1
                }
            }),
{
    assert forall|pending: &mut String, lines: Vec<String>| #[trigger]
        call_ensures(feed, (pending, read), lines) implies ({
        let split = split_lines((*pending)@, read@);
        if encode_utf8(split.1).len() > 1200 {
            texts(lines@) == split.0.push(split.1) && (*final(pending))@.len() == 0
        } else {
            texts(lines@) == split.0 && (*final(pending))@ == split.1
        }
    }) by {
        law_bytes_counted(split_lines((*pending)@, read@).1);
    }
}

/// A line is told with the name of its program, without the white space
/// around it, and with the percentage that it tells if its progress is shown;
/// a blank line is not told.
pub proof fn law_line_told(
    source: &str,
    line: &str,
    scope: Option<Scope>,
    shown: &str,
    percent: Option<String>,
)
    requires
        shown@ == trimmed(line@),
        call_ensures(parse_progress_percent, (shown,), percent),
    ensures
        forall|out: &mut Vec<TaskMessage>| #[trigger]
            call_ensures(send_output_line, (out, source, line, scope), ()) ==> messages_view(
                (*final(out))@,
            ) == messages_view((*out)@) + (if shown@.len() == 0 {
                seq![]
            } else {
                seq![
                    MessageView::Log(
                        seq!['['] + source@ + seq![']', ' '] + shown@ + seq!['\n'],
                    ),
                ]
            }) + (if shown@.len() > 0 && scope is Some && percent is Some {
                seq![MessageView::Progress(MarkView::Told(scope->0, percent->0@))]
            } else {
                seq![]
            }),
{
    reveal_strlit("[");
    reveal_strlit("] ");
    reveal_strlit("\n");
    assert("["@ == seq!['[']);
    assert("] "@ == seq![']', ' ']);
    assert("\n"@ == seq!['\n']);
}

/// Lines are told one after the other.
pub proof fn law_lines_told(
    source: Seq<char>,
    lines: Seq<Seq<char>>,
    next: Seq<char>,
    scope: Option<Scope>,
)
    ensures
        lines_messages(source, seq![], scope).len() == 0,
        lines_messages(source, lines.push(next), scope) == lines_messages(source, lines, scope)
            + lines_messages(source, seq![next], scope),
{
    assert(lines.push(next).drop_last() == lines);
    assert(seq![next].drop_last() == Seq::<Seq<char>>::empty());
    let told = lines_messages(source, seq![next], scope);
    assert(lines_messages(source, Seq::empty(), scope) == Seq::<MessageView>::empty());
    assert(told == crate::output::line_messages(source, next, scope));
}

/// What is told of one line by itself is what is told of it among others.
pub proof fn law_one_line_told(source: &str, line: &str, scope: Option<Scope>)
    ensures
        forall|out: &mut Vec<TaskMessage>| #[trigger]
            call_ensures(send_output_line, (out, source, line, scope), ()) ==> messages_view(
                (*final(out))@,
            ) == messages_view((*out)@) + lines_messages(source@, seq![line@], scope),
{
    let one = seq![line@];
    assert(one.drop_last() == Seq::<Seq<char>>::empty());
    assert(lines_messages(source@, Seq::empty(), scope) == Seq::<MessageView>::empty());
    assert(lines_messages(source@, one, scope) == crate::output::line_messages(
        source@,
        line@,
        scope,
    ));
}

/// What a program wrote is told line by line: the lines that it completes, as
/// text or as bytes that are read as text.
pub proof fn law_output_told(
    read: &str,
    bytes: &[u8],
    text: &str,
    source: &str,
    scope: Option<Scope>,
)
    requires
        text@ == lossy_text(bytes@),
    ensures
        forall|pending: &mut String, out: Vec<TaskMessage>| #[trigger]
            call_ensures(read_text, (pending, read, source, scope), out) ==> forall|
                other: &mut String,
                lines: Vec<String>,
            | #[trigger]
                call_ensures(feed, (other, read), lines) && (*other)@ == (*pending)@ ==> (
                *final(other))@ == (*final(pending))@ && messages_view(out@) == lines_messages(
                    source@,
                    texts(lines@),
                    scope,
                ),
        forall|pending: &mut String, out: Vec<TaskMessage>| #[trigger]
            call_ensures(read_output, (pending, bytes, source, scope), out) ==> forall|
                other: &mut String,
                lines: Vec<String>,
            | #[trigger]
                call_ensures(feed, (other, text), lines) && (*other)@ == (*pending)@ ==> (
                *final(other))@ == (*final(pending))@ && messages_view(out@) == lines_messages(
                    source@,
                    texts(lines@),
                    scope,
                ),
{
}

/// When the output of a program ends, a failure to read it is told first, and
/// then the line that was not ended.
pub proof fn law_output_ends(
    pending: &str,
    error: &Option<String>,
    source: &str,
    scope: Option<Scope>,
    out: Vec<TaskMessage>,
)
    requires
        call_ensures(end_output, (pending, error, source, scope), out),
    ensures
        messages_view(out@) == (match *error {
            Some(e) => seq![
                MessageView::Log(
                    seq!['['] + source@ + "] 读取输出失败: "@ + e@ + seq!['\n'],
                ),
            ],
            None => seq![],
        }) + lines_messages(source@, seq![pending@], scope),
{
    reveal_strlit("[");
    reveal_strlit("\n");
    assert("["@ == seq!['[']);
    assert("\n"@ == seq!['\n']);
    let one = seq![pending@];
    assert(one.drop_last() == Seq::<Seq<char>>::empty());
    assert(lines_messages(source@, Seq::empty(), scope) == Seq::<MessageView>::empty());
    assert(lines_messages(source@, one, scope) == crate::output::line_messages(
        source@,
        pending@,
        scope,
    ));
}

// ---------------------------------------------------------------------------
// Running a program
// ---------------------------------------------------------------------------

/// A line that is passed on is told as it is, and ends the program exactly if
/// the task no longer runs.
pub proof fn law_passed_on(line: &str, running: bool, told: (TaskMessage, bool), m: TaskMessage)
    requires
        call_ensures(pass_on, (line, running), told),
        call_ensures(plain_line, (line,), m),
    ensures
        told.0@ == m@,
        m matches TaskMessage::Log(text) && text@ == line@.push('\n'),
        told.1 <==> !running,
{
    reveal_strlit("\n");
    assert(line@ + "\n"@ == line@.push('\n'));
}

/// A command is told behind a dollar sign before it is started; an empty one
/// cannot be.
pub proof fn law_announced(cmd: &Vec<String>, line: String, r: Result<TaskMessage, String>)
    requires
        call_ensures(command_line, (cmd,), line),
        call_ensures(announce_command, (cmd,), r),
    ensures
        r is Ok <==> cmd@.len() > 0,
        match r {
            Ok(m) => m matches TaskMessage::Log(text) && text@ == seq!['$', ' '] + line@ + seq![
                '\n',
            ],
            Err(e) => e@ == "命令为空"@,
        },
{
    reveal_strlit("$ ");
    reveal_strlit("\n");
    assert("$ "@ == seq!['$', ' ']);
    assert("\n"@ == seq!['\n']);
}

/// A program is stopped exactly once: when the task no longer runs and it was
/// not told to stop.
pub proof fn law_stopped_once(running: bool, stop_sent: bool, stop: Option<TaskMessage>)
    requires
        call_ensures(check_stop, (running, stop_sent), stop),
    ensures
        stop is Some <==> !running && !stop_sent,
        stop is Some ==> (stop->0 matches TaskMessage::Log(text) && text@
            == "任务已停止，正在终止当前命令...\n"@),
{
}

/// A program that could not be started is answered with the reason.
pub proof fn law_start_error(error: &str, text: String)
    requires
        call_ensures(start_error, (error,), text),
    ensures
        text@ == "启动命令失败: "@ + error@,
{
}

/// A program that runs is waited for again; one that ended is told with its
/// exit code, if it has one; one that cannot be waited for is answered with the
/// reason.
pub proof fn law_after_wait(waited: &Waited, next: AfterWait)
    requires
        call_ensures(after_wait, (waited,), next),
    ensures
        match *waited {
            Waited::Running => next is Again,
            Waited::Ended(exit) => {
                &&& next is Finished
                &&& next->Finished_1 == exit
                &&& next->Finished_0 matches TaskMessage::Log(text) && text@ == "退出码: "@ + (
                match exit.code {
                    Some(code) => if code < 0 {
                        seq!['-'] + decimal((-code) as nat)
                    } else {
                        decimal(code as nat)
                    },
                    None => "无"@,
                }) + seq!['\n']
            },
            Waited::Failed(e) => next is Broken && next->Broken_0@ == "等待命令失败: "@ + e@,
        },
{
    reveal_strlit("\n");
    assert("\n"@ == seq!['\n']);
}

} // verus!
