//! What the batches tell while they work: the status of each file, how many
//! files there are and which is at work, and how it all ended.

use crate::batch::{ActionView, BatchView, EndView, EventView, JobView};
use crate::command::logged_command;
use crate::laws::texts::lemma_last_run_together;
use crate::media::AudioKind;
use crate::message::{MarkView, MessageView, Phase, Scope};
use crate::number::{decimal, signed_decimal};
use crate::path::PathView;
use crate::separation::separation_step;
use crate::window_batch::{demucs_step, ncm_step, rounds};
use vstd::prelude::*;

verus! {

/// While it separates, a batch without a window says which file of how many is
/// at work; at the end it says how many files were separated and how many
/// failed.
pub proof fn law_separation_says(job: JobView, b: BatchView, event: EventView)
    requires
        b.valid(job.items.len()),
        b.awaits(event),
    ensures
        ({
            let (after, reply) = separation_step(job, b, event);
            let place = decimal((b.next + 1) as nat) + "/"@ + decimal(job.items.len()) + ": "@;
            &&& reply.action is Separate ==> reply.messages.contains(
                MessageView::Status("分离 "@ + place + (after.stage->Separating_0).name()),
            )
            &&& reply.action is Convert ==> reply.messages.contains(
                MessageView::Status(
                    "转换 NCM "@ + place + job.items[b.next as int].path.name(),
                ),
            )
            &&& reply.action is Finish ==> reply.messages.len() >= 2 && reply.messages[
            reply.messages.len() - 2] == MessageView::Status(
                "完成 "@ + decimal(after.ok) + ", 失败 "@ + decimal(after.fail),
            ) && reply.messages.last() is Done
            &&& after.next > b.next && !(event matches EventView::Separated(EndView::NotRun(_)))
                && !(event is Stamped) ==> reply.messages.contains(
                MessageView::Progress(
                    MarkView::Counted((b.next + 1) as int, job.items.len() as int),
                ),
            )
            &&& event matches EventView::Separated(EndView::Exited(_)) ==> reply.messages
                == seq![
                MessageView::Progress(
                    MarkView::Counted((b.next + 1) as int, job.items.len() as int),
                ),
            ]
            &&& event matches EventView::Stamped(n) ==> reply.messages == (if n > 0 {
                seq![MessageView::Log("Metadata stamped: "@ + decimal(n) + " stems\n"@)]
            } else {
                Seq::empty()
            })
        }),
{
    let (after, reply) = separation_step(job, b, event);
    let place = decimal((b.next + 1) as nat) + "/"@ + decimal(job.items.len()) + ": "@;
    let m = reply.messages;
    reveal_strlit("分离 ");
    reveal_strlit("分离");
    reveal_strlit("转换 NCM ");
    reveal_strlit("转换 NCM");
    reveal_strlit("完成 ");
    reveal_strlit("完成");
    reveal_strlit(" ");
    if reply.action is Separate {
        let k = m.len() - 3;
        assert(m[k] == MessageView::Status("分离 "@ + place + (after.stage->Separating_0).name()))
            by {
            assert("分离"@ + " "@ == "分离 "@);
            let name = (after.stage->Separating_0).name();
            assert("分离"@ + " "@ + decimal(b.next + 1) + "/"@ + decimal(job.items.len()) + ": "@
                + name == "分离 "@ + place + name);
        }
    }
    if reply.action is Convert {
        let name = job.items[b.next as int].path.name();
        assert(m[0] == MessageView::Status("转换 NCM "@ + place + name)) by {
            assert("转换 NCM"@ + " "@ == "转换 NCM "@);
            assert("转换 NCM"@ + " "@ + decimal(b.next + 1) + "/"@ + decimal(job.items.len())
                + ": "@ + name == "转换 NCM "@ + place + name);
        }
    }
    if reply.action is Finish {
        assert("完成"@ + " "@ == "完成 "@);
    }
    if after.next > b.next && m.len() > 0 && m.last() is Progress {
        assert(m[m.len() - 1] == m.last());
    }
}

/// What the window is told about a file while it is separated: its status at
/// each point, the file of its audio once it was converted, and which file of
/// how many is at work; at the end how many files were separated and how many
/// failed.
pub proof fn law_demucs_says(job: JobView, b: BatchView, event: EventView)
    requires
        b.valid(rounds(job)),
        b.awaits(event),
        !(event is Stamped),
    ensures
        ({
            let (after, reply) = demucs_step(job, b, event);
            let m = reply.messages;
            let item = job.items[b.next as int];
            let index = job.indices[b.next as int] as int;
            let total = job.indices.len();
            let place = decimal((b.next + 1) as nat) + "/"@ + decimal(total) + ": "@;
            let ended = MessageView::Progress(MarkView::FileEnd(b.next as int, total as int));
            &&& reply.action is Separate ==> m.contains(
                MessageView::InputStatus(index, "处理中"@, None),
            ) && m.contains(
                MessageView::Status("分离 "@ + place + (after.stage->Separating_0).name()),
            )
            &&& reply.action is Convert ==> m.contains(
                MessageView::InputStatus(index, "转换 NCM..."@, None),
            ) && m.contains(MessageView::Status("转换 NCM "@ + place + item.path.name()))
            &&& reply.action is Finish ==> m.len() >= 2 && m[m.len() - 2] == MessageView::Status(
                "分离完成 "@ + decimal(after.ok) + ", 失败 "@ + decimal(after.fail),
            ) && m.last() is Done
            &&& reply.action is Ask ==> m.contains(ended)
            &&& match event {
                EventView::Running(_) => reply.action is Ask ==> m.contains(
                    MessageView::InputStatus(
                        index,
                        if item.kind == AudioKind::Ncm {
                            "跳过: 未找到 ncmdump"@
                        } else {
                            "跳过: 无可处理音频"@
                        },
                        None,
                    ),
                ),
                EventView::Converted(Ok(path)) => m[0] == MessageView::InputStatus(
                    index,
                    "已转换 "@ + crate::letters::uppercase_of(
                        match path.extension() {
                            Some(e) => e,
                            None => Seq::empty(),
                        },
                    ),
                    Some(path),
                ),
                EventView::Converted(Err(_)) => m[0] == MessageView::InputStatus(
                    index,
                    "NCM 转换失败"@,
                    None,
                ),
                EventView::Separated(EndView::NotRun(_)) => m[0] == MessageView::InputStatus(
                    index,
                    "未安装 Demucs"@,
                    None,
                ),
                EventView::Separated(EndView::Exited(exit)) => m[0] == MessageView::InputStatus(
                    index,
                    if exit.success {
                        "已完成"@
                    } else {
                        "失败 "@ + signed_decimal(
                            match exit.code {
                                Some(c) => c as int,
                                None => -1,
                            },
                        )
                    },
                    None,
                ),
                EventView::Stamped(_) => true,
            }
        }),
{
    let (after, reply) = demucs_step(job, b, event);
    let m = reply.messages;
    let item = job.items[b.next as int];
    let total = job.indices.len();
    let place = decimal((b.next + 1) as nat) + "/"@ + decimal(total) + ": "@;
    reveal_strlit("分离 ");
    reveal_strlit("分离");
    reveal_strlit("转换 NCM ");
    reveal_strlit("转换 NCM");
    reveal_strlit("分离完成 ");
    reveal_strlit("分离完成");
    reveal_strlit(" ");
    if reply.action is Separate {
        let name = (after.stage->Separating_0).name();
        assert("分离"@ + " "@ == "分离 "@);
        assert("分离"@ + " "@ + decimal(b.next + 1) + "/"@ + decimal(total) + ": "@ + name
            == "分离 "@ + place + name);
        assert(m[m.len() - 3] is InputStatus);
        assert(m[m.len() - 2] == MessageView::Status("分离 "@ + place + name));
    }
    if reply.action is Convert {
        let name = item.path.name();
        assert("转换 NCM"@ + " "@ == "转换 NCM "@);
        assert("转换 NCM"@ + " "@ + decimal(b.next + 1) + "/"@ + decimal(total) + ": "@ + name
            == "转换 NCM "@ + place + name);
        assert(m[0] is InputStatus);
        assert(m[1] == MessageView::Status("转换 NCM "@ + place + name));
    }
    if reply.action is Finish {
        assert("分离完成"@ + " "@ == "分离完成 "@);
    }
    if reply.action is Ask {
        assert(m[m.len() - 1] == m.last());
        if event is Running {
            if item.kind == AudioKind::Ncm {
                assert(m[1] is InputStatus);
            } else {
                assert(m[0] is InputStatus);
            }
        }
    }
}

/// What the window is told about a file while it is converted: its status at
/// each point, the file of its audio once it was converted, and which file of
/// how many is at work; at the end how many files were converted and how many
/// failed.
pub proof fn law_ncm_says(job: JobView, tool: PathView, b: BatchView, event: EventView)
    requires
        b.valid(rounds(job)),
        b.awaits(event),
        event is Running || event is Converted,
    ensures
        ({
            let (after, reply) = ncm_step(job, tool, b, event);
            let m = reply.messages;
            let item = job.items[b.next as int];
            let index = job.indices[b.next as int] as int;
            let total = job.indices.len();
            let place = decimal((b.next + 1) as nat) + "/"@ + decimal(total) + ": "@;
            let ended = MessageView::Progress(MarkView::FileEnd(b.next as int, total as int));
            &&& reply.action is Convert ==> m.contains(
                MessageView::InputStatus(index, "转换中..."@, None),
            ) && m.contains(MessageView::Status("转换 NCM "@ + place + item.path.name()))
            &&& reply.action is Finish ==> m.len() >= 2 && m[m.len() - 2] == MessageView::Status(
                "转换完成 "@ + decimal(after.ok) + ", 失败 "@ + decimal(after.fail),
            ) && m.last() is Done
            &&& event is Converted ==> m.contains(ended)
            &&& event matches EventView::Converted(Ok(path)) ==> m[0] == MessageView::InputStatus(
                index,
                "已转换 "@ + crate::letters::uppercase_of(
                    match path.extension() {
                        Some(e) => e,
                        None => Seq::empty(),
                    },
                ),
                Some(path),
            )
            &&& event matches EventView::Converted(Err(_)) ==> m[0] == MessageView::InputStatus(
                index,
                "转换失败"@,
                None,
            )
        }),
{
    let (after, reply) = ncm_step(job, tool, b, event);
    let m = reply.messages;
    let item = job.items[b.next as int];
    let total = job.indices.len();
    let place = decimal((b.next + 1) as nat) + "/"@ + decimal(total) + ": "@;
    reveal_strlit("转换 NCM ");
    reveal_strlit("转换 NCM");
    reveal_strlit("转换完成 ");
    reveal_strlit("转换完成");
    reveal_strlit(" ");
    if reply.action is Convert {
        let name = item.path.name();
        assert("转换 NCM"@ + " "@ == "转换 NCM "@);
        assert("转换 NCM"@ + " "@ + decimal(b.next + 1) + "/"@ + decimal(total) + ": "@ + name
            == "转换 NCM "@ + place + name);
        assert(m[0] is InputStatus);
        assert(m[1] == MessageView::Status("转换 NCM "@ + place + name));
    }
    if reply.action is Finish {
        assert("转换完成"@ + " "@ == "转换完成 "@);
    }
    if event is Converted {
        assert(m[2] is Progress);
    }
}

// ---------------------------------------------------------------------------
// The log and the progress
// ---------------------------------------------------------------------------

/// What messages put into the log, one text after the other.
pub open spec fn logged(messages: Seq<MessageView>) -> Seq<char> {
    messages.filter_map(
        |m: MessageView|
            match m {
                MessageView::Log(text) => Some(text),
                _ => None,
            },
    ).flatten()
}

/// The progress that messages tell, one mark after the other.
pub open spec fn marked(messages: Seq<MessageView>) -> Seq<MarkView> {
    messages.filter_map(
        |m: MessageView|
            match m {
                MessageView::Progress(mark) => Some(mark),
                _ => None,
            },
    )
}

/// The log and the progress of messages are those of all but the last, and of
/// the last.
proof fn lemma_told(messages: Seq<MessageView>, last: MessageView)
    ensures
        logged(Seq::empty()) == Seq::<char>::empty(),
        marked(Seq::empty()) == Seq::<MarkView>::empty(),
        logged(messages.push(last)) == logged(messages) + (match last {
            MessageView::Log(text) => text,
            _ => seq![],
        }),
        marked(messages.push(last)) == marked(messages) + (match last {
            MessageView::Progress(mark) => seq![mark],
            _ => seq![],
        }),
{
    let log = |m: MessageView|
        match m {
            MessageView::Log(text) => Some(text),
            _ => None,
        };
    let none = Seq::<MessageView>::empty();
    assert(none.filter_map(log) == Seq::<Seq<char>>::empty());
    assert(none.filter_map(log).flatten() == Seq::<char>::empty());
    let all = messages.push(last);
    assert(all.drop_last() == messages);
    assert(all.last() == last);
    if last is Log {
        let before = messages.filter_map(log);
        let texts = all.filter_map(log);
        assert(texts == before + seq![last->Log_0]);
        assert(texts.drop_last() == before);
        assert(texts.last() == last->Log_0);
        lemma_last_run_together(texts);
    } else {
        assert(all.filter_map(log) == messages.filter_map(log));
    }
}

/// The log and the progress of up to four messages behind others.
proof fn lemma_told_four(
    told: Seq<MessageView>,
    a: MessageView,
    b: MessageView,
    c: MessageView,
    d: MessageView,
)
    ensures
        ({
            let log = |m: MessageView|
                match m {
                    MessageView::Log(text) => text,
                    _ => Seq::<char>::empty(),
                };
            let mark = |m: MessageView|
                match m {
                    MessageView::Progress(mark) => seq![mark],
                    _ => Seq::<MarkView>::empty(),
                };
            &&& logged(Seq::empty()) == Seq::<char>::empty()
            &&& marked(Seq::empty()) == Seq::<MarkView>::empty()
            &&& logged(told + seq![a]) == logged(told) + log(a)
            &&& marked(told + seq![a]) == marked(told) + mark(a)
            &&& logged(told + seq![a, b]) == logged(told) + log(a) + log(b)
            &&& marked(told + seq![a, b]) == marked(told) + mark(a) + mark(b)
            &&& logged(told + seq![a, b, c]) == logged(told) + log(a) + log(b) + log(c)
            &&& marked(told + seq![a, b, c]) == marked(told) + mark(a) + mark(b) + mark(c)
            &&& logged(told + seq![a, b, c, d]) == logged(told) + log(a) + log(b) + log(c) + log(d)
            &&& marked(told + seq![a, b, c, d]) == marked(told) + mark(a) + mark(b) + mark(c)
                + mark(d)
        }),
{
    lemma_told(told, a);
    assert(told.push(a) == told + seq![a]);
    lemma_told(told + seq![a], b);
    assert((told + seq![a]).push(b) == told + seq![a, b]);
    lemma_told(told + seq![a, b], c);
    assert((told + seq![a, b]).push(c) == told + seq![a, b, c]);
    lemma_told(told + seq![a, b, c], d);
    assert((told + seq![a, b, c]).push(d) == told + seq![a, b, c, d]);
}

/// The log and the progress of up to four messages alone.
proof fn lemma_told_alone(a: MessageView, b: MessageView, c: MessageView, d: MessageView)
    ensures
        ({
            let log = |m: MessageView|
                match m {
                    MessageView::Log(text) => text,
                    _ => Seq::<char>::empty(),
                };
            let mark = |m: MessageView|
                match m {
                    MessageView::Progress(mark) => seq![mark],
                    _ => Seq::<MarkView>::empty(),
                };
            &&& logged(seq![a]) == log(a)
            &&& marked(seq![a]) == mark(a)
            &&& logged(seq![a, b]) == log(a) + log(b)
            &&& marked(seq![a, b]) == mark(a) + mark(b)
            &&& logged(seq![a, b, c]) == log(a) + log(b) + log(c)
            &&& marked(seq![a, b, c]) == mark(a) + mark(b) + mark(c)
            &&& logged(seq![a, b, c, d]) == log(a) + log(b) + log(c) + log(d)
            &&& marked(seq![a, b, c, d]) == mark(a) + mark(b) + mark(c) + mark(d)
        }),
{
    let none = Seq::<MessageView>::empty();
    lemma_told_four(none, a, b, c, d);
    assert(none + seq![a] == seq![a]);
    assert(none + seq![a, b] == seq![a, b]);
    assert(none + seq![a, b, c] == seq![a, b, c]);
    assert(none + seq![a, b, c, d] == seq![a, b, c, d]);
}

/// A text in the log under the name of a file.
pub open spec fn headed(name: Seq<char>, text: Seq<char>) -> Seq<char> {
    "\n=== "@ + name + " ===\n"@ + text
}

/// What a batch without a window logs, and how far it says it is: which file it
/// works on, with which audio and which command, and what failed; a file that is
/// done counts.
pub proof fn law_separation_logs(job: JobView, b: BatchView, event: EventView)
    requires
        b.valid(job.items.len()),
        b.awaits(event),
    ensures
        ({
            let (after, reply) = separation_step(job, b, event);
            let name = job.items[b.next as int].path.name();
            let counted = seq![MarkView::Counted((b.next + 1) as int, job.items.len() as int)];
            let audio = after.stage->Separating_0;
            let used = headed(name, "使用音频: "@ + audio.text + "\n"@) + logged_command(
                reply.action->Separate_cmd,
            ) + "\n"@;
            &&& logged(reply.messages) == (match event {
                EventView::Running(_) => match reply.action {
                    ActionView::Convert { .. } => headed(name, "正在转换 NCM...\n"@),
                    ActionView::Separate { .. } => used,
                    ActionView::Ask => headed(
                        name,
                        if job.items[b.next as int].kind == AudioKind::Ncm {
                            "未找到 ncmdump, 无法自动转换.\n"@
                        } else {
                            "无可处理音频, 跳过.\n"@
                        },
                    ),
                    _ => seq![],
                },
                EventView::Converted(Ok(path)) => "NCM 转换成功: "@ + path.text + "\n"@ + used,
                EventView::Converted(Err(e)) => "NCM 转换失败: "@ + e + "\n"@,
                EventView::Separated(EndView::NotRun(e)) => "启动失败: "@ + e + "\n"@,
                EventView::Separated(EndView::Exited(_)) => seq![],
                EventView::Stamped(n) => if n > 0 {
                    "Metadata stamped: "@ + decimal(n) + " stems\n"@
                } else {
                    seq![]
                },
            })
            &&& marked(reply.messages) == (if (reply.action is Ask && !(event is Stamped)) || (
            event matches EventView::Separated(EndView::Exited(_))) {
                counted
            } else {
                seq![]
            })
            &&& reply.action is Separate ==> reply.action->Separate_scope is None
            &&& reply.action is Convert ==> reply.action->Convert_scope is None
        }),
{
    let (after, reply) = separation_step(job, b, event);
    lemma_told_short(reply.messages);
}

/// The log and the progress of no more than four messages.
proof fn lemma_told_short(m: Seq<MessageView>)
    ensures
        ({
            let log = |i: int|
                match m[i] {
                    MessageView::Log(text) => text,
                    _ => Seq::<char>::empty(),
                };
            let mark = |i: int|
                match m[i] {
                    MessageView::Progress(mark) => seq![mark],
                    _ => Seq::<MarkView>::empty(),
                };
            &&& m.len() == 0 ==> logged(m).len() == 0 && marked(m).len() == 0
            &&& m.len() == 1 ==> logged(m) == log(0) && marked(m) == mark(0)
            &&& m.len() == 2 ==> logged(m) == log(0) + log(1) && marked(m) == mark(0) + mark(1)
            &&& m.len() == 3 ==> logged(m) == log(0) + log(1) + log(2) && marked(m) == mark(0)
                + mark(1) + mark(2)
            &&& m.len() == 4 ==> logged(m) == log(0) + log(1) + log(2) + log(3) && marked(m)
                == mark(0) + mark(1) + mark(2) + mark(3)
        }),
{
    lemma_told(Seq::empty(), MessageView::Done);
    lemma_told_alone(m[0], m[1], m[2], m[3]);
    if m.len() == 0 {
        assert(m == Seq::<MessageView>::empty());
    } else if m.len() == 1 {
        assert(m == seq![m[0]]);
    } else if m.len() == 2 {
        assert(m == seq![m[0], m[1]]);
    } else if m.len() == 3 {
        assert(m == seq![m[0], m[1], m[2]]);
    } else if m.len() == 4 {
        assert(m == seq![m[0], m[1], m[2], m[3]]);
    }
}

/// What the window's batch of separations logs, how far it says it is, and
/// which share of the progress each program may fill: a file that is converted
/// first gives a fifth of its share to the conversion and the rest to the
/// separation, and any other all of it to the separation; a file that is done
/// counts.
pub proof fn law_demucs_logs(job: JobView, b: BatchView, event: EventView)
    requires
        b.valid(rounds(job)),
        b.awaits(event),
        !(event is Stamped),
    ensures
        ({
            let (after, reply) = demucs_step(job, b, event);
            let name = job.items[b.next as int].path.name();
            let total = job.indices.len();
            let scope = |phase: Phase|
                Scope { round: b.next as usize, total: total as usize, phase };
            let ended = seq![MarkView::FileEnd(b.next as int, total as int)];
            let audio = after.stage->Separating_0;
            let used = headed(name, "使用音频: "@ + audio.text + "\n"@);
            &&& logged(reply.messages) == (match event {
                EventView::Running(_) => match reply.action {
                    ActionView::Convert { .. } => headed(name, "正在自动转换 NCM...\n"@),
                    ActionView::Separate { .. } => used,
                    ActionView::Ask => headed(
                        name,
                        if job.items[b.next as int].kind == AudioKind::Ncm {
                            "未找到 ncmdump, 无法自动转换 NCM.\n"@
                        } else {
                            "未找到同名 FLAC/MP3/WAV, 已跳过.\n"@
                        },
                    ),
                    _ => seq![],
                },
                EventView::Converted(Ok(path)) => "NCM 转换成功: "@ + path.name() + "\n"@ + used,
                EventView::Converted(Err(e)) => "NCM 转换失败: "@ + e + "\n"@,
                EventView::Separated(EndView::NotRun(e)) => "启动 Demucs 失败: "@ + e + "\n"@,
                _ => seq![],
            })
            &&& marked(reply.messages) == (match reply.action {
                ActionView::Convert { .. } => seq![MarkView::Within(scope(Phase::Whole), 5)],
                ActionView::Separate { .. } => if event is Converted {
                    seq![MarkView::Converted(b.next as int, total as int)]
                } else {
                    seq![]
                },
                ActionView::Ask => ended,
                _ => seq![],
            })
            &&& reply.action is Convert ==> reply.action->Convert_scope == Some(
                scope(Phase::Convert),
            )
            &&& reply.action is Separate ==> reply.action->Separate_scope == Some(
                scope(
                    if event is Converted {
                        Phase::Separate
                    } else {
                        Phase::Whole
                    },
                ),
            )
        }),
{
    let (after, reply) = demucs_step(job, b, event);
    let m = reply.messages;
    lemma_told_short(m);
    if event is Converted && m.len() == 6 {
        let told = seq![m[0], m[1], m[2]];
        lemma_told_short(told);
        lemma_told_four(told, m[3], m[4], m[5], m[5]);
        assert(m == told + seq![m[3], m[4], m[5]]);
    }
}

/// What the window's batch of conversions logs, how far it says it is, and that
/// a conversion may fill the whole share of its file; a file that is done
/// counts.
pub proof fn law_ncm_logs(job: JobView, tool: PathView, b: BatchView, event: EventView)
    requires
        b.valid(rounds(job)),
        b.awaits(event),
        event is Running || event is Converted,
    ensures
        ({
            let (after, reply) = ncm_step(job, tool, b, event);
            let name = job.items[b.next as int].path.name();
            let total = job.indices.len();
            let whole = Scope {
                round: b.next as usize,
                total: total as usize,
                phase: Phase::Whole,
            };
            &&& logged(reply.messages) == (match event {
                EventView::Running(_) => if reply.action is Convert {
                    headed(name, "正在转换 NCM...\n"@)
                } else {
                    seq![]
                },
                EventView::Converted(Ok(path)) => "转换成功: "@ + path.name() + "\n"@,
                EventView::Converted(Err(e)) => "转换失败: "@ + e + "\n"@,
                _ => seq![],
            })
            &&& marked(reply.messages) == (match reply.action {
                ActionView::Convert { .. } => seq![MarkView::Within(whole, 10)],
                ActionView::Ask => seq![MarkView::FileEnd(b.next as int, total as int)],
                _ => seq![],
            })
            &&& reply.action is Convert ==> reply.action->Convert_scope == Some(whole)
        }),
{
    lemma_told_short(ncm_step(job, tool, b, event).1.messages);
}

} // verus!
