//! The separation of a list of files without a window.

use crate::batch::{
    conversion, conversion_dir, conversion_of, count_of, count_status, counted_status,
    done, end_messages, ends_once, failures_in, final_status, fresh, is_failure, is_success,
    lemma_ends_once, lemma_marks_add, log_audio, log_labelled, log_under, marks_in, successes_in,
    under_name, Action, ActionView, Batch, BatchView, EndView, Event, EventView, Job, JobView,
    Reply, ReplyView, RunEnd, Stage, StageView,
};
use crate::command::{logged_command, plain_command_line, separation_command, separation_command_of};
use crate::media::AudioKind;
use crate::message::{mark_between, messages_view, tell, Mark, MarkView, MessageView, TaskMessage};
use crate::number::{decimal, push_decimal};
use crate::path::{copy_path_opt, path_opt, FilePath, PathView};
use crate::window_batch::{demucs_step, rounds};
use vstd::prelude::*;

verus! {

/// The progress after the current item.
pub open spec fn item_done(job: JobView, b: BatchView) -> MessageView {
    MessageView::Progress(MarkView::Counted((b.next + 1) as int, job.items.len() as int))
}

/// The command that separates the audio.
pub open spec fn command_for(job: JobView, audio: PathView) -> Seq<Seq<char>> {
    separation_command_of(
        job.separators,
        job.separator,
        job.demucs_base,
        job.output_dir.text,
        audio.text,
        job.model,
        job.mode,
        job.device,
    )
}

/// The end of a batch.
pub open spec fn ended(b: BatchView) -> (BatchView, ReplyView) {
    (
        b,
        ReplyView { messages: end_messages("完成"@, b.ok, b.fail), action: ActionView::Finish },
    )
}

/// The separation of the current item: of its audio, after the messages
/// given, or nothing if it has none.
pub open spec fn separating(
    job: JobView,
    b: BatchView,
    told: Seq<MessageView>,
    audio: Option<PathView>,
) -> (BatchView, ReplyView) {
    let name = job.items[b.next as int].path.name();
    match audio {
        Some(a) => (
            b.at(StageView::Separating(a)),
            ReplyView {
                messages: told + seq![
                    counted_status("分离"@, b.next, job.items.len(), a.name()),
                    under_name(name, "使用音频: "@ + a.text + "\n"@),
                    MessageView::Log(logged_command(command_for(job, a)) + "\n"@),
                ],
                action: ActionView::Separate { cmd: command_for(job, a), scope: None },
            },
        ),
        None => (
            b.advanced(),
            ReplyView {
                messages: told + seq![
                    under_name(name, "无可处理音频, 跳过.\n"@),
                    item_done(job, b),
                ],
                action: ActionView::Ask,
            },
        ),
    }
}

/// The beginning of the current item: its conversion, if it needs one and
/// there is a tool for it, or else its separation.
pub open spec fn beginning(job: JobView, b: BatchView) -> (BatchView, ReplyView) {
    let item = job.items[b.next as int];
    if item.kind == AudioKind::Ncm && item.process_path is None {
        match job.ncmdump {
            Some(tool) => (
                b.at(StageView::Converting),
                ReplyView {
                    messages: seq![
                        counted_status("转换 NCM"@, b.next, job.items.len(), item.path.name()),
                        under_name(item.path.name(), "正在转换 NCM...\n"@),
                    ],
                    action: conversion_of(tool, item.path, None),
                },
            ),
            None => (
                b.advanced(),
                ReplyView {
                    messages: seq![
                        under_name(item.path.name(), "未找到 ncmdump, 无法自动转换.\n"@),
                        item_done(job, b),
                    ],
                    action: ActionView::Ask,
                },
            ),
        }
    } else {
        separating(job, b, Seq::empty(), item.process_path)
    }
}

/// What a batch becomes and answers when it is told something.
pub open spec fn separation_step(job: JobView, b: BatchView, event: EventView) -> (
    BatchView,
    ReplyView,
) {
    match event {
        EventView::Running(running) => if running && b.next < job.items.len() {
            beginning(job, b)
        } else {
            ended(b.at(StageView::Over))
        },
        EventView::Converted(Ok(path)) => separating(
            job,
            b,
            seq![MessageView::Log("NCM 转换成功: "@ + path.text + "\n"@)],
            Some(path),
        ),
        EventView::Converted(Err(e)) => (
            b.failed().advanced(),
            ReplyView {
                messages: seq![
                    MessageView::Log("NCM 转换失败: "@ + e + "\n"@),
                    item_done(job, b),
                ],
                action: ActionView::Ask,
            },
        ),
        EventView::Separated(EndView::NotRun(e)) => {
            let over = b.failed().closed();
            (
                over,
                ReplyView {
                    messages: seq![MessageView::Log("启动失败: "@ + e + "\n"@)] + end_messages(
                        "完成"@,
                        over.ok,
                        over.fail,
                    ),
                    action: ActionView::Finish,
                },
            )
        },
        EventView::Separated(EndView::Exited(exit)) => (
            (if exit.success {
                b.succeeded()
            } else {
                b.failed()
            }).at(StageView::Stamping),
            ReplyView {
                messages: seq![item_done(job, b)],
                action: ActionView::Stamp(b.stage->Separating_0),
            },
        ),
        EventView::Stamped(n) => (
            b.advanced(),
            ReplyView {
                messages: if n > 0 {
                    seq![MessageView::Log("Metadata stamped: "@ + decimal(n) + " stems\n"@)]
                } else {
                    Seq::empty()
                },
                action: ActionView::Ask,
            },
        ),
    }
}

/// The end of a batch.
fn end(batch: &mut Batch, messages: Vec<TaskMessage>) -> (reply: Reply)
    ensures
        *final(batch) == *old(batch),
        reply@ == (ReplyView {
            messages: messages_view(messages@) + end_messages(
                "完成"@,
                old(batch).ok as nat,
                old(batch).fail as nat,
            ),
            action: ActionView::Finish,
        }),
{
    let mut messages = messages;
    let ghost start = messages_view(messages@);
    tell(&mut messages, final_status("完成", batch.ok, batch.fail));
    tell(&mut messages, TaskMessage::Done);
    assert(messages_view(messages@) == start + end_messages(
        "完成"@,
        batch.ok as nat,
        batch.fail as nat,
    ));
    Reply { messages, action: Action::Finish }
}

/// The separation of the current item.
fn separate(job: &Job, batch: &mut Batch, told: Vec<TaskMessage>, audio: Option<FilePath>) -> (reply:
    Reply)
    requires
        old(batch).next < job.items@.len(),
    ensures
        (final(batch)@, reply@) == separating(
            job@,
            old(batch)@,
            messages_view(told@),
            path_opt(audio),
        ),
{
    let mut messages = told;
    let ghost start = messages_view(messages@);
    let total: usize = job.items.len();
    let round: usize = batch.next;
    assert(job@.items[round as int] == job.items@[round as int]@);
    assert(job@.items.len() == total);
    let name = job.items[round].path.name();
    match audio {
        Some(a) => {
            tell(&mut messages, count_status("分离", round, total, a.name().as_str()));
            tell(&mut messages, log_audio(name.as_str(), &a));
            let cmd = separation_command(
                &job.separators,
                job.separator.as_str(),
                &job.demucs_base,
                &job.output_dir,
                &a,
                job.model.as_str(),
                job.mode.as_str(),
                job.device.as_str(),
            );
            let line = plain_command_line(&cmd);
            tell(&mut messages, crate::output::plain_line(line.as_str()));
            assert(messages_view(messages@) == separating(
                job@,
                old(batch)@,
                start,
                Some(a@),
            ).1.messages);
            batch.stage = Stage::Separating(a);
            Reply { messages, action: Action::Separate { cmd, scope: None } }
        },
        None => {
            tell(&mut messages, log_under(name.as_str(), "无可处理音频, 跳过.\n"));
            tell(&mut messages, TaskMessage::Progress(Mark::Counted(round + 1, total)));
            assert(messages_view(messages@) == separating(
                job@,
                old(batch)@,
                start,
                None,
            ).1.messages);
            batch.next = round + 1;
            batch.stage = Stage::Ready;
            Reply { messages, action: Action::Ask }
        },
    }
}

/// The beginning of the current item.
fn begin(job: &Job, batch: &mut Batch) -> (reply: Reply)
    requires
        old(batch).next < job.items@.len(),
    ensures
        (final(batch)@, reply@) == beginning(job@, old(batch)@),
{
    let mut messages: Vec<TaskMessage> = Vec::new();
    assert(messages_view(messages@) == Seq::<MessageView>::empty());
    let total: usize = job.items.len();
    let round: usize = batch.next;
    let item = &job.items[round];
    assert(job@.items[round as int] == item@);
    assert(job@.items.len() == total);
    if item.kind == AudioKind::Ncm && !item.can_separate() {
        let name = item.path.name();
        match &job.ncmdump {
            Some(tool) => {
                tell(&mut messages, count_status("转换 NCM", round, total, name.as_str()));
                tell(&mut messages, log_under(name.as_str(), "正在转换 NCM...\n"));
                assert(messages_view(messages@) == beginning(job@, old(batch)@).1.messages);
                batch.stage = Stage::Converting;
                Reply { messages, action: conversion(tool, &item.path, None) }
            },
            None => {
                tell(
                    &mut messages,
                    log_under(name.as_str(), "未找到 ncmdump, 无法自动转换.\n"),
                );
                tell(&mut messages, TaskMessage::Progress(Mark::Counted(round + 1, total)));
                assert(messages_view(messages@) == beginning(job@, old(batch)@).1.messages);
                batch.next = round + 1;
                batch.stage = Stage::Ready;
                Reply { messages, action: Action::Ask }
            },
        }
    } else {
        separate(job, batch, messages, copy_path_opt(&item.process_path))
    }
}

/// One step of the separation of a list of files: takes what came of the last
/// action and says what to tell and what to do next. A batch begins with
/// `Batch::new` and the question whether the task runs.
pub fn run_separation(job: &Job, batch: &mut Batch, event: Event) -> (reply: Reply)
    requires
        old(batch)@.valid(job.items@.len()),
        old(batch)@.awaits(event@),
    ensures
        (final(batch)@, reply@) == separation_step(job@, old(batch)@, event@),
        final(batch)@.valid(job.items@.len()),
{
    let ghost before = batch@;
    assert(job@.items.len() == job.items@.len());
    let mut messages: Vec<TaskMessage> = Vec::new();
    assert(messages_view(messages@) == Seq::<MessageView>::empty());
    let total: usize = job.items.len();
    match event {
        Event::Running(running) => {
            if running && batch.next < total {
                begin(job, batch)
            } else {
                batch.stage = Stage::Over;
                let reply = end(batch, messages);
                assert(reply@.messages == separation_step(job@, before, event@).1.messages);
                reply
            }
        },
        Event::Converted(result) => match result {
            Ok(path) => {
                tell(&mut messages, log_labelled("NCM 转换成功: ", path.text.as_str()));
                assert(messages_view(messages@) == seq![
                    MessageView::Log("NCM 转换成功: "@ + path@.text + "\n"@),
                ]);
                separate(job, batch, messages, Some(path))
            },
            Err(e) => {
                tell(&mut messages, log_labelled("NCM 转换失败: ", e.as_str()));
                tell(&mut messages, TaskMessage::Progress(Mark::Counted(batch.next + 1, total)));
                assert(messages_view(messages@) == separation_step(
                    job@,
                    before,
                    event@,
                ).1.messages);
                batch.fail = batch.fail + 1;
                batch.next = batch.next + 1;
                batch.stage = Stage::Ready;
                Reply { messages, action: Action::Ask }
            },
        },
        Event::Separated(run_end) => match run_end {
            RunEnd::NotRun(e) => {
                tell(&mut messages, log_labelled("启动失败: ", e.as_str()));
                assert(messages_view(messages@) == seq![
                    MessageView::Log("启动失败: "@ + e@ + "\n"@),
                ]);
                batch.fail = batch.fail + 1;
                batch.next = batch.next + 1;
                batch.stage = Stage::Over;
                end(batch, messages)
            },
            RunEnd::Exited(exit) => {
                if exit.success {
                    batch.ok = batch.ok + 1;
                } else {
                    batch.fail = batch.fail + 1;
                }
                let audio = match &batch.stage {
                    Stage::Separating(p) => p.clone(),
                    _ => FilePath::new(String::new()),
                };
                tell(&mut messages, TaskMessage::Progress(Mark::Counted(batch.next + 1, total)));
                assert(messages_view(messages@) == seq![item_done(job@, before)]);
                batch.stage = Stage::Stamping;
                Reply { messages, action: Action::Stamp(audio) }
            },
        },
        Event::Stamped(n) => {
            if n > 0 {
                let mut text = "Metadata stamped: ".to_string();
                push_decimal(&mut text, n as u64);
                text.append(" stems\n");
                tell(&mut messages, TaskMessage::Log(text));
            }
            assert(messages_view(messages@) == separation_step(job@, before, event@).1.messages);
            batch.next = batch.next + 1;
            batch.stage = Stage::Ready;
            Reply { messages, action: Action::Ask }
        },
    }
}

// ---------------------------------------------------------------------------
// Laws
// ---------------------------------------------------------------------------

/// Every event brings a batch nearer to its end, so a batch ends after at most
/// four events for each file and one more.
pub proof fn law_separation_ends(job: JobView, b: BatchView, event: EventView)
    requires
        b.valid(job.items.len()),
        b.awaits(event),
    ensures
        0 <= separation_step(job, b, event).0.left(job.items.len()) < b.left(job.items.len()),
{
}

/// A batch counts each success and each failure once, and never more of them
/// than there are files.
pub proof fn law_separation_counts(job: JobView, b: BatchView, event: EventView)
    requires
        b.valid(job.items.len()),
        b.awaits(event),
    ensures
        ({
            let after = separation_step(job, b, event).0;
            &&& after.valid(job.items.len())
            &&& after.ok + after.fail <= job.items.len()
            &&& after.ok == b.ok + (if is_success(event) {
                1nat
            } else {
                0nat
            })
            &&& after.fail == b.fail + (if is_failure(event) {
                1nat
            } else {
                0nat
            })
        }),
{
}

/// A batch whose task was stopped starts no program any more: it ends.
pub proof fn law_separation_stops(job: JobView, b: BatchView)
    ensures
        separation_step(job, b, EventView::Running(false)).0.stage is Over,
        separation_step(job, b, EventView::Running(false)).1.action is Finish,
{
}

/// A batch says that it is done exactly when it ends, as the last thing it
/// says.
pub proof fn law_separation_done(job: JobView, b: BatchView, event: EventView)
    requires
        b.valid(job.items.len()),
        b.awaits(event),
    ensures
        ({
            let (after, reply) = separation_step(job, b, event);
            &&& after.stage is Over <==> reply.action is Finish
            &&& forall|i: int|
                0 <= i < reply.messages.len() ==> ((#[trigger] reply.messages[i]) is Done <==> (
                reply.action is Finish && i == reply.messages.len() - 1))
            &&& reply.action is Finish ==> reply.messages.len() > 0
        }),
{
}

/// What is separated is audio: the command ends in the path of the audio that
/// the batch then waits for, which is that of the item or was converted from
/// it.
pub proof fn law_separates_audio(job: JobView, b: BatchView, event: EventView)
    requires
        b.valid(job.items.len()),
        b.awaits(event),
        separation_step(job, b, event).1.action is Separate,
    ensures
        ({
            let (after, reply) = separation_step(job, b, event);
            &&& after.stage is Separating
            &&& reply.action->Separate_cmd.last() == (after.stage->Separating_0).text
            &&& event == EventView::Converted(Ok(after.stage->Separating_0))
                || job.items[b.next as int].process_path == Some(after.stage->Separating_0)
        }),
{
}

/// Progress is told once for each file that is done, and counts it.
pub proof fn law_separation_progress(job: JobView, b: BatchView, event: EventView, i: int)
    requires
        b.valid(job.items.len()),
        b.awaits(event),
        0 <= i < separation_step(job, b, event).1.messages.len(),
        separation_step(job, b, event).1.messages[i] is Progress,
    ensures
        separation_step(job, b, event).1.messages[i] == item_done(job, b),
        mark_between(
            separation_step(job, b, event).1.messages[i]->Progress_0,
            (100 * b.next) as int,
            (100 * b.next + 100) as int,
        ),
{
}

/// Audio is separated whether or not there is a tool for NCM files.
pub proof fn law_audio_needs_no_ncmdump(job: JobView, b: BatchView)
    requires
        b.next < job.items.len(),
        job.items[b.next as int].process_path is Some,
    ensures
        separation_step(job, b, EventView::Running(true)).1.action is Separate,
        b.next < rounds(job) ==> demucs_step(job, b, EventView::Running(true)).1.action is Separate,
{
}

/// An NCM file is converted into its own directory.
pub proof fn law_converts_in_place(job: JobView, b: BatchView, event: EventView)
    requires
        b.valid(job.items.len()),
        b.awaits(event),
        separation_step(job, b, event).1.action is Convert,
    ensures
        ({
            let item = job.items[b.next as int];
            let action = separation_step(job, b, event).1.action;
            &&& item.kind == AudioKind::Ncm
            &&& action->Convert_ncm == item.path
            &&& action->Convert_out_dir == conversion_dir(item.path)
        }),
{
}

/// A batch after the events, from its beginning.
pub open spec fn after_events(job: JobView, events: Seq<EventView>) -> BatchView
    decreases events.len(),
{
    if events.len() == 0 {
        fresh()
    } else {
        separation_step(job, after_events(job, events.drop_last()), events.last()).0
    }
}

/// Whether a batch waits for each of the events when it comes.
pub open spec fn in_turn(job: JobView, events: Seq<EventView>) -> bool
    decreases events.len(),
{
    events.len() == 0 || (in_turn(job, events.drop_last()) && after_events(
        job,
        events.drop_last(),
    ).awaits(events.last()))
}

/// Over a whole run a batch counts the successes and the failures that there
/// were, and it is over after at most four events for each file and four
/// more.
pub proof fn law_separation_run(job: JobView, events: Seq<EventView>)
    requires
        in_turn(job, events),
    ensures
        ({
            let b = after_events(job, events);
            &&& b.valid(job.items.len())
            &&& b.ok == successes_in(events)
            &&& b.fail == failures_in(events)
            &&& events.len() <= 4 * job.items.len() + 4 - b.left(job.items.len())
            &&& b.left(job.items.len()) >= 0
        }),
    decreases events.len(),
{
    if events.len() > 0 {
        law_separation_run(job, events.drop_last());
        let before = after_events(job, events.drop_last());
        law_separation_counts(job, before, events.last());
        law_separation_ends(job, before, events.last());
    }
}

/// What a batch tells over the events, from its beginning.
pub open spec fn told_over(job: JobView, events: Seq<EventView>) -> Seq<MessageView>
    decreases events.len(),
{
    if events.len() == 0 {
        Seq::empty()
    } else {
        told_over(job, events.drop_last()) + separation_step(
            job,
            after_events(job, events.drop_last()),
            events.last(),
        ).1.messages
    }
}

/// A batch says that it is done once it is over and not before; then that is
/// the last thing it says, it says it once, and what it says before it are the
/// numbers of the successes and of the failures that there were.
pub proof fn law_separation_done_run(job: JobView, events: Seq<EventView>)
    requires
        in_turn(job, events),
    ensures
        ({
            let told = told_over(job, events);
            if after_events(job, events).stage is Over {
                ends_once(told, "完成"@, successes_in(events), failures_in(events))
            } else {
                count_of(told, done()) == 0
            }
        }),
    decreases events.len(),
{
    if events.len() > 0 {
        let rest = events.drop_last();
        law_separation_run(job, rest);
        law_separation_run(job, events);
        law_separation_done_run(job, rest);
        let before = after_events(job, rest);
        let (after, reply) = separation_step(job, before, events.last());
        law_separation_done(job, before, events.last());
        if after.stage is Over {
            assert(reply.messages.skip(reply.messages.len() - 2) == end_messages(
                "完成"@,
                after.ok,
                after.fail,
            ));
        }
        lemma_ends_once(told_over(job, rest), reply, "完成"@, after.ok, after.fail);
    }
}

/// Whether every program that was to separate could be run.
pub open spec fn all_started(events: Seq<EventView>) -> bool {
    forall|i: int|
        0 <= i < events.len() ==> !((#[trigger] events[i]) matches EventView::Separated(
            EndView::NotRun(_),
        ))
}

/// The number of files that are done, as far as progress tells.
pub open spec fn files_done(b: BatchView) -> nat {
    if b.stage is Stamping {
        b.next + 1
    } else {
        b.next
    }
}

/// The progress of one step: the current file, if the step is done with it.
proof fn lemma_step_marks(job: JobView, b: BatchView, event: EventView)
    requires
        b.valid(job.items.len()),
        b.awaits(event),
        !(event matches EventView::Separated(EndView::NotRun(_))),
    ensures
        ({
            let (after, reply) = separation_step(job, b, event);
            let marks = marks_in(reply.messages);
            &&& files_done(b) <= files_done(after) <= files_done(b) + 1
            &&& files_done(after) == files_done(b) ==> marks == Seq::<MarkView>::empty()
            &&& files_done(after) == files_done(b) + 1 ==> marks == seq![
                MarkView::Counted(files_done(after) as int, job.items.len() as int),
            ]
        }),
{
    let (after, reply) = separation_step(job, b, event);
    let m = reply.messages;
    reveal_with_fuel(marks_in, 6);
    if m.len() > 0 {
        let m1 = m.drop_last();
        if m1.len() > 0 {
            let m2 = m1.drop_last();
            if m2.len() > 0 {
                let m3 = m2.drop_last();
                if m3.len() > 0 {
                    let m4 = m3.drop_last();
                    assert(m4.len() == 0);
                }
            }
        }
    }
    if files_done(after) == files_done(b) {
        assert(marks_in(m) == Seq::<MarkView>::empty());
    } else {
        assert(marks_in(m) == seq![
            MarkView::Counted(files_done(after) as int, job.items.len() as int),
        ]);
    }
}

/// Over a run in which every program could be run, progress is told exactly
/// once for each file that is done, in order; if such a run ends without
/// having been stopped, that is every file.
pub proof fn law_separation_progress_run(job: JobView, events: Seq<EventView>)
    requires
        in_turn(job, events),
        all_started(events),
    ensures
        ({
            let b = after_events(job, events);
            let n = files_done(b);
            &&& marks_in(told_over(job, events)) == Seq::new(
                n,
                |i: int| MarkView::Counted(i + 1, job.items.len() as int),
            )
            &&& b.stage is Over && !events.contains(EventView::Running(false)) ==> n
                == job.items.len()
        }),
    decreases events.len(),
{
    let total = job.items.len() as int;
    let b = after_events(job, events);
    let n = files_done(b);
    let wanted = Seq::new(n, |i: int| MarkView::Counted(i + 1, total));
    if events.len() == 0 {
        assert(marks_in(told_over(job, events)) == wanted);
    } else {
        let rest = events.drop_last();
        assert forall|i: int| 0 <= i < rest.len() implies !((#[trigger] rest[i]) matches
            EventView::Separated(EndView::NotRun(_))) by {
            assert(rest[i] == events[i]);
        }
        law_separation_run(job, rest);
        law_separation_progress_run(job, rest);
        let before = after_events(job, rest);
        assert(events[events.len() - 1] == events.last());
        lemma_step_marks(job, before, events.last());
        lemma_marks_add(
            told_over(job, rest),
            separation_step(job, before, events.last()).1.messages,
        );
        assert(marks_in(told_over(job, events)) == wanted);
    }
}

} // verus!
