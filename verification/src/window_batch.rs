//! The batches that the window runs in the background: separations and
//! conversions.

use crate::batch::{
    conversion, conversion_dir, conversion_of, converted_in, count_of, count_status,
    counted_status, done, end_messages, ends_once, failures_in, final_status, fresh, is_failure,
    is_success, lemma_count_add, lemma_ends_once, log_audio, log_labelled, log_under, successes_in,
    under_name, Action, ActionView, Batch, BatchView, EndView, Event, EventView, Job, JobView,
    Reply, ReplyView, RunEnd, Stage, StageView,
};
use crate::command::separation_command;
use crate::convert::{code_or_minus_one, code_text};
use crate::letters::{to_uppercase, uppercase_of};
use crate::media::AudioKind;
use crate::message::{
    mark_between, messages_view, tell, Mark, MarkView, MessageView, Phase, Scope, TaskMessage,
};
use crate::number::signed_decimal;
use crate::path::{copy_path_opt, path_opt, FilePath, PathView};
use crate::scan::ext_or_empty;
use crate::separation::{all_started, command_for};
use vstd::prelude::*;

verus! {

// ---------------------------------------------------------------------------
// Messages
// ---------------------------------------------------------------------------

/// How many items a batch goes through: those that have an index.
pub open spec fn rounds(job: JobView) -> nat {
    if job.items.len() < job.indices.len() {
        job.items.len()
    } else {
        job.indices.len()
    }
}

/// The share of the current item in the progress bar.
pub open spec fn share(job: JobView, b: BatchView, phase: Phase) -> Scope {
    Scope { round: b.next as usize, total: job.indices.len() as usize, phase }
}

/// The new status of the current item.
pub open spec fn item_status(job: JobView, b: BatchView, text: Seq<char>) -> MessageView {
    MessageView::InputStatus(job.indices[b.next as int] as int, text, None)
}

/// The progress at the end of the current item.
pub open spec fn file_end(job: JobView, b: BatchView) -> MessageView {
    MessageView::Progress(MarkView::FileEnd(b.next as int, job.indices.len() as int))
}

/// The status of an item that was converted to that file.
pub open spec fn converted_status(job: JobView, b: BatchView, path: PathView) -> MessageView {
    MessageView::InputStatus(
        job.indices[b.next as int] as int,
        "已转换 "@ + uppercase_of(ext_or_empty(path)),
        Some(path),
    )
}

/// The new status of the current item.
fn status_of(job: &Job, batch: &Batch, text: &str) -> (m: TaskMessage)
    requires
        batch.next < rounds(job@),
    ensures
        m@ == item_status(job@, batch@, text@),
{
    assert(job@.items.len() == job.items@.len());
    TaskMessage::InputStatus(job.indices[batch.next], text.to_owned(), None)
}

/// The status of an item that was converted to that file.
fn status_converted(job: &Job, batch: &Batch, path: &FilePath) -> (m: TaskMessage)
    requires
        batch.next < rounds(job@),
    ensures
        m@ == converted_status(job@, batch@, path@),
{
    assert(job@.items.len() == job.items@.len());
    let ext = match path.extension() {
        Some(e) => e,
        None => String::new(),
    };
    let mut text = "已转换 ".to_string();
    text.append(to_uppercase(ext.as_str()).as_str());
    TaskMessage::InputStatus(job.indices[batch.next], text, Some(path.clone()))
}

/// The progress at the end of the current item.
fn end_of_file(job: &Job, batch: &Batch) -> (m: TaskMessage)
    ensures
        m@ == file_end(job@, batch@),
{
    assert(job@.items.len() == job.items@.len());
    TaskMessage::Progress(Mark::FileEnd(batch.next, job.indices.len()))
}

/// The share of the current item in the progress bar.
fn share_of(job: &Job, batch: &Batch, phase: Phase) -> (s: Scope)
    ensures
        s == share(job@, batch@, phase),
{
    assert(job@.items.len() == job.items@.len());
    Scope { round: batch.next, total: job.indices.len(), phase }
}

/// Appends what is told at the end of a batch.
fn tell_end(messages: &mut Vec<TaskMessage>, what: &str, batch: &Batch)
    ensures
        messages_view(final(messages)@) == messages_view(old(messages)@) + end_messages(
            what@,
            batch.ok as nat,
            batch.fail as nat,
        ),
{
    tell(messages, final_status(what, batch.ok, batch.fail));
    tell(messages, TaskMessage::Done);
    assert(messages_view(messages@) == messages_view(old(messages)@) + end_messages(
        what@,
        batch.ok as nat,
        batch.fail as nat,
    ));
}

// ---------------------------------------------------------------------------
// Separations
// ---------------------------------------------------------------------------

/// The separation of the current item: of its audio, after the messages
/// given, or nothing if it has none.
pub open spec fn demucs_separating(
    job: JobView,
    b: BatchView,
    told: Seq<MessageView>,
    audio: Option<PathView>,
    phase: Phase,
) -> (BatchView, ReplyView) {
    let name = job.items[b.next as int].path.name();
    match audio {
        Some(a) => (
            b.at(StageView::Separating(a)),
            ReplyView {
                messages: told + seq![
                    item_status(job, b, "处理中"@),
                    counted_status("分离"@, b.next, job.indices.len(), a.name()),
                    under_name(name, "使用音频: "@ + a.text + "\n"@),
                ],
                action: ActionView::Separate {
                    cmd: command_for(job, a),
                    scope: Some(share(job, b, phase)),
                },
            },
        ),
        None => (
            b.advanced(),
            ReplyView {
                messages: told + seq![
                    item_status(job, b, "跳过: 无可处理音频"@),
                    under_name(name, "未找到同名 FLAC/MP3/WAV, 已跳过.\n"@),
                    file_end(job, b),
                ],
                action: ActionView::Ask,
            },
        ),
    }
}

/// The beginning of the current item: its conversion, if it needs one and
/// there is a tool for it, or else its separation.
pub open spec fn demucs_beginning(job: JobView, b: BatchView) -> (BatchView, ReplyView) {
    let item = job.items[b.next as int];
    let name = item.path.name();
    if item.kind == AudioKind::Ncm && item.process_path is None {
        match job.ncmdump {
            Some(tool) => (
                b.at(StageView::Converting),
                ReplyView {
                    messages: seq![
                        item_status(job, b, "转换 NCM..."@),
                        counted_status("转换 NCM"@, b.next, job.indices.len(), name),
                        under_name(name, "正在自动转换 NCM...\n"@),
                        MessageView::Progress(
                            MarkView::Within(share(job, b, Phase::Whole), 5),
                        ),
                    ],
                    action: conversion_of(
                        tool,
                        item.path,
                        Some(share(job, b, Phase::Convert)),
                    ),
                },
            ),
            None => (
                b.advanced(),
                ReplyView {
                    messages: seq![
                        under_name(name, "未找到 ncmdump, 无法自动转换 NCM.\n"@),
                        item_status(job, b, "跳过: 未找到 ncmdump"@),
                        file_end(job, b),
                    ],
                    action: ActionView::Ask,
                },
            ),
        }
    } else {
        demucs_separating(job, b, Seq::empty(), item.process_path, Phase::Whole)
    }
}

/// What a batch of separations becomes and answers when it is told something.
pub open spec fn demucs_step(job: JobView, b: BatchView, event: EventView) -> (
    BatchView,
    ReplyView,
) {
    match event {
        EventView::Running(running) => if running && b.next < rounds(job) {
            demucs_beginning(job, b)
        } else {
            (
                b.at(StageView::Over),
                ReplyView {
                    messages: end_messages("分离完成"@, b.ok, b.fail),
                    action: ActionView::Finish,
                },
            )
        },
        EventView::Converted(Ok(path)) => demucs_separating(
            job,
            b,
            seq![
                converted_status(job, b, path),
                MessageView::Log("NCM 转换成功: "@ + path.name() + "\n"@),
                MessageView::Progress(
                    MarkView::Converted(b.next as int, job.indices.len() as int),
                ),
            ],
            Some(path),
            Phase::Separate,
        ),
        EventView::Converted(Err(e)) => (
            b.failed().advanced(),
            ReplyView {
                messages: seq![
                    item_status(job, b, "NCM 转换失败"@),
                    MessageView::Log("NCM 转换失败: "@ + e + "\n"@),
                    file_end(job, b),
                ],
                action: ActionView::Ask,
            },
        ),
        EventView::Separated(EndView::NotRun(e)) => {
            let over = b.failed().closed();
            (
                over,
                ReplyView {
                    messages: seq![
                        item_status(job, b, "未安装 Demucs"@),
                        MessageView::Log("启动 Demucs 失败: "@ + e + "\n"@),
                    ] + end_messages("分离完成"@, over.ok, over.fail),
                    action: ActionView::Finish,
                },
            )
        },
        EventView::Separated(EndView::Exited(exit)) => (
            (if exit.success {
                b.succeeded()
            } else {
                b.failed()
            }).advanced(),
            ReplyView {
                messages: seq![
                    item_status(
                        job,
                        b,
                        if exit.success {
                            "已完成"@
                        } else {
                            "失败 "@ + signed_decimal(code_or_minus_one(exit))
                        },
                    ),
                    file_end(job, b),
                ],
                action: ActionView::Ask,
            },
        ),
        EventView::Stamped(_) => (
            b.advanced(),
            ReplyView { messages: Seq::empty(), action: ActionView::Ask },
        ),
    }
}

/// The separation of the current item.
fn demucs_separate(
    job: &Job,
    batch: &mut Batch,
    told: Vec<TaskMessage>,
    audio: Option<FilePath>,
    phase: Phase,
) -> (reply: Reply)
    requires
        old(batch).next < rounds(job@),
    ensures
        (final(batch)@, reply@) == demucs_separating(
            job@,
            old(batch)@,
            messages_view(told@),
            path_opt(audio),
            phase,
        ),
{
    let mut messages = told;
    let ghost start = messages_view(messages@);
    let ghost before = batch@;
    let total: usize = job.indices.len();
    let round: usize = batch.next;
    assert(job@.items[round as int] == job.items@[round as int]@);
    assert(job@.items.len() == job.items@.len());
    let name = job.items[round].path.name();
    match audio {
        Some(a) => {
            tell(&mut messages, status_of(job, batch, "处理中"));
            tell(&mut messages, count_status("分离", round, total, a.name().as_str()));
            tell(&mut messages, log_audio(name.as_str(), &a));
            assert(messages_view(messages@) == demucs_separating(
                job@,
                before,
                start,
                Some(a@),
                phase,
            ).1.messages);
            let cmd = separation_command(
                &job.separators,
                job.separator.as_str(),
                &job.demucs_base,
                &job.output_dir,
                &a,
                job.model.as_str(),
                job.mode.as_str(),
                job.device.as_str(),
            );
            let scope = share_of(job, batch, phase);
            batch.stage = Stage::Separating(a);
            Reply { messages, action: Action::Separate { cmd, scope: Some(scope) } }
        },
        None => {
            tell(&mut messages, status_of(job, batch, "跳过: 无可处理音频"));
            tell(
                &mut messages,
                log_under(name.as_str(), "未找到同名 FLAC/MP3/WAV, 已跳过.\n"),
            );
            tell(&mut messages, end_of_file(job, batch));
            assert(messages_view(messages@) == demucs_separating(
                job@,
                before,
                start,
                None,
                phase,
            ).1.messages);
            batch.next = round + 1;
            batch.stage = Stage::Ready;
            Reply { messages, action: Action::Ask }
        },
    }
}

/// The beginning of the current item.
fn demucs_begin(job: &Job, batch: &mut Batch) -> (reply: Reply)
    requires
        old(batch).next < rounds(job@),
    ensures
        (final(batch)@, reply@) == demucs_beginning(job@, old(batch)@),
{
    let mut messages: Vec<TaskMessage> = Vec::new();
    assert(messages_view(messages@) == Seq::<MessageView>::empty());
    let ghost before = batch@;
    let total: usize = job.indices.len();
    let round: usize = batch.next;
    let item = &job.items[round];
    assert(job@.items[round as int] == item@);
    assert(job@.items.len() == job.items@.len());
    if item.kind == AudioKind::Ncm && !item.can_separate() {
        let name = item.path.name();
        match &job.ncmdump {
            Some(tool) => {
                tell(&mut messages, status_of(job, batch, "转换 NCM..."));
                tell(&mut messages, count_status("转换 NCM", round, total, name.as_str()));
                tell(&mut messages, log_under(name.as_str(), "正在自动转换 NCM...\n"));
                tell(
                    &mut messages,
                    TaskMessage::Progress(Mark::Within(share_of(job, batch, Phase::Whole), 5)),
                );
                assert(messages_view(messages@) == demucs_beginning(job@, before).1.messages);
                let scope = share_of(job, batch, Phase::Convert);
                batch.stage = Stage::Converting;
                Reply { messages, action: conversion(tool, &item.path, Some(scope)) }
            },
            None => {
                tell(
                    &mut messages,
                    log_under(name.as_str(), "未找到 ncmdump, 无法自动转换 NCM.\n"),
                );
                tell(&mut messages, status_of(job, batch, "跳过: 未找到 ncmdump"));
                tell(&mut messages, end_of_file(job, batch));
                assert(messages_view(messages@) == demucs_beginning(job@, before).1.messages);
                batch.next = round + 1;
                batch.stage = Stage::Ready;
                Reply { messages, action: Action::Ask }
            },
        }
    } else {
        demucs_separate(
            job,
            batch,
            messages,
            copy_path_opt(&item.process_path),
            Phase::Whole,
        )
    }
}

/// One step of a batch of separations: takes what came of the last action and
/// says what to tell and what to do next. A batch begins with `Batch::new`
/// and the question whether the task runs; it stamps no metadata.
pub fn run_demucs_batch(job: &Job, batch: &mut Batch, event: Event) -> (reply: Reply)
    requires
        old(batch)@.valid(rounds(job@)),
        old(batch)@.awaits(event@),
        !(event is Stamped),
    ensures
        (final(batch)@, reply@) == demucs_step(job@, old(batch)@, event@),
        final(batch)@.valid(rounds(job@)),
{
    let ghost before = batch@;
    assert(job@.items.len() == job.items@.len());
    let mut messages: Vec<TaskMessage> = Vec::new();
    assert(messages_view(messages@) == Seq::<MessageView>::empty());
    let total: usize = job.indices.len();
    match event {
        Event::Running(running) => {
            if running && batch.next < total && batch.next < job.items.len() {
                return demucs_begin(job, batch);
            }
            batch.stage = Stage::Over;
            tell_end(&mut messages, "分离完成", batch);
            assert(messages_view(messages@) == demucs_step(job@, before, event@).1.messages);
            Reply { messages, action: Action::Finish }
        },
        Event::Converted(result) => match result {
            Ok(path) => {
                tell(&mut messages, status_converted(job, batch, &path));
                tell(
                    &mut messages,
                    log_labelled("NCM 转换成功: ", path.name().as_str()),
                );
                tell(
                    &mut messages,
                    TaskMessage::Progress(Mark::Converted(batch.next, total)),
                );
                assert(messages_view(messages@) == seq![
                    converted_status(job@, before, path@),
                    MessageView::Log("NCM 转换成功: "@ + path@.name() + "\n"@),
                    MessageView::Progress(
                        MarkView::Converted(before.next as int, job@.indices.len() as int),
                    ),
                ]);
                demucs_separate(job, batch, messages, Some(path), Phase::Separate)
            },
            Err(e) => {
                tell(&mut messages, status_of(job, batch, "NCM 转换失败"));
                tell(&mut messages, log_labelled("NCM 转换失败: ", e.as_str()));
                tell(&mut messages, end_of_file(job, batch));
                assert(messages_view(messages@) == demucs_step(job@, before, event@).1.messages);
                batch.fail = batch.fail + 1;
                batch.next = batch.next + 1;
                batch.stage = Stage::Ready;
                Reply { messages, action: Action::Ask }
            },
        },
        Event::Separated(run_end) => match run_end {
            RunEnd::NotRun(e) => {
                tell(&mut messages, status_of(job, batch, "未安装 Demucs"));
                tell(&mut messages, log_labelled("启动 Demucs 失败: ", e.as_str()));
                batch.fail = batch.fail + 1;
                batch.next = batch.next + 1;
                batch.stage = Stage::Over;
                tell_end(&mut messages, "分离完成", batch);
                assert(messages_view(messages@) == demucs_step(job@, before, event@).1.messages);
                Reply { messages, action: Action::Finish }
            },
            RunEnd::Exited(exit) => {
                if exit.success {
                    tell(&mut messages, status_of(job, batch, "已完成"));
                    tell(&mut messages, end_of_file(job, batch));
                    batch.ok = batch.ok + 1;
                } else {
                    let mut text = "失败 ".to_string();
                    text.append(code_text(&exit).as_str());
                    tell(&mut messages, status_of(job, batch, text.as_str()));
                    tell(&mut messages, end_of_file(job, batch));
                    batch.fail = batch.fail + 1;
                }
                assert(messages_view(messages@) == demucs_step(job@, before, event@).1.messages);
                batch.next = batch.next + 1;
                batch.stage = Stage::Ready;
                Reply { messages, action: Action::Ask }
            },
        },
        Event::Stamped(_) => Reply { messages, action: Action::Ask },
    }
}

/// Every event brings a batch of separations nearer to its end.
pub proof fn law_demucs_ends(job: JobView, b: BatchView, event: EventView)
    requires
        b.valid(rounds(job)),
        b.awaits(event),
    ensures
        0 <= demucs_step(job, b, event).0.left(rounds(job)) < b.left(rounds(job)),
{
}

/// A batch of separations counts each success and each failure once, and
/// never more of them than there are files.
pub proof fn law_demucs_counts(job: JobView, b: BatchView, event: EventView)
    requires
        b.valid(rounds(job)),
        b.awaits(event),
    ensures
        ({
            let after = demucs_step(job, b, event).0;
            &&& after.valid(rounds(job))
            &&& after.ok + after.fail <= rounds(job)
            &&& after.ok == b.ok + (if is_success(event) {
                1nat
            } else {
                0nat
            })
            &&& after.fail == b.fail + (if is_failure(event) {
                1nat
            } else {
                0nat
            })
        }),
{
}

/// A batch of separations whose task was stopped starts no program any more:
/// it ends.
pub proof fn law_demucs_stops(job: JobView, b: BatchView)
    ensures
        demucs_step(job, b, EventView::Running(false)).0.stage is Over,
        demucs_step(job, b, EventView::Running(false)).1.action is Finish,
{
}

/// A batch of separations says that it is done exactly when it ends, as the
/// last thing it says.
pub proof fn law_demucs_done(job: JobView, b: BatchView, event: EventView)
    requires
        b.valid(rounds(job)),
        b.awaits(event),
    ensures
        ({
            let (after, reply) = demucs_step(job, b, event);
            &&& after.stage is Over <==> reply.action is Finish
            &&& forall|i: int|
                0 <= i < reply.messages.len() ==> ((#[trigger] reply.messages[i]) is Done <==> (
                reply.action is Finish && i == reply.messages.len() - 1))
            &&& reply.action is Finish ==> reply.messages.len() > 0
        }),
{
}

/// What the window separates is audio: the command ends in the path of the
/// audio that the batch then waits for, which is that of the item or was
/// converted from it.
pub proof fn law_demucs_separates_audio(job: JobView, b: BatchView, event: EventView)
    requires
        b.valid(rounds(job)),
        b.awaits(event),
        demucs_step(job, b, event).1.action is Separate,
    ensures
        ({
            let (after, reply) = demucs_step(job, b, event);
            &&& after.stage is Separating
            &&& reply.action->Separate_cmd.last() == (after.stage->Separating_0).text
            &&& event == EventView::Converted(Ok(after.stage->Separating_0))
                || job.items[b.next as int].process_path == Some(after.stage->Separating_0)
        }),
{
}

/// The progress that is told while an item is worked on stays within the share
/// of that item, and so does the share of a program that is run for it.
pub proof fn law_demucs_progress(job: JobView, b: BatchView, event: EventView)
    requires
        job.indices.len() <= usize::MAX,
        b.valid(rounds(job)),
        b.awaits(event),
    ensures
        ({
            let reply = demucs_step(job, b, event).1;
            let low = (100 * b.next) as int;
            &&& forall|i: int|
                0 <= i < reply.messages.len() && (#[trigger] reply.messages[i]) is Progress
                    ==> mark_between(reply.messages[i]->Progress_0, low, low + 100)
            &&& reply.action matches ActionView::Separate { cmd, scope: Some(s) } ==> mark_between(
                MarkView::Told(s, Seq::empty()),
                low,
                low + 100,
            )
            &&& reply.action matches ActionView::Convert {
                cmd,
                ncm,
                out_dir,
                scope: Some(s),
            } ==> mark_between(MarkView::Told(s, Seq::empty()), low, low + 20)
        }),
{
}

/// Only the status of the current item is changed.
pub proof fn law_demucs_touches_current(job: JobView, b: BatchView, event: EventView, i: int)
    requires
        b.valid(rounds(job)),
        b.awaits(event),
        0 <= i < demucs_step(job, b, event).1.messages.len(),
        demucs_step(job, b, event).1.messages[i] is InputStatus,
    ensures
        demucs_step(job, b, event).1.messages[i]->InputStatus_0 == job.indices[b.next as int],
{
}

/// A batch of separations after the events, from its beginning.
pub open spec fn demucs_after(job: JobView, events: Seq<EventView>) -> BatchView
    decreases events.len(),
{
    if events.len() == 0 {
        fresh()
    } else {
        demucs_step(job, demucs_after(job, events.drop_last()), events.last()).0
    }
}

/// Whether a batch of separations waits for each of the events when it comes.
pub open spec fn demucs_in_turn(job: JobView, events: Seq<EventView>) -> bool
    decreases events.len(),
{
    events.len() == 0 || (demucs_in_turn(job, events.drop_last()) && demucs_after(
        job,
        events.drop_last(),
    ).awaits(events.last()))
}

/// Over a whole run a batch of separations counts the successes and the
/// failures that there were, and it is over after at most four events for
/// each file and four more.
pub proof fn law_demucs_run(job: JobView, events: Seq<EventView>)
    requires
        demucs_in_turn(job, events),
    ensures
        ({
            let b = demucs_after(job, events);
            &&& b.valid(rounds(job))
            &&& b.ok == successes_in(events)
            &&& b.fail == failures_in(events)
            &&& events.len() <= 4 * rounds(job) + 4 - b.left(rounds(job))
            &&& b.left(rounds(job)) >= 0
        }),
    decreases events.len(),
{
    if events.len() > 0 {
        law_demucs_run(job, events.drop_last());
        let before = demucs_after(job, events.drop_last());
        law_demucs_counts(job, before, events.last());
        law_demucs_ends(job, before, events.last());
    }
}

/// The ends of files that messages tell.
pub open spec fn ends_in(messages: Seq<MessageView>) -> Seq<MarkView>
    decreases messages.len(),
{
    if messages.len() == 0 {
        Seq::empty()
    } else {
        let before = ends_in(messages.drop_last());
        match messages.last() {
            MessageView::Progress(MarkView::FileEnd(r, n)) => before.push(MarkView::FileEnd(r, n)),
            _ => before,
        }
    }
}

/// The ends of files that messages tell are those of their two parts.
proof fn lemma_ends_add(a: Seq<MessageView>, b: Seq<MessageView>)
    ensures
        ends_in(a + b) == ends_in(a) + ends_in(b),
    decreases b.len(),
{
    if b.len() == 0 {
        assert(a + b == a);
    } else {
        assert((a + b).drop_last() == a + b.drop_last());
        lemma_ends_add(a, b.drop_last());
    }
}

/// The ends of the first files, in order.
pub open spec fn first_ends(n: nat, total: int) -> Seq<MarkView> {
    Seq::new(n, |i: int| MarkView::FileEnd(i, total))
}

/// What a batch of separations tells over the events, from its beginning.
pub open spec fn demucs_told(job: JobView, events: Seq<EventView>) -> Seq<MessageView>
    decreases events.len(),
{
    if events.len() == 0 {
        Seq::empty()
    } else {
        demucs_told(job, events.drop_last()) + demucs_step(
            job,
            demucs_after(job, events.drop_last()),
            events.last(),
        ).1.messages
    }
}

/// A batch of separations says that it is done once it is over and not before;
/// then that is the last thing it says, it says it once, and what it says
/// before it are the numbers of the successes and of the failures that there
/// were.
pub proof fn law_demucs_done_run(job: JobView, events: Seq<EventView>)
    requires
        demucs_in_turn(job, events),
    ensures
        ({
            let told = demucs_told(job, events);
            if demucs_after(job, events).stage is Over {
                ends_once(told, "分离完成"@, successes_in(events), failures_in(events))
            } else {
                count_of(told, done()) == 0
            }
        }),
    decreases events.len(),
{
    if events.len() > 0 {
        let rest = events.drop_last();
        law_demucs_run(job, rest);
        law_demucs_run(job, events);
        law_demucs_done_run(job, rest);
        let before = demucs_after(job, rest);
        let (after, reply) = demucs_step(job, before, events.last());
        law_demucs_done(job, before, events.last());
        if after.stage is Over {
            assert(reply.messages.skip(reply.messages.len() - 2) == end_messages(
                "分离完成"@,
                after.ok,
                after.fail,
            ));
        }
        lemma_ends_once(demucs_told(job, rest), reply, "分离完成"@, after.ok, after.fail);
    }
}

/// The messages that give an item the status of one that was separated.
pub open spec fn says_separated() -> spec_fn(MessageView) -> bool {
    |m: MessageView| m matches MessageView::InputStatus(_, text, _) && text == "已完成"@
}

/// The messages that give an item the status of one that a batch of
/// separations failed on.
pub open spec fn says_failed() -> spec_fn(MessageView) -> bool {
    |m: MessageView|
        m matches MessageView::InputStatus(_, text, _) && (text == "NCM 转换失败"@ || text
            == "未安装 Demucs"@ || "失败 "@.is_prefix_of(text))
}

/// One step of a batch of separations says of an item that it was separated,
/// or that it failed, exactly when it counts it so.
proof fn lemma_demucs_statuses(job: JobView, b: BatchView, event: EventView)
    requires
        b.valid(rounds(job)),
        b.awaits(event),
    ensures
        ({
            let (after, reply) = demucs_step(job, b, event);
            &&& count_of(reply.messages, says_separated()) == after.ok - b.ok
            &&& count_of(reply.messages, says_failed()) == after.fail - b.fail
        }),
{
    reveal_strlit("已完成");
    reveal_strlit("NCM 转换失败");
    reveal_strlit("未安装 Demucs");
    reveal_strlit("失败 ");
    reveal_strlit("处理中");
    reveal_strlit("跳过: 无可处理音频");
    reveal_strlit("跳过: 未找到 ncmdump");
    reveal_strlit("转换 NCM...");
    reveal_strlit("已转换 ");
    reveal_with_fuel(count_of, 8);
    let (after, reply) = demucs_step(job, b, event);
    assert forall|text: Seq<char>| #[trigger] "失败 "@.is_prefix_of(text) implies text[0] == '失' by {
        assert(text.subrange(0, 3)[0] == text[0]);
    }
    assert("已完成"@[0] == '已' && "已完成"@[1] == '完');
    assert("NCM 转换失败"@[0] == 'N');
    assert("未安装 Demucs"@[0] == '未');
    assert("处理中"@[0] == '处');
    assert("跳过: 无可处理音频"@[0] == '跳');
    assert("跳过: 未找到 ncmdump"@[0] == '跳');
    assert("转换 NCM..."@[0] == '转');
    match event {
        EventView::Converted(Ok(path)) => {
            let text = "已转换 "@ + uppercase_of(ext_or_empty(path));
            assert(text[0] == '已' && text[1] == '转');
        },
        EventView::Separated(EndView::Exited(exit)) => {
            let text = "失败 "@ + signed_decimal(code_or_minus_one(exit));
            assert(text.subrange(0, 3) == "失败 "@);
        },
        _ => {},
    }
    assert(count_of(reply.messages, says_separated()) == after.ok - b.ok);
    assert(count_of(reply.messages, says_failed()) == after.fail - b.fail);
}

/// Over a whole run the numbers that a batch of separations gives are those of
/// the items that it said were separated, and that failed.
pub proof fn law_demucs_statuses_run(job: JobView, events: Seq<EventView>)
    requires
        demucs_in_turn(job, events),
    ensures
        count_of(demucs_told(job, events), says_separated()) == demucs_after(job, events).ok,
        count_of(demucs_told(job, events), says_failed()) == demucs_after(job, events).fail,
    decreases events.len(),
{
    if events.len() > 0 {
        let rest = events.drop_last();
        law_demucs_run(job, rest);
        law_demucs_statuses_run(job, rest);
        let before = demucs_after(job, rest);
        let new = demucs_step(job, before, events.last()).1.messages;
        lemma_demucs_statuses(job, before, events.last());
        lemma_count_add(demucs_told(job, rest), new, says_separated());
        lemma_count_add(demucs_told(job, rest), new, says_failed());
    }
}

/// The ends of files that one step tells: that of the current file, if the
/// step is done with it.
proof fn lemma_demucs_ends(job: JobView, b: BatchView, event: EventView)
    requires
        b.valid(rounds(job)),
        b.awaits(event),
        !(b.stage is Stamping),
        !(event matches EventView::Separated(EndView::NotRun(_))),
    ensures
        ({
            let (after, reply) = demucs_step(job, b, event);
            &&& !(after.stage is Stamping)
            &&& after.next == b.next || after.next == b.next + 1
            &&& ends_in(reply.messages) == (if after.next == b.next {
                Seq::<MarkView>::empty()
            } else {
                seq![MarkView::FileEnd(b.next as int, job.indices.len() as int)]
            })
        }),
{
    let (after, reply) = demucs_step(job, b, event);
    reveal_with_fuel(ends_in, 8);
    assert(ends_in(reply.messages) == (if after.next == b.next {
        Seq::<MarkView>::empty()
    } else {
        seq![MarkView::FileEnd(b.next as int, job.indices.len() as int)]
    }));
}

/// Over a run of separations in which every program could be run, the end of
/// each file that is done is told exactly once, in order; if such a run ends
/// without having been stopped, that is every file.
pub proof fn law_demucs_progress_run(job: JobView, events: Seq<EventView>)
    requires
        demucs_in_turn(job, events),
        all_started(events),
    ensures
        ({
            let b = demucs_after(job, events);
            &&& !(b.stage is Stamping)
            &&& ends_in(demucs_told(job, events)) == first_ends(b.next, job.indices.len() as int)
            &&& b.stage is Over && !events.contains(EventView::Running(false)) ==> b.next
                == rounds(job)
        }),
    decreases events.len(),
{
    let total = job.indices.len() as int;
    let b = demucs_after(job, events);
    if events.len() == 0 {
        assert(ends_in(demucs_told(job, events)) == first_ends(b.next, total));
    } else {
        let rest = events.drop_last();
        assert forall|i: int| 0 <= i < rest.len() implies !((#[trigger] rest[i]) matches
            EventView::Separated(EndView::NotRun(_))) by {
            assert(rest[i] == events[i]);
        }
        law_demucs_run(job, rest);
        law_demucs_progress_run(job, rest);
        let before = demucs_after(job, rest);
        assert(events[events.len() - 1] == events.last());
        lemma_demucs_ends(job, before, events.last());
        lemma_ends_add(
            demucs_told(job, rest),
            demucs_step(job, before, events.last()).1.messages,
        );
        assert(ends_in(demucs_told(job, events)) == first_ends(b.next, total));
    }
}

// ---------------------------------------------------------------------------
// Conversions
// ---------------------------------------------------------------------------

/// What a batch of conversions with that tool becomes and answers when it is
/// told something.
pub open spec fn ncm_step(job: JobView, tool: PathView, b: BatchView, event: EventView) -> (
    BatchView,
    ReplyView,
) {
    match event {
        EventView::Running(running) => if running && b.next < rounds(job) {
            let path = job.items[b.next as int].path;
            (
                b.at(StageView::Converting),
                ReplyView {
                    messages: seq![
                        item_status(job, b, "转换中..."@),
                        counted_status("转换 NCM"@, b.next, job.indices.len(), path.name()),
                        under_name(path.name(), "正在转换 NCM...\n"@),
                        MessageView::Progress(
                            MarkView::Within(share(job, b, Phase::Whole), 10),
                        ),
                    ],
                    action: conversion_of(tool, path, Some(share(job, b, Phase::Whole))),
                },
            )
        } else {
            (
                b.at(StageView::Over),
                ReplyView {
                    messages: end_messages("转换完成"@, b.ok, b.fail),
                    action: ActionView::Finish,
                },
            )
        },
        EventView::Converted(Ok(path)) => (
            b.succeeded().advanced(),
            ReplyView {
                messages: seq![
                    converted_status(job, b, path),
                    MessageView::Log("转换成功: "@ + path.name() + "\n"@),
                    file_end(job, b),
                ],
                action: ActionView::Ask,
            },
        ),
        EventView::Converted(Err(e)) => (
            b.failed().advanced(),
            ReplyView {
                messages: seq![
                    item_status(job, b, "转换失败"@),
                    MessageView::Log("转换失败: "@ + e + "\n"@),
                    file_end(job, b),
                ],
                action: ActionView::Ask,
            },
        ),
        _ => (
            b.at(StageView::Over),
            ReplyView { messages: Seq::empty(), action: ActionView::Finish },
        ),
    }
}

/// One step of a batch of conversions with ncmdump at `tool`: takes what came
/// of the last action and says what to tell and what to do next. A batch
/// begins with `Batch::new` and the question whether the task runs; it
/// separates nothing.
pub fn run_ncm_convert_batch(job: &Job, tool: &FilePath, batch: &mut Batch, event: Event) -> (reply:
    Reply)
    requires
        old(batch)@.valid(rounds(job@)),
        old(batch)@.awaits(event@),
        event is Running || event is Converted,
    ensures
        (final(batch)@, reply@) == ncm_step(job@, tool@, old(batch)@, event@),
        final(batch)@.valid(rounds(job@)),
{
    let ghost before = batch@;
    assert(job@.items.len() == job.items@.len());
    let mut messages: Vec<TaskMessage> = Vec::new();
    assert(messages_view(messages@) == Seq::<MessageView>::empty());
    let total: usize = job.indices.len();
    let round: usize = batch.next;
    match event {
        Event::Running(running) => {
            if running && round < total && round < job.items.len() {
                let item = &job.items[round];
                assert(job@.items[round as int] == item@);
                let name = item.path.name();
                tell(&mut messages, status_of(job, batch, "转换中..."));
                tell(&mut messages, count_status("转换 NCM", round, total, name.as_str()));
                tell(&mut messages, log_under(name.as_str(), "正在转换 NCM...\n"));
                let scope = share_of(job, batch, Phase::Whole);
                tell(&mut messages, TaskMessage::Progress(Mark::Within(scope, 10)));
                assert(messages_view(messages@) == ncm_step(
                    job@,
                    tool@,
                    before,
                    event@,
                ).1.messages);
                batch.stage = Stage::Converting;
                return Reply { messages, action: conversion(tool, &item.path, Some(scope)) };
            }
            batch.stage = Stage::Over;
            tell_end(&mut messages, "转换完成", batch);
            assert(messages_view(messages@) == ncm_step(
                job@,
                tool@,
                before,
                event@,
            ).1.messages);
            Reply { messages, action: Action::Finish }
        },
        Event::Converted(result) => {
            match result {
                Ok(path) => {
                    tell(&mut messages, status_converted(job, batch, &path));
                    tell(&mut messages, log_labelled("转换成功: ", path.name().as_str()));
                    tell(&mut messages, end_of_file(job, batch));
                    batch.ok = batch.ok + 1;
                },
                Err(e) => {
                    tell(&mut messages, status_of(job, batch, "转换失败"));
                    tell(&mut messages, log_labelled("转换失败: ", e.as_str()));
                    tell(&mut messages, end_of_file(job, batch));
                    batch.fail = batch.fail + 1;
                },
            }
            assert(messages_view(messages@) == ncm_step(
                job@,
                tool@,
                before,
                event@,
            ).1.messages);
            batch.next = round + 1;
            batch.stage = Stage::Ready;
            Reply { messages, action: Action::Ask }
        },
        _ => Reply { messages, action: Action::Finish },
    }
}

/// Every event brings a batch of conversions nearer to its end.
pub proof fn law_ncm_ends(job: JobView, tool: PathView, b: BatchView, event: EventView)
    requires
        b.valid(rounds(job)),
        b.awaits(event),
        event is Running || event is Converted,
    ensures
        0 <= ncm_step(job, tool, b, event).0.left(rounds(job)) < b.left(rounds(job)),
{
}

/// A batch of conversions counts each file once: as a success if it was
/// converted, and otherwise as a failure.
pub proof fn law_ncm_counts(job: JobView, tool: PathView, b: BatchView, event: EventView)
    requires
        b.valid(rounds(job)),
        b.awaits(event),
        event is Running || event is Converted,
        b.ok + b.fail == b.next,
    ensures
        ({
            let after = ncm_step(job, tool, b, event).0;
            &&& after.valid(rounds(job))
            &&& after.ok + after.fail == after.next
            &&& after.ok == b.ok + (if event matches EventView::Converted(Ok(_)) {
                1nat
            } else {
                0nat
            })
            &&& after.fail == b.fail + (if is_failure(event) {
                1nat
            } else {
                0nat
            })
        }),
{
}

/// A batch of conversions whose task was stopped starts no program any more:
/// it ends.
pub proof fn law_ncm_stops(job: JobView, tool: PathView, b: BatchView)
    ensures
        ncm_step(job, tool, b, EventView::Running(false)).0.stage is Over,
        ncm_step(job, tool, b, EventView::Running(false)).1.action is Finish,
{
}

/// A batch of conversions says that it is done exactly when it ends, as the
/// last thing it says.
pub proof fn law_ncm_done(job: JobView, tool: PathView, b: BatchView, event: EventView)
    requires
        b.valid(rounds(job)),
        b.awaits(event),
        event is Running || event is Converted,
    ensures
        ({
            let (after, reply) = ncm_step(job, tool, b, event);
            &&& after.stage is Over <==> reply.action is Finish
            &&& forall|i: int|
                0 <= i < reply.messages.len() ==> ((#[trigger] reply.messages[i]) is Done <==> (
                reply.action is Finish && i == reply.messages.len() - 1))
            &&& reply.action is Finish ==> reply.messages.len() > 0
        }),
{
}

/// Each file of a batch of conversions is converted, into its own directory,
/// and the progress that is told meanwhile stays within its share.
pub proof fn law_ncm_converts_each(job: JobView, tool: PathView, b: BatchView)
    requires
        job.indices.len() <= usize::MAX,
        b.valid(rounds(job)),
        b.next < rounds(job),
    ensures
        ({
            let reply = ncm_step(job, tool, b, EventView::Running(true)).1;
            let low = (100 * b.next) as int;
            &&& reply.action is Convert
            &&& reply.action->Convert_ncm == job.items[b.next as int].path
            &&& reply.action->Convert_out_dir == conversion_dir(job.items[b.next as int].path)
            &&& forall|i: int|
                0 <= i < reply.messages.len() && (#[trigger] reply.messages[i]) is Progress
                    ==> mark_between(reply.messages[i]->Progress_0, low, low + 100)
        }),
{
}

/// Only the status of the current item is changed by a batch of conversions.
pub proof fn law_ncm_touches_current(
    job: JobView,
    tool: PathView,
    b: BatchView,
    event: EventView,
    i: int,
)
    requires
        b.valid(rounds(job)),
        b.awaits(event),
        0 <= i < ncm_step(job, tool, b, event).1.messages.len(),
        ncm_step(job, tool, b, event).1.messages[i] is InputStatus,
    ensures
        ncm_step(job, tool, b, event).1.messages[i]->InputStatus_0 == job.indices[b.next as int],
{
}

/// A batch of conversions after the events, from its beginning.
pub open spec fn ncm_after(job: JobView, tool: PathView, events: Seq<EventView>) -> BatchView
    decreases events.len(),
{
    if events.len() == 0 {
        fresh()
    } else {
        ncm_step(job, tool, ncm_after(job, tool, events.drop_last()), events.last()).0
    }
}

/// Whether a batch of conversions waits for each of the events when it comes.
pub open spec fn ncm_in_turn(job: JobView, tool: PathView, events: Seq<EventView>) -> bool
    decreases events.len(),
{
    events.len() == 0 || (ncm_in_turn(job, tool, events.drop_last()) && ncm_after(
        job,
        tool,
        events.drop_last(),
    ).awaits(events.last()))
}

/// Over a whole run of conversions every file that was begun and ended is a
/// success or a failure; a run that ends without having been stopped has
/// counted all of them. It is over after at most four events for each file
/// and four more.
pub proof fn law_ncm_run(job: JobView, tool: PathView, events: Seq<EventView>)
    requires
        ncm_in_turn(job, tool, events),
    ensures
        ({
            let b = ncm_after(job, tool, events);
            &&& b.valid(rounds(job))
            &&& b.stage is Ready || b.stage is Converting || b.stage is Over
            &&& b.ok + b.fail == b.next
            &&& b.ok == converted_in(events)
            &&& b.fail == failures_in(events)
            &&& b.stage is Over && !events.contains(EventView::Running(false)) ==> b.ok + b.fail
                == rounds(job)
            &&& events.len() <= 4 * rounds(job) + 4 - b.left(rounds(job))
            &&& b.left(rounds(job)) >= 0
        }),
    decreases events.len(),
{
    if events.len() > 0 {
        let rest = events.drop_last();
        law_ncm_run(job, tool, rest);
        let before = ncm_after(job, tool, rest);
        law_ncm_counts(job, tool, before, events.last());
        law_ncm_ends(job, tool, before, events.last());
        assert(events[events.len() - 1] == events.last());
    }
}

/// What a batch of conversions tells over the events, from its beginning.
pub open spec fn ncm_told(job: JobView, tool: PathView, events: Seq<EventView>) -> Seq<MessageView>
    decreases events.len(),
{
    if events.len() == 0 {
        Seq::empty()
    } else {
        ncm_told(job, tool, events.drop_last()) + ncm_step(
            job,
            tool,
            ncm_after(job, tool, events.drop_last()),
            events.last(),
        ).1.messages
    }
}

/// A batch of conversions says that it is done once it is over and not before;
/// then that is the last thing it says, it says it once, and what it says
/// before it are the numbers of the files that were converted and that were
/// not.
pub proof fn law_ncm_done_run(job: JobView, tool: PathView, events: Seq<EventView>)
    requires
        ncm_in_turn(job, tool, events),
    ensures
        ({
            let told = ncm_told(job, tool, events);
            if ncm_after(job, tool, events).stage is Over {
                ends_once(told, "转换完成"@, converted_in(events), failures_in(events))
            } else {
                count_of(told, done()) == 0
            }
        }),
    decreases events.len(),
{
    if events.len() > 0 {
        let rest = events.drop_last();
        law_ncm_run(job, tool, rest);
        law_ncm_run(job, tool, events);
        law_ncm_done_run(job, tool, rest);
        let before = ncm_after(job, tool, rest);
        let (after, reply) = ncm_step(job, tool, before, events.last());
        law_ncm_done(job, tool, before, events.last());
        if after.stage is Over {
            assert(reply.messages.skip(reply.messages.len() - 2) == end_messages(
                "转换完成"@,
                after.ok,
                after.fail,
            ));
        }
        lemma_ends_once(ncm_told(job, tool, rest), reply, "转换完成"@, after.ok, after.fail);
    }
}

/// The messages that give an item the status of one that was converted.
pub open spec fn says_converted() -> spec_fn(MessageView) -> bool {
    |m: MessageView|
        m matches MessageView::InputStatus(_, text, _) && "已转换 "@.is_prefix_of(text)
}

/// The messages that give an item the status of one that was not converted.
pub open spec fn says_not_converted() -> spec_fn(MessageView) -> bool {
    |m: MessageView| m matches MessageView::InputStatus(_, text, _) && text == "转换失败"@
}

/// One step of a batch of conversions says of an item that it was converted,
/// or that it was not, exactly when it counts it so.
proof fn lemma_ncm_statuses(job: JobView, tool: PathView, b: BatchView, event: EventView)
    requires
        b.valid(rounds(job)),
        b.awaits(event),
        event is Running || event is Converted,
    ensures
        ({
            let (after, reply) = ncm_step(job, tool, b, event);
            &&& count_of(reply.messages, says_converted()) == after.ok - b.ok
            &&& count_of(reply.messages, says_not_converted()) == after.fail - b.fail
        }),
{
    reveal_strlit("已转换 ");
    reveal_strlit("转换失败");
    reveal_strlit("转换中...");
    reveal_with_fuel(count_of, 6);
    if let EventView::Converted(Ok(path)) = event {
        let text = "已转换 "@ + uppercase_of(ext_or_empty(path));
        assert(text.subrange(0, 4) == "已转换 "@);
        assert(text[0] == '已');
    }
    assert forall|text: Seq<char>| #[trigger] "已转换 "@.is_prefix_of(text) implies text[0] == '已' by {
        assert(text.subrange(0, 4)[0] == text[0]);
    }
    assert("转换失败"@[0] == '转' && "转换失败"@[2] == '失');
    assert("转换中..."@[0] == '转' && "转换中..."@[2] == '中');
}

/// Over a whole run the numbers that a batch of conversions gives are those of
/// the items that it said were converted, and were not.
pub proof fn law_ncm_statuses_run(job: JobView, tool: PathView, events: Seq<EventView>)
    requires
        ncm_in_turn(job, tool, events),
    ensures
        count_of(ncm_told(job, tool, events), says_converted()) == ncm_after(job, tool, events).ok,
        count_of(ncm_told(job, tool, events), says_not_converted()) == ncm_after(
            job,
            tool,
            events,
        ).fail,
    decreases events.len(),
{
    if events.len() > 0 {
        let rest = events.drop_last();
        law_ncm_run(job, tool, rest);
        law_ncm_statuses_run(job, tool, rest);
        let before = ncm_after(job, tool, rest);
        let new = ncm_step(job, tool, before, events.last()).1.messages;
        lemma_ncm_statuses(job, tool, before, events.last());
        lemma_count_add(ncm_told(job, tool, rest), new, says_converted());
        lemma_count_add(ncm_told(job, tool, rest), new, says_not_converted());
    }
}

/// Over a run of conversions the end of each file that is done is told
/// exactly once, in order.
pub proof fn law_ncm_progress_run(job: JobView, tool: PathView, events: Seq<EventView>)
    requires
        ncm_in_turn(job, tool, events),
    ensures
        ends_in(ncm_told(job, tool, events)) == first_ends(
            ncm_after(job, tool, events).next,
            job.indices.len() as int,
        ),
    decreases events.len(),
{
    let total = job.indices.len() as int;
    let b = ncm_after(job, tool, events);
    if events.len() > 0 {
        let rest = events.drop_last();
        law_ncm_run(job, tool, rest);
        law_ncm_progress_run(job, tool, rest);
        let before = ncm_after(job, tool, rest);
        let messages = ncm_step(job, tool, before, events.last()).1.messages;
        reveal_with_fuel(ends_in, 6);
        assert(ends_in(messages) == (if b.next == before.next {
            Seq::<MarkView>::empty()
        } else {
            seq![MarkView::FileEnd(before.next as int, total)]
        }));
        lemma_ends_add(ncm_told(job, tool, rest), messages);
    }
    assert(ends_in(ncm_told(job, tool, events)) == first_ends(b.next, total));
}

} // verus!
