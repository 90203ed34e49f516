//! Batches of audio files: what a task does next, given what came of what it
//! did last. The programs themselves are run elsewhere.

use crate::command::ncmdump_command;
use crate::config::{configs_view, ConfigView, SeparatorConfig};
use crate::convert::{conversion_view, Exit};
use crate::media::{items_view, AudioItem, ItemView};
use crate::message::{messages_view, MarkView, MessageView, Scope, TaskMessage};
use crate::number::{decimal, push_decimal};
use crate::path::{path_opt, FilePath, PathView};
use crate::text::texts;
use vstd::prelude::*;

verus! {

/// What a batch is to do.
#[derive(Debug)]
pub struct Job {
    pub items: Vec<AudioItem>,
    /// For each item its index in the list of the window.
    pub indices: Vec<usize>,
    /// Where ncmdump is, if it can be used.
    pub ncmdump: Option<FilePath>,
    pub output_dir: FilePath,
    pub separators: Vec<SeparatorConfig>,
    pub separator: String,
    pub model: String,
    pub mode: String,
    pub device: String,
    /// The command that starts Demucs.
    pub demucs_base: Vec<String>,
}

/// What a batch is to do, as a value.
pub struct JobView {
    pub items: Seq<ItemView>,
    pub indices: Seq<usize>,
    pub ncmdump: Option<PathView>,
    pub output_dir: PathView,
    pub separators: Seq<ConfigView>,
    pub separator: Seq<char>,
    pub model: Seq<char>,
    pub mode: Seq<char>,
    pub device: Seq<char>,
    pub demucs_base: Seq<Seq<char>>,
}

impl View for Job {
    type V = JobView;

    open spec fn view(&self) -> JobView {
        JobView {
            items: items_view(self.items@),
            indices: self.indices@,
            ncmdump: path_opt(self.ncmdump),
            output_dir: self.output_dir@,
            separators: configs_view(self.separators@),
            separator: self.separator@,
            model: self.model@,
            mode: self.mode@,
            device: self.device@,
            demucs_base: texts(self.demucs_base@),
        }
    }
}

/// What a batch is waiting for.
#[derive(Debug)]
pub enum Stage {
    /// To be told whether the task still runs.
    Ready,
    /// The conversion of the current item.
    Converting,
    /// The separation of that audio of the current item.
    Separating(FilePath),
    /// The metadata of the stems of the current item.
    Stamping,
    /// Nothing: the batch is over.
    Over,
}

/// What a batch is waiting for, as a value.
pub enum StageView {
    Ready,
    Converting,
    Separating(PathView),
    Stamping,
    Over,
}

/// How far a batch is.
#[derive(Debug)]
pub struct Batch {
    /// The index of the current item.
    pub next: usize,
    pub ok: usize,
    pub fail: usize,
    pub stage: Stage,
}

/// How far a batch is, as a value.
pub struct BatchView {
    pub next: nat,
    pub ok: nat,
    pub fail: nat,
    pub stage: StageView,
}

impl View for Stage {
    type V = StageView;

    open spec fn view(&self) -> StageView {
        match self {
            Stage::Ready => StageView::Ready,
            Stage::Converting => StageView::Converting,
            Stage::Separating(p) => StageView::Separating(p@),
            Stage::Stamping => StageView::Stamping,
            Stage::Over => StageView::Over,
        }
    }
}

impl View for Batch {
    type V = BatchView;

    open spec fn view(&self) -> BatchView {
        BatchView {
            next: self.next as nat,
            ok: self.ok as nat,
            fail: self.fail as nat,
            stage: self.stage@,
        }
    }
}

/// How a separation ended.
#[derive(Debug)]
pub enum RunEnd {
    /// The program could not be run, for the given reason.
    NotRun(String),
    Exited(Exit),
}

/// What a batch is told.
#[derive(Debug)]
pub enum Event {
    /// Whether the task still runs.
    Running(bool),
    /// What came of a conversion.
    Converted(Result<FilePath, String>),
    /// How a separation ended.
    Separated(RunEnd),
    /// How many stems got the metadata of their source.
    Stamped(usize),
}

/// How a separation ended, as a value.
pub enum EndView {
    NotRun(Seq<char>),
    Exited(Exit),
}

/// What a batch is told, as a value.
pub enum EventView {
    Running(bool),
    Converted(Result<PathView, Seq<char>>),
    Separated(EndView),
    Stamped(nat),
}

impl View for RunEnd {
    type V = EndView;

    open spec fn view(&self) -> EndView {
        match self {
            RunEnd::NotRun(e) => EndView::NotRun(e@),
            RunEnd::Exited(x) => EndView::Exited(*x),
        }
    }
}

impl View for Event {
    type V = EventView;

    open spec fn view(&self) -> EventView {
        match self {
            Event::Running(b) => EventView::Running(*b),
            Event::Converted(r) => EventView::Converted(conversion_view(*r)),
            Event::Separated(e) => EventView::Separated(e@),
            Event::Stamped(n) => EventView::Stamped(*n as nat),
        }
    }
}

/// What is to be done for a batch.
#[derive(Debug)]
pub enum Action {
    /// Tell it whether the task still runs.
    Ask,
    /// Run that command, which converts the file into the directory.
    Convert { cmd: Vec<String>, ncm: FilePath, out_dir: String, scope: Option<Scope> },
    /// Run that command, which separates the audio at its end.
    Separate { cmd: Vec<String>, scope: Option<Scope> },
    /// Give the stems the metadata of that audio.
    Stamp(FilePath),
    /// Nothing more.
    Finish,
}

/// What is to be done for a batch, as a value.
pub enum ActionView {
    Ask,
    Convert { cmd: Seq<Seq<char>>, ncm: PathView, out_dir: Seq<char>, scope: Option<Scope> },
    Separate { cmd: Seq<Seq<char>>, scope: Option<Scope> },
    Stamp(PathView),
    Finish,
}

impl View for Action {
    type V = ActionView;

    open spec fn view(&self) -> ActionView {
        match self {
            Action::Ask => ActionView::Ask,
            Action::Convert { cmd, ncm, out_dir, scope } => ActionView::Convert {
                cmd: texts(cmd@),
                ncm: ncm@,
                out_dir: out_dir@,
                scope: *scope,
            },
            Action::Separate { cmd, scope } => ActionView::Separate {
                cmd: texts(cmd@),
                scope: *scope,
            },
            Action::Stamp(p) => ActionView::Stamp(p@),
            Action::Finish => ActionView::Finish,
        }
    }
}

/// What a batch answers: what it tells the window, and what is to be done.
#[derive(Debug)]
pub struct Reply {
    pub messages: Vec<TaskMessage>,
    pub action: Action,
}

/// What a batch answers, as a value.
pub struct ReplyView {
    pub messages: Seq<MessageView>,
    pub action: ActionView,
}

impl View for Reply {
    type V = ReplyView;

    open spec fn view(&self) -> ReplyView {
        ReplyView { messages: messages_view(self.messages@), action: self.action@ }
    }
}

impl BatchView {
    /// Whether the counts make sense: no item is counted before it is done,
    /// none twice, and there is a current item wherever one is worked on.
    pub open spec fn valid(self, total: nat) -> bool {
        &&& self.next <= total
        &&& !(self.stage is Ready) && !(self.stage is Over) ==> self.next < total
        &&& self.ok + self.fail <= self.next + (if self.stage is Stamping {
            1nat
        } else {
            0nat
        })
    }

    /// Whether the batch is waiting for that event.
    pub open spec fn awaits(self, event: EventView) -> bool {
        match self.stage {
            StageView::Ready => event is Running,
            StageView::Converting => event is Converted,
            StageView::Separating(_) => event is Separated,
            StageView::Stamping => event is Stamped,
            StageView::Over => false,
        }
    }

    /// The batch at that stage.
    pub open spec fn at(self, stage: StageView) -> BatchView {
        BatchView { stage, ..self }
    }

    /// The batch ready for the item after the current one.
    pub open spec fn advanced(self) -> BatchView {
        BatchView { next: self.next + 1, stage: StageView::Ready, ..self }
    }

    /// The batch over, the current item being done.
    pub open spec fn closed(self) -> BatchView {
        BatchView { next: self.next + 1, stage: StageView::Over, ..self }
    }

    /// The batch with one more success.
    pub open spec fn succeeded(self) -> BatchView {
        BatchView { ok: self.ok + 1, ..self }
    }

    /// The batch with one more failure.
    pub open spec fn failed(self) -> BatchView {
        BatchView { fail: self.fail + 1, ..self }
    }

    /// How much a batch still has to do: it falls with every event.
    pub open spec fn left(self, total: nat) -> int {
        4 * (total - self.next) + match self.stage {
            StageView::Ready => 4int,
            StageView::Converting => 3int,
            StageView::Separating(_) => 2int,
            StageView::Stamping => 1int,
            StageView::Over => 0int,
        }
    }
}

/// A batch that has not begun.
pub open spec fn fresh() -> BatchView {
    BatchView { next: 0, ok: 0, fail: 0, stage: StageView::Ready }
}

impl Batch {
    /// A batch that has not begun.
    pub fn new() -> (batch: Batch)
        ensures
            batch@ == fresh(),
    {
        Batch { next: 0, ok: 0, fail: 0, stage: Stage::Ready }
    }
}

/// Whether an event is a success of the current item.
pub open spec fn is_success(event: EventView) -> bool {
    event matches EventView::Separated(EndView::Exited(exit)) && exit.success
}

/// Whether an event is a failure of the current item.
pub open spec fn is_failure(event: EventView) -> bool {
    match event {
        EventView::Converted(r) => r is Err,
        EventView::Separated(EndView::NotRun(_)) => true,
        EventView::Separated(EndView::Exited(exit)) => !exit.success,
        _ => false,
    }
}

/// The progress that messages tell.
pub open spec fn marks_in(messages: Seq<MessageView>) -> Seq<MarkView>
    decreases messages.len(),
{
    if messages.len() == 0 {
        Seq::empty()
    } else {
        match messages.last() {
            MessageView::Progress(m) => marks_in(messages.drop_last()).push(m),
            _ => marks_in(messages.drop_last()),
        }
    }
}

/// The progress that messages tell is that of their two parts.
pub proof fn lemma_marks_add(a: Seq<MessageView>, b: Seq<MessageView>)
    ensures
        marks_in(a + b) == marks_in(a) + marks_in(b),
    decreases b.len(),
{
    if b.len() == 0 {
        assert(a + b == a);
    } else {
        assert((a + b).drop_last() == a + b.drop_last());
        lemma_marks_add(a, b.drop_last());
    }
}

/// How many of the messages are of a kind.
pub open spec fn count_of(messages: Seq<MessageView>, kind: spec_fn(MessageView) -> bool) -> nat
    decreases messages.len(),
{
    if messages.len() == 0 {
        0
    } else {
        count_of(messages.drop_last(), kind) + if kind(messages.last()) {
            1nat
        } else {
            0nat
        }
    }
}

/// Messages of a kind are counted in two parts.
pub proof fn lemma_count_add(
    a: Seq<MessageView>,
    b: Seq<MessageView>,
    kind: spec_fn(MessageView) -> bool,
)
    ensures
        count_of(a + b, kind) == count_of(a, kind) + count_of(b, kind),
    decreases b.len(),
{
    if b.len() == 0 {
        assert(a + b == a);
    } else {
        assert((a + b).drop_last() == a + b.drop_last());
        lemma_count_add(a, b.drop_last(), kind);
    }
}

/// The messages that say that a batch is done.
pub open spec fn done() -> spec_fn(MessageView) -> bool {
    |m: MessageView| m is Done
}

/// Whether what was told ends as a batch ends: with the counts, and with the
/// only word that it is done.
pub open spec fn ends_once(told: Seq<MessageView>, what: Seq<char>, ok: nat, fail: nat) -> bool {
    &&& told.len() >= 2
    &&& told.skip(told.len() - 2) == end_messages(what, ok, fail)
    &&& count_of(told, done()) == 1
}

/// Messages that are not of a kind do not count.
proof fn lemma_count_none(messages: Seq<MessageView>, kind: spec_fn(MessageView) -> bool)
    requires
        forall|i: int| 0 <= i < messages.len() ==> !kind(#[trigger] messages[i]),
    ensures
        count_of(messages, kind) == 0,
    decreases messages.len(),
{
    if messages.len() > 0 {
        let rest = messages.drop_last();
        assert forall|i: int| 0 <= i < rest.len() implies !kind(#[trigger] rest[i]) by {
            assert(rest[i] == messages[i]);
        }
        lemma_count_none(rest, kind);
        assert(!kind(messages[messages.len() - 1]));
    }
}

/// What is told over a run ends once if each reply says that the batch is done
/// exactly when it ends, as the last thing.
pub proof fn lemma_ends_once(
    told: Seq<MessageView>,
    reply: ReplyView,
    what: Seq<char>,
    ok: nat,
    fail: nat,
)
    requires
        count_of(told, done()) == 0,
        forall|i: int|
            0 <= i < reply.messages.len() ==> ((#[trigger] reply.messages[i]) is Done <==> (
            reply.action is Finish && i == reply.messages.len() - 1)),
        reply.action is Finish ==> reply.messages.len() >= 2 && reply.messages.skip(
            reply.messages.len() - 2,
        ) == end_messages(what, ok, fail),
    ensures
        if reply.action is Finish {
            ends_once(told + reply.messages, what, ok, fail)
        } else {
            count_of(told + reply.messages, done()) == 0
        },
{
    let new = reply.messages;
    let all = told + new;
    lemma_count_add(told, new, done());
    if reply.action is Finish {
        let rest = new.drop_last();
        assert forall|i: int| 0 <= i < rest.len() implies !done()(#[trigger] rest[i]) by {
            assert(rest[i] == new[i]);
        }
        lemma_count_none(rest, done());
        assert(new[new.len() - 1] is Done);
        assert(all.skip(all.len() - 2) == new.skip(new.len() - 2));
    } else {
        lemma_count_none(new, done());
    }
}

/// How many of the events are conversions that succeeded.
pub open spec fn converted_in(events: Seq<EventView>) -> nat
    decreases events.len(),
{
    if events.len() == 0 {
        0
    } else {
        converted_in(events.drop_last()) + if events.last() matches EventView::Converted(Ok(_)) {
            1nat
        } else {
            0nat
        }
    }
}

/// How many of the events are successes.
pub open spec fn successes_in(events: Seq<EventView>) -> nat
    decreases events.len(),
{
    if events.len() == 0 {
        0
    } else {
        successes_in(events.drop_last()) + if is_success(events.last()) {
            1nat
        } else {
            0nat
        }
    }
}

/// How many of the events are failures.
pub open spec fn failures_in(events: Seq<EventView>) -> nat
    decreases events.len(),
{
    if events.len() == 0 {
        0
    } else {
        failures_in(events.drop_last()) + if is_failure(events.last()) {
            1nat
        } else {
            0nat
        }
    }
}

// ---------------------------------------------------------------------------
// Texts
// ---------------------------------------------------------------------------

/// A log entry under the name of a file.
pub open spec fn under_name(name: Seq<char>, text: Seq<char>) -> MessageView {
    MessageView::Log("\n=== "@ + name + " ===\n"@ + text)
}

/// A status that counts files.
pub open spec fn counted_status(
    what: Seq<char>,
    round: nat,
    total: nat,
    name: Seq<char>,
) -> MessageView {
    MessageView::Status(
        what + " "@ + decimal(round + 1) + "/"@ + decimal(total) + ": "@ + name,
    )
}

/// The status at the end of a batch.
pub open spec fn end_status(what: Seq<char>, ok: nat, fail: nat) -> MessageView {
    MessageView::Status(what + " "@ + decimal(ok) + ", 失败 "@ + decimal(fail))
}

/// What is told at the end of a batch.
pub open spec fn end_messages(what: Seq<char>, ok: nat, fail: nat) -> Seq<MessageView> {
    seq![end_status(what, ok, fail), MessageView::Done]
}

/// A log entry under the name of a file.
pub(crate) fn log_under(name: &str, text: &str) -> (m: TaskMessage)
    ensures
        m@ == under_name(name@, text@),
{
    let mut log = "\n=== ".to_string();
    log.append(name);
    log.append(" ===\n");
    log.append(text);
    TaskMessage::Log(log)
}

/// A log entry that says which audio is used.
pub(crate) fn log_audio(name: &str, audio: &FilePath) -> (m: TaskMessage)
    ensures
        m@ == under_name(name@, "使用音频: "@ + audio@.text + "\n"@),
{
    let mut text = "使用音频: ".to_string();
    text.append(audio.text.as_str());
    text.append("\n");
    log_under(name, text.as_str())
}

/// A log entry of a label, a text and the end of the line.
pub(crate) fn log_labelled(label: &str, text: &str) -> (m: TaskMessage)
    ensures
        m@ == MessageView::Log(label@ + text@ + "\n"@),
{
    let mut log = label.to_owned();
    log.append(text);
    log.append("\n");
    TaskMessage::Log(log)
}

/// A status that counts files.
pub(crate) fn count_status(what: &str, round: usize, total: usize, name: &str) -> (m: TaskMessage)
    requires
        round < total,
    ensures
        m@ == counted_status(what@, round as nat, total as nat, name@),
{
    let mut text = what.to_owned();
    text.append(" ");
    push_decimal(&mut text, (round + 1) as u64);
    text.append("/");
    push_decimal(&mut text, total as u64);
    text.append(": ");
    text.append(name);
    TaskMessage::Status(text)
}

/// The status at the end of a batch.
pub(crate) fn final_status(what: &str, ok: usize, fail: usize) -> (m: TaskMessage)
    ensures
        m@ == end_status(what@, ok as nat, fail as nat),
{
    let mut text = what.to_owned();
    text.append(" ");
    push_decimal(&mut text, ok as u64);
    text.append(", 失败 ");
    push_decimal(&mut text, fail as u64);
    TaskMessage::Status(text)
}

/// The directory that an NCM file is converted into: its own.
pub open spec fn conversion_dir(ncm: PathView) -> Seq<char> {
    match ncm.parent {
        Some(dir) => dir,
        None => "."@,
    }
}

/// The conversion of an NCM file.
pub open spec fn conversion_of(tool: PathView, ncm: PathView, scope: Option<Scope>) -> ActionView {
    ActionView::Convert {
        cmd: seq![tool.text, "-o"@, conversion_dir(ncm), ncm.text],
        ncm,
        out_dir: conversion_dir(ncm),
        scope,
    }
}

/// The conversion of an NCM file.
pub(crate) fn conversion(tool: &FilePath, ncm: &FilePath, scope: Option<Scope>) -> (a: Action)
    ensures
        a@ == conversion_of(tool@, ncm@, scope),
{
    let out_dir = match &ncm.parent {
        Some(dir) => dir.clone(),
        None => ".".to_string(),
    };
    let cmd = ncmdump_command(tool, out_dir.as_str(), ncm);
    Action::Convert { cmd, ncm: ncm.clone(), out_dir, scope }
}

} // verus!
