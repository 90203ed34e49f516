//! What a background task tells the window.

use crate::path::{path_opt, FilePath, PathView};
use vstd::prelude::*;

verus! {

/// The part of a file's work that a progress belongs to. A file that is
/// converted first gives a fifth of its share to the conversion and the rest
/// to the separation.
#[derive(Debug, Clone, Copy, PartialEq, Eq, Structural)]
pub enum Phase {
    Whole,
    Convert,
    Separate,
}

/// The share of the progress bar that a program may fill: a phase of the
/// file with index `round` out of `total`.
#[derive(Debug, Clone, Copy, PartialEq, Eq, Structural)]
pub struct Scope {
    pub round: usize,
    pub total: usize,
    pub phase: Phase,
}

/// A position of the progress bar.
#[derive(Debug)]
pub enum Mark {
    /// So many files out of all.
    Counted(usize, usize),
    /// So many hundredths of the share of a file.
    Within(Scope, u8),
    /// The percentage that a program spelled, within its share.
    Told(Scope, String),
    /// The end of the conversion of the file with that index, out of all.
    Converted(usize, usize),
    /// The end of the file with that index, out of all.
    FileEnd(usize, usize),
}

/// A position of the progress bar as a value.
pub enum MarkView {
    Counted(int, int),
    Within(Scope, u8),
    Told(Scope, Seq<char>),
    Converted(int, int),
    FileEnd(int, int),
}

impl View for Mark {
    type V = MarkView;

    open spec fn view(&self) -> MarkView {
        match self {
            Mark::Counted(r, n) => MarkView::Counted(*r as int, *n as int),
            Mark::Within(s, p) => MarkView::Within(*s, *p),
            Mark::Told(s, t) => MarkView::Told(*s, t@),
            Mark::Converted(r, n) => MarkView::Converted(*r as int, *n as int),
            Mark::FileEnd(r, n) => MarkView::FileEnd(*r as int, *n as int),
        }
    }
}

/// The least position within a share, in hundredths of one file's share.
pub open spec fn scope_start(scope: Scope) -> int {
    100 * scope.round + match scope.phase {
        Phase::Whole => 0int,
        Phase::Convert => 0int,
        Phase::Separate => 20int,
    }
}

/// The greatest position within a share, in hundredths of one file's share.
pub open spec fn scope_end(scope: Scope) -> int {
    100 * scope.round + match scope.phase {
        Phase::Whole => 100int,
        Phase::Convert => 20int,
        Phase::Separate => 100int,
    }
}

/// Whether a mark lies between two positions, in hundredths of one file's
/// share. A percentage that a program spelled may be anywhere in its share.
pub open spec fn mark_between(mark: MarkView, low: int, high: int) -> bool {
    match mark {
        MarkView::Counted(r, _) => low <= 100 * r <= high,
        MarkView::Within(scope, p) => low <= scope_start(scope) && scope_end(scope) <= high && p
            <= 100,
        MarkView::Told(scope, _) => low <= scope_start(scope) && scope_end(scope) <= high,
        MarkView::Converted(r, _) => low <= 100 * r + 20 <= high,
        MarkView::FileEnd(r, _) => low <= 100 * r + 100 <= high,
    }
}

/// A message of a background task.
#[derive(Debug)]
pub enum TaskMessage {
    Log(String),
    Progress(Mark),
    Status(String),
    /// The new status of the item with that index and, where there is one, the
    /// path of its audio.
    InputStatus(usize, String, Option<FilePath>),
    Done,
}

/// A message as a value.
pub enum MessageView {
    Log(Seq<char>),
    Progress(MarkView),
    Status(Seq<char>),
    InputStatus(int, Seq<char>, Option<PathView>),
    Done,
}

impl View for TaskMessage {
    type V = MessageView;

    open spec fn view(&self) -> MessageView {
        match self {
            TaskMessage::Log(s) => MessageView::Log(s@),
            TaskMessage::Progress(m) => MessageView::Progress(m@),
            TaskMessage::Status(s) => MessageView::Status(s@),
            TaskMessage::InputStatus(i, s, p) => MessageView::InputStatus(
                *i as int,
                s@,
                path_opt(*p),
            ),
            TaskMessage::Done => MessageView::Done,
        }
    }
}

/// The messages of a list as values.
pub open spec fn messages_view(list: Seq<TaskMessage>) -> Seq<MessageView> {
    list.map_values(|m: TaskMessage| m@)
}

/// Appends a message.
pub(crate) fn tell(out: &mut Vec<TaskMessage>, message: TaskMessage)
    ensures
        messages_view(final(out)@) == messages_view(old(out)@).push(message@),
{
    out.push(message);
    assert(messages_view(out@) == messages_view(old(out)@).push(message@));
}

} // verus!
