//! The mathematical model of documents, operations and events, and the
//! meaning of applying an event to a document.
use vstd::prelude::*;

use super::EditError;

verus! {

/// Identifies a participant of an editing session.
pub type ParticipantId = usize;

/// An operation on document content, with positions counted in Unicode
/// scalar values.
pub enum OpModel {
    Insert { pos: nat, text: Seq<char> },
    Delete { start: nat, end: nat },
    MoveCursor { pos: nat },
}

/// An event in the life of a document.
pub enum EventModel {
    Join { id: ParticipantId },
    Leave { id: ParticipantId },
    Edit { author: ParticipantId, ops: Seq<OpModel> },
}

/// A document: its content and the cursor of each participant.
pub struct DocModel {
    pub content: Seq<char>,
    pub cursors: Map<ParticipantId, nat>,
}

pub open spec fn min_nat(a: nat, b: nat) -> nat {
    if a <= b {
        a
    } else {
        b
    }
}

/// An operation that could describe a change to some document: a
/// delete never ends before it starts.
pub open spec fn op_valid(op: OpModel) -> bool {
    match op {
        OpModel::Delete { start, end } => start <= end,
        _ => true,
    }
}

/// `s` with `t` inserted before position `pos`.
pub open spec fn insert_text(s: Seq<char>, pos: nat, t: Seq<char>) -> Seq<char> {
    s.subrange(0, pos as int) + t + s.subrange(pos as int, s.len() as int)
}

/// `s` without the characters in `[start, end)`.
pub open spec fn delete_text(s: Seq<char>, start: nat, end: nat) -> Seq<char> {
    s.subrange(0, start as int) + s.subrange(end as int, s.len() as int)
}

/// The content after an operation.
pub open spec fn op_content(s: Seq<char>, op: OpModel) -> Seq<char> {
    match op {
        OpModel::Insert { pos, text } => insert_text(s, pos, text),
        OpModel::Delete { start, end } => delete_text(s, start, end),
        OpModel::MoveCursor { .. } => s,
    }
}

/// Where the cursor `c` of participant `id` lies after `author` performed `op`.
/// The author's cursor ends after the inserted text, at the start of a
/// delete, or at the position moved to; other cursors shift with the
/// content before them.
pub open spec fn moved_cursor(op: OpModel, author: ParticipantId, id: ParticipantId, c: nat) -> nat {
    match op {
        OpModel::Insert { pos, text } => {
            if id == author {
                pos + text.len()
            } else if c > pos {
                c + text.len()
            } else {
                c
            }
        },
        OpModel::Delete { start, end } => {
            if id == author {
                start
            } else if c > start {
                (c - (min_nat(end, c) - start)) as nat
            } else {
                c
            }
        },
        OpModel::MoveCursor { pos } => {
            if id == author {
                pos
            } else {
                c
            }
        },
    }
}

/// The document after `author` performed `op` on it.
pub open spec fn apply_op(d: DocModel, author: ParticipantId, op: OpModel) -> DocModel {
    DocModel {
        content: op_content(d.content, op),
        cursors: Map::new(
            |id: ParticipantId| d.cursors.dom().contains(id),
            |id: ParticipantId| moved_cursor(op, author, id, d.cursors[id]),
        ),
    }
}

/// The document after `author` performed each of `ops` in turn.
pub open spec fn apply_ops(d: DocModel, author: ParticipantId, ops: Seq<OpModel>) -> DocModel
    decreases ops.len(),
{
    if ops.len() == 0 {
        d
    } else {
        apply_ops(apply_op(d, author, ops[0]), author, ops.drop_first())
    }
}

/// Checks each of `ops` in turn against a content of `len` characters,
/// the length changing as each operation would change it: the first
/// operation that is invalid or reaches outside the content decides.
pub open spec fn check_ops(len: int, ops: Seq<OpModel>) -> Option<EditError>
    decreases ops.len(),
{
    if ops.len() == 0 {
        None
    } else {
        match ops[0] {
            OpModel::Insert { pos, text } => {
                if pos > len {
                    Some(EditError::OutsideDocument)
                } else {
                    check_ops(len + text.len(), ops.drop_first())
                }
            },
            OpModel::Delete { start, end } => {
                if end < start {
                    Some(EditError::InvalidOperation)
                } else if start > len || end > len {
                    Some(EditError::OutsideDocument)
                } else {
                    check_ops(len - (end - start), ops.drop_first())
                }
            },
            OpModel::MoveCursor { pos } => {
                if pos > len {
                    Some(EditError::OutsideDocument)
                } else {
                    check_ops(len, ops.drop_first())
                }
            },
        }
    }
}

/// Whether `event` can be applied to `d`, and if not, why.
pub open spec fn check_event(d: DocModel, event: EventModel) -> Option<EditError> {
    match event {
        EventModel::Edit { author, ops } => {
            if !d.cursors.dom().contains(author) {
                Some(EditError::InvalidOperation)
            } else {
                check_ops(d.content.len() as int, ops)
            }
        },
        EventModel::Join { id } => {
            if d.cursors.dom().contains(id) {
                Some(EditError::InvalidOperation)
            } else {
                None
            }
        },
        EventModel::Leave { id } => {
            if d.cursors.dom().contains(id) {
                None
            } else {
                Some(EditError::InvalidOperation)
            }
        },
    }
}

/// The document after `event`, when the event can be applied. A joining
/// participant starts with its cursor at the beginning of the content.
pub open spec fn apply_event(d: DocModel, event: EventModel) -> DocModel {
    match event {
        EventModel::Edit { author, ops } => apply_ops(d, author, ops),
        EventModel::Join { id } => DocModel { content: d.content, cursors: d.cursors.insert(id, 0) },
        EventModel::Leave { id } => DocModel { content: d.content, cursors: d.cursors.remove(id) },
    }
}

/// Every cursor lies within the content.
pub open spec fn cursors_within(d: DocModel) -> bool {
    forall|id: ParticipantId| #[trigger] d.cursors.dom().contains(id) ==> d.cursors[id] <= d.content.len()
}

/// `op` can be performed on a content of `len` characters.
pub open spec fn op_fits(len: int, op: OpModel) -> bool {
    &&& op_valid(op)
    &&& match op {
        OpModel::Insert { pos, .. } => pos <= len,
        OpModel::Delete { start, end } => start <= len && end <= len,
        OpModel::MoveCursor { pos } => pos <= len,
    }
}

/// The length of the content after `op`.
pub open spec fn op_len(len: int, op: OpModel) -> int {
    match op {
        OpModel::Insert { text, .. } => len + text.len(),
        OpModel::Delete { start, end } => len - (end - start),
        OpModel::MoveCursor { .. } => len,
    }
}

pub proof fn lemma_op_content_len(s: Seq<char>, op: OpModel)
    requires
        op_fits(s.len() as int, op),
    ensures
        op_content(s, op).len() == op_len(s.len() as int, op),
{
}

/// Performing a fitting operation keeps every cursor within the content.
pub proof fn lemma_apply_op_cursors_within(d: DocModel, author: ParticipantId, op: OpModel)
    requires
        cursors_within(d),
        op_fits(d.content.len() as int, op),
    ensures
        cursors_within(apply_op(d, author, op)),
{
    lemma_op_content_len(d.content, op);
}

} // verus!
