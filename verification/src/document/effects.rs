//! What each operation does to a document, and what rewriting an event
//! against a concurrent one leaves alone, stated character by character and
//! cursor by cursor.
use vstd::prelude::*;

use super::model::{
    apply_event, apply_op, apply_ops, check_event, check_ops, lemma_op_content_len, op_fits, DocModel, EventModel, OpModel,
    ParticipantId,
};
use super::EditError;
use super::squares::lemma_apply_ops_dom;
use super::transform_model::{event_transform, event_transform_fits};

verus! {

/// An insert of `text` at `pos`: the content keeps what came before `pos`,
/// then holds `text`, then what came from `pos` on; the author's cursor ends
/// just after the inserted text, and every other cursor past `pos` moves on
/// by the length of the text while the others stay.
pub proof fn lemma_insert_effect(d: DocModel, a: ParticipantId, pos: nat, text: Seq<char>)
    requires
        pos <= d.content.len(),
    ensures
        ({
            let r = apply_op(d, a, OpModel::Insert { pos, text });
            &&& r.content.len() == d.content.len() + text.len()
            &&& forall|i: int| 0 <= i < pos ==> r.content[i] == d.content[i]
            &&& forall|i: int| 0 <= i < text.len() ==> r.content[pos + i] == text[i]
            &&& forall|i: int| pos <= i < d.content.len() ==> r.content[i + text.len()] == d.content[i]
            &&& r.cursors.dom() == d.cursors.dom()
            &&& d.cursors.contains_key(a) ==> r.cursors[a] == pos + text.len()
            &&& forall|id: ParticipantId|
                id != a && #[trigger] d.cursors.contains_key(id) ==> r.cursors[id] == if d.cursors[id] > pos {
                    d.cursors[id] + text.len()
                } else {
                    d.cursors[id]
                }
        }),
{
    let r = apply_op(d, a, OpModel::Insert { pos, text });
    assert(r.cursors.dom() =~= d.cursors.dom());
    assert forall|i: int| 0 <= i < text.len() implies r.content[pos + i] == text[i] by {}
    assert forall|i: int| pos <= i < d.content.len() implies r.content[i + text.len()] == d.content[i] by {}
}

/// A delete of `[start, end)`: the content keeps what came before `start`
/// and then what came from `end` on; the author's cursor ends at `start`,
/// a cursor inside the deleted range moves to `start`, a cursor past it
/// moves back by the length of the range, and a cursor before it stays.
pub proof fn lemma_delete_effect(d: DocModel, a: ParticipantId, start: nat, end: nat)
    requires
        start <= end <= d.content.len(),
    ensures
        ({
            let r = apply_op(d, a, OpModel::Delete { start, end });
            &&& r.content.len() == d.content.len() - (end - start)
            &&& forall|i: int| 0 <= i < start ==> r.content[i] == d.content[i]
            &&& forall|i: int| end <= i < d.content.len() ==> r.content[i - (end - start)] == d.content[i]
            &&& r.cursors.dom() == d.cursors.dom()
            &&& d.cursors.contains_key(a) ==> r.cursors[a] == start
            &&& forall|id: ParticipantId|
                id != a && #[trigger] d.cursors.contains_key(id) ==> r.cursors[id] == if d.cursors[id] <= start {
                    d.cursors[id] as int
                } else if d.cursors[id] <= end {
                    start as int
                } else {
                    d.cursors[id] - (end - start)
                }
        }),
{
    let r = apply_op(d, a, OpModel::Delete { start, end });
    assert(r.cursors.dom() =~= d.cursors.dom());
    assert forall|i: int| end <= i < d.content.len() implies r.content[i - (end - start)] == d.content[i] by {}
}

/// Moving the cursor to `pos` changes no content, sets the author's cursor
/// to `pos` and leaves every other cursor where it was.
pub proof fn lemma_move_cursor_effect(d: DocModel, a: ParticipantId, pos: nat)
    requires
        d.cursors.contains_key(a),
    ensures
        apply_op(d, a, OpModel::MoveCursor { pos }) == (DocModel { content: d.content, cursors: d.cursors.insert(a, pos) }),
{
    let r = apply_op(d, a, OpModel::MoveCursor { pos });
    assert(r.cursors =~= d.cursors.insert(a, pos));
}

/// Performing `ops` and then `op` is performing `ops.push(op)`.
proof fn lemma_apply_ops_push(d: DocModel, a: ParticipantId, ops: Seq<OpModel>, op: OpModel)
    ensures
        apply_ops(d, a, ops.push(op)) == apply_op(apply_ops(d, a, ops), a, op),
    decreases ops.len(),
{
    if ops.len() == 0 {
        assert(ops.push(op).drop_first() =~= Seq::<OpModel>::empty());
        assert(ops.push(op)[0] == op);
        assert(apply_ops(apply_op(d, a, op), a, Seq::<OpModel>::empty()) == apply_op(d, a, op));
        assert(apply_ops(d, a, ops) == d);
    } else {
        assert(ops.push(op).drop_first() =~= ops.drop_first().push(op));
        assert(ops.push(op)[0] == ops[0]);
        lemma_apply_ops_push(apply_op(d, a, ops[0]), a, ops.drop_first(), op);
    }
}

/// After a document accepts an edit by `a` whose last operation moves the
/// cursor to `pos`, the cursor of `a` is at `pos`, the content is what the
/// operations before it left, and every other participant's cursor is
/// where those operations left it.
pub proof fn lemma_edit_ending_in_move(d: DocModel, a: ParticipantId, ops: Seq<OpModel>, pos: nat)
    requires
        check_event(d, EventModel::Edit { author: a, ops: ops.push(OpModel::MoveCursor { pos }) }) is None,
    ensures
        ({
            let before = apply_event(d, EventModel::Edit { author: a, ops });
            let after = apply_event(d, EventModel::Edit { author: a, ops: ops.push(OpModel::MoveCursor { pos }) });
            &&& after.cursors.contains_key(a)
            &&& after.cursors[a] == pos
            &&& after.content == before.content
            &&& after.cursors == before.cursors.insert(a, pos)
        }),
{
    lemma_apply_ops_push(d, a, ops, OpModel::MoveCursor { pos });
    lemma_apply_ops_dom(d, a, ops);
    lemma_move_cursor_effect(apply_ops(d, a, ops), a, pos);
}

/// Rewriting an event against a concurrent join or leave, or rewriting a
/// join or leave against anything, leaves the event as it is, and always
/// succeeds.
pub proof fn lemma_transform_against_membership(e: EventModel, c: EventModel)
    requires
        !(e is Edit) || !(c is Edit),
    ensures
        event_transform(e, c) == e,
        event_transform_fits(e, c),
{
}

/// Rewriting an edit against a concurrent edit keeps its author.
pub proof fn lemma_transform_keeps_author(a: ParticipantId, xs: Seq<OpModel>, c: EventModel)
    ensures
        event_transform(EventModel::Edit { author: a, ops: xs }, c) matches EventModel::Edit { author, .. }
            && author == a,
{
}

/// Whether a document accepts an edit of one operation, and why not: an
/// author who is not a participant, or a delete that ends before it
/// starts, is an invalid operation; a position past the end of the content
/// is outside the document.
pub proof fn lemma_single_operation_accepted(d: DocModel, a: ParticipantId, op: OpModel)
    ensures
        check_event(d, EventModel::Edit { author: a, ops: seq![op] }) == if !d.cursors.contains_key(a) {
            Some(EditError::InvalidOperation)
        } else {
            match op {
                OpModel::Insert { pos, .. } => if pos > d.content.len() {
                    Some(EditError::OutsideDocument)
                } else {
                    None
                },
                OpModel::Delete { start, end } => if end < start {
                    Some(EditError::InvalidOperation)
                } else if start > d.content.len() || end > d.content.len() {
                    Some(EditError::OutsideDocument)
                } else {
                    None
                },
                OpModel::MoveCursor { pos } => if pos > d.content.len() {
                    Some(EditError::OutsideDocument)
                } else {
                    None
                },
            }
        },
{
    assert(seq![op].drop_first() =~= Seq::<OpModel>::empty());
    assert(seq![op][0] == op);
    let len = d.content.len() as int;
    assert(seq![op].len() == 1);
    match op {
        OpModel::Insert { pos, text } => {
            assert(check_ops(len + text.len(), Seq::<OpModel>::empty()) is None);
        },
        OpModel::Delete { start, end } => {
            assert(check_ops(len - (end - start), Seq::<OpModel>::empty()) is None);
        },
        OpModel::MoveCursor { pos } => {
            assert(check_ops(len, Seq::<OpModel>::empty()) is None);
        },
    }
}

proof fn lemma_check_push(d: DocModel, a: ParticipantId, ops: Seq<OpModel>, op: OpModel)
    requires
        check_ops(d.content.len() as int, ops) is None,
    ensures
        check_ops(d.content.len() as int, ops.push(op)) == check_ops(
            apply_ops(d, a, ops).content.len() as int,
            seq![op],
        ),
    decreases ops.len(),
{
    if ops.len() == 0 {
        assert(ops.push(op) =~= seq![op]);
    } else {
        let x = ops[0];
        assert(ops.push(op)[0] == x);
        assert(ops.push(op).drop_first() =~= ops.drop_first().push(op));
        assert(op_fits(d.content.len() as int, x));
        lemma_op_content_len(d.content, x);
        lemma_check_push(apply_op(d, a, x), a, ops.drop_first(), op);
    }
}

proof fn lemma_check_push_fails(len: int, ops: Seq<OpModel>, op: OpModel)
    requires
        check_ops(len, ops) is Some,
    ensures
        check_ops(len, ops.push(op)) == check_ops(len, ops),
    decreases ops.len(),
{
    let x = ops[0];
    assert(ops.push(op)[0] == x);
    assert(ops.push(op).drop_first() =~= ops.drop_first().push(op));
    match x {
        OpModel::Insert { pos, text } => {
            if pos <= len {
                lemma_check_push_fails(len + text.len(), ops.drop_first(), op);
            }
        },
        OpModel::Delete { start, end } => {
            if end >= start && start <= len && end <= len {
                lemma_check_push_fails(len - (end - start), ops.drop_first(), op);
            }
        },
        OpModel::MoveCursor { pos } => {
            if pos <= len {
                lemma_check_push_fails(len, ops.drop_first(), op);
            }
        },
    }
}

/// An edit with one more operation at its end is accepted exactly when the
/// edit without it is, and that operation alone is accepted by the
/// document the shorter edit leaves; where the shorter edit is refused,
/// the longer one is refused for the same reason.
pub proof fn lemma_edit_accepted_step(d: DocModel, a: ParticipantId, ops: Seq<OpModel>, op: OpModel)
    ensures
        ({
            let shorter = EventModel::Edit { author: a, ops };
            let longer = EventModel::Edit { author: a, ops: ops.push(op) };
            &&& check_event(d, shorter) is None ==> check_event(d, longer) == check_event(
                apply_event(d, shorter),
                EventModel::Edit { author: a, ops: seq![op] },
            )
            &&& check_event(d, shorter) is Some ==> check_event(d, longer) == check_event(d, shorter)
        }),
{
    if d.cursors.contains_key(a) {
        if check_ops(d.content.len() as int, ops) is None {
            lemma_check_push(d, a, ops, op);
            super::squares::lemma_apply_ops_dom(d, a, ops);
        } else {
            lemma_check_push_fails(d.content.len() as int, ops, op);
        }
    }
}

/// A document accepts a join exactly from someone who is not a participant,
/// and then holds the same content with the newcomer's cursor at the
/// beginning; it accepts a leave exactly from a participant, and then holds
/// the same content without that participant. Other cursors stay.
pub proof fn lemma_membership_effect(d: DocModel, id: ParticipantId)
    ensures
        check_event(d, EventModel::Join { id }) is None <==> !d.cursors.contains_key(id),
        check_event(d, EventModel::Leave { id }) is None <==> d.cursors.contains_key(id),
        apply_event(d, EventModel::Join { id }).content == d.content,
        apply_event(d, EventModel::Join { id }).cursors.contains_key(id),
        apply_event(d, EventModel::Join { id }).cursors[id] == 0,
        forall|other: ParticipantId|
            other != id ==> (#[trigger] apply_event(d, EventModel::Join { id }).cursors.contains_key(other)
                <==> d.cursors.contains_key(other)),
        apply_event(d, EventModel::Leave { id }).content == d.content,
        !apply_event(d, EventModel::Leave { id }).cursors.contains_key(id),
        forall|other: ParticipantId|
            other != id ==> (#[trigger] apply_event(d, EventModel::Leave { id }).cursors.contains_key(other)
                <==> d.cursors.contains_key(other)),
        forall|other: ParticipantId|
            other != id && d.cursors.contains_key(other) ==> #[trigger] apply_event(d, EventModel::Join { id }).cursors[other]
                == d.cursors[other] && apply_event(d, EventModel::Leave { id }).cursors[other] == d.cursors[other],
{
}

} // verus!
