//! What the library promises of concurrent edits: transformed edits are
//! accepted, and both orders of application converge.
use vstd::prelude::*;

use super::model::{
    apply_event, apply_op, apply_ops, check_event, check_ops, cursors_within, delete_text, op_fits as model_fits, op_len, lemma_op_content_len,
    insert_text, min_nat, moved_cursor, op_content, DocModel, EventModel, OpModel, ParticipantId,
};
use super::fits::{inserted, lemma_edits_fit};
use super::grid::lemma_transform_symmetric;
use super::squares::{lemma_apply_ops_dom, lemma_check_valid, lemma_square_edits, no_empty_inserts, same_for};
use super::{check_result, Document, Edit, Event};
use super::transform_model::{event_transform_fits, event_transform, op_transform, ops_transform, pass_concurrent, group_transform, through_group};

verus! {

/// The edit made of the single operation `op` by `author`.
pub open spec fn single_edit(author: ParticipantId, op: OpModel) -> EventModel {
    EventModel::Edit { author, ops: seq![op] }
}

/// Applying `b` then `a` rewritten to follow it, and applying `a` then
/// `b` rewritten to follow it: both rewritten edits are accepted, and the
/// two documents have the same content and the same participants.
pub open spec fn converges(d: DocModel, a: ParticipantId, x: OpModel, b: ParticipantId, y: OpModel) -> bool {
    let ea = single_edit(a, x);
    let eb = single_edit(b, y);
    let d1 = merged(d, ea, eb);
    let d2 = merged(d, eb, ea);
    &&& check_event(apply_event(d, eb), event_transform(ea, eb)) is None
    &&& check_event(apply_event(d, ea), event_transform(eb, ea)) is None
    &&& d1.content == d2.content
    &&& d1.cursors.dom() == d2.cursors.dom()
}

/// In both orders of application the two authors' cursors end at the
/// same place.
pub open spec fn cursors_converge(d: DocModel, a: ParticipantId, x: OpModel, b: ParticipantId, y: OpModel) -> bool {
    let ea = single_edit(a, x);
    let eb = single_edit(b, y);
    let d1 = merged(d, ea, eb);
    let d2 = merged(d, eb, ea);
    &&& d1.cursors[a] == d2.cursors[a]
    &&& d1.cursors[b] == d2.cursors[b]
}

/// An operation other than an insert of nothing.
pub open spec fn not_empty_insert(x: OpModel) -> bool {
    match x {
        OpModel::Insert { text, .. } => text.len() > 0,
        _ => true,
    }
}

/// The document after `b` and then `a` rewritten to follow `b`.
pub open spec fn merged(d: DocModel, a: EventModel, b: EventModel) -> DocModel {
    apply_event(apply_event(d, b), event_transform(a, b))
}

proof fn lemma_insert_insert_content(s: Seq<char>, p: nat, t: Seq<char>, q: nat, u: Seq<char>)
    requires
        q <= p <= s.len(),
    ensures
        insert_text(insert_text(s, q, u), p + u.len(), t) == insert_text(insert_text(s, p, t), q, u),
{
    let l = insert_text(insert_text(s, q, u), p + u.len(), t);
    let r = insert_text(insert_text(s, p, t), q, u);
    let m = s.subrange(0, q as int) + u + s.subrange(q as int, p as int) + t + s.subrange(
        p as int,
        s.len() as int,
    );
    assert(l =~= m);
    assert(r =~= m);
}

/// The transform of a single operation against a single operation is
/// `op_transform`.
pub proof fn lemma_single_ops_transform(x: OpModel, a: ParticipantId, y: OpModel, b: ParticipantId)
    ensures
        ops_transform(seq![x], a, seq![y], b) == op_transform(x, a, y, b),
{
    let t = op_transform(x, a, y, b);
    assert(seq![x].drop_first() =~= Seq::<OpModel>::empty());
    assert(seq![y].drop_first() =~= Seq::<OpModel>::empty());
    assert(group_transform(seq![x], a, y, b) =~= t) by {
        assert(group_transform(seq![x].drop_first(), a, y, b) == Seq::<OpModel>::empty());
    }
    assert(seq![y][0] == y);
    assert(pass_concurrent(t, a, Seq::<OpModel>::empty(), b).0 == t);
    let p = pass_concurrent(seq![x], a, seq![y], b);
    assert(p.0 == t);
    assert(ops_transform(Seq::<OpModel>::empty(), a, p.1, b) == Seq::<OpModel>::empty());
    assert(ops_transform(seq![x], a, seq![y], b) =~= t);
}

/// An operation keeps the participants.
pub proof fn lemma_apply_op_dom(d: DocModel, author: ParticipantId, x: OpModel)
    ensures
        apply_op(d, author, x).cursors.dom() == d.cursors.dom(),
{
    assert(apply_op(d, author, x).cursors.dom() =~= d.cursors.dom());
}

/// Applying one operation.
pub proof fn lemma_apply_one(d: DocModel, author: ParticipantId, x: OpModel)
    ensures
        apply_ops(d, author, seq![x]) == apply_op(d, author, x),
{
    assert(seq![x].drop_first() =~= Seq::<OpModel>::empty());
    assert(seq![x][0] == x);
    assert(apply_ops(apply_op(d, author, x), author, Seq::<OpModel>::empty()) == apply_op(d, author, x));
}

/// Applying two operations.
pub proof fn lemma_apply_two(d: DocModel, author: ParticipantId, x: OpModel, y: OpModel)
    ensures
        apply_ops(d, author, seq![x, y]) == apply_op(apply_op(d, author, x), author, y),
{
    assert(seq![x, y].drop_first() =~= seq![y]);
    assert(seq![x, y][0] == x);
    lemma_apply_one(apply_op(d, author, x), author, y);
}

/// Checking one operation.
pub proof fn lemma_check_one(len: int, x: OpModel)
    ensures
        check_ops(len, seq![x]) is None <==> model_fits(len, x),
{
    assert(seq![x].drop_first() =~= Seq::<OpModel>::empty());
    assert(seq![x][0] == x);
    assert(check_ops(op_len(len, x), Seq::<OpModel>::empty()) is None);
}

/// Checking two operations.
pub proof fn lemma_check_two(len: int, x: OpModel, y: OpModel)
    ensures
        check_ops(len, seq![x, y]) is None <==> (model_fits(len, x) && model_fits(op_len(len, x), y)),
{
    assert(seq![x, y].drop_first() =~= seq![y]);
    assert(seq![x, y][0] == x);
    lemma_check_one(op_len(len, x), y);
}

/// Where the cursors of the two authors end up in both orders.
proof fn lemma_cursors_after(d: DocModel, a: ParticipantId, x: OpModel, b: ParticipantId, y: OpModel)
    requires
        d.cursors.dom().contains(a),
        d.cursors.dom().contains(b),
        op_transform(x, a, y, b).len() == 1,
        op_transform(y, b, x, a).len() == 1,
    ensures
        ({
            let da = apply_op(d, a, x);
            let db = apply_op(d, b, y);
            let xt = op_transform(x, a, y, b)[0];
            let yt = op_transform(y, b, x, a)[0];
            &&& apply_op(db, a, xt).cursors[a] == moved_cursor(xt, a, a, moved_cursor(y, b, a, d.cursors[a]))
            &&& apply_op(db, a, xt).cursors[b] == moved_cursor(xt, a, b, moved_cursor(y, b, b, d.cursors[b]))
            &&& apply_op(da, b, yt).cursors[a] == moved_cursor(yt, b, a, moved_cursor(x, a, a, d.cursors[a]))
            &&& apply_op(da, b, yt).cursors[b] == moved_cursor(yt, b, b, moved_cursor(x, a, b, d.cursors[b]))
        }),
{
    let da = apply_op(d, a, x);
    let db = apply_op(d, b, y);
    assert(da.cursors.dom().contains(a) && da.cursors.dom().contains(b));
    assert(db.cursors.dom().contains(a) && db.cursors.dom().contains(b));
}

/// Convergence of two inserts.
proof fn lemma_insert_insert(d: DocModel, a: ParticipantId, p: nat, t: Seq<char>, b: ParticipantId, q: nat, u: Seq<char>)
    requires
        a != b,
        d.cursors.dom().contains(a),
        d.cursors.dom().contains(b),
        p <= d.content.len(),
        q <= d.content.len(),
    ensures
        converges(d, a, OpModel::Insert { pos: p, text: t }, b, OpModel::Insert { pos: q, text: u }),
        t.len() > 0 && u.len() > 0 ==> cursors_converge(
            d,
            a,
            OpModel::Insert { pos: p, text: t },
            b,
            OpModel::Insert { pos: q, text: u },
        ),
{
    let x = OpModel::Insert { pos: p, text: t };
    let y = OpModel::Insert { pos: q, text: u };
    let s = d.content;
    lemma_single_ops_transform(x, a, y, b);
    lemma_single_ops_transform(y, b, x, a);
    lemma_apply_one(d, a, x);
    lemma_apply_one(d, b, y);
    let da = apply_op(d, a, x);
    let db = apply_op(d, b, y);
    let xt = op_transform(x, a, y, b);
    let yt = op_transform(y, b, x, a);
    lemma_apply_one(db, a, xt[0]);
    lemma_apply_one(da, b, yt[0]);
    lemma_check_one(db.content.len() as int, xt[0]);
    lemma_check_one(da.content.len() as int, yt[0]);
    assert(xt =~= seq![xt[0]]);
    assert(yt =~= seq![yt[0]]);
    if q < p || (q == p && b > a) {
        lemma_insert_insert_content(s, p, t, q, u);
    } else {
        lemma_insert_insert_content(s, q, u, p, t);
    }
    lemma_cursors_after(d, a, x, b, y);
}

/// Convergence of an insert and a delete.
proof fn lemma_insert_delete(d: DocModel, a: ParticipantId, p: nat, t: Seq<char>, b: ParticipantId, s: nat, e: nat)
    requires
        a != b,
        d.cursors.dom().contains(a),
        d.cursors.dom().contains(b),
        p <= d.content.len(),
        s <= e <= d.content.len(),
    ensures
        converges(d, a, OpModel::Insert { pos: p, text: t }, b, OpModel::Delete { start: s, end: e }),
        cursors_converge(d, a, OpModel::Insert { pos: p, text: t }, b, OpModel::Delete { start: s, end: e }),
{
    let x = OpModel::Insert { pos: p, text: t };
    let y = OpModel::Delete { start: s, end: e };
    let c = d.content;
    let n = c.len();
    lemma_single_ops_transform(x, a, y, b);
    lemma_single_ops_transform(y, b, x, a);
    lemma_apply_one(d, a, x);
    lemma_apply_one(d, b, y);
    let da = apply_op(d, a, x);
    let db = apply_op(d, b, y);
    let xt = op_transform(x, a, y, b);
    let yt = op_transform(y, b, x, a);
    assert(xt =~= seq![xt[0]]);
    lemma_apply_one(db, a, xt[0]);
    lemma_check_one(db.content.len() as int, xt[0]);
    assert(da.cursors.dom().contains(a) && da.cursors.dom().contains(b));
    assert(db.cursors.dom().contains(a) && db.cursors.dom().contains(b));
    if p < s {
        assert(yt =~= seq![yt[0]]);
        lemma_apply_one(da, b, yt[0]);
        lemma_check_one(da.content.len() as int, yt[0]);
        let m = c.subrange(0, p as int) + t + c.subrange(p as int, s as int) + c.subrange(e as int, n as int);
        assert(apply_op(db, a, xt[0]).content =~= m);
        assert(apply_op(da, b, yt[0]).content =~= m);
        lemma_cursors_after(d, a, x, b, y);
    } else if p < e && e - s > 0 {
        let y1 = OpModel::Delete { start: p + t.len(), end: e + t.len() };
        let y2 = OpModel::Delete { start: s, end: p };
        assert(yt =~= seq![y1, y2]);
        lemma_apply_two(da, b, y1, y2);
        lemma_check_two(da.content.len() as int, y1, y2);
        let m = c.subrange(0, s as int) + t + c.subrange(e as int, n as int);
        assert(apply_op(db, a, xt[0]).content =~= m);
        let da1 = apply_op(da, b, y1);
        assert(da1.content =~= c.subrange(0, p as int) + t + c.subrange(e as int, n as int));
        assert(apply_op(da1, b, y2).content =~= m);
        assert(da1.cursors.dom().contains(a) && da1.cursors.dom().contains(b));
        lemma_apply_op_dom(d, a, x);
        lemma_apply_op_dom(d, b, y);
        lemma_apply_op_dom(da, b, y1);
        lemma_apply_op_dom(da1, b, y2);
        lemma_apply_op_dom(db, a, xt[0]);
    } else {
        assert(yt =~= seq![yt[0]]);
        lemma_apply_one(da, b, yt[0]);
        lemma_check_one(da.content.len() as int, yt[0]);
        let m = c.subrange(0, s as int) + c.subrange(e as int, p as int) + t + c.subrange(p as int, n as int);
        assert(apply_op(db, a, xt[0]).content =~= m);
        assert(apply_op(da, b, yt[0]).content =~= m);
        lemma_cursors_after(d, a, x, b, y);
    }
}

/// Convergence of an operation and a cursor move.
proof fn lemma_with_move(d: DocModel, a: ParticipantId, x: OpModel, b: ParticipantId, m: nat)
    requires
        a != b,
        d.cursors.dom().contains(a),
        d.cursors.dom().contains(b),
        model_fits(d.content.len() as int, x),
        m <= d.content.len(),
    ensures
        converges(d, a, x, b, OpModel::MoveCursor { pos: m }),
        cursors_converge(d, a, x, b, OpModel::MoveCursor { pos: m }),
{
    let y = OpModel::MoveCursor { pos: m };
    lemma_single_ops_transform(x, a, y, b);
    lemma_single_ops_transform(y, b, x, a);
    lemma_apply_one(d, a, x);
    lemma_apply_one(d, b, y);
    let da = apply_op(d, a, x);
    let db = apply_op(d, b, y);
    let xt = op_transform(x, a, y, b);
    let yt = op_transform(y, b, x, a);
    assert(xt =~= seq![x]);
    assert(yt =~= seq![yt[0]]);
    lemma_apply_one(db, a, xt[0]);
    lemma_check_one(db.content.len() as int, xt[0]);
    lemma_apply_one(da, b, yt[0]);
    lemma_check_one(da.content.len() as int, yt[0]);
    lemma_op_content_len(d.content, x);
    lemma_apply_op_dom(d, a, x);
    lemma_apply_op_dom(d, b, y);
    lemma_apply_op_dom(da, b, yt[0]);
    lemma_apply_op_dom(db, a, xt[0]);
    lemma_cursors_after(d, a, x, b, y);
}

/// The content with both `[s1, e1)` and `[s2, e2)` removed.
pub open spec fn delete_both(c: Seq<char>, s1: nat, e1: nat, s2: nat, e2: nat) -> Seq<char> {
    if e2 <= s1 {
        c.subrange(0, s2 as int) + c.subrange(e2 as int, s1 as int) + c.subrange(e1 as int, c.len() as int)
    } else if e1 <= s2 {
        c.subrange(0, s1 as int) + c.subrange(e1 as int, s2 as int) + c.subrange(e2 as int, c.len() as int)
    } else {
        c.subrange(0, min_nat(s1, s2) as int) + c.subrange(
            (if e1 >= e2 {
                e1
            } else {
                e2
            }) as int,
            c.len() as int,
        )
    }
}

proof fn lemma_delete_both_symmetric(c: Seq<char>, s1: nat, e1: nat, s2: nat, e2: nat)
    requires
        s1 <= e1 <= c.len(),
        s2 <= e2 <= c.len(),
    ensures
        delete_both(c, s1, e1, s2, e2) == delete_both(c, s2, e2, s1, e1),
{
    if e2 <= s1 && e1 <= s2 {
        assert(delete_both(c, s1, e1, s2, e2) =~= c);
        assert(delete_both(c, s2, e2, s1, e1) =~= c);
    } else {
        assert(delete_both(c, s1, e1, s2, e2) =~= delete_both(c, s2, e2, s1, e1));
    }
}

/// Deleting `[s2, e2)` and then `[s1, e1)` rewritten to follow it
/// removes both ranges.
proof fn lemma_delete_delete_content(c: Seq<char>, a: ParticipantId, s1: nat, e1: nat, b: ParticipantId, s2: nat, e2: nat)
    requires
        s1 <= e1 <= c.len(),
        s2 <= e2 <= c.len(),
    ensures
        ({
            let xt = op_transform(OpModel::Delete { start: s1, end: e1 }, a, OpModel::Delete { start: s2, end: e2 }, b)[0];
            &&& xt is Delete
            &&& xt->start <= xt->end <= c.len() - (e2 - s2)
            &&& op_content(delete_text(c, s2, e2), xt) == delete_both(c, s1, e1, s2, e2)
        }),
{
    let n = c.len();
    let xt = op_transform(OpModel::Delete { start: s1, end: e1 }, a, OpModel::Delete { start: s2, end: e2 }, b)[0];
    let r = delete_text(c, s2, e2);
    if e2 <= s1 {
        assert(op_content(r, xt) =~= delete_both(c, s1, e1, s2, e2));
    } else if e1 <= s2 {
        assert(op_content(r, xt) =~= delete_both(c, s1, e1, s2, e2));
    } else if s2 < s1 {
        assert(op_content(r, xt) =~= delete_both(c, s1, e1, s2, e2));
    } else {
        assert(op_content(r, xt) =~= delete_both(c, s1, e1, s2, e2));
    }
}

/// Convergence of two deletes.
proof fn lemma_delete_delete(d: DocModel, a: ParticipantId, s1: nat, e1: nat, b: ParticipantId, s2: nat, e2: nat)
    requires
        a != b,
        d.cursors.dom().contains(a),
        d.cursors.dom().contains(b),
        s1 <= e1 <= d.content.len(),
        s2 <= e2 <= d.content.len(),
    ensures
        converges(d, a, OpModel::Delete { start: s1, end: e1 }, b, OpModel::Delete { start: s2, end: e2 }),
        cursors_converge(d, a, OpModel::Delete { start: s1, end: e1 }, b, OpModel::Delete { start: s2, end: e2 }),
{
    let x = OpModel::Delete { start: s1, end: e1 };
    let y = OpModel::Delete { start: s2, end: e2 };
    lemma_single_ops_transform(x, a, y, b);
    lemma_single_ops_transform(y, b, x, a);
    lemma_apply_one(d, a, x);
    lemma_apply_one(d, b, y);
    let da = apply_op(d, a, x);
    let db = apply_op(d, b, y);
    let xt = op_transform(x, a, y, b);
    let yt = op_transform(y, b, x, a);
    assert(xt =~= seq![xt[0]]);
    assert(yt =~= seq![yt[0]]);
    lemma_apply_one(db, a, xt[0]);
    lemma_check_one(db.content.len() as int, xt[0]);
    lemma_apply_one(da, b, yt[0]);
    lemma_check_one(da.content.len() as int, yt[0]);
    lemma_delete_delete_content(d.content, a, s1, e1, b, s2, e2);
    lemma_delete_delete_content(d.content, b, s2, e2, a, s1, e1);
    lemma_delete_both_symmetric(d.content, s1, e1, s2, e2);
    lemma_apply_op_dom(d, a, x);
    lemma_apply_op_dom(d, b, y);
    lemma_apply_op_dom(da, b, yt[0]);
    lemma_apply_op_dom(db, a, xt[0]);
    lemma_cursors_after(d, a, x, b, y);
}

/// Two concurrent edits of one operation each, from two different
/// participants, both accepted by document `d`: each rewritten to follow
/// the other is accepted after it, and both orders of application give
/// the same content and participants. The two authors' cursors end in
/// the same place too, unless one of the operations inserts nothing.
pub proof fn lemma_concurrent_operations_converge(
    d: DocModel,
    a: ParticipantId,
    x: OpModel,
    b: ParticipantId,
    y: OpModel,
)
    requires
        a != b,
        check_event(d, single_edit(a, x)) is None,
        check_event(d, single_edit(b, y)) is None,
    ensures
        converges(d, a, x, b, y),
        not_empty_insert(x) && not_empty_insert(y) ==> cursors_converge(d, a, x, b, y),
{
    let n = d.content.len() as int;
    lemma_check_one(n, x);
    lemma_check_one(n, y);
    match (x, y) {
        (OpModel::Insert { pos: p, text: t }, OpModel::Insert { pos: q, text: u }) => {
            lemma_insert_insert(d, a, p, t, b, q, u);
        },
        (OpModel::Insert { pos: p, text: t }, OpModel::Delete { start, end }) => {
            lemma_insert_delete(d, a, p, t, b, start, end);
        },
        (OpModel::Delete { start, end }, OpModel::Insert { pos: p, text: t }) => {
            lemma_insert_delete(d, b, p, t, a, start, end);
        },
        (OpModel::Delete { start: s1, end: e1 }, OpModel::Delete { start: s2, end: e2 }) => {
            lemma_delete_delete(d, a, s1, e1, b, s2, e2);
        },
        (_, OpModel::MoveCursor { pos }) => {
            lemma_with_move(d, a, x, b, pos);
        },
        (OpModel::MoveCursor { pos }, _) => {
            lemma_with_move(d, b, y, a, pos);
        },
    }
}

/// A participant that joins and then leaves leaves the document as it
/// found it: both events are accepted, and content and cursors are
/// restored.
pub proof fn lemma_join_then_leave(d: DocModel, id: ParticipantId)
    requires
        !d.cursors.dom().contains(id),
    ensures
        check_event(d, EventModel::Join { id }) is None,
        check_event(apply_event(d, EventModel::Join { id }), EventModel::Leave { id }) is None,
        apply_event(apply_event(d, EventModel::Join { id }), EventModel::Leave { id }) == d,
{
    let after = apply_event(apply_event(d, EventModel::Join { id }), EventModel::Leave { id });
    assert(after.cursors =~= d.cursors);
}

/// An accepted event keeps every cursor within the content.
pub proof fn lemma_accepted_event_keeps_cursors_within(d: DocModel, e: EventModel)
    requires
        cursors_within(d),
        check_event(d, e) is None,
    ensures
        cursors_within(apply_event(d, e)),
{
    match e {
        EventModel::Edit { author, ops } => lemma_accepted_ops_keep_cursors_within(d, author, ops),
        _ => {},
    }
}

proof fn lemma_accepted_ops_keep_cursors_within(d: DocModel, author: ParticipantId, ops: Seq<OpModel>)
    requires
        cursors_within(d),
        check_ops(d.content.len() as int, ops) is None,
    ensures
        cursors_within(apply_ops(d, author, ops)),
    decreases ops.len(),
{
    if ops.len() > 0 {
        let op = ops[0];
        assert(model_fits(d.content.len() as int, op));
        super::model::lemma_apply_op_cursors_within(d, author, op);
        lemma_op_content_len(d.content, op);
        lemma_accepted_ops_keep_cursors_within(apply_op(d, author, op), author, ops.drop_first());
    }
}

/// Two concurrent edits of any number of operations, from two different
/// participants, both accepted by document `d`: each rewritten to follow
/// the other is accepted after it, and both orders of application give
/// the same content and participants. Where neither edit inserts nothing,
/// the two authors' cursors end in the same places too, and where the
/// authors are then the only participants, the two documents are equal.
/// Where the content and all the text the two edits insert fit a
/// `usize`, the executable transform can rewrite each edit against the
/// other (no position it computes leaves a `usize`).
pub proof fn lemma_concurrent_edits_converge(
    d: DocModel,
    a: ParticipantId,
    xs: Seq<OpModel>,
    b: ParticipantId,
    ys: Seq<OpModel>,
)
    requires
        a != b,
        check_event(d, EventModel::Edit { author: a, ops: xs }) is None,
        check_event(d, EventModel::Edit { author: b, ops: ys }) is None,
    ensures
        ({
            let ea = EventModel::Edit { author: a, ops: xs };
            let eb = EventModel::Edit { author: b, ops: ys };
            let cursors = no_empty_inserts(xs) && no_empty_inserts(ys);
            &&& check_event(apply_event(d, eb), event_transform(ea, eb)) is None
            &&& check_event(apply_event(d, ea), event_transform(eb, ea)) is None
            &&& same_for(merged(d, ea, eb), merged(d, eb, ea), a, b, cursors)
            &&& cursors && d.cursors.dom() == set![a, b] ==> merged(d, ea, eb) == merged(d, eb, ea)
            &&& d.content.len() + inserted(xs) + inserted(ys) <= usize::MAX ==> event_transform_fits(ea, eb)
                && event_transform_fits(eb, ea)
        }),
{
    let ea = EventModel::Edit { author: a, ops: xs };
    let eb = EventModel::Edit { author: b, ops: ys };
    let cursors = no_empty_inserts(xs) && no_empty_inserts(ys);
    let n = d.content.len() as int;
    lemma_check_valid(n, xs);
    lemma_check_valid(n, ys);
    lemma_transform_symmetric(xs, a, ys, b);
    lemma_square_edits(d, a, xs, b, ys, cursors);
    lemma_apply_ops_dom(d, a, xs);
    lemma_apply_ops_dom(d, b, ys);
    let d1 = merged(d, ea, eb);
    let d2 = merged(d, eb, ea);
    lemma_apply_ops_dom(apply_ops(d, b, ys), a, ops_transform(xs, a, ys, b));
    if cursors && d.cursors.dom() == set![a, b] {
        assert(d1.cursors =~= d2.cursors);
    }
    if d.content.len() + inserted(xs) + inserted(ys) <= usize::MAX {
        lemma_edits_fit(d, a, xs, b, ys);
        lemma_edits_fit(d, b, ys, a, xs);
    }
}

/// The convergence of concurrent edits, stated for the library's own
/// values: two edits `x` and `y` by different participants, each accepted
/// by document `d` (`Document::can_apply` returns `Ok`), whose content and
/// inserted text together fit a `usize`. Then `Event::transform` may rewrite
/// each edit to follow the other; `Document::apply` returns `Ok` for each
/// rewritten edit on the document the other edit was applied to; and the two
/// documents so reached hold the same content and participants. Where
/// neither edit inserts nothing, the two authors' cursors agree, and where
/// the two authors are the document's only participants, the documents are
/// equal.
pub proof fn lemma_documents_converge(d: Document, x: Edit, y: Edit)
    requires
        d.wf(),
        x.author != y.author,
        check_event(d@, x@) is None,
        check_event(d@, y@) is None,
        d@.content.len() + inserted(x@->ops) + inserted(y@->ops) <= usize::MAX,
    ensures
        event_transform_fits(Event::Edit(x)@, Event::Edit(y)@),
        event_transform_fits(Event::Edit(y)@, Event::Edit(x)@),
        check_result(check_event(apply_event(d@, y@), event_transform(x@, y@))) is Ok,
        check_result(check_event(apply_event(d@, x@), event_transform(y@, x@))) is Ok,
        same_for(
            merged(d@, x@, y@),
            merged(d@, y@, x@),
            x.author,
            y.author,
            no_empty_inserts(x@->ops) && no_empty_inserts(y@->ops),
        ),
        no_empty_inserts(x@->ops) && no_empty_inserts(y@->ops) && d@.cursors.dom() == set![x.author, y.author]
            ==> merged(d@, x@, y@) == merged(d@, y@, x@),
{
    lemma_concurrent_edits_converge(d@, x.author, x@->ops, y.author, y@->ops);
}

} // verus!
