//! The meaning of transforming operations against concurrent ones.
//!
//! Positions are integers here; the `*_fits` predicates say when every
//! position that the executable transform computes stays within a
//! `usize` (and no subtraction goes below zero), which is exactly when
//! the executable transform can run.
use vstd::prelude::*;

use super::model::{min_nat, EventModel, OpModel, ParticipantId};

verus! {

/// When two inserts meet at the same position, the one from the
/// participant with the higher id goes first.
pub open spec fn has_priority(a: ParticipantId, b: ParticipantId) -> bool {
    a > b
}

/// `op` (from `author`) rewritten to apply after `other` (from
/// `other_author`) was applied to the same document. A delete that
/// straddles an insertion point is split in two, so the inserted text
/// survives: the part after the insert comes first.
pub open spec fn op_transform(
    op: OpModel,
    author: ParticipantId,
    other: OpModel,
    other_author: ParticipantId,
) -> Seq<OpModel> {
    match op {
        OpModel::Insert { pos, text } => {
            match other {
                OpModel::Insert { pos: opos, text: otext } => {
                    if opos < pos || (opos == pos && has_priority(other_author, author)) {
                        seq![OpModel::Insert { pos: pos + otext.len(), text }]
                    } else {
                        seq![op]
                    }
                },
                OpModel::Delete { start: s, end: e } => {
                    if s < pos {
                        seq![OpModel::Insert { pos: (pos - (min_nat(pos, e) - s)) as nat, text }]
                    } else {
                        seq![op]
                    }
                },
                OpModel::MoveCursor { .. } => seq![op],
            }
        },
        OpModel::Delete { start, end } => {
            match other {
                OpModel::Insert { pos: p, text: t } => {
                    if p < start {
                        seq![OpModel::Delete { start: start + t.len(), end: end + t.len() }]
                    } else if p < end && end - start > 0 {
                        seq![
                            OpModel::Delete { start: p + t.len(), end: end + t.len() },
                            OpModel::Delete { start, end: p },
                        ]
                    } else {
                        seq![op]
                    }
                },
                OpModel::Delete { start: s, end: e } => {
                    let before: int = if s < start {
                        min_nat(start, e) - s
                    } else {
                        0
                    };
                    let inside: int = if s < start {
                        if e > start {
                            min_nat(end, e) - start
                        } else {
                            0
                        }
                    } else if s < end {
                        min_nat(end, e) - s
                    } else {
                        0
                    };
                    seq![
                        OpModel::Delete {
                            start: (start - before) as nat,
                            end: (end - (before + inside)) as nat,
                        },
                    ]
                },
                OpModel::MoveCursor { .. } => seq![op],
            }
        },
        OpModel::MoveCursor { pos } => {
            match other {
                OpModel::Insert { pos: p, text: t } => {
                    if p < pos {
                        seq![OpModel::MoveCursor { pos: pos + t.len() }]
                    } else {
                        seq![op]
                    }
                },
                OpModel::Delete { start: s, end: e } => {
                    if s < pos {
                        seq![OpModel::MoveCursor { pos: (pos - (min_nat(pos, e) - s)) as nat }]
                    } else {
                        seq![op]
                    }
                },
                OpModel::MoveCursor { .. } => seq![op],
            }
        },
    }
}

/// The executable transform of `op` against `other` computes only
/// positions that fit a `usize` and subtracts nothing below zero.
pub open spec fn op_transform_fits(
    op: OpModel,
    author: ParticipantId,
    other: OpModel,
    other_author: ParticipantId,
) -> bool {
    match op {
        OpModel::Insert { pos, text } => {
            match other {
                OpModel::Insert { pos: opos, text: otext } => {
                    (opos < pos || (opos == pos && has_priority(other_author, author))) ==> pos
                        + otext.len() <= usize::MAX
                },
                OpModel::Delete { start: s, end: e } => s < pos ==> s <= e,
                OpModel::MoveCursor { .. } => true,
            }
        },
        OpModel::Delete { start, end } => {
            match other {
                OpModel::Insert { pos: p, text: t } => {
                    if p < start {
                        start + t.len() <= usize::MAX && end + t.len() <= usize::MAX
                    } else if p < end {
                        start <= end && (end - start > 0 ==> end + t.len() <= usize::MAX)
                    } else {
                        true
                    }
                },
                OpModel::Delete { start: s, end: e } => {
                    let before: int = if s < start {
                        min_nat(start, e) - s
                    } else {
                        0
                    };
                    let inside: int = if s < start {
                        if e > start {
                            min_nat(end, e) - start
                        } else {
                            0
                        }
                    } else if s < end {
                        min_nat(end, e) - s
                    } else {
                        0
                    };
                    &&& s < start ==> s <= e
                    &&& (s < start && e > start) ==> start <= end
                    &&& (start <= s < end) ==> s <= e
                    &&& before + inside <= usize::MAX
                    &&& before + inside <= end
                },
                OpModel::MoveCursor { .. } => true,
            }
        },
        OpModel::MoveCursor { pos } => {
            match other {
                OpModel::Insert { pos: p, text: t } => p < pos ==> pos + t.len() <= usize::MAX,
                OpModel::Delete { start: s, end: e } => s < pos ==> s <= e,
                OpModel::MoveCursor { .. } => true,
            }
        },
    }
}

/// Each of `group` transformed against `con`, the results in order.
pub open spec fn group_transform(
    group: Seq<OpModel>,
    author: ParticipantId,
    con: OpModel,
    con_author: ParticipantId,
) -> Seq<OpModel>
    decreases group.len(),
{
    if group.len() == 0 {
        Seq::empty()
    } else {
        op_transform(group[0], author, con, con_author) + group_transform(
            group.drop_first(),
            author,
            con,
            con_author,
        )
    }
}

pub open spec fn group_transform_fits(
    group: Seq<OpModel>,
    author: ParticipantId,
    con: OpModel,
    con_author: ParticipantId,
) -> bool {
    forall|i: int| 0 <= i < group.len() ==> op_transform_fits(#[trigger] group[i], author, con, con_author)
}

/// `cons` transformed against each of `group` in turn.
pub open spec fn through_group(
    cons: Seq<OpModel>,
    con_author: ParticipantId,
    group: Seq<OpModel>,
    author: ParticipantId,
) -> Seq<OpModel>
    decreases group.len(),
{
    if group.len() == 0 {
        cons
    } else {
        through_group(
            group_transform(cons, con_author, group[0], author),
            con_author,
            group.drop_first(),
            author,
        )
    }
}

pub open spec fn through_group_fits(
    cons: Seq<OpModel>,
    con_author: ParticipantId,
    group: Seq<OpModel>,
    author: ParticipantId,
) -> bool
    decreases group.len(),
{
    if group.len() == 0 {
        true
    } else {
        group_transform_fits(cons, con_author, group[0], author) && through_group_fits(
            group_transform(cons, con_author, group[0], author),
            con_author,
            group.drop_first(),
            author,
        )
    }
}

/// The ops that one operation of an edit became (`group`, starting as
/// that operation) after passing each of `concurrent` in turn, and the
/// concurrent operations rewritten to follow it.
pub open spec fn pass_concurrent(
    group: Seq<OpModel>,
    author: ParticipantId,
    concurrent: Seq<OpModel>,
    con_author: ParticipantId,
) -> (Seq<OpModel>, Seq<OpModel>)
    decreases concurrent.len(),
{
    if concurrent.len() == 0 {
        (group, Seq::empty())
    } else {
        let con = concurrent[0];
        let next = pass_concurrent(
            group_transform(group, author, con, con_author),
            author,
            concurrent.drop_first(),
            con_author,
        );
        (next.0, through_group(seq![con], con_author, group, author) + next.1)
    }
}

pub open spec fn pass_concurrent_fits(
    group: Seq<OpModel>,
    author: ParticipantId,
    concurrent: Seq<OpModel>,
    con_author: ParticipantId,
) -> bool
    decreases concurrent.len(),
{
    if concurrent.len() == 0 {
        true
    } else {
        let con = concurrent[0];
        &&& group_transform_fits(group, author, con, con_author)
        &&& through_group_fits(seq![con], con_author, group, author)
        &&& pass_concurrent_fits(
            group_transform(group, author, con, con_author),
            author,
            concurrent.drop_first(),
            con_author,
        )
    }
}

/// The operations of an edit from `author`, rewritten to apply after the
/// concurrent operations `concurrent` from `con_author`.
pub open spec fn ops_transform(
    ops: Seq<OpModel>,
    author: ParticipantId,
    concurrent: Seq<OpModel>,
    con_author: ParticipantId,
) -> Seq<OpModel>
    decreases ops.len(),
{
    if ops.len() == 0 {
        Seq::empty()
    } else {
        let passed = pass_concurrent(seq![ops[0]], author, concurrent, con_author);
        passed.0 + ops_transform(ops.drop_first(), author, passed.1, con_author)
    }
}

pub open spec fn ops_transform_fits(
    ops: Seq<OpModel>,
    author: ParticipantId,
    concurrent: Seq<OpModel>,
    con_author: ParticipantId,
) -> bool
    decreases ops.len(),
{
    if ops.len() == 0 {
        true
    } else {
        let passed = pass_concurrent(seq![ops[0]], author, concurrent, con_author);
        pass_concurrent_fits(seq![ops[0]], author, concurrent, con_author) && ops_transform_fits(
            ops.drop_first(),
            author,
            passed.1,
            con_author,
        )
    }
}

/// Transforming a group one operation longer adds that operation's
/// transform at the end.
pub proof fn lemma_group_transform_push(
    group: Seq<OpModel>,
    op: OpModel,
    author: ParticipantId,
    con: OpModel,
    con_author: ParticipantId,
)
    ensures
        group_transform(group.push(op), author, con, con_author) == group_transform(
            group,
            author,
            con,
            con_author,
        ) + op_transform(op, author, con, con_author),
    decreases group.len(),
{
    if group.len() == 0 {
        assert(group.push(op).drop_first() =~= Seq::<OpModel>::empty());
        assert(group.push(op)[0] == op);
        assert(group_transform(Seq::<OpModel>::empty(), author, con, con_author) == Seq::<OpModel>::empty());
        assert(group =~= Seq::<OpModel>::empty());
        assert(group_transform(group.push(op), author, con, con_author) =~= op_transform(
            op,
            author,
            con,
            con_author,
        ));
    } else {
        assert(group.push(op).drop_first() =~= group.drop_first().push(op));
        lemma_group_transform_push(group.drop_first(), op, author, con, con_author);
        assert(group_transform(group.push(op), author, con, con_author) =~= group_transform(
            group,
            author,
            con,
            con_author,
        ) + op_transform(op, author, con, con_author));
    }
}

/// An event rewritten to follow a concurrent one: only an edit following
/// an edit changes.
pub open spec fn event_transform(event: EventModel, concurrent: EventModel) -> EventModel {
    match (event, concurrent) {
        (EventModel::Edit { author, ops }, EventModel::Edit { author: con_author, ops: con_ops }) => {
            EventModel::Edit { author, ops: ops_transform(ops, author, con_ops, con_author) }
        },
        _ => event,
    }
}

pub open spec fn event_transform_fits(event: EventModel, concurrent: EventModel) -> bool {
    match (event, concurrent) {
        (EventModel::Edit { author, ops }, EventModel::Edit { author: con_author, ops: con_ops }) => {
            ops_transform_fits(ops, author, con_ops, con_author)
        },
        _ => true,
    }
}

} // verus!
