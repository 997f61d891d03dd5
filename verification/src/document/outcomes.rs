//! What two concurrent single-operation edits leave in the content once
//! both are applied (in either order), written out character range by
//! character range.
use vstd::prelude::*;

use super::laws::{lemma_apply_one, lemma_apply_two, lemma_single_ops_transform, merged, single_edit};
use super::model::{apply_event, apply_op, op_content, DocModel, EventModel, OpModel, ParticipantId};
use super::transform_model::{event_transform, op_transform};

verus! {

/// The content after `y` by `b` and then `x` by `a` rewritten to follow it.
proof fn lemma_merged_content(d: DocModel, a: ParticipantId, x: OpModel, b: ParticipantId, y: OpModel)
    ensures
        ({
            let t = op_transform(x, a, y, b);
            let after_y = op_content(d.content, y);
            &&& t.len() == 1 ==> merged(d, single_edit(a, x), single_edit(b, y)).content == op_content(after_y, t[0])
            &&& t.len() == 2 ==> merged(d, single_edit(a, x), single_edit(b, y)).content == op_content(
                op_content(after_y, t[0]),
                t[1],
            )
        }),
{
    let t = op_transform(x, a, y, b);
    lemma_single_ops_transform(x, a, y, b);
    lemma_apply_one(d, b, y);
    let d1 = apply_op(d, b, y);
    assert(apply_event(d, single_edit(b, y)) == d1);
    assert(event_transform(single_edit(a, x), single_edit(b, y)) == (EventModel::Edit { author: a, ops: t }));
    if t.len() == 1 {
        assert(t =~= seq![t[0]]);
        lemma_apply_one(d1, a, t[0]);
    }
    if t.len() == 2 {
        assert(t =~= seq![t[0], t[1]]);
        lemma_apply_two(d1, a, t[0], t[1]);
    }
}

/// Two participants insert at the same position at the same time: once
/// both inserts are applied, in either order, the text of the participant
/// with the higher id comes first, and the rest of the content is kept.
pub proof fn lemma_inserts_at_one_position(
    d: DocModel,
    a: ParticipantId,
    ta: Seq<char>,
    b: ParticipantId,
    tb: Seq<char>,
    pos: nat,
)
    requires
        a != b,
        pos <= d.content.len(),
    ensures
        ({
            let x = OpModel::Insert { pos, text: ta };
            let y = OpModel::Insert { pos, text: tb };
            let s = d.content;
            let expected = s.subrange(0, pos as int) + (if a > b {
                ta + tb
            } else {
                tb + ta
            }) + s.subrange(pos as int, s.len() as int);
            &&& merged(d, single_edit(a, x), single_edit(b, y)).content == expected
            &&& merged(d, single_edit(b, y), single_edit(a, x)).content == expected
        }),
{
    let x = OpModel::Insert { pos, text: ta };
    let y = OpModel::Insert { pos, text: tb };
    let s = d.content;
    let expected = s.subrange(0, pos as int) + (if a > b {
        ta + tb
    } else {
        tb + ta
    }) + s.subrange(pos as int, s.len() as int);
    lemma_merged_content(d, a, x, b, y);
    lemma_merged_content(d, b, y, a, x);
    assert(merged(d, single_edit(a, x), single_edit(b, y)).content =~= expected);
    assert(merged(d, single_edit(b, y), single_edit(a, x)).content =~= expected);
}

/// Two participants insert at different positions at the same time: once
/// both inserts are applied, in either order, each text stands where its
/// participant put it in the original content.
pub proof fn lemma_inserts_at_two_positions(
    d: DocModel,
    a: ParticipantId,
    pa: nat,
    ta: Seq<char>,
    b: ParticipantId,
    pb: nat,
    tb: Seq<char>,
)
    requires
        pa < pb <= d.content.len(),
    ensures
        ({
            let x = OpModel::Insert { pos: pa, text: ta };
            let y = OpModel::Insert { pos: pb, text: tb };
            let s = d.content;
            let expected = s.subrange(0, pa as int) + ta + s.subrange(pa as int, pb as int) + tb + s.subrange(
                pb as int,
                s.len() as int,
            );
            &&& merged(d, single_edit(a, x), single_edit(b, y)).content == expected
            &&& merged(d, single_edit(b, y), single_edit(a, x)).content == expected
        }),
{
    let x = OpModel::Insert { pos: pa, text: ta };
    let y = OpModel::Insert { pos: pb, text: tb };
    let s = d.content;
    let expected = s.subrange(0, pa as int) + ta + s.subrange(pa as int, pb as int) + tb + s.subrange(
        pb as int,
        s.len() as int,
    );
    lemma_merged_content(d, a, x, b, y);
    lemma_merged_content(d, b, y, a, x);
    assert(merged(d, single_edit(a, x), single_edit(b, y)).content =~= expected);
    assert(merged(d, single_edit(b, y), single_edit(a, x)).content =~= expected);
}

/// A participant deletes a range while another inserts strictly inside it:
/// once both are applied, in either order, the range is gone but the
/// inserted text survives in its place.
pub proof fn lemma_insert_inside_delete(
    d: DocModel,
    a: ParticipantId,
    start: nat,
    end: nat,
    b: ParticipantId,
    pos: nat,
    t: Seq<char>,
)
    requires
        start < pos < end <= d.content.len(),
    ensures
        ({
            let x = OpModel::Delete { start, end };
            let y = OpModel::Insert { pos, text: t };
            let s = d.content;
            let expected = s.subrange(0, start as int) + t + s.subrange(end as int, s.len() as int);
            &&& merged(d, single_edit(a, x), single_edit(b, y)).content == expected
            &&& merged(d, single_edit(b, y), single_edit(a, x)).content == expected
        }),
{
    let x = OpModel::Delete { start, end };
    let y = OpModel::Insert { pos, text: t };
    let s = d.content;
    let expected = s.subrange(0, start as int) + t + s.subrange(end as int, s.len() as int);
    lemma_merged_content(d, a, x, b, y);
    lemma_merged_content(d, b, y, a, x);
    assert(merged(d, single_edit(a, x), single_edit(b, y)).content =~= expected);
    assert(merged(d, single_edit(b, y), single_edit(a, x)).content =~= expected);
}

/// Two participants delete ranges at the same time: once both deletes are
/// applied, in either order, what is left is the content without either
/// range, where the ranges are apart ...
pub proof fn lemma_deletes_apart(
    d: DocModel,
    a: ParticipantId,
    s1: nat,
    e1: nat,
    b: ParticipantId,
    s2: nat,
    e2: nat,
)
    requires
        s1 <= e1 <= s2 <= e2 <= d.content.len(),
    ensures
        ({
            let x = OpModel::Delete { start: s1, end: e1 };
            let y = OpModel::Delete { start: s2, end: e2 };
            let s = d.content;
            let expected = s.subrange(0, s1 as int) + s.subrange(e1 as int, s2 as int) + s.subrange(
                e2 as int,
                s.len() as int,
            );
            &&& merged(d, single_edit(a, x), single_edit(b, y)).content == expected
            &&& merged(d, single_edit(b, y), single_edit(a, x)).content == expected
        }),
{
    let x = OpModel::Delete { start: s1, end: e1 };
    let y = OpModel::Delete { start: s2, end: e2 };
    let s = d.content;
    let expected = s.subrange(0, s1 as int) + s.subrange(e1 as int, s2 as int) + s.subrange(e2 as int, s.len() as int);
    lemma_merged_content(d, a, x, b, y);
    lemma_merged_content(d, b, y, a, x);
    assert(merged(d, single_edit(a, x), single_edit(b, y)).content =~= expected);
    assert(merged(d, single_edit(b, y), single_edit(a, x)).content =~= expected);
}

/// ... and where they overlap, the content without their union.
pub proof fn lemma_deletes_overlapping(
    d: DocModel,
    a: ParticipantId,
    s1: nat,
    e1: nat,
    b: ParticipantId,
    s2: nat,
    e2: nat,
)
    requires
        s1 <= s2 <= e1 <= e2 <= d.content.len(),
    ensures
        ({
            let x = OpModel::Delete { start: s1, end: e1 };
            let y = OpModel::Delete { start: s2, end: e2 };
            let s = d.content;
            let expected = s.subrange(0, s1 as int) + s.subrange(e2 as int, s.len() as int);
            &&& merged(d, single_edit(a, x), single_edit(b, y)).content == expected
            &&& merged(d, single_edit(b, y), single_edit(a, x)).content == expected
        }),
{
    let x = OpModel::Delete { start: s1, end: e1 };
    let y = OpModel::Delete { start: s2, end: e2 };
    let s = d.content;
    let expected = s.subrange(0, s1 as int) + s.subrange(e2 as int, s.len() as int);
    lemma_merged_content(d, a, x, b, y);
    lemma_merged_content(d, b, y, a, x);
    assert(merged(d, single_edit(a, x), single_edit(b, y)).content =~= expected);
    assert(merged(d, single_edit(b, y), single_edit(a, x)).content =~= expected);
}

} // verus!
