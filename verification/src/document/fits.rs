//! When the executable transform can run: every position it computes
//! fits a `usize` as long as the content and all the text that the two
//! edits insert together fit one.
use vstd::prelude::*;

use super::grid::{
    all_valid, del_end, del_start, good_group, is_chain, lemma_chain_rest, lemma_past_delete,
    lemma_single_transform, valid_delete,
};
use super::laws::{lemma_apply_one, lemma_check_one};
use super::model::{
    apply_op, apply_ops, check_ops, lemma_op_content_len, op_fits, op_len, op_valid, DocModel, OpModel,
    ParticipantId,
};
use super::squares::{lemma_check_unfold, lemma_check_valid, lemma_square_group, lemma_square_pass};
use super::transform_model::{
    group_transform, group_transform_fits, op_transform, op_transform_fits, ops_transform_fits, pass_concurrent,
    pass_concurrent_fits, through_group, through_group_fits,
};

verus! {

/// The length of the text an operation inserts.
pub open spec fn ins_len(op: OpModel) -> nat {
    match op {
        OpModel::Insert { text, .. } => text.len(),
        _ => 0,
    }
}

/// The length of all the text that operations insert.
pub open spec fn inserted(ops: Seq<OpModel>) -> nat
    decreases ops.len(),
{
    if ops.len() == 0 {
        0
    } else {
        ins_len(ops[0]) + inserted(ops.drop_first())
    }
}

pub proof fn lemma_inserted_concat(p: Seq<OpModel>, q: Seq<OpModel>)
    ensures
        inserted(p + q) == inserted(p) + inserted(q),
    decreases p.len(),
{
    if p.len() == 0 {
        assert(p + q =~= q);
    } else {
        assert((p + q)[0] == p[0]);
        assert((p + q).drop_first() =~= p.drop_first() + q);
        lemma_inserted_concat(p.drop_first(), q);
    }
}

proof fn lemma_inserted_one(x: OpModel)
    ensures
        inserted(seq![x]) == ins_len(x),
{
    assert(seq![x].drop_first() =~= Seq::<OpModel>::empty());
    assert(seq![x][0] == x);
    assert(inserted(seq![x].drop_first()) == 0);
}

/// A transformed operation inserts the same text.
pub proof fn lemma_inserted_transform(x: OpModel, a: ParticipantId, c: OpModel, b: ParticipantId)
    ensures
        inserted(op_transform(x, a, c, b)) == ins_len(x),
{
    let t = op_transform(x, a, c, b);
    if t.len() == 1 {
        lemma_inserted_one(t[0]);
        assert(t =~= seq![t[0]]);
    } else {
        assert(t.len() == 2);
        lemma_inserted_one(t[0]);
        lemma_inserted_one(t[1]);
        assert(t =~= seq![t[0]] + seq![t[1]]);
        lemma_inserted_concat(seq![t[0]], seq![t[1]]);
    }
}

pub proof fn lemma_inserted_group(g: Seq<OpModel>, a: ParticipantId, c: OpModel, b: ParticipantId)
    ensures
        inserted(group_transform(g, a, c, b)) == inserted(g),
    decreases g.len(),
{
    if g.len() > 0 {
        lemma_inserted_transform(g[0], a, c, b);
        lemma_inserted_group(g.drop_first(), a, c, b);
        lemma_inserted_concat(op_transform(g[0], a, c, b), group_transform(g.drop_first(), a, c, b));
    }
}

pub proof fn lemma_inserted_through(cs: Seq<OpModel>, b: ParticipantId, g: Seq<OpModel>, a: ParticipantId)
    ensures
        inserted(through_group(cs, b, g, a)) == inserted(cs),
    decreases g.len(),
{
    if g.len() > 0 {
        lemma_inserted_group(cs, b, g[0], a);
        lemma_inserted_through(group_transform(cs, b, g[0], a), b, g.drop_first(), a);
    }
}

/// Passing keeps the inserted text on both sides.
pub proof fn lemma_inserted_pass(g: Seq<OpModel>, a: ParticipantId, cs: Seq<OpModel>, b: ParticipantId)
    ensures
        inserted(pass_concurrent(g, a, cs, b).0) == inserted(g),
        inserted(pass_concurrent(g, a, cs, b).1) == inserted(cs),
    decreases cs.len(),
{
    if cs.len() > 0 {
        let c = cs[0];
        let g1 = group_transform(g, a, c, b);
        lemma_inserted_group(g, a, c, b);
        lemma_inserted_through(seq![c], b, g, a);
        lemma_inserted_one(c);
        lemma_inserted_pass(g1, a, cs.drop_first(), b);
        lemma_inserted_concat(through_group(seq![c], b, g, a), pass_concurrent(g1, a, cs.drop_first(), b).1);
    }
}

/// Accepted operations make the content longer by at most what they
/// insert.
pub proof fn lemma_len_after(d: DocModel, au: ParticipantId, ops: Seq<OpModel>)
    requires
        check_ops(d.content.len() as int, ops) is None,
    ensures
        apply_ops(d, au, ops).content.len() <= d.content.len() + inserted(ops),
    decreases ops.len(),
{
    if ops.len() > 0 {
        lemma_check_unfold(d.content.len() as int, ops);
        lemma_op_content_len(d.content, ops[0]);
        lemma_len_after(apply_op(d, au, ops[0]), au, ops.drop_first());
    }
}

/// Two operations that fit a content of `n` characters: one transformed
/// against the other stays within a `usize` when `n` plus the other's
/// inserted text does.
pub proof fn lemma_cell_fits(x: OpModel, a: ParticipantId, c: OpModel, b: ParticipantId, n: int)
    requires
        op_fits(n, x),
        op_fits(n, c),
        n + ins_len(c) <= usize::MAX,
    ensures
        op_transform_fits(x, a, c, b),
{
}

/// Any operation fitting a content of at most `usize::MAX` characters can
/// be transformed against a valid delete there, and still fits it.
pub proof fn lemma_fits_past_delete(c: OpModel, b: ParticipantId, g: OpModel, a: ParticipantId, n: int)
    requires
        valid_delete(g),
        del_end(g) <= n,
        op_fits(n, c),
        n <= usize::MAX,
    ensures
        op_transform_fits(c, b, g, a),
        op_transform(c, b, g, a).len() == 1,
        op_fits(n, op_transform(c, b, g, a)[0]),
{
}

proof fn lemma_through_chain_fits(c: OpModel, b: ParticipantId, g: Seq<OpModel>, a: ParticipantId, n: int)
    requires
        is_chain(g),
        forall|i: int| 0 <= i < g.len() ==> del_end(#[trigger] g[i]) <= n,
        op_fits(n, c),
        n <= usize::MAX,
    ensures
        through_group_fits(seq![c], b, g, a),
    decreases g.len(),
{
    if g.len() > 0 {
        let g0 = g[0];
        lemma_chain_rest(g);
        lemma_fits_past_delete(c, b, g0, a, n);
        lemma_past_delete(c, g0, b, a);
        lemma_single_transform(c, g0, a, b);
        let c1 = op_transform(c, b, g0, a)[0];
        assert(group_transform(seq![c], b, g0, a) =~= seq![c1]);
        assert(group_transform_fits(seq![c], b, g0, a)) by {
            assert forall|i: int| 0 <= i < seq![c].len() implies op_transform_fits(#[trigger] seq![c][i], b, g0, a) by {
                assert(seq![c][i] == c);
            }
        }
        assert forall|i: int| 0 <= i < g.drop_first().len() implies del_end(#[trigger] g.drop_first()[i]) <= n by {
            assert(g.drop_first()[i] == g[i + 1]);
        }
        lemma_through_chain_fits(c1, b, g.drop_first(), a, n);
    }
}

/// A group that fits a content of `n` characters and an operation that
/// fits it can be transformed against each other while `n` plus all the
/// text they insert fits a `usize`.
pub proof fn lemma_group_fits(d: DocModel, a: ParticipantId, g: Seq<OpModel>, b: ParticipantId, c: OpModel)
    requires
        good_group(g),
        check_ops(d.content.len() as int, g) is None,
        op_fits(d.content.len() as int, c),
        d.content.len() + inserted(g) + ins_len(c) <= usize::MAX,
    ensures
        group_transform_fits(g, a, c, b),
        through_group_fits(seq![c], b, g, a),
{
    let n = d.content.len() as int;
    lemma_check_unfold(n, g);
    if g.len() == 1 {
        let x = g[0];
        assert(g =~= seq![x]);
        lemma_inserted_one(x);
        lemma_cell_fits(x, a, c, b, n);
        lemma_cell_fits(c, b, x, a, n);
        assert(group_transform_fits(seq![c], b, x, a)) by {
            assert forall|i: int| 0 <= i < seq![c].len() implies op_transform_fits(#[trigger] seq![c][i], b, x, a) by {
                assert(seq![c][i] == c);
            }
        }
        assert(g.drop_first() =~= Seq::<OpModel>::empty());
        assert(through_group_fits(group_transform(seq![c], b, x, a), b, g.drop_first(), a));
        assert(g[0] == x);
    } else {
        assert forall|i: int| 0 <= i < g.len() implies op_transform_fits(#[trigger] g[i], a, c, b) by {
            assert(valid_delete(g[i]));
            if i > 0 {
                assert(del_end(g[i]) <= del_start(g[0]));
            }
            lemma_cell_fits(g[i], a, c, b, n);
        }
        assert forall|i: int| 0 <= i < g.len() implies del_end(#[trigger] g[i]) <= n by {
            if i > 0 {
                assert(del_end(g[i]) <= del_start(g[0]));
            }
        }
        lemma_through_chain_fits(c, b, g, a, n);
    }
}

/// A group passed through operations, all fitting the same document,
/// stays within a `usize` while the content plus all inserted text does.
pub proof fn lemma_pass_fits(d: DocModel, a: ParticipantId, g: Seq<OpModel>, b: ParticipantId, cs: Seq<OpModel>)
    requires
        a != b,
        d.cursors.dom().contains(a),
        d.cursors.dom().contains(b),
        good_group(g),
        check_ops(d.content.len() as int, g) is None,
        check_ops(d.content.len() as int, cs) is None,
        d.content.len() + inserted(g) + inserted(cs) <= usize::MAX,
    ensures
        pass_concurrent_fits(g, a, cs, b),
    decreases cs.len(),
{
    if cs.len() > 0 {
        let n = d.content.len() as int;
        let c = cs[0];
        let cr = cs.drop_first();
        lemma_check_unfold(n, cs);
        lemma_group_fits(d, a, g, b, c);
        lemma_square_group(d, a, g, b, c, false);
        lemma_check_valid(n, g);
        super::grid::lemma_good_transform(g, c, b, a);
        let g1 = group_transform(g, a, c, b);
        lemma_inserted_group(g, a, c, b);
        let d1 = apply_op(d, b, c);
        lemma_op_content_len(d.content, c);
        super::laws::lemma_apply_op_dom(d, b, c);
        lemma_pass_fits(d1, a, g1, b, cr);
    }
}

/// Two edits accepted by the same document: the transform of the first
/// against the second stays within a `usize` while the content plus all
/// the text both insert does.
pub proof fn lemma_edits_fit(d: DocModel, a: ParticipantId, xs: Seq<OpModel>, b: ParticipantId, ys: Seq<OpModel>)
    requires
        a != b,
        d.cursors.dom().contains(a),
        d.cursors.dom().contains(b),
        check_ops(d.content.len() as int, xs) is None,
        check_ops(d.content.len() as int, ys) is None,
        d.content.len() + inserted(xs) + inserted(ys) <= usize::MAX,
    ensures
        ops_transform_fits(xs, a, ys, b),
    decreases xs.len(),
{
    if xs.len() > 0 {
        let n = d.content.len() as int;
        let x = xs[0];
        let xr = xs.drop_first();
        lemma_check_unfold(n, xs);
        lemma_check_one(n, x);
        lemma_inserted_one(x);
        lemma_pass_fits(d, a, seq![x], b, ys);
        lemma_square_pass(d, a, seq![x], b, ys, false);
        lemma_inserted_pass(seq![x], a, ys, b);
        let p = pass_concurrent(seq![x], a, ys, b);
        lemma_apply_one(d, a, x);
        let d1 = apply_op(d, a, x);
        lemma_op_content_len(d.content, x);
        super::laws::lemma_apply_op_dom(d, a, x);
        lemma_edits_fit(d1, a, xr, b, p.1);
    }
}

} // verus!
