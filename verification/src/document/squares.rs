//! Both orders of application agree: one operation, then a group, then
//! a whole edit, passed through the other side.
use vstd::prelude::*;

use super::grid::{
    all_valid, good_group, is_chain, lemma_chain_rest, lemma_good_transform, lemma_group_below, lemma_past_delete,
    lemma_single_transform, ops_transform_rest,
};
use super::laws::{
    lemma_apply_one, lemma_apply_op_dom, lemma_check_one, lemma_concurrent_operations_converge,
    lemma_single_ops_transform, not_empty_insert, single_edit,
};
use super::model::{
    apply_event, apply_op, apply_ops, check_ops, lemma_op_content_len, op_fits, op_len, op_valid, DocModel,
    OpModel, ParticipantId,
};
use super::transform_model::{group_transform, op_transform, ops_transform, pass_concurrent, through_group};

verus! {

/// Two documents with the same content and participants, where (if
/// `cursors`) the participants `a` and `b` have their cursors in the same
/// places.
pub open spec fn same_for(d1: DocModel, d2: DocModel, a: ParticipantId, b: ParticipantId, cursors: bool) -> bool {
    &&& d1.content == d2.content
    &&& d1.cursors.dom() == d2.cursors.dom()
    &&& d1.cursors.dom().contains(a)
    &&& d1.cursors.dom().contains(b)
    &&& cursors ==> d1.cursors[a] == d2.cursors[a]
    &&& cursors ==> d1.cursors[b] == d2.cursors[b]
}

/// No operation inserts nothing.
pub open spec fn no_empty_inserts(ops: Seq<OpModel>) -> bool {
    forall|i: int| 0 <= i < ops.len() ==> not_empty_insert(#[trigger] ops[i])
}

proof fn lemma_same_step(
    d1: DocModel,
    d2: DocModel,
    a: ParticipantId,
    b: ParticipantId,
    au: ParticipantId,
    op: OpModel,
    k: bool,
)
    requires
        same_for(d1, d2, a, b, k),
    ensures
        same_for(apply_op(d1, au, op), apply_op(d2, au, op), a, b, k),
{
    lemma_apply_op_dom(d1, au, op);
    lemma_apply_op_dom(d2, au, op);
}

/// The same operations keep two such documents alike.
pub proof fn lemma_same_ops(
    d1: DocModel,
    d2: DocModel,
    a: ParticipantId,
    b: ParticipantId,
    au: ParticipantId,
    ops: Seq<OpModel>,
    k: bool,
)
    requires
        same_for(d1, d2, a, b, k),
    ensures
        same_for(apply_ops(d1, au, ops), apply_ops(d2, au, ops), a, b, k),
    decreases ops.len(),
{
    if ops.len() > 0 {
        lemma_same_step(d1, d2, a, b, au, ops[0], k);
        lemma_same_ops(apply_op(d1, au, ops[0]), apply_op(d2, au, ops[0]), a, b, au, ops.drop_first(), k);
    }
}

/// Performing two runs of operations in turn.
pub proof fn lemma_apply_concat(d: DocModel, au: ParticipantId, x: Seq<OpModel>, y: Seq<OpModel>)
    ensures
        apply_ops(d, au, x + y) == apply_ops(apply_ops(d, au, x), au, y),
    decreases x.len(),
{
    if x.len() == 0 {
        assert(x + y =~= y);
    } else {
        assert((x + y)[0] == x[0]);
        assert((x + y).drop_first() =~= x.drop_first() + y);
        lemma_apply_concat(apply_op(d, au, x[0]), au, x.drop_first(), y);
    }
}

/// Operations keep the participants.
pub proof fn lemma_apply_ops_dom(d: DocModel, au: ParticipantId, ops: Seq<OpModel>)
    ensures
        apply_ops(d, au, ops).cursors.dom() == d.cursors.dom(),
    decreases ops.len(),
{
    if ops.len() > 0 {
        lemma_apply_op_dom(d, au, ops[0]);
        lemma_apply_ops_dom(apply_op(d, au, ops[0]), au, ops.drop_first());
    }
}

/// Checking operations: the first must fit, and the rest must fit what
/// it leaves.
pub proof fn lemma_check_unfold(len: int, ops: Seq<OpModel>)
    requires
        ops.len() > 0,
    ensures
        check_ops(len, ops) is None <==> (op_fits(len, ops[0]) && check_ops(op_len(len, ops[0]), ops.drop_first())
            is None),
{
}

/// Accepted operations are valid.
pub proof fn lemma_check_valid(len: int, ops: Seq<OpModel>)
    requires
        check_ops(len, ops) is None,
    ensures
        all_valid(ops),
    decreases ops.len(),
{
    if ops.len() > 0 {
        lemma_check_unfold(len, ops);
        lemma_check_valid(op_len(len, ops[0]), ops.drop_first());
        assert forall|i: int| 0 <= i < ops.len() implies op_valid(#[trigger] ops[i]) by {
            if i > 0 {
                assert(ops[i] == ops.drop_first()[i - 1]);
            }
        }
    }
}

/// Checking two runs of operations in turn.
pub proof fn lemma_check_concat(d: DocModel, au: ParticipantId, x: Seq<OpModel>, y: Seq<OpModel>)
    requires
        check_ops(d.content.len() as int, x) is None,
    ensures
        check_ops(d.content.len() as int, x + y) is None <==> check_ops(
            apply_ops(d, au, x).content.len() as int,
            y,
        ) is None,
    decreases x.len(),
{
    if x.len() == 0 {
        assert(x + y =~= y);
    } else {
        let n = d.content.len() as int;
        lemma_check_unfold(n, x);
        assert((x + y)[0] == x[0]);
        assert((x + y).drop_first() =~= x.drop_first() + y);
        lemma_check_unfold(n, x + y);
        lemma_op_content_len(d.content, x[0]);
        lemma_check_concat(apply_op(d, au, x[0]), au, x.drop_first(), y);
    }
}

/// Transforms keep the text of inserts.
pub proof fn lemma_no_empty_transform(y: OpModel, x: OpModel, a: ParticipantId, b: ParticipantId)
    requires
        not_empty_insert(y),
    ensures
        no_empty_inserts(op_transform(y, b, x, a)),
{
}

pub proof fn lemma_no_empty_group(g: Seq<OpModel>, x: OpModel, a: ParticipantId, b: ParticipantId)
    requires
        no_empty_inserts(g),
    ensures
        no_empty_inserts(group_transform(g, b, x, a)),
    decreases g.len(),
{
    if g.len() > 0 {
        lemma_no_empty_transform(g[0], x, a, b);
        let r = g.drop_first();
        assert(no_empty_inserts(r)) by {
            assert forall|i: int| 0 <= i < r.len() implies not_empty_insert(#[trigger] r[i]) by {
                assert(r[i] == g[i + 1]);
            }
        }
        lemma_no_empty_group(r, x, a, b);
        let p = op_transform(g[0], b, x, a);
        let q = group_transform(r, b, x, a);
        assert forall|i: int| 0 <= i < (p + q).len() implies not_empty_insert(#[trigger] (p + q)[i]) by {
            if i < p.len() {
                assert((p + q)[i] == p[i]);
            } else {
                assert((p + q)[i] == q[i - p.len()]);
            }
        }
    }
}

pub proof fn lemma_no_empty_through(
    c: Seq<OpModel>,
    g: Seq<OpModel>,
    a: ParticipantId,
    b: ParticipantId,
)
    requires
        no_empty_inserts(c),
    ensures
        no_empty_inserts(through_group(c, b, g, a)),
    decreases g.len(),
{
    if g.len() > 0 {
        lemma_no_empty_group(c, g[0], a, b);
        lemma_no_empty_through(group_transform(c, b, g[0], a), g.drop_first(), a, b);
    }
}

/// Two single operations from different participants, in both orders.
pub proof fn lemma_square_one(
    d: DocModel,
    a: ParticipantId,
    x: OpModel,
    b: ParticipantId,
    y: OpModel,
    k: bool,
)
    requires
        a != b,
        d.cursors.dom().contains(a),
        d.cursors.dom().contains(b),
        op_fits(d.content.len() as int, x),
        op_fits(d.content.len() as int, y),
        k ==> not_empty_insert(x),
        k ==> not_empty_insert(y),
    ensures
        check_ops(apply_op(d, b, y).content.len() as int, op_transform(x, a, y, b)) is None,
        check_ops(apply_op(d, a, x).content.len() as int, op_transform(y, b, x, a)) is None,
        same_for(
            apply_ops(apply_op(d, b, y), a, op_transform(x, a, y, b)),
            apply_ops(apply_op(d, a, x), b, op_transform(y, b, x, a)),
            a,
            b,
            k,
        ),
{
    let n = d.content.len() as int;
    lemma_check_one(n, x);
    lemma_check_one(n, y);
    lemma_concurrent_operations_converge(d, a, x, b, y);
    lemma_single_ops_transform(x, a, y, b);
    lemma_single_ops_transform(y, b, x, a);
    lemma_apply_one(d, b, y);
    lemma_apply_one(d, a, x);
    let ea = single_edit(a, x);
    let eb = single_edit(b, y);
    assert(apply_event(d, eb) == apply_op(d, b, y));
    assert(apply_event(d, ea) == apply_op(d, a, x));
    lemma_apply_op_dom(d, b, y);
    lemma_apply_op_dom(d, a, x);
    lemma_apply_ops_dom(apply_op(d, b, y), a, op_transform(x, a, y, b));
    lemma_apply_ops_dom(apply_op(d, a, x), b, op_transform(y, b, x, a));
}

/// A group from `a` and one operation from `b`, in both orders: the
/// group transformed against the operation, or the operation passed
/// through the group.
pub proof fn lemma_square_group(
    d: DocModel,
    a: ParticipantId,
    g: Seq<OpModel>,
    b: ParticipantId,
    c: OpModel,
    k: bool,
)
    requires
        a != b,
        d.cursors.dom().contains(a),
        d.cursors.dom().contains(b),
        good_group(g),
        k ==> no_empty_inserts(g),
        check_ops(d.content.len() as int, g) is None,
        op_fits(d.content.len() as int, c),
        k ==> not_empty_insert(c),
    ensures
        check_ops(apply_op(d, b, c).content.len() as int, group_transform(g, a, c, b)) is None,
        check_ops(apply_ops(d, a, g).content.len() as int, through_group(seq![c], b, g, a)) is None,
        same_for(
            apply_ops(apply_op(d, b, c), a, group_transform(g, a, c, b)),
            apply_ops(apply_ops(d, a, g), b, through_group(seq![c], b, g, a)),
            a,
            b,
            k,
        ),
{
    if g.len() == 1 {
        let g0 = g[0];
        assert(g =~= seq![g0]);
        lemma_single_transform(g0, c, b, a);
        lemma_single_transform(c, g0, a, b);
        assert(seq![c].drop_first() =~= Seq::<OpModel>::empty());
        assert(through_group(seq![c], b, g, a) == through_group(
            group_transform(seq![c], b, g0, a),
            b,
            g.drop_first(),
            a,
        ));
        assert(g.drop_first() =~= Seq::<OpModel>::empty());
        lemma_apply_one(d, a, g0);
        lemma_check_one(d.content.len() as int, g0);
        assert(g0 == g[0]);
        lemma_square_one(d, a, g0, b, c, k);
    } else {
        lemma_square_chain(d, a, g, b, c, k);
    }
}

proof fn lemma_square_chain(
    d: DocModel,
    a: ParticipantId,
    g: Seq<OpModel>,
    b: ParticipantId,
    c: OpModel,
    k: bool,
)
    requires
        a != b,
        d.cursors.dom().contains(a),
        d.cursors.dom().contains(b),
        is_chain(g),
        check_ops(d.content.len() as int, g) is None,
        op_fits(d.content.len() as int, c),
        k ==> not_empty_insert(c),
    ensures
        check_ops(apply_op(d, b, c).content.len() as int, group_transform(g, a, c, b)) is None,
        check_ops(apply_ops(d, a, g).content.len() as int, through_group(seq![c], b, g, a)) is None,
        same_for(
            apply_ops(apply_op(d, b, c), a, group_transform(g, a, c, b)),
            apply_ops(apply_ops(d, a, g), b, through_group(seq![c], b, g, a)),
            a,
            b,
            k,
        ),
    decreases g.len(),
{
    let n = d.content.len() as int;
    let dc = apply_op(d, b, c);
    lemma_apply_op_dom(d, b, c);
    if g.len() == 0 {
        assert(group_transform(g, a, c, b) =~= Seq::<OpModel>::empty());
        lemma_apply_one(d, b, c);
        lemma_check_one(n, c);
    } else {
        let g0 = g[0];
        let gr = g.drop_first();
        lemma_chain_rest(g);
        lemma_past_delete(c, g0, b, a);
        let c1 = op_transform(c, b, g0, a)[0];
        assert(op_transform(c, b, g0, a) =~= seq![c1]);
        lemma_group_below(gr, g0, c, b, a);
        lemma_single_transform(c, g0, a, b);
        assert(through_group(seq![c], b, g, a) == through_group(seq![c1], b, gr, a));
        lemma_check_unfold(n, g);
        lemma_op_content_len(d.content, g0);
        let d1 = apply_op(d, a, g0);
        lemma_apply_op_dom(d, a, g0);
        lemma_square_one(d, a, g0, b, c, k);
        lemma_apply_one(d1, b, c1);
        lemma_check_one(d1.content.len() as int, c1);
        assert(k ==> not_empty_insert(c1)) by {
            if k {
                lemma_no_empty_transform(c, g0, b, a);
                assert(op_transform(c, b, g0, a)[0] == c1);
            }
        }
        lemma_square_chain(d1, a, gr, b, c1, k);
        let t0 = op_transform(g0, a, c, b);
        let tr = group_transform(gr, a, c1, b);
        assert(group_transform(g, a, c, b) == t0 + group_transform(gr, a, c, b));
        let x1 = apply_ops(dc, a, t0);
        let y1 = apply_ops(d1, b, seq![c1]);
        lemma_apply_concat(dc, a, t0, tr);
        lemma_same_ops(x1, y1, a, b, a, tr, k);
        lemma_check_concat(dc, a, t0, tr);
        assert(apply_ops(d, a, g) == apply_ops(d1, a, gr));
    }
}

/// A group from `a` passed through the operations `cs` from `b`, in
/// both orders.
pub proof fn lemma_square_pass(
    d: DocModel,
    a: ParticipantId,
    g: Seq<OpModel>,
    b: ParticipantId,
    cs: Seq<OpModel>,
    k: bool,
)
    requires
        a != b,
        d.cursors.dom().contains(a),
        d.cursors.dom().contains(b),
        good_group(g),
        k ==> no_empty_inserts(g),
        k ==> no_empty_inserts(cs),
        check_ops(d.content.len() as int, g) is None,
        check_ops(d.content.len() as int, cs) is None,
    ensures
        check_ops(apply_ops(d, b, cs).content.len() as int, pass_concurrent(g, a, cs, b).0) is None,
        check_ops(apply_ops(d, a, g).content.len() as int, pass_concurrent(g, a, cs, b).1) is None,
        same_for(
            apply_ops(apply_ops(d, b, cs), a, pass_concurrent(g, a, cs, b).0),
            apply_ops(apply_ops(d, a, g), b, pass_concurrent(g, a, cs, b).1),
            a,
            b,
            k,
        ),
    decreases cs.len(),
{
    let n = d.content.len() as int;
    lemma_apply_ops_dom(d, a, g);
    if cs.len() == 0 {
        lemma_apply_ops_dom(apply_ops(d, a, g), b, cs);
    } else {
        let c = cs[0];
        let cr = cs.drop_first();
        lemma_check_unfold(n, cs);
        lemma_check_valid(n, g);
        let g1 = group_transform(g, a, c, b);
        let d1 = through_group(seq![c], b, g, a);
        let next = pass_concurrent(g1, a, cr, b);
        assert(pass_concurrent(g, a, cs, b) == (next.0, d1 + next.1));
        lemma_square_group(d, a, g, b, c, k);
        lemma_good_transform(g, c, b, a);
        if k {
            lemma_no_empty_group(g, c, b, a);
        }
        let dd = apply_op(d, b, c);
        lemma_apply_op_dom(d, b, c);
        lemma_op_content_len(d.content, c);
        assert(k ==> no_empty_inserts(cr)) by {
            if k {
                assert forall|i: int| 0 <= i < cr.len() implies not_empty_insert(#[trigger] cr[i]) by {
                    assert(cr[i] == cs[i + 1]);
                }
            }
        }
        lemma_square_pass(dd, a, g1, b, cr, k);
        let dg = apply_ops(d, a, g);
        lemma_same_ops(apply_ops(dd, a, g1), apply_ops(dg, b, d1), a, b, b, next.1, k);
        lemma_apply_concat(dg, b, d1, next.1);
        lemma_check_concat(dg, b, d1, next.1);
        assert(apply_ops(d, b, cs) == apply_ops(dd, b, cr));
    }
}

proof fn lemma_no_empty_concat(p: Seq<OpModel>, q: Seq<OpModel>)
    requires
        no_empty_inserts(p),
        no_empty_inserts(q),
    ensures
        no_empty_inserts(p + q),
{
    assert forall|i: int| 0 <= i < (p + q).len() implies not_empty_insert(#[trigger] (p + q)[i]) by {
        if i < p.len() {
            assert((p + q)[i] == p[i]);
        } else {
            assert((p + q)[i] == q[i - p.len()]);
        }
    }
}

/// Passing keeps the text of every insert, on both sides.
pub proof fn lemma_no_empty_pass(
    g: Seq<OpModel>,
    a: ParticipantId,
    cs: Seq<OpModel>,
    b: ParticipantId,
)
    requires
        no_empty_inserts(g),
        no_empty_inserts(cs),
    ensures
        no_empty_inserts(pass_concurrent(g, a, cs, b).0),
        no_empty_inserts(pass_concurrent(g, a, cs, b).1),
    decreases cs.len(),
{
    if cs.len() > 0 {
        let c = cs[0];
        let cr = cs.drop_first();
        assert(no_empty_inserts(cr)) by {
            assert forall|i: int| 0 <= i < cr.len() implies not_empty_insert(#[trigger] cr[i]) by {
                assert(cr[i] == cs[i + 1]);
            }
        }
        assert(no_empty_inserts(seq![c])) by {
            assert forall|i: int| 0 <= i < seq![c].len() implies not_empty_insert(#[trigger] seq![c][i]) by {
                assert(seq![c][i] == cs[0]);
            }
        }
        lemma_no_empty_group(g, c, b, a);
        lemma_no_empty_through(seq![c], g, a, b);
        lemma_no_empty_pass(group_transform(g, a, c, b), a, cr, b);
        lemma_no_empty_concat(
            through_group(seq![c], b, g, a),
            pass_concurrent(group_transform(g, a, c, b), a, cr, b).1,
        );
    }
}

/// Two edits, each rewritten to follow the other operation by
/// operation, in both orders: the edit from `a` transformed against the
/// one from `b`, or what is left of the edit from `b` after the one from
/// `a` passed it.
pub proof fn lemma_square_edits(
    d: DocModel,
    a: ParticipantId,
    xs: Seq<OpModel>,
    b: ParticipantId,
    ys: Seq<OpModel>,
    k: bool,
)
    requires
        a != b,
        d.cursors.dom().contains(a),
        d.cursors.dom().contains(b),
        k ==> no_empty_inserts(xs),
        k ==> no_empty_inserts(ys),
        check_ops(d.content.len() as int, xs) is None,
        check_ops(d.content.len() as int, ys) is None,
    ensures
        check_ops(apply_ops(d, b, ys).content.len() as int, ops_transform(xs, a, ys, b)) is None,
        check_ops(apply_ops(d, a, xs).content.len() as int, ops_transform_rest(xs, a, ys, b)) is None,
        same_for(
            apply_ops(apply_ops(d, b, ys), a, ops_transform(xs, a, ys, b)),
            apply_ops(apply_ops(d, a, xs), b, ops_transform_rest(xs, a, ys, b)),
            a,
            b,
            k,
        ),
    decreases xs.len(),
{
    lemma_apply_ops_dom(d, a, xs);
    lemma_apply_ops_dom(d, b, ys);
    if xs.len() == 0 {
        lemma_apply_ops_dom(apply_ops(d, b, ys), a, xs);
    } else {
        let n = d.content.len() as int;
        let x = xs[0];
        let xr = xs.drop_first();
        lemma_check_unfold(n, xs);
        lemma_check_one(n, x);
        let p = pass_concurrent(seq![x], a, ys, b);
        assert(k ==> no_empty_inserts(seq![x])) by {
            if k {
                assert forall|i: int| 0 <= i < seq![x].len() implies not_empty_insert(#[trigger] seq![x][i]) by {
                    assert(seq![x][i] == x);
                }
            }
        }
        lemma_square_pass(d, a, seq![x], b, ys, k);
        if k {
            lemma_no_empty_pass(seq![x], a, ys, b);
        }
        lemma_apply_one(d, a, x);
        let d1 = apply_op(d, a, x);
        lemma_apply_op_dom(d, a, x);
        lemma_op_content_len(d.content, x);
        assert(k ==> no_empty_inserts(xr)) by {
            if k {
                assert forall|i: int| 0 <= i < xr.len() implies not_empty_insert(#[trigger] xr[i]) by {
                    assert(xr[i] == xs[i + 1]);
                }
            }
        }
        lemma_square_edits(d1, a, xr, b, p.1, k);
        let dy = apply_ops(d, b, ys);
        let rest_ops = ops_transform(xr, a, p.1, b);
        assert(ops_transform(xs, a, ys, b) == p.0 + rest_ops);
        lemma_apply_concat(dy, a, p.0, rest_ops);
        lemma_same_ops(apply_ops(dy, a, p.0), apply_ops(d1, b, p.1), a, b, a, rest_ops, k);
        lemma_check_concat(dy, a, p.0, rest_ops);
        assert(apply_ops(d, a, xs) == apply_ops(d1, a, xr));
    }
}

} // verus!
