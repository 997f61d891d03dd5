//! Transforming one operation against a whole edit: the structure of the
//! groups that a split delete becomes, and why both orders of
//! application agree.
use vstd::prelude::*;

use super::model::{min_nat, op_valid, OpModel, ParticipantId};
use super::transform_model::{group_transform, op_transform, ops_transform, pass_concurrent, through_group};

verus! {

/// A delete that never ends before it starts.
pub open spec fn valid_delete(op: OpModel) -> bool {
    op matches OpModel::Delete { start, end } && start <= end
}

pub open spec fn del_start(op: OpModel) -> nat {
    match op {
        OpModel::Delete { start, .. } => start,
        _ => 0,
    }
}

pub open spec fn del_end(op: OpModel) -> nat {
    match op {
        OpModel::Delete { end, .. } => end,
        _ => 0,
    }
}

/// Deletes in descending order: each one lies wholly before every
/// earlier one, so performing them in turn never moves a later one.
pub open spec fn is_chain(g: Seq<OpModel>) -> bool {
    &&& forall|i: int| 0 <= i < g.len() ==> valid_delete(#[trigger] g[i])
    &&& forall|i: int, j: int| 0 <= i < j < g.len() ==> del_end(#[trigger] g[j]) <= del_start(#[trigger] g[i])
}

/// What a single operation can become while it is transformed: itself,
/// or a chain of deletes.
pub open spec fn good_group(g: Seq<OpModel>) -> bool {
    g.len() == 1 || (g.len() > 0 && is_chain(g))
}

/// An operation transformed against a delete stays a single valid
/// operation.
pub proof fn lemma_past_delete(c: OpModel, g: OpModel, a: ParticipantId, b: ParticipantId)
    requires
        valid_delete(g),
        op_valid(c),
    ensures
        op_transform(c, a, g, b).len() == 1,
        op_valid(op_transform(c, a, g, b)[0]),
        op_transform(c, a, g, b)[0] is Delete <==> c is Delete,
        op_transform(c, a, g, b)[0] is Insert <==> c is Insert,
{
}

/// A delete `r` that lies wholly before the delete `g`
/// is transformed against `c` as against `c` moved past `g`.
pub proof fn lemma_cell_below(
    r: OpModel,
    g: OpModel,
    c: OpModel,
    a: ParticipantId,
    b: ParticipantId,
)
    requires
        valid_delete(r),
        valid_delete(g),
        op_valid(c),
        del_end(r) <= del_start(g),
    ensures
        op_transform(c, a, g, b).len() == 1,
        op_valid(op_transform(c, a, g, b)[0]),
        op_transform(r, b, c, a) == op_transform(r, b, op_transform(c, a, g, b)[0], a),
{
}

/// Every operation of `r` is a delete lying wholly before position `m`.
pub open spec fn all_below(r: Seq<OpModel>, m: nat) -> bool {
    forall|i: int| 0 <= i < r.len() ==> valid_delete(#[trigger] r[i]) && del_end(r[i]) <= m
}

/// Every operation of `r` is a delete starting at `m` or later.
pub open spec fn all_above(r: Seq<OpModel>, m: nat) -> bool {
    forall|i: int| 0 <= i < r.len() ==> valid_delete(#[trigger] r[i]) && m <= del_start(r[i])
}

/// Deletes that lie wholly before the delete `g` are transformed against
/// `c` as against `c` moved past `g`.
pub proof fn lemma_group_below(
    r: Seq<OpModel>,
    g: OpModel,
    c: OpModel,
    a: ParticipantId,
    b: ParticipantId,
)
    requires
        all_below(r, del_start(g)),
        valid_delete(g),
        op_valid(c),
    ensures
        op_transform(c, a, g, b).len() == 1,
        group_transform(r, b, c, a) == group_transform(r, b, op_transform(c, a, g, b)[0], a),
    decreases r.len(),
{
    lemma_past_delete(c, g, a, b);
    if r.len() > 0 {
        lemma_cell_below(r[0], g, c, a, b);
        assert(all_below(r.drop_first(), del_start(g))) by {
            assert forall|i: int| 0 <= i < r.drop_first().len() implies valid_delete(#[trigger] r.drop_first()[i])
                && del_end(r.drop_first()[i]) <= del_start(g) by {
                assert(r.drop_first()[i] == r[i + 1]);
            }
        }
        lemma_group_below(r.drop_first(), g, c, a, b);
    }
}

/// Where position `m` lies after `c` was performed, as the ends of
/// transformed deletes move.
pub open spec fn moved_bound(m: nat, c: OpModel) -> nat {
    match c {
        OpModel::Insert { pos: q, text: t } => if q < m {
            m + t.len()
        } else {
            m
        },
        OpModel::Delete { start: s, end: e } => if s < m {
            (m - (min_nat(m, e) - s)) as nat
        } else {
            m
        },
        OpModel::MoveCursor { .. } => m,
    }
}

/// A delete transformed against any operation is a chain, and it stays
/// on its side of any position.
pub proof fn lemma_cell_bounds(g: OpModel, c: OpModel, m: nat, a: ParticipantId, b: ParticipantId)
    requires
        valid_delete(g),
        op_valid(c),
    ensures
        is_chain(op_transform(g, b, c, a)),
        op_transform(g, b, c, a).len() > 0,
        del_end(g) <= m ==> all_below(op_transform(g, b, c, a), moved_bound(m, c)),
        m <= del_start(g) ==> all_above(op_transform(g, b, c, a), moved_bound(m, c)),
{
    let t = op_transform(g, b, c, a);
    assert(forall|i: int| 0 <= i < t.len() ==> valid_delete(#[trigger] t[i]));
}

/// Two chains, the second wholly before the first, make a chain.
pub proof fn lemma_chain_concat(p: Seq<OpModel>, q: Seq<OpModel>, m: nat)
    requires
        is_chain(p),
        is_chain(q),
        all_above(p, m),
        all_below(q, m),
    ensures
        is_chain(p + q),
{
    let r = p + q;
    assert forall|i: int| 0 <= i < r.len() implies valid_delete(#[trigger] r[i]) by {
        if i < p.len() {
            assert(r[i] == p[i]);
        } else {
            assert(r[i] == q[i - p.len()]);
        }
    }
    assert forall|i: int, j: int| 0 <= i < j < r.len() implies del_end(#[trigger] r[j]) <= del_start(
        #[trigger] r[i],
    ) by {
        if j < p.len() {
            assert(r[i] == p[i] && r[j] == p[j]);
        } else if i >= p.len() {
            assert(r[i] == q[i - p.len()] && r[j] == q[j - p.len()]);
        } else {
            assert(r[i] == p[i] && r[j] == q[j - p.len()]);
        }
    }
}

/// The rest of a chain lies wholly before its first delete.
pub proof fn lemma_chain_rest(g: Seq<OpModel>)
    requires
        is_chain(g),
        g.len() > 0,
    ensures
        is_chain(g.drop_first()),
        all_below(g.drop_first(), del_start(g[0])),
        valid_delete(g[0]),
{
    let r = g.drop_first();
    assert forall|i: int| 0 <= i < r.len() implies valid_delete(#[trigger] r[i]) && del_end(r[i]) <= del_start(
        g[0],
    ) by {
        assert(r[i] == g[i + 1]);
    }
    assert forall|i: int, j: int| 0 <= i < j < r.len() implies del_end(#[trigger] r[j]) <= del_start(
        #[trigger] r[i],
    ) by {
        assert(r[i] == g[i + 1] && r[j] == g[j + 1]);
    }
}

proof fn lemma_concat_below(p: Seq<OpModel>, q: Seq<OpModel>, m: nat)
    requires
        all_below(p, m),
        all_below(q, m),
    ensures
        all_below(p + q, m),
{
    assert forall|i: int| 0 <= i < (p + q).len() implies valid_delete(#[trigger] (p + q)[i]) && del_end((p + q)[i])
        <= m by {
        if i < p.len() {
            assert((p + q)[i] == p[i]);
        } else {
            assert((p + q)[i] == q[i - p.len()]);
        }
    }
}

proof fn lemma_concat_above(p: Seq<OpModel>, q: Seq<OpModel>, m: nat)
    requires
        all_above(p, m),
        all_above(q, m),
    ensures
        all_above(p + q, m),
{
    assert forall|i: int| 0 <= i < (p + q).len() implies valid_delete(#[trigger] (p + q)[i]) && m <= del_start(
        (p + q)[i],
    ) by {
        if i < p.len() {
            assert((p + q)[i] == p[i]);
        } else {
            assert((p + q)[i] == q[i - p.len()]);
        }
    }
}

/// Deletes before (or after) a position stay before (or after) where it
/// moves.
pub proof fn lemma_group_bounds(g: Seq<OpModel>, c: OpModel, m: nat, a: ParticipantId, b: ParticipantId)
    requires
        op_valid(c),
    ensures
        all_below(g, m) ==> all_below(group_transform(g, b, c, a), moved_bound(m, c)),
        all_above(g, m) ==> all_above(group_transform(g, b, c, a), moved_bound(m, c)),
    decreases g.len(),
{
    if g.len() > 0 {
        let r = g.drop_first();
        assert(all_below(g, m) ==> all_below(r, m)) by {
            if all_below(g, m) {
                assert forall|i: int| 0 <= i < r.len() implies valid_delete(#[trigger] r[i]) && del_end(r[i]) <= m by {
                    assert(r[i] == g[i + 1]);
                }
            }
        }
        assert(all_above(g, m) ==> all_above(r, m)) by {
            if all_above(g, m) {
                assert forall|i: int| 0 <= i < r.len() implies valid_delete(#[trigger] r[i]) && m <= del_start(r[i]) by {
                    assert(r[i] == g[i + 1]);
                }
            }
        }
        lemma_group_bounds(r, c, m, a, b);
        if all_below(g, m) {
            lemma_cell_bounds(g[0], c, m, a, b);
            lemma_concat_below(op_transform(g[0], b, c, a), group_transform(r, b, c, a), moved_bound(m, c));
        }
        if all_above(g, m) {
            lemma_cell_bounds(g[0], c, m, a, b);
            lemma_concat_above(op_transform(g[0], b, c, a), group_transform(r, b, c, a), moved_bound(m, c));
        }
    } else {
        assert(group_transform(g, b, c, a) =~= Seq::<OpModel>::empty());
    }
}

/// A chain transformed against any operation is a chain.
pub proof fn lemma_chain_transform(g: Seq<OpModel>, c: OpModel, a: ParticipantId, b: ParticipantId)
    requires
        is_chain(g),
        op_valid(c),
    ensures
        is_chain(group_transform(g, b, c, a)),
    decreases g.len(),
{
    if g.len() > 0 {
        let r = g.drop_first();
        let m = del_start(g[0]);
        lemma_chain_rest(g);
        lemma_chain_transform(r, c, a, b);
        lemma_group_bounds(r, c, m, a, b);
        lemma_cell_bounds(g[0], c, m, a, b);
        lemma_chain_concat(op_transform(g[0], b, c, a), group_transform(r, b, c, a), moved_bound(m, c));
    } else {
        assert(group_transform(g, b, c, a) =~= Seq::<OpModel>::empty());
    }
}

/// Every operation is valid.
pub open spec fn all_valid(g: Seq<OpModel>) -> bool {
    forall|i: int| 0 <= i < g.len() ==> op_valid(#[trigger] g[i])
}

/// Transforming valid operations gives valid operations; only a delete
/// can become more than one.
pub proof fn lemma_transform_valid(y: OpModel, x: OpModel, a: ParticipantId, b: ParticipantId)
    requires
        op_valid(y),
        op_valid(x),
    ensures
        all_valid(op_transform(y, b, x, a)),
        op_transform(y, b, x, a).len() > 0,
        !(y is Delete) ==> op_transform(y, b, x, a).len() == 1,
        valid_delete(y) ==> is_chain(op_transform(y, b, x, a)),
{
    if y is Delete {
        lemma_cell_bounds(y, x, 0, a, b);
    }
}

/// A single operation transformed against a group.
pub proof fn lemma_single_transform(y: OpModel, x: OpModel, a: ParticipantId, b: ParticipantId)
    ensures
        group_transform(seq![y], b, x, a) == op_transform(y, b, x, a),
{
    assert(seq![y].drop_first() =~= Seq::<OpModel>::empty());
    assert(seq![y][0] == y);
    assert(group_transform(seq![y].drop_first(), b, x, a) == Seq::<OpModel>::empty());
    assert(op_transform(y, b, x, a) + Seq::<OpModel>::empty() =~= op_transform(y, b, x, a));
}

/// A group stays a group, of valid operations, when transformed.
pub proof fn lemma_good_transform(g: Seq<OpModel>, x: OpModel, a: ParticipantId, b: ParticipantId)
    requires
        good_group(g),
        all_valid(g),
        op_valid(x),
    ensures
        good_group(group_transform(g, b, x, a)),
        all_valid(group_transform(g, b, x, a)),
{
    if g.len() == 1 {
        assert(g =~= seq![g[0]]);
        lemma_single_transform(g[0], x, a, b);
        lemma_transform_valid(g[0], x, a, b);
        if g[0] is Delete {
            lemma_cell_bounds(g[0], x, 0, a, b);
        }
    } else {
        lemma_chain_transform(g, x, a, b);
        lemma_group_nonempty(g, x, a, b);
        let t = group_transform(g, b, x, a);
        assert forall|i: int| 0 <= i < t.len() implies op_valid(#[trigger] t[i]) by {
            assert(valid_delete(t[i]));
        }
    }
}

proof fn lemma_group_nonempty(g: Seq<OpModel>, x: OpModel, a: ParticipantId, b: ParticipantId)
    requires
        all_valid(g),
        op_valid(x),
        g.len() > 0,
    ensures
        group_transform(g, b, x, a).len() > 0,
{
    lemma_transform_valid(g[0], x, a, b);
}

/// Passing one operation through a group, one member at a time, is the
/// same as transforming the group against the operation: the operation
/// ends as it would after the whole group, and the group members are
/// each transformed against the operation as given.
pub proof fn lemma_row_column(x: OpModel, y: Seq<OpModel>, a: ParticipantId, b: ParticipantId)
    requires
        good_group(y),
        all_valid(y),
        op_valid(x),
    ensures
        pass_concurrent(seq![x], a, y, b) == (through_group(seq![x], a, y, b), group_transform(y, b, x, a)),
{
    if y.len() == 1 {
        let y0 = y[0];
        assert(y.drop_first() =~= Seq::<OpModel>::empty());
        lemma_single_transform(x, y0, b, a);
        lemma_single_transform(y0, x, a, b);
        let t = group_transform(seq![x], a, y0, b);
        assert(pass_concurrent(t, a, y.drop_first(), b) == (t, Seq::<OpModel>::empty()));
        assert(through_group(t, a, y.drop_first(), b) == t);
        assert(through_group(seq![y0], b, seq![x], a) == through_group(
            group_transform(seq![y0], b, x, a),
            b,
            seq![x].drop_first(),
            a,
        ));
        assert(seq![x].drop_first() =~= Seq::<OpModel>::empty());
        assert(seq![x][0] == x);
        assert(y =~= seq![y0]);
        assert(through_group(seq![y0], b, seq![x], a) == op_transform(y0, b, x, a));
        assert(through_group(seq![y0], b, seq![x], a) + Seq::<OpModel>::empty() =~= op_transform(y0, b, x, a));
    } else {
        lemma_row_column_chain(x, y, a, b);
    }
}

proof fn lemma_row_column_chain(x: OpModel, y: Seq<OpModel>, a: ParticipantId, b: ParticipantId)
    requires
        is_chain(y),
        op_valid(x),
    ensures
        pass_concurrent(seq![x], a, y, b) == (through_group(seq![x], a, y, b), group_transform(y, b, x, a)),
    decreases y.len(),
{
    if y.len() == 0 {
        assert(group_transform(y, b, x, a) =~= Seq::<OpModel>::empty());
    } else {
        let y0 = y[0];
        let yr = y.drop_first();
        lemma_chain_rest(y);
        lemma_past_delete(x, y0, a, b);
        let x1 = op_transform(x, a, y0, b)[0];
        lemma_single_transform(x, y0, b, a);
        assert(group_transform(seq![x], a, y0, b) =~= seq![x1]);
        lemma_row_column_chain(x1, yr, a, b);
        lemma_group_below(yr, y0, x, a, b);
        lemma_single_transform(y0, x, a, b);
        assert(seq![x].drop_first() =~= Seq::<OpModel>::empty());
        assert(seq![x][0] == x);
        assert(through_group(seq![y0], b, seq![x], a) == through_group(
            group_transform(seq![y0], b, x, a),
            b,
            seq![x].drop_first(),
            a,
        ));
        assert(through_group(seq![y0], b, seq![x], a) == op_transform(y0, b, x, a));
    }
}

/// The concurrent operations after the operations of an edit from
/// `author` passed them: what `ops_transform` leaves of `concurrent`.
pub open spec fn ops_transform_rest(
    ops: Seq<OpModel>,
    author: ParticipantId,
    concurrent: Seq<OpModel>,
    con_author: ParticipantId,
) -> Seq<OpModel>
    decreases ops.len(),
{
    if ops.len() == 0 {
        concurrent
    } else {
        let passed = pass_concurrent(seq![ops[0]], author, concurrent, con_author);
        ops_transform_rest(ops.drop_first(), author, passed.1, con_author)
    }
}

/// Transforming the operations of an edit one by one against a group is
/// the same as passing the group through the edit.
pub proof fn lemma_edit_through_group(ops: Seq<OpModel>, y: Seq<OpModel>, a: ParticipantId, b: ParticipantId)
    requires
        good_group(y),
        all_valid(y),
        all_valid(ops),
    ensures
        ops_transform(ops, a, y, b) == pass_concurrent(y, b, ops, a).1,
        ops_transform_rest(ops, a, y, b) == pass_concurrent(y, b, ops, a).0,
    decreases ops.len(),
{
    if ops.len() > 0 {
        let x = ops[0];
        let r = ops.drop_first();
        assert(op_valid(x));
        assert(all_valid(r)) by {
            assert forall|i: int| 0 <= i < r.len() implies op_valid(#[trigger] r[i]) by {
                assert(r[i] == ops[i + 1]);
            }
        }
        lemma_row_column(x, y, a, b);
        lemma_good_transform(y, x, a, b);
        lemma_edit_through_group(r, group_transform(y, b, x, a), a, b);
    }
}

/// A valid group transformed against a valid operation stays valid.
pub proof fn lemma_group_valid(g: Seq<OpModel>, a: ParticipantId, x: OpModel, b: ParticipantId)
    requires
        all_valid(g),
        op_valid(x),
    ensures
        all_valid(group_transform(g, a, x, b)),
    decreases g.len(),
{
    if g.len() > 0 {
        let r = g.drop_first();
        assert(all_valid(r)) by {
            assert forall|i: int| 0 <= i < r.len() implies op_valid(#[trigger] r[i]) by {
                assert(r[i] == g[i + 1]);
            }
        }
        lemma_group_valid(r, a, x, b);
        lemma_transform_valid(g[0], x, b, a);
        lemma_valid_concat(op_transform(g[0], a, x, b), group_transform(r, a, x, b));
    }
}

pub proof fn lemma_valid_concat(p: Seq<OpModel>, q: Seq<OpModel>)
    requires
        all_valid(p),
        all_valid(q),
    ensures
        all_valid(p + q),
{
    assert forall|i: int| 0 <= i < (p + q).len() implies op_valid(#[trigger] (p + q)[i]) by {
        if i < p.len() {
            assert((p + q)[i] == p[i]);
        } else {
            assert((p + q)[i] == q[i - p.len()]);
        }
    }
}

/// Valid operations passed through a valid group stay valid.
pub proof fn lemma_through_valid(cs: Seq<OpModel>, b: ParticipantId, g: Seq<OpModel>, a: ParticipantId)
    requires
        all_valid(cs),
        all_valid(g),
    ensures
        all_valid(through_group(cs, b, g, a)),
    decreases g.len(),
{
    if g.len() > 0 {
        lemma_group_valid(cs, b, g[0], a);
        let r = g.drop_first();
        assert(all_valid(r)) by {
            assert forall|i: int| 0 <= i < r.len() implies op_valid(#[trigger] r[i]) by {
                assert(r[i] == g[i + 1]);
            }
        }
        lemma_through_valid(group_transform(cs, b, g[0], a), b, r, a);
    }
}

/// Passing keeps groups and validity.
pub proof fn lemma_pass_valid(g: Seq<OpModel>, a: ParticipantId, cs: Seq<OpModel>, b: ParticipantId)
    requires
        all_valid(g),
        all_valid(cs),
    ensures
        all_valid(pass_concurrent(g, a, cs, b).0),
        all_valid(pass_concurrent(g, a, cs, b).1),
        good_group(g) ==> good_group(pass_concurrent(g, a, cs, b).0),
    decreases cs.len(),
{
    if cs.len() > 0 {
        let c = cs[0];
        let cr = cs.drop_first();
        assert(op_valid(c));
        assert(all_valid(cr)) by {
            assert forall|i: int| 0 <= i < cr.len() implies op_valid(#[trigger] cr[i]) by {
                assert(cr[i] == cs[i + 1]);
            }
        }
        assert(all_valid(seq![c])) by {
            assert forall|i: int| 0 <= i < seq![c].len() implies op_valid(#[trigger] seq![c][i]) by {
                assert(seq![c][i] == c);
            }
        }
        lemma_group_valid(g, a, c, b);
        if good_group(g) {
            lemma_good_transform(g, c, b, a);
        }
        lemma_through_valid(seq![c], b, g, a);
        lemma_pass_valid(group_transform(g, a, c, b), a, cr, b);
        lemma_valid_concat(through_group(seq![c], b, g, a), pass_concurrent(group_transform(g, a, c, b), a, cr, b).1);
    }
}

/// Transforming two runs of a group.
pub proof fn lemma_group_concat(p: Seq<OpModel>, q: Seq<OpModel>, a: ParticipantId, x: OpModel, b: ParticipantId)
    ensures
        group_transform(p + q, a, x, b) == group_transform(p, a, x, b) + group_transform(q, a, x, b),
    decreases p.len(),
{
    if p.len() == 0 {
        assert(p + q =~= q);
        assert(group_transform(p, a, x, b) =~= Seq::<OpModel>::empty());
        assert(Seq::<OpModel>::empty() + group_transform(q, a, x, b) =~= group_transform(q, a, x, b));
    } else {
        assert((p + q)[0] == p[0]);
        assert((p + q).drop_first() =~= p.drop_first() + q);
        lemma_group_concat(p.drop_first(), q, a, x, b);
        assert(group_transform(p + q, a, x, b) =~= group_transform(p, a, x, b) + group_transform(q, a, x, b));
    }
}

/// Passing operations through two runs of a group.
pub proof fn lemma_through_concat(cs: Seq<OpModel>, b: ParticipantId, g1: Seq<OpModel>, g2: Seq<OpModel>, a: ParticipantId)
    ensures
        through_group(cs, b, g1 + g2, a) == through_group(through_group(cs, b, g1, a), b, g2, a),
    decreases g1.len(),
{
    if g1.len() == 0 {
        assert(g1 + g2 =~= g2);
    } else {
        assert((g1 + g2)[0] == g1[0]);
        assert((g1 + g2).drop_first() =~= g1.drop_first() + g2);
        lemma_through_concat(group_transform(cs, b, g1[0], a), b, g1.drop_first(), g2, a);
    }
}

/// An operation passed through deletes at or after `m` stays single,
/// and deletes before `m` are transformed against it as against what it
/// became.
pub proof fn lemma_through_above(
    c: OpModel,
    b: ParticipantId,
    g1: Seq<OpModel>,
    g2: Seq<OpModel>,
    a: ParticipantId,
    m: nat,
)
    requires
        all_above(g1, m),
        all_below(g2, m),
        op_valid(c),
    ensures
        through_group(seq![c], b, g1, a).len() == 1,
        op_valid(through_group(seq![c], b, g1, a)[0]),
        group_transform(g2, a, c, b) == group_transform(g2, a, through_group(seq![c], b, g1, a)[0], b),
    decreases g1.len(),
{
    if g1.len() > 0 {
        let g = g1[0];
        let r = g1.drop_first();
        assert(valid_delete(g) && m <= del_start(g));
        lemma_past_delete(c, g, b, a);
        let c1 = op_transform(c, b, g, a)[0];
        lemma_single_transform(c, g, a, b);
        assert(group_transform(seq![c], b, g, a) =~= seq![c1]);
        assert(all_below(g2, del_start(g))) by {
            assert forall|i: int| 0 <= i < g2.len() implies valid_delete(#[trigger] g2[i]) && del_end(g2[i])
                <= del_start(g) by {}
        }
        lemma_group_below(g2, g, c, b, a);
        assert(all_above(r, m)) by {
            assert forall|i: int| 0 <= i < r.len() implies valid_delete(#[trigger] r[i]) && m <= del_start(r[i]) by {
                assert(r[i] == g1[i + 1]);
            }
        }
        lemma_through_above(c1, b, r, g2, a, m);
    }
}

/// Passing deletes at or after `m`, followed by deletes before `m`,
/// through operations: the first ones pass, then the second ones pass
/// what the first left.
pub proof fn lemma_pass_split(
    g1: Seq<OpModel>,
    g2: Seq<OpModel>,
    a: ParticipantId,
    cs: Seq<OpModel>,
    b: ParticipantId,
    m: nat,
)
    requires
        all_above(g1, m),
        all_below(g2, m),
        all_valid(cs),
    ensures
        pass_concurrent(g1 + g2, a, cs, b) == (
            pass_concurrent(g1, a, cs, b).0 + pass_concurrent(g2, a, pass_concurrent(g1, a, cs, b).1, b).0,
            pass_concurrent(g2, a, pass_concurrent(g1, a, cs, b).1, b).1,
        ),
    decreases cs.len(),
{
    if cs.len() == 0 {
        assert(pass_concurrent(g2, a, Seq::<OpModel>::empty(), b) == (g2, Seq::<OpModel>::empty()));
    } else {
        let c = cs[0];
        let cr = cs.drop_first();
        assert(op_valid(c));
        assert(all_valid(cr)) by {
            assert forall|i: int| 0 <= i < cr.len() implies op_valid(#[trigger] cr[i]) by {
                assert(cr[i] == cs[i + 1]);
            }
        }
        lemma_through_above(c, b, g1, g2, a, m);
        let c1 = through_group(seq![c], b, g1, a)[0];
        assert(through_group(seq![c], b, g1, a) =~= seq![c1]);
        lemma_group_concat(g1, g2, a, c, b);
        lemma_through_concat(seq![c], b, g1, g2, a);
        let m1 = moved_bound(m, c);
        lemma_group_bounds(g1, c, m, b, a);
        lemma_group_bounds(g2, c, m, b, a);
        let h1 = group_transform(g1, a, c, b);
        let h2 = group_transform(g2, a, c1, b);
        lemma_pass_split(h1, h2, a, cr, b, m1);
        let e = pass_concurrent(h1, a, cr, b).1;
        assert((seq![c1] + e)[0] == c1);
        assert((seq![c1] + e).drop_first() =~= e);
        let q = pass_concurrent(h2, a, e, b);
        assert(pass_concurrent(g2, a, seq![c1] + e, b) == (q.0, through_group(seq![c1], b, g2, a) + q.1));
        assert(pass_concurrent(g1, a, cs, b) == (pass_concurrent(h1, a, cr, b).0, seq![c1] + e));
        assert(through_group(seq![c1], b, g2, a) + q.1 =~= through_group(seq![c], b, g1 + g2, a) + q.1);
    }
}

/// Nothing passed through operations leaves them as they are.
pub proof fn lemma_pass_empty(a: ParticipantId, cs: Seq<OpModel>, b: ParticipantId)
    ensures
        pass_concurrent(Seq::<OpModel>::empty(), a, cs, b) == (Seq::<OpModel>::empty(), cs),
    decreases cs.len(),
{
    if cs.len() > 0 {
        let e = Seq::<OpModel>::empty();
        assert(group_transform(e, a, cs[0], b) =~= e);
        lemma_pass_empty(a, cs.drop_first(), b);
        assert(seq![cs[0]] + cs.drop_first() =~= cs);
    }
}

/// The operations of a group transformed one at a time against an
/// edit are what passing the whole group through the edit gives.
pub proof fn lemma_group_rows(y: Seq<OpModel>, a: ParticipantId, cs: Seq<OpModel>, b: ParticipantId)
    requires
        good_group(y),
        all_valid(y),
        all_valid(cs),
    ensures
        ops_transform(y, a, cs, b) == pass_concurrent(y, a, cs, b).0,
        ops_transform_rest(y, a, cs, b) == pass_concurrent(y, a, cs, b).1,
{
    if y.len() == 1 {
        let y0 = y[0];
        assert(y =~= seq![y0]);
        let p = pass_concurrent(seq![y0], a, cs, b);
        assert(y.drop_first() =~= Seq::<OpModel>::empty());
        assert(ops_transform(Seq::<OpModel>::empty(), a, p.1, b) == Seq::<OpModel>::empty());
        assert(ops_transform_rest(Seq::<OpModel>::empty(), a, p.1, b) == p.1);
        assert(y[0] == y0);
        assert(ops_transform_rest(y, a, cs, b) == ops_transform_rest(y.drop_first(), a, p.1, b));
        assert(p.0 + Seq::<OpModel>::empty() =~= p.0);
    } else {
        lemma_chain_rows(y, a, cs, b);
    }
}

proof fn lemma_chain_rows(y: Seq<OpModel>, a: ParticipantId, cs: Seq<OpModel>, b: ParticipantId)
    requires
        is_chain(y),
        all_valid(cs),
    ensures
        ops_transform(y, a, cs, b) == pass_concurrent(y, a, cs, b).0,
        ops_transform_rest(y, a, cs, b) == pass_concurrent(y, a, cs, b).1,
    decreases y.len(),
{
    if y.len() == 0 {
        lemma_pass_empty(a, cs, b);
    } else {
        let y0 = y[0];
        let yr = y.drop_first();
        lemma_chain_rest(y);
        let p = pass_concurrent(seq![y0], a, cs, b);
        assert(all_valid(seq![y0])) by {
            assert forall|i: int| 0 <= i < seq![y0].len() implies op_valid(#[trigger] seq![y0][i]) by {
                assert(seq![y0][i] == y0);
            }
        }
        lemma_pass_valid(seq![y0], a, cs, b);
        lemma_chain_rows(yr, a, p.1, b);
        let m = del_start(y0);
        assert(all_above(seq![y0], m)) by {
            assert forall|i: int| 0 <= i < seq![y0].len() implies valid_delete(#[trigger] seq![y0][i]) && m
                <= del_start(seq![y0][i]) by {
                assert(seq![y0][i] == y0);
            }
        }
        lemma_pass_split(seq![y0], yr, a, cs, b, m);
        assert(seq![y0] + yr =~= y);
    }
}

/// Passing a group through two runs of operations.
pub proof fn lemma_pass_columns(g: Seq<OpModel>, a: ParticipantId, c1: Seq<OpModel>, c2: Seq<OpModel>, b: ParticipantId)
    ensures
        pass_concurrent(g, a, c1 + c2, b) == (
            pass_concurrent(pass_concurrent(g, a, c1, b).0, a, c2, b).0,
            pass_concurrent(g, a, c1, b).1 + pass_concurrent(pass_concurrent(g, a, c1, b).0, a, c2, b).1,
        ),
    decreases c1.len(),
{
    if c1.len() == 0 {
        assert(c1 + c2 =~= c2);
        assert(Seq::<OpModel>::empty() + pass_concurrent(g, a, c2, b).1 =~= pass_concurrent(g, a, c2, b).1);
    } else {
        let c = c1[0];
        let c1r = c1.drop_first();
        assert((c1 + c2)[0] == c);
        assert((c1 + c2).drop_first() =~= c1r + c2);
        let h = group_transform(g, a, c, b);
        lemma_pass_columns(h, a, c1r, c2, b);
        let t = through_group(seq![c], b, g, a);
        let p1 = pass_concurrent(h, a, c1r, b);
        let p2 = pass_concurrent(p1.0, a, c2, b);
        assert(t + (p1.1 + p2.1) =~= (t + p1.1) + p2.1);
    }
}

/// Transforming two runs of an edit's operations.
pub proof fn lemma_rows_concat(x1: Seq<OpModel>, x2: Seq<OpModel>, a: ParticipantId, cs: Seq<OpModel>, b: ParticipantId)
    ensures
        ops_transform(x1 + x2, a, cs, b) == ops_transform(x1, a, cs, b) + ops_transform(
            x2,
            a,
            ops_transform_rest(x1, a, cs, b),
            b,
        ),
        ops_transform_rest(x1 + x2, a, cs, b) == ops_transform_rest(x2, a, ops_transform_rest(x1, a, cs, b), b),
    decreases x1.len(),
{
    if x1.len() == 0 {
        assert(x1 + x2 =~= x2);
        assert(Seq::<OpModel>::empty() + ops_transform(x2, a, cs, b) =~= ops_transform(x2, a, cs, b));
    } else {
        let x = x1[0];
        assert((x1 + x2)[0] == x);
        assert((x1 + x2).drop_first() =~= x1.drop_first() + x2);
        let p = pass_concurrent(seq![x], a, cs, b);
        lemma_rows_concat(x1.drop_first(), x2, a, p.1, b);
        let o1 = ops_transform(x1.drop_first(), a, p.1, b);
        let o2 = ops_transform(x2, a, ops_transform_rest(x1.drop_first(), a, p.1, b), b);
        assert(p.0 + (o1 + o2) =~= (p.0 + o1) + o2);
    }
}

/// Nothing concurrent leaves an edit as it is.
pub proof fn lemma_transform_nothing(xs: Seq<OpModel>, a: ParticipantId, b: ParticipantId)
    ensures
        ops_transform(xs, a, Seq::<OpModel>::empty(), b) == xs,
        ops_transform_rest(xs, a, Seq::<OpModel>::empty(), b) == Seq::<OpModel>::empty(),
    decreases xs.len(),
{
    if xs.len() > 0 {
        let e = Seq::<OpModel>::empty();
        assert(pass_concurrent(seq![xs[0]], a, e, b) == (seq![xs[0]], e));
        lemma_transform_nothing(xs.drop_first(), a, b);
        assert(seq![xs[0]] + xs.drop_first() =~= xs);
    }
}

/// Transforming an edit against two runs of concurrent operations.
pub proof fn lemma_columns_split(xs: Seq<OpModel>, a: ParticipantId, c1: Seq<OpModel>, c2: Seq<OpModel>, b: ParticipantId)
    requires
        all_valid(xs),
        all_valid(c1),
        all_valid(c2),
    ensures
        ops_transform(xs, a, c1 + c2, b) == ops_transform(ops_transform(xs, a, c1, b), a, c2, b),
        ops_transform_rest(xs, a, c1 + c2, b) == ops_transform_rest(xs, a, c1, b) + ops_transform_rest(
            ops_transform(xs, a, c1, b),
            a,
            c2,
            b,
        ),
    decreases xs.len(),
{
    if xs.len() == 0 {
        assert(ops_transform(xs, a, c1, b) == Seq::<OpModel>::empty());
    } else {
        let x = xs[0];
        let xr = xs.drop_first();
        assert(all_valid(xr)) by {
            assert forall|i: int| 0 <= i < xr.len() implies op_valid(#[trigger] xr[i]) by {
                assert(xr[i] == xs[i + 1]);
            }
        }
        assert(all_valid(seq![x])) by {
            assert forall|i: int| 0 <= i < seq![x].len() implies op_valid(#[trigger] seq![x][i]) by {
                assert(seq![x][i] == xs[0]);
            }
        }
        let q1 = pass_concurrent(seq![x], a, c1, b);
        let g1 = q1.0;
        let d1 = q1.1;
        lemma_pass_valid(seq![x], a, c1, b);
        let q2 = pass_concurrent(g1, a, c2, b);
        let g2 = q2.0;
        let d2 = q2.1;
        lemma_pass_valid(g1, a, c2, b);
        lemma_pass_columns(seq![x], a, c1, c2, b);
        lemma_columns_split(xr, a, d1, d2, b);
        lemma_group_rows(g1, a, c2, b);
        lemma_rows_concat(g1, ops_transform(xr, a, d1, b), a, c2, b);
    }
}

/// Transforming is symmetric: what is left of the concurrent edit after
/// an edit passed it is that edit transformed the other way.
pub proof fn lemma_transform_symmetric(xs: Seq<OpModel>, a: ParticipantId, ys: Seq<OpModel>, b: ParticipantId)
    requires
        all_valid(xs),
        all_valid(ys),
    ensures
        ops_transform_rest(xs, a, ys, b) == ops_transform(ys, b, xs, a),
        ops_transform(xs, a, ys, b) == ops_transform_rest(ys, b, xs, a),
    decreases ys.len(),
{
    if ys.len() == 0 {
        lemma_transform_nothing(xs, a, b);
    } else {
        let y = ys[0];
        let yr = ys.drop_first();
        assert(all_valid(yr)) by {
            assert forall|i: int| 0 <= i < yr.len() implies op_valid(#[trigger] yr[i]) by {
                assert(yr[i] == ys[i + 1]);
            }
        }
        assert(all_valid(seq![y])) by {
            assert forall|i: int| 0 <= i < seq![y].len() implies op_valid(#[trigger] seq![y][i]) by {
                assert(seq![y][i] == ys[0]);
            }
        }
        assert(ys =~= seq![y] + yr);
        lemma_columns_split(xs, a, seq![y], yr, b);
        lemma_edit_through_group(xs, seq![y], a, b);
        let p = pass_concurrent(seq![y], b, xs, a);
        lemma_pass_valid(seq![y], b, xs, a);
        lemma_transform_symmetric(p.1, a, yr, b);
    }
}

} // verus!
