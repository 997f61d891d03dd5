//! Transforming operations and edits against concurrent ones.
use vstd::prelude::*;

use super::model::{OpModel, ParticipantId};
use super::transform_model::{
    event_transform, event_transform_fits, group_transform, group_transform_fits,
    has_priority, lemma_group_transform_push, op_transform, op_transform_fits, ops_transform,
    ops_transform_fits, pass_concurrent, pass_concurrent_fits, through_group, through_group_fits,
};
use super::{clone_ops, ops_view, push_op, Delete, Edit, Event, Insert, MoveCursor, Operation};

verus! {

impl Edit {
    /// Does the Edit from ParticipantId 'a' take precedence over the
    /// Edit from ParticipantId 'b' if operations conflict?
    fn has_priority(a: ParticipantId, b: ParticipantId) -> (r: bool)
        ensures
            r == has_priority(a, b),
    {
        a > b
    }
}

impl Insert {
    /// Writes this insert, rewritten to follow `other_op`, to `output`.
    fn transform(
        self,
        author: ParticipantId,
        other_op: &Operation,
        other_author: ParticipantId,
        output: &mut Vec<Operation>,
    )
        requires
            op_transform_fits(Operation::Insert(self)@, author, other_op@, other_author),
        ensures
            ops_view(final(output)@) == ops_view(old(output)@) + op_transform(
                Operation::Insert(self)@,
                author,
                other_op@,
                other_author,
            ),
    {
        let ghost op = Operation::Insert(self)@;
        let mut this = self;
        match other_op {
            Operation::Insert(other) => {
                if other.pos < this.pos || (other.pos == this.pos && Edit::has_priority(
                    other_author,
                    author,
                )) {
                    this.pos = this.pos + other.content.as_str().unicode_len();
                }
            },
            Operation::Delete(other) => {
                if other.start < this.pos {
                    let end = if this.pos <= other.end {
                        this.pos
                    } else {
                        other.end
                    };
                    this.pos = this.pos - (end - other.start);
                }
            },
            Operation::MoveCursor(_) => {},
        }
        push_op(output, Operation::Insert(this));
        assert(ops_view(output@) =~= ops_view(old(output)@) + op_transform(
            op,
            author,
            other_op@,
            other_author,
        ));
    }
}

impl Delete {
    /// Writes this delete, rewritten to follow `other_op`, to `output`:
    /// one delete, or two when an insert lands inside its range.
    fn transform(
        self,
        _author: ParticipantId,
        other_op: &Operation,
        _other_author: ParticipantId,
        output: &mut Vec<Operation>,
    )
        requires
            op_transform_fits(Operation::Delete(self)@, _author, other_op@, _other_author),
        ensures
            ops_view(final(output)@) == ops_view(old(output)@) + op_transform(
                Operation::Delete(self)@,
                _author,
                other_op@,
                _other_author,
            ),
    {
        let ghost op = Operation::Delete(self)@;
        let mut this = self;
        match other_op {
            Operation::Insert(other) => {
                if other.pos < this.start {
                    let len = other.content.as_str().unicode_len();
                    this.start = this.start + len;
                    this.end = this.end + len;
                    push_op(output, Operation::Delete(this));
                } else if other.pos < this.end && this.end - this.start > 0 {
                    // split the delete in two to avoid clobbering the
                    // new insert; the part after the insert is applied
                    // first so the author's cursor ends up at the start
                    let before = Delete { start: this.start, end: other.pos };
                    let len = other.content.as_str().unicode_len();
                    this.start = other.pos + len;
                    this.end = this.end + len;
                    push_op(output, Operation::Delete(this));
                    push_op(output, Operation::Delete(before));
                } else {
                    push_op(output, Operation::Delete(this));
                }
            },
            Operation::Delete(other) => {
                let chars_deleted_before: usize = if other.start < this.start {
                    let end = if this.start <= other.end {
                        this.start
                    } else {
                        other.end
                    };
                    end - other.start
                } else {
                    0
                };
                let mut chars_deleted_inside: usize = 0;
                if other.start < this.start {
                    if other.end > this.start {
                        let end = if this.end <= other.end {
                            this.end
                        } else {
                            other.end
                        };
                        chars_deleted_inside = end - this.start;
                    }
                } else if other.start < this.end {
                    let end = if this.end <= other.end {
                        this.end
                    } else {
                        other.end
                    };
                    chars_deleted_inside = end - other.start;
                }
                this.start = this.start - chars_deleted_before;
                this.end = this.end - (chars_deleted_before + chars_deleted_inside);
                push_op(output, Operation::Delete(this));
            },
            Operation::MoveCursor(_) => {
                push_op(output, Operation::Delete(this));
            },
        }
        assert(ops_view(output@) =~= ops_view(old(output)@) + op_transform(
            op,
            _author,
            other_op@,
            _other_author,
        ));
    }
}

impl MoveCursor {
    /// Writes this cursor move, rewritten to follow `other_op`, to `output`.
    fn transform(
        self,
        _author: ParticipantId,
        other_op: &Operation,
        _other_author: ParticipantId,
        output: &mut Vec<Operation>,
    )
        requires
            op_transform_fits(Operation::MoveCursor(self)@, _author, other_op@, _other_author),
        ensures
            ops_view(final(output)@) == ops_view(old(output)@) + op_transform(
                Operation::MoveCursor(self)@,
                _author,
                other_op@,
                _other_author,
            ),
    {
        let ghost op = Operation::MoveCursor(self)@;
        let mut this = self;
        match other_op {
            Operation::Insert(other) => {
                if other.pos < this.pos {
                    this.pos = this.pos + other.content.as_str().unicode_len();
                }
            },
            Operation::Delete(other) => {
                if other.start < this.pos {
                    let end = if this.pos <= other.end {
                        this.pos
                    } else {
                        other.end
                    };
                    this.pos = this.pos - (end - other.start);
                }
            },
            Operation::MoveCursor(_) => {},
        }
        push_op(output, Operation::MoveCursor(this));
        assert(ops_view(output@) =~= ops_view(old(output)@) + op_transform(
            op,
            _author,
            other_op@,
            _other_author,
        ));
    }
}

impl Operation {
    /// Writes this operation (from `author`), rewritten to follow
    /// `other_op` (from `other_author`), to `output`.
    fn transform(
        self,
        author: ParticipantId,
        other_op: &Operation,
        other_author: ParticipantId,
        output: &mut Vec<Operation>,
    )
        requires
            op_transform_fits(self@, author, other_op@, other_author),
        ensures
            ops_view(final(output)@) == ops_view(old(output)@) + op_transform(
                self@,
                author,
                other_op@,
                other_author,
            ),
    {
        match self {
            Operation::Insert(this) => this.transform(author, other_op, other_author, output),
            Operation::Delete(this) => this.transform(author, other_op, other_author, output),
            Operation::MoveCursor(this) => this.transform(author, other_op, other_author, output),
        }
    }
}

/// Whether the transform of `op` against `other` stays within `usize`
/// arithmetic (see `op_transform_fits`).
fn transform_fits(op: &Operation, author: ParticipantId, other: &Operation, other_author: ParticipantId) -> (r: bool)
    ensures
        r == op_transform_fits(op@, author, other@, other_author),
{
    match (op, other) {
        (Operation::Insert(this), Operation::Insert(o)) => {
            if o.pos < this.pos || (o.pos == this.pos && Edit::has_priority(other_author, author)) {
                this.pos <= usize::MAX - o.content.as_str().unicode_len()
            } else {
                true
            }
        },
        (Operation::Insert(this), Operation::Delete(o)) => !(o.start < this.pos) || o.start <= o.end,
        (Operation::Delete(this), Operation::Insert(o)) => {
            let len = o.content.as_str().unicode_len();
            if o.pos < this.start {
                this.start <= usize::MAX - len && this.end <= usize::MAX - len
            } else if o.pos < this.end {
                this.start <= this.end && (this.end == this.start || this.end <= usize::MAX - len)
            } else {
                true
            }
        },
        (Operation::Delete(this), Operation::Delete(o)) => {
            if o.start < this.start && o.end < o.start {
                return false;
            }
            if o.start < this.start && o.end > this.start && this.end < this.start {
                return false;
            }
            if this.start <= o.start && o.start < this.end && o.end < o.start {
                return false;
            }
            let before: usize = if o.start < this.start {
                let end = if this.start <= o.end {
                    this.start
                } else {
                    o.end
                };
                end - o.start
            } else {
                0
            };
            let mut inside: usize = 0;
            if o.start < this.start {
                if o.end > this.start {
                    let end = if this.end <= o.end {
                        this.end
                    } else {
                        o.end
                    };
                    inside = end - this.start;
                }
            } else if o.start < this.end {
                let end = if this.end <= o.end {
                    this.end
                } else {
                    o.end
                };
                inside = end - o.start;
            }
            before <= usize::MAX - inside && before + inside <= this.end
        },
        (Operation::MoveCursor(this), Operation::Insert(o)) => {
            !(o.pos < this.pos) || this.pos <= usize::MAX - o.content.as_str().unicode_len()
        },
        (Operation::MoveCursor(this), Operation::Delete(o)) => !(o.start < this.pos) || o.start <= o.end,
        (_, Operation::MoveCursor(_)) => true,
    }
}

/// Each of `group` (from `author`) rewritten to follow `con` (from
/// `con_author`), or `None` when that leaves `usize` arithmetic.
fn transform_group(
    group: &Vec<Operation>,
    author: ParticipantId,
    con: &Operation,
    con_author: ParticipantId,
) -> (r: Option<Vec<Operation>>)
    ensures
        r is Some <==> group_transform_fits(ops_view(group@), author, con@, con_author),
        r matches Some(v) ==> ops_view(v@) == group_transform(ops_view(group@), author, con@, con_author),
{
    let ghost g = ops_view(group@);
    let mut out: Vec<Operation> = Vec::new();
    assert(g.take(0) =~= Seq::<OpModel>::empty());
    for i in 0..group.len()
        invariant
            g == ops_view(group@),
            ops_view(out@) == group_transform(g.take(i as int), author, con@, con_author),
            forall|j: int| 0 <= j < i ==> op_transform_fits(#[trigger] g[j], author, con@, con_author),
    {
        if !transform_fits(&group[i], author, con, con_author) {
            return None;
        }
        proof {
            assert(g.take(i + 1) =~= g.take(i as int).push(g[i as int]));
            lemma_group_transform_push(g.take(i as int), g[i as int], author, con@, con_author);
        }
        group[i].clone().transform(author, con, con_author, &mut out);
    }
    assert(g.take(group.len() as int) =~= g);
    Some(out)
}

/// `con` (from `con_author`) rewritten to follow each of `group` (from
/// `author`) in turn, or `None` when that leaves `usize` arithmetic.
fn transform_through(
    con: &Operation,
    con_author: ParticipantId,
    group: &Vec<Operation>,
    author: ParticipantId,
) -> (r: Option<Vec<Operation>>)
    ensures
        r is Some <==> through_group_fits(seq![con@], con_author, ops_view(group@), author),
        r matches Some(v) ==> ops_view(v@) == through_group(
            seq![con@],
            con_author,
            ops_view(group@),
            author,
        ),
{
    let ghost g = ops_view(group@);
    let mut cons: Vec<Operation> = Vec::new();
    push_op(&mut cons, con.clone());
    assert(ops_view(cons@) =~= seq![con@]);
    assert(g.skip(0) =~= g);
    for i in 0..group.len()
        invariant
            g == ops_view(group@),
            through_group(ops_view(cons@), con_author, g.skip(i as int), author) == through_group(
                seq![con@],
                con_author,
                g,
                author,
            ),
            through_group_fits(ops_view(cons@), con_author, g.skip(i as int), author)
                == through_group_fits(seq![con@], con_author, g, author),
    {
        assert(g.skip(i as int)[0] == g[i as int]);
        assert(g.skip(i as int).drop_first() =~= g.skip(i + 1));
        match transform_group(&cons, con_author, &group[i], author) {
            Some(next) => {
                cons = next;
            },
            None => {
                return None;
            },
        }
    }
    assert(g.skip(group.len() as int) =~= Seq::<OpModel>::empty());
    Some(cons)
}

/// The operations that `op` (from `author`) becomes after passing each
/// of `concurrent` (from `con_author`), and the concurrent operations
/// rewritten to follow it; `None` when that leaves `usize` arithmetic.
fn pass_concurrent_ops(
    op: &Operation,
    author: ParticipantId,
    concurrent: &Vec<Operation>,
    con_author: ParticipantId,
) -> (r: Option<(Vec<Operation>, Vec<Operation>)>)
    ensures
        r is Some <==> pass_concurrent_fits(seq![op@], author, ops_view(concurrent@), con_author),
        r matches Some(v) ==> (ops_view(v.0@), ops_view(v.1@)) == pass_concurrent(
            seq![op@],
            author,
            ops_view(concurrent@),
            con_author,
        ),
{
    let ghost c = ops_view(concurrent@);
    let ghost result = pass_concurrent(seq![op@], author, c, con_author);
    let mut group: Vec<Operation> = Vec::new();
    push_op(&mut group, op.clone());
    assert(ops_view(group@) =~= seq![op@]);
    let mut next_concurrent: Vec<Operation> = Vec::new();
    assert(c.skip(0) =~= c);
    assert(ops_view(next_concurrent@) + pass_concurrent(seq![op@], author, c, con_author).1
        =~= result.1);
    for j in 0..concurrent.len()
        invariant
            c == ops_view(concurrent@),
            result == pass_concurrent(seq![op@], author, c, con_author),
            pass_concurrent(ops_view(group@), author, c.skip(j as int), con_author).0 == result.0,
            ops_view(next_concurrent@) + pass_concurrent(
                ops_view(group@),
                author,
                c.skip(j as int),
                con_author,
            ).1 == result.1,
            pass_concurrent_fits(ops_view(group@), author, c.skip(j as int), con_author)
                == pass_concurrent_fits(seq![op@], author, c, con_author),
    {
        let ghost rest = c.skip(j as int);
        assert(rest[0] == c[j as int]);
        assert(rest.drop_first() =~= c.skip(j + 1));
        let con = &concurrent[j];
        let next_group = match transform_group(&group, author, con, con_author) {
            Some(v) => v,
            None => {
                return None;
            },
        };
        let mut con_group = match transform_through(con, con_author, &group, author) {
            Some(v) => v,
            None => {
                return None;
            },
        };
        let ghost before_next = ops_view(next_concurrent@);
        let ghost added = ops_view(con_group@);
        next_concurrent.append(&mut con_group);
        assert(ops_view(next_concurrent@) =~= before_next + added);
        group = next_group;
        assert(ops_view(next_concurrent@) + pass_concurrent(
            ops_view(group@),
            author,
            c.skip(j + 1),
            con_author,
        ).1 =~= result.1);
    }
    assert(c.skip(concurrent.len() as int) =~= Seq::<OpModel>::empty());
    assert(ops_view(next_concurrent@) =~= result.1);
    Some((group, next_concurrent))
}

impl Edit {
    /// Rewrites the operations of this edit to follow a concurrent edit
    /// whose operations were already applied, as `ops_transform` says;
    /// returns false, leaving the edit unchanged, where a position would
    /// leave `usize` arithmetic.
    pub fn try_transform(&mut self, other: &Edit) -> (ok: bool)
        ensures
            ok == ops_transform_fits(
                ops_view(old(self).operations@),
                old(self).author,
                ops_view(other.operations@),
                other.author,
            ),
            final(self).author == old(self).author,
            ok ==> ops_view(final(self).operations@) == ops_transform(
                ops_view(old(self).operations@),
                old(self).author,
                ops_view(other.operations@),
                other.author,
            ),
            !ok ==> ops_view(final(self).operations@) == ops_view(old(self).operations@),
    {
        let ghost ops = ops_view(self.operations@);
        let ghost result = ops_transform(ops, self.author, ops_view(other.operations@), other.author);
        let mut concurrent = clone_ops(&other.operations);
        let mut next_ops: Vec<Operation> = Vec::new();
        assert(ops.skip(0) =~= ops);
        assert(ops_view(next_ops@) + ops_transform(ops, self.author, ops_view(concurrent@), other.author) =~= result);
        for i in 0..self.operations.len()
            invariant
                ops == ops_view(self.operations@),
                result == ops_transform(ops, self.author, ops_view(other.operations@), other.author),
                ops_view(next_ops@) + ops_transform(
                    ops.skip(i as int),
                    self.author,
                    ops_view(concurrent@),
                    other.author,
                ) == result,
                ops_transform_fits(ops.skip(i as int), self.author, ops_view(concurrent@), other.author)
                    == ops_transform_fits(ops, self.author, ops_view(other.operations@), other.author),
        {
            let ghost rest = ops.skip(i as int);
            assert(rest[0] == ops[i as int]);
            assert(rest.drop_first() =~= ops.skip(i + 1));
            match pass_concurrent_ops(&self.operations[i], self.author, &concurrent, other.author) {
                Some((mut group, next_concurrent)) => {
                    let ghost before_next = ops_view(next_ops@);
                    let ghost added = ops_view(group@);
                    next_ops.append(&mut group);
                    assert(ops_view(next_ops@) =~= before_next + added);
                    concurrent = next_concurrent;
                    assert(ops_view(next_ops@) + ops_transform(
                        ops.skip(i + 1),
                        self.author,
                        ops_view(concurrent@),
                        other.author,
                    ) =~= result);
                },
                None => {
                    return false;
                },
            }
        }
        assert(ops.skip(self.operations.len() as int) =~= Seq::<OpModel>::empty());
        assert(ops_view(next_ops@) =~= result);
        self.operations = next_ops;
        true
    }

    /// Modifies the `operations` inside the Edit struct to
    /// accommodate a concurrent Edit entry whose operations have
    /// already been applied locally.
    pub fn transform(&mut self, other: &Edit)
        requires
            ops_transform_fits(
                ops_view(old(self).operations@),
                old(self).author,
                ops_view(other.operations@),
                other.author,
            ),
        ensures
            final(self).author == old(self).author,
            ops_view(final(self).operations@) == ops_transform(
                ops_view(old(self).operations@),
                old(self).author,
                ops_view(other.operations@),
                other.author,
            ),
    {
        let _ = self.try_transform(other);
    }
}

impl Event {
    /// Rewrites this event to follow a concurrent event already applied
    /// locally (only an edit following an edit changes); returns false,
    /// leaving the event unchanged, where a position would leave `usize`
    /// arithmetic.
    pub fn try_transform(&mut self, concurrent: &Event) -> (ok: bool)
        ensures
            ok == event_transform_fits(old(self)@, concurrent@),
            ok ==> final(self)@ == event_transform(old(self)@, concurrent@),
            !ok ==> final(self)@ == old(self)@,
            !(concurrent@ is Edit) ==> ok && final(self)@ == old(self)@,
    {
        match (self, concurrent) {
            (Event::Edit(a), Event::Edit(b)) => a.try_transform(b),
            _ => true,
        }
    }

    /// Modifies the Event struct to accommodate a concurrent Event
    /// which has already been applied locally.
    pub fn transform(&mut self, concurrent: &Event)
        requires
            event_transform_fits(old(self)@, concurrent@),
        ensures
            final(self)@ == event_transform(old(self)@, concurrent@),
            !(concurrent@ is Edit) ==> final(self)@ == old(self)@,
    {
        let _ = self.try_transform(concurrent);
    }
}

} // verus!
