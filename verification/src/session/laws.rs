//! What writing a client's edit keeps: the document's history stays one
//! that can be applied.
use vstd::prelude::*;

use super::{event_source, transform_concurrent};
use crate::document::laws::lemma_concurrent_edits_converge;
use crate::document::transform_model::event_transform;
use crate::document::{apply_event, check_event, DocModel, EventModel, OpModel, ParticipantId};
use crate::store::laws::lemma_replay_push;
use crate::store::{content_at_result, empty_doc, events_since, replay, SequenceId};

verus! {

/// The events of numbered events.
pub open spec fn events_of(cs: Seq<(SequenceId, EventModel)>) -> Seq<EventModel> {
    cs.map_values(|p: (SequenceId, EventModel)| p.1)
}

/// Replaying two runs of events in turn.
pub proof fn lemma_replay_concat(d: DocModel, x: Seq<EventModel>, y: Seq<EventModel>)
    ensures
        replay(d, x + y) == match replay(d, x) {
            Some(d2) => replay(d2, y),
            None => None,
        },
    decreases x.len(),
{
    if x.len() == 0 {
        assert(x + y =~= y);
    } else {
        assert((x + y)[0] == x[0]);
        assert((x + y).drop_first() =~= x.drop_first() + y);
        lemma_replay_concat(apply_event(d, x[0]), x.drop_first(), y);
    }
}

/// An edit from `sender` accepted by `d`, rewritten to follow events
/// that `d` accepts in turn and that come from others, is accepted after
/// them.
proof fn lemma_follow_accepted(d: DocModel, sender: ParticipantId, e: EventModel, cs: Seq<(SequenceId, EventModel)>)
    requires
        e matches EventModel::Edit { author, .. } && author == sender,
        check_event(d, e) is None,
        replay(d, events_of(cs)) is Some,
        forall|i: int| 0 <= i < cs.len() ==> event_source(#[trigger] cs[i].1) != sender,
        transform_concurrent(e, sender, cs) is Some,
    ensures
        check_event(replay(d, events_of(cs))->Some_0, transform_concurrent(e, sender, cs)->Some_0) is None,
    decreases cs.len(),
{
    if cs.len() > 0 {
        let c = cs[0].1;
        let rest = cs.drop_first();
        assert(events_of(cs)[0] == c);
        assert(events_of(cs).drop_first() =~= events_of(rest));
        assert(event_source(c) != sender);
        let e1 = event_transform(e, c);
        let d1 = apply_event(d, c);
        match c {
            EventModel::Edit { author: b, ops: ys } => {
                if let EventModel::Edit { author: a, ops: xs } = e {
                    lemma_concurrent_edits_converge(d, a, xs, b, ys);
                }
            },
            EventModel::Join { id } => {
                assert(d1.cursors =~= d.cursors.insert(id, 0));
            },
            EventModel::Leave { id } => {
                assert(d1.cursors =~= d.cursors.remove(id));
            },
        }
        assert(check_event(d1, e1) is None);
        assert forall|i: int| 0 <= i < rest.len() implies event_source(#[trigger] rest[i].1) != sender by {
            assert(rest[i] == cs[i + 1]);
        }
        lemma_follow_accepted(d1, sender, e1, rest);
    }
}

/// Writing a client's edit keeps the document's history applicable: an
/// edit from `sender` that the document accepted at `parent_seq`,
/// rewritten to follow the events stored since (none of them the
/// sender's), can be applied after all of them, so the document's
/// content can still be rebuilt at every SequenceId.
pub proof fn lemma_transformed_edit_keeps_history(
    events: Seq<EventModel>,
    parent_seq: int,
    sender: ParticipantId,
    ops: Seq<OpModel>,
)
    requires
        0 <= parent_seq <= events.len(),
        content_at_result(events, events.len() as int) is Ok,
        content_at_result(events, parent_seq) matches Ok(d) && check_event(
            d,
            EventModel::Edit { author: sender, ops },
        ) is None,
        forall|i: int| parent_seq <= i < events.len() ==> event_source(#[trigger] events[i]) != sender,
        transform_concurrent(
            EventModel::Edit { author: sender, ops },
            sender,
            events_since(events, parent_seq),
        ) is Some,
    ensures
        content_at_result(
            events.push(
                transform_concurrent(
                    EventModel::Edit { author: sender, ops },
                    sender,
                    events_since(events, parent_seq),
                )->Some_0,
            ),
            events.len() + 1int,
        ) is Ok,
{
    let e = EventModel::Edit { author: sender, ops };
    let cs = events_since(events, parent_seq);
    let t = transform_concurrent(e, sender, cs)->Some_0;
    let before = events.take(parent_seq);
    let after = events.skip(parent_seq);
    assert(events.take(events.len() as int) =~= events);
    assert(events =~= before + after);
    assert(events_of(cs) =~= after);
    lemma_replay_concat(empty_doc(), before, after);
    let d = replay(empty_doc(), before)->Some_0;
    assert forall|i: int| 0 <= i < cs.len() implies event_source(#[trigger] cs[i].1) != sender by {
        assert(cs[i].1 == events[parent_seq + i]);
    }
    lemma_follow_accepted(d, sender, e, cs);
    lemma_replay_push(empty_doc(), events, t);
    assert(events.push(t).take(events.len() + 1int) =~= events.push(t));
}

} // verus!
