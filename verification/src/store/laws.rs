//! What holds of every store: the events read back after a push, and
//! the history that a push leaves alone.
use vstd::prelude::*;

use super::{content_at_result, events_since, page_events, replay, SequenceId};
use crate::document::{apply_event, check_event, DocModel, EventModel};

verus! {

/// Reading the events since the head that a push started from gives
/// exactly the pushed event, numbered with the new head.
pub proof fn lemma_since_after_push(events: Seq<EventModel>, e: EventModel)
    requires
        events.len() < u64::MAX,
    ensures
        events_since(events.push(e), events.len() as int) == seq![((events.len() + 1) as SequenceId, e)],
{
    assert(events_since(events.push(e), events.len() as int) =~= seq![((events.len() + 1) as SequenceId, e)]);
}

/// Reading the events since SequenceId 0 gives every event, the first
/// numbered 1.
pub proof fn lemma_since_zero(events: Seq<EventModel>)
    requires
        events.len() <= u64::MAX,
    ensures
        events_since(events, 0).len() == events.len(),
        forall|i: int|
            0 <= i < events.len() ==> #[trigger] events_since(events, 0)[i] == ((i + 1) as SequenceId, events[i]),
{
}

/// Replaying events one more event: the document before it, with the
/// event applied where it can be.
pub proof fn lemma_replay_push(d: DocModel, events: Seq<EventModel>, e: EventModel)
    ensures
        replay(d, events.push(e)) == match replay(d, events) {
            Some(before) => if check_event(before, e) is Some {
                None
            } else {
                Some(apply_event(before, e))
            },
            None => None::<DocModel>,
        },
    decreases events.len(),
{
    let all = events.push(e);
    if events.len() == 0 {
        assert(all.drop_first() =~= Seq::<EventModel>::empty());
        assert(replay(apply_event(d, e), all.drop_first()) == Some(apply_event(d, e)));
    } else {
        assert(all[0] == events[0]);
        assert(all.drop_first() =~= events.drop_first().push(e));
        lemma_replay_push(apply_event(d, events[0]), events.drop_first(), e);
    }
}

/// Pushing an event leaves the content at every earlier SequenceId as
/// it was.
pub proof fn lemma_push_keeps_history(events: Seq<EventModel>, e: EventModel, seq: int)
    requires
        0 <= seq <= events.len(),
    ensures
        content_at_result(events.push(e), seq) == content_at_result(events, seq),
{
    assert(events.push(e).take(seq) =~= events.take(seq));
}

/// The content at the new head after a push: the previous content with
/// the pushed event applied, or `InvalidDocument` where it cannot be.
pub proof fn lemma_content_after_push(events: Seq<EventModel>, e: EventModel)
    ensures
        content_at_result(events.push(e), events.len() + 1int) == match content_at_result(
            events,
            events.len() as int,
        ) {
            Ok(before) => if check_event(before, e) is Some {
                Err(super::StoreError::InvalidDocument)
            } else {
                Ok(apply_event(before, e))
            },
            Err(err) => Err(err),
        },
{
    let all = events.push(e);
    assert(all.take(all.len() as int) =~= events.take(events.len() as int).push(e));
    assert(events.take(events.len() as int) =~= events);
    lemma_replay_push(super::empty_doc(), events, e);
}

/// A page created with `content` reads back, at its head, as exactly
/// that content with no participants.
pub proof fn lemma_page_content(content: Seq<char>)
    ensures
        content_at_result(page_events(content), 3) == Ok::<DocModel, super::StoreError>(
            DocModel { content: content, cursors: Map::empty() },
        ),
{
    let evs = page_events(content);
    let d0 = super::empty_doc();
    let d1 = apply_event(d0, evs[0]);
    let d2 = apply_event(d1, evs[1]);
    let d3 = apply_event(d2, evs[2]);
    assert(evs.take(3) =~= evs);
    assert(evs.drop_first()[0] == evs[1]);
    assert(evs.drop_first().drop_first()[0] == evs[2]);
    assert(evs.drop_first().drop_first().drop_first() =~= Seq::<EventModel>::empty());
    assert(check_event(d0, evs[0]) is None);
    assert(d1.cursors =~= map![1usize => 0nat]);
    assert(check_event(d1, evs[1]) is None) by {
        reveal_with_fuel(crate::document::check_ops, 2);
    }
    assert(d2.content =~= content) by {
        reveal_with_fuel(crate::document::apply_ops, 2);
    }
    assert(d2.cursors.dom().contains(1)) by {
        reveal_with_fuel(crate::document::apply_ops, 2);
    }
    assert(check_event(d2, evs[2]) is None);
    assert(d3.cursors =~= Map::<crate::document::ParticipantId, nat>::empty()) by {
        reveal_with_fuel(crate::document::apply_ops, 2);
    }
    assert(replay(d3, evs.drop_first().drop_first().drop_first()) == Some(d3));
    assert(replay(d2, evs.drop_first().drop_first()) == Some(d3));
    assert(replay(d1, evs.drop_first()) == Some(d3));
    assert(replay(d0, evs) == Some(d3));
}

} // verus!
