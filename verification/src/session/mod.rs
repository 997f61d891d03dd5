//! Co-ordinates store updates and notifications.
//!
//! A document session hands out participant ids, writes their join,
//! leave and edit events to the store, and rewrites each client edit to
//! follow the events that were stored concurrently with it.
use vstd::prelude::*;

use crate::document::transform_model::{event_transform, event_transform_fits};
use crate::document::{Event, EventModel, Join, Leave, ParticipantId};
use crate::store::memory::MemoryStore;
use crate::store::{events_since, numbered_view, SequenceId, StoreError};

pub mod connection;
pub mod laws;
pub mod manager;
pub mod message;
pub mod participant;

verus! {

/// The participant an event comes from: the author of an edit, or the
/// participant joining or leaving.
pub open spec fn event_source(e: EventModel) -> ParticipantId {
    match e {
        EventModel::Edit { author, .. } => author,
        EventModel::Join { id } => id,
        EventModel::Leave { id } => id,
    }
}

/// `event` from `sender` rewritten to follow each of the stored
/// `concurrent` events in turn, skipping the sender's own events; `None`
/// when a rewrite leaves `usize` arithmetic.
pub open spec fn transform_concurrent(
    event: EventModel,
    sender: ParticipantId,
    concurrent: Seq<(SequenceId, EventModel)>,
) -> Option<EventModel>
    decreases concurrent.len(),
{
    if concurrent.len() == 0 {
        Some(event)
    } else {
        let c = concurrent[0].1;
        if event_source(c) == sender {
            transform_concurrent(event, sender, concurrent.drop_first())
        } else if event_transform_fits(event, c) {
            transform_concurrent(event_transform(event, c), sender, concurrent.drop_first())
        } else {
            None
        }
    }
}

/// With nothing concurrent, an event is written as it is.
pub proof fn lemma_nothing_concurrent(event: EventModel, sender: ParticipantId)
    ensures
        transform_concurrent(event, sender, Seq::empty()) == Some(event),
{
}

/// A concurrent join or leave, and any event of the sender's own, changes
/// nothing in how an event is rewritten: it may as well not be there.
pub proof fn lemma_membership_events_pass(
    event: EventModel,
    sender: ParticipantId,
    c: (SequenceId, EventModel),
    rest: Seq<(SequenceId, EventModel)>,
)
    requires
        !(c.1 is Edit) || event_source(c.1) == sender,
    ensures
        transform_concurrent(event, sender, seq![c] + rest) == transform_concurrent(event, sender, rest),
{
    let all = seq![c] + rest;
    assert(all[0] == c);
    assert(all.drop_first() =~= rest);
}

/// Where no concurrent event is an edit by another participant (only
/// joins, leaves and the sender's own events came in between), the event
/// is written exactly as the sender made it.
pub proof fn lemma_no_concurrent_edits(
    event: EventModel,
    sender: ParticipantId,
    concurrent: Seq<(SequenceId, EventModel)>,
)
    requires
        forall|i: int|
            0 <= i < concurrent.len() ==> !(#[trigger] concurrent[i].1 is Edit) || event_source(concurrent[i].1)
                == sender,
    ensures
        transform_concurrent(event, sender, concurrent) == Some(event),
    decreases concurrent.len(),
{
    if concurrent.len() > 0 {
        let rest = concurrent.drop_first();
        assert forall|i: int| 0 <= i < rest.len() implies !(#[trigger] rest[i].1 is Edit) || event_source(rest[i].1)
            == sender by {
            assert(rest[i] == concurrent[i + 1]);
        }
        assert(concurrent[0].1 == concurrent[0].1);
        lemma_no_concurrent_edits(event, sender, rest);
        lemma_membership_events_pass(event, sender, concurrent[0], rest);
        assert(seq![concurrent[0]] + rest =~= concurrent);
    }
}

/// A rewritten event keeps its source and its kind: an edit stays an edit
/// by the same author, and a join or leave stays as it is.
pub proof fn lemma_rewrite_keeps_source(
    event: EventModel,
    sender: ParticipantId,
    concurrent: Seq<(SequenceId, EventModel)>,
)
    ensures
        transform_concurrent(event, sender, concurrent) matches Some(r) ==> (event_source(r) == event_source(event)
            && (r is Edit <==> event is Edit) && (!(event is Edit) ==> r == event)),
    decreases concurrent.len(),
{
    if concurrent.len() > 0 {
        let c = concurrent[0].1;
        if event_source(c) == sender {
            lemma_rewrite_keeps_source(event, sender, concurrent.drop_first());
        } else if event_transform_fits(event, c) {
            lemma_rewrite_keeps_source(event_transform(event, c), sender, concurrent.drop_first());
        }
    }
}

/// The participant an event comes from.
pub fn event_source_id(event: &Event) -> (r: ParticipantId)
    ensures
        r == event_source(event@),
{
    match event {
        Event::Edit(edit) => edit.author,
        Event::Join(Join { id }) => *id,
        Event::Leave(Leave { id }) => *id,
    }
}

/// Rewrites `event` from `sender` to follow each of `concurrent` (events
/// already in the store, with their SequenceIds), skipping the sender's
/// own events. Returns `None` where a rewrite would leave `usize`
/// arithmetic.
pub fn transform_against(event: Event, sender: ParticipantId, concurrent: &Vec<(SequenceId, Event)>) -> (r:
    Option<Event>)
    ensures
        r is Some <==> transform_concurrent(event@, sender, numbered_view(concurrent@)) is Some,
        r matches Some(e) ==> e@ == transform_concurrent(event@, sender, numbered_view(concurrent@))->Some_0,
        (forall|i: int|
            0 <= i < concurrent.len() ==> !(#[trigger] concurrent@[i].1@ is Edit) || event_source(concurrent@[i].1@)
                == sender) ==> (r matches Some(e) && e@ == event@),
{
    proof {
        let all = numbered_view(concurrent@);
        if forall|i: int|
            0 <= i < concurrent.len() ==> !(#[trigger] concurrent@[i].1@ is Edit) || event_source(concurrent@[i].1@)
                == sender {
            assert forall|i: int| 0 <= i < all.len() implies !(#[trigger] all[i].1 is Edit) || event_source(all[i].1)
                == sender by {
                assert(all[i].1 == concurrent@[i].1@);
            }
            lemma_no_concurrent_edits(event@, sender, all);
        }
    }
    let ghost all = numbered_view(concurrent@);
    let ghost result = transform_concurrent(event@, sender, all);
    let mut current = event;
    assert(all.skip(0) =~= all);
    let mut i: usize = 0;
    while i < concurrent.len()
        invariant
            0 <= i <= concurrent.len(),
            all == numbered_view(concurrent@),
            result == transform_concurrent(event@, sender, all),
            result == transform_concurrent(current@, sender, all.skip(i as int)),
        decreases concurrent.len() - i,
    {
        let ghost rest = all.skip(i as int);
        assert(rest[0] == (concurrent@[i as int].0, concurrent@[i as int].1@));
        assert(rest.drop_first() =~= all.skip(i + 1));
        let c = &concurrent[i].1;
        if event_source_id(c) != sender {
            // the sender's own events were already seen by its client
            let ghost before = current@;
            if !current.try_transform(c) {
                assert(rest.len() > 0 && rest[0].1 == c@);
                assert(transform_concurrent(before, sender, rest) is None);
                return None;
            }
        }
        i = i + 1;
    }
    assert(all.skip(i as int) =~= Seq::<(SequenceId, EventModel)>::empty());
    Some(current)
}

/// Holds information about the active session of one document.
pub struct DocumentSession {
    /// The document's path in the store
    pub path: String,
    /// The last participant id handed out
    pub next_id: ParticipantId,
    /// The sequence id of the last event written during this session,
    /// or None if no events have been written yet.
    pub last_seq: Option<SequenceId>,
}

impl DocumentSession {
    /// A session for the document at `path`, before anyone joined.
    pub fn new(path: String) -> (s: Self)
        ensures
            s.path@ == path@,
            s.next_id == 0,
            s.last_seq is None,
    {
        DocumentSession { path, next_id: 0, last_seq: None }
    }

    /// Writes an event to the store and records its sequence id as the
    /// last one of the session.
    pub fn write(&mut self, store: &mut MemoryStore, event: Event) -> (seq: SequenceId)
        requires
            old(store).wf(),
        ensures
            final(store).wf(),
            final(store)@ == old(store)@.insert(
                old(self).path@,
                (if old(store)@.contains_key(old(self).path@) {
                    old(store)@[old(self).path@]
                } else {
                    Seq::<EventModel>::empty()
                }).push(event@),
            ),
            seq == final(store)@[old(self).path@].len(),
            final(self).last_seq == Some(seq),
            final(self).path == old(self).path,
            final(self).next_id == old(self).next_id,
    {
        let seq = store.push(self.path.clone(), event);
        self.last_seq = Some(seq);
        seq
    }

    /// A new participant joins: it gets the next id, and its Join event
    /// is written. Returns the id and the new participant, which reads
    /// events after `start_seq`.
    pub fn join(&mut self, store: &mut MemoryStore, start_seq: SequenceId) -> (r: (
        ParticipantId,
        participant::Participant,
    ))
        requires
            old(store).wf(),
            old(self).next_id < usize::MAX,
        ensures
            r.0 == old(self).next_id + 1,
            final(self).next_id == r.0,
            r.1.id == r.0,
            r.1.seq == start_seq,
            r.1.client_seq == 0,
            final(self).path == old(self).path,
            final(store).wf(),
            final(store)@ == old(store)@.insert(
                old(self).path@,
                (if old(store)@.contains_key(old(self).path@) {
                    old(store)@[old(self).path@]
                } else {
                    Seq::<EventModel>::empty()
                }).push(EventModel::Join { id: r.0 }),
            ),
            final(self).last_seq == Some(final(store)@[old(self).path@].len() as SequenceId),
    {
        self.next_id = self.next_id + 1;
        let id = self.next_id;
        self.write(store, Event::Join(Join { id }));
        (id, participant::Participant::new(id, start_seq))
    }

    /// Notifies the other clients that participant `id` has left, by
    /// writing its Leave event.
    pub fn leave(&mut self, store: &mut MemoryStore, id: ParticipantId) -> (seq: SequenceId)
        requires
            old(store).wf(),
        ensures
            final(store).wf(),
            final(store)@ == old(store)@.insert(
                old(self).path@,
                (if old(store)@.contains_key(old(self).path@) {
                    old(store)@[old(self).path@]
                } else {
                    Seq::<EventModel>::empty()
                }).push(EventModel::Leave { id }),
            ),
            seq == final(store)@[old(self).path@].len(),
            final(self).last_seq == Some(seq),
            final(self).next_id == old(self).next_id,
            final(self).path == old(self).path,
    {
        self.write(store, Event::Leave(Leave { id }))
    }

    /// First rewrites `event` from `sender` to follow the events stored
    /// after `parent_seq` (the last one the sender had seen), then writes
    /// the result to the store. Store errors from reading those events
    /// are returned; `Ok(None)`, with nothing written, where a rewrite
    /// would leave `usize` arithmetic.
    pub fn write_transformed(
        &mut self,
        store: &mut MemoryStore,
        sender: ParticipantId,
        parent_seq: SequenceId,
        event: Event,
    ) -> (r: Result<Option<SequenceId>, StoreError>)
        requires
            old(store).wf(),
        ensures
            final(store).wf(),
            final(self).next_id == old(self).next_id,
            final(self).path == old(self).path,
            r matches Ok(Some(seq)) ==> final(self).last_seq == Some(seq),
            !(r matches Ok(Some(_))) ==> final(self).last_seq == old(self).last_seq,
            !old(store)@.contains_key(old(self).path@) ==> r == Err::<Option<SequenceId>, StoreError>(
                StoreError::NotFound,
            ) && final(store)@ == old(store)@,
            old(store)@.contains_key(old(self).path@) && parent_seq > old(store)@[old(self).path@].len()
                ==> r == Err::<Option<SequenceId>, StoreError>(StoreError::InvalidSequenceId)
                && final(store)@ == old(store)@,
            old(store)@.contains_key(old(self).path@) && parent_seq <= old(store)@[old(self).path@].len()
                ==> match transform_concurrent(
                event@,
                sender,
                events_since(old(store)@[old(self).path@], parent_seq as int),
            ) {
                Some(e) => r == Ok::<Option<SequenceId>, StoreError>(
                    Some((old(store)@[old(self).path@].len() + 1) as SequenceId),
                ) && final(store)@ == old(store)@.insert(
                    old(self).path@,
                    old(store)@[old(self).path@].push(e),
                ),
                None => r == Ok::<Option<SequenceId>, StoreError>(None) && final(store)@ == old(store)@,
            },
    {
        let concurrent = match store.since(self.path.as_str(), parent_seq) {
            Ok(events) => events,
            Err(e) => {
                return Err(e);
            },
        };
        match transform_against(event, sender, &concurrent) {
            Some(transformed) => {
                let seq = self.write(store, transformed);
                Ok(Some(seq))
            },
            None => Ok(None),
        }
    }
}

} // verus!
