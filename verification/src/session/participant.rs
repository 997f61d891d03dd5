//! What a client connected to a DocumentSession is sent, and what it
//! writes.
use vstd::prelude::*;

use super::message::{ClientEditMessage, EditMessage, JoinMessage, LeaveMessage, ServerMessage};
use super::event_source;
use crate::document::{ops_view, Edit, Event, EventModel, Join, Leave, ParticipantId};
use crate::store::{numbered_view, SequenceId};

verus! {

/// A client connected to a DocumentSession: which events it has read,
/// and the last of its own edits that was written.
#[derive(Debug, PartialEq, Eq, Clone, Copy)]
pub struct Participant {
    /// The participant's id
    pub id: ParticipantId,
    /// The sequence id of the last event read
    pub seq: SequenceId,
    /// The client's sequence id of its last edit written to the store
    pub client_seq: SequenceId,
}

impl Participant {
    /// Creates a new Participant with the given id, reading the events
    /// after `since`.
    pub fn new(id: ParticipantId, since: SequenceId) -> (p: Self)
        ensures
            p.id == id,
            p.seq == since,
            p.client_seq == 0,
    {
        Participant { id, seq: since, client_seq: 0 }
    }

    /// Returns the ParticipantId.
    pub fn get_id(&self) -> (r: ParticipantId)
        ensures
            r == self.id,
    {
        self.id
    }

    /// Events that the participant caused itself are not sent back to it.
    pub fn ignored_event(&self, event: &Event) -> (r: bool)
        ensures
            r == (event_source(event@) == self.id),
    {
        match event {
            Event::Edit(Edit { author, .. }) => *author == self.id,
            Event::Leave(Leave { id }) => *id == self.id,
            Event::Join(Join { id }) => *id == self.id,
        }
    }

    /// Converts an event into a ServerMessage, adding the server's
    /// sequence id for the event and the most recently written client
    /// sequence id of the participant.
    pub fn prepare_server_message(&self, seq: SequenceId, event: Event) -> (m: ServerMessage)
        ensures
            event_message(m, self.client_seq, seq, event@),
    {
        match event {
            Event::Edit(edit) => ServerMessage::Edit(EditMessage {
                client_seq: self.client_seq,
                seq,
                author: edit.author,
                operations: edit.operations,
            }),
            Event::Join(Join { id }) => ServerMessage::Join(JoinMessage { client_seq: self.client_seq, seq, id }),
            Event::Leave(Leave { id }) => ServerMessage::Leave(LeaveMessage { client_seq: self.client_seq, seq, id }),
        }
    }

    /// The participant reads stored event `seq`: it is sent as a message
    /// unless the participant caused it.
    pub fn receive(&mut self, seq: SequenceId, event: Event) -> (m: Option<ServerMessage>)
        ensures
            final(self).seq == seq,
            final(self).id == old(self).id,
            final(self).client_seq == old(self).client_seq,
            event_source(event@) == old(self).id ==> m is None,
            event_source(event@) != old(self).id ==> m is Some && event_message(
                m->Some_0,
                old(self).client_seq,
                seq,
                event@,
            ),
    {
        self.seq = seq;
        if self.ignored_event(&event) {
            None
        } else {
            Some(self.prepare_server_message(seq, event))
        }
    }

    /// The participant reads stored events in order: the messages are
    /// those for the events it did not cause, in order, and it has then
    /// read up to the last of them.
    pub fn read(&mut self, events: &Vec<(SequenceId, Event)>) -> (ms: Vec<ServerMessage>)
        ensures
            feed_messages(ms@, old(self).id, old(self).client_seq, numbered_view(events@)),
            final(self).id == old(self).id,
            final(self).client_seq == old(self).client_seq,
            final(self).seq == if events@.len() > 0 {
                events@.last().0
            } else {
                old(self).seq
            },
    {
        let ghost all = numbered_view(events@);
        let mut ms: Vec<ServerMessage> = Vec::new();
        let mut i: usize = 0;
        assert(all.take(0) =~= Seq::<(SequenceId, EventModel)>::empty());
        while i < events.len()
            invariant
                0 <= i <= events.len(),
                all == numbered_view(events@),
                self.id == old(self).id,
                self.client_seq == old(self).client_seq,
                self.seq == if i > 0 {
                    events@[i - 1].0
                } else {
                    old(self).seq
                },
                feed_messages(ms@, self.id, self.client_seq, all.take(i as int)),
            decreases events.len() - i,
        {
            let seq = events[i].0;
            let event = events[i].1.clone();
            let ghost before = ms@;
            assert(all.take(i + 1).drop_last() =~= all.take(i as int));
            assert(all.take(i + 1).last() == (seq, event@));
            match self.receive(seq, event) {
                Some(m) => {
                    ms.push(m);
                    assert(ms@.drop_last() =~= before);
                },
                None => {},
            }
            i = i + 1;
        }
        assert(all.take(events.len() as int) =~= all);
        ms
    }

    /// Whether events were written after the last one the participant
    /// read, so that it must read again.
    pub fn has_unread(&self, last_seq: Option<SequenceId>) -> (r: bool)
        ensures
            r == (last_seq matches Some(l) && l > self.seq),
    {
        match last_seq {
            Some(l) => l > self.seq,
            None => false,
        }
    }

    /// The edit event of a client's message, authored by this
    /// participant, to be rewritten to follow the events after the
    /// message's `parent_seq`.
    pub fn client_edit(&self, msg: ClientEditMessage) -> (r: Event)
        ensures
            r@ == (EventModel::Edit { author: self.id, ops: ops_view(msg.operations@) }),
    {
        Event::Edit(Edit { author: self.id, operations: msg.operations })
    }

    /// The client's edit with sequence id `client_seq` was written.
    pub fn edit_written(&mut self, client_seq: SequenceId)
        ensures
            final(self).client_seq == client_seq,
            final(self).id == old(self).id,
            final(self).seq == old(self).seq,
    {
        self.client_seq = client_seq;
    }
}

/// `m` is the message for stored event `event` with sequence id `seq`,
/// sent to a participant whose last written edit was `client_seq`.
pub open spec fn event_message(m: ServerMessage, client_seq: SequenceId, seq: SequenceId, event: EventModel) -> bool {
    match event {
        EventModel::Edit { author, ops } => m matches ServerMessage::Edit(e) && e.client_seq == client_seq && e.seq
            == seq && e.author == author && ops_view(e.operations@) == ops,
        EventModel::Join { id } => m == ServerMessage::Join(JoinMessage { client_seq, seq, id }),
        EventModel::Leave { id } => m == ServerMessage::Leave(LeaveMessage { client_seq, seq, id }),
    }
}

/// `ms` are the messages that a participant `id`, whose last written
/// edit is `client_seq`, is sent for reading `events` in order: one for
/// each event it did not cause, in the same order.
pub open spec fn feed_messages(
    ms: Seq<ServerMessage>,
    id: ParticipantId,
    client_seq: SequenceId,
    events: Seq<(SequenceId, EventModel)>,
) -> bool
    decreases events.len(),
{
    if events.len() == 0 {
        ms.len() == 0
    } else if event_source(events.last().1) == id {
        feed_messages(ms, id, client_seq, events.drop_last())
    } else {
        &&& ms.len() > 0
        &&& event_message(ms.last(), client_seq, events.last().0, events.last().1)
        &&& feed_messages(ms.drop_last(), id, client_seq, events.drop_last())
    }
}

/// The participant a server message tells of, with the sequence id of its
/// event, and the client sequence id it carries.
pub open spec fn message_origin(m: ServerMessage) -> Option<(ParticipantId, SequenceId, SequenceId)> {
    match m {
        ServerMessage::Edit(e) => Some((e.author, e.seq, e.client_seq)),
        ServerMessage::Join(j) => Some((j.id, j.seq, j.client_seq)),
        ServerMessage::Leave(l) => Some((l.id, l.seq, l.client_seq)),
        ServerMessage::Connected(_) => None,
    }
}

/// `m` tells participant `id` of a stored event of another participant,
/// with the participant's client sequence id.
pub open spec fn told_by_other(
    m: ServerMessage,
    id: ParticipantId,
    client_seq: SequenceId,
    events: Seq<(SequenceId, EventModel)>,
) -> bool {
    &&& message_origin(m) is Some
    &&& message_origin(m)->Some_0.0 != id
    &&& message_origin(m)->Some_0.2 == client_seq
    &&& exists|i: int|
        0 <= i < events.len() && events[i].0 == message_origin(m)->Some_0.1 && event_source(#[trigger] events[i].1)
            == message_origin(m)->Some_0.0
}

/// What a participant reads never tells it of its own events: every
/// message comes from another participant, carries the sequence id of a
/// stored event of that participant, and the participant's client
/// sequence id; and there is never more than one message per event.
pub proof fn lemma_feed_never_echoes(
    ms: Seq<ServerMessage>,
    id: ParticipantId,
    client_seq: SequenceId,
    events: Seq<(SequenceId, EventModel)>,
)
    requires
        feed_messages(ms, id, client_seq, events),
    ensures
        ms.len() <= events.len(),
        forall|k: int|
            0 <= k < ms.len() ==> told_by_other(#[trigger] ms[k], id, client_seq, events),
    decreases events.len(),
{
    if events.len() > 0 {
        let r = events.drop_last();
        let e = events.last();
        assert(e == events[events.len() - 1]);
        if event_source(e.1) == id {
            lemma_feed_never_echoes(ms, id, client_seq, r);
            assert forall|k: int| 0 <= k < ms.len() implies told_by_other(#[trigger] ms[k], id, client_seq, events) by {
                let o = message_origin(ms[k])->Some_0;
                let i = choose|i: int| 0 <= i < r.len() && r[i].0 == o.1 && event_source(#[trigger] r[i].1) == o.0;
                assert(events[i] == r[i]);
            }
        } else {
            let front = ms.drop_last();
            lemma_feed_never_echoes(front, id, client_seq, r);
            assert forall|k: int| 0 <= k < ms.len() implies told_by_other(#[trigger] ms[k], id, client_seq, events) by {
                if k < ms.len() - 1 {
                    assert(ms[k] == front[k]);
                    let o = message_origin(ms[k])->Some_0;
                    let i = choose|i: int| 0 <= i < r.len() && r[i].0 == o.1 && event_source(#[trigger] r[i].1) == o.0;
                    assert(events[i] == r[i]);
                } else {
                    assert(ms[k] == ms.last());
                    let n = events.len() - 1;
                    assert(events[n] == e);
                }
            }
        }
    }
}

/// Where every event read comes from another participant, each is told:
/// the messages are as many as the events, the k-th telling of the k-th.
pub proof fn lemma_feed_tells_others(
    ms: Seq<ServerMessage>,
    id: ParticipantId,
    client_seq: SequenceId,
    events: Seq<(SequenceId, EventModel)>,
)
    requires
        feed_messages(ms, id, client_seq, events),
        forall|i: int| 0 <= i < events.len() ==> event_source(#[trigger] events[i].1) != id,
    ensures
        ms.len() == events.len(),
        forall|k: int|
            0 <= k < ms.len() ==> message_origin(#[trigger] ms[k]) == Some((event_source(events[k].1), events[k].0, client_seq)),
    decreases events.len(),
{
    if events.len() > 0 {
        let r = events.drop_last();
        let n = events.len() - 1;
        assert(events.last() == events[n]);
        assert forall|i: int| 0 <= i < r.len() implies event_source(#[trigger] r[i].1) != id by {
            assert(r[i] == events[i]);
        }
        lemma_feed_tells_others(ms.drop_last(), id, client_seq, r);
        assert forall|k: int| 0 <= k < ms.len() implies message_origin(#[trigger] ms[k]) == Some((event_source(events[k].1), events[k].0, client_seq)) by {
            if k < n {
                assert(ms[k] == ms.drop_last()[k]);
                assert(r[k] == events[k]);
            } else {
                assert(ms[k] == ms.last());
            }
        }
    }
}

} // verus!
