//! An in-memory store, useful for testing.
use vstd::prelude::*;

use super::{
    page_event, page_events, content_at_result, empty_doc, events_since, events_view, numbered_view, replay, SequenceId,
    StoreError,
};
use crate::document::{
    OpModel, apply_event, check_event, cursors_within, DocModel, Document, Edit, Event, EventModel, Insert,
    Join, Leave, Operation,
};

verus! {

/// The documents of a store: each path with its events, oldest first.
pub open spec fn docs_map(docs: Seq<(Seq<char>, Seq<EventModel>)>) -> Map<Seq<char>, Seq<EventModel>>
    decreases docs.len(),
{
    if docs.len() == 0 {
        Map::empty()
    } else {
        docs_map(docs.drop_last()).insert(docs.last().0, docs.last().1)
    }
}

/// No path occurs twice.
pub open spec fn distinct_paths(docs: Seq<(Seq<char>, Seq<EventModel>)>) -> bool {
    forall|i: int, j: int| 0 <= i < j < docs.len() ==> #[trigger] docs[i].0 != #[trigger] docs[j].0
}

proof fn lemma_docs_map_index(docs: Seq<(Seq<char>, Seq<EventModel>)>, i: int)
    requires
        distinct_paths(docs),
        0 <= i < docs.len(),
    ensures
        docs_map(docs).contains_key(docs[i].0),
        docs_map(docs)[docs[i].0] == docs[i].1,
    decreases docs.len(),
{
    if i < docs.len() - 1 {
        lemma_docs_map_index(docs.drop_last(), i);
        assert(docs.drop_last()[i] == docs[i]);
        assert(docs[i].0 != docs[docs.len() - 1].0);
    }
}

proof fn lemma_docs_map_missing(docs: Seq<(Seq<char>, Seq<EventModel>)>, path: Seq<char>)
    requires
        forall|i: int| 0 <= i < docs.len() ==> #[trigger] docs[i].0 != path,
    ensures
        !docs_map(docs).contains_key(path),
    decreases docs.len(),
{
    if docs.len() > 0 {
        lemma_docs_map_missing(docs.drop_last(), path);
    }
}

proof fn lemma_docs_map_dom(docs: Seq<(Seq<char>, Seq<EventModel>)>, path: Seq<char>)
    ensures
        docs_map(docs).contains_key(path) <==> exists|i: int| 0 <= i < docs.len() && #[trigger] docs[i].0 == path,
    decreases docs.len(),
{
    if docs.len() > 0 {
        lemma_docs_map_dom(docs.drop_last(), path);
        if docs_map(docs.drop_last()).contains_key(path) {
            let i = choose|i: int| 0 <= i < docs.drop_last().len() && #[trigger] docs.drop_last()[i].0 == path;
            assert(docs[i].0 == path);
        }
        if exists|i: int| 0 <= i < docs.len() && #[trigger] docs[i].0 == path {
            let i = choose|i: int| 0 <= i < docs.len() && #[trigger] docs[i].0 == path;
            if i < docs.len() - 1 {
                assert(docs.drop_last()[i].0 == path);
            }
        }
    }
}

proof fn lemma_docs_map_update(docs: Seq<(Seq<char>, Seq<EventModel>)>, i: int, v: Seq<EventModel>)
    requires
        distinct_paths(docs),
        0 <= i < docs.len(),
    ensures
        docs_map(docs.update(i, (docs[i].0, v))) == docs_map(docs).insert(docs[i].0, v),
        distinct_paths(docs.update(i, (docs[i].0, v))),
    decreases docs.len(),
{
    let u = docs.update(i, (docs[i].0, v));
    if i == docs.len() - 1 {
        assert(u.drop_last() =~= docs.drop_last());
        assert(docs_map(u) =~= docs_map(docs).insert(docs[i].0, v));
    } else {
        assert(u.drop_last() =~= docs.drop_last().update(i, (docs[i].0, v)));
        lemma_docs_map_update(docs.drop_last(), i, v);
        assert(docs.drop_last()[i] == docs[i]);
        assert(docs[i].0 != docs[docs.len() - 1].0);
        assert(docs_map(u) =~= docs_map(docs).insert(docs[i].0, v));
    }
}

/// The document rebuilt from the first `n` of `events`, or `None` when
/// one of them cannot be applied.
fn replay_events(events: &Vec<Event>, n: usize) -> (r: Option<Document>)
    requires
        n <= events.len(),
    ensures
        r is Some <==> replay(empty_doc(), events_view(events@).take(n as int)) is Some,
        r matches Some(d) ==> d@ == replay(empty_doc(), events_view(events@).take(n as int))->Some_0,
        r matches Some(d) ==> d.wf(),
{
    let ghost all = events_view(events@).take(n as int);
    let mut doc = Document::default();
    assert(doc@ =~= empty_doc());
    assert(all.skip(0) =~= all);
    let mut i: usize = 0;
    while i < n
        invariant
            0 <= i <= n <= events.len(),
            all == events_view(events@).take(n as int),
            doc.wf(),
            replay(doc@, all.skip(i as int)) == replay(empty_doc(), all),
        decreases n - i,
    {
        let ghost rest = all.skip(i as int);
        assert(rest[0] == events@[i as int]@);
        assert(rest.drop_first() =~= all.skip(i + 1));
        if doc.apply(&events[i]).is_err() {
            return None;
        }
        i = i + 1;
    }
    assert(all.skip(i as int) =~= Seq::<EventModel>::empty());
    Some(doc)
}

/// Holds document data in memory: each path with its events.
#[derive(Debug)]
pub struct MemoryStore {
    documents: Vec<(String, Vec<Event>)>,
}

impl MemoryStore {
    /// Each path with the models of its events.
    pub closed spec fn entries(&self) -> Seq<(Seq<char>, Seq<EventModel>)> {
        self.documents@.map_values(|e: (String, Vec<Event>)| (e.0@, events_view(e.1@)))
    }

    /// No path occurs twice. Every store that `new` and `from_pages`
    /// build, and that `push` changes, keeps it.
    pub closed spec fn wf(&self) -> bool {
        distinct_paths(self.entries())
    }
}

impl Default for MemoryStore {
    fn default() -> (s: Self)
        ensures
            s.wf(),
            s@ == Map::<Seq<char>, Seq<EventModel>>::empty(),
    {
        MemoryStore::new()
    }
}

impl MemoryStore {
    /// A store with no documents.
    pub fn new() -> (s: Self)
        ensures
            s.wf(),
            s@ == Map::<Seq<char>, Seq<EventModel>>::empty(),
    {
        let s = MemoryStore { documents: Vec::new() };
        assert(s.entries() =~= Seq::<(Seq<char>, Seq<EventModel>)>::empty());
        s
    }

    /// The index of the document at `path`, if there is one.
    fn find(&self, path: &String) -> (r: Option<usize>)
        requires
            self.wf(),
        ensures
            match r {
                Some(i) => i < self.documents@.len() && self.entries()[i as int].0 == path@,
                None => forall|i: int| 0 <= i < self.entries().len() ==> #[trigger] self.entries()[i].0 != path@,
            },
            r is Some <==> self@.contains_key(path@),
            r matches Some(i) ==> self@[path@] == self.entries()[i as int].1,
    {
        let mut i: usize = 0;
        while i < self.documents.len()
            invariant
                0 <= i <= self.documents.len(),
                distinct_paths(self.entries()),
                forall|j: int| 0 <= j < i ==> #[trigger] self.entries()[j].0 != path@,
            decreases self.documents.len() - i,
        {
            if self.documents[i].0 == *path {
                proof {
                    lemma_docs_map_index(self.entries(), i as int);
                }
                return Some(i);
            }
            i = i + 1;
        }
        proof {
            lemma_docs_map_missing(self.entries(), path@);
        }
        None
    }

    /// Adds a new Event to the document at 'path' and returns the new
    /// SequenceId (the number of events the document now has). If the
    /// document does not exist, the act of pushing an Event creates it.
    pub fn push(&mut self, path: String, event: Event) -> (seq: SequenceId)
        requires
            old(self).wf(),
        ensures
            final(self).wf(),
            final(self)@ == old(self)@.insert(
                path@,
                (if old(self)@.contains_key(path@) {
                    old(self)@[path@]
                } else {
                    Seq::<EventModel>::empty()
                }).push(event@),
            ),
            seq == final(self)@[path@].len(),
    {
        let ghost before = self.entries();
        match self.find(&path) {
            Some(i) => {
                let (p, mut events) = self.documents.remove(i);
                assert(self.entries() =~= before.remove(i as int));
                let ghost e = event@;
                events.push(event);
                let ghost new_events = events_view(events@);
                assert(new_events =~= before[i as int].1.push(e));
                self.documents.insert(i, (p, events));
                proof {
                    assert(self.entries() =~= before.update(i as int, (before[i as int].0, new_events)));
                    lemma_docs_map_update(before, i as int, new_events);
                }
                let n = self.documents[i].1.len();
                proof {
                    lemma_docs_map_index(self.entries(), i as int);
                }
                n as SequenceId
            },
            None => {
                let ghost e = event@;
                let mut events: Vec<Event> = Vec::new();
                events.push(event);
                assert(events_view(events@) =~= seq![e]);
                let ghost p = path@;
                self.documents.push((path, events));
                proof {
                    assert(self.entries() =~= before.push((p, seq![e])));
                    assert(self.entries().drop_last() =~= before);
                    assert(Seq::<EventModel>::empty().push(e) =~= seq![e]);
                }
                1
            },
        }
    }

    /// Requests the current SequenceId for the document at 'path', or
    /// StoreError::NotFound if it does not exist.
    pub fn seq(&self, path: &str) -> (r: Result<SequenceId, StoreError>)
        requires
            self.wf(),
        ensures
            r == (if self@.contains_key(path@) {
                Ok::<SequenceId, StoreError>(self@[path@].len() as SequenceId)
            } else {
                Err::<SequenceId, StoreError>(StoreError::NotFound)
            }),
    {
        let key = String::from_str(path);
        match self.find(&key) {
            Some(i) => Ok(self.documents[i].1.len() as SequenceId),
            None => Err(StoreError::NotFound),
        }
    }

    /// Requests the Events starting *after* the provided SequenceId,
    /// each with its SequenceId. Requesting the current (head)
    /// SequenceId is not an error, but gives no events. Requesting
    /// Events since a SequenceId that does not exist yet is a
    /// StoreError::InvalidSequenceId.
    pub fn since(&self, path: &str, seq: SequenceId) -> (r: Result<Vec<(SequenceId, Event)>, StoreError>)
        requires
            self.wf(),
        ensures
            !self@.contains_key(path@) ==> r == Err::<Vec<(SequenceId, Event)>, StoreError>(StoreError::NotFound),
            self@.contains_key(path@) && seq > self@[path@].len() ==> r == Err::<
                Vec<(SequenceId, Event)>,
                StoreError,
            >(StoreError::InvalidSequenceId),
            self@.contains_key(path@) && seq <= self@[path@].len() ==> r is Ok && numbered_view(r->Ok_0@)
                == events_since(self@[path@], seq as int),
    {
        let key = String::from_str(path);
        match self.find(&key) {
            Some(i) => {
                let events = &self.documents[i].1;
                if seq > events.len() as u64 {
                    return Err(StoreError::InvalidSequenceId);
                }
                let start = seq as usize;
                let ghost all = events_view(events@);
                let mut out: Vec<(SequenceId, Event)> = Vec::new();
                let mut j: usize = start;
                while j < events.len()
                    invariant
                        start <= j <= events.len(),
                        all == events_view(events@),
                        start == seq,
                        numbered_view(out@) =~= events_since(all, seq as int).take(j - start),
                    decreases events.len() - j,
                {
                    let ghost before = numbered_view(out@);
                    let e = events[j].clone();
                    out.push(((j + 1) as SequenceId, e));
                    assert(numbered_view(out@) =~= before.push(((j + 1) as SequenceId, all[j as int])));
                    assert(events_since(all, seq as int).take(j + 1 - start) =~= events_since(
                        all,
                        seq as int,
                    ).take(j - start).push(((j + 1) as SequenceId, all[j as int])));
                    j = j + 1;
                }
                assert(events_since(all, seq as int).take(j - start) =~= events_since(all, seq as int));
                Ok(out)
            },
            None => Err(StoreError::NotFound),
        }
    }

    /// Requests a snapshot of the document's content at a specific
    /// SequenceId. All events from SequenceId=1 (inclusive) to
    /// SequenceId=seq will be applied. Results in a
    /// StoreError::NotFound if the document does not exist,
    /// StoreError::InvalidSequenceId if the SequenceId does not exist,
    /// and StoreError::InvalidDocument if an event cannot be applied.
    pub fn content_at(&self, path: &str, seq: SequenceId) -> (r: Result<Document, StoreError>)
        requires
            self.wf(),
        ensures
            !self@.contains_key(path@) ==> r == Err::<Document, StoreError>(StoreError::NotFound),
            self@.contains_key(path@) ==> match content_at_result(self@[path@], seq as int) {
                Ok(d) => r is Ok && r->Ok_0@ == d && r->Ok_0.wf(),
                Err(e) => r == Err::<Document, StoreError>(e),
            },
    {
        let key = String::from_str(path);
        match self.find(&key) {
            Some(i) => {
                let events = &self.documents[i].1;
                assert(self.entries()[i as int].1 == events_view(events@));
                if seq > events.len() as u64 {
                    return Err(StoreError::InvalidSequenceId);
                }
                match replay_events(events, seq as usize) {
                    Some(doc) => Ok(doc),
                    None => Err(StoreError::InvalidDocument),
                }
            },
            None => Err(StoreError::NotFound),
        }
    }

    /// Requests the current SequenceId and content for the document at
    /// 'path' (with all events applied), or StoreError::NotFound if the
    /// document does not exist.
    pub fn content(&self, path: &str) -> (r: Result<(SequenceId, Document), StoreError>)
        requires
            self.wf(),
        ensures
            !self@.contains_key(path@) ==> r == Err::<(SequenceId, Document), StoreError>(StoreError::NotFound),
            self@.contains_key(path@) ==> match content_at_result(self@[path@], self@[path@].len() as int) {
                Ok(d) => r is Ok && r->Ok_0.0 == self@[path@].len() && r->Ok_0.1@ == d && r->Ok_0.1.wf(),
                Err(e) => r == Err::<(SequenceId, Document), StoreError>(e),
            },
    {
        let key = String::from_str(path);
        match self.find(&key) {
            Some(i) => {
                let events = &self.documents[i].1;
                assert(self.entries()[i as int].1 == events_view(events@));
                let n = events.len();
                assert(events_view(events@).take(n as int) =~= events_view(events@));
                match replay_events(events, n) {
                    Some(doc) => Ok((n as SequenceId, doc)),
                    None => Err(StoreError::InvalidDocument),
                }
            },
            None => Err(StoreError::NotFound),
        }
    }


    /// A store holding one document per page, whose single insert
    /// operation writes the page's content. The insert comes from a
    /// participant of the document, so that reading the page back
    /// succeeds: participant 1 joins, inserts the content at the
    /// beginning, and leaves. Each page therefore holds three events,
    /// and its head is sequence id 3. No path may occur twice.
    pub fn from_pages(pages: Vec<(String, String)>) -> (s: Self)
        requires
            forall|i: int, j: int| 0 <= i < j < pages.len() ==> #[trigger] pages[i].0@ != #[trigger] pages[j].0@,
        ensures
            s.wf(),
            forall|p: Seq<char>| s@.contains_key(p) <==> exists|i: int| 0 <= i < pages.len() && #[trigger] pages[i].0@ == p,
            forall|i: int| 0 <= i < pages.len() ==> s@[#[trigger] pages[i].0@] == page_events(pages[i].1@),
    {
        let mut s = MemoryStore { documents: Vec::new() };
        assert(s.entries() =~= Seq::<(Seq<char>, Seq<EventModel>)>::empty());
        for i in 0..pages.len()
            invariant
                forall|i: int, j: int| 0 <= i < j < pages.len() ==> #[trigger] pages[i].0@ != #[trigger] pages[j].0@,
                s.wf(),
                s.entries().len() == i,
                forall|j: int| 0 <= j < i ==> #[trigger] s.entries()[j] == (pages[j].0@, page_events(pages[j].1@)),
        {
            let ghost before = s.entries();
            let path = pages[i].0.clone();
            let content = pages[i].1.clone();
            let mut ops: Vec<Operation> = Vec::new();
            ops.push(Operation::Insert(Insert { pos: 0, content }));
            let mut events: Vec<Event> = Vec::new();
            events.push(Event::Join(Join { id: 1 }));
            events.push(Event::Edit(Edit { author: 1, operations: ops }));
            events.push(Event::Leave(Leave { id: 1 }));
            assert(events_view(events@) =~= page_events(pages[i as int].1@)) by {
                assert(crate::document::ops_view(ops@) =~= seq![OpModel::Insert { pos: 0, text: pages[i as int].1@ }]);
            }
            s.documents.push((path, events));
            assert(s.entries() =~= before.push((pages[i as int].0@, page_events(pages[i as int].1@))));
        }
        proof {
            assert forall|i: int| 0 <= i < pages.len() implies s@[#[trigger] pages[i].0@] == page_events(pages[i].1@) by {
                lemma_docs_map_index(s.entries(), i);
            }
            assert forall|p: Seq<char>| s@.contains_key(p) <==> exists|i: int| 0 <= i < pages.len() && #[trigger] pages[i].0@ == p by {
                lemma_docs_map_dom(s.entries(), p);
                if exists|i: int| 0 <= i < pages.len() && #[trigger] pages[i].0@ == p {
                    let i = choose|i: int| 0 <= i < pages.len() && #[trigger] pages[i].0@ == p;
                    assert(s.entries()[i].0 == p);
                }
                if exists|i: int| 0 <= i < s.entries().len() && #[trigger] s.entries()[i].0 == p {
                    let i = choose|i: int| 0 <= i < s.entries().len() && #[trigger] s.entries()[i].0 == p;
                    assert(pages[i].0@ == p);
                }
            }
        }
        s
    }

}

impl View for MemoryStore {
    type V = Map<Seq<char>, Seq<EventModel>>;

    closed spec fn view(&self) -> Map<Seq<char>, Seq<EventModel>> {
        docs_map(self.entries())
    }
}

} // verus!
