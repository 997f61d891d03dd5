//! The sessions of the documents that someone is editing.
use vstd::prelude::*;

use super::participant::Participant;
use super::{transform_concurrent, DocumentSession};
use crate::document::{Event, EventModel, ParticipantId};
use crate::store::memory::MemoryStore;
use crate::store::{events_since, SequenceId, StoreError};

verus! {

/// A document session and the number of its participants that have not
/// left yet.
pub struct ActiveSession {
    pub session: DocumentSession,
    pub participants: usize,
}

/// The index of the first session of `path`, if any.
pub open spec fn session_position(s: Seq<ActiveSession>, path: Seq<char>) -> Option<int>
    decreases s.len(),
{
    if s.len() == 0 {
        None
    } else if s[0].session.path@ == path {
        Some(0)
    } else {
        match session_position(s.drop_first(), path) {
            Some(i) => Some(i + 1),
            None => None,
        }
    }
}

proof fn lemma_position(s: Seq<ActiveSession>, path: Seq<char>)
    ensures
        session_position(s, path) matches Some(i) ==> 0 <= i < s.len() && s[i].session.path@ == path,
        session_position(s, path) is None ==> forall|i: int| 0 <= i < s.len() ==> #[trigger] s[i].session.path@ != path,
    decreases s.len(),
{
    if s.len() > 0 {
        lemma_position(s.drop_first(), path);
        assert forall|i: int| 0 < i < s.len() implies #[trigger] s[i] == s.drop_first()[i - 1] by {}
    }
}

/// With distinct paths, the session of a path is the one whose path it is.
proof fn lemma_position_at(s: Seq<ActiveSession>, path: Seq<char>, i: int)
    requires
        forall|j: int, k: int| 0 <= j < k < s.len() ==> #[trigger] s[j].session.path@ != #[trigger] s[k].session.path@,
        0 <= i < s.len(),
        s[i].session.path@ == path,
    ensures
        session_position(s, path) == Some(i),
{
    lemma_position(s, path);
    if let Some(j) = session_position(s, path) {
        if j != i {
            if j < i {
                assert(s[j].session.path@ != s[i].session.path@);
            } else {
                assert(s[i].session.path@ != s[j].session.path@);
            }
        }
    }
}

/// A participant joining or leaving the session of a document.
pub enum SessionAction {
    Join(Seq<char>),
    Leave(Seq<char>),
}

/// What an action does to the sessions, each given as its last handed
/// out id and its number of participants: a join makes the session if
/// needed and hands out the next id; a leave drops the session when its
/// last participant goes.
pub open spec fn session_step(m: Map<Seq<char>, (nat, nat)>, act: SessionAction) -> Map<Seq<char>, (nat, nat)> {
    match act {
        SessionAction::Join(p) => if m.contains_key(p) {
            m.insert(p, (m[p].0 + 1, m[p].1 + 1))
        } else {
            m.insert(p, (1, 1))
        },
        SessionAction::Leave(p) => if m.contains_key(p) {
            if m[p].1 <= 1 {
                m.remove(p)
            } else {
                m.insert(p, (m[p].0, (m[p].1 - 1) as nat))
            }
        } else {
            m
        },
    }
}

/// The sessions after a history of actions, starting with none.
pub open spec fn session_run(h: Seq<SessionAction>) -> Map<Seq<char>, (nat, nat)>
    decreases h.len(),
{
    if h.len() == 0 {
        Map::empty()
    } else {
        session_step(session_run(h.drop_last()), h.last())
    }
}

/// How many times a history joins `path`.
pub open spec fn joins(h: Seq<SessionAction>, path: Seq<char>) -> nat
    decreases h.len(),
{
    if h.len() == 0 {
        0
    } else {
        joins(h.drop_last(), path) + if h.last() == SessionAction::Join(path) {
            1nat
        } else {
            0nat
        }
    }
}

/// How many times a history leaves `path`.
pub open spec fn leaves(h: Seq<SessionAction>, path: Seq<char>) -> nat
    decreases h.len(),
{
    if h.len() == 0 {
        0
    } else {
        leaves(h.drop_last(), path) + if h.last() == SessionAction::Leave(path) {
            1nat
        } else {
            0nat
        }
    }
}

/// At every point of the history, the session of `path` keeps a
/// participant once someone joined it: nobody leaves before the first
/// join, and there are always more joins than leaves after it.
pub open spec fn kept_open(h: Seq<SessionAction>, path: Seq<char>) -> bool {
    forall|i: int|
        0 <= i <= h.len() ==> {
            &&& joins(#[trigger] h.take(i), path) == 0 ==> leaves(h.take(i), path) == 0
            &&& joins(h.take(i), path) > 0 ==> leaves(h.take(i), path) < joins(h.take(i), path)
        }
}

/// Participant ids are counted per document: while the session of the
/// document at `path` keeps a participant, it has handed out one id per
/// join of it and holds the participants that joined and did not leave,
/// whatever happened to other documents; a document that nobody joined
/// has no session, so its first participant gets id 1. The next join of
/// the document gets the id one past the number of joins so far (see
/// `DocumentSessionManager::join`, whose id is the last id of the session
/// after the step, and whose sessions follow `session_step`).
pub proof fn lemma_ids_per_document(h: Seq<SessionAction>, path: Seq<char>)
    requires
        kept_open(h, path),
    ensures
        joins(h, path) == 0 ==> !session_run(h).contains_key(path),
        joins(h, path) > 0 ==> session_run(h).contains_key(path) && session_run(h)[path] == (
            joins(h, path),
            (joins(h, path) - leaves(h, path)) as nat,
        ),
        session_step(session_run(h), SessionAction::Join(path))[path].0 == joins(h, path) + 1,
    decreases h.len(),
{
    assert(h.take(h.len() as int) =~= h);
    assert(joins(h.take(h.len() as int), path) == 0 ==> leaves(h.take(h.len() as int), path) == 0);
    if h.len() > 0 {
        let r = h.drop_last();
        assert forall|i: int| 0 <= i <= r.len() implies {
            &&& joins(#[trigger] r.take(i), path) == 0 ==> leaves(r.take(i), path) == 0
            &&& joins(r.take(i), path) > 0 ==> leaves(r.take(i), path) < joins(r.take(i), path)
        } by {
            assert(r.take(i) =~= h.take(i));
        }
        lemma_ids_per_document(r, path);
        assert(h.last() == h[h.len() - 1]);
    }
}

/// Holds the active DocumentSessions. A session is made when the first
/// participant joins a document and dropped when the last one leaves, so
/// that participant ids count from 1 again.
pub struct DocumentSessionManager {
    sessions: Vec<ActiveSession>,
}

impl DocumentSessionManager {
    pub closed spec fn entries(&self) -> Seq<ActiveSession> {
        self.sessions@
    }

    /// No document has two sessions, and no session counts more
    /// participants than it handed out ids.
    pub closed spec fn wf(&self) -> bool {
        &&& forall|j: int, k: int|
            0 <= j < k < self.sessions@.len() ==> #[trigger] self.sessions@[j].session.path@
                != #[trigger] self.sessions@[k].session.path@
        &&& forall|j: int|
            0 <= j < self.sessions@.len() ==> #[trigger] self.sessions@[j].participants
                <= self.sessions@[j].session.next_id
    }

    /// The active session of `path`, if anyone is editing it.
    pub closed spec fn active(&self, path: Seq<char>) -> Option<ActiveSession> {
        match session_position(self.sessions@, path) {
            Some(i) => Some(self.sessions@[i]),
            None => None,
        }
    }

    /// The active sessions, each with its last handed out id and its
    /// number of participants.
    pub closed spec fn counts(&self) -> Map<Seq<char>, (nat, nat)> {
        Map::new(
            |p: Seq<char>| self.active(p) is Some,
            |p: Seq<char>| (self.active(p)->Some_0.session.next_id as nat, self.active(p)->Some_0.participants as nat),
        )
    }

    /// Creates a manager with no active sessions.
    pub fn new() -> (m: Self)
        ensures
            m.wf(),
            forall|p: Seq<char>| #[trigger] m.active(p) is None,
            m.counts() == Map::<Seq<char>, (nat, nat)>::empty(),
    {
        let m = DocumentSessionManager { sessions: Vec::new() };
        assert(m.counts() =~= Map::<Seq<char>, (nat, nat)>::empty());
        m
    }

    fn find(&self, path: &str) -> (r: Option<usize>)
        requires
            self.wf(),
        ensures
            r matches Some(i) ==> i < self.sessions@.len() && session_position(self.sessions@, path@) == Some(
                i as int,
            ),
            r is None ==> session_position(self.sessions@, path@) is None,
    {
        let key = String::from_str(path);
        let mut i: usize = 0;
        while i < self.sessions.len()
            invariant
                0 <= i <= self.sessions.len(),
                self.wf(),
                key@ == path@,
                forall|j: int| 0 <= j < i ==> #[trigger] self.sessions@[j].session.path@ != path@,
            decreases self.sessions.len() - i,
        {
            if self.sessions[i].session.path == key {
                proof {
                    lemma_position_at(self.sessions@, path@, i as int);
                }
                return Some(i);
            }
            i = i + 1;
        }
        proof {
            lemma_position(self.sessions@, path@);
            if let Some(j) = session_position(self.sessions@, path@) {
                assert(self.sessions@[j].session.path@ != path@);
            }
        }
        None
    }

    /// The sequence id of the last event written in the session of
    /// `path`, if there is an active session that wrote one.
    pub fn last_seq(&self, path: &str) -> (r: Option<SequenceId>)
        requires
            self.wf(),
        ensures
            r == match self.active(path@) {
                Some(s) => s.session.last_seq,
                None => None,
            },
    {
        match self.find(path) {
            Some(i) => self.sessions[i].session.last_seq,
            None => None,
        }
    }
}

/// Sessions with the same paths in the same places are found at the
/// same places.
proof fn lemma_same_paths(s1: Seq<ActiveSession>, s2: Seq<ActiveSession>, path: Seq<char>)
    requires
        s1.len() == s2.len(),
        forall|k: int| 0 <= k < s1.len() ==> #[trigger] s1[k].session.path@ == s2[k].session.path@,
    ensures
        session_position(s1, path) == session_position(s2, path),
    decreases s1.len(),
{
    if s1.len() > 0 {
        assert(s1[0].session.path@ == s2[0].session.path@);
        assert forall|k: int| 0 <= k < s1.drop_first().len() implies #[trigger] s1.drop_first()[k].session.path@
            == s2.drop_first()[k].session.path@ by {
            assert(s1.drop_first()[k] == s1[k + 1]);
            assert(s2.drop_first()[k] == s2[k + 1]);
        }
        lemma_same_paths(s1.drop_first(), s2.drop_first(), path);
    }
}

/// The values of a map from paths to sessions stay apart.
proof fn lemma_distinct_push(s: Seq<ActiveSession>, e: ActiveSession)
    requires
        forall|j: int, k: int| 0 <= j < k < s.len() ==> #[trigger] s[j].session.path@ != #[trigger] s[k].session.path@,
        session_position(s, e.session.path@) is None,
    ensures
        forall|j: int, k: int|
            0 <= j < k < s.push(e).len() ==> #[trigger] s.push(e)[j].session.path@ != #[trigger] s.push(
                e,
            )[k].session.path@,
        forall|p: Seq<char>|
            #[trigger] session_position(s.push(e), p) == if p == e.session.path@ {
                Some(s.len() as int)
            } else {
                session_position(s, p)
            },
{
    let t = s.push(e);
    lemma_position(s, e.session.path@);
    assert forall|j: int, k: int| 0 <= j < k < t.len() implies #[trigger] t[j].session.path@
        != #[trigger] t[k].session.path@ by {
        if k == s.len() {
            assert(t[j] == s[j]);
        } else {
            assert(t[j] == s[j] && t[k] == s[k]);
        }
    }
    assert forall|p: Seq<char>| #[trigger] session_position(t, p) == if p == e.session.path@ {
        Some(s.len() as int)
    } else {
        session_position(s, p)
    } by {
        lemma_position(s, p);
        lemma_position(t, p);
        if p == e.session.path@ {
            lemma_position_at(t, p, s.len() as int);
        } else if let Some(j) = session_position(s, p) {
            assert(t[j] == s[j]);
            lemma_position_at(t, p, j);
        } else {
            if let Some(j) = session_position(t, p) {
                if j < s.len() {
                    assert(t[j] == s[j]);
                }
            }
        }
    }
}

/// Removing the session at `i` leaves the others where they can be found.
proof fn lemma_distinct_remove(s: Seq<ActiveSession>, i: int)
    requires
        forall|j: int, k: int| 0 <= j < k < s.len() ==> #[trigger] s[j].session.path@ != #[trigger] s[k].session.path@,
        0 <= i < s.len(),
    ensures
        forall|j: int, k: int|
            0 <= j < k < s.remove(i).len() ==> #[trigger] s.remove(i)[j].session.path@
                != #[trigger] s.remove(i)[k].session.path@,
        forall|p: Seq<char>|
            #[trigger] session_position(s.remove(i), p) == match session_position(s, p) {
                Some(j) => if j == i {
                    None
                } else if j < i {
                    Some(j)
                } else {
                    Some(j - 1)
                },
                None => None,
            },
{
    let t = s.remove(i);
    assert forall|k: int| 0 <= k < t.len() implies #[trigger] t[k] == if k < i {
        s[k]
    } else {
        s[k + 1]
    } by {}
    assert forall|j: int, k: int| 0 <= j < k < t.len() implies #[trigger] t[j].session.path@
        != #[trigger] t[k].session.path@ by {
        let jj = if j < i {
            j
        } else {
            j + 1
        };
        let kk = if k < i {
            k
        } else {
            k + 1
        };
        assert(t[j] == s[jj] && t[k] == s[kk]);
    }
    assert forall|p: Seq<char>| #[trigger] session_position(t, p) == match session_position(s, p) {
        Some(j) => if j == i {
            None
        } else if j < i {
            Some(j)
        } else {
            Some(j - 1)
        },
        None => None,
    } by {
        lemma_position(s, p);
        lemma_position(t, p);
        match session_position(s, p) {
            Some(j) => {
                if j != i {
                    let jt = if j < i {
                        j
                    } else {
                        j - 1
                    };
                    assert(t[jt] == s[j]);
                    lemma_position_at(t, p, jt);
                } else {
                    if let Some(q) = session_position(t, p) {
                        let qq = if q < i {
                            q
                        } else {
                            q + 1
                        };
                        assert(t[q] == s[qq]);
                        assert(qq != i);
                        if qq < i {
                            assert(s[qq].session.path@ != s[i].session.path@);
                        } else {
                            assert(s[i].session.path@ != s[qq].session.path@);
                        }
                    }
                }
            },
            None => {
                if let Some(q) = session_position(t, p) {
                    let qq = if q < i {
                        q
                    } else {
                        q + 1
                    };
                    assert(t[q] == s[qq]);
                }
            },
        }
    }
}

/// A manager that changed only the session of `path`, to the given last
/// id and number of participants or to none.
proof fn lemma_counts_update(
    before: DocumentSessionManager,
    after: DocumentSessionManager,
    path: Seq<char>,
    entry: Option<(nat, nat)>,
)
    requires
        forall|p: Seq<char>| p != path ==> #[trigger] after.active(p) == before.active(p),
        match entry {
            Some(v) => after.active(path) matches Some(s) && s.session.next_id == v.0 && s.participants == v.1,
            None => after.active(path) is None,
        },
    ensures
        after.counts() == match entry {
            Some(v) => before.counts().insert(path, v),
            None => before.counts().remove(path),
        },
{
    match entry {
        Some(v) => {
            assert(after.counts() =~= before.counts().insert(path, v));
        },
        None => {
            assert(after.counts() =~= before.counts().remove(path));
        },
    }
}

impl DocumentSessionManager {
    /// A participant joins the session of `path`, which is made if nobody
    /// is editing the document: it gets the session's next id, and its
    /// Join event is written. `None`, with nothing changed, where the
    /// session has no id left to hand out.
    pub fn join(&mut self, store: &mut MemoryStore, path: &str, start_seq: SequenceId) -> (r: Option<
        (ParticipantId, Participant),
    >)
        requires
            old(self).wf(),
            old(store).wf(),
        ensures
            final(self).wf(),
            final(store).wf(),
            ({
                let next: int = match old(self).active(path@) {
                    Some(s) => s.session.next_id as int,
                    None => 0,
                };
                let count: int = match old(self).active(path@) {
                    Some(s) => s.participants as int,
                    None => 0,
                };
                let before = if old(store)@.contains_key(path@) {
                    old(store)@[path@]
                } else {
                    Seq::<EventModel>::empty()
                };
                if next == usize::MAX {
                    &&& r is None
                    &&& final(store)@ == old(store)@
                    &&& forall|p: Seq<char>| #[trigger] final(self).active(p) == old(self).active(p)
                    &&& final(self).counts() == old(self).counts()
                } else {
                    &&& r matches Some((id, part)) && id == next + 1 && part.id == id && part.seq == start_seq
                        && part.client_seq == 0
                    &&& final(store)@ == old(store)@.insert(
                        path@,
                        before.push(EventModel::Join { id: (next + 1) as ParticipantId }),
                    )
                    &&& final(self).active(path@) matches Some(s) && s.session.path@ == path@ && s.session.next_id
                        == next + 1 && s.participants == count + 1 && s.session.last_seq == Some(
                        final(store)@[path@].len() as SequenceId,
                    )
                    &&& final(self).counts() == session_step(old(self).counts(), SessionAction::Join(path@))
                    &&& r matches Some((id, _)) && id == final(self).counts()[path@].0
                    &&& forall|p: Seq<char>| p != path@ ==> #[trigger] final(self).active(p) == old(self).active(p)
                }
            }),
    {
        proof {
            lemma_position(self.sessions@, path@);
        }
        match self.find(path) {
            Some(i) => {
                if self.sessions[i].session.next_id == usize::MAX {
                    return None;
                }
                let ghost before = self.sessions@;
                let ghost old_entry = before[i as int];
                let mut entry = self.sessions.remove(i);
                assert(entry == old_entry);
                assert(entry.session.path@ == path@);
                let r = entry.session.join(store, start_seq);
                entry.participants = entry.participants + 1;
                self.sessions.insert(i, entry);
                proof {
                    let after = self.sessions@;
                    assert(after =~= before.update(i as int, after[i as int]));
                    assert forall|p: Seq<char>| #[trigger] session_position(after, p) == session_position(before, p) by {
                        lemma_same_paths(after, before, p);
                    }
                    assert forall|j: int, k: int| 0 <= j < k < after.len() implies #[trigger] after[j].session.path@
                        != #[trigger] after[k].session.path@ by {
                        assert(after[j].session.path@ == before[j].session.path@);
                        assert(after[k].session.path@ == before[k].session.path@);
                    }
                    assert forall|j: int| 0 <= j < after.len() implies #[trigger] after[j].participants
                        <= after[j].session.next_id by {
                        if j != i {
                            assert(after[j] == before[j]);
                        }
                    }
                    assert(self.active(path@) == Some(after[i as int]));
                    assert forall|p: Seq<char>| p != path@ implies #[trigger] self.active(p) == old(self).active(p) by {
                        lemma_position(before, p);
                        if let Some(j) = session_position(before, p) {
                            assert(j != i);
                            assert(after[j] == before[j]);
                        }
                    }
                }
                proof {
                    let ghost_next: nat = match old(self).active(path@) {
                        Some(s0) => s0.session.next_id as nat,
                        None => 0,
                    };
                    let ghost_count: nat = match old(self).active(path@) {
                        Some(s0) => s0.participants as nat,
                        None => 0,
                    };
                    lemma_counts_update(*old(self), *self, path@, Some((ghost_next + 1, ghost_count + 1)));
                    assert(old(self).counts().contains_key(path@) == (old(self).active(path@) is Some));
                }
                Some(r)
            },
            None => {
                let ghost before = self.sessions@;
                let mut session = DocumentSession::new(String::from_str(path));
                let r = session.join(store, start_seq);
                let entry = ActiveSession { session, participants: 1 };
                proof {
                    lemma_distinct_push(before, entry);
                }
                self.sessions.push(entry);
                proof {
                    let after = self.sessions@;
                    assert(after == before.push(entry));
                    assert forall|j: int| 0 <= j < after.len() implies #[trigger] after[j].participants
                        <= after[j].session.next_id by {
                        if j < before.len() {
                            assert(after[j] == before[j]);
                        }
                    }
                    assert(session_position(after, path@) == Some(before.len() as int));
                    assert(self.active(path@) == Some(entry));
                    assert forall|p: Seq<char>| p != path@ implies #[trigger] self.active(p) == old(self).active(p) by {
                        lemma_position(before, p);
                        if let Some(j) = session_position(before, p) {
                            assert(after[j] == before[j]);
                        }
                    }
                }
                proof {
                    let ghost_next: nat = match old(self).active(path@) {
                        Some(s0) => s0.session.next_id as nat,
                        None => 0,
                    };
                    let ghost_count: nat = match old(self).active(path@) {
                        Some(s0) => s0.participants as nat,
                        None => 0,
                    };
                    lemma_counts_update(*old(self), *self, path@, Some((ghost_next + 1, ghost_count + 1)));
                    assert(old(self).counts().contains_key(path@) == (old(self).active(path@) is Some));
                }
                Some(r)
            },
        }
    }

    /// Participant `id` leaves the session of `path`: its Leave event is
    /// written, and the session is dropped when nobody is left in it.
    /// `None`, with nothing changed, where nobody is editing `path`.
    pub fn leave(&mut self, store: &mut MemoryStore, path: &str, id: ParticipantId) -> (r: Option<SequenceId>)
        requires
            old(self).wf(),
            old(store).wf(),
        ensures
            final(self).wf(),
            final(store).wf(),
            final(self).counts() == session_step(old(self).counts(), SessionAction::Leave(path@)),
            match old(self).active(path@) {
                None => r is None && final(store)@ == old(store)@ && forall|p: Seq<char>| #[trigger]
                    final(self).active(p) == old(self).active(p),
                Some(s) => {
                    let before = if old(store)@.contains_key(path@) {
                        old(store)@[path@]
                    } else {
                        Seq::<EventModel>::empty()
                    };
                    &&& final(store)@ == old(store)@.insert(path@, before.push(EventModel::Leave { id }))
                    &&& r == Some(final(store)@[path@].len() as SequenceId)
                    &&& if s.participants <= 1 {
                        final(self).active(path@) is None
                    } else {
                        final(self).active(path@) matches Some(t) && t.participants == s.participants - 1
                            && t.session.path@ == path@ && t.session.next_id == s.session.next_id
                            && t.session.last_seq == r
                    }
                    &&& forall|p: Seq<char>| p != path@ ==> #[trigger] final(self).active(p) == old(self).active(p)
                },
            },
    {
        proof {
            lemma_position(self.sessions@, path@);
        }
        match self.find(path) {
            Some(i) => {
                let ghost before = self.sessions@;
                let ghost old_entry = before[i as int];
                let mut entry = self.sessions.remove(i);
                assert(entry == old_entry);
                assert(entry.session.path@ == path@);
                let seq = entry.session.leave(store, id);
                proof {
                    lemma_distinct_remove(before, i as int);
                }
                if entry.participants > 1 {
                    entry.participants = entry.participants - 1;
                    self.sessions.insert(i, entry);
                    proof {
                        let after = self.sessions@;
                        assert(after =~= before.update(i as int, after[i as int]));
                        assert forall|p: Seq<char>| #[trigger] session_position(after, p) == session_position(before, p) by {
                            lemma_same_paths(after, before, p);
                        }
                        assert forall|j: int, k: int| 0 <= j < k < after.len() implies #[trigger] after[j].session.path@
                            != #[trigger] after[k].session.path@ by {
                            assert(after[j].session.path@ == before[j].session.path@);
                            assert(after[k].session.path@ == before[k].session.path@);
                        }
                        assert forall|j: int| 0 <= j < after.len() implies #[trigger] after[j].participants
                            <= after[j].session.next_id by {
                            if j != i {
                                assert(after[j] == before[j]);
                            }
                        }
                        assert(self.active(path@) == Some(after[i as int]));
                        assert forall|p: Seq<char>| p != path@ implies #[trigger] self.active(p) == old(self).active(p) by {
                            lemma_position(before, p);
                            if let Some(j) = session_position(before, p) {
                                assert(j != i);
                                assert(after[j] == before[j]);
                            }
                        }
                        lemma_counts_update(
                            *old(self),
                            *self,
                            path@,
                            Some((old_entry.session.next_id as nat, (old_entry.participants - 1) as nat)),
                        );
                    }
                } else {
                    proof {
                        let after = self.sessions@;
                        assert(after == before.remove(i as int));
                        assert forall|j: int| 0 <= j < after.len() implies #[trigger] after[j].participants
                            <= after[j].session.next_id by {
                            if j < i {
                                assert(after[j] == before[j]);
                            } else {
                                assert(after[j] == before[j + 1]);
                            }
                        }
                        assert(session_position(after, path@) is None);
                        assert forall|p: Seq<char>| p != path@ implies #[trigger] self.active(p) == old(self).active(p) by {
                            lemma_position(before, p);
                            if let Some(j) = session_position(before, p) {
                                assert(j != i);
                                if j < i {
                                    assert(after[j] == before[j]);
                                } else {
                                    assert(after[j - 1] == before[j]);
                                }
                            }
                        }
                        lemma_counts_update(*old(self), *self, path@, None);
                    }
                }
                Some(seq)
            },
            None => {
                assert(self.counts() =~= old(self).counts());
                None
            },
        }
    }
}

impl DocumentSessionManager {
    /// Writes a client's edit through the session of `path` (see
    /// `DocumentSession::write_transformed`). `Err(NotFound)`, with
    /// nothing changed, where nobody is editing `path`.
    pub fn write_transformed(
        &mut self,
        store: &mut MemoryStore,
        path: &str,
        sender: ParticipantId,
        parent_seq: SequenceId,
        event: Event,
    ) -> (r: Result<Option<SequenceId>, StoreError>)
        requires
            old(self).wf(),
            old(store).wf(),
        ensures
            final(self).wf(),
            final(store).wf(),
            forall|p: Seq<char>| p != path@ ==> #[trigger] final(self).active(p) == old(self).active(p),
            final(self).counts() == old(self).counts(),
            match old(self).active(path@) {
                None => r == Err::<Option<SequenceId>, StoreError>(StoreError::NotFound) && final(store)@ == old(
                    store,
                )@ && final(self).active(path@) is None,
                Some(s) => {
                    &&& final(self).active(path@) matches Some(t) && t.participants == s.participants
                        && t.session.next_id == s.session.next_id && t.session.path@ == path@ && (r matches Ok(
                        Some(seq),
                    ) ==> t.session.last_seq == Some(seq)) && (!(r matches Ok(Some(_)))
                        ==> t.session.last_seq == s.session.last_seq)
                    &&& !old(store)@.contains_key(path@) ==> r == Err::<Option<SequenceId>, StoreError>(
                        StoreError::NotFound,
                    ) && final(store)@ == old(store)@
                    &&& old(store)@.contains_key(path@) && parent_seq > old(store)@[path@].len() ==> r == Err::<
                        Option<SequenceId>,
                        StoreError,
                    >(StoreError::InvalidSequenceId) && final(store)@ == old(store)@
                    &&& old(store)@.contains_key(path@) && parent_seq <= old(store)@[path@].len()
                        ==> match transform_concurrent(
                        event@,
                        sender,
                        events_since(old(store)@[path@], parent_seq as int),
                    ) {
                        Some(e) => r == Ok::<Option<SequenceId>, StoreError>(
                            Some((old(store)@[path@].len() + 1) as SequenceId),
                        ) && final(store)@ == old(store)@.insert(path@, old(store)@[path@].push(e)),
                        None => r == Ok::<Option<SequenceId>, StoreError>(None) && final(store)@ == old(store)@,
                    }
                },
            },
    {
        proof {
            lemma_position(self.sessions@, path@);
        }
        match self.find(path) {
            Some(i) => {
                let ghost before = self.sessions@;
                let ghost old_entry = before[i as int];
                let mut entry = self.sessions.remove(i);
                assert(entry == old_entry);
                assert(entry.session.path@ == path@);
                let r = entry.session.write_transformed(store, sender, parent_seq, event);
                self.sessions.insert(i, entry);
                proof {
                    let after = self.sessions@;
                    assert(after =~= before.update(i as int, after[i as int]));
                    assert forall|p: Seq<char>| #[trigger] session_position(after, p) == session_position(before, p) by {
                        lemma_same_paths(after, before, p);
                    }
                    assert forall|j: int, k: int| 0 <= j < k < after.len() implies #[trigger] after[j].session.path@
                        != #[trigger] after[k].session.path@ by {
                        assert(after[j].session.path@ == before[j].session.path@);
                        assert(after[k].session.path@ == before[k].session.path@);
                    }
                    assert forall|j: int| 0 <= j < after.len() implies #[trigger] after[j].participants
                        <= after[j].session.next_id by {
                        if j != i {
                            assert(after[j] == before[j]);
                        }
                    }
                    assert(self.active(path@) == Some(after[i as int]));
                    assert forall|p: Seq<char>| p != path@ implies #[trigger] self.active(p) == old(self).active(p) by {
                        lemma_position(before, p);
                        if let Some(j) = session_position(before, p) {
                            assert(j != i);
                            assert(after[j] == before[j]);
                        }
                    }
                    lemma_counts_update(
                        *old(self),
                        *self,
                        path@,
                        Some((old_entry.session.next_id as nat, old_entry.participants as nat)),
                    );
                    assert(self.counts() =~= old(self).counts());
                }
                r
            },
            None => Err(StoreError::NotFound),
        }
    }
}

} // verus!
