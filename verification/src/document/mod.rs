//! Documents and Operations on their content.
use std::collections::HashMap;
use vstd::prelude::*;

pub mod model;
pub mod transform_model;
mod transform;
pub mod laws;
pub mod grid;
pub mod squares;
pub mod fits;
pub mod effects;
pub mod outcomes;

pub use self::model::{
    apply_event, apply_op, apply_ops, check_event, check_ops, cursors_within, DocModel,
    EventModel, OpModel, ParticipantId,
};

verus! {

broadcast use vstd::std_specs::hash::group_hash_axioms;

/// Edit session participant data relevant to displaying a document.
#[derive(Debug, PartialEq, Eq, Hash, Default, Clone, Copy)]
pub struct DocumentParticipant {
    /// Unicode Scalar Value index of the participant's cursor
    pub cursor_pos: usize,
}

/// A collection of DocumentParticipants keyed by Participant ID.
#[derive(Debug, PartialEq, Clone)]
pub struct Participants {
    /// The participants
    pub entries: HashMap<ParticipantId, DocumentParticipant>,
}

/// Represents some String content at a point in time.
#[derive(Debug, PartialEq, Clone)]
pub struct Document {
    /// Current document content
    pub content: String,
    /// Current active editors
    pub participants: Participants,
}

/// Inserts new content at a single position in the Document.
#[derive(Debug, PartialEq)]
pub struct Insert {
    /// Insert position as number of Unicode Scalar Values preceeding
    /// the Insert operation, from the beginning of the document (not
    /// byte position, or number of grapheme clusters)
    pub pos: usize,
    /// The String content to insert
    pub content: String,
}

/// Deletes a contiguous region of content from the Document.
#[derive(Debug, PartialEq, Eq, Clone, Copy)]
pub struct Delete {
    /// First Unicode Scalar Value to remove in range
    pub start: usize,
    /// Unicode Scalar Value to end the delete operation on (exclusive
    /// of the 'end' character)
    pub end: usize,
}

/// Moves the author's cursor without changing the content.
#[derive(Debug, PartialEq, Eq, Clone, Copy)]
pub struct MoveCursor {
    /// The new cursor position, in Unicode Scalar Values
    pub pos: usize,
}

/// Describes incremental changes to a Document's content. Through the
/// accumulated application of Operations to a Document, the
/// Document's content at a point in time can be derived.
#[derive(Debug, PartialEq)]
pub enum Operation {
    /// Insert new content into the Document
    Insert(Insert),
    /// Remove content from the Document
    Delete(Delete),
    /// Move the author's cursor
    MoveCursor(MoveCursor),
}

/// A new participant has joined the DocumentSession.
#[derive(Debug, PartialEq, Eq, Clone, Copy)]
pub struct Join {
    /// The id of the newly joined participant
    pub id: ParticipantId,
}

/// A participant has left the DocumentSession.
#[derive(Debug, PartialEq, Eq, Clone, Copy)]
pub struct Leave {
    /// The id of the now departed participant
    pub id: ParticipantId,
}

/// An Edit combines multiple operations into a single Document
/// change (i.e. all the operations are applied together, or not at
/// all).
#[derive(Debug, PartialEq)]
pub struct Edit {
    /// The ParticipantId of the author who made this edit
    pub author: ParticipantId,
    /// The Operations which describe this Edit
    pub operations: Vec<Operation>,
}

/// Describes an event corresponding to a single Document.
#[derive(Debug, PartialEq)]
pub enum Event {
    /// A new participant has joined
    Join(Join),
    /// A participant has left
    Leave(Leave),
    /// An update was made to the document
    Edit(Edit),
}

/// Error conditions which may occur when applying an Operation to a
/// Document.
#[derive(Debug, PartialEq, Eq, Structural, Clone, Copy)]
pub enum EditError {
    /// The Operation's position or range falls outside the current
    /// Document.
    OutsideDocument,
    /// The operation is invalid and could not be applied meaningfully
    /// to any document.
    InvalidOperation,
}

impl View for Operation {
    type V = OpModel;

    open spec fn view(&self) -> OpModel {
        match self {
            Operation::Insert(op) => OpModel::Insert { pos: op.pos as nat, text: op.content@ },
            Operation::Delete(op) => OpModel::Delete { start: op.start as nat, end: op.end as nat },
            Operation::MoveCursor(op) => OpModel::MoveCursor { pos: op.pos as nat },
        }
    }
}

/// The models of a sequence of operations.
pub open spec fn ops_view(ops: Seq<Operation>) -> Seq<OpModel> {
    ops.map_values(|op: Operation| op@)
}

impl View for Edit {
    type V = EventModel;

    open spec fn view(&self) -> EventModel {
        EventModel::Edit { author: self.author, ops: ops_view(self.operations@) }
    }
}

impl View for Event {
    type V = EventModel;

    open spec fn view(&self) -> EventModel {
        match self {
            Event::Join(j) => EventModel::Join { id: j.id },
            Event::Leave(l) => EventModel::Leave { id: l.id },
            Event::Edit(e) => e@,
        }
    }
}

impl View for Participants {
    type V = Map<ParticipantId, nat>;

    open spec fn view(&self) -> Map<ParticipantId, nat> {
        self.entries@.map_values(|p: DocumentParticipant| p.cursor_pos as nat)
    }
}

impl View for Document {
    type V = DocModel;

    open spec fn view(&self) -> DocModel {
        DocModel { content: self.content@, cursors: self.participants@ }
    }
}

impl Document {
    /// Every participant's cursor lies within the content (a joining
    /// participant starts at the beginning, and every applied event
    /// keeps the cursors within the content). A cursor is a character
    /// position in the content, so every document that events build
    /// from `Document::default` or `Document::from` has this property.
    /// It is also what bounds the cursor arithmetic of an insert: a
    /// cursor moved past the inserted text stays within the new
    /// content, whose length fits a `usize`.
    pub open spec fn wf(&self) -> bool {
        cursors_within(self@)
    }
}

impl Default for Participants {
    fn default() -> (p: Self)
        ensures
            p@ == Map::<ParticipantId, nat>::empty(),
    {
        Participants::new()
    }
}

impl Default for Document {
    fn default() -> (d: Self)
        ensures
            d@.content == Seq::<char>::empty(),
            d@.cursors == Map::<ParticipantId, nat>::empty(),
    {
        Document { content: String::new(), participants: Participants::new() }
    }
}

impl<'a> From<&'a str> for Document {
    fn from(content: &'a str) -> (d: Self)
        ensures
            d@.content == content@,
            d@.cursors == Map::<ParticipantId, nat>::empty(),
    {
        Document { content: String::from_str(content), participants: Participants::new() }
    }
}

impl<'a> vstd::std_specs::convert::FromSpecImpl<&'a str> for Document {
    /// The conversion is specified by the `ensures` of `from` itself
    /// (content and participants), not by a spec function.
    open spec fn obeys_from_spec() -> bool {
        false
    }

    open spec fn from_spec(v: &'a str) -> Document {
        vstd::pervasive::arbitrary()
    }
}

impl Clone for Insert {
    fn clone(&self) -> (r: Self)
        ensures
            r.pos == self.pos,
            r.content@ == self.content@,
    {
        Insert { pos: self.pos, content: self.content.clone() }
    }
}

impl Clone for Operation {
    fn clone(&self) -> (r: Self)
        ensures
            r@ == self@,
    {
        match self {
            Operation::Insert(op) => Operation::Insert(op.clone()),
            Operation::Delete(op) => Operation::Delete(*op),
            Operation::MoveCursor(op) => Operation::MoveCursor(*op),
        }
    }
}

/// Appends `op` to `output`.
pub(crate) fn push_op(output: &mut Vec<Operation>, op: Operation)
    ensures
        ops_view(final(output)@) == ops_view(old(output)@).push(op@),
{
    let ghost op_model = op@;
    output.push(op);
    assert(ops_view(output@) =~= ops_view(old(output)@).push(op_model));
}

/// A copy of `ops`.
pub(crate) fn clone_ops(ops: &Vec<Operation>) -> (r: Vec<Operation>)
    ensures
        ops_view(r@) == ops_view(ops@),
{
    let mut out: Vec<Operation> = Vec::new();
    for i in 0..ops.len()
        invariant
            ops_view(out@) == ops_view(ops@).take(i as int),
    {
        let op = ops[i].clone();
        push_op(&mut out, op);
        assert(ops_view(ops@).take(i + 1) =~= ops_view(ops@).take(i as int).push(ops[i as int]@));
    }
    assert(ops_view(ops@).take(ops.len() as int) =~= ops_view(ops@));
    out
}

impl Clone for Edit {
    fn clone(&self) -> (r: Self)
        ensures
            r@ == self@,
    {
        Edit { author: self.author, operations: clone_ops(&self.operations) }
    }
}

impl Clone for Event {
    fn clone(&self) -> (r: Self)
        ensures
            r@ == self@,
    {
        match self {
            Event::Join(j) => Event::Join(*j),
            Event::Leave(l) => Event::Leave(*l),
            Event::Edit(e) => Event::Edit(e.clone()),
        }
    }
}

impl Participants {
    /// Creates a new empty Participants collection.
    pub fn new() -> (p: Self)
        ensures
            p@ == Map::<ParticipantId, nat>::empty(),
    {
        let p = Participants { entries: HashMap::new() };
        assert(p@ =~= Map::<ParticipantId, nat>::empty());
        p
    }

    /// The collection of the given (id, participant) pairs; where an id
    /// occurs twice, the later pair is kept.
    pub fn from_entries(entries: Vec<(ParticipantId, DocumentParticipant)>) -> (p: Self)
        ensures
            p@ == entries_map(entries@),
    {
        let mut p = Participants::new();
        let mut i: usize = 0;
        while i < entries.len()
            invariant
                0 <= i <= entries.len(),
                p@ == entries_map(entries@.take(i as int)),
            decreases entries.len() - i,
        {
            let (id, participant) = entries[i];
            assert(entries@.take(i + 1).drop_last() =~= entries@.take(i as int));
            p.entries.insert(id, participant);
            assert(p@ =~= entries_map(entries@.take(i + 1)));
            i = i + 1;
        }
        assert(entries@.take(entries.len() as int) =~= entries@);
        p
    }
}

/// The cursors of (id, participant) pairs, a later pair replacing an
/// earlier one with the same id.
pub open spec fn entries_map(entries: Seq<(ParticipantId, DocumentParticipant)>) -> Map<ParticipantId, nat>
    decreases entries.len(),
{
    if entries.len() == 0 {
        Map::empty()
    } else {
        entries_map(entries.drop_last()).insert(entries.last().0, entries.last().1.cursor_pos as nat)
    }
}

impl Operation {
    /// Returns false if the Operation would never describe a
    /// meaningful change for any given Document.
    ///
    /// Note that an Operation for which is_valid() returns true might
    /// still raise an EditError when applied to a specific Document
    /// (e.g. it references an index outside the target document's
    /// content size).
    pub fn is_valid(&self) -> (r: bool)
        ensures
            r == model::op_valid(self@),
    {
        match self {
            Operation::Insert(_) => true,
            Operation::Delete(Delete { start, end }) => *end >= *start,
            Operation::MoveCursor(_) => true,
        }
    }
}

/// The outcome of a check, as a `Result`.
pub open spec fn check_result(check: Option<EditError>) -> Result<(), EditError> {
    match check {
        Some(e) => Err(e),
        None => Ok(()),
    }
}

/// Checks `ops` in turn against a content of `len` characters (the
/// running length as the operations would change it); returns the
/// error of the first operation that is invalid or reaches outside.
fn check_operations(ops: &Vec<Operation>, len: usize) -> (r: Option<EditError>)
    ensures
        r == check_ops(len as int, ops_view(ops@)),
{
    let ghost all = ops_view(ops@);
    // the running length: a u128 holds the sum of any number of
    // usize-bounded insert lengths that a Vec can hold
    let mut length: u128 = len as u128;
    let mut i: usize = 0;
    assert(all.skip(0) =~= all);
    while i < ops.len()
        invariant
            0 <= i <= ops.len(),
            all == ops_view(ops@),
            length <= (i + 1) * 0xffff_ffff_ffff_ffffu128,
            check_ops(len as int, all) == check_ops(length as int, all.skip(i as int)),
        decreases ops.len() - i,
    {
        let ghost rest = all.skip(i as int);
        assert(rest[0] == ops@[i as int]@);
        assert(rest.drop_first() =~= all.skip(i + 1));
        let op = &ops[i];
        if !op.is_valid() {
            return Some(EditError::InvalidOperation);
        }
        match op {
            Operation::Insert(ins) => {
                if (ins.pos as u128) > length {
                    return Some(EditError::OutsideDocument);
                }
                let n = ins.content.as_str().unicode_len();
                length = length + n as u128;
            },
            Operation::Delete(del) => {
                if (del.start as u128) > length || (del.end as u128) > length {
                    return Some(EditError::OutsideDocument);
                }
                length = length - (del.end - del.start) as u128;
            },
            Operation::MoveCursor(mv) => {
                if (mv.pos as u128) > length {
                    return Some(EditError::OutsideDocument);
                }
            },
        }
        i = i + 1;
    }
    assert(all.skip(i as int).len() == 0);
    None
}

/// Where the cursor `c` of participant `id` lies after `author` performed
/// `op`, whose inserted text (if any) has `char_len` characters.
fn moved_cursor_pos(op: &Operation, char_len: usize, author: ParticipantId, id: ParticipantId, c: usize) -> (r: usize)
    requires
        model::op_valid(op@),
        op matches Operation::Insert(ins) ==> char_len == ins.content@.len(),
        op matches Operation::Insert(ins) ==> ins.pos + char_len <= usize::MAX,
        op matches Operation::Insert(ins) ==> (id != author && c > ins.pos ==> c + char_len <= usize::MAX),
    ensures
        r == model::moved_cursor(op@, author, id, c as nat),
{
    match op {
        Operation::Insert(ins) => {
            if id == author {
                ins.pos + char_len
            } else if c > ins.pos {
                c + char_len
            } else {
                c
            }
        },
        Operation::Delete(del) => {
            if id == author {
                del.start
            } else if c > del.start {
                let end = if del.end <= c { del.end } else { c };
                c - (end - del.start)
            } else {
                c
            }
        },
        Operation::MoveCursor(mv) => {
            if id == author {
                mv.pos
            } else {
                c
            }
        },
    }
}

/// The participants after `author` performed `op`: every cursor moved
/// as `model::moved_cursor` says.
fn moved_participants(
    entries: &HashMap<ParticipantId, DocumentParticipant>,
    op: &Operation,
    char_len: usize,
    author: ParticipantId,
) -> (r: HashMap<ParticipantId, DocumentParticipant>)
    requires
        model::op_valid(op@),
        op matches Operation::Insert(ins) ==> char_len == ins.content@.len(),
        op matches Operation::Insert(ins) ==> ins.pos + char_len <= usize::MAX,
        op matches Operation::Insert(ins) ==> forall|k: ParticipantId| #[trigger] entries@.contains_key(k)
            ==> entries@[k].cursor_pos + char_len <= usize::MAX,
    ensures
        r@.dom() == entries@.dom(),
        forall|k: ParticipantId| #[trigger] r@.contains_key(k) ==> r@[k].cursor_pos
            == model::moved_cursor(op@, author, k, entries@[k].cursor_pos as nat),
{
    let mut out: HashMap<ParticipantId, DocumentParticipant> = HashMap::new();
    for kv in it: entries.iter()
        invariant
            model::op_valid(op@),
            forall|k: ParticipantId| #[trigger] out@.contains_key(k) ==> entries@.contains_key(k)
                && out@[k].cursor_pos == model::moved_cursor(op@, author, k, entries@[k].cursor_pos as nat),
            forall|j: int| 0 <= j < it.index() ==> out@.contains_key(*(#[trigger] it.seq()[j]).0),
            op matches Operation::Insert(ins) ==> char_len == ins.content@.len(),
            op matches Operation::Insert(ins) ==> ins.pos + char_len <= usize::MAX,
            op matches Operation::Insert(ins) ==> forall|k: ParticipantId| #[trigger] entries@.contains_key(k)
                ==> entries@[k].cursor_pos + char_len <= usize::MAX,
    {
        let (id, p) = kv;
        assert(entries@.contains_key(*id) && entries@[*id] == *p);
        let nc = moved_cursor_pos(op, char_len, author, *id, p.cursor_pos);
        out.insert(*id, DocumentParticipant { cursor_pos: nc });
    }
    assert(out@.dom() =~= entries@.dom());
    out
}

impl Document {
    /// Applies an Operation to the Document's content, updating the
    /// Document in place. The operation must already have been checked
    /// to fit the content (see `can_apply`), and the cursors must lie
    /// within the content, so that a cursor moved by an insert stays
    /// within the new content.
    fn perform_operation(&mut self, author: ParticipantId, op: &Operation)
        requires
            cursors_within(old(self)@),
            model::op_fits(old(self)@.content.len() as int, op@),
        ensures
            final(self)@ == apply_op(old(self)@, author, op@),
            cursors_within(final(self)@),
    {
        let ghost d = self@;
        let len = self.content.as_str().unicode_len();
        let mut char_len: usize = 0;
        match op {
            Operation::Insert(ins) => {
                let new_content = {
                    let s = self.content.as_str();
                    let mut c = String::from_str(s.substring_char(0, ins.pos));
                    c.append(ins.content.as_str());
                    c.append(s.substring_char(ins.pos, len));
                    c
                };
                let new_len = new_content.as_str().unicode_len();
                char_len = ins.content.as_str().unicode_len();
                assert(new_content@ =~= model::op_content(d.content, op@));
                proof {
                    model::lemma_op_content_len(d.content, op@);
                    assert forall|k: ParticipantId| #[trigger] self.participants.entries@.contains_key(k)
                        implies self.participants.entries@[k].cursor_pos + char_len <= usize::MAX by {
                        assert(d.cursors.dom().contains(k));
                    }
                }
                self.content = new_content;
            },
            Operation::Delete(del) => {
                let new_content = {
                    let s = self.content.as_str();
                    let mut c = String::from_str(s.substring_char(0, del.start));
                    c.append(s.substring_char(del.end, len));
                    c
                };
                assert(new_content@ =~= model::op_content(d.content, op@));
                self.content = new_content;
            },
            Operation::MoveCursor(_) => {},
        }
        let entries = moved_participants(&self.participants.entries, op, char_len, author);
        self.participants.entries = entries;
        proof {
            assert(self@.cursors =~= apply_op(d, author, op@).cursors);
            model::lemma_apply_op_cursors_within(d, author, op@);
        }
    }

    /// Applies an Edit event to the Document's content. Either all
    /// Operations contained in the Edit are applied, or no
    /// Operations are applied and an EditError is returned.
    /// The document must hold its cursors within its content
    /// (`wf`), which every document built by this library does and
    /// which the call keeps.
    pub fn apply(&mut self, event: &Event) -> (r: Result<(), EditError>)
        requires
            old(self).wf(),
        ensures
            r == check_result(check_event(old(self)@, event@)),
            r is Ok ==> final(self)@ == apply_event(old(self)@, event@),
            r is Err ==> final(self)@ == old(self)@,
            final(self).wf(),
    {
        let checked = self.can_apply(event);
        if checked.is_err() {
            return checked;
        }
        match event {
            Event::Edit(edit) => {
                let ghost d = self@;
                let ghost ops = ops_view(edit.operations@);
                let mut i: usize = 0;
                assert(ops.skip(0) =~= ops);
                while i < edit.operations.len()
                    invariant
                        0 <= i <= edit.operations.len(),
                        ops == ops_view(edit.operations@),
                        cursors_within(self@),
                        check_ops(self@.content.len() as int, ops.skip(i as int)) is None,
                        apply_ops(self@, edit.author, ops.skip(i as int)) == apply_ops(d, edit.author, ops),
                    decreases edit.operations.len() - i,
                {
                    let ghost before = self@;
                    let ghost rest = ops.skip(i as int);
                    assert(rest[0] == edit.operations@[i as int]@);
                    assert(rest.drop_first() =~= ops.skip(i + 1));
                    proof {
                        model::lemma_op_content_len(before.content, rest[0]);
                    }
                    self.perform_operation(edit.author, &edit.operations[i]);
                    i = i + 1;
                }
                assert(ops.skip(i as int) =~= Seq::<OpModel>::empty());
            },
            Event::Join(Join { id }) => {
                let ghost before = self@;
                self.participants.entries.insert(*id, DocumentParticipant { cursor_pos: 0 });
                assert(self@.cursors =~= before.cursors.insert(*id, 0));
            },
            Event::Leave(Leave { id }) => {
                let ghost before = self@;
                self.participants.entries.remove(id);
                assert(self@.cursors =~= before.cursors.remove(*id));
            },
        }
        Ok(())
    }

    /// Checks that every operation inside the edit can be cleanly
    /// applied to the document, without making any changes to the
    /// document content.
    pub fn can_apply(&self, event: &Event) -> (r: Result<(), EditError>)
        ensures
            r == check_result(check_event(self@, event@)),
    {
        match event {
            Event::Edit(edit) => {
                if !self.participants.entries.contains_key(&edit.author) {
                    // edit author is not currently a participant
                    return Err(EditError::InvalidOperation);
                }
                let length = self.content.as_str().unicode_len();
                match check_operations(&edit.operations, length) {
                    Some(e) => Err(e),
                    None => Ok(()),
                }
            },
            Event::Join(Join { id }) => {
                if self.participants.entries.contains_key(id) {
                    // id is already a participant
                    Err(EditError::InvalidOperation)
                } else {
                    Ok(())
                }
            },
            Event::Leave(Leave { id }) => {
                if self.participants.entries.contains_key(id) {
                    Ok(())
                } else {
                    // id is not a current participant
                    Err(EditError::InvalidOperation)
                }
            },
        }
    }
}

} // verus!
