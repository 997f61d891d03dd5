//! Persists document events using paths as keys.
//!
//! A document's content is obtained by the accumulated application of
//! edit events within the store up until a given point in time.
use vstd::prelude::*;

use crate::document::{apply_event, check_event, DocModel, Event, EventModel, OpModel};

pub mod laws;
pub mod memory;

verus! {

/// The sequence number for an Event. The first Event for a Document
/// is SequenceId=1 (not 0). This is so requesting events since
/// SequenceId=0 will return *all* Events for a Document.
pub type SequenceId = u64;

/// Error conditions for reading data from, or writing data to, the
/// store.
#[derive(Debug, PartialEq, Eq, Structural, Clone, Copy)]
pub enum StoreError {
    /// The document path is missing
    NotFound,
    /// A non-existant SequenceId was requested for the document
    InvalidSequenceId,
    /// When requesting content, the store failed to build a
    /// representation of the document from the events in the store
    InvalidDocument,
    /// There is a problem communicating with the storage backend
    ConnectionError,
}

/// The name of a store error, as it is displayed.
pub open spec fn error_name(e: StoreError) -> Seq<char> {
    match e {
        StoreError::NotFound => "NotFound"@,
        StoreError::InvalidSequenceId => "InvalidSequenceId"@,
        StoreError::InvalidDocument => "InvalidDocument"@,
        StoreError::ConnectionError => "ConnectionError"@,
    }
}

impl StoreError {
    /// The name of the error, as it is displayed.
    pub fn message(&self) -> (r: &'static str)
        ensures
            r@ == error_name(*self),
    {
        match self {
            StoreError::NotFound => "NotFound",
            StoreError::InvalidSequenceId => "InvalidSequenceId",
            StoreError::InvalidDocument => "InvalidDocument",
            StoreError::ConnectionError => "ConnectionError",
        }
    }

    /// A longer description of the error.
    pub fn description(&self) -> (r: &'static str)
        ensures
            r@ == match self {
                StoreError::NotFound => "StoreError: the document path is missing"@,
                StoreError::InvalidSequenceId => "StoreError: sequence id has no matching event"@,
                StoreError::InvalidDocument => "StoreError: failed to build document content"@,
                StoreError::ConnectionError => "StoreError: connection error"@,
            },
    {
        match self {
            StoreError::NotFound => "StoreError: the document path is missing",
            StoreError::InvalidSequenceId => "StoreError: sequence id has no matching event",
            StoreError::InvalidDocument => "StoreError: failed to build document content",
            StoreError::ConnectionError => "StoreError: connection error",
        }
    }
}

/// The models of a sequence of events.
pub open spec fn events_view(events: Seq<Event>) -> Seq<EventModel> {
    events.map_values(|e: Event| e@)
}

/// The document with no content and no participants.
pub open spec fn empty_doc() -> DocModel {
    DocModel { content: Seq::empty(), cursors: Map::empty() }
}

/// The document obtained by applying `events` in turn to `d`, or `None`
/// when one of them cannot be applied.
pub open spec fn replay(d: DocModel, events: Seq<EventModel>) -> Option<DocModel>
    decreases events.len(),
{
    if events.len() == 0 {
        Some(d)
    } else if check_event(d, events[0]) is Some {
        None
    } else {
        replay(apply_event(d, events[0]), events.drop_first())
    }
}

/// The events after the first `seq`, each with its SequenceId.
pub open spec fn events_since(events: Seq<EventModel>, seq: int) -> Seq<(SequenceId, EventModel)> {
    Seq::new((events.len() - seq) as nat, |i: int| ((seq + i + 1) as SequenceId, events[seq + i]))
}

/// The models of a sequence of numbered events.
pub open spec fn numbered_view(events: Seq<(SequenceId, Event)>) -> Seq<(SequenceId, EventModel)> {
    events.map_values(|e: (SequenceId, Event)| (e.0, e.1@))
}

/// The outcome of rebuilding a document from its first `seq` events.
pub open spec fn content_at_result(events: Seq<EventModel>, seq: int) -> Result<DocModel, StoreError> {
    if seq > events.len() {
        Err(StoreError::InvalidSequenceId)
    } else {
        match replay(empty_doc(), events.take(seq)) {
            Some(d) => Ok(d),
            None => Err(StoreError::InvalidDocument),
        }
    }
}

/// The edit of a page created with `content`: participant 1 inserting
/// the content at the beginning.
pub open spec fn page_event(content: Seq<char>) -> EventModel {
    EventModel::Edit { author: 1, ops: seq![OpModel::Insert { pos: 0, text: content }] }
}

/// The events of a page created with `content`: participant 1 joins,
/// makes the page's single insert, and leaves.
pub open spec fn page_events(content: Seq<char>) -> Seq<EventModel> {
    seq![EventModel::Join { id: 1 }, page_event(content), EventModel::Leave { id: 1 }]
}

} // verus!
