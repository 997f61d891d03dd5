//! Defines messages for client/server communication during an EditSession.
use vstd::prelude::*;

use crate::document::{Operation, ParticipantId};
use crate::store::{SequenceId, StoreError};

verus! {

/// Message sent from the server to the client.
#[derive(Debug, PartialEq)]
pub enum ServerMessage {
    /// Client successfully connected - always the first message sent
    /// to a client
    Connected(ConnectedMessage),
    /// An update was made to the Document
    Edit(EditMessage),
    /// A new participant joined the DocumentSession
    Join(JoinMessage),
    /// A participant has left the DocumentSession
    Leave(LeaveMessage),
}

/// Client successfully connected.
#[derive(Debug, PartialEq, Eq, Clone, Copy)]
pub struct ConnectedMessage {
    /// The new client's participant ID
    pub id: ParticipantId,
}

/// An update was made to the Document.
#[derive(Debug, PartialEq)]
pub struct EditMessage {
    /// The most recently applied client SequenceId
    pub client_seq: SequenceId,
    /// The SequenceId of the edit Event in the Store
    pub seq: SequenceId,
    /// The id of the participant responsible for making this change
    pub author: ParticipantId,
    /// The individual Operations which describe the edit
    pub operations: Vec<Operation>,
}

/// A new participant has joined the DocumentSession.
#[derive(Debug, PartialEq, Eq, Clone, Copy)]
pub struct JoinMessage {
    /// The most recently applied client SequenceId
    pub client_seq: SequenceId,
    /// The SequenceId of the join Event in the Store
    pub seq: SequenceId,
    /// The id of the newly joined participant
    pub id: ParticipantId,
}

/// A participant has left the DocumentSession.
#[derive(Debug, PartialEq, Eq, Clone, Copy)]
pub struct LeaveMessage {
    /// The most recently applied client SequenceId
    pub client_seq: SequenceId,
    /// The SequenceId of the leave Event in the Store
    pub seq: SequenceId,
    /// The id of the now departed participant
    pub id: ParticipantId,
}

/// Message sent from the client to the server.
#[derive(Debug, PartialEq)]
pub enum ClientMessage {
    /// A change was made to the document content
    ClientEdit(ClientEditMessage),
}

/// A change made to the document content by the client.
#[derive(Debug, PartialEq)]
pub struct ClientEditMessage {
    /// The most recently applied server SequenceId before this client
    /// edit was made
    pub parent_seq: SequenceId,
    /// The client's own local SequenceId for this event
    pub client_seq: SequenceId,
    /// The operations which describe the change to the document
    pub operations: Vec<Operation>,
}

/// An error when attempting to read Events from a Stream, or write
/// Events to a Sink.
#[derive(Debug, PartialEq)]
pub enum MessageStreamError {
    /// Failed to serialize or deserialize message
    InvalidMessage {
        /// Detailed information on the error if available
        reason: String,
    },
    /// Errors from underlying protocol or event store
    Transport {
        /// A description of the underlying error
        error: String,
    },
}

impl From<StoreError> for MessageStreamError {
    fn from(err: StoreError) -> (r: Self)
        ensures
            r matches MessageStreamError::Transport { error } && error@ == crate::store::error_name(err),
    {
        MessageStreamError::Transport { error: String::from_str(err.message()) }
    }
}

impl vstd::std_specs::convert::FromSpecImpl<StoreError> for MessageStreamError {
    /// The conversion is specified by the `ensures` of `from` itself.
    open spec fn obeys_from_spec() -> bool {
        false
    }

    open spec fn from_spec(v: StoreError) -> MessageStreamError {
        vstd::pervasive::arbitrary()
    }
}

} // verus!
