//! The connection that carries a client's messages: what each incoming
//! frame means, and why a connection can fail.
use vstd::prelude::*;

verus! {

/// Why a connection could not carry a message.
#[derive(Debug, PartialEq)]
pub enum ConnectionError {
    /// Failed to serialize or deserialize message
    InvalidMessage { reason: String },
    /// Errors from underlying protocol
    Communication { error: String },
}

impl ConnectionError {
    /// A message that is not text reached the connection.
    pub fn not_text() -> (e: Self)
        ensures
            e matches ConnectionError::InvalidMessage { reason } && reason@ == "Not a websocket text message"@,
    {
        ConnectionError::InvalidMessage { reason: String::from_str("Not a websocket text message") }
    }
}

/// What arrived on a client's connection.
pub enum Frame {
    /// A text frame, which holds one client message.
    Text(String),
    /// A binary frame.
    Binary,
    /// A ping from the client.
    Ping,
    /// A pong from the client.
    Pong,
    /// The client closed the connection, or the stream of frames ended.
    Closed,
    /// The transport failed, with its description.
    Failed(String),
}

/// What the connection does with a frame.
#[derive(Debug, PartialEq)]
pub enum FrameAction {
    /// Read the text as a client message.
    Read(String),
    /// Ignore the frame and wait for the next one.
    Skip,
    /// End the connection without an error.
    Stop,
    /// End the connection with this error.
    Fail(ConnectionError),
}

/// Decides what an incoming frame means: a text frame carries a message,
/// pings and pongs are ignored, a close or the end of the stream ends the
/// connection, a binary frame is refused as not text, and a failure of the
/// transport ends the connection with its description.
pub fn frame_action(frame: Frame) -> (a: FrameAction)
    ensures
        match frame {
            Frame::Text(text) => a == FrameAction::Read(text),
            Frame::Binary => a matches FrameAction::Fail(ConnectionError::InvalidMessage { reason })
                && reason@ == "Not a websocket text message"@,
            Frame::Ping | Frame::Pong => a == FrameAction::Skip,
            Frame::Closed => a == FrameAction::Stop,
            Frame::Failed(error) => a == FrameAction::Fail(ConnectionError::Communication { error }),
        },
{
    match frame {
        Frame::Text(text) => FrameAction::Read(text),
        Frame::Binary => FrameAction::Fail(ConnectionError::not_text()),
        Frame::Ping | Frame::Pong => FrameAction::Skip,
        Frame::Closed => FrameAction::Stop,
        Frame::Failed(error) => FrameAction::Fail(ConnectionError::Communication { error }),
    }
}

} // verus!
