//! Errors of the websocket core. Every recoverable failure is surfaced to
//! exactly the originating client as a `success=false` message.

use crate::json::JsonVal;
use crate::message::{ClientMessage, ErrorCause};
use vstd::prelude::*;

verus! {

/// Failure while handling an inbound frame; each variant carries its
/// human-readable cause.
#[derive(Debug, PartialEq, Eq)]
pub enum WebsocketError {
    MessageParseError(Vec<u8>),
    UnexpectedError(Vec<u8>),
}

impl ErrorCause for WebsocketError {
    open spec fn cause_spec(&self) -> Seq<u8> {
        match self {
            WebsocketError::MessageParseError(c) => c@,
            WebsocketError::UnexpectedError(c) => c@,
        }
    }

    fn into_cause(self) -> (r: Vec<u8>) {
        match self {
            WebsocketError::MessageParseError(c) => c,
            WebsocketError::UnexpectedError(c) => c,
        }
    }
}

impl ClientMessage {
    /// The message sent for a session-level failure: no subsystem, not
    /// successful, the cause as the payload.
    pub fn from(e: WebsocketError) -> (r: ClientMessage)
        ensures
            r.system is None,
            r.success == false,
            r.payload@ == JsonVal::Str(e.cause_spec()),
    {
        ClientMessage { system: None, success: false, payload: crate::json::JsonValue::Str(e.into_cause()) }
    }
}

} // verus!
