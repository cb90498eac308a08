//! The request and response values exchanged at the protocol boundary.

use crate::errors::DbError;
use vstd::prelude::*;

verus! {

pub enum ServerMessage {
    Okay,
    OkTerminate,
    OkWithPayload(String),
    InvalidCommand,
    ParseError(String),
    BatchError(String),
    ExecutionError(String),
    UnknownExecutionError,
}

pub enum ClientMessage {
    RequestProcessCommand(String),
    RequestProcessCSV(u64),
}

impl ServerMessage {
    /// Whether this response reports the given outcome: success is `Ok`, an
    /// error is `ExecutionError` carrying the error's rendered text.
    pub open spec fn reports(&self, value: Result<(), DbError>) -> bool {
        match value {
            Ok(_) => *self is Okay,
            Err(e) => self matches ServerMessage::ExecutionError(s) && s@ == e.spec_text(),
        }
    }

    pub fn of_result(value: Result<(), DbError>) -> (r: ServerMessage)
        ensures
            r.reports(value),
    {
        match value {
            Ok(_) => ServerMessage::Okay,
            Err(e) => ServerMessage::ExecutionError(e.text()),
        }
    }
}

} // verus!
