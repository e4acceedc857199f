//! Errors that the API answers requests with.
use vstd::prelude::*;
use crate::validation::{ValidationError, message_of};

verus! {

/// A refusal, with the message sent back.
#[derive(Debug, PartialEq, Eq)]
pub enum ServerError {
    /// The server cannot take the request now (it is shutting down).
    ServiceUnavailable(String),
    /// The request is malformed.
    InvalidRequest(String),
    /// What the request names does not exist.
    NotFound(String),
    /// The server failed on its side.
    Internal(String),
}

/// Why a write request was refused: its shape, or one of its inputs.
#[derive(Debug, PartialEq, Eq)]
pub enum RequestError {
    Server(ServerError),
    Validation(ValidationError),
}

impl ServerError {
    /// The refusal that an invalid input gets: an invalid request carrying
    /// the input's message.
    pub fn invalid_input(e: &ValidationError) -> (r: ServerError)
        ensures
            is_invalid_request(r, message_of(*e)),
    {
        ServerError::InvalidRequest(e.message())
    }
}

/// Whether `e` is an invalid-request refusal with message `msg`.
pub open spec fn is_invalid_request(e: ServerError, msg: Seq<char>) -> bool {
    e matches ServerError::InvalidRequest(m) && m@ == msg
}

} // verus!
