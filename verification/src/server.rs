//! What can go wrong while serving, and how it is answered.

use vstd::prelude::*;

use crate::error;
use crate::error::Error;

verus! {

/// The version that the programs report.
pub const VERSION: &'static str = "0.1.0";

#[derive(Debug)]
pub enum ServerError {
    Config(String),
    Unauthorized,
    /// The client has guessed too often and must wait so many nanoseconds.
    TooManyAttempts { retry_after: u128 },
    NotFound,
    BadRequest(String),
    Internal,
    Core(Error),
    /// Anything else that failed, with what it said.
    Failed(String),
}

/// The status and message that an error is answered with. What is our own problem
/// stays in the log rather than going out to a caller who may not be trusted.
pub open spec fn answer_of(e: ServerError) -> (u16, Seq<char>) {
    match e {
        ServerError::Unauthorized => (401, "authentication required"@),
        ServerError::NotFound => (404, "not found"@),
        ServerError::BadRequest(m) => (400, m@),
        ServerError::Core(Error::NotFound { kind, id }) => (
            404,
            error::error_text(Error::NotFound { kind, id }),
        ),
        _ => (500, "internal error"@),
    }
}

impl ServerError {
    /// The status and message to answer with.
    pub fn answer(&self) -> (r: (u16, String))
        ensures
            (r.0, r.1@) == answer_of(*self),
    {
        match self {
            ServerError::Unauthorized => (401, "authentication required".to_owned()),
            ServerError::NotFound => (404, "not found".to_owned()),
            ServerError::BadRequest(m) => (400, m.clone()),
            ServerError::Core(Error::NotFound { kind, id }) => (
                404,
                Error::NotFound { kind: *kind, id: *id }.to_text(),
            ),
            _ => (500, "internal error".to_owned()),
        }
    }
}

} // verus!
