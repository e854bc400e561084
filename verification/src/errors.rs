//! The error taxonomy of the transfer and sweep engine. Every error is
//! fatal to the run that raised it: there are no retries.

use vstd::prelude::*;

verus! {

/// What can go wrong in the core: a network failure, an unexpected or
/// malformed response, or an object key whose identifier does not decode.
#[derive(Debug)]
pub enum CoreError {
    Transport(String),
    Protocol(String),
    Codec(String),
}

impl CoreError {
    /// The carried message, for reporting.
    pub fn message(&self) -> (r: &String)
        ensures
            r@ == (match self {
                CoreError::Transport(m) => m@,
                CoreError::Protocol(m) => m@,
                CoreError::Codec(m) => m@,
            }),
    {
        match self {
            CoreError::Transport(m) => m,
            CoreError::Protocol(m) => m,
            CoreError::Codec(m) => m,
        }
    }
}

} // verus!
