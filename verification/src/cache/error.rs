//! The conditions that the cache reports to its callers.

use vstd::prelude::*;

verus! {

/// Why a call into the cache failed.
#[derive(Debug)]
pub enum CacheError {
    /// The worker with this identifier no longer takes commands.
    WorkerUnreachable(String),
    /// This text cannot serve as a worker identifier here: it has the wrong
    /// length, or another worker of the pool already carries it.
    InvalidWorkerId(String),
}

/// The message of an error, as text.
pub open spec fn error_text(error: CacheError) -> Seq<char> {
    match error {
        CacheError::WorkerUnreachable(id) => "worker id "@ + id@ + " request channel is down"@,
        CacheError::InvalidWorkerId(id) => "worker id "@ + id@ + " is not valid"@,
    }
}

impl CacheError {
    /// The message of this error.
    pub fn message(&self) -> (text: String)
        ensures
            text@ == error_text(*self),
    {
        match self {
            CacheError::WorkerUnreachable(id) => {
                let text = String::from_str("worker id ");
                let text = text.concat(id.as_str());
                text.concat(" request channel is down")
            },
            CacheError::InvalidWorkerId(id) => {
                let text = String::from_str("worker id ");
                let text = text.concat(id.as_str());
                text.concat(" is not valid")
            },
        }
    }
}

} // verus!
