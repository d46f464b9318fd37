//! The stopwatch's error kinds and their display text.

use vstd::prelude::*;
use vstd::string::StringExecFns;

verus! {

/// Everything that can go wrong with a stopwatch operation.  Each kind is
/// terminal for the invocation that hit it.
#[derive(Debug)]
pub enum SwError {
    /// `start` was asked for while a log already exists.
    AlreadyRunning,
    /// An operation that needs an existing log found none.
    NotRunning,
    /// An elapsed query named a label that no entry carries.
    InvalidLabel(String),
    /// A log line could not be read back as `"<label>: <timestamp>"`.
    CorruptLog,
}

impl SwError {
    /// The human-readable message for this error.
    pub fn message(&self) -> (r: String)
        ensures
            self is AlreadyRunning ==> r@ == "Stopwatch already running"@,
            self is NotRunning ==> r@ == "No running stopwatch"@,
            self matches SwError::InvalidLabel(l) ==> r@ == "Invalid label "@ + l@,
            self is CorruptLog ==> r@ == "Corrupt stopwatch log"@,
    {
        match self {
            SwError::AlreadyRunning => "Stopwatch already running".to_owned(),
            SwError::NotRunning => "No running stopwatch".to_owned(),
            SwError::InvalidLabel(l) => "Invalid label ".to_owned().concat(l.as_str()),
            SwError::CorruptLog => "Corrupt stopwatch log".to_owned(),
        }
    }
}

} // verus!
