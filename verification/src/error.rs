//! The ways in which a search can fail.

use vstd::prelude::*;
use vstd::string::*;

verus! {

/// Why a search failed. Every failure ends the run.
#[derive(Clone, Debug)]
pub enum SearchError {
    /// The arguments cannot be used; the text says why.
    Argument(String),
    /// The input names no file and, taken as a pattern, matches none. Holds
    /// the input as it was given.
    NotFound(String),
    /// A file could not be read; the text says why.
    Io(String),
}

/// What is written ahead of a message on the error stream.
pub open spec fn report_lead() -> Seq<char> {
    "Application error: "@
}

impl SearchError {
    /// The message for the user.
    pub open spec fn message_of(self) -> Seq<char> {
        match self {
            SearchError::Argument(reason) => reason@,
            SearchError::NotFound(input) => "File '"@ + input@ + "' does not exist."@,
            SearchError::Io(reason) => reason@,
        }
    }

    /// The message for the user.
    pub fn message(&self) -> (r: String)
        ensures
            r@ == self.message_of(),
    {
        match self {
            SearchError::Argument(reason) => reason.clone(),
            SearchError::NotFound(input) => String::from_str("File '").concat(
                input.as_str(),
            ).concat("' does not exist."),
            SearchError::Io(reason) => reason.clone(),
        }
    }

    /// The line for the error stream: the message behind a lead that tells it
    /// from ordinary output.
    pub fn report(&self) -> (r: String)
        ensures
            r@ == report_lead() + self.message_of(),
    {
        let message = self.message();
        String::from_str("Application error: ").concat(message.as_str())
    }
}

/// The exit code of a run: 0 where it succeeded, however many lines were
/// found, and 1 where it failed.
pub fn exit_code(outcome: &Result<(), SearchError>) -> (code: i32)
    ensures
        code == (if outcome is Ok { 0i32 } else { 1i32 }),
{
    match outcome {
        Ok(_) => 0,
        Err(_) => 1,
    }
}

} // verus!
