//! What can go wrong between the text of a file and a record.

use vstd::prelude::*;
use vstd::string::StringExecFns;
use crate::json::error_text;

verus! {

/// Why a record could not be read or written.
#[derive(Debug)]
pub enum CounterError {
    /// The file at this path is not empty and does not hold a record.
    Parse(String),
    /// The record could not be written as JSON.
    Encode(serde_json::Error),
}

/// What follows the path in the message of a `Parse` error.
pub open spec fn invalid_suffix() -> Seq<char> {
    " is invalid sentence counter file"@
}

impl CounterError {
    /// The path of the file that a `Parse` error speaks of.
    pub open spec fn path(&self) -> Seq<char> {
        match self {
            CounterError::Parse(path) => path@,
            CounterError::Encode(_) => Seq::empty(),
        }
    }

    /// The message for the user: for a `Parse` error the path and then
    /// ` is invalid sentence counter file`; for an `Encode` error what the
    /// encoder reports.
    pub fn message(&self) -> (text: String)
        ensures
            self is Parse ==> text@ == self.path() + invalid_suffix(),
    {
        match self {
            CounterError::Parse(path) => {
                let mut text = path.clone();
                text.append(" is invalid sentence counter file");
                text
            },
            CounterError::Encode(error) => error_text(error),
        }
    }
}

} // verus!
