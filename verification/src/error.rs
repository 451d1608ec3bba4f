//! The error type of the library.
use vstd::prelude::*;

verus! {

/// What went wrong, with a message for the operator.
#[derive(Debug, PartialEq, Eq)]
pub enum Error {
    /// The configuration cannot be used.
    ConfigError(String),
    /// The source sent, or failed to send, something the connector cannot go on from.
    SourceError(String),
    /// The connector is in a state that does not allow the operation.
    StateError(String),
    /// The checkpoint cannot be resumed from.
    CheckpointError(String),
    /// A payload could not be written or read.
    SerializationError(String),
    /// The source cannot be captured from again without an operator's help.
    Unrecoverable(String),
    /// The connector does not offer the operation.
    NotImplemented(String),
}

impl Error {
    /// The message of the error.
    pub open spec fn text(self) -> Seq<char> {
        match self {
            Error::ConfigError(m) => m@,
            Error::SourceError(m) => m@,
            Error::StateError(m) => m@,
            Error::CheckpointError(m) => m@,
            Error::SerializationError(m) => m@,
            Error::Unrecoverable(m) => m@,
            Error::NotImplemented(m) => m@,
        }
    }

    /// The message of the error.
    pub fn message(&self) -> (m: &str)
        ensures
            m@ == self.text(),
    {
        match self {
            Error::ConfigError(m) => m.as_str(),
            Error::SourceError(m) => m.as_str(),
            Error::StateError(m) => m.as_str(),
            Error::CheckpointError(m) => m.as_str(),
            Error::SerializationError(m) => m.as_str(),
            Error::Unrecoverable(m) => m.as_str(),
            Error::NotImplemented(m) => m.as_str(),
        }
    }
}

} // verus!
