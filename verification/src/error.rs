//! Errors of the store's operations and the conditions reported for them.

use crate::digest::HashError;
use crate::tag::TagError;
use vstd::prelude::*;
use vstd::std_specs::convert::FromSpecImpl;

verus! {

/// A failure of the storage engine.
#[derive(Debug, PartialEq, Eq)]
pub enum StorageError {
    /// A table has no identifier left for a new row.
    Exhausted,
    /// An association names an identifier that no row has.
    UnknownId,
    /// The engine answered a request for an identifier without one.
    NoIdentifier,
    /// The engine reported a failure, described by its message.
    Engine(String),
}

/// Why an operation of the store failed.
#[derive(Debug, PartialEq, Eq)]
pub enum Error {
    /// The storage engine failed.
    Postgres(StorageError),
    /// The request holds a malformed hash.
    ArgHash(HashError),
    /// The request holds a malformed tag.
    ArgTag(TagError),
}

/// The conditions that an operation reports to its caller.
#[derive(Clone, Copy, Debug, PartialEq, Eq, Structural)]
pub enum Code {
    /// The service is temporarily unavailable: the caller may try again.
    Unavailable,
    /// The request is malformed: trying again will not help.
    InvalidArgument,
}

/// What a caller is told of a failed operation.
#[derive(Clone, Copy, Debug, PartialEq, Eq)]
pub struct Status {
    pub code: Code,
    pub message: &'static str,
}

/// Storage failures are reported as unavailable, malformed input as an
/// invalid argument; nothing else is reported.
impl From<Error> for Status {
    fn from(other: Error) -> (status: Status) {
        match other {
            Error::Postgres(_) => Status { code: Code::Unavailable, message: "db error" },
            Error::ArgHash(_) | Error::ArgTag(_) => Status {
                code: Code::InvalidArgument,
                message: "Received invalid argument",
            },
        }
    }
}

impl FromSpecImpl<Error> for Status {
    open spec fn obeys_from_spec() -> bool {
        true
    }

    open spec fn from_spec(other: Error) -> Status {
        match other {
            Error::Postgres(_) => Status { code: Code::Unavailable, message: "db error" },
            _ => Status { code: Code::InvalidArgument, message: "Received invalid argument" },
        }
    }
}

} // verus!
