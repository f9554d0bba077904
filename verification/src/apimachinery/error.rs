//! What can go wrong between the components and the store.

use vstd::prelude::*;
use vstd::string::*;

use crate::decimal::{dec, format_u64};

verus! {

/// An error of a component or of the store.
#[derive(Debug)]
pub enum Error {
    NotFound(String),
    AlreadyExists(String),
    Conflict,
    /// The revision has been compacted away.
    Gone(u64),
    Invalid(String),
    Unauthorized(String),
    Forbidden(String),
    Internal(String),
    Serialization(String),
    Io(String),
    Store(String),
    /// The store is not serving. It is the backend's fault and mostly passes,
    /// where [`Error::Store`] is this program's and stays.
    Unavailable(String),
    Raft(String),
    Tls(String),
}

impl Error {
    /// The text of the error.
    pub open spec fn description(self) -> Seq<char> {
        match self {
            Error::NotFound(m) => "not found: "@ + m@,
            Error::AlreadyExists(m) => "already exists: "@ + m@,
            Error::Conflict => "conflict: resource version mismatch"@,
            Error::Gone(rev) => "gone: resource version "@ + dec(rev as nat)
                + " has been compacted"@,
            Error::Invalid(m) => "invalid: "@ + m@,
            Error::Unauthorized(m) => "unauthorized: "@ + m@,
            Error::Forbidden(m) => "forbidden: "@ + m@,
            Error::Internal(m) => "internal: "@ + m@,
            Error::Serialization(m) => "serialization: "@ + m@,
            Error::Io(m) => "io: "@ + m@,
            Error::Store(m) => "store: "@ + m@,
            Error::Unavailable(m) => "datastore unavailable: "@ + m@,
            Error::Raft(m) => "raft: "@ + m@,
            Error::Tls(m) => "tls: "@ + m@,
        }
    }

    /// The text of the error.
    pub fn describe(&self) -> (r: String)
        ensures
            r@ == self.description(),
    {
        match self {
            Error::NotFound(m) => "not found: ".to_owned().concat(m.as_str()),
            Error::AlreadyExists(m) => "already exists: ".to_owned().concat(m.as_str()),
            Error::Conflict => "conflict: resource version mismatch".to_owned(),
            Error::Gone(rev) => {
                let n = format_u64(*rev);
                "gone: resource version ".to_owned().concat(n.as_str()).concat(
                    " has been compacted",
                )
            },
            Error::Invalid(m) => "invalid: ".to_owned().concat(m.as_str()),
            Error::Unauthorized(m) => "unauthorized: ".to_owned().concat(m.as_str()),
            Error::Forbidden(m) => "forbidden: ".to_owned().concat(m.as_str()),
            Error::Internal(m) => "internal: ".to_owned().concat(m.as_str()),
            Error::Serialization(m) => "serialization: ".to_owned().concat(m.as_str()),
            Error::Io(m) => "io: ".to_owned().concat(m.as_str()),
            Error::Store(m) => "store: ".to_owned().concat(m.as_str()),
            Error::Unavailable(m) => "datastore unavailable: ".to_owned().concat(m.as_str()),
            Error::Raft(m) => "raft: ".to_owned().concat(m.as_str()),
            Error::Tls(m) => "tls: ".to_owned().concat(m.as_str()),
        }
    }
}

} // verus!
