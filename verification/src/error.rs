//! The errors this layer reports, and the translation of foreign failure
//! signals into them.
//!
//! Every engine call that can fail reports through a nullable message buffer.
//! The unverified shell copies such a message out (and releases the buffer)
//! before handing it here; these functions decide which error value the caller
//! sees, so that the decision itself is verified.

use vstd::prelude::*;

verus! {

/// What can go wrong in this layer.
#[derive(Debug)]
pub enum Error {
    /// The database path cannot be encoded for the engine (it holds an
    /// interior nul byte).
    InvalidPath,
    /// The database could not be opened.
    Open(String),
    /// A read failed inside the engine.
    Read(String),
    /// A write (put, delete, or batch commit) failed inside the engine.
    Write(String),
    /// The engine signalled failure without a message.
    UnknownError,
}

impl Error {
    /// The human-readable message this error carries.
    pub open spec fn message_view(self) -> Seq<char> {
        match self {
            Error::InvalidPath => "invalid path: contains an interior nul byte"@,
            Error::Open(m) => m@,
            Error::Read(m) => m@,
            Error::Write(m) => m@,
            Error::UnknownError => "unknown error"@,
        }
    }

    /// An owned copy of the message this error carries.
    pub fn message(&self) -> (s: String)
        ensures
            s@ == self.message_view(),
    {
        match self {
            Error::InvalidPath => "invalid path: contains an interior nul byte".to_owned(),
            Error::Open(m) => m.clone(),
            Error::Read(m) => m.clone(),
            Error::Write(m) => m.clone(),
            Error::UnknownError => "unknown error".to_owned(),
        }
    }
}

/// The error reported when an open call fails: the engine's message when one
/// came back, and a fixed description when the engine returned no handle and
/// no message.
pub fn open_failure(message: Option<String>) -> (e: Error)
    ensures
        (e matches Error::Open(m) && m@ == match message {
            Some(given) => given@,
            None => "failed to open database"@,
        }),
{
    match message {
        Some(given) => Error::Open(given),
        None => Error::Open("failed to open database".to_owned()),
    }
}

/// The error reported when a get call fails.
pub fn read_failure(message: Option<String>) -> (e: Error)
    ensures
        match message {
            Some(given) => e matches Error::Read(m) && m@ == given@,
            None => e == Error::UnknownError,
        },
{
    match message {
        Some(given) => Error::Read(given),
        None => Error::UnknownError,
    }
}

/// The error reported when a put, delete, or batch commit fails.
pub fn write_failure(message: Option<String>) -> (e: Error)
    ensures
        match message {
            Some(given) => e matches Error::Write(m) && m@ == given@,
            None => e == Error::UnknownError,
        },
{
    match message {
        Some(given) => Error::Write(given),
        None => Error::UnknownError,
    }
}

} // verus!
