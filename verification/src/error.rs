//! The error type of the local half of the library.
use vstd::prelude::*;

use crate::number::{decimal, padded};
use crate::text::{concat, concat3};

verus! {

/// What can go wrong with stored or received data.
#[derive(Debug)]
pub enum Error {
    /// A value is not JSON text, or not JSON of the expected shape.
    Json,
    /// A hex or base64 string was not the expected shape or length.
    Encoding { kind: &'static str, detail: &'static str },
    /// A stored object is missing.
    NotFound { kind: &'static str, id: String },
    /// A stored object is present but does not decode.
    Corrupt { kind: &'static str, detail: &'static str },
    /// A manifest, certificate or path violated a rule.
    Invalid(&'static str),
    /// A manifest version this build does not implement.
    UnsupportedSpec { found: u32, expected: u32 },
    /// A key file of a version this build does not implement.
    UnsupportedKeys { version: String, known: &'static str },
    /// A signature does not cover what it claims to.
    BadSignature(&'static str),
}

/// The text that `message` renders.
pub open spec fn error_text(e: Error) -> Seq<char> {
    match e {
        Error::Json => "json error"@,
        Error::Encoding { kind, detail } => "malformed "@ + kind@ + ": "@ + detail@,
        Error::NotFound { kind, id } => kind@ + " not found: "@ + id@,
        Error::Corrupt { kind, detail } => "corrupt "@ + kind@ + ": "@ + detail@,
        Error::Invalid(detail) => "invalid: "@ + detail@,
        Error::UnsupportedSpec { found, expected } => "unsupported spec "@ + padded(
            found as nat,
            1,
        ) + ", this build implements "@ + padded(expected as nat, 1),
        Error::UnsupportedKeys { version, known } => "unsupported spec "@ + version@
            + ", this build implements "@ + known@,
        Error::BadSignature(detail) => "signature verification failed: "@ + detail@,
    }
}

impl Error {
    /// The error as one line of text.
    pub fn message(&self) -> (r: String)
        ensures
            r@ == error_text(*self),
    {
        match self {
            Error::Json => "json error".to_owned(),
            Error::Encoding { kind, detail } => concat(concat3("malformed ", kind, ": ").as_str(), detail),
            Error::NotFound { kind, id } => concat3(kind, " not found: ", id.as_str()),
            Error::Corrupt { kind, detail } => concat(concat3("corrupt ", kind, ": ").as_str(), detail),
            Error::Invalid(detail) => concat("invalid: ", detail),
            Error::UnsupportedSpec { found, expected } => concat(
                concat3(
                    "unsupported spec ",
                    decimal(*found as u64).as_str(),
                    ", this build implements ",
                ).as_str(),
                decimal(*expected as u64).as_str(),
            ),
            Error::UnsupportedKeys { version, known } => concat(
                concat3("unsupported spec ", version.as_str(), ", this build implements ").as_str(),
                known,
            ),
            Error::BadSignature(detail) => concat("signature verification failed: ", detail),
        }
    }
}

} // verus!
