//! The error type of the networked half of the library.
use vstd::prelude::*;

use crate::error::error_text;
use crate::text::concat;

verus! {

/// What can go wrong between two peers.
#[derive(Debug)]
pub enum Error {
    /// An error of the local half.
    Core(crate::error::Error),
    /// A message is not JSON, or not JSON of the expected shape.
    Json,
    /// A message breaks the protocol.
    Protocol(&'static str),
    /// A peer is not who it claims to be.
    Authentication(&'static str),
    /// A peer may not do what it asks for.
    Authorization(&'static str),
    /// The connection failed.
    Transport(&'static str),
    /// The other side said no, in its own words.
    Refused(String),
    /// The other side did not allow it, in its own words.
    Denied(String),
    /// The other side did not answer in time.
    Timeout,
}

/// The text that `message` renders.
pub open spec fn net_error_text(e: Error) -> Seq<char> {
    match e {
        Error::Core(inner) => "core: "@ + error_text(inner),
        Error::Json => "json: malformed message"@,
        Error::Protocol(detail) => "protocol: "@ + detail@,
        Error::Authentication(detail) => "authentication: "@ + detail@,
        Error::Authorization(detail) => "authorization: "@ + detail@,
        Error::Transport(detail) => "transport: "@ + detail@,
        Error::Refused(words) => "protocol: "@ + words@,
        Error::Denied(words) => "authorization: "@ + words@,
        Error::Timeout => "timeout"@,
    }
}

impl Error {
    /// The error as one line of text.
    pub fn message(&self) -> (r: String)
        ensures
            r@ == net_error_text(*self),
    {
        match self {
            Error::Core(inner) => concat("core: ", inner.message().as_str()),
            Error::Json => "json: malformed message".to_owned(),
            Error::Protocol(detail) => concat("protocol: ", detail),
            Error::Authentication(detail) => concat("authentication: ", detail),
            Error::Authorization(detail) => concat("authorization: ", detail),
            Error::Transport(detail) => concat("transport: ", detail),
            Error::Refused(words) => concat("protocol: ", words.as_str()),
            Error::Denied(words) => concat("authorization: ", words.as_str()),
            Error::Timeout => "timeout".to_owned(),
        }
    }
}

} // verus!
