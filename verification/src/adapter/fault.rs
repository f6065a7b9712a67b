//! What can go wrong between this device and an adapter.
use vstd::prelude::*;

use crate::text::concat3;

verus! {

/// What an adapter says of its failure.
#[derive(Debug, PartialEq, Eq)]
pub struct AdapterError {
    pub code: String,
    pub message: String,
    pub retryable: bool,
}

/// What went wrong: something is not as it has to be, or the adapter says that it failed.
#[derive(Debug, PartialEq, Eq)]
pub enum Fault {
    Text(String),
    Adapter(AdapterError),
}

/// What a fault is.
pub enum FaultV {
    Text(Seq<char>),
    Adapter(Seq<char>, Seq<char>, bool),
}

impl View for Fault {
    type V = FaultV;

    open spec fn view(&self) -> FaultV {
        match *self {
            Fault::Text(t) => FaultV::Text(t@),
            Fault::Adapter(e) => FaultV::Adapter(e.code@, e.message@, e.retryable),
        }
    }
}

/// The text that `message` renders.
pub open spec fn fault_text(f: FaultV) -> Seq<char> {
    match f {
        FaultV::Text(t) => t,
        FaultV::Adapter(code, message, retryable) => code + ": "@ + message,
    }
}

impl Fault {
    /// A fault in plain words.
    pub fn text(words: &str) -> (r: Self)
        ensures
            r@ == FaultV::Text(words@),
    {
        Fault::Text(words.to_owned())
    }

    /// The fault as one line of text.
    pub fn message(&self) -> (r: String)
        ensures
            r@ == fault_text(self@),
    {
        match self {
            Fault::Text(t) => t.clone(),
            Fault::Adapter(e) => concat3(e.code.as_str(), ": ", e.message.as_str()),
        }
    }
}

} // verus!
