//! Adapters: programs that export and import the state of applications.
pub mod discovery;
pub mod exchange;
pub mod fault;
pub mod path;
pub mod protocol;
pub mod registry;
pub mod request;
