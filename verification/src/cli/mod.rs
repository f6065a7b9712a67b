//! What the command line decides: its arguments, settings, links and what it serves.
pub mod args;
pub mod meaning;
pub mod settings;
pub mod share;
pub mod serve;
