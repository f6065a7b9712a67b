//! Abra: capsules, snapshots and trust between one user's devices.
pub mod adapter;
pub mod authority;
pub mod base64;
pub mod bytes;
pub mod capsule;
pub mod cas;
pub mod canonical;
pub mod checksum;
pub mod cli;
pub mod covered;
pub mod crypto;
pub mod distinct;
pub mod error;
pub mod faithful;
pub mod history;
pub mod identity;
pub mod json;
pub mod limits;
pub mod lineage;
pub mod link;
pub mod linkage;
pub mod manifest;
pub mod reach;
pub mod reading;
pub mod record;
pub mod members;
pub mod net;
pub mod number;
pub mod order;
pub mod reload;
pub mod restore;
pub mod shape;
pub mod store;
pub mod succession;
pub mod table;
pub mod text;
pub mod util;
pub mod walk;
