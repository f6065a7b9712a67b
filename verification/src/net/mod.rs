//! The networked half: trust, messages, delivery.
pub mod ack;
pub mod admittance;
pub mod adopt;
pub mod auth;
pub mod bind;
pub mod clock;
pub mod control;
pub mod conveyance;
pub mod deeds;
pub mod delivery;
pub mod enroll;
pub mod error;
pub mod framing;
pub mod handshake;
pub mod hello;
pub mod incoming;
pub mod intake;
pub mod keeping;
pub mod lasting;
pub mod offer;
pub mod outbox;
pub mod outcome;
pub mod outgoing;
pub mod pack;
pub mod pairing;
pub mod plan;
pub mod reason;
pub mod receive;
pub mod relay;
pub mod revoke;
pub mod send;
pub mod session;
pub mod settle;
pub mod signing;
pub mod standing;
pub mod tickets;
pub mod transport;
pub mod trust;
