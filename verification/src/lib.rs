//! An inline answering bot's core: an ephemeral response registry that books
//! generated answers under content fingerprints and tells real choices from
//! statistics pseudo-choices, a wholesale-replaceable corpus snapshot cache,
//! and an in-memory mirror of persisted counters with an
//! increment-and-reflect write path and a derived summary view.

pub mod booking;
pub mod corpus;
pub mod errors;
pub mod fingerprint;
pub mod handlers;
pub mod migrate;
pub mod seller;
pub mod stats;
pub mod table;
pub mod text;

pub use errors::Error;
