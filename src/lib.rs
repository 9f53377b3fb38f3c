//! A signaling relay for peer-to-peer connection setup: a session registry,
//! a room table, the routing of join and signal envelopes, and the
//! per-connection lifecycle, all over plain values. Transport connections
//! are named by `u64` handles that the hosting server assigns.

pub mod chat;
pub mod laws;
pub mod message;
pub mod registry;
pub mod session;
pub mod wire;
