//! Realtime connection hub: a registry of live chat connections with mirrored
//! presence, a per-connection heartbeat policy, a one-shot login-correlation
//! handshake, and the JSON wire protocol the hub speaks over its sockets.
//!
//! The hub itself is pure: every operation returns the delivery actions
//! (frames to send, sockets to close) that the surrounding I/O layer must
//! perform, so that no lock is ever held across a send.

pub mod actor;
pub mod assoc;
pub mod codec;
pub mod config;
pub mod correlator;
pub mod heartbeat;
pub mod hub;
pub mod profile;
pub mod protocol;
