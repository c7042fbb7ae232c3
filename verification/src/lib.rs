//! Signaling core of a WebRTC conferencing server.
//!
//! The crate verifies the decision logic of an SFU-style server: the
//! per-peer signaling state machine, the room and relay registries with
//! their coherence invariant, message routing with peer-list broadcasts,
//! ICE candidate buffering, connection monitoring, and the time-limited
//! TURN credential scheme.  The asynchronous transport shell that feeds
//! events into this core lives outside the library.

pub mod assoc;
pub mod connection_state;
pub mod error;
pub mod handler;
pub mod monitoring;
pub mod recording;
pub mod relay;
pub mod room;
pub mod session;
pub mod seqs;
pub mod strutil;
pub mod turn;
pub mod types;
pub mod wire;
