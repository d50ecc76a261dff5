//! A peer-to-peer chat overlay: a rendezvous/relay server that tracks
//! connected users and forwards messages, and a client that talks to the
//! relay and can hold direct links to other clients.
//!
//! This crate holds the protocol core: the wire codec (one JSON object per
//! newline-terminated frame), the per-connection byte buffers, the peer
//! directory with join/leave/heartbeat/timeout semantics, the relay server's
//! routing rules, and the client's smart-send and connect-negotiation rules.
//! Socket I/O, polling and threads live outside this crate; the functions
//! here work on plain values and are verified.

pub mod client;
pub mod codec;
pub mod decimal;
pub mod directory;
pub mod escape;
pub mod framing;
pub mod messages;
pub mod peerlist;
pub mod server;
pub mod utf8help;
pub mod wire;
