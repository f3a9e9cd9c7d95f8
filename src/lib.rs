//! Peer discovery and direct channels for devices that share a group:
//! the signaling relay's registry, the network manager's state machine,
//! the signaling client's decisions, and the wire encodings of signaling
//! envelopes and application packets.
pub mod ids;
pub mod maps;
pub mod models;
pub mod network;
pub mod relay;
pub mod rtc;
pub mod signaling;
pub mod wire;
pub mod ws;
