//! Runtime core of a small real-time multiplayer server: the framing of the
//! wire protocol, the fixed-capacity peer registry, the authentication
//! handshake, the per-connection session and the decisions of the
//! simulation tick.
pub mod bitset;
pub mod connection;
pub mod game;
pub mod peer;
pub mod protocol;
pub mod registry;
pub mod state;
pub mod tme;
pub mod wire;
