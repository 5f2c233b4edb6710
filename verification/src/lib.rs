//! Core logic of a terminal chat system: the wire protocol, the client's
//! screen state and command parsing, the server's registry of connected
//! clients, and the per-connection session rules.

pub mod text;
pub mod protocol;
pub mod registry;
pub mod auth;
pub mod session;
pub mod client;
