//! Frame-level WebSocket client core: the message codec that turns a byte
//! stream into discrete messages and back, together with the HTTP Upgrade
//! handshake logic that brings a connection into the framed state.

pub mod close;
pub mod codec;
pub mod error;
pub mod frame;
pub mod handshake;
pub mod laws;
pub mod mask;
pub mod message;
pub mod opcode;
pub mod utf8;
