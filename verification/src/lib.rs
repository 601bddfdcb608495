//! Protocol core of a socket.io / engine.io server: packet framing, payload
//! placeholders, the per-connection transport state machine and the
//! acknowledgement registry, with machine-checked contracts.

pub mod ack;
pub mod application;
pub mod error;
pub mod extract;
pub mod handshake;
pub mod msgpack;
pub mod packet;
pub mod response;
pub mod session;
pub mod table;
pub mod value;
pub mod wire;
