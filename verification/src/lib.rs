//! A WebSocket protocol engine that never touches a transport.
//!
//! The engine turns messages into the bytes of frames and the bytes that a peer sent back into
//! messages. Whoever owns the transport moves the bytes; every rule of the protocol lives here,
//! with a contract that says what comes out.
//!
//! Extensions are an interface with one implementation, the empty one. Compression is not
//! built in.

pub mod buffer;
pub mod connection;
pub mod duplex;
pub mod errors;
pub mod extension;
pub mod fragment;
pub mod handshake;
pub mod header;
pub mod frame;
pub mod mask;
pub mod message;
pub mod protocol;
pub mod receiver;
pub mod sender;
pub mod ws;
