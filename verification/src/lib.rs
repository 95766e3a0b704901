//! An IRC client protocol engine: byte-stream framing under the 512-byte
//! wire limit, message grammar parsing, command dispatch with the
//! registration handshake, and wire serialization.
//!
//! The engine is pure: it turns stream bytes into wire lines to send and
//! events for a display/relay sink. Sockets, configuration and rendering
//! live outside it.

pub mod dispatch;
pub mod engine;
pub mod framer;
pub mod message;
pub mod parser;
pub mod roundtrip;
pub mod session;
pub mod text;
pub mod writer;
