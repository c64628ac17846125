//! Sans-I/O core of a transparent game-protocol relay.
//!
//! A relay of this kind accepts a client, reads the handshake that opens the
//! client's connection, picks a backend by the host name and port that the
//! handshake asks for, sends the backend a handshake of its own and then
//! passes bytes between the two until either side is done.
//!
//! The crate decides; its caller moves the bytes. Every function here works
//! on bytes that have already been read, or produces bytes that are yet to
//! be written, and says in its contract, over plain sequences of bytes, what
//! it returns.
//!
//! - [`varint`] and [`wire`]: the primitives of the wire format.
//! - [`handshake`]: reading a client's handshake, writing the one for the
//!   backend.
//! - [`stream`]: why a handshake can be read from bytes that arrive in
//!   pieces.
//! - [`routing`] and [`config`]: the routing table and its configuration
//!   text.
//! - [`connection`]: what to do with a client, given what it has sent.
//! - [`relay`]: the rules of the relay that follows.
//! - [`error`]: what can be wrong with a client's bytes.
//! - [`utf8`] and [`json`]: what is taken for granted of code outside the
//!   crate.

pub mod config;
pub mod connection;
pub mod error;
pub mod handshake;
pub mod json;
pub mod relay;
pub mod routing;
pub mod stream;
pub mod utf8;
pub mod varint;
pub mod wire;
