//! A verified implementation of the Minecraft-style wire protocol:
//! variable-length integer primitives, byte-stream primitives, a
//! schema-driven packet codec, a partial-read-safe framer, and the
//! connection state machine with its RSA login handshake.

pub mod connection;
pub mod crypto;
pub mod deserializer;
pub mod dispatch;
pub mod non_play;
pub mod packets;
pub mod tags;
pub mod encoding;
pub mod error;
pub mod framer;
pub mod serializer;
pub mod types;
