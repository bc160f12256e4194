//! Server-side codec for the Minecraft: Java Edition wire protocol.
//!
//! The crate holds the wire primitives, the NBT tree format, the typed
//! packet table with its frame codec, and the state that a connection keeps
//! between socket reads. Every function carries a contract that Verus proves.

pub mod packets;
pub mod protocol_details;
pub mod network;
