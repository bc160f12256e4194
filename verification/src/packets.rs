//! Packet schemas, the frame codec and the serialization buffers.

pub mod canonical;
pub mod compression;
pub mod fields;
pub mod packet_definer;
pub mod raw_packet;
pub mod registry;
pub mod serialization;
