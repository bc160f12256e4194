//! The data types of the protocol and the table of its versions.

pub mod datatypes;
pub mod protocol_verison;
