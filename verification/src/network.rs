//! What a connection keeps between socket reads, and what it decides.

pub mod connection;
pub mod network_error;
