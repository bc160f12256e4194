//! Output buffer, input cursor, the two codec traits and the wire primitives.

pub mod primitives;
pub mod serializer_error;
pub mod serializer_handler;
