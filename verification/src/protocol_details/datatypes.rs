//! Data types that have a wire format of their own.

pub mod nbt;
pub mod var_types;
