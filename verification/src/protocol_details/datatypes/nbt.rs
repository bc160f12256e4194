//! Named Binary Tag: the tree format that the game uses for structured data.

pub mod compare;
pub mod convert;
pub mod copy;
pub mod decode;
pub mod encode;
pub mod laws;
pub mod name_index;
pub mod nbt;
pub mod unique;
