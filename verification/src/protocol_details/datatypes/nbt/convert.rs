//! Tags from plain values.

use crate::protocol_details::datatypes::nbt::nbt::{
    NbtByteArray, NbtCompound, NbtIntArray, NbtList, NbtLongArray, NbtTag,
};
use vstd::prelude::*;
use vstd::std_specs::convert::FromSpecImpl;

verus! {

impl From<i8> for NbtTag {
    fn from(value: i8) -> (tag: Self) {
        NbtTag::Byte(value)
    }
}

impl FromSpecImpl<i8> for NbtTag {
    open spec fn obeys_from_spec() -> bool {
        true
    }

    open spec fn from_spec(value: i8) -> Self {
        NbtTag::Byte(value)
    }
}

impl From<i16> for NbtTag {
    fn from(value: i16) -> (tag: Self) {
        NbtTag::Short(value)
    }
}

impl FromSpecImpl<i16> for NbtTag {
    open spec fn obeys_from_spec() -> bool {
        true
    }

    open spec fn from_spec(value: i16) -> Self {
        NbtTag::Short(value)
    }
}

impl From<i32> for NbtTag {
    fn from(value: i32) -> (tag: Self) {
        NbtTag::Int(value)
    }
}

impl FromSpecImpl<i32> for NbtTag {
    open spec fn obeys_from_spec() -> bool {
        true
    }

    open spec fn from_spec(value: i32) -> Self {
        NbtTag::Int(value)
    }
}

impl From<i64> for NbtTag {
    fn from(value: i64) -> (tag: Self) {
        NbtTag::Long(value)
    }
}

impl FromSpecImpl<i64> for NbtTag {
    open spec fn obeys_from_spec() -> bool {
        true
    }

    open spec fn from_spec(value: i64) -> Self {
        NbtTag::Long(value)
    }
}

impl From<String> for NbtTag {
    fn from(value: String) -> (tag: Self) {
        NbtTag::String(value)
    }
}

impl FromSpecImpl<String> for NbtTag {
    open spec fn obeys_from_spec() -> bool {
        true
    }

    open spec fn from_spec(value: String) -> Self {
        NbtTag::String(value)
    }
}

impl From<NbtByteArray> for NbtTag {
    fn from(value: NbtByteArray) -> (tag: Self) {
        NbtTag::ByteArray(value)
    }
}

impl FromSpecImpl<NbtByteArray> for NbtTag {
    open spec fn obeys_from_spec() -> bool {
        true
    }

    open spec fn from_spec(value: NbtByteArray) -> Self {
        NbtTag::ByteArray(value)
    }
}

impl From<NbtIntArray> for NbtTag {
    fn from(value: NbtIntArray) -> (tag: Self) {
        NbtTag::IntArray(value)
    }
}

impl FromSpecImpl<NbtIntArray> for NbtTag {
    open spec fn obeys_from_spec() -> bool {
        true
    }

    open spec fn from_spec(value: NbtIntArray) -> Self {
        NbtTag::IntArray(value)
    }
}

impl From<NbtLongArray> for NbtTag {
    fn from(value: NbtLongArray) -> (tag: Self) {
        NbtTag::LongArray(value)
    }
}

impl FromSpecImpl<NbtLongArray> for NbtTag {
    open spec fn obeys_from_spec() -> bool {
        true
    }

    open spec fn from_spec(value: NbtLongArray) -> Self {
        NbtTag::LongArray(value)
    }
}

impl From<NbtList> for NbtTag {
    fn from(value: NbtList) -> (tag: Self) {
        NbtTag::List(value)
    }
}

impl FromSpecImpl<NbtList> for NbtTag {
    open spec fn obeys_from_spec() -> bool {
        true
    }

    open spec fn from_spec(value: NbtList) -> Self {
        NbtTag::List(value)
    }
}

impl From<NbtCompound> for NbtTag {
    fn from(value: NbtCompound) -> (tag: Self) {
        NbtTag::Compound(value)
    }
}

impl FromSpecImpl<NbtCompound> for NbtTag {
    open spec fn obeys_from_spec() -> bool {
        true
    }

    open spec fn from_spec(value: NbtCompound) -> Self {
        NbtTag::Compound(value)
    }
}

} // verus!
