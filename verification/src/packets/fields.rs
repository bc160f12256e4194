//! The wire types that a packet field can have, and a field's value.

use crate::packets::serialization::primitives::{
    deserialize_string, lemma_pow256_values, lemma_prefixed_round_trip, lemma_read_be_round_trip,
    lemma_string_round_trip, spec_read_string, Uuid, MAX_STRING_BYTES,
};
use crate::packets::serialization::serializer_error::SerializingErr;
use crate::packets::serialization::serializer_handler::{
    McDeserialize, McDeserializer, McSerialize, McSerializer,
};
use crate::protocol_details::datatypes::var_types::{
    lemma_varint_round_trip, lemma_varlong_round_trip, VarInt, VarLong,
};
use vstd::prelude::*;
use vstd::utf8::encode_utf8;

verus! {

/// The wire type of one field of a packet schema.
#[derive(Debug, Clone, Copy, PartialEq, Eq, Hash, Structural)]
pub enum FieldType {
    /// One byte: zero is `false`, anything else `true`.
    Bool,
    /// A signed byte.
    Byte,
    /// An unsigned byte.
    UnsignedByte,
    /// A signed 16-bit integer, big-endian.
    Short,
    /// An unsigned 16-bit integer, big-endian.
    UnsignedShort,
    /// A signed 32-bit integer, big-endian.
    Int,
    /// A signed 64-bit integer, big-endian.
    Long,
    /// The 32 bits of a single-precision number, big-endian.
    Float,
    /// The 64 bits of a double-precision number, big-endian.
    Double,
    /// A variable-length 32-bit integer.
    VarInt,
    /// A variable-length 64-bit integer.
    VarLong,
    /// UTF-8 text behind its byte count, which may be at most `max`.
    String { max: usize },
    /// Raw bytes behind their count.
    ByteArray,
    /// Sixteen bytes.
    Uuid,
}

/// The value of one field of a packet. A floating-point field holds the bits
/// of its number.
#[derive(Debug, Clone, PartialEq, Eq)]
pub enum FieldValue {
    Bool(bool),
    Byte(i8),
    UnsignedByte(u8),
    Short(i16),
    UnsignedShort(u16),
    Int(i32),
    Long(i64),
    Float(u32),
    Double(u64),
    VarInt(VarInt),
    VarLong(VarLong),
    String(String),
    ByteArray(Vec<u8>),
    Uuid(Uuid),
}

/// A field's value as a mathematical value.
pub enum FieldValueView {
    Bool(bool),
    Byte(i8),
    UnsignedByte(u8),
    Short(i16),
    UnsignedShort(u16),
    Int(i32),
    Long(i64),
    Float(u32),
    Double(u64),
    VarInt(i32),
    VarLong(i64),
    String(Seq<char>),
    ByteArray(Seq<u8>),
    Uuid(u128),
}

impl View for FieldValue {
    type V = FieldValueView;

    open spec fn view(&self) -> FieldValueView {
        match self {
            FieldValue::Bool(v) => FieldValueView::Bool(*v),
            FieldValue::Byte(v) => FieldValueView::Byte(*v),
            FieldValue::UnsignedByte(v) => FieldValueView::UnsignedByte(*v),
            FieldValue::Short(v) => FieldValueView::Short(*v),
            FieldValue::UnsignedShort(v) => FieldValueView::UnsignedShort(*v),
            FieldValue::Int(v) => FieldValueView::Int(*v),
            FieldValue::Long(v) => FieldValueView::Long(*v),
            FieldValue::Float(v) => FieldValueView::Float(*v),
            FieldValue::Double(v) => FieldValueView::Double(*v),
            FieldValue::VarInt(v) => FieldValueView::VarInt(v.0),
            FieldValue::VarLong(v) => FieldValueView::VarLong(v.0),
            FieldValue::String(v) => FieldValueView::String(v@),
            FieldValue::ByteArray(v) => FieldValueView::ByteArray(v@),
            FieldValue::Uuid(v) => FieldValueView::Uuid(v.0),
        }
    }
}

impl FieldValueView {
    /// The wire form of the value, or why it has none. A string is held to
    /// the bound that holds where none is declared.
    pub open spec fn spec_bytes(self) -> Result<Seq<u8>, SerializingErr> {
        match self {
            FieldValueView::Bool(v) => v.spec_serialize(),
            FieldValueView::Byte(v) => v.spec_serialize(),
            FieldValueView::UnsignedByte(v) => v.spec_serialize(),
            FieldValueView::Short(v) => v.spec_serialize(),
            FieldValueView::UnsignedShort(v) => v.spec_serialize(),
            FieldValueView::Int(v) => v.spec_serialize(),
            FieldValueView::Long(v) => v.spec_serialize(),
            FieldValueView::Float(v) => v.spec_serialize(),
            FieldValueView::Double(v) => v.spec_serialize(),
            FieldValueView::VarInt(v) => VarInt(v).spec_serialize(),
            FieldValueView::VarLong(v) => VarLong(v).spec_serialize(),
            FieldValueView::String(v) => crate::packets::serialization::primitives::spec_string_bytes(
                v,
                MAX_STRING_BYTES as nat,
            ),
            FieldValueView::ByteArray(v) => crate::packets::serialization::primitives::spec_prefixed_bytes(
                v,
                i32::MAX as nat,
            ),
            FieldValueView::Uuid(v) => Uuid(v).spec_serialize(),
        }
    }

    /// Whether the value is one of wire type `ty`: of its kind, and, for a
    /// string, within its bound.
    pub open spec fn conforms(self, ty: FieldType) -> bool {
        match (self, ty) {
            (FieldValueView::Bool(_), FieldType::Bool) => true,
            (FieldValueView::Byte(_), FieldType::Byte) => true,
            (FieldValueView::UnsignedByte(_), FieldType::UnsignedByte) => true,
            (FieldValueView::Short(_), FieldType::Short) => true,
            (FieldValueView::UnsignedShort(_), FieldType::UnsignedShort) => true,
            (FieldValueView::Int(_), FieldType::Int) => true,
            (FieldValueView::Long(_), FieldType::Long) => true,
            (FieldValueView::Float(_), FieldType::Float) => true,
            (FieldValueView::Double(_), FieldType::Double) => true,
            (FieldValueView::VarInt(_), FieldType::VarInt) => true,
            (FieldValueView::VarLong(_), FieldType::VarLong) => true,
            (FieldValueView::String(text), FieldType::String { max }) => encode_utf8(text).len()
                <= max,
            (FieldValueView::ByteArray(_), FieldType::ByteArray) => true,
            (FieldValueView::Uuid(_), FieldType::Uuid) => true,
            _ => false,
        }
    }
}

impl FieldType {
    /// The value of this wire type at the front of `bytes` and how many
    /// bytes it takes, or why there is none.
    #[verifier::opaque]
    pub open spec fn spec_read(self, bytes: Seq<u8>) -> Result<(FieldValueView, nat), SerializingErr> {
        match self {
            FieldType::Bool => match bool::spec_deserialize(bytes) {
                Ok((v, n)) => Ok((FieldValueView::Bool(v), n)),
                Err(e) => Err(e),
            },
            FieldType::Byte => match i8::spec_deserialize(bytes) {
                Ok((v, n)) => Ok((FieldValueView::Byte(v), n)),
                Err(e) => Err(e),
            },
            FieldType::UnsignedByte => match u8::spec_deserialize(bytes) {
                Ok((v, n)) => Ok((FieldValueView::UnsignedByte(v), n)),
                Err(e) => Err(e),
            },
            FieldType::Short => match i16::spec_deserialize(bytes) {
                Ok((v, n)) => Ok((FieldValueView::Short(v), n)),
                Err(e) => Err(e),
            },
            FieldType::UnsignedShort => match u16::spec_deserialize(bytes) {
                Ok((v, n)) => Ok((FieldValueView::UnsignedShort(v), n)),
                Err(e) => Err(e),
            },
            FieldType::Int => match i32::spec_deserialize(bytes) {
                Ok((v, n)) => Ok((FieldValueView::Int(v), n)),
                Err(e) => Err(e),
            },
            FieldType::Long => match i64::spec_deserialize(bytes) {
                Ok((v, n)) => Ok((FieldValueView::Long(v), n)),
                Err(e) => Err(e),
            },
            FieldType::Float => match u32::spec_deserialize(bytes) {
                Ok((v, n)) => Ok((FieldValueView::Float(v), n)),
                Err(e) => Err(e),
            },
            FieldType::Double => match u64::spec_deserialize(bytes) {
                Ok((v, n)) => Ok((FieldValueView::Double(v), n)),
                Err(e) => Err(e),
            },
            FieldType::VarInt => match VarInt::spec_deserialize(bytes) {
                Ok((v, n)) => Ok((FieldValueView::VarInt(v), n)),
                Err(e) => Err(e),
            },
            FieldType::VarLong => match VarLong::spec_deserialize(bytes) {
                Ok((v, n)) => Ok((FieldValueView::VarLong(v), n)),
                Err(e) => Err(e),
            },
            FieldType::String { max } => match spec_read_string(bytes, max as nat) {
                Ok((v, n)) => Ok((FieldValueView::String(v), n)),
                Err(e) => Err(e),
            },
            FieldType::ByteArray => match Vec::<u8>::spec_deserialize(bytes) {
                Ok((v, n)) => Ok((FieldValueView::ByteArray(v), n)),
                Err(e) => Err(e),
            },
            FieldType::Uuid => match Uuid::spec_deserialize(bytes) {
                Ok((v, n)) => Ok((FieldValueView::Uuid(v), n)),
                Err(e) => Err(e),
            },
        }
    }

    /// Reads one value of this wire type. Where that fails nothing is read.
    pub fn deserialize(self, deserializer: &mut McDeserializer) -> (r: Result<
        FieldValue,
        SerializingErr,
    >)
        ensures
            match self.spec_read(old(deserializer)@) {
                Ok((value, len)) => r is Ok && r->Ok_0@ == value && len <= old(deserializer)@.len()
                    && final(deserializer)@ == old(deserializer)@.skip(len as int),
                Err(e) => r is Err && r->Err_0 == e && *final(deserializer) == *old(deserializer),
            },
    {
        proof {
            reveal(FieldType::spec_read);
        }
        match self {
            FieldType::Bool => match bool::mc_deserialize(deserializer) {
                Ok(v) => Ok(FieldValue::Bool(v)),
                Err(e) => Err(e),
            },
            FieldType::Byte => match i8::mc_deserialize(deserializer) {
                Ok(v) => Ok(FieldValue::Byte(v)),
                Err(e) => Err(e),
            },
            FieldType::UnsignedByte => match u8::mc_deserialize(deserializer) {
                Ok(v) => Ok(FieldValue::UnsignedByte(v)),
                Err(e) => Err(e),
            },
            FieldType::Short => match i16::mc_deserialize(deserializer) {
                Ok(v) => Ok(FieldValue::Short(v)),
                Err(e) => Err(e),
            },
            FieldType::UnsignedShort => match u16::mc_deserialize(deserializer) {
                Ok(v) => Ok(FieldValue::UnsignedShort(v)),
                Err(e) => Err(e),
            },
            FieldType::Int => match i32::mc_deserialize(deserializer) {
                Ok(v) => Ok(FieldValue::Int(v)),
                Err(e) => Err(e),
            },
            FieldType::Long => match i64::mc_deserialize(deserializer) {
                Ok(v) => Ok(FieldValue::Long(v)),
                Err(e) => Err(e),
            },
            FieldType::Float => match u32::mc_deserialize(deserializer) {
                Ok(v) => Ok(FieldValue::Float(v)),
                Err(e) => Err(e),
            },
            FieldType::Double => match u64::mc_deserialize(deserializer) {
                Ok(v) => Ok(FieldValue::Double(v)),
                Err(e) => Err(e),
            },
            FieldType::VarInt => match VarInt::mc_deserialize(deserializer) {
                Ok(v) => Ok(FieldValue::VarInt(v)),
                Err(e) => Err(e),
            },
            FieldType::VarLong => match VarLong::mc_deserialize(deserializer) {
                Ok(v) => Ok(FieldValue::VarLong(v)),
                Err(e) => Err(e),
            },
            FieldType::String { max } => match deserialize_string(deserializer, max) {
                Ok(v) => Ok(FieldValue::String(v)),
                Err(e) => Err(e),
            },
            FieldType::ByteArray => match Vec::<u8>::mc_deserialize(deserializer) {
                Ok(v) => Ok(FieldValue::ByteArray(v)),
                Err(e) => Err(e),
            },
            FieldType::Uuid => match Uuid::mc_deserialize(deserializer) {
                Ok(v) => Ok(FieldValue::Uuid(v)),
                Err(e) => Err(e),
            },
        }
    }
}

impl McSerialize for FieldValue {
    open spec fn spec_serialize(&self) -> Result<Seq<u8>, SerializingErr> {
        self@.spec_bytes()
    }

    fn mc_serialize(&self, serializer: &mut McSerializer) -> (r: Result<(), SerializingErr>) {
        match self {
            FieldValue::Bool(v) => v.mc_serialize(serializer),
            FieldValue::Byte(v) => v.mc_serialize(serializer),
            FieldValue::UnsignedByte(v) => v.mc_serialize(serializer),
            FieldValue::Short(v) => v.mc_serialize(serializer),
            FieldValue::UnsignedShort(v) => v.mc_serialize(serializer),
            FieldValue::Int(v) => v.mc_serialize(serializer),
            FieldValue::Long(v) => v.mc_serialize(serializer),
            FieldValue::Float(v) => v.mc_serialize(serializer),
            FieldValue::Double(v) => v.mc_serialize(serializer),
            FieldValue::VarInt(v) => v.mc_serialize(serializer),
            FieldValue::VarLong(v) => v.mc_serialize(serializer),
            FieldValue::String(v) => v.mc_serialize(serializer),
            FieldValue::ByteArray(v) => v.mc_serialize(serializer),
            FieldValue::Uuid(v) => v.mc_serialize(serializer),
        }
    }
}

/// A value of a wire type that was written is read back as that type,
/// whatever follows it.
pub proof fn lemma_field_round_trip(value: FieldValueView, ty: FieldType, rest: Seq<u8>)
    requires
        value.conforms(ty),
        value.spec_bytes() is Ok,
    ensures
        ty.spec_read(value.spec_bytes()->Ok_0 + rest) == Ok::<
            (FieldValueView, nat),
            SerializingErr,
        >((value, value.spec_bytes()->Ok_0.len())),
{
    reveal(FieldType::spec_read);
    lemma_pow256_values();
    match value {
        FieldValueView::Bool(v) => {
            let bytes = seq![if v { 1u8 } else { 0u8 }];
            assert(value.spec_bytes() == Ok::<Seq<u8>, SerializingErr>(bytes));
            assert(bytes.len() == 1);
            assert((bytes + rest)[0] == bytes[0]);
            assert(bytes[0] == if v { 1u8 } else { 0u8 });
        },
        FieldValueView::Byte(v) => {
            lemma_read_be_round_trip(
                crate::packets::serialization::primitives::twos_unsigned(v as int, 0x100),
                1,
                rest,
            );
        },
        FieldValueView::UnsignedByte(v) => {
            lemma_read_be_round_trip(v as nat, 1, rest);
        },
        FieldValueView::Short(v) => {
            lemma_read_be_round_trip(
                crate::packets::serialization::primitives::twos_unsigned(v as int, 0x1_0000),
                2,
                rest,
            );
        },
        FieldValueView::UnsignedShort(v) => {
            lemma_read_be_round_trip(v as nat, 2, rest);
        },
        FieldValueView::Int(v) => {
            lemma_read_be_round_trip(
                crate::packets::serialization::primitives::twos_unsigned(v as int, 0x1_0000_0000),
                4,
                rest,
            );
        },
        FieldValueView::Long(v) => {
            lemma_read_be_round_trip(
                crate::packets::serialization::primitives::twos_unsigned(
                    v as int,
                    0x1_0000_0000_0000_0000,
                ),
                8,
                rest,
            );
        },
        FieldValueView::Float(v) => {
            lemma_read_be_round_trip(v as nat, 4, rest);
        },
        FieldValueView::Double(v) => {
            lemma_read_be_round_trip(v as nat, 8, rest);
        },
        FieldValueView::VarInt(v) => {
            lemma_varint_round_trip(v, rest);
        },
        FieldValueView::VarLong(v) => {
            lemma_varlong_round_trip(v, rest);
        },
        FieldValueView::String(v) => {
            let max = ty->max;
            lemma_string_round_trip(v, max as nat, rest);
        },
        FieldValueView::ByteArray(v) => {
            lemma_prefixed_round_trip(v, i32::MAX as nat, rest);
        },
        FieldValueView::Uuid(v) => {
            lemma_read_be_round_trip(v as nat, 16, rest);
        },
    }
}

} // verus!
