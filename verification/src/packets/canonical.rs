//! The reader takes more than the writer gives: a number in more bytes than
//! it needs, a boolean that is any byte but zero, bytes in a frame behind
//! its last field. A frame without any of these is canonical, and the writer
//! writes a canonical frame back byte for byte.

use crate::packets::fields::{FieldType, FieldValueView};
use crate::packets::packet_definer::{PacketDirection, PacketState};
use crate::packets::registry::{
    MAX_FRAME_LENGTH, spec_decode_body, spec_decode_frame, spec_encode_packet, spec_fields_bytes,
    spec_find, spec_lookup, spec_packet_body, spec_read_fields, spec_registry,
};
use crate::packets::serialization::primitives::{
    lemma_be_bytes_of_value, lemma_be_value_bound, lemma_pow256_values, MAX_STRING_BYTES,
    spec_prefixed_bytes, spec_read_length, spec_read_prefixed,
};
use crate::packets::serialization::serializer_error::SerializingErr;
use crate::protocol_details::datatypes::var_types::{
    lemma_read_var_bounds, lemma_varint_canonical, lemma_varlong_canonical, MAX_VARINT_BYTES,
    MAX_VARLONG_BYTES, spec_canonical_var, VarInt,
};
use vstd::prelude::*;

verus! {

/// Whether the VarInt at the front of `bytes` is written in the fewest
/// bytes and drops no bits.
pub open spec fn spec_canonical_varint(bytes: Seq<u8>) -> bool {
    spec_canonical_var(bytes, MAX_VARINT_BYTES as nat, 16)
}

/// Whether the VarLong at the front of `bytes` is written in the fewest
/// bytes and drops no bits.
pub open spec fn spec_canonical_varlong(bytes: Seq<u8>) -> bool {
    spec_canonical_var(bytes, MAX_VARLONG_BYTES as nat, 2)
}

impl FieldType {
    /// Whether the value of this wire type at the front of `bytes` is
    /// written as the writer writes it. Numbers of a fixed width always are.
    #[verifier::opaque]
    pub open spec fn spec_canonical(self, bytes: Seq<u8>) -> bool {
        match self {
            FieldType::Bool => bytes.len() >= 1 && bytes[0] <= 1,
            FieldType::VarInt => spec_canonical_varint(bytes),
            FieldType::VarLong => spec_canonical_varlong(bytes),
            FieldType::String { max } => spec_canonical_varint(bytes) && (spec_read_length(
                bytes,
                max as nat,
            ) matches Ok((n, _)) && n <= MAX_STRING_BYTES),
            FieldType::ByteArray => spec_canonical_varint(bytes),
            _ => true,
        }
    }
}

/// Whether each of the values of the wire types `types`, read one after the
/// other from the front of `bytes`, is written as the writer writes it.
pub open spec fn spec_canonical_fields(types: Seq<FieldType>, bytes: Seq<u8>) -> bool
    decreases types.len(),
{
    if types.len() == 0 {
        true
    } else {
        spec_canonical_fields(types.drop_last(), bytes) && match spec_read_fields(
            types.drop_last(),
            bytes,
        ) {
            Ok((_, len)) => len <= bytes.len() && types.last().spec_canonical(
                bytes.skip(len as int),
            ),
            Err(_) => false,
        }
    }
}

/// Whether the inside of a frame is canonical in `state` and `direction`:
/// the packet id and every field are written as the writer writes them, and
/// nothing follows the last field.
pub open spec fn spec_canonical_body(
    state: PacketState,
    direction: PacketDirection,
    body: Seq<u8>,
) -> bool {
    &&& spec_canonical_varint(body)
    &&& VarInt::spec_read(body) matches Ok((id, k)) && k <= body.len() && (spec_lookup(
        state,
        direction,
        id.0,
    ) matches Some(schema) && spec_canonical_fields(schema.types(), body.skip(k as int)) && (
    spec_read_fields(schema.types(), body.skip(k as int)) matches Ok((_, m)) && k + m
        == body.len()))
}

/// Whether the frame at the front of `bytes` is canonical in `state` and
/// `direction`: its length is written as the writer writes it, and its
/// inside is canonical.
pub open spec fn spec_canonical_frame(
    state: PacketState,
    direction: PacketDirection,
    bytes: Seq<u8>,
) -> bool {
    &&& spec_canonical_varint(bytes)
    &&& spec_read_prefixed(bytes, MAX_FRAME_LENGTH as nat) matches Ok((body, _))
        && spec_canonical_body(state, direction, body)
}

/// A length prefix that is written as the writer writes it, with the bytes
/// behind it, is what the writer writes for those bytes.
pub proof fn lemma_prefixed_canonical(bytes: Seq<u8>, max: nat, bound: nat)
    requires
        spec_canonical_varint(bytes),
        spec_read_prefixed(bytes, max) matches Ok((body, _)) && body.len() <= bound,
        bound <= i32::MAX,
    ensures
        spec_read_prefixed(bytes, max) matches Ok((body, len)) && len <= bytes.len()
            && spec_prefixed_bytes(body, bound) == Ok::<Seq<u8>, SerializingErr>(
            bytes.take(len as int),
        ),
{
    lemma_varint_canonical(bytes);
    lemma_read_var_bounds(bytes, 5);
    let body = spec_read_prefixed(bytes, max)->Ok_0.0;
    let len = spec_read_prefixed(bytes, max)->Ok_0.1;
    let number = VarInt::spec_read(bytes)->Ok_0.0;
    let k = VarInt::spec_read(bytes)->Ok_0.1;
    assert(number == VarInt(body.len() as i32));
    assert(bytes.take(k as int) + body =~= bytes.take(len as int));
}

/// A value that is written as the writer writes it is written back as it
/// was read.
pub proof fn lemma_field_canonical(ty: FieldType, bytes: Seq<u8>)
    requires
        ty.spec_read(bytes) is Ok,
        ty.spec_canonical(bytes),
    ensures
        ty.spec_read(bytes) matches Ok((value, len)) && len <= bytes.len() && value.spec_bytes()
            == Ok::<Seq<u8>, SerializingErr>(bytes.take(len as int)),
{
    reveal(FieldType::spec_read);
    reveal(FieldType::spec_canonical);
    lemma_pow256_values();
    match ty {
        FieldType::Bool => {
            assert(seq![bytes[0]] =~= bytes.take(1));
        },
        FieldType::Byte | FieldType::UnsignedByte => {
            lemma_be_bytes_of_value(bytes.take(1));
            lemma_be_value_bound(bytes.take(1));
        },
        FieldType::Short | FieldType::UnsignedShort => {
            lemma_be_bytes_of_value(bytes.take(2));
            lemma_be_value_bound(bytes.take(2));
        },
        FieldType::Int | FieldType::Float => {
            lemma_be_bytes_of_value(bytes.take(4));
            lemma_be_value_bound(bytes.take(4));
        },
        FieldType::Long | FieldType::Double => {
            lemma_be_bytes_of_value(bytes.take(8));
            lemma_be_value_bound(bytes.take(8));
        },
        FieldType::Uuid => {
            lemma_be_bytes_of_value(bytes.take(16));
            lemma_be_value_bound(bytes.take(16));
        },
        FieldType::VarInt => {
            lemma_varint_canonical(bytes);
            lemma_read_var_bounds(bytes, 5);
        },
        FieldType::VarLong => {
            lemma_varlong_canonical(bytes);
            lemma_read_var_bounds(bytes, 10);
        },
        FieldType::String { max } => {
            lemma_prefixed_canonical(bytes, max as nat, MAX_STRING_BYTES as nat);
            let body = spec_read_prefixed(bytes, max as nat)->Ok_0.0;
            vstd::utf8::decode_utf8_encode_utf8(body);
        },
        FieldType::ByteArray => {
            lemma_prefixed_canonical(bytes, i32::MAX as nat, i32::MAX as nat);
        },
    }
}

/// The wire form of fields with one more field behind them.
pub proof fn lemma_fields_bytes_push(
    front: Seq<FieldValueView>,
    value: FieldValueView,
    first: Seq<u8>,
    second: Seq<u8>,
)
    requires
        spec_fields_bytes(front) == Ok::<Seq<u8>, SerializingErr>(first),
        value.spec_bytes() == Ok::<Seq<u8>, SerializingErr>(second),
    ensures
        spec_fields_bytes(front.push(value)) == Ok::<Seq<u8>, SerializingErr>(first + second),
{
    assert(front.push(value).drop_last() =~= front);
}

/// Fields that are written as the writer writes them are written back as
/// they were read.
pub proof fn lemma_fields_canonical(types: Seq<FieldType>, bytes: Seq<u8>)
    requires
        spec_read_fields(types, bytes) is Ok,
        spec_canonical_fields(types, bytes),
    ensures
        spec_read_fields(types, bytes) matches Ok((values, len)) && len <= bytes.len()
            && spec_fields_bytes(values) == Ok::<Seq<u8>, SerializingErr>(bytes.take(len as int)),
    decreases types.len(),
{
    if types.len() == 0 {
        assert(bytes.take(0) =~= Seq::<u8>::empty());
    } else {
        lemma_fields_canonical(types.drop_last(), bytes);
        let front = spec_read_fields(types.drop_last(), bytes)->Ok_0.0;
        let len = spec_read_fields(types.drop_last(), bytes)->Ok_0.1;
        let rest = bytes.skip(len as int);
        let last = types.last();
        lemma_field_canonical(last, rest);
        let value = last.spec_read(rest)->Ok_0.0;
        let n = last.spec_read(rest)->Ok_0.1;
        lemma_fields_bytes_push(front, value, bytes.take(len as int), rest.take(n as int));
        assert(bytes.take(len as int) + rest.take(n as int) == bytes.take((len + n) as int)) by {
            assert(bytes.take(len as int) + bytes.skip(len as int).take(n as int) =~= bytes.take(
                (len + n) as int,
            ));
        }
    }
}

/// The row that an id looks up has that id, in that state and direction.
pub proof fn lemma_lookup_answers(state: PacketState, direction: PacketDirection, id: i32)
    requires
        spec_lookup(state, direction, id) is Some,
    ensures
        spec_lookup(state, direction, id)->0.answers(state, direction, id),
{
    lemma_find_answers(spec_registry(), 0, state, direction, id);
}

/// The row that is found has the id that was looked for, in that state and
/// direction.
pub proof fn lemma_find_answers(
    table: Seq<crate::packets::registry::SchemaView>,
    from: int,
    state: PacketState,
    direction: PacketDirection,
    id: i32,
)
    requires
        spec_find(table, from, state, direction, id) is Some,
    ensures
        0 <= spec_find(table, from, state, direction, id)->0 < table.len(),
        table[spec_find(table, from, state, direction, id)->0].answers(state, direction, id),
    decreases table.len() - from,
{
    if 0 <= from < table.len() && !table[from].answers(state, direction, id) {
        lemma_find_answers(table, from + 1, state, direction, id);
    }
}

/// The inside of a frame that decodes to a packet and is canonical is what
/// the writer puts into the frame of that packet.
pub proof fn lemma_canonical_body_is_written_back(
    state: PacketState,
    direction: PacketDirection,
    body: Seq<u8>,
)
    requires
        spec_decode_body(state, direction, body) is Ok,
        spec_canonical_body(state, direction, body),
    ensures
        spec_packet_body(spec_decode_body(state, direction, body)->Ok_0) == Ok::<
            Seq<u8>,
            SerializingErr,
        >(body),
{
    let id = VarInt::spec_read(body)->Ok_0.0;
    let k = VarInt::spec_read(body)->Ok_0.1;
    let schema = spec_lookup(state, direction, id.0)->0;
    let payload = body.skip(k as int);
    lemma_lookup_answers(state, direction, id.0);
    lemma_varint_canonical(body);
    lemma_fields_canonical(schema.types(), payload);
    let m = spec_read_fields(schema.types(), payload)->Ok_0.1;
    assert(payload.take(m as int) =~= payload);
    assert(body.take(k as int) + payload =~= body);
}

/// A frame that decodes to a packet and is canonical is the frame that the
/// writer writes for that packet, byte for byte.
pub proof fn lemma_canonical_frame_is_written_back(
    state: PacketState,
    direction: PacketDirection,
    bytes: Seq<u8>,
)
    requires
        spec_decode_frame(state, direction, bytes) is Ok,
        spec_canonical_frame(state, direction, bytes),
    ensures
        spec_decode_frame(state, direction, bytes) matches Ok((packet, len)) && len <= bytes.len()
            && spec_encode_packet(packet) == Ok::<Seq<u8>, SerializingErr>(bytes.take(len as int)),
{
    let body = spec_read_prefixed(bytes, MAX_FRAME_LENGTH as nat)->Ok_0.0;
    lemma_canonical_body_is_written_back(state, direction, body);
    lemma_prefixed_canonical(bytes, MAX_FRAME_LENGTH as nat, MAX_FRAME_LENGTH as nat);
}

} // verus!
