//! The frame format that holds once a compression threshold is set:
//! `VarInt packet_length | VarInt data_length | data`.
//!
//! `packet_length` counts the bytes of `data_length` and of `data`. Where
//! `data_length` is zero, `data` is the packet id and the payload as they
//! are. Otherwise `data` is their zlib-compressed form and `data_length` is
//! their length before compression. The compression itself is the host's:
//! the library says when it is due, and frames what the host hands back.

use crate::packets::serialization::primitives::{
    deserialize_length, deserialize_prefixed, lemma_length_round_trip, lemma_prefixed_round_trip,
    serialize_length, serialize_prefixed, spec_length_bytes, spec_prefixed_bytes,
    spec_read_length, spec_read_prefixed,
};
use crate::packets::registry::MAX_FRAME_LENGTH;
use crate::packets::serialization::serializer_error::SerializingErr;
use crate::packets::serialization::serializer_handler::{McDeserializer, McSerializer};
use vstd::prelude::*;

verus! {

/// Whether a packet whose id and payload take `length` bytes is to be
/// compressed under `threshold`: what is shorter than the threshold goes out
/// as it is, so a threshold of zero compresses everything.
pub open spec fn spec_needs_compression(length: nat, threshold: i32) -> bool {
    length >= threshold
}

/// Whether a packet whose id and payload take `length` bytes is to be
/// compressed under `threshold`.
pub fn needs_compression(length: usize, threshold: i32) -> (due: bool)
    ensures
        due == spec_needs_compression(length as nat, threshold),
{
    threshold < 0 || length >= threshold as usize
}

/// The frame of `data` under `data_length`.
pub open spec fn spec_compressed_frame(data_length: nat, data: Seq<u8>) -> Result<
    Seq<u8>,
    SerializingErr,
> {
    match spec_length_bytes(data_length, i32::MAX as nat) {
        Ok(prefix) => spec_prefixed_bytes(prefix + data, MAX_FRAME_LENGTH as nat),
        Err(e) => Err(e),
    }
}

/// What the frame at the front of `bytes` holds: `data_length`, `data`, and
/// the length of the frame with its prefix.
pub open spec fn spec_read_compressed_frame(bytes: Seq<u8>) -> Result<
    (nat, Seq<u8>, nat),
    SerializingErr,
> {
    match spec_read_prefixed(bytes, MAX_FRAME_LENGTH as nat) {
        Ok((inner, len)) => spec_split_compressed(inner, len),
        Err(e) => Err(e),
    }
}

/// What the inside of a frame holds: `data_length` and `data`.
pub open spec fn spec_split_compressed(inner: Seq<u8>, len: nat) -> Result<
    (nat, Seq<u8>, nat),
    SerializingErr,
> {
    match spec_read_length(inner, i32::MAX as nat) {
        Ok((data_length, k)) => Ok((data_length, inner.skip(k as int), len)),
        Err(e) => Err(e),
    }
}

/// Writes the frame of `data` under `data_length`. Where there is none,
/// because the frame would be longer than the protocol allows, nothing is
/// written.
pub fn frame_compressed(data_length: usize, data: &[u8], serializer: &mut McSerializer) -> (r:
    Result<(), SerializingErr>)
    ensures
        match spec_compressed_frame(data_length as nat, data@) {
            Ok(bytes) => r is Ok && final(serializer)@ == old(serializer)@ + bytes,
            Err(e) => r == Err::<(), SerializingErr>(e) && final(serializer)@ == old(serializer)@,
        },
{
    let mut inner = McSerializer::new();
    match serialize_length(data_length, i32::MAX as usize, &mut inner) {
        Ok(()) => {
            inner.serialize_bytes(data);
            proof {
                let prefix = spec_length_bytes(data_length as nat, i32::MAX as nat)->Ok_0;
                assert(inner@ =~= prefix + data@);
            }
            serialize_prefixed(inner.output.as_slice(), MAX_FRAME_LENGTH, serializer)
        },
        Err(e) => Err(e),
    }
}

/// Reads one frame and splits it into `data_length` and `data`.
///
/// Where the frame length cannot be read, is over the protocol's cap, or
/// asks for more bytes than are there, nothing is read. Otherwise the cursor
/// goes on behind the frame, whether `data_length` can be read or not.
pub fn read_compressed_frame<'a>(deserializer: &mut McDeserializer<'a>) -> (r: Result<
    (usize, &'a [u8]),
    SerializingErr,
>)
    ensures
        match spec_read_prefixed(old(deserializer)@, MAX_FRAME_LENGTH as nat) {
            Ok((inner, len)) => len <= old(deserializer)@.len() && final(deserializer)@ == old(deserializer)@.skip(len as int) && match spec_split_compressed(inner, len) {
                Ok((data_length, data, _)) => r is Ok && r->Ok_0.0 == data_length && r->Ok_0.1@
                    == data,
                Err(e) => r is Err && r->Err_0 == e,
            },
            Err(e) => r is Err && r->Err_0 == e && *final(deserializer) == *old(deserializer),
        },
{
    match deserialize_prefixed(deserializer, MAX_FRAME_LENGTH) {
        Ok(inner) => {
            let mut sub = McDeserializer::new(inner);
            match deserialize_length(&mut sub, i32::MAX as usize) {
                Ok(data_length) => Ok((data_length, sub.collect_remaining())),
                Err(e) => Err(e),
            }
        },
        Err(e) => Err(e),
    }
}

/// A frame that was written is read back as the `data_length` and `data`
/// that it was made of, whatever follows it.
pub proof fn lemma_compressed_frame_round_trip(data_length: nat, data: Seq<u8>, rest: Seq<u8>)
    requires
        spec_compressed_frame(data_length, data) is Ok,
    ensures
        spec_read_compressed_frame(spec_compressed_frame(data_length, data)->Ok_0 + rest) == Ok::<
            (nat, Seq<u8>, nat),
            SerializingErr,
        >((data_length, data, spec_compressed_frame(data_length, data)->Ok_0.len())),
{
    let prefix = spec_length_bytes(data_length, i32::MAX as nat)->Ok_0;
    let inner = prefix + data;
    lemma_prefixed_round_trip(inner, MAX_FRAME_LENGTH as nat, rest);
    lemma_length_round_trip(data_length, i32::MAX as nat, data);
    assert(inner.skip(prefix.len() as int) =~= data);
}

} // verus!
