//! A frame whose length and packet id are kept beside its payload.

use crate::packets::serialization::serializer_error::SerializingErr;
use crate::packets::serialization::serializer_handler::{
    McDeserialize, McDeserializer, McSerialize, McSerializer,
};
use crate::protocol_details::datatypes::var_types::VarInt;
use vstd::prelude::*;

verus! {

/// A length, a packet id and a payload of type `P`, as they follow each
/// other on the wire. The length is kept as it was given or read: nothing
/// holds it to the size of what follows.
pub struct RawPacket<P: McSerialize + McDeserialize> {
    length: VarInt,
    packet_id: VarInt,
    data: P,
}

/// A raw packet as a mathematical value.
pub struct RawPacketView<V> {
    pub length: i32,
    pub packet_id: i32,
    pub data: V,
}

impl<P: McSerialize + McDeserialize> View for RawPacket<P> {
    type V = RawPacketView<P::V>;

    closed spec fn view(&self) -> RawPacketView<P::V> {
        RawPacketView { length: self.length.0, packet_id: self.packet_id.0, data: self.data@ }
    }
}

impl<P: McSerialize + McDeserialize> RawPacket<P> {
    /// The wire form of the payload.
    pub closed spec fn spec_data_bytes(&self) -> Result<Seq<u8>, SerializingErr> {
        self.data.spec_serialize()
    }

    /// A raw packet of the three parts.
    pub fn new(length: VarInt, packet_id: VarInt, data: P) -> (packet: Self)
        ensures
            packet@ == (RawPacketView { length: length.0, packet_id: packet_id.0, data: data@ }),
            packet.spec_data_bytes() == data.spec_serialize(),
    {
        Self { length, packet_id, data }
    }

    /// The length as it was given or read.
    pub fn length(&self) -> (length: VarInt)
        ensures
            length.0 == self@.length,
    {
        self.length
    }

    /// The packet id.
    pub fn packet_id(&self) -> (id: VarInt)
        ensures
            id.0 == self@.packet_id,
    {
        self.packet_id
    }

    /// The payload.
    pub fn data(&self) -> (data: &P)
        ensures
            data@ == self@.data,
            data.spec_serialize() == self.spec_data_bytes(),
    {
        &self.data
    }
}

impl<P: McSerialize + McDeserialize> McSerialize for RawPacket<P> {
    /// The length, the id and the payload, one after the other.
    open spec fn spec_serialize(&self) -> Result<Seq<u8>, SerializingErr> {
        match self.spec_data_bytes() {
            Ok(data) => Ok(
                VarInt(self@.length).spec_bytes() + VarInt(self@.packet_id).spec_bytes() + data,
            ),
            Err(e) => Err(e),
        }
    }

    fn mc_serialize(&self, serializer: &mut McSerializer) -> (r: Result<(), SerializingErr>) {
        let start: usize = serializer.len();
        let _ = self.length.mc_serialize(serializer);
        let _ = self.packet_id.mc_serialize(serializer);
        match self.data.mc_serialize(serializer) {
            Ok(()) => Ok(()),
            Err(e) => {
                serializer.truncate(start);
                proof {
                    assert(serializer@ =~= old(serializer)@);
                }
                Err(e)
            },
        }
    }
}

impl<P: McSerialize + McDeserialize> McDeserialize for RawPacket<P> {
    /// A length, an id and a payload, read one after the other.
    open spec fn spec_deserialize(bytes: Seq<u8>) -> Result<
        (RawPacketView<P::V>, nat),
        SerializingErr,
    > {
        match VarInt::spec_read(bytes) {
            Ok((length, a)) => match VarInt::spec_read(bytes.skip(a as int)) {
                Ok((packet_id, b)) => match P::spec_deserialize(bytes.skip((a + b) as int)) {
                    Ok((data, c)) => Ok(
                        (
                            RawPacketView { length: length.0, packet_id: packet_id.0, data },
                            a + b + c,
                        ),
                    ),
                    Err(e) => Err(e),
                },
                Err(e) => Err(e),
            },
            Err(e) => Err(e),
        }
    }

    fn mc_deserialize<'a>(deserializer: &mut McDeserializer<'a>) -> (r: Result<
        Self,
        SerializingErr,
    >) {
        let saved = *deserializer;
        let ghost input = deserializer@;
        let length = match VarInt::mc_deserialize(deserializer) {
            Ok(length) => length,
            Err(e) => {
                return Err(e);
            },
        };
        let ghost a = VarInt::spec_read(input)->Ok_0.1;
        let packet_id = match VarInt::mc_deserialize(deserializer) {
            Ok(packet_id) => packet_id,
            Err(e) => {
                *deserializer = saved;
                return Err(e);
            },
        };
        let ghost b = VarInt::spec_read(input.skip(a as int))->Ok_0.1;
        proof {
            assert(input.skip(a as int).skip(b as int) =~= input.skip((a + b) as int));
        }
        match P::mc_deserialize(deserializer) {
            Ok(data) => {
                proof {
                    let c = P::spec_deserialize(input.skip((a + b) as int))->Ok_0.1;
                    assert(input.skip((a + b) as int).skip(c as int) =~= input.skip(
                        (a + b + c) as int,
                    ));
                }
                Ok(RawPacket { length, packet_id, data })
            },
            Err(e) => {
                *deserializer = saved;
                Err(e)
            },
        }
    }
}

} // verus!
