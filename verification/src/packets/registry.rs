//! The packet table and the frame codec that it drives.
//!
//! A frame on the wire is `VarInt length | VarInt packet_id | payload`, where
//! `length` counts the bytes of the id and of the payload. Which schema an id
//! stands for depends on the state of the connection and on the direction.

use crate::packets::fields::{lemma_field_round_trip, FieldType, FieldValue, FieldValueView};
use crate::packets::packet_definer::{PacketDirection, PacketState};
use crate::packets::serialization::primitives::{
    deserialize_prefixed, lemma_prefixed_round_trip, serialize_prefixed, spec_prefixed_bytes,
    spec_read_prefixed,
};
use crate::packets::serialization::serializer_error::SerializingErr;
use crate::packets::serialization::serializer_handler::{
    McDeserialize, McDeserializer, McSerialize, McSerializer,
};
use crate::protocol_details::datatypes::var_types::{lemma_varint_round_trip, VarInt};
use vstd::prelude::*;

verus! {

/// The protocol caps a frame at this many bytes, id and payload together.
pub const MAX_FRAME_LENGTH: usize = 2097151;

/// One field of a packet schema.
#[derive(Debug, Clone, Copy)]
pub struct PacketField {
    pub name: &'static str,
    pub ty: FieldType,
}

/// One row of the packet table.
#[derive(Debug, Clone)]
pub struct PacketSchema {
    pub name: &'static str,
    pub packet_id: i32,
    pub state: PacketState,
    pub direction: PacketDirection,
    pub fields: Vec<PacketField>,
}

/// A field of a schema as a mathematical value.
pub struct FieldView {
    pub name: Seq<char>,
    pub ty: FieldType,
}

/// A row of the packet table as a mathematical value.
pub struct SchemaView {
    pub name: Seq<char>,
    pub packet_id: i32,
    pub state: PacketState,
    pub direction: PacketDirection,
    pub fields: Seq<FieldView>,
}

impl View for PacketField {
    type V = FieldView;

    open spec fn view(&self) -> FieldView {
        FieldView { name: self.name@, ty: self.ty }
    }
}

impl View for PacketSchema {
    type V = SchemaView;

    open spec fn view(&self) -> SchemaView {
        SchemaView {
            name: self.name@,
            packet_id: self.packet_id,
            state: self.state,
            direction: self.direction,
            fields: Seq::new(self.fields@.len(), |i: int| self.fields@[i]@),
        }
    }
}

impl SchemaView {
    /// Whether this is the row for `id` in `state` and `direction`.
    pub open spec fn answers(self, state: PacketState, direction: PacketDirection, id: i32) -> bool {
        self.state == state && self.direction == direction && self.packet_id == id
    }

    /// The wire types of the fields, in their order.
    pub open spec fn types(self) -> Seq<FieldType> {
        Seq::new(self.fields.len(), |i: int| self.fields[i].ty)
    }
}

/// The packet table: every packet with its name, id, state, direction and
/// fields in wire order.
#[verifier::opaque]
pub open spec fn spec_registry() -> Seq<SchemaView> {
    seq![
        SchemaView {
            name: "Handshaking"@,
            packet_id: 0x00,
            state: PacketState::HANDSHAKING,
            direction: PacketDirection::SERVER,
            fields: seq![
                FieldView { name: "protocol_version"@, ty: FieldType::VarInt },
                FieldView { name: "server_address"@, ty: FieldType::String { max: 255 } },
                FieldView { name: "port"@, ty: FieldType::UnsignedShort },
                FieldView { name: "next_state"@, ty: FieldType::VarInt },
            ],
        },
        SchemaView {
            name: "StatusRequest"@,
            packet_id: 0x00,
            state: PacketState::STATUS,
            direction: PacketDirection::SERVER,
            fields: seq![],
        },
        SchemaView {
            name: "PingRequest"@,
            packet_id: 0x01,
            state: PacketState::STATUS,
            direction: PacketDirection::SERVER,
            fields: seq![FieldView { name: "payload"@, ty: FieldType::Long }],
        },
        SchemaView {
            name: "StatusResponse"@,
            packet_id: 0x00,
            state: PacketState::STATUS,
            direction: PacketDirection::CLIENT,
            fields: seq![FieldView { name: "response"@, ty: FieldType::String { max: 32767 } }],
        },
        SchemaView {
            name: "PingResponse"@,
            packet_id: 0x01,
            state: PacketState::STATUS,
            direction: PacketDirection::CLIENT,
            fields: seq![FieldView { name: "payload"@, ty: FieldType::Long }],
        },
    ]
}

/// The first row of `table` from `from` on that answers to `id` in `state`
/// and `direction`.
pub open spec fn spec_find(
    table: Seq<SchemaView>,
    from: int,
    state: PacketState,
    direction: PacketDirection,
    id: i32,
) -> Option<int>
    decreases table.len() - from,
{
    if from < 0 || from >= table.len() {
        None
    } else if table[from].answers(state, direction, id) {
        Some(from)
    } else {
        spec_find(table, from + 1, state, direction, id)
    }
}

/// The row of the packet table for `id` in `state` and `direction`.
pub open spec fn spec_lookup(state: PacketState, direction: PacketDirection, id: i32) -> Option<
    SchemaView,
> {
    match spec_find(spec_registry(), 0, state, direction, id) {
        Some(i) => Some(spec_registry()[i]),
        None => None,
    }
}

/// Within one state and direction no two rows of the table share an id.
pub proof fn lemma_registry_ids_unique(i: int, j: int)
    requires
        0 <= i < spec_registry().len(),
        0 <= j < spec_registry().len(),
        spec_registry()[i].state == spec_registry()[j].state,
        spec_registry()[i].direction == spec_registry()[j].direction,
        spec_registry()[i].packet_id == spec_registry()[j].packet_id,
    ensures
        i == j,
{
    reveal(spec_registry);
}

/// A row of the table is what its own state, direction and id look up.
pub proof fn lemma_lookup_finds_row(i: int)
    requires
        0 <= i < spec_registry().len(),
    ensures
        spec_lookup(
            spec_registry()[i].state,
            spec_registry()[i].direction,
            spec_registry()[i].packet_id,
        ) == Some(spec_registry()[i]),
{
    reveal(spec_registry);
    reveal_with_fuel(spec_find, 6);
}

/// A packet: the row of the table that it belongs to, and a value for each
/// field of that row.
#[derive(Debug, Clone, PartialEq, Eq)]
pub struct Packet {
    pub name: &'static str,
    pub packet_id: VarInt,
    pub state: PacketState,
    pub direction: PacketDirection,
    pub fields: Vec<FieldValue>,
}

/// A packet as a mathematical value.
pub struct PacketView {
    pub name: Seq<char>,
    pub packet_id: i32,
    pub state: PacketState,
    pub direction: PacketDirection,
    pub fields: Seq<FieldValueView>,
}

impl View for Packet {
    type V = PacketView;

    open spec fn view(&self) -> PacketView {
        PacketView {
            name: self.name@,
            packet_id: self.packet_id.0,
            state: self.state,
            direction: self.direction,
            fields: Seq::new(self.fields@.len(), |i: int| self.fields@[i]@),
        }
    }
}

impl PacketView {
    /// Whether the packet is one of `schema`: it has the schema's name, id,
    /// state and direction, and a value of the right wire type for each field.
    pub open spec fn instance_of(self, schema: SchemaView) -> bool {
        &&& self.name == schema.name
        &&& self.packet_id == schema.packet_id
        &&& self.state == schema.state
        &&& self.direction == schema.direction
        &&& self.fields.len() == schema.fields.len()
        &&& forall|i: int|
            0 <= i < self.fields.len() ==> (#[trigger] self.fields[i]).conforms(schema.fields[i].ty)
    }

    /// Whether the packet is one of a row of the packet table.
    pub open spec fn in_registry(self) -> bool {
        exists|i: int| 0 <= i < spec_registry().len() && self.instance_of(#[trigger] spec_registry()[i])
    }
}

/// The wire forms of `fields` one after the other, or the first reason why
/// one of them has none.
pub open spec fn spec_fields_bytes(fields: Seq<FieldValueView>) -> Result<Seq<u8>, SerializingErr>
    decreases fields.len(),
{
    if fields.len() == 0 {
        Ok(Seq::empty())
    } else {
        match spec_fields_bytes(fields.drop_last()) {
            Ok(front) => match fields.last().spec_bytes() {
                Ok(bytes) => Ok(front + bytes),
                Err(e) => Err(e),
            },
            Err(e) => Err(e),
        }
    }
}

/// What a frame holds behind its length: the packet id and the payload.
pub open spec fn spec_packet_body(packet: PacketView) -> Result<Seq<u8>, SerializingErr> {
    match spec_fields_bytes(packet.fields) {
        Ok(payload) => Ok(VarInt(packet.packet_id).spec_bytes() + payload),
        Err(e) => Err(e),
    }
}

/// The frame of a packet: the length of id and payload, the id, the payload.
/// A packet whose frame would be longer than the protocol allows has none.
///
/// The frame is made of the packet alone, not of the packet table: a string
/// is held to the bound that holds where none is declared, whatever bound the
/// packet's row declares for it. So only a packet that is one of its row
/// (`PacketView::in_registry`) is sure to be read back from its frame; of
/// another the frame is written all the same, and the reader refuses it.
pub open spec fn spec_encode_packet(packet: PacketView) -> Result<Seq<u8>, SerializingErr> {
    match spec_packet_body(packet) {
        Ok(body) => spec_prefixed_bytes(body, MAX_FRAME_LENGTH as nat),
        Err(e) => Err(e),
    }
}

/// Values of the wire types `types`, read one after the other from the front
/// of `bytes`, and how many bytes they take together.
pub open spec fn spec_read_fields(types: Seq<FieldType>, bytes: Seq<u8>) -> Result<
    (Seq<FieldValueView>, nat),
    SerializingErr,
>
    decreases types.len(),
{
    if types.len() == 0 {
        Ok((Seq::empty(), 0))
    } else {
        match spec_read_fields(types.drop_last(), bytes) {
            Ok((front, len)) => if len > bytes.len() {
                Err(SerializingErr::InputEnded)
            } else {
                match types.last().spec_read(bytes.skip(len as int)) {
                    Ok((value, n)) => Ok((front.push(value), len + n)),
                    Err(e) => Err(e),
                }
            },
            Err(e) => Err(e),
        }
    }
}

/// The packet that the inside of a frame stands for in `state` and
/// `direction`: the id selects the row, the row says how to read the payload.
/// Bytes that are left behind the last field are not looked at.
pub open spec fn spec_decode_body(
    state: PacketState,
    direction: PacketDirection,
    body: Seq<u8>,
) -> Result<PacketView, SerializingErr> {
    match VarInt::spec_read(body) {
        Ok((id, len)) => match spec_lookup(state, direction, id.0) {
            Some(schema) => match spec_read_fields(schema.types(), body.skip(len as int)) {
                Ok((fields, _)) => Ok(
                    PacketView {
                        name: schema.name,
                        packet_id: schema.packet_id,
                        state: schema.state,
                        direction: schema.direction,
                        fields,
                    },
                ),
                Err(e) => Err(e),
            },
            None => Err(SerializingErr::UnknownPacket),
        },
        Err(e) => Err(e),
    }
}

/// The packet that the frame at the front of `bytes` stands for, and the
/// length of the frame with its prefix.
pub open spec fn spec_decode_frame(
    state: PacketState,
    direction: PacketDirection,
    bytes: Seq<u8>,
) -> Result<(PacketView, nat), SerializingErr> {
    match spec_read_prefixed(bytes, MAX_FRAME_LENGTH as nat) {
        Ok((body, len)) => match spec_decode_body(state, direction, body) {
            Ok(packet) => Ok((packet, len)),
            Err(e) => Err(e),
        },
        Err(e) => Err(e),
    }
}

impl Packet {
    /// The id of the packet within its state and direction.
    pub fn packet_id(&self) -> (id: VarInt)
        ensures
            id.0 == self@.packet_id,
    {
        self.packet_id
    }

    /// The state in which the packet is sent.
    pub fn state(&self) -> (state: PacketState)
        ensures
            state == self@.state,
    {
        self.state
    }

    /// The side that the packet is sent to.
    pub fn direction(&self) -> (direction: PacketDirection)
        ensures
            direction == self@.direction,
    {
        self.direction
    }

    /// A packet of `schema` with the values `fields`.
    pub fn new(schema: &PacketSchema, fields: Vec<FieldValue>) -> (packet: Packet)
        ensures
            packet@.name == schema@.name,
            packet@.packet_id == schema@.packet_id,
            packet@.state == schema@.state,
            packet@.direction == schema@.direction,
            packet.fields == fields,
    {
        Packet {
            name: schema.name,
            packet_id: VarInt(schema.packet_id),
            state: schema.state,
            direction: schema.direction,
            fields,
        }
    }
}

/// Appends the wire forms of `fields` one after the other. Where one of them
/// has none, nothing is appended.
pub fn serialize_fields(fields: &Vec<FieldValue>, serializer: &mut McSerializer) -> (r: Result<
    (),
    SerializingErr,
>)
    ensures
        match spec_fields_bytes(Seq::new(fields@.len(), |i: int| fields@[i]@)) {
            Ok(bytes) => r is Ok && final(serializer)@ == old(serializer)@ + bytes,
            Err(e) => r == Err::<(), SerializingErr>(e) && final(serializer)@ == old(serializer)@,
        },
{
    let ghost views = Seq::new(fields@.len(), |i: int| fields@[i]@);
    let start: usize = serializer.len();
    let mut i: usize = 0;
    while i < fields.len()
        invariant
            i <= fields@.len(),
            views == Seq::new(fields@.len(), |i: int| fields@[i]@),
            start == old(serializer)@.len(),
            spec_fields_bytes(views.take(i as int)) is Ok,
            serializer@ == old(serializer)@ + spec_fields_bytes(views.take(i as int))->Ok_0,
        decreases fields@.len() - i,
    {
        proof {
            assert(views.take(i + 1).drop_last() =~= views.take(i as int));
            assert(views.take(i + 1).last() == fields@[i as int]@);
        }
        match fields[i].mc_serialize(serializer) {
            Ok(()) => {
                proof {
                    let front = spec_fields_bytes(views.take(i as int))->Ok_0;
                    let bytes = fields@[i as int]@.spec_bytes()->Ok_0;
                    assert(serializer@ =~= old(serializer)@ + (front + bytes));
                }
            },
            Err(e) => {
                proof {
                    lemma_fields_bytes_prefix_err(views, (i + 1) as int);
                }
                serializer.truncate(start);
                proof {
                    assert(serializer@ =~= old(serializer)@);
                }
                return Err(e);
            },
        }
        i = i + 1;
    }
    proof {
        assert(views.take(i as int) =~= views);
    }
    Ok(())
}

/// The first field without a wire form decides the failure of the whole
/// list.
pub proof fn lemma_fields_bytes_prefix_err(fields: Seq<FieldValueView>, k: int)
    requires
        0 <= k <= fields.len(),
        spec_fields_bytes(fields.take(k)) is Err,
    ensures
        spec_fields_bytes(fields) == spec_fields_bytes(fields.take(k)),
    decreases fields.len() - k,
{
    if k < fields.len() {
        assert(fields.take(k + 1).drop_last() =~= fields.take(k));
        lemma_fields_bytes_prefix_err(fields, k + 1);
    } else {
        assert(fields.take(k) =~= fields);
    }
}

/// The first field that cannot be read decides the failure of the whole
/// list.
pub proof fn lemma_read_fields_prefix_err(types: Seq<FieldType>, bytes: Seq<u8>, k: int)
    requires
        0 <= k <= types.len(),
        spec_read_fields(types.take(k), bytes) is Err,
    ensures
        spec_read_fields(types, bytes) == spec_read_fields(types.take(k), bytes),
    decreases types.len() - k,
{
    if k < types.len() {
        assert(types.take(k + 1).drop_last() =~= types.take(k));
        lemma_read_fields_prefix_err(types, bytes, k + 1);
    } else {
        assert(types.take(k) =~= types);
    }
}

/// Writes the frame of `packet`: the length of id and payload, the id, the
/// payload. Where the packet has no frame, nothing is written.
///
/// The packet is not held against the packet table. Only a packet that is
/// one of its row round-trips: a handshake whose address is longer than the
/// 255 bytes of its row is written, and `Registry::decode_frame` then
/// refuses the frame with `LengthExceedsBound`.
pub fn encode_packet(packet: &Packet, serializer: &mut McSerializer) -> (r: Result<
    (),
    SerializingErr,
>)
    ensures
        match spec_encode_packet(packet@) {
            Ok(bytes) => r is Ok && final(serializer)@ == old(serializer)@ + bytes,
            Err(e) => r == Err::<(), SerializingErr>(e) && final(serializer)@ == old(serializer)@,
        },
{
    match encode_body(packet) {
        Ok(body) => serialize_prefixed(body.as_slice(), MAX_FRAME_LENGTH, serializer),
        Err(e) => Err(e),
    }
}

/// What a frame of `packet` holds behind its length: the packet id and the
/// payload.
pub fn encode_body(packet: &Packet) -> (r: Result<Vec<u8>, SerializingErr>)
    ensures
        match spec_packet_body(packet@) {
            Ok(bytes) => r is Ok && r->Ok_0@ == bytes,
            Err(e) => r is Err && r->Err_0 == e,
        },
{
    let mut body = McSerializer::new();
    let _ = packet.packet_id.mc_serialize(&mut body);
    match serialize_fields(&packet.fields, &mut body) {
        Ok(()) => {
            proof {
                let payload = spec_fields_bytes(packet@.fields)->Ok_0;
                assert(body@ =~= VarInt(packet@.packet_id).spec_bytes() + payload);
            }
            Ok(body.output)
        },
        Err(e) => Err(e),
    }
}

impl McSerialize for Packet {
    /// The frame of the packet, as `encode_packet` writes it.
    open spec fn spec_serialize(&self) -> Result<Seq<u8>, SerializingErr> {
        spec_encode_packet(self@)
    }

    fn mc_serialize(&self, serializer: &mut McSerializer) -> (r: Result<(), SerializingErr>) {
        encode_packet(self, serializer)
    }
}

/// The rows of `table` as mathematical values.
pub open spec fn table_view(table: Seq<PacketSchema>) -> Seq<SchemaView> {
    Seq::new(table.len(), |i: int| table[i]@)
}

/// The packet table, built once and then only read.
pub struct Registry {
    schemas: Vec<PacketSchema>,
}

impl Registry {
    #[verifier::type_invariant]
    spec fn inv(self) -> bool {
        table_view(self.schemas@) == spec_registry()
    }

    /// The rows that the registry holds.
    pub closed spec fn spec_rows(&self) -> Seq<SchemaView> {
        table_view(self.schemas@)
    }

    /// Builds the packet table.
    pub fn new() -> (registry: Registry)
        ensures
            registry.spec_rows() == spec_registry(),
    {
        let handshaking = PacketSchema {
            name: "Handshaking",
            packet_id: 0x00,
            state: PacketState::HANDSHAKING,
            direction: PacketDirection::SERVER,
            fields: vec![
                PacketField { name: "protocol_version", ty: FieldType::VarInt },
                PacketField { name: "server_address", ty: FieldType::String { max: 255 } },
                PacketField { name: "port", ty: FieldType::UnsignedShort },
                PacketField { name: "next_state", ty: FieldType::VarInt },
            ],
        };
        let status_request = PacketSchema {
            name: "StatusRequest",
            packet_id: 0x00,
            state: PacketState::STATUS,
            direction: PacketDirection::SERVER,
            fields: Vec::new(),
        };
        let ping_request = PacketSchema {
            name: "PingRequest",
            packet_id: 0x01,
            state: PacketState::STATUS,
            direction: PacketDirection::SERVER,
            fields: vec![PacketField { name: "payload", ty: FieldType::Long }],
        };
        let status_response = PacketSchema {
            name: "StatusResponse",
            packet_id: 0x00,
            state: PacketState::STATUS,
            direction: PacketDirection::CLIENT,
            fields: vec![PacketField { name: "response", ty: FieldType::String { max: 32767 } }],
        };
        let ping_response = PacketSchema {
            name: "PingResponse",
            packet_id: 0x01,
            state: PacketState::STATUS,
            direction: PacketDirection::CLIENT,
            fields: vec![PacketField { name: "payload", ty: FieldType::Long }],
        };
        proof {
            reveal(spec_registry);
            assert(handshaking@.fields =~= spec_registry()[0].fields);
            assert(status_request@.fields =~= spec_registry()[1].fields);
            assert(ping_request@.fields =~= spec_registry()[2].fields);
            assert(status_response@.fields =~= spec_registry()[3].fields);
            assert(ping_response@.fields =~= spec_registry()[4].fields);
        }
        let schemas = vec![
            handshaking,
            status_request,
            ping_request,
            status_response,
            ping_response,
        ];
        proof {
            assert(table_view(schemas@) =~= spec_registry());
        }
        Registry { schemas }
    }

    /// The number of rows of the table. Every registry holds the same
    /// table.
    pub fn len(&self) -> (n: usize)
        ensures
            n == spec_registry().len(),
            self.spec_rows() == spec_registry(),
    {
        proof {
            use_type_invariant(self);
        }
        self.schemas.len()
    }

    /// The row at position `i` of the table, if it has that many.
    pub fn get(&self, i: usize) -> (r: Option<&PacketSchema>)
        ensures
            i < spec_registry().len() ==> r is Some && r->0@ == spec_registry()[i as int],
            i >= spec_registry().len() ==> r is None,
    {
        proof {
            use_type_invariant(self);
        }
        if i < self.schemas.len() {
            Some(&self.schemas[i])
        } else {
            None
        }
    }

    /// The row for `id` in `state` and `direction`, if the table has one.
    pub fn lookup(&self, state: PacketState, direction: PacketDirection, id: i32) -> (r: Option<
        &PacketSchema,
    >)
        ensures
            match spec_lookup(state, direction, id) {
                Some(schema) => r is Some && r->0@ == schema,
                None => r is None,
            },
    {
        proof {
            use_type_invariant(self);
        }
        let mut i: usize = 0;
        while i < self.schemas.len()
            invariant
                i <= self.schemas@.len(),
                table_view(self.schemas@) == spec_registry(),
                spec_find(spec_registry(), 0, state, direction, id) == spec_find(
                    spec_registry(),
                    i as int,
                    state,
                    direction,
                    id,
                ),
            decreases self.schemas@.len() - i,
        {
            let schema = &self.schemas[i];
            proof {
                assert(schema@ == table_view(self.schemas@)[i as int]);
            }
            if schema.state == state && schema.direction == direction && schema.packet_id == id {
                return Some(schema);
            }
            i = i + 1;
        }
        None
    }

    /// Reads the packet that the inside of a frame stands for: the id, then
    /// the fields of the row that the id selects. Bytes behind the last field
    /// are not looked at. The cursor is left where reading stopped.
    pub fn decode_body(
        &self,
        state: PacketState,
        direction: PacketDirection,
        body: &mut McDeserializer,
    ) -> (r: Result<Packet, SerializingErr>)
        ensures
            match spec_decode_body(state, direction, old(body)@) {
                Ok(packet) => r is Ok && r->Ok_0@ == packet,
                Err(e) => r is Err && r->Err_0 == e,
            },
    {
        let id = match VarInt::mc_deserialize(body) {
            Ok(id) => id,
            Err(e) => {
                return Err(e);
            },
        };
        let schema = match self.lookup(state, direction, id.0) {
            Some(schema) => schema,
            None => {
                return Err(SerializingErr::UnknownPacket);
            },
        };
        proof {
            assert(schema@.types() =~= Seq::new(schema.fields@.len(), |i: int| schema.fields@[i].ty));
        }
        match deserialize_fields(&schema.fields, body) {
            Ok(fields) => {
                let packet = Packet::new(schema, fields);
                proof {
                    let expected = spec_decode_body(state, direction, old(body)@)->Ok_0;
                    assert(packet@.fields =~= expected.fields);
                }
                Ok(packet)
            },
            Err(e) => Err(e),
        }
    }

    /// Reads one frame in `state` and `direction`: the frame length, then,
    /// within exactly that many bytes, the packet id and the fields of the
    /// row that the id selects.
    ///
    /// Where the length cannot be read, is over the protocol's cap, or asks
    /// for more bytes than are there, nothing is read. Otherwise the cursor
    /// goes on behind the frame, whether the frame holds a packet or not.
    pub fn decode_frame(
        &self,
        state: PacketState,
        direction: PacketDirection,
        deserializer: &mut McDeserializer,
    ) -> (r: Result<Packet, SerializingErr>)
        ensures
            match spec_read_prefixed(old(deserializer)@, MAX_FRAME_LENGTH as nat) {
                Ok((body, len)) => len <= old(deserializer)@.len() && final(deserializer)@ == old(deserializer)@.skip(len as int) && match spec_decode_body(state, direction, body) {
                    Ok(packet) => r is Ok && r->Ok_0@ == packet,
                    Err(e) => r is Err && r->Err_0 == e,
                },
                Err(e) => r is Err && r->Err_0 == e && *final(deserializer) == *old(deserializer),
            },
            match spec_decode_frame(state, direction, old(deserializer)@) {
                Ok((packet, _)) => r is Ok && r->Ok_0@ == packet,
                Err(e) => r is Err && r->Err_0 == e,
            },
    {
        match deserialize_prefixed(deserializer, MAX_FRAME_LENGTH) {
            Ok(body) => {
                let mut sub = McDeserializer::new(body);
                self.decode_body(state, direction, &mut sub)
            },
            Err(e) => Err(e),
        }
    }
}

/// Reads a value for each field of `fields`, in their order. Where one
/// cannot be read, nothing is read.
pub fn deserialize_fields(fields: &Vec<PacketField>, deserializer: &mut McDeserializer) -> (r:
    Result<Vec<FieldValue>, SerializingErr>)
    ensures
        match spec_read_fields(
            Seq::new(fields@.len(), |i: int| fields@[i].ty),
            old(deserializer)@,
        ) {
            Ok((values, len)) => r is Ok && Seq::new(
                r->Ok_0@.len(),
                |i: int| r->Ok_0@[i]@,
            ) == values && len <= old(deserializer)@.len() && final(deserializer)@ == old(deserializer)@.skip(len as int),
            Err(e) => r is Err && r->Err_0 == e && *final(deserializer) == *old(deserializer),
        },
{
    let ghost types = Seq::new(fields@.len(), |i: int| fields@[i].ty);
    let ghost input = deserializer@;
    let saved = *deserializer;
    let mut values: Vec<FieldValue> = Vec::new();
    let ghost mut read: nat = 0;
    let mut i: usize = 0;
    proof {
        assert(Seq::new(values@.len(), |i: int| values@[i]@) =~= Seq::<FieldValueView>::empty());
        assert(input.skip(0) =~= input);
    }
    while i < fields.len()
        invariant
            i <= fields@.len(),
            types == Seq::new(fields@.len(), |i: int| fields@[i].ty),
            input == old(deserializer)@,
            saved == *old(deserializer),
            read <= input.len(),
            deserializer@ == input.skip(read as int),
            spec_read_fields(types.take(i as int), input) == Ok::<
                (Seq<FieldValueView>, nat),
                SerializingErr,
            >((Seq::new(values@.len(), |i: int| values@[i]@), read)),
        decreases fields@.len() - i,
    {
        proof {
            assert(types.take(i + 1).drop_last() =~= types.take(i as int));
            assert(types.take(i + 1).last() == fields@[i as int].ty);
        }
        let ghost before = Seq::new(values@.len(), |i: int| values@[i]@);
        match fields[i].ty.deserialize(deserializer) {
            Ok(value) => {
                let ghost n = fields@[i as int].ty.spec_read(input.skip(read as int))->Ok_0.1;
                values.push(value);
                proof {
                    assert(input.skip(read as int).skip(n as int) =~= input.skip((read + n) as int));
                    assert(Seq::new(values@.len(), |i: int| values@[i]@) =~= before.push(value@));
                    read = read + n;
                }
            },
            Err(e) => {
                proof {
                    lemma_read_fields_prefix_err(types, input, (i + 1) as int);
                }
                *deserializer = saved;
                return Err(e);
            },
        }
        i = i + 1;
    }
    proof {
        assert(types.take(i as int) =~= types);
    }
    Ok(values)
}

/// Values that were written one after the other are read back by their
/// wire types, whatever follows them.
pub proof fn lemma_fields_round_trip(
    values: Seq<FieldValueView>,
    types: Seq<FieldType>,
    rest: Seq<u8>,
)
    requires
        values.len() == types.len(),
        forall|i: int| 0 <= i < values.len() ==> (#[trigger] values[i]).conforms(types[i]),
        spec_fields_bytes(values) is Ok,
    ensures
        spec_read_fields(types, spec_fields_bytes(values)->Ok_0 + rest) == Ok::<
            (Seq<FieldValueView>, nat),
            SerializingErr,
        >((values, spec_fields_bytes(values)->Ok_0.len())),
    decreases values.len(),
{
    if values.len() == 0 {
        assert(values =~= Seq::<FieldValueView>::empty());
    } else {
        let front = spec_fields_bytes(values.drop_last())->Ok_0;
        let last = values.last().spec_bytes()->Ok_0;
        let all = front + last + rest;
        assert(all =~= front + (last + rest));
        assert forall|i: int| 0 <= i < values.drop_last().len() implies (
        #[trigger] values.drop_last()[i]).conforms(types.drop_last()[i]) by {
            assert(values[i].conforms(types[i]));
        }
        lemma_fields_round_trip(values.drop_last(), types.drop_last(), last + rest);
        assert(all.skip(front.len() as int) =~= last + rest);
        assert(values.last().conforms(types.last()));
        lemma_field_round_trip(values.last(), types.last(), rest);
        assert(values.drop_last().push(values.last()) =~= values);
    }
}

/// Decoding the frame of a packet of the table, in the packet's own state
/// and direction, gives the packet back and stops at the end of the frame,
/// whatever follows it.
pub proof fn lemma_frame_round_trip(packet: PacketView, rest: Seq<u8>)
    requires
        packet.in_registry(),
        spec_encode_packet(packet) is Ok,
    ensures
        spec_decode_frame(
            packet.state,
            packet.direction,
            spec_encode_packet(packet)->Ok_0 + rest,
        ) == Ok::<(PacketView, nat), SerializingErr>(
            (packet, spec_encode_packet(packet)->Ok_0.len()),
        ),
{
    let row = choose|i: int|
        0 <= i < spec_registry().len() && packet.instance_of(#[trigger] spec_registry()[i]);
    let schema = spec_registry()[row];
    let id = VarInt(packet.packet_id).spec_bytes();
    let payload = spec_fields_bytes(packet.fields)->Ok_0;
    let body = id + payload;
    lemma_prefixed_round_trip(body, MAX_FRAME_LENGTH as nat, rest);
    lemma_varint_round_trip(packet.packet_id, payload);
    lemma_lookup_finds_row(row);
    assert(body.skip(id.len() as int) =~= payload);
    assert(payload + Seq::<u8>::empty() =~= payload);
    assert forall|i: int| 0 <= i < packet.fields.len() implies (#[trigger] packet.fields[i]).conforms(
        schema.types()[i],
    ) by {
        assert(packet.fields[i].conforms(schema.fields[i].ty));
    }
    lemma_fields_round_trip(packet.fields, schema.types(), Seq::empty());
}

impl Packet {
    /// What the handshake asks for: the state that the connection is to
    /// enter, where this packet is a handshake whose `next_state` names one.
    pub open spec fn spec_requested_state(packet: PacketView) -> Option<PacketState> {
        if packet.state == PacketState::HANDSHAKING && packet.direction == PacketDirection::SERVER
            && packet.packet_id == 0 && packet.fields.len() == 4 {
            match packet.fields[3] {
                FieldValueView::VarInt(next) => if 0 <= next <= 255 {
                    PacketState::spec_from_id(next as u8)
                } else {
                    None
                },
                _ => None,
            }
        } else {
            None
        }
    }

    /// The handshake that opens every connection.
    pub fn handshaking(
        protocol_version: VarInt,
        server_address: String,
        port: u16,
        next_state: VarInt,
    ) -> (packet: Packet)
        ensures
            packet@ == (PacketView {
                name: "Handshaking"@,
                packet_id: 0,
                state: PacketState::HANDSHAKING,
                direction: PacketDirection::SERVER,
                fields: seq![
                    FieldValueView::VarInt(protocol_version.0),
                    FieldValueView::String(server_address@),
                    FieldValueView::UnsignedShort(port),
                    FieldValueView::VarInt(next_state.0),
                ],
            }),
    {
        let fields = vec![
            FieldValue::VarInt(protocol_version),
            FieldValue::String(server_address),
            FieldValue::UnsignedShort(port),
            FieldValue::VarInt(next_state),
        ];
        let packet = Packet {
            name: "Handshaking",
            packet_id: VarInt(0),
            state: PacketState::HANDSHAKING,
            direction: PacketDirection::SERVER,
            fields,
        };
        proof {
            assert(packet@.fields =~= seq![
                FieldValueView::VarInt(protocol_version.0),
                FieldValueView::String(server_address@),
                FieldValueView::UnsignedShort(port),
                FieldValueView::VarInt(next_state.0),
            ]);
        }
        packet
    }

    /// The client's request for the server's status.
    pub fn status_request() -> (packet: Packet)
        ensures
            packet@ == (PacketView {
                name: "StatusRequest"@,
                packet_id: 0,
                state: PacketState::STATUS,
                direction: PacketDirection::SERVER,
                fields: seq![],
            }),
    {
        let packet = Packet {
            name: "StatusRequest",
            packet_id: VarInt(0),
            state: PacketState::STATUS,
            direction: PacketDirection::SERVER,
            fields: Vec::new(),
        };
        proof {
            assert(packet@.fields =~= seq![]);
        }
        packet
    }

    /// The server's status, as the JSON text that the host supplies.
    pub fn status_response(response: String) -> (packet: Packet)
        ensures
            packet@ == (PacketView {
                name: "StatusResponse"@,
                packet_id: 0,
                state: PacketState::STATUS,
                direction: PacketDirection::CLIENT,
                fields: seq![FieldValueView::String(response@)],
            }),
    {
        let packet = Packet {
            name: "StatusResponse",
            packet_id: VarInt(0),
            state: PacketState::STATUS,
            direction: PacketDirection::CLIENT,
            fields: vec![FieldValue::String(response)],
        };
        proof {
            assert(packet@.fields =~= seq![FieldValueView::String(response@)]);
        }
        packet
    }

    /// The client's ping, with a payload of its choice.
    pub fn ping_request(payload: i64) -> (packet: Packet)
        ensures
            packet@ == (PacketView {
                name: "PingRequest"@,
                packet_id: 1,
                state: PacketState::STATUS,
                direction: PacketDirection::SERVER,
                fields: seq![FieldValueView::Long(payload)],
            }),
    {
        let packet = Packet {
            name: "PingRequest",
            packet_id: VarInt(1),
            state: PacketState::STATUS,
            direction: PacketDirection::SERVER,
            fields: vec![FieldValue::Long(payload)],
        };
        proof {
            assert(packet@.fields =~= seq![FieldValueView::Long(payload)]);
        }
        packet
    }

    /// The answer to a ping, which carries the ping's payload back.
    pub fn ping_response(payload: i64) -> (packet: Packet)
        ensures
            packet@ == (PacketView {
                name: "PingResponse"@,
                packet_id: 1,
                state: PacketState::STATUS,
                direction: PacketDirection::CLIENT,
                fields: seq![FieldValueView::Long(payload)],
            }),
    {
        let packet = Packet {
            name: "PingResponse",
            packet_id: VarInt(1),
            state: PacketState::STATUS,
            direction: PacketDirection::CLIENT,
            fields: vec![FieldValue::Long(payload)],
        };
        proof {
            assert(packet@.fields =~= seq![FieldValueView::Long(payload)]);
        }
        packet
    }

    /// The state that this packet asks the connection to enter: `Some` for a
    /// handshake whose `next_state` is 1 (STATUS) or 2 (LOGIN), `None` for
    /// everything else.
    pub fn requested_state(&self) -> (state: Option<PacketState>)
        ensures
            state == Self::spec_requested_state(self@),
    {
        if self.state == PacketState::HANDSHAKING && self.direction == PacketDirection::SERVER
            && self.packet_id.0 == 0 && self.fields.len() == 4 {
            match &self.fields[3] {
                FieldValue::VarInt(next) => {
                    if 0 <= next.0 && next.0 <= 255 {
                        PacketState::from_id(next.0 as u8)
                    } else {
                        None
                    }
                },
                _ => None,
            }
        } else {
            None
        }
    }
}

} // verus!
