use sandstone::packets::fields::FieldValue;
use sandstone::packets::packet_definer::{PacketDirection, PacketState};
use sandstone::packets::registry::{encode_packet, Packet, Registry, MAX_FRAME_LENGTH};
use sandstone::packets::serialization::serializer_error::SerializingErr;
use sandstone::packets::serialization::serializer_handler::{
    McDeserializer, McSerialize, McSerializer,
};
use sandstone::protocol_details::datatypes::var_types::VarInt;

fn handshake_bytes() -> Vec<u8> {
    let mut bytes = vec![0x10, 0x00, 0xF6, 0x05, 0x09];
    bytes.extend_from_slice(b"localhost");
    bytes.extend_from_slice(&[0x63, 0xDD, 0x01]);
    bytes
}

#[test]
fn serialize_handshake() {
    let handshake = Packet::handshaking(VarInt(758), "localhost".to_string(), 25565, VarInt(1));

    let mut serializer = McSerializer::new();
    handshake.mc_serialize(&mut serializer).unwrap();

    // length, id      protocol      Address                                          port         next state
    assert_eq!(
        serializer.output,
        vec![16, 0, 246, 5, 9, 108, 111, 99, 97, 108, 104, 111, 115, 116, 99, 221, 1]
    );
    assert_eq!(serializer.output, handshake_bytes());
}

#[test]
fn decode_handshake_frame() {
    let registry = Registry::new();
    let bytes = handshake_bytes();
    let mut cursor = McDeserializer::new(&bytes);
    let packet = registry
        .decode_frame(PacketState::HANDSHAKING, PacketDirection::SERVER, &mut cursor)
        .unwrap();
    assert_eq!(
        packet,
        Packet::handshaking(VarInt(0x2F6), "localhost".to_string(), 25565, VarInt(1))
    );
    assert_eq!(packet.name, "Handshaking");
    assert_eq!(packet.packet_id(), VarInt(0));
    assert_eq!(packet.state(), PacketState::HANDSHAKING);
    assert_eq!(packet.direction(), PacketDirection::SERVER);
    assert_eq!(packet.requested_state(), Some(PacketState::STATUS));
    assert!(cursor.is_at_end());
}

#[test]
fn frame_round_trip_for_every_row() {
    let registry = Registry::new();
    let packets = vec![
        Packet::handshaking(VarInt(-1), "example.org".to_string(), 0, VarInt(2)),
        Packet::handshaking(VarInt(763), "é".repeat(127), 65535, VarInt(2)),
        Packet::status_request(),
        Packet::status_response("{\"version\":{\"name\":\"1.18.2\",\"protocol\":758}}".to_string()),
        Packet::ping_request(0x0102030405060708),
        Packet::ping_response(-2),
    ];
    for packet in packets {
        let mut serializer = McSerializer::new();
        encode_packet(&packet, &mut serializer).unwrap();
        serializer.serialize_bytes(&[0xAA, 0xBB, 0xCC]);
        let mut cursor = McDeserializer::new(&serializer.output);
        let decoded = registry.decode_frame(packet.state(), packet.direction(), &mut cursor);
        assert_eq!(decoded, Ok(packet));
        assert_eq!(cursor.collect_remaining(), &[0xAA, 0xBB, 0xCC]);
    }
}

#[test]
fn ping_payload_is_eight_bytes_big_endian() {
    let mut serializer = McSerializer::new();
    encode_packet(&Packet::ping_request(0x0102030405060708), &mut serializer).unwrap();
    assert_eq!(serializer.output, vec![9, 1, 1, 2, 3, 4, 5, 6, 7, 8]);
    let mut serializer = McSerializer::new();
    encode_packet(&Packet::status_request(), &mut serializer).unwrap();
    assert_eq!(serializer.output, vec![1, 0]);
}

#[test]
fn same_id_in_different_states() {
    let registry = Registry::new();
    let status = registry
        .lookup(PacketState::STATUS, PacketDirection::SERVER, 0)
        .unwrap();
    let handshake = registry
        .lookup(PacketState::HANDSHAKING, PacketDirection::SERVER, 0)
        .unwrap();
    assert_eq!(status.name, "StatusRequest");
    assert_eq!(handshake.name, "Handshaking");
    assert_eq!(handshake.fields.len(), 4);
    assert_eq!(handshake.fields[1].name, "server_address");
    assert!(registry.lookup(PacketState::PLAY, PacketDirection::SERVER, 0).is_none());
    assert!(registry.lookup(PacketState::STATUS, PacketDirection::BIDIRECTIONAL, 0).is_none());
    assert_eq!(registry.len(), 5);
    assert_eq!(registry.get(4).unwrap().name, "PingResponse");
    assert!(registry.get(5).is_none());
}

#[test]
fn unknown_packet_id_leaves_following_frames_intact() {
    let registry = Registry::new();
    // a well-formed frame with id 0x7F, then a ping
    let mut bytes = vec![0x03, 0x7F, 0x01, 0x02];
    bytes.extend_from_slice(&[9, 1, 0, 0, 0, 0, 0, 0, 0, 42]);
    let mut cursor = McDeserializer::new(&bytes);
    assert_eq!(
        registry.decode_frame(PacketState::STATUS, PacketDirection::SERVER, &mut cursor),
        Err(SerializingErr::UnknownPacket)
    );
    assert_eq!(cursor.remaining(), 10);
    assert_eq!(
        registry.decode_frame(PacketState::STATUS, PacketDirection::SERVER, &mut cursor),
        Ok(Packet::ping_request(42))
    );
    assert!(cursor.is_at_end());
}

#[test]
fn incomplete_frame_reads_nothing() {
    let registry = Registry::new();
    let bytes = handshake_bytes();
    for cut in 0..bytes.len() {
        let mut cursor = McDeserializer::new(&bytes[..cut]);
        assert_eq!(
            registry.decode_frame(PacketState::HANDSHAKING, PacketDirection::SERVER, &mut cursor),
            Err(SerializingErr::InputEnded)
        );
        assert_eq!(cursor.remaining(), cut);
    }
}

#[test]
fn malformed_frame_is_skipped_whole() {
    let registry = Registry::new();
    // the frame says 3 bytes, the ping inside it would need 9
    let bytes = vec![0x03, 0x01, 0x00, 0x00, 0x01, 0x00];
    let mut cursor = McDeserializer::new(&bytes);
    assert_eq!(
        registry.decode_frame(PacketState::STATUS, PacketDirection::SERVER, &mut cursor),
        Err(SerializingErr::InputEnded)
    );
    assert_eq!(cursor.remaining(), 2);
    assert_eq!(
        registry.decode_frame(PacketState::STATUS, PacketDirection::SERVER, &mut cursor),
        Ok(Packet::status_request())
    );
}

#[test]
fn extra_bytes_inside_a_frame_are_discarded() {
    let registry = Registry::new();
    let bytes = vec![0x04, 0x00, 0xDE, 0xAD, 0xBE, 0x01, 0x00];
    let mut cursor = McDeserializer::new(&bytes);
    assert_eq!(
        registry.decode_frame(PacketState::STATUS, PacketDirection::SERVER, &mut cursor),
        Ok(Packet::status_request())
    );
    assert_eq!(cursor.remaining(), 2);
}

#[test]
fn frame_length_over_the_cap() {
    let registry = Registry::new();
    // 2097152 = one more than the cap
    let bytes = vec![0x80, 0x80, 0x80, 0x01, 0x00];
    let mut cursor = McDeserializer::new(&bytes);
    assert_eq!(
        registry.decode_frame(PacketState::STATUS, PacketDirection::SERVER, &mut cursor),
        Err(SerializingErr::LengthExceedsBound)
    );
    assert_eq!(cursor.remaining(), 5);
    // a negative length
    let bytes = vec![0xFF, 0xFF, 0xFF, 0xFF, 0x0F, 0x00];
    let mut cursor = McDeserializer::new(&bytes);
    assert_eq!(
        registry.decode_frame(PacketState::STATUS, PacketDirection::SERVER, &mut cursor),
        Err(SerializingErr::LengthExceedsBound)
    );
    // a length that never ends
    let bytes = vec![0x80, 0x80, 0x80, 0x80, 0x80, 0x80];
    let mut cursor = McDeserializer::new(&bytes);
    assert_eq!(
        registry.decode_frame(PacketState::STATUS, PacketDirection::SERVER, &mut cursor),
        Err(SerializingErr::VarIntOverflow)
    );
    assert_eq!(MAX_FRAME_LENGTH, 2097151);
}

#[test]
fn encode_refuses_what_cannot_be_framed() {
    let too_long_text = Packet::status_response("a".repeat(32768));
    let mut serializer = McSerializer::new();
    serializer.serialize_u8(7);
    assert_eq!(
        encode_packet(&too_long_text, &mut serializer),
        Err(SerializingErr::LengthExceedsBound)
    );
    assert_eq!(serializer.output, vec![7]);

    let mut fields = Vec::new();
    for _ in 0..70 {
        fields.push(FieldValue::String("b".repeat(30000)));
    }
    let registry = Registry::new();
    let too_long_frame = Packet::new(registry.get(3).unwrap(), fields);
    assert_eq!(
        encode_packet(&too_long_frame, &mut serializer),
        Err(SerializingErr::LengthExceedsBound)
    );
    assert_eq!(serializer.output, vec![7]);
}

#[test]
fn handshake_address_bound() {
    let registry = Registry::new();
    let packet = Packet::handshaking(VarInt(758), "x".repeat(256), 25565, VarInt(1));
    let mut serializer = McSerializer::new();
    encode_packet(&packet, &mut serializer).unwrap();
    let mut cursor = McDeserializer::new(&serializer.output);
    assert_eq!(
        registry.decode_frame(PacketState::HANDSHAKING, PacketDirection::SERVER, &mut cursor),
        Err(SerializingErr::LengthExceedsBound)
    );
    assert!(cursor.is_at_end());
}

#[test]
fn handshake_with_bad_text() {
    let registry = Registry::new();
    let bytes = vec![0x07, 0x00, 0x00, 0x02, 0xC3, 0x28, 0x00, 0x00, 0x01];
    let mut cursor = McDeserializer::new(&bytes[..8]);
    assert_eq!(
        registry.decode_frame(PacketState::HANDSHAKING, PacketDirection::SERVER, &mut cursor),
        Err(SerializingErr::InvalidUtf8)
    );
}

#[test]
fn requested_state_of_packets() {
    let login = Packet::handshaking(VarInt(758), "h".to_string(), 1, VarInt(2));
    assert_eq!(login.requested_state(), Some(PacketState::LOGIN));
    let other = Packet::handshaking(VarInt(758), "h".to_string(), 1, VarInt(3));
    assert_eq!(other.requested_state(), None);
    let wide = Packet::handshaking(VarInt(758), "h".to_string(), 1, VarInt(257));
    assert_eq!(wide.requested_state(), None);
    assert_eq!(Packet::status_request().requested_state(), None);
}

#[test]
fn canonical_frame_is_written_back() {
    let registry = Registry::new();
    let mut bytes = handshake_bytes();
    bytes.extend_from_slice(&[0xAA]);
    let mut cursor = McDeserializer::new(&bytes);
    let packet = registry
        .decode_frame(PacketState::HANDSHAKING, PacketDirection::SERVER, &mut cursor)
        .unwrap();
    let consumed = bytes.len() - cursor.remaining();
    let mut serializer = McSerializer::new();
    encode_packet(&packet, &mut serializer).unwrap();
    assert_eq!(serializer.output, &bytes[..consumed]);
}

#[test]
fn frames_that_are_read_but_never_written() {
    let registry = Registry::new();
    let written = vec![9, 1, 0, 0, 0, 0, 0, 0, 0, 5];
    // the length in two bytes where one would do
    let wide_length = vec![0x89, 0x00, 1, 0, 0, 0, 0, 0, 0, 0, 5];
    // the id in two bytes where one would do
    let wide_id = vec![10, 0x81, 0x00, 0, 0, 0, 0, 0, 0, 0, 5];
    // a byte behind the last field
    let leftover = vec![10, 1, 0, 0, 0, 0, 0, 0, 0, 5, 0xEE];
    for bytes in [wide_length, wide_id, leftover] {
        let mut cursor = McDeserializer::new(&bytes);
        let packet = registry
            .decode_frame(PacketState::STATUS, PacketDirection::SERVER, &mut cursor)
            .unwrap();
        assert!(cursor.is_at_end());
        assert_eq!(packet, Packet::ping_request(5));
        let mut serializer = McSerializer::new();
        encode_packet(&packet, &mut serializer).unwrap();
        assert_eq!(serializer.output, written);
        assert_ne!(serializer.output, bytes);
    }
}

#[test]
fn only_packets_of_their_row_round_trip() {
    // the writer does not hold a packet against the table
    let registry = Registry::new();
    let packet = Packet::handshaking(VarInt(758), "x".repeat(300), 25565, VarInt(1));
    let mut serializer = McSerializer::new();
    assert_eq!(encode_packet(&packet, &mut serializer), Ok(()));
    let mut cursor = McDeserializer::new(&serializer.output);
    assert_eq!(
        registry.decode_frame(PacketState::HANDSHAKING, PacketDirection::SERVER, &mut cursor),
        Err(SerializingErr::LengthExceedsBound)
    );
    // at the bound of its row the packet comes back
    let packet = Packet::handshaking(VarInt(758), "x".repeat(255), 25565, VarInt(1));
    let mut serializer = McSerializer::new();
    encode_packet(&packet, &mut serializer).unwrap();
    let mut cursor = McDeserializer::new(&serializer.output);
    assert_eq!(
        registry.decode_frame(PacketState::HANDSHAKING, PacketDirection::SERVER, &mut cursor),
        Ok(packet)
    );
}
