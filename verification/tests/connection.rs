use sandstone::network::connection::{
    announced_version, peek_frame_header, CraftClient, Outbound, Received, BUFFER_SIZE,
};
use sandstone::network::network_error::NetworkError;
use sandstone::packets::compression::{frame_compressed, needs_compression, read_compressed_frame};
use sandstone::packets::packet_definer::{PacketDirection, PacketState};
use sandstone::packets::registry::{encode_body, encode_packet, Packet, Registry};
use sandstone::packets::serialization::serializer_error::SerializingErr;
use sandstone::packets::serialization::serializer_handler::{McDeserializer, McSerializer};
use sandstone::protocol_details::datatypes::var_types::VarInt;
use sandstone::protocol_details::protocol_verison::ProtocolVerison;

fn handshake_bytes() -> Vec<u8> {
    let mut bytes = vec![0x10, 0x00, 0xF6, 0x05, 0x09];
    bytes.extend_from_slice(b"localhost");
    bytes.extend_from_slice(&[0x63, 0xDD, 0x01]);
    bytes
}

fn handshake() -> Packet {
    Packet::handshaking(VarInt(758), "localhost".to_string(), 25565, VarInt(1))
}

fn expect_packet(received: Received) -> Packet {
    match received {
        Received::Packet(packet) => packet,
        other => panic!("packet expected, got {:?}", other),
    }
}

fn frame_of(packet: &Packet) -> Vec<u8> {
    let mut serializer = McSerializer::new();
    encode_packet(packet, &mut serializer).unwrap();
    serializer.output
}

/// A transform that stands in for zlib: it can be undone, and it changes
/// every byte and the length.
fn deflate(bytes: &[u8]) -> Vec<u8> {
    let mut out = vec![0x78];
    out.extend(bytes.iter().map(|b| b ^ 0x5A));
    out
}

fn inflate(bytes: &[u8]) -> Vec<u8> {
    bytes[1..].iter().map(|b| b ^ 0x5A).collect()
}

#[test]
fn new_connection() {
    let client = CraftClient::new();
    assert_eq!(client.packet_state, PacketState::HANDSHAKING);
    assert_eq!(client.state(), PacketState::HANDSHAKING);
    assert_eq!(client.buffered(), 0);
    assert_eq!(client.get_client_version(), None);
    assert_eq!(BUFFER_SIZE, 1024);
}

#[test]
fn status_handshake_scenario() {
    let registry = Registry::new();
    let mut client = CraftClient::new();

    // the handshake arrives
    assert!(matches!(client.receive_packet(&registry), Received::Incomplete));
    client.accept_read(&handshake_bytes()).unwrap();
    assert_eq!(
        client.peek_next_packet_details(),
        Ok((VarInt(16), VarInt(0)))
    );
    let packet = expect_packet(client.receive_packet(&registry));
    assert_eq!(packet, handshake());
    assert_eq!(client.get_client_version(), Some(ProtocolVerison::V1_18_2));

    // the host moves the connection to the state that the handshake asks for
    let next = packet.requested_state().unwrap();
    assert_eq!(next, PacketState::STATUS);
    client.change_state(next);
    assert_eq!(client.packet_state, PacketState::STATUS);

    // the status request arrives, and the host answers with its JSON body
    client.accept_read(&[0x01, 0x00]).unwrap();
    assert_eq!(expect_packet(client.receive_packet(&registry)), Packet::status_request());
    let body = "{\"description\":{\"text\":\"hi\"}}";
    let response = match client.send_packet(&Packet::status_response(body.to_string())) {
        Ok(Outbound::Frame(bytes)) => bytes,
        other => panic!("frame expected, got {:?}", other),
    };
    let mut expected = vec![(2 + body.len()) as u8, 0x00, body.len() as u8];
    expected.extend_from_slice(body.as_bytes());
    assert_eq!(response, expected);

    // the ping arrives, and its eight bytes go back as they came
    let ping = [0x09, 0x01, 0xDE, 0xAD, 0xBE, 0xEF, 0x00, 0x11, 0x22, 0x33];
    client.accept_read(&ping).unwrap();
    let payload = match &expect_packet(client.receive_packet(&registry)).fields[0] {
        sandstone::packets::fields::FieldValue::Long(payload) => *payload,
        other => panic!("long expected, got {:?}", other),
    };
    let pong = match client.send_packet(&Packet::ping_response(payload)) {
        Ok(Outbound::Frame(bytes)) => bytes,
        other => panic!("frame expected, got {:?}", other),
    };
    assert_eq!(pong, ping.to_vec());
    assert_eq!(client.buffered(), 0);
}

#[test]
fn frame_split_across_three_reads() {
    let registry = Registry::new();
    let bytes = handshake_bytes();
    for first in 1..bytes.len() - 1 {
        for second in first + 1..bytes.len() {
            let mut client = CraftClient::new();
            client.accept_read(&bytes[..first]).unwrap();
            assert!(matches!(client.receive_packet(&registry), Received::Incomplete));
            assert_eq!(client.buffered(), first);
            client.accept_read(&bytes[first..second]).unwrap();
            assert!(matches!(client.receive_packet(&registry), Received::Incomplete));
            client.accept_read(&bytes[second..]).unwrap();
            assert_eq!(expect_packet(client.receive_packet(&registry)), handshake());
            assert_eq!(client.buffered(), 0);
        }
    }
}

#[test]
fn two_frames_in_one_read() {
    let registry = Registry::new();
    let mut client = CraftClient::new();
    let mut bytes = handshake_bytes();
    bytes.extend_from_slice(&frame_of(&Packet::handshaking(
        VarInt(763),
        "example.org".to_string(),
        1,
        VarInt(2),
    )));
    client.accept_read(&bytes).unwrap();
    assert_eq!(expect_packet(client.receive_packet(&registry)), handshake());
    // no read in between
    let second = expect_packet(client.receive_packet(&registry));
    assert_eq!(second.requested_state(), Some(PacketState::LOGIN));
    assert_eq!(client.get_client_version(), Some(ProtocolVerison::V1_20));
    assert!(matches!(client.receive_packet(&registry), Received::Incomplete));
}

#[test]
fn unknown_packet_leaves_the_stream_intact() {
    let registry = Registry::new();
    let mut client = CraftClient::new();
    client.change_state(PacketState::STATUS);
    client.accept_read(&[0x02, 0x55, 0x00, 0x01, 0x00]).unwrap();
    assert!(matches!(
        client.receive_packet(&registry),
        Received::Malformed(SerializingErr::UnknownPacket)
    ));
    assert_eq!(client.buffered(), 2);
    assert_eq!(expect_packet(client.receive_packet(&registry)), Packet::status_request());
}

#[test]
fn frame_length_that_cannot_be_one() {
    let registry = Registry::new();
    let mut client = CraftClient::new();
    client.accept_read(&[0x80, 0x80, 0x80, 0x80, 0x80, 0x01]).unwrap();
    assert!(matches!(
        client.receive_packet(&registry),
        Received::Malformed(SerializingErr::VarIntOverflow)
    ));
    assert_eq!(client.buffered(), 6);
    let mut client = CraftClient::new();
    client.accept_read(&[0x80, 0x80, 0x80, 0x01]).unwrap();
    assert!(matches!(
        client.receive_packet(&registry),
        Received::Malformed(SerializingErr::LengthExceedsBound)
    ));
}

#[test]
fn closed_connection() {
    let mut client = CraftClient::new();
    client.accept_read(&[1]).unwrap();
    assert_eq!(client.accept_read(&[]), Err(NetworkError::ConnectionClosed));
    assert_eq!(client.buffered(), 1);
    assert_eq!(
        NetworkError::of_read_error(
            "An established connection was aborted by the software in your host machine. (os error 10053)"
        ),
        NetworkError::ConnectionAbortedLocally
    );
    assert_eq!(NetworkError::of_read_error("Connection reset by peer"), NetworkError::IoError);
    assert_eq!(NetworkError::of_read_error(""), NetworkError::IoError);
    assert_eq!(NetworkError::ConnectionClosed.message(), "No data received");
    assert_eq!(NetworkError::IoError.message(), "The socket failed");
    assert_eq!(
        NetworkError::ConnectionAbortedLocally.message(),
        "The connection was aborted locally"
    );
}

#[test]
fn peek_reads_two_numbers() {
    assert_eq!(peek_frame_header(&[0xDD, 0xC7, 0x01, 0x7F, 9]), Ok((VarInt(25565), VarInt(127))));
    assert_eq!(peek_frame_header(&[0x05]), Err(SerializingErr::InputEnded));
    assert_eq!(peek_frame_header(&[]), Err(SerializingErr::InputEnded));
    assert_eq!(
        peek_frame_header(&[0x01, 0x80, 0x80, 0x80, 0x80, 0x80]),
        Err(SerializingErr::VarIntOverflow)
    );
    let mut client = CraftClient::new();
    assert_eq!(client.peek_next_packet_details(), Err(SerializingErr::InputEnded));
    client.accept_read(&[0x02, 0x01]).unwrap();
    assert_eq!(client.peek_next_packet_details(), Ok((VarInt(2), VarInt(1))));
    assert_eq!(client.buffered(), 2);
}

#[test]
fn client_version_lookup() {
    assert_eq!(ProtocolVerison::from(758), Some(ProtocolVerison::V1_18_2));
    assert_eq!(ProtocolVerison::from(767), Some(ProtocolVerison::V1_21));
    assert_eq!(ProtocolVerison::from(757), None);
    assert_eq!(ProtocolVerison::from(768), None);
    assert_eq!(ProtocolVerison::V1_20.get_version_number(), 763);
    assert_eq!(ProtocolVerison::V1_20_3.get_fancy_name(), "1.20.3");
    for number in 758..=767 {
        assert_eq!(ProtocolVerison::from(number).unwrap().get_version_number(), number);
    }
    // a number that only looks like a known one when cut to sixteen bits
    let registry = Registry::new();
    let mut client = CraftClient::new();
    let odd = Packet::handshaking(VarInt(758 + 65536), "h".to_string(), 1, VarInt(1));
    assert_eq!(announced_version(&odd), Some(VarInt(66294)));
    assert_eq!(announced_version(&Packet::status_request()), None);
    client.accept_read(&frame_of(&odd)).unwrap();
    expect_packet(client.receive_packet(&registry));
    assert_eq!(client.get_client_version(), None);
}

#[test]
fn compression_threshold_zero() {
    let registry = Registry::new();
    let mut sender = CraftClient::new();
    sender.enable_compression(Some(0));
    let mut receiver = CraftClient::new();
    receiver.enable_compression(Some(0));
    receiver.change_state(PacketState::STATUS);

    for packet in [Packet::status_request(), Packet::ping_request(77)] {
        // every outbound packet is handed out to be deflated
        let body = match sender.send_packet(&packet) {
            Ok(Outbound::Deflate(body)) => body,
            other => panic!("deflate expected, got {:?}", other),
        };
        assert_eq!(body, encode_body(&packet).unwrap());
        let mut serializer = McSerializer::new();
        frame_compressed(body.len(), &deflate(&body), &mut serializer).unwrap();

        // the receiver hands the frame back to be inflated, and decodes the result
        receiver.accept_read(&serializer.output).unwrap();
        let (data_length, deflated) = match receiver.receive_packet(&registry) {
            Received::Inflate { data_length, deflated } => (data_length, deflated),
            other => panic!("inflate expected, got {:?}", other),
        };
        assert_eq!(data_length, body.len());
        let inflated = inflate(&deflated);
        assert_eq!(inflated, body);
        assert_eq!(receiver.receive_inflated(&registry, data_length, &inflated), Ok(packet));
        assert_eq!(receiver.buffered(), 0);
    }
}

#[test]
fn compression_below_the_threshold() {
    let registry = Registry::new();
    let mut client = CraftClient::new();
    client.enable_compression(Some(256));
    client.change_state(PacketState::STATUS);
    let frame = match client.send_packet(&Packet::ping_request(1)) {
        Ok(Outbound::Frame(bytes)) => bytes,
        other => panic!("frame expected, got {:?}", other),
    };
    // packet length, data length 0, id, payload
    assert_eq!(frame, vec![10, 0, 1, 0, 0, 0, 0, 0, 0, 0, 1]);
    client.accept_read(&frame[..4]).unwrap();
    assert!(matches!(client.receive_packet(&registry), Received::Incomplete));
    client.accept_read(&frame[4..]).unwrap();
    assert_eq!(expect_packet(client.receive_packet(&registry)), Packet::ping_request(1));

    assert!(needs_compression(256, 256));
    assert!(!needs_compression(255, 256));
    assert!(needs_compression(0, 0));
    assert!(needs_compression(0, -1));

    // switching compression off again goes back to the plain frame
    client.enable_compression(None);
    assert!(matches!(
        client.send_packet(&Packet::status_request()),
        Ok(Outbound::Frame(bytes)) if bytes == vec![1, 0]
    ));
}

#[test]
fn inflated_length_must_match() {
    let registry = Registry::new();
    let mut client = CraftClient::new();
    client.change_state(PacketState::STATUS);
    let body = encode_body(&Packet::ping_request(5)).unwrap();
    assert_eq!(
        client.receive_inflated(&registry, body.len() + 1, &body),
        Err(SerializingErr::InputEnded)
    );
    assert_eq!(
        client.receive_inflated(&registry, body.len() - 1, &body),
        Err(SerializingErr::LeftoverInput)
    );
    assert_eq!(
        client.receive_inflated(&registry, body.len(), &body),
        Ok(Packet::ping_request(5))
    );
}

#[test]
fn compressed_frame_format() {
    let mut serializer = McSerializer::new();
    frame_compressed(300, &[1, 2, 3], &mut serializer).unwrap();
    assert_eq!(serializer.output, vec![5, 0xAC, 0x02, 1, 2, 3]);
    serializer.serialize_u8(9);
    let mut cursor = McDeserializer::new(&serializer.output);
    assert_eq!(read_compressed_frame(&mut cursor), Ok((300, &[1u8, 2, 3][..])));
    assert_eq!(cursor.remaining(), 1);
    // a frame without a data length
    let mut cursor = McDeserializer::new(&[0, 7]);
    assert_eq!(read_compressed_frame(&mut cursor), Err(SerializingErr::InputEnded));
    assert_eq!(cursor.remaining(), 1);
    // an incomplete frame
    let mut cursor = McDeserializer::new(&[3, 0]);
    assert_eq!(read_compressed_frame(&mut cursor), Err(SerializingErr::InputEnded));
    assert_eq!(cursor.remaining(), 2);
    let mut serializer = McSerializer::new();
    assert_eq!(
        frame_compressed(1, &vec![0u8; 2097151], &mut serializer),
        Err(SerializingErr::LengthExceedsBound)
    );
    assert!(serializer.output.is_empty());
    let _ = PacketDirection::CLIENT;
}
