//! The state of one connection and the decisions of its receive and send
//! paths. The socket is the host's: the host reads and writes, hands every
//! chunk that it read to the connection, and does what the connection says.

use crate::network::network_error::NetworkError;
use crate::packets::compression::{
    needs_compression, frame_compressed, read_compressed_frame, spec_compressed_frame,
    spec_needs_compression, spec_split_compressed,
};
use crate::packets::fields::{FieldValue, FieldValueView};
use crate::packets::packet_definer::{PacketDirection, PacketState};
use crate::packets::registry::{
    encode_body, encode_packet, spec_decode_body, spec_encode_packet, spec_packet_body, Packet,
    PacketView, Registry, MAX_FRAME_LENGTH,
};
use crate::packets::serialization::primitives::{lemma_prefixed_cut, spec_read_prefixed};
use crate::protocol_details::datatypes::var_types::lemma_read_var_bounds;
use crate::packets::serialization::serializer_error::SerializingErr;
use crate::packets::serialization::serializer_handler::{McDeserializer, McSerializer};
use crate::protocol_details::datatypes::var_types::VarInt;
use crate::protocol_details::protocol_verison::ProtocolVerison;
use vstd::prelude::*;
use vstd::slice::slice_to_vec;

verus! {

/// The size of the chunk that the host reads from the socket at a time.
pub const BUFFER_SIZE: usize = 1024;

/// What a connection keeps between socket reads.
pub struct CraftClient {
    pub packet_state: PacketState,
    compression_threshold: Option<i32>,
    buffer: Vec<u8>,
    client_version: Option<VarInt>,
}

/// A connection as a mathematical value.
pub struct ClientView {
    /// The state that selects the packet table.
    pub packet_state: PacketState,
    /// The compression threshold, once one is set.
    pub compression_threshold: Option<i32>,
    /// The bytes that were read from the socket and not yet decoded.
    pub buffer: Seq<u8>,
    /// The protocol version of the client's handshake, once it was received.
    pub client_version: Option<i32>,
}

impl View for CraftClient {
    type V = ClientView;

    closed spec fn view(&self) -> ClientView {
        ClientView {
            packet_state: self.packet_state,
            compression_threshold: self.compression_threshold,
            buffer: self.buffer@,
            client_version: match self.client_version {
                Some(version) => Some(version.0),
                None => None,
            },
        }
    }
}

/// What one step of receiving gives.
#[derive(Debug)]
pub enum Received {
    /// The next packet.
    Packet(Packet),
    /// No complete frame is buffered: the host reads from the socket, hands
    /// the chunk over, and asks again.
    Incomplete,
    /// The next frame is compressed: the host inflates `deflated`, which
    /// must give `data_length` bytes, and hands the result over.
    Inflate { data_length: usize, deflated: Vec<u8> },
    /// The next frame is malformed. Where the buffer was left as it is, the
    /// stream cannot be read any further.
    Malformed(SerializingErr),
}

/// What one step of receiving gives, as a mathematical value.
pub enum ReceivedView {
    Packet(PacketView),
    Incomplete,
    Inflate { data_length: nat, deflated: Seq<u8> },
    Malformed(SerializingErr),
}

impl View for Received {
    type V = ReceivedView;

    open spec fn view(&self) -> ReceivedView {
        match self {
            Received::Packet(packet) => ReceivedView::Packet(packet@),
            Received::Incomplete => ReceivedView::Incomplete,
            Received::Inflate { data_length, deflated } => ReceivedView::Inflate {
                data_length: *data_length as nat,
                deflated: deflated@,
            },
            Received::Malformed(e) => ReceivedView::Malformed(*e),
        }
    }
}

/// What the host is to do with a packet that it sends.
#[derive(Debug)]
pub enum Outbound {
    /// Write these bytes to the socket, all of them.
    Frame(Vec<u8>),
    /// Deflate these bytes, frame the result under their length, and write
    /// that.
    Deflate(Vec<u8>),
}

/// What the host is to do with a packet, as a mathematical value.
pub enum OutboundView {
    Frame(Seq<u8>),
    Deflate(Seq<u8>),
}

impl View for Outbound {
    type V = OutboundView;

    open spec fn view(&self) -> OutboundView {
        match self {
            Outbound::Frame(bytes) => OutboundView::Frame(bytes@),
            Outbound::Deflate(bytes) => OutboundView::Deflate(bytes@),
        }
    }
}

/// The protocol version that a packet announces: that of a handshake, and
/// of nothing else.
pub open spec fn spec_announced_version(packet: PacketView) -> Option<i32> {
    if packet.state == PacketState::HANDSHAKING && packet.direction == PacketDirection::SERVER
        && packet.packet_id == 0 && packet.fields.len() > 0 {
        match packet.fields[0] {
            FieldValueView::VarInt(version) => Some(version),
            _ => None,
        }
    } else {
        None
    }
}

/// What the inside of a frame gives to a connection in `state`: the packet
/// that it stands for, or the reason why it stands for none.
pub open spec fn spec_body_outcome(state: PacketState, body: Seq<u8>) -> ReceivedView {
    match spec_decode_body(state, PacketDirection::SERVER, body) {
        Ok(packet) => ReceivedView::Packet(packet),
        Err(e) => ReceivedView::Malformed(e),
    }
}

/// What one step of receiving gives to a connection, by what is buffered.
///
/// An incomplete frame gives `Incomplete`. A frame length that cannot be a
/// frame length gives `Malformed`. Both leave the buffer as it is. A
/// complete frame leaves the buffer, whatever it holds; without compression
/// its inside is decoded at once, with compression only where its
/// `data_length` is zero.
pub open spec fn spec_receive(client: ClientView) -> (ReceivedView, Seq<u8>) {
    match spec_read_prefixed(client.buffer, MAX_FRAME_LENGTH as nat) {
        Ok((inner, len)) => {
            let rest = client.buffer.skip(len as int);
            match client.compression_threshold {
                None => (spec_body_outcome(client.packet_state, inner), rest),
                Some(_) => match spec_split_compressed(inner, len) {
                    Ok((data_length, data, _)) => if data_length == 0 {
                        (spec_body_outcome(client.packet_state, data), rest)
                    } else {
                        (ReceivedView::Inflate { data_length, deflated: data }, rest)
                    },
                    Err(e) => (ReceivedView::Malformed(e), rest),
                },
            }
        },
        Err(e) => if e == SerializingErr::InputEnded {
            (ReceivedView::Incomplete, client.buffer)
        } else {
            (ReceivedView::Malformed(e), client.buffer)
        },
    }
}

/// The protocol version that a connection knows after a step of receiving.
pub open spec fn spec_version_after(before: Option<i32>, received: ReceivedView) -> Option<i32> {
    match received {
        ReceivedView::Packet(packet) => match spec_announced_version(packet) {
            Some(version) => Some(version),
            None => before,
        },
        _ => before,
    }
}

/// What the host is to do with `packet` on a connection with this
/// threshold. Without a threshold the packet goes out in the plain frame.
/// With one, a packet whose id and payload are shorter than the threshold
/// goes out as it is under a `data_length` of zero, and any other is to be
/// deflated first.
pub open spec fn spec_send(threshold: Option<i32>, packet: PacketView) -> Result<
    OutboundView,
    SerializingErr,
> {
    match threshold {
        None => match spec_encode_packet(packet) {
            Ok(bytes) => Ok(OutboundView::Frame(bytes)),
            Err(e) => Err(e),
        },
        Some(threshold) => match spec_packet_body(packet) {
            Ok(body) => if spec_needs_compression(body.len(), threshold) {
                Ok(OutboundView::Deflate(body))
            } else {
                match spec_compressed_frame(0, body) {
                    Ok(bytes) => Ok(OutboundView::Frame(bytes)),
                    Err(e) => Err(e),
                }
            },
            Err(e) => Err(e),
        },
    }
}

/// The length and the packet id at the front of `bytes`.
pub open spec fn spec_peek_header(bytes: Seq<u8>) -> Result<(VarInt, VarInt), SerializingErr> {
    match VarInt::spec_read(bytes) {
        Ok((length, len)) => match VarInt::spec_read(bytes.skip(len as int)) {
            Ok((packet_id, _)) => Ok((length, packet_id)),
            Err(e) => Err(e),
        },
        Err(e) => Err(e),
    }
}

/// What the host's inflating of a frame gives: the packet, where the result
/// has the length that the frame announced; `InputEnded` where it is
/// shorter, `LeftoverInput` where it is longer.
pub open spec fn spec_receive_inflated(
    state: PacketState,
    data_length: nat,
    inflated: Seq<u8>,
) -> Result<PacketView, SerializingErr> {
    if inflated.len() < data_length {
        Err(SerializingErr::InputEnded)
    } else if inflated.len() > data_length {
        Err(SerializingErr::LeftoverInput)
    } else {
        spec_decode_body(state, PacketDirection::SERVER, inflated)
    }
}

/// Reads the length and the packet id at the front of `bytes`, the first
/// two numbers of a plain frame.
pub fn peek_frame_header(bytes: &[u8]) -> (r: Result<(VarInt, VarInt), SerializingErr>)
    ensures
        r == spec_peek_header(bytes@),
{
    proof {
        assert(bytes@.skip(0) =~= bytes@);
    }
    match VarInt::read_at(bytes, 0) {
        Ok((length, len)) => match VarInt::read_at(bytes, len) {
            Ok((packet_id, _)) => Ok((length, packet_id)),
            Err(e) => Err(e),
        },
        Err(e) => Err(e),
    }
}

impl CraftClient {
    /// A connection as it is when the socket was accepted: in the
    /// handshaking state, without compression, with nothing buffered.
    pub fn new() -> (client: Self)
        ensures
            client@ == (ClientView {
                packet_state: PacketState::HANDSHAKING,
                compression_threshold: None,
                buffer: Seq::empty(),
                client_version: None,
            }),
    {
        Self {
            packet_state: PacketState::HANDSHAKING,
            compression_threshold: None,
            buffer: Vec::new(),
            client_version: None,
        }
    }

    /// The state by which the next frame is decoded.
    pub fn state(&self) -> (state: PacketState)
        ensures
            state == self@.packet_state,
    {
        self.packet_state
    }

    /// Sets the state by which the frames that follow are decoded.
    pub fn change_state(&mut self, state: PacketState)
        ensures
            final(self)@ == (ClientView { packet_state: state, ..old(self)@ }),
    {
        self.packet_state = state;
    }

    /// Sets the compression threshold: from now on frames are read and
    /// written in the format that holds a `data_length`. `None` goes back to
    /// the plain format.
    pub fn enable_compression(&mut self, threshold: Option<i32>)
        ensures
            final(self)@ == (ClientView { compression_threshold: threshold, ..old(self)@ }),
    {
        self.compression_threshold = threshold;
    }

    /// The release that the client's handshake announced: `None` before the
    /// handshake, and where the table of versions does not have the number.
    pub fn get_client_version(&self) -> (version: Option<ProtocolVerison>)
        ensures
            version == match self@.client_version {
                Some(number) => ProtocolVerison::spec_from(number as int),
                None => None,
            },
    {
        match self.client_version {
            Some(number) => {
                if -32768 <= number.0 && number.0 <= 32767 {
                    ProtocolVerison::from(number.0 as i16)
                } else {
                    None
                }
            },
            None => None,
        }
    }

    /// How many bytes are buffered.
    pub fn buffered(&self) -> (n: usize)
        ensures
            n == self@.buffer.len(),
    {
        self.buffer.len()
    }

    /// Takes what one read of the socket gave. A read that gave nothing
    /// means that the peer has closed the connection.
    pub fn accept_read(&mut self, chunk: &[u8]) -> (r: Result<(), NetworkError>)
        ensures
            chunk@.len() == 0 ==> r == Err::<(), NetworkError>(NetworkError::ConnectionClosed)
                && final(self)@ == old(self)@,
            chunk@.len() > 0 ==> r is Ok && final(self)@ == (ClientView {
                buffer: old(self)@.buffer + chunk@,
                ..old(self)@
            }),
    {
        if chunk.len() == 0 {
            return Err(NetworkError::ConnectionClosed);
        }
        self.buffer.extend_from_slice(chunk);
        proof {
            assert(self.buffer@ =~= old(self).buffer@ + chunk@);
        }
        Ok(())
    }

    /// The length and the packet id of the next frame, which stays
    /// buffered. This reads the plain frame format only.
    pub fn peek_next_packet_details(&self) -> (r: Result<(VarInt, VarInt), SerializingErr>)
        ensures
            r == spec_peek_header(self@.buffer),
    {
        peek_frame_header(self.buffer.as_slice())
    }

    /// One step of receiving: decodes the next frame from what is buffered,
    /// in the connection's state and for the direction of the server, and
    /// keeps what follows the frame. The protocol version of a handshake is
    /// noted.
    pub fn receive_packet(&mut self, registry: &Registry) -> (received: Received)
        ensures
            received@ == spec_receive(old(self)@).0,
            final(self)@ == (ClientView {
                buffer: spec_receive(old(self)@).1,
                client_version: spec_version_after(old(self)@.client_version, received@),
                ..old(self)@
            }),
    {
        let mut cursor = McDeserializer::new(self.buffer.as_slice());
        let received = match self.compression_threshold {
            None => match registry.decode_frame(
                self.packet_state,
                PacketDirection::SERVER,
                &mut cursor,
            ) {
                Ok(packet) => Received::Packet(packet),
                Err(e) => {
                    if cursor.remaining() == self.buffer.len() && e.is_recoverable() {
                        Received::Incomplete
                    } else {
                        Received::Malformed(e)
                    }
                },
            },
            Some(_) => match read_compressed_frame(&mut cursor) {
                Ok((data_length, data)) => {
                    if data_length == 0 {
                        let mut body = McDeserializer::new(data);
                        match registry.decode_body(
                            self.packet_state,
                            PacketDirection::SERVER,
                            &mut body,
                        ) {
                            Ok(packet) => Received::Packet(packet),
                            Err(e) => Received::Malformed(e),
                        }
                    } else {
                        Received::Inflate { data_length, deflated: slice_to_vec(data) }
                    }
                },
                Err(e) => {
                    if cursor.remaining() == self.buffer.len() && e.is_recoverable() {
                        Received::Incomplete
                    } else {
                        Received::Malformed(e)
                    }
                },
            },
        };
        let rest = slice_to_vec(cursor.collect_remaining());
        proof {
            assert(old(self)@.buffer.skip(0) =~= old(self)@.buffer);
        }
        self.buffer = rest;
        match &received {
            Received::Packet(packet) => {
                match announced_version(packet) {
                    Some(version) => {
                        self.client_version = Some(version);
                    },
                    None => {},
                }
            },
            _ => {},
        }
        received
    }

    /// The step that follows `Received::Inflate`: decodes what the host's
    /// inflating gave, in the connection's state and for the direction of
    /// the server.
    pub fn receive_inflated(&self, registry: &Registry, data_length: usize, inflated: &[u8]) -> (r:
        Result<Packet, SerializingErr>)
        ensures
            match spec_receive_inflated(self@.packet_state, data_length as nat, inflated@) {
                Ok(packet) => r is Ok && r->Ok_0@ == packet,
                Err(e) => r is Err && r->Err_0 == e,
            },
    {
        if inflated.len() < data_length {
            return Err(SerializingErr::InputEnded);
        }
        if inflated.len() > data_length {
            return Err(SerializingErr::LeftoverInput);
        }
        let mut body = McDeserializer::new(inflated);
        registry.decode_body(self.packet_state, PacketDirection::SERVER, &mut body)
    }

    /// What the host is to do with `packet`: the bytes to write, or the
    /// bytes to deflate first. The packet is not held against the packet
    /// table: only a packet that is one of its row is sure to be read back
    /// by the peer.
    pub fn send_packet(&self, packet: &Packet) -> (r: Result<Outbound, SerializingErr>)
        ensures
            match spec_send(self@.compression_threshold, packet@) {
                Ok(outbound) => r is Ok && r->Ok_0@ == outbound,
                Err(e) => r is Err && r->Err_0 == e,
            },
    {
        match self.compression_threshold {
            None => {
                let mut serializer = McSerializer::new();
                match encode_packet(packet, &mut serializer) {
                    Ok(()) => {
                        proof {
                            let bytes = spec_encode_packet(packet@)->Ok_0;
                            assert(serializer@ =~= bytes);
                        }
                        Ok(Outbound::Frame(serializer.output))
                    },
                    Err(e) => Err(e),
                }
            },
            Some(threshold) => match encode_body(packet) {
                Ok(body) => {
                    if needs_compression(body.len(), threshold) {
                        Ok(Outbound::Deflate(body))
                    } else {
                        let mut serializer = McSerializer::new();
                        match frame_compressed(0, body.as_slice(), &mut serializer) {
                            Ok(()) => {
                                proof {
                                    let bytes = spec_compressed_frame(0, body@)->Ok_0;
                                    assert(serializer@ =~= bytes);
                                }
                                Ok(Outbound::Frame(serializer.output))
                            },
                            Err(e) => Err(e),
                        }
                    }
                },
                Err(e) => Err(e),
            },
        }
    }
}

/// The protocol version that `packet` announces: that of a handshake, and
/// of nothing else.
pub fn announced_version(packet: &Packet) -> (version: Option<VarInt>)
    ensures
        match spec_announced_version(packet@) {
            Some(number) => version == Some(VarInt(number)),
            None => version is None,
        },
{
    if packet.state == PacketState::HANDSHAKING && packet.direction == PacketDirection::SERVER
        && packet.packet_id.0 == 0 && packet.fields.len() > 0 {
        match &packet.fields[0] {
            FieldValue::VarInt(version) => Some(*version),
            _ => None,
        }
    } else {
        None
    }
}

/// While only a part of the next frame is buffered, a step of receiving
/// gives `Incomplete` and keeps the part: whatever the part holds, it is
/// taken neither for a packet nor for a malformed frame.
pub proof fn lemma_partial_frame_waits(client: ClientView, k: int)
    requires
        spec_read_prefixed(client.buffer, MAX_FRAME_LENGTH as nat) matches Ok((_, len)) && 0 <= k
            < len,
    ensures
        spec_receive(ClientView { buffer: client.buffer.take(k), ..client }) == (
            ReceivedView::Incomplete,
            client.buffer.take(k),
        ),
{
    lemma_prefixed_cut(client.buffer, MAX_FRAME_LENGTH as nat, k);
}

/// What a step of receiving gives depends on the bytes that were read, not
/// on the reads that delivered them: three chunks taken one after the other
/// leave the buffer, and so the next step, as one chunk of all their bytes
/// does.
pub proof fn lemma_split_delivery(client: ClientView, first: Seq<u8>, second: Seq<u8>, third: Seq<u8>)
    ensures
        spec_receive(ClientView { buffer: ((client.buffer + first) + second) + third, ..client })
            == spec_receive(
            ClientView { buffer: client.buffer + (first + second + third), ..client },
        ),
{
    assert(((client.buffer + first) + second) + third =~= client.buffer + (first + second + third));
}

/// A step of receiving never gives up bytes that belong to a later frame:
/// what is left in the buffer is what followed the frame that was taken.
pub proof fn lemma_receive_keeps_the_rest(client: ClientView)
    ensures
        match spec_read_prefixed(client.buffer, MAX_FRAME_LENGTH as nat) {
            Ok((_, len)) => len <= client.buffer.len() && spec_receive(client).1
                == client.buffer.skip(len as int),
            Err(_) => spec_receive(client).1 == client.buffer,
        },
{
    lemma_read_var_bounds(client.buffer, 5);
}

} // verus!
