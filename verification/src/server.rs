//! One connection: the receive buffer, the protocol phase, the extraction of
//! frames from the buffer and the reaction to each packet. Reading from and
//! writing to the socket is left to the caller, who appends what arrived and
//! sends what a reaction asks for.

use crate::buffer::{
    advance, as_slice, be_bytes, buffer_len, contents, lemma_be_bytes_len, max_len, new_buffer,
    pattern64, put_slice, split_to,
};
use crate::packets::{
    decode_packet_spec, handshake_wire, lemma_handshake_round_trip, lemma_ping_round_trip,
    HandshakeView, string_wire, ConnectionState, DecodedPacket, DecodedView, HandshakePacket,
    Packet, PacketError, PacketErrorView, PacketRegistry, PingRequestPacket, PongResponsePacket,
    StatusResponsePacket,
};
use crate::utility::{
    decode_varint, encode_varint, lemma_decode_prefix, lemma_stop_index_bounds,
    lemma_varint_round_trip, peek_varint,
    read_varint, write_varint, VarIntParse,
};
use bytes::BytesMut;
use vstd::prelude::*;
use vstd::utf8::encode_utf8;

verus! {

/// What the head of a receive buffer holds.
pub enum FrameView {
    /// No whole frame yet: the buffer stays as it is until more bytes arrive.
    Wait,
    /// A violation of the protocol, and what is left in the buffer.
    Bad { error: PacketErrorView, rest: Seq<u8> },
    /// A frame: its packet identifier, its payload, and what follows it.
    Ready { packet_id: i32, payload: Seq<u8>, rest: Seq<u8> },
}

/// Extracting one frame from the head of `bytes`. A frame is a length as a
/// variable-length integer, then that many bytes: the packet identifier as a
/// variable-length integer, then the payload. Nothing is taken out of the
/// buffer before the whole frame is there.
pub open spec fn next_frame(bytes: Seq<u8>) -> FrameView {
    match decode_varint(bytes) {
        VarIntParse::Incomplete => FrameView::Wait,
        VarIntParse::TooLong => FrameView::Bad {
            error: PacketErrorView::InvalidVarInt,
            rest: bytes,
        },
        VarIntParse::Value { value: length, used } => {
            if length < 0 {
                FrameView::Bad {
                    error: PacketErrorView::Custom("Invalid packet length"@),
                    rest: bytes,
                }
            } else if bytes.len() < used + length {
                FrameView::Wait
            } else {
                let body = bytes.subrange(used as int, used + length);
                let rest = bytes.skip(used + length);
                match decode_varint(body) {
                    VarIntParse::Value { value: packet_id, used: id_used } => FrameView::Ready {
                        packet_id,
                        payload: body.skip(id_used as int),
                        rest,
                    },
                    VarIntParse::TooLong => FrameView::Bad {
                        error: PacketErrorView::InvalidVarInt,
                        rest,
                    },
                    VarIntParse::Incomplete => FrameView::Bad {
                        error: PacketErrorView::Custom("Not enough data for packet content"@),
                        rest,
                    },
                }
            }
        },
    }
}

/// A frame on the wire: the length of what follows, the packet identifier,
/// the payload.
pub open spec fn frame_wire(packet_id: i32, payload: Seq<u8>) -> Seq<u8> {
    encode_varint((encode_varint(packet_id).len() + payload.len()) as i32) + encode_varint(
        packet_id,
    ) + payload
}

/// Whether a status response with this text can be framed: the text and the
/// frame must each be no longer than a length field can say.
pub open spec fn status_fits(json_response: Seq<char>) -> bool {
    encode_utf8(json_response).len() <= i32::MAX && 1 + string_wire(json_response).len()
        <= i32::MAX
}

/// A buffer waits for more bytes exactly when its length prefix is incomplete
/// or announces more bytes than are there; a prefix that is complete and
/// answered by enough bytes gives a frame or a fatal error, never a wait.
pub proof fn lemma_frame_boundary(bytes: Seq<u8>)
    ensures
        next_frame(bytes) == FrameView::Wait <==> (decode_varint(bytes) == VarIntParse::Incomplete
            || (decode_varint(bytes) matches VarIntParse::Value { value, used } && value >= 0
            && bytes.len() < used + value)),
        next_frame(Seq::<u8>::empty()) == FrameView::Wait,
{
}

/// A frame that was written is read back: from a buffer that starts with the
/// frame of an identifier and a payload, exactly that identifier and payload
/// come out, and what followed the frame stays.
pub proof fn lemma_frame_round_trip(packet_id: i32, payload: Seq<u8>, tail: Seq<u8>)
    requires
        encode_varint(packet_id).len() + payload.len() <= i32::MAX,
    ensures
        next_frame(frame_wire(packet_id, payload) + tail) == (FrameView::Ready {
            packet_id,
            payload,
            rest: tail,
        }),
{
    let id_bytes = encode_varint(packet_id);
    let length = (id_bytes.len() + payload.len()) as i32;
    let prefix = encode_varint(length);
    let bytes = frame_wire(packet_id, payload) + tail;
    lemma_varint_round_trip(length, id_bytes + payload + tail);
    lemma_varint_round_trip(packet_id, payload);
    assert(bytes =~= prefix + (id_bytes + payload + tail));
    let used = prefix.len();
    let body = bytes.subrange(used as int, used + length);
    assert(body =~= id_bytes + payload);
    assert(body.skip(id_bytes.len() as int) =~= payload);
    assert(bytes.skip(used + length) =~= tail);
}

/// Any strict prefix of a frame waits: it is no frame and no error, whether
/// the cut falls inside the length prefix, right after it, or in the payload.
pub proof fn lemma_frame_prefix_waits(packet_id: i32, payload: Seq<u8>, cut: int)
    requires
        encode_varint(packet_id).len() + payload.len() <= i32::MAX,
        0 <= cut < frame_wire(packet_id, payload).len(),
    ensures
        next_frame(frame_wire(packet_id, payload).subrange(0, cut)) == FrameView::Wait,
{
    let id_bytes = encode_varint(packet_id);
    let length = (id_bytes.len() + payload.len()) as i32;
    let whole = frame_wire(packet_id, payload);
    lemma_varint_round_trip(length, id_bytes + payload);
    assert(whole =~= encode_varint(length) + (id_bytes + payload));
    lemma_decode_prefix(whole, cut);
}

/// A frame that arrives in two parts is dispatched once, as if it had come
/// whole: the first part alone changes nothing, and once the second part is
/// appended the step is the step on the whole frame.
pub proof fn lemma_partial_read(
    state: ConnectionState,
    packet_id: i32,
    payload: Seq<u8>,
    cut: int,
)
    requires
        encode_varint(packet_id).len() + payload.len() <= i32::MAX,
        0 <= cut < frame_wire(packet_id, payload).len(),
    ensures
        step_spec(state, frame_wire(packet_id, payload).subrange(0, cut)) == StepView::Wait,
        frame_wire(packet_id, payload).subrange(0, cut) + frame_wire(packet_id, payload).skip(cut)
            == frame_wire(packet_id, payload),
        step_spec(state, frame_wire(packet_id, payload)) == (match decode_packet_spec(
            state,
            packet_id,
            payload,
        ).0 {
            Ok(packet) => StepView::Dispatched {
                reaction: reaction_to(packet),
                state: state_after(state, packet),
                rest: Seq::<u8>::empty(),
            },
            Err(error) => StepView::Closed { error, rest: Seq::<u8>::empty() },
        }),
{
    let whole = frame_wire(packet_id, payload);
    lemma_frame_prefix_waits(packet_id, payload, cut);
    lemma_frame_round_trip(packet_id, payload, Seq::<u8>::empty());
    assert(whole + Seq::<u8>::empty() =~= whole);
    assert(whole.subrange(0, cut) + whole.skip(cut) =~= whole);
}

/// A frame taken out of a receive buffer.
pub struct Frame {
    pub packet_id: i32,
    pub payload: BytesMut,
}

/// What the server owes the client after a packet.
#[derive(Debug, PartialEq, Eq, Structural, Clone, Copy)]
pub enum Reaction {
    /// No answer.
    Nothing,
    /// The server's description, in a status response.
    Status,
    /// A pong that carries this payload.
    Pong(i64),
}

/// The reaction that a packet calls for: a status request is answered with
/// the status, a ping with a pong of the same payload, the rest with nothing.
pub open spec fn reaction_to(packet: DecodedView) -> Reaction {
    match packet {
        DecodedView::StatusRequest => Reaction::Status,
        DecodedView::PingRequest(payload) => Reaction::Pong(payload),
        _ => Reaction::Nothing,
    }
}

/// The phase after a packet: a handshake leads to the status phase whatever
/// phase it asks for; no other packet changes the phase.
pub open spec fn state_after(state: ConnectionState, packet: DecodedView) -> ConnectionState {
    match packet {
        DecodedView::Handshake(_) => ConnectionState::Status,
        _ => state,
    }
}

/// One step of a connection over its buffer.
pub enum StepView {
    /// No whole frame: nothing changes.
    Wait,
    /// A fatal error: the connection is to be closed. The phase stays; `rest`
    /// is what the buffer still holds.
    Closed { error: PacketErrorView, rest: Seq<u8> },
    /// One packet was dispatched.
    Dispatched { reaction: Reaction, state: ConnectionState, rest: Seq<u8> },
}

/// One step: extract a frame, decode its payload as the packet that its
/// identifier names in the current phase, and react.
pub open spec fn step_spec(state: ConnectionState, bytes: Seq<u8>) -> StepView {
    match next_frame(bytes) {
        FrameView::Wait => StepView::Wait,
        FrameView::Bad { error, rest } => StepView::Closed { error, rest },
        FrameView::Ready { packet_id, payload, rest } => match decode_packet_spec(
            state,
            packet_id,
            payload,
        ).0 {
            Ok(packet) => StepView::Dispatched {
                reaction: reaction_to(packet),
                state: state_after(state, packet),
                rest,
            },
            Err(error) => StepView::Closed { error, rest },
        },
    }
}

/// A ping in the status phase is answered with a pong of the same payload,
/// and what followed its frame stays in the buffer.
pub proof fn lemma_ping_is_answered(payload: i64, tail: Seq<u8>)
    ensures
        step_spec(
            ConnectionState::Status,
            frame_wire(1, be_bytes(pattern64(payload), 8)) + tail,
        ) == (StepView::Dispatched {
            reaction: Reaction::Pong(payload),
            state: ConnectionState::Status,
            rest: tail,
        }),
{
    let wire = be_bytes(pattern64(payload), 8);
    lemma_be_bytes_len(pattern64(payload), 8);
    lemma_varint_round_trip(1, Seq::<u8>::empty());
    lemma_frame_round_trip(1, wire, tail);
    lemma_ping_round_trip(payload, Seq::<u8>::empty());
    assert(wire + Seq::<u8>::empty() =~= wire);
}

/// A frame whose identifier names no packet in the current phase closes the
/// connection, whatever its payload; the phase stays as it was.
pub proof fn lemma_unknown_id_closes(
    state: ConnectionState,
    packet_id: i32,
    payload: Seq<u8>,
    tail: Seq<u8>,
)
    requires
        encode_varint(packet_id).len() + payload.len() <= i32::MAX,
        !((state == ConnectionState::Handshake && packet_id == 0) || (state
            == ConnectionState::Status && (packet_id == 0 || packet_id == 1))),
    ensures
        step_spec(state, frame_wire(packet_id, payload) + tail) == (StepView::Closed {
            error: PacketErrorView::InvalidPacketId(packet_id),
            rest: tail,
        }),
{
    lemma_frame_round_trip(packet_id, payload, tail);
}

/// A handshake followed by a status request: the handshake moves the
/// connection to the status phase and is answered with nothing; the request
/// that follows is then answered with the status.
pub proof fn lemma_handshake_then_status(p: HandshakeView, tail: Seq<u8>)
    requires
        encode_utf8(p.server_address).len() <= i32::MAX,
        1 + handshake_wire(p).len() <= i32::MAX,
    ensures
        step_spec(
            ConnectionState::Handshake,
            frame_wire(0, handshake_wire(p)) + (frame_wire(0, Seq::<u8>::empty()) + tail),
        ) == (StepView::Dispatched {
            reaction: Reaction::Nothing,
            state: ConnectionState::Status,
            rest: frame_wire(0, Seq::<u8>::empty()) + tail,
        }),
        step_spec(ConnectionState::Status, frame_wire(0, Seq::<u8>::empty()) + tail) == (
        StepView::Dispatched {
            reaction: Reaction::Status,
            state: ConnectionState::Status,
            rest: tail,
        }),
{
    let wire = handshake_wire(p);
    lemma_varint_round_trip(0, Seq::<u8>::empty());
    assert(encode_varint(0) =~= seq![0u8]);
    lemma_frame_round_trip(0, wire, frame_wire(0, Seq::<u8>::empty()) + tail);
    lemma_handshake_round_trip(p, Seq::<u8>::empty());
    assert(wire + Seq::<u8>::empty() =~= wire);
    lemma_frame_round_trip(0, Seq::<u8>::empty(), tail);
}

/// The state of one connection: the bytes received and not yet consumed, and
/// the protocol phase.
pub struct Connection {
    pub buffer: BytesMut,
    pub state: ConnectionState,
}

impl Connection {
    /// A fresh connection: nothing received, in the handshake phase.
    pub fn new() -> (c: Connection)
        ensures
            contents(c.buffer) == Seq::<u8>::empty(),
            c.state == ConnectionState::Handshake,
    {
        Connection { buffer: new_buffer(), state: ConnectionState::Handshake }
    }

    /// Appends bytes that arrived from the peer.
    pub fn receive(&mut self, data: &[u8])
        requires
            contents(old(self).buffer).len() + data@.len() <= max_len(),
        ensures
            contents(final(self).buffer) == contents(old(self).buffer) + data@,
            final(self).state == old(self).state,
    {
        put_slice(&mut self.buffer, data);
    }

    /// Takes one frame out of the buffer, if a whole one is there.
    pub fn next_frame(&mut self) -> (r: Result<Option<Frame>, PacketError>)
        ensures
            final(self).state == old(self).state,
            match next_frame(contents(old(self).buffer)) {
                FrameView::Wait => r matches Ok(None) && contents(final(self).buffer) == contents(
                    old(self).buffer,
                ),
                FrameView::Bad { error, rest } => r matches Err(e) && e@ == error && contents(
                    final(self).buffer,
                ) == rest,
                FrameView::Ready { packet_id, payload, rest } => r matches Ok(Some(f))
                    && f.packet_id == packet_id && contents(f.payload) == payload && contents(
                    final(self).buffer,
                ) == rest,
            },
    {
        proof {
            lemma_stop_index_bounds(contents(self.buffer), 0);
        }
        let (length, used) = match peek_varint(&self.buffer) {
            Ok(pair) => pair,
            Err(PacketError::InsufficientData) => {
                return Ok(None);
            },
            Err(e) => {
                return Err(e);
            },
        };
        if length < 0 {
            return Err(PacketError::Custom("Invalid packet length".to_owned()));
        }
        let length: usize = length as usize;
        if buffer_len(&self.buffer) - used < length {
            return Ok(None);
        }
        advance(&mut self.buffer, used);
        let mut body = split_to(&mut self.buffer, length);
        assert(contents(body) =~= contents(old(self).buffer).subrange(
            used as int,
            used + length,
        ));
        assert(contents(self.buffer) =~= contents(old(self).buffer).skip(used + length));
        match read_varint(&mut body) {
            Ok((packet_id, _)) => Ok(Some(Frame { packet_id, payload: body })),
            Err(PacketError::InsufficientData) => Err(
                PacketError::Custom("Not enough data for packet content".to_owned()),
            ),
            Err(e) => Err(e),
        }
    }

    /// One step of the connection: extracts a frame, decodes it and reacts.
    /// `Ok(None)` says that no whole frame is buffered; an error is fatal.
    pub fn step(&mut self) -> (r: Result<Option<Reaction>, PacketError>)
        ensures
            match step_spec(old(self).state, contents(old(self).buffer)) {
                StepView::Wait => r matches Ok(None) && final(self).state == old(self).state
                    && contents(final(self).buffer) == contents(old(self).buffer),
                StepView::Closed { error, rest } => r matches Err(e) && e@ == error
                    && final(self).state == old(self).state
                    && contents(final(self).buffer) == rest,
                StepView::Dispatched { reaction, state, rest } => r == Ok::<
                    Option<Reaction>,
                    PacketError,
                >(Some(reaction)) && final(self).state == state && contents(final(self).buffer)
                    == rest,
            },
    {
        let frame = match self.next_frame() {
            Ok(Some(frame)) => frame,
            Ok(None) => {
                return Ok(None);
            },
            Err(e) => {
                return Err(e);
            },
        };
        let mut payload = frame.payload;
        match PacketRegistry::decode_packet(self.state, frame.packet_id, &mut payload) {
            Ok(packet) => Ok(Some(Server::handle_decoded_packet(&mut self.state, packet))),
            Err(e) => Err(e),
        }
    }
}

/// The server: it holds the packet registry that its connections share.
pub struct Server {
    pub packet_registry: PacketRegistry,
}

impl Server {
    pub fn new() -> (server: Server)
        ensures
            server.packet_registry == PacketRegistry,
    {
        Server { packet_registry: PacketRegistry::new() }
    }

    /// Reacts to a packet: moves the phase on and says what is owed.
    pub fn handle_decoded_packet(
        current_state: &mut ConnectionState,
        decoded_packet: DecodedPacket,
    ) -> (reaction: Reaction)
        ensures
            reaction == reaction_to(decoded_packet@),
            *final(current_state) == state_after(*old(current_state), decoded_packet@),
    {
        match decoded_packet {
            DecodedPacket::Handshake(packet) => {
                Self::handle_handshake_packet(current_state, packet);
                Reaction::Nothing
            },
            DecodedPacket::StatusRequest(_) => Reaction::Status,
            DecodedPacket::PingRequest(packet) => Reaction::Pong(packet.payload),
            DecodedPacket::PongResponse(_) => Reaction::Nothing,
            DecodedPacket::StatusResponse(_) => Reaction::Nothing,
        }
    }

    /// A handshake moves the connection to the status phase, whatever phase
    /// the packet asks for.
    pub fn handle_handshake_packet(current_state: &mut ConnectionState, packet: HandshakePacket)
        ensures
            *final(current_state) == ConnectionState::Status,
    {
        *current_state = ConnectionState::Status;
    }

    /// Frames a payload: the length of identifier and payload, the
    /// identifier, the payload. A frame longer than a length field can say is
    /// refused.
    pub fn frame(packet_id: i32, payload: &BytesMut) -> (r: Result<BytesMut, PacketError>)
        requires
            contents(*payload).len() + 10 <= max_len(),
        ensures
            encode_varint(packet_id).len() + contents(*payload).len() <= i32::MAX ==> (r matches Ok(
                framed,
            ) && contents(framed) == frame_wire(packet_id, contents(*payload))),
            encode_varint(packet_id).len() + contents(*payload).len() > i32::MAX ==> (r matches Err(
                e,
            ) && e@ == PacketErrorView::Custom("Frame too long"@)),
    {
        proof {
            lemma_varint_round_trip(packet_id, Seq::<u8>::empty());
        }
        let mut body = new_buffer();
        write_varint(&mut body, packet_id);
        assert(contents(body) =~= encode_varint(packet_id));
        put_slice(&mut body, as_slice(payload));
        let length: usize = buffer_len(&body);
        if length > 0x7fff_ffff {
            return Err(PacketError::Custom("Frame too long".to_owned()));
        }
        let mut framed = new_buffer();
        proof {
            lemma_varint_round_trip(length as i32, Seq::<u8>::empty());
        }
        write_varint(&mut framed, length as i32);
        put_slice(&mut framed, as_slice(&body));
        assert(contents(framed) =~= frame_wire(packet_id, contents(*payload)));
        Ok(framed)
    }

    /// The answer to a status request: the description, as JSON text, in a
    /// framed status response.
    pub fn handle_status_request_packet(json_response: String) -> (r: Result<
        BytesMut,
        PacketError,
    >)
        requires
            string_wire(json_response@).len() + 10 <= max_len(),
        ensures
            status_fits(json_response@) ==> (r matches Ok(framed) && contents(framed)
                == frame_wire(0, string_wire(json_response@))),
            encode_utf8(json_response@).len() > i32::MAX ==> (r matches Err(e) && e@
                == PacketErrorView::Custom("Status response too long"@)),
            encode_utf8(json_response@).len() <= i32::MAX && !status_fits(json_response@) ==> (
            r matches Err(e) && e@ == PacketErrorView::Custom("Frame too long"@)),
    {
        let packet = StatusResponsePacket { json_response };
        let mut body = new_buffer();
        proof {
            lemma_varint_round_trip(encode_utf8(json_response@).len() as i32, Seq::<u8>::empty());
            lemma_varint_round_trip(0, Seq::<u8>::empty());
            assert(encode_varint(0) =~= seq![0u8]);
        }
        match packet.write(&mut body) {
            Ok(()) => {},
            Err(e) => {
                return Err(e);
            },
        }
        assert(contents(body) =~= string_wire(json_response@));
        Self::frame(packet.get_id(), &body)
    }

    /// The answer to a ping: a framed pong with the same payload. It never
    /// fails.
    pub fn handle_ping_request_packet(packet: PingRequestPacket) -> (r: Result<
        BytesMut,
        PacketError,
    >)
        ensures
            r matches Ok(framed) && contents(framed) == frame_wire(
                1,
                be_bytes(pattern64(packet.payload), 8),
            ),
    {
        let pong = PongResponsePacket { payload: packet.payload };
        let mut body = new_buffer();
        proof {
            lemma_be_bytes_len(pattern64(packet.payload), 8);
            lemma_varint_round_trip(1, Seq::<u8>::empty());
        }
        match pong.write(&mut body) {
            Ok(()) => {},
            Err(e) => {
                return Err(e);
            },
        }
        assert(contents(body) =~= be_bytes(pattern64(packet.payload), 8));
        Self::frame(pong.get_id(), &body)
    }
}

} // verus!
