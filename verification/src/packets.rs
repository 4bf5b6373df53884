//! Packets, the protocol phases and the registry that tells which packet an
//! identifier names in which phase.

use crate::buffer::{
    be_bytes, be_value, buffer_len, contents, copy_to_vec, get_i64, get_u16, lemma_be_bytes_len,
    lemma_be_round_trip, pow256,
    max_len, pattern64,
    put_i64, put_slice, put_u16, signed64, text_from_utf8,
};
use crate::utility::{
    after_varint, decode_varint, encode_varint, lemma_varint_round_trip, read_varint,
    varint_error, write_varint, VarIntParse,
};
use bytes::BytesMut;
use vstd::prelude::*;
use vstd::string::{to_string_from_display_ensures, StringExecFns};
use vstd::utf8::{decode_utf8, encode_utf8, valid_utf8};

verus! {

/// Why a packet could not be read.
#[derive(Debug)]
pub enum PacketError {
    /// The bytes ran out before the value was complete: more may still come.
    InsufficientData,
    /// No packet has this identifier in the current phase.
    InvalidPacketId(i32),
    /// A variable-length integer went past five bytes.
    InvalidVarInt,
    /// Another violation of the protocol, in words.
    Custom(String),
}

/// A `PacketError` with its message as a sequence of characters.
pub enum PacketErrorView {
    InsufficientData,
    InvalidPacketId(i32),
    InvalidVarInt,
    Custom(Seq<char>),
}

impl View for PacketError {
    type V = PacketErrorView;

    open spec fn view(&self) -> PacketErrorView {
        match self {
            PacketError::InsufficientData => PacketErrorView::InsufficientData,
            PacketError::InvalidPacketId(id) => PacketErrorView::InvalidPacketId(*id),
            PacketError::InvalidVarInt => PacketErrorView::InvalidVarInt,
            PacketError::Custom(msg) => PacketErrorView::Custom(msg@),
        }
    }
}

/// What `message` says of an error.
pub open spec fn message_spec(error: PacketErrorView, digits: Seq<char>) -> Seq<char> {
    match error {
        PacketErrorView::InsufficientData => "Insufficient data"@,
        PacketErrorView::InvalidPacketId(_) => "Invalid packet ID: "@ + digits,
        PacketErrorView::InvalidVarInt => "Invalid VarInt"@,
        PacketErrorView::Custom(msg) => "Custom packet error: "@ + msg,
    }
}

impl PacketError {
    /// The error in words. For an invalid identifier the words end in the
    /// identifier as `to_string` prints it.
    pub fn message(&self) -> (text: String)
        ensures
            self matches PacketError::InvalidPacketId(id) ==> exists|digits: String|
                #[trigger] to_string_from_display_ensures::<i32>(&id, digits) && text@
                    == message_spec(self@, digits@),
            !(self is InvalidPacketId) ==> text@ == message_spec(self@, Seq::<char>::empty()),
    {
        match self {
            PacketError::InsufficientData => "Insufficient data".to_owned(),
            PacketError::InvalidPacketId(id) => {
                let digits = id.to_string();
                let text = "Invalid packet ID: ".to_owned().concat(digits.as_str());
                assert(to_string_from_display_ensures::<i32>(id, digits) && text@ == message_spec(
                    self@,
                    digits@,
                ));
                text
            },
            PacketError::InvalidVarInt => "Invalid VarInt".to_owned(),
            PacketError::Custom(msg) => "Custom packet error: ".to_owned().concat(msg.as_str()),
        }
    }
}

/// The phase of the protocol that a connection is in.
#[derive(Debug, PartialEq, Eq, Structural, Hash, Clone, Copy)]
pub enum ConnectionState {
    Handshake,
    Status,
    Login,
    Configuration,
    Play,
}

/// The first packet of a connection: the client's protocol version, the
/// address and port it dialled, and the phase it asks for.
#[derive(Debug, Default)]
pub struct HandshakePacket {
    pub protocol_version: i32,
    pub server_address: String,
    pub server_port: u16,
    pub next_state: i32,
}

/// A `HandshakePacket` with its address as a sequence of characters.
pub struct HandshakeView {
    pub protocol_version: i32,
    pub server_address: Seq<char>,
    pub server_port: u16,
    pub next_state: i32,
}

impl View for HandshakePacket {
    type V = HandshakeView;

    open spec fn view(&self) -> HandshakeView {
        HandshakeView {
            protocol_version: self.protocol_version,
            server_address: self.server_address@,
            server_port: self.server_port,
            next_state: self.next_state,
        }
    }
}

/// The request for the server's description. It has no fields.
#[derive(Debug, Default)]
pub struct StatusRequestPacket {}

/// The keepalive request: eight bytes that the server sends back.
#[derive(Debug, Default)]
pub struct PingRequestPacket {
    pub payload: i64,
}

/// The keepalive answer.
#[derive(Debug, Default)]
pub struct PongResponsePacket {
    pub payload: i64,
}

/// The server's description, as JSON text.
#[derive(Debug, Default)]
pub struct StatusResponsePacket {
    pub json_response: String,
}

/// A packet together with its kind.
pub enum DecodedPacket {
    Handshake(HandshakePacket),
    StatusRequest(StatusRequestPacket),
    PingRequest(PingRequestPacket),
    PongResponse(PongResponsePacket),
    StatusResponse(StatusResponsePacket),
}

/// A `DecodedPacket` with its texts as sequences of characters.
pub enum DecodedView {
    Handshake(HandshakeView),
    StatusRequest,
    PingRequest(i64),
    PongResponse(i64),
    StatusResponse(Seq<char>),
}

impl View for DecodedPacket {
    type V = DecodedView;

    open spec fn view(&self) -> DecodedView {
        match self {
            DecodedPacket::Handshake(p) => DecodedView::Handshake(p@),
            DecodedPacket::StatusRequest(_) => DecodedView::StatusRequest,
            DecodedPacket::PingRequest(p) => DecodedView::PingRequest(p.payload),
            DecodedPacket::PongResponse(p) => DecodedView::PongResponse(p.payload),
            DecodedPacket::StatusResponse(p) => DecodedView::StatusResponse(p.json_response@),
        }
    }
}

/// A result with both sides taken by their views.
pub open spec fn result_view<T: View, E: View>(r: Result<T, E>) -> Result<T::V, E::V> {
    match r {
        Ok(v) => Ok(v@),
        Err(e) => Err(e@),
    }
}

/// A text on the wire: the length of its UTF-8 bytes as a variable-length
/// integer, then the bytes.
pub open spec fn string_wire(text: Seq<char>) -> Seq<u8> {
    encode_varint(encode_utf8(text).len() as i32) + encode_utf8(text)
}

/// The payload of a handshake on the wire.
pub open spec fn handshake_wire(p: HandshakeView) -> Seq<u8> {
    encode_varint(p.protocol_version) + string_wire(p.server_address) + be_bytes(
        p.server_port as nat,
        2,
    ) + encode_varint(p.next_state)
}

/// Reading the port and the requested phase, the last two fields of a
/// handshake, with what stays in the buffer.
pub open spec fn parse_handshake_tail(
    protocol_version: i32,
    server_address: Seq<char>,
    bytes: Seq<u8>,
) -> (Result<HandshakeView, PacketErrorView>, Seq<u8>) {
    if bytes.len() < 2 {
        (Err(PacketErrorView::InsufficientData), bytes)
    } else {
        match decode_varint(bytes.skip(2)) {
            VarIntParse::Value { value, .. } => (
                Ok(
                    HandshakeView {
                        protocol_version,
                        server_address,
                        server_port: be_value(bytes, 2) as u16,
                        next_state: value,
                    },
                ),
                after_varint(bytes.skip(2)),
            ),
            _ => (Err(varint_error(bytes.skip(2))), after_varint(bytes.skip(2))),
        }
    }
}

/// Reading the address of a handshake and what follows it.
pub open spec fn parse_handshake_address(protocol_version: i32, bytes: Seq<u8>) -> (
    Result<HandshakeView, PacketErrorView>,
    Seq<u8>,
) {
    match decode_varint(bytes) {
        VarIntParse::Value { value: len, used } => {
            let body = bytes.skip(used as int);
            if len < 0 {
                (
                    Err(PacketErrorView::Custom("Server address length cannot be negative"@)),
                    body,
                )
            } else if body.len() < len {
                (Err(PacketErrorView::InsufficientData), body)
            } else if !valid_utf8(body.subrange(0, len as int)) {
                (
                    Err(PacketErrorView::Custom("Invalid UTF-8 for server address"@)),
                    body.skip(len as int),
                )
            } else {
                parse_handshake_tail(
                    protocol_version,
                    decode_utf8(body.subrange(0, len as int)),
                    body.skip(len as int),
                )
            }
        },
        _ => (Err(varint_error(bytes)), after_varint(bytes)),
    }
}

/// Reading a handshake from the head of `bytes`: the packet or the error, and
/// what stays in the buffer. A read that fails has taken out what it had read
/// up to there.
pub open spec fn parse_handshake(bytes: Seq<u8>) -> (
    Result<HandshakeView, PacketErrorView>,
    Seq<u8>,
) {
    match decode_varint(bytes) {
        VarIntParse::Value { value, used } => parse_handshake_address(
            value,
            bytes.skip(used as int),
        ),
        _ => (Err(varint_error(bytes)), after_varint(bytes)),
    }
}

/// A handshake that was written is read back: from a buffer that starts with
/// the fields of a handshake whose address fits its length field, exactly that
/// handshake comes out, and what followed it stays.
pub proof fn lemma_handshake_round_trip(p: HandshakeView, rest: Seq<u8>)
    requires
        encode_utf8(p.server_address).len() <= i32::MAX,
    ensures
        parse_handshake(handshake_wire(p) + rest) == (
            Ok::<HandshakeView, PacketErrorView>(p),
            rest,
        ),
{
    let text = encode_utf8(p.server_address);
    let length = text.len() as i32;
    let port = be_bytes(p.server_port as nat, 2);
    let state = encode_varint(p.next_state);
    let after_port = state + rest;
    let after_text = port + after_port;
    let after_length = text + after_text;
    let after_version = encode_varint(length) + after_length;
    let bytes = handshake_wire(p) + rest;
    lemma_be_bytes_len(p.server_port as nat, 2);
    assert(bytes =~= encode_varint(p.protocol_version) + after_version);
    lemma_varint_round_trip(p.protocol_version, after_version);
    let used = encode_varint(p.protocol_version).len();
    assert(bytes.skip(used as int) =~= after_version);
    lemma_varint_round_trip(length, after_length);
    let used_length = encode_varint(length).len();
    assert(after_version.skip(used_length as int) =~= after_length);
    assert(after_length.subrange(0, length as int) =~= text);
    assert(after_length.skip(length as int) =~= after_text);
    vstd::utf8::encode_utf8_valid_utf8(p.server_address);
    vstd::utf8::encode_utf8_decode_utf8(p.server_address);
    assert(pow256(2) == 65536) by {
        reveal_with_fuel(pow256, 3);
    }
    lemma_be_round_trip(p.server_port as nat, 2, after_port);
    assert(after_text.skip(2) =~= after_port);
    lemma_varint_round_trip(p.next_state, rest);
    assert(after_port.skip(state.len() as int) =~= rest);
    assert(parse_handshake_tail(p.protocol_version, p.server_address, after_text) == (
        Ok::<HandshakeView, PacketErrorView>(p),
        rest,
    ));
    assert(parse_handshake_address(p.protocol_version, after_version) == (
        Ok::<HandshakeView, PacketErrorView>(p),
        rest,
    ));
}

/// A ping payload that was written is read back, and what followed it stays.
pub proof fn lemma_ping_round_trip(payload: i64, rest: Seq<u8>)
    ensures
        parse_ping(be_bytes(pattern64(payload), 8) + rest) == (
            Ok::<i64, PacketErrorView>(payload),
            rest,
        ),
{
    let wire = be_bytes(pattern64(payload), 8);
    lemma_be_bytes_len(pattern64(payload), 8);
    assert(pow256(8) == 0x1_0000_0000_0000_0000) by {
        reveal_with_fuel(pow256, 9);
    }
    lemma_be_round_trip(pattern64(payload), 8, rest);
    assert((wire + rest).skip(8) =~= rest);
}

/// A packet of the protocol: its identifier, how it is read from the head of
/// a buffer, and how it is appended to one.
pub trait Packet: Sized {
    /// The identifier that the packet goes by.
    spec fn packet_id() -> i32;

    /// Whether reading from a buffer that held `bytes` may give `r` and leave
    /// `rest`.
    spec fn read_spec(bytes: Seq<u8>, r: Result<Self, PacketError>, rest: Seq<u8>) -> bool;

    /// The fields on the wire.
    spec fn wire(&self) -> Seq<u8>;

    /// Whether the packet can be written: every text in it must be short
    /// enough for its length field.
    spec fn writable(&self) -> bool;

    /// The error that writing gives where the packet cannot be written.
    spec fn write_error(&self) -> PacketErrorView;

    fn get_id(&self) -> (id: i32)
        ensures
            id == Self::packet_id(),
    ;

    /// Reads the packet from the head of the buffer.
    fn read(buf: &mut BytesMut) -> (r: Result<Self, PacketError>)
        ensures
            Self::read_spec(contents(*old(buf)), r, contents(*final(buf))),
    ;

    /// Appends the fields to the buffer. A packet that cannot be written is
    /// refused, and the buffer left as it was.
    fn write(&self, buf: &mut BytesMut) -> (r: Result<(), PacketError>)
        requires
            contents(*old(buf)).len() + self.wire().len() <= max_len(),
        ensures
            self.writable() ==> r is Ok && contents(*final(buf)) == contents(*old(buf))
                + self.wire(),
            !self.writable() ==> (r matches Err(e) && e@ == self.write_error()) && contents(
                *final(buf),
            ) == contents(*old(buf)),
    ;
}

impl Packet for HandshakePacket {
    open spec fn packet_id() -> i32 {
        0
    }

    open spec fn read_spec(bytes: Seq<u8>, r: Result<Self, PacketError>, rest: Seq<u8>) -> bool {
        result_view(r) == parse_handshake(bytes).0 && rest == parse_handshake(bytes).1
    }

    open spec fn wire(&self) -> Seq<u8> {
        handshake_wire(self@)
    }

    open spec fn writable(&self) -> bool {
        encode_utf8(self.server_address@).len() <= i32::MAX
    }

    open spec fn write_error(&self) -> PacketErrorView {
        PacketErrorView::Custom("Server address too long"@)
    }

    fn get_id(&self) -> (id: i32) {
        0x00
    }

    fn read(buf: &mut BytesMut) -> (r: Result<HandshakePacket, PacketError>) {
        let protocol_version: i32 = match read_varint(buf) {
            Ok((value, _)) => value,
            Err(e) => {
                return Err(e);
            },
        };
        let address_len: i32 = match read_varint(buf) {
            Ok((value, _)) => value,
            Err(e) => {
                return Err(e);
            },
        };
        if address_len < 0 {
            return Err(PacketError::Custom("Server address length cannot be negative".to_owned()));
        }
        let address_len: usize = address_len as usize;
        if buffer_len(buf) < address_len {
            return Err(PacketError::InsufficientData);
        }
        let address_bytes = copy_to_vec(buf, address_len);
        let server_address = match text_from_utf8(address_bytes) {
            Some(text) => text,
            None => {
                return Err(PacketError::Custom("Invalid UTF-8 for server address".to_owned()));
            },
        };
        if buffer_len(buf) < 2 {
            return Err(PacketError::InsufficientData);
        }
        let server_port: u16 = get_u16(buf);
        let next_state: i32 = match read_varint(buf) {
            Ok((value, _)) => value,
            Err(e) => {
                return Err(e);
            },
        };
        Ok(HandshakePacket { protocol_version, server_address, server_port, next_state })
    }

    fn write(&self, buf: &mut BytesMut) -> (r: Result<(), PacketError>) {
        let address = self.server_address.as_str();
        if address.len() > 0x7fff_ffff {
            return Err(PacketError::Custom("Server address too long".to_owned()));
        }
        proof {
            lemma_be_bytes_len(self.server_port as nat, 2);
        }
        write_varint(buf, self.protocol_version);
        write_varint(buf, address.len() as i32);
        put_slice(buf, address.as_bytes());
        put_u16(buf, self.server_port);
        write_varint(buf, self.next_state);
        assert(contents(*buf) =~= contents(*old(buf)) + handshake_wire(self@));
        Ok(())
    }
}

impl Packet for StatusRequestPacket {
    open spec fn packet_id() -> i32 {
        0
    }

    /// A status request has no fields: reading one takes nothing.
    open spec fn read_spec(bytes: Seq<u8>, r: Result<Self, PacketError>, rest: Seq<u8>) -> bool {
        r is Ok && rest == bytes
    }

    open spec fn wire(&self) -> Seq<u8> {
        Seq::<u8>::empty()
    }

    open spec fn writable(&self) -> bool {
        true
    }

    open spec fn write_error(&self) -> PacketErrorView {
        PacketErrorView::InsufficientData
    }

    fn get_id(&self) -> (id: i32) {
        0x00
    }

    fn read(buf: &mut BytesMut) -> (r: Result<StatusRequestPacket, PacketError>) {
        Ok(StatusRequestPacket {  })
    }

    fn write(&self, buf: &mut BytesMut) -> (r: Result<(), PacketError>) {
        assert(contents(*buf) =~= contents(*old(buf)) + Seq::<u8>::empty());
        Ok(())
    }
}

/// Reading a keepalive request from the head of `bytes`: the payload or the
/// error, and what stays in the buffer.
pub open spec fn parse_ping(bytes: Seq<u8>) -> (Result<i64, PacketErrorView>, Seq<u8>) {
    if bytes.len() < 8 {
        (Err(PacketErrorView::InsufficientData), bytes)
    } else {
        (Ok(signed64(be_value(bytes, 8)) as i64), bytes.skip(8))
    }
}

impl Packet for PingRequestPacket {
    open spec fn packet_id() -> i32 {
        1
    }

    open spec fn read_spec(bytes: Seq<u8>, r: Result<Self, PacketError>, rest: Seq<u8>) -> bool {
        &&& match parse_ping(bytes).0 {
            Ok(payload) => r matches Ok(p) && p.payload == payload,
            Err(e) => r matches Err(x) && x@ == e,
        }
        &&& rest == parse_ping(bytes).1
    }

    /// The eight bytes of the payload, big-endian.
    open spec fn wire(&self) -> Seq<u8> {
        be_bytes(pattern64(self.payload), 8)
    }

    open spec fn writable(&self) -> bool {
        true
    }

    open spec fn write_error(&self) -> PacketErrorView {
        PacketErrorView::InsufficientData
    }

    fn get_id(&self) -> (id: i32) {
        0x01
    }

    fn read(buf: &mut BytesMut) -> (r: Result<PingRequestPacket, PacketError>) {
        if buffer_len(buf) < 8 {
            return Err(PacketError::InsufficientData);
        }
        let payload: i64 = get_i64(buf);
        Ok(PingRequestPacket { payload })
    }

    fn write(&self, buf: &mut BytesMut) -> (r: Result<(), PacketError>) {
        proof {
            lemma_be_bytes_len(pattern64(self.payload), 8);
        }
        put_i64(buf, self.payload);
        Ok(())
    }
}

impl Packet for PongResponsePacket {
    open spec fn packet_id() -> i32 {
        1
    }

    /// The server never receives this packet: reading one is refused and the
    /// buffer left alone.
    open spec fn read_spec(bytes: Seq<u8>, r: Result<Self, PacketError>, rest: Seq<u8>) -> bool {
        &&& r matches Err(e) && e@ == PacketErrorView::Custom(
            "PongResponsePacket cannot be read from client"@,
        )
        &&& rest == bytes
    }

    /// The eight bytes of the payload, big-endian.
    open spec fn wire(&self) -> Seq<u8> {
        be_bytes(pattern64(self.payload), 8)
    }

    open spec fn writable(&self) -> bool {
        true
    }

    open spec fn write_error(&self) -> PacketErrorView {
        PacketErrorView::InsufficientData
    }

    fn get_id(&self) -> (id: i32) {
        0x01
    }

    fn read(buf: &mut BytesMut) -> (r: Result<PongResponsePacket, PacketError>) {
        Err(PacketError::Custom("PongResponsePacket cannot be read from client".to_owned()))
    }

    fn write(&self, buf: &mut BytesMut) -> (r: Result<(), PacketError>) {
        proof {
            lemma_be_bytes_len(pattern64(self.payload), 8);
        }
        put_i64(buf, self.payload);
        Ok(())
    }
}

impl Packet for StatusResponsePacket {
    open spec fn packet_id() -> i32 {
        0
    }

    /// The server never receives this packet: reading one is refused and the
    /// buffer left alone.
    open spec fn read_spec(bytes: Seq<u8>, r: Result<Self, PacketError>, rest: Seq<u8>) -> bool {
        &&& r matches Err(e) && e@ == PacketErrorView::Custom(
            "StatusResponsePacket cannot be read from client"@,
        )
        &&& rest == bytes
    }

    /// The text with its length in front.
    open spec fn wire(&self) -> Seq<u8> {
        string_wire(self.json_response@)
    }

    open spec fn writable(&self) -> bool {
        encode_utf8(self.json_response@).len() <= i32::MAX
    }

    open spec fn write_error(&self) -> PacketErrorView {
        PacketErrorView::Custom("Status response too long"@)
    }

    fn get_id(&self) -> (id: i32) {
        0x00
    }

    fn read(buf: &mut BytesMut) -> (r: Result<StatusResponsePacket, PacketError>) {
        Err(PacketError::Custom("StatusResponsePacket cannot be read from client".to_owned()))
    }

    fn write(&self, buf: &mut BytesMut) -> (r: Result<(), PacketError>) {
        let text = self.json_response.as_str();
        if text.len() > 0x7fff_ffff {
            return Err(PacketError::Custom("Status response too long".to_owned()));
        }
        write_varint(buf, text.len() as i32);
        put_slice(buf, text.as_bytes());
        assert(contents(*buf) =~= contents(*old(buf)) + string_wire(self.json_response@));
        Ok(())
    }
}

/// The registry of packets: which identifier names which packet in which
/// phase. It holds nothing and may be shared by every connection.
#[derive(Clone, Copy)]
pub struct PacketRegistry;

/// Decoding a payload: the packet that `packet_id` names in `state`, read from
/// the head of `bytes`, or the error; and what stays of the payload. Only the
/// handshake phase (identifier 0) and the status phase (0 and 1) have packets.
pub open spec fn decode_packet_spec(state: ConnectionState, packet_id: i32, bytes: Seq<u8>) -> (
    Result<DecodedView, PacketErrorView>,
    Seq<u8>,
) {
    if state == ConnectionState::Handshake && packet_id == 0 {
        match parse_handshake(bytes).0 {
            Ok(p) => (Ok(DecodedView::Handshake(p)), parse_handshake(bytes).1),
            Err(e) => (Err(e), parse_handshake(bytes).1),
        }
    } else if state == ConnectionState::Status && packet_id == 0 {
        (Ok(DecodedView::StatusRequest), bytes)
    } else if state == ConnectionState::Status && packet_id == 1 {
        match parse_ping(bytes).0 {
            Ok(payload) => (Ok(DecodedView::PingRequest(payload)), parse_ping(bytes).1),
            Err(e) => (Err(e), parse_ping(bytes).1),
        }
    } else {
        (Err(PacketErrorView::InvalidPacketId(packet_id)), bytes)
    }
}

/// The same identifier names different packets in different phases: 0 is a
/// status request in the status phase, whatever the payload, and in the
/// handshake phase it is read as a handshake, never as a status request.
pub proof fn lemma_state_gating(bytes: Seq<u8>)
    ensures
        decode_packet_spec(ConnectionState::Status, 0, bytes).0 == Ok::<
            DecodedView,
            PacketErrorView,
        >(DecodedView::StatusRequest),
        decode_packet_spec(ConnectionState::Handshake, 0, bytes).0 != Ok::<
            DecodedView,
            PacketErrorView,
        >(DecodedView::StatusRequest),
        match parse_handshake(bytes).0 {
            Ok(p) => decode_packet_spec(ConnectionState::Handshake, 0, bytes).0 == Ok::<
                DecodedView,
                PacketErrorView,
            >(DecodedView::Handshake(p)),
            Err(e) => decode_packet_spec(ConnectionState::Handshake, 0, bytes).0 == Err::<
                DecodedView,
                PacketErrorView,
            >(e),
        },
{
}

/// The registry is closed: an identifier is refused as invalid exactly when
/// it is not 0 in the handshake phase and neither 0 nor 1 in the status phase,
/// and then the payload is left alone.
pub proof fn lemma_registry_closed(state: ConnectionState, packet_id: i32, bytes: Seq<u8>)
    ensures
        decode_packet_spec(state, packet_id, bytes).0 == Err::<DecodedView, PacketErrorView>(
            PacketErrorView::InvalidPacketId(packet_id),
        ) <==> !((state == ConnectionState::Handshake && packet_id == 0) || (state
            == ConnectionState::Status && (packet_id == 0 || packet_id == 1))),
{
}

impl PacketRegistry {
    pub fn new() -> (registry: PacketRegistry)
        ensures
            registry == PacketRegistry,
    {
        PacketRegistry
    }

    /// Decodes the payload in `buf` as the packet that `packet_id` names in
    /// `state`.
    pub fn decode_packet(state: ConnectionState, packet_id: i32, buf: &mut BytesMut) -> (r: Result<
        DecodedPacket,
        PacketError,
    >)
        ensures
            result_view(r) == decode_packet_spec(state, packet_id, contents(*old(buf))).0,
            contents(*final(buf)) == decode_packet_spec(state, packet_id, contents(*old(buf))).1,
    {
        match state {
            ConnectionState::Handshake => {
                if packet_id == 0x00 {
                    match HandshakePacket::read(buf) {
                        Ok(p) => Ok(DecodedPacket::Handshake(p)),
                        Err(e) => Err(e),
                    }
                } else {
                    Err(PacketError::InvalidPacketId(packet_id))
                }
            },
            ConnectionState::Status => {
                if packet_id == 0x00 {
                    match StatusRequestPacket::read(buf) {
                        Ok(p) => Ok(DecodedPacket::StatusRequest(p)),
                        Err(e) => Err(e),
                    }
                } else if packet_id == 0x01 {
                    match PingRequestPacket::read(buf) {
                        Ok(p) => Ok(DecodedPacket::PingRequest(p)),
                        Err(e) => Err(e),
                    }
                } else {
                    Err(PacketError::InvalidPacketId(packet_id))
                }
            },
            ConnectionState::Login => Err(PacketError::InvalidPacketId(packet_id)),
            ConnectionState::Configuration => Err(PacketError::InvalidPacketId(packet_id)),
            ConnectionState::Play => Err(PacketError::InvalidPacketId(packet_id)),
        }
    }
}

} // verus!
