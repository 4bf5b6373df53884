use bytes::BytesMut;
use celervo::packets::{ConnectionState, DecodedPacket, HandshakePacket, PacketError, PingRequestPacket, StatusRequestPacket};
use celervo::server::{Connection, Reaction, Server};
use celervo::status::{StatusResponseJson, MAX_PLAYERS, PROTOCOL_VERSION};
use celervo::utility::read_varint;

fn handshake_frame() -> Vec<u8> {
    let mut bytes: Vec<u8> = vec![0x10, 0x00, 0x84, 0x06, 0x09];
    bytes.extend_from_slice(b"localhost");
    bytes.extend_from_slice(&[0x63, 0xdd, 0x01]);
    bytes
}

fn ping_frame(payload: i64) -> Vec<u8> {
    let mut bytes: Vec<u8> = vec![0x09, 0x01];
    bytes.extend_from_slice(&payload.to_be_bytes());
    bytes
}

fn in_status() -> Connection {
    Connection { buffer: BytesMut::new(), state: ConnectionState::Status }
}

#[test]
fn new_connection_starts_in_handshake() {
    let mut c = Connection::new();
    assert_eq!(c.state, ConnectionState::Handshake);
    assert!(c.buffer.is_empty());
    assert!(matches!(c.step(), Ok(None)));
    let _server = Server::new();
}

#[test]
fn length_prefix_alone_waits() {
    let mut c = Connection::new();
    c.receive(&[0x10]);
    assert!(matches!(c.step(), Ok(None)));
    assert_eq!(&c.buffer[..], &[0x10]);
    assert_eq!(c.state, ConnectionState::Handshake);
}

#[test]
fn exactly_one_frame_dispatches_once() {
    let mut c = Connection::new();
    c.receive(&handshake_frame());
    assert!(matches!(c.step(), Ok(Some(Reaction::Nothing))));
    assert_eq!(c.state, ConnectionState::Status);
    assert!(c.buffer.is_empty());
    assert!(matches!(c.step(), Ok(None)));
}

#[test]
fn one_byte_short_waits() {
    let frame = handshake_frame();
    let mut c = Connection::new();
    c.receive(&frame[..frame.len() - 1]);
    assert!(matches!(c.step(), Ok(None)));
    assert_eq!(c.buffer.len(), frame.len() - 1);
    c.receive(&frame[frame.len() - 1..]);
    assert!(matches!(c.step(), Ok(Some(Reaction::Nothing))));
}

#[test]
fn incomplete_length_prefix_waits() {
    let mut c = in_status();
    c.receive(&[0x80]);
    assert!(matches!(c.step(), Ok(None)));
    assert_eq!(&c.buffer[..], &[0x80]);
}

#[test]
fn handshake_then_status_request() {
    let mut c = Connection::new();
    let mut bytes = handshake_frame();
    bytes.extend_from_slice(&[0x01, 0x00]);
    c.receive(&bytes);
    assert!(matches!(c.step(), Ok(Some(Reaction::Nothing))));
    assert_eq!(c.state, ConnectionState::Status);
    assert!(matches!(c.step(), Ok(Some(Reaction::Status))));
    assert_eq!(c.state, ConnectionState::Status);
    assert!(matches!(c.step(), Ok(None)));

    let status = StatusResponseJson::current(serde_json::Value::Null);
    assert_eq!(status.version.name, "1.21.7");
    assert_eq!(status.version.protocol, 772);
    assert_eq!(status.players.max, 500);
    assert_eq!(status.players.online, 0);
    assert!(status.players.sample.is_empty());
    assert!(status.favicon.is_none());
    assert_eq!(status.enforces_secure_chat, Some(false));
    assert_eq!(PROTOCOL_VERSION, 772);
    assert_eq!(MAX_PLAYERS, 500);

    let json = format!(
        "{{\"version\":{{\"name\":\"{}\",\"protocol\":{}}},\"players\":{{\"max\":{},\"online\":{},\"sample\":[]}}}}",
        status.version.name, status.version.protocol, status.players.max, status.players.online
    );
    assert!(json.contains("\"protocol\":772"));
    assert!(json.contains("\"players\":{\"max\":500,\"online\":0,\"sample\":[]}"));
    let mut framed = Server::handle_status_request_packet(json.clone()).unwrap();
    let (length, used) = read_varint(&mut framed).unwrap();
    assert_eq!(used, 1);
    assert_eq!(length as usize, framed.len());
    let (id, _) = read_varint(&mut framed).unwrap();
    assert_eq!(id, 0x00);
    let (text_len, _) = read_varint(&mut framed).unwrap();
    assert_eq!(text_len as usize, json.len());
    assert_eq!(&framed[..], json.as_bytes());
}

#[test]
fn description_is_carried_through() {
    let text = serde_json::Value::String("Hello".to_string());
    let status = StatusResponseJson::current(text.clone());
    assert_eq!(status.description, text);
}

#[test]
fn ping_is_answered_with_the_same_payload() {
    let mut c = in_status();
    c.receive(&ping_frame(123456789));
    let reaction = c.step().unwrap();
    assert_eq!(reaction, Some(Reaction::Pong(123456789)));
    let framed = Server::handle_ping_request_packet(PingRequestPacket { payload: 123456789 }).unwrap();
    assert_eq!(&framed[..], &[0x09, 0x01, 0, 0, 0, 0, 0x07, 0x5b, 0xcd, 0x15]);
    assert_eq!(framed.to_vec(), ping_frame(123456789));
}

#[test]
fn pong_for_negative_payload() {
    let framed = Server::handle_ping_request_packet(PingRequestPacket { payload: -1 }).unwrap();
    assert_eq!(&framed[..], &[0x09, 0x01, 0xff, 0xff, 0xff, 0xff, 0xff, 0xff, 0xff, 0xff]);
}

#[test]
fn unknown_id_in_status_closes_the_connection() {
    let mut c = in_status();
    c.receive(&[0x01, 0x7f]);
    match c.step() {
        Err(PacketError::InvalidPacketId(id)) => assert_eq!(id, 0x7f),
        _ => panic!("an unknown id is fatal"),
    }
}

#[test]
fn ping_before_handshake_is_refused() {
    let mut c = Connection::new();
    c.receive(&ping_frame(1));
    assert!(matches!(c.step(), Err(PacketError::InvalidPacketId(1))));
}

#[test]
fn frame_split_across_two_reads() {
    let frame = ping_frame(987654321);
    let mut c = in_status();
    c.receive(&frame[..2]);
    assert!(matches!(c.step(), Ok(None)));
    c.receive(&frame[2..]);
    assert_eq!(c.step().unwrap(), Some(Reaction::Pong(987654321)));
    assert!(matches!(c.step(), Ok(None)));
    assert!(c.buffer.is_empty());
}

#[test]
fn frame_split_at_every_point() {
    let frame = handshake_frame();
    for cut in 0..frame.len() {
        let mut c = Connection::new();
        c.receive(&frame[..cut]);
        assert!(matches!(c.step(), Ok(None)));
        assert_eq!(c.state, ConnectionState::Handshake);
        c.receive(&frame[cut..]);
        assert!(matches!(c.step(), Ok(Some(Reaction::Nothing))));
        assert_eq!(c.state, ConnectionState::Status);
        assert!(matches!(c.step(), Ok(None)));
    }
}

#[test]
fn two_frames_in_one_read_come_out_in_order() {
    let mut c = in_status();
    let mut bytes = ping_frame(1);
    bytes.extend_from_slice(&ping_frame(2));
    bytes.extend_from_slice(&[0x09]);
    c.receive(&bytes);
    assert_eq!(c.step().unwrap(), Some(Reaction::Pong(1)));
    assert_eq!(c.step().unwrap(), Some(Reaction::Pong(2)));
    assert!(matches!(c.step(), Ok(None)));
    assert_eq!(&c.buffer[..], &[0x09]);
}

#[test]
fn negative_length_is_fatal() {
    let mut c = Connection::new();
    c.receive(&[0xff, 0xff, 0xff, 0xff, 0x0f, 0x00]);
    match c.step() {
        Err(PacketError::Custom(msg)) => assert_eq!(msg, "Invalid packet length"),
        _ => panic!("a negative length is fatal"),
    }
}

#[test]
fn overlong_length_prefix_is_fatal() {
    let mut c = Connection::new();
    c.receive(&[0x80, 0x80, 0x80, 0x80, 0x80, 0x00]);
    assert!(matches!(c.step(), Err(PacketError::InvalidVarInt)));
}

#[test]
fn empty_frame_is_fatal() {
    let mut c = in_status();
    c.receive(&[0x00, 0x01, 0x00]);
    match c.step() {
        Err(PacketError::Custom(msg)) => assert_eq!(msg, "Not enough data for packet content"),
        _ => panic!("a frame without an identifier is fatal"),
    }
    assert_eq!(&c.buffer[..], &[0x01, 0x00]);
}

#[test]
fn identifier_cut_by_the_frame_end_is_fatal() {
    let mut c = in_status();
    c.receive(&[0x01, 0x80, 0x00]);
    assert!(matches!(c.step(), Err(PacketError::Custom(_))));
}

#[test]
fn truncated_payload_inside_a_frame_is_fatal() {
    let mut c = in_status();
    c.receive(&[0x03, 0x01, 0xaa, 0xbb]);
    assert!(matches!(c.step(), Err(PacketError::InsufficientData)));
}

#[test]
fn next_frame_hands_out_identifier_and_payload() {
    let mut c = in_status();
    c.receive(&[0x03, 0x05, 0xaa, 0xbb, 0x77]);
    let frame = c.next_frame().unwrap().unwrap();
    assert_eq!(frame.packet_id, 5);
    assert_eq!(&frame.payload[..], &[0xaa, 0xbb]);
    assert_eq!(&c.buffer[..], &[0x77]);
    assert_eq!(c.state, ConnectionState::Status);
}

#[test]
fn frame_puts_length_and_identifier_in_front() {
    let payload = BytesMut::from(&[0xaa, 0xbb][..]);
    let framed = Server::frame(5, &payload).unwrap();
    assert_eq!(&framed[..], &[0x03, 0x05, 0xaa, 0xbb]);
    let framed = Server::frame(300, &payload).unwrap();
    assert_eq!(&framed[..], &[0x04, 0xac, 0x02, 0xaa, 0xbb]);
    let framed = Server::frame(0, &BytesMut::new()).unwrap();
    assert_eq!(&framed[..], &[0x01, 0x00]);
}

#[test]
fn framed_packet_is_read_back() {
    let payload = BytesMut::from(&[1u8, 2, 3, 4, 5, 6, 7, 8][..]);
    let framed = Server::frame(1, &payload).unwrap();
    let mut c = in_status();
    c.receive(&framed);
    let frame = c.next_frame().unwrap().unwrap();
    assert_eq!(frame.packet_id, 1);
    assert_eq!(&frame.payload[..], &payload[..]);
}

#[test]
fn reactions_follow_the_packet() {
    let mut state = ConnectionState::Handshake;
    let handshake = HandshakePacket {
        protocol_version: 772,
        server_address: "localhost".to_string(),
        server_port: 25565,
        next_state: 2,
    };
    let r = Server::handle_decoded_packet(&mut state, DecodedPacket::Handshake(handshake));
    assert_eq!(r, Reaction::Nothing);
    assert_eq!(state, ConnectionState::Status);
    let r = Server::handle_decoded_packet(&mut state, DecodedPacket::StatusRequest(StatusRequestPacket {}));
    assert_eq!(r, Reaction::Status);
    assert_eq!(state, ConnectionState::Status);
    let r = Server::handle_decoded_packet(
        &mut state,
        DecodedPacket::PingRequest(PingRequestPacket { payload: 7 }),
    );
    assert_eq!(r, Reaction::Pong(7));
    let mut play = ConnectionState::Play;
    let r = Server::handle_decoded_packet(
        &mut play,
        DecodedPacket::PongResponse(celervo::packets::PongResponsePacket { payload: 7 }),
    );
    assert_eq!(r, Reaction::Nothing);
    assert_eq!(play, ConnectionState::Play);
    let r = Server::handle_decoded_packet(
        &mut play,
        DecodedPacket::StatusResponse(celervo::packets::StatusResponsePacket {
            json_response: String::new(),
        }),
    );
    assert_eq!(r, Reaction::Nothing);
    assert_eq!(play, ConnectionState::Play);
}

#[test]
fn handshake_always_leads_to_status() {
    for next_state in [0, 1, 2, 3, -1] {
        let mut state = ConnectionState::Handshake;
        let packet = HandshakePacket {
            protocol_version: 0,
            server_address: String::new(),
            server_port: 0,
            next_state,
        };
        Server::handle_handshake_packet(&mut state, packet);
        assert_eq!(state, ConnectionState::Status);
    }
}
