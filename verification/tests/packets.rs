use bytes::BytesMut;
use celervo::packets::{
    ConnectionState, DecodedPacket, HandshakePacket, Packet, PacketError, PacketRegistry,
    PingRequestPacket, PongResponsePacket, StatusRequestPacket, StatusResponsePacket,
};

fn handshake_bytes() -> Vec<u8> {
    let mut bytes: Vec<u8> = vec![0x84, 0x06, 0x09];
    bytes.extend_from_slice(b"localhost");
    bytes.extend_from_slice(&[0x63, 0xdd, 0x01]);
    bytes
}

#[test]
fn handshake_reads_its_fields() {
    let mut buf = BytesMut::from(&handshake_bytes()[..]);
    let p = HandshakePacket::read(&mut buf).unwrap();
    assert_eq!(p.protocol_version, 772);
    assert_eq!(p.server_address, "localhost");
    assert_eq!(p.server_port, 25565);
    assert_eq!(p.next_state, 1);
    assert!(buf.is_empty());
    assert_eq!(p.get_id(), 0);
}

#[test]
fn handshake_write_gives_the_wire_bytes() {
    let p = HandshakePacket {
        protocol_version: 772,
        server_address: "localhost".to_string(),
        server_port: 25565,
        next_state: 1,
    };
    let mut buf = BytesMut::new();
    assert!(p.write(&mut buf).is_ok());
    assert_eq!(buf.to_vec(), handshake_bytes());
}

#[test]
fn handshake_round_trips_with_multibyte_text() {
    let p = HandshakePacket {
        protocol_version: -1,
        server_address: "münchen.example".to_string(),
        server_port: 1,
        next_state: 2,
    };
    let mut buf = BytesMut::new();
    assert!(p.write(&mut buf).is_ok());
    let back = HandshakePacket::read(&mut buf).unwrap();
    assert_eq!(back.protocol_version, -1);
    assert_eq!(back.server_address, "münchen.example");
    assert_eq!(back.server_port, 1);
    assert_eq!(back.next_state, 2);
}

#[test]
fn handshake_leaves_trailing_bytes() {
    let mut bytes = handshake_bytes();
    bytes.push(0x55);
    let mut buf = BytesMut::from(&bytes[..]);
    assert!(HandshakePacket::read(&mut buf).is_ok());
    assert_eq!(&buf[..], &[0x55]);
}

#[test]
fn handshake_refuses_negative_address_length() {
    let mut buf = BytesMut::from(&[0x00, 0xff, 0xff, 0xff, 0xff, 0x0f, 0x41][..]);
    match HandshakePacket::read(&mut buf) {
        Err(PacketError::Custom(msg)) => {
            assert_eq!(msg, "Server address length cannot be negative")
        }
        _ => panic!("a negative length must be refused"),
    }
    assert_eq!(&buf[..], &[0x41]);
}

#[test]
fn handshake_short_address_is_insufficient_data() {
    let mut buf = BytesMut::from(&[0x00, 0x05, 0x41, 0x42][..]);
    assert!(matches!(HandshakePacket::read(&mut buf), Err(PacketError::InsufficientData)));
    assert_eq!(&buf[..], &[0x41, 0x42]);
}

#[test]
fn handshake_refuses_malformed_utf8() {
    let mut buf = BytesMut::from(&[0x00, 0x02, 0xff, 0xfe, 0x63, 0xdd, 0x01][..]);
    match HandshakePacket::read(&mut buf) {
        Err(PacketError::Custom(msg)) => assert_eq!(msg, "Invalid UTF-8 for server address"),
        _ => panic!("malformed text must be refused"),
    }
    assert_eq!(&buf[..], &[0x63, 0xdd, 0x01]);
}

#[test]
fn handshake_missing_port_is_insufficient_data() {
    let mut buf = BytesMut::from(&[0x00, 0x01, 0x41, 0x63][..]);
    assert!(matches!(HandshakePacket::read(&mut buf), Err(PacketError::InsufficientData)));
}

#[test]
fn handshake_missing_next_state_is_insufficient_data() {
    let mut buf = BytesMut::from(&[0x00, 0x01, 0x41, 0x63, 0xdd][..]);
    assert!(matches!(HandshakePacket::read(&mut buf), Err(PacketError::InsufficientData)));
}

#[test]
fn handshake_overlong_version_is_invalid_varint() {
    let mut buf = BytesMut::from(&[0x80, 0x80, 0x80, 0x80, 0x80, 0x80][..]);
    assert!(matches!(HandshakePacket::read(&mut buf), Err(PacketError::InvalidVarInt)));
}

#[test]
fn port_is_big_endian() {
    let mut buf = BytesMut::from(&[0x00, 0x00, 0x01, 0x02, 0x00][..]);
    let p = HandshakePacket::read(&mut buf).unwrap();
    assert_eq!(p.server_port, 0x0102);
    assert_eq!(p.server_address, "");
}

#[test]
fn ping_reads_eight_big_endian_bytes() {
    let mut buf = BytesMut::from(&[0, 0, 0, 0, 0x07, 0x5b, 0xcd, 0x15, 0x99][..]);
    let p = PingRequestPacket::read(&mut buf).unwrap();
    assert_eq!(p.payload, 123456789);
    assert_eq!(&buf[..], &[0x99]);
    assert_eq!(p.get_id(), 1);
}

#[test]
fn ping_reads_negative_payload() {
    let mut buf = BytesMut::from(&[0xff; 8][..]);
    assert_eq!(PingRequestPacket::read(&mut buf).unwrap().payload, -1);
    let mut buf = BytesMut::from(&[0x80, 0, 0, 0, 0, 0, 0, 0][..]);
    assert_eq!(PingRequestPacket::read(&mut buf).unwrap().payload, i64::MIN);
}

#[test]
fn ping_short_payload_is_insufficient_data() {
    let mut buf = BytesMut::from(&[1, 2, 3, 4, 5, 6, 7][..]);
    assert!(matches!(PingRequestPacket::read(&mut buf), Err(PacketError::InsufficientData)));
    assert_eq!(buf.len(), 7);
}

#[test]
fn ping_and_pong_write_eight_bytes() {
    let mut buf = BytesMut::new();
    assert!(PingRequestPacket { payload: 123456789 }.write(&mut buf).is_ok());
    assert_eq!(&buf[..], &[0, 0, 0, 0, 0x07, 0x5b, 0xcd, 0x15]);
    let mut buf = BytesMut::new();
    assert!(PongResponsePacket { payload: -2 }.write(&mut buf).is_ok());
    assert_eq!(&buf[..], &[0xff, 0xff, 0xff, 0xff, 0xff, 0xff, 0xff, 0xfe]);
    assert_eq!(PongResponsePacket { payload: 0 }.get_id(), 1);
}

#[test]
fn status_request_has_no_fields() {
    let mut buf = BytesMut::from(&[0x01, 0x02][..]);
    let p = StatusRequestPacket::read(&mut buf).unwrap();
    assert_eq!(p.get_id(), 0);
    assert_eq!(buf.len(), 2);
    let mut out = BytesMut::new();
    assert!(p.write(&mut out).is_ok());
    assert!(out.is_empty());
}

#[test]
fn outbound_packets_cannot_be_read() {
    let mut buf = BytesMut::from(&[0u8; 8][..]);
    match PongResponsePacket::read(&mut buf) {
        Err(PacketError::Custom(msg)) => {
            assert_eq!(msg, "PongResponsePacket cannot be read from client")
        }
        _ => panic!("a pong must not be read"),
    }
    match StatusResponsePacket::read(&mut buf) {
        Err(PacketError::Custom(msg)) => {
            assert_eq!(msg, "StatusResponsePacket cannot be read from client")
        }
        _ => panic!("a status response must not be read"),
    }
    assert_eq!(buf.len(), 8);
}

#[test]
fn status_response_writes_length_then_text() {
    let p = StatusResponsePacket { json_response: "{}".to_string() };
    let mut buf = BytesMut::new();
    assert!(p.write(&mut buf).is_ok());
    assert_eq!(&buf[..], &[0x02, 0x7b, 0x7d]);
    assert_eq!(p.get_id(), 0);
    let long = StatusResponsePacket { json_response: "a".repeat(200) };
    let mut buf = BytesMut::new();
    assert!(long.write(&mut buf).is_ok());
    assert_eq!(&buf[..2], &[0xc8, 0x01]);
    assert_eq!(buf.len(), 202);
}

#[test]
fn id_zero_is_gated_by_state() {
    let mut buf = BytesMut::new();
    let r = PacketRegistry::decode_packet(ConnectionState::Status, 0x00, &mut buf);
    assert!(matches!(r, Ok(DecodedPacket::StatusRequest(_))));
    let mut buf = BytesMut::from(&handshake_bytes()[..]);
    let r = PacketRegistry::decode_packet(ConnectionState::Handshake, 0x00, &mut buf);
    match r {
        Ok(DecodedPacket::Handshake(p)) => assert_eq!(p.protocol_version, 772),
        _ => panic!("id 0 in the handshake phase is a handshake"),
    }
    let mut buf = BytesMut::new();
    let r = PacketRegistry::decode_packet(ConnectionState::Handshake, 0x00, &mut buf);
    assert!(matches!(r, Err(PacketError::InsufficientData)));
}

#[test]
fn id_one_in_status_is_a_ping() {
    let mut buf = BytesMut::from(&[0, 0, 0, 0, 0, 0, 0, 42][..]);
    let r = PacketRegistry::decode_packet(ConnectionState::Status, 0x01, &mut buf);
    match r {
        Ok(DecodedPacket::PingRequest(p)) => assert_eq!(p.payload, 42),
        _ => panic!("id 1 in the status phase is a ping"),
    }
}

#[test]
fn unknown_ids_are_refused() {
    let _registry = PacketRegistry::new();
    let cases = [
        (ConnectionState::Handshake, 1),
        (ConnectionState::Handshake, -1),
        (ConnectionState::Status, 2),
        (ConnectionState::Status, 0x7f),
        (ConnectionState::Login, 0),
        (ConnectionState::Configuration, 0),
        (ConnectionState::Play, 0),
        (ConnectionState::Play, 1),
    ];
    for (state, id) in cases {
        let mut buf = BytesMut::from(&handshake_bytes()[..]);
        match PacketRegistry::decode_packet(state, id, &mut buf) {
            Err(PacketError::InvalidPacketId(got)) => assert_eq!(got, id),
            _ => panic!("{:?} has no packet {}", state, id),
        }
        assert_eq!(buf.to_vec(), handshake_bytes());
    }
}

#[test]
fn errors_in_words() {
    assert_eq!(PacketError::InvalidPacketId(127).message(), "Invalid packet ID: 127");
    assert_eq!(PacketError::InvalidPacketId(-3).message(), "Invalid packet ID: -3");
    assert_eq!(PacketError::InvalidVarInt.message(), "Invalid VarInt");
    assert_eq!(PacketError::InsufficientData.message(), "Insufficient data");
    assert_eq!(
        PacketError::Custom("oops".to_string()).message(),
        "Custom packet error: oops"
    );
}
