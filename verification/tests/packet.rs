use proto::clientbound::login::Disconnect;
use proto::clientbound::status::StatusResponse;
use proto::clientbound::Clientbound;
use proto::datatype::{Decode, Encode, Length, VarInt};
use proto::packet::{BytesParser, Packet, PacketParser};
use proto::serverbound::handshake::Handshake;
use proto::serverbound::login::LoginStart;
use proto::serverbound::status::{StatusPingRequest, StatusRequest};
use proto::serverbound::Serverbound;
use proto::Error;

fn handshake_bytes() -> Vec<u8> {
    vec![
        0x10, 0x0, 0xf6, 0x5, 0x9, 0x31, 0x32, 0x37, 0x2e, 0x30, 0x2e, 0x30, 0x2e, 0x31, 0x63,
        0xdd, 0x1, 0x1, 0x0,
    ]
}

#[test]
fn test_handshake() {
    let bytes = vec![
        0x10, 0x0, 0xf6, 0x5, 0x9, 0x31, 0x32, 0x37, 0x2e, 0x30, 0x2e, 0x30, 0x2e, 0x31, 0x63,
        0xdd, 0x1, 0x1, 0x0,
    ];
    let handshake_packet = Packet::from_bytes(&bytes, Handshake::decoder);
    println!("{:?}", handshake_packet);
    let p = handshake_packet.unwrap();
    assert!(p.length == 16);
    assert!(p.packet_id == 0);
    assert!(p.data.protocol_version == 758);
    assert_eq!(p.data.server_address, "127.0.0.1");
    assert_eq!(p.data.server_port, 25565);
    assert!(p.data.next_state == 1);
}

#[test]
fn packet_decode_same_as_from_bytes() {
    let bytes = handshake_bytes();
    let p = Packet::decode(&bytes, Handshake::decoder).unwrap();
    assert_eq!(p.data.server_address, "127.0.0.1");
    assert!(Packet::<Handshake>::check_decodable(&bytes));
}

#[test]
fn handshake_check_decodable_rejects_short_port() {
    // The address says nine bytes but only the port's first byte follows it.
    let bytes = vec![0x0d, 0x0, 0xf6, 0x5, 0x9, 0x31, 0x32, 0x37, 0x2e, 0x30, 0x2e, 0x30, 0x2e, 0x31, 0x63];
    assert!(!Packet::<Handshake>::check_decodable(&bytes));
    assert!(!Handshake::check_decodable(&bytes[2..]));
    // An address length past the end.
    assert!(!Handshake::check_decodable(&[0x01, 0x40, 0x31]));
}

#[test]
fn bytes_parser_reads_in_order() {
    let bytes = [0x01, 0x03, b'a', b'b', b'c', 0x63, 0xdd];
    let mut parser = BytesParser::new(&bytes);
    let v: VarInt = parser.next().unwrap();
    assert!(v == 1);
    let s: String = parser.next().unwrap();
    assert_eq!(s, "abc");
    let port: u16 = parser.next().unwrap();
    assert_eq!(port, 25565);
    let end: VarInt = parser.next().unwrap();
    assert!(end == 0);
}

#[test]
fn bytes_parser_stays_on_error() {
    let bytes = [0x02, 0xff, 0xfe, 0x01];
    let mut parser = BytesParser::new(&bytes);
    let r: Result<String, Error> = parser.next();
    assert!(r.is_err());
    let again: VarInt = parser.next().unwrap();
    assert!(again == 2);
}

#[test]
fn packet_id_is_remembered() {
    let bytes = handshake_bytes();
    let mut parser = PacketParser::new(&bytes);
    assert!(parser.packet_id().unwrap() == 0);
    assert!(parser.packet_id().unwrap() == 0);
    let other = [0x01, 0x05];
    let mut parser = PacketParser::new(&other);
    assert!(parser.packet_id().unwrap() == 5);
}

#[test]
fn packet_id_error() {
    let bytes = [0x80, 0x80, 0x80, 0x80, 0x80];
    let mut parser = PacketParser::new(&bytes);
    assert!(parser.packet_id().is_err());
}

#[test]
fn status_request_packets() {
    let p = Packet::from_bytes(&[0x01, 0x00], StatusRequest::decoder).unwrap();
    assert!(p.length == 1 && p.packet_id == 0);
    let ping = [0x09, 0x01, 0, 0, 0, 0, 0, 0, 0x01, 0x00];
    let p = Packet::from_bytes(&ping, StatusPingRequest::decoder).unwrap();
    assert!(p.packet_id == 1);
    assert_eq!(p.data.payload, 256);
}

#[test]
fn login_start_packet() {
    let bytes = [0x07, 0x00, 0x05, b'S', b't', b'e', b'v', b'e'];
    let p = Packet::from_bytes(&bytes, LoginStart::decoder).unwrap();
    assert_eq!(p.data.name, "Steve");
}

#[test]
fn disconnect_packet_frame() {
    let reason = serde_json::Value::String("bye".to_string());
    let data = Disconnect { reason };
    // The JSON text is "bye" with its quotes: five bytes, after a one-byte prefix.
    assert_eq!(data.length(), 6);
    let packet = Packet::new(Disconnect::packet_id().0, data);
    assert!(packet.length == 7);
    assert!(packet.packet_id == 0);
    let bytes = packet.encode();
    assert_eq!(bytes, vec![0x07, 0x00, 0x05, b'"', b'b', b'y', b'e', b'"']);
    // The length field counts the bytes after it.
    assert_eq!(bytes.len() - 1, 7);
}

#[test]
fn status_response_frame() {
    let json: serde_json::Value = serde_json::from_str("{\"a\":1}").unwrap();
    let data = StatusResponse { json_response: json };
    let packet = Packet::new(StatusResponse::packet_id(), data);
    assert_eq!(packet.encode(), vec![0x09, 0x00, 0x07, b'{', b'"', b'a', b'"', b':', b'1', b'}']);
}

#[test]
fn encoded_header_reads_back() {
    let reason = serde_json::Value::String("bye".to_string());
    let bytes = Packet::new(0, Disconnect { reason }).encode();
    let mut parser = PacketParser::new(&bytes);
    assert!(parser.packet_id().unwrap() == 0);
    let mut parser = BytesParser::new(&bytes);
    let length: VarInt = parser.next().unwrap();
    assert_eq!(length.0 as usize, bytes.len() - 1);
}

#[test]
fn large_packet_id_reads_back() {
    let bytes = Packet::new(256, VarInt(0)).encode();
    assert_eq!(bytes, vec![0x03, 0x80, 0x02, 0x00]);
    let mut parser = PacketParser::new(&bytes);
    assert!(parser.packet_id().unwrap() == 256);
}

#[test]
fn long_disconnect_length_counts_rest() {
    // A JSON text of 253 bytes: 2 bytes of prefix, 1 of id, so the length is 256.
    let reason = serde_json::Value::String("y".repeat(251));
    let bytes = Packet::new(0, Disconnect { reason }).encode();
    let mut parser = BytesParser::new(&bytes);
    let length: VarInt = parser.next().unwrap();
    assert!(length == 256);
    assert_eq!(bytes.len(), 2 + 256);
}

#[test]
fn handshake_large_protocol_version() {
    let mut bytes = vec![0x00, 0x00];
    bytes.extend(VarInt(256).encode());
    bytes.extend("a".to_string().encode());
    bytes.extend([0x63, 0xdd]);
    bytes.extend(VarInt(-1).encode());
    bytes[0] = (bytes.len() - 1) as u8;
    let p = Packet::from_bytes(&bytes, Handshake::decoder).unwrap();
    assert!(p.data.protocol_version == 256);
    assert!(p.data.next_state == -1);
}

#[test]
fn new_with_var_int_id() {
    let packet = Packet::new(VarInt(300), VarInt(25565));
    assert!(packet.packet_id == 300);
    assert!(packet.data == 25565);
    // Two bytes of id (300 = 0xac 0x02), three of data.
    assert!(packet.length == 5);
    let bytes = packet.encode();
    assert_eq!(bytes, vec![0x05, 0xac, 0x02, 0xdd, 0xc7, 0x01]);
    let mut parser = PacketParser::new(&bytes);
    assert!(parser.packet_id().unwrap() == 300);
}

#[test]
fn fresh_parser_reads_like_decode() {
    let bytes = [0xdd, 0xc7, 0x01, 0x07];
    let mut parser = BytesParser::new(&bytes);
    let first: VarInt = parser.next().unwrap();
    let decoded = VarInt::decode(&bytes).unwrap();
    assert!(first == decoded.0);
    assert!(first == 25565);
    let bad = [0x80, 0x80, 0x80, 0x80, 0x80, 0x01];
    let mut parser = BytesParser::new(&bad);
    assert!(matches!(parser.next::<VarInt>(), Err(Error::DecodeError(_))));
    assert!(matches!(VarInt::decode(&bad), Err(Error::DecodeError(_))));
}
