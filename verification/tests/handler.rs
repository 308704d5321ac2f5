use proto::conn::State;
use proto::datatype::Decode;
use proto::packet::PacketParser;
use proto::handler::{
    disconnect_response, handshake_outcome, login_start, refusal_message, status_reply, status_response,
    HandshakeOutcome,
};

#[test]
fn handshake_legacy_ping() {
    assert!(matches!(handshake_outcome(&[0xfe, 0x01]), Ok(HandshakeOutcome::Legacy)));
}

#[test]
fn handshake_next_state() {
    let mut bytes = vec![
        0x10, 0x0, 0xf6, 0x5, 0x9, 0x31, 0x32, 0x37, 0x2e, 0x30, 0x2e, 0x30, 0x2e, 0x31, 0x63,
        0xdd, 0x1, 0x1, 0x0,
    ];
    assert!(matches!(handshake_outcome(&bytes), Ok(HandshakeOutcome::NextState(State::Status))));
    bytes[16] = 0x02;
    assert!(matches!(handshake_outcome(&bytes), Ok(HandshakeOutcome::NextState(State::Login))));
    bytes[16] = 0x07;
    assert!(matches!(handshake_outcome(&bytes), Ok(HandshakeOutcome::UnknownState(7))));
}

#[test]
fn handshake_bad_address() {
    let bytes = vec![0x05, 0x00, 0x01, 0x02, 0xff, 0xfe];
    assert!(handshake_outcome(&bytes).is_err());
}

#[test]
fn state_numbers() {
    assert_eq!(State::try_from(0), Ok(State::Init));
    assert_eq!(State::try_from(1), Ok(State::Status));
    assert_eq!(State::try_from(2), Ok(State::Login));
    assert_eq!(State::try_from(3), Err(3));
    assert_eq!(i32::from(State::Login), 2);
}

#[test]
fn status_response_bytes() {
    let json = serde_json::Value::String("ok".to_string());
    let bytes = status_response(json).unwrap();
    assert_eq!(bytes, vec![0x06, 0x00, 0x04, b'"', b'o', b'k', b'"']);
}

#[test]
fn login_start_name() {
    let bytes = [0x07, 0x00, 0x05, b'S', b't', b'e', b'v', b'e'];
    let p = login_start(&bytes).unwrap().unwrap();
    assert_eq!(p.data.name, "Steve");
    let other = [0x02, 0x01, 0x00];
    assert!(login_start(&other).unwrap().is_none());
}

#[test]
fn refusal_text() {
    assert_eq!(
        refusal_message("Steve"),
        "Sorry Steve, this server is not yet prepared to connect."
    );
}

#[test]
fn disconnect_bytes() {
    let mut map = serde_json::Map::new();
    map.insert("text".to_string(), serde_json::Value::String(refusal_message("Al")));
    let bytes = disconnect_response(serde_json::Value::Object(map)).unwrap();
    let text = "{\"text\":\"Sorry Al, this server is not yet prepared to connect.\"}";
    assert_eq!(bytes[0] as usize, text.len() + 2);
    assert_eq!(bytes[1], 0x00);
    assert_eq!(bytes[2] as usize, text.len());
    assert_eq!(&bytes[3..], text.as_bytes());
}

#[test]
fn status_response_reads_back() {
    let json: serde_json::Value = serde_json::from_str("{\"k\":[1,2]}").unwrap();
    let bytes = status_response(json).unwrap();
    let mut parser = PacketParser::new(&bytes);
    assert!(parser.packet_id().unwrap() == 0);
    let (n, text) = String::decode_streaming(&bytes[2..]).unwrap();
    assert_eq!(n, bytes.len() - 2);
    assert_eq!(text, "{\"k\":[1,2]}");
}

#[test]
fn status_reply_ignores_request() {
    let json = serde_json::Value::String("ok".to_string());
    let expected = vec![0x06, 0x00, 0x04, b'"', b'o', b'k', b'"'];
    // A status request: length 1, id 0, no data.
    let plain = status_reply(&[0x01, 0x00], json.clone()).unwrap().unwrap();
    assert_eq!(plain, expected);
    // Another id and trailing bytes give the same reply.
    let other = status_reply(&[0x03, 0x05, 0xaa, 0xbb], json.clone()).unwrap().unwrap();
    assert_eq!(other, expected);
}

#[test]
fn status_reply_bad_header() {
    let json = serde_json::Value::String("ok".to_string());
    assert!(status_reply(&[0x80, 0x80, 0x80, 0x80, 0x80, 0x01], json.clone()).is_err());
    // The length's fifth byte still has bit 7 set.
    assert!(status_reply(&[0x01, 0xff, 0xff, 0xff, 0xff, 0xff], json).is_err());
}
