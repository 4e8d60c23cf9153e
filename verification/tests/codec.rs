use chat_relay::codec::{decode_packet, encode_packet, Decoded};
use chat_relay::message::{ChatMessage, ClientConnectData, Packet, ServerWelcomeData};

fn round_trip(p: Packet) -> (Packet, usize) {
    let frame = encode_packet(&p).expect("encodable");
    match decode_packet(&frame) {
        Decoded::Packet(q, n) => (q, n),
        other => panic!("expected a packet, got {:?}", other),
    }
}

#[test]
fn connect_round_trip() {
    let p = Packet::Connect(ClientConnectData::new("Alice".to_string()));
    let (q, n) = round_trip(p.clone());
    assert_eq!(q, p);
    assert_eq!(n, 4 + 1 + 5);
}

#[test]
fn connect_round_trip_empty_name() {
    let p = Packet::Connect(ClientConnectData::new(String::new()));
    let (q, n) = round_trip(p.clone());
    assert_eq!(q, p);
    assert_eq!(n, 5);
}

#[test]
fn connect_round_trip_unicode_name() {
    let p = Packet::Connect(ClientConnectData::new("héllo wörld ✓".to_string()));
    let (q, _) = round_trip(p.clone());
    match &q {
        Packet::Connect(d) => assert_eq!(d.get_name(), "héllo wörld ✓"),
        other => panic!("wrong variant: {:?}", other),
    }
    assert_eq!(q, p);
}

#[test]
fn welcome_round_trip() {
    let p = Packet::Welcome(ServerWelcomeData { client_id: 42 });
    let (q, n) = round_trip(p.clone());
    assert_eq!(q, p);
    assert_eq!(n, 4 + 1 + 8);
}

#[test]
fn welcome_round_trip_large_id() {
    let p = Packet::Welcome(ServerWelcomeData { client_id: usize::MAX });
    let (q, _) = round_trip(p.clone());
    assert_eq!(q, p);
}

#[test]
fn message_round_trip() {
    let p = Packet::Message(ChatMessage {
        chat_id: 2,
        sender_id: 7,
        message: "hello there".to_string(),
    });
    let (q, n) = round_trip(p.clone());
    assert_eq!(q, p);
    assert_eq!(n, 4 + 1 + 8 + 8 + 11);
}

#[test]
fn message_round_trip_empty_text() {
    let p = Packet::Message(ChatMessage {
        chat_id: 0,
        sender_id: 0,
        message: String::new(),
    });
    let (q, n) = round_trip(p.clone());
    assert_eq!(q, p);
    assert_eq!(n, 21);
}

#[test]
fn disconnect_round_trip() {
    let (q, n) = round_trip(Packet::Disconnect);
    assert_eq!(q, Packet::Disconnect);
    assert_eq!(n, 5);
}

#[test]
fn exact_wire_bytes_welcome() {
    let frame = encode_packet(&Packet::Welcome(ServerWelcomeData { client_id: 5 })).unwrap();
    assert_eq!(frame, vec![9, 0, 0, 0, 1, 5, 0, 0, 0, 0, 0, 0, 0]);
}

#[test]
fn exact_wire_bytes_connect() {
    let frame = encode_packet(&Packet::Connect(ClientConnectData::new("A".to_string()))).unwrap();
    assert_eq!(frame, vec![2, 0, 0, 0, 0, 65]);
}

#[test]
fn exact_wire_bytes_disconnect() {
    let frame = encode_packet(&Packet::Disconnect).unwrap();
    assert_eq!(frame, vec![1, 0, 0, 0, 3]);
}

#[test]
fn decode_incomplete_prefix() {
    assert!(matches!(decode_packet(&[]), Decoded::Incomplete));
    assert!(matches!(decode_packet(&[9, 0, 0]), Decoded::Incomplete));
}

#[test]
fn decode_incomplete_body() {
    // Frame announces 9 body bytes but only 3 arrived so far.
    assert!(matches!(
        decode_packet(&[9, 0, 0, 0, 1, 5, 0]),
        Decoded::Incomplete
    ));
}

#[test]
fn decode_malformed_unknown_tag() {
    assert!(matches!(decode_packet(&[1, 0, 0, 0, 200]), Decoded::Malformed));
}

#[test]
fn decode_malformed_empty_body() {
    assert!(matches!(decode_packet(&[0, 0, 0, 0]), Decoded::Malformed));
}

#[test]
fn decode_malformed_bad_utf8_name() {
    // Connect whose name bytes are not valid UTF-8.
    assert!(matches!(
        decode_packet(&[2, 0, 0, 0, 0, 0xFF]),
        Decoded::Malformed
    ));
}

#[test]
fn decode_malformed_welcome_wrong_length() {
    assert!(matches!(
        decode_packet(&[2, 0, 0, 0, 1, 5]),
        Decoded::Malformed
    ));
}

#[test]
fn decode_malformed_trailing_disconnect() {
    assert!(matches!(
        decode_packet(&[2, 0, 0, 0, 3, 3]),
        Decoded::Malformed
    ));
}

#[test]
fn decode_coalesced_frames() {
    // Two frames in one buffer: the first is decoded, consuming exactly its
    // own bytes; decoding the rest yields the second.
    let mut buf = encode_packet(&Packet::Disconnect).unwrap();
    let second = Packet::Message(ChatMessage {
        chat_id: 1,
        sender_id: 3,
        message: "hi".to_string(),
    });
    buf.extend_from_slice(&encode_packet(&second).unwrap());
    let (p1, n1) = match decode_packet(&buf) {
        Decoded::Packet(p, n) => (p, n),
        other => panic!("expected packet, got {:?}", other),
    };
    assert_eq!(p1, Packet::Disconnect);
    let (p2, n2) = match decode_packet(&buf[n1..]) {
        Decoded::Packet(p, n) => (p, n),
        other => panic!("expected packet, got {:?}", other),
    };
    assert_eq!(p2, second);
    assert_eq!(n1 + n2, buf.len());
}

#[test]
fn large_text_round_trips() {
    // Only a text beyond the 4-byte length prefix is refused; allocating
    // 4 GiB in a test is unreasonable, so this exercises a large but
    // encodable text instead.
    let text = "x".repeat(1 << 20);
    let p = Packet::Message(ChatMessage {
        chat_id: 1,
        sender_id: 1,
        message: text,
    });
    let (q, _) = round_trip(p);
    match q {
        Packet::Message(m) => assert_eq!(m.message.len(), 1 << 20),
        other => panic!("wrong variant: {:?}", other),
    }
}
