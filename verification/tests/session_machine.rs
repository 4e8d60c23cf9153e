use chat_relay::client::{client_hello, compose_chat, parse_welcome, read_msg_from_server, ServerMsg};
use chat_relay::codec::encode_packet;
use chat_relay::error::RatError;
use chat_relay::message::{ChatMessage, ClientConnectData, Packet};
use chat_relay::registry::ClientManager;
use chat_relay::relay::{relay_step, FanoutBus, IngestionQueue};
use chat_relay::session::{start_session, HandshakeStep, Session, SessionStep};

fn accept(reg: &mut ClientManager, bus: &mut FanoutBus, name: &str) -> (Session, Vec<u8>) {
    let hello = client_hello(name.to_string()).unwrap();
    match start_session(reg, bus, &hello) {
        HandshakeStep::Accepted(sess, reply) => (sess, reply),
        other => panic!("handshake refused: {:?}", other),
    }
}

#[test]
fn scenario_alice_and_bob() {
    let mut reg = ClientManager::new();
    let mut bus = FanoutBus::new();
    let mut q = IngestionQueue::new(16);

    // Alice connects and is welcomed with id 0.
    let (mut alice, reply_a) = accept(&mut reg, &mut bus, "Alice");
    assert_eq!(parse_welcome(&reply_a).unwrap().0, 0);
    assert_eq!(alice.get_id(), 0);
    assert_eq!(alice.get_name(), "Alice");

    // Bob connects and is welcomed with id 1.
    let (bob, reply_b) = accept(&mut reg, &mut bus, "Bob");
    assert_eq!(parse_welcome(&reply_b).unwrap().0, 1);

    // Alice sends "hi": her session stamps her id and ingests it.
    let frame = compose_chat(2, 999, "hi".to_string()).unwrap();
    alice.feed(&frame);
    let cm = match alice.next_step() {
        SessionStep::Enqueue(cm) => cm,
        other => panic!("expected an ingested message, got {:?}", other),
    };
    assert_eq!(cm.sender_id, 0);
    assert_eq!(cm.message, "hi");
    assert!(q.try_enqueue(cm).is_none());

    // The relay loop moves it to the bus; Bob receives it with Alice's id.
    assert!(relay_step(&mut q, &mut bus));
    let delivered = bus.try_recv(bob.get_sub()).unwrap();
    assert_eq!(delivered.sender_id, 0);
    assert_eq!(delivered.message, "hi");

    // Bob's session frames it for his socket, sender id untouched.
    let out = bob.on_bus_message(&delivered).unwrap();
    match read_msg_from_server(&out).unwrap() {
        ServerMsg::Chat(m, _) => {
            assert_eq!(m.sender_id, 0);
            assert_eq!(m.message, "hi");
        }
        other => panic!("expected a chat message, got {:?}", other),
    }

    // Self-echo policy: the bus delivers to every live subscription alike, so
    // Alice receives her own message too.
    let echoed = bus.try_recv(alice.get_sub()).unwrap();
    assert_eq!(echoed.sender_id, 0);
    assert_eq!(echoed.message, "hi");
}

#[test]
fn welcome_subscription_starts_after_earlier_traffic() {
    // A session subscribing at logical time T observes nothing relayed at or
    // before T.
    let mut reg = ClientManager::new();
    let mut bus = FanoutBus::new();
    bus.publish(ChatMessage { chat_id: 2, sender_id: 9, message: "old".to_string() });
    let (late, _) = accept(&mut reg, &mut bus, "late");
    assert!(bus.try_recv(late.get_sub()).is_none());
}

#[test]
fn disconnect_terminates_and_releases() {
    let mut reg = ClientManager::new();
    let mut bus = FanoutBus::new();
    let (mut sess, _) = accept(&mut reg, &mut bus, "Alice");
    let (other, _) = accept(&mut reg, &mut bus, "Bob");
    let id = sess.get_id();
    assert!(reg.contains_id(id));

    sess.feed(&encode_packet(&Packet::Disconnect).unwrap());
    assert!(matches!(sess.next_step(), SessionStep::Closed));
    assert!(sess.is_closed());

    // The terminal transition releases registry entry and subscription
    // together, exactly once.
    sess.finish(&mut reg, &mut bus);
    assert!(!reg.contains_id(id));
    assert!(reg.contains_id(other.get_id()));

    // Publishing past the stale subscriber neither blocks nor errors, and
    // the remaining subscriber still receives.
    bus.publish(ChatMessage { chat_id: 2, sender_id: 1, message: "on it goes".to_string() });
    assert_eq!(bus.try_recv(other.get_sub()).unwrap().message, "on it goes");
}

#[test]
fn eof_terminates_session() {
    let mut reg = ClientManager::new();
    let mut bus = FanoutBus::new();
    let (mut sess, _) = accept(&mut reg, &mut bus, "Alice");
    // A zero-length read means the peer closed the stream.
    sess.on_socket_closed();
    assert!(sess.is_closed());
    sess.finish(&mut reg, &mut bus);
    assert!(!reg.contains_id(0));
}

#[test]
fn protocol_error_in_active_state_closes() {
    // A Connect while already active is structurally valid but wrong for the
    // state: the session closes instead of looping on it.
    let mut reg = ClientManager::new();
    let mut bus = FanoutBus::new();
    let (mut sess, _) = accept(&mut reg, &mut bus, "Alice");
    let frame = encode_packet(&Packet::Connect(ClientConnectData::new("again".to_string())))
        .unwrap();
    sess.feed(&frame);
    assert!(matches!(sess.next_step(), SessionStep::Closed));
    assert!(sess.is_closed());
}

#[test]
fn malformed_frame_closes_session() {
    let mut reg = ClientManager::new();
    let mut bus = FanoutBus::new();
    let (mut sess, _) = accept(&mut reg, &mut bus, "Alice");
    sess.feed(&[1, 0, 0, 0, 222]);
    assert!(matches!(sess.next_step(), SessionStep::Closed));
    assert!(sess.is_closed());
}

#[test]
fn split_reads_reassemble_frames() {
    // One transport read is not one packet: a frame split over three reads
    // is reassembled, and two coalesced frames are consumed one at a time.
    let mut reg = ClientManager::new();
    let mut bus = FanoutBus::new();
    let (mut sess, _) = accept(&mut reg, &mut bus, "Alice");

    let mut bytes = compose_chat(2, 0, "split".to_string()).unwrap();
    bytes.extend_from_slice(&compose_chat(2, 0, "coalesced".to_string()).unwrap());
    let (a, rest) = bytes.split_at(3);
    let (b, c) = rest.split_at(7);

    sess.feed(a);
    assert!(matches!(sess.next_step(), SessionStep::Wait));
    sess.feed(b);
    assert!(matches!(sess.next_step(), SessionStep::Wait));
    sess.feed(c);
    match sess.next_step() {
        SessionStep::Enqueue(m) => assert_eq!(m.message, "split"),
        other => panic!("expected first message, got {:?}", other),
    }
    match sess.next_step() {
        SessionStep::Enqueue(m) => assert_eq!(m.message, "coalesced"),
        other => panic!("expected second message, got {:?}", other),
    }
    assert!(matches!(sess.next_step(), SessionStep::Wait));
}

#[test]
fn handshake_leftover_bytes_stay_buffered() {
    // A client that coalesces its Connect with its first Message loses
    // nothing: the leftover bytes seed the session's receive buffer.
    let mut reg = ClientManager::new();
    let mut bus = FanoutBus::new();
    let mut bytes = client_hello("Alice".to_string()).unwrap();
    bytes.extend_from_slice(&compose_chat(2, 0, "early".to_string()).unwrap());
    let mut sess = match start_session(&mut reg, &mut bus, &bytes) {
        HandshakeStep::Accepted(sess, _) => sess,
        other => panic!("handshake refused: {:?}", other),
    };
    match sess.next_step() {
        SessionStep::Enqueue(m) => {
            assert_eq!(m.message, "early");
            assert_eq!(m.sender_id, 0);
        }
        other => panic!("expected the early message, got {:?}", other),
    }
}

#[test]
fn handshake_rejects_wrong_first_packet() {
    let mut reg = ClientManager::new();
    let mut bus = FanoutBus::new();
    let frame = encode_packet(&Packet::Disconnect).unwrap();
    match start_session(&mut reg, &mut bus, &frame) {
        HandshakeStep::Rejected(RatError::ProtocolError) => {}
        other => panic!("expected protocol rejection, got {:?}", other),
    }
    assert_eq!(reg.len(), 0);
}

#[test]
fn handshake_rejects_garbage_and_waits_on_partial() {
    let mut reg = ClientManager::new();
    let mut bus = FanoutBus::new();
    match start_session(&mut reg, &mut bus, &[1, 0, 0, 0, 77]) {
        HandshakeStep::Rejected(RatError::ParseError) => {}
        other => panic!("expected parse rejection, got {:?}", other),
    }
    assert!(matches!(
        start_session(&mut reg, &mut bus, &[9, 0]),
        HandshakeStep::NeedMoreData
    ));
    assert_eq!(reg.len(), 0);
}

#[test]
fn client_side_classifies_server_frames() {
    let hello = client_hello("Alice".to_string()).unwrap();
    // The hello is a Connect, which a client must never receive back.
    match read_msg_from_server(&hello) {
        Err(RatError::ProtocolError) => {}
        other => panic!("expected protocol error, got {:?}", other),
    }
    let bye = encode_packet(&Packet::Disconnect).unwrap();
    assert!(matches!(read_msg_from_server(&bye), Ok(ServerMsg::Closed(_))));
    assert!(matches!(read_msg_from_server(&bye[..2]), Ok(ServerMsg::Pending)));
    match parse_welcome(&bye) {
        Err(RatError::ProtocolError) => {}
        other => panic!("expected protocol error, got {:?}", other),
    }
    match parse_welcome(&[5, 5, 5]) {
        Err(RatError::ParseError) => {}
        other => panic!("expected parse error, got {:?}", other),
    }
}
