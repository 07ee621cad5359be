//! Protocol messages: canonical wire form, validation, signing.

use tor_messenger::crypto::CryptoHandler;
use tor_messenger::message::{Message, MessageProtocol, MessageType, Payload};

fn plain_message(
    id: &str,
    msg_type: MessageType,
    timestamp: i64,
    sender: Option<&str>,
    version: &str,
) -> Message {
    Message {
        id: id.to_string(),
        msg_type,
        payload: Payload::Empty,
        timestamp,
        sender_id: sender.map(|s| s.to_string()),
        recipient_id: None,
        signature: None,
        version: version.to_string(),
    }
}

#[test]
fn canonical_form_is_exact() {
    let m = Message {
        id: "abc".to_string(),
        msg_type: MessageType::Ping,
        payload: Payload::Empty,
        timestamp: 5,
        sender_id: Some("alice".to_string()),
        recipient_id: None,
        signature: None,
        version: "1.0".to_string(),
    };
    assert_eq!(
        m.to_json(),
        "{\"id\":\"abc\",\"payload\":{},\"sender_id\":\"alice\",\"timestamp\":5,\"type\":\"ping\",\"version\":\"1.0\"}"
    );
}

#[test]
fn canonical_handshake_form() {
    let m = Message {
        id: "x".to_string(),
        msg_type: MessageType::Handshake,
        payload: Payload::Handshake { protocol_version: "1.0".to_string(), is_response: true },
        timestamp: -7,
        sender_id: Some("s".to_string()),
        recipient_id: Some("r".to_string()),
        signature: Some("SIG".to_string()),
        version: "1.0".to_string(),
    };
    assert_eq!(
        m.to_json(),
        "{\"id\":\"x\",\"payload\":{\"is_response\":true,\"protocol_version\":\"1.0\"},\"recipient_id\":\"r\",\"sender_id\":\"s\",\"signature\":\"SIG\",\"timestamp\":-7,\"type\":\"handshake\",\"version\":\"1.0\"}"
    );
}

#[test]
fn wire_round_trip() {
    let built = MessageProtocol::create_handshake_message("someaddr", false);
    let json = built.to_json();
    let parsed = Message::from_json(&json).unwrap();
    assert_eq!(parsed.id, built.id);
    assert_eq!(parsed.msg_type, MessageType::Handshake);
    assert_eq!(parsed.timestamp, built.timestamp);
    assert_eq!(parsed.sender_id, Some("someaddr".to_string()));
    assert_eq!(parsed.version, "1.0");
    match &parsed.payload {
        Payload::Handshake { protocol_version, is_response } => {
            assert_eq!(protocol_version, "1.0");
            assert!(!is_response);
        },
        _ => panic!("wrong payload shape"),
    }
    assert_eq!(parsed.to_json(), json);
}

#[test]
fn rejects_non_json() {
    assert!(Message::from_json("hello there").is_err());
    assert!(Message::from_json("").is_err());
    assert!(Message::from_json("PING").is_err());
}

#[test]
fn rejects_non_protocol_json() {
    assert!(Message::from_json("{\"a\":1}").is_err());
    assert!(Message::from_json("{}").is_err());
    // Right keys, wrong order: not the canonical form.
    assert!(
        Message::from_json(
            "{\"payload\":{},\"id\":\"abc\",\"timestamp\":5,\"type\":\"ping\",\"version\":\"1.0\"}"
        )
        .is_err()
    );
}

#[test]
fn validation_rules() {
    let now: i64 = 1_000_000;
    // Empty identifier: rejected.
    let m = plain_message("", MessageType::Text, now, Some("s"), "1.0");
    assert!(!MessageProtocol::validate_message(&m, now));
    // Wrong version: rejected.
    let m = plain_message("i", MessageType::Text, now, Some("s"), "2.0");
    assert!(!MessageProtocol::validate_message(&m, now));
    // More than 300 seconds ahead of the clock: rejected.
    let m = plain_message("i", MessageType::Text, now + 301, Some("s"), "1.0");
    assert!(!MessageProtocol::validate_message(&m, now));
    // Exactly 300 seconds ahead: accepted.
    let m = plain_message("i", MessageType::Text, now + 300, Some("s"), "1.0");
    assert!(MessageProtocol::validate_message(&m, now));
    // Text without a sender: rejected.
    let m = plain_message("i", MessageType::Text, now, None, "1.0");
    assert!(!MessageProtocol::validate_message(&m, now));
    // Ping without a sender: accepted.
    let m = plain_message("i", MessageType::Ping, now, None, "1.0");
    assert!(MessageProtocol::validate_message(&m, now));
    // Pong without a sender: accepted.
    let m = plain_message("i", MessageType::Pong, now, None, "1.0");
    assert!(MessageProtocol::validate_message(&m, now));
    // A well-formed message: accepted.
    let m = plain_message("i", MessageType::Text, now - 50, Some("s"), "1.0");
    assert!(MessageProtocol::validate_message(&m, now));
}

#[test]
fn builders_fill_the_fixed_fields() {
    let t = MessageProtocol::create_text_message("hi", "a", "b");
    assert_eq!(t.msg_type, MessageType::Text);
    assert_eq!(t.version, "1.0");
    assert_eq!(t.id.len(), 36);
    assert!(t.signature.is_none());
    let a = MessageProtocol::create_ack_message("orig", "a");
    assert_eq!(a.msg_type, MessageType::Ack);
    match a.payload {
        Payload::Ack { original_msg_id } => assert_eq!(original_msg_id, "orig"),
        _ => panic!("wrong payload shape"),
    }
    let p = MessageProtocol::create_ping_message("a");
    assert_eq!(p.msg_type, MessageType::Ping);
    let q = MessageProtocol::create_pong_message("a");
    assert_eq!(q.msg_type, MessageType::Pong);
    assert_ne!(t.id, a.id);
}

#[test]
fn kind_tags() {
    assert_eq!(MessageType::Text.as_str(), "text");
    assert_eq!(MessageType::Handshake.as_str(), "handshake");
    assert_eq!(MessageType::KeyExchange.as_str(), "key_exchange");
    assert_eq!(MessageType::Ipfs.as_str(), "ipfs");
}

#[test]
fn signing_survives_reserialization() {
    // A signed message still verifies after a trip through the wire form:
    // signing input and wire form are both canonical.
    let mut rng = rand::thread_rng();
    let signing_key = ed25519_dalek::SigningKey::generate(&mut rng);
    let pk = signing_key.verifying_key();
    let onion = tor_messenger::address::onion_encode(&pk.as_bytes().to_vec());
    let mut hasher = <sha2::Sha512 as sha2::Digest>::new();
    sha2::Digest::update(&mut hasher, signing_key.to_bytes());
    let hash = sha2::Digest::finalize(hasher);
    let mut expanded = [0u8; 64];
    expanded.copy_from_slice(&hash);
    expanded[0] &= 248;
    expanded[31] &= 127;
    expanded[31] |= 64;
    let mut crypto = CryptoHandler::new().unwrap();
    crypto.set_onion_signing_key(&expanded).unwrap();

    let mut m = MessageProtocol::create_text_message("payload text", &onion, "peeraddr");
    MessageProtocol::sign_message(&mut m, &crypto).unwrap();
    assert!(MessageProtocol::verify_message(&m, "", &crypto));

    let json = m.to_json();
    let back = Message::from_json(&json).unwrap();
    assert!(MessageProtocol::verify_message(&back, "", &crypto));
}
