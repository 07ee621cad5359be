//! The store's idempotent insertion, the dispatch engine, and offline
//! staging, end to end with the real crypto.

use ed25519_dalek::SigningKey;
use sha2::Digest;

use tor_messenger::crypto::CryptoHandler;
use tor_messenger::engine::{
    add_contact, dispatch_message, handle_incoming_message, prepare_text_message,
    process_staged_package, InboundOutcome,
};
use tor_messenger::message::MessageProtocol;
use tor_messenger::snf::SnFManager;
use tor_messenger::storage::MessageStorage;

fn identity() -> (String, CryptoHandler) {
    let mut rng = rand::thread_rng();
    let signing_key = SigningKey::generate(&mut rng);
    let pk = signing_key.verifying_key();
    let onion = tor_messenger::address::onion_encode(&pk.as_bytes().to_vec());
    let mut hasher = sha2::Sha512::new();
    hasher.update(signing_key.to_bytes());
    let hash = hasher.finalize();
    let mut expanded = [0u8; 64];
    expanded.copy_from_slice(&hash);
    expanded[0] &= 248;
    expanded[31] &= 127;
    expanded[31] |= 64;
    let mut crypto = CryptoHandler::new().unwrap();
    crypto.set_onion_signing_key(&expanded).unwrap();
    (onion, crypto)
}

fn now() -> i64 {
    // A fixed, generous clock reading keeps freshly built messages valid.
    4_000_000_000
}

#[test]
fn duplicate_insert_is_ignored() {
    let mut store = MessageStorage::new().unwrap();
    let first = store
        .save_message("id-1", "text", Some("a"), Some("b"), "hello", 10, true)
        .unwrap();
    assert!(first);
    let second = store
        .save_message("id-1", "text", Some("a"), Some("b"), "hello again", 11, false)
        .unwrap();
    assert!(!second);
    let rows = store.get_messages(None, 10).unwrap();
    assert_eq!(rows.len(), 1);
    assert_eq!(rows[0].payload, "hello");
}

#[test]
fn store_select_and_filter() {
    let mut store = MessageStorage::new().unwrap();
    store.save_message("1", "text", Some("a"), Some("me"), "one", 1, false).unwrap();
    store.save_message("2", "text", Some("me"), Some("a"), "two", 2, true).unwrap();
    store.save_message("3", "text", Some("c"), Some("me"), "three", 3, false).unwrap();
    let all = store.get_messages(None, 10).unwrap();
    assert_eq!(all.len(), 3);
    // Newest first.
    assert_eq!(all[0].payload, "three");
    let with_a = store.get_messages(Some("a"), 10).unwrap();
    assert_eq!(with_a.len(), 2);
    assert_eq!(with_a[0].payload, "two");
    let limited = store.get_messages(None, 1).unwrap();
    assert_eq!(limited.len(), 1);
    assert_eq!(limited[0].payload, "three");
}

#[test]
fn contacts_upsert_and_delete() {
    let mut store = MessageStorage::new().unwrap();
    store.add_contact("peer1", Some("nick"), None).unwrap();
    store.add_contact("peer1", Some("newnick"), Some("key")).unwrap();
    assert_eq!(store.get_all_contacts().unwrap().len(), 1);
    let c = store.get_contact("peer1").unwrap().unwrap();
    assert_eq!(c.nickname, Some("newnick".to_string()));
    assert!(store.get_contact("nobody").unwrap().is_none());
    assert!(store.delete_contact("peer1").unwrap());
    assert!(!store.delete_contact("peer1").unwrap());
}

#[test]
fn clear_and_delete_chat_and_wipe() {
    let mut store = MessageStorage::new().unwrap();
    store.add_contact("p", None, None).unwrap();
    store.save_message("1", "text", Some("p"), Some("me"), "x", 1, false).unwrap();
    store.save_message("2", "text", Some("q"), Some("me"), "y", 2, false).unwrap();
    let removed = store.clear_chat("p").unwrap();
    assert_eq!(removed, 1);
    assert_eq!(store.get_messages(None, 10).unwrap().len(), 1);
    assert!(store.get_contact("p").unwrap().is_some());
    store.save_message("3", "text", Some("p"), None, "z", 3, false).unwrap();
    store.delete_chat("p").unwrap();
    assert!(store.get_contact("p").unwrap().is_none());
    assert_eq!(store.get_messages(Some("p"), 10).unwrap().len(), 0);
    store.wipe().unwrap();
    assert_eq!(store.get_messages(None, 10).unwrap().len(), 0);
    assert_eq!(store.get_all_contacts().unwrap().len(), 0);
}

#[test]
fn mark_as_read_flags_one_row() {
    let mut store = MessageStorage::new().unwrap();
    store.save_message("m1", "text", Some("a"), None, "x", 1, false).unwrap();
    assert!(store.mark_as_read("m1").unwrap());
    assert!(!store.mark_as_read("missing").unwrap());
    let rows = store.get_messages(None, 10).unwrap();
    assert!(rows[0].is_read);
}

#[test]
fn direct_text_delivery() {
    let (a_addr, a_crypto) = identity();
    let (b_addr, b_crypto) = identity();
    let mut b_store = MessageStorage::new().unwrap();

    // No prior state is needed for the first send: the address suffices.
    let (json, sent) = prepare_text_message(&a_crypto, &a_addr, &b_addr, "hello").unwrap();

    match handle_incoming_message(&b_crypto, &mut b_store, &b_addr, &json, now()) {
        InboundOutcome::TextStored { peer, text, verified, stored } => {
            assert_eq!(peer, a_addr);
            assert_eq!(text, "hello");
            assert!(verified);
            assert!(stored);
        },
        _ => panic!("expected a stored text"),
    }
    let rows = b_store.get_messages(Some(&a_addr), 10).unwrap();
    assert_eq!(rows.len(), 1);
    assert_eq!(rows[0].payload, "hello");
    assert_eq!(rows[0].sender_id, Some(a_addr.clone()));
    assert!(!rows[0].is_sent);

    // The same frame again: duplicate-suppressed by the identifier.
    match handle_incoming_message(&b_crypto, &mut b_store, &b_addr, &json, now()) {
        InboundOutcome::TextStored { stored, .. } => assert!(!stored),
        _ => panic!("expected the duplicate to be parsed"),
    }
    assert_eq!(b_store.get_messages(Some(&a_addr), 10).unwrap().len(), 1);
    assert_eq!(sent.id.len(), 36);
}

#[test]
fn tampered_signature_is_flagged_but_stored() {
    let (a_addr, a_crypto) = identity();
    let (b_addr, b_crypto) = identity();
    let mut b_store = MessageStorage::new().unwrap();

    let (_, mut msg) = prepare_text_message(&a_crypto, &a_addr, &b_addr, "msg").unwrap();
    // Flip one character of the signature in transit.
    let sig = msg.signature.take().unwrap();
    let mut chars: Vec<char> = sig.chars().collect();
    chars[0] = if chars[0] == 'A' { 'B' } else { 'A' };
    msg.signature = Some(chars.into_iter().collect());
    let tampered = msg.to_json();

    match handle_incoming_message(&b_crypto, &mut b_store, &b_addr, &tampered, now()) {
        InboundOutcome::TextStored { text, verified, stored, .. } => {
            assert_eq!(text, "msg");
            assert!(!verified);
            assert!(stored);
        },
        _ => panic!("expected the tampered text to still decrypt"),
    }
}

#[test]
fn handshake_storm_yields_a_reply_each() {
    let (b_addr, b_crypto) = identity();
    let mut b_store = MessageStorage::new().unwrap();
    let mut replies = 0;
    for i in 0..64 {
        let peer = format!("peer-number-{}", i);
        let hs = MessageProtocol::create_handshake_message(&peer, false);
        let json = hs.to_json();
        match handle_incoming_message(&b_crypto, &mut b_store, &b_addr, &json, now()) {
            InboundOutcome::HandshakeReply { peer: p, response_json } => {
                assert_eq!(p, peer);
                let reply = tor_messenger::message::Message::from_json(&response_json).unwrap();
                assert_eq!(reply.msg_type, tor_messenger::message::MessageType::Handshake);
                assert_eq!(reply.sender_id, Some(b_addr.clone()));
                match reply.payload {
                    tor_messenger::message::Payload::Handshake { is_response, .. } => {
                        assert!(is_response)
                    },
                    _ => panic!("wrong reply payload"),
                }
                assert!(MessageProtocol::verify_message(&reply, "", &b_crypto));
                replies += 1;
            },
            _ => panic!("expected a handshake reply"),
        }
    }
    assert_eq!(replies, 64);
    assert_eq!(b_store.get_all_contacts().unwrap().len(), 64);
}

#[test]
fn response_handshake_completes_exchange() {
    let (a_addr, _a_crypto) = identity();
    let (b_addr, b_crypto) = identity();
    let mut b_store = MessageStorage::new().unwrap();
    let hs = MessageProtocol::create_handshake_message(&a_addr, true);
    let json = hs.to_json();
    match handle_incoming_message(&b_crypto, &mut b_store, &b_addr, &json, now()) {
        InboundOutcome::HandshakeComplete { peer } => assert_eq!(peer, a_addr),
        _ => panic!("expected completion"),
    }
}

#[test]
fn stale_message_is_rejected() {
    let (a_addr, a_crypto) = identity();
    let (b_addr, b_crypto) = identity();
    let mut b_store = MessageStorage::new().unwrap();
    let (_, msg) = prepare_text_message(&a_crypto, &a_addr, &b_addr, "late").unwrap();
    // Pretend the local clock is far behind the message's timestamp.
    let past = msg.timestamp - 301;
    match dispatch_message(&b_crypto, &mut b_store, &b_addr, &msg, past) {
        InboundOutcome::Rejected => {},
        _ => panic!("expected rejection of a future-dated message"),
    }
    assert_eq!(b_store.get_messages(None, 10).unwrap().len(), 0);
}

#[test]
fn offline_fallback_round_trip() {
    let (a_addr, a_crypto) = identity();
    let (b_addr, b_crypto) = identity();
    let mut b_store = MessageStorage::new().unwrap();

    // The sender's inner envelope, then the staged record.
    let env = a_crypto.encrypt_message("ping", &b_addr).unwrap();
    let pkg = SnFManager::prepare_staged_package(&b_addr, &a_addr, env, &a_crypto).unwrap();

    // The record key is the hex SHA-256 of the recipient address.
    let mut h = sha2::Sha256::new();
    h.update(b_addr.as_bytes());
    assert_eq!(pkg.recipient_hash, format!("{:x}", h.finalize()));
    assert_eq!(pkg.recipient_hash, SnFManager::get_onion_hash(&b_addr));

    // Through the table and back.
    let bytes = SnFManager::package_to_bytes(&pkg);
    let fetched = SnFManager::package_from_bytes(&bytes).unwrap();

    match process_staged_package(&b_crypto, &mut b_store, &b_addr, &fetched) {
        InboundOutcome::TextStored { peer, text, verified, stored } => {
            assert_eq!(peer, a_addr);
            assert_eq!(text, "ping");
            assert!(verified);
            assert!(stored);
        },
        _ => panic!("expected the staged text to be recovered"),
    }

    // Fetching the same record again stores nothing new.
    match process_staged_package(&b_crypto, &mut b_store, &b_addr, &fetched) {
        InboundOutcome::TextStored { stored, .. } => assert!(!stored),
        _ => panic!("expected the duplicate to be parsed"),
    }
    assert_eq!(b_store.get_messages(None, 10).unwrap().len(), 1);

    // Only the intended recipient can open the record.
    let (c_addr, c_crypto) = identity();
    let mut c_store = MessageStorage::new().unwrap();
    match process_staged_package(&c_crypto, &mut c_store, &c_addr, &fetched) {
        InboundOutcome::Rejected => {},
        _ => panic!("expected a foreign identity to fail"),
    }
}

#[test]
fn invalid_address_rejected_without_side_effects() {
    let (b_addr, b_crypto) = identity();
    let mut store = MessageStorage::new().unwrap();
    // A 55-character body is one symbol short of an address.
    let short = "a".repeat(55);
    assert!(add_contact(&b_crypto, &mut store, &b_addr, &short, None).is_err());
    assert_eq!(store.get_all_contacts().unwrap().len(), 0);

    // A valid address is stored and gets a signed initial handshake.
    let (peer_addr, _) = identity();
    let json = add_contact(&b_crypto, &mut store, &b_addr, &peer_addr, Some("pal")).unwrap();
    assert_eq!(store.get_all_contacts().unwrap().len(), 1);
    let hs = tor_messenger::message::Message::from_json(&json).unwrap();
    assert_eq!(hs.msg_type, tor_messenger::message::MessageType::Handshake);
    assert_eq!(hs.sender_id, Some(b_addr.clone()));
    match hs.payload {
        tor_messenger::message::Payload::Handshake { is_response, .. } => assert!(!is_response),
        _ => panic!("wrong payload shape"),
    }
    assert!(MessageProtocol::verify_message(&hs, "", &b_crypto));
}

#[test]
fn web_frame_is_surfaced_not_stored() {
    let (b_addr, b_crypto) = identity();
    let mut b_store = MessageStorage::new().unwrap();
    let frame =
        tor_messenger::transport::web_message_from_form("visitor", "hi there", "2024-01-01 00:00:00")
            .unwrap();
    match handle_incoming_message(&b_crypto, &mut b_store, &b_addr, &frame, now()) {
        InboundOutcome::Web { sender, text } => {
            assert_eq!(sender, "visitor");
            assert_eq!(text, "hi there");
        },
        _ => panic!("expected a web message"),
    }
    assert_eq!(b_store.get_messages(None, 10).unwrap().len(), 0);
}
