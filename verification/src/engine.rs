//! Dispatch and delivery engine.
//!
//! The engine turns inbound wire strings into store updates and reactions,
//! and prepares outbound messages for the transport.  It owns no sockets:
//! the host performs delivery and hands results back, so every decision
//! here is a function of plain values.  A response handshake is returned
//! as data for the host to send from its own worker, never sent while any
//! state is borrowed.

use vstd::prelude::*;
use vstd::string::StrSliceExecFns;
use vstd::string::StringSliceAdditionalSpecFns;

use crate::address;
use crate::crypto::{str_bytes, CryptoError, CryptoHandler};
use crate::message::{
    message_like, payload_env, spec_signing_input, spec_valid, spec_version_bytes, Message,
    MessageProtocol, MessageType, Payload,
};
use crate::snf::IpfsPackage;
use crate::storage::{seq_has_addr, seq_has_id, spec_insert, MessageStorage};
use crate::trusted::{b64_of, ed_sign_of, ed_to_mont};
use crate::util;
use crate::util::json_safe;
use crate::wire;

verus! {

/// What an inbound frame led to.
pub enum InboundOutcome {
    /// Malformed, invalid or unencrypted input: dropped silently.
    Rejected,
    /// A browser message from the landing page, surfaced unauthenticated.
    Web { sender: String, text: String },
    /// A response handshake: the exchange with `peer` is complete.
    HandshakeComplete { peer: String },
    /// An initial handshake: the host must send `response_json` to `peer`
    /// from a separate worker.
    HandshakeReply { peer: String, response_json: String },
    /// A decrypted text, persisted unless its identifier was seen before.
    TextStored { peer: String, text: String, verified: bool, stored: bool },
    /// Inbound decryption failed: dropped without an error to the peer.
    DecryptFailed { peer: String },
    /// A kind the engine does not react to.
    Ignored,
}

/// A correct handshake message: well-formed, marked as initial or as a
/// response by `is_resp`, from our own address, signed with the local
/// identity whenever one is installed.
pub open spec fn spec_handshake_msg(
    m: Message,
    our: Seq<char>,
    crypto: CryptoHandler,
    is_resp: bool,
) -> bool {
    &&& m.wf()
    &&& m.msg_type == MessageType::Handshake
    &&& m.payload matches Payload::Handshake { protocol_version: v, is_response: ir } && ir
        == is_resp && str_bytes(v@) == spec_version_bytes()
    &&& m.sender_id matches Some(s) && s@ == our
    &&& crypto.has_key() ==> (m.signature matches Some(sig) && str_bytes(sig@) == b64_of(
        ed_sign_of(crypto.expanded_key(), spec_signing_input(m)),
    ))
}

/// A correct response handshake.
pub open spec fn spec_handshake_reply(m: Message, our: Seq<char>, crypto: CryptoHandler) -> bool {
    spec_handshake_msg(m, our, crypto, true)
}

/// The kinds that carry an encrypted body: text and the media variants.
pub open spec fn is_media_kind(t: MessageType) -> bool {
    t == MessageType::Text || t == MessageType::Image || t == MessageType::Audio || t
        == MessageType::File
}

/// Dispatch one parsed protocol message: validate it, then react by kind.
/// An initial handshake always yields a reply to send; a valid encrypted
/// text is decrypted and stored at most once.
pub fn dispatch_message(
    crypto: &CryptoHandler,
    storage: &mut MessageStorage,
    our_onion: &str,
    msg: &Message,
    now: i64,
) -> (r: InboundOutcome)
    requires
        crypto.wf(),
        old(storage).wf(),
        msg.wf(),
        json_safe(our_onion.spec_bytes()),
    ensures
        final(storage).wf(),
        !spec_valid(*msg, now) ==> r == InboundOutcome::Rejected && *final(storage) == *old(storage),
        (spec_valid(*msg, now) && msg.msg_type == MessageType::Handshake && (
        msg.payload matches Payload::Handshake { is_response: false, .. }) && msg.sender_id
            is Some) ==> r is HandshakeReply,
        r matches InboundOutcome::HandshakeReply { peer, response_json } ==> (
        msg.sender_id is Some && peer@ == msg.sender_id.unwrap()@ && exists|m2: Message|
            #[trigger] spec_handshake_reply(m2, our_onion@, *crypto) && str_bytes(response_json@)
                == wire::spec_message_json(m2)),
        (spec_valid(*msg, now) && msg.msg_type == MessageType::Handshake && msg.sender_id
            is Some) ==> seq_has_addr(
            final(storage).contacts_view(),
            msg.sender_id.unwrap()@,
        ),
        final(storage).messages_view() == old(storage).messages_view() || final(storage).messages_view() == spec_insert(
            old(storage).messages_view(),
            final(storage).messages_view().last(),
        ),
        final(storage).contacts_view() == old(storage).contacts_view() || msg.msg_type
            == MessageType::Handshake,
        !(r is Web),
        (r is Rejected || r is DecryptFailed || r is Ignored) ==> *final(storage) == *old(storage),
        (spec_valid(*msg, now) && is_media_kind(msg.msg_type) && !(
        msg.payload matches Payload::Encrypted { .. })) ==> r == InboundOutcome::Rejected,
        forall|cs: Seq<char>, esk: Seq<u8>, nonce: Seq<u8>|
            (spec_valid(*msg, now) && is_media_kind(msg.msg_type) && crypto.has_key() && (
            msg.payload matches Payload::Encrypted { .. })
                && #[trigger] crate::crypto::spec_sealed_with(
                payload_env(msg.payload),
                crate::trusted::x25519_base(crypto.scalar()),
                str_bytes(cs),
                esk,
                nonce,
            )) ==> (r matches InboundOutcome::TextStored { peer, text, verified, stored } && text@
                == cs && (msg.sender_id matches Some(sv) && peer@ == sv@) && stored
                == !seq_has_id(old(storage).messages_view(), msg.id@) && (stored ==> final(storage).messages_view().last().id@ == msg.id@ && final(storage).messages_view().last().payload@ == cs)),
{
    if !MessageProtocol::validate_message(msg, now) {
        return InboundOutcome::Rejected;
    }
    let sender = match &msg.sender_id {
        Some(s) => s,
        None => {
            return InboundOutcome::Ignored;
        },
    };
    match msg.msg_type {
        MessageType::Handshake => {
            let is_response = match &msg.payload {
                Payload::Handshake { is_response, .. } => *is_response,
                _ => false,
            };
            match storage.add_contact(sender.as_str(), None, None) {
                Ok(_) => {},
                Err(_) => {
                    proof {
                        assert(false);
                    }
                    return InboundOutcome::Rejected;
                },
            }
            if is_response {
                InboundOutcome::HandshakeComplete { peer: sender.clone() }
            } else {
                let mut reply = MessageProtocol::create_handshake_message(our_onion, true);
                match MessageProtocol::sign_message(&mut reply, crypto) {
                    Ok(_) => {},
                    Err(_) => {},
                }
                let response_json = reply.to_json();
                proof {
                    assert(spec_handshake_reply(reply, our_onion@, *crypto));
                }
                InboundOutcome::HandshakeReply { peer: sender.clone(), response_json }
            }
        },
        MessageType::Text => self::store_encrypted_text(crypto, storage, msg, sender),
        MessageType::Image => self::store_encrypted_text(crypto, storage, msg, sender),
        MessageType::Audio => self::store_encrypted_text(crypto, storage, msg, sender),
        MessageType::File => self::store_encrypted_text(crypto, storage, msg, sender),
        _ => InboundOutcome::Ignored,
    }
}

/// Verify, decrypt and persist an encrypted text or media message.  A
/// failed signature check is reported but does not block decryption; a
/// failed decryption drops the message.
fn store_encrypted_text(
    crypto: &CryptoHandler,
    storage: &mut MessageStorage,
    msg: &Message,
    sender: &String,
) -> (r: InboundOutcome)
    requires
        crypto.wf(),
        old(storage).wf(),
        msg.wf(),
    ensures
        final(storage).wf(),
        final(storage).contacts_view() == old(storage).contacts_view(),
        final(storage).messages_view() == old(storage).messages_view() || final(storage).messages_view() == spec_insert(
            old(storage).messages_view(),
            final(storage).messages_view().last(),
        ),
        r is TextStored || r is Rejected || r is DecryptFailed,
        !(msg.payload matches Payload::Encrypted { .. }) ==> r == InboundOutcome::Rejected,
        (r is Rejected || r is DecryptFailed) ==> *final(storage) == *old(storage),
        forall|cs: Seq<char>, esk: Seq<u8>, nonce: Seq<u8>|
            (crypto.has_key() && (msg.payload matches Payload::Encrypted { .. })
                && #[trigger] crate::crypto::spec_sealed_with(
                payload_env(msg.payload),
                crate::trusted::x25519_base(crypto.scalar()),
                str_bytes(cs),
                esk,
                nonce,
            )) ==> (r matches InboundOutcome::TextStored { peer, text, verified, stored } && text@
                == cs && peer@ == sender@ && stored == !seq_has_id(
                old(storage).messages_view(),
                msg.id@,
            ) && (stored ==> {
                &&& final(storage).messages_view().len() == old(storage).messages_view().len() + 1
                &&& final(storage).messages_view().last().id@ == msg.id@
                &&& final(storage).messages_view().last().payload@ == cs
                &&& (final(storage).messages_view().last().sender_id matches Some(sv) && sv@
                    == sender@)
                &&& final(storage).messages_view().last().msg_type@
                    == msg.msg_type.spec_tag_chars()
                &&& final(storage).messages_view().last().timestamp == msg.timestamp
                &&& final(storage).messages_view().last().is_sent == false
            })),
{
    let verified = MessageProtocol::verify_message(msg, "", crypto);
    let data = match &msg.payload {
        Payload::Encrypted { data } => data,
        _ => {
            return InboundOutcome::Rejected;
        },
    };
    let text = match crypto.decrypt_message(data) {
        Ok(t) => t,
        Err(_) => {
            return InboundOutcome::DecryptFailed { peer: sender.clone() };
        },
    };
    let recipient: Option<&str> = match &msg.recipient_id {
        Some(rid) => Some(rid.as_str()),
        None => None,
    };
    let tag = msg.msg_type.as_str();
    let stored = match storage.save_message(
        msg.id.as_str(),
        tag,
        Some(sender.as_str()),
        recipient,
        text.as_str(),
        msg.timestamp,
        false,
    ) {
        Ok(b) => b,
        Err(_) => {
            proof {
                assert(false);
            }
            false
        },
    };
    InboundOutcome::TextStored { peer: sender.clone(), text, verified, stored }
}

/// Handle one raw inbound frame: browser messages are surfaced as they
/// are; everything else must be the canonical form of a protocol message,
/// which is then dispatched: a valid initial handshake is always answered
/// and a valid text sealed to this identity is always decrypted and
/// stored, at most once.
#[verifier::rlimit(100)]
#[verifier::spinoff_prover]
pub fn handle_incoming_message(
    crypto: &CryptoHandler,
    storage: &mut MessageStorage,
    our_onion: &str,
    message_str: &str,
    now: i64,
) -> (r: InboundOutcome)
    requires
        crypto.wf(),
        old(storage).wf(),
        json_safe(our_onion.spec_bytes()),
    ensures
        final(storage).wf(),
        r matches InboundOutcome::HandshakeReply { peer, response_json } ==> exists|m2: Message|
            #[trigger] spec_handshake_reply(m2, our_onion@, *crypto) && str_bytes(response_json@)
                == wire::spec_message_json(m2),
        final(storage).messages_view() == old(storage).messages_view() || final(storage).messages_view() == spec_insert(
            old(storage).messages_view(),
            final(storage).messages_view().last(),
        ),
        (r is Rejected || r is DecryptFailed || r is Ignored || r is Web) ==> *final(storage)
            == *old(storage),
        r matches InboundOutcome::Web { sender, text } ==> exists|w: crate::transport::WebMessage|
            #[trigger] w.wf() && message_str.spec_bytes() == wire::spec_web_json(w) && sender@
                == w.sender@ && text@ == w.text@,
        forall|w: crate::transport::WebMessage|
            (w.wf() && message_str.spec_bytes() == #[trigger] wire::spec_web_json(w)) ==> (
            r matches InboundOutcome::Web { sender, text } && sender@ == w.sender@ && text@
                == w.text@),
        ((forall|m: Message| #[trigger] m.wf() ==> message_str.spec_bytes()
            != wire::spec_message_json(m)) && (forall|w: crate::transport::WebMessage|
            #[trigger] w.wf() ==> message_str.spec_bytes() != wire::spec_web_json(w))) ==> (r
            == InboundOutcome::Rejected && *final(storage) == *old(storage)),
        forall|m: Message|
            (m.wf() && message_str.spec_bytes() == #[trigger] wire::spec_message_json(m)
                && spec_valid(m, now) && m.msg_type == MessageType::Handshake && (
            m.payload matches Payload::Handshake { is_response: false, .. }) && m.sender_id
                is Some) ==> r is HandshakeReply,
        forall|m: Message, cs: Seq<char>, esk: Seq<u8>, nonce: Seq<u8>|
            (m.wf() && message_str.spec_bytes() == wire::spec_message_json(m) && spec_valid(
                m,
                now,
            ) && is_media_kind(m.msg_type) && crypto.has_key() && m.sender_id is Some && (
            m.payload matches Payload::Encrypted { .. })
                && #[trigger] crate::crypto::spec_sealed_with(
                payload_env(m.payload),
                crate::trusted::x25519_base(crypto.scalar()),
                str_bytes(cs),
                esk,
                nonce,
            )) ==> (r matches InboundOutcome::TextStored { peer, text, verified, stored } && text@
                == cs && stored == !seq_has_id(old(storage).messages_view(), m.id@)),
{
    let bytes: Vec<u8> = message_str.as_bytes_vec();
    match wire::web_message_from_json_bytes(&bytes) {
        Some(w) => {
            proof {
                assert forall|m: Message|
                    (m.wf() && message_str.spec_bytes() == #[trigger] wire::spec_message_json(
                        m,
                    )) implies false by {
                    wire::lemma_msg_starts(message_str.spec_bytes(), m);
                    wire::lemma_web_starts(message_str.spec_bytes(), w);
                }
            }
            return InboundOutcome::Web { sender: w.sender, text: w.text };
        },
        None => {},
    }
    let msg = match Message::from_json(message_str) {
        Ok(m) => m,
        Err(_) => {
            return InboundOutcome::Rejected;
        },
    };
    let out = dispatch_message(crypto, storage, our_onion, &msg, now);
    proof {
        assert forall|m: Message|
            (m.wf() && message_str.spec_bytes() == #[trigger] wire::spec_message_json(m)
                && spec_valid(m, now) && m.msg_type == MessageType::Handshake && (
            m.payload matches Payload::Handshake { is_response: false, .. }) && m.sender_id
                is Some) implies out is HandshakeReply by {
            assert(message_like(msg, m));
            assert(str_bytes(msg.id@) == str_bytes(m.id@));
            assert(str_bytes(msg.version@) == str_bytes(m.version@));
            assert(spec_valid(msg, now));
            assert(msg.msg_type == MessageType::Handshake);
            assert(msg.payload matches Payload::Handshake { is_response: false, .. });
            assert(msg.sender_id is Some);
        }
        assert forall|m: Message, cs: Seq<char>, esk: Seq<u8>, nonce: Seq<u8>|
            (m.wf() && message_str.spec_bytes() == wire::spec_message_json(m) && spec_valid(
                m,
                now,
            ) && is_media_kind(m.msg_type) && crypto.has_key() && m.sender_id is Some && (
            m.payload matches Payload::Encrypted { .. })
                && #[trigger] crate::crypto::spec_sealed_with(
                payload_env(m.payload),
                crate::trusted::x25519_base(crypto.scalar()),
                str_bytes(cs),
                esk,
                nonce,
            )) implies (out matches InboundOutcome::TextStored { peer, text, verified, stored }
                && text@ == cs && stored == !seq_has_id(
                old(storage).messages_view(),
                m.id@,
            )) by {
            assert(message_like(msg, m));
            assert(str_bytes(msg.id@) == str_bytes(m.id@));
            assert(str_bytes(msg.version@) == str_bytes(m.version@));
            assert(spec_valid(msg, now));
            assert(msg.payload matches Payload::Encrypted { .. });
            assert(payload_env(msg.payload).ct_bytes() == payload_env(m.payload).ct_bytes());
            assert(payload_env(msg.payload).epk_bytes() == payload_env(m.payload).epk_bytes());
            assert(payload_env(msg.payload).nonce_bytes() == payload_env(
                m.payload,
            ).nonce_bytes());
            assert(crate::crypto::spec_sealed_with(
                payload_env(msg.payload),
                crate::trusted::x25519_base(crypto.scalar()),
                str_bytes(cs),
                esk,
                nonce,
            ));
        }
    }
    out
}

/// Register a contact: the address must carry a valid verifying key, or
/// the store stays untouched and no handshake goes out; otherwise the
/// contact is stored and a signed initial handshake is returned for the
/// host to send.
pub fn add_contact(
    crypto: &CryptoHandler,
    storage: &mut MessageStorage,
    our_onion: &str,
    addr: &str,
    nickname: Option<&str>,
) -> (r: Result<String, crate::address::InvalidAddress>)
    requires
        crypto.wf(),
        old(storage).wf(),
        json_safe(our_onion.spec_bytes()),
    ensures
        final(storage).wf(),
        final(storage).messages_view() == old(storage).messages_view(),
        r is Err ==> *final(storage) == *old(storage),
        r is Err <==> !(match address::spec_onion_decode(addr.spec_bytes()) {
            Some(pk) => crate::trusted::is_ed_point(pk),
            None => false,
        }),
        r matches Ok(json) ==> seq_has_addr(final(storage).contacts_view(), addr@) && exists|
            m: Message,
        |
            #[trigger] spec_handshake_msg(m, our_onion@, *crypto, false) && str_bytes(json@)
                == wire::spec_message_json(m),
{
    match CryptoHandler::onion_to_pubkey(addr) {
        Ok(_) => {},
        Err(_) => {
            return Err(crate::address::InvalidAddress);
        },
    }
    match storage.add_contact(addr, nickname, None) {
        Ok(_) => {},
        Err(_) => {
            proof {
                assert(false);
            }
            return Err(crate::address::InvalidAddress);
        },
    }
    let mut handshake = MessageProtocol::create_handshake_message(our_onion, false);
    match MessageProtocol::sign_message(&mut handshake, crypto) {
        Ok(_) => {},
        Err(_) => {},
    }
    let json = handshake.to_json();
    proof {
        assert(spec_handshake_msg(handshake, our_onion@, *crypto, false));
    }
    Ok(json)
}

/// Prepare an outbound text: encrypt it to the recipient's address, wrap
/// it, sign it, and serialize the canonical wire string for the transport.
/// The returned message is what a staged record would carry if direct
/// delivery fails.
pub fn prepare_text_message(
    crypto: &CryptoHandler,
    our_onion: &str,
    recipient: &str,
    text: &str,
) -> (r: Result<(String, Message), CryptoError>)
    requires
        crypto.wf(),
        json_safe(our_onion.spec_bytes()),
    ensures
        !crypto.has_key() ==> r is Err,
        address::spec_onion_decode(recipient.spec_bytes()) is None ==> r is Err,
        (crypto.has_key() && (match address::spec_onion_decode(recipient.spec_bytes()) {
            Some(pk) => ed_to_mont(pk) is Some,
            None => false,
        }) && json_safe(recipient.spec_bytes()) && text.spec_bytes().len() < 0x1_0000_0000)
            ==> r is Ok,
        r matches Ok((json, m)) ==> {
            &&& m.wf()
            &&& str_bytes(json@) == wire::spec_message_json(m)
            &&& m.msg_type == MessageType::Text
            &&& (m.sender_id matches Some(s) && s@ == our_onion@)
            &&& (m.recipient_id matches Some(rr) && rr@ == recipient@)
            &&& (m.payload matches Payload::Encrypted { data } && crate::crypto::spec_sealed_to(
                data,
                ed_to_mont(address::spec_onion_decode(recipient.spec_bytes()).unwrap()).unwrap(),
                text.spec_bytes(),
            ))
            &&& (m.signature matches Some(sig) && str_bytes(sig@) == b64_of(
                ed_sign_of(crypto.expanded_key(), spec_signing_input(m)),
            ))
        },
{
    let env = match crypto.encrypt_message(text, recipient) {
        Ok(e) => e,
        Err(e) => {
            return Err(e);
        },
    };
    let rb: Vec<u8> = recipient.as_bytes_vec();
    if !util::json_safe_check(&rb) {
        return Err(CryptoError::Encryption("recipient address is not plain text".to_owned()));
    }
    let mut msg = MessageProtocol::wrap_encrypted_message(env, our_onion, recipient);
    match MessageProtocol::sign_message(&mut msg, crypto) {
        Ok(_) => {},
        Err(e) => {
            return Err(e);
        },
    }
    let json = msg.to_json();
    Ok((json, msg))
}

/// Open one fetched staged record: outer-decrypt with the local identity,
/// parse and verify the inner message, inner-decrypt the text, and store
/// it — at most once, however often the record is fetched.  A record whose
/// outer layer seals the canonical form of a text message to this identity
/// is always opened and its inner text stored.
#[verifier::rlimit(100)]
#[verifier::spinoff_prover]
pub fn process_staged_package(
    crypto: &CryptoHandler,
    storage: &mut MessageStorage,
    our_onion: &str,
    pkg: &IpfsPackage,
) -> (r: InboundOutcome)
    requires
        crypto.wf(),
        old(storage).wf(),
    ensures
        final(storage).wf(),
        final(storage).contacts_view() == old(storage).contacts_view(),
        final(storage).messages_view() == old(storage).messages_view() || final(storage).messages_view() == spec_insert(
            old(storage).messages_view(),
            final(storage).messages_view().last(),
        ),
        (r is Rejected || r is DecryptFailed || r is Ignored) ==> *final(storage) == *old(storage),
        forall|m: Message, cs: Seq<char>, esk: Seq<u8>, nonce: Seq<u8>, cs2: Seq<char>, esk2: Seq<u8>, nonce2: Seq<u8>|
            (crypto.has_key() && m.wf() && str_bytes(cs) == wire::spec_message_json(m)
                && #[trigger] crate::crypto::spec_sealed_with(
                pkg.encrypted_message,
                crate::trusted::x25519_base(crypto.scalar()),
                str_bytes(cs),
                esk,
                nonce,
            ) && m.msg_type == MessageType::Text && m.sender_id is Some && (
            m.payload matches Payload::Encrypted { .. })
                && #[trigger] crate::crypto::spec_sealed_with(
                payload_env(m.payload),
                crate::trusted::x25519_base(crypto.scalar()),
                str_bytes(cs2),
                esk2,
                nonce2,
            )) ==> (r matches InboundOutcome::TextStored { peer, text, verified, stored } && text@
                == cs2 && stored == !seq_has_id(old(storage).messages_view(), m.id@)),
{
    let inner_json = match crypto.decrypt_message(&pkg.encrypted_message) {
        Ok(t) => t,
        Err(_) => {
            return InboundOutcome::Rejected;
        },
    };
    let msg = match Message::from_json(inner_json.as_str()) {
        Ok(m) => m,
        Err(_) => {
            return InboundOutcome::Rejected;
        },
    };
    let sender = match &msg.sender_id {
        Some(s) => s.clone(),
        None => {
            return InboundOutcome::Rejected;
        },
    };
    let out = match msg.msg_type {
        MessageType::Text => store_encrypted_text(crypto, storage, &msg, &sender),
        _ => InboundOutcome::Ignored,
    };
    proof {
        assert forall|m: Message, cs: Seq<char>, esk: Seq<u8>, nonce: Seq<u8>, cs2: Seq<char>, esk2: Seq<u8>, nonce2: Seq<u8>|
            (crypto.has_key() && m.wf() && str_bytes(cs) == wire::spec_message_json(m)
                && #[trigger] crate::crypto::spec_sealed_with(
                pkg.encrypted_message,
                crate::trusted::x25519_base(crypto.scalar()),
                str_bytes(cs),
                esk,
                nonce,
            ) && m.msg_type == MessageType::Text && m.sender_id is Some && (
            m.payload matches Payload::Encrypted { .. })
                && #[trigger] crate::crypto::spec_sealed_with(
                payload_env(m.payload),
                crate::trusted::x25519_base(crypto.scalar()),
                str_bytes(cs2),
                esk2,
                nonce2,
            )) implies (out matches InboundOutcome::TextStored { peer, text, verified, stored }
                && text@ == cs2 && stored == !seq_has_id(
                old(storage).messages_view(),
                m.id@,
            )) by {
            assert(inner_json@ == cs);
            assert(str_bytes(inner_json@) == wire::spec_message_json(m));
            assert(message_like(msg, m));
            assert(msg.payload matches Payload::Encrypted { .. });
            assert(payload_env(msg.payload).ct_bytes() == payload_env(m.payload).ct_bytes());
            assert(payload_env(msg.payload).epk_bytes() == payload_env(m.payload).epk_bytes());
            assert(payload_env(msg.payload).nonce_bytes() == payload_env(
                m.payload,
            ).nonce_bytes());
            assert(crate::crypto::spec_sealed_with(
                payload_env(msg.payload),
                crate::trusted::x25519_base(crypto.scalar()),
                str_bytes(cs2),
                esk2,
                nonce2,
            ));
        }
    }
    out
}

} // verus!
