//! Protocol messages.
//!
//! A message carries an identifier, a kind tag, a structured payload, an
//! epoch timestamp, optional sender and recipient addresses, an optional
//! base-64 signature and the fixed version literal.  The byte string that
//! is signed is the canonical concatenation of the fields with a `|`
//! delimiter; the payload appears in its canonical JSON form, so that all
//! conforming implementations sign byte-identical strings.

use vstd::prelude::*;
use vstd::string::StrSliceExecFns;
use vstd::string::StringSliceAdditionalSpecFns;

use crate::crypto::str_bytes;
use crate::crypto::EncryptedData;
use crate::crypto::CryptoHandler;
use crate::util;
use crate::util::json_safe;

verus! {

/// The kinds of protocol messages.
#[derive(Debug, Clone, Copy, PartialEq, Eq, Structural)]
pub enum MessageType {
    Text,
    Handshake,
    Ack,
    KeyExchange,
    Ping,
    Pong,
    Image,
    Audio,
    File,
    Ipfs,
}

impl MessageType {
    /// The wire tag of this kind, as bytes.
    pub open spec fn spec_tag(self) -> Seq<u8> {
        match self {
            MessageType::Text => seq![116u8, 101u8, 120u8, 116u8],
            MessageType::Handshake => seq![104u8, 97u8, 110u8, 100u8, 115u8, 104u8, 97u8, 107u8, 101u8],
            MessageType::Ack => seq![97u8, 99u8, 107u8],
            MessageType::KeyExchange => seq![107u8, 101u8, 121u8, 95u8, 101u8, 120u8, 99u8, 104u8, 97u8, 110u8, 103u8, 101u8],
            MessageType::Ping => seq![112u8, 105u8, 110u8, 103u8],
            MessageType::Pong => seq![112u8, 111u8, 110u8, 103u8],
            MessageType::Image => seq![105u8, 109u8, 97u8, 103u8, 101u8],
            MessageType::Audio => seq![97u8, 117u8, 100u8, 105u8, 111u8],
            MessageType::File => seq![102u8, 105u8, 108u8, 101u8],
            MessageType::Ipfs => seq![105u8, 112u8, 102u8, 115u8],
        }
    }

    /// The wire tag of this kind, as characters.
    pub open spec fn spec_tag_chars(self) -> Seq<char> {
        match self {
            MessageType::Text => seq!['t', 'e', 'x', 't'],
            MessageType::Handshake => seq!['h', 'a', 'n', 'd', 's', 'h', 'a', 'k', 'e'],
            MessageType::Ack => seq!['a', 'c', 'k'],
            MessageType::KeyExchange => seq!['k', 'e', 'y', '_', 'e', 'x', 'c', 'h', 'a', 'n', 'g', 'e'],
            MessageType::Ping => seq!['p', 'i', 'n', 'g'],
            MessageType::Pong => seq!['p', 'o', 'n', 'g'],
            MessageType::Image => seq!['i', 'm', 'a', 'g', 'e'],
            MessageType::Audio => seq!['a', 'u', 'd', 'i', 'o'],
            MessageType::File => seq!['f', 'i', 'l', 'e'],
            MessageType::Ipfs => seq!['i', 'p', 'f', 's'],
        }
    }

    /// The textual tag of this kind.
    pub fn as_str(&self) -> (r: &'static str)
        ensures
            r@ == self.spec_tag_chars(),
    {
        match self {
            MessageType::Text => {
                proof {
                    reveal_strlit("text");
                }
                "text"
            },
            MessageType::Handshake => {
                proof {
                    reveal_strlit("handshake");
                }
                "handshake"
            },
            MessageType::Ack => {
                proof {
                    reveal_strlit("ack");
                }
                "ack"
            },
            MessageType::KeyExchange => {
                proof {
                    reveal_strlit("key_exchange");
                }
                "key_exchange"
            },
            MessageType::Ping => {
                proof {
                    reveal_strlit("ping");
                }
                "ping"
            },
            MessageType::Pong => {
                proof {
                    reveal_strlit("pong");
                }
                "pong"
            },
            MessageType::Image => {
                proof {
                    reveal_strlit("image");
                }
                "image"
            },
            MessageType::Audio => {
                proof {
                    reveal_strlit("audio");
                }
                "audio"
            },
            MessageType::File => {
                proof {
                    reveal_strlit("file");
                }
                "file"
            },
            MessageType::Ipfs => {
                proof {
                    reveal_strlit("ipfs");
                }
                "ipfs"
            },
        }
    }

    /// The tag bytes of this kind.
    pub fn tag_bytes(&self) -> (r: Vec<u8>)
        ensures
            r@ == self.spec_tag(),
    {
        let mut v: Vec<u8> = Vec::new();
        match self {
            MessageType::Text => {
                v.push(116);
                v.push(101);
                v.push(120);
                v.push(116);
            },
            MessageType::Handshake => {
                v.push(104);
                v.push(97);
                v.push(110);
                v.push(100);
                v.push(115);
                v.push(104);
                v.push(97);
                v.push(107);
                v.push(101);
            },
            MessageType::Ack => {
                v.push(97);
                v.push(99);
                v.push(107);
            },
            MessageType::KeyExchange => {
                v.push(107);
                v.push(101);
                v.push(121);
                v.push(95);
                v.push(101);
                v.push(120);
                v.push(99);
                v.push(104);
                v.push(97);
                v.push(110);
                v.push(103);
                v.push(101);
            },
            MessageType::Ping => {
                v.push(112);
                v.push(105);
                v.push(110);
                v.push(103);
            },
            MessageType::Pong => {
                v.push(112);
                v.push(111);
                v.push(110);
                v.push(103);
            },
            MessageType::Image => {
                v.push(105);
                v.push(109);
                v.push(97);
                v.push(103);
                v.push(101);
            },
            MessageType::Audio => {
                v.push(97);
                v.push(117);
                v.push(100);
                v.push(105);
                v.push(111);
            },
            MessageType::File => {
                v.push(102);
                v.push(105);
                v.push(108);
                v.push(101);
            },
            MessageType::Ipfs => {
                v.push(105);
                v.push(112);
                v.push(102);
                v.push(115);
            },
        }
        proof {
            assert(v@ =~= self.spec_tag());
        }
        v
    }
}

/// The structured payload of a message.  The wire form of each shape is a
/// JSON object with its keys in lexicographic order.
pub enum Payload {
    /// Plain text, `{"text": …}`.
    Text { text: String },
    /// A hybrid-encrypted text, `{"encrypted": true, "data": …}`.
    Encrypted { data: EncryptedData },
    /// Contact registration, `{"is_response": …, "protocol_version": …}`.
    Handshake { protocol_version: String, is_response: bool },
    /// Receipt of an earlier message, `{"original_msg_id": …}`.
    Ack { original_msg_id: String },
    /// The empty object, used by pings and pongs.
    Empty,
}

/// Two envelopes with the same field contents.
pub open spec fn env_like(a: EncryptedData, b: EncryptedData) -> bool {
    &&& a.ct_bytes() == b.ct_bytes()
    &&& a.epk_bytes() == b.epk_bytes()
    &&& a.nonce_bytes() == b.nonce_bytes()
}

/// Two payloads of the same shape and contents.
pub open spec fn payload_like(a: Payload, b: Payload) -> bool {
    match (a, b) {
        (Payload::Text { text: t1 }, Payload::Text { text: t2 }) => t1@ == t2@,
        (Payload::Encrypted { data: d1 }, Payload::Encrypted { data: d2 }) => env_like(d1, d2),
        (
            Payload::Handshake { protocol_version: v1, is_response: r1 },
            Payload::Handshake { protocol_version: v2, is_response: r2 },
        ) => v1@ == v2@ && r1 == r2,
        (
            Payload::Ack { original_msg_id: o1 },
            Payload::Ack { original_msg_id: o2 },
        ) => o1@ == o2@,
        (Payload::Empty, Payload::Empty) => true,
        _ => false,
    }
}

/// The characters of an optional string.
pub open spec fn opt_chars(o: Option<String>) -> Option<Seq<char>> {
    match o {
        Some(s) => Some(s@),
        None => None,
    }
}

/// Two messages equal in every field's contents.
pub open spec fn message_like(a: Message, b: Message) -> bool {
    &&& a.id@ == b.id@
    &&& a.msg_type == b.msg_type
    &&& payload_like(a.payload, b.payload)
    &&& a.timestamp == b.timestamp
    &&& opt_chars(a.sender_id) == opt_chars(b.sender_id)
    &&& opt_chars(a.recipient_id) == opt_chars(b.recipient_id)
    &&& opt_chars(a.signature) == opt_chars(b.signature)
    &&& a.version@ == b.version@
}

/// The envelope inside an encrypted payload.
pub open spec fn payload_env(p: Payload) -> EncryptedData
    recommends
        p matches Payload::Encrypted { .. },
{
    match p {
        Payload::Encrypted { data } => data,
        _ => vstd::pervasive::arbitrary(),
    }
}

impl Payload {
    /// Every string the payload carries may stand verbatim on the wire.
    pub open spec fn wf(self) -> bool {
        match self {
            Payload::Text { text } => json_safe(str_bytes(text@)),
            Payload::Encrypted { data } => {
                &&& json_safe(data.ct_bytes())
                &&& json_safe(data.epk_bytes())
                &&& json_safe(data.nonce_bytes())
            },
            Payload::Handshake { protocol_version, is_response } => json_safe(
                str_bytes(protocol_version@),
            ),
            Payload::Ack { original_msg_id } => json_safe(str_bytes(original_msg_id@)),
            Payload::Empty => true,
        }
    }
}

/// A protocol message.
pub struct Message {
    pub id: String,
    pub msg_type: MessageType,
    pub payload: Payload,
    pub timestamp: i64,
    pub sender_id: Option<String>,
    pub recipient_id: Option<String>,
    /// Base-64 signature over the canonical signing input.
    pub signature: Option<String>,
    pub version: String,
}

/// The bytes of an optional string field, empty where absent.
pub open spec fn opt_bytes(o: Option<String>) -> Seq<u8> {
    match o {
        Some(s) => str_bytes(s@),
        None => Seq::empty(),
    }
}

/// Whether an optional string field is safe for the wire.
pub open spec fn opt_safe(o: Option<String>) -> bool {
    match o {
        Some(s) => json_safe(str_bytes(s@)),
        None => true,
    }
}

/// The bytes of the version literal `1.0`.
pub open spec fn spec_version_bytes() -> Seq<u8> {
    seq![49u8, 46u8, 48u8]
}

impl Message {
    /// Every string the message carries may stand verbatim on the wire.
    pub open spec fn wf(self) -> bool {
        &&& json_safe(str_bytes(self.id@))
        &&& json_safe(str_bytes(self.version@))
        &&& opt_safe(self.sender_id)
        &&& opt_safe(self.recipient_id)
        &&& opt_safe(self.signature)
        &&& self.payload.wf()
    }

    /// A fresh message of the given kind: new unique identifier, current
    /// epoch timestamp, fixed version, no signature yet.
    pub fn new(
        msg_type: MessageType,
        payload: Payload,
        sender_id: Option<String>,
        recipient_id: Option<String>,
    ) -> (m: Message)
        ensures
            m.msg_type == msg_type,
            m.payload == payload,
            m.sender_id == sender_id,
            m.recipient_id == recipient_id,
            m.signature is None,
            str_bytes(m.version@) == spec_version_bytes(),
            str_bytes(m.id@).len() == 36,
            json_safe(str_bytes(m.id@)),
    {
        let idb = crate::trusted::new_uuid_string();
        proof {
            assert(json_safe(idb@));
            assert(forall|i: int| 0 <= i < idb@.len() ==> idb@[i] < 128);
        }
        let id = util::ascii_string(idb);
        Message {
            id,
            msg_type,
            payload,
            timestamp: crate::trusted::now_timestamp(),
            sender_id,
            recipient_id,
            signature: None,
            version: version_string(),
        }
    }
}

/// The version literal `1.0` as a string.
pub fn version_string() -> (r: String)
    ensures
        str_bytes(r@) == spec_version_bytes(),
        json_safe(str_bytes(r@)),
{
    let mut v: Vec<u8> = Vec::new();
    v.push(49);
    v.push(46);
    v.push(48);
    proof {
        assert(v@ =~= spec_version_bytes());
        assert(json_safe(v@));
        assert(forall|i: int| 0 <= i < v@.len() ==> v@[i] < 128);
    }
    util::ascii_string(v)
}

/// Construction, validation, signing and verification of protocol
/// messages.
pub struct MessageProtocol;

/// Whether a kind may omit the sender address: only the thinnest probe
/// messages may.
pub open spec fn sender_optional(t: MessageType) -> bool {
    t == MessageType::Ping || t == MessageType::Pong
}

/// A message is accepted when its identifier is non-empty, its version is
/// the fixed literal, its timestamp is at most 300 seconds ahead of the
/// local clock, and — beyond pings and pongs — its sender is present.
pub open spec fn spec_valid(m: Message, now: i64) -> bool {
    &&& str_bytes(m.id@).len() > 0
    &&& str_bytes(m.version@) == spec_version_bytes()
    &&& m.timestamp as int <= now as int + 300
    &&& (sender_optional(m.msg_type) || m.sender_id is Some)
}

impl MessageProtocol {
    /// A plain text message from `sender_id` to `recipient_id`.
    pub fn create_text_message(text: &str, sender_id: &str, recipient_id: &str) -> (m: Message)
        ensures
            m.msg_type == MessageType::Text,
            m.payload matches Payload::Text { text: t } && t@ == text@,
            m.sender_id matches Some(s) && s@ == sender_id@,
            m.recipient_id matches Some(s) && s@ == recipient_id@,
            m.signature is None,
            str_bytes(m.version@) == spec_version_bytes(),
            str_bytes(m.id@).len() == 36,
            json_safe(str_bytes(m.id@)),
    {
        Message::new(
            MessageType::Text,
            Payload::Text { text: text.to_owned() },
            Some(sender_id.to_owned()),
            Some(recipient_id.to_owned()),
        )
    }

    /// A handshake announcing this peer to a contact; `is_response` tells
    /// an answer from a first contact.
    pub fn create_handshake_message(sender_id: &str, is_response: bool) -> (m: Message)
        ensures
            m.msg_type == MessageType::Handshake,
            m.payload matches Payload::Handshake { protocol_version: v, is_response: ir } && ir
                == is_response && str_bytes(v@) == spec_version_bytes(),
            m.sender_id matches Some(s) && s@ == sender_id@,
            m.recipient_id is None,
            m.signature is None,
            str_bytes(m.version@) == spec_version_bytes(),
            str_bytes(m.id@).len() == 36,
            json_safe(str_bytes(m.id@)),
            m.payload.wf(),
    {
        Message::new(
            MessageType::Handshake,
            Payload::Handshake { protocol_version: version_string(), is_response },
            Some(sender_id.to_owned()),
            None,
        )
    }

    /// An acknowledgment of the message with identifier `original_msg_id`.
    pub fn create_ack_message(original_msg_id: &str, sender_id: &str) -> (m: Message)
        ensures
            m.msg_type == MessageType::Ack,
            m.payload matches Payload::Ack { original_msg_id: o } && o@ == original_msg_id@,
            m.sender_id matches Some(s) && s@ == sender_id@,
            m.recipient_id is None,
            m.signature is None,
            str_bytes(m.version@) == spec_version_bytes(),
            str_bytes(m.id@).len() == 36,
    {
        Message::new(
            MessageType::Ack,
            Payload::Ack { original_msg_id: original_msg_id.to_owned() },
            Some(sender_id.to_owned()),
            None,
        )
    }

    /// A ping probe.
    pub fn create_ping_message(sender_id: &str) -> (m: Message)
        ensures
            m.msg_type == MessageType::Ping,
            m.payload == Payload::Empty,
            m.sender_id matches Some(s) && s@ == sender_id@,
            m.recipient_id is None,
            m.signature is None,
            str_bytes(m.version@) == spec_version_bytes(),
            str_bytes(m.id@).len() == 36,
    {
        Message::new(MessageType::Ping, Payload::Empty, Some(sender_id.to_owned()), None)
    }

    /// A pong answer.
    pub fn create_pong_message(sender_id: &str) -> (m: Message)
        ensures
            m.msg_type == MessageType::Pong,
            m.payload == Payload::Empty,
            m.sender_id matches Some(s) && s@ == sender_id@,
            m.recipient_id is None,
            m.signature is None,
            str_bytes(m.version@) == spec_version_bytes(),
            str_bytes(m.id@).len() == 36,
    {
        Message::new(MessageType::Pong, Payload::Empty, Some(sender_id.to_owned()), None)
    }

    /// An encrypted-text message wrapping an envelope.
    pub fn wrap_encrypted_message(
        encrypted_data: EncryptedData,
        sender_id: &str,
        recipient_id: &str,
    ) -> (m: Message)
        ensures
            m.msg_type == MessageType::Text,
            m.payload matches Payload::Encrypted { data } && data == encrypted_data,
            m.sender_id matches Some(s) && s@ == sender_id@,
            m.recipient_id matches Some(s) && s@ == recipient_id@,
            m.signature is None,
            str_bytes(m.version@) == spec_version_bytes(),
            str_bytes(m.id@).len() == 36,
            json_safe(str_bytes(m.id@)),
    {
        Message::new(
            MessageType::Text,
            Payload::Encrypted { data: encrypted_data },
            Some(sender_id.to_owned()),
            Some(recipient_id.to_owned()),
        )
    }

    /// Accept or reject a message against the local clock; the result is
    /// exactly the validity predicate.
    pub fn validate_message(msg: &Message, now: i64) -> (r: bool)
        ensures
            r == spec_valid(*msg, now),
    {
        let idb: Vec<u8> = msg.id.as_str().as_bytes_vec();
        if idb.len() == 0 {
            return false;
        }
        let verb: Vec<u8> = msg.version.as_str().as_bytes_vec();
        let mut expect: Vec<u8> = Vec::new();
        expect.push(49);
        expect.push(46);
        expect.push(48);
        proof {
            assert(expect@ =~= spec_version_bytes());
        }
        if !util::bytes_eq(&verb, &expect) {
            return false;
        }
        let within = if now > i64::MAX - 300 {
            true
        } else {
            msg.timestamp <= now + 300
        };
        if !within {
            return false;
        }
        match msg.msg_type {
            MessageType::Ping => true,
            MessageType::Pong => true,
            _ => msg.sender_id.is_some(),
        }
    }
}

/// The canonical byte string that is signed: identifier, kind tag,
/// canonical payload JSON, decimal timestamp, sender and recipient, joined
/// by a `|` delimiter; absent fields are empty.  The signature field itself
/// takes no part.
pub open spec fn spec_signing_input(m: Message) -> Seq<u8> {
    str_bytes(m.id@) + seq![124u8] + m.msg_type.spec_tag() + seq![124u8] + crate::wire::spec_payload_json(m.payload)
        + seq![124u8] + crate::wire::spec_dec_i64(m.timestamp as int) + seq![124u8] + opt_bytes(m.sender_id)
        + seq![124u8] + opt_bytes(m.recipient_id)
}

/// The canonical signing input of a message, as bytes.
fn signing_input(m: &Message) -> (r: Vec<u8>)
    requires
        m.wf(),
    ensures
        r@ == spec_signing_input(*m),
        forall|i: int| 0 <= i < r@.len() ==> r@[i] < 128,
{
    let mut out: Vec<u8> = Vec::new();
    let idb: Vec<u8> = m.id.as_str().as_bytes_vec();
    util::push_bytes(&mut out, idb.as_slice());
    out.push(124);
    let tag = m.msg_type.tag_bytes();
    util::push_bytes(&mut out, tag.as_slice());
    out.push(124);
    let ghost e1 = str_bytes(m.id@) + seq![124u8] + m.msg_type.spec_tag() + seq![124u8];
    proof {
        assert(out@ =~= e1);
        assert(forall|i: int| 0 <= i < out@.len() ==> out@[i] < 128);
    }
    crate::wire::emit_payload_body(&mut out, &m.payload);
    out.push(124);
    let ghost e2 = e1 + crate::wire::spec_payload_json(m.payload) + seq![124u8];
    proof {
        assert(out@ =~= e2);
        assert(forall|i: int| 0 <= i < out@.len() ==> out@[i] < 128);
    }
    crate::wire::emit_dec_i64(&mut out, m.timestamp);
    out.push(124);
    let ghost e3 = e2 + crate::wire::spec_dec_i64(m.timestamp as int) + seq![124u8];
    proof {
        assert(out@ =~= e3);
        assert(forall|i: int| 0 <= i < out@.len() ==> out@[i] < 128);
    }
    match &m.sender_id {
        Some(s) => {
            let sb: Vec<u8> = s.as_str().as_bytes_vec();
            util::push_bytes(&mut out, sb.as_slice());
        },
        None => {},
    }
    out.push(124);
    let ghost e4 = e3 + opt_bytes(m.sender_id) + seq![124u8];
    proof {
        assert(out@ =~= e4);
        assert(forall|i: int| 0 <= i < out@.len() ==> out@[i] < 128);
    }
    match &m.recipient_id {
        Some(s) => {
            let sb: Vec<u8> = s.as_str().as_bytes_vec();
            util::push_bytes(&mut out, sb.as_slice());
        },
        None => {},
    }
    proof {
        assert(out@ =~= spec_signing_input(*m));
        assert(forall|i: int| 0 <= i < out@.len() ==> out@[i] < 128);
    }
    out
}

impl MessageProtocol {
    /// Sign a message in place with the local identity: the base-64
    /// signature over the canonical signing input is stored in the
    /// signature field, everything else stays as it was.
    pub fn sign_message(msg: &mut Message, crypto: &CryptoHandler) -> (r: Result<
        (),
        crate::crypto::CryptoError,
    >)
        requires
            old(msg).wf(),
            crypto.wf(),
        ensures
            r is Ok <==> crypto.has_key(),
            final(msg).wf(),
            final(msg).id == old(msg).id,
            final(msg).msg_type == old(msg).msg_type,
            final(msg).payload == old(msg).payload,
            final(msg).timestamp == old(msg).timestamp,
            final(msg).sender_id == old(msg).sender_id,
            final(msg).recipient_id == old(msg).recipient_id,
            final(msg).version == old(msg).version,
            r is Ok ==> (final(msg).signature matches Some(sig) && str_bytes(sig@)
                == crate::trusted::b64_of(
                crate::trusted::ed_sign_of(crypto.expanded_key(), spec_signing_input(*old(msg))),
            ) && crate::trusted::ed_sign_of(
                crypto.expanded_key(),
                spec_signing_input(*old(msg)),
            ).len() == 64 && str_bytes(sig@).len() == 88),
            r is Err ==> *final(msg) == *old(msg),
    {
        let input = signing_input(msg);
        let data = util::ascii_string(input);
        match crypto.sign_with_onion_key(data.as_str()) {
            Ok(sig) => {
                msg.signature = Some(sig);
                Ok(())
            },
            Err(e) => Err(e),
        }
    }

    /// Check a message's signature against the verifying key embedded in
    /// its sender address.  `false` where the signature or the sender is
    /// missing, where the address is malformed, or where the check fails; a
    /// message signed by the identity its sender address names passes.
    pub fn verify_message(msg: &Message, _unused_pk_pem: &str, crypto: &CryptoHandler) -> (r:
        bool)
        requires
            msg.wf(),
        ensures
            msg.signature is None ==> r == false,
            msg.sender_id is None ==> r == false,
            forall|ek: Seq<u8>|
                {
                    &&& msg.signature matches Some(sig)
                    &&& msg.sender_id matches Some(snd)
                    &&& crate::address::spec_onion_decode(str_bytes(snd@)) matches Some(pk)
                    &&& ek.len() == 64
                    &&& crate::trusted::is_clamped(ek.take(32))
                    &&& pk == crate::trusted::ed_pub_of(ek.take(32))
                    &&& crate::trusted::is_ed_point(pk)
                    &&& crate::trusted::ed_sign_of(ek, spec_signing_input(*msg)).len() == 64
                    &&& str_bytes(sig@) == crate::trusted::b64_of(
                        #[trigger] crate::trusted::ed_sign_of(ek, spec_signing_input(*msg)),
                    )
                } ==> r == true,
    {
        let sig = match &msg.signature {
            Some(s) => s,
            None => {
                return false;
            },
        };
        let sender = match &msg.sender_id {
            Some(s) => s,
            None => {
                return false;
            },
        };
        let input = signing_input(msg);
        let data = util::ascii_string(input);
        let data_ref: &str = data.as_str();
        let sig_ref: &str = sig.as_str();
        let sender_ref: &str = sender.as_str();
        let res = crypto.verify_with_onion_address(data_ref, sig_ref, sender_ref);
        let r = match res {
            Ok(b) => b,
            Err(_) => false,
        };
        proof {
            assert forall|ek: Seq<u8>|
                {
                    &&& msg.signature matches Some(sg)
                    &&& msg.sender_id matches Some(snd)
                    &&& crate::address::spec_onion_decode(str_bytes(snd@)) matches Some(pk)
                    &&& ek.len() == 64
                    &&& crate::trusted::is_clamped(ek.take(32))
                    &&& pk == crate::trusted::ed_pub_of(ek.take(32))
                    &&& crate::trusted::is_ed_point(pk)
                    &&& crate::trusted::ed_sign_of(ek, spec_signing_input(*msg)).len() == 64
                    &&& str_bytes(sg@) == crate::trusted::b64_of(
                        #[trigger] crate::trusted::ed_sign_of(ek, spec_signing_input(*msg)),
                    )
                } implies r == true by {
                assert(data_ref.spec_bytes() == spec_signing_input(*msg));
                assert(crate::trusted::ed_sign_of(ek, data_ref.spec_bytes())
                    == crate::trusted::ed_sign_of(ek, spec_signing_input(*msg)));
                assert(msg.signature == Some(*sig));
                assert(msg.sender_id == Some(*sender));
                assert(sig_ref.spec_bytes() == crate::trusted::b64_of(
                    crate::trusted::ed_sign_of(ek, data_ref.spec_bytes()),
                ));
                assert(sender_ref.spec_bytes() == str_bytes(sender@));
                assert(res == Ok::<bool, crate::crypto::CryptoError>(true));
            }
        }
        r
    }
}

} // verus!
