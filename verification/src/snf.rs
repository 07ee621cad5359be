//! Offline staging (store-and-forward).
//!
//! When a peer cannot be reached directly, the already-encrypted message is
//! wrapped, signed, serialized and encrypted a second time to the
//! recipient, then published in a distributed hash table under the hex
//! SHA-256 of the recipient's address.  Only the intended recipient can
//! both locate the record (by hashing its own address) and open it (with
//! its Diffie–Hellman secret); the outer layer hides the sender from
//! observers of the table.  The network client that performs the put and
//! get lives outside the library; this module prepares and opens the
//! records.

use vstd::prelude::*;
use vstd::string::StrSliceExecFns;
use vstd::string::StringSliceAdditionalSpecFns;

use crate::address;
use crate::crypto::{str_bytes, CryptoError, CryptoHandler, EncryptedData};
use crate::message::{
    opt_bytes, spec_signing_input, Message, MessageProtocol, MessageType, Payload,
};
use crate::trusted;
use crate::trusted::{b64_of, ed_sign_of, ed_to_mont, sha256_of};
use crate::util;
use crate::util::json_safe;
use crate::wire;

verus! {

/// A staged record: the outer-encrypted message, keyed by the hex SHA-256
/// of the recipient address.
pub struct IpfsPackage {
    pub recipient_hash: String,
    pub encrypted_message: EncryptedData,
    pub timestamp: i64,
}

impl IpfsPackage {
    /// Every string the record carries may stand verbatim on the wire.
    pub open spec fn wf(self) -> bool {
        &&& json_safe(str_bytes(self.recipient_hash@))
        &&& json_safe(self.encrypted_message.ct_bytes())
        &&& json_safe(self.encrypted_message.epk_bytes())
        &&& json_safe(self.encrypted_message.nonce_bytes())
    }
}

/// Lower-case hex digit of a value below 16.
pub open spec fn hex_digit(v: u8) -> u8 {
    if v < 10 {
        (48 + v) as u8
    } else {
        (87 + v) as u8
    }
}

/// Lower-case hex encoding of a byte string.
pub open spec fn spec_hex(data: Seq<u8>) -> Seq<u8>
    decreases data.len(),
{
    if data.len() == 0 {
        Seq::empty()
    } else {
        seq![hex_digit(data.first() >> 4), hex_digit(data.first() & 15)] + spec_hex(
            data.drop_first(),
        )
    }
}

/// Lower-case hex digits of a byte string.
fn hex_bytes(data: &Vec<u8>) -> (r: Vec<u8>)
    ensures
        r@ == spec_hex(data@),
        json_safe(r@),
        forall|i: int| 0 <= i < r@.len() ==> r@[i] < 128,
{
    let mut out: Vec<u8> = Vec::new();
    let n = data.len();
    let mut i: usize = 0;
    proof {
        assert(data@.skip(0) =~= data@);
    }
    while i < n
        invariant
            data@.len() == n,
            i <= n,
            spec_hex(data@) == out@ + spec_hex(data@.skip(i as int)),
            json_safe(out@),
            forall|j: int| 0 <= j < out@.len() ==> out@[j] < 128,
        decreases n - i,
    {
        let b = data[i];
        proof {
            assert(b >> 4 < 16 && b & 15 < 16) by (bit_vector);
        }
        let hi = b >> 4;
        let lo = b & 15;
        if hi < 10 {
            out.push(48 + hi);
        } else {
            out.push(87 + hi);
        }
        if lo < 10 {
            out.push(48 + lo);
        } else {
            out.push(87 + lo);
        }
        proof {
            let rest = data@.skip(i as int);
            assert(rest.first() == data@[i as int]);
            assert(rest.drop_first() =~= data@.skip(i + 1));
            assert(spec_hex(rest) == seq![hex_digit(hi), hex_digit(lo)] + spec_hex(
                data@.skip(i + 1),
            ));
        }
        i = i + 1;
    }
    proof {
        assert(data@.skip(n as int) =~= Seq::<u8>::empty());
        assert(out@ + Seq::<u8>::empty() =~= out@);
    }
    out
}

/// The signed inner message a staged record carries: the given envelope,
/// wrapped as an encrypted-text message from `sender` to `recipient` and
/// signed with the local identity.
pub open spec fn spec_staged_inner(
    m: Message,
    data: EncryptedData,
    sender: Seq<char>,
    recipient: Seq<char>,
    crypto: CryptoHandler,
) -> bool {
    &&& m.wf()
    &&& m.msg_type == MessageType::Text
    &&& m.payload == Payload::Encrypted { data }
    &&& m.sender_id matches Some(s) && s@ == sender
    &&& m.recipient_id matches Some(rr) && rr@ == recipient
    &&& m.signature matches Some(sig) && str_bytes(sig@) == b64_of(
        ed_sign_of(crypto.expanded_key(), spec_signing_input(m)),
    )
}

/// The whole staged-record guarantee: the record's envelope seals the
/// canonical wire form of a properly signed inner message to the
/// recipient's Diffie–Hellman public key — outer decryption by the
/// recipient yields exactly the message a direct send would have carried.
pub open spec fn spec_staged_package(
    pkg: IpfsPackage,
    m: Message,
    data: EncryptedData,
    sender: Seq<char>,
    recipient: Seq<char>,
    crypto: CryptoHandler,
) -> bool {
    &&& spec_staged_inner(m, data, sender, recipient, crypto)
    &&& spec_sealed_wrap(pkg, m, recipient)
}

/// The record's envelope seals the canonical form of `m` to the key
/// embedded in `recipient`.
pub open spec fn spec_sealed_wrap(pkg: IpfsPackage, m: Message, recipient: Seq<char>) -> bool {
    crate::crypto::spec_sealed_to(
        pkg.encrypted_message,
        ed_to_mont(
            address::spec_onion_decode(str_bytes(recipient)).unwrap(),
        ).unwrap(),
        wire::spec_message_json(m),
    )
}

/// Prepares and opens staged records.
pub struct SnFManager;

impl SnFManager {
    /// The distributed-hash-table key of an address: the lower-case hex
    /// SHA-256 of the address string.
    pub fn get_onion_hash(onion: &str) -> (r: String)
        ensures
            str_bytes(r@) == spec_hex(sha256_of(onion.spec_bytes())),
            json_safe(str_bytes(r@)),
    {
        let ob: Vec<u8> = onion.as_bytes_vec();
        let digest = trusted::sha256(ob.as_slice());
        let hex = hex_bytes(&digest);
        util::ascii_string(hex)
    }

    /// Build the staged record for an undeliverable message: wrap the
    /// envelope as an encrypted-text message, sign it, serialize it, and
    /// encrypt the bytes a second time to the recipient.
    #[verifier::rlimit(100)]
    pub fn prepare_staged_package(
        recipient_onion: &str,
        sender_onion: &str,
        encrypted_data: EncryptedData,
        crypto: &CryptoHandler,
    ) -> (r: Result<IpfsPackage, CryptoError>)
        requires
            crypto.wf(),
            json_safe(sender_onion.spec_bytes()),
            json_safe(recipient_onion.spec_bytes()),
            json_safe(encrypted_data.ct_bytes()),
            json_safe(encrypted_data.epk_bytes()),
            json_safe(encrypted_data.nonce_bytes()),
        ensures
            !crypto.has_key() ==> r is Err,
            address::spec_onion_decode(recipient_onion.spec_bytes()) is None ==> r is Err,
            (crypto.has_key() && (match address::spec_onion_decode(
                recipient_onion.spec_bytes(),
            ) {
                Some(pk) => ed_to_mont(pk) is Some,
                None => false,
            }) && encrypted_data.ct_bytes().len() + encrypted_data.epk_bytes().len()
                + encrypted_data.nonce_bytes().len() + sender_onion.spec_bytes().len()
                + recipient_onion.spec_bytes().len() < 0x4000_0000) ==> r is Ok,
            r matches Ok(pkg) ==> pkg.wf() && str_bytes(pkg.recipient_hash@) == spec_hex(
                sha256_of(recipient_onion.spec_bytes()),
            ) && exists|m: Message|
                #[trigger] spec_staged_package(
                    pkg,
                    m,
                    encrypted_data,
                    sender_onion@,
                    recipient_onion@,
                    *crypto,
                ),
    {
        let mut msg = MessageProtocol::wrap_encrypted_message(
            encrypted_data,
            sender_onion,
            recipient_onion,
        );
        match MessageProtocol::sign_message(&mut msg, crypto) {
            Ok(_) => {},
            Err(e) => {
                return Err(e);
            },
        }
        let msg_json = msg.to_json();
        proof {
            if crypto.has_key() && encrypted_data.ct_bytes().len()
                + encrypted_data.epk_bytes().len() + encrypted_data.nonce_bytes().len()
                + sender_onion.spec_bytes().len() + recipient_onion.spec_bytes().len()
                < 0x4000_0000 {
                wire::lemma_message_json_len(msg);
                wire::lemma_payload_env_json_len(msg.payload);
                assert(msg.payload matches Payload::Encrypted { data } && data
                    == encrypted_data);
                assert(crate::message::payload_env(msg.payload) == encrypted_data);
                assert(str_bytes(msg.id@).len() == 36);
                assert(str_bytes(msg.version@).len() == 3);
                assert(msg.signature matches Some(sig) && str_bytes(sig@).len() == 88);
                assert(opt_bytes(msg.signature).len() == 88);
                assert(msg.sender_id matches Some(sv) && sv@ == sender_onion@);
                assert(opt_bytes(msg.sender_id) == sender_onion.spec_bytes());
                assert(msg.recipient_id matches Some(rv) && rv@ == recipient_onion@);
                assert(opt_bytes(msg.recipient_id) == recipient_onion.spec_bytes());
                assert(wire::spec_payload_json(msg.payload).len() == encrypted_data.ct_bytes().len()
                    + encrypted_data.epk_bytes().len() + encrypted_data.nonce_bytes().len() + 87);
                assert(str_bytes(msg_json@).len() < 0x1_0000_0000);
            }
        }
        let outer = match crypto.encrypt_message(msg_json.as_str(), recipient_onion) {
            Ok(env) => env,
            Err(e) => {
                return Err(e);
            },
        };
        let pkg = IpfsPackage {
            recipient_hash: Self::get_onion_hash(recipient_onion),
            encrypted_message: outer,
            timestamp: trusted::now_timestamp(),
        };
        proof {
            assert(spec_staged_package(
                pkg,
                msg,
                encrypted_data,
                sender_onion@,
                recipient_onion@,
                *crypto,
            ));
        }
        Ok(pkg)
    }

    /// The canonical wire bytes of a staged record, as stored in the
    /// distributed hash table.
    pub fn package_to_bytes(pkg: &IpfsPackage) -> (r: Vec<u8>)
        requires
            pkg.wf(),
        ensures
            r@ == wire::spec_package_json(*pkg),
    {
        wire::package_to_json_bytes(pkg)
    }

    /// Parse fetched record bytes; exactly the canonical forms of
    /// well-formed records are accepted, field-exact.
    pub fn package_from_bytes(b: &Vec<u8>) -> (r: Option<IpfsPackage>)
        ensures
            r matches Some(pkg) ==> pkg.wf() && b@ == wire::spec_package_json(pkg),
            forall|p: IpfsPackage|
                (p.wf() && b@ == #[trigger] wire::spec_package_json(p)) ==> (r matches Some(p2)
                    && crate::message::env_like(p2.encrypted_message, p.encrypted_message)
                    && p2.recipient_hash@ == p.recipient_hash@ && p2.timestamp == p.timestamp),
    {
        wire::package_from_json_bytes(b)
    }
}

} // verus!
