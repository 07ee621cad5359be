//! Identity-bound cryptography.
//!
//! The local identity is the 64-byte expanded signing secret the overlay
//! daemon materializes: a 32-byte clamped scalar followed by a 32-byte
//! nonce prefix.  The verifying key is derived as scalar times the base
//! point — never by re-hashing a seed — and the same scalar serves directly
//! as the Diffie–Hellman secret.  Encryption is ephemeral-static ECIES:
//! X25519 agreement, HKDF-SHA-256 with a fixed context string, then a
//! 256-bit stream cipher with a Poly1305 authenticator.

use vstd::prelude::*;
use vstd::string::StrSliceExecFns;
use vstd::string::StringSliceAdditionalSpecFns;

use crate::address;
use crate::trusted;
use crate::trusted::{
    aead_seal, b64_of, ed_pub_of, ed_sign_of, ed_to_mont, ed_verify_ok, hkdf_key, is_clamped,
    is_ed_point, sha512_of, x25519_base, x25519_shared,
};
use crate::util;

verus! {

/// Failures of the cryptographic layer, each carrying a short description.
#[derive(Debug)]
pub enum CryptoError {
    KeyGeneration(String),
    Encryption(String),
    Decryption(String),
    KeyLoading(String),
    Signature(String),
}

/// A hybrid-encrypted payload: base-64 ciphertext with its authenticator
/// tag, the ephemeral Diffie–Hellman public key, and the cipher nonce.
#[derive(Debug, Clone)]
pub struct EncryptedData {
    pub encrypted_message: String,
    pub ephemeral_public_key: String,
    pub nonce: String,
}

/// The UTF-8 bytes of a character string.
pub open spec fn str_bytes(s: Seq<char>) -> Seq<u8> {
    vstd::utf8::encode_utf8(s)
}

impl EncryptedData {
    /// Bytes of the ciphertext field.
    pub open spec fn ct_bytes(self) -> Seq<u8> {
        str_bytes(self.encrypted_message@)
    }

    /// Bytes of the ephemeral-public-key field.
    pub open spec fn epk_bytes(self) -> Seq<u8> {
        str_bytes(self.ephemeral_public_key@)
    }

    /// Bytes of the nonce field.
    pub open spec fn nonce_bytes(self) -> Seq<u8> {
        str_bytes(self.nonce@)
    }
}

/// The fixed HKDF context string of this protocol.
pub open spec fn spec_hkdf_info() -> Seq<u8> {
    seq![
        116u8, 111u8, 114u8, 45u8, 109u8, 101u8, 115u8, 115u8, 101u8, 110u8, 103u8, 101u8, 114u8,
        45u8, 101u8, 99u8, 105u8, 101u8, 115u8,
    ]
}

/// The symmetric key derived from a Diffie–Hellman shared secret.
pub open spec fn ecies_key(shared: Seq<u8>) -> Seq<u8> {
    hkdf_key(shared, spec_hkdf_info())
}

/// The envelope holds exactly the plaintext `pt` sealed to the
/// Diffie–Hellman public `dhpub` under ephemeral secret `esk` and nonce
/// `nonce`.
pub open spec fn spec_sealed_with(
    env: EncryptedData,
    dhpub: Seq<u8>,
    pt: Seq<u8>,
    esk: Seq<u8>,
    nonce: Seq<u8>,
) -> bool {
    &&& esk.len() == 32
    &&& nonce.len() == 12
    &&& x25519_base(esk).len() == 32
    &&& env.ct_bytes() == b64_of(aead_seal(ecies_key(x25519_shared(esk, dhpub)), nonce, pt))
    &&& env.epk_bytes() == b64_of(x25519_base(esk))
    &&& env.nonce_bytes() == b64_of(nonce)
    &&& aead_seal(ecies_key(x25519_shared(esk, dhpub)), nonce, pt).len() == pt.len() + 16
    &&& env.ct_bytes().len() == 4 * ((pt.len() + 16 + 2) / 3)
    &&& env.epk_bytes().len() == 44
    &&& env.nonce_bytes().len() == 16
}

/// The envelope seals `pt` to `dhpub` under some ephemeral secret and
/// nonce.
pub open spec fn spec_sealed_to(env: EncryptedData, dhpub: Seq<u8>, pt: Seq<u8>) -> bool {
    exists|esk: Seq<u8>, nonce: Seq<u8>| spec_sealed_with(env, dhpub, pt, esk, nonce)
}

/// Key management plus the encrypt, decrypt, sign and verify operations.
pub struct CryptoHandler {
    /// Raw expanded secret from the daemon: 32-byte clamped scalar, then
    /// the 32-byte nonce prefix used during signing.
    raw_tor_expanded_key: Option<Vec<u8>>,
    /// Verifying key derived from the clamped scalar (scalar times the
    /// base point).
    tor_verifying_key: Option<Vec<u8>>,
}

impl CryptoHandler {
    /// Both key fields are set together and belong to each other.
    pub closed spec fn wf(self) -> bool {
        match (self.raw_tor_expanded_key, self.tor_verifying_key) {
            (Some(k), Some(vk)) => {
                &&& k@.len() == 64
                &&& is_clamped(k@.take(32))
                &&& vk@.len() == 32
                &&& vk@ == ed_pub_of(k@.take(32))
                &&& is_ed_point(vk@)
            },
            (None, None) => true,
            _ => false,
        }
    }

    /// Whether an identity has been installed.
    pub closed spec fn has_key(self) -> bool {
        self.raw_tor_expanded_key is Some
    }

    /// The expanded secret.
    pub closed spec fn expanded_key(self) -> Seq<u8>
        recommends
            self.has_key(),
    {
        self.raw_tor_expanded_key.unwrap()@
    }

    /// The clamped scalar: the Diffie–Hellman secret of this identity.
    pub closed spec fn scalar(self) -> Seq<u8>
        recommends
            self.has_key(),
    {
        self.expanded_key().take(32)
    }

    /// The derived verifying key.
    pub closed spec fn verifying_key(self) -> Seq<u8>
        recommends
            self.has_key(),
    {
        self.tor_verifying_key.unwrap()@
    }

    /// What well-formedness gives a caller: the verifying key is derived
    /// from the clamped scalar and is a valid curve point.
    pub proof fn lemma_wf_keys(self)
        requires
            self.wf(),
            self.has_key(),
        ensures
            self.expanded_key().len() == 64,
            self.scalar() == self.expanded_key().take(32),
            is_clamped(self.scalar()),
            self.verifying_key() == ed_pub_of(self.scalar()),
            self.verifying_key().len() == 32,
            is_ed_point(self.verifying_key()),
    {
    }

    /// A fresh handler with no identity installed.
    pub fn new() -> (r: Result<Self, CryptoError>)
        ensures
            match r {
                Ok(c) => c.wf() && !c.has_key(),
                Err(_) => false,
            },
    {
        Ok(
            Self {
                raw_tor_expanded_key: None,
                tor_verifying_key: None,
            },
        )
    }

    /// Install the expanded signing secret read from the daemon's hidden
    /// service directory.  The input must be 64 bytes whose first half is a
    /// clamped scalar; the verifying key is derived from that scalar.
    ///
    /// The clamping check is deliberate: the daemon materializes the scalar
    /// already clamped, and an unclamped scalar would make the signing key
    /// and the Diffie–Hellman secret disagree.  Rejecting such input trades
    /// acceptance of broken key files for a key-agreement guarantee.
    pub fn set_onion_signing_key(&mut self, key_bytes: &[u8]) -> (r: Result<(), CryptoError>)
        requires
            old(self).wf(),
        ensures
            r is Ok <==> key_bytes@.len() == 64 && is_clamped(key_bytes@.take(32)),
            r matches Err(e) ==> e is Signature,
            final(self).wf(),
            r is Ok ==> final(self).has_key() && final(self).expanded_key() == key_bytes@,
            r is Err ==> *final(self) == *old(self),
    {
        let kb: Vec<u8> = slice_to_vec_bytes(key_bytes);
        if kb.len() != 64 {
            return Err(
                CryptoError::Signature(
                    "Invalid expanded signing key length (expected 64)".to_owned(),
                ),
            );
        }
        if !(kb[0] & 7 == 0 && kb[31] & 128 == 0 && kb[31] & 64 == 64) {
            return Err(
                CryptoError::Signature("Expanded signing key scalar is not clamped".to_owned()),
            );
        }
        let scalar = util::sub_bytes(&kb, 0, 32);
        proof {
            assert(scalar@ == key_bytes@.take(32));
        }
        let vk = trusted::ed25519_public(scalar.as_slice());
        self.raw_tor_expanded_key = Some(kb);
        self.tor_verifying_key = Some(vk);
        Ok(())
    }

    /// The raw clamped scalar of the installed identity, the direct
    /// Diffie–Hellman secret.
    fn get_x25519_secret_from_tor_key(&self) -> (r: Result<Vec<u8>, CryptoError>)
        requires
            self.wf(),
        ensures
            r is Ok <==> self.has_key(),
            r is Ok ==> r.unwrap()@ == self.scalar(),
            r matches Err(e) ==> e is Decryption,
    {
        match &self.raw_tor_expanded_key {
            Some(k) => Ok(util::sub_bytes(k, 0, 32)),
            None => Err(CryptoError::Decryption("identity key not loaded".to_owned())),
        }
    }

    /// Encrypt a message to a recipient known only by address: decode the
    /// embedded verifying key, convert it to Diffie–Hellman form, and seal
    /// the plaintext under a fresh ephemeral key and nonce.
    pub fn encrypt_message(&self, message: &str, recipient_onion: &str) -> (r: Result<
        EncryptedData,
        CryptoError,
    >)
        ensures
            r is Ok <==> match address::spec_onion_decode(recipient_onion.spec_bytes()) {
                Some(pk) => ed_to_mont(pk) is Some && message.spec_bytes().len() < 0x1_0000_0000,
                None => false,
            },
            r matches Ok(env) ==> spec_sealed_to(
                env,
                ed_to_mont(address::spec_onion_decode(recipient_onion.spec_bytes()).unwrap()).unwrap(),
                message.spec_bytes(),
            ) && util::json_safe(env.ct_bytes()) && util::json_safe(env.epk_bytes())
                && util::json_safe(env.nonce_bytes()),
            r matches Err(e) ==> e is Encryption,
    {
        let pk = match address::onion_decode(recipient_onion) {
            Ok(pk) => pk,
            Err(_) => {
                return Err(CryptoError::Encryption("invalid recipient address".to_owned()));
            },
        };
        let dhpub = match trusted::edwards_to_montgomery(pk.as_slice()) {
            Some(v) => v,
            None => {
                return Err(
                    CryptoError::Encryption("recipient key is not a curve point".to_owned()),
                );
            },
        };
        let pt: Vec<u8> = message.as_bytes_vec();
        if !((pt.len() as u64) < 0x1_0000_0000u64) {
            return Err(CryptoError::Encryption("message too large".to_owned()));
        }
        let esk = trusted::random_bytes_32();
        let epk = trusted::x25519_public(esk.as_slice());
        let shared = trusted::x25519_shared_secret(esk.as_slice(), dhpub.as_slice());
        let info = hkdf_info();
        let okm = trusted::hkdf_sha256(shared.as_slice(), info.as_slice());
        let nonce = trusted::random_bytes_12();
        let ct = trusted::aead_encrypt(okm.as_slice(), nonce.as_slice(), pt.as_slice());
        let env = EncryptedData {
            encrypted_message: b64_string(&ct),
            ephemeral_public_key: b64_string(&epk),
            nonce: b64_string(&nonce),
        };
        proof {
            assert(spec_sealed_with(env, dhpub@, message.spec_bytes(), esk@, nonce@));
        }
        Ok(env)
    }

    /// Decrypt an envelope with the installed identity.  Whenever the
    /// envelope seals a character string to this identity's Diffie–Hellman
    /// public key, that string comes back; anything else fails.
    pub fn decrypt_message(&self, encrypted_data: &EncryptedData) -> (r: Result<
        String,
        CryptoError,
    >)
        requires
            self.wf(),
        ensures
            !self.has_key() ==> r is Err,
            forall|cs: Seq<char>, esk: Seq<u8>, nonce: Seq<u8>|
                self.has_key() && spec_sealed_with(
                    *encrypted_data,
                    x25519_base(self.scalar()),
                    str_bytes(cs),
                    esk,
                    nonce,
                ) ==> (r matches Ok(s) && s@ == cs),
            r matches Err(e) ==> e is Decryption,
    {
        let our_sk = match self.get_x25519_secret_from_tor_key() {
            Ok(k) => k,
            Err(e) => {
                return Err(e);
            },
        };
        let epk_field: Vec<u8> = encrypted_data.ephemeral_public_key.as_str().as_bytes_vec();
        let ephem = match trusted::base64_decode(epk_field.as_slice()) {
            Some(v) => v,
            None => {
                return Err(CryptoError::Decryption("bad ephemeral key encoding".to_owned()));
            },
        };
        if ephem.len() != 32 {
            return Err(CryptoError::Decryption("invalid ephemeral public key length".to_owned()));
        }
        let shared = trusted::x25519_shared_secret(our_sk.as_slice(), ephem.as_slice());
        let info = hkdf_info();
        let okm = trusted::hkdf_sha256(shared.as_slice(), info.as_slice());
        let nonce_field: Vec<u8> = encrypted_data.nonce.as_str().as_bytes_vec();
        let nonce = match trusted::base64_decode(nonce_field.as_slice()) {
            Some(v) => v,
            None => {
                return Err(CryptoError::Decryption("bad nonce encoding".to_owned()));
            },
        };
        if nonce.len() != 12 {
            return Err(CryptoError::Decryption("invalid nonce length".to_owned()));
        }
        let ct_field: Vec<u8> = encrypted_data.encrypted_message.as_str().as_bytes_vec();
        let ct = match trusted::base64_decode(ct_field.as_slice()) {
            Some(v) => v,
            None => {
                return Err(CryptoError::Decryption("bad ciphertext encoding".to_owned()));
            },
        };
        let pt = match trusted::aead_decrypt(okm.as_slice(), nonce.as_slice(), ct.as_slice()) {
            Some(p) => p,
            None => {
                return Err(CryptoError::Decryption("ciphertext does not authenticate".to_owned()));
            },
        };
        match trusted::string_from_utf8(pt) {
            Some(s) => {
                proof {
                    lemma_utf8_unique(s@);
                }
                Ok(s)
            },
            None => Err(CryptoError::Decryption("plaintext is not UTF-8".to_owned())),
        }
    }

    /// Sign a message with the installed identity's expanded secret; the
    /// result is the base-64 form of the 64-byte signature.
    pub fn sign_with_onion_key(&self, message: &str) -> (r: Result<String, CryptoError>)
        requires
            self.wf(),
        ensures
            r is Ok <==> self.has_key(),
            r matches Err(e) ==> e is Signature,
            r matches Ok(sig) ==> str_bytes(sig@) == b64_of(
                ed_sign_of(self.expanded_key(), message.spec_bytes()),
            ) && ed_sign_of(self.expanded_key(), message.spec_bytes()).len() == 64
                && str_bytes(sig@).len() == 88 && util::json_safe(str_bytes(sig@)),
    {
        let raw = match &self.raw_tor_expanded_key {
            Some(k) => k,
            None => {
                return Err(CryptoError::Signature("identity key not loaded".to_owned()));
            },
        };
        let vk = match &self.tor_verifying_key {
            Some(v) => v,
            None => {
                proof {
                    assert(false);
                }
                return Err(CryptoError::Signature("verifying key not computed".to_owned()));
            },
        };
        let msg: Vec<u8> = message.as_bytes_vec();
        let sig = trusted::ed25519_sign(raw.as_slice(), vk.as_slice(), msg.as_slice());
        Ok(b64_string(&sig))
    }

    /// Check a base-64 signature over a message against the verifying key
    /// embedded in the signer's address.  Never panics: every malformed
    /// input is an error, a mere mismatch is `Ok(false)`.  The message
    /// layer's verification treats every error as an unauthenticated
    /// message, so a peer sees only a boolean outcome.
    pub fn verify_with_onion_address(
        &self,
        message: &str,
        signature_b64: &str,
        onion_address: &str,
    ) -> (r: Result<bool, CryptoError>)
        ensures
            address::spec_onion_decode(onion_address.spec_bytes()) is None ==> r is Err,
            r matches Err(e) ==> e is Signature,
            forall|sig: Seq<u8>|
                {
                    &&& address::spec_onion_decode(onion_address.spec_bytes()) matches Some(pk)
                    &&& signature_b64.spec_bytes() == b64_of(sig)
                    &&& sig.len() == 64
                    &&& is_ed_point(pk)
                } ==> r == Ok::<bool, CryptoError>(
                    ed_verify_ok(
                        address::spec_onion_decode(onion_address.spec_bytes()).unwrap(),
                        message.spec_bytes(),
                        sig,
                    ),
                ),
            forall|ek: Seq<u8>|
                {
                    &&& address::spec_onion_decode(onion_address.spec_bytes()) matches Some(pk)
                    &&& ek.len() == 64
                    &&& is_clamped(ek.take(32))
                    &&& pk == ed_pub_of(ek.take(32))
                    &&& is_ed_point(pk)
                    &&& ed_sign_of(ek, message.spec_bytes()).len() == 64
                    &&& signature_b64.spec_bytes() == b64_of(
                        #[trigger] ed_sign_of(ek, message.spec_bytes()),
                    )
                } ==> r == Ok::<bool, CryptoError>(true),
    {
        let pk = match address::onion_decode(onion_address) {
            Ok(pk) => pk,
            Err(_) => {
                return Err(CryptoError::Signature("invalid signer address".to_owned()));
            },
        };
        let sig_field: Vec<u8> = signature_b64.as_bytes_vec();
        let sig = match trusted::base64_decode(sig_field.as_slice()) {
            Some(v) => v,
            None => {
                return Err(CryptoError::Signature("bad signature encoding".to_owned()));
            },
        };
        if sig.len() != 64 {
            return Err(CryptoError::Signature("invalid signature length".to_owned()));
        }
        let msg: Vec<u8> = message.as_bytes_vec();
        match trusted::ed25519_verify(pk.as_slice(), msg.as_slice(), sig.as_slice()) {
            Some(b) => Ok(b),
            None => Err(CryptoError::Signature("signer key is not a curve point".to_owned())),
        }
    }

    /// Decode an address to the verifying key it embeds, requiring the key
    /// to be a valid curve point.
    pub fn onion_to_pubkey(onion: &str) -> (r: Result<Vec<u8>, CryptoError>)
        ensures
            r is Ok <==> match address::spec_onion_decode(onion.spec_bytes()) {
                Some(pk) => is_ed_point(pk),
                None => false,
            },
            r matches Ok(pk) ==> address::spec_onion_decode(onion.spec_bytes()) == Some(pk@),
    {
        let pk = match address::onion_decode(onion) {
            Ok(pk) => pk,
            Err(_) => {
                return Err(CryptoError::Signature("invalid address".to_owned()));
            },
        };
        if trusted::ed25519_point_check(pk.as_slice()) {
            Ok(pk)
        } else {
            Err(CryptoError::Signature("embedded key is not a curve point".to_owned()))
        }
    }

    /// Convert a verifying key to its Diffie–Hellman form: decompress the
    /// Edwards point and take the Montgomery u-coordinate; all zeroes where
    /// the bytes are no curve point.
    pub fn ed25519_pk_to_x25519(ed_pk: &Vec<u8>) -> (r: Vec<u8>)
        requires
            ed_pk@.len() == 32,
        ensures
            match ed_to_mont(ed_pk@) {
                Some(v) => r@ == v,
                None => r@ == Seq::<u8>::new(32, |i: int| 0u8),
            },
    {
        match trusted::edwards_to_montgomery(ed_pk.as_slice()) {
            Some(v) => v,
            None => {
                let mut z: Vec<u8> = Vec::new();
                let mut i: usize = 0;
                while i < 32
                    invariant
                        i <= 32,
                        z@.len() == i,
                        forall|j: int| 0 <= j < i ==> z@[j] == 0u8,
                    decreases 32 - i,
                {
                    z.push(0);
                    i = i + 1;
                }
                proof {
                    assert(z@ =~= Seq::<u8>::new(32, |i: int| 0u8));
                }
                z
            },
        }
    }

    /// The historical seed-based Diffie–Hellman secret derivation: hash the
    /// 32-byte seed with SHA-512, take the first half, clamp it.  The
    /// identity path above does not use it, because the daemon's scalar is
    /// already clamped; deriving from the seed again would break agreement
    /// with peers.
    pub fn ed25519_sk_to_x25519(ed_sk: &Vec<u8>) -> (r: Vec<u8>)
        ensures
            r@ == spec_clamp(sha512_of(ed_sk@).take(32)),
            is_clamped(r@),
    {
        let h = trusted::sha512(ed_sk.as_slice());
        let mut x = util::sub_bytes(&h, 0, 32);
        let b0 = x[0] & 248;
        x.set(0, b0);
        let b31 = (x[31] & 127) | 64;
        x.set(31, b31);
        proof {
            assert(x@ =~= spec_clamp(sha512_of(ed_sk@).take(32)));
            let ghost h0 = sha512_of(ed_sk@).take(32)[0];
            let ghost h31 = sha512_of(ed_sk@).take(32)[31];
            assert((h0 & 248) & 7 == 0 && (((h31 & 127) | 64) & 128) == 0 && (((h31 & 127) | 64)
                & 64) == 64) by (bit_vector);
            assert(x@[0] == h0 & 248 && x@[31] == (h31 & 127) | 64);
        }
        x
    }
}

/// Clamping of a 32-byte scalar: clear the low three bits, clear the top
/// bit, set the second-highest bit.
pub open spec fn spec_clamp(k: Seq<u8>) -> Seq<u8> {
    k.update(0, (k[0] & 248) as u8).update(31, (((k[31] & 127) | 64)) as u8)
}

/// ECIES round trip: encrypting any plaintext to this identity's own
/// address and decrypting it with the identity's scalar returns the
/// plaintext, for every installed identity and every plaintext below the
/// cipher's size bound.
pub fn ecies_round_trip_holds(handler: &CryptoHandler, message: &str) -> (ok: bool)
    requires
        handler.wf(),
        handler.has_key(),
        message.spec_bytes().len() < 0x1_0000_0000,
    ensures
        ok,
{
    proof {
        handler.lemma_wf_keys();
    }
    let raw = match &handler.raw_tor_expanded_key {
        Some(k) => k,
        None => {
            proof {
                assert(false);
            }
            return false;
        },
    };
    let scalar = util::sub_bytes(raw, 0, 32);
    // These two calls put the link between the Edwards and the Montgomery
    // derivation for this scalar in scope.
    let dhpub = trusted::x25519_public(scalar.as_slice());
    let vk = trusted::ed25519_public(scalar.as_slice());
    let addr = address::onion_encode(&vk);
    let env = match handler.encrypt_message(message, addr.as_str()) {
        Ok(e) => e,
        Err(_) => {
            proof {
                assert(false);
            }
            return false;
        },
    };
    proof {
        assert(spec_sealed_to(env, x25519_base(handler.scalar()), message.spec_bytes()));
    }
    let out = match handler.decrypt_message(&env) {
        Ok(s) => s,
        Err(_) => {
            proof {
                let (esk, nonce) = choose|esk: Seq<u8>, nonce: Seq<u8>|
                    spec_sealed_with(
                        env,
                        x25519_base(handler.scalar()),
                        message.spec_bytes(),
                        esk,
                        nonce,
                    );
                assert(spec_sealed_with(
                    env,
                    x25519_base(handler.scalar()),
                    str_bytes(message@),
                    esk,
                    nonce,
                ));
                assert(false);
            }
            return false;
        },
    };
    proof {
        let (esk, nonce) = choose|esk: Seq<u8>, nonce: Seq<u8>|
            spec_sealed_with(env, x25519_base(handler.scalar()), message.spec_bytes(), esk, nonce);
        assert(spec_sealed_with(
            env,
            x25519_base(handler.scalar()),
            str_bytes(message@),
            esk,
            nonce,
        ));
        assert(out@ == message@);
    }
    let out_bytes: Vec<u8> = out.as_str().as_bytes_vec();
    let msg_bytes: Vec<u8> = message.as_bytes_vec();
    util::bytes_eq(&out_bytes, &msg_bytes)
}

/// Signature identity binding: a message signed with an identity's
/// expanded secret verifies against the address of that identity, for
/// every installed identity and every message.
pub fn signature_binding_holds(handler: &CryptoHandler, message: &str) -> (ok: bool)
    requires
        handler.wf(),
        handler.has_key(),
    ensures
        ok,
{
    proof {
        handler.lemma_wf_keys();
    }
    let raw = match &handler.raw_tor_expanded_key {
        Some(k) => k,
        None => {
            proof {
                assert(false);
            }
            return false;
        },
    };
    let scalar = util::sub_bytes(raw, 0, 32);
    let vk = trusted::ed25519_public(scalar.as_slice());
    let addr = address::onion_encode(&vk);
    let sig = match handler.sign_with_onion_key(message) {
        Ok(s) => s,
        Err(_) => {
            proof {
                assert(false);
            }
            return false;
        },
    };
    match handler.verify_with_onion_address(message, sig.as_str(), addr.as_str()) {
        Ok(b) => b,
        Err(_) => {
            proof {
                assert(false);
            }
            false
        },
    }
}

/// The two Diffie–Hellman public derivations agree: converting the derived
/// verifying key to Montgomery form gives the same bytes as deriving the
/// public key from the clamped scalar directly.  This is the load-bearing
/// correctness fact of identity-bound encryption.
pub fn dh_public_keys_agree(scalar: &Vec<u8>) -> (agree: bool)
    requires
        is_clamped(scalar@),
    ensures
        agree,
{
    let vk = trusted::ed25519_public(scalar.as_slice());
    let from_scalar = trusted::x25519_public(scalar.as_slice());
    let from_vk = match trusted::edwards_to_montgomery(vk.as_slice()) {
        Some(v) => v,
        None => {
            proof {
                assert(false);
            }
            Vec::new()
        },
    };
    util::bytes_eq(&from_scalar, &from_vk)
}

/// UTF-8 encodings are unique: two character strings with the same bytes
/// are the same string.
pub proof fn lemma_utf8_unique(cs: Seq<char>)
    ensures
        forall|cs2: Seq<char>|
            str_bytes(cs) == str_bytes(cs2) ==> cs == cs2,
{
    assert forall|cs2: Seq<char>| str_bytes(cs) == str_bytes(cs2) implies cs == cs2 by {
        vstd::utf8::encode_utf8_decode_utf8(cs);
        vstd::utf8::encode_utf8_decode_utf8(cs2);
    }
}

/// The protocol's HKDF context string, `tor-messenger-ecies`.
fn hkdf_info() -> (r: Vec<u8>)
    ensures
        r@ == spec_hkdf_info(),
{
    let mut v: Vec<u8> = Vec::new();
    v.push(116);
    v.push(111);
    v.push(114);
    v.push(45);
    v.push(109);
    v.push(101);
    v.push(115);
    v.push(115);
    v.push(101);
    v.push(110);
    v.push(103);
    v.push(101);
    v.push(114);
    v.push(45);
    v.push(101);
    v.push(99);
    v.push(105);
    v.push(101);
    v.push(115);
    proof {
        assert(v@ =~= spec_hkdf_info());
    }
    v
}

/// Base-64 bytes as a string; the alphabet is ASCII, so the conversion
/// cannot fail.
fn b64_string(data: &Vec<u8>) -> (r: String)
    ensures
        str_bytes(r@) == b64_of(data@),
        str_bytes(r@).len() == 4 * ((data@.len() + 2) / 3),
        util::json_safe(str_bytes(r@)),
{
    let enc = trusted::base64_encode(data.as_slice());
    proof {
        assert forall|i: int| 0 <= i < enc@.len() implies enc@[i] < 128 by {
            assert(trusted::is_b64_byte(enc@[i]));
        }
        assert forall|i: int| 0 <= i < enc@.len() implies 32 <= #[trigger] enc@[i] <= 126
            && enc@[i] != 34 && enc@[i] != 92 by {
            assert(trusted::is_b64_byte(enc@[i]));
        }
    }
    match trusted::string_from_utf8(enc) {
        Some(s) => s,
        None => {
            proof {
                assert(false);
            }
            String::new()
        },
    }
}

/// A byte slice copied into a vector.
fn slice_to_vec_bytes(s: &[u8]) -> (r: Vec<u8>)
    ensures
        r@ == s@,
{
    let mut r: Vec<u8> = Vec::new();
    let n = s.len();
    let mut i: usize = 0;
    while i < n
        invariant
            s@.len() == n,
            i <= n,
            r@.len() == i,
            forall|j: int| 0 <= j < i ==> r@[j] == s@[j],
        decreases n - i,
    {
        r.push(s[i]);
        i = i + 1;
    }
    proof {
        assert(r@ =~= s@);
    }
    r
}

} // verus!
