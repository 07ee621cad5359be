//! Trusted bindings to the outside crates the core relies on.
//!
//! Every function here is believed, not verified: its contract states what
//! the outside crate's source or documentation shows, over named results
//! (`uninterp` spec functions) where the outside computation has no short
//! mathematical statement.  Everything verified in this crate rests on these
//! contracts.

use vstd::prelude::*;

use base64::Engine;
use chacha20poly1305::aead::Aead;
use chacha20poly1305::KeyInit;
use ed25519_dalek::Verifier;
use rand::RngCore;
use sha2::Digest;

verus! {

/// A 32-byte scalar in the clamped form used by the signing scheme: low
/// three bits clear, top bit clear, second-highest bit set.
pub open spec fn is_clamped(k: Seq<u8>) -> bool {
    &&& k.len() == 32
    &&& k[0] & 7 == 0
    &&& k[31] & 128 == 0
    &&& k[31] & 64 == 64
}

/// Bytes that may appear in a standard base-64 encoding with padding.
pub open spec fn is_b64_byte(b: u8) -> bool {
    (65 <= b <= 90) || (97 <= b <= 122) || (48 <= b <= 57) || b == 43 || b == 47 || b == 61
}

/// SHA-256 digest of a byte string.
pub uninterp spec fn sha256_of(data: Seq<u8>) -> Seq<u8>;

/// Standard base-64 encoding (with padding) of a byte string.
pub uninterp spec fn b64_of(data: Seq<u8>) -> Seq<u8>;

/// HKDF-SHA-256 output key material (32 bytes, empty salt) for the given
/// input key material and context string.
pub uninterp spec fn hkdf_key(ikm: Seq<u8>, info: Seq<u8>) -> Seq<u8>;

/// AEAD ciphertext (stream cipher + authenticator tag) for a key, nonce and
/// plaintext.
pub uninterp spec fn aead_seal(key: Seq<u8>, nonce: Seq<u8>, pt: Seq<u8>) -> Seq<u8>;

/// AEAD opening: the plaintext if the ciphertext authenticates under the
/// key and nonce, `None` otherwise.
pub uninterp spec fn aead_open(key: Seq<u8>, nonce: Seq<u8>, ct: Seq<u8>) -> Option<Seq<u8>>;

/// Diffie–Hellman public key (Montgomery u-coordinate) of a 32-byte secret;
/// the secret is clamped before the base-point multiplication.
pub uninterp spec fn x25519_base(k: Seq<u8>) -> Seq<u8>;

/// Diffie–Hellman shared secret of a 32-byte secret and a peer public key.
pub uninterp spec fn x25519_shared(k: Seq<u8>, pk: Seq<u8>) -> Seq<u8>;

/// Compressed Edwards point of a clamped scalar times the base point: the
/// verifying key belonging to that scalar.
pub uninterp spec fn ed_pub_of(scalar: Seq<u8>) -> Seq<u8>;

/// Whether 32 bytes decompress to a point of the signing scheme's curve.
pub uninterp spec fn is_ed_point(pk: Seq<u8>) -> bool;

/// Montgomery u-coordinate of a compressed Edwards point, `None` where
/// decompression fails.
pub uninterp spec fn ed_to_mont(pk: Seq<u8>) -> Option<Seq<u8>>;

/// Signature over a message under a 64-byte expanded secret key.
pub uninterp spec fn ed_sign_of(expanded: Seq<u8>, msg: Seq<u8>) -> Seq<u8>;

/// Whether a signature verifies for a public key and message.
pub uninterp spec fn ed_verify_ok(pk: Seq<u8>, msg: Seq<u8>, sig: Seq<u8>) -> bool;

/// Relies on sha2's `Sha256::digest`: a 32-byte digest determined by the
/// input alone.
#[verifier::external_body]
pub(crate) fn sha256(data: &[u8]) -> (r: Vec<u8>)
    ensures
        r@ == sha256_of(data@),
        r@.len() == 32,
{
    sha2::Sha256::digest(data).to_vec()
}

/// Relies on base64's standard engine `encode`: four output bytes for every
/// three input bytes (rounded up), all from the base-64 alphabet.
#[verifier::external_body]
pub(crate) fn base64_encode(data: &[u8]) -> (r: Vec<u8>)
    ensures
        r@ == b64_of(data@),
        r@.len() == 4 * ((data@.len() + 2) / 3),
        forall|i: int| 0 <= i < r@.len() ==> is_b64_byte(#[trigger] r@[i]),
{
    base64::engine::general_purpose::STANDARD.encode(data).into_bytes()
}

/// Relies on base64's standard engine `decode`: decoding inverts encoding.
#[verifier::external_body]
pub(crate) fn base64_decode(data: &[u8]) -> (r: Option<Vec<u8>>)
    ensures
        forall|b: Seq<u8>| data@ == b64_of(b) ==> r is Some && r.unwrap()@ == b,
{
    base64::engine::general_purpose::STANDARD.decode(data).ok()
}

/// Relies on hkdf's `Hkdf::<Sha256>::new` and `expand` with an empty salt:
/// 32 bytes of output key material determined by the inputs; `expand` cannot
/// fail for a 32-byte output length.
#[verifier::external_body]
pub(crate) fn hkdf_sha256(ikm: &[u8], info: &[u8]) -> (r: Vec<u8>)
    ensures
        r@ == hkdf_key(ikm@, info@),
        r@.len() == 32,
{
    let hk = hkdf::Hkdf::<sha2::Sha256>::new(None, ikm);
    let mut okm = [0u8; 32];
    hk.expand(info, &mut okm).expect("32 bytes is a valid HKDF output length");
    okm.to_vec()
}

/// Relies on chacha20poly1305's `encrypt`: ciphertext plus a 16-byte tag,
/// determined by key, nonce and plaintext; its source fails only when the
/// plaintext reaches 2^32 blocks, which the bound below rules out.
#[verifier::external_body]
pub(crate) fn aead_encrypt(key: &[u8], nonce: &[u8], pt: &[u8]) -> (r: Vec<u8>)
    requires
        key@.len() == 32,
        nonce@.len() == 12,
        pt@.len() < 0x1_0000_0000,
    ensures
        r@ == aead_seal(key@, nonce@, pt@),
        r@.len() == pt@.len() + 16,
{
    let cipher = chacha20poly1305::ChaCha20Poly1305::new_from_slice(key).expect("32-byte key");
    cipher
        .encrypt(chacha20poly1305::Nonce::from_slice(nonce), pt)
        .expect("plaintext below the cipher's block limit")
}

/// Relies on chacha20poly1305's `decrypt`: opening inverts sealing under
/// the same key and nonce, and fails where the tag does not authenticate.
#[verifier::external_body]
pub(crate) fn aead_decrypt(key: &[u8], nonce: &[u8], ct: &[u8]) -> (r: Option<Vec<u8>>)
    requires
        key@.len() == 32,
        nonce@.len() == 12,
    ensures
        match r {
            Some(p) => aead_open(key@, nonce@, ct@) == Some(p@),
            None => aead_open(key@, nonce@, ct@) is None,
        },
        forall|pt: Seq<u8>| ct@ == aead_seal(key@, nonce@, pt) ==> r is Some && r.unwrap()@ == pt,
{
    let cipher = chacha20poly1305::ChaCha20Poly1305::new_from_slice(key).expect("32-byte key");
    cipher.decrypt(chacha20poly1305::Nonce::from_slice(nonce), ct).ok()
}

/// Relies on x25519's `PublicKey::from(&StaticSecret)`, whose source is the
/// clamped base-point multiplication on the Edwards curve followed by the
/// conversion to Montgomery form; for a clamped secret the second clause
/// restates that source line over this module's names.
#[verifier::external_body]
pub(crate) fn x25519_public(k: &[u8]) -> (r: Vec<u8>)
    requires
        k@.len() == 32,
    ensures
        r@ == x25519_base(k@),
        r@.len() == 32,
        is_clamped(k@) ==> ed_to_mont(ed_pub_of(k@)) == Some(r@),
{
    let mut a = [0u8; 32];
    a.copy_from_slice(k);
    let sk = x25519_dalek::StaticSecret::from(a);
    x25519_dalek::PublicKey::from(&sk).as_bytes().to_vec()
}

/// Relies on x25519's `diffie_hellman`: both sides of a key agreement
/// compute the same shared secret, the purpose the crate documents.
#[verifier::external_body]
pub(crate) fn x25519_shared_secret(k: &[u8], pk: &[u8]) -> (r: Vec<u8>)
    requires
        k@.len() == 32,
        pk@.len() == 32,
    ensures
        r@ == x25519_shared(k@, pk@),
        r@.len() == 32,
        forall|k2: Seq<u8>| k2.len() == 32 && pk@ == x25519_base(k2) ==> r@ == x25519_shared(
            k2,
            x25519_base(k@),
        ),
{
    let mut a = [0u8; 32];
    a.copy_from_slice(k);
    let mut b = [0u8; 32];
    b.copy_from_slice(pk);
    let sk = x25519_dalek::StaticSecret::from(a);
    let shared = sk.diffie_hellman(&x25519_dalek::PublicKey::from(b));
    shared.as_bytes().to_vec()
}

/// Relies on curve25519's `EdwardsPoint::mul_base_clamped` and `compress`:
/// the verifying key of a clamped scalar, a valid curve point.
#[verifier::external_body]
pub(crate) fn ed25519_public(scalar: &[u8]) -> (r: Vec<u8>)
    requires
        is_clamped(scalar@),
    ensures
        r@ == ed_pub_of(scalar@),
        r@.len() == 32,
        is_ed_point(r@),
{
    let mut a = [0u8; 32];
    a.copy_from_slice(scalar);
    curve25519_dalek::edwards::EdwardsPoint::mul_base_clamped(a).compress().to_bytes().to_vec()
}

/// Relies on curve25519's `CompressedEdwardsY::decompress` and
/// `EdwardsPoint::to_montgomery`: the Montgomery u-coordinate of a valid
/// compressed point, `None` where the bytes are no curve point.
#[verifier::external_body]
pub(crate) fn edwards_to_montgomery(pk: &[u8]) -> (r: Option<Vec<u8>>)
    requires
        pk@.len() == 32,
    ensures
        r is Some <==> is_ed_point(pk@),
        match r {
            Some(v) => ed_to_mont(pk@) == Some(v@) && v@.len() == 32,
            None => ed_to_mont(pk@) is None,
        },
{
    let mut a = [0u8; 32];
    a.copy_from_slice(pk);
    let compressed = curve25519_dalek::edwards::CompressedEdwardsY(a);
    compressed.decompress().map(|p| p.to_montgomery().to_bytes().to_vec())
}

/// Relies on ed25519's hazmat `raw_sign` with `ExpandedSecretKey::from_bytes`
/// and `VerifyingKey::from_bytes`: a 64-byte signature determined by the
/// expanded key and the message, for the verifying key that belongs to the
/// key's clamped scalar.
#[verifier::external_body]
pub(crate) fn ed25519_sign(expanded: &[u8], vk: &[u8], msg: &[u8]) -> (r: Vec<u8>)
    requires
        expanded@.len() == 64,
        is_clamped(expanded@.take(32)),
        vk@ == ed_pub_of(expanded@.take(32)),
    ensures
        r@ == ed_sign_of(expanded@, msg@),
        r@.len() == 64,
{
    let mut a = [0u8; 64];
    a.copy_from_slice(expanded);
    let esk = ed25519_dalek::hazmat::ExpandedSecretKey::from_bytes(&a);
    let mut v = [0u8; 32];
    v.copy_from_slice(vk);
    let vkey = ed25519_dalek::VerifyingKey::from_bytes(&v).expect("derived verifying key");
    ed25519_dalek::hazmat::raw_sign::<sha2::Sha512>(&esk, msg, &vkey).to_bytes().to_vec()
}

/// Relies on ed25519's `VerifyingKey::from_bytes` and `verify`: `None` where
/// the public key is no curve point, otherwise the verification outcome; a
/// signature made by `raw_sign` under the matching expanded key verifies.
#[verifier::external_body]
pub(crate) fn ed25519_verify(pk: &[u8], msg: &[u8], sig: &[u8]) -> (r: Option<bool>)
    requires
        pk@.len() == 32,
        sig@.len() == 64,
    ensures
        r is Some <==> is_ed_point(pk@),
        match r {
            Some(b) => b == ed_verify_ok(pk@, msg@, sig@),
            None => true,
        },
        forall|ek: Seq<u8>|
            ek.len() == 64 && is_clamped(ek.take(32)) && pk@ == ed_pub_of(ek.take(32)) && sig@
                == ed_sign_of(ek, msg@) ==> r == Some(true),
{
    let mut a = [0u8; 32];
    a.copy_from_slice(pk);
    let vkey = match ed25519_dalek::VerifyingKey::from_bytes(&a) {
        Ok(v) => v,
        Err(_) => return None,
    };
    let mut s = [0u8; 64];
    s.copy_from_slice(sig);
    let signature = ed25519_dalek::Signature::from_bytes(&s);
    Some(vkey.verify(msg, &signature).is_ok())
}

/// Relies on rand's `OsRng::fill_bytes` for 32 fresh bytes; nothing is
/// promised of their value.
#[verifier::external_body]
pub(crate) fn random_bytes_32() -> (r: Vec<u8>)
    ensures
        r@.len() == 32,
{
    let mut a = [0u8; 32];
    rand::rngs::OsRng.fill_bytes(&mut a);
    a.to_vec()
}

/// Relies on rand's `OsRng::fill_bytes` for 12 fresh bytes; nothing is
/// promised of their value.
#[verifier::external_body]
pub(crate) fn random_bytes_12() -> (r: Vec<u8>)
    ensures
        r@.len() == 12,
{
    let mut a = [0u8; 12];
    rand::rngs::OsRng.fill_bytes(&mut a);
    a.to_vec()
}

/// Relies on chrono's `Utc::now`: the current epoch second; nothing is
/// promised of its value.
#[verifier::external_body]
pub(crate) fn now_timestamp() -> i64 {
    chrono::Utc::now().timestamp()
}

/// Relies on uuid's `Uuid::new_v4` in hyphenated form: 36 bytes, each a
/// lower-case hex digit or a hyphen, as its format documents.
#[verifier::external_body]
pub(crate) fn new_uuid_string() -> (r: Vec<u8>)
    ensures
        r@.len() == 36,
        forall|i: int|
            0 <= i < r@.len() ==> (48 <= #[trigger] r@[i] <= 57 || 97 <= r@[i] <= 102 || r@[i]
                == 45),
{
    uuid::Uuid::new_v4().to_string().into_bytes()
}

/// Relies on std's `String::from_utf8`: the string whose UTF-8 bytes are
/// exactly the input, where one exists; ASCII input always has one.
#[verifier::external_body]
pub(crate) fn string_from_utf8(bytes: Vec<u8>) -> (r: Option<String>)
    ensures
        match r {
            Some(s) => vstd::utf8::encode_utf8(s@) == bytes@,
            None => true,
        },
        (forall|i: int| 0 <= i < bytes@.len() ==> bytes@[i] < 128) ==> r is Some,
        (exists|cs: Seq<char>| bytes@ == vstd::utf8::encode_utf8(cs)) ==> r is Some,
{
    String::from_utf8(bytes).ok()
}

/// Relies on ed25519's `VerifyingKey::from_bytes`: whether 32 bytes are a
/// valid compressed curve point.
#[verifier::external_body]
pub(crate) fn ed25519_point_check(pk: &[u8]) -> (r: bool)
    requires
        pk@.len() == 32,
    ensures
        r == is_ed_point(pk@),
{
    let mut a = [0u8; 32];
    a.copy_from_slice(pk);
    ed25519_dalek::VerifyingKey::from_bytes(&a).is_ok()
}

/// SHA-512 digest of a byte string.
pub uninterp spec fn sha512_of(data: Seq<u8>) -> Seq<u8>;

/// Relies on sha2's `Sha512::digest`: a 64-byte digest determined by the
/// input alone.
#[verifier::external_body]
pub(crate) fn sha512(data: &[u8]) -> (r: Vec<u8>)
    ensures
        r@ == sha512_of(data@),
        r@.len() == 64,
{
    sha2::Sha512::digest(data).to_vec()
}

} // verus!
