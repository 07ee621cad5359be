//! The address codec and its round trip.

use ed25519_dalek::SigningKey;

use tor_messenger::address::{onion_decode, onion_encode};
use tor_messenger::base32;

fn fresh_key_bytes() -> Vec<u8> {
    let mut rng = rand::thread_rng();
    let signing_key = SigningKey::generate(&mut rng);
    signing_key.verifying_key().as_bytes().to_vec()
}

#[test]
fn address_round_trip() {
    for _ in 0..8 {
        let pk = fresh_key_bytes();
        let onion = onion_encode(&pk);
        assert_eq!(onion.len(), 62);
        assert!(onion.ends_with(".onion"));
        let decoded = onion_decode(&onion).unwrap();
        assert_eq!(decoded, pk);
    }
}

#[test]
fn address_normalization() {
    let pk = fresh_key_bytes();
    let onion = onion_encode(&pk);
    let noisy = format!("  {}\t", onion.to_uppercase());
    // The suffix was uppercased too, so it no longer strips; the bare
    // 56-character body still decodes after trimming and lowercasing.
    let body = onion.trim_end_matches(".onion");
    let noisy_body = format!(" {} ", body.to_uppercase());
    assert_eq!(onion_decode(&noisy_body).unwrap(), pk);
    assert!(onion_decode(&noisy).is_err());
    assert_eq!(onion_decode(body).unwrap(), pk);
}

#[test]
fn address_rejects_wrong_length() {
    // 55 characters: one short.
    let s: String = "a".repeat(55);
    assert!(onion_decode(&s).is_err());
    let s56_bad: String = "1".repeat(56);
    assert!(onion_decode(&s56_bad).is_err());
    assert!(onion_decode("").is_err());
}

#[test]
fn base32_round_trip() {
    let data: Vec<u8> = vec![0, 1, 2, 3, 4, 255, 254, 253, 252, 251];
    let enc = base32::encode(&data);
    assert_eq!(enc.len(), 16);
    let dec = base32::decode(&enc).unwrap();
    assert_eq!(dec, data);
    // A byte outside the alphabet is rejected.
    let mut bad = enc.clone();
    bad[3] = b'1';
    assert!(base32::decode(&bad).is_none());
    // A length that is no multiple of eight is rejected.
    assert!(base32::decode(&vec![b'a'; 7]).is_none());
}

#[test]
fn base32_known_vector() {
    // "hello" in RFC 4648 base-32, lower case, is "nbswy3dp".
    let data: Vec<u8> = b"hello".to_vec();
    let enc = base32::encode(&data);
    assert_eq!(enc, b"nbswy3dp".to_vec());
}
