//! Identity-bound cryptography, exercised with the real outside crates.

use ed25519_dalek::SigningKey;
use sha2::Digest;

use tor_messenger::address;
use tor_messenger::crypto::{
    dh_public_keys_agree, ecies_round_trip_holds, signature_binding_holds, CryptoHandler,
};

/// A fresh identity: signing key, address, and the 64-byte expanded secret
/// in the daemon's form (SHA-512 of the seed, first half clamped).
fn generate_test_onion() -> (SigningKey, String, [u8; 64]) {
    let mut rng = rand::thread_rng();
    let signing_key = SigningKey::generate(&mut rng);
    let pk = signing_key.verifying_key();

    let onion = address::onion_encode(&pk.as_bytes().to_vec());

    let mut hasher = sha2::Sha512::new();
    hasher.update(signing_key.to_bytes());
    let hash = hasher.finalize();

    let mut expanded_key = [0u8; 64];
    expanded_key.copy_from_slice(&hash);

    expanded_key[0] &= 248;
    expanded_key[31] &= 127;
    expanded_key[31] |= 64;

    (signing_key, onion, expanded_key)
}

#[test]
fn test_ecies_loop() {
    let mut crypto_sender = CryptoHandler::new().unwrap();
    let mut crypto_recipient = CryptoHandler::new().unwrap();

    let (_, _, sender_expanded_key) = generate_test_onion();
    let (_, recipient_onion, recipient_expanded_key) = generate_test_onion();

    crypto_sender.set_onion_signing_key(&sender_expanded_key).unwrap();
    crypto_recipient.set_onion_signing_key(&recipient_expanded_key).unwrap();

    let message = "Hello, ECIES encryption!";
    let encrypted = crypto_sender.encrypt_message(message, &recipient_onion).unwrap();
    let decrypted = crypto_recipient.decrypt_message(&encrypted).unwrap();

    assert_eq!(message, decrypted);
}

#[test]
fn test_signature_verification() {
    let mut crypto = CryptoHandler::new().unwrap();
    let (_, onion, expanded_key) = generate_test_onion();

    crypto.set_onion_signing_key(&expanded_key).unwrap();

    let message = "This is a signed message authenticated by onion address";
    let signature_b64 = crypto.sign_with_onion_key(message).unwrap();

    let is_valid = crypto.verify_with_onion_address(message, &signature_b64, &onion).unwrap();
    assert!(is_valid);

    let is_valid_wrong_msg =
        crypto.verify_with_onion_address("modified message", &signature_b64, &onion).unwrap();
    assert!(!is_valid_wrong_msg);

    let (_, wrong_onion, _) = generate_test_onion();
    let is_valid_wrong_onion =
        crypto.verify_with_onion_address(message, &signature_b64, &wrong_onion).unwrap();
    assert!(!is_valid_wrong_onion);
}

#[test]
fn test_onion_to_pubkey_conversion() {
    let (_, valid_onion, _) = generate_test_onion();
    let res = CryptoHandler::onion_to_pubkey(&valid_onion);
    assert!(res.is_ok());

    let invalid_onion = "too-short.onion";
    let res_invalid = CryptoHandler::onion_to_pubkey(invalid_onion);
    assert!(res_invalid.is_err());

    let invalid_version = "v2c76pdyv642lr3mc72ycofvtqsqm477fntit5t2lyw3v6n2p6m4jqya.onion";
    let res_ver = CryptoHandler::onion_to_pubkey(invalid_version);
    assert!(res_ver.is_err());
}

#[test]
fn test_key_conversion_consistency() {
    let mut rng = rand::thread_rng();
    let ed_sk = SigningKey::generate(&mut rng);
    let ed_pk = ed_sk.verifying_key();

    // Expand the seed the way the daemon does.
    let mut hasher = sha2::Sha512::new();
    hasher.update(ed_sk.to_bytes());
    let hash = hasher.finalize();
    let mut expanded_scalar = [0u8; 32];
    expanded_scalar.copy_from_slice(&hash[0..32]);
    expanded_scalar[0] &= 248;
    expanded_scalar[31] &= 127;
    expanded_scalar[31] |= 64;

    // Diffie-Hellman public from the clamped scalar.
    let x_sk = x25519_dalek::StaticSecret::from(expanded_scalar);
    let x_pk_from_sk = x25519_dalek::PublicKey::from(&x_sk);

    // Diffie-Hellman public from the verifying key.
    let x_pk_from_pk_bytes = CryptoHandler::ed25519_pk_to_x25519(&ed_pk.as_bytes().to_vec());

    assert_eq!(x_pk_from_sk.as_bytes().to_vec(), x_pk_from_pk_bytes);
}

#[test]
fn law_dh_public_equivalence() {
    for _ in 0..8 {
        let (_, _, expanded) = generate_test_onion();
        let scalar = expanded[0..32].to_vec();
        assert!(dh_public_keys_agree(&scalar));
    }
}

#[test]
fn law_ecies_round_trip() {
    let (_, _, expanded) = generate_test_onion();
    let mut crypto = CryptoHandler::new().unwrap();
    crypto.set_onion_signing_key(&expanded).unwrap();
    assert!(ecies_round_trip_holds(&crypto, "any plaintext at all, with unicode: déjà vu"));
    assert!(ecies_round_trip_holds(&crypto, ""));
}

#[test]
fn law_signature_binding() {
    let (_, _, expanded) = generate_test_onion();
    let mut crypto = CryptoHandler::new().unwrap();
    crypto.set_onion_signing_key(&expanded).unwrap();
    assert!(signature_binding_holds(&crypto, "bind me to my address"));
}

#[test]
fn rejects_unclamped_expanded_key() {
    let mut crypto = CryptoHandler::new().unwrap();
    let mut bad = [7u8; 64];
    bad[31] = 255;
    assert!(crypto.set_onion_signing_key(&bad).is_err());
    assert!(crypto.set_onion_signing_key(&[0u8; 10]).is_err());
}

#[test]
fn seed_derivation_is_clamped() {
    let seed = vec![42u8; 32];
    let out = CryptoHandler::ed25519_sk_to_x25519(&seed);
    assert_eq!(out.len(), 32);
    assert_eq!(out[0] & 7, 0);
    assert_eq!(out[31] & 128, 0);
    assert_eq!(out[31] & 64, 64);
}
