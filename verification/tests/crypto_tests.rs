//! Cryptographic primitives: key derivation, authenticated encryption,
//! signatures, and their failure modes.

use arsonnet::crypto::{
    aes_decrypt, aes_encrypt, derive_aes_key, generate_ed25519_keypair, generate_keypair,
    generate_nonce, generate_packet_id, generate_x25519_keypair, random_bytes, sign_data,
    sign_message, verify_signature, verify_signature_bytes, x25519_derive_shared,
};
use arsonnet::errors::CryptoError;
use sha2::{Digest, Sha256};

#[test]
fn kdf_is_domain_separated_sha256() {
    let secret = vec![0x11u8; 32];
    let key = derive_aes_key(&secret);
    let mut hasher = Sha256::new();
    hasher.update(b"onion-aes-key-v1");
    hasher.update(&secret);
    let expected = hasher.finalize().to_vec();
    assert_eq!(key, expected);
    assert_eq!(key.len(), 32);

    let mut other = Sha256::new();
    other.update(b"onion-aes-key-v2");
    other.update(&secret);
    assert_ne!(key, other.finalize().to_vec());
}

#[test]
fn kdf_is_deterministic() {
    let secret = vec![0x42u8; 32];
    assert_eq!(derive_aes_key(&secret), derive_aes_key(&secret));
    assert_ne!(derive_aes_key(&secret), derive_aes_key(&vec![0x43u8; 32]));
}

#[test]
fn aes_round_trip_and_failure() {
    let key = vec![1u8; 32];
    let nonce = vec![2u8; 12];
    let plaintext = b"hello onion".to_vec();
    let ciphertext = aes_encrypt(&key, &nonce, &plaintext);
    assert_ne!(ciphertext, plaintext);
    assert_eq!(ciphertext.len(), plaintext.len() + 16);
    assert_eq!(aes_decrypt(&key, &nonce, &ciphertext), Ok(plaintext));

    let wrong_key = vec![3u8; 32];
    assert_eq!(aes_decrypt(&wrong_key, &nonce, &ciphertext), Err(CryptoError::DecryptFailed));
    let mut tampered = ciphertext.clone();
    tampered[0] ^= 1;
    assert_eq!(aes_decrypt(&key, &nonce, &tampered), Err(CryptoError::DecryptFailed));
}

#[test]
fn x25519_agreement_matches() {
    let (ask, apk) = generate_x25519_keypair();
    let (bsk, bpk) = generate_x25519_keypair();
    assert_eq!(apk.len(), 32);
    assert_eq!(ask.len(), 32);
    let shared_a = x25519_derive_shared(&ask, &bpk);
    let shared_b = x25519_derive_shared(&bsk, &apk);
    assert_eq!(shared_a, shared_b);
    assert_ne!(shared_a, vec![0u8; 32]);
}

#[test]
fn ed25519_sign_and_verify() {
    let (sk, pk) = generate_ed25519_keypair();
    let message = b"announce".to_vec();
    let signature = sign_message(&sk, &message);
    assert_eq!(signature.len(), 64);
    assert!(verify_signature_bytes(&pk, &message, &signature));

    let other = b"announce!".to_vec();
    assert!(!verify_signature_bytes(&pk, &other, &signature));
    let mut bad_sig = signature.clone();
    bad_sig[0] ^= 1;
    assert!(!verify_signature_bytes(&pk, &message, &bad_sig));
    assert!(!verify_signature_bytes(&vec![0u8; 3], &message, &signature));
}

#[test]
fn rsa_sign_and_verify() {
    let (pubkey_b64, privkey_pem) = generate_keypair().expect("keygen");
    let data = b"register:12345".to_vec();
    let signature = sign_data(&privkey_pem, &data).expect("sign");
    assert_eq!(verify_signature(&pubkey_b64, &signature, &data), Ok(true));
    let other = b"register:12346".to_vec();
    assert_eq!(verify_signature(&pubkey_b64, &signature, &other), Ok(false));
    assert_eq!(
        verify_signature("not base64!!!", &signature, &data),
        Err(CryptoError::KeyFormat)
    );
}

#[test]
fn random_material_has_the_right_sizes() {
    assert_eq!(generate_nonce().len(), 12);
    assert_eq!(generate_packet_id().len(), 16);
    assert_eq!(random_bytes(8).len(), 8);
    assert_ne!(generate_packet_id(), generate_packet_id());
}
