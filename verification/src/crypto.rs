//! Cryptographic primitives: key agreement, authenticated encryption, key
//! derivation, signatures and randomness.
//!
//! The outside calls stand behind trusted wrappers. Deterministic results
//! are named by uninterpreted spec functions (`sha256_of`, `aes_gcm_seal`,
//! `x25519_shared`, ...); the wrappers' contracts state only what the
//! underlying crates' sources show, and everything built on top is proved
//! from those contracts.

use vstd::prelude::*;

use aes_gcm::aead::{Aead, KeyInit};
use aes_gcm::{Aes256Gcm, Nonce};
use base64::engine::general_purpose;
use base64::Engine;
use ed25519_dalek::{Signer as Ed25519Signer, Verifier as Ed25519Verifier};
use rand::RngCore;
use rsa::pkcs1v15::{Signature as RsaSignature, SigningKey as RsaSigningKey,
    VerifyingKey as RsaVerifyingKey};
use rsa::pkcs8::{DecodePrivateKey, DecodePublicKey, EncodePrivateKey, EncodePublicKey};
use rsa::sha2::Sha256 as RsaSha256;
use rsa::signature::{SignatureEncoding, Signer as RsaSigner, Verifier as RsaVerifier};
use rsa::{RsaPrivateKey, RsaPublicKey};
use sha2::{Digest, Sha256};
use x25519_dalek::{PublicKey as XPublicKey, StaticSecret as XStaticSecret};

use crate::bytes::push_bytes;
use crate::errors::CryptoError;

verus! {

/// The SHA-256 digest of a byte string.
pub uninterp spec fn sha256_of(data: Seq<u8>) -> Seq<u8>;

/// The AES-256-GCM ciphertext (with tag) of a plaintext under a key and nonce.
pub uninterp spec fn aes_gcm_seal(key: Seq<u8>, nonce: Seq<u8>, plaintext: Seq<u8>) -> Seq<u8>;

/// The X25519 public key of a secret key.
pub uninterp spec fn x25519_pub_of(secret: Seq<u8>) -> Seq<u8>;

/// The X25519 shared secret of a secret key and a peer public key.
pub uninterp spec fn x25519_shared(secret: Seq<u8>, peer_public: Seq<u8>) -> Seq<u8>;

/// The Ed25519 verifying key of a signing key.
pub uninterp spec fn ed25519_pub_of(secret: Seq<u8>) -> Seq<u8>;

/// The Ed25519 signature of a message under a signing key.
pub uninterp spec fn ed25519_sig(secret: Seq<u8>, message: Seq<u8>) -> Seq<u8>;

/// Whether an Ed25519 signature verifies under a verifying key.
pub uninterp spec fn ed25519_verify_ok(public: Seq<u8>, message: Seq<u8>, signature: Seq<u8>) -> bool;

/// The base64 text of the RSA public key derived from a PEM private key.
pub uninterp spec fn rsa_pub_of(privkey_pem: Seq<char>) -> Seq<char>;

/// The base64 text of the RSA-PKCS#1v1.5-SHA256 signature of a message.
pub uninterp spec fn rsa_sig_b64(privkey_pem: Seq<char>, data: Seq<u8>) -> Seq<char>;

/// Whether an RSA-PKCS#1v1.5-SHA256 signature verifies.
pub uninterp spec fn rsa_verify_ok(pubkey_b64: Seq<char>, signature_b64: Seq<char>, data: Seq<u8>) -> bool;

/// Relies on sha2's `Sha256`: the digest is a function of the input bytes
/// alone and is 32 bytes long.
#[verifier::external_body]
pub(crate) fn sha256(data: &Vec<u8>) -> (r: Vec<u8>)
    ensures
        r@ == sha256_of(data@),
        r@.len() == 32,
{
    let mut hasher = Sha256::new();
    hasher.update(data.as_slice());
    hasher.finalize().to_vec()
}

/// Domain separator of the onion key derivation; part of the wire contract.
pub open spec fn spec_domain_sep() -> Seq<u8> {
    seq![111u8, 110u8, 105u8, 111u8, 110u8, 45u8, 97u8, 101u8, 115u8, 45u8, 107u8, 101u8, 121u8,
        45u8, 118u8, 49u8]
}

/// The symmetric key derived from a shared secret: the SHA-256 digest of the
/// domain separator followed by the secret.
pub open spec fn spec_kdf(shared_secret: Seq<u8>) -> Seq<u8> {
    sha256_of(spec_domain_sep() + shared_secret)
}

/// Derives the AES-256 key of a circuit layer from an agreement secret.
pub fn derive_aes_key(shared_secret: &Vec<u8>) -> (r: Vec<u8>)
    ensures
        r@ == spec_kdf(shared_secret@),
        r@.len() == 32,
{
    let mut input: Vec<u8> = Vec::new();
    input.push(111);
    input.push(110);
    input.push(105);
    input.push(111);
    input.push(110);
    input.push(45);
    input.push(97);
    input.push(101);
    input.push(115);
    input.push(45);
    input.push(107);
    input.push(101);
    input.push(121);
    input.push(45);
    input.push(118);
    input.push(49);
    assert(input@ =~= spec_domain_sep());
    push_bytes(&mut input, shared_secret);
    assert(input@ =~= spec_domain_sep() + shared_secret@);
    sha256(&input)
}

/// Relies on aes-gcm's `Aes256Gcm`: for a 32-byte key, a 12-byte nonce and a
/// plaintext under the size cap, encryption succeeds, is a function of key,
/// nonce and plaintext alone, and appends a 16-byte tag.
#[verifier::external_body]
pub fn aes_encrypt(key: &Vec<u8>, nonce: &Vec<u8>, plaintext: &Vec<u8>) -> (r: Vec<u8>)
    requires
        key@.len() == 32,
        nonce@.len() == 12,
        plaintext@.len() <= 68719476736,
    ensures
        r@ == aes_gcm_seal(key@, nonce@, plaintext@),
        r@.len() == plaintext@.len() + 16,
{
    let cipher = match Aes256Gcm::new_from_slice(key.as_slice()) {
        Ok(c) => c,
        Err(_) => return Vec::new(),
    };
    let nonce = Nonce::from_slice(nonce.as_slice());
    cipher.encrypt(nonce, plaintext.as_slice()).unwrap_or_default()
}

/// Relies on aes-gcm's `Aes256Gcm`: decryption succeeds exactly on the
/// ciphertexts that encryption produces under the same key and nonce, and
/// then returns the sealed plaintext.
#[verifier::external_body]
pub fn aes_decrypt(key: &Vec<u8>, nonce: &Vec<u8>, ciphertext: &Vec<u8>) -> (r: Result<
    Vec<u8>,
    CryptoError,
>)
    requires
        key@.len() == 32,
        nonce@.len() == 12,
    ensures
        (match r {
            Ok(p) => ciphertext@ == aes_gcm_seal(key@, nonce@, p@),
            Err(e) => e == CryptoError::DecryptFailed,
        }),
        forall|pt: Seq<u8>|
            (ciphertext@ == aes_gcm_seal(key@, nonce@, pt) && pt.len() <= 68719476736) ==> (
            r is Ok && r->Ok_0@ == pt),
{
    let cipher = match Aes256Gcm::new_from_slice(key.as_slice()) {
        Ok(c) => c,
        Err(_) => return Err(CryptoError::DecryptFailed),
    };
    let nonce = Nonce::from_slice(nonce.as_slice());
    cipher.decrypt(nonce, ciphertext.as_slice()).map_err(|_| CryptoError::DecryptFailed)
}

/// Relies on x25519-dalek's `StaticSecret` and `PublicKey`, and on rand's
/// `OsRng`: the public part is the X25519 public key of the secret part.
#[verifier::external_body]
pub fn generate_x25519_keypair() -> (r: (Vec<u8>, Vec<u8>))
    ensures
        r.0@.len() == 32,
        r.1@.len() == 32,
        r.1@ == x25519_pub_of(r.0@),
{
    let mut sk = [0u8; 32];
    rand::rngs::OsRng.fill_bytes(&mut sk);
    let secret = XStaticSecret::from(sk);
    let public = XPublicKey::from(&secret);
    (secret.to_bytes().to_vec(), public.to_bytes().to_vec())
}

/// Relies on x25519-dalek's `diffie_hellman`: the shared secret is a
/// function of the two keys, and both sides of an exchange derive the same
/// value.
#[verifier::external_body]
pub fn x25519_derive_shared(our_secret: &Vec<u8>, their_public: &Vec<u8>) -> (r: Vec<u8>)
    requires
        our_secret@.len() == 32,
        their_public@.len() == 32,
    ensures
        r@.len() == 32,
        r@ == x25519_shared(our_secret@, their_public@),
        forall|other_sk: Seq<u8>|
            (other_sk.len() == 32 && their_public@ == x25519_pub_of(other_sk)) ==> r@
                == x25519_shared(other_sk, x25519_pub_of(our_secret@)),
{
    let mut sk = [0u8; 32];
    sk.copy_from_slice(our_secret.as_slice());
    let mut pk = [0u8; 32];
    pk.copy_from_slice(their_public.as_slice());
    let secret = XStaticSecret::from(sk);
    let public = XPublicKey::from(pk);
    secret.diffie_hellman(&public).to_bytes().to_vec()
}

/// A single-use key-agreement secret. Deriving a shared secret consumes it,
/// so one ephemeral secret feeds exactly one exchange.
pub struct EphemeralSecret {
    secret: Vec<u8>,
}

impl View for EphemeralSecret {
    type V = Seq<u8>;

    closed spec fn view(&self) -> Seq<u8> {
        self.secret@
    }
}

/// Draws a fresh ephemeral agreement secret and its public key.
pub fn x25519_ephemeral() -> (r: (EphemeralSecret, Vec<u8>))
    ensures
        r.0@.len() == 32,
        r.1@.len() == 32,
        r.1@ == x25519_pub_of(r.0@),
{
    let (sk, pk) = generate_x25519_keypair();
    (EphemeralSecret { secret: sk }, pk)
}

/// Performs the exchange that consumes an ephemeral secret.
pub fn x25519_ephemeral_derive(ephemeral: EphemeralSecret, their_public: &Vec<u8>) -> (r: Vec<u8>)
    requires
        ephemeral@.len() == 32,
        their_public@.len() == 32,
    ensures
        r@.len() == 32,
        r@ == x25519_shared(ephemeral@, their_public@),
        forall|other_sk: Seq<u8>|
            (other_sk.len() == 32 && their_public@ == x25519_pub_of(other_sk)) ==> r@
                == x25519_shared(other_sk, x25519_pub_of(ephemeral@)),
{
    x25519_derive_shared(&ephemeral.secret, their_public)
}

/// Relies on rand's `OsRng`: `n` bytes from the operating system's secure
/// source. Nothing is promised of their values.
#[verifier::external_body]
pub fn random_bytes(n: usize) -> (r: Vec<u8>)
    ensures
        r@.len() == n,
{
    let mut v = vec![0u8; n];
    rand::rngs::OsRng.fill_bytes(&mut v);
    v
}

/// Draws a fresh 12-byte AES-GCM nonce.
pub fn generate_nonce() -> (r: Vec<u8>)
    ensures
        r@.len() == 12,
{
    random_bytes(12)
}

/// Draws a fresh 16-byte packet identifier.
pub fn generate_packet_id() -> (r: Vec<u8>)
    ensures
        r@.len() == 16,
{
    random_bytes(16)
}

/// Relies on ed25519-dalek's `SigningKey` and on rand's `OsRng`: the
/// verifying part is the Ed25519 public key of the signing part.
#[verifier::external_body]
pub fn generate_ed25519_keypair() -> (r: (Vec<u8>, Vec<u8>))
    ensures
        r.0@.len() == 32,
        r.1@.len() == 32,
        r.1@ == ed25519_pub_of(r.0@),
{
    let mut sk = [0u8; 32];
    rand::rngs::OsRng.fill_bytes(&mut sk);
    let signing_key = ed25519_dalek::SigningKey::from_bytes(&sk);
    let verifying_key = signing_key.verifying_key();
    (signing_key.to_bytes().to_vec(), verifying_key.to_bytes().to_vec())
}

/// Relies on ed25519-dalek's `sign`: Ed25519 signatures are deterministic in
/// the key and message, and 64 bytes long.
#[verifier::external_body]
pub fn sign_message(privkey: &Vec<u8>, message: &Vec<u8>) -> (r: Vec<u8>)
    requires
        privkey@.len() == 32,
    ensures
        r@.len() == 64,
        r@ == ed25519_sig(privkey@, message@),
{
    let mut sk = [0u8; 32];
    sk.copy_from_slice(privkey.as_slice());
    let signing_key = ed25519_dalek::SigningKey::from_bytes(&sk);
    signing_key.sign(message.as_slice()).to_bytes().to_vec()
}

/// Relies on ed25519-dalek's `verify`: the outcome is a function of key,
/// message and signature, and a signature made with the matching signing key
/// verifies. A malformed key or signature verifies as false.
#[verifier::external_body]
pub fn verify_signature_bytes(pubkey: &Vec<u8>, message: &Vec<u8>, signature: &Vec<u8>) -> (r: bool)
    ensures
        r == ed25519_verify_ok(pubkey@, message@, signature@),
        forall|sk: Seq<u8>|
            (sk.len() == 32 && pubkey@ == ed25519_pub_of(sk) && signature@ == ed25519_sig(
                sk,
                message@,
            )) ==> r,
{
    let pk: [u8; 32] = match pubkey.as_slice().try_into() { Ok(a) => a, Err(_) => return false };
    let sig: [u8; 64] = match signature.as_slice().try_into() { Ok(a) => a, Err(_) => return false };
    let vk = match ed25519_dalek::VerifyingKey::from_bytes(&pk) { Ok(k) => k, Err(_) => return false };
    vk.verify(message.as_slice(), &ed25519_dalek::Signature::from_bytes(&sig)).is_ok()
}

/// Relies on rsa's key generation with rand's `OsRng`: the first component
/// is the base64 public key derived from the second, a PEM private key.
#[verifier::external_body]
pub fn generate_keypair() -> (r: Result<(String, String), CryptoError>)
    ensures
        (match r {
            Ok(p) => p.0@ == rsa_pub_of(p.1@),
            Err(e) => e == CryptoError::KeyFormat,
        }),
{
    let private_key = RsaPrivateKey::new(&mut rsa::rand_core::OsRng, 2048).map_err(
        |_| CryptoError::KeyFormat)?;
    let public_key = RsaPublicKey::from(&private_key);
    let privkey_pem = private_key.to_pkcs8_pem(rsa::pkcs8::LineEnding::LF).map_err(
        |_| CryptoError::KeyFormat)?;
    let pubkey_der = public_key.to_public_key_der().map_err(|_| CryptoError::KeyFormat)?;
    Ok((general_purpose::STANDARD.encode(pubkey_der.as_bytes()), privkey_pem.to_string()))
}

/// Relies on rsa's PKCS#8 decoding and DER encoding: the derived public key
/// is a function of the private key text.
#[verifier::external_body]
pub fn derive_pubkey(privkey_pem: &str) -> (r: Result<String, CryptoError>)
    ensures
        (match r {
            Ok(pk) => pk@ == rsa_pub_of(privkey_pem@),
            Err(e) => e == CryptoError::KeyFormat,
        }),
{
    let private_key = RsaPrivateKey::from_pkcs8_pem(privkey_pem).map_err(
        |_| CryptoError::KeyFormat)?;
    let public_key = RsaPublicKey::from(&private_key);
    let pubkey_der = public_key.to_public_key_der().map_err(|_| CryptoError::KeyFormat)?;
    Ok(general_purpose::STANDARD.encode(pubkey_der.as_bytes()))
}

/// Relies on rsa's fallible PKCS#1v1.5 signing, which is deterministic in
/// the key and message, and on base64's standard alphabet. A key whose
/// modulus is too short for the digest is refused, not a panic.
#[verifier::external_body]
pub fn sign_data(privkey_pem: &str, data: &Vec<u8>) -> (r: Result<String, CryptoError>)
    ensures
        (match r {
            Ok(s) => s@ == rsa_sig_b64(privkey_pem@, data@),
            Err(e) => e == CryptoError::KeyFormat,
        }),
{
    let private_key = RsaPrivateKey::from_pkcs8_pem(privkey_pem).map_err(
        |_| CryptoError::KeyFormat)?;
    let signing_key = RsaSigningKey::<RsaSha256>::new(private_key);
    let signature = signing_key.try_sign(data.as_slice()).map_err(|_| CryptoError::KeyFormat)?;
    Ok(general_purpose::STANDARD.encode(signature.to_vec()))
}

/// Relies on rsa's PKCS#1v1.5 verification: the outcome is a function of
/// key text, signature text and message. `Err` marks text that does not
/// parse as a key or signature at all.
#[verifier::external_body]
pub fn verify_signature(pubkey_b64: &str, signature_b64: &str, data: &Vec<u8>) -> (r: Result<
    bool,
    CryptoError,
>)
    ensures
        (match r {
            Ok(b) => b == rsa_verify_ok(pubkey_b64@, signature_b64@, data@),
            Err(e) => e == CryptoError::KeyFormat,
        }),
{
    let pubkey_der = general_purpose::STANDARD.decode(pubkey_b64).map_err(
        |_| CryptoError::KeyFormat)?;
    let public_key = RsaPublicKey::from_public_key_der(&pubkey_der).map_err(
        |_| CryptoError::KeyFormat)?;
    let signature_bytes = general_purpose::STANDARD.decode(signature_b64).map_err(
        |_| CryptoError::KeyFormat)?;
    let signature = RsaSignature::try_from(signature_bytes.as_slice()).map_err(
        |_| CryptoError::KeyFormat)?;
    let verifying_key = RsaVerifyingKey::<RsaSha256>::new(public_key);
    Ok(verifying_key.verify(data.as_slice(), &signature).is_ok())
}

/// Relies on std's `SystemTime`: seconds since the epoch. Nothing is
/// promised of the value.
#[verifier::external_body]
pub fn current_timestamp() -> (r: u64)
{
    std::time::SystemTime::now()
        .duration_since(std::time::UNIX_EPOCH)
        .map(|d| d.as_secs())
        .unwrap_or(0)
}

} // verus!
