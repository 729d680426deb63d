//! The cryptographic primitives the protocol rests on: SHA-256 digests and
//! Ed25519 keys and signatures. Each function here calls an outside crate;
//! their contracts are trusted, not proved.

use vstd::prelude::*;
use ed25519_dalek::{Signature, Signer, SigningKey, Verifier, VerifyingKey};
use rand::rngs::OsRng;
use sha2::{Digest, Sha256};

verus! {

/// The SHA-256 digest of a byte string.
pub uninterp spec fn sha256(data: Seq<u8>) -> Seq<u8>;

/// The Ed25519 public key (compressed point) that belongs to a 32-byte secret key.
pub uninterp spec fn ed25519_public_key(secret: Seq<u8>) -> Seq<u8>;

/// The Ed25519 signature (RFC 8032, deterministic) of a message under a secret key.
pub uninterp spec fn ed25519_signature(secret: Seq<u8>, message: Seq<u8>) -> Seq<u8>;

/// Whether Ed25519 verification accepts a signature on a message under a public key.
pub uninterp spec fn ed25519_verifies(public: Seq<u8>, message: Seq<u8>, signature: Seq<u8>) -> bool;

/// Calls `sha2::Sha256::digest`. Trusted: the 32 bytes returned are the
/// digest `sha256` of the input, a function of the input alone.
#[verifier::external_body]
pub(crate) fn sha256_digest(data: &[u8]) -> (digest: [u8; 32])
    ensures
        digest@ == sha256(data@),
{
    Sha256::digest(data).into()
}

/// Calls `ed25519_dalek::SigningKey::from_bytes` and `verifying_key().to_bytes()`.
/// Trusted: the result is the public key `ed25519_public_key` of the secret,
/// a function of the secret alone.
#[verifier::external_body]
pub(crate) fn ed25519_public(secret: &[u8; 32]) -> (public: [u8; 32])
    ensures
        public@ == ed25519_public_key(secret@),
{
    SigningKey::from_bytes(secret).verifying_key().to_bytes()
}

/// Calls `ed25519_dalek::SigningKey::sign` (via `Signer`). Trusted: the
/// signature is `ed25519_signature` of the secret and message (Ed25519 signing
/// is deterministic), and, as the crate documents, verification with the
/// matching public key accepts it.
#[verifier::external_body]
pub(crate) fn ed25519_sign(secret: &[u8; 32], message: &[u8]) -> (signature: [u8; 64])
    ensures
        signature@ == ed25519_signature(secret@, message@),
        ed25519_verifies(ed25519_public_key(secret@), message@, signature@),
{
    SigningKey::from_bytes(secret).sign(message).to_bytes()
}

/// Calls `ed25519_dalek::VerifyingKey::from_bytes` and `Verifier::verify`.
/// Trusted: the answer is `ed25519_verifies` of the key, message and
/// signature; a key that is not a valid curve point gives `false`.
#[verifier::external_body]
pub(crate) fn ed25519_verify(public: &[u8; 32], message: &[u8], signature: &[u8; 64]) -> (accepted: bool)
    ensures
        accepted == ed25519_verifies(public@, message@, signature@),
{
    match VerifyingKey::from_bytes(public) {
        Ok(key) => key.verify(message, &Signature::from_bytes(signature)).is_ok(),
        Err(_) => false,
    }
}

/// Calls `ed25519_dalek::SigningKey::generate` with the operating system's
/// random source. Nothing is promised of the bytes: they are fresh randomness.
#[verifier::external_body]
pub(crate) fn random_secret_key() -> (secret: [u8; 32]) {
    SigningKey::generate(&mut OsRng).to_bytes()
}

} // verus!
