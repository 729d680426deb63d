use sha2::{Digest, Sha256};
use ed25519_dalek::Signer;
use murmur_core::encoding::{hex_decode, hex_encode};
use murmur_core::identity::keypair::{verify, Identity, IdentityError, PubKey, StoredIdentity};
use murmur_core::identity::pow::{compute_pow, has_leading_zeros, u64_to_le_bytes, verify_pow};

#[test]
fn test_generate_and_sign() {
    let id = Identity::generate();
    let message = b"hello world";
    let sig_bytes: [u8; 64] = id.sign(message);
    assert!(verify(&id.pubkey(), message, &sig_bytes));
}

#[test]
fn test_wrong_message_fails_verify() {
    let id = Identity::generate();
    let sig_bytes: [u8; 64] = id.sign(b"hello");
    assert!(!verify(&id.pubkey(), b"world", &sig_bytes));
}

#[test]
fn test_pubkey_hex_roundtrip() {
    let id = Identity::generate();
    let hex = id.pubkey_hex();
    let pk = PubKey::from_hex(&hex).unwrap();
    assert_eq!(pk, id.pubkey());
}

#[test]
fn test_pow_low_difficulty() {
    let pubkey = [0u8; 32];
    let nonce = compute_pow(&pubkey, 8).unwrap();
    assert!(verify_pow(&pubkey, nonce, 8));
}

#[test]
fn pow_nonce_is_least_and_matches_sha256() {
    let pubkey = [3u8; 32];
    let nonce = compute_pow(&pubkey, 6).unwrap();
    for m in 0..nonce {
        assert!(!verify_pow(&pubkey, m, 6));
    }
    let mut h = Sha256::new();
    h.update(pubkey);
    h.update(nonce.to_le_bytes());
    let d = h.finalize();
    assert!(d[0] >> 2 == 0);
    assert!(verify_pow(&pubkey, 0, 0));
}

#[test]
fn leading_zero_bits() {
    assert!(has_leading_zeros(&[0x00, 0x0f], 12));
    assert!(!has_leading_zeros(&[0x00, 0x1f], 12));
    assert!(has_leading_zeros(&[0x00, 0x00], 16));
    assert!(has_leading_zeros(&[0x00, 0x00], 23));
    assert!(!has_leading_zeros(&[0x01, 0x00], 8));
    assert!(has_leading_zeros(&[0x01], 7));
    assert!(has_leading_zeros(&[0xff], 0));
    assert!(!has_leading_zeros(&[0x80], 1));
}

#[test]
fn le_bytes_of_u64() {
    assert_eq!(u64_to_le_bytes(0x0102030405060708), 0x0102030405060708u64.to_le_bytes());
    assert_eq!(u64_to_le_bytes(u64::MAX), [0xff; 8]);
}

#[test]
fn hex_codec() {
    assert_eq!(hex_encode(&[0x00, 0x9f, 0xab]), "009fab");
    assert_eq!(hex_encode(&[]), "");
    assert_eq!(hex_decode(b"009FaB"), Some(vec![0x00, 0x9f, 0xab]));
    assert_eq!(hex_decode(b"abc"), None);
    assert_eq!(hex_decode(b"zz"), None);
    assert_eq!(hex_encode(&[1, 2, 254]), hex::encode([1u8, 2, 254]));
}

#[test]
fn pubkey_forms() {
    let pk = PubKey([0x5a; 32]);
    assert_eq!(pk.to_hex(), "5a".repeat(32));
    assert_eq!(pk.short(), format!("{}…", "5a".repeat(8)));
    assert!(matches!(PubKey::from_hex("5a5a"), Err(IdentityError::InvalidKey)));
    assert!(matches!(PubKey::from_hex("not hex"), Err(IdentityError::InvalidKey)));
    assert_eq!(PubKey::from_hex(&"5A".repeat(32)).unwrap(), pk);
}

#[test]
fn identity_public_key_matches_dalek() {
    let secret = [42u8; 32];
    let id = Identity::from_secret(secret);
    let dalek = ed25519_dalek::SigningKey::from_bytes(&secret);
    assert_eq!(id.pubkey().0, dalek.verifying_key().to_bytes());
    assert_ne!(id.pubkey().0, secret);
    assert_eq!(id.pubkey_hex(), hex::encode(dalek.verifying_key().to_bytes()));
    assert_eq!(id.pubkey_short(), format!("{}…", &id.pubkey_hex()[..16]));
    assert_eq!(id.sign(b"m"), dalek.sign(b"m").to_bytes());
}

#[test]
fn stored_identity_roundtrip() {
    let id = Identity::from_secret([7u8; 32]);
    let stored = id.to_stored("pass phrase");
    let back = Identity::from_stored(&stored, "pass phrase").unwrap();
    assert_eq!(back.pubkey(), id.pubkey());
    assert!(matches!(Identity::from_stored(&stored, "wrong"), Err(IdentityError::DecryptionFailed)));
    let short = StoredIdentity { encrypted_secret: "abcd".into(), pubkey: stored.pubkey.clone() };
    assert!(matches!(Identity::from_stored(&short, "pass phrase"), Err(IdentityError::InvalidKey)));
    let bad = StoredIdentity { encrypted_secret: "xyz".into(), pubkey: stored.pubkey.clone() };
    assert!(matches!(Identity::from_stored(&bad, ""), Err(IdentityError::InvalidKey)));
}

#[test]
fn stored_identity_format() {
    let secret = [9u8; 32];
    let id = Identity::from_secret(secret);
    let stored = id.to_stored("");
    let key: [u8; 32] = Sha256::digest(b"").into();
    let enc: Vec<u8> = secret.iter().zip(key.iter().cycle()).map(|(b, k)| b ^ k).collect();
    assert_eq!(stored.encrypted_secret, hex::encode(enc));
    assert_eq!(stored.pubkey, id.pubkey_hex());
}

#[test]
fn a_wrong_passphrase_does_not_load() {
    let id = Identity::from_secret([11; 32]);
    let stored = id.to_stored("right");
    assert!(matches!(Identity::from_stored(&stored, "wrong"), Err(IdentityError::DecryptionFailed)));
    assert_eq!(Identity::from_stored(&stored, "right").unwrap().pubkey_hex(), id.pubkey_hex());
}
