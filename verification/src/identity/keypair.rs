//! Identities: Ed25519 keypairs, their public keys, and the passphrase
//! protection of a stored secret key.

use vstd::prelude::*;
use vstd::utf8::*;
use vstd::string::*;
use crate::crypto::{
    ed25519_public, ed25519_public_key, ed25519_sign, ed25519_signature, ed25519_verifies,
    ed25519_verify, random_secret_key, sha256, sha256_digest,
};
use crate::encoding::{hex_decode, hex_decode_of, hex_encode, hex_of, hex_value, lemma_hex_of_len};
use crate::event::types::short_form;

verus! {

/// Errors from loading, saving or decoding identities and keys.
#[derive(Debug)]
pub enum IdentityError {
    /// Reading or writing the key file failed (the message of the I/O error).
    Io(String),
    /// The key data is not a well-formed key.
    InvalidKey,
    /// The stored public key does not match the decrypted secret — wrong passphrase?
    DecryptionFailed,
    /// The key file is not well-formed JSON (the message of the parse error).
    Serialization(String),
}

/// Serializable public key wrapper for use in events.
#[derive(Debug, Clone, Copy, PartialEq, Eq, Hash)]
pub struct PubKey(pub [u8; 32]);

impl PubKey {
    /// Create from a hex string: 64 hexadecimal digits of either case.
    pub fn from_hex(s: &str) -> (r: Result<Self, IdentityError>)
        ensures
            match hex_decode_of(s.spec_bytes()) {
                Some(b) => if b.len() == 32 {
                    r matches Ok(pk) && pk.0@ == b
                } else {
                    r matches Err(IdentityError::InvalidKey)
                },
                None => r matches Err(IdentityError::InvalidKey),
            },
    {
        match hex_decode(s.as_bytes()) {
            Some(bytes) => {
                if bytes.len() == 32 {
                    let arr = bytes_to_array32(bytes.as_slice());
                    Ok(PubKey(arr))
                } else {
                    Err(IdentityError::InvalidKey)
                }
            },
            None => Err(IdentityError::InvalidKey),
        }
    }

    /// Display as hex.
    pub fn to_hex(&self) -> (s: String)
        ensures
            s@ == hex_of(self.0@),
    {
        hex_encode(&self.0)
    }

    /// Short display form: the first 16 hex digits and an ellipsis.
    pub fn short(&self) -> (s: String)
        ensures
            s@ == hex_of(self.0@).take(16) + seq!['…'],
    {
        let full = self.to_hex();
        proof {
            lemma_hex_of_len(self.0@);
        }
        short_form(&full, 16)
    }
}

/// A user's cryptographic identity — an Ed25519 keypair, held as its
/// 32-byte secret key. The secret key never leaves this struct except in its
/// passphrase-protected stored form.
pub struct Identity {
    secret: [u8; 32],
}

impl View for Identity {
    /// The secret key.
    type V = Seq<u8>;

    closed spec fn view(&self) -> Seq<u8> {
        self.secret@
    }
}

impl Identity {
    pub proof fn lemma_secret_len(&self)
        ensures
            self@.len() == 32,
    {
    }

    /// Generate a brand new identity with a random keypair.
    pub fn generate() -> (id: Self)
        ensures
            id@.len() == 32,
    {
        Identity { secret: random_secret_key() }
    }

    /// The identity with the given secret key.
    pub fn from_secret(secret: [u8; 32]) -> (id: Self)
        ensures
            id@ == secret@,
    {
        Identity { secret }
    }

    /// Sign arbitrary bytes and return the signature.
    pub fn sign(&self, message: &[u8]) -> (signature: [u8; 64])
        ensures
            signature@ == ed25519_signature(self@, message@),
            ed25519_verifies(ed25519_public_key(self@), message@, signature@),
    {
        ed25519_sign(&self.secret, message)
    }

    /// Get the public key.
    pub fn pubkey(&self) -> (pk: PubKey)
        ensures
            pk.0@ == ed25519_public_key(self@),
    {
        PubKey(ed25519_public(&self.secret))
    }

    /// Get the public key as a hex string for display.
    pub fn pubkey_hex(&self) -> (s: String)
        ensures
            s@ == hex_of(ed25519_public_key(self@)),
    {
        self.pubkey().to_hex()
    }

    /// Get a short display form of the pubkey (first 16 hex chars).
    pub fn pubkey_short(&self) -> (s: String)
        ensures
            s@ == hex_of(ed25519_public_key(self@)).take(16) + seq!['…'],
    {
        self.pubkey().short()
    }

    /// The passphrase-protected form of this identity: the secret key XORed
    /// with the SHA-256 digest of the passphrase, in hex, beside the public
    /// key in hex.
    pub fn to_stored(&self, passphrase: &str) -> (stored: StoredIdentity)
        ensures
            stored.encrypted_secret@ == hex_of(
                xor_with_key(self@, sha256(encode_utf8(passphrase@))),
            ),
            stored.pubkey@ == hex_of(ed25519_public_key(self@)),
    {
        let key = derive_key(passphrase);
        let encrypted = xor_cycle(&self.secret, &key);
        StoredIdentity { encrypted_secret: hex_encode(encrypted.as_slice()), pubkey: self.pubkey_hex() }
    }

    /// Recover an identity from its stored form. Fails with `InvalidKey` when
    /// the encrypted secret is not hex of 32 bytes, and with
    /// `DecryptionFailed` when the decrypted secret's public key differs from
    /// the stored one (a wrong passphrase).
    pub fn from_stored(stored: &StoredIdentity, passphrase: &str) -> (r: Result<Self, IdentityError>)
        ensures
            match stored_secret(encode_utf8(stored.encrypted_secret@), passphrase@) {
                None => r matches Err(IdentityError::InvalidKey),
                Some(secret) => if hex_of(ed25519_public_key(secret)) == stored.pubkey@ {
                    r matches Ok(id) && id@ == secret
                } else {
                    r matches Err(IdentityError::DecryptionFailed)
                },
            },
    {
        let text = stored.encrypted_secret.as_str().as_bytes();
        let encrypted = match hex_decode(text) {
            Some(v) => v,
            None => { return Err(IdentityError::InvalidKey); },
        };
        if encrypted.len() != 32 {
            return Err(IdentityError::InvalidKey);
        }
        let key = derive_key(passphrase);
        let decrypted = xor_cycle(encrypted.as_slice(), &key);
        let secret = bytes_to_array32(decrypted.as_slice());
        let identity = Identity { secret };
        let computed = identity.pubkey_hex();
        if computed != stored.pubkey {
            return Err(IdentityError::DecryptionFailed);
        }
        Ok(identity)
    }
}

/// The secret key a stored identity holds under a passphrase: the hex text
/// must decode to 32 bytes, which are then XORed with the passphrase's key.
pub open spec fn stored_secret(encrypted_text: Seq<u8>, passphrase: Seq<char>) -> Option<Seq<u8>> {
    match hex_decode_of(encrypted_text) {
        Some(enc) => if enc.len() == 32 {
            Some(xor_with_key(enc, sha256(encode_utf8(passphrase))))
        } else {
            None
        },
        None => None,
    }
}

/// Verify a signature against a public key.
pub fn verify(pubkey: &PubKey, message: &[u8], signature: &[u8; 64]) -> (ok: bool)
    ensures
        ok == ed25519_verifies(pubkey.0@, message@, signature@),
{
    ed25519_verify(&pubkey.0, message, signature)
}

/// A stored identity: the encrypted secret key and the public key, both in hex.
pub struct StoredIdentity {
    pub encrypted_secret: String,
    pub pubkey: String,
}

/// XOR of a byte string with a key repeated as often as needed.
pub open spec fn xor_with_key(data: Seq<u8>, key: Seq<u8>) -> Seq<u8> {
    Seq::new(data.len(), |i: int| data[i] ^ key[i % key.len() as int])
}

/// Simple passphrase -> key derivation: SHA-256 of the passphrase's UTF-8 bytes.
fn derive_key(passphrase: &str) -> (key: [u8; 32])
    ensures
        key@ == sha256(encode_utf8(passphrase@)),
{
    sha256_digest(passphrase.as_bytes())
}

/// XOR each byte of `data` with the key, cycling through the key.
pub fn xor_cycle(data: &[u8], key: &[u8; 32]) -> (out: Vec<u8>)
    ensures
        out@ == xor_with_key(data@, key@),
{
    let mut out: Vec<u8> = Vec::new();
    let mut i: usize = 0;
    while i < data.len()
        invariant
            i <= data@.len(),
            out@.len() == i,
            forall|j: int| 0 <= j < i ==> out@[j] == data@[j] ^ key@[j % 32],
        decreases data@.len() - i,
    {
        out.push(data[i] ^ key[i % 32]);
        i = i + 1;
    }
    proof {
        assert(out@ =~= xor_with_key(data@, key@));
    }
    out
}

/// XORing twice with the same key gives the data back.
pub proof fn lemma_xor_twice(data: Seq<u8>, key: Seq<u8>)
    ensures
        xor_with_key(xor_with_key(data, key), key) == data,
{
    let once = xor_with_key(data, key);
    assert forall|i: int| 0 <= i < data.len() implies #[trigger] xor_with_key(once, key)[i] == data[i] by {
        let a = data[i];
        let k = key[i % key.len() as int];
        assert((a ^ k) ^ k == a) by (bit_vector);
    }
    assert(xor_with_key(once, key) =~= data);
}

/// Saving then loading an identity under the same passphrase gives the same
/// secret key back: the stored text decrypts to the original secret, whose
/// public key is the stored public key.
pub proof fn lemma_stored_identity_roundtrip(secret: Seq<u8>, passphrase: Seq<char>)
    requires
        secret.len() == 32,
    ensures
        stored_secret(
            encode_utf8(hex_of(xor_with_key(secret, sha256(encode_utf8(passphrase))))),
            passphrase,
        ) == Some(secret),
{
    let key = sha256(encode_utf8(passphrase));
    let enc = xor_with_key(secret, key);
    lemma_hex_roundtrip(enc);
    lemma_xor_twice(secret, key);
}

/// Decrypting with a key other than the one used to encrypt gives a secret
/// other than the original (for 32-byte keys, as passphrase digests are).
pub proof fn lemma_other_key_other_secret(secret: Seq<u8>, key: Seq<u8>, other: Seq<u8>)
    requires
        secret.len() == 32,
        key.len() == 32,
        other.len() == 32,
        key != other,
    ensures
        xor_with_key(xor_with_key(secret, key), other) != secret,
{
    assert(exists|j: int| 0 <= j < 32 && key[j] != other[j]) by {
        if !(exists|j: int| 0 <= j < 32 && key[j] != other[j]) {
            assert(key =~= other);
        }
    }
    let i = choose|i: int| 0 <= i < 32 && key[i] != other[i];
    let once = xor_with_key(secret, key);
    let twice = xor_with_key(once, other);
    assert(i % 32 == i);
    assert(once[i] == secret[i] ^ key[i]);
    assert(twice[i] == once[i] ^ other[i]);
    let a = secret[i];
    let b = key[i];
    let c = other[i];
    assert((a ^ b) ^ c != a) by (bit_vector)
        requires
            b != c,
    ;
}

/// Copy 32 bytes into an array.
pub fn bytes_to_array32(bytes: &[u8]) -> (a: [u8; 32])
    requires
        bytes@.len() == 32,
    ensures
        a@ == bytes@,
{
    let mut a = [0u8; 32];
    let mut i: usize = 0;
    while i < 32
        invariant
            bytes@.len() == 32,
            i <= 32,
            forall|j: int| 0 <= j < i ==> a@[j] == bytes@[j],
        decreases 32 - i,
    {
        a[i] = bytes[i];
        i = i + 1;
    }
    proof {
        assert(a@ =~= bytes@);
    }
    a
}

/// Hexadecimal text is ASCII, so its UTF-8 bytes are its characters.
pub proof fn lemma_hex_is_ascii(bytes: Seq<u8>)
    ensures
        is_ascii_chars(hex_of(bytes)),
        encode_utf8(hex_of(bytes)) == hex_of(bytes).map_values(|c: char| c as u8),
    decreases bytes.len(),
{
    if bytes.len() > 0 {
        lemma_hex_is_ascii(bytes.drop_first());
        let h = hex_of(bytes);
        let t = hex_of(bytes.drop_first());
        assert(h == seq![
            crate::encoding::hex_digit((bytes[0] / 16) as int),
            crate::encoding::hex_digit((bytes[0] % 16) as int),
        ] + t);
        assert forall|i| 0 <= i < h.len() implies '\0' <= #[trigger] h[i] <= '\u{7f}' by {
            if i >= 2 {
                assert(h[i] == t[i - 2]);
            }
        }
    }
    is_ascii_chars_encode_utf8(hex_of(bytes));
    lemma_hex_of_len(bytes);
    assert(encode_utf8(hex_of(bytes)) =~= hex_of(bytes).map_values(|c: char| c as u8));
}

/// Decoding the UTF-8 bytes of the hexadecimal text of a byte string gives
/// the byte string back.
pub proof fn lemma_hex_roundtrip(bytes: Seq<u8>)
    ensures
        hex_decode_of(encode_utf8(hex_of(bytes))) == Some(bytes),
{
    lemma_hex_is_ascii(bytes);
    lemma_hex_of_len(bytes);
    lemma_hex_digits(bytes);
    let text = encode_utf8(hex_of(bytes));
    assert(text.len() == 2 * bytes.len());
    assert forall|i: int| 0 <= i < text.len() implies (#[trigger] hex_value(text[i])) is Some by {
        let j = i / 2;
        let b = bytes[j];
        crate::encoding::lemma_hex_digit_value((b / 16) as int);
        crate::encoding::lemma_hex_digit_value((b % 16) as int);
        assert(text[i] == hex_of(bytes)[i] as u8);
        if i == 2 * j {
            assert(hex_of(bytes)[2 * j] == crate::encoding::hex_digit((bytes[j] / 16) as int));
        } else {
            assert(i == 2 * j + 1);
            assert(hex_of(bytes)[2 * j] == crate::encoding::hex_digit((bytes[j] / 16) as int));
            assert(hex_of(bytes)[2 * j + 1] == crate::encoding::hex_digit((bytes[j] % 16) as int));
        }
    }
    let decoded = Seq::new(
        text.len() / 2,
        |i: int| (hex_value(text[2 * i])->0 * 16 + hex_value(text[2 * i + 1])->0) as u8,
    );
    assert forall|i: int| 0 <= i < bytes.len() implies decoded[i] == bytes[i] by {
        let b = bytes[i];
        assert(text[2 * i] == (crate::encoding::hex_digit((b / 16) as int) as u8));
        assert(text[2 * i + 1] == (crate::encoding::hex_digit((b % 16) as int) as u8));
        crate::encoding::lemma_hex_digit_value((b / 16) as int);
        crate::encoding::lemma_hex_digit_value((b % 16) as int);
    }
    assert(decoded =~= bytes);
}

/// Position by position, the hexadecimal text holds the two digits of each byte.
pub proof fn lemma_hex_digits(bytes: Seq<u8>)
    ensures
        forall|i: int|
            0 <= i < bytes.len() ==> {
                &&& #[trigger] hex_of(bytes)[2 * i] == crate::encoding::hex_digit((bytes[i] / 16) as int)
                &&& hex_of(bytes)[2 * i + 1] == crate::encoding::hex_digit((bytes[i] % 16) as int)
            },
    decreases bytes.len(),
{
    if bytes.len() > 0 {
        lemma_hex_digits(bytes.drop_first());
        lemma_hex_of_len(bytes.drop_first());
        let t = hex_of(bytes.drop_first());
        assert forall|i: int| 0 <= i < bytes.len() implies {
            &&& #[trigger] hex_of(bytes)[2 * i] == crate::encoding::hex_digit((bytes[i] / 16) as int)
            &&& hex_of(bytes)[2 * i + 1] == crate::encoding::hex_digit((bytes[i] % 16) as int)
        } by {
            if i > 0 {
                assert(bytes.drop_first()[i - 1] == bytes[i]);
                assert(hex_of(bytes)[2 * i] == t[2 * (i - 1)]);
                assert(hex_of(bytes)[2 * i + 1] == t[2 * (i - 1) + 1]);
            }
        }
    }
}

/// Encoding a public key in hex and parsing it back gives the same key.
pub proof fn lemma_pubkey_hex_roundtrip(key: Seq<u8>)
    requires
        key.len() == 32,
    ensures
        hex_decode_of(encode_utf8(hex_of(key))) == Some(key),
{
    lemma_hex_roundtrip(key);
}

} // verus!
