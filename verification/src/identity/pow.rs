//! Proof-of-work challenge for registration: find a nonce such that
//! SHA-256(pubkey || nonce as little-endian u64) has N leading zero bits.

use vstd::prelude::*;
use crate::crypto::{sha256, sha256_digest};

verus! {

/// Difficulty: number of leading zero bits required.
pub const DEFAULT_DIFFICULTY: u32 = 20;

/// Bit `k` of a byte, counting from the least significant bit.
pub open spec fn bit_of(b: u8, k: int) -> u8 {
    (b >> (k as u8)) & 1u8
}

/// Bit `i` of a byte string, counting from the most significant bit of the first byte.
pub open spec fn hash_bit(hash: Seq<u8>, i: int) -> u8 {
    bit_of(hash[i / 8], 7 - i % 8)
}

/// The first `bits` bits of the byte string (as far as it reaches) are zero.
pub open spec fn has_leading_zero_bits(hash: Seq<u8>, bits: int) -> bool {
    forall|i: int| 0 <= i < bits && i < 8 * hash.len() ==> #[trigger] hash_bit(hash, i) == 0
}

/// The little-endian bytes of a 64-bit integer.
pub open spec fn le_bytes(n: u64) -> Seq<u8> {
    Seq::new(8, |i: int| ((n >> ((8 * i) as u64)) & 0xffu64) as u8)
}

/// The proof-of-work digest of a public key and nonce.
pub open spec fn pow_digest(pubkey: Seq<u8>, nonce: u64) -> Seq<u8> {
    sha256(pubkey + le_bytes(nonce))
}

/// Whether a nonce solves the challenge for a public key at a difficulty.
pub open spec fn pow_holds(pubkey: Seq<u8>, nonce: u64, difficulty: u32) -> bool {
    has_leading_zero_bits(pow_digest(pubkey, nonce), difficulty as int)
}

proof fn lemma_byte_zero(b: u8)
    ensures
        (b == 0) <==> (bit_of(b, 0) == 0 && bit_of(b, 1) == 0 && bit_of(b, 2) == 0 && bit_of(b, 3) == 0
            && bit_of(b, 4) == 0 && bit_of(b, 5) == 0 && bit_of(b, 6) == 0 && bit_of(b, 7) == 0),
{
    assert((b == 0) <==> ((b >> 0u8) & 1u8 == 0 && (b >> 1u8) & 1u8 == 0 && (b >> 2u8) & 1u8 == 0
        && (b >> 3u8) & 1u8 == 0 && (b >> 4u8) & 1u8 == 0 && (b >> 5u8) & 1u8 == 0 && (b >> 6u8)
        & 1u8 == 0 && (b >> 7u8) & 1u8 == 0)) by (bit_vector);
}

proof fn lemma_mask(b: u8, r: u8)
    requires
        1 <= r <= 7,
    ensures
        ((b & (0xffu8 << ((8 - r) as u8))) == 0) <==> ((r < 1 || bit_of(b, 7) == 0) && (r < 2 || bit_of(b, 6) == 0)
            && (r < 3 || bit_of(b, 5) == 0) && (r < 4 || bit_of(b, 4) == 0) && (r < 5 || bit_of(b, 3) == 0)
            && (r < 6 || bit_of(b, 2) == 0) && (r < 7 || bit_of(b, 1) == 0)),
{
    assert(1 <= r <= 7 ==> (((b & (0xffu8 << ((8 - r) as u8))) == 0) <==> ((r < 1 || (b >> 7u8) & 1u8 == 0)
        && (r < 2 || (b >> 6u8) & 1u8 == 0) && (r < 3 || (b >> 5u8) & 1u8 == 0) && (r < 4 || (b >> 4u8) & 1u8 == 0)
        && (r < 5 || (b >> 3u8) & 1u8 == 0) && (r < 6 || (b >> 2u8) & 1u8 == 0) && (r < 7 || (b >> 1u8) & 1u8
        == 0)))) by (bit_vector);
}

/// Whether the first `bits` bits of `hash` are zero (bits beyond its end are ignored).
pub fn has_leading_zeros(hash: &[u8], bits: u32) -> (r: bool)
    requires
        bits / 8 <= hash@.len(),
    ensures
        r == has_leading_zero_bits(hash@, bits as int),
{
    let full_bytes = (bits / 8) as usize;
    let remaining_bits = bits % 8;
    let mut i: usize = 0;
    while i < full_bytes
        invariant
            full_bytes == bits / 8,
            full_bytes <= hash@.len(),
            i <= full_bytes,
            forall|j: int| 0 <= j < 8 * i ==> #[trigger] hash_bit(hash@, j) == 0,
        decreases full_bytes - i,
    {
        proof {
            lemma_byte_zero(hash@[i as int]);
        }
        if hash[i] != 0 {
            proof {
                let b = hash@[i as int];
                let k = choose|k: int| 0 <= k < 8 && bit_of(b, k) != 0;
                assert(hash_bit(hash@, 8 * i + 7 - k) == bit_of(b, k));
            }
            return false;
        }
        proof {
            assert forall|j: int| 0 <= j < 8 * (i + 1) implies #[trigger] hash_bit(hash@, j) == 0 by {
                if j >= 8 * i {
                    assert(j / 8 == i);
                }
            }
        }
        i = i + 1;
    }
    if remaining_bits > 0 && full_bytes < hash.len() {
        let b = hash[full_bytes];
        let r = remaining_bits as u8;
        proof {
            lemma_mask(b, r);
        }
        if b & (0xffu8 << (8 - r)) != 0 {
            proof {
                let k = choose|k: int| 8 - r <= k < 8 && bit_of(b, k) != 0;
                assert(hash_bit(hash@, 8 * full_bytes + 7 - k) == bit_of(b, k));
            }
            return false;
        }
        proof {
            assert forall|j: int| 0 <= j < bits && j < 8 * hash@.len() implies #[trigger] hash_bit(hash@, j) == 0 by {
                if j >= 8 * full_bytes {
                    assert(j / 8 == full_bytes);
                    assert(j % 8 < r);
                }
            }
        }
    }
    true
}

/// The little-endian bytes of a 64-bit integer.
pub fn u64_to_le_bytes(n: u64) -> (b: [u8; 8])
    ensures
        b@ == le_bytes(n),
{
    let mut b = [0u8; 8];
    let mut i: usize = 0;
    while i < 8
        invariant
            i <= 8,
            forall|j: int| 0 <= j < i ==> b@[j] == ((n >> ((8 * j) as u64)) & 0xffu64) as u8,
        decreases 8 - i,
    {
        b[i] = ((n >> ((8 * i) as u64)) & 0xff) as u8;
        i = i + 1;
    }
    proof {
        assert(b@ =~= le_bytes(n));
    }
    b
}

/// Verify a proof-of-work: the digest of the public key and nonce has at
/// least `difficulty` leading zero bits.
pub fn verify_pow(pubkey: &[u8; 32], nonce: u64, difficulty: u32) -> (ok: bool)
    requires
        difficulty / 8 <= 32,
    ensures
        ok == pow_holds(pubkey@, nonce, difficulty),
{
    let mut data: Vec<u8> = Vec::new();
    crate::encoding::append_bytes(&mut data, pubkey);
    let le = u64_to_le_bytes(nonce);
    crate::encoding::append_bytes(&mut data, &le);
    let hash = sha256_digest(data.as_slice());
    has_leading_zeros(&hash, difficulty)
}

/// Compute a proof-of-work for a given pubkey: the least nonce that
/// satisfies the difficulty, or `None` when no 64-bit nonce does.
pub fn compute_pow(pubkey: &[u8; 32], difficulty: u32) -> (r: Option<u64>)
    requires
        difficulty / 8 <= 32,
    ensures
        match r {
            Some(n) => pow_holds(pubkey@, n, difficulty)
                && forall|m: u64| m < n ==> !pow_holds(pubkey@, m, difficulty),
            None => forall|m: u64| !pow_holds(pubkey@, m, difficulty),
        },
{
    let mut nonce: u64 = 0;
    loop
        invariant
            difficulty / 8 <= 32,
            forall|m: u64| m < nonce ==> !pow_holds(pubkey@, m, difficulty),
        decreases u64::MAX - nonce,
    {
        if verify_pow(pubkey, nonce, difficulty) {
            return Some(nonce);
        }
        if nonce == u64::MAX {
            return None;
        }
        nonce = nonce + 1;
    }
}

} // verus!
