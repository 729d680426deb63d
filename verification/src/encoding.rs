//! Text encodings used by the protocol: lowercase hexadecimal and decimal
//! integers.

use vstd::prelude::*;
use vstd::string::*;

verus! {

/// The lowercase hexadecimal digit for a nibble.
pub open spec fn hex_digit(n: int) -> char {
    if n < 10 {
        (('0' as int) + n) as char
    } else {
        (('a' as int) + n - 10) as char
    }
}

/// Lowercase hexadecimal encoding: two digits per byte, high nibble first.
pub open spec fn hex_of(bytes: Seq<u8>) -> Seq<char>
    decreases bytes.len(),
{
    if bytes.len() == 0 {
        Seq::empty()
    } else {
        seq![hex_digit((bytes[0] / 16) as int), hex_digit((bytes[0] % 16) as int)] + hex_of(bytes.drop_first())
    }
}

pub proof fn lemma_hex_of_len(bytes: Seq<u8>)
    ensures
        hex_of(bytes).len() == 2 * bytes.len(),
    decreases bytes.len(),
{
    if bytes.len() > 0 {
        lemma_hex_of_len(bytes.drop_first());
    }
}

/// The one-character string holding the hexadecimal digit of `n`.
fn hex_digit_str(n: u8) -> (s: &'static str)
    requires
        n < 16,
    ensures
        s@ == seq![hex_digit(n as int)],
{
    match n {
        0 => { proof { reveal_strlit("0"); } "0" },
        1 => { proof { reveal_strlit("1"); } "1" },
        2 => { proof { reveal_strlit("2"); } "2" },
        3 => { proof { reveal_strlit("3"); } "3" },
        4 => { proof { reveal_strlit("4"); } "4" },
        5 => { proof { reveal_strlit("5"); } "5" },
        6 => { proof { reveal_strlit("6"); } "6" },
        7 => { proof { reveal_strlit("7"); } "7" },
        8 => { proof { reveal_strlit("8"); } "8" },
        9 => { proof { reveal_strlit("9"); } "9" },
        10 => { proof { reveal_strlit("a"); } "a" },
        11 => { proof { reveal_strlit("b"); } "b" },
        12 => { proof { reveal_strlit("c"); } "c" },
        13 => { proof { reveal_strlit("d"); } "d" },
        14 => { proof { reveal_strlit("e"); } "e" },
        _ => { proof { reveal_strlit("f"); } "f" },
    }
}

/// Encode bytes as a lowercase hexadecimal string.
pub fn hex_encode(bytes: &[u8]) -> (s: String)
    ensures
        s@ == hex_of(bytes@),
{
    let mut s = String::new();
    let n = bytes.len();
    let mut i: usize = 0;
    proof {
        assert(bytes@.skip(0) =~= bytes@);
        assert(s@ + hex_of(bytes@) =~= hex_of(bytes@));
    }
    while i < n
        invariant
            n == bytes@.len(),
            i <= n,
            s@ + hex_of(bytes@.skip(i as int)) == hex_of(bytes@),
        decreases n - i,
    {
        let b = bytes[i];
        let hi = hex_digit_str(b / 16);
        let lo = hex_digit_str(b % 16);
        proof {
            assert(bytes@.skip(i as int).drop_first() =~= bytes@.skip(i + 1));
            assert(bytes@.skip(i as int)[0] == b);
        }
        let ghost prev = s@;
        s.append(hi);
        s.append(lo);
        proof {
            assert(s@ + hex_of(bytes@.skip(i + 1)) =~= prev + hex_of(bytes@.skip(i as int)));
        }
        i = i + 1;
    }
    proof {
        assert(bytes@.skip(n as int) =~= Seq::<u8>::empty());
        assert(s@ + hex_of(Seq::<u8>::empty()) =~= s@);
    }
    s
}


/// The value of an ASCII hexadecimal digit (either case), if it is one.
pub open spec fn hex_value(b: u8) -> Option<u8> {
    if 48 <= b <= 57 {
        Some((b - 48) as u8)
    } else if 97 <= b <= 102 {
        Some((b - 87) as u8)
    } else if 65 <= b <= 70 {
        Some((b - 55) as u8)
    } else {
        None
    }
}

/// The ASCII byte of each hexadecimal digit decodes to the digit's value.
pub proof fn lemma_hex_digit_value(n: int)
    requires
        0 <= n < 16,
    ensures
        hex_value(hex_digit(n) as u8) == Some(n as u8),
{
    assert(hex_digit(n) as u8 == if n < 10 { 48 + n } else { 87 + n });
}

/// Hexadecimal decoding of a byte string: defined when its length is even
/// and every byte is a hexadecimal digit of either case.
pub open spec fn hex_decode_of(text: Seq<u8>) -> Option<Seq<u8>> {
    if text.len() % 2 == 0 && (forall|i: int| 0 <= i < text.len() ==> (#[trigger] hex_value(text[i])) is Some) {
        Some(Seq::new(
            text.len() / 2,
            |i: int| (hex_value(text[2 * i])->0 * 16 + hex_value(text[2 * i + 1])->0) as u8,
        ))
    } else {
        None
    }
}

pub fn hex_value_of(b: u8) -> (r: Option<u8>)
    ensures
        r == hex_value(b),
{
    if 48 <= b && b <= 57 {
        Some(b - 48)
    } else if 97 <= b && b <= 102 {
        Some(b - 87)
    } else if 65 <= b && b <= 70 {
        Some(b - 55)
    } else {
        None
    }
}

/// Decode hexadecimal text (digits of either case) into bytes; `None` when
/// the text has odd length or holds a byte that is not a hexadecimal digit.
pub fn hex_decode(text: &[u8]) -> (r: Option<Vec<u8>>)
    ensures
        match r {
            Some(v) => hex_decode_of(text@) == Some(v@),
            None => hex_decode_of(text@) is None,
        },
{
    let n = text.len();
    if n % 2 != 0 {
        return None;
    }
    let mut out: Vec<u8> = Vec::new();
    let mut i: usize = 0;
    while i < n / 2
        invariant
            n == text@.len(),
            n % 2 == 0,
            i <= n / 2,
            out@.len() == i,
            forall|j: int| 0 <= j < 2 * i ==> (#[trigger] hex_value(text@[j])) is Some,
            forall|j: int|
                0 <= j < i ==> out@[j] == (hex_value(text@[2 * j])->0 * 16 + hex_value(
                    text@[2 * j + 1],
                )->0) as u8,
        decreases n / 2 - i,
    {
        let hi = hex_value_of(text[2 * i]);
        let lo = hex_value_of(text[2 * i + 1]);
        match (hi, lo) {
            (Some(h), Some(l)) => {
                out.push(h * 16 + l);
            },
            _ => {
                proof {
                    if hi is None {
                        assert(hex_value(text@[2 * i as int]) is None);
                    } else {
                        assert(hex_value(text@[2 * i + 1]) is None);
                    }
                }
                return None;
            },
        }
        proof {
            assert forall|j: int| 0 <= j < 2 * (i + 1) implies (#[trigger] hex_value(text@[j])) is Some by {
                if j >= 2 * i {
                    assert(j == 2 * i || j == 2 * i + 1);
                }
            }
        }
        i = i + 1;
    }
    proof {
        assert(out@ =~= Seq::new(
            text@.len() / 2,
            |j: int| (hex_value(text@[2 * j])->0 * 16 + hex_value(text@[2 * j + 1])->0) as u8,
        ));
    }
    Some(out)
}

/// Append bytes to a buffer.
pub fn append_bytes(out: &mut Vec<u8>, b: &[u8])
    ensures
        final(out)@ == old(out)@ + b@,
{
    let mut i: usize = 0;
    while i < b.len()
        invariant
            i <= b@.len(),
            out@ == old(out)@ + b@.take(i as int),
        decreases b@.len() - i,
    {
        out.push(b[i]);
        i = i + 1;
        proof {
            assert(out@ =~= old(out)@ + b@.take(i as int));
        }
    }
    proof {
        assert(b@.take(b@.len() as int) =~= b@);
    }
}

/// Whether two byte strings are equal.
pub fn bytes_equal(a: &[u8], b: &[u8]) -> (eq: bool)
    ensures
        eq == (a@ == b@),
{
    if a.len() != b.len() {
        return false;
    }
    let mut i: usize = 0;
    while i < a.len()
        invariant
            a@.len() == b@.len(),
            i <= a@.len(),
            forall|j: int| 0 <= j < i ==> a@[j] == b@[j],
        decreases a@.len() - i,
    {
        if a[i] != b[i] {
            return false;
        }
        i = i + 1;
    }
    proof {
        assert(a@ =~= b@);
    }
    true
}

/// A fresh copy of a byte string.
pub fn copy_bytes(b: &[u8]) -> (v: Vec<u8>)
    ensures
        v@ == b@,
{
    let mut v: Vec<u8> = Vec::new();
    append_bytes(&mut v, b);
    proof {
        assert(v@ =~= b@);
    }
    v
}

/// The decimal digits of a natural number, most significant first.
pub open spec fn decimal_digits(n: nat) -> Seq<u8>
    decreases n,
{
    if n < 10 {
        seq![(48 + n) as u8]
    } else {
        decimal_digits(n / 10) + seq![(48 + n % 10) as u8]
    }
}

/// The decimal text of an integer, with a leading `-` when negative.
pub open spec fn decimal_of(n: int) -> Seq<u8> {
    if n < 0 {
        seq![45u8] + decimal_digits((-n) as nat)
    } else {
        decimal_digits(n as nat)
    }
}

/// Append the decimal digits of `m` to `out`.
pub fn push_decimal_digits(out: &mut Vec<u8>, m: u64)
    ensures
        final(out)@ == old(out)@ + decimal_digits(m as nat),
    decreases m,
{
    if m >= 10 {
        push_decimal_digits(out, m / 10);
    }
    out.push(48 + (m % 10) as u8);
    proof {
        assert(final(out)@ =~= old(out)@ + decimal_digits(m as nat)) by {
            if m >= 10 {
                assert(decimal_digits(m as nat) == decimal_digits((m / 10) as nat) + seq![(48 + m % 10) as u8]);
            }
        }
    }
}

/// Append the decimal text of a signed integer to `out`.
pub fn push_decimal_i64(out: &mut Vec<u8>, n: i64)
    ensures
        final(out)@ == old(out)@ + decimal_of(n as int),
{
    if n < 0 {
        out.push(45u8);
        let mag: u64 = (0i128 - n as i128) as u64;
        push_decimal_digits(out, mag);
        proof {
            assert(final(out)@ =~= old(out)@ + decimal_of(n as int));
        }
    } else {
        push_decimal_digits(out, n as u64);
    }
}


/// The decimal digits of a natural number, as text.
pub open spec fn decimal_text(n: nat) -> Seq<char>
    decreases n,
{
    if n < 10 {
        seq![hex_digit(n as int)]
    } else {
        decimal_text(n / 10) + seq![hex_digit((n % 10) as int)]
    }
}

/// Append the decimal digits of `m` to a string.
pub fn push_decimal_text(s: &mut String, m: u64)
    ensures
        final(s)@ == old(s)@ + decimal_text(m as nat),
    decreases m,
{
    if m >= 10 {
        push_decimal_text(s, m / 10);
    }
    let d = hex_digit_str((m % 10) as u8);
    s.append(d);
    proof {
        assert(final(s)@ =~= old(s)@ + decimal_text(m as nat)) by {
            if m >= 10 {
                assert(decimal_text(m as nat) == decimal_text((m / 10) as nat) + seq![hex_digit((m % 10) as int)]);
            }
        }
    }
}

} // verus!
