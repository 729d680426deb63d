//! JSON text for strings, as serde_json writes it.

use vstd::prelude::*;
use vstd::utf8::*;
use crate::encoding::{hex_digit, hex_value, lemma_hex_digit_value};

verus! {

/// What serde_json writes for one character of a string: a backslash
/// escape for the quote, the backslash and the control characters below
/// U+0020 (short forms for backspace, tab, line feed, form feed and carriage
/// return, `\u00xx` with lowercase hex digits for the rest), and the
/// character's UTF-8 bytes otherwise.
pub open spec fn json_char(c: char) -> Seq<u8> {
    if c == '"' {
        seq![0x5cu8, 0x22u8]
    } else if c == '\\' {
        seq![0x5cu8, 0x5cu8]
    } else if c == '\u{8}' {
        seq![0x5cu8, 0x62u8]
    } else if c == '\t' {
        seq![0x5cu8, 0x74u8]
    } else if c == '\n' {
        seq![0x5cu8, 0x6eu8]
    } else if c == '\u{c}' {
        seq![0x5cu8, 0x66u8]
    } else if c == '\r' {
        seq![0x5cu8, 0x72u8]
    } else if (c as u32) < 0x20 {
        seq![
            0x5cu8,
            0x75u8,
            0x30u8,
            0x30u8,
            hex_digit((c as int) / 16) as u8,
            hex_digit((c as int) % 16) as u8,
        ]
    } else {
        encode_utf8(seq![c])
    }
}

/// The escaped characters of a string, in order.
pub open spec fn json_chars(s: Seq<char>) -> Seq<u8>
    decreases s.len(),
{
    if s.len() == 0 {
        Seq::empty()
    } else {
        json_chars(s.drop_last()) + json_char(s.last())
    }
}

/// The compact JSON encoding that serde_json writes for a string: the
/// escaped characters between double quotes.
pub open spec fn json_string(s: Seq<char>) -> Seq<u8> {
    seq![0x22u8] + json_chars(s) + seq![0x22u8]
}

/// Calls `serde_json::to_vec` on a `str`. Trusted: the bytes are
/// `json_string` of the text (serde_json's string escaping, stated above).
/// Writing into a `Vec` cannot fail in serde_json (the writer is
/// infallible), so the error arm is never taken.
#[verifier::external_body]
pub(crate) fn json_string_bytes(s: &str) -> (bytes: Vec<u8>)
    ensures
        bytes@ == json_string(s@),
{
    match serde_json::to_vec(s) {
        Ok(v) => v,
        Err(_) => Vec::new(),
    }
}

/// How many bytes the escaped character at the front of `b` takes: six for
/// a `\u` escape, two for another escape, else the length of the UTF-8
/// character there.
pub open spec fn json_char_len(b: Seq<u8>) -> int {
    if b[0] == 0x5cu8 {
        if b[1] == 0x75u8 {
            6
        } else {
            2
        }
    } else {
        length_of_first_scalar(b)
    }
}

/// A character written without an escape is its UTF-8 encoding, whose first
/// byte is not a backslash.
proof fn lemma_plain_char(c: char)
    requires
        !(c == '"' || c == '\\' || (c as u32) < 0x20),
    ensures
        json_char(c) == encode_scalar(c as u32),
        encode_scalar(c as u32).len() > 0,
        encode_scalar(c as u32)[0] != 0x5cu8,
        length_of_first_scalar(encode_scalar(c as u32)) == encode_scalar(c as u32).len(),
{
    let v = c as u32;
    char_is_scalar(c);
    encode_utf8_first_scalar(seq![c]);
    assert(seq![c].drop_first() =~= Seq::<char>::empty());
    assert(encode_utf8(Seq::<char>::empty()) =~= Seq::<u8>::empty());
    assert(seq![c][0] == c);
    assert(encode_utf8(seq![c]) =~= encode_scalar(v));
    if v == 0x5c {
        char_u32_cast(c, v);
        assert(c == '\\');
    }
    if has_width_1_encoding(v) {
        assert((v & 0x7f) as u8 != 0x5cu8) by (bit_vector)
            requires
                v <= 0x7f,
                v != 0x5c,
        ;
    } else if has_width_2_encoding(v) {
        assert(leading_byte_width_2(v) >= 0xc0) by (bit_vector);
    } else if has_width_3_encoding(v) {
        assert(leading_byte_width_3(v) >= 0xc0) by (bit_vector);
    } else {
        assert(leading_byte_width_4(v) >= 0xc0) by (bit_vector);
    }
}

/// Whatever follows an escaped character, its length can be read from its
/// first bytes.
proof fn lemma_json_char_len(c: char, rest: Seq<u8>)
    ensures
        json_char(c).len() > 0,
        json_char_len(json_char(c) + rest) == json_char(c).len(),
{
    let b = json_char(c) + rest;
    if c == '"' || c == '\\' || (c as u32) < 0x20 {
        assert(b[0] == json_char(c)[0] && b[1] == json_char(c)[1]);
    } else {
        lemma_plain_char(c);
        assert(b[0] == json_char(c)[0]);
    }
}

/// Different characters are written differently.
proof fn lemma_json_char_injective(c1: char, c2: char)
    requires
        json_char(c1) == json_char(c2),
    ensures
        c1 == c2,
{
    let esc1 = c1 == '"' || c1 == '\\' || (c1 as u32) < 0x20;
    let esc2 = c2 == '"' || c2 == '\\' || (c2 as u32) < 0x20;
    if !esc1 {
        lemma_plain_char(c1);
    }
    if !esc2 {
        lemma_plain_char(c2);
    }
    if esc1 && esc2 {
        let j = json_char(c1);
        if (c1 as u32) < 0x20 && (c2 as u32) < 0x20 && j[1] == 0x75u8 && json_char(c2)[1] == 0x75u8 {
            let n1 = c1 as int;
            let n2 = c2 as int;
            lemma_hex_digit_value(n1 / 16);
            lemma_hex_digit_value(n1 % 16);
            lemma_hex_digit_value(n2 / 16);
            lemma_hex_digit_value(n2 % 16);
            assert(hex_value(j[4]) == Some((n1 / 16) as u8));
            assert(hex_value(j[4]) == Some((n2 / 16) as u8));
            assert(hex_value(j[5]) == Some((n1 % 16) as u8));
            assert(hex_value(j[5]) == Some((n2 % 16) as u8));
            assert(n1 == n2);
            char_u32_cast(c1, c1 as u32);
            char_u32_cast(c2, c2 as u32);
        }
    } else if !esc1 && !esc2 {
        encode_utf8_decode_utf8(seq![c1]);
        encode_utf8_decode_utf8(seq![c2]);
        assert(seq![c1].drop_first() =~= Seq::<char>::empty());
        assert(seq![c2].drop_first() =~= Seq::<char>::empty());
        assert(encode_utf8(seq![c1]) =~= encode_scalar(c1 as u32));
        assert(encode_utf8(seq![c2]) =~= encode_scalar(c2 as u32));
        assert(seq![c1][0] == seq![c2][0]);
    }
}

/// The escaped characters of a string are its first character's, then the
/// rest's.
proof fn lemma_json_chars_front(s: Seq<char>)
    requires
        s.len() > 0,
    ensures
        json_chars(s) == json_char(s[0]) + json_chars(s.drop_first()),
    decreases s.len(),
{
    if s.len() == 1 {
        assert(s.drop_last() =~= Seq::<char>::empty());
        assert(s.drop_first() =~= Seq::<char>::empty());
        assert(json_chars(s.drop_last()) =~= Seq::<u8>::empty());
        assert(json_chars(s.drop_first()) =~= Seq::<u8>::empty());
        assert(s.last() == s[0]);
        assert(json_chars(s) =~= json_char(s[0]));
    } else {
        lemma_json_chars_front(s.drop_last());
        assert(s.drop_first().drop_last() =~= s.drop_last().drop_first());
        assert(s.drop_first().last() == s.last());
        assert(s.drop_last()[0] == s[0]);
        assert(json_chars(s) =~= json_char(s[0]) + json_chars(s.drop_first()));
    }
}

/// Different strings are written differently.
pub proof fn lemma_json_chars_injective(a: Seq<char>, b: Seq<char>)
    requires
        json_chars(a) == json_chars(b),
    ensures
        a == b,
    decreases a.len(),
{
    if a.len() == 0 {
        assert(json_chars(a).len() == 0);
        if b.len() > 0 {
            lemma_json_chars_front(b);
            lemma_json_char_len(b[0], json_chars(b.drop_first()));
            assert(json_chars(b).len() > 0);
        }
        assert(a =~= b);
    } else if b.len() == 0 {
        assert(json_chars(b).len() == 0);
        lemma_json_chars_front(a);
        lemma_json_char_len(a[0], json_chars(a.drop_first()));
        assert(json_chars(a).len() > 0);
    } else {
        lemma_json_chars_front(a);
        lemma_json_chars_front(b);
        let x = json_chars(a);
        lemma_json_char_len(a[0], json_chars(a.drop_first()));
        lemma_json_char_len(b[0], json_chars(b.drop_first()));
        let n = json_char(a[0]).len() as int;
        assert(json_char(a[0]) =~= x.take(n));
        assert(json_char(b[0]) =~= x.take(n));
        lemma_json_char_injective(a[0], b[0]);
        assert(json_chars(a.drop_first()) =~= x.skip(n));
        assert(json_chars(b.drop_first()) =~= x.skip(n));
        lemma_json_chars_injective(a.drop_first(), b.drop_first());
        assert(a =~= seq![a[0]] + a.drop_first());
        assert(b =~= seq![b[0]] + b.drop_first());
    }
}

/// Different strings have different JSON encodings.
pub proof fn lemma_json_string_injective(a: Seq<char>, b: Seq<char>)
    requires
        json_string(a) == json_string(b),
    ensures
        a == b,
{
    let x = json_string(a);
    assert(json_chars(a) =~= x.subrange(1, x.len() - 1));
    assert(json_chars(b) =~= x.subrange(1, x.len() - 1));
    lemma_json_chars_injective(a, b);
}

} // verus!
