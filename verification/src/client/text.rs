//! Text handling for input: whitespace, trimming, and byte positions in
//! the UTF-8 text of a line of characters.

use vstd::prelude::*;
use vstd::string::*;

verus! {

/// Whether a character is white space (`char::is_whitespace`: the Unicode
/// White_Space property).
pub open spec fn is_ws(c: char) -> bool {
    c == ' ' || ('\t' <= c <= '\r') || c == '\u{85}' || c == '\u{a0}' || c == '\u{1680}' || ('\u{2000}' <= c
        <= '\u{200a}') || c == '\u{2028}' || c == '\u{2029}' || c == '\u{202f}' || c == '\u{205f}' || c
        == '\u{3000}'
}

pub fn is_whitespace(c: char) -> (b: bool)
    ensures
        b == is_ws(c),
{
    c == ' ' || ('\t' <= c && c <= '\r') || c == '\u{85}' || c == '\u{a0}' || c == '\u{1680}' || ('\u{2000}' <= c
        && c <= '\u{200a}') || c == '\u{2028}' || c == '\u{2029}' || c == '\u{202f}' || c == '\u{205f}' || c
        == '\u{3000}'
}

/// The bounds `(start, end)` of a text without its leading and trailing
/// white space: `start` is the first non-space position and `end` one past
/// the last (both `start` when the text is all space).
pub open spec fn trim_bounds(s: Seq<char>, start: int, end: int) -> bool {
    &&& 0 <= start <= end <= s.len()
    &&& forall|i: int| 0 <= i < start ==> is_ws(#[trigger] s[i])
    &&& forall|i: int| end <= i < s.len() ==> is_ws(#[trigger] s[i])
    &&& start < end ==> !is_ws(s[start]) && !is_ws(s[end - 1])
    &&& start == end ==> start == s.len()
}

/// The text without leading and trailing white space (`str::trim`).
pub open spec fn trimmed(s: Seq<char>) -> Seq<char> {
    let b = choose|b: (int, int)| trim_bounds(s, b.0, b.1);
    s.subrange(b.0, b.1)
}

/// Trim bounds are unique.
pub proof fn lemma_trim_bounds_unique(s: Seq<char>, a1: int, b1: int, a2: int, b2: int)
    requires
        trim_bounds(s, a1, b1),
        trim_bounds(s, a2, b2),
    ensures
        a1 == a2 && b1 == b2,
{
    if a1 < a2 {
        assert(is_ws(s[a1]));
        assert(a1 < b1);
    }
    if a2 < a1 {
        assert(is_ws(s[a2]));
        assert(a2 < b2);
    }
    if b1 < b2 && a1 == a2 {
        assert(is_ws(s[b2 - 1]));
    }
    if b2 < b1 && a1 == a2 {
        assert(is_ws(s[b1 - 1]));
    }
}

/// The characters of a string.
pub fn chars_of(s: &str) -> (v: Vec<char>)
    ensures
        v@ == s@,
{
    let n = s.unicode_len();
    let mut v: Vec<char> = Vec::new();
    let mut i: usize = 0;
    while i < n
        invariant
            n == s@.len(),
            i <= n,
            v@ == s@.take(i as int),
        decreases n - i,
    {
        v.push(s.get_char(i));
        i = i + 1;
        proof {
            assert(v@ =~= s@.take(i as int));
        }
    }
    proof {
        assert(s@.take(n as int) =~= s@);
    }
    v
}

/// The bounds of a text without its surrounding white space.
pub fn trim_range(c: &Vec<char>) -> (r: (usize, usize))
    ensures
        trim_bounds(c@, r.0 as int, r.1 as int),
        trimmed(c@) == c@.subrange(r.0 as int, r.1 as int),
{
    let n = c.len();
    let mut start: usize = 0;
    while start < n && is_whitespace(c[start])
        invariant
            n == c@.len(),
            start <= n,
            forall|i: int| 0 <= i < start ==> is_ws(#[trigger] c@[i]),
        decreases n - start,
    {
        start = start + 1;
    }
    let mut end: usize = n;
    while end > start && is_whitespace(c[end - 1])
        invariant
            n == c@.len(),
            start <= end <= n,
            forall|i: int| end <= i < n ==> is_ws(#[trigger] c@[i]),
            start < n ==> !is_ws(c@[start as int]),
        decreases end - start,
    {
        end = end - 1;
    }
    proof {
        let w: (int, int) = (start as int, end as int);
        assert(trim_bounds(c@, w.0, w.1));
        let b = choose|b: (int, int)| trim_bounds(c@, b.0, b.1);
        lemma_trim_bounds_unique(c@, b.0, b.1, start as int, end as int);
    }
    (start, end)
}

/// The number of bytes of a character's UTF-8 encoding.
pub open spec fn char_width(c: char) -> nat {
    if (c as u32) < 0x80 {
        1
    } else if (c as u32) < 0x800 {
        2
    } else if (c as u32) < 0x10000 {
        3
    } else {
        4
    }
}

/// The number of bytes of a text's UTF-8 encoding.
pub open spec fn utf8_len(s: Seq<char>) -> nat
    decreases s.len(),
{
    if s.len() == 0 {
        0
    } else {
        utf8_len(s.drop_last()) + char_width(s.last())
    }
}

/// The position of the character that starts at byte offset `b` of a
/// text's UTF-8 encoding (the length of the text for its end), or `None`
/// when `b` falls inside a character or beyond the end.
pub open spec fn char_at_byte(s: Seq<char>, b: int) -> Option<int>
    decreases s.len(),
{
    if b == utf8_len(s) {
        Some(s.len() as int)
    } else if s.len() == 0 {
        None
    } else {
        char_at_byte(s.drop_last(), b)
    }
}

/// A longer prefix takes more bytes.
pub proof fn lemma_prefix_bytes_grow(s: Seq<char>, k1: int, k2: int)
    requires
        0 <= k1 < k2 <= s.len(),
    ensures
        utf8_len(s.take(k1)) < utf8_len(s.take(k2)),
    decreases k2,
{
    let t = s.take(k2);
    assert(t.drop_last() =~= s.take(k2 - 1));
    if k1 < k2 - 1 {
        lemma_prefix_bytes_grow(s, k1, k2 - 1);
    }
}

/// A character starts at byte `b` exactly when a prefix of the text takes
/// `b` bytes, and its position is that prefix's length.
pub proof fn lemma_char_at_byte(s: Seq<char>, b: int, k: int)
    ensures
        char_at_byte(s, b) == Some(k) <==> (0 <= k <= s.len() && utf8_len(s.take(k)) == b),
        char_at_byte(s, b) is None <==> (forall|j: int| 0 <= j <= s.len() ==> utf8_len(#[trigger] s.take(j)) != b),
    decreases s.len(),
{
    assert(s.take(s.len() as int) =~= s);
    if s.len() > 0 {
        let init = s.drop_last();
        lemma_char_at_byte(init, b, k);
        assert forall|j: int| 0 <= j < s.len() implies #[trigger] s.take(j) == init.take(j) by {
            assert(s.take(j) =~= init.take(j));
        }
        if b != utf8_len(s) {
            assert(char_at_byte(s, b) == char_at_byte(init, b));
            if 0 <= k < s.len() && utf8_len(s.take(k)) == b {
                assert(s.take(k) == init.take(k));
            }
            if 0 <= k <= init.len() && utf8_len(init.take(k)) == b {
                assert(s.take(k) == init.take(k));
            }
            assert((forall|j: int| 0 <= j <= s.len() ==> utf8_len(#[trigger] s.take(j)) != b)
                == (forall|j: int| 0 <= j <= init.len() ==> utf8_len(#[trigger] init.take(j)) != b)) by {
                if forall|j: int| 0 <= j <= init.len() ==> utf8_len(#[trigger] init.take(j)) != b {
                    assert forall|j: int| 0 <= j <= s.len() implies utf8_len(#[trigger] s.take(j)) != b by {
                        if j < s.len() {
                            assert(s.take(j) == init.take(j));
                        }
                    }
                }
                if forall|j: int| 0 <= j <= s.len() ==> utf8_len(#[trigger] s.take(j)) != b {
                    assert forall|j: int| 0 <= j <= init.len() implies utf8_len(#[trigger] init.take(j)) != b by {
                        assert(s.take(j) == init.take(j));
                    }
                }
            }
        } else {
            if 0 <= k < s.len() {
                lemma_prefix_bytes_grow(s, k, s.len() as int);
            }
        }
    } else {
        assert(s.take(0) =~= s);
    }
}

/// The number of bytes of a character's UTF-8 encoding.
pub fn char_width_of(c: char) -> (w: usize)
    ensures
        w == char_width(c),
{
    if (c as u32) < 0x80 {
        1
    } else if (c as u32) < 0x800 {
        2
    } else if (c as u32) < 0x10000 {
        3
    } else {
        4
    }
}

/// The number of bytes of a text's UTF-8 encoding.
pub fn utf8_len_of(s: &Vec<char>) -> (n: usize)
    requires
        utf8_len(s@) <= usize::MAX,
    ensures
        n == utf8_len(s@),
{
    let mut n: usize = 0;
    let mut i: usize = 0;
    while i < s.len()
        invariant
            i <= s@.len(),
            utf8_len(s@) <= usize::MAX,
            n == utf8_len(s@.take(i as int)),
        decreases s@.len() - i,
    {
        proof {
            assert(s@.take(i + 1).drop_last() =~= s@.take(i as int));
            if i + 1 < s@.len() {
                lemma_prefix_bytes_grow(s@, i + 1, s@.len() as int);
            }
            assert(s@.take(s@.len() as int) =~= s@);
        }
        n = n + char_width_of(s[i]);
        i = i + 1;
    }
    proof {
        assert(s@.take(s@.len() as int) =~= s@);
    }
    n
}

/// The position of the character that starts at byte offset `b`, if one
/// does (the length of the text for its end).
pub fn char_at_byte_of(s: &Vec<char>, b: usize) -> (r: Option<usize>)
    requires
        utf8_len(s@) <= usize::MAX,
    ensures
        match r {
            Some(k) => char_at_byte(s@, b as int) == Some(k as int),
            None => char_at_byte(s@, b as int) is None,
        },
{
    let mut n: usize = 0;
    let mut i: usize = 0;
    proof {
        assert(s@.take(s@.len() as int) =~= s@);
    }
    while i < s.len()
        invariant
            i <= s@.len(),
            utf8_len(s@) <= usize::MAX,
            n == utf8_len(s@.take(i as int)),
            forall|j: int| 0 <= j < i ==> utf8_len(#[trigger] s@.take(j)) != b,
        decreases s@.len() - i,
    {
        if n == b {
            proof {
                lemma_char_at_byte(s@, b as int, i as int);
            }
            return Some(i);
        }
        proof {
            assert(s@.take(i + 1).drop_last() =~= s@.take(i as int));
            if i + 1 < s@.len() {
                lemma_prefix_bytes_grow(s@, i + 1, s@.len() as int);
            }
            assert(s@.take(s@.len() as int) =~= s@);
        }
        n = n + char_width_of(s[i]);
        i = i + 1;
    }
    proof {
        assert(s@.take(s@.len() as int) =~= s@);
        lemma_char_at_byte(s@, b as int, i as int);
    }
    if n == b {
        Some(i)
    } else {
        None
    }
}

/// The bytes of two texts joined are the bytes of each.
pub proof fn lemma_utf8_len_concat(a: Seq<char>, b: Seq<char>)
    ensures
        utf8_len(a + b) == utf8_len(a) + utf8_len(b),
    decreases b.len(),
{
    if b.len() == 0 {
        assert(a + b =~= a);
    } else {
        lemma_utf8_len_concat(a, b.drop_last());
        assert((a + b).drop_last() =~= a + b.drop_last());
        assert((a + b).last() == b.last());
    }
}

/// Inserting a character adds its width; removing one takes its width away;
/// a prefix ending after a character takes the bytes before it and the
/// character's.
pub proof fn lemma_utf8_len_edit(s: Seq<char>, k: int, c: char)
    requires
        0 <= k <= s.len(),
    ensures
        utf8_len(s.insert(k, c)) == utf8_len(s) + char_width(c),
        s.insert(k, c).take(k) == s.take(k),
        k < s.len() ==> utf8_len(s.remove(k)) + char_width(s[k]) == utf8_len(s),
        k < s.len() ==> utf8_len(s.take(k + 1)) == utf8_len(s.take(k)) + char_width(s[k]),
        k < s.len() ==> s.remove(k).take(k) == s.take(k),
        utf8_len(s.take(k)) <= utf8_len(s),
{
    let pre = s.take(k);
    let post = s.skip(k);
    assert(s =~= pre + post);
    assert(s.insert(k, c) =~= pre + seq![c] + post);
    assert(s.insert(k, c).take(k) =~= pre);
    lemma_utf8_len_concat(pre, post);
    lemma_utf8_len_concat(pre + seq![c], post);
    lemma_utf8_len_concat(pre, seq![c]);
    assert(seq![c].drop_last() =~= Seq::<char>::empty());
    assert(utf8_len(Seq::<char>::empty()) == 0);
    assert(seq![c].last() == c);
    assert(utf8_len(seq![c]) == char_width(c));
    if k < s.len() {
        let rest = s.skip(k + 1);
        assert(post =~= seq![s[k]] + rest);
        assert(s.remove(k) =~= pre + rest);
        assert(s.remove(k).take(k) =~= pre);
        lemma_utf8_len_concat(pre, rest);
        lemma_utf8_len_concat(seq![s[k]], rest);
        assert(seq![s[k]].drop_last() =~= Seq::<char>::empty());
        assert(seq![s[k]].last() == s[k]);
        assert(utf8_len(seq![s[k]]) == char_width(s[k]));
        assert(s.take(k + 1) =~= pre + seq![s[k]]);
        lemma_utf8_len_concat(pre, seq![s[k]]);
    }
}

/// ASCII text takes one byte per character.
pub proof fn lemma_ascii_utf8_len(s: Seq<char>)
    requires
        forall|i: int| 0 <= i < s.len() ==> (#[trigger] s[i] as u32) < 0x80,
    ensures
        utf8_len(s) == s.len(),
    decreases s.len(),
{
    if s.len() > 0 {
        lemma_ascii_utf8_len(s.drop_last());
        assert((s.last() as u32) < 0x80);
    }
}

} // verus!
