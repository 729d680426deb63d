//! Canonical serialization for event hashing and signing.
//!
//! The canonical form is a compact JSON array with fields in a fixed order:
//! `[pubkey, created_at, kind, content, tags]`, where the public key is in
//! hex and each tag is a two-element array `[label, value]`.
//!
//! This makes the event ID (SHA-256 of this serialization) deterministic
//! regardless of field ordering in the struct.

use vstd::prelude::*;
use crate::crypto::{sha256, sha256_digest};
use crate::encoding::{append_bytes, decimal_of, hex_encode, hex_of, push_decimal_i64};
use crate::event::types::{kind_number, tags_model, EventKind, Tag, TagModel};
use crate::identity::keypair::PubKey;
use crate::json::{json_string, json_string_bytes, lemma_json_string_injective};

verus! {

/// A two-element JSON array `[label, value]` built from encoded parts.
pub open spec fn pair_json(label: Seq<u8>, value: Seq<u8>) -> Seq<u8> {
    seq![91u8] + label + seq![44u8] + value + seq![93u8]
}

/// The canonical JSON of one tag.
pub open spec fn tag_json(t: TagModel) -> Seq<u8> {
    match t {
        TagModel::ParentId(id) => pair_json(json_string("parent"@), json_string(hex_of(id))),
        TagModel::ThreadRootId(id) => pair_json(json_string("root"@), json_string(hex_of(id))),
        TagModel::CorrectsId(id) => pair_json(json_string("corrects"@), json_string(hex_of(id))),
        TagModel::Topic(s) => pair_json(json_string("topic"@), json_string(s)),
        TagModel::Mention(pk) => pair_json(json_string("mention"@), json_string(hex_of(pk))),
        TagModel::Url(u) => pair_json(json_string("url"@), json_string(u)),
    }
}

/// Parts joined by commas.
pub open spec fn join_commas(parts: Seq<Seq<u8>>) -> Seq<u8>
    decreases parts.len(),
{
    if parts.len() == 0 {
        Seq::empty()
    } else if parts.len() == 1 {
        parts[0]
    } else {
        join_commas(parts.drop_last()) + seq![44u8] + parts.last()
    }
}

/// A JSON array of already encoded elements.
pub open spec fn array_json(parts: Seq<Seq<u8>>) -> Seq<u8> {
    seq![91u8] + join_commas(parts) + seq![93u8]
}

/// The canonical array from its encoded parts.
pub open spec fn frame_canonical_of(
    pubkey_json: Seq<u8>,
    created_at: i64,
    kind: u8,
    content_json: Seq<u8>,
    tag_jsons: Seq<Seq<u8>>,
) -> Seq<u8> {
    seq![91u8] + pubkey_json + seq![44u8] + decimal_of(created_at as int) + seq![44u8]
        + decimal_of(kind as int) + seq![44u8] + content_json + seq![44u8] + array_json(tag_jsons)
        + seq![93u8]
}

/// The canonical bytes of an event's content.
pub open spec fn canonical_of(
    pubkey: Seq<u8>,
    created_at: i64,
    kind: EventKind,
    content: Seq<char>,
    tags: Seq<TagModel>,
) -> Seq<u8> {
    frame_canonical_of(
        json_string(hex_of(pubkey)),
        created_at,
        kind_number(kind),
        json_string(content),
        tags.map_values(|t: TagModel| tag_json(t)),
    )
}

/// The event id: SHA-256 of the canonical bytes.
pub open spec fn event_id_of(
    pubkey: Seq<u8>,
    created_at: i64,
    kind: EventKind,
    content: Seq<char>,
    tags: Seq<TagModel>,
) -> Seq<u8> {
    sha256(canonical_of(pubkey, created_at, kind, content, tags))
}

/// Frame an encoded label and value as a two-element JSON array.
pub fn frame_tag(label_json: &[u8], value_json: &[u8]) -> (out: Vec<u8>)
    ensures
        out@ == pair_json(label_json@, value_json@),
{
    let mut out: Vec<u8> = Vec::new();
    out.push(91u8);
    append_bytes(&mut out, label_json);
    out.push(44u8);
    append_bytes(&mut out, value_json);
    out.push(93u8);
    proof {
        assert(out@ =~= pair_json(label_json@, value_json@));
    }
    out
}

/// The canonical JSON of one tag.
fn tag_to_json(tag: &Tag) -> (out: Vec<u8>)
    ensures
        out@ == tag_json(tag@),
{
    match tag {
        Tag::ParentId(id) => {
            let v = json_string_bytes(hex_encode(id).as_str());
            frame_tag(json_string_bytes("parent").as_slice(), v.as_slice())
        },
        Tag::ThreadRootId(id) => {
            let v = json_string_bytes(hex_encode(id).as_str());
            frame_tag(json_string_bytes("root").as_slice(), v.as_slice())
        },
        Tag::CorrectsId(id) => {
            let v = json_string_bytes(hex_encode(id).as_str());
            frame_tag(json_string_bytes("corrects").as_slice(), v.as_slice())
        },
        Tag::Topic(s) => {
            let v = json_string_bytes(s.as_str());
            frame_tag(json_string_bytes("topic").as_slice(), v.as_slice())
        },
        Tag::Mention(pk) => {
            let v = json_string_bytes(hex_encode(&pk.0).as_str());
            frame_tag(json_string_bytes("mention").as_slice(), v.as_slice())
        },
        Tag::Url(u) => {
            let v = json_string_bytes(u.as_str());
            frame_tag(json_string_bytes("url").as_slice(), v.as_slice())
        },
    }
}

/// Append a JSON array of already encoded elements.
fn push_array(out: &mut Vec<u8>, parts: &Vec<Vec<u8>>)
    ensures
        final(out)@ == old(out)@ + array_json(parts@.map_values(|v: Vec<u8>| v@)),
{
    let ghost ps = parts@.map_values(|v: Vec<u8>| v@);
    out.push(91u8);
    let mut i: usize = 0;
    while i < parts.len()
        invariant
            i <= parts@.len(),
            ps == parts@.map_values(|v: Vec<u8>| v@),
            out@ == old(out)@ + seq![91u8] + join_commas(ps.take(i as int)),
        decreases parts@.len() - i,
    {
        let ghost before = out@;
        if i > 0 {
            out.push(44u8);
        }
        append_bytes(out, parts[i].as_slice());
        proof {
            let t = ps.take(i + 1);
            assert(t.drop_last() =~= ps.take(i as int));
            assert(t.last() == parts@[i as int]@);
            if i == 0 {
                assert(ps.take(0).len() == 0);
                assert(join_commas(t) == t[0]);
            }
            assert(out@ =~= old(out)@ + seq![91u8] + join_commas(t));
        }
        i = i + 1;
    }
    out.push(93u8);
    proof {
        assert(ps.take(parts@.len() as int) =~= ps);
        assert(out@ =~= old(out)@ + array_json(ps));
    }
}

/// Assemble the canonical array from its encoded parts.
pub fn frame_canonical(
    pubkey_json: &[u8],
    created_at: i64,
    kind: u8,
    content_json: &[u8],
    tag_jsons: &Vec<Vec<u8>>,
) -> (out: Vec<u8>)
    ensures
        out@ == frame_canonical_of(
            pubkey_json@,
            created_at,
            kind,
            content_json@,
            tag_jsons@.map_values(|v: Vec<u8>| v@),
        ),
{
    let mut out: Vec<u8> = Vec::new();
    out.push(91u8);
    append_bytes(&mut out, pubkey_json);
    out.push(44u8);
    push_decimal_i64(&mut out, created_at);
    out.push(44u8);
    push_decimal_i64(&mut out, kind as i64);
    out.push(44u8);
    append_bytes(&mut out, content_json);
    out.push(44u8);
    push_array(&mut out, tag_jsons);
    out.push(93u8);
    proof {
        assert(out@ =~= frame_canonical_of(
            pubkey_json@,
            created_at,
            kind,
            content_json@,
            tag_jsons@.map_values(|v: Vec<u8>| v@),
        ));
    }
    out
}

/// Produce the canonical byte representation of an event's content
/// (everything except the id and sig, which are derived from this).
pub fn canonical_bytes(
    pubkey: &PubKey,
    created_at: i64,
    kind: EventKind,
    content: &str,
    tags: &[Tag],
) -> (out: Vec<u8>)
    ensures
        out@ == canonical_of(pubkey.0@, created_at, kind, content@, tags_model(tags@)),
{
    let pubkey_json = json_string_bytes(hex_encode(&pubkey.0).as_str());
    let content_json = json_string_bytes(content);
    let mut tag_jsons: Vec<Vec<u8>> = Vec::new();
    let mut i: usize = 0;
    while i < tags.len()
        invariant
            i <= tags@.len(),
            tag_jsons@.len() == i,
            forall|j: int| 0 <= j < i ==> (#[trigger] tag_jsons@[j])@ == tag_json(tags@[j]@),
        decreases tags@.len() - i,
    {
        tag_jsons.push(tag_to_json(&tags[i]));
        i = i + 1;
    }
    let out = frame_canonical(pubkey_json.as_slice(), created_at, kind.as_u8(), content_json.as_slice(), &tag_jsons);
    proof {
        assert(tag_jsons@.map_values(|v: Vec<u8>| v@) =~= tags_model(tags@).map_values(|t: TagModel| tag_json(t)));
    }
    out
}

/// Compute the SHA-256 hash of the canonical event content.
pub fn compute_event_id(
    pubkey: &PubKey,
    created_at: i64,
    kind: EventKind,
    content: &str,
    tags: &[Tag],
) -> (id: [u8; 32])
    ensures
        id@ == event_id_of(pubkey.0@, created_at, kind, content@, tags_model(tags@)),
{
    let bytes = canonical_bytes(pubkey, created_at, kind, content, tags);
    sha256_digest(bytes.as_slice())
}

/// Events that differ only in their content have different canonical bytes.
pub proof fn lemma_canonical_content_injective(
    pubkey: Seq<u8>,
    created_at: i64,
    kind: EventKind,
    c1: Seq<char>,
    c2: Seq<char>,
    tags: Seq<TagModel>,
)
    requires
        canonical_of(pubkey, created_at, kind, c1, tags) == canonical_of(pubkey, created_at, kind, c2, tags),
    ensures
        c1 == c2,
{
    let pre = seq![91u8] + json_string(hex_of(pubkey)) + seq![44u8] + decimal_of(created_at as int) + seq![44u8]
        + decimal_of(kind_number(kind) as int) + seq![44u8];
    let post = seq![44u8] + array_json(tags.map_values(|t: TagModel| tag_json(t))) + seq![93u8];
    let x1 = json_string(c1);
    let x2 = json_string(c2);
    let whole = canonical_of(pubkey, created_at, kind, c1, tags);
    assert(whole =~= pre + x1 + post);
    assert(canonical_of(pubkey, created_at, kind, c2, tags) =~= pre + x2 + post);
    assert(x1 =~= whole.subrange(pre.len() as int, whole.len() - post.len()));
    assert(x2 =~= whole.subrange(pre.len() as int, whole.len() - post.len()));
    lemma_json_string_injective(c1, c2);
}

} // verus!
