use sha2::{Digest, Sha256};
use murmur_core::event::builder::EventBuilder;
use murmur_core::event::serialize::{canonical_bytes, compute_event_id, frame_canonical, frame_tag};
use murmur_core::event::types::{Event, EventKind, Tag};
use murmur_core::event::validate::{validate_event, validate_event_with, ValidationError};
use murmur_core::identity::keypair::{Identity, PubKey};

#[test]
fn test_build_post() {
    let id = Identity::generate();
    let event = EventBuilder::post("hello").topic("test").sign(&id);
    assert_eq!(event.kind, EventKind::Post);
    assert_eq!(event.content, "hello");
    assert!(validate_event(&event).is_ok());
}

#[test]
fn test_build_reply() {
    let id = Identity::generate();
    let parent = EventBuilder::post("parent").sign(&id);
    let reply = EventBuilder::reply("child", parent.id).sign(&id);
    assert_eq!(reply.kind, EventKind::Reply);
    assert_eq!(reply.parent_id(), Some(&parent.id));
    assert!(validate_event(&reply).is_ok());
}

#[test]
fn test_canonical_determinism() {
    let pk = PubKey([0xAB; 32]);
    let tags = vec![Tag::Topic("test".into())];
    let id1 = compute_event_id(&pk, 1000, EventKind::Post, "hello", &tags);
    let id2 = compute_event_id(&pk, 1000, EventKind::Post, "hello", &tags);
    assert_eq!(id1, id2);
}

#[test]
fn test_different_content_different_id() {
    let pk = PubKey([0xAB; 32]);
    let id1 = compute_event_id(&pk, 1000, EventKind::Post, "hello", &[]);
    let id2 = compute_event_id(&pk, 1000, EventKind::Post, "world", &[]);
    assert_ne!(id1, id2);
}

#[test]
fn test_valid_post() {
    let id = Identity::generate();
    let event = EventBuilder::post("hello world").sign(&id);
    assert!(validate_event(&event).is_ok());
}

#[test]
fn test_tampered_content_fails() {
    let id = Identity::generate();
    let mut event = EventBuilder::post("hello world").sign(&id);
    event.content = "tampered".to_string();
    assert!(validate_event(&event).is_err());
}

#[test]
fn test_content_too_long() {
    let id = Identity::generate();
    let long_content: String = "x".repeat(501);
    let event = EventBuilder::post(&long_content).sign(&id);
    let result = validate_event(&event);
    assert!(matches!(result, Err(ValidationError::ContentTooLong { .. })));
}

#[test]
fn canonical_bytes_match_serde_json_array() {
    let pk = PubKey([0x01; 32]);
    let tags = vec![
        Tag::ParentId([0x02; 32]),
        Tag::Topic("a \"quoted\" topic\n".into()),
        Tag::Url("https://example.org/ü".into()),
    ];
    let ours = canonical_bytes(&pk, -42, EventKind::Reply, "héllo\t\"x\"", &tags);
    let tag_pair = |label: &str, value: String| {
        serde_json::Value::Array(vec![serde_json::Value::from(label), serde_json::Value::from(value)])
    };
    let expected = serde_json::Value::Array(vec![
        serde_json::Value::from(hex::encode([0x01u8; 32])),
        serde_json::Value::from(-42i64),
        serde_json::Value::from(2u8),
        serde_json::Value::from("héllo\t\"x\""),
        serde_json::Value::Array(vec![
            tag_pair("parent", hex::encode([0x02u8; 32])),
            tag_pair("topic", "a \"quoted\" topic\n".to_string()),
            tag_pair("url", "https://example.org/ü".to_string()),
        ]),
    ]);
    assert_eq!(ours, serde_json::to_vec(&expected).unwrap());
}

#[test]
fn canonical_bytes_of_minimal_event() {
    let pk = PubKey([0xab; 32]);
    let ours = canonical_bytes(&pk, 1000, EventKind::Post, "hello", &[]);
    let expected = format!("[\"{}\",1000,1,\"hello\",[]]", "ab".repeat(32));
    assert_eq!(ours, expected.into_bytes());
}

#[test]
fn frame_canonical_exact_bytes() {
    let tags = vec![frame_tag(b"\"root\"", b"\"ff\""), b"[1]".to_vec()];
    let out = frame_canonical(b"\"k\"", i64::MIN, 9, b"\"c\"", &tags);
    assert_eq!(
        String::from_utf8(out).unwrap(),
        "[\"k\",-9223372036854775808,9,\"c\",[[\"root\",\"ff\"],[1]]]"
    );
}

#[test]
fn event_id_is_sha256_of_canonical_bytes() {
    let pk = PubKey([7; 32]);
    let tags = vec![Tag::Mention(PubKey([9; 32])), Tag::CorrectsId([3; 32])];
    let bytes = canonical_bytes(&pk, 12345, EventKind::Correction, "fix", &tags);
    let digest: [u8; 32] = Sha256::digest(&bytes).into();
    assert_eq!(compute_event_id(&pk, 12345, EventKind::Correction, "fix", &tags), digest);
}

#[test]
fn builder_fields_and_timestamp() {
    let id = Identity::generate();
    let e = EventBuilder::reply_in_thread("r", [1; 32], [2; 32]).url("u").mention(PubKey([5; 32])).at(77).sign(&id);
    assert_eq!(e.created_at, 77);
    assert_eq!(e.kind, EventKind::Reply);
    assert_eq!(e.parent_id(), Some(&[1u8; 32]));
    assert_eq!(e.thread_root_id(), Some(&[2u8; 32]));
    assert_eq!(e.corrects_id(), None);
    assert_eq!(e.tags.len(), 4);
    assert_eq!(e.pubkey, id.pubkey());
    assert!(validate_event(&e).is_ok());
    let r = EventBuilder::repost([4; 32]).sign(&id);
    assert_eq!(r.kind, EventKind::Repost);
    assert_eq!(r.content, "");
    let c = EventBuilder::correction("better", [6; 32]).sign(&id);
    assert_eq!(c.corrects_id(), Some(&[6u8; 32]));
    let x = EventBuilder::reaction([8; 32], "+").sign(&id);
    assert_eq!(x.kind, EventKind::Reaction);
    assert_eq!(x.content, "+");
}

fn signed(id: &Identity, kind: EventKind, content: &str, tags: Vec<Tag>) -> Event {
    let pubkey = id.pubkey();
    let event_id = compute_event_id(&pubkey, 5, kind, content, &tags);
    let sig = id.sign(&event_id);
    Event { id: event_id, pubkey, created_at: 5, kind, content: content.to_string(), tags, sig }
}

#[test]
fn validation_reports_each_failure() {
    let id = Identity::generate();
    let reply = signed(&id, EventKind::Reply, "no parent", vec![]);
    assert!(matches!(validate_event(&reply), Err(ValidationError::MissingParentId)));
    let corr = signed(&id, EventKind::Correction, "no target", vec![Tag::ParentId([1; 32])]);
    assert!(matches!(validate_event(&corr), Err(ValidationError::MissingCorrectsId)));
    let mut bad_sig = signed(&id, EventKind::Post, "ok", vec![]);
    bad_sig.sig[0] ^= 1;
    assert!(matches!(validate_event(&bad_sig), Err(ValidationError::InvalidSignature)));
    let long_reaction = signed(&id, EventKind::Reaction, &"y".repeat(600), vec![Tag::ParentId([1; 32])]);
    assert!(validate_event(&long_reaction).is_ok());
    let mut tampered = signed(&id, EventKind::Post, "ok", vec![]);
    tampered.created_at = 6;
    match validate_event(&tampered) {
        Err(ValidationError::IdMismatch { computed, claimed }) => {
            assert_eq!(claimed, hex::encode(tampered.id));
            assert_eq!(computed, hex::encode(compute_event_id(&tampered.pubkey, 6, EventKind::Post, "ok", &[])));
        }
        other => panic!("unexpected {:?}", other),
    }
}

#[test]
fn validation_with_given_checks() {
    let id = Identity::generate();
    let post = signed(&id, EventKind::Post, "ok", vec![]);
    assert!(validate_event_with(&post, &post.id, true).is_ok());
    assert!(matches!(validate_event_with(&post, &post.id, false), Err(ValidationError::InvalidSignature)));
    let other = [0u8; 32];
    assert!(matches!(validate_event_with(&post, &other, true), Err(ValidationError::IdMismatch { .. })));
    let long = signed(&id, EventKind::Post, &"é".repeat(500), vec![]);
    assert!(validate_event_with(&long, &long.id, true).is_ok());
    let longer = signed(&id, EventKind::Post, &"é".repeat(501), vec![]);
    match validate_event_with(&longer, &longer.id, true) {
        Err(ValidationError::ContentTooLong { length, max }) => {
            assert_eq!(length, 501);
            assert_eq!(max, 500);
        }
        other => panic!("unexpected {:?}", other),
    }
}

#[test]
fn event_kind_numbers() {
    for v in 0u8..=9 {
        assert_eq!(EventKind::from_u8(v).unwrap().as_u8(), v);
    }
    assert_eq!(EventKind::from_u8(10), None);
    assert_eq!(EventKind::Correction.as_u8(), 9);
    assert_eq!(EventKind::from_u8(6), Some(EventKind::Follow));
}

#[test]
fn event_id_display_forms() {
    let id = Identity::generate();
    let mut e = EventBuilder::post("x").sign(&id);
    e.id = [0xab; 32];
    assert_eq!(e.id_hex(), "ab".repeat(32));
    assert_eq!(e.id_short(), format!("{}…", "ab".repeat(6)));
    let copy = e.clone();
    assert_eq!(copy.id, e.id);
    assert_eq!(copy.content, e.content);
}

#[test]
fn canonical_bytes_escape_strings_as_json() {
    let pk = PubKey([0x10; 32]);
    let content = "\u{1}\u{8}\u{c}\r\\\u{1f}\u{7f}€ \"q\"/";
    let ours = canonical_bytes(&pk, 5, EventKind::Post, content, &[]);
    let expected = format!(
        "[\"{}\",5,1,\"\\u0001\\b\\f\\r\\\\\\u001f\u{7f}€ \\\"q\\\"/\",[]]",
        "10".repeat(32)
    );
    assert_eq!(String::from_utf8(ours.clone()).unwrap(), expected);
    let via_serde = serde_json::to_vec(&serde_json::Value::Array(vec![
        serde_json::Value::from("10".repeat(32)),
        serde_json::Value::from(5),
        serde_json::Value::from(1),
        serde_json::Value::from(content),
        serde_json::Value::Array(vec![]),
    ]))
    .unwrap();
    assert_eq!(ours, via_serde);
}
