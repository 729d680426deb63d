//! What the desktop front end shows of events, peers and identities.

use vstd::prelude::*;
use vstd::string::*;
use vstd::utf8::*;
use crate::clock::unix_now;
use crate::encoding::{decimal_text, hex_decode, hex_decode_of, hex_of, hex_value, push_decimal_text};
use crate::event::types::{first_ref, kind_number, short_form, Event, EventId, EventKind, EventModel, RefTag};
use crate::identity::keypair::{bytes_to_array32, PubKey};
use crate::storage::db::{answers, events_model, holds_id, Database, Query, RowModel};
use crate::event::validate::validation_failure;
use crate::network::node::NodeEvent;
use crate::network::sync::{after_incoming, process_incoming_event};

verus! {

/// Whether a peer is online.
pub struct NetworkStatus {
    pub online: bool,
    pub peer_count: u32,
    pub peers: Vec<PeerInfo>,
}

/// A connected peer.
pub struct PeerInfo {
    pub peer_id: String,
    pub display_name: Option<String>,
    pub connected_since: i64,
}

/// The value of hexadecimal digits, most significant first.
pub open spec fn hex_number(digits: Seq<u8>) -> nat
    decreases digits.len(),
{
    if digits.len() == 0 {
        0
    } else {
        hex_number(digits.drop_last()) * 16 + (hex_value(digits.last())->0) as nat
    }
}

/// What `u32::from_str_radix(text, 16)` gives for a short text: an optional
/// `+` sign followed by at least one hexadecimal digit (either case).
pub open spec fn parse_hex_u32(text: Seq<u8>) -> Option<nat> {
    let digits = if text.len() > 0 && text[0] == 43u8 { text.drop_first() } else { text };
    if all_hex(digits) {
        Some(hex_number(digits))
    } else {
        None
    }
}

/// The hue (0 to 359) derived from the first six bytes of a public key's
/// hex text; 0 when they do not parse.
pub open spec fn avatar_hue(pubkey_hex: Seq<u8>) -> nat {
    match parse_hex_u32(pubkey_hex.take(6)) {
        Some(v) => v % 360,
        None => 0,
    }
}

/// The CSS colour `hsl(H, 65%, 55%)`.
pub open spec fn hsl_text(hue: nat) -> Seq<char> {
    "hsl("@ + decimal_text(hue) + ", 65%, 55%)"@
}

/// Sixteen to the power `k`.
pub open spec fn pow16(k: nat) -> nat
    decreases k,
{
    if k == 0 {
        1
    } else {
        16 * pow16((k - 1) as nat)
    }
}

proof fn lemma_pow16_small(k: nat)
    requires
        k <= 6,
    ensures
        pow16(k) <= 16777216,
{
    reveal_with_fuel(pow16, 7);
    if k == 0 {
    } else if k == 1 {
    } else if k == 2 {
    } else if k == 3 {
    } else if k == 4 {
    } else if k == 5 {
    } else {
        assert(k == 6);
    }
}

proof fn lemma_next_digit_bound(value: nat, d: nat, k: nat)
    requires
        value < pow16(k),
        d < 16,
        k < 6,
    ensures
        value * 16 + d < pow16(k + 1),
        pow16(k + 1) <= 16777216,
{
    assert(pow16(k + 1) == 16 * pow16(k));
    lemma_pow16_small(k + 1);
    assert(value * 16 + d < pow16(k + 1)) by (nonlinear_arith)
        requires
            value < pow16(k),
            d < 16,
            pow16(k + 1) == 16 * pow16(k),
    ;
}

/// Hexadecimal digits are all valid (and there is at least one).
pub open spec fn all_hex(digits: Seq<u8>) -> bool {
    digits.len() > 0 && forall|i: int| 0 <= i < digits.len() ==> (#[trigger] hex_value(digits[i])) is Some
}

fn parse_hex_digits(d: &[u8]) -> (r: Option<u32>)
    requires
        d@.len() <= 6,
    ensures
        match r {
            Some(v) => all_hex(d@) && v as nat == hex_number(d@),
            None => !all_hex(d@),
        },
{
    if d.len() == 0 {
        return None;
    }
    let mut value: u32 = 0;
    let mut i: usize = 0;
    while i < d.len()
        invariant
            i <= d@.len() <= 6,
            forall|j: int| 0 <= j < i ==> (#[trigger] hex_value(d@[j])) is Some,
            value as nat == hex_number(d@.take(i as int)),
            (value as nat) < pow16(i as nat),
        decreases d@.len() - i,
    {
        let digit = match crate::encoding::hex_value_of(d[i]) {
            Some(x) => x,
            None => {
                return None;
            },
        };
        proof {
            let t = d@.take(i + 1);
            assert(t.drop_last() =~= d@.take(i as int));
            assert(t.last() == d@[i as int]);
            lemma_next_digit_bound(value as nat, digit as nat, i as nat);
        }
        value = value * 16 + digit as u32;
        i = i + 1;
    }
    proof {
        assert(d@.take(d@.len() as int) =~= d@);
    }
    Some(value)
}

fn parse_hex6(text: &[u8]) -> (r: Option<u32>)
    requires
        text@.len() == 6,
    ensures
        match r {
            Some(v) => parse_hex_u32(text@) == Some(v as nat),
            None => parse_hex_u32(text@) is None,
        },
{
    if text[0] == 43u8 {
        let rest = &text[1..6];
        proof {
            assert(rest@ =~= text@.drop_first());
        }
        parse_hex_digits(rest)
    } else {
        parse_hex_digits(text)
    }
}

/// Derive an avatar colour from a pubkey hex string: a hue from its first
/// six bytes read as hexadecimal (0 when they do not parse), as
/// `hsl(H, 65%, 55%)`.
pub fn avatar_colour_from_pubkey(pubkey_hex: &str) -> (s: String)
    requires
        pubkey_hex.spec_bytes().len() >= 6,
        is_char_boundary(pubkey_hex.spec_bytes(), 6),
    ensures
        s@ == hsl_text(avatar_hue(pubkey_hex.spec_bytes())),
{
    let (head, _) = pubkey_hex.split_at(6);
    let bytes = head.as_bytes();
    proof {
        assert(bytes@ =~= pubkey_hex.spec_bytes().take(6));
    }
    let hue: u32 = match parse_hex6(bytes) {
        Some(v) => v % 360,
        None => 0,
    };
    proof {
        reveal_strlit("hsl(");
        reveal_strlit(", 65%, 55%)");
    }
    let mut s = String::from_str("hsl(");
    push_decimal_text(&mut s, hue as u64);
    s.append(", 65%, 55%)");
    s
}


/// How long ago something happened, in the desktop's words.
pub open spec fn time_ago_text(diff: int) -> Seq<char> {
    if diff < 60 {
        "just now"@
    } else if diff < 3600 {
        decimal_text((diff / 60) as nat) + "m ago"@
    } else if diff < 86400 {
        decimal_text((diff / 3600) as nat) + "h ago"@
    } else {
        decimal_text((diff / 86400) as nat) + "d ago"@
    }
}

/// The age label by bands: under a minute it is "just now"; under an hour
/// it is the whole minutes (1 to 59) and "m ago"; under a day the whole
/// hours (1 to 23) and "h ago"; from a day on the whole days, at least
/// one, and "d ago".
pub proof fn lemma_time_ago_bands(diff: int)
    ensures
        diff < 60 ==> time_ago_text(diff) == "just now"@,
        60 <= diff < 3600 ==> exists|n: nat|
            1 <= n <= 59 && n * 60 <= diff < n * 60 + 60 && time_ago_text(diff) == #[trigger] decimal_text(n) + "m ago"@,
        3600 <= diff < 86400 ==> exists|n: nat|
            1 <= n <= 23 && n * 3600 <= diff < n * 3600 + 3600 && time_ago_text(diff) == #[trigger] decimal_text(n) + "h ago"@,
        86400 <= diff ==> exists|n: nat|
            1 <= n && n * 86400 <= diff < n * 86400 + 86400 && time_ago_text(diff) == #[trigger] decimal_text(n) + "d ago"@,
{
    if 60 <= diff < 3600 {
        let n = (diff / 60) as nat;
        assert(1 <= n <= 59 && n * 60 <= diff < n * 60 + 60);
        assert(time_ago_text(diff) == decimal_text(n) + "m ago"@);
    } else if 3600 <= diff < 86400 {
        let n = (diff / 3600) as nat;
        assert(1 <= n <= 23 && n * 3600 <= diff < n * 3600 + 3600);
        assert(time_ago_text(diff) == decimal_text(n) + "h ago"@);
    } else if 86400 <= diff {
        let n = (diff / 86400) as nat;
        assert(1 <= n && n * 86400 <= diff < n * 86400 + 86400);
        assert(time_ago_text(diff) == decimal_text(n) + "d ago"@);
    }
}

/// The text for a number of elapsed seconds.
pub fn time_ago_text_of(diff: i64) -> (s: String)
    ensures
        s@ == time_ago_text(diff as int),
        diff < 60 ==> s@ == "just now"@,
        60 <= diff < 3600 ==> exists|n: nat|
            1 <= n <= 59 && n * 60 <= diff < n * 60 + 60 && s@ == #[trigger] decimal_text(n) + "m ago"@,
        3600 <= diff < 86400 ==> exists|n: nat|
            1 <= n <= 23 && n * 3600 <= diff < n * 3600 + 3600 && s@ == #[trigger] decimal_text(n) + "h ago"@,
        86400 <= diff ==> exists|n: nat|
            1 <= n && n * 86400 <= diff < n * 86400 + 86400 && s@ == #[trigger] decimal_text(n) + "d ago"@,
{
    proof {
        lemma_time_ago_bands(diff as int);
    }
    if diff < 60 {
        String::from_str("just now")
    } else if diff < 3600 {
        let mut s = String::new();
        push_decimal_text(&mut s, (diff / 60) as u64);
        s.append("m ago");
        s
    } else if diff < 86400 {
        let mut s = String::new();
        push_decimal_text(&mut s, (diff / 3600) as u64);
        s.append("h ago");
        s
    } else {
        let mut s = String::new();
        push_decimal_text(&mut s, (diff / 86400) as u64);
        s.append("d ago");
        s
    }
}

/// The difference `now - then`, saturated to the range of `i64`.
pub open spec fn elapsed(then: i64, now: i64) -> int {
    if now - then > i64::MAX {
        i64::MAX as int
    } else if now - then < i64::MIN {
        i64::MIN as int
    } else {
        now - then
    }
}

fn elapsed_of(then: i64, now: i64) -> (d: i64)
    ensures
        d == elapsed(then, now),
{
    match now.checked_sub(then) {
        Some(d) => d,
        None => if now > then { i64::MAX } else { i64::MIN },
    }
}

/// How long ago a timestamp was, as of `now`.
pub fn time_ago_at(timestamp: i64, now: i64) -> (s: String)
    ensures
        s@ == time_ago_text(elapsed(timestamp, now)),
        elapsed(timestamp, now) < 60 ==> s@ == "just now"@,
        60 <= elapsed(timestamp, now) < 3600 ==> exists|n: nat|
            1 <= n <= 59 && n * 60 <= elapsed(timestamp, now) < n * 60 + 60 && s@ == #[trigger] decimal_text(n) + "m ago"@,
        3600 <= elapsed(timestamp, now) < 86400 ==> exists|n: nat|
            1 <= n <= 23 && n * 3600 <= elapsed(timestamp, now) < n * 3600 + 3600 && s@ == #[trigger] decimal_text(n) + "h ago"@,
        86400 <= elapsed(timestamp, now) ==> exists|n: nat|
            1 <= n && n * 86400 <= elapsed(timestamp, now) < n * 86400 + 86400 && s@ == #[trigger] decimal_text(n) + "d ago"@,
{
    time_ago_text_of(elapsed_of(timestamp, now))
}

/// How long ago a timestamp was, as of the current time.
pub fn format_time_ago(timestamp: i64) -> (s: String)
    ensures
        exists|now: i64| s@ == time_ago_text(elapsed(timestamp, now)),
{
    let now = unix_now();
    time_ago_at(timestamp, now)
}

/// Serializable event for the frontend.
pub struct EventDto {
    pub id: String,
    pub pubkey: String,
    pub pubkey_short: String,
    pub created_at: i64,
    pub kind: u8,
    pub kind_label: String,
    pub content: String,
    pub parent_id: Option<String>,
    pub thread_root_id: Option<String>,
    pub is_own: bool,
    pub time_ago: String,
}

/// The label the front end shows for each kind.
pub open spec fn kind_label_text(k: EventKind) -> Seq<char> {
    match k {
        EventKind::Post => "post"@,
        EventKind::Reply => "reply"@,
        EventKind::Repost => "repost"@,
        EventKind::Reaction => "reaction"@,
        EventKind::Correction => "correction"@,
        _ => "other"@,
    }
}

fn kind_label(k: EventKind) -> (s: String)
    ensures
        s@ == kind_label_text(k),
{
    match k {
        EventKind::Post => String::from_str("post"),
        EventKind::Reply => String::from_str("reply"),
        EventKind::Repost => String::from_str("repost"),
        EventKind::Reaction => String::from_str("reaction"),
        EventKind::Correction => String::from_str("correction"),
        _ => String::from_str("other"),
    }
}

/// The hex text of an optional id.
pub open spec fn opt_hex(id: Option<Seq<u8>>) -> Option<Seq<char>> {
    match id {
        Some(b) => Some(hex_of(b)),
        None => None,
    }
}

/// The view of an optional string.
pub open spec fn opt_text(s: Option<String>) -> Option<Seq<char>> {
    match s {
        Some(t) => Some(t@),
        None => None,
    }
}

/// The front end's view of an event, as of `now`.
pub fn event_to_dto_at(event: &Event, own_pubkey: &str, now: i64) -> (dto: EventDto)
    ensures
        dto.id@ == hex_of(event@.id),
        dto.pubkey@ == hex_of(event@.pubkey),
        dto.pubkey_short@ == hex_of(event@.pubkey).take(16) + seq!['…'],
        dto.created_at == event@.created_at,
        dto.kind == kind_number(event@.kind),
        dto.kind_label@ == kind_label_text(event@.kind),
        dto.content@ == event@.content,
        opt_text(dto.parent_id) == opt_hex(first_ref(event@.tags, RefTag::Parent)),
        opt_text(dto.thread_root_id) == opt_hex(first_ref(event@.tags, RefTag::ThreadRoot)),
        dto.is_own == (hex_of(event@.pubkey) == own_pubkey@),
        dto.time_ago@ == time_ago_text(elapsed(event@.created_at, now)),
{
    let pubkey = event.pubkey.to_hex();
    let own = String::from_str(own_pubkey);
    let is_own = pubkey == own;
    let parent_id = match event.parent_id() {
        Some(p) => Some(crate::encoding::hex_encode(p)),
        None => None,
    };
    let thread_root_id = match event.thread_root_id() {
        Some(r) => Some(crate::encoding::hex_encode(r)),
        None => None,
    };
    EventDto {
        id: event.id_hex(),
        pubkey,
        pubkey_short: event.pubkey.short(),
        created_at: event.created_at,
        kind: event.kind.as_u8(),
        kind_label: kind_label(event.kind),
        content: event.content.clone(),
        parent_id,
        thread_root_id,
        is_own,
        time_ago: time_ago_at(event.created_at, now),
    }
}

/// The front end's view of an event, as of the current time.
pub fn event_to_dto(event: &Event, own_pubkey: &str) -> (dto: EventDto)
    ensures
        dto.id@ == hex_of(event@.id),
        dto.pubkey@ == hex_of(event@.pubkey),
        dto.pubkey_short@ == hex_of(event@.pubkey).take(16) + seq!['…'],
        dto.created_at == event@.created_at,
        dto.kind == kind_number(event@.kind),
        dto.kind_label@ == kind_label_text(event@.kind),
        dto.content@ == event@.content,
        opt_text(dto.parent_id) == opt_hex(first_ref(event@.tags, RefTag::Parent)),
        opt_text(dto.thread_root_id) == opt_hex(first_ref(event@.tags, RefTag::ThreadRoot)),
        dto.is_own == (hex_of(event@.pubkey) == own_pubkey@),
        exists|now: i64| dto.time_ago@ == time_ago_text(elapsed(event@.created_at, now)),
{
    let now = unix_now();
    event_to_dto_at(event, own_pubkey, now)
}

/// Every index of the UTF-8 bytes of ASCII text is a character boundary.
proof fn lemma_ascii_char_boundary(chars: Seq<char>, k: int)
    requires
        is_ascii_chars(chars),
        0 <= k <= chars.len(),
    ensures
        encode_utf8(chars).len() == chars.len(),
        is_char_boundary(encode_utf8(chars), k),
{
    let bytes = encode_utf8(chars);
    is_ascii_chars_encode_utf8(chars);
    encode_utf8_valid_utf8(chars);
    if k == chars.len() {
        is_char_boundary_start_end_of_seq(bytes);
    } else {
        is_char_boundary_iff_not_is_continuation_byte(bytes, k);
        assert(chars[k] as u8 == bytes[k]);
        assert((chars[k] as u32) < 128);
    }
}

/// The text made of the first `k` bytes of a string.
fn byte_prefix(s: &str, k: usize) -> (p: String)
    requires
        k <= s.spec_bytes().len(),
        is_char_boundary(s.spec_bytes(), k as int),
    ensures
        p@ == decode_utf8(s.spec_bytes().take(k as int)),
{
    let (head, _) = s.split_at(k);
    proof {
        encode_utf8_decode_utf8(head@);
        assert(head.spec_bytes() =~= s.spec_bytes().take(k as int));
    }
    String::from_str(head)
}

/// A profile as the front end shows it (its temperature, a float, is
/// added by the front end).
pub struct ProfileInfo {
    pub pubkey: String,
    pub name: String,
    pub bio: String,
    pub post_count: u32,
    pub joined_at: i64,
    pub is_following: bool,
    pub is_blocked: bool,
    pub is_online: bool,
    pub avatar_colour: String,
}

/// A post as the front end shows it (its temperature, a float, is added by
/// the front end).
pub struct PostInfo {
    pub id: String,
    pub author: ProfileInfo,
    pub content: String,
    pub created_at: i64,
    pub reply_count: u32,
    pub repost_count: u32,
    pub reaction_count: u32,
    pub is_reply: bool,
    pub parent_id: Option<String>,
    pub has_reacted: bool,
    pub has_reposted: bool,
}

/// How the front end names an author: "You" for the local identity, else the
/// first eight hex digits of the key and an ellipsis.
pub open spec fn author_name_text(author_hex: Seq<char>, own_hex: Seq<char>) -> Seq<char> {
    if author_hex == own_hex {
        "You"@
    } else {
        author_hex.take(8) + seq!['…']
    }
}

/// The avatar colour of an author, from the hex text of the key.
pub open spec fn author_colour(pubkey: Seq<u8>) -> Seq<char> {
    hsl_text(avatar_hue(encode_utf8(hex_of(pubkey))))
}

/// `p` is what the front end shows of the post `e` when the local key's
/// hex text is `own_hex` and the store holds `rows`: its id and content, the
/// author named and coloured from the key, the number of stored direct
/// replies, whether it is a reply and what it replies to; the counters and
/// flags not yet kept are zero and false.
pub open spec fn post_info_holds(p: PostInfo, e: EventModel, own_hex: Seq<char>, rows: Seq<RowModel>) -> bool {
    &&& p.id@ == hex_of(e.id)
    &&& p.author.pubkey@ == hex_of(e.pubkey)
    &&& p.author.name@ == author_name_text(hex_of(e.pubkey), own_hex)
    &&& p.author.bio@ == Seq::<char>::empty()
    &&& p.author.post_count == 0
    &&& p.author.joined_at == e.created_at
    &&& !p.author.is_following && !p.author.is_blocked && !p.author.is_online
    &&& p.author.avatar_colour@ == author_colour(e.pubkey)
    &&& p.content@ == e.content
    &&& p.created_at == e.created_at
    &&& exists|replies: Seq<EventModel>|
        answers(rows, Query::RepliesTo(e.id), false, rows.len() as int, replies)
            && p.reply_count == replies.len() as u32
    &&& p.repost_count == 0 && p.reaction_count == 0
    &&& p.is_reply == (e.kind == EventKind::Reply)
    &&& opt_text(p.parent_id) == opt_hex(first_ref(e.tags, RefTag::Parent))
    &&& !p.has_reacted && !p.has_reposted
}

/// Convert an event to what the front end shows of a post, counting its
/// stored direct replies.
pub fn event_to_post_info(event: &Event, own_pubkey_hex: &str, db: &Database) -> (p: PostInfo)
    ensures
        post_info_holds(p, event@, own_pubkey_hex@, db@),
{
    let author_hex = event.pubkey.to_hex();
    let own = String::from_str(own_pubkey_hex);
    let is_own = author_hex == own;
    proof {
        crate::identity::keypair::lemma_hex_is_ascii(event@.pubkey);
        crate::encoding::lemma_hex_of_len(event@.pubkey);
        lemma_ascii_char_boundary(author_hex@, 6);
    }
    let name = if is_own {
        String::from_str("You")
    } else {
        short_form(&author_hex, 8)
    };
    proof {
        reveal_strlit("You");
    }
    let avatar_colour = avatar_colour_from_pubkey(author_hex.as_str());
    let reply_count: u32 = match db.get_replies(&event.id) {
        Ok(r) => {
            proof {
                let found = events_model(r@);
                assert(found.len() == r@.len());
                assert(answers(db@, Query::RepliesTo(event@.id), false, db@.len() as int, found));
            }
            r.len() as u32
        },
        Err(_) => 0,
    };
    let parent_id = match event.parent_id() {
        Some(pid) => Some(crate::encoding::hex_encode(pid)),
        None => None,
    };
    let author = ProfileInfo {
        pubkey: author_hex,
        name,
        bio: String::new(),
        post_count: 0,
        joined_at: event.created_at,
        is_following: false,
        is_blocked: false,
        is_online: false,
        avatar_colour,
    };
    PostInfo {
        id: event.id_hex(),
        author,
        content: event.content.clone(),
        created_at: event.created_at,
        reply_count,
        repost_count: 0,
        reaction_count: 0,
        is_reply: event.kind == EventKind::Reply,
        parent_id,
        has_reacted: false,
        has_reposted: false,
    }
}

/// What the front end shows of another user's profile: a name from the
/// first eight bytes of the key text, and the number of stored events by
/// the key (at most a thousand) when the text is a valid key.
pub fn profile_info(pubkey: &str, db: &Database) -> (p: ProfileInfo)
    requires
        pubkey.spec_bytes().len() >= 8,
        is_char_boundary(pubkey.spec_bytes(), 6),
        is_char_boundary(pubkey.spec_bytes(), 8),
    ensures
        p.pubkey@ == pubkey@,
        p.name@ == decode_utf8(pubkey.spec_bytes().take(8)) + seq!['…'],
        p.bio@ == Seq::<char>::empty(),
        match hex_decode_of(pubkey.spec_bytes()) {
            Some(b) if b.len() == 32 => exists|found: Seq<EventModel>|
                answers(db@, Query::ByAuthor { pubkey: b, since: 0 }, true, 1000, found)
                    && p.post_count == found.len() as u32,
            _ => p.post_count == 0,
        },
        p.joined_at == 0,
        !p.is_following && !p.is_blocked && !p.is_online,
        p.avatar_colour@ == hsl_text(avatar_hue(pubkey.spec_bytes())),
{
    let post_count: u32 = match PubKey::from_hex(pubkey) {
        Ok(pk) => match db.get_events_by_pubkey(&pk, 0, 1000) {
            Ok(v) => {
                proof {
                    let found = events_model(v@);
                    assert(found.len() == v@.len());
                    assert(answers(db@, Query::ByAuthor { pubkey: pk.0@, since: 0 }, true, 1000, found));
                }
                v.len() as u32
            },
            Err(_) => 0,
        },
        Err(_) => 0,
    };
    let mut name = byte_prefix(pubkey, 8);
    proof {
        reveal_strlit("…");
    }
    name.append("…");
    ProfileInfo {
        pubkey: String::from_str(pubkey),
        name,
        bio: String::new(),
        post_count,
        joined_at: 0,
        is_following: false,
        is_blocked: false,
        is_online: false,
        avatar_colour: avatar_colour_from_pubkey(pubkey),
    }
}

/// An event id as the front end writes it: 64 hex digits of either case.
pub fn parse_event_id(text: &str) -> (r: Option<EventId>)
    ensures
        match r {
            Some(id) => hex_decode_of(text.spec_bytes()) == Some(id@),
            None => !(hex_decode_of(text.spec_bytes()) matches Some(b) && b.len() == 32),
        },
{
    match hex_decode(text.as_bytes()) {
        Some(v) => {
            if v.len() == 32 {
                Some(bytes_to_array32(v.as_slice()))
            } else {
                None
            }
        },
        None => None,
    }
}

/// What the front end shows of a list of events, one post each, in order.
fn posts_of(events: &Vec<Event>, own_pubkey_hex: &str, db: &Database) -> (posts: Vec<PostInfo>)
    ensures
        posts@.len() == events@.len(),
        forall|i: int| 0 <= i < events@.len() ==> post_info_holds(#[trigger] posts@[i], events@[i]@, own_pubkey_hex@, db@),
{
    let mut posts: Vec<PostInfo> = Vec::new();
    let mut i: usize = 0;
    while i < events.len()
        invariant
            i <= events@.len(),
            posts@.len() == i,
            forall|j: int| 0 <= j < i ==> post_info_holds(#[trigger] posts@[j], events@[j]@, own_pubkey_hex@, db@),
        decreases events@.len() - i,
    {
        posts.push(event_to_post_info(&events[i], own_pubkey_hex, db));
        i = i + 1;
    }
    posts
}

/// The feed of top-level posts, newest first, at most `limit` of them.
pub fn post_feed(db: &Database, own_pubkey_hex: &str, limit: u32) -> (feed: Vec<PostInfo>)
    ensures
        exists|events: Seq<EventModel>|
            answers(db@, Query::Posts, true, limit as int, events) && feed@.len() == events.len()
                && forall|i: int| 0 <= i < events.len() ==> post_info_holds(#[trigger] feed@[i], events[i], own_pubkey_hex@, db@),
{
    match db.get_posts(limit) {
        Ok(events) => {
            let feed = posts_of(&events, own_pubkey_hex, db);
            proof {
                let m = events_model(events@);
                assert(answers(db@, Query::Posts, true, limit as int, m));
                assert forall|i: int| 0 <= i < m.len() implies post_info_holds(#[trigger] feed@[i], m[i], own_pubkey_hex@, db@) by {
                    assert(m[i] == events@[i]@);
                }
            }
            feed
        },
        Err(_) => Vec::new(),
    }
}

/// A thread as the front end shows it: the root and its replies, oldest
/// first, or `None` when the root is not stored.
pub fn thread_posts(db: &Database, own_pubkey_hex: &str, root_id: &EventId) -> (t: Option<(PostInfo, Vec<PostInfo>)>)
    ensures
        t is None <==> !holds_id(db@, root_id@),
        t matches Some((root, replies)) ==> {
            &&& exists|i: int| 0 <= i < db@.len() && db@[i].event.id == root_id@
                && post_info_holds(root, db@[i].event, own_pubkey_hex@, db@)
            &&& exists|events: Seq<EventModel>|
                answers(db@, Query::InThread(root_id@), false, db@.len() as int, events) && replies@.len() == events.len()
                    && forall|i: int| 0 <= i < events.len() ==> post_info_holds(#[trigger] replies@[i], events[i], own_pubkey_hex@, db@)
        },
{
    match db.get_thread(root_id) {
        Ok((root, replies)) => match root {
            Some(root) => {
                let root_info = event_to_post_info(&root, own_pubkey_hex, db);
                let reply_infos = posts_of(&replies, own_pubkey_hex, db);
                proof {
                    let m = events_model(replies@);
                    assert(answers(db@, Query::InThread(root_id@), false, db@.len() as int, m));
                    assert forall|i: int| 0 <= i < m.len() implies post_info_holds(#[trigger] reply_infos@[i], m[i], own_pubkey_hex@, db@) by {
                        assert(m[i] == replies@[i]@);
                    }
                    let i = choose|i: int| 0 <= i < db@.len() && db@[i].event.id == root_id@ && root@ == db@[i].event;
                    assert(post_info_holds(root_info, db@[i].event, own_pubkey_hex@, db@));
                }
                Some((root_info, reply_infos))
            },
            None => None,
        },
        Err(_) => None,
    }
}

/// The peer count the desktop shows after a network notice: one more for
/// a new peer, one fewer (never below zero) for a lost one, the reported
/// number (its low 32 bits) when the node reports a count.
pub open spec fn peer_count_after_spec(count: u32, event: NodeEvent) -> u32 {
    match event {
        NodeEvent::PeerDiscovered(_) => (count + 1) as u32,
        NodeEvent::PeerLost(_) => if count > 0 { (count - 1) as u32 } else { 0 },
        NodeEvent::PeerCountChanged(n) => n as u32,
        _ => count,
    }
}

/// Update the peer count for a network notice.
pub fn peer_count_after(count: u32, event: &NodeEvent) -> (n: u32)
    requires
        event is PeerDiscovered ==> count < u32::MAX,
    ensures
        n == peer_count_after_spec(count, *event),
{
    match event {
        NodeEvent::PeerDiscovered(_) => count + 1,
        NodeEvent::PeerLost(_) => if count > 0 { count - 1 } else { 0 },
        NodeEvent::PeerCountChanged(n) => *n as u32,
        _ => count,
    }
}

/// Take in an event from the network for the desktop: a valid event not yet
/// stored is cached, and what the front end shows of it is returned;
/// anything else is dropped.
pub fn take_in_event(db: &mut Database, event: &Event, own_pubkey_hex: &str) -> (p: Option<PostInfo>)
    ensures
        final(db)@ == after_incoming(old(db)@, event@),
        p is Some <==> (!holds_id(old(db)@, event@.id) && validation_failure(event@) is None),
        p matches Some(info) ==> post_info_holds(info, event@, own_pubkey_hex@, final(db)@),
{
    match process_incoming_event(db, event) {
        Ok(true) => Some(event_to_post_info(event, own_pubkey_hex, db)),
        _ => None,
    }
}

} // verus!
