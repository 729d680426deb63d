//! The universal event envelope and its parts.

use vstd::prelude::*;
use crate::encoding::{hex_encode, hex_of, lemma_hex_of_len};
use crate::identity::keypair::PubKey;

verus! {

/// SHA-256 hash used as event identifier.
pub type EventId = [u8; 32];

/// Maximum content length for posts (in characters).
pub const MAX_POST_LENGTH: usize = 500;

/// Event types in the Murmur protocol.
#[derive(Debug, Clone, Copy, PartialEq, Eq, Structural)]
pub enum EventKind {
    Registration,
    Post,
    Reply,
    Repost,
    Reaction,
    Profile,
    Follow,
    Unfollow,
    Block,
    Correction,
}

/// The wire number of each event kind.
pub open spec fn kind_number(k: EventKind) -> u8 {
    match k {
        EventKind::Registration => 0,
        EventKind::Post => 1,
        EventKind::Reply => 2,
        EventKind::Repost => 3,
        EventKind::Reaction => 4,
        EventKind::Profile => 5,
        EventKind::Follow => 6,
        EventKind::Unfollow => 7,
        EventKind::Block => 8,
        EventKind::Correction => 9,
    }
}

/// The event kind with a given wire number, if there is one.
pub open spec fn kind_of_number(v: u8) -> Option<EventKind> {
    if v == 0 {
        Some(EventKind::Registration)
    } else if v == 1 {
        Some(EventKind::Post)
    } else if v == 2 {
        Some(EventKind::Reply)
    } else if v == 3 {
        Some(EventKind::Repost)
    } else if v == 4 {
        Some(EventKind::Reaction)
    } else if v == 5 {
        Some(EventKind::Profile)
    } else if v == 6 {
        Some(EventKind::Follow)
    } else if v == 7 {
        Some(EventKind::Unfollow)
    } else if v == 8 {
        Some(EventKind::Block)
    } else if v == 9 {
        Some(EventKind::Correction)
    } else {
        None
    }
}

impl EventKind {
    pub fn as_u8(&self) -> (v: u8)
        ensures
            v == kind_number(*self),
    {
        match self {
            EventKind::Registration => 0,
            EventKind::Post => 1,
            EventKind::Reply => 2,
            EventKind::Repost => 3,
            EventKind::Reaction => 4,
            EventKind::Profile => 5,
            EventKind::Follow => 6,
            EventKind::Unfollow => 7,
            EventKind::Block => 8,
            EventKind::Correction => 9,
        }
    }

    pub fn from_u8(v: u8) -> (k: Option<Self>)
        ensures
            k == kind_of_number(v),
    {
        match v {
            0 => Some(EventKind::Registration),
            1 => Some(EventKind::Post),
            2 => Some(EventKind::Reply),
            3 => Some(EventKind::Repost),
            4 => Some(EventKind::Reaction),
            5 => Some(EventKind::Profile),
            6 => Some(EventKind::Follow),
            7 => Some(EventKind::Unfollow),
            8 => Some(EventKind::Block),
            9 => Some(EventKind::Correction),
            _ => None,
        }
    }
}

/// Wire numbers and kinds correspond one to one: decoding the number of a
/// kind gives the kind back, and a number decodes exactly when it is at most 9,
/// to a kind whose number it is.
pub proof fn lemma_kind_number_roundtrip(k: EventKind, v: u8)
    ensures
        kind_of_number(kind_number(k)) == Some(k),
        kind_of_number(v) is Some <==> v <= 9,
        kind_of_number(v) matches Some(k2) ==> kind_number(k2) == v,
{
}

/// Metadata tags attached to events.
#[derive(Debug)]
pub enum Tag {
    /// For replies: which event is this replying to
    ParentId(EventId),
    /// For nested replies: the original post in the thread
    ThreadRootId(EventId),
    /// For corrections: which event is being amended
    CorrectsId(EventId),
    /// Optional hashtag/topic
    Topic(String),
    /// Mentioned user
    Mention(PubKey),
    /// Embedded link
    Url(String),
}

/// The mathematical value of a tag.
pub enum TagModel {
    ParentId(Seq<u8>),
    ThreadRootId(Seq<u8>),
    CorrectsId(Seq<u8>),
    Topic(Seq<char>),
    Mention(Seq<u8>),
    Url(Seq<char>),
}

impl View for Tag {
    type V = TagModel;

    open spec fn view(&self) -> TagModel {
        match self {
            Tag::ParentId(id) => TagModel::ParentId(id@),
            Tag::ThreadRootId(id) => TagModel::ThreadRootId(id@),
            Tag::CorrectsId(id) => TagModel::CorrectsId(id@),
            Tag::Topic(s) => TagModel::Topic(s@),
            Tag::Mention(pk) => TagModel::Mention(pk.0@),
            Tag::Url(s) => TagModel::Url(s@),
        }
    }
}

impl Clone for Tag {
    fn clone(&self) -> (t: Self)
        ensures
            t@ == self@,
    {
        match self {
            Tag::ParentId(id) => Tag::ParentId(*id),
            Tag::ThreadRootId(id) => Tag::ThreadRootId(*id),
            Tag::CorrectsId(id) => Tag::CorrectsId(*id),
            Tag::Topic(s) => Tag::Topic(s.clone()),
            Tag::Mention(pk) => Tag::Mention(PubKey(pk.0)),
            Tag::Url(s) => Tag::Url(s.clone()),
        }
    }
}

/// Which of the three event-reference tags a lookup is after.
pub enum RefTag {
    Parent,
    ThreadRoot,
    Corrects,
}

/// The event id a tag carries, when it is a reference of the given sort.
pub open spec fn tag_ref(t: TagModel, which: RefTag) -> Option<Seq<u8>> {
    match (t, which) {
        (TagModel::ParentId(id), RefTag::Parent) => Some(id),
        (TagModel::ThreadRootId(id), RefTag::ThreadRoot) => Some(id),
        (TagModel::CorrectsId(id), RefTag::Corrects) => Some(id),
        _ => None,
    }
}

/// The id carried by the first tag of the given sort, if any.
pub open spec fn first_ref(tags: Seq<TagModel>, which: RefTag) -> Option<Seq<u8>>
    decreases tags.len(),
{
    if tags.len() == 0 {
        None
    } else if tag_ref(tags[0], which) is Some {
        tag_ref(tags[0], which)
    } else {
        first_ref(tags.drop_first(), which)
    }
}

/// The view of a list of tags.
pub open spec fn tags_model(tags: Seq<Tag>) -> Seq<TagModel> {
    tags.map_values(|t: Tag| t@)
}

/// The universal event envelope — every piece of data on the network is an Event.
#[derive(Debug)]
pub struct Event {
    /// SHA-256 hash of the canonical serialized content
    pub id: EventId,
    /// Author's public key
    pub pubkey: PubKey,
    /// Unix timestamp (seconds)
    pub created_at: i64,
    /// What type of event this is
    pub kind: EventKind,
    /// Payload (max 500 chars for posts)
    pub content: String,
    /// Optional metadata tags
    pub tags: Vec<Tag>,
    /// Ed25519 signature of the id
    pub sig: [u8; 64],
}

/// The mathematical value of an event.
pub struct EventModel {
    pub id: Seq<u8>,
    pub pubkey: Seq<u8>,
    pub created_at: i64,
    pub kind: EventKind,
    pub content: Seq<char>,
    pub tags: Seq<TagModel>,
    pub sig: Seq<u8>,
}

impl View for Event {
    type V = EventModel;

    open spec fn view(&self) -> EventModel {
        EventModel {
            id: self.id@,
            pubkey: self.pubkey.0@,
            created_at: self.created_at,
            kind: self.kind,
            content: self.content@,
            tags: tags_model(self.tags@),
            sig: self.sig@,
        }
    }
}

/// Whether two 32-byte identifiers are equal.
pub fn ids_equal(a: &[u8; 32], b: &[u8; 32]) -> (eq: bool)
    ensures
        eq == (a@ == b@),
{
    let mut i: usize = 0;
    while i < 32
        invariant
            i <= 32,
            forall|j: int| 0 <= j < i ==> a@[j] == b@[j],
        decreases 32 - i,
    {
        if a[i] != b[i] {
            return false;
        }
        i = i + 1;
    }
    proof {
        assert(a@ =~= b@);
    }
    true
}

/// Copy a list of tags.
pub fn clone_tags(tags: &Vec<Tag>) -> (out: Vec<Tag>)
    ensures
        tags_model(out@) == tags_model(tags@),
{
    let mut out: Vec<Tag> = Vec::new();
    let mut i: usize = 0;
    while i < tags.len()
        invariant
            i <= tags@.len(),
            out@.len() == i,
            forall|j: int| 0 <= j < i ==> (#[trigger] out@[j])@ == tags@[j]@,
        decreases tags@.len() - i,
    {
        out.push(tags[i].clone());
        i = i + 1;
    }
    proof {
        assert(tags_model(out@) =~= tags_model(tags@));
    }
    out
}

impl Clone for Event {
    fn clone(&self) -> (e: Self)
        ensures
            e@ == self@,
    {
        Event {
            id: self.id,
            pubkey: PubKey(self.pubkey.0),
            created_at: self.created_at,
            kind: self.kind,
            content: self.content.clone(),
            tags: clone_tags(&self.tags),
            sig: self.sig,
        }
    }
}

/// Find the first reference tag of the given sort.
fn find_ref<'a>(tags: &'a Vec<Tag>, which: RefTag) -> (r: Option<&'a EventId>)
    ensures
        match r {
            Some(id) => first_ref(tags_model(tags@), which) == Some(id@),
            None => first_ref(tags_model(tags@), which) is None,
        },
{
    let mut i: usize = 0;
    proof {
        assert(tags_model(tags@).skip(0) =~= tags_model(tags@));
    }
    while i < tags.len()
        invariant
            i <= tags@.len(),
            first_ref(tags_model(tags@), which) == first_ref(tags_model(tags@).skip(i as int), which),
        decreases tags@.len() - i,
    {
        proof {
            let m = tags_model(tags@);
            assert(m.skip(i as int).drop_first() =~= m.skip(i + 1));
            assert(m.skip(i as int)[0] == tags@[i as int]@);
        }
        match (&tags[i], &which) {
            (Tag::ParentId(id), RefTag::Parent) => { return Some(id); },
            (Tag::ThreadRootId(id), RefTag::ThreadRoot) => { return Some(id); },
            (Tag::CorrectsId(id), RefTag::Corrects) => { return Some(id); },
            _ => {},
        }
        i = i + 1;
    }
    proof {
        assert(tags_model(tags@).skip(i as int).len() == 0);
    }
    None
}

impl Event {
    /// Get the parent event ID if this is a reply.
    pub fn parent_id(&self) -> (r: Option<&EventId>)
        ensures
            match r {
                Some(id) => first_ref(self@.tags, RefTag::Parent) == Some(id@),
                None => first_ref(self@.tags, RefTag::Parent) is None,
            },
    {
        find_ref(&self.tags, RefTag::Parent)
    }

    /// Get the thread root ID if present.
    pub fn thread_root_id(&self) -> (r: Option<&EventId>)
        ensures
            match r {
                Some(id) => first_ref(self@.tags, RefTag::ThreadRoot) == Some(id@),
                None => first_ref(self@.tags, RefTag::ThreadRoot) is None,
            },
    {
        find_ref(&self.tags, RefTag::ThreadRoot)
    }

    /// Get the ID this event corrects, if any.
    pub fn corrects_id(&self) -> (r: Option<&EventId>)
        ensures
            match r {
                Some(id) => first_ref(self@.tags, RefTag::Corrects) == Some(id@),
                None => first_ref(self@.tags, RefTag::Corrects) is None,
            },
    {
        find_ref(&self.tags, RefTag::Corrects)
    }

    /// Get the hex representation of the event ID.
    pub fn id_hex(&self) -> (s: String)
        ensures
            s@ == hex_of(self.id@),
    {
        hex_encode(&self.id)
    }

    /// Short display form of the event ID: its first 12 hex digits and an ellipsis.
    pub fn id_short(&self) -> (s: String)
        ensures
            s@ == hex_of(self.id@).take(12) + seq!['…'],
    {
        let full = self.id_hex();
        proof {
            lemma_hex_of_len(self.id@);
        }
        short_form(&full, 12)
    }
}

/// The first `n` characters of a string followed by an ellipsis.
pub fn short_form(full: &String, n: usize) -> (s: String)
    requires
        n <= full@.len(),
    ensures
        s@ == full@.take(n as int) + seq!['…'],
{
    let prefix = full.as_str().substring_char(0, n);
    let mut s = String::from_str(prefix);
    proof {
        reveal_strlit("…");
    }
    s.append("…");
    proof {
        assert(full@.subrange(0, n as int) =~= full@.take(n as int));
    }
    s
}

} // verus!
