//! Fluent API for constructing events.
//!
//! Usage:
//!   let event = EventBuilder::post("hello world").sign(&identity);
//!   let reply = EventBuilder::reply("nice!", parent_id).sign(&identity);

use vstd::prelude::*;
use vstd::string::*;
use crate::clock::unix_now;
use crate::crypto::{ed25519_public_key, ed25519_signature, ed25519_verifies};
use crate::event::serialize::{compute_event_id, event_id_of};
use crate::event::types::{tags_model, Event, EventId, EventKind, Tag, TagModel};
use crate::identity::keypair::{Identity, PubKey};

verus! {

pub struct EventBuilder {
    kind: EventKind,
    content: String,
    tags: Vec<Tag>,
    timestamp: Option<i64>,
}

/// The mathematical value of a builder.
pub struct BuilderModel {
    pub kind: EventKind,
    pub content: Seq<char>,
    pub tags: Seq<TagModel>,
    pub timestamp: Option<i64>,
}

impl View for EventBuilder {
    type V = BuilderModel;

    closed spec fn view(&self) -> BuilderModel {
        BuilderModel {
            kind: self.kind,
            content: self.content@,
            tags: tags_model(self.tags@),
            timestamp: self.timestamp,
        }
    }
}

impl EventBuilder {
    /// Create a new top-level post.
    pub fn post(content: &str) -> (b: Self)
        ensures
            b@ == (BuilderModel { kind: EventKind::Post, content: content@, tags: seq![], timestamp: None }),
    {
        let b = EventBuilder { kind: EventKind::Post, content: String::from_str(content), tags: Vec::new(), timestamp: None };
        proof {
            assert(tags_model(b.tags@) =~= seq![]);
        }
        b
    }

    /// Create a reply to an existing event.
    pub fn reply(content: &str, parent_id: EventId) -> (b: Self)
        ensures
            b@ == (BuilderModel {
                kind: EventKind::Reply,
                content: content@,
                tags: seq![TagModel::ParentId(parent_id@)],
                timestamp: None,
            }),
    {
        let mut tags: Vec<Tag> = Vec::new();
        tags.push(Tag::ParentId(parent_id));
        let b = EventBuilder { kind: EventKind::Reply, content: String::from_str(content), tags, timestamp: None };
        proof {
            assert(tags_model(b.tags@) =~= seq![TagModel::ParentId(parent_id@)]);
        }
        b
    }

    /// Create a reply with a thread root reference (for nested replies).
    pub fn reply_in_thread(content: &str, parent_id: EventId, root_id: EventId) -> (b: Self)
        ensures
            b@ == (BuilderModel {
                kind: EventKind::Reply,
                content: content@,
                tags: seq![TagModel::ParentId(parent_id@), TagModel::ThreadRootId(root_id@)],
                timestamp: None,
            }),
    {
        let mut tags: Vec<Tag> = Vec::new();
        tags.push(Tag::ParentId(parent_id));
        tags.push(Tag::ThreadRootId(root_id));
        let b = EventBuilder { kind: EventKind::Reply, content: String::from_str(content), tags, timestamp: None };
        proof {
            assert(tags_model(b.tags@) =~= seq![TagModel::ParentId(parent_id@), TagModel::ThreadRootId(root_id@)]);
        }
        b
    }

    /// Create a repost (amplification) of another event.
    pub fn repost(event_id: EventId) -> (b: Self)
        ensures
            b@ == (BuilderModel {
                kind: EventKind::Repost,
                content: seq![],
                tags: seq![TagModel::ParentId(event_id@)],
                timestamp: None,
            }),
    {
        let mut tags: Vec<Tag> = Vec::new();
        tags.push(Tag::ParentId(event_id));
        let b = EventBuilder { kind: EventKind::Repost, content: String::new(), tags, timestamp: None };
        proof {
            assert(tags_model(b.tags@) =~= seq![TagModel::ParentId(event_id@)]);
        }
        b
    }

    /// Create a reaction to an event.
    pub fn reaction(event_id: EventId, emoji: &str) -> (b: Self)
        ensures
            b@ == (BuilderModel {
                kind: EventKind::Reaction,
                content: emoji@,
                tags: seq![TagModel::ParentId(event_id@)],
                timestamp: None,
            }),
    {
        let mut tags: Vec<Tag> = Vec::new();
        tags.push(Tag::ParentId(event_id));
        let b = EventBuilder { kind: EventKind::Reaction, content: String::from_str(emoji), tags, timestamp: None };
        proof {
            assert(tags_model(b.tags@) =~= seq![TagModel::ParentId(event_id@)]);
        }
        b
    }

    /// Create a correction of a previous post.
    pub fn correction(content: &str, corrects_id: EventId) -> (b: Self)
        ensures
            b@ == (BuilderModel {
                kind: EventKind::Correction,
                content: content@,
                tags: seq![TagModel::CorrectsId(corrects_id@)],
                timestamp: None,
            }),
    {
        let mut tags: Vec<Tag> = Vec::new();
        tags.push(Tag::CorrectsId(corrects_id));
        let b = EventBuilder { kind: EventKind::Correction, content: String::from_str(content), tags, timestamp: None };
        proof {
            assert(tags_model(b.tags@) =~= seq![TagModel::CorrectsId(corrects_id@)]);
        }
        b
    }

    /// Add a topic tag.
    pub fn topic(self, topic: &str) -> (b: Self)
        ensures
            b@ == (BuilderModel { tags: self@.tags.push(TagModel::Topic(topic@)), ..self@ }),
    {
        let mut s = self;
        let ghost old_tags = s.tags@;
        s.tags.push(Tag::Topic(String::from_str(topic)));
        proof {
            assert(tags_model(s.tags@) =~= tags_model(old_tags).push(TagModel::Topic(topic@)));
        }
        s
    }

    /// Add a mention.
    pub fn mention(self, pubkey: PubKey) -> (b: Self)
        ensures
            b@ == (BuilderModel { tags: self@.tags.push(TagModel::Mention(pubkey.0@)), ..self@ }),
    {
        let mut s = self;
        let ghost old_tags = s.tags@;
        s.tags.push(Tag::Mention(pubkey));
        proof {
            assert(tags_model(s.tags@) =~= tags_model(old_tags).push(TagModel::Mention(pubkey.0@)));
        }
        s
    }

    /// Add a URL tag.
    pub fn url(self, url: &str) -> (b: Self)
        ensures
            b@ == (BuilderModel { tags: self@.tags.push(TagModel::Url(url@)), ..self@ }),
    {
        let mut s = self;
        let ghost old_tags = s.tags@;
        s.tags.push(Tag::Url(String::from_str(url)));
        proof {
            assert(tags_model(s.tags@) =~= tags_model(old_tags).push(TagModel::Url(url@)));
        }
        s
    }

    /// Override the timestamp (useful for testing).
    pub fn at(self, timestamp: i64) -> (b: Self)
        ensures
            b@ == (BuilderModel { timestamp: Some(timestamp), ..self@ }),
    {
        let mut s = self;
        s.timestamp = Some(timestamp);
        s
    }

    /// Sign the event with the given identity, producing a complete Event:
    /// the author is the identity's public key, the time is the builder's
    /// timestamp (or the current time when none was set), the id is the hash
    /// of the canonical content and the signature signs the id.
    pub fn sign(self, identity: &Identity) -> (e: Event)
        ensures
            e@.pubkey == ed25519_public_key(identity@),
            e@.kind == self@.kind,
            e@.content == self@.content,
            e@.tags == self@.tags,
            self@.timestamp matches Some(t) ==> e@.created_at == t,
            e@.id == event_id_of(e@.pubkey, e@.created_at, e@.kind, e@.content, e@.tags),
            e@.sig == ed25519_signature(identity@, e@.id),
            ed25519_verifies(e@.pubkey, e@.id, e@.sig),
    {
        let pubkey = identity.pubkey();
        let created_at = match self.timestamp {
            Some(t) => t,
            None => unix_now(),
        };
        let id = compute_event_id(&pubkey, created_at, self.kind, self.content.as_str(), self.tags.as_slice());
        let sig = identity.sign(&id);
        Event {
            id,
            pubkey,
            created_at,
            kind: self.kind,
            content: self.content,
            tags: self.tags,
            sig,
        }
    }
}

} // verus!
