//! Murmur wire protocol — the messages nodes exchange.

use vstd::prelude::*;
use crate::event::types::{Event, EventId, EventModel};
use crate::identity::keypair::PubKey;
use crate::storage::db::events_model;

verus! {

/// Requests a node can make to peers.
#[derive(Debug)]
pub enum MurmurRequest {
    /// "Do you have this event?"
    GetEvent { id: EventId },
    /// "Here's an event I think you should store"
    PushEvent { event: Event },
    /// "Give me recent events from this pubkey"
    GetFeed { pubkey: PubKey, since: i64, limit: u32 },
    /// "What are the hottest events you know about?" The minimum
    /// temperature is carried as the bits of an IEEE 754 double.
    GetHot { min_temperature_bits: u64, limit: u32 },
    /// "Give me the full thread for this post"
    GetThread { root_id: EventId },
    /// "Give me all your recent events" (for initial sync)
    SyncRequest { since: i64 },
}

/// Responses sent back to requesting peers.
#[derive(Debug)]
pub enum MurmurResponse {
    /// Single event
    Event(Event),
    /// Multiple events
    Events(Vec<Event>),
    /// A full thread
    Thread { root: Option<Event>, replies: Vec<Event> },
    /// Event not found
    NotFound,
    /// Event accepted for storage
    Accepted,
    /// Error
    Error(String),
}

/// The mathematical value of a request.
pub enum RequestModel {
    GetEvent(Seq<u8>),
    PushEvent(EventModel),
    GetFeed { pubkey: Seq<u8>, since: i64, limit: u32 },
    GetHot { min_temperature_bits: u64, limit: u32 },
    GetThread(Seq<u8>),
    SyncRequest(i64),
}

/// The mathematical value of a response.
pub enum ResponseModel {
    Event(EventModel),
    Events(Seq<EventModel>),
    Thread { root: Option<EventModel>, replies: Seq<EventModel> },
    NotFound,
    Accepted,
    Error(Seq<char>),
}

impl View for MurmurRequest {
    type V = RequestModel;

    open spec fn view(&self) -> RequestModel {
        match self {
            MurmurRequest::GetEvent { id } => RequestModel::GetEvent(id@),
            MurmurRequest::PushEvent { event } => RequestModel::PushEvent(event@),
            MurmurRequest::GetFeed { pubkey, since, limit } => RequestModel::GetFeed {
                pubkey: pubkey.0@,
                since: *since,
                limit: *limit,
            },
            MurmurRequest::GetHot { min_temperature_bits, limit } => RequestModel::GetHot {
                min_temperature_bits: *min_temperature_bits,
                limit: *limit,
            },
            MurmurRequest::GetThread { root_id } => RequestModel::GetThread(root_id@),
            MurmurRequest::SyncRequest { since } => RequestModel::SyncRequest(*since),
        }
    }
}

/// The view of an optional event.
pub open spec fn opt_event_model(e: Option<Event>) -> Option<EventModel> {
    match e {
        Some(e) => Some(e@),
        None => None,
    }
}

impl View for MurmurResponse {
    type V = ResponseModel;

    open spec fn view(&self) -> ResponseModel {
        match self {
            MurmurResponse::Event(e) => ResponseModel::Event(e@),
            MurmurResponse::Events(v) => ResponseModel::Events(events_model(v@)),
            MurmurResponse::Thread { root, replies } => ResponseModel::Thread {
                root: opt_event_model(*root),
                replies: events_model(replies@),
            },
            MurmurResponse::NotFound => ResponseModel::NotFound,
            MurmurResponse::Accepted => ResponseModel::Accepted,
            MurmurResponse::Error(s) => ResponseModel::Error(s@),
        }
    }
}

} // verus!
