//! Murmur core: events, identities, storage and the node's decision logic
//! for a decentralised social discussion protocol.

pub mod encoding;
pub mod crypto;
pub mod json;
pub mod clock;
pub mod event;
pub mod identity;
pub mod storage;
pub mod temperature;
pub mod network;
pub mod client;
