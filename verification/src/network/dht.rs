//! Kademlia DHT configuration (for content-addressable routing and wide-area
//! peer discovery; mDNS handles discovery for now).

use vstd::prelude::*;

verus! {

/// DHT configuration.
pub struct DhtConfig {
    /// How many closest peers to query for content.
    pub replication_factor: usize,
    /// How often to refresh the routing table (seconds).
    pub refresh_interval_secs: u64,
}

impl Default for DhtConfig {
    fn default() -> (c: Self)
        ensures
            c.replication_factor == 20,
            c.refresh_interval_secs == 300,
    {
        DhtConfig { replication_factor: 20, refresh_interval_secs: 300 }
    }
}

} // verus!
