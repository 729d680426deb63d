//! Storage budget management & eviction policy.
//! No eviction yet — everything is stored.

use vstd::prelude::*;

verus! {

pub struct StorageBudget {
    /// Maximum number of cached (non-own) events to store.
    pub max_cached_events: u64,
}

impl Default for StorageBudget {
    fn default() -> (b: Self)
        ensures
            b.max_cached_events == 10_000,
    {
        StorageBudget { max_cached_events: 10_000 }
    }
}

} // verus!
