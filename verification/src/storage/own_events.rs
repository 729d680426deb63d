//! The author's permanent archive: own events are never evicted.

use vstd::prelude::*;
use crate::event::types::Event;
use crate::storage::db::{answers, count_own, events_model, insert_result, Database, DbError, Query};

verus! {

impl Database {
    /// Store an event authored by the local identity.
    pub fn store_own_event(&mut self, event: &Event) -> (r: Result<(), DbError>)
        ensures
            r is Ok,
            final(self)@ == insert_result(old(self)@, event@, true),
    {
        self.insert_event(event, true)
    }

    /// Get all events authored by the local identity, newest first.
    pub fn get_all_own_events(&self) -> (r: Result<Vec<Event>, DbError>)
        ensures
            r matches Ok(v) && answers(self@, Query::Own, true, self@.len() as int, events_model(v@)),
    {
        self.get_own_events()
    }

    /// Number of own events (saturating at `i64::MAX`).
    pub fn own_event_count(&self) -> (r: Result<i64, DbError>)
        ensures
            r matches Ok(n) && n == if count_own(self@) <= i64::MAX { count_own(self@) as i64 } else { i64::MAX },
    {
        self.count_rows(true)
    }
}

} // verus!
