//! Cached events from other users.

use vstd::prelude::*;
use crate::event::types::Event;
use crate::storage::db::{insert_result, Database, DbError};

verus! {

impl Database {
    /// Store a cached event from another user.
    pub fn cache_event(&mut self, event: &Event) -> (r: Result<(), DbError>)
        ensures
            r is Ok,
            final(self)@ == insert_result(old(self)@, event@, false),
    {
        self.insert_event(event, false)
    }
}

} // verus!
