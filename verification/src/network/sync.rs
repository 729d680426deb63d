//! Event synchronization logic.
//!
//! When two peers connect each pushes its own events to the other; an
//! incoming event is validated and cached unless it is already stored.

use vstd::prelude::*;
use crate::event::types::{Event, EventModel};
use crate::event::validate::{error_details_hold, failure_kind, validate_event, validation_failure, ValidationError};
use crate::event::serialize::event_id_of;
use crate::storage::db::{answers, count_where, events_model, holds_id, insert_result, lemma_insert_then_holds, Database, DbError, Query, RowModel};

verus! {

#[derive(Debug)]
pub enum SyncError {
    /// Storage error
    Storage(DbError),
    /// Validation error
    Validation(ValidationError),
}

/// The store after processing an incoming event: a new, valid event is
/// cached; anything else leaves the store as it was.
pub open spec fn after_incoming(rows: Seq<RowModel>, e: EventModel) -> Seq<RowModel> {
    if !holds_id(rows, e.id) && validation_failure(e) is None {
        insert_result(rows, e, false)
    } else {
        rows
    }
}

/// The store after processing a batch of incoming events in order.
pub open spec fn after_all_incoming(rows: Seq<RowModel>, events: Seq<EventModel>) -> Seq<RowModel>
    decreases events.len(),
{
    if events.len() == 0 {
        rows
    } else {
        after_incoming(after_all_incoming(rows, events.drop_last()), events.last())
    }
}

/// Whether processing a batch of incoming events in order stores any of them.
pub open spec fn any_stored(rows: Seq<RowModel>, events: Seq<EventModel>) -> bool
    decreases events.len(),
{
    if events.len() == 0 {
        false
    } else {
        let before = after_all_incoming(rows, events.drop_last());
        any_stored(rows, events.drop_last()) || (!holds_id(before, events.last().id)
            && validation_failure(events.last()) is None)
    }
}

/// Process an incoming event from a peer. Validates and stores it.
/// Returns true if the event was new and stored, false if duplicate.
pub fn process_incoming_event(db: &mut Database, event: &Event) -> (r: Result<bool, SyncError>)
    ensures
        final(db)@ == after_incoming(old(db)@, event@),
        holds_id(old(db)@, event@.id) ==> r matches Ok(false),
        !holds_id(old(db)@, event@.id) ==> match validation_failure(event@) {
            None => r matches Ok(true),
            Some(f) => r matches Err(SyncError::Validation(err)) && failure_kind(err) == f && error_details_hold(
                err,
                event@,
                event_id_of(event@.pubkey, event@.created_at, event@.kind, event@.content, event@.tags),
            ),
        },
{
    // Check if we already have it
    match db.has_event(&event.id) {
        Ok(true) => { return Ok(false); },
        Ok(false) => {},
        Err(e) => { return Err(SyncError::Storage(e)); },
    }
    // Validate signature and content
    match validate_event(event) {
        Ok(()) => {},
        Err(e) => { return Err(SyncError::Validation(e)); },
    }
    // Store as a cached event (not our own)
    match db.cache_event(event) {
        Ok(()) => Ok(true),
        Err(e) => Err(SyncError::Storage(e)),
    }
}

/// Get events to push to a newly connected peer: all our own events,
/// newest first.
pub fn events_to_push(db: &Database) -> (r: Result<Vec<Event>, SyncError>)
    ensures
        r matches Ok(v) && answers(db@, Query::Own, true, db@.len() as int, events_model(v@)),
{
    match db.get_own_events() {
        Ok(v) => Ok(v),
        Err(e) => Err(SyncError::Storage(e)),
    }
}

/// Processing an event a second time changes nothing, and a valid event is
/// stored after it has been processed once.
pub proof fn lemma_incoming_idempotent(rows: Seq<RowModel>, e: EventModel)
    ensures
        after_incoming(after_incoming(rows, e), e) == after_incoming(rows, e),
        validation_failure(e) is None ==> holds_id(after_incoming(rows, e), e.id),
{
    lemma_insert_then_holds(rows, e, false);
}

/// Taking in an event from the network loses nothing and never adds to
/// the own events: every row stays where it was, and the number of own
/// events is unchanged.
pub proof fn lemma_incoming_keeps_rows(rows: Seq<RowModel>, e: EventModel)
    ensures
        after_incoming(rows, e).len() >= rows.len(),
        forall|i: int| 0 <= i < rows.len() ==> #[trigger] after_incoming(rows, e)[i] == rows[i],
        count_where(after_incoming(rows, e), true) == count_where(rows, true),
{
    let r = after_incoming(rows, e);
    if r != rows {
        assert(r.drop_last() =~= rows);
    }
}

/// The same holds of a batch taken in one event after another.
pub proof fn lemma_batch_keeps_rows(rows: Seq<RowModel>, events: Seq<EventModel>)
    ensures
        after_all_incoming(rows, events).len() >= rows.len(),
        forall|i: int| 0 <= i < rows.len() ==> #[trigger] after_all_incoming(rows, events)[i] == rows[i],
        count_where(after_all_incoming(rows, events), true) == count_where(rows, true),
    decreases events.len(),
{
    if events.len() > 0 {
        lemma_batch_keeps_rows(rows, events.drop_last());
        let before = after_all_incoming(rows, events.drop_last());
        lemma_incoming_keeps_rows(before, events.last());
    }
}

} // verus!
