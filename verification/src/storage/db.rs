//! The event store.
//!
//! Two logical partitions:
//! 1. "own" — events authored by this node's identity (never evicted)
//! 2. "cache" — events from others (subject to budget-based eviction)
//!
//! Events are kept in insertion order; an event whose id is already stored
//! is ignored. Queries select the stored events that match a filter and
//! order them by creation time (ties in insertion order), up to a limit.

use vstd::prelude::*;
use crate::clock::unix_now;
use crate::event::types::{
    first_ref, ids_equal, Event, EventId, EventKind, EventModel, RefTag,
};
use crate::event::types::{kind_of_number, Tag, tags_model};
use crate::identity::keypair::{bytes_to_array32, PubKey};

verus! {

#[derive(Debug)]
pub enum DbError {
    /// The persistent store failed (the message of its error).
    Sqlite(String),
    /// A stored value could not be encoded or decoded (the message of its error).
    Serialization(String),
}

/// One stored event.
pub struct StoredEvent {
    pub event: Event,
    pub is_own: bool,
    /// When this node stored the event (Unix seconds).
    pub received_at: i64,
}

/// The mathematical value of a stored event.
pub struct RowModel {
    pub event: EventModel,
    pub is_own: bool,
}

pub struct Database {
    rows: Vec<StoredEvent>,
}

/// No two stored events share an id.
pub open spec fn ids_distinct(rows: Seq<RowModel>) -> bool {
    forall|i: int, j: int| 0 <= i < rows.len() && 0 <= j < rows.len() && i != j ==> rows[i].event.id != rows[j].event.id
}

/// Whether an event with the given id is stored.
pub open spec fn holds_id(rows: Seq<RowModel>, id: Seq<u8>) -> bool {
    exists|i: int| 0 <= i < rows.len() && rows[i].event.id == id
}

/// The store after inserting an event: unchanged when its id is already
/// stored, otherwise extended by the event.
pub open spec fn insert_result(rows: Seq<RowModel>, e: EventModel, is_own: bool) -> Seq<RowModel> {
    if holds_id(rows, e.id) {
        rows
    } else {
        rows.push(RowModel { event: e, is_own })
    }
}

impl View for Database {
    type V = Seq<RowModel>;

    closed spec fn view(&self) -> Seq<RowModel> {
        self.rows@.map_values(|r: StoredEvent| RowModel { event: r.event@, is_own: r.is_own })
    }
}

/// The view of a list of events.
pub open spec fn events_model(events: Seq<Event>) -> Seq<EventModel> {
    events.map_values(|e: Event| e@)
}

/// The thread placement of a reply: its parent, and its thread root (the
/// root tag when present, else the parent).
pub open spec fn reply_link(e: EventModel) -> Option<(Seq<u8>, Seq<u8>)> {
    if e.kind == EventKind::Reply {
        match first_ref(e.tags, RefTag::Parent) {
            Some(parent) => Some((
                parent,
                match first_ref(e.tags, RefTag::ThreadRoot) {
                    Some(root) => root,
                    None => parent,
                },
            )),
            None => None,
        }
    } else {
        None
    }
}

/// Inserting keeps ids distinct: the store never holds two events with the same id.
pub proof fn lemma_insert_keeps_ids_distinct(rows: Seq<RowModel>, e: EventModel, is_own: bool)
    requires
        ids_distinct(rows),
    ensures
        ids_distinct(insert_result(rows, e, is_own)),
{
}

/// Inserting the same event again changes nothing.
pub proof fn lemma_insert_idempotent(rows: Seq<RowModel>, e: EventModel, own1: bool, own2: bool)
    ensures
        insert_result(insert_result(rows, e, own1), e, own2) == insert_result(rows, e, own1),
{
    let once = insert_result(rows, e, own1);
    if !holds_id(rows, e.id) {
        assert(once[rows.len() as int].event.id == e.id);
    }
}

/// After an insert the event's id is stored, and the event stored under it
/// is the one inserted unless an event with that id was stored before.
pub proof fn lemma_insert_then_holds(rows: Seq<RowModel>, e: EventModel, is_own: bool)
    ensures
        holds_id(insert_result(rows, e, is_own), e.id),
        !holds_id(rows, e.id) ==> insert_result(rows, e, is_own).last().event == e,
        forall|id: Seq<u8>| holds_id(rows, id) ==> holds_id(insert_result(rows, e, is_own), id),
{
    let r = insert_result(rows, e, is_own);
    if !holds_id(rows, e.id) {
        assert(r[rows.len() as int].event.id == e.id);
    }
    assert forall|id: Seq<u8>| holds_id(rows, id) implies holds_id(r, id) by {
        let i = choose|i: int| 0 <= i < rows.len() && rows[i].event.id == id;
        assert(r[i] == rows[i]);
    }
}

/// Every stored event is either own or cached.
pub proof fn lemma_counts_partition(rows: Seq<RowModel>)
    ensures
        count_own(rows) + count_cached(rows) == rows.len(),
    decreases rows.len(),
{
    if rows.len() > 0 {
        lemma_counts_partition(rows.drop_last());
    }
}

/// The filters of the store's queries.
pub enum Query {
    /// Events by an author created at or after a time.
    ByAuthor { pubkey: Seq<u8>, since: i64 },
    /// Posts and replies.
    PostsAndReplies,
    /// Top-level posts.
    Posts,
    /// Events authored by the local identity.
    Own,
    /// Replies whose parent is the given event.
    RepliesTo(Seq<u8>),
    /// Replies whose thread root or parent is the given event.
    InThread(Seq<u8>),
}

/// Whether a stored event matches a filter.
pub open spec fn row_matches(r: RowModel, q: Query) -> bool {
    match q {
        Query::ByAuthor { pubkey, since } => r.event.pubkey == pubkey && r.event.created_at >= since,
        Query::PostsAndReplies => r.event.kind == EventKind::Post || r.event.kind == EventKind::Reply,
        Query::Posts => r.event.kind == EventKind::Post,
        Query::Own => r.is_own,
        Query::RepliesTo(p) => reply_link(r.event) matches Some((parent, _)) && parent == p,
        Query::InThread(t) => reply_link(r.event) matches Some((parent, root)) && (root == t || parent == t),
    }
}

/// Whether row `i` comes before row `j` in a result: by creation time
/// (newest or oldest first), ties broken by insertion order.
pub open spec fn precedes(rows: Seq<RowModel>, newest_first: bool, i: int, j: int) -> bool {
    let ci = rows[i].event.created_at;
    let cj = rows[j].event.created_at;
    if newest_first {
        ci > cj || (ci == cj && i < j)
    } else {
        ci < cj || (ci == cj && i < j)
    }
}

/// `idx` lists, in result order, the first `limit` matching rows: every
/// listed row matches, the list is strictly ordered, and a matching row is
/// left out only when the limit is reached and the row comes after every
/// listed one.
pub open spec fn is_ranking(rows: Seq<RowModel>, q: Query, newest_first: bool, limit: int, idx: Seq<int>) -> bool {
    &&& idx.len() <= limit
    &&& forall|k: int| 0 <= k < idx.len() ==> 0 <= #[trigger] idx[k] < rows.len() && row_matches(rows[idx[k]], q)
    &&& forall|k: int, l: int| 0 <= k < l < idx.len() ==> precedes(rows, newest_first, #[trigger] idx[k], #[trigger] idx[l])
    &&& forall|j: int|
        0 <= j < rows.len() && row_matches(rows[j], q) && !idx.contains(j) ==> idx.len() == limit && forall|k: int|
            0 <= k < idx.len() ==> precedes(rows, newest_first, #[trigger] idx[k], j)
}

/// `events` is the answer to a query: the events of a ranking.
pub open spec fn answers(rows: Seq<RowModel>, q: Query, newest_first: bool, limit: int, events: Seq<EventModel>) -> bool {
    exists|idx: Seq<int>|
        is_ranking(rows, q, newest_first, limit, idx) && events == idx.map_values(|i: int| rows[i].event)
}

/// Of two distinct rows exactly one comes first, and no row comes before itself.
proof fn lemma_precedes_strict(rows: Seq<RowModel>, newest_first: bool, i: int, j: int)
    ensures
        !(precedes(rows, newest_first, i, j) && precedes(rows, newest_first, j, i)),
        !precedes(rows, newest_first, i, i),
        i != j ==> precedes(rows, newest_first, i, j) || precedes(rows, newest_first, j, i),
{
}

/// A ranking lists each row at most once.
proof fn lemma_ranking_no_dup(rows: Seq<RowModel>, q: Query, newest_first: bool, limit: int, idx: Seq<int>)
    requires
        is_ranking(rows, q, newest_first, limit, idx),
    ensures
        idx.no_duplicates(),
{
    assert forall|k: int, l: int| 0 <= k < idx.len() && 0 <= l < idx.len() && k != l implies idx[k] != idx[l] by {
        if k < l {
            assert(precedes(rows, newest_first, idx[k], idx[l]));
        } else {
            assert(precedes(rows, newest_first, idx[l], idx[k]));
        }
        lemma_precedes_strict(rows, newest_first, idx[k], idx[l]);
    }
}

/// Every row one ranking lists, another ranking of the same query lists too.
proof fn lemma_ranking_contained(
    rows: Seq<RowModel>,
    q: Query,
    newest_first: bool,
    limit: int,
    a: Seq<int>,
    b: Seq<int>,
)
    requires
        is_ranking(rows, q, newest_first, limit, a),
        is_ranking(rows, q, newest_first, limit, b),
    ensures
        forall|j: int| a.contains(j) ==> b.contains(j),
{
    broadcast use vstd::set::group_set_axioms, vstd::seq_lib::seq_to_set_is_finite;

    assert forall|j: int| a.contains(j) implies b.contains(j) by {
        if !b.contains(j) {
            let k = choose|k: int| 0 <= k < a.len() && a[k] == j;
            assert(0 <= a[k] < rows.len() && row_matches(rows[a[k]], q));
            assert(b.len() == limit);
            assert forall|x: int| b.contains(x) implies a.contains(x) by {
                let m = choose|m: int| 0 <= m < b.len() && b[m] == x;
                assert(0 <= b[m] < rows.len() && row_matches(rows[b[m]], q));
                assert(precedes(rows, newest_first, b[m], j));
                if !a.contains(x) {
                    assert(precedes(rows, newest_first, a[k], x));
                    lemma_precedes_strict(rows, newest_first, j, x);
                }
            }
            lemma_ranking_no_dup(rows, q, newest_first, limit, b);
            b.unique_seq_to_set();
            a.lemma_cardinality_of_set();
            let s = b.to_set().insert(j);
            assert(s.subset_of(a.to_set()));
            vstd::set_lib::lemma_len_subset(s, a.to_set());
            assert(!b.to_set().contains(j));
        }
    }
}

/// Two rankings of the same query that list the same rows agree on their
/// first `k` places.
proof fn lemma_rankings_agree(
    rows: Seq<RowModel>,
    q: Query,
    newest_first: bool,
    limit: int,
    a: Seq<int>,
    b: Seq<int>,
    k: int,
)
    requires
        is_ranking(rows, q, newest_first, limit, a),
        is_ranking(rows, q, newest_first, limit, b),
        a.len() == b.len(),
        forall|j: int| a.contains(j) ==> b.contains(j),
        forall|j: int| b.contains(j) ==> a.contains(j),
        0 <= k <= a.len(),
    ensures
        forall|i: int| 0 <= i < k ==> a[i] == b[i],
    decreases k,
{
    if k > 0 {
        lemma_rankings_agree(rows, q, newest_first, limit, a, b, k - 1);
        let i = k - 1;
        if a[i] != b[i] {
            lemma_ranking_no_dup(rows, q, newest_first, limit, a);
            lemma_ranking_no_dup(rows, q, newest_first, limit, b);
            assert(b.contains(a[i]));
            let m = choose|m: int| 0 <= m < b.len() && b[m] == a[i];
            if m < i {
                assert(a[m] == b[m]);
            }
            assert(m > i);
            assert(precedes(rows, newest_first, b[i], b[m]));
            assert(a.contains(b[i]));
            let n = choose|n: int| 0 <= n < a.len() && a[n] == b[i];
            if n < i {
                assert(a[n] == b[n]);
            }
            assert(n > i);
            assert(precedes(rows, newest_first, a[i], a[n]));
            lemma_precedes_strict(rows, newest_first, a[i], b[i]);
        }
    }
}

/// A query has one answer: the events it gives are determined by the
/// store, the filter, the order and the limit.
pub proof fn lemma_answers_unique(
    rows: Seq<RowModel>,
    q: Query,
    newest_first: bool,
    limit: int,
    e1: Seq<EventModel>,
    e2: Seq<EventModel>,
)
    requires
        answers(rows, q, newest_first, limit, e1),
        answers(rows, q, newest_first, limit, e2),
    ensures
        e1 == e2,
{
    let a = choose|idx: Seq<int>|
        is_ranking(rows, q, newest_first, limit, idx) && e1 == idx.map_values(|i: int| rows[i].event);
    let b = choose|idx: Seq<int>|
        is_ranking(rows, q, newest_first, limit, idx) && e2 == idx.map_values(|i: int| rows[i].event);
    lemma_ranking_contained(rows, q, newest_first, limit, a, b);
    lemma_ranking_contained(rows, q, newest_first, limit, b, a);
    lemma_ranking_no_dup(rows, q, newest_first, limit, a);
    lemma_ranking_no_dup(rows, q, newest_first, limit, b);
    a.unique_seq_to_set();
    b.unique_seq_to_set();
    assert(a.to_set() =~= b.to_set());
    lemma_rankings_agree(rows, q, newest_first, limit, a, b, a.len() as int);
    assert(a =~= b);
    assert(e1 =~= e2);
}

/// The positions of the rows that match a query.
pub open spec fn matching(rows: Seq<RowModel>, q: Query) -> Set<int> {
    Set::new(|j: int| 0 <= j < rows.len() && row_matches(rows[j], q))
}

/// The rows matching a query are finitely many.
proof fn lemma_matching_finite(rows: Seq<RowModel>, q: Query)
    ensures
        matching(rows, q).finite(),
        matching(rows, q).len() <= rows.len(),
{
    vstd::set_lib::lemma_int_range(0, rows.len() as int);
    assert(matching(rows, q).subset_of(vstd::set_lib::set_int_range(0, rows.len() as int)));
    vstd::set_lib::lemma_len_subset(matching(rows, q), vstd::set_lib::set_int_range(0, rows.len() as int));
}

/// A query answers with as many events as there are matching rows, up to
/// the limit.
pub proof fn lemma_answer_len(rows: Seq<RowModel>, q: Query, newest_first: bool, limit: int, events: Seq<EventModel>)
    requires
        answers(rows, q, newest_first, limit, events),
    ensures
        events.len() == if matching(rows, q).len() < limit { matching(rows, q).len() as int } else { limit },
{
    broadcast use vstd::set::group_set_axioms, vstd::seq_lib::seq_to_set_is_finite;

    let idx = choose|idx: Seq<int>|
        is_ranking(rows, q, newest_first, limit, idx) && events == idx.map_values(|i: int| rows[i].event);
    lemma_matching_finite(rows, q);
    lemma_ranking_no_dup(rows, q, newest_first, limit, idx);
    idx.unique_seq_to_set();
    let m = matching(rows, q);
    assert(idx.to_set().subset_of(m)) by {
        assert forall|j: int| idx.to_set().contains(j) implies m.contains(j) by {
            let k = choose|k: int| 0 <= k < idx.len() && idx[k] == j;
            assert(0 <= idx[k] < rows.len() && row_matches(rows[idx[k]], q));
        }
    }
    vstd::set_lib::lemma_len_subset(idx.to_set(), m);
    if idx.len() < limit {
        assert(m.subset_of(idx.to_set())) by {
            assert forall|j: int| m.contains(j) implies idx.to_set().contains(j) by {
                if !idx.contains(j) {
                    assert(0 <= j < rows.len() && row_matches(rows[j], q));
                }
            }
        }
        vstd::set_lib::lemma_len_subset(m, idx.to_set());
    }
}

/// Storing more events never makes a query's answer shorter.
pub proof fn lemma_answer_len_grows(
    rows1: Seq<RowModel>,
    rows2: Seq<RowModel>,
    q: Query,
    newest_first: bool,
    limit: int,
    e1: Seq<EventModel>,
    e2: Seq<EventModel>,
)
    requires
        rows1.len() <= rows2.len(),
        forall|i: int| 0 <= i < rows1.len() ==> #[trigger] rows2[i] == rows1[i],
        answers(rows1, q, newest_first, limit, e1),
        answers(rows2, q, newest_first, limit, e2),
    ensures
        e1.len() <= e2.len(),
{
    lemma_answer_len(rows1, q, newest_first, limit, e1);
    lemma_answer_len(rows2, q, newest_first, limit, e2);
    lemma_matching_finite(rows2, q);
    assert(matching(rows1, q).subset_of(matching(rows2, q))) by {
        assert forall|j: int| matching(rows1, q).contains(j) implies matching(rows2, q).contains(j) by {
            assert(rows2[j] == rows1[j]);
        }
    }
    vstd::set_lib::lemma_len_subset(matching(rows1, q), matching(rows2, q));
}

/// Asked with a limit as large as the store, a query lists every matching
/// event.
pub proof fn lemma_full_answer_lists_all(rows: Seq<RowModel>, q: Query, newest_first: bool, events: Seq<EventModel>)
    requires
        answers(rows, q, newest_first, rows.len() as int, events),
    ensures
        forall|j: int| 0 <= j < rows.len() && row_matches(rows[j], q) ==> events.contains(#[trigger] rows[j].event),
{
    broadcast use vstd::set::group_set_axioms, vstd::seq_lib::seq_to_set_is_finite;

    let idx = choose|idx: Seq<int>|
        is_ranking(rows, q, newest_first, rows.len() as int, idx) && events == idx.map_values(|i: int| rows[i].event);
    lemma_matching_finite(rows, q);
    lemma_ranking_no_dup(rows, q, newest_first, rows.len() as int, idx);
    idx.unique_seq_to_set();
    let m = matching(rows, q);
    assert forall|j: int| 0 <= j < rows.len() && row_matches(rows[j], q) implies events.contains(#[trigger] rows[j].event) by {
        if !idx.contains(j) {
            assert(m.contains(j));
            assert(idx.len() == rows.len());
            assert(idx.to_set().subset_of(m.remove(j))) by {
                assert forall|x: int| idx.to_set().contains(x) implies m.remove(j).contains(x) by {
                    let k = choose|k: int| 0 <= k < idx.len() && idx[k] == x;
                    assert(0 <= idx[k] < rows.len() && row_matches(rows[idx[k]], q));
                }
            }
            vstd::set_lib::lemma_len_subset(idx.to_set(), m.remove(j));
        }
        let k = choose|k: int| 0 <= k < idx.len() && idx[k] == j;
        assert(events[k] == rows[j].event);
    }
}

/// Every event a query lists is a stored one that matches it.
pub proof fn lemma_answer_only_matching(rows: Seq<RowModel>, q: Query, newest_first: bool, limit: int, events: Seq<EventModel>)
    requires
        answers(rows, q, newest_first, limit, events),
    ensures
        forall|k: int| 0 <= k < events.len() ==> exists|j: int|
            0 <= j < rows.len() && row_matches(rows[j], q) && rows[j].event == #[trigger] events[k],
{
    let idx = choose|idx: Seq<int>|
        is_ranking(rows, q, newest_first, limit, idx) && events == idx.map_values(|i: int| rows[i].event);
    assert forall|k: int| 0 <= k < events.len() implies exists|j: int|
        0 <= j < rows.len() && row_matches(rows[j], q) && rows[j].event == #[trigger] events[k] by {
        let j = idx[k];
        assert(0 <= idx[k] < rows.len() && row_matches(rows[idx[k]], q));
        assert(rows[j].event == events[k]);
    }
}

/// A thread holds every stored reply to its root: a reply whose parent tag
/// names the root, and a reply whose thread-root tag names it, are both in
/// the thread; so every direct reply to an event is in the thread asked for
/// that event.
pub proof fn lemma_thread_holds_replies(
    rows: Seq<RowModel>,
    t: Seq<u8>,
    thread: Seq<EventModel>,
    replies: Seq<EventModel>,
)
    requires
        answers(rows, Query::InThread(t), false, rows.len() as int, thread),
        answers(rows, Query::RepliesTo(t), false, rows.len() as int, replies),
    ensures
        forall|j: int|
            0 <= j < rows.len() && rows[j].event.kind == EventKind::Reply && first_ref(rows[j].event.tags, RefTag::Parent)
                == Some(t) ==> thread.contains(#[trigger] rows[j].event),
        forall|j: int|
            0 <= j < rows.len() && rows[j].event.kind == EventKind::Reply && first_ref(rows[j].event.tags, RefTag::Parent)
                is Some && first_ref(rows[j].event.tags, RefTag::ThreadRoot) == Some(t) ==> thread.contains(
                #[trigger] rows[j].event,
            ),
        forall|k: int| 0 <= k < replies.len() ==> thread.contains(#[trigger] replies[k]),
{
    lemma_full_answer_lists_all(rows, Query::InThread(t), false, thread);
    lemma_answer_only_matching(rows, Query::RepliesTo(t), false, rows.len() as int, replies);
    assert forall|j: int|
        0 <= j < rows.len() && rows[j].event.kind == EventKind::Reply && first_ref(rows[j].event.tags, RefTag::Parent)
            == Some(t) implies thread.contains(#[trigger] rows[j].event) by {
        assert(row_matches(rows[j], Query::InThread(t)));
    }
    assert forall|j: int|
        0 <= j < rows.len() && rows[j].event.kind == EventKind::Reply && first_ref(rows[j].event.tags, RefTag::Parent)
            is Some && first_ref(rows[j].event.tags, RefTag::ThreadRoot) == Some(t) implies thread.contains(
            #[trigger] rows[j].event,
        ) by {
        assert(row_matches(rows[j], Query::InThread(t)));
    }
    assert forall|k: int| 0 <= k < replies.len() implies thread.contains(#[trigger] replies[k]) by {
        let j = choose|j: int| 0 <= j < rows.len() && row_matches(rows[j], Query::RepliesTo(t)) && rows[j].event == replies[k];
        assert(row_matches(rows[j], Query::InThread(t)));
        assert(thread.contains(rows[j].event));
    }
}

/// Asked for the own events with a limit as large as the store, the
/// own-events query lists every own event.
pub proof fn lemma_own_query_lists_all(rows: Seq<RowModel>, events: Seq<EventModel>)
    requires
        answers(rows, Query::Own, true, rows.len() as int, events),
    ensures
        forall|j: int| 0 <= j < rows.len() && rows[j].is_own ==> events.contains(#[trigger] rows[j].event),
{
    broadcast use vstd::set::group_set_axioms, vstd::seq_lib::seq_to_set_is_finite;

    let idx = choose|idx: Seq<int>|
        is_ranking(rows, Query::Own, true, rows.len() as int, idx) && events == idx.map_values(|i: int| rows[i].event);
    lemma_matching_finite(rows, Query::Own);
    lemma_ranking_no_dup(rows, Query::Own, true, rows.len() as int, idx);
    idx.unique_seq_to_set();
    let m = matching(rows, Query::Own);
    assert forall|j: int| 0 <= j < rows.len() && rows[j].is_own implies events.contains(#[trigger] rows[j].event) by {
        if !idx.contains(j) {
            assert(m.contains(j));
            assert(idx.len() == rows.len());
            assert(idx.to_set().subset_of(m.remove(j))) by {
                assert forall|x: int| idx.to_set().contains(x) implies m.remove(j).contains(x) by {
                    let k = choose|k: int| 0 <= k < idx.len() && idx[k] == x;
                    assert(0 <= idx[k] < rows.len() && row_matches(rows[idx[k]], Query::Own));
                }
            }
            vstd::set_lib::lemma_len_subset(idx.to_set(), m.remove(j));
        }
        let k = choose|k: int| 0 <= k < idx.len() && idx[k] == j;
        assert(events[k] == rows[j].event);
    }
}

/// Own events are never evicted or demoted: storing or caching any event,
/// even one with an own event's id, keeps every own row in its place and
/// still own, so the own-events query goes on listing it. Caching adds one
/// cached event exactly when the id was new, and never changes the number
/// of own events.
pub proof fn lemma_own_events_kept(rows: Seq<RowModel>, e: EventModel, is_own: bool, i: int, events: Seq<EventModel>)
    requires
        0 <= i < rows.len(),
        rows[i].is_own,
        answers(insert_result(rows, e, is_own), Query::Own, true, insert_result(rows, e, is_own).len() as int, events),
    ensures
        insert_result(rows, e, is_own)[i] == rows[i],
        events.contains(rows[i].event),
        count_where(insert_result(rows, e, false), true) == count_where(rows, true),
        count_where(insert_result(rows, e, false), false) == count_where(rows, false) + if holds_id(rows, e.id) {
            0nat
        } else {
            1nat
        },
{
    let r = insert_result(rows, e, is_own);
    assert(r[i] == rows[i]);
    lemma_own_query_lists_all(r, events);
    assert(r[i].is_own);
    let c = insert_result(rows, e, false);
    if !holds_id(rows, e.id) {
        assert(c.drop_last() =~= rows);
    }
}

/// The number of stored events that are own (or, with `own` false, cached).
pub open spec fn count_where(rows: Seq<RowModel>, own: bool) -> nat
    decreases rows.len(),
{
    if rows.len() == 0 {
        0
    } else {
        count_where(rows.drop_last(), own) + if rows.last().is_own == own { 1nat } else { 0nat }
    }
}

pub open spec fn count_own(rows: Seq<RowModel>) -> nat {
    count_where(rows, true)
}

pub open spec fn count_cached(rows: Seq<RowModel>) -> nat {
    count_where(rows, false)
}

/// The exec form of a filter.
enum Filter {
    ByAuthor { pubkey: [u8; 32], since: i64 },
    PostsAndReplies,
    Posts,
    Own,
    RepliesTo([u8; 32]),
    InThread([u8; 32]),
}

impl View for Filter {
    type V = Query;

    closed spec fn view(&self) -> Query {
        match self {
            Filter::ByAuthor { pubkey, since } => Query::ByAuthor { pubkey: pubkey@, since: *since },
            Filter::PostsAndReplies => Query::PostsAndReplies,
            Filter::Posts => Query::Posts,
            Filter::Own => Query::Own,
            Filter::RepliesTo(p) => Query::RepliesTo(p@),
            Filter::InThread(t) => Query::InThread(t@),
        }
    }
}

/// The thread placement of a reply, computed.
fn reply_link_of(e: &Event) -> (r: Option<(&EventId, &EventId)>)
    ensures
        match r {
            Some((p, t)) => reply_link(e@) == Some((p@, t@)),
            None => reply_link(e@) is None,
        },
{
    if e.kind == EventKind::Reply {
        match e.parent_id() {
            Some(parent) => {
                match e.thread_root_id() {
                    Some(root) => Some((parent, root)),
                    None => Some((parent, parent)),
                }
            },
            None => None,
        }
    } else {
        None
    }
}

fn matches_filter(row: &StoredEvent, f: &Filter) -> (m: bool)
    ensures
        m == row_matches(RowModel { event: row.event@, is_own: row.is_own }, f@),
{
    match f {
        Filter::ByAuthor { pubkey, since } => ids_equal(&row.event.pubkey.0, pubkey) && row.event.created_at >= *since,
        Filter::PostsAndReplies => row.event.kind == EventKind::Post || row.event.kind == EventKind::Reply,
        Filter::Posts => row.event.kind == EventKind::Post,
        Filter::Own => row.is_own,
        Filter::RepliesTo(p) => match reply_link_of(&row.event) {
            Some((parent, _)) => ids_equal(parent, p),
            None => false,
        },
        Filter::InThread(t) => match reply_link_of(&row.event) {
            Some((parent, root)) => ids_equal(root, t) || ids_equal(parent, t),
            None => false,
        },
    }
}

/// Copy 64 bytes into an array.
pub fn bytes_to_array64(bytes: &[u8]) -> (a: [u8; 64])
    requires
        bytes@.len() == 64,
    ensures
        a@ == bytes@,
{
    let mut a = [0u8; 64];
    let mut i: usize = 0;
    while i < 64
        invariant
            bytes@.len() == 64,
            i <= 64,
            forall|j: int| 0 <= j < i ==> a@[j] == bytes@[j],
        decreases 64 - i,
    {
        a[i] = bytes[i];
        i = i + 1;
    }
    proof {
        assert(a@ =~= bytes@);
    }
    a
}

/// Rebuild an event from the columns of a stored row. `None` when the id or
/// public key is not 32 bytes, the signature not 64 bytes, or the kind
/// (truncated to its low byte) is not a known kind.
pub fn event_from_row(
    id: &[u8],
    pubkey: &[u8],
    created_at: i64,
    kind: i64,
    content: String,
    tags: Vec<Tag>,
    sig: &[u8],
) -> (r: Option<Event>)
    ensures
        match r {
            Some(e) => {
                &&& id@.len() == 32 && pubkey@.len() == 32 && sig@.len() == 64
                &&& kind_of_number(kind as u8) == Some(e.kind)
                &&& e@ == (EventModel {
                    id: id@,
                    pubkey: pubkey@,
                    created_at,
                    kind: e.kind,
                    content: content@,
                    tags: tags_model(tags@),
                    sig: sig@,
                })
            },
            None => !(id@.len() == 32 && pubkey@.len() == 32 && sig@.len() == 64 && kind_of_number(kind as u8) is Some),
        },
{
    if id.len() != 32 || pubkey.len() != 32 || sig.len() != 64 {
        return None;
    }
    let k = match EventKind::from_u8(kind as u8) {
        Some(k) => k,
        None => { return None; },
    };
    Some(Event {
        id: bytes_to_array32(id),
        pubkey: PubKey(bytes_to_array32(pubkey)),
        created_at,
        kind: k,
        content,
        tags,
        sig: bytes_to_array64(sig),
    })
}

impl Database {
    /// No two stored events share an id.
    #[verifier::type_invariant]
    closed spec fn distinct_ids(&self) -> bool {
        ids_distinct(self@)
    }

    /// An empty in-memory store.
    pub fn open_memory() -> (r: Result<Self, DbError>)
        ensures
            r matches Ok(db) && db@ == Seq::<RowModel>::empty() && ids_distinct(db@),
    {
        let rows: Vec<StoredEvent> = Vec::new();
        proof {
            assert(rows@.map_values(|r: StoredEvent| RowModel { event: r.event@, is_own: r.is_own }) =~= Seq::<RowModel>::empty());
        }
        let db = Database { rows };
        Ok(db)
    }


    /// The position of the stored event with the given id.
    fn position(&self, id: &EventId) -> (r: Option<usize>)
        ensures
            match r {
                Some(i) => i < self@.len() && self@[i as int].event.id == id@,
                None => !holds_id(self@, id@),
            },
    {
        let n = self.rows.len();
        let mut i: usize = 0;
        while i < n
            invariant
                n == self.rows@.len(),
                n == self@.len(),
                i <= n,
                forall|j: int| 0 <= j < i ==> self@[j].event.id != id@,
            decreases n - i,
        {
            if ids_equal(&self.rows[i].event.id, id) {
                return Some(i);
            }
            i = i + 1;
        }
        None
    }

    /// Insert an event into the store. An event whose id is already stored is
    /// ignored. `is_own` should be true if this event was authored by the
    /// local identity.
    pub fn insert_event(&mut self, event: &Event, is_own: bool) -> (r: Result<(), DbError>)
        ensures
            r is Ok,
            final(self)@ == insert_result(old(self)@, event@, is_own),
            ids_distinct(old(self)@) && ids_distinct(final(self)@),
    {
        proof {
            use_type_invariant(&*self);
        }
        if self.position(&event.id).is_some() {
            return Ok(());
        }
        let received_at = unix_now();
        let row = StoredEvent { event: event.clone(), is_own, received_at };
        let ghost old_view = self@;
        let mut rows: Vec<StoredEvent> = Vec::new();
        proof {
            assert(rows@.map_values(|r: StoredEvent| RowModel { event: r.event@, is_own: r.is_own }) =~= Seq::<RowModel>::empty());
        }
        std::mem::swap(&mut rows, &mut self.rows);
        rows.push(row);
        proof {
            assert(rows@.map_values(|r: StoredEvent| RowModel { event: r.event@, is_own: r.is_own })
                =~= old_view.push(RowModel { event: event@, is_own }));
            lemma_insert_keeps_ids_distinct(old_view, event@, is_own);
        }
        self.rows = rows;
        proof {
            assert(self@ =~= old_view.push(RowModel { event: event@, is_own }));
        }
        Ok(())
    }

    /// Get an event by its ID.
    pub fn get_event(&self, id: &EventId) -> (r: Result<Option<Event>, DbError>)
        ensures
            match r {
                Ok(Some(e)) => exists|i: int| 0 <= i < self@.len() && self@[i].event.id == id@ && e@ == self@[i].event,
                Ok(None) => !holds_id(self@, id@),
                Err(_) => false,
            },
    {
        match self.position(id) {
            Some(i) => Ok(Some(self.rows[i].event.clone())),
            None => Ok(None),
        }
    }

    /// Check if we already have an event.
    pub fn has_event(&self, id: &EventId) -> (r: Result<bool, DbError>)
        ensures
            r matches Ok(b) && b == holds_id(self@, id@),
    {
        Ok(self.position(id).is_some())
    }

    /// The row after `last` (or the first row, when there is none) that
    /// comes first among the matching rows.
    fn next_match(&self, f: &Filter, newest_first: bool, last: Option<usize>) -> (r: Option<usize>)
        requires
            last matches Some(l) ==> l < self@.len(),
        ensures
            match r {
                Some(b) => {
                    &&& b < self@.len()
                    &&& row_matches(self@[b as int], f@)
                    &&& (last matches Some(l) ==> precedes(self@, newest_first, l as int, b as int))
                    &&& forall|j: int|
                        0 <= j < self@.len() && row_matches(self@[j], f@) && (last matches Some(l)
                            ==> precedes(self@, newest_first, l as int, j)) ==> j == b || precedes(
                            self@,
                            newest_first,
                            b as int,
                            j,
                        )
                },
                None => forall|j: int|
                    0 <= j < self@.len() && row_matches(self@[j], f@) ==> (last matches Some(l)
                        && !precedes(self@, newest_first, l as int, j)),
            },
    {
        let n = self.rows.len();
        let mut best: Option<usize> = None;
        let mut j: usize = 0;
        while j < n
            invariant
                n == self.rows@.len(),
                n == self@.len(),
                j <= n,
                last matches Some(l) ==> l < n,
                match best {
                    Some(b) => {
                        &&& b < j
                        &&& row_matches(self@[b as int], f@)
                        &&& (last matches Some(l) ==> precedes(self@, newest_first, l as int, b as int))
                        &&& forall|j2: int|
                            0 <= j2 < j && row_matches(self@[j2], f@) && (last matches Some(l)
                                ==> precedes(self@, newest_first, l as int, j2)) ==> j2 == b || precedes(
                                self@,
                                newest_first,
                                b as int,
                                j2,
                            )
                    },
                    None => forall|j2: int|
                        0 <= j2 < j && row_matches(self@[j2], f@) ==> (last matches Some(l)
                            && !precedes(self@, newest_first, l as int, j2)),
                },
            decreases n - j,
        {
            let row = &self.rows[j];
            proof {
                assert(self@[j as int] == RowModel { event: row.event@, is_own: row.is_own });
            }
            let ghost old_best = best;
            if matches_filter(row, f) {
                let after = match last {
                    None => true,
                    Some(l) => self.before(newest_first, l, j),
                };
                if after {
                    let better = match best {
                        None => true,
                        Some(b) => self.before(newest_first, j, b),
                    };
                    if better {
                        best = Some(j);
                    }
                }
            }
            proof {
                let rows = self@;
                if let Some(b) = best {
                    assert forall|j2: int|
                        0 <= j2 < j + 1 && row_matches(rows[j2], f@) && (last matches Some(l)
                            ==> precedes(rows, newest_first, l as int, j2)) implies j2 == b || precedes(
                        rows,
                        newest_first,
                        b as int,
                        j2,
                    ) by {
                        if j2 < j {
                            if let Some(ob) = old_best {
                                if j2 != ob as int && ob != b {
                                    assert(precedes(rows, newest_first, ob as int, j2));
                                }
                            }
                        }
                    }
                }
            }
            j = j + 1;
        }
        best
    }

    /// Whether row `i` comes before row `j` in a result.
    fn before(&self, newest_first: bool, i: usize, j: usize) -> (r: bool)
        requires
            i < self@.len(),
            j < self@.len(),
        ensures
            r == precedes(self@, newest_first, i as int, j as int),
    {
        let ci = self.rows[i].event.created_at;
        let cj = self.rows[j].event.created_at;
        proof {
            assert(self@[i as int].event.created_at == ci);
            assert(self@[j as int].event.created_at == cj);
        }
        if newest_first {
            ci > cj || (ci == cj && i < j)
        } else {
            ci < cj || (ci == cj && i < j)
        }
    }

    /// The positions of the first `limit` matching rows, in result order.
    fn select(&self, f: &Filter, newest_first: bool, limit: usize) -> (idx: Vec<usize>)
        ensures
            is_ranking(self@, f@, newest_first, limit as int, idx@.map_values(|i: usize| i as int)),
    {
        let ghost rows = self@;
        let mut out: Vec<usize> = Vec::new();
        let mut last: Option<usize> = None;
        let mut done = false;
        while out.len() < limit && !done
            invariant
                rows == self@,
                out@.len() <= limit,
                forall|k: int| 0 <= k < out@.len() ==> (#[trigger] out@[k]) < rows.len() && row_matches(rows[out@[k] as int], f@),
                forall|k: int, l: int|
                    0 <= k < l < out@.len() ==> precedes(rows, newest_first, #[trigger] out@[k] as int, #[trigger] out@[l] as int),
                match last {
                    Some(l) => out@.len() > 0 && l == out@.last(),
                    None => out@.len() == 0,
                },
                forall|j: int|
                    0 <= j < rows.len() && row_matches(rows[j], f@) ==> (out@.map_values(|i: usize| i as int).contains(j) <==> (
                    last matches Some(l) && !precedes(rows, newest_first, l as int, j))),
                done ==> forall|j: int|
                    0 <= j < rows.len() && row_matches(rows[j], f@) ==> out@.map_values(|i: usize| i as int).contains(j),
            decreases (limit - out@.len()) * 2 + if done { 0int } else { 1int },
        {
            match self.next_match(f, newest_first, last) {
                None => {
                    done = true;
                },
                Some(b) => {
                    let ghost old_out = out@;
                    out.push(b);
                    proof {
                        let om = old_out.map_values(|i: usize| i as int);
                        let nm = out@.map_values(|i: usize| i as int);
                        assert(nm =~= om.push(b as int));
                        assert forall|k: int, l: int| 0 <= k < l < out@.len() implies precedes(
                            rows,
                            newest_first,
                            #[trigger] out@[k] as int,
                            #[trigger] out@[l] as int,
                        ) by {
                            if l == out@.len() - 1 && k < l {
                                let lst = last->0;
                                if old_out[k] != lst {
                                    assert(precedes(rows, newest_first, old_out[k] as int, lst as int));
                                }
                            }
                        }
                        assert forall|j: int| 0 <= j < rows.len() && row_matches(rows[j], f@) implies (nm.contains(j) <==> !precedes(
                            rows,
                            newest_first,
                            b as int,
                            j,
                        )) by {
                            if om.contains(j) {
                                let lst = last->0;
                                assert(!precedes(rows, newest_first, lst as int, j));
                                assert(j == lst || precedes(rows, newest_first, j, lst as int));
                            }
                            if om.contains(j) {
                                let k = choose|k: int| 0 <= k < om.len() && om[k] == j;
                                assert(nm[k] == j);
                            }
                            assert(nm[om.len() as int] == b as int);
                            if nm.contains(j) {
                                let k = choose|k: int| 0 <= k < nm.len() && nm[k] == j;
                                if k < om.len() {
                                    assert(om[k] == j);
                                }
                            }
                        }
                    }
                    last = Some(b);
                },
            }
        }
        proof {
            let m = out@.map_values(|i: usize| i as int);
            assert forall|j: int| 0 <= j < rows.len() && row_matches(rows[j], f@) && !m.contains(j) implies m.len()
                == limit && forall|k: int| 0 <= k < m.len() ==> precedes(rows, newest_first, #[trigger] m[k], j) by {
                let lst = last->0;
                assert forall|k: int| 0 <= k < m.len() implies precedes(rows, newest_first, #[trigger] m[k], j) by {
                    if m[k] != lst as int {
                        assert(precedes(rows, newest_first, out@[k] as int, out@[out@.len() - 1] as int));
                    }
                }
            }
        }
        out
    }

    /// The events at the given positions.
    fn events_at(&self, idx: &Vec<usize>) -> (events: Vec<Event>)
        requires
            forall|k: int| 0 <= k < idx@.len() ==> #[trigger] idx@[k] < self@.len(),
        ensures
            events_model(events@) == idx@.map_values(|i: usize| i as int).map_values(|i: int| self@[i].event),
    {
        let mut out: Vec<Event> = Vec::new();
        let mut k: usize = 0;
        while k < idx.len()
            invariant
                k <= idx@.len(),
                forall|k2: int| 0 <= k2 < idx@.len() ==> #[trigger] idx@[k2] < self@.len(),
                out@.len() == k,
                forall|k2: int| 0 <= k2 < k ==> (#[trigger] out@[k2])@ == self@[idx@[k2] as int].event,
            decreases idx@.len() - k,
        {
            let i = idx[k];
            out.push(self.rows[i].event.clone());
            k = k + 1;
        }
        proof {
            assert(events_model(out@) =~= idx@.map_values(|i: usize| i as int).map_values(|i: int| self@[i].event));
        }
        out
    }

    /// Run a query.
    fn query(&self, f: &Filter, newest_first: bool, limit: usize) -> (events: Vec<Event>)
        ensures
            answers(self@, f@, newest_first, limit as int, events_model(events@)),
    {
        let idx = self.select(f, newest_first, limit);
        proof {
            let m = idx@.map_values(|i: usize| i as int);
            assert forall|k: int| 0 <= k < idx@.len() implies #[trigger] idx@[k] < self@.len() by {
                assert(m[k] == idx@[k] as int);
            }
        }
        let events = self.events_at(&idx);
        proof {
            let m = idx@.map_values(|i: usize| i as int);
            assert(is_ranking(self@, f@, newest_first, limit as int, m));
        }
        events
    }

    /// Get recent events from a specific pubkey, newest first.
    pub fn get_events_by_pubkey(&self, pubkey: &PubKey, since: i64, limit: u32) -> (r: Result<Vec<Event>, DbError>)
        ensures
            r matches Ok(v) && answers(
                self@,
                Query::ByAuthor { pubkey: pubkey.0@, since },
                true,
                limit as int,
                events_model(v@),
            ),
    {
        Ok(self.query(&Filter::ByAuthor { pubkey: pubkey.0, since }, true, limit as usize))
    }

    /// Get posts and replies (for timeline display), newest first.
    pub fn get_timeline(&self, limit: u32) -> (r: Result<Vec<Event>, DbError>)
        ensures
            r matches Ok(v) && answers(self@, Query::PostsAndReplies, true, limit as int, events_model(v@)),
    {
        Ok(self.query(&Filter::PostsAndReplies, true, limit as usize))
    }

    /// Get top-level posts only (no replies), newest first.
    pub fn get_posts(&self, limit: u32) -> (r: Result<Vec<Event>, DbError>)
        ensures
            r matches Ok(v) && answers(self@, Query::Posts, true, limit as int, events_model(v@)),
    {
        Ok(self.query(&Filter::Posts, true, limit as usize))
    }

    /// Get all replies to a given event (direct children), oldest first.
    pub fn get_replies(&self, parent_id: &EventId) -> (r: Result<Vec<Event>, DbError>)
        ensures
            r matches Ok(v) && answers(self@, Query::RepliesTo(parent_id@), false, self@.len() as int, events_model(v@)),
    {
        Ok(self.query(&Filter::RepliesTo(*parent_id), false, self.rows.len()))
    }

    /// Get the full thread for a root post: the root itself, if stored, and
    /// every reply whose thread root or parent it is, oldest first.
    pub fn get_thread(&self, root_id: &EventId) -> (r: Result<(Option<Event>, Vec<Event>), DbError>)
        ensures
            r matches Ok((root, replies)) && (match root {
                Some(e) => exists|i: int| 0 <= i < self@.len() && self@[i].event.id == root_id@ && e@ == self@[i].event,
                None => !holds_id(self@, root_id@),
            }) && answers(self@, Query::InThread(root_id@), false, self@.len() as int, events_model(replies@)),
    {
        let root = match self.get_event(root_id) {
            Ok(r) => r,
            Err(e) => { return Err(e); },
        };
        let replies = self.query(&Filter::InThread(*root_id), false, self.rows.len());
        Ok((root, replies))
    }

    /// Get all own events, newest first.
    pub fn get_own_events(&self) -> (r: Result<Vec<Event>, DbError>)
        ensures
            r matches Ok(v) && answers(self@, Query::Own, true, self@.len() as int, events_model(v@)),
    {
        Ok(self.query(&Filter::Own, true, self.rows.len()))
    }

    /// Count the own (or, with `own` false, cached) events, saturating at `i64::MAX`.
    pub(crate) fn count_rows(&self, own: bool) -> (r: Result<i64, DbError>)
        ensures
            r matches Ok(n) && n == if count_where(self@, own) <= i64::MAX { count_where(self@, own) as i64 } else { i64::MAX },
    {
        let mut count: u64 = 0;
        let mut i: usize = 0;
        let n = self.rows.len();
        while i < n
            invariant
                n == self@.len(),
                i <= n,
                count == if count_where(self@.take(i as int), own) <= u64::MAX { count_where(self@.take(i as int), own) } else { u64::MAX as nat },
            decreases n - i,
        {
            proof {
                assert(self@.take(i + 1).drop_last() =~= self@.take(i as int));
                assert(self@.take(i + 1).last() == self@[i as int]);
            }
            if self.rows[i].is_own == own {
                if count < u64::MAX {
                    count = count + 1;
                }
            }
            i = i + 1;
        }
        proof {
            assert(self@.take(n as int) =~= self@);
        }
        if count <= i64::MAX as u64 {
            Ok(count as i64)
        } else {
            Ok(i64::MAX)
        }
    }

    /// Get the number of cached (non-own) events (saturating at `i64::MAX`).
    pub fn cached_event_count(&self) -> (r: Result<i64, DbError>)
        ensures
            r matches Ok(n) && n == if count_cached(self@) <= i64::MAX { count_cached(self@) as i64 } else { i64::MAX },
    {
        self.count_rows(false)
    }

    /// Get the total event count (saturating at `i64::MAX`).
    pub fn total_event_count(&self) -> (r: Result<i64, DbError>)
        ensures
            r matches Ok(n) && n == if self@.len() <= i64::MAX { self@.len() as i64 } else { i64::MAX },
    {
        let n = self.rows.len();
        if n as u64 <= i64::MAX as u64 {
            Ok(n as i64)
        } else {
            Ok(i64::MAX)
        }
    }
}

} // verus!
