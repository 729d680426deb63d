use murmur_core::event::builder::EventBuilder;
use murmur_core::event::types::{EventKind, Tag};
use murmur_core::identity::keypair::{Identity, PubKey};
use murmur_core::network::sync::{events_to_push, process_incoming_event, SyncError};
use murmur_core::storage::budget::StorageBudget;
use murmur_core::storage::db::{event_from_row, Database};

#[test]
fn test_insert_and_retrieve() {
    let mut db = Database::open_memory().unwrap();
    let id = Identity::generate();
    let event = EventBuilder::post("hello world").sign(&id);

    db.insert_event(&event, true).unwrap();

    let retrieved = db.get_event(&event.id).unwrap().unwrap();
    assert_eq!(retrieved.id, event.id);
    assert_eq!(retrieved.content, "hello world");
}

#[test]
fn test_thread_retrieval() {
    let mut db = Database::open_memory().unwrap();
    let id = Identity::generate();

    let post = EventBuilder::post("original post").sign(&id);
    db.insert_event(&post, true).unwrap();

    let reply = EventBuilder::reply("reply 1", post.id).sign(&id);
    db.insert_event(&reply, false).unwrap();

    let (root, replies) = db.get_thread(&post.id).unwrap();
    assert!(root.is_some());
    assert_eq!(replies.len(), 1);
    assert_eq!(replies[0].content, "reply 1");
}

#[test]
fn test_timeline() {
    let mut db = Database::open_memory().unwrap();
    let id = Identity::generate();

    for i in 0..5 {
        let event = EventBuilder::post(&format!("post {}", i)).sign(&id);
        db.insert_event(&event, true).unwrap();
    }

    let timeline = db.get_timeline(10).unwrap();
    assert_eq!(timeline.len(), 5);
}

#[test]
fn test_duplicate_insert_ignored() {
    let mut db = Database::open_memory().unwrap();
    let id = Identity::generate();
    let event = EventBuilder::post("hello").sign(&id);

    db.insert_event(&event, true).unwrap();
    db.insert_event(&event, true).unwrap(); // Should not error
    assert_eq!(db.total_event_count().unwrap(), 1);
}

#[test]
fn queries_order_filter_and_limit() {
    let mut db = Database::open_memory().unwrap();
    let alice = Identity::from_secret([1; 32]);
    let bob = Identity::from_secret([2; 32]);
    let p1 = EventBuilder::post("p1").at(10).sign(&alice);
    let p2 = EventBuilder::post("p2").at(30).sign(&bob);
    let p3 = EventBuilder::post("p3").at(20).sign(&alice);
    let r1 = EventBuilder::reply("r1", p1.id).at(40).sign(&bob);
    let r2 = EventBuilder::reply_in_thread("r2", r1.id, p1.id).at(35).sign(&alice);
    let x = EventBuilder::reaction(p1.id, "+").at(50).sign(&bob);
    for (e, own) in [(&p1, true), (&p2, false), (&p3, true), (&r1, false), (&r2, true), (&x, false)] {
        db.insert_event(e, own).unwrap();
    }
    let contents = |v: Vec<murmur_core::event::types::Event>| v.into_iter().map(|e| e.content).collect::<Vec<_>>();
    assert_eq!(contents(db.get_timeline(10).unwrap()), vec!["r1", "r2", "p2", "p3", "p1"]);
    assert_eq!(contents(db.get_timeline(2).unwrap()), vec!["r1", "r2"]);
    assert_eq!(contents(db.get_posts(10).unwrap()), vec!["p2", "p3", "p1"]);
    assert_eq!(contents(db.get_events_by_pubkey(&alice.pubkey(), 15, 10).unwrap()), vec!["r2", "p3"]);
    assert_eq!(contents(db.get_replies(&p1.id).unwrap()), vec!["r1"]);
    assert_eq!(contents(db.get_replies(&r1.id).unwrap()), vec!["r2"]);
    let (root, replies) = db.get_thread(&p1.id).unwrap();
    assert_eq!(root.unwrap().content, "p1");
    assert_eq!(contents(replies), vec!["r2", "r1"]);
    assert_eq!(contents(db.get_own_events().unwrap()), vec!["r2", "p3", "p1"]);
    assert_eq!(contents(db.get_all_own_events().unwrap()), vec!["r2", "p3", "p1"]);
    assert_eq!(db.own_event_count().unwrap(), 3);
    assert_eq!(db.cached_event_count().unwrap(), 3);
    assert_eq!(db.total_event_count().unwrap(), 6);
    assert!(db.get_event(&[0; 32]).unwrap().is_none());
    assert!(!db.has_event(&[0; 32]).unwrap());
    let (none_root, none_replies) = db.get_thread(&[9; 32]).unwrap();
    assert!(none_root.is_none());
    assert!(none_replies.is_empty());
}

#[test]
fn equal_times_keep_insertion_order() {
    let mut db = Database::open_memory().unwrap();
    let a = Identity::from_secret([3; 32]);
    let first = EventBuilder::post("first").at(100).sign(&a);
    let second = EventBuilder::post("second").at(100).sign(&a);
    db.store_own_event(&first).unwrap();
    db.cache_event(&second).unwrap();
    let posts: Vec<String> = db.get_posts(5).unwrap().into_iter().map(|e| e.content).collect();
    assert_eq!(posts, vec!["first", "second"]);
    assert_eq!(db.own_event_count().unwrap(), 1);
}

#[test]
fn incoming_events_are_validated_and_stored_once() {
    let mut db = Database::open_memory().unwrap();
    let a = Identity::generate();
    let e = EventBuilder::post("from a peer").sign(&a);
    assert!(process_incoming_event(&mut db, &e).unwrap());
    assert!(!process_incoming_event(&mut db, &e).unwrap());
    assert_eq!(db.cached_event_count().unwrap(), 1);
    let mut bad = EventBuilder::post("other").sign(&a);
    bad.content = "changed".into();
    assert!(matches!(process_incoming_event(&mut db, &bad), Err(SyncError::Validation(_))));
    assert_eq!(db.total_event_count().unwrap(), 1);
    assert!(events_to_push(&db).unwrap().is_empty());
    let own = EventBuilder::post("mine").sign(&a);
    db.store_own_event(&own).unwrap();
    assert_eq!(events_to_push(&db).unwrap().len(), 1);
}

#[test]
fn rows_rebuild_events() {
    let a = Identity::generate();
    let e = EventBuilder::post("row").topic("t").sign(&a);
    let back = event_from_row(&e.id, &e.pubkey.0, e.created_at, 1, e.content.clone(), vec![Tag::Topic("t".into())], &e.sig).unwrap();
    assert_eq!(back.id, e.id);
    assert_eq!(back.kind, EventKind::Post);
    assert_eq!(back.pubkey, PubKey(e.pubkey.0));
    assert!(event_from_row(&e.id[..31], &e.pubkey.0, 0, 1, String::new(), vec![], &e.sig).is_none());
    assert!(event_from_row(&e.id, &e.pubkey.0, 0, 10, String::new(), vec![], &e.sig).is_none());
    assert_eq!(event_from_row(&e.id, &e.pubkey.0, 0, 258, String::new(), vec![], &e.sig).unwrap().kind, EventKind::Reply);
}

#[test]
fn budget_default() {
    assert_eq!(StorageBudget::default().max_cached_events, 10_000);
}

#[test]
fn incoming_events_keep_stored_rows_and_own_count() {
    let mut db = Database::open_memory().unwrap();
    let me = Identity::from_secret([4; 32]);
    let peer = Identity::from_secret([5; 32]);
    let mine = EventBuilder::post("mine").at(1).sign(&me);
    db.store_own_event(&mine).unwrap();
    let own_before = db.own_event_count().unwrap();
    let theirs = EventBuilder::post("theirs").at(2).sign(&peer);
    process_incoming_event(&mut db, &theirs).unwrap();
    // An incoming copy of an own event changes nothing.
    assert!(!process_incoming_event(&mut db, &mine).unwrap());
    assert_eq!(db.own_event_count().unwrap(), own_before);
    assert_eq!(db.own_event_count().unwrap() + db.cached_event_count().unwrap(), db.total_event_count().unwrap());
    assert_eq!(db.get_event(&mine.id).unwrap().unwrap().content, "mine");
    let first: Vec<[u8; 32]> = db.get_timeline(10).unwrap().iter().map(|e| e.id).collect();
    let again: Vec<[u8; 32]> = db.get_timeline(10).unwrap().iter().map(|e| e.id).collect();
    assert_eq!(first, again);
    assert_eq!(first, vec![theirs.id, mine.id]);
}

#[test]
fn own_events_are_never_evicted_or_demoted() {
    let mut db = Database::open_memory().unwrap();
    let me = Identity::from_secret([6; 32]);
    let peer = Identity::from_secret([7; 32]);
    let mine = EventBuilder::post("kept").at(1).sign(&me);
    db.store_own_event(&mine).unwrap();
    db.cache_event(&mine).unwrap();
    assert_eq!(db.cached_event_count().unwrap(), 0);
    for i in 0..20 {
        db.cache_event(&EventBuilder::post(&format!("c{i}")).at(i + 2).sign(&peer)).unwrap();
    }
    assert_eq!(db.cached_event_count().unwrap(), 20);
    let own: Vec<String> = db.get_own_events().unwrap().into_iter().map(|e| e.content).collect();
    assert_eq!(own, vec!["kept"]);
    assert_eq!(db.own_event_count().unwrap(), 1);
}
