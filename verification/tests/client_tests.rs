use murmur_core::client::desktop::{
    avatar_colour_from_pubkey, event_to_dto_at, event_to_post_info, parse_event_id, peer_count_after, post_feed,
    profile_info, take_in_event, thread_posts, time_ago_at,
};
use murmur_core::client::args::{parse_u16, select_port};
use murmur_core::client::text::{chars_of, trim_range};
use murmur_core::client::view::{author_label, chars_left, header_text, help_text, identity_text, peers_text, status_line};
use murmur_core::network::node::NodeEvent;
use murmur_core::client::tui::{
    classify_submission, compose_post, compose_reply, kind_marker, parse_command, plan_command,
    relative_time_text_of, stats_text, Command, InputMode, Key, Plan, Screen, Submission, TuiState,
};
use murmur_core::event::builder::EventBuilder;
use murmur_core::event::types::{EventKind, Tag};
use murmur_core::identity::keypair::Identity;
use murmur_core::storage::db::Database;
use murmur_core::temperature::{clamp_replication_target, ReplicationStrategy};

#[test]
fn avatar_colour_is_hue_of_first_six_hex_digits() {
    assert_eq!(avatar_colour_from_pubkey("00ff00aabbcc"), "hsl(120, 65%, 55%)");
    assert_eq!(avatar_colour_from_pubkey("000000"), "hsl(0, 65%, 55%)");
    assert_eq!(avatar_colour_from_pubkey("ffffff00"), "hsl(135, 65%, 55%)");
    assert_eq!(avatar_colour_from_pubkey("+0016a0"), "hsl(2, 65%, 55%)");
    assert_eq!(avatar_colour_from_pubkey("zzzzzz"), "hsl(0, 65%, 55%)");
}

#[test]
fn time_ago_bands() {
    assert_eq!(time_ago_at(1000, 1030), "just now");
    assert_eq!(time_ago_at(1000, 500), "just now");
    assert_eq!(time_ago_at(0, 120), "2m ago");
    assert_eq!(time_ago_at(0, 7200), "2h ago");
    assert_eq!(time_ago_at(0, 3 * 86400 + 5), "3d ago");
    assert_eq!(time_ago_at(i64::MIN, i64::MAX), format!("{}d ago", i64::MAX / 86400));
}

#[test]
fn relative_time_bands() {
    assert_eq!(relative_time_text_of(-5), "just now");
    assert_eq!(relative_time_text_of(0), "0s");
    assert_eq!(relative_time_text_of(30), "30s");
    assert_eq!(relative_time_text_of(90), "1m");
    assert_eq!(relative_time_text_of(3600), "1h");
    assert_eq!(relative_time_text_of(90000), "1d");
}

#[test]
fn commands_parse() {
    assert!(matches!(parse_command("  /post hello world  "), Some(Command::Post(a)) if a == "hello world"));
    assert!(matches!(parse_command("/p"), Some(Command::Post(a)) if a.is_empty()));
    assert!(matches!(parse_command("/r  hi there"), Some(Command::Reply(a)) if a == "hi there"));
    assert!(matches!(parse_command("/peers"), Some(Command::Peers)));
    assert!(matches!(parse_command("/id"), Some(Command::WhoAmI)));
    assert!(matches!(parse_command("/t"), Some(Command::Thread)));
    assert!(matches!(parse_command("/stats"), Some(Command::Stats)));
    assert!(matches!(parse_command("/?"), Some(Command::Help)));
    assert!(parse_command("/foo bar").is_none());
    assert!(parse_command("/").is_none());
    assert!(parse_command("/postx hi").is_none());
    assert!(parse_command("hello").is_none());
    assert!(parse_command("   ").is_none());
}

fn message_of(p: Plan) -> String {
    match p {
        Plan::Message(m) => m,
        _ => panic!("expected a message"),
    }
}

#[test]
fn command_plans() {
    assert_eq!(message_of(plan_command(Command::Post(String::new()), false)), "Usage: /post <message>");
    let long: String = "x".repeat(501);
    assert_eq!(
        message_of(plan_command(Command::Post(long), false)),
        "Post too long: 501 chars (max 500)"
    );
    assert!(matches!(plan_command(Command::Post("hi".into()), false), Plan::PublishPost(c) if c == "hi"));
    assert_eq!(
        message_of(plan_command(Command::Reply("hi".into()), false)),
        "No post selected to reply to"
    );
    assert_eq!(
        message_of(plan_command(Command::Reply(String::new()), true)),
        "Usage: /reply <message> (replies to selected post)"
    );
    assert!(matches!(plan_command(Command::Reply("ok".into()), true), Plan::PublishReply(c) if c == "ok"));
    assert!(matches!(plan_command(Command::Thread, true), Plan::OpenThread));
    assert_eq!(message_of(plan_command(Command::Thread, false)), "No post selected");
    assert!(matches!(plan_command(Command::Stats, false), Plan::ShowStats));
}

#[test]
fn statistics_line() {
    assert_eq!(stats_text(10, 4, 2), "Events: 10 total (4 cached from others)\nPeers: 2");
    assert_eq!(stats_text(-1, -1, 0), "Events: -1 total (-1 cached from others)\nPeers: 0");
}

#[test]
fn submissions() {
    assert!(matches!(classify_submission("/stats"), Submission::Command(Some(Command::Stats))));
    assert!(matches!(classify_submission("/"), Submission::Command(None)));
    assert!(matches!(classify_submission("/nope x"), Submission::Command(None)));
    assert!(matches!(classify_submission("  hello "), Submission::Post(t) if t == "  hello "));
    assert!(matches!(classify_submission("   "), Submission::Nothing));
    assert!(matches!(classify_submission(" /stats"), Submission::Post(_)));
}

#[test]
fn markers_and_trimming() {
    assert_eq!(kind_marker(EventKind::Post), "●");
    assert_eq!(kind_marker(EventKind::Reply), "↳");
    assert_eq!(kind_marker(EventKind::Repost), "↻");
    assert_eq!(kind_marker(EventKind::Reaction), "♥");
    assert_eq!(kind_marker(EventKind::Follow), "•");
    let c = chars_of("  ab c \t");
    assert_eq!(c.len(), 8);
    assert_eq!(trim_range(&c), (2, 6));
    assert_eq!(trim_range(&chars_of("   ")).0, trim_range(&chars_of("   ")).1);
}

#[test]
fn replies_join_the_parents_thread() {
    let mut db = Database::open_memory().unwrap();
    let id = Identity::generate();
    let root = compose_post(&id, &mut db, "root");
    let first = compose_reply(&id, &mut db, "first", root.id);
    assert!(matches!(first.tags.as_slice(), [Tag::ParentId(p)] if *p == root.id));
    let plain = compose_reply(&id, &mut db, "plain", first.id);
    assert!(matches!(plain.tags.as_slice(), [Tag::ParentId(p)] if *p == first.id));
    let mid = EventBuilder::reply_in_thread("mid", first.id, root.id).sign(&id);
    db.insert_event(&mid, false).unwrap();
    let second = compose_reply(&id, &mut db, "second", mid.id);
    assert!(matches!(second.tags.as_slice(), [Tag::ParentId(p), Tag::ThreadRootId(r)] if *p == mid.id && *r == root.id));
    let orphan = compose_reply(&id, &mut db, "orphan", [7u8; 32]);
    assert!(matches!(orphan.tags.as_slice(), [Tag::ParentId(p)] if *p == [7u8; 32]));
    assert_eq!(db.get_own_events().unwrap().len(), 5);
    let (r, replies) = db.get_thread(&root.id).unwrap();
    assert_eq!(r.unwrap().id, root.id);
    assert_eq!(replies.len(), 3);
}

#[test]
fn tui_navigation_and_editing() {
    let mut db = Database::open_memory().unwrap();
    let id = Identity::generate();
    let mut a = EventBuilder::post("a").sign(&id);
    a.created_at = 10;
    let mut b = EventBuilder::post("b").sign(&id);
    b.created_at = 20;
    db.insert_event(&a, true).unwrap();
    db.insert_event(&b, true).unwrap();

    let mut s = TuiState::new(Vec::new());
    assert_eq!(s.screen, Screen::Timeline);
    assert_eq!(s.status_message.as_deref(), Some("Welcome to Murmur! Press 'n' to compose, 'q' to quit."));
    s.handle_normal_key(&db, Key::Char('R'), false);
    assert_eq!(s.timeline.len(), 2);
    assert_eq!(s.timeline[0].content, "b");
    s.handle_normal_key(&db, Key::Char('j'), false);
    assert_eq!(s.selected, 1);
    s.handle_normal_key(&db, Key::Down, false);
    assert_eq!(s.selected, 1);
    s.handle_normal_key(&db, Key::Up, false);
    assert_eq!(s.selected, 0);
    assert_eq!(s.selected_event().unwrap().content, "b");

    s.handle_normal_key(&db, Key::Char('r'), false);
    assert_eq!(s.input.iter().collect::<String>(), "/reply ");
    assert_eq!(s.cursor_pos, 7);
    assert_eq!(s.input_mode, InputMode::Editing);
    for c in "hi".chars() {
        assert!(s.handle_editing_key(Key::Char(c)).is_none());
    }
    s.handle_editing_key(Key::Home);
    s.handle_editing_key(Key::Right);
    s.handle_editing_key(Key::Backspace);
    assert_eq!(s.input.iter().collect::<String>(), "reply hi");
    let line = s.handle_editing_key(Key::Enter).unwrap();
    assert_eq!(line.iter().collect::<String>(), "reply hi");
    assert!(s.input.is_empty());
    assert_eq!(s.input_mode, InputMode::Normal);

    s.handle_normal_key(&db, Key::Enter, false);
    assert_eq!(s.screen, Screen::Thread(b.id));
    s.handle_normal_key(&db, Key::Esc, false);
    assert_eq!(s.screen, Screen::Timeline);
    assert!(s.current_thread.is_none());

    s.load_thread(&db, &[9u8; 32]);
    assert_eq!(s.status_message.as_deref(), Some("Thread root not found"));
    s.handle_normal_key(&db, Key::Char('c'), true);
    assert!(s.should_quit);
}

#[test]
fn posts_longer_than_the_limit_stop_growing() {
    let mut s = TuiState::new(Vec::new());
    s.handle_normal_key(&Database::open_memory().unwrap(), Key::Char('n'), false);
    assert_eq!(s.screen, Screen::Compose);
    for _ in 0..505 {
        s.handle_editing_key(Key::Char('x'));
    }
    assert_eq!(s.input.len(), 500);
    s.handle_editing_key(Key::Esc);
    assert_eq!(s.screen, Screen::Timeline);
    assert!(s.input.is_empty());
}

#[test]
fn incoming_events_refresh_the_timeline() {
    let mut db = Database::open_memory().unwrap();
    let id = Identity::generate();
    let post = EventBuilder::post("from afar").sign(&id);
    let mut s = TuiState::new(Vec::new());
    assert!(s.handle_incoming_event(&mut db, &post));
    assert_eq!(s.timeline.len(), 1);
    assert!(!s.handle_incoming_event(&mut db, &post));
    let mut bad = EventBuilder::post("bad").sign(&id);
    bad.content = "changed".into();
    assert!(!s.handle_incoming_event(&mut db, &bad));
    assert_eq!(db.total_event_count().unwrap(), 1);
    assert_eq!(db.cached_event_count().unwrap(), 1);
}

#[test]
fn front_end_views_of_events() {
    let mut db = Database::open_memory().unwrap();
    let me = Identity::generate();
    let other = Identity::generate();
    let mut post = EventBuilder::post("hello").sign(&me);
    post.created_at = 1000;
    db.insert_event(&post, true).unwrap();
    let reply = EventBuilder::reply("hi", post.id).sign(&other);
    db.insert_event(&reply, false).unwrap();

    let dto = event_to_dto_at(&reply, &me.pubkey_hex(), reply.created_at + 150);
    assert_eq!(dto.id, hex::encode(reply.id));
    assert_eq!(dto.pubkey, other.pubkey_hex());
    assert_eq!(dto.kind, 2);
    assert_eq!(dto.kind_label, "reply");
    assert_eq!(dto.parent_id, Some(hex::encode(post.id)));
    assert_eq!(dto.thread_root_id, None);
    assert!(!dto.is_own);
    assert_eq!(dto.time_ago, "2m ago");

    let info = event_to_post_info(&post, &me.pubkey_hex(), &db);
    assert_eq!(info.author.name, "You");
    assert_eq!(info.reply_count, 1);
    assert_eq!(info.author.joined_at, 1000);
    assert!(!info.is_reply);
    assert_eq!(info.parent_id, None);
    assert_eq!(info.author.avatar_colour, avatar_colour_from_pubkey(&me.pubkey_hex()));

    let theirs = event_to_post_info(&reply, &me.pubkey_hex(), &db);
    let their_hex = other.pubkey_hex();
    assert_eq!(theirs.author.name, format!("{}…", &their_hex[..8]));
    assert!(theirs.is_reply);
    assert_eq!(theirs.reply_count, 0);

    let profile = profile_info(&their_hex, &db);
    assert_eq!(profile.post_count, 1);
    assert_eq!(profile.name, format!("{}…", &their_hex[..8]));
    let unknown = profile_info("not-a-key", &db);
    assert_eq!(unknown.post_count, 0);
    assert_eq!(unknown.name, "not-a-ke…");
}

#[test]
fn replication_targets_are_clamped() {
    assert_eq!(clamp_replication_target(0, 3, 200), 3);
    assert_eq!(clamp_replication_target(50, 3, 200), 50);
    assert_eq!(clamp_replication_target(5000, 3, 200), 200);
    assert_eq!(clamp_replication_target(7, 10, 5), 5);
    let s = ReplicationStrategy::Warm { target: clamp_replication_target(42, 3, 200) };
    assert!(matches!(s, ReplicationStrategy::Warm { target: 42 }));
}

#[test]
fn ports_from_arguments_and_environment() {
    assert_eq!(parse_u16("9001"), Some(9001));
    assert_eq!(parse_u16("+80"), Some(80));
    assert_eq!(parse_u16("0065535"), Some(65535));
    assert_eq!(parse_u16("65536"), None);
    assert_eq!(parse_u16("99999999999999999999"), None);
    assert_eq!(parse_u16(""), None);
    assert_eq!(parse_u16("+"), None);
    assert_eq!(parse_u16("-1"), None);
    assert_eq!(parse_u16(" 1"), None);
    for text in ["0", "1", "8080", "65535", "+7", "65536", "x1", "1x"] {
        assert_eq!(parse_u16(text), text.parse::<u16>().ok());
    }
    let args = |v: &[&str]| v.iter().map(|s| s.to_string()).collect::<Vec<String>>();
    assert_eq!(select_port(&args(&["murmur", "--port", "9100"]), Some("9200")), 9100);
    assert_eq!(select_port(&args(&["murmur", "-p", "bad", "-p", "9101"]), None), 9101);
    assert_eq!(select_port(&args(&["murmur", "--port"]), Some("9200")), 9200);
    assert_eq!(select_port(&args(&["murmur"]), Some("nope")), 9000);
    assert_eq!(select_port(&args(&["murmur"]), None), 9000);
}

#[test]
fn drawn_texts() {
    let me = Identity::generate();
    let other = Identity::generate();
    let mine = EventBuilder::post("m").sign(&me);
    let theirs = EventBuilder::post("t").sign(&other);
    assert_eq!(author_label(&mine, &me.pubkey_hex()), format!("{} (you)", me.pubkey_short()));
    assert_eq!(author_label(&theirs, &me.pubkey_hex()), other.pubkey_short());
    assert_eq!(
        header_text(&Screen::Thread([0u8; 32]), InputMode::Editing, 3, "abc…"),
        " murmur │ Thread │ COMPOSE │ 3 peers │ abc…"
    );
    let mut s = TuiState::new(vec![mine]);
    assert_eq!(status_line(&s), "Welcome to Murmur! Press 'n' to compose, 'q' to quit.");
    s.status_message = None;
    s.peer_count = 2;
    assert_eq!(status_line(&s), " 1 posts │ 2 peers │ /help for commands");
    assert_eq!(chars_left(&s), 500);
    s.input = vec!['a'; 498];
    assert_eq!(chars_left(&s), 2);
    s.input = vec!['a'; 600];
    assert_eq!(chars_left(&s), 0);
}

#[test]
fn network_notices() {
    let mut db = Database::open_memory().unwrap();
    let id = Identity::generate();
    let mut s = TuiState::new(Vec::new());
    assert!(s.handle_node_event(&mut db, &NodeEvent::PeerDiscovered(vec![1, 2]), "peer-a"));
    assert_eq!(s.status_message.as_deref(), Some("Peer discovered: peer-a"));
    assert!(!s.handle_node_event(&mut db, &NodeEvent::PeerLost(vec![1, 2]), "peer-a"));
    assert_eq!(s.status_message.as_deref(), Some("Peer disconnected: peer-a"));
    assert!(!s.handle_node_event(&mut db, &NodeEvent::PeerCountChanged(4), ""));
    assert_eq!(s.peer_count, 4);
    let a = EventBuilder::post("a").sign(&id);
    let b = EventBuilder::post("b").sign(&id);
    let mut bad = EventBuilder::post("c").sign(&id);
    bad.content = "forged".into();
    let batch = vec![a.clone(), bad, b, a];
    assert!(!s.handle_node_event(&mut db, &NodeEvent::EventsReceived(batch), ""));
    assert_eq!(db.total_event_count().unwrap(), 2);
    assert_eq!(s.timeline.len(), 2);
    let c = EventBuilder::post("c").sign(&id);
    s.handle_node_event(&mut db, &NodeEvent::EventReceived(c), "");
    assert_eq!(s.timeline.len(), 3);
}

#[test]
fn desktop_feeds_and_threads() {
    let mut db = Database::open_memory().unwrap();
    let me = Identity::generate();
    let mut root = EventBuilder::post("root").sign(&me);
    root.created_at = 5;
    let mut later = EventBuilder::post("later").at(9).sign(&me);
    later.created_at = 9;
    db.insert_event(&root, true).unwrap();
    db.insert_event(&later, true).unwrap();
    let reply = EventBuilder::reply("re", root.id).sign(&me);
    db.insert_event(&reply, true).unwrap();

    let feed = post_feed(&db, &me.pubkey_hex(), 10);
    assert_eq!(feed.len(), 2);
    assert_eq!(feed[0].content, "later");
    assert_eq!(feed[1].content, "root");
    assert_eq!(feed[1].reply_count, 1);
    assert_eq!(post_feed(&db, &me.pubkey_hex(), 1).len(), 1);

    let (r, replies) = thread_posts(&db, &me.pubkey_hex(), &root.id).unwrap();
    assert_eq!(r.id, hex::encode(root.id));
    assert_eq!(replies.len(), 1);
    assert_eq!(replies[0].parent_id, Some(hex::encode(root.id)));
    assert!(thread_posts(&db, &me.pubkey_hex(), &[3u8; 32]).is_none());

    assert_eq!(parse_event_id(&hex::encode(root.id)), Some(root.id));
    assert_eq!(parse_event_id(&hex::encode(root.id).to_uppercase()), Some(root.id));
    assert_eq!(parse_event_id("abcd"), None);
    assert_eq!(parse_event_id(&"zz".repeat(32)), None);
}

#[test]
fn desktop_network_notices() {
    assert_eq!(peer_count_after(2, &NodeEvent::PeerDiscovered(vec![1])), 3);
    assert_eq!(peer_count_after(2, &NodeEvent::PeerLost(vec![1])), 1);
    assert_eq!(peer_count_after(0, &NodeEvent::PeerLost(vec![1])), 0);
    assert_eq!(peer_count_after(7, &NodeEvent::PeerCountChanged(4)), 4);
    assert_eq!(peer_count_after(7, &NodeEvent::PeerCountChanged((1usize << 32) + 5)), 5);
    assert_eq!(peer_count_after(7, &NodeEvent::EventsReceived(vec![])), 7);

    let mut db = Database::open_memory().unwrap();
    let me = Identity::generate();
    let other = Identity::generate();
    let e = EventBuilder::post("from afar").sign(&other);
    let info = take_in_event(&mut db, &e, &me.pubkey_hex()).unwrap();
    assert_eq!(info.content, "from afar");
    assert_eq!(info.author.pubkey, other.pubkey_hex());
    assert!(take_in_event(&mut db, &e, &me.pubkey_hex()).is_none());
    let mut forged = EventBuilder::post("x").sign(&other);
    forged.sig = [0u8; 64];
    assert!(take_in_event(&mut db, &forged, &me.pubkey_hex()).is_none());
    assert_eq!(db.total_event_count().unwrap(), 1);
    assert_eq!(db.cached_event_count().unwrap(), 1);
}

#[test]
fn typing_then_deleting_restores_the_input() {
    let mut s = TuiState::new(Vec::new());
    s.handle_normal_key(&Database::open_memory().unwrap(), Key::Char('n'), false);
    for c in "abc".chars() {
        s.handle_editing_key(Key::Char(c));
    }
    s.handle_editing_key(Key::Left);
    let before: String = s.input.iter().collect();
    let cursor = s.cursor_pos;
    s.handle_editing_key(Key::Char('Z'));
    assert_eq!(s.input.iter().collect::<String>(), "abZc");
    s.handle_editing_key(Key::Backspace);
    assert_eq!(s.input.iter().collect::<String>(), before);
    assert_eq!(s.cursor_pos, cursor);
}

#[test]
fn moving_down_then_up_returns() {
    let mut db = Database::open_memory().unwrap();
    let id = Identity::generate();
    for (i, text) in ["a", "b", "c"].iter().enumerate() {
        db.insert_event(&EventBuilder::post(text).at(i as i64).sign(&id), true).unwrap();
    }
    let mut s = TuiState::new(db.get_posts(100).unwrap());
    s.handle_normal_key(&db, Key::Char('j'), false);
    s.handle_normal_key(&db, Key::Char('k'), false);
    assert_eq!(s.selected, 0);
    s.handle_normal_key(&db, Key::Char('j'), false);
    s.handle_normal_key(&db, Key::Char('j'), false);
    s.handle_normal_key(&db, Key::Char('j'), false);
    assert_eq!(s.selected, 2);
}

#[test]
fn trimming_follows_unicode_white_space() {
    for text in ["\u{3000} a \u{2028}", "\u{85}\u{a0}b\u{1680}", "\t\n\u{b}\u{c}\r", "x\u{200b}", "\u{205f}y z\u{202f}"] {
        let chars = chars_of(text);
        let (a, b) = trim_range(&chars);
        let ours: String = chars[a..b].iter().collect();
        assert_eq!(ours, text.trim());
    }
    assert!(matches!(parse_command("\u{3000}/p hi\u{a0}"), Some(Command::Post(a)) if a == "hi"));
}

#[test]
fn the_timeline_holds_posts_and_replies() {
    let mut db = Database::open_memory().unwrap();
    let id = Identity::generate();
    let post = EventBuilder::post("p").at(1).sign(&id);
    let reply = EventBuilder::reply("r", post.id).at(2).sign(&id);
    let reaction = EventBuilder::reaction(post.id, "+").at(3).sign(&id);
    db.insert_event(&reply, false).unwrap();
    let mut s = TuiState::new(Vec::new());
    s.refresh_timeline(&db);
    assert_eq!(s.timeline.len(), 1);
    assert_eq!(s.timeline[0].content, "r");
    db.insert_event(&post, true).unwrap();
    db.insert_event(&reaction, true).unwrap();
    s.refresh_timeline(&db);
    let contents: Vec<&str> = s.timeline.iter().map(|e| e.content.as_str()).collect();
    assert_eq!(contents, vec!["r", "p"]);
}

#[test]
fn command_answer_texts() {
    assert_eq!(peers_text(&vec![]), "No connected peers");
    assert_eq!(
        peers_text(&vec!["a".to_string(), "bc".to_string()]),
        "Connected peers (2):\n  a\n  bc"
    );
    assert_eq!(
        identity_text("ab", "12D3", "./d"),
        "Public key: ab\nPeer ID: 12D3\nData dir: ./d"
    );
    let help = help_text();
    assert!(help.starts_with("Commands:\n  /post <msg>  - Publish a post (or press 'n')\n"));
    assert!(help.ends_with("Esc           - Back / cancel\n  q             - Quit"));
}

#[test]
fn a_batch_moves_the_selection_at_each_stored_event() {
    let mut db = Database::open_memory().unwrap();
    let id = Identity::generate();
    let mut s = TuiState::new(Vec::new());
    s.selected = 5;
    let a = EventBuilder::post("a").at(1).sign(&id);
    let b = EventBuilder::post("b").at(2).sign(&id);
    s.handle_node_event(&mut db, &NodeEvent::EventsReceived(vec![a, b]), "");
    assert_eq!(s.timeline.len(), 2);
    assert_eq!(s.selected, 0);
}

#[test]
fn the_cursor_counts_bytes_of_the_text() {
    let mut s = TuiState::new(Vec::new());
    s.handle_normal_key(&Database::open_memory().unwrap(), Key::Char('n'), false);
    s.handle_editing_key(Key::Char('a'));
    s.handle_editing_key(Key::Char('é'));
    // The cursor moves one byte per key, as the text's byte offsets do.
    assert_eq!(s.cursor_pos, 2);
    s.handle_editing_key(Key::End);
    assert_eq!(s.cursor_pos, 3);
    assert_eq!(s.input.iter().collect::<String>(), "aé");
    s.handle_editing_key(Key::Char('b'));
    assert_eq!(s.input.iter().collect::<String>(), "aéb");
    assert_eq!(s.cursor_pos, 4);
    s.handle_editing_key(Key::Backspace);
    assert_eq!(s.input.iter().collect::<String>(), "aé");
    s.handle_editing_key(Key::Left);
    s.handle_editing_key(Key::Left);
    assert_eq!(s.cursor_pos, 1);
    s.handle_editing_key(Key::Char('x'));
    assert_eq!(s.input.iter().collect::<String>(), "axé");
    s.handle_editing_key(Key::Right);
    assert_eq!(s.cursor_pos, 3);
}
