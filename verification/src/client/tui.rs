//! The terminal client's state and decisions: screens, selection, input
//! editing and commands. Drawing, the terminal and the network live around it.

use vstd::prelude::*;
use vstd::string::*;
use crate::client::text::{
    char_at_byte, char_at_byte_of, chars_of, is_ws, lemma_ascii_utf8_len, lemma_char_at_byte, lemma_utf8_len_edit,
    trim_range, trimmed, trim_bounds, utf8_len, utf8_len_of,
};
use crate::encoding::{decimal_text, push_decimal_text};
use crate::event::builder::EventBuilder;
use crate::event::types::{first_ref, Event, EventId, EventModel, RefTag, MAX_POST_LENGTH};
use crate::event::validate::{validate_event, validation_failure};
use crate::identity::keypair::Identity;
use crate::network::node::NodeEvent;
use crate::network::sync::{after_all_incoming, after_incoming, any_stored};
use crate::storage::db::{answers, events_model, holds_id, insert_result, lemma_answer_len, matching, Database, Query, RowModel};

verus! {

/// Which screen the TUI is showing.
#[derive(Debug, Clone, Copy, PartialEq, Eq)]
pub enum Screen {
    Timeline,
    Compose,
    Thread(EventId),
    Profile,
}

/// Input mode for the TUI.
#[derive(Debug, Clone, Copy, PartialEq, Eq, Structural)]
pub enum InputMode {
    /// Navigating the UI (vim-style keys).
    Normal,
    /// Typing into an input field.
    Editing,
}

/// The position of the first space (U+0020), or the length when there is none.
pub open spec fn first_space(s: Seq<char>) -> int
    decreases s.len(),
{
    if s.len() == 0 {
        0
    } else if s[0] == ' ' {
        0
    } else {
        1 + first_space(s.drop_first())
    }
}

/// The mathematical value of a command.
pub enum CommandModel {
    Post(Seq<char>),
    Reply(Seq<char>),
    Peers,
    WhoAmI,
    Thread,
    Stats,
    Help,
}

/// A command entered with a `/` prefix.
#[derive(Debug)]
pub enum Command {
    /// `/post <message>` or `/p`: publish a post.
    Post(String),
    /// `/reply <message>` or `/r`: reply to the selected post.
    Reply(String),
    /// `/peers`: list connected peers.
    Peers,
    /// `/whoami` or `/id`: show the identity.
    WhoAmI,
    /// `/thread` or `/t`: view the selected post's thread.
    Thread,
    /// `/stats`: database statistics.
    Stats,
    /// `/help`, `/h` or `/?`.
    Help,
}

impl View for Command {
    type V = CommandModel;

    open spec fn view(&self) -> CommandModel {
        match self {
            Command::Post(a) => CommandModel::Post(a@),
            Command::Reply(a) => CommandModel::Reply(a@),
            Command::Peers => CommandModel::Peers,
            Command::WhoAmI => CommandModel::WhoAmI,
            Command::Thread => CommandModel::Thread,
            Command::Stats => CommandModel::Stats,
            Command::Help => CommandModel::Help,
        }
    }
}

/// The command a command word and its arguments name, if the word is one.
pub open spec fn command_of(word: Seq<char>, args: Seq<char>) -> Option<CommandModel> {
    if word == "/post"@ || word == "/p"@ {
        Some(CommandModel::Post(args))
    } else if word == "/reply"@ || word == "/r"@ {
        Some(CommandModel::Reply(args))
    } else if word == "/peers"@ {
        Some(CommandModel::Peers)
    } else if word == "/whoami"@ || word == "/id"@ {
        Some(CommandModel::WhoAmI)
    } else if word == "/thread"@ || word == "/t"@ {
        Some(CommandModel::Thread)
    } else if word == "/stats"@ {
        Some(CommandModel::Stats)
    } else if word == "/help"@ || word == "/h"@ || word == "/?"@ {
        Some(CommandModel::Help)
    } else {
        None
    }
}

/// The command an input line holds: after trimming it must start with `/`;
/// the command word runs to the first space and must be a known one, and the
/// arguments are the rest, trimmed. Anything else is no command.
pub open spec fn parse_command_spec(input: Seq<char>) -> Option<CommandModel> {
    let t = trimmed(input);
    if t.len() == 0 || t[0] != '/' {
        None
    } else {
        let k = first_space(t);
        let args = if k < t.len() { trimmed(t.subrange(k + 1, t.len() as int)) } else { Seq::empty() };
        command_of(t.subrange(0, k), args)
    }
}

fn is_word(word: &String, lit: &str) -> (b: bool)
    ensures
        b == (word@ == lit@),
{
    let w = String::from_str(lit);
    *word == w
}

/// Parse a command line. `None` when it is not a recognized command.
pub fn parse_command(input: &str) -> (r: Option<Command>)
    ensures
        match r {
            Some(c) => parse_command_spec(input@) == Some(c@),
            None => parse_command_spec(input@) is None,
        },
{
    let chars = chars_of(input);
    let (a, b) = trim_range(&chars);
    if a == b || chars[a] != '/' {
        return None;
    }
    let t = input.substring_char(a, b);
    let ghost ts = t@;
    proof {
        assert(ts == trimmed(input@));
    }
    let mut k: usize = a;
    proof {
        assert(ts.subrange(0, ts.len() as int) =~= ts);
    }
    while k < b && chars[k] != ' '
        invariant
            a <= k <= b <= chars@.len(),
            chars@ == input@,
            ts == input@.subrange(a as int, b as int),
            forall|i: int| a <= i < k ==> chars@[i] != ' ',
            first_space(ts) == (k - a) + first_space(ts.subrange(k - a, ts.len() as int)),
        decreases b - k,
    {
        proof {
            let rest = ts.subrange(k - a, ts.len() as int);
            assert(rest.drop_first() =~= ts.subrange(k + 1 - a, ts.len() as int));
            assert(rest[0] == chars@[k as int]);
        }
        k = k + 1;
    }
    proof {
        let rest = ts.subrange(k - a, ts.len() as int);
        if k < b {
            assert(rest[0] == ' ');
        } else {
            assert(rest.len() == 0);
        }
        assert(first_space(ts) == k - a);
    }
    let word = String::from_str(input.substring_char(a, k));
    proof {
        assert(word@ =~= ts.subrange(0, k - a));
    }
    let args = if k < b {
        let rest = input.substring_char(k + 1, b);
        let rest_chars = chars_of(rest);
        let (ra, rb) = trim_range(&rest_chars);
        proof {
            assert(rest@ =~= ts.subrange(k + 1 - a, ts.len() as int));
        }
        String::from_str(rest.substring_char(ra, rb))
    } else {
        String::new()
    };
    if is_word(&word, "/post") || is_word(&word, "/p") {
        Some(Command::Post(args))
    } else if is_word(&word, "/reply") || is_word(&word, "/r") {
        Some(Command::Reply(args))
    } else if is_word(&word, "/peers") {
        Some(Command::Peers)
    } else if is_word(&word, "/whoami") || is_word(&word, "/id") {
        Some(Command::WhoAmI)
    } else if is_word(&word, "/thread") || is_word(&word, "/t") {
        Some(Command::Thread)
    } else if is_word(&word, "/stats") {
        Some(Command::Stats)
    } else if is_word(&word, "/help") || is_word(&word, "/h") || is_word(&word, "/?") {
        Some(Command::Help)
    } else {
        None
    }
}


/// What a command asks the client to do.
pub enum Plan {
    /// Show this message.
    Message(String),
    /// Publish a post with this content.
    PublishPost(String),
    /// Reply to the selected post with this content.
    PublishReply(String),
    /// Open the selected post's thread.
    OpenThread,
    /// List the connected peers.
    ListPeers,
    /// Show the identity.
    ShowIdentity,
    /// Show database statistics.
    ShowStats,
    /// Show the help text.
    ShowHelp,
}

pub enum PlanModel {
    Message(Seq<char>),
    PublishPost(Seq<char>),
    PublishReply(Seq<char>),
    OpenThread,
    ListPeers,
    ShowIdentity,
    ShowStats,
    ShowHelp,
}

impl View for Plan {
    type V = PlanModel;

    open spec fn view(&self) -> PlanModel {
        match self {
            Plan::Message(m) => PlanModel::Message(m@),
            Plan::PublishPost(c) => PlanModel::PublishPost(c@),
            Plan::PublishReply(c) => PlanModel::PublishReply(c@),
            Plan::OpenThread => PlanModel::OpenThread,
            Plan::ListPeers => PlanModel::ListPeers,
            Plan::ShowIdentity => PlanModel::ShowIdentity,
            Plan::ShowStats => PlanModel::ShowStats,
            Plan::ShowHelp => PlanModel::ShowHelp,
        }
    }
}

/// What each command asks for: posts need a non-empty message of at most
/// 500 characters; replies and threads need a selected post.
pub open spec fn plan_of(c: CommandModel, has_selection: bool) -> PlanModel {
    match c {
        CommandModel::Post(args) => if args.len() == 0 {
            PlanModel::Message("Usage: /post <message>"@)
        } else if args.len() > MAX_POST_LENGTH {
            PlanModel::Message("Post too long: "@ + decimal_text(args.len()) + " chars (max 500)"@)
        } else {
            PlanModel::PublishPost(args)
        },
        CommandModel::Reply(args) => if !has_selection {
            PlanModel::Message("No post selected to reply to"@)
        } else if args.len() == 0 {
            PlanModel::Message("Usage: /reply <message> (replies to selected post)"@)
        } else {
            PlanModel::PublishReply(args)
        },
        CommandModel::Peers => PlanModel::ListPeers,
        CommandModel::WhoAmI => PlanModel::ShowIdentity,
        CommandModel::Thread => if has_selection {
            PlanModel::OpenThread
        } else {
            PlanModel::Message("No post selected"@)
        },
        CommandModel::Stats => PlanModel::ShowStats,
        CommandModel::Help => PlanModel::ShowHelp,
    }
}

/// Decide what a command asks for.
pub fn plan_command(c: Command, has_selection: bool) -> (p: Plan)
    ensures
        p@ == plan_of(c@, has_selection),
{
    match c {
        Command::Post(args) => {
            let n = args.as_str().unicode_len();
            if n == 0 {
                Plan::Message(String::from_str("Usage: /post <message>"))
            } else if n > MAX_POST_LENGTH {
                let mut m = String::from_str("Post too long: ");
                push_decimal_text(&mut m, n as u64);
                m.append(" chars (max 500)");
                Plan::Message(m)
            } else {
                Plan::PublishPost(args)
            }
        },
        Command::Reply(args) => {
            if !has_selection {
                Plan::Message(String::from_str("No post selected to reply to"))
            } else if args.as_str().unicode_len() == 0 {
                Plan::Message(String::from_str("Usage: /reply <message> (replies to selected post)"))
            } else {
                Plan::PublishReply(args)
            }
        },
        Command::Peers => Plan::ListPeers,
        Command::WhoAmI => Plan::ShowIdentity,
        Command::Thread => {
            if has_selection {
                Plan::OpenThread
            } else {
                Plan::Message(String::from_str("No post selected"))
            }
        },
        Command::Stats => Plan::ShowStats,
        Command::Help => Plan::ShowHelp,
    }
}

/// The decimal text of a signed integer.
pub open spec fn signed_text(n: int) -> Seq<char> {
    if n < 0 {
        seq!['-'] + decimal_text((-n) as nat)
    } else {
        decimal_text(n as nat)
    }
}

fn push_signed_text(s: &mut String, n: i64)
    ensures
        final(s)@ == old(s)@ + signed_text(n as int),
{
    if n < 0 {
        proof {
            reveal_strlit("-");
        }
        s.append("-");
        let mag: u64 = (0i128 - n as i128) as u64;
        push_decimal_text(s, mag);
        proof {
            assert(final(s)@ =~= old(s)@ + signed_text(n as int));
        }
    } else {
        push_decimal_text(s, n as u64);
    }
}

/// The statistics line: event totals and the peer count.
pub fn stats_text(total: i64, cached: i64, peers: usize) -> (s: String)
    ensures
        s@ == "Events: "@ + signed_text(total as int) + " total ("@ + signed_text(cached as int)
            + " cached from others)\nPeers: "@ + decimal_text(peers as nat),
{
    let mut s = String::from_str("Events: ");
    push_signed_text(&mut s, total);
    s.append(" total (");
    push_signed_text(&mut s, cached);
    s.append(" cached from others)\nPeers: ");
    push_decimal_text(&mut s, peers as u64);
    s
}

/// What a submitted input line is.
pub enum Submission {
    /// A command line (it starts with `/`): the command, if it is a
    /// recognized one.
    Command(Option<Command>),
    /// Plain text to publish as a post.
    Post(String),
    /// Nothing to do: the line is blank.
    Nothing,
}

/// Classify a submitted line: a line that starts with `/` is a command;
/// other non-blank text is posted as typed.
pub fn classify_submission(line: &str) -> (s: Submission)
    ensures
        match s {
            Submission::Command(c) => line@.len() > 0 && line@[0] == '/' && match c {
                Some(c) => parse_command_spec(line@) == Some(c@),
                None => parse_command_spec(line@) is None,
            },
            Submission::Post(text) => !(line@.len() > 0 && line@[0] == '/') && trimmed(line@).len() > 0
                && text@ == line@,
            Submission::Nothing => !(line@.len() > 0 && line@[0] == '/') && trimmed(line@).len() == 0,
        },
{
    let chars = chars_of(line);
    if chars.len() > 0 && chars[0] == '/' {
        return Submission::Command(parse_command(line));
    }
    let (a, b) = trim_range(&chars);
    if a < b {
        Submission::Post(String::from_str(line))
    } else {
        Submission::Nothing
    }
}


/// How long ago something happened, in the terminal's short form.
pub open spec fn relative_time_text(diff: int) -> Seq<char> {
    if diff < 0 {
        "just now"@
    } else if diff < 60 {
        decimal_text(diff as nat) + "s"@
    } else if diff < 3600 {
        decimal_text((diff / 60) as nat) + "m"@
    } else if diff < 86400 {
        decimal_text((diff / 3600) as nat) + "h"@
    } else {
        decimal_text((diff / 86400) as nat) + "d"@
    }
}

/// The short text for a number of elapsed seconds.
pub fn relative_time_text_of(diff: i64) -> (s: String)
    ensures
        s@ == relative_time_text(diff as int),
{
    let (n, unit): (u64, &str) = if diff < 0 {
        return String::from_str("just now");
    } else if diff < 60 {
        (diff as u64, "s")
    } else if diff < 3600 {
        ((diff / 60) as u64, "m")
    } else if diff < 86400 {
        ((diff / 3600) as u64, "h")
    } else {
        ((diff / 86400) as u64, "d")
    };
    let mut s = String::new();
    push_decimal_text(&mut s, n);
    s.append(unit);
    proof {
        assert(s@ =~= relative_time_text(diff as int));
    }
    s
}

/// How long ago a timestamp was, as of the current time, in short form.
pub fn format_relative_time(timestamp: i64) -> (s: String)
    ensures
        exists|now: i64| s@ == relative_time_text(crate::client::desktop::elapsed(timestamp, now)),
{
    let now = crate::clock::unix_now();
    let diff = match now.checked_sub(timestamp) {
        Some(d) => d,
        None => if now > timestamp { i64::MAX } else { i64::MIN },
    };
    let s = relative_time_text_of(diff);
    proof {
        assert(diff == crate::client::desktop::elapsed(timestamp, now));
        assert(s@ == relative_time_text(crate::client::desktop::elapsed(timestamp, now)));
    }
    s
}

/// The marker the timeline shows before each kind of event.
pub open spec fn kind_marker_text(k: crate::event::types::EventKind) -> Seq<char> {
    match k {
        crate::event::types::EventKind::Post => "●"@,
        crate::event::types::EventKind::Reply => "↳"@,
        crate::event::types::EventKind::Repost => "↻"@,
        crate::event::types::EventKind::Reaction => "♥"@,
        _ => "•"@,
    }
}

pub fn kind_marker(k: crate::event::types::EventKind) -> (s: &'static str)
    ensures
        s@ == kind_marker_text(k),
{
    match k {
        crate::event::types::EventKind::Post => "●",
        crate::event::types::EventKind::Reply => "↳",
        crate::event::types::EventKind::Repost => "↻",
        crate::event::types::EventKind::Reaction => "♥",
        _ => "•",
    }
}

/// A key press, as the terminal reports it.
#[derive(Debug, Clone, Copy, PartialEq, Eq)]
pub enum Key {
    Char(char),
    Enter,
    Esc,
    Backspace,
    Left,
    Right,
    Up,
    Down,
    Home,
    End,
    Other,
}

/// The reply a post gets: a reply to the parent, placed in the parent's
/// thread when the parent is itself in a thread (it names a thread root
/// other than itself).
pub open spec fn reply_root(parent: Option<EventModel>, parent_id: Seq<u8>) -> Seq<u8> {
    match parent {
        Some(p) => match first_ref(p.tags, RefTag::ThreadRoot) {
            Some(r) => r,
            None => parent_id,
        },
        None => parent_id,
    }
}

/// `found` is what looking up `id` in the store gives: a stored event with
/// that id, or nothing when none is stored.
pub open spec fn lookup_gives(rows: Seq<RowModel>, id: Seq<u8>, found: Option<EventModel>) -> bool {
    match found {
        Some(m) => exists|i: int| 0 <= i < rows.len() && rows[i].event.id == id && m == rows[i].event,
        None => !holds_id(rows, id),
    }
}

/// Sign a post and keep it in the author's archive.
pub fn compose_post(identity: &Identity, db: &mut Database, content: &str) -> (e: Event)
    ensures
        e@.kind == crate::event::types::EventKind::Post,
        e@.content == content@,
        e@.tags == Seq::<crate::event::types::TagModel>::empty(),
        e@.pubkey == crate::crypto::ed25519_public_key(identity@),
        e@.id == crate::event::serialize::event_id_of(e@.pubkey, e@.created_at, e@.kind, e@.content, e@.tags),
        e@.sig == crate::crypto::ed25519_signature(identity@, e@.id),
        final(db)@ == insert_result(old(db)@, e@, true),
{
    let event = EventBuilder::post(content).sign(identity);
    let _ = db.store_own_event(&event);
    event
}

/// Sign a reply to `parent_id` and keep it in the author's archive. The
/// thread root is the parent's thread root when the stored parent names one,
/// else the parent; the reply carries a root tag only when the two differ.
pub fn compose_reply(identity: &Identity, db: &mut Database, content: &str, parent_id: EventId) -> (e: Event)
    ensures
        e@.kind == crate::event::types::EventKind::Reply,
        e@.content == content@,
        exists|parent: Option<EventModel>|
            #[trigger] lookup_gives(old(db)@, parent_id@, parent) && e@.tags == if reply_root(parent, parent_id@) == parent_id@ {
                seq![crate::event::types::TagModel::ParentId(parent_id@)]
            } else {
                seq![crate::event::types::TagModel::ParentId(parent_id@), crate::event::types::TagModel::ThreadRootId(reply_root(parent, parent_id@))]
            },
        e@.pubkey == crate::crypto::ed25519_public_key(identity@),
        e@.id == crate::event::serialize::event_id_of(e@.pubkey, e@.created_at, e@.kind, e@.content, e@.tags),
        e@.sig == crate::crypto::ed25519_signature(identity@, e@.id),
        final(db)@ == insert_result(old(db)@, e@, true),
{
    let parent = match db.get_event(&parent_id) {
        Ok(p) => p,
        Err(_) => None,
    };
    let root_id: EventId = match &parent {
        Some(p) => match p.thread_root_id() {
            Some(r) => *r,
            None => parent_id,
        },
        None => parent_id,
    };
    let ghost parent_model: Option<EventModel> = match parent {
        Some(p) => Some(p@),
        None => None,
    };
    proof {
        assert(root_id@ == reply_root(parent_model, parent_id@));
        assert(lookup_gives(old(db)@, parent_id@, parent_model));
    }
    let event = if crate::event::types::ids_equal(&root_id, &parent_id) {
        EventBuilder::reply(content, parent_id).sign(identity)
    } else {
        EventBuilder::reply_in_thread(content, parent_id, root_id).sign(identity)
    };
    let _ = db.store_own_event(&event);
    event
}


/// The terminal client's state.
pub struct TuiState {
    /// Current screen.
    pub screen: Screen,
    /// Current input mode.
    pub input_mode: InputMode,
    /// Text input buffer (for composing posts and commands).
    pub input: Vec<char>,
    /// Cursor position in the input buffer, as a byte offset into its UTF-8
    /// text.
    pub cursor_pos: usize,
    /// Timeline: posts and replies, newest first.
    pub timeline: Vec<Event>,
    /// Currently selected index (in the timeline, or in the thread view).
    pub selected: usize,
    /// Number of connected peers.
    pub peer_count: usize,
    /// Status message to display.
    pub status_message: Option<String>,
    /// Whether the app should quit.
    pub should_quit: bool,
    /// Thread being viewed: (root, replies).
    pub current_thread: Option<(Event, Vec<Event>)>,
}

/// The mathematical value of the client's state.
pub struct TuiModel {
    pub screen: Screen,
    pub input_mode: InputMode,
    pub input: Seq<char>,
    pub cursor_pos: usize,
    pub timeline: Seq<EventModel>,
    pub selected: usize,
    pub peer_count: usize,
    pub status_message: Option<Seq<char>>,
    pub should_quit: bool,
    pub current_thread: Option<(EventModel, Seq<EventModel>)>,
}

/// The view of an optional string.
pub open spec fn opt_string(s: Option<String>) -> Option<Seq<char>> {
    match s {
        Some(t) => Some(t@),
        None => None,
    }
}

/// The view of an optional thread.
pub open spec fn opt_thread(t: Option<(Event, Vec<Event>)>) -> Option<(EventModel, Seq<EventModel>)> {
    match t {
        Some((root, replies)) => Some((root@, events_model(replies@))),
        None => None,
    }
}

impl View for TuiState {
    type V = TuiModel;

    open spec fn view(&self) -> TuiModel {
        TuiModel {
            screen: self.screen,
            input_mode: self.input_mode,
            input: self.input@,
            cursor_pos: self.cursor_pos,
            timeline: events_model(self.timeline@),
            selected: self.selected,
            peer_count: self.peer_count,
            status_message: opt_string(self.status_message),
            should_quit: self.should_quit,
            current_thread: opt_thread(self.current_thread),
        }
    }
}

/// The number of events the timeline shows.
pub open spec fn timeline_size() -> int {
    100
}

/// The input buffer's cursor lies within the buffer's UTF-8 text.
pub open spec fn cursor_ok(s: &TuiState) -> bool {
    s.cursor_pos <= utf8_len(s.input@)
}

/// The selection after moving up.
pub open spec fn selected_up(m: TuiModel) -> usize {
    if m.selected > 0 {
        (m.selected - 1) as usize
    } else {
        0
    }
}

/// The selection after moving down: on the timeline up to its last post, in
/// a thread up to its last reply (the root is position 0), elsewhere kept.
pub open spec fn selected_down(m: TuiModel) -> usize {
    match m.screen {
        Screen::Timeline => if m.selected + 1 < m.timeline.len() {
            (m.selected + 1) as usize
        } else {
            m.selected
        },
        Screen::Thread(_) => match m.current_thread {
            Some((_, replies)) => if m.selected < replies.len() {
                (m.selected + 1) as usize
            } else {
                m.selected
            },
            None => m.selected,
        },
        _ => m.selected,
    }
}

/// The selection after the timeline is shown again with `n` entries: moved
/// onto the last entry when it fell off the list, else kept.
pub open spec fn clamp_selection(s: usize, n: int) -> usize {
    if s >= n && n > 0 {
        (n - 1) as usize
    } else {
        s
    }
}

/// How many entries the timeline shows for a store: its posts and replies,
/// at most 100.
pub open spec fn timeline_len(rows: Seq<RowModel>) -> int {
    let m = matching(rows, Query::PostsAndReplies).len();
    if m < timeline_size() {
        m as int
    } else {
        timeline_size()
    }
}

/// The selection after a batch of events from the network is taken in one
/// by one: each event that is stored shows the timeline again.
pub open spec fn batch_selection(rows: Seq<RowModel>, events: Seq<EventModel>, s: usize) -> usize
    decreases events.len(),
{
    if events.len() == 0 {
        s
    } else {
        let before = after_all_incoming(rows, events.drop_last());
        let s0 = batch_selection(rows, events.drop_last(), s);
        if !holds_id(before, events.last().id) && validation_failure(events.last()) is None {
            clamp_selection(s0, timeline_len(after_incoming(before, events.last())))
        } else {
            s0
        }
    }
}

/// `after` is `before` showing the newest posts and replies of the store
/// again (at most 100), with the selection moved onto the last one when it
/// fell off the list.
pub open spec fn refreshed(before: TuiModel, rows: Seq<RowModel>, after: TuiModel) -> bool {
    &&& answers(rows, Query::PostsAndReplies, true, timeline_size(), after.timeline)
    &&& after == TuiModel {
        timeline: after.timeline,
        selected: clamp_selection(before.selected, after.timeline.len() as int),
        ..before
    }
}

/// `after` is `before` with the thread of `root_id` opened (the root and its
/// replies, oldest first, the root selected), or with a message saying the
/// root is not stored.
pub open spec fn thread_opened(before: TuiModel, rows: Seq<RowModel>, root_id: Seq<u8>, after: TuiModel) -> bool {
    if holds_id(rows, root_id) {
        &&& after.screen matches Screen::Thread(id) && id@ == root_id
        &&& after.current_thread matches Some((root, replies)) && lookup_gives(rows, root_id, Some(root)) && answers(
            rows,
            Query::InThread(root_id),
            false,
            rows.len() as int,
            replies,
        )
        &&& after == TuiModel { screen: after.screen, selected: 0, current_thread: after.current_thread, ..before }
    } else {
        after == TuiModel { status_message: Some("Thread root not found"@), ..before }
    }
}

/// What a key does in navigation mode: quit (`q`, Ctrl-C), move (`j`/`k`,
/// arrows), compose (`n`), reply to the selected post (`r`), open its thread
/// (Enter), go back (Esc), type a command (`:` or `/`), show the profile
/// (`i`), refresh (`R`); other keys do nothing.
pub open spec fn normal_key_result(before: TuiModel, rows: Seq<RowModel>, key: Key, ctrl: bool, after: TuiModel) -> bool {
    if key == Key::Char('q') || (key == Key::Char('c') && ctrl) {
        after == TuiModel { should_quit: true, ..before }
    } else if key == Key::Char('j') || key == Key::Down {
        after == TuiModel { selected: selected_down(before), ..before }
    } else if key == Key::Char('k') || key == Key::Up {
        after == TuiModel { selected: selected_up(before), ..before }
    } else if key == Key::Char('n') {
        after == TuiModel {
            screen: Screen::Compose,
            input_mode: InputMode::Editing,
            input: Seq::empty(),
            cursor_pos: 0,
            ..before
        }
    } else if key == Key::Char('r') {
        if before.selected < before.timeline.len() {
            after == TuiModel { input: "/reply "@, cursor_pos: 7, input_mode: InputMode::Editing, ..before }
        } else {
            after == TuiModel { status_message: Some("No post selected to reply to"@), ..before }
        }
    } else if key == Key::Enter {
        if before.selected < before.timeline.len() {
            thread_opened(before, rows, before.timeline[before.selected as int].id, after)
        } else {
            after == before
        }
    } else if key == Key::Esc {
        if before.screen != Screen::Timeline {
            refreshed(TuiModel { screen: Screen::Timeline, current_thread: None, selected: 0, ..before }, rows, after)
        } else {
            after == before
        }
    } else if key == Key::Char(':') || key == Key::Char('/') {
        after == TuiModel { input: "/"@, cursor_pos: 1, input_mode: InputMode::Editing, ..before }
    } else if key == Key::Char('i') {
        after == TuiModel { screen: Screen::Profile, ..before }
    } else if key == Key::Char('R') {
        &&& refreshed(before, rows, TuiModel { status_message: before.status_message, ..after })
        &&& after.status_message == Some("Timeline refreshed"@)
    } else {
        after == before
    }
}

/// Whether a character may be typed: text is limited to 500 characters
/// unless it is a command.
pub open spec fn may_type(input: Seq<char>) -> bool {
    input.len() < MAX_POST_LENGTH || (input.len() > 0 && input[0] == '/')
}

/// The state after leaving the input: back to navigation with an empty
/// buffer, and from the compose screen to the timeline.
pub open spec fn input_closed(before: TuiModel) -> TuiModel {
    TuiModel {
        input_mode: InputMode::Normal,
        input: Seq::empty(),
        cursor_pos: 0,
        screen: if before.screen == Screen::Compose {
            Screen::Timeline
        } else {
            before.screen
        },
        ..before
    }
}

/// What a key does while typing: Esc and Enter leave the input, typing
/// inserts at the cursor, Backspace deletes before it, the arrows, Home and
/// End move it; other keys do nothing. The cursor is a byte offset into the
/// input's UTF-8 text and moves one byte at a time.
pub open spec fn editing_key_result(before: TuiModel, key: Key) -> TuiModel {
    match key {
        Key::Esc => input_closed(before),
        Key::Enter => input_closed(before),
        Key::Char(c) => if may_type(before.input) {
            match char_at_byte(before.input, before.cursor_pos as int) {
                Some(k) => TuiModel {
                    input: before.input.insert(k, c),
                    cursor_pos: (before.cursor_pos + 1) as usize,
                    ..before
                },
                None => before,
            }
        } else {
            before
        },
        Key::Backspace => if before.cursor_pos > 0 {
            match char_at_byte(before.input, before.cursor_pos - 1) {
                Some(k) => TuiModel {
                    input: before.input.remove(k),
                    cursor_pos: (before.cursor_pos - 1) as usize,
                    ..before
                },
                None => before,
            }
        } else {
            before
        },
        Key::Left => TuiModel { cursor_pos: if before.cursor_pos > 0 { (before.cursor_pos - 1) as usize } else { 0 }, ..before },
        Key::Right => TuiModel {
            cursor_pos: if before.cursor_pos < utf8_len(before.input) {
                (before.cursor_pos + 1) as usize
            } else {
                before.cursor_pos
            },
            ..before
        },
        Key::Home => TuiModel { cursor_pos: 0, ..before },
        Key::End => TuiModel { cursor_pos: utf8_len(before.input) as usize, ..before },
        _ => before,
    }
}

/// The keys a typing state can take: typing needs the cursor at the start
/// of a character (or the end), and Backspace needs a character to start
/// one byte before the cursor. (Elsewhere inserting into or removing from
/// the text would split a character.)
pub open spec fn editing_key_defined(m: TuiModel, key: Key) -> bool {
    match key {
        Key::Char(_) => may_type(m.input) ==> char_at_byte(m.input, m.cursor_pos as int) is Some,
        Key::Backspace => m.cursor_pos > 0 ==> char_at_byte(m.input, m.cursor_pos - 1) is Some,
        _ => true,
    }
}

fn string_chars(s: &str) -> (v: Vec<char>)
    ensures
        v@ == s@,
{
    chars_of(s)
}

impl TuiState {
    /// The state at start-up, showing the given timeline.
    pub fn new(timeline: Vec<Event>) -> (s: Self)
        ensures
            s@ == (TuiModel {
                screen: Screen::Timeline,
                input_mode: InputMode::Normal,
                input: Seq::empty(),
                cursor_pos: 0,
                timeline: events_model(timeline@),
                selected: 0,
                peer_count: 0,
                status_message: Some("Welcome to Murmur! Press 'n' to compose, 'q' to quit."@),
                should_quit: false,
                current_thread: None,
            }),
    {
        let s = TuiState {
            screen: Screen::Timeline,
            input_mode: InputMode::Normal,
            input: Vec::new(),
            cursor_pos: 0,
            timeline,
            selected: 0,
            peer_count: 0,
            status_message: Some(String::from_str("Welcome to Murmur! Press 'n' to compose, 'q' to quit.")),
            should_quit: false,
            current_thread: None,
        };
        proof {
            assert(s.input@ =~= Seq::<char>::empty());
        }
        s
    }

    /// Get the currently selected event on the timeline.
    pub fn selected_event(&self) -> (e: Option<&Event>)
        ensures
            match e {
                Some(ev) => self.selected < self.timeline@.len() && *ev == self.timeline@[self.selected as int],
                None => self.selected >= self.timeline@.len(),
            },
    {
        if self.selected < self.timeline.len() {
            Some(&self.timeline[self.selected])
        } else {
            None
        }
    }

    /// Move selection up.
    pub fn select_up(&mut self)
        ensures
            final(self)@ == (TuiModel { selected: selected_up(old(self)@), ..old(self)@ }),
    {
        if self.selected > 0 {
            self.selected = self.selected - 1;
        }
    }

    /// Move selection down: on the timeline up to its last post, in a
    /// thread up to its last reply (the root is position 0).
    pub fn select_down(&mut self)
        ensures
            final(self)@ == (TuiModel { selected: selected_down(old(self)@), ..old(self)@ }),
    {
        match &self.screen {
            Screen::Timeline => {
                let last = if self.timeline.len() > 0 { self.timeline.len() - 1 } else { 0 };
                if self.selected < last {
                    self.selected = self.selected + 1;
                }
            },
            Screen::Thread(_) => {
                let n: Option<usize> = match &self.current_thread {
                    Some((_, replies)) => Some(replies.len()),
                    None => None,
                };
                match n {
                    Some(n) => {
                        if self.selected < n {
                            self.selected = self.selected + 1;
                        }
                    },
                    None => {},
                }
            },
            _ => {},
        }
    }

    /// Show the newest posts and replies again (up to 100), keeping the
    /// selection on the list.
    pub fn refresh_timeline(&mut self, db: &Database)
        ensures
            refreshed(old(self)@, db@, final(self)@),
    {
        match db.get_timeline(100) {
            Ok(events) => {
                self.timeline = events;
                if self.selected >= self.timeline.len() && self.timeline.len() > 0 {
                    self.selected = self.timeline.len() - 1;
                }
            },
            Err(_) => {},
        }
    }

    /// Open a thread: show the root and its replies, or say that the root
    /// is not stored.
    pub fn load_thread(&mut self, db: &Database, root_id: &EventId)
        ensures
            thread_opened(old(self)@, db@, root_id@, final(self)@),
    {
        match db.get_thread(root_id) {
            Ok((root, replies)) => {
                match root {
                    Some(root) => {
                        self.current_thread = Some((root, replies));
                        self.screen = Screen::Thread(*root_id);
                        self.selected = 0;
                    },
                    None => {
                        self.status_message = Some(String::from_str("Thread root not found"));
                    },
                }
            },
            Err(_) => {},
        }
    }

    /// Take in an event from the network: a valid event not yet stored is
    /// cached and the timeline refreshed. Returns whether it was stored.
    pub fn handle_incoming_event(&mut self, db: &mut Database, event: &Event) -> (stored: bool)
        ensures
            stored == (validation_failure(event@) is None && !holds_id(old(db)@, event@.id)),
            final(db)@ == after_incoming(old(db)@, event@),
            stored ==> refreshed(old(self)@, final(db)@, final(self)@),
            !stored ==> final(self)@ == old(self)@,
    {
        match validate_event(event) {
            Ok(()) => {},
            Err(_) => { return false; },
        }
        match db.has_event(&event.id) {
            Ok(true) => { return false; },
            Ok(false) => {},
            Err(_) => { return false; },
        }
        match db.cache_event(event) {
            Ok(()) => {},
            Err(_) => { return false; },
        }
        self.refresh_timeline(db);
        true
    }

    /// Take in what the network reports. A new peer is announced (the caller
    /// then pushes the own events to it, which this returns `true` to ask
    /// for), a lost peer too; a peer count is kept; events are taken in one
    /// by one. `peer_label` is how the peer is written in messages.
    pub fn handle_node_event(&mut self, db: &mut Database, event: &NodeEvent, peer_label: &str) -> (push_own: bool)
        ensures
            push_own == (event is PeerDiscovered),
            match event {
                NodeEvent::PeerDiscovered(_) => final(db)@ == old(db)@ && final(self)@ == (TuiModel {
                    status_message: Some("Peer discovered: "@ + peer_label@),
                    ..old(self)@
                }),
                NodeEvent::PeerLost(_) => final(db)@ == old(db)@ && final(self)@ == (TuiModel {
                    status_message: Some("Peer disconnected: "@ + peer_label@),
                    ..old(self)@
                }),
                NodeEvent::PeerCountChanged(n) => final(db)@ == old(db)@ && final(self)@ == (TuiModel {
                    peer_count: *n,
                    ..old(self)@
                }),
                NodeEvent::EventReceived(e) => {
                    &&& final(db)@ == after_incoming(old(db)@, e@)
                    &&& (!holds_id(old(db)@, e@.id) && validation_failure(e@) is None) ==> refreshed(
                        old(self)@,
                        final(db)@,
                        final(self)@,
                    )
                    &&& !(!holds_id(old(db)@, e@.id) && validation_failure(e@) is None) ==> final(self)@ == old(self)@
                },
                NodeEvent::EventsReceived(es) => {
                    &&& final(db)@ == after_all_incoming(old(db)@, events_model(es@))
                    &&& final(self)@ == (TuiModel {
                        timeline: final(self)@.timeline,
                        selected: final(self)@.selected,
                        ..old(self)@
                    })
                    &&& any_stored(old(db)@, events_model(es@)) ==> answers(
                        final(db)@,
                        Query::PostsAndReplies,
                        true,
                        timeline_size(),
                        final(self)@.timeline,
                    )
                    &&& final(self)@.selected == batch_selection(old(db)@, events_model(es@), old(self)@.selected)
                    &&& !any_stored(old(db)@, events_model(es@)) ==> final(self)@ == old(self)@
                },
            },
    {
        match event {
            NodeEvent::PeerDiscovered(_) => {
                let mut m = String::from_str("Peer discovered: ");
                m.append(peer_label);
                self.status_message = Some(m);
                true
            },
            NodeEvent::PeerLost(_) => {
                let mut m = String::from_str("Peer disconnected: ");
                m.append(peer_label);
                self.status_message = Some(m);
                false
            },
            NodeEvent::PeerCountChanged(n) => {
                self.peer_count = *n;
                false
            },
            NodeEvent::EventReceived(e) => {
                self.handle_incoming_event(db, e);
                false
            },
            NodeEvent::EventsReceived(es) => {
                let ghost start = db@;
                let ghost batch = events_model(es@);
                let ghost before = self@;
                let mut i: usize = 0;
                while i < es.len()
                    invariant
                        i <= es@.len(),
                        batch == events_model(es@),
                        db@ == after_all_incoming(start, batch.take(i as int)),
                        self@ == (TuiModel { timeline: self@.timeline, selected: self@.selected, ..before }),
                        any_stored(start, batch.take(i as int)) ==> answers(
                            db@,
                            Query::PostsAndReplies,
                            true,
                            timeline_size(),
                            self@.timeline,
                        ),
                        self@.selected == batch_selection(start, batch.take(i as int), before.selected),
                        !any_stored(start, batch.take(i as int)) ==> self@ == before,
                    decreases es@.len() - i,
                {
                    let ghost db_before = db@;
                    let ghost state_before = self@;
                    let stored = self.handle_incoming_event(db, &es[i]);
                    proof {
                        let t = batch.take(i + 1);
                        assert(t.drop_last() =~= batch.take(i as int));
                        assert(t.last() == es@[i as int]@);
                        if !stored {
                            assert(db@ == db_before);
                        } else {
                            lemma_answer_len(db@, Query::PostsAndReplies, true, timeline_size(), self@.timeline);
                            assert(self@.timeline.len() == timeline_len(db@));
                        }
                    }
                    i = i + 1;
                }
                proof {
                    assert(batch.take(es@.len() as int) =~= batch);
                }
                false
            },
        }
    }

    /// After publishing: refresh the timeline and show the message.
    pub fn after_publish(&mut self, db: &Database, message: &str)
        ensures
            refreshed(old(self)@, db@, TuiModel { status_message: old(self)@.status_message, ..final(self)@ }),
            final(self)@.status_message == Some(message@),
    {
        self.refresh_timeline(db);
        self.status_message = Some(String::from_str(message));
    }

    /// Handle a key in navigation mode.
    pub fn handle_normal_key(&mut self, db: &Database, key: Key, ctrl: bool)
        requires
            cursor_ok(old(self)),
        ensures
            cursor_ok(final(self)),
            normal_key_result(old(self)@, db@, key, ctrl, final(self)@),
    {
        match key {
            Key::Char('q') => {
                self.should_quit = true;
            },
            Key::Char('c') if ctrl => {
                self.should_quit = true;
            },
            Key::Char('j') | Key::Down => self.select_down(),
            Key::Char('k') | Key::Up => self.select_up(),
            Key::Char('n') => {
                self.screen = Screen::Compose;
                self.input_mode = InputMode::Editing;
                self.input = Vec::new();
                self.cursor_pos = 0;
                proof {
                    assert(self.input@ =~= Seq::<char>::empty());
                }
            },
            Key::Char('r') => {
                if self.selected < self.timeline.len() {
                    proof {
                        reveal_strlit("/reply ");
                        lemma_ascii_utf8_len("/reply "@);
                    }
                    self.input = string_chars("/reply ");
                    self.cursor_pos = 7;
                    self.input_mode = InputMode::Editing;
                } else {
                    self.status_message = Some(String::from_str("No post selected to reply to"));
                }
            },
            Key::Enter => {
                if self.selected < self.timeline.len() {
                    let id = self.timeline[self.selected].id;
                    self.load_thread(db, &id);
                }
            },
            Key::Esc => {
                if !matches!(self.screen, Screen::Timeline) {
                    self.screen = Screen::Timeline;
                    self.current_thread = None;
                    self.selected = 0;
                    self.refresh_timeline(db);
                }
            },
            Key::Char(':') | Key::Char('/') => {
                proof {
                    reveal_strlit("/");
                    lemma_ascii_utf8_len("/"@);
                }
                self.input = string_chars("/");
                self.cursor_pos = 1;
                self.input_mode = InputMode::Editing;
            },
            Key::Char('i') => {
                self.screen = Screen::Profile;
            },
            Key::Char('R') => {
                self.refresh_timeline(db);
                self.status_message = Some(String::from_str("Timeline refreshed"));
            },
            _ => {},
        }
    }

    /// Handle a key while typing. Enter hands back the line typed (and
    /// clears the buffer); other keys edit the buffer. Text is limited to
    /// 500 characters unless it is a command.
    pub fn handle_editing_key(&mut self, key: Key) -> (submitted: Option<Vec<char>>)
        requires
            cursor_ok(old(self)),
            utf8_len(old(self).input@) < usize::MAX,
            old(self).input@.len() < usize::MAX,
            editing_key_defined(old(self)@, key),
        ensures
            cursor_ok(final(self)),
            final(self)@ == editing_key_result(old(self)@, key),
            match submitted {
                Some(line) => key == Key::Enter && line@ == old(self)@.input,
                None => key != Key::Enter,
            },
    {
        match key {
            Key::Esc => {
                self.input_mode = InputMode::Normal;
                self.input = Vec::new();
                self.cursor_pos = 0;
                if matches!(self.screen, Screen::Compose) {
                    self.screen = Screen::Timeline;
                }
                proof {
                    assert(self.input@ =~= Seq::<char>::empty());
                    assert(utf8_len(self.input@) == 0);
                }
                None
            },
            Key::Enter => {
                let mut line: Vec<char> = Vec::new();
                std::mem::swap(&mut line, &mut self.input);
                self.cursor_pos = 0;
                self.input_mode = InputMode::Normal;
                if matches!(self.screen, Screen::Compose) {
                    self.screen = Screen::Timeline;
                }
                proof {
                    assert(self.input@ =~= Seq::<char>::empty());
                    assert(utf8_len(self.input@) == 0);
                }
                Some(line)
            },
            Key::Char(c) => {
                if self.input.len() < MAX_POST_LENGTH || (self.input.len() > 0 && self.input[0] == '/') {
                    match char_at_byte_of(&self.input, self.cursor_pos) {
                        Some(k) => {
                            proof {
                                lemma_char_at_byte(self.input@, self.cursor_pos as int, k as int);
                                lemma_utf8_len_edit(self.input@, k as int, c);
                            }
                            self.input.insert(k, c);
                            self.cursor_pos = self.cursor_pos + 1;
                        },
                        None => {},
                    }
                }
                None
            },
            Key::Backspace => {
                if self.cursor_pos > 0 {
                    match char_at_byte_of(&self.input, self.cursor_pos - 1) {
                        Some(k) => {
                            proof {
                                lemma_char_at_byte(self.input@, self.cursor_pos - 1, k as int);
                                if k == self.input@.len() {
                                    assert(self.input@.take(k as int) =~= self.input@);
                                }
                                lemma_utf8_len_edit(self.input@, k as int, ' ');
                                lemma_utf8_len_edit(self.input@.remove(k as int), k as int, ' ');
                            }
                            self.cursor_pos = self.cursor_pos - 1;
                            self.input.remove(k);
                        },
                        None => {},
                    }
                }
                None
            },
            Key::Left => {
                if self.cursor_pos > 0 {
                    self.cursor_pos = self.cursor_pos - 1;
                }
                None
            },
            Key::Right => {
                if self.cursor_pos < utf8_len_of(&self.input) {
                    self.cursor_pos = self.cursor_pos + 1;
                }
                None
            },
            Key::Home => {
                self.cursor_pos = 0;
                None
            },
            Key::End => {
                self.cursor_pos = utf8_len_of(&self.input);
                None
            },
            _ => None,
        }
    }
}

/// With no space before the index `k` and a space at `k` (or `k` at the
/// end), the first space is at `k`.
proof fn lemma_first_space_at(s: Seq<char>, k: int)
    requires
        0 <= k <= s.len(),
        forall|i: int| 0 <= i < k ==> s[i] != ' ',
        k < s.len() ==> s[k] == ' ',
    ensures
        first_space(s) == k,
    decreases k,
{
    if k > 0 {
        let d = s.drop_first();
        assert forall|i: int| 0 <= i < k - 1 implies d[i] != ' ' by {
            assert(d[i] == s[i + 1]);
        }
        if k < s.len() {
            assert(d[k - 1] == s[k]);
        }
        lemma_first_space_at(d, k - 1);
    }
}

/// A line that trims to a command word alone, or to a command word, one
/// space and a rest, parses as that word with no arguments, or with the
/// rest trimmed as arguments.
proof fn lemma_parse_word(input: Seq<char>, w: Seq<char>, rest: Seq<char>, spaced: bool)
    requires
        w.len() > 0,
        w[0] == '/',
        forall|i: int| 0 <= i < w.len() ==> w[i] != ' ',
        trimmed(input) == (if spaced { w + seq![' '] + rest } else { w }),
    ensures
        parse_command_spec(input) == command_of(w, if spaced { trimmed(rest) } else { Seq::empty() }),
{
    let t = trimmed(input);
    let k = w.len() as int;
    assert forall|i: int| 0 <= i < k implies t[i] != ' ' by {
        assert(t[i] == w[i]);
    }
    if spaced {
        assert(t[k] == ' ');
    }
    lemma_first_space_at(t, k);
    assert(t.subrange(0, k) =~= w);
    if spaced {
        assert(t.subrange(k + 1, t.len() as int) =~= rest);
    }
}

/// Each documented command word is recognized, written alone (`/thread`)
/// or followed by a space and arguments (`/post hello`), with any white
/// space around the line: `/post` and `/p` publish, `/reply` and `/r` reply,
/// `/peers` lists peers, `/whoami` and `/id` show the identity, `/thread`
/// and `/t` open the thread, `/stats` shows statistics, and `/help`, `/h`
/// and `/?` show help. Only a post and a reply keep their arguments.
pub proof fn lemma_command_words(input: Seq<char>, rest: Seq<char>)
    ensures
        trimmed(input) == "/post"@ ==> parse_command_spec(input) == Some(CommandModel::Post(Seq::empty())),
        trimmed(input) == "/post"@ + seq![' '] + rest ==> parse_command_spec(input) == Some(CommandModel::Post(trimmed(rest))),
        trimmed(input) == "/p"@ ==> parse_command_spec(input) == Some(CommandModel::Post(Seq::empty())),
        trimmed(input) == "/p"@ + seq![' '] + rest ==> parse_command_spec(input) == Some(CommandModel::Post(trimmed(rest))),
        trimmed(input) == "/reply"@ ==> parse_command_spec(input) == Some(CommandModel::Reply(Seq::empty())),
        trimmed(input) == "/reply"@ + seq![' '] + rest ==> parse_command_spec(input) == Some(CommandModel::Reply(trimmed(rest))),
        trimmed(input) == "/r"@ ==> parse_command_spec(input) == Some(CommandModel::Reply(Seq::empty())),
        trimmed(input) == "/r"@ + seq![' '] + rest ==> parse_command_spec(input) == Some(CommandModel::Reply(trimmed(rest))),
        trimmed(input) == "/peers"@ ==> parse_command_spec(input) == Some(CommandModel::Peers),
        trimmed(input) == "/peers"@ + seq![' '] + rest ==> parse_command_spec(input) == Some(CommandModel::Peers),
        trimmed(input) == "/whoami"@ ==> parse_command_spec(input) == Some(CommandModel::WhoAmI),
        trimmed(input) == "/whoami"@ + seq![' '] + rest ==> parse_command_spec(input) == Some(CommandModel::WhoAmI),
        trimmed(input) == "/id"@ ==> parse_command_spec(input) == Some(CommandModel::WhoAmI),
        trimmed(input) == "/id"@ + seq![' '] + rest ==> parse_command_spec(input) == Some(CommandModel::WhoAmI),
        trimmed(input) == "/thread"@ ==> parse_command_spec(input) == Some(CommandModel::Thread),
        trimmed(input) == "/thread"@ + seq![' '] + rest ==> parse_command_spec(input) == Some(CommandModel::Thread),
        trimmed(input) == "/t"@ ==> parse_command_spec(input) == Some(CommandModel::Thread),
        trimmed(input) == "/t"@ + seq![' '] + rest ==> parse_command_spec(input) == Some(CommandModel::Thread),
        trimmed(input) == "/stats"@ ==> parse_command_spec(input) == Some(CommandModel::Stats),
        trimmed(input) == "/stats"@ + seq![' '] + rest ==> parse_command_spec(input) == Some(CommandModel::Stats),
        trimmed(input) == "/help"@ ==> parse_command_spec(input) == Some(CommandModel::Help),
        trimmed(input) == "/help"@ + seq![' '] + rest ==> parse_command_spec(input) == Some(CommandModel::Help),
        trimmed(input) == "/h"@ ==> parse_command_spec(input) == Some(CommandModel::Help),
        trimmed(input) == "/h"@ + seq![' '] + rest ==> parse_command_spec(input) == Some(CommandModel::Help),
        trimmed(input) == "/?"@ ==> parse_command_spec(input) == Some(CommandModel::Help),
        trimmed(input) == "/?"@ + seq![' '] + rest ==> parse_command_spec(input) == Some(CommandModel::Help),
{
    reveal_strlit("/post");
    reveal_strlit("/p");
    reveal_strlit("/reply");
    reveal_strlit("/r");
    reveal_strlit("/peers");
    reveal_strlit("/whoami");
    reveal_strlit("/id");
    reveal_strlit("/thread");
    reveal_strlit("/t");
    reveal_strlit("/stats");
    reveal_strlit("/help");
    reveal_strlit("/h");
    reveal_strlit("/?");
    assert("/post"@ =~= seq!['/', 'p', 'o', 's', 't']);
    if trimmed(input) == "/post"@ {
        lemma_parse_word(input, "/post"@, rest, false);
    }
    if trimmed(input) == "/post"@ + seq![' '] + rest {
        lemma_parse_word(input, "/post"@, rest, true);
    }
    assert("/p"@ =~= seq!['/', 'p']);
    if trimmed(input) == "/p"@ {
        lemma_parse_word(input, "/p"@, rest, false);
    }
    if trimmed(input) == "/p"@ + seq![' '] + rest {
        lemma_parse_word(input, "/p"@, rest, true);
    }
    assert("/reply"@ =~= seq!['/', 'r', 'e', 'p', 'l', 'y']);
    if trimmed(input) == "/reply"@ {
        lemma_parse_word(input, "/reply"@, rest, false);
    }
    if trimmed(input) == "/reply"@ + seq![' '] + rest {
        lemma_parse_word(input, "/reply"@, rest, true);
    }
    assert("/r"@ =~= seq!['/', 'r']);
    if trimmed(input) == "/r"@ {
        lemma_parse_word(input, "/r"@, rest, false);
    }
    if trimmed(input) == "/r"@ + seq![' '] + rest {
        lemma_parse_word(input, "/r"@, rest, true);
    }
    assert("/peers"@ =~= seq!['/', 'p', 'e', 'e', 'r', 's']);
    if trimmed(input) == "/peers"@ {
        lemma_parse_word(input, "/peers"@, rest, false);
    }
    if trimmed(input) == "/peers"@ + seq![' '] + rest {
        lemma_parse_word(input, "/peers"@, rest, true);
    }
    assert("/whoami"@ =~= seq!['/', 'w', 'h', 'o', 'a', 'm', 'i']);
    if trimmed(input) == "/whoami"@ {
        lemma_parse_word(input, "/whoami"@, rest, false);
    }
    if trimmed(input) == "/whoami"@ + seq![' '] + rest {
        lemma_parse_word(input, "/whoami"@, rest, true);
    }
    assert("/id"@ =~= seq!['/', 'i', 'd']);
    if trimmed(input) == "/id"@ {
        lemma_parse_word(input, "/id"@, rest, false);
    }
    if trimmed(input) == "/id"@ + seq![' '] + rest {
        lemma_parse_word(input, "/id"@, rest, true);
    }
    assert("/thread"@ =~= seq!['/', 't', 'h', 'r', 'e', 'a', 'd']);
    if trimmed(input) == "/thread"@ {
        lemma_parse_word(input, "/thread"@, rest, false);
    }
    if trimmed(input) == "/thread"@ + seq![' '] + rest {
        lemma_parse_word(input, "/thread"@, rest, true);
    }
    assert("/t"@ =~= seq!['/', 't']);
    if trimmed(input) == "/t"@ {
        lemma_parse_word(input, "/t"@, rest, false);
    }
    if trimmed(input) == "/t"@ + seq![' '] + rest {
        lemma_parse_word(input, "/t"@, rest, true);
    }
    assert("/stats"@ =~= seq!['/', 's', 't', 'a', 't', 's']);
    if trimmed(input) == "/stats"@ {
        lemma_parse_word(input, "/stats"@, rest, false);
    }
    if trimmed(input) == "/stats"@ + seq![' '] + rest {
        lemma_parse_word(input, "/stats"@, rest, true);
    }
    assert("/help"@ =~= seq!['/', 'h', 'e', 'l', 'p']);
    if trimmed(input) == "/help"@ {
        lemma_parse_word(input, "/help"@, rest, false);
    }
    if trimmed(input) == "/help"@ + seq![' '] + rest {
        lemma_parse_word(input, "/help"@, rest, true);
    }
    assert("/h"@ =~= seq!['/', 'h']);
    if trimmed(input) == "/h"@ {
        lemma_parse_word(input, "/h"@, rest, false);
    }
    if trimmed(input) == "/h"@ + seq![' '] + rest {
        lemma_parse_word(input, "/h"@, rest, true);
    }
    assert("/?"@ =~= seq!['/', '?']);
    if trimmed(input) == "/?"@ {
        lemma_parse_word(input, "/?"@, rest, false);
    }
    if trimmed(input) == "/?"@ + seq![' '] + rest {
        lemma_parse_word(input, "/?"@, rest, true);
    }
}

/// Typing a character and then deleting it gives back the input and the
/// cursor as they were.
pub proof fn lemma_type_then_delete(m: TuiModel, c: char)
    requires
        m.cursor_pos <= utf8_len(m.input) < usize::MAX,
        may_type(m.input),
        char_at_byte(m.input, m.cursor_pos as int) is Some,
    ensures
        editing_key_result(editing_key_result(m, Key::Char(c)), Key::Backspace) == m,
{
    let k = char_at_byte(m.input, m.cursor_pos as int)->0;
    lemma_char_at_byte(m.input, m.cursor_pos as int, k);
    lemma_utf8_len_edit(m.input, k, c);
    let typed = editing_key_result(m, Key::Char(c));
    assert(typed.cursor_pos == m.cursor_pos + 1);
    assert(typed.input == m.input.insert(k, c));
    lemma_char_at_byte(typed.input, m.cursor_pos as int, k);
    assert(char_at_byte(typed.input, typed.cursor_pos - 1) == Some(k));
    assert(typed.input.remove(k) =~= m.input);
    let back = editing_key_result(typed, Key::Backspace);
    assert(back.input == m.input && back.cursor_pos == m.cursor_pos);
}

/// Moving down and then up comes back to the same place, whenever there was
/// a place further down to move to.
pub proof fn lemma_down_then_up(m: TuiModel)
    requires
        m.selected < usize::MAX,
        selected_down(m) != m.selected,
    ensures
        selected_up(TuiModel { selected: selected_down(m), ..m }) == m.selected,
{
}

} // verus!
