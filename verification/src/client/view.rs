//! The text the terminal client draws: its header, status line, author
//! labels, the room left for a post, and the answers to the peer, identity
//! and help commands. Colours and layout are the
//! application's.

use vstd::prelude::*;
use vstd::string::*;
use crate::encoding::{decimal_text, hex_of, push_decimal_text};
use crate::event::types::{Event, MAX_POST_LENGTH};
use crate::client::tui::{opt_string, InputMode, Screen, TuiState};

verus! {

/// How an author is labelled: the short key, marked when it is the local
/// identity's.
pub open spec fn author_label_text(pubkey: Seq<u8>, own_hex: Seq<char>) -> Seq<char> {
    let short = hex_of(pubkey).take(16) + seq!['…'];
    if hex_of(pubkey) == own_hex {
        short + " (you)"@
    } else {
        short
    }
}

/// The label of an event's author.
pub fn author_label(event: &Event, own_pubkey_hex: &str) -> (s: String)
    ensures
        s@ == author_label_text(event@.pubkey, own_pubkey_hex@),
{
    let full = event.pubkey.to_hex();
    let own = String::from_str(own_pubkey_hex);
    let mut s = event.pubkey.short();
    if full == own {
        proof {
            reveal_strlit(" (you)");
        }
        s.append(" (you)");
    }
    s
}

/// The name of each screen.
pub open spec fn screen_name(s: Screen) -> Seq<char> {
    match s {
        Screen::Timeline => "Timeline"@,
        Screen::Compose => "Compose"@,
        Screen::Thread(_) => "Thread"@,
        Screen::Profile => "Profile"@,
    }
}

/// The name of each input mode.
pub open spec fn mode_name(m: InputMode) -> Seq<char> {
    match m {
        InputMode::Normal => "NORMAL"@,
        InputMode::Editing => "COMPOSE"@,
    }
}

/// The header line: screen, mode, peer count and the short key.
pub fn header_text(screen: &Screen, mode: InputMode, peers: usize, pubkey_short: &str) -> (s: String)
    ensures
        s@ == " murmur │ "@ + screen_name(*screen) + " │ "@ + mode_name(mode) + " │ "@ + decimal_text(peers as nat)
            + " peers │ "@ + pubkey_short@,
{
    let mut s = String::from_str(" murmur │ ");
    match screen {
        Screen::Timeline => s.append("Timeline"),
        Screen::Compose => s.append("Compose"),
        Screen::Thread(_) => s.append("Thread"),
        Screen::Profile => s.append("Profile"),
    }
    s.append(" │ ");
    match mode {
        InputMode::Normal => s.append("NORMAL"),
        InputMode::Editing => s.append("COMPOSE"),
    }
    s.append(" │ ");
    push_decimal_text(&mut s, peers as u64);
    s.append(" peers │ ");
    s.append(pubkey_short);
    s
}

/// The status line: the pending message, else the post and peer counts.
pub fn status_line(state: &TuiState) -> (s: String)
    ensures
        s@ == match opt_string(state.status_message) {
            Some(m) => m,
            None => " "@ + decimal_text(state.timeline@.len()) + " posts │ "@ + decimal_text(state.peer_count as nat)
                + " peers │ /help for commands"@,
        },
{
    match &state.status_message {
        Some(m) => m.clone(),
        None => {
            let mut s = String::from_str(" ");
            push_decimal_text(&mut s, state.timeline.len() as u64);
            s.append(" posts │ ");
            push_decimal_text(&mut s, state.peer_count as u64);
            s.append(" peers │ /help for commands");
            s
        },
    }
}

/// How many more characters a post may hold.
pub fn chars_left(state: &TuiState) -> (n: usize)
    ensures
        n == if state.input@.len() < MAX_POST_LENGTH { MAX_POST_LENGTH - state.input@.len() } else { 0 },
{
    if state.input.len() < MAX_POST_LENGTH {
        MAX_POST_LENGTH - state.input.len()
    } else {
        0
    }
}

/// The lines listing peers, each indented by two spaces, joined by line
/// breaks.
pub open spec fn peer_lines(peers: Seq<Seq<char>>) -> Seq<char>
    decreases peers.len(),
{
    if peers.len() == 0 {
        Seq::empty()
    } else if peers.len() == 1 {
        "  "@ + peers[0]
    } else {
        peer_lines(peers.drop_last()) + "\n  "@ + peers.last()
    }
}

/// The texts of a list of strings.
pub open spec fn texts_of(v: Seq<String>) -> Seq<Seq<char>> {
    v.map_values(|s: String| s@)
}

/// The answer to the peers command, given the peers' names.
pub fn peers_text(peers: &Vec<String>) -> (s: String)
    ensures
        s@ == if peers@.len() == 0 {
            "No connected peers"@
        } else {
            "Connected peers ("@ + decimal_text(peers@.len()) + "):\n"@ + peer_lines(texts_of(peers@))
        },
{
    if peers.len() == 0 {
        return String::from_str("No connected peers");
    }
    let mut s = String::from_str("Connected peers (");
    push_decimal_text(&mut s, peers.len() as u64);
    s.append("):\n");
    let ghost head = s@;
    let ghost ps = texts_of(peers@);
    let mut i: usize = 0;
    while i < peers.len()
        invariant
            i <= peers@.len(),
            ps == texts_of(peers@),
            s@ == head + peer_lines(ps.take(i as int)),
        decreases peers@.len() - i,
    {
        proof {
            reveal_strlit("  ");
            reveal_strlit("\n  ");
        }
        if i == 0 {
            s.append("  ");
        } else {
            s.append("\n  ");
        }
        s.append(peers[i].as_str());
        proof {
            let t = ps.take(i + 1);
            assert(t.drop_last() =~= ps.take(i as int));
            assert(t.last() == peers@[i as int]@);
            if i == 0 {
                assert(ps.take(0 as int).len() == 0);
                assert(peer_lines(t) == "  "@ + t[0]);
                assert(s@ =~= head + peer_lines(t));
            } else {
                assert(s@ =~= head + peer_lines(t));
            }
        }
        i = i + 1;
    }
    proof {
        assert(ps.take(peers@.len() as int) =~= ps);
    }
    s
}

/// The answer to the identity command.
pub fn identity_text(pubkey_hex: &str, peer_id: &str, data_dir: &str) -> (s: String)
    ensures
        s@ == "Public key: "@ + pubkey_hex@ + "\nPeer ID: "@ + peer_id@ + "\nData dir: "@ + data_dir@,
{
    let mut s = String::from_str("Public key: ");
    s.append(pubkey_hex);
    s.append("\nPeer ID: ");
    s.append(peer_id);
    s.append("\nData dir: ");
    s.append(data_dir);
    s
}

/// The help text: the commands and the keys.
pub fn help_text() -> (s: &'static str)
    ensures
        s@ == "Commands:\n  /post <msg>  - Publish a post (or press 'n')\n  /reply <msg> - Reply to selected post (or press 'r')\n  /thread      - View thread for selected post (or press Enter)\n  /peers       - List connected peers\n  /whoami      - Show your identity\n  /stats       - Show database statistics\n  /help        - Show this help\n\nKeys:\n  j/k or ↑/↓   - Navigate timeline\n  n             - New post\n  r             - Reply to selected\n  Enter         - View thread\n  Esc           - Back / cancel\n  q             - Quit"@,
{
    "Commands:\n  /post <msg>  - Publish a post (or press 'n')\n  /reply <msg> - Reply to selected post (or press 'r')\n  /thread      - View thread for selected post (or press Enter)\n  /peers       - List connected peers\n  /whoami      - Show your identity\n  /stats       - Show database statistics\n  /help        - Show this help\n\nKeys:\n  j/k or ↑/↓   - Navigate timeline\n  n             - New post\n  r             - Reply to selected\n  Enter         - View thread\n  Esc           - Back / cancel\n  q             - Quit"
}

} // verus!
