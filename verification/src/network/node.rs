//! The node's decisions: what to do on each command from the application
//! and each event from the peer-to-peer swarm.
//!
//! The swarm itself (transport, mDNS discovery, gossipsub broadcast and
//! request-response) runs around this state machine: it hands each input to
//! [`NodeState::step`] and performs the actions that come back. Peers are
//! identified by the bytes of their peer id.

use vstd::prelude::*;
use vstd::string::*;
use crate::encoding::{bytes_equal, copy_bytes};
use crate::event::types::{Event, EventModel};
use crate::network::protocol::{MurmurRequest, MurmurResponse, RequestModel, ResponseModel};
use crate::storage::db::events_model;

verus! {

/// Commands that can be sent to the network node from the application.
#[derive(Debug)]
pub enum NodeCommand {
    /// Broadcast a new event to all connected peers.
    BroadcastEvent(Event),
    /// Request sync from a specific peer.
    RequestSync { peer: Vec<u8>, since: i64 },
    /// Get the current peer list.
    GetPeers,
    /// Shutdown the node.
    Shutdown,
}

/// Events emitted by the network node to the application.
#[derive(Debug)]
pub enum NodeEvent {
    /// A new peer was discovered.
    PeerDiscovered(Vec<u8>),
    /// A peer disconnected.
    PeerLost(Vec<u8>),
    /// Received an event from the network.
    EventReceived(Event),
    /// Received a batch of events (from sync).
    EventsReceived(Vec<Event>),
    /// Number of connected peers changed.
    PeerCountChanged(usize),
}

/// What the swarm or the application hands the node.
pub enum NodeInput {
    /// A command from the application.
    Command(NodeCommand),
    /// The application's command channel has closed.
    CommandsClosed,
    /// mDNS discovered these peers.
    PeersDiscovered(Vec<Vec<u8>>),
    /// mDNS records for these peers expired.
    PeersExpired(Vec<Vec<u8>>),
    /// A gossipsub message arrived: the event it carried, or `None` when it
    /// did not decode as an event.
    Gossip(Option<Event>),
    /// A peer sent a request.
    Request(MurmurRequest),
    /// A peer answered one of our requests.
    Response(MurmurResponse),
    /// Anything else the swarm reports (new listen addresses and the like).
    Other,
}

/// What the node asks the swarm or the application to do.
pub enum NodeAction {
    /// Serialize the event and publish it on the events topic.
    Publish(Event),
    /// Send a request to a peer.
    SendRequest { peer: Vec<u8>, request: MurmurRequest },
    /// Answer the application's peer-list query.
    ReplyPeers(Vec<Vec<u8>>),
    /// Add a peer as an explicit gossipsub peer.
    AddExplicitPeer(Vec<u8>),
    /// Remove a peer from the explicit gossipsub peers.
    RemoveExplicitPeer(Vec<u8>),
    /// Tell the application something.
    Emit(NodeEvent),
    /// Answer the request that was just handed in.
    Respond(MurmurResponse),
    /// Stop the node.
    Stop,
}

pub enum NodeEventModel {
    PeerDiscovered(Seq<u8>),
    PeerLost(Seq<u8>),
    EventReceived(EventModel),
    EventsReceived(Seq<EventModel>),
    PeerCountChanged(usize),
}

pub enum ActionModel {
    Publish(EventModel),
    SendRequest { peer: Seq<u8>, request: RequestModel },
    ReplyPeers(Seq<Seq<u8>>),
    AddExplicitPeer(Seq<u8>),
    RemoveExplicitPeer(Seq<u8>),
    Emit(NodeEventModel),
    Respond(ResponseModel),
    Stop,
}

pub enum CommandModel {
    BroadcastEvent(EventModel),
    RequestSync { peer: Seq<u8>, since: i64 },
    GetPeers,
    Shutdown,
}

pub enum InputModel {
    Command(CommandModel),
    CommandsClosed,
    PeersDiscovered(Seq<Seq<u8>>),
    PeersExpired(Seq<Seq<u8>>),
    Gossip(Option<EventModel>),
    Request(RequestModel),
    Response(ResponseModel),
    Other,
}

/// The view of a list of peers.
pub open spec fn peers_model(peers: Seq<Vec<u8>>) -> Seq<Seq<u8>> {
    peers.map_values(|p: Vec<u8>| p@)
}

impl View for NodeEvent {
    type V = NodeEventModel;

    open spec fn view(&self) -> NodeEventModel {
        match self {
            NodeEvent::PeerDiscovered(p) => NodeEventModel::PeerDiscovered(p@),
            NodeEvent::PeerLost(p) => NodeEventModel::PeerLost(p@),
            NodeEvent::EventReceived(e) => NodeEventModel::EventReceived(e@),
            NodeEvent::EventsReceived(v) => NodeEventModel::EventsReceived(events_model(v@)),
            NodeEvent::PeerCountChanged(n) => NodeEventModel::PeerCountChanged(*n),
        }
    }
}

impl View for NodeAction {
    type V = ActionModel;

    open spec fn view(&self) -> ActionModel {
        match self {
            NodeAction::Publish(e) => ActionModel::Publish(e@),
            NodeAction::SendRequest { peer, request } => ActionModel::SendRequest { peer: peer@, request: request@ },
            NodeAction::ReplyPeers(ps) => ActionModel::ReplyPeers(peers_model(ps@)),
            NodeAction::AddExplicitPeer(p) => ActionModel::AddExplicitPeer(p@),
            NodeAction::RemoveExplicitPeer(p) => ActionModel::RemoveExplicitPeer(p@),
            NodeAction::Emit(ev) => ActionModel::Emit(ev@),
            NodeAction::Respond(r) => ActionModel::Respond(r@),
            NodeAction::Stop => ActionModel::Stop,
        }
    }
}

impl View for NodeCommand {
    type V = CommandModel;

    open spec fn view(&self) -> CommandModel {
        match self {
            NodeCommand::BroadcastEvent(e) => CommandModel::BroadcastEvent(e@),
            NodeCommand::RequestSync { peer, since } => CommandModel::RequestSync { peer: peer@, since: *since },
            NodeCommand::GetPeers => CommandModel::GetPeers,
            NodeCommand::Shutdown => CommandModel::Shutdown,
        }
    }
}

impl View for NodeInput {
    type V = InputModel;

    open spec fn view(&self) -> InputModel {
        match self {
            NodeInput::Command(c) => InputModel::Command(c@),
            NodeInput::CommandsClosed => InputModel::CommandsClosed,
            NodeInput::PeersDiscovered(ps) => InputModel::PeersDiscovered(peers_model(ps@)),
            NodeInput::PeersExpired(ps) => InputModel::PeersExpired(peers_model(ps@)),
            NodeInput::Gossip(e) => InputModel::Gossip(
                match e {
                    Some(e) => Some(e@),
                    None => None,
                },
            ),
            NodeInput::Request(r) => InputModel::Request(r@),
            NodeInput::Response(r) => InputModel::Response(r@),
            NodeInput::Other => InputModel::Other,
        }
    }
}

/// The view of a list of actions.
pub open spec fn actions_model(actions: Seq<NodeAction>) -> Seq<ActionModel> {
    actions.map_values(|a: NodeAction| a@)
}

/// No peer is listed twice.
pub open spec fn no_duplicates(peers: Seq<Seq<u8>>) -> bool {
    forall|i: int, j: int| 0 <= i < peers.len() && 0 <= j < peers.len() && i != j ==> peers[i] != peers[j]
}

/// The known peers without `p`.
pub open spec fn without(peers: Seq<Seq<u8>>, p: Seq<u8>) -> Seq<Seq<u8>>
    decreases peers.len(),
{
    if peers.len() == 0 {
        Seq::empty()
    } else {
        without(peers.drop_last(), p) + if peers.last() == p { Seq::empty() } else { seq![peers.last()] }
    }
}

/// A newly seen peer is recorded, added to gossip, announced with the new
/// peer count, and asked for everything it has; a known peer changes nothing.
pub open spec fn discover_one(known: Seq<Seq<u8>>, p: Seq<u8>) -> (Seq<Seq<u8>>, Seq<ActionModel>) {
    if known.contains(p) {
        (known, Seq::empty())
    } else {
        (
            known.push(p),
            seq![
                ActionModel::AddExplicitPeer(p),
                ActionModel::Emit(NodeEventModel::PeerDiscovered(p)),
                ActionModel::Emit(NodeEventModel::PeerCountChanged((known.len() + 1) as usize)),
                ActionModel::SendRequest { peer: p, request: RequestModel::SyncRequest(0) },
            ],
        )
    }
}

/// A known peer whose record expired is forgotten, removed from gossip, and
/// announced lost with the new peer count; an unknown peer changes nothing.
pub open spec fn expire_one(known: Seq<Seq<u8>>, p: Seq<u8>) -> (Seq<Seq<u8>>, Seq<ActionModel>) {
    if known.contains(p) {
        (
            without(known, p),
            seq![
                ActionModel::RemoveExplicitPeer(p),
                ActionModel::Emit(NodeEventModel::PeerLost(p)),
                ActionModel::Emit(NodeEventModel::PeerCountChanged(without(known, p).len() as usize)),
            ],
        )
    } else {
        (known, Seq::empty())
    }
}

/// Handle a list of peers one after the other.
pub open spec fn fold_peers(known: Seq<Seq<u8>>, peers: Seq<Seq<u8>>, discovering: bool) -> (Seq<Seq<u8>>, Seq<ActionModel>)
    decreases peers.len(),
{
    if peers.len() == 0 {
        (known, Seq::empty())
    } else {
        let (k1, a1) = if discovering { discover_one(known, peers[0]) } else { expire_one(known, peers[0]) };
        let (k2, a2) = fold_peers(k1, peers.drop_first(), discovering);
        (k2, a1 + a2)
    }
}

/// The answer to a peer's request: sync requests get an empty batch (the
/// application distributes events by gossip), event lookups are not served,
/// pushed events are passed on and accepted, and other requests are refused.
pub open spec fn request_actions(r: RequestModel) -> Seq<ActionModel> {
    match r {
        RequestModel::SyncRequest(_) => seq![ActionModel::Respond(ResponseModel::Events(Seq::empty()))],
        RequestModel::GetEvent(_) => seq![ActionModel::Respond(ResponseModel::NotFound)],
        RequestModel::PushEvent(e) => seq![
            ActionModel::Emit(NodeEventModel::EventReceived(e)),
            ActionModel::Respond(ResponseModel::Accepted),
        ],
        _ => seq![ActionModel::Respond(ResponseModel::Error("Not implemented yet"@))],
    }
}

/// What a peer's answer passes on: a non-empty batch or a single event.
pub open spec fn response_actions(r: ResponseModel) -> Seq<ActionModel> {
    match r {
        ResponseModel::Events(v) => if v.len() > 0 {
            seq![ActionModel::Emit(NodeEventModel::EventsReceived(v))]
        } else {
            Seq::empty()
        },
        ResponseModel::Event(e) => seq![ActionModel::Emit(NodeEventModel::EventReceived(e))],
        _ => Seq::empty(),
    }
}

/// The known peers after an input.
pub open spec fn next_known(known: Seq<Seq<u8>>, input: InputModel) -> Seq<Seq<u8>> {
    match input {
        InputModel::PeersDiscovered(ps) => fold_peers(known, ps, true).0,
        InputModel::PeersExpired(ps) => fold_peers(known, ps, false).0,
        _ => known,
    }
}

/// The actions for an input.
pub open spec fn step_actions(known: Seq<Seq<u8>>, input: InputModel) -> Seq<ActionModel> {
    match input {
        InputModel::Command(CommandModel::BroadcastEvent(e)) => seq![ActionModel::Publish(e)],
        InputModel::Command(CommandModel::RequestSync { peer, since }) => seq![
            ActionModel::SendRequest { peer, request: RequestModel::SyncRequest(since) },
        ],
        InputModel::Command(CommandModel::GetPeers) => seq![ActionModel::ReplyPeers(known)],
        InputModel::Command(CommandModel::Shutdown) => seq![ActionModel::Stop],
        InputModel::CommandsClosed => seq![ActionModel::Stop],
        InputModel::PeersDiscovered(ps) => fold_peers(known, ps, true).1,
        InputModel::PeersExpired(ps) => fold_peers(known, ps, false).1,
        InputModel::Gossip(Some(e)) => seq![ActionModel::Emit(NodeEventModel::EventReceived(e))],
        InputModel::Gossip(None) => Seq::empty(),
        InputModel::Request(r) => request_actions(r),
        InputModel::Response(r) => response_actions(r),
        InputModel::Other => Seq::empty(),
    }
}

/// Removing a peer keeps the other peers, in order, and never creates duplicates.
pub proof fn lemma_without(peers: Seq<Seq<u8>>, p: Seq<u8>)
    ensures
        forall|x: Seq<u8>| without(peers, p).contains(x) <==> (peers.contains(x) && x != p),
        no_duplicates(peers) ==> no_duplicates(without(peers, p)),
        !peers.contains(p) ==> without(peers, p) == peers,
    decreases peers.len(),
{
    if peers.len() > 0 {
        let init = peers.drop_last();
        lemma_without(init, p);
        let w = without(peers, p);
        let wi = without(init, p);
        assert forall|x: Seq<u8>| w.contains(x) <==> (peers.contains(x) && x != p) by {
            if w.contains(x) {
                let k = choose|k: int| 0 <= k < w.len() && w[k] == x;
                if k < wi.len() {
                    assert(w[k] == wi[k]);
                    assert(wi.contains(x));
                    assert(init.contains(x));
                    let m = choose|m: int| 0 <= m < init.len() && init[m] == x;
                    assert(peers[m] == x);
                } else {
                    assert(peers[peers.len() - 1] == x);
                }
            }
            if peers.contains(x) && x != p {
                let m = choose|m: int| 0 <= m < peers.len() && peers[m] == x;
                if m < peers.len() - 1 {
                    assert(init[m] == x);
                    assert(init.contains(x));
                    assert(wi.contains(x));
                    let k = choose|k: int| 0 <= k < wi.len() && wi[k] == x;
                    assert(w[k] == x);
                } else {
                    assert(w[w.len() - 1] == x);
                }
            }
        }
        if no_duplicates(peers) {
            assert(no_duplicates(init)) by {
                assert forall|i: int, j: int| 0 <= i < init.len() && 0 <= j < init.len() && i != j implies init[i] != init[j] by {
                    assert(init[i] == peers[i] && init[j] == peers[j]);
                }
            }
            if peers.last() != p {
                assert(!init.contains(peers.last())) by {
                    if init.contains(peers.last()) {
                        let m = choose|m: int| 0 <= m < init.len() && init[m] == peers.last();
                        assert(peers[m] == peers[peers.len() - 1]);
                    }
                }
                assert(!wi.contains(peers.last()));
                assert forall|i: int, j: int| 0 <= i < w.len() && 0 <= j < w.len() && i != j implies w[i] != w[j] by {
                    if i == w.len() - 1 {
                        assert(wi.contains(w[j]));
                    } else if j == w.len() - 1 {
                        assert(wi.contains(w[i]));
                    }
                }
            } else {
                assert(w =~= wi);
            }
        }
        if !peers.contains(p) {
            assert(!init.contains(p)) by {
                if init.contains(p) {
                    let m = choose|m: int| 0 <= m < init.len() && init[m] == p;
                    assert(peers[m] == p);
                }
            }
            assert(peers.last() != p);
            assert(w =~= init.push(peers.last()));
            assert(init.push(peers.last()) =~= peers);
        }
    }
}

/// Handling a list of peers never lists a peer twice.
pub proof fn lemma_fold_keeps_no_duplicates(known: Seq<Seq<u8>>, peers: Seq<Seq<u8>>, discovering: bool)
    requires
        no_duplicates(known),
    ensures
        no_duplicates(fold_peers(known, peers, discovering).0),
    decreases peers.len(),
{
    if peers.len() > 0 {
        let p = peers[0];
        let k1 = if discovering { discover_one(known, p).0 } else { expire_one(known, p).0 };
        if discovering {
            if !known.contains(p) {
                assert forall|i: int, j: int| 0 <= i < k1.len() && 0 <= j < k1.len() && i != j implies k1[i] != k1[j] by {
                    if i == known.len() {
                        assert(known.contains(k1[j]));
                    } else if j == known.len() {
                        assert(known.contains(k1[i]));
                    }
                }
            }
        } else {
            lemma_without(known, p);
        }
        lemma_fold_keeps_no_duplicates(k1, peers.drop_first(), discovering);
    }
}

/// Whatever the node is handed, it never lists a peer twice.
pub proof fn lemma_step_keeps_no_duplicates(known: Seq<Seq<u8>>, input: InputModel)
    requires
        no_duplicates(known),
    ensures
        no_duplicates(next_known(known, input)),
{
    match input {
        InputModel::PeersDiscovered(ps) => lemma_fold_keeps_no_duplicates(known, ps, true),
        InputModel::PeersExpired(ps) => lemma_fold_keeps_no_duplicates(known, ps, false),
        _ => {},
    }
}

/// A peer that is discovered and then expires leaves the known peers as
/// they were.
pub proof fn lemma_discover_then_expire(known: Seq<Seq<u8>>, p: Seq<u8>)
    requires
        !known.contains(p),
    ensures
        next_known(next_known(known, InputModel::PeersDiscovered(seq![p])), InputModel::PeersExpired(seq![p])) == known,
{
    let k1 = known.push(p);
    assert(seq![p].drop_first() =~= Seq::<Seq<u8>>::empty());
    assert(fold_peers(k1, Seq::<Seq<u8>>::empty(), true) == (k1, Seq::<ActionModel>::empty()));
    assert(fold_peers(without(k1, p), Seq::<Seq<u8>>::empty(), false) == (without(k1, p), Seq::<ActionModel>::empty()));
    assert(next_known(known, InputModel::PeersDiscovered(seq![p])) == k1);
    assert(k1.contains(p)) by {
        assert(k1[known.len() as int] == p);
    }
    lemma_without(known, p);
    assert(k1.drop_last() =~= known);
    assert(without(k1, p) == without(known, p));
}

/// The peer count announced when a peer is found or lost is the number of
/// peers known afterwards.
pub proof fn lemma_announced_count(known: Seq<Seq<u8>>, p: Seq<u8>)
    ensures
        !known.contains(p) ==> discover_one(known, p).1[2] == ActionModel::Emit(
            NodeEventModel::PeerCountChanged(discover_one(known, p).0.len() as usize),
        ),
        known.contains(p) ==> expire_one(known, p).1[2] == ActionModel::Emit(
            NodeEventModel::PeerCountChanged(expire_one(known, p).0.len() as usize),
        ),
{
}

/// The peers of a discovered list that are new, in the order they are first
/// seen.
pub open spec fn new_peers(known: Seq<Seq<u8>>, ps: Seq<Seq<u8>>) -> Seq<Seq<u8>>
    decreases ps.len(),
{
    if ps.len() == 0 {
        Seq::empty()
    } else if known.contains(ps[0]) {
        new_peers(known, ps.drop_first())
    } else {
        seq![ps[0]] + new_peers(known.push(ps[0]), ps.drop_first())
    }
}

/// The announcements for newly found peers when `count` peers were known
/// before them: for each, in order, it is added to gossip, announced, the
/// count one higher is announced, and it is asked to sync.
pub open spec fn discovery_blocks(fresh: Seq<Seq<u8>>, count: nat) -> Seq<ActionModel>
    decreases fresh.len(),
{
    if fresh.len() == 0 {
        Seq::empty()
    } else {
        seq![
            ActionModel::AddExplicitPeer(fresh[0]),
            ActionModel::Emit(NodeEventModel::PeerDiscovered(fresh[0])),
            ActionModel::Emit(NodeEventModel::PeerCountChanged((count + 1) as usize)),
            ActionModel::SendRequest { peer: fresh[0], request: RequestModel::SyncRequest(0) },
        ] + discovery_blocks(fresh.drop_first(), count + 1)
    }
}

/// The peers of an expired list that were known, in the order they are
/// forgotten.
pub open spec fn lost_peers(known: Seq<Seq<u8>>, ps: Seq<Seq<u8>>) -> Seq<Seq<u8>>
    decreases ps.len(),
{
    if ps.len() == 0 {
        Seq::empty()
    } else if known.contains(ps[0]) {
        seq![ps[0]] + lost_peers(without(known, ps[0]), ps.drop_first())
    } else {
        lost_peers(known, ps.drop_first())
    }
}

/// The announcements for lost peers when `count` peers were known before
/// them: for each, in order, it is removed from gossip, announced lost, and
/// the count one lower is announced.
pub open spec fn expiry_blocks(lost: Seq<Seq<u8>>, count: nat) -> Seq<ActionModel>
    decreases lost.len(),
{
    if lost.len() == 0 {
        Seq::empty()
    } else {
        seq![
            ActionModel::RemoveExplicitPeer(lost[0]),
            ActionModel::Emit(NodeEventModel::PeerLost(lost[0])),
            ActionModel::Emit(NodeEventModel::PeerCountChanged((count - 1) as usize)),
        ] + expiry_blocks(lost.drop_first(), (count - 1) as nat)
    }
}

/// Removing a peer that is listed once shortens the list by one.
proof fn lemma_without_len(peers: Seq<Seq<u8>>, p: Seq<u8>)
    requires
        no_duplicates(peers),
    ensures
        without(peers, p).len() == if peers.contains(p) { peers.len() - 1 } else { peers.len() as int },
    decreases peers.len(),
{
    if peers.len() > 0 {
        let init = peers.drop_last();
        assert(no_duplicates(init)) by {
            assert forall|i: int, j: int| 0 <= i < init.len() && 0 <= j < init.len() && i != j implies init[i] != init[j] by {
                assert(init[i] == peers[i] && init[j] == peers[j]);
            }
        }
        lemma_without_len(init, p);
        if peers.last() == p {
            assert(!init.contains(p)) by {
                if init.contains(p) {
                    let m = choose|m: int| 0 <= m < init.len() && init[m] == p;
                    assert(peers[m] == peers[peers.len() - 1]);
                }
            }
            assert(peers.contains(p)) by {
                assert(peers[peers.len() - 1] == p);
            }
        } else {
            assert(init.contains(p) == peers.contains(p)) by {
                if peers.contains(p) {
                    let m = choose|m: int| 0 <= m < peers.len() && peers[m] == p;
                    assert(m < peers.len() - 1);
                    assert(init[m] == p);
                }
                if init.contains(p) {
                    let m = choose|m: int| 0 <= m < init.len() && init[m] == p;
                    assert(peers[m] == p);
                }
            }
        }
    }
}

/// A discovered list, taken in whole: the known peers grow by exactly the
/// new peers, in the order first seen; each new peer is announced once,
/// followed at once by the count that includes it; and peers already known
/// (or seen earlier in the list) are not announced again.
pub proof fn lemma_discovery_list(known: Seq<Seq<u8>>, ps: Seq<Seq<u8>>)
    requires
        no_duplicates(known),
    ensures
        fold_peers(known, ps, true).0 == known + new_peers(known, ps),
        fold_peers(known, ps, true).1 == discovery_blocks(new_peers(known, ps), known.len()),
        no_duplicates(known + new_peers(known, ps)),
    decreases ps.len(),
{
    lemma_fold_keeps_no_duplicates(known, ps, true);
    if ps.len() == 0 {
        assert(known + Seq::<Seq<u8>>::empty() =~= known);
    } else {
        let p = ps[0];
        let rest = ps.drop_first();
        if known.contains(p) {
            lemma_discovery_list(known, rest);
        } else {
            let k1 = known.push(p);
            assert forall|i: int, j: int| 0 <= i < k1.len() && 0 <= j < k1.len() && i != j implies k1[i] != k1[j] by {
                if i == known.len() {
                    assert(known.contains(k1[j]));
                } else if j == known.len() {
                    assert(known.contains(k1[i]));
                }
            }
            lemma_discovery_list(k1, rest);
            let fresh = new_peers(known, ps);
            assert(fresh == seq![p] + new_peers(k1, rest));
            assert(fresh.drop_first() =~= new_peers(k1, rest));
            assert(fresh[0] == p);
            assert(k1 + new_peers(k1, rest) =~= known + fresh);
        }
    }
}

/// An expired list, taken in whole: each known peer on it is forgotten,
/// announced lost once, and followed at once by the count without it;
/// peers not known (or already forgotten earlier in the list) are not
/// announced. As many peers remain known as were known less those lost.
pub proof fn lemma_expiry_list(known: Seq<Seq<u8>>, ps: Seq<Seq<u8>>)
    requires
        no_duplicates(known),
    ensures
        fold_peers(known, ps, false).1 == expiry_blocks(lost_peers(known, ps), known.len()),
        fold_peers(known, ps, false).0.len() == known.len() - lost_peers(known, ps).len(),
        forall|x: Seq<u8>| lost_peers(known, ps).contains(x) ==> known.contains(x),
    decreases ps.len(),
{
    if ps.len() > 0 {
        let p = ps[0];
        let rest = ps.drop_first();
        if known.contains(p) {
            let k1 = without(known, p);
            lemma_without(known, p);
            lemma_without_len(known, p);
            lemma_expiry_list(k1, rest);
            let lost = lost_peers(known, ps);
            assert(lost.drop_first() =~= lost_peers(k1, rest));
            assert(lost[0] == p);
            assert forall|x: Seq<u8>| lost.contains(x) implies known.contains(x) by {
                let i = choose|i: int| 0 <= i < lost.len() && lost[i] == x;
                if i > 0 {
                    assert(lost_peers(k1, rest)[i - 1] == x);
                    assert(lost_peers(k1, rest).contains(x));
                }
            }
        } else {
            lemma_expiry_list(known, rest);
        }
    }
}

/// What one input does to the known peers and what it announces: a
/// discovered list adds exactly its new peers, each announced once and
/// followed by the count that includes it; an expired list forgets exactly
/// its known peers, each announced once and followed by the count without
/// it; a peer-list query is answered with exactly the known peers; a
/// shutdown or a closed command channel stops the node; nothing else
/// changes the known peers.
pub proof fn lemma_step_peer_announcements(known: Seq<Seq<u8>>, input: InputModel)
    requires
        no_duplicates(known),
    ensures
        match input {
            InputModel::PeersDiscovered(ps) => {
                &&& next_known(known, input) == known + new_peers(known, ps)
                &&& step_actions(known, input) == discovery_blocks(new_peers(known, ps), known.len())
            },
            InputModel::PeersExpired(ps) => {
                &&& next_known(known, input).len() == known.len() - lost_peers(known, ps).len()
                &&& step_actions(known, input) == expiry_blocks(lost_peers(known, ps), known.len())
            },
            InputModel::Command(CommandModel::GetPeers) => next_known(known, input) == known && step_actions(known, input)
                == seq![ActionModel::ReplyPeers(known)],
            InputModel::Command(CommandModel::Shutdown) => step_actions(known, input) == seq![ActionModel::Stop],
            InputModel::CommandsClosed => step_actions(known, input) == seq![ActionModel::Stop],
            _ => next_known(known, input) == known,
        },
        no_duplicates(next_known(known, input)),
{
    lemma_step_keeps_no_duplicates(known, input);
    match input {
        InputModel::PeersDiscovered(ps) => lemma_discovery_list(known, ps),
        InputModel::PeersExpired(ps) => lemma_expiry_list(known, ps),
        _ => {},
    }
}

/// A peer's answer carrying events is passed on whole: for any non-empty
/// list of events, the node emits exactly one batch holding exactly that
/// list, in order, and changes nothing else; an empty list is passed on as
/// nothing. A single event in answer is passed on as one event.
pub proof fn lemma_sync_answers_passed_on(known: Seq<Seq<u8>>, v: Seq<EventModel>, e: EventModel)
    ensures
        v.len() > 0 ==> step_actions(known, InputModel::Response(ResponseModel::Events(v))) == seq![
            ActionModel::Emit(NodeEventModel::EventsReceived(v)),
        ],
        v.len() == 0 ==> step_actions(known, InputModel::Response(ResponseModel::Events(v))).len() == 0,
        step_actions(known, InputModel::Response(ResponseModel::Event(e))) == seq![
            ActionModel::Emit(NodeEventModel::EventReceived(e)),
        ],
        next_known(known, InputModel::Response(ResponseModel::Events(v))) == known,
        next_known(known, InputModel::Response(ResponseModel::Event(e))) == known,
{
}

/// The node's state: the peers it currently knows.
pub struct NodeState {
    known_peers: Vec<Vec<u8>>,
}

impl NodeState {
    /// A node never lists a peer twice.
    #[verifier::type_invariant]
    closed spec fn known_distinct(&self) -> bool {
        no_duplicates(peers_model(self.known_peers@))
    }
}

impl View for NodeState {
    type V = Seq<Seq<u8>>;

    closed spec fn view(&self) -> Seq<Seq<u8>> {
        peers_model(self.known_peers@)
    }
}

/// Copy a list of peers.
fn copy_peers(peers: &Vec<Vec<u8>>) -> (out: Vec<Vec<u8>>)
    ensures
        peers_model(out@) == peers_model(peers@),
{
    let mut out: Vec<Vec<u8>> = Vec::new();
    let mut i: usize = 0;
    while i < peers.len()
        invariant
            i <= peers@.len(),
            out@.len() == i,
            forall|j: int| 0 <= j < i ==> (#[trigger] out@[j])@ == peers@[j]@,
        decreases peers@.len() - i,
    {
        out.push(copy_bytes(peers[i].as_slice()));
        i = i + 1;
    }
    proof {
        assert(peers_model(out@) =~= peers_model(peers@));
    }
    out
}

impl NodeState {
    /// A node that knows no peers.
    pub fn new() -> (s: Self)
        ensures
            s@ == Seq::<Seq<u8>>::empty(),
            no_duplicates(s@),
    {
        let empty: Vec<Vec<u8>> = Vec::new();
        proof {
            assert(peers_model(empty@) =~= Seq::<Seq<u8>>::empty());
        }
        let s = NodeState { known_peers: empty };
        proof {
            assert(s@ =~= Seq::<Seq<u8>>::empty());
        }
        s
    }

    /// The peers currently known.
    pub fn known_peers(&self) -> (ps: Vec<Vec<u8>>)
        ensures
            peers_model(ps@) == self@,
            no_duplicates(self@),
    {
        proof {
            use_type_invariant(self);
        }
        copy_peers(&self.known_peers)
    }

    fn position(&self, p: &[u8]) -> (r: Option<usize>)
        ensures
            match r {
                Some(i) => i < self@.len() && self@[i as int] == p@,
                None => !self@.contains(p@),
            },
    {
        let mut i: usize = 0;
        while i < self.known_peers.len()
            invariant
                i <= self.known_peers@.len(),
                self@.len() == self.known_peers@.len(),
                forall|j: int| 0 <= j < i ==> self@[j] != p@,
            decreases self.known_peers@.len() - i,
        {
            if bytes_equal(self.known_peers[i].as_slice(), p) {
                return Some(i);
            }
            i = i + 1;
        }
        None
    }

    fn discover(&mut self, p: &Vec<u8>, actions: &mut Vec<NodeAction>)
        ensures
            final(self)@ == discover_one(old(self)@, p@).0,
            actions_model(final(actions)@) == actions_model(old(actions)@) + discover_one(old(self)@, p@).1,
    {
        if self.position(p.as_slice()).is_some() {
            proof {
                assert(actions_model(actions@) =~= actions_model(old(actions)@) + Seq::<ActionModel>::empty());
            }
            return;
        }
        proof {
            use_type_invariant(&*self);
        }
        let ghost old_view = self@;
        let mut grown = copy_peers(&self.known_peers);
        grown.push(copy_bytes(p.as_slice()));
        proof {
            assert(peers_model(grown@) =~= old_view.push(p@));
            assert forall|i: int, j: int|
                0 <= i < peers_model(grown@).len() && 0 <= j < peers_model(grown@).len() && i != j implies
                peers_model(grown@)[i] != peers_model(grown@)[j] by {
                if i == old_view.len() {
                    assert(old_view.contains(peers_model(grown@)[j]));
                } else if j == old_view.len() {
                    assert(old_view.contains(peers_model(grown@)[i]));
                }
            }
        }
        self.known_peers = grown;
        let count = self.known_peers.len();
        actions.push(NodeAction::AddExplicitPeer(copy_bytes(p.as_slice())));
        actions.push(NodeAction::Emit(NodeEvent::PeerDiscovered(copy_bytes(p.as_slice()))));
        actions.push(NodeAction::Emit(NodeEvent::PeerCountChanged(count)));
        actions.push(NodeAction::SendRequest {
            peer: copy_bytes(p.as_slice()),
            request: MurmurRequest::SyncRequest { since: 0 },
        });
        proof {
            assert(actions_model(actions@) =~= actions_model(old(actions)@) + discover_one(old_view, p@).1);
        }
    }

    fn expire(&mut self, p: &Vec<u8>, actions: &mut Vec<NodeAction>)
        ensures
            final(self)@ == expire_one(old(self)@, p@).0,
            actions_model(final(actions)@) == actions_model(old(actions)@) + expire_one(old(self)@, p@).1,
    {
        if self.position(p.as_slice()).is_none() {
            proof {
                assert(actions_model(actions@) =~= actions_model(old(actions)@) + Seq::<ActionModel>::empty());
            }
            return;
        }
        let ghost old_view = self@;
        let mut kept: Vec<Vec<u8>> = Vec::new();
        let mut i: usize = 0;
        while i < self.known_peers.len()
            invariant
                i <= self.known_peers@.len(),
                old_view == peers_model(self.known_peers@),
                peers_model(kept@) == without(old_view.take(i as int), p@),
            decreases self.known_peers@.len() - i,
        {
            proof {
                assert(old_view.take(i + 1).drop_last() =~= old_view.take(i as int));
                assert(old_view.take(i + 1).last() == old_view[i as int]);
            }
            let ghost before = kept@;
            if !bytes_equal(self.known_peers[i].as_slice(), p.as_slice()) {
                kept.push(copy_bytes(self.known_peers[i].as_slice()));
                proof {
                    assert(peers_model(kept@) =~= peers_model(before) + seq![old_view[i as int]]);
                }
            } else {
                proof {
                    assert(peers_model(kept@) =~= peers_model(before) + Seq::<Seq<u8>>::empty());
                }
            }
            i = i + 1;
        }
        proof {
            assert(old_view.take(old_view.len() as int) =~= old_view);
            use_type_invariant(&*self);
            lemma_without(old_view, p@);
        }
        self.known_peers = kept;
        let count = self.known_peers.len();
        actions.push(NodeAction::RemoveExplicitPeer(copy_bytes(p.as_slice())));
        actions.push(NodeAction::Emit(NodeEvent::PeerLost(copy_bytes(p.as_slice()))));
        actions.push(NodeAction::Emit(NodeEvent::PeerCountChanged(count)));
        proof {
            assert(actions_model(actions@) =~= actions_model(old(actions)@) + expire_one(old_view, p@).1);
        }
    }

    fn fold(&mut self, peers: &Vec<Vec<u8>>, discovering: bool) -> (actions: Vec<NodeAction>)
        ensures
            (final(self)@, actions_model(actions@)) == fold_peers(old(self)@, peers_model(peers@), discovering),
    {
        let ghost ps = peers_model(peers@);
        let mut actions: Vec<NodeAction> = Vec::new();
        let mut i: usize = 0;
        proof {
            assert(ps.skip(0) =~= ps);
            assert(actions_model(actions@) =~= Seq::<ActionModel>::empty());
        }
        while i < peers.len()
            invariant
                i <= peers@.len(),
                ps == peers_model(peers@),
                fold_peers(old(self)@, ps, discovering).0 == fold_peers(self@, ps.skip(i as int), discovering).0,
                fold_peers(old(self)@, ps, discovering).1 == actions_model(actions@) + fold_peers(
                    self@,
                    ps.skip(i as int),
                    discovering,
                ).1,
            decreases peers@.len() - i,
        {
            let ghost before_self = self@;
            let ghost before_actions = actions_model(actions@);
            proof {
                assert(ps.skip(i as int).drop_first() =~= ps.skip(i + 1));
                assert(ps.skip(i as int)[0] == peers@[i as int]@);
            }
            if discovering {
                self.discover(&peers[i], &mut actions);
            } else {
                self.expire(&peers[i], &mut actions);
            }
            proof {
                let step = if discovering { discover_one(before_self, ps[i as int]) } else { expire_one(before_self, ps[i as int]) };
                assert(actions_model(actions@) == before_actions + step.1);
                assert(before_actions + step.1 + fold_peers(step.0, ps.skip(i + 1), discovering).1 =~= before_actions + (step.1 + fold_peers(step.0, ps.skip(i + 1), discovering).1));
            }
            i = i + 1;
        }
        proof {
            assert(ps.skip(i as int) =~= Seq::<Seq<u8>>::empty());
            assert(actions_model(actions@) + Seq::<ActionModel>::empty() =~= actions_model(actions@));
        }
        actions
    }

    /// Decide what to do with one input.
    pub fn step(&mut self, input: NodeInput) -> (actions: Vec<NodeAction>)
        ensures
            final(self)@ == next_known(old(self)@, input@),
            actions_model(actions@) == step_actions(old(self)@, input@),
            no_duplicates(old(self)@) && no_duplicates(final(self)@),
    {
        proof {
            use_type_invariant(&*self);
        }
        let ghost in_model = input@;
        let ghost known = self@;
        let mut actions: Vec<NodeAction> = Vec::new();
        match input {
            NodeInput::Command(NodeCommand::BroadcastEvent(event)) => {
                actions.push(NodeAction::Publish(event));
            },
            NodeInput::Command(NodeCommand::RequestSync { peer, since }) => {
                actions.push(NodeAction::SendRequest { peer, request: MurmurRequest::SyncRequest { since } });
            },
            NodeInput::Command(NodeCommand::GetPeers) => {
                actions.push(NodeAction::ReplyPeers(copy_peers(&self.known_peers)));
            },
            NodeInput::Command(NodeCommand::Shutdown) | NodeInput::CommandsClosed => {
                actions.push(NodeAction::Stop);
            },
            NodeInput::PeersDiscovered(peers) => {
                actions = self.fold(&peers, true);
            },
            NodeInput::PeersExpired(peers) => {
                actions = self.fold(&peers, false);
            },
            NodeInput::Gossip(Some(event)) => {
                actions.push(NodeAction::Emit(NodeEvent::EventReceived(event)));
            },
            NodeInput::Gossip(None) => {},
            NodeInput::Request(request) => {
                match request {
                    MurmurRequest::SyncRequest { .. } => {
                        let none: Vec<Event> = Vec::new();
                        proof {
                            assert(events_model(none@) =~= Seq::<EventModel>::empty());
                        }
                        actions.push(NodeAction::Respond(MurmurResponse::Events(none)));
                    },
                    MurmurRequest::GetEvent { .. } => {
                        actions.push(NodeAction::Respond(MurmurResponse::NotFound));
                    },
                    MurmurRequest::PushEvent { event } => {
                        actions.push(NodeAction::Emit(NodeEvent::EventReceived(event)));
                        actions.push(NodeAction::Respond(MurmurResponse::Accepted));
                    },
                    _ => {
                        proof {
                            reveal_strlit("Not implemented yet");
                        }
                        actions.push(NodeAction::Respond(MurmurResponse::Error(String::from_str("Not implemented yet"))));
                    },
                }
            },
            NodeInput::Response(response) => {
                match response {
                    MurmurResponse::Events(events) => {
                        if events.len() > 0 {
                            actions.push(NodeAction::Emit(NodeEvent::EventsReceived(events)));
                        }
                    },
                    MurmurResponse::Event(event) => {
                        actions.push(NodeAction::Emit(NodeEvent::EventReceived(event)));
                    },
                    _ => {},
                }
            },
            NodeInput::Other => {},
        }
        proof {
            assert(actions_model(actions@) =~= step_actions(known, in_model));
            use_type_invariant(&*self);
        }
        actions
    }
}

} // verus!
