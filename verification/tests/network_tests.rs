use murmur_core::event::builder::EventBuilder;
use murmur_core::identity::keypair::Identity;
use murmur_core::network::bootstrap::bootstrap_addrs;
use murmur_core::network::dht::DhtConfig;
use murmur_core::network::node::{NodeAction, NodeCommand, NodeEvent, NodeInput, NodeState};
use murmur_core::network::protocol::{MurmurRequest, MurmurResponse};

#[test]
fn discovery_and_expiry() {
    let mut node = NodeState::new();
    let actions = node.step(NodeInput::PeersDiscovered(vec![vec![1], vec![2], vec![1]]));
    assert_eq!(node.known_peers(), vec![vec![1], vec![2]]);
    assert_eq!(actions.len(), 8);
    assert!(matches!(&actions[0], NodeAction::AddExplicitPeer(p) if p == &vec![1]));
    assert!(matches!(&actions[1], NodeAction::Emit(NodeEvent::PeerDiscovered(p)) if p == &vec![1]));
    assert!(matches!(&actions[2], NodeAction::Emit(NodeEvent::PeerCountChanged(1))));
    assert!(matches!(&actions[3], NodeAction::SendRequest { peer, request: MurmurRequest::SyncRequest { since: 0 } } if peer == &vec![1]));
    assert!(matches!(&actions[6], NodeAction::Emit(NodeEvent::PeerCountChanged(2))));
    let actions = node.step(NodeInput::PeersExpired(vec![vec![1], vec![3]]));
    assert_eq!(node.known_peers(), vec![vec![2]]);
    assert_eq!(actions.len(), 3);
    assert!(matches!(&actions[0], NodeAction::RemoveExplicitPeer(p) if p == &vec![1]));
    assert!(matches!(&actions[1], NodeAction::Emit(NodeEvent::PeerLost(p)) if p == &vec![1]));
    assert!(matches!(&actions[2], NodeAction::Emit(NodeEvent::PeerCountChanged(1))));
    let actions = node.step(NodeInput::Command(NodeCommand::GetPeers));
    assert!(matches!(&actions[..], [NodeAction::ReplyPeers(ps)] if ps == &vec![vec![2]]));
}

#[test]
fn requests_and_responses() {
    let mut node = NodeState::new();
    let id = Identity::generate();
    let e = EventBuilder::post("x").sign(&id);
    let a = node.step(NodeInput::Request(MurmurRequest::SyncRequest { since: 5 }));
    assert!(matches!(&a[..], [NodeAction::Respond(MurmurResponse::Events(v))] if v.is_empty()));
    let a = node.step(NodeInput::Request(MurmurRequest::GetEvent { id: [0; 32] }));
    assert!(matches!(&a[..], [NodeAction::Respond(MurmurResponse::NotFound)]));
    let a = node.step(NodeInput::Request(MurmurRequest::PushEvent { event: e.clone() }));
    assert!(matches!(&a[..], [NodeAction::Emit(NodeEvent::EventReceived(_)), NodeAction::Respond(MurmurResponse::Accepted)]));
    let a = node.step(NodeInput::Request(MurmurRequest::GetThread { root_id: [0; 32] }));
    assert!(matches!(&a[..], [NodeAction::Respond(MurmurResponse::Error(m))] if m == "Not implemented yet"));
    let a = node.step(NodeInput::Response(MurmurResponse::Events(vec![])));
    assert!(a.is_empty());
    let a = node.step(NodeInput::Response(MurmurResponse::Events(vec![e.clone()])));
    assert!(matches!(&a[..], [NodeAction::Emit(NodeEvent::EventsReceived(v))] if v.len() == 1));
    let a = node.step(NodeInput::Response(MurmurResponse::Accepted));
    assert!(a.is_empty());
    let a = node.step(NodeInput::Gossip(Some(e.clone())));
    assert!(matches!(&a[..], [NodeAction::Emit(NodeEvent::EventReceived(_))]));
    assert!(node.step(NodeInput::Gossip(None)).is_empty());
    let a = node.step(NodeInput::Command(NodeCommand::BroadcastEvent(e)));
    assert!(matches!(&a[..], [NodeAction::Publish(_)]));
    let a = node.step(NodeInput::Command(NodeCommand::RequestSync { peer: vec![7], since: 9 }));
    assert!(matches!(&a[..], [NodeAction::SendRequest { request: MurmurRequest::SyncRequest { since: 9 }, .. }]));
    assert!(matches!(&node.step(NodeInput::CommandsClosed)[..], [NodeAction::Stop]));
    assert!(matches!(&node.step(NodeInput::Command(NodeCommand::Shutdown))[..], [NodeAction::Stop]));
    assert!(node.step(NodeInput::Other).is_empty());
}

#[test]
fn static_configuration() {
    assert!(bootstrap_addrs().is_empty());
    let c = DhtConfig::default();
    assert_eq!(c.replication_factor, 20);
    assert_eq!(c.refresh_interval_secs, 300);
}

#[test]
fn a_peer_found_then_lost_leaves_the_peers_as_they_were() {
    let mut node = NodeState::new();
    node.step(NodeInput::PeersDiscovered(vec![vec![4], vec![5]]));
    let before = node.known_peers();
    node.step(NodeInput::PeersDiscovered(vec![vec![6]]));
    let lost = node.step(NodeInput::PeersExpired(vec![vec![6]]));
    assert_eq!(node.known_peers(), before);
    assert!(matches!(&lost[2], NodeAction::Emit(NodeEvent::PeerCountChanged(2))));
}

#[test]
fn whole_lists_of_peers_are_announced_once_each() {
    let mut node = NodeState::new();
    node.step(NodeInput::PeersDiscovered(vec![vec![1]]));
    let found = node.step(NodeInput::PeersDiscovered(vec![vec![1], vec![2], vec![2], vec![3]]));
    assert_eq!(found.len(), 8);
    assert!(matches!(&found[1], NodeAction::Emit(NodeEvent::PeerDiscovered(p)) if p == &vec![2]));
    assert!(matches!(&found[2], NodeAction::Emit(NodeEvent::PeerCountChanged(2))));
    assert!(matches!(&found[5], NodeAction::Emit(NodeEvent::PeerDiscovered(p)) if p == &vec![3]));
    assert!(matches!(&found[6], NodeAction::Emit(NodeEvent::PeerCountChanged(3))));
    let lost = node.step(NodeInput::PeersExpired(vec![vec![2], vec![9], vec![2], vec![1]]));
    assert_eq!(lost.len(), 6);
    assert!(matches!(&lost[1], NodeAction::Emit(NodeEvent::PeerLost(p)) if p == &vec![2]));
    assert!(matches!(&lost[2], NodeAction::Emit(NodeEvent::PeerCountChanged(2))));
    assert!(matches!(&lost[4], NodeAction::Emit(NodeEvent::PeerLost(p)) if p == &vec![1]));
    assert!(matches!(&lost[5], NodeAction::Emit(NodeEvent::PeerCountChanged(1))));
    assert_eq!(node.known_peers(), vec![vec![3]]);
}
