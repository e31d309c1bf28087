use hive::behaviour::{HiveBehavior, HiveEvent, InnerMessage, PeerIdentity, SessionAction};
use hive::codec::RequestVote;
use hive::dedup::{AddOutcome, DedupFilter};
use hive::gossip::{message_id, DiscoveryEvent, GossipCommand, Overlay, REQUEST_VOTE_TOPIC};

fn peer(b: u8) -> PeerIdentity {
    PeerIdentity::new(vec![0x12, 0x20, b])
}

fn dial_target(a: Option<SessionAction>) -> Vec<u8> {
    match a {
        Some(SessionAction::Dial(p)) => p.bytes,
        other => panic!("expected a dial, got {:?}", other),
    }
}

#[test]
fn adding_a_peer_dials_it_once() {
    let mut h = HiveBehavior::new(peer(0));
    h.add_node_to_partial_view(peer(1));
    h.add_node_to_partial_view(peer(1));
    assert_eq!(dial_target(h.poll()), vec![0x12, 0x20, 1]);
    assert!(h.poll().is_none());
    assert_eq!(h.connected_peers().len(), 1);
}

#[test]
fn concurrent_connections_count_once() {
    let mut h = HiveBehavior::new(peer(0));
    h.on_connection_established(&peer(5), 0);
    h.on_connection_established(&peer(5), 1);
    assert_eq!(h.connected_peers().len(), 1);
    h.on_connection_closed(peer(5), 1);
    assert_eq!(h.connected_peers().len(), 1);
    assert!(h.poll().is_none());
    h.on_connection_closed(peer(5), 0);
    assert!(h.connected_peers().is_empty());
    assert_eq!(dial_target(h.poll()), vec![0x12, 0x20, 5]);
    assert!(h.poll().is_none());
}

#[test]
fn publish_notifies_each_connected_peer_in_queue_order() {
    let mut h = HiveBehavior::new(peer(0));
    h.on_connection_established(&peer(1), 0);
    h.on_connection_established(&peer(2), 0);
    h.add_node_to_partial_view(peer(3));
    let v = RequestVote { term: 1, candidate_id: 0, last_log_term: 0, last_log_index: 0 };
    h.publish(v);
    assert_eq!(dial_target(h.poll()), vec![0x12, 0x20, 3]);
    let mut targets = vec![];
    while let Some(a) = h.poll() {
        match a {
            SessionAction::Notify { peer, vote } => {
                assert_eq!(vote, v);
                targets.push(peer.bytes[2]);
            }
            other => panic!("unexpected {:?}", other),
        }
    }
    assert_eq!(targets, vec![1, 2, 3]);
}

#[test]
fn inbound_requests_are_delivered_once() {
    let mut h = HiveBehavior::new(peer(0));
    let v = RequestVote { term: 2, candidate_id: 4, last_log_term: 1, last_log_index: 3 };
    assert_eq!(h.on_connection_handler_event(&peer(4), InnerMessage::from_request(v)), Some(AddOutcome::Inserted));
    assert_eq!(h.on_connection_handler_event(&peer(5), InnerMessage::Rx(v)), None);
    assert_eq!(h.on_connection_handler_event(&peer(4), InnerMessage::Sent), None);
    match h.poll() {
        Some(SessionAction::Deliver(HiveEvent::RequestVote(got))) => assert_eq!(got, v),
        other => panic!("unexpected {:?}", other),
    }
    assert!(h.poll().is_none());
}

#[test]
fn dedup_filter_has_no_false_negatives() {
    let mut f = DedupFilter::new();
    let votes: Vec<RequestVote> = (0..500u32)
        .map(|i| RequestVote { term: i, candidate_id: i % 7, last_log_term: i / 3, last_log_index: i })
        .collect();
    for v in &votes {
        assert_eq!(f.add(v), AddOutcome::Inserted);
    }
    for v in &votes {
        assert!(f.contains(v));
    }
}

#[test]
fn empty_dedup_filter_contains_nothing() {
    let f = DedupFilter::new();
    assert!(!f.contains(&RequestVote { term: 1, candidate_id: 2, last_log_term: 3, last_log_index: 4 }));
}

#[test]
fn message_id_depends_on_payload_only() {
    assert_eq!(message_id(b"vote"), message_id(&b"vote".to_vec()));
    assert_ne!(message_id(b"vote"), message_id(b"votes"));
    assert_eq!(REQUEST_VOTE_TOPIC, "request_vote");
}

#[test]
fn discovery_admits_and_expires_peers() {
    let mut o = Overlay::new();
    let cmds = o.on_discovery(DiscoveryEvent::Discovered(vec![peer(1), peer(2), peer(1)]));
    assert_eq!(cmds.len(), 3);
    assert!(matches!(&cmds[0], GossipCommand::AddExplicitPeer(p) if p.bytes == vec![0x12, 0x20, 1]));
    assert!(o.is_admitted(&peer(1)));
    assert!(o.is_admitted(&peer(2)));
    assert!(!o.is_admitted(&peer(3)));
    let cmds = o.on_discovery(DiscoveryEvent::Expired(vec![peer(1)]));
    assert!(matches!(&cmds[0], GossipCommand::RemoveExplicitPeer(p) if p.bytes == vec![0x12, 0x20, 1]));
    assert!(!o.is_admitted(&peer(1)));
    assert!(o.is_admitted(&peer(2)));
}
