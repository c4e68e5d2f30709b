use libp2p::multiaddr::Protocol;
use peer_manager::config::Config;
use peer_manager::events::PeerManagerEvent;
use peer_manager::manager::PeerManager;
use peer_manager::types::{GoodbyeReason, IpAddress, Multiaddr, PeerId};

const NOW: u64 = 1_000;

fn build_peer_manager(target_peer_count: usize) -> PeerManager {
    let config = Config {
        target_peer_count,
        discovery_enabled: false,
        ..Default::default()
    };
    PeerManager::new(config).unwrap()
}

fn peer(n: u8) -> PeerId {
    PeerId::from_bytes(&[n; 32])
}

fn multiaddr(text: &str) -> Multiaddr {
    let parsed: libp2p::Multiaddr = text.parse().unwrap();
    let ip = parsed.iter().find_map(|part| match part {
        Protocol::Ip4(ip) => Some(IpAddress::V4(u32::from(ip))),
        Protocol::Ip6(ip) => Some(IpAddress::V6(u128::from(ip))),
        _ => None,
    });
    Multiaddr { ip, encoded: parsed.to_vec() }
}

fn drain(peer_manager: &mut PeerManager) -> Vec<PeerManagerEvent> {
    let mut events = Vec::new();
    while let Some(event) = peer_manager.poll_event() {
        events.push(event);
    }
    events
}

#[test]
fn test_peer_manager_disconnects_correctly_during_heartbeat() {
    let mut peer_manager = build_peer_manager(3);

    // Create 5 peers to connect to.
    // 2 will be outbound-only, and have the lowest score.
    let peer0 = peer(1);
    let peer1 = peer(2);
    let peer2 = peer(3);
    let outbound_only_peer1 = peer(4);
    let outbound_only_peer2 = peer(5);

    peer_manager.inject_connect_ingoing(&peer0, multiaddr("/ip4/0.0.0.0"), None, NOW);
    peer_manager.inject_connect_ingoing(&peer1, multiaddr("/ip4/0.0.0.0"), None, NOW);
    peer_manager.inject_connect_ingoing(&peer2, multiaddr("/ip4/0.0.0.0"), None, NOW);
    peer_manager.inject_connect_outgoing(&outbound_only_peer1, multiaddr("/ip4/0.0.0.0"), None, NOW);
    peer_manager.inject_connect_outgoing(&outbound_only_peer2, multiaddr("/ip4/0.0.0.0"), None, NOW);

    // Set the outbound-only peers to have the lowest score.
    peer_manager.db.add_to_score(&outbound_only_peer1, -1_000_000, NOW);
    peer_manager.db.add_to_score(&outbound_only_peer2, -2_000_000, NOW);

    // Check initial connected peers.
    assert_eq!(peer_manager.db.connected_or_dialing_peers(), 5);

    peer_manager.heartbeat(NOW);

    // Check that we disconnected from two peers.
    // Check that one outbound-only peer was removed because it had the worst score
    // and that we did not disconnect the other outbound peer due to the minimum outbound quota.
    assert_eq!(peer_manager.db.connected_or_dialing_peers(), 3);
    assert!(peer_manager.db.is_connected(&outbound_only_peer1));
    assert!(!peer_manager.db.is_connected(&outbound_only_peer2));

    peer_manager.heartbeat(NOW);

    // Check that if we are at target number of peers, we do not disconnect any.
    assert_eq!(peer_manager.db.connected_or_dialing_peers(), 3);
}

#[test]
fn test_peer_manager_not_enough_outbound_peers_no_panic_during_heartbeat() {
    let mut peer_manager = build_peer_manager(20);

    // Connect to 20 ingoing-only peers.
    for i in 0..19 {
        let peer = peer(i as u8 + 1);
        peer_manager.inject_connect_ingoing(&peer, multiaddr("/ip4/0.0.0.0"), None, NOW);
    }

    // Connect an outbound-only peer.
    // Give it the lowest score so that it is evaluated first in the disconnect list iterator.
    let outbound_only_peer = peer(100);
    peer_manager.inject_connect_ingoing(&outbound_only_peer, multiaddr("/ip4/0.0.0.0"), None, NOW);
    peer_manager.db.add_to_score(&outbound_only_peer, -1_000_000, NOW);
    // After heartbeat, we will have removed one peer.
    // Having less outbound-only peers than minimum won't cause panic when the outbound-only peer is being considered for disconnection.
    peer_manager.heartbeat(NOW);
    assert_eq!(peer_manager.db.connected_or_dialing_peers(), 20);
}

#[test]
fn test_peer_manager_remove_unhealthy_peers_brings_peers_below_target() {
    let mut peer_manager = build_peer_manager(3);

    // Create 4 peers to connect to.
    // One pair will be unhealthy inbound only and outbound only peers.
    let peer0 = peer(1);
    let peer1 = peer(2);
    let inbound_only_peer1 = peer(3);
    let outbound_only_peer1 = peer(4);

    peer_manager.inject_connect_ingoing(&peer0, multiaddr("/ip4/0.0.0.0/tcp/8000"), None, NOW);
    peer_manager.inject_connect_ingoing(&peer1, multiaddr("/ip4/0.0.0.0/tcp/8000"), None, NOW);

    // Connect to two peers that are on the threshold of being disconnected.
    peer_manager.inject_connect_ingoing(
        &inbound_only_peer1,
        multiaddr("/ip4/0.0.0.0/tcp/8000"),
        None,
        NOW,
    );
    peer_manager.inject_connect_outgoing(
        &outbound_only_peer1,
        multiaddr("/ip4/0.0.0.0/tcp/8000"),
        None,
        NOW,
    );
    peer_manager.db.add_to_score(&inbound_only_peer1, -19_800_000, NOW);
    peer_manager.db.add_to_score(&outbound_only_peer1, -19_800_000, NOW);
    peer_manager.db.set_gossipsub_score(&inbound_only_peer1, -85_000_000, NOW);
    peer_manager.db.set_gossipsub_score(&outbound_only_peer1, -85_000_000, NOW);
    peer_manager.heartbeat(NOW);
    // Tests that when we are over the target peer limit, after disconnecting one unhealthy peer,
    // the loop to check for disconnecting peers will stop because we have removed enough peers (only needed to remove 1 to reach target).
    assert_eq!(peer_manager.db.connected_or_dialing_peers(), 3);
}

#[test]
fn test_peer_manager_removes_enough_peers_when_one_is_unhealthy() {
    let mut peer_manager = build_peer_manager(3);

    // Create 5 peers to connect to.
    // One will be unhealthy inbound only and outbound only peers.
    let peer0 = peer(1);
    let peer1 = peer(2);
    let peer2 = peer(3);
    let inbound_only_peer1 = peer(4);
    let outbound_only_peer1 = peer(5);

    peer_manager.inject_connect_ingoing(&peer0, multiaddr("/ip4/0.0.0.0"), None, NOW);
    peer_manager.inject_connect_ingoing(&peer1, multiaddr("/ip4/0.0.0.0"), None, NOW);
    peer_manager.inject_connect_ingoing(&peer2, multiaddr("/ip4/0.0.0.0"), None, NOW);
    peer_manager.inject_connect_outgoing(&outbound_only_peer1, multiaddr("/ip4/0.0.0.0"), None, NOW);
    // Have one peer be on the verge of disconnection.
    peer_manager.inject_connect_ingoing(&inbound_only_peer1, multiaddr("/ip4/0.0.0.0"), None, NOW);
    peer_manager.db.add_to_score(&inbound_only_peer1, -19_900_000, NOW);
    peer_manager.db.set_gossipsub_score(&inbound_only_peer1, -85_000_000, NOW);

    peer_manager.heartbeat(NOW);
    // Tests that when we are over the target peer limit, after disconnecting an unhealthy peer,
    // the number of connected peers updates and we will not remove too many peers.
    assert_eq!(peer_manager.db.connected_or_dialing_peers(), 3);
}

#[test]
fn basic_admission_asks_nothing() {
    let mut peer_manager = build_peer_manager(3);
    for n in 1..=3 {
        assert!(peer_manager.inject_connect_ingoing(&peer(n), multiaddr("/ip4/10.0.0.1"), None, NOW));
    }
    assert_eq!(peer_manager.db.connected_peers(), 3);
    assert!(drain(&mut peer_manager).is_empty());
    peer_manager.heartbeat(NOW);
    assert!(drain(&mut peer_manager).is_empty());
}

#[test]
fn pruning_takes_the_worst_outbound_peer_once() {
    let mut peer_manager = build_peer_manager(3);
    for n in 1..=3 {
        peer_manager.inject_connect_ingoing(&peer(n), multiaddr("/ip4/10.0.0.1"), None, NOW);
    }
    let q1 = peer(11);
    let q2 = peer(12);
    peer_manager.inject_connect_outgoing(&q1, multiaddr("/ip4/10.0.0.2"), None, NOW);
    peer_manager.inject_connect_outgoing(&q2, multiaddr("/ip4/10.0.0.3"), None, NOW);
    peer_manager.db.add_to_score(&q1, -1_000_000, NOW);
    peer_manager.db.add_to_score(&q2, -2_000_000, NOW);
    peer_manager.heartbeat(NOW);
    let events = drain(&mut peer_manager);
    let outbound_gone: Vec<&PeerManagerEvent> = events
        .iter()
        .filter(|event| {
            matches!(event, PeerManagerEvent::DisconnectPeer(id, GoodbyeReason::TooManyPeers) if *id == q1 || *id == q2)
        })
        .collect();
    assert_eq!(outbound_gone.len(), 1);
    assert!(matches!(outbound_gone[0], PeerManagerEvent::DisconnectPeer(id, _) if *id == q2));
    // The first peer given up is the one with the worst score.
    assert!(matches!(&events[0], PeerManagerEvent::DisconnectPeer(id, GoodbyeReason::TooManyPeers) if *id == q2));
    assert_eq!(peer_manager.db.connected_outbound_only_peers(), 1);
    peer_manager.heartbeat(NOW);
    assert!(drain(&mut peer_manager).is_empty());
}

#[test]
fn outbound_peer_is_kept_at_target() {
    let mut peer_manager = build_peer_manager(20);
    for n in 1..=19 {
        peer_manager.inject_connect_ingoing(&peer(n), multiaddr("/ip4/10.0.0.1"), None, NOW);
    }
    let o = peer(50);
    peer_manager.inject_connect_outgoing(&o, multiaddr("/ip4/10.0.0.2"), None, NOW);
    peer_manager.db.add_to_score(&o, -1_000_000, NOW);
    peer_manager.heartbeat(NOW);
    assert_eq!(peer_manager.db.connected_peers(), 20);
    assert!(peer_manager.db.is_connected(&o));
    assert!(drain(&mut peer_manager).is_empty());
}

#[test]
fn unhealthy_removal_does_not_overshoot() {
    let mut peer_manager = build_peer_manager(3);
    peer_manager.inject_connect_ingoing(&peer(1), multiaddr("/ip4/10.0.0.1"), None, NOW);
    peer_manager.inject_connect_ingoing(&peer(2), multiaddr("/ip4/10.0.0.1"), None, NOW);
    let u = peer(3);
    let w = peer(4);
    peer_manager.inject_connect_ingoing(&u, multiaddr("/ip4/10.0.0.1"), None, NOW);
    peer_manager.inject_connect_outgoing(&w, multiaddr("/ip4/10.0.0.1"), None, NOW);
    peer_manager.db.add_to_score(&u, -19_800_000, NOW);
    peer_manager.db.add_to_score(&w, -19_800_000, NOW);
    peer_manager.db.set_gossipsub_score(&u, -85_000_000, NOW);
    peer_manager.db.set_gossipsub_score(&w, -85_000_000, NOW);
    peer_manager.heartbeat(NOW);
    let events = drain(&mut peer_manager);
    assert_eq!(events.len(), 1);
    assert!(matches!(&events[0], PeerManagerEvent::DisconnectPeer(id, GoodbyeReason::TooManyPeers) if *id == u));
    assert_eq!(peer_manager.db.connected_or_dialing_peers(), 3);
}

#[test]
fn peers_with_a_duty_are_not_given_up() {
    let mut peer_manager = build_peer_manager(1);
    let a = peer(1);
    let b = peer(2);
    peer_manager.inject_connect_ingoing(&a, multiaddr("/ip4/10.0.0.1"), None, NOW);
    peer_manager.inject_connect_ingoing(&b, multiaddr("/ip4/10.0.0.1"), None, NOW);
    peer_manager.db.update_min_ttl(&a, NOW + 100, NOW);
    peer_manager.db.update_min_ttl(&b, NOW + 100, NOW);
    peer_manager.heartbeat(NOW);
    assert_eq!(peer_manager.db.connected_peers(), 2);
    // Once the duties are over, one of them goes.
    peer_manager.heartbeat(NOW + 100);
    assert_eq!(peer_manager.db.connected_peers(), 1);
}
