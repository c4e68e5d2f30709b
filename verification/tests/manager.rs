use peer_manager::client::ClientKind;
use peer_manager::config::Config;
use peer_manager::events::PeerManagerEvent;
use peer_manager::manager::{ConnectingType, Identified, IdentifyInfo, PeerManager};
use peer_manager::metrics::ScoreQuantile;
use peer_manager::peer_info::PeerConnectionStatus;
use peer_manager::peerdb::BanResult;
use peer_manager::rpc::{Protocol, RPCError, RPCResponseErrorCode};
use peer_manager::score::{PeerAction, SCORE_UNIT};
use peer_manager::types::{
    ConnectionDirection, GoodbyeReason, IpAddress, Multiaddr, PeerId, ReportSource, SyncStatus,
};

fn manager(target_peer_count: usize, discovery_enabled: bool) -> PeerManager {
    PeerManager::new(Config { target_peer_count, discovery_enabled, ..Default::default() }).unwrap()
}

fn id(n: u8) -> PeerId {
    PeerId::from_bytes(&[n; 32])
}

fn at(ip: u32) -> Multiaddr {
    let mut encoded = vec![4];
    encoded.extend_from_slice(&ip.to_be_bytes());
    Multiaddr { ip: Some(IpAddress::V4(ip)), encoded }
}

fn drain(peer_manager: &mut PeerManager) -> Vec<PeerManagerEvent> {
    let mut events = Vec::new();
    while let Some(event) = peer_manager.poll_event() {
        events.push(event);
    }
    events
}

fn status(peer_manager: &PeerManager, peer: &PeerId) -> PeerConnectionStatus {
    peer_manager.db.connection_status(peer).unwrap()
}

#[test]
fn requests_leave_in_the_order_they_came() {
    let mut pm = manager(50, false);
    assert!(pm.poll_event().is_none());
    for n in 1..=40 {
        pm.disconnect_peer(id(n), GoodbyeReason::Fault, 0);
    }
    assert_eq!(pm.pending_events(), 40);
    for n in 1..=40 {
        match pm.poll_event() {
            Some(PeerManagerEvent::DisconnectPeer(peer, GoodbyeReason::Fault)) => assert_eq!(peer, id(n)),
            other => panic!("{:?}", other),
        }
        assert_eq!(pm.pending_events(), 40 - n as usize);
    }
    assert!(pm.poll_event().is_none());
}

#[test]
fn a_fatal_report_leads_to_a_ban_after_the_disconnection() {
    let mut pm = manager(50, false);
    let p = id(1);
    assert!(pm.inject_connect_ingoing(&p, at(42), None, 10));
    pm.report_peer(&p, PeerAction::Fatal, ReportSource::Processor, None, "test", 11);
    let events = drain(&mut pm);
    assert_eq!(events.len(), 1);
    assert!(matches!(&events[0], PeerManagerEvent::DisconnectPeer(peer, GoodbyeReason::BadScore) if *peer == p));
    assert_eq!(status(&pm, &p), PeerConnectionStatus::Disconnecting { to_ban: true });
    pm.inject_disconnect(&p, 12);
    let events = drain(&mut pm);
    assert_eq!(events.len(), 1);
    match &events[0] {
        PeerManagerEvent::Banned(peer, ips) => {
            assert_eq!(*peer, p);
            assert_eq!(ips, &vec![IpAddress::V4(42)]);
        }
        other => panic!("{:?}", other),
    }
    assert_eq!(status(&pm, &p), PeerConnectionStatus::Banned { since: 12 });
}

#[test]
fn a_banned_peer_is_refused() {
    let mut pm = manager(50, false);
    let p = id(1);
    pm.report_peer(&p, PeerAction::Fatal, ReportSource::Processor, None, "test", 1);
    drain(&mut pm);
    assert_eq!(pm.ban_status(&p), BanResult::BannedPeer);
    assert!(!pm.inject_connect_ingoing(&p, at(1), None, 2));
    assert!(!pm.inject_connect_outgoing(&p, at(1), None, 2));
    assert!(!pm.inject_peer_connection(&p, ConnectingType::Dialing, None, 2));
    pm.inject_dialing(&p, None, 2);
    assert_eq!(status(&pm, &p), PeerConnectionStatus::Banned { since: 1 });
    assert!(!pm.is_connected(&p));
    assert!(pm.db.peer_info(&p).unwrap().seen_ip_addresses().is_empty());
    assert!(!pm.status_peers.contains(&p));
    assert!(!pm.inbound_ping_peers.contains(&p));
    assert!(drain(&mut pm).is_empty());
}

#[test]
fn a_goodbye_bans_with_its_reason() {
    let mut pm = manager(50, false);
    let p = id(1);
    pm.inject_connect_outgoing(&p, at(1), None, 0);
    pm.goodbye_peer(&p, GoodbyeReason::IrrelevantNetwork, ReportSource::SyncService, 1);
    let events = drain(&mut pm);
    assert_eq!(events.len(), 1);
    assert!(matches!(&events[0], PeerManagerEvent::DisconnectPeer(peer, GoodbyeReason::IrrelevantNetwork) if *peer == p));
    assert_eq!(pm.db.peer_info(&p).unwrap().sync_status(), SyncStatus::IrrelevantPeer);
    let q = id(2);
    pm.inject_connect_outgoing(&q, at(2), None, 0);
    pm.goodbye_peer(&q, GoodbyeReason::Fault, ReportSource::SyncService, 1);
    assert_eq!(pm.db.peer_info(&q).unwrap().sync_status(), SyncStatus::Unknown);
    // A peer that is not known is banned at once.
    pm.goodbye_peer(&id(3), GoodbyeReason::IrrelevantNetwork, ReportSource::SyncService, 1);
    let events = drain(&mut pm);
    assert!(matches!(&events[1], PeerManagerEvent::Banned(peer, ips) if *peer == id(3) && ips.is_empty()));
}

#[test]
fn a_disconnection_without_a_ban() {
    let mut pm = manager(50, false);
    let p = id(1);
    pm.inject_connect_ingoing(&p, at(1), None, 0);
    pm.disconnect_peer(p, GoodbyeReason::ClientShutdown, 1);
    assert_eq!(status(&pm, &p), PeerConnectionStatus::Disconnecting { to_ban: false });
    pm.inject_disconnect(&p, 2);
    assert_eq!(status(&pm, &p), PeerConnectionStatus::Disconnected { since: 2 });
    let events = drain(&mut pm);
    assert_eq!(events.len(), 1);
    assert!(matches!(&events[0], PeerManagerEvent::DisconnectPeer(peer, GoodbyeReason::ClientShutdown) if *peer == p));
}

#[test]
fn rpc_errors_are_held_against_the_peer() {
    let mut pm = manager(50, false);
    let p = id(1);
    pm.inject_connect_ingoing(&p, at(1), None, 0);
    pm.handle_rpc_error(&p, Protocol::Ping, &RPCError::StreamTimeout, ConnectionDirection::Incoming, 1);
    assert_eq!(pm.db.score(&p), 0);
    pm.handle_rpc_error(&p, Protocol::Ping, &RPCError::StreamTimeout, ConnectionDirection::Outgoing, 1);
    assert_eq!(pm.db.score(&p), -5 * SCORE_UNIT);
    pm.handle_rpc_error(&p, Protocol::Goodbye, &RPCError::UnsupportedProtocol, ConnectionDirection::Outgoing, 1);
    assert_eq!(pm.db.score(&p), -5 * SCORE_UNIT);
    pm.handle_rpc_error(
        &p,
        Protocol::GetChunks,
        &RPCError::ErrorResponse(RPCResponseErrorCode::RateLimited, "slow down".to_string()),
        ConnectionDirection::Outgoing,
        1,
    );
    assert_eq!(pm.db.score(&p), -7_500_000);
    assert!(drain(&mut pm).is_empty());
    pm.handle_rpc_error(&p, Protocol::Ping, &RPCError::UnsupportedProtocol, ConnectionDirection::Outgoing, 1);
    let events = drain(&mut pm);
    assert!(matches!(&events[0], PeerManagerEvent::DisconnectPeer(peer, GoodbyeReason::BadScore) if *peer == p));
    assert_eq!(status(&pm, &p), PeerConnectionStatus::Disconnecting { to_ban: true });
}

#[test]
fn the_limit_counts_dialed_peers_for_incoming_connections() {
    let mut pm = manager(10, false);
    for n in 0..8 {
        pm.inject_connect_ingoing(&id(n), at(n as u32), None, 0);
    }
    for n in 8..10 {
        pm.inject_dialing(&id(n), None, 0);
    }
    assert_eq!(pm.max_peers(), 11);
    assert_eq!(pm.max_priority_peers(), 13);
    assert_eq!(pm.max_outbound_dialing_peers(), 12);
    assert_eq!(pm.min_outbound_only_peers(), 2);
    assert_eq!(pm.target_outbound_peers(), 3);
    assert!(!pm.peer_limit_reached(true));
    pm.inject_dialing(&id(10), None, 0);
    assert!(pm.peer_limit_reached(true));
    assert!(!pm.peer_limit_reached(false));
    for n in 11..15 {
        pm.inject_connect_outgoing(&id(n), at(n as u32), None, 0);
    }
    assert!(pm.peer_limit_reached(false));
}

#[test]
fn a_search_is_asked_for_what_is_missing() {
    let mut pm = manager(10, true);
    for n in 0..4 {
        pm.inject_connect_outgoing(&id(n), at(n as u32), None, 0);
    }
    let to_dial = pm.peers_discovered(vec![], 0);
    assert!(to_dial.is_empty());
    let events = drain(&mut pm);
    assert_eq!(events.len(), 1);
    assert!(matches!(events[0], PeerManagerEvent::DiscoverPeers(6)));
}

#[test]
fn a_search_is_for_sixteen_peers_at_most() {
    let mut pm = manager(50, true);
    pm.maintain_peer_count(0);
    pm.maintain_peer_count(40);
    pm.maintain_peer_count(50);
    pm.maintain_peer_count(60);
    let events = drain(&mut pm);
    // With nothing missing in general, no outbound-only peer is connected:
    // the search is then for the room that is left, if there is any.
    assert_eq!(events.len(), 3);
    assert!(matches!(events[0], PeerManagerEvent::DiscoverPeers(16)));
    assert!(matches!(events[1], PeerManagerEvent::DiscoverPeers(10)));
    assert!(matches!(events[2], PeerManagerEvent::DiscoverPeers(10)));
}

#[test]
fn a_search_for_outbound_peers() {
    let mut pm = manager(10, true);
    for n in 0..10 {
        pm.inject_connect_ingoing(&id(n), at(n as u32), None, 0);
    }
    pm.maintain_peer_count(0);
    let events = drain(&mut pm);
    assert_eq!(events.len(), 1);
    assert!(matches!(events[0], PeerManagerEvent::DiscoverPeers(2)));
    pm.maintain_peer_count(1);
    assert!(matches!(drain(&mut pm)[0], PeerManagerEvent::DiscoverPeers(1)));
    // No room is left once the peers to dial fill it.
    pm.maintain_peer_count(2);
    pm.maintain_peer_count(5);
    assert!(drain(&mut pm).is_empty());
    // With enough outbound-only peers nothing is looked for.
    let mut pm = manager(10, true);
    for n in 0..8 {
        pm.inject_connect_ingoing(&id(n), at(n as u32), None, 0);
    }
    for n in 8..10 {
        pm.inject_connect_outgoing(&id(n), at(n as u32), None, 0);
    }
    pm.maintain_peer_count(0);
    assert!(drain(&mut pm).is_empty());
}

#[test]
fn no_search_without_discovery() {
    let mut pm = manager(10, false);
    pm.maintain_peer_count(0);
    pm.heartbeat(0);
    assert!(pm.peers_discovered(vec![(id(1), None)], 0) == vec![id(1)]);
    assert!(drain(&mut pm).is_empty());
}

#[test]
fn found_peers_are_dialed_while_there_is_room() {
    let mut pm = manager(10, false);
    for n in 21..30 {
        pm.inject_connect_ingoing(&id(n), at(n as u32), None, 0);
    }
    pm.inject_dialing(&id(2), None, 0);
    pm.inject_disconnect(&id(3), 0);
    // Ten peers are connected or dialed, of eleven at most, and of thirteen
    // for a peer that a duty needs.
    let found = vec![
        (id(21), None),
        (id(2), Some(100)),
        (id(3), None),
        (id(4), None),
        (id(5), Some(200)),
        (id(6), Some(300)),
        (id(7), Some(400)),
        (id(8), None),
    ];
    let to_dial = pm.peers_discovered(found, 7);
    assert_eq!(to_dial, vec![id(3), id(5), id(6)]);
    // The duty of a chosen peer is noted, also where the peer was not known.
    assert_eq!(pm.db.peer_info(&id(2)).unwrap().min_ttl(), None);
    assert_eq!(pm.db.peer_info(&id(6)).unwrap().min_ttl(), Some(300));
    assert_eq!(status(&pm, &id(6)), PeerConnectionStatus::Unknown);
    assert!(pm.db.peer_info(&id(4)).is_none());
    assert!(pm.db.peer_info(&id(7)).is_none());
    let found = vec![(id(3), Some(50)), (id(3), Some(40))];
    let to_dial = pm.peers_discovered(found, 7);
    assert_eq!(to_dial, vec![id(3), id(3)]);
    assert_eq!(pm.db.peer_info(&id(3)).unwrap().min_ttl(), Some(50));
}

#[test]
fn a_peer_that_is_dialed_is_not_found_again() {
    let mut pm = manager(10, true);
    let p = id(1);
    assert_eq!(pm.peers_discovered(vec![(p, None)], 0), vec![p]);
    pm.inject_dialing(&p, None, 0);
    assert!(pm.peers_discovered(vec![(p, None)], 0).is_empty());
    assert!(pm.peers_discovered(vec![(p, None)], 0).is_empty());
    assert_eq!(status(&pm, &p), PeerConnectionStatus::Dialing { since: 0 });
}

#[test]
fn the_filter_has_the_last_word_on_dials() {
    let mut pm = manager(10, true);
    let found = vec![(id(1), None), (id(2), None), (id(3), Some(9)), (id(4), None)];
    let even = |peer: &PeerId| peer.w0 % 2 == 0;
    let to_dial = pm.peers_discovered_filtered(found, even, 0);
    assert_eq!(to_dial, vec![id(2), id(4)]);
    // The search that follows counts the peers that are dialed.
    let events = drain(&mut pm);
    assert_eq!(events.len(), 1);
    assert!(matches!(events[0], PeerManagerEvent::DiscoverPeers(8)));
}

#[test]
fn timers_ask_for_pings_and_statuses() {
    let config = Config {
        ping_interval_inbound: 15,
        ping_interval_outbound: 20,
        status_interval: 300,
        discovery_enabled: false,
        ..Default::default()
    };
    let mut pm = PeerManager::new(config).unwrap();
    let a = id(1);
    let b = id(2);
    pm.inject_connect_ingoing(&a, at(1), None, 100);
    pm.inject_connect_outgoing(&b, at(2), None, 100);
    assert!(pm.inbound_ping_peers.contains(&a));
    assert!(!pm.outbound_ping_peers.contains(&a));
    assert!(pm.outbound_ping_peers.contains(&b));
    assert!(pm.status_peers.contains(&a) && pm.status_peers.contains(&b));
    assert!(!pm.poll_timers(114));
    assert!(pm.poll_timers(115));
    assert!(!pm.poll_timers(115));
    assert!(pm.poll_timers(120));
    assert!(!pm.poll_timers(120));
    let events = drain(&mut pm);
    assert_eq!(events.len(), 2);
    assert!(matches!(&events[0], PeerManagerEvent::Ping(peer) if *peer == a));
    assert!(matches!(&events[1], PeerManagerEvent::Ping(peer) if *peer == b));
    // The timers were set anew.
    assert_eq!(pm.inbound_ping_peers.next_deadline(), Some(130));
    assert_eq!(pm.outbound_ping_peers.next_deadline(), Some(140));
    // A ping of the peer sets its timer anew as well.
    pm.ping_request(&a, 1, 125);
    assert_eq!(pm.inbound_ping_peers.next_deadline(), Some(140));
    pm.ping_request(&b, 1, 126);
    assert_eq!(pm.outbound_ping_peers.next_deadline(), Some(146));
    pm.ping_request(&id(9), 1, 126);
    assert!(!pm.inbound_ping_peers.contains(&id(9)));
    assert!(pm.pong_response(&a, 1));
    assert!(!pm.pong_response(&id(9), 1));
    // Statuses.
    pm.peer_statusd(&a, 200);
    let mut asked = Vec::new();
    while pm.poll_timers(450) {
        asked.extend(drain(&mut pm));
    }
    assert!(matches!(asked.last(), Some(PeerManagerEvent::Status(peer)) if *peer == b));
    assert!(!asked.iter().any(|event| matches!(event, PeerManagerEvent::Status(peer) if *peer == a)));
    // A disconnection takes the timers away.
    pm.inject_disconnect(&a, 460);
    assert!(!pm.inbound_ping_peers.contains(&a));
    assert!(!pm.status_peers.contains(&a));
    assert!(pm.status_peers.contains(&b));
}

#[test]
fn an_identification_tells_what_is_new() {
    let mut pm = manager(10, false);
    let info = |agent: &str, addresses: Vec<Multiaddr>| IdentifyInfo {
        protocol_version: "1".to_string(),
        agent_version: agent.to_string(),
        listen_addrs: addresses,
        observed_addr: at(0),
        protocols: vec![],
    };
    assert_eq!(pm.identify(&id(1), info("teku/1", vec![])), Identified::UnknownPeer);
    pm.inject_dialing(&id(1), None, 0);
    assert_eq!(
        pm.identify(&id(1), info("teku/1", vec![])),
        Identified::Changed { previous: ClientKind::Unknown, kind: ClientKind::Teku, counted: false }
    );
    pm.inject_connect_outgoing(&id(1), at(1), None, 0);
    assert_eq!(pm.identify(&id(1), info("teku/2", vec![])), Identified::Unchanged);
    assert_eq!(
        pm.identify(&id(1), info("teku/2", vec![at(5)])),
        Identified::Changed { previous: ClientKind::Teku, kind: ClientKind::Teku, counted: true }
    );
    pm.disconnect_peer(id(1), GoodbyeReason::Fault, 0);
    assert_eq!(
        pm.identify(&id(1), info("Lighthouse/1", vec![at(5)])),
        Identified::Changed { previous: ClientKind::Teku, kind: ClientKind::Lighthouse, counted: true }
    );
    assert_eq!(pm.db.peer_info(&id(1)).unwrap().client().agent_version, "Lighthouse/1");
}

#[test]
fn gossip_scores_reach_the_transport() {
    let mut pm = manager(0, false);
    pm.inject_connect_ingoing(&id(1), at(1), None, 0);
    pm.inject_connect_ingoing(&id(2), at(2), None, 0);
    pm.update_gossipsub_scores(&vec![(id(1), -17_000 * SCORE_UNIT), (id(2), 5)], 1);
    let events = drain(&mut pm);
    assert_eq!(events.len(), 1);
    assert!(matches!(&events[0], PeerManagerEvent::DisconnectPeer(peer, GoodbyeReason::BadScore) if *peer == id(1)));
}

#[test]
fn a_heartbeat_gives_up_old_dials_and_lifts_bans() {
    let mut pm = manager(10, true);
    pm.inject_dialing(&id(1), None, 0);
    pm.report_peer(&id(2), PeerAction::Fatal, ReportSource::Gossipsub, None, "test", 0);
    drain(&mut pm);
    pm.heartbeat(100_000);
    assert_eq!(status(&pm, &id(1)), PeerConnectionStatus::Disconnected { since: 100_000 });
    assert_eq!(status(&pm, &id(2)), PeerConnectionStatus::Disconnected { since: 0 });
    let events = drain(&mut pm);
    assert_eq!(events.len(), 2);
    // The search is asked for with the dial still counted.
    assert!(matches!(events[0], PeerManagerEvent::DiscoverPeers(9)));
    assert!(matches!(&events[1], PeerManagerEvent::UnBanned(peer, ips) if *peer == id(2) && ips.is_empty()));
}

#[test]
fn figures_are_reported_when_asked_for() {
    let mut pm = manager(10, false);
    assert!(pm.update_connected_peer_metrics().is_none());
    assert!(pm.update_peer_score_metrics().is_none());
    let config = Config { metrics_enabled: true, discovery_enabled: false, ..Default::default() };
    let mut pm = PeerManager::new(config).unwrap();
    let empty = pm.update_peer_score_metrics().unwrap();
    assert!(empty.distribution.is_empty() && empty.per_client.is_empty());
    let points = [10i64, -4, 7, 0, -9, 3, 1, 2];
    for (n, score) in points.iter().enumerate() {
        let peer = id(n as u8);
        if n % 2 == 0 {
            pm.inject_connect_ingoing(&peer, at(n as u32), None, 0);
        } else {
            pm.inject_connect_outgoing(&peer, at(n as u32), None, 0);
        }
        pm.db.add_to_score(&peer, score * SCORE_UNIT + 999_999 * score.signum(), 0);
        let agent = if n < 3 { "teku/1" } else if n < 5 { "nimbus" } else { "other" };
        pm.identify(
            &peer,
            IdentifyInfo {
                protocol_version: String::new(),
                agent_version: agent.to_string(),
                listen_addrs: vec![],
                observed_addr: at(0),
                protocols: vec![],
            },
        );
    }
    pm.inject_dialing(&id(100), None, 0);
    let figures = pm.update_connected_peer_metrics().unwrap();
    assert_eq!(figures.connected, 8);
    assert_eq!(figures.inbound, 4);
    assert_eq!(figures.outbound, 4);
    assert_eq!(figures.per_client, vec![0, 2, 3, 0, 0, 3]);
    let scores = pm.update_peer_score_metrics().unwrap();
    // Best first: 10 7 3 2 1 0 -4 -9, in whole points.
    assert_eq!(
        scores.distribution,
        vec![
            (ScoreQuantile::First, 10),
            (ScoreQuantile::Quarter, 7),
            (ScoreQuantile::Half, 2),
            (ScoreQuantile::ThreeQuarters, 0),
            (ScoreQuantile::Last, -9),
        ]
    );
    assert_eq!(
        scores.per_client,
        vec![
            (ClientKind::Nimbus, -4_999_999, 2),
            (ClientKind::Teku, 4_666_666, 3),
            (ClientKind::Unknown, 2_999_999, 3),
        ]
    );
}
