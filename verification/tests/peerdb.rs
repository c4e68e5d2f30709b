use peer_manager::client::{Client, ClientKind};
use peer_manager::peer_info::{PeerConnectionStatus, PeerInfo};
use peer_manager::peerdb::{
    BanOperation, BanResult, Group, PeerDB, ScoreUpdateResult, BANNED_PEERS_PER_IP_THRESHOLD,
    DIAL_TIMEOUT, MAX_BANNED_PEERS, MAX_DC_PEERS,
};
use peer_manager::score::{PeerAction, ScoreState, BANNED_BEFORE_DECAY, SCORE_HALFLIFE, SCORE_UNIT};
use peer_manager::types::{
    ConnectionDirection, Enr, IpAddress, Multiaddr, PeerId, ReportSource, SyncStatus,
};

fn id(n: u32) -> PeerId {
    PeerId { w0: n as u64, w1: 0, w2: 0, w3: 7 }
}

fn at(ip: u32) -> Multiaddr {
    let mut encoded = vec![4];
    encoded.extend_from_slice(&ip.to_be_bytes());
    Multiaddr { ip: Some(IpAddress::V4(ip)), encoded }
}

fn report(db: &mut PeerDB, peer: &PeerId, action: PeerAction, now: u64) -> ScoreUpdateResult {
    db.report_peer(peer, action, ReportSource::Processor, "test", now)
}

fn status(db: &PeerDB, peer: &PeerId) -> PeerConnectionStatus {
    db.connection_status(peer).unwrap()
}

#[test]
fn a_new_database_is_empty() {
    let db = PeerDB::new();
    assert_eq!(db.len(), 0);
    assert_eq!(db.connected_peers(), 0);
    assert!(db.peer_info(&id(1)).is_none());
    assert_eq!(db.connection_status(&id(1)), None);
    assert_eq!(db.score(&id(1)), 0);
    assert!(db.should_dial(&id(1)));
    assert_eq!(db.ban_status(&id(1)), BanResult::NotBanned);
    assert!(db.worst_connected_peers().is_empty());
}

#[test]
fn each_peer_has_one_record() {
    let mut db = PeerDB::new();
    let a = id(1);
    db.dialing_peer(&a, None, 10);
    db.connect_outgoing(&a, at(1), None, 11);
    db.connect_ingoing(&a, at(2), None, 12);
    report(&mut db, &a, PeerAction::HighToleranceError, 13);
    db.notify_disconnecting(&a, false, 14);
    db.inject_disconnect(&a, 15);
    db.update_scores(16);
    assert_eq!(db.len(), 1);
    report(&mut db, &id(2), PeerAction::HighToleranceError, 17);
    assert_eq!(db.len(), 2);
}

#[test]
fn a_report_makes_a_record_for_an_unknown_peer() {
    let mut db = PeerDB::new();
    let result = report(&mut db, &id(1), PeerAction::MidToleranceError, 5);
    assert!(matches!(result, ScoreUpdateResult::NoAction));
    assert_eq!(db.len(), 1);
    assert_eq!(status(&db, &id(1)), PeerConnectionStatus::Unknown);
    assert_eq!(db.score(&id(1)), -2_500_000);
    assert!(db.should_dial(&id(1)));
}

#[test]
fn the_counts_follow_the_statuses() {
    let mut db = PeerDB::new();
    db.connect_ingoing(&id(1), at(1), None, 0);
    db.connect_outgoing(&id(2), at(2), None, 0);
    db.connect_outgoing(&id(3), at(3), None, 0);
    db.connect_ingoing(&id(3), at(3), None, 0);
    db.dialing_peer(&id(4), None, 0);
    db.dialing_peer(&id(5), None, 0);
    db.connect_ingoing(&id(6), at(6), None, 0);
    db.inject_disconnect(&id(6), 1);
    assert_eq!(db.connected_peers(), 3);
    assert_eq!(db.count(Group::Dialing), 2);
    assert_eq!(db.connected_or_dialing_peers(), 5);
    assert_eq!(db.connected_outbound_only_peers(), 1);
    assert_eq!(db.count(Group::ConnectedInbound), 2);
    assert_eq!(db.count(Group::Disconnected), 1);
    assert_eq!(db.disconnected_peers(), 1);
    assert_eq!(db.count(Group::Banned), 0);
    assert_eq!(db.banned_peers(), 0);
    assert_eq!(db.len(), 6);
}

#[test]
fn the_running_counts_are_those_of_the_records() {
    let mut db = PeerDB::new();
    let check = |db: &PeerDB| {
        assert_eq!(db.banned_peers(), db.count(Group::Banned));
        assert_eq!(db.disconnected_peers(), db.count(Group::Disconnected));
        for ip in 0..6 {
            let ip = IpAddress::V4(ip);
            assert_eq!(db.banned_peers_at(&ip), db.count(Group::BannedAt(ip)));
        }
    };
    // A walk through the statuses, driven by a fixed sequence of numbers.
    let mut seed: u64 = 12_345;
    for step in 0..3_000u64 {
        seed = seed.wrapping_mul(6_364_136_223_846_793_005).wrapping_add(1_442_695_040_888_963_407);
        let peer = id(((seed >> 33) % 40) as u32);
        let ip = ((seed >> 40) % 6) as u32;
        let banned = matches!(db.connection_status(&peer), Some(PeerConnectionStatus::Banned { .. }));
        match (seed >> 50) % 9 {
            0 if !banned => db.dialing_peer(&peer, None, step),
            1 if !banned => db.connect_ingoing(&peer, at(ip), None, step),
            2 if !banned => db.connect_outgoing(&peer, at(ip), None, step),
            3 => {
                db.inject_disconnect(&peer, step);
            }
            4 => db.notify_disconnecting(&peer, seed % 2 == 0, step),
            5 => {
                report(&mut db, &peer, PeerAction::Fatal, step);
            }
            6 => {
                db.add_to_score(&peer, 60 * SCORE_UNIT, step);
            }
            7 => {
                db.update_scores(step * 50);
            }
            _ => db.cleanup_dialing_peers(step),
        }
        check(&db);
    }
    assert!(db.banned_peers() > 0 || db.disconnected_peers() > 0);
}

#[test]
fn connections_are_counted_by_direction() {
    let mut db = PeerDB::new();
    let a = id(1);
    db.connect_outgoing(&a, at(1), None, 0);
    assert_eq!(status(&db, &a), PeerConnectionStatus::Connected { n_in: 0, n_out: 1 });
    let info = db.peer_info(&a).unwrap();
    assert!(info.is_outbound_only());
    assert_eq!(info.connection_direction(), Some(ConnectionDirection::Outgoing));
    db.connect_ingoing(&a, at(2), None, 0);
    db.connect_outgoing(&a, at(1), None, 0);
    assert_eq!(status(&db, &a), PeerConnectionStatus::Connected { n_in: 1, n_out: 2 });
    let info = db.peer_info(&a).unwrap();
    assert!(!info.is_outbound_only());
    // The direction is that of the connection by which the peer became connected.
    assert_eq!(info.connection_direction(), Some(ConnectionDirection::Outgoing));
    assert_eq!(info.seen_ip_addresses(), &vec![IpAddress::V4(1), IpAddress::V4(2)]);
}

#[test]
fn the_number_of_connections_stops_at_the_largest() {
    let mut db = PeerDB::new();
    for _ in 0..300 {
        db.connect_ingoing(&id(1), at(1), None, 0);
    }
    assert_eq!(status(&db, &id(1)), PeerConnectionStatus::Connected { n_in: 255, n_out: 0 });
}

#[test]
fn an_address_without_an_ip_is_not_noted() {
    let mut db = PeerDB::new();
    db.connect_ingoing(&id(1), Multiaddr { ip: None, encoded: vec![1, 2] }, None, 0);
    assert!(db.peer_info(&id(1)).unwrap().seen_ip_addresses().is_empty());
    assert!(db.is_connected(&id(1)));
}

#[test]
fn the_node_record_is_kept() {
    let mut db = PeerDB::new();
    db.dialing_peer(&id(1), Some(Enr { encoded: vec![1, 2, 3] }), 0);
    assert_eq!(db.peer_info(&id(1)).unwrap().enr().unwrap().encoded, vec![1, 2, 3]);
    db.connect_outgoing(&id(1), at(1), None, 1);
    assert_eq!(db.peer_info(&id(1)).unwrap().enr().unwrap().encoded, vec![1, 2, 3]);
    db.connect_outgoing(&id(1), at(1), Some(Enr { encoded: vec![9] }), 2);
    assert_eq!(db.peer_info(&id(1)).unwrap().enr().unwrap().encoded, vec![9]);
}

#[test]
fn only_peers_that_are_not_in_touch_are_dialed() {
    let mut db = PeerDB::new();
    db.dialing_peer(&id(1), None, 0);
    assert_eq!(status(&db, &id(1)), PeerConnectionStatus::Dialing { since: 0 });
    assert!(!db.should_dial(&id(1)));
    db.connect_outgoing(&id(1), at(1), None, 1);
    assert!(!db.should_dial(&id(1)));
    // Dialing a connected peer changes nothing.
    db.dialing_peer(&id(1), None, 2);
    assert!(db.is_connected(&id(1)));
    db.notify_disconnecting(&id(1), false, 3);
    assert!(!db.should_dial(&id(1)));
    db.inject_disconnect(&id(1), 4);
    assert_eq!(status(&db, &id(1)), PeerConnectionStatus::Disconnected { since: 4 });
    assert!(db.should_dial(&id(1)));
    report(&mut db, &id(1), PeerAction::Fatal, 5);
    assert!(!db.should_dial(&id(1)));
}

#[test]
fn connect_then_disconnect_leaves_the_peer_disconnected() {
    let mut db = PeerDB::new();
    db.connect_ingoing(&id(1), at(1), None, 10);
    let (operation, purged) = db.inject_disconnect(&id(1), 20);
    assert!(operation.is_none());
    assert!(purged.is_empty());
    assert_eq!(status(&db, &id(1)), PeerConnectionStatus::Disconnected { since: 20 });
    // A second notice of the disconnection changes nothing.
    db.inject_disconnect(&id(1), 30);
    assert_eq!(status(&db, &id(1)), PeerConnectionStatus::Disconnected { since: 20 });
    // A peer that was not known is noted as disconnected.
    db.inject_disconnect(&id(2), 40);
    assert_eq!(status(&db, &id(2)), PeerConnectionStatus::Disconnected { since: 40 });
}

#[test]
fn a_connected_peer_is_disconnected_before_its_ban() {
    let mut db = PeerDB::new();
    let a = id(1);
    db.connect_ingoing(&a, at(77), None, 10);
    let result = report(&mut db, &a, PeerAction::Fatal, 11);
    assert!(matches!(result, ScoreUpdateResult::Ban(BanOperation::DisconnectThePeer)));
    assert_eq!(status(&db, &a), PeerConnectionStatus::Disconnecting { to_ban: true });
    assert_eq!(db.ban_status(&a), BanResult::BannedPeer);
    // A further report changes nothing.
    let again = report(&mut db, &a, PeerAction::Fatal, 12);
    assert!(matches!(again, ScoreUpdateResult::NoAction));
    let (operation, purged) = db.inject_disconnect(&a, 13);
    match operation {
        Some(BanOperation::ReadyToBan(ips)) => assert_eq!(ips, vec![IpAddress::V4(77)]),
        other => panic!("{:?}", other),
    }
    assert!(purged.is_empty());
    assert_eq!(status(&db, &a), PeerConnectionStatus::Banned { since: 13 });
    assert_eq!(db.peer_info(&a).unwrap().score_state(), ScoreState::Banned);
}

#[test]
fn a_peer_that_is_not_connected_is_banned_at_once() {
    let mut db = PeerDB::new();
    db.connect_ingoing(&id(1), at(5), None, 0);
    db.connect_ingoing(&id(1), at(6), None, 0);
    db.inject_disconnect(&id(1), 1);
    let result = report(&mut db, &id(1), PeerAction::Fatal, 2);
    match result {
        ScoreUpdateResult::Ban(BanOperation::ReadyToBan(ips)) => {
            assert_eq!(ips, vec![IpAddress::V4(5), IpAddress::V4(6)])
        }
        other => panic!("{:?}", other),
    }
    assert_eq!(status(&db, &id(1)), PeerConnectionStatus::Banned { since: 2 });
    // A peer that is being dialed, and one that is not known, likewise.
    db.dialing_peer(&id(2), None, 3);
    assert!(matches!(
        report(&mut db, &id(2), PeerAction::Fatal, 4),
        ScoreUpdateResult::Ban(BanOperation::ReadyToBan(_))
    ));
    assert!(matches!(
        report(&mut db, &id(3), PeerAction::Fatal, 5),
        ScoreUpdateResult::Ban(BanOperation::ReadyToBan(_))
    ));
    assert_eq!(db.count(Group::Banned), 3);
}

#[test]
fn a_ban_waits_for_a_disconnection_under_way() {
    let mut db = PeerDB::new();
    db.connect_ingoing(&id(1), at(5), None, 0);
    db.notify_disconnecting(&id(1), false, 1);
    let result = report(&mut db, &id(1), PeerAction::Fatal, 2);
    assert!(matches!(result, ScoreUpdateResult::Ban(BanOperation::PeerDisconnecting)));
    assert_eq!(status(&db, &id(1)), PeerConnectionStatus::Disconnecting { to_ban: true });
    db.inject_disconnect(&id(1), 3);
    assert_eq!(status(&db, &id(1)), PeerConnectionStatus::Banned { since: 3 });
}

#[test]
fn a_low_score_disconnects_a_connected_peer() {
    let mut db = PeerDB::new();
    db.connect_ingoing(&id(1), at(5), None, 0);
    for _ in 0..3 {
        assert!(matches!(
            report(&mut db, &id(1), PeerAction::LowToleranceError, 1),
            ScoreUpdateResult::NoAction
        ));
    }
    assert!(matches!(
        report(&mut db, &id(1), PeerAction::LowToleranceError, 1),
        ScoreUpdateResult::Disconnect
    ));
    assert_eq!(db.score(&id(1)), -20 * SCORE_UNIT);
    assert_eq!(status(&db, &id(1)), PeerConnectionStatus::Disconnecting { to_ban: false });
    // A peer that is not connected is left alone at that score.
    for _ in 0..4 {
        assert!(matches!(
            report(&mut db, &id(2), PeerAction::LowToleranceError, 1),
            ScoreUpdateResult::NoAction
        ));
    }
    assert_eq!(status(&db, &id(2)), PeerConnectionStatus::Unknown);
}

#[test]
fn a_mark_for_a_ban_needs_a_score_that_asks_for_it() {
    let mut db = PeerDB::new();
    db.connect_ingoing(&id(1), at(5), None, 0);
    db.notify_disconnecting(&id(1), true, 1);
    assert_eq!(status(&db, &id(1)), PeerConnectionStatus::Disconnecting { to_ban: false });
    // What was decided stays.
    db.notify_disconnecting(&id(1), true, 2);
    assert_eq!(status(&db, &id(1)), PeerConnectionStatus::Disconnecting { to_ban: false });
    db.connect_ingoing(&id(2), at(5), None, 0);
    db.add_to_score(&id(2), -60 * SCORE_UNIT, 1);
    assert_eq!(status(&db, &id(2)), PeerConnectionStatus::Disconnecting { to_ban: true });
    db.notify_disconnecting(&id(2), false, 2);
    assert_eq!(status(&db, &id(2)), PeerConnectionStatus::Disconnecting { to_ban: true });
}

#[test]
fn a_ban_is_lifted_when_the_score_has_decayed() {
    let mut db = PeerDB::new();
    db.connect_ingoing(&id(1), at(5), None, 0);
    db.inject_disconnect(&id(1), 1);
    report(&mut db, &id(1), PeerAction::Fatal, 2);
    // While the decay is held off nothing happens.
    assert!(db.update_scores(BANNED_BEFORE_DECAY).is_empty());
    assert_eq!(status(&db, &id(1)), PeerConnectionStatus::Banned { since: 2 });
    // One half-life later the score is at the threshold still.
    assert!(db.update_scores(BANNED_BEFORE_DECAY + SCORE_HALFLIFE).is_empty());
    assert_eq!(db.score(&id(1)), -50 * SCORE_UNIT);
    let results = db.update_scores(BANNED_BEFORE_DECAY + SCORE_HALFLIFE + 1);
    assert_eq!(results.len(), 1);
    assert_eq!(results[0].0, id(1));
    match &results[0].1 {
        ScoreUpdateResult::Unbanned(ips) => assert_eq!(ips, &vec![IpAddress::V4(5)]),
        other => panic!("{:?}", other),
    }
    assert_eq!(status(&db, &id(1)), PeerConnectionStatus::Disconnected { since: 2 });
    assert_eq!(db.ban_status(&id(1)), BanResult::NotBanned);
    assert!(db.should_dial(&id(1)));
    assert!(db.update_scores(BANNED_BEFORE_DECAY + 2 * SCORE_HALFLIFE).is_empty());
}

#[test]
fn a_lifted_ban_frees_only_addresses_without_banned_peers() {
    let mut db = PeerDB::new();
    db.connect_ingoing(&id(1), at(5), None, 0);
    db.connect_ingoing(&id(1), at(6), None, 0);
    db.inject_disconnect(&id(1), 1);
    report(&mut db, &id(1), PeerAction::Fatal, 2);
    db.connect_ingoing(&id(2), at(6), None, 0);
    db.inject_disconnect(&id(2), 1);
    report(&mut db, &id(2), PeerAction::Fatal, 2);
    // A good report lifts the ban of the first peer once its score is high enough.
    let mut lifted = None;
    for _ in 0..600 {
        if let ScoreUpdateResult::Unbanned(ips) = db.add_to_score(&id(1), 10 * SCORE_UNIT, 3) {
            lifted = Some(ips);
            break;
        }
    }
    assert_eq!(lifted, Some(vec![IpAddress::V4(5)]));
    assert_eq!(status(&db, &id(2)), PeerConnectionStatus::Banned { since: 2 });
}

#[test]
fn an_address_is_banned_above_the_threshold() {
    let mut db = PeerDB::new();
    let shared = IpAddress::V4(9);
    for n in 0..BANNED_PEERS_PER_IP_THRESHOLD as u32 {
        db.connect_ingoing(&id(n), at(9), None, 0);
        db.inject_disconnect(&id(n), 1);
        report(&mut db, &id(n), PeerAction::Fatal, 2);
    }
    let visitor = id(100);
    db.connect_ingoing(&visitor, at(8), None, 0);
    db.connect_ingoing(&visitor, at(9), None, 0);
    db.inject_disconnect(&visitor, 1);
    assert!(!db.is_ip_banned(&shared));
    assert_eq!(db.ban_status(&visitor), BanResult::NotBanned);
    report(&mut db, &id(50), PeerAction::Fatal, 2);
    assert!(!db.is_ip_banned(&shared));
    db.connect_ingoing(&id(51), at(9), None, 0);
    db.inject_disconnect(&id(51), 1);
    report(&mut db, &id(51), PeerAction::Fatal, 2);
    assert!(db.is_ip_banned(&shared));
    assert_eq!(db.banned_peers_at(&shared), BANNED_PEERS_PER_IP_THRESHOLD + 1);
    assert!(!db.is_ip_banned(&IpAddress::V4(8)));
    assert_eq!(db.banned_peers_at(&IpAddress::V4(8)), 0);
    assert_eq!(db.ban_status(&visitor), BanResult::BannedIp(shared));
    assert_eq!(db.ban_status(&id(0)), BanResult::BannedPeer);
    // Whether a peer is worth dialing is told by its status alone.
    assert!(db.should_dial(&visitor));
}

#[test]
fn dials_are_given_up_after_the_timeout() {
    let mut db = PeerDB::new();
    db.dialing_peer(&id(1), None, 100);
    db.dialing_peer(&id(2), None, 101);
    db.connect_ingoing(&id(3), at(1), None, 0);
    db.cleanup_dialing_peers(100 + DIAL_TIMEOUT);
    assert_eq!(status(&db, &id(1)), PeerConnectionStatus::Dialing { since: 100 });
    db.cleanup_dialing_peers(101 + DIAL_TIMEOUT);
    assert_eq!(
        status(&db, &id(1)),
        PeerConnectionStatus::Disconnected { since: 101 + DIAL_TIMEOUT }
    );
    assert_eq!(status(&db, &id(2)), PeerConnectionStatus::Dialing { since: 101 });
    assert!(db.is_connected(&id(3)));
    db.cleanup_dialing_peers(3);
    assert_eq!(status(&db, &id(2)), PeerConnectionStatus::Dialing { since: 101 });
}

#[test]
fn the_oldest_disconnected_peers_are_forgotten() {
    let mut db = PeerDB::new();
    for n in 0..MAX_DC_PEERS as u32 {
        let (_, purged) = db.inject_disconnect(&id(n), 1_000 + n as u64);
        assert!(purged.is_empty());
    }
    assert_eq!(db.len(), MAX_DC_PEERS);
    db.connect_ingoing(&id(9_000), at(1), None, 0);
    let (_, purged) = db.inject_disconnect(&id(9_000), 5_000);
    assert!(purged.is_empty());
    assert_eq!(db.count(Group::Disconnected), MAX_DC_PEERS);
    assert!(db.peer_info(&id(0)).is_none());
    assert!(db.peer_info(&id(1)).is_some());
    assert!(db.peer_info(&id(9_000)).is_some());
}

#[test]
fn the_oldest_banned_peers_are_forgotten_and_their_bans_lifted() {
    let mut db = PeerDB::new();
    for n in 0..(MAX_BANNED_PEERS as u32 + 2) {
        db.connect_ingoing(&id(n), at(n / 2), None, 0);
        db.notify_disconnecting(&id(n), false, 1);
        report(&mut db, &id(n), PeerAction::Fatal, 2);
    }
    for n in 0..MAX_BANNED_PEERS as u32 {
        let (operation, purged) = db.inject_disconnect(&id(n), 10 + n as u64);
        assert!(operation.is_some());
        assert!(purged.is_empty());
    }
    assert_eq!(db.count(Group::Banned), MAX_BANNED_PEERS);
    let (_, purged) = db.inject_disconnect(&id(MAX_BANNED_PEERS as u32), 5_000);
    assert_eq!(purged.len(), 1);
    assert_eq!(purged[0].0, id(0));
    // The second peer of that address is banned still.
    assert!(purged[0].1.is_empty());
    let (_, purged) = db.inject_disconnect(&id(MAX_BANNED_PEERS as u32 + 1), 5_001);
    assert_eq!(purged.len(), 1);
    assert_eq!(purged[0].0, id(1));
    assert_eq!(purged[0].1, vec![IpAddress::V4(0)]);
    assert_eq!(db.count(Group::Banned), MAX_BANNED_PEERS);
    assert!(db.peer_info(&id(0)).is_none());
    assert!(db.peer_info(&id(2)).is_some());
}

#[test]
fn the_worst_connected_peers_come_first() {
    let mut db = PeerDB::new();
    let scores = [3i64, -7, 0, -1, 12, -7];
    for (n, points) in scores.iter().enumerate() {
        db.connect_ingoing(&id(n as u32), at(n as u32), None, 0);
        db.add_to_score(&id(n as u32), points * SCORE_UNIT, 0);
    }
    db.dialing_peer(&id(50), None, 0);
    db.inject_disconnect(&id(51), 0);
    let order = db.worst_connected_peers();
    let listed: Vec<i64> = order.iter().map(|peer| db.score(peer) / SCORE_UNIT).collect();
    assert_eq!(listed, vec![-7, -7, -1, 0, 3, 12]);
    let mut sorted = order.clone();
    sorted.sort_by_key(|peer| peer.w0);
    sorted.dedup();
    assert_eq!(sorted.len(), 6);
    let best = db.best_peers_by_status(PeerInfo::is_connected);
    let listed: Vec<i64> = best.iter().map(|peer| db.score(peer) / SCORE_UNIT).collect();
    assert_eq!(listed, vec![12, 3, 0, -1, -7, -7]);
    let dialing = db.best_peers_by_status(PeerInfo::is_dialing);
    assert_eq!(dialing, vec![id(50)]);
    let none = db.best_peers_by_status(|_| false);
    assert!(none.is_empty());
}

#[test]
fn gossip_scores_are_taken_for_connected_peers() {
    let mut db = PeerDB::new();
    for n in 0..4 {
        db.connect_ingoing(&id(n), at(n), None, 0);
    }
    db.dialing_peer(&id(9), None, 0);
    let reports = vec![
        (id(0), -30 * SCORE_UNIT),
        (id(1), -20 * SCORE_UNIT),
        (id(2), 40 * SCORE_UNIT),
        (id(1), 77 * SCORE_UNIT),
        (id(9), -5 * SCORE_UNIT),
        (id(33), -5 * SCORE_UNIT),
        (id(3), -20 * SCORE_UNIT),
    ];
    // With a target of ten peers, one negative score is let off: the least
    // negative one, and of two that are as negative the earlier.
    let results = db.update_gossipsub_scores(10, &reports, 1);
    assert!(results.is_empty());
    let score = |n: u32| db.peer_info(&id(n)).unwrap().score();
    assert_eq!(score(0).gossipsub_score, -30 * SCORE_UNIT);
    assert!(!score(0).ignore_negative_gossipsub_score);
    assert_eq!(score(1).gossipsub_score, -20 * SCORE_UNIT);
    assert!(score(1).ignore_negative_gossipsub_score);
    assert_eq!(score(2).gossipsub_score, 40 * SCORE_UNIT);
    assert!(!score(2).ignore_negative_gossipsub_score);
    assert!(!score(3).ignore_negative_gossipsub_score);
    assert_eq!(score(9).gossipsub_score, 0);
    assert!(db.peer_info(&id(33)).is_none());
    assert_eq!(db.score(&id(0)), -35_625);
    assert_eq!(db.score(&id(1)), 0);
    assert_eq!(db.score(&id(2)), 47_500);
}

#[test]
fn a_bad_gossip_score_disconnects() {
    let mut db = PeerDB::new();
    db.connect_ingoing(&id(0), at(0), None, 0);
    db.connect_ingoing(&id(1), at(1), None, 0);
    let reports = vec![(id(0), -17_000 * SCORE_UNIT), (id(1), -17_000 * SCORE_UNIT)];
    // With a target of no peers none is let off.
    let results = db.update_gossipsub_scores(0, &reports, 1);
    assert_eq!(results.len(), 2);
    assert_eq!(results[0].0, id(0));
    assert!(matches!(results[0].1, ScoreUpdateResult::Disconnect));
    assert!(matches!(results[1].1, ScoreUpdateResult::Disconnect));
    assert_eq!(status(&db, &id(0)), PeerConnectionStatus::Disconnecting { to_ban: false });
    let mut db = PeerDB::new();
    db.connect_ingoing(&id(0), at(0), None, 0);
    db.connect_ingoing(&id(1), at(1), None, 0);
    let results = db.update_gossipsub_scores(1, &reports, 1);
    assert_eq!(results.len(), 1);
    assert_eq!(results[0].0, id(1));
}

#[test]
fn what_a_peer_says_of_itself_is_noted() {
    let mut db = PeerDB::new();
    assert_eq!(db.identify(&id(1), vec![at(1)], Client::unknown()), None);
    db.connect_ingoing(&id(1), at(1), None, 0);
    let teku = || Client::from_agent_version("teku/v1".to_string());
    assert_eq!(db.identify(&id(1), vec![at(1), at(2)], teku()), Some((ClientKind::Unknown, true)));
    assert_eq!(db.identify(&id(1), vec![at(1), at(2)], teku()), Some((ClientKind::Teku, false)));
    assert_eq!(db.identify(&id(1), vec![at(2), at(1)], teku()), Some((ClientKind::Teku, true)));
    let info = db.peer_info(&id(1)).unwrap();
    assert_eq!(info.client().kind, ClientKind::Teku);
    assert!(info.listening_addresses()[0].same(&at(2)));
    assert_eq!(info.listening_addresses().len(), 2);
}

#[test]
fn duties_and_sync_status_are_noted() {
    let mut db = PeerDB::new();
    db.update_sync_status(&id(1), SyncStatus::Synced);
    assert_eq!(db.len(), 0);
    // A duty makes a peer known.
    db.update_min_ttl(&id(1), 50, 3);
    assert_eq!(db.len(), 1);
    assert_eq!(status(&db, &id(1)), PeerConnectionStatus::Unknown);
    db.update_min_ttl(&id(1), 40, 4);
    db.update_sync_status(&id(1), SyncStatus::Behind);
    let info = db.peer_info(&id(1)).unwrap();
    assert_eq!(info.min_ttl(), Some(50));
    assert!(info.has_future_duty(49));
    assert!(!info.has_future_duty(50));
    assert_eq!(info.sync_status(), SyncStatus::Behind);
    assert_eq!(info.since(), 0);
    assert_eq!(info.score().last_updated, 3);
    db.update_min_ttl(&id(1), 60, 5);
    assert_eq!(db.peer_info(&id(1)).unwrap().min_ttl(), Some(60));
}

#[test]
fn a_banned_peer_has_a_score_that_asks_for_the_ban() {
    let mut db = PeerDB::new();
    for n in 0..20u32 {
        db.connect_ingoing(&id(n), at(n), None, 0);
        if n % 2 == 0 {
            db.inject_disconnect(&id(n), 1);
        }
        for _ in 0..n {
            report(&mut db, &id(n), PeerAction::LowToleranceError, 2);
        }
        db.inject_disconnect(&id(n), 3);
        let banned = matches!(status(&db, &id(n)), PeerConnectionStatus::Banned { .. });
        assert_eq!(banned, db.score(&id(n)) <= -50 * SCORE_UNIT);
        assert_eq!(banned, n >= 10);
    }
}
