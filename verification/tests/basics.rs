use peer_manager::capacity::{
    max_outbound_dialing_peers, max_priority_peers, min_outbound_only_peers, scaled,
};
use peer_manager::client::{client_kind, Client, ClientKind};
use peer_manager::config::{Config, ConfigError};
use peer_manager::manager::PeerManager as Manager;
use peer_manager::rpc::{action_for_rpc_error, Protocol, RPCError, RPCResponseErrorCode};
use peer_manager::score::PeerAction;
use peer_manager::timers::TimerSet;
use peer_manager::types::{
    addresses_equal, bytes_equal, ConnectionDirection, IpAddress, Multiaddr, PeerId as Id,
};

#[test]
fn capacities_round_up() {
    assert_eq!(max_priority_peers(50), 65);
    assert_eq!(max_priority_peers(3), 4);
    assert_eq!(max_outbound_dialing_peers(50), 60);
    assert_eq!(max_outbound_dialing_peers(10), 12);
    assert_eq!(min_outbound_only_peers(50), 10);
    assert_eq!(min_outbound_only_peers(3), 1);
    assert_eq!(min_outbound_only_peers(0), 0);
    assert_eq!(scaled(7, 10), 1);
    assert_eq!(scaled(10, 10), 1);
    assert_eq!(scaled(11, 10), 2);
}

#[test]
fn capacities_stop_at_the_largest_count() {
    assert_eq!(max_priority_peers(usize::MAX), usize::MAX);
    // The largest count is a multiple of five.
    assert_eq!(min_outbound_only_peers(usize::MAX), usize::MAX / 5);
    assert_eq!(min_outbound_only_peers(usize::MAX - 1), usize::MAX / 5);
    assert_eq!(min_outbound_only_peers(usize::MAX - 5), usize::MAX / 5 - 1);
}

#[test]
fn the_default_settings() {
    let config = Config::default();
    assert_eq!(config.target_peer_count, 50);
    assert_eq!(config.heartbeat_interval, 30);
    assert_eq!(config.status_interval, 300);
    assert_eq!(config.ping_interval_inbound, 15);
    assert_eq!(config.ping_interval_outbound, 20);
    assert!(config.discovery_enabled);
    assert!(config.is_valid());
    assert!(Manager::new(config).is_ok());
}

#[test]
fn a_zero_interval_is_refused() {
    let zero_heartbeat = Config { heartbeat_interval: 0, ..Default::default() };
    let zero_status = Config { status_interval: 0, ..Default::default() };
    let zero_inbound = Config { ping_interval_inbound: 0, ..Default::default() };
    let zero_outbound = Config { ping_interval_outbound: 0, ..Default::default() };
    for config in [zero_heartbeat, zero_status, zero_inbound, zero_outbound] {
        assert!(!config.is_valid());
        assert!(matches!(Manager::new(config), Err(ConfigError::ConfigInvalid)));
    }
    let zero_target = Config { target_peer_count: 0, ..Default::default() };
    assert!(Manager::new(zero_target).is_ok());
}

#[test]
fn peer_ids_are_spelled_lowest_byte_first() {
    let mut bytes = [0u8; 32];
    bytes[0] = 1;
    bytes[1] = 2;
    bytes[8] = 3;
    bytes[23] = 0xff;
    bytes[31] = 0x80;
    let id = Id::from_bytes(&bytes);
    assert_eq!(id.w0, 0x0201);
    assert_eq!(id.w1, 3);
    assert_eq!(id.w2, 0xff00_0000_0000_0000);
    assert_eq!(id.w3, 0x8000_0000_0000_0000);
    assert_eq!(Id::from_bytes(&[0xff; 32]).w0, u64::MAX);
    assert_eq!(id.to_bytes(), bytes);
    let other = Id { w0: 0x0102_0304_0506_0708, w1: 0, w2: u64::MAX, w3: 0x8000_0000_0000_0001 };
    assert_eq!(other.to_bytes()[..8], [8, 7, 6, 5, 4, 3, 2, 1]);
    assert_eq!(Id::from_bytes(&other.to_bytes()), other);
    assert_ne!(Id::from_bytes(&[1; 32]), Id::from_bytes(&[2; 32]));
}

#[test]
fn addresses_are_compared_whole() {
    let a = Multiaddr { ip: Some(IpAddress::V4(1)), encoded: vec![4, 0, 0, 0, 1] };
    let b = Multiaddr { ip: Some(IpAddress::V4(1)), encoded: vec![4, 0, 0, 0, 1] };
    let c = Multiaddr { ip: Some(IpAddress::V4(1)), encoded: vec![4, 0, 0, 0, 1, 6, 0x1f, 0x40] };
    let d = Multiaddr { ip: None, encoded: vec![4, 0, 0, 0, 1] };
    assert!(a.same(&b));
    assert!(!a.same(&c));
    assert!(!a.same(&d));
    assert!(addresses_equal(&vec![a.clone(), c.clone()], &vec![b.clone(), c.clone()]));
    assert!(!addresses_equal(&vec![a.clone(), c.clone()], &vec![c.clone(), a.clone()]));
    assert!(!addresses_equal(&vec![a.clone()], &vec![a.clone(), a.clone()]));
    assert!(addresses_equal(&vec![], &vec![]));
    assert!(bytes_equal(&vec![], &vec![]));
    assert!(!bytes_equal(&vec![1], &vec![2]));
}

#[test]
fn the_agent_names_the_client() {
    assert_eq!(client_kind("Lighthouse/v1.5.1-67da032+/x86_64-linux"), ClientKind::Lighthouse);
    assert_eq!(client_kind("Lighthouse"), ClientKind::Lighthouse);
    assert_eq!(client_kind("teku/teku/v21.8.2/linux-x86_64/oracle-java-16"), ClientKind::Teku);
    assert_eq!(client_kind("github.com/prysmaticlabs/prysm/v3"), ClientKind::Prysm);
    assert_eq!(client_kind("Prysm/v2.0.2/a80b1c252a9b4773493b41999769bf3134ac373f"), ClientKind::Prysm);
    assert_eq!(client_kind("nimbus"), ClientKind::Nimbus);
    assert_eq!(client_kind("nim-libp2p/0.1"), ClientKind::Nimbus);
    assert_eq!(client_kind("js-libp2p/0.32.4"), ClientKind::Lodestar);
    assert_eq!(client_kind("lighthouse/v1"), ClientKind::Unknown);
    assert_eq!(client_kind("Lighthouses/v1"), ClientKind::Unknown);
    assert_eq!(client_kind("/Lighthouse"), ClientKind::Unknown);
    assert_eq!(client_kind(""), ClientKind::Unknown);
    let client = Client::from_agent_version("teku/x".to_string());
    assert_eq!(client.kind, ClientKind::Teku);
    assert_eq!(client.agent_version, "teku/x");
    assert_eq!(Client::unknown().kind, ClientKind::Unknown);
}

#[test]
fn the_kinds_are_listed_in_order() {
    let kinds = ClientKind::all();
    assert_eq!(kinds.len(), 6);
    for (place, kind) in kinds.iter().enumerate() {
        assert_eq!(kind.index(), place);
    }
    assert_eq!(kinds[0], ClientKind::Lighthouse);
    assert_eq!(kinds[5], ClientKind::Unknown);
}

fn action(protocol: Protocol, error: RPCError, direction: ConnectionDirection) -> Option<PeerAction> {
    action_for_rpc_error(protocol, &error, direction)
}

const PROTOCOLS: [Protocol; 6] = [
    Protocol::Status,
    Protocol::Goodbye,
    Protocol::Ping,
    Protocol::DataByHash,
    Protocol::AnswerFile,
    Protocol::GetChunks,
];

const DIRECTIONS: [ConnectionDirection; 2] =
    [ConnectionDirection::Incoming, ConnectionDirection::Outgoing];

#[test]
fn errors_that_cost_the_same_on_every_protocol() {
    let text = || "x".to_string();
    for protocol in PROTOCOLS {
        for direction in DIRECTIONS {
            assert_eq!(action(protocol, RPCError::IncompleteStream, direction), Some(PeerAction::MidToleranceError));
            assert_eq!(action(protocol, RPCError::InternalError(text()), direction), None);
            assert_eq!(action(protocol, RPCError::HandlerRejected, direction), None);
            assert_eq!(action(protocol, RPCError::Disconnected, direction), None);
            assert_eq!(action(protocol, RPCError::InvalidData(text()), direction), Some(PeerAction::Fatal));
            assert_eq!(action(protocol, RPCError::SSZDecodeError(text()), direction), Some(PeerAction::Fatal));
            assert_eq!(action(protocol, RPCError::IoError(text()), direction), Some(PeerAction::HighToleranceError));
            assert_eq!(action(protocol, RPCError::NegotiationTimeout, direction), Some(PeerAction::LowToleranceError));
            assert_eq!(
                action(protocol, RPCError::ErrorResponse(RPCResponseErrorCode::Unknown, text()), direction),
                Some(PeerAction::HighToleranceError)
            );
            assert_eq!(
                action(protocol, RPCError::ErrorResponse(RPCResponseErrorCode::ResourceUnavailable, text()), direction),
                Some(PeerAction::Fatal)
            );
            assert_eq!(
                action(protocol, RPCError::ErrorResponse(RPCResponseErrorCode::ServerError, text()), direction),
                Some(PeerAction::MidToleranceError)
            );
            assert_eq!(
                action(protocol, RPCError::ErrorResponse(RPCResponseErrorCode::InvalidRequest, text()), direction),
                Some(PeerAction::HighToleranceError)
            );
        }
    }
}

#[test]
fn errors_that_cost_by_protocol() {
    let mid = Some(PeerAction::MidToleranceError);
    let low = Some(PeerAction::LowToleranceError);
    let fatal = Some(PeerAction::Fatal);
    // In the order of PROTOCOLS.
    let rate_limited = [low, low, mid, mid, mid, mid];
    let unsupported = [low, None, fatal, None, None, None];
    let timeout_outgoing = [None, None, low, mid, mid, mid];
    for (i, protocol) in PROTOCOLS.iter().enumerate() {
        for direction in DIRECTIONS {
            assert_eq!(
                action(*protocol, RPCError::ErrorResponse(RPCResponseErrorCode::RateLimited, String::new()), direction),
                rate_limited[i]
            );
            assert_eq!(action(*protocol, RPCError::UnsupportedProtocol, direction), unsupported[i]);
        }
        assert_eq!(action(*protocol, RPCError::StreamTimeout, ConnectionDirection::Incoming), None);
        assert_eq!(
            action(*protocol, RPCError::StreamTimeout, ConnectionDirection::Outgoing),
            timeout_outgoing[i]
        );
    }
}

#[test]
fn a_timer_runs_out_after_its_period() {
    let a = Id::from_bytes(&[1; 32]);
    let b = Id::from_bytes(&[2; 32]);
    let mut timers = TimerSet::new(15);
    assert_eq!(timers.period(), 15);
    assert_eq!(timers.next_deadline(), None);
    timers.insert(a, 100);
    timers.insert(b, 105);
    assert!(timers.contains(&a));
    assert_eq!(timers.next_deadline(), Some(115));
    assert_eq!(timers.poll_expired(114), None);
    assert_eq!(timers.poll_expired(115), Some(a));
    assert!(!timers.contains(&a));
    assert_eq!(timers.poll_expired(115), None);
    assert_eq!(timers.poll_expired(1_000), Some(b));
    assert_eq!(timers.poll_expired(1_000), None);
}

#[test]
fn a_timer_that_is_set_again_starts_anew() {
    let a = Id::from_bytes(&[1; 32]);
    let b = Id::from_bytes(&[2; 32]);
    let mut timers = TimerSet::new(10);
    timers.insert(a, 0);
    timers.insert(b, 1);
    timers.insert(a, 5);
    // The earlier timer runs out first.
    assert_eq!(timers.poll_expired(100), Some(b));
    assert_eq!(timers.poll_expired(100), Some(a));
    assert_eq!(timers.poll_expired(100), None);
    timers.insert(a, 0);
    assert!(timers.remove(&a));
    assert!(!timers.remove(&a));
    assert_eq!(timers.poll_expired(100), None);
}

#[test]
fn timers_of_one_second_run_out_in_the_order_they_were_set() {
    let ids: Vec<Id> = (1..=5).map(|n| Id::from_bytes(&[n; 32])).collect();
    let mut timers = TimerSet::new(10);
    for id in [ids[3], ids[0], ids[4], ids[1], ids[2]] {
        timers.insert(id, 50);
    }
    // Setting a timer again puts the peer behind the others.
    timers.insert(ids[0], 50);
    timers.remove(&ids[4]);
    let mut order = Vec::new();
    while let Some(id) = timers.poll_expired(60) {
        order.push(id);
    }
    assert_eq!(order, vec![ids[3], ids[1], ids[2], ids[0]]);
}

#[test]
fn a_timer_at_the_end_of_time() {
    let a = Id::from_bytes(&[1; 32]);
    let mut timers = TimerSet::new(10);
    timers.insert(a, u64::MAX - 3);
    assert_eq!(timers.next_deadline(), Some(u64::MAX));
    assert_eq!(timers.poll_expired(u64::MAX - 1), None);
    assert_eq!(timers.poll_expired(u64::MAX), Some(a));
}
