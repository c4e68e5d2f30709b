//! The peer manager: it takes what the transport and the protocols report,
//! keeps the peer database and the timers, and queues what it asks of the
//! transport.

use crate::capacity;
use crate::client::{kind_of_agent, Client, ClientKind};
use crate::config::{Config, ConfigError};
use crate::events::{queued, EventQueue, PeerManagerEvent, PeerManagerEventView};
use crate::metrics::{
    client_means, client_scores, connected_peers, distribution, score_distribution,
    ConnectedPeerMetrics, PeerScoreMetrics,
};
use crate::peer_info::{PeerConnectionStatus, PeerInfo, PeerInfoView};
use crate::peerdb::{
    aged_all, aged_results, ban_status_of, cleaned_up, connected, descending, dialed, disconnected,
    disconnecting, goodbye_noted, gossip_applied, gossip_results, members, old_records_forgotten,
    pending_ban, record, released_ips, reported, reported_result, results_view, should_dial_of,
    BanOperation, BanOperationView, BanResult, Group, PeerDB, PeerMap, ScoreUpdateResult,
    ScoreUpdateResultView,
};
use crate::prune::{
    all_disconnecting, lemma_all_disconnecting, lemma_pass_complete, lemma_pass_sound, prune_pass,
    prune_selection, selection_sound, spared, worst_first, Limits, Selection,
};
use crate::rpc::{action_for_rpc_error, rpc_error_action, Protocol, RPCError};
use crate::score::PeerAction;
use crate::timers::{deadline, TimerSet};
use crate::types::{
    ConnectionDirection, Enr, GoodbyeReason, Multiaddr, PeerId, ReportSource, SyncStatus,
};
use vstd::prelude::*;

verus! {

/// The most peers that one search is asked to find.
pub const MAX_DISCOVERY_QUERY: usize = 16;

/// How a peer comes to the manager's notice.
#[derive(Debug)]
pub enum ConnectingType {
    /// This node is dialing the peer.
    Dialing,
    /// The peer has dialed this node, which it reached at `multiaddr`.
    IngoingConnected { multiaddr: Multiaddr },
    /// This node has dialed the peer at `multiaddr`.
    OutgoingConnected { multiaddr: Multiaddr },
}

/// What a peer tells of itself when asked to identify.
#[derive(Debug)]
pub struct IdentifyInfo {
    pub protocol_version: String,
    pub agent_version: String,
    pub listen_addrs: Vec<Multiaddr>,
    pub observed_addr: Multiaddr,
    pub protocols: Vec<String>,
}

/// What became of an identification.
#[derive(Clone, Copy, Debug, PartialEq, Eq, Structural)]
pub enum Identified {
    /// The peer is not known; nothing was noted.
    UnknownPeer,
    /// The peer said what was known of it.
    Unchanged,
    /// The peer's implementation or its addresses are new. `counted` says
    /// whether the peer is connected or being disconnected, and so counts
    /// in the figures kept per implementation.
    Changed { previous: ClientKind, kind: ClientKind, counted: bool },
}

/// The manager of the node's peers.
#[derive(Debug)]
pub struct PeerManager {
    /// The peers the node knows of.
    pub db: PeerDB,
    /// What the manager asks of the transport, oldest first.
    pub events: EventQueue,
    /// The peers that dialed this node, waiting to be pinged.
    pub inbound_ping_peers: TimerSet,
    /// The peers that this node dialed, waiting to be pinged.
    pub outbound_ping_peers: TimerSet,
    /// The peers waiting to be asked for their status.
    pub status_peers: TimerSet,
    /// The number of peers the node wants to be connected with.
    pub target_peers: usize,
    /// The seconds between two heartbeats.
    pub heartbeat_interval: u64,
    /// Whether more peers are looked for when there are too few.
    pub discovery_enabled: bool,
    /// Whether figures are reported.
    pub metrics_enabled: bool,
}

/// The reason told to a peer that is disconnected for its score, where the
/// caller gave none.
pub open spec fn reason_or_bad_score(reason: Option<GoodbyeReason>) -> GoodbyeReason {
    match reason {
        Some(reason) => reason,
        None => GoodbyeReason::BadScore,
    }
}

/// What is asked of the transport for a peer that is to be banned.
pub open spec fn ban_events(
    id: PeerId,
    operation: BanOperationView,
    reason: Option<GoodbyeReason>,
) -> Seq<PeerManagerEventView> {
    match operation {
        BanOperationView::DisconnectThePeer => seq![
            PeerManagerEventView::DisconnectPeer(id, reason_or_bad_score(reason)),
        ],
        BanOperationView::PeerDisconnecting => Seq::empty(),
        BanOperationView::ReadyToBan(ips) => seq![PeerManagerEventView::Banned(id, ips)],
    }
}

/// What is asked of the transport after a change of a peer's score.
pub open spec fn score_events(
    id: PeerId,
    result: ScoreUpdateResultView,
    reason: Option<GoodbyeReason>,
) -> Seq<PeerManagerEventView> {
    match result {
        ScoreUpdateResultView::NoAction => Seq::empty(),
        ScoreUpdateResultView::Disconnect => seq![
            PeerManagerEventView::DisconnectPeer(id, GoodbyeReason::BadScore),
        ],
        ScoreUpdateResultView::Ban(operation) => ban_events(id, operation, reason),
        ScoreUpdateResultView::Unbanned(ips) => seq![PeerManagerEventView::UnBanned(id, ips)],
    }
}

impl PeerManager {
    /// The manager is sound: its database and its timer sets are.
    pub open spec fn wf(&self) -> bool {
        &&& self.db.wf()
        &&& self.inbound_ping_peers.wf()
        &&& self.outbound_ping_peers.wf()
        &&& self.status_peers.wf()
    }

    /// What is asked of the transport and still waits, oldest first.
    pub open spec fn pending(&self) -> Seq<PeerManagerEventView> {
        queued(self.events)
    }

    /// The two managers have the same settings.
    pub open spec fn same_settings(&self, other: &PeerManager) -> bool {
        &&& self.target_peers == other.target_peers
        &&& self.heartbeat_interval == other.heartbeat_interval
        &&& self.discovery_enabled == other.discovery_enabled
        &&& self.metrics_enabled == other.metrics_enabled
        &&& self.inbound_ping_peers.spec_period() == other.inbound_ping_peers.spec_period()
        &&& self.outbound_ping_peers.spec_period() == other.outbound_ping_peers.spec_period()
        &&& self.status_peers.spec_period() == other.status_peers.spec_period()
    }

    /// The two managers have the same settings and the same timers.
    pub open spec fn same_timers(&self, other: &PeerManager) -> bool {
        &&& self.same_settings(other)
        &&& self.inbound_ping_peers@ == other.inbound_ping_peers@
        &&& self.outbound_ping_peers@ == other.outbound_ping_peers@
        &&& self.status_peers@ == other.status_peers@
    }

    /// How much room there is for peers to dial.
    pub open spec fn room(&self) -> Room {
        Room {
            connected_or_dialing: members(self.db@, Group::ConnectedOrDialing).len(),
            max_peers: capacity::saturated(capacity::ceil_percent(self.target_peers as nat, 110)) as nat,
            max_priority_peers: capacity::saturated(
                capacity::ceil_percent(self.target_peers as nat, 130),
            ) as nat,
        }
    }

    /// A manager with the given settings, which knows no peer and asks
    /// nothing. Settings in which an interval is zero are refused.
    pub fn new(cfg: Config) -> (made: Result<PeerManager, ConfigError>)
        ensures
            match made {
                Ok(manager) => {
                    &&& cfg.valid()
                    &&& manager.wf()
                    &&& manager.db@ == Map::<PeerId, crate::peer_info::PeerInfoView>::empty()
                    &&& manager.pending() == Seq::<PeerManagerEventView>::empty()
                    &&& manager.inbound_ping_peers@ == Map::<PeerId, u64>::empty()
                    &&& manager.outbound_ping_peers@ == Map::<PeerId, u64>::empty()
                    &&& manager.status_peers@ == Map::<PeerId, u64>::empty()
                    &&& manager.inbound_ping_peers.spec_period() == cfg.ping_interval_inbound
                    &&& manager.outbound_ping_peers.spec_period() == cfg.ping_interval_outbound
                    &&& manager.status_peers.spec_period() == cfg.status_interval
                    &&& manager.target_peers == cfg.target_peer_count
                    &&& manager.heartbeat_interval == cfg.heartbeat_interval
                    &&& manager.discovery_enabled == cfg.discovery_enabled
                    &&& manager.metrics_enabled == cfg.metrics_enabled
                },
                Err(error) => !cfg.valid() && error == ConfigError::ConfigInvalid,
            },
    {
        if !cfg.is_valid() {
            return Err(ConfigError::ConfigInvalid);
        }
        Ok(
            PeerManager {
                db: PeerDB::new(),
                events: EventQueue::new(),
                inbound_ping_peers: TimerSet::new(cfg.ping_interval_inbound),
                outbound_ping_peers: TimerSet::new(cfg.ping_interval_outbound),
                status_peers: TimerSet::new(cfg.status_interval),
                target_peers: cfg.target_peer_count,
                heartbeat_interval: cfg.heartbeat_interval,
                discovery_enabled: cfg.discovery_enabled,
                metrics_enabled: cfg.metrics_enabled,
            },
        )
    }

    /// The most peers that may be connected or dialing before incoming
    /// connections are refused.
    pub fn max_peers(&self) -> (count: usize)
        ensures
            count == capacity::saturated(capacity::ceil_percent(self.target_peers as nat, 110)),
    {
        capacity::max_peers(self.target_peers)
    }

    /// The most peers that may be connected or dialing when a peer needed
    /// for a duty is dialed.
    pub fn max_priority_peers(&self) -> (count: usize)
        ensures
            count == capacity::saturated(capacity::ceil_percent(self.target_peers as nat, 130)),
    {
        capacity::max_priority_peers(self.target_peers)
    }

    /// The number of outbound-only peers below which more peers are looked
    /// for.
    pub fn min_outbound_only_peers(&self) -> (count: usize)
        ensures
            count == capacity::saturated(capacity::ceil_percent(self.target_peers as nat, 20)),
    {
        capacity::min_outbound_only_peers(self.target_peers)
    }

    /// The number of outbound-only peers that pruning leaves standing.
    pub fn target_outbound_peers(&self) -> (count: usize)
        ensures
            count == capacity::saturated(capacity::ceil_percent(self.target_peers as nat, 30)),
    {
        capacity::target_outbound_peers(self.target_peers)
    }

    /// The most peers that may be connected before an outgoing connection
    /// is refused and before the search for outbound peers stops.
    pub fn max_outbound_dialing_peers(&self) -> (count: usize)
        ensures
            count == capacity::saturated(capacity::ceil_percent(self.target_peers as nat, 120)),
    {
        capacity::max_outbound_dialing_peers(self.target_peers)
    }

    /// Whether a peer may connect, and if not, why.
    pub fn ban_status(&self, peer_id: &PeerId) -> (status: BanResult)
        requires
            self.wf(),
        ensures
            status == ban_status_of(self.db@, *peer_id),
    {
        self.db.ban_status(peer_id)
    }

    /// Whether the peer is connected.
    pub fn is_connected(&self, peer_id: &PeerId) -> (yes: bool)
        requires
            self.wf(),
        ensures
            yes == (self.db@.contains_key(*peer_id) && self.db@[*peer_id].is_connected()),
    {
        self.db.is_connected(peer_id)
    }

    /// Whether no further connection is taken. For a connection that a peer
    /// opened, `count_dialing` is set, and the peers that are connected or
    /// dialed are held against the most allowed; for one that this node
    /// opened, the connected peers are held against the most allowed when
    /// dialing.
    pub fn peer_limit_reached(&self, count_dialing: bool) -> (reached: bool)
        requires
            self.wf(),
        ensures
            reached == if count_dialing {
                members(self.db@, Group::ConnectedOrDialing).len() >= capacity::saturated(
                    capacity::ceil_percent(self.target_peers as nat, 110),
                )
            } else {
                members(self.db@, Group::Connected).len() >= capacity::saturated(
                    capacity::ceil_percent(self.target_peers as nat, 120),
                )
            },
    {
        if count_dialing {
            self.db.connected_or_dialing_peers() >= self.max_peers()
        } else {
            self.db.connected_peers() >= self.max_outbound_dialing_peers()
        }
    }

    /// Queues what a ban asks of the transport.
    pub fn handle_ban_operation(
        &mut self,
        peer_id: &PeerId,
        ban_operation: BanOperation,
        reason: Option<GoodbyeReason>,
    )
        ensures
            final(self).pending() == old(self).pending() + ban_events(
                *peer_id,
                ban_operation@,
                reason,
            ),
            final(self).db == old(self).db,
            final(self).inbound_ping_peers == old(self).inbound_ping_peers,
            final(self).outbound_ping_peers == old(self).outbound_ping_peers,
            final(self).status_peers == old(self).status_peers,
            final(self).same_settings(old(self)),
    {
        match ban_operation {
            BanOperation::DisconnectThePeer => {
                // The peer is connected: once the disconnection is through,
                // it is banned.
                let told = match reason {
                    Some(reason) => reason,
                    None => GoodbyeReason::BadScore,
                };
                self.events.push(PeerManagerEvent::DisconnectPeer(*peer_id, told));
                assert(self.pending() =~= old(self).pending() + ban_events(
                    *peer_id,
                    ban_operation@,
                    reason,
                ));
            },
            BanOperation::PeerDisconnecting => {
                // The ban follows the disconnection that is under way.
                assert(self.pending() =~= old(self).pending() + Seq::empty());
            },
            BanOperation::ReadyToBan(banned_ips) => {
                self.events.push(PeerManagerEvent::Banned(*peer_id, banned_ips));
                assert(self.pending() =~= old(self).pending() + ban_events(
                    *peer_id,
                    ban_operation@,
                    reason,
                ));
            },
        }
    }

    /// Queues what a change of a peer's score asks of the transport.
    pub fn handle_score_action(
        &mut self,
        peer_id: &PeerId,
        action: ScoreUpdateResult,
        reason: Option<GoodbyeReason>,
    )
        ensures
            final(self).pending() == old(self).pending() + score_events(*peer_id, action@, reason),
            final(self).db == old(self).db,
            final(self).inbound_ping_peers == old(self).inbound_ping_peers,
            final(self).outbound_ping_peers == old(self).outbound_ping_peers,
            final(self).status_peers == old(self).status_peers,
            final(self).same_settings(old(self)),
    {
        match action {
            ScoreUpdateResult::Ban(ban_operation) => {
                self.handle_ban_operation(peer_id, ban_operation, reason);
            },
            ScoreUpdateResult::Disconnect => {
                self.events.push(
                    PeerManagerEvent::DisconnectPeer(*peer_id, GoodbyeReason::BadScore),
                );
                assert(self.pending() =~= old(self).pending() + score_events(
                    *peer_id,
                    action@,
                    reason,
                ));
            },
            ScoreUpdateResult::NoAction => {
                assert(self.pending() =~= old(self).pending() + Seq::empty());
            },
            ScoreUpdateResult::Unbanned(unbanned_ips) => {
                self.events.push(PeerManagerEvent::UnBanned(*peer_id, unbanned_ips));
                assert(self.pending() =~= old(self).pending() + score_events(
                    *peer_id,
                    action@,
                    reason,
                ));
            },
        }
    }
}

/// The timers of a peer that has become connected: the ping timer for its
/// direction and the status timer are set at `now`.
pub open spec fn timers_armed(
    before: &PeerManager,
    after: &PeerManager,
    id: PeerId,
    direction: ConnectionDirection,
    now: u64,
) -> bool {
    &&& after.same_settings(before)
    &&& after.status_peers@ == before.status_peers@.insert(
        id,
        deadline(now, before.status_peers.spec_period()),
    )
    &&& match direction {
        ConnectionDirection::Incoming => {
            &&& after.inbound_ping_peers@ == before.inbound_ping_peers@.insert(
                id,
                deadline(now, before.inbound_ping_peers.spec_period()),
            )
            &&& after.outbound_ping_peers@ == before.outbound_ping_peers@
        },
        ConnectionDirection::Outgoing => {
            &&& after.outbound_ping_peers@ == before.outbound_ping_peers@.insert(
                id,
                deadline(now, before.outbound_ping_peers.spec_period()),
            )
            &&& after.inbound_ping_peers@ == before.inbound_ping_peers@
        },
    }
}

/// What a node record holds, if there is one.
pub open spec fn enr_view(enr: Option<Enr>) -> Option<Seq<u8>> {
    match enr {
        Some(enr) => Some(enr@),
        None => None,
    }
}

impl PeerManager {
    /// Reports a peer for `action` and queues what comes of it. `reason` is
    /// told to the peer if it is disconnected to be banned.
    pub fn report_peer(
        &mut self,
        peer_id: &PeerId,
        action: PeerAction,
        source: ReportSource,
        reason: Option<GoodbyeReason>,
        msg: &str,
        now: u64,
    )
        requires
            old(self).wf(),
        ensures
            final(self).wf(),
            final(self).db@ == reported(old(self).db@, *peer_id, action, now),
            final(self).pending() == old(self).pending() + score_events(
                *peer_id,
                reported_result(old(self).db@, *peer_id, action, now),
                reason,
            ),
            final(self).same_timers(old(self)),
    {
        let result = self.db.report_peer(peer_id, action, source, msg, now);
        self.handle_score_action(peer_id, result, reason);
    }

    /// The node wants to be rid of a peer for `reason`: the peer is told
    /// goodbye and banned.
    pub fn goodbye_peer(
        &mut self,
        peer_id: &PeerId,
        reason: GoodbyeReason,
        source: ReportSource,
        now: u64,
    )
        requires
            old(self).wf(),
        ensures
            final(self).wf(),
            final(self).db@ == reported(
                goodbye_noted(old(self).db@, *peer_id, reason),
                *peer_id,
                PeerAction::Fatal,
                now,
            ),
            final(self).pending() == old(self).pending() + score_events(
                *peer_id,
                reported_result(
                    goodbye_noted(old(self).db@, *peer_id, reason),
                    *peer_id,
                    PeerAction::Fatal,
                    now,
                ),
                Some(reason),
            ),
            final(self).same_timers(old(self)),
    {
        if reason == GoodbyeReason::IrrelevantNetwork {
            self.db.update_sync_status(peer_id, SyncStatus::IrrelevantPeer);
        }
        self.report_peer(peer_id, PeerAction::Fatal, source, Some(reason), "goodbye_peer", now);
    }

    /// A request to a peer, or a response to it, went wrong: the peer is
    /// reported for it, where the error is held against it.
    pub fn handle_rpc_error(
        &mut self,
        peer_id: &PeerId,
        protocol: Protocol,
        err: &RPCError,
        direction: ConnectionDirection,
        now: u64,
    )
        requires
            old(self).wf(),
        ensures
            final(self).wf(),
            final(self).same_timers(old(self)),
            match rpc_error_action(protocol, *err, direction) {
                Some(action) => {
                    &&& final(self).db@ == reported(old(self).db@, *peer_id, action, now)
                    &&& final(self).pending() == old(self).pending() + score_events(
                        *peer_id,
                        reported_result(old(self).db@, *peer_id, action, now),
                        None,
                    )
                },
                None => final(self).db@ == old(self).db@ && final(self).pending() == old(
                    self,
                ).pending(),
            },
    {
        match action_for_rpc_error(protocol, err, direction) {
            Some(peer_action) => {
                self.report_peer(
                    peer_id,
                    peer_action,
                    ReportSource::RPC,
                    None,
                    "handle_rpc_error",
                    now,
                );
            },
            None => {},
        }
    }

    /// Tells a peer goodbye for `reason` and disconnects it, without a ban.
    pub fn disconnect_peer(&mut self, peer_id: PeerId, reason: GoodbyeReason, now: u64)
        requires
            old(self).wf(),
        ensures
            final(self).wf(),
            final(self).db@ == disconnecting(old(self).db@, peer_id, false, now),
            final(self).pending() == old(self).pending().push(
                PeerManagerEventView::DisconnectPeer(peer_id, reason),
            ),
            final(self).same_timers(old(self)),
    {
        self.events.push(PeerManagerEvent::DisconnectPeer(peer_id, reason));
        self.db.notify_disconnecting(&peer_id, false, now);
    }

    /// This node is dialing a peer. A peer that may not connect is left as
    /// it is.
    pub fn inject_dialing(&mut self, peer_id: &PeerId, enr: Option<Enr>, now: u64)
        requires
            old(self).wf(),
        ensures
            final(self).wf(),
            final(self).pending() == old(self).pending(),
            final(self).same_timers(old(self)),
            final(self).db@ == if ban_status_of(old(self).db@, *peer_id) is NotBanned {
                dialed(old(self).db@, *peer_id, enr_view(enr), now)
            } else {
                old(self).db@
            },
    {
        let _ = self.inject_peer_connection(peer_id, ConnectingType::Dialing, enr, now);
    }

    /// A peer has connected to this node, which it reached at `multiaddr`.
    /// The result tells whether the peer was taken; one that may not
    /// connect is not, and nothing changes for it.
    pub fn inject_connect_ingoing(
        &mut self,
        peer_id: &PeerId,
        multiaddr: Multiaddr,
        enr: Option<Enr>,
        now: u64,
    ) -> (accepted: bool)
        requires
            old(self).wf(),
        ensures
            final(self).wf(),
            final(self).pending() == old(self).pending(),
            accepted == (ban_status_of(old(self).db@, *peer_id) is NotBanned),
            accepted ==> final(self).db@ == connected(
                old(self).db@,
                *peer_id,
                ConnectionDirection::Incoming,
                multiaddr@.ip,
                enr_view(enr),
                now,
            ) && timers_armed(old(self), final(self), *peer_id, ConnectionDirection::Incoming, now),
            !accepted ==> final(self).db@ == old(self).db@ && final(self).same_timers(old(self)),
    {
        self.inject_peer_connection(
            peer_id,
            ConnectingType::IngoingConnected { multiaddr },
            enr,
            now,
        )
    }

    /// This node has connected to a peer at `multiaddr`. The result tells
    /// whether the peer was taken; one that may not connect is not, and
    /// nothing changes for it.
    pub fn inject_connect_outgoing(
        &mut self,
        peer_id: &PeerId,
        multiaddr: Multiaddr,
        enr: Option<Enr>,
        now: u64,
    ) -> (accepted: bool)
        requires
            old(self).wf(),
        ensures
            final(self).wf(),
            final(self).pending() == old(self).pending(),
            accepted == (ban_status_of(old(self).db@, *peer_id) is NotBanned),
            accepted ==> final(self).db@ == connected(
                old(self).db@,
                *peer_id,
                ConnectionDirection::Outgoing,
                multiaddr@.ip,
                enr_view(enr),
                now,
            ) && timers_armed(old(self), final(self), *peer_id, ConnectionDirection::Outgoing, now),
            !accepted ==> final(self).db@ == old(self).db@ && final(self).same_timers(old(self)),
    {
        self.inject_peer_connection(
            peer_id,
            ConnectingType::OutgoingConnected { multiaddr },
            enr,
            now,
        )
    }

    /// Notes that a peer is being dialed or has become connected. A peer
    /// that may not connect is refused: the result is `false` and nothing
    /// changes.
    pub fn inject_peer_connection(
        &mut self,
        peer_id: &PeerId,
        connection: ConnectingType,
        enr: Option<Enr>,
        now: u64,
    ) -> (accepted: bool)
        requires
            old(self).wf(),
        ensures
            final(self).wf(),
            final(self).pending() == old(self).pending(),
            accepted == (ban_status_of(old(self).db@, *peer_id) is NotBanned),
            !accepted ==> final(self).db@ == old(self).db@ && final(self).same_timers(old(self)),
            accepted ==> match connection {
                ConnectingType::Dialing => final(self).db@ == dialed(
                    old(self).db@,
                    *peer_id,
                    enr_view(enr),
                    now,
                ) && final(self).same_timers(old(self)),
                ConnectingType::IngoingConnected { multiaddr } => final(self).db@ == connected(
                    old(self).db@,
                    *peer_id,
                    ConnectionDirection::Incoming,
                    multiaddr@.ip,
                    enr_view(enr),
                    now,
                ) && timers_armed(
                    old(self),
                    final(self),
                    *peer_id,
                    ConnectionDirection::Incoming,
                    now,
                ),
                ConnectingType::OutgoingConnected { multiaddr } => final(self).db@ == connected(
                    old(self).db@,
                    *peer_id,
                    ConnectionDirection::Outgoing,
                    multiaddr@.ip,
                    enr_view(enr),
                    now,
                ) && timers_armed(
                    old(self),
                    final(self),
                    *peer_id,
                    ConnectionDirection::Outgoing,
                    now,
                ),
            },
    {
        proof {
            self.db.lemma_wf();
        }
        if !matches!(self.db.ban_status(peer_id), BanResult::NotBanned) {
            // A peer that is banned does not connect.
            return false;
        }
        match connection {
            ConnectingType::Dialing => {
                self.db.dialing_peer(peer_id, enr, now);
                return true;
            },
            ConnectingType::IngoingConnected { multiaddr } => {
                self.db.connect_ingoing(peer_id, multiaddr, enr, now);
                self.inbound_ping_peers.insert(*peer_id, now);
            },
            ConnectingType::OutgoingConnected { multiaddr } => {
                self.db.connect_outgoing(peer_id, multiaddr, enr, now);
                self.outbound_ping_peers.insert(*peer_id, now);
            },
        }
        self.status_peers.insert(*peer_id, now);
        true
    }

    /// A status has come from a peer: its status timer starts anew.
    pub fn peer_statusd(&mut self, peer_id: &PeerId, now: u64)
        requires
            old(self).wf(),
        ensures
            final(self).wf(),
            final(self).db == old(self).db,
            final(self).pending() == old(self).pending(),
            final(self).same_settings(old(self)),
            final(self).inbound_ping_peers@ == old(self).inbound_ping_peers@,
            final(self).outbound_ping_peers@ == old(self).outbound_ping_peers@,
            final(self).status_peers@ == old(self).status_peers@.insert(
                *peer_id,
                deadline(now, old(self).status_peers.spec_period()),
            ),
    {
        self.status_peers.insert(*peer_id, now);
    }

    /// A ping has come from a peer: the ping timer for the direction of its
    /// connection starts anew. A peer that is not known, or whose direction
    /// is not, has no timer set.
    pub fn ping_request(&mut self, peer_id: &PeerId, seq: u64, now: u64)
        requires
            old(self).wf(),
        ensures
            final(self).wf(),
            final(self).db == old(self).db,
            final(self).pending() == old(self).pending(),
            final(self).same_settings(old(self)),
            final(self).status_peers@ == old(self).status_peers@,
            final(self).inbound_ping_peers@ == if old(self).db@.contains_key(*peer_id) && old(
                self,
            ).db@[*peer_id].connection_direction == Some(ConnectionDirection::Incoming) {
                old(self).inbound_ping_peers@.insert(
                    *peer_id,
                    deadline(now, old(self).inbound_ping_peers.spec_period()),
                )
            } else {
                old(self).inbound_ping_peers@
            },
            final(self).outbound_ping_peers@ == if old(self).db@.contains_key(*peer_id) && old(
                self,
            ).db@[*peer_id].connection_direction == Some(ConnectionDirection::Outgoing) {
                old(self).outbound_ping_peers@.insert(
                    *peer_id,
                    deadline(now, old(self).outbound_ping_peers.spec_period()),
                )
            } else {
                old(self).outbound_ping_peers@
            },
    {
        let direction = match self.db.peer_info(peer_id) {
            Some(peer_info) => peer_info.connection_direction(),
            None => None,
        };
        match direction {
            Some(ConnectionDirection::Incoming) => {
                self.inbound_ping_peers.insert(*peer_id, now);
            },
            Some(ConnectionDirection::Outgoing) => {
                self.outbound_ping_peers.insert(*peer_id, now);
            },
            None => {},
        }
    }

    /// A pong has come from a peer. Nothing changes; the result tells
    /// whether the peer is known.
    pub fn pong_response(&mut self, peer_id: &PeerId, seq: u64) -> (known: bool)
        requires
            old(self).wf(),
        ensures
            *final(self) == *old(self),
            known == old(self).db@.contains_key(*peer_id),
    {
        self.db.peer_info(peer_id).is_some()
    }
}

/// `a - b`, or zero where `b` is the larger.
pub open spec fn minus(a: int, b: int) -> int {
    if a > b {
        a - b
    } else {
        0
    }
}

/// How many peers a search is asked to find.
///
/// With fewer peers connected or dialed than the target, less those that
/// are about to be dialed, the search is for what is missing. Else, with
/// fewer outbound-only peers than wanted and room left for dialing, the
/// search is for what that room holds. No search is for more than
/// `MAX_DISCOVERY_QUERY` peers.
pub open spec fn wanted_peers(
    target_peers: usize,
    connected_or_dialing: nat,
    outbound_only: nat,
    dialing_now: usize,
) -> int {
    let short = minus(target_peers as int, dialing_now as int);
    let min_outbound = capacity::saturated(capacity::ceil_percent(target_peers as nat, 20));
    let max_dialing = capacity::saturated(capacity::ceil_percent(target_peers as nat, 120));
    let wanted = if connected_or_dialing < short {
        short - connected_or_dialing
    } else if outbound_only < min_outbound && connected_or_dialing < max_dialing {
        minus(minus(max_dialing as int, dialing_now as int), connected_or_dialing as int)
    } else {
        0
    };
    if wanted > MAX_DISCOVERY_QUERY {
        MAX_DISCOVERY_QUERY as int
    } else {
        wanted
    }
}

/// What is asked of the transport to keep the number of peers up.
pub open spec fn discovery_events(manager: &PeerManager, dialing_now: usize) -> Seq<
    PeerManagerEventView,
> {
    let wanted = wanted_peers(
        manager.target_peers,
        members(manager.db@, Group::ConnectedOrDialing).len(),
        members(manager.db@, Group::OutboundOnly).len(),
        dialing_now,
    );
    if manager.discovery_enabled && wanted > 0 {
        seq![PeerManagerEventView::DiscoverPeers(wanted as usize)]
    } else {
        Seq::empty()
    }
}

/// What the peers found by a search come to, the first `n` of them taken:
/// the database, in which the duties of the chosen peers are noted, and the
/// peers chosen for dialing, in the order of `results`.
///
/// A peer is chosen if it is worth dialing and there is room for it: room
/// for any peer below `max_peers`, and for a peer that a duty needs below
/// `max_priority_peers`, counting the peers that were connected or dialed
/// and those chosen before it.
pub open spec fn discovered(
    peers: PeerMap,
    results: Seq<(PeerId, Option<u64>)>,
    n: int,
    room: Room,
    now: u64,
) -> (PeerMap, Seq<PeerId>)
    decreases n,
{
    if n <= 0 {
        (peers, Seq::empty())
    } else {
        let (noted, chosen) = discovered(peers, results, n - 1, room, now);
        let (id, min_ttl) = results[n - 1];
        let fits = (min_ttl is Some && room.connected_or_dialing + chosen.len()
            < room.max_priority_peers) || room.connected_or_dialing + chosen.len() < room.max_peers;
        if fits && should_dial_of(peers, id) {
            (
                match min_ttl {
                    Some(until) => noted.insert(id, record(noted, id, now).with_min_ttl(until)),
                    None => noted,
                },
                chosen.push(id),
            )
        } else {
            (noted, chosen)
        }
    }
}

/// How much room there is for peers to dial.
pub struct Room {
    /// The peers that are connected or dialed.
    pub connected_or_dialing: nat,
    /// The most peers that may be connected or dialed.
    pub max_peers: nat,
    /// The most that may be, when a peer that a duty needs is dialed.
    pub max_priority_peers: nat,
}

/// The database and the peers to dial that the results of a search come to
/// for a manager, at second `now`.
pub open spec fn discovered_by(
    manager: &PeerManager,
    results: Seq<(PeerId, Option<u64>)>,
    now: u64,
) -> (PeerMap, Seq<PeerId>) {
    discovered(manager.db@, results, results.len() as int, manager.room(), now)
}

/// Noting the duty of a peer changes the status of no peer that is known,
/// and a peer that becomes known by it was never dialed or connected. Every
/// peer that is chosen is worth dialing.
pub proof fn lemma_discovered_keeps_status(
    peers: PeerMap,
    results: Seq<(PeerId, Option<u64>)>,
    n: int,
    room: Room,
    now: u64,
)
    requires
        n <= results.len(),
    ensures
        ({
            let (noted, chosen) = discovered(peers, results, n, room, now);
            &&& forall|id: PeerId| peers.contains_key(id) ==> #[trigger] noted.contains_key(id)
            &&& forall|id: PeerId| #[trigger]
                noted.contains_key(id) ==> noted[id].connection_status == record(
                    peers,
                    id,
                    now,
                ).connection_status && should_dial_of(noted, id) == should_dial_of(peers, id)
            &&& forall|id: PeerId| #[trigger]
                peers.contains_key(id) ==> (peers[id].wf() ==> noted[id].wf())
            &&& forall|k: int| 0 <= k < chosen.len() ==> should_dial_of(peers, #[trigger] chosen[k])
            &&& forall|group: Group|
                (group is Connected || group is Dialing || group is ConnectedOrDialing || group
                    is OutboundOnly) ==> #[trigger] members(noted, group) == members(peers, group)
        }),
    decreases n,
{
    if n > 0 {
        lemma_discovered_keeps_status(peers, results, n - 1, room, now);
        let (before, _) = discovered(peers, results, n - 1, room, now);
        let (noted, _) = discovered(peers, results, n, room, now);
        assert forall|group: Group|
            (group is Connected || group is Dialing || group is ConnectedOrDialing || group
                is OutboundOnly) implies #[trigger] members(noted, group) == members(
            peers,
            group,
        ) by {
            assert(members(before, group) == members(peers, group));
            assert(members(noted, group) =~= members(before, group));
        }
    } else {
        assert forall|group: Group| #[trigger] members(peers, group) == members(peers, group) by {}
    }
}

/// The event lifts the ban of a banned peer that the database has forgotten,
/// and names those of its addresses at which no banned peer is seen any
/// more.
pub open spec fn lifts_forgotten_ban(before: PeerMap, after: PeerMap, event: PeerManagerEventView) -> bool {
    event matches PeerManagerEventView::UnBanned(gone, ips) && before.contains_key(gone)
        && before[gone].is_banned() && !after.contains_key(gone) && ips == released_ips(
        after,
        before[gone].seen_ips,
    )
}

/// The event lifts the ban of the given peer.
pub open spec fn lifts_ban_of(event: PeerManagerEventView, id: PeerId) -> bool {
    event matches PeerManagerEventView::UnBanned(lifted, _) && lifted == id
}

impl PeerManager {
    /// The connection to a peer is gone, or the dial of it failed.
    ///
    /// A peer that awaited its ban is banned, which is asked of the
    /// transport too. The peer's timers are taken away. For every banned
    /// peer that the database forgot to make room, the transport is asked to
    /// lift the ban.
    pub fn inject_disconnect(&mut self, peer_id: &PeerId, now: u64)
        requires
            old(self).wf(),
        ensures
            final(self).wf(),
            final(self).same_settings(old(self)),
            final(self).inbound_ping_peers@ == old(self).inbound_ping_peers@.remove(*peer_id),
            final(self).outbound_ping_peers@ == old(self).outbound_ping_peers@.remove(*peer_id),
            final(self).status_peers@ == old(self).status_peers@.remove(*peer_id),
            old_records_forgotten(disconnected(old(self).db@, *peer_id, now), final(self).db@),
            ({
                let before = disconnected(old(self).db@, *peer_id, now);
                let after = final(self).db@;
                let waiting = final(self).pending();
                let first = old(self).pending() + match pending_ban(
                    record(old(self).db@, *peer_id, now),
                ) {
                    Some(operation) => ban_events(*peer_id, operation, None),
                    None => Seq::empty(),
                };
                &&& first.len() <= waiting.len()
                &&& waiting.subrange(0, first.len() as int) == first
                &&& forall|k: int|
                    first.len() <= k < waiting.len() ==> lifts_forgotten_ban(
                        before,
                        after,
                        #[trigger] waiting[k],
                    )
                &&& forall|gone: PeerId|
                    before.contains_key(gone) && before[gone].is_banned() && !after.contains_key(
                        gone,
                    ) ==> exists|k: int|
                        first.len() <= k < waiting.len() && lifts_ban_of(#[trigger] waiting[k], gone)
            }),
    {
        let outcome = self.db.inject_disconnect(peer_id, now);
        let (ban_operation, purged_peers) = outcome;
        let ghost before = disconnected(old(self).db@, *peer_id, now);
        let ghost purged = purged_peers@;
        if let Some(ban_operation) = ban_operation {
            // The peer awaited its ban: it is banned now.
            self.handle_ban_operation(peer_id, ban_operation, None);
        } else {
            assert(self.pending() =~= old(self).pending() + Seq::empty());
        }
        let ghost first = self.pending();
        let _ = self.inbound_ping_peers.remove(peer_id);
        let _ = self.outbound_ping_peers.remove(peer_id);
        let _ = self.status_peers.remove(peer_id);
        let mut purged_peers = purged_peers;
        let ghost mut done: int = 0;
        let ghost settled = *self;
        while purged_peers.len() > 0
            invariant
                self.db == settled.db,
                self.inbound_ping_peers == settled.inbound_ping_peers,
                self.outbound_ping_peers == settled.outbound_ping_peers,
                self.status_peers == settled.status_peers,
                self.same_settings(&settled),
                done + purged_peers@.len() == purged.len(),
                0 <= done,
                purged_peers@ =~= purged.subrange(done, purged.len() as int),
                self.pending().len() == first.len() + done,
                self.pending().subrange(0, first.len() as int) == first,
                forall|k: int|
                    0 <= k < done ==> (#[trigger] self.pending()[first.len() + k])
                        == PeerManagerEventView::UnBanned(purged[k].0, purged[k].1@),
            decreases purged_peers@.len(),
        {
            let ghost waiting = self.pending();
            let (gone, unbanned_ips) = purged_peers.remove(0);
            self.events.push(PeerManagerEvent::UnBanned(gone, unbanned_ips));
            proof {
                assert(self.pending().subrange(0, first.len() as int) =~= waiting.subrange(
                    0,
                    first.len() as int,
                ));
                assert forall|k: int| 0 <= k < done + 1 implies (#[trigger] self.pending()[first.len()
                    + k]) == PeerManagerEventView::UnBanned(purged[k].0, purged[k].1@) by {
                    if k < done {
                        assert(self.pending()[first.len() + k] == waiting[first.len() + k]);
                    }
                }
                done = done + 1;
            }
        }
        proof {
            let after = self.db@;
            let waiting = self.pending();
            assert forall|gone: PeerId|
                before.contains_key(gone) && before[gone].is_banned() && !after.contains_key(
                    gone,
                ) implies exists|k: int|
                first.len() <= k < waiting.len() && lifts_ban_of(#[trigger] waiting[k], gone) by {
                let j = choose|j: int| 0 <= j < purged.len() && (#[trigger] purged[j]).0 == gone;
                assert(waiting[first.len() + j] == PeerManagerEventView::UnBanned(
                    purged[j].0,
                    purged[j].1@,
                ));
                assert(lifts_ban_of(waiting[first.len() + j], gone));
            }
            assert forall|k: int| first.len() <= k < waiting.len() implies lifts_forgotten_ban(
                before,
                after,
                #[trigger] waiting[k],
            ) by {
                let j = k - first.len();
                assert(waiting[first.len() + j] == PeerManagerEventView::UnBanned(
                    purged[j].0,
                    purged[j].1@,
                ));
                assert(before.contains_key(purged[j].0));
            }
        }
    }

    /// Asks for a search for more peers where the node has too few.
    /// `dialing_peers` is the number of peers that are about to be dialed.
    pub fn maintain_peer_count(&mut self, dialing_peers: usize)
        requires
            old(self).wf(),
        ensures
            final(self).wf(),
            final(self).db == old(self).db,
            final(self).same_timers(old(self)),
            final(self).pending() == old(self).pending() + discovery_events(
                old(self),
                dialing_peers,
            ),
    {
        if self.discovery_enabled {
            let peer_count = self.db.connected_or_dialing_peers();
            let outbound_only_peer_count = self.db.connected_outbound_only_peers();
            let short = if self.target_peers > dialing_peers {
                self.target_peers - dialing_peers
            } else {
                0
            };
            let wanted_peers = if peer_count < short {
                // More peers are needed.
                let missing = short - peer_count;
                if missing > MAX_DISCOVERY_QUERY {
                    MAX_DISCOVERY_QUERY
                } else {
                    missing
                }
            } else if outbound_only_peer_count < self.min_outbound_only_peers() && peer_count
                < self.max_outbound_dialing_peers() {
                let max_dialing = self.max_outbound_dialing_peers();
                let room = if max_dialing > dialing_peers {
                    max_dialing - dialing_peers
                } else {
                    0
                };
                let missing = if room > peer_count {
                    room - peer_count
                } else {
                    0
                };
                if missing > MAX_DISCOVERY_QUERY {
                    MAX_DISCOVERY_QUERY
                } else {
                    missing
                }
            } else {
                0
            };
            if wanted_peers != 0 {
                self.events.push(PeerManagerEvent::DiscoverPeers(wanted_peers));
                assert(self.pending() =~= old(self).pending() + discovery_events(
                    old(self),
                    dialing_peers,
                ));
                return ;
            }
        }
        assert(self.pending() =~= old(self).pending() + Seq::empty());
    }

    /// Chooses, among the peers that a search has found, those to dial, and
    /// notes the duties that need them.
    fn choose_to_dial(&mut self, results: &Vec<(PeerId, Option<u64>)>, now: u64) -> (to_dial_peers:
        Vec<PeerId>)
        requires
            old(self).wf(),
        ensures
            final(self).wf(),
            final(self).same_timers(old(self)),
            final(self).pending() == old(self).pending(),
            final(self).db@ == discovered_by(old(self), results@, now).0,
            to_dial_peers@ == discovered_by(old(self), results@, now).1,
            members(final(self).db@, Group::ConnectedOrDialing) == members(
                old(self).db@,
                Group::ConnectedOrDialing,
            ),
            members(final(self).db@, Group::OutboundOnly) == members(
                old(self).db@,
                Group::OutboundOnly,
            ),
    {
        let mut to_dial_peers: Vec<PeerId> = Vec::new();
        let connected_or_dialing = self.db.connected_or_dialing_peers();
        let max_peers = self.max_peers();
        let max_priority_peers = self.max_priority_peers();
        let ghost room = self.room();
        let mut i: usize = 0;
        while i < results.len()
            invariant
                self.wf(),
                i <= results@.len(),
                self.same_timers(old(self)),
                self.pending() == old(self).pending(),
                room == (Room {
                    connected_or_dialing: connected_or_dialing as nat,
                    max_peers: max_peers as nat,
                    max_priority_peers: max_priority_peers as nat,
                }),
                (self.db@, to_dial_peers@) == discovered(
                    old(self).db@,
                    results@,
                    i as int,
                    room,
                    now,
                ),
            decreases results@.len() - i,
        {
            let (peer_id, min_ttl) = results[i];
            proof {
                lemma_discovered_keeps_status(old(self).db@, results@, i as int, room, now);
            }
            let chosen = to_dial_peers.len();
            // Room for any peer up to the most allowed, and beyond that for a
            // peer that a duty needs.
            let fits = (min_ttl.is_some() && chosen < max_priority_peers && connected_or_dialing
                < max_priority_peers - chosen) || (chosen < max_peers && connected_or_dialing
                < max_peers - chosen);
            if fits && self.db.should_dial(&peer_id) {
                if let Some(min_ttl) = min_ttl {
                    self.db.update_min_ttl(&peer_id, min_ttl, now);
                }
                to_dial_peers.push(peer_id);
            }
            i += 1;
        }
        proof {
            lemma_discovered_keeps_status(
                old(self).db@,
                results@,
                results@.len() as int,
                room,
                now,
            );
            assert(members(self.db@, Group::ConnectedOrDialing) == members(
                old(self).db@,
                Group::ConnectedOrDialing,
            ));
            assert(members(self.db@, Group::OutboundOnly) == members(
                old(self).db@,
                Group::OutboundOnly,
            ));
        }
        to_dial_peers
    }

    /// Takes the peers that a search has found and tells which of them to
    /// dial. After that a further search is asked for, where the node still
    /// has too few peers.
    pub fn peers_discovered(&mut self, results: Vec<(PeerId, Option<u64>)>, now: u64) -> (to_dial_peers:
        Vec<PeerId>)
        requires
            old(self).wf(),
        ensures
            final(self).wf(),
            final(self).same_timers(old(self)),
            final(self).db@ == discovered_by(old(self), results@, now).0,
            to_dial_peers@ == discovered_by(old(self), results@, now).1,
            final(self).pending() == old(self).pending() + discovery_events(
                old(self),
                to_dial_peers@.len() as usize,
            ),
    {
        let to_dial_peers = self.choose_to_dial(&results, now);
        // Another search, where it is needed.
        self.maintain_peer_count(to_dial_peers.len());
        to_dial_peers
    }
}

/// What is asked of the transport to give the chosen peers up.
pub open spec fn prune_events(chosen: Seq<PeerId>) -> Seq<PeerManagerEventView> {
    chosen.map_values(
        |id: PeerId| PeerManagerEventView::DisconnectPeer(id, GoodbyeReason::TooManyPeers),
    )
}

/// The node has no more peers than it wants, or none that it could give up:
/// every peer that is still connected is needed by a duty, or is one of the
/// outbound-only peers, of which no more are left than are to be kept.
pub open spec fn pruned_to_target(manager: &PeerManager, now: u64) -> bool {
    ||| members(manager.db@, Group::Connected).len() <= manager.target_peers
    ||| forall|id: PeerId|
        manager.db@.contains_key(id) && (#[trigger] manager.db@[id]).is_connected() ==> {
            ||| manager.db@[id].has_future_duty(now)
            ||| (manager.db@[id].is_outbound_only() && members(
                manager.db@,
                Group::OutboundOnly,
            ).len() <= capacity::saturated(capacity::ceil_percent(manager.target_peers as nat, 30)))
        }
}

/// What pruning at second `now` makes of a manager, where `order` lists the
/// connected peers, lowest score first: the chosen peers are told that they
/// are being disconnected, and the transport is asked to disconnect them.
pub open spec fn prune_outcome(
    before: &PeerManager,
    after: &PeerManager,
    now: u64,
    order: Seq<PeerId>,
) -> bool {
    let chosen = prune_selection(before.db@, order, before.prune_limits(now)).chosen;
    &&& worst_first(before.db@, order)
    &&& after.db@ == all_disconnecting(before.db@, chosen, chosen.len() as int, now)
    &&& after.pending() == before.pending() + prune_events(chosen)
}

fn holds_peer(chosen: &Vec<PeerId>, id: &PeerId) -> (yes: bool)
    ensures
        yes == chosen@.contains(*id),
{
    let mut i: usize = 0;
    while i < chosen.len()
        invariant
            i <= chosen@.len(),
            forall|k: int| 0 <= k < i ==> chosen@[k] != *id,
        decreases chosen@.len() - i,
    {
        if chosen[i] == *id {
            return true;
        }
        i += 1;
    }
    false
}

impl PeerManager {
    /// What bounds the choice of peers to give up at second `now`.
    pub open spec fn prune_limits(&self, now: u64) -> Limits {
        Limits {
            excess: minus(
                members(self.db@, Group::Connected).len() as int,
                self.target_peers as int,
            ) as nat,
            target_outbound: capacity::saturated(
                capacity::ceil_percent(self.target_peers as nat, 30),
            ) as nat,
            outbound: members(self.db@, Group::OutboundOnly).len(),
            now,
        }
    }

    /// Goes through the peers of `order` once and adds to the chosen those
    /// that are to be given up.
    fn prune_pass(
        &self,
        order: &Vec<PeerId>,
        chosen: &mut Vec<PeerId>,
        outbound_pruned: &mut usize,
        only_penalized: bool,
        excess: usize,
        target_outbound: usize,
        outbound: usize,
        now: u64,
    )
        requires
            self.wf(),
            forall|k: int|
                0 <= k < order@.len() ==> self.db@.contains_key(#[trigger] order@[k])
                    && self.db@[order@[k]].is_connected(),
            selection_sound(
                self.db@,
                Selection { chosen: old(chosen)@, outbound_pruned: *old(outbound_pruned) as nat },
                Limits {
                    excess: excess as nat,
                    target_outbound: target_outbound as nat,
                    outbound: outbound as nat,
                    now,
                },
            ),
        ensures
            (Selection { chosen: final(chosen)@, outbound_pruned: *final(outbound_pruned) as nat })
                == prune_pass(
                self.db@,
                order@,
                order@.len() as int,
                Selection { chosen: old(chosen)@, outbound_pruned: *old(outbound_pruned) as nat },
                only_penalized,
                Limits {
                    excess: excess as nat,
                    target_outbound: target_outbound as nat,
                    outbound: outbound as nat,
                    now,
                },
            ),
    {
        let ghost limits = Limits {
            excess: excess as nat,
            target_outbound: target_outbound as nat,
            outbound: outbound as nat,
            now,
        };
        let ghost start = Selection {
            chosen: old(chosen)@,
            outbound_pruned: *old(outbound_pruned) as nat,
        };
        proof {
            self.db.lemma_wf();
        }
        let mut i: usize = 0;
        while i < order.len()
            invariant
                self.wf(),
                i <= order@.len(),
                forall|k: int|
                    0 <= k < order@.len() ==> self.db@.contains_key(#[trigger] order@[k])
                        && self.db@[order@[k]].is_connected(),
                forall|id: PeerId| self.db@.contains_key(id) ==> (#[trigger] self.db@[id]).wf(),
                selection_sound(self.db@, start, limits),
                limits == (Limits {
                    excess: excess as nat,
                    target_outbound: target_outbound as nat,
                    outbound: outbound as nat,
                    now,
                }),
                (Selection { chosen: chosen@, outbound_pruned: *outbound_pruned as nat })
                    == prune_pass(self.db@, order@, i as int, start, only_penalized, limits),
            decreases order@.len() - i,
        {
            let peer_id = order[i];
            proof {
                lemma_pass_sound(self.db@, order@, i as int, start, only_penalized, limits);
            }
            if chosen.len() < excess {
                if let Some(info) = self.db.peer_info(&peer_id) {
                    let passed_over = info.has_future_duty(now) || (only_penalized
                        && info.score().score() >= 0) || holds_peer(chosen, &peer_id);
                    if !passed_over {
                        // Outbound-only peers are given up only down to the
                        // number that is to be kept.
                        if info.is_outbound_only() {
                            if outbound > target_outbound && *outbound_pruned < outbound
                                - target_outbound {
                                *outbound_pruned = *outbound_pruned + 1;
                                chosen.push(peer_id);
                            }
                        } else {
                            chosen.push(peer_id);
                        }
                    }
                }
            }
            i += 1;
        }
    }

    /// Chooses the peers to give up, among the connected peers as `order`
    /// lists them.
    pub fn select_peers_to_prune(&self, order: &Vec<PeerId>, now: u64) -> (chosen: Vec<PeerId>)
        requires
            self.wf(),
            forall|k: int|
                0 <= k < order@.len() ==> self.db@.contains_key(#[trigger] order@[k])
                    && self.db@[order@[k]].is_connected(),
        ensures
            chosen@ == prune_selection(self.db@, order@, self.prune_limits(now)).chosen,
    {
        let mut chosen: Vec<PeerId> = Vec::new();
        let mut outbound_pruned: usize = 0;
        let connected_peer_count = self.db.connected_peers();
        let excess = if connected_peer_count > self.target_peers {
            connected_peer_count - self.target_peers
        } else {
            0
        };
        let connected_outbound_peer_count = self.db.connected_outbound_only_peers();
        let target_outbound = self.target_outbound_peers();
        let ghost limits = self.prune_limits(now);
        let ghost empty = Selection { chosen: Seq::empty(), outbound_pruned: 0 };
        // First the peers with the worst scores, leaving out those that have
        // not been penalized.
        self.prune_pass(
            order,
            &mut chosen,
            &mut outbound_pruned,
            true,
            excess,
            target_outbound,
            connected_outbound_peer_count,
            now,
        );
        proof {
            lemma_pass_sound(self.db@, order@, order@.len() as int, empty, true, limits);
        }
        // Then, if more are to go, any peer.
        self.prune_pass(
            order,
            &mut chosen,
            &mut outbound_pruned,
            false,
            excess,
            target_outbound,
            connected_outbound_peer_count,
            now,
        );
        chosen
    }

    /// Gives up peers until no more are connected than the node wants, the
    /// worst first. Peers that a duty needs stay, and so do as many
    /// outbound-only peers as the node wants to keep.
    pub fn prune_excess_peers(&mut self, now: u64)
        requires
            old(self).wf(),
        ensures
            final(self).wf(),
            final(self).same_timers(old(self)),
            exists|order: Seq<PeerId>| prune_outcome(old(self), final(self), now, order),
            pruned_to_target(final(self), now),
    {
        let order = self.db.worst_connected_peers();
        assert forall|k: int| 0 <= k < order@.len() implies self.db@.contains_key(
            #[trigger] order@[k],
        ) && self.db@[order@[k]].is_connected() by {
            assert(order@.contains(order@[k]));
        }
        let peers_to_prune = self.select_peers_to_prune(&order, now);
        let ghost limits = self.prune_limits(now);
        let ghost empty = Selection { chosen: Seq::empty(), outbound_pruned: 0 };
        let ghost penalized = prune_pass(
            self.db@,
            order@,
            order@.len() as int,
            empty,
            true,
            limits,
        );
        let ghost selection = prune_selection(self.db@, order@, limits);
        proof {
            self.db.lemma_wf();
            lemma_pass_sound(self.db@, order@, order@.len() as int, empty, true, limits);
            lemma_pass_sound(self.db@, order@, order@.len() as int, penalized, false, limits);
            lemma_pass_complete(self.db@, order@, order@.len() as int, penalized, limits);
            assert(worst_first(old(self).db@, order@));
        }
        let mut i: usize = 0;
        assert(old(self).pending() + prune_events(peers_to_prune@.take(0)) =~= old(self).pending());
        while i < peers_to_prune.len()
            invariant
                self.wf(),
                i <= peers_to_prune@.len(),
                self.same_timers(old(self)),
                self.db@ == all_disconnecting(old(self).db@, peers_to_prune@, i as int, now),
                self.pending() == old(self).pending() + prune_events(peers_to_prune@.take(i as int)),
            decreases peers_to_prune@.len() - i,
        {
            self.disconnect_peer(peers_to_prune[i], GoodbyeReason::TooManyPeers, now);
            proof {
                assert(peers_to_prune@.take(i + 1) =~= peers_to_prune@.take(i as int).push(
                    peers_to_prune@[i as int],
                ));
                assert(prune_events(peers_to_prune@.take(i + 1)) =~= prune_events(
                    peers_to_prune@.take(i as int),
                ).push(
                    PeerManagerEventView::DisconnectPeer(
                        peers_to_prune@[i as int],
                        GoodbyeReason::TooManyPeers,
                    ),
                ));
                assert(self.pending() =~= old(self).pending() + prune_events(
                    peers_to_prune@.take(i + 1),
                ));
            }
            i += 1;
        }
        proof {
            let chosen = peers_to_prune@;
            assert(chosen.take(chosen.len() as int) =~= chosen);
            assert(prune_outcome(old(self), self, now, order@));
            lemma_all_disconnecting(old(self).db@, chosen, chosen.len() as int, now);
            if selection.chosen.len() != limits.excess {
                assert forall|id: PeerId|
                    self.db@.contains_key(id) && (#[trigger] self.db@[id]).is_connected() implies {
                    ||| self.db@[id].has_future_duty(now)
                    ||| (self.db@[id].is_outbound_only() && members(
                        self.db@,
                        Group::OutboundOnly,
                    ).len() <= capacity::saturated(
                        capacity::ceil_percent(self.target_peers as nat, 30),
                    ))
                } by {
                    assert(old(self).db@.contains_key(id));
                    assert(!chosen.contains(id));
                    assert(order@.contains(id));
                    let k = choose|k: int| 0 <= k < order@.len() && order@[k] == id;
                    assert(spared(old(self).db@, selection, order@[k], limits));
                }
            }
        }
    }
}

/// What is asked of the transport after the first `n` of a list of changes
/// of score, none of which comes with a reason of its own.
pub open spec fn batch_events(results: Seq<(PeerId, ScoreUpdateResultView)>, n: int) -> Seq<
    PeerManagerEventView,
>
    decreases n,
{
    if n <= 0 {
        Seq::empty()
    } else {
        batch_events(results, n - 1) + score_events(results[n - 1].0, results[n - 1].1, None)
    }
}

/// What a heartbeat at second `now` makes of a manager, where `results`
/// tells what the decay of the scores led to and `order` lists the peers
/// that were connected after that, lowest score first.
pub open spec fn heartbeat_outcome(
    before: &PeerManager,
    after: &PeerManager,
    now: u64,
    order: Seq<PeerId>,
    results: Seq<(PeerId, ScoreUpdateResultView)>,
) -> bool {
    let cleaned = cleaned_up(before.db@, now);
    let aged = aged_all(cleaned, now);
    let limits = Limits {
        excess: minus(
            members(aged, Group::Connected).len() as int,
            before.target_peers as int,
        ) as nat,
        target_outbound: capacity::saturated(
            capacity::ceil_percent(before.target_peers as nat, 30),
        ) as nat,
        outbound: members(aged, Group::OutboundOnly).len(),
        now,
    };
    let chosen = prune_selection(aged, order, limits).chosen;
    &&& worst_first(aged, order)
    &&& aged_results(cleaned, now, results)
    &&& after.db@ == all_disconnecting(aged, chosen, chosen.len() as int, now)
    &&& after.pending() == before.pending() + discovery_events(before, 0) + batch_events(
        results,
        results.len() as int,
    ) + prune_events(chosen)
}

impl PeerManager {
    /// Queues what a list of changes of score asks of the transport.
    fn handle_score_actions(&mut self, actions: Vec<(PeerId, ScoreUpdateResult)>)
        ensures
            final(self).pending() == old(self).pending() + batch_events(
                results_view(actions@),
                actions@.len() as int,
            ),
            final(self).db == old(self).db,
            final(self).inbound_ping_peers == old(self).inbound_ping_peers,
            final(self).outbound_ping_peers == old(self).outbound_ping_peers,
            final(self).status_peers == old(self).status_peers,
            final(self).same_settings(old(self)),
    {
        let ghost all = results_view(actions@);
        let ghost given = actions@;
        let ghost mut done: int = 0;
        let mut actions = actions;
        assert(self.pending() =~= old(self).pending() + batch_events(all, 0));
        while actions.len() > 0
            invariant
                0 <= done,
                done + actions@.len() == given.len(),
                actions@ =~= given.subrange(done, given.len() as int),
                all == results_view(given),
                self.pending() == old(self).pending() + batch_events(all, done),
                self.db == old(self).db,
                self.inbound_ping_peers == old(self).inbound_ping_peers,
                self.outbound_ping_peers == old(self).outbound_ping_peers,
                self.status_peers == old(self).status_peers,
                self.same_settings(old(self)),
            decreases actions@.len(),
        {
            let (peer_id, action) = actions.remove(0);
            proof {
                assert(all[done] == (given[done].0, given[done].1@));
            }
            self.handle_score_action(&peer_id, action, None);
            proof {
                assert(self.pending() =~= old(self).pending() + batch_events(all, done + 1));
                done = done + 1;
            }
        }
    }

    /// The regular upkeep, at second `now`.
    ///
    /// A search for more peers is asked for if there are too few. Dials
    /// that have run out are given up. The decay is applied to every score,
    /// and what the scores then ask is done. In the end peers are given up
    /// where more are connected than wanted.
    pub fn heartbeat(&mut self, now: u64)
        requires
            old(self).wf(),
        ensures
            final(self).wf(),
            final(self).same_timers(old(self)),
            pruned_to_target(final(self), now),
            exists|order: Seq<PeerId>, results: Seq<(PeerId, ScoreUpdateResultView)>|
                heartbeat_outcome(old(self), final(self), now, order, results),
    {
        // A search for more peers, where they are needed.
        self.maintain_peer_count(0);
        // A dial may fail without a word of it reaching the manager; a peer
        // that has been dialed for too long counts no longer.
        self.db.cleanup_dialing_peers(now);
        // The scores decay, and bans are lifted where they do.
        let actions = self.db.update_scores(now);
        let ghost results = results_view(actions@);
        self.handle_score_actions(actions);
        let ghost scored = *self;
        // Peers in excess of the target are given up.
        self.prune_excess_peers(now);
        proof {
            let order = choose|order: Seq<PeerId>| prune_outcome(&scored, self, now, order);
            let cleaned = cleaned_up(old(self).db@, now);
            let aged = aged_all(cleaned, now);
            assert(scored.db@ == aged);
            let chosen = prune_selection(aged, order, scored.prune_limits(now)).chosen;
            assert(self.pending() =~= old(self).pending() + discovery_events(old(self), 0)
                + batch_events(results, results.len() as int) + prune_events(chosen));
            assert(heartbeat_outcome(old(self), self, now, order, results));
        }
    }
}

/// The timer of `id` has run out at `now`, no later than any other of the
/// set and before those set later that ran out in the same second, and was
/// set anew.
pub open spec fn timer_fired(before: &TimerSet, after: &TimerSet, id: PeerId, now: u64) -> bool {
    &&& before@.contains_key(id)
    &&& before@[id] <= now
    &&& forall|other: PeerId| before@.contains_key(other) ==> before@[id] <= #[trigger] before@[other]
    &&& forall|other: PeerId|
        other != id && before@.contains_key(other) && before@[other] == before@[id]
            ==> #[trigger] before.waits_longer(id, other)
    &&& after@ == before@.insert(id, deadline(now, before.spec_period()))
    &&& forall|other: PeerId|
        other != id && before@.contains_key(other) ==> #[trigger] after.waits_longer(other, id)
    &&& forall|a: PeerId, b: PeerId|
        a != id && b != id ==> #[trigger] after.waits_longer(a, b) == before.waits_longer(a, b)
}

/// No timer of the set has run out at `now`.
pub open spec fn none_expired(timers: Map<PeerId, u64>, now: u64) -> bool {
    forall|id: PeerId| timers.contains_key(id) ==> (#[trigger] timers[id]) > now
}

/// The first timer that has run out at `now` was that of `id`: the
/// transport is asked to ping the peer, or to ask its status, and the timer
/// was set anew. The ping timers of the peers that dialed this node come
/// first, then those of the peers that this node dialed, then the status
/// timers.
pub open spec fn timer_served(before: &PeerManager, after: &PeerManager, id: PeerId, now: u64) -> bool {
    if !none_expired(before.inbound_ping_peers@, now) {
        &&& timer_fired(&before.inbound_ping_peers, &after.inbound_ping_peers, id, now)
        &&& after.outbound_ping_peers@ == before.outbound_ping_peers@
        &&& after.status_peers@ == before.status_peers@
        &&& after.pending() == before.pending().push(PeerManagerEventView::Ping(id))
    } else if !none_expired(before.outbound_ping_peers@, now) {
        &&& timer_fired(&before.outbound_ping_peers, &after.outbound_ping_peers, id, now)
        &&& after.inbound_ping_peers@ == before.inbound_ping_peers@
        &&& after.status_peers@ == before.status_peers@
        &&& after.pending() == before.pending().push(PeerManagerEventView::Ping(id))
    } else {
        &&& timer_fired(&before.status_peers, &after.status_peers, id, now)
        &&& after.inbound_ping_peers@ == before.inbound_ping_peers@
        &&& after.outbound_ping_peers@ == before.outbound_ping_peers@
        &&& after.pending() == before.pending().push(PeerManagerEventView::Status(id))
    }
}

impl PeerManager {
    /// Takes what a peer tells of itself. The result says whether the peer
    /// is known and whether what it tells is new.
    pub fn identify(&mut self, peer_id: &PeerId, info: IdentifyInfo) -> (outcome: Identified)
        requires
            old(self).wf(),
        ensures
            final(self).wf(),
            final(self).same_timers(old(self)),
            final(self).pending() == old(self).pending(),
            !old(self).db@.contains_key(*peer_id) ==> {
                &&& outcome == Identified::UnknownPeer
                &&& final(self).db@ == old(self).db@
            },
            old(self).db@.contains_key(*peer_id) ==> {
                let was = old(self).db@[*peer_id];
                let addresses = info.listen_addrs@.map_values(|m: Multiaddr| m@);
                let kind = kind_of_agent(info.agent_version@);
                &&& final(self).db@ == old(self).db@.insert(
                    *peer_id,
                    PeerInfoView {
                        listening_addresses: addresses,
                        client: crate::client::ClientView {
                            kind,
                            agent_version: info.agent_version@,
                        },
                        ..was
                    },
                )
                &&& outcome == if was.client.kind != kind || was.listening_addresses != addresses {
                    Identified::Changed {
                        previous: was.client.kind,
                        kind,
                        counted: was.is_connected() || was.is_disconnecting(),
                    }
                } else {
                    Identified::Unchanged
                }
            },
    {
        let IdentifyInfo { agent_version, listen_addrs, .. } = info;
        let client = Client::from_agent_version(agent_version);
        let kind = client.kind;
        let counted = match self.db.connection_status(peer_id) {
            Some(PeerConnectionStatus::Connected { .. }) => true,
            Some(PeerConnectionStatus::Disconnecting { .. }) => true,
            _ => false,
        };
        match self.db.identify(peer_id, listen_addrs, client) {
            None => Identified::UnknownPeer,
            Some((previous, changed)) => {
                if changed {
                    Identified::Changed { previous, kind, counted }
                } else {
                    Identified::Unchanged
                }
            },
        }
    }

    /// Looks for a timer that has run out at second `now`, among the ping
    /// timers of the peers that dialed this node first, then among those of
    /// the peers that this node dialed, then among the status timers. For
    /// the first found, the transport is asked to ping the peer or to ask
    /// its status, and the timer is set anew. The result tells whether one
    /// was found.
    pub fn poll_timers(&mut self, now: u64) -> (fired: bool)
        requires
            old(self).wf(),
        ensures
            final(self).wf(),
            final(self).same_settings(old(self)),
            final(self).db == old(self).db,
            fired == !(none_expired(old(self).inbound_ping_peers@, now) && none_expired(
                old(self).outbound_ping_peers@,
                now,
            ) && none_expired(old(self).status_peers@, now)),
            !fired ==> final(self).same_timers(old(self)) && final(self).pending() == old(
                self,
            ).pending(),
            fired ==> exists|id: PeerId| timer_served(old(self), final(self), id, now),
    {
        if let Some(peer_id) = self.inbound_ping_peers.poll_expired(now) {
            self.inbound_ping_peers.insert(peer_id, now);
            self.events.push(PeerManagerEvent::Ping(peer_id));
            proof {
                assert(self.inbound_ping_peers@ =~= old(self).inbound_ping_peers@.insert(
                    peer_id,
                    deadline(now, old(self).inbound_ping_peers.spec_period()),
                ));
                assert(old(self).inbound_ping_peers@[peer_id] <= now);
                assert(timer_served(old(self), self, peer_id, now));
            }
            return true;
        }
        if let Some(peer_id) = self.outbound_ping_peers.poll_expired(now) {
            self.outbound_ping_peers.insert(peer_id, now);
            self.events.push(PeerManagerEvent::Ping(peer_id));
            proof {
                assert(self.outbound_ping_peers@ =~= old(self).outbound_ping_peers@.insert(
                    peer_id,
                    deadline(now, old(self).outbound_ping_peers.spec_period()),
                ));
                assert(old(self).outbound_ping_peers@[peer_id] <= now);
                assert(timer_served(old(self), self, peer_id, now));
            }
            return true;
        }
        if let Some(peer_id) = self.status_peers.poll_expired(now) {
            self.status_peers.insert(peer_id, now);
            self.events.push(PeerManagerEvent::Status(peer_id));
            proof {
                assert(self.status_peers@ =~= old(self).status_peers@.insert(
                    peer_id,
                    deadline(now, old(self).status_peers.spec_period()),
                ));
                assert(old(self).status_peers@[peer_id] <= now);
                assert(timer_served(old(self), self, peer_id, now));
            }
            return true;
        }
        false
    }

    /// Hands over the oldest request that waits for the transport, if one
    /// does.
    pub fn poll_event(&mut self) -> (event: Option<PeerManagerEvent>)
        ensures
            final(self).db == old(self).db,
            final(self).inbound_ping_peers == old(self).inbound_ping_peers,
            final(self).outbound_ping_peers == old(self).outbound_ping_peers,
            final(self).status_peers == old(self).status_peers,
            final(self).same_settings(old(self)),
            match event {
                Some(event) => old(self).pending().len() > 0 && event@ == old(self).pending()[0]
                    && final(self).pending() == old(self).pending().subrange(
                    1,
                    old(self).pending().len() as int,
                ),
                None => old(self).pending().len() == 0 && final(self).pending() == old(
                    self,
                ).pending(),
            },
    {
        if self.events.len() > 0 {
            Some(self.events.pop_front())
        } else {
            None
        }
    }

    /// The number of requests that wait for the transport.
    pub fn pending_events(&self) -> (n: usize)
        ensures
            n == self.pending().len(),
    {
        self.events.len()
    }
}

/// Those of the peers that are kept: `kept` says of each whether it is.
pub open spec fn kept_peers(peers: Seq<PeerId>, kept: Seq<bool>, n: int) -> Seq<PeerId>
    decreases n,
{
    if n <= 0 {
        Seq::empty()
    } else if kept[n - 1] {
        kept_peers(peers, kept, n - 1).push(peers[n - 1])
    } else {
        kept_peers(peers, kept, n - 1)
    }
}

impl PeerManager {
    /// Takes the scores that the gossip layer reports for the peers, and
    /// queues what comes of them.
    pub fn update_gossipsub_scores(&mut self, scores: &Vec<(PeerId, i64)>, now: u64)
        requires
            old(self).wf(),
        ensures
            final(self).wf(),
            final(self).same_timers(old(self)),
            final(self).db@ == gossip_applied(
                old(self).db@,
                scores@,
                scores@.len() as int,
                capacity::saturated(capacity::ceil_percent(old(self).target_peers as nat, 10)) as nat,
                now,
            ),
            final(self).pending() == old(self).pending() + batch_events(
                gossip_results(
                    old(self).db@,
                    scores@,
                    scores@.len() as int,
                    capacity::saturated(
                        capacity::ceil_percent(old(self).target_peers as nat, 10),
                    ) as nat,
                    final(self).db@,
                ),
                gossip_results(
                    old(self).db@,
                    scores@,
                    scores@.len() as int,
                    capacity::saturated(
                        capacity::ceil_percent(old(self).target_peers as nat, 10),
                    ) as nat,
                    final(self).db@,
                ).len() as int,
            ),
    {
        let actions = self.db.update_gossipsub_scores(self.target_peers, scores, now);
        self.handle_score_actions(actions);
    }

    /// Takes the peers that a search has found and tells which of them to
    /// dial: those that are chosen and that `dial_peer_filter` accepts.
    /// After that a further search is asked for, where the node still has
    /// too few peers.
    pub fn peers_discovered_filtered<F: Fn(&PeerId) -> bool>(
        &mut self,
        results: Vec<(PeerId, Option<u64>)>,
        dial_peer_filter: F,
        now: u64,
    ) -> (to_dial_peers: Vec<PeerId>)
        requires
            old(self).wf(),
            forall|id: &PeerId| dial_peer_filter.requires((id,)),
        ensures
            final(self).wf(),
            final(self).same_timers(old(self)),
            final(self).db@ == discovered_by(old(self), results@, now).0,
            exists|kept: Seq<bool>|
                #![trigger kept.len()]
                {
                    let chosen = discovered_by(old(self), results@, now).1;
                    &&& kept.len() == chosen.len()
                    &&& forall|k: int|
                        0 <= k < chosen.len() ==> dial_peer_filter.ensures(
                            (&chosen[k],),
                            #[trigger] kept[k],
                        )
                    &&& to_dial_peers@ == kept_peers(chosen, kept, chosen.len() as int)
                },
            final(self).pending() == old(self).pending() + discovery_events(
                old(self),
                to_dial_peers@.len() as usize,
            ),
    {
        let chosen = self.choose_to_dial(&results, now);
        let mut to_dial_peers: Vec<PeerId> = Vec::new();
        let ghost mut kept: Seq<bool> = Seq::empty();
        let mut i: usize = 0;
        while i < chosen.len()
            invariant
                i <= chosen@.len(),
                forall|id: &PeerId| dial_peer_filter.requires((id,)),
                kept.len() == i,
                forall|k: int|
                    0 <= k < i ==> dial_peer_filter.ensures((&chosen@[k],), #[trigger] kept[k]),
                to_dial_peers@ == kept_peers(chosen@, kept, i as int),
            decreases chosen@.len() - i,
        {
            let accepted = dial_peer_filter(&chosen[i]);
            let ghost before = kept;
            proof {
                kept = kept.push(accepted);
                lemma_kept_peers_prefix(chosen@, before, kept, i as int);
            }
            if accepted {
                to_dial_peers.push(chosen[i]);
            }
            i += 1;
        }
        // Another search, where it is needed.
        self.maintain_peer_count(to_dial_peers.len());
        to_dial_peers
    }
}

/// What is kept of the first `n` peers depends on what is said of them only.
proof fn lemma_kept_peers_prefix(peers: Seq<PeerId>, a: Seq<bool>, b: Seq<bool>, n: int)
    requires
        0 <= n <= a.len(),
        n <= b.len(),
        forall|k: int| 0 <= k < n ==> a[k] == b[k],
    ensures
        kept_peers(peers, a, n) == kept_peers(peers, b, n),
    decreases n,
{
    if n > 0 {
        lemma_kept_peers_prefix(peers, a, b, n - 1);
    }
}

/// `order` lists the connected peers, each once, best score first.
pub open spec fn best_first(peers: PeerMap, order: Seq<PeerId>) -> bool {
    &&& order.no_duplicates()
    &&& descending(peers, order)
    &&& forall|id: PeerId| order.contains(id) <==> peers.contains_key(id) && peers[id].is_connected()
}

impl PeerManager {
    /// The number of connected peers, by direction and by implementation;
    /// `None` where no figures are reported.
    pub fn update_connected_peer_metrics(&self) -> (figures: Option<ConnectedPeerMetrics>)
        requires
            self.wf(),
        ensures
            figures is Some == self.metrics_enabled,
            figures matches Some(figures) ==> {
                &&& figures.connected == members(self.db@, Group::Connected).len()
                &&& figures.inbound == members(self.db@, Group::ConnectedInbound).len()
                &&& figures.outbound == figures.connected - figures.inbound
                &&& figures.per_client@.len() == 6
                &&& forall|k: int|
                    0 <= k < 6 ==> (#[trigger] figures.per_client@[k]) == members(
                        self.db@,
                        Group::ConnectedClient(ClientKind::all_kinds()[k]),
                    ).len()
            },
    {
        if !self.metrics_enabled {
            return None;
        }
        Some(connected_peers(&self.db))
    }

    /// The scores of the connected peers: those at the reported places of
    /// the list of them, best first, and their mean for each implementation;
    /// `None` where no figures are reported.
    pub fn update_peer_score_metrics(&self) -> (figures: Option<PeerScoreMetrics>)
        requires
            self.wf(),
        ensures
            figures is Some == self.metrics_enabled,
            figures matches Some(figures) ==> exists|order: Seq<PeerId>|
                {
                    &&& #[trigger] best_first(self.db@, order)
                    &&& figures.distribution@ == distribution(
                        self.db@,
                        order,
                        order.len() as int,
                    )
                    &&& figures.per_client@ == client_means(
                        self.db@,
                        order,
                        ClientKind::all_kinds(),
                        6,
                    )
                },
    {
        if !self.metrics_enabled {
            return None;
        }
        let connected = |info: &PeerInfo| -> (yes: bool)
            ensures
                yes == info@.is_connected(),
            { info.is_connected() };
        let order = self.db.best_peers_by_status(connected);
        proof {
            assert forall|id: PeerId|
                order@.contains(id) <==> self.db@.contains_key(id)
                    && self.db@[id].is_connected() by {
                if order@.contains(id) {
                    let k = choose|k: int| 0 <= k < order@.len() && order@[k] == id;
                    assert(self.db@.contains_key(order@[k]));
                }
            }
            assert(best_first(self.db@, order@));
        }
        let distribution = score_distribution(&self.db, &order);
        let per_client = client_scores(&self.db, &order);
        Some(PeerScoreMetrics { distribution, per_client })
    }
}

} // verus!
