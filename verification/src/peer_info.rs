//! What the node knows of one peer.

use crate::client::{Client, ClientView};
use crate::score::{Score, ScoreState};
use crate::types::{ConnectionDirection, Enr, IpAddress, Multiaddr, MultiaddrView, SyncStatus};
use vstd::prelude::*;

verus! {

/// Where a peer stands in the life of its connection.
#[derive(Clone, Copy, Debug, PartialEq, Eq, Structural)]
pub enum PeerConnectionStatus {
    /// The peer is connected, over `n_in` connections that it opened and
    /// `n_out` that this node opened.
    Connected { n_in: u8, n_out: u8 },
    /// The peer is being disconnected; `to_ban` says whether it is banned
    /// once the disconnection is through.
    Disconnecting { to_ban: bool },
    /// The peer has been disconnected since the given second.
    Disconnected { since: u64 },
    /// The peer has been banned since the given second.
    Banned { since: u64 },
    /// The node has been dialing the peer since the given second.
    Dialing { since: u64 },
    /// The peer was heard of and never dialed or connected.
    Unknown,
}

/// What a change of score asks of the peer's record.
#[derive(Clone, Copy, Debug, PartialEq, Eq, Structural)]
pub enum ScoreTransition {
    /// Nothing.
    NoAction,
    /// The peer is connected and its score now asks for a disconnection.
    Disconnected,
    /// The score fell to the ban threshold.
    Banned,
    /// The score rose above the ban threshold.
    Unbanned,
}

/// The record of one peer.
#[derive(Debug)]
pub struct PeerInfo {
    score: Score,
    client: Client,
    connection_status: PeerConnectionStatus,
    connection_direction: Option<ConnectionDirection>,
    listening_addresses: Vec<Multiaddr>,
    seen_ips: Vec<IpAddress>,
    sync_status: SyncStatus,
    min_ttl: Option<u64>,
    enr: Option<Enr>,
}

/// What a [`PeerInfo`] holds.
pub struct PeerInfoView {
    /// The peer's score.
    pub score: Score,
    /// The implementation the peer runs.
    pub client: ClientView,
    /// Where the peer stands in the life of its connection.
    pub connection_status: PeerConnectionStatus,
    /// Who opened the connection by which the peer last became connected.
    pub connection_direction: Option<ConnectionDirection>,
    /// The addresses the peer last said it listens on, in its order.
    pub listening_addresses: Seq<MultiaddrView>,
    /// The IP addresses the peer was seen at, each once, oldest first.
    pub seen_ips: Seq<IpAddress>,
    /// How far the peer's chain is.
    pub sync_status: SyncStatus,
    /// The second up to which a duty of this node needs the peer.
    pub min_ttl: Option<u64>,
    /// The last node record given for the peer.
    pub enr: Option<Seq<u8>>,
}

/// `count + 1`, held at 255.
pub open spec fn one_more(count: u8) -> u8 {
    if count == u8::MAX {
        u8::MAX
    } else {
        (count + 1) as u8
    }
}

impl PeerInfoView {
    /// The record is sound: the score is within its bounds, no IP address is
    /// held twice, a connected peer has a connection, and a peer that is
    /// banned or will be has a score that asks for it.
    pub open spec fn wf(self) -> bool {
        &&& self.score.wf()
        &&& self.seen_ips.no_duplicates()
        &&& (self.connection_status matches PeerConnectionStatus::Connected { n_in, n_out } ==> n_in
            + n_out >= 1)
        &&& (self.awaits_ban() || self.is_banned() ==> self.score.spec_state() == ScoreState::Banned)
    }

    /// The record of a peer first heard of at second `now`.
    pub open spec fn fresh(now: u64) -> PeerInfoView {
        PeerInfoView {
            score: Score {
                lighthouse_score: 0,
                gossipsub_score: 0,
                ignore_negative_gossipsub_score: false,
                last_updated: now,
            },
            client: ClientView { kind: crate::client::ClientKind::Unknown, agent_version: Seq::empty() },
            connection_status: PeerConnectionStatus::Unknown,
            connection_direction: None,
            listening_addresses: Seq::empty(),
            seen_ips: Seq::empty(),
            sync_status: SyncStatus::Unknown,
            min_ttl: None,
            enr: None,
        }
    }

    pub open spec fn is_connected(self) -> bool {
        self.connection_status is Connected
    }

    pub open spec fn is_dialing(self) -> bool {
        self.connection_status is Dialing
    }

    pub open spec fn is_connected_or_dialing(self) -> bool {
        self.is_connected() || self.is_dialing()
    }

    pub open spec fn is_disconnecting(self) -> bool {
        self.connection_status is Disconnecting
    }

    pub open spec fn is_disconnected(self) -> bool {
        self.connection_status is Disconnected
    }

    pub open spec fn is_banned(self) -> bool {
        self.connection_status is Banned
    }

    /// The peer is being disconnected and will be banned.
    pub open spec fn awaits_ban(self) -> bool {
        self.connection_status == (PeerConnectionStatus::Disconnecting { to_ban: true })
    }

    /// The peer is connected and every connection to it was opened by this
    /// node.
    pub open spec fn is_outbound_only(self) -> bool {
        self.connection_status matches PeerConnectionStatus::Connected { n_in, n_out } && n_in == 0
            && n_out > 0
    }

    /// A duty of this node needs the peer after second `now`.
    pub open spec fn has_future_duty(self, now: u64) -> bool {
        self.min_ttl matches Some(until) && until > now
    }

    /// This record with another status.
    pub open spec fn with_status(self, status: PeerConnectionStatus) -> PeerInfoView {
        PeerInfoView { connection_status: status, ..self }
    }

    /// This record with another score.
    pub open spec fn with_score(self, score: Score) -> PeerInfoView {
        PeerInfoView { score, ..self }
    }

    /// This record once the peer was seen at `ip`.
    pub open spec fn with_seen_ip(self, ip: Option<IpAddress>) -> PeerInfoView {
        match ip {
            Some(ip) if !self.seen_ips.contains(ip) => PeerInfoView {
                seen_ips: self.seen_ips.push(ip),
                ..self
            },
            _ => self,
        }
    }

    /// This record with the node record `enr`, where one is given.
    pub open spec fn with_enr(self, enr: Option<Seq<u8>>) -> PeerInfoView {
        match enr {
            Some(_) => PeerInfoView { enr, ..self },
            None => self,
        }
    }

    /// This record once a duty needs the peer until second `until`: the
    /// later of the two ends stands.
    pub open spec fn with_min_ttl(self, until: u64) -> PeerInfoView {
        match self.min_ttl {
            Some(known) if known >= until => self,
            _ => PeerInfoView { min_ttl: Some(until), ..self },
        }
    }

    /// This record once a connection in the given direction stands. A
    /// connected peer has one connection more; any other peer becomes
    /// connected over this one, which then gives the record its direction.
    pub open spec fn connected(self, direction: ConnectionDirection) -> PeerInfoView {
        match self.connection_status {
            PeerConnectionStatus::Connected { n_in, n_out } => self.with_status(
                match direction {
                    ConnectionDirection::Incoming => PeerConnectionStatus::Connected {
                        n_in: one_more(n_in),
                        n_out,
                    },
                    ConnectionDirection::Outgoing => PeerConnectionStatus::Connected {
                        n_in,
                        n_out: one_more(n_out),
                    },
                },
            ),
            _ => PeerInfoView {
                connection_status: match direction {
                    ConnectionDirection::Incoming => PeerConnectionStatus::Connected {
                        n_in: 1,
                        n_out: 0,
                    },
                    ConnectionDirection::Outgoing => PeerConnectionStatus::Connected {
                        n_in: 0,
                        n_out: 1,
                    },
                },
                connection_direction: Some(direction),
                ..self
            },
        }
    }

    /// This record once the node dials the peer at second `now`. Only a peer
    /// that is disconnected, banned or unknown becomes dialing.
    pub open spec fn dialing(self, now: u64) -> PeerInfoView {
        match self.connection_status {
            PeerConnectionStatus::Disconnected { .. }
            | PeerConnectionStatus::Banned { .. }
            | PeerConnectionStatus::Unknown => self.with_status(
                PeerConnectionStatus::Dialing { since: now },
            ),
            _ => self,
        }
    }

    /// This record once the connection to the peer is gone, at second `now`.
    /// A peer that awaited its ban is banned; one that is banned or
    /// disconnected stays as it is; any other is disconnected.
    pub open spec fn disconnected(self, now: u64) -> PeerInfoView {
        match self.connection_status {
            PeerConnectionStatus::Banned { .. } | PeerConnectionStatus::Disconnected { .. } => self,
            PeerConnectionStatus::Disconnecting { to_ban: true } => self.with_status(
                PeerConnectionStatus::Banned { since: now },
            ),
            _ => self.with_status(PeerConnectionStatus::Disconnected { since: now }),
        }
    }

    /// This record once the peer is being disconnected. A peer that is
    /// already being disconnected keeps what was decided for it, and a banned
    /// peer stays banned. The peer is marked for a ban only where its score
    /// asks for one.
    pub open spec fn disconnecting(self, to_ban: bool) -> PeerInfoView {
        match self.connection_status {
            PeerConnectionStatus::Disconnecting { .. } | PeerConnectionStatus::Banned { .. } => self,
            _ => self.with_status(
                PeerConnectionStatus::Disconnecting {
                    to_ban: to_ban && self.score.spec_state() == ScoreState::Banned,
                },
            ),
        }
    }

    /// What the score asks of the record, when the score asked for
    /// `previous` before it changed.
    pub open spec fn transition(self, previous: ScoreState) -> ScoreTransition {
        match (self.score.spec_state(), previous) {
            (ScoreState::Banned, ScoreState::Healthy) | (ScoreState::Banned, ScoreState::Disconnected) => {
                ScoreTransition::Banned
            },
            (ScoreState::Disconnected, ScoreState::Healthy) => if self.is_connected() {
                ScoreTransition::Disconnected
            } else {
                ScoreTransition::NoAction
            },
            (ScoreState::Disconnected, ScoreState::Banned) => if self.is_connected() {
                ScoreTransition::Disconnected
            } else {
                ScoreTransition::Unbanned
            },
            (ScoreState::Healthy, ScoreState::Banned) => ScoreTransition::Unbanned,
            _ => ScoreTransition::NoAction,
        }
    }

    /// This record once it has followed what its score asks, at second
    /// `now`.
    ///
    /// To be banned, a connected peer is first disconnected and one that is
    /// being disconnected is marked; any other is banned at once. A ban that
    /// is lifted leaves the peer disconnected since the second of its ban,
    /// and takes the mark off a peer that is being disconnected.
    pub open spec fn followed(self, transition: ScoreTransition, now: u64) -> PeerInfoView {
        match transition {
            ScoreTransition::NoAction => self,
            ScoreTransition::Disconnected => self.with_status(
                PeerConnectionStatus::Disconnecting { to_ban: false },
            ),
            ScoreTransition::Banned => self.with_status(
                match self.connection_status {
                    PeerConnectionStatus::Connected { .. }
                    | PeerConnectionStatus::Disconnecting { .. } => PeerConnectionStatus::Disconnecting {
                        to_ban: true,
                    },
                    PeerConnectionStatus::Banned { since } => PeerConnectionStatus::Banned { since },
                    _ => PeerConnectionStatus::Banned { since: now },
                },
            ),
            ScoreTransition::Unbanned => self.with_status(
                match self.connection_status {
                    PeerConnectionStatus::Banned { since } => PeerConnectionStatus::Disconnected {
                        since,
                    },
                    PeerConnectionStatus::Disconnecting { .. } => PeerConnectionStatus::Disconnecting {
                        to_ban: false,
                    },
                    status => status,
                },
            ),
        }
    }

    /// This record with the score `score`, having followed what the change
    /// asks.
    pub open spec fn rescored(self, score: Score, now: u64) -> PeerInfoView {
        let scored = self.with_score(score);
        scored.followed(scored.transition(self.score.spec_state()), now)
    }
}

impl View for PeerInfo {
    type V = PeerInfoView;

    closed spec fn view(&self) -> PeerInfoView {
        PeerInfoView {
            score: self.score,
            client: self.client@,
            connection_status: self.connection_status,
            connection_direction: self.connection_direction,
            listening_addresses: self.listening_addresses@.map_values(|m: Multiaddr| m@),
            seen_ips: self.seen_ips@,
            sync_status: self.sync_status,
            min_ttl: self.min_ttl,
            enr: match self.enr {
                Some(enr) => Some(enr@),
                None => None,
            },
        }
    }
}

impl PeerInfo {
    /// The record of a peer first heard of at second `now`.
    pub fn new(now: u64) -> (info: PeerInfo)
        ensures
            info@ == PeerInfoView::fresh(now),
            info@.wf(),
    {
        let info = PeerInfo {
            score: Score::new(now),
            client: Client::unknown(),
            connection_status: PeerConnectionStatus::Unknown,
            connection_direction: None,
            listening_addresses: Vec::new(),
            seen_ips: Vec::new(),
            sync_status: SyncStatus::Unknown,
            min_ttl: None,
            enr: None,
        };
        assert(info.listening_addresses@.map_values(|m: Multiaddr| m@) =~= Seq::empty());
        info
    }

    /// The peer's score.
    pub fn score(&self) -> (score: Score)
        ensures
            score == self@.score,
    {
        self.score
    }

    /// The state that the peer's score asks for.
    pub fn score_state(&self) -> (state: ScoreState)
        requires
            self@.score.wf(),
        ensures
            state == self@.score.spec_state(),
    {
        self.score.state()
    }

    /// The implementation the peer runs.
    pub fn client(&self) -> (client: &Client)
        ensures
            client@ == self@.client,
    {
        &self.client
    }

    /// Where the peer stands in the life of its connection.
    pub fn connection_status(&self) -> (status: PeerConnectionStatus)
        ensures
            status == self@.connection_status,
    {
        self.connection_status
    }

    /// Who opened the connection by which the peer last became connected.
    pub fn connection_direction(&self) -> (direction: Option<ConnectionDirection>)
        ensures
            direction == self@.connection_direction,
    {
        self.connection_direction
    }

    /// The addresses the peer last said it listens on.
    pub fn listening_addresses(&self) -> (addresses: &Vec<Multiaddr>)
        ensures
            addresses@.map_values(|m: Multiaddr| m@) == self@.listening_addresses,
    {
        &self.listening_addresses
    }

    /// The IP addresses the peer was seen at.
    pub fn seen_ip_addresses(&self) -> (ips: &Vec<IpAddress>)
        ensures
            ips@ == self@.seen_ips,
    {
        &self.seen_ips
    }

    /// How far the peer's chain is.
    pub fn sync_status(&self) -> (status: SyncStatus)
        ensures
            status == self@.sync_status,
    {
        self.sync_status
    }

    /// The second up to which a duty of this node needs the peer.
    pub fn min_ttl(&self) -> (min_ttl: Option<u64>)
        ensures
            min_ttl == self@.min_ttl,
    {
        self.min_ttl
    }

    /// The last node record given for the peer.
    pub fn enr(&self) -> (enr: Option<&Enr>)
        ensures
            match enr {
                Some(enr) => self@.enr == Some(enr@),
                None => self@.enr is None,
            },
    {
        self.enr.as_ref()
    }

    pub fn is_connected(&self) -> (yes: bool)
        ensures
            yes == self@.is_connected(),
    {
        matches!(self.connection_status, PeerConnectionStatus::Connected { .. })
    }

    pub fn is_dialing(&self) -> (yes: bool)
        ensures
            yes == self@.is_dialing(),
    {
        matches!(self.connection_status, PeerConnectionStatus::Dialing { .. })
    }

    pub fn is_connected_or_dialing(&self) -> (yes: bool)
        ensures
            yes == self@.is_connected_or_dialing(),
    {
        self.is_connected() || self.is_dialing()
    }

    pub fn is_disconnected(&self) -> (yes: bool)
        ensures
            yes == self@.is_disconnected(),
    {
        matches!(self.connection_status, PeerConnectionStatus::Disconnected { .. })
    }

    pub fn is_banned(&self) -> (yes: bool)
        ensures
            yes == self@.is_banned(),
    {
        matches!(self.connection_status, PeerConnectionStatus::Banned { .. })
    }

    /// Whether the peer is connected over connections that this node opened
    /// and no other.
    pub fn is_outbound_only(&self) -> (yes: bool)
        ensures
            yes == self@.is_outbound_only(),
    {
        match self.connection_status {
            PeerConnectionStatus::Connected { n_in, n_out } => n_in == 0 && n_out > 0,
            _ => false,
        }
    }

    /// Whether a duty of this node needs the peer after second `now`.
    pub fn has_future_duty(&self, now: u64) -> (yes: bool)
        ensures
            yes == self@.has_future_duty(now),
    {
        match self.min_ttl {
            Some(until) => until > now,
            None => false,
        }
    }

    /// Whether the peer was seen at `ip`.
    pub fn was_seen_at(&self, ip: &IpAddress) -> (yes: bool)
        ensures
            yes == self@.seen_ips.contains(*ip),
    {
        let mut i: usize = 0;
        while i < self.seen_ips.len()
            invariant
                i <= self.seen_ips@.len(),
                forall|k: int| 0 <= k < i ==> self.seen_ips@[k] != *ip,
            decreases self.seen_ips@.len() - i,
        {
            if self.seen_ips[i] == *ip {
                return true;
            }
            i += 1;
        }
        false
    }

    pub(crate) fn dial(&mut self, now: u64)
        ensures
            final(self)@ == old(self)@.dialing(now),
            old(self)@.wf() ==> final(self)@.wf(),
    {
        match self.connection_status {
            PeerConnectionStatus::Disconnected { .. }
            | PeerConnectionStatus::Banned { .. }
            | PeerConnectionStatus::Unknown => {
                self.connection_status = PeerConnectionStatus::Dialing { since: now };
            },
            _ => {},
        }
    }

    pub(crate) fn disconnect(&mut self, now: u64)
        ensures
            final(self)@ == old(self)@.disconnected(now),
            old(self)@.wf() ==> final(self)@.wf(),
    {
        match self.connection_status {
            PeerConnectionStatus::Banned { .. } | PeerConnectionStatus::Disconnected { .. } => {},
            PeerConnectionStatus::Disconnecting { to_ban: true } => {
                self.connection_status = PeerConnectionStatus::Banned { since: now };
            },
            _ => {
                self.connection_status = PeerConnectionStatus::Disconnected { since: now };
            },
        }
    }

    pub(crate) fn start_disconnecting(&mut self, to_ban: bool)
        requires
            old(self)@.score.wf(),
        ensures
            final(self)@ == old(self)@.disconnecting(to_ban),
            old(self)@.wf() ==> final(self)@.wf(),
    {
        match self.connection_status {
            PeerConnectionStatus::Disconnecting { .. } | PeerConnectionStatus::Banned { .. } => {},
            _ => {
                let marked = to_ban && self.score.state() == ScoreState::Banned;
                self.connection_status = PeerConnectionStatus::Disconnecting { to_ban: marked };
            },
        }
    }

    /// Gives the peer the score `score` and lets the record follow what the
    /// change asks.
    pub(crate) fn rescore(&mut self, score: Score, now: u64) -> (transition: ScoreTransition)
        requires
            old(self)@.score.wf(),
            score.wf(),
        ensures
            final(self)@ == old(self)@.rescored(score, now),
            transition == old(self)@.with_score(score).transition(old(self)@.score.spec_state()),
            old(self)@.wf() ==> final(self)@.wf(),
    {
        let previous = self.score.state();
        self.score = score;
        let transition = match (self.score.state(), previous) {
            (ScoreState::Banned, ScoreState::Healthy) | (ScoreState::Banned, ScoreState::Disconnected) => {
                ScoreTransition::Banned
            },
            (ScoreState::Disconnected, ScoreState::Healthy) => if self.is_connected() {
                ScoreTransition::Disconnected
            } else {
                ScoreTransition::NoAction
            },
            (ScoreState::Disconnected, ScoreState::Banned) => if self.is_connected() {
                ScoreTransition::Disconnected
            } else {
                ScoreTransition::Unbanned
            },
            (ScoreState::Healthy, ScoreState::Banned) => ScoreTransition::Unbanned,
            _ => ScoreTransition::NoAction,
        };
        match transition {
            ScoreTransition::NoAction => {},
            ScoreTransition::Disconnected => {
                self.connection_status = PeerConnectionStatus::Disconnecting { to_ban: false };
            },
            ScoreTransition::Banned => {
                self.connection_status = match self.connection_status {
                    PeerConnectionStatus::Connected { .. }
                    | PeerConnectionStatus::Disconnecting { .. } => PeerConnectionStatus::Disconnecting {
                        to_ban: true,
                    },
                    PeerConnectionStatus::Banned { since } => PeerConnectionStatus::Banned { since },
                    _ => PeerConnectionStatus::Banned { since: now },
                };
            },
            ScoreTransition::Unbanned => {
                self.connection_status = match self.connection_status {
                    PeerConnectionStatus::Banned { since } => PeerConnectionStatus::Disconnected {
                        since,
                    },
                    PeerConnectionStatus::Disconnecting { .. } => PeerConnectionStatus::Disconnecting {
                        to_ban: false,
                    },
                    status => status,
                };
            },
        }
        transition
    }

    pub(crate) fn set_connection_status(&mut self, status: PeerConnectionStatus)
        ensures
            final(self)@ == old(self)@.with_status(status),
    {
        self.connection_status = status;
    }

    pub(crate) fn set_score(&mut self, score: Score)
        ensures
            final(self)@ == old(self)@.with_score(score),
    {
        self.score = score;
    }

    pub(crate) fn add_seen_ip(&mut self, ip: Option<IpAddress>)
        ensures
            final(self)@ == old(self)@.with_seen_ip(ip),
            old(self)@.wf() ==> final(self)@.wf(),
    {
        if let Some(ip) = ip {
            if !self.was_seen_at(&ip) {
                self.seen_ips.push(ip);
            }
        }
    }

    pub(crate) fn set_enr(&mut self, enr: Option<Enr>)
        ensures
            final(self)@ == old(self)@.with_enr(
                match enr {
                    Some(enr) => Some(enr@),
                    None => None,
                },
            ),
    {
        if enr.is_some() {
            self.enr = enr;
        }
    }

    pub(crate) fn connect(&mut self, direction: ConnectionDirection)
        ensures
            final(self)@ == old(self)@.connected(direction),
            old(self)@.wf() ==> final(self)@.wf(),
    {
        match self.connection_status {
            PeerConnectionStatus::Connected { n_in, n_out } => {
                match direction {
                    ConnectionDirection::Incoming => {
                        let more: u8 = if n_in == u8::MAX {
                            u8::MAX
                        } else {
                            n_in + 1
                        };
                        self.connection_status = PeerConnectionStatus::Connected { n_in: more, n_out };
                    },
                    ConnectionDirection::Outgoing => {
                        let more: u8 = if n_out == u8::MAX {
                            u8::MAX
                        } else {
                            n_out + 1
                        };
                        self.connection_status = PeerConnectionStatus::Connected { n_in, n_out: more };
                    },
                }
            },
            _ => {
                self.connection_status = match direction {
                    ConnectionDirection::Incoming => PeerConnectionStatus::Connected {
                        n_in: 1,
                        n_out: 0,
                    },
                    ConnectionDirection::Outgoing => PeerConnectionStatus::Connected {
                        n_in: 0,
                        n_out: 1,
                    },
                };
                self.connection_direction = Some(direction);
            },
        }
    }

    /// Notes that a duty needs the peer until second `until`.
    pub(crate) fn update_min_ttl(&mut self, until: u64)
        ensures
            final(self)@ == old(self)@.with_min_ttl(until),
            old(self)@.wf() ==> final(self)@.wf(),
    {
        let later = match self.min_ttl {
            Some(known) => known < until,
            None => true,
        };
        if later {
            self.min_ttl = Some(until);
        }
    }

    /// Notes how far the peer's chain is.
    pub(crate) fn update_sync_status(&mut self, sync_status: SyncStatus)
        ensures
            final(self)@ == (PeerInfoView { sync_status, ..old(self)@ }),
    {
        self.sync_status = sync_status;
    }

    /// Takes the addresses the peer says it listens on and gives back those
    /// it said before.
    pub(crate) fn set_listening_addresses(&mut self, addresses: Vec<Multiaddr>) -> (previous: Vec<
        Multiaddr,
    >)
        ensures
            final(self)@ == (PeerInfoView {
                listening_addresses: addresses@.map_values(|m: Multiaddr| m@),
                ..old(self)@
            }),
            previous@.map_values(|m: Multiaddr| m@) == old(self)@.listening_addresses,
    {
        let mut addresses = addresses;
        std::mem::swap(&mut self.listening_addresses, &mut addresses);
        addresses
    }

    /// Takes what the peer says of its implementation.
    pub(crate) fn set_client(&mut self, client: Client)
        ensures
            final(self)@ == (PeerInfoView { client: client@, ..old(self)@ }),
    {
        self.client = client;
    }
}

} // verus!
