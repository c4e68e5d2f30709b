//! The peers the node knows of, each with its record.
//!
//! The database is spoken of as a map from identities to records. Every
//! change of a peer's status goes through it. Beside the records it keeps
//! running counts of the banned and of the disconnected peers, and of the
//! banned peers seen at each IP address; that the counts are right is part
//! of what makes a database sound.

use crate::banned::BannedPeersCount;
use crate::client::{Client, ClientKind};
use crate::peer_info::{PeerConnectionStatus, PeerInfo, PeerInfoView, ScoreTransition};
use crate::types::addresses_equal;
use crate::score::{PeerAction, Score, ScoreState};
use crate::types::{ConnectionDirection, Enr, IpAddress, Multiaddr, PeerId, ReportSource, SyncStatus};
use vstd::prelude::*;

verus! {

/// The most banned peers that are kept; beyond it the oldest are forgotten.
pub const MAX_BANNED_PEERS: usize = 1000;

/// The most disconnected peers that are kept; beyond it the oldest are
/// forgotten.
pub const MAX_DC_PEERS: usize = 500;

/// An IP address is banned once more banned peers than this were seen at it.
pub const BANNED_PEERS_PER_IP_THRESHOLD: usize = 5;

/// The seconds after which a dial that has not led to a connection is given
/// up.
pub const DIAL_TIMEOUT: u64 = 15;

/// The database as a map.
pub type PeerMap = Map<PeerId, PeerInfoView>;

/// A property of a record by which peers are counted.
#[derive(Clone, Copy, Debug)]
pub enum Group {
    Connected,
    Dialing,
    ConnectedOrDialing,
    OutboundOnly,
    Disconnected,
    Banned,
    /// Banned, and seen at the given IP address.
    BannedAt(IpAddress),
    /// Connected over a connection that the peer opened.
    ConnectedInbound,
    /// Connected, and running the given implementation.
    ConnectedClient(ClientKind),
}

impl Group {
    /// Whether a record has the property.
    pub open spec fn holds(self, info: PeerInfoView) -> bool {
        match self {
            Group::Connected => info.is_connected(),
            Group::Dialing => info.is_dialing(),
            Group::ConnectedOrDialing => info.is_connected_or_dialing(),
            Group::OutboundOnly => info.is_outbound_only(),
            Group::Disconnected => info.is_disconnected(),
            Group::Banned => info.is_banned(),
            Group::BannedAt(ip) => info.is_banned() && info.seen_ips.contains(ip),
            Group::ConnectedInbound => info.connection_status matches PeerConnectionStatus::Connected {
                n_in,
                ..
            } && n_in > 0,
            Group::ConnectedClient(kind) => info.is_connected() && info.client.kind == kind,
        }
    }
}

/// The peers of a group.
pub open spec fn members(peers: PeerMap, group: Group) -> Set<PeerId> {
    Set::new(|id: PeerId| peers.contains_key(id) && group.holds(peers[id]))
}

/// The record of a peer: the one the map holds, or that of a peer first
/// heard of at second `now`.
pub open spec fn record(peers: PeerMap, id: PeerId, now: u64) -> PeerInfoView {
    if peers.contains_key(id) {
        peers[id]
    } else {
        PeerInfoView::fresh(now)
    }
}

/// Whether the address is banned: more banned peers than the threshold
/// were seen at it.
pub open spec fn ip_is_banned(peers: PeerMap, ip: IpAddress) -> bool {
    members(peers, Group::BannedAt(ip)).len() > BANNED_PEERS_PER_IP_THRESHOLD
}

/// The first of the addresses that is banned.
pub open spec fn first_banned_ip(peers: PeerMap, ips: Seq<IpAddress>) -> Option<IpAddress>
    decreases ips.len(),
{
    if ips.len() == 0 {
        None
    } else if ip_is_banned(peers, ips[0]) {
        Some(ips[0])
    } else {
        first_banned_ip(peers, ips.subrange(1, ips.len() as int))
    }
}

/// Those of the addresses at which no banned peer was seen.
pub open spec fn released_ips(peers: PeerMap, ips: Seq<IpAddress>) -> Seq<IpAddress> {
    ips.filter(is_released(peers))
}

/// Whether a peer may connect, and if not, why.
#[derive(Clone, Copy, Debug, PartialEq, Eq, Structural)]
pub enum BanResult {
    /// The peer may connect.
    NotBanned,
    /// The peer's score asks for a ban.
    BannedPeer,
    /// The peer was seen at an address that is banned.
    BannedIp(IpAddress),
}

/// Whether a peer may connect. A peer that is not known may.
pub open spec fn ban_status_of(peers: PeerMap, id: PeerId) -> BanResult {
    if !peers.contains_key(id) {
        BanResult::NotBanned
    } else if peers[id].score.spec_state() == ScoreState::Banned {
        BanResult::BannedPeer
    } else {
        match first_banned_ip(peers, peers[id].seen_ips) {
            Some(ip) => BanResult::BannedIp(ip),
            None => BanResult::NotBanned,
        }
    }
}

/// Whether a peer is worth dialing: it is disconnected or was never dialed
/// or connected, and so neither banned nor being dialed. A peer that is not
/// known is worth dialing.
pub open spec fn should_dial_of(peers: PeerMap, id: PeerId) -> bool {
    peers.contains_key(id) ==> {
        &&& peers[id].is_disconnected() || peers[id].connection_status is Unknown
        &&& !peers[id].is_banned()
        &&& !peers[id].is_dialing()
    }
}

/// What is done with a peer that is to be banned.
#[derive(Debug)]
pub enum BanOperation {
    /// The peer is connected: it is disconnected first and banned after.
    DisconnectThePeer,
    /// The peer is being disconnected: it is banned once that is through.
    PeerDisconnecting,
    /// The peer is banned, with the addresses it was seen at.
    ReadyToBan(Vec<IpAddress>),
}

/// What a [`BanOperation`] holds.
pub enum BanOperationView {
    DisconnectThePeer,
    PeerDisconnecting,
    ReadyToBan(Seq<IpAddress>),
}

impl View for BanOperation {
    type V = BanOperationView;

    open spec fn view(&self) -> BanOperationView {
        match self {
            BanOperation::DisconnectThePeer => BanOperationView::DisconnectThePeer,
            BanOperation::PeerDisconnecting => BanOperationView::PeerDisconnecting,
            BanOperation::ReadyToBan(ips) => BanOperationView::ReadyToBan(ips@),
        }
    }
}

/// What a change of a peer's score led to.
#[derive(Debug)]
pub enum ScoreUpdateResult {
    /// Nothing.
    NoAction,
    /// The peer is connected and is to be disconnected.
    Disconnect,
    /// The peer is to be banned.
    Ban(BanOperation),
    /// The peer's ban is lifted; no banned peer is left at the addresses.
    Unbanned(Vec<IpAddress>),
}

/// What a [`ScoreUpdateResult`] holds.
pub enum ScoreUpdateResultView {
    NoAction,
    Disconnect,
    Ban(BanOperationView),
    Unbanned(Seq<IpAddress>),
}

impl View for ScoreUpdateResult {
    type V = ScoreUpdateResultView;

    open spec fn view(&self) -> ScoreUpdateResultView {
        match self {
            ScoreUpdateResult::NoAction => ScoreUpdateResultView::NoAction,
            ScoreUpdateResult::Disconnect => ScoreUpdateResultView::Disconnect,
            ScoreUpdateResult::Ban(operation) => ScoreUpdateResultView::Ban(operation@),
            ScoreUpdateResult::Unbanned(ips) => ScoreUpdateResultView::Unbanned(ips@),
        }
    }
}

/// What is done with a peer that is to be banned, by the record it had when
/// its score fell.
pub open spec fn ban_operation_of(before: PeerInfoView) -> BanOperationView {
    match before.connection_status {
        PeerConnectionStatus::Connected { .. } => BanOperationView::DisconnectThePeer,
        PeerConnectionStatus::Disconnecting { .. } => BanOperationView::PeerDisconnecting,
        _ => BanOperationView::ReadyToBan(before.seen_ips),
    }
}

/// What the change of a peer's score led to: `before` is the peer's record
/// with its new score, `previous` the state its old score asked for, and
/// `after` the database once the record has followed.
pub open spec fn score_result_of(
    before: PeerInfoView,
    previous: ScoreState,
    after: PeerMap,
) -> ScoreUpdateResultView {
    match before.transition(previous) {
        ScoreTransition::NoAction => ScoreUpdateResultView::NoAction,
        ScoreTransition::Disconnected => ScoreUpdateResultView::Disconnect,
        ScoreTransition::Banned => ScoreUpdateResultView::Ban(ban_operation_of(before)),
        ScoreTransition::Unbanned => ScoreUpdateResultView::Unbanned(
            released_ips(after, before.seen_ips),
        ),
    }
}

/// The database once the node dials a peer at second `now`.
pub open spec fn dialed(peers: PeerMap, id: PeerId, enr: Option<Seq<u8>>, now: u64) -> PeerMap {
    peers.insert(id, record(peers, id, now).with_enr(enr).dialing(now))
}

/// The database once a connection to a peer stands, on which the peer was
/// seen at `ip`.
pub open spec fn connected(
    peers: PeerMap,
    id: PeerId,
    direction: ConnectionDirection,
    ip: Option<IpAddress>,
    enr: Option<Seq<u8>>,
    now: u64,
) -> PeerMap {
    peers.insert(id, record(peers, id, now).with_enr(enr).connected(direction).with_seen_ip(ip))
}

/// The database once the connection to a peer is gone, before old records
/// are forgotten.
pub open spec fn disconnected(peers: PeerMap, id: PeerId, now: u64) -> PeerMap {
    peers.insert(id, record(peers, id, now).disconnected(now))
}

/// The database once a peer is being disconnected.
pub open spec fn disconnecting(peers: PeerMap, id: PeerId, to_ban: bool, now: u64) -> PeerMap {
    peers.insert(id, record(peers, id, now).disconnecting(to_ban))
}

/// The database once a peer has the score `score`, at second `now`.
pub open spec fn rescored(peers: PeerMap, id: PeerId, score: Score, now: u64) -> PeerMap {
    peers.insert(id, record(peers, id, now).rescored(score, now))
}

/// The database once a peer was reported for `action`.
pub open spec fn reported(peers: PeerMap, id: PeerId, action: PeerAction, now: u64) -> PeerMap {
    rescored(peers, id, record(peers, id, now).score.spec_apply_peer_action(action), now)
}

/// What the change of a peer's score to `score` led to, where `after` is
/// the database that came of it.
pub open spec fn rescored_result(
    peers: PeerMap,
    id: PeerId,
    score: Score,
    now: u64,
    after: PeerMap,
) -> ScoreUpdateResultView {
    let before = record(peers, id, now);
    score_result_of(before.with_score(score), before.score.spec_state(), after)
}

/// A record once the decay up to second `now` was applied to its score.
pub open spec fn aged(info: PeerInfoView, now: u64) -> PeerInfoView {
    info.rescored(info.score.spec_update_at(now), now)
}

/// Whether a dial that began at a record's `since` has run out at `now`.
pub open spec fn dial_timed_out(info: PeerInfoView, now: u64) -> bool {
    info.connection_status matches PeerConnectionStatus::Dialing { since } && since + DIAL_TIMEOUT
        < now
}

/// The predicate of [`released_ips`].
pub open spec fn is_released(peers: PeerMap) -> spec_fn(IpAddress) -> bool {
    |ip: IpAddress| members(peers, Group::BannedAt(ip)).len() == 0
}

/// The second since which a record has its status; zero for a status that
/// names none.
pub open spec fn since_of(info: PeerInfoView) -> u64 {
    match info.connection_status {
        PeerConnectionStatus::Disconnected { since } => since,
        PeerConnectionStatus::Banned { since } => since,
        PeerConnectionStatus::Dialing { since } => since,
        _ => 0,
    }
}

/// `after` is `before` with the oldest peers of `group` forgotten, as many
/// as `group` had above `cap`.
pub open spec fn oldest_forgotten(before: PeerMap, after: PeerMap, group: Group, cap: nat) -> bool {
    &&& forall|id: PeerId| #[trigger]
        after.contains_key(id) ==> before.contains_key(id) && after[id] == before[id]
    &&& forall|id: PeerId|
        before.contains_key(id) && !after.contains_key(id) ==> group.holds(#[trigger] before[id])
    &&& members(after, group).len() == if members(before, group).len() <= cap {
        members(before, group).len()
    } else {
        cap
    }
    &&& forall|gone: PeerId, kept: PeerId|
        before.contains_key(gone) && !after.contains_key(gone) && after.contains_key(kept)
            && group.holds(after[kept]) ==> since_of(#[trigger] before[gone]) <= since_of(
            #[trigger] after[kept],
        )
}

/// The operation that ends the wait of a peer that awaited its ban.
pub open spec fn pending_ban(before: PeerInfoView) -> Option<BanOperationView> {
    if before.awaits_ban() {
        Some(BanOperationView::ReadyToBan(before.seen_ips))
    } else {
        None
    }
}

/// What the decay of a peer's score up to second `now` led to, where `after`
/// is the database that came of it.
pub open spec fn aged_result(
    peers: PeerMap,
    id: PeerId,
    now: u64,
    after: PeerMap,
) -> ScoreUpdateResultView {
    score_result_of(
        peers[id].with_score(peers[id].score.spec_update_at(now)),
        peers[id].score.spec_state(),
        after,
    )
}

/// `after` is `before` with the oldest banned and the oldest disconnected
/// peers forgotten, as many as there were above `MAX_BANNED_PEERS` and
/// `MAX_DC_PEERS`.
pub open spec fn old_records_forgotten(before: PeerMap, after: PeerMap) -> bool {
    &&& forall|id: PeerId| #[trigger]
        after.contains_key(id) ==> before.contains_key(id) && after[id] == before[id]
    &&& forall|id: PeerId|
        before.contains_key(id) && !after.contains_key(id) ==> (#[trigger] before[id]).is_banned()
            || before[id].is_disconnected()
    &&& members(after, Group::Banned).len() == if members(before, Group::Banned).len()
        <= MAX_BANNED_PEERS {
        members(before, Group::Banned).len()
    } else {
        MAX_BANNED_PEERS as nat
    }
    &&& members(after, Group::Disconnected).len() == if members(before, Group::Disconnected).len()
        <= MAX_DC_PEERS {
        members(before, Group::Disconnected).len()
    } else {
        MAX_DC_PEERS as nat
    }
    &&& forall|gone: PeerId, kept: PeerId|
        before.contains_key(gone) && !after.contains_key(gone) && after.contains_key(kept) && (
        before[gone].is_banned() == after[kept].is_banned()) && (after[kept].is_banned()
            || after[kept].is_disconnected()) ==> since_of(#[trigger] before[gone]) <= since_of(
            #[trigger] after[kept],
        )
}

/// What a pending operation holds, if there is one.
pub open spec fn operation_view(operation: Option<BanOperation>) -> Option<BanOperationView> {
    match operation {
        Some(operation) => Some(operation@),
        None => None,
    }
}

/// The peers of `order` stand with the lowest score first.
pub open spec fn ascending(peers: PeerMap, order: Seq<PeerId>) -> bool {
    forall|a: int, b: int|
        0 <= a < b < order.len() ==> peers[order[a]].score.spec_score()
            <= peers[order[b]].score.spec_score()
}

/// The peers of `order` stand with the highest score first.
pub open spec fn descending(peers: PeerMap, order: Seq<PeerId>) -> bool {
    forall|a: int, b: int|
        0 <= a < b < order.len() ==> peers[order[a]].score.spec_score()
            >= peers[order[b]].score.spec_score()
}

/// What the report of a peer for `action` led to.
pub open spec fn reported_result(
    peers: PeerMap,
    id: PeerId,
    action: PeerAction,
    now: u64,
) -> ScoreUpdateResultView {
    rescored_result(
        peers,
        id,
        record(peers, id, now).score.spec_apply_peer_action(action),
        now,
        reported(peers, id, action, now),
    )
}

/// The database once it is noted that a peer said goodbye, or is told so,
/// for `reason`: a known peer on another network is marked as such.
pub open spec fn goodbye_noted(peers: PeerMap, id: PeerId, reason: crate::types::GoodbyeReason) -> PeerMap {
    if reason == crate::types::GoodbyeReason::IrrelevantNetwork && peers.contains_key(id) {
        peers.insert(id, PeerInfoView { sync_status: SyncStatus::IrrelevantPeer, ..peers[id] })
    } else {
        peers
    }
}

/// The database once the dials that have run out at `now` were given up.
pub open spec fn cleaned_up(peers: PeerMap, now: u64) -> PeerMap {
    Map::new(
        |id: PeerId| peers.contains_key(id),
        |id: PeerId|
            if dial_timed_out(peers[id], now) {
                peers[id].disconnected(now)
            } else {
                peers[id]
            },
    )
}

/// The database once the decay up to second `now` was applied to every
/// score.
pub open spec fn aged_all(peers: PeerMap, now: u64) -> PeerMap {
    Map::new(|id: PeerId| peers.contains_key(id), |id: PeerId| aged(peers[id], now))
}

/// What a list of results holds.
pub open spec fn results_view(results: Seq<(PeerId, ScoreUpdateResult)>) -> Seq<
    (PeerId, ScoreUpdateResultView),
> {
    results.map_values(|result: (PeerId, ScoreUpdateResult)| (result.0, result.1@))
}

/// `results` tells what the decay of the scores in `before` led to: it
/// names each peer of which something is asked, once, with what is asked.
pub open spec fn aged_results(
    before: PeerMap,
    now: u64,
    results: Seq<(PeerId, ScoreUpdateResultView)>,
) -> bool {
    let after = aged_all(before, now);
    &&& forall|k: int|
        0 <= k < results.len() ==> {
            let id = (#[trigger] results[k]).0;
            &&& before.contains_key(id)
            &&& results[k].1 == aged_result(before, id, now, after)
            &&& !(results[k].1 is NoAction)
        }
    &&& forall|id: PeerId|
        before.contains_key(id) && !(aged_result(before, id, now, after) is NoAction)
            ==> exists|k: int| 0 <= k < results.len() && (#[trigger] results[k]).0 == id
    &&& forall|a: int, b: int| 0 <= a < b < results.len() ==> results[a].0 != results[b].0
}

/// Of the negative scores that the gossip layer reports in one round, the
/// share of the target number of peers, in percent, that is not held
/// against the peers: the least negative ones are let off.
pub const ALLOWED_NEGATIVE_GOSSIPSUB_PERCENT: usize = 10;

/// Whether the report at place `at` counts: it is the first for its peer,
/// and the peer is connected.
pub open spec fn report_counts(peers: PeerMap, scores: Seq<(PeerId, i64)>, at: int) -> bool {
    &&& peers.contains_key(scores[at].0)
    &&& peers[scores[at].0].is_connected()
    &&& forall|k: int| 0 <= k < at ==> (#[trigger] scores[k]).0 != scores[at].0
}

/// Whether the report at place `other` stands before the one at place `at`
/// among the negative ones: it is less negative, or as negative and earlier.
pub open spec fn stands_before(scores: Seq<(PeerId, i64)>, other: int, at: int) -> bool {
    scores[other].1 < 0 && (scores[other].1 > scores[at].1 || (scores[other].1 == scores[at].1
        && other < at))
}

/// How many of the first `n` reports count, are negative and stand before
/// the one at place `at`.
pub open spec fn negative_rank(peers: PeerMap, scores: Seq<(PeerId, i64)>, at: int, n: int) -> nat
    decreases n,
{
    if n <= 0 {
        0
    } else {
        negative_rank(peers, scores, at, n - 1) + if report_counts(peers, scores, n - 1)
            && stands_before(scores, n - 1, at) {
            1nat
        } else {
            0nat
        }
    }
}

/// Whether the negative report at place `at` is let off: fewer than
/// `allowance` negative reports stand before it.
pub open spec fn let_off(peers: PeerMap, scores: Seq<(PeerId, i64)>, at: int, allowance: nat) -> bool {
    scores[at].1 < 0 && negative_rank(peers, scores, at, scores.len() as int) < allowance
}

/// The score that the report at place `at` gives its peer.
pub open spec fn gossip_score(
    peers: PeerMap,
    scores: Seq<(PeerId, i64)>,
    at: int,
    allowance: nat,
) -> Score {
    peers[scores[at].0].score.spec_with_gossipsub_score(
        scores[at].1,
        let_off(peers, scores, at, allowance),
    )
}

/// The database once the first `n` reports of the gossip layer were taken.
pub open spec fn gossip_applied(
    peers: PeerMap,
    scores: Seq<(PeerId, i64)>,
    n: int,
    allowance: nat,
    now: u64,
) -> PeerMap
    decreases n,
{
    if n <= 0 {
        peers
    } else {
        let before = gossip_applied(peers, scores, n - 1, allowance, now);
        if report_counts(peers, scores, n - 1) {
            before.insert(
                scores[n - 1].0,
                peers[scores[n - 1].0].rescored(gossip_score(peers, scores, n - 1, allowance), now),
            )
        } else {
            before
        }
    }
}

/// What the report at place `at` led to, where `after` is the database once
/// all reports were taken.
pub open spec fn gossip_result(
    peers: PeerMap,
    scores: Seq<(PeerId, i64)>,
    at: int,
    allowance: nat,
    after: PeerMap,
) -> ScoreUpdateResultView {
    score_result_of(
        peers[scores[at].0].with_score(gossip_score(peers, scores, at, allowance)),
        peers[scores[at].0].score.spec_state(),
        after,
    )
}

/// What the first `n` reports of the gossip layer led to: for each report
/// that counts and asks something of its peer, the peer and what is asked,
/// in the order of the reports.
pub open spec fn gossip_results(
    peers: PeerMap,
    scores: Seq<(PeerId, i64)>,
    n: int,
    allowance: nat,
    after: PeerMap,
) -> Seq<(PeerId, ScoreUpdateResultView)>
    decreases n,
{
    if n <= 0 {
        Seq::empty()
    } else {
        let before = gossip_results(peers, scores, n - 1, allowance, after);
        let result = gossip_result(peers, scores, n - 1, allowance, after);
        if report_counts(peers, scores, n - 1) && !(result is NoAction) {
            before.push((scores[n - 1].0, result))
        } else {
            before
        }
    }
}

/// One peer of the database.
#[derive(Debug)]
pub struct PeerEntry {
    id: PeerId,
    info: PeerInfo,
}

/// The peers the node knows of, and the running counts of those that are
/// banned, in all and at each IP address, and of those that are disconnected.
#[derive(Debug)]
pub struct PeerDB {
    peers: Vec<PeerEntry>,
    banned_peers_count: BannedPeersCount,
    disconnected_peers: usize,
}

spec fn ids_distinct(entries: Seq<PeerEntry>) -> bool {
    forall|i: int, j: int| 0 <= i < j < entries.len() ==> entries[i].id != entries[j].id
}

spec fn holds_id(entries: Seq<PeerEntry>, id: PeerId) -> bool {
    exists|i: int| 0 <= i < entries.len() && #[trigger] entries[i].id == id
}

spec fn position(entries: Seq<PeerEntry>, id: PeerId) -> int {
    choose|i: int| 0 <= i < entries.len() && #[trigger] entries[i].id == id
}

spec fn map_of(entries: Seq<PeerEntry>) -> PeerMap {
    Map::new(|id: PeerId| holds_id(entries, id), |id: PeerId| entries[position(entries, id)].info@)
}

spec fn count_of(entries: Seq<PeerEntry>, group: Group, n: int) -> nat
    decreases n,
{
    if n <= 0 {
        0
    } else {
        count_of(entries, group, n - 1) + if group.holds(entries[n - 1].info@) {
            1nat
        } else {
            0nat
        }
    }
}

proof fn lemma_position(entries: Seq<PeerEntry>, i: int)
    requires
        ids_distinct(entries),
        0 <= i < entries.len(),
    ensures
        holds_id(entries, entries[i].id),
        position(entries, entries[i].id) == i,
        map_of(entries).contains_key(entries[i].id),
        map_of(entries)[entries[i].id] == entries[i].info@,
{
    assert(entries[i].id == entries[i].id);
}

proof fn lemma_map_of_update(before: Seq<PeerEntry>, after: Seq<PeerEntry>, i: int)
    requires
        ids_distinct(before),
        0 <= i < before.len(),
        after.len() == before.len(),
        after[i].id == before[i].id,
        forall|j: int| 0 <= j < before.len() && j != i ==> after[j] == before[j],
    ensures
        ids_distinct(after),
        map_of(after) == map_of(before).insert(before[i].id, after[i].info@),
{
    assert forall|a: int, b: int| 0 <= a < b < after.len() implies after[a].id != after[b].id by {
        assert(after[a].id == before[a].id);
        assert(after[b].id == before[b].id);
    }
    let target = map_of(before).insert(before[i].id, after[i].info@);
    assert forall|id: PeerId| map_of(after).contains_key(id) == target.contains_key(id) by {
        if holds_id(after, id) {
            let k = position(after, id);
            assert(before[k].id == id);
        }
        if holds_id(before, id) {
            let k = position(before, id);
            assert(after[k].id == id);
        }
        if id == before[i].id {
            assert(after[i].id == id);
        }
    }
    assert forall|id: PeerId| map_of(after).contains_key(id) implies map_of(after)[id]
        == target[id] by {
        let k = position(after, id);
        lemma_position(after, k);
        lemma_position(before, k);
    }
    assert(map_of(after) =~= target);
}

proof fn lemma_map_of_push(before: Seq<PeerEntry>, entry: PeerEntry)
    requires
        ids_distinct(before),
        !holds_id(before, entry.id),
    ensures
        ids_distinct(before.push(entry)),
        map_of(before.push(entry)) == map_of(before).insert(entry.id, entry.info@),
{
    let after = before.push(entry);
    assert forall|a: int, b: int| 0 <= a < b < after.len() implies after[a].id != after[b].id by {
        if b == before.len() {
            assert(before[a].id == after[a].id);
        }
    }
    let target = map_of(before).insert(entry.id, entry.info@);
    assert forall|id: PeerId| map_of(after).contains_key(id) == target.contains_key(id) by {
        if holds_id(after, id) {
            let k = position(after, id);
            if k < before.len() {
                assert(before[k].id == id);
            }
        }
        if holds_id(before, id) {
            let k = position(before, id);
            assert(after[k].id == id);
        }
        if id == entry.id {
            assert(after[before.len() as int].id == id);
        }
    }
    assert forall|id: PeerId| map_of(after).contains_key(id) implies map_of(after)[id]
        == target[id] by {
        let k = position(after, id);
        lemma_position(after, k);
        if k < before.len() {
            lemma_position(before, k);
        }
    }
    assert(map_of(after) =~= target);
}

proof fn lemma_map_of_remove(before: Seq<PeerEntry>, i: int)
    requires
        ids_distinct(before),
        0 <= i < before.len(),
    ensures
        ids_distinct(before.remove(i)),
        map_of(before.remove(i)) == map_of(before).remove(before[i].id),
{
    let after = before.remove(i);
    assert forall|a: int, b: int| 0 <= a < b < after.len() implies after[a].id != after[b].id by {
        let a0 = if a < i { a } else { a + 1 };
        let b0 = if b < i { b } else { b + 1 };
        assert(after[a] == before[a0]);
        assert(after[b] == before[b0]);
    }
    let target = map_of(before).remove(before[i].id);
    assert forall|id: PeerId| map_of(after).contains_key(id) == target.contains_key(id) by {
        if holds_id(after, id) {
            let k = position(after, id);
            let k0 = if k < i { k } else { k + 1 };
            assert(after[k] == before[k0]);
            assert(before[k0].id == id);
        }
        if holds_id(before, id) && id != before[i].id {
            let k = position(before, id);
            let k1 = if k < i { k } else { k - 1 };
            assert(after[k1] == before[k]);
            assert(after[k1].id == id);
        }
    }
    assert forall|id: PeerId| map_of(after).contains_key(id) implies map_of(after)[id]
        == target[id] by {
        let k = position(after, id);
        let k0 = if k < i { k } else { k + 1 };
        lemma_position(after, k);
        assert(after[k] == before[k0]);
        lemma_position(before, k0);
    }
    assert(map_of(after) =~= target);
}

proof fn lemma_map_of_take(entries: Seq<PeerEntry>, n: int)
    requires
        ids_distinct(entries),
        0 <= n < entries.len(),
    ensures
        ids_distinct(entries.take(n)),
        !holds_id(entries.take(n), entries[n].id),
        entries.take(n + 1) == entries.take(n).push(entries[n]),
{
    let head = entries.take(n);
    if holds_id(head, entries[n].id) {
        let k = position(head, entries[n].id);
        assert(head[k] == entries[k]);
    }
    assert(entries.take(n + 1) =~= head.push(entries[n]));
}

/// Counting along the entries counts the members of the group.
proof fn lemma_count_of(entries: Seq<PeerEntry>, group: Group, n: int)
    requires
        ids_distinct(entries),
        0 <= n <= entries.len(),
    ensures
        members(map_of(entries.take(n)), group).finite(),
        members(map_of(entries.take(n)), group).len() == count_of(entries, group, n),
        map_of(entries.take(n)).dom().finite(),
        map_of(entries.take(n)).dom().len() == n,
    decreases n,
{
    if n == 0 {
        assert(members(map_of(entries.take(0)), group) =~= Set::empty());
        assert(map_of(entries.take(0)).dom() =~= Set::empty());
    } else {
        lemma_count_of(entries, group, n - 1);
        lemma_map_of_take(entries, n - 1);
        let head = entries.take(n - 1);
        let last = entries[n - 1];
        lemma_map_of_push(head, last);
        let before = map_of(head);
        let after = map_of(entries.take(n));
        assert(after == before.insert(last.id, last.info@));
        assert(!before.contains_key(last.id));
        assert(after.dom() =~= before.dom().insert(last.id));
        if group.holds(last.info@) {
            assert(members(after, group) =~= members(before, group).insert(last.id));
        } else {
            assert(members(after, group) =~= members(before, group));
        }
    }
}

/// The members of a group are finitely many, for a map with finitely many
/// peers.
pub proof fn lemma_members_finite(peers: PeerMap, group: Group)
    requires
        peers.dom().finite(),
    ensures
        members(peers, group).finite(),
        members(peers, group).len() <= peers.dom().len(),
{
    assert(members(peers, group).subset_of(peers.dom()));
    vstd::set_lib::lemma_len_subset(members(peers, group), peers.dom());
}

/// How a group changes when one record is put into the map.
pub proof fn lemma_members_insert(peers: PeerMap, group: Group, id: PeerId, info: PeerInfoView)
    requires
        peers.dom().finite(),
    ensures
        members(peers.insert(id, info), group) == if group.holds(info) {
            members(peers, group).insert(id)
        } else {
            members(peers, group).remove(id)
        },
        members(peers.insert(id, info), group).len() == members(peers, group).len() - (if members(
            peers,
            group,
        ).contains(id) {
            1int
        } else {
            0int
        }) + (if group.holds(info) {
            1int
        } else {
            0int
        }),
{
    lemma_members_finite(peers, group);
    if group.holds(info) {
        assert(members(peers.insert(id, info), group) =~= members(peers, group).insert(id));
    } else {
        assert(members(peers.insert(id, info), group) =~= members(peers, group).remove(id));
    }
}

/// How a group changes when one peer is taken out of the map.
pub proof fn lemma_members_remove(peers: PeerMap, group: Group, id: PeerId)
    requires
        peers.dom().finite(),
    ensures
        members(peers.remove(id), group) == members(peers, group).remove(id),
{
    assert(members(peers.remove(id), group) =~= members(peers, group).remove(id));
}

impl View for PeerDB {
    type V = PeerMap;

    closed spec fn view(&self) -> PeerMap {
        map_of(self.peers@)
    }
}

impl PeerDB {
    /// No peer has two records, and every record is sound.
    spec fn records_wf(&self) -> bool {
        &&& ids_distinct(self.peers@)
        &&& forall|i: int| 0 <= i < self.peers@.len() ==> (#[trigger] self.peers@[i]).info@.wf()
    }

    /// The running counts are those of the peers in `peers`.
    spec fn counts_match(&self, peers: PeerMap) -> bool {
        &&& self.banned_peers_count.wf()
        &&& self.banned_peers_count.peers() == members(peers, Group::Banned).len()
        &&& forall|ip: IpAddress| #[trigger]
            self.banned_peers_count.at(ip) == members(peers, Group::BannedAt(ip)).len()
        &&& self.disconnected_peers == members(peers, Group::Disconnected).len()
    }

    /// The database is sound: no peer has two records, every record is
    /// sound, and the running counts are right.
    pub closed spec fn wf(&self) -> bool {
        &&& self.records_wf()
        &&& self.counts_match(self@)
    }

    /// What soundness says of the running counts: they are the numbers of
    /// the banned peers, of the banned peers seen at each address, and of
    /// the disconnected peers.
    pub proof fn lemma_counts(&self)
        requires
            self.wf(),
        ensures
            self.spec_banned_peers() == members(self@, Group::Banned).len(),
            self.spec_disconnected_peers() == members(self@, Group::Disconnected).len(),
            forall|ip: IpAddress| #[trigger]
                self.spec_banned_at(ip) == members(self@, Group::BannedAt(ip)).len(),
    {
    }

    /// The running count of the banned peers.
    pub closed spec fn spec_banned_peers(&self) -> nat {
        self.banned_peers_count.peers()
    }

    /// The running count of the banned peers that were seen at `ip`.
    pub closed spec fn spec_banned_at(&self, ip: IpAddress) -> nat {
        self.banned_peers_count.at(ip)
    }

    /// The running count of the disconnected peers.
    pub closed spec fn spec_disconnected_peers(&self) -> nat {
        self.disconnected_peers as nat
    }

    /// The number of records that the database holds.
    pub closed spec fn record_count(&self) -> nat {
        self.peers@.len()
    }

    /// Every peer that is known has one record and no more: there are as
    /// many records as peers.
    pub proof fn lemma_one_record_per_peer(&self)
        requires
            self.wf(),
        ensures
            self@.dom().finite(),
            self.record_count() == self@.dom().len(),
    {
        lemma_count_of(self.peers@, Group::Connected, self.peers@.len() as int);
        assert(self.peers@.take(self.peers@.len() as int) =~= self.peers@);
    }

    /// What soundness says of the map: it has finitely many peers, and
    /// every record in it is sound.
    pub proof fn lemma_wf(&self)
        requires
            self.wf(),
        ensures
            self@.dom().finite(),
            forall|id: PeerId| self@.contains_key(id) ==> (#[trigger] self@[id]).wf(),
    {
        lemma_count_of(self.peers@, Group::Connected, self.peers@.len() as int);
        assert(self.peers@.take(self.peers@.len() as int) =~= self.peers@);
        assert forall|id: PeerId| self@.contains_key(id) implies (#[trigger] self@[id]).wf() by {
            let k = position(self.peers@, id);
            lemma_position(self.peers@, k);
        }
    }

    /// A database that knows no peer.
    pub fn new() -> (db: PeerDB)
        ensures
            db.wf(),
            db@ == Map::<PeerId, PeerInfoView>::empty(),
    {
        let db = PeerDB {
            peers: Vec::new(),
            banned_peers_count: BannedPeersCount::new(),
            disconnected_peers: 0,
        };
        proof {
            assert(db@ =~= Map::<PeerId, PeerInfoView>::empty());
            assert(members(db@, Group::Banned) =~= Set::empty());
            assert(members(db@, Group::Disconnected) =~= Set::empty());
            assert forall|ip: IpAddress| #[trigger]
                db.banned_peers_count.at(ip) == members(db@, Group::BannedAt(ip)).len() by {
                assert(members(db@, Group::BannedAt(ip)) =~= Set::empty());
            }
        }
        db
    }

    fn find(&self, id: &PeerId) -> (found: Option<usize>)
        requires
            self.wf(),
        ensures
            match found {
                Some(i) => i < self.peers@.len() && self.peers@[i as int].id == *id
                    && self@.contains_key(*id) && self@[*id] == self.peers@[i as int].info@,
                None => !self@.contains_key(*id) && !holds_id(self.peers@, *id),
            },
    {
        let mut i: usize = 0;
        while i < self.peers.len()
            invariant
                self.wf(),
                i <= self.peers@.len(),
                forall|k: int| 0 <= k < i ==> self.peers@[k].id != *id,
            decreases self.peers@.len() - i,
        {
            if self.peers[i].id == *id {
                proof {
                    lemma_position(self.peers@, i as int);
                }
                return Some(i);
            }
            i += 1;
        }
        None
    }

    /// The record of a peer, if it is known.
    pub fn peer_info(&self, id: &PeerId) -> (info: Option<&PeerInfo>)
        requires
            self.wf(),
        ensures
            match info {
                Some(info) => self@.contains_key(*id) && self@[*id] == info@,
                None => !self@.contains_key(*id),
            },
    {
        match self.find(id) {
            Some(i) => Some(&self.peers[i].info),
            None => None,
        }
    }

    /// The number of peers the database knows.
    pub fn len(&self) -> (n: usize)
        requires
            self.wf(),
        ensures
            n == self@.dom().len(),
    {
        proof {
            lemma_count_of(self.peers@, Group::Connected, self.peers@.len() as int);
            assert(self.peers@.take(self.peers@.len() as int) =~= self.peers@);
        }
        self.peers.len()
    }

    fn holds(group: &Group, info: &PeerInfo) -> (yes: bool)
        ensures
            yes == group.holds(info@),
    {
        match group {
            Group::Connected => info.is_connected(),
            Group::Dialing => info.is_dialing(),
            Group::ConnectedOrDialing => info.is_connected_or_dialing(),
            Group::OutboundOnly => info.is_outbound_only(),
            Group::Disconnected => info.is_disconnected(),
            Group::Banned => info.is_banned(),
            Group::BannedAt(ip) => info.is_banned() && info.was_seen_at(ip),
            Group::ConnectedInbound => match info.connection_status() {
                PeerConnectionStatus::Connected { n_in, .. } => n_in > 0,
                _ => false,
            },
            Group::ConnectedClient(kind) => info.is_connected() && info.client().kind == *kind,
        }
    }

    /// The number of peers in a group.
    pub fn count(&self, group: Group) -> (n: usize)
        requires
            self.wf(),
        ensures
            n == members(self@, group).len(),
    {
        let mut n: usize = 0;
        let mut i: usize = 0;
        while i < self.peers.len()
            invariant
                i <= self.peers@.len(),
                n == count_of(self.peers@, group, i as int),
                n <= i,
            decreases self.peers@.len() - i,
        {
            if Self::holds(&group, &self.peers[i].info) {
                n += 1;
            }
            i += 1;
        }
        proof {
            lemma_count_of(self.peers@, group, self.peers@.len() as int);
            assert(self.peers@.take(self.peers@.len() as int) =~= self.peers@);
        }
        n
    }

    /// The number of connected peers.
    pub fn connected_peers(&self) -> (n: usize)
        requires
            self.wf(),
        ensures
            n == members(self@, Group::Connected).len(),
    {
        self.count(Group::Connected)
    }

    /// The number of peers that are connected or being dialed.
    pub fn connected_or_dialing_peers(&self) -> (n: usize)
        requires
            self.wf(),
        ensures
            n == members(self@, Group::ConnectedOrDialing).len(),
    {
        self.count(Group::ConnectedOrDialing)
    }

    /// The number of peers connected over connections that this node opened
    /// and no other.
    pub fn connected_outbound_only_peers(&self) -> (n: usize)
        requires
            self.wf(),
        ensures
            n == members(self@, Group::OutboundOnly).len(),
    {
        self.count(Group::OutboundOnly)
    }

    /// Whether the peer is connected.
    pub fn is_connected(&self, id: &PeerId) -> (yes: bool)
        requires
            self.wf(),
        ensures
            yes == (self@.contains_key(*id) && self@[*id].is_connected()),
    {
        match self.peer_info(id) {
            Some(info) => info.is_connected(),
            None => false,
        }
    }

    /// The status of a peer, if it is known.
    pub fn connection_status(&self, id: &PeerId) -> (status: Option<PeerConnectionStatus>)
        requires
            self.wf(),
        ensures
            status == if self@.contains_key(*id) {
                Some(self@[*id].connection_status)
            } else {
                None
            },
    {
        match self.peer_info(id) {
            Some(info) => Some(info.connection_status()),
            None => None,
        }
    }

    /// The score of a peer; that of a peer that is not known is the default.
    pub fn score(&self, id: &PeerId) -> (score: i64)
        requires
            self.wf(),
        ensures
            score == if self@.contains_key(*id) {
                self@[*id].score.spec_score()
            } else {
                crate::score::DEFAULT_SCORE as int
            },
    {
        proof {
            self.lemma_wf();
        }
        match self.peer_info(id) {
            Some(info) => info.score().score(),
            None => crate::score::DEFAULT_SCORE,
        }
    }

    /// Whether a peer is worth dialing.
    pub fn should_dial(&self, id: &PeerId) -> (yes: bool)
        requires
            self.wf(),
        ensures
            yes == should_dial_of(self@, *id),
    {
        match self.peer_info(id) {
            Some(info) => info.is_disconnected() || matches!(
                info.connection_status(),
                PeerConnectionStatus::Unknown
            ),
            None => true,
        }
    }

    /// Whether the address is banned.
    pub fn is_ip_banned(&self, ip: &IpAddress) -> (yes: bool)
        requires
            self.wf(),
        ensures
            yes == ip_is_banned(self@, *ip),
    {
        self.banned_peers_count.banned_at(ip) > BANNED_PEERS_PER_IP_THRESHOLD
    }

    /// The number of banned peers, as it is kept.
    pub fn banned_peers(&self) -> (n: usize)
        requires
            self.wf(),
        ensures
            n == members(self@, Group::Banned).len(),
    {
        self.banned_peers_count.banned_peers()
    }

    /// The number of disconnected peers, as it is kept.
    pub fn disconnected_peers(&self) -> (n: usize)
        requires
            self.wf(),
        ensures
            n == members(self@, Group::Disconnected).len(),
    {
        self.disconnected_peers
    }

    /// The number of banned peers that were seen at `ip`, as it is kept.
    pub fn banned_peers_at(&self, ip: &IpAddress) -> (n: usize)
        requires
            self.wf(),
        ensures
            n == members(self@, Group::BannedAt(*ip)).len(),
    {
        self.banned_peers_count.banned_at(ip)
    }

    /// Whether a peer may connect, and if not, why.
    pub fn ban_status(&self, id: &PeerId) -> (status: BanResult)
        requires
            self.wf(),
        ensures
            status == ban_status_of(self@, *id),
    {
        proof {
            self.lemma_wf();
        }
        match self.peer_info(id) {
            None => BanResult::NotBanned,
            Some(info) => {
                if info.score_state() == ScoreState::Banned {
                    BanResult::BannedPeer
                } else {
                    let ips = info.seen_ip_addresses();
                    let mut i: usize = 0;
                    assert(ips@.subrange(0, ips@.len() as int) =~= ips@);
                    while i < ips.len()
                        invariant
                            self.wf(),
                            self@.contains_key(*id),
                            self@[*id].score.spec_state() != ScoreState::Banned,
                            ips@ == self@[*id].seen_ips,
                            i <= ips@.len(),
                            first_banned_ip(self@, ips@) == first_banned_ip(
                                self@,
                                ips@.subrange(i as int, ips@.len() as int),
                            ),
                        decreases ips@.len() - i,
                    {
                        let ghost rest = ips@.subrange(i as int, ips@.len() as int);
                        assert(rest[0] == ips@[i as int]);
                        assert(rest.subrange(1, rest.len() as int) =~= ips@.subrange(
                            i + 1,
                            ips@.len() as int,
                        ));
                        if self.is_ip_banned(&ips[i]) {
                            return BanResult::BannedIp(ips[i]);
                        }
                        i += 1;
                    }
                    BanResult::NotBanned
                }
            },
        }
    }
}

impl PeerDB {
    /// Brings the running counts up to date after the record at place `i`
    /// has changed. `prior` is the database before the change, with which
    /// the counts went; `was_banned` and `was_disconnected` tell how the
    /// peer stood then.
    fn settle(&mut self, i: usize, was_banned: bool, was_disconnected: bool, Ghost(prior): Ghost<PeerMap>)
        requires
            old(self).records_wf(),
            i < old(self).peers@.len(),
            old(self).counts_match(prior),
            prior.dom().finite(),
            old(self)@ == prior.insert(
                old(self).peers@[i as int].id,
                old(self).peers@[i as int].info@,
            ),
            was_banned == (prior.contains_key(old(self).peers@[i as int].id)
                && prior[old(self).peers@[i as int].id].is_banned()),
            was_disconnected == (prior.contains_key(old(self).peers@[i as int].id)
                && prior[old(self).peers@[i as int].id].is_disconnected()),
            was_banned ==> prior[old(self).peers@[i as int].id].seen_ips == old(
                self,
            ).peers@[i as int].info@.seen_ips,
        ensures
            final(self).wf(),
            final(self).peers == old(self).peers,
    {
        let ghost id = self.peers@[i as int].id;
        let ghost info = self.peers@[i as int].info@;
        let ghost now = self@;
        let known = self.peers.len();
        proof {
            lemma_count_of(self.peers@, Group::Connected, self.peers@.len() as int);
            assert(self.peers@.take(self.peers@.len() as int) =~= self.peers@);
            assert(now.dom().len() == known);
            lemma_members_insert(prior, Group::Banned, id, info);
            lemma_members_insert(prior, Group::Disconnected, id, info);
            lemma_members_finite(now, Group::Banned);
            lemma_members_finite(now, Group::Disconnected);
            assert forall|ip: IpAddress|
                members(now, Group::BannedAt(ip)).len() == #[trigger] members(
                    prior,
                    Group::BannedAt(ip),
                ).len() - (if was_banned && info.seen_ips.contains(ip) {
                    1int
                } else {
                    0int
                }) + (if info.is_banned() && info.seen_ips.contains(ip) {
                    1int
                } else {
                    0int
                }) && members(now, Group::BannedAt(ip)).len() <= usize::MAX && (was_banned
                    && info.seen_ips.contains(ip) ==> members(prior, Group::BannedAt(ip)).len()
                    > 0) by {
                lemma_members_insert(prior, Group::BannedAt(ip), id, info);
                lemma_members_finite(now, Group::BannedAt(ip));
                lemma_members_finite(prior, Group::BannedAt(ip));
                assert(members(now, Group::BannedAt(ip)).len() <= usize::MAX);
                if was_banned && info.seen_ips.contains(ip) {
                    assert(members(prior, Group::BannedAt(ip)).contains(id));
                    assert(members(prior, Group::BannedAt(ip)).len() > 0);
                }
                assert(members(prior, Group::BannedAt(ip)).contains(id) == (was_banned
                    && info.seen_ips.contains(ip)));
                assert(Group::BannedAt(ip).holds(info) == (info.is_banned()
                    && info.seen_ips.contains(ip)));
            }
            lemma_members_finite(prior, Group::Banned);
            lemma_members_finite(prior, Group::Disconnected);
            if was_banned {
                assert(members(prior, Group::Banned).contains(id));
            }
            if was_disconnected {
                assert(members(prior, Group::Disconnected).contains(id));
            }
        }
        let is_banned = self.peers[i].info.is_banned();
        let is_disconnected = self.peers[i].info.is_disconnected();
        if was_disconnected && !is_disconnected {
            self.disconnected_peers = self.disconnected_peers - 1;
        } else if !was_disconnected && is_disconnected {
            self.disconnected_peers = self.disconnected_peers + 1;
        }
        if was_banned && !is_banned {
            proof {
                assert forall|k: int| 0 <= k < info.seen_ips.len() implies self.banned_peers_count.at(
                    #[trigger] info.seen_ips[k],
                ) > 0 by {
                    assert(info.seen_ips.contains(info.seen_ips[k]));
                    assert(members(prior, Group::BannedAt(info.seen_ips[k])).len() > 0);
                }
            }
            self.banned_peers_count.remove_banned_peer(self.peers[i].info.seen_ip_addresses());
        } else if !was_banned && is_banned {
            proof {
                assert forall|k: int| 0 <= k < info.seen_ips.len() implies self.banned_peers_count.at(
                    #[trigger] info.seen_ips[k],
                ) < usize::MAX by {
                    assert(info.seen_ips.contains(info.seen_ips[k]));
                    assert(members(prior, Group::BannedAt(info.seen_ips[k])).len() + 1
                        == members(now, Group::BannedAt(info.seen_ips[k])).len());
                }
            }
            self.banned_peers_count.add_banned_peer(self.peers[i].info.seen_ip_addresses());
        }
        proof {
            assert forall|ip: IpAddress| #[trigger]
                self.banned_peers_count.at(ip) == members(now, Group::BannedAt(ip)).len() by {
                assert(members(now, Group::BannedAt(ip)).len() == members(
                    prior,
                    Group::BannedAt(ip),
                ).len() - (if was_banned && info.seen_ips.contains(ip) {
                    1int
                } else {
                    0int
                }) + (if info.is_banned() && info.seen_ips.contains(ip) {
                    1int
                } else {
                    0int
                }));
            }
        }
    }

    /// Brings the running counts up to date after a record was taken out
    /// of the database. `prior` is the database before that.
    fn settle_removed(&mut self, entry: &PeerEntry, Ghost(prior): Ghost<PeerMap>)
        requires
            old(self).records_wf(),
            old(self).counts_match(prior),
            prior.dom().finite(),
            prior.contains_key(entry.id),
            prior[entry.id] == entry.info@,
            entry.info@.wf(),
            old(self)@ == prior.remove(entry.id),
        ensures
            final(self).wf(),
            final(self).peers == old(self).peers,
    {
        let ghost id = entry.id;
        let ghost info = entry.info@;
        let ghost now = self@;
        proof {
            lemma_members_remove(prior, Group::Banned, id);
            lemma_members_remove(prior, Group::Disconnected, id);
            lemma_members_finite(prior, Group::Banned);
            lemma_members_finite(prior, Group::Disconnected);
            assert forall|ip: IpAddress|
                members(now, Group::BannedAt(ip)).len() == #[trigger] members(
                    prior,
                    Group::BannedAt(ip),
                ).len() - (if info.is_banned() && info.seen_ips.contains(ip) {
                    1int
                } else {
                    0int
                }) && (info.is_banned() && info.seen_ips.contains(ip) ==> members(
                    prior,
                    Group::BannedAt(ip),
                ).len() > 0) by {
                lemma_members_remove(prior, Group::BannedAt(ip), id);
                lemma_members_finite(prior, Group::BannedAt(ip));
                if info.is_banned() && info.seen_ips.contains(ip) {
                    assert(members(prior, Group::BannedAt(ip)).contains(id));
                }
            }
            if info.is_banned() {
                assert(members(prior, Group::Banned).contains(id));
            }
            if info.is_disconnected() {
                assert(members(prior, Group::Disconnected).contains(id));
            }
        }
        if entry.info.is_disconnected() {
            self.disconnected_peers = self.disconnected_peers - 1;
        }
        if entry.info.is_banned() {
            proof {
                assert forall|k: int| 0 <= k < info.seen_ips.len() implies self.banned_peers_count.at(
                    #[trigger] info.seen_ips[k],
                ) > 0 by {
                    assert(info.seen_ips.contains(info.seen_ips[k]));
                    assert(members(prior, Group::BannedAt(info.seen_ips[k])).len() > 0);
                }
            }
            self.banned_peers_count.remove_banned_peer(entry.info.seen_ip_addresses());
        }
        proof {
            assert forall|ip: IpAddress| #[trigger]
                self.banned_peers_count.at(ip) == members(now, Group::BannedAt(ip)).len() by {
                assert(members(now, Group::BannedAt(ip)).len() == members(
                    prior,
                    Group::BannedAt(ip),
                ).len() - (if info.is_banned() && info.seen_ips.contains(ip) {
                    1int
                } else {
                    0int
                }));
            }
        }
    }
}

/// A copy of a list of addresses.
pub fn copy_ips(ips: &Vec<IpAddress>) -> (copy: Vec<IpAddress>)
    ensures
        copy@ == ips@,
{
    let mut copy: Vec<IpAddress> = Vec::new();
    let mut i: usize = 0;
    while i < ips.len()
        invariant
            i <= ips@.len(),
            copy@ == ips@.take(i as int),
        decreases ips@.len() - i,
    {
        copy.push(ips[i]);
        assert(ips@.take(i + 1) =~= ips@.take(i as int).push(ips@[i as int]));
        i += 1;
    }
    assert(ips@.take(ips@.len() as int) =~= ips@);
    copy
}

impl PeerDB {
    /// The place of a peer's record; a peer that is not known gets the
    /// record of a peer first heard of at second `now`.
    fn place(&mut self, id: &PeerId, now: u64) -> (i: usize)
        requires
            old(self).wf(),
        ensures
            final(self).wf(),
            i < final(self).peers@.len(),
            final(self).peers@[i as int].id == *id,
            final(self).peers@[i as int].info@ == record(old(self)@, *id, now),
            final(self)@ == old(self)@.insert(*id, record(old(self)@, *id, now)),
    {
        match self.find(id) {
            Some(i) => {
                assert(self@ =~= old(self)@.insert(*id, record(old(self)@, *id, now)));
                i
            },
            None => {
                let entry = PeerEntry { id: *id, info: PeerInfo::new(now) };
                proof {
                    self.lemma_wf();
                    lemma_map_of_push(self.peers@, entry);
                }
                self.peers.push(entry);
                let i = self.peers.len() - 1;
                self.settle(i, false, false, Ghost(old(self)@));
                i
            },
        }
    }

    /// The addresses at which no banned peer is seen any more, among those
    /// given.
    fn released(&self, ips: &Vec<IpAddress>) -> (free: Vec<IpAddress>)
        requires
            self.wf(),
        ensures
            free@ == released_ips(self@, ips@),
    {
        let mut free: Vec<IpAddress> = Vec::new();
        let mut i: usize = 0;
        assert(ips@.take(0) =~= Seq::<IpAddress>::empty());
        while i < ips.len()
            invariant
                self.wf(),
                i <= ips@.len(),
                free@ == ips@.take(i as int).filter(is_released(self@)),
            decreases ips@.len() - i,
        {
            let ip = ips[i];
            proof {
                assert(ips@.take(i + 1) =~= ips@.take(i as int).push(ip));
                ips@.take(i as int).lemma_filter_push(ip, is_released(self@));
            }
            if self.banned_peers_count.banned_at(&ip) == 0 {
                free.push(ip);
            }
            i += 1;
        }
        assert(ips@.take(ips@.len() as int) =~= ips@);
        free
    }

    /// What a change of score led to, told by the record at place `i` as it
    /// is now and by what it was before.
    fn result_at(
        &self,
        i: usize,
        transition: ScoreTransition,
        status_before: PeerConnectionStatus,
    ) -> (result: ScoreUpdateResult)
        requires
            self.wf(),
            i < self.peers@.len(),
        ensures
            result@ == match transition {
                ScoreTransition::NoAction => ScoreUpdateResultView::NoAction,
                ScoreTransition::Disconnected => ScoreUpdateResultView::Disconnect,
                ScoreTransition::Banned => ScoreUpdateResultView::Ban(
                    ban_operation_of(self.peers@[i as int].info@.with_status(status_before)),
                ),
                ScoreTransition::Unbanned => ScoreUpdateResultView::Unbanned(
                    released_ips(self@, self.peers@[i as int].info@.seen_ips),
                ),
            },
    {
        match transition {
            ScoreTransition::NoAction => ScoreUpdateResult::NoAction,
            ScoreTransition::Disconnected => ScoreUpdateResult::Disconnect,
            ScoreTransition::Banned => match status_before {
                PeerConnectionStatus::Connected { .. } => ScoreUpdateResult::Ban(
                    BanOperation::DisconnectThePeer,
                ),
                PeerConnectionStatus::Disconnecting { .. } => ScoreUpdateResult::Ban(
                    BanOperation::PeerDisconnecting,
                ),
                _ => ScoreUpdateResult::Ban(
                    BanOperation::ReadyToBan(copy_ips(self.peers[i].info.seen_ip_addresses())),
                ),
            },
            ScoreTransition::Unbanned => ScoreUpdateResult::Unbanned(
                self.released(self.peers[i].info.seen_ip_addresses()),
            ),
        }
    }

    /// Gives the peer at place `i` the score `score`.
    fn rescore_at(&mut self, i: usize, score: Score, now: u64) -> (change: (
        ScoreTransition,
        PeerConnectionStatus,
    ))
        requires
            old(self).wf(),
            i < old(self).peers@.len(),
            score.wf(),
        ensures
            final(self).wf(),
            final(self).peers@.len() == old(self).peers@.len(),
            forall|j: int|
                0 <= j < old(self).peers@.len() && j != i ==> final(self).peers@[j] == old(
                    self,
                ).peers@[j],
            final(self).peers@[i as int].id == old(self).peers@[i as int].id,
            final(self).peers@[i as int].info@ == old(self).peers@[i as int].info@.rescored(
                score,
                now,
            ),
            final(self)@ == old(self)@.insert(
                old(self).peers@[i as int].id,
                old(self).peers@[i as int].info@.rescored(score, now),
            ),
            change.0 == old(self).peers@[i as int].info@.with_score(score).transition(
                old(self).peers@[i as int].info@.score.spec_state(),
            ),
            change.1 == old(self).peers@[i as int].info@.connection_status,
    {
        let ghost before = self.peers@;
        let ghost prior = self@;
        let status_before = self.peers[i].info.connection_status();
        let was_banned = self.peers[i].info.is_banned();
        let was_disconnected = self.peers[i].info.is_disconnected();
        proof {
            self.lemma_wf();
            lemma_position(before, i as int);
        }
        let transition = self.peers[i].info.rescore(score, now);
        proof {
            lemma_map_of_update(before, self.peers@, i as int);
        }
        self.settle(i, was_banned, was_disconnected, Ghost(prior));
        (transition, status_before)
    }

    /// Gives a peer the score `score` and tells what came of it.
    fn rescore(&mut self, id: &PeerId, score: Score, now: u64) -> (result: ScoreUpdateResult)
        requires
            old(self).wf(),
            score.wf(),
        ensures
            final(self).wf(),
            final(self)@ == rescored(old(self)@, *id, score, now),
            result@ == rescored_result(old(self)@, *id, score, now, final(self)@),
    {
        let i = self.place(id, now);
        let change = self.rescore_at(i, score, now);
        assert(self@ =~= rescored(old(self)@, *id, score, now));
        self.result_at(i, change.0, change.1)
    }

    /// The node dials a peer. The peer must not be banned.
    pub fn dialing_peer(&mut self, id: &PeerId, enr: Option<Enr>, now: u64)
        requires
            old(self).wf(),
            !record(old(self)@, *id, now).is_banned(),
        ensures
            final(self).wf(),
            final(self)@ == dialed(
                old(self)@,
                *id,
                match enr {
                    Some(enr) => Some(enr@),
                    None => None,
                },
                now,
            ),
    {
        let i = self.place(id, now);
        let ghost before = self.peers@;
        let ghost prior = self@;
        let was_disconnected = self.peers[i].info.is_disconnected();
        proof {
            self.lemma_wf();
            lemma_position(before, i as int);
        }
        self.peers[i].info.set_enr(enr);
        self.peers[i].info.dial(now);
        proof {
            lemma_map_of_update(before, self.peers@, i as int);
        }
        self.settle(i, false, was_disconnected, Ghost(prior));
        proof {
            assert(self@ =~= dialed(
                old(self)@,
                *id,
                match enr {
                    Some(enr) => Some(enr@),
                    None => None,
                },
                now,
            ));
        }
    }

    fn connect(
        &mut self,
        id: &PeerId,
        direction: ConnectionDirection,
        address: Multiaddr,
        enr: Option<Enr>,
        now: u64,
    )
        requires
            old(self).wf(),
            !record(old(self)@, *id, now).is_banned(),
        ensures
            final(self).wf(),
            final(self)@ == connected(
                old(self)@,
                *id,
                direction,
                address@.ip,
                match enr {
                    Some(enr) => Some(enr@),
                    None => None,
                },
                now,
            ),
    {
        let i = self.place(id, now);
        let ghost before = self.peers@;
        let ghost prior = self@;
        let was_disconnected = self.peers[i].info.is_disconnected();
        proof {
            self.lemma_wf();
            lemma_position(before, i as int);
        }
        self.peers[i].info.set_enr(enr);
        self.peers[i].info.connect(direction);
        self.peers[i].info.add_seen_ip(address.ip);
        proof {
            lemma_map_of_update(before, self.peers@, i as int);
        }
        self.settle(i, false, was_disconnected, Ghost(prior));
        proof {
            assert(self@ =~= connected(
                old(self)@,
                *id,
                direction,
                address@.ip,
                match enr {
                    Some(enr) => Some(enr@),
                    None => None,
                },
                now,
            ));
        }
    }

    /// A peer has connected to this node from `address`. The peer must not
    /// be banned.
    pub fn connect_ingoing(&mut self, id: &PeerId, address: Multiaddr, enr: Option<Enr>, now: u64)
        requires
            old(self).wf(),
            !record(old(self)@, *id, now).is_banned(),
        ensures
            final(self).wf(),
            final(self)@ == connected(
                old(self)@,
                *id,
                ConnectionDirection::Incoming,
                address@.ip,
                match enr {
                    Some(enr) => Some(enr@),
                    None => None,
                },
                now,
            ),
    {
        self.connect(id, ConnectionDirection::Incoming, address, enr, now)
    }

    /// This node has connected to a peer at `address`. The peer must not be
    /// banned.
    pub fn connect_outgoing(&mut self, id: &PeerId, address: Multiaddr, enr: Option<Enr>, now: u64)
        requires
            old(self).wf(),
            !record(old(self)@, *id, now).is_banned(),
        ensures
            final(self).wf(),
            final(self)@ == connected(
                old(self)@,
                *id,
                ConnectionDirection::Outgoing,
                address@.ip,
                match enr {
                    Some(enr) => Some(enr@),
                    None => None,
                },
                now,
            ),
    {
        self.connect(id, ConnectionDirection::Outgoing, address, enr, now)
    }

    /// A peer is being disconnected. Telling it twice changes nothing more.
    pub fn notify_disconnecting(&mut self, id: &PeerId, to_ban: bool, now: u64)
        requires
            old(self).wf(),
        ensures
            final(self).wf(),
            final(self)@ == disconnecting(old(self)@, *id, to_ban, now),
    {
        let i = self.place(id, now);
        let ghost before = self.peers@;
        let ghost prior = self@;
        let was_banned = self.peers[i].info.is_banned();
        let was_disconnected = self.peers[i].info.is_disconnected();
        proof {
            self.lemma_wf();
            lemma_position(before, i as int);
        }
        self.peers[i].info.start_disconnecting(to_ban);
        proof {
            lemma_map_of_update(before, self.peers@, i as int);
        }
        self.settle(i, was_banned, was_disconnected, Ghost(prior));
        proof {
            assert(self@ =~= disconnecting(old(self)@, *id, to_ban, now));
        }
    }

    /// Reports a peer for `action` and tells what came of it. A peer that is
    /// not known gets a record first.
    pub fn report_peer(
        &mut self,
        id: &PeerId,
        action: PeerAction,
        source: ReportSource,
        msg: &str,
        now: u64,
    ) -> (result: ScoreUpdateResult)
        requires
            old(self).wf(),
        ensures
            final(self).wf(),
            final(self)@ == reported(old(self)@, *id, action, now),
            result@ == rescored_result(
                old(self)@,
                *id,
                record(old(self)@, *id, now).score.spec_apply_peer_action(action),
                now,
                final(self)@,
            ),
    {
        proof {
            old(self).lemma_wf();
        }
        let mut score = match self.peer_info(id) {
            Some(info) => info.score(),
            None => Score::new(now),
        };
        score.apply_peer_action(action);
        self.rescore(id, score, now)
    }

    /// Adds `delta` to the score this node gives a peer and tells what came
    /// of it.
    pub fn add_to_score(&mut self, id: &PeerId, delta: i64, now: u64) -> (result: ScoreUpdateResult)
        requires
            old(self).wf(),
        ensures
            final(self).wf(),
            final(self)@ == rescored(
                old(self)@,
                *id,
                record(old(self)@, *id, now).score.spec_add(delta as int),
                now,
            ),
            result@ == rescored_result(
                old(self)@,
                *id,
                record(old(self)@, *id, now).score.spec_add(delta as int),
                now,
                final(self)@,
            ),
    {
        proof {
            old(self).lemma_wf();
        }
        let mut score = match self.peer_info(id) {
            Some(info) => info.score(),
            None => Score::new(now),
        };
        score.add(delta);
        self.rescore(id, score, now)
    }

    /// Takes the gossip layer's score of a peer and tells what came of it.
    pub fn set_gossipsub_score(&mut self, id: &PeerId, gossipsub_score: i64, now: u64) -> (result:
        ScoreUpdateResult)
        requires
            old(self).wf(),
        ensures
            final(self).wf(),
            final(self)@ == rescored(
                old(self)@,
                *id,
                record(old(self)@, *id, now).score.spec_with_gossipsub_score(gossipsub_score, false),
                now,
            ),
            result@ == rescored_result(
                old(self)@,
                *id,
                record(old(self)@, *id, now).score.spec_with_gossipsub_score(gossipsub_score, false),
                now,
                final(self)@,
            ),
    {
        proof {
            old(self).lemma_wf();
        }
        let mut score = match self.peer_info(id) {
            Some(info) => info.score(),
            None => Score::new(now),
        };
        score.update_gossipsub_score(gossipsub_score, false);
        self.rescore(id, score, now)
    }

    /// Notes that a duty needs a peer until second `until`. A peer that is
    /// not known gets a record first.
    pub fn update_min_ttl(&mut self, id: &PeerId, until: u64, now: u64)
        requires
            old(self).wf(),
        ensures
            final(self).wf(),
            final(self)@ == old(self)@.insert(*id, record(old(self)@, *id, now).with_min_ttl(until)),
    {
        let i = self.place(id, now);
        let ghost before = self.peers@;
        let ghost prior = self@;
        let was_banned = self.peers[i].info.is_banned();
        let was_disconnected = self.peers[i].info.is_disconnected();
        proof {
            self.lemma_wf();
            lemma_position(before, i as int);
        }
        self.peers[i].info.update_min_ttl(until);
        proof {
            lemma_map_of_update(before, self.peers@, i as int);
        }
        self.settle(i, was_banned, was_disconnected, Ghost(prior));
        proof {
            assert(self@ =~= old(self)@.insert(
                *id,
                record(old(self)@, *id, now).with_min_ttl(until),
            ));
        }
    }

    /// Notes how far a peer's chain is. A peer that is not known stays so.
    pub fn update_sync_status(&mut self, id: &PeerId, sync_status: SyncStatus)
        requires
            old(self).wf(),
        ensures
            final(self).wf(),
            final(self)@ == if old(self)@.contains_key(*id) {
                old(self)@.insert(*id, PeerInfoView { sync_status, ..old(self)@[*id] })
            } else {
                old(self)@
            },
    {
        match self.find(id) {
            Some(i) => {
                let ghost before = self.peers@;
                let ghost prior = self@;
                let was_banned = self.peers[i].info.is_banned();
                let was_disconnected = self.peers[i].info.is_disconnected();
                proof {
                    self.lemma_wf();
                }
                self.peers[i].info.update_sync_status(sync_status);
                proof {
                    lemma_map_of_update(before, self.peers@, i as int);
                }
                self.settle(i, was_banned, was_disconnected, Ghost(prior));
            },
            None => {},
        }
    }
}

proof fn lemma_count_of_none(entries: Seq<PeerEntry>, group: Group, n: int)
    requires
        0 <= n <= entries.len(),
        forall|k: int| 0 <= k < n ==> !group.holds(#[trigger] entries[k].info@),
    ensures
        count_of(entries, group, n) == 0,
    decreases n,
{
    if n > 0 {
        lemma_count_of_none(entries, group, n - 1);
    }
}

impl PeerInfo {
    /// The second since which the record has its status; zero for a status
    /// that names none.
    pub fn since(&self) -> (since: u64)
        ensures
            since == since_of(self@),
    {
        match self.connection_status() {
            PeerConnectionStatus::Disconnected { since } => since,
            PeerConnectionStatus::Banned { since } => since,
            PeerConnectionStatus::Dialing { since } => since,
            _ => 0,
        }
    }
}

impl PeerDB {
    /// The place of the oldest peer of a group that is not empty.
    fn oldest(&self, group: &Group) -> (i: usize)
        requires
            self.wf(),
            members(self@, *group).len() > 0,
        ensures
            i < self.peers@.len(),
            group.holds(self.peers@[i as int].info@),
            forall|k: int|
                0 <= k < self.peers@.len() && group.holds(#[trigger] self.peers@[k].info@)
                    ==> since_of(self.peers@[i as int].info@) <= since_of(self.peers@[k].info@),
    {
        let mut found: Option<usize> = None;
        let mut i: usize = 0;
        while i < self.peers.len()
            invariant
                i <= self.peers@.len(),
                match found {
                    Some(best) => best < i && group.holds(self.peers@[best as int].info@)
                        && forall|k: int|
                        0 <= k < i && group.holds(#[trigger] self.peers@[k].info@) ==> since_of(
                            self.peers@[best as int].info@,
                        ) <= since_of(self.peers@[k].info@),
                    None => forall|k: int|
                        0 <= k < i ==> !group.holds(#[trigger] self.peers@[k].info@),
                },
            decreases self.peers@.len() - i,
        {
            if Self::holds(group, &self.peers[i].info) {
                let older = match found {
                    Some(best) => self.peers[i].info.since() < self.peers[best].info.since(),
                    None => true,
                };
                if older {
                    found = Some(i);
                }
            }
            i += 1;
        }
        match found {
            Some(i) => i,
            None => {
                proof {
                    lemma_count_of_none(self.peers@, *group, self.peers@.len() as int);
                    lemma_count_of(self.peers@, *group, self.peers@.len() as int);
                    assert(self.peers@.take(self.peers@.len() as int) =~= self.peers@);
                }
                0
            },
        }
    }

    /// Forgets the oldest peers of a group until the group has `cap` peers
    /// at most, and hands out the records it dropped.
    fn forget_oldest(&mut self, group: Group, cap: usize) -> (dropped: Vec<PeerEntry>)
        requires
            old(self).wf(),
        ensures
            final(self).wf(),
            oldest_forgotten(old(self)@, final(self)@, group, cap as nat),
            forall|k: int|
                0 <= k < dropped@.len() ==> old(self)@.contains_key(#[trigger] dropped@[k].id)
                    && !final(self)@.contains_key(dropped@[k].id) && dropped@[k].info@ == old(
                    self,
                )@[dropped@[k].id],
            forall|id: PeerId|
                old(self)@.contains_key(id) && !final(self)@.contains_key(id) ==> exists|k: int|
                    0 <= k < dropped@.len() && #[trigger] dropped@[k].id == id,
            forall|a: int, b: int|
                0 <= a < b < dropped@.len() ==> dropped@[a].id != dropped@[b].id,
    {
        let mut dropped: Vec<PeerEntry> = Vec::new();
        let mut count = match group {
            Group::Banned => self.banned_peers(),
            Group::Disconnected => self.disconnected_peers(),
            _ => self.count(group),
        };
        proof {
            old(self).lemma_wf();
        }
        while count > cap
            invariant
                self.wf(),
                self@.dom().finite(),
                old(self)@.dom().finite(),
                count == members(self@, group).len(),
                count + dropped@.len() == members(old(self)@, group).len(),
                dropped@.len() == 0 || count >= cap,
                forall|id: PeerId| #[trigger]
                    self@.contains_key(id) ==> old(self)@.contains_key(id) && self@[id] == old(
                        self,
                    )@[id],
                forall|id: PeerId|
                    old(self)@.contains_key(id) && !self@.contains_key(id) ==> group.holds(
                        #[trigger] old(self)@[id],
                    ),
                forall|gone: PeerId, kept: PeerId|
                    old(self)@.contains_key(gone) && !self@.contains_key(gone)
                        && self@.contains_key(kept) && group.holds(self@[kept]) ==> since_of(
                        #[trigger] old(self)@[gone],
                    ) <= since_of(#[trigger] self@[kept]),
                forall|k: int|
                    0 <= k < dropped@.len() ==> old(self)@.contains_key(#[trigger] dropped@[k].id)
                        && !self@.contains_key(dropped@[k].id) && dropped@[k].info@ == old(
                        self,
                    )@[dropped@[k].id],
                forall|id: PeerId|
                    old(self)@.contains_key(id) && !self@.contains_key(id) ==> exists|k: int|
                        0 <= k < dropped@.len() && #[trigger] dropped@[k].id == id,
                forall|a: int, b: int|
                    0 <= a < b < dropped@.len() ==> dropped@[a].id != dropped@[b].id,
            decreases count,
        {
            let i = self.oldest(&group);
            let ghost before = self.peers@;
            let ghost before_map = self@;
            let ghost before_dropped = dropped@;
            proof {
                lemma_map_of_remove(before, i as int);
                lemma_position(before, i as int);
                lemma_members_remove(before_map, group, before[i as int].id);
                lemma_members_finite(before_map, group);
            }
            let entry = self.peers.remove(i);
            let ghost gone_id = entry.id;
            assert(self@ == before_map.remove(gone_id));
            assert(forall|j: int|
                0 <= j < self.peers@.len() ==> (#[trigger] self.peers@[j]) == before[if j
                    < i {
                    j
                } else {
                    j + 1
                }]);
            self.settle_removed(&entry, Ghost(before_map));
            assert forall|gone: PeerId, kept: PeerId|
                old(self)@.contains_key(gone) && !self@.contains_key(gone)
                    && self@.contains_key(kept) && group.holds(
                    self@[kept],
                ) implies since_of(#[trigger] old(self)@[gone]) <= since_of(
                #[trigger] self@[kept],
            ) by {
                let kept_at = position(before, kept);
                lemma_position(before, kept_at);
                if gone == gone_id {
                } else {
                    assert(!before_map.contains_key(gone));
                    assert(before_map.contains_key(kept));
                }
            }
            dropped.push(entry);
            assert forall|id: PeerId|
                old(self)@.contains_key(id) && !self@.contains_key(id) implies exists|
                k: int,
            |
                0 <= k < dropped@.len() && #[trigger] dropped@[k].id == id by {
                if id == gone_id {
                    assert(dropped@[before_dropped.len() as int].id == id);
                } else {
                    assert(!before_map.contains_key(id));
                    let k = choose|k: int|
                        0 <= k < before_dropped.len() && #[trigger] before_dropped[k].id
                            == id;
                    assert(dropped@[k].id == id);
                }
            }
            count = count - 1;
        }
        dropped
    }
}

proof fn lemma_same_ids(before: Seq<PeerEntry>, after: Seq<PeerEntry>)
    requires
        ids_distinct(before),
        after.len() == before.len(),
        forall|k: int| 0 <= k < before.len() ==> (#[trigger] after[k]).id == before[k].id,
    ensures
        ids_distinct(after),
        map_of(after).dom() == map_of(before).dom(),
        forall|id: PeerId| #[trigger]
            map_of(before).contains_key(id) ==> 0 <= position(before, id) < before.len()
                && before[position(before, id)].id == id && map_of(before)[id]
                == before[position(before, id)].info@ && map_of(after)[id] == after[position(
                before,
                id,
            )].info@,
{
    assert forall|a: int, b: int| 0 <= a < b < after.len() implies after[a].id != after[b].id by {
        assert(after[a].id == before[a].id);
        assert(after[b].id == before[b].id);
    }
    assert forall|id: PeerId| map_of(after).contains_key(id) == map_of(before).contains_key(
        id,
    ) by {
        if holds_id(after, id) {
            let k = position(after, id);
            assert(before[k].id == id);
        }
        if holds_id(before, id) {
            let k = position(before, id);
            assert(after[k].id == id);
        }
    }
    assert(map_of(after).dom() =~= map_of(before).dom());
    assert forall|id: PeerId| #[trigger] map_of(before).contains_key(id) implies 0 <= position(
        before,
        id,
    ) < before.len() && before[position(before, id)].id == id && map_of(before)[id]
        == before[position(before, id)].info@ && map_of(after)[id] == after[position(
        before,
        id,
    )].info@ by {
        let k = position(before, id);
        lemma_position(before, k);
        assert(after[k].id == id);
        lemma_position(after, k);
    }
}

impl PeerDB {
    /// The connection to a peer is gone, or the dial of it failed.
    ///
    /// A peer that awaited its ban is now banned: the first result is the
    /// operation that bans it. After that the oldest banned and the oldest
    /// disconnected peers are forgotten where there are too many. The second
    /// result lists the banned peers that were forgotten, each with those of
    /// its addresses at which no banned peer is seen any more.
    pub fn inject_disconnect(&mut self, id: &PeerId, now: u64) -> (outcome: (
        Option<BanOperation>,
        Vec<(PeerId, Vec<IpAddress>)>,
    ))
        requires
            old(self).wf(),
        ensures
            final(self).wf(),
            old_records_forgotten(disconnected(old(self)@, *id, now), final(self)@),
            operation_view(outcome.0) == pending_ban(record(old(self)@, *id, now)),
            forall|k: int|
                0 <= k < outcome.1@.len() ==> {
                    let gone = (#[trigger] outcome.1@[k]).0;
                    let before = disconnected(old(self)@, *id, now);
                    &&& before.contains_key(gone)
                    &&& before[gone].is_banned()
                    &&& !final(self)@.contains_key(gone)
                    &&& outcome.1@[k].1@ == released_ips(final(self)@, before[gone].seen_ips)
                },
            forall|gone: PeerId|
                disconnected(old(self)@, *id, now).contains_key(gone) && disconnected(
                    old(self)@,
                    *id,
                    now,
                )[gone].is_banned() && !final(self)@.contains_key(gone) ==> exists|k: int|
                    0 <= k < outcome.1@.len() && (#[trigger] outcome.1@[k]).0 == gone,
            forall|a: int, b: int|
                0 <= a < b < outcome.1@.len() ==> outcome.1@[a].0 != outcome.1@[b].0,
    {
        let i = self.place(id, now);
        let ghost placed = self.peers@;
        let operation = match self.peers[i].info.connection_status() {
            PeerConnectionStatus::Disconnecting { to_ban: true } => Some(
                BanOperation::ReadyToBan(copy_ips(self.peers[i].info.seen_ip_addresses())),
            ),
            _ => None,
        };
        let ghost prior = self@;
        let was_banned = self.peers[i].info.is_banned();
        let was_disconnected = self.peers[i].info.is_disconnected();
        proof {
            self.lemma_wf();
            lemma_position(placed, i as int);
        }
        self.peers[i].info.disconnect(now);
        proof {
            lemma_map_of_update(placed, self.peers@, i as int);
        }
        self.settle(i, was_banned, was_disconnected, Ghost(prior));
        proof {
            assert(self@ =~= disconnected(old(self)@, *id, now));
        }
        let ghost before = self@;
        proof {
            self.lemma_wf();
        }
        let dropped = self.forget_oldest(Group::Banned, MAX_BANNED_PEERS);
        let ghost between = self@;
        proof {
            self.lemma_wf();
        }
        let _ = self.forget_oldest(Group::Disconnected, MAX_DC_PEERS);
        proof {
            assert(members(self@, Group::Banned) =~= members(between, Group::Banned));
            assert(members(between, Group::Disconnected) =~= members(before, Group::Disconnected));
        }
        let mut purged: Vec<(PeerId, Vec<IpAddress>)> = Vec::new();
        let mut k: usize = 0;
        while k < dropped.len()
            invariant
                self.wf(),
                k <= dropped@.len(),
                purged@.len() == k,
                forall|j: int|
                    0 <= j < k ==> (#[trigger] purged@[j]).0 == dropped@[j].id && purged@[j].1@
                        == released_ips(self@, dropped@[j].info@.seen_ips),
            decreases dropped@.len() - k,
        {
            let free = self.released(dropped[k].info.seen_ip_addresses());
            purged.push((dropped[k].id, free));
            k += 1;
        }
        proof {
            assert forall|gone: PeerId|
                before.contains_key(gone) && before[gone].is_banned() && !self@.contains_key(
                    gone,
                ) implies exists|k: int|
                0 <= k < purged@.len() && (#[trigger] purged@[k]).0 == gone by {
                assert(!between.contains_key(gone));
                let k = choose|k: int| 0 <= k < dropped@.len() && #[trigger] dropped@[k].id == gone;
                assert(purged@[k].0 == gone);
            }
        }
        (operation, purged)
    }

    /// Gives up the dials that have run for longer than `DIAL_TIMEOUT`: the
    /// peers they went to are disconnected.
    pub fn cleanup_dialing_peers(&mut self, now: u64)
        requires
            old(self).wf(),
        ensures
            final(self).wf(),
            final(self)@ == cleaned_up(old(self)@, now),
            final(self)@.dom() == old(self)@.dom(),
            forall|id: PeerId| #[trigger]
                old(self)@.contains_key(id) ==> final(self)@[id] == if dial_timed_out(
                    old(self)@[id],
                    now,
                ) {
                    old(self)@[id].disconnected(now)
                } else {
                    old(self)@[id]
                },
    {
        let mut i: usize = 0;
        while i < self.peers.len()
            invariant
                self.wf(),
                i <= self.peers@.len(),
                self.peers@.len() == old(self).peers@.len(),
                forall|k: int|
                    0 <= k < self.peers@.len() ==> (#[trigger] self.peers@[k]).id == old(
                        self,
                    ).peers@[k].id,
                forall|k: int|
                    0 <= k < i ==> (#[trigger] self.peers@[k]).info@ == if dial_timed_out(
                        old(self).peers@[k].info@,
                        now,
                    ) {
                        old(self).peers@[k].info@.disconnected(now)
                    } else {
                        old(self).peers@[k].info@
                    },
                forall|k: int|
                    i <= k < self.peers@.len() ==> (#[trigger] self.peers@[k]) == old(
                        self,
                    ).peers@[k],
            decreases self.peers@.len() - i,
        {
            let timed_out = match self.peers[i].info.connection_status() {
                PeerConnectionStatus::Dialing { since } => now > DIAL_TIMEOUT && since < now
                    - DIAL_TIMEOUT,
                _ => false,
            };
            if timed_out {
                let ghost before = self.peers@;
                let ghost prior = self@;
                proof {
                    self.lemma_wf();
                    lemma_position(before, i as int);
                }
                self.peers[i].info.disconnect(now);
                proof {
                    lemma_map_of_update(before, self.peers@, i as int);
                }
                self.settle(i, false, false, Ghost(prior));
            }
            i += 1;
        }
        proof {
            lemma_same_ids(old(self).peers@, self.peers@);
            assert(self@ =~= cleaned_up(old(self)@, now));
        }
    }

    /// Applies the decay up to second `now` to every score and lets every
    /// record follow what its score then asks. The result tells, for each
    /// peer of which something is asked, what.
    pub fn update_scores(&mut self, now: u64) -> (results: Vec<(PeerId, ScoreUpdateResult)>)
        requires
            old(self).wf(),
        ensures
            final(self).wf(),
            final(self)@ == aged_all(old(self)@, now),
            aged_results(old(self)@, now, results_view(results@)),
            final(self)@.dom() == old(self)@.dom(),
            forall|id: PeerId| #[trigger]
                old(self)@.contains_key(id) ==> final(self)@[id] == aged(old(self)@[id], now),
            forall|k: int|
                0 <= k < results@.len() ==> {
                    let id = (#[trigger] results@[k]).0;
                    &&& old(self)@.contains_key(id)
                    &&& results@[k].1@ == aged_result(old(self)@, id, now, final(self)@)
                    &&& !(results@[k].1@ is NoAction)
                },
            forall|id: PeerId|
                old(self)@.contains_key(id) && !(aged_result(old(self)@, id, now, final(self)@)
                    is NoAction) ==> exists|k: int|
                    0 <= k < results@.len() && (#[trigger] results@[k]).0 == id,
            forall|a: int, b: int|
                0 <= a < b < results@.len() ==> results@[a].0 != results@[b].0,
    {
        let mut changes: Vec<(usize, ScoreTransition, PeerConnectionStatus)> = Vec::new();
        let mut i: usize = 0;
        while i < self.peers.len()
            invariant
                self.wf(),
                old(self).wf(),
                i <= self.peers@.len(),
                self.peers@.len() == old(self).peers@.len(),
                forall|k: int|
                    0 <= k < self.peers@.len() ==> (#[trigger] self.peers@[k]).id == old(
                        self,
                    ).peers@[k].id,
                forall|k: int|
                    0 <= k < i ==> (#[trigger] self.peers@[k]).info@ == aged(
                        old(self).peers@[k].info@,
                        now,
                    ),
                forall|k: int|
                    i <= k < self.peers@.len() ==> (#[trigger] self.peers@[k]) == old(
                        self,
                    ).peers@[k],
                forall|c: int|
                    0 <= c < changes@.len() ==> {
                        let at = (#[trigger] changes@[c]).0 as int;
                        let was = old(self).peers@[at].info@;
                        &&& 0 <= at < i
                        &&& changes@[c].1 == was.with_score(
                            was.score.spec_update_at(now),
                        ).transition(was.score.spec_state())
                        &&& changes@[c].1 != ScoreTransition::NoAction
                        &&& changes@[c].2 == was.connection_status
                    },
                forall|k: int|
                    0 <= k < i && old(self).peers@[k].info@.with_score(
                        old(self).peers@[k].info@.score.spec_update_at(now),
                    ).transition(old(self).peers@[k].info@.score.spec_state())
                        != ScoreTransition::NoAction ==> exists|c: int|
                        0 <= c < changes@.len() && (#[trigger] changes@[c]).0 == k,
                forall|a: int, b: int|
                    0 <= a < b < changes@.len() ==> changes@[a].0 < changes@[b].0,
            decreases self.peers@.len() - i,
        {
            let mut score = self.peers[i].info.score();
            score.update_at(now);
            let ghost before_changes = changes@;
            let change = self.rescore_at(i, score, now);
            match change.0 {
                ScoreTransition::NoAction => {},
                _ => {
                    changes.push((i, change.0, change.1));
                    assert(changes@[before_changes.len() as int].0 == i);
                },
            }
            assert forall|k: int|
                0 <= k < i + 1 && old(self).peers@[k].info@.with_score(
                    old(self).peers@[k].info@.score.spec_update_at(now),
                ).transition(old(self).peers@[k].info@.score.spec_state())
                    != ScoreTransition::NoAction implies exists|c: int|
                0 <= c < changes@.len() && (#[trigger] changes@[c]).0 == k by {
                if k < i {
                    let c = choose|c: int|
                        0 <= c < before_changes.len() && (#[trigger] before_changes[c]).0 == k;
                    assert(changes@[c].0 == k);
                }
            }
            i += 1;
        }
        proof {
            lemma_same_ids(old(self).peers@, self.peers@);
            assert(self@ =~= aged_all(old(self)@, now));
        }
        let mut results: Vec<(PeerId, ScoreUpdateResult)> = Vec::new();
        let mut c: usize = 0;
        while c < changes.len()
            invariant
                self.wf(),
                c <= changes@.len(),
                results@.len() == c,
                forall|j: int|
                    0 <= j < changes@.len() ==> (#[trigger] changes@[j]).0 < self.peers@.len(),
                forall|j: int|
                    0 <= j < c ==> {
                        let at = changes@[j].0 as int;
                        &&& (#[trigger] results@[j]).0 == self.peers@[at].id
                        &&& results@[j].1@ == match changes@[j].1 {
                            ScoreTransition::NoAction => ScoreUpdateResultView::NoAction,
                            ScoreTransition::Disconnected => ScoreUpdateResultView::Disconnect,
                            ScoreTransition::Banned => ScoreUpdateResultView::Ban(
                                ban_operation_of(self.peers@[at].info@.with_status(changes@[j].2)),
                            ),
                            ScoreTransition::Unbanned => ScoreUpdateResultView::Unbanned(
                                released_ips(self@, self.peers@[at].info@.seen_ips),
                            ),
                        }
                    },
            decreases changes@.len() - c,
        {
            let at = changes[c].0;
            let result = self.result_at(at, changes[c].1, changes[c].2);
            results.push((self.peers[at].id, result));
            c += 1;
        }
        proof {
            assert forall|k: int| 0 <= k < results@.len() implies {
                let id = (#[trigger] results@[k]).0;
                &&& old(self)@.contains_key(id)
                &&& results@[k].1@ == aged_result(old(self)@, id, now, self@)
                &&& !(results@[k].1@ is NoAction)
            } by {
                let at = changes@[k].0 as int;
                lemma_position(old(self).peers@, at);
                assert(self.peers@[at].id == old(self).peers@[at].id);
            }
            assert forall|id: PeerId|
                old(self)@.contains_key(id) && !(aged_result(old(self)@, id, now, self@)
                    is NoAction) implies exists|k: int|
                0 <= k < results@.len() && (#[trigger] results@[k]).0 == id by {
                let at = position(old(self).peers@, id);
                lemma_position(old(self).peers@, at);
                let c = choose|c: int| 0 <= c < changes@.len() && (#[trigger] changes@[c]).0 == at;
                assert(results@[c].0 == self.peers@[at].id);
                assert(self.peers@[at].id == old(self).peers@[at].id);
            }
            assert forall|a: int, b: int| 0 <= a < b < results@.len() implies results@[a].0
                != results@[b].0 by {
                assert(changes@[a].0 < changes@[b].0);
            }
            let told = results_view(results@);
            assert forall|id: PeerId|
                old(self)@.contains_key(id) && !(aged_result(old(self)@, id, now, self@)
                    is NoAction) implies exists|k: int|
                0 <= k < told.len() && (#[trigger] told[k]).0 == id by {
                let k = choose|k: int| 0 <= k < results@.len() && (#[trigger] results@[k]).0 == id;
                assert(told[k].0 == id);
            }
            assert forall|k: int| 0 <= k < told.len() implies {
                let id = (#[trigger] told[k]).0;
                &&& old(self)@.contains_key(id)
                &&& told[k].1 == aged_result(old(self)@, id, now, self@)
                &&& !(told[k].1 is NoAction)
            } by {
                assert(told[k] == (results@[k].0, results@[k].1@));
            }
        }
        results
    }
}

/// Whether the peer is at a chosen place below `limit`.
spec fn chosen_below(entries: Seq<PeerEntry>, chosen: Seq<bool>, limit: int, id: PeerId) -> bool {
    exists|k: int| 0 <= k < limit && #[trigger] chosen[k] && entries[k].id == id
}

impl PeerDB {
    /// The chosen peers, lowest score first. `chosen` says of every place
    /// whether the peer there is among them.
    fn ranked(&self, chosen: &Vec<bool>) -> (order: Vec<PeerId>)
        requires
            self.wf(),
            chosen@.len() == self.peers@.len(),
        ensures
            order@.no_duplicates(),
            ascending(self@, order@),
            forall|a: int| 0 <= a < order@.len() ==> self@.contains_key(#[trigger] order@[a]),
            forall|a: int|
                0 <= a < order@.len() ==> chosen_below(
                    self.peers@,
                    chosen@,
                    self.peers@.len() as int,
                    #[trigger] order@[a],
                ),
            forall|k: int|
                0 <= k < self.peers@.len() && #[trigger] chosen@[k] ==> order@.contains(
                    self.peers@[k].id,
                ),
    {
        let mut order: Vec<PeerId> = Vec::new();
        let mut keys: Vec<i64> = Vec::new();
        let mut i: usize = 0;
        proof {
            self.lemma_wf();
        }
        while i < self.peers.len()
            invariant
                self.wf(),
                chosen@.len() == self.peers@.len(),
                i <= self.peers@.len(),
                order@.len() == keys@.len(),
                order@.no_duplicates(),
                forall|a: int|
                    0 <= a < order@.len() ==> self@.contains_key(#[trigger] order@[a]) && keys@[a]
                        == self@[order@[a]].score.spec_score(),
                forall|a: int, b: int| 0 <= a < b < keys@.len() ==> keys@[a] <= keys@[b],
                forall|a: int|
                    0 <= a < order@.len() ==> chosen_below(
                        self.peers@,
                        chosen@,
                        i as int,
                        #[trigger] order@[a],
                    ),
                forall|k: int|
                    0 <= k < i && #[trigger] chosen@[k] ==> order@.contains(self.peers@[k].id),
                forall|id: PeerId| self@.contains_key(id) ==> (#[trigger] self@[id]).wf(),
            decreases self.peers@.len() - i,
        {
            let ghost before = order@;
            let ghost before_keys = keys@;
            if chosen[i] {
                let id = self.peers[i].id;
                proof {
                    lemma_position(self.peers@, i as int);
                }
                let key = self.peers[i].info.score().score();
                let mut at: usize = 0;
                while at < keys.len() && keys[at] <= key
                    invariant
                        at <= keys@.len(),
                        forall|a: int| 0 <= a < at ==> keys@[a] <= key,
                    decreases keys@.len() - at,
                {
                    at += 1;
                }
                assert(!before.contains(id)) by {
                    if before.contains(id) {
                        let a = choose|a: int| 0 <= a < before.len() && before[a] == id;
                        assert(chosen_below(self.peers@, chosen@, i as int, before[a]));
                        let k = choose|k: int|
                            0 <= k < i && #[trigger] chosen@[k] && self.peers@[k].id == before[a];
                        assert(self.peers@[k].id == self.peers@[i as int].id);
                    }
                }
                order.insert(at, id);
                keys.insert(at, key);
                proof {
                    assert forall|a: int| 0 <= a < order@.len() implies (#[trigger] order@[a]) == (
                    if a < at {
                        before[a]
                    } else if a == at {
                        id
                    } else {
                        before[a - 1]
                    }) && keys@[a] == (if a < at {
                        before_keys[a]
                    } else if a == at {
                        key
                    } else {
                        before_keys[a - 1]
                    }) by {}
                    assert forall|a: int, b: int| 0 <= a < b < order@.len() implies order@[a]
                        != order@[b] by {
                        let a0 = if a < at { a } else { a - 1 };
                        let b0 = if b < at { b } else { b - 1 };
                        if a != at && b != at {
                            assert(before[a0] != before[b0]);
                        } else if a == at {
                            assert(before.contains(before[b0]));
                        } else {
                            assert(before.contains(before[a0]));
                        }
                    }
                    assert forall|k: int| 0 <= k < i + 1 && #[trigger] chosen@[k] implies order@.contains(
                        self.peers@[k].id,
                    ) by {
                        if k == i {
                            assert(order@[at as int] == id);
                        } else {
                            let a0 = choose|a0: int|
                                0 <= a0 < before.len() && before[a0] == self.peers@[k].id;
                            let a = if a0 < at { a0 } else { a0 + 1 };
                            assert(order@[a] == self.peers@[k].id);
                        }
                    }
                }
            }
            proof {
                assert forall|a: int| 0 <= a < order@.len() implies chosen_below(
                    self.peers@,
                    chosen@,
                    i + 1,
                    #[trigger] order@[a],
                ) by {
                    if order@.len() == before.len() {
                        assert(chosen_below(self.peers@, chosen@, i as int, before[a]));
                        let k = choose|k: int|
                            0 <= k < i && #[trigger] chosen@[k] && self.peers@[k].id == before[a];
                        assert(chosen@[k] && self.peers@[k].id == order@[a]);
                    } else {
                        if order@[a] == self.peers@[i as int].id {
                            assert(chosen@[i as int]);
                        } else {
                            let a0 = choose|a0: int|
                                0 <= a0 < before.len() && before[a0] == order@[a];
                            assert(chosen_below(self.peers@, chosen@, i as int, before[a0]));
                            let k = choose|k: int|
                                0 <= k < i && #[trigger] chosen@[k] && self.peers@[k].id
                                    == before[a0];
                            assert(chosen@[k] && self.peers@[k].id == order@[a]);
                        }
                    }
                }
            }
            i += 1;
        }
        order
    }

    /// The connected peers, lowest score first: the order in which peers are
    /// given up when there are too many. Peers of one score stand in no
    /// order that is promised.
    pub fn worst_connected_peers(&self) -> (order: Vec<PeerId>)
        requires
            self.wf(),
        ensures
            order@.no_duplicates(),
            ascending(self@, order@),
            forall|id: PeerId|
                order@.contains(id) <==> self@.contains_key(id) && self@[id].is_connected(),
    {
        let mut chosen: Vec<bool> = Vec::new();
        let mut i: usize = 0;
        while i < self.peers.len()
            invariant
                i <= self.peers@.len(),
                chosen@.len() == i,
                forall|k: int|
                    0 <= k < i ==> chosen@[k] == (#[trigger] self.peers@[k]).info@.is_connected(),
            decreases self.peers@.len() - i,
        {
            chosen.push(self.peers[i].info.is_connected());
            i += 1;
        }
        let order = self.ranked(&chosen);
        proof {
            assert forall|id: PeerId|
                order@.contains(id) <==> self@.contains_key(id) && self@[id].is_connected() by {
                if order@.contains(id) {
                    let a = choose|a: int| 0 <= a < order@.len() && order@[a] == id;
                    assert(chosen_below(
                        self.peers@,
                        chosen@,
                        self.peers@.len() as int,
                        order@[a],
                    ));
                    let k = choose|k: int|
                        0 <= k < self.peers@.len() && #[trigger] chosen@[k] && self.peers@[k].id
                            == order@[a];
                    lemma_position(self.peers@, k);
                }
                if self@.contains_key(id) && self@[id].is_connected() {
                    let k = position(self.peers@, id);
                    lemma_position(self.peers@, k);
                    assert(chosen@[k]);
                    assert(order@.contains(self.peers@[k].id));
                }
            }
        }
        order
    }
}

impl PeerDB {
    /// The peers whose record `filter` accepts, highest score first. Peers
    /// of one score stand in no order that is promised.
    pub fn best_peers_by_status<F: Fn(&PeerInfo) -> bool>(&self, filter: F) -> (order: Vec<PeerId>)
        requires
            self.wf(),
            forall|info: &PeerInfo| filter.requires((info,)),
        ensures
            order@.no_duplicates(),
            descending(self@, order@),
            forall|a: int|
                0 <= a < order@.len() ==> self@.contains_key(#[trigger] order@[a]) && exists|
                    info: PeerInfo,
                |
                    info@ == self@[order@[a]] && filter.ensures((&info,), true),
            forall|id: PeerId|
                self@.contains_key(id) && !order@.contains(id) ==> exists|info: PeerInfo|
                    info@ == #[trigger] self@[id] && filter.ensures((&info,), false),
    {
        let mut chosen: Vec<bool> = Vec::new();
        let mut i: usize = 0;
        while i < self.peers.len()
            invariant
                i <= self.peers@.len(),
                chosen@.len() == i,
                forall|info: &PeerInfo| filter.requires((info,)),
                forall|k: int|
                    0 <= k < i ==> filter.ensures((&self.peers@[k].info,), #[trigger] chosen@[k]),
            decreases self.peers@.len() - i,
        {
            let accepted = filter(&self.peers[i].info);
            chosen.push(accepted);
            i += 1;
        }
        let ranked = self.ranked(&chosen);
        let mut order: Vec<PeerId> = Vec::new();
        let mut left: usize = ranked.len();
        while left > 0
            invariant
                left <= ranked@.len(),
                order@.len() == ranked@.len() - left,
                forall|a: int|
                    0 <= a < order@.len() ==> (#[trigger] order@[a]) == ranked@[ranked@.len() - 1
                        - a],
            decreases left,
        {
            left -= 1;
            order.push(ranked[left]);
        }
        proof {
            assert forall|a: int, b: int| 0 <= a < b < order@.len() implies order@[a]
                != order@[b] by {
                assert(ranked@[ranked@.len() - 1 - b] != ranked@[ranked@.len() - 1 - a]);
            }
            assert forall|a: int| 0 <= a < order@.len() implies self@.contains_key(
                #[trigger] order@[a],
            ) && exists|info: PeerInfo|
                info@ == self@[order@[a]] && filter.ensures((&info,), true) by {
                let r = ranked@.len() - 1 - a;
                assert(chosen_below(self.peers@, chosen@, self.peers@.len() as int, ranked@[r]));
                let k = choose|k: int|
                    0 <= k < self.peers@.len() && #[trigger] chosen@[k] && self.peers@[k].id
                        == ranked@[r];
                lemma_position(self.peers@, k);
                assert(self.peers@[k].info@ == self@[order@[a]] && filter.ensures(
                    (&self.peers@[k].info,),
                    true,
                ));
            }
            assert forall|id: PeerId|
                self@.contains_key(id) && !order@.contains(id) implies exists|info: PeerInfo|
                info@ == #[trigger] self@[id] && filter.ensures((&info,), false) by {
                let k = position(self.peers@, id);
                lemma_position(self.peers@, k);
                if chosen@[k] {
                    assert(ranked@.contains(self.peers@[k].id));
                    let r = choose|r: int| 0 <= r < ranked@.len() && ranked@[r] == id;
                    assert(order@[ranked@.len() - 1 - r] == id);
                }
                assert(self.peers@[k].info@ == self@[id] && filter.ensures(
                    (&self.peers@[k].info,),
                    false,
                ));
            }
        }
        order
    }
}

impl PeerDB {
    /// Takes what a peer says of itself: the addresses it listens on and its
    /// implementation. The result is `None` for a peer that is not known;
    /// else it holds the implementation that was known before, and whether
    /// that or the addresses have changed.
    pub fn identify(&mut self, id: &PeerId, listen_addrs: Vec<Multiaddr>, client: Client) -> (outcome:
        Option<(ClientKind, bool)>)
        requires
            old(self).wf(),
        ensures
            final(self).wf(),
            match outcome {
                None => !old(self)@.contains_key(*id) && final(self)@ == old(self)@,
                Some((previous, changed)) => {
                    &&& old(self)@.contains_key(*id)
                    &&& final(self)@ == old(self)@.insert(
                        *id,
                        PeerInfoView {
                            listening_addresses: listen_addrs@.map_values(|m: Multiaddr| m@),
                            client: client@,
                            ..old(self)@[*id]
                        },
                    )
                    &&& previous == old(self)@[*id].client.kind
                    &&& changed == (previous != client@.kind || old(self)@[*id].listening_addresses
                        != listen_addrs@.map_values(|m: Multiaddr| m@))
                },
            },
    {
        match self.find(id) {
            None => None,
            Some(i) => {
                let ghost before = self.peers@;
                let previous = self.peers[i].info.client().kind;
                let kind = client.kind;
                let same_addresses = addresses_equal(
                    self.peers[i].info.listening_addresses(),
                    &listen_addrs,
                );
                let ghost prior = self@;
                let was_banned = self.peers[i].info.is_banned();
                let was_disconnected = self.peers[i].info.is_disconnected();
                proof {
                    self.lemma_wf();
                }
                let _ = self.peers[i].info.set_listening_addresses(listen_addrs);
                self.peers[i].info.set_client(client);
                proof {
                    lemma_map_of_update(before, self.peers@, i as int);
                }
                self.settle(i, was_banned, was_disconnected, Ghost(prior));
                Some((previous, previous != kind || !same_addresses))
            },
        }
    }
}

/// Taking reports of the gossip layer changes neither who is known nor
/// where a peer was seen, and leaves untouched the peers of the reports that
/// are still to come.
proof fn lemma_gossip_applied(
    peers: PeerMap,
    scores: Seq<(PeerId, i64)>,
    n: int,
    allowance: nat,
    now: u64,
)
    requires
        0 <= n <= scores.len(),
    ensures
        gossip_applied(peers, scores, n, allowance, now).dom() == peers.dom(),
        forall|id: PeerId| #[trigger]
            peers.contains_key(id) ==> gossip_applied(peers, scores, n, allowance, now)[id].seen_ips
                == peers[id].seen_ips,
        forall|at: int|
            n <= at < scores.len() && report_counts(peers, scores, at) ==> gossip_applied(
                peers,
                scores,
                n,
                allowance,
                now,
            )[(#[trigger] scores[at]).0] == peers[scores[at].0],
    decreases n,
{
    if n > 0 {
        lemma_gossip_applied(peers, scores, n - 1, allowance, now);
        let before = gossip_applied(peers, scores, n - 1, allowance, now);
        let after = gossip_applied(peers, scores, n, allowance, now);
        assert(after.dom() =~= peers.dom());
        assert forall|at: int|
            n <= at < scores.len() && report_counts(peers, scores, at) implies after[(
        #[trigger] scores[at]).0] == peers[scores[at].0] by {
            assert(scores[n - 1].0 != scores[at].0);
        }
    }
}

impl PeerDB {
    /// Takes the scores that the gossip layer reports, and tells, for each
    /// peer of which something is then asked, what.
    ///
    /// Only the first report for a peer counts, and only for a connected
    /// peer. Of the negative reports, as many as a tenth of `target_peers`,
    /// rounded up, are let off, the least negative first: those are not
    /// held against their peers.
    pub fn update_gossipsub_scores(
        &mut self,
        target_peers: usize,
        scores: &Vec<(PeerId, i64)>,
        now: u64,
    ) -> (results: Vec<(PeerId, ScoreUpdateResult)>)
        requires
            old(self).wf(),
        ensures
            final(self).wf(),
            final(self)@ == gossip_applied(
                old(self)@,
                scores@,
                scores@.len() as int,
                crate::capacity::saturated(crate::capacity::ceil_percent(target_peers as nat, 10)) as nat,
                now,
            ),
            results_view(results@) == gossip_results(
                old(self)@,
                scores@,
                scores@.len() as int,
                crate::capacity::saturated(crate::capacity::ceil_percent(target_peers as nat, 10)) as nat,
                final(self)@,
            ),
    {
        let allowance = crate::capacity::scaled(target_peers, ALLOWED_NEGATIVE_GOSSIPSUB_PERCENT);
        let ghost allowed = allowance as nat;
        // Which reports count.
        let mut counting: Vec<bool> = Vec::new();
        let mut at: usize = 0;
        while at < scores.len()
            invariant
                self.wf(),
                at <= scores@.len(),
                counting@.len() == at,
                forall|j: int|
                    0 <= j < at ==> #[trigger] counting@[j] == report_counts(self@, scores@, j),
            decreases scores@.len() - at,
        {
            let id = scores[at].0;
            let mut first = true;
            let mut k: usize = 0;
            while k < at
                invariant
                    k <= at,
                    at < scores@.len(),
                    id == scores@[at as int].0,
                    first == forall|e: int| 0 <= e < k ==> (#[trigger] scores@[e]).0 != id,
                decreases at - k,
            {
                if scores[k].0 == id {
                    first = false;
                }
                k += 1;
            }
            counting.push(first && self.is_connected(&id));
            at += 1;
        }
        // Which of the negative reports are let off.
        let mut ignored: Vec<bool> = Vec::new();
        let mut at: usize = 0;
        while at < scores.len()
            invariant
                at <= scores@.len(),
                counting@.len() == scores@.len(),
                forall|j: int|
                    0 <= j < scores@.len() ==> #[trigger] counting@[j] == report_counts(
                        self@,
                        scores@,
                        j,
                    ),
                ignored@.len() == at,
                allowed == allowance as nat,
                forall|j: int|
                    0 <= j < at ==> #[trigger] ignored@[j] == let_off(self@, scores@, j, allowed),
            decreases scores@.len() - at,
        {
            let score = scores[at].1;
            let mut rank: usize = 0;
            let mut k: usize = 0;
            while k < scores.len()
                invariant
                    k <= scores@.len(),
                    at < scores@.len(),
                    score == scores@[at as int].1,
                    counting@.len() == scores@.len(),
                    forall|j: int|
                        0 <= j < scores@.len() ==> #[trigger] counting@[j] == report_counts(
                            self@,
                            scores@,
                            j,
                        ),
                    rank <= k,
                    rank == negative_rank(self@, scores@, at as int, k as int),
                decreases scores@.len() - k,
            {
                let other = scores[k].1;
                if counting[k] && other < 0 && (other > score || (other == score && k < at)) {
                    rank += 1;
                }
                k += 1;
            }
            ignored.push(score < 0 && rank < allowance);
            at += 1;
        }
        // The reports are taken.
        let mut plan: Vec<Option<(usize, ScoreTransition, PeerConnectionStatus)>> = Vec::new();
        let mut at: usize = 0;
        proof {
            old(self).lemma_wf();
        }
        while at < scores.len()
            invariant
                self.wf(),
                old(self).wf(),
                at <= scores@.len(),
                counting@.len() == scores@.len(),
                ignored@.len() == scores@.len(),
                forall|j: int|
                    0 <= j < scores@.len() ==> #[trigger] counting@[j] == report_counts(
                        old(self)@,
                        scores@,
                        j,
                    ),
                forall|j: int|
                    0 <= j < scores@.len() ==> #[trigger] ignored@[j] == let_off(
                        old(self)@,
                        scores@,
                        j,
                        allowed,
                    ),
                forall|id: PeerId| old(self)@.contains_key(id) ==> (#[trigger] old(self)@[id]).wf(),
                self@ == gossip_applied(old(self)@, scores@, at as int, allowed, now),
                self.peers@.len() == old(self).peers@.len(),
                forall|k: int|
                    0 <= k < self.peers@.len() ==> (#[trigger] self.peers@[k]).id == old(
                        self,
                    ).peers@[k].id,
                plan@.len() == at,
                forall|j: int|
                    0 <= j < at ==> match #[trigger] plan@[j] {
                        Some((i, transition, status)) => {
                            let was = old(self)@[scores@[j].0];
                            &&& report_counts(old(self)@, scores@, j)
                            &&& i < self.peers@.len()
                            &&& self.peers@[i as int].id == scores@[j].0
                            &&& transition == was.with_score(
                                gossip_score(old(self)@, scores@, j, allowed),
                            ).transition(was.score.spec_state())
                            &&& transition != ScoreTransition::NoAction
                            &&& status == was.connection_status
                        },
                        None => !report_counts(old(self)@, scores@, j) || old(
                            self,
                        )@[scores@[j].0].with_score(
                            gossip_score(old(self)@, scores@, j, allowed),
                        ).transition(old(self)@[scores@[j].0].score.spec_state())
                            == ScoreTransition::NoAction,
                    },
            decreases scores@.len() - at,
        {
            let mut noted: Option<(usize, ScoreTransition, PeerConnectionStatus)> = None;
            if counting[at] {
                let id = scores[at].0;
                proof {
                    lemma_gossip_applied(old(self)@, scores@, at as int, allowed, now);
                }
                if let Some(i) = self.find(&id) {
                    let mut score = self.peers[i].info.score();
                    score.update_gossipsub_score(scores[at].1, ignored[at]);
                    let change = self.rescore_at(i, score, now);
                    match change.0 {
                        ScoreTransition::NoAction => {},
                        _ => {
                            noted = Some((i, change.0, change.1));
                        },
                    }
                }
            }
            plan.push(noted);
            at += 1;
        }
        // What came of them.
        let mut results: Vec<(PeerId, ScoreUpdateResult)> = Vec::new();
        let mut at: usize = 0;
        proof {
            lemma_gossip_applied(old(self)@, scores@, scores@.len() as int, allowed, now);
        }
        while at < scores.len()
            invariant
                self.wf(),
                at <= scores@.len(),
                plan@.len() == scores@.len(),
                self@ == gossip_applied(old(self)@, scores@, scores@.len() as int, allowed, now),
                forall|id: PeerId| #[trigger]
                    old(self)@.contains_key(id) ==> self@[id].seen_ips == old(self)@[id].seen_ips,
                self@.dom() == old(self)@.dom(),
                forall|j: int|
                    0 <= j < scores@.len() ==> match #[trigger] plan@[j] {
                        Some((i, transition, status)) => {
                            let was = old(self)@[scores@[j].0];
                            &&& report_counts(old(self)@, scores@, j)
                            &&& i < self.peers@.len()
                            &&& self.peers@[i as int].id == scores@[j].0
                            &&& transition == was.with_score(
                                gossip_score(old(self)@, scores@, j, allowed),
                            ).transition(was.score.spec_state())
                            &&& transition != ScoreTransition::NoAction
                            &&& status == was.connection_status
                        },
                        None => !report_counts(old(self)@, scores@, j) || old(
                            self,
                        )@[scores@[j].0].with_score(
                            gossip_score(old(self)@, scores@, j, allowed),
                        ).transition(old(self)@[scores@[j].0].score.spec_state())
                            == ScoreTransition::NoAction,
                    },
                results_view(results@) == gossip_results(
                    old(self)@,
                    scores@,
                    at as int,
                    allowed,
                    self@,
                ),
            decreases scores@.len() - at,
        {
            let ghost before = results_view(results@);
            match plan[at] {
                Some((i, transition, status)) => {
                    proof {
                        lemma_position(self.peers@, i as int);
                    }
                    let result = self.result_at(i, transition, status);
                    results.push((scores[at].0, result));
                    assert(results_view(results@) =~= before.push((scores@[at as int].0, result@)));
                },
                None => {},
            }
            at += 1;
        }
        results
    }
}

} // verus!
