//! What holds of the peer manager whatever it is asked to do.

use crate::capacity;
use crate::manager::{
    discovered, lemma_discovered_keeps_status, pruned_to_target, PeerManager, Room,
};
use crate::peer_info::{PeerConnectionStatus, PeerInfoView};
use crate::peerdb::{
    ban_status_of, connected, disconnected, lemma_members_finite, members, old_records_forgotten,
    pending_ban, reported_result, BanOperationView, ScoreUpdateResultView,
    record, reported, rescored, should_dial_of, Group, PeerDB, PeerMap, MAX_BANNED_PEERS,
    MAX_DC_PEERS,
};
use crate::score::{
    action_delta, decayed, lemma_decay_shrinks, PeerAction, Score, ScoreState, BANNED_THRESHOLD,
};
use crate::types::{ConnectionDirection, IpAddress, PeerId};
use vstd::prelude::*;

verus! {

/// A sound record stays sound through every change that the database makes
/// to it.
pub proof fn lemma_records_stay_sound(
    info: PeerInfoView,
    score: Score,
    direction: ConnectionDirection,
    ip: Option<IpAddress>,
    to_ban: bool,
    until: u64,
    now: u64,
)
    requires
        info.wf(),
        score.wf(),
    ensures
        PeerInfoView::fresh(now).wf(),
        info.rescored(score, now).wf(),
        info.connected(direction).wf(),
        info.with_seen_ip(ip).wf(),
        info.dialing(now).wf(),
        info.disconnecting(to_ban).wf(),
        info.disconnected(now).wf(),
        info.with_min_ttl(until).wf(),
{
    match ip {
        Some(ip) if !info.seen_ips.contains(ip) => {
            let grown = info.seen_ips.push(ip);
            assert forall|a: int, b: int| 0 <= a < grown.len() && 0 <= b < grown.len() && a
                != b implies grown[a] != grown[b] by {
                if a == grown.len() - 1 {
                    assert(info.seen_ips.contains(grown[b]));
                } else if b == grown.len() - 1 {
                    assert(info.seen_ips.contains(grown[a]));
                }
            }
        },
        _ => {},
    }
}

/// A banned peer, and one that is banned once its disconnection is
/// through, has a score at the ban threshold or below.
pub proof fn lemma_banned_peers_have_ban_score(db: &PeerDB, id: PeerId)
    requires
        db.wf(),
        db@.contains_key(id),
        db@[id].is_banned() || db@[id].awaits_ban(),
    ensures
        db@[id].score.spec_score() <= BANNED_THRESHOLD,
{
    db.lemma_wf();
    assert(db@[id].wf());
}

/// A peer that is banned may not connect.
pub proof fn lemma_banned_peers_are_refused(db: &PeerDB, id: PeerId)
    requires
        db.wf(),
        db@.contains_key(id),
        db@[id].is_banned(),
    ensures
        !(ban_status_of(db@, id) is NotBanned),
        !should_dial_of(db@, id),
{
    db.lemma_wf();
    assert(db@[id].wf());
}

/// A peer that is connected, dialed or being disconnected is not worth
/// dialing.
pub proof fn lemma_connected_peers_are_not_dialed(peers: PeerMap, id: PeerId)
    requires
        peers.contains_key(id),
        peers[id].is_connected() || peers[id].is_dialing() || peers[id].is_disconnecting(),
    ensures
        !should_dial_of(peers, id),
{
}

/// The peers that are connected or dialed are as many as the connected and
/// the dialed peers together.
pub proof fn lemma_connected_or_dialing_is_the_sum(peers: PeerMap)
    requires
        peers.dom().finite(),
    ensures
        members(peers, Group::ConnectedOrDialing).len() == members(peers, Group::Connected).len()
            + members(peers, Group::Dialing).len(),
{
    let connected = members(peers, Group::Connected);
    let dialing = members(peers, Group::Dialing);
    lemma_members_finite(peers, Group::Connected);
    lemma_members_finite(peers, Group::Dialing);
    assert(connected.disjoint(dialing));
    vstd::set_lib::lemma_set_disjoint_lens(connected, dialing);
    assert(members(peers, Group::ConnectedOrDialing) =~= connected + dialing);
}

/// The peer is one that pruning does not give up though no duty needs it:
/// an outbound-only peer, of which no more are connected than the node wants
/// to keep.
pub open spec fn kept_for_outbound(manager: &PeerManager, id: PeerId, now: u64) -> bool {
    &&& manager.db@.contains_key(id)
    &&& manager.db@[id].is_outbound_only()
    &&& !manager.db@[id].has_future_duty(now)
    &&& members(manager.db@, Group::OutboundOnly).len() <= capacity::saturated(
        capacity::ceil_percent(manager.target_peers as nat, 30),
    )
}

/// Once peers were given up, no more are connected than the node wants,
/// unless every peer that is still connected is needed by a duty. The one
/// case left out is that of more peers than wanted among which an
/// outbound-only peer is kept though no duty needs it.
pub proof fn lemma_pruned_to_target_or_all_on_duty(manager: &PeerManager, now: u64)
    requires
        manager.wf(),
        pruned_to_target(manager, now),
        !(members(manager.db@, Group::Connected).len() > manager.target_peers && exists|
            id: PeerId,
        |
            kept_for_outbound(manager, id, now)),
    ensures
        members(manager.db@, Group::Connected).len() <= manager.target_peers || forall|id: PeerId|
            manager.db@.contains_key(id) && (#[trigger] manager.db@[id]).is_connected()
                ==> manager.db@[id].has_future_duty(now),
{
    if members(manager.db@, Group::Connected).len() > manager.target_peers {
        assert forall|id: PeerId|
            manager.db@.contains_key(id) && (#[trigger] manager.db@[id]).is_connected()
                implies manager.db@[id].has_future_duty(now) by {
            if !manager.db@[id].has_future_duty(now) {
                assert(kept_for_outbound(manager, id, now));
            }
        }
    }
}

/// Where the report of a peer leads to the request to ban it, the peer is
/// banned; and where it leads to the request to lift its ban, the peer is
/// banned no more.
pub proof fn lemma_ban_requests_follow_the_status(
    peers: PeerMap,
    id: PeerId,
    action: PeerAction,
    now: u64,
)
    requires
        peers.contains_key(id) ==> peers[id].wf(),
    ensures
        reported_result(peers, id, action, now) matches ScoreUpdateResultView::Ban(
            BanOperationView::ReadyToBan(_),
        ) ==> reported(peers, id, action, now)[id].is_banned(),
        reported_result(peers, id, action, now) is Unbanned ==> !reported(
            peers,
            id,
            action,
            now,
        )[id].is_banned() && !reported(peers, id, action, now)[id].awaits_ban(),
{
}

/// Where the end of a connection leads to the request to ban the peer, the
/// peer is banned.
pub proof fn lemma_pending_ban_is_carried_out(peers: PeerMap, id: PeerId, now: u64)
    requires
        pending_ban(record(peers, id, now)) is Some,
    ensures
        disconnected(peers, id, now)[id].is_banned(),
{
}

/// A peer that has connected and then lost its connection is disconnected.
pub proof fn lemma_connect_then_disconnect(
    peers: PeerMap,
    id: PeerId,
    direction: ConnectionDirection,
    ip: Option<IpAddress>,
    enr: Option<Seq<u8>>,
    connected_at: u64,
    disconnected_at: u64,
)
    ensures
        disconnected(
            connected(peers, id, direction, ip, enr, connected_at),
            id,
            disconnected_at,
        )[id].connection_status == (PeerConnectionStatus::Disconnected { since: disconnected_at }),
{
}

/// A peer that has connected, was then reported, and then lost its
/// connection is banned if the report has brought its score to the ban
/// threshold, and disconnected if not. This is said of a peer that might
/// connect in the first place.
pub proof fn lemma_connect_report_disconnect(
    peers: PeerMap,
    id: PeerId,
    direction: ConnectionDirection,
    ip: Option<IpAddress>,
    enr: Option<Seq<u8>>,
    action: PeerAction,
    connected_at: u64,
    reported_at: u64,
    disconnected_at: u64,
)
    requires
        ban_status_of(peers, id) is NotBanned,
        peers.contains_key(id) ==> peers[id].wf(),
    ensures
        ({
            let scored = reported(
                connected(peers, id, direction, ip, enr, connected_at),
                id,
                action,
                reported_at,
            );
            let left = disconnected(scored, id, disconnected_at)[id];
            left.connection_status == if scored[id].score.spec_state() == ScoreState::Banned {
                PeerConnectionStatus::Banned { since: disconnected_at }
            } else {
                PeerConnectionStatus::Disconnected { since: disconnected_at }
            }
        }),
        action == PeerAction::Fatal ==> reported(
            connected(peers, id, direction, ip, enr, connected_at),
            id,
            action,
            reported_at,
        )[id].score.spec_state() == ScoreState::Banned,
{
}

/// Where old records are forgotten after a disconnection, the peer that
/// lost its connection is, if it is still known, as the disconnection left
/// it.
pub proof fn lemma_forgetting_keeps_records(before: PeerMap, after: PeerMap, id: PeerId)
    requires
        old_records_forgotten(before, after),
        after.contains_key(id),
    ensures
        before.contains_key(id),
        after[id] == before[id],
{
}

/// Where no more banned and disconnected peers are known than are kept,
/// none is forgotten.
pub proof fn lemma_nothing_forgotten_within_caps(before: PeerMap, after: PeerMap)
    requires
        before.dom().finite(),
        old_records_forgotten(before, after),
        members(before, Group::Banned).len() <= MAX_BANNED_PEERS,
        members(before, Group::Disconnected).len() <= MAX_DC_PEERS,
    ensures
        after == before,
{
    lemma_members_finite(before, Group::Banned);
    lemma_members_finite(before, Group::Disconnected);
    assert(members(after, Group::Banned).subset_of(members(before, Group::Banned)));
    assert(members(after, Group::Disconnected).subset_of(members(before, Group::Disconnected)));
    vstd::set_lib::lemma_subset_equality(
        members(after, Group::Banned),
        members(before, Group::Banned),
    );
    vstd::set_lib::lemma_subset_equality(
        members(after, Group::Disconnected),
        members(before, Group::Disconnected),
    );
    assert forall|id: PeerId| before.contains_key(id) implies after.contains_key(id) by {
        if !after.contains_key(id) {
            if before[id].is_banned() {
                assert(members(before, Group::Banned).contains(id));
                assert(members(after, Group::Banned).contains(id));
            } else {
                assert(members(before, Group::Disconnected).contains(id));
                assert(members(after, Group::Disconnected).contains(id));
            }
        }
    }
    assert(after =~= before);
}

/// To report a peer twice for the same action, other than a fatal one,
/// gives it the score that the doubled change gives it at once.
pub proof fn lemma_report_twice(score: Score, action: PeerAction)
    requires
        score.wf(),
        action != PeerAction::Fatal,
    ensures
        score.spec_apply_peer_action(action).spec_apply_peer_action(action) == score.spec_add(
            2 * action_delta(action),
        ),
{
}

/// To report a peer twice in the database for the same action, other than a
/// fatal one, leaves it with the score that the doubled change gives it at
/// once.
pub proof fn lemma_report_twice_in_database(peers: PeerMap, id: PeerId, action: PeerAction, now: u64)
    requires
        peers.contains_key(id) ==> peers[id].wf(),
        action != PeerAction::Fatal,
    ensures
        reported(reported(peers, id, action, now), id, action, now)[id].score == rescored(
            peers,
            id,
            record(peers, id, now).score.spec_add(2 * action_delta(action)),
            now,
        )[id].score,
{
    lemma_report_twice(record(peers, id, now).score, action);
}

/// A score that is read later, with no report in between, is no further
/// from zero and has kept its sign.
pub proof fn lemma_decay_is_monotone(score: Score, earlier: u64, later: u64)
    requires
        score.wf(),
        earlier <= later,
    ensures
        ({
            let first = score.spec_update_at(earlier);
            let second = first.spec_update_at(later);
            &&& second.wf()
            &&& if first.lighthouse_score >= 0 {
                0 <= second.lighthouse_score <= first.lighthouse_score
            } else {
                first.lighthouse_score <= second.lighthouse_score <= 0
            }
        }),
{
    let first = score.spec_update_at(earlier);
    if earlier >= score.last_updated {
        lemma_decay_bounds(score.lighthouse_score as int, (earlier - score.last_updated) as nat);
    }
    if later >= first.last_updated {
        lemma_decay_bounds(first.lighthouse_score as int, (later - first.last_updated) as nat);
    }
}

/// A decayed score lies between zero and what it was.
pub proof fn lemma_decay_bounds(score: int, elapsed: nat)
    ensures
        score >= 0 ==> 0 <= decayed(score, elapsed) <= score,
        score < 0 ==> score <= decayed(score, elapsed) <= 0,
{
    if score >= 0 {
        lemma_decay_shrinks(score as nat, elapsed);
    } else {
        lemma_decay_shrinks((-score) as nat, elapsed);
    }
}

/// A peer that is being dialed, or is connected, is not chosen among the
/// peers that a search has found, and what is found changes the status of no
/// peer.
pub proof fn lemma_dialing_peers_are_not_chosen(
    peers: PeerMap,
    results: Seq<(PeerId, Option<u64>)>,
    room: Room,
    now: u64,
    id: PeerId,
)
    requires
        peers.contains_key(id),
        peers[id].is_dialing() || peers[id].is_connected(),
    ensures
        !discovered(peers, results, results.len() as int, room, now).1.contains(id),
        discovered(peers, results, results.len() as int, room, now).0[id].connection_status
            == peers[id].connection_status,
{
    lemma_discovered_keeps_status(peers, results, results.len() as int, room, now);
    let (noted, _) = discovered(peers, results, results.len() as int, room, now);
    assert(noted.contains_key(id));
}

/// A search that has found one peer, which is being dialed, leads to no
/// dial and changes nothing.
pub proof fn lemma_dialing_peer_found_again(
    peers: PeerMap,
    id: PeerId,
    min_ttl: Option<u64>,
    room: Room,
    now: u64,
)
    requires
        peers.contains_key(id),
        peers[id].is_dialing(),
    ensures
        discovered(peers, seq![(id, min_ttl)], 1, room, now) == (peers, Seq::<PeerId>::empty()),
{
    reveal_with_fuel(discovered, 2);
}

} // verus!
