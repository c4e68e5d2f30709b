//! Which peers are given up when more are connected than wanted.
//!
//! The connected peers are gone through with the lowest score first. A peer
//! that a duty needs is never given up, and outbound-only peers are given up
//! only as long as more of them are left than the node wants to keep.

use crate::peer_info::PeerConnectionStatus;
use crate::peerdb::{
    disconnecting, lemma_members_finite, lemma_members_insert, members, Group, PeerMap,
};
use crate::types::PeerId;
use vstd::prelude::*;

verus! {

/// The peers chosen so far, and how many of them are outbound-only.
pub struct Selection {
    pub chosen: Seq<PeerId>,
    pub outbound_pruned: nat,
}

/// What bounds a choice of peers to give up.
pub struct Limits {
    /// How many peers are connected beyond the target.
    pub excess: nat,
    /// How many outbound-only peers are to be left.
    pub target_outbound: nat,
    /// How many outbound-only peers are connected.
    pub outbound: nat,
    /// The second at which the choice is made.
    pub now: u64,
}

/// The choice after one more peer was looked at. With `only_penalized`,
/// peers whose score is not below zero are passed over.
pub open spec fn prune_step(
    peers: PeerMap,
    selection: Selection,
    id: PeerId,
    only_penalized: bool,
    limits: Limits,
) -> Selection {
    let info = peers[id];
    if selection.chosen.len() >= limits.excess || info.has_future_duty(limits.now) || (
    only_penalized && info.score.spec_score() >= 0) || selection.chosen.contains(id) {
        selection
    } else if info.is_outbound_only() {
        if limits.target_outbound + selection.outbound_pruned < limits.outbound {
            Selection {
                chosen: selection.chosen.push(id),
                outbound_pruned: selection.outbound_pruned + 1,
            }
        } else {
            selection
        }
    } else {
        Selection { chosen: selection.chosen.push(id), ..selection }
    }
}

/// The choice after the first `n` peers of `order` were looked at, one
/// after the other, beginning with the choice `start`.
pub open spec fn prune_pass(
    peers: PeerMap,
    order: Seq<PeerId>,
    n: int,
    start: Selection,
    only_penalized: bool,
    limits: Limits,
) -> Selection
    decreases n,
{
    if n <= 0 {
        start
    } else {
        prune_step(
            peers,
            prune_pass(peers, order, n - 1, start, only_penalized, limits),
            order[n - 1],
            only_penalized,
            limits,
        )
    }
}

/// The peers to give up: first those with a score below zero are looked at,
/// then, if that was not enough, all.
pub open spec fn prune_selection(peers: PeerMap, order: Seq<PeerId>, limits: Limits) -> Selection {
    let penalized = prune_pass(
        peers,
        order,
        order.len() as int,
        Selection { chosen: Seq::empty(), outbound_pruned: 0 },
        true,
        limits,
    );
    prune_pass(peers, order, order.len() as int, penalized, false, limits)
}

/// How many of the first `n` chosen peers are outbound-only.
pub open spec fn outbound_among(peers: PeerMap, chosen: Seq<PeerId>, n: int) -> nat
    decreases n,
{
    if n <= 0 {
        0
    } else {
        outbound_among(peers, chosen, n - 1) + if peers[chosen[n - 1]].is_outbound_only() {
            1nat
        } else {
            0nat
        }
    }
}

/// `order` lists the connected peers, each once, lowest score first.
pub open spec fn worst_first(peers: PeerMap, order: Seq<PeerId>) -> bool {
    &&& order.no_duplicates()
    &&& crate::peerdb::ascending(peers, order)
    &&& forall|id: PeerId| order.contains(id) <==> peers.contains_key(id) && peers[id].is_connected()
}

/// A choice is sound: no peer is chosen twice, every chosen peer is
/// connected and needed by no duty, no more are chosen than there are in
/// excess, and the outbound-only ones are counted.
pub open spec fn selection_sound(peers: PeerMap, selection: Selection, limits: Limits) -> bool {
    &&& selection.chosen.no_duplicates()
    &&& selection.chosen.len() <= limits.excess
    &&& selection.outbound_pruned == outbound_among(
        peers,
        selection.chosen,
        selection.chosen.len() as int,
    )
    &&& forall|k: int|
        0 <= k < selection.chosen.len() ==> {
            let id = #[trigger] selection.chosen[k];
            &&& peers.contains_key(id)
            &&& peers[id].is_connected()
            &&& !peers[id].has_future_duty(limits.now)
        }
}

/// Nothing stands against giving the peer up but a duty that needs it, or,
/// for an outbound-only peer, that no more of them can be spared.
pub open spec fn spared(peers: PeerMap, selection: Selection, id: PeerId, limits: Limits) -> bool {
    ||| selection.chosen.contains(id)
    ||| peers[id].has_future_duty(limits.now)
    ||| (peers[id].is_outbound_only() && limits.target_outbound + selection.outbound_pruned
        >= limits.outbound)
}

proof fn lemma_outbound_among_push(peers: PeerMap, chosen: Seq<PeerId>, id: PeerId, n: int)
    requires
        0 <= n <= chosen.len(),
    ensures
        outbound_among(peers, chosen.push(id), n) == outbound_among(peers, chosen, n),
    decreases n,
{
    if n > 0 {
        lemma_outbound_among_push(peers, chosen, id, n - 1);
        assert(chosen.push(id)[n - 1] == chosen[n - 1]);
    }
}

/// A step keeps a sound choice sound.
pub proof fn lemma_step_sound(
    peers: PeerMap,
    selection: Selection,
    id: PeerId,
    only_penalized: bool,
    limits: Limits,
)
    requires
        selection_sound(peers, selection, limits),
        peers.contains_key(id),
        peers[id].is_connected(),
    ensures
        selection_sound(peers, prune_step(peers, selection, id, only_penalized, limits), limits),
        prune_step(peers, selection, id, only_penalized, limits).outbound_pruned
            >= selection.outbound_pruned,
        forall|other: PeerId|
            selection.chosen.contains(other) ==> prune_step(
                peers,
                selection,
                id,
                only_penalized,
                limits,
            ).chosen.contains(other),
{
    let after = prune_step(peers, selection, id, only_penalized, limits);
    if after.chosen != selection.chosen {
        let grown = selection.chosen.push(id);
        assert(after.chosen == grown);
        lemma_outbound_among_push(peers, selection.chosen, id, selection.chosen.len() as int);
        assert(grown[grown.len() - 1] == id);
        assert forall|a: int, b: int| 0 <= a < b < grown.len() implies grown[a] != grown[b] by {
            if b == grown.len() - 1 {
                assert(selection.chosen.contains(grown[a]));
            }
        }
        assert forall|k: int| 0 <= k < grown.len() implies {
            let chosen = #[trigger] grown[k];
            &&& peers.contains_key(chosen)
            &&& peers[chosen].is_connected()
            &&& !peers[chosen].has_future_duty(limits.now)
        } by {
            if k < selection.chosen.len() {
                assert(grown[k] == selection.chosen[k]);
            }
        }
        assert forall|other: PeerId| selection.chosen.contains(other) implies grown.contains(
            other,
        ) by {
            let k = choose|k: int| 0 <= k < selection.chosen.len() && selection.chosen[k] == other;
            assert(grown[k] == other);
        }
    }
}

/// A pass keeps a sound choice sound, and takes back no peer.
pub proof fn lemma_pass_sound(
    peers: PeerMap,
    order: Seq<PeerId>,
    n: int,
    start: Selection,
    only_penalized: bool,
    limits: Limits,
)
    requires
        0 <= n <= order.len(),
        selection_sound(peers, start, limits),
        forall|k: int|
            0 <= k < order.len() ==> peers.contains_key(#[trigger] order[k])
                && peers[order[k]].is_connected(),
    ensures
        selection_sound(peers, prune_pass(peers, order, n, start, only_penalized, limits), limits),
        prune_pass(peers, order, n, start, only_penalized, limits).outbound_pruned
            >= start.outbound_pruned,
        forall|other: PeerId|
            start.chosen.contains(other) ==> prune_pass(
                peers,
                order,
                n,
                start,
                only_penalized,
                limits,
            ).chosen.contains(other),
    decreases n,
{
    if n > 0 {
        lemma_pass_sound(peers, order, n - 1, start, only_penalized, limits);
        lemma_step_sound(
            peers,
            prune_pass(peers, order, n - 1, start, only_penalized, limits),
            order[n - 1],
            only_penalized,
            limits,
        );
    }
}

/// A pass over all peers stops only where enough are chosen or nothing more
/// can be: of the peers looked at, each is chosen, needed by a duty, or an
/// outbound-only peer that cannot be spared.
pub proof fn lemma_pass_complete(
    peers: PeerMap,
    order: Seq<PeerId>,
    n: int,
    start: Selection,
    limits: Limits,
)
    requires
        0 <= n <= order.len(),
        selection_sound(peers, start, limits),
        forall|k: int|
            0 <= k < order.len() ==> peers.contains_key(#[trigger] order[k])
                && peers[order[k]].is_connected(),
    ensures
        ({
            let selection = prune_pass(peers, order, n, start, false, limits);
            selection.chosen.len() == limits.excess || forall|k: int|
                0 <= k < n ==> spared(peers, selection, #[trigger] order[k], limits)
        }),
    decreases n,
{
    if n > 0 {
        lemma_pass_complete(peers, order, n - 1, start, limits);
        lemma_pass_sound(peers, order, n - 1, start, false, limits);
        let before = prune_pass(peers, order, n - 1, start, false, limits);
        let after = prune_pass(peers, order, n, start, false, limits);
        lemma_step_sound(peers, before, order[n - 1], false, limits);
        if after.chosen.len() != limits.excess {
            assert forall|k: int| 0 <= k < n implies spared(
                peers,
                after,
                #[trigger] order[k],
                limits,
            ) by {
                if k < n - 1 {
                    assert(spared(peers, before, order[k], limits));
                } else {
                    if after.chosen != before.chosen {
                        assert(after.chosen[after.chosen.len() - 1] == order[k]);
                    }
                }
            }
        }
    }
}

/// The database once the first `n` of the chosen peers were told that they
/// are being disconnected.
pub open spec fn all_disconnecting(peers: PeerMap, chosen: Seq<PeerId>, n: int, now: u64) -> PeerMap
    decreases n,
{
    if n <= 0 {
        peers
    } else {
        disconnecting(all_disconnecting(peers, chosen, n - 1, now), chosen[n - 1], false, now)
    }
}

/// Giving up connected peers leaves the others as they are and takes each
/// of the chosen out of the connected peers.
pub proof fn lemma_all_disconnecting(peers: PeerMap, chosen: Seq<PeerId>, n: int, now: u64)
    requires
        0 <= n <= chosen.len(),
        peers.dom().finite(),
        chosen.no_duplicates(),
        forall|k: int|
            0 <= k < chosen.len() ==> peers.contains_key(#[trigger] chosen[k])
                && peers[chosen[k]].is_connected(),
    ensures
        ({
            let after = all_disconnecting(peers, chosen, n, now);
            &&& after.dom() == peers.dom()
            &&& forall|id: PeerId| #[trigger]
                peers.contains_key(id) ==> after[id] == if chosen.take(n).contains(id) {
                    peers[id].with_status(PeerConnectionStatus::Disconnecting { to_ban: false })
                } else {
                    peers[id]
                }
            &&& members(after, Group::Connected).len() == members(peers, Group::Connected).len() - n
            &&& members(after, Group::OutboundOnly).len() == members(
                peers,
                Group::OutboundOnly,
            ).len() - outbound_among(peers, chosen, n)
        }),
    decreases n,
{
    if n > 0 {
        lemma_all_disconnecting(peers, chosen, n - 1, now);
        let before = all_disconnecting(peers, chosen, n - 1, now);
        let after = all_disconnecting(peers, chosen, n, now);
        let id = chosen[n - 1];
        let head = chosen.take(n - 1);
        let upto = chosen.take(n);
        assert(!head.contains(id)) by {
            if head.contains(id) {
                let k = choose|k: int| 0 <= k < head.len() && head[k] == id;
                assert(chosen[k] == chosen[n - 1]);
            }
        }
        assert(before[id] == peers[id]);
        let told = before[id].disconnecting(false);
        assert(after == before.insert(id, told));
        assert(after.dom() =~= peers.dom());
        lemma_members_insert(before, Group::Connected, id, told);
        lemma_members_insert(before, Group::OutboundOnly, id, told);
        lemma_members_finite(before, Group::Connected);
        lemma_members_finite(before, Group::OutboundOnly);
        assert forall|other: PeerId| #[trigger] peers.contains_key(other) implies after[other]
            == if upto.contains(other) {
            peers[other].with_status(PeerConnectionStatus::Disconnecting { to_ban: false })
        } else {
            peers[other]
        } by {
            if other == id {
                assert(upto[n - 1] == id);
            } else {
                if upto.contains(other) {
                    let k = choose|k: int| 0 <= k < upto.len() && upto[k] == other;
                    assert(head[k] == other);
                }
                if head.contains(other) {
                    let k = choose|k: int| 0 <= k < head.len() && head[k] == other;
                    assert(upto[k] == other);
                }
            }
        }
    }
}

} // verus!
