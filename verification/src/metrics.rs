//! The figures that the manager reports of its peers.

use crate::client::ClientKind;
use crate::peerdb::{members, Group, PeerDB, PeerMap};
use crate::score::{div_towards_zero, SCORE_UNIT};
use crate::types::PeerId;
use vstd::prelude::*;

verus! {

/// How many peers are connected, by direction and by implementation.
#[derive(Debug)]
pub struct ConnectedPeerMetrics {
    /// The connected peers.
    pub connected: usize,
    /// Those with a connection that the peer opened.
    pub inbound: usize,
    /// Those with none.
    pub outbound: usize,
    /// The connected peers of each implementation, in the order of
    /// `ClientKind::all`.
    pub per_client: Vec<usize>,
}

/// A place in the list of connected peers, best score first, of which the
/// score is reported.
#[derive(Clone, Copy, Debug, PartialEq, Eq, Structural)]
pub enum ScoreQuantile {
    /// The best peer.
    First,
    /// The peer a quarter down the list.
    Quarter,
    /// The peer half down the list.
    Half,
    /// The peer three quarters down the list.
    ThreeQuarters,
    /// The worst peer.
    Last,
}

/// The scores of the connected peers.
#[derive(Debug)]
pub struct PeerScoreMetrics {
    /// The scores at the places that are reported, in whole points, best
    /// first.
    pub distribution: Vec<(ScoreQuantile, i64)>,
    /// For each implementation that a connected peer runs, in the order of
    /// `ClientKind::all`: the mean score of its peers and their number.
    pub per_client: Vec<(ClientKind, i64, usize)>,
}

/// `n - 1`, or zero for zero.
pub open spec fn one_less(n: int) -> int {
    if n > 0 {
        n - 1
    } else {
        0
    }
}

/// What is reported of the peer at place `index` among `total` peers. A
/// place that is two of them at once is reported as the first it is, in the
/// order of this list.
pub open spec fn quantile_at(index: int, total: int) -> Option<ScoreQuantile> {
    if index == 0 {
        Some(ScoreQuantile::First)
    } else if index == one_less(total * 3 / 4) {
        Some(ScoreQuantile::ThreeQuarters)
    } else if index == one_less(total / 2) {
        Some(ScoreQuantile::Half)
    } else if index == one_less(total / 4) {
        Some(ScoreQuantile::Quarter)
    } else if index == one_less(total) {
        Some(ScoreQuantile::Last)
    } else {
        None
    }
}

/// A score in whole points, what is beyond them cut off.
pub open spec fn whole_points(score: int) -> int {
    div_towards_zero(score, SCORE_UNIT as int)
}

/// The scores reported of the first `n` peers of `order`.
pub open spec fn distribution(peers: PeerMap, order: Seq<PeerId>, n: int) -> Seq<(ScoreQuantile, i64)>
    decreases n,
{
    if n <= 0 {
        Seq::empty()
    } else {
        let before = distribution(peers, order, n - 1);
        match quantile_at(n - 1, order.len() as int) {
            Some(quantile) => before.push(
                (quantile, whole_points(peers[order[n - 1]].score.spec_score()) as i64),
            ),
            None => before,
        }
    }
}

/// The sum of the scores of those of the first `n` peers of `order` that
/// run `kind`.
pub open spec fn kind_sum(peers: PeerMap, order: Seq<PeerId>, kind: ClientKind, n: int) -> int
    decreases n,
{
    if n <= 0 {
        0
    } else {
        kind_sum(peers, order, kind, n - 1) + if peers[order[n - 1]].client.kind == kind {
            peers[order[n - 1]].score.spec_score()
        } else {
            0
        }
    }
}

/// How many of the first `n` peers of `order` run `kind`.
pub open spec fn kind_count(peers: PeerMap, order: Seq<PeerId>, kind: ClientKind, n: int) -> nat
    decreases n,
{
    if n <= 0 {
        0
    } else {
        kind_count(peers, order, kind, n - 1) + if peers[order[n - 1]].client.kind == kind {
            1nat
        } else {
            0nat
        }
    }
}

/// The mean scores of the first `n` kinds of `kinds`, for those that a peer
/// of `order` runs.
pub open spec fn client_means(peers: PeerMap, order: Seq<PeerId>, kinds: Seq<ClientKind>, n: int) -> Seq<
    (ClientKind, i64, usize),
>
    decreases n,
{
    if n <= 0 {
        Seq::empty()
    } else {
        let before = client_means(peers, order, kinds, n - 1);
        let count = kind_count(peers, order, kinds[n - 1], order.len() as int);
        if count > 0 {
            before.push(
                (
                    kinds[n - 1],
                    div_towards_zero(
                        kind_sum(peers, order, kinds[n - 1], order.len() as int),
                        count as int,
                    ) as i64,
                    count as usize,
                ),
            )
        } else {
            before
        }
    }
}

fn quantile(index: usize, total: usize) -> (found: Option<ScoreQuantile>)
    requires
        index < total,
    ensures
        found == quantile_at(index as int, total as int),
{
    let three_quarters: u128 = (total as u128) * 3 / 4;
    if index == 0 {
        Some(ScoreQuantile::First)
    } else if three_quarters > 0 && index as u128 == three_quarters - 1 {
        Some(ScoreQuantile::ThreeQuarters)
    } else if total / 2 > 0 && index == total / 2 - 1 {
        Some(ScoreQuantile::Half)
    } else if total / 4 > 0 && index == total / 4 - 1 {
        Some(ScoreQuantile::Quarter)
    } else if index == total - 1 {
        Some(ScoreQuantile::Last)
    } else {
        None
    }
}

fn points(score: i64) -> (whole: i64)
    ensures
        whole == whole_points(score as int),
{
    if score >= 0 {
        score / SCORE_UNIT
    } else if score == i64::MIN {
        -((9_223_372_036_854_775_808u64 / 1_000_000u64) as i64)
    } else {
        -((-score) / SCORE_UNIT)
    }
}

/// The scores reported of the peers of `order`, which lists the connected
/// peers, best score first.
pub fn score_distribution(db: &PeerDB, order: &Vec<PeerId>) -> (reported: Vec<(ScoreQuantile, i64)>)
    requires
        db.wf(),
        forall|k: int| 0 <= k < order@.len() ==> db@.contains_key(#[trigger] order@[k]),
    ensures
        reported@ == distribution(db@, order@, order@.len() as int),
{
    let mut reported: Vec<(ScoreQuantile, i64)> = Vec::new();
    let total = order.len();
    let mut id: usize = 0;
    while id < total
        invariant
            db.wf(),
            total == order@.len(),
            id <= total,
            forall|k: int| 0 <= k < order@.len() ==> db@.contains_key(#[trigger] order@[k]),
            reported@ == distribution(db@, order@, id as int),
        decreases total - id,
    {
        if let Some(place) = quantile(id, total) {
            let score = db.score(&order[id]);
            reported.push((place, points(score)));
        }
        id += 1;
    }
    reported
}

/// The mean score and the number of the peers of each implementation among
/// the peers of `order`.
pub fn client_scores(db: &PeerDB, order: &Vec<PeerId>) -> (means: Vec<(ClientKind, i64, usize)>)
    requires
        db.wf(),
        forall|k: int| 0 <= k < order@.len() ==> db@.contains_key(#[trigger] order@[k]),
    ensures
        means@ == client_means(db@, order@, ClientKind::all_kinds(), 6),
{
    let kinds = ClientKind::all();
    let mut means: Vec<(ClientKind, i64, usize)> = Vec::new();
    let mut c: usize = 0;
    proof {
        db.lemma_wf();
    }
    while c < kinds.len()
        invariant
            db.wf(),
            c <= kinds@.len(),
            kinds@ == ClientKind::all_kinds(),
            kinds@.len() == 6,
            forall|k: int| 0 <= k < order@.len() ==> db@.contains_key(#[trigger] order@[k]),
            means@ == client_means(db@, order@, kinds@, c as int),
        decreases kinds@.len() - c,
    {
        let kind = kinds[c];
        let mut sum: i128 = 0;
        let mut count: usize = 0;
        let mut i: usize = 0;
        while i < order.len()
            invariant
                db.wf(),
                i <= order@.len(),
                forall|k: int| 0 <= k < order@.len() ==> db@.contains_key(#[trigger] order@[k]),
                sum == kind_sum(db@, order@, kind, i as int),
                count == kind_count(db@, order@, kind, i as int),
                count <= i,
                -count * 0x8000_0000_0000_0000 <= sum <= count * 0x7fff_ffff_ffff_ffff,
            decreases order@.len() - i,
        {
            if let Some(info) = db.peer_info(&order[i]) {
                if info.client().kind == kind {
                    let score = db.score(&order[i]);
                    sum = sum + score as i128;
                    count += 1;
                }
            }
            i += 1;
        }
        if count > 0 {
            let negative = sum < 0;
            let magnitude: u128 = if negative {
                (-sum) as u128
            } else {
                sum as u128
            };
            let mean: u128 = magnitude / (count as u128);
            assert(mean <= 0x8000_0000_0000_0000 && (!negative ==> mean <= 0x7fff_ffff_ffff_ffff))
                by (nonlinear_arith)
                requires
                    mean == magnitude / (count as u128),
                    magnitude <= count * 0x8000_0000_0000_0000,
                    !negative ==> magnitude <= count * 0x7fff_ffff_ffff_ffff,
                    count > 0,
            ;
            let mean: i64 = if negative {
                if mean == 0x8000_0000_0000_0000 {
                    i64::MIN
                } else {
                    -(mean as i64)
                }
            } else {
                mean as i64
            };
            means.push((kind, mean, count));
        }
        c += 1;
    }
    means
}

/// How many peers are connected, by direction and by implementation.
pub fn connected_peers(db: &PeerDB) -> (figures: ConnectedPeerMetrics)
    requires
        db.wf(),
    ensures
        figures.connected == members(db@, Group::Connected).len(),
        figures.inbound == members(db@, Group::ConnectedInbound).len(),
        figures.outbound == figures.connected - figures.inbound,
        figures.per_client@.len() == 6,
        forall|k: int|
            0 <= k < 6 ==> (#[trigger] figures.per_client@[k]) == members(
                db@,
                Group::ConnectedClient(ClientKind::all_kinds()[k]),
            ).len(),
{
    let connected = db.count(Group::Connected);
    let inbound = db.count(Group::ConnectedInbound);
    proof {
        db.lemma_wf();
        assert(members(db@, Group::ConnectedInbound).subset_of(members(db@, Group::Connected)));
        crate::peerdb::lemma_members_finite(db@, Group::Connected);
        vstd::set_lib::lemma_len_subset(
            members(db@, Group::ConnectedInbound),
            members(db@, Group::Connected),
        );
    }
    let kinds = ClientKind::all();
    let mut per_client: Vec<usize> = Vec::new();
    let mut c: usize = 0;
    while c < kinds.len()
        invariant
            db.wf(),
            c <= kinds@.len(),
            kinds@ == ClientKind::all_kinds(),
            kinds@.len() == 6,
            per_client@.len() == c,
            forall|k: int|
                0 <= k < c ==> (#[trigger] per_client@[k]) == members(
                    db@,
                    Group::ConnectedClient(ClientKind::all_kinds()[k]),
                ).len(),
        decreases kinds@.len() - c,
    {
        per_client.push(db.count(Group::ConnectedClient(kinds[c])));
        c += 1;
    }
    ConnectedPeerMetrics { connected, inbound, outbound: connected - inbound, per_client }
}

} // verus!
