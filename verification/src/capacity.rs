//! How many peers the node allows, derived from the target peer count.

use vstd::prelude::*;

verus! {

/// Share of the target, in percent, that may connect in excess of it.
pub const PEER_EXCESS_PERCENT: usize = 10;

/// Further share of the target, in percent, kept free for peers that a
/// current duty needs.
pub const PRIORITY_PEER_EXCESS_PERCENT: usize = 20;

/// Share of the target, in percent, that should be outbound-only connections.
pub const TARGET_OUTBOUND_ONLY_PERCENT: usize = 30;

/// Share of the target, in percent, of outbound-only connections below which
/// more peers are looked for.
pub const MIN_OUTBOUND_ONLY_PERCENT: usize = 20;

/// `target * percent / 100`, rounded up.
pub open spec fn ceil_percent(target: nat, percent: nat) -> nat {
    (target * percent + 99) / 100
}

/// A count as `usize`, held at `usize::MAX` where it does not fit.
pub open spec fn saturated(n: nat) -> usize {
    if n > usize::MAX {
        usize::MAX
    } else {
        n as usize
    }
}

/// `ceil_percent` is the least count whose hundredfold reaches
/// `target * percent`: it reaches it, and no count that does is smaller.
pub proof fn lemma_ceil_percent_is_least(target: nat, percent: nat, n: nat)
    ensures
        ceil_percent(target, percent) * 100 >= target * percent,
        n * 100 >= target * percent ==> ceil_percent(target, percent) <= n,
{
    let product = target * percent;
    if n * 100 >= product {
        assert((product + 99) / 100 <= n) by (nonlinear_arith)
            requires
                n * 100 >= product,
        ;
    }
    assert(((product + 99) / 100) * 100 >= product) by (nonlinear_arith);
}

/// `target * percent / 100`, rounded up and held within `usize`.
pub fn scaled(target: usize, percent: usize) -> (count: usize)
    requires
        percent <= 200,
    ensures
        count == saturated(ceil_percent(target as nat, percent as nat)),
{
    assert(target * percent <= 200 * 0xffff_ffff_ffff_ffff) by (nonlinear_arith)
        requires
            target <= 0xffff_ffff_ffff_ffff,
            percent <= 200,
    ;
    let wide: u128 = (target as u128) * (percent as u128) + 99;
    let count: u128 = wide / 100;
    if count > usize::MAX as u128 {
        usize::MAX
    } else {
        count as usize
    }
}

/// The most peers that may be connected or dialing before incoming
/// connections are refused: the target and its excess share.
pub fn max_peers(target_peers: usize) -> (count: usize)
    ensures
        count == saturated(ceil_percent(target_peers as nat, 110)),
{
    scaled(target_peers, 100 + PEER_EXCESS_PERCENT)
}

/// The most peers that may be connected or dialing when a peer needed for a
/// duty is dialed: the target, its excess share and the priority share.
pub fn max_priority_peers(target_peers: usize) -> (count: usize)
    ensures
        count == saturated(ceil_percent(target_peers as nat, 130)),
{
    scaled(target_peers, 100 + PEER_EXCESS_PERCENT + PRIORITY_PEER_EXCESS_PERCENT)
}

/// The number of outbound-only peers below which more peers are looked for.
pub fn min_outbound_only_peers(target_peers: usize) -> (count: usize)
    ensures
        count == saturated(ceil_percent(target_peers as nat, 20)),
{
    scaled(target_peers, MIN_OUTBOUND_ONLY_PERCENT)
}

/// The number of outbound-only peers that pruning leaves standing.
pub fn target_outbound_peers(target_peers: usize) -> (count: usize)
    ensures
        count == saturated(ceil_percent(target_peers as nat, 30)),
{
    scaled(target_peers, TARGET_OUTBOUND_ONLY_PERCENT)
}

/// The most peers that may be connected before an outgoing connection is
/// refused and before the search for outbound peers stops: the target, its
/// excess share and half the priority share.
pub fn max_outbound_dialing_peers(target_peers: usize) -> (count: usize)
    ensures
        count == saturated(ceil_percent(target_peers as nat, 120)),
{
    scaled(target_peers, 100 + PEER_EXCESS_PERCENT + PRIORITY_PEER_EXCESS_PERCENT / 2)
}

} // verus!
