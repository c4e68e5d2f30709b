//! How many peers are banned, in all and at each IP address.

use crate::types::IpAddress;
use vstd::prelude::*;

verus! {

/// The number of banned peers, and for each IP address the number of banned
/// peers that were seen at it.
#[derive(Debug)]
pub struct BannedPeersCount {
    banned_peers: usize,
    banned_peers_per_ip: Vec<(IpAddress, usize)>,
}

spec fn ips_distinct(entries: Seq<(IpAddress, usize)>) -> bool {
    forall|i: int, j: int| 0 <= i < j < entries.len() ==> entries[i].0 != entries[j].0
}

spec fn holds_ip(entries: Seq<(IpAddress, usize)>, ip: IpAddress) -> bool {
    exists|i: int| 0 <= i < entries.len() && (#[trigger] entries[i]).0 == ip
}

spec fn position(entries: Seq<(IpAddress, usize)>, ip: IpAddress) -> int {
    choose|i: int| 0 <= i < entries.len() && (#[trigger] entries[i]).0 == ip
}

spec fn stored(entries: Seq<(IpAddress, usize)>, ip: IpAddress) -> nat {
    if holds_ip(entries, ip) {
        entries[position(entries, ip)].1 as nat
    } else {
        0
    }
}

proof fn lemma_stored(entries: Seq<(IpAddress, usize)>, i: int)
    requires
        ips_distinct(entries),
        0 <= i < entries.len(),
    ensures
        holds_ip(entries, entries[i].0),
        position(entries, entries[i].0) == i,
        stored(entries, entries[i].0) == entries[i].1,
{
    assert(entries[i].0 == entries[i].0);
}

proof fn lemma_stored_update(before: Seq<(IpAddress, usize)>, i: int, count: usize)
    requires
        ips_distinct(before),
        0 <= i < before.len(),
    ensures
        ips_distinct(before.update(i, (before[i].0, count))),
        forall|ip: IpAddress| #[trigger]
            stored(before.update(i, (before[i].0, count)), ip) == if ip == before[i].0 {
                count as nat
            } else {
                stored(before, ip)
            },
{
    let after = before.update(i, (before[i].0, count));
    assert forall|a: int, b: int| 0 <= a < b < after.len() implies after[a].0 != after[b].0 by {
        assert(after[a].0 == before[a].0);
        assert(after[b].0 == before[b].0);
    }
    assert forall|ip: IpAddress| #[trigger] stored(after, ip) == if ip == before[i].0 {
        count as nat
    } else {
        stored(before, ip)
    } by {
        if holds_ip(before, ip) {
            let k = position(before, ip);
            assert(after[k].0 == ip);
            lemma_stored(after, k);
            lemma_stored(before, k);
        } else if holds_ip(after, ip) {
            let k = position(after, ip);
            assert(before[k].0 == ip);
        }
    }
}

proof fn lemma_stored_push(before: Seq<(IpAddress, usize)>, entry: (IpAddress, usize))
    requires
        ips_distinct(before),
        !holds_ip(before, entry.0),
    ensures
        ips_distinct(before.push(entry)),
        forall|ip: IpAddress| #[trigger]
            stored(before.push(entry), ip) == if ip == entry.0 {
                entry.1 as nat
            } else {
                stored(before, ip)
            },
{
    let after = before.push(entry);
    assert forall|a: int, b: int| 0 <= a < b < after.len() implies after[a].0 != after[b].0 by {
        if b == before.len() {
            assert(before[a].0 == after[a].0);
        }
    }
    assert forall|ip: IpAddress| #[trigger] stored(after, ip) == if ip == entry.0 {
        entry.1 as nat
    } else {
        stored(before, ip)
    } by {
        if ip == entry.0 {
            lemma_stored(after, before.len() as int);
        } else if holds_ip(before, ip) {
            let k = position(before, ip);
            assert(after[k].0 == ip);
            lemma_stored(after, k);
            lemma_stored(before, k);
        } else if holds_ip(after, ip) {
            let k = position(after, ip);
            assert(before[k].0 == ip);
        }
    }
}

impl BannedPeersCount {
    /// No address is counted twice.
    pub closed spec fn wf(&self) -> bool {
        ips_distinct(self.banned_peers_per_ip@)
    }

    /// The number of banned peers.
    pub closed spec fn peers(&self) -> nat {
        self.banned_peers as nat
    }

    /// The number of banned peers that were seen at `ip`.
    pub closed spec fn at(&self, ip: IpAddress) -> nat {
        stored(self.banned_peers_per_ip@, ip)
    }

    /// The count of no banned peer.
    pub fn new() -> (count: BannedPeersCount)
        ensures
            count.wf(),
            count.peers() == 0,
            forall|ip: IpAddress| #[trigger] count.at(ip) == 0,
    {
        BannedPeersCount { banned_peers: 0, banned_peers_per_ip: Vec::new() }
    }

    /// The number of banned peers.
    pub fn banned_peers(&self) -> (n: usize)
        ensures
            n == self.peers(),
    {
        self.banned_peers
    }

    fn find(&self, ip: &IpAddress) -> (found: Option<usize>)
        requires
            self.wf(),
        ensures
            match found {
                Some(i) => i < self.banned_peers_per_ip@.len() && self.banned_peers_per_ip@[i as int].0
                    == *ip && self.at(*ip) == self.banned_peers_per_ip@[i as int].1,
                None => !holds_ip(self.banned_peers_per_ip@, *ip) && self.at(*ip) == 0,
            },
    {
        let mut i: usize = 0;
        while i < self.banned_peers_per_ip.len()
            invariant
                self.wf(),
                i <= self.banned_peers_per_ip@.len(),
                forall|k: int| 0 <= k < i ==> self.banned_peers_per_ip@[k].0 != *ip,
            decreases self.banned_peers_per_ip@.len() - i,
        {
            if self.banned_peers_per_ip[i].0 == *ip {
                proof {
                    lemma_stored(self.banned_peers_per_ip@, i as int);
                }
                return Some(i);
            }
            i += 1;
        }
        None
    }

    /// The number of banned peers that were seen at `ip`.
    pub fn banned_at(&self, ip: &IpAddress) -> (n: usize)
        requires
            self.wf(),
        ensures
            n == self.at(*ip),
    {
        match self.find(ip) {
            Some(i) => self.banned_peers_per_ip[i].1,
            None => 0,
        }
    }

    fn set(&mut self, ip: IpAddress, count: usize)
        requires
            old(self).wf(),
        ensures
            final(self).wf(),
            final(self).peers() == old(self).peers(),
            forall|other: IpAddress| #[trigger]
                final(self).at(other) == if other == ip {
                    count as nat
                } else {
                    old(self).at(other)
                },
    {
        match self.find(&ip) {
            Some(i) => {
                proof {
                    lemma_stored_update(self.banned_peers_per_ip@, i as int, count);
                }
                self.banned_peers_per_ip[i] = (ip, count);
                assert(self.banned_peers_per_ip@ =~= old(self).banned_peers_per_ip@.update(
                    i as int,
                    (ip, count),
                ));
            },
            None => {
                proof {
                    lemma_stored_push(self.banned_peers_per_ip@, (ip, count));
                }
                self.banned_peers_per_ip.push((ip, count));
            },
        }
    }

    /// Counts one more banned peer, seen at the given addresses.
    pub(crate) fn add_banned_peer(&mut self, ips: &Vec<IpAddress>)
        requires
            old(self).wf(),
            ips@.no_duplicates(),
            old(self).peers() < usize::MAX,
            forall|k: int| 0 <= k < ips@.len() ==> old(self).at(#[trigger] ips@[k]) < usize::MAX,
        ensures
            final(self).wf(),
            final(self).peers() == old(self).peers() + 1,
            forall|ip: IpAddress| #[trigger]
                final(self).at(ip) == old(self).at(ip) + if ips@.contains(ip) {
                    1nat
                } else {
                    0nat
                },
    {
        self.banned_peers = self.banned_peers + 1;
        let mut k: usize = 0;
        while k < ips.len()
            invariant
                self.wf(),
                k <= ips@.len(),
                ips@.no_duplicates(),
                self.peers() == old(self).peers() + 1,
                forall|j: int| 0 <= j < ips@.len() ==> old(self).at(#[trigger] ips@[j]) < usize::MAX,
                forall|ip: IpAddress| #[trigger]
                    self.at(ip) == old(self).at(ip) + if ips@.take(k as int).contains(ip) {
                        1nat
                    } else {
                        0nat
                    },
            decreases ips@.len() - k,
        {
            let ip = ips[k];
            let ghost done = ips@.take(k as int);
            let ghost next = ips@.take(k + 1);
            proof {
                assert(next =~= done.push(ip));
                assert(!done.contains(ip)) by {
                    if done.contains(ip) {
                        let j = choose|j: int| 0 <= j < done.len() && done[j] == ip;
                        assert(ips@[j] == ips@[k as int]);
                    }
                }
                assert(self.at(ip) == old(self).at(ip));
            }
            let count = self.banned_at(&ip);
            self.set(ip, count + 1);
            proof {
                assert forall|other: IpAddress| #[trigger]
                    self.at(other) == old(self).at(other) + if next.contains(other) {
                        1nat
                    } else {
                        0nat
                    } by {
                    if other == ip {
                        assert(next[k as int] == ip);
                    } else {
                        if next.contains(other) {
                            let j = choose|j: int| 0 <= j < next.len() && next[j] == other;
                            assert(done[j] == other);
                        }
                        if done.contains(other) {
                            let j = choose|j: int| 0 <= j < done.len() && done[j] == other;
                            assert(next[j] == other);
                        }
                    }
                }
            }
            k += 1;
        }
        assert(ips@.take(ips@.len() as int) =~= ips@);
    }

    /// Counts one banned peer less, seen at the given addresses.
    pub(crate) fn remove_banned_peer(&mut self, ips: &Vec<IpAddress>)
        requires
            old(self).wf(),
            ips@.no_duplicates(),
            old(self).peers() > 0,
            forall|k: int| 0 <= k < ips@.len() ==> old(self).at(#[trigger] ips@[k]) > 0,
        ensures
            final(self).wf(),
            final(self).peers() == old(self).peers() - 1,
            forall|ip: IpAddress| #[trigger]
                final(self).at(ip) == old(self).at(ip) - if ips@.contains(ip) {
                    1int
                } else {
                    0int
                },
    {
        self.banned_peers = self.banned_peers - 1;
        let mut k: usize = 0;
        while k < ips.len()
            invariant
                self.wf(),
                k <= ips@.len(),
                ips@.no_duplicates(),
                self.peers() == old(self).peers() - 1,
                forall|j: int| 0 <= j < ips@.len() ==> old(self).at(#[trigger] ips@[j]) > 0,
                forall|ip: IpAddress| #[trigger]
                    self.at(ip) == old(self).at(ip) - if ips@.take(k as int).contains(ip) {
                        1int
                    } else {
                        0int
                    },
            decreases ips@.len() - k,
        {
            let ip = ips[k];
            let ghost done = ips@.take(k as int);
            let ghost next = ips@.take(k + 1);
            proof {
                assert(next =~= done.push(ip));
                assert(!done.contains(ip)) by {
                    if done.contains(ip) {
                        let j = choose|j: int| 0 <= j < done.len() && done[j] == ip;
                        assert(ips@[j] == ips@[k as int]);
                    }
                }
                assert(self.at(ip) == old(self).at(ip));
            }
            let count = self.banned_at(&ip);
            self.set(ip, count - 1);
            proof {
                assert forall|other: IpAddress| #[trigger]
                    self.at(other) == old(self).at(other) - if next.contains(other) {
                        1int
                    } else {
                        0int
                    } by {
                    if other == ip {
                        assert(next[k as int] == ip);
                    } else {
                        if next.contains(other) {
                            let j = choose|j: int| 0 <= j < next.len() && next[j] == other;
                            assert(done[j] == other);
                        }
                        if done.contains(other) {
                            let j = choose|j: int| 0 <= j < done.len() && done[j] == other;
                            assert(next[j] == other);
                        }
                    }
                }
            }
            k += 1;
        }
        assert(ips@.take(ips@.len() as int) =~= ips@);
    }
}

} // verus!
