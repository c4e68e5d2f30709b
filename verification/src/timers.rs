//! Sets of peers that wait for a deadline.
//!
//! A set holds each peer once, with the second at which its timer runs out.
//! The caller reads the clock and asks which timer has run out.

use crate::types::PeerId;
use vstd::prelude::*;

verus! {

/// Peers with a timer each; all timers of a set run for the same period.
#[derive(Debug)]
pub struct TimerSet {
    period: u64,
    entries: Vec<(PeerId, u64)>,
}

spec fn ids_distinct(entries: Seq<(PeerId, u64)>) -> bool {
    forall|i: int, j: int| 0 <= i < j < entries.len() ==> entries[i].0 != entries[j].0
}

spec fn holds_id(entries: Seq<(PeerId, u64)>, id: PeerId) -> bool {
    exists|i: int| 0 <= i < entries.len() && (#[trigger] entries[i]).0 == id
}

spec fn position(entries: Seq<(PeerId, u64)>, id: PeerId) -> int {
    choose|i: int| 0 <= i < entries.len() && (#[trigger] entries[i]).0 == id
}

spec fn map_of(entries: Seq<(PeerId, u64)>) -> Map<PeerId, u64> {
    Map::new(|id: PeerId| holds_id(entries, id), |id: PeerId| entries[position(entries, id)].1)
}

proof fn lemma_position(entries: Seq<(PeerId, u64)>, i: int)
    requires
        ids_distinct(entries),
        0 <= i < entries.len(),
    ensures
        holds_id(entries, entries[i].0),
        position(entries, entries[i].0) == i,
        map_of(entries).contains_key(entries[i].0),
        map_of(entries)[entries[i].0] == entries[i].1,
{
    assert(entries[i].0 == entries[i].0);
}

proof fn lemma_push(before: Seq<(PeerId, u64)>, entry: (PeerId, u64))
    requires
        ids_distinct(before),
        !holds_id(before, entry.0),
    ensures
        ids_distinct(before.push(entry)),
        map_of(before.push(entry)) == map_of(before).insert(entry.0, entry.1),
{
    let after = before.push(entry);
    assert forall|a: int, b: int| 0 <= a < b < after.len() implies after[a].0 != after[b].0 by {
        if b == before.len() {
            assert(before[a].0 == after[a].0);
        }
    }
    let target = map_of(before).insert(entry.0, entry.1);
    assert forall|id: PeerId| map_of(after).contains_key(id) == target.contains_key(id) by {
        if holds_id(after, id) {
            let k = position(after, id);
            if k < before.len() {
                assert(before[k].0 == id);
            }
        }
        if holds_id(before, id) {
            let k = position(before, id);
            assert(after[k].0 == id);
        }
        if id == entry.0 {
            assert(after[before.len() as int].0 == id);
        }
    }
    assert forall|id: PeerId| map_of(after).contains_key(id) implies map_of(after)[id]
        == target[id] by {
        let k = position(after, id);
        lemma_position(after, k);
        if k < before.len() {
            lemma_position(before, k);
        }
    }
    assert(map_of(after) =~= target);
}

proof fn lemma_remove(before: Seq<(PeerId, u64)>, i: int)
    requires
        ids_distinct(before),
        0 <= i < before.len(),
    ensures
        ids_distinct(before.remove(i)),
        map_of(before.remove(i)) == map_of(before).remove(before[i].0),
{
    let after = before.remove(i);
    assert forall|a: int, b: int| 0 <= a < b < after.len() implies after[a].0 != after[b].0 by {
        let a0 = if a < i { a } else { a + 1 };
        let b0 = if b < i { b } else { b + 1 };
        assert(after[a] == before[a0]);
        assert(after[b] == before[b0]);
    }
    let target = map_of(before).remove(before[i].0);
    assert forall|id: PeerId| map_of(after).contains_key(id) == target.contains_key(id) by {
        if holds_id(after, id) {
            let k = position(after, id);
            let k0 = if k < i { k } else { k + 1 };
            assert(after[k] == before[k0]);
            assert(before[k0].0 == id);
        }
        if holds_id(before, id) && id != before[i].0 {
            let k = position(before, id);
            let k1 = if k < i { k } else { k - 1 };
            assert(after[k1] == before[k]);
            assert(after[k1].0 == id);
        }
    }
    assert forall|id: PeerId| map_of(after).contains_key(id) implies map_of(after)[id]
        == target[id] by {
        let k = position(after, id);
        let k0 = if k < i { k } else { k + 1 };
        lemma_position(after, k);
        assert(after[k] == before[k0]);
        lemma_position(before, k0);
    }
    assert(map_of(after) =~= target);
}

/// Whether `a` stands before `b` among the entries.
spec fn earlier(entries: Seq<(PeerId, u64)>, a: PeerId, b: PeerId) -> bool {
    holds_id(entries, a) && holds_id(entries, b) && position(entries, a) < position(entries, b)
}

proof fn lemma_earlier_push(before: Seq<(PeerId, u64)>, entry: (PeerId, u64))
    requires
        ids_distinct(before),
        !holds_id(before, entry.0),
    ensures
        forall|a: PeerId, b: PeerId|
            a != entry.0 && b != entry.0 ==> #[trigger] earlier(before.push(entry), a, b)
                == earlier(before, a, b),
        forall|a: PeerId|
            holds_id(before, a) ==> #[trigger] earlier(before.push(entry), a, entry.0),
{
    let after = before.push(entry);
    lemma_push(before, entry);
    lemma_position(after, before.len() as int);
    assert forall|a: PeerId| holds_id(before, a) implies holds_id(after, a) && position(after, a)
        == position(before, a) by {
        let k = position(before, a);
        assert(after[k].0 == a);
        lemma_position(after, k);
    }
    assert forall|a: PeerId| a != entry.0 && holds_id(after, a) implies holds_id(before, a) by {
        let k = position(after, a);
        assert(before[k].0 == a);
    }
    assert forall|a: PeerId, b: PeerId| a != entry.0 && b != entry.0 implies #[trigger] earlier(
        after,
        a,
        b,
    ) == earlier(before, a, b) by {}
    assert forall|a: PeerId| holds_id(before, a) implies #[trigger] earlier(after, a, entry.0) by {}
}

proof fn lemma_earlier_remove(before: Seq<(PeerId, u64)>, i: int)
    requires
        ids_distinct(before),
        0 <= i < before.len(),
    ensures
        forall|a: PeerId, b: PeerId|
            a != before[i].0 && b != before[i].0 ==> #[trigger] earlier(before.remove(i), a, b)
                == earlier(before, a, b),
{
    let after = before.remove(i);
    lemma_remove(before, i);
    assert forall|a: PeerId| a != before[i].0 && holds_id(before, a) implies holds_id(after, a)
        && position(after, a) == if position(before, a) < i {
        position(before, a)
    } else {
        position(before, a) - 1
    } by {
        let k = position(before, a);
        let k1 = if k < i { k } else { k - 1 };
        assert(after[k1] == before[k]);
        lemma_position(after, k1);
    }
    assert forall|a: PeerId| holds_id(after, a) implies holds_id(before, a) && a
        != before[i].0 by {
        let k = position(after, a);
        let k0 = if k < i { k } else { k + 1 };
        assert(after[k] == before[k0]);
        assert(before[k0].0 == a);
    }
    assert forall|a: PeerId, b: PeerId| a != before[i].0 && b != before[i].0 implies #[trigger] earlier(
        after,
        a,
        b,
    ) == earlier(before, a, b) by {}
}

/// The second at which a timer set at `now` runs out; a second that the
/// clock cannot show is the last one it can.
pub open spec fn deadline(now: u64, period: u64) -> u64 {
    if now + period > u64::MAX {
        u64::MAX
    } else {
        (now + period) as u64
    }
}

impl View for TimerSet {
    type V = Map<PeerId, u64>;

    /// The deadline of every peer that waits.
    closed spec fn view(&self) -> Map<PeerId, u64> {
        map_of(self.entries@)
    }
}

impl TimerSet {
    /// No peer waits twice.
    pub closed spec fn wf(&self) -> bool {
        ids_distinct(self.entries@)
    }

    /// Whether the timer of `a` was set before that of `b`, of two peers
    /// that wait.
    pub closed spec fn waits_longer(&self, a: PeerId, b: PeerId) -> bool {
        earlier(self.entries@, a, b)
    }

    /// The seconds for which the timers of this set run.
    pub closed spec fn spec_period(&self) -> u64 {
        self.period
    }

    /// A set in which no peer waits.
    pub fn new(period: u64) -> (set: TimerSet)
        ensures
            set.wf(),
            set.spec_period() == period,
            set@ == Map::<PeerId, u64>::empty(),
    {
        let set = TimerSet { period, entries: Vec::new() };
        assert(set@ =~= Map::<PeerId, u64>::empty());
        set
    }

    /// The seconds for which the timers of this set run.
    pub fn period(&self) -> (period: u64)
        ensures
            period == self.spec_period(),
    {
        self.period
    }

    fn find(&self, id: &PeerId) -> (found: Option<usize>)
        requires
            self.wf(),
        ensures
            match found {
                Some(i) => i < self.entries@.len() && self.entries@[i as int].0 == *id
                    && self@.contains_key(*id) && self@[*id] == self.entries@[i as int].1,
                None => !self@.contains_key(*id) && !holds_id(self.entries@, *id),
            },
    {
        let mut i: usize = 0;
        while i < self.entries.len()
            invariant
                self.wf(),
                i <= self.entries@.len(),
                forall|k: int| 0 <= k < i ==> self.entries@[k].0 != *id,
            decreases self.entries@.len() - i,
        {
            if self.entries[i].0 == *id {
                proof {
                    lemma_position(self.entries@, i as int);
                }
                return Some(i);
            }
            i += 1;
        }
        None
    }

    /// Whether the peer waits.
    pub fn contains(&self, id: &PeerId) -> (yes: bool)
        requires
            self.wf(),
        ensures
            yes == self@.contains_key(*id),
    {
        self.find(id).is_some()
    }

    /// Sets the peer's timer to run out one period after `now`. A timer that
    /// the peer had is replaced.
    pub fn insert(&mut self, id: PeerId, now: u64)
        requires
            old(self).wf(),
        ensures
            final(self).wf(),
            final(self).spec_period() == old(self).spec_period(),
            final(self)@ == old(self)@.insert(id, deadline(now, old(self).spec_period())),
            forall|a: PeerId, b: PeerId|
                a != id && b != id ==> #[trigger] final(self).waits_longer(a, b) == old(
                    self,
                ).waits_longer(a, b),
            forall|a: PeerId|
                a != id && old(self)@.contains_key(a) ==> #[trigger] final(self).waits_longer(a, id),
    {
        let until: u64 = if now > u64::MAX - self.period {
            u64::MAX
        } else {
            now + self.period
        };
        let _ = self.remove(&id);
        let ghost removed = *self;
        proof {
            assert(!self@.contains_key(id));
            assert(!holds_id(self.entries@, id)) by {
                if holds_id(self.entries@, id) {
                    assert(map_of(self.entries@).dom().contains(id));
                }
            }
            lemma_push(self.entries@, (id, until));
            lemma_earlier_push(self.entries@, (id, until));
            assert(old(self)@.remove(id).insert(id, until) =~= old(self)@.insert(id, until));
        }
        self.entries.push((id, until));
        proof {
            assert forall|a: PeerId, b: PeerId| a != id && b != id implies #[trigger] self.waits_longer(
                a,
                b,
            ) == old(self).waits_longer(a, b) by {
                assert(self.waits_longer(a, b) == removed.waits_longer(a, b));
                assert(removed.waits_longer(a, b) == old(self).waits_longer(a, b));
            }
            assert forall|a: PeerId| a != id && old(self)@.contains_key(a) implies #[trigger] self.waits_longer(
                a,
                id,
            ) by {
                assert(removed@.contains_key(a));
                assert(holds_id(removed.entries@, a));
            }
        }
    }

    /// Takes the peer's timer away and tells whether it had one.
    pub fn remove(&mut self, id: &PeerId) -> (had: bool)
        requires
            old(self).wf(),
        ensures
            final(self).wf(),
            final(self).spec_period() == old(self).spec_period(),
            final(self)@ == old(self)@.remove(*id),
            had == old(self)@.contains_key(*id),
            forall|a: PeerId, b: PeerId|
                a != *id && b != *id ==> #[trigger] final(self).waits_longer(a, b) == old(
                    self,
                ).waits_longer(a, b),
    {
        match self.find(id) {
            Some(i) => {
                proof {
                    lemma_remove(self.entries@, i as int);
                    lemma_earlier_remove(self.entries@, i as int);
                }
                let _ = self.entries.remove(i);
                true
            },
            None => {
                assert(self@ =~= old(self)@.remove(*id));
                false
            },
        }
    }

    /// Takes out a peer whose timer has run out at `now`: the one whose
    /// timer ran out first, and of those that ran out in the same second the
    /// one whose timer was set first. `None` where no timer has run out.
    pub fn poll_expired(&mut self, now: u64) -> (expired: Option<PeerId>)
        requires
            old(self).wf(),
        ensures
            final(self).wf(),
            final(self).spec_period() == old(self).spec_period(),
            match expired {
                Some(id) => {
                    &&& old(self)@.contains_key(id)
                    &&& old(self)@[id] <= now
                    &&& forall|other: PeerId|
                        old(self)@.contains_key(other) ==> old(self)@[id] <= #[trigger] old(
                            self,
                        )@[other]
                    &&& final(self)@ == old(self)@.remove(id)
                    &&& forall|other: PeerId|
                        other != id && old(self)@.contains_key(other) && old(self)@[other] == old(
                            self,
                        )@[id] ==> #[trigger] old(self).waits_longer(id, other)
                    &&& forall|a: PeerId, b: PeerId|
                        a != id && b != id ==> #[trigger] final(self).waits_longer(a, b) == old(
                            self,
                        ).waits_longer(a, b)
                },
                None => {
                    &&& forall|other: PeerId|
                        old(self)@.contains_key(other) ==> (#[trigger] old(self)@[other]) > now
                    &&& final(self)@ == old(self)@
                    &&& forall|a: PeerId, b: PeerId| #[trigger]
                        final(self).waits_longer(a, b) == old(self).waits_longer(a, b)
                },
            },
    {
        let mut first: Option<usize> = None;
        let mut i: usize = 0;
        while i < self.entries.len()
            invariant
                self.wf(),
                i <= self.entries@.len(),
                match first {
                    Some(best) => best < i && (forall|k: int|
                        0 <= k < i ==> self.entries@[best as int].1 <= (
                        #[trigger] self.entries@[k]).1) && (forall|k: int|
                        0 <= k < best ==> self.entries@[best as int].1 < (
                        #[trigger] self.entries@[k]).1),
                    None => i == 0,
                },
            decreases self.entries@.len() - i,
        {
            let earlier = match first {
                Some(best) => self.entries[i].1 < self.entries[best].1,
                None => true,
            };
            if earlier {
                first = Some(i);
            }
            i += 1;
        }
        match first {
            Some(best) => {
                proof {
                    lemma_position(self.entries@, best as int);
                    assert forall|other: PeerId| self@.contains_key(other) implies self.entries@[best as int].1
                        <= #[trigger] self@[other] by {
                        let k = position(self.entries@, other);
                        lemma_position(self.entries@, k);
                    }
                }
                if self.entries[best].1 <= now {
                    proof {
                        lemma_remove(self.entries@, best as int);
                        lemma_earlier_remove(self.entries@, best as int);
                        let id = self.entries@[best as int].0;
                        assert forall|other: PeerId|
                            other != id && self@.contains_key(other) && self@[other]
                                == self@[id] implies #[trigger] self.waits_longer(id, other) by {
                            let k = position(self.entries@, other);
                            lemma_position(self.entries@, k);
                        }
                    }
                    let entry = self.entries.remove(best);
                    Some(entry.0)
                } else {
                    None
                }
            },
            None => {
                assert forall|other: PeerId| self@.contains_key(other) implies (#[trigger] self@[other])
                    > now by {
                    let k = position(self.entries@, other);
                    assert(false);
                }
                None
            },
        }
    }

    /// The second at which the next timer runs out, where a peer waits.
    pub fn next_deadline(&self) -> (next: Option<u64>)
        requires
            self.wf(),
        ensures
            match next {
                Some(at) => (exists|id: PeerId| self@.contains_key(id) && self@[id] == at)
                    && forall|other: PeerId|
                    self@.contains_key(other) ==> at <= #[trigger] self@[other],
                None => self@ == Map::<PeerId, u64>::empty(),
            },
    {
        let mut next: Option<u64> = None;
        let mut i: usize = 0;
        while i < self.entries.len()
            invariant
                self.wf(),
                i <= self.entries@.len(),
                match next {
                    Some(at) => (exists|k: int| 0 <= k < i && (#[trigger] self.entries@[k]).1 == at)
                        && forall|k: int| 0 <= k < i ==> at <= (#[trigger] self.entries@[k]).1,
                    None => i == 0,
                },
            decreases self.entries@.len() - i,
        {
            let earlier = match next {
                Some(at) => self.entries[i].1 < at,
                None => true,
            };
            if earlier {
                next = Some(self.entries[i].1);
            }
            i += 1;
        }
        proof {
            match next {
                Some(at) => {
                    let k = choose|k: int|
                        0 <= k < self.entries@.len() && (#[trigger] self.entries@[k]).1 == at;
                    lemma_position(self.entries@, k);
                    let holder = self.entries@[k].0;
                    assert(self@.contains_key(holder) && self@[holder] == at);
                    assert forall|other: PeerId| self@.contains_key(other) implies at
                        <= #[trigger] self@[other] by {
                        let j = position(self.entries@, other);
                        lemma_position(self.entries@, j);
                    }
                },
                None => {
                    assert(self@ =~= Map::<PeerId, u64>::empty());
                },
            }
        }
        next
    }
}

} // verus!
