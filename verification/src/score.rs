//! The reputation of a peer.
//!
//! A score is a fixed-point number: `SCORE_UNIT` steps make one point. It is
//! the sum of the score that this node gives the peer for what it did and a
//! weighted share of the score that the gossip layer reports for it. The
//! node's own score decays towards zero with a fixed half-life.

use vstd::prelude::*;

verus! {

/// The number of steps in one point of score.
pub const SCORE_UNIT: i64 = 1_000_000;

/// The score of a peer of which nothing is known.
pub const DEFAULT_SCORE: i64 = 0;

/// The highest score a peer can have: 100 points.
pub const MAX_SCORE: i64 = 100_000_000;

/// The lowest score a peer can have: -100 points.
pub const MIN_SCORE: i64 = -100_000_000;

/// At this score or below a connected peer is disconnected: -20 points.
pub const DISCONNECT_THRESHOLD: i64 = -20_000_000;

/// At this score or below a peer is banned: -50 points.
pub const BANNED_THRESHOLD: i64 = -50_000_000;

/// The seconds in which an untouched score loses half its magnitude.
pub const SCORE_HALFLIFE: u64 = 600;

/// The seconds for which a score that fell to the ban threshold does not decay.
pub const BANNED_BEFORE_DECAY: u64 = 43_200;

/// The gossip layer's score counts with the weight
/// `GOSSIPSUB_WEIGHT_NUMERATOR / GOSSIPSUB_WEIGHT_DENOMINATOR`: a gossip score
/// at its greylist threshold of -16000 points costs 19 points, one short of
/// a disconnection.
pub const GOSSIPSUB_WEIGHT_NUMERATOR: i64 = 19;

/// See `GOSSIPSUB_WEIGHT_NUMERATOR`.
pub const GOSSIPSUB_WEIGHT_DENOMINATOR: i64 = 16_000;

/// What a peer did, by how much the node tolerates it.
#[derive(Clone, Copy, Debug, PartialEq, Eq, Structural)]
pub enum PeerAction {
    /// The peer broke the protocol: it gets the lowest score and is banned.
    Fatal,
    /// An error that is tolerated about ten times before a ban.
    LowToleranceError,
    /// An error that is tolerated about twenty times before a ban.
    MidToleranceError,
    /// An error that is tolerated about fifty times before a ban.
    HighToleranceError,
    /// The peer delivered a gossip message that was of use.
    ValuableGossipMessage,
}

/// What a score asks for.
#[derive(Clone, Copy, Debug, PartialEq, Eq, Structural)]
pub enum ScoreState {
    /// The peer may stay.
    Healthy,
    /// The peer is to be disconnected; it may connect again.
    Disconnected,
    /// The peer is to be banned.
    Banned,
}

/// `n / d` rounded towards zero, for a positive `d`.
pub open spec fn div_towards_zero(n: int, d: int) -> int {
    if n >= 0 {
        n / d
    } else {
        -((-n) / d)
    }
}

/// `value` held within `low ..= high`.
pub open spec fn clamped(value: int, low: int, high: int) -> int {
    if value < low {
        low
    } else if value > high {
        high
    } else {
        value
    }
}

/// `magnitude` halved `times` times, each time rounded down: the whole part
/// of `magnitude / 2^times`.
pub open spec fn halved(magnitude: nat, times: nat) -> nat
    decreases times,
{
    if times == 0 {
        magnitude
    } else {
        halved(magnitude / 2, (times - 1) as nat)
    }
}

/// What is left of a score of the given magnitude after `elapsed` seconds.
///
/// After every whole half-life the magnitude is halved. Within a half-life it
/// falls along the straight line from the full to the half magnitude.
pub open spec fn decayed_magnitude(magnitude: nat, elapsed: nat) -> nat {
    let whole = elapsed / (SCORE_HALFLIFE as nat);
    let rest = elapsed % (SCORE_HALFLIFE as nat);
    halved(magnitude * (2 * SCORE_HALFLIFE - rest) as nat / (2 * SCORE_HALFLIFE) as nat, whole)
}

/// What is left of a score after `elapsed` seconds: its sign with the decayed
/// magnitude.
pub open spec fn decayed(score: int, elapsed: nat) -> int {
    if score >= 0 {
        decayed_magnitude(score as nat, elapsed) as int
    } else {
        -(decayed_magnitude((-score) as nat, elapsed) as int)
    }
}

/// The change that an action makes to the node's own score; `Fatal` has none,
/// it sets the score to `MIN_SCORE`.
pub open spec fn action_delta(action: PeerAction) -> int {
    match action {
        PeerAction::Fatal => 0,
        PeerAction::LowToleranceError => -5_000_000,
        PeerAction::MidToleranceError => -2_500_000,
        PeerAction::HighToleranceError => -1_000_000,
        PeerAction::ValuableGossipMessage => 100_000,
    }
}

/// The share of a gossip score that counts in a peer's score.
pub open spec fn gossipsub_share(gossipsub_score: int) -> int {
    div_towards_zero(
        gossipsub_score * GOSSIPSUB_WEIGHT_NUMERATOR,
        GOSSIPSUB_WEIGHT_DENOMINATOR as int,
    )
}

/// The state that a score asks for.
pub open spec fn state_of(score: int) -> ScoreState {
    if score <= BANNED_THRESHOLD {
        ScoreState::Banned
    } else if score <= DISCONNECT_THRESHOLD {
        ScoreState::Disconnected
    } else {
        ScoreState::Healthy
    }
}

/// The score of one peer.
#[derive(Clone, Copy, Debug, PartialEq, Eq, Structural)]
pub struct Score {
    /// The score this node gives the peer, within `MIN_SCORE ..= MAX_SCORE`.
    pub lighthouse_score: i64,
    /// The score the gossip layer last reported for the peer.
    pub gossipsub_score: i64,
    /// Whether a negative gossip score is left out of the peer's score.
    pub ignore_negative_gossipsub_score: bool,
    /// The second up to which the decay has been applied.
    pub last_updated: u64,
}

impl Score {
    /// The node's own score is within its bounds.
    pub open spec fn wf(&self) -> bool {
        MIN_SCORE <= self.lighthouse_score <= MAX_SCORE
    }

    /// The peer's score: the node's own score and the weighted gossip score.
    ///
    /// The gossip score does not count once the node's own score is at the
    /// ban threshold, and a negative one does not count where it is ignored.
    pub open spec fn spec_score(&self) -> int {
        if self.lighthouse_score <= BANNED_THRESHOLD {
            self.lighthouse_score as int
        } else if self.gossipsub_score >= 0 || !self.ignore_negative_gossipsub_score {
            self.lighthouse_score + gossipsub_share(self.gossipsub_score as int)
        } else {
            self.lighthouse_score as int
        }
    }

    /// The state that the peer's score asks for.
    pub open spec fn spec_state(&self) -> ScoreState {
        state_of(self.spec_score())
    }

    /// This score with the node's own score set to `value`. A fall to the ban
    /// threshold holds the decay off for `BANNED_BEFORE_DECAY` seconds.
    pub open spec fn with_lighthouse_score(&self, value: int) -> Score {
        Score {
            lighthouse_score: value as i64,
            last_updated: if self.lighthouse_score > BANNED_THRESHOLD && value <= BANNED_THRESHOLD {
                if self.last_updated + BANNED_BEFORE_DECAY > u64::MAX {
                    u64::MAX
                } else {
                    (self.last_updated + BANNED_BEFORE_DECAY) as u64
                }
            } else {
                self.last_updated
            },
            ..*self
        }
    }

    /// This score after `delta` was added to the node's own score, which
    /// stays within its bounds.
    pub open spec fn spec_add(&self, delta: int) -> Score {
        self.with_lighthouse_score(
            clamped(self.lighthouse_score + delta, MIN_SCORE as int, MAX_SCORE as int),
        )
    }

    /// This score after the peer was reported for `action`.
    pub open spec fn spec_apply_peer_action(&self, action: PeerAction) -> Score {
        match action {
            PeerAction::Fatal => self.with_lighthouse_score(MIN_SCORE as int),
            _ => self.spec_add(action_delta(action)),
        }
    }

    /// This score read at second `now`: decayed over the time since it was
    /// last updated. A clock that has not passed that second changes nothing.
    pub open spec fn spec_update_at(&self, now: u64) -> Score {
        if now >= self.last_updated {
            Score {
                lighthouse_score: decayed(
                    self.lighthouse_score as int,
                    (now - self.last_updated) as nat,
                ) as i64,
                last_updated: now,
                ..*self
            }
        } else {
            *self
        }
    }

    /// This score with a new report of the gossip layer.
    pub open spec fn spec_with_gossipsub_score(&self, gossipsub_score: i64, ignore: bool) -> Score {
        Score {
            gossipsub_score,
            ignore_negative_gossipsub_score: ignore,
            ..*self
        }
    }

    /// The score of a peer first seen at second `now`.
    pub fn new(now: u64) -> (score: Score)
        ensures
            score.wf(),
            score.lighthouse_score == DEFAULT_SCORE,
            score.gossipsub_score == DEFAULT_SCORE,
            !score.ignore_negative_gossipsub_score,
            score.last_updated == now,
            score.spec_score() == DEFAULT_SCORE,
            score.spec_state() == ScoreState::Healthy,
    {
        Score {
            lighthouse_score: DEFAULT_SCORE,
            gossipsub_score: DEFAULT_SCORE,
            ignore_negative_gossipsub_score: false,
            last_updated: now,
        }
    }

    /// The peer's score.
    pub fn score(&self) -> (value: i64)
        requires
            self.wf(),
        ensures
            value == self.spec_score(),
    {
        if self.lighthouse_score <= BANNED_THRESHOLD {
            self.lighthouse_score
        } else if self.gossipsub_score >= 0 || !self.ignore_negative_gossipsub_score {
            let negative = self.gossipsub_score < 0;
            let magnitude: u128 = if negative {
                (-(self.gossipsub_score as i128)) as u128
            } else {
                self.gossipsub_score as u128
            };
            let share: u128 = magnitude * (GOSSIPSUB_WEIGHT_NUMERATOR as u128) / (
            GOSSIPSUB_WEIGHT_DENOMINATOR as u128);
            if negative {
                self.lighthouse_score - (share as i64)
            } else {
                self.lighthouse_score + (share as i64)
            }
        } else {
            self.lighthouse_score
        }
    }

    /// The peer's score as it is at second `now`, with the decay since the
    /// last update counted in. The score itself stays as it is.
    pub fn score_at(&self, now: u64) -> (value: i64)
        requires
            self.wf(),
        ensures
            value == self.spec_update_at(now).spec_score(),
    {
        let mut read = *self;
        read.update_at(now);
        read.score()
    }

    /// The state that the peer's score asks for.
    pub fn state(&self) -> (state: ScoreState)
        requires
            self.wf(),
        ensures
            state == self.spec_state(),
    {
        let value = self.score();
        if value <= BANNED_THRESHOLD {
            ScoreState::Banned
        } else if value <= DISCONNECT_THRESHOLD {
            ScoreState::Disconnected
        } else {
            ScoreState::Healthy
        }
    }

    fn set_lighthouse_score(&mut self, value: i64)
        requires
            MIN_SCORE <= value <= MAX_SCORE,
        ensures
            *final(self) == old(self).with_lighthouse_score(value as int),
            final(self).wf(),
    {
        if self.lighthouse_score > BANNED_THRESHOLD && value <= BANNED_THRESHOLD {
            if self.last_updated > u64::MAX - BANNED_BEFORE_DECAY {
                self.last_updated = u64::MAX;
            } else {
                self.last_updated = self.last_updated + BANNED_BEFORE_DECAY;
            }
        }
        self.lighthouse_score = value;
    }

    /// Adds `delta` to the node's own score and holds it within its bounds.
    pub fn add(&mut self, delta: i64)
        requires
            old(self).wf(),
        ensures
            *final(self) == old(self).spec_add(delta as int),
            final(self).wf(),
    {
        let sum: i128 = self.lighthouse_score as i128 + delta as i128;
        let value: i64 = if sum < MIN_SCORE as i128 {
            MIN_SCORE
        } else if sum > MAX_SCORE as i128 {
            MAX_SCORE
        } else {
            sum as i64
        };
        self.set_lighthouse_score(value);
    }

    /// Scores the peer for `action`.
    pub fn apply_peer_action(&mut self, action: PeerAction)
        requires
            old(self).wf(),
        ensures
            *final(self) == old(self).spec_apply_peer_action(action),
            final(self).wf(),
            action == PeerAction::Fatal ==> final(self).spec_state() == ScoreState::Banned,
    {
        match action {
            PeerAction::Fatal => self.set_lighthouse_score(MIN_SCORE),
            PeerAction::LowToleranceError => self.add(-5_000_000),
            PeerAction::MidToleranceError => self.add(-2_500_000),
            PeerAction::HighToleranceError => self.add(-1_000_000),
            PeerAction::ValuableGossipMessage => self.add(100_000),
        }
    }

    /// Applies the decay for the time between the last update and `now`.
    pub fn update_at(&mut self, now: u64)
        requires
            old(self).wf(),
        ensures
            *final(self) == old(self).spec_update_at(now),
            final(self).wf(),
    {
        if now >= self.last_updated {
            let elapsed: u64 = now - self.last_updated;
            let negative = self.lighthouse_score < 0;
            let magnitude: u64 = if negative {
                (-self.lighthouse_score) as u64
            } else {
                self.lighthouse_score as u64
            };
            let left = decay_magnitude(magnitude, elapsed);
            proof {
                lemma_decay_shrinks(magnitude as nat, elapsed as nat);
            }
            self.lighthouse_score = if negative {
                -(left as i64)
            } else {
                left as i64
            };
            self.last_updated = now;
        }
    }

    /// Takes a new report of the gossip layer; `ignore` says whether a
    /// negative report is left out of the peer's score.
    pub fn update_gossipsub_score(&mut self, gossipsub_score: i64, ignore: bool)
        ensures
            *final(self) == old(self).spec_with_gossipsub_score(gossipsub_score, ignore),
            final(self).wf() == old(self).wf(),
    {
        self.gossipsub_score = gossipsub_score;
        self.ignore_negative_gossipsub_score = ignore;
    }
}

fn decay_magnitude(magnitude: u64, elapsed: u64) -> (left: u64)
    requires
        magnitude <= MAX_SCORE,
    ensures
        left == decayed_magnitude(magnitude as nat, elapsed as nat),
{
    let whole: u64 = elapsed / SCORE_HALFLIFE;
    let rest: u64 = elapsed % SCORE_HALFLIFE;
    assert(magnitude * (2 * SCORE_HALFLIFE - rest) <= 120_000_000_000) by (nonlinear_arith)
        requires
            magnitude <= 100_000_000,
            0 <= rest < 600,
    ;
    let mut left: u64 = magnitude * (2 * SCORE_HALFLIFE - rest) / (2 * SCORE_HALFLIFE);
    let mut done: u64 = 0;
    while done < whole && left > 0
        invariant
            done <= whole,
            halved(left as nat, (whole - done) as nat) == decayed_magnitude(
                magnitude as nat,
                elapsed as nat,
            ),
        decreases whole - done,
    {
        left = left / 2;
        done = done + 1;
    }
    proof {
        lemma_halved_zero((whole - done) as nat);
    }
    left
}

/// Nothing halved stays nothing.
pub proof fn lemma_halved_zero(times: nat)
    ensures
        halved(0, times) == 0,
    decreases times,
{
    if times > 0 {
        lemma_halved_zero((times - 1) as nat);
    }
}

/// Halving never adds.
pub proof fn lemma_halved_shrinks(magnitude: nat, times: nat)
    ensures
        halved(magnitude, times) <= magnitude,
    decreases times,
{
    if times > 0 {
        lemma_halved_shrinks(magnitude / 2, (times - 1) as nat);
    }
}

/// Decay never adds to the magnitude of a score.
pub proof fn lemma_decay_shrinks(magnitude: nat, elapsed: nat)
    ensures
        decayed_magnitude(magnitude, elapsed) <= magnitude,
{
    let whole = elapsed / (SCORE_HALFLIFE as nat);
    let rest = elapsed % (SCORE_HALFLIFE as nat);
    let scaled = magnitude * ((2 * SCORE_HALFLIFE - rest) as nat) / ((2 * SCORE_HALFLIFE) as nat);
    assert(scaled <= magnitude) by (nonlinear_arith)
        requires
            scaled == magnitude * ((1200 - rest) as nat) / 1200,
            0 <= rest < 600,
    ;
    lemma_halved_shrinks(scaled, whole);
}

} // verus!
