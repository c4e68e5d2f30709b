use peer_manager::score::{
    PeerAction, Score, ScoreState, BANNED_BEFORE_DECAY, BANNED_THRESHOLD, DISCONNECT_THRESHOLD,
    MAX_SCORE, MIN_SCORE, SCORE_HALFLIFE, SCORE_UNIT,
};

fn with_points(points: i64) -> Score {
    let mut score = Score::new(0);
    score.add(points * SCORE_UNIT);
    score
}

#[test]
fn a_new_score_is_zero_and_healthy() {
    let score = Score::new(7);
    assert_eq!(score.score(), 0);
    assert_eq!(score.state(), ScoreState::Healthy);
    assert_eq!(score.last_updated, 7);
}

#[test]
fn actions_change_the_score_by_their_delta() {
    let mut score = Score::new(0);
    score.apply_peer_action(PeerAction::LowToleranceError);
    assert_eq!(score.score(), -5_000_000);
    score.apply_peer_action(PeerAction::MidToleranceError);
    assert_eq!(score.score(), -7_500_000);
    score.apply_peer_action(PeerAction::HighToleranceError);
    assert_eq!(score.score(), -8_500_000);
    score.apply_peer_action(PeerAction::ValuableGossipMessage);
    assert_eq!(score.score(), -8_400_000);
}

#[test]
fn a_fatal_action_bans() {
    let mut score = with_points(30);
    score.apply_peer_action(PeerAction::Fatal);
    assert_eq!(score.lighthouse_score, MIN_SCORE);
    assert_eq!(score.score(), MIN_SCORE);
    assert_eq!(score.state(), ScoreState::Banned);
}

#[test]
fn thresholds_are_inclusive() {
    let mut score = Score::new(0);
    score.add(DISCONNECT_THRESHOLD + 1);
    assert_eq!(score.state(), ScoreState::Healthy);
    score.add(-1);
    assert_eq!(score.score(), DISCONNECT_THRESHOLD);
    assert_eq!(score.state(), ScoreState::Disconnected);
    score.add(BANNED_THRESHOLD - DISCONNECT_THRESHOLD + 1);
    assert_eq!(score.state(), ScoreState::Disconnected);
    score.add(-1);
    assert_eq!(score.score(), BANNED_THRESHOLD);
    assert_eq!(score.state(), ScoreState::Banned);
}

#[test]
fn the_score_stays_within_its_bounds() {
    let mut score = Score::new(0);
    score.add(i64::MAX);
    assert_eq!(score.lighthouse_score, MAX_SCORE);
    score.add(i64::MIN);
    assert_eq!(score.lighthouse_score, MIN_SCORE);
    score.add(-1);
    assert_eq!(score.lighthouse_score, MIN_SCORE);
}

#[test]
fn the_score_halves_every_half_life() {
    let mut score = with_points(100);
    score.update_at(SCORE_HALFLIFE);
    assert_eq!(score.lighthouse_score, 50 * SCORE_UNIT);
    score.update_at(3 * SCORE_HALFLIFE);
    assert_eq!(score.lighthouse_score, 12_500_000);
    assert_eq!(score.last_updated, 3 * SCORE_HALFLIFE);
}

#[test]
fn within_a_half_life_the_score_falls_along_a_line() {
    let mut score = with_points(-40);
    score.update_at(SCORE_HALFLIFE / 2);
    assert_eq!(score.lighthouse_score, -30 * SCORE_UNIT);
    let mut other = with_points(10);
    other.update_at(SCORE_HALFLIFE + 150);
    // Seven eighths of the full score, halved once.
    assert_eq!(other.lighthouse_score, 4_375_000);
}

#[test]
fn decay_never_moves_a_score_away_from_zero() {
    for points in [-100i64, -49, -1, 0, 1, 37, 100] {
        let mut score = with_points(points);
        let mut last = score.lighthouse_score;
        for now in [1u64, 10, 599, 600, 601, 5_000, 100_000, u64::MAX] {
            score.update_at(now);
            assert!(score.lighthouse_score.abs() <= last.abs());
            assert!(score.lighthouse_score.signum() == last.signum() || score.lighthouse_score == 0);
            last = score.lighthouse_score;
        }
        assert_eq!(last, 0);
    }
}

#[test]
fn a_read_counts_the_decay_in_and_leaves_the_score() {
    let score = with_points(-40);
    assert_eq!(score.score_at(SCORE_HALFLIFE), -20 * SCORE_UNIT);
    assert_eq!(score.score_at(0), -40 * SCORE_UNIT);
    assert_eq!(score.score(), -40 * SCORE_UNIT);
    assert_eq!(score.last_updated, 0);
    // A score at the ban threshold is held for a while.
    let banned = with_points(-80);
    assert_eq!(banned.score_at(SCORE_HALFLIFE), -80 * SCORE_UNIT);
}

#[test]
fn a_clock_that_went_back_changes_nothing() {
    let mut score = Score::new(1_000);
    score.add(-10 * SCORE_UNIT);
    score.update_at(500);
    assert_eq!(score.lighthouse_score, -10 * SCORE_UNIT);
    assert_eq!(score.last_updated, 1_000);
}

#[test]
fn a_ban_holds_the_decay_off() {
    let mut score = Score::new(100);
    score.apply_peer_action(PeerAction::Fatal);
    assert_eq!(score.last_updated, 100 + BANNED_BEFORE_DECAY);
    score.update_at(100 + BANNED_BEFORE_DECAY - 1);
    assert_eq!(score.lighthouse_score, MIN_SCORE);
    score.update_at(100 + BANNED_BEFORE_DECAY + SCORE_HALFLIFE);
    assert_eq!(score.lighthouse_score, MIN_SCORE / 2);
    // A second fatal action on a banned peer adds no further hold.
    let before = score.last_updated;
    score.apply_peer_action(PeerAction::Fatal);
    assert_eq!(score.last_updated, before);
}

#[test]
fn the_gossip_score_counts_with_its_weight() {
    let mut score = Score::new(0);
    score.update_gossipsub_score(-16_000 * SCORE_UNIT, false);
    assert_eq!(score.score(), -19 * SCORE_UNIT);
    assert_eq!(score.state(), ScoreState::Healthy);
    score.update_gossipsub_score(16_000 * SCORE_UNIT, false);
    assert_eq!(score.score(), 19 * SCORE_UNIT);
    score.update_gossipsub_score(-85 * SCORE_UNIT, false);
    assert_eq!(score.score(), -100_937);
}

#[test]
fn an_ignored_negative_gossip_score_does_not_count() {
    let mut score = with_points(-3);
    score.update_gossipsub_score(-16_000 * SCORE_UNIT, true);
    assert_eq!(score.score(), -3 * SCORE_UNIT);
    score.update_gossipsub_score(16_000 * SCORE_UNIT, true);
    assert_eq!(score.score(), 16 * SCORE_UNIT);
}

#[test]
fn the_gossip_score_does_not_lift_a_ban() {
    let mut score = Score::new(0);
    score.update_gossipsub_score(i64::MAX, false);
    score.apply_peer_action(PeerAction::Fatal);
    assert_eq!(score.score(), MIN_SCORE);
    assert_eq!(score.state(), ScoreState::Banned);
}

#[test]
fn two_reports_are_one_report_of_twice_the_delta() {
    let deltas = [
        (PeerAction::LowToleranceError, -5_000_000i64),
        (PeerAction::MidToleranceError, -2_500_000),
        (PeerAction::HighToleranceError, -1_000_000),
        (PeerAction::ValuableGossipMessage, 100_000),
    ];
    for start in [-100i64, -97, -50, -46, -45, -20, 0, 99, 100] {
        for (action, delta) in deltas {
            let mut twice = with_points(start);
            twice.apply_peer_action(action);
            twice.apply_peer_action(action);
            let mut once = with_points(start);
            once.add(2 * delta);
            assert_eq!(twice, once);
        }
    }
}
