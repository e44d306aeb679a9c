use gobby::arena::ArenaResult;
use gobby::net::{parameter_count, CheckpointHeader};
use gobby::selfplay::{ply_label, Outcome};

#[test]
fn parameter_count_is_in_the_expected_range() {
    let n = parameter_count();
    assert!(n > 9_000_000, "expected > 9M params, got {n}");
    assert!(n < 11_000_000, "expected < 11M params, got {n}");
}

#[test]
fn parameter_count_matches_the_architecture_table() {
    assert_eq!(parameter_count(), 9_584_193);
}

#[test]
fn promotion_candidate_only_after_enough_samples() {
    let h = CheckpointHeader::new(1, 1800, 1_500);
    assert!(h.is_promotion_candidate());
    let h2 = CheckpointHeader::new(2, 1800, 500);
    assert!(!h2.is_promotion_candidate());
}

#[test]
fn promotion_candidate_threshold_is_inclusive() {
    assert!(CheckpointHeader::new(3, -5, 1_000).is_promotion_candidate());
    assert!(!CheckpointHeader::new(3, -5, 999).is_promotion_candidate());
    let h = CheckpointHeader::new(4, 2100, 7);
    assert_eq!(h.iter, 4);
    assert_eq!(h.elo_estimate, 2100);
    assert_eq!(h.training_samples, 7);
}

#[test]
fn arena_totals_count_every_game() {
    let r = ArenaResult { wins: 50, losses: 30, draws: 20 };
    assert_eq!(r.total_games(), 100);
    assert_eq!(ArenaResult::default().total_games(), 0);
}

#[test]
fn labels_alternate_between_plies() {
    assert_eq!(ply_label(Outcome::WhiteWin, 0), 1);
    assert_eq!(ply_label(Outcome::WhiteWin, 1), -1);
    assert_eq!(ply_label(Outcome::WhiteWin, 2), 1);
    assert_eq!(ply_label(Outcome::BlackWin, 0), -1);
    assert_eq!(ply_label(Outcome::BlackWin, 7), 1);
}

#[test]
fn draw_labels_every_ply_zero() {
    for ply in 0..5 {
        assert_eq!(ply_label(Outcome::Draw, ply), 0);
    }
}

#[test]
fn outcome_values() {
    assert_eq!(Outcome::WhiteWin.value(), 1);
    assert_eq!(Outcome::BlackWin.value(), -1);
    assert_eq!(Outcome::Draw.value(), 0);
}
