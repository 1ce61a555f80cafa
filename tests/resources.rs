use breakout::resources::{ComboTracker, HighScores, Level, LevelStats, Score};

fn multiplier(level: u32) -> f32 {
    Level { current: level }.speed_multiplier() as f32 / 100.0
}

#[test]
fn score_default_zero() {
    let score = Score::default();
    assert_eq!(score.value, 0);
}

#[test]
fn level_default_one() {
    let level = Level::default();
    assert_eq!(level.current, 1);
}

#[test]
fn speed_multiplier_level_1() {
    assert!((multiplier(1) - 1.0).abs() < f32::EPSILON);
}

#[test]
fn speed_multiplier_level_2() {
    assert!((multiplier(2) - 1.1).abs() < 0.001);
}

#[test]
fn speed_multiplier_level_10() {
    assert!((multiplier(10) - 1.9).abs() < 0.001);
}

#[test]
fn high_scores_default_zero() {
    let hs = HighScores::default();
    assert_eq!(hs.scores, [0, 0, 0]);
    assert_eq!(hs.best(), 0);
}

#[test]
fn high_scores_try_insert() {
    let mut hs = HighScores::default();
    assert_eq!(hs.try_insert(100), Some(0));
    assert_eq!(hs.scores, [100, 0, 0]);
    assert_eq!(hs.try_insert(50), Some(1));
    assert_eq!(hs.scores, [100, 50, 0]);
    assert_eq!(hs.try_insert(200), Some(0));
    assert_eq!(hs.scores, [200, 100, 50]);
}

#[test]
fn high_scores_try_insert_no_rank() {
    let mut hs = HighScores { scores: [300, 200, 100] };
    assert_eq!(hs.try_insert(50), None);
    assert_eq!(hs.scores, [300, 200, 100]);
}

#[test]
fn high_scores_try_insert_zero_ignored() {
    let mut hs = HighScores::default();
    assert_eq!(hs.try_insert(0), None);
    assert_eq!(hs.scores, [0, 0, 0]);
}

#[test]
fn level_stats_default_zero() {
    let stats = LevelStats::default();
    assert_eq!(stats.blocks_destroyed, 0);
    assert_eq!(stats.max_combo, 0);
    assert_eq!(stats.score_at_level_start, 0);
    assert_eq!(stats.time_elapsed, 0);
}

#[test]
fn speed_multiplier_monotonic() {
    for i in 1..20 {
        let a = Level { current: i };
        let b = Level { current: i + 1 };
        assert!(b.speed_multiplier() > a.speed_multiplier());
    }
}

#[test]
fn high_scores_equal_score_goes_below() {
    let mut hs = HighScores { scores: [300, 200, 100] };
    assert_eq!(hs.try_insert(200), Some(2));
    assert_eq!(hs.scores, [300, 200, 200]);
}

#[test]
fn high_scores_insert_into_full_table_drops_last() {
    let mut hs = HighScores { scores: [300, 200, 100] };
    assert_eq!(hs.try_insert(250), Some(1));
    assert_eq!(hs.scores, [300, 250, 200]);
}

#[test]
fn high_scores_zero_refused_on_full_table() {
    let mut hs = HighScores { scores: [3, 2, 1] };
    assert_eq!(hs.try_insert(0), None);
    assert_eq!(hs.scores, [3, 2, 1]);
}

#[test]
fn ball_speed_by_level() {
    assert_eq!(Level { current: 1 }.ball_speed(), 400_000);
    assert_eq!(Level { current: 3 }.ball_speed(), 480_000);
}

#[test]
fn combo_tracker_default() {
    let c = ComboTracker::default();
    assert_eq!(c.count, 0);
    assert_eq!(c.timer.duration, 1_500_000_000);
    assert_eq!(c.last_score_gained, 0);
}

#[test]
fn high_scores_load_and_save() {
    let hs = HighScores::load(Some("300,200,100"));
    assert_eq!(hs.scores, [300, 200, 100]);
    assert_eq!(hs.save(), "300,200,100");
    assert_eq!(HighScores::load(None).scores, [0, 0, 0]);
    assert_eq!(HighScores::load(Some("garbage")).scores, [0, 0, 0]);
}
