use breakout::components::{Ball, Block, BlockType, Paddle, PowerUp, PowerUpType, Wall, WallBody};
use breakout::game_state::{
    advance_level, cleanup_for_next_level, record_level_start_score, reset_game, spawn_paddle, transition,
    update_level_time, CountdownDisplay, CountdownStep, GameEvent, GameState,
};
use breakout::geometry::Vec2;
use breakout::resources::{ComboTracker, Level, LevelStats, Score};

struct World {
    score: Score,
    level: Level,
    combo: ComboTracker,
    stats: LevelStats,
    paddle: Option<Paddle>,
    balls: Vec<Ball>,
    blocks: Vec<Block>,
    walls: Vec<WallBody>,
    powerups: Vec<PowerUp>,
}

fn world() -> World {
    World {
        score: Score::default(),
        level: Level::default(),
        combo: ComboTracker::default(),
        stats: LevelStats::default(),
        paddle: None,
        balls: Vec::new(),
        blocks: Vec::new(),
        walls: Vec::new(),
        powerups: Vec::new(),
    }
}

fn populate(w: &mut World) {
    w.balls.push(Ball { position: Vec2::new(0, 0), velocity: Vec2::new(100_000, 100_000) });
    w.blocks.push(Block { position: Vec2::new(0, 200_000), block_type: BlockType::Normal });
    w.paddle = Some(spawn_paddle());
    w.walls.push(WallBody { wall: Wall::Top, position: Vec2::new(0, 400_000), size: Vec2::new(800_000, 10_000) });
    w.powerups.push(PowerUp { position: Vec2::new(0, 0), velocity: Vec2::new(0, -150_000), power_type: PowerUpType::SlowBall });
}

fn reset(w: &mut World) {
    reset_game(
        &mut w.score,
        &mut w.level,
        &mut w.combo,
        &mut w.stats,
        &mut w.paddle,
        &mut w.balls,
        &mut w.blocks,
        &mut w.walls,
        &mut w.powerups,
    );
}

fn cleanup(w: &mut World) {
    cleanup_for_next_level(&mut w.paddle, &mut w.balls, &mut w.powerups, &mut w.blocks, &mut w.combo, &mut w.stats);
}

#[test]
fn advance_level_increments() {
    let mut level = Level::default();
    advance_level(&mut level);
    assert_eq!(level.current, 2);
}

#[test]
fn reset_game_clears_resources() {
    let mut w = world();
    w.score.value = 999;
    w.level.current = 5;
    w.combo.count = 3;
    w.stats.blocks_destroyed = 10;
    reset(&mut w);
    assert_eq!(w.score.value, 0);
    assert_eq!(w.level.current, 1);
    assert_eq!(w.combo.count, 0);
    assert_eq!(w.stats.blocks_destroyed, 0);
}

#[test]
fn reset_game_despawns_entities() {
    let mut w = world();
    populate(&mut w);
    reset(&mut w);
    assert_eq!(w.balls.len(), 0);
    assert_eq!(w.blocks.len(), 0);
    assert!(w.paddle.is_none());
}

#[test]
fn cleanup_next_level_despawns_ball_paddle_block() {
    let mut w = world();
    populate(&mut w);
    cleanup(&mut w);
    assert_eq!(w.balls.len(), 0, "Balls should be despawned");
    assert!(w.paddle.is_none(), "Paddle should be despawned");
    assert_eq!(w.blocks.len(), 0, "Blocks should be despawned");
    assert_eq!(w.walls.len(), 1, "Walls should survive");
}

#[test]
fn cleanup_next_level_resets_paddle_size() {
    let mut w = world();
    let mut p = spawn_paddle();
    p.width = p.width * 3 / 2;
    w.paddle = Some(p);
    cleanup(&mut w);
    assert!(w.paddle.is_none());
}

#[test]
fn cleanup_next_level_resets_combo() {
    let mut w = world();
    w.combo.count = 5;
    cleanup(&mut w);
    assert_eq!(w.combo.count, 0, "Combo should be reset");
}

#[test]
fn state_machine_paths() {
    let mut s = GameState::Menu;
    s = transition(s, GameEvent::StartPressed, false);
    assert_eq!(s, GameState::Countdown);
    s = transition(s, GameEvent::PausePressed, false);
    assert_eq!(s, GameState::Countdown);
    s = transition(s, GameEvent::CountdownFinished, false);
    assert_eq!(s, GameState::Playing);
    s = transition(s, GameEvent::PausePressed, false);
    assert_eq!(s, GameState::Paused);
    s = transition(s, GameEvent::ResumePressed, false);
    assert_eq!(s, GameState::Playing);
    s = transition(s, GameEvent::LevelCleared, false);
    assert_eq!(s, GameState::LevelClear);
    s = transition(s, GameEvent::ConfirmPressed, false);
    assert_eq!(s, GameState::Countdown);
    s = transition(GameState::Playing, GameEvent::LastBallLost, false);
    assert_eq!(s, GameState::GameOver);
    assert_eq!(transition(s, GameEvent::ConfirmPressed, false), GameState::Menu);
    assert_eq!(transition(s, GameEvent::ConfirmPressed, true), GameState::Editor);
}

#[test]
fn countdown_steps() {
    let mut c = CountdownDisplay::spawn_countdown();
    assert_eq!(c.update_countdown(500_000_000), CountdownStep::Wait);
    assert_eq!(c.update_countdown(500_000_000), CountdownStep::Beep(2));
    assert_eq!(c.update_countdown(1_000_000_000), CountdownStep::Beep(1));
    assert_eq!(c.update_countdown(1_000_000_000), CountdownStep::Go);
    assert_eq!(c.count, 0);
    assert_eq!(c.update_countdown(499_999_999), CountdownStep::Wait);
    assert_eq!(c.update_countdown(1), CountdownStep::Finished);
}

#[test]
fn level_start_and_time() {
    let mut stats = LevelStats::default();
    stats.max_combo = 9;
    record_level_start_score(&Score { value: 420 }, &mut stats);
    assert_eq!(stats.score_at_level_start, 420);
    assert_eq!(stats.max_combo, 0);
    update_level_time(&mut stats, 16_666_666);
    update_level_time(&mut stats, u64::MAX);
    assert_eq!(stats.time_elapsed, u64::MAX);
}
