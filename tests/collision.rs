use breakout::collision::ball_block_collision;
use breakout::explosion::process_explosions;
use breakout::walls::{ball_wall_collision, check_level_clear};
use breakout::combo::award_destruction;
use breakout::components::{Ball, Block, BlockType, CollisionEvent, Paddle, PowerUp, Wall, WallBody};
use breakout::constants::{
    BALL_SIZE, BALL_SPEED, BLOCK_HEIGHT, DURABLE_SCORE_BONUS, PADDLE_HEIGHT, PADDLE_WIDTH, PADDLE_Y,
    SCORE_PER_BLOCK, WALL_THICKNESS, WINDOW_HEIGHT, WINDOW_WIDTH,
};
use breakout::geometry::Vec2;
use breakout::paddle::{ball_paddle_collision, paddle_input};
use breakout::resources::{ComboTracker, Score};
use breakout::rng::RandCounter;

fn px(v: f32) -> i32 {
    (v * 1000.0).round() as i32
}

fn ball(x: f32, y: f32, vx: i32, vy: i32) -> Ball {
    Ball { position: Vec2::new(px(x), px(y)), velocity: Vec2::new(vx, vy) }
}

fn block(x: f32, y: f32, t: BlockType) -> Block {
    Block { position: Vec2::new(px(x), px(y)), block_type: t }
}

fn paddle(x: f32) -> Paddle {
    Paddle { position: Vec2::new(px(x), PADDLE_Y), width: PADDLE_WIDTH, effects: None }
}

struct Frame {
    score: Score,
    combo: ComboTracker,
    rng: RandCounter,
    powerups: Vec<PowerUp>,
}

fn frame() -> Frame {
    Frame { score: Score::default(), combo: ComboTracker::default(), rng: RandCounter::new(), powerups: Vec::new() }
}

fn run_blocks(balls: &mut Vec<Ball>, blocks: &mut Vec<Block>, f: &mut Frame) -> Vec<CollisionEvent> {
    ball_block_collision(balls, blocks, &mut f.score, &mut f.combo, &mut f.rng, &mut f.powerups)
}

fn speed(b: &Ball) -> f64 {
    let x = b.velocity.x as f64;
    let y = b.velocity.y as f64;
    (x * x + y * y).sqrt()
}

/// Y (pixels) where a ball just overlaps the paddle.
fn ball_y_overlapping_paddle() -> f32 {
    (PADDLE_Y + (PADDLE_HEIGHT + BALL_SIZE) / 2 - 2_000) as f32 / 1000.0
}

#[test]
fn ball_bounces_off_paddle_center() {
    let mut balls = vec![ball(0.0, ball_y_overlapping_paddle(), 0, -BALL_SPEED)];
    ball_paddle_collision(&mut balls, &paddle(0.0));
    assert!(balls[0].velocity.y > 0, "Ball should bounce upward");
}

#[test]
fn ball_no_bounce_when_moving_up() {
    let mut balls = vec![ball(0.0, ball_y_overlapping_paddle(), 0, BALL_SPEED)];
    let events = ball_paddle_collision(&mut balls, &paddle(0.0));
    assert!(balls[0].velocity.y > 0, "Ball moving up should not be affected");
    assert!(events.is_empty());
}

#[test]
fn ball_angle_from_paddle_hit_pos() {
    let mut balls = vec![ball(30.0, ball_y_overlapping_paddle(), 0, -BALL_SPEED)];
    ball_paddle_collision(&mut balls, &paddle(0.0));
    assert!(balls[0].velocity.x > 0, "Hit right side → positive x velocity");
}

#[test]
fn ball_speed_preserved_after_paddle() {
    let initial_speed = BALL_SPEED as f64;
    let mut balls = vec![ball(10.0, ball_y_overlapping_paddle(), 0, -BALL_SPEED)];
    ball_paddle_collision(&mut balls, &paddle(0.0));
    let speed_after = speed(&balls[0]);
    assert!(
        (speed_after - initial_speed).abs() < 1000.0,
        "Speed should be preserved: {speed_after} vs {initial_speed}"
    );
}

#[test]
fn paddle_bounce_keeps_slowed_speed_at_any_offset() {
    for offset in [-55.0f32, -40.0, -10.0, 0.0, 3.0, 25.0, 49.0, 56.0] {
        let mut balls = vec![ball(offset, ball_y_overlapping_paddle(), 120_000, -180_000)];
        let before = speed(&balls[0]);
        ball_paddle_collision(&mut balls, &paddle(0.0));
        let after = speed(&balls[0]);
        assert!((after - before).abs() < 3.0, "offset {offset}: {before} -> {after}");
        assert!(balls[0].velocity.y > 0);
        assert_eq!(balls[0].velocity.x.signum(), (offset as i32).signum());
    }
}

#[test]
fn paddle_bounce_exact_values() {
    let mut balls = vec![ball(25.0, ball_y_overlapping_paddle(), 0, -400_000)];
    ball_paddle_collision(&mut balls, &paddle(0.0));
    // steered x = 25/50 * 400000 * 0.8 = 160000; rescaled to length 400000
    assert_eq!(balls[0].velocity, Vec2::new(148_557, 371_391));
}

#[test]
fn flat_ball_near_centre_keeps_its_speed() {
    let y = ball_y_overlapping_paddle();
    let mut balls = vec![Ball { position: Vec2::new(1, px(y)), velocity: Vec2::new(400_000, -1) }];
    ball_paddle_collision(&mut balls, &paddle(0.0));
    assert_eq!(balls[0].velocity, Vec2::new(395_980, 56_569));
    assert!((speed(&balls[0]) - 400_000.0).abs() < 2.0);
    // the same while slowed
    let mut balls = vec![Ball { position: Vec2::new(1, px(y)), velocity: Vec2::new(240_000, -1) }];
    ball_paddle_collision(&mut balls, &paddle(0.0));
    assert_eq!(balls[0].velocity, Vec2::new(232_835, 58_209));
    assert!((speed(&balls[0]) - 240_000.0).abs() < 2.0);
}

#[test]
fn centre_hit_goes_straight_up() {
    let mut balls = vec![ball(0.0, ball_y_overlapping_paddle(), 0, -400_000)];
    ball_paddle_collision(&mut balls, &paddle(0.0));
    assert_eq!(balls[0].velocity, Vec2::new(0, 400_000));
}

#[test]
fn narrow_paddle_edge_hit_still_goes_up() {
    let narrow = Paddle { position: Vec2::new(0, PADDLE_Y), width: 1, effects: None };
    let mut balls = vec![Ball { position: Vec2::new(-7_000, PADDLE_Y), velocity: Vec2::new(0, -400_000) }];
    ball_paddle_collision(&mut balls, &narrow);
    assert!(balls[0].velocity.y >= 1);
    assert!(balls[0].velocity.x < 0);
    assert!((speed(&balls[0]) - 400_000.0).abs() < 2.0);
}

fn wall_events(balls: &mut Vec<Ball>, walls: &Vec<WallBody>) -> Vec<CollisionEvent> {
    ball_wall_collision(balls, walls)
}

#[test]
fn ball_bounces_off_top_wall() {
    let wall_y = WINDOW_HEIGHT / 2;
    let walls = vec![WallBody {
        wall: Wall::Top,
        position: Vec2::new(0, wall_y),
        size: Vec2::new(WINDOW_WIDTH, WALL_THICKNESS),
    }];
    let mut balls = vec![Ball { position: Vec2::new(0, wall_y - WALL_THICKNESS), velocity: Vec2::new(100_000, BALL_SPEED) }];
    wall_events(&mut balls, &walls);
    assert!(balls[0].velocity.y < 0, "Ball should bounce downward off top wall");
}

#[test]
fn ball_bounces_off_left_wall() {
    let wall_x = -WINDOW_WIDTH / 2;
    let walls = vec![WallBody {
        wall: Wall::Left,
        position: Vec2::new(wall_x, 0),
        size: Vec2::new(WALL_THICKNESS, WINDOW_HEIGHT),
    }];
    let mut balls = vec![Ball { position: Vec2::new(wall_x + WALL_THICKNESS, 0), velocity: Vec2::new(-BALL_SPEED, 100_000) }];
    wall_events(&mut balls, &walls);
    assert!(balls[0].velocity.x > 0, "Ball should bounce right off left wall");
}

#[test]
fn ball_bounces_off_right_wall() {
    let wall_x = WINDOW_WIDTH / 2;
    let walls = vec![WallBody {
        wall: Wall::Right,
        position: Vec2::new(wall_x, 0),
        size: Vec2::new(WALL_THICKNESS, WINDOW_HEIGHT),
    }];
    let mut balls = vec![Ball { position: Vec2::new(wall_x - WALL_THICKNESS, 0), velocity: Vec2::new(BALL_SPEED, 100_000) }];
    let events = wall_events(&mut balls, &walls);
    assert!(balls[0].velocity.x < 0, "Ball should bounce left off right wall");
    assert_eq!(events, vec![CollisionEvent::Wall]);
}

#[test]
fn wall_reflection_is_absolute() {
    // already moving away from the left wall: stays that way, no double flip
    let walls = vec![WallBody { wall: Wall::Left, position: Vec2::new(-400_000, 0), size: Vec2::new(10_000, 800_000) }];
    let mut balls = vec![Ball { position: Vec2::new(-390_000, 0), velocity: Vec2::new(5_000, 1) }];
    wall_events(&mut balls, &walls);
    assert_eq!(balls[0].velocity, Vec2::new(5_000, 1));
}

#[test]
fn ball_despawn_on_bottom_game_over() {
    let mut balls = vec![Ball { position: Vec2::new(0, -WINDOW_HEIGHT / 2 - 10_000), velocity: Vec2::new(0, -BALL_SPEED) }];
    let events = wall_events(&mut balls, &Vec::new());
    assert_eq!(balls.len(), 0, "Ball should be despawned");
    assert!(events.contains(&CollisionEvent::GameOver));
}

#[test]
fn multi_ball_one_lost_no_game_over() {
    let mut balls = vec![
        Ball { position: Vec2::new(0, -WINDOW_HEIGHT / 2 - 10_000), velocity: Vec2::new(0, -BALL_SPEED) },
        Ball { position: Vec2::new(0, 0), velocity: Vec2::new(BALL_SPEED, BALL_SPEED) },
    ];
    let events = wall_events(&mut balls, &Vec::new());
    assert_eq!(balls.len(), 1, "One ball should remain");
    assert!(!events.contains(&CollisionEvent::GameOver), "Should not game over with remaining balls");
}

#[test]
fn losing_every_ball_at_once_is_game_over() {
    let lost = Ball { position: Vec2::new(0, -WINDOW_HEIGHT / 2 - 1), velocity: Vec2::new(0, -1) };
    let mut balls = vec![lost, lost, lost];
    let events = wall_events(&mut balls, &Vec::new());
    assert!(balls.is_empty());
    assert_eq!(events, vec![CollisionEvent::GameOver]);
}

#[test]
fn losing_all_but_one_of_three_is_not_game_over() {
    let lost = Ball { position: Vec2::new(0, -WINDOW_HEIGHT / 2 - 1), velocity: Vec2::new(0, -1) };
    let kept = Ball { position: Vec2::new(0, -WINDOW_HEIGHT / 2), velocity: Vec2::new(0, -1) };
    let mut balls = vec![lost, kept, lost];
    let events = wall_events(&mut balls, &Vec::new());
    assert_eq!(balls, vec![kept]);
    assert!(events.is_empty());
}

#[test]
fn no_balls_is_no_game_over() {
    let mut balls: Vec<Ball> = Vec::new();
    assert!(wall_events(&mut balls, &Vec::new()).is_empty());
}

#[test]
fn block_hit_adds_score_with_combo() {
    let mut f = frame();
    let mut blocks = vec![block(0.0, 100.0, BlockType::Normal)];
    let mut balls = vec![ball(0.0, 100.0, 0, BALL_SPEED)];
    run_blocks(&mut balls, &mut blocks, &mut f);
    assert_eq!(f.score.value, SCORE_PER_BLOCK);
}

#[test]
fn block_hit_reverses_velocity() {
    let mut f = frame();
    let mut blocks = vec![block(0.0, 100.0, BlockType::Normal)];
    let y = 100.0 - (BLOCK_HEIGHT as f32 / 1000.0) / 2.0 - (BALL_SIZE as f32 / 1000.0) / 2.0 + 2.0;
    let mut balls = vec![ball(0.0, y, 0, BALL_SPEED)];
    run_blocks(&mut balls, &mut blocks, &mut f);
    assert!(balls[0].velocity.y < 0, "y velocity should reverse after block hit");
}

#[test]
fn one_block_per_ball_per_frame() {
    let mut f = frame();
    let mut blocks = vec![
        block(0.0, 100.0, BlockType::Normal),
        block(0.0, 100.0 + BLOCK_HEIGHT as f32 / 1000.0 + 1.0, BlockType::Normal),
    ];
    let mut balls = vec![ball(0.0, 100.0 + BLOCK_HEIGHT as f32 / 2000.0, 0, BALL_SPEED)];
    run_blocks(&mut balls, &mut blocks, &mut f);
    assert!(blocks.len() >= 1, "At most one block destroyed per ball per frame");
    assert_eq!(blocks.len(), 1);
}

#[test]
fn two_balls_do_not_share_a_block() {
    let mut f = frame();
    let mut blocks = vec![block(0.0, 100.0, BlockType::Normal)];
    let mut balls = vec![ball(0.0, 100.0, 0, BALL_SPEED), ball(1.0, 100.0, 0, BALL_SPEED)];
    run_blocks(&mut balls, &mut blocks, &mut f);
    assert!(blocks.is_empty());
    assert_eq!(f.score.value, SCORE_PER_BLOCK);
    assert!(balls[0].velocity.y < 0);
    assert!(balls[1].velocity.y > 0, "the second ball found nothing left to hit");
}

#[test]
fn steel_block_reflects_but_survives() {
    let mut f = frame();
    let mut blocks = vec![block(0.0, 100.0, BlockType::Steel)];
    let y = 100.0 - (BLOCK_HEIGHT as f32 / 1000.0) / 2.0 - (BALL_SIZE as f32 / 1000.0) / 2.0 + 2.0;
    let mut balls = vec![ball(0.0, y, 0, BALL_SPEED)];
    let events = run_blocks(&mut balls, &mut blocks, &mut f);
    assert_eq!(blocks.len(), 1, "Steel block should survive");
    assert_eq!(f.score.value, 0, "Steel blocks give no score");
    assert!(events.contains(&CollisionEvent::Wall));
    assert!(!events.contains(&CollisionEvent::Block));
    assert!(balls[0].velocity.y < 0);
    assert_eq!(f.combo.count, 0);
}

#[test]
fn steel_push_out_from_the_side() {
    let mut f = frame();
    let mut blocks = vec![block(0.0, 100.0, BlockType::Steel)];
    // approaching from the right, overlapping little along X
    let mut balls = vec![ball(41.0, 100.0, -300_000, 10_000)];
    run_blocks(&mut balls, &mut blocks, &mut f);
    assert_eq!(balls[0].velocity, Vec2::new(300_000, 10_000));
    // a ball already moving away keeps moving away
    let mut balls = vec![ball(41.0, 100.0, 300_000, 10_000)];
    run_blocks(&mut balls, &mut blocks, &mut f);
    assert_eq!(balls[0].velocity, Vec2::new(300_000, 10_000));
    assert_eq!(f.score.value, 0);
}

#[test]
fn durable_block_loses_hit() {
    let mut f = frame();
    let mut blocks = vec![block(0.0, 100.0, BlockType::Durable { hits_remaining: 3 })];
    let y = 100.0 - (BLOCK_HEIGHT as f32 / 1000.0) / 2.0 - (BALL_SIZE as f32 / 1000.0) / 2.0 + 2.0;
    let mut balls = vec![ball(0.0, y, 0, BALL_SPEED)];
    run_blocks(&mut balls, &mut blocks, &mut f);
    assert_eq!(blocks[0].block_type, BlockType::Durable { hits_remaining: 2 }, "Hits should decrease by 1");
    assert_eq!(f.score.value, 0);
}

#[test]
fn durable_block_destroyed_at_one_hit() {
    let mut f = frame();
    let mut blocks = vec![block(0.0, 100.0, BlockType::Durable { hits_remaining: 1 })];
    let mut balls = vec![ball(0.0, 100.0, 0, BALL_SPEED)];
    run_blocks(&mut balls, &mut blocks, &mut f);
    assert_eq!(blocks.len(), 0, "Durable block at 1 hit should be destroyed");
    assert_eq!(f.score.value, SCORE_PER_BLOCK + DURABLE_SCORE_BONUS, "Durable destruction gives bonus");
}

#[test]
fn durable_last_hit_uses_current_combo() {
    let mut f = frame();
    f.score.value = 1000;
    f.combo.count = 4;
    let mut blocks = vec![block(0.0, 100.0, BlockType::Durable { hits_remaining: 1 })];
    let mut balls = vec![ball(0.0, 100.0, 0, BALL_SPEED)];
    run_blocks(&mut balls, &mut blocks, &mut f);
    assert_eq!(f.combo.count, 5);
    assert_eq!(f.score.value, 1000 + SCORE_PER_BLOCK * 5 + DURABLE_SCORE_BONUS);
    assert_eq!(f.combo.last_score_gained, 55);
}

#[test]
fn explosive_block_chain_destroys_nearby() {
    let mut f = frame();
    let mut blocks = vec![
        block(0.0, 100.0, BlockType::Explosive),
        block(50.0, 100.0, BlockType::Normal),
        block(300.0, 100.0, BlockType::Normal),
    ];
    let mut balls = vec![ball(0.0, 100.0, 0, BALL_SPEED)];
    run_blocks(&mut balls, &mut blocks, &mut f);
    assert_eq!(blocks.len(), 1, "Only the far block should survive the explosion");
}

#[test]
fn explosive_chain_reaches_second_radius_each_block_once() {
    let mut f = frame();
    let mut blocks = vec![
        block(0.0, 100.0, BlockType::Explosive),
        block(90.0, 100.0, BlockType::Explosive),
        block(45.0, 130.0, BlockType::Normal),
        block(170.0, 100.0, BlockType::Normal),
        block(60.0, 40.0, BlockType::Steel),
        block(400.0, 100.0, BlockType::Normal),
    ];
    let mut balls = vec![ball(0.0, 100.0, 0, BALL_SPEED)];
    let events = run_blocks(&mut balls, &mut blocks, &mut f);
    // first explosive, second explosive, the block in both radii and the one only
    // in the second radius: four destructions, combo 1..4
    assert_eq!(blocks.len(), 2);
    assert_eq!(blocks[0].block_type, BlockType::Steel);
    assert_eq!(blocks[1].position, Vec2::new(400_000, 100_000));
    assert_eq!(f.combo.count, 4);
    assert_eq!(f.score.value, SCORE_PER_BLOCK * (1 + 2 + 3 + 4));
    assert_eq!(events.iter().filter(|e| **e == CollisionEvent::Block).count(), 4);
}

#[test]
fn explosion_queue_processes_every_center() {
    let blocks = vec![
        block(0.0, 100.0, BlockType::Explosive),
        block(100.0, 100.0, BlockType::Explosive),
        block(200.0, 100.0, BlockType::Explosive),
        block(300.0, 100.0, BlockType::Normal),
        block(401.0, 100.0, BlockType::Normal),
    ];
    let mut destroyed = vec![true, false, false, false, false];
    let mut queue = vec![blocks[0].position];
    let mut score = Score::default();
    let mut combo = ComboTracker::default();
    let mut events = Vec::new();
    process_explosions(&blocks, &mut destroyed, &mut queue, &mut score, &mut combo, &mut events);
    assert_eq!(destroyed, vec![true, true, true, true, false]);
    assert_eq!(queue.len(), 3);
    assert_eq!(events.len(), 3);
    assert_eq!(combo.count, 3);
}

#[test]
fn combo_scoring_increments() {
    let mut f = frame();
    let mut blocks = vec![block(0.0, 100.0, BlockType::Normal)];
    let mut balls = vec![ball(0.0, 100.0, 0, BALL_SPEED)];
    run_blocks(&mut balls, &mut blocks, &mut f);
    assert_eq!(f.combo.count, 1, "Combo count should be 1 after first hit");
    assert_eq!(f.combo.last_score_gained, SCORE_PER_BLOCK);
}

#[test]
fn destruction_award_saturates() {
    let mut score = Score { value: u32::MAX - 3 };
    let mut combo = ComboTracker::default();
    combo.count = 7;
    let gained = award_destruction(&mut score, &mut combo, 5);
    assert_eq!(gained, 85);
    assert_eq!(combo.count, 8);
    assert_eq!(score.value, u32::MAX);
}

#[test]
fn drops_follow_the_rolls() {
    // counter 54321 gives no drop; a counter whose roll is below 15% drops
    let mut f = frame();
    let mut blocks = vec![block(0.0, 100.0, BlockType::Normal)];
    let mut balls = vec![ball(0.0, 100.0, 0, BALL_SPEED)];
    let before = f.rng.counter;
    run_blocks(&mut balls, &mut blocks, &mut f);
    let advanced = f.rng.counter.wrapping_sub(before);
    assert!(advanced == 1 || advanced == 2);
    assert_eq!(f.powerups.len(), (advanced - 1) as usize);
    if let Some(p) = f.powerups.first() {
        assert_eq!(p.position, Vec2::new(0, 100_000));
        assert_eq!(p.velocity, Vec2::new(0, -150_000));
    }
}

#[test]
fn level_clear_when_no_blocks() {
    assert!(check_level_clear(&Vec::new()));
}

#[test]
fn no_level_clear_with_blocks() {
    let blocks = vec![block(0.0, 100.0, BlockType::Normal)];
    assert!(!check_level_clear(&blocks), "Should not clear level with remaining blocks");
}

#[test]
fn level_clear_ignores_steel_blocks() {
    let blocks = vec![block(0.0, 100.0, BlockType::Steel), block(100.0, 100.0, BlockType::Steel)];
    assert!(check_level_clear(&blocks), "Steel-only should trigger level clear");
}

#[test]
fn level_not_clear_with_one_durable_among_steel() {
    let blocks = vec![
        block(0.0, 100.0, BlockType::Steel),
        block(100.0, 100.0, BlockType::Durable { hits_remaining: 3 }),
    ];
    assert!(!check_level_clear(&blocks));
}

#[test]
fn paddle_input_moves_and_clamps() {
    let mut p = paddle(0.0);
    paddle_input(&mut p, false, true, None, 100_000_000);
    assert_eq!(p.position.x, 50_000);
    paddle_input(&mut p, true, true, None, 100_000_000);
    assert_eq!(p.position.x, 50_000);
    paddle_input(&mut p, true, false, None, 10_000_000_000);
    assert_eq!(p.position.x, -340_000);
    paddle_input(&mut p, false, false, Some(1_000_000), 0);
    assert_eq!(p.position.x, 340_000);
    paddle_input(&mut p, false, false, Some(12_345), 0);
    assert_eq!(p.position.x, 12_345);
}

#[test]
fn one_paddle_event_per_bounce() {
    let y = ball_y_overlapping_paddle();
    let mut balls = vec![ball(0.0, y, 0, -BALL_SPEED), ball(0.0, y, 0, BALL_SPEED), ball(0.0, 0.0, 0, -BALL_SPEED), ball(5.0, y, 1, -1)];
    let events = ball_paddle_collision(&mut balls, &paddle(0.0));
    assert_eq!(events, vec![CollisionEvent::Paddle, CollisionEvent::Paddle]);
}

#[test]
fn one_wall_event_per_side_overlap() {
    let walls = vec![
        WallBody { wall: Wall::Top, position: Vec2::new(0, 400_000), size: Vec2::new(800_000, 10_000) },
        WallBody { wall: Wall::Left, position: Vec2::new(-400_000, 0), size: Vec2::new(10_000, 800_000) },
        WallBody { wall: Wall::Bottom, position: Vec2::new(0, -400_000), size: Vec2::new(800_000, 10_000) },
    ];
    // in the top-left corner: touches top and left
    let mut balls = vec![Ball { position: Vec2::new(-395_000, 395_000), velocity: Vec2::new(-1_000, 1_000) }];
    let events = wall_events(&mut balls, &walls);
    assert_eq!(events, vec![CollisionEvent::Wall, CollisionEvent::Wall]);
    assert_eq!(balls[0].velocity, Vec2::new(1_000, -1_000));
    // near the bottom wall but above the limit: no event
    let mut balls = vec![Ball { position: Vec2::new(0, -399_000), velocity: Vec2::new(0, -1_000) }];
    assert!(wall_events(&mut balls, &walls).is_empty());
}

#[test]
fn explosion_does_not_reach_unlinked_explosive() {
    let mut f = frame();
    let mut blocks = vec![
        block(0.0, 100.0, BlockType::Explosive),
        block(300.0, 100.0, BlockType::Explosive),
    ];
    let mut balls = vec![ball(0.0, 100.0, 0, BALL_SPEED)];
    run_blocks(&mut balls, &mut blocks, &mut f);
    assert_eq!(blocks, vec![block(300.0, 100.0, BlockType::Explosive)]);
    assert_eq!(f.combo.count, 1);
}
