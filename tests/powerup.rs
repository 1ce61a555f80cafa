use breakout::components::{ActiveEffect, Ball, Paddle, PowerUp, PowerUpEffects, PowerUpType};
use breakout::constants::{
    BALL_SPEED, PADDLE_WIDTH, PADDLE_Y, POWERUP_FALL_SPEED, POWERUP_SIZE, WIDE_PADDLE_DURATION,
    WIDE_PADDLE_WIDTH, WINDOW_HEIGHT,
};
use breakout::geometry::{aabb_collision, Vec2};
use breakout::powerup::{
    apply_slow_ball, apply_wide_paddle, ball_movement, paddle_powerup_collision, powerup_movement,
    spawn_extra_balls, update_powerup_effects,
};
use breakout::resources::Level;
use breakout::timer::Timer;

const FRAME: u64 = 16_666_666;

fn paddle() -> Paddle {
    Paddle { position: Vec2::new(0, PADDLE_Y), width: PADDLE_WIDTH, effects: None }
}

fn pickup(t: PowerUpType, x: i32, y: i32) -> PowerUp {
    PowerUp { position: Vec2::new(x, y), velocity: Vec2::new(0, -POWERUP_FALL_SPEED), power_type: t }
}

fn ball(vx: i32, vy: i32) -> Ball {
    Ball { position: Vec2::new(0, 0), velocity: Vec2::new(vx, vy) }
}

fn speed(b: &Ball) -> f64 {
    ((b.velocity.x as f64).powi(2) + (b.velocity.y as f64).powi(2)).sqrt()
}

#[test]
fn powerup_falls_down() {
    let mut ps = vec![pickup(PowerUpType::WidePaddle, 0, 0)];
    powerup_movement(&mut ps, FRAME);
    assert!(ps[0].position.y < 0, "Power-up should fall down");
    assert_eq!(ps[0].position.y, -2_499);
}

#[test]
fn powerup_despawns_below_screen() {
    let mut ps = vec![pickup(PowerUpType::MultiBall, 0, -WINDOW_HEIGHT / 2 - 1_000)];
    powerup_movement(&mut ps, FRAME);
    assert_eq!(ps.len(), 0, "Power-up below screen should be despawned");
}

#[test]
fn wide_paddle_widens() {
    let mut p = paddle();
    let mut ps = vec![pickup(PowerUpType::WidePaddle, 0, PADDLE_Y)];
    let mut balls = vec![ball(0, BALL_SPEED)];
    paddle_powerup_collision(&mut p, &mut ps, &mut balls);
    assert_eq!(p.width, PADDLE_WIDTH * 3 / 2, "Paddle should be widened");
    assert!(ps.is_empty());
}

#[test]
fn multi_ball_spawns_two() {
    let mut p = paddle();
    let mut balls = vec![ball(0, BALL_SPEED)];
    let mut ps = vec![pickup(PowerUpType::MultiBall, 0, PADDLE_Y)];
    paddle_powerup_collision(&mut p, &mut ps, &mut balls);
    assert_eq!(balls.len(), 3, "Should have 1 original + 2 extra balls");
}

#[test]
fn slow_ball_reduces_speed() {
    let mut p = paddle();
    let mut balls = vec![ball(0, BALL_SPEED)];
    let mut ps = vec![pickup(PowerUpType::SlowBall, 0, PADDLE_Y)];
    paddle_powerup_collision(&mut p, &mut ps, &mut balls);
    let expected_speed = BALL_SPEED as f64 * 0.6;
    assert!(
        (speed(&balls[0]) - expected_speed).abs() < 1000.0,
        "Ball speed should be reduced: {} vs {}",
        speed(&balls[0]),
        expected_speed,
    );
}

#[test]
fn powerup_effects_created() {
    let mut p = paddle();
    let mut ps = vec![pickup(PowerUpType::WidePaddle, 0, PADDLE_Y)];
    let mut balls = vec![ball(0, BALL_SPEED)];
    paddle_powerup_collision(&mut p, &mut ps, &mut balls);
    let effects = p.effects.as_ref();
    assert!(effects.is_some(), "PowerUpEffects should be added to paddle");
    let effects = effects.unwrap();
    assert_eq!(effects.effects.len(), 1);
    assert_eq!(effects.effects[0].effect_type, PowerUpType::WidePaddle);
}

#[test]
fn powerup_aabb_collision_works() {
    assert!(aabb_collision(Vec2::new(0, 0), Vec2::new(20_000, 20_000), Vec2::new(5_000, 5_000), Vec2::new(20_000, 20_000)));
    assert!(!aabb_collision(Vec2::new(0, 0), Vec2::new(10_000, 10_000), Vec2::new(100_000, 100_000), Vec2::new(10_000, 10_000)));
}

#[test]
fn pickup_away_from_paddle_keeps_falling() {
    let mut p = paddle();
    let far = pickup(PowerUpType::SlowBall, 200_000, PADDLE_Y);
    let mut ps = vec![far];
    let mut balls = vec![ball(0, BALL_SPEED)];
    paddle_powerup_collision(&mut p, &mut ps, &mut balls);
    assert_eq!(ps, vec![far]);
    assert!(p.effects.is_none());
    assert_eq!(balls[0].velocity, Vec2::new(0, BALL_SPEED));
    assert_eq!(POWERUP_SIZE, 20_000);
}

#[test]
fn wide_paddle_twice_keeps_width_and_restarts_timer() {
    let mut p = paddle();
    apply_wide_paddle(&mut p);
    assert_eq!(p.width, WIDE_PADDLE_WIDTH);
    let mut balls: Vec<Ball> = Vec::new();
    update_powerup_effects(&mut p, &mut balls, &Level { current: 1 }, 3_000_000_000);
    assert_eq!(p.effects.as_ref().unwrap().effects[0].timer.elapsed, 3_000_000_000);
    apply_wide_paddle(&mut p);
    assert_eq!(p.width, WIDE_PADDLE_WIDTH);
    let effects = &p.effects.as_ref().unwrap().effects;
    assert_eq!(effects.len(), 1);
    assert_eq!(effects[0].timer.elapsed, 0);
    assert_eq!(effects[0].timer.duration, WIDE_PADDLE_DURATION);
}

#[test]
fn slow_ball_twice_does_not_compound() {
    let mut p = paddle();
    let mut balls = vec![ball(0, 400_000)];
    apply_slow_ball(&mut p, &mut balls);
    assert_eq!(balls[0].velocity, Vec2::new(0, 240_000));
    apply_slow_ball(&mut p, &mut balls);
    assert_eq!(balls[0].velocity, Vec2::new(0, 240_000));
    assert_eq!(p.effects.as_ref().unwrap().effects.len(), 1);
}

#[test]
fn effects_expire_and_revert() {
    let mut p = paddle();
    let mut balls = vec![ball(300_000, -400_000)];
    apply_wide_paddle(&mut p);
    apply_slow_ball(&mut p, &mut balls);
    assert_eq!(balls[0].velocity, Vec2::new(180_000, -240_000));
    let level = Level { current: 2 };
    // the slow ball runs out first
    update_powerup_effects(&mut p, &mut balls, &level, 6_000_000_000);
    assert_eq!(p.width, WIDE_PADDLE_WIDTH);
    assert_eq!(p.effects.as_ref().unwrap().effects.len(), 1);
    // rescaled to the level speed, 440000, keeping the direction (3, -4)
    assert_eq!(balls[0].velocity, Vec2::new(264_000, -352_000));
    update_powerup_effects(&mut p, &mut balls, &level, 2_000_000_000);
    assert_eq!(p.width, PADDLE_WIDTH);
    assert!(p.effects.is_none(), "the empty effect list is removed");
}

#[test]
fn update_without_effects_changes_nothing() {
    let mut p = paddle();
    let mut balls = vec![ball(5, 7)];
    update_powerup_effects(&mut p, &mut balls, &Level { current: 1 }, 10_000_000_000);
    assert!(p.effects.is_none());
    assert_eq!(p.width, PADDLE_WIDTH);
    assert_eq!(balls[0].velocity, Vec2::new(5, 7));
}

#[test]
fn fireball_effect_is_tracked() {
    let mut p = paddle();
    let mut ps = vec![pickup(PowerUpType::FireBall, 0, PADDLE_Y)];
    let mut balls = vec![ball(0, BALL_SPEED)];
    paddle_powerup_collision(&mut p, &mut ps, &mut balls);
    let effects = &p.effects.as_ref().unwrap().effects;
    assert_eq!(effects.len(), 1);
    assert_eq!(effects[0].effect_type, PowerUpType::FireBall);
    assert_eq!(p.width, PADDLE_WIDTH);
}

#[test]
fn extra_balls_spread_both_ways() {
    let mut balls = vec![Ball { position: Vec2::new(1_000, 2_000), velocity: Vec2::new(0, 400_000) }];
    spawn_extra_balls(&mut balls);
    assert_eq!(balls.len(), 3);
    assert_eq!(balls[1].position, Vec2::new(1_000, 2_000));
    assert!(balls[1].velocity.x < 0 && balls[2].velocity.x > 0);
    assert_eq!(balls[1].velocity.x, -balls[2].velocity.x);
    for b in &balls[1..] {
        assert!((speed(b) - 400_000.0).abs() < 2.0);
    }
    let mut none: Vec<Ball> = Vec::new();
    spawn_extra_balls(&mut none);
    assert!(none.is_empty());
}

#[test]
fn existing_effects_are_kept_on_refresh() {
    let mut p = paddle();
    p.effects = Some(PowerUpEffects {
        effects: vec![ActiveEffect { effect_type: PowerUpType::FireBall, timer: Timer::from_nanos(5) }],
    });
    apply_wide_paddle(&mut p);
    let effects = &p.effects.as_ref().unwrap().effects;
    assert_eq!(effects.len(), 2);
    assert_eq!(effects[0].effect_type, PowerUpType::FireBall);
    assert_eq!(effects[1].effect_type, PowerUpType::WidePaddle);
}

#[test]
fn ball_moves_in_velocity_direction() {
    let mut balls = vec![ball(300_000, 200_000)];
    ball_movement(&mut balls, FRAME);
    assert!(balls[0].position.x > 0, "Should move in +x");
    assert!(balls[0].position.y > 0, "Should move in +y");
}

#[test]
fn ball_moves_negative() {
    let mut balls = vec![ball(-300_000, -200_000)];
    ball_movement(&mut balls, FRAME);
    assert!(balls[0].position.x < 0, "Should move in -x");
    assert!(balls[0].position.y < 0, "Should move in -y");
}

#[test]
fn zero_velocity_stays() {
    let mut balls = vec![Ball { position: Vec2::new(50_000, 50_000), velocity: Vec2::new(0, 0) }];
    ball_movement(&mut balls, FRAME);
    assert_eq!(balls[0].position, Vec2::new(50_000, 50_000), "Should not move with zero velocity");
}

#[test]
fn multiple_balls_independent() {
    let mut balls = vec![ball(100_000, 0), ball(0, 100_000)];
    ball_movement(&mut balls, FRAME);
    assert!(balls[0].position.x > 0 && balls[0].position.y == 0);
    assert!(balls[1].position.y > 0 && balls[1].position.x == 0);
}

#[test]
fn movement_saturates_at_coordinate_range() {
    let mut balls = vec![Ball { position: Vec2::new(i32::MAX - 5, 0), velocity: Vec2::new(i32::MAX, 0) }];
    ball_movement(&mut balls, 1_000_000_000);
    assert_eq!(balls[0].position.x, i32::MAX);
    let mut balls = vec![ball(1_000, -1_000)];
    ball_movement(&mut balls, 500_000_000);
    assert_eq!(balls[0].position, Vec2::new(500, -500));
}

#[test]
fn spawned_ball_heads_down_at_level_speed() {
    let b = breakout::powerup::spawn_ball(&Level { current: 1 });
    assert_eq!(b.position, Vec2::new(0, 0));
    assert!(b.velocity.x > 0 && b.velocity.y < 0);
    assert!((speed(&b) - 400_000.0).abs() < 2.0);
}

#[test]
fn extra_balls_turn_thirty_degrees() {
    let mut balls = vec![ball(400_000, 0)];
    spawn_extra_balls(&mut balls);
    assert_eq!(balls[1].velocity, Vec2::new(346_410, 200_000));
    assert_eq!(balls[2].velocity, Vec2::new(346_410, -200_000));
}
