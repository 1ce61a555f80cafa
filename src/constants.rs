use vstd::prelude::*;

verus! {

// Lengths are in thousandths of a pixel, speeds in thousandths of a pixel per
// second, durations in nanoseconds.

pub const WINDOW_WIDTH: i32 = 800_000;
pub const WINDOW_HEIGHT: i32 = 800_000;

pub const PADDLE_WIDTH: i32 = 100_000;
pub const PADDLE_HEIGHT: i32 = 20_000;
pub const PADDLE_SPEED: i32 = 500_000;
pub const PADDLE_Y: i32 = -350_000;

pub const BALL_SIZE: i32 = 15_000;
pub const BALL_SPEED: i32 = 400_000;

pub const BLOCK_WIDTH: i32 = 70_000;
pub const BLOCK_HEIGHT: i32 = 25_000;
pub const BLOCK_ROWS: usize = 5;
pub const BLOCK_COLS: usize = 10;
pub const BLOCK_GAP: i32 = 5_000;
pub const BLOCKS_START_Y: i32 = 280_000;

pub const WALL_THICKNESS: i32 = 10_000;

pub const SCORE_PER_BLOCK: u32 = 10;
pub const DURABLE_SCORE_BONUS: u32 = 5;

/// Ball speed gained per level, in hundredths of the base speed.
pub const SPEED_INCREASE_PER_LEVEL: u64 = 10;

pub const EXPLOSIVE_RADIUS: i32 = 100_000;

pub const COMBO_WINDOW: u64 = 1_500_000_000;

/// Chance that a destroyed block drops a power-up, in percent.
pub const POWERUP_DROP_PERCENT: u64 = 15;
pub const POWERUP_FALL_SPEED: i32 = 150_000;
pub const POWERUP_SIZE: i32 = 20_000;
pub const WIDE_PADDLE_DURATION: u64 = 8_000_000_000;
/// Widened paddle: the base width times three halves.
pub const WIDE_PADDLE_WIDTH: i32 = 150_000;
pub const SLOW_BALL_DURATION: u64 = 6_000_000_000;
/// Slowed balls keep this many fifths of their velocity.
pub const SLOW_BALL_FIFTHS: u64 = 3;
pub const FIREBALL_DURATION: u64 = 8_000_000_000;

pub const COUNTDOWN_STEP_DURATION: u64 = 1_000_000_000;
pub const COUNTDOWN_GO_DURATION: u64 = 500_000_000;

pub const EDITOR_ROWS: usize = 7;
pub const EDITOR_COLS: usize = 10;

pub const NANOS_PER_SECOND: u64 = 1_000_000_000;

} // verus!
