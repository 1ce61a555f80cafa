use vstd::prelude::*;

use crate::geometry::Vec2;
use crate::timer::Timer;

verus! {

/// What a block does when hit.
#[derive(Clone, Copy, Debug, PartialEq, Eq, Structural)]
pub enum BlockType {
    /// Destroyed on the first hit.
    Normal,
    /// Loses one hit per impact and is destroyed when none remain.
    Durable { hits_remaining: u32 },
    /// Never destroyed; reflects the ball like a wall and ignores explosions.
    Steel,
    /// Destroyed on hit, destroying every non-Steel block within its radius.
    Explosive,
}

/// A block at a world position.
#[derive(Clone, Copy, Debug, PartialEq, Eq, Structural)]
pub struct Block {
    pub position: Vec2,
    pub block_type: BlockType,
}

/// A ball: its centre and its velocity. Every ball has the same square extent.
#[derive(Clone, Copy, Debug, PartialEq, Eq, Structural)]
pub struct Ball {
    pub position: Vec2,
    pub velocity: Vec2,
}

/// Kinds of power-up pickups and of timed effects.
#[derive(Clone, Copy, Debug, PartialEq, Eq, Structural)]
pub enum PowerUpType {
    WidePaddle,
    MultiBall,
    SlowBall,
    FireBall,
}

/// A falling power-up pickup.
#[derive(Clone, Copy, Debug, PartialEq, Eq, Structural)]
pub struct PowerUp {
    pub position: Vec2,
    pub velocity: Vec2,
    pub power_type: PowerUpType,
}

/// A timed effect attached to the paddle.
#[derive(Clone, Copy, Debug, PartialEq, Eq, Structural)]
pub struct ActiveEffect {
    pub effect_type: PowerUpType,
    pub timer: Timer,
}

/// The paddle's list of active effects.
#[derive(Clone, Debug)]
pub struct PowerUpEffects {
    pub effects: Vec<ActiveEffect>,
}

/// The paddle: its centre, its current width, and its active effects, which
/// are absent altogether while none is active.
#[derive(Clone, Debug)]
pub struct Paddle {
    pub position: Vec2,
    pub width: i32,
    pub effects: Option<PowerUpEffects>,
}

/// Which side of the play field a wall closes.
#[derive(Clone, Copy, Debug, PartialEq, Eq, Structural)]
pub enum Wall {
    Top,
    Left,
    Right,
    Bottom,
}

/// A wall with its centre and full extent.
#[derive(Clone, Copy, Debug, PartialEq, Eq, Structural)]
pub struct WallBody {
    pub wall: Wall,
    pub position: Vec2,
    pub size: Vec2,
}

/// Notifications for the presentation layer.
#[derive(Clone, Copy, Debug, PartialEq, Eq, Structural)]
pub enum CollisionEvent {
    Paddle,
    Wall,
    Block,
    GameOver,
    LevelClear,
}

} // verus!
