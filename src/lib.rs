//! Deterministic gameplay simulation of a block-breaking arcade game:
//! collision handling between balls, paddle, walls and blocks, the block
//! state machine with explosive chain reactions, combos and scoring, timed
//! power-up effects, level layouts and the shareable stage code.
//!
//! World coordinates, extents and velocities are integers in thousandths of a
//! pixel (velocities per second); durations are integers in nanoseconds.

pub mod geometry;
pub mod constants;
pub mod timer;
pub mod resources;
pub mod text;
pub mod storage;
pub mod components;
pub mod combo;
pub mod explosion;
pub mod collision;
pub mod walls;
pub mod rng;
pub mod paddle;
pub mod powerup;
pub mod levels;
pub mod stage;
pub mod game_state;
