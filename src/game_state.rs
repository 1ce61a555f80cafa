use vstd::prelude::*;

use crate::components::{Ball, Block, Paddle, PowerUp, WallBody};
use crate::constants::{COUNTDOWN_GO_DURATION, COUNTDOWN_STEP_DURATION, PADDLE_WIDTH, PADDLE_Y};
use crate::geometry::Vec2;
use crate::resources::{ComboTracker, Level, LevelStats, Score};
use crate::timer::Timer;

verus! {

/// Screens and phases of the game.
#[derive(Clone, Copy, Debug, PartialEq, Eq, Structural)]
pub enum GameState {
    Menu,
    Countdown,
    Playing,
    Paused,
    GameOver,
    LevelClear,
    Settings,
    Editor,
    TestPlay,
}

/// What happened this frame, as far as the progression cares.
#[derive(Clone, Copy, Debug, PartialEq, Eq, Structural)]
pub enum GameEvent {
    /// Start was pressed on the menu.
    StartPressed,
    SettingsPressed,
    EditorPressed,
    /// Test play was pressed in the editor.
    TestPlayPressed,
    /// The editor or settings asked to return to the menu.
    BackToMenu,
    CountdownFinished,
    PausePressed,
    ResumePressed,
    LastBallLost,
    /// No non-Steel block remains.
    LevelCleared,
    /// Confirm was pressed on the game-over or level-clear screen.
    ConfirmPressed,
}

/// The next state. Game over and level clear lead back to the editor when the
/// level is a test play of an editor grid.
pub open spec fn next_state(state: GameState, event: GameEvent, test_play: bool) -> GameState {
    match (state, event) {
        (GameState::Menu, GameEvent::StartPressed) => GameState::Countdown,
        (GameState::Menu, GameEvent::SettingsPressed) => GameState::Settings,
        (GameState::Menu, GameEvent::EditorPressed) => GameState::Editor,
        (GameState::Settings, GameEvent::BackToMenu) => GameState::Menu,
        (GameState::Editor, GameEvent::BackToMenu) => GameState::Menu,
        (GameState::Editor, GameEvent::TestPlayPressed) => GameState::TestPlay,
        (GameState::TestPlay, GameEvent::CountdownFinished) => GameState::Playing,
        (GameState::Countdown, GameEvent::CountdownFinished) => GameState::Playing,
        (GameState::Playing, GameEvent::PausePressed) => GameState::Paused,
        (GameState::Paused, GameEvent::ResumePressed) => GameState::Playing,
        (GameState::Playing, GameEvent::LastBallLost) => GameState::GameOver,
        (GameState::Playing, GameEvent::LevelCleared) => GameState::LevelClear,
        (GameState::GameOver, GameEvent::ConfirmPressed) => if test_play {
            GameState::Editor
        } else {
            GameState::Menu
        },
        (GameState::LevelClear, GameEvent::ConfirmPressed) => if test_play {
            GameState::Editor
        } else {
            GameState::Countdown
        },
        _ => state,
    }
}

/// Applies one event to the game state; events that do not apply leave it as
/// it is.
pub fn transition(state: GameState, event: GameEvent, test_play: bool) -> (r: GameState)
    ensures
        r == next_state(state, event, test_play),
{
    match (state, event) {
        (GameState::Menu, GameEvent::StartPressed) => GameState::Countdown,
        (GameState::Menu, GameEvent::SettingsPressed) => GameState::Settings,
        (GameState::Menu, GameEvent::EditorPressed) => GameState::Editor,
        (GameState::Settings, GameEvent::BackToMenu) => GameState::Menu,
        (GameState::Editor, GameEvent::BackToMenu) => GameState::Menu,
        (GameState::Editor, GameEvent::TestPlayPressed) => GameState::TestPlay,
        (GameState::TestPlay, GameEvent::CountdownFinished) => GameState::Playing,
        (GameState::Countdown, GameEvent::CountdownFinished) => GameState::Playing,
        (GameState::Playing, GameEvent::PausePressed) => GameState::Paused,
        (GameState::Paused, GameEvent::ResumePressed) => GameState::Playing,
        (GameState::Playing, GameEvent::LastBallLost) => GameState::GameOver,
        (GameState::Playing, GameEvent::LevelCleared) => GameState::LevelClear,
        (GameState::GameOver, GameEvent::ConfirmPressed) => if test_play {
            GameState::Editor
        } else {
            GameState::Menu
        },
        (GameState::LevelClear, GameEvent::ConfirmPressed) => if test_play {
            GameState::Editor
        } else {
            GameState::Countdown
        },
        _ => state,
    }
}

/// The countdown before play: 3, 2, 1, then "GO!".
#[derive(Clone, Copy, Debug, PartialEq, Eq, Structural)]
pub struct CountdownDisplay {
    /// The number shown; zero while "GO!" is shown.
    pub count: u32,
    pub timer: Timer,
}

/// What a countdown tick calls for.
#[derive(Clone, Copy, Debug, PartialEq, Eq, Structural)]
pub enum CountdownStep {
    /// Nothing changes.
    Wait,
    /// A new number is shown, with a beep.
    Beep(u32),
    /// "GO!" is shown.
    Go,
    /// The countdown is over: play starts.
    Finished,
}

impl CountdownDisplay {
    pub fn spawn_countdown() -> (c: CountdownDisplay)
        ensures
            c.count == 3,
            c.timer == Timer::from_nanos_spec(COUNTDOWN_STEP_DURATION),
    {
        CountdownDisplay { count: 3, timer: Timer::from_nanos(COUNTDOWN_STEP_DURATION) }
    }

    /// Advances the countdown by `delta` nanoseconds. When the current step
    /// runs out, a number above one steps down with a beep, one turns into
    /// "GO!", and "GO!" ends the countdown.
    pub fn update_countdown(&mut self, delta: u64) -> (step: CountdownStep)
        requires
            old(self).timer.wf(),
        ensures
            final(self).timer.wf(),
            ({
                let ticked = old(self).timer.spec_tick(delta);
                if !ticked.just_finished {
                    step == CountdownStep::Wait && *final(self) == (CountdownDisplay { timer: ticked, ..*old(self) })
                } else if old(self).count == 0 {
                    step == CountdownStep::Finished && *final(self) == (CountdownDisplay { timer: ticked, ..*old(self) })
                } else if old(self).count == 1 {
                    step == CountdownStep::Go && final(self).count == 0 && final(self).timer
                        == Timer::from_nanos_spec(COUNTDOWN_GO_DURATION)
                } else {
                    step == CountdownStep::Beep((old(self).count - 1) as u32) && final(self).count
                        == old(self).count - 1 && final(self).timer == Timer::from_nanos_spec(
                        COUNTDOWN_STEP_DURATION,
                    )
                }
            }),
    {
        self.timer.tick(delta);
        if !self.timer.just_finished {
            CountdownStep::Wait
        } else if self.count == 0 {
            CountdownStep::Finished
        } else if self.count == 1 {
            self.count = 0;
            self.timer = Timer::from_nanos(COUNTDOWN_GO_DURATION);
            CountdownStep::Go
        } else {
            self.count = self.count - 1;
            self.timer = Timer::from_nanos(COUNTDOWN_STEP_DURATION);
            CountdownStep::Beep(self.count)
        }
    }
}

/// Moves on to the next level.
pub fn advance_level(level: &mut Level)
    requires
        old(level).current < u32::MAX,
    ensures
        final(level).current == old(level).current + 1,
{
    level.current = level.current + 1;
}

/// Back to the start of a session: score zero, level one, no streak, fresh
/// level statistics, and an empty field (no paddle, balls, blocks, walls or
/// pickups).
pub fn reset_game(
    score: &mut Score,
    level: &mut Level,
    combo: &mut ComboTracker,
    level_stats: &mut LevelStats,
    paddle: &mut Option<Paddle>,
    balls: &mut Vec<Ball>,
    blocks: &mut Vec<Block>,
    walls: &mut Vec<WallBody>,
    powerups: &mut Vec<PowerUp>,
)
    ensures
        final(score).value == 0,
        final(level).current == 1,
        final(combo).count == 0,
        final(combo).timer.elapsed == 0,
        final(combo).timer.duration == old(combo).timer.duration,
        final(combo).last_score_gained == old(combo).last_score_gained,
        *final(level_stats) == LevelStats::default_spec(),
        *final(paddle) is None,
        final(balls)@.len() == 0,
        final(blocks)@.len() == 0,
        final(walls)@.len() == 0,
        final(powerups)@.len() == 0,
{
    score.value = 0;
    level.current = 1;
    combo.count = 0;
    combo.timer.reset();
    *level_stats = LevelStats::default();
    *paddle = None;
    balls.clear();
    blocks.clear();
    walls.clear();
    powerups.clear();
}

/// Clears the field between levels or after a lost game: the paddle (with any
/// effect it carried), balls, pickups and blocks go, the walls stay, the
/// streak ends and the level statistics start over.
pub fn cleanup_for_next_level(
    paddle: &mut Option<Paddle>,
    balls: &mut Vec<Ball>,
    powerups: &mut Vec<PowerUp>,
    blocks: &mut Vec<Block>,
    combo: &mut ComboTracker,
    level_stats: &mut LevelStats,
)
    ensures
        *final(paddle) is None,
        final(balls)@.len() == 0,
        final(powerups)@.len() == 0,
        final(blocks)@.len() == 0,
        final(combo).count == 0,
        final(combo).timer.elapsed == 0,
        final(combo).timer.duration == old(combo).timer.duration,
        final(combo).last_score_gained == old(combo).last_score_gained,
        *final(level_stats) == LevelStats::default_spec(),
{
    *paddle = None;
    combo.count = 0;
    combo.timer.reset();
    *level_stats = LevelStats::default();
    balls.clear();
    powerups.clear();
    blocks.clear();
}

/// A paddle at the start of a level: centred on its row, at its base width,
/// with no effect active.
pub fn spawn_paddle() -> (p: Paddle)
    ensures
        p.position.x == 0,
        p.position.y == PADDLE_Y,
        p.width == PADDLE_WIDTH,
        p.effects is None,
{
    Paddle { position: Vec2 { x: 0, y: PADDLE_Y }, width: PADDLE_WIDTH, effects: None }
}

/// Starts the statistics of a level attempt, remembering the score it began
/// with.
pub fn record_level_start_score(score: &Score, level_stats: &mut LevelStats)
    ensures
        *final(level_stats) == (LevelStats { score_at_level_start: score.value, ..LevelStats::default_spec() }),
{
    *level_stats = LevelStats::default();
    level_stats.score_at_level_start = score.value;
}

/// Adds the frame's time to the level's playing time, stopping at the largest
/// value.
pub fn update_level_time(level_stats: &mut LevelStats, delta: u64)
    ensures
        final(level_stats).time_elapsed == if old(level_stats).time_elapsed + delta > u64::MAX {
            u64::MAX as int
        } else {
            old(level_stats).time_elapsed + delta
        },
        final(level_stats).blocks_destroyed == old(level_stats).blocks_destroyed,
        final(level_stats).max_combo == old(level_stats).max_combo,
        final(level_stats).score_at_level_start == old(level_stats).score_at_level_start,
{
    level_stats.time_elapsed = level_stats.time_elapsed.saturating_add(delta);
}

} // verus!
