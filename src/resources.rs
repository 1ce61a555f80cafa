use vstd::prelude::*;

use crate::constants::{BALL_SPEED, COMBO_WINDOW, SPEED_INCREASE_PER_LEVEL};
use crate::storage::{load_scores, save_scores, scores_of, scores_record};
use crate::text::ascii_chars;
use crate::timer::Timer;
use vstd::string::StringSliceAdditionalSpecFns;

verus! {

/// Running score of the session.
#[derive(Clone, Copy, Debug, PartialEq, Eq, Structural)]
pub struct Score {
    pub value: u32,
}

impl Score {
    pub fn default() -> (s: Score)
        ensures
            s.value == 0,
    {
        Score { value: 0 }
    }
}

/// Current level number, starting at one.
#[derive(Clone, Copy, Debug, PartialEq, Eq, Structural)]
pub struct Level {
    pub current: u32,
}

/// Highest level whose ball speed still fits a velocity component.
pub const MAX_LEVEL: u32 = 50_000;

pub open spec fn spec_speed_multiplier(level: u32) -> int {
    100 + (level - 1) * SPEED_INCREASE_PER_LEVEL
}

/// Ball speed of a level: the base speed scaled by the level's multiplier.
pub open spec fn spec_level_speed(level: u32) -> int {
    BALL_SPEED * spec_speed_multiplier(level) / 100
}

impl Level {
    pub fn default() -> (l: Level)
        ensures
            l.current == 1,
    {
        Level { current: 1 }
    }

    /// Ball speed multiplier of the level, in hundredths: one plus a tenth per
    /// level after the first.
    pub fn speed_multiplier(&self) -> (m: u64)
        requires
            self.current >= 1,
        ensures
            m == spec_speed_multiplier(self.current),
    {
        100 + (self.current as u64 - 1) * SPEED_INCREASE_PER_LEVEL
    }

    /// Canonical ball speed of the level, in thousandths of a pixel per second.
    pub fn ball_speed(&self) -> (s: i32)
        requires
            1 <= self.current <= MAX_LEVEL,
        ensures
            s == spec_level_speed(self.current),
            s > 0,
    {
        let m = self.speed_multiplier();
        proof {
            assert(BALL_SPEED as u64 * m <= 400_000 * 500_090) by (nonlinear_arith)
                requires
                    m <= 500_090,
            ;
            assert(BALL_SPEED as u64 * m >= 400_000 * 100) by (nonlinear_arith)
                requires
                    m >= 100,
            ;
        }
        (BALL_SPEED as u64 * m / 100) as i32
    }
}

/// The rank a score takes in a descending top-three table, if any.
pub open spec fn rank_for(scores: Seq<u32>, score: u32) -> Option<usize> {
    if score == 0 {
        None
    } else if score > scores[0] {
        Some(0)
    } else if score > scores[1] {
        Some(1)
    } else if score > scores[2] {
        Some(2)
    } else {
        None
    }
}

/// The table after `score` is placed at `rank` and the entries below it move
/// down one place, the last one dropping out.
pub open spec fn inserted_at(scores: Seq<u32>, rank: int, score: u32) -> Seq<u32> {
    (scores.take(rank).push(score) + scores.subrange(rank, 2))
}

pub open spec fn is_descending(scores: Seq<u32>) -> bool {
    scores.len() == 3 && scores[0] >= scores[1] >= scores[2]
}

/// Top three scores, in descending order.
#[derive(Clone, Copy, Debug, PartialEq, Eq)]
pub struct HighScores {
    pub scores: [u32; 3],
}

impl HighScores {
    pub fn default() -> (h: HighScores)
        ensures
            h.scores@ == seq![0u32, 0u32, 0u32],
    {
        HighScores { scores: [0, 0, 0] }
    }

    /// The table from its stored record (see `load_scores`).
    pub fn load(stored: Option<&str>) -> (h: HighScores)
        ensures
            h.scores@ == match stored {
                Some(s) => scores_of(s.spec_bytes()),
                None => seq![0u32, 0u32, 0u32],
            },
    {
        HighScores { scores: load_scores(stored) }
    }

    /// The record to store for the table.
    pub fn save(&self) -> (r: String)
        ensures
            r@ == ascii_chars(scores_record(self.scores@)),
    {
        save_scores(&self.scores)
    }

    /// Best (first place) score.
    pub fn best(&self) -> (b: u32)
        ensures
            b == self.scores@[0],
    {
        self.scores[0]
    }

    /// Places a score in the table. A score of zero never qualifies; otherwise
    /// it takes the first place whose score it beats, the entries below move
    /// down one place, and the returned rank is that place. When no place
    /// qualifies the table is left unchanged.
    pub fn try_insert(&mut self, score: u32) -> (r: Option<usize>)
        ensures
            r == rank_for(old(self).scores@, score),
            r is Some ==> final(self).scores@ == inserted_at(
                old(self).scores@,
                r->0 as int,
                score,
            ),
            r is None ==> final(self).scores == old(self).scores,
    {
        if score == 0 {
            return None;
        }
        let s = self.scores;
        if score > s[0] {
            self.scores = [score, s[0], s[1]];
            assert(self.scores@ =~= inserted_at(s@, 0, score));
            Some(0)
        } else if score > s[1] {
            self.scores = [s[0], score, s[1]];
            assert(self.scores@ =~= inserted_at(s@, 1, score));
            Some(1)
        } else if score > s[2] {
            self.scores = [s[0], s[1], score];
            assert(self.scores@ =~= inserted_at(s@, 2, score));
            Some(2)
        } else {
            None
        }
    }
}

/// Inserting into a descending table keeps it descending; a score of zero is
/// always refused; and a score no higher than the last entry is refused,
/// leaving the table as it was.
pub proof fn lemma_try_insert_order(scores: Seq<u32>, score: u32)
    requires
        is_descending(scores),
    ensures
        rank_for(scores, score) matches Some(i) ==> is_descending(
            inserted_at(scores, i as int, score),
        ),
        score == 0 ==> rank_for(scores, score) is None,
        score <= scores[2] ==> rank_for(scores, score) is None,
{
    if let Some(i) = rank_for(scores, score) {
        let t = inserted_at(scores, i as int, score);
        assert(t.len() == 3);
        if i == 0 {
            assert(t =~= seq![score, scores[0], scores[1]]);
        } else if i == 1 {
            assert(t =~= seq![scores[0], score, scores[1]]);
        } else {
            assert(t =~= seq![scores[0], scores[1], score]);
        }
    }
}

/// Statistics of the current level attempt.
#[derive(Clone, Copy, Debug, PartialEq, Eq, Structural)]
pub struct LevelStats {
    pub blocks_destroyed: u32,
    pub max_combo: u32,
    pub score_at_level_start: u32,
    /// Time spent playing the level, in nanoseconds.
    pub time_elapsed: u64,
}

impl LevelStats {
    pub open spec fn default_spec() -> LevelStats {
        LevelStats { blocks_destroyed: 0, max_combo: 0, score_at_level_start: 0, time_elapsed: 0 }
    }

    pub fn default() -> (s: LevelStats)
        ensures
            s == LevelStats::default_spec(),
            s.blocks_destroyed == 0,
            s.max_combo == 0,
            s.score_at_level_start == 0,
            s.time_elapsed == 0,
    {
        LevelStats { blocks_destroyed: 0, max_combo: 0, score_at_level_start: 0, time_elapsed: 0 }
    }
}

/// Hit streak: the number of destructions in a row, the decay window since the
/// last one, and the points of the most recent destruction.
#[derive(Clone, Copy, Debug, PartialEq, Eq, Structural)]
pub struct ComboTracker {
    pub count: u32,
    pub timer: Timer,
    pub last_score_gained: u32,
}

impl ComboTracker {
    pub fn default() -> (c: ComboTracker)
        ensures
            c.count == 0,
            c.last_score_gained == 0,
            c.timer.duration == COMBO_WINDOW,
            c.timer.elapsed == 0,
            c.wf(),
    {
        ComboTracker { count: 0, timer: Timer::from_nanos(COMBO_WINDOW), last_score_gained: 0 }
    }

    pub open spec fn wf(self) -> bool {
        self.timer.wf()
    }
}

} // verus!
