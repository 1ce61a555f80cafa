use vstd::prelude::*;

use crate::constants::{COMBO_WINDOW, SCORE_PER_BLOCK};
use crate::resources::{ComboTracker, Score};

verus! {

pub open spec fn sat_u32(x: int) -> int {
    if x > u32::MAX {
        u32::MAX as int
    } else {
        x
    }
}

/// Combo count after one more destruction.
pub open spec fn next_count(count: u32) -> int {
    sat_u32(count + 1)
}

/// Points for a destruction at combo count `count` (already incremented).
pub open spec fn points_for(count: int, bonus: u32) -> int {
    sat_u32(SCORE_PER_BLOCK * count + bonus)
}

/// Score and combo after one destruction worth `bonus` extra points: the
/// combo count grows by one, the decay window restarts, and the score grows by
/// the base points times the new count plus the bonus.
pub open spec fn awarded(
    score: Score,
    combo: ComboTracker,
    bonus: u32,
    score2: Score,
    combo2: ComboTracker,
) -> bool {
    &&& combo2.count == next_count(combo.count)
    &&& combo2.last_score_gained == points_for(combo2.count as int, bonus)
    &&& score2.value == sat_u32(score.value + combo2.last_score_gained)
    &&& combo2.timer.duration == combo.timer.duration
    &&& combo2.timer.elapsed == 0
    &&& combo2.wf()
}

/// Records one block destruction: increments the combo, restarts its decay
/// window and adds the points to the score. Returns the points gained.
pub fn award_destruction(score: &mut Score, combo: &mut ComboTracker, bonus: u32) -> (gained: u32)
    ensures
        awarded(*old(score), *old(combo), bonus, *final(score), *final(combo)),
        gained == final(combo).last_score_gained,
{
    combo.count = combo.count.saturating_add(1);
    combo.timer.reset();
    let c: u64 = combo.count as u64;
    let base: u64 = SCORE_PER_BLOCK as u64;
    assert(base * c <= 10 * 0xffff_ffff) by (nonlinear_arith)
        requires
            base == 10,
            c <= 0xffff_ffff,
    ;
    let raw: u64 = base * c + bonus as u64;
    let gained: u32 = if raw > 0xffff_ffff {
        0xffff_ffff
    } else {
        raw as u32
    };
    score.value = score.value.saturating_add(gained);
    combo.last_score_gained = gained;
    gained
}

/// The combo after a frame of `delta` nanoseconds: while a streak is running
/// its decay window advances, and the streak ends when the window runs out.
pub open spec fn combo_ticked(combo: ComboTracker, delta: u64) -> ComboTracker {
    if combo.count > 0 {
        let t = combo.timer.spec_tick(delta);
        ComboTracker { count: if t.spec_finished() { 0 } else { combo.count }, timer: t, ..combo }
    } else {
        combo
    }
}

/// Advances the combo decay window by `delta` nanoseconds while a streak is
/// running, and ends the streak when the window runs out.
pub fn update_combo_timer(combo: &mut ComboTracker, delta: u64)
    requires
        old(combo).wf(),
    ensures
        *final(combo) == combo_ticked(*old(combo), delta),
        final(combo).wf(),
{
    if combo.count > 0 {
        combo.timer.tick(delta);
        if combo.timer.finished() {
            combo.count = 0;
        }
    }
}

/// A hit keeps the streak alive through any frame shorter than the window
/// that follows it; a frame that completes the window without a hit ends the
/// streak.
pub proof fn lemma_combo_decay(
    score: Score,
    combo: ComboTracker,
    bonus: u32,
    score2: Score,
    hit: ComboTracker,
    delta: u64,
)
    requires
        combo.wf(),
        awarded(score, combo, bonus, score2, hit),
    ensures
        delta < hit.timer.duration ==> combo_ticked(hit, delta).count == hit.count && hit.count > 0,
        combo.count > 0 && combo.timer.elapsed + delta >= combo.timer.duration ==> combo_ticked(
            combo,
            delta,
        ).count == 0,
{
}

/// With the combo window of 1.5 seconds: a streak ends when a frame takes the
/// time since the last hit to the window, and otherwise keeps its count while
/// the time since the last hit grows by the frame.
pub proof fn lemma_combo_window(combo: ComboTracker, delta: u64)
    requires
        combo.wf(),
        combo.count > 0,
        combo.timer.duration == COMBO_WINDOW,
    ensures
        combo.timer.elapsed + delta >= COMBO_WINDOW ==> combo_ticked(combo, delta).count == 0,
        combo.timer.elapsed + delta < COMBO_WINDOW ==> combo_ticked(combo, delta).count == combo.count
            && combo_ticked(combo, delta).timer.elapsed == combo.timer.elapsed + delta,
{
}

/// A destruction worth `bonus` extra points raises the combo count by one and
/// the score by exactly the base points times the new count plus the bonus,
/// as long as neither reaches its largest value.
pub proof fn lemma_destruction_score(
    score: Score,
    combo: ComboTracker,
    bonus: u32,
    score2: Score,
    combo2: ComboTracker,
)
    requires
        awarded(score, combo, bonus, score2, combo2),
        combo.count < u32::MAX,
        score.value + SCORE_PER_BLOCK * (combo.count + 1) + bonus <= u32::MAX,
    ensures
        combo2.count == combo.count + 1,
        combo2.last_score_gained == SCORE_PER_BLOCK * combo2.count + bonus,
        score2.value == score.value + SCORE_PER_BLOCK * combo2.count + bonus,
{
}

} // verus!
