use breakout::combo::update_combo_timer;
use breakout::resources::ComboTracker;
use breakout::timer::Timer;

/// One frame at 60 frames per second, in nanoseconds.
const FRAME: u64 = 16_666_666;

#[test]
fn combo_timer_ticks_when_active() {
    let mut combo = ComboTracker::default();
    combo.count = 2;
    combo.timer.reset();
    update_combo_timer(&mut combo, FRAME);
    assert!(combo.timer.elapsed > 0, "Timer should tick");
    assert_eq!(combo.count, 2, "Count should not change while timer is active");
}

#[test]
fn combo_resets_when_timer_expires() {
    let mut combo = ComboTracker::default();
    combo.count = 5;
    combo.timer = Timer::from_nanos(10_000_000);
    update_combo_timer(&mut combo, FRAME);
    update_combo_timer(&mut combo, FRAME);
    assert_eq!(combo.count, 0, "Count should reset when timer expires");
}

#[test]
fn combo_no_tick_when_zero() {
    let mut combo = ComboTracker::default();
    combo.count = 0;
    combo.timer.reset();
    update_combo_timer(&mut combo, FRAME);
    assert_eq!(combo.count, 0);
    assert_eq!(combo.timer.elapsed, 0, "Timer should not tick when count is 0");
}

#[test]
fn combo_survives_while_hits_keep_coming() {
    let mut combo = ComboTracker::default();
    combo.count = 1;
    for _ in 0..10 {
        // a little under the window, then a hit restarts it
        update_combo_timer(&mut combo, 1_499_999_999);
        assert_eq!(combo.count, 1);
        combo.timer.reset();
    }
}

#[test]
fn combo_ends_exactly_at_window() {
    let mut combo = ComboTracker::default();
    combo.count = 3;
    update_combo_timer(&mut combo, 1_000_000_000);
    assert_eq!(combo.count, 3);
    update_combo_timer(&mut combo, 500_000_000);
    assert_eq!(combo.count, 0);
    assert_eq!(combo.timer.elapsed, 1_500_000_000);
}

#[test]
fn timer_finishes_once() {
    let mut t = Timer::from_nanos(100);
    t.tick(60);
    assert!(!t.finished() && !t.just_finished);
    t.tick(60);
    assert!(t.finished() && t.just_finished);
    assert_eq!(t.elapsed, 100);
    t.tick(60);
    assert!(t.finished() && !t.just_finished);
}
