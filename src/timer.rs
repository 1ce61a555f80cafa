use vstd::prelude::*;

verus! {

/// A one-shot countdown measured in nanoseconds: it runs until `elapsed`
/// reaches `duration` and then stays finished until it is reset.
#[derive(Clone, Copy, Debug, PartialEq, Eq, Structural)]
pub struct Timer {
    pub duration: u64,
    pub elapsed: u64,
    /// Whether the last tick was the one that made the timer finish.
    pub just_finished: bool,
}

impl Timer {
    pub open spec fn wf(self) -> bool {
        self.elapsed <= self.duration
    }

    pub open spec fn from_nanos_spec(duration: u64) -> Timer {
        Timer { duration, elapsed: 0, just_finished: false }
    }

    pub fn from_nanos(duration: u64) -> (t: Timer)
        ensures
            t == Timer::from_nanos_spec(duration),
            t.duration == duration,
            t.elapsed == 0,
            !t.just_finished,
            t.wf(),
    {
        Timer { duration, elapsed: 0, just_finished: false }
    }

    pub open spec fn spec_finished(self) -> bool {
        self.elapsed >= self.duration
    }

    pub fn finished(&self) -> (r: bool)
        ensures
            r == self.spec_finished(),
    {
        self.elapsed >= self.duration
    }

    /// The timer after `delta` more nanoseconds.
    pub open spec fn spec_tick(self, delta: u64) -> Timer {
        let elapsed = if self.elapsed + delta >= self.duration {
            self.duration
        } else {
            (self.elapsed + delta) as u64
        };
        Timer {
            duration: self.duration,
            elapsed,
            just_finished: !self.spec_finished() && elapsed >= self.duration,
        }
    }

    /// Advances the timer by `delta` nanoseconds, stopping at its duration.
    pub fn tick(&mut self, delta: u64)
        requires
            old(self).wf(),
        ensures
            *final(self) == old(self).spec_tick(delta),
            final(self).wf(),
            final(self).duration == old(self).duration,
            final(self).elapsed as int == if old(self).elapsed + delta >= old(self).duration {
                old(self).duration as int
            } else {
                old(self).elapsed + delta
            },
            final(self).just_finished == (!old(self).spec_finished()
                && final(self).spec_finished()),
    {
        let was_finished = self.elapsed >= self.duration;
        if delta >= self.duration - self.elapsed {
            self.elapsed = self.duration;
        } else {
            self.elapsed = self.elapsed + delta;
        }
        self.just_finished = !was_finished && self.elapsed >= self.duration;
    }

    /// Restarts the countdown from zero.
    pub fn reset(&mut self)
        ensures
            final(self).duration == old(self).duration,
            final(self).elapsed == 0,
            !final(self).just_finished,
            final(self).wf(),
    {
        self.elapsed = 0;
        self.just_finished = false;
    }
}

} // verus!
