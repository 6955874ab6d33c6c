//! Easing kinds and tweens. Notification cards move independently, so a tween is a small value
//! type rather than a global animation owner. Times are milliseconds on one monotonic clock; the
//! spring curves themselves are floating-point and are evaluated by the renderer.

use vstd::prelude::*;

verus! {

/// Apple's motion language is springs rather than easing curves: the movement starts fast and
/// lands softly, with a little overshoot when something *opens* and none when it *closes*.
#[derive(Clone, Copy, Debug, PartialEq, Eq, Structural)]
pub enum Easing {
    /// Something opening: damping 0.7, about a 4% overshoot.
    Spring,
    /// Something closing: critically damped, no overshoot.
    Smooth,
}

#[derive(Clone, Copy, Debug, PartialEq, Eq, Structural)]
pub struct Tween {
    /// Start time, in milliseconds.
    pub start: u64,
    /// Duration, in milliseconds.
    pub dur: u64,
}

/// Whether a tween has run its course at `now`: a zero duration completes at once, otherwise the
/// time since the start (none before it) must reach the duration.
pub open spec fn tween_done(t: Tween, now: u64) -> bool {
    t.dur == 0 || (now >= t.start && now - t.start >= t.dur)
}

impl Tween {
    pub fn new(start: u64, dur_ms: u64) -> (t: Tween)
        ensures
            t == (Tween { start, dur: dur_ms }),
    {
        Tween { start, dur: dur_ms }
    }

    pub fn is_done(&self, now: u64) -> (d: bool)
        ensures
            d == tween_done(*self, now),
    {
        // Zero duration means "complete immediately".
        self.dur == 0 || now.saturating_sub(self.start) >= self.dur
    }
}

/// Once a tween is done it stays done.
pub proof fn lemma_done_stays_done(t: Tween, now: u64, later: u64)
    requires
        tween_done(t, now),
        now <= later,
    ensures
        tween_done(t, later),
{
}

} // verus!
