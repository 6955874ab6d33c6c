//! Timing decisions of the event loop. Times are milliseconds on one monotonic clock; the loop
//! itself (surfaces, buffers, timers) lives with the program that runs it.

use vstd::prelude::*;

verus! {

/// Frame interval while anything animates, in milliseconds.
pub const FRAME_INTERVAL: u64 = 16;

/// The clock's tick, in milliseconds.
pub const CLOCK_INTERVAL: u64 = 1000;

pub open spec fn min_int(a: int, b: int) -> int {
    if a <= b { a } else { b }
}

/// The next wake-up: the clock's tick, the next frame while animating, and the next expiry (a
/// past one counts as now), whichever comes first.
pub open spec fn deadline_at(now: u64, animating: bool, next_expiry: Option<u64>) -> int {
    let tick = now + CLOCK_INTERVAL;
    let with_frame = if animating { min_int(tick, now + FRAME_INTERVAL) } else { tick };
    match next_expiry {
        Some(e) => min_int(with_frame, if e >= now { e as int } else { now as int }),
        None => with_frame,
    }
}

/// When the event loop should wake next. The earliest of the candidates wins, and the result is
/// never in the past.
pub fn next_deadline(now: u64, animating: bool, next_expiry: Option<u64>) -> (d: u64)
    requires
        now + CLOCK_INTERVAL <= u64::MAX,
    ensures
        d == deadline_at(now, animating, next_expiry),
        now <= d <= now + CLOCK_INTERVAL,
        animating ==> d <= now + FRAME_INTERVAL,
        next_expiry matches Some(e) ==> d <= e || d == now,
{
    let mut deadline = now + CLOCK_INTERVAL;
    if animating && now + FRAME_INTERVAL < deadline {
        deadline = now + FRAME_INTERVAL;
    }
    if let Some(expiry) = next_expiry {
        let at = if expiry >= now { expiry } else { now };
        if at < deadline {
            deadline = at;
        }
    }
    deadline
}

} // verus!
