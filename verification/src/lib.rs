use vstd::prelude::*;

pub mod cell;
pub mod creature;
pub mod dir;
pub mod falling;
pub mod game;
pub mod fruit;
pub mod grid;

verus! {

/// Milliseconds between two creature steps.
pub const STEP_INTERVAL_MS: u64 = 333;

/// Milliseconds between two falling-block steps (one third of the creature's).
pub const FALL_INTERVAL_MS: u64 = 111;

/// A timed action fires once the clock has advanced at least `interval`
/// milliseconds past the action's last firing.
pub open spec fn timer_fired(now_ms: u64, last_ms: u64, interval: u64) -> bool {
    now_ms >= interval && now_ms - interval >= last_ms
}

/// Executable form of `timer_fired`; never overflows.
pub fn check_timer(now_ms: u64, last_ms: u64, interval: u64) -> (r: bool)
    ensures
        r == timer_fired(now_ms, last_ms, interval),
{
    now_ms >= interval && now_ms - interval >= last_ms
}

} // verus!
