//! The repeating countdown that paces the reveal and the concealment of a
//! level. The counting itself is done by the engine's `Timer`.

use vstd::prelude::*;

verus! {

/// How many times a repeating countdown of `period` that stands at `elapsed`
/// comes round when `delta` more passes, as the engine counts them: in 32
/// bits, and as many as 32 bits hold when the period is zero.
pub open spec fn laps(period: u64, elapsed: u64, delta: u64) -> int {
    if period == 0 {
        u32::MAX as int
    } else {
        ((elapsed + delta) / (period as int)) % 0x1_0000_0000
    }
}

/// Whether the countdown fires on a tick of `delta`.
pub open spec fn fires(period: u64, elapsed: u64, delta: u64) -> bool {
    laps(period, elapsed, delta) > 0
}

/// Where the countdown stands after a tick of `delta`: it wraps round once
/// the period is reached.
pub open spec fn elapsed_after(period: u64, elapsed: u64, delta: u64) -> int {
    if elapsed + delta < period {
        elapsed + delta
    } else if period == 0 {
        0
    } else {
        (elapsed + delta) % (period as int)
    }
}

/// One tick of the engine's timer, from plain numbers to plain numbers, all
/// in nanoseconds.
///
/// A repeating `bevy::time::Timer` of the given period is made with
/// `Timer::new`, put at `elapsed` with `Timer::set_elapsed`, and advanced by
/// `delta` with `Timer::tick`. Returned are `Timer::elapsed` and
/// `Timer::just_finished` after that tick. Taken on trust from the engine's
/// source: `tick` adds `delta` to the elapsed time; once that reaches the
/// period it counts the laps as `laps` says and keeps the remainder; and
/// `just_finished` says whether it counted any lap.
#[verifier::external_body]
pub(crate) fn tick_repeating(period: u64, elapsed: u64, delta: u64) -> (out: (u64, bool))
    ensures
        out.0 == elapsed_after(period, elapsed, delta),
        out.1 == fires(period, elapsed, delta),
{
    let mut timer = bevy::time::Timer::new(
        bevy::utils::Duration::from_nanos(period),
        bevy::time::TimerMode::Repeating,
    );
    timer.set_elapsed(bevy::utils::Duration::from_nanos(elapsed));
    timer.tick(bevy::utils::Duration::from_nanos(delta));
    (timer.elapsed().as_nanos() as u64, timer.just_finished())
}

} // verus!
