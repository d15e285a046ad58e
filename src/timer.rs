//! Conversions of the machine timer's tick count, and the deadline of the
//! next timer interrupt.

use vstd::prelude::*;
use crate::config::{CLOCK_FREQ, TICKS_PER_SEC};

verus! {

/// Milliseconds per second.
pub const MSEC_PER_SEC: u64 = 1000;

/// Microseconds per second.
pub const USEC_PER_SEC: u64 = 1_000_000;

/// The deadline that switches the timer off: it never arrives.
pub const INF: u64 = u64::MAX;

/// Milliseconds elapsed at tick count `ticks`.
pub fn get_time_ms(ticks: u64) -> (r: u64)
    ensures
        r == ticks / (CLOCK_FREQ / MSEC_PER_SEC),
{
    ticks / (CLOCK_FREQ / MSEC_PER_SEC)
}

/// Microseconds elapsed at tick count `ticks`.
pub fn get_time_us(ticks: u64) -> (r: u64)
    ensures
        r == ticks / (CLOCK_FREQ / USEC_PER_SEC),
{
    ticks / (CLOCK_FREQ / USEC_PER_SEC)
}

/// Deadline of the next timer interrupt when the clock reads `now`.
pub open spec fn spec_next_trigger(now: u64) -> u64 {
    (now + CLOCK_FREQ / TICKS_PER_SEC) as u64
}

/// Deadline of the next timer interrupt when the clock reads `now`: one
/// time slice later.
pub fn set_next_trigger(now: u64) -> (r: u64)
    requires
        now <= u64::MAX - CLOCK_FREQ / TICKS_PER_SEC,
    ensures
        r == now + CLOCK_FREQ / TICKS_PER_SEC,
        r == spec_next_trigger(now),
{
    now + CLOCK_FREQ / TICKS_PER_SEC
}

/// Deadline that switches the timer off.
pub fn close_timer() -> (r: u64)
    ensures
        r == u64::MAX,
{
    INF
}

} // verus!
