//! Durations for the timer wait primitive, converted to timebase ticks.
use vstd::prelude::*;

verus! {

/// A duration, in the unit its variant names.
#[derive(Debug, Clone, Copy, PartialEq, Eq, Structural)]
pub enum Time {
    Hour(usize),
    Minute(usize),
    Second(usize),
    Millisecond(usize),
    Microsecond(usize),
}

/// Ticks of a timer running at `frequency` ticks per second:
/// seconds scale by the frequency alone, minutes and hours by 60 and
/// 3600 more; sub-second durations first divide down to whole seconds.
pub open spec fn spec_ticks(t: Time, frequency: usize) -> int {
    match t {
        Time::Hour(v) => v * frequency * 3600,
        Time::Minute(v) => v * frequency * 60,
        Time::Second(v) => v * frequency,
        Time::Millisecond(v) => (v / 1000) * frequency,
        Time::Microsecond(v) => (v / 1000000) * frequency,
    }
}

impl Time {
    /// The duration in timer ticks at the given timebase frequency.
    pub fn as_usize(&self, frequency: usize) -> (r: usize)
        requires
            spec_ticks(*self, frequency) <= usize::MAX,
        ensures
            r == spec_ticks(*self, frequency),
    {
        match self {
            Time::Hour(v) => {
                proof {
                    assert((*v * frequency) * 3600 == *v * frequency * 3600) by (nonlinear_arith);
                    assert(*v * frequency <= *v * frequency * 3600) by (nonlinear_arith);
                }
                (*v * frequency) * 3600
            },
            Time::Minute(v) => {
                proof {
                    assert((*v * frequency) * 60 == *v * frequency * 60) by (nonlinear_arith);
                    assert(*v * frequency <= *v * frequency * 60) by (nonlinear_arith);
                }
                (*v * frequency) * 60
            },
            Time::Second(v) => *v * frequency,
            Time::Millisecond(v) => (*v / 1000) * frequency,
            Time::Microsecond(v) => (*v / 1000000) * frequency,
        }
    }
}

/// The absolute time to hand the SBI timer for a wait that starts
/// now: the wait loop then parks the hart until the timer interrupt
/// releases it.
pub fn wait_deadline(now: u64, time: Time, frequency: usize) -> (r: u64)
    requires
        spec_ticks(time, frequency) <= usize::MAX,
        now + spec_ticks(time, frequency) <= u64::MAX,
    ensures
        r == now + spec_ticks(time, frequency),
{
    now + (time.as_usize(frequency) as u64)
}

} // verus!
