//! Game time at millisecond accuracy.
use vstd::prelude::*;

verus! {

/// Millisecond-accurate game time stamp.
///
/// At one millisecond per step, 64 bits last for hundreds of millions of
/// years.
#[derive(Debug, Clone, Copy, PartialEq, Eq, Hash, Structural)]
pub struct GameTime(pub u64);

/// Nanoseconds in one millisecond.
pub const NANOS_PER_MILLI: u32 = 1_000_000;

/// Milliseconds in one second.
pub const MILLIS_PER_SEC: u64 = 1_000;

/// The sum of the two numbers, or the largest number if the sum is larger.
pub open spec fn saturating(a: int, b: int) -> u64 {
    if a + b > u64::MAX {
        u64::MAX
    } else {
        (a + b) as u64
    }
}

/// Adds two numbers, stopping at the largest number.
fn add_saturating(a: u64, b: u64) -> (sum: u64)
    ensures
        sum == saturating(a as int, b as int),
{
    if a > u64::MAX - b {
        u64::MAX
    } else {
        a + b
    }
}

impl GameTime {
    /// The time stamp that stands for "not yet set".
    pub fn zero() -> (t: GameTime)
        ensures
            t.0 == 0,
    {
        GameTime(0)
    }

    /// The time stamp of the given number of milliseconds.
    pub fn from_millis(millis: u64) -> (t: GameTime)
        ensures
            t.0 == millis,
    {
        GameTime(millis)
    }

    /// Moves the time stamp on by the given number of milliseconds. A time
    /// stamp at the end of time stays there.
    pub fn add_millis(&mut self, millis: u32)
        ensures
            final(self).0 == saturating(old(self).0 as int, millis as int),
    {
        self.0 = add_saturating(self.0, millis as u64);
    }
}

/// A clock that is moved on by the time that each step of the game takes.
///
/// A freshly-constructed timer starts at 1ms. This frees up the 0ms value to
/// be used as an unitialized time stamp.
#[derive(Debug, Clone, Copy, PartialEq, Eq, Structural)]
pub struct GameTimer {
    /// Whole milliseconds that have passed.
    pub millis: u64,
    /// What has passed beyond the whole milliseconds, in nanoseconds.
    pub nanos: u32,
}

impl GameTimer {
    /// The part below one millisecond is below one millisecond.
    pub open spec fn wf(&self) -> bool {
        self.nanos < NANOS_PER_MILLI
    }

    /// A timer at 1ms.
    pub fn new() -> (timer: Self)
        ensures
            timer.wf(),
            timer.millis == 1,
            timer.nanos == 0,
    {
        GameTimer { millis: 1, nanos: 0 }
    }

    /// Moves the timer on by a time span, given as whole seconds and the
    /// nanoseconds beyond them. The timer stops at the end of time.
    pub fn add_dt(&mut self, secs: u64, subsec_nanos: u32)
        requires
            old(self).wf(),
            subsec_nanos < 1_000_000_000,
        ensures
            final(self).wf(),
            final(self).nanos == (old(self).nanos + subsec_nanos) % (NANOS_PER_MILLI as int),
            final(self).millis == saturating(
                old(self).millis as int,
                secs * MILLIS_PER_SEC + (old(self).nanos + subsec_nanos) / (
                NANOS_PER_MILLI as int),
            ),
    {
        let sub: u32 = self.nanos + subsec_nanos;
        let carry: u64 = (sub / NANOS_PER_MILLI) as u64;
        self.nanos = sub % NANOS_PER_MILLI;
        if secs > (u64::MAX - carry) / MILLIS_PER_SEC {
            self.millis = u64::MAX;
        } else {
            let step: u64 = secs * MILLIS_PER_SEC + carry;
            self.millis = add_saturating(self.millis, step);
        }
    }

    /// The time that the timer shows.
    pub fn time(&self) -> (t: GameTime)
        ensures
            t.0 == self.millis,
    {
        GameTime(self.millis)
    }
}

} // verus!
