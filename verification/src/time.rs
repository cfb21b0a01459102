//! Instants and durations, counted in clock cycles.

use vstd::prelude::*;
use vstd::std_specs::ops::SubSpec;

verus! {

/// A reading of a clock that does not run backwards.
#[derive(Clone, Copy, Debug)]
pub struct Instant(i32);

/// A span of time.
#[derive(Clone, Copy, Debug)]
pub struct Duration(u32);

impl Instant {
    /// The reading of the counter.
    pub closed spec fn view(&self) -> int {
        self.0 as int
    }

    /// Wraps a reading of the counter.
    pub fn from_cycles(cycles: i32) -> (r: Instant)
        ensures
            r@ == cycles,
    {
        Instant(cycles)
    }

    /// The time elapsed from `earlier` to this instant, or `None` when
    /// `earlier` is the later of the two.
    pub fn checked_duration_since(&self, earlier: Instant) -> (elapsed: Option<Duration>)
        requires
            self@ - earlier@ <= i32::MAX,
            self@ - earlier@ >= i32::MIN,
        ensures
            elapsed is Some <==> self@ >= earlier@,
            elapsed matches Some(d) ==> d@ == self@ - earlier@,
    {
        let diff: i32 = self.0 - earlier.0;
        if diff >= 0 {
            Some(Duration(diff as u32))
        } else {
            None
        }
    }

    /// The time elapsed from `earlier` to this instant.
    pub fn duration_since(&self, earlier: Instant) -> (elapsed: Duration)
        requires
            earlier@ <= self@,
            self@ - earlier@ <= i32::MAX,
        ensures
            elapsed@ == self@ - earlier@,
    {
        let diff: i32 = self.0 - earlier.0;
        Duration(diff as u32)
    }
}

impl core::ops::Sub<Instant> for Instant {
    type Output = Duration;

    /// The time elapsed from `other` to this instant.
    fn sub(self, other: Instant) -> (elapsed: Duration) {
        self.duration_since(other)
    }
}

impl vstd::std_specs::ops::SubSpecImpl<Instant> for Instant {
    open spec fn obeys_sub_spec() -> bool {
        true
    }

    open spec fn sub_req(self, other: Instant) -> bool {
        other@ <= self@ && self@ - other@ <= i32::MAX
    }

    closed spec fn sub_spec(self, other: Instant) -> Duration {
        Duration((self.0 - other.0) as u32)
    }
}

/// The difference of two instants is the time that went by between them.
pub proof fn difference_of_instants(later: Instant, earlier: Instant)
    requires
        earlier@ <= later@,
        later@ - earlier@ <= i32::MAX,
    ensures
        later.sub_spec(earlier)@ == later@ - earlier@,
{
}

impl Duration {
    /// The number of clock cycles of the span.
    pub closed spec fn view(&self) -> int {
        self.0 as int
    }

    /// The number of clock cycles of the span.
    pub fn as_cycles(&self) -> (cycles: u32)
        ensures
            cycles == self@,
    {
        self.0
    }
}

} // verus!
