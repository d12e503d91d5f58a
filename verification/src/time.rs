use vstd::prelude::*;

verus! {

/// A span of time kept as whole seconds and the nanoseconds past them, in the
/// layout of `std::time::Duration`, whose ordering it follows.
#[derive(Clone, Copy, Debug, PartialEq, Eq, Structural)]
pub struct TimeSpan {
    pub secs: u64,
    pub nanos: u32,
}

impl TimeSpan {
    /// `self >= other` in the order of `Duration`: by seconds, then by nanoseconds.
    pub open spec fn spec_at_least(self, other: TimeSpan) -> bool {
        self.secs > other.secs || (self.secs == other.secs && self.nanos >= other.nanos)
    }

    pub open spec fn spec_is_zero(self) -> bool {
        self.secs == 0 && self.nanos == 0
    }

    pub fn from_secs(secs: u64) -> (r: TimeSpan)
        ensures
            r == (TimeSpan { secs, nanos: 0 }),
    {
        TimeSpan { secs, nanos: 0 }
    }

    pub fn from_millis(millis: u64) -> (r: TimeSpan)
        ensures
            r.secs == millis / 1000,
            r.nanos == (millis % 1000) * 1_000_000,
    {
        let rest: u64 = millis % 1000;
        TimeSpan { secs: millis / 1000, nanos: (rest as u32) * 1_000_000 }
    }

    pub fn is_zero(&self) -> (r: bool)
        ensures
            r == self.spec_is_zero(),
    {
        self.secs == 0 && self.nanos == 0
    }

    pub fn at_least(&self, other: &TimeSpan) -> (r: bool)
        ensures
            r == self.spec_at_least(*other),
    {
        self.secs > other.secs || (self.secs == other.secs && self.nanos >= other.nanos)
    }
}

} // verus!
