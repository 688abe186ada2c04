use vstd::prelude::*;

verus! {

/// A span of time kept as whole seconds and the nanoseconds beyond them,
/// ordered first by seconds and then by nanoseconds.
#[derive(Clone, Copy, Debug, PartialEq, Eq)]
pub struct TimeSpan {
    pub secs: u64,
    pub nanos: u32,
}

impl TimeSpan {
    /// The span of no time at all.
    pub open spec fn zero_span() -> TimeSpan {
        TimeSpan { secs: 0, nanos: 0 }
    }

    /// The span of no time at all.
    pub fn zero() -> (t: TimeSpan)
        ensures
            t.secs == 0,
            t.nanos == 0,
    {
        TimeSpan { secs: 0, nanos: 0 }
    }

    /// A span of exactly `secs` seconds.
    pub fn from_secs(secs: u64) -> (t: TimeSpan)
        ensures
            t.secs == secs,
            t.nanos == 0,
    {
        TimeSpan { secs, nanos: 0 }
    }

    /// `self` is at least as long as `other` (seconds first, then nanoseconds).
    pub open spec fn at_least(self, other: TimeSpan) -> bool {
        self.secs > other.secs || (self.secs == other.secs && self.nanos >= other.nanos)
    }

    /// Whether `self` is at least as long as `other`.
    pub fn is_at_least(&self, other: &TimeSpan) -> (r: bool)
        ensures
            r == self.at_least(*other),
    {
        self.secs > other.secs || (self.secs == other.secs && self.nanos >= other.nanos)
    }

    /// Whether the span is empty: no seconds and no nanoseconds.
    pub fn is_zero(&self) -> (r: bool)
        ensures
            r == (self.secs == 0 && self.nanos == 0),
    {
        self.secs == 0 && self.nanos == 0
    }
}

} // verus!
