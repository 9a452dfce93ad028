//! Points in time, and the clock.

use vstd::prelude::*;

verus! {

/// A point in time: whole seconds since the start of 1970 in UTC, and the
/// nanoseconds since the last whole second.
#[derive(Clone, Copy, Debug, PartialEq, Eq, Structural, Hash)]
pub struct Timestamp {
    pub secs: i64,
    pub nanos: u32,
}

impl Timestamp {
    /// Whether `self` is `other` or earlier.
    pub open spec fn le(self, other: Timestamp) -> bool {
        self.secs < other.secs || (self.secs == other.secs && self.nanos <= other.nanos)
    }

    /// The later of two points in time.
    pub open spec fn later_spec(self, other: Timestamp) -> Timestamp {
        if self.le(other) {
            other
        } else {
            self
        }
    }

    /// Whether `self` is `other` or earlier.
    pub fn not_after(&self, other: &Timestamp) -> (r: bool)
        ensures
            r == self.le(*other),
    {
        self.secs < other.secs || (self.secs == other.secs && self.nanos <= other.nanos)
    }

    /// The later of two points in time.
    pub fn later(self, other: Timestamp) -> (r: Timestamp)
        ensures
            r == self.later_spec(other),
            self.le(r),
            other.le(r),
    {
        if self.not_after(&other) {
            other
        } else {
            self
        }
    }

    /// Reads the clock: wraps `chrono::Utc::now`, and takes the result apart
    /// with `DateTime::timestamp` and `DateTime::timestamp_subsec_nanos`.
    /// Nothing is assumed of the time that comes back.
    #[verifier::external_body]
    pub(crate) fn now() -> Timestamp {
        let t = chrono::Utc::now();
        Timestamp { secs: t.timestamp(), nanos: t.timestamp_subsec_nanos() }
    }
}

} // verus!
