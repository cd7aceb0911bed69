//! Points in time, as the library records them.

use vstd::prelude::*;

verus! {

/// A point in time: whole seconds since the Unix epoch and the nanoseconds
/// past that second.
#[derive(Debug, Clone, Copy, PartialEq, Eq, Structural)]
pub struct Timestamp {
    pub secs: i64,
    pub nanos: u32,
}

impl Timestamp {
    /// `self` is not later than `other`.
    pub open spec fn le(self, other: Timestamp) -> bool {
        self.secs < other.secs || (self.secs == other.secs && self.nanos <= other.nanos)
    }

    /// Whether `self` is not later than `other`.
    pub fn not_after(&self, other: &Timestamp) -> (r: bool)
        ensures
            r == self.le(*other),
    {
        self.secs < other.secs || (self.secs == other.secs && self.nanos <= other.nanos)
    }

    /// The later of two points in time.
    pub fn later_of(a: Timestamp, b: Timestamp) -> (r: Timestamp)
        ensures
            r == later(a, b),
    {
        if a.not_after(&b) {
            b
        } else {
            a
        }
    }
}

/// The later of two points in time.
pub open spec fn later(a: Timestamp, b: Timestamp) -> Timestamp {
    if a.le(b) {
        b
    } else {
        a
    }
}

/// The order on points in time is total and transitive, and `later` is an
/// upper bound of both its arguments.
pub proof fn lemma_later_bounds(a: Timestamp, b: Timestamp, c: Timestamp)
    ensures
        a.le(later(a, b)),
        b.le(later(a, b)),
        a.le(b) || b.le(a),
        a.le(b) && b.le(c) ==> a.le(c),
{
}

/// `chrono::Utc::now`: the system clock's reading. Nothing is promised of the
/// value: a system clock may jump in either direction.
#[verifier::external_body]
pub(crate) fn now() -> (t: Timestamp) {
    let t = chrono::Utc::now();
    Timestamp { secs: t.timestamp(), nanos: t.timestamp_subsec_nanos() }
}

} // verus!
