//! Points in time as plain numbers: whole seconds since the start of 1970
//! and the nanoseconds into the second.

use vstd::prelude::*;

verus! {

/// Nanoseconds in a second.
pub const NANOS_PER_SEC: u64 = 1_000_000_000;

/// A point in time.
#[derive(Clone, Copy, Debug, PartialEq, Eq, Structural)]
pub struct Timestamp {
    /// Whole seconds since 1970-01-01 00:00:00 UTC; negative before it.
    pub secs: i64,
    /// Nanoseconds since the start of the second.
    pub nanos: u32,
}

/// The whole seconds between two points in time, counted as one where
/// less than a whole second lies between them or time ran backwards.
pub open spec fn elapsed_seconds_spec(now: Timestamp, earlier: Timestamp) -> int {
    let nanos = now.total_nanos() - earlier.total_nanos();
    if nanos >= NANOS_PER_SEC {
        nanos / (NANOS_PER_SEC as int)
    } else {
        1
    }
}

impl Timestamp {
    /// Nanoseconds since the start of 1970.
    pub open spec fn total_nanos(&self) -> int {
        self.secs * NANOS_PER_SEC + self.nanos
    }

    pub fn new(secs: i64, nanos: u32) -> (t: Timestamp)
        ensures
            t == (Timestamp { secs, nanos }),
    {
        Timestamp { secs, nanos }
    }

    /// The whole seconds from `earlier` to `self`, and at least one.
    pub fn elapsed_seconds(&self, earlier: &Timestamp) -> (r: u128)
        ensures
            r == elapsed_seconds_spec(*self, *earlier),
            r >= 1,
    {
        let now_nanos: i128 = (self.secs as i128) * 1_000_000_000 + (self.nanos as i128);
        let then_nanos: i128 = (earlier.secs as i128) * 1_000_000_000 + (earlier.nanos as i128);
        if now_nanos >= then_nanos + 1_000_000_000 {
            let nanos: u128 = (now_nanos - then_nanos) as u128;
            nanos / 1_000_000_000
        } else {
            1
        }
    }

    /// The point in time `secs` seconds before this one, or `None` where
    /// the seconds of that point do not fit.
    pub fn minus_seconds(&self, secs: i64) -> (r: Option<Timestamp>)
        ensures
            r == if i64::MIN <= self.secs - secs <= i64::MAX {
                Some(Timestamp { secs: (self.secs - secs) as i64, nanos: self.nanos })
            } else {
                None
            },
    {
        match self.secs.checked_sub(secs) {
            Some(s) => Some(Timestamp { secs: s, nanos: self.nanos }),
            None => None,
        }
    }
}

} // verus!
