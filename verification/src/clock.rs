//! Time in whole seconds since the epoch, and spans of time.

use vstd::prelude::*;

verus! {

/// A span of time.
#[derive(Clone, Copy, Debug, PartialEq, Eq, PartialOrd, Ord, Structural)]
pub struct Duration {
    pub secs: u64,
    /// Below one thousand million.
    pub nanos: u32,
}

impl Duration {
    /// A span of whole seconds.
    pub fn from_secs(secs: u64) -> (r: Duration)
        ensures
            r == (Duration { secs, nanos: 0 }),
    {
        Duration { secs, nanos: 0 }
    }

    /// The whole seconds of the span.
    pub fn as_secs(&self) -> (r: u64)
        ensures
            r == self.secs,
    {
        self.secs
    }

    /// The span in nanoseconds.
    pub open spec fn total_nanos(self) -> int {
        self.secs * 1_000_000_000 + self.nanos
    }

    /// Tells whether this span is longer than `other`.
    pub fn exceeds(&self, other: &Duration) -> (r: bool)
        requires
            self.nanos < 1_000_000_000,
            other.nanos < 1_000_000_000,
        ensures
            r == (self.total_nanos() > other.total_nanos()),
    {
        self.secs > other.secs || (self.secs == other.secs && self.nanos > other.nanos)
    }
}

/// Seconds since the Unix epoch, read with `std::time::SystemTime::now`. A
/// clock before the epoch reads zero. Nothing is promised of the value.
#[verifier::external_body]
pub(crate) fn now_unix() -> u64 {
    std::time::SystemTime::now()
        .duration_since(std::time::UNIX_EPOCH)
        .unwrap_or_default()
        .as_secs()
}

/// The time by `chrono::Utc::now`, written with `to_rfc3339`. Nothing is
/// promised of the value.
#[verifier::external_body]
pub(crate) fn now_rfc3339() -> String {
    chrono::Utc::now().to_rfc3339()
}

/// The seconds from `timestamp` to `now`, none where `now` comes first.
pub open spec fn seconds_since(timestamp: u64, now: u64) -> u64 {
    if now >= timestamp {
        (now - timestamp) as u64
    } else {
        0
    }
}

} // verus!
