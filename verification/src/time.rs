use vstd::prelude::*;

verus! {

/// An opaque moment in time, counted in seconds since the Unix epoch
/// (1970-01-01T00:00:00Z). The count is monotonic: later instants compare
/// greater. Values are produced by [`crate::calendar::time_from_ymdhms_utc`].
#[derive(Clone, Copy, Debug, PartialEq, Eq, Structural)]
pub struct Time {
    seconds: u64,
}

impl View for Time {
    type V = u64;

    /// Seconds since the Unix epoch.
    closed spec fn view(&self) -> u64 {
        self.seconds
    }
}

impl Time {
    pub fn from_seconds_since_unix_epoch(secs: u64) -> (t: Time)
        ensures
            t@ == secs,
    {
        Time { seconds: secs }
    }

    pub fn seconds_since_unix_epoch(&self) -> (secs: u64)
        ensures
            secs == self@,
    {
        self.seconds
    }
}

} // verus!
