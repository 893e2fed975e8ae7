//! What one connection attempt can come to, and how it is judged.

use vstd::prelude::*;

verus! {

/// The number of seconds one connection attempt may take.
pub const PROBE_TIMEOUT_SECS: u64 = 1;

/// How the unit of work that probes one port ended.
#[derive(Clone, Copy, Debug, PartialEq, Eq, Structural)]
pub enum Attempt {
    /// The connection was established before the time ran out.
    Connected,
    /// The connection failed before the time ran out, whatever the cause.
    Failed,
    /// The time ran out first.
    Elapsed,
    /// The unit of work did not run to its end.
    Aborted,
}

impl Attempt {
    /// An attempt finds its port open exactly when the connection was
    /// established; every other ending counts alike as not open.
    pub open spec fn is_open(self) -> bool {
        self == Attempt::Connected
    }
}

/// What a unit of work hands in: its port if it found it open, else nothing.
pub open spec fn reported(port: u16, attempt: Attempt) -> Option<u16> {
    if attempt.is_open() {
        Some(port)
    } else {
        None
    }
}

} // verus!
