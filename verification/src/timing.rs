//! How long a member may stay in a health before it decays.

use vstd::prelude::*;

verus! {

/// The two timeouts of the health sweeps, in milliseconds.
#[derive(Clone, Copy, Debug, PartialEq, Eq, Structural)]
pub struct Timing {
    pub suspicion_timeout_ms: u64,
    pub departure_timeout_ms: u64,
}

impl Timing {
    /// The timing with the given timeouts, in milliseconds.
    pub fn new(suspicion_timeout_ms: u64, departure_timeout_ms: u64) -> (timing: Self)
        ensures
            timing.suspicion_timeout_ms == suspicion_timeout_ms,
            timing.departure_timeout_ms == departure_timeout_ms,
    {
        Timing { suspicion_timeout_ms, departure_timeout_ms }
    }

    /// How long a member may be `Suspect` before it counts as `Confirmed`.
    pub fn suspicion_timeout_duration(&self) -> (ms: u64)
        ensures
            ms == self.suspicion_timeout_ms,
    {
        self.suspicion_timeout_ms
    }

    /// How long a member may be `Confirmed` before it counts as `Departed`.
    pub fn departure_timeout_duration(&self) -> (ms: u64)
        ensures
            ms == self.departure_timeout_ms,
    {
        self.departure_timeout_ms
    }
}

} // verus!
