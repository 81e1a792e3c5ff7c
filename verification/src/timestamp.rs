//! Points in time on a monotonic clock, at microsecond resolution.

use vstd::prelude::*;

verus! {

/// A reading of a monotonic clock: the microseconds elapsed since an origin
/// that the caller has fixed.
#[derive(Clone, Copy, Debug, PartialEq, Eq, Structural)]
pub struct Timestamp {
    micros: u128,
}

impl View for Timestamp {
    type V = nat;

    /// The reading as a number of microseconds.
    closed spec fn view(&self) -> nat {
        self.micros as nat
    }
}

impl Timestamp {
    /// The timestamp that lies `micros` microseconds after the origin.
    pub fn from_micros(micros: u128) -> (t: Timestamp)
        ensures
            t@ == micros,
    {
        Timestamp { micros }
    }

    /// The microseconds between the origin and this timestamp.
    pub fn as_micros(&self) -> (micros: u128)
        ensures
            micros == self@,
    {
        self.micros
    }
}

} // verus!
