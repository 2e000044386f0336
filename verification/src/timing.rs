//! Time spans used by the broker and SCSI request limits, counted in
//! nanoseconds.
use vstd::prelude::*;

verus! {

/// A span of time in whole nanoseconds.
#[derive(Debug, Clone, Copy, PartialEq, Eq, Structural)]
pub struct TimeSpan {
    pub nanos: u128,
}

pub const NANOS_PER_MILLI: u128 = 1_000_000;

pub const NANOS_PER_SEC: u128 = 1_000_000_000;

impl TimeSpan {
    pub fn from_secs(secs: u64) -> (t: TimeSpan)
        ensures
            t.nanos == secs * NANOS_PER_SEC,
    {
        assert(secs * NANOS_PER_SEC <= u64::MAX * NANOS_PER_SEC) by (nonlinear_arith);
        TimeSpan { nanos: secs as u128 * NANOS_PER_SEC }
    }

    pub fn from_millis(millis: u64) -> (t: TimeSpan)
        ensures
            t.nanos == millis * NANOS_PER_MILLI,
    {
        assert(millis * NANOS_PER_MILLI <= u64::MAX * NANOS_PER_MILLI) by (nonlinear_arith);
        TimeSpan { nanos: millis as u128 * NANOS_PER_MILLI }
    }

    pub fn from_nanos(nanos: u128) -> (t: TimeSpan)
        ensures
            t.nanos == nanos,
    {
        TimeSpan { nanos }
    }

    /// Whole milliseconds, rounded down.
    pub fn as_millis(&self) -> (m: u128)
        ensures
            m == self.nanos / NANOS_PER_MILLI,
    {
        self.nanos / NANOS_PER_MILLI
    }

    pub fn as_nanos(&self) -> (n: u128)
        ensures
            n == self.nanos,
    {
        self.nanos
    }
}

} // verus!
