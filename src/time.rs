use vstd::prelude::*;

verus! {

/// Nanoseconds in one second.
pub const NANOS_PER_SEC: u64 = 1_000_000_000;

/// A non-negative span of time, held as whole nanoseconds.
#[derive(Clone, Copy, Debug, PartialEq, Eq, Structural)]
pub struct TimeSpan {
    pub nanos: u64,
}

/// Number of whole samples that `nanos` nanoseconds of audio hold at `rate` samples per second.
pub open spec fn samples_in(nanos: nat, rate: nat) -> nat {
    (nanos * rate / (NANOS_PER_SEC as nat)) as nat
}

impl TimeSpan {
    /// The span of zero length.
    pub fn zero() -> (r: TimeSpan)
        ensures
            r.nanos == 0,
    {
        TimeSpan { nanos: 0 }
    }

    pub fn from_nanos(nanos: u64) -> (r: TimeSpan)
        ensures
            r.nanos == nanos,
    {
        TimeSpan { nanos }
    }

    pub fn from_millis(millis: u64) -> (r: TimeSpan)
        requires
            millis * 1_000_000 <= u64::MAX,
        ensures
            r.nanos == millis * 1_000_000,
    {
        TimeSpan { nanos: millis * 1_000_000 }
    }

    pub fn from_secs(secs: u64) -> (r: TimeSpan)
        requires
            secs * NANOS_PER_SEC <= u64::MAX,
        ensures
            r.nanos == secs * NANOS_PER_SEC,
    {
        TimeSpan { nanos: secs * NANOS_PER_SEC }
    }

    pub fn as_nanos(&self) -> (r: u64)
        ensures
            r == self.nanos,
    {
        self.nanos
    }

    /// Number of whole samples this span covers at `rate` samples per second:
    /// `floor(seconds * rate)`.
    pub fn to_samples(&self, rate: u32) -> (r: u128)
        ensures
            r == samples_in(self.nanos as nat, rate as nat),
    {
        proof {
            assert(self.nanos as nat * rate as nat <= u64::MAX as nat * u32::MAX as nat) by (nonlinear_arith);
        }
        let prod: u128 = self.nanos as u128 * rate as u128;
        prod / (NANOS_PER_SEC as u128)
    }
}

/// A range of values with both ends included.
#[derive(Clone, Copy, Debug, PartialEq, Eq, Structural)]
pub struct InclusiveRange<T> {
    pub start: T,
    pub end: T,
}

impl<T: Copy> InclusiveRange<T> {
    pub fn new(start: T, end: T) -> (r: InclusiveRange<T>)
        ensures
            r.start == start,
            r.end == end,
    {
        InclusiveRange { start, end }
    }
}

} // verus!
