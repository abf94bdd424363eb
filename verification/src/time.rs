//! Moments in time.
use crate::float::F64;
use vstd::prelude::*;

verus! {

/// A moment in barycentric dynamical time.
#[derive(Debug, Clone, Copy, PartialEq)]
pub struct Time {
    /// The Julian date.
    pub jd: F64,
}

impl Time {
    /// Do both stand for the same moment. A date which is NaN is no moment.
    pub open spec fn same(self, other: Time) -> bool {
        self.jd.same(other.jd)
    }

    /// The moment with the given Julian date.
    pub fn new(jd: F64) -> (t: Time)
        ensures
            t.jd == jd,
    {
        Time { jd }
    }

    /// Do both stand for the same moment.
    pub fn equals(self, other: Time) -> (r: bool)
        ensures
            r == self.same(other),
    {
        self.jd.equals(other.jd)
    }
}

} // verus!
