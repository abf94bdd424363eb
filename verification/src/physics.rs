//! What the physics of forces and orbits rests on besides arithmetic.
use crate::arithmetic::{Arithmetic, Binary, Unary};
use crate::constants::Constants;
use crate::errors::KeteResult;
use crate::float::F64;
use crate::frames::{Equatorial, InertialFrame, Vector};
use vstd::prelude::*;

verus! {

/// A position and a velocity.
#[derive(Debug)]
pub struct Motion<T: InertialFrame> {
    /// The position.
    pub pos: Vector<T>,
    /// The velocity.
    pub vel: Vector<T>,
}

impl<T: InertialFrame> Clone for Motion<T> {
    fn clone(&self) -> (r: Self)
        ensures
            r == *self,
    {
        *self
    }
}

impl<T: InertialFrame> Copy for Motion<T> {

}

/// An arithmetic with the constants of nature and the motion around one body alone.
pub trait Physics: Arithmetic {
    /// The constants.
    spec fn values(&self) -> Constants;

    /// Where an object is some days later if only the Sun pulls.
    spec fn two_body(&self, days: F64, at: Motion<Equatorial>) -> KeteResult<Motion<Equatorial>>;

    /// The eccentric anomaly of an object on a conic.
    spec fn eccentric(&self, ecc: F64, mean_anomaly: F64, peri_dist: F64) -> KeteResult<F64>;

    /// The true anomaly of an object on a conic.
    spec fn true_angle(&self, ecc: F64, mean_anomaly: F64, peri_dist: F64) -> KeteResult<F64>;

    /// The constants.
    fn constants(&self) -> (c: Constants)
        ensures
            c == self.values(),
    ;

    /// Where an object is some days later if only the Sun pulls.
    fn analytic_2_body(&self, days: F64, at: Motion<Equatorial>)
        -> (r: KeteResult<Motion<Equatorial>>)
        requires
            self.lawful(),
        ensures
            r == self.two_body(days, at),
    ;

    /// The eccentric anomaly of an object on a conic.
    fn compute_eccentric_anomaly(&self, ecc: F64, mean_anomaly: F64, peri_dist: F64)
        -> (r: KeteResult<F64>)
        requires
            self.lawful(),
        ensures
            r == self.eccentric(ecc, mean_anomaly, peri_dist),
    ;

    /// The true anomaly of an object on a conic.
    fn compute_true_anomaly(&self, ecc: F64, mean_anomaly: F64, peri_dist: F64)
        -> (r: KeteResult<F64>)
        requires
            self.lawful(),
        ensures
            r == self.true_angle(ecc, mean_anomaly, peri_dist),
    ;
}

/// An arithmetic, constants, and functions for the motion around one body.
pub struct World<A, K, E, T> {
    /// The arithmetic.
    pub ops: A,
    /// The constants.
    pub constants: Constants,
    /// Where an object is some days later if only the Sun pulls.
    pub two_body: K,
    /// The eccentric anomaly from eccentricity, mean anomaly and perihelion distance.
    pub eccentric: E,
    /// The true anomaly from eccentricity, mean anomaly and perihelion distance.
    pub true_angle: T,
}

impl<
    A: Arithmetic,
    K: Fn(F64, Motion<Equatorial>) -> KeteResult<Motion<Equatorial>>,
    E: Fn(F64, F64, F64) -> KeteResult<F64>,
    T: Fn(F64, F64, F64) -> KeteResult<F64>,
> Arithmetic for World<A, K, E, T> {
    open spec fn lawful(&self) -> bool {
        &&& self.ops.lawful()
        &&& forall|d: F64, at: Motion<Equatorial>| #[trigger] call_requires(self.two_body, (d, at))
        &&& forall|
            d: F64,
            at: Motion<Equatorial>,
            r: KeteResult<Motion<Equatorial>>,
            s: KeteResult<Motion<Equatorial>>,
        |
            #[trigger] call_ensures(self.two_body, (d, at), r) && #[trigger] call_ensures(
                self.two_body,
                (d, at),
                s,
            ) ==> r == s
        &&& forall|e: F64, m: F64, q: F64| #[trigger] call_requires(self.eccentric, (e, m, q))
        &&& forall|e: F64, m: F64, q: F64, r: KeteResult<F64>, s: KeteResult<F64>|
            #[trigger] call_ensures(self.eccentric, (e, m, q), r) && #[trigger] call_ensures(
                self.eccentric,
                (e, m, q),
                s,
            ) ==> r == s
        &&& forall|e: F64, m: F64, q: F64| #[trigger] call_requires(self.true_angle, (e, m, q))
        &&& forall|e: F64, m: F64, q: F64, r: KeteResult<F64>, s: KeteResult<F64>|
            #[trigger] call_ensures(self.true_angle, (e, m, q), r) && #[trigger] call_ensures(
                self.true_angle,
                (e, m, q),
                s,
            ) ==> r == s
    }

    open spec fn two(&self, op: Binary, a: F64, b: F64) -> F64 {
        self.ops.two(op, a, b)
    }

    open spec fn one(&self, op: Unary, a: F64) -> F64 {
        self.ops.one(op, a)
    }

    open spec fn whole(&self, n: u64) -> F64 {
        self.ops.whole(n)
    }

    fn binary(&self, op: Binary, a: F64, b: F64) -> F64 {
        self.ops.binary(op, a, b)
    }

    fn unary(&self, op: Unary, a: F64) -> F64 {
        self.ops.unary(op, a)
    }

    fn integer(&self, n: u64) -> F64 {
        self.ops.integer(n)
    }
}

impl<
    A: Arithmetic,
    K: Fn(F64, Motion<Equatorial>) -> KeteResult<Motion<Equatorial>>,
    E: Fn(F64, F64, F64) -> KeteResult<F64>,
    T: Fn(F64, F64, F64) -> KeteResult<F64>,
> Physics for World<A, K, E, T> {
    open spec fn values(&self) -> Constants {
        self.constants
    }

    open spec fn two_body(&self, days: F64, at: Motion<Equatorial>)
        -> KeteResult<Motion<Equatorial>> {
        choose|r: KeteResult<Motion<Equatorial>>| call_ensures(self.two_body, (days, at), r)
    }

    open spec fn eccentric(&self, ecc: F64, mean_anomaly: F64, peri_dist: F64) -> KeteResult<F64> {
        choose|r: KeteResult<F64>| call_ensures(self.eccentric, (ecc, mean_anomaly, peri_dist), r)
    }

    open spec fn true_angle(&self, ecc: F64, mean_anomaly: F64, peri_dist: F64) -> KeteResult<F64> {
        choose|r: KeteResult<F64>| call_ensures(self.true_angle, (ecc, mean_anomaly, peri_dist), r)
    }

    fn constants(&self) -> Constants {
        self.constants
    }

    fn analytic_2_body(&self, days: F64, at: Motion<Equatorial>) -> KeteResult<Motion<Equatorial>> {
        (self.two_body)(days, at)
    }

    fn compute_eccentric_anomaly(&self, ecc: F64, mean_anomaly: F64, peri_dist: F64)
        -> KeteResult<F64> {
        (self.eccentric)(ecc, mean_anomaly, peri_dist)
    }

    fn compute_true_anomaly(&self, ecc: F64, mean_anomaly: F64, peri_dist: F64) -> KeteResult<F64> {
        (self.true_angle)(ecc, mean_anomaly, peri_dist)
    }
}

} // verus!
