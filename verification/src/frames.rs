//! Reference frames, the vectors in them, and the bodies they are centered on.
use crate::arithmetic;
use crate::arithmetic::{Arithmetic, Unary};
use crate::constants;
use crate::float::F64;
use crate::numbers;
use std::marker::PhantomData;
use vstd::prelude::*;
use vstd::std_specs::convert::FromSpecImpl;

verus! {

/// A frame which does not accelerate.
pub trait InertialFrame: Sized {

}

/// The frame of the mean equator at J2000.
#[derive(Debug, Clone, Copy, PartialEq, Eq)]
pub struct Equatorial;

/// The frame of the ecliptic at J2000.
#[derive(Debug, Clone, Copy, PartialEq, Eq)]
pub struct Ecliptic;

impl InertialFrame for Equatorial {

}

impl InertialFrame for Ecliptic {

}

/// A vector in the frame `T`.
#[derive(Debug, PartialEq)]
pub struct Vector<T: InertialFrame> {
    /// The component along the first axis.
    pub x: F64,
    /// The component along the second axis.
    pub y: F64,
    /// The component along the third axis.
    pub z: F64,
    /// The frame of the components.
    pub frame: PhantomData<T>,
}

impl<T: InertialFrame> Clone for Vector<T> {
    fn clone(&self) -> (r: Self)
        ensures
            r == *self,
    {
        *self
    }
}

impl<T: InertialFrame> Copy for Vector<T> {

}

/// The vector with these components.
pub open spec fn vector<T: InertialFrame>(x: F64, y: F64, z: F64) -> Vector<T> {
    Vector { x, y, z, frame: PhantomData }
}

impl<T: InertialFrame> Vector<T> {
    /// Is every component finite.
    pub open spec fn finite(self) -> bool {
        self.x.finite() && self.y.finite() && self.z.finite()
    }

    /// The vector with the same components in the frame `B`.
    pub open spec fn seen_in<B: InertialFrame>(self) -> Vector<B> {
        vector(self.x, self.y, self.z)
    }

    /// The vector which points the other way.
    pub open spec fn negated(self) -> Self {
        vector(self.x.negated(), self.y.negated(), self.z.negated())
    }

    /// The vector with NaN in every component.
    pub open spec fn nan() -> Self {
        let nan = F64 { bits: crate::float::NAN_64 };
        vector(nan, nan, nan)
    }

    /// The vector of the given components.
    pub fn new(raw: [F64; 3]) -> (v: Self)
        ensures
            v == vector::<T>(raw@[0], raw@[1], raw@[2]),
    {
        Vector { x: raw[0], y: raw[1], z: raw[2], frame: PhantomData }
    }

    /// The vector with the components `x`, `y` and `z`.
    pub fn of(x: F64, y: F64, z: F64) -> (v: Self)
        ensures
            v == vector::<T>(x, y, z),
    {
        Vector { x, y, z, frame: PhantomData }
    }

    /// The components, first to last.
    pub fn components(&self) -> (raw: [F64; 3])
        ensures
            raw@ == seq![self.x, self.y, self.z],
    {
        let raw = [self.x, self.y, self.z];
        assert(raw@ =~= seq![self.x, self.y, self.z]);
        raw
    }

    /// The vector with NaN in every component.
    pub fn new_nan() -> (v: Self)
        ensures
            v == Self::nan(),
            !v.finite(),
    {
        let nan = F64::new_nan();
        Self::of(nan, nan, nan)
    }

    /// Is every component finite.
    pub fn is_finite(&self) -> (r: bool)
        ensures
            r == self.finite(),
    {
        self.x.is_finite() && self.y.is_finite() && self.z.is_finite()
    }

    /// The vector which points the other way.
    pub fn neg(self) -> (v: Self)
        ensures
            v == self.negated(),
    {
        Self::of(self.x.neg(), self.y.neg(), self.z.neg())
    }

    /// `self + other`.
    pub open spec fn sum<A: Arithmetic>(self, ops: &A, other: Self) -> Self {
        vector(
            arithmetic::sum(ops, self.x, other.x),
            arithmetic::sum(ops, self.y, other.y),
            arithmetic::sum(ops, self.z, other.z),
        )
    }

    /// `self - other`.
    pub open spec fn difference<A: Arithmetic>(self, ops: &A, other: Self) -> Self {
        vector(
            arithmetic::difference(ops, self.x, other.x),
            arithmetic::difference(ops, self.y, other.y),
            arithmetic::difference(ops, self.z, other.z),
        )
    }

    /// `self` times the number `k`.
    pub open spec fn scaled<A: Arithmetic>(self, ops: &A, k: F64) -> Self {
        vector(
            arithmetic::product(ops, self.x, k),
            arithmetic::product(ops, self.y, k),
            arithmetic::product(ops, self.z, k),
        )
    }

    /// `self` over the number `k`.
    pub open spec fn shrunk<A: Arithmetic>(self, ops: &A, k: F64) -> Self {
        vector(
            arithmetic::quotient(ops, self.x, k),
            arithmetic::quotient(ops, self.y, k),
            arithmetic::quotient(ops, self.z, k),
        )
    }

    /// The dot product.
    pub open spec fn dotted<A: Arithmetic>(self, ops: &A, other: Self) -> F64 {
        arithmetic::sum(
            ops,
            arithmetic::sum(
                ops,
                arithmetic::product(ops, self.x, other.x),
                arithmetic::product(ops, self.y, other.y),
            ),
            arithmetic::product(ops, self.z, other.z),
        )
    }

    /// The cross product.
    pub open spec fn crossed<A: Arithmetic>(self, ops: &A, other: Self) -> Self {
        vector(
            arithmetic::difference(
                ops,
                arithmetic::product(ops, self.y, other.z),
                arithmetic::product(ops, self.z, other.y),
            ),
            arithmetic::difference(
                ops,
                arithmetic::product(ops, self.z, other.x),
                arithmetic::product(ops, self.x, other.z),
            ),
            arithmetic::difference(
                ops,
                arithmetic::product(ops, self.x, other.y),
                arithmetic::product(ops, self.y, other.x),
            ),
        )
    }

    /// The length.
    pub open spec fn length<A: Arithmetic>(self, ops: &A) -> F64 {
        ops.one(Unary::Sqrt, self.dotted(ops, self))
    }

    /// The vector of length one in the same direction.
    pub open spec fn unit<A: Arithmetic>(self, ops: &A) -> Self {
        self.shrunk(ops, self.length(ops))
    }

    /// `self + other`.
    pub fn plus<A: Arithmetic>(self, ops: &A, other: Self) -> (v: Self)
        requires
            ops.lawful(),
        ensures
            v == self.sum(ops, other),
    {
        Self::of(
            arithmetic::plus(ops, self.x, other.x),
            arithmetic::plus(ops, self.y, other.y),
            arithmetic::plus(ops, self.z, other.z),
        )
    }

    /// `self - other`.
    pub fn minus<A: Arithmetic>(self, ops: &A, other: Self) -> (v: Self)
        requires
            ops.lawful(),
        ensures
            v == self.difference(ops, other),
    {
        Self::of(
            arithmetic::minus(ops, self.x, other.x),
            arithmetic::minus(ops, self.y, other.y),
            arithmetic::minus(ops, self.z, other.z),
        )
    }

    /// `self` times the number `k`.
    pub fn scale<A: Arithmetic>(self, ops: &A, k: F64) -> (v: Self)
        requires
            ops.lawful(),
        ensures
            v == self.scaled(ops, k),
    {
        Self::of(
            arithmetic::times(ops, self.x, k),
            arithmetic::times(ops, self.y, k),
            arithmetic::times(ops, self.z, k),
        )
    }

    /// `self` over the number `k`.
    pub fn over<A: Arithmetic>(self, ops: &A, k: F64) -> (v: Self)
        requires
            ops.lawful(),
        ensures
            v == self.shrunk(ops, k),
    {
        Self::of(
            arithmetic::over(ops, self.x, k),
            arithmetic::over(ops, self.y, k),
            arithmetic::over(ops, self.z, k),
        )
    }

    /// The dot product.
    pub fn dot<A: Arithmetic>(self, ops: &A, other: Self) -> (r: F64)
        requires
            ops.lawful(),
        ensures
            r == self.dotted(ops, other),
    {
        let xx = arithmetic::times(ops, self.x, other.x);
        let yy = arithmetic::times(ops, self.y, other.y);
        let zz = arithmetic::times(ops, self.z, other.z);
        arithmetic::plus(ops, arithmetic::plus(ops, xx, yy), zz)
    }

    /// The cross product.
    pub fn cross<A: Arithmetic>(self, ops: &A, other: Self) -> (v: Self)
        requires
            ops.lawful(),
        ensures
            v == self.crossed(ops, other),
    {
        let yz = arithmetic::times(ops, self.y, other.z);
        let zy = arithmetic::times(ops, self.z, other.y);
        let zx = arithmetic::times(ops, self.z, other.x);
        let xz = arithmetic::times(ops, self.x, other.z);
        let xy = arithmetic::times(ops, self.x, other.y);
        let yx = arithmetic::times(ops, self.y, other.x);
        Self::of(
            arithmetic::minus(ops, yz, zy),
            arithmetic::minus(ops, zx, xz),
            arithmetic::minus(ops, xy, yx),
        )
    }

    /// The length.
    pub fn norm<A: Arithmetic>(self, ops: &A) -> (r: F64)
        requires
            ops.lawful(),
        ensures
            r == self.length(ops),
    {
        ops.unary(Unary::Sqrt, self.dot(ops, self))
    }

    /// The vector of length one in the same direction.
    pub fn normalize<A: Arithmetic>(self, ops: &A) -> (v: Self)
        requires
            ops.lawful(),
        ensures
            v == self.unit(ops),
    {
        self.over(ops, self.norm(ops))
    }
}

impl<T: InertialFrame> Vector<T> {
    /// The angle between two vectors, zero where one of them is zero.
    pub open spec fn angled<A: Arithmetic>(self, ops: &A, other: Self) -> F64 {
        let zero = F64 { bits: 0 };
        let one = F64 { bits: constants::ONE };
        let a = self.length(ops);
        let b = other.length(ops);
        if a.same(zero) || b.same(zero) {
            zero
        } else {
            let cosine = arithmetic::quotient(
                ops,
                self.dotted(ops, other),
                arithmetic::product(ops, a, b),
            );
            ops.one(Unary::Acos, numbers::within(cosine, one.negated(), one))
        }
    }

    /// The angle between two vectors, zero where one of them is zero.
    pub fn angle<A: Arithmetic>(self, ops: &A, other: Self) -> (r: F64)
        requires
            ops.lawful(),
        ensures
            r == self.angled(ops, other),
    {
        let zero = F64::zero();
        let one = F64::from_bits(constants::ONE);
        let dot = self.dot(ops, other);
        let a = self.norm(ops);
        let b = other.norm(ops);
        if a.equals(zero) || b.equals(zero) {
            return zero;
        }
        let cosine = arithmetic::over(ops, dot, arithmetic::times(ops, a, b));
        ops.unary(Unary::Acos, numbers::clamp(cosine, one.neg(), one))
    }
}

/// Something a state can be centered on.
pub trait CenterBody: Sized {
    /// The NAIF id of the body, where the type alone fixes it.
    const NAIF_ID: i32;

    /// The NAIF id of the body.
    spec fn naif_id(&self) -> i32;

    /// The NAIF id of the body.
    fn center_id(&self) -> (id: i32)
        ensures
            id == self.naif_id(),
    ;
}

/// A center which is known only at run time, by its NAIF id.
#[derive(Debug, Clone, Copy, PartialEq, Eq, Structural)]
pub struct DynCenter(pub i32);

/// The barycenter of the Solar System.
#[derive(Debug, Clone, Copy, PartialEq, Eq, Structural)]
pub struct SSB;

/// The Sun.
#[derive(Debug, Clone, Copy, PartialEq, Eq, Structural)]
pub struct SunCenter;

/// The Earth.
#[derive(Debug, Clone, Copy, PartialEq, Eq, Structural)]
pub struct EarthCenter;

impl CenterBody for DynCenter {
    const NAIF_ID: i32 = i32::MIN;

    open spec fn naif_id(&self) -> i32 {
        self.0
    }

    fn center_id(&self) -> i32 {
        self.0
    }
}

impl CenterBody for SSB {
    const NAIF_ID: i32 = 0;

    open spec fn naif_id(&self) -> i32 {
        0
    }

    fn center_id(&self) -> i32 {
        Self::NAIF_ID
    }
}

impl CenterBody for SunCenter {
    const NAIF_ID: i32 = 10;

    open spec fn naif_id(&self) -> i32 {
        10
    }

    fn center_id(&self) -> i32 {
        Self::NAIF_ID
    }
}

impl CenterBody for EarthCenter {
    const NAIF_ID: i32 = 399;

    open spec fn naif_id(&self) -> i32 {
        399
    }

    fn center_id(&self) -> i32 {
        Self::NAIF_ID
    }
}

impl From<i32> for DynCenter {
    fn from(id: i32) -> (c: Self) {
        DynCenter(id)
    }
}

impl FromSpecImpl<i32> for DynCenter {
    open spec fn obeys_from_spec() -> bool {
        true
    }

    open spec fn from_spec(id: i32) -> Self {
        DynCenter(id)
    }
}

impl From<SSB> for DynCenter {
    fn from(_center: SSB) -> (c: Self) {
        DynCenter(0)
    }
}

impl FromSpecImpl<SSB> for DynCenter {
    open spec fn obeys_from_spec() -> bool {
        true
    }

    open spec fn from_spec(_center: SSB) -> Self {
        DynCenter(0)
    }
}

impl From<SunCenter> for DynCenter {
    fn from(_center: SunCenter) -> (c: Self) {
        DynCenter(10)
    }
}

impl FromSpecImpl<SunCenter> for DynCenter {
    open spec fn obeys_from_spec() -> bool {
        true
    }

    open spec fn from_spec(_center: SunCenter) -> Self {
        DynCenter(10)
    }
}

impl From<EarthCenter> for DynCenter {
    fn from(_center: EarthCenter) -> (c: Self) {
        DynCenter(399)
    }
}

impl FromSpecImpl<EarthCenter> for DynCenter {
    open spec fn obeys_from_spec() -> bool {
        true
    }

    open spec fn from_spec(_center: EarthCenter) -> Self {
        DynCenter(399)
    }
}

} // verus!
