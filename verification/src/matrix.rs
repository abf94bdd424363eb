//! Three by three matrices.
use crate::arithmetic::Arithmetic;
use crate::constants;
use crate::float::F64;
use crate::frames;
use crate::frames::{InertialFrame, Vector};
use vstd::prelude::*;

verus! {

/// A three by three matrix, by its rows.
#[derive(Debug)]
pub struct Matrix3<T: InertialFrame> {
    /// The first row.
    pub x: Vector<T>,
    /// The second row.
    pub y: Vector<T>,
    /// The third row.
    pub z: Vector<T>,
}

impl<T: InertialFrame> Clone for Matrix3<T> {
    fn clone(&self) -> (r: Self)
        ensures
            r == *self,
    {
        *self
    }
}

impl<T: InertialFrame> Copy for Matrix3<T> {

}

impl<T: InertialFrame> Matrix3<T> {
    /// `self + other`.
    pub open spec fn sum<A: Arithmetic>(self, ops: &A, other: Self) -> Self {
        Matrix3 {
            x: self.x.sum(ops, other.x),
            y: self.y.sum(ops, other.y),
            z: self.z.sum(ops, other.z),
        }
    }

    /// `self + other`.
    pub fn plus<A: Arithmetic>(self, ops: &A, other: Self) -> (r: Self)
        requires
            ops.lawful(),
        ensures
            r == self.sum(ops, other),
    {
        Matrix3 {
            x: self.x.plus(ops, other.x),
            y: self.y.plus(ops, other.y),
            z: self.z.plus(ops, other.z),
        }
    }

    /// `self - other`.
    pub open spec fn difference<A: Arithmetic>(self, ops: &A, other: Self) -> Self {
        Matrix3 {
            x: self.x.difference(ops, other.x),
            y: self.y.difference(ops, other.y),
            z: self.z.difference(ops, other.z),
        }
    }

    /// `self - other`.
    pub fn minus<A: Arithmetic>(self, ops: &A, other: Self) -> (r: Self)
        requires
            ops.lawful(),
        ensures
            r == self.difference(ops, other),
    {
        Matrix3 {
            x: self.x.minus(ops, other.x),
            y: self.y.minus(ops, other.y),
            z: self.z.minus(ops, other.z),
        }
    }

    /// `self` times the number `k`.
    pub open spec fn scaled<A: Arithmetic>(self, ops: &A, k: F64) -> Self {
        Matrix3 {
            x: self.x.scaled(ops, k),
            y: self.y.scaled(ops, k),
            z: self.z.scaled(ops, k),
        }
    }

    /// `self` times the number `k`.
    pub fn scale<A: Arithmetic>(self, ops: &A, k: F64) -> (r: Self)
        requires
            ops.lawful(),
        ensures
            r == self.scaled(ops, k),
    {
        Matrix3 {
            x: self.x.scale(ops, k),
            y: self.y.scale(ops, k),
            z: self.z.scale(ops, k),
        }
    }

    /// `self` over the number `k`.
    pub open spec fn shrunk<A: Arithmetic>(self, ops: &A, k: F64) -> Self {
        Matrix3 {
            x: self.x.shrunk(ops, k),
            y: self.y.shrunk(ops, k),
            z: self.z.shrunk(ops, k),
        }
    }

    /// `self` over the number `k`.
    pub fn over<A: Arithmetic>(self, ops: &A, k: F64) -> (r: Self)
        requires
            ops.lawful(),
        ensures
            r == self.shrunk(ops, k),
    {
        Matrix3 {
            x: self.x.over(ops, k),
            y: self.y.over(ops, k),
            z: self.z.over(ops, k),
        }
    }

    /// The matrix with rows and columns exchanged.
    pub open spec fn transposed(self) -> Self {
        Matrix3 {
            x: frames::vector(self.x.x, self.y.x, self.z.x),
            y: frames::vector(self.x.y, self.y.y, self.z.y),
            z: frames::vector(self.x.z, self.y.z, self.z.z),
        }
    }

    /// The matrix with rows and columns exchanged.
    pub fn transpose(self) -> (r: Self)
        ensures
            r == self.transposed(),
    {
        Matrix3 {
            x: Vector::of(self.x.x, self.y.x, self.z.x),
            y: Vector::of(self.x.y, self.y.y, self.z.y),
            z: Vector::of(self.x.z, self.y.z, self.z.z),
        }
    }

    /// `self` times the column `v`.
    pub open spec fn applied<A: Arithmetic>(self, ops: &A, v: Vector<T>) -> Vector<T> {
        frames::vector(self.x.dotted(ops, v), self.y.dotted(ops, v), self.z.dotted(ops, v))
    }

    /// `self` times the column `v`.
    pub fn apply<A: Arithmetic>(self, ops: &A, v: Vector<T>) -> (r: Vector<T>)
        requires
            ops.lawful(),
        ensures
            r == self.applied(ops, v),
    {
        Vector::of(self.x.dot(ops, v), self.y.dot(ops, v), self.z.dot(ops, v))
    }

    /// `self` times `other`.
    pub open spec fn multiplied<A: Arithmetic>(self, ops: &A, other: Self) -> Self {
        let c = other.transposed();
        Matrix3 {
            x: frames::vector(
                self.x.dotted(ops, c.x),
                self.x.dotted(ops, c.y),
                self.x.dotted(ops, c.z),
            ),
            y: frames::vector(
                self.y.dotted(ops, c.x),
                self.y.dotted(ops, c.y),
                self.y.dotted(ops, c.z),
            ),
            z: frames::vector(
                self.z.dotted(ops, c.x),
                self.z.dotted(ops, c.y),
                self.z.dotted(ops, c.z),
            ),
        }
    }

    /// `self` times `other`.
    pub fn multiply<A: Arithmetic>(self, ops: &A, other: Self) -> (r: Self)
        requires
            ops.lawful(),
        ensures
            r == self.multiplied(ops, other),
    {
        let c = other.transpose();
        Matrix3 {
            x: Vector::of(
                self.x.dot(ops, c.x),
                self.x.dot(ops, c.y),
                self.x.dot(ops, c.z),
            ),
            y: Vector::of(
                self.y.dot(ops, c.x),
                self.y.dot(ops, c.y),
                self.y.dot(ops, c.z),
            ),
            z: Vector::of(
                self.z.dot(ops, c.x),
                self.z.dot(ops, c.y),
                self.z.dot(ops, c.z),
            ),
        }
    }

    /// Ones on the diagonal.
    pub open spec fn unit() -> Self {
        Self::diagonal(
            F64 { bits: constants::ONE },
            F64 { bits: constants::ONE },
            F64 { bits: constants::ONE },
        )
    }

    /// The matrix with these numbers on the diagonal and zeros elsewhere.
    pub open spec fn diagonal(a: F64, b: F64, c: F64) -> Self {
        let zero = F64 { bits: constants::ZERO };
        Matrix3 {
            x: frames::vector(a, zero, zero),
            y: frames::vector(zero, b, zero),
            z: frames::vector(zero, zero, c),
        }
    }

    /// Zeros everywhere.
    pub open spec fn empty() -> Self {
        let zero = F64 { bits: constants::ZERO };
        Self::diagonal(zero, zero, zero)
    }

    /// The matrix with these numbers on the diagonal and zeros elsewhere.
    pub fn from_diagonal(a: F64, b: F64, c: F64) -> (r: Self)
        ensures
            r == Self::diagonal(a, b, c),
    {
        let zero = F64::from_bits(constants::ZERO);
        Matrix3 {
            x: Vector::of(a, zero, zero),
            y: Vector::of(zero, b, zero),
            z: Vector::of(zero, zero, c),
        }
    }

    /// Ones on the diagonal.
    pub fn identity() -> (r: Self)
        ensures
            r == Self::unit(),
    {
        let one = F64::from_bits(constants::ONE);
        Self::from_diagonal(one, one, one)
    }

    /// Zeros everywhere.
    pub fn zeros() -> (r: Self)
        ensures
            r == Self::empty(),
    {
        let zero = F64::from_bits(constants::ZERO);
        Self::from_diagonal(zero, zero, zero)
    }
}

impl<T: InertialFrame> Vector<T> {
    /// The column `self` times the row `other`.
    pub open spec fn outer<A: Arithmetic>(self, ops: &A, other: Self) -> Matrix3<T> {
        Matrix3 {
            x: other.scaled(ops, self.x),
            y: other.scaled(ops, self.y),
            z: other.scaled(ops, self.z),
        }
    }

    /// The column `self` times the row `other`.
    pub fn outer_product<A: Arithmetic>(self, ops: &A, other: Self) -> (r: Matrix3<T>)
        requires
            ops.lawful(),
        ensures
            r == self.outer(ops, other),
    {
        Matrix3 {
            x: other.scale(ops, self.x),
            y: other.scale(ops, self.y),
            z: other.scale(ops, self.z),
        }
    }
}

/// Rows and columns exchanged twice are where they were.
pub proof fn law_transpose_twice<T: InertialFrame>(m: Matrix3<T>)
    ensures
        m.transposed().transposed() == m,
{
}

} // verus!
