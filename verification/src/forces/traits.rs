//! What a force is.
use crate::arithmetic;
use crate::arithmetic::{Arithmetic, Compensated};
use crate::errors::KeteResult;
use crate::float::F64;
use crate::frames;
use crate::frames::{InertialFrame, Vector};
use crate::matrix::Matrix3;
use crate::time::Time;
use vstd::prelude::*;

verus! {

/// The characters of some texts.
pub open spec fn texts(names: Seq<&'static str>) -> Seq<Seq<char>> {
    Seq::new(names.len(), |i: int| names[i]@)
}

/// A force which depends on parameters that are given with each evaluation.
pub trait ParameterizedForce: Sized {
    /// The frame of positions, velocities and accelerations.
    type Frame: InertialFrame;

    /// What positions and velocities are relative to.
    type Center;

    /// Is the force put together as it should be.
    spec fn well_formed(&self) -> bool;

    /// How many parameters are free.
    spec fn n_params(&self) -> nat;

    /// The names of the free parameters.
    spec fn names(&self) -> Seq<Seq<char>>;

    /// The least value of each free parameter, where it has one.
    spec fn bounds(&self) -> Seq<Option<F64>>;

    /// Can the force be evaluated with `n` parameters.
    spec fn accepts(&self, n: nat) -> bool;

    /// How many parameters are free.
    fn n_free_params(&self) -> (n: usize)
        requires
            self.well_formed(),
        ensures
            n == self.n_params(),
    ;

    /// The names of the free parameters.
    fn free_param_names(&self) -> (r: Vec<&'static str>)
        requires
            self.well_formed(),
        ensures
            texts(r@) == self.names(),
            r@.len() == self.n_params(),
    ;

    /// The least value of each free parameter, where it has one.
    fn lower_bounds(&self) -> (r: Vec<Option<F64>>)
        requires
            self.well_formed(),
        ensures
            r@ == self.bounds(),
            r@.len() == self.n_params(),
    ;
}

/// A force without free parameters.
pub trait Force: ParameterizedForce {
    /// No parameter is free.
    proof fn lemma_no_params(&self)
        ensures
            self.n_params() == 0,
    ;
}

/// No bound on any of `n` parameters.
pub open spec fn unbounded(n: nat) -> Seq<Option<F64>> {
    Seq::new(n, |i: int| None)
}

/// No bound on any of `n` parameters.
pub fn no_bounds(n: usize) -> (r: Vec<Option<F64>>)
    ensures
        r@ == unbounded(n as nat),
        r@.len() == n,
{
    let mut r: Vec<Option<F64>> = Vec::new();
    let mut i: usize = 0;
    while i < n
        invariant
            i <= n,
            r@ == unbounded(i as nat),
        decreases n - i,
    {
        r.push(None);
        i = i + 1;
        assert(r@ =~= unbounded(i as nat));
    }
    assert(r@ =~= unbounded(n as nat));
    r
}

/// A force which can be evaluated with an arithmetic.
pub trait Evaluate<A: Arithmetic>: ParameterizedForce {
    /// The acceleration at a position and a velocity.
    spec fn accel_value(
        &self,
        ops: &A,
        time: Time,
        pos: Vector<Self::Frame>,
        vel: Vector<Self::Frame>,
        free_params: Seq<F64>,
    ) -> KeteResult<Vector<Self::Frame>>;

    /// The acceleration at a position and a velocity.
    fn accel(
        &self,
        ops: &A,
        time: Time,
        pos: Vector<Self::Frame>,
        vel: Vector<Self::Frame>,
        free_params: &[F64],
    ) -> (r: KeteResult<Vector<Self::Frame>>)
        requires
            ops.lawful(),
            self.well_formed(),
            self.accepts(free_params@.len()),
        ensures
            r == self.accel_value(ops, time, pos, vel, free_params@),
    ;
}

/// The derivatives of an acceleration by the position and by the velocity.
pub struct Jacobians<T: InertialFrame> {
    /// By the position.
    pub pos: Matrix3<T>,
    /// By the velocity.
    pub vel: Matrix3<T>,
}

impl<T: InertialFrame> Clone for Jacobians<T> {
    fn clone(&self) -> (r: Self)
        ensures
            r == *self,
    {
        *self
    }
}

impl<T: InertialFrame> Copy for Jacobians<T> {

}

/// Derivatives with the columns as a sequence.
pub open spec fn columns<T: InertialFrame>(r: KeteResult<Vec<Vector<T>>>) -> KeteResult<
    Seq<Vector<T>>,
> {
    match r {
        Ok(c) => Ok(c@),
        Err(e) => Err(e),
    }
}

/// A force with derivatives in closed form.
pub trait AnalyticForce<A: Arithmetic>: Evaluate<A> {
    /// The derivatives by position and velocity.
    spec fn jacobians_value(
        &self,
        ops: &A,
        time: Time,
        pos: Vector<Self::Frame>,
        vel: Vector<Self::Frame>,
        free_params: Seq<F64>,
    ) -> KeteResult<Jacobians<Self::Frame>>;

    /// The derivative by each free parameter.
    spec fn parameter_jacobian_value(
        &self,
        ops: &A,
        time: Time,
        pos: Vector<Self::Frame>,
        vel: Vector<Self::Frame>,
        free_params: Seq<F64>,
    ) -> KeteResult<Seq<Vector<Self::Frame>>>;

    /// There is one derivative for each free parameter.
    proof fn lemma_columns(
        &self,
        ops: &A,
        time: Time,
        pos: Vector<Self::Frame>,
        vel: Vector<Self::Frame>,
        free_params: Seq<F64>,
    )
        requires
            self.well_formed(),
        ensures
            self.parameter_jacobian_value(ops, time, pos, vel, free_params) matches Ok(c)
                ==> c.len()
                == self.n_params(),
    ;

    /// The derivatives by position and velocity.
    fn jacobians(
        &self,
        ops: &A,
        time: Time,
        pos: Vector<Self::Frame>,
        vel: Vector<Self::Frame>,
        free_params: &[F64],
    ) -> (r: KeteResult<Jacobians<Self::Frame>>)
        requires
            ops.lawful(),
            self.well_formed(),
            self.accepts(free_params@.len()),
        ensures
            r == self.jacobians_value(ops, time, pos, vel, free_params@),
    ;

    /// The derivative by each free parameter, as columns.
    fn parameter_jacobian(
        &self,
        ops: &A,
        time: Time,
        pos: Vector<Self::Frame>,
        vel: Vector<Self::Frame>,
        free_params: &[F64],
    ) -> (r: KeteResult<Vec<Vector<Self::Frame>>>)
        requires
            ops.lawful(),
            self.well_formed(),
            self.accepts(free_params@.len()),
        ensures
            columns(r) == self.parameter_jacobian_value(ops, time, pos, vel, free_params@),
    ;
}

/// The running compensated sum of vectors.
#[derive(Debug, Clone, Copy)]
pub struct CompensatedVector {
    /// The sum of the first components.
    pub x: Compensated,
    /// The sum of the second components.
    pub y: Compensated,
    /// The sum of the third components.
    pub z: Compensated,
}

impl CompensatedVector {
    /// The sum of nothing.
    pub open spec fn nothing() -> Self {
        CompensatedVector {
            x: Compensated::nothing(),
            y: Compensated::nothing(),
            z: Compensated::nothing(),
        }
    }

    /// The sum with one more term.
    pub open spec fn with<A: Arithmetic, T: InertialFrame>(self, ops: &A, term: Vector<T>) -> Self {
        CompensatedVector {
            x: self.x.with(ops, term.x),
            y: self.y.with(ops, term.y),
            z: self.z.with(ops, term.z),
        }
    }

    /// The sum with its errors put back.
    pub open spec fn corrected<A: Arithmetic, T: InertialFrame>(self, ops: &A) -> Vector<T> {
        frames::vector(self.x.corrected(ops), self.y.corrected(ops), self.z.corrected(ops))
    }

    /// The sum of nothing.
    pub fn zero() -> (s: Self)
        ensures
            s == Self::nothing(),
    {
        CompensatedVector { x: Compensated::zero(), y: Compensated::zero(), z: Compensated::zero() }
    }

    /// Add one term.
    pub fn neumaier_add<A: Arithmetic, T: InertialFrame>(&mut self, ops: &A, term: Vector<T>)
        requires
            ops.lawful(),
        ensures
            *final(self) == old(self).with(ops, term),
    {
        self.x.neumaier_add(ops, term.x);
        self.y.neumaier_add(ops, term.y);
        self.z.neumaier_add(ops, term.z);
    }

    /// Put the errors back.
    pub fn value<A: Arithmetic, T: InertialFrame>(&self, ops: &A) -> (v: Vector<T>)
        requires
            ops.lawful(),
        ensures
            v == self.corrected::<A, T>(ops),
    {
        Vector::of(self.x.value(ops), self.y.value(ops), self.z.value(ops))
    }
}

/// The compensated sum of vectors, first to last.
pub open spec fn running_total<A: Arithmetic, T: InertialFrame>(
    ops: &A,
    terms: Seq<Vector<T>>,
) -> CompensatedVector
    decreases terms.len(),
{
    if terms.len() == 0 {
        CompensatedVector::nothing()
    } else {
        running_total(ops, terms.drop_last()).with(ops, terms.last())
    }
}

/// The sum of vectors, first to last, with the rounding errors put back at the end.
pub open spec fn total<A: Arithmetic, T: InertialFrame>(
    ops: &A,
    terms: Seq<Vector<T>>,
) -> Vector<T> {
    running_total(ops, terms).corrected(ops)
}

/// The running compensated sum of matrices.
#[derive(Debug, Clone, Copy)]
pub struct CompensatedMatrix {
    /// The sum of the first rows.
    pub x: CompensatedVector,
    /// The sum of the second rows.
    pub y: CompensatedVector,
    /// The sum of the third rows.
    pub z: CompensatedVector,
}

impl CompensatedMatrix {
    /// The sum of nothing.
    pub open spec fn nothing() -> Self {
        CompensatedMatrix {
            x: CompensatedVector::nothing(),
            y: CompensatedVector::nothing(),
            z: CompensatedVector::nothing(),
        }
    }

    /// The sum with one more term.
    pub open spec fn with<A: Arithmetic, T: InertialFrame>(self, ops: &A, term: Matrix3<T>)
        -> Self {
        CompensatedMatrix {
            x: self.x.with(ops, term.x),
            y: self.y.with(ops, term.y),
            z: self.z.with(ops, term.z),
        }
    }

    /// The sum with its errors put back.
    pub open spec fn corrected<A: Arithmetic, T: InertialFrame>(self, ops: &A) -> Matrix3<T> {
        Matrix3 { x: self.x.corrected(ops), y: self.y.corrected(ops), z: self.z.corrected(ops) }
    }

    /// The sum of nothing.
    pub fn zero() -> (s: Self)
        ensures
            s == Self::nothing(),
    {
        CompensatedMatrix {
            x: CompensatedVector::zero(),
            y: CompensatedVector::zero(),
            z: CompensatedVector::zero(),
        }
    }

    /// Add one term.
    pub fn neumaier_add_matrix<A: Arithmetic, T: InertialFrame>(&mut self, ops: &A,
        term: Matrix3<T>)
        requires
            ops.lawful(),
        ensures
            *final(self) == old(self).with(ops, term),
    {
        self.x.neumaier_add(ops, term.x);
        self.y.neumaier_add(ops, term.y);
        self.z.neumaier_add(ops, term.z);
    }

    /// Put the errors back.
    pub fn value<A: Arithmetic, T: InertialFrame>(&self, ops: &A) -> (m: Matrix3<T>)
        requires
            ops.lawful(),
        ensures
            m == self.corrected::<A, T>(ops),
    {
        Matrix3 { x: self.x.value(ops), y: self.y.value(ops), z: self.z.value(ops) }
    }
}

/// The running sum of derivatives.
#[derive(Debug, Clone, Copy)]
pub struct CompensatedJacobians {
    /// By the position.
    pub pos: CompensatedMatrix,
    /// By the velocity.
    pub vel: CompensatedMatrix,
}

impl CompensatedJacobians {
    /// The sum of nothing.
    pub open spec fn nothing() -> Self {
        CompensatedJacobians {
            pos: CompensatedMatrix::nothing(),
            vel: CompensatedMatrix::nothing(),
        }
    }

    /// The sum with one more term.
    pub open spec fn with<A: Arithmetic, T: InertialFrame>(
        self,
        ops: &A,
        term: Jacobians<T>,
    ) -> Self {
        CompensatedJacobians {
            pos: self.pos.with(ops, term.pos),
            vel: self.vel.with(ops, term.vel),
        }
    }

    /// The sum with its errors put back.
    pub open spec fn corrected<A: Arithmetic, T: InertialFrame>(self, ops: &A) -> Jacobians<T> {
        Jacobians { pos: self.pos.corrected(ops), vel: self.vel.corrected(ops) }
    }

    /// The sum of nothing.
    pub fn zero() -> (s: Self)
        ensures
            s == Self::nothing(),
    {
        CompensatedJacobians { pos: CompensatedMatrix::zero(), vel: CompensatedMatrix::zero() }
    }

    /// Add one term.
    pub fn neumaier_add<A: Arithmetic, T: InertialFrame>(&mut self, ops: &A, term: Jacobians<T>)
        requires
            ops.lawful(),
        ensures
            *final(self) == old(self).with(ops, term),
    {
        self.pos.neumaier_add_matrix(ops, term.pos);
        self.vel.neumaier_add_matrix(ops, term.vel);
    }

    /// Put the errors back.
    pub fn value<A: Arithmetic, T: InertialFrame>(&self, ops: &A) -> (j: Jacobians<T>)
        requires
            ops.lawful(),
        ensures
            j == self.corrected::<A, T>(ops),
    {
        Jacobians { pos: self.pos.value(ops), vel: self.vel.value(ops) }
    }
}

/// The compensated sum of derivatives, first to last.
pub open spec fn running_jacobians<A: Arithmetic, T: InertialFrame>(
    ops: &A,
    terms: Seq<Jacobians<T>>,
) -> CompensatedJacobians
    decreases terms.len(),
{
    if terms.len() == 0 {
        CompensatedJacobians::nothing()
    } else {
        running_jacobians(ops, terms.drop_last()).with(ops, terms.last())
    }
}

} // verus!
