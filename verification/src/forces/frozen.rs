//! Hold all parameters of a force at fixed values.
use crate::arithmetic::Arithmetic;
use crate::errors::{Error, KeteResult, ValueFault};
use crate::float::F64;
use crate::forces::traits;
use crate::forces::traits::{AnalyticForce, Evaluate, Force, Jacobians, ParameterizedForce};
use crate::frames::Vector;
use crate::time::Time;
use vstd::prelude::*;

verus! {

/// A force with its parameters held at fixed values. Parameters which are given with an
/// evaluation are not looked at.
#[derive(Clone)]
pub struct FrozenForce<F: ParameterizedForce> {
    /// The force.
    pub inner: F,
    /// The value of each of its parameters.
    pub values: Vec<F64>,
}

impl<F: ParameterizedForce> FrozenForce<F> {
    /// Hold the parameters of a force, if there is a value for each of them.
    pub fn new(inner: F, values: Vec<F64>) -> (r: KeteResult<Self>)
        requires
            inner.well_formed(),
        ensures
            r == (if values@.len() != inner.n_params() {
                Err(
                    Error::ValueError(
                        ValueFault::ParamCount {
                            needed: inner.n_params() as usize,
                            given: values@.len() as usize,
                        },
                    ),
                )
            } else {
                Ok(FrozenForce { inner, values })
            }),
    {
        let n = inner.n_free_params();
        if values.len() != n {
            return Err(
                Error::ValueError(ValueFault::ParamCount { needed: n, given: values.len() }),
            );
        }
        Ok(FrozenForce { inner, values })
    }

    /// The values of the parameters.
    pub fn values(&self) -> (v: &[F64])
        ensures
            v@ == self.values@,
    {
        self.values.as_slice()
    }
}

impl<F: ParameterizedForce> ParameterizedForce for FrozenForce<F> {
    type Frame = F::Frame;

    type Center = F::Center;

    open spec fn well_formed(&self) -> bool {
        &&& self.inner.well_formed()
        &&& self.values@.len() == self.inner.n_params()
        &&& self.inner.accepts(self.inner.n_params())
    }

    open spec fn n_params(&self) -> nat {
        0
    }

    open spec fn names(&self) -> Seq<Seq<char>> {
        Seq::empty()
    }

    open spec fn bounds(&self) -> Seq<Option<F64>> {
        Seq::empty()
    }

    open spec fn accepts(&self, n: nat) -> bool {
        true
    }

    fn n_free_params(&self) -> usize {
        0
    }

    fn free_param_names(&self) -> Vec<&'static str> {
        let none: Vec<&'static str> = Vec::new();
        assert(traits::texts(none@) =~= Seq::empty());
        none
    }

    fn lower_bounds(&self) -> Vec<Option<F64>> {
        Vec::new()
    }
}

impl<A: Arithmetic, F: Evaluate<A>> Evaluate<A> for FrozenForce<F> {
    open spec fn accel_value(
        &self,
        ops: &A,
        time: Time,
        pos: Vector<F::Frame>,
        vel: Vector<F::Frame>,
        free_params: Seq<F64>,
    ) -> KeteResult<Vector<F::Frame>> {
        self.inner.accel_value(ops, time, pos, vel, self.values@)
    }

    fn accel(
        &self,
        ops: &A,
        time: Time,
        pos: Vector<F::Frame>,
        vel: Vector<F::Frame>,
        free_params: &[F64],
    ) -> KeteResult<Vector<F::Frame>> {
        self.inner.accel(ops, time, pos, vel, self.values.as_slice())
    }
}

impl<A: Arithmetic, F: AnalyticForce<A>> AnalyticForce<A> for FrozenForce<F> {
    open spec fn jacobians_value(
        &self,
        ops: &A,
        time: Time,
        pos: Vector<F::Frame>,
        vel: Vector<F::Frame>,
        free_params: Seq<F64>,
    ) -> KeteResult<Jacobians<F::Frame>> {
        self.inner.jacobians_value(ops, time, pos, vel, self.values@)
    }

    open spec fn parameter_jacobian_value(
        &self,
        ops: &A,
        time: Time,
        pos: Vector<F::Frame>,
        vel: Vector<F::Frame>,
        free_params: Seq<F64>,
    ) -> KeteResult<Seq<Vector<F::Frame>>> {
        Ok(Seq::empty())
    }

    proof fn lemma_columns(
        &self,
        ops: &A,
        time: Time,
        pos: Vector<F::Frame>,
        vel: Vector<F::Frame>,
        free_params: Seq<F64>,
    ) {
    }

    fn jacobians(
        &self,
        ops: &A,
        time: Time,
        pos: Vector<F::Frame>,
        vel: Vector<F::Frame>,
        free_params: &[F64],
    ) -> KeteResult<Jacobians<F::Frame>> {
        self.inner.jacobians(ops, time, pos, vel, self.values.as_slice())
    }

    fn parameter_jacobian(
        &self,
        ops: &A,
        time: Time,
        pos: Vector<F::Frame>,
        vel: Vector<F::Frame>,
        free_params: &[F64],
    ) -> KeteResult<Vec<Vector<F::Frame>>> {
        let none: Vec<Vector<F::Frame>> = Vec::new();
        assert(none@ =~= Seq::empty());
        Ok(none)
    }
}

impl<F: ParameterizedForce> Force for FrozenForce<F> {
    proof fn lemma_no_params(&self) {
    }
}

/// A frozen force is the force at the values it holds, whatever parameters are given.
pub proof fn law_frozen_is_force<A: Arithmetic, F: Evaluate<A>>(
    frozen: FrozenForce<F>,
    ops: &A,
    time: Time,
    pos: Vector<F::Frame>,
    vel: Vector<F::Frame>,
    given: Seq<F64>,
)
    ensures
        frozen.accel_value(ops, time, pos, vel, given) == frozen.inner.accel_value(
            ops,
            time,
            pos,
            vel,
            frozen.values@,
        ),
{
}

} // verus!
