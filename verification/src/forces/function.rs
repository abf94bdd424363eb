//! Forces which are given by functions.
use crate::arithmetic::Arithmetic;
use crate::errors::KeteResult;
use crate::float::F64;
use crate::forces::traits;
use crate::forces::traits::{AnalyticForce, Evaluate, Jacobians, ParameterizedForce};
use crate::frames::{InertialFrame, Vector};
use crate::time::Time;
use std::marker::PhantomData;
use vstd::prelude::*;

verus! {

/// A force in the frame `T` about the center `C`, of which the acceleration and its derivatives
/// are given by functions of time, position, velocity and the free parameters.
pub struct ForceFunction<T, C, E, J, P> {
    /// The names of the free parameters.
    pub names: Vec<&'static str>,
    /// The least value of each free parameter, where it has one.
    pub bounds: Vec<Option<F64>>,
    /// The acceleration.
    pub accel: E,
    /// The derivatives by position and velocity.
    pub jacobians: J,
    /// The derivative by each free parameter.
    pub partials: P,
    /// The frame.
    pub frame: PhantomData<T>,
    /// The center.
    pub center: PhantomData<C>,
}

impl<
    T: InertialFrame,
    C,
    E: Fn(Time, Vector<T>, Vector<T>, &[F64]) -> KeteResult<Vector<T>>,
    J: Fn(Time, Vector<T>, Vector<T>, &[F64]) -> KeteResult<Jacobians<T>>,
    P: Fn(Time, Vector<T>, Vector<T>, &[F64]) -> KeteResult<Vec<Vector<T>>>,
> ForceFunction<T, C, E, J, P> {
    /// The force given by three functions, with free parameters of these names and least values.
    pub fn new(
        names: Vec<&'static str>,
        bounds: Vec<Option<F64>>,
        accel: E,
        jacobians: J,
        partials: P,
    ) -> (r: Self)
        requires
            names@.len() == bounds@.len(),
        ensures
            r.names == names,
            r.bounds == bounds,
            r.accel == accel,
            r.jacobians == jacobians,
            r.partials == partials,
    {
        ForceFunction {
            names,
            bounds,
            accel,
            jacobians,
            partials,
            frame: PhantomData,
            center: PhantomData,
        }
    }

    /// Can the acceleration always be asked for, and does it have one value.
    pub open spec fn accel_lawful(&self) -> bool {
        &&& forall|t: Time, p: Vector<T>, v: Vector<T>, a: &[F64]| #[trigger]
            call_requires(self.accel, (t, p, v, a))
        &&& forall|
            t: Time,
            p: Vector<T>,
            v: Vector<T>,
            a: &[F64],
            b: &[F64],
            r: KeteResult<Vector<T>>,
            s: KeteResult<Vector<T>>,
        |
            a@ == b@ && #[trigger] call_ensures(self.accel, (t, p, v, a), r)
                && #[trigger] call_ensures(self.accel, (t, p, v, b), s) ==> r == s
    }

    /// Can the derivatives by position and velocity always be asked for, and do they have one
    /// value.
    pub open spec fn jacobians_lawful(&self) -> bool {
        &&& forall|t: Time, p: Vector<T>, v: Vector<T>, a: &[F64]| #[trigger]
            call_requires(self.jacobians, (t, p, v, a))
        &&& forall|
            t: Time,
            p: Vector<T>,
            v: Vector<T>,
            a: &[F64],
            b: &[F64],
            r: KeteResult<Jacobians<T>>,
            s: KeteResult<Jacobians<T>>,
        |
            a@ == b@ && #[trigger] call_ensures(self.jacobians, (t, p, v, a), r)
                && #[trigger] call_ensures(self.jacobians, (t, p, v, b), s) ==> r == s
    }

    /// Can the derivatives by the parameters always be asked for, do they have one value, and is
    /// there one for each parameter.
    pub open spec fn partials_lawful(&self) -> bool {
        &&& forall|t: Time, p: Vector<T>, v: Vector<T>, a: &[F64]| #[trigger]
            call_requires(self.partials, (t, p, v, a))
        &&& forall|
            t: Time,
            p: Vector<T>,
            v: Vector<T>,
            a: &[F64],
            b: &[F64],
            r: KeteResult<Vec<Vector<T>>>,
            s: KeteResult<Vec<Vector<T>>>,
        |
            a@ == b@ && #[trigger] call_ensures(self.partials, (t, p, v, a), r)
                && #[trigger] call_ensures(self.partials, (t, p, v, b), s) ==> traits::columns(r)
                == traits::columns(s)
        &&& forall|t: Time, p: Vector<T>, v: Vector<T>, a: &[F64], r: KeteResult<Vec<Vector<T>>>|
            #[trigger] call_ensures(self.partials, (t, p, v, a), r) ==> (r matches Ok(c)
                ==> c@.len()
                == self.names@.len())
    }

    /// What the function for the derivatives by the parameters gives.
    pub open spec fn partials_give(
        &self,
        time: Time,
        pos: Vector<T>,
        vel: Vector<T>,
        params: Seq<F64>,
        r: KeteResult<Vec<Vector<T>>>,
    ) -> bool {
        exists|a: &[F64]|
            a@ == params && #[trigger] call_ensures(self.partials, (time, pos, vel, a), r)
    }
}

impl<
    T: InertialFrame,
    C,
    E: Fn(Time, Vector<T>, Vector<T>, &[F64]) -> KeteResult<Vector<T>>,
    J: Fn(Time, Vector<T>, Vector<T>, &[F64]) -> KeteResult<Jacobians<T>>,
    P: Fn(Time, Vector<T>, Vector<T>, &[F64]) -> KeteResult<Vec<Vector<T>>>,
> ParameterizedForce for ForceFunction<T, C, E, J, P> {
    type Frame = T;

    type Center = C;

    open spec fn well_formed(&self) -> bool {
        &&& self.names@.len() == self.bounds@.len()
        &&& self.accel_lawful()
        &&& self.jacobians_lawful()
        &&& self.partials_lawful()
    }

    open spec fn n_params(&self) -> nat {
        self.names@.len()
    }

    open spec fn names(&self) -> Seq<Seq<char>> {
        traits::texts(self.names@)
    }

    open spec fn bounds(&self) -> Seq<Option<F64>> {
        self.bounds@
    }

    open spec fn accepts(&self, n: nat) -> bool {
        true
    }

    fn n_free_params(&self) -> usize {
        self.names.len()
    }

    fn free_param_names(&self) -> Vec<&'static str> {
        let mut r: Vec<&'static str> = Vec::new();
        let mut i: usize = 0;
        while i < self.names.len()
            invariant
                i <= self.names@.len(),
                r@ == self.names@.take(i as int),
            decreases self.names@.len() - i,
        {
            r.push(self.names[i]);
            i = i + 1;
            assert(r@ =~= self.names@.take(i as int));
        }
        assert(r@ =~= self.names@);
        r
    }

    fn lower_bounds(&self) -> Vec<Option<F64>> {
        let mut r: Vec<Option<F64>> = Vec::new();
        let mut i: usize = 0;
        while i < self.bounds.len()
            invariant
                i <= self.bounds@.len(),
                r@ == self.bounds@.take(i as int),
            decreases self.bounds@.len() - i,
        {
            r.push(self.bounds[i]);
            i = i + 1;
            assert(r@ =~= self.bounds@.take(i as int));
        }
        assert(r@ =~= self.bounds@);
        r
    }
}

impl<
    A: Arithmetic,
    T: InertialFrame,
    C,
    E: Fn(Time, Vector<T>, Vector<T>, &[F64]) -> KeteResult<Vector<T>>,
    J: Fn(Time, Vector<T>, Vector<T>, &[F64]) -> KeteResult<Jacobians<T>>,
    P: Fn(Time, Vector<T>, Vector<T>, &[F64]) -> KeteResult<Vec<Vector<T>>>,
> Evaluate<A> for ForceFunction<T, C, E, J, P> {
    open spec fn accel_value(
        &self,
        ops: &A,
        time: Time,
        pos: Vector<T>,
        vel: Vector<T>,
        free_params: Seq<F64>,
    ) -> KeteResult<Vector<T>> {
        let (a, r) = choose|a: &[F64], r: KeteResult<Vector<T>>|
            a@ == free_params && #[trigger] call_ensures(self.accel, (time, pos, vel, a), r);
        r
    }

    fn accel(
        &self,
        ops: &A,
        time: Time,
        pos: Vector<T>,
        vel: Vector<T>,
        free_params: &[F64],
    ) -> KeteResult<Vector<T>> {
        (self.accel)(time, pos, vel, free_params)
    }
}

impl<
    A: Arithmetic,
    T: InertialFrame,
    C,
    E: Fn(Time, Vector<T>, Vector<T>, &[F64]) -> KeteResult<Vector<T>>,
    J: Fn(Time, Vector<T>, Vector<T>, &[F64]) -> KeteResult<Jacobians<T>>,
    P: Fn(Time, Vector<T>, Vector<T>, &[F64]) -> KeteResult<Vec<Vector<T>>>,
> AnalyticForce<A> for ForceFunction<T, C, E, J, P> {
    open spec fn jacobians_value(
        &self,
        ops: &A,
        time: Time,
        pos: Vector<T>,
        vel: Vector<T>,
        free_params: Seq<F64>,
    ) -> KeteResult<Jacobians<T>> {
        let (a, r) = choose|a: &[F64], r: KeteResult<Jacobians<T>>|
            a@ == free_params && #[trigger] call_ensures(self.jacobians, (time, pos, vel, a), r);
        r
    }

    /// What the function gives, where it gives anything at all.
    open spec fn parameter_jacobian_value(
        &self,
        ops: &A,
        time: Time,
        pos: Vector<T>,
        vel: Vector<T>,
        free_params: Seq<F64>,
    ) -> KeteResult<Seq<Vector<T>>> {
        if exists|r: KeteResult<Vec<Vector<T>>>|
            self.partials_give(time, pos, vel, free_params, r) {
            traits::columns(
                choose|r: KeteResult<Vec<Vector<T>>>|
                    self.partials_give(time, pos, vel, free_params, r),
            )
        } else {
            Ok(Seq::new(self.names@.len(), |i: int| pos))
        }
    }

    proof fn lemma_columns(
        &self,
        ops: &A,
        time: Time,
        pos: Vector<T>,
        vel: Vector<T>,
        free_params: Seq<F64>,
    ) {
    }

    fn jacobians(
        &self,
        ops: &A,
        time: Time,
        pos: Vector<T>,
        vel: Vector<T>,
        free_params: &[F64],
    ) -> KeteResult<Jacobians<T>> {
        (self.jacobians)(time, pos, vel, free_params)
    }

    fn parameter_jacobian(
        &self,
        ops: &A,
        time: Time,
        pos: Vector<T>,
        vel: Vector<T>,
        free_params: &[F64],
    ) -> KeteResult<Vec<Vector<T>>> {
        let r = (self.partials)(time, pos, vel, free_params);
        assert(self.partials_give(time, pos, vel, free_params@, r));
        r
    }
}

} // verus!
