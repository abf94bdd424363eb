//! Two forces at once.
use crate::arithmetic::Arithmetic;
use crate::errors::{Error, KeteResult, ValueFault};
use crate::float::F64;
use crate::forces::traits;
use crate::forces::traits::{
    AnalyticForce, CompensatedJacobians, CompensatedVector, Evaluate, Force, Jacobians,
    ParameterizedForce,
};
use crate::frames::Vector;
use crate::time::Time;
use vstd::prelude::*;
use vstd::slice::slice_subrange;

verus! {

/// Two forces which act together. The free parameters of the first come before those of
/// the second.
pub struct Sum<A, B>(pub A, pub B);

impl<A, B> Sum<A, B> {
    /// Let two forces act together.
    pub fn new(a: A, b: B) -> (s: Self)
        ensures
            s == Sum(a, b),
    {
        Sum(a, b)
    }
}

/// The parameters of two forces which have `na` and `nb` of them, or why `params` does not
/// hold them.
pub open spec fn split(params: Seq<F64>, na: nat, nb: nat) -> KeteResult<(Seq<F64>, Seq<F64>)> {
    if params.len() != na + nb {
        Err(
            Error::ValueError(
                ValueFault::ParamCount {
                    needed: (na + nb) as usize,
                    given: params.len() as usize,
                },
            ),
        )
    } else {
        Ok((params.take(na as int), params.skip(na as int)))
    }
}

/// Split the parameters of both forces into those of each.
fn split_params<'a>(params: &'a [F64], na: usize, nb: usize) -> (r: KeteResult<
    (&'a [F64], &'a [F64]),
>)
    requires
        na + nb <= usize::MAX,
    ensures
        match split(params@, na as nat, nb as nat) {
            Ok((pa, pb)) => r is Ok && r->Ok_0.0@ == pa && r->Ok_0.1@ == pb,
            Err(e) => r == Err::<(&'a [F64], &'a [F64]), Error>(e),
        },
{
    let total: usize = na + nb;
    if params.len() != total {
        return Err(
            Error::ValueError(ValueFault::ParamCount { needed: total, given: params.len() }),
        );
    }
    let pa = slice_subrange(params, 0, na);
    let pb = slice_subrange(params, na, params.len());
    assert(pa@ =~= params@.take(na as int));
    assert(pb@ =~= params@.skip(na as int));
    Ok((pa, pb))
}

impl<P: ParameterizedForce, Q: ParameterizedForce<Frame = P::Frame,
    Center = P::Center>> ParameterizedForce for Sum<
    P,
    Q,
> {
    type Frame = P::Frame;

    type Center = P::Center;

    open spec fn well_formed(&self) -> bool {
        &&& self.0.well_formed()
        &&& self.1.well_formed()
        &&& self.0.n_params() + self.1.n_params() <= usize::MAX
        &&& self.0.accepts(self.0.n_params())
        &&& self.1.accepts(self.1.n_params())
    }

    open spec fn n_params(&self) -> nat {
        self.0.n_params() + self.1.n_params()
    }

    open spec fn names(&self) -> Seq<Seq<char>> {
        self.0.names() + self.1.names()
    }

    open spec fn bounds(&self) -> Seq<Option<F64>> {
        self.0.bounds() + self.1.bounds()
    }

    open spec fn accepts(&self, n: nat) -> bool {
        true
    }

    fn n_free_params(&self) -> usize {
        self.0.n_free_params() + self.1.n_free_params()
    }

    fn free_param_names(&self) -> Vec<&'static str> {
        let mut names = self.0.free_param_names();
        let mut more = self.1.free_param_names();
        let ghost first = names@;
        let ghost second = more@;
        names.append(&mut more);
        assert(traits::texts(names@) =~= traits::texts(first) + traits::texts(second));
        names
    }

    fn lower_bounds(&self) -> Vec<Option<F64>> {
        let mut bounds = self.0.lower_bounds();
        let mut more = self.1.lower_bounds();
        bounds.append(&mut more);
        bounds
    }
}

impl<A: Arithmetic, P: Evaluate<A>, Q: Evaluate<A, Frame = P::Frame,
    Center = P::Center>> Evaluate<A> for Sum<P, Q> {
    open spec fn accel_value(
        &self,
        ops: &A,
        time: Time,
        pos: Vector<P::Frame>,
        vel: Vector<P::Frame>,
        free_params: Seq<F64>,
    ) -> KeteResult<Vector<P::Frame>> {
        match split(free_params, self.0.n_params(), self.1.n_params()) {
            Err(e) => Err(e),
            Ok((pa, pb)) => match self.0.accel_value(ops, time, pos, vel, pa) {
                Err(e) => Err(e),
                Ok(a) => match self.1.accel_value(ops, time, pos, vel, pb) {
                    Err(e) => Err(e),
                    Ok(b) => Ok(traits::total(ops, seq![a, b])),
                },
            },
        }
    }

    fn accel(
        &self,
        ops: &A,
        time: Time,
        pos: Vector<P::Frame>,
        vel: Vector<P::Frame>,
        free_params: &[F64],
    ) -> KeteResult<Vector<P::Frame>> {
        let na = self.0.n_free_params();
        let nb = self.1.n_free_params();
        match split_params(free_params, na, nb) {
            Err(e) => Err(e),
            Ok((pa, pb)) => match self.0.accel(ops, time, pos, vel, pa) {
                Err(e) => Err(e),
                Ok(a) => match self.1.accel(ops, time, pos, vel, pb) {
                    Err(e) => Err(e),
                    Ok(b) => {
                        let mut sum = CompensatedVector::zero();
                        sum.neumaier_add(ops, a);
                        sum.neumaier_add(ops, b);
                        proof {
                            reveal_with_fuel(traits::running_total, 3);
                            assert(seq![a, b].drop_last() =~= seq![a]);
                            assert(seq![a].drop_last() =~= Seq::empty());
                        }
                        Ok(sum.value(ops))
                    },
                },
            },
        }
    }
}

impl<A: Arithmetic, P: AnalyticForce<A>, Q: AnalyticForce<A, Frame = P::Frame,
    Center = P::Center>> AnalyticForce<
    A,
> for Sum<P, Q> {
    open spec fn jacobians_value(
        &self,
        ops: &A,
        time: Time,
        pos: Vector<P::Frame>,
        vel: Vector<P::Frame>,
        free_params: Seq<F64>,
    ) -> KeteResult<Jacobians<P::Frame>> {
        match split(free_params, self.0.n_params(), self.1.n_params()) {
            Err(e) => Err(e),
            Ok((pa, pb)) => match self.0.jacobians_value(ops, time, pos, vel, pa) {
                Err(e) => Err(e),
                Ok(a) => match self.1.jacobians_value(ops, time, pos, vel, pb) {
                    Err(e) => Err(e),
                    Ok(b) => Ok(traits::running_jacobians(ops, seq![a, b]).corrected(ops)),
                },
            },
        }
    }

    open spec fn parameter_jacobian_value(
        &self,
        ops: &A,
        time: Time,
        pos: Vector<P::Frame>,
        vel: Vector<P::Frame>,
        free_params: Seq<F64>,
    ) -> KeteResult<Seq<Vector<P::Frame>>> {
        match split(free_params, self.0.n_params(), self.1.n_params()) {
            Err(e) => Err(e),
            Ok((pa, pb)) => match block(&self.0, ops, time, pos, vel, pa) {
                Err(e) => Err(e),
                Ok(a) => match block(&self.1, ops, time, pos, vel, pb) {
                    Err(e) => Err(e),
                    Ok(b) => Ok(a + b),
                },
            },
        }
    }

    proof fn lemma_columns(
        &self,
        ops: &A,
        time: Time,
        pos: Vector<P::Frame>,
        vel: Vector<P::Frame>,
        free_params: Seq<F64>,
    ) {
        if let Ok((pa, pb)) = split(free_params, self.0.n_params(), self.1.n_params()) {
            self.0.lemma_columns(ops, time, pos, vel, pa);
            self.1.lemma_columns(ops, time, pos, vel, pb);
        }
    }

    fn jacobians(
        &self,
        ops: &A,
        time: Time,
        pos: Vector<P::Frame>,
        vel: Vector<P::Frame>,
        free_params: &[F64],
    ) -> KeteResult<Jacobians<P::Frame>> {
        let na = self.0.n_free_params();
        let nb = self.1.n_free_params();
        match split_params(free_params, na, nb) {
            Err(e) => Err(e),
            Ok((pa, pb)) => match self.0.jacobians(ops, time, pos, vel, pa) {
                Err(e) => Err(e),
                Ok(a) => match self.1.jacobians(ops, time, pos, vel, pb) {
                    Err(e) => Err(e),
                    Ok(b) => {
                        let mut sum = CompensatedJacobians::zero();
                        sum.neumaier_add(ops, a);
                        sum.neumaier_add(ops, b);
                        proof {
                            reveal_with_fuel(traits::running_jacobians, 3);
                            assert(seq![a, b].drop_last() =~= seq![a]);
                            assert(seq![a].drop_last() =~= Seq::empty());
                        }
                        Ok(sum.value(ops))
                    },
                },
            },
        }
    }

    fn parameter_jacobian(
        &self,
        ops: &A,
        time: Time,
        pos: Vector<P::Frame>,
        vel: Vector<P::Frame>,
        free_params: &[F64],
    ) -> KeteResult<Vec<Vector<P::Frame>>> {
        let na = self.0.n_free_params();
        let nb = self.1.n_free_params();
        match split_params(free_params, na, nb) {
            Err(e) => Err(e),
            Ok((pa, pb)) => match read_block(&self.0, ops, time, pos, vel, pa) {
                Err(e) => Err(e),
                Ok(a) => match read_block(&self.1, ops, time, pos, vel, pb) {
                    Err(e) => Err(e),
                    Ok(b) => {
                        let mut all = a;
                        let mut more = b;
                        all.append(&mut more);
                        Ok(all)
                    },
                },
            },
        }
    }
}

impl<P: Force, Q: Force<Frame = P::Frame, Center = P::Center>> Force for Sum<P, Q> {
    proof fn lemma_no_params(&self) {
        self.0.lemma_no_params();
        self.1.lemma_no_params();
    }
}

/// Two forces expose the parameters of the first and then those of the second, each with its
/// name and its bound.
pub proof fn law_sum_concatenates<P: ParameterizedForce, Q: ParameterizedForce<Frame = P::Frame,
    Center = P::Center>>(s: Sum<P, Q>, params: Seq<F64>)
    requires
        params.len() == s.n_params(),
    ensures
        s.names() == s.0.names() + s.1.names(),
        s.bounds() == s.0.bounds() + s.1.bounds(),
        split(params, s.0.n_params(), s.1.n_params()) matches Ok((pa, pb)) && pa.len()
            == s.0.n_params() && pb.len() == s.1.n_params() && pa + pb == params,
{
    let n = s.0.n_params() as int;
    assert(params.take(n) + params.skip(n) =~= params);
}

/// The derivatives by the parameters of one force, which is not asked where it has none.
pub open spec fn block<A: Arithmetic, F: AnalyticForce<A>>(
    force: &F,
    ops: &A,
    time: Time,
    pos: Vector<F::Frame>,
    vel: Vector<F::Frame>,
    free_params: Seq<F64>,
) -> KeteResult<Seq<Vector<F::Frame>>> {
    if force.n_params() == 0 {
        Ok(Seq::empty())
    } else {
        force.parameter_jacobian_value(ops, time, pos, vel, free_params)
    }
}

/// The derivatives by the parameters of one force, which is not asked where it has none.
pub fn read_block<A: Arithmetic, F: AnalyticForce<A>>(
    force: &F,
    ops: &A,
    time: Time,
    pos: Vector<F::Frame>,
    vel: Vector<F::Frame>,
    free_params: &[F64],
) -> (r: KeteResult<Vec<Vector<F::Frame>>>)
    requires
        ops.lawful(),
        force.well_formed(),
        force.n_params() > 0 ==> force.accepts(free_params@.len()),
    ensures
        traits::columns(r) == block(force, ops, time, pos, vel, free_params@),
{
    if force.n_free_params() == 0 {
        let none: Vec<Vector<F::Frame>> = Vec::new();
        assert(none@ =~= Seq::empty());
        return Ok(none);
    }
    force.parameter_jacobian(ops, time, pos, vel, free_params)
}

} // verus!
