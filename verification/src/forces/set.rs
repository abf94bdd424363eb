//! Any number of forces at once.
use crate::arithmetic::Arithmetic;
use crate::errors::{Error, KeteResult, ValueFault};
use crate::float::F64;
use crate::forces::sum;
use crate::forces::traits;
use crate::forces::traits::{
    AnalyticForce, CompensatedJacobians, CompensatedVector, Evaluate, Jacobians,
    ParameterizedForce,
};
use crate::frames::Vector;
use crate::time::Time;
use vstd::prelude::*;
use vstd::slice::slice_subrange;

verus! {

/// Forces which act together. Their free parameters stand one after the other, in the order
/// in which the forces were added.
pub struct ForceSet<F: ParameterizedForce> {
    /// The forces.
    pub forces: Vec<F>,
}

/// How many parameters the first `n` forces have.
pub open spec fn offset<F: ParameterizedForce>(forces: Seq<F>, n: int) -> nat
    decreases n,
{
    if n <= 0 {
        0
    } else {
        offset(forces, n - 1) + forces[n - 1].n_params()
    }
}

/// The names of the parameters of the first `n` forces.
pub open spec fn all_names<F: ParameterizedForce>(forces: Seq<F>, n: int) -> Seq<Seq<char>>
    decreases n,
{
    if n <= 0 {
        Seq::empty()
    } else {
        all_names(forces, n - 1) + forces[n - 1].names()
    }
}

/// The parameters of force `i`.
pub open spec fn part<F: ParameterizedForce>(
    forces: Seq<F>,
    free_params: Seq<F64>,
    i: int,
) -> Seq<F64> {
    free_params.subrange(offset(forces, i) as int, offset(forces, i + 1) as int)
}

/// Why forces with `expected` parameters cannot be evaluated with `found` of them: there have to
/// be as many as the forces have, so that none may be given only where no force has any.
pub open spec fn params_fault(expected: nat, found: nat) -> Option<Error> {
    if found != expected {
        Some(
            Error::ValueError(
                ValueFault::ParamCount { needed: expected as usize, given: found as usize },
            ),
        )
    } else {
        None
    }
}

/// The parameters of the first forces are no more than those of more forces.
pub proof fn lemma_offset_grows<F: ParameterizedForce>(forces: Seq<F>, m: int, n: int)
    requires
        0 <= m <= n,
    ensures
        offset(forces, m) <= offset(forces, n),
    decreases n,
{
    if m < n {
        lemma_offset_grows(forces, m, n - 1);
    }
}

/// The parameters of the first forces do not depend on what comes after them.
proof fn lemma_offset_prefix<F: ParameterizedForce>(forces: Seq<F>, more: Seq<F>, n: int)
    requires
        n <= forces.len(),
    ensures
        offset(forces + more, n) == offset(forces, n),
        all_names(forces + more, n) == all_names(forces, n),
    decreases n,
{
    if n > 0 {
        lemma_offset_prefix(forces, more, n - 1);
        assert((forces + more)[n - 1] == forces[n - 1]);
    }
}

impl<F: ParameterizedForce> Default for ForceSet<F> {
    fn default() -> (s: Self)
        ensures
            s.forces@.len() == 0,
    {
        ForceSet { forces: Vec::new() }
    }
}

impl<F: ParameterizedForce> ForceSet<F> {
    /// No force.
    pub fn new() -> (s: Self)
        ensures
            s.forces@ == Seq::<F>::empty(),
            s.well_formed(),
    {
        ForceSet { forces: Vec::new() }
    }

    /// The same forces and one more.
    pub fn with(self, force: F) -> (s: Self)
        ensures
            s.forces@ == self.forces@.push(force),
    {
        let mut s = self;
        s.forces.push(force);
        s
    }

    /// Is the number of parameters right.
    fn check_params(&self, free_params: &[F64]) -> (r: KeteResult<()>)
        requires
            self.well_formed(),
        ensures
            r == (match params_fault(self.n_params(), free_params@.len()) {
                Some(e) => Err(e),
                None => Ok(()),
            }),
    {
        let expected = self.n_free_params();
        if free_params.len() != expected {
            return Err(
                Error::ValueError(ValueFault::ParamCount { needed: expected,
                    given: free_params.len() }),
            );
        }
        Ok(())
    }
}

/// A force that is added last has its parameters at the end, and leaves the others where
/// they are.
pub proof fn law_parameters_follow_forces<F: ParameterizedForce>(before: ForceSet<F>, force: F,
    after: ForceSet<F>)
    requires
        after.forces@ == before.forces@.push(force),
    ensures
        after.n_params() == before.n_params() + force.n_params(),
        after.names() == before.names() + force.names(),
{
    let n = before.forces@.len() as int;
    assert(after.forces@ =~= before.forces@ + seq![force]);
    lemma_offset_prefix(before.forces@, seq![force], n);
}

/// The parameters of force `i`.
fn inner_slice<'a, F: ParameterizedForce>(
    forces: &Vec<F>,
    free_params: &'a [F64],
    i: usize,
    start: usize,
    n: usize,
) -> (r: &'a [F64])
    requires
        i < forces@.len(),
        start == offset(forces@, i as int),
        n == forces@[i as int].n_params(),
        start + n <= free_params@.len(),
    ensures
        r@ == part(forces@, free_params@, i as int),
{
    proof {
        assert(start + n <= free_params.len());
    }
    slice_subrange(free_params, start, start + n)
}

impl<F: ParameterizedForce> ParameterizedForce for ForceSet<F> {
    type Frame = F::Frame;

    type Center = F::Center;

    open spec fn well_formed(&self) -> bool {
        &&& forall|i: int| 0 <= i < self.forces@.len() ==> #[trigger] self.forces@[i].well_formed()
        &&& offset(self.forces@, self.forces@.len() as int) <= usize::MAX
    }

    open spec fn n_params(&self) -> nat {
        offset(self.forces@, self.forces@.len() as int)
    }

    open spec fn names(&self) -> Seq<Seq<char>> {
        all_names(self.forces@, self.forces@.len() as int)
    }

    open spec fn bounds(&self) -> Seq<Option<F64>> {
        traits::unbounded(self.n_params())
    }

    open spec fn accepts(&self, n: nat) -> bool {
        params_fault(self.n_params(), n) is None ==> forall|i: int|
            0 <= i < self.forces@.len() ==> (#[trigger] self.forces@[i]).accepts(
                self.forces@[i].n_params(),
            )
    }

    fn n_free_params(&self) -> usize {
        let mut total: usize = 0;
        let mut i: usize = 0;
        while i < self.forces.len()
            invariant
                self.well_formed(),
                i <= self.forces@.len(),
                total == offset(self.forces@, i as int),
            decreases self.forces@.len() - i,
        {
            proof {
                lemma_offset_grows(self.forces@, i as int + 1, self.forces@.len() as int);
                assert(self.forces@[i as int].well_formed());
            }
            total = total + self.forces[i].n_free_params();
            i = i + 1;
        }
        total
    }

    fn free_param_names(&self) -> Vec<&'static str> {
        let mut names: Vec<&'static str> = Vec::new();
        let mut i: usize = 0;
        assert(traits::texts(names@) =~= Seq::empty());
        while i < self.forces.len()
            invariant
                self.well_formed(),
                i <= self.forces@.len(),
                names@.len() == offset(self.forces@, i as int),
                traits::texts(names@) == all_names(self.forces@, i as int),
            decreases self.forces@.len() - i,
        {
            assert(self.forces@[i as int].well_formed());
            let mut more = self.forces[i].free_param_names();
            let ghost first = names@;
            let ghost second = more@;
            names.append(&mut more);
            assert(traits::texts(names@) =~= traits::texts(first) + traits::texts(second));
            i = i + 1;
        }
        names
    }

    fn lower_bounds(&self) -> Vec<Option<F64>> {
        traits::no_bounds(self.n_free_params())
    }
}

impl<F: ParameterizedForce> ForceSet<F> {
    /// The accelerations by the first `n` forces, or the first fault.
    pub open spec fn accels<A: Arithmetic>(
        &self,
        ops: &A,
        time: Time,
        pos: Vector<F::Frame>,
        vel: Vector<F::Frame>,
        free_params: Seq<F64>,
        n: int,
    ) -> KeteResult<Seq<Vector<F::Frame>>> where F: Evaluate<A>
        decreases n,
    {
        if n <= 0 {
            Ok(Seq::empty())
        } else {
            match self.accels(ops, time, pos, vel, free_params, n - 1) {
                Err(e) => Err(e),
                Ok(terms) => match self.forces@[n - 1].accel_value(
                    ops,
                    time,
                    pos,
                    vel,
                    part(self.forces@, free_params, n - 1),
                ) {
                    Err(e) => Err(e),
                    Ok(term) => Ok(terms.push(term)),
                },
            }
        }
    }

    /// The derivatives of the first `n` forces, or the first fault.
    pub open spec fn all_jacobians<A: Arithmetic>(
        &self,
        ops: &A,
        time: Time,
        pos: Vector<F::Frame>,
        vel: Vector<F::Frame>,
        free_params: Seq<F64>,
        n: int,
    ) -> KeteResult<Seq<Jacobians<F::Frame>>> where F: AnalyticForce<A>
        decreases n,
    {
        if n <= 0 {
            Ok(Seq::empty())
        } else {
            match self.all_jacobians(ops, time, pos, vel, free_params, n - 1) {
                Err(e) => Err(e),
                Ok(terms) => match self.forces@[n - 1].jacobians_value(
                    ops,
                    time,
                    pos,
                    vel,
                    part(self.forces@, free_params, n - 1),
                ) {
                    Err(e) => Err(e),
                    Ok(term) => Ok(terms.push(term)),
                },
            }
        }
    }

    /// The derivatives by the parameters of the first `n` forces, or the first fault.
    pub open spec fn all_columns<A: Arithmetic>(
        &self,
        ops: &A,
        time: Time,
        pos: Vector<F::Frame>,
        vel: Vector<F::Frame>,
        free_params: Seq<F64>,
        n: int,
    ) -> KeteResult<Seq<Vector<F::Frame>>> where F: AnalyticForce<A>
        decreases n,
    {
        if n <= 0 {
            Ok(Seq::empty())
        } else {
            match self.all_columns(ops, time, pos, vel, free_params, n - 1) {
                Err(e) => Err(e),
                Ok(columns) => match sum::block(
                    &self.forces@[n - 1],
                    ops,
                    time,
                    pos,
                    vel,
                    part(self.forces@, free_params, n - 1),
                ) {
                    Err(e) => Err(e),
                    Ok(more) => Ok(columns + more),
                },
            }
        }
    }

    /// A fault among the first forces is the fault of all.
    proof fn lemma_accels_fault<A: Arithmetic>(
        &self,
        ops: &A,
        time: Time,
        pos: Vector<F::Frame>,
        vel: Vector<F::Frame>,
        free_params: Seq<F64>,
        m: int,
        n: int,
    ) where F: Evaluate<A>
        requires
            0 <= m <= n,
            self.accels(ops, time, pos, vel, free_params, m) is Err,
        ensures
            self.accels(ops, time, pos, vel, free_params, n) == self.accels(
                ops,
                time,
                pos,
                vel,
                free_params,
                m,
            ),
        decreases n - m,
    {
        if m < n {
            self.lemma_accels_fault(ops, time, pos, vel, free_params, m, n - 1);
        }
    }

    /// A fault among the first forces is the fault of all.
    proof fn lemma_jacobians_fault<A: Arithmetic>(
        &self,
        ops: &A,
        time: Time,
        pos: Vector<F::Frame>,
        vel: Vector<F::Frame>,
        free_params: Seq<F64>,
        m: int,
        n: int,
    ) where F: AnalyticForce<A>
        requires
            0 <= m <= n,
            self.all_jacobians(ops, time, pos, vel, free_params, m) is Err,
        ensures
            self.all_jacobians(ops, time, pos, vel, free_params, n) == self.all_jacobians(
                ops,
                time,
                pos,
                vel,
                free_params,
                m,
            ),
        decreases n - m,
    {
        if m < n {
            self.lemma_jacobians_fault(ops, time, pos, vel, free_params, m, n - 1);
        }
    }

    /// A fault among the first forces is the fault of all.
    proof fn lemma_columns_fault<A: Arithmetic>(
        &self,
        ops: &A,
        time: Time,
        pos: Vector<F::Frame>,
        vel: Vector<F::Frame>,
        free_params: Seq<F64>,
        m: int,
        n: int,
    ) where F: AnalyticForce<A>
        requires
            0 <= m <= n,
            self.all_columns(ops, time, pos, vel, free_params, m) is Err,
        ensures
            self.all_columns(ops, time, pos, vel, free_params, n) == self.all_columns(
                ops,
                time,
                pos,
                vel,
                free_params,
                m,
            ),
        decreases n - m,
    {
        if m < n {
            self.lemma_columns_fault(ops, time, pos, vel, free_params, m, n - 1);
        }
    }

    /// There are as many columns as parameters.
    pub proof fn lemma_columns_len<A: Arithmetic>(
        &self,
        ops: &A,
        time: Time,
        pos: Vector<F::Frame>,
        vel: Vector<F::Frame>,
        free_params: Seq<F64>,
        n: int,
    ) where F: AnalyticForce<A>
        requires
            self.well_formed(),
            n <= self.forces@.len(),
        ensures
            self.all_columns(ops, time, pos, vel, free_params, n) matches Ok(c) ==> c.len()
                == offset(self.forces@, n),
        decreases n,
    {
        if n > 0 {
            self.lemma_columns_len(ops, time, pos, vel, free_params, n - 1);
            assert(self.forces@[n - 1].well_formed());
            self.forces@[n - 1].lemma_columns(
                ops,
                time,
                pos,
                vel,
                part(self.forces@, free_params, n - 1),
            );
        }
    }
}

impl<A: Arithmetic, F: Evaluate<A>> Evaluate<A> for ForceSet<F> {
    open spec fn accel_value(
        &self,
        ops: &A,
        time: Time,
        pos: Vector<F::Frame>,
        vel: Vector<F::Frame>,
        free_params: Seq<F64>,
    ) -> KeteResult<Vector<F::Frame>> {
        match params_fault(self.n_params(), free_params.len()) {
            Some(e) => Err(e),
            None => match self.accels(
                ops,
                time,
                pos,
                vel,
                free_params,
                self.forces@.len() as int,
            ) {
                Err(e) => Err(e),
                Ok(terms) => Ok(traits::total(ops, terms)),
            },
        }
    }

    fn accel(
        &self,
        ops: &A,
        time: Time,
        pos: Vector<F::Frame>,
        vel: Vector<F::Frame>,
        free_params: &[F64],
    ) -> KeteResult<Vector<F::Frame>> {
        match self.check_params(free_params) {
            Err(e) => {
                return Err(e);
            },
            Ok(_) => {},
        }
        let mut sum = CompensatedVector::zero();
        let mut start: usize = 0;
        let mut i: usize = 0;
        let ghost mut terms: Seq<Vector<F::Frame>> = Seq::empty();
        while i < self.forces.len()
            invariant
                ops.lawful(),
                self.well_formed(),
                self.accepts(free_params@.len()),
                params_fault(self.n_params(), free_params@.len()) is None,
                i <= self.forces@.len(),
                start == offset(self.forces@, i as int),
                self.accels(ops, time, pos, vel, free_params@, i as int) == Ok::<
                    Seq<Vector<F::Frame>>,
                    Error,
                >(terms),
                sum == traits::running_total(ops, terms),
            decreases self.forces@.len() - i,
        {
            proof {
                lemma_offset_grows(self.forces@, i as int + 1, self.forces@.len() as int);
                assert(self.forces@[i as int].well_formed());
            }
            let n = self.forces[i].n_free_params();
            let slice = inner_slice(&self.forces, free_params, i, start, n);
            match self.forces[i].accel(ops, time, pos, vel, slice) {
                Err(e) => {
                    proof {
                        self.lemma_accels_fault(
                            ops,
                            time,
                            pos,
                            vel,
                            free_params@,
                            i as int + 1,
                            self.forces@.len() as int,
                        );
                    }
                    return Err(e);
                },
                Ok(term) => {
                    sum.neumaier_add(ops, term);
                    proof {
                        assert(terms.push(term).drop_last() =~= terms);
                        terms = terms.push(term);
                    }
                },
            }
            start = start + n;
            i = i + 1;
        }
        Ok(sum.value(ops))
    }
}

impl<A: Arithmetic, F: AnalyticForce<A>> AnalyticForce<A> for ForceSet<F> {
    open spec fn jacobians_value(
        &self,
        ops: &A,
        time: Time,
        pos: Vector<F::Frame>,
        vel: Vector<F::Frame>,
        free_params: Seq<F64>,
    ) -> KeteResult<Jacobians<F::Frame>> {
        match params_fault(self.n_params(), free_params.len()) {
            Some(e) => Err(e),
            None => match self.all_jacobians(
                ops,
                time,
                pos,
                vel,
                free_params,
                self.forces@.len() as int,
            ) {
                Err(e) => Err(e),
                Ok(terms) => Ok(traits::running_jacobians(ops, terms).corrected(ops)),
            },
        }
    }

    open spec fn parameter_jacobian_value(
        &self,
        ops: &A,
        time: Time,
        pos: Vector<F::Frame>,
        vel: Vector<F::Frame>,
        free_params: Seq<F64>,
    ) -> KeteResult<Seq<Vector<F::Frame>>> {
        match params_fault(self.n_params(), free_params.len()) {
            Some(e) => Err(e),
            None => self.all_columns(ops, time, pos, vel, free_params, self.forces@.len() as int),
        }
    }

    proof fn lemma_columns(
        &self,
        ops: &A,
        time: Time,
        pos: Vector<F::Frame>,
        vel: Vector<F::Frame>,
        free_params: Seq<F64>,
    ) {
        self.lemma_columns_len(ops, time, pos, vel, free_params, self.forces@.len() as int);
    }

    fn jacobians(
        &self,
        ops: &A,
        time: Time,
        pos: Vector<F::Frame>,
        vel: Vector<F::Frame>,
        free_params: &[F64],
    ) -> KeteResult<Jacobians<F::Frame>> {
        match self.check_params(free_params) {
            Err(e) => {
                return Err(e);
            },
            Ok(_) => {},
        }
        let mut sum = CompensatedJacobians::zero();
        let mut start: usize = 0;
        let mut i: usize = 0;
        let ghost mut terms: Seq<Jacobians<F::Frame>> = Seq::empty();
        while i < self.forces.len()
            invariant
                ops.lawful(),
                self.well_formed(),
                self.accepts(free_params@.len()),
                params_fault(self.n_params(), free_params@.len()) is None,
                i <= self.forces@.len(),
                start == offset(self.forces@, i as int),
                self.all_jacobians(ops, time, pos, vel, free_params@, i as int) == Ok::<
                    Seq<Jacobians<F::Frame>>,
                    Error,
                >(terms),
                sum == traits::running_jacobians(ops, terms),
            decreases self.forces@.len() - i,
        {
            proof {
                lemma_offset_grows(self.forces@, i as int + 1, self.forces@.len() as int);
                assert(self.forces@[i as int].well_formed());
            }
            let n = self.forces[i].n_free_params();
            let slice = inner_slice(&self.forces, free_params, i, start, n);
            match self.forces[i].jacobians(ops, time, pos, vel, slice) {
                Err(e) => {
                    proof {
                        self.lemma_jacobians_fault(
                            ops,
                            time,
                            pos,
                            vel,
                            free_params@,
                            i as int + 1,
                            self.forces@.len() as int,
                        );
                    }
                    return Err(e);
                },
                Ok(term) => {
                    sum.neumaier_add(ops, term);
                    proof {
                        assert(terms.push(term).drop_last() =~= terms);
                        terms = terms.push(term);
                    }
                },
            }
            start = start + n;
            i = i + 1;
        }
        Ok(sum.value(ops))
    }

    fn parameter_jacobian(
        &self,
        ops: &A,
        time: Time,
        pos: Vector<F::Frame>,
        vel: Vector<F::Frame>,
        free_params: &[F64],
    ) -> KeteResult<Vec<Vector<F::Frame>>> {
        match self.check_params(free_params) {
            Err(e) => {
                return Err(e);
            },
            Ok(_) => {},
        }
        let mut columns: Vec<Vector<F::Frame>> = Vec::new();
        let mut start: usize = 0;
        let mut i: usize = 0;
        while i < self.forces.len()
            invariant
                ops.lawful(),
                self.well_formed(),
                self.accepts(free_params@.len()),
                params_fault(self.n_params(), free_params@.len()) is None,
                i <= self.forces@.len(),
                start == offset(self.forces@, i as int),
                self.all_columns(ops, time, pos, vel, free_params@, i as int) == Ok::<
                    Seq<Vector<F::Frame>>,
                    Error,
                >(columns@),
            decreases self.forces@.len() - i,
        {
            proof {
                lemma_offset_grows(self.forces@, i as int + 1, self.forces@.len() as int);
                assert(self.forces@[i as int].well_formed());
            }
            let n = self.forces[i].n_free_params();
            let slice = inner_slice(&self.forces, free_params, i, start, n);
            match sum::read_block(&self.forces[i], ops, time, pos, vel, slice) {
                Err(e) => {
                    proof {
                        self.lemma_columns_fault(
                            ops,
                            time,
                            pos,
                            vel,
                            free_params@,
                            i as int + 1,
                            self.forces@.len() as int,
                        );
                    }
                    return Err(e);
                },
                Ok(block) => {
                    let mut more = block;
                    columns.append(&mut more);
                },
            }
            start = start + n;
            i = i + 1;
        }
        Ok(columns)
    }
}

/// Nothing pulls where there are no forces.
pub proof fn law_empty_set<A: Arithmetic, F: Evaluate<A>>(
    set: ForceSet<F>,
    ops: &A,
    time: Time,
    pos: Vector<F::Frame>,
    vel: Vector<F::Frame>,
)
    requires
        set.forces@.len() == 0,
    ensures
        set.n_params() == 0,
        set.names() == Seq::<Seq<char>>::empty(),
        set.accel_value(ops, time, pos, vel, Seq::empty()) == Ok::<Vector<F::Frame>, Error>(
            CompensatedVector::nothing().corrected(ops),
        ),
{
    assert(set.accels(ops, time, pos, vel, Seq::empty(), 0) == Ok::<Seq<Vector<F::Frame>>, Error>(
        Seq::empty(),
    ));
}

} // verus!
