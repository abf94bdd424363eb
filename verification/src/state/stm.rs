//! How a state depends on where it started.
use crate::arithmetic;
use crate::arithmetic::Arithmetic;
use crate::constants;
use crate::errors::{Error, KeteResult, ValueFault};
use crate::exact;
use crate::float::F64;
use crate::forces::traits::{AnalyticForce, Evaluate, Jacobians};
use crate::frames;
use crate::frames::{InertialFrame, Vector};
use crate::integrators::ode;
use crate::integrators::ode::{Rule, SecondOrderOde};
use crate::integrators::radau;
use crate::integrators::radau::RadauIntegrator;
use crate::numbers;
use crate::physics::Motion;
use crate::rounding::{read, Reading};
use crate::state::uncertain;
use crate::table;
use crate::table::{Grid, Table};
use crate::time::Time;
use vstd::prelude::*;

verus! {

/// The vector at place `base` of a list of numbers.
pub open spec fn vector_at<T: InertialFrame>(v: Seq<F64>, base: int) -> Vector<T> {
    frames::vector(v[base], v[base + 1], v[base + 2])
}

/// The vector at place `base` of a list of numbers.
fn get_vector<T: InertialFrame>(v: &Vec<F64>, base: usize) -> (r: Vector<T>)
    requires
        base + 3 <= v@.len(),
    ensures
        r == vector_at::<T>(v@, base as int),
{
    let n: usize = v.len();
    Vector::of(v[base], v[base + 1], v[base + 2])
}

/// Component `i` of a vector.
pub open spec fn component<T: InertialFrame>(v: Vector<T>, i: int) -> F64 {
    if i == 0 {
        v.x
    } else if i == 1 {
        v.y
    } else {
        v.z
    }
}

/// How many numbers describe a vector, its derivatives by the position and the velocity at the
/// start, and its derivatives by `np` parameters.
pub open spec fn augmented_len(np: nat) -> nat {
    21 + 3 * np
}

/// The acceleration of column `j` of the derivatives of a position. The columns are the
/// derivatives by the three components of the position at the start, by those of the velocity,
/// and by the parameters.
pub open spec fn column_accel<A: Arithmetic, T: InertialFrame>(
    ops: &A,
    jac: Jacobians<T>,
    partials: Seq<Vector<T>>,
    pos: Seq<F64>,
    vel: Seq<F64>,
    j: int,
) -> Vector<T> {
    let carried = jac.pos.applied(ops, vector_at(pos, 3 + 3 * j)).sum(
        ops,
        jac.vel.applied(ops, vector_at(vel, 3 + 3 * j)),
    );
    if j < 6 {
        carried
    } else {
        carried.sum(ops, partials[j - 6])
    }
}

/// The acceleration of a position and of the first `n` columns of its derivatives, one after
/// the other.
pub open spec fn stacked<A: Arithmetic, T: InertialFrame>(
    ops: &A,
    accel: Vector<T>,
    jac: Jacobians<T>,
    partials: Seq<Vector<T>>,
    pos: Seq<F64>,
    vel: Seq<F64>,
    n: nat,
) -> Seq<F64>
    decreases n,
{
    if n == 0 {
        seq![accel.x, accel.y, accel.z]
    } else {
        let a = column_accel(ops, jac, partials, pos, vel, n - 1);
        stacked(ops, accel, jac, partials, pos, vel, (n - 1) as nat) + seq![a.x, a.y, a.z]
    }
}

/// There are three numbers for the acceleration and three for each column.
pub proof fn lemma_stacked<A: Arithmetic, T: InertialFrame>(
    ops: &A,
    accel: Vector<T>,
    jac: Jacobians<T>,
    partials: Seq<Vector<T>>,
    pos: Seq<F64>,
    vel: Seq<F64>,
    n: nat,
)
    ensures
        stacked(ops, accel, jac, partials, pos, vel, n).len() == 3 + 3 * n,
    decreases n,
{
    if n > 0 {
        lemma_stacked(ops, accel, jac, partials, pos, vel, (n - 1) as nat);
    }
}

/// Where the acceleration of the position and of column `j` stands.
proof fn lemma_stacked_column<A: Arithmetic, T: InertialFrame>(
    ops: &A,
    accel: Vector<T>,
    jac: Jacobians<T>,
    partials: Seq<Vector<T>>,
    pos: Seq<F64>,
    vel: Seq<F64>,
    n: nat,
    j: int,
)
    requires
        0 <= j < n,
    ensures
        vector_at::<T>(stacked(ops, accel, jac, partials, pos, vel, n), 0) == accel,
        vector_at::<T>(stacked(ops, accel, jac, partials, pos, vel, n), 3 + 3 * j) == column_accel(
            ops,
            jac,
            partials,
            pos,
            vel,
            j,
        ),
    decreases n,
{
    let m = (n - 1) as nat;
    lemma_stacked(ops, accel, jac, partials, pos, vel, m);
    if j < m {
        lemma_stacked_column(ops, accel, jac, partials, pos, vel, m, j);
    } else if m > 0 {
        lemma_stacked_column(ops, accel, jac, partials, pos, vel, m, 0);
    }
    let all = stacked(ops, accel, jac, partials, pos, vel, n);
    let some = stacked(ops, accel, jac, partials, pos, vel, m);
    assert(all.subrange(0, some.len() as int) =~= some);
    assert(forall|k: int| 0 <= k < some.len() ==> all[k] == some[k]);
}

/// A position under a force, with its derivatives by the state at the start and by the
/// parameters.
pub struct Variational<'a, A, F> {
    /// The arithmetic.
    pub ops: &'a A,
    /// The force.
    pub force: &'a F,
    /// The values of its parameters.
    pub params: &'a Vec<F64>,
}

/// The derivatives of a force by its parameters, which are not asked for where there are none.
pub open spec fn partials<A: Arithmetic, F: AnalyticForce<A>>(
    ops: &A,
    force: &F,
    params: Seq<F64>,
    t: Time,
    pos: Vector<F::Frame>,
    vel: Vector<F::Frame>,
) -> KeteResult<Seq<Vector<F::Frame>>> {
    if params.len() == 0 {
        Ok(Seq::empty())
    } else {
        force.parameter_jacobian_value(ops, t, pos, vel, params)
    }
}

/// The acceleration of a position under a force and of its derivatives.
pub open spec fn variational_accel<A: Arithmetic, F: AnalyticForce<A>>(
    ops: &A,
    force: &F,
    params: Seq<F64>,
    t: Time,
    pos: Seq<F64>,
    vel: Seq<F64>,
) -> KeteResult<Seq<F64>> {
    let p = vector_at(pos, 0);
    let v = vector_at(vel, 0);
    let np = params.len();
    if pos.len() != augmented_len(np) || vel.len() != augmented_len(np) {
        Err(Error::ValueError(ValueFault::LengthMismatch))
    } else {
        match force.accel_value(ops, t, p, v, params) {
            Err(e) => Err(e),
            Ok(accel) => match force.jacobians_value(ops, t, p, v, params) {
                Err(e) => Err(e),
                Ok(jac) => match partials(ops, force, params, t, p, v) {
                    Err(e) => Err(e),
                    Ok(partials) => Ok(stacked(ops, accel, jac, partials, pos, vel, 6 + np)),
                },
            },
        }
    }
}

/// The rule by which a position under a force moves together with its derivatives.
pub open spec fn variational<A: Arithmetic, F: AnalyticForce<A>>(
    ops: &A,
    force: &F,
    params: Seq<F64>,
) -> Rule<()> {
    |t: Time, pos: Seq<F64>, vel: Seq<F64>, note: (), exact: bool|
        (variational_accel(ops, force, params, t, pos, vel), ())
}

/// The acceleration of a position under a force.
pub open spec fn moving_accel<A: Arithmetic, F: Evaluate<A>>(
    ops: &A,
    force: &F,
    params: Seq<F64>,
    t: Time,
    pos: Seq<F64>,
    vel: Seq<F64>,
) -> KeteResult<Seq<F64>> {
    if pos.len() != 3 || vel.len() != 3 {
        Err(Error::ValueError(ValueFault::LengthMismatch))
    } else {
        match force.accel_value(ops, t, vector_at(pos, 0), vector_at(vel, 0), params) {
            Err(e) => Err(e),
            Ok(a) => Ok(seq![a.x, a.y, a.z]),
        }
    }
}

/// The rule by which a position under a force moves.
pub open spec fn moving<A: Arithmetic, F: Evaluate<A>>(
    ops: &A,
    force: &F,
    params: Seq<F64>,
) -> Rule<()> {
    |t: Time, pos: Seq<F64>, vel: Seq<F64>, note: (), exact: bool|
        (moving_accel(ops, force, params, t, pos, vel), ())
}

impl<'a, A: Arithmetic, F: AnalyticForce<A>> SecondOrderOde<()> for Variational<'a, A, F> {
    open spec fn lawful(&self) -> bool {
        &&& self.ops.lawful()
        &&& self.force.well_formed()
        &&& self.force.accepts(self.params@.len())
        &&& self.params@.len() == self.force.n_params()
        &&& augmented_len(self.params@.len()) <= usize::MAX
    }

    open spec fn value(&self, t: Time, pos: Seq<F64>, vel: Seq<F64>, note: (), exact: bool) -> (
        KeteResult<Seq<F64>>,
        (),
    ) {
        (variational_accel(self.ops, self.force, self.params@, t, pos, vel), ())
    }

    proof fn lemma_length(&self, t: Time, pos: Seq<F64>, vel: Seq<F64>, note: (), exact: bool) {
        let p = vector_at(pos, 0);
        let v = vector_at(vel, 0);
        let np = self.params@.len();
        if let Ok(accel) = self.force.accel_value(self.ops, t, p, v, self.params@) {
            if let Ok(jac) = self.force.jacobians_value(self.ops, t, p, v, self.params@) {
                if let Ok(found) = partials(self.ops, self.force, self.params@, t, p, v) {
                    lemma_stacked(self.ops, accel, jac, found, pos, vel, 6 + np);
                }
            }
        }
    }

    fn eval(&self, t: Time, pos: &Vec<F64>, vel: &Vec<F64>, note: (), exact: bool) -> (
        KeteResult<Vec<F64>>,
        (),
    ) {
        let np = self.params.len();
        let dim: usize = 21 + 3 * np;
        if pos.len() != dim {
            return (Err(Error::ValueError(ValueFault::LengthMismatch)), ());
        }
        let p = get_vector(pos, 0);
        let v = get_vector(vel, 0);
        let accel = match self.force.accel(self.ops, t, p, v, self.params.as_slice()) {
            Err(e) => {
                return (Err(e), ());
            },
            Ok(a) => a,
        };
        let jac = match self.force.jacobians(self.ops, t, p, v, self.params.as_slice()) {
            Err(e) => {
                return (Err(e), ());
            },
            Ok(j) => j,
        };
        let partials: Vec<Vector<F::Frame>> = if np == 0 {
            Vec::new()
        } else {
            proof {
                self.force.lemma_columns(self.ops, t, p, v, self.params@);
            }
            match self.force.parameter_jacobian(self.ops, t, p, v, self.params.as_slice()) {
                Err(e) => {
                    return (Err(e), ());
                },
                Ok(c) => c,
            }
        };
        let mut r: Vec<F64> = vec![accel.x, accel.y, accel.z];
        assert(r@ =~= stacked(self.ops, accel, jac, partials@, pos@, vel@, 0));
        assert(np == 0 ==> partials@ =~= Seq::empty());
        let mut j: usize = 0;
        while j < 6 + np
            invariant
                self.lawful(),
                np == self.params@.len(),
                dim == 21 + 3 * np,
                pos@.len() == dim,
                vel@.len() == dim,
                partials@.len() == np,
                j <= 6 + np,
                r@ == stacked(self.ops, accel, jac, partials@, pos@, vel@, j as nat),
                r@.len() == 3 + 3 * j,
            decreases 6 + np - j,
        {
            let base: usize = 3 + 3 * j;
            let s = get_vector(pos, base);
            let s_dot = get_vector(vel, base);
            let mut a = jac.pos.apply(self.ops, s).plus(
                self.ops,
                jac.vel.apply(self.ops, s_dot),
            );
            if j >= 6 {
                a = a.plus(self.ops, partials[j - 6]);
            }
            let ghost before = r@;
            r.push(a.x);
            r.push(a.y);
            r.push(a.z);
            assert(r@ =~= before + seq![a.x, a.y, a.z]);
            j = j + 1;
        }
        (Ok(r), ())
    }
}

/// A position under a force.
pub struct Moving<'a, A, F> {
    /// The arithmetic.
    pub ops: &'a A,
    /// The force.
    pub force: &'a F,
    /// The values of its parameters.
    pub params: &'a Vec<F64>,
}

impl<'a, A: Arithmetic, F: Evaluate<A>> SecondOrderOde<()> for Moving<'a, A, F> {
    open spec fn lawful(&self) -> bool {
        &&& self.ops.lawful()
        &&& self.force.well_formed()
        &&& self.force.accepts(self.params@.len())
    }

    open spec fn value(&self, t: Time, pos: Seq<F64>, vel: Seq<F64>, note: (), exact: bool) -> (
        KeteResult<Seq<F64>>,
        (),
    ) {
        (moving_accel(self.ops, self.force, self.params@, t, pos, vel), ())
    }

    proof fn lemma_length(&self, t: Time, pos: Seq<F64>, vel: Seq<F64>, note: (), exact: bool) {
    }

    fn eval(&self, t: Time, pos: &Vec<F64>, vel: &Vec<F64>, note: (), exact: bool) -> (
        KeteResult<Vec<F64>>,
        (),
    ) {
        if pos.len() != 3 {
            return (Err(Error::ValueError(ValueFault::LengthMismatch)), ());
        }
        let p = get_vector(pos, 0);
        let v = get_vector(vel, 0);
        match self.force.accel(self.ops, t, p, v, self.params.as_slice()) {
            Err(e) => (Err(e), ()),
            Ok(a) => {
                let r = vec![a.x, a.y, a.z];
                assert(r@ =~= seq![a.x, a.y, a.z]);
                (Ok(r), ())
            },
        }
    }
}

/// What an augmented position starts with: the position, the identity as its derivative by
/// itself, and zeros.
pub open spec fn start_pos<T: InertialFrame>(pos: Vector<T>, np: nat) -> Seq<F64> {
    Seq::new(
        augmented_len(np),
        |k: int|
            if k < 3 {
                component(pos, k)
            } else if k == 3 || k == 7 || k == 11 {
                F64 { bits: constants::ONE }
            } else {
                F64 { bits: constants::ZERO }
            },
    )
}

/// What an augmented velocity starts with: the velocity, the identity as its derivative by
/// itself, and zeros.
pub open spec fn start_vel<T: InertialFrame>(vel: Vector<T>, np: nat) -> Seq<F64> {
    Seq::new(
        augmented_len(np),
        |k: int|
            if k < 3 {
                component(vel, k)
            } else if k == 12 || k == 16 || k == 20 {
                F64 { bits: constants::ONE }
            } else {
                F64 { bits: constants::ZERO }
            },
    )
}

/// The numbers an augmented vector starts with, with ones at three places.
fn start<T: InertialFrame>(v: Vector<T>, np: usize, a: usize, b: usize, c: usize) -> (r: Vec<F64>)
    requires
        augmented_len(np as nat) <= usize::MAX,
        3 <= a,
        3 <= b,
        3 <= c,
    ensures
        r@ == Seq::new(
            augmented_len(np as nat),
            |k: int|
                if k < 3 {
                    component(v, k)
                } else if k == a || k == b || k == c {
                    F64 { bits: constants::ONE }
                } else {
                    F64 { bits: constants::ZERO }
                },
        ),
{
    let dim: usize = 21 + 3 * np;
    let mut r: Vec<F64> = vec![v.x, v.y, v.z];
    let ghost want = Seq::new(
        augmented_len(np as nat),
        |k: int|
            if k < 3 {
                component(v, k)
            } else if k == a || k == b || k == c {
                F64 { bits: constants::ONE }
            } else {
                F64 { bits: constants::ZERO }
            },
    );
    assert(r@ =~= want.take(3));
    let mut k: usize = 3;
    while k < dim
        invariant
            3 <= k <= dim,
            want.len() == dim,
            want == Seq::new(
                augmented_len(np as nat),
                |k: int|
                    if k < 3 {
                        component(v, k)
                    } else if k == a || k == b || k == c {
                        F64 { bits: constants::ONE }
                    } else {
                        F64 { bits: constants::ZERO }
                    },
            ),
            r@ == want.take(k as int),
        decreases dim - k,
    {
        if k == a || k == b || k == c {
            r.push(F64::from_bits(constants::ONE));
        } else {
            r.push(F64::from_bits(constants::ZERO));
        }
        k = k + 1;
        assert(r@ =~= want.take(k as int));
    }
    assert(r@ =~= want);
    r
}

/// The derivatives of position and velocity, by the state at the start and by the parameters,
/// from the augmented position and velocity.
pub open spec fn sensitivity(pos: Seq<F64>, vel: Seq<F64>, np: nat) -> Grid {
    table::grid(
        6,
        6 + np,
        |i: int, j: int|
            if i < 3 {
                pos[3 + 3 * j + i]
            } else {
                vel[3 + 3 * j + i - 3]
            },
    )
}

/// A final state and how it depends on the one at the start, as numbers.
#[verifier::ext_equal]
pub struct Reached<T: InertialFrame> {
    pub at: Motion<T>,
    pub sens: Grid,
}

/// A final state and how it depends on the one at the start.
#[derive(Debug)]
pub struct Stm<T: InertialFrame> {
    /// The state.
    pub at: Motion<T>,
    /// The derivatives of position and velocity by the position, the velocity and the
    /// parameters at the start.
    pub sens: Table,
}

impl<T: InertialFrame> View for Stm<T> {
    type V = Reached<T>;

    open spec fn view(&self) -> Reached<T> {
        Reached { at: self.at, sens: self.sens@ }
    }
}

/// A final state as numbers, where there is one.
pub open spec fn reached<T: InertialFrame>(r: KeteResult<Option<Stm<T>>>) -> KeteResult<
    Option<Reached<T>>,
> {
    match r {
        Err(e) => Err(e),
        Ok(None) => Ok(None),
        Ok(Some(s)) => Ok(Some(s@)),
    }
}

/// Where a state goes under a force, and how that depends on where it starts. `None` stands for
/// an integration which is not at its end after `max_steps` steps.
pub open spec fn propagated<A: Arithmetic, F: AnalyticForce<A>>(
    ops: &A,
    force: &F,
    from: Motion<F::Frame>,
    params: Seq<F64>,
    start: Time,
    goal: Time,
    max_steps: nat,
) -> KeteResult<Option<Reached<F::Frame>>> {
    let np = params.len();
    match radau::integrated(
        ops,
        variational(ops, force, params),
        start_pos(from.pos, np),
        start_vel(from.vel, np),
        start,
        goal,
        (),
        Some(3),
        max_steps,
    ).0 {
        Err(e) => Err(e),
        Ok(None) => Ok(None),
        Ok(Some((p, v))) => Ok(
            Some(
                Reached {
                    at: Motion { pos: vector_at(p, 0), vel: vector_at(v, 0) },
                    sens: sensitivity(p, v, np),
                },
            ),
        ),
    }
}

/// Propagate a state under a force, together with its dependence on where it started.
pub fn propagate_with_stm<A: Arithmetic, F: AnalyticForce<A>>(
    ops: &A,
    force: &F,
    from: Motion<F::Frame>,
    free_params: &Vec<F64>,
    start_time: Time,
    goal: Time,
    max_steps: u64,
) -> (r: KeteResult<Option<Stm<F::Frame>>>)
    requires
        ops.lawful(),
        force.well_formed(),
        force.accepts(free_params@.len()),
        free_params@.len() == force.n_params(),
        augmented_len(free_params@.len()) <= usize::MAX,
    ensures
        reached(r) == propagated(
            ops,
            force,
            from,
            free_params@,
            start_time,
            goal,
            max_steps as nat,
        ),
        r matches Ok(Some(s)) ==> {
            &&& s.sens@.well_formed()
            &&& s.sens@.nrows == 6
            &&& s.sens@.ncols == 6 + free_params@.len()
        },
{
    let np = free_params.len();
    let ode = Variational { ops, force, params: free_params };
    assert(ode::rule(&ode) =~= variational(ops, force, free_params@));
    let pos = start(from.pos, np, 3, 7, 11);
    let vel = start(from.vel, np, 12, 16, 20);
    assert(pos@ =~= start_pos(from.pos, np as nat));
    assert(vel@ =~= start_vel(from.vel, np as nat));
    let (end, _) = RadauIntegrator::integrate(
        ops,
        &ode,
        &pos,
        &vel,
        start_time,
        goal,
        (),
        Some(3),
        max_steps,
    );
    match end {
        Err(e) => Err(e),
        Ok(None) => Ok(None),
        Ok(Some(there)) => {
            let n: usize = 6 + np;
            let p = there.pos;
            let v = there.vel;
            let f = |i: usize, j: usize| -> (r: F64)
                requires
                    table::inside(i, j, 6, n),
                    n == 6 + np,
                    21 + 3 * np <= usize::MAX,
                    p@.len() == 21 + 3 * np,
                    v@.len() == 21 + 3 * np,
                ensures
                    r == (if i < 3 {
                        p@[3 + 3 * j + i]
                    } else {
                        v@[3 + 3 * j + i - 3]
                    }),
            {
                if i < 3 {
                    p[3 + 3 * j + i]
                } else {
                    v[3 * j + i]
                }
            };
            let sens = table::build(
                6,
                n,
                f,
                Ghost(
                    |i: int, j: int|
                        if i < 3 {
                            p@[3 + 3 * j + i]
                        } else {
                            v@[3 + 3 * j + i - 3]
                        },
                ),
            );
            let at = Motion { pos: get_vector(&p, 0), vel: get_vector(&v, 0) };
            Ok(Some(Stm { at, sens }))
        },
    }
}

/// The derivatives with rows for the parameters, which stay as they are.
pub open spec fn augmented(sens: Grid) -> Grid {
    table::grid(
        sens.ncols,
        sens.ncols,
        |i: int, j: int|
            if i < 6 {
                sens.at(i, j)
            } else if i == j {
                F64 { bits: constants::ONE }
            } else {
                F64 { bits: constants::ZERO }
            },
    )
}

/// The derivatives with rows for the parameters.
pub fn augment(sens: &Table) -> (r: Table)
    requires
        sens@.well_formed(),
        sens.nrows == 6,
    ensures
        r@ == augmented(sens@),
        r@.well_formed(),
{
    let n: usize = sens.ncols;
    let f = |i: usize, j: usize| -> (r: F64)
        requires
            table::inside(i, j, n, n),
            sens@.well_formed(),
            sens.nrows == 6,
            sens.ncols == n,
        ensures
            r == (if i < 6 {
                sens@.at(i as int, j as int)
            } else if i == j {
                F64 { bits: constants::ONE }
            } else {
                F64 { bits: constants::ZERO }
            }),
    {
        if i < 6 {
            sens.get(i, j)
        } else if i == j {
            F64::from_bits(constants::ONE)
        } else {
            F64::from_bits(constants::ZERO)
        }
    };
    table::build(
        n,
        n,
        f,
        Ghost(
            |i: int, j: int|
                if i < 6 {
                    sens@.at(i, j)
                } else if i == j {
                    F64 { bits: constants::ONE }
                } else {
                    F64 { bits: constants::ZERO }
                },
        ),
    )
}

/// The covariance after a propagation.
pub open spec fn updated<A: Arithmetic>(ops: &A, sens: Grid, cov: Grid) -> Grid {
    augmented(sens).multiplied(ops, cov).multiplied(ops, augmented(sens).transposed())
}

/// The covariance after a propagation, by the derivatives of the final state.
pub fn covariance_update<A: Arithmetic>(ops: &A, sensitivity: &Table, cov_old: &Table) -> (r: Table)
    requires
        ops.lawful(),
        sensitivity@.well_formed(),
        sensitivity.nrows == 6,
        sensitivity.ncols >= 6,
        cov_old@.well_formed(),
        cov_old.nrows == sensitivity.ncols,
        cov_old.ncols == sensitivity.ncols,
    ensures
        r@ == updated(ops, sensitivity@, cov_old@),
        r@.well_formed(),
        r@.nrows == cov_old@.nrows,
        r@.ncols == cov_old@.nrows,
{
    let phi = augment(sensitivity);
    phi.multiply(ops, cov_old).multiply(ops, &phi.transpose())
}

/// A final state with its covariance, as numbers.
#[verifier::ext_equal]
pub struct Spread<T: InertialFrame> {
    pub at: Motion<T>,
    pub cov: Grid,
}

/// A final state with its covariance.
#[derive(Debug)]
pub struct Covered<T: InertialFrame> {
    /// The state.
    pub at: Motion<T>,
    /// The covariance.
    pub cov: Table,
}

impl<T: InertialFrame> View for Covered<T> {
    type V = Spread<T>;

    open spec fn view(&self) -> Spread<T> {
        Spread { at: self.at, cov: self.cov@ }
    }
}

/// Propagate a state and its covariance under a force.
pub fn propagate_with_covariance<A: Arithmetic, F: AnalyticForce<A>>(
    ops: &A,
    force: &F,
    from: Motion<F::Frame>,
    cov_init: &Table,
    free_params: &Vec<F64>,
    start_time: Time,
    goal: Time,
    max_steps: u64,
) -> (r: KeteResult<Option<Covered<F::Frame>>>)
    requires
        ops.lawful(),
        force.well_formed(),
        uncertain::covers(cov_init@, free_params@.len()) ==> force.accepts(free_params@.len())
            && free_params@.len() == force.n_params(),
        augmented_len(free_params@.len()) <= usize::MAX,
        cov_init@.well_formed(),
    ensures
        ({
            let end = propagated(
                ops,
                force,
                from,
                free_params@,
                start_time,
                goal,
                max_steps as nat,
            );
            if !uncertain::covers(cov_init@, free_params@.len()) {
                r == Err::<Option<Covered<F::Frame>>, Error>(
                    uncertain::shape_fault(cov_init@, free_params@.len()),
                )
            } else {
                match end {
                    Err(e) => r == Err::<Option<Covered<F::Frame>>, Error>(e),
                    Ok(None) => r == Ok::<Option<Covered<F::Frame>>, Error>(None),
                    Ok(Some(s)) => r is Ok && r->Ok_0 is Some && r->Ok_0->Some_0@ == (Spread {
                        at: s.at,
                        cov: updated(ops, s.sens, cov_init@),
                    }),
                }
            }
        }),
{
    let size: usize = 6 + free_params.len();
    if cov_init.nrows != size || cov_init.ncols != size {
        return Err(
            Error::ValueError(
                ValueFault::CovarianceShape {
                    size,
                    rows: cov_init.nrows,
                    columns: cov_init.ncols,
                },
            ),
        );
    }
    match propagate_with_stm(ops, force, from, free_params, start_time, goal, max_steps) {
        Err(e) => Err(e),
        Ok(None) => Ok(None),
        Ok(Some(s)) => {
            let cov = covariance_update(ops, &s.sens, cov_init);
            Ok(Some(Covered { at: s.at, cov }))
        },
    }
}

/// Where a state goes under a force. `None` stands for an integration which is not at its end
/// after `max_steps` steps.
pub open spec fn moved<A: Arithmetic, F: Evaluate<A>>(
    ops: &A,
    force: &F,
    from: Motion<F::Frame>,
    params: Seq<F64>,
    start: Time,
    goal: Time,
    max_steps: nat,
) -> KeteResult<Option<Motion<F::Frame>>> {
    match radau::integrated(
        ops,
        moving(ops, force, params),
        seq![from.pos.x, from.pos.y, from.pos.z],
        seq![from.vel.x, from.vel.y, from.vel.z],
        start,
        goal,
        (),
        None,
        max_steps,
    ).0 {
        Err(e) => Err(e),
        Ok(None) => Ok(None),
        Ok(Some((p, v))) => Ok(Some(Motion { pos: vector_at(p, 0), vel: vector_at(v, 0) })),
    }
}

/// Propagate a state under a force.
pub fn propagate_state<A: Arithmetic, F: Evaluate<A>>(
    ops: &A,
    force: &F,
    from: Motion<F::Frame>,
    free_params: &Vec<F64>,
    start_time: Time,
    goal: Time,
    max_steps: u64,
) -> (r: KeteResult<Option<Motion<F::Frame>>>)
    requires
        ops.lawful(),
        force.well_formed(),
        force.accepts(free_params@.len()),
    ensures
        r == moved(ops, force, from, free_params@, start_time, goal, max_steps as nat),
{
    let ode = Moving { ops, force, params: free_params };
    assert(ode::rule(&ode) =~= moving(ops, force, free_params@));
    let pos = vec![from.pos.x, from.pos.y, from.pos.z];
    let vel = vec![from.vel.x, from.vel.y, from.vel.z];
    assert(pos@ =~= seq![from.pos.x, from.pos.y, from.pos.z]);
    assert(vel@ =~= seq![from.vel.x, from.vel.y, from.vel.z]);
    let (end, _) = RadauIntegrator::integrate(
        ops,
        &ode,
        &pos,
        &vel,
        start_time,
        goal,
        (),
        None,
        max_steps,
    );
    match end {
        Err(e) => Err(e),
        Ok(None) => Ok(None),
        Ok(Some(there)) => Ok(
            Some(Motion { pos: get_vector(&there.pos, 0), vel: get_vector(&there.vel, 0) }),
        ),
    }
}

/// Are the operations exact by which the acceleration of column `j` is found.
pub open spec fn exact_column<A: Arithmetic, T: InertialFrame>(
    ops: &A,
    v: Reading,
    jac: Jacobians<T>,
    s: Vector<T>,
    s_dot: Vector<T>,
) -> bool {
    &&& exact::applies(ops, v, jac.pos, s)
    &&& exact::applies(ops, v, jac.vel, s_dot)
    &&& exact::sums(ops, v, jac.pos.applied(ops, s), jac.vel.applied(ops, s_dot))
}

/// The derivative of a position by something at the start obeys the linearised force: its
/// acceleration is the derivative of the acceleration by the position and by the velocity,
/// applied to it and to its rate. The derivative by parameter `k` is driven as well by the
/// derivative of the acceleration by that parameter, and by no other.
pub proof fn law_columns_follow_the_force<A: Arithmetic, F: AnalyticForce<A>>(
    ops: &A,
    v: Reading,
    force: &F,
    params: Seq<F64>,
    t: Time,
    pos: Seq<F64>,
    vel: Seq<F64>,
    j: int,
    accel: Vector<F::Frame>,
    jac: Jacobians<F::Frame>,
    by_params: Seq<Vector<F::Frame>>,
)
    requires
        0 <= j < 6 + params.len(),
        pos.len() == augmented_len(params.len()),
        vel.len() == augmented_len(params.len()),
        force.accel_value(ops, t, vector_at(pos, 0), vector_at(vel, 0), params) == Ok::<
            Vector<F::Frame>,
            Error,
        >(accel),
        force.jacobians_value(ops, t, vector_at(pos, 0), vector_at(vel, 0), params) == Ok::<
            Jacobians<F::Frame>,
            Error,
        >(jac),
        params.len() > 0 ==> force.parameter_jacobian_value(
            ops,
            t,
            vector_at(pos, 0),
            vector_at(vel, 0),
            params,
        ) == Ok::<Seq<Vector<F::Frame>>, Error>(by_params),
        exact_column(ops, v, jac, vector_at(pos, 3 + 3 * j), vector_at(vel, 3 + 3 * j)),
        j >= 6 ==> exact::sums(
            ops,
            v,
            jac.pos.applied(ops, vector_at(pos, 3 + 3 * j)).sum(
                ops,
                jac.vel.applied(ops, vector_at(vel, 3 + 3 * j)),
            ),
            by_params[j - 6],
        ),
    ensures
        ({
            let r = variational_accel(ops, force, params, t, pos, vel);
            let s = read(v, vector_at::<F::Frame>(pos, 3 + 3 * j));
            let s_dot = read(v, vector_at::<F::Frame>(vel, 3 + 3 * j));
            let driven = if j < 6 {
                exact::nothing()
            } else {
                read(v, by_params[j - 6])
            };
            &&& r is Ok
            &&& r->Ok_0.len() == augmented_len(params.len())
            &&& vector_at::<F::Frame>(r->Ok_0, 0) == accel
            &&& read(v, vector_at::<F::Frame>(r->Ok_0, 3 + 3 * j)) == exact::plus(
                exact::plus(exact::mapped(v, jac.pos, s), exact::mapped(v, jac.vel, s_dot)),
                driven,
            )
        }),
{
    let n = 6 + params.len();
    let found = if params.len() == 0 {
        Seq::empty()
    } else {
        by_params
    };
    lemma_stacked(ops, accel, jac, found, pos, vel, n);
    lemma_stacked_column(ops, accel, jac, found, pos, vel, n, j);
}

/// A parameter on which the force does not depend has no effect: its derivative, which starts as
/// zero at rest, is not accelerated.
pub proof fn law_unused_parameter_has_no_effect<A: Arithmetic, F: AnalyticForce<A>>(
    ops: &A,
    v: Reading,
    force: &F,
    params: Seq<F64>,
    t: Time,
    pos: Seq<F64>,
    vel: Seq<F64>,
    k: int,
    accel: Vector<F::Frame>,
    jac: Jacobians<F::Frame>,
    by_params: Seq<Vector<F::Frame>>,
)
    requires
        0 <= k < params.len(),
        pos.len() == augmented_len(params.len()),
        vel.len() == augmented_len(params.len()),
        force.accel_value(ops, t, vector_at(pos, 0), vector_at(vel, 0), params) == Ok::<
            Vector<F::Frame>,
            Error,
        >(accel),
        force.jacobians_value(ops, t, vector_at(pos, 0), vector_at(vel, 0), params) == Ok::<
            Jacobians<F::Frame>,
            Error,
        >(jac),
        force.parameter_jacobian_value(ops, t, vector_at(pos, 0), vector_at(vel, 0), params)
            == Ok::<Seq<Vector<F::Frame>>, Error>(by_params),
        read(v, by_params[k]) == exact::nothing(),
        read(v, vector_at::<F::Frame>(pos, 21 + 3 * k)) == exact::nothing(),
        read(v, vector_at::<F::Frame>(vel, 21 + 3 * k)) == exact::nothing(),
        exact_column(ops, v, jac, vector_at(pos, 21 + 3 * k), vector_at(vel, 21 + 3 * k)),
        exact::sums(
            ops,
            v,
            jac.pos.applied(ops, vector_at(pos, 21 + 3 * k)).sum(
                ops,
                jac.vel.applied(ops, vector_at(vel, 21 + 3 * k)),
            ),
            by_params[k],
        ),
    ensures
        ({
            let r = variational_accel(ops, force, params, t, pos, vel);
            &&& r is Ok
            &&& read(v, vector_at::<F::Frame>(r->Ok_0, 21 + 3 * k)) == exact::nothing()
        }),
{
    law_columns_follow_the_force(
        ops,
        v,
        force,
        params,
        t,
        pos,
        vel,
        6 + k,
        accel,
        jac,
        by_params,
    );
    exact::lemma_mapped_nothing(v, jac.pos);
    exact::lemma_mapped_nothing(v, jac.vel);
}

/// The derivatives by one quantity at the start stand in one column: first those of the position,
/// then those of the velocity.
pub proof fn law_columns_of_the_sensitivity<T: InertialFrame>(
    pos: Seq<F64>,
    vel: Seq<F64>,
    np: nat,
    j: int,
)
    requires
        pos.len() == augmented_len(np),
        vel.len() == augmented_len(np),
        0 <= j < 6 + np,
    ensures
        ({
            let s = sensitivity(pos, vel, np);
            &&& s.nrows == 6 && s.ncols == 6 + np
            &&& vector_at::<T>(pos, 3 + 3 * j) == frames::vector::<T>(
                s.at(0, j),
                s.at(1, j),
                s.at(2, j),
            )
            &&& vector_at::<T>(vel, 3 + 3 * j) == frames::vector::<T>(
                s.at(3, j),
                s.at(4, j),
                s.at(5, j),
            )
        }),
{
}

/// A position moves by the acceleration which the force gives for the same moment, the same position
/// and the same velocity.
pub proof fn law_moves_by_the_force<A: Arithmetic, F: Evaluate<A>>(
    ops: &A,
    force: &F,
    params: Seq<F64>,
    t: Time,
    pos: Vector<F::Frame>,
    vel: Vector<F::Frame>,
)
    ensures
        match force.accel_value(ops, t, pos, vel, params) {
            Err(e) => moving_accel(
                ops,
                force,
                params,
                t,
                seq![pos.x, pos.y, pos.z],
                seq![vel.x, vel.y, vel.z],
            ) == Err::<Seq<F64>, Error>(e),
            Ok(a) => moving_accel(
                ops,
                force,
                params,
                t,
                seq![pos.x, pos.y, pos.z],
                seq![vel.x, vel.y, vel.z],
            ) == Ok::<Seq<F64>, Error>(seq![a.x, a.y, a.z]),
        },
{
    let (p, v) = (seq![pos.x, pos.y, pos.z], seq![vel.x, vel.y, vel.z]);
    assert(vector_at::<F::Frame>(p, 0) == pos);
    assert(vector_at::<F::Frame>(v, 0) == vel);
}

/// At the start a position depends on each of its own components as on itself and on nothing else,
/// and a velocity likewise.
pub proof fn law_start_is_identity<T: InertialFrame>(at: Motion<T>, np: nat, i: int, j: int)
    requires
        0 <= i < 6,
        0 <= j < 6 + np,
    ensures
        sensitivity(start_pos(at.pos, np), start_vel(at.vel, np), np).at(i, j) == (if i == j {
            F64 { bits: constants::ONE }
        } else {
            F64 { bits: constants::ZERO }
        }),
        vector_at::<T>(start_pos(at.pos, np), 0) == at.pos,
        vector_at::<T>(start_vel(at.vel, np), 0) == at.vel,
{
}

/// How the quantity `i` at the end depends on the quantity `k` at the start, where the parameters
/// stay as they are.
pub open spec fn dependence(v: Reading, sens: Grid, i: int, k: int) -> real {
    if i < 6 {
        v(sens.at(i, k))
    } else if i == k {
        1real
    } else {
        0real
    }
}

/// Are the operations exact by which the covariance of the quantities `i` and `j` is found.
pub open spec fn exact_update<A: Arithmetic>(
    ops: &A,
    v: Reading,
    sens: Grid,
    cov: Grid,
    i: int,
    j: int,
) -> bool {
    let n = sens.ncols;
    let phi = augmented(sens);
    let half = phi.multiplied(ops, cov);
    &&& v(F64 { bits: constants::ONE }) == 1real
    &&& v(F64 { bits: constants::ZERO }) == 0real
    &&& exact::dots_up(
        ops,
        v,
        half.cells[i],
        numbers::column(phi.transposed().cells, j),
        n,
    )
    &&& forall|l: int|
        0 <= l < n ==> exact::dots_up(
            ops,
            v,
            phi.cells[i],
            #[trigger] numbers::column(cov.cells, l),
            n,
        )
}

/// The covariance of two quantities at the end is made up of the covariances of all pairs of
/// quantities at the start, each weighted by how the two depend on the pair.
pub proof fn law_covariance_is_carried<A: Arithmetic>(
    ops: &A,
    v: Reading,
    sens: Grid,
    cov: Grid,
    i: int,
    j: int,
)
    requires
        sens.well_formed(),
        sens.nrows == 6,
        sens.ncols >= 6,
        cov.well_formed(),
        cov.nrows == sens.ncols,
        cov.ncols == sens.ncols,
        0 <= i < sens.ncols,
        0 <= j < sens.ncols,
        exact_update(ops, v, sens, cov, i, j),
    ensures
        v(updated(ops, sens, cov).at(i, j)) == exact::total(
            |l: int|
                exact::total(
                    |k: int| dependence(v, sens, i, k) * v(cov.at(k, l)),
                    sens.ncols,
                ) * dependence(v, sens, j, l),
            sens.ncols,
        ),
{
    let n = sens.ncols;
    let phi = augmented(sens);
    let half = phi.multiplied(ops, cov);
    let back = numbers::column(phi.transposed().cells, j);
    exact::lemma_dots_up(ops, v, half.cells[i], back, n);
    let f = |l: int| v(half.cells[i][l]) * v(back[l]);
    let g = |l: int|
        exact::total(|k: int| dependence(v, sens, i, k) * v(cov.at(k, l)), n) * dependence(
            v,
            sens,
            j,
            l,
        );
    assert forall|l: int| 0 <= l < n implies #[trigger] f(l) == g(l) by {
        let column = numbers::column(cov.cells, l);
        exact::lemma_dots_up(ops, v, phi.cells[i], column, n);
        let a = |k: int| v(phi.cells[i][k]) * v(column[k]);
        let b = |k: int| dependence(v, sens, i, k) * v(cov.at(k, l));
        assert forall|k: int| 0 <= k < n implies #[trigger] a(k) == b(k) by {
            assert(phi.cells[i][k] == phi.at(i, k));
            assert(column[k] == cov.at(k, l));
        }
        exact::lemma_total_same(a, b, n);
        assert(phi.transposed().cells[l][j] == phi.at(j, l));
    }
    exact::lemma_total_same(f, g, n);
}

/// Does an arithmetic multiply by zero and by one, and add zero, as it should.
pub open spec fn keeps_units<A: Arithmetic>(ops: &A) -> bool {
    let zero = F64 { bits: constants::ZERO };
    let one = F64 { bits: constants::ONE };
    &&& forall|x: F64| x.finite() ==> #[trigger] arithmetic::product(ops, zero, x).same(zero)
    &&& forall|x: F64| x.finite() ==> #[trigger] arithmetic::product(ops, x, zero).same(zero)
    &&& forall|x: F64| x.finite() ==> #[trigger] arithmetic::product(ops, one, x) == x
    &&& forall|x: F64| x.finite() ==> #[trigger] arithmetic::product(ops, x, one) == x
    &&& forall|x: F64, z: F64|
        x.finite() && z.same(zero) ==> (#[trigger] arithmetic::sum(ops, z, x)).same(x)
    &&& forall|x: F64, z: F64|
        x.finite() && z.same(zero) ==> (#[trigger] arithmetic::sum(ops, x, z)).same(x)
}

/// Are the first `n` numbers zero but for a one at place `i`.
pub open spec fn unit_at(row: Seq<F64>, i: int, n: nat) -> bool {
    forall|k: int|
        0 <= k < n ==> #[trigger] row[k] == (if k == i {
            F64 { bits: constants::ONE }
        } else {
            F64 { bits: constants::ZERO }
        })
}

/// Are the first `n` numbers finite.
pub open spec fn all_finite(v: Seq<F64>, n: nat) -> bool {
    forall|k: int| 0 <= k < n ==> (#[trigger] v[k]).finite()
}

/// Numbers which are the same are both finite or both not.
proof fn lemma_same_finite(a: F64, b: F64)
    requires
        a.same(b),
    ensures
        a.finite() == b.finite(),
        b.same(a),
{
}

/// A row which is zero but for a one at place `i` picks entry `i` of a column.
proof fn lemma_unit_row<A: Arithmetic>(ops: &A, row: Seq<F64>, v: Seq<F64>, i: int, n: nat)
    requires
        keeps_units(ops),
        0 <= i,
        unit_at(row, i, n),
        all_finite(v, n),
    ensures
        numbers::dot(ops, row, v, n).same(
            if i < n {
                v[i]
            } else {
                F64 { bits: constants::ZERO }
            },
        ),
    decreases n,
{
    if n > 0 {
        let m = (n - 1) as nat;
        lemma_unit_row(ops, row, v, i, m);
        let acc = numbers::dot(ops, row, v, m);
        assert(row[n - 1] == row[n - 1]);
        assert(v[n - 1].finite());
        let term = arithmetic::product(ops, row[n - 1], v[n - 1]);
        if n - 1 > i {
            assert(v[i].finite());
            lemma_same_finite(acc, v[i]);
            assert(arithmetic::sum(ops, acc, term).same(acc));
        } else if n - 1 < i {
            lemma_same_finite(term, F64 { bits: constants::ZERO });
            assert(arithmetic::sum(ops, acc, term).same(term));
        } else {
            assert(arithmetic::sum(ops, acc, term).same(term));
        }
    }
}

/// A column which is zero but for a one at place `j` picks entry `j` of a row.
proof fn lemma_unit_column<A: Arithmetic>(ops: &A, row: Seq<F64>, v: Seq<F64>, j: int, n: nat)
    requires
        keeps_units(ops),
        0 <= j,
        unit_at(v, j, n),
        all_finite(row, n),
    ensures
        numbers::dot(ops, row, v, n).same(
            if j < n {
                row[j]
            } else {
                F64 { bits: constants::ZERO }
            },
        ),
    decreases n,
{
    if n > 0 {
        let m = (n - 1) as nat;
        lemma_unit_column(ops, row, v, j, m);
        let acc = numbers::dot(ops, row, v, m);
        assert(v[n - 1] == v[n - 1]);
        assert(row[n - 1].finite());
        let term = arithmetic::product(ops, row[n - 1], v[n - 1]);
        if n - 1 > j {
            assert(row[j].finite());
            lemma_same_finite(acc, row[j]);
            assert(arithmetic::sum(ops, acc, term).same(acc));
        } else if n - 1 < j {
            lemma_same_finite(term, F64 { bits: constants::ZERO });
            assert(arithmetic::sum(ops, acc, term).same(term));
        } else {
            assert(arithmetic::sum(ops, acc, term).same(term));
        }
    }
}

/// A quantity which a propagation does not change keeps its covariance with every other such
/// quantity.
pub proof fn law_unchanged_keeps_covariance<A: Arithmetic>(
    ops: &A,
    sens: Grid,
    cov: Grid,
    i: int,
    j: int,
)
    requires
        sens.well_formed(),
        sens.nrows == 6,
        cov.well_formed(),
        cov.nrows == sens.ncols,
        cov.ncols == sens.ncols,
        0 <= i < sens.ncols,
        0 <= j < sens.ncols,
        unit_at(augmented(sens).cells[i], i, sens.ncols),
        unit_at(augmented(sens).cells[j], j, sens.ncols),
        forall|r: int, c: int|
            0 <= r < cov.nrows && 0 <= c < cov.ncols ==> (#[trigger] cov.at(r, c)).finite(),
        keeps_units(ops),
    ensures
        updated(ops, sens, cov).at(i, j).same(cov.at(i, j)),
{
    let n = sens.ncols;
    let phi = augmented(sens);
    let half = phi.multiplied(ops, cov);
    assert forall|c: int| 0 <= c < n implies (#[trigger] half.cells[i][c]).same(cov.at(i, c)) by {
        let column = numbers::column(cov.cells, c);
        assert forall|k: int| 0 <= k < n implies (#[trigger] column[k]).finite() by {
            assert(column[k] == cov.at(k, c));
        }
        lemma_unit_row(ops, phi.cells[i], column, i, n);
    }
    assert forall|c: int| 0 <= c < n implies (#[trigger] half.cells[i][c]).finite() by {
        assert(half.cells[i][c].same(cov.at(i, c)));
        lemma_same_finite(half.cells[i][c], cov.at(i, c));
    }
    let column = numbers::column(phi.transposed().cells, j);
    assert forall|k: int| 0 <= k < n implies #[trigger] column[k] == (if k == j {
        F64 { bits: constants::ONE }
    } else {
        F64 { bits: constants::ZERO }
    }) by {
        assert(phi.transposed().cells[k][j] == phi.at(j, k));
        assert(phi.cells[j][k] == phi.at(j, k));
    }
    lemma_unit_column(ops, half.cells[i], column, j, n);
    assert(half.cells[i][j].same(cov.at(i, j)));
}

/// The covariance of the parameters passes through a propagation.
pub proof fn law_parameters_keep_covariance<A: Arithmetic>(
    ops: &A,
    sens: Grid,
    cov: Grid,
    i: int,
    j: int,
)
    requires
        sens.well_formed(),
        sens.nrows == 6,
        cov.well_formed(),
        cov.nrows == sens.ncols,
        cov.ncols == sens.ncols,
        6 <= i < sens.ncols,
        6 <= j < sens.ncols,
        forall|r: int, c: int|
            0 <= r < cov.nrows && 0 <= c < cov.ncols ==> (#[trigger] cov.at(r, c)).finite(),
        keeps_units(ops),
    ensures
        updated(ops, sens, cov).at(i, j).same(cov.at(i, j)),
{
    law_unchanged_keeps_covariance(ops, sens, cov, i, j);
}

} // verus!
