//! That forces which act together add up, as real numbers and where what a sum loses is exact.
use crate::arithmetic;
use crate::arithmetic::{Arithmetic, Compensated};
use crate::errors::Error;
use crate::exact;
use crate::exact::{nothing, plus};
use crate::float::F64;
use crate::forces::set::{lemma_offset_grows, offset, part, ForceSet};
use crate::forces::sum::Sum;
use crate::forces::traits;
use crate::forces::traits::{
    AnalyticForce, CompensatedVector, Evaluate, Jacobians, ParameterizedForce,
};
use crate::frames::{InertialFrame, Vector};
use crate::orbits::{adds, subtracts};
use crate::rounding::{read, Reading, Triple};
use crate::time::Time;
use vstd::prelude::*;

verus! {

/// Is what a sum loses by rounding exact.
pub open spec fn keeps<A: Arithmetic>(ops: &A, v: Reading, c: Compensated, term: F64) -> bool {
    let s = arithmetic::sum(ops, c.total, term);
    let (a, b) = (
        arithmetic::difference(ops, c.total, s),
        arithmetic::difference(ops, term, s),
    );
    &&& subtracts(ops, v, c.total, s)
    &&& subtracts(ops, v, term, s)
    &&& adds(ops, v, a, term)
    &&& adds(ops, v, b, c.total)
    &&& adds(ops, v, c.lost, arithmetic::rounding_loss(ops, c.total, term, s))
}

/// What a running sum stands for.
pub open spec fn so_far(v: Reading, c: Compensated) -> real {
    v(c.total) + v(c.lost)
}

/// A running sum loses nothing, however it is rounded: with one more term it stands for that term
/// more.
pub proof fn law_running_sum<A: Arithmetic>(ops: &A, v: Reading, c: Compensated, term: F64)
    requires
        keeps(ops, v, c, term),
    ensures
        so_far(v, c.with(ops, term)) == so_far(v, c) + v(term),
{
}

/// What a running sum of vectors stands for.
pub open spec fn all_so_far(v: Reading, c: CompensatedVector) -> Triple {
    Triple { x: so_far(v, c.x), y: so_far(v, c.y), z: so_far(v, c.z) }
}

/// Is what the sum of vectors loses exact.
pub open spec fn exact_running<A: Arithmetic, T: InertialFrame>(
    ops: &A,
    v: Reading,
    terms: Seq<Vector<T>>,
) -> bool
    decreases terms.len(),
{
    if terms.len() == 0 {
        v(F64 { bits: 0 }) == 0real
    } else {
        let c = traits::running_total(ops, terms.drop_last());
        &&& exact_running(ops, v, terms.drop_last())
        &&& keeps(ops, v, c.x, terms.last().x)
        &&& keeps(ops, v, c.y, terms.last().y)
        &&& keeps(ops, v, c.z, terms.last().z)
    }
}

/// Is the sum of vectors exact, once what it lost has been put back.
pub open spec fn exact_sum<A: Arithmetic, T: InertialFrame>(
    ops: &A,
    v: Reading,
    terms: Seq<Vector<T>>,
) -> bool {
    let c = traits::running_total(ops, terms);
    &&& exact_running(ops, v, terms)
    &&& adds(ops, v, c.x.total, c.x.lost)
    &&& adds(ops, v, c.y.total, c.y.lost)
    &&& adds(ops, v, c.z.total, c.z.lost)
}

/// The sum of the first `n` vectors.
pub open spec fn gathered(f: spec_fn(int) -> Triple, n: nat) -> Triple
    decreases n,
{
    if n == 0 {
        nothing()
    } else {
        plus(gathered(f, (n - 1) as nat), f(n - 1))
    }
}

/// Sums of the same vectors.
proof fn lemma_gathered_same(f: spec_fn(int) -> Triple, g: spec_fn(int) -> Triple, n: nat)
    requires
        forall|k: int| 0 <= k < n ==> #[trigger] f(k) == g(k),
    ensures
        gathered(f, n) == gathered(g, n),
    decreases n,
{
    if n > 0 {
        lemma_gathered_same(f, g, (n - 1) as nat);
        assert(f(n - 1) == g(n - 1));
    }
}

/// The running sum of vectors stands for their sum.
proof fn lemma_running<A: Arithmetic, T: InertialFrame>(ops: &A, v: Reading, terms: Seq<Vector<T>>)
    requires
        exact_running(ops, v, terms),
    ensures
        all_so_far(v, traits::running_total(ops, terms)) == gathered(
            |k: int| read(v, terms[k]),
            terms.len(),
        ),
    decreases terms.len(),
{
    if terms.len() > 0 {
        let rest = terms.drop_last();
        lemma_running(ops, v, rest);
        let m = rest.len();
        lemma_gathered_same(|k: int| read(v, rest[k]), |k: int| read(v, terms[k]), m);
    }
}

/// Vectors are added up: what comes out is their sum.
pub proof fn law_vectors_add_up<A: Arithmetic, T: InertialFrame>(
    ops: &A,
    v: Reading,
    terms: Seq<Vector<T>>,
)
    requires
        exact_sum(ops, v, terms),
    ensures
        read(v, traits::total(ops, terms)) == gathered(|k: int| read(v, terms[k]), terms.len()),
{
    lemma_running(ops, v, terms);
}

/// Row `i` of the derivatives: three rows of that by the position, then three of that by the
/// velocity.
pub open spec fn row_of<T: InertialFrame>(j: Jacobians<T>, i: int) -> Vector<T> {
    if i == 0 {
        j.pos.x
    } else if i == 1 {
        j.pos.y
    } else if i == 2 {
        j.pos.z
    } else if i == 3 {
        j.vel.x
    } else if i == 4 {
        j.vel.y
    } else {
        j.vel.z
    }
}

/// Row `i` of all derivatives.
pub open spec fn rows_of<T: InertialFrame>(terms: Seq<Jacobians<T>>, i: int) -> Seq<Vector<T>> {
    Seq::new(terms.len(), |k: int| row_of(terms[k], i))
}

/// The running sum of derivatives is one of rows.
proof fn lemma_rows<A: Arithmetic, T: InertialFrame>(ops: &A, terms: Seq<Jacobians<T>>)
    ensures
        ({
            let c = traits::running_jacobians(ops, terms);
            &&& c.pos.x == traits::running_total(ops, rows_of(terms, 0))
            &&& c.pos.y == traits::running_total(ops, rows_of(terms, 1))
            &&& c.pos.z == traits::running_total(ops, rows_of(terms, 2))
            &&& c.vel.x == traits::running_total(ops, rows_of(terms, 3))
            &&& c.vel.y == traits::running_total(ops, rows_of(terms, 4))
            &&& c.vel.z == traits::running_total(ops, rows_of(terms, 5))
        }),
    decreases terms.len(),
{
    if terms.len() > 0 {
        let rest = terms.drop_last();
        lemma_rows(ops, rest);
        assert(rows_of(terms, 0).drop_last() =~= rows_of(rest, 0));
        assert(rows_of(terms, 1).drop_last() =~= rows_of(rest, 1));
        assert(rows_of(terms, 2).drop_last() =~= rows_of(rest, 2));
        assert(rows_of(terms, 3).drop_last() =~= rows_of(rest, 3));
        assert(rows_of(terms, 4).drop_last() =~= rows_of(rest, 4));
        assert(rows_of(terms, 5).drop_last() =~= rows_of(rest, 5));
    }
}

/// Derivatives are added up, row by row.
pub proof fn law_derivatives_add_up<A: Arithmetic, T: InertialFrame>(
    ops: &A,
    v: Reading,
    terms: Seq<Jacobians<T>>,
    i: int,
)
    requires
        0 <= i < 6,
        exact_sum(ops, v, rows_of(terms, i)),
    ensures
        read(
            v,
            row_of(traits::running_jacobians(ops, terms).corrected::<A, T>(ops), i),
        ) == gathered(|k: int| read(v, row_of(terms[k], i)), terms.len()),
{
    lemma_rows(ops, terms);
    let rows = rows_of(terms, i);
    law_vectors_add_up(ops, v, rows);
    lemma_gathered_same(
        |k: int| read(v, rows[k]),
        |k: int| read(v, row_of(terms[k], i)),
        terms.len(),
    );
}

/// The acceleration of two forces is the sum of the accelerations of each, which has its own
/// parameters: those of the first stand before those of the second.
pub proof fn law_two_forces_add_up<
    A: Arithmetic,
    P: Evaluate<A>,
    Q: Evaluate<A, Frame = P::Frame, Center = P::Center>,
>(
    s: Sum<P, Q>,
    ops: &A,
    v: Reading,
    time: Time,
    pos: Vector<P::Frame>,
    vel: Vector<P::Frame>,
    first: Seq<F64>,
    second: Seq<F64>,
    a: Vector<P::Frame>,
    b: Vector<P::Frame>,
)
    requires
        first.len() == s.0.n_params(),
        second.len() == s.1.n_params(),
        s.0.accel_value(ops, time, pos, vel, first) == Ok::<Vector<P::Frame>, Error>(a),
        s.1.accel_value(ops, time, pos, vel, second) == Ok::<Vector<P::Frame>, Error>(b),
        exact_sum(ops, v, seq![a, b]),
    ensures
        s.accel_value(ops, time, pos, vel, first + second) is Ok,
        read(v, s.accel_value(ops, time, pos, vel, first + second)->Ok_0) == plus(
            read(v, a),
            read(v, b),
        ),
{
    let all = first + second;
    assert(all.take(first.len() as int) =~= first);
    assert(all.skip(first.len() as int) =~= second);
    law_vectors_add_up(ops, v, seq![a, b]);
    reveal_with_fuel(gathered, 3);
}

/// The derivatives of two forces are the sums of those of each. Those by the parameters stand one
/// after the other.
pub proof fn law_two_derivatives_add_up<
    A: Arithmetic,
    P: AnalyticForce<A>,
    Q: AnalyticForce<A, Frame = P::Frame, Center = P::Center>,
>(
    s: Sum<P, Q>,
    ops: &A,
    v: Reading,
    time: Time,
    pos: Vector<P::Frame>,
    vel: Vector<P::Frame>,
    first: Seq<F64>,
    second: Seq<F64>,
    a: Jacobians<P::Frame>,
    b: Jacobians<P::Frame>,
    i: int,
)
    requires
        0 <= i < 6,
        first.len() == s.0.n_params(),
        second.len() == s.1.n_params(),
        s.0.jacobians_value(ops, time, pos, vel, first) == Ok::<Jacobians<P::Frame>, Error>(a),
        s.1.jacobians_value(ops, time, pos, vel, second) == Ok::<Jacobians<P::Frame>, Error>(b),
        exact_sum(ops, v, rows_of(seq![a, b], i)),
    ensures
        s.jacobians_value(ops, time, pos, vel, first + second) is Ok,
        read(v, row_of(s.jacobians_value(ops, time, pos, vel, first + second)->Ok_0, i)) == plus(
            read(v, row_of(a, i)),
            read(v, row_of(b, i)),
        ),
        first.len() > 0 && second.len() > 0 ==> (match (
            s.0.parameter_jacobian_value(ops, time, pos, vel, first),
            s.1.parameter_jacobian_value(ops, time, pos, vel, second),
        ) {
            (Ok(c), Ok(d)) => s.parameter_jacobian_value(ops, time, pos, vel, first + second) == Ok::<
                Seq<Vector<P::Frame>>,
                Error,
            >(c + d),
            _ => s.parameter_jacobian_value(ops, time, pos, vel, first + second) is Err,
        }),
{
    let all = first + second;
    assert(all.take(first.len() as int) =~= first);
    assert(all.skip(first.len() as int) =~= second);
    law_derivatives_add_up(ops, v, seq![a, b], i);
    reveal_with_fuel(gathered, 3);
}

/// Each force of a set has its own parameters, and they stand where those of the forces before end.
pub proof fn law_own_parameters<F: ParameterizedForce>(
    forces: Seq<F>,
    params: Seq<F64>,
    i: int,
    k: int,
)
    requires
        0 <= i < forces.len(),
        params.len() == offset(forces, forces.len() as int),
        0 <= k < forces[i].n_params(),
    ensures
        part(forces, params, i).len() == forces[i].n_params(),
        part(forces, params, i)[k] == params[offset(forces, i) + k],
        i == 0 ==> offset(forces, i) == 0,
        i > 0 ==> offset(forces, i) == offset(forces, i - 1) + forces[i - 1].n_params(),
{
    lemma_offset_grows(forces, i + 1, forces.len() as int);
}

/// The accelerations of a set, one by one.
proof fn lemma_each<A: Arithmetic, F: Evaluate<A>>(
    s: ForceSet<F>,
    ops: &A,
    time: Time,
    pos: Vector<F::Frame>,
    vel: Vector<F::Frame>,
    params: Seq<F64>,
    n: int,
    i: int,
)
    requires
        0 <= i < n <= s.forces@.len(),
        s.accels(ops, time, pos, vel, params, n) is Ok,
    ensures
        s.accels(ops, time, pos, vel, params, n)->Ok_0.len() == n,
        s.forces@[i].accel_value(ops, time, pos, vel, part(s.forces@, params, i)) == Ok::<
            Vector<F::Frame>,
            Error,
        >(s.accels(ops, time, pos, vel, params, n)->Ok_0[i]),
    decreases n,
{
    if i < n - 1 {
        lemma_each(s, ops, time, pos, vel, params, n - 1, i);
    } else if n > 1 {
        lemma_each(s, ops, time, pos, vel, params, n - 1, 0);
    }
}

/// The acceleration of a set of forces is the sum of the accelerations of each, with its own
/// parameters.
pub proof fn law_forces_add_up<A: Arithmetic, F: Evaluate<A>>(
    s: ForceSet<F>,
    ops: &A,
    v: Reading,
    time: Time,
    pos: Vector<F::Frame>,
    vel: Vector<F::Frame>,
    params: Seq<F64>,
)
    requires
        s.forces@.len() > 0,
        s.accel_value(ops, time, pos, vel, params) is Ok,
        exact_sum(
            ops,
            v,
            s.accels(ops, time, pos, vel, params, s.forces@.len() as int)->Ok_0,
        ),
    ensures
        read(v, s.accel_value(ops, time, pos, vel, params)->Ok_0) == gathered(
            |i: int|
                read(
                    v,
                    s.forces@[i].accel_value(
                        ops,
                        time,
                        pos,
                        vel,
                        part(s.forces@, params, i),
                    )->Ok_0,
                ),
            s.forces@.len(),
        ),
        forall|i: int|
            0 <= i < s.forces@.len() ==> (#[trigger] s.forces@[i]).accel_value(
                ops,
                time,
                pos,
                vel,
                part(s.forces@, params, i),
            ) is Ok,
{
    let n = s.forces@.len() as int;
    let terms = s.accels(ops, time, pos, vel, params, n)->Ok_0;
    lemma_each(s, ops, time, pos, vel, params, n, 0);
    law_vectors_add_up(ops, v, terms);
    let f = |k: int| read(v, terms[k]);
    let g = |i: int|
        read(
            v,
            s.forces@[i].accel_value(ops, time, pos, vel, part(s.forces@, params, i))->Ok_0,
        );
    assert forall|k: int| 0 <= k < n implies #[trigger] f(k) == g(k) by {
        lemma_each(s, ops, time, pos, vel, params, n, k);
    }
    lemma_gathered_same(f, g, n as nat);
    assert forall|i: int| 0 <= i < n implies (#[trigger] s.forces@[i]).accel_value(
        ops,
        time,
        pos,
        vel,
        part(s.forces@, params, i),
    ) is Ok by {
        lemma_each(s, ops, time, pos, vel, params, n, i);
    }
}

/// The derivatives of a set, one by one.
proof fn lemma_each_derivative<A: Arithmetic, F: AnalyticForce<A>>(
    s: ForceSet<F>,
    ops: &A,
    time: Time,
    pos: Vector<F::Frame>,
    vel: Vector<F::Frame>,
    params: Seq<F64>,
    n: int,
    i: int,
)
    requires
        0 <= i < n <= s.forces@.len(),
        s.all_jacobians(ops, time, pos, vel, params, n) is Ok,
    ensures
        s.all_jacobians(ops, time, pos, vel, params, n)->Ok_0.len() == n,
        s.forces@[i].jacobians_value(ops, time, pos, vel, part(s.forces@, params, i)) == Ok::<
            Jacobians<F::Frame>,
            Error,
        >(s.all_jacobians(ops, time, pos, vel, params, n)->Ok_0[i]),
    decreases n,
{
    if i < n - 1 {
        lemma_each_derivative(s, ops, time, pos, vel, params, n - 1, i);
    } else if n > 1 {
        lemma_each_derivative(s, ops, time, pos, vel, params, n - 1, 0);
    }
}

/// The derivatives of a set of forces by position and velocity are the sums of those of each.
pub proof fn law_force_derivatives_add_up<A: Arithmetic, F: AnalyticForce<A>>(
    s: ForceSet<F>,
    ops: &A,
    v: Reading,
    time: Time,
    pos: Vector<F::Frame>,
    vel: Vector<F::Frame>,
    params: Seq<F64>,
    r: int,
)
    requires
        0 <= r < 6,
        s.forces@.len() > 0,
        s.jacobians_value(ops, time, pos, vel, params) is Ok,
        exact_sum(
            ops,
            v,
            rows_of(
                s.all_jacobians(ops, time, pos, vel, params, s.forces@.len() as int)->Ok_0,
                r,
            ),
        ),
    ensures
        read(v, row_of(s.jacobians_value(ops, time, pos, vel, params)->Ok_0, r)) == gathered(
            |i: int|
                read(
                    v,
                    row_of(
                        s.forces@[i].jacobians_value(
                            ops,
                            time,
                            pos,
                            vel,
                            part(s.forces@, params, i),
                        )->Ok_0,
                        r,
                    ),
                ),
            s.forces@.len(),
        ),
{
    let n = s.forces@.len() as int;
    let terms = s.all_jacobians(ops, time, pos, vel, params, n)->Ok_0;
    lemma_each_derivative(s, ops, time, pos, vel, params, n, 0);
    law_derivatives_add_up(ops, v, terms, r);
    let f = |k: int| read(v, row_of(terms[k], r));
    let g = |i: int|
        read(
            v,
            row_of(
                s.forces@[i].jacobians_value(
                    ops,
                    time,
                    pos,
                    vel,
                    part(s.forces@, params, i),
                )->Ok_0,
                r,
            ),
        );
    assert forall|k: int| 0 <= k < n implies #[trigger] f(k) == g(k) by {
        lemma_each_derivative(s, ops, time, pos, vel, params, n, k);
    }
    lemma_gathered_same(f, g, n as nat);
}

/// The derivative by parameter `k` of force `i` stands where that parameter stands among all.
pub proof fn law_columns_stand_with_parameters<A: Arithmetic, F: AnalyticForce<A>>(
    s: ForceSet<F>,
    ops: &A,
    time: Time,
    pos: Vector<F::Frame>,
    vel: Vector<F::Frame>,
    params: Seq<F64>,
    n: int,
    i: int,
    k: int,
)
    requires
        s.well_formed(),
        0 <= i < n <= s.forces@.len(),
        0 <= k < s.forces@[i].n_params(),
        s.all_columns(ops, time, pos, vel, params, n) is Ok,
    ensures
        ({
            let all = s.all_columns(ops, time, pos, vel, params, n)->Ok_0;
            let own = s.forces@[i].parameter_jacobian_value(
                ops,
                time,
                pos,
                vel,
                part(s.forces@, params, i),
            );
            &&& all.len() == offset(s.forces@, n)
            &&& own is Ok
            &&& own->Ok_0.len() == s.forces@[i].n_params()
            &&& all[offset(s.forces@, i) + k] == own->Ok_0[k]
        }),
    decreases n,
{
    s.lemma_columns_len(ops, time, pos, vel, params, n);
    s.lemma_columns_len(ops, time, pos, vel, params, n - 1);
    assert(s.forces@[i].well_formed());
    s.forces@[i].lemma_columns(ops, time, pos, vel, part(s.forces@, params, i));
    lemma_offset_grows(s.forces@, i + 1, n);
    if i < n - 1 {
        law_columns_stand_with_parameters(s, ops, time, pos, vel, params, n - 1, i, k);
        lemma_offset_grows(s.forces@, i + 1, n - 1);
    }
}

} // verus!
