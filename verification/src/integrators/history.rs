//! When the method of fixed steps evaluates the acceleration, as real numbers and where the
//! operations on the way are exact.
use crate::arithmetic;
use crate::arithmetic::Arithmetic;
use crate::errors::Error;
use crate::exact;
use crate::exact::{count, held, total};
use crate::float::F64;
use crate::integrators::gauss_jackson::{
    behind, time_before, weighted, Model, MAX_CORRECTOR_ITER, TWO,
};
use crate::integrators::nodes::compensates;
use crate::integrators::ode::Rule;
use crate::numbers;
use crate::orbits::{adds, multiplies, subtracts};
use crate::rounding;
use crate::rounding::Reading;
use crate::time::Time;
use vstd::prelude::*;

verus! {

/// Is acceleration `i` of a history the one at `i` steps before a moment, at the place which
/// belongs to it.
pub open spec fn taken<M>(
    v: Reading,
    rule: Rule<M>,
    start: real,
    h: real,
    places: Seq<Seq<F64>>,
    hist: Seq<Seq<F64>>,
    i: int,
) -> bool {
    exists|t: Time, y: Seq<F64>, note: M|
        v(t.jd) == start - count(i as nat) * h && (#[trigger] rule(
            t,
            places[i],
            y,
            note,
            true,
        )).0 == Ok::<Seq<F64>, Error>(hist[i])
}

/// Are the times of the first `n` steps before a moment exact.
pub open spec fn exact_times<A: Arithmetic>(
    ops: &A,
    v: Reading,
    t0: Time,
    h: F64,
    n: nat,
) -> bool {
    forall|i: nat|
        1 <= i <= n ==> {
            &&& v(#[trigger] ops.whole(i as u64)) == count(i)
            &&& multiplies(ops, v, ops.whole(i as u64), h)
            &&& subtracts(ops, v, t0.jd, arithmetic::product(ops, ops.whole(i as u64), h))
        }
}

/// What lies behind the start is spaced by the step: acceleration `i` is taken `i` steps before
/// the start, at the place where the object was then.
pub proof fn law_history_is_spaced<M, A: Arithmetic>(
    ops: &A,
    v: Reading,
    rule: Rule<M>,
    pos: Seq<F64>,
    vel: Seq<F64>,
    t0: Time,
    h: F64,
    note: M,
    control_dim: Option<usize>,
    max_steps: nat,
    n: nat,
    i: int,
)
    requires
        0 <= i <= n,
        exact_times(ops, v, t0, h, n),
        behind(ops, rule, pos, vel, t0, h, note, control_dim, max_steps, n).0 is Ok,
        behind(ops, rule, pos, vel, t0, h, note, control_dim, max_steps, n).0->Ok_0 is Some,
    ensures
        ({
            let b = behind(
                ops,
                rule,
                pos,
                vel,
                t0,
                h,
                note,
                control_dim,
                max_steps,
                n,
            ).0->Ok_0->Some_0;
            &&& b.hist.len() == n + 1
            &&& b.places.len() == n + 1
            &&& taken(v, rule, v(t0.jd), v(h), b.places, b.hist, i)
        }),
    decreases n,
{
    let b = behind(
        ops,
        rule,
        pos,
        vel,
        t0,
        h,
        note,
        control_dim,
        max_steps,
        n,
    ).0->Ok_0->Some_0;
    if n == 0 {
        rounding::lemma_order(0real, v(h), 1real);
        rounding::lemma_minus(v(h), 1real);
        assert(rule(t0, b.places[0], vel, note, true).0 == Ok::<Seq<F64>, Error>(b.hist[0]));
    } else {
        let m = (n - 1) as nat;
        let before = behind(
            ops,
            rule,
            pos,
            vel,
            t0,
            h,
            note,
            control_dim,
            max_steps,
            m,
        ).0->Ok_0->Some_0;
        assert(v(ops.whole(n as u64)) == count(n));
        if i < n {
            law_history_is_spaced(
                ops,
                v,
                rule,
                pos,
                vel,
                t0,
                h,
                note,
                control_dim,
                max_steps,
                m,
                i,
            );
            assert(b.hist[i] == before.hist[i] && b.places[i] == before.places[i]);
        } else {
            law_history_is_spaced(
                ops,
                v,
                rule,
                pos,
                vel,
                t0,
                h,
                note,
                control_dim,
                max_steps,
                m,
                0,
            );
            let t = time_before(ops, t0, n as int, h);
            assert(v(t.jd) == v(t0.jd) - count(n) * v(h));
            assert(b.time == t);
            let last = choose|last: M| (#[trigger] rule(t, b.pos, b.vel, last, true)).0 == Ok::<
                Seq<F64>,
                Error,
            >(b.hist[n as int]);
            assert(b.places[n as int] == b.pos);
            assert(rule(t, b.places[n as int], b.vel, last, true).0 == Ok::<Seq<F64>, Error>(
                b.hist[n as int],
            ));
        }
    }
}

/// The acceleration which the corrector keeps is the one it began with or one evaluated at the
/// next time.
proof fn lemma_kept<M, A: Arithmetic>(
    model: Model,
    ops: &A,
    rule: Rule<M>,
    h: F64,
    pos: Seq<F64>,
    vel: Seq<F64>,
    f: Seq<F64>,
    note: M,
    left: nat,
) -> (r: (Seq<F64>, Seq<F64>, M))
    requires
        model.corrections(ops, rule, h, pos, vel, f, note, left).0 is Ok,
    ensures
        ({
            let kept = model.corrections(ops, rule, h, pos, vel, f, note, left).0->Ok_0.2;
            kept == f || rule(model.next_time(ops, h), r.0, r.1, r.2, true).0 == Ok::<
                Seq<F64>,
                Error,
            >(kept)
        }),
    decreases left,
{
    let p = model.corrected_pos(ops, f, h);
    let y = model.corrected_vel(ops, f, h);
    if left > 0 && !model.converged(ops, pos, p) {
        let (g, last) = rule(model.next_time(ops, h), p, y, note, true);
        let r = lemma_kept(model, ops, rule, h, p, y, g->Ok_0, last, (left - 1) as nat);
        if model.corrections(ops, rule, h, pos, vel, f, note, left).0->Ok_0.2 == g->Ok_0 {
            (p, y, note)
        } else {
            r
        }
    } else {
        (pos, vel, note)
    }
}

/// A step takes the time further by the step, and the newest acceleration of the history is one
/// that the rule gives for that moment.
pub proof fn law_step<M, A: Arithmetic>(
    model: Model,
    ops: &A,
    v: Reading,
    rule: Rule<M>,
    h: F64,
    note: M,
) -> (r: (Time, Seq<F64>, Seq<F64>, M))
    requires
        model.well_formed(),
        model.stepped(ops, rule, h, note).0 is Ok,
        adds(ops, v, model.time.value, h),
        compensates(ops, v, model.time, h),
    ensures
        ({
            let next = model.stepped(ops, rule, h, note).1;
            &&& held(v, next.time) == held(v, model.time) + v(h)
            &&& v(r.0.jd) == v(model.time.value) + v(h)
            &&& rule(r.0, r.1, r.2, r.3, true).0 == Ok::<Seq<F64>, Error>(next.hist[0])
            &&& next.prev_pos == numbers::values(model.pos)
        }),
{
    exact::law_compensated(ops, v, model.time, h);
    let p = model.predicted_pos(ops, h);
    let y = model.predicted_vel(ops, h);
    let t = model.next_time(ops, h);
    let (f, last) = rule(t, p, y, note, true);
    let f = f->Ok_0;
    let r = lemma_kept(model, ops, rule, h, p, y, f, last, MAX_CORRECTOR_ITER as nat);
    let kept = model.corrections(
        ops,
        rule,
        h,
        p,
        y,
        f,
        last,
        MAX_CORRECTOR_ITER as nat,
    ).0->Ok_0.2;
    assert(model.stepped(ops, rule, h, note).1.hist[0] == kept);
    if kept == f {
        (t, p, y, note)
    } else {
        (t, r.0, r.1, r.2)
    }
}

/// Are the operations exact by which accelerations are weighted.
pub open spec fn exact_weighted<A: Arithmetic>(
    ops: &A,
    v: Reading,
    start: F64,
    hist: Seq<Seq<F64>>,
    weights: Seq<F64>,
    first: int,
    n: nat,
    i: int,
) -> bool
    decreases n,
{
    n == 0 || {
        let m = (n - 1) as nat;
        let one = arithmetic::product(ops, hist[n - 1][i], weights[first + n - 1]);
        &&& exact_weighted(ops, v, start, hist, weights, first, m, i)
        &&& multiplies(ops, v, hist[n - 1][i], weights[first + n - 1])
        &&& adds(ops, v, weighted(ops, start, hist, weights, first, m, i), one)
    }
}

/// The weighted accelerations.
proof fn lemma_weighted<A: Arithmetic>(
    ops: &A,
    v: Reading,
    start: F64,
    hist: Seq<Seq<F64>>,
    weights: Seq<F64>,
    first: int,
    n: nat,
    i: int,
)
    requires
        exact_weighted(ops, v, start, hist, weights, first, n, i),
    ensures
        v(weighted(ops, start, hist, weights, first, n, i)) == v(start) + total(
            |k: int| v(hist[k][i]) * v(weights[first + k]),
            n,
        ),
    decreases n,
{
    if n > 0 {
        lemma_weighted(ops, v, start, hist, weights, first, (n - 1) as nat, i);
    }
}

/// Are the operations exact by which the next position is found from a second difference.
pub open spec fn exact_leap<A: Arithmetic>(
    model: Model,
    ops: &A,
    v: Reading,
    i: int,
    second: F64,
    h: F64,
) -> bool {
    let twice = arithmetic::product(ops, model.pos[i].value, F64 { bits: TWO });
    let hh = arithmetic::product(ops, h, h);
    &&& v(F64 { bits: TWO }) == 2real
    &&& multiplies(ops, v, model.pos[i].value, F64 { bits: TWO })
    &&& subtracts(ops, v, twice, model.prev_pos[i])
    &&& multiplies(ops, v, h, h)
    &&& multiplies(ops, v, second, hh)
    &&& adds(
        ops,
        v,
        arithmetic::difference(ops, twice, model.prev_pos[i]),
        arithmetic::product(ops, second, hh),
    )
}

/// A body under no acceleration moves on in a straight line, and an acceleration bends the line:
/// over the previous, the present and the next position the second difference is the weighted
/// acceleration times the square of the step.
pub proof fn law_second_difference<A: Arithmetic>(
    model: Model,
    ops: &A,
    v: Reading,
    i: int,
    second: F64,
    h: F64,
)
    requires
        exact_leap(model, ops, v, i, second, h),
    ensures
        v(model.leap(ops, i, second, h)) - 2real * v(model.pos[i].value) + v(model.prev_pos[i]) == (
        v(h) * v(h)) * v(second),
{
    rounding::lemma_order(v(second), v(h) * v(h), 1real);
    rounding::lemma_order(v(model.pos[i].value), 2real, 1real);
}

/// The velocity moves on by the weighted acceleration times the step.
pub proof fn law_first_difference<A: Arithmetic>(
    model: Model,
    ops: &A,
    v: Reading,
    i: int,
    first: F64,
    h: F64,
)
    requires
        multiplies(ops, v, first, h),
        adds(ops, v, model.vel[i].value, arithmetic::product(ops, first, h)),
    ensures
        v(model.push(ops, i, first, h)) - v(model.vel[i].value) == v(h) * v(first),
{
    rounding::lemma_order(v(first), v(h), 1real);
}

/// Does an acceleration read the same at every moment of a history.
pub open spec fn steady(v: Reading, hist: Seq<Seq<F64>>, i: int, n: nat, a: real) -> bool {
    forall|k: int| 0 <= k < n ==> v(#[trigger] hist[k][i]) == a
}

/// Under a steady acceleration the weights count only together.
pub proof fn law_steady_acceleration<A: Arithmetic>(
    ops: &A,
    v: Reading,
    start: F64,
    hist: Seq<Seq<F64>>,
    weights: Seq<F64>,
    first: int,
    n: nat,
    i: int,
    a: real,
)
    requires
        exact_weighted(ops, v, start, hist, weights, first, n, i),
        steady(v, hist, i, n, a),
    ensures
        v(weighted(ops, start, hist, weights, first, n, i)) == v(start) + a * total(
            |k: int| v(weights[first + k]),
            n,
        ),
{
    lemma_weighted(ops, v, start, hist, weights, first, n, i);
    exact::lemma_total_times(
        a,
        |k: int| v(weights[first + k]),
        |k: int| v(hist[k][i]) * v(weights[first + k]),
        n,
    );
}

} // verus!
