//! What the Gragg-Bulirsch-Stoer method does inside a step, as real numbers and where the
//! operations on the way are exact.
//!
//! The midpoint rule finds positions at equally spaced moments whose second differences are the
//! accelerations there. Extrapolation takes out of its results what falls off with the square of
//! the number of substeps.
use crate::arithmetic;
use crate::arithmetic::Arithmetic;
use crate::conics;
use crate::errors::Error;
use crate::exact;
use crate::exact::{count, held};
use crate::float::F64;
use crate::integrators::bulirsch_stoer::{
    entry, leverage, n_seq, row, Inner, Model, HALF, K_MAX, MIN_J, ONE, QUARTER,
    TWO,
};
use crate::integrators::nodes::compensates;
use crate::integrators::ode::Rule;
use crate::orbits::{adds, divides, multiplies, subtracts};
use crate::rounding;
use crate::rounding::Reading;
use crate::time::Time;
use vstd::prelude::*;

verus! {

/// Every try makes more substeps than the one before, and an even number of them.
pub proof fn law_more_substeps(i: int, j: int)
    requires
        0 <= i < j < K_MAX,
    ensures
        0 < n_seq(i) < n_seq(j),
        n_seq(j) % 2 == 0,
{
}

/// Does a rule give one acceleration for each component.
pub open spec fn complete<M>(rule: Rule<M>) -> bool {
    forall|t: Time, x: Seq<F64>, y: Seq<F64>, note: M, last: bool|
        (#[trigger] rule(t, x, y, note, last)).0 is Ok ==> rule(t, x, y, note, last).0->Ok_0.len()
            == x.len()
}

/// Are the operations exact by which component `i` takes its first substep.
pub open spec fn exact_first<A: Arithmetic>(
    model: Model,
    ops: &A,
    v: Reading,
    h: F64,
    i: int,
) -> bool {
    let (a, y, half) = (model.acc[i], model.vel[i].value, F64 { bits: HALF });
    let hh = arithmetic::product(ops, h, h);
    let (k, l) = (arithmetic::product(ops, hh, half), arithmetic::product(ops, h, half));
    &&& v(F64 { bits: 0 }) == 0real
    &&& v(half) * 2real == 1real
    &&& multiplies(ops, v, h, h)
    &&& multiplies(ops, v, hh, half)
    &&& multiplies(ops, v, h, half)
    &&& multiplies(ops, v, y, h)
    &&& multiplies(ops, v, a, k)
    &&& multiplies(ops, v, a, l)
    &&& adds(ops, v, arithmetic::product(ops, y, h), arithmetic::product(ops, a, k))
    &&& adds(ops, v, y, arithmetic::product(ops, a, l))
}

/// The first substep: the increment of the position is that of a constant acceleration, and the
/// velocity is the one in the middle.
pub proof fn law_first_substep<A: Arithmetic>(
    model: Model,
    ops: &A,
    v: Reading,
    h: F64,
    i: int,
)
    requires
        model.well_formed(),
        0 <= i < model.pos.len(),
        exact_first(model, ops, v, h, i),
    ensures
        ({
            let s = model.first_substep(ops, h);
            let (x, a, y) = (v(h), v(model.acc[i]), v(model.vel[i].value));
            &&& v(s.before[i]) == 0real
            &&& v(s.moved[i]) == v(s.delta[i])
            &&& 2real * v(s.moved[i]) == 2real * (x * y) + (x * x) * a
            &&& 2real * v(s.gained[i]) == x * a
            &&& 2real * v(s.speed[i]) == 2real * y + x * a
        }),
{
    let (x, a, y) = (v(h), v(model.acc[i]), v(model.vel[i].value));
    let half = v(F64 { bits: HALF });
    let xx = x * x;
    rounding::lemma_order(y, x, 1real);
    rounding::lemma_order(a, xx, half);
    rounding::lemma_order(a, x, half);
    rounding::lemma_order(a, xx, 1real);
    rounding::lemma_order(a, x, 1real);
    rounding::lemma_order(a * xx, half, 2real);
    rounding::lemma_order(a * x, half, 2real);
    rounding::lemma_minus(a * xx, 1real);
    rounding::lemma_minus(a * x, 1real);
}

/// Are the operations exact by which component `i` takes one more substep.
pub open spec fn exact_next<A: Arithmetic>(
    model: Model,
    ops: &A,
    v: Reading,
    h: F64,
    s: Inner,
    f: Seq<F64>,
    i: int,
) -> bool {
    let next = model.next_substep(ops, h, s, f);
    let hh = arithmetic::product(ops, h, h);
    let twice = arithmetic::product(ops, F64 { bits: TWO }, h);
    let apart = arithmetic::difference(ops, next.moved[i], s.before[i]);
    &&& v(F64 { bits: TWO }) == 2real
    &&& multiplies(ops, v, h, h)
    &&& multiplies(ops, v, f[i], hh)
    &&& adds(ops, v, s.delta[i], arithmetic::product(ops, f[i], hh))
    &&& adds(ops, v, s.moved[i], next.delta[i])
    &&& multiplies(ops, v, f[i], h)
    &&& adds(ops, v, s.gained[i], arithmetic::product(ops, f[i], h))
    &&& subtracts(ops, v, next.moved[i], s.before[i])
    &&& multiplies(ops, v, F64 { bits: TWO }, h)
    &&& divides(ops, v, apart, twice)
    &&& adds(ops, v, model.vel[i].value, arithmetic::quotient(ops, apart, twice))
}

/// Are the operations exact by which component `i` takes the first `k` substeps.
pub open spec fn exact_substeps<M, A: Arithmetic>(
    model: Model,
    ops: &A,
    v: Reading,
    rule: Rule<M>,
    h: F64,
    k: nat,
    note: M,
    i: int,
) -> bool
    decreases k,
{
    if k <= 1 {
        exact_first(model, ops, v, h, i)
    } else {
        let m = (k - 1) as nat;
        let (s, last) = model.after_substeps(ops, rule, h, m, note);
        &&& exact_substeps(model, ops, v, rule, h, m, note, i)
        &&& v(ops.whole(m as u64)) == count(m)
        &&& multiplies(ops, v, ops.whole(m as u64), h)
        &&& adds(ops, v, model.time.value, arithmetic::product(ops, ops.whole(m as u64), h))
        &&& match s {
            Ok(s) => match rule(
                model.inner_time(ops, m as u64, h),
                model.inner_pos(ops, s),
                s.speed,
                last,
                false,
            ).0 {
                Ok(f) => exact_next(model, ops, v, h, s, f, i),
                Err(_) => true,
            },
            Err(_) => true,
        }
    }
}

/// Do the increments have one entry for each component.
pub open spec fn full(model: Model, s: Inner) -> bool {
    &&& s.delta.len() == model.pos.len()
    &&& s.moved.len() == model.pos.len()
    &&& s.before.len() == model.pos.len()
    &&& s.gained.len() == model.pos.len()
    &&& s.speed.len() == model.pos.len()
}

/// The increment of a substep is the difference of the increments since the beginning.
proof fn lemma_substeps<M, A: Arithmetic>(
    model: Model,
    ops: &A,
    v: Reading,
    rule: Rule<M>,
    h: F64,
    k: nat,
    note: M,
    i: int,
)
    requires
        model.well_formed(),
        complete(rule),
        0 <= i < model.pos.len(),
        model.after_substeps(ops, rule, h, k, note).0 is Ok,
        exact_substeps(model, ops, v, rule, h, k, note, i),
    ensures
        ({
            let s = model.after_substeps(ops, rule, h, k, note).0->Ok_0;
            &&& full(model, s)
            &&& v(s.delta[i]) == v(s.moved[i]) - v(s.before[i])
        }),
    decreases k,
{
    if k <= 1 {
        law_first_substep(model, ops, v, h, i);
    } else {
        let m = (k - 1) as nat;
        lemma_substeps(model, ops, v, rule, h, m, note, i);
        let (s, last) = model.after_substeps(ops, rule, h, m, note);
        let s = s->Ok_0;
        let f = rule(
            model.inner_time(ops, m as u64, h),
            model.inner_pos(ops, s),
            s.speed,
            last,
            false,
        ).0->Ok_0;
        assert(f.len() == model.pos.len());
        assert(exact_next(model, ops, v, h, s, f, i));
    }
}

/// One substep more: the acceleration is evaluated `k` substeps after the beginning of the step,
/// at the position reached by then. Over the three positions around that moment the second
/// difference is the acceleration times the square of the substep, the velocity gains the
/// acceleration times the substep, and the next velocity is the central difference.
pub proof fn law_substep<M, A: Arithmetic>(
    model: Model,
    ops: &A,
    v: Reading,
    rule: Rule<M>,
    h: F64,
    k: nat,
    note: M,
    i: int,
) -> (r: (Time, M, Seq<F64>))
    requires
        model.well_formed(),
        complete(rule),
        1 <= k,
        0 <= i < model.pos.len(),
        model.after_substeps(ops, rule, h, k + 1, note).0 is Ok,
        exact_substeps(model, ops, v, rule, h, k + 1, note, i),
    ensures
        ({
            let before = model.after_substeps(ops, rule, h, k, note).0;
            let s = before->Ok_0;
            let next = model.after_substeps(ops, rule, h, k + 1, note).0->Ok_0;
            let (x, a) = (v(h), v(r.2[i]));
            &&& before is Ok
            &&& v(r.0.jd) == v(model.time.value) + count(k) * x
            &&& rule(r.0, model.inner_pos(ops, s), s.speed, r.1, false).0 == Ok::<Seq<F64>, Error>(
                r.2,
            )
            &&& next.before == s.moved
            &&& v(next.moved[i]) - 2real * v(s.moved[i]) + v(s.before[i]) == (x * x) * a
            &&& v(next.gained[i]) - v(s.gained[i]) == x * a
            &&& (2real * x) * (v(next.speed[i]) - v(model.vel[i].value)) == v(next.moved[i]) - v(
                s.before[i],
            )
        }),
{
    lemma_substeps(model, ops, v, rule, h, k, note, i);
    let (s, last) = model.after_substeps(ops, rule, h, k, note);
    let s = s->Ok_0;
    let t = model.inner_time(ops, k as u64, h);
    let f = rule(t, model.inner_pos(ops, s), s.speed, last, false).0->Ok_0;
    assert(f.len() == model.pos.len());
    assert(exact_next(model, ops, v, h, s, f, i));
    let next = model.next_substep(ops, h, s, f);
    let (x, a) = (v(h), v(f[i]));
    rounding::lemma_order(a, x * x, 1real);
    rounding::lemma_order(a, x, 1real);
    rounding::lemma_order(2real * x, v(next.speed[i]) - v(model.vel[i].value), 1real);
    (t, last, f)
}

/// Are the operations exact by which component `i` is smoothed at the end of a step.
pub open spec fn exact_end<A: Arithmetic>(
    ops: &A,
    v: Reading,
    h: F64,
    s: Inner,
    f: Seq<F64>,
    i: int,
) -> bool {
    let hh = arithmetic::product(ops, h, h);
    let (k, l) = (
        arithmetic::product(ops, hh, F64 { bits: QUARTER }),
        arithmetic::product(ops, h, F64 { bits: HALF }),
    );
    &&& v(F64 { bits: QUARTER }) * 4real == 1real
    &&& v(F64 { bits: HALF }) * 2real == 1real
    &&& multiplies(ops, v, h, h)
    &&& multiplies(ops, v, hh, F64 { bits: QUARTER })
    &&& multiplies(ops, v, h, F64 { bits: HALF })
    &&& multiplies(ops, v, f[i], k)
    &&& multiplies(ops, v, f[i], l)
    &&& adds(ops, v, s.moved[i], arithmetic::product(ops, f[i], k))
    &&& adds(ops, v, s.gained[i], arithmetic::product(ops, f[i], l))
}

/// The result of the midpoint rule with `n` substeps: they fill the step, the last evaluation is
/// at its end, and it adds a quarter of its second difference to the position and half of its
/// first difference to the velocity.
pub proof fn law_midpoint<M, A: Arithmetic>(
    model: Model,
    ops: &A,
    v: Reading,
    rule: Rule<M>,
    step: F64,
    n: usize,
    note: M,
    i: int,
) -> (r: (Time, M, Seq<F64>, F64))
    requires
        model.well_formed(),
        complete(rule),
        1 <= n,
        0 <= i < model.pos.len(),
        model.midpoint(ops, rule, step, n, note).0 is Ok,
        v(ops.whole(n as u64)) == count(n as nat),
        divides(ops, v, step, ops.whole(n as u64)),
        adds(ops, v, model.time.value, step),
        ({
            let h = arithmetic::quotient(ops, step, ops.whole(n as u64));
            let (s, last) = model.after_substeps(ops, rule, h, n as nat, note);
            let s = s->Ok_0;
            let end = Time { jd: arithmetic::sum(ops, model.time.value, step) };
            let f = rule(end, model.inner_pos(ops, s), s.speed, last, false).0->Ok_0;
            &&& exact_substeps(model, ops, v, rule, h, n as nat, note, i)
            &&& exact_end(ops, v, h, s, f, i)
        }),
    ensures
        ({
            let s = model.after_substeps(ops, rule, r.3, n as nat, note).0;
            let (moved, gained) = model.midpoint(ops, rule, step, n, note).0->Ok_0;
            let (x, a) = (v(r.3), v(r.2[i]));
            &&& x * count(n as nat) == v(step)
            &&& s is Ok
            &&& v(r.0.jd) == v(model.time.value) + v(step)
            &&& rule(r.0, model.inner_pos(ops, s->Ok_0), s->Ok_0.speed, r.1, false).0 == Ok::<
                Seq<F64>,
                Error,
            >(r.2)
            &&& 4real * (v(moved[i]) - v(s->Ok_0.moved[i])) == (x * x) * a
            &&& 2real * (v(gained[i]) - v(s->Ok_0.gained[i])) == x * a
        }),
{
    let h = arithmetic::quotient(ops, step, ops.whole(n as u64));
    lemma_substeps(model, ops, v, rule, h, n as nat, note, i);
    let (s, last) = model.after_substeps(ops, rule, h, n as nat, note);
    let s = s->Ok_0;
    let end = Time { jd: arithmetic::sum(ops, model.time.value, step) };
    let f = rule(end, model.inner_pos(ops, s), s.speed, last, false).0->Ok_0;
    assert(f.len() == model.pos.len());
    let (x, a) = (v(h), v(f[i]));
    let (half, quarter) = (v(F64 { bits: HALF }), v(F64 { bits: QUARTER }));
    let xx = x * x;
    rounding::lemma_order(a, xx, quarter);
    rounding::lemma_order(a, x, half);
    rounding::lemma_order(a, xx, 1real);
    rounding::lemma_order(a, x, 1real);
    rounding::lemma_order(a * xx, quarter, 4real);
    rounding::lemma_order(a * x, half, 2real);
    rounding::lemma_minus(a * xx, 1real);
    rounding::lemma_minus(a * x, 1real);
    (end, last, f, h)
}

/// Are the operations exact by which component `i` of column `k` of row `j` is found.
pub open spec fn exact_entry<A: Arithmetic>(
    ops: &A,
    v: Reading,
    row_before: Seq<Seq<F64>>,
    midpoint: Seq<F64>,
    j: int,
    k: nat,
    i: int,
) -> bool {
    let left = entry(ops, row_before, midpoint, j, (k - 1) as nat)[i];
    let apart = arithmetic::difference(ops, left, row_before[k - 1][i]);
    let (a, b) = (ops.whole(n_seq(j) as u64), ops.whole(n_seq(j - k) as u64));
    let ratio = arithmetic::quotient(ops, a, b);
    &&& v(F64 { bits: ONE }) == 1real
    &&& v(a) == count(n_seq(j) as nat)
    &&& v(b) == count(n_seq(j - k) as nat)
    &&& divides(ops, v, a, b)
    &&& multiplies(ops, v, ratio, ratio)
    &&& subtracts(ops, v, arithmetic::product(ops, ratio, ratio), F64 { bits: ONE })
    &&& subtracts(ops, v, left, row_before[k - 1][i])
    &&& v(leverage(ops, j, k as int)) != 0real
    &&& divides(ops, v, apart, leverage(ops, j, k as int))
    &&& adds(ops, v, left, arithmetic::quotient(ops, apart, leverage(ops, j, k as int)))
}

/// Every column has one entry for each component.
proof fn lemma_entry_len<A: Arithmetic>(
    ops: &A,
    row_before: Seq<Seq<F64>>,
    midpoint: Seq<F64>,
    j: int,
    k: nat,
)
    ensures
        entry(ops, row_before, midpoint, j, k).len() == midpoint.len(),
    decreases k,
{
    if k > 0 {
        lemma_entry_len(ops, row_before, midpoint, j, (k - 1) as nat);
    }
}

/// Extrapolation takes out an error which falls off with the square of the number of substeps:
/// where the errors of the two entries from which a new one is found are to each other as those
/// squares say, the new one is `truth`.
pub proof fn law_extrapolation<A: Arithmetic>(
    ops: &A,
    v: Reading,
    row_before: Seq<Seq<F64>>,
    midpoint: Seq<F64>,
    j: int,
    k: nat,
    i: int,
    truth: real,
)
    requires
        1 <= k <= j,
        0 <= i < midpoint.len(),
        midpoint.len() == row_before[k - 1].len(),
        exact_entry(ops, v, row_before, midpoint, j, k, i),
        ({
            let left = v(entry(ops, row_before, midpoint, j, (k - 1) as nat)[i]);
            let above = v(row_before[k - 1][i]);
            let (a, b) = (count(n_seq(j) as nat), count(n_seq(j - k) as nat));
            (a * a) * (left - truth) == (b * b) * (above - truth)
        }),
    ensures
        v(entry(ops, row_before, midpoint, j, k)[i]) == truth,
{
    lemma_entry_len(ops, row_before, midpoint, j, (k - 1) as nat);
    let left = v(entry(ops, row_before, midpoint, j, (k - 1) as nat)[i]);
    let above = v(row_before[k - 1][i]);
    let (a, b) = (count(n_seq(j) as nat), count(n_seq(j - k) as nat));
    exact::lemma_count(n_seq(j - k) as nat);
    let ratio = v(
        arithmetic::quotient(
            ops,
            ops.whole(n_seq(j) as u64),
            ops.whole(n_seq(j - k) as u64),
        ),
    );
    let lever = v(leverage(ops, j, k as int));
    let q = v(
        arithmetic::quotient(
            ops,
            arithmetic::difference(
                ops,
                entry(ops, row_before, midpoint, j, (k - 1) as nat)[i],
                row_before[k - 1][i],
            ),
            leverage(ops, j, k as int),
        ),
    );
    let (e, f) = (left - truth, above - truth);
    let (rr, bb) = (ratio * ratio, b * b);
    assert(a == ratio * b);
    rounding::lemma_factors(ratio, b, ratio, b);
    rounding::lemma_order(rr, bb, e);
    rounding::lemma_order(bb, rr, e);
    rounding::lemma_order(rr, bb, 1real);
    conics::lemma_square(b);
    assert(bb * (rr * e) == bb * f);
    conics::lemma_cancel(bb, rr * e, f);
    // the difference of the entries is the error times the leverage, against its sign
    assert(q * lever == e - f);
    rounding::lemma_spread(e, rr, -1real, 0real);
    rounding::lemma_minus(e, 1real);
    rounding::lemma_order(e, rr, 1real);
    assert(e * lever == f - e);
    rounding::lemma_order(q, lever, 1real);
    rounding::lemma_order(e, lever, 1real);
    rounding::lemma_spread(lever, q, e, 0real);
    rounding::lemma_minus(lever, 1real);
    if 0real < lever {
        conics::lemma_cancel(lever, q + e, 0real);
    } else {
        rounding::lemma_minus(lever, q + e);
        rounding::lemma_order(lever, q + e, 1real);
        rounding::lemma_minus(q + e, lever);
        rounding::lemma_order(-lever, q + e, 1real);
        rounding::lemma_minus(-lever, 1real);
        conics::lemma_cancel(-lever, q + e, 0real);
    }
}

/// What a step which comes off leaves behind: increments from one row of the extrapolation, and
/// the acceleration at the end.
proof fn lemma_accepted<M, A: Arithmetic>(
    model: Model,
    ops: &A,
    rule: Rule<M>,
    step: F64,
    j: nat,
    pos_before: Seq<Seq<F64>>,
    vel_before: Seq<Seq<F64>>,
    note: M,
) -> (r: (Seq<F64>, Seq<F64>, M))
    requires
        model.stepped_from(ops, rule, step, j, pos_before, vel_before, note).0 is Ok,
    ensures
        ({
            let next = model.stepped_from(ops, rule, step, j, pos_before, vel_before, note).1;
            &&& next == Model { acc: next.acc, ..model.accepted(ops, step, r.0, r.1) }
            &&& rule(Time { jd: next.time.value }, next.position(), next.velocity(), r.2, true).0
                == Ok::<Seq<F64>, Error>(next.acc)
        }),
    decreases K_MAX - j,
{
    let (mid, last) = model.midpoint(ops, rule, step, n_seq(j as int), note);
    let (dpos, dvel) = mid->Ok_0;
    let pos_row = row(ops, pos_before, dpos, j);
    let vel_row = row(ops, vel_before, dvel, j);
    let error = model.worst_error(
        ops,
        pos_row[j as int],
        pos_row[j as int],
        pos_row[j - 1],
        None,
    );
    if j >= MIN_J && error.spec_lt(F64 { bits: ONE }) {
        (pos_row[j as int], vel_row[j as int], last)
    } else {
        lemma_accepted(model, ops, rule, step, j + 1, pos_row, vel_row, last)
    }
}

/// A step which comes off takes the time further by the step, position and velocity by the
/// increments that were found, and ends with the acceleration that the rule gives there.
pub proof fn law_step<M, A: Arithmetic>(
    model: Model,
    ops: &A,
    v: Reading,
    rule: Rule<M>,
    step: F64,
    note: M,
) -> (r: (Seq<F64>, Seq<F64>, M))
    requires
        model.well_formed(),
        model.stepped(ops, rule, step, note).0 is Ok,
        compensates(ops, v, model.time, step),
    ensures
        ({
            let next = model.stepped(ops, rule, step, note).1;
            &&& held(v, next.time) == held(v, model.time) + v(step)
            &&& forall|i: int|
                0 <= i < model.pos.len() && compensates(ops, v, #[trigger] model.pos[i], r.0[i])
                    ==> held(v, next.pos[i]) == held(v, model.pos[i]) + v(r.0[i])
            &&& forall|i: int|
                0 <= i < model.pos.len() && compensates(ops, v, #[trigger] model.vel[i], r.1[i])
                    ==> held(v, next.vel[i]) == held(v, model.vel[i]) + v(r.1[i])
            &&& rule(Time { jd: next.time.value }, next.position(), next.velocity(), r.2, true).0
                == Ok::<Seq<F64>, Error>(next.acc)
        }),
{
    let r = lemma_accepted(model, ops, rule, step, 0, Seq::empty(), Seq::empty(), note);
    exact::law_compensated(ops, v, model.time, step);
    r
}

} // verus!
