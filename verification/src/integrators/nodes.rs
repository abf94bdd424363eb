//! What the Gauss-Radau method does inside a step, as real numbers and where the operations on
//! the way are exact.
//!
//! Inside a step the acceleration is taken to be the polynomial which has the acceleration of the
//! start at its start, and which at each of seven later moments, the nodes, has the acceleration
//! that the rule gives for that moment. Positions and velocities are its integrals.
use crate::arithmetic;
use crate::arithmetic::{Arithmetic, Binary, Kahan};
use crate::conics;
use crate::errors::Error;
use crate::exact;
use crate::exact::{count, held, power, share, total};
use crate::float::F64;
use crate::integrators::ode::Rule;
use crate::integrators::radau::{
    c, c_column, divided, raised, spacing, u, u_pow, u_row, w, w_pow, w_row, Model, CONVERGED, DEGREE,
    EPSILON, HALF, MAX_SWEEPS, MIN_RATIO, ONE, SEVENTH, TWO,
};
use crate::numbers;
use crate::orbits::{adds, divides, multiplies, subtracts};
use crate::rounding;
use crate::rounding::Reading;
use crate::time::Time;
use vstd::prelude::*;

verus! {

/// Node `j` as a fraction of the step.
pub open spec fn node(v: Reading, j: int) -> real {
    v(spacing(j))
}

/// Does the reading keep the order of numbers, with zero and one as they are.
pub open spec fn ordered(v: Reading) -> bool {
    &&& v(F64 { bits: 0 }) == 0real
    &&& v(F64 { bits: ONE }) == 1real
    &&& forall|a: F64, b: F64| #[trigger] a.spec_lt(b) ==> v(a) < v(b)
}

/// The nodes are inside of the step, and they follow each other.
pub proof fn law_nodes_are_inside(v: Reading, i: int, j: int)
    requires
        ordered(v),
        1 <= i < j <= 7,
    ensures
        0real < node(v, i) < node(v, j) < 1real,
{
    assert((F64 { bits: 0 }).spec_lt(spacing(i)));
    assert(spacing(i).spec_lt(spacing(j)));
    assert(spacing(j).spec_lt(F64 { bits: ONE }));
}

/// The product of the distances of `t` from the start and from the first `n` nodes.
pub open spec fn newton(v: Reading, t: real, n: nat) -> real
    decreases n,
{
    if n == 0 {
        t
    } else {
        newton(v, t, (n - 1) as nat) * (t - node(v, n as int))
    }
}

/// The polynomial at fraction `t` of a step, without what it is at the start. Its coefficients
/// are those of the powers from the first on.
pub open spec fn polynomial(v: Reading, b: Seq<F64>, t: real) -> real {
    total(|k: int| v(b[k]) * power(t, (k + 1) as nat), DEGREE as nat)
}

/// Is coefficient `j` of the product `i` exact.
pub open spec fn exact_c<A: Arithmetic>(ops: &A, v: Reading, i: nat, j: nat) -> bool {
    if i == j {
        v(F64 { bits: ONE }) == 1real
    } else if i < j {
        v(F64 { bits: 0 }) == 0real
    } else if j == 0 {
        &&& v(spacing(i as int).negated()) == -node(v, i as int)
        &&& multiplies(ops, v, spacing(i as int).negated(), c(ops, (i - 1) as nat, 0))
    } else {
        &&& multiplies(ops, v, spacing(i as int), c(ops, (i - 1) as nat, j))
        &&& subtracts(
            ops,
            v,
            c(ops, (i - 1) as nat, (j - 1) as nat),
            arithmetic::product(ops, spacing(i as int), c(ops, (i - 1) as nat, j)),
        )
    }
}

/// Are the coefficients of the products exact.
pub open spec fn exact_tables<A: Arithmetic>(ops: &A, v: Reading) -> bool {
    &&& v(F64 { bits: ONE }) == 1real
    &&& v(F64 { bits: 0 }) == 0real
    &&& forall|i: nat, j: nat| i < DEGREE && j < DEGREE ==> #[trigger] exact_c(ops, v, i, j)
}

/// How the coefficients of one product come from those of the one before.
proof fn lemma_c<A: Arithmetic>(ops: &A, v: Reading, n: nat, k: nat)
    requires
        exact_tables(ops, v),
        1 <= n < DEGREE,
        k < DEGREE,
    ensures
        v(c(ops, n, k)) == (if k == 0 {
            0real
        } else {
            v(c(ops, (n - 1) as nat, (k - 1) as nat))
        }) - node(v, n as int) * v(c(ops, (n - 1) as nat, k)),
{
    assert(exact_c(ops, v, n, k));
    let x = node(v, n as int);
    let y = v(c(ops, (n - 1) as nat, k));
    rounding::lemma_minus(x, 1real);
    rounding::lemma_minus(y, x);
    rounding::lemma_order(y, x, 1real);
    rounding::lemma_order(y, -x, 1real);
}

/// The first `m` terms of a product, from those of the one before.
proof fn lemma_terms<A: Arithmetic>(ops: &A, v: Reading, t: real, n: nat, m: nat)
    requires
        exact_tables(ops, v),
        1 <= n < DEGREE,
        m <= DEGREE,
    ensures
        total(|k: int| v(c(ops, n, k as nat)) * power(t, (k + 1) as nat), m) == (if m == 0 {
            0real
        } else {
            t * total(
                |k: int| v(c(ops, (n - 1) as nat, k as nat)) * power(t, (k + 1) as nat),
                (m - 1) as nat,
            )
        }) - node(v, n as int) * total(
            |k: int| v(c(ops, (n - 1) as nat, k as nat)) * power(t, (k + 1) as nat),
            m,
        ),
    decreases m,
{
    let x = node(v, n as int);
    rounding::lemma_minus(x, 1real);
    rounding::lemma_minus(t, 1real);
    if m > 0 {
        let l = (m - 1) as nat;
        lemma_terms(ops, v, t, n, l);
        lemma_c(ops, v, n, l);
        let before = |k: int| v(c(ops, (n - 1) as nat, k as nat)) * power(t, (k + 1) as nat);
        let p = power(t, m);
        let y = v(c(ops, (n - 1) as nat, l));
        rounding::lemma_spread(p, 0real, -(x * y), 0real);
        rounding::lemma_order(x, y, p);
        rounding::lemma_minus(p, x * y);
        rounding::lemma_minus(p, 1real);
        rounding::lemma_order(p, x * y, 1real);
        rounding::lemma_spread(x, total(before, l), y * p, 0real);
        if l > 0 {
            let z = v(c(ops, (n - 1) as nat, (l - 1) as nat));
            let q = power(t, l);
            assert(p == q * t);
            assert((l - 1 + 1) as nat == l);
            rounding::lemma_spread(p, z, -(x * y), 0real);
            rounding::lemma_order(p, z - x * y, 1real);
            rounding::lemma_order(p, z, 1real);
            rounding::lemma_order(z, q, t);
            rounding::lemma_order(t, z * q, 1real);
            rounding::lemma_spread(t, total(before, (l - 1) as nat), z * q, 0real);
        } else {
            rounding::lemma_order(p, -(x * y), 1real);
        }
    }
}

/// The coefficients are those of the products.
proof fn lemma_product_expanded<A: Arithmetic>(ops: &A, v: Reading, t: real, n: nat)
    requires
        exact_tables(ops, v),
        n < DEGREE,
    ensures
        total(|k: int| v(c(ops, n, k as nat)) * power(t, (k + 1) as nat), DEGREE as nat) == newton(
            v,
            t,
            n,
        ),
    decreases n,
{
    if n == 0 {
        let f = |k: int| v(c(ops, 0, k as nat)) * power(t, (k + 1) as nat);
        let g = |k: int|
            if k == 0 {
                t
            } else {
                0real
            };
        assert forall|k: int| 0 <= k < DEGREE implies #[trigger] f(k) == g(k) by {
            assert(exact_c(ops, v, 0, k as nat));
            let p = power(t, (k + 1) as nat);
            rounding::lemma_order(0real, p, 1real);
            rounding::lemma_minus(p, 1real);
            rounding::lemma_order(1real, p, 1real);
            if k == 0 {
                reveal_with_fuel(power, 2);
                rounding::lemma_order(1real, t, 1real);
                rounding::lemma_minus(t, 1real);
            }
        }
        exact::lemma_total_same(f, g, DEGREE as nat);
        reveal_with_fuel(total, 8);
    } else {
        let m = (n - 1) as nat;
        let before = |k: int| v(c(ops, m, k as nat)) * power(t, (k + 1) as nat);
        lemma_product_expanded(ops, v, t, m);
        lemma_terms(ops, v, t, n, DEGREE as nat);
        assert(exact_c(ops, v, m, 6));
        let p = power(t, 7);
        rounding::lemma_order(0real, p, 1real);
        rounding::lemma_minus(p, 1real);
        assert(total(before, 7) == total(before, 6) + before(6));
        assert(before(6) == 0real);
        let y = newton(v, t, m);
        let x = node(v, n as int);
        rounding::lemma_spread(y, t, -x, 0real);
        rounding::lemma_minus(y, x);
        rounding::lemma_minus(y, 1real);
        rounding::lemma_order(y, t, 1real);
        rounding::lemma_order(y, x, 1real);
    }
}

/// Are the operations exact by which divided difference `z` is found.
pub open spec fn exact_divided<A: Arithmetic>(
    ops: &A,
    v: Reading,
    eval: F64,
    acc: F64,
    g: Seq<F64>,
    j: int,
    z: nat,
) -> bool
    decreases z,
{
    if z == 0 {
        &&& subtracts(ops, v, eval, acc)
        &&& divides(ops, v, arithmetic::difference(ops, eval, acc), spacing(j))
    } else {
        let before = divided(ops, eval, acc, g, j, (z - 1) as nat);
        &&& exact_divided(ops, v, eval, acc, g, j, (z - 1) as nat)
        &&& subtracts(ops, v, before, g[z - 1])
        &&& subtracts(ops, v, spacing(j), spacing(z as int))
        &&& divides(
            ops,
            v,
            arithmetic::difference(ops, before, g[z - 1]),
            arithmetic::difference(ops, spacing(j), spacing(z as int)),
        )
    }
}

/// The divided differences put together give the acceleration back.
proof fn lemma_divided<A: Arithmetic>(
    ops: &A,
    v: Reading,
    eval: F64,
    acc: F64,
    g: Seq<F64>,
    j: int,
    z: nat,
)
    requires
        exact_divided(ops, v, eval, acc, g, j, z),
    ensures
        v(eval) - v(acc) == total(|m: int| v(g[m]) * newton(v, node(v, j), m as nat), z) + v(
            divided(ops, eval, acc, g, j, z),
        ) * newton(v, node(v, j), z),
    decreases z,
{
    let t = node(v, j);
    if z > 0 {
        let l = (z - 1) as nat;
        lemma_divided(ops, v, eval, acc, g, j, l);
        let before = v(divided(ops, eval, acc, g, j, l));
        let now = v(divided(ops, eval, acc, g, j, z));
        let d = t - node(v, z as int);
        let y = newton(v, t, l);
        let x = v(g[z - 1]);
        assert(now * d == before - x);
        rounding::lemma_order(now, d, y);
        rounding::lemma_order(d, y, 1real);
        rounding::lemma_spread(y, x, now * d, 0real);
        rounding::lemma_minus(y, 1real);
        rounding::lemma_order(y, x, 1real);
        rounding::lemma_order(y, now * d, 1real);
        rounding::lemma_order(y, before, 1real);
    }
}

/// A product is zero at each of its own nodes.
proof fn lemma_vanishes(v: Reading, j: int, n: nat)
    requires
        1 <= j <= n,
    ensures
        newton(v, node(v, j), n) == 0real,
    decreases n,
{
    let t = node(v, j);
    let y = newton(v, t, (n - 1) as nat);
    let d = t - node(v, n as int);
    rounding::lemma_minus(y, 1real);
    if j < n {
        lemma_vanishes(v, j, (n - 1) as nat);
        rounding::lemma_order(0real, d, 1real);
        rounding::lemma_minus(d, 1real);
    }
}

/// The terms behind a node are zero at the node.
proof fn lemma_rest_vanishes(v: Reading, g: Seq<F64>, j: int, n: nat)
    requires
        1 <= j <= n,
    ensures
        total(|m: int| v(g[m]) * newton(v, node(v, j), m as nat), n) == total(
            |m: int| v(g[m]) * newton(v, node(v, j), m as nat),
            j as nat,
        ),
    decreases n,
{
    if j < n {
        lemma_rest_vanishes(v, g, j, (n - 1) as nat);
        lemma_vanishes(v, j, (n - 1) as nat);
        rounding::lemma_minus(v(g[n - 1]), 1real);
    }
}

/// Are the coefficients of one component exact.
pub open spec fn exact_coefficients<A: Arithmetic>(ops: &A, v: Reading, g: Seq<F64>) -> bool {
    forall|k: int|
        0 <= k < DEGREE ==> exact::dots_up(ops, v, g, #[trigger] c_column(ops, k), DEGREE as nat)
}

/// The first `n` differences, put together by coefficients and put together by products.
proof fn lemma_both_ways<A: Arithmetic>(ops: &A, v: Reading, g: Seq<F64>, t: real, n: nat)
    requires
        exact_tables(ops, v),
        n <= DEGREE,
    ensures
        total(
            |k: int|
                total(|z: int| v(g[z]) * v(c(ops, z as nat, k as nat)), n) * power(
                    t,
                    (k + 1) as nat,
                ),
            DEGREE as nat,
        ) == total(|z: int| v(g[z]) * newton(v, t, z as nat), n),
    decreases n,
{
    let all = |k: int|
        total(|z: int| v(g[z]) * v(c(ops, z as nat, k as nat)), n) * power(t, (k + 1) as nat);
    if n == 0 {
        let none = |k: int| 0real;
        assert forall|k: int| 0 <= k < DEGREE implies #[trigger] all(k) == none(k) by {
            let p = power(t, (k + 1) as nat);
            rounding::lemma_order(0real, p, 1real);
            rounding::lemma_minus(p, 1real);
        }
        exact::lemma_total_same(all, none, DEGREE as nat);
        reveal_with_fuel(total, 8);
    } else {
        let m = (n - 1) as nat;
        lemma_both_ways(ops, v, g, t, m);
        lemma_product_expanded(ops, v, t, m);
        let some = |k: int|
            total(|z: int| v(g[z]) * v(c(ops, z as nat, k as nat)), m) * power(t, (k + 1) as nat);
        let last = |k: int| v(c(ops, m, k as nat)) * power(t, (k + 1) as nat);
        let x = v(g[m as int]);
        assert forall|k: int| 0 <= k < DEGREE implies #[trigger] all(k) == 1real * some(k) + x
            * last(k) by {
            let p = power(t, (k + 1) as nat);
            let y = v(c(ops, m, k as nat));
            let part = total(|z: int| v(g[z]) * v(c(ops, z as nat, k as nat)), m);
            rounding::lemma_spread(p, part, x * y, 0real);
            rounding::lemma_minus(p, 1real);
            rounding::lemma_order(p, part, 1real);
            rounding::lemma_order(p, x * y, 1real);
            rounding::lemma_order(p, part + x * y, 1real);
            rounding::lemma_order(x, y, p);
            rounding::lemma_order(1real, part * p, 1real);
            rounding::lemma_minus(part * p, 1real);
        }
        exact::lemma_total_mix(1real, some, x, last, all, DEGREE as nat);
        let q = total(some, DEGREE as nat);
        rounding::lemma_order(1real, q, 1real);
        rounding::lemma_minus(q, 1real);
    }
}

/// The coefficients are those of the polynomial which the divided differences stand for.
proof fn lemma_coefficients<A: Arithmetic>(ops: &A, v: Reading, g: Seq<F64>, b: Seq<F64>, t: real)
    requires
        exact_tables(ops, v),
        exact_coefficients(ops, v, g),
        b == Seq::new(
            DEGREE as nat,
            |k: int| numbers::dot(ops, g, c_column(ops, k), DEGREE as nat),
        ),
    ensures
        polynomial(v, b, t) == total(|z: int| v(g[z]) * newton(v, t, z as nat), DEGREE as nat),
{
    lemma_both_ways(ops, v, g, t, DEGREE as nat);
    let f = |k: int| v(b[k]) * power(t, (k + 1) as nat);
    let h = |k: int|
        total(|z: int| v(g[z]) * v(c(ops, z as nat, k as nat)), DEGREE as nat) * power(
            t,
            (k + 1) as nat,
        );
    assert forall|k: int| 0 <= k < DEGREE implies #[trigger] f(k) == h(k) by {
        let column = c_column(ops, k);
        exact::lemma_dots_up(ops, v, g, column, DEGREE as nat);
        exact::lemma_total_same(
            |z: int| v(g[z]) * v(column[z]),
            |z: int| v(g[z]) * v(c(ops, z as nat, k as nat)),
            DEGREE as nat,
        );
    }
    exact::lemma_total_same(f, h, DEGREE as nat);
}

/// Are the operations exact by which a sweep finds the first `n` divided differences.
pub open spec fn exact_swept<M, A: Arithmetic>(
    model: Model,
    ops: &A,
    v: Reading,
    rule: Rule<M>,
    step: F64,
    n: nat,
    note: M,
) -> bool
    decreases n,
{
    n == 0 || {
        let m = (n - 1) as nat;
        &&& exact_swept(model, ops, v, rule, step, m, note)
        &&& multiplies(ops, v, spacing(n as int), step)
        &&& adds(
            ops,
            v,
            model.time.value,
            arithmetic::product(ops, spacing(n as int), step),
        )
        &&& match (
            model.swept(ops, rule, step, m, note).0,
            model.swept(ops, rule, step, n, note).0,
        ) {
            (Ok((g, _)), Ok((_, f))) => forall|i: int|
                0 <= i < model.pos.len() ==> #[trigger] exact_divided(
                    ops,
                    v,
                    f[i],
                    model.acc[i],
                    g[i],
                    n as int,
                    m,
                ),
            _ => true,
        }
    }
}

/// What the first `n` divided differences stand for at `t`.
pub open spec fn rebuilt(v: Reading, g: Seq<F64>, t: real, n: nat) -> real {
    total(|m: int| v(g[m]) * newton(v, t, m as nat), n)
}

/// Do the divided differences up to node `j` give the acceleration `f` back.
pub open spec fn fits(v: Reading, model: Model, f: Seq<F64>, g: Seq<Seq<F64>>, j: int) -> bool {
    forall|i: int|
        0 <= i < model.pos.len() ==> v(f[i]) - v(model.acc[i]) == rebuilt(
            v,
            #[trigger] g[i],
            node(v, j),
            j as nat,
        )
}

/// Is `t` the moment of node `j` of a step: as far into the step as the node is.
pub open spec fn is_moment(v: Reading, model: Model, step: F64, j: int, t: Time) -> bool {
    v(t.jd) == v(model.time.value) + node(v, j) * v(step)
}

/// The divided differences after a sweep give back the acceleration at every node.
proof fn lemma_swept<M, A: Arithmetic>(
    model: Model,
    ops: &A,
    v: Reading,
    rule: Rule<M>,
    step: F64,
    n: nat,
    note: M,
    j: int,
) -> (r: (Time, M, Seq<F64>))
    requires
        1 <= j <= n,
        model.swept(ops, rule, step, n, note).0 is Ok,
        exact_swept(model, ops, v, rule, step, n, note),
    ensures
        is_moment(v, model, step, j, r.0),
        rule(r.0, model.node_pos(ops, step, j), model.node_vel(ops, step, j), r.1, false).0 == Ok::<
            Seq<F64>,
            Error,
        >(r.2),
        fits(v, model, r.2, model.swept(ops, rule, step, n, note).0->Ok_0.0, j),
    decreases n,
{
    let m = (n - 1) as nat;
    let g = model.swept(ops, rule, step, n, note).0->Ok_0.0;
    let before = model.swept(ops, rule, step, m, note).0->Ok_0.0;
    let t = node(v, j);
    lemma_sweep_shape(model, ops, rule, step, m, note);
    if j < n {
        let r = lemma_swept(model, ops, v, rule, step, m, note, j);
        assert forall|i: int| 0 <= i < model.pos.len() implies v(r.2[i]) - v(model.acc[i])
            == rebuilt(v, #[trigger] g[i], t, j as nat) by {
            exact::lemma_total_same(
                |m: int| v(before[i][m]) * newton(v, t, m as nat),
                |m: int| v(g[i][m]) * newton(v, t, m as nat),
                j as nat,
            );
        }
        r
    } else {
        let at = model.node_time(ops, step, j);
        let last = model.swept(ops, rule, step, m, note).1;
        let f = rule(
            at,
            model.node_pos(ops, step, j),
            model.node_vel(ops, step, j),
            last,
            false,
        ).0->Ok_0;
        let (some, all) = (
            model.swept(ops, rule, step, m, note).0,
            model.swept(ops, rule, step, n, note).0,
        );
        assert(some is Ok && all->Ok_0.1 == f);
        assert(exact_swept(model, ops, v, rule, step, n, note));
        assert(forall|i: int|
            0 <= i < model.pos.len() ==> #[trigger] exact_divided(
                ops,
                v,
                f[i],
                model.acc[i],
                before[i],
                n as int,
                m,
            ));
        assert forall|i: int| 0 <= i < model.pos.len() implies v(f[i]) - v(model.acc[i]) == rebuilt(
            v,
            #[trigger] g[i],
            t,
            j as nat,
        ) by {
            assert(exact_divided(ops, v, f[i], model.acc[i], before[i], j, m));
            lemma_divided(ops, v, f[i], model.acc[i], before[i], j, m);
            exact::lemma_total_same(
                |m: int| v(before[i][m]) * newton(v, t, m as nat),
                |m: int| v(g[i][m]) * newton(v, t, m as nat),
                m,
            );
        }
        (at, last, f)
    }
}

/// A sweep of `n` nodes finds `n` divided differences for each component.
proof fn lemma_sweep_shape<M, A: Arithmetic>(
    model: Model,
    ops: &A,
    rule: Rule<M>,
    step: F64,
    n: nat,
    note: M,
)
    ensures
        model.swept(ops, rule, step, n, note).0 matches Ok((g, _)) ==> g.len() == model.pos.len()
            && forall|i: int| 0 <= i < g.len() ==> (#[trigger] g[i]).len() == n,
    decreases n,
{
    if n > 0 {
        lemma_sweep_shape(model, ops, rule, step, (n - 1) as nat, note);
    }
}

/// The polynomial found by a sweep passes through what the rule gives at every node: node `j` is
/// evaluated when that fraction of the step is over, and there the polynomial is the acceleration.
pub proof fn law_polynomial_meets_the_rule<M, A: Arithmetic>(
    model: Model,
    ops: &A,
    v: Reading,
    rule: Rule<M>,
    step: F64,
    note: M,
    j: int,
) -> (r: (Time, M, Seq<F64>))
    requires
        1 <= j <= 7,
        model.swept(ops, rule, step, DEGREE as nat, note).0 is Ok,
        exact_swept(model, ops, v, rule, step, DEGREE as nat, note),
        exact_tables(ops, v),
        forall|i: int|
            0 <= i < model.pos.len() ==> exact_coefficients(
                ops,
                v,
                #[trigger] model.swept(ops, rule, step, DEGREE as nat, note).0->Ok_0.0[i],
            ),
    ensures
        v(r.0.jd) == v(model.time.value) + node(v, j) * v(step),
        rule(r.0, model.node_pos(ops, step, j), model.node_vel(ops, step, j), r.1, false).0 == Ok::<
            Seq<F64>,
            Error,
        >(r.2),
        forall|i: int|
            0 <= i < model.pos.len() ==> v(r.2[i]) == v(model.acc[i]) + polynomial(
                v,
                #[trigger] model.coefficients(
                    ops,
                    model.swept(ops, rule, step, DEGREE as nat, note).0->Ok_0.0,
                )[i],
                node(v, j),
            ),
{
    let g = model.swept(ops, rule, step, DEGREE as nat, note).0->Ok_0.0;
    let r = lemma_swept(model, ops, v, rule, step, DEGREE as nat, note, j);
    let b = model.coefficients(ops, g);
    let t = node(v, j);
    assert forall|i: int| 0 <= i < model.pos.len() implies v(r.2[i]) == v(model.acc[i])
        + polynomial(v, #[trigger] b[i], t) by {
        assert(exact_coefficients(ops, v, g[i]));
        lemma_coefficients(ops, v, g[i], b[i], t);
        lemma_rest_vanishes(v, g[i], j, DEGREE as nat);
        let f = r.2;
        assert(v(f[i]) - v(model.acc[i]) == rebuilt(v, g[i], t, j as nat));
    }
    r
}

/// The integral of the polynomial up to `t`: what a power is integrated to is the next power over
/// its number.
pub open spec fn integral(v: Reading, b: Seq<F64>, t: real) -> real {
    total(|k: int| v(b[k]) * (power(t, (k + 2) as nat) * share((k + 2) as nat)), DEGREE as nat)
}

/// The integral of the integral of the polynomial up to `t`.
pub open spec fn second_integral(v: Reading, b: Seq<F64>, t: real) -> real {
    total(
        |k: int|
            v(b[k]) * (power(t, (k + 3) as nat) * (share((k + 2) as nat) * share((k + 3) as nat))),
        DEGREE as nat,
    )
}

/// The velocity at fraction `t` of a step of the length `h`, under the acceleration `acc` plus the
/// polynomial.
pub open spec fn velocity_at(
    v: Reading,
    vel: real,
    acc: real,
    b: Seq<F64>,
    h: real,
    t: real,
) -> real {
    vel + h * (acc * t + integral(v, b, t))
}

/// The position at fraction `t` of a step of the length `h`, under the acceleration `acc` plus the
/// polynomial.
pub open spec fn position_at(
    v: Reading,
    pos: real,
    vel: real,
    acc: real,
    b: Seq<F64>,
    h: real,
    t: real,
) -> real {
    pos + h * (vel * t) + (h * h) * (acc * (power(t, 2) * share(2)) + second_integral(v, b, t))
}

/// Are the weights of the coefficients exact.
pub open spec fn exact_weights<A: Arithmetic>(ops: &A, v: Reading) -> bool {
    &&& v(F64 { bits: ONE }) == 1real
    &&& v(F64 { bits: TWO }) == 2real
    &&& v(F64 { bits: HALF }) * 2real == 1real
    &&& forall|k: int|
        0 <= k < DEGREE ==> {
            &&& v(ops.whole((k + 2) as u64)) == count((k + 2) as nat)
            &&& v(ops.whole(((k + 2) * (k + 3)) as u64)) == count(((k + 2) * (k + 3)) as nat)
            &&& divides(ops, v, F64 { bits: ONE }, ops.whole((k + 2) as u64))
            &&& #[trigger] divides(
                ops,
                v,
                F64 { bits: ONE },
                ops.whole(((k + 2) * (k + 3)) as u64),
            )
        }
}

/// The weights are shares.
proof fn lemma_weights<A: Arithmetic>(ops: &A, v: Reading, k: int)
    requires
        exact_weights(ops, v),
        0 <= k < DEGREE,
    ensures
        v(u(ops, k)) == share((k + 2) as nat),
        v(w(ops, k)) == share((k + 2) as nat) * share((k + 3) as nat),
{
    assert(divides(ops, v, F64 { bits: ONE }, ops.whole(((k + 2) * (k + 3)) as u64)));
    exact::lemma_share((k + 2) as nat, v(u(ops, k)));
    let (a, b) = ((k + 2) as nat, (k + 3) as nat);
    exact::lemma_share_of_share(a, b);
    assert(a * b > 0) by (nonlinear_arith)
        requires
            a > 0,
            b > 0,
    ;
    exact::lemma_share(a * b, v(w(ops, k)));
}

/// Are the powers of a number exact.
pub open spec fn exact_raised<A: Arithmetic>(ops: &A, v: Reading, x: F64, k: nat) -> bool
    decreases k,
{
    k == 0 || {
        &&& exact_raised(ops, v, x, (k - 1) as nat)
        &&& multiplies(ops, v, raised(ops, x, (k - 1) as nat), x)
    }
}

/// The powers of a number.
proof fn lemma_raised<A: Arithmetic>(ops: &A, v: Reading, x: F64, k: nat)
    requires
        exact_raised(ops, v, x, k),
    ensures
        v(raised(ops, x, k)) == power(v(x), k + 1),
    decreases k,
{
    if k == 0 {
        reveal_with_fuel(power, 2);
        rounding::lemma_order(1real, v(x), 1real);
        rounding::lemma_minus(v(x), 1real);
    } else {
        lemma_raised(ops, v, x, (k - 1) as nat);
    }
}

/// Are the weights at node `j` exact.
pub open spec fn exact_node_weights<A: Arithmetic>(ops: &A, v: Reading, j: int) -> bool {
    forall|k: int|
        0 <= k < DEGREE ==> {
            &&& #[trigger] exact_raised(ops, v, spacing(j), k as nat)
            &&& multiplies(ops, v, raised(ops, spacing(j), k as nat), u(ops, k))
            &&& multiplies(ops, v, raised(ops, spacing(j), k as nat), w(ops, k))
        }
}

/// Are the operations exact by which the velocity of component `i` at node `j` is found.
pub open spec fn exact_node_vel<A: Arithmetic>(
    model: Model,
    ops: &A,
    v: Reading,
    step: F64,
    j: int,
    i: int,
) -> bool {
    let h = arithmetic::product(ops, spacing(j), step);
    let part = numbers::dot(ops, model.b[i], u_pow(ops, j), DEGREE as nat);
    let whole = arithmetic::sum(ops, model.acc[i], part);
    &&& multiplies(ops, v, spacing(j), step)
    &&& exact::dots_up(ops, v, model.b[i], u_pow(ops, j), DEGREE as nat)
    &&& adds(ops, v, model.acc[i], part)
    &&& multiplies(ops, v, h, whole)
    &&& adds(ops, v, model.vel[i].value, arithmetic::product(ops, h, whole))
}

/// The velocity at a node is the integral of the acceleration up to there.
pub proof fn law_node_velocity<A: Arithmetic>(
    model: Model,
    ops: &A,
    v: Reading,
    step: F64,
    j: int,
    i: int,
)
    requires
        0 <= i < model.pos.len(),
        exact_weights(ops, v),
        exact_node_weights(ops, v, j),
        exact_node_vel(model, ops, v, step, j, i),
    ensures
        model.node_vel(ops, step, j).len() == model.pos.len(),
        v(model.node_vel(ops, step, j)[i]) == velocity_at(
            v,
            v(model.vel[i].value),
            v(model.acc[i]),
            model.b[i],
            v(step),
            node(v, j),
        ),
{
    let (t, h, a) = (node(v, j), v(step), v(model.acc[i]));
    let b = model.b[i];
    let row = u_pow(ops, j);
    exact::lemma_dots_up(ops, v, b, row, DEGREE as nat);
    let f = |k: int| v(b[k]) * v(row[k]);
    let g = |k: int| v(b[k]) * (power(t, (k + 2) as nat) * share((k + 2) as nat));
    assert forall|k: int| 0 <= k < DEGREE implies #[trigger] g(k) == t * f(k) by {
        assert(exact_raised(ops, v, spacing(j), k as nat));
        lemma_raised(ops, v, spacing(j), k as nat);
        lemma_weights(ops, v, k);
        let (p, s, x) = (power(t, (k + 1) as nat), share((k + 2) as nat), v(b[k]));
        assert(power(t, (k + 2) as nat) == p * t);
        rounding::lemma_order(p, t, s);
        rounding::lemma_order(t, p, s);
        rounding::lemma_order(p, t, 1real);
        conics::lemma_swap(t, x, p * s);
    }
    exact::lemma_total_times(t, f, g, DEGREE as nat);
    let part = total(f, DEGREE as nat);
    rounding::lemma_order(t, h, a + part);
    rounding::lemma_order(h, t, a + part);
    rounding::lemma_order(t, h, 1real);
    rounding::lemma_spread(t, a, part, 0real);
    rounding::lemma_minus(t, 1real);
    rounding::lemma_order(t, a, 1real);
}

/// Are the operations exact by which the position of component `i` at node `j` is found.
pub open spec fn exact_node_pos<A: Arithmetic>(
    model: Model,
    ops: &A,
    v: Reading,
    step: F64,
    j: int,
    i: int,
) -> bool {
    let h1 = arithmetic::product(ops, spacing(j), step);
    let h2 = arithmetic::product(ops, h1, h1);
    let part = numbers::dot(ops, model.b[i], w_pow(ops, j), DEGREE as nat);
    let half = arithmetic::quotient(ops, model.acc[i], F64 { bits: TWO });
    let whole = arithmetic::sum(ops, half, part);
    let straight = arithmetic::product(ops, h1, model.vel[i].value);
    &&& multiplies(ops, v, spacing(j), step)
    &&& multiplies(ops, v, h1, h1)
    &&& exact::dots_up(ops, v, model.b[i], w_pow(ops, j), DEGREE as nat)
    &&& divides(ops, v, model.acc[i], F64 { bits: TWO })
    &&& adds(ops, v, half, part)
    &&& multiplies(ops, v, h2, whole)
    &&& multiplies(ops, v, h1, model.vel[i].value)
    &&& adds(ops, v, model.pos[i].value, straight)
    &&& adds(
        ops,
        v,
        arithmetic::sum(ops, model.pos[i].value, straight),
        arithmetic::product(ops, h2, whole),
    )
}

/// Half of a number.
proof fn lemma_half(x: real, a: real)
    requires
        x * 2real == a,
    ensures
        x == a * share(2),
{
    reveal_with_fuel(count, 3);
    exact::lemma_share_of_share(2, 1);
    let s = share(2);
    rounding::lemma_order(x, 2real, s);
    rounding::lemma_order(s, 2real, 1real);
    rounding::lemma_minus(x, 1real);
}

/// The position at a node is the integral of the velocity up to there.
pub proof fn law_node_position<A: Arithmetic>(
    model: Model,
    ops: &A,
    v: Reading,
    step: F64,
    j: int,
    i: int,
)
    requires
        0 <= i < model.pos.len(),
        exact_weights(ops, v),
        exact_node_weights(ops, v, j),
        exact_node_pos(model, ops, v, step, j, i),
    ensures
        model.node_pos(ops, step, j).len() == model.pos.len(),
        v(model.node_pos(ops, step, j)[i]) == position_at(
            v,
            v(model.pos[i].value),
            v(model.vel[i].value),
            v(model.acc[i]),
            model.b[i],
            v(step),
            node(v, j),
        ),
{
    let (t, h, a, y) = (node(v, j), v(step), v(model.acc[i]), v(model.vel[i].value));
    let b = model.b[i];
    let row = w_pow(ops, j);
    exact::lemma_dots_up(ops, v, b, row, DEGREE as nat);
    let f = |k: int| v(b[k]) * v(row[k]);
    let g = |k: int|
        v(b[k]) * (power(t, (k + 3) as nat) * (share((k + 2) as nat) * share((k + 3) as nat)));
    let tt = t * t;
    assert forall|k: int| 0 <= k < DEGREE implies #[trigger] g(k) == tt * f(k) by {
        assert(exact_raised(ops, v, spacing(j), k as nat));
        lemma_raised(ops, v, spacing(j), k as nat);
        lemma_weights(ops, v, k);
        let (p, x) = (power(t, (k + 1) as nat), v(b[k]));
        let s = share((k + 2) as nat) * share((k + 3) as nat);
        assert(power(t, (k + 2) as nat) == p * t);
        assert(power(t, (k + 3) as nat) == (p * t) * t);
        rounding::lemma_order(p, t, t);
        rounding::lemma_order(p, tt, s);
        rounding::lemma_order(tt, p, s);
        rounding::lemma_order(p, tt, 1real);
        conics::lemma_swap(tt, x, p * s);
    }
    exact::lemma_total_times(tt, f, g, DEGREE as nat);
    let part = total(f, DEGREE as nat);
    let s = share(2);
    let half = arithmetic::quotient(ops, model.acc[i], F64 { bits: TWO });
    lemma_half(v(half), a);
    reveal_with_fuel(power, 3);
    rounding::lemma_order(1real, t, 1real);
    rounding::lemma_minus(t, 1real);
    assert(power(t, 2) == tt);
    // the straight part
    rounding::lemma_order(t, h, y);
    rounding::lemma_order(h, t, y);
    rounding::lemma_order(t, h, 1real);
    rounding::lemma_order(t, y, 1real);
    // the curved part
    rounding::lemma_factors(t, h, t, h);
    let hh = h * h;
    let e = a * s + part;
    rounding::lemma_order(tt, hh, e);
    rounding::lemma_order(hh, tt, e);
    rounding::lemma_order(tt, hh, 1real);
    rounding::lemma_spread(tt, a * s, part, 0real);
    rounding::lemma_minus(tt, 1real);
    conics::lemma_swap(tt, a, s);
    rounding::lemma_order(a, tt, s);
}

/// Are the operations exact by which component `i` moves in a step.
pub open spec fn exact_steps<A: Arithmetic>(
    model: Model,
    ops: &A,
    v: Reading,
    step: F64,
    i: int,
) -> bool {
    let (by_u, by_w) = (
        numbers::dot(ops, model.b[i], u_row(ops), DEGREE as nat),
        numbers::dot(ops, model.b[i], w_row(ops), DEGREE as nat),
    );
    let half = arithmetic::product(ops, model.acc[i], F64 { bits: HALF });
    let hh = arithmetic::product(ops, step, step);
    let straight = arithmetic::product(ops, model.vel[i].value, step);
    &&& exact::dots_up(ops, v, model.b[i], u_row(ops), DEGREE as nat)
    &&& exact::dots_up(ops, v, model.b[i], w_row(ops), DEGREE as nat)
    &&& adds(ops, v, model.acc[i], by_u)
    &&& multiplies(ops, v, step, arithmetic::sum(ops, model.acc[i], by_u))
    &&& multiplies(ops, v, model.acc[i], F64 { bits: HALF })
    &&& multiplies(ops, v, step, step)
    &&& multiplies(ops, v, model.vel[i].value, step)
    &&& adds(ops, v, half, by_w)
    &&& multiplies(ops, v, hh, arithmetic::sum(ops, half, by_w))
    &&& adds(
        ops,
        v,
        straight,
        arithmetic::product(ops, hh, arithmetic::sum(ops, half, by_w)),
    )
}

/// A step moves velocity and position by the integrals of the acceleration over the step.
pub proof fn law_step_integrates<A: Arithmetic>(
    model: Model,
    ops: &A,
    v: Reading,
    step: F64,
    i: int,
)
    requires
        0 <= i < model.pos.len(),
        exact_weights(ops, v),
        exact_steps(model, ops, v, step, i),
    ensures
        v(model.vel_steps(ops, step)[i]) == velocity_at(
            v,
            0real,
            v(model.acc[i]),
            model.b[i],
            v(step),
            1real,
        ),
        v(model.pos_steps(ops, step)[i]) == position_at(
            v,
            0real,
            v(model.vel[i].value),
            v(model.acc[i]),
            model.b[i],
            v(step),
            1real,
        ),
{
    let (h, a, y) = (v(step), v(model.acc[i]), v(model.vel[i].value));
    let b = model.b[i];
    let (ur, wr) = (u_row(ops), w_row(ops));
    exact::lemma_dots_up(ops, v, b, ur, DEGREE as nat);
    exact::lemma_dots_up(ops, v, b, wr, DEGREE as nat);
    assert forall|k: int| 0 <= k < DEGREE implies v(b[k]) * v(#[trigger] ur[k]) == v(b[k]) * (power(
        1real,
        (k + 2) as nat,
    ) * share((k + 2) as nat)) by {
        lemma_weights(ops, v, k);
        exact::lemma_power_one((k + 2) as nat);
        let s = share((k + 2) as nat);
        rounding::lemma_order(1real, s, 1real);
        rounding::lemma_minus(s, 1real);
    }
    assert forall|k: int| 0 <= k < DEGREE implies v(b[k]) * v(#[trigger] wr[k]) == v(b[k]) * (power(
        1real,
        (k + 3) as nat,
    ) * (share((k + 2) as nat) * share((k + 3) as nat))) by {
        lemma_weights(ops, v, k);
        exact::lemma_power_one((k + 3) as nat);
        let s = share((k + 2) as nat) * share((k + 3) as nat);
        rounding::lemma_order(1real, s, 1real);
        rounding::lemma_minus(s, 1real);
    }
    exact::lemma_total_same(
        |k: int| v(b[k]) * v(ur[k]),
        |k: int| v(b[k]) * (power(1real, (k + 2) as nat) * share((k + 2) as nat)),
        DEGREE as nat,
    );
    exact::lemma_total_same(
        |k: int| v(b[k]) * v(wr[k]),
        |k: int|
            v(b[k]) * (power(1real, (k + 3) as nat) * (share((k + 2) as nat) * share(
                (k + 3) as nat,
            ))),
        DEGREE as nat,
    );
    rounding::lemma_minus(a, 1real);
    rounding::lemma_minus(y, 1real);
    rounding::lemma_order(y, h, 1real);
    exact::lemma_power_one(2);
    let s = share(2);
    rounding::lemma_order(1real, s, 1real);
    rounding::lemma_minus(s, 1real);
    let half = v(F64 { bits: HALF });
    lemma_half(half, 1real);
    assert(half == s);
}

/// What a step which comes off leaves behind: the coefficients of its last sweep, the state which
/// they lead to, and the acceleration there.
proof fn lemma_settled<M, A: Arithmetic>(
    model: Model,
    ops: &A,
    rule: Rule<M>,
    step: F64,
    left: nat,
    note: M,
) -> (r: (Model, M, M))
    requires
        model.settled(ops, rule, step, left, note).0 is Ok,
    ensures
        ({
            let next = model.settled(ops, rule, step, left, note).1;
            let found = Model { b: next.b, ..model };
            let g = r.0.swept(ops, rule, step, DEGREE as nat, r.1).0;
            &&& r.0 == Model { b: r.0.b, ..model }
            &&& g is Ok
            &&& next.b == r.0.coefficients(ops, g->Ok_0.0)
            &&& next == Model { acc: next.acc, ..found.moved(ops, step) }
            &&& rule(Time { jd: next.time.value }, next.position(), next.velocity(), r.2, true).0
                == Ok::<Seq<F64>, Error>(next.acc)
        }),
    decreases left,
{
    let (r, note1) = model.swept(ops, rule, step, DEGREE as nat, note);
    let (g, eval) = r->Ok_0;
    let improved = Model { b: model.coefficients(ops, g), ..model };
    if improved.change(ops, model.b, eval).spec_lt(
        F64 { bits: CONVERGED },
    ) {
        (model, note, note1)
    } else {
        lemma_settled(improved, ops, rule, step, (left - 1) as nat, note1)
    }
}

/// Does a compensated number keep what its sum gets wrong.
pub open spec fn compensates<A: Arithmetic>(ops: &A, v: Reading, x: Kahan, step: F64) -> bool {
    let wanted = arithmetic::difference(ops, step, x.excess);
    let value = arithmetic::sum(ops, x.value, wanted);
    &&& subtracts(ops, v, step, x.excess)
    &&& subtracts(ops, v, value, x.value)
    &&& subtracts(ops, v, arithmetic::difference(ops, value, x.value), wanted)
}

/// A step which comes off takes the time further by the step, and velocity and position by the
/// integrals of the acceleration: of the polynomial which a sweep over the nodes of the step has
/// found. The acceleration it ends with is the one that the rule gives at the end.
pub proof fn law_step<M, A: Arithmetic>(
    model: Model,
    ops: &A,
    v: Reading,
    rule: Rule<M>,
    step: F64,
    note: M,
    i: int,
) -> (r: (Model, M, M))
    requires
        0 <= i < model.pos.len(),
        model.vel.len() == model.pos.len(),
        model.stepped(ops, rule, step, note).0 is Ok,
        exact_weights(ops, v),
        ({
            let next = model.stepped(ops, rule, step, note).1;
            let found = Model { b: next.b, ..model };
            &&& exact_steps(found, ops, v, step, i)
            &&& compensates(ops, v, model.time, step)
            &&& compensates(ops, v, model.vel[i], found.vel_steps(ops, step)[i])
            &&& compensates(ops, v, model.pos[i], found.pos_steps(ops, step)[i])
        }),
    ensures
        ({
            let next = model.stepped(ops, rule, step, note).1;
            let g = r.0.swept(ops, rule, step, DEGREE as nat, r.1).0;
            let (h, a, y) = (v(step), v(model.acc[i]), v(model.vel[i].value));
            &&& held(v, next.time) == held(v, model.time) + h
            &&& held(v, next.vel[i]) == velocity_at(
                v,
                held(v, model.vel[i]),
                a,
                next.b[i],
                h,
                1real,
            )
            &&& held(v, next.pos[i]) == position_at(
                v,
                held(v, model.pos[i]),
                y,
                a,
                next.b[i],
                h,
                1real,
            )
            &&& r.0 == Model { b: r.0.b, ..model }
            &&& g is Ok
            &&& next.b == r.0.coefficients(ops, g->Ok_0.0)
            &&& rule(Time { jd: next.time.value }, next.position(), next.velocity(), r.2, true).0
                == Ok::<Seq<F64>, Error>(next.acc)
        }),
{
    let next = model.stepped(ops, rule, step, note).1;
    let found = Model { b: next.b, ..model };
    let r = lemma_settled(model, ops, rule, step, MAX_SWEEPS as nat, note);
    law_step_integrates(found, ops, v, step, i);
    exact::law_compensated(ops, v, model.time, step);
    exact::law_compensated(ops, v, model.vel[i], found.vel_steps(ops, step)[i]);
    exact::law_compensated(ops, v, model.pos[i], found.pos_steps(ops, step)[i]);
    r
}

/// The polynomial with the coefficients `e(i)` to `e(n - 1)`, the first of them constant.
pub open spec fn nested(e: spec_fn(int) -> real, n: nat, i: int, t: real) -> real
    decreases n - i,
{
    if i >= n {
        0real
    } else {
        e(i) + t * nested(e, n, i + 1, t)
    }
}

/// A polynomial takes a factor `t - c` off when its value at `c` is taken off.
proof fn lemma_factor(e: spec_fn(int) -> real, n: nat, i: int, t: real, c: real)
    requires
        0 <= i <= n,
    ensures
        nested(e, n, i, t) - nested(e, n, i, c) == (t - c) * nested(
            |k: int| nested(e, n, k + 1, c),
            n,
            i,
            t,
        ),
    decreases n - i,
{
    let q = |k: int| nested(e, n, k + 1, c);
    let d = t - c;
    rounding::lemma_minus(d, 1real);
    if i < n {
        lemma_factor(e, n, i + 1, t, c);
        let (a, b) = (nested(e, n, i + 1, t), nested(e, n, i + 1, c));
        let z = nested(q, n, i + 1, t);
        assert(a - b == d * z);
        rounding::lemma_spread(d, b, t * z, 0real);
        conics::lemma_swap(d, t, z);
        rounding::lemma_spread(t, a, -b, 0real);
        rounding::lemma_minus(t, b);
        rounding::lemma_minus(t, 1real);
        rounding::lemma_spread(b, t, -c, 0real);
        rounding::lemma_minus(b, c);
        rounding::lemma_minus(b, 1real);
        rounding::lemma_order(b, t, 1real);
        rounding::lemma_order(b, c, 1real);
        rounding::lemma_order(b, d, 1real);
    }
}

/// A last coefficient which is zero makes no difference.
proof fn lemma_last(e: spec_fn(int) -> real, n: nat, i: int, t: real)
    requires
        0 <= i <= n,
        e(n as int) == 0real,
    ensures
        nested(e, n + 1, i, t) == nested(e, n, i, t),
    decreases n - i,
{
    rounding::lemma_minus(t, 1real);
    if i < n {
        lemma_last(e, n, i + 1, t);
    } else {
        assert(nested(e, n + 1, i + 1, t) == 0real);
    }
}

/// A polynomial with as many roots as coefficients has none but zeros for coefficients.
proof fn lemma_too_many_roots(
    e: spec_fn(int) -> real,
    n: nat,
    roots: spec_fn(int) -> real,
    k: int,
)
    requires
        0 <= k < n,
        forall|j: int| 0 <= j < n ==> nested(e, n, 0, #[trigger] roots(j)) == 0real,
        forall|i: int, j: int|
            0 <= i < j < n ==> #[trigger] roots(i) < #[trigger] roots(j),
    ensures
        e(k) == 0real,
    decreases n,
{
    let m = (n - 1) as nat;
    let c = roots(n - 1);
    assert(nested(e, n, 0, c) == 0real);
    let q = |k: int| nested(e, n, k + 1, c);
    assert(q(m as int) == 0real);
    assert forall|j: int| 0 <= j < m implies nested(q, m, 0, #[trigger] roots(j)) == 0real by {
        let t = roots(j);
        assert(nested(e, n, 0, t) == 0real);
        lemma_factor(e, n, 0, t, c);
        lemma_last(q, m, 0, t);
        let z = nested(q, m, 0, t);
        assert(roots(j) < roots(n - 1));
        assert((t - c) * z == 0real);
        rounding::lemma_minus(z, t - c);
        rounding::lemma_order(z, t - c, 1real);
        rounding::lemma_order(z, c - t, 1real);
        rounding::lemma_minus(c - t, 1real);
        conics::lemma_cancel(c - t, z, 0real);
    }
    // every coefficient is made of those of the quotient
    assert(nested(e, n, k, c) == e(k) + c * nested(e, n, k + 1, c));
    if k < m {
        lemma_too_many_roots(q, m, roots, k);
    }
    if k > 0 {
        lemma_too_many_roots(q, m, roots, k - 1);
        assert(q(k - 1) == nested(e, n, k, c));
    }
    assert(nested(e, n, k + 1, c) == 0real) by {
        assert(q(k) == nested(e, n, k + 1, c));
    }
    rounding::lemma_minus(c, 1real);
    assert(nested(e, n, k, c) == 0real);
}

/// A polynomial, power by power.
proof fn lemma_powers(e: spec_fn(int) -> real, n: nat, m: nat, t: real)
    requires
        m <= n,
    ensures
        total(|k: int| e(k) * power(t, k as nat), m) + power(t, m) * nested(e, n, m as int, t)
            == nested(e, n, 0, t),
    decreases m,
{
    if m == 0 {
        let x = nested(e, n, 0, t);
        rounding::lemma_order(1real, x, 1real);
        rounding::lemma_minus(x, 1real);
    } else {
        let l = (m - 1) as nat;
        lemma_powers(e, n, l, t);
        let (p, z) = (power(t, l), nested(e, n, m as int, t));
        rounding::lemma_spread(p, e(l as int), t * z, 0real);
        rounding::lemma_minus(p, 1real);
        rounding::lemma_order(p, t, z);
        rounding::lemma_order(p, e(l as int), 1real);
    }
}

/// A sum without its first number.
proof fn lemma_shift(f: spec_fn(int) -> real, g: spec_fn(int) -> real, n: nat)
    requires
        forall|k: int| 0 <= k < n ==> #[trigger] g(k) == f(k + 1),
    ensures
        total(f, n + 1) == f(0) + total(g, n),
    decreases n,
{
    if n == 0 {
        reveal_with_fuel(total, 2);
    } else {
        lemma_shift(f, g, (n - 1) as nat);
        assert(g(n - 1) == f(n as int));
    }
}

/// Is component `i` of the acceleration a polynomial of the fraction of a step that is over, whatever
/// position and velocity are. Its coefficients are `a(0)` to `a(7)`.
pub open spec fn in_time<M>(
    v: Reading,
    rule: Rule<M>,
    start: real,
    h: real,
    i: int,
    a: spec_fn(int) -> real,
) -> bool {
    forall|t: Time, x: Seq<F64>, y: Seq<F64>, note: M, last: bool, s: real|
        #![trigger rule(t, x, y, note, last), nested(a, 8, 0, s)]
        rule(t, x, y, note, last).0 is Ok && v(t.jd) == start + s * h ==> v(
            rule(t, x, y, note, last).0->Ok_0[i],
        ) == nested(a, 8, 0, s)
}

/// An acceleration which is a polynomial of degree seven in time is found by one sweep, coefficient
/// by coefficient.
pub proof fn law_polynomial_is_found<M, A: Arithmetic>(
    model: Model,
    ops: &A,
    v: Reading,
    rule: Rule<M>,
    step: F64,
    note: M,
    i: int,
    a: spec_fn(int) -> real,
    k: int,
)
    requires
        0 <= i < model.pos.len(),
        0 <= k < DEGREE,
        ordered(v),
        model.swept(ops, rule, step, DEGREE as nat, note).0 is Ok,
        exact_swept(model, ops, v, rule, step, DEGREE as nat, note),
        exact_tables(ops, v),
        forall|i: int|
            0 <= i < model.pos.len() ==> exact_coefficients(
                ops,
                v,
                #[trigger] model.swept(ops, rule, step, DEGREE as nat, note).0->Ok_0.0[i],
            ),
        in_time(v, rule, v(model.time.value), v(step), i, a),
        v(model.acc[i]) == a(0),
    ensures
        v(
            model.coefficients(
                ops,
                model.swept(ops, rule, step, DEGREE as nat, note).0->Ok_0.0,
            )[i][k],
        ) == a(k + 1),
{
    let b = model.coefficients(
        ops,
        model.swept(ops, rule, step, DEGREE as nat, note).0->Ok_0.0,
    )[i];
    // what is found, and how far it is off
    let found = |k: int|
        if k == 0 {
            v(model.acc[i])
        } else {
            v(b[k - 1])
        };
    let off = |k: int| found(k) - a(k);
    let roots = |j: int| node(v, j);
    assert forall|j: int| 0 <= j < 8 implies nested(off, 8, 0, #[trigger] roots(j)) == 0real by {
        let t = node(v, j);
        lemma_nested_difference(found, a, off, 8, 0, t);
        if j == 0 {
            assert(t == 0real);
            let (x, y) = (nested(found, 8, 1, t), nested(a, 8, 1, t));
            rounding::lemma_order(0real, x, 1real);
            rounding::lemma_order(0real, y, 1real);
            rounding::lemma_minus(x, 1real);
            rounding::lemma_minus(y, 1real);
            assert(nested(found, 8, 0, t) == found(0));
            assert(nested(a, 8, 0, t) == a(0));
        } else {
            let r = law_polynomial_meets_the_rule(model, ops, v, rule, step, note, j);
            assert(v(
                rule(
                    r.0,
                    model.node_pos(ops, step, j),
                    model.node_vel(ops, step, j),
                    r.1,
                    false,
                ).0->Ok_0[i],
            ) == nested(a, 8, 0, t));
            lemma_powers(found, 8, 8, t);
            let f = |k: int| found(k) * power(t, k as nat);
            let g = |k: int| v(b[k]) * power(t, (k + 1) as nat);
            assert forall|k: int| 0 <= k < 7 implies #[trigger] g(k) == f(k + 1) by {
            }
            lemma_shift(f, g, 7);
            rounding::lemma_minus(found(0), 1real);
            rounding::lemma_minus(power(t, 8), 1real);
            assert(nested(found, 8, 8, t) == 0real);
            assert(v(r.2[i]) == v(model.acc[i]) + polynomial(v, b, t));
            assert(nested(found, 8, 0, t) == v(r.2[i]));
        }
    }
    assert forall|m: int, n: int| 0 <= m < n < 8 implies #[trigger] roots(m) < #[trigger] roots(
        n,
    ) by {
        if m == 0 {
            if n < 7 {
                law_nodes_are_inside(v, n, 7);
            } else {
                law_nodes_are_inside(v, 1, n);
            }
        } else {
            law_nodes_are_inside(v, m, n);
        }
    }
    lemma_too_many_roots(off, 8, roots, k + 1);
}

/// The difference of two polynomials.
proof fn lemma_nested_difference(
    a: spec_fn(int) -> real,
    b: spec_fn(int) -> real,
    c: spec_fn(int) -> real,
    n: nat,
    i: int,
    t: real,
)
    requires
        0 <= i <= n,
        forall|k: int| 0 <= k < n ==> #[trigger] c(k) == a(k) - b(k),
    ensures
        nested(c, n, i, t) == nested(a, n, i, t) - nested(b, n, i, t),
    decreases n - i,
{
    if i < n {
        lemma_nested_difference(a, b, c, n, i + 1, t);
        assert(c(i) == a(i) - b(i));
        let (x, y) = (nested(a, n, i + 1, t), nested(b, n, i + 1, t));
        rounding::lemma_spread(t, x, -y, 0real);
        rounding::lemma_minus(t, y);
        rounding::lemma_minus(t, 1real);
    }
}

/// An acceleration which is a polynomial of degree seven in time is integrated exactly: over a step
/// the velocity gains its integral, which is the sum of `a(k) / (k + 1)` times the step, and the
/// position that of the velocity.
pub proof fn law_polynomials_are_integrated<M, A: Arithmetic>(
    model: Model,
    ops: &A,
    v: Reading,
    rule: Rule<M>,
    step: F64,
    note: M,
    i: int,
    a: spec_fn(int) -> real,
)
    requires
        0 <= i < model.pos.len(),
        ordered(v),
        exact_weights(ops, v),
        model.swept(ops, rule, step, DEGREE as nat, note).0 is Ok,
        exact_swept(model, ops, v, rule, step, DEGREE as nat, note),
        exact_tables(ops, v),
        forall|i: int|
            0 <= i < model.pos.len() ==> exact_coefficients(
                ops,
                v,
                #[trigger] model.swept(ops, rule, step, DEGREE as nat, note).0->Ok_0.0[i],
            ),
        in_time(v, rule, v(model.time.value), v(step), i, a),
        v(model.acc[i]) == a(0),
        exact_steps(
            (Model {
                b: model.coefficients(
                    ops,
                    model.swept(ops, rule, step, DEGREE as nat, note).0->Ok_0.0,
                ),
                ..model
            }),
            ops,
            v,
            step,
            i,
        ),
    ensures
        ({
            let found = Model {
                b: model.coefficients(
                    ops,
                    model.swept(ops, rule, step, DEGREE as nat, note).0->Ok_0.0,
                ),
                ..model
            };
            let (h, y) = (v(step), v(model.vel[i].value));
            &&& v(found.vel_steps(ops, step)[i]) == h * total(
                |k: int| a(k) * share((k + 1) as nat),
                8,
            )
            &&& v(found.pos_steps(ops, step)[i]) == h * y + (h * h) * total(
                |k: int| a(k) * (share((k + 1) as nat) * share((k + 2) as nat)),
                8,
            )
        }),
{
    let b = model.coefficients(
        ops,
        model.swept(ops, rule, step, DEGREE as nat, note).0->Ok_0.0,
    );
    let found = Model { b, ..model };
    law_step_integrates(found, ops, v, step, i);
    exact::lemma_share_of_share(1, 2);
    exact::lemma_share_of_share(2, 1);
    assert(share(1) == 1real) by {
        reveal_with_fuel(count, 2);
        rounding::lemma_minus(share(1), 1real);
    }
    let f = |k: int| a(k) * share((k + 1) as nat);
    let g = |k: int| v(b[i][k]) * (power(1real, (k + 2) as nat) * share((k + 2) as nat));
    assert forall|k: int| 0 <= k < 7 implies #[trigger] g(k) == f(k + 1) by {
        law_polynomial_is_found(model, ops, v, rule, step, note, i, a, k);
        exact::lemma_power_one((k + 2) as nat);
        let s = share((k + 2) as nat);
        rounding::lemma_order(1real, s, 1real);
        rounding::lemma_minus(s, 1real);
    }
    lemma_shift(f, g, 7);
    rounding::lemma_minus(a(0), 1real);
    let (p, q) = (
        |k: int| a(k) * (share((k + 1) as nat) * share((k + 2) as nat)),
        |k: int|
            v(b[i][k]) * (power(1real, (k + 3) as nat) * (share((k + 2) as nat) * share(
                (k + 3) as nat,
            ))),
    );
    assert forall|k: int| 0 <= k < 7 implies #[trigger] q(k) == p(k + 1) by {
        law_polynomial_is_found(model, ops, v, rule, step, note, i, a, k);
        exact::lemma_power_one((k + 3) as nat);
        let s = share((k + 2) as nat) * share((k + 3) as nat);
        rounding::lemma_order(1real, s, 1real);
        rounding::lemma_minus(s, 1real);
    }
    lemma_shift(p, q, 7);
    exact::lemma_power_one(2);
    rounding::lemma_order(1real, share(2), 1real);
    rounding::lemma_minus(share(2), 1real);
    rounding::lemma_minus(v(model.vel[i].value), 1real);
}

/// The next step is at least a quarter of the one before, at most four times as long, and in the
/// same direction. `k` is the ratio between the two.
pub proof fn law_next_step<A: Arithmetic>(ops: &A, v: Reading, step: F64, ratio: F64) -> (k: F64)
    requires
        ({
            let least = F64 { bits: MIN_RATIO };
            let most = arithmetic::quotient(ops, F64 { bits: ONE }, least);
            let wanted = ops.two(
                Binary::Power,
                arithmetic::quotient(ops, F64 { bits: EPSILON }, ratio),
                F64 { bits: SEVENTH },
            );
            &&& v(F64 { bits: ONE }) == 1real
            &&& v(least) * 4real == 1real
            &&& divides(ops, v, F64 { bits: ONE }, least)
            &&& v(wanted) < v(least) ==> wanted.spec_lt(least)
            &&& v(most) < v(wanted) ==> most.spec_lt(wanted)
            &&& multiplies(ops, v, step, least)
            &&& multiplies(ops, v, step, most)
            &&& multiplies(ops, v, step, wanted)
        }),
    ensures
        v(Model::proposed(ops, step, ratio)) == v(step) * v(k),
        1real <= 4real * v(k),
        v(k) <= 4real,
{
    let least = F64 { bits: MIN_RATIO };
    let most = arithmetic::quotient(ops, F64 { bits: ONE }, least);
    let wanted = ops.two(
        Binary::Power,
        arithmetic::quotient(ops, F64 { bits: EPSILON }, ratio),
        F64 { bits: SEVENTH },
    );
    let (a, b) = (v(least), v(most));
    rounding::lemma_order(b, a, 4real);
    rounding::lemma_minus(b, 1real);
    assert(b == 4real);
    numbers::within(wanted, least, most)
}

/// The first step is towards the goal.
pub proof fn law_first_step_is_forward<A: Arithmetic>(model: Model, ops: &A, goal: Time)
    ensures
        model.first_step(ops, goal).is_negative() == arithmetic::difference(
            ops,
            goal.jd,
            model.time.value,
        ).is_negative(),
{
}

} // verus!
