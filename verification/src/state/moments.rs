//! That the parts of a split together have the mean and the covariance of the whole.
use crate::algebra::Algebra;
use crate::arithmetic;
use crate::arithmetic::{Arithmetic, Unary};
use crate::constants;
use crate::float::F64;
use crate::frames::{CenterBody, InertialFrame};
use crate::numbers;
use crate::rounding;
use crate::rounding::{bounded, near, off_by, rounds, Reading};
use crate::state::diffuse;
use crate::state::diffuse::PartModel;
use crate::state::uncertain::UncertainModel;
use crate::table::Grid;
use vstd::prelude::*;

verus! {

/// Do the constants of a split stand for the numbers they should, up to `eps`.
pub open spec fn fits<A: Arithmetic>(ops: &A, v: Reading, eps: real) -> bool {
    let c = v(diffuse::part_mean(2));
    let s = v(F64 { bits: diffuse::HUBER_K3_SIGMA });
    let kept = ops.one(Unary::Squared, F64 { bits: diffuse::HUBER_K3_SIGMA });
    &&& near(6real * v(diffuse::part_weight(0)), 1real, eps)
    &&& near(3real * v(diffuse::part_weight(1)), 2real, eps)
    &&& v(diffuse::part_mean(0)) == -c
    &&& v(diffuse::part_mean(1)) == 0real
    &&& bounded(c, 2real)
    &&& near(2real * (c * c), 3real, eps)
    &&& near(2real * (s * s), 1real, eps)
    &&& kept.finite() && near(v(kept), s * s, eps)
    &&& v(F64 { bits: constants::ONE }) == 1real
    &&& 2real * v(F64 { bits: constants::HALF }) == 1real
}

/// Are the numbers of a split finite and no larger than `size`, and is `sigma` the root of the
/// variance.
pub open spec fn usual<A: Arithmetic>(
    ops: &A,
    v: Reading,
    mean: Seq<F64>,
    cov: Grid,
    d: Seq<F64>,
    sigma_sq: F64,
    size: real,
    eps: real,
) -> bool {
    let sigma = ops.one(Unary::Sqrt, sigma_sq);
    let n = mean.len();
    &&& d.len() == n
    &&& cov.well_formed() && cov.nrows == n && cov.ncols == n
    &&& forall|i: int| 0 <= i < n ==> (#[trigger] mean[i]).finite() && bounded(v(mean[i]), size)
    &&& forall|i: int| 0 <= i < n ==> (#[trigger] d[i]).finite() && bounded(v(d[i]), 2real)
    &&& forall|i: int, j: int|
        0 <= i < n && 0 <= j < n ==> {
            &&& (#[trigger] cov.at(i, j)).finite()
            &&& bounded(v(cov.at(i, j)), size)
            &&& v(cov.at(i, j)) == v(cov.at(j, i))
        }
    &&& sigma_sq.finite() && bounded(v(sigma_sq), size)
    &&& sigma.finite() && bounded(v(sigma), size)
    &&& near(v(sigma) * v(sigma), v(sigma_sq), eps)
}

/// How good the arithmetic is, and how large numbers may be.
pub open spec fn good<A: Arithmetic>(
    ops: &A,
    v: Reading,
    range: real,
    eps: real,
    size: real,
) -> bool {
    &&& rounds(ops, v, range, eps)
    &&& 10real * eps <= 1real
    &&& 1real <= size
    &&& 100real * size <= range
}

/// An error is no larger than its product with a size.
proof fn lemma_sizes(eps: real, size: real)
    requires
        0real <= eps,
        10real * eps <= 1real,
        1real <= size,
    ensures
        eps <= eps * size,
        10real * (eps * size) <= size,
        10real * (eps * eps) <= eps * size,
{
    rounding::lemma_product(eps, 1real, eps, 1real);
    assert(eps * size - eps == eps * (size - 1real)) by (nonlinear_arith);
    assert(eps * (size - 1real) >= 0real) by (nonlinear_arith)
        requires
            0real <= eps,
            1real <= size,
    ;
    assert(size - 10real * (eps * size) == (1real - 10real * eps) * size) by (nonlinear_arith);
    assert((1real - 10real * eps) * size >= 0real) by (nonlinear_arith)
        requires
            10real * eps <= 1real,
            1real <= size,
    ;
    assert(eps - 10real * (eps * eps) == eps * (1real - 10real * eps)) by (nonlinear_arith);
    assert(eps * (1real - 10real * eps) >= 0real) by (nonlinear_arith)
        requires
            0real <= eps,
            10real * eps <= 1real,
    ;
}

/// A number of the mean of a part: the number of the whole, moved along the direction.
pub open spec fn moved<A: Arithmetic>(ops: &A, m: F64, d: F64, sigma_sq: F64, k: int) -> F64 {
    let sigma = ops.one(Unary::Sqrt, sigma_sq);
    let by = arithmetic::product(ops, diffuse::part_mean(k), sigma);
    arithmetic::sum(ops, m, arithmetic::product(ops, d, by))
}

/// The mean of a part is moved along the direction.
proof fn lemma_moved<A: Arithmetic>(
    ops: &A,
    v: Reading,
    range: real,
    eps: real,
    size: real,
    m: F64,
    d: F64,
    sigma_sq: F64,
    k: int,
)
    requires
        good(ops, v, range, eps, size),
        fits(ops, v, eps),
        m.finite() && bounded(v(m), size),
        d.finite() && bounded(v(d), 2real),
        ops.one(Unary::Sqrt, sigma_sq).finite(),
        bounded(v(ops.one(Unary::Sqrt, sigma_sq)), size),
        0 <= k < 3,
    ensures
        near(
            v(moved(ops, m, d, sigma_sq, k)) - v(m),
            v(d) * (v(diffuse::part_mean(k)) * v(ops.one(Unary::Sqrt, sigma_sq))),
            4real * eps,
        ),
{
    lemma_sizes(eps, size);
    let c = diffuse::part_mean(k);
    let sigma = ops.one(Unary::Sqrt, sigma_sq);
    assert(c.finite());
    assert(bounded(v(c), 2real));
    let by = arithmetic::product(ops, c, sigma);
    let t = arithmetic::product(ops, d, by);
    rounding::lemma_product(v(c), v(sigma), 2real, size);
    assert(off_by(v, by, v(c) * v(sigma), range, eps));
    rounding::lemma_product(v(d), v(by), 2real, 3real * size);
    assert(off_by(v, t, v(d) * v(by), range, eps));
    rounding::lemma_near_product(
        v(by),
        v(c) * v(sigma),
        v(d),
        v(d),
        eps,
        0real,
        2real * size,
        2real,
    );
    rounding::lemma_order(v(d), v(by), 1real);
    rounding::lemma_order(v(d), v(c) * v(sigma), 1real);
    rounding::lemma_minus(2real * size, 1real);
    assert(off_by(v, arithmetic::sum(ops, m, t), v(m) + v(t), range, eps));
}

/// What is taken from a covariance, before the two halves are brought together.
pub open spec fn taken<A: Arithmetic>(ops: &A, p: F64, di: F64, dj: F64, sigma_sq: F64) -> F64 {
    let alpha = arithmetic::product(
        ops,
        arithmetic::difference(
            ops,
            F64 { bits: constants::ONE },
            ops.one(Unary::Squared, F64 { bits: diffuse::HUBER_K3_SIGMA }),
        ),
        sigma_sq,
    );
    arithmetic::difference(
        ops,
        p,
        arithmetic::product(ops, arithmetic::product(ops, di, dj), alpha),
    )
}

/// Half of the variance along the direction is taken from a covariance.
proof fn lemma_taken<A: Arithmetic>(
    ops: &A,
    v: Reading,
    range: real,
    eps: real,
    size: real,
    p: F64,
    di: F64,
    dj: F64,
    sigma_sq: F64,
)
    requires
        good(ops, v, range, eps, size),
        fits(ops, v, eps),
        p.finite() && bounded(v(p), size),
        di.finite() && bounded(v(di), 2real),
        dj.finite() && bounded(v(dj), 2real),
        sigma_sq.finite() && bounded(v(sigma_sq), size),
    ensures
        taken(ops, p, di, dj, sigma_sq).finite(),
        near(
            2real * v(taken(ops, p, di, dj, sigma_sq)),
            2real * v(p) - (v(di) * v(dj)) * v(sigma_sq),
            40real * (eps * size),
        ),
        bounded(v(taken(ops, p, di, dj, sigma_sq)), 10real * size),
{
    lemma_sizes(eps, size);
    let one = F64 { bits: constants::ONE };
    let kept = ops.one(Unary::Squared, F64 { bits: diffuse::HUBER_K3_SIGMA });
    let left = arithmetic::difference(ops, one, kept);
    let alpha = arithmetic::product(ops, left, sigma_sq);
    let o = arithmetic::product(ops, di, dj);
    let t = arithmetic::product(ops, o, alpha);
    let s2 = v(sigma_sq);
    assert(one.finite());
    assert(off_by(v, left, v(one) - v(kept), range, eps));
    assert(near(2real * v(left), 1real, 5real * eps));
    assert(bounded(v(left), 1real));
    rounding::lemma_product(v(left), s2, 1real, size);
    assert(off_by(v, alpha, v(left) * s2, range, eps));
    // twice the factor is the variance
    rounding::lemma_near_product(2real * v(left), 1real, s2, s2, 5real * eps, 0real, 1real, size);
    rounding::lemma_order(2real, v(left), s2);
    rounding::lemma_order(5real, eps, size);
    rounding::lemma_minus(1real, 0real);
    rounding::lemma_order(1real, s2, 1real);
    rounding::lemma_minus(s2, 1real);
    assert(near(2real * v(alpha), s2, 7real * (eps * size)));
    assert(bounded(v(alpha), size));
    rounding::lemma_product(v(di), v(dj), 2real, 2real);
    let dd = v(di) * v(dj);
    assert(off_by(v, o, dd, range, eps));
    rounding::lemma_product(v(o), v(alpha), 5real, size);
    assert(off_by(v, t, v(o) * v(alpha), range, eps));
    rounding::lemma_near_product(
        v(o),
        dd,
        2real * v(alpha),
        s2,
        eps,
        7real * (eps * size),
        4real,
        2real * size,
    );
    rounding::lemma_order(v(o), 2real, v(alpha));
    rounding::lemma_order(2real, v(o), v(alpha));
    rounding::lemma_order(eps, 2real, size);
    rounding::lemma_order(2real, eps, size);
    assert(v(o) * (2real * v(alpha)) == 2real * (v(o) * v(alpha)));
    assert(near(2real * v(t), dd * s2, 32real * (eps * size)));
    assert(off_by(v, arithmetic::difference(ops, p, t), v(p) - v(t), range, eps));
}

/// An entry of the covariance of a part.
pub open spec fn entry<A: Arithmetic>(
    ops: &A,
    cov: Grid,
    d: Seq<F64>,
    sigma_sq: F64,
    i: int,
    j: int,
) -> F64 {
    arithmetic::product(
        ops,
        arithmetic::sum(
            ops,
            taken(ops, cov.at(i, j), d[i], d[j], sigma_sq),
            taken(ops, cov.at(j, i), d[j], d[i], sigma_sq),
        ),
        F64 { bits: constants::HALF },
    )
}

/// The covariance of a part is that of the whole without half of the variance along the direction.
proof fn lemma_entry<A: Arithmetic>(
    ops: &A,
    v: Reading,
    range: real,
    eps: real,
    size: real,
    mean: Seq<F64>,
    cov: Grid,
    d: Seq<F64>,
    sigma_sq: F64,
    i: int,
    j: int,
)
    requires
        good(ops, v, range, eps, size),
        fits(ops, v, eps),
        usual(ops, v, mean, cov, d, sigma_sq, size, eps),
        0 <= i < mean.len(),
        0 <= j < mean.len(),
    ensures
        near(
            2real * v(entry(ops, cov, d, sigma_sq, i, j)),
            2real * v(cov.at(i, j)) - (v(d[i]) * v(d[j])) * v(sigma_sq),
            43real * (eps * size),
        ),
{
    lemma_sizes(eps, size);
    let a = taken(ops, cov.at(i, j), d[i], d[j], sigma_sq);
    let b = taken(ops, cov.at(j, i), d[j], d[i], sigma_sq);
    let half = F64 { bits: constants::HALF };
    lemma_taken(ops, v, range, eps, size, cov.at(i, j), d[i], d[j], sigma_sq);
    lemma_taken(ops, v, range, eps, size, cov.at(j, i), d[j], d[i], sigma_sq);
    rounding::lemma_order(v(d[i]), v(d[j]), 1real);
    let both = arithmetic::sum(ops, a, b);
    assert(half.finite());
    assert(off_by(v, both, v(a) + v(b), range, eps));
    assert(bounded(v(both), 21real * size));
    rounding::lemma_order(v(both), 2real, v(half));
    rounding::lemma_order(2real, v(both), v(half));
    rounding::lemma_minus(v(both), 1real);
    assert(2real * (v(both) * v(half)) == v(both));
    assert(off_by(v, arithmetic::product(ops, both, half), v(both) * v(half), range, eps));
}

/// The sum of three numbers with the weights of the parts.
pub open spec fn mixed(v: Reading, a: real, b: real, c: real) -> real {
    v(diffuse::part_weight(0)) * a + v(diffuse::part_weight(1)) * b + v(diffuse::part_weight(2)) * c
}

/// A number which all parts have in common stays what it is.
proof fn lemma_mixed<A: Arithmetic>(
    ops: &A,
    v: Reading,
    eps: real,
    base: real,
    x: real,
    y: real,
    z: real,
    size: real,
)
    requires
        fits(ops, v, eps),
        0real <= eps,
        10real * eps <= 1real,
        bounded(base, size),
    ensures
        near(
            mixed(v, base + x, base + y, base + z),
            base + v(diffuse::part_weight(0)) * (x + z) + v(diffuse::part_weight(1)) * y,
            eps * size,
        ),
        bounded(v(diffuse::part_weight(0)), 1real),
        bounded(v(diffuse::part_weight(1)), 1real),
{
    let w = v(diffuse::part_weight(0));
    let u = v(diffuse::part_weight(1));
    assert(diffuse::part_weight(2) == diffuse::part_weight(0));
    rounding::lemma_spread(w, base, x, 0real);
    rounding::lemma_spread(u, base, y, 0real);
    rounding::lemma_spread(w, base, z, 0real);
    rounding::lemma_spread(w, x, z, 0real);
    rounding::lemma_minus(w, 1real);
    rounding::lemma_minus(u, 1real);
    rounding::lemma_product(2real * w + u - 1real, base, eps, size);
    rounding::lemma_spread(base, 2real * w, u, -1real);
    rounding::lemma_minus(base, 1real);
    rounding::lemma_order(base, 2real * w + u - 1real, 1real);
    rounding::lemma_order(base, 2real, w);
    rounding::lemma_order(2real, base, w);
    rounding::lemma_order(base, w, 1real);
    rounding::lemma_order(base, u, 1real);
}

/// The products of how far the outer parts are moved.
proof fn lemma_outer(
    eps: real,
    size: real,
    c: real,
    s: real,
    s2: real,
    di: real,
    dj: real,
    a: real,
    b: real,
    ahead: real,
)
    requires
        0real <= eps,
        10real * eps <= 1real,
        1real <= size,
        bounded(c, 2real),
        bounded(s, size),
        bounded(s2, size),
        bounded(di, 2real),
        bounded(dj, 2real),
        near(2real * (c * c), 3real, eps),
        near(s * s, s2, eps),
        ahead == c || ahead == -c,
        near(a, di * (ahead * s), 4real * eps),
        near(b, dj * (ahead * s), 4real * eps),
    ensures
        near(2real * (a * b), 3real * ((di * dj) * s2), 92real * (eps * size)),
{
    lemma_sizes(eps, size);
    let cs = ahead * s;
    rounding::lemma_product(ahead, s, 2real, size);
    rounding::lemma_product(di, cs, 2real, 2real * size);
    rounding::lemma_product(dj, cs, 2real, 2real * size);
    rounding::lemma_near_product(
        a,
        di * cs,
        b,
        dj * cs,
        4real * eps,
        4real * eps,
        4real * size,
        5real * size,
    );
    rounding::lemma_factors(4real, eps, 5real, size);
    rounding::lemma_factors(4real, size, 4real, eps);
    rounding::lemma_order(size, eps, 1real);
    assert(near(a * b, (di * cs) * (dj * cs), 36real * (eps * size)));
    rounding::lemma_factors(di, cs, dj, cs);
    rounding::lemma_factors(ahead, s, ahead, s);
    assert((-c) * (-c) == c * c) by (nonlinear_arith);
    let cc = c * c;
    let ss = s * s;
    let dd = di * dj;
    assert(cs * cs == cc * ss);
    rounding::lemma_near_product(2real * cc, 3real, ss, s2, eps, eps, 3real, 2real * size);
    rounding::lemma_order(eps, 2real, size);
    rounding::lemma_order(2real, eps, size);
    rounding::lemma_order(2real, cc, ss);
    assert(near(2real * (cc * ss), 3real * s2, 5real * (eps * size)));
    rounding::lemma_product(di, dj, 2real, 2real);
    rounding::lemma_near_product(
        2real * (cc * ss),
        3real * s2,
        dd,
        dd,
        5real * (eps * size),
        0real,
        3real * size,
        4real,
    );
    rounding::lemma_minus(3real * size, 1real);
    rounding::lemma_order(dd, 2real, cc * ss);
    rounding::lemma_order(2real, dd, cc * ss);
    rounding::lemma_order(2real * (cc * ss), dd, 1real);
    rounding::lemma_order(dd, 3real, s2);
    rounding::lemma_order(3real, dd, s2);
    rounding::lemma_order(3real * s2, dd, 1real);
    assert(near(2real * (dd * (cc * ss)), 3real * (dd * s2), 20real * (eps * size)));
}

/// What the three parts have together: half of the variance along the direction from their spread.
proof fn lemma_spread_of_parts<A: Arithmetic>(
    ops: &A,
    v: Reading,
    eps: real,
    size: real,
    dd: real,
    s2: real,
    x: real,
    y: real,
    z: real,
)
    requires
        fits(ops, v, eps),
        0real <= eps,
        10real * eps <= 1real,
        1real <= size,
        bounded(dd, 4real),
        bounded(s2, size),
        near(2real * x, 3real * (dd * s2), 92real * (eps * size)),
        near(2real * z, 3real * (dd * s2), 92real * (eps * size)),
        bounded(y, 2real * (eps * size)),
        bounded(v(diffuse::part_weight(1)), 1real),
    ensures
        near(
            2real * (v(diffuse::part_weight(0)) * (x + z)) + 2real * (v(diffuse::part_weight(1))
                * y),
            dd * s2,
            42real * (eps * size),
        ),
{
    lemma_sizes(eps, size);
    let w = v(diffuse::part_weight(0));
    let u = v(diffuse::part_weight(1));
    let both = x + z;
    rounding::lemma_product(dd, s2, 4real, size);
    assert(near(both, 3real * (dd * s2), 92real * (eps * size)));
    assert(bounded(both, 22real * size));
    rounding::lemma_near_product(
        6real * w,
        1real,
        both,
        3real * (dd * s2),
        eps,
        92real * (eps * size),
        1real,
        22real * size,
    );
    rounding::lemma_order(eps, 22real, size);
    rounding::lemma_order(22real, eps, size);
    rounding::lemma_order(6real, w, both);
    rounding::lemma_order(1real, 92real * (eps * size), 1real);
    rounding::lemma_minus(92real * (eps * size), 1real);
    rounding::lemma_order(1real, 3real * (dd * s2), 1real);
    rounding::lemma_minus(3real * (dd * s2), 1real);
    assert(near(6real * (w * both), 3real * (dd * s2), 114real * (eps * size)));
    rounding::lemma_product(u, y, 1real, 2real * (eps * size));
}

/// The mean of the parts together, as a real number.
pub open spec fn joint_mean<T: InertialFrame, C: CenterBody>(
    v: Reading,
    parts: Seq<PartModel<T, C>>,
    i: int,
) -> real {
    v(parts[0].weight) * v(diffuse::component_vector(parts[0].component)[i]) + v(parts[1].weight)
        * v(diffuse::component_vector(parts[1].component)[i]) + v(parts[2].weight) * v(
        diffuse::component_vector(parts[2].component)[i],
    )
}

/// How far a number of the mean of a part is from that of the whole.
pub open spec fn away<T: InertialFrame, C: CenterBody>(
    v: Reading,
    part: UncertainModel<T, C>,
    whole: UncertainModel<T, C>,
    i: int,
) -> real {
    v(diffuse::component_vector(part)[i]) - v(diffuse::component_vector(whole)[i])
}

/// An entry of the covariance of a part around the mean of the whole.
pub open spec fn around<T: InertialFrame, C: CenterBody>(
    v: Reading,
    part: UncertainModel<T, C>,
    whole: UncertainModel<T, C>,
    i: int,
    j: int,
) -> real {
    v(part.cov.at(i, j)) + away(v, part, whole, i) * away(v, part, whole, j)
}

/// The covariance of the parts together, as a real number.
pub open spec fn joint_cov<T: InertialFrame, C: CenterBody>(
    v: Reading,
    parts: Seq<PartModel<T, C>>,
    whole: UncertainModel<T, C>,
    i: int,
    j: int,
) -> real {
    v(parts[0].weight) * around(v, parts[0].component, whole, i, j) + v(parts[1].weight) * around(
        v,
        parts[1].component,
        whole,
        i,
        j,
    ) + v(parts[2].weight) * around(v, parts[2].component, whole, i, j)
}

/// The parts are made of the numbers above.
proof fn lemma_parts<A: Arithmetic, T: InertialFrame, C: CenterBody>(
    ops: &A,
    whole: UncertainModel<T, C>,
    d: Seq<F64>,
    sigma_sq: F64,
    k: int,
    i: int,
    j: int,
)
    requires
        whole.well_formed(),
        d.len() == whole.cov.nrows,
        0 <= i < d.len(),
        0 <= j < d.len(),
    ensures
        diffuse::component_vector(whole).len() == d.len(),
        diffuse::component_vector(diffuse::part(ops, whole, d, sigma_sq, k).component)[i] == moved(
            ops,
            diffuse::component_vector(whole)[i],
            d[i],
            sigma_sq,
            k,
        ),
        diffuse::part(ops, whole, d, sigma_sq, k).component.cov.at(i, j) == entry(
            ops,
            whole.cov,
            d,
            sigma_sq,
            i,
            j,
        ),
{
    let sigma = ops.one(Unary::Sqrt, sigma_sq);
    let by = arithmetic::product(ops, diffuse::part_mean(k), sigma);
    let delta = numbers::scaled(ops, d, by);
    assert(delta[i] == arithmetic::product(ops, d[i], by));
}

/// The three parts of a split together have the mean and the covariance of the whole, up to
/// rounding: the weighted sum of their means, and that of their covariances around that mean. All
/// parts have the same covariance.
pub proof fn law_split_keeps_moments<A: Algebra, T: InertialFrame, C: CenterBody>(
    ops: &A,
    v: Reading,
    range: real,
    eps: real,
    size: real,
    whole: UncertainModel<T, C>,
    direction: Seq<F64>,
)
    requires
        whole.well_formed(),
        diffuse::split_along(ops, whole, direction) is Ok,
        good(ops, v, range, eps, size),
        fits(ops, v, eps),
        usual(
            ops,
            v,
            diffuse::component_vector(whole),
            whole.cov,
            numbers::parts(ops, direction, diffuse::norm(ops, direction)),
            diffuse::variance_along(
                ops,
                whole.cov,
                numbers::parts(ops, direction, diffuse::norm(ops, direction)),
            ),
            size,
            eps,
        ),
    ensures
        ({
            let parts = diffuse::split_along(ops, whole, direction)->Ok_0;
            let n = whole.cov.nrows as int;
            &&& parts.len() == 3
            &&& parts[0].component.cov == parts[1].component.cov
            &&& parts[1].component.cov == parts[2].component.cov
            &&& forall|i: int|
                0 <= i < n ==> near(
                    #[trigger] joint_mean(v, parts, i),
                    v(diffuse::component_vector(whole)[i]),
                    13real * (eps * size),
                )
            &&& forall|i: int, j: int|
                0 <= i < n && 0 <= j < n ==> near(
                    #[trigger] joint_cov(v, parts, whole, i, j),
                    v(whole.cov.at(i, j)),
                    50real * (eps * size),
                )
        }),
{
    let parts = diffuse::split_along(ops, whole, direction)->Ok_0;
    let n = whole.cov.nrows as int;
    let d = numbers::parts(ops, direction, diffuse::norm(ops, direction));
    let sigma_sq = diffuse::variance_along(ops, whole.cov, d);
    let mean = diffuse::component_vector(whole);
    assert forall|i: int| 0 <= i < n implies near(
        #[trigger] joint_mean(v, parts, i),
        v(mean[i]),
        13real * (eps * size),
    ) by {
        lemma_mean(ops, v, range, eps, size, whole, d, sigma_sq, i);
    }
    assert forall|i: int, j: int| 0 <= i < n && 0 <= j < n implies near(
        #[trigger] joint_cov(v, parts, whole, i, j),
        v(whole.cov.at(i, j)),
        50real * (eps * size),
    ) by {
        lemma_cov(ops, v, range, eps, size, whole, d, sigma_sq, i, j);
    }
}

/// Only where a direction points to matters: directions with the same unit vector give the same
/// parts.
pub proof fn law_split_by_unit_vector<A: Algebra, T: InertialFrame, C: CenterBody>(
    ops: &A,
    whole: UncertainModel<T, C>,
    a: Seq<F64>,
    b: Seq<F64>,
)
    requires
        numbers::parts(ops, a, diffuse::norm(ops, a)) == numbers::parts(
            ops,
            b,
            diffuse::norm(ops, b),
        ),
        diffuse::split_along(ops, whole, a) is Ok,
        diffuse::split_along(ops, whole, b) is Ok,
    ensures
        diffuse::split_along(ops, whole, a) == diffuse::split_along(ops, whole, b),
{
}

/// The three parts along the unit vector `d`.
spec fn three<A: Arithmetic, T: InertialFrame, C: CenterBody>(
    ops: &A,
    whole: UncertainModel<T, C>,
    d: Seq<F64>,
    sigma_sq: F64,
) -> Seq<PartModel<T, C>> {
    seq![
        diffuse::part(ops, whole, d, sigma_sq, 0),
        diffuse::part(ops, whole, d, sigma_sq, 1),
        diffuse::part(ops, whole, d, sigma_sq, 2),
    ]
}

/// The parts together have the mean of the whole.
proof fn lemma_mean<A: Arithmetic, T: InertialFrame, C: CenterBody>(
    ops: &A,
    v: Reading,
    range: real,
    eps: real,
    size: real,
    whole: UncertainModel<T, C>,
    d: Seq<F64>,
    sigma_sq: F64,
    i: int,
)
    requires
        whole.well_formed(),
        good(ops, v, range, eps, size),
        fits(ops, v, eps),
        usual(ops, v, diffuse::component_vector(whole), whole.cov, d, sigma_sq, size, eps),
        0 <= i < whole.cov.nrows,
    ensures
        near(
            joint_mean(v, three(ops, whole, d, sigma_sq), i),
            v(diffuse::component_vector(whole)[i]),
            13real * (eps * size),
        ),
{
    lemma_sizes(eps, size);
    let m = diffuse::component_vector(whole)[i];
    let s = v(ops.one(Unary::Sqrt, sigma_sq));
    let c = v(diffuse::part_mean(2));
    lemma_parts(ops, whole, d, sigma_sq, 0, i, i);
    lemma_parts(ops, whole, d, sigma_sq, 1, i, i);
    lemma_parts(ops, whole, d, sigma_sq, 2, i, i);
    lemma_moved(ops, v, range, eps, size, m, d[i], sigma_sq, 0);
    lemma_moved(ops, v, range, eps, size, m, d[i], sigma_sq, 1);
    lemma_moved(ops, v, range, eps, size, m, d[i], sigma_sq, 2);
    let x = v(moved(ops, m, d[i], sigma_sq, 0)) - v(m);
    let y = v(moved(ops, m, d[i], sigma_sq, 1)) - v(m);
    let z = v(moved(ops, m, d[i], sigma_sq, 2)) - v(m);
    rounding::lemma_minus(s, c);
    rounding::lemma_order(s, c, 1real);
    rounding::lemma_order(s, -c, 1real);
    rounding::lemma_order(s, 0real, 1real);
    rounding::lemma_minus(v(d[i]), c * s);
    assert(bounded(x + z, 8real * eps));
    assert(bounded(y, 4real * eps));
    lemma_mixed(ops, v, eps, v(m), x, y, z, size);
    rounding::lemma_product(v(diffuse::part_weight(0)), x + z, 1real, 8real * eps);
    rounding::lemma_product(v(diffuse::part_weight(1)), y, 1real, 4real * eps);
}

/// The parts together have the covariance of the whole.
proof fn lemma_cov<A: Arithmetic, T: InertialFrame, C: CenterBody>(
    ops: &A,
    v: Reading,
    range: real,
    eps: real,
    size: real,
    whole: UncertainModel<T, C>,
    d: Seq<F64>,
    sigma_sq: F64,
    i: int,
    j: int,
)
    requires
        whole.well_formed(),
        good(ops, v, range, eps, size),
        fits(ops, v, eps),
        usual(ops, v, diffuse::component_vector(whole), whole.cov, d, sigma_sq, size, eps),
        0 <= i < whole.cov.nrows,
        0 <= j < whole.cov.nrows,
    ensures
        near(
            joint_cov(v, three(ops, whole, d, sigma_sq), whole, i, j),
            v(whole.cov.at(i, j)),
            50real * (eps * size),
        ),
{
    lemma_sizes(eps, size);
    let mean = diffuse::component_vector(whole);
    let sigma = ops.one(Unary::Sqrt, sigma_sq);
    let s = v(sigma);
    let s2 = v(sigma_sq);
    let c = v(diffuse::part_mean(2));
    let (di, dj) = (v(d[i]), v(d[j]));
    let dd = di * dj;
    let base = v(entry(ops, whole.cov, d, sigma_sq, i, j));
    lemma_entry(ops, v, range, eps, size, mean, whole.cov, d, sigma_sq, i, j);
    rounding::lemma_product(di, dj, 2real, 2real);
    rounding::lemma_product(dd, s2, 4real, size);
    assert(bounded(base, 6real * size));
    lemma_parts(ops, whole, d, sigma_sq, 0, i, j);
    lemma_parts(ops, whole, d, sigma_sq, 1, i, j);
    lemma_parts(ops, whole, d, sigma_sq, 2, i, j);
    lemma_parts(ops, whole, d, sigma_sq, 0, j, i);
    lemma_parts(ops, whole, d, sigma_sq, 1, j, i);
    lemma_parts(ops, whole, d, sigma_sq, 2, j, i);
    lemma_moved(ops, v, range, eps, size, mean[i], d[i], sigma_sq, 0);
    lemma_moved(ops, v, range, eps, size, mean[i], d[i], sigma_sq, 1);
    lemma_moved(ops, v, range, eps, size, mean[i], d[i], sigma_sq, 2);
    lemma_moved(ops, v, range, eps, size, mean[j], d[j], sigma_sq, 0);
    lemma_moved(ops, v, range, eps, size, mean[j], d[j], sigma_sq, 1);
    lemma_moved(ops, v, range, eps, size, mean[j], d[j], sigma_sq, 2);
    let ai = v(moved(ops, mean[i], d[i], sigma_sq, 0)) - v(mean[i]);
    let aj = v(moved(ops, mean[j], d[j], sigma_sq, 0)) - v(mean[j]);
    let bi = v(moved(ops, mean[i], d[i], sigma_sq, 1)) - v(mean[i]);
    let bj = v(moved(ops, mean[j], d[j], sigma_sq, 1)) - v(mean[j]);
    let ci = v(moved(ops, mean[i], d[i], sigma_sq, 2)) - v(mean[i]);
    let cj = v(moved(ops, mean[j], d[j], sigma_sq, 2)) - v(mean[j]);
    lemma_outer(eps, size, c, s, s2, di, dj, ai, aj, -c);
    lemma_outer(eps, size, c, s, s2, di, dj, ci, cj, c);
    rounding::lemma_order(s, 0real, 1real);
    rounding::lemma_minus(s, 1real);
    rounding::lemma_minus(di, 1real);
    rounding::lemma_minus(dj, 1real);
    rounding::lemma_product(bi, bj, 4real * eps, 4real * eps);
    assert((4real * eps) * (4real * eps) == 16real * (eps * eps)) by (nonlinear_arith);
    assert(bounded(bi * bj, 2real * (eps * size)));
    lemma_mixed(ops, v, eps, base, ai * aj, bi * bj, ci * cj, 6real * size);
    rounding::lemma_order(eps, 6real, size);
    rounding::lemma_order(6real, eps, size);
    lemma_spread_of_parts(ops, v, eps, size, dd, s2, ai * aj, bi * bj, ci * cj);
}

} // verus!
