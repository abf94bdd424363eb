//! How exactly the place of an object at perihelion is found, and that its elements come back up to
//! rounding.
//!
//! Each condition below says of one operation by which factor its result is off at most.
use crate::accuracy;
use crate::arithmetic;
use crate::arithmetic::{Arithmetic, Binary, Unary};
use crate::conics;
use crate::conics::Turn;
use crate::constants;
use crate::desig::Desig;
use crate::elements::{CometElements, InPlane};
use crate::errors::Error;
use crate::float::F64;
use crate::frames::Ecliptic;
use crate::orbits;
use crate::orbits::Orbit;
use crate::physics::{Motion, Physics};
use crate::ratios::{
    adds, apart, divides, lemma_apart, lemma_first, lemma_raised, lemma_raised_small,
    lemma_raised_sum, lemma_ratio_chain, lemma_ratio_link, lemma_ratio_near,
    lemma_ratio_positive, lemma_ratio_product, lemma_ratio_quotient, lemma_ratio_root,
    lemma_ratio_sign, lemma_same, multiplies, powers, raised, ratio, repeated, roots, squares, subtracts,
};
use crate::rounding;
use crate::rounding::{near, Reading};
use vstd::prelude::*;

verus! {

/// What is found on the way to the speed of an object at perihelion, without signs.
pub struct Steps {
    /// How far the eccentricity is from one.
    pub left: real,
    /// The semi major axis.
    pub axis: real,
    /// The semi major axis to the power of one and a half.
    pub power: real,
    /// How far the eccentricity is from one, found for the anomaly.
    pub rest: real,
    /// The power times that.
    pub slow: real,
    /// How far the square of the eccentricity is from one.
    pub inside: real,
    /// The root of that.
    pub root: real,
    /// The semi minor axis.
    pub short: real,
    /// The speed in units of the center.
    pub speed: real,
}

impl Steps {
    /// Are the steps off by at most the factor `k`, for an eccentricity which is `l` from one and
    /// whose square is found to be `p` from one.
    pub open spec fn rounded(self, k: real, peri: real, l: real, p: real) -> bool {
        &&& ratio(self.left, l, k)
        &&& ratio(self.axis * self.left, peri, k)
        &&& ratio(self.power * self.power, self.axis * (self.axis * self.axis), k)
        &&& ratio(self.rest, l, k)
        &&& ratio(self.slow, self.power * self.rest, k)
        &&& ratio(self.inside, p, k)
        &&& ratio(self.root * self.root, self.inside, k)
        &&& ratio(self.short, self.axis * self.root, k)
        &&& ratio(self.speed * self.slow, self.short, k)
        &&& 0real <= self.power
        &&& 0real <= self.root
    }
}

/// The semi major axis.
proof fn lemma_axis(c: Steps, k: real, peri: real, l: real, p: real) -> (a: real)
    requires
        1real <= k,
        0real < peri,
        0real < l,
        c.rounded(k, peri, l, p),
    ensures
        a * l == peri,
        0real < a,
        0real < c.axis,
        ratio(c.axis, a, raised(k, 2)),
{
    let a = peri / l;
    assert(a * l == peri) by (nonlinear_arith)
        requires
            a == peri / l,
            0real < l,
    ;
    orbits::lemma_positive_factor(a, l);
    lemma_first(k);
    lemma_ratio_quotient(c.axis, a, c.left, l, k, 1, 1);
    a
}

/// The speed of an object at perihelion, where the square of the eccentricity is found to be `p1`
/// from one instead of `p`.
proof fn lemma_speed(
    c: Steps,
    k: real,
    j: real,
    peri: real,
    l: real,
    p1: real,
    p: real,
    e: real,
    t: real,
)
    requires
        1real <= k,
        1real <= j,
        0real < peri,
        0real < l,
        0real < t,
        0real < p,
        0real < p1,
        ratio(p1, p, j),
        p == l * (1real + e),
        (t * t) * peri == 1real + e,
        c.rounded(k, peri, l, p1),
    ensures
        ratio(c.speed, t, raised(k, 21) * j),
        1real <= raised(k, 21) * j,
        0real < c.speed,
{
    lemma_first(k);
    let a = lemma_axis(c, k, peri, l, p1);
    let a1 = c.axis;
    // the square of the power
    lemma_ratio_product(a1, a, a1, a, k, 2, 2);
    lemma_ratio_product(a1, a, a1 * a1, a * a, k, 2, 4);
    let cube = a * (a * a);
    lemma_ratio_chain(c.power * c.power, a1 * (a1 * a1), cube, k, 1, 6);
    // the square of the power times what is left
    lemma_ratio_product(c.rest, l, c.rest, l, k, 1, 1);
    lemma_ratio_product(c.power * c.power, cube, c.rest * c.rest, l * l, k, 7, 2);
    orbits::lemma_positive_root(c.power);
    conics::lemma_positive(c.power, c.rest);
    let slow = c.power * c.rest;
    lemma_ratio_product(c.slow, slow, c.slow, slow, k, 1, 1);
    rounding::lemma_factors(c.power, c.rest, c.power, c.rest);
    let whole = cube * (l * l);
    lemma_ratio_chain(c.slow * c.slow, slow * slow, whole, k, 2, 9);
    // the square of the semi minor axis
    lemma_ratio_chain(c.root * c.root, c.inside, p1, k, 1, 1);
    lemma_ratio_product(a1 * a1, a * a, c.root * c.root, p1, k, 4, 2);
    orbits::lemma_positive_root(c.root);
    conics::lemma_positive(a1, c.root);
    let short = a1 * c.root;
    lemma_ratio_product(c.short, short, c.short, short, k, 1, 1);
    rounding::lemma_factors(a1, c.root, a1, c.root);
    let area = (a * a) * p1;
    lemma_ratio_chain(c.short * c.short, short * short, area, k, 2, 6);
    // the square of the speed
    let gone = c.speed * c.slow;
    lemma_ratio_product(gone, c.short, gone, c.short, k, 1, 1);
    lemma_ratio_chain(gone * gone, c.short * c.short, area, k, 2, 8);
    rounding::lemma_factors(c.speed, c.slow, c.speed, c.slow);
    conics::lemma_positive(t, t);
    lemma_shape_at_perihelion(a, l, peri, e, t, p);
    let found = area / whole;
    assert(found * whole == area) by (nonlinear_arith)
        requires
            found == area / whole,
            0real < whole,
    ;
    orbits::lemma_positive_factor(found, whole);
    lemma_ratio_quotient(c.speed * c.speed, found, c.slow * c.slow, whole, k, 10, 11);
    orbits::lemma_positive_factor(c.speed, c.slow);
    // the square which is found stands to that of the speed as p1 to p
    conics::lemma_positive(a, a);
    lemma_first(j);
    rounding::lemma_order(1real, a * a, 1real);
    rounding::lemma_minus(a * a, 1real);
    rounding::lemma_order(1real, whole, 1real);
    rounding::lemma_minus(whole, 1real);
    lemma_ratio_product(a * a, a * a, p1, p, j, 0, 1);
    lemma_ratio_quotient(found, t * t, whole, whole, j, 1, 0);
    lemma_raised(k, 21);
    lemma_ratio_link(c.speed * c.speed, found, t * t, raised(k, 21), j);
    accuracy::lemma_grow(raised(k, 21), j);
    lemma_ratio_root(c.speed, t, raised(k, 21) * j);
}

/// The speed at perihelion belongs to the shape of the orbit.
proof fn lemma_shape_at_perihelion(a: real, l: real, peri: real, e: real, t: real, p: real)
    requires
        a * l == peri,
        (t * t) * peri == 1real + e,
        p == l * (1real + e),
    ensures
        (t * t) * ((a * (a * a)) * (l * l)) == (a * a) * p,
{
    let m = t * t;
    let n = (a * a) * l;
    // a a a l l is a l times a a l
    rounding::lemma_factors(a, a * a, l, l);
    assert((a * (a * a)) * (l * l) == peri * n);
    rounding::lemma_order(m, peri, n);
    assert(m * (peri * n) == (1real + e) * n);
    rounding::lemma_order(a * a, l, 1real + e);
    rounding::lemma_order(n, 1real + e, 1real);
}

/// Are the operations off by at most the factor `k` by which the place at perihelion on an ellipse
/// is found. A product with one is exact.
pub open spec fn rounded_ellipse<A: Arithmetic>(
    ops: &A,
    v: Reading,
    k: real,
    e: CometElements,
    a: F64,
    anomaly: F64,
) -> bool {
    let one = F64 { bits: constants::ONE };
    let sine = ops.one(Unary::Sin, anomaly);
    let cosine = ops.one(Unary::Cos, anomaly);
    let power = ops.two(Binary::Power, a, F64 { bits: constants::ONE_AND_HALF });
    let part = arithmetic::product(ops, e.eccentricity, cosine);
    let rest = arithmetic::difference(ops, one, part);
    let e_dot = arithmetic::product(ops, power, rest);
    let square = ops.one(Unary::Squared, e.eccentricity);
    let inside = arithmetic::difference(ops, one, square);
    let root = ops.one(Unary::Sqrt, inside);
    let b = arithmetic::product(ops, a, root);
    let ahead = arithmetic::difference(ops, cosine, e.eccentricity);
    let along = arithmetic::quotient(ops, a.negated(), e_dot);
    let aside = arithmetic::quotient(ops, b, e_dot);
    &&& v(part) == v(e.eccentricity) && subtracts(ops, v, k, one, part)
    &&& powers(ops, v, k, a, v(a)) && multiplies(ops, v, k, power, rest)
    &&& squares(ops, v, k, e.eccentricity) && subtracts(ops, v, k, one, square)
    &&& roots(ops, v, k, inside) && multiplies(ops, v, k, a, root)
    &&& subtracts(ops, v, k, cosine, e.eccentricity) && multiplies(ops, v, k, a, ahead)
    &&& multiplies(ops, v, k, b, sine)
    &&& multiplies(ops, v, k, along, sine)
    &&& multiplies(ops, v, k, arithmetic::product(ops, along, sine), e.gm_sqrt)
    &&& divides(ops, v, k, b, e_dot)
    &&& multiplies(ops, v, k, aside, cosine)
    &&& multiplies(ops, v, k, arithmetic::product(ops, aside, cosine), e.gm_sqrt)
}

/// Are the operations off by at most the factor `k` by which the place at perihelion on a
/// hyperbola is found. A product with one is exact.
pub open spec fn rounded_hyperbola<A: Arithmetic>(
    ops: &A,
    v: Reading,
    k: real,
    e: CometElements,
    a: F64,
    anomaly: F64,
) -> bool {
    let one = F64 { bits: constants::ONE };
    let sine = ops.one(Unary::Sinh, anomaly);
    let cosine = ops.one(Unary::Cosh, anomaly);
    let power = ops.two(Binary::Power, a.abs_value(), F64 { bits: constants::ONE_AND_HALF });
    let part = arithmetic::product(ops, e.eccentricity, cosine);
    let rest = arithmetic::difference(ops, one, part);
    let h_dot = arithmetic::product(ops, power, rest);
    let square = ops.one(Unary::Squared, e.eccentricity);
    let inside = arithmetic::difference(ops, square, one);
    let root = ops.one(Unary::Sqrt, inside);
    let b = arithmetic::product(ops, a.negated(), root);
    let ahead = arithmetic::difference(ops, cosine, e.eccentricity);
    let along = arithmetic::quotient(ops, a.negated(), h_dot);
    let aside = arithmetic::quotient(ops, b.negated(), h_dot);
    &&& v(part) == v(e.eccentricity) && subtracts(ops, v, k, one, part)
    &&& powers(ops, v, k, a.abs_value(), -v(a)) && multiplies(ops, v, k, power, rest)
    &&& squares(ops, v, k, e.eccentricity) && subtracts(ops, v, k, square, one)
    &&& roots(ops, v, k, inside) && multiplies(ops, v, k, a.negated(), root)
    &&& subtracts(ops, v, k, cosine, e.eccentricity) && multiplies(ops, v, k, a, ahead)
    &&& multiplies(ops, v, k, b, sine)
    &&& multiplies(ops, v, k, along, sine)
    &&& multiplies(ops, v, k, arithmetic::product(ops, along, sine), e.gm_sqrt)
    &&& divides(ops, v, k, b.negated(), h_dot)
    &&& multiplies(ops, v, k, aside, cosine)
    &&& multiplies(ops, v, k, arithmetic::product(ops, aside, cosine), e.gm_sqrt)
}

/// Are the operations off by at most the factor `k` by which the place at perihelion on a parabola
/// is found.
pub open spec fn rounded_parabola<A: Arithmetic>(
    ops: &A,
    v: Reading,
    k: real,
    e: CometElements,
    anomaly: F64,
) -> bool {
    let two = F64 { bits: constants::TWO };
    let square = ops.one(Unary::Squared, anomaly);
    let half = arithmetic::quotient(ops, square, two);
    let d_dot = arithmetic::sum(ops, e.peri_dist, half);
    let double = arithmetic::product(ops, two, e.peri_dist);
    let root = ops.one(Unary::Sqrt, double);
    let along = arithmetic::quotient(ops, anomaly.negated(), d_dot);
    let aside = arithmetic::quotient(ops, root, d_dot);
    &&& squares(ops, v, k, anomaly) && divides(ops, v, k, square, two)
    &&& adds(ops, v, k, e.peri_dist, half) && subtracts(ops, v, k, e.peri_dist, half)
    &&& multiplies(ops, v, k, two, e.peri_dist) && roots(ops, v, k, double)
    &&& multiplies(ops, v, k, root, anomaly)
    &&& divides(ops, v, k, anomaly.negated(), d_dot) && multiplies(ops, v, k, along, e.gm_sqrt)
    &&& divides(ops, v, k, root, d_dot) && multiplies(ops, v, k, aside, e.gm_sqrt)
}

/// What is off by a small part is off by a small factor.
proof fn lemma_near_ratio(p1: real, p: real, y: real)
    requires
        0real < p,
        0real <= y,
        8real * y <= 1real,
        near(p1, p, 4real * (y * p)),
    ensures
        ratio(p1, p, 1real + 8real * y),
        0real < p1,
{
    let z = y * p;
    accuracy::lemma_scale(y, 0real, p);
    rounding::lemma_minus(y, 1real);
    accuracy::lemma_scale(p, 8real * y, 1real);
    rounding::lemma_order(p, 8real * y, 1real);
    rounding::lemma_order(8real, y, p);
    rounding::lemma_minus(p, 1real);
    assert(8real * z <= p);
    conics::lemma_foil(1real, 8real * y, p, 0real);
    conics::lemma_foil(1real, 8real * y, p1, 0real);
    rounding::lemma_order(1real, p, 1real);
    rounding::lemma_order(1real, p1, 1real);
    rounding::lemma_minus(p1, 1real);
    rounding::lemma_minus(8real * y, 1real);
    rounding::lemma_minus(1real, 1real);
    rounding::lemma_order(8real, y, p1);
    // y p1 is at least y p less four y y p, which is at most half of y p
    accuracy::lemma_scale(y, p - 4real * z, p1);
    rounding::lemma_spread(y, p, -(4real * z), 0real);
    rounding::lemma_minus(y, 4real * z);
    conics::lemma_swap(y, 4real, z);
    accuracy::lemma_scale(z, 8real * y, 1real);
    rounding::lemma_order(z, 8real * y, 1real);
    rounding::lemma_order(8real, y, z);
    rounding::lemma_minus(z, 1real);
}

/// How far the square of an eccentricity is from one.
proof fn lemma_inside(square: real, e: real, p: real, u: real, size: real, sign: real)
    requires
        1real <= size,
        0real < u,
        8real * (size * u) <= 1real,
        sign == 1real || sign == -1real,
        0real < p,
        p == sign * (1real - e * e),
        1real <= size * p,
        ratio(square, e * e, 1real + u),
    ensures
        ratio(sign * (1real - square), p, 1real + 8real * (size * u)),
        0real < sign * (1real - square),
{
    let y = size * u;
    let x = e * e;
    accuracy::lemma_grow(size, u);
    lemma_ratio_sign(square, x, 1real + u);
    rounding::lemma_order(sign, 1real - x, 1real);
    rounding::lemma_order(sign, 1real - square, 1real);
    rounding::lemma_order(1real - x, 1real, 1real);
    rounding::lemma_order(1real - square, 1real, 1real);
    rounding::lemma_minus(1real - x, 1real);
    rounding::lemma_minus(1real - square, 1real);
    // the square is off by at most twice u times the exact one
    conics::lemma_foil(1real, u, x, 0real);
    conics::lemma_foil(1real, u, square, 0real);
    rounding::lemma_minus(1real, 1real);
    rounding::lemma_minus(u, 1real);
    rounding::lemma_order(1real, x, 1real);
    rounding::lemma_order(1real, square, 1real);
    rounding::lemma_minus(x, 1real);
    rounding::lemma_minus(square, 1real);
    accuracy::lemma_scale(x, u, 1real);
    rounding::lemma_order(x, u, 1real);
    accuracy::lemma_scale(u, square, 2real * x);
    conics::lemma_swap(u, 2real, x);
    assert(near(square, x, 2real * (u * x)));
    // the exact one is at most twice the size times p
    accuracy::lemma_grow(size, p);
    accuracy::lemma_scale(u, x, 2real * (size * p));
    conics::lemma_swap(u, 2real, size * p);
    conics::lemma_swap(u, size, p);
    rounding::lemma_order(size, u, p);
    assert(near(square, x, 4real * (y * p)));
    lemma_near_ratio(sign * (1real - square), p, y);
}

/// An object at perihelion, in the plane of its orbit and with the given speed in units of the
/// center.
pub open spec fn at_perihelion(e: real, peri: real, speed: real) -> Orbit {
    Orbit { x: peri, y: 0real, xd: 0real, yd: speed, e, h: peri * speed, r: peri }
}

/// An object at perihelion is on its conic.
proof fn lemma_at_perihelion(e: real, peri: real, t: real)
    requires
        0real <= e,
        0real < peri,
        0real < t,
        (t * t) * peri == 1real + e,
    ensures
        ({
            let o = at_perihelion(e, peri, t);
            &&& conics::on_conic(o.x, o.y, o.xd, o.yd, o.e, o.h, o.r)
            &&& o.h * o.h == peri * (1real + e)
        }),
{
    conics::lemma_positive(peri, t);
    rounding::lemma_minus(0real, 1real);
    rounding::lemma_minus(peri, 1real);
    rounding::lemma_factors(peri, t, peri, t);
    rounding::lemma_order(peri, t, 1real);
    rounding::lemma_order(peri, peri, t * t);
    rounding::lemma_order(t * t, peri, 1real);
    rounding::lemma_spread(peri, 1real, e, 0real);
    rounding::lemma_order(peri, e, 1real);
    rounding::lemma_order(0real, peri, 1real);
    rounding::lemma_minus(peri * t, 1real);
}

/// The place of an object whose distance and whose speed are nearly known.
proof fn lemma_placed(
    v: Reading,
    e: CometElements,
    at: InPlane,
    t: real,
    y: real,
    size: real,
    by: real,
    i: real,
    j: real,
)
    requires
        1real <= size,
        0real < y,
        62real * (size * y) <= by,
        1real <= i <= 1real + 62real * y,
        1real <= j <= 1real + 62real * y,
        0real < v(e.gm_sqrt),
        0real < v(e.peri_dist) <= size,
        0real < t <= size,
        ratio(v(at.x), v(e.peri_dist), i),
        v(at.y) == 0real,
        v(at.x_dot) == 0real,
        ratio(v(at.y_dot), t * v(e.gm_sqrt), j),
    ensures
        accuracy::placed(
            v,
            by,
            size,
            e,
            at,
            at_perihelion(v(e.eccentricity), v(e.peri_dist), t),
        ),
{
    let s = v(e.gm_sqrt);
    let q = v(e.peri_dist);
    let w = 62real * y;
    accuracy::lemma_grow(size, y);
    conics::lemma_positive(t, s);
    lemma_ratio_positive(v(at.x), q, i);
    lemma_ratio_positive(v(at.y_dot), t * s, j);
    lemma_ratio_near(v(at.x), q, i, w);
    lemma_ratio_near(v(at.y_dot), t * s, j, w);
    // the errors
    accuracy::lemma_scale(w, q, size);
    accuracy::lemma_scale(w, t, size);
    rounding::lemma_order(w, size, 1real);
    rounding::lemma_order(62real, y, size);
    rounding::lemma_order(size, y, 1real);
    assert(w * size <= by);
    rounding::lemma_order(w, t, s);
    accuracy::lemma_scale(s, w * t, by);
    rounding::lemma_order(s, w * t, 1real);
    rounding::lemma_order(s, by, 1real);
    rounding::lemma_minus(0real, 1real);
    rounding::lemma_order(0real, s, 1real);
    rounding::lemma_minus(s, 1real);
    accuracy::lemma_scale(by, 0real, s);
    rounding::lemma_minus(by, 1real);
}

/// The factors by which distance and speed at perihelion are off.
proof fn lemma_factors_small(u: real, y: real)
    requires
        0real < u <= y,
        384real * y <= 1real,
    ensures
        1real <= raised(1real + u, 4) <= 1real + 62real * y,
        1real <= raised(1real + u, 5) <= 1real + 62real * y,
        1real <= raised(1real + u, 2) * (raised(1real + u, 21) * (1real + 8real * y)) <= 1real
            + 62real * y,
{
    let k = 1real + u;
    let j = 1real + 8real * y;
    reveal_with_fuel(repeated, 24);
    assert(repeated(u, 4) == 4real * u);
    assert(repeated(u, 5) == 5real * u);
    assert(repeated(u, 23) == 23real * u);
    lemma_raised_small(u, 4);
    lemma_raised_small(u, 5);
    lemma_raised_small(u, 23);
    lemma_raised(k, 4);
    lemma_raised(k, 5);
    lemma_raised(k, 23);
    lemma_raised_sum(k, 2, 21);
    rounding::lemma_order(raised(k, 2), raised(k, 21), j);
    accuracy::lemma_grow(raised(k, 23), j);
    rounding::lemma_order(raised(k, 23), j, 1real);
    accuracy::lemma_scale(j, raised(k, 23), 1real + 46real * u);
    conics::lemma_foil(1real, 8real * y, 1real, 46real * u);
    rounding::lemma_order(1real, 46real * u, 1real);
    rounding::lemma_minus(46real * u, 1real);
    rounding::lemma_minus(8real * y, 1real);
    accuracy::lemma_scale(8real * y, 46real * u, 1real);
}

/// The place at perihelion on an ellipse.
#[verifier::spinoff_prover]
proof fn lemma_on_ellipse<A: Arithmetic>(
    ops: &A,
    v: Reading,
    e: CometElements,
    a: F64,
    anomaly: F64,
    t: real,
    u: real,
    size: real,
    by: real,
)
    requires
        orbits::plain(v),
        orbits::zero(ops, v, anomaly),
        1real <= size,
        0real < u,
        384real * (size * u) <= 1real,
        62real * (size * (size * u)) <= by,
        0real < v(e.gm_sqrt),
        0real < v(e.peri_dist) <= size,
        0real < t <= size,
        (t * t) * v(e.peri_dist) == 1real + v(e.eccentricity),
        0real <= v(e.eccentricity) < 1real,
        1real <= size * (1real - v(e.eccentricity)),
        a == arithmetic::quotient(
            ops,
            e.peri_dist,
            arithmetic::difference(ops, F64 { bits: constants::ONE }, e.eccentricity),
        ),
        subtracts(ops, v, 1real + u, F64 { bits: constants::ONE }, e.eccentricity),
        divides(
            ops,
            v,
            1real + u,
            e.peri_dist,
            arithmetic::difference(ops, F64 { bits: constants::ONE }, e.eccentricity),
        ),
        rounded_ellipse(ops, v, 1real + u, e, a, anomaly),
    ensures
        accuracy::placed(
            v,
            by,
            size,
            e,
            e.on_ellipse(ops, a, anomaly),
            at_perihelion(v(e.eccentricity), v(e.peri_dist), t),
        ),
{
    let one = F64 { bits: constants::ONE };
    let sine = ops.one(Unary::Sin, anomaly);
    let cosine = ops.one(Unary::Cos, anomaly);
    let power = ops.two(Binary::Power, a, F64 { bits: constants::ONE_AND_HALF });
    let part = arithmetic::product(ops, e.eccentricity, cosine);
    let rest = arithmetic::difference(ops, one, part);
    let e_dot = arithmetic::product(ops, power, rest);
    let square = ops.one(Unary::Squared, e.eccentricity);
    let inside = arithmetic::difference(ops, one, square);
    let root = ops.one(Unary::Sqrt, inside);
    let b = arithmetic::product(ops, a, root);
    let ahead = arithmetic::difference(ops, cosine, e.eccentricity);
    let along = arithmetic::quotient(ops, a.negated(), e_dot);
    let aside = arithmetic::quotient(ops, b, e_dot);
    let left = arithmetic::difference(ops, one, e.eccentricity);
    let at = e.on_ellipse(ops, a, anomaly);
    let (q, x, s) = (v(e.peri_dist), v(e.eccentricity), v(e.gm_sqrt));
    let y = size * u;
    let k = 1real + u;
    let j = 1real + 8real * y;
    let l = 1real - x;
    let p = 1real - x * x;
    accuracy::lemma_grow(size, u);
    // how far the eccentricity and its square are from one
    orbits::lemma_difference_of_squares(x);
    conics::lemma_positive(l, 1real + x);
    accuracy::lemma_scale(l, 1real, 1real + x);
    rounding::lemma_minus(l, 1real);
    accuracy::lemma_scale(size, l, p);
    conics::lemma_square(x);
    lemma_apart(v(square), x * x, k, k);
    rounding::lemma_order(1real, p, 1real);
    rounding::lemma_minus(p, 1real);
    rounding::lemma_order(1real, 1real - v(square), 1real);
    rounding::lemma_minus(1real - v(square), 1real);
    lemma_inside(v(square), x, p, u, size, 1real);
    let p1 = 1real - v(square);
    lemma_apart(v(inside), p1, k, k);
    lemma_first(k);
    // one step after the other
    lemma_apart(v(left), l, k, k);
    lemma_apart(v(a) * v(left), q, k, k);
    orbits::lemma_positive_factor(v(a), v(left));
    conics::lemma_positive(v(a), v(a));
    conics::lemma_positive(v(a), v(a) * v(a));
    lemma_apart(v(power) * v(power), v(a) * (v(a) * v(a)), k, k);
    orbits::lemma_positive_root(v(power));
    lemma_apart(v(rest), l, k, k);
    conics::lemma_positive(v(power), v(rest));
    lemma_apart(v(e_dot), v(power) * v(rest), k, k);
    lemma_apart(v(root) * v(root), v(inside), k, k);
    orbits::lemma_positive_root(v(root));
    conics::lemma_positive(v(a), v(root));
    lemma_apart(v(b), v(a) * v(root), k, k);
    lemma_apart(v(aside) * v(e_dot), v(b), k, k);
    let c = Steps {
        left: v(left),
        axis: v(a),
        power: v(power),
        rest: v(rest),
        slow: v(e_dot),
        inside: v(inside),
        root: v(root),
        short: v(b),
        speed: v(aside),
    };
    lemma_speed(c, k, j, q, l, p1, p, x, t);
    // the coordinates
    let axis = lemma_axis(c, k, q, l, p1);
    lemma_apart(v(ahead), l, k, k);
    lemma_ratio_product(v(a), axis, v(ahead), l, k, 2, 1);
    lemma_apart(v(at.x), v(a) * v(ahead), k, k);
    lemma_ratio_chain(v(at.x), v(a) * v(ahead), q, k, 1, 3);
    let f = raised(k, 21) * j;
    lemma_aside(ops, v, k, f, aside, sine, cosine, along, b, e.gm_sqrt, t);
    lemma_factors_small(u, y);
    lemma_placed(v, e, at, t, y, size, by, raised(k, 4), raised(k, 2) * f);
}

/// What the functions of the anomaly at perihelion leave of the coordinates.
proof fn lemma_aside<A: Arithmetic>(
    ops: &A,
    v: Reading,
    k: real,
    i: real,
    aside: F64,
    sine: F64,
    cosine: F64,
    along: F64,
    b: F64,
    gm_sqrt: F64,
    t: real,
)
    requires
        1real < k,
        1real <= i,
        0real < t,
        0real < v(gm_sqrt),
        v(sine) == 0real,
        v(cosine) == 1real,
        0real < v(aside),
        ratio(v(aside), t, i),
        multiplies(ops, v, k, b, sine),
        multiplies(ops, v, k, along, sine),
        multiplies(ops, v, k, arithmetic::product(ops, along, sine), gm_sqrt),
        multiplies(ops, v, k, aside, cosine),
        multiplies(ops, v, k, arithmetic::product(ops, aside, cosine), gm_sqrt),
    ensures
        v(arithmetic::product(ops, b, sine)) == 0real,
        v(arithmetic::product(ops, arithmetic::product(ops, along, sine), gm_sqrt)) == 0real,
        ratio(
            v(arithmetic::product(ops, arithmetic::product(ops, aside, cosine), gm_sqrt)),
            t * v(gm_sqrt),
            raised(k, 2) * i,
        ),
{
    let s = v(gm_sqrt);
    rounding::lemma_minus(v(b), 1real);
    rounding::lemma_minus(v(along), 1real);
    rounding::lemma_minus(v(aside), 1real);
    lemma_apart(v(arithmetic::product(ops, b, sine)), 0real, k, k);
    lemma_apart(v(arithmetic::product(ops, along, sine)), 0real, k, k);
    rounding::lemma_order(0real, s, 1real);
    rounding::lemma_minus(s, 1real);
    lemma_apart(
        v(arithmetic::product(ops, arithmetic::product(ops, along, sine), gm_sqrt)),
        0real,
        k,
        k,
    );
    let f = arithmetic::product(ops, aside, cosine);
    let g = arithmetic::product(ops, f, gm_sqrt);
    lemma_first(k);
    lemma_apart(v(f), v(aside), k, k);
    conics::lemma_positive(v(f), s);
    lemma_apart(v(g), v(f) * s, k, k);
    rounding::lemma_order(1real, s, 1real);
    lemma_ratio_product(v(f), v(aside), s, s, k, 1, 0);
    lemma_ratio_chain(v(g), v(f) * s, v(aside) * s, k, 1, 1);
    lemma_first(i);
    lemma_ratio_product(v(aside), t, s, s, i, 1, 0);
    lemma_raised(k, 2);
    lemma_ratio_link(v(g), v(aside) * s, t * s, raised(k, 2), i);
}

/// A number apart from a negative one.
proof fn lemma_apart_negative(x1: real, x: real, j: real, k: real)
    requires
        1real < j <= k,
        x < 0real,
        apart(x1, x, j),
    ensures
        ratio(-x1, -x, k),
        x1 < 0real,
{
    lemma_apart(-x1, -x, j, k);
}

/// The product of negative numbers.
proof fn lemma_negatives(a: real, b: real)
    ensures
        (-a) * (-b) == a * b,
        a * (-b) == -(a * b),
        (-a) * b == -(a * b),
{
    rounding::lemma_minus(-a, b);
    rounding::lemma_minus(b, a);
    rounding::lemma_minus(a, b);
    rounding::lemma_order(-a, b, 1real);
    rounding::lemma_order(a, b, 1real);
    rounding::lemma_order(b, -a, 1real);
}

/// The place at perihelion on a hyperbola.
#[verifier::spinoff_prover]
proof fn lemma_on_hyperbola<A: Arithmetic>(
    ops: &A,
    v: Reading,
    e: CometElements,
    a: F64,
    anomaly: F64,
    t: real,
    u: real,
    size: real,
    by: real,
)
    requires
        orbits::plain(v),
        orbits::zero(ops, v, anomaly),
        1real <= size,
        0real < u,
        384real * (size * u) <= 1real,
        62real * (size * (size * u)) <= by,
        0real < v(e.gm_sqrt),
        0real < v(e.peri_dist) <= size,
        0real < t <= size,
        (t * t) * v(e.peri_dist) == 1real + v(e.eccentricity),
        1real < v(e.eccentricity),
        1real <= size * (v(e.eccentricity) - 1real),
        a == arithmetic::quotient(
            ops,
            e.peri_dist,
            arithmetic::difference(ops, F64 { bits: constants::ONE }, e.eccentricity),
        ),
        subtracts(ops, v, 1real + u, F64 { bits: constants::ONE }, e.eccentricity),
        divides(
            ops,
            v,
            1real + u,
            e.peri_dist,
            arithmetic::difference(ops, F64 { bits: constants::ONE }, e.eccentricity),
        ),
        rounded_hyperbola(ops, v, 1real + u, e, a, anomaly),
    ensures
        accuracy::placed(
            v,
            by,
            size,
            e,
            e.on_hyperbola(ops, a, anomaly),
            at_perihelion(v(e.eccentricity), v(e.peri_dist), t),
        ),
{
    let one = F64 { bits: constants::ONE };
    let sine = ops.one(Unary::Sinh, anomaly);
    let cosine = ops.one(Unary::Cosh, anomaly);
    let power = ops.two(Binary::Power, a.abs_value(), F64 { bits: constants::ONE_AND_HALF });
    let part = arithmetic::product(ops, e.eccentricity, cosine);
    let rest = arithmetic::difference(ops, one, part);
    let h_dot = arithmetic::product(ops, power, rest);
    let square = ops.one(Unary::Squared, e.eccentricity);
    let inside = arithmetic::difference(ops, square, one);
    let root = ops.one(Unary::Sqrt, inside);
    let b = arithmetic::product(ops, a.negated(), root);
    let ahead = arithmetic::difference(ops, cosine, e.eccentricity);
    let along = arithmetic::quotient(ops, a.negated(), h_dot);
    let aside = arithmetic::quotient(ops, b.negated(), h_dot);
    let left = arithmetic::difference(ops, one, e.eccentricity);
    let at = e.on_hyperbola(ops, a, anomaly);
    let (q, x, s) = (v(e.peri_dist), v(e.eccentricity), v(e.gm_sqrt));
    let y = size * u;
    let k = 1real + u;
    let j = 1real + 8real * y;
    let l = x - 1real;
    let p = x * x - 1real;
    let size_a = -v(a);
    accuracy::lemma_grow(size, u);
    // how far the eccentricity and its square are from one
    orbits::lemma_difference_of_squares(x);
    conics::lemma_positive(l, 1real + x);
    accuracy::lemma_scale(l, 1real, 1real + x);
    rounding::lemma_minus(l, 1real);
    accuracy::lemma_scale(size, l, p);
    conics::lemma_square(x);
    lemma_apart(v(square), x * x, k, k);
    lemma_negatives(1real, 1real - x * x);
    lemma_negatives(1real, 1real - v(square));
    rounding::lemma_order(1real, 1real - x * x, 1real);
    rounding::lemma_order(1real, 1real - v(square), 1real);
    rounding::lemma_minus(1real - x * x, 1real);
    rounding::lemma_minus(1real - v(square), 1real);
    lemma_inside(v(square), x, p, u, size, -1real);
    let p1 = v(square) - 1real;
    lemma_apart(v(inside), p1, k, k);
    lemma_first(k);
    // one step after the other
    lemma_apart_negative(v(left), 1real - x, k, k);
    lemma_negatives(v(a), v(left));
    lemma_apart(v(a) * v(left), q, k, k);
    orbits::lemma_positive_factor(size_a, -v(left));
    conics::lemma_positive(size_a, size_a);
    conics::lemma_positive(size_a, size_a * size_a);
    lemma_apart(v(power) * v(power), size_a * (size_a * size_a), k, k);
    orbits::lemma_positive_root(v(power));
    lemma_apart_negative(v(rest), 1real - x, k, k);
    lemma_negatives(v(power), v(rest));
    conics::lemma_positive(v(power), -v(rest));
    lemma_apart_negative(v(h_dot), v(power) * v(rest), k, k);
    lemma_apart(v(root) * v(root), v(inside), k, k);
    orbits::lemma_positive_root(v(root));
    conics::lemma_positive(size_a, v(root));
    lemma_apart(v(b), size_a * v(root), k, k);
    lemma_negatives(v(aside), v(h_dot));
    lemma_apart_negative(v(aside) * v(h_dot), -v(b), k, k);
    let c = Steps {
        left: -v(left),
        axis: size_a,
        power: v(power),
        rest: -v(rest),
        slow: -v(h_dot),
        inside: v(inside),
        root: v(root),
        short: v(b),
        speed: v(aside),
    };
    lemma_speed(c, k, j, q, l, p1, p, x, t);
    // the coordinates
    let axis = lemma_axis(c, k, q, l, p1);
    lemma_apart_negative(v(ahead), 1real - x, k, k);
    lemma_ratio_product(size_a, axis, -v(ahead), l, k, 2, 1);
    lemma_negatives(v(a), v(ahead));
    lemma_apart(v(at.x), v(a) * v(ahead), k, k);
    lemma_ratio_chain(v(at.x), v(a) * v(ahead), q, k, 1, 3);
    let f = raised(k, 21) * j;
    lemma_aside(ops, v, k, f, aside, sine, cosine, along, b, e.gm_sqrt, t);
    lemma_factors_small(u, y);
    lemma_placed(v, e, at, t, y, size, by, raised(k, 4), raised(k, 2) * f);
}

/// The place at perihelion on a parabola.
#[verifier::spinoff_prover]
proof fn lemma_on_parabola<A: Arithmetic>(
    ops: &A,
    v: Reading,
    e: CometElements,
    anomaly: F64,
    t: real,
    u: real,
    size: real,
    by: real,
)
    requires
        orbits::plain(v),
        orbits::zero(ops, v, anomaly),
        1real <= size,
        0real < u,
        384real * (size * u) <= 1real,
        62real * (size * (size * u)) <= by,
        0real < v(e.gm_sqrt),
        0real < v(e.peri_dist) <= size,
        0real < t <= size,
        (t * t) * v(e.peri_dist) == 1real + v(e.eccentricity),
        v(e.eccentricity) == 1real,
        rounded_parabola(ops, v, 1real + u, e, anomaly),
    ensures
        accuracy::placed(
            v,
            by,
            size,
            e,
            e.on_parabola(ops, anomaly),
            at_perihelion(v(e.eccentricity), v(e.peri_dist), t),
        ),
{
    let two = F64 { bits: constants::TWO };
    let square = ops.one(Unary::Squared, anomaly);
    let half = arithmetic::quotient(ops, square, two);
    let d_dot = arithmetic::sum(ops, e.peri_dist, half);
    let double = arithmetic::product(ops, two, e.peri_dist);
    let root = ops.one(Unary::Sqrt, double);
    let along = arithmetic::quotient(ops, anomaly.negated(), d_dot);
    let aside = arithmetic::quotient(ops, root, d_dot);
    let at = e.on_parabola(ops, anomaly);
    let (q, s) = (v(e.peri_dist), v(e.gm_sqrt));
    let y = size * u;
    let k = 1real + u;
    accuracy::lemma_grow(size, u);
    lemma_first(k);
    // what is zero
    rounding::lemma_minus(0real, 1real);
    lemma_apart(v(square), 0real, k, k);
    lemma_apart(v(half) * 2real, 0real, k, k);
    assert(v(half) == 0real);
    lemma_apart(v(d_dot), q, k, k);
    rounding::lemma_minus(v(root), 1real);
    lemma_apart(v(at.y), 0real, k, k);
    lemma_apart(v(along) * v(d_dot), 0real, k, k);
    if v(along) != 0real {
        conics::lemma_square(v(along));
        rounding::lemma_order(v(along), v(along), v(d_dot));
        conics::lemma_positive(v(along) * v(along), v(d_dot));
        rounding::lemma_minus(v(along), 1real);
    }
    rounding::lemma_order(0real, s, 1real);
    rounding::lemma_minus(s, 1real);
    lemma_apart(v(at.x_dot), 0real, k, k);
    // the distance
    lemma_apart(v(at.x), q, k, k);
    lemma_same(q, k, 3);
    lemma_ratio_chain(v(at.x), q, q, k, 1, 3);
    // the speed
    lemma_apart(v(double), 2real * q, k, k);
    lemma_apart(v(root) * v(root), v(double), k, k);
    lemma_ratio_chain(v(root) * v(root), v(double), 2real * q, k, 1, 1);
    conics::lemma_positive(t, q);
    rounding::lemma_factors(t, q, t, q);
    rounding::lemma_order(t * t, q, q);
    lemma_raised(k, 2);
    lemma_ratio_root(v(root), t * q, raised(k, 2));
    lemma_apart(v(aside) * v(d_dot), v(root), k, k);
    lemma_ratio_chain(v(aside) * v(d_dot), v(root), t * q, k, 1, 2);
    lemma_ratio_quotient(v(aside), t, v(d_dot), q, k, 3, 1);
    conics::lemma_positive(v(aside), s);
    lemma_apart(v(at.y_dot), v(aside) * s, k, k);
    lemma_same(s, k, 0);
    lemma_ratio_product(v(aside), t, s, s, k, 4, 0);
    lemma_ratio_chain(v(at.y_dot), v(aside) * s, t * s, k, 1, 4);
    lemma_factors_small(u, y);
    lemma_placed(v, e, at, t, y, size, by, raised(k, 4), raised(k, 5));
}

/// Is the place at perihelion found up to the factor `k`, on a conic of the kind which the
/// eccentricity tells. The eccentricity of an ellipse or a hyperbola is away from one by at least
/// one over `size`.
pub open spec fn rounded_place<A: Physics>(
    ops: &A,
    v: Reading,
    k: real,
    size: real,
    e: CometElements,
    anomaly: F64,
) -> bool {
    let c = ops.values();
    let one = F64 { bits: constants::ONE };
    let a = e.working_axis(ops, c);
    let left = arithmetic::difference(ops, one, e.eccentricity);
    if e.elliptical(ops, c) {
        &&& v(e.eccentricity) < 1real && 1real <= size * (1real - v(e.eccentricity))
        &&& subtracts(ops, v, k, one, e.eccentricity) && divides(ops, v, k, e.peri_dist, left)
        &&& rounded_ellipse(ops, v, k, e, a, anomaly)
    } else if e.hyperbolic(ops, c) {
        &&& 1real < v(e.eccentricity) && 1real <= size * (v(e.eccentricity) - 1real)
        &&& subtracts(ops, v, k, one, e.eccentricity) && divides(ops, v, k, e.peri_dist, left)
        &&& rounded_hyperbola(ops, v, k, e, a, anomaly)
    } else {
        &&& v(e.eccentricity) == 1real
        &&& rounded_parabola(ops, v, k, e, anomaly)
    }
}

/// How far rounding takes position and velocity at perihelion.
pub open spec fn motion_error(size: real, u: real, eps: real) -> real {
    accuracy::drift(size, eps, 62real * (size * (size * u)))
}

/// The elements of the position and the velocity which elements lead to at perihelion have nearly
/// the same eccentricity and nearly the same perihelion distance again, and the object is nearly as
/// far from the center as the perihelion distance tells: on an ellipse, a parabola or a hyperbola,
/// with any angles, and with rounding.
///
/// Perihelion distance, eccentricity, speed at perihelion in units of the center, and one over the
/// perihelion distance are at most `size`. Up to the place in the plane of the orbit each operation
/// is off by at most the factor `1 + u`, and after that by at most `eps`, as sines and cosines
/// are.
pub proof fn law_elements_nearly_come_back<A: Physics>(
    ops: &A,
    v: Reading,
    e: CometElements,
    anomaly: F64,
    desig: Desig,
    speed: real,
    turned: (Turn, Turn, Turn),
    size: real,
    u: real,
    eps: real,
)
    requires
        orbits::plain(v),
        1real <= size,
        0real < u,
        0real <= eps,
        accuracy::perihelion_error(size, motion_error(size, u, eps)) <= 1real,
        0real < v(e.gm_sqrt),
        0real <= v(e.eccentricity) <= size,
        0real < v(e.peri_dist) <= size,
        1real <= size * v(e.peri_dist),
        0real < speed <= size,
        (speed * speed) * v(e.peri_dist) == 1real + v(e.eccentricity),
        ops.eccentric(
            e.eccentricity,
            e.working_anomaly(ops, ops.values()),
            e.peri_dist,
        ) == Ok::<F64, Error>(anomaly),
        orbits::zero(ops, v, anomaly),
        rounded_place(ops, v, 1real + u, size, e, anomaly),
        accuracy::turns(ops, v, eps, e.peri_arg, turned.0),
        accuracy::turns(ops, v, eps, e.lon_of_ascending, turned.1),
        accuracy::turns(ops, v, eps, e.inclination, turned.2),
        accuracy::rounded_turn(ops, v, eps, e, orbits::place(ops, e, anomaly)),
        accuracy::rounded_conic(
            ops,
            v,
            eps,
            e.turned_out(ops, orbits::place(ops, e, anomaly)).pos,
            e.turned_out(ops, orbits::place(ops, e, anomaly)).vel,
            e.gm_sqrt,
        ),
    ensures
        ({
            let m = e.turned_out(ops, orbits::place(ops, e, anomaly));
            let again = CometElements::of_motion(
                ops,
                ops.values(),
                desig,
                e.epoch,
                m,
                e.center_id,
                e.gm_sqrt,
            );
            let by = motion_error(size, u, eps);
            &&& e.motion(ops) == Ok::<Motion<Ecliptic>, Error>(m)
            &&& near(v(m.pos.length(ops)), v(e.peri_dist), accuracy::distance_error(by))
            &&& near(
                v(again.eccentricity),
                v(e.eccentricity),
                accuracy::eccentricity_error(size, by),
            )
            &&& near(
                v(again.peri_dist),
                v(e.peri_dist),
                accuracy::perihelion_error(size, by),
            )
        }),
{
    let c = ops.values();
    let a = e.working_axis(ops, c);
    let at = orbits::place(ops, e, anomaly);
    let (q, x) = (v(e.peri_dist), v(e.eccentricity));
    let o = at_perihelion(x, q, speed);
    let place = 62real * (size * (size * u));
    let by = motion_error(size, u, eps);
    // the errors are small
    conics::lemma_positive(size, u);
    conics::lemma_positive(size, size * u);
    accuracy::lemma_grow(size, u);
    accuracy::lemma_grow(size, size * u);
    accuracy::lemma_scale(size, 0real, eps);
    rounding::lemma_minus(size, 1real);
    accuracy::lemma_grow(size, by);
    accuracy::lemma_grow(size, size * by);
    accuracy::lemma_grow(size, size * (size * by));
    accuracy::lemma_grow(size, size * (size * (size * by)));
    if e.elliptical(ops, c) {
        lemma_on_ellipse(ops, v, e, a, anomaly, speed, u, size, place);
    } else if e.hyperbolic(ops, c) {
        lemma_on_hyperbola(ops, v, e, a, anomaly, speed, u, size, place);
    } else {
        lemma_on_parabola(ops, v, e, anomaly, speed, u, size, place);
    }
    lemma_at_perihelion(x, q, speed);
    accuracy::law_conic_nearly_comes_back(ops, v, e, at, o, turned, size, eps, place);
}

} // verus!
