//! How far rounding takes the elements of a motion from those which the motion came from.
//!
//! Each condition below says of one operation how far its result is off at most. The bounds are
//! multiples of powers of `size`, which no coordinate, speed or distance exceeds.
use crate::arithmetic;
use crate::arithmetic::{Arithmetic, Unary};
use crate::conics;
use crate::conics::Turn;
use crate::constants;
use crate::elements;
use crate::elements::{CometElements, InPlane};
use crate::float::F64;
use crate::frames::{Ecliptic, Vector};
use crate::orbits;
use crate::orbits::Orbit;
use crate::rounding;
use crate::rounding::{bounded, near, read, Reading, Triple};
use vstd::prelude::*;

verus! {

/// A factor of at least one makes nothing smaller.
pub proof fn lemma_grow(k: real, x: real)
    requires
        1real <= k,
        0real <= x,
    ensures
        x <= k * x,
{
    assert(x <= k * x) by (nonlinear_arith)
        requires
            1real <= k,
            0real <= x,
    ;
}

/// A factor which is not negative keeps the order.
pub proof fn lemma_scale(k: real, x: real, y: real)
    requires
        0real <= k,
        x <= y,
    ensures
        k * x <= k * y,
{
    assert(k * x <= k * y) by (nonlinear_arith)
        requires
            0real <= k,
            x <= y,
    ;
}

/// What has the smaller square is smaller.
pub proof fn lemma_smaller_square(a: real, b: real)
    requires
        0real <= a,
        0real <= b,
        a * a <= b * b,
    ensures
        a <= b,
{
    if b < a {
        lemma_scale(b, b, a);
        conics::lemma_positive(a, a - b);
        rounding::lemma_spread(a, a, -b, 0real);
        rounding::lemma_minus(a, b);
        rounding::lemma_order(a, b, 1real);
    }
}

/// The error of a product, where the sizes of the factors and their errors are known as multiples.
pub proof fn lemma_product_error(
    a1: real,
    a: real,
    b1: real,
    b: real,
    ka: real,
    sa: real,
    kb: real,
    sb: real,
    la: real,
    ta: real,
    lb: real,
    tb: real,
)
    requires
        bounded(a, ka * sa),
        bounded(b1, kb * sb),
        near(a1, a, la * ta),
        near(b1, b, lb * tb),
    ensures
        near(a1 * b1, a * b, (ka * lb) * (sa * tb) + (kb * la) * (sb * ta)),
{
    rounding::lemma_near_product(a1, a, b1, b, la * ta, lb * tb, ka * sa, kb * sb);
    rounding::lemma_factors(ka, sa, lb, tb);
    rounding::lemma_factors(kb, sb, la, ta);
    rounding::lemma_order(la * ta, kb * sb, 1real);
}

/// No component of a vector of length one is larger than one.
pub proof fn lemma_unit(x: real, y: real, z: real)
    requires
        x * x + y * y + z * z == 1real,
    ensures
        bounded(x, 1real),
        bounded(y, 1real),
        bounded(z, 1real),
{
    conics::lemma_square(x);
    conics::lemma_square(y);
    conics::lemma_square(z);
    lemma_at_most(x, 1real);
    lemma_at_most(y, 1real);
    lemma_at_most(z, 1real);
}

/// A number is bounded by what its square is bounded by the square of.
pub proof fn lemma_at_most(x: real, n: real)
    requires
        0real <= n,
        x * x <= n * n,
    ensures
        bounded(x, n),
{
    conics::lemma_square(x);
    if 0real <= x {
        lemma_smaller_square(x, n);
    } else {
        lemma_smaller_square(-x, n);
    }
}

/// The length of a vector which is known up to `err`. The length itself is found up to a small
/// part of it.
pub proof fn lemma_length(c1: Triple, c: Triple, n: real, err: real, r: real, d: real)
    requires
        c1.near(c, err),
        c.dot(c) == n * n,
        0real <= n,
        0real <= err,
        0real <= d,
        3real * d <= 1real,
        0real <= r,
        near(r * r, c1.dot(c1), d * c1.dot(c1)),
    ensures
        near(r, n, 7real * err + d * n),
{
    let s = c1.dot(c1);
    lemma_square_length(c1, c, n, err);
    // from above
    let b = n + 3real * err;
    let k = 1real + d;
    lemma_scale(k, s, b * b);
    rounding::lemma_spread(s, 1real, d, 0real);
    rounding::lemma_order(s, k, 1real);
    rounding::lemma_order(s, d, 1real);
    rounding::lemma_minus(s, 1real);
    assert(r * r <= k * (b * b));
    conics::lemma_square(b);
    lemma_grow(k, k * (b * b));
    rounding::lemma_order(k, k, b * b);
    rounding::lemma_factors(k, b, k, b);
    lemma_scale(k, 0real, b);
    rounding::lemma_minus(k, 1real);
    lemma_smaller_square(r, k * b);
    rounding::lemma_spread(b, 1real, d, 0real);
    rounding::lemma_order(b, k, 1real);
    rounding::lemma_minus(b, 1real);
    rounding::lemma_order(b, d, 1real);
    rounding::lemma_spread(d, n, 3real * err, 0real);
    rounding::lemma_minus(d, 1real);
    rounding::lemma_order(d, 3real, err);
    rounding::lemma_order(d, 3real, 1real);
    rounding::lemma_order(3real * d, err, 1real);
    lemma_scale(err, 3real * d, 1real);
    rounding::lemma_order(err, 3real * d, 1real);
    rounding::lemma_minus(err, 1real);
    assert(d * (3real * err) <= err);
    assert(r <= n + 4real * err + d * n);
    // from below
    if 6real * err <= n {
        let c = n - 6real * err;
        let l = 1real - d;
        lemma_scale(l, c * c, s);
        rounding::lemma_spread(s, 1real, -d, 0real);
        rounding::lemma_minus(s, d);
        rounding::lemma_order(s, l, 1real);
        assert(l * (c * c) <= r * r);
        conics::lemma_square(c);
        lemma_scale(l, 0real, c * c);
        rounding::lemma_minus(l, 1real);
        lemma_scale(l * (c * c), l, 1real);
        rounding::lemma_order(l * (c * c), l, 1real);
        rounding::lemma_minus(l * (c * c), 1real);
        rounding::lemma_order(l, l, c * c);
        rounding::lemma_factors(l, c, l, c);
        lemma_scale(l, 0real, c);
        lemma_smaller_square(l * c, r);
        rounding::lemma_spread(c, 1real, -d, 0real);
        rounding::lemma_minus(c, d);
        rounding::lemma_minus(c, 1real);
        rounding::lemma_order(c, l, 1real);
        rounding::lemma_order(c, d, 1real);
        lemma_scale(d, c, n);
    } else {
        lemma_scale(d, 0real, n);
        rounding::lemma_minus(d, 1real);
    }
}

/// The square of the length of a vector which is known up to `err`.
proof fn lemma_square_length(c1: Triple, c: Triple, n: real, err: real)
    requires
        c1.near(c, err),
        c.dot(c) == n * n,
        0real <= n,
        0real <= err,
    ensures
        0real <= c1.dot(c1),
        c1.dot(c1) <= (n + 3real * err) * (n + 3real * err),
        6real * err <= n ==> (n - 6real * err) * (n - 6real * err) <= c1.dot(c1),
{
    conics::lemma_square(c.x);
    conics::lemma_square(c.y);
    conics::lemma_square(c.z);
    conics::lemma_square(c1.x);
    conics::lemma_square(c1.y);
    conics::lemma_square(c1.z);
    lemma_at_most(c.x, n);
    lemma_at_most(c.y, n);
    lemma_at_most(c.z, n);
    let (f, g, h) = (c1.x - c.x, c1.y - c.y, c1.z - c.z);
    conics::lemma_foil(c.x, f, c.x, f);
    conics::lemma_foil(c.y, g, c.y, g);
    conics::lemma_foil(c.z, h, c.z, h);
    rounding::lemma_order(c.x, f, 1real);
    rounding::lemma_order(c.y, g, 1real);
    rounding::lemma_order(c.z, h, 1real);
    rounding::lemma_product(c.x, f, n, err);
    rounding::lemma_product(c.y, g, n, err);
    rounding::lemma_product(c.z, h, n, err);
    rounding::lemma_product(f, f, err, err);
    rounding::lemma_product(g, g, err, err);
    rounding::lemma_product(h, h, err, err);
    conics::lemma_square(f);
    conics::lemma_square(g);
    conics::lemma_square(h);
    conics::lemma_foil(n, 3real * err, n, 3real * err);
    rounding::lemma_order(n, 3real * err, 1real);
    rounding::lemma_order(n, 3real, err);
    rounding::lemma_order(3real, n, err);
    rounding::lemma_order(n, 3real, 1real);
    rounding::lemma_factors(3real, err, 3real, err);
    conics::lemma_square(err);
    conics::lemma_foil(n, -(6real * err), n, -(6real * err));
    rounding::lemma_minus(n, 6real * err);
    rounding::lemma_order(n, -(6real * err), 1real);
    rounding::lemma_order(n, 6real, err);
    rounding::lemma_order(6real, n, err);
    rounding::lemma_order(n, 6real, 1real);
    conics::lemma_square(6real * err);
    rounding::lemma_factors(6real, err, 6real, err);
    if 6real * err <= n {
        lemma_scale(err, 6real * err, n);
        rounding::lemma_order(err, 6real, err);
        rounding::lemma_order(err, 6real, 1real);
        rounding::lemma_order(6real, err, err);
        rounding::lemma_order(err, n, 1real);
    }
}

/// Is a sum off by at most `eps`.
pub open spec fn adds<A: Arithmetic>(ops: &A, v: Reading, eps: real, a: F64, b: F64) -> bool {
    near(v(arithmetic::sum(ops, a, b)), v(a) + v(b), eps)
}

/// Is a difference off by at most `eps`.
pub open spec fn subtracts<A: Arithmetic>(ops: &A, v: Reading, eps: real, a: F64, b: F64) -> bool {
    near(v(arithmetic::difference(ops, a, b)), v(a) - v(b), eps)
}

/// Is a product off by at most `eps`.
pub open spec fn multiplies<A: Arithmetic>(ops: &A, v: Reading, eps: real, a: F64, b: F64) -> bool {
    near(v(arithmetic::product(ops, a, b)), v(a) * v(b), eps)
}

/// Is the product of a quotient with the divisor off by at most `eps`.
pub open spec fn divides<A: Arithmetic>(ops: &A, v: Reading, eps: real, a: F64, b: F64) -> bool {
    near(v(arithmetic::quotient(ops, a, b)) * v(b), v(a), eps)
}

/// Is a square off by at most `eps`.
pub open spec fn squares<A: Arithmetic>(ops: &A, v: Reading, eps: real, a: F64) -> bool {
    near(v(ops.one(Unary::Squared, a)), v(a) * v(a), eps)
}

/// Is the square of the length of a vector off by at most the part `eps` of it.
pub open spec fn measures<A: Arithmetic>(
    ops: &A,
    v: Reading,
    eps: real,
    a: Vector<Ecliptic>,
) -> bool {
    let r = v(a.length(ops));
    let square = read(v, a).dot(read(v, a));
    0real <= r && near(r * r, square, eps * square)
}

/// Are the products and sums of a dot product off by at most `eps`.
pub open spec fn dots<A: Arithmetic>(
    ops: &A,
    v: Reading,
    eps: real,
    a: Vector<Ecliptic>,
    b: Vector<Ecliptic>,
) -> bool {
    let (p, q, r) = (
        arithmetic::product(ops, a.x, b.x),
        arithmetic::product(ops, a.y, b.y),
        arithmetic::product(ops, a.z, b.z),
    );
    &&& multiplies(ops, v, eps, a.x, b.x)
    &&& multiplies(ops, v, eps, a.y, b.y)
    &&& multiplies(ops, v, eps, a.z, b.z)
    &&& adds(ops, v, eps, p, q)
    &&& adds(ops, v, eps, arithmetic::sum(ops, p, q), r)
}

/// Are the products and the difference of a component of a cross product off by at most `eps`.
pub open spec fn crosses<A: Arithmetic>(
    ops: &A,
    v: Reading,
    eps: real,
    a: F64,
    b: F64,
    c: F64,
    d: F64,
) -> bool {
    &&& multiplies(ops, v, eps, a, b)
    &&& multiplies(ops, v, eps, c, d)
    &&& subtracts(ops, v, eps, arithmetic::product(ops, a, b), arithmetic::product(ops, c, d))
}

/// Are the products of a vector with a number off by at most `eps`.
pub open spec fn scales<A: Arithmetic>(
    ops: &A,
    v: Reading,
    eps: real,
    a: Vector<Ecliptic>,
    k: F64,
) -> bool {
    multiplies(ops, v, eps, a.x, k) && multiplies(ops, v, eps, a.y, k) && multiplies(
        ops,
        v,
        eps,
        a.z,
        k,
    )
}

/// Are the quotients of a velocity by which it is brought to units of the center off by at most
/// `eps`, in these units.
pub open spec fn shrinks<A: Arithmetic>(
    ops: &A,
    v: Reading,
    eps: real,
    vel: Vector<Ecliptic>,
    gm_sqrt: F64,
) -> bool {
    let by = eps * v(gm_sqrt);
    &&& divides(ops, v, by, vel.x, gm_sqrt)
    &&& divides(ops, v, by, vel.y, gm_sqrt)
    &&& divides(ops, v, by, vel.z, gm_sqrt)
}

/// Are the operations off by at most `eps` by which eccentricity and perihelion distance are found
/// from a position and a velocity.
pub open spec fn rounded_conic<A: Arithmetic>(
    ops: &A,
    v: Reading,
    eps: real,
    pos: Vector<Ecliptic>,
    vel: Vector<Ecliptic>,
    gm_sqrt: F64,
) -> bool {
    let w = vel.shrunk(ops, gm_sqrt);
    let k = elements::conic(ops, pos, vel, gm_sqrt);
    let one = F64 { bits: constants::ONE };
    let inverse = arithmetic::quotient(ops, one, k.p_mag);
    let factor = arithmetic::difference(ops, k.v_mag2, inverse);
    let (a, b) = (pos.scaled(ops, factor), w.scaled(ops, k.vp_mag));
    &&& shrinks(ops, v, eps, vel, gm_sqrt)
    &&& dots(ops, v, eps, w, w)
    &&& dots(ops, v, eps, pos, w)
    &&& measures(ops, v, eps, pos)
    &&& divides(ops, v, eps, one, k.p_mag)
    &&& subtracts(ops, v, eps, k.v_mag2, inverse)
    &&& scales(ops, v, eps, pos, factor)
    &&& scales(ops, v, eps, w, k.vp_mag)
    &&& subtracts(ops, v, eps, a.x, b.x)
    &&& subtracts(ops, v, eps, a.y, b.y)
    &&& subtracts(ops, v, eps, a.z, b.z)
    &&& crosses(ops, v, eps, pos.y, w.z, pos.z, w.y)
    &&& crosses(ops, v, eps, pos.z, w.x, pos.x, w.z)
    &&& crosses(ops, v, eps, pos.x, w.y, pos.y, w.x)
    &&& measures(ops, v, eps, k.ecc_vec)
    &&& measures(ops, v, eps, k.ang_vec)
    &&& squares(ops, v, eps, k.ang_mag)
    &&& adds(ops, v, eps, one, k.ecc)
    &&& divides(
        ops,
        v,
        eps,
        ops.one(Unary::Squared, k.ang_mag),
        arithmetic::sum(ops, one, k.ecc),
    )
}

/// Is the product of three numbers off by at most `eps` at each step.
pub open spec fn multiplies_three<A: Arithmetic>(
    ops: &A,
    v: Reading,
    eps: real,
    a: F64,
    b: F64,
    c: F64,
) -> bool {
    multiplies(ops, v, eps, a, b) && multiplies(ops, v, eps, arithmetic::product(ops, a, b), c)
}

/// Are the products and the sum off by at most `eps` by which a component of a vector in the plane
/// of an orbit is turned out.
pub open spec fn combines<A: Arithmetic>(
    ops: &A,
    v: Reading,
    eps: real,
    x: F64,
    p: F64,
    y: F64,
    q: F64,
) -> bool {
    &&& multiplies(ops, v, eps, x, p)
    &&& multiplies(ops, v, eps, y, q)
    &&& adds(ops, v, eps, arithmetic::product(ops, x, p), arithmetic::product(ops, y, q))
}

/// Are the operations off by at most `eps` by which the plane of an orbit is turned into space.
pub open spec fn rounded_turn<A: Arithmetic>(
    ops: &A,
    v: Reading,
    eps: real,
    e: CometElements,
    at: InPlane,
) -> bool {
    let s_w = ops.one(Unary::Sin, e.peri_arg);
    let c_w = ops.one(Unary::Cos, e.peri_arg);
    let s_o = ops.one(Unary::Sin, e.lon_of_ascending);
    let c_o = ops.one(Unary::Cos, e.lon_of_ascending);
    let s_i = ops.one(Unary::Sin, e.inclination);
    let c_i = ops.one(Unary::Cos, e.inclination);
    let (a, b) = (
        arithmetic::product(ops, c_w, c_o),
        arithmetic::product(ops, arithmetic::product(ops, s_w, s_o), c_i),
    );
    let (c, d) = (
        arithmetic::product(ops, c_w, s_o),
        arithmetic::product(ops, arithmetic::product(ops, s_w, c_o), c_i),
    );
    let (f, g) = (
        arithmetic::product(ops, s_w.negated(), c_o),
        arithmetic::product(ops, arithmetic::product(ops, c_w, s_o), c_i),
    );
    let (h, k) = (
        arithmetic::product(ops, s_w.negated(), s_o),
        arithmetic::product(ops, arithmetic::product(ops, c_w, c_o), c_i),
    );
    let px = arithmetic::difference(ops, a, b);
    let py = arithmetic::sum(ops, c, d);
    let pz = arithmetic::product(ops, s_w, s_i);
    let qx = arithmetic::difference(ops, f, g);
    let qy = arithmetic::sum(ops, h, k);
    let qz = arithmetic::product(ops, c_w, s_i);
    let speed = eps * v(e.gm_sqrt);
    &&& multiplies(ops, v, eps, c_w, c_o) && multiplies_three(ops, v, eps, s_w, s_o, c_i)
    &&& multiplies(ops, v, eps, c_w, s_o) && multiplies_three(ops, v, eps, s_w, c_o, c_i)
    &&& multiplies(ops, v, eps, s_w.negated(), c_o) && multiplies_three(ops, v, eps, c_w, s_o, c_i)
    &&& multiplies(ops, v, eps, s_w.negated(), s_o) && multiplies_three(ops, v, eps, c_w, c_o, c_i)
    &&& subtracts(ops, v, eps, a, b) && adds(ops, v, eps, c, d)
    &&& subtracts(ops, v, eps, f, g) && adds(ops, v, eps, h, k)
    &&& multiplies(ops, v, eps, s_w, s_i) && multiplies(ops, v, eps, c_w, s_i)
    &&& combines(ops, v, eps, at.x, px, at.y, qx)
    &&& combines(ops, v, eps, at.x, py, at.y, qy)
    &&& combines(ops, v, eps, at.x, pz, at.y, qz)
    &&& combines(ops, v, speed, at.x_dot, px, at.y_dot, qx)
    &&& combines(ops, v, speed, at.x_dot, py, at.y_dot, qy)
    &&& combines(ops, v, speed, at.x_dot, pz, at.y_dot, qz)
}

/// Are sine and cosine of an angle those of the turn `t`, up to `eps`.
pub open spec fn turns<A: Arithmetic>(
    ops: &A,
    v: Reading,
    eps: real,
    angle: F64,
    t: Turn,
) -> bool {
    let found = orbits::turn(ops, v, angle);
    t.exact() && near(found.sin, t.sin, eps) && near(found.cos, t.cos, eps)
}

/// The product of two of sine and cosine, known up to `4 eps`.
proof fn lemma_two(a1: real, a: real, b1: real, b: real, r: real, eps: real)
    requires
        near(a1, a, eps),
        near(b1, b, eps),
        bounded(a, 1real),
        bounded(b, 1real),
        near(r, a1 * b1, eps),
        0real <= eps <= 1real,
    ensures
        near(r, a * b, 4real * eps),
        bounded(a * b, 1real),
{
    rounding::lemma_near_product(a1, a, b1, b, eps, eps, 1real, 2real);
    rounding::lemma_order(eps, 2real, 1real);
    rounding::lemma_order(1real, eps, 1real);
    rounding::lemma_minus(eps, 1real);
    rounding::lemma_product(a, b, 1real, 1real);
}

/// The product of three of sine and cosine, known up to `10 eps`.
proof fn lemma_three(
    a1: real,
    a: real,
    b1: real,
    b: real,
    c1: real,
    c: real,
    s: real,
    r: real,
    eps: real,
)
    requires
        near(a1, a, eps),
        near(b1, b, eps),
        near(c1, c, eps),
        bounded(a, 1real),
        bounded(b, 1real),
        bounded(c, 1real),
        near(s, a1 * b1, eps),
        near(r, s * c1, eps),
        0real <= eps <= 1real,
    ensures
        near(r, (a * b) * c, 10real * eps),
        bounded((a * b) * c, 1real),
{
    lemma_two(a1, a, b1, b, s, eps);
    rounding::lemma_near_product(s, a * b, c1, c, 4real * eps, eps, 1real, 2real);
    rounding::lemma_order(4real * eps, 2real, 1real);
    rounding::lemma_order(1real, eps, 1real);
    rounding::lemma_minus(eps, 1real);
    rounding::lemma_product(a * b, c, 1real, 1real);
}

/// A component of a vector which is turned out of the plane of an orbit, in units of `s`.
proof fn lemma_component(
    x1: real,
    x: real,
    y1: real,
    y: real,
    p1: real,
    p: real,
    q1: real,
    q: real,
    f: real,
    g: real,
    r: real,
    size: real,
    eps: real,
    by: real,
    s: real,
)
    requires
        1real <= size,
        0real <= eps,
        15real * eps <= 1real,
        0real <= by,
        0real <= s,
        bounded(x, size * s),
        bounded(y, size * s),
        near(x1, x, by * s),
        near(y1, y, by * s),
        bounded(p, 1real),
        bounded(q, 1real),
        near(p1, p, 15real * eps),
        near(q1, q, 15real * eps),
        near(f, x1 * p1, eps * s),
        near(g, y1 * q1, eps * s),
        near(r, f + g, eps * s),
    ensures
        near(r, x * p + y * q, 4real * (by * s) + 33real * (size * (eps * s))),
{
    let z = eps * s;
    rounding::lemma_near_product(x1, x, p1, p, by * s, 15real * eps, size * s, 2real);
    rounding::lemma_near_product(y1, y, q1, q, by * s, 15real * eps, size * s, 2real);
    conics::lemma_swap(size * s, 15real, eps);
    rounding::lemma_order(size, s, eps);
    rounding::lemma_order(s, eps, 1real);
    rounding::lemma_order(by * s, 2real, 1real);
    lemma_scale(eps, 0real, s);
    rounding::lemma_minus(eps, 1real);
    lemma_grow(size, z);
}

/// Sine and cosine are at most one.
pub proof fn lemma_circle(t: Turn)
    requires
        t.exact(),
    ensures
        bounded(t.sin, 1real),
        bounded(t.cos, 1real),
{
    rounding::lemma_minus(0real, 1real);
    lemma_unit(t.cos, t.sin, 0real);
}

/// Is the place of an object in the plane of its orbit the one which `o` tells, up to `by`, where
/// no coordinate is larger than `size`.
pub open spec fn placed(
    v: Reading,
    by: real,
    size: real,
    e: CometElements,
    at: InPlane,
    o: Orbit,
) -> bool {
    let s = v(e.gm_sqrt);
    &&& bounded(o.x, size) && bounded(o.y, size)
    &&& bounded(o.xd, size) && bounded(o.yd, size)
    &&& near(v(at.x), o.x, by) && near(v(at.y), o.y, by)
    &&& near(v(at.x_dot), o.xd * s, by * s) && near(v(at.y_dot), o.yd * s, by * s)
}

/// How far position and velocity are off, where the place in the plane of the orbit is off by at
/// most `by`.
pub open spec fn drift(size: real, eps: real, by: real) -> real {
    4real * by + 34real * (size * eps)
}

/// A component of position and velocity.
proof fn lemma_turned<A: Arithmetic>(
    ops: &A,
    v: Reading,
    eps: real,
    by: real,
    size: real,
    at: InPlane,
    o: Orbit,
    p1: F64,
    p: real,
    q1: F64,
    q: real,
    s: real,
    pos: F64,
    vel: F64,
    unit: real,
)
    requires
        1real <= size,
        0real <= eps,
        15real * eps <= 1real,
        0real <= by,
        0real < s,
        bounded(p, 1real),
        bounded(q, 1real),
        near(v(p1), p, 15real * eps),
        near(v(q1), q, 15real * eps),
        bounded(o.x, size) && bounded(o.y, size),
        bounded(o.xd, size) && bounded(o.yd, size),
        near(v(at.x), o.x, by) && near(v(at.y), o.y, by),
        near(v(at.x_dot), o.xd * s, by * s) && near(v(at.y_dot), o.yd * s, by * s),
        combines(ops, v, eps, at.x, p1, at.y, q1),
        combines(ops, v, eps * s, at.x_dot, p1, at.y_dot, q1),
        pos == arithmetic::sum(
            ops,
            arithmetic::product(ops, at.x, p1),
            arithmetic::product(ops, at.y, q1),
        ),
        vel == arithmetic::sum(
            ops,
            arithmetic::product(ops, at.x_dot, p1),
            arithmetic::product(ops, at.y_dot, q1),
        ),
        near(unit * s, v(vel), eps * s),
    ensures
        near(v(pos), o.x * p + o.y * q, drift(size, eps, by)),
        near(unit, o.xd * p + o.yd * q, drift(size, eps, by)),
{
    rounding::lemma_minus(size, 1real);
    rounding::lemma_minus(eps, 1real);
    rounding::lemma_minus(by, 1real);
    lemma_component(
        v(at.x),
        o.x,
        v(at.y),
        o.y,
        v(p1),
        p,
        v(q1),
        q,
        v(arithmetic::product(ops, at.x, p1)),
        v(arithmetic::product(ops, at.y, q1)),
        v(pos),
        size,
        eps,
        by,
        1real,
    );
    rounding::lemma_product(o.xd, s, size, s);
    rounding::lemma_product(o.yd, s, size, s);
    lemma_component(
        v(at.x_dot),
        o.xd * s,
        v(at.y_dot),
        o.yd * s,
        v(p1),
        p,
        v(q1),
        q,
        v(arithmetic::product(ops, at.x_dot, p1)),
        v(arithmetic::product(ops, at.y_dot, q1)),
        v(vel),
        size,
        eps,
        by,
        s,
    );
    lemma_grow(size, eps);
    // the speed in units of s
    let want = o.xd * p + o.yd * q;
    rounding::lemma_order(o.xd, s, p);
    rounding::lemma_order(o.yd, s, q);
    conics::lemma_swap(o.xd, s, p);
    conics::lemma_swap(o.yd, s, q);
    rounding::lemma_spread(s, o.xd * p, o.yd * q, 0real);
    rounding::lemma_minus(s, 1real);
    assert((o.xd * s) * p + (o.yd * s) * q == s * want);
    rounding::lemma_order(size, eps, s);
    rounding::lemma_order(size * eps, s, 1real);
    rounding::lemma_order(eps, s, 1real);
    lemma_scale(s, eps, size * eps);
    let off = drift(size, eps, by);
    rounding::lemma_spread(s, 4real * by, 34real * (size * eps), 0real);
    conics::lemma_swap(s, 34real, size * eps);
    conics::lemma_swap(s, 4real, by);
    rounding::lemma_order(s, by, 1real);
    rounding::lemma_order(unit, s, 1real);
    rounding::lemma_spread(s, unit, -want, 0real);
    rounding::lemma_minus(s, want);
    assert(bounded(s * (unit - want), s * off));
    lemma_divide(s, unit - want, off);
    lemma_scale(size, 0real, eps);
}

/// What a positive factor leaves in order is in order.
proof fn lemma_divide(k: real, x: real, y: real)
    requires
        0real < k,
        bounded(k * x, k * y),
    ensures
        bounded(x, y),
{
    if y < x {
        conics::lemma_positive(k, x - y);
        rounding::lemma_spread(k, x, -y, 0real);
        rounding::lemma_minus(k, y);
    }
    if x < -y {
        conics::lemma_positive(k, -y - x);
        rounding::lemma_spread(k, -y, -x, 0real);
        rounding::lemma_minus(k, y);
        rounding::lemma_minus(k, x);
    }
}

/// Position and velocity, the latter in units of the center, of an object whose place in the plane
/// of its orbit is known up to `by`.
pub proof fn lemma_turned_out<A: Arithmetic>(
    ops: &A,
    v: Reading,
    eps: real,
    by: real,
    size: real,
    e: CometElements,
    at: InPlane,
    o: Orbit,
    w: Turn,
    n: Turn,
    i: Turn,
)
    requires
        orbits::plain(v),
        1real <= size,
        0real <= eps,
        15real * eps <= 1real,
        0real <= by,
        0real < v(e.gm_sqrt),
        turns(ops, v, eps, e.peri_arg, w),
        turns(ops, v, eps, e.lon_of_ascending, n),
        turns(ops, v, eps, e.inclination, i),
        placed(v, by, size, e, at, o),
        rounded_turn(ops, v, eps, e, at),
        shrinks(ops, v, eps, e.turned_out(ops, at).vel, e.gm_sqrt),
    ensures
        ({
            let m = e.turned_out(ops, at);
            let (p, q) = (conics::toward(w, n, i), conics::across(w, n, i));
            let off = drift(size, eps, by);
            &&& read(v, m.pos).near(conics::mix(o.x, p, o.y, q), off)
            &&& read(v, m.vel.shrunk(ops, e.gm_sqrt)).near(conics::mix(o.xd, p, o.yd, q), off)
        }),
{
    let s_w = ops.one(Unary::Sin, e.peri_arg);
    let c_w = ops.one(Unary::Cos, e.peri_arg);
    let s_o = ops.one(Unary::Sin, e.lon_of_ascending);
    let c_o = ops.one(Unary::Cos, e.lon_of_ascending);
    let s_i = ops.one(Unary::Sin, e.inclination);
    let c_i = ops.one(Unary::Cos, e.inclination);
    let (p, q) = (conics::toward(w, n, i), conics::across(w, n, i));
    lemma_circle(w);
    lemma_circle(n);
    lemma_circle(i);
    let (a, b) = (
        arithmetic::product(ops, c_w, c_o),
        arithmetic::product(ops, arithmetic::product(ops, s_w, s_o), c_i),
    );
    let (c, d) = (
        arithmetic::product(ops, c_w, s_o),
        arithmetic::product(ops, arithmetic::product(ops, s_w, c_o), c_i),
    );
    let (f, g) = (
        arithmetic::product(ops, s_w.negated(), c_o),
        arithmetic::product(ops, arithmetic::product(ops, c_w, s_o), c_i),
    );
    let (h, k) = (
        arithmetic::product(ops, s_w.negated(), s_o),
        arithmetic::product(ops, arithmetic::product(ops, c_w, c_o), c_i),
    );
    let px = arithmetic::difference(ops, a, b);
    let py = arithmetic::sum(ops, c, d);
    let pz = arithmetic::product(ops, s_w, s_i);
    let qx = arithmetic::difference(ops, f, g);
    let qy = arithmetic::sum(ops, h, k);
    let qz = arithmetic::product(ops, c_w, s_i);
    lemma_two(v(c_w), w.cos, v(c_o), n.cos, v(a), eps);
    lemma_two(v(c_w), w.cos, v(s_o), n.sin, v(c), eps);
    lemma_two(v(s_w.negated()), -w.sin, v(c_o), n.cos, v(f), eps);
    lemma_two(v(s_w.negated()), -w.sin, v(s_o), n.sin, v(h), eps);
    lemma_two(v(s_w), w.sin, v(s_i), i.sin, v(pz), eps);
    lemma_two(v(c_w), w.cos, v(s_i), i.sin, v(qz), eps);
    let (sso, sco) = (arithmetic::product(ops, s_w, s_o), arithmetic::product(ops, s_w, c_o));
    lemma_three(v(s_w), w.sin, v(s_o), n.sin, v(c_i), i.cos, v(sso), v(b), eps);
    lemma_three(v(s_w), w.sin, v(c_o), n.cos, v(c_i), i.cos, v(sco), v(d), eps);
    lemma_three(v(c_w), w.cos, v(s_o), n.sin, v(c_i), i.cos, v(c), v(g), eps);
    lemma_three(v(c_w), w.cos, v(c_o), n.cos, v(c_i), i.cos, v(a), v(k), eps);
    assert(Triple { x: v(px), y: v(py), z: v(pz) }.near(p, 15real * eps));
    assert(Triple { x: v(qx), y: v(qy), z: v(qz) }.near(q, 15real * eps));
    conics::lemma_axes(w, n, i);
    lemma_unit(p.x, p.y, p.z);
    lemma_unit(q.x, q.y, q.z);
    let m = e.turned_out(ops, at);
    let s = v(e.gm_sqrt);
    let unit = m.vel.shrunk(ops, e.gm_sqrt);
    lemma_turned(ops, v, eps, by, size, at, o, px, p.x, qx, q.x, s, m.pos.x, m.vel.x, v(unit.x));
    lemma_turned(ops, v, eps, by, size, at, o, py, p.y, qy, q.y, s, m.pos.y, m.vel.y, v(unit.y));
    lemma_turned(ops, v, eps, by, size, at, o, pz, p.z, qz, q.z, s, m.pos.z, m.vel.z, v(unit.z));
}

/// What is bounded after a factor of at least one is bounded before.
pub proof fn lemma_shrink(k: real, x: real, y: real)
    requires
        1real <= k,
        bounded(k * x, y),
    ensures
        bounded(x, y),
{
    rounding::lemma_minus(k, x);
    if 0real <= x {
        lemma_grow(k, x);
    } else {
        lemma_grow(k, -x);
    }
}

/// The dot product of vectors which are known up to `by`.
proof fn lemma_dot<A: Arithmetic>(
    ops: &A,
    v: Reading,
    eps: real,
    size: real,
    by: real,
    a1: Vector<Ecliptic>,
    a: Triple,
    b1: Vector<Ecliptic>,
    b: Triple,
)
    requires
        1real <= size,
        0real <= eps <= by <= size,
        dots(ops, v, eps, a1, b1),
        a.bounded(2real * size),
        b.bounded(2real * size),
        read(v, a1).near(a, by),
        read(v, b1).near(b, by),
    ensures
        near(v(a1.dotted(ops, b1)), a.dot(b), 20real * (size * by)),
{
    let (s, t) = (size, by);
    lemma_product_error(
        v(a1.x), a.x, v(b1.x), b.x, 2real, s, 3real, s, 1real, t, 1real, t);
    lemma_product_error(
        v(a1.y), a.y, v(b1.y), b.y, 2real, s, 3real, s, 1real, t, 1real, t);
    lemma_product_error(
        v(a1.z), a.z, v(b1.z), b.z, 2real, s, 3real, s, 1real, t, 1real, t);
    lemma_grow(size, by);
}

/// A component of the cross product of vectors which are known up to `by`.
proof fn lemma_cross<A: Arithmetic>(
    ops: &A,
    v: Reading,
    eps: real,
    size: real,
    by: real,
    a1: F64,
    a: real,
    b1: F64,
    b: real,
    c1: F64,
    c: real,
    d1: F64,
    d: real,
)
    requires
        1real <= size,
        0real <= eps <= by <= size,
        crosses(ops, v, eps, a1, b1, c1, d1),
        bounded(a, 2real * size),
        bounded(b, 2real * size),
        bounded(c, 2real * size),
        bounded(d, 2real * size),
        near(v(a1), a, by),
        near(v(b1), b, by),
        near(v(c1), c, by),
        near(v(d1), d, by),
    ensures
        near(
            v(
                arithmetic::difference(
                    ops,
                    arithmetic::product(ops, a1, b1),
                    arithmetic::product(ops, c1, d1),
                ),
            ),
            a * b - c * d,
            13real * (size * by),
        ),
{
    let (s, t) = (size, by);
    lemma_product_error(v(a1), a, v(b1), b, 2real, s, 3real, s, 1real, t, 1real, t);
    lemma_product_error(v(c1), c, v(d1), d, 2real, s, 3real, s, 1real, t, 1real, t);
    lemma_grow(size, by);
}

/// One over a distance which is known up to `8 by`.
proof fn lemma_inverse(u1: real, r1: real, u: real, r: real, eps: real, size: real, by: real)
    requires
        1real <= size,
        0real <= eps <= by,
        0real < r,
        u * r == 1real,
        1real <= size * r,
        near(r1, r, 8real * by),
        near(u1 * r1, 1real, eps),
        16real * (size * by) <= 1real,
    ensures
        near(u1, u, 18real * (size * (size * by))),
        0real <= u <= size,
{
    let d1 = size * by;
    rounding::lemma_order(u, r, 1real);
    rounding::lemma_order(size, r, 1real);
    rounding::lemma_minus(r, 1real);
    if u < 0real {
        conics::lemma_positive(r, -u);
        rounding::lemma_minus(r, u);
    }
    if size < u {
        conics::lemma_positive(r, u - size);
        rounding::lemma_spread(r, u, -size, 0real);
        rounding::lemma_minus(r, size);
    }
    lemma_grow(size, by);
    rounding::lemma_product(u, r - r1, size, 8real * by);
    conics::lemma_swap(size, 8real, by);
    rounding::lemma_spread(u, r, -r1, 0real);
    rounding::lemma_minus(u, r1);
    rounding::lemma_minus(u, 1real);
    rounding::lemma_spread(r1, u1, -u, 0real);
    rounding::lemma_minus(r1, u);
    rounding::lemma_minus(r1, 1real);
    rounding::lemma_order(r1, u1, 1real);
    rounding::lemma_order(r1, u, 1real);
    assert(bounded(r1 * (u1 - u), 9real * d1));
    // the distance is not small
    rounding::lemma_product(size, r1 - r, size, 8real * by);
    rounding::lemma_spread(size, r1, -r, 0real);
    rounding::lemma_minus(size, r);
    rounding::lemma_minus(size, 1real);
    assert(1real <= 2real * (size * r1));
    let k = 2real * (size * r1);
    rounding::lemma_product(2real * size, r1 * (u1 - u), 2real * size, 9real * d1);
    rounding::lemma_order(2real * size, r1, u1 - u);
    rounding::lemma_order(2real, size, r1);
    rounding::lemma_factors(2real, size, 9real, d1);
    lemma_shrink(k, u1 - u, 18real * (size * d1));
}

/// A component of the vector towards perihelion.
proof fn lemma_ecc_component<A: Arithmetic>(
    ops: &A,
    v: Reading,
    eps: real,
    size: real,
    by: real,
    pos1: F64,
    pos: real,
    vel1: F64,
    vel: real,
    k1: F64,
    k: real,
    g1: F64,
    g: real,
)
    requires
        1real <= size,
        0real <= eps <= by <= size,
        39real * (size * (size * by)) <= 1real,
        bounded(pos, 2real * size),
        bounded(vel, 2real * size),
        bounded(k, 3real * (size * size)),
        bounded(g, 2real * (size * size)),
        near(v(pos1), pos, by),
        near(v(vel1), vel, by),
        near(v(k1), k, 39real * (size * (size * by))),
        near(v(g1), g, 20real * (size * by)),
        multiplies(ops, v, eps, pos1, k1),
        multiplies(ops, v, eps, vel1, g1),
        subtracts(
            ops,
            v,
            eps,
            arithmetic::product(ops, pos1, k1),
            arithmetic::product(ops, vel1, g1),
        ),
    ensures
        near(
            v(
                arithmetic::difference(
                    ops,
                    arithmetic::product(ops, pos1, k1),
                    arithmetic::product(ops, vel1, g1),
                ),
            ),
            k * pos - g * vel,
            128real * (size * (size * (size * by))),
        ),
{
    let (s, t) = (size, by);
    let s2 = s * s;
    let (d1, d2, d3) = (s * t, s * (s * t), s * (s * (s * t)));
    lemma_grow(s, t);
    lemma_grow(s, d1);
    lemma_grow(s, d2);
    lemma_grow(s, s);
    rounding::lemma_order(s, s, t);
    lemma_product_error(v(pos1), pos, v(k1), k, 2real, s, 4real, s2, 1real, t, 39real, d2);
    lemma_product_error(v(vel1), vel, v(g1), g, 2real, s, 3real, s2, 1real, t, 20real, d1);
    rounding::lemma_order(pos, k, 1real);
    rounding::lemma_order(vel, g, 1real);
}

/// The perihelion distance from an angular momentum and an eccentricity which are nearly known.
proof fn lemma_perihelion(
    ecc1: real,
    e: real,
    h1: real,
    h: real,
    square: real,
    sum: real,
    peri1: real,
    peri: real,
    eps: real,
    size: real,
    by: real,
)
    requires
        1real <= size,
        0real <= eps <= by,
        0real <= e,
        0real <= h <= 2real * size,
        0real <= peri <= size,
        peri * (1real + e) == h * h,
        near(ecc1, e, 1024real * (size * (size * (size * by)))),
        near(h1, h, 104real * (size * by)),
        near(square, h1 * h1, eps),
        near(sum, 1real + ecc1, eps),
        near(peri1 * sum, square, eps),
        3100real * (size * (size * (size * (size * by)))) <= 1real,
    ensures
        near(peri1, peri, 3100real * (size * (size * (size * (size * by))))),
{
    let s = size;
    let d1 = s * by;
    let d2 = s * d1;
    let d3 = s * d2;
    let d4 = s * d3;
    lemma_grow(s, by);
    lemma_grow(s, d1);
    lemma_grow(s, d2);
    lemma_grow(s, d3);
    lemma_product_error(h1, h, h1, h, 2real, s, 3real, s, 104real, d1, 104real, d1);
    assert(near(square, h * h, 521real * d2));
    assert(near(sum, 1real + e, 1025real * d3));
    rounding::lemma_product(peri, 1real + e - sum, s, 1025real * d3);
    conics::lemma_swap(s, 1025real, d3);
    rounding::lemma_spread(peri, 1real + e, -sum, 0real);
    rounding::lemma_minus(peri, sum);
    rounding::lemma_minus(peri, 1real);
    rounding::lemma_spread(sum, peri1, -peri, 0real);
    rounding::lemma_minus(sum, peri);
    rounding::lemma_minus(sum, 1real);
    rounding::lemma_order(sum, peri1, 1real);
    rounding::lemma_order(sum, peri, 1real);
    assert(bounded(sum * (peri1 - peri), 1547real * d4));
    rounding::lemma_order(2real, sum, peri1 - peri);
    lemma_shrink(2real * sum, peri1 - peri, 3094real * d4);
}

/// The sizes of what describes an object on a conic.
proof fn lemma_sizes(o: Orbit, size: real, p: Triple, q: Triple)
    requires
        1real <= size,
        conics::on_conic(o.x, o.y, o.xd, o.yd, o.e, o.h, o.r),
        bounded(o.x, size) && bounded(o.y, size),
        bounded(o.xd, size) && bounded(o.yd, size),
        o.e <= size,
        p.bounded(1real),
        q.bounded(1real),
    ensures
        conics::mix(o.x, p, o.y, q).bounded(2real * size),
        conics::mix(o.xd, p, o.yd, q).bounded(2real * size),
        bounded(o.xd * o.xd + o.yd * o.yd, 2real * (size * size)),
        bounded(o.x * o.xd + o.y * o.yd, 2real * (size * size)),
        o.r <= 2real * size,
        o.h <= 2real * size,
        size <= size * size,
{
    rounding::lemma_minus(size, 1real);
    rounding::lemma_product(o.x, p.x, size, 1real);
    rounding::lemma_product(o.x, p.y, size, 1real);
    rounding::lemma_product(o.x, p.z, size, 1real);
    rounding::lemma_product(o.y, q.x, size, 1real);
    rounding::lemma_product(o.y, q.y, size, 1real);
    rounding::lemma_product(o.y, q.z, size, 1real);
    rounding::lemma_product(o.xd, p.x, size, 1real);
    rounding::lemma_product(o.xd, p.y, size, 1real);
    rounding::lemma_product(o.xd, p.z, size, 1real);
    rounding::lemma_product(o.yd, q.x, size, 1real);
    rounding::lemma_product(o.yd, q.y, size, 1real);
    rounding::lemma_product(o.yd, q.z, size, 1real);
    rounding::lemma_product(o.x, o.x, size, size);
    rounding::lemma_product(o.y, o.y, size, size);
    rounding::lemma_product(o.xd, o.xd, size, size);
    rounding::lemma_product(o.yd, o.yd, size, size);
    rounding::lemma_product(o.x, o.xd, size, size);
    rounding::lemma_product(o.y, o.yd, size, size);
    rounding::lemma_product(o.e, o.x, size, size);
    rounding::lemma_factors(2real, size, 2real, size);
    lemma_grow(size, size);
    lemma_smaller_square(o.r, 2real * size);
    lemma_smaller_square(o.h, 2real * size);
}

/// Distance, eccentricity and perihelion distance of an object whose position and velocity are
/// known up to `by`.
#[verifier::spinoff_prover]
pub proof fn lemma_conic<A: Arithmetic>(
    ops: &A,
    v: Reading,
    eps: real,
    size: real,
    by: real,
    pos: Vector<Ecliptic>,
    vel: Vector<Ecliptic>,
    gm_sqrt: F64,
    o: Orbit,
    peri: real,
    p: Triple,
    q: Triple,
)
    requires
        orbits::plain(v),
        1real <= size,
        0real <= eps,
        3real * eps <= 1real,
        34real * (size * eps) <= by,
        3100real * (size * (size * (size * (size * by)))) <= 1real,
        p.dot(p) == 1real,
        q.dot(q) == 1real,
        p.dot(q) == 0real,
        conics::cross(p, q).dot(conics::cross(p, q)) == 1real,
        p.bounded(1real),
        q.bounded(1real),
        conics::on_conic(o.x, o.y, o.xd, o.yd, o.e, o.h, o.r),
        bounded(o.x, size) && bounded(o.y, size),
        bounded(o.xd, size) && bounded(o.yd, size),
        1real <= size * o.r,
        o.e <= size,
        0real <= peri <= size,
        o.h * o.h == peri * (1real + o.e),
        read(v, pos).near(conics::mix(o.x, p, o.y, q), by),
        read(v, vel.shrunk(ops, gm_sqrt)).near(conics::mix(o.xd, p, o.yd, q), by),
        rounded_conic(ops, v, eps, pos, vel, gm_sqrt),
    ensures
        ({
            let k = elements::conic(ops, pos, vel, gm_sqrt);
            &&& near(v(k.p_mag), o.r, 8real * by)
            &&& read(v, k.ecc_vec).near(
                conics::times(o.e, p),
                128real * (size * (size * (size * by))),
            )
            &&& near(v(k.ecc), o.e, 1024real * (size * (size * (size * by))))
            &&& read(v, k.ang_vec).near(
                conics::times(o.h, conics::cross(p, q)),
                13real * (size * by),
            )
            &&& near(v(k.ang_mag), o.h, 104real * (size * by))
            &&& o.h <= 2real * size
            &&& near(v(k.peri_dist), peri, 3100real * (size * (size * (size * (size * by)))))
        }),
{
    let w = vel.shrunk(ops, gm_sqrt);
    let k = elements::conic(ops, pos, vel, gm_sqrt);
    let one = F64 { bits: constants::ONE };
    let inverse = arithmetic::quotient(ops, one, k.p_mag);
    let factor = arithmetic::difference(ops, k.v_mag2, inverse);
    let (x, y) = (conics::mix(o.x, p, o.y, q), conics::mix(o.xd, p, o.yd, q));
    let s = size;
    let d1 = s * by;
    let d2 = s * d1;
    let d3 = s * d2;
    let d4 = s * d3;
    lemma_grow(s, eps);
    lemma_grow(s, by);
    lemma_grow(s, d1);
    lemma_grow(s, d2);
    lemma_grow(s, d3);
    lemma_sizes(o, s, p, q);
    // one over the distance
    let u = 1real / o.r;
    assert(u * o.r == 1real) by (nonlinear_arith)
        requires
            u == 1real / o.r,
            0real < o.r,
    ;
    conics::lemma_vectors(o.x, o.y, o.xd, o.yd, o.e, o.h, o.r, u, p, q);
    lemma_length(read(v, pos), x, o.r, by, v(k.p_mag), eps);
    lemma_scale(eps, o.r, 2real * s);
    conics::lemma_swap(eps, 2real, s);
    rounding::lemma_order(eps, s, 1real);
    assert(near(v(k.p_mag), o.r, 8real * by));
    lemma_inverse(v(inverse), v(k.p_mag), u, o.r, eps, s, by);
    // speed, product and factor
    lemma_dot(ops, v, eps, s, by, w, y, w, y);
    lemma_dot(ops, v, eps, s, by, pos, x, w, y);
    let kk = y.dot(y) - u;
    let g = x.dot(y);
    assert(near(v(factor), kk, 39real * d2));
    // the vector towards perihelion
    lemma_ecc_component(
        ops, v, eps, s, by, pos.x, x.x, w.x, y.x, factor, kk, k.vp_mag, g);
    lemma_ecc_component(
        ops, v, eps, s, by, pos.y, x.y, w.y, y.y, factor, kk, k.vp_mag, g);
    lemma_ecc_component(
        ops, v, eps, s, by, pos.z, x.z, w.z, y.z, factor, kk, k.vp_mag, g);
    let ecc = conics::times(o.e, p);
    assert(read(v, k.ecc_vec).near(ecc, 128real * d3));
    lemma_length(read(v, k.ecc_vec), ecc, o.e, 128real * d3, v(k.ecc), eps);
    lemma_scale(eps, o.e, s);
    assert(near(v(k.ecc), o.e, 1024real * d3));
    // the angular momentum
    lemma_cross(
        ops, v, eps, s, by, pos.y, x.y, w.z, y.z, pos.z, x.z, w.y, y.y);
    lemma_cross(
        ops, v, eps, s, by, pos.z, x.z, w.x, y.x, pos.x, x.x, w.z, y.z);
    lemma_cross(
        ops, v, eps, s, by, pos.x, x.x, w.y, y.y, pos.y, x.y, w.x, y.x);
    let ang = conics::cross(x, y);
    assert(read(v, k.ang_vec).near(ang, 13real * d1));
    lemma_length(read(v, k.ang_vec), ang, o.h, 13real * d1, v(k.ang_mag), eps);
    lemma_scale(eps, o.h, 2real * s);
    assert(near(v(k.ang_mag), o.h, 104real * d1));
    lemma_perihelion(
        v(k.ecc),
        o.e,
        v(k.ang_mag),
        o.h,
        v(ops.one(Unary::Squared, k.ang_mag)),
        v(arithmetic::sum(ops, one, k.ecc)),
        v(k.peri_dist),
        peri,
        eps,
        s,
        by,
    );
}

/// How far rounding takes the distance, where position and velocity are off by at most `by`.
pub open spec fn distance_error(by: real) -> real {
    8real * by
}

/// How far rounding takes the eccentricity, where position and velocity are off by at most `by`.
pub open spec fn eccentricity_error(size: real, by: real) -> real {
    1024real * (size * (size * (size * by)))
}

/// How far rounding takes the perihelion distance, where position and velocity are off by at most
/// `by`.
pub open spec fn perihelion_error(size: real, by: real) -> real {
    3100real * (size * (size * (size * (size * by))))
}

/// Distance, eccentricity and perihelion distance are found nearly, wherever an object is on its
/// orbit: on an ellipse, a parabola or a hyperbola, with any angles, and with rounding.
///
/// The place in the plane of the orbit is known up to `by`, sines and cosines up to `eps`, and
/// each operation is off by at most `eps`. Coordinates, speeds in units of the center,
/// eccentricity, perihelion distance and one over the distance are at most `size`.
pub proof fn law_conic_nearly_comes_back<A: Arithmetic>(
    ops: &A,
    v: Reading,
    e: CometElements,
    at: InPlane,
    o: Orbit,
    turned: (Turn, Turn, Turn),
    size: real,
    eps: real,
    by: real,
)
    requires
        orbits::plain(v),
        1real <= size,
        0real <= eps,
        0real <= by,
        perihelion_error(size, drift(size, eps, by)) <= 1real,
        0real < v(e.gm_sqrt),
        v(e.eccentricity) <= size,
        0real <= v(e.peri_dist) <= size,
        o.e == v(e.eccentricity),
        o.h * o.h == v(e.peri_dist) * (1real + v(e.eccentricity)),
        conics::on_conic(o.x, o.y, o.xd, o.yd, o.e, o.h, o.r),
        1real <= size * o.r,
        placed(v, by, size, e, at, o),
        turns(ops, v, eps, e.peri_arg, turned.0),
        turns(ops, v, eps, e.lon_of_ascending, turned.1),
        turns(ops, v, eps, e.inclination, turned.2),
        rounded_turn(ops, v, eps, e, at),
        rounded_conic(
            ops,
            v,
            eps,
            e.turned_out(ops, at).pos,
            e.turned_out(ops, at).vel,
            e.gm_sqrt,
        ),
    ensures
        ({
            let m = e.turned_out(ops, at);
            let k = elements::conic(ops, m.pos, m.vel, e.gm_sqrt);
            let off = drift(size, eps, by);
            &&& near(v(m.pos.length(ops)), o.r, distance_error(off))
            &&& near(v(k.ecc), v(e.eccentricity), eccentricity_error(size, off))
            &&& near(v(k.peri_dist), v(e.peri_dist), perihelion_error(size, off))
        }),
{
    let m = e.turned_out(ops, at);
    let off = drift(size, eps, by);
    let (w, n, i) = turned;
    // the errors are small
    lemma_grow(size, eps);
    lemma_grow(size, off);
    lemma_grow(size, size * off);
    lemma_grow(size, size * (size * off));
    lemma_grow(size, size * (size * (size * off)));
    lemma_turned_out(ops, v, eps, by, size, e, at, o, w, n, i);
    let (p, q) = (conics::toward(w, n, i), conics::across(w, n, i));
    conics::lemma_axes(w, n, i);
    lemma_unit(p.x, p.y, p.z);
    lemma_unit(q.x, q.y, q.z);
    lemma_conic(
        ops,
        v,
        eps,
        size,
        off,
        m.pos,
        m.vel,
        e.gm_sqrt,
        o,
        v(e.peri_dist),
        p,
        q,
    );
}

} // verus!
