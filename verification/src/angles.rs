//! How exactly the angles of an orbit are found from a motion, and that the motion comes back up to
//! rounding where the eccentric anomaly does.
use crate::accuracy;
use crate::arithmetic;
use crate::arithmetic::{Arithmetic, Binary, Unary};
use crate::conics;
use crate::conics::Turn;
use crate::constants;
use crate::desig::Desig;
use crate::elements;
use crate::elements::{CometElements, Conic};
use crate::errors::Error;
use crate::float::F64;
use crate::frames;
use crate::frames::Ecliptic;
use crate::numbers;
use crate::orbits;
use crate::orbits::Orbit;
use crate::physics::{Motion, Physics};
use crate::places;
use crate::places::Curve;
use crate::rounding;
use crate::rounding::{bounded, near, read, Reading, Triple};
use vstd::prelude::*;

verus! {

/// A quotient of numbers which are nearly known, with a divisor which is not small.
proof fn lemma_quotient(
    q1: real,
    q: real,
    b1: real,
    b: real,
    a1: real,
    ea: real,
    eb: real,
    eps: real,
    size: real,
)
    requires
        0real <= size,
        0real <= ea,
        0real <= eb,
        0real <= eps,
        bounded(q, 1real),
        1real <= size * b,
        2real * (size * eb) <= 1real,
        near(b1, b, eb),
        near(a1, q * b, ea),
        near(q1 * b1, a1, eps),
    ensures
        near(q1, q, 2real * (size * (ea + eb + eps))),
{
    let t = ea + eb + eps;
    rounding::lemma_product(q, b - b1, 1real, eb);
    rounding::lemma_order(1real, eb, 1real);
    rounding::lemma_minus(eb, 1real);
    rounding::lemma_spread(q, b, -b1, 0real);
    rounding::lemma_minus(q, b1);
    rounding::lemma_minus(q, 1real);
    rounding::lemma_spread(b1, q1, -q, 0real);
    rounding::lemma_minus(b1, q);
    rounding::lemma_minus(b1, 1real);
    rounding::lemma_order(b1, q1, 1real);
    rounding::lemma_order(b1, q, 1real);
    assert(bounded(b1 * (q1 - q), t));
    // the divisor is not small
    rounding::lemma_product(size, b1 - b, size, eb);
    rounding::lemma_spread(size, b1, -b, 0real);
    rounding::lemma_minus(size, b);
    rounding::lemma_minus(size, 1real);
    let k = 2real * (size * b1);
    rounding::lemma_product(2real * size, b1 * (q1 - q), 2real * size, t);
    rounding::lemma_order(2real * size, b1, q1 - q);
    rounding::lemma_order(2real, size, b1);
    rounding::lemma_order(2real, size, t);
    accuracy::lemma_shrink(k, q1 - q, 2real * (size * t));
}

/// The sine of an angle of at most half a turn whose cosine is nearly known.
proof fn lemma_sine(t: Turn, c: Turn, err: real, root: real)
    requires
        t.exact(),
        c.exact(),
        0real <= t.sin,
        0real <= c.sin,
        near(t.cos, c.cos, err),
        0real <= root,
        2real * err <= root * root,
    ensures
        near(t.sin, c.sin, root),
{
    accuracy::lemma_circle(t);
    accuracy::lemma_circle(c);
    conics::lemma_foil(c.cos, -t.cos, c.cos, t.cos);
    rounding::lemma_minus(c.cos, t.cos);
    rounding::lemma_minus(t.cos, t.cos);
    rounding::lemma_order(-t.cos, c.cos, 1real);
    rounding::lemma_order(-t.cos, t.cos, 1real);
    rounding::lemma_order(c.cos, t.cos, 1real);
    rounding::lemma_product(c.cos - t.cos, c.cos + t.cos, err, 2real);
    rounding::lemma_order(err, 2real, 1real);
    assert(bounded(t.sin * t.sin - c.sin * c.sin, 2real * err));
    if c.sin <= t.sin {
        lemma_smaller_root(t.sin, c.sin, root);
    } else {
        lemma_smaller_root(c.sin, t.sin, root);
    }
}

/// A difference is at most the root of the difference of the squares.
proof fn lemma_smaller_root(a: real, b: real, root: real)
    requires
        0real <= b <= a,
        0real <= root,
        a * a - b * b <= root * root,
    ensures
        a - b <= root,
{
    let d = a - b;
    accuracy::lemma_scale(d, d, a + b);
    conics::lemma_foil(a, -b, a, b);
    rounding::lemma_minus(b, b);
    rounding::lemma_order(-b, a, 1real);
    rounding::lemma_order(-b, b, 1real);
    rounding::lemma_minus(a, b);
    rounding::lemma_order(a, b, 1real);
    accuracy::lemma_smaller_square(d, root);
}

/// A direction is that of a point which is nearly known.
proof fn lemma_direction(t: Turn, c: Turn, x: real, y: real, len: real, err: real)
    requires
        t.exact(),
        c.exact(),
        0real <= len,
        0real <= err,
        near(x, len * c.cos, err),
        near(y, len * c.sin, err),
        t.cos * y == t.sin * x,
        0real <= t.cos * x + t.sin * y,
    ensures
        near(len * t.cos, len * c.cos, 8real * err),
        near(len * t.sin, len * c.sin, 8real * err),
{
    let r = t.cos * x + t.sin * y;
    accuracy::lemma_circle(t);
    // x is r times the cosine, y is r times the sine
    rounding::lemma_spread(t.cos, t.cos * x, t.sin * y, 0real);
    rounding::lemma_minus(t.cos, 1real);
    rounding::lemma_order(t.cos, t.cos, x);
    conics::lemma_swap(t.cos, t.sin, y);
    rounding::lemma_order(t.sin, t.sin, x);
    conics::lemma_foil(t.cos * t.cos, t.sin * t.sin, x, 0real);
    rounding::lemma_minus(t.cos * t.cos, 1real);
    rounding::lemma_minus(t.sin * t.sin, 1real);
    rounding::lemma_order(1real, x, 1real);
    rounding::lemma_minus(x, 1real);
    assert(t.cos * r == x);
    rounding::lemma_spread(t.sin, t.cos * x, t.sin * y, 0real);
    rounding::lemma_minus(t.sin, 1real);
    rounding::lemma_order(t.sin, t.sin, y);
    conics::lemma_swap(t.sin, t.cos, x);
    rounding::lemma_order(t.cos, t.cos, y);
    conics::lemma_foil(t.cos * t.cos, t.sin * t.sin, y, 0real);
    rounding::lemma_order(1real, y, 1real);
    rounding::lemma_minus(y, 1real);
    assert(t.sin * r == y);
    // the distance of the point
    rounding::lemma_factors(t.cos, r, t.cos, r);
    rounding::lemma_factors(t.sin, r, t.sin, r);
    conics::lemma_foil(t.cos * t.cos, t.sin * t.sin, r * r, 0real);
    rounding::lemma_order(1real, r * r, 1real);
    rounding::lemma_minus(r * r, 1real);
    rounding::lemma_minus(0real, 1real);
    rounding::lemma_factors(len, c.cos, len, c.cos);
    rounding::lemma_factors(len, c.sin, len, c.sin);
    rounding::lemma_spread(len * len, c.cos * c.cos, c.sin * c.sin, 0real);
    rounding::lemma_minus(len * len, 1real);
    let found = Triple { x, y, z: 0real };
    let want = Triple { x: len * c.cos, y: len * c.sin, z: 0real };
    rounding::lemma_order(0real, found.dot(found), 1real);
    rounding::lemma_minus(found.dot(found), 1real);
    rounding::lemma_order(0real, len, 1real);
    rounding::lemma_minus(len, 1real);
    accuracy::lemma_length(found, want, len, err, r, 0real);
    // the direction
    rounding::lemma_product(t.cos, r - len, 1real, 7real * err);
    rounding::lemma_product(t.sin, r - len, 1real, 7real * err);
    rounding::lemma_order(1real, 7real * err, 1real);
    rounding::lemma_minus(7real * err, 1real);
    rounding::lemma_spread(t.cos, r, -len, 0real);
    rounding::lemma_spread(t.sin, r, -len, 0real);
    rounding::lemma_minus(t.cos, len);
    rounding::lemma_minus(t.sin, len);
    rounding::lemma_order(t.cos, len, 1real);
    rounding::lemma_order(t.sin, len, 1real);
}

/// Is an angle found from its cosine up to `eps`: `t` is the angle between zero and half a turn
/// which has that cosine.
pub open spec fn opens<A: Arithmetic>(ops: &A, v: Reading, eps: real, cosine: F64, t: Turn) -> bool {
    &&& accuracy::turns(ops, v, eps, ops.one(Unary::Acos, cosine), t)
    &&& t.cos == v(cosine)
    &&& 0real <= t.sin
}

/// Is the angle of a point found up to `eps`: `t` is the angle itself.
pub open spec fn aims<A: Arithmetic>(
    ops: &A,
    v: Reading,
    eps: real,
    y: F64,
    x: F64,
    t: Turn,
) -> bool {
    &&& accuracy::turns(ops, v, eps, ops.two(Binary::Atan2, y, x), t)
    &&& t.cos * v(y) == t.sin * v(x)
    &&& 0real <= t.cos * v(x) + t.sin * v(y)
}

/// Is an angle turned back up to `eps`.
pub open spec fn mirrors<A: Arithmetic>(ops: &A, v: Reading, eps: real, angle: F64) -> bool {
    let back = arithmetic::difference(ops, F64 { bits: elements::TAU }, angle);
    let (t, b) = (orbits::turn(ops, v, angle), orbits::turn(ops, v, back));
    near(b.sin, -t.sin, eps) && near(b.cos, t.cos, eps)
}

/// Is a number brought between minus one and one.
pub open spec fn clamps(v: Reading, x: F64) -> bool {
    let one = F64 { bits: constants::ONE };
    v(numbers::within(x, one.negated(), one)) == (if v(x) < -1real {
        -1real
    } else if 1real < v(x) {
        1real
    } else {
        v(x)
    })
}

/// Are the operations off by at most `eps` by which the angles of an orbit are found. The angles
/// themselves are `t`. The orbit is no circle, and it is taken to be in the ecliptic if `flat`
/// says so.
pub open spec fn rounded_angles<A: Arithmetic>(
    ops: &A,
    v: Reading,
    eps: real,
    k: Conic,
    t: (Turn, Turn, Turn),
    flat: bool,
) -> bool {
    let zero = F64 { bits: constants::ZERO };
    let nearly = F64 { bits: elements::NEARLY_ZERO };
    let one = F64 { bits: constants::ONE };
    let across = frames::vector::<Ecliptic>(k.ang_vec.y.negated(), k.ang_vec.x, zero);
    let slope = arithmetic::quotient(ops, k.ang_vec.z, k.ang_mag);
    let nx = arithmetic::quotient(ops, k.node_vec.x, k.node_mag);
    let ny = arithmetic::quotient(ops, k.node_vec.y, k.node_mag);
    let along = k.node_vec.dotted(ops, k.ecc_vec);
    let sizes = arithmetic::product(ops, k.ecc, k.node_mag);
    let ratio = arithmetic::quotient(ops, along, sizes);
    let cosine = numbers::within(ratio, one.negated(), one);
    &&& !k.ecc.spec_lt(nearly)
    &&& k.node_mag.spec_lt(nearly) == flat
    &&& accuracy::divides(ops, v, eps, k.ang_vec.z, k.ang_mag)
    &&& opens(ops, v, eps, slope, t.2)
    &&& accuracy::measures(ops, v, eps, across)
    &&& if flat {
        &&& orbits::turn(ops, v, zero) == (Turn { sin: 0real, cos: 1real })
        &&& aims(ops, v, eps, k.ecc_vec.y, k.ecc_vec.x, t.0)
        &&& mirrors(ops, v, eps, ops.two(Binary::Atan2, k.ecc_vec.y, k.ecc_vec.x))
        &&& orbits::signed(v, k.ang_vec.z)
    } else {
        &&& accuracy::divides(ops, v, eps, k.node_vec.x, k.node_mag)
        &&& accuracy::divides(ops, v, eps, k.node_vec.y, k.node_mag)
        &&& aims(ops, v, eps, ny, nx, t.1)
        &&& accuracy::dots(ops, v, eps, k.node_vec, k.ecc_vec)
        &&& accuracy::multiplies(ops, v, eps, k.ecc, k.node_mag)
        &&& accuracy::divides(ops, v, eps, along, sizes)
        &&& clamps(v, ratio)
        &&& opens(ops, v, eps, cosine, t.0)
        &&& mirrors(ops, v, eps, ops.one(Unary::Acos, cosine))
        &&& orbits::signed(v, k.ecc_vec.z)
    }
}

/// Is the conic of an object found nearly: the vector towards perihelion, the eccentricity, and
/// the angular momentum.
pub open spec fn seen(
    v: Reading,
    k: Conic,
    e: real,
    h: real,
    p: Triple,
    n: Triple,
    size: real,
    by: real,
) -> bool {
    &&& read(v, k.ecc_vec).near(conics::times(e, p), 128real * (size * (size * (size * by))))
    &&& near(v(k.ecc), e, 1024real * (size * (size * (size * by))))
    &&& read(v, k.ang_vec).near(conics::times(h, n), 13real * (size * by))
    &&& near(v(k.ang_mag), h, 104real * (size * by))
}

/// How far rounding takes the cosine of the argument of perihelion, where position and velocity are
/// off by at most `by`.
pub open spec fn cosine_error(size: real, by: real) -> real {
    8100real * (size * (size * (size * (size * (size * (size * (size * by)))))))
}

/// What is common to the angles of all orbits: sizes which are known, and errors which are small.
pub open spec fn moderate(e: real, h: real, size: real, eps: real, by: real, root: real) -> bool {
    &&& 1real <= size
    &&& 0real <= eps
    &&& 34real * (size * eps) <= by
    &&& 0real < e <= size
    &&& 1real <= size * e
    &&& 0real < h <= 2real * size
    &&& 1real <= size * h
    &&& 0real <= root <= 1real
    &&& 2real * cosine_error(size, by) <= root * root
}

/// The inclination.
proof fn lemma_inclination<A: Arithmetic>(
    ops: &A,
    v: Reading,
    eps: real,
    k: Conic,
    t: (Turn, Turn, Turn),
    flat: bool,
    e: real,
    h: real,
    p: Triple,
    n: Triple,
    i: Turn,
    size: real,
    by: real,
    root: real,
)
    requires
        moderate(e, h, size, eps, by, root),
        seen(v, k, e, h, p, n, size, by),
        rounded_angles(ops, v, eps, k, t, flat),
        i.exact(),
        0real <= i.sin,
        n.z == i.cos,
    ensures
        accuracy::turns(
            ops,
            v,
            3real * root + 2real * eps,
            ops.one(Unary::Acos, arithmetic::quotient(ops, k.ang_vec.z, k.ang_mag)),
            i,
        ),
{
    let d1 = size * by;
    let slope = arithmetic::quotient(ops, k.ang_vec.z, k.ang_mag);
    lemma_steps(size, eps, by, root);
    accuracy::lemma_circle(i);
    rounding::lemma_order(h, i.cos, 1real);
    conics::lemma_swap(size, 104real, d1);
    lemma_quotient(
        v(slope),
        i.cos,
        v(k.ang_mag),
        h,
        v(k.ang_vec.z),
        13real * d1,
        104real * d1,
        eps,
        size,
    );
    accuracy::lemma_scale(size, 13real * d1 + 104real * d1 + eps, 118real * d1);
    conics::lemma_swap(size, 118real, d1);
    assert(near(v(slope), i.cos, 236real * (size * d1)));
    lemma_sine(t.2, i, 236real * (size * d1), root);
}

/// The errors are small, one after the other.
proof fn lemma_steps(size: real, eps: real, by: real, root: real)
    requires
        1real <= size,
        0real <= eps,
        34real * (size * eps) <= by,
        0real <= root <= 1real,
        2real * cosine_error(size, by) <= root * root,
    ensures
        ({
            let d1 = size * by;
            let d2 = size * d1;
            let d3 = size * d2;
            let d4 = size * d3;
            let d5 = size * d4;
            let d6 = size * d5;
            let d7 = size * d6;
            &&& 34real * eps <= by
            &&& 0real <= by <= d1 <= d2 <= d3
            &&& d3 <= d4 <= d5 <= d6 <= d7
            &&& 16200real * d7 <= root * root
            &&& root * root <= root
        }),
{
    let d1 = size * by;
    let d2 = size * d1;
    let d3 = size * d2;
    let d4 = size * d3;
    let d5 = size * d4;
    let d6 = size * d5;
    accuracy::lemma_grow(size, eps);
    accuracy::lemma_grow(size, by);
    accuracy::lemma_grow(size, d1);
    accuracy::lemma_grow(size, d2);
    accuracy::lemma_grow(size, d3);
    accuracy::lemma_grow(size, d4);
    accuracy::lemma_grow(size, d5);
    accuracy::lemma_grow(size, d6);
    accuracy::lemma_scale(root, root, 1real);
    rounding::lemma_minus(root, 1real);
}

/// The vector towards the node and its length.
proof fn lemma_node<A: Arithmetic>(
    ops: &A,
    v: Reading,
    eps: real,
    k: Conic,
    t: (Turn, Turn, Turn),
    e: real,
    h: real,
    p: Triple,
    n: Turn,
    i: Turn,
    size: real,
    by: real,
    root: real,
)
    requires
        orbits::plain(v),
        moderate(e, h, size, eps, by, root),
        seen(
            v,
            k,
            e,
            h,
            p,
            Triple { x: i.sin * n.sin, y: -(i.sin * n.cos), z: i.cos },
            size,
            by,
        ),
        rounded_angles(ops, v, eps, k, t, false),
        n.exact(),
        i.exact(),
        0real < i.sin,
        1real <= size * i.sin,
        k.node_vec == frames::vector::<Ecliptic>(
            k.ang_vec.y.negated(),
            k.ang_vec.x,
            F64 { bits: constants::ZERO },
        ),
        k.node_mag == k.node_vec.length(ops),
    ensures
        ({
            let big = h * i.sin;
            &&& near(v(k.node_vec.x), big * n.cos, 13real * (size * by))
            &&& near(v(k.node_vec.y), big * n.sin, 13real * (size * by))
            &&& v(k.node_vec.z) == 0real
            &&& near(v(k.node_mag), big, 92real * (size * by))
            &&& 0real < big <= 2real * size
            &&& 1real <= (size * size) * big
        }),
        accuracy::turns(
            ops,
            v,
            3real * root + 2real * eps,
            elements::node_longitude(ops, k),
            n,
        ),
{
    let d1 = size * by;
    let big = h * i.sin;
    lemma_steps(size, eps, by, root);
    accuracy::lemma_circle(i);
    accuracy::lemma_circle(n);
    conics::lemma_positive(h, i.sin);
    accuracy::lemma_scale(h, i.sin, 1real);
    rounding::lemma_minus(h, 1real);
    // it is not short
    rounding::lemma_factors(size, h, size, i.sin);
    accuracy::lemma_grow(size * h, size * i.sin);
    assert(1real <= (size * size) * big);
    // its components
    rounding::lemma_minus(h, i.sin * n.cos);
    rounding::lemma_order(h, i.sin, n.cos);
    rounding::lemma_order(h, i.sin, n.sin);
    assert(near(v(k.node_vec.x), big * n.cos, 13real * d1));
    assert(near(v(k.node_vec.y), big * n.sin, 13real * d1));
    let want = Triple { x: big * n.cos, y: big * n.sin, z: 0real };
    rounding::lemma_factors(big, n.cos, big, n.cos);
    rounding::lemma_factors(big, n.sin, big, n.sin);
    rounding::lemma_spread(big * big, n.cos * n.cos, n.sin * n.sin, 0real);
    rounding::lemma_minus(big * big, 1real);
    rounding::lemma_minus(0real, 1real);
    accuracy::lemma_length(read(v, k.node_vec), want, big, 13real * d1, v(k.node_mag), eps);
    accuracy::lemma_scale(eps, big, 2real * size);
    conics::lemma_swap(eps, 2real, size);
    rounding::lemma_order(eps, size, 1real);
    assert(near(v(k.node_mag), big, 92real * d1));
    // its direction
    let nx = arithmetic::quotient(ops, k.node_vec.x, k.node_mag);
    let ny = arithmetic::quotient(ops, k.node_vec.y, k.node_mag);
    let s2 = size * size;
    let d3 = size * (size * d1);
    rounding::lemma_order(size, size, d1);
    conics::lemma_swap(s2, 92real, d1);
    conics::lemma_swap(s2, 106real, d1);
    rounding::lemma_order(n.cos, big, 1real);
    rounding::lemma_order(n.sin, big, 1real);
    accuracy::lemma_grow(size, size);
    lemma_quotient(
        v(nx),
        n.cos,
        v(k.node_mag),
        big,
        v(k.node_vec.x),
        13real * d1,
        92real * d1,
        eps,
        s2,
    );
    lemma_quotient(
        v(ny),
        n.sin,
        v(k.node_mag),
        big,
        v(k.node_vec.y),
        13real * d1,
        92real * d1,
        eps,
        s2,
    );
    accuracy::lemma_scale(s2, 13real * d1 + 92real * d1 + eps, 106real * d1);
    rounding::lemma_order(1real, n.cos, 1real);
    rounding::lemma_order(1real, n.sin, 1real);
    rounding::lemma_minus(n.cos, 1real);
    rounding::lemma_minus(n.sin, 1real);
    lemma_direction(t.1, n, v(nx), v(ny), 1real, 212real * d3);
    rounding::lemma_order(1real, t.1.cos, 1real);
    rounding::lemma_order(1real, t.1.sin, 1real);
    rounding::lemma_minus(t.1.cos, 1real);
    rounding::lemma_minus(t.1.sin, 1real);
}

/// The cosine of the argument of perihelion.
#[verifier::spinoff_prover]
proof fn lemma_cosine<A: Arithmetic>(
    ops: &A,
    v: Reading,
    eps: real,
    k: Conic,
    t: (Turn, Turn, Turn),
    e: real,
    h: real,
    w: Turn,
    n: Turn,
    i: Turn,
    size: real,
    by: real,
    root: real,
)
    requires
        orbits::plain(v),
        moderate(e, h, size, eps, by, root),
        seen(
            v,
            k,
            e,
            h,
            conics::toward(w, n, i),
            Triple { x: i.sin * n.sin, y: -(i.sin * n.cos), z: i.cos },
            size,
            by,
        ),
        rounded_angles(ops, v, eps, k, t, false),
        w.exact(),
        n.exact(),
        i.exact(),
        0real < i.sin,
        1real <= size * i.sin,
        k.node_vec == frames::vector::<Ecliptic>(
            k.ang_vec.y.negated(),
            k.ang_vec.x,
            F64 { bits: constants::ZERO },
        ),
        k.node_mag == k.node_vec.length(ops),
    ensures
        near(t.0.cos, w.cos, cosine_error(size, by)),
{
    let p = conics::toward(w, n, i);
    let s = size;
    let d1 = s * by;
    let d2 = s * d1;
    let d3 = s * d2;
    let d4 = s * d3;
    let d7 = s * (s * (s * d4));
    let big = h * i.sin;
    let node = Triple { x: big * n.cos, y: big * n.sin, z: 0real };
    let ecc = conics::times(e, p);
    lemma_steps(size, eps, by, root);
    lemma_node(ops, v, eps, k, t, e, h, p, n, i, size, by, root);
    accuracy::lemma_circle(n);
    accuracy::lemma_circle(w);
    conics::lemma_axes(w, n, i);
    accuracy::lemma_unit(p.x, p.y, p.z);
    rounding::lemma_minus(2real * s, 1real);
    rounding::lemma_product(big, n.cos, 2real * s, 1real);
    rounding::lemma_product(big, n.sin, 2real * s, 1real);
    rounding::lemma_minus(s, 1real);
    rounding::lemma_product(e, p.x, s, 1real);
    rounding::lemma_product(e, p.y, s, 1real);
    rounding::lemma_product(e, p.z, s, 1real);
    // the product of the vectors towards node and perihelion
    let (a1, b1) = (k.node_vec, k.ecc_vec);
    accuracy::lemma_product_error(
        v(a1.x), node.x, v(b1.x), ecc.x, 2real, s, 2real, s, 13real, d1, 128real, d3);
    accuracy::lemma_product_error(
        v(a1.y), node.y, v(b1.y), ecc.y, 2real, s, 2real, s, 13real, d1, 128real, d3);
    accuracy::lemma_product_error(
        v(a1.z), node.z, v(b1.z), ecc.z, 2real, s, 2real, s, 13real, d1, 128real, d3);
    let along = a1.dotted(ops, b1);
    assert(near(v(along), node.dot(ecc), 851real * d4));
    // it is the cosine times the lengths
    let f = e * big;
    conics::lemma_from_node(w, n, i);
    rounding::lemma_factors(big, n.cos, e, p.x);
    rounding::lemma_factors(big, n.sin, e, p.y);
    rounding::lemma_order(0real, e * p.z, 1real);
    rounding::lemma_minus(e * p.z, 1real);
    rounding::lemma_spread(big * e, n.cos * p.x, n.sin * p.y, 0real);
    rounding::lemma_minus(big * e, 1real);
    rounding::lemma_order(big, e, 1real);
    rounding::lemma_order(f, w.cos, 1real);
    assert(node.dot(ecc) == w.cos * f);
    // the lengths
    let sizes = arithmetic::product(ops, k.ecc, k.node_mag);
    accuracy::lemma_product_error(
        v(k.ecc), e, v(k.node_mag), big, 1real, s, 3real, s, 1024real, d3, 92real, d1);
    assert(near(v(sizes), f, 3165real * d4));
    // the quotient
    let s2 = s * s;
    let s3 = s * s2;
    accuracy::lemma_grow(s, s);
    accuracy::lemma_grow(s, s2);
    rounding::lemma_factors(s, e, s2, big);
    accuracy::lemma_grow(s * e, s2 * big);
    assert(1real <= s3 * f);
    rounding::lemma_order(s, s2, d4);
    rounding::lemma_order(s, s, d4);
    assert(s3 * d4 == d7);
    conics::lemma_swap(s3, 3165real, d4);
    conics::lemma_swap(s3, 4017real, d4);
    let ratio = arithmetic::quotient(ops, along, sizes);
    lemma_quotient(
        v(ratio),
        w.cos,
        v(sizes),
        f,
        v(along),
        851real * d4,
        3165real * d4,
        eps,
        s3,
    );
    accuracy::lemma_scale(s3, 851real * d4 + 3165real * d4 + eps, 4017real * d4);
    assert(near(v(ratio), w.cos, 8034real * d7));
}

/// A sine is small where the coordinate which tells its sign has the wrong sign.
proof fn lemma_wrong_side(z: real, e: real, w: real, i: real, size: real, err: real)
    requires
        0real <= w,
        z <= 0real,
        near(z, e * (w * i), err),
        0real < e,
        0real < i,
        1real <= size * e,
        1real <= size * i,
        0real <= size,
    ensures
        w <= (size * size) * err,
{
    let f = e * i;
    rounding::lemma_order(e, w, i);
    rounding::lemma_order(w, i, 1real);
    conics::lemma_swap(e, w, i);
    assert(w * f <= err);
    rounding::lemma_factors(size, e, size, i);
    accuracy::lemma_grow(size * e, size * i);
    let k = (size * size) * f;
    accuracy::lemma_grow(k, w);
    rounding::lemma_order(size * size, f, w);
    rounding::lemma_order(w, f, 1real);
    accuracy::lemma_scale(size, 0real, size);
    rounding::lemma_minus(size, 1real);
    accuracy::lemma_scale(size * size, w * f, err);
}

/// The argument of perihelion of an orbit which is not in the ecliptic.
proof fn lemma_argument<A: Arithmetic>(
    ops: &A,
    v: Reading,
    eps: real,
    k: Conic,
    t: (Turn, Turn, Turn),
    e: real,
    h: real,
    w: Turn,
    n: Turn,
    i: Turn,
    size: real,
    by: real,
    root: real,
)
    requires
        orbits::plain(v),
        moderate(e, h, size, eps, by, root),
        seen(
            v,
            k,
            e,
            h,
            conics::toward(w, n, i),
            Triple { x: i.sin * n.sin, y: -(i.sin * n.cos), z: i.cos },
            size,
            by,
        ),
        rounded_angles(ops, v, eps, k, t, false),
        w.exact(),
        n.exact(),
        i.exact(),
        0real < i.sin,
        1real <= size * i.sin,
        k.node_vec == frames::vector::<Ecliptic>(
            k.ang_vec.y.negated(),
            k.ang_vec.x,
            F64 { bits: constants::ZERO },
        ),
        k.node_mag == k.node_vec.length(ops),
    ensures
        accuracy::turns(
            ops,
            v,
            3real * root + 2real * eps,
            elements::perihelion_argument(ops, k),
            w,
        ),
{
    let d1 = size * by;
    let d3 = size * (size * d1);
    let z = v(k.ecc_vec.z);
    lemma_steps(size, eps, by, root);
    lemma_cosine(ops, v, eps, k, t, e, h, w, n, i, size, by, root);
    conics::lemma_square(w.sin);
    let up = w.sin;
    let err = 128real * d3;
    conics::lemma_swap(size * size, 128real, d3);
    rounding::lemma_order(size, size, d3);
    if 0real <= up {
        lemma_sine(t.0, w, cosine_error(size, by), root);
        if z < 0real {
            lemma_wrong_side(z, e, up, i.sin, size, err);
        }
    } else {
        let c = conics::mirrored(w);
        lemma_sine(t.0, c, cosine_error(size, by), root);
        if 0real <= z {
            rounding::lemma_minus(i.sin, up);
            rounding::lemma_order(i.sin, up, 1real);
            rounding::lemma_order(i.sin, -up, 1real);
            rounding::lemma_minus(e, up * i.sin);
            lemma_wrong_side(-z, e, -up, i.sin, size, err);
        }
    }
}

/// The angles of an orbit in the ecliptic: they tell the same axes.
proof fn lemma_flat<A: Arithmetic>(
    ops: &A,
    v: Reading,
    eps: real,
    k: Conic,
    t: (Turn, Turn, Turn),
    e: real,
    h: real,
    w: Turn,
    n: Turn,
    i: Turn,
    size: real,
    by: real,
    root: real,
) -> (same: (Turn, Turn))
    requires
        orbits::plain(v),
        moderate(e, h, size, eps, by, root),
        seen(
            v,
            k,
            e,
            h,
            conics::toward(w, n, i),
            Triple { x: i.sin * n.sin, y: -(i.sin * n.cos), z: i.cos },
            size,
            by,
        ),
        rounded_angles(ops, v, eps, k, t, true),
        w.exact(),
        n.exact(),
        i.exact(),
        i.sin == 0real,
    ensures
        conics::toward(same.0, same.1, i) == conics::toward(w, n, i),
        conics::across(same.0, same.1, i) == conics::across(w, n, i),
        accuracy::turns(
            ops,
            v,
            3real * root + 2real * eps,
            elements::perihelion_argument(ops, k),
            same.0,
        ),
        accuracy::turns(
            ops,
            v,
            3real * root + 2real * eps,
            elements::node_longitude(ops, k),
            same.1,
        ),
{
    let s = size;
    let d1 = s * by;
    let d2 = s * d1;
    let d3 = s * d2;
    let d4 = s * d3;
    let (p, q) = (conics::toward(w, n, i), conics::across(w, n, i));
    lemma_steps(size, eps, by, root);
    conics::lemma_axes(w, n, i);
    rounding::lemma_minus(0real, 1real);
    rounding::lemma_minus(w.sin, 1real);
    rounding::lemma_minus(w.cos, 1real);
    rounding::lemma_minus(p.z, 1real);
    rounding::lemma_minus(1real, 1real);
    // up or down
    conics::lemma_square(i.cos);
    if 0real <= i.cos {
        conics::lemma_same_square(i.cos, 1real);
    } else {
        conics::lemma_same_square(-i.cos, 1real);
    }
    assert(i.cos == 1real || i.cos == -1real);
    rounding::lemma_order(h, i.cos, 1real);
    rounding::lemma_minus(h, 1real);
    rounding::lemma_minus(h, i.cos);
    accuracy::lemma_scale(h, -1real, i.cos);
    rounding::lemma_minus(i.cos, 1real);
    // the angular momentum is not small
    if h <= 13real * d1 {
        accuracy::lemma_scale(s, h, 13real * d1);
        conics::lemma_swap(s, 13real, d1);
    }
    assert(v(k.ang_vec.z) < 0real <==> i.cos == -1real);
    // the direction of perihelion
    let c = Turn { sin: p.y, cos: p.x };
    assert(c.exact());
    lemma_direction(t.0, c, v(k.ecc_vec.x), v(k.ecc_vec.y), e, 128real * d3);
    lemma_by_eccentricity(e, t.0.cos, p.x, s, d3);
    lemma_by_eccentricity(e, t.0.sin, p.y, s, d3);
    let none = Turn { sin: 0real, cos: 1real };
    let same = if i.cos == 1real {
        c
    } else {
        conics::mirrored(c)
    };
    conics::lemma_square(p.y);
    let zero = F64 { bits: constants::ZERO };
    assert(orbits::turn(ops, v, zero) == none);
    assert(none.exact());
    // the axes which these angles tell
    let up = same.sin;
    rounding::lemma_minus(same.cos, 1real);
    rounding::lemma_minus(up, 1real);
    rounding::lemma_minus(-up, 1real);
    rounding::lemma_order(0real, i.cos, 1real);
    rounding::lemma_order(up, i.cos, 1real);
    rounding::lemma_minus(i.cos, up);
    rounding::lemma_order(1real, up, 1real);
    rounding::lemma_minus(p.x, 1real);
    rounding::lemma_minus(p.y, 1real);
    rounding::lemma_order(same.cos, i.cos, 1real);
    rounding::lemma_minus(same.cos, i.cos);
    // and those of the orbit
    rounding::lemma_minus(w.sin * n.cos, 1real);
    rounding::lemma_minus(w.sin * n.sin, 1real);
    rounding::lemma_minus(w.cos * n.cos, 1real);
    rounding::lemma_minus(w.cos * n.sin, 1real);
    rounding::lemma_order(-w.sin, n.cos, 1real);
    rounding::lemma_minus(n.cos, w.sin);
    rounding::lemma_order(n.cos, w.sin, 1real);
    rounding::lemma_order(-w.sin, n.sin, 1real);
    rounding::lemma_minus(n.sin, w.sin);
    rounding::lemma_order(n.sin, w.sin, 1real);
    (same, none)
}

/// What is near after the factor of the eccentricity is near before.
proof fn lemma_by_eccentricity(e: real, a: real, b: real, size: real, d: real)
    requires
        1real <= size * e,
        0real <= size,
        near(e * a, e * b, 8real * (128real * d)),
    ensures
        near(a, b, 1024real * (size * d)),
{
    rounding::lemma_spread(e, a, -b, 0real);
    rounding::lemma_minus(e, b);
    rounding::lemma_minus(e, 1real);
    rounding::lemma_product(size, e * (a - b), size, 1024real * d);
    rounding::lemma_order(size, e, a - b);
    conics::lemma_swap(size, 1024real, d);
    accuracy::lemma_shrink(size * e, a - b, 1024real * (size * d));
}

/// How far sines and cosines of the angles which are found are off.
pub open spec fn angle_error(eps: real, root: real) -> real {
    3real * root + 2real * eps
}

/// Is an orbit in the ecliptic, or away from it by at least one over `size`.
pub open spec fn tilted(i: Turn, size: real) -> bool {
    i.sin == 0real || 1real <= size * i.sin || 1real <= size * (-i.sin)
}

/// The angles which are found are nearly some which tell the same axes.
proof fn lemma_angles<A: Arithmetic>(
    ops: &A,
    v: Reading,
    eps: real,
    k: Conic,
    t: (Turn, Turn, Turn),
    e: real,
    h: real,
    turned: (Turn, Turn, Turn),
    size: real,
    by: real,
    root: real,
) -> (same: (Turn, Turn, Turn))
    requires
        orbits::plain(v),
        moderate(e, h, size, eps, by, root),
        ({
            let (w, n, i) = turned;
            let p = conics::toward(w, n, i);
            &&& seen(v, k, e, h, p, conics::cross(p, conics::across(w, n, i)), size, by)
            &&& w.exact() && n.exact() && i.exact()
            &&& tilted(i, size)
            &&& rounded_angles(ops, v, eps, k, t, i.sin == 0real)
        }),
        ({
            let zero = F64 { bits: constants::ZERO };
            let across = frames::vector::<Ecliptic>(k.ang_vec.y.negated(), k.ang_vec.x, zero);
            &&& k.node_mag == across.length(ops)
            &&& !k.node_mag.spec_lt(F64 { bits: elements::NEARLY_ZERO }) ==> k.node_vec == across
        }),
    ensures
        ({
            let (w, n, i) = turned;
            let (a, b, c) = same;
            let slope = arithmetic::quotient(ops, k.ang_vec.z, k.ang_mag);
            let wide = angle_error(eps, root);
            &&& conics::toward(a, b, c) == conics::toward(w, n, i)
            &&& conics::across(a, b, c) == conics::across(w, n, i)
            &&& accuracy::turns(ops, v, wide, elements::perihelion_argument(ops, k), a)
            &&& accuracy::turns(ops, v, wide, elements::node_longitude(ops, k), b)
            &&& accuracy::turns(ops, v, wide, ops.one(Unary::Acos, slope), c)
        }),
{
    let (w, n, i) = turned;
    let p = conics::toward(w, n, i);
    conics::lemma_axes(w, n, i);
    rounding::lemma_minus(size, i.sin);
    rounding::lemma_minus(size, 1real);
    if i.sin == 0real {
        let up = conics::cross(p, conics::across(w, n, i));
        lemma_inclination(ops, v, eps, k, t, true, e, h, p, up, i, size, by, root);
        let (a, b) = lemma_flat(ops, v, eps, k, t, e, h, w, n, i, size, by, root);
        (a, b, i)
    } else if 0real < i.sin {
        if i.sin * size < 1real {
            accuracy::lemma_scale(size, -i.sin, 0real);
        }
        lemma_inclination(
            ops, v, eps, k, t, false, e, h, p,
            Triple { x: i.sin * n.sin, y: -(i.sin * n.cos), z: i.cos },
            i, size, by, root);
        lemma_node(ops, v, eps, k, t, e, h, p, n, i, size, by, root);
        lemma_argument(ops, v, eps, k, t, e, h, w, n, i, size, by, root);
        (w, n, i)
    } else {
        let (a, b, c) = (conics::opposite(w), conics::opposite(n), conics::mirrored(i));
        accuracy::lemma_scale(size, i.sin, 0real);
        conics::lemma_flip(w, n, i);
        conics::lemma_axes(a, b, c);
        lemma_inclination(
            ops, v, eps, k, t, false, e, h, p,
            Triple { x: c.sin * b.sin, y: -(c.sin * b.cos), z: c.cos },
            c, size, by, root);
        lemma_node(ops, v, eps, k, t, e, h, p, b, c, size, by, root);
        lemma_argument(ops, v, eps, k, t, e, h, a, b, c, size, by, root);
        (a, b, c)
    }
}

/// The motion of elements nearly comes back by way of the elements of that motion, where the place
/// in the plane of the orbit nearly does.
///
/// The place is known up to `by` the first time and up to `back` the second time. The angles
/// themselves are `turned`, and those which are found are `found`.
proof fn lemma_motion_back<A: Physics>(
    ops: &A,
    v: Reading,
    e: CometElements,
    first: F64,
    desig: Desig,
    second: F64,
    o: Orbit,
    turned: (Turn, Turn, Turn),
    found: (Turn, Turn, Turn),
    size: real,
    eps: real,
    by: real,
    back: real,
    root: real,
)
    requires
        orbits::plain(v),
        0real < v(e.gm_sqrt),
        0real <= by,
        0real <= back,
        15real * angle_error(eps, root) <= 1real,
        moderate(o.e, o.h, size, eps, accuracy::drift(size, eps, by), root),
        o.e == v(e.eccentricity),
        o.h * o.h == v(e.peri_dist) * (1real + v(e.eccentricity)),
        0real <= v(e.peri_dist) <= size,
        conics::on_conic(o.x, o.y, o.xd, o.yd, o.e, o.h, o.r),
        1real <= size * o.r,
        tilted(turned.2, size),
        ops.eccentric(
            e.eccentricity,
            e.working_anomaly(ops, ops.values()),
            e.peri_dist,
        ) == Ok::<F64, Error>(first),
        accuracy::placed(v, by, size, e, orbits::place(ops, e, first), o),
        accuracy::turns(ops, v, eps, e.peri_arg, turned.0),
        accuracy::turns(ops, v, eps, e.lon_of_ascending, turned.1),
        accuracy::turns(ops, v, eps, e.inclination, turned.2),
        accuracy::rounded_turn(ops, v, eps, e, orbits::place(ops, e, first)),
        ({
            let m = e.turned_out(ops, orbits::place(ops, e, first));
            let k = elements::conic(ops, m.pos, m.vel, e.gm_sqrt);
            let again = CometElements::of_motion(
                ops,
                ops.values(),
                desig,
                e.epoch,
                m,
                e.center_id,
                e.gm_sqrt,
            );
            let there = orbits::place(ops, again, second);
            let wide = angle_error(eps, root);
            &&& accuracy::rounded_conic(ops, v, eps, m.pos, m.vel, e.gm_sqrt)
            &&& rounded_angles(ops, v, eps, k, found, turned.2.sin == 0real)
            &&& ops.eccentric(
                again.eccentricity,
                again.working_anomaly(ops, ops.values()),
                again.peri_dist,
            ) == Ok::<F64, Error>(second)
            &&& accuracy::placed(v, back, size, again, there, o)
            &&& accuracy::rounded_turn(ops, v, wide, again, there)
            &&& accuracy::shrinks(ops, v, wide, again.turned_out(ops, there).vel, e.gm_sqrt)
        }),
    ensures
        ({
            let m = e.turned_out(ops, orbits::place(ops, e, first));
            let again = CometElements::of_motion(
                ops,
                ops.values(),
                desig,
                e.epoch,
                m,
                e.center_id,
                e.gm_sqrt,
            );
            let off = accuracy::drift(size, eps, by) + accuracy::drift(
                size,
                angle_error(eps, root),
                back,
            );
            &&& e.motion(ops) == Ok::<Motion<Ecliptic>, Error>(m)
            &&& again.motion(ops) is Ok
            &&& read(v, again.motion(ops)->Ok_0.pos).near(read(v, m.pos), off)
            &&& read(v, again.motion(ops)->Ok_0.vel.shrunk(ops, e.gm_sqrt)).near(
                read(v, m.vel.shrunk(ops, e.gm_sqrt)),
                off,
            )
        }),
{
    let c = ops.values();
    let at = orbits::place(ops, e, first);
    let m = e.turned_out(ops, at);
    let again = CometElements::of_motion(ops, c, desig, e.epoch, m, e.center_id, e.gm_sqrt);
    let there = orbits::place(ops, again, second);
    let k = elements::conic(ops, m.pos, m.vel, e.gm_sqrt);
    let (w, n, i) = turned;
    let (p, q) = (conics::toward(w, n, i), conics::across(w, n, i));
    let off = accuracy::drift(size, eps, by);
    let wide = angle_error(eps, root);
    lemma_steps(size, eps, off, root);
    accuracy::lemma_turned_out(ops, v, eps, by, size, e, at, o, w, n, i);
    conics::lemma_axes(w, n, i);
    accuracy::lemma_unit(p.x, p.y, p.z);
    accuracy::lemma_unit(q.x, q.y, q.z);
    accuracy::lemma_conic(
        ops,
        v,
        eps,
        size,
        off,
        m.pos,
        m.vel,
        e.gm_sqrt,
        o,
        v(e.peri_dist),
        p,
        q,
    );
    let (a, b, d) = lemma_angles(
        ops,
        v,
        eps,
        k,
        found,
        o.e,
        o.h,
        turned,
        size,
        off,
        root,
    );
    accuracy::lemma_turned_out(ops, v, wide, back, size, again, there, o, a, b, d);
}

/// The motion of elements nearly comes back by way of the elements of that motion, where the
/// eccentric anomaly nearly does: on an ellipse which is no circle, on a parabola or on a
/// hyperbola, with any angles, and with rounding. The velocity is in units of the center.
///
/// The object is at `o`, on `curve`. The functions of its anomaly are known up to `err` the first
/// time and up to `far` the second time, and the operations by which the place in the plane of the
/// orbit is found are off by as much at most; `far` is no less than what rounding makes of
/// eccentricity and perihelion distance. That the anomaly comes back is not said here: it rests on
/// how exactly Kepler's equation is solved, which is left to the caller.
///
/// All other sines and cosines are known up to `eps`, and all other operations are off by at most
/// `eps`. The angles themselves are `turned`, and those which are found are `found`. Nothing is
/// larger than `size`, and nothing which is divided by is smaller than one over it; so it is with
/// the eccentricity, and with the sine of the inclination unless the orbit is in the ecliptic. The
/// square of `root` is at least twice the error of the cosine of the argument of perihelion: a sine
/// which is found by way of its cosine is only known up to `root`.
pub proof fn law_motion_nearly_comes_back<A: Physics>(
    ops: &A,
    v: Reading,
    e: CometElements,
    first: F64,
    desig: Desig,
    second: F64,
    curve: Curve,
    o: Orbit,
    turned: (Turn, Turn, Turn),
    found: (Turn, Turn, Turn),
    size: real,
    eps: real,
    err: real,
    far: real,
    root: real,
)
    requires
        orbits::plain(v),
        0real < v(e.gm_sqrt),
        0real <= err <= far,
        places::place_error(size, far) <= 1real,
        15real * angle_error(eps, root) <= 1real,
        ({
            let by = accuracy::drift(size, eps, places::place_error(size, err));
            &&& moderate(o.e, o.h, size, eps, by, root)
            &&& accuracy::eccentricity_error(size, by) <= far
            &&& accuracy::perihelion_error(size, by) <= far
        }),
        o.e == v(e.eccentricity),
        curve.peri() == v(e.peri_dist),
        o.h * o.h == v(e.peri_dist) * (1real + v(e.eccentricity)),
        0real <= v(e.peri_dist) <= size,
        conics::on_conic(o.x, o.y, o.xd, o.yd, o.e, o.h, o.r),
        curve.leads_to(o, size),
        bounded(o.x, size) && bounded(o.y, size),
        bounded(o.xd, size) && bounded(o.yd, size),
        1real <= size * o.r,
        tilted(turned.2, size),
        ops.eccentric(
            e.eccentricity,
            e.working_anomaly(ops, ops.values()),
            e.peri_dist,
        ) == Ok::<F64, Error>(first),
        places::followed(ops, v, err, e, first, curve),
        accuracy::turns(ops, v, eps, e.peri_arg, turned.0),
        accuracy::turns(ops, v, eps, e.lon_of_ascending, turned.1),
        accuracy::turns(ops, v, eps, e.inclination, turned.2),
        accuracy::rounded_turn(ops, v, eps, e, orbits::place(ops, e, first)),
        ({
            let m = e.turned_out(ops, orbits::place(ops, e, first));
            let k = elements::conic(ops, m.pos, m.vel, e.gm_sqrt);
            let again = CometElements::of_motion(
                ops,
                ops.values(),
                desig,
                e.epoch,
                m,
                e.center_id,
                e.gm_sqrt,
            );
            let there = orbits::place(ops, again, second);
            let wide = angle_error(eps, root);
            &&& accuracy::rounded_conic(ops, v, eps, m.pos, m.vel, e.gm_sqrt)
            &&& rounded_angles(ops, v, eps, k, found, turned.2.sin == 0real)
            &&& ops.eccentric(
                again.eccentricity,
                again.working_anomaly(ops, ops.values()),
                again.peri_dist,
            ) == Ok::<F64, Error>(second)
            &&& places::followed(ops, v, far, again, second, curve)
            &&& accuracy::rounded_turn(ops, v, wide, again, there)
            &&& accuracy::shrinks(ops, v, wide, again.turned_out(ops, there).vel, e.gm_sqrt)
        }),
    ensures
        ({
            let m = e.turned_out(ops, orbits::place(ops, e, first));
            let again = CometElements::of_motion(
                ops,
                ops.values(),
                desig,
                e.epoch,
                m,
                e.center_id,
                e.gm_sqrt,
            );
            let off = accuracy::drift(size, eps, places::place_error(size, err))
                + accuracy::drift(size, angle_error(eps, root), places::place_error(size, far));
            &&& e.motion(ops) == Ok::<Motion<Ecliptic>, Error>(m)
            &&& again.motion(ops) is Ok
            &&& read(v, again.motion(ops)->Ok_0.pos).near(read(v, m.pos), off)
            &&& read(v, again.motion(ops)->Ok_0.vel.shrunk(ops, e.gm_sqrt)).near(
                read(v, m.vel.shrunk(ops, e.gm_sqrt)),
                off,
            )
        }),
{
    let at = orbits::place(ops, e, first);
    let m = e.turned_out(ops, at);
    let again = CometElements::of_motion(
        ops,
        ops.values(),
        desig,
        e.epoch,
        m,
        e.center_id,
        e.gm_sqrt,
    );
    let (by, back) = (places::place_error(size, err), places::place_error(size, far));
    let off = accuracy::drift(size, eps, by);
    places::lemma_less_error(size, err, far);
    lemma_steps(size, eps, off, root);
    places::law_place_is_nearly_known(ops, v, e, first, curve, o, size, err);
    accuracy::law_conic_nearly_comes_back(ops, v, e, at, o, turned, size, eps, by);
    places::law_place_is_nearly_known(ops, v, again, second, curve, o, size, far);
    lemma_motion_back(
        ops,
        v,
        e,
        first,
        desig,
        second,
        o,
        turned,
        found,
        size,
        eps,
        by,
        back,
        root,
    );
}

} // verus!
