//! How exactly the place of an object in the plane of its orbit is found from elements and an
//! eccentric anomaly which are nearly known.
use crate::accuracy;
use crate::arithmetic;
use crate::arithmetic::{Arithmetic, Binary, Unary};
use crate::conics;
use crate::constants;
use crate::elements::{CometElements, InPlane};
use crate::float::F64;
use crate::orbits;
use crate::orbits::Orbit;
use crate::physics::Physics;
use crate::rounding;
use crate::rounding::{bounded, near, Reading};
use vstd::prelude::*;

verus! {

/// A quotient of numbers which are nearly known, with a positive divisor which is not small.
proof fn lemma_quotient_above(
    q1: real,
    q: real,
    b1: real,
    b: real,
    a1: real,
    ea: real,
    eb: real,
    eps: real,
    size: real,
)
    requires
        0real <= size,
        0real <= ea,
        0real <= eb,
        0real <= eps,
        bounded(q, size),
        1real <= size * b,
        2real * (size * eb) <= 1real,
        near(b1, b, eb),
        near(a1, q * b, ea),
        near(q1 * b1, a1, eps),
    ensures
        near(q1, q, 2real * (size * (ea + size * eb + eps))),
{
    let t = ea + size * eb + eps;
    rounding::lemma_product(q, b - b1, size, eb);
    rounding::lemma_spread(q, b, -b1, 0real);
    rounding::lemma_minus(q, b1);
    rounding::lemma_minus(q, 1real);
    rounding::lemma_spread(b1, q1, -q, 0real);
    rounding::lemma_minus(b1, q);
    rounding::lemma_minus(b1, 1real);
    rounding::lemma_order(b1, q1, 1real);
    rounding::lemma_order(b1, q, 1real);
    assert(bounded(b1 * (q1 - q), t));
    // the divisor is not small
    rounding::lemma_product(size, b1 - b, size, eb);
    rounding::lemma_spread(size, b1, -b, 0real);
    rounding::lemma_minus(size, b);
    rounding::lemma_minus(size, 1real);
    let k = 2real * (size * b1);
    rounding::lemma_product(2real * size, b1 * (q1 - q), 2real * size, t);
    rounding::lemma_order(2real * size, b1, q1 - q);
    rounding::lemma_order(2real, size, b1);
    rounding::lemma_order(2real, size, t);
    accuracy::lemma_shrink(k, q1 - q, 2real * (size * t));
}

/// A quotient of numbers which are nearly known, with a divisor which is not small.
proof fn lemma_quotient(
    q1: real,
    q: real,
    b1: real,
    b: real,
    a1: real,
    ea: real,
    eb: real,
    eps: real,
    size: real,
)
    requires
        0real <= size,
        0real <= ea,
        0real <= eb,
        0real <= eps,
        bounded(q, size),
        1real <= size * b || 1real <= size * (-b),
        2real * (size * eb) <= 1real,
        near(b1, b, eb),
        near(a1, q * b, ea),
        near(q1 * b1, a1, eps),
    ensures
        near(q1, q, 2real * (size * (ea + size * eb + eps))),
{
    if 1real <= size * b {
        lemma_quotient_above(q1, q, b1, b, a1, ea, eb, eps, size);
    } else {
        rounding::lemma_minus(q, b);
        rounding::lemma_minus(q1, b1);
        lemma_quotient_above(q1, q, -b1, -b, -a1, ea, eb, eps, size);
    }
}

/// A root whose square is nearly known and which is not small.
proof fn lemma_root(r1: real, r: real, err: real, size: real)
    requires
        0real <= r1,
        0real < r,
        0real <= size,
        0real <= err,
        1real <= size * r,
        near(r1 * r1, r * r, err),
    ensures
        near(r1, r, size * err),
{
    let d = r1 - r;
    conics::lemma_foil(r1, -r, r1, r);
    rounding::lemma_minus(r, r);
    rounding::lemma_order(-r, r1, 1real);
    rounding::lemma_order(-r, r, 1real);
    rounding::lemma_minus(r1, r);
    rounding::lemma_order(r1, r, 1real);
    assert(bounded(d * (r1 + r), err));
    let k = size * (r1 + r);
    rounding::lemma_spread(size, r1, r, 0real);
    rounding::lemma_minus(size, 1real);
    accuracy::lemma_scale(size, 0real, r1);
    rounding::lemma_product(size, d * (r1 + r), size, err);
    rounding::lemma_order(d, r1 + r, 1real);
    rounding::lemma_order(size, r1 + r, d);
    accuracy::lemma_shrink(k, d, size * err);
}

/// The numbers which tell the shape of an ellipse or a hyperbola and the place of an object on it.
/// The sign is one on an ellipse and minus one on a hyperbola.
pub struct Shape {
    pub sign: real,
    /// The eccentricity.
    pub e: real,
    /// The perihelion distance.
    pub peri: real,
    /// The cosine of the eccentric anomaly, or its hyperbolic cosine.
    pub c: real,
    /// The sine of the eccentric anomaly, or its hyperbolic sine.
    pub s: real,
    /// The semi major axis.
    pub a: real,
    /// The root of how far the square of the eccentricity is from one.
    pub root: real,
    /// The size of the semi major axis to the power of one and a half.
    pub power: real,
    /// What the sine is multiplied with for the speed along the axis.
    pub along: real,
    /// What the cosine is multiplied with for the speed across it.
    pub aside: real,
}

impl Shape {
    /// The semi minor axis.
    pub open spec fn short(self) -> real {
        (self.sign * self.a) * self.root
    }

    /// What the speeds are divided by.
    pub open spec fn slow(self) -> real {
        self.power * (1real - self.e * self.c)
    }

    /// Do the numbers belong together.
    pub open spec fn fits(self) -> bool {
        &&& self.sign == 1real || self.sign == -1real
        &&& self.a * (1real - self.e) == self.peri
        &&& 0real < self.root
        &&& self.root * self.root == self.sign * (1real - self.e * self.e)
        &&& 0real < self.power
        &&& self.power * self.power == (self.sign * self.a) * ((self.sign * self.a) * (self.sign
            * self.a))
        &&& self.along * self.slow() == -self.a
        &&& self.aside * self.slow() == self.sign * self.short()
    }

    /// Is nothing larger than `size`, and nothing which is divided by smaller than one over it.
    pub open spec fn bounded(self, size: real) -> bool {
        &&& 1real <= size
        &&& bounded(self.e, size) && bounded(self.peri, size)
        &&& bounded(self.c, size) && bounded(self.s, size)
        &&& bounded(self.a, size) && bounded(self.root, size) && bounded(self.power, size)
        &&& bounded(self.short(), size) && bounded(1real - self.e * self.c, size)
        &&& bounded(self.along, size) && bounded(self.aside, size)
        &&& 1real <= size * (1real - self.e) || 1real <= size * (-(1real - self.e))
        &&& 1real <= size * self.root
        &&& 1real <= size * self.power
        &&& 1real <= size * self.slow() || 1real <= size * (-self.slow())
    }

    /// Where the object is, and how fast.
    pub open spec fn is_place(self, o: Orbit) -> bool {
        &&& o.x == self.a * (self.c - self.e)
        &&& o.y == self.short() * self.s
        &&& o.xd == self.along * self.s
        &&& o.yd == self.aside * self.c
    }
}

/// What is found on the way to a place.
pub struct Found {
    pub e: real,
    pub peri: real,
    pub c: real,
    pub s: real,
    pub left: real,
    pub axis: real,
    pub ahead: real,
    pub x: real,
    pub square: real,
    pub inside: real,
    pub root: real,
    pub short: real,
    pub y: real,
    pub power: real,
    pub part: real,
    pub rest: real,
    pub slow: real,
    pub along: real,
    pub aside: real,
    pub f: real,
    pub g: real,
}

impl Found {
    /// Are eccentricity, perihelion distance and the functions of the anomaly known up to `err`,
    /// and is every step off by at most `err`.
    pub open spec fn nearly(self, h: Shape, err: real) -> bool {
        let size = h.sign * self.axis;
        &&& near(self.e, h.e, err) && near(self.peri, h.peri, err)
        &&& near(self.c, h.c, err) && near(self.s, h.s, err)
        &&& near(self.left, 1real - self.e, err) && near(self.axis * self.left, self.peri, err)
        &&& near(self.ahead, self.c - self.e, err) && near(self.x, self.axis * self.ahead, err)
        &&& near(self.square, self.e * self.e, err)
        &&& near(self.inside, h.sign * (1real - self.square), err)
        &&& 0real <= self.root && near(self.root * self.root, self.inside, err)
        &&& near(self.short, size * self.root, err) && near(self.y, self.short * self.s, err)
        &&& 0real <= self.power && near(self.power * self.power, size * (size * size), err)
        &&& near(self.part, self.e * self.c, err) && near(self.rest, 1real - self.part, err)
        &&& near(self.slow, self.power * self.rest, err)
        &&& near(self.along * self.slow, -self.axis, err)
        &&& near(self.aside * self.slow, h.sign * self.short, err)
        &&& near(self.f, self.along * self.s, err) && near(self.g, self.aside * self.c, err)
    }
}

/// How far the place is off, where what it is found from and every step are off by at most `err`.
pub open spec fn place_error(size: real, err: real) -> real {
    600real * (size * (size * (size * (size * (size * (size * (size * (size * (size * err)))))))))
}

/// A smaller error makes a smaller one.
pub proof fn lemma_less_error(size: real, a: real, b: real)
    requires
        1real <= size,
        0real <= a <= b,
    ensures
        0real <= place_error(size, a) <= place_error(size, b),
{
    let (a1, b1) = (size * a, size * b);
    let (a2, b2) = (size * a1, size * b1);
    let (a3, b3) = (size * a2, size * b2);
    let (a4, b4) = (size * a3, size * b3);
    let (a5, b5) = (size * a4, size * b4);
    let (a6, b6) = (size * a5, size * b5);
    let (a7, b7) = (size * a6, size * b6);
    let (a8, b8) = (size * a7, size * b7);
    accuracy::lemma_scale(size, a, b);
    accuracy::lemma_scale(size, a1, b1);
    accuracy::lemma_scale(size, a2, b2);
    accuracy::lemma_scale(size, a3, b3);
    accuracy::lemma_scale(size, a4, b4);
    accuracy::lemma_scale(size, a5, b5);
    accuracy::lemma_scale(size, a6, b6);
    accuracy::lemma_scale(size, a7, b7);
    accuracy::lemma_scale(size, a8, b8);
    accuracy::lemma_grow(size, a);
    accuracy::lemma_grow(size, a1);
    accuracy::lemma_grow(size, a2);
    accuracy::lemma_grow(size, a3);
    accuracy::lemma_grow(size, a4);
    accuracy::lemma_grow(size, a5);
    accuracy::lemma_grow(size, a6);
    accuracy::lemma_grow(size, a7);
    accuracy::lemma_grow(size, a8);
}

/// A sign does not change how far numbers are apart.
proof fn lemma_signed(sign: real, a: real, b: real, err: real)
    requires
        sign == 1real || sign == -1real,
        near(a, b, err),
    ensures
        near(sign * a, sign * b, err),
        sign * a == a || sign * a == -a,
        sign * b == b || sign * b == -b,
        sign * (sign * a) == a,
{
    rounding::lemma_order(sign, a, 1real);
    rounding::lemma_order(sign, b, 1real);
    rounding::lemma_minus(a, 1real);
    rounding::lemma_minus(b, 1real);
    rounding::lemma_order(sign, sign, a);
    rounding::lemma_minus(1real, 1real);
    rounding::lemma_minus(-1real, 1real);
    rounding::lemma_order(1real, a, 1real);
}

/// The errors grow with the size.
proof fn lemma_grown(size: real, err: real)
    requires
        1real <= size,
        0real <= err,
        place_error(size, err) <= 1real,
    ensures
        ({
            let t1 = size * err;
            let t2 = size * t1;
            let t3 = size * t2;
            let t4 = size * t3;
            let t5 = size * t4;
            let t6 = size * t5;
            let t7 = size * t6;
            let t8 = size * t7;
            let t9 = size * t8;
            &&& err <= t1 <= t2 <= t3 <= t4
            &&& t4 <= t5 <= t6 <= t7 <= t8 <= t9
            &&& 600real * t9 <= 1real
        }),
{
    let t1 = size * err;
    let t2 = size * t1;
    let t3 = size * t2;
    let t4 = size * t3;
    let t5 = size * t4;
    let t6 = size * t5;
    let t7 = size * t6;
    let t8 = size * t7;
    accuracy::lemma_grow(size, err);
    accuracy::lemma_grow(size, t1);
    accuracy::lemma_grow(size, t2);
    accuracy::lemma_grow(size, t3);
    accuracy::lemma_grow(size, t4);
    accuracy::lemma_grow(size, t5);
    accuracy::lemma_grow(size, t6);
    accuracy::lemma_grow(size, t7);
    accuracy::lemma_grow(size, t8);
}

/// The axes are nearly known.
proof fn lemma_axes(n: Found, h: Shape, size: real, err: real)
    requires
        h.fits(),
        h.bounded(size),
        0real <= err,
        place_error(size, err) <= 1real,
        n.nearly(h, err),
    ensures
        ({
            let t2 = size * (size * err);
            let t3 = size * t2;
            &&& near(n.axis, h.a, 8real * t2)
            &&& near(n.short, h.short(), 23real * t3)
        }),
{
    let s = size;
    let t1 = s * err;
    let t2 = s * t1;
    let t3 = s * t2;
    lemma_grown(size, err);
    // the semi major axis
    conics::lemma_swap(s, 2real, err);
    lemma_quotient(n.axis, h.a, n.left, 1real - h.e, n.peri, err, 2real * err, err, s);
    accuracy::lemma_scale(s, err + s * (2real * err) + err, 4real * t1);
    conics::lemma_swap(s, 4real, t1);
    assert(near(n.axis, h.a, 8real * t2));
    // the root
    accuracy::lemma_product_error(
        n.e, h.e, n.e, h.e, 1real, s, 2real, s, 1real, err, 1real, err);
    assert(near(n.square, h.e * h.e, 4real * t1));
    lemma_signed(h.sign, 1real - n.square, 1real - h.e * h.e, 4real * t1);
    lemma_root(n.root, h.root, 6real * t1, s);
    conics::lemma_swap(s, 6real, t1);
    assert(near(n.root, h.root, 6real * t2));
    // the semi minor axis
    lemma_signed(h.sign, n.axis, h.a, 8real * t2);
    accuracy::lemma_product_error(
        h.sign * n.axis, h.sign * h.a, n.root, h.root, 1real, s, 2real, s, 8real, t2, 6real, t2);
}

/// What the speeds are divided by is nearly known.
proof fn lemma_slow(n: Found, h: Shape, size: real, err: real)
    requires
        h.fits(),
        h.bounded(size),
        0real <= err,
        place_error(size, err) <= 1real,
        n.nearly(h, err),
    ensures
        ({
            let t6 = size * (size * (size * (size * (size * (size * err)))));
            near(n.slow, h.slow(), 120real * t6)
        }),
{
    let s = size;
    let t1 = s * err;
    let t2 = s * t1;
    let t3 = s * t2;
    let t4 = s * t3;
    let t5 = s * t4;
    lemma_grown(size, err);
    lemma_axes(n, h, size, err);
    // the power
    let (b1, b) = (h.sign * n.axis, h.sign * h.a);
    lemma_signed(h.sign, n.axis, h.a, 8real * t2);
    accuracy::lemma_product_error(b1, b, b1, b, 1real, s, 2real, s, 8real, t2, 8real, t2);
    assert(near(b1 * b1, b * b, 24real * t3));
    let s2 = s * s;
    rounding::lemma_product(b1, b1, 2real * s, 2real * s);
    rounding::lemma_factors(2real, s, 2real, s);
    accuracy::lemma_product_error(
        b1, b, b1 * b1, b * b, 1real, s, 4real, s2, 8real, t2, 24real, t3);
    rounding::lemma_order(s, s, t2);
    assert(near(n.power * n.power, h.power * h.power, 57real * t4));
    lemma_root(n.power, h.power, 57real * t4, s);
    conics::lemma_swap(s, 57real, t4);
    assert(near(n.power, h.power, 57real * t5));
    // what it is multiplied with
    accuracy::lemma_product_error(
        n.e, h.e, n.c, h.c, 1real, s, 2real, s, 1real, err, 1real, err);
    assert(near(n.rest, 1real - h.e * h.c, 5real * t1));
    accuracy::lemma_product_error(
        n.power,
        h.power,
        n.rest,
        1real - h.e * h.c,
        1real,
        s,
        2real,
        s,
        57real,
        t5,
        5real,
        t1,
    );
}

/// The place of an object on an ellipse or a hyperbola is nearly known.
proof fn lemma_place(n: Found, h: Shape, o: Orbit, size: real, err: real)
    requires
        h.fits(),
        h.bounded(size),
        h.is_place(o),
        0real <= err,
        place_error(size, err) <= 1real,
        n.nearly(h, err),
    ensures
        ({
            let t9 = size * (size * (size * (size * (size * (size * (size * (size * (size
                * err))))))));
            &&& near(n.x, o.x, 48real * t9)
            &&& near(n.y, o.y, 48real * t9)
            &&& near(n.f, o.xd, 518real * t9)
            &&& near(n.g, o.yd, 578real * t9)
        }),
{
    let s = size;
    let t1 = s * err;
    let t2 = s * t1;
    let t3 = s * t2;
    let t4 = s * t3;
    let t5 = s * t4;
    let t6 = s * t5;
    let t7 = s * t6;
    let t8 = s * t7;
    let t9 = s * t8;
    lemma_grown(size, err);
    lemma_axes(n, h, size, err);
    lemma_slow(n, h, size, err);
    // the coordinates
    accuracy::lemma_product_error(
        n.axis, h.a, n.ahead, h.c - h.e, 1real, s, 5real, s, 8real, t2, 3real, err);
    accuracy::lemma_product_error(
        n.short, h.short(), n.s, h.s, 1real, s, 2real, s, 23real, t3, 1real, err);
    // the speeds
    conics::lemma_swap(s, 120real, t6);
    lemma_quotient(n.along, h.along, n.slow, h.slow(), -n.axis, 8real * t2, 120real * t6, err, s);
    accuracy::lemma_scale(s, 8real * t2 + s * (120real * t6) + err, 129real * t7);
    conics::lemma_swap(s, 129real, t7);
    assert(near(n.along, h.along, 258real * t8));
    lemma_signed(h.sign, n.short, h.short(), 23real * t3);
    lemma_quotient(
        n.aside,
        h.aside,
        n.slow,
        h.slow(),
        h.sign * n.short,
        23real * t3,
        120real * t6,
        err,
        s,
    );
    accuracy::lemma_scale(s, 23real * t3 + s * (120real * t6) + err, 144real * t7);
    conics::lemma_swap(s, 144real, t7);
    assert(near(n.aside, h.aside, 288real * t8));
    accuracy::lemma_product_error(
        n.along, h.along, n.s, h.s, 1real, s, 2real, s, 258real, t8, 1real, err);
    accuracy::lemma_product_error(
        n.aside, h.aside, n.c, h.c, 1real, s, 2real, s, 288real, t8, 1real, err);
}

/// A speed in the units of time.
proof fn lemma_speed(r: real, f: real, want: real, gm: real, k: real, t: real, err: real)
    requires
        0real < gm,
        0real <= err <= t,
        0real <= k,
        k + 1real <= 600real,
        near(f, want, k * t),
        near(r, f * gm, err * gm),
    ensures
        near(r, want * gm, (600real * t) * gm),
{
    rounding::lemma_product(f - want, gm, k * t, gm);
    rounding::lemma_spread(gm, f, -want, 0real);
    rounding::lemma_minus(gm, want);
    rounding::lemma_minus(gm, 1real);
    rounding::lemma_order(gm, f, 1real);
    rounding::lemma_order(gm, want, 1real);
    rounding::lemma_order(gm, f - want, 1real);
    rounding::lemma_spread(t, k, 1real, 0real);
    rounding::lemma_minus(t, 1real);
    rounding::lemma_order(t, k, 1real);
    rounding::lemma_order(t, k + 1real, 1real);
    accuracy::lemma_scale(t, k + 1real, 600real);
    rounding::lemma_order(t, 600real, 1real);
    accuracy::lemma_scale(gm, k * t + err, 600real * t);
    rounding::lemma_spread(gm, k * t, err, 0real);
    rounding::lemma_order(gm, k * t, 1real);
    rounding::lemma_order(gm, err, 1real);
    rounding::lemma_order(gm, 600real * t, 1real);
}

/// Is the square of a root off by at most `eps`.
pub open spec fn roots<A: Arithmetic>(ops: &A, v: Reading, eps: real, a: F64) -> bool {
    let r = v(ops.one(Unary::Sqrt, a));
    0real <= r && near(r * r, v(a), eps)
}

/// Is the square of a number to the power of one and a half off by at most `eps`.
pub open spec fn powers<A: Arithmetic>(ops: &A, v: Reading, eps: real, a: F64, size: real) -> bool {
    let r = v(ops.two(Binary::Power, a, F64 { bits: constants::ONE_AND_HALF }));
    0real <= r && near(r * r, size * (size * size), eps)
}

/// Are the operations off by at most `eps` by which the place on an ellipse is found.
pub open spec fn rounded_ellipse<A: Arithmetic>(
    ops: &A,
    v: Reading,
    eps: real,
    e: CometElements,
    a: F64,
    anomaly: F64,
) -> bool {
    let one = F64 { bits: constants::ONE };
    let sine = ops.one(Unary::Sin, anomaly);
    let cosine = ops.one(Unary::Cos, anomaly);
    let power = ops.two(Binary::Power, a, F64 { bits: constants::ONE_AND_HALF });
    let part = arithmetic::product(ops, e.eccentricity, cosine);
    let rest = arithmetic::difference(ops, one, part);
    let e_dot = arithmetic::product(ops, power, rest);
    let square = ops.one(Unary::Squared, e.eccentricity);
    let inside = arithmetic::difference(ops, one, square);
    let root = ops.one(Unary::Sqrt, inside);
    let b = arithmetic::product(ops, a, root);
    let ahead = arithmetic::difference(ops, cosine, e.eccentricity);
    let along = arithmetic::quotient(ops, a.negated(), e_dot);
    let aside = arithmetic::quotient(ops, b, e_dot);
    let speed = eps * v(e.gm_sqrt);
    &&& accuracy::multiplies(ops, v, eps, e.eccentricity, cosine)
    &&& accuracy::subtracts(ops, v, eps, one, part)
    &&& powers(ops, v, eps, a, v(a)) && accuracy::multiplies(ops, v, eps, power, rest)
    &&& accuracy::squares(ops, v, eps, e.eccentricity)
    &&& accuracy::subtracts(ops, v, eps, one, square)
    &&& roots(ops, v, eps, inside) && accuracy::multiplies(ops, v, eps, a, root)
    &&& accuracy::subtracts(ops, v, eps, cosine, e.eccentricity)
    &&& accuracy::multiplies(ops, v, eps, a, ahead) && accuracy::multiplies(ops, v, eps, b, sine)
    &&& accuracy::divides(ops, v, eps, a.negated(), e_dot)
    &&& accuracy::multiplies(ops, v, eps, along, sine)
    &&& accuracy::multiplies(ops, v, speed, arithmetic::product(ops, along, sine), e.gm_sqrt)
    &&& accuracy::divides(ops, v, eps, b, e_dot)
    &&& accuracy::multiplies(ops, v, eps, aside, cosine)
    &&& accuracy::multiplies(ops, v, speed, arithmetic::product(ops, aside, cosine), e.gm_sqrt)
}

/// Are the operations off by at most `eps` by which the place on a hyperbola is found.
pub open spec fn rounded_hyperbola<A: Arithmetic>(
    ops: &A,
    v: Reading,
    eps: real,
    e: CometElements,
    a: F64,
    anomaly: F64,
) -> bool {
    let one = F64 { bits: constants::ONE };
    let sine = ops.one(Unary::Sinh, anomaly);
    let cosine = ops.one(Unary::Cosh, anomaly);
    let power = ops.two(Binary::Power, a.abs_value(), F64 { bits: constants::ONE_AND_HALF });
    let part = arithmetic::product(ops, e.eccentricity, cosine);
    let rest = arithmetic::difference(ops, one, part);
    let h_dot = arithmetic::product(ops, power, rest);
    let square = ops.one(Unary::Squared, e.eccentricity);
    let inside = arithmetic::difference(ops, square, one);
    let root = ops.one(Unary::Sqrt, inside);
    let b = arithmetic::product(ops, a.negated(), root);
    let ahead = arithmetic::difference(ops, cosine, e.eccentricity);
    let along = arithmetic::quotient(ops, a.negated(), h_dot);
    let aside = arithmetic::quotient(ops, b.negated(), h_dot);
    let speed = eps * v(e.gm_sqrt);
    &&& accuracy::multiplies(ops, v, eps, e.eccentricity, cosine)
    &&& accuracy::subtracts(ops, v, eps, one, part)
    &&& powers(ops, v, eps, a.abs_value(), -v(a)) && accuracy::multiplies(ops, v, eps, power, rest)
    &&& accuracy::squares(ops, v, eps, e.eccentricity)
    &&& accuracy::subtracts(ops, v, eps, square, one)
    &&& roots(ops, v, eps, inside) && accuracy::multiplies(ops, v, eps, a.negated(), root)
    &&& accuracy::subtracts(ops, v, eps, cosine, e.eccentricity)
    &&& accuracy::multiplies(ops, v, eps, a, ahead) && accuracy::multiplies(ops, v, eps, b, sine)
    &&& accuracy::divides(ops, v, eps, a.negated(), h_dot)
    &&& accuracy::multiplies(ops, v, eps, along, sine)
    &&& accuracy::multiplies(ops, v, speed, arithmetic::product(ops, along, sine), e.gm_sqrt)
    &&& accuracy::divides(ops, v, eps, b.negated(), h_dot)
    &&& accuracy::multiplies(ops, v, eps, aside, cosine)
    &&& accuracy::multiplies(ops, v, speed, arithmetic::product(ops, aside, cosine), e.gm_sqrt)
}

/// Are the operations off by at most `eps` by which the place on a parabola is found.
pub open spec fn rounded_parabola<A: Arithmetic>(
    ops: &A,
    v: Reading,
    eps: real,
    e: CometElements,
    anomaly: F64,
) -> bool {
    let two = F64 { bits: constants::TWO };
    let square = ops.one(Unary::Squared, anomaly);
    let half = arithmetic::quotient(ops, square, two);
    let d_dot = arithmetic::sum(ops, e.peri_dist, half);
    let double = arithmetic::product(ops, two, e.peri_dist);
    let root = ops.one(Unary::Sqrt, double);
    let along = arithmetic::quotient(ops, anomaly.negated(), d_dot);
    let aside = arithmetic::quotient(ops, root, d_dot);
    let speed = eps * v(e.gm_sqrt);
    &&& accuracy::squares(ops, v, eps, anomaly) && accuracy::divides(ops, v, eps, square, two)
    &&& accuracy::adds(ops, v, eps, e.peri_dist, half)
    &&& accuracy::subtracts(ops, v, eps, e.peri_dist, half)
    &&& accuracy::multiplies(ops, v, eps, two, e.peri_dist) && roots(ops, v, eps, double)
    &&& accuracy::multiplies(ops, v, eps, root, anomaly)
    &&& accuracy::divides(ops, v, eps, anomaly.negated(), d_dot)
    &&& accuracy::multiplies(ops, v, speed, along, e.gm_sqrt)
    &&& accuracy::divides(ops, v, eps, root, d_dot)
    &&& accuracy::multiplies(ops, v, speed, aside, e.gm_sqrt)
}

/// The place on an ellipse.
#[verifier::spinoff_prover]
proof fn lemma_on_ellipse<A: Arithmetic>(
    ops: &A,
    v: Reading,
    e: CometElements,
    a: F64,
    anomaly: F64,
    h: Shape,
    o: Orbit,
    size: real,
    err: real,
)
    requires
        orbits::plain(v),
        h.sign == 1real,
        h.fits(),
        h.bounded(size),
        h.is_place(o),
        0real <= err,
        place_error(size, err) <= 1real,
        0real < v(e.gm_sqrt),
        near(v(e.eccentricity), h.e, err),
        near(v(e.peri_dist), h.peri, err),
        near(v(ops.one(Unary::Cos, anomaly)), h.c, err),
        near(v(ops.one(Unary::Sin, anomaly)), h.s, err),
        a == arithmetic::quotient(
            ops,
            e.peri_dist,
            arithmetic::difference(ops, F64 { bits: constants::ONE }, e.eccentricity),
        ),
        accuracy::subtracts(ops, v, err, F64 { bits: constants::ONE }, e.eccentricity),
        accuracy::divides(
            ops,
            v,
            err,
            e.peri_dist,
            arithmetic::difference(ops, F64 { bits: constants::ONE }, e.eccentricity),
        ),
        rounded_ellipse(ops, v, err, e, a, anomaly),
        bounded(o.x, size) && bounded(o.y, size),
        bounded(o.xd, size) && bounded(o.yd, size),
    ensures
        accuracy::placed(
            v,
            place_error(size, err),
            size,
            e,
            e.on_ellipse(ops, a, anomaly),
            o,
        ),
{
    let one = F64 { bits: constants::ONE };
    let sine = ops.one(Unary::Sin, anomaly);
    let cosine = ops.one(Unary::Cos, anomaly);
    let power = ops.two(Binary::Power, a, F64 { bits: constants::ONE_AND_HALF });
    let part = arithmetic::product(ops, e.eccentricity, cosine);
    let rest = arithmetic::difference(ops, one, part);
    let e_dot = arithmetic::product(ops, power, rest);
    let square = ops.one(Unary::Squared, e.eccentricity);
    let inside = arithmetic::difference(ops, one, square);
    let root = ops.one(Unary::Sqrt, inside);
    let b = arithmetic::product(ops, a, root);
    let ahead = arithmetic::difference(ops, cosine, e.eccentricity);
    let along = arithmetic::quotient(ops, a.negated(), e_dot);
    let aside = arithmetic::quotient(ops, b, e_dot);
    let at = e.on_ellipse(ops, a, anomaly);
    let f = arithmetic::product(ops, along, sine);
    let g = arithmetic::product(ops, aside, cosine);
    let n = Found {
        e: v(e.eccentricity),
        peri: v(e.peri_dist),
        c: v(cosine),
        s: v(sine),
        left: v(arithmetic::difference(ops, one, e.eccentricity)),
        axis: v(a),
        ahead: v(ahead),
        x: v(at.x),
        square: v(square),
        inside: v(inside),
        root: v(root),
        short: v(b),
        y: v(at.y),
        power: v(power),
        part: v(part),
        rest: v(rest),
        slow: v(e_dot),
        along: v(along),
        aside: v(aside),
        f: v(f),
        g: v(g),
    };
    rounding::lemma_order(1real, v(a), 1real);
    rounding::lemma_minus(v(a), 1real);
    rounding::lemma_order(1real, 1real - v(square), 1real);
    rounding::lemma_minus(1real - v(square), 1real);
    rounding::lemma_order(1real, v(b), 1real);
    rounding::lemma_minus(v(b), 1real);
    assert(n.nearly(h, err));
    lemma_place(n, h, o, size, err);
    lemma_placed(v, e, at, o, v(f), v(g), size, err);
}

/// The place on a hyperbola.
#[verifier::spinoff_prover]
proof fn lemma_on_hyperbola<A: Arithmetic>(
    ops: &A,
    v: Reading,
    e: CometElements,
    a: F64,
    anomaly: F64,
    h: Shape,
    o: Orbit,
    size: real,
    err: real,
)
    requires
        orbits::plain(v),
        h.sign == -1real,
        h.fits(),
        h.bounded(size),
        h.is_place(o),
        0real <= err,
        place_error(size, err) <= 1real,
        0real < v(e.gm_sqrt),
        near(v(e.eccentricity), h.e, err),
        near(v(e.peri_dist), h.peri, err),
        near(v(ops.one(Unary::Cosh, anomaly)), h.c, err),
        near(v(ops.one(Unary::Sinh, anomaly)), h.s, err),
        a == arithmetic::quotient(
            ops,
            e.peri_dist,
            arithmetic::difference(ops, F64 { bits: constants::ONE }, e.eccentricity),
        ),
        accuracy::subtracts(ops, v, err, F64 { bits: constants::ONE }, e.eccentricity),
        accuracy::divides(
            ops,
            v,
            err,
            e.peri_dist,
            arithmetic::difference(ops, F64 { bits: constants::ONE }, e.eccentricity),
        ),
        rounded_hyperbola(ops, v, err, e, a, anomaly),
        bounded(o.x, size) && bounded(o.y, size),
        bounded(o.xd, size) && bounded(o.yd, size),
    ensures
        accuracy::placed(
            v,
            place_error(size, err),
            size,
            e,
            e.on_hyperbola(ops, a, anomaly),
            o,
        ),
{
    let one = F64 { bits: constants::ONE };
    let sine = ops.one(Unary::Sinh, anomaly);
    let cosine = ops.one(Unary::Cosh, anomaly);
    let power = ops.two(Binary::Power, a.abs_value(), F64 { bits: constants::ONE_AND_HALF });
    let part = arithmetic::product(ops, e.eccentricity, cosine);
    let rest = arithmetic::difference(ops, one, part);
    let h_dot = arithmetic::product(ops, power, rest);
    let square = ops.one(Unary::Squared, e.eccentricity);
    let inside = arithmetic::difference(ops, square, one);
    let root = ops.one(Unary::Sqrt, inside);
    let b = arithmetic::product(ops, a.negated(), root);
    let ahead = arithmetic::difference(ops, cosine, e.eccentricity);
    let along = arithmetic::quotient(ops, a.negated(), h_dot);
    let aside = arithmetic::quotient(ops, b.negated(), h_dot);
    let at = e.on_hyperbola(ops, a, anomaly);
    let f = arithmetic::product(ops, along, sine);
    let g = arithmetic::product(ops, aside, cosine);
    let n = Found {
        e: v(e.eccentricity),
        peri: v(e.peri_dist),
        c: v(cosine),
        s: v(sine),
        left: v(arithmetic::difference(ops, one, e.eccentricity)),
        axis: v(a),
        ahead: v(ahead),
        x: v(at.x),
        square: v(square),
        inside: v(inside),
        root: v(root),
        short: v(b),
        y: v(at.y),
        power: v(power),
        part: v(part),
        rest: v(rest),
        slow: v(h_dot),
        along: v(along),
        aside: v(aside),
        f: v(f),
        g: v(g),
    };
    lemma_signed(-1real, v(a), v(a), 0real);
    rounding::lemma_order(-1real, v(a), 1real);
    rounding::lemma_minus(v(a), 1real);
    rounding::lemma_order(-1real, 1real - v(square), 1real);
    rounding::lemma_minus(1real - v(square), 1real);
    rounding::lemma_order(-1real, v(b), 1real);
    rounding::lemma_minus(v(b), 1real);
    assert(n.nearly(h, err));
    lemma_place(n, h, o, size, err);
    lemma_placed(v, e, at, o, v(f), v(g), size, err);
}

/// Coordinates and speeds which are nearly known make a place.
proof fn lemma_placed(
    v: Reading,
    e: CometElements,
    at: InPlane,
    o: Orbit,
    f: real,
    g: real,
    size: real,
    err: real,
)
    requires
        1real <= size,
        0real <= err,
        place_error(size, err) <= 1real,
        0real < v(e.gm_sqrt),
        bounded(o.x, size) && bounded(o.y, size),
        bounded(o.xd, size) && bounded(o.yd, size),
        ({
            let t9 = size * (size * (size * (size * (size * (size * (size * (size * (size
                * err))))))));
            &&& near(v(at.x), o.x, 48real * t9)
            &&& near(v(at.y), o.y, 48real * t9)
            &&& near(f, o.xd, 518real * t9)
            &&& near(g, o.yd, 578real * t9)
        }),
        near(v(at.x_dot), f * v(e.gm_sqrt), err * v(e.gm_sqrt)),
        near(v(at.y_dot), g * v(e.gm_sqrt), err * v(e.gm_sqrt)),
    ensures
        accuracy::placed(v, place_error(size, err), size, e, at, o),
{
    let t9 = size * (size * (size * (size * (size * (size * (size * (size * (size * err))))))));
    lemma_grown(size, err);
    lemma_speed(v(at.x_dot), f, o.xd, v(e.gm_sqrt), 518real, t9, err);
    lemma_speed(v(at.y_dot), g, o.yd, v(e.gm_sqrt), 578real, t9, err);
}

/// The numbers which tell a parabola and the place of an object on it.
pub struct Bow {
    /// The perihelion distance.
    pub peri: real,
    /// The anomaly.
    pub d: real,
    /// The root of twice the perihelion distance.
    pub root: real,
}

impl Bow {
    /// The distance.
    pub open spec fn far(self) -> real {
        self.peri + (self.d * self.d) / 2real
    }

    /// Do the numbers belong together.
    pub open spec fn fits(self) -> bool {
        0real < self.root && self.root * self.root == 2real * self.peri
    }

    /// Is nothing larger than `size`, and nothing which is divided by smaller than one over it.
    pub open spec fn bounded(self, size: real) -> bool {
        &&& 1real <= size
        &&& bounded(self.peri, size) && bounded(self.d, size) && bounded(self.root, size)
        &&& 1real <= size * self.root
        &&& 1real <= size * self.far()
    }

    /// Where the object is, and how fast.
    pub open spec fn is_place(self, o: Orbit) -> bool {
        &&& o.x == self.peri - (self.d * self.d) / 2real
        &&& o.y == self.root * self.d
        &&& o.xd * self.far() == -self.d
        &&& o.yd * self.far() == self.root
    }
}

/// The place on a parabola.
#[verifier::spinoff_prover]
proof fn lemma_on_parabola<A: Arithmetic>(
    ops: &A,
    v: Reading,
    e: CometElements,
    anomaly: F64,
    h: Bow,
    o: Orbit,
    size: real,
    err: real,
)
    requires
        orbits::plain(v),
        h.fits(),
        h.bounded(size),
        h.is_place(o),
        0real <= err,
        place_error(size, err) <= 1real,
        0real < v(e.gm_sqrt),
        near(v(e.peri_dist), h.peri, err),
        near(v(anomaly), h.d, err),
        rounded_parabola(ops, v, err, e, anomaly),
        bounded(o.x, size) && bounded(o.y, size),
        bounded(o.xd, size) && bounded(o.yd, size),
    ensures
        accuracy::placed(
            v,
            place_error(size, err),
            size,
            e,
            e.on_parabola(ops, anomaly),
            o,
        ),
{
    let two = F64 { bits: constants::TWO };
    let square = ops.one(Unary::Squared, anomaly);
    let half = arithmetic::quotient(ops, square, two);
    let d_dot = arithmetic::sum(ops, e.peri_dist, half);
    let double = arithmetic::product(ops, two, e.peri_dist);
    let root = ops.one(Unary::Sqrt, double);
    let along = arithmetic::quotient(ops, anomaly.negated(), d_dot);
    let aside = arithmetic::quotient(ops, root, d_dot);
    let at = e.on_parabola(ops, anomaly);
    let s = size;
    let t1 = s * err;
    let t2 = s * t1;
    let t3 = s * t2;
    lemma_grown(size, err);
    accuracy::lemma_product_error(
        v(anomaly), h.d, v(anomaly), h.d, 1real, s, 2real, s, 1real, err, 1real, err);
    rounding::lemma_order(v(half), 2real, 1real);
    assert(near(v(half), (h.d * h.d) / 2real, 3real * t1));
    assert(near(v(at.x), o.x, 5real * t1));
    assert(near(v(d_dot), h.far(), 5real * t1));
    lemma_root(v(root), h.root, 4real * err, s);
    conics::lemma_swap(s, 4real, err);
    assert(near(v(root), h.root, 4real * t1));
    accuracy::lemma_product_error(
        v(root), h.root, v(anomaly), h.d, 1real, s, 2real, s, 4real, t1, 1real, err);
    assert(near(v(at.y), o.y, 10real * t2));
    conics::lemma_swap(s, 5real, t1);
    lemma_quotient(v(along), o.xd, v(d_dot), h.far(), -v(anomaly), err, 5real * t1, err, s);
    accuracy::lemma_scale(s, err + s * (5real * t1) + err, 7real * t2);
    conics::lemma_swap(s, 7real, t2);
    lemma_quotient(v(aside), o.yd, v(d_dot), h.far(), v(root), 4real * t1, 5real * t1, err, s);
    accuracy::lemma_scale(s, 4real * t1 + s * (5real * t1) + err, 10real * t2);
    conics::lemma_swap(s, 10real, t2);
    lemma_placed(v, e, at, o, v(along), v(aside), size, err);
}

/// The curve on which an object moves, with its place on it.
pub enum Curve {
    /// An ellipse or a hyperbola.
    Conic(Shape),
    /// A parabola.
    Parabola(Bow),
}

impl Curve {
    /// The perihelion distance.
    pub open spec fn peri(self) -> real {
        match self {
            Curve::Conic(h) => h.peri,
            Curve::Parabola(h) => h.peri,
        }
    }

    /// Is `o` the place of the object, with the same eccentricity, and is nothing larger than
    /// `size`, and nothing which is divided by smaller than one over it.
    pub open spec fn leads_to(self, o: Orbit, size: real) -> bool {
        match self {
            Curve::Conic(h) => h.fits() && h.bounded(size) && h.is_place(o) && h.e == o.e,
            Curve::Parabola(h) => h.fits() && h.bounded(size) && h.is_place(o),
        }
    }
}

/// Is an anomaly that of a place on a curve, up to `err`, and is every operation by which the place
/// is found off by at most `err`. The curve is of the kind which the eccentricity tells.
pub open spec fn followed<A: Physics>(
    ops: &A,
    v: Reading,
    err: real,
    e: CometElements,
    anomaly: F64,
    curve: Curve,
) -> bool {
    let c = ops.values();
    let one = F64 { bits: constants::ONE };
    let a = e.working_axis(ops, c);
    let left = arithmetic::difference(ops, one, e.eccentricity);
    match curve {
        Curve::Conic(h) => {
            &&& accuracy::subtracts(ops, v, err, one, e.eccentricity)
            &&& accuracy::divides(ops, v, err, e.peri_dist, left)
            &&& if h.sign == 1real {
                &&& e.elliptical(ops, c)
                &&& near(v(ops.one(Unary::Cos, anomaly)), h.c, err)
                &&& near(v(ops.one(Unary::Sin, anomaly)), h.s, err)
                &&& rounded_ellipse(ops, v, err, e, a, anomaly)
            } else {
                &&& e.hyperbolic(ops, c) && !e.elliptical(ops, c)
                &&& near(v(ops.one(Unary::Cosh, anomaly)), h.c, err)
                &&& near(v(ops.one(Unary::Sinh, anomaly)), h.s, err)
                &&& rounded_hyperbola(ops, v, err, e, a, anomaly)
            }
        },
        Curve::Parabola(h) => {
            &&& !e.elliptical(ops, c) && !e.hyperbolic(ops, c)
            &&& near(v(anomaly), h.d, err)
            &&& rounded_parabola(ops, v, err, e, anomaly)
        },
    }
}

/// The place in the plane of the orbit is nearly known where eccentricity, perihelion distance and
/// the functions of the eccentric anomaly are: on an ellipse, a parabola or a hyperbola, and with
/// rounding.
pub proof fn law_place_is_nearly_known<A: Physics>(
    ops: &A,
    v: Reading,
    e: CometElements,
    anomaly: F64,
    curve: Curve,
    o: Orbit,
    size: real,
    err: real,
)
    requires
        orbits::plain(v),
        0real <= err,
        place_error(size, err) <= 1real,
        0real < v(e.gm_sqrt),
        curve.leads_to(o, size),
        near(v(e.eccentricity), o.e, err),
        near(v(e.peri_dist), curve.peri(), err),
        followed(ops, v, err, e, anomaly, curve),
        bounded(o.x, size) && bounded(o.y, size),
        bounded(o.xd, size) && bounded(o.yd, size),
    ensures
        accuracy::placed(
            v,
            place_error(size, err),
            size,
            e,
            orbits::place(ops, e, anomaly),
            o,
        ),
{
    let a = e.working_axis(ops, ops.values());
    match curve {
        Curve::Conic(h) => {
            if h.sign == 1real {
                lemma_on_ellipse(ops, v, e, a, anomaly, h, o, size, err);
            } else {
                lemma_on_hyperbola(ops, v, e, a, anomaly, h, o, size, err);
            }
        },
        Curve::Parabola(h) => {
            lemma_on_parabola(ops, v, e, anomaly, h, o, size, err);
        },
    }
}

} // verus!
