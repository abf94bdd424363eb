//! That position and velocity of an object on an orbit lead back to its elements, where no rounding
//! comes in between.
//!
//! Each condition below says of one operation that its result is exact.
use crate::arithmetic;
use crate::arithmetic::{Arithmetic, Binary, Unary};
use crate::conics;
use crate::conics::Turn;
use crate::constants;
use crate::desig::Desig;
use crate::elements;
use crate::elements::{CometElements, InPlane};
use crate::errors::Error;
use crate::float::F64;
use crate::frames;
use crate::frames::{Ecliptic, Vector};
use crate::numbers;
use crate::physics::{Motion, Physics};
use crate::rounding;
use crate::rounding::{read, Reading, Triple};
use vstd::prelude::*;

verus! {

/// Does a reading know signs and the small numbers.
pub open spec fn plain(v: Reading) -> bool {
    &&& v(F64 { bits: constants::ZERO }) == 0real
    &&& v(F64 { bits: constants::ONE }) == 1real
    &&& v(F64 { bits: constants::TWO }) == 2real
    &&& forall|a: F64| v(#[trigger] a.negated()) == -v(a)
}

/// Is a sum exact.
pub open spec fn adds<A: Arithmetic>(ops: &A, v: Reading, a: F64, b: F64) -> bool {
    v(arithmetic::sum(ops, a, b)) == v(a) + v(b)
}

/// Is a difference exact.
pub open spec fn subtracts<A: Arithmetic>(ops: &A, v: Reading, a: F64, b: F64) -> bool {
    v(arithmetic::difference(ops, a, b)) == v(a) - v(b)
}

/// Is a product exact.
pub open spec fn multiplies<A: Arithmetic>(ops: &A, v: Reading, a: F64, b: F64) -> bool {
    v(arithmetic::product(ops, a, b)) == v(a) * v(b)
}

/// Is a quotient exact.
pub open spec fn divides<A: Arithmetic>(ops: &A, v: Reading, a: F64, b: F64) -> bool {
    v(arithmetic::quotient(ops, a, b)) * v(b) == v(a)
}

/// Is a square root exact.
pub open spec fn roots<A: Arithmetic>(ops: &A, v: Reading, a: F64) -> bool {
    let r = v(ops.one(Unary::Sqrt, a));
    0real <= r && r * r == v(a)
}

/// Is a square exact.
pub open spec fn squares<A: Arithmetic>(ops: &A, v: Reading, a: F64) -> bool {
    v(ops.one(Unary::Squared, a)) == v(a) * v(a)
}

/// Is a dot product exact.
pub open spec fn dots<A: Arithmetic>(
    ops: &A,
    v: Reading,
    a: Vector<Ecliptic>,
    b: Vector<Ecliptic>,
) -> bool {
    let (p, q, r) = (
        arithmetic::product(ops, a.x, b.x),
        arithmetic::product(ops, a.y, b.y),
        arithmetic::product(ops, a.z, b.z),
    );
    &&& multiplies(ops, v, a.x, b.x)
    &&& multiplies(ops, v, a.y, b.y)
    &&& multiplies(ops, v, a.z, b.z)
    &&& adds(ops, v, p, q)
    &&& adds(ops, v, arithmetic::sum(ops, p, q), r)
}

/// Is each product of a vector with a number exact.
pub open spec fn scales<A: Arithmetic>(ops: &A, v: Reading, a: Vector<Ecliptic>, k: F64) -> bool {
    multiplies(ops, v, a.x, k) && multiplies(ops, v, a.y, k) && multiplies(ops, v, a.z, k)
}

/// Is one component of a cross product exact.
pub open spec fn crosses<A: Arithmetic>(
    ops: &A,
    v: Reading,
    a: F64,
    b: F64,
    c: F64,
    d: F64,
) -> bool {
    &&& multiplies(ops, v, a, b)
    &&& multiplies(ops, v, c, d)
    &&& subtracts(ops, v, arithmetic::product(ops, a, b), arithmetic::product(ops, c, d))
}

/// Are eccentricity and perihelion distance found exactly from a position and a velocity.
pub open spec fn exact_conic<A: Arithmetic>(
    ops: &A,
    v: Reading,
    pos: Vector<Ecliptic>,
    vel: Vector<Ecliptic>,
    gm_sqrt: F64,
) -> bool {
    let w = vel.shrunk(ops, gm_sqrt);
    let k = elements::conic(ops, pos, vel, gm_sqrt);
    let one = F64 { bits: constants::ONE };
    let inverse = arithmetic::quotient(ops, one, k.p_mag);
    let factor = arithmetic::difference(ops, k.v_mag2, inverse);
    let (a, b) = (pos.scaled(ops, factor), w.scaled(ops, k.vp_mag));
    &&& divides(ops, v, vel.x, gm_sqrt)
    &&& divides(ops, v, vel.y, gm_sqrt)
    &&& divides(ops, v, vel.z, gm_sqrt)
    &&& dots(ops, v, w, w)
    &&& dots(ops, v, pos, pos) && roots(ops, v, pos.dotted(ops, pos))
    &&& dots(ops, v, pos, w)
    &&& divides(ops, v, one, k.p_mag)
    &&& subtracts(ops, v, k.v_mag2, inverse)
    &&& scales(ops, v, pos, factor)
    &&& scales(ops, v, w, k.vp_mag)
    &&& subtracts(ops, v, a.x, b.x)
    &&& subtracts(ops, v, a.y, b.y)
    &&& subtracts(ops, v, a.z, b.z)
    &&& crosses(ops, v, pos.y, w.z, pos.z, w.y)
    &&& crosses(ops, v, pos.z, w.x, pos.x, w.z)
    &&& crosses(ops, v, pos.x, w.y, pos.y, w.x)
    &&& dots(ops, v, k.ecc_vec, k.ecc_vec) && roots(ops, v, k.ecc_vec.dotted(ops, k.ecc_vec))
    &&& dots(ops, v, k.ang_vec, k.ang_vec) && roots(ops, v, k.ang_vec.dotted(ops, k.ang_vec))
    &&& squares(ops, v, k.ang_mag)
    &&& adds(ops, v, one, k.ecc)
    &&& divides(
        ops,
        v,
        ops.one(Unary::Squared, k.ang_mag),
        arithmetic::sum(ops, one, k.ecc),
    )
}

/// Sine and cosine of an angle, as real numbers.
pub open spec fn turn<A: Arithmetic>(ops: &A, v: Reading, angle: F64) -> Turn {
    Turn { sin: v(ops.one(Unary::Sin, angle)), cos: v(ops.one(Unary::Cos, angle)) }
}

/// Is the product of three numbers exact.
pub open spec fn multiplies_three<A: Arithmetic>(
    ops: &A,
    v: Reading,
    a: F64,
    b: F64,
    c: F64,
) -> bool {
    multiplies(ops, v, a, b) && multiplies(ops, v, arithmetic::product(ops, a, b), c)
}

/// Is a component of a vector in the plane of an orbit turned out exactly.
pub open spec fn combines<A: Arithmetic>(
    ops: &A,
    v: Reading,
    x: F64,
    p: F64,
    y: F64,
    q: F64,
) -> bool {
    &&& multiplies(ops, v, x, p)
    &&& multiplies(ops, v, y, q)
    &&& adds(ops, v, arithmetic::product(ops, x, p), arithmetic::product(ops, y, q))
}

/// Is the plane of the orbit turned into space exactly.
pub open spec fn exact_turn<A: Arithmetic>(
    ops: &A,
    v: Reading,
    e: CometElements,
    at: InPlane,
) -> bool {
    let s_w = ops.one(Unary::Sin, e.peri_arg);
    let c_w = ops.one(Unary::Cos, e.peri_arg);
    let s_o = ops.one(Unary::Sin, e.lon_of_ascending);
    let c_o = ops.one(Unary::Cos, e.lon_of_ascending);
    let s_i = ops.one(Unary::Sin, e.inclination);
    let c_i = ops.one(Unary::Cos, e.inclination);
    let (a, b) = (
        arithmetic::product(ops, c_w, c_o),
        arithmetic::product(ops, arithmetic::product(ops, s_w, s_o), c_i),
    );
    let (c, d) = (
        arithmetic::product(ops, c_w, s_o),
        arithmetic::product(ops, arithmetic::product(ops, s_w, c_o), c_i),
    );
    let (f, g) = (
        arithmetic::product(ops, s_w.negated(), c_o),
        arithmetic::product(ops, arithmetic::product(ops, c_w, s_o), c_i),
    );
    let (h, k) = (
        arithmetic::product(ops, s_w.negated(), s_o),
        arithmetic::product(ops, arithmetic::product(ops, c_w, c_o), c_i),
    );
    let px = arithmetic::difference(ops, a, b);
    let py = arithmetic::sum(ops, c, d);
    let pz = arithmetic::product(ops, s_w, s_i);
    let qx = arithmetic::difference(ops, f, g);
    let qy = arithmetic::sum(ops, h, k);
    let qz = arithmetic::product(ops, c_w, s_i);
    &&& turn(ops, v, e.peri_arg).exact()
    &&& turn(ops, v, e.lon_of_ascending).exact()
    &&& turn(ops, v, e.inclination).exact()
    &&& multiplies(ops, v, c_w, c_o) && multiplies_three(ops, v, s_w, s_o, c_i)
    &&& multiplies(ops, v, c_w, s_o) && multiplies_three(ops, v, s_w, c_o, c_i)
    &&& multiplies(ops, v, s_w.negated(), c_o) && multiplies_three(ops, v, c_w, s_o, c_i)
    &&& multiplies(ops, v, s_w.negated(), s_o) && multiplies_three(ops, v, c_w, c_o, c_i)
    &&& subtracts(ops, v, a, b) && adds(ops, v, c, d)
    &&& subtracts(ops, v, f, g) && adds(ops, v, h, k)
    &&& multiplies(ops, v, s_w, s_i) && multiplies(ops, v, c_w, s_i)
    &&& combines(ops, v, at.x, px, at.y, qx)
    &&& combines(ops, v, at.x, py, at.y, qy)
    &&& combines(ops, v, at.x, pz, at.y, qz)
    &&& combines(ops, v, at.x_dot, px, at.y_dot, qx)
    &&& combines(ops, v, at.x_dot, py, at.y_dot, qy)
    &&& combines(ops, v, at.x_dot, pz, at.y_dot, qz)
}

/// The axes of the plane of the orbit, as real numbers.
pub open spec fn axes<A: Arithmetic>(ops: &A, v: Reading, e: CometElements) -> (Triple, Triple) {
    let (w, o, i) = (
        turn(ops, v, e.peri_arg),
        turn(ops, v, e.lon_of_ascending),
        turn(ops, v, e.inclination),
    );
    (conics::toward(w, o, i), conics::across(w, o, i))
}

/// Position and velocity are the coordinates along the axes.
proof fn lemma_turned_out<A: Arithmetic>(ops: &A, v: Reading, e: CometElements, at: InPlane)
    requires
        plain(v),
        exact_turn(ops, v, e, at),
    ensures
        ({
            let m = e.turned_out(ops, at);
            let (p, q) = axes(ops, v, e);
            &&& read(v, m.pos) == conics::mix(v(at.x), p, v(at.y), q)
            &&& read(v, m.vel) == conics::mix(v(at.x_dot), p, v(at.y_dot), q)
        }),
{
}

/// Motion in the plane of an orbit, as real numbers and in units of the center.
pub struct Orbit {
    pub x: real,
    pub y: real,
    pub xd: real,
    pub yd: real,
    /// The eccentricity.
    pub e: real,
    /// The angular momentum.
    pub h: real,
    /// The distance.
    pub r: real,
}

impl Orbit {
    /// Are these the coordinates of an object on the conic of elements.
    pub open spec fn holds(self, v: Reading, e: CometElements, at: InPlane) -> bool {
        &&& conics::on_conic(self.x, self.y, self.xd, self.yd, self.e, self.h, self.r)
        &&& self.h * self.h == v(e.peri_dist) * (1real + v(e.eccentricity))
        &&& self.e == v(e.eccentricity)
        &&& v(at.x) == self.x
        &&& v(at.y) == self.y
        &&& v(at.x_dot) == self.xd * v(e.gm_sqrt)
        &&& v(at.y_dot) == self.yd * v(e.gm_sqrt)
    }
}

/// The velocity in units of the center.
proof fn lemma_unit_speed(k: real, s: real, t: real, p: real, q: real, w: real)
    requires
        0real < k,
        w * k == (s * k) * p + (t * k) * q,
    ensures
        w == s * p + t * q,
{
    rounding::lemma_order(s, k, p);
    rounding::lemma_order(t, k, q);
    conics::lemma_swap(s, k, p);
    conics::lemma_swap(t, k, q);
    rounding::lemma_order(s, p, 1real);
    rounding::lemma_order(t, q, 1real);
    rounding::lemma_spread(k, s * p, t * q, 0real);
    rounding::lemma_minus(k, 1real);
    rounding::lemma_order(w, k, 1real);
    conics::lemma_cancel(k, w, s * p + t * q);
}

/// From the coordinates of an object on a conic follow its distance, its eccentricity and its
/// perihelion distance.
proof fn lemma_elements<A: Arithmetic>(
    ops: &A,
    v: Reading,
    e: CometElements,
    at: InPlane,
    o: Orbit,
)
    requires
        plain(v),
        0real < v(e.gm_sqrt),
        0real <= v(e.eccentricity),
        o.holds(v, e, at),
        exact_turn(ops, v, e, at),
        exact_conic(
            ops,
            v,
            e.turned_out(ops, at).pos,
            e.turned_out(ops, at).vel,
            e.gm_sqrt,
        ),
    ensures
        ({
            let m = e.turned_out(ops, at);
            let k = elements::conic(ops, m.pos, m.vel, e.gm_sqrt);
            let (p, q) = axes(ops, v, e);
            &&& v(k.p_mag) == o.r
            &&& v(k.v_mag2) == o.xd * o.xd + o.yd * o.yd
            &&& v(k.vp_mag) == o.x * o.xd + o.y * o.yd
            &&& read(v, k.ecc_vec) == conics::times(o.e, p)
            &&& read(v, k.ang_vec) == conics::times(o.h, conics::cross(p, q))
            &&& v(k.ecc) == v(e.eccentricity)
            &&& v(k.ang_mag) == o.h
            &&& v(k.peri_dist) == v(e.peri_dist)
        }),
{
    let m = e.turned_out(ops, at);
    let k = elements::conic(ops, m.pos, m.vel, e.gm_sqrt);
    let (p, q) = axes(ops, v, e);
    let w = m.vel.shrunk(ops, e.gm_sqrt);
    let dist = v(e.peri_dist);
    let ecc = v(e.eccentricity);
    lemma_turned_out(ops, v, e, at);
    conics::lemma_axes(
        turn(ops, v, e.peri_arg),
        turn(ops, v, e.lon_of_ascending),
        turn(ops, v, e.inclination),
    );
    let c = v(e.gm_sqrt);
    lemma_unit_speed(c, o.xd, o.yd, p.x, q.x, v(w.x));
    lemma_unit_speed(c, o.xd, o.yd, p.y, q.y, v(w.y));
    lemma_unit_speed(c, o.xd, o.yd, p.z, q.z, v(w.z));
    let pos = read(v, m.pos);
    let vel = read(v, w);
    assert(pos == conics::mix(o.x, p, o.y, q));
    assert(vel == conics::mix(o.xd, p, o.yd, q));
    // the distance
    conics::lemma_mix_dot(o.x, o.y, o.x, o.y, p, q);
    conics::lemma_same_square(v(k.p_mag), o.r);
    let one = F64 { bits: constants::ONE };
    let u = v(arithmetic::quotient(ops, one, k.p_mag));
    conics::lemma_vectors(o.x, o.y, o.xd, o.yd, ecc, o.h, o.r, u, p, q);
    // the eccentricity
    let factor = v(k.v_mag2) - u;
    rounding::lemma_order(factor, pos.x, 1real);
    rounding::lemma_order(factor, pos.y, 1real);
    rounding::lemma_order(factor, pos.z, 1real);
    rounding::lemma_order(v(k.vp_mag), vel.x, 1real);
    rounding::lemma_order(v(k.vp_mag), vel.y, 1real);
    rounding::lemma_order(v(k.vp_mag), vel.z, 1real);
    conics::lemma_same_square(v(k.ecc), ecc);
    // the angular momentum and the perihelion distance
    conics::lemma_same_square(v(k.ang_mag), o.h);
    let found = v(k.peri_dist);
    assert(found * (1real + ecc) == dist * (1real + ecc));
    rounding::lemma_order(found, 1real + ecc, 1real);
    rounding::lemma_order(dist, 1real + ecc, 1real);
    conics::lemma_cancel(1real + ecc, found, dist);
}

/// Are the functions of an anomaly what they should be: the squares of sine and cosine add up to
/// one, and those of the hyperbolic functions differ by one.
pub open spec fn regular<A: Arithmetic>(ops: &A, v: Reading, anomaly: F64) -> bool {
    let s = v(ops.one(Unary::Sinh, anomaly));
    let c = v(ops.one(Unary::Cosh, anomaly));
    &&& turn(ops, v, anomaly).exact()
    &&& c * c - s * s == 1real
    &&& 1real <= c
}

/// Does an anomaly stand for perihelion.
pub open spec fn zero<A: Arithmetic>(ops: &A, v: Reading, anomaly: F64) -> bool {
    &&& v(anomaly) == 0real
    &&& v(ops.one(Unary::Sin, anomaly)) == 0real
    &&& v(ops.one(Unary::Cos, anomaly)) == 1real
    &&& v(ops.one(Unary::Sinh, anomaly)) == 0real
    &&& v(ops.one(Unary::Cosh, anomaly)) == 1real
}

/// The semi major axis to the power of one and a half is exact.
pub open spec fn powers<A: Arithmetic>(ops: &A, v: Reading, a: F64, size: real) -> bool {
    let r = v(ops.two(Binary::Power, a, F64 { bits: constants::ONE_AND_HALF }));
    0real < r && r * r == size * (size * size)
}

/// Is the place on an ellipse found exactly.
pub open spec fn exact_ellipse<A: Arithmetic>(
    ops: &A,
    v: Reading,
    e: CometElements,
    a: F64,
    anomaly: F64,
) -> bool {
    let one = F64 { bits: constants::ONE };
    let sine = ops.one(Unary::Sin, anomaly);
    let cosine = ops.one(Unary::Cos, anomaly);
    let power = ops.two(Binary::Power, a, F64 { bits: constants::ONE_AND_HALF });
    let part = arithmetic::product(ops, e.eccentricity, cosine);
    let rest = arithmetic::difference(ops, one, part);
    let e_dot = arithmetic::product(ops, power, rest);
    let square = ops.one(Unary::Squared, e.eccentricity);
    let inside = arithmetic::difference(ops, one, square);
    let root = ops.one(Unary::Sqrt, inside);
    let b = arithmetic::product(ops, a, root);
    let ahead = arithmetic::difference(ops, cosine, e.eccentricity);
    let along = arithmetic::quotient(ops, a.negated(), e_dot);
    let aside = arithmetic::quotient(ops, b, e_dot);
    &&& powers(ops, v, a, v(a))
    &&& multiplies(ops, v, e.eccentricity, cosine) && subtracts(ops, v, one, part)
    &&& multiplies(ops, v, power, rest)
    &&& squares(ops, v, e.eccentricity) && subtracts(ops, v, one, square) && roots(ops, v, inside)
    &&& multiplies(ops, v, a, root)
    &&& subtracts(ops, v, cosine, e.eccentricity) && multiplies(ops, v, a, ahead)
    &&& multiplies(ops, v, b, sine)
    &&& divides(ops, v, a.negated(), e_dot) && multiplies_three(ops, v, along, sine, e.gm_sqrt)
    &&& divides(ops, v, b, e_dot) && multiplies_three(ops, v, aside, cosine, e.gm_sqrt)
}

/// Is the place on a hyperbola found exactly.
pub open spec fn exact_hyperbola<A: Arithmetic>(
    ops: &A,
    v: Reading,
    e: CometElements,
    a: F64,
    anomaly: F64,
) -> bool {
    let one = F64 { bits: constants::ONE };
    let sine = ops.one(Unary::Sinh, anomaly);
    let cosine = ops.one(Unary::Cosh, anomaly);
    let power = ops.two(Binary::Power, a.abs_value(), F64 { bits: constants::ONE_AND_HALF });
    let part = arithmetic::product(ops, e.eccentricity, cosine);
    let rest = arithmetic::difference(ops, one, part);
    let h_dot = arithmetic::product(ops, power, rest);
    let square = ops.one(Unary::Squared, e.eccentricity);
    let inside = arithmetic::difference(ops, square, one);
    let root = ops.one(Unary::Sqrt, inside);
    let b = arithmetic::product(ops, a.negated(), root);
    let ahead = arithmetic::difference(ops, cosine, e.eccentricity);
    let along = arithmetic::quotient(ops, a.negated(), h_dot);
    let aside = arithmetic::quotient(ops, b.negated(), h_dot);
    &&& powers(ops, v, a.abs_value(), -v(a))
    &&& multiplies(ops, v, e.eccentricity, cosine) && subtracts(ops, v, one, part)
    &&& multiplies(ops, v, power, rest)
    &&& squares(ops, v, e.eccentricity) && subtracts(ops, v, square, one) && roots(ops, v, inside)
    &&& multiplies(ops, v, a.negated(), root)
    &&& subtracts(ops, v, cosine, e.eccentricity) && multiplies(ops, v, a, ahead)
    &&& multiplies(ops, v, b, sine)
    &&& divides(ops, v, a.negated(), h_dot) && multiplies_three(ops, v, along, sine, e.gm_sqrt)
    &&& divides(ops, v, b.negated(), h_dot) && multiplies_three(ops, v, aside, cosine, e.gm_sqrt)
}

/// Is the place on a parabola found exactly.
pub open spec fn exact_parabola<A: Arithmetic>(
    ops: &A,
    v: Reading,
    e: CometElements,
    anomaly: F64,
) -> bool {
    let two = F64 { bits: constants::TWO };
    let square = ops.one(Unary::Squared, anomaly);
    let half = arithmetic::quotient(ops, square, two);
    let d_dot = arithmetic::sum(ops, e.peri_dist, half);
    let double = arithmetic::product(ops, two, e.peri_dist);
    let root = ops.one(Unary::Sqrt, double);
    let along = arithmetic::quotient(ops, anomaly.negated(), d_dot);
    let aside = arithmetic::quotient(ops, root, d_dot);
    &&& squares(ops, v, anomaly) && divides(ops, v, square, two)
    &&& adds(ops, v, e.peri_dist, half) && subtracts(ops, v, e.peri_dist, half)
    &&& multiplies(ops, v, two, e.peri_dist) && roots(ops, v, double)
    &&& multiplies(ops, v, root, anomaly)
    &&& divides(ops, v, anomaly.negated(), d_dot) && multiplies(ops, v, along, e.gm_sqrt)
    &&& divides(ops, v, root, d_dot) && multiplies(ops, v, aside, e.gm_sqrt)
}

/// A number is positive where its product with a positive one is.
pub proof fn lemma_positive_factor(a: real, m: real)
    requires
        0real < m,
        0real < a * m,
    ensures
        0real < a,
{
    rounding::lemma_order(a, m, 1real);
    rounding::lemma_minus(m, a);
    rounding::lemma_minus(m, 1real);
    if a < 0real {
        conics::lemma_positive(m, -a);
    }
}

/// The product of sum and difference.
pub proof fn lemma_difference_of_squares(e: real)
    ensures
        (1real - e) * (1real + e) == 1real - e * e,
        (e - 1real) * (1real + e) == e * e - 1real,
{
    conics::lemma_foil(1real, -e, 1real, e);
    conics::lemma_foil(e, -1real, 1real, e);
    rounding::lemma_minus(1real, e);
    rounding::lemma_minus(e, 1real);
    rounding::lemma_minus(e, e);
    rounding::lemma_order(-e, 1real, 1real);
    rounding::lemma_order(-e, e, 1real);
    rounding::lemma_order(1real, e, 1real);
    rounding::lemma_order(-1real, 1real, 1real);
    rounding::lemma_order(-1real, e, 1real);
    rounding::lemma_minus(1real, 1real);
    rounding::lemma_order(e, 1real, 1real);
}

impl CometElements {
    /// The semi minor axis of an ellipse with the semi major axis `a`.
    pub open spec fn short_axis<A: Arithmetic>(&self, ops: &A, a: F64) -> F64 {
        let one = F64 { bits: constants::ONE };
        let square = ops.one(Unary::Squared, self.eccentricity);
        let root = ops.one(Unary::Sqrt, arithmetic::difference(ops, one, square));
        arithmetic::product(ops, a, root)
    }

    /// The semi minor axis of a hyperbola with the semi major axis `a`.
    pub open spec fn long_axis<A: Arithmetic>(&self, ops: &A, a: F64) -> F64 {
        let one = F64 { bits: constants::ONE };
        let square = ops.one(Unary::Squared, self.eccentricity);
        let root = ops.one(Unary::Sqrt, arithmetic::difference(ops, square, one));
        arithmetic::product(ops, a.negated(), root)
    }
}

/// The root of a positive number is positive.
pub proof fn lemma_positive_root(r: real)
    requires
        0real <= r,
        0real < r * r,
    ensures
        0real < r,
{
    rounding::lemma_minus(r, 1real);
}

/// An object on an ellipse.
proof fn lemma_on_ellipse<A: Arithmetic>(
    ops: &A,
    v: Reading,
    e: CometElements,
    a: F64,
    anomaly: F64,
) -> (o: Orbit)
    requires
        plain(v),
        regular(ops, v, anomaly),
        exact_ellipse(ops, v, e, a, anomaly),
        0real <= v(e.eccentricity) < 1real,
        0real < v(e.peri_dist),
        v(a) * (1real - v(e.eccentricity)) == v(e.peri_dist),
    ensures
        o.holds(v, e, e.on_ellipse(ops, a, anomaly)),
        zero(ops, v, anomaly) ==> o.r == v(e.peri_dist),
        0real < v(a),
        0real < v(e.short_axis(ops, a)),
        v(e.short_axis(ops, a)) * v(e.short_axis(ops, a)) == (v(a) * v(a)) * (1real
            - v(e.eccentricity) * v(e.eccentricity)),
        o.x == v(a) * (v(ops.one(Unary::Cos, anomaly)) - v(e.eccentricity)),
        o.y == v(e.short_axis(ops, a)) * v(ops.one(Unary::Sin, anomaly)),
{
    let one = F64 { bits: constants::ONE };
    let x = v(e.eccentricity);
    let (s, c) = (v(ops.one(Unary::Sin, anomaly)), v(ops.one(Unary::Cos, anomaly)));
    let power = ops.two(Binary::Power, a, F64 { bits: constants::ONE_AND_HALF });
    let part = arithmetic::product(ops, e.eccentricity, ops.one(Unary::Cos, anomaly));
    let e_dot = arithmetic::product(ops, power, arithmetic::difference(ops, one, part));
    let square = ops.one(Unary::Squared, e.eccentricity);
    let root = ops.one(Unary::Sqrt, arithmetic::difference(ops, one, square));
    let b = arithmetic::product(ops, a, root);
    let f = v(arithmetic::quotient(ops, a.negated(), e_dot));
    let g = v(arithmetic::quotient(ops, b, e_dot));
    let l = 1real - x * c;
    let p = 1real - x * x;
    conics::lemma_inside(x, c, s);
    conics::lemma_shape(x, c);
    lemma_positive_factor(v(a), 1real - x);
    lemma_positive_root(v(root));
    conics::lemma_positive(v(a), v(root));
    rounding::lemma_factors(v(a), v(root), v(a), v(root));
    conics::lemma_point(v(a), v(b), x, c, s, v(power), l, c - x, p, f, g);
    // the angular momentum
    lemma_difference_of_squares(x);
    rounding::lemma_order(v(a), 1real - x, 1real + x);
    rounding::lemma_minus(x, 1real);
    Orbit {
        x: v(a) * (c - x),
        y: v(b) * s,
        xd: f * s,
        yd: g * c,
        e: x,
        h: v(a) * (g * l),
        r: v(a) * l,
    }
}

/// An object on a hyperbola.
proof fn lemma_on_hyperbola<A: Arithmetic>(
    ops: &A,
    v: Reading,
    e: CometElements,
    a: F64,
    anomaly: F64,
) -> (o: Orbit)
    requires
        plain(v),
        regular(ops, v, anomaly),
        exact_hyperbola(ops, v, e, a, anomaly),
        1real < v(e.eccentricity),
        0real < v(e.peri_dist),
        v(a) * (1real - v(e.eccentricity)) == v(e.peri_dist),
    ensures
        o.holds(v, e, e.on_hyperbola(ops, a, anomaly)),
        zero(ops, v, anomaly) ==> o.r == v(e.peri_dist),
        0real < -v(a),
        0real < v(e.long_axis(ops, a)),
        v(e.long_axis(ops, a)) * v(e.long_axis(ops, a)) == ((-v(a)) * (-v(a))) * (v(e.eccentricity)
            * v(e.eccentricity) - 1real),
        o.x == (-v(a)) * (v(e.eccentricity) - v(ops.one(Unary::Cosh, anomaly))),
        o.y == v(e.long_axis(ops, a)) * v(ops.one(Unary::Sinh, anomaly)),
{
    let one = F64 { bits: constants::ONE };
    let x = v(e.eccentricity);
    let m = x - 1real;
    let size = -v(a);
    let (s, c) = (v(ops.one(Unary::Sinh, anomaly)), v(ops.one(Unary::Cosh, anomaly)));
    let power = ops.two(Binary::Power, a.abs_value(), F64 { bits: constants::ONE_AND_HALF });
    let part = arithmetic::product(ops, e.eccentricity, ops.one(Unary::Cosh, anomaly));
    let h_dot = arithmetic::product(ops, power, arithmetic::difference(ops, one, part));
    let square = ops.one(Unary::Squared, e.eccentricity);
    let root = ops.one(Unary::Sqrt, arithmetic::difference(ops, square, one));
    let b = arithmetic::product(ops, a.negated(), root);
    let f = v(arithmetic::quotient(ops, a.negated(), h_dot));
    let g = v(arithmetic::quotient(ops, b.negated(), h_dot));
    let l = x * c - 1real;
    let p = x * x - 1real;
    let d = x - c;
    // the distance
    rounding::lemma_minus(v(a), m);
    rounding::lemma_order(size, m, 1real);
    rounding::lemma_minus(m, v(a));
    rounding::lemma_order(m, v(a), 1real);
    assert(v(e.peri_dist) == size * m);
    lemma_positive_factor(size, m);
    rounding::lemma_spread(x, c, -1real, 0real);
    rounding::lemma_minus(x, 1real);
    if 1real < c {
        conics::lemma_positive(x, c - 1real);
    }
    assert(0real < l);
    // the shape
    conics::lemma_shape(x, c);
    conics::lemma_square(l);
    conics::lemma_square(d);
    rounding::lemma_minus(-p, s * s);
    rounding::lemma_order(-p, s * s, 1real);
    rounding::lemma_minus(s * s, p);
    rounding::lemma_order(s * s, p, 1real);
    assert(l * l == d * d + p * (s * s));
    rounding::lemma_minus(x, d);
    assert(l + x * d == p);
    rounding::lemma_minus(x, l);
    rounding::lemma_minus(c, p);
    assert(x * l + d == c * p);
    // the axes
    lemma_difference_of_squares(x);
    conics::lemma_positive(m, 1real + x);
    lemma_positive_root(v(root));
    conics::lemma_positive(size, v(root));
    rounding::lemma_factors(size, v(root), size, v(root));
    rounding::lemma_minus(v(power), l);
    assert(v(h_dot) == -(v(power) * l));
    rounding::lemma_minus(f, v(power) * l);
    rounding::lemma_minus(g, v(power) * l);
    conics::lemma_point(size, v(b), x, c, s, v(power), l, d, p, f, g);
    rounding::lemma_order(size, m, 1real + x);
    // the coordinate along the axis
    rounding::lemma_minus(v(a), d);
    rounding::lemma_minus(d, v(a));
    rounding::lemma_order(d, v(a), 1real);
    rounding::lemma_order(size, d, 1real);
    Orbit { x: size * d, y: v(b) * s, xd: f * s, yd: g * c, e: x, h: size * (g * l), r: size * l }
}

/// An object on a parabola.
proof fn lemma_on_parabola<A: Arithmetic>(
    ops: &A,
    v: Reading,
    e: CometElements,
    anomaly: F64,
) -> (o: Orbit)
    requires
        plain(v),
        exact_parabola(ops, v, e, anomaly),
        v(e.eccentricity) == 1real,
        0real < v(e.peri_dist),
    ensures
        o.holds(v, e, e.on_parabola(ops, anomaly)),
        zero(ops, v, anomaly) ==> o.r == v(e.peri_dist),
        o.h * o.h == 2real * v(e.peri_dist),
        o.y == o.h * v(anomaly),
        o.x + o.r == 2real * v(e.peri_dist),
        o.r - o.x == v(anomaly) * v(anomaly),
{
    let two = F64 { bits: constants::TWO };
    let q = v(e.peri_dist);
    let d = v(anomaly);
    let square = ops.one(Unary::Squared, anomaly);
    let half = arithmetic::quotient(ops, square, two);
    let d_dot = arithmetic::sum(ops, e.peri_dist, half);
    let root = ops.one(Unary::Sqrt, arithmetic::product(ops, two, e.peri_dist));
    let f = v(arithmetic::quotient(ops, anomaly.negated(), d_dot));
    let g = v(arithmetic::quotient(ops, root, d_dot));
    let t = v(half);
    let b = v(root);
    let (r, x, y) = (q + t, q - t, b * d);
    rounding::lemma_order(t, 2real, 1real);
    conics::lemma_square(d);
    assert(d * d == 2real * t);
    lemma_positive_root(b);
    // the distance
    conics::lemma_foil(q, t, q, t);
    conics::lemma_foil(q, -t, q, -t);
    rounding::lemma_minus(q, t);
    rounding::lemma_order(-t, q, 1real);
    conics::lemma_square(t);
    rounding::lemma_order(t, q, 1real);
    rounding::lemma_factors(b, d, b, d);
    rounding::lemma_factors(2real, q, 2real, t);
    assert((2real * q) * (2real * t) == 4real * (q * t)) by {
        rounding::lemma_order(2real * q, 2real, t);
        rounding::lemma_order(2real * q, 2real, 1real);
        rounding::lemma_order(4real, q, t);
    }
    assert(r * r == x * x + y * y);
    // the speed
    rounding::lemma_minus(b, d);
    rounding::lemma_minus(q, 1real);
    rounding::lemma_minus(r, 1real);
    rounding::lemma_order(1real, r, 1real);
    rounding::lemma_order(1real, x, 1real);
    rounding::lemma_minus(x, 1real);
    rounding::lemma_order(q, 2real, 1real);
    rounding::lemma_minus(d, 1real);
    if d == 0real {
        rounding::lemma_minus(0real, 1real);
    }
    Orbit { x, y, xd: f, yd: g, e: 1real, h: b, r }
}

/// Is the place in the plane of the orbit found exactly, on a conic of the kind which the
/// eccentricity tells.
pub open spec fn exact_place<A: Physics>(
    ops: &A,
    v: Reading,
    e: CometElements,
    anomaly: F64,
) -> bool {
    let c = ops.values();
    let one = F64 { bits: constants::ONE };
    let a = e.working_axis(ops, c);
    let left = arithmetic::difference(ops, one, e.eccentricity);
    if e.elliptical(ops, c) {
        &&& v(e.eccentricity) < 1real
        &&& subtracts(ops, v, one, e.eccentricity) && divides(ops, v, e.peri_dist, left)
        &&& exact_ellipse(ops, v, e, a, anomaly)
    } else if e.hyperbolic(ops, c) {
        &&& 1real < v(e.eccentricity)
        &&& subtracts(ops, v, one, e.eccentricity) && divides(ops, v, e.peri_dist, left)
        &&& exact_hyperbola(ops, v, e, a, anomaly)
    } else {
        &&& v(e.eccentricity) == 1real
        &&& exact_parabola(ops, v, e, anomaly)
    }
}

/// Where in the plane of its orbit an object with the given eccentric anomaly is.
pub open spec fn place<A: Physics>(ops: &A, e: CometElements, anomaly: F64) -> InPlane {
    let c = ops.values();
    let a = e.working_axis(ops, c);
    if e.elliptical(ops, c) {
        e.on_ellipse(ops, a, anomaly)
    } else if e.hyperbolic(ops, c) {
        e.on_hyperbola(ops, a, anomaly)
    } else {
        e.on_parabola(ops, anomaly)
    }
}

/// The mean anomaly by which the position is found is zero at the time of perihelion.
pub proof fn law_time_of_perihelion<A: Physics>(ops: &A, v: Reading, e: CometElements)
    requires
        e.epoch.jd == e.peri_time.jd,
        subtracts(ops, v, e.epoch.jd, e.peri_time.jd),
        ({
            let elapsed = arithmetic::difference(ops, e.epoch.jd, e.peri_time.jd);
            forall|n: F64| #[trigger] multiplies(ops, v, n, elapsed)
        }),
    ensures
        v(e.working_anomaly(ops, ops.values())) == 0real,
{
    let elapsed = arithmetic::difference(ops, e.epoch.jd, e.peri_time.jd);
    let c = ops.values();
    let axis = e.working_axis(ops, c).abs_value();
    let power = (F64 { bits: constants::ONE_AND_HALF }).negated();
    let n = if e.elliptical(ops, c) || e.hyperbolic(ops, c) {
        arithmetic::product(ops, ops.two(Binary::Power, axis, power), e.gm_sqrt)
    } else {
        e.gm_sqrt
    };
    assert(multiplies(ops, v, n, elapsed));
    rounding::lemma_minus(v(n), 1real);
}

/// The elements of the position and the velocity which elements lead to have the same eccentricity
/// and the same perihelion distance again: anywhere on an ellipse, a parabola or a hyperbola, with
/// any angles, where no rounding comes in between. At perihelion the object is as far from the
/// center as the perihelion distance tells. What rounding makes of this is told in `accuracy` and
/// `perihelion`.
pub proof fn law_elements_come_back<A: Physics>(
    ops: &A,
    v: Reading,
    e: CometElements,
    anomaly: F64,
    desig: Desig,
)
    requires
        plain(v),
        0real < v(e.gm_sqrt),
        0real < v(e.peri_dist),
        0real <= v(e.eccentricity),
        ops.eccentric(
            e.eccentricity,
            e.working_anomaly(ops, ops.values()),
            e.peri_dist,
        ) == Ok::<F64, Error>(anomaly),
        regular(ops, v, anomaly),
        exact_place(ops, v, e, anomaly),
        exact_turn(ops, v, e, place(ops, e, anomaly)),
        exact_conic(
            ops,
            v,
            e.turned_out(ops, place(ops, e, anomaly)).pos,
            e.turned_out(ops, place(ops, e, anomaly)).vel,
            e.gm_sqrt,
        ),
    ensures
        ({
            let m = e.turned_out(ops, place(ops, e, anomaly));
            let again = CometElements::of_motion(
                ops,
                ops.values(),
                desig,
                e.epoch,
                m,
                e.center_id,
                e.gm_sqrt,
            );
            &&& e.motion(ops) == Ok::<Motion<Ecliptic>, Error>(m)
            &&& zero(ops, v, anomaly) ==> v(m.pos.length(ops)) == v(e.peri_dist)
            &&& v(again.eccentricity) == v(e.eccentricity)
            &&& v(again.peri_dist) == v(e.peri_dist)
            &&& again.desig == desig
            &&& again.epoch == e.epoch
            &&& again.center_id == e.center_id
            &&& again.gm_sqrt == e.gm_sqrt
        }),
{
    let c = ops.values();
    let a = e.working_axis(ops, c);
    let o = if e.elliptical(ops, c) {
        lemma_on_ellipse(ops, v, e, a, anomaly)
    } else if e.hyperbolic(ops, c) {
        lemma_on_hyperbola(ops, v, e, a, anomaly)
    } else {
        lemma_on_parabola(ops, v, e, anomaly)
    };
    lemma_elements(ops, v, e, place(ops, e, anomaly), o);
}

/// Is an angle found exactly from its cosine: between zero and half a turn.
pub open spec fn exact_acos<A: Arithmetic>(ops: &A, v: Reading, cosine: F64) -> bool {
    let t = turn(ops, v, ops.one(Unary::Acos, cosine));
    t.exact() && t.cos == v(cosine) && 0real <= t.sin
}

/// Is the angle of a point found exactly.
pub open spec fn exact_atan2<A: Arithmetic>(ops: &A, v: Reading, y: F64, x: F64) -> bool {
    let t = turn(ops, v, ops.two(Binary::Atan2, y, x));
    &&& t.exact()
    &&& t.cos * v(y) == t.sin * v(x)
    &&& 0real <= t.cos * v(x) + t.sin * v(y)
}

/// Is an angle turned back exactly.
pub open spec fn exact_back<A: Arithmetic>(ops: &A, v: Reading, angle: F64) -> bool {
    let back = arithmetic::difference(ops, F64 { bits: elements::TAU }, angle);
    turn(ops, v, back) == conics::mirrored(turn(ops, v, angle))
}

/// Does the reading know whether a number is negative.
pub open spec fn signed(v: Reading, x: F64) -> bool {
    x.spec_lt(F64 { bits: constants::ZERO }) <==> v(x) < 0real
}

/// Are the angles of an orbit found exactly, where it is no circle, and where it is in the ecliptic
/// if it is nearly so.
pub open spec fn exact_angles<A: Arithmetic>(ops: &A, v: Reading, k: elements::Conic) -> bool {
    let zero = F64 { bits: constants::ZERO };
    let nearly = F64 { bits: elements::NEARLY_ZERO };
    let one = F64 { bits: constants::ONE };
    let across = frames::vector::<Ecliptic>(k.ang_vec.y.negated(), k.ang_vec.x, zero);
    let slope = arithmetic::quotient(ops, k.ang_vec.z, k.ang_mag);
    let nx = arithmetic::quotient(ops, k.node_vec.x, k.node_mag);
    let ny = arithmetic::quotient(ops, k.node_vec.y, k.node_mag);
    let along = k.node_vec.dotted(ops, k.ecc_vec);
    let sizes = arithmetic::product(ops, k.ecc, k.node_mag);
    let ratio = arithmetic::quotient(ops, along, sizes);
    let cosine = numbers::within(ratio, one.negated(), one);
    &&& turn(ops, v, zero) == (Turn { sin: 0real, cos: 1real })
    &&& !k.ecc.spec_lt(nearly)
    &&& divides(ops, v, k.ang_vec.z, k.ang_mag) && exact_acos(ops, v, slope)
    &&& dots(ops, v, across, across) && roots(ops, v, across.dotted(ops, across))
    &&& k.node_mag.spec_lt(nearly) <==> v(k.node_mag) == 0real
    &&& if k.node_mag.spec_lt(nearly) {
        &&& exact_atan2(ops, v, k.ecc_vec.y, k.ecc_vec.x)
        &&& exact_back(ops, v, ops.two(Binary::Atan2, k.ecc_vec.y, k.ecc_vec.x))
        &&& signed(v, k.ang_vec.z)
    } else {
        &&& divides(ops, v, k.node_vec.x, k.node_mag) && divides(ops, v, k.node_vec.y, k.node_mag)
        &&& exact_atan2(ops, v, ny, nx)
        &&& dots(ops, v, k.node_vec, k.ecc_vec)
        &&& multiplies(ops, v, k.ecc, k.node_mag) && divides(ops, v, along, sizes)
        &&& v(cosine) == v(ratio) && exact_acos(ops, v, cosine)
        &&& exact_back(ops, v, ops.one(Unary::Acos, cosine))
        &&& signed(v, k.ecc_vec.z)
    }
}

/// The angles of a conic.
pub open spec fn angles<A: Arithmetic>(
    ops: &A,
    v: Reading,
    k: elements::Conic,
) -> (Turn, Turn, Turn) {
    (
        turn(ops, v, elements::perihelion_argument(ops, k)),
        turn(ops, v, elements::node_longitude(ops, k)),
        turn(
            ops,
            v,
            ops.one(Unary::Acos, arithmetic::quotient(ops, k.ang_vec.z, k.ang_mag)),
        ),
    )
}

/// The angles of an orbit which is not in the ecliptic, with a positive inclination.
proof fn lemma_inclined<A: Arithmetic>(
    ops: &A,
    v: Reading,
    k: elements::Conic,
    w: Turn,
    o: Turn,
    i: Turn,
)
    requires
        plain(v),
        exact_angles(ops, v, k),
        w.exact() && o.exact() && i.exact(),
        0real < i.sin,
        0real < v(k.ecc),
        0real < v(k.ang_mag),
        read(v, k.ecc_vec) == conics::times(v(k.ecc), conics::toward(w, o, i)),
        read(v, k.ang_vec) == conics::times(
            v(k.ang_mag),
            Triple { x: i.sin * o.sin, y: -(i.sin * o.cos), z: i.cos },
        ),
        !k.node_mag.spec_lt(F64 { bits: elements::NEARLY_ZERO }),
        k.node_vec == frames::vector::<Ecliptic>(
            k.ang_vec.y.negated(),
            k.ang_vec.x,
            F64 { bits: constants::ZERO },
        ),
        k.node_mag == k.node_vec.length(ops),
    ensures
        angles(ops, v, k) == (w, o, i),
{
    let (e, h, nm) = (v(k.ecc), v(k.ang_mag), v(k.node_mag));
    let (s, c) = (o.sin, o.cos);
    let big = h * i.sin;
    conics::lemma_positive(h, i.sin);
    // the inclination
    let slope = v(arithmetic::quotient(ops, k.ang_vec.z, k.ang_mag));
    rounding::lemma_order(slope, h, 1real);
    conics::lemma_cancel(h, slope, i.cos);
    conics::lemma_same_turn(angles(ops, v, k).2, i);
    // towards the node
    rounding::lemma_minus(h, i.sin * c);
    rounding::lemma_order(h, i.sin, c);
    rounding::lemma_order(h, i.sin, s);
    let (x, y) = (v(k.node_vec.x), v(k.node_vec.y));
    assert(x == big * c);
    assert(y == big * s);
    rounding::lemma_factors(big, c, big, c);
    rounding::lemma_factors(big, s, big, s);
    rounding::lemma_spread(big * big, c * c, s * s, 0real);
    rounding::lemma_minus(big * big, 1real);
    rounding::lemma_minus(0real, 1real);
    conics::lemma_same_square(nm, big);
    let nx = v(arithmetic::quotient(ops, k.node_vec.x, k.node_mag));
    let ny = v(arithmetic::quotient(ops, k.node_vec.y, k.node_mag));
    rounding::lemma_order(nx, big, 1real);
    rounding::lemma_order(ny, big, 1real);
    conics::lemma_cancel(big, nx, c);
    conics::lemma_cancel(big, ny, s);
    let t = angles(ops, v, k).1;
    conics::lemma_angle_of(t, c, s, 1real);
    rounding::lemma_minus(t.cos, 1real);
    rounding::lemma_minus(t.sin, 1real);
    assert(t == o);
    // the argument of perihelion
    let p = conics::toward(w, o, i);
    conics::lemma_from_node(w, o, i);
    rounding::lemma_factors(big, c, e, p.x);
    rounding::lemma_factors(big, s, e, p.y);
    rounding::lemma_order(0real, e * p.z, 1real);
    rounding::lemma_minus(e * p.z, 1real);
    rounding::lemma_spread(big * e, c * p.x, s * p.y, 0real);
    rounding::lemma_minus(big * e, 1real);
    rounding::lemma_order(big, e, 1real);
    conics::lemma_positive(e, big);
    let along = k.node_vec.dotted(ops, k.ecc_vec);
    let sizes = arithmetic::product(ops, k.ecc, k.node_mag);
    let ratio = v(arithmetic::quotient(ops, along, sizes));
    assert(v(along) == (e * big) * w.cos);
    rounding::lemma_order(ratio, e * big, 1real);
    conics::lemma_cancel(e * big, ratio, w.cos);
    // which side it is on
    rounding::lemma_order(e, w.sin, i.sin);
    rounding::lemma_order(e, i.sin, w.sin);
    conics::lemma_positive(e, i.sin);
    rounding::lemma_order(w.sin, i.sin, 1real);
    let k2 = e * i.sin;
    assert(v(k.ecc_vec.z) == k2 * w.sin);
    rounding::lemma_minus(k2, w.sin);
    rounding::lemma_minus(k2, 1real);
    if w.sin < 0real {
        conics::lemma_positive(k2, -w.sin);
    } else if 0real < w.sin {
        conics::lemma_positive(k2, w.sin);
    }
    let u = angles(ops, v, k).0;
    conics::lemma_square(turn(ops, v, ops.one(Unary::Acos, numbers::within(
        arithmetic::quotient(ops, along, sizes),
        (F64 { bits: constants::ONE }).negated(),
        F64 { bits: constants::ONE },
    ))).sin);
    conics::lemma_same_turn(u, w);
}

/// The axes of an orbit in the ecliptic.
proof fn lemma_flat<A: Arithmetic>(
    ops: &A,
    v: Reading,
    k: elements::Conic,
    w: Turn,
    o: Turn,
    i: Turn,
)
    requires
        plain(v),
        exact_angles(ops, v, k),
        w.exact() && o.exact() && i.exact(),
        i.sin == 0real,
        0real < v(k.ecc),
        0real < v(k.ang_mag),
        read(v, k.ecc_vec) == conics::times(v(k.ecc), conics::toward(w, o, i)),
        v(k.ang_vec.z) == v(k.ang_mag) * i.cos,
        k.node_mag.spec_lt(F64 { bits: elements::NEARLY_ZERO }),
    ensures
        ({
            let (a, b, c) = angles(ops, v, k);
            &&& conics::toward(a, b, c) == conics::toward(w, o, i)
            &&& conics::across(a, b, c) == conics::across(w, o, i)
        }),
{
    let (e, h) = (v(k.ecc), v(k.ang_mag));
    let (p, q) = (conics::toward(w, o, i), conics::across(w, o, i));
    let (a, b, c) = angles(ops, v, k);
    conics::lemma_axes(w, o, i);
    rounding::lemma_minus(0real, 1real);
    rounding::lemma_minus(w.sin, 1real);
    rounding::lemma_minus(w.cos, 1real);
    // up or down
    conics::lemma_square(i.cos);
    conics::lemma_square(1real);
    rounding::lemma_minus(1real, 1real);
    if 0real <= i.cos {
        conics::lemma_same_square(i.cos, 1real);
    } else {
        conics::lemma_same_square(-i.cos, 1real);
    }
    let slope = v(arithmetic::quotient(ops, k.ang_vec.z, k.ang_mag));
    rounding::lemma_order(slope, h, 1real);
    conics::lemma_cancel(h, slope, i.cos);
    conics::lemma_same_turn(c, i);
    rounding::lemma_minus(h, 1real);
    // the direction of perihelion
    let t = turn(ops, v, ops.two(Binary::Atan2, k.ecc_vec.y, k.ecc_vec.x));
    rounding::lemma_factors(e, p.x, e, p.x);
    rounding::lemma_factors(e, p.y, e, p.y);
    rounding::lemma_spread(e * e, p.x * p.x, p.y * p.y, 0real);
    rounding::lemma_minus(e * e, 1real);
    rounding::lemma_minus(p.z, 1real);
    conics::lemma_angle_of(t, v(k.ecc_vec.x), v(k.ecc_vec.y), e);
    rounding::lemma_order(t.cos, e, 1real);
    rounding::lemma_order(t.sin, e, 1real);
    conics::lemma_cancel(e, t.cos, p.x);
    conics::lemma_cancel(e, t.sin, p.y);
    // the axes of the angles which are found
    rounding::lemma_minus(a.cos, 1real);
    rounding::lemma_minus(a.sin, 1real);
    rounding::lemma_minus(-a.sin, 1real);
    rounding::lemma_order(0real, i.cos, 1real);
    rounding::lemma_minus(i.cos, 1real);
    rounding::lemma_order(a.sin, i.cos, 1real);
    rounding::lemma_minus(a.sin, a.sin);
    rounding::lemma_minus(p.y, 1real);
    rounding::lemma_minus(-p.y, 1real);
    rounding::lemma_minus(p.x, 1real);
    // and those of the orbit
    rounding::lemma_minus(w.sin * o.cos, 1real);
    rounding::lemma_minus(w.sin * o.sin, 1real);
    rounding::lemma_minus(w.cos * o.cos, 1real);
    rounding::lemma_minus(w.cos * o.sin, 1real);
    rounding::lemma_order(-w.sin, o.cos, 1real);
    rounding::lemma_minus(o.cos, w.sin);
    rounding::lemma_order(o.cos, w.sin, 1real);
    rounding::lemma_order(-w.sin, o.sin, 1real);
    rounding::lemma_minus(o.sin, w.sin);
    rounding::lemma_order(o.sin, w.sin, 1real);
}

/// The angles which are found turn the plane of the orbit as those it was made of.
proof fn lemma_axes_back<A: Arithmetic>(
    ops: &A,
    v: Reading,
    k: elements::Conic,
    w: Turn,
    o: Turn,
    i: Turn,
)
    requires
        plain(v),
        exact_angles(ops, v, k),
        w.exact() && o.exact() && i.exact(),
        0real < v(k.ecc),
        0real < v(k.ang_mag),
        read(v, k.ecc_vec) == conics::times(v(k.ecc), conics::toward(w, o, i)),
        read(v, k.ang_vec) == conics::times(
            v(k.ang_mag),
            conics::cross(conics::toward(w, o, i), conics::across(w, o, i)),
        ),
        ({
            let zero = F64 { bits: constants::ZERO };
            let across = frames::vector::<Ecliptic>(k.ang_vec.y.negated(), k.ang_vec.x, zero);
            &&& k.node_mag == across.length(ops)
            &&& !k.node_mag.spec_lt(F64 { bits: elements::NEARLY_ZERO }) ==> k.node_vec == across
        }),
    ensures
        ({
            let (a, b, c) = angles(ops, v, k);
            &&& conics::toward(a, b, c) == conics::toward(w, o, i)
            &&& conics::across(a, b, c) == conics::across(w, o, i)
        }),
{
    let h = v(k.ang_mag);
    let zero = F64 { bits: constants::ZERO };
    let across = frames::vector::<Ecliptic>(k.ang_vec.y.negated(), k.ang_vec.x, zero);
    conics::lemma_axes(w, o, i);
    // the length of the vector towards the node
    let (x, y) = (v(across.x), v(across.y));
    let big = h * i.sin;
    rounding::lemma_minus(h, i.sin * o.cos);
    rounding::lemma_order(h, i.sin, o.cos);
    rounding::lemma_order(h, i.sin, o.sin);
    rounding::lemma_factors(big, o.cos, big, o.cos);
    rounding::lemma_factors(big, o.sin, big, o.sin);
    rounding::lemma_spread(big * big, o.cos * o.cos, o.sin * o.sin, 0real);
    rounding::lemma_minus(big * big, 1real);
    rounding::lemma_minus(0real, 1real);
    let nm = v(k.node_mag);
    assert(nm * nm == big * big);
    rounding::lemma_minus(h, 1real);
    rounding::lemma_minus(h, i.sin);
    conics::lemma_square(big);
    if i.sin == 0real {
        conics::lemma_same_square(nm, 0real);
        lemma_flat(ops, v, k, w, o, i);
    } else if 0real < i.sin {
        conics::lemma_positive(h, i.sin);
        lemma_inclined(ops, v, k, w, o, i);
    } else {
        conics::lemma_positive(h, -i.sin);
        conics::lemma_flip(w, o, i);
        let (a, b, c) = (conics::opposite(w), conics::opposite(o), conics::mirrored(i));
        conics::lemma_axes(a, b, c);
        lemma_inclined(ops, v, k, a, b, c);
    }
}

/// One over the semi major axis to the power of one and a half is exact.
pub open spec fn inverse_powers<A: Arithmetic>(ops: &A, v: Reading, a: F64, size: real) -> bool {
    let power = (F64 { bits: constants::ONE_AND_HALF }).negated();
    let r = v(ops.two(Binary::Power, a, power));
    0real < r && (r * r) * (size * (size * size)) == 1real
}

/// Is the size of a number exact.
pub open spec fn sizes(v: Reading, a: F64) -> bool {
    v(a.abs_value()) == (if v(a) < 0real {
        -v(a)
    } else {
        v(a)
    })
}

/// Are the coordinates by which the mean anomaly is found exact.
pub open spec fn exact_bars<A: Arithmetic>(ops: &A, v: Reading, k: elements::Conic) -> bool {
    let one = F64 { bits: constants::ONE };
    let two = F64 { bits: constants::TWO };
    let twice = arithmetic::quotient(ops, two, k.p_mag);
    let a = elements::axis(ops, k);
    let squared = ops.one(Unary::Squared, k.ang_mag);
    let num = arithmetic::difference(ops, squared, k.p_mag);
    let ratio = arithmetic::quotient(ops, k.vp_mag, k.ecc);
    let y_bar = arithmetic::product(ops, ratio, k.ang_mag);
    let square = ops.one(Unary::Squared, k.ecc);
    let inside = arithmetic::difference(ops, one, square);
    let root = ops.one(Unary::Sqrt, inside.abs_value());
    let b = arithmetic::product(ops, a, root);
    &&& divides(ops, v, two, k.p_mag) && subtracts(ops, v, twice, k.v_mag2)
    &&& divides(ops, v, one, arithmetic::difference(ops, twice, k.v_mag2))
    &&& squares(ops, v, k.ang_mag) && subtracts(ops, v, squared, k.p_mag)
    &&& divides(ops, v, num, k.ecc)
    &&& divides(ops, v, k.vp_mag, k.ecc) && multiplies(ops, v, ratio, k.ang_mag)
    &&& squares(ops, v, k.ecc) && subtracts(ops, v, one, square) && sizes(v, inside)
    &&& roots(ops, v, inside.abs_value()) && multiplies(ops, v, a, root)
    &&& divides(ops, v, y_bar, b)
}

/// The coordinates along the axes of the conic and its semi major axis, as they are found.
proof fn lemma_bars<A: Arithmetic>(
    ops: &A,
    v: Reading,
    k: elements::Conic,
    o: Orbit,
    q: real,
)
    requires
        plain(v),
        exact_bars(ops, v, k),
        conics::on_conic(o.x, o.y, o.xd, o.yd, o.e, o.h, o.r),
        0real < o.e,
        o.h * o.h == q * (1real + o.e),
        v(k.p_mag) == o.r,
        v(k.v_mag2) == o.xd * o.xd + o.yd * o.yd,
        v(k.vp_mag) == o.x * o.xd + o.y * o.yd,
        v(k.ecc) == o.e,
        v(k.ang_mag) == o.h,
    ensures
        ({
            let one = F64 { bits: constants::ONE };
            let squared = ops.one(Unary::Squared, k.ang_mag);
            let num = arithmetic::difference(ops, squared, k.p_mag);
            let ratio = arithmetic::quotient(ops, k.vp_mag, k.ecc);
            let square = ops.one(Unary::Squared, k.ecc);
            let inside = arithmetic::difference(ops, one, square);
            let root = v(ops.one(Unary::Sqrt, inside.abs_value()));
            let p = 1real - o.e * o.e;
            &&& v(arithmetic::quotient(ops, num, k.ecc)) == o.x
            &&& v(arithmetic::product(ops, ratio, k.ang_mag)) == o.y
            &&& v(elements::axis(ops, k)) * p == q * (1real + o.e)
            &&& 0real <= root
            &&& root * root == (if p < 0real {
                -p
            } else {
                p
            })
        }),
{
    let squared = ops.one(Unary::Squared, k.ang_mag);
    let num = arithmetic::difference(ops, squared, k.p_mag);
    let x_bar = v(arithmetic::quotient(ops, num, k.ecc));
    let ratio = v(arithmetic::quotient(ops, k.vp_mag, k.ecc));
    let (e, h) = (o.e, o.h);
    rounding::lemma_order(x_bar, e, 1real);
    conics::lemma_cancel(e, x_bar, o.x);
    // across
    conics::lemma_radial(o.x, o.y, o.xd, o.yd, e, h, o.r);
    let g = o.x * o.xd + o.y * o.yd;
    rounding::lemma_order(e, ratio, h);
    rounding::lemma_order(e, ratio, 1real);
    rounding::lemma_order(g, h, 1real);
    conics::lemma_cancel(e, ratio * h, o.y);
    // the semi major axis
    let two = F64 { bits: constants::TWO };
    let t = v(arithmetic::quotient(ops, two, k.p_mag));
    conics::lemma_vis_viva(o.x, o.y, o.xd, o.yd, e, h, o.r, t);
    let a = v(elements::axis(ops, k));
    let left = t - v(k.v_mag2);
    let hh = h * h;
    conics::lemma_swap(a, hh, left);
    rounding::lemma_minus(hh, 1real);
    rounding::lemma_order(left, a, 1real);
    rounding::lemma_order(a, left, 1real);
}

/// Is the time of perihelion on an ellipse or a hyperbola found exactly, and the mean anomaly of
/// elements which have it.
pub open spec fn exact_time<A: Physics>(
    ops: &A,
    v: Reading,
    k: elements::Conic,
    epoch: F64,
    e: CometElements,
    size: real,
) -> bool {
    let a = elements::axis(ops, k);
    let power = (F64 { bits: constants::ONE_AND_HALF }).negated();
    let n = arithmetic::product(ops, ops.two(Binary::Power, a.abs_value(), power), e.gm_sqrt);
    let anomaly = elements::conic_anomaly(ops, k, a);
    let since = arithmetic::quotient(ops, anomaly, n);
    let b = e.working_axis(ops, ops.values()).abs_value();
    let m = arithmetic::product(ops, ops.two(Binary::Power, b, power), e.gm_sqrt);
    let elapsed = arithmetic::difference(ops, e.epoch.jd, e.peri_time.jd);
    &&& inverse_powers(ops, v, a.abs_value(), size)
    &&& multiplies(ops, v, ops.two(Binary::Power, a.abs_value(), power), e.gm_sqrt)
    &&& divides(ops, v, anomaly, n) && subtracts(ops, v, epoch, since)
    &&& inverse_powers(ops, v, b, size)
    &&& multiplies(ops, v, ops.two(Binary::Power, b, power), e.gm_sqrt)
    &&& subtracts(ops, v, e.epoch.jd, e.peri_time.jd) && multiplies(ops, v, m, elapsed)
}

/// The mean anomaly of the elements which are found is the one which they were found by.
proof fn lemma_mean_anomaly<A: Physics>(
    ops: &A,
    v: Reading,
    k: elements::Conic,
    epoch: F64,
    e: CometElements,
    size: real,
)
    requires
        exact_time(ops, v, k, epoch, e, size),
        0real < size,
        e.elliptical(ops, ops.values()) || e.hyperbolic(ops, ops.values()),
        e.epoch.jd == epoch,
        e.peri_time.jd == elements::conic_time(ops, k, epoch, e.gm_sqrt),
    ensures
        v(e.working_anomaly(ops, ops.values())) == v(
            elements::conic_anomaly(ops, k, elements::axis(ops, k)),
        ),
{
    let a = elements::axis(ops, k);
    let power = (F64 { bits: constants::ONE_AND_HALF }).negated();
    let r = v(ops.two(Binary::Power, a.abs_value(), power));
    let b = e.working_axis(ops, ops.values()).abs_value();
    let t = v(ops.two(Binary::Power, b, power));
    let cube = size * (size * size);
    conics::lemma_positive(size, size);
    conics::lemma_positive(size, size * size);
    rounding::lemma_order(r * r, cube, 1real);
    rounding::lemma_order(t * t, cube, 1real);
    conics::lemma_cancel(cube, r * r, t * t);
    conics::lemma_same_square(r, t);
    let n = arithmetic::product(ops, ops.two(Binary::Power, a.abs_value(), power), e.gm_sqrt);
    let since = v(arithmetic::quotient(ops, elements::conic_anomaly(ops, k, a), n));
    rounding::lemma_order(since, v(n), 1real);
}

/// What Kepler's equation makes of an anomaly: the mean anomaly, or six times the one on a
/// parabola.
pub open spec fn equation<A: Physics>(ops: &A, v: Reading, e: CometElements, anomaly: F64) -> real {
    let c = ops.values();
    if e.elliptical(ops, c) {
        v(anomaly) - v(e.eccentricity) * v(ops.one(Unary::Sin, anomaly))
    } else if e.hyperbolic(ops, c) {
        v(e.eccentricity) * v(ops.one(Unary::Sinh, anomaly)) - v(anomaly)
    } else {
        6real * (v(e.peri_dist) * v(anomaly)) + v(anomaly) * (v(anomaly) * v(anomaly))
    }
}

/// The mean anomaly, or six times the one on a parabola.
pub open spec fn mean<A: Physics>(ops: &A, v: Reading, e: CometElements) -> real {
    let c = ops.values();
    if e.elliptical(ops, c) || e.hyperbolic(ops, c) {
        v(e.working_anomaly(ops, c))
    } else {
        6real * v(e.working_anomaly(ops, c))
    }
}

/// Are two anomalies the same place on a conic.
pub open spec fn alike<A: Physics>(ops: &A, v: Reading, e: CometElements, a: F64, b: F64) -> bool {
    if e.elliptical(ops, ops.values()) {
        turn(ops, v, a) == turn(ops, v, b)
    } else if !e.hyperbolic(ops, ops.values()) {
        v(a) == v(b)
    } else {
        &&& v(ops.one(Unary::Sinh, a)) == v(ops.one(Unary::Sinh, b))
        &&& v(ops.one(Unary::Cosh, a)) == v(ops.one(Unary::Cosh, b))
    }
}

/// Is an anomaly the solution of Kepler's equation, which has but one.
pub open spec fn solved<A: Physics>(ops: &A, v: Reading, e: CometElements, anomaly: F64) -> bool {
    &&& equation(ops, v, e, anomaly) == mean(ops, v, e)
    &&& forall|z: F64| #[trigger]
        equation(ops, v, e, z) == equation(ops, v, e, anomaly) ==> alike(ops, v, e, z, anomaly)
}

/// Is the mean anomaly on an ellipse found exactly.
pub open spec fn exact_mean_ellipse<A: Arithmetic>(
    ops: &A,
    v: Reading,
    k: elements::Conic,
) -> bool {
    let one = F64 { bits: constants::ONE };
    let a = elements::axis(ops, k);
    let squared = ops.one(Unary::Squared, k.ang_mag);
    let x_bar = arithmetic::quotient(
        ops,
        arithmetic::difference(ops, squared, k.p_mag),
        k.ecc,
    );
    let ratio = arithmetic::quotient(ops, k.vp_mag, k.ecc);
    let y_bar = arithmetic::product(ops, ratio, k.ang_mag);
    let square = ops.one(Unary::Squared, k.ecc);
    let inside = arithmetic::difference(ops, one, square);
    let b = arithmetic::product(ops, a, ops.one(Unary::Sqrt, inside.abs_value()));
    let s_e = arithmetic::quotient(ops, y_bar, b);
    let part = arithmetic::quotient(ops, x_bar, a);
    let c_e = arithmetic::sum(ops, part, k.ecc);
    let angle = ops.two(Binary::Atan2, s_e, c_e);
    let less = arithmetic::product(ops, k.ecc, s_e);
    &&& k.ecc.spec_lt(one)
    &&& divides(ops, v, x_bar, a) && adds(ops, v, part, k.ecc)
    &&& exact_atan2(ops, v, s_e, c_e)
    &&& multiplies(ops, v, k.ecc, s_e) && subtracts(ops, v, angle, less)
}

/// Is the mean anomaly on a hyperbola found exactly.
pub open spec fn exact_mean_hyperbola<A: Arithmetic>(
    ops: &A,
    v: Reading,
    k: elements::Conic,
) -> bool {
    let one = F64 { bits: constants::ONE };
    let a = elements::axis(ops, k);
    let ratio = arithmetic::quotient(ops, k.vp_mag, k.ecc);
    let y_bar = arithmetic::product(ops, ratio, k.ang_mag);
    let square = ops.one(Unary::Squared, k.ecc);
    let inside = arithmetic::difference(ops, one, square);
    let b = arithmetic::product(ops, a, ops.one(Unary::Sqrt, inside.abs_value()));
    let s_e = arithmetic::quotient(ops, y_bar, b);
    let angle = ops.one(Unary::Asinh, s_e.negated());
    let part = arithmetic::product(ops, k.ecc.negated(), s_e);
    &&& !k.ecc.spec_lt(one)
    &&& regular(ops, v, angle) && v(ops.one(Unary::Sinh, angle)) == v(s_e.negated())
    &&& multiplies(ops, v, k.ecc.negated(), s_e) && subtracts(ops, v, part, angle)
}

/// The eccentric anomaly on an ellipse, as it is found.
proof fn lemma_angle_on_ellipse<A: Arithmetic>(
    ops: &A,
    v: Reading,
    k: elements::Conic,
    o: Orbit,
    q: real,
    a: real,
    b: real,
    t: Turn,
) -> (angle: F64)
    requires
        plain(v),
        exact_bars(ops, v, k),
        exact_mean_ellipse(ops, v, k),
        conics::on_conic(o.x, o.y, o.xd, o.yd, o.e, o.h, o.r),
        0real < o.e < 1real,
        o.h * o.h == q * (1real + o.e),
        v(k.p_mag) == o.r,
        v(k.v_mag2) == o.xd * o.xd + o.yd * o.yd,
        v(k.vp_mag) == o.x * o.xd + o.y * o.yd,
        v(k.ecc) == o.e,
        v(k.ang_mag) == o.h,
        0real < a,
        0real < b,
        a * (1real - o.e) == q,
        b * b == (a * a) * (1real - o.e * o.e),
        o.x == a * (t.cos - o.e),
        o.y == b * t.sin,
        t.exact(),
    ensures
        v(elements::axis(ops, k)) == a,
        turn(ops, v, angle) == t,
        v(elements::conic_anomaly(ops, k, elements::axis(ops, k))) == v(angle) - o.e * t.sin,
{
    let one = F64 { bits: constants::ONE };
    let e = o.e;
    let found = elements::axis(ops, k);
    let squared = ops.one(Unary::Squared, k.ang_mag);
    let x_bar = arithmetic::quotient(
        ops,
        arithmetic::difference(ops, squared, k.p_mag),
        k.ecc,
    );
    let ratio = arithmetic::quotient(ops, k.vp_mag, k.ecc);
    let y_bar = arithmetic::product(ops, ratio, k.ang_mag);
    let square = ops.one(Unary::Squared, k.ecc);
    let inside = arithmetic::difference(ops, one, square);
    let root = ops.one(Unary::Sqrt, inside.abs_value());
    let wide = arithmetic::product(ops, found, root);
    let s_e = arithmetic::quotient(ops, y_bar, wide);
    let part = arithmetic::quotient(ops, x_bar, found);
    let c_e = arithmetic::sum(ops, part, k.ecc);
    let angle = ops.two(Binary::Atan2, s_e, c_e);
    lemma_bars(ops, v, k, o, q);
    let p = 1real - e * e;
    conics::lemma_inside(e, t.cos, t.sin);
    // the semi major axis
    lemma_difference_of_squares(e);
    rounding::lemma_order(a, 1real - e, 1real + e);
    rounding::lemma_order(v(found), p, 1real);
    rounding::lemma_order(a, p, 1real);
    conics::lemma_cancel(p, v(found), a);
    // the semi minor axis
    lemma_positive_root(v(root));
    conics::lemma_positive(a, v(root));
    rounding::lemma_factors(a, v(root), a, v(root));
    conics::lemma_same_square(v(wide), b);
    // sine and cosine
    rounding::lemma_order(v(s_e), b, 1real);
    conics::lemma_cancel(b, v(s_e), t.sin);
    rounding::lemma_order(v(part), a, 1real);
    conics::lemma_cancel(a, v(part), t.cos - e);
    let u = turn(ops, v, angle);
    rounding::lemma_minus(1real, 1real);
    conics::lemma_angle_of(u, t.cos, t.sin, 1real);
    rounding::lemma_minus(u.cos, 1real);
    rounding::lemma_minus(u.sin, 1real);
    angle
}

/// The eccentric anomaly on a hyperbola, as it is found.
proof fn lemma_angle_on_hyperbola<A: Arithmetic>(
    ops: &A,
    v: Reading,
    k: elements::Conic,
    o: Orbit,
    q: real,
    size: real,
    b: real,
    s: real,
    c: real,
) -> (angle: F64)
    requires
        plain(v),
        exact_bars(ops, v, k),
        exact_mean_hyperbola(ops, v, k),
        conics::on_conic(o.x, o.y, o.xd, o.yd, o.e, o.h, o.r),
        1real < o.e,
        o.h * o.h == q * (1real + o.e),
        v(k.p_mag) == o.r,
        v(k.v_mag2) == o.xd * o.xd + o.yd * o.yd,
        v(k.vp_mag) == o.x * o.xd + o.y * o.yd,
        v(k.ecc) == o.e,
        v(k.ang_mag) == o.h,
        0real < size,
        0real < b,
        size * (o.e - 1real) == q,
        b * b == (size * size) * (o.e * o.e - 1real),
        o.y == b * s,
        c * c - s * s == 1real,
        1real <= c,
    ensures
        v(elements::axis(ops, k)) == -size,
        v(ops.one(Unary::Sinh, angle)) == s,
        v(ops.one(Unary::Cosh, angle)) == c,
        v(elements::conic_anomaly(ops, k, elements::axis(ops, k))) == o.e * s - v(angle),
{
    let one = F64 { bits: constants::ONE };
    let e = o.e;
    let found = elements::axis(ops, k);
    let ratio = arithmetic::quotient(ops, k.vp_mag, k.ecc);
    let y_bar = arithmetic::product(ops, ratio, k.ang_mag);
    let square = ops.one(Unary::Squared, k.ecc);
    let inside = arithmetic::difference(ops, one, square);
    let root = ops.one(Unary::Sqrt, inside.abs_value());
    let wide = arithmetic::product(ops, found, root);
    let s_e = arithmetic::quotient(ops, y_bar, wide);
    let angle = ops.one(Unary::Asinh, s_e.negated());
    lemma_bars(ops, v, k, o, q);
    let p = e * e - 1real;
    let w = v(found);
    lemma_difference_of_squares(e);
    conics::lemma_positive(e - 1real, 1real + e);
    // the semi major axis
    rounding::lemma_order(size, e - 1real, 1real + e);
    rounding::lemma_minus(w, p);
    rounding::lemma_order(w, p, 1real);
    rounding::lemma_order(size, p, 1real);
    rounding::lemma_minus(p, w);
    conics::lemma_cancel(p, -w, size);
    // the semi minor axis
    lemma_positive_root(v(root));
    conics::lemma_positive(size, v(root));
    rounding::lemma_factors(size, v(root), size, v(root));
    conics::lemma_same_square(size * v(root), b);
    rounding::lemma_order(-size, v(root), 1real);
    rounding::lemma_minus(v(root), size);
    rounding::lemma_order(v(root), size, 1real);
    assert(v(wide) == -b);
    // the hyperbolic sine and cosine
    rounding::lemma_minus(v(s_e), b);
    rounding::lemma_order(v(s_e), b, 1real);
    rounding::lemma_minus(b, v(s_e));
    conics::lemma_cancel(b, -v(s_e), s);
    let ch = v(ops.one(Unary::Cosh, angle));
    conics::lemma_same_square(ch, c);
    // the mean anomaly
    rounding::lemma_minus(-e, s);
    rounding::lemma_order(-e, s, 1real);
    rounding::lemma_minus(s, e);
    rounding::lemma_order(s, e, 1real);
    angle
}

/// Is the time of perihelion on a parabola found exactly, and the mean anomaly of elements which
/// have it.
pub open spec fn exact_fall<A: Physics>(
    ops: &A,
    v: Reading,
    k: elements::Conic,
    pos: Vector<Ecliptic>,
    epoch: F64,
    e: CometElements,
) -> bool {
    let zero = F64 { bits: constants::ZERO };
    let one = F64 { bits: constants::ONE };
    let two = F64 { bits: constants::TWO };
    let three = F64 { bits: constants::THREE };
    let along = k.ecc_vec.dotted(ops, pos);
    let lengths = arithmetic::product(ops, k.ecc, k.p_mag);
    let ratio = arithmetic::quotient(ops, along, lengths);
    let cosine = numbers::within(ratio, one.negated(), one);
    let angle = ops.one(Unary::Acos, cosine);
    let behind = k.vp_mag.is_negative();
    let true_anomaly = elements::signed(angle, behind);
    let d = ops.one(Unary::Tan, arithmetic::quotient(ops, true_anomaly, two));
    let power = ops.two(Binary::Power, k.peri_dist, F64 { bits: constants::ONE_AND_HALF });
    let root = ops.one(Unary::Sqrt, two);
    let scale = arithmetic::product(ops, root, power);
    let slow = arithmetic::quotient(ops, scale, e.gm_sqrt);
    let cube = ops.one(Unary::Cubed, d);
    let third = arithmetic::quotient(ops, cube, three);
    let whole = arithmetic::sum(ops, d, third);
    let since = arithmetic::product(ops, slow, whole);
    let elapsed = arithmetic::difference(ops, e.epoch.jd, e.peri_time.jd);
    &&& v(three) == 3real
    &&& !k.ecc.same(zero) && !k.p_mag.same(zero)
    &&& dots(ops, v, k.ecc_vec, pos) && multiplies(ops, v, k.ecc, k.p_mag)
    &&& divides(ops, v, along, lengths) && v(cosine) == v(ratio) && exact_acos(ops, v, cosine)
    &&& turn(ops, v, angle.negated()) == conics::mirrored(turn(ops, v, angle))
    &&& behind ==> v(k.vp_mag) <= 0real
    &&& !behind ==> 0real <= v(k.vp_mag)
    &&& v(d) * (1real + turn(ops, v, true_anomaly).cos) == turn(ops, v, true_anomaly).sin
    &&& powers(ops, v, k.peri_dist, v(k.peri_dist)) && roots(ops, v, two)
    &&& multiplies(ops, v, root, power) && divides(ops, v, scale, e.gm_sqrt)
    &&& v(cube) == v(d) * (v(d) * v(d)) && divides(ops, v, cube, three)
    &&& adds(ops, v, d, third) && multiplies(ops, v, slow, whole)
    &&& subtracts(ops, v, epoch, since)
    &&& subtracts(ops, v, e.epoch.jd, e.peri_time.jd) && multiplies(ops, v, e.gm_sqrt, elapsed)
}

/// The mean anomaly on a parabola, as it is found, is the one of the place it is found by.
proof fn lemma_fall<A: Physics>(
    ops: &A,
    v: Reading,
    k: elements::Conic,
    pos: Vector<Ecliptic>,
    epoch: F64,
    e: CometElements,
    o: Orbit,
    anomaly: real,
    p: Triple,
    q: Triple,
)
    requires
        plain(v),
        exact_fall(ops, v, k, pos, epoch, e),
        conics::on_conic(o.x, o.y, o.xd, o.yd, o.e, o.h, o.r),
        o.e == 1real,
        v(k.ecc) == 1real,
        v(k.p_mag) == o.r,
        v(k.vp_mag) == o.x * o.xd + o.y * o.yd,
        0real < v(k.peri_dist),
        o.h * o.h == 2real * v(k.peri_dist),
        o.y == o.h * anomaly,
        o.x + o.r == 2real * v(k.peri_dist),
        p.dot(p) == 1real,
        q.dot(q) == 1real,
        p.dot(q) == 0real,
        read(v, k.ecc_vec) == conics::times(o.e, p),
        read(v, pos) == conics::mix(o.x, p, o.y, q),
        k.ecc == k.ecc_vec.length(ops),
        k.p_mag == pos.length(ops),
        !e.elliptical(ops, ops.values()),
        !e.hyperbolic(ops, ops.values()),
        e.epoch.jd == epoch,
        e.peri_time.jd == elements::parabolic_time(ops, k, pos, epoch, e.gm_sqrt),
    ensures
        6real * v(e.working_anomaly(ops, ops.values())) == 6real * (v(k.peri_dist) * anomaly)
            + anomaly * (anomaly * anomaly),
{
    let one = F64 { bits: constants::ONE };
    let two = F64 { bits: constants::TWO };
    let three = F64 { bits: constants::THREE };
    let along = k.ecc_vec.dotted(ops, pos);
    let ratio = arithmetic::quotient(ops, along, arithmetic::product(ops, k.ecc, k.p_mag));
    let cosine = numbers::within(ratio, one.negated(), one);
    let angle = ops.one(Unary::Acos, cosine);
    let true_anomaly = elements::signed(angle, k.vp_mag.is_negative());
    let d = v(ops.one(Unary::Tan, arithmetic::quotient(ops, true_anomaly, two)));
    let dist = v(k.peri_dist);
    let (r, x, y, b) = (o.r, o.x, o.y, o.h);
    // the cosine of the true anomaly
    conics::lemma_mix_dot(1real, 0real, x, y, p, q);
    rounding::lemma_order(0real, q.x, 1real);
    rounding::lemma_order(0real, q.y, 1real);
    rounding::lemma_order(0real, q.z, 1real);
    rounding::lemma_minus(q.x, 1real);
    rounding::lemma_minus(q.y, 1real);
    rounding::lemma_minus(q.z, 1real);
    rounding::lemma_order(1real, x, 1real);
    rounding::lemma_minus(x, 1real);
    rounding::lemma_order(0real, y, 1real);
    rounding::lemma_minus(y, 1real);
    rounding::lemma_order(1real, r, 1real);
    rounding::lemma_minus(r, 1real);
    let t = turn(ops, v, true_anomaly);
    assert(t.cos * r == x);
    // its sine
    conics::lemma_square(turn(ops, v, angle).sin);
    assert(t.exact());
    rounding::lemma_factors(t.cos, r, t.cos, r);
    rounding::lemma_factors(t.sin, r, t.sin, r);
    rounding::lemma_order(r * r, t.cos * t.cos, 1real);
    rounding::lemma_order(r * r, t.sin * t.sin, 1real);
    rounding::lemma_spread(r * r, t.cos * t.cos, t.sin * t.sin, 0real);
    rounding::lemma_minus(r * r, 1real);
    let side = t.sin * r;
    assert(side * side == y * y);
    conics::lemma_radial(o.x, o.y, o.xd, o.yd, 1real, b, r);
    let g = x * o.xd + y * o.yd;
    rounding::lemma_order(t.sin, r, 1real);
    rounding::lemma_minus(r, t.sin);
    rounding::lemma_minus(b, g);
    rounding::lemma_minus(b, 1real);
    conics::lemma_square(side);
    conics::lemma_square(y);
    if k.vp_mag.is_negative() {
        if g < 0real {
            conics::lemma_positive(b, -g);
        }
        if t.sin < 0real {
            conics::lemma_positive(r, -t.sin);
        }
        conics::lemma_same_square(-side, -y);
    } else {
        if 0real < g {
            conics::lemma_positive(b, g);
        }
        if 0real < t.sin {
            conics::lemma_positive(r, t.sin);
        }
        conics::lemma_same_square(side, y);
    }
    assert(side == y);
    // the tangent of half of it
    rounding::lemma_spread(r, 1real, t.cos, 0real);
    rounding::lemma_order(r, t.cos, 1real);
    conics::lemma_swap(r, d, 1real + t.cos);
    rounding::lemma_order(r, 1real + t.cos, 1real);
    assert(r * (d * (1real + t.cos)) == d * (r * (1real + t.cos)));
    assert(d * (b * b) == b * anomaly);
    conics::lemma_swap(d, b, b);
    rounding::lemma_order(d, b, 1real);
    conics::lemma_cancel(b, b * d, anomaly);
    // the scale of the time
    let power = ops.two(Binary::Power, k.peri_dist, F64 { bits: constants::ONE_AND_HALF });
    let root = ops.one(Unary::Sqrt, two);
    let scale = arithmetic::product(ops, root, power);
    rounding::lemma_factors(v(root), v(power), v(root), v(power));
    rounding::lemma_factors(dist, b, dist, b);
    rounding::lemma_order(dist * dist, 2real, dist);
    conics::lemma_swap(dist * dist, 2real, dist);
    rounding::lemma_order(dist, dist * dist, 1real);
    assert((dist * b) * (dist * b) == 2real * (dist * (dist * dist)));
    lemma_positive_root(v(root));
    conics::lemma_positive(v(root), v(power));
    conics::lemma_positive(dist, b);
    conics::lemma_same_square(v(scale), dist * b);
    // the time
    let slow = arithmetic::quotient(ops, scale, e.gm_sqrt);
    let third = v(arithmetic::quotient(ops, ops.one(Unary::Cubed, ops.one(Unary::Tan,
        arithmetic::quotient(ops, true_anomaly, two))), three));
    let whole = d + third;
    conics::lemma_swap(v(e.gm_sqrt), v(slow), whole);
    rounding::lemma_order(v(e.gm_sqrt), v(slow), whole);
    rounding::lemma_order(v(slow), v(e.gm_sqrt), 1real);
    let m = v(e.working_anomaly(ops, ops.values()));
    assert(m == (dist * b) * whole);
    rounding::lemma_spread(dist * b, d, third, 0real);
    rounding::lemma_minus(dist * b, 1real);
    rounding::lemma_order(dist, b, d);
    assert((dist * b) * d == dist * anomaly);
    // six times the third
    rounding::lemma_order(third, 3real, 1real);
    assert(3real * third == d * (d * d));
    conics::lemma_swap(2real, dist * b, third);
    rounding::lemma_order(dist * b, 3real, third);
    rounding::lemma_order(3real, dist * b, third);
    assert(3real * ((dist * b) * third) == (dist * b) * (d * (d * d)));
    rounding::lemma_order(dist, b, d * (d * d));
    rounding::lemma_order(b, d, d * d);
    assert((dist * b) * (d * (d * d)) == dist * (anomaly * (d * d)));
    rounding::lemma_factors(b, d, b, d);
    assert((2real * dist) * (d * d) == anomaly * anomaly);
    conics::lemma_swap(dist, anomaly, d * d);
    rounding::lemma_order(2real, dist, d * d);
    rounding::lemma_order(anomaly, dist, d * d);
    conics::lemma_swap(2real, anomaly, dist * (d * d));
    rounding::lemma_order(anomaly, 2real, dist * (d * d));
    rounding::lemma_order(dist, d * d, 1real);
    assert(2real * (dist * (anomaly * (d * d))) == anomaly * (anomaly * anomaly));
}

/// Is everything exact on the way from a position and a velocity to their elements `again`, which
/// are no circle, and from there back to a position and a velocity.
pub open spec fn exact_return<A: Physics>(
    ops: &A,
    v: Reading,
    e: CometElements,
    m: Motion<Ecliptic>,
    again: CometElements,
    anomaly: F64,
) -> bool {
    let c = ops.values();
    let one = F64 { bits: constants::ONE };
    let k = elements::conic(ops, m.pos, m.vel, e.gm_sqrt);
    let a = v(e.working_axis(ops, c));
    &&& again.elliptical(ops, c) == e.elliptical(ops, c)
    &&& again.hyperbolic(ops, c) == e.hyperbolic(ops, c)
    &&& arithmetic::difference(ops, k.ecc, one).abs_value().spec_lt(c.parabolic_limit) <==> !(
    e.elliptical(ops, c) || e.hyperbolic(ops, c))
    &&& !k.ecc.spec_lt(F64 { bits: elements::NEARLY_CIRCULAR })
    &&& exact_angles(ops, v, k)
    &&& if e.elliptical(ops, c) {
        &&& exact_bars(ops, v, k) && exact_mean_ellipse(ops, v, k)
        &&& exact_time(ops, v, k, e.epoch.jd, again, a)
    } else if e.hyperbolic(ops, c) {
        &&& exact_bars(ops, v, k) && exact_mean_hyperbola(ops, v, k)
        &&& exact_time(ops, v, k, e.epoch.jd, again, -a)
    } else {
        exact_fall(ops, v, k, m.pos, e.epoch.jd, again)
    }
    &&& regular(ops, v, anomaly) && solved(ops, v, again, anomaly)
    &&& exact_place(ops, v, again, anomaly)
    &&& exact_turn(ops, v, again, place(ops, again, anomaly))
}

/// Two places on conics with the same axes are the same where the anomalies are alike.
proof fn lemma_same_place<A: Physics>(
    ops: &A,
    v: Reading,
    e: CometElements,
    again: CometElements,
    o: Orbit,
    first: F64,
    second: F64,
)
    requires
        plain(v),
        0real < v(e.peri_dist),
        0real <= v(e.eccentricity),
        again.elliptical(ops, ops.values()) == e.elliptical(ops, ops.values()),
        again.hyperbolic(ops, ops.values()) == e.hyperbolic(ops, ops.values()),
        v(again.eccentricity) == v(e.eccentricity),
        v(again.peri_dist) == v(e.peri_dist),
        again.gm_sqrt == e.gm_sqrt,
        regular(ops, v, first),
        regular(ops, v, second),
        exact_place(ops, v, e, first),
        exact_place(ops, v, again, second),
        alike(ops, v, again, first, second),
        o.holds(v, e, place(ops, e, first)),
    ensures
        ({
            let (a, b) = (place(ops, e, first), place(ops, again, second));
            &&& v(a.x) == v(b.x)
            &&& v(a.y) == v(b.y)
            &&& v(a.x_dot) == v(b.x_dot)
            &&& v(a.y_dot) == v(b.y_dot)
        }),
{
    let c = ops.values();
    let (a, b) = (e.working_axis(ops, c), again.working_axis(ops, c));
    let x = v(e.eccentricity);
    if e.elliptical(ops, c) {
        let p = lemma_on_ellipse(ops, v, e, a, first);
        let q = lemma_on_ellipse(ops, v, again, b, second);
        rounding::lemma_order(v(a), 1real - x, 1real);
        rounding::lemma_order(v(b), 1real - x, 1real);
        conics::lemma_cancel(1real - x, v(a), v(b));
        conics::lemma_same_square(v(e.short_axis(ops, a)), v(again.short_axis(ops, b)));
        conics::lemma_same_velocity(
            o.x,
            o.y,
            o.e,
            o.h,
            o.xd,
            o.yd,
            o.r,
            q.h,
            q.xd,
            q.yd,
            q.r,
        );
    } else if !e.hyperbolic(ops, c) {
        let p = lemma_on_parabola(ops, v, e, first);
        let q = lemma_on_parabola(ops, v, again, second);
        conics::lemma_same_square(p.h, q.h);
        conics::lemma_same_velocity(
            o.x,
            o.y,
            o.e,
            o.h,
            o.xd,
            o.yd,
            o.r,
            q.h,
            q.xd,
            q.yd,
            q.r,
        );
    } else {
        let p = lemma_on_hyperbola(ops, v, e, a, first);
        let q = lemma_on_hyperbola(ops, v, again, b, second);
        let m = x - 1real;
        rounding::lemma_minus(v(a), m);
        rounding::lemma_minus(v(b), m);
        rounding::lemma_order(v(a), m, 1real);
        rounding::lemma_order(v(b), m, 1real);
        conics::lemma_cancel(m, v(a), v(b));
        conics::lemma_same_square(v(e.long_axis(ops, a)), v(again.long_axis(ops, b)));
        conics::lemma_same_velocity(
            o.x,
            o.y,
            o.e,
            o.h,
            o.xd,
            o.yd,
            o.r,
            q.h,
            q.xd,
            q.yd,
            q.r,
        );
    }
}

/// The motion of elements comes back by way of the elements of that motion: anywhere on an ellipse
/// which is no circle, on a parabola or on a hyperbola, with any angles, where no rounding comes in
/// between. The elements themselves may differ: of two ways to tell a plane, one is chosen.
///
/// What rounding makes of this is told in `angles`, up to how exactly the eccentric anomaly is
/// solved for, which is left to the caller.
pub proof fn law_motion_comes_back<A: Physics>(
    ops: &A,
    v: Reading,
    e: CometElements,
    first: F64,
    desig: Desig,
    second: F64,
)
    requires
        plain(v),
        0real < v(e.gm_sqrt),
        0real < v(e.peri_dist),
        0real < v(e.eccentricity),
        ops.eccentric(
            e.eccentricity,
            e.working_anomaly(ops, ops.values()),
            e.peri_dist,
        ) == Ok::<F64, Error>(first),
        regular(ops, v, first),
        exact_place(ops, v, e, first),
        exact_turn(ops, v, e, place(ops, e, first)),
        ({
            let m = e.turned_out(ops, place(ops, e, first));
            let again = CometElements::of_motion(
                ops,
                ops.values(),
                desig,
                e.epoch,
                m,
                e.center_id,
                e.gm_sqrt,
            );
            &&& exact_conic(ops, v, m.pos, m.vel, e.gm_sqrt)
            &&& ops.eccentric(
                again.eccentricity,
                again.working_anomaly(ops, ops.values()),
                again.peri_dist,
            ) == Ok::<F64, Error>(second)
            &&& exact_return(ops, v, e, m, again, second)
        }),
    ensures
        ({
            let m = e.turned_out(ops, place(ops, e, first));
            let again = CometElements::of_motion(
                ops,
                ops.values(),
                desig,
                e.epoch,
                m,
                e.center_id,
                e.gm_sqrt,
            );
            &&& e.motion(ops) == Ok::<Motion<Ecliptic>, Error>(m)
            &&& again.motion(ops) is Ok
            &&& read(v, again.motion(ops)->Ok_0.pos) == read(v, m.pos)
            &&& read(v, again.motion(ops)->Ok_0.vel) == read(v, m.vel)
        }),
{
    let c = ops.values();
    let at = place(ops, e, first);
    let m = e.turned_out(ops, at);
    let again = CometElements::of_motion(ops, c, desig, e.epoch, m, e.center_id, e.gm_sqrt);
    let k = elements::conic(ops, m.pos, m.vel, e.gm_sqrt);
    let a = e.working_axis(ops, c);
    let q = v(e.peri_dist);
    let x = v(e.eccentricity);
    let o = if e.elliptical(ops, c) {
        lemma_on_ellipse(ops, v, e, a, first)
    } else if e.hyperbolic(ops, c) {
        lemma_on_hyperbola(ops, v, e, a, first)
    } else {
        lemma_on_parabola(ops, v, e, first)
    };
    lemma_elements(ops, v, e, at, o);
    // the plane of the orbit
    lemma_axes_back(
        ops,
        v,
        k,
        turn(ops, v, e.peri_arg),
        turn(ops, v, e.lon_of_ascending),
        turn(ops, v, e.inclination),
    );
    assert(axes(ops, v, again) == axes(ops, v, e));
    // the place in it
    let found = if e.elliptical(ops, c) {
        let b = v(e.short_axis(ops, a));
        let angle = lemma_angle_on_ellipse(ops, v, k, o, q, v(a), b, turn(ops, v, first));
        lemma_mean_anomaly(ops, v, k, e.epoch.jd, again, v(a));
        angle
    } else if !e.hyperbolic(ops, c) {
        let (p, w) = axes(ops, v, e);
        conics::lemma_axes(
            turn(ops, v, e.peri_arg),
            turn(ops, v, e.lon_of_ascending),
            turn(ops, v, e.inclination),
        );
        lemma_turned_out(ops, v, e, at);
        lemma_fall(ops, v, k, m.pos, e.epoch.jd, again, o, v(first), p, w);
        first
    } else {
        let b = v(e.long_axis(ops, a));
        let (s, t) = (v(ops.one(Unary::Sinh, first)), v(ops.one(Unary::Cosh, first)));
        rounding::lemma_minus(v(a), x - 1real);
        rounding::lemma_order(-v(a), x - 1real, 1real);
        rounding::lemma_minus(x - 1real, v(a));
        rounding::lemma_order(x - 1real, v(a), 1real);
        let angle = lemma_angle_on_hyperbola(ops, v, k, o, q, -v(a), b, s, t);
        lemma_mean_anomaly(ops, v, k, e.epoch.jd, again, -v(a));
        angle
    };
    assert(equation(ops, v, again, found) == equation(ops, v, again, second));
    assert(alike(ops, v, again, found, second));
    lemma_same_place(ops, v, e, again, o, first, second);
    lemma_turned_out(ops, v, e, at);
    lemma_turned_out(ops, v, again, place(ops, again, second));
}

} // verus!
