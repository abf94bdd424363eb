//! Algebra of real numbers for orbits.
use crate::rounding::{lemma_factors, lemma_minus, lemma_order, lemma_spread, Triple};
use vstd::prelude::*;

verus! {

/// The product of positive numbers is positive.
pub proof fn lemma_positive(k: real, d: real)
    requires
        0real < k,
        0real < d,
    ensures
        0real < k * d,
{
    assert(0real < k * d) by (nonlinear_arith)
        requires
            0real < k,
            0real < d,
    ;
}

/// What a positive factor leaves equal is equal.
pub proof fn lemma_cancel(k: real, a: real, b: real)
    requires
        0real < k,
        k * a == k * b,
    ensures
        a == b,
{
    lemma_spread(k, a, -b, 0real);
    lemma_spread(k, b, -a, 0real);
    lemma_minus(k, a);
    lemma_minus(k, b);
    if b < a {
        lemma_positive(k, a - b);
    } else if a < b {
        lemma_positive(k, b - a);
    }
}

/// The square of a negative number.
pub proof fn lemma_square(a: real)
    ensures
        (-a) * (-a) == a * a,
        0real <= a * a,
        a != 0real ==> 0real < a * a,
{
    lemma_minus(-a, a);
    lemma_order(-a, a, 1real);
    lemma_minus(a, a);
    lemma_minus(a, 1real);
    if 0real < a {
        lemma_positive(a, a);
    } else if a < 0real {
        lemma_positive(-a, -a);
    }
}

/// The product of two sums.
pub proof fn lemma_foil(a: real, b: real, c: real, d: real)
    ensures
        (a + b) * (c + d) == a * c + a * d + b * c + b * d,
{
    lemma_spread(a + b, c, d, 0real);
    lemma_minus(a + b, 1real);
    lemma_order(a + b, c, 1real);
    lemma_order(a + b, d, 1real);
    lemma_spread(c, a, b, 0real);
    lemma_spread(d, a, b, 0real);
    lemma_minus(c, 1real);
    lemma_minus(d, 1real);
    lemma_order(a, c, 1real);
    lemma_order(b, c, 1real);
    lemma_order(a, d, 1real);
    lemma_order(b, d, 1real);
}

/// Numbers of one sign with the same square are equal.
pub proof fn lemma_same_square(a: real, b: real)
    requires
        0real <= a,
        0real <= b,
        a * a == b * b,
    ensures
        a == b,
{
    lemma_foil(a, b, a, -b);
    lemma_minus(a, b);
    lemma_minus(b, b);
    lemma_order(a, b, 1real);
    lemma_minus(a + b, 1real);
    if a + b != 0real {
        lemma_cancel(a + b, a - b, 0real);
    }
}

/// Two vectors in a plane which is turned: their product and what they span do not change.
pub proof fn lemma_plane(al: real, be: real, ga: real, de: real, c: real, s: real)
    requires
        c * c + s * s == 1real,
    ensures
        (al * c - be * s) * (ga * c - de * s) + (al * s + be * c) * (ga * s + de * c) == al * ga
            + be * de,
        (al * c - be * s) * (ga * s + de * c) - (al * s + be * c) * (ga * c - de * s) == al * de
            - be * ga,
{
    lemma_foil(al * c, -(be * s), ga * c, -(de * s));
    lemma_foil(al * s, be * c, ga * s, de * c);
    lemma_foil(al * c, -(be * s), ga * s, de * c);
    lemma_foil(al * s, be * c, ga * c, -(de * s));
    lemma_minus(al * c, de * s);
    lemma_minus(-(be * s), de * s);
    lemma_minus(al * s, de * s);
    lemma_minus(be * c, de * s);
    lemma_order(-(be * s), de * s, 1real);
    lemma_order(-(be * s), ga * c, 1real);
    lemma_order(-(be * s), ga * s, 1real);
    lemma_order(-(be * s), de * c, 1real);
    lemma_minus(de * s, be * s);
    lemma_minus(ga * c, be * s);
    lemma_minus(ga * s, be * s);
    lemma_minus(de * c, be * s);
    lemma_factors(al, c, ga, c);
    lemma_factors(al, c, de, s);
    lemma_factors(ga, c, be, s);
    lemma_factors(de, s, be, s);
    lemma_factors(al, s, ga, s);
    lemma_factors(al, s, de, c);
    lemma_factors(be, c, ga, s);
    lemma_factors(be, c, de, c);
    lemma_factors(al, c, ga, s);
    lemma_factors(al, c, de, c);
    lemma_factors(ga, s, be, s);
    lemma_factors(de, c, be, s);
    lemma_factors(al, s, ga, c);
    lemma_factors(al, s, de, s);
    lemma_factors(be, c, ga, c);
    lemma_factors(be, c, de, s);
    lemma_order(c, s, 1real);
    lemma_order(be, ga, 1real);
    lemma_order(de, be, 1real);
    lemma_spread(al * ga, c * c, s * s, 0real);
    lemma_spread(be * de, c * c, s * s, 0real);
    lemma_spread(al * de, c * c, s * s, 0real);
    lemma_spread(be * ga, c * c, s * s, 0real);
    lemma_minus(al * ga, 1real);
    lemma_minus(be * de, 1real);
    lemma_minus(al * de, 1real);
    lemma_minus(be * ga, 1real);
}

/// The sines and cosines of an angle.
pub struct Turn {
    pub sin: real,
    pub cos: real,
}

impl Turn {
    /// The squares add up to one.
    pub open spec fn exact(self) -> bool {
        self.cos * self.cos + self.sin * self.sin == 1real
    }
}

/// The direction of perihelion, for the argument of perihelion `w`, the longitude of the node `o`
/// and the inclination `i`.
pub open spec fn toward(w: Turn, o: Turn, i: Turn) -> Triple {
    Triple {
        x: w.cos * o.cos - (w.sin * o.sin) * i.cos,
        y: w.cos * o.sin + (w.sin * o.cos) * i.cos,
        z: w.sin * i.sin,
    }
}

/// The direction of motion at perihelion.
pub open spec fn across(w: Turn, o: Turn, i: Turn) -> Triple {
    Triple {
        x: (-w.sin) * o.cos - (w.cos * o.sin) * i.cos,
        y: (-w.sin) * o.sin + (w.cos * o.cos) * i.cos,
        z: w.cos * i.sin,
    }
}

/// The cross product.
pub open spec fn cross(a: Triple, b: Triple) -> Triple {
    Triple {
        x: a.y * b.z - a.z * b.y,
        y: a.z * b.x - a.x * b.z,
        z: a.x * b.y - a.y * b.x,
    }
}

/// Direction of perihelion, direction of motion there and what they span: all have length one,
/// and the first two are at right angles.
pub proof fn lemma_axes(w: Turn, o: Turn, i: Turn)
    requires
        w.exact(),
        o.exact(),
        i.exact(),
    ensures
        toward(w, o, i).dot(toward(w, o, i)) == 1real,
        across(w, o, i).dot(across(w, o, i)) == 1real,
        toward(w, o, i).dot(across(w, o, i)) == 0real,
        cross(toward(w, o, i), across(w, o, i)).dot(cross(toward(w, o, i), across(w, o, i)))
            == 1real,
        cross(toward(w, o, i), across(w, o, i)) == (Triple {
            x: i.sin * o.sin,
            y: -(i.sin * o.cos),
            z: i.cos,
        }),
{
    let (p, q) = (toward(w, o, i), across(w, o, i));
    let (be, de) = (w.sin * i.cos, w.cos * i.cos);
    let (c, s) = (o.cos, o.sin);
    // the coordinates in the plane of the ecliptic
    lemma_order(w.sin, o.sin, i.cos);
    lemma_order(o.sin, i.cos, 1real);
    lemma_order(w.sin, i.cos, o.sin);
    lemma_order(w.sin, o.cos, i.cos);
    lemma_order(o.cos, i.cos, 1real);
    lemma_order(w.sin, i.cos, o.cos);
    lemma_order(w.cos, o.sin, i.cos);
    lemma_order(w.cos, i.cos, o.sin);
    lemma_order(w.cos, o.cos, i.cos);
    lemma_order(w.cos, i.cos, o.cos);
    assert(p.x == w.cos * c - be * s);
    assert(p.y == w.cos * s + be * c);
    assert(q.x == (-w.sin) * c - de * s);
    assert(q.y == (-w.sin) * s + de * c);
    lemma_plane(w.cos, be, w.cos, be, c, s);
    lemma_plane(-w.sin, de, -w.sin, de, c, s);
    lemma_plane(w.cos, be, -w.sin, de, c, s);
    // squares
    lemma_factors(w.sin, i.cos, w.sin, i.cos);
    lemma_factors(w.sin, i.sin, w.sin, i.sin);
    lemma_spread(w.sin * w.sin, i.cos * i.cos, i.sin * i.sin, 0real);
    lemma_minus(w.sin * w.sin, 1real);
    lemma_factors(w.cos, i.cos, w.cos, i.cos);
    lemma_factors(w.cos, i.sin, w.cos, i.sin);
    lemma_spread(w.cos * w.cos, i.cos * i.cos, i.sin * i.sin, 0real);
    lemma_minus(w.cos * w.cos, 1real);
    lemma_square(w.sin);
    // right angles
    lemma_factors(w.sin, i.cos, w.cos, i.cos);
    lemma_factors(w.sin, i.sin, w.cos, i.sin);
    lemma_spread(w.sin * w.cos, i.cos * i.cos, i.sin * i.sin, 0real);
    lemma_minus(w.sin * w.cos, 1real);
    lemma_minus(w.cos, w.sin);
    lemma_order(w.cos, w.sin, 1real);
    assert(p.dot(p) == 1real);
    assert(q.dot(q) == 1real);
    assert(p.dot(q) == 0real);
    // what they span
    let n = cross(p, q);
    lemma_order(w.cos, w.cos, i.cos);
    lemma_order(be, -w.sin, 1real);
    lemma_minus(be, w.sin);
    lemma_order(be, w.sin, 1real);
    lemma_order(w.sin, w.sin, i.cos);
    lemma_spread(i.cos, w.cos * w.cos, w.sin * w.sin, 0real);
    lemma_order(i.cos, w.cos * w.cos, 1real);
    lemma_order(i.cos, w.sin * w.sin, 1real);
    lemma_minus(i.cos, 1real);
    assert(n.z == i.cos);
    lemma_span(w.cos, w.sin, be, de, i.sin, i.cos, s, c);
    lemma_span(w.cos, w.sin, be, de, i.sin, i.cos, c, -s);
    lemma_minus(w.cos, s);
    lemma_minus(be, s);
    lemma_minus(-w.sin, s);
    lemma_minus(de, s);
    lemma_minus(i.sin, s);
    assert(n.x == i.sin * s);
    lemma_order(p.z, q.x, 1real);
    lemma_order(p.x, q.z, 1real);
    assert(n.y == -(i.sin * c));
    lemma_factors(i.sin, s, i.sin, s);
    lemma_factors(i.sin, c, i.sin, c);
    lemma_square(i.sin * c);
    lemma_spread(i.sin * i.sin, c * c, s * s, 0real);
    lemma_minus(i.sin * i.sin, 1real);
}

/// A component of what the axes span in the plane of the ecliptic.
proof fn lemma_span(
    cw: real,
    sw: real,
    be: real,
    de: real,
    si: real,
    ci: real,
    s: real,
    c: real,
)
    requires
        cw * cw + sw * sw == 1real,
        be == sw * ci,
        de == cw * ci,
    ensures
        (cw * s + be * c) * (cw * si) - (sw * si) * ((-sw) * s + de * c) == si * s,
{
    lemma_spread(cw * si, cw * s, be * c, 0real);
    lemma_order(cw * si, cw * s + be * c, 1real);
    lemma_minus(cw * si, 1real);
    lemma_spread(sw * si, (-sw) * s, de * c, 0real);
    lemma_minus(sw * si, 1real);
    lemma_factors(cw, si, cw, s);
    lemma_factors(sw, si, -sw, s);
    lemma_minus(sw, sw);
    lemma_order(si * s, -(sw * sw), 1real);
    lemma_minus(si * s, sw * sw);
    lemma_order(si * s, sw * sw, 1real);
    lemma_order(si * s, cw * cw, 1real);
    lemma_spread(si * s, cw * cw, sw * sw, 0real);
    lemma_minus(si * s, 1real);
    // the other two terms cancel
    lemma_factors(cw, si, be, c);
    lemma_factors(sw, si, de, c);
    lemma_order(cw, sw, ci);
    lemma_order(sw, cw, ci);
    lemma_order(cw, sw, 1real);
}

/// The second factor can be taken to the front.
pub proof fn lemma_swap(a: real, b: real, c: real)
    ensures
        a * (b * c) == b * (a * c),
        a * (b * c) == b * (c * a),
{
    lemma_order(a, b, c);
    lemma_order(b, a, c);
    lemma_order(a, b, 1real);
    lemma_order(a, c, 1real);
}

/// A number times a vector and another times a second one.
pub open spec fn mix(x: real, p: Triple, y: real, q: Triple) -> Triple {
    Triple { x: x * p.x + y * q.x, y: x * p.y + y * q.y, z: x * p.z + y * q.z }
}

/// A product of two components.
proof fn lemma_mix_one(x: real, y: real, z: real, t: real, a: real, b: real, c: real, d: real)
    ensures
        (x * a + y * b) * (z * c + t * d) == (x * z) * (a * c) + (x * t) * (a * d) + (y * z) * (b
            * c) + (y * t) * (b * d),
{
    lemma_foil(x * a, y * b, z * c, t * d);
    lemma_factors(x, a, z, c);
    lemma_factors(x, a, t, d);
    lemma_factors(y, b, z, c);
    lemma_factors(y, b, t, d);
}

/// A number times a vector.
pub open spec fn times(k: real, p: Triple) -> Triple {
    Triple { x: k * p.x, y: k * p.y, z: k * p.z }
}

/// The dot product of vectors in the plane of two axes.
pub proof fn lemma_mix_dot(x: real, y: real, z: real, t: real, p: Triple, q: Triple)
    requires
        p.dot(p) == 1real,
        q.dot(q) == 1real,
        p.dot(q) == 0real,
    ensures
        mix(x, p, y, q).dot(mix(z, p, t, q)) == x * z + y * t,
{
    lemma_mix_one(x, y, z, t, p.x, q.x, p.x, q.x);
    lemma_mix_one(x, y, z, t, p.y, q.y, p.y, q.y);
    lemma_mix_one(x, y, z, t, p.z, q.z, p.z, q.z);
    lemma_spread(x * z, p.x * p.x, p.y * p.y, p.z * p.z);
    lemma_spread(x * t, p.x * q.x, p.y * q.y, p.z * q.z);
    lemma_spread(y * z, q.x * p.x, q.y * p.y, q.z * p.z);
    lemma_spread(y * t, q.x * q.x, q.y * q.y, q.z * q.z);
    lemma_order(p.x, q.x, 1real);
    lemma_order(p.y, q.y, 1real);
    lemma_order(p.z, q.z, 1real);
    lemma_minus(x * z, 1real);
    lemma_minus(x * t, 1real);
    lemma_minus(y * z, 1real);
    lemma_minus(y * t, 1real);
}

/// A component of the cross product of vectors in the plane of two axes.
proof fn lemma_mix_cross_one(
    x: real,
    y: real,
    z: real,
    t: real,
    a: real,
    b: real,
    c: real,
    d: real,
)
    ensures
        (x * a + y * b) * (z * c + t * d) - (x * c + y * d) * (z * a + t * b) == (x * t - y * z)
            * (a * d - c * b),
{
    lemma_mix_one(x, y, z, t, a, b, c, d);
    lemma_mix_one(x, y, z, t, c, d, a, b);
    lemma_order(a, c, 1real);
    lemma_order(b, d, 1real);
    lemma_order(b, c, 1real);
    lemma_order(d, a, 1real);
    lemma_foil(x * t, -(y * z), a * d, -(c * b));
    lemma_minus(x * t, c * b);
    lemma_minus(-(y * z), c * b);
    lemma_order(-(y * z), a * d, 1real);
    lemma_minus(a * d, y * z);
    lemma_order(a * d, y * z, 1real);
    lemma_order(-(y * z), c * b, 1real);
    lemma_minus(c * b, y * z);
    lemma_order(c * b, y * z, 1real);
}

/// The square of what vectors in the plane of two axes span.
pub proof fn lemma_mix_cross(x: real, y: real, z: real, t: real, p: Triple, q: Triple)
    requires
        cross(p, q).dot(cross(p, q)) == 1real,
    ensures
        ({
            let n = cross(mix(x, p, y, q), mix(z, p, t, q));
            let m = x * t - y * z;
            &&& n.x == m * cross(p, q).x
            &&& n.y == m * cross(p, q).y
            &&& n.z == m * cross(p, q).z
            &&& n.dot(n) == m * m
        }),
{
    let m = x * t - y * z;
    let k = cross(p, q);
    lemma_mix_cross_one(x, y, z, t, p.y, q.y, p.z, q.z);
    lemma_mix_cross_one(x, y, z, t, p.z, q.z, p.x, q.x);
    lemma_mix_cross_one(x, y, z, t, p.x, q.x, p.y, q.y);
    lemma_factors(m, k.x, m, k.x);
    lemma_factors(m, k.y, m, k.y);
    lemma_factors(m, k.z, m, k.z);
    lemma_spread(m * m, k.x * k.x, k.y * k.y, k.z * k.z);
    lemma_minus(m * m, 1real);
}

/// Is `(x, y)` with the speed `(xd, yd)` where an object on a conic around the origin can be: at
/// the distance `r`, with the eccentricity `e` and the angular momentum `h`, and with perihelion
/// on the first axis.
pub open spec fn on_conic(x: real, y: real, xd: real, yd: real, e: real, h: real, r: real) -> bool {
    &&& 0real < r
    &&& 0real < h
    &&& 0real <= e
    &&& r * r == x * x + y * y
    &&& h * h == r + e * x
    &&& h * (xd * r) == -y
    &&& h * (yd * r) == e * r + x
}

/// The angular momentum on a conic.
pub proof fn lemma_momentum(x: real, y: real, xd: real, yd: real, e: real, h: real, r: real)
    requires
        on_conic(x, y, xd, yd, e, h, r),
    ensures
        x * yd - y * xd == h,
{
    let m = x * yd - y * xd;
    lemma_spread(r, x * yd, -(y * xd), 0real);
    lemma_minus(r, y * xd);
    lemma_swap(r, x, yd);
    lemma_swap(r, y, xd);
    assert(r * m == x * (yd * r) - y * (xd * r));
    lemma_minus(h, y * (xd * r));
    lemma_spread(h, x * (yd * r), -(y * (xd * r)), 0real);
    lemma_swap(h, x, yd * r);
    lemma_swap(h, y, xd * r);
    lemma_minus(y, y);
    lemma_minus(y, 1real);
    lemma_minus(x, 1real);
    lemma_spread(x, e * r, x, 0real);
    lemma_order(x, e, r);
    lemma_swap(h, r, m);
    lemma_spread(r, r, e * x, 0real);
    lemma_minus(r, 1real);
    assert(r * (h * m) == r * (h * h));
    lemma_cancel(r, h * m, h * h);
    lemma_cancel(h, m, h);
}

/// Both components of the eccentricity vector in the plane of the orbit, where `u` is one over the
/// distance.
pub proof fn lemma_eccentricity(
    x: real,
    y: real,
    xd: real,
    yd: real,
    e: real,
    h: real,
    r: real,
    u: real,
)
    requires
        on_conic(x, y, xd, yd, e, h, r),
        u * r == 1real,
    ensures
        (xd * xd + yd * yd - u) * x - (x * xd + y * yd) * xd == e,
        (xd * xd + yd * yd - u) * y - (x * xd + y * yd) * yd == 0real,
{
    lemma_momentum(x, y, xd, yd, e, h, r);
    let a = (xd * xd + yd * yd - u) * x - (x * xd + y * yd) * xd;
    let b = (xd * xd + yd * yd - u) * y - (x * xd + y * yd) * yd;
    lemma_side(x, y, xd, yd, u);
    lemma_side(y, x, yd, xd, u);
    // the first component
    assert(a == yd * h - u * x);
    lemma_spread(r, yd * h, -(u * x), 0real);
    lemma_minus(r, u * x);
    lemma_order(r, u, x);
    lemma_order(u, r, 1real);
    lemma_order(x, 1real, 1real);
    lemma_minus(x, 1real);
    lemma_order(u * r, x, 1real);
    lemma_order(r, e, 1real);
    assert(r * (u * x) == x);
    assert(r * (yd * h) == h * (yd * r)) by {
        lemma_order(r, yd, h);
        lemma_swap(h, yd, r);
        lemma_order(yd, r, h);
        lemma_order(r, h, 1real);
    }
    assert(r * a == r * e);
    lemma_cancel(r, a, e);
    // the second component
    lemma_minus(xd, h);
    assert(x * xd + y * yd == y * yd + x * xd);
    assert(y * xd - x * yd == -h);
    assert(b == xd * (-h) - u * y);
    lemma_spread(r, -(xd * h), -(u * y), 0real);
    lemma_minus(r, xd * h);
    lemma_minus(r, u * y);
    lemma_order(r, u, y);
    lemma_order(u * r, y, 1real);
    lemma_minus(y, 1real);
    lemma_order(y, 1real, 1real);
    assert(r * (u * y) == y);
    assert(r * (xd * h) == h * (xd * r)) by {
        lemma_order(r, xd, h);
        lemma_swap(h, xd, r);
        lemma_order(xd, r, h);
        lemma_order(r, h, 1real);
    }
    lemma_minus(r, 1real);
    lemma_cancel(r, b, 0real);
}

/// A component of the eccentricity vector by the angular momentum.
proof fn lemma_side(x: real, y: real, xd: real, yd: real, u: real)
    ensures
        (xd * xd + yd * yd - u) * x - (x * xd + y * yd) * xd == yd * (x * yd - y * xd) - u * x,
{
    lemma_order(xd * xd + yd * yd - u, x, 1real);
    lemma_spread(x, xd * xd, yd * yd, -u);
    lemma_minus(x, u);
    lemma_order(x, u, 1real);
    lemma_order(x * xd + y * yd, xd, 1real);
    lemma_spread(xd, x * xd, y * yd, 0real);
    lemma_minus(xd, 1real);
    lemma_swap(x, xd, xd);
    lemma_swap(xd, x, xd);
    lemma_swap(x, yd, yd);
    lemma_spread(yd, x * yd, -(y * xd), 0real);
    lemma_minus(yd, y * xd);
    lemma_minus(yd, 1real);
    lemma_swap(yd, x, yd);
    lemma_swap(yd, y, xd);
    lemma_swap(xd, y, yd);
}

/// The eccentricity vector and the angular momentum of an object on a conic in the plane of the
/// axes `p` and `q`.
pub proof fn lemma_vectors(
    x: real,
    y: real,
    xd: real,
    yd: real,
    e: real,
    h: real,
    r: real,
    u: real,
    p: Triple,
    q: Triple,
)
    requires
        on_conic(x, y, xd, yd, e, h, r),
        u * r == 1real,
        p.dot(p) == 1real,
        q.dot(q) == 1real,
        p.dot(q) == 0real,
        cross(p, q).dot(cross(p, q)) == 1real,
    ensures
        ({
            let pos = mix(x, p, y, q);
            let vel = mix(xd, p, yd, q);
            let k = vel.dot(vel) - u;
            let g = pos.dot(vel);
            let ecc = Triple {
                x: k * pos.x - g * vel.x,
                y: k * pos.y - g * vel.y,
                z: k * pos.z - g * vel.z,
            };
            let ang = cross(pos, vel);
            &&& pos.dot(pos) == r * r
            &&& vel.dot(vel) == xd * xd + yd * yd
            &&& g == x * xd + y * yd
            &&& ecc == times(e, p)
            &&& ecc.dot(ecc) == e * e
            &&& ang == times(h, cross(p, q))
            &&& ang.dot(ang) == h * h
        }),
{
    let pos = mix(x, p, y, q);
    let vel = mix(xd, p, yd, q);
    lemma_mix_dot(x, y, x, y, p, q);
    lemma_mix_dot(xd, yd, xd, yd, p, q);
    lemma_mix_dot(x, y, xd, yd, p, q);
    lemma_mix_cross(x, y, xd, yd, p, q);
    lemma_momentum(x, y, xd, yd, e, h, r);
    lemma_eccentricity(x, y, xd, yd, e, h, r, u);
    let k = vel.dot(vel) - u;
    let g = pos.dot(vel);
    lemma_along_axis(k, g, x, y, xd, yd, p.x, q.x, e);
    lemma_along_axis(k, g, x, y, xd, yd, p.y, q.y, e);
    lemma_along_axis(k, g, x, y, xd, yd, p.z, q.z, e);
    lemma_factors(e, p.x, e, p.x);
    lemma_factors(e, p.y, e, p.y);
    lemma_factors(e, p.z, e, p.z);
    lemma_spread(e * e, p.x * p.x, p.y * p.y, p.z * p.z);
    lemma_minus(e * e, 1real);
}

/// A component of the eccentricity vector.
proof fn lemma_along_axis(
    k: real,
    g: real,
    x: real,
    y: real,
    xd: real,
    yd: real,
    p: real,
    q: real,
    e: real,
)
    requires
        k * x - g * xd == e,
        k * y - g * yd == 0real,
    ensures
        k * (x * p + y * q) - g * (xd * p + yd * q) == e * p,
{
    lemma_spread(k, x * p, y * q, 0real);
    lemma_spread(g, xd * p, yd * q, 0real);
    lemma_minus(k, 1real);
    lemma_minus(g, 1real);
    lemma_order(k, x, p);
    lemma_order(k, y, q);
    lemma_order(g, xd, p);
    lemma_order(g, yd, q);
    lemma_order(k * x, p, 1real);
    lemma_order(g * xd, p, 1real);
    lemma_order(e, p, 1real);
    lemma_spread(p, k * x, -(g * xd), 0real);
    lemma_minus(p, g * xd);
    lemma_minus(p, 1real);
    lemma_order(k * y, q, 1real);
    lemma_order(g * yd, q, 1real);
    lemma_spread(q, k * y, -(g * yd), 0real);
    lemma_minus(q, g * yd);
    lemma_minus(q, 1real);
}

/// A point of an ellipse or a hyperbola with the axes `a` and `b`. The angle along the conic enters
/// by `c` and `s`, the distance is `a * l`, and `power` is `a` to the power of one and a half.
pub proof fn lemma_point(
    a: real,
    b: real,
    e: real,
    c: real,
    s: real,
    power: real,
    l: real,
    d: real,
    p: real,
    f: real,
    g: real,
)
    requires
        0real < a,
        0real < b,
        0real <= e,
        0real < power,
        0real < l,
        b * b == (a * a) * p,
        power * power == a * (a * a),
        f * (power * l) == -a,
        g * (power * l) == b,
        l * l == d * d + p * (s * s),
        l + e * d == p,
        e * l + d == c * p,
    ensures
        on_conic(a * d, b * s, f * s, g * c, e, a * (g * l), a * l),
        (a * (g * l)) * (a * (g * l)) == a * p,
{
    let (x, y, xd, yd) = (a * d, b * s, f * s, g * c);
    let h = a * (g * l);
    let r = a * l;
    let big = power * l;
    let aa = a * a;
    let cube = a * aa;
    lemma_positive(power, l);
    lemma_positive(a, l);
    lemma_positive(a, a);
    lemma_positive(a, aa);
    lemma_order(g, big, 1real);
    lemma_minus(big, g);
    lemma_minus(big, 1real);
    if g < 0real {
        lemma_positive(big, -g);
    }
    lemma_positive(g, l);
    lemma_positive(a, g * l);
    // the distance
    lemma_factors(a, l, a, l);
    lemma_factors(a, d, a, d);
    lemma_factors(b, s, b, s);
    lemma_order(aa, p, s * s);
    lemma_spread(aa, d * d, p * (s * s), 0real);
    lemma_minus(aa, 1real);
    assert(r * r == x * x + y * y);
    // the angular momentum
    lemma_order(a, g * l, power);
    lemma_order(g, l, power);
    lemma_order(l, power, 1real);
    assert(h * power == a * b);
    lemma_factors(h, power, h, power);
    lemma_factors(a, b, a, b);
    lemma_order(h * h, cube, 1real);
    assert(cube * (h * h) == aa * (aa * p));
    lemma_factors(a, aa, a, p);
    assert(aa * (aa * p) == cube * (a * p));
    lemma_cancel(cube, h * h, a * p);
    lemma_spread(a, l, e * d, 0real);
    lemma_minus(a, 1real);
    lemma_swap(a, e, d);
    assert(h * h == r + e * x);
    // the speed
    let k = power * big;
    lemma_positive(power, big);
    lemma_order(power, power, l);
    assert(k == cube * l);
    lemma_speed_term(power, big, h, f, s, r);
    assert(k * (h * (xd * r)) == (a * b) * (((-a) * s) * r));
    lemma_order(-a, s, 1real);
    lemma_minus(s, a);
    lemma_order(s, a, 1real);
    lemma_order(-(a * s), r, 1real);
    lemma_minus(r, a * s);
    lemma_order(r, a * s, 1real);
    lemma_minus(a * b, (a * s) * r);
    lemma_factors(a, s, a, l);
    lemma_factors(a, b, aa, s * l);
    lemma_order(b, s, l);
    lemma_order(cube, l, b * s);
    lemma_order(l, b * s, 1real);
    assert((a * b) * ((a * s) * r) == k * y);
    lemma_minus(k, y);
    lemma_cancel(k, h * (xd * r), -y);
    lemma_speed_term(power, big, h, g, c, r);
    assert(k * (h * (yd * r)) == (a * b) * ((b * c) * r));
    lemma_factors(b, c, a, l);
    lemma_order(a, b, 1real);
    lemma_order(a * b, a * b, c * l);
    lemma_order(cube, a * p, c * l);
    lemma_order(cube, l, a * (c * p));
    lemma_factors(a, p, c, l);
    lemma_order(a, c, p);
    lemma_swap(l, a * c, p);
    assert(k * (h * (yd * r)) == k * (a * (c * p)));
    lemma_spread(a, e * l, d, 0real);
    lemma_swap(a, e, l);
    assert(e * r + x == a * (c * p));
    lemma_cancel(k, h * (yd * r), e * r + x);
}

/// The factors of a component of the velocity in another order.
proof fn lemma_speed_term(power: real, big: real, h: real, f: real, s: real, r: real)
    ensures
        (power * big) * (h * ((f * s) * r)) == (h * power) * (((f * big) * s) * r),
{
    lemma_factors(power, big, h, (f * s) * r);
    lemma_order(power, h, 1real);
    lemma_order(big, f * s, r);
    lemma_order(big, f, s);
    lemma_order(big, f, 1real);
}

/// The terms which the shapes of ellipses and hyperbolas have in common.
pub proof fn lemma_shape(e: real, c: real)
    ensures
        (1real - e * c) + e * (c - e) == 1real - e * e,
        e * (1real - e * c) + (c - e) == c * (1real - e * e),
        (1real - e * c) * (1real - e * c) == (c - e) * (c - e) + (1real - e * e) * (1real - c * c),
{
    lemma_spread(e, c, -e, 0real);
    lemma_minus(e, e);
    lemma_minus(e, 1real);
    lemma_spread(e, 1real, -(e * c), 0real);
    lemma_minus(e, e * c);
    lemma_spread(c, 1real, -(e * e), 0real);
    lemma_minus(c, e * e);
    lemma_minus(c, 1real);
    lemma_order(e, e, c);
    lemma_order(c, e * e, 1real);
    lemma_foil(1real, -(e * c), 1real, -(e * c));
    lemma_minus(1real, e * c);
    lemma_square(e * c);
    lemma_order(1real, e * c, 1real);
    lemma_minus(e * c, 1real);
    lemma_order(-(e * c), 1real, 1real);
    lemma_minus(1real, 1real);
    lemma_factors(e, c, e, c);
    lemma_foil(c, -e, c, -e);
    lemma_minus(c, e);
    lemma_order(-e, c, 1real);
    lemma_square(e);
    lemma_order(e, c, 1real);
    lemma_foil(1real, -(e * e), 1real, -(c * c));
    lemma_minus(1real, c * c);
    lemma_minus(-(e * e), c * c);
    lemma_order(-(e * e), 1real, 1real);
    lemma_minus(-(e * e), 1real);
    lemma_order(-(e * e), c * c, 1real);
    lemma_minus(c * c, e * e);
    lemma_order(c * c, e * e, 1real);
    lemma_minus(c * c, 1real);
    lemma_order(1real, c * c, 1real);
}

/// On an ellipse the distance and the axes are positive.
pub proof fn lemma_inside(e: real, c: real, s: real)
    requires
        0real <= e < 1real,
        c * c + s * s == 1real,
    ensures
        0real < 1real - e * c,
        0real < 1real - e * e,
{
    lemma_square(s);
    if 1real < c {
        lemma_positive(c - 1real, c - 1real);
        lemma_foil(c, -1real, c, -1real);
        lemma_minus(c, 1real);
        lemma_order(c, -1real, 1real);
        lemma_minus(-1real, 1real);
        lemma_order(-1real, c, 1real);
    }
    lemma_spread(e, 1real, -c, 0real);
    lemma_minus(e, 1real);
    lemma_minus(e, c);
    lemma_spread(e, 1real, -e, 0real);
    lemma_minus(e, e);
    lemma_order(e, 0real, 1real);
    if 0real < e {
        lemma_positive(e, 1real - e);
        if c < 1real {
            lemma_positive(e, 1real - c);
        } else {
            assert(1real - c == 0real);
        }
    } else {
        lemma_order(e, c, 1real);
        lemma_minus(c, 1real);
    }
}

/// Half a turn more.
pub open spec fn opposite(t: Turn) -> Turn {
    Turn { sin: -t.sin, cos: -t.cos }
}

/// The same angle to the other side.
pub open spec fn mirrored(t: Turn) -> Turn {
    Turn { sin: -t.sin, cos: t.cos }
}

/// An orbit with a negative inclination is one with a positive inclination whose node is opposite.
pub proof fn lemma_flip(w: Turn, o: Turn, i: Turn)
    ensures
        toward(opposite(w), opposite(o), mirrored(i)) == toward(w, o, i),
        across(opposite(w), opposite(o), mirrored(i)) == across(w, o, i),
        w.exact() ==> opposite(w).exact(),
        o.exact() ==> opposite(o).exact(),
        i.exact() ==> mirrored(i).exact(),
{
    lemma_both(w.cos, o.cos);
    lemma_both(w.sin, o.sin);
    lemma_both(w.cos, o.sin);
    lemma_both(w.sin, o.cos);
    lemma_both(w.sin, i.sin);
    lemma_both(w.cos, i.sin);
    lemma_both(-w.sin, o.cos);
    lemma_both(-w.sin, o.sin);
    lemma_square(w.cos);
    lemma_square(w.sin);
    lemma_square(o.cos);
    lemma_square(o.sin);
    lemma_square(i.sin);
}

/// The product of two negatives.
proof fn lemma_both(a: real, b: real)
    ensures
        (-a) * (-b) == a * b,
{
    lemma_minus(-a, b);
    lemma_order(-a, b, 1real);
    lemma_minus(b, a);
    lemma_order(b, a, 1real);
}

/// An angle with a given cosine whose sine has a known sign.
pub proof fn lemma_same_turn(t: Turn, u: Turn)
    requires
        t.exact(),
        u.exact(),
        t.cos == u.cos,
        0real <= t.sin && 0real <= u.sin || t.sin <= 0real && u.sin <= 0real,
    ensures
        t == u,
{
    lemma_square(t.sin);
    lemma_square(u.sin);
    if 0real <= t.sin && 0real <= u.sin {
        lemma_same_square(t.sin, u.sin);
    } else {
        lemma_same_square(-t.sin, -u.sin);
    }
}

/// The angle of a point at the distance `size`.
pub proof fn lemma_angle_of(t: Turn, x: real, y: real, size: real)
    requires
        t.exact(),
        0real <= size,
        size * size == x * x + y * y,
        t.cos * y == t.sin * x,
        0real <= t.cos * x + t.sin * y,
    ensures
        t.cos * size == x,
        t.sin * size == y,
{
    let (c, s) = (t.cos, t.sin);
    let k = c * x + s * y;
    // the projection is the distance
    lemma_foil(c * x, s * y, c * x, s * y);
    lemma_factors(c, x, c, x);
    lemma_factors(s, y, s, y);
    lemma_factors(c, x, s, y);
    lemma_factors(s, y, c, x);
    lemma_order(s, c, 1real);
    lemma_order(y, x, 1real);
    lemma_factors(c, y, s, x);
    lemma_factors(c, y, c, y);
    lemma_factors(s, x, s, x);
    lemma_square(c * y);
    assert((c * y) * (s * x) == (c * y) * (c * y));
    assert((c * y) * (s * x) == (s * x) * (s * x));
    lemma_order(c * c + s * s, x * x + y * y, 1real);
    lemma_foil(c * c, s * s, x * x, y * y);
    lemma_order(1real, x * x + y * y, 1real);
    lemma_minus(x * x + y * y, 1real);
    assert(k * k == size * size);
    lemma_same_square(k, size);
    // the components
    lemma_spread(c, c * x, s * y, 0real);
    lemma_minus(c, 1real);
    lemma_order(c, c, x);
    lemma_swap(c, s, y);
    lemma_order(s, c, y);
    lemma_order(s, s, x);
    lemma_order(x, c * c, 1real);
    lemma_order(x, s * s, 1real);
    lemma_spread(x, c * c, s * s, 0real);
    lemma_minus(x, 1real);
    lemma_spread(s, c * x, s * y, 0real);
    lemma_minus(s, 1real);
    lemma_order(s, s, y);
    lemma_swap(s, c, x);
    lemma_order(c, s, x);
    lemma_order(c, c, y);
    lemma_order(y, c * c, 1real);
    lemma_order(y, s * s, 1real);
    lemma_spread(y, c * c, s * s, 0real);
    lemma_minus(y, 1real);
}

/// Towards the node the direction of perihelion has the cosine of the argument of perihelion.
pub proof fn lemma_from_node(w: Turn, o: Turn, i: Turn)
    requires
        o.exact(),
    ensures
        o.cos * toward(w, o, i).x + o.sin * toward(w, o, i).y == w.cos,
{
    let (c, s) = (o.cos, o.sin);
    let be = w.sin * i.cos;
    lemma_order(w.sin, s, i.cos);
    lemma_order(s, i.cos, 1real);
    lemma_order(w.sin, i.cos, s);
    lemma_order(w.sin, c, i.cos);
    lemma_order(c, i.cos, 1real);
    lemma_order(w.sin, i.cos, c);
    lemma_plane(1real, 0real, w.cos, be, c, s);
    lemma_order(1real, c, 1real);
    lemma_order(1real, s, 1real);
    lemma_minus(c, 1real);
    lemma_minus(s, 1real);
    lemma_order(0real, s, 1real);
    lemma_order(0real, c, 1real);
    lemma_order(1real, w.cos, 1real);
    lemma_minus(w.cos, 1real);
    lemma_order(0real, be, 1real);
    lemma_minus(be, 1real);
}

/// The product of position and velocity on a conic.
pub proof fn lemma_radial(x: real, y: real, xd: real, yd: real, e: real, h: real, r: real)
    requires
        on_conic(x, y, xd, yd, e, h, r),
    ensures
        h * (x * xd + y * yd) == e * y,
{
    let g = x * xd + y * yd;
    lemma_spread(r, x * xd, y * yd, 0real);
    lemma_swap(r, x, xd);
    lemma_swap(r, y, yd);
    lemma_minus(r, 1real);
    assert(r * g == x * (xd * r) + y * (yd * r));
    lemma_spread(h, x * (xd * r), y * (yd * r), 0real);
    lemma_minus(h, 1real);
    lemma_swap(h, x, xd * r);
    lemma_swap(h, y, yd * r);
    lemma_minus(x, y);
    lemma_minus(y, 1real);
    lemma_spread(y, e * r, x, 0real);
    lemma_order(x, y, 1real);
    lemma_order(y, e, r);
    lemma_swap(h, r, g);
    assert(r * (h * g) == r * (e * y));
    lemma_cancel(r, h * g, e * y);
}

/// The size of a conic by the speed, where `t` is two over the distance.
pub proof fn lemma_vis_viva(
    x: real,
    y: real,
    xd: real,
    yd: real,
    e: real,
    h: real,
    r: real,
    t: real,
)
    requires
        on_conic(x, y, xd, yd, e, h, r),
        t * r == 2real,
    ensures
        (h * h) * (t - (xd * xd + yd * yd)) == 1real - e * e,
{
    let vv = xd * xd + yd * yd;
    let (hh, rr, ee) = (h * h, r * r, e * e);
    let (a, b) = (xd * r, yd * r);
    lemma_positive(r, r);
    // the square of the speed
    lemma_factors(h, a, h, a);
    lemma_factors(h, b, h, b);
    lemma_factors(xd, r, xd, r);
    lemma_factors(yd, r, yd, r);
    lemma_order(xd * xd, rr, 1real);
    lemma_order(yd * yd, rr, 1real);
    lemma_spread(rr, xd * xd, yd * yd, 0real);
    lemma_minus(rr, 1real);
    lemma_spread(hh, a * a, b * b, 0real);
    lemma_minus(hh, 1real);
    lemma_square(y);
    assert(hh * (rr * vv) == y * y + (e * r + x) * (e * r + x));
    lemma_foil(e * r, x, e * r, x);
    lemma_factors(e, r, e, r);
    lemma_order(x, e * r, 1real);
    lemma_order(r, e, x);
    lemma_order(r, e, 1real);
    lemma_spread(r, hh, -r, 0real);
    lemma_minus(r, r);
    lemma_minus(r, 1real);
    lemma_order(r, hh, 1real);
    assert((e * r) * x == hh * r - rr);
    assert(hh * (rr * vv) == ee * rr - rr + 2real * (hh * r));
    // two over the distance
    lemma_order(t, r, r);
    lemma_order(t, rr, 1real);
    assert(rr * t == 2real * r);
    lemma_spread(rr, t, -vv, 0real);
    lemma_minus(rr, vv);
    lemma_spread(hh, rr * t, -(rr * vv), 0real);
    lemma_minus(hh, rr * vv);
    lemma_swap(hh, 2real, r);
    lemma_swap(hh, rr, t - vv);
    lemma_spread(rr, 1real, -ee, 0real);
    lemma_minus(rr, ee);
    lemma_order(rr, ee, 1real);
    assert(rr * (hh * (t - vv)) == rr * (1real - ee));
    lemma_cancel(rr, hh * (t - vv), 1real - ee);
}

/// The place on a conic fixes the velocity.
pub proof fn lemma_same_velocity(
    x: real,
    y: real,
    e: real,
    h: real,
    a: real,
    b: real,
    r: real,
    h2: real,
    c: real,
    d: real,
    r2: real,
)
    requires
        on_conic(x, y, a, b, e, h, r),
        on_conic(x, y, c, d, e, h2, r2),
        h * h == h2 * h2,
    ensures
        a == c,
        b == d,
{
    lemma_same_square(h, h2);
    lemma_same_square(r, r2);
    lemma_cancel(h, a * r, c * r);
    lemma_cancel(h, b * r, d * r);
    lemma_order(a, r, 1real);
    lemma_order(b, r, 1real);
    lemma_order(c, r, 1real);
    lemma_order(d, r, 1real);
    lemma_cancel(r, a, c);
    lemma_cancel(r, b, d);
}

} // verus!
