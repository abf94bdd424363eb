//! How far rounded results are from exact ones.
//!
//! A reading says which real number a bit pattern stands for. What follows holds for every
//! reading under which each operation is off by no more than a given amount.
use crate::arithmetic;
use crate::arithmetic::{Arithmetic, Binary};
use crate::float::F64;
use crate::frames::{InertialFrame, Vector};
use crate::matrix::Matrix3;
use vstd::prelude::*;

verus! {

/// The real number which a bit pattern stands for.
pub type Reading = spec_fn(F64) -> real;

/// Is `x` at most `size` away from zero.
pub open spec fn bounded(x: real, size: real) -> bool {
    -size <= x <= size
}

/// Are `x` and `y` at most `by` apart.
pub open spec fn near(x: real, y: real, by: real) -> bool {
    bounded(x - y, by)
}

/// Is the result `r` finite and close to the exact result.
pub open spec fn off_by(v: Reading, r: F64, exact: real, range: real, eps: real) -> bool {
    bounded(exact, range) ==> r.finite() && near(v(r), exact, eps)
}

/// Sums, differences and products of finite numbers are off by at most `eps`, where the exact
/// result is at most `range`.
pub open spec fn rounds<A: Arithmetic>(ops: &A, v: Reading, range: real, eps: real) -> bool {
    &&& 0real <= eps
    &&& forall|a: F64, b: F64|
        #![trigger ops.two(Binary::Add, a, b)]
        a.finite() && b.finite() ==> off_by(
            v,
            ops.two(Binary::Add, a, b),
            v(a) + v(b),
            range,
            eps,
        )
    &&& forall|a: F64, b: F64|
        #![trigger ops.two(Binary::Subtract, a, b)]
        a.finite() && b.finite() ==> off_by(
            v,
            ops.two(Binary::Subtract, a, b),
            v(a) - v(b),
            range,
            eps,
        )
    &&& forall|a: F64, b: F64|
        #![trigger ops.two(Binary::Multiply, a, b)]
        a.finite() && b.finite() ==> off_by(
            v,
            ops.two(Binary::Multiply, a, b),
            v(a) * v(b),
            range,
            eps,
        )
}

/// A product is no larger than the product of the sizes.
pub proof fn lemma_product(x: real, y: real, m: real, n: real)
    requires
        bounded(x, m),
        bounded(y, n),
    ensures
        bounded(x * y, m * n),
{
    assert(-(m * n) <= x * y <= m * n) by (nonlinear_arith)
        requires
            -m <= x <= m,
            -n <= y <= n,
    ;
}

/// The components of a vector as real numbers.
pub struct Triple {
    pub x: real,
    pub y: real,
    pub z: real,
}

/// The components of a vector as real numbers.
pub open spec fn read<T: InertialFrame>(v: Reading, a: Vector<T>) -> Triple {
    Triple { x: v(a.x), y: v(a.y), z: v(a.z) }
}

impl Triple {
    /// The dot product.
    pub open spec fn dot(self, other: Triple) -> real {
        self.x * other.x + self.y * other.y + self.z * other.z
    }

    /// Is no component larger than `size`.
    pub open spec fn bounded(self, size: real) -> bool {
        bounded(self.x, size) && bounded(self.y, size) && bounded(self.z, size)
    }

    /// Are all components at most `by` apart.
    pub open spec fn near(self, other: Triple, by: real) -> bool {
        near(self.x, other.x, by) && near(self.y, other.y, by) && near(self.z, other.z, by)
    }
}

/// A dot product with a vector whose components are at most one is off by five roundings.
pub proof fn lemma_dot<A: Arithmetic, T: InertialFrame>(
    ops: &A,
    v: Reading,
    range: real,
    eps: real,
    a: Vector<T>,
    b: Vector<T>,
    size: real,
)
    requires
        rounds(ops, v, range, eps),
        a.finite(),
        b.finite(),
        read(v, a).bounded(1real),
        read(v, b).bounded(size),
        0real <= size,
        3real * size + 4real * eps <= range,
    ensures
        a.dotted(ops, b).finite(),
        near(v(a.dotted(ops, b)), read(v, a).dot(read(v, b)), 5real * eps),
        bounded(read(v, a).dot(read(v, b)), 3real * size),
{
    lemma_product(v(a.x), v(b.x), 1real, size);
    lemma_product(v(a.y), v(b.y), 1real, size);
    lemma_product(v(a.z), v(b.z), 1real, size);
    let p = arithmetic::product(ops, a.x, b.x);
    let q = arithmetic::product(ops, a.y, b.y);
    let r = arithmetic::product(ops, a.z, b.z);
    let s = arithmetic::sum(ops, p, q);
    assert(off_by(v, p, v(a.x) * v(b.x), range, eps));
    assert(off_by(v, q, v(a.y) * v(b.y), range, eps));
    assert(off_by(v, r, v(a.z) * v(b.z), range, eps));
    assert(off_by(v, s, v(p) + v(q), range, eps));
    assert(off_by(v, arithmetic::sum(ops, s, r), v(s) + v(r), range, eps));
}

/// Do three vectors have length one and stand at right angles, up to `delta`.
pub open spec fn orthonormal(a: Triple, b: Triple, c: Triple, delta: real) -> bool {
    &&& near(a.dot(a), 1real, delta)
    &&& near(b.dot(b), 1real, delta)
    &&& near(c.dot(c), 1real, delta)
    &&& bounded(a.dot(b), delta)
    &&& bounded(b.dot(c), delta)
    &&& bounded(c.dot(a), delta)
}

/// A product with a sum of three is the sum of the products.
pub proof fn lemma_spread(a: real, b: real, c: real, d: real)
    ensures
        a * (b + c + d) == a * b + a * c + a * d,
{
    assert(a * (b + c + d) == a * b + a * c + a * d) by (nonlinear_arith);
}

/// The factors of a product can stand in any order.
pub proof fn lemma_order(a: real, b: real, c: real)
    ensures
        a * (b * c) == (a * b) * c,
        a * (b * c) == c * (b * a),
        a * b == b * a,
{
    assert(a * (b * c) == (a * b) * c) by (nonlinear_arith);
    assert(a * (b * c) == c * (b * a)) by (nonlinear_arith);
    assert(a * b == b * a) by (nonlinear_arith);
}

/// The vector with the components of `x` along three axes.
pub open spec fn combined(p: Triple, q: Triple, r: Triple, x: Triple) -> Triple {
    Triple {
        x: p.x * x.x + q.x * x.y + r.x * x.z,
        y: p.y * x.x + q.y * x.y + r.y * x.z,
        z: p.z * x.x + q.z * x.y + r.z * x.z,
    }
}

/// The product with a combination is the combination of the products.
proof fn lemma_combined(y: Triple, p: Triple, q: Triple, r: Triple, x: Triple)
    ensures
        y.dot(combined(p, q, r, x)) == y.dot(p) * x.x + y.dot(q) * x.y + y.dot(r) * x.z,
{
    lemma_spread(y.x, p.x * x.x, q.x * x.y, r.x * x.z);
    lemma_spread(y.y, p.y * x.x, q.y * x.y, r.y * x.z);
    lemma_spread(y.z, p.z * x.x, q.z * x.y, r.z * x.z);
    lemma_order(y.x, p.x, x.x);
    lemma_order(y.y, p.y, x.x);
    lemma_order(y.z, p.z, x.x);
    lemma_order(y.x, q.x, x.y);
    lemma_order(y.y, q.y, x.y);
    lemma_order(y.z, q.z, x.y);
    lemma_order(y.x, r.x, x.z);
    lemma_order(y.y, r.y, x.z);
    lemma_order(y.z, r.z, x.z);
    lemma_spread(x.x, y.x * p.x, y.y * p.y, y.z * p.z);
    lemma_spread(x.y, y.x * q.x, y.y * q.y, y.z * q.z);
    lemma_spread(x.z, y.x * r.x, y.y * r.y, y.z * r.z);
    lemma_order(x.x, y.dot(p), 1real);
    lemma_order(x.y, y.dot(q), 1real);
    lemma_order(x.z, y.dot(r), 1real);
    lemma_order(x.x, y.x * p.x, 1real);
    lemma_order(x.x, y.y * p.y, 1real);
    lemma_order(x.x, y.z * p.z, 1real);
    lemma_order(x.y, y.x * q.x, 1real);
    lemma_order(x.y, y.y * q.y, 1real);
    lemma_order(x.y, y.z * q.z, 1real);
    lemma_order(x.z, y.x * r.x, 1real);
    lemma_order(x.z, y.y * r.y, 1real);
    lemma_order(x.z, y.z * r.z, 1real);
}

/// The product with a vector that is known up to `err`.
proof fn lemma_dot_near(p: Triple, t: Triple, y: Triple, size: real, err: real)
    requires
        p.bounded(size),
        y.near(t, err),
        0real <= err,
    ensures
        near(p.dot(y), p.dot(t), 3real * (size * err)),
{
    lemma_product(p.x, y.x - t.x, size, err);
    lemma_product(p.y, y.y - t.y, size, err);
    lemma_product(p.z, y.z - t.z, size, err);
    lemma_spread(p.x, y.x, -t.x, 0real);
    lemma_spread(p.y, y.y, -t.y, 0real);
    lemma_spread(p.z, y.z, -t.z, 0real);
    lemma_minus(p.x, t.x);
    lemma_minus(p.y, t.y);
    lemma_minus(p.z, t.z);
}

/// A product with zero and with a negative.
pub proof fn lemma_minus(a: real, b: real)
    ensures
        a * (-b) == -(a * b),
        a * 0real == 0real,
        a * 1real == a,
{
    assert(a * (-b) == -(a * b)) by (nonlinear_arith);
    assert(a * 0real == 0real) by (nonlinear_arith);
    assert(a * 1real == a) by (nonlinear_arith);
}

/// The component along the first of three axes of a vector which is put together from them.
proof fn lemma_along(
    p: Triple,
    q: Triple,
    r: Triple,
    x: Triple,
    y: Triple,
    delta: real,
    size: real,
    err: real,
)
    requires
        p.bounded(1real),
        x.bounded(size),
        0real <= err,
        near(p.dot(p), 1real, delta),
        bounded(p.dot(q), delta),
        bounded(p.dot(r), delta),
        y.near(combined(p, q, r, x), err),
    ensures
        near(p.dot(y), x.x, 3real * (delta * size) + 3real * err),
{
    lemma_dot_near(p, combined(p, q, r, x), y, 1real, err);
    lemma_order(1real, err, 1real);
    lemma_minus(err, 1real);
    lemma_combined(p, p, q, r, x);
    lemma_product(p.dot(p) - 1real, x.x, delta, size);
    lemma_product(p.dot(q), x.y, delta, size);
    lemma_product(p.dot(r), x.z, delta, size);
    lemma_spread(x.x, p.dot(p), -1real, 0real);
    lemma_minus(x.x, 1real);
    lemma_order(x.x, p.dot(p), 1real);
    lemma_order(x.x, p.dot(p) - 1real, 1real);
}

/// The dot product does not depend on the order.
proof fn lemma_dot_order(a: Triple, b: Triple)
    ensures
        a.dot(b) == b.dot(a),
{
    lemma_order(a.x, b.x, 1real);
    lemma_order(a.y, b.y, 1real);
    lemma_order(a.z, b.z, 1real);
}

/// A vector which is turned is as long as before, up to the errors.
proof fn lemma_turned_length(
    p: Triple,
    q: Triple,
    r: Triple,
    x: Triple,
    y: Triple,
    delta: real,
    size: real,
    err: real,
)
    requires
        p.bounded(1real),
        q.bounded(1real),
        r.bounded(1real),
        x.bounded(size),
        y.bounded(3real * size + err),
        0real <= delta,
        0real <= size,
        0real <= err,
        orthonormal(p, q, r, delta),
        y.near(combined(p, q, r, x), err),
    ensures
        near(
            y.dot(y),
            x.dot(x),
            9real * (delta * (size * size)) + 18real * (size * err) + 3real * (err * err),
        ),
{
    let t = combined(p, q, r, x);
    let back = Triple { x: y.dot(p), y: y.dot(q), z: y.dot(r) };
    let off = 3real * (delta * size) + 3real * err;
    // the square of the length is the product with the combination
    lemma_dot_near(y, t, y, 3real * size + err, err);
    lemma_combined(y, p, q, r, x);
    // which is the product of the vector with its components turned back
    lemma_dot_order(y, p);
    lemma_dot_order(y, q);
    lemma_dot_order(y, r);
    lemma_dot_order(p, q);
    lemma_dot_order(q, r);
    lemma_dot_order(r, p);
    lemma_along(p, q, r, x, y, delta, size, err);
    lemma_along(q, r, p, Triple { x: x.y, y: x.z, z: x.x }, y, delta, size, err);
    lemma_along(r, p, q, Triple { x: x.z, y: x.x, z: x.y }, y, delta, size, err);
    lemma_product(delta, size, delta, size);
    lemma_dot_near(x, x, back, size, off);
    lemma_dot_order(x, back);
    // and the sizes of the errors
    lemma_spread(size, 3real * (delta * size), 3real * err, 0real);
    lemma_minus(size, 1real);
    lemma_order(size, 3real, delta * size);
    lemma_order(size, delta, size);
    lemma_order(delta, size, size);
    lemma_order(size, 3real, err);
    lemma_order(3real, size, err);
    lemma_order(3real, size, delta * size);
    lemma_spread(err, 3real * size, err, 0real);
    lemma_order(err, 3real * size + err, 1real);
    lemma_order(err, 3real, size);
    lemma_order(err, size, 1real);
    lemma_minus(err, 1real);
}

/// Is a matrix a rotation, up to `delta`.
pub open spec fn turns<T: InertialFrame>(v: Reading, m: Matrix3<T>, delta: real) -> bool {
    let t = m.transposed();
    &&& m.x.finite() && m.y.finite() && m.z.finite()
    &&& read(v, m.x).bounded(1real)
    &&& read(v, m.y).bounded(1real)
    &&& read(v, m.z).bounded(1real)
    &&& orthonormal(read(v, m.x), read(v, m.y), read(v, m.z), delta)
    &&& orthonormal(read(v, t.x), read(v, t.y), read(v, t.z), delta)
}

/// The transpose of a rotation is one.
pub proof fn lemma_transposed_turns<T: InertialFrame>(v: Reading, m: Matrix3<T>, delta: real)
    requires
        turns(v, m, delta),
    ensures
        turns(v, m.transposed(), delta),
        m.transposed().transposed() == m,
{
    crate::matrix::law_transpose_twice(m);
}

/// How long a vector may be after a rotation, when its components are at most `size`.
pub open spec fn turned_size(size: real, eps: real) -> real {
    3real * size + 5real * eps
}

/// Are the squares of the lengths of two vectors the same, up to five roundings of each component
/// and a rotation which is off by `delta`.
pub open spec fn same_length<T: InertialFrame, B: InertialFrame>(
    v: Reading,
    a: Vector<T>,
    b: Vector<B>,
    delta: real,
    size: real,
    eps: real,
) -> bool {
    near(
        read(v, a).dot(read(v, a)),
        read(v, b).dot(read(v, b)),
        9real * (delta * (size * size)) + 90real * (size * eps) + 75real * (eps * eps),
    )
}

/// A vector which is turned by a rotation keeps its length, and the transpose turns it back, both
/// up to rounding.
pub proof fn law_rotation<A: Arithmetic, T: InertialFrame>(
    ops: &A,
    v: Reading,
    range: real,
    eps: real,
    m: Matrix3<T>,
    delta: real,
    x: Vector<T>,
    size: real,
)
    requires
        rounds(ops, v, range, eps),
        0real <= delta,
        turns(v, m, delta),
        x.finite(),
        read(v, x).bounded(size),
        0real <= size,
        3real * turned_size(size, eps) + 4real * eps <= range,
    ensures
        m.applied(ops, x).finite(),
        read(v, m.applied(ops, x)).bounded(turned_size(size, eps)),
        same_length(v, m.applied(ops, x), x, delta, size, eps),
        m.transposed().applied(ops, m.applied(ops, x)).finite(),
        read(v, m.transposed().applied(ops, m.applied(ops, x))).near(
            read(v, x),
            3real * (delta * size) + 20real * eps,
        ),
{
    let y = m.applied(ops, x);
    let t = m.transposed();
    let err = 5real * eps;
    lemma_dot(ops, v, range, eps, m.x, x, size);
    lemma_dot(ops, v, range, eps, m.y, x, size);
    lemma_dot(ops, v, range, eps, m.z, x, size);
    let (p, q, r) = (read(v, t.x), read(v, t.y), read(v, t.z));
    let (a, b) = (read(v, x), read(v, y));
    lemma_turned_length(p, q, r, a, b, delta, size, err);
    assert(size * (5real * eps) == 5real * (size * eps)) by (nonlinear_arith);
    assert((5real * eps) * (5real * eps) == 25real * (eps * eps)) by (nonlinear_arith);
    let more = turned_size(size, eps);
    lemma_dot(ops, v, range, eps, t.x, y, more);
    lemma_dot(ops, v, range, eps, t.y, y, more);
    lemma_dot(ops, v, range, eps, t.z, y, more);
    lemma_dot_order(p, q);
    lemma_dot_order(q, r);
    lemma_dot_order(r, p);
    lemma_along(p, q, r, a, b, delta, size, err);
    let turned = Triple { x: a.y, y: a.z, z: a.x };
    lemma_along(q, r, p, turned, b, delta, size, err);
    let turned = Triple { x: a.z, y: a.x, z: a.y };
    lemma_along(r, p, q, turned, b, delta, size, err);
}

/// The product of two numbers which are known up to an error.
pub proof fn lemma_near_product(
    x: real,
    x0: real,
    y: real,
    y0: real,
    a: real,
    b: real,
    m: real,
    n: real,
)
    requires
        near(x, x0, a),
        near(y, y0, b),
        bounded(x0, m),
        bounded(y, n),
    ensures
        near(x * y, x0 * y0, a * n + m * b),
{
    lemma_product(x - x0, y, a, n);
    lemma_product(x0, y - y0, m, b);
    assert(x * y - x0 * y0 == (x - x0) * y + x0 * (y - y0)) by (nonlinear_arith);
}

/// Factors can be taken out of a product.
pub proof fn lemma_factors(k: real, x: real, l: real, y: real)
    ensures
        (k * x) * (l * y) == (k * l) * (x * y),
{
    assert((k * x) * (l * y) == (k * l) * (x * y)) by (nonlinear_arith);
}

} // verus!
