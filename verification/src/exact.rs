//! Vectors and their products as real numbers, where the operations on the way are exact.
use crate::arithmetic;
use crate::arithmetic::{Arithmetic, Kahan, Unary};
use crate::conics;
use crate::conics::{cross, times};
use crate::constants;
use crate::float::F64;
use crate::frames::{InertialFrame, Vector};
use crate::matrix::Matrix3;
use crate::numbers;
use crate::orbits::{adds, divides, multiplies, roots, subtracts};
use crate::rounding;
use crate::rounding::{read, Reading, Triple};
use vstd::prelude::*;

verus! {

/// The sum of two vectors.
pub open spec fn plus(a: Triple, b: Triple) -> Triple {
    Triple { x: a.x + b.x, y: a.y + b.y, z: a.z + b.z }
}

/// The difference of two vectors.
pub open spec fn minus(a: Triple, b: Triple) -> Triple {
    Triple { x: a.x - b.x, y: a.y - b.y, z: a.z - b.z }
}

/// No vector.
pub open spec fn nothing() -> Triple {
    Triple { x: 0real, y: 0real, z: 0real }
}

/// Is a sum of vectors exact.
pub open spec fn sums<A: Arithmetic, T: InertialFrame>(
    ops: &A,
    v: Reading,
    a: Vector<T>,
    b: Vector<T>,
) -> bool {
    adds(ops, v, a.x, b.x) && adds(ops, v, a.y, b.y) && adds(ops, v, a.z, b.z)
}

/// Is a difference of vectors exact.
pub open spec fn differs<A: Arithmetic, T: InertialFrame>(
    ops: &A,
    v: Reading,
    a: Vector<T>,
    b: Vector<T>,
) -> bool {
    subtracts(ops, v, a.x, b.x) && subtracts(ops, v, a.y, b.y) && subtracts(ops, v, a.z, b.z)
}

/// Is a vector times a number exact.
pub open spec fn scales<A: Arithmetic, T: InertialFrame>(
    ops: &A,
    v: Reading,
    a: Vector<T>,
    k: F64,
) -> bool {
    multiplies(ops, v, a.x, k) && multiplies(ops, v, a.y, k) && multiplies(ops, v, a.z, k)
}

/// Is a vector over a number exact.
pub open spec fn shrinks<A: Arithmetic, T: InertialFrame>(
    ops: &A,
    v: Reading,
    a: Vector<T>,
    k: F64,
) -> bool {
    divides(ops, v, a.x, k) && divides(ops, v, a.y, k) && divides(ops, v, a.z, k)
}

/// Is a dot product exact.
pub open spec fn dots<A: Arithmetic, T: InertialFrame>(
    ops: &A,
    v: Reading,
    a: Vector<T>,
    b: Vector<T>,
) -> bool {
    let (p, q, r) = (
        arithmetic::product(ops, a.x, b.x),
        arithmetic::product(ops, a.y, b.y),
        arithmetic::product(ops, a.z, b.z),
    );
    &&& multiplies(ops, v, a.x, b.x)
    &&& multiplies(ops, v, a.y, b.y)
    &&& multiplies(ops, v, a.z, b.z)
    &&& adds(ops, v, p, q)
    &&& adds(ops, v, arithmetic::sum(ops, p, q), r)
}

/// Is one component of a cross product exact.
pub open spec fn turns<A: Arithmetic>(
    ops: &A,
    v: Reading,
    a: F64,
    b: F64,
    c: F64,
    d: F64,
) -> bool {
    &&& multiplies(ops, v, a, b)
    &&& multiplies(ops, v, c, d)
    &&& subtracts(ops, v, arithmetic::product(ops, a, b), arithmetic::product(ops, c, d))
}

/// Is a cross product exact.
pub open spec fn crosses<A: Arithmetic, T: InertialFrame>(
    ops: &A,
    v: Reading,
    a: Vector<T>,
    b: Vector<T>,
) -> bool {
    &&& turns(ops, v, a.y, b.z, a.z, b.y)
    &&& turns(ops, v, a.z, b.x, a.x, b.z)
    &&& turns(ops, v, a.x, b.y, a.y, b.x)
}

/// Is the length of a vector exact.
pub open spec fn measures<A: Arithmetic, T: InertialFrame>(
    ops: &A,
    v: Reading,
    a: Vector<T>,
) -> bool {
    dots(ops, v, a, a) && roots(ops, v, a.dotted(ops, a))
}

/// Is the direction of a vector exact, and is the vector not zero.
pub open spec fn directs<A: Arithmetic, T: InertialFrame>(
    ops: &A,
    v: Reading,
    a: Vector<T>,
) -> bool {
    &&& measures(ops, v, a)
    &&& v(a.length(ops)) != 0real
    &&& shrinks(ops, v, a, a.length(ops))
}

/// Is a matrix times a vector exact.
pub open spec fn applies<A: Arithmetic, T: InertialFrame>(
    ops: &A,
    v: Reading,
    m: Matrix3<T>,
    a: Vector<T>,
) -> bool {
    dots(ops, v, m.x, a) && dots(ops, v, m.y, a) && dots(ops, v, m.z, a)
}

/// Is one over the cube of a number exact.
pub open spec fn inverts_cube<A: Arithmetic>(ops: &A, v: Reading, a: F64) -> bool {
    v(ops.one(Unary::InverseCube, a)) * (v(a) * (v(a) * v(a))) == 1real
}

/// What a matrix makes of a vector, as real numbers.
pub open spec fn mapped<T: InertialFrame>(v: Reading, m: Matrix3<T>, x: Triple) -> Triple {
    Triple { x: read(v, m.x).dot(x), y: read(v, m.y).dot(x), z: read(v, m.z).dot(x) }
}

/// A vector times a number.
pub proof fn lemma_scaled<A: Arithmetic, T: InertialFrame>(
    ops: &A,
    v: Reading,
    a: Vector<T>,
    k: F64,
)
    requires
        scales(ops, v, a, k),
    ensures
        read(v, a.scaled(ops, k)) == times(v(k), read(v, a)),
{
    rounding::lemma_order(v(k), v(a.x), 1real);
    rounding::lemma_order(v(k), v(a.y), 1real);
    rounding::lemma_order(v(k), v(a.z), 1real);
}

/// A vector over a number.
pub proof fn lemma_shrunk<A: Arithmetic, T: InertialFrame>(
    ops: &A,
    v: Reading,
    a: Vector<T>,
    k: F64,
)
    requires
        shrinks(ops, v, a, k),
    ensures
        times(v(k), read(v, a.shrunk(ops, k))) == read(v, a),
{
    let b = a.shrunk(ops, k);
    rounding::lemma_order(v(k), v(b.x), 1real);
    rounding::lemma_order(v(k), v(b.y), 1real);
    rounding::lemma_order(v(k), v(b.z), 1real);
}

/// The dot product does not depend on the order.
pub proof fn lemma_dot_order(a: Triple, b: Triple)
    ensures
        a.dot(b) == b.dot(a),
{
    rounding::lemma_order(a.x, b.x, 1real);
    rounding::lemma_order(a.y, b.y, 1real);
    rounding::lemma_order(a.z, b.z, 1real);
}

/// The dot product with a sum.
pub proof fn lemma_dot_plus(a: Triple, b: Triple, c: Triple)
    ensures
        a.dot(plus(b, c)) == a.dot(b) + a.dot(c),
        a.dot(minus(b, c)) == a.dot(b) - a.dot(c),
{
    rounding::lemma_spread(a.x, b.x, c.x, 0real);
    rounding::lemma_spread(a.y, b.y, c.y, 0real);
    rounding::lemma_spread(a.z, b.z, c.z, 0real);
    rounding::lemma_spread(a.x, b.x, -c.x, 0real);
    rounding::lemma_spread(a.y, b.y, -c.y, 0real);
    rounding::lemma_spread(a.z, b.z, -c.z, 0real);
    rounding::lemma_minus(a.x, c.x);
    rounding::lemma_minus(a.y, c.y);
    rounding::lemma_minus(a.z, c.z);
}

/// The dot product with a multiple.
pub proof fn lemma_dot_times(a: Triple, k: real, b: Triple)
    ensures
        a.dot(times(k, b)) == k * a.dot(b),
        times(k, b).dot(a) == k * a.dot(b),
{
    conics::lemma_swap(a.x, k, b.x);
    conics::lemma_swap(a.y, k, b.y);
    conics::lemma_swap(a.z, k, b.z);
    rounding::lemma_spread(k, a.x * b.x, a.y * b.y, a.z * b.z);
    lemma_dot_order(a, times(k, b));
}

/// A cross product is at right angles to both factors.
pub proof fn lemma_cross_across(a: Triple, b: Triple)
    ensures
        a.dot(cross(a, b)) == 0real,
        b.dot(cross(a, b)) == 0real,
{
    let n = cross(a, b);
    rounding::lemma_spread(a.x, a.y * b.z, -(a.z * b.y), 0real);
    rounding::lemma_spread(a.y, a.z * b.x, -(a.x * b.z), 0real);
    rounding::lemma_spread(a.z, a.x * b.y, -(a.y * b.x), 0real);
    rounding::lemma_spread(b.x, a.y * b.z, -(a.z * b.y), 0real);
    rounding::lemma_spread(b.y, a.z * b.x, -(a.x * b.z), 0real);
    rounding::lemma_spread(b.z, a.x * b.y, -(a.y * b.x), 0real);
    rounding::lemma_minus(a.x, a.z * b.y);
    rounding::lemma_minus(a.y, a.x * b.z);
    rounding::lemma_minus(a.z, a.y * b.x);
    rounding::lemma_minus(b.x, a.z * b.y);
    rounding::lemma_minus(b.y, a.x * b.z);
    rounding::lemma_minus(b.z, a.y * b.x);
    conics::lemma_swap(a.x, a.y, b.z);
    conics::lemma_swap(a.x, a.z, b.y);
    conics::lemma_swap(a.y, a.z, b.x);
    conics::lemma_swap(b.x, a.y, b.z);
    conics::lemma_swap(b.z, a.y, b.x);
    conics::lemma_swap(b.x, a.z, b.y);
    conics::lemma_swap(b.y, a.z, b.x);
    conics::lemma_swap(b.y, a.x, b.z);
    conics::lemma_swap(b.z, a.x, b.y);
    rounding::lemma_order(b.z, b.x, 1real);
    rounding::lemma_order(b.y, b.x, 1real);
    rounding::lemma_order(b.z, b.y, 1real);
    rounding::lemma_minus(a.x, 1real);
}

/// The direction of a vector has length one, and the length times it is the vector.
pub proof fn lemma_unit<A: Arithmetic, T: InertialFrame>(ops: &A, v: Reading, a: Vector<T>)
    requires
        directs(ops, v, a),
    ensures
        times(v(a.length(ops)), read(v, a.unit(ops))) == read(v, a),
        read(v, a.unit(ops)).dot(read(v, a.unit(ops))) == 1real,
        0real < v(a.length(ops)),
        v(a.length(ops)) * v(a.length(ops)) == read(v, a).dot(read(v, a)),
{
    let r = v(a.length(ops));
    let u = read(v, a.unit(ops));
    lemma_shrunk(ops, v, a, a.length(ops));
    lemma_dot_times(times(r, u), r, u);
    lemma_dot_times(u, r, u);
    rounding::lemma_order(r, r, u.dot(u));
    conics::lemma_square(r);
    rounding::lemma_minus(r * r, 1real);
    conics::lemma_cancel(r * r, u.dot(u), 1real);
}

/// Multiples of multiples.
pub proof fn lemma_times_times(j: real, k: real, a: Triple)
    ensures
        times(j, times(k, a)) == times(j * k, a),
{
    rounding::lemma_order(j, k, a.x);
    rounding::lemma_order(j, k, a.y);
    rounding::lemma_order(j, k, a.z);
}

/// A multiple of a sum.
pub proof fn lemma_times_plus(k: real, a: Triple, b: Triple)
    ensures
        times(k, plus(a, b)) == plus(times(k, a), times(k, b)),
        times(k, minus(a, b)) == minus(times(k, a), times(k, b)),
{
    rounding::lemma_spread(k, a.x, b.x, 0real);
    rounding::lemma_spread(k, a.y, b.y, 0real);
    rounding::lemma_spread(k, a.z, b.z, 0real);
    rounding::lemma_spread(k, a.x, -b.x, 0real);
    rounding::lemma_spread(k, a.y, -b.y, 0real);
    rounding::lemma_spread(k, a.z, -b.z, 0real);
    rounding::lemma_minus(k, b.x);
    rounding::lemma_minus(k, b.y);
    rounding::lemma_minus(k, b.z);
}

/// The cross product with multiples and sums.
pub proof fn lemma_cross_times(j: real, a: Triple, k: real, b: Triple)
    ensures
        cross(times(j, a), times(k, b)) == times(j * k, cross(a, b)),
{
    rounding::lemma_factors(j, a.y, k, b.z);
    rounding::lemma_factors(j, a.z, k, b.y);
    rounding::lemma_factors(j, a.z, k, b.x);
    rounding::lemma_factors(j, a.x, k, b.z);
    rounding::lemma_factors(j, a.x, k, b.y);
    rounding::lemma_factors(j, a.y, k, b.x);
    let m = j * k;
    rounding::lemma_spread(m, a.y * b.z, -(a.z * b.y), 0real);
    rounding::lemma_spread(m, a.z * b.x, -(a.x * b.z), 0real);
    rounding::lemma_spread(m, a.x * b.y, -(a.y * b.x), 0real);
    rounding::lemma_minus(m, a.z * b.y);
    rounding::lemma_minus(m, a.x * b.z);
    rounding::lemma_minus(m, a.y * b.x);
}

/// The cross product with a sum.
pub proof fn lemma_cross_plus(a: Triple, b: Triple, c: Triple)
    ensures
        cross(a, plus(b, c)) == plus(cross(a, b), cross(a, c)),
{
    rounding::lemma_spread(a.x, b.y, c.y, 0real);
    rounding::lemma_spread(a.x, b.z, c.z, 0real);
    rounding::lemma_spread(a.y, b.x, c.x, 0real);
    rounding::lemma_spread(a.y, b.z, c.z, 0real);
    rounding::lemma_spread(a.z, b.x, c.x, 0real);
    rounding::lemma_spread(a.z, b.y, c.y, 0real);
    rounding::lemma_minus(a.x, 1real);
    rounding::lemma_minus(a.y, 1real);
    rounding::lemma_minus(a.z, 1real);
}

/// The cross product of a vector with a multiple of itself is zero.
pub proof fn lemma_cross_self(a: Triple)
    ensures
        cross(a, a) == nothing(),
{
    rounding::lemma_order(a.x, a.y, 1real);
    rounding::lemma_order(a.x, a.z, 1real);
    rounding::lemma_order(a.y, a.z, 1real);
}

/// The square of a difference of products.
proof fn lemma_square_difference(p: real, q: real)
    ensures
        (p - q) * (p - q) == p * p - 2real * (p * q) + q * q,
{
    conics::lemma_foil(p, -q, p, -q);
    conics::lemma_square(q);
    rounding::lemma_minus(p, q);
    rounding::lemma_order(-q, p, 1real);
    rounding::lemma_order(p, q, 1real);
}

/// The length of a cross product.
pub proof fn lemma_lagrange(a: Triple, b: Triple)
    ensures
        cross(a, b).dot(cross(a, b)) == a.dot(a) * b.dot(b) - a.dot(b) * a.dot(b),
{
    let (x, y, z) = (a.x * b.x, a.y * b.y, a.z * b.z);
    lemma_square_difference(a.y * b.z, a.z * b.y);
    lemma_square_difference(a.z * b.x, a.x * b.z);
    lemma_square_difference(a.x * b.y, a.y * b.x);
    let (axx, ayy, azz) = (a.x * a.x, a.y * a.y, a.z * a.z);
    let (bxx, byy, bzz) = (b.x * b.x, b.y * b.y, b.z * b.z);
    rounding::lemma_factors(a.y, b.z, a.y, b.z);
    rounding::lemma_factors(a.z, b.y, a.z, b.y);
    rounding::lemma_factors(a.z, b.x, a.z, b.x);
    rounding::lemma_factors(a.x, b.z, a.x, b.z);
    rounding::lemma_factors(a.x, b.y, a.x, b.y);
    rounding::lemma_factors(a.y, b.x, a.y, b.x);
    // the mixed products
    lemma_mixed(a.y, b.z, a.z, b.y);
    lemma_mixed(a.z, b.x, a.x, b.z);
    lemma_mixed(a.x, b.y, a.y, b.x);
    // the squares of the products
    rounding::lemma_factors(a.x, b.x, a.x, b.x);
    rounding::lemma_factors(a.y, b.y, a.y, b.y);
    rounding::lemma_factors(a.z, b.z, a.z, b.z);
    rounding::lemma_spread(x, x, y, z);
    rounding::lemma_spread(y, x, y, z);
    rounding::lemma_spread(z, x, y, z);
    let d = a.dot(b);
    rounding::lemma_spread(d, x, y, z);
    rounding::lemma_order(d, x, 1real);
    rounding::lemma_order(d, y, 1real);
    rounding::lemma_order(d, z, 1real);
    rounding::lemma_order(x, y, 1real);
    rounding::lemma_order(x, z, 1real);
    rounding::lemma_order(y, z, 1real);
    // the product of the squares
    let bb = b.dot(b);
    rounding::lemma_spread(bb, axx, ayy, azz);
    rounding::lemma_order(bb, a.dot(a), 1real);
    rounding::lemma_spread(axx, bxx, byy, bzz);
    rounding::lemma_spread(ayy, bxx, byy, bzz);
    rounding::lemma_spread(azz, bxx, byy, bzz);
    rounding::lemma_order(bb, axx, 1real);
    rounding::lemma_order(bb, ayy, 1real);
    rounding::lemma_order(bb, azz, 1real);
}

/// A product of mixed products.
proof fn lemma_mixed(ay: real, bz: real, az: real, by: real)
    ensures
        (ay * bz) * (az * by) == (ay * by) * (az * bz),
{
    rounding::lemma_factors(ay, bz, az, by);
    rounding::lemma_factors(ay, by, az, bz);
    rounding::lemma_order(bz, by, 1real);
}

/// A matrix maps sums to sums and multiples to multiples.
pub proof fn lemma_mapped<T: InertialFrame>(
    v: Reading,
    m: Matrix3<T>,
    j: real,
    a: Triple,
    k: real,
    b: Triple,
)
    ensures
        mapped(v, m, plus(times(j, a), times(k, b))) == plus(
            times(j, mapped(v, m, a)),
            times(k, mapped(v, m, b)),
        ),
        mapped(v, m, minus(times(j, a), times(k, b))) == minus(
            times(j, mapped(v, m, a)),
            times(k, mapped(v, m, b)),
        ),
        mapped(v, m, times(j, a)) == times(j, mapped(v, m, a)),
{
    let (x, y, z) = (read(v, m.x), read(v, m.y), read(v, m.z));
    lemma_dot_plus(x, times(j, a), times(k, b));
    lemma_dot_plus(y, times(j, a), times(k, b));
    lemma_dot_plus(z, times(j, a), times(k, b));
    lemma_dot_times(x, j, a);
    lemma_dot_times(y, j, a);
    lemma_dot_times(z, j, a);
    lemma_dot_times(x, k, b);
    lemma_dot_times(y, k, b);
    lemma_dot_times(z, k, b);
}

/// Do the rows of a matrix have length one and stand at right angles.
pub open spec fn rotates<T: InertialFrame>(v: Reading, m: Matrix3<T>) -> bool {
    let (x, y, z) = (read(v, m.x), read(v, m.y), read(v, m.z));
    &&& x.dot(x) == 1real && y.dot(y) == 1real && z.dot(z) == 1real
    &&& x.dot(y) == 0real && x.dot(z) == 0real && y.dot(z) == 0real
}

/// A matrix which rotates undoes its transpose.
pub proof fn lemma_rotated_back<T: InertialFrame>(v: Reading, m: Matrix3<T>, p: Triple)
    requires
        rotates(v, m),
    ensures
        mapped(v, m, mapped(v, m.transposed(), p)) == p,
        mapped(v, m.transposed(), p).dot(mapped(v, m.transposed(), p)) == p.dot(p),
{
    let (x, y, z) = (read(v, m.x), read(v, m.y), read(v, m.z));
    let q = mapped(v, m.transposed(), p);
    // the transposed matrix makes the combination of the rows
    let c = plus(plus(times(p.x, x), times(p.y, y)), times(p.z, z));
    rounding::lemma_order(p.x, x.x, 1real);
    rounding::lemma_order(p.x, x.y, 1real);
    rounding::lemma_order(p.x, x.z, 1real);
    rounding::lemma_order(p.y, y.x, 1real);
    rounding::lemma_order(p.y, y.y, 1real);
    rounding::lemma_order(p.y, y.z, 1real);
    rounding::lemma_order(p.z, z.x, 1real);
    rounding::lemma_order(p.z, z.y, 1real);
    rounding::lemma_order(p.z, z.z, 1real);
    assert(q == c);
    lemma_parts(x, x, y, z, p);
    lemma_parts(y, x, y, z, p);
    lemma_parts(z, x, y, z, p);
    lemma_dot_order(x, y);
    lemma_dot_order(x, z);
    lemma_dot_order(y, z);
    rounding::lemma_minus(p.x, 1real);
    rounding::lemma_minus(p.y, 1real);
    rounding::lemma_minus(p.z, 1real);
    lemma_parts(q, x, y, z, p);
    lemma_dot_order(q, x);
    lemma_dot_order(q, y);
    lemma_dot_order(q, z);
}

/// The product with a combination of three vectors.
pub proof fn lemma_parts(q: Triple, a: Triple, b: Triple, c: Triple, p: Triple)
    ensures
        q.dot(plus(plus(times(p.x, a), times(p.y, b)), times(p.z, c))) == p.x * q.dot(a) + p.y
            * q.dot(b) + p.z * q.dot(c),
{
    let (x, y, z) = (times(p.x, a), times(p.y, b), times(p.z, c));
    lemma_dot_plus(q, plus(x, y), z);
    lemma_dot_plus(q, x, y);
    lemma_dot_times(q, p.x, a);
    lemma_dot_times(q, p.y, b);
    lemma_dot_times(q, p.z, c);
}

/// A matrix makes nothing of nothing.
pub proof fn lemma_mapped_nothing<T: InertialFrame>(v: Reading, m: Matrix3<T>)
    ensures
        mapped(v, m, nothing()) == nothing(),
{
    let (x, y, z) = (read(v, m.x), read(v, m.y), read(v, m.z));
    rounding::lemma_minus(x.x, 1real);
    rounding::lemma_minus(x.y, 1real);
    rounding::lemma_minus(x.z, 1real);
    rounding::lemma_minus(y.x, 1real);
    rounding::lemma_minus(y.y, 1real);
    rounding::lemma_minus(y.z, 1real);
    rounding::lemma_minus(z.x, 1real);
    rounding::lemma_minus(z.y, 1real);
    rounding::lemma_minus(z.z, 1real);
}

/// The product of two vectors is at most the product of their lengths.
pub proof fn lemma_cauchy(a: Triple, b: Triple, r: real, s: real)
    requires
        0real <= r,
        r * r == a.dot(a),
        0real <= s,
        s * s == b.dot(b),
    ensures
        -(r * s) <= a.dot(b) <= r * s,
{
    let d = a.dot(b);
    let n = cross(a, b);
    lemma_lagrange(a, b);
    conics::lemma_square(n.x);
    conics::lemma_square(n.y);
    conics::lemma_square(n.z);
    rounding::lemma_factors(r, s, r, s);
    let q = r * s;
    assert(d * d <= q * q);
    assert(0real <= q) by {
        if 0real < r && 0real < s {
            conics::lemma_positive(r, s);
        } else {
            rounding::lemma_minus(r, 1real);
            rounding::lemma_order(0real, s, 1real);
            rounding::lemma_minus(s, 1real);
        }
    }
    conics::lemma_foil(q, d, q, -d);
    rounding::lemma_minus(q, d);
    rounding::lemma_minus(d, d);
    rounding::lemma_order(q, d, 1real);
    if q < d {
        conics::lemma_positive(d - q, q + d);
        rounding::lemma_order(d - q, q + d, 1real);
        rounding::lemma_minus(q + d, d - q);
    } else if d < -q {
        conics::lemma_positive(q - d, -(q + d));
        rounding::lemma_minus(q - d, q + d);
        rounding::lemma_order(q - d, q + d, 1real);
    }
}

/// Is the angle between two vectors exact: the arc cosine is undone by `cosine`, and a number past
/// one or minus one is told from it.
pub open spec fn angles<A: Arithmetic, T: InertialFrame>(
    ops: &A,
    v: Reading,
    cosine: spec_fn(real) -> real,
    a: Vector<T>,
    b: Vector<T>,
) -> bool {
    let zero = F64 { bits: 0 };
    let one = F64 { bits: constants::ONE };
    let lengths = arithmetic::product(ops, a.length(ops), b.length(ops));
    let c = arithmetic::quotient(ops, a.dotted(ops, b), lengths);
    &&& !a.length(ops).same(zero) && !b.length(ops).same(zero)
    &&& v(a.length(ops)) != 0real && v(b.length(ops)) != 0real
    &&& measures(ops, v, a) && measures(ops, v, b) && dots(ops, v, a, b)
    &&& multiplies(ops, v, a.length(ops), b.length(ops))
    &&& divides(ops, v, a.dotted(ops, b), lengths)
    &&& c.spec_lt(one.negated()) ==> v(c) < -1real
    &&& one.spec_lt(c) ==> 1real < v(c)
    &&& cosine(v(ops.one(Unary::Acos, c))) == v(c)
}

/// The cosine of the angle between two vectors, times their lengths `r` and `s`, is their product.
pub proof fn law_angle<A: Arithmetic, T: InertialFrame>(
    ops: &A,
    v: Reading,
    cosine: spec_fn(real) -> real,
    a: Vector<T>,
    b: Vector<T>,
    r: real,
    s: real,
)
    requires
        angles(ops, v, cosine, a, b),
        0real <= r,
        r * r == read(v, a).dot(read(v, a)),
        0real <= s,
        s * s == read(v, b).dot(read(v, b)),
    ensures
        0real < r,
        0real < s,
        cosine(v(a.angled(ops, b))) * (r * s) == read(v, a).dot(read(v, b)),
{
    let (p, q) = (read(v, a), read(v, b));
    let lengths = arithmetic::product(ops, a.length(ops), b.length(ops));
    let c = arithmetic::quotient(ops, a.dotted(ops, b), lengths);
    conics::lemma_same_square(r, v(a.length(ops)));
    conics::lemma_same_square(s, v(b.length(ops)));
    lemma_cauchy(p, q, r, s);
    conics::lemma_positive(r, s);
    let k = r * s;
    assert(v(c) * k == p.dot(q));
    if v(c) < -1real {
        conics::lemma_positive(k, -1real - v(c));
        rounding::lemma_spread(k, -1real, -v(c), 0real);
        rounding::lemma_minus(k, 1real);
        rounding::lemma_minus(k, v(c));
        rounding::lemma_order(k, v(c), 1real);
    }
    if 1real < v(c) {
        conics::lemma_positive(k, v(c) - 1real);
        rounding::lemma_spread(k, v(c), -1real, 0real);
        rounding::lemma_minus(k, 1real);
        rounding::lemma_order(k, v(c), 1real);
    }
}

/// The sum of `f(0)` to `f(n - 1)`.
pub open spec fn total(f: spec_fn(int) -> real, n: nat) -> real
    decreases n,
{
    if n == 0 {
        0real
    } else {
        total(f, (n - 1) as nat) + f(n - 1)
    }
}

/// Sums of the same numbers.
pub proof fn lemma_total_same(f: spec_fn(int) -> real, g: spec_fn(int) -> real, n: nat)
    requires
        forall|k: int| 0 <= k < n ==> #[trigger] f(k) == g(k),
    ensures
        total(f, n) == total(g, n),
    decreases n,
{
    if n > 0 {
        lemma_total_same(f, g, (n - 1) as nat);
        assert(f(n - 1) == g(n - 1));
    }
}

/// The sum of the multiples `a * f(k) + b * g(k)`.
pub proof fn lemma_total_mix(
    a: real,
    f: spec_fn(int) -> real,
    b: real,
    g: spec_fn(int) -> real,
    h: spec_fn(int) -> real,
    n: nat,
)
    requires
        forall|k: int| 0 <= k < n ==> #[trigger] h(k) == a * f(k) + b * g(k),
    ensures
        total(h, n) == a * total(f, n) + b * total(g, n),
    decreases n,
{
    rounding::lemma_minus(a, 1real);
    rounding::lemma_minus(b, 1real);
    if n > 0 {
        let m = (n - 1) as nat;
        lemma_total_mix(a, f, b, g, h, m);
        assert(h(n - 1) == a * f(n - 1) + b * g(n - 1));
        rounding::lemma_spread(a, total(f, m), f(n - 1), 0real);
        rounding::lemma_spread(b, total(g, m), g(n - 1), 0real);
    }
}

/// The sum of multiples.
pub proof fn lemma_total_times(
    a: real,
    f: spec_fn(int) -> real,
    h: spec_fn(int) -> real,
    n: nat,
)
    requires
        forall|k: int| 0 <= k < n ==> #[trigger] h(k) == a * f(k),
    ensures
        total(h, n) == a * total(f, n),
    decreases n,
{
    rounding::lemma_minus(a, 1real);
    if n > 0 {
        let m = (n - 1) as nat;
        lemma_total_times(a, f, h, m);
        assert(h(n - 1) == a * f(n - 1));
        rounding::lemma_spread(a, total(f, m), f(n - 1), 0real);
    }
}

/// Is the sum of the products of the first `n` numbers exact.
pub open spec fn dots_up<A: Arithmetic>(
    ops: &A,
    v: Reading,
    a: Seq<F64>,
    b: Seq<F64>,
    n: nat,
) -> bool
    decreases n,
{
    if n == 0 {
        v(F64 { bits: 0 }) == 0real
    } else {
        let m = (n - 1) as nat;
        &&& dots_up(ops, v, a, b, m)
        &&& multiplies(ops, v, a[n - 1], b[n - 1])
        &&& adds(
            ops,
            v,
            numbers::dot(ops, a, b, m),
            arithmetic::product(ops, a[n - 1], b[n - 1]),
        )
    }
}

/// The sum of the products of the first `n` numbers.
pub proof fn lemma_dots_up<A: Arithmetic>(
    ops: &A,
    v: Reading,
    a: Seq<F64>,
    b: Seq<F64>,
    n: nat,
)
    requires
        dots_up(ops, v, a, b, n),
    ensures
        v(numbers::dot(ops, a, b, n)) == total(|k: int| v(a[k]) * v(b[k]), n),
    decreases n,
{
    if n > 0 {
        lemma_dots_up(ops, v, a, b, (n - 1) as nat);
    }
}

/// `t` to the power `k`.
pub open spec fn power(t: real, k: nat) -> real
    decreases k,
{
    if k == 0 {
        1real
    } else {
        power(t, (k - 1) as nat) * t
    }
}

/// A whole number as a real one.
pub open spec fn count(n: nat) -> real
    decreases n,
{
    if n == 0 {
        0real
    } else {
        count((n - 1) as nat) + 1real
    }
}

/// One of `n` equal shares.
pub open spec fn share(n: nat) -> real {
    1real / count(n)
}

/// Counting goes up.
pub proof fn lemma_count(n: nat)
    ensures
        0real <= count(n),
        n > 0 ==> 1real <= count(n),
    decreases n,
{
    if n > 0 {
        lemma_count((n - 1) as nat);
    }
}

/// The shares make up the whole, and what makes up the whole is a share.
pub proof fn lemma_share(n: nat, x: real)
    requires
        n > 0,
        x * count(n) == 1real,
    ensures
        x == share(n),
{
    lemma_count(n);
    let c = count(n);
    let y = 1real / c;
    assert(y * c == 1real) by (nonlinear_arith)
        requires
            1real <= c,
            y == 1real / c,
    ;
    rounding::lemma_order(x, c, 1real);
    rounding::lemma_order(y, c, 1real);
    conics::lemma_cancel(c, x, y);
}

/// The count of a sum and of a product.
pub proof fn lemma_count_product(a: nat, b: nat)
    ensures
        count(a + b) == count(a) + count(b),
        count(a * b) == count(a) * count(b),
    decreases b,
{
    rounding::lemma_minus(count(a), 1real);
    if b == 0 {
        assert(a * b == 0);
    } else {
        let m = (b - 1) as nat;
        lemma_count_product(a, m);
        lemma_count_sum(a * m, a);
        assert(a * b == a * m + a) by (nonlinear_arith)
            requires
                b == m + 1,
        ;
        rounding::lemma_spread(count(a), count(m), 1real, 0real);
    }
}

/// The count of a sum.
proof fn lemma_count_sum(a: nat, b: nat)
    ensures
        count(a + b) == count(a) + count(b),
    decreases b,
{
    if b > 0 {
        lemma_count_sum(a, (b - 1) as nat);
    }
}

/// A share of a share.
pub proof fn lemma_share_of_share(a: nat, b: nat)
    requires
        a > 0,
        b > 0,
    ensures
        share(a) * share(b) == share(a * b),
        share(a) * count(a) == 1real,
{
    lemma_count(a);
    lemma_count(b);
    let (c, d) = (count(a), count(b));
    let (x, y) = (share(a), share(b));
    assert(x * c == 1real) by (nonlinear_arith)
        requires
            1real <= c,
            x == 1real / c,
    ;
    assert(y * d == 1real) by (nonlinear_arith)
        requires
            1real <= d,
            y == 1real / d,
    ;
    lemma_count_product(a, b);
    rounding::lemma_factors(x, y, c, d);
    rounding::lemma_minus(1real, 1real);
    assert(a * b > 0) by (nonlinear_arith)
        requires
            a > 0,
            b > 0,
    ;
    lemma_share(a * b, x * y);
}

/// One to any power.
pub proof fn lemma_power_one(k: nat)
    ensures
        power(1real, k) == 1real,
    decreases k,
{
    if k > 0 {
        lemma_power_one((k - 1) as nat);
        rounding::lemma_minus(1real, 1real);
    }
}

/// What a compensated number stands for.
pub open spec fn held(v: Reading, x: Kahan) -> real {
    v(x.value) - v(x.excess)
}

/// A step of a compensated number loses nothing, however its sum is rounded: what the sum gets
/// wrong is kept.
pub proof fn law_compensated<A: Arithmetic>(ops: &A, v: Reading, x: Kahan, step: F64)
    requires
        ({
            let wanted = arithmetic::difference(ops, step, x.excess);
            let value = arithmetic::sum(ops, x.value, wanted);
            &&& subtracts(ops, v, step, x.excess)
            &&& subtracts(ops, v, value, x.value)
            &&& subtracts(ops, v, arithmetic::difference(ops, value, x.value), wanted)
        }),
    ensures
        held(v, x.moved(ops, step)) == held(v, x) + v(step),
{
}

/// Is a sum of matrices exact.
pub open spec fn adds_up<A: Arithmetic, T: InertialFrame>(
    ops: &A,
    v: Reading,
    a: Matrix3<T>,
    b: Matrix3<T>,
) -> bool {
    sums(ops, v, a.x, b.x) && sums(ops, v, a.y, b.y) && sums(ops, v, a.z, b.z)
}

/// Is a difference of matrices exact.
pub open spec fn takes_off<A: Arithmetic, T: InertialFrame>(
    ops: &A,
    v: Reading,
    a: Matrix3<T>,
    b: Matrix3<T>,
) -> bool {
    differs(ops, v, a.x, b.x) && differs(ops, v, a.y, b.y) && differs(ops, v, a.z, b.z)
}

/// What the sum of two matrices makes of a vector.
pub proof fn lemma_mapped_sum<A: Arithmetic, T: InertialFrame>(
    ops: &A,
    v: Reading,
    a: Matrix3<T>,
    b: Matrix3<T>,
    x: Triple,
)
    requires
        adds_up(ops, v, a, b),
    ensures
        mapped(v, a.sum(ops, b), x) == plus(mapped(v, a, x), mapped(v, b, x)),
{
    lemma_dot_sum(x, read(v, a.x), read(v, b.x));
    lemma_dot_sum(x, read(v, a.y), read(v, b.y));
    lemma_dot_sum(x, read(v, a.z), read(v, b.z));
}

/// What the difference of two matrices makes of a vector.
pub proof fn lemma_mapped_difference<A: Arithmetic, T: InertialFrame>(
    ops: &A,
    v: Reading,
    a: Matrix3<T>,
    b: Matrix3<T>,
    x: Triple,
)
    requires
        takes_off(ops, v, a, b),
    ensures
        mapped(v, a.difference(ops, b), x) == minus(mapped(v, a, x), mapped(v, b, x)),
{
    lemma_dot_sum(x, read(v, a.x), read(v, b.x));
    lemma_dot_sum(x, read(v, a.y), read(v, b.y));
    lemma_dot_sum(x, read(v, a.z), read(v, b.z));
}

/// The dot product of a sum and of a difference.
proof fn lemma_dot_sum(x: Triple, a: Triple, b: Triple)
    ensures
        plus(a, b).dot(x) == a.dot(x) + b.dot(x),
        minus(a, b).dot(x) == a.dot(x) - b.dot(x),
{
    lemma_dot_plus(x, a, b);
    lemma_dot_order(x, plus(a, b));
    lemma_dot_order(x, minus(a, b));
    lemma_dot_order(x, a);
    lemma_dot_order(x, b);
}

/// Is the product of a column and a row exact.
pub open spec fn outers<A: Arithmetic, T: InertialFrame>(
    ops: &A,
    v: Reading,
    a: Vector<T>,
    b: Vector<T>,
) -> bool {
    scales(ops, v, b, a.x) && scales(ops, v, b, a.y) && scales(ops, v, b, a.z)
}

/// Is a matrix times a number exact.
pub open spec fn grows<A: Arithmetic, T: InertialFrame>(
    ops: &A,
    v: Reading,
    m: Matrix3<T>,
    k: F64,
) -> bool {
    scales(ops, v, m.x, k) && scales(ops, v, m.y, k) && scales(ops, v, m.z, k)
}

/// What the product of a column and a row makes of a vector.
pub proof fn lemma_mapped_outer<A: Arithmetic, T: InertialFrame>(
    ops: &A,
    v: Reading,
    a: Vector<T>,
    b: Vector<T>,
    x: Triple,
)
    requires
        outers(ops, v, a, b),
    ensures
        mapped(v, a.outer(ops, b), x) == times(read(v, b).dot(x), read(v, a)),
{
    lemma_scaled(ops, v, b, a.x);
    lemma_scaled(ops, v, b, a.y);
    lemma_scaled(ops, v, b, a.z);
    let (p, q) = (read(v, a), read(v, b));
    lemma_dot_times(x, p.x, q);
    lemma_dot_times(x, p.y, q);
    lemma_dot_times(x, p.z, q);
    lemma_dot_order(x, q);
    let d = q.dot(x);
    rounding::lemma_order(d, p.x, 1real);
    rounding::lemma_order(d, p.y, 1real);
    rounding::lemma_order(d, p.z, 1real);
}

/// What a multiple of a matrix makes of a vector.
pub proof fn lemma_mapped_scaled<A: Arithmetic, T: InertialFrame>(
    ops: &A,
    v: Reading,
    m: Matrix3<T>,
    k: F64,
    x: Triple,
)
    requires
        grows(ops, v, m, k),
    ensures
        mapped(v, m.scaled(ops, k), x) == times(v(k), mapped(v, m, x)),
{
    lemma_scaled(ops, v, m.x, k);
    lemma_scaled(ops, v, m.y, k);
    lemma_scaled(ops, v, m.z, k);
    lemma_dot_times(x, v(k), read(v, m.x));
    lemma_dot_times(x, v(k), read(v, m.y));
    lemma_dot_times(x, v(k), read(v, m.z));
    lemma_dot_order(x, read(v, m.x));
    lemma_dot_order(x, read(v, m.y));
    lemma_dot_order(x, read(v, m.z));
}

/// What a diagonal matrix makes of a vector.
pub proof fn lemma_mapped_diagonal<T: InertialFrame>(v: Reading, a: F64, b: F64, c: F64, x: Triple)
    requires
        v(F64 { bits: constants::ZERO }) == 0real,
    ensures
        mapped(v, Matrix3::<T>::diagonal(a, b, c), x) == (Triple {
            x: v(a) * x.x,
            y: v(b) * x.y,
            z: v(c) * x.z,
        }),
{
    rounding::lemma_order(0real, x.x, 1real);
    rounding::lemma_order(0real, x.y, 1real);
    rounding::lemma_order(0real, x.z, 1real);
    rounding::lemma_minus(x.x, 1real);
    rounding::lemma_minus(x.y, 1real);
    rounding::lemma_minus(x.z, 1real);
}

/// Is one row of a product of matrices exact.
pub open spec fn row_multiplies<A: Arithmetic, T: InertialFrame>(
    ops: &A,
    v: Reading,
    row: Vector<T>,
    m: Matrix3<T>,
) -> bool {
    let c = m.transposed();
    dots(ops, v, row, c.x) && dots(ops, v, row, c.y) && dots(ops, v, row, c.z)
}

/// Is a product of matrices exact.
pub open spec fn composes<A: Arithmetic, T: InertialFrame>(
    ops: &A,
    v: Reading,
    a: Matrix3<T>,
    b: Matrix3<T>,
) -> bool {
    row_multiplies(ops, v, a.x, b) && row_multiplies(ops, v, a.y, b) && row_multiplies(
        ops,
        v,
        a.z,
        b,
    )
}

/// A row of a product of matrices, applied to a vector.
proof fn lemma_row_multiplied(r: Triple, bx: Triple, by: Triple, bz: Triple, x: Triple)
    ensures
        (Triple {
            x: r.dot(Triple { x: bx.x, y: by.x, z: bz.x }),
            y: r.dot(Triple { x: bx.y, y: by.y, z: bz.y }),
            z: r.dot(Triple { x: bx.z, y: by.z, z: bz.z }),
        }).dot(x) == r.dot(Triple { x: bx.dot(x), y: by.dot(x), z: bz.dot(x) }),
{
    rounding::lemma_spread(r.x, bx.x * x.x, bx.y * x.y, bx.z * x.z);
    rounding::lemma_spread(r.y, by.x * x.x, by.y * x.y, by.z * x.z);
    rounding::lemma_spread(r.z, bz.x * x.x, bz.y * x.y, bz.z * x.z);
    rounding::lemma_spread(x.x, r.x * bx.x, r.y * by.x, r.z * bz.x);
    rounding::lemma_spread(x.y, r.x * bx.y, r.y * by.y, r.z * bz.y);
    rounding::lemma_spread(x.z, r.x * bx.z, r.y * by.z, r.z * bz.z);
    rounding::lemma_order(x.x, r.x * bx.x + r.y * by.x + r.z * bz.x, 1real);
    rounding::lemma_order(x.y, r.x * bx.y + r.y * by.y + r.z * bz.y, 1real);
    rounding::lemma_order(x.z, r.x * bx.z + r.y * by.z + r.z * bz.z, 1real);
    rounding::lemma_order(r.x, bx.x, x.x);
    rounding::lemma_order(r.x, bx.y, x.y);
    rounding::lemma_order(r.x, bx.z, x.z);
    rounding::lemma_order(r.y, by.x, x.x);
    rounding::lemma_order(r.y, by.y, x.y);
    rounding::lemma_order(r.y, by.z, x.z);
    rounding::lemma_order(r.z, bz.x, x.x);
    rounding::lemma_order(r.z, bz.y, x.y);
    rounding::lemma_order(r.z, bz.z, x.z);
    rounding::lemma_order(x.x, r.x * bx.x, 1real);
    rounding::lemma_order(x.x, r.y * by.x, 1real);
    rounding::lemma_order(x.x, r.z * bz.x, 1real);
    rounding::lemma_order(x.y, r.x * bx.y, 1real);
    rounding::lemma_order(x.y, r.y * by.y, 1real);
    rounding::lemma_order(x.y, r.z * bz.y, 1real);
    rounding::lemma_order(x.z, r.x * bx.z, 1real);
    rounding::lemma_order(x.z, r.y * by.z, 1real);
    rounding::lemma_order(x.z, r.z * bz.z, 1real);
}

/// What a product of matrices makes of a vector is what the first makes of what the second makes of
/// it.
pub proof fn law_product_of_matrices<A: Arithmetic, T: InertialFrame>(
    ops: &A,
    v: Reading,
    a: Matrix3<T>,
    b: Matrix3<T>,
    x: Triple,
)
    requires
        composes(ops, v, a, b),
    ensures
        mapped(v, a.multiplied(ops, b), x) == mapped(v, a, mapped(v, b, x)),
{
    let (bx, by, bz) = (read(v, b.x), read(v, b.y), read(v, b.z));
    lemma_row_multiplied(read(v, a.x), bx, by, bz, x);
    lemma_row_multiplied(read(v, a.y), bx, by, bz, x);
    lemma_row_multiplied(read(v, a.z), bx, by, bz, x);
}

/// Is a matrix over a number exact.
pub open spec fn fades<A: Arithmetic, T: InertialFrame>(
    ops: &A,
    v: Reading,
    m: Matrix3<T>,
    k: F64,
) -> bool {
    shrinks(ops, v, m.x, k) && shrinks(ops, v, m.y, k) && shrinks(ops, v, m.z, k)
}

/// What a matrix over a number makes of a vector.
pub proof fn lemma_mapped_shrunk<A: Arithmetic, T: InertialFrame>(
    ops: &A,
    v: Reading,
    m: Matrix3<T>,
    k: F64,
    x: Triple,
)
    requires
        fades(ops, v, m, k),
    ensures
        times(v(k), mapped(v, m.shrunk(ops, k), x)) == mapped(v, m, x),
{
    let n = m.shrunk(ops, k);
    lemma_shrunk(ops, v, m.x, k);
    lemma_shrunk(ops, v, m.y, k);
    lemma_shrunk(ops, v, m.z, k);
    lemma_dot_times(x, v(k), read(v, n.x));
    lemma_dot_times(x, v(k), read(v, n.y));
    lemma_dot_times(x, v(k), read(v, n.z));
    lemma_dot_order(x, read(v, n.x));
    lemma_dot_order(x, read(v, n.y));
    lemma_dot_order(x, read(v, n.z));
    lemma_dot_order(x, read(v, m.x));
    lemma_dot_order(x, read(v, m.y));
    lemma_dot_order(x, read(v, m.z));
}

/// Equal multiples of vectors are multiples of equal vectors.
pub proof fn lemma_cancel_times(k: real, a: Triple, b: Triple)
    requires
        0real < k,
        times(k, a) == times(k, b),
    ensures
        a == b,
{
    conics::lemma_cancel(k, a.x, b.x);
    conics::lemma_cancel(k, a.y, b.y);
    conics::lemma_cancel(k, a.z, b.z);
}

/// Once a vector is that vector, and no part of one is nothing.
pub proof fn lemma_times_one(x: Triple)
    ensures
        times(1real, x) == x,
        times(0real, x) == nothing(),
        (Triple { x: 1real * x.x, y: 1real * x.y, z: 1real * x.z }) == x,
{
    rounding::lemma_order(1real, x.x, 1real);
    rounding::lemma_order(1real, x.y, 1real);
    rounding::lemma_order(1real, x.z, 1real);
    rounding::lemma_order(0real, x.x, 1real);
    rounding::lemma_order(0real, x.y, 1real);
    rounding::lemma_order(0real, x.z, 1real);
    rounding::lemma_minus(x.x, 1real);
    rounding::lemma_minus(x.y, 1real);
    rounding::lemma_minus(x.z, 1real);
}

} // verus!
