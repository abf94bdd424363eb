//! Numbers which are apart by a factor that is near to one.
use crate::accuracy;
use crate::arithmetic;
use crate::arithmetic::{Arithmetic, Binary, Unary};
use crate::conics;
use crate::constants;
use crate::float::F64;
use crate::orbits;
use crate::rounding;
use crate::rounding::{near, Reading};
use vstd::prelude::*;

verus! {

/// Are two numbers apart by at most the factor `k`, whichever is larger.
pub open spec fn ratio(x1: real, x: real, k: real) -> bool {
    x <= k * x1 && x1 <= k * x
}

/// `k` to the power of `n`.
pub open spec fn raised(k: real, n: nat) -> real
    decreases n,
{
    if n == 0 {
        1real
    } else {
        k * raised(k, (n - 1) as nat)
    }
}

/// Powers of what is at least one are at least one.
pub proof fn lemma_raised(k: real, n: nat)
    requires
        1real <= k,
    ensures
        1real <= raised(k, n),
    decreases n,
{
    if n > 0 {
        lemma_raised(k, (n - 1) as nat);
        accuracy::lemma_grow(k, raised(k, (n - 1) as nat));
    }
}

/// The product of powers.
pub proof fn lemma_raised_sum(k: real, m: nat, n: nat)
    ensures
        raised(k, m) * raised(k, n) == raised(k, m + n),
    decreases m,
{
    if m == 0 {
        rounding::lemma_minus(raised(k, n), 1real);
        rounding::lemma_order(raised(k, n), 1real, 1real);
    } else {
        let j = (m - 1) as nat;
        lemma_raised_sum(k, j, n);
        rounding::lemma_order(k, raised(k, j), raised(k, n));
        assert((m + n - 1) as nat == j + n);
    }
}

/// `n` times `x`.
pub open spec fn repeated(x: real, n: nat) -> real
    decreases n,
{
    if n == 0 {
        0real
    } else {
        x + repeated(x, (n - 1) as nat)
    }
}

/// A power of what is a little more than one is a little more than one.
pub proof fn lemma_raised_small(x: real, n: nat)
    requires
        0real <= x,
        2real * repeated(x, n) <= 1real,
    ensures
        0real <= repeated(x, n),
        raised(1real + x, n) <= 1real + 2real * repeated(x, n),
    decreases n,
{
    if n > 0 {
        let m = (n - 1) as nat;
        let s = 2real * repeated(x, m);
        lemma_repeated(x, m);
        lemma_raised_small(x, m);
        accuracy::lemma_scale(1real + x, raised(1real + x, m), 1real + s);
        conics::lemma_foil(1real, x, 1real, s);
        rounding::lemma_minus(x, 1real);
        rounding::lemma_order(1real, s, 1real);
        rounding::lemma_minus(s, 1real);
        accuracy::lemma_scale(x, s, 1real);
    }
}

/// Sums of what is not negative are not negative.
proof fn lemma_repeated(x: real, n: nat)
    requires
        0real <= x,
    ensures
        0real <= repeated(x, n),
    decreases n,
{
    if n > 0 {
        lemma_repeated(x, (n - 1) as nat);
    }
}

/// What is apart from a positive number by a factor is positive.
pub proof fn lemma_ratio_positive(x1: real, x: real, k: real)
    requires
        1real <= k,
        0real < x,
        ratio(x1, x, k),
    ensures
        0real < x1,
{
    if x1 <= 0real {
        accuracy::lemma_scale(k, x1, 0real);
        rounding::lemma_minus(k, 1real);
    }
}

/// The larger of two products of numbers which are not negative.
proof fn lemma_larger_product(a: real, b: real, c: real, d: real)
    requires
        0real <= a <= c,
        0real <= b <= d,
    ensures
        a * b <= c * d,
{
    accuracy::lemma_scale(a, b, d);
    accuracy::lemma_scale(d, a, c);
    rounding::lemma_order(a, d, 1real);
    rounding::lemma_order(c, d, 1real);
}

/// Factors multiply along a chain.
pub proof fn lemma_ratio_link(x2: real, x1: real, x: real, i: real, j: real)
    requires
        1real <= i,
        1real <= j,
        ratio(x2, x1, i),
        ratio(x1, x, j),
    ensures
        ratio(x2, x, i * j),
{
    accuracy::lemma_scale(j, x1, i * x2);
    accuracy::lemma_scale(i, x1, j * x);
    rounding::lemma_order(j, i, x2);
    rounding::lemma_order(i, j, x);
    rounding::lemma_order(i, j, 1real);
}

/// Factors add up along a chain.
pub proof fn lemma_ratio_chain(x2: real, x1: real, x: real, k: real, m: nat, n: nat)
    requires
        1real <= k,
        ratio(x2, x1, raised(k, m)),
        ratio(x1, x, raised(k, n)),
    ensures
        ratio(x2, x, raised(k, m + n)),
{
    lemma_raised(k, m);
    lemma_raised(k, n);
    lemma_raised_sum(k, m, n);
    lemma_ratio_link(x2, x1, x, raised(k, m), raised(k, n));
}

/// Factors add up in a product.
pub proof fn lemma_ratio_product(a1: real, a: real, b1: real, b: real, k: real, m: nat, n: nat)
    requires
        1real <= k,
        0real < a,
        0real < b,
        ratio(a1, a, raised(k, m)),
        ratio(b1, b, raised(k, n)),
    ensures
        ratio(a1 * b1, a * b, raised(k, m + n)),
        0real < a1,
        0real < b1,
        0real < a * b,
        0real < a1 * b1,
{
    let (i, j) = (raised(k, m), raised(k, n));
    lemma_raised(k, m);
    lemma_raised(k, n);
    lemma_raised_sum(k, m, n);
    lemma_ratio_positive(a1, a, i);
    lemma_ratio_positive(b1, b, j);
    conics::lemma_positive(a, b);
    conics::lemma_positive(a1, b1);
    lemma_larger_product(a, b, i * a1, j * b1);
    lemma_larger_product(a1, b1, i * a, j * b);
    rounding::lemma_factors(i, a1, j, b1);
    rounding::lemma_factors(i, a, j, b);
}

/// Factors add up in a quotient.
pub proof fn lemma_ratio_quotient(q1: real, q: real, b1: real, b: real, k: real, m: nat, n: nat)
    requires
        1real <= k,
        0real < q,
        0real < b,
        ratio(q1 * b1, q * b, raised(k, m)),
        ratio(b1, b, raised(k, n)),
    ensures
        ratio(q1, q, raised(k, m + n)),
        0real < q1,
        0real < b1,
{
    let (i, j) = (raised(k, m), raised(k, n));
    lemma_raised(k, m);
    lemma_raised(k, n);
    lemma_raised_sum(k, m, n);
    lemma_ratio_positive(b1, b, j);
    conics::lemma_positive(q, b);
    lemma_ratio_positive(q1 * b1, q * b, i);
    orbits::lemma_positive_factor(q1, b1);
    // q b is at most i q1 b1, which is at most i q1 j b
    let s = i * j;
    accuracy::lemma_scale(q1, b1, j * b);
    accuracy::lemma_scale(i, q1 * b1, q1 * (j * b));
    conics::lemma_swap(q1, j, b);
    rounding::lemma_order(i, j, q1 * b);
    rounding::lemma_order(s, q1, b);
    assert(q * b <= (s * q1) * b);
    lemma_smaller_factor(q, s * q1, b);
    // q1 b1 is at most i q b, which is at most i q j b1
    accuracy::lemma_scale(q, b, j * b1);
    accuracy::lemma_scale(i, q * b, q * (j * b1));
    conics::lemma_swap(q, j, b1);
    rounding::lemma_order(i, j, q * b1);
    rounding::lemma_order(s, q, b1);
    assert(q1 * b1 <= (s * q) * b1);
    lemma_smaller_factor(q1, s * q, b1);
}

/// What is smaller after a positive factor is smaller before.
proof fn lemma_smaller_factor(a: real, b: real, k: real)
    requires
        0real < k,
        a * k <= b * k,
    ensures
        a <= b,
{
    if b < a {
        conics::lemma_positive(k, a - b);
        rounding::lemma_spread(k, a, -b, 0real);
        rounding::lemma_minus(k, b);
        rounding::lemma_minus(k, 1real);
        rounding::lemma_order(a, k, 1real);
        rounding::lemma_order(b, k, 1real);
    }
}

/// Roots are apart by no larger factor.
pub proof fn lemma_ratio_root(r1: real, r: real, k: real)
    requires
        1real <= k,
        0real <= r1,
        0real <= r,
        ratio(r1 * r1, r * r, k),
    ensures
        ratio(r1, r, k),
{
    conics::lemma_square(r1);
    conics::lemma_square(r);
    accuracy::lemma_scale(k, 0real, r1);
    accuracy::lemma_scale(k, 0real, r);
    rounding::lemma_minus(k, 1real);
    accuracy::lemma_scale(k, 0real, r1 * r1);
    accuracy::lemma_scale(k, 0real, r * r);
    accuracy::lemma_grow(k, k * (r1 * r1));
    accuracy::lemma_grow(k, k * (r * r));
    rounding::lemma_order(k, k, r1 * r1);
    rounding::lemma_order(k, k, r * r);
    rounding::lemma_factors(k, r1, k, r1);
    rounding::lemma_factors(k, r, k, r);
    accuracy::lemma_smaller_square(r, k * r1);
    accuracy::lemma_smaller_square(r1, k * r);
}

/// What is apart by a small factor is apart by a small part.
pub proof fn lemma_ratio_near(x1: real, x: real, k: real, w: real)
    requires
        0real <= x,
        0real <= w,
        1real <= k <= 1real + w,
        ratio(x1, x, k),
        0real <= x1,
    ensures
        near(x1, x, w * x),
{
    accuracy::lemma_scale(x, k, 1real + w);
    accuracy::lemma_scale(x1, k, 1real + w);
    rounding::lemma_order(k, x, 1real);
    rounding::lemma_order(k, x1, 1real);
    rounding::lemma_spread(x, 1real, w, 0real);
    rounding::lemma_spread(x1, 1real, w, 0real);
    rounding::lemma_minus(x, 1real);
    rounding::lemma_minus(x1, 1real);
    rounding::lemma_order(x, w, 1real);
    rounding::lemma_order(x1, w, 1real);
    // x is at most x1 and w x1
    if x1 <= x {
        accuracy::lemma_scale(w, x1, x);
    } else {
        accuracy::lemma_scale(w, 0real, x);
        rounding::lemma_minus(w, 1real);
    }
}

/// The first power.
pub proof fn lemma_first(k: real)
    ensures
        raised(k, 0) == 1real,
        raised(k, 1) == k,
        raised(k, 2) == k * k,
{
    reveal_with_fuel(raised, 3);
    rounding::lemma_minus(k, 1real);
}

/// Are two numbers of the same sign and apart by at most the factor `k`.
pub open spec fn apart(x1: real, x: real, k: real) -> bool {
    ratio(x1, x, k) || ratio(-x1, -x, k)
}

/// Numbers which are apart by a factor of more than one are not negative.
pub proof fn lemma_ratio_sign(x1: real, x: real, k: real)
    requires
        1real < k,
        ratio(x1, x, k),
    ensures
        0real <= x,
        0real <= x1,
{
    if x < 0real {
        conics::lemma_positive(k - 1real, -x);
        conics::lemma_foil(k, -1real, -x, 0real);
        rounding::lemma_minus(k, x);
        rounding::lemma_minus(k, 1real);
        rounding::lemma_minus(-1real, 1real);
        rounding::lemma_order(-1real, -x, 1real);
        rounding::lemma_minus(-x, 1real);
        assert(k * x < x);
        accuracy::lemma_scale(k, x1, x);
    }
    if x1 < 0real {
        accuracy::lemma_scale(k, x1, 0real);
        rounding::lemma_minus(k, 1real);
        conics::lemma_positive(k, -x1);
        rounding::lemma_minus(k, x1);
    }
}

/// A number apart from one which is not negative.
pub proof fn lemma_apart(x1: real, x: real, j: real, k: real)
    requires
        1real < j <= k,
        0real <= x,
        apart(x1, x, j),
    ensures
        ratio(x1, x, j),
        ratio(x1, x, k),
        0real <= x1,
        0real < x ==> 0real < x1,
        x == 0real ==> x1 == 0real,
{
    if !ratio(x1, x, j) {
        lemma_ratio_sign(-x1, -x, j);
        rounding::lemma_minus(j, 1real);
        rounding::lemma_minus(j, x1);
        if x1 != 0real {
            conics::lemma_positive(j, x1);
        }
    }
    lemma_ratio_sign(x1, x, j);
    rounding::lemma_minus(j, 1real);
    accuracy::lemma_scale(x1, j, k);
    accuracy::lemma_scale(x, j, k);
    rounding::lemma_order(j, x1, 1real);
    rounding::lemma_order(k, x1, 1real);
    rounding::lemma_order(j, x, 1real);
    rounding::lemma_order(k, x, 1real);
    if 0real < x {
        lemma_ratio_positive(x1, x, j);
    }
}

/// Is a sum off by at most the factor `k`.
pub open spec fn adds<A: Arithmetic>(ops: &A, v: Reading, k: real, a: F64, b: F64) -> bool {
    apart(v(arithmetic::sum(ops, a, b)), v(a) + v(b), k)
}

/// Is a difference off by at most the factor `k`.
pub open spec fn subtracts<A: Arithmetic>(ops: &A, v: Reading, k: real, a: F64, b: F64) -> bool {
    apart(v(arithmetic::difference(ops, a, b)), v(a) - v(b), k)
}

/// Is a product off by at most the factor `k`.
pub open spec fn multiplies<A: Arithmetic>(ops: &A, v: Reading, k: real, a: F64, b: F64) -> bool {
    apart(v(arithmetic::product(ops, a, b)), v(a) * v(b), k)
}

/// Is a quotient off by at most the factor `k`.
pub open spec fn divides<A: Arithmetic>(ops: &A, v: Reading, k: real, a: F64, b: F64) -> bool {
    apart(v(arithmetic::quotient(ops, a, b)) * v(b), v(a), k)
}

/// Is a square off by at most the factor `k`.
pub open spec fn squares<A: Arithmetic>(ops: &A, v: Reading, k: real, a: F64) -> bool {
    apart(v(ops.one(Unary::Squared, a)), v(a) * v(a), k)
}

/// Is the square of a root off by at most the factor `k`.
pub open spec fn roots<A: Arithmetic>(ops: &A, v: Reading, k: real, a: F64) -> bool {
    let r = v(ops.one(Unary::Sqrt, a));
    0real <= r && apart(r * r, v(a), k)
}

/// Is the square of a number to the power of one and a half off by at most the factor `k`.
pub open spec fn powers<A: Arithmetic>(ops: &A, v: Reading, k: real, a: F64, size: real) -> bool {
    let r = v(ops.two(Binary::Power, a, F64 { bits: constants::ONE_AND_HALF }));
    0real <= r && apart(r * r, size * (size * size), k)
}

/// A number is itself, up to any factor.
pub proof fn lemma_same(x: real, k: real, n: nat)
    requires
        0real <= x,
        1real <= k,
    ensures
        ratio(x, x, raised(k, n)),
{
    lemma_raised(k, n);
    accuracy::lemma_grow(raised(k, n), x);
}

} // verus!
