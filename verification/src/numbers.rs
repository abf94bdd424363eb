//! Choices between numbers, and vectors of them.
use crate::arithmetic;
use crate::arithmetic::{Arithmetic, Kahan};
use crate::float::F64;
use vstd::prelude::*;

verus! {

/// The larger of two numbers, or the one which is a number.
pub open spec fn larger(a: F64, b: F64) -> F64 {
    if a.nan() || a.spec_lt(b) {
        b
    } else {
        a
    }
}

/// The larger of two numbers, or the one which is a number.
pub fn max(a: F64, b: F64) -> (r: F64)
    ensures
        r == larger(a, b),
{
    if a.is_nan() || a.less(b) {
        b
    } else {
        a
    }
}

/// The smaller of two numbers, or the one which is a number.
pub open spec fn smaller(a: F64, b: F64) -> F64 {
    if a.nan() || b.spec_lt(a) {
        b
    } else {
        a
    }
}

/// The smaller of two numbers, or the one which is a number.
pub fn min(a: F64, b: F64) -> (r: F64)
    ensures
        r == smaller(a, b),
{
    if a.is_nan() || b.less(a) {
        b
    } else {
        a
    }
}

/// `x` where it is between `low` and `high`, else the bound it passes. NaN passes none.
pub open spec fn within(x: F64, low: F64, high: F64) -> F64 {
    if x.spec_lt(low) {
        low
    } else if high.spec_lt(x) {
        high
    } else {
        x
    }
}

/// `x` where it is between `low` and `high`, else the bound it passes.
pub fn clamp(x: F64, low: F64, high: F64) -> (r: F64)
    ensures
        r == within(x, low, high),
        !x.nan() && low.spec_le(high) ==> low.spec_le(r) && r.spec_le(high),
{
    if x.less(low) {
        low
    } else if high.less(x) {
        high
    } else {
        x
    }
}

/// The size of `size` with the sign of `direction`.
pub open spec fn signed_like(size: F64, direction: F64) -> F64 {
    if direction.is_negative() {
        size.abs_value().negated()
    } else {
        size.abs_value()
    }
}

/// The size of `size` with the sign of `direction`.
pub fn copysign(size: F64, direction: F64) -> (r: F64)
    ensures
        r == signed_like(size, direction),
        r.magnitude() == size.magnitude(),
        r.is_negative() == direction.is_negative(),
{
    if direction.bits >= crate::float::SIGN_64 {
        size.abs().neg()
    } else {
        size.abs()
    }
}

/// The largest of the first `n` numbers and zero, by `>`: NaN is passed over.
pub open spec fn worst(v: Seq<F64>, n: nat) -> F64
    decreases n,
{
    if n == 0 {
        F64 { bits: 0 }
    } else {
        let before = worst(v, (n - 1) as nat);
        if before.spec_lt(v[n - 1]) {
            v[n - 1]
        } else {
            before
        }
    }
}

/// Component by component, `a - b`.
pub open spec fn differences<A: Arithmetic>(ops: &A, a: Seq<F64>, b: Seq<F64>) -> Seq<F64> {
    Seq::new(a.len(), |i: int| arithmetic::difference(ops, a[i], b[i]))
}

/// Component by component, `a - b`.
pub fn subtract<A: Arithmetic>(ops: &A, a: &Vec<F64>, b: &Vec<F64>) -> (r: Vec<F64>)
    requires
        ops.lawful(),
        a@.len() == b@.len(),
    ensures
        r@ == differences(ops, a@, b@),
{
    let mut r: Vec<F64> = Vec::new();
    let mut i: usize = 0;
    while i < a.len()
        invariant
            ops.lawful(),
            a@.len() == b@.len(),
            i <= a@.len(),
            r@ == differences(ops, a@, b@).take(i as int),
        decreases a.len() - i,
    {
        r.push(arithmetic::minus(ops, a[i], b[i]));
        i = i + 1;
        assert(r@ =~= differences(ops, a@, b@).take(i as int));
    }
    assert(r@ =~= differences(ops, a@, b@));
    r
}

/// Component by component, `a + b`.
pub open spec fn sums<A: Arithmetic>(ops: &A, a: Seq<F64>, b: Seq<F64>) -> Seq<F64> {
    Seq::new(a.len(), |i: int| arithmetic::sum(ops, a[i], b[i]))
}

/// Component by component, `a + b`.
pub fn add<A: Arithmetic>(ops: &A, a: &Vec<F64>, b: &Vec<F64>) -> (r: Vec<F64>)
    requires
        ops.lawful(),
        a@.len() == b@.len(),
    ensures
        r@ == sums(ops, a@, b@),
{
    let mut r: Vec<F64> = Vec::new();
    let mut i: usize = 0;
    while i < a.len()
        invariant
            ops.lawful(),
            a@.len() == b@.len(),
            i <= a@.len(),
            r@ == sums(ops, a@, b@).take(i as int),
        decreases a.len() - i,
    {
        r.push(arithmetic::plus(ops, a[i], b[i]));
        i = i + 1;
        assert(r@ =~= sums(ops, a@, b@).take(i as int));
    }
    assert(r@ =~= sums(ops, a@, b@));
    r
}

/// Each component of `a` times `x`.
pub open spec fn scaled<A: Arithmetic>(ops: &A, a: Seq<F64>, x: F64) -> Seq<F64> {
    Seq::new(a.len(), |i: int| arithmetic::product(ops, a[i], x))
}

/// Each component of `a` times `x`.
pub fn scale<A: Arithmetic>(ops: &A, a: &Vec<F64>, x: F64) -> (r: Vec<F64>)
    requires
        ops.lawful(),
    ensures
        r@ == scaled(ops, a@, x),
{
    let mut r: Vec<F64> = Vec::new();
    let mut i: usize = 0;
    while i < a.len()
        invariant
            ops.lawful(),
            i <= a@.len(),
            r@ == scaled(ops, a@, x).take(i as int),
        decreases a.len() - i,
    {
        r.push(arithmetic::times(ops, a[i], x));
        i = i + 1;
        assert(r@ =~= scaled(ops, a@, x).take(i as int));
    }
    assert(r@ =~= scaled(ops, a@, x));
    r
}

/// Each component of `a` over `x`.
pub open spec fn parts<A: Arithmetic>(ops: &A, a: Seq<F64>, x: F64) -> Seq<F64> {
    Seq::new(a.len(), |i: int| arithmetic::quotient(ops, a[i], x))
}

/// Each component of `a` over `x`.
pub fn divide<A: Arithmetic>(ops: &A, a: &Vec<F64>, x: F64) -> (r: Vec<F64>)
    requires
        ops.lawful(),
    ensures
        r@ == parts(ops, a@, x),
{
    let mut r: Vec<F64> = Vec::new();
    let mut i: usize = 0;
    while i < a.len()
        invariant
            ops.lawful(),
            i <= a@.len(),
            r@ == parts(ops, a@, x).take(i as int),
        decreases a.len() - i,
    {
        r.push(arithmetic::over(ops, a[i], x));
        i = i + 1;
        assert(r@ =~= parts(ops, a@, x).take(i as int));
    }
    assert(r@ =~= parts(ops, a@, x));
    r
}

/// The values without their errors.
pub open spec fn values(v: Seq<Kahan>) -> Seq<F64> {
    Seq::new(v.len(), |i: int| v[i].value)
}

/// The values without their errors.
pub fn current(v: &Vec<Kahan>) -> (r: Vec<F64>)
    ensures
        r@ == values(v@),
{
    let mut r: Vec<F64> = Vec::new();
    let mut i: usize = 0;
    while i < v.len()
        invariant
            i <= v@.len(),
            r@ == values(v@).take(i as int),
        decreases v.len() - i,
    {
        r.push(v[i].value);
        i = i + 1;
        assert(r@ =~= values(v@).take(i as int));
    }
    assert(r@ =~= values(v@));
    r
}

/// Values which no step has moved yet.
pub open spec fn at_rest(v: Seq<F64>) -> Seq<Kahan> {
    Seq::new(v.len(), |i: int| Kahan { value: v[i], excess: F64 { bits: 0 } })
}

/// Values which no step has moved yet.
pub fn without_error(v: &Vec<F64>) -> (r: Vec<Kahan>)
    ensures
        r@ == at_rest(v@),
{
    let mut r: Vec<Kahan> = Vec::new();
    let mut i: usize = 0;
    while i < v.len()
        invariant
            i <= v@.len(),
            r@ == at_rest(v@).take(i as int),
        decreases v.len() - i,
    {
        r.push(Kahan { value: v[i], excess: F64::zero() });
        i = i + 1;
        assert(r@ =~= at_rest(v@).take(i as int));
    }
    assert(r@ =~= at_rest(v@));
    r
}

/// Copy the numbers of a vector.
pub fn copied(v: &Vec<F64>) -> (r: Vec<F64>)
    ensures
        r@ == v@,
{
    vstd::slice::slice_to_vec(v.as_slice())
}

/// The largest of the first `n` numbers, or zero where there are none. NaN is passed
/// over.
pub open spec fn peak(v: Seq<F64>, n: nat) -> F64
    decreases n,
{
    if n == 0 {
        F64 { bits: 0 }
    } else if n == 1 {
        v[0]
    } else {
        larger(peak(v, (n - 1) as nat), v[n - 1])
    }
}

/// The largest of these numbers, or zero where there are none.
pub fn largest(v: &Vec<F64>) -> (r: F64)
    ensures
        r == peak(v@, v@.len()),
{
    if v.len() == 0 {
        return F64::zero();
    }
    let mut r = v[0];
    let mut i: usize = 1;
    while i < v.len()
        invariant
            1 <= i <= v@.len(),
            r == peak(v@, i as nat),
        decreases v.len() - i,
    {
        r = max(r, v[i]);
        i = i + 1;
    }
    r
}

/// The sum of the products of the first `n` components of `a` and `b`, first to last.
pub open spec fn dot<A: Arithmetic>(ops: &A, a: Seq<F64>, b: Seq<F64>, n: nat) -> F64
    decreases n,
{
    if n == 0 {
        F64 { bits: 0 }
    } else {
        arithmetic::sum(
            ops,
            dot(ops, a, b, (n - 1) as nat),
            arithmetic::product(ops, a[n - 1], b[n - 1]),
        )
    }
}

/// The sum of the products of the components of `a` and `b`.
pub fn inner<A: Arithmetic>(ops: &A, a: &Vec<F64>, b: &Vec<F64>) -> (r: F64)
    requires
        ops.lawful(),
        a@.len() == b@.len(),
    ensures
        r == dot(ops, a@, b@, a@.len()),
{
    let mut r = F64::zero();
    let mut i: usize = 0;
    while i < a.len()
        invariant
            ops.lawful(),
            a@.len() == b@.len(),
            i <= a@.len(),
            r == dot(ops, a@, b@, i as nat),
        decreases a.len() - i,
    {
        r = arithmetic::plus(ops, r, arithmetic::times(ops, a[i], b[i]));
        i = i + 1;
    }
    r
}

/// The numbers in a list of vectors.
pub open spec fn rows(table: Seq<Vec<F64>>) -> Seq<Seq<F64>> {
    Seq::new(table.len(), |k: int| table[k]@)
}

/// One more vector adds its numbers.
pub proof fn lemma_rows_push(table: Seq<Vec<F64>>, row: Vec<F64>)
    ensures
        rows(table.push(row)) == rows(table).push(row@),
{
    assert(rows(table.push(row)) =~= rows(table).push(row@));
}

/// Are there `m` vectors of the length `n`.
pub open spec fn shaped(table: Seq<Seq<F64>>, m: nat, n: nat) -> bool {
    &&& table.len() == m
    &&& forall|k: int| 0 <= k < m ==> (#[trigger] table[k]).len() == n
}

/// Column `c` of a table.
pub open spec fn column(table: Seq<Seq<F64>>, c: int) -> Seq<F64> {
    Seq::new(table.len(), |k: int| table[k][c])
}

/// Column `c` of a table.
pub fn column_of(table: &Vec<Vec<F64>>, c: usize) -> (r: Vec<F64>)
    requires
        forall|k: int| 0 <= k < table@.len() ==> c < (#[trigger] table@[k])@.len(),
    ensures
        r@ == column(rows(table@), c as int),
{
    let mut r: Vec<F64> = Vec::new();
    let mut i: usize = 0;
    while i < table.len()
        invariant
            i <= table@.len(),
            forall|k: int| 0 <= k < table@.len() ==> c < (#[trigger] table@[k])@.len(),
            r@ == column(rows(table@), c as int).take(i as int),
        decreases table.len() - i,
    {
        r.push(table[i][c]);
        i = i + 1;
        assert(r@ =~= column(rows(table@), c as int).take(i as int));
    }
    assert(r@ =~= column(rows(table@), c as int));
    r
}

/// `n` zeros.
pub open spec fn zeros(n: nat) -> Seq<F64> {
    Seq::new(n, |i: int| F64 { bits: 0 })
}

/// `n` zeros.
pub fn zero_vector(n: usize) -> (r: Vec<F64>)
    ensures
        r@ == zeros(n as nat),
{
    let mut r: Vec<F64> = Vec::new();
    let mut i: usize = 0;
    while i < n
        invariant
            i <= n,
            r@ == zeros(i as nat),
        decreases n - i,
    {
        r.push(F64::zero());
        i = i + 1;
        assert(r@ =~= zeros(i as nat));
    }
    r
}

/// The peak of numbers is none of the smaller ones.
pub proof fn law_peak(v: Seq<F64>, n: nat, i: int)
    requires
        0 <= i < n <= v.len(),
        forall|k: int| 0 <= k < n ==> !(#[trigger] v[k]).nan(),
    ensures
        v[i].spec_le(peak(v, n)),
        exists|k: int| 0 <= k < n && peak(v, n) == #[trigger] v[k],
    decreases n,
{
    assert(!v[i].nan() && !v[0].nan() && !v[n - 1].nan());
    if n > 1 {
        let m = (n - 1) as nat;
        if i < m {
            law_peak(v, m, i);
        } else {
            law_peak(v, m, 0);
        }
        let k = choose|k: int| 0 <= k < m && peak(v, m) == #[trigger] v[k];
        assert(!v[k].nan());
        assert(peak(v, n) == v[k] || peak(v, n) == v[n - 1]);
    } else {
        assert(peak(v, n) == v[0]);
    }
}

/// The worst of numbers is none of the smaller ones, and not below zero.
pub proof fn law_worst(v: Seq<F64>, n: nat, i: int)
    requires
        0 <= i < n <= v.len(),
        !v[i].nan(),
    ensures
        v[i].spec_le(worst(v, n)),
        (F64 { bits: 0 }).spec_le(worst(v, n)),
    decreases n,
{
    let m = (n - 1) as nat;
    lemma_worst(v, m);
    if i < m {
        law_worst(v, m, i);
    }
}

/// The worst of numbers is not below zero.
proof fn lemma_worst(v: Seq<F64>, n: nat)
    ensures
        (F64 { bits: 0 }).spec_le(worst(v, n)),
    decreases n,
{
    if n > 0 {
        lemma_worst(v, (n - 1) as nat);
    }
}

} // verus!
