//! Arithmetic that the caller brings.
//!
//! Nothing is known here of how numbers are rounded. An [`Arithmetic`] gives each
//! operation one result for each pair of numbers, and the contracts of this library
//! are formulas in those results: which operations are applied to what, and in which
//! order.
use crate::float::F64;
use vstd::prelude::*;

verus! {

/// The operations on two numbers.
#[derive(Debug, Clone, Copy, PartialEq, Eq, Structural)]
pub enum Binary {
    /// `a + b`.
    Add,
    /// `a - b`.
    Subtract,
    /// `a * b`.
    Multiply,
    /// `a / b`.
    Divide,
    /// `a` raised to the power `b`.
    Power,
    /// The angle of the point with ordinate `a` and abscissa `b`.
    Atan2,
    /// What is left of `a` when the multiples of `b` are taken out, never negative.
    RemEuclid,
}

/// The functions of one number.
#[derive(Debug, Clone, Copy, PartialEq, Eq, Structural)]
pub enum Unary {
    /// Square root.
    Sqrt,
    /// Sine.
    Sin,
    /// Cosine.
    Cos,
    /// Tangent.
    Tan,
    /// Inverse cosine.
    Acos,
    /// Inverse tangent.
    Atan,
    /// Hyperbolic sine.
    Sinh,
    /// Hyperbolic cosine.
    Cosh,
    /// Inverse hyperbolic cosine.
    Acosh,
    /// Natural logarithm.
    Ln,
    /// Cube root.
    Cbrt,
    /// Inverse hyperbolic sine.
    Asinh,
    /// The cube, as an integer power.
    Cubed,
    /// The square, as an integer power.
    Squared,
    /// One over the cube, as an integer power.
    InverseCube,
}

/// Operations on numbers, each with one result.
pub trait Arithmetic {
    /// Can every operation be applied to all numbers, and does each have one result.
    spec fn lawful(&self) -> bool;

    /// The result of an operation on two numbers.
    spec fn two(&self, op: Binary, a: F64, b: F64) -> F64;

    /// The result of a function of one number.
    spec fn one(&self, op: Unary, a: F64) -> F64;

    /// The number closest to an integer.
    spec fn whole(&self, n: u64) -> F64;

    /// Apply an operation to two numbers.
    fn binary(&self, op: Binary, a: F64, b: F64) -> (r: F64)
        requires
            self.lawful(),
        ensures
            r == self.two(op, a, b),
    ;

    /// Apply a function to a number.
    fn unary(&self, op: Unary, a: F64) -> (r: F64)
        requires
            self.lawful(),
        ensures
            r == self.one(op, a),
    ;

    /// The number closest to an integer.
    fn integer(&self, n: u64) -> (r: F64)
        requires
            self.lawful(),
        ensures
            r == self.whole(n),
    ;
}

/// The arithmetic of three functions.
pub struct Ops<B, U, N> {
    /// The operations on two numbers.
    pub binary: B,
    /// The functions of one number.
    pub unary: U,
    /// The number closest to an integer.
    pub integer: N,
}

impl<
    B: Fn(Binary, F64, F64) -> F64,
    U: Fn(Unary, F64) -> F64,
    N: Fn(u64) -> F64,
> Arithmetic for Ops<B, U, N> {
    open spec fn lawful(&self) -> bool {
        &&& forall|op: Binary, a: F64, b: F64| #[trigger] call_requires(self.binary, (op, a, b))
        &&& forall|op: Unary, a: F64| #[trigger] call_requires(self.unary, (op, a))
        &&& forall|n: u64| #[trigger] call_requires(self.integer, (n,))
        &&& forall|op: Binary, a: F64, b: F64, r: F64, s: F64| #[trigger]
            call_ensures(self.binary, (op, a, b), r) && #[trigger] call_ensures(
                self.binary,
                (op, a, b),
                s,
            ) ==> r == s
        &&& forall|op: Unary, a: F64, r: F64, s: F64| #[trigger]
            call_ensures(self.unary, (op, a), r) && #[trigger] call_ensures(self.unary, (op, a), s)
                ==> r == s
        &&& forall|n: u64, r: F64, s: F64| #[trigger]
            call_ensures(self.integer, (n,), r) && #[trigger] call_ensures(self.integer, (n,), s)
                ==> r == s
    }

    open spec fn two(&self, op: Binary, a: F64, b: F64) -> F64 {
        choose|r: F64| call_ensures(self.binary, (op, a, b), r)
    }

    open spec fn one(&self, op: Unary, a: F64) -> F64 {
        choose|r: F64| call_ensures(self.unary, (op, a), r)
    }

    open spec fn whole(&self, n: u64) -> F64 {
        choose|r: F64| call_ensures(self.integer, (n,), r)
    }

    fn binary(&self, op: Binary, a: F64, b: F64) -> F64 {
        (self.binary)(op, a, b)
    }

    fn unary(&self, op: Unary, a: F64) -> F64 {
        (self.unary)(op, a)
    }

    fn integer(&self, n: u64) -> F64 {
        (self.integer)(n)
    }
}

/// `a + b`.
pub open spec fn sum<A: Arithmetic>(ops: &A, a: F64, b: F64) -> F64 {
    ops.two(Binary::Add, a, b)
}

/// `a - b`.
pub open spec fn difference<A: Arithmetic>(ops: &A, a: F64, b: F64) -> F64 {
    ops.two(Binary::Subtract, a, b)
}

/// `a * b`.
pub open spec fn product<A: Arithmetic>(ops: &A, a: F64, b: F64) -> F64 {
    ops.two(Binary::Multiply, a, b)
}

/// `a / b`.
pub open spec fn quotient<A: Arithmetic>(ops: &A, a: F64, b: F64) -> F64 {
    ops.two(Binary::Divide, a, b)
}

/// `a + b`.
pub fn plus<A: Arithmetic>(ops: &A, a: F64, b: F64) -> (r: F64)
    requires
        ops.lawful(),
    ensures
        r == sum(ops, a, b),
{
    ops.binary(Binary::Add, a, b)
}

/// `a - b`.
pub fn minus<A: Arithmetic>(ops: &A, a: F64, b: F64) -> (r: F64)
    requires
        ops.lawful(),
    ensures
        r == difference(ops, a, b),
{
    ops.binary(Binary::Subtract, a, b)
}

/// `a * b`.
pub fn times<A: Arithmetic>(ops: &A, a: F64, b: F64) -> (r: F64)
    requires
        ops.lawful(),
    ensures
        r == product(ops, a, b),
{
    ops.binary(Binary::Multiply, a, b)
}

/// `a / b`.
pub fn over<A: Arithmetic>(ops: &A, a: F64, b: F64) -> (r: F64)
    requires
        ops.lawful(),
    ensures
        r == quotient(ops, a, b),
{
    ops.binary(Binary::Divide, a, b)
}

// ---------------------------------------------------------------------------
// Compensated sums
// ---------------------------------------------------------------------------

/// What rounding takes away when `t` is added to `s` and the sum is rounded to
/// `total`: the smaller of the two is the one that suffers.
pub open spec fn rounding_loss<A: Arithmetic>(ops: &A, s: F64, t: F64, total: F64) -> F64 {
    if t.abs_value().spec_le(s.abs_value()) {
        sum(ops, difference(ops, s, total), t)
    } else {
        sum(ops, difference(ops, t, total), s)
    }
}

/// A running sum and the rounding errors gathered on the way.
#[derive(Debug, Clone, Copy)]
pub struct Compensated {
    /// The sum as rounded.
    pub total: F64,
    /// The errors.
    pub lost: F64,
}

impl Compensated {
    /// The sum after one more term.
    pub open spec fn with<A: Arithmetic>(self, ops: &A, term: F64) -> Compensated {
        let total = sum(ops, self.total, term);
        Compensated {
            total,
            lost: sum(ops, self.lost, rounding_loss(ops, self.total, term, total)),
        }
    }

    /// The sum of nothing.
    pub open spec fn nothing() -> Compensated {
        Compensated { total: F64 { bits: 0 }, lost: F64 { bits: 0 } }
    }

    /// The sum with its errors put back.
    pub open spec fn corrected<A: Arithmetic>(self, ops: &A) -> F64 {
        sum(ops, self.total, self.lost)
    }

    /// The sum of nothing.
    pub fn zero() -> (c: Compensated)
        ensures
            c == Compensated::nothing(),
    {
        Compensated { total: F64::zero(), lost: F64::zero() }
    }

    /// Add one term.
    pub fn neumaier_add<A: Arithmetic>(&mut self, ops: &A, term: F64)
        requires
            ops.lawful(),
        ensures
            *final(self) == old(self).with(ops, term),
    {
        let s = self.total;
        let total = plus(ops, s, term);
        let lost = if term.abs().less_or_equal(s.abs()) {
            plus(ops, minus(ops, s, total), term)
        } else {
            plus(ops, minus(ops, term, total), s)
        };
        self.total = total;
        self.lost = plus(ops, self.lost, lost);
    }

    /// Put the errors back.
    pub fn value<A: Arithmetic>(&self, ops: &A) -> (r: F64)
        requires
            ops.lawful(),
        ensures
            r == self.corrected(ops),
    {
        plus(ops, self.total, self.lost)
    }
}

/// The compensated sum of `terms`, first to last, on top of `start`.
pub open spec fn compensated_sum<A: Arithmetic>(
    ops: &A,
    start: Compensated,
    terms: Seq<F64>,
) -> Compensated
    decreases terms.len(),
{
    if terms.len() == 0 {
        start
    } else {
        compensated_sum(ops, start, terms.drop_last()).with(ops, terms.last())
    }
}

/// A value which is moved by small steps, and the error which the last step left.
#[derive(Debug, Clone, Copy)]
pub struct Kahan {
    /// The value.
    pub value: F64,
    /// How much of the last step was too much.
    pub excess: F64,
}

impl Kahan {
    /// The value after a step.
    pub open spec fn moved<A: Arithmetic>(self, ops: &A, step: F64) -> Kahan {
        let wanted = difference(ops, step, self.excess);
        let value = sum(ops, self.value, wanted);
        Kahan { value, excess: difference(ops, difference(ops, value, self.value), wanted) }
    }

    /// Take a step.
    pub fn step<A: Arithmetic>(self, ops: &A, step: F64) -> (k: Kahan)
        requires
            ops.lawful(),
        ensures
            k == self.moved(ops, step),
    {
        let wanted = minus(ops, step, self.excess);
        let value = plus(ops, self.value, wanted);
        Kahan { value, excess: minus(ops, minus(ops, value, self.value), wanted) }
    }
}

/// The values moved by the steps, one by one.
pub open spec fn all_moved<A: Arithmetic>(ops: &A, values: Seq<Kahan>, steps: Seq<F64>)
    -> Seq<Kahan> {
    Seq::new(values.len(), |i: int| values[i].moved(ops, steps[i]))
}

/// Move each value by its step.
pub fn kahan_add<A: Arithmetic>(ops: &A, values: &mut Vec<Kahan>, steps: &Vec<F64>)
    requires
        ops.lawful(),
        old(values)@.len() == steps@.len(),
    ensures
        final(values)@ == all_moved(ops, old(values)@, steps@),
{
    let ghost start = values@;
    let mut i: usize = 0;
    while i < values.len()
        invariant
            ops.lawful(),
            i <= values@.len(),
            values@.len() == start.len() == steps@.len(),
            forall|j: int| 0 <= j < i ==> #[trigger] values@[j] == start[j].moved(ops, steps@[j]),
            forall|j: int| i <= j < values@.len() ==> #[trigger] values@[j] == start[j],
        decreases values.len() - i,
    {
        let k = values[i].step(ops, steps[i]);
        values.set(i, k);
        i = i + 1;
    }
    assert(values@ =~= all_moved(ops, start, steps@));
}

} // verus!
