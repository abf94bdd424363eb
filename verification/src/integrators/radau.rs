//! The Gauss-Radau method of order fifteen.
//!
//! Inside a step the acceleration is a polynomial of degree seven in time. Its
//! coefficients are found by evaluating the acceleration at seven unevenly spaced times,
//! again and again until they no longer change.
use crate::arithmetic;
use crate::arithmetic::{Arithmetic, Binary, Kahan};
use crate::errors::{ConvergenceFault, Error, KeteResult, ValueFault};
use crate::float::F64;
use crate::integrators::control;
use crate::integrators::control::{Arrival, Driver, Progress};
use crate::integrators::ode;
use crate::integrators::ode::{Rule, SecondOrderOde};
use crate::numbers;
use crate::time::Time;
use vstd::prelude::*;

verus! {

/// How many coefficients the polynomial has behind the constant one.
pub const DEGREE: usize = 7;

/// How often the coefficients are improved at most.
pub const MAX_SWEEPS: usize = 10;

/// Bits of 1e-14, the relative change below which the coefficients have converged.
pub const CONVERGED: u64 = 0x3d06_849b_86a1_2b9b;

/// Bits of 1e-6: the share of the last coefficient in the acceleration which the step size
/// aims at, and what keeps a scale away from zero.
pub const EPSILON: u64 = 0x3eb0_c6f7_a0b5_ed8d;

/// Bits of 0.25, the least ratio between one step and the one before.
pub const MIN_RATIO: u64 = 0x3fd0_0000_0000_0000;

/// Bits of 0.00005, the shortest step in days.
pub const MIN_STEP: u64 = 0x3f0a_36e2_eb1c_432d;

/// Bits of 0.1, the longest first step in days.
pub const MAX_FIRST_STEP: u64 = 0x3fb9_9999_9999_999a;

/// Bits of 1/3, the exponent of the first step.
pub const THIRD: u64 = 0x3fd5_5555_5555_5555;

/// Bits of 1/7, the exponent of every other step.
pub const SEVENTH: u64 = 0x3fc2_4924_9249_2492;

/// Bits of 1/2.
pub const HALF: u64 = 0x3fe0_0000_0000_0000;

/// Bits of 1.
pub const ONE: u64 = 0x3ff0_0000_0000_0000;

/// Bits of 2.
pub const TWO: u64 = 0x4000_0000_0000_0000;

/// Where in a step the acceleration is evaluated, as fractions of it.
pub open spec fn spacing(j: int) -> F64 {
    if j == 0 {
        F64 { bits: 0x0000_0000_0000_0000 }
    } else if j == 1 {
        F64 { bits: 0x3fac_ce72_42fd_9812 }
    } else if j == 2 {
        F64 { bits: 0x3fc7_1220_8235_8d27 }
    } else if j == 3 {
        F64 { bits: 0x3fd6_9167_42f0_c9c5 }
    } else if j == 4 {
        F64 { bits: 0x3fe1_8248_525f_4802 }
    } else if j == 5 {
        F64 { bits: 0x3fe7_7ea6_5770_fa49 }
    } else if j == 6 {
        F64 { bits: 0x3fec_548c_9824_67cd }
    } else {
        F64 { bits: 0x3fef_47d9_4f4d_2bb2 }
    }
}

/// Where in a step the acceleration is evaluated, as fractions of it.
fn fraction(j: usize) -> (x: F64)
    ensures
        x == spacing(j as int),
{
    match j {
        0 => F64 { bits: 0x0000_0000_0000_0000 },
        1 => F64 { bits: 0x3fac_ce72_42fd_9812 },
        2 => F64 { bits: 0x3fc7_1220_8235_8d27 },
        3 => F64 { bits: 0x3fd6_9167_42f0_c9c5 },
        4 => F64 { bits: 0x3fe1_8248_525f_4802 },
        5 => F64 { bits: 0x3fe7_7ea6_5770_fa49 },
        6 => F64 { bits: 0x3fec_548c_9824_67cd },
        _ => F64 { bits: 0x3fef_47d9_4f4d_2bb2 },
    }
}

/// What coefficient `k` weighs in the position at the end of a step.
pub open spec fn w<A: Arithmetic>(ops: &A, k: int) -> F64 {
    arithmetic::quotient(ops, F64 { bits: ONE }, ops.whole(((k + 2) * (k + 3)) as u64))
}

/// What coefficient `k` weighs in the velocity at the end of a step.
pub open spec fn u<A: Arithmetic>(ops: &A, k: int) -> F64 {
    arithmetic::quotient(ops, F64 { bits: ONE }, ops.whole((k + 2) as u64))
}

/// `x` to the power `k + 1`, multiplied out.
pub open spec fn raised<A: Arithmetic>(ops: &A, x: F64, k: nat) -> F64
    decreases k,
{
    if k == 0 {
        x
    } else {
        arithmetic::product(ops, raised(ops, x, (k - 1) as nat), x)
    }
}

/// The weights of the coefficients in the position at the end of a step.
pub open spec fn w_row<A: Arithmetic>(ops: &A) -> Seq<F64> {
    Seq::new(DEGREE as nat, |k: int| w(ops, k))
}

/// The weights of the coefficients in the velocity at the end of a step.
pub open spec fn u_row<A: Arithmetic>(ops: &A) -> Seq<F64> {
    Seq::new(DEGREE as nat, |k: int| u(ops, k))
}

/// The weights of the coefficients in the position at fraction `j` of a step.
pub open spec fn w_pow<A: Arithmetic>(ops: &A, j: int) -> Seq<F64> {
    Seq::new(
        DEGREE as nat,
        |k: int| arithmetic::product(ops, raised(ops, spacing(j), k as nat), w(ops, k)),
    )
}

/// The weights of the coefficients in the velocity at fraction `j` of a step.
pub open spec fn u_pow<A: Arithmetic>(ops: &A, j: int) -> Seq<F64> {
    Seq::new(
        DEGREE as nat,
        |k: int| arithmetic::product(ops, raised(ops, spacing(j), k as nat), u(ops, k)),
    )
}

/// What the divided difference `i` contributes to the coefficient `j`: the coefficient of
/// the power `j + 1` in the product of `t - spacing(m)` over `m` up to `i`.
pub open spec fn c<A: Arithmetic>(ops: &A, i: nat, j: nat) -> F64
    decreases i,
{
    if i == j {
        F64 { bits: ONE }
    } else if i < j {
        F64 { bits: 0 }
    } else if j == 0 {
        arithmetic::product(ops, spacing(i as int).negated(), c(ops, (i - 1) as nat, 0))
    } else {
        arithmetic::difference(
            ops,
            c(ops, (i - 1) as nat, (j - 1) as nat),
            arithmetic::product(ops, spacing(i as int), c(ops, (i - 1) as nat, j)),
        )
    }
}

/// What the divided differences contribute to the coefficient `j`.
pub open spec fn c_column<A: Arithmetic>(ops: &A, j: int) -> Seq<F64> {
    Seq::new(DEGREE as nat, |i: int| c(ops, i as nat, j as nat))
}

/// Divided difference `z` of the acceleration at fraction `j` of a step, from the
/// differences `g` found at the fractions before.
pub open spec fn divided<A: Arithmetic>(
    ops: &A,
    eval: F64,
    acc: F64,
    g: Seq<F64>,
    j: int,
    z: nat,
) -> F64
    decreases z,
{
    if z == 0 {
        arithmetic::quotient(ops, arithmetic::difference(ops, eval, acc), spacing(j))
    } else {
        arithmetic::quotient(
            ops,
            arithmetic::difference(ops, divided(ops, eval, acc, g, j, (z - 1) as nat), g[z - 1]),
            arithmetic::difference(ops, spacing(j), spacing(z as int)),
        )
    }
}

/// The state of an integration as numbers.
pub struct Model {
    pub time: Kahan,
    pub pos: Seq<Kahan>,
    pub vel: Seq<Kahan>,
    pub acc: Seq<F64>,
    pub b: Seq<Seq<F64>>,
    pub control_dim: int,
}

impl Model {
    /// Do the vectors have one length, and are there components enough to decide.
    pub open spec fn well_formed(self) -> bool {
        &&& self.vel.len() == self.pos.len()
        &&& self.acc.len() == self.pos.len()
        &&& numbers::shaped(self.b, self.pos.len(), DEGREE as nat)
        &&& 0 <= self.control_dim <= self.pos.len()
    }

    /// The position.
    pub open spec fn position(self) -> Seq<F64> {
        numbers::values(self.pos)
    }

    /// The velocity.
    pub open spec fn velocity(self) -> Seq<F64> {
        numbers::values(self.vel)
    }

    /// The position at fraction `j` of a step of the length `step`.
    pub open spec fn node_pos<A: Arithmetic>(self, ops: &A, step: F64, j: int) -> Seq<F64> {
        let h1 = arithmetic::product(ops, spacing(j), step);
        let h2 = arithmetic::product(ops, h1, h1);
        Seq::new(
            self.pos.len(),
            |i: int|
                arithmetic::sum(
                    ops,
                    arithmetic::sum(
                        ops,
                        self.pos[i].value,
                        arithmetic::product(ops, h1, self.vel[i].value),
                    ),
                    arithmetic::product(
                        ops,
                        h2,
                        arithmetic::sum(
                            ops,
                            arithmetic::quotient(ops, self.acc[i], F64 { bits: TWO }),
                            numbers::dot(ops, self.b[i], w_pow(ops, j), DEGREE as nat),
                        ),
                    ),
                ),
        )
    }

    /// The velocity at fraction `j` of a step of the length `step`.
    pub open spec fn node_vel<A: Arithmetic>(self, ops: &A, step: F64, j: int) -> Seq<F64> {
        let h1 = arithmetic::product(ops, spacing(j), step);
        Seq::new(
            self.pos.len(),
            |i: int|
                arithmetic::sum(
                    ops,
                    self.vel[i].value,
                    arithmetic::product(
                        ops,
                        h1,
                        arithmetic::sum(
                            ops,
                            self.acc[i],
                            numbers::dot(ops, self.b[i], u_pow(ops, j), DEGREE as nat),
                        ),
                    ),
                ),
        )
    }

    /// The time at fraction `j` of a step of the length `step`.
    pub open spec fn node_time<A: Arithmetic>(self, ops: &A, step: F64, j: int) -> Time {
        Time {
            jd: arithmetic::sum(
                ops,
                self.time.value,
                arithmetic::product(ops, spacing(j), step),
            ),
        }
    }

    /// The divided differences with one more column, from the acceleration `eval` at
    /// fraction `j`.
    pub open spec fn with_node<A: Arithmetic>(
        self,
        ops: &A,
        g: Seq<Seq<F64>>,
        eval: Seq<F64>,
        j: int,
    ) -> Seq<Seq<F64>> {
        Seq::new(
            self.pos.len(),
            |i: int| g[i].push(divided(ops, eval[i], self.acc[i], g[i], j, (j - 1) as nat)),
        )
    }

    /// The divided differences after the acceleration has been evaluated at the fractions
    /// up to `j`, and the last acceleration. The note of the last evaluation comes along.
    pub open spec fn swept<M, A: Arithmetic>(
        self,
        ops: &A,
        rule: Rule<M>,
        step: F64,
        j: nat,
        note: M,
    ) -> (KeteResult<(Seq<Seq<F64>>, Seq<F64>)>, M)
        decreases j,
    {
        if j == 0 {
            (Ok((Seq::new(self.pos.len(), |i: int| Seq::empty()), self.acc)), note)
        } else {
            let (r, note) = self.swept(ops, rule, step, (j - 1) as nat, note);
            match r {
                Err(e) => (Err(e), note),
                Ok((g, _)) => {
                    let (f, note) = rule(
                        self.node_time(ops, step, j as int),
                        self.node_pos(ops, step, j as int),
                        self.node_vel(ops, step, j as int),
                        note,
                        false,
                    );
                    match f {
                        Err(e) => (Err(e), note),
                        Ok(f) => (Ok((self.with_node(ops, g, f, j as int), f)), note),
                    }
                },
            }
        }
    }

    /// The coefficients which belong to the divided differences `g`.
    pub open spec fn coefficients<A: Arithmetic>(self, ops: &A, g: Seq<Seq<F64>>) -> Seq<Seq<F64>> {
        Seq::new(
            self.pos.len(),
            |i: int|
                Seq::new(
                    DEGREE as nat,
                    |k: int| numbers::dot(ops, g[i], c_column(ops, k), DEGREE as nat),
                ),
        )
    }

    /// The size of each acceleration which decides, kept away from zero.
    pub open spec fn scales<A: Arithmetic>(self, ops: &A, eval: Seq<F64>) -> Seq<F64> {
        Seq::new(
            self.control_dim as nat,
            |i: int| arithmetic::sum(ops, eval[i].abs_value(), F64 { bits: EPSILON }),
        )
    }

    /// The largest change of the last coefficient from `before` to `self`, relative to the
    /// acceleration.
    pub open spec fn change<A: Arithmetic>(
        self,
        ops: &A,
        before: Seq<Seq<F64>>,
        eval: Seq<F64>,
    ) -> F64 {
        numbers::peak(
            Seq::new(
                self.control_dim as nat,
                |i: int|
                    arithmetic::quotient(
                        ops,
                        arithmetic::difference(ops, self.b[i][6], before[i][6]).abs_value(),
                        self.scales(ops, eval)[i],
                    ),
            ),
            self.control_dim as nat,
        )
    }

    /// The largest last coefficient, relative to the acceleration.
    pub open spec fn error_ratio<A: Arithmetic>(self, ops: &A, eval: Seq<F64>) -> F64 {
        numbers::peak(
            Seq::new(
                self.control_dim as nat,
                |i: int|
                    arithmetic::quotient(
                        ops,
                        self.b[i][6].abs_value(),
                        self.scales(ops, eval)[i],
                    ),
            ),
            self.control_dim as nat,
        )
    }

    /// How far each component of the position moves in a step of the length `step`.
    pub open spec fn pos_steps<A: Arithmetic>(self, ops: &A, step: F64) -> Seq<F64> {
        Seq::new(
            self.pos.len(),
            |i: int|
                arithmetic::sum(
                    ops,
                    arithmetic::product(ops, self.vel[i].value, step),
                    arithmetic::product(
                        ops,
                        arithmetic::product(ops, step, step),
                        arithmetic::sum(
                            ops,
                            arithmetic::product(ops, self.acc[i], F64 { bits: HALF }),
                            numbers::dot(ops, self.b[i], w_row(ops), DEGREE as nat),
                        ),
                    ),
                ),
        )
    }

    /// How much each component of the velocity changes in a step of the length `step`.
    pub open spec fn vel_steps<A: Arithmetic>(self, ops: &A, step: F64) -> Seq<F64> {
        Seq::new(
            self.pos.len(),
            |i: int|
                arithmetic::product(
                    ops,
                    step,
                    arithmetic::sum(
                        ops,
                        self.acc[i],
                        numbers::dot(ops, self.b[i], u_row(ops), DEGREE as nat),
                    ),
                ),
        )
    }

    /// The state at the end of a step, with the acceleration as it was.
    pub open spec fn moved<A: Arithmetic>(self, ops: &A, step: F64) -> Model {
        Model {
            time: self.time.moved(ops, step),
            pos: arithmetic::all_moved(ops, self.pos, self.pos_steps(ops, step)),
            vel: arithmetic::all_moved(ops, self.vel, self.vel_steps(ops, step)),
            acc: self.acc,
            b: self.b,
            control_dim: self.control_dim,
        }
    }

    /// The step after one of the length `step` with the error `ratio`.
    pub open spec fn proposed<A: Arithmetic>(ops: &A, step: F64, ratio: F64) -> F64 {
        let least = F64 { bits: MIN_RATIO };
        arithmetic::product(
            ops,
            step,
            numbers::within(
                ops.two(
                    Binary::Power,
                    arithmetic::quotient(ops, F64 { bits: EPSILON }, ratio),
                    F64 { bits: SEVENTH },
                ),
                least,
                arithmetic::quotient(ops, F64 { bits: ONE }, least),
            ),
        )
    }

    /// The outcome of a step of the length `step`, when the coefficients may still be
    /// improved `left` times: the size proposed for the next step, the new state and the
    /// last note.
    pub open spec fn settled<M, A: Arithmetic>(
        self,
        ops: &A,
        rule: Rule<M>,
        step: F64,
        left: nat,
        note: M,
    ) -> (KeteResult<F64>, Model, M)
        decreases left,
    {
        if left == 0 {
            (Err(Error::Convergence(ConvergenceFault::StepFailed)), self, note)
        } else {
            let (r, note) = self.swept(ops, rule, step, DEGREE as nat, note);
            match r {
                Err(e) => (Err(e), self, note),
                Ok((g, eval)) => {
                    let improved = Model { b: self.coefficients(ops, g), ..self };
                    if improved.change(ops, self.b, eval).spec_lt(F64 { bits: CONVERGED }) {
                        let next = improved.moved(ops, step);
                        let (f, note) = rule(
                            Time { jd: next.time.value },
                            next.position(),
                            next.velocity(),
                            note,
                            true,
                        );
                        match f {
                            Err(e) => (Err(e), next, note),
                            Ok(f) => (
                                Ok(Model::proposed(ops, step, improved.error_ratio(ops, eval))),
                                Model { acc: f, ..next },
                                note,
                            ),
                        }
                    } else {
                        improved.settled(ops, rule, step, (left - 1) as nat, note)
                    }
                },
            }
        }
    }

    /// The outcome of a step of the length `step`.
    pub open spec fn stepped<M, A: Arithmetic>(
        self,
        ops: &A,
        rule: Rule<M>,
        step: F64,
        note: M,
    ) -> (KeteResult<F64>, Model, M) {
        self.settled(ops, rule, step, MAX_SWEEPS as nat, note)
    }

    /// The first step towards `goal`: short where the acceleration is large.
    pub open spec fn first_step<A: Arithmetic>(self, ops: &A, goal: Time) -> F64 {
        let size = numbers::peak(
            Seq::new(self.control_dim as nat, |i: int| self.acc[i].abs_value()),
            self.control_dim as nat,
        );
        let longest = F64 { bits: MAX_FIRST_STEP };
        numbers::signed_like(
            if (F64 { bits: 0 }).spec_lt(size) {
                numbers::smaller(
                    ops.two(
                        Binary::Power,
                        arithmetic::quotient(ops, F64 { bits: EPSILON }, size),
                        F64 { bits: THIRD },
                    ),
                    longest,
                )
            } else {
                longest
            },
            arithmetic::difference(ops, goal.jd, self.time.value),
        )
    }
}

/// The weights of the method in some arithmetic.
pub struct Tables {
    /// Weights in the position at the end of a step.
    pub w: Vec<F64>,
    /// Weights in the velocity at the end of a step.
    pub u: Vec<F64>,
    /// Weights in the position at each fraction of a step, from the first on.
    pub w_pow: Vec<Vec<F64>>,
    /// Weights in the velocity at each fraction of a step, from the first on.
    pub u_pow: Vec<Vec<F64>>,
    /// What the divided differences contribute to each coefficient.
    pub c: Vec<Vec<F64>>,
}

impl Tables {
    /// Are these the weights in the arithmetic `ops`.
    pub open spec fn of<A: Arithmetic>(&self, ops: &A) -> bool {
        &&& self.w@ == w_row(ops)
        &&& self.u@ == u_row(ops)
        &&& self.w_pow@.len() == DEGREE
        &&& self.u_pow@.len() == DEGREE
        &&& self.c@.len() == DEGREE
        &&& forall|j: int| 0 <= j < DEGREE ==> (#[trigger] self.w_pow@[j])@ == w_pow(ops, j + 1)
        &&& forall|j: int| 0 <= j < DEGREE ==> (#[trigger] self.u_pow@[j])@ == u_pow(ops, j + 1)
        &&& forall|j: int| 0 <= j < DEGREE ==> (#[trigger] self.c@[j])@ == c_column(ops, j)
    }

    fn w_weights<A: Arithmetic>(ops: &A) -> (r: Vec<F64>)
        requires
            ops.lawful(),
        ensures
            r@ == w_row(ops),
    {
        let mut r: Vec<F64> = Vec::new();
        let mut k: usize = 0;
        while k < DEGREE
            invariant
                ops.lawful(),
                k <= DEGREE,
                r@ == w_row(ops).take(k as int),
            decreases DEGREE - k,
        {
            assert((k + 2) * (k + 3) <= 100) by (nonlinear_arith)
                requires
                    k < 7,
            ;
            let n = ops.integer(((k + 2) * (k + 3)) as u64);
            r.push(arithmetic::over(ops, F64 { bits: ONE }, n));
            k = k + 1;
            assert(r@ =~= w_row(ops).take(k as int));
        }
        assert(r@ =~= w_row(ops));
        r
    }

    fn u_weights<A: Arithmetic>(ops: &A) -> (r: Vec<F64>)
        requires
            ops.lawful(),
        ensures
            r@ == u_row(ops),
    {
        let mut r: Vec<F64> = Vec::new();
        let mut k: usize = 0;
        while k < DEGREE
            invariant
                ops.lawful(),
                k <= DEGREE,
                r@ == u_row(ops).take(k as int),
            decreases DEGREE - k,
        {
            let n = ops.integer((k + 2) as u64);
            r.push(arithmetic::over(ops, F64 { bits: ONE }, n));
            k = k + 1;
            assert(r@ =~= u_row(ops).take(k as int));
        }
        assert(r@ =~= u_row(ops));
        r
    }

    /// The powers of fraction `j` of a step, each times its weight.
    fn powers<A: Arithmetic>(ops: &A, j: usize, weights: &Vec<F64>) -> (r: Vec<F64>)
        requires
            ops.lawful(),
            weights@.len() == DEGREE,
        ensures
            r@.len() == DEGREE,
            forall|k: int|
                0 <= k < DEGREE ==> #[trigger] r@[k] == arithmetic::product(
                    ops,
                    raised(ops, spacing(j as int), k as nat),
                    weights@[k],
                ),
    {
        let x = fraction(j);
        let mut power = x;
        let mut r: Vec<F64> = Vec::new();
        let mut k: usize = 0;
        while k < DEGREE
            invariant
                ops.lawful(),
                weights@.len() == DEGREE,
                k <= DEGREE,
                x == spacing(j as int),
                power == raised(ops, x, k as nat),
                r@.len() == k,
                forall|i: int|
                    0 <= i < k ==> #[trigger] r@[i] == arithmetic::product(
                        ops,
                        raised(ops, spacing(j as int), i as nat),
                        weights@[i],
                    ),
            decreases DEGREE - k,
        {
            r.push(arithmetic::times(ops, power, weights[k]));
            power = arithmetic::times(ops, power, x);
            k = k + 1;
        }
        r
    }

    fn contribution<A: Arithmetic>(ops: &A, i: usize, j: usize) -> (r: F64)
        requires
            ops.lawful(),
        ensures
            r == c(ops, i as nat, j as nat),
        decreases i,
    {
        if i == j {
            F64 { bits: ONE }
        } else if i < j {
            F64::zero()
        } else if j == 0 {
            let before = Self::contribution(ops, i - 1, 0);
            arithmetic::times(ops, fraction(i).neg(), before)
        } else {
            let left = Self::contribution(ops, i - 1, j - 1);
            let above = Self::contribution(ops, i - 1, j);
            arithmetic::minus(ops, left, arithmetic::times(ops, fraction(i), above))
        }
    }

    fn contributions<A: Arithmetic>(ops: &A, j: usize) -> (r: Vec<F64>)
        requires
            ops.lawful(),
        ensures
            r@ == c_column(ops, j as int),
    {
        let mut r: Vec<F64> = Vec::new();
        let mut i: usize = 0;
        while i < DEGREE
            invariant
                ops.lawful(),
                i <= DEGREE,
                r@ == c_column(ops, j as int).take(i as int),
            decreases DEGREE - i,
        {
            r.push(Self::contribution(ops, i, j));
            i = i + 1;
            assert(r@ =~= c_column(ops, j as int).take(i as int));
        }
        assert(r@ =~= c_column(ops, j as int));
        r
    }

    /// The weights in the arithmetic `ops`.
    pub fn new<A: Arithmetic>(ops: &A) -> (t: Tables)
        requires
            ops.lawful(),
        ensures
            t.of(ops),
    {
        let w = Self::w_weights(ops);
        let u = Self::u_weights(ops);
        let mut w_table: Vec<Vec<F64>> = Vec::new();
        let mut u_table: Vec<Vec<F64>> = Vec::new();
        let mut c_table: Vec<Vec<F64>> = Vec::new();
        let mut j: usize = 0;
        while j < DEGREE
            invariant
                ops.lawful(),
                j <= DEGREE,
                w@ == w_row(ops),
                u@ == u_row(ops),
                w_table@.len() == j,
                u_table@.len() == j,
                c_table@.len() == j,
                forall|i: int| 0 <= i < j ==> (#[trigger] w_table@[i])@ == w_pow(ops, i + 1),
                forall|i: int| 0 <= i < j ==> (#[trigger] u_table@[i])@ == u_pow(ops, i + 1),
                forall|i: int| 0 <= i < j ==> (#[trigger] c_table@[i])@ == c_column(ops, i),
            decreases DEGREE - j,
        {
            let w_powers = Self::powers(ops, j + 1, &w);
            let u_powers = Self::powers(ops, j + 1, &u);
            assert(w_powers@ =~= w_pow(ops, j + 1));
            assert(u_powers@ =~= u_pow(ops, j + 1));
            w_table.push(w_powers);
            u_table.push(u_powers);
            c_table.push(Self::contributions(ops, j));
            j = j + 1;
        }
        Tables { w, u, w_pow: w_table, u_pow: u_table, c: c_table }
    }
}

/// The state of an integration with adaptive steps.
pub struct RadauIntegrator {
    /// The time which has been reached.
    pub time: Kahan,
    /// The position at that time.
    pub pos: Vec<Kahan>,
    /// The velocity at that time.
    pub vel: Vec<Kahan>,
    /// The acceleration at that time.
    pub acc: Vec<F64>,
    /// The coefficients of the polynomial, for each component.
    pub b: Vec<Vec<F64>>,
    /// How many leading components decide about convergence.
    pub control_dim: usize,
}

impl RadauIntegrator {
    /// The state as numbers.
    pub open spec fn model(&self) -> Model {
        Model {
            time: self.time,
            pos: self.pos@,
            vel: self.vel@,
            acc: self.acc@,
            b: numbers::rows(self.b@),
            control_dim: self.control_dim as int,
        }
    }

    /// Do the parts of the state belong together.
    pub open spec fn well_formed(&self) -> bool {
        self.model().well_formed()
    }

    /// Position and velocity at fraction `j` of a step of the length `step`.
    fn node<A: Arithmetic>(&self, ops: &A, tables: &Tables, step: F64, j: usize) -> (r: (
        Vec<F64>,
        Vec<F64>,
    ))
        requires
            ops.lawful(),
            tables.of(ops),
            self.well_formed(),
            1 <= j <= DEGREE,
        ensures
            r.0@ == self.model().node_pos(ops, step, j as int),
            r.1@ == self.model().node_vel(ops, step, j as int),
    {
        let ghost m = self.model();
        let h1 = arithmetic::times(ops, fraction(j), step);
        let h2 = arithmetic::times(ops, h1, h1);
        assert(tables.w_pow@[j - 1]@ == w_pow(ops, j as int));
        assert(tables.u_pow@[j - 1]@ == u_pow(ops, j as int));
        let mut p: Vec<F64> = Vec::new();
        let mut v: Vec<F64> = Vec::new();
        let mut i: usize = 0;
        while i < self.pos.len()
            invariant
                ops.lawful(),
                self.well_formed(),
                m == self.model(),
                1 <= j <= DEGREE,
                h1 == arithmetic::product(ops, spacing(j as int), step),
                h2 == arithmetic::product(ops, h1, h1),
                tables.w_pow@.len() == DEGREE,
                tables.u_pow@.len() == DEGREE,
                tables.w_pow@[j - 1]@ == w_pow(ops, j as int),
                tables.u_pow@[j - 1]@ == u_pow(ops, j as int),
                i <= self.pos@.len(),
                p@ == m.node_pos(ops, step, j as int).take(i as int),
                v@ == m.node_vel(ops, step, j as int).take(i as int),
            decreases self.pos.len() - i,
        {
            assert(m.b[i as int] == self.b@[i as int]@);
            let drift = arithmetic::plus(
                ops,
                self.pos[i].value,
                arithmetic::times(ops, h1, self.vel[i].value),
            );
            let half = arithmetic::over(ops, self.acc[i], F64 { bits: TWO });
            let bend = arithmetic::plus(
                ops,
                half,
                numbers::inner(ops, &self.b[i], &tables.w_pow[j - 1]),
            );
            p.push(arithmetic::plus(ops, drift, arithmetic::times(ops, h2, bend)));
            let slope = arithmetic::plus(
                ops,
                self.acc[i],
                numbers::inner(ops, &self.b[i], &tables.u_pow[j - 1]),
            );
            v.push(
                arithmetic::plus(ops, self.vel[i].value, arithmetic::times(ops, h1, slope)),
            );
            i = i + 1;
            assert(p@ =~= m.node_pos(ops, step, j as int).take(i as int));
            assert(v@ =~= m.node_vel(ops, step, j as int).take(i as int));
        }
        assert(p@ =~= m.node_pos(ops, step, j as int));
        assert(v@ =~= m.node_vel(ops, step, j as int));
        (p, v)
    }

    /// Append a column to the divided differences.
    fn add_node<A: Arithmetic>(&self, ops: &A, g: &mut Vec<Vec<F64>>, eval: &Vec<F64>, j: usize)
        requires
            ops.lawful(),
            self.well_formed(),
            1 <= j <= DEGREE,
            eval@.len() == self.pos@.len(),
            numbers::shaped(numbers::rows(old(g)@), self.pos@.len(), (j - 1) as nat),
        ensures
            numbers::rows(final(g)@) == self.model().with_node(
                ops,
                numbers::rows(old(g)@),
                eval@,
                j as int,
            ),
            numbers::shaped(numbers::rows(final(g)@), self.pos@.len(), j as nat),
    {
        let ghost m = self.model();
        let ghost start = numbers::rows(g@);
        let ghost goal = m.with_node(ops, start, eval@, j as int);
        let mut done: Vec<Vec<F64>> = Vec::new();
        let mut i: usize = 0;
        while i < self.pos.len()
            invariant
                ops.lawful(),
                self.well_formed(),
                m == self.model(),
                1 <= j <= DEGREE,
                eval@.len() == self.pos@.len(),
                start == numbers::rows(g@),
                numbers::shaped(start, self.pos@.len(), (j - 1) as nat),
                goal == m.with_node(ops, start, eval@, j as int),
                i <= self.pos@.len(),
                numbers::rows(done@) == goal.take(i as int),
            decreases self.pos.len() - i,
        {
            assert(start[i as int] == g@[i as int]@);
            let mut row = numbers::copied(&g[i]);
            let ghost r0 = start[i as int];
            let mut x = arithmetic::over(
                ops,
                arithmetic::minus(ops, eval[i], self.acc[i]),
                fraction(j),
            );
            let mut z: usize = 1;
            while z < j
                invariant
                    ops.lawful(),
                    1 <= z <= j <= DEGREE,
                    row@ == r0,
                    r0.len() == j - 1,
                    i < eval@.len(),
                    i < self.acc@.len(),
                    x == divided(ops, eval@[i as int], self.acc@[i as int], r0, j as int,
                        (z - 1) as nat),
                decreases j - z,
            {
                let gap = arithmetic::minus(ops, fraction(j), fraction(z));
                x = arithmetic::over(ops, arithmetic::minus(ops, x, row[z - 1]), gap);
                z = z + 1;
            }
            row.push(x);
            proof {
                numbers::lemma_rows_push(done@, row);
                assert(row@ =~= goal[i as int]);
            }
            done.push(row);
            i = i + 1;
            assert(numbers::rows(done@) =~= goal.take(i as int));
        }
        *g = done;
        assert(numbers::rows(g@) =~= goal);
    }

    /// Evaluate the acceleration at the fractions up to `j` of a step.
    fn sweep<M, A: Arithmetic, E: SecondOrderOde<M>>(
        &self,
        ops: &A,
        tables: &Tables,
        ode: &E,
        step: F64,
        j: usize,
        note: M,
    ) -> (r: (KeteResult<(Vec<Vec<F64>>, Vec<F64>)>, M))
        requires
            ops.lawful(),
            ode.lawful(),
            tables.of(ops),
            self.well_formed(),
            j <= DEGREE,
        ensures
            ({
                let (found, last) = self.model().swept(ops, ode::rule(ode), step, j as nat, note);
                &&& r.1 == last
                &&& match found {
                    Err(e) => r.0 == Err::<(Vec<Vec<F64>>, Vec<F64>), Error>(e),
                    Ok((g, eval)) => {
                        &&& r.0 is Ok
                        &&& numbers::rows(r.0->Ok_0.0@) == g
                        &&& r.0->Ok_0.1@ == eval
                        &&& numbers::shaped(g, self.pos@.len(), j as nat)
                        &&& eval.len() == self.pos@.len()
                    },
                }
            }),
        decreases j,
    {
        if j == 0 {
            let g = no_columns(self.pos.len());
            return (Ok((g, numbers::copied(&self.acc))), note);
        }
        let (found, note) = self.sweep(ops, tables, ode, step, j - 1, note);
        match found {
            Err(e) => (Err(e), note),
            Ok((g, _)) => {
                let mut g = g;
                let (p, v) = self.node(ops, tables, step, j);
                let offset = arithmetic::times(ops, fraction(j), step);
                let t = Time::new(arithmetic::plus(ops, self.time.value, offset));
                let (f, note) = ode.eval(t, &p, &v, note, false);
                match f {
                    Err(e) => (Err(e), note),
                    Ok(f) => {
                        self.add_node(ops, &mut g, &f, j);
                        (Ok((g, f)), note)
                    },
                }
            },
        }
    }

    /// The coefficients which belong to divided differences.
    fn improve<A: Arithmetic>(&self, ops: &A, tables: &Tables, g: &Vec<Vec<F64>>)
        -> (b: Vec<Vec<F64>>)
        requires
            ops.lawful(),
            tables.of(ops),
            self.well_formed(),
            numbers::shaped(numbers::rows(g@), self.pos@.len(), DEGREE as nat),
        ensures
            numbers::rows(b@) == self.model().coefficients(ops, numbers::rows(g@)),
            numbers::shaped(numbers::rows(b@), self.pos@.len(), DEGREE as nat),
    {
        let ghost gs = numbers::rows(g@);
        let ghost goal = self.model().coefficients(ops, gs);
        let mut b: Vec<Vec<F64>> = Vec::new();
        let mut i: usize = 0;
        while i < self.pos.len()
            invariant
                ops.lawful(),
                tables.of(ops),
                self.well_formed(),
                gs == numbers::rows(g@),
                numbers::shaped(gs, self.pos@.len(), DEGREE as nat),
                goal == self.model().coefficients(ops, gs),
                i <= self.pos@.len(),
                numbers::rows(b@) == goal.take(i as int),
            decreases self.pos.len() - i,
        {
            assert(gs[i as int] == g@[i as int]@);
            let mut row: Vec<F64> = Vec::new();
            let mut k: usize = 0;
            while k < DEGREE
                invariant
                    ops.lawful(),
                    tables.of(ops),
                    i < g@.len(),
                    i < goal.len(),
                    gs == numbers::rows(g@),
                    gs[i as int] == g@[i as int]@,
                    g@[i as int]@.len() == DEGREE,
                    goal == self.model().coefficients(ops, gs),
                    k <= DEGREE,
                    row@ == goal[i as int].take(k as int),
                decreases DEGREE - k,
            {
                assert(tables.c@[k as int]@ == c_column(ops, k as int));
                row.push(numbers::inner(ops, &g[i], &tables.c[k]));
                k = k + 1;
                assert(row@ =~= goal[i as int].take(k as int));
            }
            assert(row@ =~= goal[i as int]);
            proof {
                numbers::lemma_rows_push(b@, row);
            }
            b.push(row);
            i = i + 1;
            assert(numbers::rows(b@) =~= goal.take(i as int));
        }
        assert(numbers::rows(b@) =~= goal);
        b
    }

    /// Relative to the acceleration, the largest change of the last coefficient since
    /// `before`, or the largest last coefficient where there is nothing before.
    fn largest_ratio<A: Arithmetic>(&self, ops: &A, before: Option<&Vec<F64>>, eval: &Vec<F64>)
        -> (r:
        F64)
        requires
            ops.lawful(),
            self.well_formed(),
            eval@.len() == self.pos@.len(),
            before matches Some(b) ==> b@.len() == self.pos@.len(),
        ensures
            before is None ==> r == self.model().error_ratio(ops, eval@),
            before matches Some(b) ==> r == numbers::peak(
                Seq::new(
                    self.control_dim as nat,
                    |i: int|
                        arithmetic::quotient(
                            ops,
                            arithmetic::difference(
                                ops,
                                self.model().b[i][6],
                                b@[i],
                            ).abs_value(),
                            self.model().scales(ops, eval@)[i],
                        ),
                ),
                self.control_dim as nat,
            ),
    {
        let ghost m = self.model();
        let ghost goal = Seq::new(
            self.control_dim as nat,
            |i: int|
                arithmetic::quotient(
                    ops,
                    match before {
                        Some(b) => arithmetic::difference(ops, m.b[i][6], b@[i]).abs_value(),
                        None => m.b[i][6].abs_value(),
                    },
                    m.scales(ops, eval@)[i],
                ),
        );
        let mut ratios: Vec<F64> = Vec::new();
        let mut i: usize = 0;
        while i < self.control_dim
            invariant
                ops.lawful(),
                self.well_formed(),
                m == self.model(),
                eval@.len() == self.pos@.len(),
                before matches Some(b) ==> b@.len() == self.pos@.len(),
                goal == Seq::new(
                    self.control_dim as nat,
                    |i: int|
                        arithmetic::quotient(
                            ops,
                            match before {
                                Some(b) => arithmetic::difference(
                                    ops,
                                    m.b[i][6],
                                    b@[i],
                                ).abs_value(),
                                None => m.b[i][6].abs_value(),
                            },
                            m.scales(ops, eval@)[i],
                        ),
                ),
                i <= self.control_dim,
                ratios@ == goal.take(i as int),
            decreases self.control_dim - i,
        {
            assert(m.b[i as int] == self.b@[i as int]@);
            let last = self.b[i][6];
            let size = match before {
                Some(b) => arithmetic::minus(ops, last, b[i]).abs(),
                None => last.abs(),
            };
            let scale = arithmetic::plus(ops, eval[i].abs(), F64 { bits: EPSILON });
            ratios.push(arithmetic::over(ops, size, scale));
            i = i + 1;
            assert(ratios@ =~= goal.take(i as int));
        }
        proof {
            assert(ratios@ =~= goal);
            match before {
                None => {
                    assert(goal =~= Seq::new(
                        self.control_dim as nat,
                        |i: int|
                            arithmetic::quotient(
                                ops,
                                m.b[i][6].abs_value(),
                                m.scales(ops, eval@)[i],
                            ),
                    ));
                },
                Some(b) => {
                    assert(goal =~= Seq::new(
                        self.control_dim as nat,
                        |i: int|
                            arithmetic::quotient(
                                ops,
                                arithmetic::difference(ops, m.b[i][6], b@[i]).abs_value(),
                                m.scales(ops, eval@)[i],
                            ),
                    ));
                },
            }
        }
        numbers::largest(&ratios)
    }

    /// Move to the end of a step.
    fn move_on<A: Arithmetic>(&mut self, ops: &A, tables: &Tables, step: F64)
        requires
            ops.lawful(),
            tables.of(ops),
            old(self).well_formed(),
        ensures
            final(self).model() == old(self).model().moved(ops, step),
            final(self).well_formed(),
    {
        let ghost m = self.model();
        let square = arithmetic::times(ops, step, step);
        let mut pos_steps: Vec<F64> = Vec::new();
        let mut vel_steps: Vec<F64> = Vec::new();
        let mut i: usize = 0;
        while i < self.pos.len()
            invariant
                ops.lawful(),
                tables.of(ops),
                self.well_formed(),
                m == self.model(),
                square == arithmetic::product(ops, step, step),
                i <= self.pos@.len(),
                pos_steps@ == m.pos_steps(ops, step).take(i as int),
                vel_steps@ == m.vel_steps(ops, step).take(i as int),
            decreases self.pos.len() - i,
        {
            assert(m.b[i as int] == self.b@[i as int]@);
            let drift = arithmetic::times(ops, self.vel[i].value, step);
            let half = arithmetic::times(ops, self.acc[i], F64 { bits: HALF });
            let bend = arithmetic::plus(ops, half, numbers::inner(ops, &self.b[i], &tables.w));
            pos_steps.push(arithmetic::plus(ops, drift, arithmetic::times(ops, square, bend)));
            let slope = arithmetic::plus(
                ops,
                self.acc[i],
                numbers::inner(ops, &self.b[i], &tables.u),
            );
            vel_steps.push(arithmetic::times(ops, step, slope));
            i = i + 1;
            assert(pos_steps@ =~= m.pos_steps(ops, step).take(i as int));
            assert(vel_steps@ =~= m.vel_steps(ops, step).take(i as int));
        }
        assert(pos_steps@ =~= m.pos_steps(ops, step));
        assert(vel_steps@ =~= m.vel_steps(ops, step));
        arithmetic::kahan_add(ops, &mut self.pos, &pos_steps);
        arithmetic::kahan_add(ops, &mut self.vel, &vel_steps);
        self.time = self.time.step(ops, step);
    }

    /// Improve the coefficients until they no longer change, `left` times at most, and
    /// take the step.
    fn settle<M, A: Arithmetic, E: SecondOrderOde<M>>(
        &mut self,
        ops: &A,
        tables: &Tables,
        ode: &E,
        step: F64,
        left: usize,
        note: M,
    ) -> (r: (KeteResult<F64>, M))
        requires
            ops.lawful(),
            ode.lawful(),
            tables.of(ops),
            old(self).well_formed(),
        ensures
            (r.0, final(self).model(), r.1) == old(self).model().settled(
                ops,
                ode::rule(ode),
                step,
                left as nat,
                note,
            ),
            final(self).well_formed(),
        decreases left,
    {
        if left == 0 {
            return (Err(Error::Convergence(ConvergenceFault::StepFailed)), note);
        }
        let ghost m = self.model();
        let (found, note) = self.sweep(ops, tables, ode, step, DEGREE, note);
        let (g, eval) = match found {
            Ok(x) => x,
            Err(e) => {
                return (Err(e), note);
            },
        };
        assert forall|k: int| 0 <= k < self.b@.len() implies 6 < (#[trigger] self.b@[k])@.len() by {
            assert(m.b[k] == self.b@[k]@);
        }
        let before = numbers::column_of(&self.b, 6);
        self.b = self.improve(ops, tables, &g);
        let ghost improved = self.model();
        let change = self.largest_ratio(ops, Some(&before), &eval);
        proof {
            let goal = Seq::new(
                improved.control_dim as nat,
                |i: int|
                    arithmetic::quotient(
                        ops,
                        arithmetic::difference(ops, improved.b[i][6], m.b[i][6]).abs_value(),
                        improved.scales(ops, eval@)[i],
                    ),
            );
            assert(goal =~= Seq::new(
                self.control_dim as nat,
                |i: int|
                    arithmetic::quotient(
                        ops,
                        arithmetic::difference(ops, self.model().b[i][6], before@[i]).abs_value(),
                        self.model().scales(ops, eval@)[i],
                    ),
            ));
            assert(change == improved.change(ops, m.b, eval@));
        }
        if change.less(F64 { bits: CONVERGED }) {
            let ratio = self.largest_ratio(ops, None, &eval);
            self.move_on(ops, tables, step);
            let p = numbers::current(&self.pos);
            let v = numbers::current(&self.vel);
            let (f, note) = ode.eval(Time::new(self.time.value), &p, &v, note, true);
            return match f {
                Err(e) => (Err(e), note),
                Ok(f) => {
                    self.acc = f;
                    (Ok(propose(ops, step, ratio)), note)
                },
            };
        }
        self.settle(ops, tables, ode, step, left - 1, note)
    }

    /// Try one step of the length `step`, and return the length proposed for the next one.
    pub fn step<M, A: Arithmetic, E: SecondOrderOde<M>>(
        &mut self,
        ops: &A,
        tables: &Tables,
        ode: &E,
        step: F64,
        note: M,
    ) -> (r: (KeteResult<F64>, M))
        requires
            ops.lawful(),
            ode.lawful(),
            tables.of(ops),
            old(self).well_formed(),
        ensures
            (r.0, final(self).model(), r.1) == old(self).model().stepped(ops, ode::rule(ode), step,
                note),
            final(self).well_formed(),
    {
        self.settle(ops, tables, ode, step, MAX_SWEEPS, note)
    }

    /// The state at the start of an integration.
    pub fn new<M, E: SecondOrderOde<M>>(
        ode: &E,
        pos: &Vec<F64>,
        vel: &Vec<F64>,
        time: Time,
        note: M,
    ) -> (r: (KeteResult<Self>, M))
        requires
            ode.lawful(),
        ensures
            if pos@.len() != vel@.len() {
                &&& r.0 == Err::<Self, Error>(Error::ValueError(ValueFault::LengthMismatch))
                &&& r.1 == note
            } else {
                let (f, last) = ode.value(time, pos@, vel@, note, true);
                &&& r.1 == last
                &&& match f {
                    Err(e) => r.0 == Err::<Self, Error>(e),
                    Ok(f) => {
                        &&& r.0 is Ok
                        &&& r.0->Ok_0.well_formed()
                        &&& r.0->Ok_0.model() == (Model {
                            time: Kahan { value: time.jd, excess: F64 { bits: 0 } },
                            pos: numbers::at_rest(pos@),
                            vel: numbers::at_rest(vel@),
                            acc: f,
                            b: Seq::new(pos@.len(), |i: int| numbers::zeros(DEGREE as nat)),
                            control_dim: pos@.len() as int,
                        })
                    },
                }
            },
    {
        if pos.len() != vel.len() {
            return (Err(Error::ValueError(ValueFault::LengthMismatch)), note);
        }
        let (f, note) = ode.eval(time, pos, vel, note, true);
        match f {
            Err(e) => (Err(e), note),
            Ok(acc) => {
                let b = zero_table(pos.len());
                (
                    Ok(
                        RadauIntegrator {
                            time: Kahan { value: time.jd, excess: F64::zero() },
                            pos: numbers::without_error(pos),
                            vel: numbers::without_error(vel),
                            acc,
                            b,
                            control_dim: pos.len(),
                        },
                    ),
                    note,
                )
            },
        }
    }

    fn first_step<A: Arithmetic>(&self, ops: &A, goal: Time) -> (h: F64)
        requires
            ops.lawful(),
            self.well_formed(),
        ensures
            h == self.model().first_step(ops, goal),
    {
        let ghost sizes = Seq::new(self.control_dim as nat, |i: int| self.acc@[i].abs_value());
        let mut found: Vec<F64> = Vec::new();
        let mut i: usize = 0;
        while i < self.control_dim
            invariant
                self.well_formed(),
                sizes == Seq::new(self.control_dim as nat, |i: int| self.acc@[i].abs_value()),
                i <= self.control_dim,
                found@ == sizes.take(i as int),
            decreases self.control_dim - i,
        {
            found.push(self.acc[i].abs());
            i = i + 1;
            assert(found@ =~= sizes.take(i as int));
        }
        assert(found@ =~= sizes);
        let size = numbers::largest(&found);
        let longest = F64 { bits: MAX_FIRST_STEP };
        let h = if F64::zero().less(size) {
            let guess = ops.binary(
                Binary::Power,
                arithmetic::over(ops, F64 { bits: EPSILON }, size),
                F64 { bits: THIRD },
            );
            numbers::min(guess, longest)
        } else {
            longest
        };
        numbers::copysign(h, arithmetic::minus(ops, goal.jd, self.time.value))
    }

    /// The plan for an integration up to `goal`: nothing where there is no interval, else
    /// the first step. `control_dim` tells how many leading components decide.
    pub fn plan<A: Arithmetic>(&mut self, ops: &A, goal: Time, control_dim: Option<usize>) -> (r:
        KeteResult<Option<Driver>>)
        requires
            ops.lawful(),
            old(self).well_formed(),
        ensures
            final(self).well_formed(),
            ({
                let start = Time { jd: old(self).time.value };
                let control: usize = match control_dim {
                    Some(n) => n,
                    None => old(self).control_dim,
                };
                let planned = Model { control_dim: control as int, ..old(self).model() };
                if control::nothing_to_do(ops, start, goal) {
                    &&& r == Ok::<Option<Driver>, Error>(None)
                    &&& final(self).model() == old(self).model()
                } else if control > old(self).pos@.len() {
                    &&& r == Err::<Option<Driver>, Error>(
                        Error::ValueError(
                            ValueFault::ControlDim { control, dim: old(self).pos@.len() as usize },
                        ),
                    )
                    &&& final(self).model() == old(self).model()
                } else {
                    &&& r == Ok::<Option<Driver>, Error>(
                        Some(Driver { next: planned.first_step(ops, goal), failures: 0 }),
                    )
                    &&& final(self).model() == planned
                }
            }),
    {
        let start = Time::new(self.time.value);
        if control::is_no_interval(ops, start, goal) {
            return Ok(None);
        }
        let wanted = match control_dim {
            Some(n) => Some(n),
            None => Some(self.control_dim),
        };
        match control::resolve_control_dim(wanted, self.pos.len()) {
            Ok(n) => {
                self.control_dim = n;
                Ok(Some(Driver { next: self.first_step(ops, goal), failures: 0 }))
            },
            Err(e) => Err(e),
        }
    }

    /// Take one step towards `goal`, and decide how to go on.
    pub fn advance<M, A: Arithmetic, E: SecondOrderOde<M>>(
        &mut self,
        driver: &mut Driver,
        ops: &A,
        tables: &Tables,
        ode: &E,
        goal: Time,
        note: M,
    ) -> (r: (Progress, M))
        requires
            ops.lawful(),
            ode.lawful(),
            tables.of(ops),
            old(self).well_formed(),
            old(driver).well_formed(),
        ensures
            final(self).well_formed(),
            final(driver).well_formed(),
            ({
                let h = old(driver).aimed(ops, Time { jd: old(self).time.value }, goal);
                let (outcome, next, last) = old(self).model().stepped(ops, ode::rule(ode), h, note);
                &&& final(self).model() == next
                &&& r.1 == last
                &&& (r.0, *final(driver)) == old(driver).judged(
                    ops,
                    h,
                    outcome,
                    Time { jd: next.time.value },
                    goal,
                    F64 { bits: MIN_STEP },
                )
            }),
    {
        let h = driver.aim(ops, Time::new(self.time.value), goal);
        let (outcome, note) = self.step(ops, tables, ode, h, note);
        let p = driver.judge(
            ops,
            h,
            outcome,
            Time::new(self.time.value),
            goal,
            F64 { bits: MIN_STEP },
        );
        (p, note)
    }
}

fn propose<A: Arithmetic>(ops: &A, step: F64, ratio: F64) -> (next: F64)
    requires
        ops.lawful(),
    ensures
        next == Model::proposed(ops, step, ratio),
{
    let least = F64 { bits: MIN_RATIO };
    let growth = ops.binary(
        Binary::Power,
        arithmetic::over(ops, F64 { bits: EPSILON }, ratio),
        F64 { bits: SEVENTH },
    );
    let most = arithmetic::over(ops, F64 { bits: ONE }, least);
    arithmetic::times(ops, step, numbers::clamp(growth, least, most))
}

fn no_columns(n: usize) -> (g: Vec<Vec<F64>>)
    ensures
        numbers::rows(g@) == Seq::new(n as nat, |i: int| Seq::<F64>::empty()),
{
    let mut g: Vec<Vec<F64>> = Vec::new();
    let mut i: usize = 0;
    while i < n
        invariant
            i <= n,
            numbers::rows(g@) == Seq::new(i as nat, |i: int| Seq::<F64>::empty()),
        decreases n - i,
    {
        let row: Vec<F64> = Vec::new();
        proof {
            numbers::lemma_rows_push(g@, row);
        }
        g.push(row);
        i = i + 1;
        assert(numbers::rows(g@) =~= Seq::new(i as nat, |i: int| Seq::<F64>::empty()));
    }
    g
}

fn zero_table(n: usize) -> (b: Vec<Vec<F64>>)
    ensures
        numbers::rows(b@) == Seq::new(n as nat, |i: int| numbers::zeros(DEGREE as nat)),
{
    let mut b: Vec<Vec<F64>> = Vec::new();
    let mut i: usize = 0;
    while i < n
        invariant
            i <= n,
            numbers::rows(b@) == Seq::new(i as nat, |i: int| numbers::zeros(DEGREE as nat)),
        decreases n - i,
    {
        let row = numbers::zero_vector(DEGREE);
        proof {
            numbers::lemma_rows_push(b@, row);
        }
        b.push(row);
        i = i + 1;
        assert(numbers::rows(b@) =~= Seq::new(
            i as nat,
            |i: int| numbers::zeros(DEGREE as nat),
        ));
    }
    b
}

// ---------------------------------------------------------------------------
// Whole integrations
// ---------------------------------------------------------------------------

impl Model {
    /// Where at most `max_steps` steps lead, and the note of the last evaluation. `None` stands
    /// for an integration which is not at its goal by then.
    pub open spec fn run<M, A: Arithmetic>(
        self,
        ops: &A,
        rule: Rule<M>,
        driver: Driver,
        goal: Time,
        note: M,
        max_steps: nat,
    ) -> (KeteResult<Option<Model>>, M)
        decreases max_steps,
    {
        if max_steps == 0 {
            (Ok(None), note)
        } else {
            let h = driver.aimed(ops, Time { jd: self.time.value }, goal);
            let (outcome, next, last) = self.stepped(ops, rule, h, note);
            let (progress, plan) = driver.judged(
                ops,
                h,
                outcome,
                Time { jd: next.time.value },
                goal,
                F64 { bits: MIN_STEP },
            );
            match progress {
                Progress::Done => (Ok(Some(next)), last),
                Progress::Failed(e) => (Err(e), last),
                Progress::Continue => next.run(ops, rule, plan, goal, last, (max_steps - 1) as nat),
            }
        }
    }
}

/// The position and the velocity at `goal` of what is at `pos` with `vel` at `start`, and the
/// note of the last evaluation. `None` stands for an integration which is not at its goal
/// after `max_steps` steps.
pub open spec fn integrated<M, A: Arithmetic>(
    ops: &A,
    rule: Rule<M>,
    pos: Seq<F64>,
    vel: Seq<F64>,
    start: Time,
    goal: Time,
    note: M,
    control_dim: Option<usize>,
    max_steps: nat,
) -> (KeteResult<Option<(Seq<F64>, Seq<F64>)>>, M) {
    let control: usize = match control_dim {
        Some(n) => n,
        None => pos.len() as usize,
    };
    let (f, first) = rule(start, pos, vel, note, true);
    if pos.len() != vel.len() {
        (Err(Error::ValueError(ValueFault::LengthMismatch)), note)
    } else if let Err(e) = f {
        (Err(e), first)
    } else if control::nothing_to_do(ops, start, goal) {
        (Ok(Some((pos, vel))), first)
    } else if control > pos.len() {
        (
            Err(
                Error::ValueError(ValueFault::ControlDim { control, dim: pos.len() as usize }),
            ),
            first,
        )
    } else {
        let planned = Model {
            time: Kahan { value: start.jd, excess: F64 { bits: 0 } },
            pos: numbers::at_rest(pos),
            vel: numbers::at_rest(vel),
            acc: f->Ok_0,
            b: Seq::new(pos.len(), |i: int| numbers::zeros(DEGREE as nat)),
            control_dim: control as int,
        };
        let driver = Driver {
            next: planned.first_step(ops, goal),
            failures: 0,
        };
        let (end, last) = planned.run(ops, rule, driver, goal, first, max_steps);
        match end {
            Err(e) => (Err(e), last),
            Ok(None) => (Ok(None), last),
            Ok(Some(m)) => (Ok(Some((m.position(), m.velocity()))), last),
        }
    }
}

impl RadauIntegrator {
    /// Take at most `max_steps` steps towards `goal`.
    fn go<M, A: Arithmetic, E: SecondOrderOde<M>>(
        self,
        ops: &A,
        tables: &Tables,
        ode: &E,
        driver: Driver,
        goal: Time,
        note: M,
        max_steps: u64,
    ) -> (r: (KeteResult<Option<Arrival>>, M))
        requires
            ops.lawful(),
            ode.lawful(),
            tables.of(ops),
            self.well_formed(),
            driver.well_formed(),
        ensures
            ({
                let (end, last) = self.model().run(
                    ops,
                    ode::rule(ode),
                    driver,
                    goal,
                    note,
                    max_steps as nat,
                );
                &&& r.1 == last
                &&& control::arrived(r.0) == (match end {
                    Err(e) => Err(e),
                    Ok(None) => Ok(None),
                    Ok(Some(m)) => Ok(Some((m.position(), m.velocity()))),
                })
            }),
            r.0 matches Ok(Some(a)) ==> a.pos@.len() == self.pos@.len() && a.vel@.len()
                == self.pos@.len(),
    {
        let mut now = self;
        let mut plan = driver;
        let mut last = note;
        let mut left: u64 = max_steps;
        let ghost whole = self.model().run(ops, ode::rule(ode), driver, goal, note,
            max_steps as nat);
        while left > 0
            invariant
                ops.lawful(),
                ode.lawful(),
                tables.of(ops),
                now.well_formed(),
                plan.well_formed(),
                now.pos@.len() == self.pos@.len(),
                whole == now.model().run(ops, ode::rule(ode), plan, goal, last, left as nat),
                whole == self.model().run(ops, ode::rule(ode), driver, goal, note,
                    max_steps as nat),
            decreases left,
        {
            left = left - 1;
            proof {
                let h = plan.aimed(ops, Time { jd: now.time.value }, goal);
                law_step_keeps_length(now.model(), ops, ode::rule(ode), h, MAX_SWEEPS as nat, last);
            }
            let (progress, noted) = now.advance(&mut plan, ops, tables, ode, goal, last);
            last = noted;
            match progress {
                Progress::Done => {
                    let arrival = Arrival {
                        pos: numbers::current(&now.pos),
                        vel: numbers::current(&now.vel),
                    };
                    return (Ok(Some(arrival)), last);
                },
                Progress::Failed(e) => {
                    return (Err(e), last);
                },
                Progress::Continue => {},
            }
        }
        (Ok(None), last)
    }

    /// Integrate from `start` to `goal`, with at most `max_steps` steps. `control_dim` tells
    /// how many leading components decide about convergence.
    pub fn integrate<M, A: Arithmetic, E: SecondOrderOde<M>>(
        ops: &A,
        ode: &E,
        pos: &Vec<F64>,
        vel: &Vec<F64>,
        start: Time,
        goal: Time,
        note: M,
        control_dim: Option<usize>,
        max_steps: u64,
    ) -> (r: (KeteResult<Option<Arrival>>, M))
        requires
            ops.lawful(),
            ode.lawful(),
        ensures
            (control::arrived(r.0), r.1) == integrated(
                ops,
                ode::rule(ode),
                pos@,
                vel@,
                start,
                goal,
                note,
                control_dim,
                max_steps as nat,
            ),
            r.0 matches Ok(Some(a)) ==> a.pos@.len() == pos@.len() && a.vel@.len() == pos@.len(),
    {
        let tables = Tables::new(ops);
        let (made, first) = Self::new(ode, pos, vel, start, note);
        match made {
            Err(e) => (Err(e), first),
            Ok(integrator) => {
                let mut integrator = integrator;
                assert(numbers::values(numbers::at_rest(pos@)) =~= pos@);
                assert(numbers::values(numbers::at_rest(vel@)) =~= vel@);
                match integrator.plan(ops, goal, control_dim) {
                    Err(e) => (Err(e), first),
                    Ok(None) => {
                        let arrival = Arrival {
                            pos: numbers::current(&integrator.pos),
                            vel: numbers::current(&integrator.vel),
                        };
                        (Ok(Some(arrival)), first)
                    },
                    Ok(Some(driver)) => integrator.go(
                        ops,
                        &tables,
                        ode,
                        driver,
                        goal,
                        first,
                        max_steps,
                    ),
                }
            },
        }
    }
}

/// More steps change nothing once an integration is at its goal or has failed.
pub proof fn law_budget<M, A: Arithmetic>(
    m: Model,
    ops: &A,
    rule: Rule<M>,
    driver: Driver,
    goal: Time,
    note: M,
    max_steps: nat,
    more: nat,
)
    requires
        m.run(ops, rule, driver, goal, note, max_steps).0 != Ok::<Option<Model>, Error>(None),
    ensures
        m.run(ops, rule, driver, goal, note, max_steps + more) == m.run(
            ops,
            rule,
            driver,
            goal,
            note,
            max_steps,
        ),
    decreases max_steps,
{
    if max_steps > 0 {
        let h = driver.aimed(ops, Time { jd: m.time.value }, goal);
        let (outcome, next, last) = m.stepped(ops, rule, h, note);
        let (progress, plan) = driver.judged(
            ops,
            h,
            outcome,
            Time { jd: next.time.value },
            goal,
            F64 { bits: MIN_STEP },
        );
        if progress is Continue {
            law_budget(next, ops, rule, plan, goal, last, (max_steps - 1) as nat, more);
            assert((max_steps + more - 1) as nat == (max_steps - 1) as nat + more);
        }
    }
}

/// A step keeps the number of components, whether it succeeds or fails.
pub proof fn law_step_keeps_length<M, A: Arithmetic>(
    m: Model,
    ops: &A,
    rule: Rule<M>,
    step: F64,
    left: nat,
    note: M,
)
    ensures
        m.settled(ops, rule, step, left, note).1.pos.len() == m.pos.len(),
        m.settled(ops, rule, step, left, note).1.vel.len() == m.vel.len(),
    decreases left,
{
    if left > 0 {
        let (r, last) = m.swept(ops, rule, step, DEGREE as nat, note);
        if let Ok((g, eval)) = r {
            let improved = Model { b: m.coefficients(ops, g), ..m };
            if !improved.change(ops, m.b, eval).spec_lt(F64 { bits: CONVERGED }) {
                law_step_keeps_length(improved, ops, rule, step, (left - 1) as nat, last);
            }
        }
    }
}

/// An integration which succeeds is at its goal.
pub proof fn law_arrives<M, A: Arithmetic>(
    m: Model,
    ops: &A,
    rule: Rule<M>,
    driver: Driver,
    goal: Time,
    note: M,
    max_steps: nat,
)
    ensures
        m.run(ops, rule, driver, goal, note, max_steps).0 matches Ok(Some(end))
            ==> control::at_goal(
            ops,
            Time { jd: end.time.value },
            goal,
        ),
    decreases max_steps,
{
    if max_steps > 0 {
        let h = driver.aimed(ops, Time { jd: m.time.value }, goal);
        let (outcome, next, last) = m.stepped(ops, rule, h, note);
        let (progress, plan) = driver.judged(
            ops,
            h,
            outcome,
            Time { jd: next.time.value },
            goal,
            F64 { bits: MIN_STEP },
        );
        if progress is Continue {
            law_arrives(next, ops, rule, plan, goal, last, (max_steps - 1) as nat);
        }
    }
}

/// Where the goal is at hand, the state is given back as it is.
pub proof fn law_nothing_to_do<M, A: Arithmetic>(
    ops: &A,
    rule: Rule<M>,
    pos: Seq<F64>,
    vel: Seq<F64>,
    start: Time,
    goal: Time,
    note: M,
    control_dim: Option<usize>,
    max_steps: nat,
)
    requires
        pos.len() == vel.len(),
        rule(start, pos, vel, note, true).0 is Ok,
        control::nothing_to_do(ops, start, goal),
    ensures
        integrated(ops, rule, pos, vel, start, goal, note, control_dim, max_steps).0 == Ok::<
            Option<(Seq<F64>, Seq<F64>)>,
            Error,
        >(Some((pos, vel))),
{
}

/// Whoever allows more steps gets the same result, where there is one.
pub proof fn law_more_steps<M, A: Arithmetic>(
    ops: &A,
    rule: Rule<M>,
    pos: Seq<F64>,
    vel: Seq<F64>,
    start: Time,
    goal: Time,
    note: M,
    control_dim: Option<usize>,
    max_steps: nat,
    more: nat,
)
    requires
        integrated(ops, rule, pos, vel, start, goal, note, control_dim, max_steps).0 != Ok::<
            Option<(Seq<F64>, Seq<F64>)>,
            Error,
        >(None),
    ensures
        integrated(ops, rule, pos, vel, start, goal, note, control_dim, max_steps + more)
            == integrated(ops, rule, pos, vel, start, goal, note, control_dim, max_steps),
{
    let control: usize = match control_dim {
        Some(n) => n,
        None => pos.len() as usize,
    };
    let (f, first) = rule(start, pos, vel, note, true);
    if pos.len() == vel.len() && f is Ok && !control::nothing_to_do(ops, start, goal) && control
        <= pos.len() {
        let planned = Model {
            time: Kahan { value: start.jd, excess: F64 { bits: 0 } },
            pos: numbers::at_rest(pos),
            vel: numbers::at_rest(vel),
            acc: f->Ok_0,
            b: Seq::new(pos.len(), |i: int| numbers::zeros(DEGREE as nat)),
            control_dim: control as int,
        };
        let driver = Driver { next: planned.first_step(ops, goal), failures: 0 };
        law_budget(planned, ops, rule, driver, goal, first, max_steps, more);
    }
}

} // verus!
