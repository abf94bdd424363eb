//! The Gragg-Bulirsch-Stoer method: the midpoint rule at ever finer substeps, and
//! extrapolation of its results to substeps of no length.
//!
//! Increments over the step are extrapolated rather than states, which keeps the
//! differences between them free of cancellation.
use crate::arithmetic;
use crate::arithmetic::{Arithmetic, Binary, Kahan};
use crate::errors::{ConvergenceFault, Error, KeteResult, ValueFault};
use crate::float::F64;
use crate::integrators::control;
use crate::integrators::control::{Arrival, Driver, Progress};
use crate::integrators::ode;
use crate::integrators::ode::{Rule, SecondOrderOde};
use crate::numbers;
use crate::time::Time;
use vstd::prelude::*;

verus! {

/// How many numbers of substeps are tried.
pub const K_MAX: usize = 8;

/// The first column of the extrapolation at which a step can be accepted.
pub const MIN_J: usize = 4;

/// Bits of 1e-14, the relative tolerance.
pub const RTOL: u64 = 0x3d06_849b_86a1_2b9b;

/// Bits of the square of the machine epsilon, which keeps a scale away from zero.
pub const EPS_FLOOR: u64 = 0x3970_0000_0000_0000;

/// Bits of 0.9, by which a predicted step is shortened to be safe.
pub const SAFETY: u64 = 0x3fec_cccc_cccc_cccd;

/// Bits of 0.005, the shortest step in days.
pub const MIN_STEP: u64 = 0x3f74_7ae1_47ae_147b;

/// Bits of 0.1, the first step in days.
pub const INIT_STEP: u64 = 0x3fb9_9999_9999_999a;

/// Bits of 0.1, the least ratio between one step and the one before.
pub const MIN_RATIO: u64 = 0x3fb9_9999_9999_999a;

/// Bits of 1/4, 1/2, 1 and 2.
pub const QUARTER: u64 = 0x3fd0_0000_0000_0000;

/// Bits of 1/2.
pub const HALF: u64 = 0x3fe0_0000_0000_0000;

/// Bits of 1.
pub const ONE: u64 = 0x3ff0_0000_0000_0000;

/// Bits of 2.
pub const TWO: u64 = 0x4000_0000_0000_0000;

/// How many substeps are made at each try.
pub open spec fn n_seq(j: int) -> usize {
    if j == 0 {
        2
    } else if j == 1 {
        4
    } else if j == 2 {
        6
    } else if j == 3 {
        8
    } else if j == 4 {
        12
    } else if j == 5 {
        16
    } else if j == 6 {
        24
    } else {
        32
    }
}

/// How many substeps are made at each try.
fn substeps(j: usize) -> (n: usize)
    ensures
        n == n_seq(j as int),
        2 <= n <= 32,
{
    match j {
        0 => 2,
        1 => 4,
        2 => 6,
        3 => 8,
        4 => 12,
        5 => 16,
        6 => 24,
        _ => 32,
    }
}

/// Increments inside a step, after some of its substeps.
pub struct Inner {
    /// The increment of the position over the last substep.
    pub delta: Seq<F64>,
    /// The increment of the position since the step began.
    pub moved: Seq<F64>,
    /// The same, one substep before.
    pub before: Seq<F64>,
    /// The increment of the velocity since the step began.
    pub gained: Seq<F64>,
    /// The velocity at which the next evaluation is made.
    pub speed: Seq<F64>,
}

/// The state of an integration as numbers.
pub struct Model {
    pub time: Kahan,
    pub pos: Seq<Kahan>,
    pub vel: Seq<Kahan>,
    pub acc: Seq<F64>,
    pub control_dim: int,
}

impl Model {
    /// Do the vectors have one length, and are there components enough to decide.
    pub open spec fn well_formed(self) -> bool {
        &&& self.vel.len() == self.pos.len()
        &&& self.acc.len() == self.pos.len()
        &&& self.control_dim <= self.pos.len()
    }

    /// The position.
    pub open spec fn position(self) -> Seq<F64> {
        numbers::values(self.pos)
    }

    /// The velocity.
    pub open spec fn velocity(self) -> Seq<F64> {
        numbers::values(self.vel)
    }

    /// After the first substep of the length `h`: the position moves by `h v + h^2/2 a`, and
    /// the velocity gains `h/2 a`.
    pub open spec fn first_substep<A: Arithmetic>(self, ops: &A, h: F64) -> Inner {
        let h2 = arithmetic::product(ops, h, h);
        let delta = numbers::sums(
            ops,
            numbers::scaled(ops, self.velocity(), h),
            numbers::scaled(ops, self.acc, arithmetic::product(ops, h2, F64 { bits: HALF })),
        );
        let gained = numbers::scaled(
            ops,
            self.acc,
            arithmetic::product(ops, h, F64 { bits: HALF }),
        );
        Inner {
            delta,
            moved: delta,
            before: numbers::zeros(self.pos.len()),
            gained,
            speed: numbers::sums(ops, self.velocity(), gained),
        }
    }

    /// One more substep of the length `h`, where the acceleration is `f`.
    pub open spec fn next_substep<A: Arithmetic>(
        self,
        ops: &A,
        h: F64,
        s: Inner,
        f: Seq<F64>,
    ) -> Inner {
        let h2 = arithmetic::product(ops, h, h);
        let delta = numbers::sums(ops, s.delta, numbers::scaled(ops, f, h2));
        let moved = numbers::sums(ops, s.moved, delta);
        Inner {
            delta,
            moved,
            before: s.moved,
            gained: numbers::sums(ops, s.gained, numbers::scaled(ops, f, h)),
            speed: numbers::sums(
                ops,
                self.velocity(),
                numbers::parts(
                    ops,
                    numbers::differences(ops, moved, s.before),
                    arithmetic::product(ops, F64 { bits: TWO }, h),
                ),
            ),
        }
    }

    /// The position inside a step.
    pub open spec fn inner_pos<A: Arithmetic>(self, ops: &A, s: Inner) -> Seq<F64> {
        numbers::sums(ops, self.position(), s.moved)
    }

    /// The time after `k` substeps of the length `h`.
    pub open spec fn inner_time<A: Arithmetic>(self, ops: &A, k: u64, h: F64) -> Time {
        Time {
            jd: arithmetic::sum(
                ops,
                self.time.value,
                arithmetic::product(ops, ops.whole(k), h),
            ),
        }
    }

    /// After `k` substeps, with the note of the last evaluation.
    pub open spec fn after_substeps<M, A: Arithmetic>(
        self,
        ops: &A,
        rule: Rule<M>,
        h: F64,
        k: nat,
        note: M,
    ) -> (KeteResult<Inner>, M)
        decreases k,
    {
        if k <= 1 {
            (Ok(self.first_substep(ops, h)), note)
        } else {
            let (s, note) = self.after_substeps(ops, rule, h, (k - 1) as nat, note);
            match s {
                Err(e) => (Err(e), note),
                Ok(s) => {
                    let (f, note) = rule(
                        self.inner_time(ops, (k - 1) as u64, h),
                        self.inner_pos(ops, s),
                        s.speed,
                        note,
                        false,
                    );
                    match f {
                        Err(e) => (Err(e), note),
                        Ok(f) => (Ok(self.next_substep(ops, h, s, f)), note),
                    }
                },
            }
        }
    }

    /// The increments of position and velocity over a step of the length `step`, by the
    /// midpoint rule with `n` substeps, smoothed by the acceleration at its end.
    pub open spec fn midpoint<M, A: Arithmetic>(
        self,
        ops: &A,
        rule: Rule<M>,
        step: F64,
        n: usize,
        note: M,
    ) -> (KeteResult<(Seq<F64>, Seq<F64>)>, M) {
        let h = arithmetic::quotient(ops, step, ops.whole(n as u64));
        let h2 = arithmetic::product(ops, h, h);
        let (s, note) = self.after_substeps(ops, rule, h, n as nat, note);
        match s {
            Err(e) => (Err(e), note),
            Ok(s) => {
                let end = Time { jd: arithmetic::sum(ops, self.time.value, step) };
                let (f, note) = rule(end, self.inner_pos(ops, s), s.speed, note, false);
                match f {
                    Err(e) => (Err(e), note),
                    Ok(f) => (
                        Ok(
                            (
                                numbers::sums(
                                    ops,
                                    s.moved,
                                    numbers::scaled(
                                        ops,
                                        f,
                                        arithmetic::product(ops, h2, F64 { bits: QUARTER }),
                                    ),
                                ),
                                numbers::sums(
                                    ops,
                                    s.gained,
                                    numbers::scaled(
                                        ops,
                                        f,
                                        arithmetic::product(ops, h, F64 { bits: HALF }),
                                    ),
                                ),
                            ),
                        ),
                        note,
                    ),
                }
            },
        }
    }
}

/// The square of the ratio of the substeps of the tries `j` and `j - k`, less one.
pub open spec fn leverage<A: Arithmetic>(ops: &A, j: int, k: int) -> F64 {
    let ratio = arithmetic::quotient(
        ops,
        ops.whole(n_seq(j) as u64),
        ops.whole(n_seq(j - k) as u64),
    );
    arithmetic::difference(ops, arithmetic::product(ops, ratio, ratio), F64 { bits: ONE })
}

/// Column `k` of row `j` of the extrapolation: the result of the midpoint rule in column
/// 0, and from there each column from the one before it in this row and in the row
/// before.
pub open spec fn entry<A: Arithmetic>(
    ops: &A,
    row_before: Seq<Seq<F64>>,
    midpoint: Seq<F64>,
    j: int,
    k: nat,
) -> Seq<F64>
    decreases k,
{
    if k == 0 {
        midpoint
    } else {
        let left = entry(ops, row_before, midpoint, j, (k - 1) as nat);
        numbers::sums(
            ops,
            left,
            numbers::parts(
                ops,
                numbers::differences(ops, left, row_before[k - 1]),
                leverage(ops, j, k as int),
            ),
        )
    }
}

/// Row `j` of the extrapolation.
pub open spec fn row<A: Arithmetic>(
    ops: &A,
    row_before: Seq<Seq<F64>>,
    midpoint: Seq<F64>,
    j: nat,
) -> Seq<Seq<F64>> {
    Seq::new(j + 1, |k: int| entry(ops, row_before, midpoint, j as int, k as nat))
}

impl Model {
    /// The size of component `i` of the position at the end of the step.
    pub open spec fn reach<A: Arithmetic>(self, ops: &A, moved: Seq<F64>, i: int) -> F64 {
        arithmetic::product(
            ops,
            F64 { bits: RTOL },
            arithmetic::sum(ops, self.pos[i].value, moved[i]).abs_value(),
        )
    }

    /// The change of each component from the last but one to the last column, in units of
    /// what is tolerated. `per_time` is the length of the step where the velocity is meant.
    pub open spec fn errors<A: Arithmetic>(
        self,
        ops: &A,
        moved: Seq<F64>,
        last: Seq<F64>,
        before: Seq<F64>,
        per_time: Option<F64>,
    ) -> Seq<F64> {
        Seq::new(
            self.control_dim as nat,
            |i: int|
                arithmetic::quotient(
                    ops,
                    arithmetic::difference(ops, last[i], before[i]).abs_value(),
                    arithmetic::sum(
                        ops,
                        match per_time {
                            Some(h) => arithmetic::quotient(ops, self.reach(ops, moved, i), h),
                            None => self.reach(ops, moved, i),
                        },
                        F64 { bits: EPS_FLOOR },
                    ),
                ),
        )
    }

    /// The largest error.
    pub open spec fn worst_error<A: Arithmetic>(
        self,
        ops: &A,
        moved: Seq<F64>,
        last: Seq<F64>,
        before: Seq<F64>,
        per_time: Option<F64>,
    ) -> F64 {
        numbers::worst(
            self.errors(ops, moved, last, before, per_time),
            self.control_dim as nat,
        )
    }

    /// The state after the increments `moved` and `gained` have been accepted, with the
    /// acceleration as it was.
    pub open spec fn accepted<A: Arithmetic>(
        self,
        ops: &A,
        step: F64,
        moved: Seq<F64>,
        gained: Seq<F64>,
    ) -> Model {
        Model {
            time: self.time.moved(ops, step),
            pos: arithmetic::all_moved(ops, self.pos, moved),
            vel: arithmetic::all_moved(ops, self.vel, gained),
            acc: self.acc,
            control_dim: self.control_dim,
        }
    }

    /// The step after one of the length `step` which was accepted in column `j` with the
    /// error `error`.
    pub open spec fn proposed<A: Arithmetic>(ops: &A, step: F64, error: F64, j: nat) -> F64 {
        let one = F64 { bits: ONE };
        let exponent = arithmetic::quotient(
            ops,
            one,
            arithmetic::sum(ops, ops.whole((2 * (j + 1)) as u64), one),
        );
        let growth = ops.two(Binary::Power, arithmetic::quotient(ops, one, error), exponent);
        let next = arithmetic::product(
            ops,
            arithmetic::product(ops, step, growth),
            F64 { bits: SAFETY },
        );
        let ratio = F64 { bits: MIN_RATIO };
        numbers::signed_like(
            numbers::within(
                next.abs_value(),
                arithmetic::product(ops, step.abs_value(), ratio),
                arithmetic::product(ops, step.abs_value(), arithmetic::quotient(ops, one, ratio)),
            ),
            step,
        )
    }

    /// The outcome of a step, from row `j` of the extrapolation on: the size proposed for
    /// the next step, the new state and the last note.
    pub open spec fn stepped_from<M, A: Arithmetic>(
        self,
        ops: &A,
        rule: Rule<M>,
        step: F64,
        j: nat,
        pos_before: Seq<Seq<F64>>,
        vel_before: Seq<Seq<F64>>,
        note: M,
    ) -> (KeteResult<F64>, Model, M)
        decreases K_MAX - j,
    {
        if j >= K_MAX {
            (Err(Error::Convergence(ConvergenceFault::StepFailed)), self, note)
        } else {
            let (mid, note) = self.midpoint(ops, rule, step, n_seq(j as int), note);
            match mid {
                Err(e) => (Err(e), self, note),
                Ok((dpos, dvel)) => {
                    let pos_row = row(ops, pos_before, dpos, j);
                    let vel_row = row(ops, vel_before, dvel, j);
                    let error = self.worst_error(
                        ops,
                        pos_row[j as int],
                        pos_row[j as int],
                        pos_row[j - 1],
                        None,
                    );
                    if j >= MIN_J && error.spec_lt(F64 { bits: ONE }) {
                        let vel_error = self.worst_error(
                            ops,
                            pos_row[j as int],
                            vel_row[j as int],
                            vel_row[j - 1],
                            Some(step.abs_value()),
                        );
                        let next = self.accepted(ops, step, pos_row[j as int], vel_row[j as int]);
                        let (f, note) = rule(
                            Time { jd: next.time.value },
                            next.position(),
                            next.velocity(),
                            note,
                            true,
                        );
                        match f {
                            Err(e) => (Err(e), next, note),
                            Ok(f) => (
                                Ok(
                                    Model::proposed(
                                        ops,
                                        step,
                                        numbers::larger(error, vel_error),
                                        j,
                                    ),
                                ),
                                Model { acc: f, ..next },
                                note,
                            ),
                        }
                    } else {
                        self.stepped_from(ops, rule, step, j + 1, pos_row, vel_row, note)
                    }
                },
            }
        }
    }

    /// The outcome of a step.
    pub open spec fn stepped<M, A: Arithmetic>(
        self,
        ops: &A,
        rule: Rule<M>,
        step: F64,
        note: M,
    ) -> (KeteResult<F64>, Model, M) {
        self.stepped_from(ops, rule, step, 0, Seq::empty(), Seq::empty(), note)
    }
}

/// The state of an integration with adaptive steps.
pub struct BulirschStoerIntegrator {
    /// The time which has been reached.
    pub time: Kahan,
    /// The position at that time.
    pub pos: Vec<Kahan>,
    /// The velocity at that time.
    pub vel: Vec<Kahan>,
    /// The acceleration at that time.
    pub acc: Vec<F64>,
    /// How many leading components decide about convergence.
    pub control_dim: usize,
}

/// Increments inside a step, after some of its substeps.
struct Substep {
    delta: Vec<F64>,
    moved: Vec<F64>,
    before: Vec<F64>,
    gained: Vec<F64>,
    speed: Vec<F64>,
}

impl Substep {
    spec fn inner(&self) -> Inner {
        Inner {
            delta: self.delta@,
            moved: self.moved@,
            before: self.before@,
            gained: self.gained@,
            speed: self.speed@,
        }
    }

    spec fn fits(&self, n: nat) -> bool {
        &&& self.delta@.len() == n
        &&& self.moved@.len() == n
        &&& self.before@.len() == n
        &&& self.gained@.len() == n
        &&& self.speed@.len() == n
    }
}

impl BulirschStoerIntegrator {
    /// The state as numbers.
    pub open spec fn model(&self) -> Model {
        Model {
            time: self.time,
            pos: self.pos@,
            vel: self.vel@,
            acc: self.acc@,
            control_dim: self.control_dim as int,
        }
    }

    /// Do the parts of the state belong together.
    pub open spec fn well_formed(&self) -> bool {
        self.model().well_formed()
    }

    fn first_substep<A: Arithmetic>(&self, ops: &A, h: F64) -> (s: Substep)
        requires
            ops.lawful(),
            self.well_formed(),
        ensures
            s.inner() == self.model().first_substep(ops, h),
            s.fits(self.pos@.len()),
    {
        let half = F64 { bits: HALF };
        let h2 = arithmetic::times(ops, h, h);
        let vel = numbers::current(&self.vel);
        let drift = numbers::scale(ops, &vel, h);
        let bend = numbers::scale(ops, &self.acc, arithmetic::times(ops, h2, half));
        let delta = numbers::add(ops, &drift, &bend);
        let gained = numbers::scale(ops, &self.acc, arithmetic::times(ops, h, half));
        let speed = numbers::add(ops, &vel, &gained);
        let moved = numbers::copied(&delta);
        let before = numbers::zero_vector(self.pos.len());
        Substep { delta, moved, before, gained, speed }
    }

    fn next_substep<A: Arithmetic>(&self, ops: &A, h: F64, s: Substep, f: &Vec<F64>) -> (r: Substep)
        requires
            ops.lawful(),
            self.well_formed(),
            s.fits(self.pos@.len()),
            f@.len() == self.pos@.len(),
        ensures
            r.inner() == self.model().next_substep(ops, h, s.inner(), f@),
            r.fits(self.pos@.len()),
    {
        let h2 = arithmetic::times(ops, h, h);
        let vel = numbers::current(&self.vel);
        let delta = numbers::add(ops, &s.delta, &numbers::scale(ops, f, h2));
        let gained = numbers::add(ops, &s.gained, &numbers::scale(ops, f, h));
        let moved = numbers::add(ops, &s.moved, &delta);
        let across = numbers::subtract(ops, &moved, &s.before);
        let slope = numbers::divide(
            ops,
            &across,
            arithmetic::times(ops, F64 { bits: TWO }, h),
        );
        let speed = numbers::add(ops, &vel, &slope);
        Substep { delta, moved, before: s.moved, gained, speed }
    }

    fn inner_pos<A: Arithmetic>(&self, ops: &A, s: &Substep) -> (p: Vec<F64>)
        requires
            ops.lawful(),
            self.well_formed(),
            s.fits(self.pos@.len()),
        ensures
            p@ == self.model().inner_pos(ops, s.inner()),
            p@.len() == self.pos@.len(),
    {
        numbers::add(ops, &numbers::current(&self.pos), &s.moved)
    }

    fn after_substeps<M, A: Arithmetic, E: SecondOrderOde<M>>(
        &self,
        ops: &A,
        ode: &E,
        h: F64,
        k: usize,
        note: M,
    ) -> (r: (KeteResult<Substep>, M))
        requires
            ops.lawful(),
            ode.lawful(),
            self.well_formed(),
        ensures
            ({
                let (s, last) = self.model().after_substeps(ops, ode::rule(ode), h, k as nat, note);
                &&& r.1 == last
                &&& match s {
                    Ok(s) => r.0 is Ok && r.0->Ok_0.inner() == s && r.0->Ok_0.fits(self.pos@.len()),
                    Err(e) => r.0 == Err::<Substep, Error>(e),
                }
            }),
        decreases k,
    {
        if k <= 1 {
            return (Ok(self.first_substep(ops, h)), note);
        }
        let (s, note) = self.after_substeps(ops, ode, h, k - 1, note);
        match s {
            Err(e) => (Err(e), note),
            Ok(s) => {
                let steps = ops.integer((k - 1) as u64);
                let t = Time::new(
                    arithmetic::plus(ops, self.time.value, arithmetic::times(ops, steps, h)),
                );
                let p = self.inner_pos(ops, &s);
                let (f, note) = ode.eval(t, &p, &s.speed, note, false);
                match f {
                    Err(e) => (Err(e), note),
                    Ok(f) => (Ok(self.next_substep(ops, h, s, &f)), note),
                }
            },
        }
    }

    /// The increments of position and velocity over a step of the length `step`, by the
    /// midpoint rule with `n` substeps.
    pub fn modified_midpoint<M, A: Arithmetic, E: SecondOrderOde<M>>(
        &self,
        ops: &A,
        ode: &E,
        step: F64,
        n: usize,
        note: M,
    ) -> (r: (KeteResult<(Vec<F64>, Vec<F64>)>, M))
        requires
            ops.lawful(),
            ode.lawful(),
            self.well_formed(),
        ensures
            ({
                let (mid, last) = self.model().midpoint(ops, ode::rule(ode), step, n, note);
                &&& r.1 == last
                &&& match mid {
                    Ok((dpos, dvel)) => {
                        &&& r.0 is Ok
                        &&& r.0->Ok_0.0@ == dpos
                        &&& r.0->Ok_0.1@ == dvel
                        &&& dpos.len() == self.pos@.len()
                        &&& dvel.len() == self.pos@.len()
                    },
                    Err(e) => r.0 == Err::<(Vec<F64>, Vec<F64>), Error>(e),
                }
            }),
    {
        let h = arithmetic::over(ops, step, ops.integer(n as u64));
        let h2 = arithmetic::times(ops, h, h);
        let (s, note) = self.after_substeps(ops, ode, h, n, note);
        match s {
            Err(e) => (Err(e), note),
            Ok(s) => {
                let end = Time::new(arithmetic::plus(ops, self.time.value, step));
                let p = self.inner_pos(ops, &s);
                let (f, note) = ode.eval(end, &p, &s.speed, note, false);
                match f {
                    Err(e) => (Err(e), note),
                    Ok(f) => {
                        let quarter = arithmetic::times(ops, h2, F64 { bits: QUARTER });
                        let half = arithmetic::times(ops, h, F64 { bits: HALF });
                        let dpos = numbers::add(ops, &s.moved, &numbers::scale(ops, &f, quarter));
                        let dvel = numbers::add(ops, &s.gained, &numbers::scale(ops, &f, half));
                        (Ok((dpos, dvel)), note)
                    },
                }
            },
        }
    }

    fn error_sizes<A: Arithmetic>(
        &self,
        ops: &A,
        moved: &Vec<F64>,
        last: &Vec<F64>,
        before: &Vec<F64>,
        per_time: Option<F64>,
    ) -> (worst: F64)
        requires
            ops.lawful(),
            self.well_formed(),
            moved@.len() == self.pos@.len(),
            last@.len() == self.pos@.len(),
            before@.len() == self.pos@.len(),
        ensures
            worst == self.model().worst_error(ops, moved@, last@, before@, per_time),
    {
        let ghost m = self.model();
        let ghost errors = m.errors(ops, moved@, last@, before@, per_time);
        let mut worst = F64::zero();
        let mut i: usize = 0;
        while i < self.control_dim
            invariant
                ops.lawful(),
                self.well_formed(),
                m == self.model(),
                errors == m.errors(ops, moved@, last@, before@, per_time),
                moved@.len() == self.pos@.len(),
                last@.len() == self.pos@.len(),
                before@.len() == self.pos@.len(),
                i <= self.control_dim,
                worst == numbers::worst(errors, i as nat),
            decreases self.control_dim - i,
        {
            let end = arithmetic::plus(ops, self.pos[i].value, moved[i]);
            let reach = arithmetic::times(ops, F64 { bits: RTOL }, end.abs());
            let scale = match per_time {
                Some(h) => arithmetic::over(ops, reach, h),
                None => reach,
            };
            let change = arithmetic::minus(ops, last[i], before[i]).abs();
            let error = arithmetic::over(
                ops,
                change,
                arithmetic::plus(ops, scale, F64 { bits: EPS_FLOOR }),
            );
            assert(error == errors[i as int]);
            if worst.less(error) {
                worst = error;
            }
            i = i + 1;
        }
        worst
    }

    fn accept<A: Arithmetic>(&mut self, ops: &A, step: F64, moved: &Vec<F64>, gained: &Vec<F64>)
        requires
            ops.lawful(),
            old(self).well_formed(),
            moved@.len() == old(self).pos@.len(),
            gained@.len() == old(self).pos@.len(),
        ensures
            final(self).model() == old(self).model().accepted(ops, step, moved@, gained@),
            final(self).well_formed(),
    {
        arithmetic::kahan_add(ops, &mut self.pos, moved);
        arithmetic::kahan_add(ops, &mut self.vel, gained);
        self.time = self.time.step(ops, step);
    }

    fn step_from<M, A: Arithmetic, E: SecondOrderOde<M>>(
        &mut self,
        ops: &A,
        ode: &E,
        step: F64,
        j: usize,
        pos_before: &Vec<Vec<F64>>,
        vel_before: &Vec<Vec<F64>>,
        note: M,
    ) -> (r: (KeteResult<F64>, M))
        requires
            ops.lawful(),
            ode.lawful(),
            old(self).well_formed(),
            j <= K_MAX,
            table_fits(pos_before@, j as nat, old(self).pos@.len()),
            table_fits(vel_before@, j as nat, old(self).pos@.len()),
        ensures
            (r.0, final(self).model(), r.1) == old(self).model().stepped_from(
                ops,
                ode::rule(ode),
                step,
                j as nat,
                numbers::rows(pos_before@),
                numbers::rows(vel_before@),
                note,
            ),
            final(self).well_formed(),
        decreases K_MAX - j,
    {
        if j >= K_MAX {
            return (Err(Error::Convergence(ConvergenceFault::StepFailed)), note);
        }
        let (mid, note) = self.modified_midpoint(ops, ode, step, substeps(j), note);
        let (dpos, dvel) = match mid {
            Ok(d) => d,
            Err(e) => {
                return (Err(e), note);
            },
        };
        let pos_row = extrapolate(ops, pos_before, dpos, j);
        let vel_row = extrapolate(ops, vel_before, dvel, j);
        if j >= MIN_J {
            let ghost m = self.model();
            assert(numbers::rows(pos_row@)[j as int] == pos_row@[j as int]@);
            assert(numbers::rows(pos_row@)[j - 1] == pos_row@[j - 1]@);
            assert(numbers::rows(vel_row@)[j as int] == vel_row@[j as int]@);
            assert(numbers::rows(vel_row@)[j - 1] == vel_row@[j - 1]@);
            let error = self.error_sizes(ops, &pos_row[j], &pos_row[j], &pos_row[j - 1], None);
            if error.less(F64 { bits: ONE }) {
                let vel_error = self.error_sizes(
                    ops,
                    &pos_row[j],
                    &vel_row[j],
                    &vel_row[j - 1],
                    Some(step.abs()),
                );
                self.accept(ops, step, &pos_row[j], &vel_row[j]);
                let p = numbers::current(&self.pos);
                let v = numbers::current(&self.vel);
                let (f, note) = ode.eval(Time::new(self.time.value), &p, &v, note, true);
                return match f {
                    Err(e) => (Err(e), note),
                    Ok(f) => {
                        self.acc = f;
                        let next = propose(ops, step, numbers::max(error, vel_error), j);
                        (Ok(next), note)
                    },
                };
            }
        }
        self.step_from(ops, ode, step, j + 1, &pos_row, &vel_row, note)
    }

    /// Try one step of the length `step`, and return the length proposed for the next one.
    pub fn step<M, A: Arithmetic, E: SecondOrderOde<M>>(
        &mut self,
        ops: &A,
        ode: &E,
        step: F64,
        note: M,
    ) -> (r: (KeteResult<F64>, M))
        requires
            ops.lawful(),
            ode.lawful(),
            old(self).well_formed(),
        ensures
            (r.0, final(self).model(), r.1) == old(self).model().stepped(ops, ode::rule(ode), step,
                note),
            final(self).well_formed(),
    {
        let none: Vec<Vec<F64>> = Vec::new();
        assert(numbers::rows(none@) =~= Seq::empty());
        self.step_from(ops, ode, step, 0, &none, &none, note)
    }

    /// The state at the start of an integration.
    pub fn new<M, E: SecondOrderOde<M>>(
        ode: &E,
        pos: &Vec<F64>,
        vel: &Vec<F64>,
        time: Time,
        note: M,
    ) -> (r: (KeteResult<Self>, M))
        requires
            ode.lawful(),
        ensures
            if pos@.len() != vel@.len() {
                &&& r.0 == Err::<Self, Error>(Error::ValueError(ValueFault::LengthMismatch))
                &&& r.1 == note
            } else {
                let (f, last) = ode.value(time, pos@, vel@, note, true);
                &&& r.1 == last
                &&& match f {
                    Err(e) => r.0 == Err::<Self, Error>(e),
                    Ok(f) => {
                        &&& r.0 is Ok
                        &&& r.0->Ok_0.well_formed()
                        &&& r.0->Ok_0.model() == (Model {
                            time: Kahan { value: time.jd, excess: F64 { bits: 0 } },
                            pos: numbers::at_rest(pos@),
                            vel: numbers::at_rest(vel@),
                            acc: f,
                            control_dim: pos@.len() as int,
                        })
                    },
                }
            },
    {
        if pos.len() != vel.len() {
            return (Err(Error::ValueError(ValueFault::LengthMismatch)), note);
        }
        let (f, note) = ode.eval(time, pos, vel, note, true);
        match f {
            Err(e) => (Err(e), note),
            Ok(acc) => (
                Ok(
                    BulirschStoerIntegrator {
                        time: Kahan { value: time.jd, excess: F64::zero() },
                        pos: numbers::without_error(pos),
                        vel: numbers::without_error(vel),
                        acc,
                        control_dim: pos.len(),
                    },
                ),
                note,
            ),
        }
    }

    /// The plan for an integration up to `goal`: nothing where there is no interval, else
    /// the first step. `control_dim` tells how many leading components decide.
    pub fn plan<A: Arithmetic>(&mut self, ops: &A, goal: Time, control_dim: Option<usize>) -> (r:
        KeteResult<Option<Driver>>)
        requires
            ops.lawful(),
            old(self).well_formed(),
        ensures
            final(self).well_formed(),
            ({
                let start = Time { jd: old(self).time.value };
                let control: usize = match control_dim {
                    Some(n) => n,
                    None => old(self).control_dim,
                };
                if control::nothing_to_do(ops, start, goal) {
                    &&& r == Ok::<Option<Driver>, Error>(None)
                    &&& final(self).model() == old(self).model()
                } else if control > old(self).pos@.len() {
                    &&& r == Err::<Option<Driver>, Error>(
                        Error::ValueError(
                            ValueFault::ControlDim { control, dim: old(self).pos@.len() as usize },
                        ),
                    )
                    &&& final(self).model() == old(self).model()
                } else {
                    &&& r == Ok::<Option<Driver>, Error>(
                        Some(
                            Driver {
                                next: numbers::signed_like(
                                    F64 { bits: INIT_STEP },
                                    arithmetic::difference(ops, goal.jd, start.jd),
                                ),
                                failures: 0,
                            },
                        ),
                    )
                    &&& final(self).model() == (Model {
                        control_dim: control as int,
                        ..old(self).model()
                    })
                }
            }),
    {
        let start = Time::new(self.time.value);
        if control::is_no_interval(ops, start, goal) {
            return Ok(None);
        }
        let total = arithmetic::minus(ops, goal.jd, start.jd);
        let next = numbers::copysign(F64 { bits: INIT_STEP }, total);
        let wanted = match control_dim {
            Some(n) => Some(n),
            None => Some(self.control_dim),
        };
        match control::resolve_control_dim(wanted, self.pos.len()) {
            Ok(n) => {
                self.control_dim = n;
                Ok(Some(Driver { next, failures: 0 }))
            },
            Err(e) => Err(e),
        }
    }

    /// Take one step towards `goal`, and decide how to go on.
    pub fn advance<M, A: Arithmetic, E: SecondOrderOde<M>>(
        &mut self,
        driver: &mut Driver,
        ops: &A,
        ode: &E,
        goal: Time,
        note: M,
    ) -> (r: (Progress, M))
        requires
            ops.lawful(),
            ode.lawful(),
            old(self).well_formed(),
            old(driver).well_formed(),
        ensures
            final(self).well_formed(),
            final(driver).well_formed(),
            ({
                let h = old(driver).aimed(ops, Time { jd: old(self).time.value }, goal);
                let (outcome, next, last) = old(self).model().stepped(ops, ode::rule(ode), h, note);
                &&& final(self).model() == next
                &&& r.1 == last
                &&& (r.0, *final(driver)) == old(driver).judged(
                    ops,
                    h,
                    outcome,
                    Time { jd: next.time.value },
                    goal,
                    F64 { bits: MIN_STEP },
                )
            }),
    {
        let h = driver.aim(ops, Time::new(self.time.value), goal);
        let (outcome, note) = self.step(ops, ode, h, note);
        let p = driver.judge(
            ops,
            h,
            outcome,
            Time::new(self.time.value),
            goal,
            F64 { bits: MIN_STEP },
        );
        (p, note)
    }
}

/// Are there `j` vectors of the length `n`.
pub open spec fn table_fits(table: Seq<Vec<F64>>, j: nat, n: nat) -> bool {
    &&& table.len() == j
    &&& forall|k: int| 0 <= k < j ==> (#[trigger] table[k])@.len() == n
}

/// Row `j` of the extrapolation.
fn extrapolate<A: Arithmetic>(ops: &A, before: &Vec<Vec<F64>>, midpoint: Vec<F64>, j: usize) -> (r:
    Vec<Vec<F64>>)
    requires
        ops.lawful(),
        j < K_MAX,
        table_fits(before@, j as nat, midpoint@.len()),
    ensures
        numbers::rows(r@) == row(ops, numbers::rows(before@), midpoint@, j as nat),
        table_fits(r@, (j + 1) as nat, midpoint@.len()),
{
    let ghost first = midpoint@;
    let ghost above = numbers::rows(before@);
    let mut r: Vec<Vec<F64>> = Vec::new();
    r.push(midpoint);
    let mut k: usize = 1;
    while k <= j
        invariant
            ops.lawful(),
            j < K_MAX,
            1 <= k <= j + 1,
            above == numbers::rows(before@),
            table_fits(before@, j as nat, first.len()),
            table_fits(r@, k as nat, first.len()),
            forall|i: int|
                0 <= i < k ==> (#[trigger] r@[i])@ == entry(ops, above, first, j as int, i as nat),
        decreases j + 1 - k,
    {
        let ratio = arithmetic::over(
            ops,
            ops.integer(substeps(j) as u64),
            ops.integer(substeps(j - k) as u64),
        );
        let square = arithmetic::times(ops, ratio, ratio);
        let denom = arithmetic::minus(ops, square, F64 { bits: ONE });
        assert(above[k - 1] == before@[k - 1]@);
        assert(r@[k - 1]@ == entry(ops, above, first, j as int, (k - 1) as nat));
        let delta = numbers::subtract(ops, &r[k - 1], &before[k - 1]);
        let step = numbers::divide(ops, &delta, denom);
        let next = numbers::add(ops, &r[k - 1], &step);
        assert(next@ == entry(ops, above, first, j as int, k as nat));
        r.push(next);
        k = k + 1;
    }
    assert(numbers::rows(r@) =~= row(ops, above, first, j as nat));
    r
}

fn propose<A: Arithmetic>(ops: &A, step: F64, error: F64, j: usize) -> (next: F64)
    requires
        ops.lawful(),
        j < K_MAX,
    ensures
        next == Model::proposed(ops, step, error, j as nat),
{
    let one = F64 { bits: ONE };
    let order = ops.integer((2 * (j + 1)) as u64);
    let exponent = arithmetic::over(ops, one, arithmetic::plus(ops, order, one));
    let growth = ops.binary(Binary::Power, arithmetic::over(ops, one, error), exponent);
    let next = arithmetic::times(
        ops,
        arithmetic::times(ops, step, growth),
        F64 { bits: SAFETY },
    );
    let ratio = F64 { bits: MIN_RATIO };
    let low = arithmetic::times(ops, step.abs(), ratio);
    let high = arithmetic::times(ops, step.abs(), arithmetic::over(ops, one, ratio));
    numbers::copysign(numbers::clamp(next.abs(), low, high), step)
}

// ---------------------------------------------------------------------------
// Whole integrations
// ---------------------------------------------------------------------------

impl Model {
    /// Where at most `max_steps` steps lead, and the note of the last evaluation. `None` stands
    /// for an integration which is not at its goal by then.
    pub open spec fn run<M, A: Arithmetic>(
        self,
        ops: &A,
        rule: Rule<M>,
        driver: Driver,
        goal: Time,
        note: M,
        max_steps: nat,
    ) -> (KeteResult<Option<Model>>, M)
        decreases max_steps,
    {
        if max_steps == 0 {
            (Ok(None), note)
        } else {
            let h = driver.aimed(ops, Time { jd: self.time.value }, goal);
            let (outcome, next, last) = self.stepped(ops, rule, h, note);
            let (progress, plan) = driver.judged(
                ops,
                h,
                outcome,
                Time { jd: next.time.value },
                goal,
                F64 { bits: MIN_STEP },
            );
            match progress {
                Progress::Done => (Ok(Some(next)), last),
                Progress::Failed(e) => (Err(e), last),
                Progress::Continue => next.run(ops, rule, plan, goal, last, (max_steps - 1) as nat),
            }
        }
    }
}

/// The position and the velocity at `goal` of what is at `pos` with `vel` at `start`, and the
/// note of the last evaluation. `None` stands for an integration which is not at its goal
/// after `max_steps` steps.
pub open spec fn integrated<M, A: Arithmetic>(
    ops: &A,
    rule: Rule<M>,
    pos: Seq<F64>,
    vel: Seq<F64>,
    start: Time,
    goal: Time,
    note: M,
    control_dim: Option<usize>,
    max_steps: nat,
) -> (KeteResult<Option<(Seq<F64>, Seq<F64>)>>, M) {
    let control: usize = match control_dim {
        Some(n) => n,
        None => pos.len() as usize,
    };
    let (f, first) = rule(start, pos, vel, note, true);
    if pos.len() != vel.len() {
        (Err(Error::ValueError(ValueFault::LengthMismatch)), note)
    } else if let Err(e) = f {
        (Err(e), first)
    } else if control::nothing_to_do(ops, start, goal) {
        (Ok(Some((pos, vel))), first)
    } else if control > pos.len() {
        (
            Err(
                Error::ValueError(ValueFault::ControlDim { control, dim: pos.len() as usize }),
            ),
            first,
        )
    } else {
        let planned = Model {
            time: Kahan { value: start.jd, excess: F64 { bits: 0 } },
            pos: numbers::at_rest(pos),
            vel: numbers::at_rest(vel),
            acc: f->Ok_0,
            control_dim: control as int,
        };
        let driver = Driver {
            next: numbers::signed_like(
                F64 { bits: INIT_STEP },
                arithmetic::difference(ops, goal.jd, start.jd),
            ),
            failures: 0,
        };
        let (end, last) = planned.run(ops, rule, driver, goal, first, max_steps);
        match end {
            Err(e) => (Err(e), last),
            Ok(None) => (Ok(None), last),
            Ok(Some(m)) => (Ok(Some((m.position(), m.velocity()))), last),
        }
    }
}

impl BulirschStoerIntegrator {
    /// Take at most `max_steps` steps towards `goal`.
    fn go<M, A: Arithmetic, E: SecondOrderOde<M>>(
        self,
        ops: &A,
        ode: &E,
        driver: Driver,
        goal: Time,
        note: M,
        max_steps: u64,
    ) -> (r: (KeteResult<Option<Arrival>>, M))
        requires
            ops.lawful(),
            ode.lawful(),
            self.well_formed(),
            driver.well_formed(),
        ensures
            ({
                let (end, last) = self.model().run(
                    ops,
                    ode::rule(ode),
                    driver,
                    goal,
                    note,
                    max_steps as nat,
                );
                &&& r.1 == last
                &&& control::arrived(r.0) == (match end {
                    Err(e) => Err(e),
                    Ok(None) => Ok(None),
                    Ok(Some(m)) => Ok(Some((m.position(), m.velocity()))),
                })
            }),
    {
        let mut now = self;
        let mut plan = driver;
        let mut last = note;
        let mut left: u64 = max_steps;
        let ghost whole = self.model().run(ops, ode::rule(ode), driver, goal, note,
            max_steps as nat);
        while left > 0
            invariant
                ops.lawful(),
                ode.lawful(),
                now.well_formed(),
                plan.well_formed(),
                whole == now.model().run(ops, ode::rule(ode), plan, goal, last, left as nat),
                whole == self.model().run(ops, ode::rule(ode), driver, goal, note,
                    max_steps as nat),
            decreases left,
        {
            left = left - 1;
            let (progress, noted) = now.advance(&mut plan, ops, ode, goal, last);
            last = noted;
            match progress {
                Progress::Done => {
                    let arrival = Arrival {
                        pos: numbers::current(&now.pos),
                        vel: numbers::current(&now.vel),
                    };
                    return (Ok(Some(arrival)), last);
                },
                Progress::Failed(e) => {
                    return (Err(e), last);
                },
                Progress::Continue => {},
            }
        }
        (Ok(None), last)
    }

    /// Integrate from `start` to `goal`, with at most `max_steps` steps. `control_dim` tells
    /// how many leading components decide about convergence.
    pub fn integrate<M, A: Arithmetic, E: SecondOrderOde<M>>(
        ops: &A,
        ode: &E,
        pos: &Vec<F64>,
        vel: &Vec<F64>,
        start: Time,
        goal: Time,
        note: M,
        control_dim: Option<usize>,
        max_steps: u64,
    ) -> (r: (KeteResult<Option<Arrival>>, M))
        requires
            ops.lawful(),
            ode.lawful(),
        ensures
            (control::arrived(r.0), r.1) == integrated(
                ops,
                ode::rule(ode),
                pos@,
                vel@,
                start,
                goal,
                note,
                control_dim,
                max_steps as nat,
            ),
    {
        let (made, first) = Self::new(ode, pos, vel, start, note);
        match made {
            Err(e) => (Err(e), first),
            Ok(integrator) => {
                let mut integrator = integrator;
                assert(numbers::values(numbers::at_rest(pos@)) =~= pos@);
                assert(numbers::values(numbers::at_rest(vel@)) =~= vel@);
                match integrator.plan(ops, goal, control_dim) {
                    Err(e) => (Err(e), first),
                    Ok(None) => {
                        let arrival = Arrival {
                            pos: numbers::current(&integrator.pos),
                            vel: numbers::current(&integrator.vel),
                        };
                        (Ok(Some(arrival)), first)
                    },
                    Ok(Some(driver)) => integrator.go(
                        ops,
                        ode,
                        driver,
                        goal,
                        first,
                        max_steps,
                    ),
                }
            },
        }
    }
}

/// More steps change nothing once an integration is at its goal or has failed.
pub proof fn law_budget<M, A: Arithmetic>(
    m: Model,
    ops: &A,
    rule: Rule<M>,
    driver: Driver,
    goal: Time,
    note: M,
    max_steps: nat,
    more: nat,
)
    requires
        m.run(ops, rule, driver, goal, note, max_steps).0 != Ok::<Option<Model>, Error>(None),
    ensures
        m.run(ops, rule, driver, goal, note, max_steps + more) == m.run(
            ops,
            rule,
            driver,
            goal,
            note,
            max_steps,
        ),
    decreases max_steps,
{
    if max_steps > 0 {
        let h = driver.aimed(ops, Time { jd: m.time.value }, goal);
        let (outcome, next, last) = m.stepped(ops, rule, h, note);
        let (progress, plan) = driver.judged(
            ops,
            h,
            outcome,
            Time { jd: next.time.value },
            goal,
            F64 { bits: MIN_STEP },
        );
        if progress is Continue {
            law_budget(next, ops, rule, plan, goal, last, (max_steps - 1) as nat, more);
            assert((max_steps + more - 1) as nat == (max_steps - 1) as nat + more);
        }
    }
}

/// An integration which succeeds is at its goal.
pub proof fn law_arrives<M, A: Arithmetic>(
    m: Model,
    ops: &A,
    rule: Rule<M>,
    driver: Driver,
    goal: Time,
    note: M,
    max_steps: nat,
)
    ensures
        m.run(ops, rule, driver, goal, note, max_steps).0 matches Ok(Some(end))
            ==> control::at_goal(
            ops,
            Time { jd: end.time.value },
            goal,
        ),
    decreases max_steps,
{
    if max_steps > 0 {
        let h = driver.aimed(ops, Time { jd: m.time.value }, goal);
        let (outcome, next, last) = m.stepped(ops, rule, h, note);
        let (progress, plan) = driver.judged(
            ops,
            h,
            outcome,
            Time { jd: next.time.value },
            goal,
            F64 { bits: MIN_STEP },
        );
        if progress is Continue {
            law_arrives(next, ops, rule, plan, goal, last, (max_steps - 1) as nat);
        }
    }
}

/// Where the goal is at hand, the state is given back as it is.
pub proof fn law_nothing_to_do<M, A: Arithmetic>(
    ops: &A,
    rule: Rule<M>,
    pos: Seq<F64>,
    vel: Seq<F64>,
    start: Time,
    goal: Time,
    note: M,
    control_dim: Option<usize>,
    max_steps: nat,
)
    requires
        pos.len() == vel.len(),
        rule(start, pos, vel, note, true).0 is Ok,
        control::nothing_to_do(ops, start, goal),
    ensures
        integrated(ops, rule, pos, vel, start, goal, note, control_dim, max_steps).0 == Ok::<
            Option<(Seq<F64>, Seq<F64>)>,
            Error,
        >(Some((pos, vel))),
{
}

/// Whoever allows more steps gets the same result, where there is one.
pub proof fn law_more_steps<M, A: Arithmetic>(
    ops: &A,
    rule: Rule<M>,
    pos: Seq<F64>,
    vel: Seq<F64>,
    start: Time,
    goal: Time,
    note: M,
    control_dim: Option<usize>,
    max_steps: nat,
    more: nat,
)
    requires
        integrated(ops, rule, pos, vel, start, goal, note, control_dim, max_steps).0 != Ok::<
            Option<(Seq<F64>, Seq<F64>)>,
            Error,
        >(None),
    ensures
        integrated(ops, rule, pos, vel, start, goal, note, control_dim, max_steps + more)
            == integrated(ops, rule, pos, vel, start, goal, note, control_dim, max_steps),
{
    let control: usize = match control_dim {
        Some(n) => n,
        None => pos.len() as usize,
    };
    let (f, first) = rule(start, pos, vel, note, true);
    if pos.len() == vel.len() && f is Ok && !control::nothing_to_do(ops, start, goal) && control
        <= pos.len() {
        let planned = Model {
            time: Kahan { value: start.jd, excess: F64 { bits: 0 } },
            pos: numbers::at_rest(pos),
            vel: numbers::at_rest(vel),
            acc: f->Ok_0,
            control_dim: control as int,
        };
        let driver = Driver {
            next: numbers::signed_like(
                F64 { bits: INIT_STEP },
                arithmetic::difference(ops, goal.jd, start.jd),
            ),
            failures: 0,
        };
        law_budget(planned, ops, rule, driver, goal, first, max_steps, more);
    }
}

} // verus!
