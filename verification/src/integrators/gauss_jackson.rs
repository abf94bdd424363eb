//! The Gauss-Jackson method of order eight: a predictor and corrector with a fixed step.
//!
//! The position is advanced by its second differences and the velocity by its first
//! differences, both from the last eight accelerations. One evaluation of the
//! acceleration per step is the rule, and three at most follow.
use crate::arithmetic;
use crate::arithmetic::{Arithmetic, Kahan};
use crate::errors::{Error, KeteResult, ValueFault};
use crate::float::F64;
use crate::integrators::control;
use crate::integrators::control::Arrival;
use crate::integrators::ode;
use crate::integrators::ode::{Rule, SecondOrderOde};
use crate::integrators::radau;
use crate::integrators::radau::RadauIntegrator;
use crate::numbers;
use crate::time::Time;
use vstd::prelude::*;

verus! {

/// How many accelerations are kept.
pub const ORDER: usize = 8;

/// How often the corrector is applied at most.
pub const MAX_CORRECTOR_ITER: usize = 3;

/// Bits of the number 2.
pub const TWO: u64 = 0x4000_0000_0000_0000;

/// Bits of 1e-15, the relative change below which the corrector has converged.
pub const CORRECTOR_TOL: u64 = 0x3cd2_03af_9ee7_5616;

/// Bits of 1e-30, which keeps a scale away from zero.
pub const SCALE_FLOOR: u64 = 0x39b4_484b_feeb_c2a0;

/// Bits of 1e-10: an interval shorter than this many days is no interval.
pub const NO_INTERVAL: u64 = 0x3ddb_7cdf_d9d7_bdbb;

/// Bits of 1e-12: closer to the goal than this many days is at the goal.
pub const AT_GOAL: u64 = 0x3d71_9799_812d_ea11;

/// Bits of one day, the step where none is asked for.
pub const DEFAULT_STEP: u64 = 0x3ff0_0000_0000_0000;

/// Weights of the accelerations in the predicted second difference of the position.
pub open spec fn stormer() -> Seq<F64> {
    seq![
        F64 { bits: 0x3ff7_5dbb_3108_65dc },
        F64 { bits: 0xc000_1c57_c57c_57c5 },
        F64 { bits: 0x4010_3e45_e45e_45e4 },
        F64 { bits: 0xc013_db35_5e00_8ab3 },
        F64 { bits: 0x400f_4ac4_ac4a_c4ac },
        F64 { bits: 0xbffe_f743_7437_4374 },
        F64 { bits: 0x3fe1_8f93_a3e4_e8f9 },
        F64 { bits: 0xbfb1_75d7_5d75_d75d },
    ]
}

/// Weights of the accelerations in the predicted second difference of the position.
fn stormer_table() -> (c: [F64; 8])
    ensures
        c@ == stormer(),
{
    let c = [
        F64 { bits: 0x3ff7_5dbb_3108_65dc },
        F64 { bits: 0xc000_1c57_c57c_57c5 },
        F64 { bits: 0x4010_3e45_e45e_45e4 },
        F64 { bits: 0xc013_db35_5e00_8ab3 },
        F64 { bits: 0x400f_4ac4_ac4a_c4ac },
        F64 { bits: 0xbffe_f743_7437_4374 },
        F64 { bits: 0x3fe1_8f93_a3e4_e8f9 },
        F64 { bits: 0xbfb1_75d7_5d75_d75d },
    ];
    assert(c@ =~= stormer());
    c
}

/// Weights of the accelerations in the corrected second difference of the position.
pub open spec fn cowell() -> Seq<F64> {
    seq![
        F64 { bits: 0x3fb1_75d7_5d75_d75d },
        F64 { bits: 0x3fed_459f_049a_f45a },
        F64 { bits: 0xbfba_a76a_76a7_6a77 },
        F64 { bits: 0x3fce_e52e_52e5_2e53 },
        F64 { bits: 0xbfc8_4a39_f8f4_e4a4 },
        F64 { bits: 0x3fb7_9179_1791_7918 },
        F64 { bits: 0xbf9a_42a4_2a42_a42a },
        F64 { bits: 0x3f69_bc46_6f11_9bc4 },
    ]
}

/// Weights of the accelerations in the corrected second difference of the position.
fn cowell_table() -> (c: [F64; 8])
    ensures
        c@ == cowell(),
{
    let c = [
        F64 { bits: 0x3fb1_75d7_5d75_d75d },
        F64 { bits: 0x3fed_459f_049a_f45a },
        F64 { bits: 0xbfba_a76a_76a7_6a77 },
        F64 { bits: 0x3fce_e52e_52e5_2e53 },
        F64 { bits: 0xbfc8_4a39_f8f4_e4a4 },
        F64 { bits: 0x3fb7_9179_1791_7918 },
        F64 { bits: 0xbf9a_42a4_2a42_a42a },
        F64 { bits: 0x3f69_bc46_6f11_9bc4 },
    ];
    assert(c@ =~= cowell());
    c
}

/// Weights of the accelerations in the predicted first difference of the velocity.
pub open spec fn bashforth() -> Seq<F64> {
    seq![
        F64 { bits: 0x400c_b83a_83a8_3a84 },
        F64 { bits: 0xc023_0ce7_e3d3_928e },
        F64 { bits: 0x4032_0df6_3f63_f63f },
        F64 { bits: 0xc036_071a_d1ad_1ad2 },
        F64 { bits: 0x4031_6131_0865_dbb3 },
        F64 { bits: 0xc021_3968_d68d_68d7 },
        F64 { bits: 0x4003_8fb1_fb1f_b1fb },
        F64 { bits: 0xbfd3_786a_314d_bf87 },
    ]
}

/// Weights of the accelerations in the predicted first difference of the velocity.
fn bashforth_table() -> (c: [F64; 8])
    ensures
        c@ == bashforth(),
{
    let c = [
        F64 { bits: 0x400c_b83a_83a8_3a84 },
        F64 { bits: 0xc023_0ce7_e3d3_928e },
        F64 { bits: 0x4032_0df6_3f63_f63f },
        F64 { bits: 0xc036_071a_d1ad_1ad2 },
        F64 { bits: 0x4031_6131_0865_dbb3 },
        F64 { bits: 0xc021_3968_d68d_68d7 },
        F64 { bits: 0x4003_8fb1_fb1f_b1fb },
        F64 { bits: 0xbfd3_786a_314d_bf87 },
    ];
    assert(c@ =~= bashforth());
    c
}

/// Weights of the accelerations in the corrected first difference of the velocity.
pub open spec fn moulton() -> Seq<F64> {
    seq![
        F64 { bits: 0x3fd3_786a_314d_bf87 },
        F64 { bits: 0x3ff2_7fa0_a4b4_f5fa },
        F64 { bits: 0xbff0_1c57_c57c_57c5 },
        F64 { bits: 0x3ff0_4995_43fe_ea99 },
        F64 { bits: 0xbfe7_6cd5_7802_2acd },
        F64 { bits: 0x3fd5_f507_5075_0750 },
        F64 { bits: 0xbfb8_05f5_b4b0_a05f },
        F64 { bits: 0x3f87_47c9_d1f2_747d },
    ]
}

/// Weights of the accelerations in the corrected first difference of the velocity.
fn moulton_table() -> (c: [F64; 8])
    ensures
        c@ == moulton(),
{
    let c = [
        F64 { bits: 0x3fd3_786a_314d_bf87 },
        F64 { bits: 0x3ff2_7fa0_a4b4_f5fa },
        F64 { bits: 0xbff0_1c57_c57c_57c5 },
        F64 { bits: 0x3ff0_4995_43fe_ea99 },
        F64 { bits: 0xbfe7_6cd5_7802_2acd },
        F64 { bits: 0x3fd5_f507_5075_0750 },
        F64 { bits: 0xbfb8_05f5_b4b0_a05f },
        F64 { bits: 0x3f87_47c9_d1f2_747d },
    ];
    assert(c@ =~= moulton());
    c
}

/// Component `i` of `start` plus the first `n` accelerations of `hist`, each times its
/// weight. The weight of the first is `weights[first]`.
pub open spec fn weighted<A: Arithmetic>(
    ops: &A,
    start: F64,
    hist: Seq<Seq<F64>>,
    weights: Seq<F64>,
    first: int,
    n: nat,
    i: int,
) -> F64
    decreases n,
{
    if n == 0 {
        start
    } else {
        arithmetic::sum(
            ops,
            weighted(ops, start, hist, weights, first, (n - 1) as nat, i),
            arithmetic::product(ops, hist[n - 1][i], weights[first + n - 1]),
        )
    }
}

/// The state of the integration as numbers.
pub struct Model {
    pub time: Kahan,
    pub pos: Seq<Kahan>,
    pub vel: Seq<Kahan>,
    pub prev_pos: Seq<F64>,
    pub hist: Seq<Seq<F64>>,
    pub control_dim: int,
}

/// The state of an integration with a fixed step.
pub struct GaussJacksonIntegrator {
    /// The time which has been reached.
    pub time: Kahan,
    /// The position at that time.
    pub pos: Vec<Kahan>,
    /// The velocity at that time.
    pub vel: Vec<Kahan>,
    /// The position one step before.
    pub prev_pos: Vec<F64>,
    /// The accelerations at the last eight times, the latest first.
    pub accel_hist: Vec<Vec<F64>>,
    /// How many leading components decide about convergence.
    pub control_dim: usize,
}

impl Model {
    /// Do the vectors have one length, and are there eight accelerations.
    pub open spec fn well_formed(self) -> bool {
        &&& self.vel.len() == self.pos.len()
        &&& self.prev_pos.len() == self.pos.len()
        &&& self.hist.len() == ORDER
        &&& forall|j: int| 0 <= j < ORDER ==> (#[trigger] self.hist[j]).len() == self.pos.len()
    }

    /// The position which the second difference `second` leads to: twice the present one
    /// less the one before plus the second difference times the square of the step.
    pub open spec fn leap<A: Arithmetic>(self, ops: &A, i: int, second: F64, h: F64) -> F64 {
        arithmetic::sum(
            ops,
            arithmetic::difference(
                ops,
                arithmetic::product(ops, self.pos[i].value, F64 { bits: TWO }),
                self.prev_pos[i],
            ),
            arithmetic::product(ops, second, arithmetic::product(ops, h, h)),
        )
    }

    /// The velocity which the first difference `first` leads to.
    pub open spec fn push<A: Arithmetic>(self, ops: &A, i: int, first: F64, h: F64) -> F64 {
        arithmetic::sum(ops, self.vel[i].value, arithmetic::product(ops, first, h))
    }

    /// The predicted position.
    pub open spec fn predicted_pos<A: Arithmetic>(self, ops: &A, h: F64) -> Seq<F64> {
        Seq::new(
            self.pos.len(),
            |i: int|
                self.leap(
                    ops,
                    i,
                    weighted(ops, F64 { bits: 0 }, self.hist, stormer(), 0, ORDER as nat, i),
                    h,
                ),
        )
    }

    /// The predicted velocity.
    pub open spec fn predicted_vel<A: Arithmetic>(self, ops: &A, h: F64) -> Seq<F64> {
        Seq::new(
            self.pos.len(),
            |i: int|
                self.push(
                    ops,
                    i,
                    weighted(ops, F64 { bits: 0 }, self.hist, bashforth(), 0, ORDER as nat, i),
                    h,
                ),
        )
    }

    /// The position corrected by the acceleration `f` at the next time.
    pub open spec fn corrected_pos<A: Arithmetic>(self, ops: &A, f: Seq<F64>, h: F64) -> Seq<F64> {
        Seq::new(
            self.pos.len(),
            |i: int|
                self.leap(
                    ops,
                    i,
                    weighted(
                        ops,
                        arithmetic::product(ops, f[i], cowell()[0]),
                        self.hist,
                        cowell(),
                        1,
                        (ORDER - 1) as nat,
                        i,
                    ),
                    h,
                ),
        )
    }

    /// The velocity corrected by the acceleration `f` at the next time.
    pub open spec fn corrected_vel<A: Arithmetic>(self, ops: &A, f: Seq<F64>, h: F64) -> Seq<F64> {
        Seq::new(
            self.pos.len(),
            |i: int|
                self.push(
                    ops,
                    i,
                    weighted(
                        ops,
                        arithmetic::product(ops, f[i], moulton()[0]),
                        self.hist,
                        moulton(),
                        1,
                        (ORDER - 1) as nat,
                        i,
                    ),
                    h,
                ),
        )
    }

    /// Is component `i` still changing: relative to the larger of the new and the present
    /// position, the change from `before` to `after` is above the tolerance.
    pub open spec fn still_changes<A: Arithmetic>(
        self,
        ops: &A,
        before: Seq<F64>,
        after: Seq<F64>,
        i: int,
    ) -> bool {
        let scale = arithmetic::sum(
            ops,
            numbers::larger(after[i].abs_value(), self.pos[i].value.abs_value()),
            F64 { bits: SCALE_FLOOR },
        );
        F64 { bits: CORRECTOR_TOL }.spec_lt(
            arithmetic::quotient(
                ops,
                arithmetic::difference(ops, after[i], before[i]),
                scale,
            ).abs_value(),
        )
    }

    /// Has the corrector converged.
    pub open spec fn converged<A: Arithmetic>(
        self,
        ops: &A,
        before: Seq<F64>,
        after: Seq<F64>,
    ) -> bool {
        forall|i: int|
            0 <= i < self.control_dim && i < self.pos.len() ==> !#[trigger] self.still_changes(
                ops,
                before,
                after,
                i,
            )
    }

    /// The time of the next step.
    pub open spec fn next_time<A: Arithmetic>(self, ops: &A, h: F64) -> Time {
        Time { jd: arithmetic::sum(ops, self.time.value, h) }
    }

    /// What the corrector makes of a position and the acceleration `f` there, when it may
    /// still be applied `left` times: a position, a velocity and the acceleration which is
    /// kept for the next steps. The note of the last evaluation comes along.
    pub open spec fn corrections<M, A: Arithmetic>(
        self,
        ops: &A,
        rule: Rule<M>,
        h: F64,
        pos: Seq<F64>,
        vel: Seq<F64>,
        f: Seq<F64>,
        note: M,
        left: nat,
    ) -> (KeteResult<(Seq<F64>, Seq<F64>, Seq<F64>)>, M)
        decreases left,
    {
        if left == 0 {
            (Ok((pos, vel, f)), note)
        } else {
            let p = self.corrected_pos(ops, f, h);
            let v = self.corrected_vel(ops, f, h);
            if self.converged(ops, pos, p) {
                (Ok((p, v, f)), note)
            } else {
                let (g, note) = rule(self.next_time(ops, h), p, v, note, true);
                match g {
                    Ok(g) => self.corrections(ops, rule, h, p, v, g, note, (left - 1) as nat),
                    Err(e) => (Err(e), note),
                }
            }
        }
    }

    /// The state after the position `p`, the velocity `v` and the acceleration `f` of the
    /// next time have been accepted.
    pub open spec fn accepted<A: Arithmetic>(
        self,
        ops: &A,
        h: F64,
        p: Seq<F64>,
        v: Seq<F64>,
        f: Seq<F64>,
    ) -> Model {
        Model {
            time: self.time.moved(ops, h),
            pos: arithmetic::all_moved(ops, self.pos, numbers::differences(ops, p,
                numbers::values(self.pos))),
            vel: arithmetic::all_moved(ops, self.vel, numbers::differences(ops, v,
                numbers::values(self.vel))),
            prev_pos: numbers::values(self.pos),
            hist: seq![f] + self.hist.drop_last(),
            control_dim: self.control_dim,
        }
    }

    /// The outcome of one step: predict, evaluate, correct, and accept. Where an evaluation
    /// fails the state stays as it is. The note of the last evaluation comes along.
    pub open spec fn stepped<M, A: Arithmetic>(
        self,
        ops: &A,
        rule: Rule<M>,
        h: F64,
        note: M,
    ) -> (KeteResult<()>, Model, M) {
        let p = self.predicted_pos(ops, h);
        let v = self.predicted_vel(ops, h);
        let (f, note) = rule(self.next_time(ops, h), p, v, note, true);
        match f {
            Err(e) => (Err(e), self, note),
            Ok(f) => {
                let (result, note) = self.corrections(
                    ops,
                    rule,
                    h,
                    p,
                    v,
                    f,
                    note,
                    MAX_CORRECTOR_ITER as nat,
                );
                match result {
                    Err(e) => (Err(e), self, note),
                    Ok((p, v, f)) => (Ok(()), self.accepted(ops, h, p, v, f), note),
                }
            },
        }
    }
}

fn weighted_sum<A: Arithmetic>(
    ops: &A,
    start: F64,
    hist: &Vec<Vec<F64>>,
    weights: &[F64; 8],
    first: usize,
    n: usize,
    i: usize,
) -> (r: F64)
    requires
        ops.lawful(),
        n <= hist@.len(),
        first + n <= 8,
        forall|j: int| 0 <= j < hist@.len() ==> i < (#[trigger] hist@[j])@.len(),
    ensures
        r == weighted(ops, start, numbers::rows(hist@), weights@, first as int, n as nat, i as int),
{
    let mut acc = start;
    let mut j: usize = 0;
    while j < n
        invariant
            ops.lawful(),
            j <= n <= hist@.len(),
            first + n <= 8,
            forall|k: int| 0 <= k < hist@.len() ==> i < (#[trigger] hist@[k])@.len(),
            acc == weighted(
                ops,
                start,
                numbers::rows(hist@),
                weights@,
                first as int,
                j as nat,
                i as int,
            ),
        decreases n - j,
    {
        assert(numbers::rows(hist@)[j as int] == hist@[j as int]@);
        acc = arithmetic::plus(ops, acc, arithmetic::times(ops, hist[j][i], weights[first + j]));
        j = j + 1;
    }
    acc
}

impl GaussJacksonIntegrator {
    /// The state as numbers.
    pub open spec fn model(&self) -> Model {
        Model {
            time: self.time,
            pos: self.pos@,
            vel: self.vel@,
            prev_pos: self.prev_pos@,
            hist: numbers::rows(self.accel_hist@),
            control_dim: self.control_dim as int,
        }
    }

    /// Do the parts of the state belong together.
    pub open spec fn well_formed(&self) -> bool {
        self.model().well_formed()
    }

    /// Start at the position `pos` and the velocity `vel`. `accel_hist` holds the
    /// accelerations at the start and at the seven times before, and `prev_pos` the
    /// position one step before.
    pub fn start(
        pos: &Vec<F64>,
        vel: &Vec<F64>,
        time: Time,
        prev_pos: Vec<F64>,
        accel_hist: Vec<Vec<F64>>,
        control_dim: Option<usize>,
    ) -> (s: Self)
        requires
            vel@.len() == pos@.len(),
            prev_pos@.len() == pos@.len(),
            accel_hist@.len() == ORDER,
            forall|j: int| 0 <= j < ORDER ==> (#[trigger] accel_hist@[j])@.len() == pos@.len(),
        ensures
            s.well_formed(),
            s.model() == (Model {
                time: Kahan { value: time.jd, excess: F64 { bits: 0 } },
                pos: numbers::at_rest(pos@),
                vel: numbers::at_rest(vel@),
                prev_pos: prev_pos@,
                hist: numbers::rows(accel_hist@),
                control_dim: match control_dim {
                    Some(n) => n as int,
                    None => pos@.len() as int,
                },
            }),
    {
        let s = GaussJacksonIntegrator {
            time: Kahan { value: time.jd, excess: F64::zero() },
            pos: numbers::without_error(pos),
            vel: numbers::without_error(vel),
            prev_pos,
            accel_hist,
            control_dim: match control_dim {
                Some(n) => n,
                None => pos.len(),
            },
        };
        assert(s.model().hist =~= numbers::rows(accel_hist@));
        s
    }

    fn leap<A: Arithmetic>(&self, ops: &A, i: usize, second: F64, h: F64) -> (r: F64)
        requires
            ops.lawful(),
            self.well_formed(),
            i < self.pos@.len(),
        ensures
            r == self.model().leap(ops, i as int, second, h),
    {
        let doubled = arithmetic::times(ops, self.pos[i].value, F64 { bits: TWO });
        let inertia = arithmetic::minus(ops, doubled, self.prev_pos[i]);
        let h2 = arithmetic::times(ops, h, h);
        arithmetic::plus(ops, inertia, arithmetic::times(ops, second, h2))
    }

    fn push<A: Arithmetic>(&self, ops: &A, i: usize, first: F64, h: F64) -> (r: F64)
        requires
            ops.lawful(),
            self.well_formed(),
            i < self.pos@.len(),
        ensures
            r == self.model().push(ops, i as int, first, h),
    {
        arithmetic::plus(ops, self.vel[i].value, arithmetic::times(ops, first, h))
    }

    /// Where the accelerations so far lead to.
    pub fn predict<A: Arithmetic>(&self, ops: &A, h: F64) -> (r: (Vec<F64>, Vec<F64>))
        requires
            ops.lawful(),
            self.well_formed(),
        ensures
            r.0@ == self.model().predicted_pos(ops, h),
            r.1@ == self.model().predicted_vel(ops, h),
    {
        let ghost m = self.model();
        let position_weights = stormer_table();
        let velocity_weights = bashforth_table();
        let mut p: Vec<F64> = Vec::new();
        let mut v: Vec<F64> = Vec::new();
        let mut i: usize = 0;
        while i < self.pos.len()
            invariant
                ops.lawful(),
                self.well_formed(),
                m == self.model(),
                position_weights@ == stormer(),
                velocity_weights@ == bashforth(),
                i <= self.pos@.len(),
                p@ == m.predicted_pos(ops, h).take(i as int),
                v@ == m.predicted_vel(ops, h).take(i as int),
            decreases self.pos.len() - i,
        {
            assert forall|j: int| 0 <= j < self.accel_hist@.len() implies i < (
            #[trigger] self.accel_hist@[j])@.len() by {
                assert(m.hist[j] == self.accel_hist@[j]@);
            }
            let second = weighted_sum(
                ops,
                F64::zero(),
                &self.accel_hist,
                &position_weights,
                0,
                ORDER,
                i,
            );
            let first = weighted_sum(
                ops,
                F64::zero(),
                &self.accel_hist,
                &velocity_weights,
                0,
                ORDER,
                i,
            );
            p.push(self.leap(ops, i, second, h));
            v.push(self.push(ops, i, first, h));
            i = i + 1;
            assert(p@ =~= m.predicted_pos(ops, h).take(i as int));
            assert(v@ =~= m.predicted_vel(ops, h).take(i as int));
        }
        assert(p@ =~= m.predicted_pos(ops, h));
        assert(v@ =~= m.predicted_vel(ops, h));
        (p, v)
    }

    /// Where the accelerations so far and the one at the next time lead to.
    pub fn correct<A: Arithmetic>(&self, ops: &A, f: &Vec<F64>, h: F64) -> (r: (Vec<F64>, Vec<F64>))
        requires
            ops.lawful(),
            self.well_formed(),
            f@.len() == self.pos@.len(),
        ensures
            r.0@ == self.model().corrected_pos(ops, f@, h),
            r.1@ == self.model().corrected_vel(ops, f@, h),
    {
        let ghost m = self.model();
        let position_weights = cowell_table();
        let velocity_weights = moulton_table();
        let mut p: Vec<F64> = Vec::new();
        let mut v: Vec<F64> = Vec::new();
        let mut i: usize = 0;
        while i < self.pos.len()
            invariant
                ops.lawful(),
                self.well_formed(),
                m == self.model(),
                f@.len() == self.pos@.len(),
                position_weights@ == cowell(),
                velocity_weights@ == moulton(),
                i <= self.pos@.len(),
                p@ == m.corrected_pos(ops, f@, h).take(i as int),
                v@ == m.corrected_vel(ops, f@, h).take(i as int),
            decreases self.pos.len() - i,
        {
            assert forall|j: int| 0 <= j < self.accel_hist@.len() implies i < (
            #[trigger] self.accel_hist@[j])@.len() by {
                assert(m.hist[j] == self.accel_hist@[j]@);
            }
            let second = weighted_sum(
                ops,
                arithmetic::times(ops, f[i], position_weights[0]),
                &self.accel_hist,
                &position_weights,
                1,
                ORDER - 1,
                i,
            );
            let first = weighted_sum(
                ops,
                arithmetic::times(ops, f[i], velocity_weights[0]),
                &self.accel_hist,
                &velocity_weights,
                1,
                ORDER - 1,
                i,
            );
            p.push(self.leap(ops, i, second, h));
            v.push(self.push(ops, i, first, h));
            i = i + 1;
            assert(p@ =~= m.corrected_pos(ops, f@, h).take(i as int));
            assert(v@ =~= m.corrected_vel(ops, f@, h).take(i as int));
        }
        assert(p@ =~= m.corrected_pos(ops, f@, h));
        assert(v@ =~= m.corrected_vel(ops, f@, h));
        (p, v)
    }

    /// Has the corrector converged when it moves the position from `before` to `after`.
    pub fn has_converged<A: Arithmetic>(&self, ops: &A, before: &Vec<F64>, after: &Vec<F64>) -> (r:
        bool)
        requires
            ops.lawful(),
            self.well_formed(),
            before@.len() == self.pos@.len(),
            after@.len() == self.pos@.len(),
        ensures
            r == self.model().converged(ops, before@, after@),
    {
        let ghost m = self.model();
        let mut i: usize = 0;
        while i < self.control_dim && i < self.pos.len()
            invariant
                ops.lawful(),
                self.well_formed(),
                m == self.model(),
                before@.len() == self.pos@.len(),
                after@.len() == self.pos@.len(),
                i <= self.pos@.len(),
                forall|j: int| 0 <= j < i ==> !#[trigger] m.still_changes(ops, before@, after@, j),
            decreases self.pos.len() - i,
        {
            let size = numbers::max(after[i].abs(), self.pos[i].value.abs());
            let scale = arithmetic::plus(ops, size, F64 { bits: SCALE_FLOOR });
            let change = arithmetic::minus(ops, after[i], before[i]);
            let ratio = arithmetic::over(ops, change, scale);
            if (F64 { bits: CORRECTOR_TOL }).less(ratio.abs()) {
                assert(m.still_changes(ops, before@, after@, i as int));
                return false;
            }
            i = i + 1;
        }
        true
    }

    /// Apply the corrector until it converges, `left` times at most, and evaluate the
    /// acceleration in between.
    fn correct_all<M, A: Arithmetic, E: SecondOrderOde<M>>(
        &self,
        ops: &A,
        ode: &E,
        h: F64,
        p: Vec<F64>,
        v: Vec<F64>,
        f: Vec<F64>,
        note: M,
        left: usize,
    ) -> (r: (KeteResult<(Vec<F64>, Vec<F64>, Vec<F64>)>, M))
        requires
            ops.lawful(),
            ode.lawful(),
            self.well_formed(),
            p@.len() == self.pos@.len(),
            v@.len() == self.pos@.len(),
            f@.len() == self.pos@.len(),
        ensures
            (triple(r.0), r.1) == self.model().corrections(
                ops,
                ode::rule(ode),
                h,
                p@,
                v@,
                f@,
                note,
                left as nat,
            ),
            r.0 matches Ok(t) ==> {
                &&& t.0@.len() == self.pos@.len()
                &&& t.1@.len() == self.pos@.len()
                &&& t.2@.len() == self.pos@.len()
            },
        decreases left,
    {
        if left == 0 {
            return (Ok((p, v, f)), note);
        }
        let (p_new, v_new) = self.correct(ops, &f, h);
        if self.has_converged(ops, &p, &p_new) {
            return (Ok((p_new, v_new, f)), note);
        }
        let t_next = Time::new(arithmetic::plus(ops, self.time.value, h));
        let (g, note) = ode.eval(t_next, &p_new, &v_new, note, true);
        match g {
            Ok(g) => self.correct_all(ops, ode, h, p_new, v_new, g, note, left - 1),
            Err(e) => (Err(e), note),
        }
    }

    /// Keep the position `p`, the velocity `v` and the acceleration `f` of the next time.
    fn accept<A: Arithmetic>(&mut self, ops: &A, h: F64, p: &Vec<F64>, v: &Vec<F64>, f: Vec<F64>)
        requires
            ops.lawful(),
            old(self).well_formed(),
            p@.len() == old(self).pos@.len(),
            v@.len() == old(self).pos@.len(),
            f@.len() == old(self).pos@.len(),
        ensures
            final(self).model() == old(self).model().accepted(ops, h, p@, v@, f@),
            final(self).well_formed(),
    {
        let ghost m = self.model();
        let prev = numbers::current(&self.pos);
        let pos_steps = numbers::subtract(ops, p, &prev);
        let vel_steps = numbers::subtract(ops, v, &numbers::current(&self.vel));
        arithmetic::kahan_add(ops, &mut self.pos, &pos_steps);
        arithmetic::kahan_add(ops, &mut self.vel, &vel_steps);
        self.prev_pos = prev;
        let _ = self.accel_hist.pop();
        self.accel_hist.insert(0, f);
        self.time = self.time.step(ops, h);
        proof {
            let goal = m.accepted(ops, h, p@, v@, f@);
            assert(self.model().hist =~= goal.hist);
            assert forall|j: int| 0 <= j < ORDER implies (#[trigger] goal.hist[j]).len()
                == goal.pos.len() by {
                if j > 0 {
                    assert(goal.hist[j] == m.hist[j - 1]);
                }
            }
        }
    }

    /// Take one step of the size `h`.
    pub fn step<M, A: Arithmetic, E: SecondOrderOde<M>>(
        &mut self,
        ops: &A,
        ode: &E,
        h: F64,
        note: M,
    ) -> (r: (KeteResult<()>, M))
        requires
            ops.lawful(),
            ode.lawful(),
            old(self).well_formed(),
        ensures
            (r.0, final(self).model(), r.1) == old(self).model().stepped(ops, ode::rule(ode), h,
                note),
            final(self).well_formed(),
    {
        let (p, v) = self.predict(ops, h);
        let t_next = Time::new(arithmetic::plus(ops, self.time.value, h));
        let (f, note) = ode.eval(t_next, &p, &v, note, true);
        match f {
            Err(e) => (Err(e), note),
            Ok(f) => {
                let (result, note) = self.correct_all(ops, ode, h, p, v, f, note,
                    MAX_CORRECTOR_ITER);
                match result {
                    Err(e) => (Err(e), note),
                    Ok((p, v, f)) => {
                        self.accept(ops, h, &p, &v, f);
                        (Ok(()), note)
                    },
                }
            },
        }
    }
}

/// The numbers in three vectors.
pub open spec fn triple(r: KeteResult<(Vec<F64>, Vec<F64>, Vec<F64>)>) -> KeteResult<
    (Seq<F64>, Seq<F64>, Seq<F64>),
> {
    match r {
        Ok((p, v, f)) => Ok((p@, v@, f@)),
        Err(e) => Err(e),
    }
}

/// What to do next.
#[derive(Debug, Clone, Copy, PartialEq, Eq, Structural)]
pub enum Move {
    /// The goal is reached.
    Done,
    /// Less than a step is left, which another method has to take.
    Partial,
    /// Take a step.
    Step,
}

/// What to do next with `remaining` days left and steps of `h` days.
pub open spec fn next_move(remaining: F64, h: F64) -> Move {
    if remaining.abs_value().spec_lt(F64 { bits: AT_GOAL }) {
        Move::Done
    } else if remaining.abs_value().spec_lt(h.abs_value()) {
        Move::Partial
    } else {
        Move::Step
    }
}

/// The step of an integration over `total` days, or `None` where there is nothing to
/// integrate: the size asked for, or one day, in the direction of the goal.
pub fn fixed_step(step_size: Option<F64>, total: F64) -> (h: Option<F64>)
    ensures
        h == (if total.abs_value().spec_lt(F64 { bits: NO_INTERVAL }) {
            None
        } else {
            Some(
                numbers::signed_like(
                    match step_size {
                        Some(size) => size,
                        None => F64 { bits: DEFAULT_STEP },
                    },
                    total,
                ),
            )
        }),
{
    if total.abs().less(F64 { bits: NO_INTERVAL }) {
        return None;
    }
    let size = match step_size {
        Some(size) => size,
        None => F64 { bits: DEFAULT_STEP },
    };
    Some(numbers::copysign(size, total))
}

/// What to do next with `remaining` days left and steps of `h` days.
pub fn decide(remaining: F64, h: F64) -> (m: Move)
    ensures
        m == next_move(remaining, h),
{
    if remaining.abs().less(F64 { bits: AT_GOAL }) {
        Move::Done
    } else if remaining.abs().less(h.abs()) {
        Move::Partial
    } else {
        Move::Step
    }
}

/// The time `i` steps before `t0`.
pub fn back_time<A: Arithmetic>(ops: &A, t0: Time, i: usize, h: F64) -> (t: Time)
    requires
        ops.lawful(),
    ensures
        t.jd == arithmetic::difference(
            ops,
            t0.jd,
            arithmetic::product(ops, ops.whole(i as u64), h),
        ),
{
    let steps = ops.integer(i as u64);
    Time::new(arithmetic::minus(ops, t0.jd, arithmetic::times(ops, steps, h)))
}

/// A step moves the acceleration history on by one: the newest comes first, every other
/// one moves back, and the oldest is forgotten. The position before the step is kept as
/// the previous one.
pub proof fn law_history_moves_on<A: Arithmetic>(
    m: Model,
    ops: &A,
    h: F64,
    p: Seq<F64>,
    v: Seq<F64>,
    f: Seq<F64>,
)
    requires
        m.well_formed(),
        p.len() == m.pos.len(),
        v.len() == m.pos.len(),
        f.len() == m.pos.len(),
    ensures
        m.accepted(ops, h, p, v, f).well_formed(),
        m.accepted(ops, h, p, v, f).hist[0] == f,
        forall|j: int| 0 < j < ORDER ==> #[trigger] m.accepted(ops, h, p, v, f).hist[j]
            == m.hist[j - 1],
        m.accepted(ops, h, p, v, f).prev_pos == numbers::values(m.pos),
{
    let next = m.accepted(ops, h, p, v, f);
    assert forall|j: int| 0 <= j < ORDER implies (#[trigger] next.hist[j]).len()
        == next.pos.len() by {
        if j > 0 {
            assert(next.hist[j] == m.hist[j - 1]);
        }
    }
}

// ---------------------------------------------------------------------------
// Whole integrations
// ---------------------------------------------------------------------------

/// What lies behind the start of an integration: the accelerations at the start and at times
/// before it, the positions there, and the state at the earliest of them.
pub struct Behind {
    pub hist: Seq<Seq<F64>>,
    pub places: Seq<Seq<F64>>,
    pub pos: Seq<F64>,
    pub vel: Seq<F64>,
    pub time: Time,
}

/// The time `i` steps before `t0`.
pub open spec fn time_before<A: Arithmetic>(ops: &A, t0: Time, i: int, h: F64) -> Time {
    Time {
        jd: arithmetic::difference(
            ops,
            t0.jd,
            arithmetic::product(ops, ops.whole(i as u64), h),
        ),
    }
}

/// What lies behind the start up to `n` steps before it. The states are found by integrating
/// from each to the one before.
pub open spec fn behind<M, A: Arithmetic>(
    ops: &A,
    rule: Rule<M>,
    pos: Seq<F64>,
    vel: Seq<F64>,
    t0: Time,
    h: F64,
    note: M,
    control_dim: Option<usize>,
    max_steps: nat,
    n: nat,
) -> (KeteResult<Option<Behind>>, M)
    decreases n,
{
    if n == 0 {
        let (f, last) = rule(t0, pos, vel, note, true);
        match f {
            Err(e) => (Err(e), last),
            Ok(f) => (
                Ok(Some(Behind { hist: seq![f], places: seq![pos], pos, vel, time: t0 })),
                last,
            ),
        }
    } else {
        let (so_far, note) = behind(
            ops,
            rule,
            pos,
            vel,
            t0,
            h,
            note,
            control_dim,
            max_steps,
            (n - 1) as nat,
        );
        match so_far {
            Err(e) => (Err(e), note),
            Ok(None) => (Ok(None), note),
            Ok(Some(b)) => {
                let target = time_before(ops, t0, n as int, h);
                let (end, note) = radau::integrated(
                    ops,
                    rule,
                    b.pos,
                    b.vel,
                    b.time,
                    target,
                    note,
                    control_dim,
                    max_steps,
                );
                match end {
                    Err(e) => (Err(e), note),
                    Ok(None) => (Ok(None), note),
                    Ok(Some((p, v))) => {
                        let (f, note) = rule(target, p, v, note, true);
                        match f {
                            Err(e) => (Err(e), note),
                            Ok(f) => (
                                Ok(
                                    Some(
                                        Behind {
                                            hist: b.hist.push(f),
                                            places: b.places.push(p),
                                            pos: p,
                                            vel: v,
                                            time: target,
                                        },
                                    ),
                                ),
                                note,
                            ),
                        }
                    },
                }
            },
        }
    }
}

/// What lies behind the start of an integration.
struct Back {
    hist: Vec<Vec<F64>>,
    places: Vec<Vec<F64>>,
    pos: Vec<F64>,
    vel: Vec<F64>,
    time: Time,
}

impl Back {
    spec fn model(self) -> Behind {
        Behind {
            hist: numbers::rows(self.hist@),
            places: numbers::rows(self.places@),
            pos: self.pos@,
            vel: self.vel@,
            time: self.time,
        }
    }

    spec fn models(r: KeteResult<Option<Back>>) -> KeteResult<Option<Behind>> {
        match r {
            Err(e) => Err(e),
            Ok(None) => Ok(None),
            Ok(Some(b)) => Ok(Some(b.model())),
        }
    }
}

/// Look back `n` steps.
fn look_back<M, A: Arithmetic, E: SecondOrderOde<M>>(
    ops: &A,
    ode: &E,
    pos: &Vec<F64>,
    vel: &Vec<F64>,
    t0: Time,
    h: F64,
    note: M,
    control_dim: Option<usize>,
    max_steps: u64,
    n: usize,
) -> (r: (KeteResult<Option<Back>>, M))
    requires
        ops.lawful(),
        ode.lawful(),
        pos@.len() == vel@.len(),
        n < ORDER,
    ensures
        (Back::models(r.0), r.1) == behind(
            ops,
            ode::rule(ode),
            pos@,
            vel@,
            t0,
            h,
            note,
            control_dim,
            max_steps as nat,
            n as nat,
        ),
        r.0 matches Ok(Some(b)) ==> {
            &&& b.hist@.len() == n + 1
            &&& b.places@.len() == n + 1
            &&& b.pos@.len() == pos@.len()
            &&& b.vel@.len() == pos@.len()
            &&& forall|j: int| 0 <= j <= n ==> (#[trigger] b.hist@[j])@.len() == pos@.len()
            &&& forall|j: int| 0 <= j <= n ==> (#[trigger] b.places@[j])@.len() == pos@.len()
        },
    decreases n,
{
    if n == 0 {
        let (f, last) = ode.eval(t0, pos, vel, note, true);
        return match f {
            Err(e) => (Err(e), last),
            Ok(f) => {
                let hist = vec![f];
                let places = vec![numbers::copied(pos)];
                assert(numbers::rows(hist@) =~= seq![f@]);
                assert(numbers::rows(places@) =~= seq![pos@]);
                let back = Back {
                    hist,
                    places,
                    pos: numbers::copied(pos),
                    vel: numbers::copied(vel),
                    time: t0,
                };
                (Ok(Some(back)), last)
            },
        };
    }
    let (so_far, note) = look_back(ops, ode, pos, vel, t0, h, note, control_dim, max_steps, n - 1);
    match so_far {
        Err(e) => (Err(e), note),
        Ok(None) => (Ok(None), note),
        Ok(Some(b)) => {
            let mut b = b;
            let target = back_time(ops, t0, n, h);
            let (end, note) = RadauIntegrator::integrate(
                ops,
                ode,
                &b.pos,
                &b.vel,
                b.time,
                target,
                note,
                control_dim,
                max_steps,
            );
            match end {
                Err(e) => (Err(e), note),
                Ok(None) => (Ok(None), note),
                Ok(Some(there)) => {
                    let (f, note) = ode.eval(target, &there.pos, &there.vel, note, true);
                    match f {
                        Err(e) => (Err(e), note),
                        Ok(f) => {
                            let place = numbers::copied(&there.pos);
                            let ghost hist = b.hist@;
                            let ghost places = b.places@;
                            b.hist.push(f);
                            b.places.push(place);
                            assert(numbers::rows(b.hist@) =~= numbers::rows(hist).push(f@));
                            assert(numbers::rows(b.places@) =~= numbers::rows(places).push(place@));
                            b.pos = there.pos;
                            b.vel = there.vel;
                            b.time = target;
                            (Ok(Some(b)), note)
                        },
                    }
                },
            }
        },
    }
}

/// The state at the start of an integration with steps of `h` days.
pub open spec fn bootstrapped(b: Behind, pos: Seq<F64>, vel: Seq<F64>, t0: Time, control: int)
    -> Model {
    Model {
        time: Kahan { value: t0.jd, excess: F64 { bits: 0 } },
        pos: numbers::at_rest(pos),
        vel: numbers::at_rest(vel),
        prev_pos: b.places[1],
        hist: b.hist,
        control_dim: control,
    }
}

impl Model {
    /// Where at most `left` steps lead. The last part of the way, which is shorter than a step,
    /// is left to another method.
    pub open spec fn run<M, A: Arithmetic>(
        self,
        ops: &A,
        rule: Rule<M>,
        h: F64,
        goal: Time,
        note: M,
        max_steps: nat,
        left: nat,
    ) -> (KeteResult<Option<(Seq<F64>, Seq<F64>)>>, M)
        decreases left,
    {
        let here = (numbers::values(self.pos), numbers::values(self.vel));
        match next_move(arithmetic::difference(ops, goal.jd, self.time.value), h) {
            Move::Done => (Ok(Some(here)), note),
            Move::Partial => radau::integrated(
                ops,
                rule,
                here.0,
                here.1,
                Time { jd: self.time.value },
                goal,
                note,
                Some(self.control_dim as usize),
                max_steps,
            ),
            Move::Step => if left == 0 {
                (Ok(None), note)
            } else {
                match self.stepped(ops, rule, h, note) {
                    (Err(e), _, last) => (Err(e), last),
                    (Ok(_), next, last) => next.run(
                        ops,
                        rule,
                        h,
                        goal,
                        last,
                        max_steps,
                        (left - 1) as nat,
                    ),
                }
            },
        }
    }
}

/// The position and the velocity at `goal` of what is at `pos` with `vel` at `start`, and the
/// note of the last evaluation. `None` stands for an integration, or a part of one, which is
/// not at its goal after `max_steps` steps.
pub open spec fn integrated<M, A: Arithmetic>(
    ops: &A,
    rule: Rule<M>,
    pos: Seq<F64>,
    vel: Seq<F64>,
    start: Time,
    goal: Time,
    note: M,
    control_dim: Option<usize>,
    step_size: Option<F64>,
    max_steps: nat,
) -> (KeteResult<Option<(Seq<F64>, Seq<F64>)>>, M) {
    let total = arithmetic::difference(ops, goal.jd, start.jd);
    if total.abs_value().spec_lt(F64 { bits: NO_INTERVAL }) {
        (Ok(Some((pos, vel))), note)
    } else if pos.len() != vel.len() {
        (Err(Error::ValueError(ValueFault::LengthMismatch)), note)
    } else {
        let h = numbers::signed_like(
            match step_size {
                Some(size) => size,
                None => F64 { bits: DEFAULT_STEP },
            },
            total,
        );
        let (b, note) = behind(
            ops,
            rule,
            pos,
            vel,
            start,
            h,
            note,
            control_dim,
            max_steps,
            (ORDER - 1) as nat,
        );
        match b {
            Err(e) => (Err(e), note),
            Ok(None) => (Ok(None), note),
            Ok(Some(b)) => bootstrapped(
                b,
                pos,
                vel,
                start,
                match control_dim {
                    Some(n) => n as int,
                    None => pos.len() as int,
                },
            ).run(ops, rule, h, goal, note, max_steps, max_steps),
        }
    }
}

impl GaussJacksonIntegrator {
    /// Take at most `max_steps` steps of `h` days towards `goal`.
    fn go<M, A: Arithmetic, E: SecondOrderOde<M>>(
        self,
        ops: &A,
        ode: &E,
        h: F64,
        goal: Time,
        note: M,
        max_steps: u64,
    ) -> (r: (KeteResult<Option<Arrival>>, M))
        requires
            ops.lawful(),
            ode.lawful(),
            self.well_formed(),
        ensures
            (control::arrived(r.0), r.1) == self.model().run(
                ops,
                ode::rule(ode),
                h,
                goal,
                note,
                max_steps as nat,
                max_steps as nat,
            ),
    {
        let mut now = self;
        let mut last = note;
        let mut left: u64 = max_steps;
        let ghost whole = self.model().run(
            ops,
            ode::rule(ode),
            h,
            goal,
            note,
            max_steps as nat,
            max_steps as nat,
        );
        loop
            invariant
                ops.lawful(),
                ode.lawful(),
                now.well_formed(),
                whole == now.model().run(ops, ode::rule(ode), h, goal, last, max_steps as nat,
                    left as nat),
                whole == self.model().run(
                    ops,
                    ode::rule(ode),
                    h,
                    goal,
                    note,
                    max_steps as nat,
                    max_steps as nat,
                ),
            decreases left,
        {
            let remaining = arithmetic::minus(ops, goal.jd, now.time.value);
            match decide(remaining, h) {
                Move::Done => {
                    let arrival = Arrival {
                        pos: numbers::current(&now.pos),
                        vel: numbers::current(&now.vel),
                    };
                    return (Ok(Some(arrival)), last);
                },
                Move::Partial => {
                    let pos = numbers::current(&now.pos);
                    let vel = numbers::current(&now.vel);
                    return RadauIntegrator::integrate(
                        ops,
                        ode,
                        &pos,
                        &vel,
                        Time::new(now.time.value),
                        goal,
                        last,
                        Some(now.control_dim),
                        max_steps,
                    );
                },
                Move::Step => {
                    if left == 0 {
                        return (Ok(None), last);
                    }
                    left = left - 1;
                    let (outcome, noted) = now.step(ops, ode, h, last);
                    last = noted;
                    match outcome {
                        Err(e) => {
                            return (Err(e), last);
                        },
                        Ok(_) => {},
                    }
                },
            }
        }
    }

    /// Integrate from `start` to `goal` with a fixed step. `step_size` is the step in days, one
    /// where it is not given. `control_dim` tells how many leading components decide about
    /// convergence. Each part of the integration takes at most `max_steps` steps.
    pub fn integrate<M, A: Arithmetic, E: SecondOrderOde<M>>(
        ops: &A,
        ode: &E,
        pos: &Vec<F64>,
        vel: &Vec<F64>,
        start: Time,
        goal: Time,
        note: M,
        control_dim: Option<usize>,
        step_size: Option<F64>,
        max_steps: u64,
    ) -> (r: (KeteResult<Option<Arrival>>, M))
        requires
            ops.lawful(),
            ode.lawful(),
        ensures
            (control::arrived(r.0), r.1) == integrated(
                ops,
                ode::rule(ode),
                pos@,
                vel@,
                start,
                goal,
                note,
                control_dim,
                step_size,
                max_steps as nat,
            ),
    {
        let total = arithmetic::minus(ops, goal.jd, start.jd);
        let h = match fixed_step(step_size, total) {
            None => {
                let arrival = Arrival { pos: numbers::copied(pos), vel: numbers::copied(vel) };
                return (Ok(Some(arrival)), note);
            },
            Some(h) => h,
        };
        if pos.len() != vel.len() {
            return (Err(Error::ValueError(ValueFault::LengthMismatch)), note);
        }
        let (b, note) = look_back(
            ops,
            ode,
            pos,
            vel,
            start,
            h,
            note,
            control_dim,
            max_steps,
            ORDER - 1,
        );
        match b {
            Err(e) => (Err(e), note),
            Ok(None) => (Ok(None), note),
            Ok(Some(b)) => {
                let prev_pos = numbers::copied(&b.places[1]);
                assert(numbers::rows(b.places@)[1] == b.places@[1]@);
                let integrator = Self::start(pos, vel, start, prev_pos, b.hist, control_dim);
                integrator.go(ops, ode, h, goal, note, max_steps)
            },
        }
    }
}

/// Where the goal is at hand, the state is given back as it is.
pub proof fn law_nothing_to_do<M, A: Arithmetic>(
    ops: &A,
    rule: Rule<M>,
    pos: Seq<F64>,
    vel: Seq<F64>,
    start: Time,
    goal: Time,
    note: M,
    control_dim: Option<usize>,
    step_size: Option<F64>,
    max_steps: nat,
)
    requires
        control::nothing_to_do(ops, start, goal),
    ensures
        integrated(ops, rule, pos, vel, start, goal, note, control_dim, step_size, max_steps) == (
            Ok::<Option<(Seq<F64>, Seq<F64>)>, Error>(Some((pos, vel))),
            note,
        ),
{
}

/// Whoever allows more steps sees the same behind the start, where anything is seen.
proof fn lemma_behind_more<M, A: Arithmetic>(
    ops: &A,
    rule: Rule<M>,
    pos: Seq<F64>,
    vel: Seq<F64>,
    t0: Time,
    h: F64,
    note: M,
    control_dim: Option<usize>,
    max_steps: nat,
    more: nat,
    n: nat,
)
    requires
        behind(ops, rule, pos, vel, t0, h, note, control_dim, max_steps, n).0 != Ok::<
            Option<Behind>,
            Error,
        >(None),
    ensures
        behind(ops, rule, pos, vel, t0, h, note, control_dim, max_steps + more, n) == behind(
            ops,
            rule,
            pos,
            vel,
            t0,
            h,
            note,
            control_dim,
            max_steps,
            n,
        ),
    decreases n,
{
    if n > 0 {
        let m = (n - 1) as nat;
        lemma_behind_more(ops, rule, pos, vel, t0, h, note, control_dim, max_steps, more, m);
        let (so_far, last) = behind(ops, rule, pos, vel, t0, h, note, control_dim, max_steps, m);
        if let Ok(Some(b)) = so_far {
            radau::law_more_steps(
                ops,
                rule,
                b.pos,
                b.vel,
                b.time,
                time_before(ops, t0, n as int, h),
                last,
                control_dim,
                max_steps,
                more,
            );
        }
    }
}

/// Whoever allows more steps gets to the same place, where any is reached.
proof fn lemma_run_more<M, A: Arithmetic>(
    m: Model,
    ops: &A,
    rule: Rule<M>,
    h: F64,
    goal: Time,
    note: M,
    max_steps: nat,
    left: nat,
    more: nat,
)
    requires
        m.run(ops, rule, h, goal, note, max_steps, left).0 != Ok::<
            Option<(Seq<F64>, Seq<F64>)>,
            Error,
        >(None),
    ensures
        m.run(ops, rule, h, goal, note, max_steps + more, left + more) == m.run(
            ops,
            rule,
            h,
            goal,
            note,
            max_steps,
            left,
        ),
    decreases left,
{
    match next_move(arithmetic::difference(ops, goal.jd, m.time.value), h) {
        Move::Done => {},
        Move::Partial => {
            radau::law_more_steps(
                ops,
                rule,
                numbers::values(m.pos),
                numbers::values(m.vel),
                Time { jd: m.time.value },
                goal,
                note,
                Some(m.control_dim as usize),
                max_steps,
                more,
            );
        },
        Move::Step => {
            let (outcome, next, last) = m.stepped(ops, rule, h, note);
            if outcome is Ok {
                lemma_run_more(
                    next,
                    ops,
                    rule,
                    h,
                    goal,
                    last,
                    max_steps,
                    (left - 1) as nat,
                    more,
                );
                assert((left + more - 1) as nat == (left - 1) as nat + more);
            }
        },
    }
}

/// Whoever allows more steps gets the same result, where there is one.
pub proof fn law_more_steps<M, A: Arithmetic>(
    ops: &A,
    rule: Rule<M>,
    pos: Seq<F64>,
    vel: Seq<F64>,
    start: Time,
    goal: Time,
    note: M,
    control_dim: Option<usize>,
    step_size: Option<F64>,
    max_steps: nat,
    more: nat,
)
    requires
        integrated(ops, rule, pos, vel, start, goal, note, control_dim, step_size, max_steps).0
            != Ok::<Option<(Seq<F64>, Seq<F64>)>, Error>(None),
    ensures
        integrated(ops, rule, pos, vel, start, goal, note, control_dim, step_size, max_steps + more)
            == integrated(
            ops,
            rule,
            pos,
            vel,
            start,
            goal,
            note,
            control_dim,
            step_size,
            max_steps,
        ),
{
    let total = arithmetic::difference(ops, goal.jd, start.jd);
    let h = numbers::signed_like(
        match step_size {
            Some(size) => size,
            None => F64 { bits: DEFAULT_STEP },
        },
        total,
    );
    if !total.abs_value().spec_lt(F64 { bits: NO_INTERVAL }) && pos.len() == vel.len() {
        let n = (ORDER - 1) as nat;
        lemma_behind_more(ops, rule, pos, vel, start, h, note, control_dim, max_steps, more, n);
        let (b, last) = behind(
            ops,
            rule,
            pos,
            vel,
            start,
            h,
            note,
            control_dim,
            max_steps,
            n,
        );
        if let Ok(Some(b)) = b {
            let control = match control_dim {
                Some(n) => n as int,
                None => pos.len() as int,
            };
            lemma_run_more(
                bootstrapped(b, pos, vel, start, control),
                ops,
                rule,
                h,
                goal,
                last,
                max_steps,
                max_steps,
                more,
            );
        }
    }
}

} // verus!
