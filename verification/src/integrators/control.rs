//! Limits and retries which the integrators with adaptive steps share.
use crate::arithmetic;
use crate::arithmetic::Arithmetic;
use crate::conics;
use crate::errors::{ConvergenceFault, Error, KeteResult, ValueFault};
use crate::float::F64;
use crate::numbers;
use crate::orbits;
use crate::rounding;
use crate::rounding::Reading;
use crate::time::Time;
use vstd::prelude::*;

verus! {

/// How many failed steps in a row are too many.
pub const MAX_STEP_REJECT: usize = 10;

/// Bits of 0.7, by which a failed step is shortened.
pub const SHRINK: u64 = 0x3fe6_6666_6666_6666;

/// Bits of 1e-10: an interval shorter than this many days is no interval.
pub const NO_INTERVAL: u64 = 0x3ddb_7cdf_d9d7_bdbb;

/// Bits of 1e-12: closer to the goal than this many days is at the goal.
pub const AT_GOAL: u64 = 0x3d71_9799_812d_ea11;

/// Is there no use in trying again with a shorter step.
pub open spec fn fatal(e: Error) -> bool {
    match e {
        Error::Bounds => true,
        Error::Impact(_, _) => true,
        Error::OutOfMemory => true,
        _ => false,
    }
}

/// How many leading components decide about convergence: all of them where nothing is
/// asked for, and never more than there are.
pub fn resolve_control_dim(control_dim: Option<usize>, dim: usize) -> (res: KeteResult<usize>)
    ensures
        res == (match control_dim {
            None => Ok(dim),
            Some(n) => if n > dim {
                Err(Error::ValueError(ValueFault::ControlDim { control: n, dim }))
            } else {
                Ok(n)
            },
        }),
{
    match control_dim {
        None => Ok(dim),
        Some(n) => {
            if n > dim {
                return Err(Error::ValueError(ValueFault::ControlDim { control: n, dim }));
            }
            Ok(n)
        },
    }
}

/// Is a time as close to the goal as it has to be.
pub open spec fn at_goal<A: Arithmetic>(ops: &A, now: Time, goal: Time) -> bool {
    arithmetic::difference(ops, now.jd, goal.jd).abs_value().spec_lt(F64 { bits: AT_GOAL })
}

/// Is there nothing to integrate from `start` to `goal`.
pub open spec fn nothing_to_do<A: Arithmetic>(ops: &A, start: Time, goal: Time) -> bool {
    arithmetic::difference(ops, goal.jd, start.jd).abs_value().spec_lt(F64 { bits: NO_INTERVAL })
}

/// Is there nothing to integrate from `start` to `goal`.
pub fn is_no_interval<A: Arithmetic>(ops: &A, start: Time, goal: Time) -> (r: bool)
    requires
        ops.lawful(),
    ensures
        r == nothing_to_do(ops, start, goal),
{
    arithmetic::minus(ops, goal.jd, start.jd).abs().less(F64 { bits: NO_INTERVAL })
}

/// How an integration stands after a step.
#[derive(Debug, Clone, Copy, PartialEq)]
pub enum Progress {
    /// The goal is reached.
    Done,
    /// Take another step.
    Continue,
    /// Give up.
    Failed(Error),
}

/// The size of the next step, and how many steps in a row have failed.
#[derive(Debug, Clone, Copy)]
pub struct Driver {
    /// The size of the next step, in days, negative where time runs backwards.
    pub next: F64,
    /// How many steps in a row have failed.
    pub failures: usize,
}

/// A step of the size `h`, but not below `min_step`.
pub open spec fn not_below(h: F64, min_step: F64) -> F64 {
    if h.abs_value().spec_lt(min_step) {
        numbers::signed_like(min_step, h)
    } else {
        h
    }
}

impl Driver {
    /// May the integration go on.
    pub open spec fn well_formed(self) -> bool {
        self.failures <= MAX_STEP_REJECT
    }

    /// The size of the next step from `now`: what is left, where that is no more than the
    /// size planned.
    pub open spec fn aimed<A: Arithmetic>(self, ops: &A, now: Time, goal: Time) -> F64 {
        if arithmetic::difference(ops, now.jd, goal.jd).abs_value().spec_le(self.next.abs_value()) {
            arithmetic::difference(ops, goal.jd, now.jd)
        } else {
            self.next
        }
    }

    /// What becomes of the plan when a step of the size `taken` had the outcome `outcome`
    /// and led to `now`. A successful step proposes the size of the next one. A failed one
    /// is tried again with a shorter size, unless there is no use in that or it was one
    /// failure too many.
    pub open spec fn judged<A: Arithmetic>(
        self,
        ops: &A,
        taken: F64,
        outcome: KeteResult<F64>,
        now: Time,
        goal: Time,
        min_step: F64,
    ) -> (Progress, Driver) {
        match outcome {
            Ok(size) => if at_goal(ops, now, goal) {
                (Progress::Done, Driver { next: size, failures: self.failures })
            } else {
                (Progress::Continue, Driver { next: not_below(size, min_step), failures: 0 })
            },
            Err(e) => if fatal(e) {
                (Progress::Failed(e), Driver { next: taken, failures: self.failures })
            } else {
                let size = arithmetic::product(ops, taken, F64 { bits: SHRINK });
                let failures = (self.failures + 1) as usize;
                if failures > MAX_STEP_REJECT {
                    (
                        Progress::Failed(Error::Convergence(ConvergenceFault::StepsFailed)),
                        Driver { next: size, failures: self.failures },
                    )
                } else {
                    (Progress::Continue, Driver { next: not_below(size, min_step), failures })
                }
            },
        }
    }

    /// The size of the next step from `now`.
    pub fn aim<A: Arithmetic>(&self, ops: &A, now: Time, goal: Time) -> (h: F64)
        requires
            ops.lawful(),
        ensures
            h == self.aimed(ops, now, goal),
    {
        if arithmetic::minus(ops, now.jd, goal.jd).abs().less_or_equal(self.next.abs()) {
            arithmetic::minus(ops, goal.jd, now.jd)
        } else {
            self.next
        }
    }

    /// Take note of the outcome of a step, and decide how to go on.
    pub fn judge<A: Arithmetic>(
        &mut self,
        ops: &A,
        taken: F64,
        outcome: KeteResult<F64>,
        now: Time,
        goal: Time,
        min_step: F64,
    ) -> (p: Progress)
        requires
            ops.lawful(),
            old(self).well_formed(),
        ensures
            (p, *final(self)) == old(self).judged(ops, taken, outcome, now, goal, min_step),
            final(self).well_formed(),
    {
        match outcome {
            Ok(size) => {
                self.next = size;
                if arithmetic::minus(ops, now.jd, goal.jd).abs().less(F64 { bits: AT_GOAL }) {
                    return Progress::Done;
                }
                self.failures = 0;
            },
            Err(e) => {
                self.next = taken;
                match e {
                    Error::Bounds | Error::Impact(_, _) | Error::OutOfMemory => {
                        return Progress::Failed(e);
                    },
                    _ => {},
                }
                self.next = arithmetic::times(ops, taken, F64 { bits: SHRINK });
                if self.failures + 1 > MAX_STEP_REJECT {
                    return Progress::Failed(Error::Convergence(ConvergenceFault::StepsFailed));
                }
                self.failures = self.failures + 1;
            },
        }
        if self.next.abs().less(min_step) {
            self.next = numbers::copysign(min_step, self.next);
        }
        Progress::Continue
    }
}

/// `n` steps in a row which fail in a way that could be mended, judged one after the
/// other.
pub open spec fn after_failures<A: Arithmetic>(
    d: Driver,
    ops: &A,
    faults: Seq<Error>,
    now: Time,
    goal: Time,
    min_step: F64,
) -> (Progress, Driver)
    decreases faults.len(),
{
    if faults.len() == 0 {
        (Progress::Continue, d)
    } else {
        let (p, before) = after_failures(d, ops, faults.drop_last(), now, goal, min_step);
        if p == Progress::Continue {
            before.judged(ops, before.aimed(ops, now, goal), Err(faults.last()), now, goal,
                min_step)
        } else {
            (p, before)
        }
    }
}

/// An integration survives ten failures in a row and gives up at the eleventh.
pub proof fn law_gives_up<A: Arithmetic>(
    d: Driver,
    ops: &A,
    faults: Seq<Error>,
    now: Time,
    goal: Time,
    min_step: F64,
)
    requires
        d.failures == 0,
        forall|i: int| 0 <= i < faults.len() ==> !fatal(#[trigger] faults[i]),
        faults.len() <= MAX_STEP_REJECT + 1,
    ensures
        faults.len() <= MAX_STEP_REJECT ==> {
            &&& after_failures(d, ops, faults, now, goal, min_step).0 == Progress::Continue
            &&& after_failures(d, ops, faults, now, goal, min_step).1.failures == faults.len()
        },
        faults.len() == MAX_STEP_REJECT + 1 ==> after_failures(d, ops, faults, now, goal,
            min_step).0
            == Progress::Failed(Error::Convergence(ConvergenceFault::StepsFailed)),
    decreases faults.len(),
{
    if faults.len() > 0 {
        let before = faults.drop_last();
        assert forall|i: int| 0 <= i < before.len() implies !fatal(#[trigger] before[i]) by {
            assert(before[i] == faults[i]);
        }
        law_gives_up(d, ops, before, now, goal, min_step);
        assert(!fatal(faults.last()));
    }
}

/// A step which is planned is never shorter than the shortest one, whatever happened
/// before. Only the last step, which lands on the goal, can be.
pub proof fn law_step_not_too_short<A: Arithmetic>(
    d: Driver,
    ops: &A,
    taken: F64,
    outcome: KeteResult<F64>,
    now: Time,
    goal: Time,
    min_step: F64,
)
    requires
        d.well_formed(),
        !min_step.is_negative(),
        !min_step.nan(),
    ensures
        ({
            let (p, next) = d.judged(ops, taken, outcome, now, goal, min_step);
            p == Progress::Continue ==> next.well_formed()
                && !next.next.abs_value().spec_lt(min_step)
        }),
{
}

/// A step does not go past the goal: where less is left than was planned it lands on the goal, and
/// where more is left it is the one that was planned.
pub proof fn law_does_not_pass_the_goal<A: Arithmetic>(
    d: Driver,
    ops: &A,
    v: Reading,
    now: Time,
    goal: Time,
)
    requires
        orbits::subtracts(ops, v, goal.jd, now.jd),
        !d.next.nan(),
        !arithmetic::difference(ops, now.jd, goal.jd).nan(),
    ensures
        ({
            let left = arithmetic::difference(ops, now.jd, goal.jd).abs_value();
            let h = d.aimed(ops, now, goal);
            ||| v(now.jd) + v(h) == v(goal.jd) && left.spec_le(d.next.abs_value())
            ||| h == d.next && d.next.abs_value().spec_lt(left)
        }),
{
}

/// A step which failed is tried again in the same direction, and shorter, unless it is as short as
/// a step can be.
pub proof fn law_failed_step_is_shortened<A: Arithmetic>(
    d: Driver,
    ops: &A,
    v: Reading,
    taken: F64,
    e: Error,
    now: Time,
    goal: Time,
    min_step: F64,
)
    requires
        orbits::multiplies(ops, v, taken, F64 { bits: SHRINK }),
        0real < v(F64 { bits: SHRINK }) < 1real,
        !fatal(e),
        d.failures < MAX_STEP_REJECT,
    ensures
        ({
            let (p, next) = d.judged(ops, taken, Err(e), now, goal, min_step);
            let size = v(next.next);
            &&& p == Progress::Continue
            &&& next.failures == d.failures + 1
            &&& next.next.abs_value() == min_step.abs_value() || (if 0real < v(taken) {
                0real < size < v(taken)
            } else if v(taken) < 0real {
                v(taken) < size < 0real
            } else {
                size == 0real
            })
        }),
{
    let k = v(F64 { bits: SHRINK });
    let t = v(taken);
    rounding::lemma_order(t, k, 1real);
    rounding::lemma_minus(k, 1real);
    rounding::lemma_order(0real, k, 1real);
    if 0real < t {
        conics::lemma_positive(t, k);
        conics::lemma_positive(t, 1real - k);
        rounding::lemma_spread(t, 1real, -k, 0real);
        rounding::lemma_minus(t, k);
        rounding::lemma_minus(t, 1real);
    } else if t < 0real {
        conics::lemma_positive(-t, k);
        conics::lemma_positive(-t, 1real - k);
        rounding::lemma_order(-t, k, 1real);
        rounding::lemma_minus(k, t);
        rounding::lemma_order(k, -t, 1real);
        rounding::lemma_spread(-t, 1real, -k, 0real);
        rounding::lemma_minus(-t, k);
        rounding::lemma_minus(-t, 1real);
    }
}

// ---------------------------------------------------------------------------
// Whole integrations
// ---------------------------------------------------------------------------

/// Where an integration arrived.
#[derive(Debug)]
pub struct Arrival {
    /// The position.
    pub pos: Vec<F64>,
    /// The velocity.
    pub vel: Vec<F64>,
}

/// The numbers of an arrival.
pub open spec fn arrived(r: KeteResult<Option<Arrival>>) -> KeteResult<
    Option<(Seq<F64>, Seq<F64>)>,
> {
    match r {
        Err(e) => Err(e),
        Ok(None) => Ok(None),
        Ok(Some(a)) => Ok(Some((a.pos@, a.vel@))),
    }
}

} // verus!
