//! Propagation of mixtures, with components split where they spread too far.
use crate::algebra::{Algebra, Spectrum};
use crate::arithmetic;
use crate::arithmetic::{Arithmetic, Unary};
use crate::conics;
use crate::constants;
use crate::errors::{Error, KeteResult, ValueFault};
use crate::exact;
use crate::float::F64;
use crate::forces::traits::AnalyticForce;
use crate::frames::{Equatorial, SSB};
use crate::numbers;
use crate::orbits;
use crate::physics::Motion;
use crate::rounding;
use crate::rounding::Reading;
use crate::state::cartesian::State;
use crate::state::diffuse;
use crate::state::diffuse::{DiffuseState, Part, PartModel};
use crate::state::stm;
use crate::state::uncertain;
use crate::state::uncertain::{UncertainModel, UncertainState};
use crate::table::{Grid, Table};
use crate::time::Time;
use std::collections::VecDeque;
use vstd::prelude::*;

verus! {

/// A component after a propagation, as numbers.
#[verifier::ext_equal]
pub struct StepModel {
    pub end: UncertainModel<Equatorial, SSB>,
    pub sens: Grid,
}

/// A component after a propagation.
#[derive(Debug)]
pub struct PropagationStep {
    /// The component.
    pub propagated: UncertainState<Equatorial, SSB>,
    /// The derivatives of its state by the state and the parameters at the start.
    pub sens: Table,
}

impl View for PropagationStep {
    type V = StepModel;

    open spec fn view(&self) -> StepModel {
        StepModel { end: self.propagated@, sens: self.sens@ }
    }
}

/// A component after a propagation, where there is one.
pub open spec fn step_of(r: KeteResult<Option<PropagationStep>>) -> KeteResult<Option<StepModel>> {
    match r {
        Err(e) => Err(e),
        Ok(None) => Ok(None),
        Ok(Some(s)) => Ok(Some(s@)),
    }
}

/// The fault of a component which has not as many parameters as the force.
pub open spec fn params_fault(needed: nat, given: nat) -> Error {
    Error::ValueError(ValueFault::ParamCount { needed: needed as usize, given: given as usize })
}

/// A component propagated to `goal`, by the derivatives of its final state. `None` stands for an
/// integration which is not at its end after `max_steps` steps.
pub open spec fn stepped<A: Arithmetic, F: AnalyticForce<A, Frame = Equatorial, Center = SSB>>(
    ops: &A,
    force: &F,
    c: UncertainModel<Equatorial, SSB>,
    goal: Time,
    max_steps: nat,
) -> KeteResult<Option<StepModel>> {
    if force.n_params() != c.params.len() {
        Err(params_fault(force.n_params(), c.params.len()))
    } else {
        match stm::propagated(
            ops,
            force,
            Motion { pos: c.state.pos, vel: c.state.vel },
            c.params,
            c.state.epoch,
            goal,
            max_steps,
        ) {
            Err(e) => Err(e),
            Ok(None) => Ok(None),
            Ok(Some(s)) => Ok(
                Some(
                    StepModel {
                        end: UncertainModel {
                            state: State {
                                desig: c.state.desig,
                                epoch: goal,
                                pos: s.at.pos,
                                vel: s.at.vel,
                                center: SSB,
                            },
                            cov: stm::updated(ops, s.sens, c.cov),
                            params: c.params,
                        },
                        sens: s.sens,
                    },
                ),
            ),
        }
    }
}

/// Propagate a component.
pub fn propagate_step<A: Arithmetic, F: AnalyticForce<A, Frame = Equatorial, Center = SSB>>(
    ops: &A,
    force: &F,
    component: &UncertainState<Equatorial, SSB>,
    goal: Time,
    max_steps: u64,
) -> (r: KeteResult<Option<PropagationStep>>)
    requires
        ops.lawful(),
        force.well_formed(),
        force.accepts(force.n_params()),
        stm::augmented_len(force.n_params()) <= usize::MAX,
        component@.well_formed(),
    ensures
        step_of(r) == stepped(ops, force, component@, goal, max_steps as nat),
        r matches Ok(Some(s)) ==> {
            &&& s.propagated@.well_formed()
            &&& s.propagated@.params.len() == component@.params.len()
            &&& s.sens@.well_formed()
            &&& s.sens@.nrows == 6
            &&& s.sens@.ncols == 6 + component@.params.len()
        },
{
    let np = component.free_params.len();
    let n = force.n_free_params();
    if n != np {
        return Err(Error::ValueError(ValueFault::ParamCount { needed: n, given: np }));
    }
    let from = Motion { pos: component.state.pos, vel: component.state.vel };
    match stm::propagate_with_stm(
        ops,
        force,
        from,
        &component.free_params,
        component.state.epoch,
        goal,
        max_steps,
    ) {
        Err(e) => Err(e),
        Ok(None) => Ok(None),
        Ok(Some(s)) => {
            let state = State {
                desig: component.state.desig.clone(),
                epoch: goal,
                pos: s.at.pos,
                vel: s.at.vel,
                center: SSB,
            };
            let cov_matrix = stm::covariance_update(ops, &s.sens, &component.cov_matrix);
            let propagated = UncertainState {
                state,
                cov_matrix,
                free_params: numbers::copied(&component.free_params),
            };
            Ok(Some(PropagationStep { propagated, sens: s.sens }))
        },
    }
}

// ---------------------------------------------------------------------------
// Diagnosis
// ---------------------------------------------------------------------------

/// Where index `i` goes among indices whose values descend: behind the last one whose value is
/// not smaller.
pub open spec fn slot(values: Seq<F64>, order: Seq<int>, i: int) -> int
    decreases order.len(),
{
    if order.len() == 0 || !values[order.last()].spec_lt(values[i]) {
        order.len() as int
    } else {
        slot(values, order.drop_last(), i)
    }
}

/// The first `n` indices by their values, the largest first. Indices of equal values stay in
/// their order.
pub open spec fn ranked(values: Seq<F64>, n: nat) -> Seq<int>
    decreases n,
{
    if n == 0 {
        Seq::empty()
    } else {
        let before = ranked(values, (n - 1) as nat);
        before.insert(slot(values, before, n - 1), n - 1)
    }
}

/// The slot of an index is within the order.
pub proof fn lemma_slot(values: Seq<F64>, order: Seq<int>, i: int)
    ensures
        0 <= slot(values, order, i) <= order.len(),
    decreases order.len(),
{
    if order.len() > 0 && values[order.last()].spec_lt(values[i]) {
        lemma_slot(values, order.drop_last(), i);
    }
}

/// The order holds each index once.
pub proof fn law_ranked(values: Seq<F64>, n: nat)
    ensures
        ranked(values, n).len() == n,
        forall|k: int| 0 <= k < n ==> 0 <= #[trigger] ranked(values, n)[k] < n,
        forall|a: int, b: int|
            0 <= a < b < n ==> ranked(values, n)[a] != ranked(values, n)[b],
    decreases n,
{
    if n > 0 {
        let before = ranked(values, (n - 1) as nat);
        law_ranked(values, (n - 1) as nat);
        lemma_slot(values, before, n - 1);
        let k = slot(values, before, n - 1);
        let after = ranked(values, n);
        assert forall|i: int| 0 <= i < n implies 0 <= #[trigger] after[i] < n by {
            if i < k {
                assert(after[i] == before[i]);
            } else if i > k {
                assert(after[i] == before[i - 1]);
            }
        }
        assert forall|a: int, b: int| 0 <= a < b < n implies after[a] != after[b] by {
            let x = if a < k {
                a
            } else {
                a - 1
            };
            let y = if b < k {
                b
            } else {
                b - 1
            };
            if a == k {
                assert(after[b] == before[y]);
            } else if b == k {
                assert(after[a] == before[x]);
            } else {
                assert(after[a] == before[x] && after[b] == before[y]);
            }
        }
    }
}

/// Indices as integers.
pub open spec fn as_ints(v: Seq<usize>) -> Seq<int> {
    Seq::new(v.len(), |i: int| v[i] as int)
}

/// The indices of numbers, the largest first.
fn rank(values: &Vec<F64>) -> (r: Vec<usize>)
    ensures
        as_ints(r@) == ranked(values@, values@.len()),
{
    let mut order: Vec<usize> = Vec::new();
    let mut i: usize = 0;
    assert(as_ints(order@) =~= ranked(values@, 0));
    while i < values.len()
        invariant
            i <= values@.len(),
            as_ints(order@) == ranked(values@, i as nat),
            order@.len() == i,
        decreases values@.len() - i,
    {
        let ghost before = order@;
        let mut k: usize = order.len();
        proof {
            law_ranked(values@, i as nat);
            assert(as_ints(before).take(k as int) =~= as_ints(before));
            assert forall|j: int| 0 <= j < before.len() implies #[trigger] before[j] < i by {
                assert(as_ints(before)[j] == before[j]);
            }
        }
        while k > 0 && values[order[k - 1]].less(values[i])
            invariant
                i < values@.len(),
                order@ == before,
                forall|j: int| 0 <= j < before.len() ==> #[trigger] before[j] < i,
                k <= order@.len(),
                slot(values@, as_ints(before), i as int) == slot(
                    values@,
                    as_ints(before).take(k as int),
                    i as int,
                ),
            decreases k,
        {
            assert(as_ints(before).take(k as int).drop_last() =~= as_ints(before).take(k - 1));
            assert(as_ints(before).take(k as int).last() == before[k - 1]);
            k = k - 1;
        }
        if k > 0 {
            assert(as_ints(before).take(k as int).last() == before[k - 1]);
        }
        order.insert(k, i);
        assert(as_ints(order@) =~= as_ints(before).insert(k as int, i as int));
        i = i + 1;
    }
    order
}

/// A point next to the mean, and where linear propagation takes its distance from it.
#[verifier::ext_equal]
pub struct PointModel {
    pub delta: Seq<F64>,
    pub linear: Seq<F64>,
}

/// A point next to the mean, and where linear propagation takes its distance from it.
#[derive(Debug)]
pub struct SigmaPoint {
    /// The distance at the start.
    pub delta_initial: Vec<F64>,
    /// The distance at the end.
    pub lin_pred: Vec<F64>,
}

impl View for SigmaPoint {
    type V = PointModel;

    open spec fn view(&self) -> PointModel {
        PointModel { delta: self.delta_initial@, linear: self.lin_pred@ }
    }
}

/// Points as numbers.
pub open spec fn point_models(s: Seq<SigmaPoint>) -> Seq<PointModel> {
    Seq::new(s.len(), |i: int| s[i]@)
}

/// The points on both sides of the mean along one eigenvector; none where there is no variance.
pub open spec fn points_along<A: Arithmetic>(
    ops: &A,
    e: Spectrum,
    sens: Grid,
    sigma_factor: F64,
    axis: int,
) -> Seq<PointModel> {
    let lambda = e.values[axis];
    let one = F64 { bits: constants::ONE };
    if !lambda.finite() || lambda.spec_le(F64 { bits: constants::ZERO }) {
        Seq::empty()
    } else {
        let scale = arithmetic::product(ops, sigma_factor, ops.one(Unary::Sqrt, lambda));
        let delta = numbers::scaled(ops, numbers::column(e.vectors.cells, axis), scale);
        let linear = sens.applied(ops, delta);
        seq![
            PointModel {
                delta: numbers::scaled(ops, delta, one),
                linear: numbers::scaled(ops, linear, one),
            },
            PointModel {
                delta: numbers::scaled(ops, delta, one.negated()),
                linear: numbers::scaled(ops, linear, one.negated()),
            },
        ]
    }
}

/// The points along the first `n` eigenvectors of an order.
pub open spec fn points<A: Arithmetic>(
    ops: &A,
    e: Spectrum,
    sens: Grid,
    sigma_factor: F64,
    order: Seq<int>,
    n: nat,
) -> Seq<PointModel>
    decreases n,
{
    if n == 0 {
        Seq::empty()
    } else {
        points(ops, e, sens, sigma_factor, order, (n - 1) as nat) + points_along(
            ops,
            e,
            sens,
            sigma_factor,
            order[n - 1],
        )
    }
}

/// Find the points along the first `n` eigenvectors, by the size of their eigenvalues.
fn find_points<A: Algebra>(ops: &A, cov: &Table, sens: &Table, sigma_factor: F64, n: usize) -> (r:
    Vec<SigmaPoint>)
    requires
        ops.lawful(),
        crate::algebra::square(cov@),
        n <= cov@.nrows,
        sens@.well_formed(),
        sens@.nrows == 6,
        sens@.ncols == cov@.nrows,
    ensures
        point_models(r@) == points(
            ops,
            ops.eigen(cov@),
            sens@,
            sigma_factor,
            ranked(ops.eigen(cov@).values, cov@.nrows),
            n as nat,
        ),
        forall|k: int|
            0 <= k < r@.len() ==> (#[trigger] r@[k]).delta_initial@.len() == cov@.nrows
                && r@[k].lin_pred@.len() == 6,
{
    let e = ops.symmetric_eigen(cov);
    let order = rank(&e.values);
    let one = F64::from_bits(constants::ONE);
    let mut r: Vec<SigmaPoint> = Vec::new();
    let mut i: usize = 0;
    proof {
        law_ranked(e.values@, e.values@.len());
        assert(as_ints(order@).len() == order@.len());
    }
    assert(point_models(r@) =~= Seq::empty());
    while i < n
        invariant
            ops.lawful(),
            e@ == ops.eigen(cov@),
            crate::algebra::fits(e@, cov@.nrows),
            n <= cov@.nrows,
            i <= n,
            as_ints(order@) == ranked(e.values@, cov@.nrows),
            order@.len() == cov@.nrows,
            forall|k: int|
                0 <= k < cov@.nrows ==> 0 <= #[trigger] ranked(e.values@, cov@.nrows)[k]
                    < cov@.nrows,
            sens@.well_formed(),
            sens@.nrows == 6,
            sens@.ncols == cov@.nrows,
            one == (F64 { bits: constants::ONE }),
            point_models(r@) == points(
                ops,
                e@,
                sens@,
                sigma_factor,
                ranked(e.values@, cov@.nrows),
                i as nat,
            ),
            forall|k: int|
                0 <= k < r@.len() ==> (#[trigger] r@[k]).delta_initial@.len() == cov@.nrows
                    && r@[k].lin_pred@.len() == 6,
        decreases n - i,
    {
        let axis = order[i];
        assert(as_ints(order@)[i as int] == axis);
        assert(ranked(e.values@, cov@.nrows)[i as int] == axis);
        let lambda = e.values[axis];
        let ghost before = r@;
        if lambda.is_finite() && !lambda.less_or_equal(F64::from_bits(constants::ZERO)) {
            let scale = arithmetic::times(ops, sigma_factor, ops.unary(Unary::Sqrt, lambda));
            proof {
                assert forall|k: int| 0 <= k < e.vectors.cells@.len() implies axis < (
                #[trigger] e.vectors.cells@[k])@.len() by {
                    assert(e.vectors@.cells[k].len() == e.vectors.ncols);
                }
            }
            let delta = numbers::scale(ops, &numbers::column_of(&e.vectors.cells, axis), scale);
            let linear = sens.apply(ops, &delta);
            let plus = SigmaPoint {
                delta_initial: numbers::scale(ops, &delta, one),
                lin_pred: numbers::scale(ops, &linear, one),
            };
            let minus = SigmaPoint {
                delta_initial: numbers::scale(ops, &delta, one.neg()),
                lin_pred: numbers::scale(ops, &linear, one.neg()),
            };
            r.push(plus);
            r.push(minus);
            assert(point_models(r@) =~= point_models(before) + seq![plus@, minus@]);
        } else {
            assert(point_models(r@) =~= point_models(before) + Seq::empty());
        }
        i = i + 1;
    }
    r
}

/// How far the propagated mean and a propagated point are from what linear propagation gives,
/// relative to that.
pub open spec fn relative_miss<A: Arithmetic>(
    ops: &A,
    mean: State<Equatorial, SSB>,
    there: Motion<Equatorial>,
    linear: Seq<F64>,
) -> F64 {
    let off = numbers::differences(
        ops,
        uncertain::six(there.pos, there.vel),
        uncertain::six(mean.pos, mean.vel),
    );
    let scale = diffuse::norm(ops, linear);
    if scale.spec_le(F64 { bits: constants::ZERO }) {
        F64 { bits: constants::ZERO }
    } else {
        arithmetic::quotient(
            ops,
            diffuse::norm(ops, numbers::differences(ops, off, linear)),
            scale,
        )
    }
}

/// How far a propagated point is from what linear propagation gives.
pub open spec fn miss<A: Arithmetic, F: AnalyticForce<A, Frame = Equatorial, Center = SSB>>(
    ops: &A,
    force: &F,
    component: UncertainModel<Equatorial, SSB>,
    mean: State<Equatorial, SSB>,
    point: PointModel,
    goal: Time,
    max_steps: nat,
) -> KeteResult<Option<F64>> {
    let from = component.moved_state(ops, point.delta);
    match stm::moved(
        ops,
        force,
        Motion { pos: from.pos, vel: from.vel },
        component.moved_params(ops, point.delta),
        component.state.epoch,
        goal,
        max_steps,
    ) {
        Err(e) => Err(e),
        Ok(None) => Ok(None),
        Ok(Some(there)) => Ok(Some(relative_miss(ops, mean, there, point.linear))),
    }
}

/// How far a propagated point is from what linear propagation gives.
fn sigma_point_divergence_one<
    A: Arithmetic,
    F: AnalyticForce<A, Frame = Equatorial, Center = SSB>,
>(
    ops: &A,
    force: &F,
    component: &UncertainState<Equatorial, SSB>,
    mean_final: &State<Equatorial, SSB>,
    point: &SigmaPoint,
    goal: Time,
    max_steps: u64,
) -> (r: KeteResult<Option<F64>>)
    requires
        ops.lawful(),
        force.well_formed(),
        force.accepts(force.n_params()),
        stm::augmented_len(force.n_params()) <= usize::MAX,
        component@.well_formed(),
        component@.params.len() == force.n_params(),
        point.delta_initial@.len() == 6 + component@.params.len(),
        point.lin_pred@.len() == 6,
    ensures
        r == miss(
            ops,
            force,
            component@,
            *mean_final,
            point@,
            goal,
            max_steps as nat,
        ),
{
    let from = component.moved(ops, &point.delta_initial);
    let state = from.state;
    let params = from.params;
    assert(state == component@.moved_state(ops, point@.delta));
    let at = Motion { pos: state.pos, vel: state.vel };
    let moved = stm::propagate_state(
        ops,
        force,
        at,
        &params,
        component.state.epoch,
        goal,
        max_steps,
    );
    match moved {
        Err(e) => Err(e),
        Ok(None) => Ok(None),
        Ok(Some(there)) => {
            let p = there.pos;
            let v = there.vel;
            let m = mean_final.pos;
            let w = mean_final.vel;
            let end = vec![p.x, p.y, p.z, v.x, v.y, v.z];
            let mean = vec![m.x, m.y, m.z, w.x, w.y, w.z];
            assert(end@ =~= uncertain::six(p, v));
            assert(mean@ =~= uncertain::six(m, w));
            let off = numbers::subtract(ops, &end, &mean);
            let diff = numbers::subtract(ops, &off, &point.lin_pred);
            let scale = diffuse::find_norm(ops, &point.lin_pred);
            if scale.less_or_equal(F64::from_bits(constants::ZERO)) {
                Ok(Some(F64::from_bits(constants::ZERO)))
            } else {
                Ok(Some(arithmetic::over(ops, diffuse::find_norm(ops, &diff), scale)))
            }
        },
    }
}

/// How far the first `n` points are from what linear propagation gives, or the first fault.
pub open spec fn misses<A: Arithmetic, F: AnalyticForce<A, Frame = Equatorial, Center = SSB>>(
    ops: &A,
    force: &F,
    component: UncertainModel<Equatorial, SSB>,
    mean: State<Equatorial, SSB>,
    points: Seq<PointModel>,
    goal: Time,
    max_steps: nat,
    n: nat,
) -> KeteResult<Option<Seq<F64>>>
    decreases n,
{
    if n == 0 {
        Ok(Some(Seq::empty()))
    } else {
        match misses(ops, force, component, mean, points, goal, max_steps, (n - 1) as nat) {
            Err(e) => Err(e),
            Ok(None) => Ok(None),
            Ok(Some(so_far)) => match miss(
                ops,
                force,
                component,
                mean,
                points[n - 1],
                goal,
                max_steps,
            ) {
                Err(e) => Err(e),
                Ok(None) => Ok(None),
                Ok(Some(x)) => Ok(Some(so_far.push(x))),
            },
        }
    }
}

/// Numbers, where there are any.
pub open spec fn some_numbers(r: KeteResult<Option<Vec<F64>>>) -> KeteResult<Option<Seq<F64>>> {
    match r {
        Err(e) => Err(e),
        Ok(None) => Ok(None),
        Ok(Some(v)) => Ok(Some(v@)),
    }
}

/// Find how far the first `n` points are from what linear propagation gives.
fn find_misses<A: Arithmetic, F: AnalyticForce<A, Frame = Equatorial, Center = SSB>>(
    ops: &A,
    force: &F,
    component: &UncertainState<Equatorial, SSB>,
    mean_final: &State<Equatorial, SSB>,
    points: &Vec<SigmaPoint>,
    goal: Time,
    max_steps: u64,
    n: usize,
) -> (r: KeteResult<Option<Vec<F64>>>)
    requires
        ops.lawful(),
        force.well_formed(),
        force.accepts(force.n_params()),
        stm::augmented_len(force.n_params()) <= usize::MAX,
        component@.well_formed(),
        component@.params.len() == force.n_params(),
        n <= points@.len(),
        forall|k: int|
            0 <= k < points@.len() ==> (#[trigger] points@[k]).delta_initial@.len() == 6
                + component@.params.len() && points@[k].lin_pred@.len() == 6,
    ensures
        some_numbers(r) == misses(
            ops,
            force,
            component@,
            *mean_final,
            point_models(points@),
            goal,
            max_steps as nat,
            n as nat,
        ),
    decreases n,
{
    if n == 0 {
        let none: Vec<F64> = Vec::new();
        assert(none@ =~= Seq::empty());
        return Ok(Some(none));
    }
    match find_misses(ops, force, component, mean_final, points, goal, max_steps, n - 1) {
        Err(e) => Err(e),
        Ok(None) => Ok(None),
        Ok(Some(so_far)) => {
            let mut so_far = so_far;
            let point = &points[n - 1];
            match sigma_point_divergence_one(
                ops,
                force,
                component,
                mean_final,
                point,
                goal,
                max_steps,
            ) {
                Err(e) => Err(e),
                Ok(None) => Ok(None),
                Ok(Some(x)) => {
                    so_far.push(x);
                    Ok(Some(so_far))
                },
            }
        },
    }
}

/// The largest of the first `n` numbers and zero.
pub open spec fn highest(v: Seq<F64>, n: nat) -> F64
    decreases n,
{
    if n == 0 {
        F64 { bits: constants::ZERO }
    } else {
        numbers::larger(highest(v, (n - 1) as nat), v[n - 1])
    }
}

/// The largest of some numbers and zero.
fn find_highest(v: &Vec<F64>) -> (r: F64)
    ensures
        r == highest(v@, v@.len()),
{
    let mut r = F64::from_bits(constants::ZERO);
    let mut i: usize = 0;
    while i < v.len()
        invariant
            i <= v@.len(),
            r == highest(v@, i as nat),
        decreases v@.len() - i,
    {
        r = numbers::max(r, v[i]);
        i = i + 1;
    }
    r
}

/// A propagated component and how far from linear its propagation is, as numbers.
#[verifier::ext_equal]
pub struct DiagnosisModel {
    pub end: UncertainModel<Equatorial, SSB>,
    pub divergence: F64,
    pub stm: Grid,
}

/// A component propagated as if its propagation were linear, and how far that is from the truth.
#[derive(Debug)]
pub struct LinearityDiagnosis {
    /// The component.
    pub propagated: UncertainState<Equatorial, SSB>,
    /// The largest relative distance between linear and full propagation.
    pub divergence: F64,
    /// The derivatives of state and parameters at the end by those at the start.
    pub augmented_stm: Table,
}

impl View for LinearityDiagnosis {
    type V = DiagnosisModel;

    open spec fn view(&self) -> DiagnosisModel {
        DiagnosisModel {
            end: self.propagated@,
            divergence: self.divergence,
            stm: self.augmented_stm@,
        }
    }
}

/// A diagnosis as numbers, where there is one.
pub open spec fn diagnosis_of(r: KeteResult<Option<LinearityDiagnosis>>) -> KeteResult<
    Option<DiagnosisModel>,
> {
    match r {
        Err(e) => Err(e),
        Ok(None) => Ok(None),
        Ok(Some(d)) => Ok(Some(d@)),
    }
}

/// How many eigenvectors are tested: no more than there are.
pub open spec fn tested(n_axes: usize, size: nat) -> nat {
    if n_axes < size {
        n_axes as nat
    } else {
        size
    }
}

/// A component propagated to `goal`, and how far from linear its propagation is: points are
/// moved away from the mean along the largest eigenvectors, to both sides, propagated, and
/// held against linear propagation.
pub open spec fn diagnosed<A: Algebra, F: AnalyticForce<A, Frame = Equatorial, Center = SSB>>(
    ops: &A,
    force: &F,
    c: UncertainModel<Equatorial, SSB>,
    goal: Time,
    n_axes: usize,
    sigma_factor: F64,
    max_steps: nat,
) -> KeteResult<Option<DiagnosisModel>> {
    if n_axes == 0 {
        Err(Error::ValueError(ValueFault::NoAxes))
    } else if !sigma_factor.finite() || sigma_factor.spec_le(F64 { bits: constants::ZERO }) {
        Err(Error::ValueError(ValueFault::BadSigmaFactor))
    } else {
        match stepped(ops, force, c, goal, max_steps) {
            Err(e) => Err(e),
            Ok(None) => Ok(None),
            Ok(Some(s)) => {
                let e = ops.eigen(c.cov);
                let found = points(
                    ops,
                    e,
                    s.sens,
                    sigma_factor,
                    ranked(e.values, c.cov.nrows),
                    tested(n_axes, c.cov.nrows),
                );
                match misses(
                    ops,
                    force,
                    c,
                    s.end.state,
                    found,
                    goal,
                    max_steps,
                    found.len(),
                ) {
                    Err(e) => Err(e),
                    Ok(None) => Ok(None),
                    Ok(Some(v)) => Ok(
                        Some(
                            DiagnosisModel {
                                end: s.end,
                                divergence: highest(v, v.len()),
                                stm: stm::augmented(s.sens),
                            },
                        ),
                    ),
                }
            },
        }
    }
}

/// Propagate a component, and find how far from linear its propagation is.
pub fn propagate_with_diagnosis<
    A: Algebra,
    F: AnalyticForce<A, Frame = Equatorial, Center = SSB>,
>(
    ops: &A,
    force: &F,
    component: &UncertainState<Equatorial, SSB>,
    goal: Time,
    n_axes: usize,
    sigma_factor: F64,
    max_steps: u64,
) -> (r: KeteResult<Option<LinearityDiagnosis>>)
    requires
        ops.lawful(),
        force.well_formed(),
        force.accepts(force.n_params()),
        stm::augmented_len(force.n_params()) <= usize::MAX,
        component@.well_formed(),
    ensures
        diagnosis_of(r) == diagnosed(
            ops,
            force,
            component@,
            goal,
            n_axes,
            sigma_factor,
            max_steps as nat,
        ),
        r matches Ok(Some(d)) ==> {
            &&& d.propagated@.well_formed()
            &&& d.propagated@.params.len() == component@.params.len()
            &&& d.augmented_stm@.well_formed()
            &&& d.augmented_stm@.nrows == component@.cov.nrows
            &&& d.augmented_stm@.ncols == component@.cov.nrows
        },
{
    if n_axes == 0 {
        return Err(Error::ValueError(ValueFault::NoAxes));
    }
    if !sigma_factor.is_finite() || sigma_factor.less_or_equal(F64::from_bits(constants::ZERO)) {
        return Err(Error::ValueError(ValueFault::BadSigmaFactor));
    }
    let step = match propagate_step(ops, force, component, goal, max_steps) {
        Err(e) => {
            return Err(e);
        },
        Ok(None) => {
            return Ok(None);
        },
        Ok(Some(step)) => step,
    };
    let size = component.cov_matrix.nrows;
    let n: usize = if n_axes < size {
        n_axes
    } else {
        size
    };
    let found = find_points(ops, &component.cov_matrix, &step.sens, sigma_factor, n);
    assert(point_models(found@).len() == found@.len());
    match find_misses(
        ops,
        force,
        component,
        &step.propagated.state,
        &found,
        goal,
        max_steps,
        found.len(),
    ) {
        Err(e) => Err(e),
        Ok(None) => Ok(None),
        Ok(Some(v)) => {
            let augmented_stm = stm::augment(&step.sens);
            Ok(
                Some(
                    LinearityDiagnosis {
                        propagated: step.propagated,
                        divergence: find_highest(&v),
                        augmented_stm,
                    },
                ),
            )
        },
    }
}

/// How far from linear the propagation of a component is.
pub fn sigma_point_divergence<
    A: Algebra,
    F: AnalyticForce<A, Frame = Equatorial, Center = SSB>,
>(
    ops: &A,
    force: &F,
    component: &UncertainState<Equatorial, SSB>,
    goal: Time,
    n_axes: usize,
    sigma_factor: F64,
    max_steps: u64,
) -> (r: KeteResult<Option<F64>>)
    requires
        ops.lawful(),
        force.well_formed(),
        force.accepts(force.n_params()),
        stm::augmented_len(force.n_params()) <= usize::MAX,
        component@.well_formed(),
    ensures
        r == divergence_of(
            diagnosed(
                ops,
                force,
                component@,
                goal,
                n_axes,
                sigma_factor,
                max_steps as nat,
            ),
        ),
{
    match propagate_with_diagnosis(
        ops,
        force,
        component,
        goal,
        n_axes,
        sigma_factor,
        max_steps,
    ) {
        Err(e) => Err(e),
        Ok(None) => Ok(None),
        Ok(Some(d)) => Ok(Some(d.divergence)),
    }
}

/// The divergence of a diagnosis, where there is one.
pub open spec fn divergence_of(r: KeteResult<Option<DiagnosisModel>>) -> KeteResult<Option<F64>> {
    match r {
        Err(e) => Err(e),
        Ok(None) => Ok(None),
        Ok(Some(d)) => Ok(Some(d.divergence)),
    }
}

/// The divergences of the first `n` components, or the first fault.
pub open spec fn divergences<A: Algebra, F: AnalyticForce<A, Frame = Equatorial, Center = SSB>>(
    ops: &A,
    force: &F,
    components: Seq<UncertainModel<Equatorial, SSB>>,
    goal: Time,
    n_axes: usize,
    sigma_factor: F64,
    max_steps: nat,
    n: nat,
) -> KeteResult<Option<Seq<F64>>>
    decreases n,
{
    if n == 0 {
        Ok(Some(Seq::empty()))
    } else {
        match divergences(
            ops,
            force,
            components,
            goal,
            n_axes,
            sigma_factor,
            max_steps,
            (n - 1) as nat,
        ) {
            Err(e) => Err(e),
            Ok(None) => Ok(None),
            Ok(Some(so_far)) => match divergence_of(
                diagnosed(
                    ops,
                    force,
                    components[n - 1],
                    goal,
                    n_axes,
                    sigma_factor,
                    max_steps,
                ),
            ) {
                Err(e) => Err(e),
                Ok(None) => Ok(None),
                Ok(Some(x)) => Ok(Some(so_far.push(x))),
            },
        }
    }
}

/// A fault of the first components is the fault of all.
proof fn lemma_divergences_end<
    A: Algebra,
    F: AnalyticForce<A, Frame = Equatorial, Center = SSB>,
>(
    ops: &A,
    force: &F,
    components: Seq<UncertainModel<Equatorial, SSB>>,
    goal: Time,
    n_axes: usize,
    sigma_factor: F64,
    max_steps: nat,
    m: nat,
    n: nat,
)
    requires
        m <= n,
        !(divergences(ops, force, components, goal, n_axes, sigma_factor, max_steps, m) matches Ok(
            Some(_),
        )),
    ensures
        divergences(ops, force, components, goal, n_axes, sigma_factor, max_steps, n)
            == divergences(ops, force, components, goal, n_axes, sigma_factor, max_steps, m),
    decreases n - m,
{
    if m < n {
        lemma_divergences_end(
            ops,
            force,
            components,
            goal,
            n_axes,
            sigma_factor,
            max_steps,
            m,
            (n - 1) as nat,
        );
    }
}

/// How far from linear the propagation of each component of a mixture is, in their order.
pub fn mixture_sigma_point_divergence<
    A: Algebra,
    F: AnalyticForce<A, Frame = Equatorial, Center = SSB>,
>(
    ops: &A,
    force: &F,
    mixture: &DiffuseState<Equatorial, SSB>,
    goal: Time,
    n_axes: usize,
    sigma_factor: F64,
    max_steps: u64,
) -> (r: KeteResult<Option<Vec<F64>>>)
    requires
        ops.lawful(),
        force.well_formed(),
        force.accepts(force.n_params()),
        stm::augmented_len(force.n_params()) <= usize::MAX,
        mixture.well_formed(),
    ensures
        some_numbers(r) == divergences(
            ops,
            force,
            diffuse::models(mixture.components@),
            goal,
            n_axes,
            sigma_factor,
            max_steps as nat,
            mixture.components@.len(),
        ),
{
    let ghost all = diffuse::models(mixture.components@);
    let mut found: Vec<F64> = Vec::new();
    let mut i: usize = 0;
    assert(found@ =~= Seq::empty());
    while i < mixture.components.len()
        invariant
            ops.lawful(),
            force.well_formed(),
            force.accepts(force.n_params()),
            stm::augmented_len(force.n_params()) <= usize::MAX,
            mixture.well_formed(),
            all == diffuse::models(mixture.components@),
            i <= mixture.components@.len(),
            divergences(
                ops,
                force,
                all,
                goal,
                n_axes,
                sigma_factor,
                max_steps as nat,
                i as nat,
            ) == Ok::<Option<Seq<F64>>, Error>(Some(found@)),
        decreases mixture.components@.len() - i,
    {
        assert(mixture.components@[i as int]@.well_formed());
        let one = sigma_point_divergence(
            ops,
            force,
            &mixture.components[i],
            goal,
            n_axes,
            sigma_factor,
            max_steps,
        );
        match one {
            Ok(Some(x)) => {
                found.push(x);
            },
            Err(e) => {
                proof {
                    lemma_divergences_end(
                        ops,
                        force,
                        all,
                        goal,
                        n_axes,
                        sigma_factor,
                        max_steps as nat,
                        i as nat + 1,
                        all.len(),
                    );
                }
                return Err(e);
            },
            Ok(None) => {
                proof {
                    lemma_divergences_end(
                        ops,
                        force,
                        all,
                        goal,
                        n_axes,
                        sigma_factor,
                        max_steps as nat,
                        i as nat + 1,
                        all.len(),
                    );
                }
                return Ok(None);
            },
        }
        i = i + 1;
    }
    Ok(Some(found))
}

// ---------------------------------------------------------------------------
// Splitting on the way
// ---------------------------------------------------------------------------

/// Bits of 0.05, the usual divergence above which a component is split.
pub const DEFAULT_THRESHOLD: u64 = 0x3fa9_9999_9999_999a;

/// When components are split, and how often.
#[derive(Debug, Clone, Copy)]
pub struct SplitConfig {
    /// The divergence above which a component is split.
    pub split_threshold: F64,
    /// How many components there may be at most.
    pub max_components: usize,
    /// How often the parts of a component may be split again.
    pub max_split_depth: u32,
    /// How many eigenvectors the divergence is found by.
    pub n_axes: usize,
    /// How many standard deviations from the mean the divergence is found at.
    pub sigma_factor: F64,
    /// Components which weigh less than this are dropped at the end; zero keeps all.
    pub prune_threshold: F64,
}

impl Default for SplitConfig {
    fn default() -> (c: Self)
        ensures
            c == (SplitConfig {
                split_threshold: F64 { bits: DEFAULT_THRESHOLD },
                max_components: 64,
                max_split_depth: 4,
                n_axes: 3,
                sigma_factor: F64 { bits: constants::ONE },
                prune_threshold: F64 { bits: constants::ZERO },
            }),
    {
        SplitConfig {
            split_threshold: F64::from_bits(DEFAULT_THRESHOLD),
            max_components: 64,
            max_split_depth: 4,
            n_axes: 3,
            sigma_factor: F64::from_bits(constants::ONE),
            prune_threshold: F64::from_bits(constants::ZERO),
        }
    }
}

/// A component which waits, as numbers.
#[verifier::ext_equal]
pub struct Item {
    pub weight: F64,
    pub component: UncertainModel<Equatorial, SSB>,
    pub depth: nat,
}

/// A component which waits.
pub struct Waiting {
    /// Its weight.
    pub weight: F64,
    /// The component.
    pub component: UncertainState<Equatorial, SSB>,
    /// How often it has been split.
    pub depth: u32,
}

impl View for Waiting {
    type V = Item;

    open spec fn view(&self) -> Item {
        Item { weight: self.weight, component: self.component@, depth: self.depth as nat }
    }
}

/// Components which wait, as numbers.
pub open spec fn items(s: Seq<Waiting>) -> Seq<Item> {
    Seq::new(s.len(), |i: int| s[i]@)
}

/// The parts of a component which wait in its place.
pub open spec fn part_items<A: Arithmetic>(
    ops: &A,
    weight: F64,
    depth: nat,
    parts: Seq<PartModel<Equatorial, SSB>>,
) -> Seq<Item> {
    Seq::new(
        parts.len(),
        |k: int|
            Item {
                weight: arithmetic::product(ops, weight, parts[k].weight),
                component: parts[k].component,
                depth,
            },
    )
}

/// A split gives three parts.
pub proof fn law_three_parts<A: Algebra>(
    ops: &A,
    c: UncertainModel<Equatorial, SSB>,
    cov: Grid,
    stm: Grid,
)
    ensures
        diffuse::split_before(ops, c, cov, stm) matches Ok(parts) ==> parts.len() == 3,
{
}

/// How many more components there may be.
pub open spec fn room(max: usize, count: nat) -> nat {
    if count <= max {
        (max - count) as nat
    } else {
        0
    }
}

/// What becomes of the components which wait, after those which have settled. The first one that
/// waits is propagated. Where it is far from linear it is split instead, and its parts wait
/// behind the others, unless there would be too many components or it has been split often
/// enough.
pub open spec fn adapted<A: Algebra, F: AnalyticForce<A, Frame = Equatorial, Center = SSB>>(
    ops: &A,
    force: &F,
    goal: Time,
    config: SplitConfig,
    max_steps: nat,
    queue: Seq<Item>,
    settled: Seq<PartModel<Equatorial, SSB>>,
) -> KeteResult<Option<Seq<PartModel<Equatorial, SSB>>>>
    decreases room(config.max_components, settled.len() + queue.len()), queue.len(),
{
    if queue.len() == 0 {
        Ok(Some(settled))
    } else {
        let c = queue[0];
        let rest = queue.skip(1);
        if settled.len() + rest.len() + 3 > config.max_components || c.depth
            >= config.max_split_depth {
            match stepped(ops, force, c.component, goal, max_steps) {
                Err(e) => Err(e),
                Ok(None) => Ok(None),
                Ok(Some(s)) => adapted(
                    ops,
                    force,
                    goal,
                    config,
                    max_steps,
                    rest,
                    settled.push(PartModel { weight: c.weight, component: s.end }),
                ),
            }
        } else {
            match diagnosed(
                ops,
                force,
                c.component,
                goal,
                config.n_axes,
                config.sigma_factor,
                max_steps,
            ) {
                Err(e) => Err(e),
                Ok(None) => Ok(None),
                Ok(Some(d)) => if d.divergence.spec_le(config.split_threshold) {
                    adapted(
                        ops,
                        force,
                        goal,
                        config,
                        max_steps,
                        rest,
                        settled.push(PartModel { weight: c.weight, component: d.end }),
                    )
                } else {
                    proof {
                        law_three_parts(ops, c.component, d.end.cov, d.stm);
                    }
                    match diffuse::split_before(ops, c.component, d.end.cov, d.stm) {
                        Err(e) => Err(e),
                        Ok(parts) => adapted(
                            ops,
                            force,
                            goal,
                            config,
                            max_steps,
                            rest + part_items(ops, c.weight, c.depth + 1, parts),
                            settled,
                        ),
                    }
                },
            }
        }
    }
}

/// There are never more components than the configuration allows.
pub proof fn law_component_cap<A: Algebra, F: AnalyticForce<A, Frame = Equatorial, Center = SSB>>(
    ops: &A,
    force: &F,
    goal: Time,
    config: SplitConfig,
    max_steps: nat,
    queue: Seq<Item>,
    settled: Seq<PartModel<Equatorial, SSB>>,
)
    requires
        settled.len() + queue.len() <= config.max_components,
    ensures
        adapted(ops, force, goal, config, max_steps, queue, settled) matches Ok(Some(all))
            ==> settled.len() + queue.len() <= all.len() <= config.max_components,
    decreases room(config.max_components, settled.len() + queue.len()), queue.len(),
{
    if queue.len() > 0 {
        let c = queue[0];
        let rest = queue.skip(1);
        if settled.len() + rest.len() + 3 > config.max_components || c.depth
            >= config.max_split_depth {
            if let Ok(Some(s)) = stepped(ops, force, c.component, goal, max_steps) {
                let more = settled.push(PartModel { weight: c.weight, component: s.end });
                law_component_cap(ops, force, goal, config, max_steps, rest, more);
            }
        } else if let Ok(Some(d)) = diagnosed(
            ops,
            force,
            c.component,
            goal,
            config.n_axes,
            config.sigma_factor,
            max_steps,
        ) {
            if d.divergence.spec_le(config.split_threshold) {
                let more = settled.push(PartModel { weight: c.weight, component: d.end });
                law_component_cap(ops, force, goal, config, max_steps, rest, more);
            } else if let Ok(parts) = diffuse::split_before(
                ops,
                c.component,
                d.end.cov,
                d.stm,
            ) {
                law_three_parts(ops, c.component, d.end.cov, d.stm);
                law_component_cap(
                    ops,
                    force,
                    goal,
                    config,
                    max_steps,
                    rest + part_items(ops, c.weight, c.depth + 1, parts),
                    settled,
                );
            }
        }
    }
}

/// Every component which has settled is at the goal.
pub proof fn law_settled_at_goal<
    A: Algebra,
    F: AnalyticForce<A, Frame = Equatorial, Center = SSB>,
>(
    ops: &A,
    force: &F,
    goal: Time,
    config: SplitConfig,
    max_steps: nat,
    queue: Seq<Item>,
    settled: Seq<PartModel<Equatorial, SSB>>,
)
    requires
        forall|i: int|
            0 <= i < settled.len() ==> (#[trigger] settled[i]).component.state.epoch == goal,
    ensures
        adapted(ops, force, goal, config, max_steps, queue, settled) matches Ok(Some(all))
            ==> forall|i: int|
            0 <= i < all.len() ==> (#[trigger] all[i]).component.state.epoch == goal,
    decreases room(config.max_components, settled.len() + queue.len()), queue.len(),
{
    if queue.len() > 0 {
        let c = queue[0];
        let rest = queue.skip(1);
        if settled.len() + rest.len() + 3 > config.max_components || c.depth
            >= config.max_split_depth {
            if let Ok(Some(s)) = stepped(ops, force, c.component, goal, max_steps) {
                let more = settled.push(PartModel { weight: c.weight, component: s.end });
                law_settled_at_goal(ops, force, goal, config, max_steps, rest, more);
            }
        } else if let Ok(Some(d)) = diagnosed(
            ops,
            force,
            c.component,
            goal,
            config.n_axes,
            config.sigma_factor,
            max_steps,
        ) {
            if d.divergence.spec_le(config.split_threshold) {
                let more = settled.push(PartModel { weight: c.weight, component: d.end });
                law_settled_at_goal(ops, force, goal, config, max_steps, rest, more);
            } else if let Ok(parts) = diffuse::split_before(
                ops,
                c.component,
                d.end.cov,
                d.stm,
            ) {
                law_three_parts(ops, c.component, d.end.cov, d.stm);
                law_settled_at_goal(
                    ops,
                    force,
                    goal,
                    config,
                    max_steps,
                    rest + part_items(ops, c.weight, c.depth + 1, parts),
                    settled,
                );
            }
        }
    }
}

/// The weights and components of a mixture, as numbers.
#[verifier::ext_equal]
pub struct MixtureModel {
    pub weights: Seq<F64>,
    pub components: Seq<UncertainModel<Equatorial, SSB>>,
}

/// A mixture as numbers, where there is one.
pub open spec fn mixture_of(r: KeteResult<Option<DiffuseState<Equatorial, SSB>>>) -> KeteResult<
    Option<MixtureModel>,
> {
    match r {
        Err(e) => Err(e),
        Ok(None) => Ok(None),
        Ok(Some(d)) => Ok(
            Some(
                MixtureModel { weights: d.weights@, components: diffuse::models(d.components@) },
            ),
        ),
    }
}

/// The mixture of parts, pruned where that is asked for.
pub open spec fn mixed<A: Arithmetic>(
    ops: &A,
    parts: Seq<PartModel<Equatorial, SSB>>,
    least: F64,
) -> KeteResult<MixtureModel> {
    let weights = Seq::new(parts.len(), |i: int| parts[i].weight);
    let components = Seq::new(parts.len(), |i: int| parts[i].component);
    let left = diffuse::kept_weights(weights, least, weights.len());
    match diffuse::mixture_fault(ops, weights, components) {
        Some(f) => Err(Error::ValueError(f)),
        None => if !(F64 { bits: constants::ZERO }).spec_lt(least) {
            Ok(MixtureModel { weights, components })
        } else {
            match diffuse::prune_fault(ops, weights, least) {
                Some(f) => Err(Error::ValueError(f)),
                None => Ok(
                    MixtureModel {
                        weights: numbers::parts(
                            ops,
                            left,
                            diffuse::total(ops, left, left.len()),
                        ),
                        components: diffuse::kept(weights, components, least, weights.len()),
                    },
                ),
            }
        },
    }
}

/// The components of a mixture, none of which has been split yet.
pub open spec fn start_items(
    weights: Seq<F64>,
    components: Seq<UncertainModel<Equatorial, SSB>>,
) -> Seq<Item> {
    Seq::new(
        weights.len(),
        |i: int| Item { weight: weights[i], component: components[i], depth: 0 },
    )
}

/// A mixture propagated to `goal`, with components split where they are far from linear.
pub open spec fn adaptively<A: Algebra, F: AnalyticForce<A, Frame = Equatorial, Center = SSB>>(
    ops: &A,
    force: &F,
    weights: Seq<F64>,
    components: Seq<UncertainModel<Equatorial, SSB>>,
    goal: Time,
    config: SplitConfig,
    max_steps: nat,
) -> KeteResult<Option<MixtureModel>> {
    if !config.split_threshold.finite() || config.split_threshold.spec_lt(
        F64 { bits: constants::ZERO },
    ) {
        Err(Error::ValueError(ValueFault::BadSplitThreshold))
    } else if config.max_components < components.len() {
        Err(
            Error::ValueError(
                ValueFault::TooManyComponents {
                    most: config.max_components,
                    count: components.len() as usize,
                },
            ),
        )
    } else {
        match adapted(
            ops,
            force,
            goal,
            config,
            max_steps,
            start_items(weights, components),
            Seq::empty(),
        ) {
            Err(e) => Err(e),
            Ok(None) => Ok(None),
            Ok(Some(parts)) => match mixed(ops, parts, config.prune_threshold) {
                Err(e) => Err(e),
                Ok(m) => Ok(Some(m)),
            },
        }
    }
}

/// The weights and the components of parts.
pub open spec fn settled_models(
    weights: Seq<F64>,
    components: Seq<UncertainState<Equatorial, SSB>>,
) -> Seq<PartModel<Equatorial, SSB>> {
    Seq::new(
        weights.len(),
        |i: int| PartModel { weight: weights[i], component: components[i]@ },
    )
}

/// Propagate a mixture, and split components on the way where they are far from linear.
pub fn propagate_diffuse_state_adaptive<
    A: Algebra,
    F: AnalyticForce<A, Frame = Equatorial, Center = SSB>,
>(
    ops: &A,
    force: &F,
    diffuse: &DiffuseState<Equatorial, SSB>,
    goal: Time,
    config: &SplitConfig,
    max_steps: u64,
) -> (r: KeteResult<Option<DiffuseState<Equatorial, SSB>>>)
    requires
        ops.lawful(),
        force.well_formed(),
        force.accepts(force.n_params()),
        stm::augmented_len(force.n_params()) <= usize::MAX,
        diffuse.well_formed(),
    ensures
        mixture_of(r) == adaptively(
            ops,
            force,
            diffuse.weights@,
            diffuse::models(diffuse.components@),
            goal,
            *config,
            max_steps as nat,
        ),
        r matches Ok(Some(d)) ==> d.well_formed(),
{
    let zero = F64::from_bits(constants::ZERO);
    if !config.split_threshold.is_finite() || config.split_threshold.less(zero) {
        return Err(Error::ValueError(ValueFault::BadSplitThreshold));
    }
    if config.max_components < diffuse.components.len() {
        return Err(
            Error::ValueError(
                ValueFault::TooManyComponents {
                    most: config.max_components,
                    count: diffuse.components.len(),
                },
            ),
        );
    }
    let queue = enqueue(diffuse);
    let ghost start = items(queue@);
    let (weights, components) = match settle(ops, force, goal, config, max_steps, queue) {
        Err(e) => {
            return Err(e);
        },
        Ok(None) => {
            return Ok(None);
        },
        Ok(Some(parts)) => parts,
    };
    let ghost parts = settled_models(weights@, components@);
    assert(Seq::new(parts.len(), |i: int| parts[i].weight) =~= weights@);
    assert(Seq::new(parts.len(), |i: int| parts[i].component) =~= diffuse::models(components@));
    match DiffuseState::new(ops, weights, components) {
        Err(e) => Err(e),
        Ok(mixture) => {
            let mut mixture = mixture;
            if zero.less(config.prune_threshold) {
                match mixture.prune(ops, config.prune_threshold) {
                    Err(e) => {
                        return Err(e);
                    },
                    Ok(_) => {},
                }
            }
            Ok(Some(mixture))
        },
    }
}

/// The components of a mixture, which wait to be propagated.
fn enqueue(diffuse: &DiffuseState<Equatorial, SSB>) -> (queue: VecDeque<Waiting>)
    requires
        diffuse.well_formed(),
    ensures
        items(queue@) == start_items(diffuse.weights@, diffuse::models(diffuse.components@)),
        forall|i: int| 0 <= i < queue@.len() ==> (#[trigger] queue@[i]).component@.well_formed(),
{
    let mut queue: VecDeque<Waiting> = VecDeque::new();
    let ghost want = start_items(diffuse.weights@, diffuse::models(diffuse.components@));
    let mut i: usize = 0;
    while i < diffuse.components.len()
        invariant
            diffuse.well_formed(),
            want == start_items(diffuse.weights@, diffuse::models(diffuse.components@)),
            i <= diffuse.components@.len(),
            items(queue@) == want.take(i as int),
            forall|i: int|
                0 <= i < queue@.len() ==> (#[trigger] queue@[i]).component@.well_formed(),
        decreases diffuse.components@.len() - i,
    {
        assert(diffuse.components@[i as int]@.well_formed());
        let waiting = Waiting {
            weight: diffuse.weights[i],
            component: diffuse.components[i].clone(),
            depth: 0,
        };
        let ghost before = queue@;
        queue.push_back(waiting);
        assert(items(queue@) =~= items(before).push(waiting@));
        i = i + 1;
        assert(items(queue@) =~= want.take(i as int));
    }
    assert(items(queue@) =~= want);
    queue
}

/// Put the parts of a component at the end of those that wait.
fn enqueue_parts<A: Arithmetic>(
    ops: &A,
    queue: &mut VecDeque<Waiting>,
    weight: F64,
    depth: u32,
    parts: Vec<Part<Equatorial, SSB>>,
)
    requires
        ops.lawful(),
        forall|i: int|
            0 <= i < old(queue)@.len() ==> (#[trigger] old(queue)@[i]).component@.well_formed(),
        parts@.len() == 3,
        forall|k: int| 0 <= k < 3 ==> (#[trigger] parts@[k]).component@.well_formed(),
    ensures
        items(final(queue)@) == items(old(queue)@) + part_items(
            ops,
            weight,
            depth as nat,
            diffuse::part_models(parts@),
        ),
        forall|i: int|
            0 <= i < final(queue)@.len() ==> (#[trigger] final(queue)@[i]).component@.well_formed(),
{
    let ghost all = parts@;
    let ghost first = queue@;
    let ghost want = part_items(ops, weight, depth as nat, diffuse::part_models(all));
    let mut parts = parts;
    let mut k: usize = 0;
    assert(items(queue@) =~= items(first) + want.take(0));
    while k < 3
        invariant
            ops.lawful(),
            k <= 3,
            all.len() == 3,
            parts@ == all.skip(k as int),
            want == part_items(ops, weight, depth as nat, diffuse::part_models(all)),
            items(queue@) == items(first) + want.take(k as int),
            forall|i: int|
                0 <= i < queue@.len() ==> (#[trigger] queue@[i]).component@.well_formed(),
            forall|k: int| 0 <= k < 3 ==> (#[trigger] all[k]).component@.well_formed(),
        decreases 3 - k,
    {
        let part = parts.remove(0);
        assert(part == all[k as int]);
        assert(parts@ =~= all.skip(k + 1));
        let waiting = Waiting {
            weight: arithmetic::times(ops, weight, part.weight),
            component: part.component,
            depth,
        };
        assert(waiting@ == want[k as int]);
        let ghost before = queue@;
        queue.push_back(waiting);
        assert(items(queue@) =~= items(before).push(waiting@));
        k = k + 1;
        assert(items(queue@) =~= items(first) + want.take(k as int));
    }
    assert(want.take(3) =~= want);
}

/// The weights and components which come of those that wait.
fn settle<A: Algebra, F: AnalyticForce<A, Frame = Equatorial, Center = SSB>>(
    ops: &A,
    force: &F,
    goal: Time,
    config: &SplitConfig,
    max_steps: u64,
    queue: VecDeque<Waiting>,
) -> (r: KeteResult<Option<(Vec<F64>, Vec<UncertainState<Equatorial, SSB>>)>>)
    requires
        ops.lawful(),
        force.well_formed(),
        force.accepts(force.n_params()),
        stm::augmented_len(force.n_params()) <= usize::MAX,
        queue@.len() <= config.max_components,
        forall|i: int| 0 <= i < queue@.len() ==> (#[trigger] queue@[i]).component@.well_formed(),
    ensures
        match adapted(
            ops,
            force,
            goal,
            *config,
            max_steps as nat,
            items(queue@),
            Seq::empty(),
        ) {
            Err(e) => r == Err::<
                Option<(Vec<F64>, Vec<UncertainState<Equatorial, SSB>>)>,
                Error,
            >(e),
            Ok(None) => r == Ok::<
                Option<(Vec<F64>, Vec<UncertainState<Equatorial, SSB>>)>,
                Error,
            >(None),
            Ok(Some(parts)) => {
                &&& r is Ok
                &&& r->Ok_0 is Some
                &&& r->Ok_0->Some_0.0@.len() == r->Ok_0->Some_0.1@.len()
                &&& settled_models(r->Ok_0->Some_0.0@, r->Ok_0->Some_0.1@) == parts
                &&& forall|i: int|
                    0 <= i < r->Ok_0->Some_0.1@.len()
                        ==> (#[trigger] r->Ok_0->Some_0.1@[i])@.well_formed()
            },
        },
{
    let ghost whole = adapted(
        ops,
        force,
        goal,
        *config,
        max_steps as nat,
        items(queue@),
        Seq::empty(),
    );
    let mut waiting = queue;
    let mut weights: Vec<F64> = Vec::new();
    let mut components: Vec<UncertainState<Equatorial, SSB>> = Vec::new();
    assert(settled_models(weights@, components@) =~= Seq::empty());
    loop
        invariant
            ops.lawful(),
            force.well_formed(),
            force.accepts(force.n_params()),
            stm::augmented_len(force.n_params()) <= usize::MAX,
            whole == adapted(
                ops,
                force,
                goal,
                *config,
                max_steps as nat,
                items(waiting@),
                settled_models(weights@, components@),
            ),
            weights@.len() == components@.len(),
            weights@.len() + waiting@.len() <= config.max_components,
            forall|i: int|
                0 <= i < waiting@.len() ==> (#[trigger] waiting@[i]).component@.well_formed(),
            forall|i: int|
                0 <= i < components@.len() ==> (#[trigger] components@[i])@.well_formed(),
            whole == adapted(
                ops,
                force,
                goal,
                *config,
                max_steps as nat,
                items(queue@),
                Seq::empty(),
            ),
        decreases config.max_components - (weights@.len() + waiting@.len()), waiting@.len(),
    {
        let ghost before = waiting@;
        let ghost done = settled_models(weights@, components@);
        let c = match waiting.pop_front() {
            None => {
                assert(items(before) =~= Seq::empty());
                return Ok(Some((weights, components)));
            },
            Some(c) => c,
        };
        assert(items(before)[0] == c@);
        assert(items(waiting@) =~= items(before).skip(1));
        assert(before[0].component@.well_formed());
        assert forall|i: int| 0 <= i < waiting@.len() implies (
        #[trigger] waiting@[i]).component@.well_formed() by {
            assert(waiting@[i] == before[i + 1]);
        }
        let left: usize = config.max_components - weights.len() - waiting.len();
        if left < 3 || c.depth >= config.max_split_depth {
            match propagate_step(ops, force, &c.component, goal, max_steps) {
                Err(e) => {
                    return Err(e);
                },
                Ok(None) => {
                    return Ok(None);
                },
                Ok(Some(s)) => {
                    weights.push(c.weight);
                    components.push(s.propagated);
                    assert(settled_models(weights@, components@) =~= done.push(
                        PartModel { weight: c.weight, component: s.propagated@ },
                    ));
                },
            }
        } else {
            match propagate_with_diagnosis(
                ops,
                force,
                &c.component,
                goal,
                config.n_axes,
                config.sigma_factor,
                max_steps,
            ) {
                Err(e) => {
                    return Err(e);
                },
                Ok(None) => {
                    return Ok(None);
                },
                Ok(Some(d)) => {
                    if d.divergence.less_or_equal(config.split_threshold) {
                        weights.push(c.weight);
                        components.push(d.propagated);
                        assert(settled_models(weights@, components@) =~= done.push(
                            PartModel { weight: c.weight, component: d.propagated@ },
                        ));
                    } else {
                        match diffuse::split_for_propagation(
                            ops,
                            &c.component,
                            &d.propagated.cov_matrix,
                            &d.augmented_stm,
                        ) {
                            Err(e) => {
                                return Err(e);
                            },
                            Ok(parts) => {
                                enqueue_parts(ops, &mut waiting, c.weight, c.depth + 1, parts);
                                assert(items(waiting@).len() == waiting@.len());
                            },
                        }
                    }
                },
            }
        }
    }
}

/// Are the operations exact by which entry `i` of the points along an eigenvector is found.
pub open spec fn exact_points<A: Arithmetic>(
    ops: &A,
    v: Reading,
    e: Spectrum,
    sens: Grid,
    sigma_factor: F64,
    axis: int,
    i: int,
) -> bool {
    let one = F64 { bits: constants::ONE };
    let root = ops.one(Unary::Sqrt, e.values[axis]);
    let scale = arithmetic::product(ops, sigma_factor, root);
    let delta = numbers::scaled(ops, numbers::column(e.vectors.cells, axis), scale);
    let linear = sens.applied(ops, delta);
    &&& v(one) == 1real
    &&& v(one.negated()) == -1real
    &&& orbits::roots(ops, v, e.values[axis])
    &&& orbits::multiplies(ops, v, sigma_factor, root)
    &&& orbits::multiplies(ops, v, e.vectors.at(i, axis), scale)
    &&& orbits::multiplies(ops, v, delta[i], one)
    &&& orbits::multiplies(ops, v, delta[i], one.negated())
    &&& i < sens.nrows ==> {
        &&& exact::dots_up(ops, v, sens.cells[i], delta, sens.ncols)
        &&& orbits::multiplies(ops, v, linear[i], one)
        &&& orbits::multiplies(ops, v, linear[i], one.negated())
    }
}

/// The points along an eigenvector are as many standard deviations away from the mean as asked for,
/// one to each side: the standard deviation `sigma` is the root of the eigenvalue. Where linear
/// propagation takes them is mirrored as well.
pub proof fn law_points<A: Arithmetic>(
    ops: &A,
    v: Reading,
    e: Spectrum,
    sens: Grid,
    sigma_factor: F64,
    axis: int,
    i: int,
    sigma: real,
)
    requires
        0 <= axis < e.values.len(),
        e.vectors.well_formed(),
        e.vectors.nrows == e.values.len(),
        e.vectors.ncols == e.values.len(),
        sens.ncols == e.values.len(),
        sens.well_formed(),
        0 <= i < e.values.len(),
        e.values[axis].finite(),
        !e.values[axis].spec_le(F64 { bits: constants::ZERO }),
        exact_points(ops, v, e, sens, sigma_factor, axis, i),
        0real <= sigma,
        sigma * sigma == v(e.values[axis]),
    ensures
        ({
            let p = points_along(ops, e, sens, sigma_factor, axis);
            let far = (v(sigma_factor) * sigma) * v(e.vectors.at(i, axis));
            &&& p.len() == 2
            &&& v(p[0].delta[i]) == far
            &&& v(p[1].delta[i]) == -far
            &&& i < sens.nrows ==> v(p[0].linear[i]) == -v(p[1].linear[i])
        }),
{
    let root = ops.one(Unary::Sqrt, e.values[axis]);
    conics::lemma_same_square(sigma, v(root));
    let scale = arithmetic::product(ops, sigma_factor, root);
    let delta = numbers::scaled(ops, numbers::column(e.vectors.cells, axis), scale);
    let linear = sens.applied(ops, delta);
    let x = v(e.vectors.at(i, axis));
    rounding::lemma_order(x, v(scale), 1real);
    rounding::lemma_minus(v(delta[i]), 1real);
    assert(numbers::column(e.vectors.cells, axis)[i] == e.vectors.at(i, axis));
    if i < sens.nrows {
        rounding::lemma_minus(v(linear[i]), 1real);
    }
}

/// Are the operations exact by which a propagated point is held against linear propagation.
pub open spec fn exact_miss<A: Arithmetic>(
    ops: &A,
    v: Reading,
    mean: State<Equatorial, SSB>,
    there: Motion<Equatorial>,
    linear: Seq<F64>,
) -> bool {
    let (a, b) = (uncertain::six(there.pos, there.vel), uncertain::six(mean.pos, mean.vel));
    let off = numbers::differences(ops, a, b);
    let rest = numbers::differences(ops, off, linear);
    let scale = diffuse::norm(ops, linear);
    &&& v(F64 { bits: constants::ZERO }) == 0real
    &&& forall|k: int|
        0 <= k < 6 ==> orbits::subtracts(ops, v, #[trigger] a[k], b[k]) && orbits::subtracts(
            ops,
            v,
            off[k],
            linear[k],
        )
    &&& exact::dots_up(ops, v, rest, rest, 6)
    &&& orbits::roots(ops, v, numbers::dot(ops, rest, rest, 6))
    &&& v(scale) != 0real
    &&& orbits::divides(ops, v, diffuse::norm(ops, rest), scale)
}

/// A point which goes where linear propagation takes it is not missed.
pub proof fn law_linear_is_no_miss<A: Arithmetic>(
    ops: &A,
    v: Reading,
    mean: State<Equatorial, SSB>,
    there: Motion<Equatorial>,
    linear: Seq<F64>,
)
    requires
        linear.len() == 6,
        exact_miss(ops, v, mean, there, linear),
        forall|k: int|
            0 <= k < 6 ==> v(#[trigger] uncertain::six(there.pos, there.vel)[k]) == v(
                uncertain::six(mean.pos, mean.vel)[k],
            ) + v(linear[k]),
    ensures
        v(relative_miss(ops, mean, there, linear)) == 0real,
{
    let (a, b) = (uncertain::six(there.pos, there.vel), uncertain::six(mean.pos, mean.vel));
    let off = numbers::differences(ops, a, b);
    let rest = numbers::differences(ops, off, linear);
    exact::lemma_dots_up(ops, v, rest, rest, 6);
    let f = |k: int| v(rest[k]) * v(rest[k]);
    let g = |k: int| 0real;
    assert forall|k: int| 0 <= k < 6 implies #[trigger] f(k) == g(k) by {
        assert(orbits::subtracts(ops, v, a[k], b[k]));
        assert(v(a[k]) == v(b[k]) + v(linear[k]));
        rounding::lemma_minus(0real, 1real);
    }
    exact::lemma_total_same(f, g, 6);
    reveal_with_fuel(exact::total, 7);
    let r = v(diffuse::norm(ops, rest));
    conics::lemma_square(r);
    let scale = diffuse::norm(ops, linear);
    if !scale.spec_le(F64 { bits: constants::ZERO }) {
        let q = v(relative_miss(ops, mean, there, linear));
        assert(q * v(scale) == 0real);
        conics::lemma_square(q * v(scale));
        if q != 0real {
            conics::lemma_square(q);
            conics::lemma_square(v(scale));
            rounding::lemma_factors(q, v(scale), q, v(scale));
            conics::lemma_positive(q * q, v(scale) * v(scale));
            rounding::lemma_minus(0real, 1real);
        }
    }
}

} // verus!
