//! Mixtures of uncertain states together with the forces that were fitted.
use crate::algebra::Algebra;
use crate::arithmetic::Arithmetic;
use crate::errors::{Error, KeteResult, ValueFault};
use crate::float::F64;
use crate::forces::traits;
use crate::forces::traits::{AnalyticForce, ParameterizedForce};
use crate::forces::nongrav::NonGravKind;
use crate::forces::NonGravMask;
use crate::frames::{DynCenter, Equatorial, SSB};
use crate::numbers;
use crate::python::nongrav::PyNonGravModel;
use crate::python::state;
use crate::python::uncertain as shown;
use crate::python::uncertain::{PyUncertainState, Samples};
use crate::state::adaptive;
use crate::state::adaptive::SplitConfig;
use crate::state::diffuse;
use crate::state::diffuse::DiffuseState;
use crate::state::stm;
use crate::state::uncertain::{UncertainModel, UncertainState};
use crate::state::State;
use crate::time::Time;
use vstd::prelude::*;

verus! {

/// A mixture of uncertain states and the force that their parameters belong to.
#[derive(Clone)]
pub struct PyDiffuseState {
    /// The mixture.
    pub mixture: DiffuseState<Equatorial, DynCenter>,
    /// The force other than gravity, with all parameters free. Their values are with the
    /// components.
    pub non_grav: Option<NonGravMask>,
}

/// Are two numbers of the same value, where NaN is of the value of NaN.
pub open spec fn same_value(a: F64, b: F64) -> bool {
    a.same(b) || (a.nan() && b.nan())
}

/// Are two forces of one kind, with coefficients of the same values.
pub open spec fn same_shape(a: NonGravKind, b: NonGravKind) -> bool {
    match (a, b) {
        (NonGravKind::Dust(_), NonGravKind::Dust(_)) => true,
        (NonGravKind::JplComet(a), NonGravKind::JplComet(b)) => {
            &&& same_value(a.alpha, b.alpha)
            &&& same_value(a.r_0, b.r_0)
            &&& same_value(a.m, b.m)
            &&& same_value(a.n, b.n)
            &&& same_value(a.k, b.k)
            &&& same_value(a.dt, b.dt)
        },
        (NonGravKind::Farnocchia(a), NonGravKind::Farnocchia(b)) => {
            &&& same_value(a.albedo, b.albedo)
            &&& same_value(a.absorptivity, b.absorptivity)
            &&& same_value(a.flattening, b.flattening)
            &&& same_value(a.spin_pole.x, b.spin_pole.x)
            &&& same_value(a.spin_pole.y, b.spin_pole.y)
            &&& same_value(a.spin_pole.z, b.spin_pole.z)
        },
        _ => false,
    }
}

/// Are two parameters both free, or both held at the same value.
pub open spec fn same_hold(a: Option<F64>, b: Option<F64>) -> bool {
    match (a, b) {
        (None, None) => true,
        (Some(a), Some(b)) => same_value(a, b),
        _ => false,
    }
}

/// Are the same parameters held at the same values.
pub open spec fn same_holds(a: Seq<Option<F64>>, b: Seq<Option<F64>>) -> bool {
    a.len() == b.len() && forall|i: int| 0 <= i < a.len() ==> #[trigger] same_hold(a[i], b[i])
}

/// Are two forces the same, up to the values of their free parameters: of one kind, with the same
/// coefficients, and with the same parameters held at the same values; or is there none.
pub open spec fn same_force(a: Option<NonGravMask>, b: Option<NonGravMask>) -> bool {
    match (a, b) {
        (None, None) => true,
        (Some(a), Some(b)) => same_shape(a.inner, b.inner) && same_holds(a.mask@, b.mask@),
        _ => false,
    }
}

/// Are two numbers of the same value, where NaN is of the value of NaN.
fn same_number(a: F64, b: F64) -> (r: bool)
    ensures
        r == same_value(a, b),
{
    a.equals(b) || (a.is_nan() && b.is_nan())
}

/// Are two forces of one kind, with coefficients of the same values.
fn same_kind(a: &NonGravKind, b: &NonGravKind) -> (r: bool)
    ensures
        r == same_shape(*a, *b),
{
    match (a, b) {
        (NonGravKind::Dust(_), NonGravKind::Dust(_)) => true,
        (NonGravKind::JplComet(a), NonGravKind::JplComet(b)) => {
            same_number(a.alpha, b.alpha) && same_number(a.r_0, b.r_0) && same_number(a.m, b.m)
                && same_number(a.n, b.n) && same_number(a.k, b.k) && same_number(a.dt, b.dt)
        },
        (NonGravKind::Farnocchia(a), NonGravKind::Farnocchia(b)) => {
            same_number(a.albedo, b.albedo) && same_number(a.absorptivity, b.absorptivity)
                && same_number(a.flattening, b.flattening) && same_number(
                a.spin_pole.x,
                b.spin_pole.x,
            ) && same_number(a.spin_pole.y, b.spin_pole.y) && same_number(
                a.spin_pole.z,
                b.spin_pole.z,
            )
        },
        _ => false,
    }
}

/// Are the same parameters held at the same values.
fn same_mask(a: &Vec<Option<F64>>, b: &Vec<Option<F64>>) -> (r: bool)
    ensures
        r == same_holds(a@, b@),
{
    if a.len() != b.len() {
        return false;
    }
    let mut i: usize = 0;
    while i < a.len()
        invariant
            a@.len() == b@.len(),
            i <= a@.len(),
            forall|k: int| 0 <= k < i ==> #[trigger] same_hold(a@[k], b@[k]),
        decreases a@.len() - i,
    {
        let same = match (a[i], b[i]) {
            (None, None) => true,
            (Some(x), Some(y)) => same_number(x, y),
            _ => false,
        };
        assert(same == same_hold(a@[i as int], b@[i as int]));
        if !same {
            return false;
        }
        i = i + 1;
    }
    true
}

/// Are two forces the same, up to the values of their free parameters, or is there none.
fn check_same_force(a: &Option<NonGravMask>, b: &Option<NonGravMask>) -> (r: bool)
    ensures
        r == same_force(*a, *b),
{
    match (a, b) {
        (None, None) => true,
        (Some(a), Some(b)) => same_kind(&a.inner, &b.inner) && same_mask(&a.mask, &b.mask),
        _ => false,
    }
}

/// The first component from `i` on whose force is not that of the first one.
pub open spec fn odd_force(components: Seq<PyUncertainState>, i: int) -> Option<int>
    decreases components.len() - i,
{
    if i >= components.len() {
        None
    } else if !same_force(components[0].non_grav, components[i].non_grav) {
        Some(i)
    } else {
        odd_force(components, i + 1)
    }
}

/// The uncertain states inside.
pub open spec fn inner_models(s: Seq<PyUncertainState>) -> Seq<
    UncertainModel<Equatorial, DynCenter>,
> {
    Seq::new(s.len(), |i: int| s[i].state@)
}

/// Uncertain states moved to the barycenter.
pub open spec fn all_there(
    u: Seq<UncertainModel<Equatorial, DynCenter>>,
    s: Seq<State<Equatorial, SSB>>,
) -> Seq<UncertainModel<Equatorial, SSB>> {
    Seq::new(u.len(), |i: int| shown::moved_there(u[i], s[i]))
}

/// Uncertain states around a center which is known at run time only.
pub open spec fn all_back(u: Seq<UncertainModel<Equatorial, SSB>>) -> Seq<
    UncertainModel<Equatorial, DynCenter>,
> {
    Seq::new(u.len(), |i: int| shown::moved_back(u[i]))
}

/// A mixture as numbers, or why there is none.
pub open spec fn checked<A: Arithmetic>(
    ops: &A,
    weights: Seq<F64>,
    components: Seq<UncertainModel<Equatorial, DynCenter>>,
) -> KeteResult<(Seq<F64>, Seq<UncertainModel<Equatorial, DynCenter>>)> {
    match diffuse::mixture_fault(ops, weights, components) {
        Some(f) => Err(Error::ValueError(f)),
        None => Ok((weights, components)),
    }
}

/// The first `n` components, propagated, or the first fault.
pub open spec fn all_stepped<A: Arithmetic, F: AnalyticForce<A, Frame = Equatorial, Center = SSB>>(
    ops: &A,
    force: &F,
    components: Seq<UncertainModel<Equatorial, SSB>>,
    jd: Time,
    max_steps: nat,
    n: nat,
) -> KeteResult<Option<Seq<UncertainModel<Equatorial, SSB>>>>
    decreases n,
{
    if n == 0 {
        Ok(Some(Seq::empty()))
    } else {
        match all_stepped(ops, force, components, jd, max_steps, (n - 1) as nat) {
            Err(e) => Err(e),
            Ok(None) => Ok(None),
            Ok(Some(so_far)) => match adaptive::stepped(
                ops,
                force,
                components[n - 1],
                jd,
                max_steps,
            ) {
                Err(e) => Err(e),
                Ok(None) => Ok(None),
                Ok(Some(step)) => Ok(Some(so_far.push(step.end))),
            },
        }
    }
}

/// Propagated components as numbers, where there are any.
pub open spec fn some_models(r: KeteResult<Option<Vec<UncertainState<Equatorial, SSB>>>>)
    -> KeteResult<
    Option<Seq<UncertainModel<Equatorial, SSB>>>,
> {
    match r {
        Err(e) => Err(e),
        Ok(None) => Ok(None),
        Ok(Some(v)) => Ok(Some(diffuse::models(v@))),
    }
}

/// Propagate the first `n` components.
fn step_all<A: Arithmetic, F: AnalyticForce<A, Frame = Equatorial, Center = SSB>>(
    ops: &A,
    force: &F,
    components: &Vec<UncertainState<Equatorial, SSB>>,
    jd: Time,
    max_steps: u64,
    n: usize,
) -> (r: KeteResult<Option<Vec<UncertainState<Equatorial, SSB>>>>)
    requires
        applies(ops, force),
        n <= components@.len(),
        forall|i: int|
            0 <= i < components@.len() ==> (#[trigger] components@[i])@.well_formed(),
    ensures
        some_models(r) == all_stepped(
            ops,
            force,
            diffuse::models(components@),
            jd,
            max_steps as nat,
            n as nat,
        ),
        r matches Ok(Some(all)) ==> forall|i: int|
            0 <= i < all@.len() ==> (#[trigger] all@[i])@.well_formed(),
    decreases n,
{
    if n == 0 {
        let none: Vec<UncertainState<Equatorial, SSB>> = Vec::new();
        assert(diffuse::models(none@) =~= Seq::empty());
        return Ok(Some(none));
    }
    match step_all(ops, force, components, jd, max_steps, n - 1) {
        Err(e) => Err(e),
        Ok(None) => Ok(None),
        Ok(Some(so_far)) => {
            let mut so_far = so_far;
            assert(components@[n - 1]@.well_formed());
            match adaptive::propagate_step(ops, force, &components[n - 1], jd, max_steps) {
                Err(e) => Err(e),
                Ok(None) => Ok(None),
                Ok(Some(step)) => {
                    let ghost before = so_far@;
                    let end = step.propagated;
                    so_far.push(end);
                    assert(diffuse::models(so_far@) =~= diffuse::models(before).push(end@));
                    Ok(Some(so_far))
                },
            }
        },
    }
}

/// What a mixture is made of, where there is one.
pub open spec fn parts_of(r: KeteResult<Option<PyDiffuseState>>) -> KeteResult<
    Option<(Seq<F64>, Seq<UncertainModel<Equatorial, DynCenter>>)>,
> {
    match r {
        Err(e) => Err(e),
        Ok(None) => Ok(None),
        Ok(Some(d)) => Ok(
            Some((d.mixture.weights@, diffuse::models(d.mixture.components@))),
        ),
    }
}

/// Some parts, or why there are none.
pub open spec fn some_parts(
    r: KeteResult<(Seq<F64>, Seq<UncertainModel<Equatorial, DynCenter>>)>,
) -> KeteResult<Option<(Seq<F64>, Seq<UncertainModel<Equatorial, DynCenter>>)>> {
    match r {
        Err(e) => Err(e),
        Ok(parts) => Ok(Some(parts)),
    }
}

/// Can every component be propagated by a force.
pub open spec fn applies<A: Arithmetic, F: AnalyticForce<A, Frame = Equatorial, Center = SSB>>(
    ops: &A,
    force: &F,
) -> bool {
    &&& ops.lawful()
    &&& force.well_formed()
    &&& force.accepts(force.n_params())
    &&& stm::augmented_len(force.n_params()) <= usize::MAX
}

/// Put a mixture together again.
fn put_together<A: Arithmetic>(
    ops: &A,
    weights: Vec<F64>,
    components: Vec<UncertainState<Equatorial, SSB>>,
    non_grav: Option<NonGravMask>,
) -> (r: KeteResult<Option<PyDiffuseState>>)
    requires
        ops.lawful(),
    ensures
        parts_of(r) == some_parts(
            checked(ops, weights@, all_back(diffuse::models(components@))),
        ),
        r matches Ok(Some(d)) ==> d.non_grav == non_grav,
        (forall|i: int|
            0 <= i < components@.len() ==> (#[trigger] components@[i])@.well_formed()) ==> (
        r matches Ok(Some(d)) ==> d.mixture.well_formed()),
{
    let ghost all = components@;
    let ghost sound = forall|i: int| 0 <= i < all.len() ==> (#[trigger] all[i])@.well_formed();
    let ghost want = all_back(diffuse::models(all));
    let mut components = components;
    let mut back: Vec<UncertainState<Equatorial, DynCenter>> = Vec::new();
    let ghost mut i: int = 0;
    assert(diffuse::models(back@) =~= want.take(0));
    while components.len() > 0
        invariant
            want == all_back(diffuse::models(all)),
            0 <= i <= all.len(),
            components@ == all.skip(i),
            diffuse::models(back@) == want.take(i),
            back@.len() == i,
            sound ==> forall|k: int| 0 <= k < all.len() ==> (#[trigger] all[k])@.well_formed(),
            sound ==> forall|k: int| 0 <= k < i ==> (#[trigger] back@[k])@.well_formed(),
        decreases components@.len(),
    {
        let c = components.remove(0);
        assert(c == all[i]);
        assert(diffuse::models(all)[i] == c@);
        let ghost before = back@;
        let moved = shown::move_back(c);
        back.push(moved);
        assert(diffuse::models(back@) =~= diffuse::models(before).push(moved@));
        assert(components@ =~= all.skip(i + 1));
        proof {
            i = i + 1;
        }
        assert(diffuse::models(back@) =~= want.take(i));
    }
    assert(diffuse::models(back@) =~= want);
    match DiffuseState::new(ops, weights, back) {
        Err(e) => Err(e),
        Ok(mixture) => Ok(Some(PyDiffuseState { mixture, non_grav })),
    }
}

impl PyDiffuseState {
    /// The mixture is one, and the mask has an entry for each parameter.
    pub open spec fn well_formed(&self) -> bool {
        &&& self.mixture.well_formed()
        &&& self.non_grav matches Some(m) ==> m.well_formed()
    }

    /// The components as numbers.
    pub open spec fn component_models(&self) -> Seq<UncertainModel<Equatorial, DynCenter>> {
        diffuse::models(self.mixture.components@)
    }

    /// A mixture of one uncertain state.
    pub fn from_uncertain(state: PyUncertainState) -> (r: Self)
        ensures
            r.mixture.weights@ == seq![F64 { bits: crate::constants::ONE }],
            r.mixture.components@ == seq![state.state],
            r.non_grav == state.non_grav,
            state.well_formed() ==> r.well_formed(),
    {
        PyDiffuseState {
            mixture: DiffuseState::from_uncertain(state.state),
            non_grav: state.non_grav,
        }
    }

    /// Mix uncertain states by their weights. The forces on all of them have to be the same but
    /// for the values of their free parameters.
    pub fn new<A: Arithmetic>(
        ops: &A,
        weights: Vec<F64>,
        components: Vec<PyUncertainState>,
    ) -> (r: KeteResult<Self>)
        requires
            ops.lawful(),
            forall|i: int|
                0 <= i < components@.len() ==> (#[trigger] components@[i]).well_formed(),
        ensures
            if components@.len() == 0 {
                r == Err::<Self, Error>(Error::ValueError(ValueFault::NoComponents))
            } else {
                match odd_force(components@, 1) {
                    Some(i) => r == Err::<Self, Error>(
                        Error::ValueError(ValueFault::ComponentForce(i as usize)),
                    ),
                    None => match checked(ops, weights@, inner_models(components@)) {
                        Err(e) => r == Err::<Self, Error>(e),
                        Ok(parts) => {
                            &&& r is Ok
                            &&& r->Ok_0.mixture.weights@ == parts.0
                            &&& r->Ok_0.component_models() == parts.1
                            &&& shown::mask_model(r->Ok_0.non_grav) == shown::mask_model(
                                components@[0].non_grav,
                            )
                        },
                    },
                }
            },
            r matches Ok(d) ==> d.well_formed(),
    {
        if components.len() == 0 {
            return Err(Error::ValueError(ValueFault::NoComponents));
        }
        let mut i: usize = 1;
        while i < components.len()
            invariant
                1 <= i <= components@.len(),
                forall|i: int|
                    0 <= i < components@.len() ==> (#[trigger] components@[i]).well_formed(),
                odd_force(components@, 1) == odd_force(components@, i as int),
            decreases components@.len() - i,
        {
            assert(components@[0].well_formed() && components@[i as int].well_formed());
            if !check_same_force(&components[0].non_grav, &components[i].non_grav) {
                return Err(Error::ValueError(ValueFault::ComponentForce(i)));
            }
            i = i + 1;
        }
        let non_grav = shown::copy_mask(&components[0].non_grav);
        let ghost all = components@;
        let mut components = components;
        let mut raw: Vec<UncertainState<Equatorial, DynCenter>> = Vec::new();
        let ghost mut k: int = 0;
        assert(diffuse::models(raw@) =~= inner_models(all).take(0));
        while components.len() > 0
            invariant
                0 <= k <= all.len(),
                components@ == all.skip(k),
                diffuse::models(raw@) == inner_models(all).take(k),
                raw@.len() == k,
                forall|i: int| 0 <= i < all.len() ==> (#[trigger] all[i]).well_formed(),
                forall|i: int| 0 <= i < k ==> (#[trigger] raw@[i])@.well_formed(),
            decreases components@.len(),
        {
            let c = components.remove(0);
            assert(c == all[k]);
            let ghost before = raw@;
            let state = c.state;
            raw.push(state);
            assert(diffuse::models(raw@) =~= diffuse::models(before).push(state@));
            assert(components@ =~= all.skip(k + 1));
            proof {
                k = k + 1;
            }
            assert(diffuse::models(raw@) =~= inner_models(all).take(k));
        }
        assert(diffuse::models(raw@) =~= inner_models(all));
        match DiffuseState::new(ops, weights, raw) {
            Err(e) => Err(e),
            Ok(mixture) => Ok(PyDiffuseState { mixture, non_grav }),
        }
    }

    /// The weights.
    pub fn weights(&self) -> (r: Vec<F64>)
        ensures
            r@ == self.mixture.weights@,
    {
        numbers::copied(&self.mixture.weights)
    }

    /// The components, each with the force.
    pub fn components(&self) -> (r: Vec<PyUncertainState>)
        requires
            self.well_formed(),
        ensures
            inner_models(r@) == self.component_models(),
            forall|i: int|
                0 <= i < r@.len() ==> shown::mask_model((#[trigger] r@[i]).non_grav)
                    == shown::mask_model(self.non_grav),
            forall|i: int| 0 <= i < r@.len() ==> (#[trigger] r@[i]).well_formed(),
    {
        let ghost want = self.component_models();
        let mut r: Vec<PyUncertainState> = Vec::new();
        let mut i: usize = 0;
        while i < self.mixture.components.len()
            invariant
                self.well_formed(),
                want == self.component_models(),
                i <= self.mixture.components@.len(),
                inner_models(r@) == want.take(i as int),
                forall|i: int|
                    0 <= i < r@.len() ==> shown::mask_model((#[trigger] r@[i]).non_grav)
                        == shown::mask_model(self.non_grav),
                forall|i: int| 0 <= i < r@.len() ==> (#[trigger] r@[i]).well_formed(),
            decreases self.mixture.components@.len() - i,
        {
            assert(self.mixture.components@[i as int]@.well_formed());
            let ghost before = r@;
            let state = self.mixture.components[i].clone();
            r.push(PyUncertainState { state, non_grav: shown::copy_mask(&self.non_grav) });
            assert(inner_models(r@) =~= inner_models(before).push(state@));
            i = i + 1;
            assert(inner_models(r@) =~= want.take(i as int));
        }
        assert(inner_models(r@) =~= want);
        r
    }

    /// The epoch which the components share.
    pub fn epoch(&self) -> (t: Time)
        requires
            self.well_formed(),
        ensures
            t == self.mixture.components@[0].state.epoch,
    {
        self.mixture.epoch()
    }

    /// How many components there are.
    pub fn n_components(&self) -> (n: usize)
        ensures
            n == self.mixture.components@.len(),
    {
        self.mixture.n_components()
    }

    /// How many parameters each component has.
    pub fn n_params(&self) -> (n: usize)
        requires
            self.well_formed(),
        ensures
            n == self.mixture.components@[0].free_params@.len(),
    {
        self.mixture.n_params()
    }

    /// The size of the covariance of each component.
    pub fn cov_dim(&self) -> (n: usize)
        requires
            self.well_formed(),
        ensures
            n == 6 + self.mixture.components@[0].free_params@.len(),
    {
        assert(self.mixture.components@[0]@.well_formed());
        self.mixture.components[0].cov_matrix.nrows
    }

    /// The names of the rows of the covariances.
    pub fn param_names(&self) -> (r: Vec<&'static str>)
        requires
            self.well_formed(),
        ensures
            traits::texts(r@) == shown::row_names(self.non_grav),
    {
        shown::name_rows(&self.non_grav)
    }

    /// The model of the force with the values of the first component.
    pub fn non_grav(&self) -> (r: Option<PyNonGravModel>)
        requires
            self.well_formed(),
        ensures
            r == shown::model_with(
                shown::mask_model(self.non_grav),
                self.mixture.components@[0].free_params@,
            ),
    {
        shown::find_model(&self.non_grav, &self.mixture.components[0].free_params)
    }

    /// Samples of the mixture, one for each draw of independent normal variables, component by
    /// component, as states around the Sun with their models.
    pub fn sample<A: Algebra, R: Fn(State<Equatorial>, i32) -> KeteResult<State<Equatorial>>>(
        &self,
        ops: &A,
        recenter: &R,
        draws: &Vec<Vec<Vec<F64>>>,
    ) -> (r: KeteResult<Samples>)
        requires
            ops.lawful(),
            state::recenters(recenter),
            self.well_formed(),
            draws@.len() == self.mixture.components@.len(),
            forall|i: int|
                0 <= i < draws@.len() ==> numbers::shaped(
                    #[trigger] diffuse::layers(draws@)[i],
                    draws@[i]@.len(),
                    6 + self.mixture.components@[i].free_params@.len(),
                ),
        ensures
            match diffuse::mixed_samples(
                ops,
                self.mixture.components@,
                diffuse::layers(draws@),
                draws@.len(),
            ) {
                Err(e) => r == Err::<Samples, Error>(e),
                Ok(s) => match r {
                    Err(e) => state::all_centered(recenter, shown::sample_states(s), Err(e)),
                    Ok(found) => {
                        &&& state::all_centered(
                            recenter,
                            shown::sample_states(s),
                            Ok(found.states),
                        )
                        &&& found.non_gravs@ == shown::sample_models(
                            shown::mask_model(self.non_grav),
                            self.mixture.components@[0].free_params@,
                            s,
                        )
                    },
                },
            },
    {
        match self.mixture.sample(ops, draws) {
            Err(e) => Err(e),
            Ok(samples) => {
                let (states, non_gravs) = shown::take_apart(
                    &self.non_grav,
                    &self.mixture.components[0].free_params,
                    &samples,
                );
                match state::show_all(recenter, &states) {
                    Err(e) => Err(e),
                    Ok(states) => Ok(Samples { states, non_gravs }),
                }
            },
        }
    }

    /// The mixture without the components which weigh less than `min_weight`.
    pub fn prune<A: Arithmetic>(&self, ops: &A, min_weight: F64) -> (r: KeteResult<Self>)
        requires
            ops.lawful(),
            self.well_formed(),
        ensures
            match diffuse::prune_fault(ops, self.mixture.weights@, min_weight) {
                Some(f) => r == Err::<Self, Error>(Error::ValueError(f)),
                None => {
                    let weights = self.mixture.weights@;
                    let left = diffuse::kept_weights(weights, min_weight, weights.len());
                    &&& r is Ok
                    &&& r->Ok_0.mixture.weights@ == numbers::parts(
                        ops,
                        left,
                        diffuse::total(ops, left, left.len()),
                    )
                    &&& r->Ok_0.component_models() == diffuse::kept(
                        weights,
                        self.component_models(),
                        min_weight,
                        weights.len(),
                    )
                    &&& shown::mask_model(r->Ok_0.non_grav) == shown::mask_model(self.non_grav)
                    &&& r->Ok_0.well_formed()
                },
            },
    {
        let mut mixture = self.mixture.clone();
        assert forall|i: int| 0 <= i < mixture.components@.len() implies (
        #[trigger] mixture.components@[i])@.well_formed() by {
            assert(diffuse::models(mixture.components@)[i] == diffuse::models(
                self.mixture.components@,
            )[i]);
        }
        match mixture.prune(ops, min_weight) {
            Err(e) => Err(e),
            Ok(_) => Ok(PyDiffuseState { mixture, non_grav: shown::copy_mask(&self.non_grav) }),
        }
    }

    /// The components with their states moved to the barycenter.
    fn components_ssb(&self, ssb_states: Vec<State<Equatorial, SSB>>) -> (r: Vec<
        UncertainState<Equatorial, SSB>,
    >)
        requires
            self.well_formed(),
            ssb_states@.len() == self.mixture.components@.len(),
        ensures
            diffuse::models(r@) == all_there(self.component_models(), ssb_states@),
            forall|i: int| 0 <= i < r@.len() ==> (#[trigger] r@[i])@.well_formed(),
    {
        let ghost want = all_there(self.component_models(), ssb_states@);
        let mut r: Vec<UncertainState<Equatorial, SSB>> = Vec::new();
        let mut i: usize = 0;
        while i < self.mixture.components.len()
            invariant
                self.well_formed(),
                ssb_states@.len() == self.mixture.components@.len(),
                want == all_there(self.component_models(), ssb_states@),
                i <= self.mixture.components@.len(),
                diffuse::models(r@) == want.take(i as int),
                forall|i: int| 0 <= i < r@.len() ==> (#[trigger] r@[i])@.well_formed(),
            decreases self.mixture.components@.len() - i,
        {
            assert(self.mixture.components@[i as int]@.well_formed());
            let ghost before = r@;
            let there = shown::move_there(&self.mixture.components[i], ssb_states[i].clone());
            r.push(there);
            assert(diffuse::models(r@) =~= diffuse::models(before).push(there@));
            i = i + 1;
            assert(diffuse::models(r@) =~= want.take(i as int));
        }
        assert(diffuse::models(r@) =~= want);
        r
    }

    /// Propagate every component. `ssb_states` are the states of the components around the
    /// barycenter, or why they cannot be moved there.
    pub fn propagate<A: Arithmetic, F: AnalyticForce<A, Frame = Equatorial, Center = SSB>>(
        &self,
        ops: &A,
        force: &F,
        ssb_states: KeteResult<Vec<State<Equatorial, SSB>>>,
        jd: Time,
        max_steps: u64,
    ) -> (r: KeteResult<Option<Self>>)
        requires
            applies(ops, force),
            self.well_formed(),
            ssb_states matches Ok(s) ==> s@.len() == self.mixture.components@.len(),
        ensures
            parts_of(r) == (match ssb_states {
                Err(e) => Err(e),
                Ok(s) => match all_stepped(
                    ops,
                    force,
                    all_there(self.component_models(), s@),
                    jd,
                    max_steps as nat,
                    self.mixture.components@.len(),
                ) {
                    Err(e) => Err(e),
                    Ok(None) => Ok(None),
                    Ok(Some(all)) => some_parts(
                        checked(ops, self.mixture.weights@, all_back(all)),
                    ),
                },
            }),
            r matches Ok(Some(d)) ==> shown::mask_model(d.non_grav) == shown::mask_model(
                self.non_grav,
            ),            r matches Ok(Some(d)) ==> d.well_formed(),
    {
        let ssb_states = match ssb_states {
            Err(e) => {
                return Err(e);
            },
            Ok(s) => s,
        };
        let there = self.components_ssb(ssb_states);
        assert(diffuse::models(there@).len() == self.component_models().len());
        let moved = match step_all(ops, force, &there, jd, max_steps, there.len()) {
            Err(e) => {
                return Err(e);
            },
            Ok(None) => {
                return Ok(None);
            },
            Ok(Some(moved)) => moved,
        };
        let weights = numbers::copied(&self.mixture.weights);
        put_together(ops, weights, moved, shown::copy_mask(&self.non_grav))
    }

    /// Propagate the mixture, and split components on the way where they are far from linear.
    pub fn propagate_adaptive<A: Algebra, F: AnalyticForce<A, Frame = Equatorial, Center = SSB>>(
        &self,
        ops: &A,
        force: &F,
        ssb_states: KeteResult<Vec<State<Equatorial, SSB>>>,
        jd: Time,
        config: &SplitConfig,
        max_steps: u64,
    ) -> (r: KeteResult<Option<Self>>)
        requires
            applies(ops, force),
            self.well_formed(),
            ssb_states matches Ok(s) ==> s@.len() == self.mixture.components@.len(),
        ensures
            parts_of(r) == (match ssb_states {
                Err(e) => Err(e),
                Ok(s) => {
                    let there = all_there(self.component_models(), s@);
                    match diffuse::mixture_fault(ops, self.mixture.weights@, there) {
                        Some(f) => Err(Error::ValueError(f)),
                        None => match adaptive::adaptively(
                            ops,
                            force,
                            self.mixture.weights@,
                            there,
                            jd,
                            *config,
                            max_steps as nat,
                        ) {
                            Err(e) => Err(e),
                            Ok(None) => Ok(None),
                            Ok(Some(m)) => some_parts(
                                checked(ops, m.weights, all_back(m.components)),
                            ),
                        },
                    }
                },
            }),
            r matches Ok(Some(d)) ==> shown::mask_model(d.non_grav) == shown::mask_model(
                self.non_grav,
            ),            r matches Ok(Some(d)) ==> d.well_formed(),
    {
        let ssb_states = match ssb_states {
            Err(e) => {
                return Err(e);
            },
            Ok(s) => s,
        };
        let there = self.components_ssb(ssb_states);
        let weights = numbers::copied(&self.mixture.weights);
        let mixture = match DiffuseState::new(ops, weights, there) {
            Err(e) => {
                return Err(e);
            },
            Ok(m) => m,
        };
        match adaptive::propagate_diffuse_state_adaptive(
            ops,
            force,
            &mixture,
            jd,
            config,
            max_steps,
        ) {
            Err(e) => Err(e),
            Ok(None) => Ok(None),
            Ok(Some(m)) => put_together(
                ops,
                m.weights,
                m.components,
                shown::copy_mask(&self.non_grav),
            ),
        }
    }

    /// How far from linear the propagation of each component is.
    pub fn sigma_point_divergence<
        A: Algebra,
        F: AnalyticForce<A, Frame = Equatorial, Center = SSB>,
    >(
        &self,
        ops: &A,
        force: &F,
        ssb_states: KeteResult<Vec<State<Equatorial, SSB>>>,
        jd: Time,
        n_axes: usize,
        sigma_factor: F64,
        max_steps: u64,
    ) -> (r: KeteResult<Option<Vec<F64>>>)
        requires
            applies(ops, force),
            self.well_formed(),
            ssb_states matches Ok(s) ==> s@.len() == self.mixture.components@.len(),
        ensures
            adaptive::some_numbers(r) == (match ssb_states {
                Err(e) => Err(e),
                Ok(s) => {
                    let there = all_there(self.component_models(), s@);
                    match diffuse::mixture_fault(ops, self.mixture.weights@, there) {
                        Some(f) => Err(Error::ValueError(f)),
                        None => adaptive::divergences(
                            ops,
                            force,
                            there,
                            jd,
                            n_axes,
                            sigma_factor,
                            max_steps as nat,
                            there.len(),
                        ),
                    }
                },
            }),
    {
        let ssb_states = match ssb_states {
            Err(e) => {
                return Err(e);
            },
            Ok(s) => s,
        };
        let there = self.components_ssb(ssb_states);
        let weights = numbers::copied(&self.mixture.weights);
        match DiffuseState::new(ops, weights, there) {
            Err(e) => Err(e),
            Ok(mixture) => adaptive::mixture_sigma_point_divergence(
                ops,
                force,
                &mixture,
                jd,
                n_axes,
                sigma_factor,
                max_steps,
            ),
        }
    }
}

} // verus!
