//! Uncertain states together with the forces that were fitted.
use crate::algebra::Algebra;
use crate::arithmetic;
use crate::arithmetic::Arithmetic;
use crate::errors::{Error, KeteResult, ValueFault};
use crate::float::F64;
use crate::forces::parameter_mask;
use crate::forces::traits;
use crate::forces::traits::{AnalyticForce, ParameterizedForce};
use crate::forces::{NonGravMask, ParameterMask};
use crate::frames::{DynCenter, Equatorial, SSB};
use crate::numbers;
use crate::physics::Physics;
use crate::orbits;
use crate::python::elements::PyCometElements;
use crate::python::nongrav;
use crate::python::nongrav::PyNonGravModel;
use crate::python::state;
use crate::python::state::PyState;
use crate::rounding::Reading;
use crate::state::adaptive;
use crate::state::stm;
use crate::state::uncertain;
use crate::state::uncertain::{Sample, SampleModel, UncertainModel, UncertainState};
use crate::state::State;
use crate::table::{Grid, Table};
use crate::time::Time;
use vstd::prelude::*;

verus! {

/// The variance of a parameter of which nothing is known yet.
pub const TINY_VARIANCE: u64 = 0x39b4_484b_feeb_c2a0;

/// The NAIF id of the barycenter of the Solar System.
pub const BARYCENTER: i32 = 0;

/// The NAIF id of the Sun.
pub const SUN: i32 = 10;

/// An uncertain state and the force that its parameters belong to.
#[derive(Clone)]
pub struct PyUncertainState {
    /// The uncertain state.
    pub state: UncertainState<Equatorial, DynCenter>,
    /// The force other than gravity, with all parameters free. Their values are with the state.
    pub non_grav: Option<NonGravMask>,
}

/// A force other than gravity as it is, without the place of its mask in memory.
#[verifier::ext_equal]
pub struct MaskModel {
    pub inner: crate::forces::NonGravKind,
    pub mask: Seq<Option<F64>>,
}

/// A force other than gravity as it is.
pub open spec fn mask_model(m: Option<NonGravMask>) -> Option<MaskModel> {
    match m {
        None => None,
        Some(m) => Some(MaskModel { inner: m.inner, mask: m.mask@ }),
    }
}

/// The mask of the force of a model, with all parameters free.
pub open spec fn model_mask<A: Arithmetic>(ops: &A, model: Option<PyNonGravModel>) -> Option<
    MaskModel,
> {
    match model {
        None => None,
        Some(m) => Some(
            MaskModel { inner: m.force(ops), mask: nongrav::open_mask(m.values().len()) },
        ),
    }
}

/// The values of the parameters of a model, none where there is no model.
pub open spec fn model_values(model: Option<PyNonGravModel>) -> Seq<F64> {
    match model {
        None => Seq::empty(),
        Some(m) => m.values(),
    }
}

/// Is a model one that a force can be made of.
pub open spec fn usable<A: Arithmetic>(ops: &A, model: Option<PyNonGravModel>) -> bool {
    model matches Some(m) ==> m.well_formed(ops)
}

/// The model of a force and values for its free parameters, where they fit.
pub open spec fn model_with(mask: Option<MaskModel>, values: Seq<F64>) -> Option<PyNonGravModel> {
    match mask {
        None => None,
        Some(m) => match parameter_mask::try_merged(m.mask, values) {
            Err(_) => None,
            Ok(full) => PyNonGravModel::of_force(m.inner, full),
        },
    }
}

/// The model of a force and values for its free parameters, where they fit.
pub fn find_model(mask: &Option<NonGravMask>, values: &Vec<F64>) -> (r: Option<PyNonGravModel>)
    ensures
        r == model_with(mask_model(*mask), values@),
{
    match mask {
        None => None,
        Some(m) => match m.merge(values.as_slice()) {
            Err(_) => None,
            Ok(full) => PyNonGravModel::from_force(&m.inner, full.as_slice()),
        },
    }
}

/// The same force with the same mask.
pub fn copy_mask(mask: &Option<NonGravMask>) -> (r: Option<NonGravMask>)
    ensures
        mask_model(r) == mask_model(*mask),
{
    match mask {
        None => None,
        Some(m) => {
            let mut copy: Vec<Option<F64>> = Vec::new();
            let mut i: usize = 0;
            while i < m.mask.len()
                invariant
                    i <= m.mask@.len(),
                    copy@ == m.mask@.take(i as int),
                decreases m.mask@.len() - i,
            {
                copy.push(m.mask[i]);
                i = i + 1;
                assert(copy@ =~= m.mask@.take(i as int));
            }
            assert(copy@ =~= m.mask@);
            Some(ParameterMask { inner: m.inner, mask: copy })
        },
    }
}

/// The variances of a state whose position and velocity are equally uncertain in all directions.
pub open spec fn variances<A: Arithmetic>(
    ops: &A,
    pos_sigma: F64,
    vel_sigma: F64,
    params: nat,
) -> Seq<F64> {
    let p = arithmetic::product(ops, pos_sigma, pos_sigma);
    let v = arithmetic::product(ops, vel_sigma, vel_sigma);
    seq![p, p, p, v, v, v] + Seq::new(params, |i: int| F64 { bits: TINY_VARIANCE })
}

/// The variances of a state whose position and velocity are equally uncertain in all directions.
fn find_variances<A: Arithmetic>(ops: &A, pos_sigma: F64, vel_sigma: F64, params: usize) -> (r: Vec<
    F64,
>)
    requires
        ops.lawful(),
    ensures
        r@ == variances(ops, pos_sigma, vel_sigma, params as nat),
{
    let p = arithmetic::times(ops, pos_sigma, pos_sigma);
    let v = arithmetic::times(ops, vel_sigma, vel_sigma);
    let mut r: Vec<F64> = vec![p, p, p, v, v, v];
    let mut i: usize = 0;
    assert(r@ =~= variances(ops, pos_sigma, vel_sigma, 0));
    while i < params
        invariant
            i <= params,
            r@ == variances(ops, pos_sigma, vel_sigma, i as nat),
        decreases params - i,
    {
        r.push(F64::from_bits(TINY_VARIANCE));
        i = i + 1;
        assert(r@ =~= variances(ops, pos_sigma, vel_sigma, i as nat));
    }
    r
}

/// The first row among the first `n` which is not as long as there are rows.
pub open spec fn bad_row(rows: Seq<Seq<F64>>, n: nat) -> Option<int>
    decreases n,
{
    if n == 0 {
        None
    } else {
        match bad_row(rows, (n - 1) as nat) {
            Some(i) => Some(i),
            None => if rows[n - 1].len() != rows.len() {
                Some(n - 1)
            } else {
                None
            },
        }
    }
}

/// A bad row stays bad when more rows are looked at.
proof fn lemma_bad_row(rows: Seq<Seq<F64>>, m: nat, n: nat)
    requires
        m <= n,
        bad_row(rows, m) is Some,
    ensures
        bad_row(rows, n) == bad_row(rows, m),
    decreases n,
{
    if m < n {
        lemma_bad_row(rows, m, (n - 1) as nat);
    }
}

/// Without a bad row a matrix is square.
pub proof fn law_square(rows: Seq<Seq<F64>>, n: nat)
    requires
        bad_row(rows, n) is None,
    ensures
        forall|i: int| 0 <= i < n ==> (#[trigger] rows[i]).len() == rows.len(),
    decreases n,
{
    if n > 0 {
        law_square(rows, (n - 1) as nat);
    }
}

/// The names of the components of a state.
pub open spec fn component_names() -> Seq<Seq<char>> {
    seq!["x"@, "y"@, "z"@, "vx"@, "vy"@, "vz"@]
}

/// The names of the rows of a covariance: those of the components, then those of the parameters.
pub open spec fn row_names(mask: Option<NonGravMask>) -> Seq<Seq<char>> {
    match mask {
        None => component_names(),
        Some(m) => component_names() + m.names(),
    }
}

/// The names of the rows of a covariance.
pub fn name_rows(mask: &Option<NonGravMask>) -> (r: Vec<&'static str>)
    requires
        mask matches Some(m) ==> m.well_formed(),
    ensures
        traits::texts(r@) == row_names(*mask),
{
    let mut r = vec!["x", "y", "z", "vx", "vy", "vz"];
    assert(traits::texts(r@) =~= component_names());
    if let Some(m) = mask {
        let ghost before = r@;
        let mut more = m.free_param_names();
        let ghost names = more@;
        r.append(&mut more);
        assert(traits::texts(r@) =~= traits::texts(before) + traits::texts(names));
    }
    r
}

/// The rows of a matrix.
pub fn rows_of(t: &Table) -> (r: Vec<Vec<F64>>)
    requires
        t@.well_formed(),
    ensures
        numbers::rows(r@) == t@.cells,
{
    t.clone().cells
}

/// An uncertain state around the barycenter, with the state moved there.
pub open spec fn moved_there(
    u: UncertainModel<Equatorial, DynCenter>,
    s: State<Equatorial, SSB>,
) -> UncertainModel<Equatorial, SSB> {
    UncertainModel { state: s, cov: u.cov, params: u.params }
}

/// An uncertain state around a center which is known at run time only.
pub open spec fn moved_back(u: UncertainModel<Equatorial, SSB>) -> UncertainModel<
    Equatorial,
    DynCenter,
> {
    UncertainModel {
        state: State {
            desig: u.state.desig,
            epoch: u.state.epoch,
            pos: u.state.pos,
            vel: u.state.vel,
            center: DynCenter(0),
        },
        cov: u.cov,
        params: u.params,
    }
}

/// An uncertain state with its state moved to the barycenter.
pub fn move_there(u: &UncertainState<Equatorial, DynCenter>, s: State<Equatorial, SSB>) -> (r:
    UncertainState<Equatorial, SSB>)
    requires
        u@.well_formed(),
    ensures
        r@ == moved_there(u@, s),
        r@.well_formed(),
{
    UncertainState {
        state: s,
        cov_matrix: u.cov_matrix.clone(),
        free_params: numbers::copied(&u.free_params),
    }
}

/// An uncertain state around a center which is known at run time only.
pub fn move_back(u: UncertainState<Equatorial, SSB>) -> (r: UncertainState<Equatorial, DynCenter>)
    ensures
        r@ == moved_back(u@),
        u@.well_formed() ==> r@.well_formed(),
{
    UncertainState {
        state: State::from(u.state),
        cov_matrix: u.cov_matrix,
        free_params: u.free_params,
    }
}

/// The states of samples.
pub open spec fn sample_states(s: Seq<SampleModel<Equatorial, DynCenter>>) -> Seq<
    State<Equatorial>,
> {
    Seq::new(s.len(), |i: int| s[i].state)
}

/// The models of samples. A sample without parameters takes the values that are known.
pub open spec fn sample_models(
    mask: Option<MaskModel>,
    known: Seq<F64>,
    s: Seq<SampleModel<Equatorial, DynCenter>>,
) -> Seq<Option<PyNonGravModel>> {
    Seq::new(
        s.len(),
        |i: int|
            model_with(
                mask,
                if s[i].params.len() == 0 {
                    known
                } else {
                    s[i].params
                },
            ),
    )
}

/// The states of samples, and the model of each.
pub fn take_apart(
    mask: &Option<NonGravMask>,
    known: &Vec<F64>,
    samples: &Vec<Sample<Equatorial, DynCenter>>,
) -> (r: (Vec<State<Equatorial>>, Vec<Option<PyNonGravModel>>))
    ensures
        r.0@ == sample_states(uncertain::views(samples@)),
        r.1@ == sample_models(mask_model(*mask), known@, uncertain::views(samples@)),
{
    let ghost views = uncertain::views(samples@);
    let mut states: Vec<State<Equatorial>> = Vec::new();
    let mut models: Vec<Option<PyNonGravModel>> = Vec::new();
    let mut i: usize = 0;
    while i < samples.len()
        invariant
            views == uncertain::views(samples@),
            i <= samples@.len(),
            states@ == sample_states(views).take(i as int),
            models@ == sample_models(mask_model(*mask), known@, views).take(i as int),
        decreases samples@.len() - i,
    {
        let s = &samples[i];
        assert(views[i as int] == s@);
        states.push(s.state.clone());
        let model = if s.params.len() == 0 {
            find_model(mask, known)
        } else {
            find_model(mask, &s.params)
        };
        models.push(model);
        i = i + 1;
        assert(states@ =~= sample_states(views).take(i as int));
        assert(models@ =~= sample_models(mask_model(*mask), known@, views).take(i as int));
    }
    assert(states@ =~= sample_states(views));
    assert(models@ =~= sample_models(mask_model(*mask), known@, views));
    (states, models)
}

/// States with a model for each.
pub struct Samples {
    /// The states.
    pub states: Vec<PyState>,
    /// The models.
    pub non_gravs: Vec<Option<PyNonGravModel>>,
}

impl PyUncertainState {
    /// The covariance is of the right size, and the mask has an entry for each parameter.
    pub open spec fn well_formed(&self) -> bool {
        &&& self.state@.well_formed()
        &&& self.non_grav matches Some(m) ==> m.well_formed()
    }

    /// An uncertain state around the barycenter whose position and velocity are equally uncertain
    /// in all directions. `recenter` moves a state to another center.
    pub fn from_state<
        A: Arithmetic,
        R: Fn(State<Equatorial>, i32) -> KeteResult<State<Equatorial>>,
    >(
        ops: &A,
        recenter: &R,
        state: PyState,
        pos_sigma: F64,
        vel_sigma: F64,
        non_grav: Option<PyNonGravModel>,
    ) -> (r: KeteResult<Self>)
        requires
            ops.lawful(),
            state::recenters(recenter),
            usable(ops, non_grav),
        ensures
            if pos_sigma.spec_le(F64 { bits: 0 }) || vel_sigma.spec_le(F64 { bits: 0 }) {
                r == Err::<Self, Error>(Error::ValueError(ValueFault::BadSpread))
            } else {
                match r {
                    Err(e) => state::centered(recenter, state.raw, BARYCENTER, Err(e)),
                    Ok(u) => {
                        &&& state::centered(recenter, state.raw, BARYCENTER, Ok(u.state.state))
                        &&& u.state@.cov == Grid::diagonal(
                            variances(ops, pos_sigma, vel_sigma, model_values(non_grav).len()),
                        )
                        &&& u.state@.params == model_values(non_grav)
                        &&& mask_model(u.non_grav) == model_mask(ops, non_grav)
                        &&& u.well_formed()
                    },
                }
            },
    {
        let zero = F64::zero();
        if pos_sigma.less_or_equal(zero) || vel_sigma.less_or_equal(zero) {
            return Err(Error::ValueError(ValueFault::BadSpread));
        }
        let at = match state::center_on(recenter, state.raw, BARYCENTER) {
            Err(e) => {
                return Err(e);
            },
            Ok(s) => s,
        };
        let (free_params, mask) = values_and_mask(ops, non_grav);
        let cov = Table::from_diagonal(
            &find_variances(ops, pos_sigma, vel_sigma, free_params.len()),
        );
        Ok(
            PyUncertainState {
                state: UncertainState { state: at, cov_matrix: cov, free_params },
                non_grav: mask,
            },
        )
    }

    /// An uncertain state from elements and their covariance, given by its rows.
    pub fn from_cometary<A: Physics>(
        ops: &A,
        elements: &PyCometElements,
        cov_matrix: Vec<Vec<F64>>,
        non_grav: Option<PyNonGravModel>,
    ) -> (r: KeteResult<Self>)
        requires
            ops.lawful(),
            usable(ops, non_grav),
        ensures
            match bad_row(numbers::rows(cov_matrix@), cov_matrix@.len()) {
                Some(i) => r == Err::<Self, Error>(
                    Error::ValueError(
                        ValueFault::CovarianceRow {
                            row: i as usize,
                            entries: cov_matrix@[i]@.len() as usize,
                            total: cov_matrix@.len() as usize,
                        },
                    ),
                ),
                None => match UncertainState::<Equatorial, DynCenter>::of_elements(
                    ops,
                    elements.0,
                    Grid {
                        nrows: cov_matrix@.len(),
                        ncols: cov_matrix@.len(),
                        cells: numbers::rows(cov_matrix@),
                    },
                    model_values(non_grav),
                ) {
                    Err(e) => r == Err::<Self, Error>(e),
                    Ok(u) => {
                        &&& r is Ok
                        &&& r->Ok_0.state@ == u
                        &&& mask_model(r->Ok_0.non_grav) == model_mask(ops, non_grav)
                        &&& r->Ok_0.well_formed()
                    },
                },
            },
    {
        let n: usize = cov_matrix.len();
        let ghost rows = numbers::rows(cov_matrix@);
        let mut i: usize = 0;
        while i < n
            invariant
                n == cov_matrix@.len(),
                rows == numbers::rows(cov_matrix@),
                i <= n,
                bad_row(rows, i as nat) is None,
            decreases n - i,
        {
            assert(rows[i as int] == cov_matrix@[i as int]@);
            if cov_matrix[i].len() != n {
                proof {
                    lemma_bad_row(rows, i as nat + 1, n as nat);
                }
                return Err(
                    Error::ValueError(
                        ValueFault::CovarianceRow {
                            row: i,
                            entries: cov_matrix[i].len(),
                            total: n,
                        },
                    ),
                );
            }
            i = i + 1;
        }
        proof {
            law_square(rows, n as nat);
        }
        let (free_params, mask) = values_and_mask(ops, non_grav);
        let cov = Table { nrows: n, ncols: n, cells: cov_matrix };
        match UncertainState::from_cometary(ops, &elements.0, &cov, free_params) {
            Err(e) => Err(e),
            Ok(state) => Ok(PyUncertainState { state, non_grav: mask }),
        }
    }

    /// The state around the Sun.
    pub fn state<R: Fn(State<Equatorial>, i32) -> KeteResult<State<Equatorial>>>(
        &self,
        recenter: &R,
    ) -> (r: KeteResult<PyState>)
        requires
            state::recenters(recenter),
        ensures
            match r {
                Err(e) => state::centered(recenter, self.state.state, SUN, Err(e)),
                Ok(s) => state::centered(recenter, self.state.state, SUN, Ok(s.raw)) && s.frame
                    == state::PyFrames::Ecliptic,
            },
    {
        match state::center_on(recenter, self.state.state.clone(), SUN) {
            Err(e) => Err(e),
            Ok(s) => Ok(PyState::from(s)),
        }
    }

    /// The rows of the covariance.
    pub fn cov_matrix(&self) -> (r: Vec<Vec<F64>>)
        requires
            self.well_formed(),
        ensures
            numbers::rows(r@) == self.state@.cov.cells,
    {
        rows_of(&self.state.cov_matrix)
    }

    /// The model of the force with the values of its parameters.
    pub fn non_grav(&self) -> (r: Option<PyNonGravModel>)
        ensures
            r == model_with(mask_model(self.non_grav), self.state.free_params@),
    {
        find_model(&self.non_grav, &self.state.free_params)
    }

    /// When the state holds.
    pub fn epoch(&self) -> (t: Time)
        ensures
            t == self.state.state.epoch,
    {
        self.state.state.epoch
    }

    /// The names of the rows of the covariance.
    pub fn param_names(&self) -> (r: Vec<&'static str>)
        requires
            self.well_formed(),
        ensures
            traits::texts(r@) == row_names(self.non_grav),
    {
        name_rows(&self.non_grav)
    }

    /// Samples of the distribution, one for each draw of independent normal variables, as states
    /// around the Sun with their models.
    pub fn sample<A: Algebra, R: Fn(State<Equatorial>, i32) -> KeteResult<State<Equatorial>>>(
        &self,
        ops: &A,
        recenter: &R,
        draws: &Vec<Vec<F64>>,
    ) -> (r: KeteResult<Samples>)
        requires
            ops.lawful(),
            state::recenters(recenter),
            self.well_formed(),
            numbers::shaped(
                numbers::rows(draws@),
                draws@.len(),
                6 + self.state.free_params@.len(),
            ),
        ensures
            match self.state@.samples(ops, numbers::rows(draws@)) {
                Err(e) => r == Err::<Samples, Error>(e),
                Ok(s) => match r {
                    Err(e) => state::all_centered(recenter, sample_states(s), Err(e)),
                    Ok(found) => {
                        &&& state::all_centered(recenter, sample_states(s), Ok(found.states))
                        &&& found.non_gravs@ == sample_models(
                            mask_model(self.non_grav),
                            self.state.free_params@,
                            s,
                        )
                    },
                },
            },
    {
        match self.state.sample(ops, draws) {
            Err(e) => Err(e),
            Ok(samples) => {
                let (states, non_gravs) = take_apart(
                    &self.non_grav,
                    &self.state.free_params,
                    &samples,
                );
                match state::show_all(recenter, &states) {
                    Err(e) => Err(e),
                    Ok(states) => Ok(Samples { states, non_gravs }),
                }
            },
        }
    }

    /// Propagate the state and its covariance. `ssb_state` is the state around the barycenter,
    /// or why it cannot be moved there.
    pub fn propagate<A: Arithmetic, F: AnalyticForce<A, Frame = Equatorial, Center = SSB>>(
        &self,
        ops: &A,
        force: &F,
        ssb_state: KeteResult<State<Equatorial, SSB>>,
        jd: Time,
        max_steps: u64,
    ) -> (r: KeteResult<Option<Self>>)
        requires
            ops.lawful(),
            force.well_formed(),
            force.accepts(force.n_params()),
            stm::augmented_len(force.n_params()) <= usize::MAX,
            self.well_formed(),
        ensures
            match ssb_state {
                Err(e) => r == Err::<Option<Self>, Error>(e),
                Ok(s) => match adaptive::stepped(
                    ops,
                    force,
                    moved_there(self.state@, s),
                    jd,
                    max_steps as nat,
                ) {
                    Err(e) => r == Err::<Option<Self>, Error>(e),
                    Ok(None) => r == Ok::<Option<Self>, Error>(None),
                    Ok(Some(step)) => {
                        &&& r is Ok
                        &&& r->Ok_0 is Some
                        &&& r->Ok_0->Some_0.state@ == moved_back(step.end)
                        &&& mask_model(r->Ok_0->Some_0.non_grav) == mask_model(self.non_grav)
                        &&& r->Ok_0->Some_0.state@.well_formed()
                    },
                },
            },
    {
        let s = match ssb_state {
            Err(e) => {
                return Err(e);
            },
            Ok(s) => s,
        };
        let there = move_there(&self.state, s);
        match adaptive::propagate_step(ops, force, &there, jd, max_steps) {
            Err(e) => Err(e),
            Ok(None) => Ok(None),
            Ok(Some(step)) => Ok(
                Some(
                    PyUncertainState {
                        state: move_back(step.propagated),
                        non_grav: copy_mask(&self.non_grav),
                    },
                ),
            ),
        }
    }

    /// Propagate the state and its covariance, and find how far from linear that is.
    pub fn propagate_with_diagnosis<
        A: Algebra,
        F: AnalyticForce<A, Frame = Equatorial, Center = SSB>,
    >(
        &self,
        ops: &A,
        force: &F,
        ssb_state: KeteResult<State<Equatorial, SSB>>,
        jd: Time,
        n_axes: usize,
        sigma_factor: F64,
        max_steps: u64,
    ) -> (r: KeteResult<Option<(Self, F64)>>)
        requires
            ops.lawful(),
            force.well_formed(),
            force.accepts(force.n_params()),
            stm::augmented_len(force.n_params()) <= usize::MAX,
            self.well_formed(),
        ensures
            match ssb_state {
                Err(e) => r == Err::<Option<(Self, F64)>, Error>(e),
                Ok(s) => match adaptive::diagnosed(
                    ops,
                    force,
                    moved_there(self.state@, s),
                    jd,
                    n_axes,
                    sigma_factor,
                    max_steps as nat,
                ) {
                    Err(e) => r == Err::<Option<(Self, F64)>, Error>(e),
                    Ok(None) => r == Ok::<Option<(Self, F64)>, Error>(None),
                    Ok(Some(d)) => {
                        &&& r is Ok
                        &&& r->Ok_0 is Some
                        &&& r->Ok_0->Some_0.0.state@ == moved_back(d.end)
                        &&& r->Ok_0->Some_0.1 == d.divergence
                        &&& mask_model(r->Ok_0->Some_0.0.non_grav) == mask_model(self.non_grav)
                        &&& r->Ok_0->Some_0.0.state@.well_formed()
                    },
                },
            },
    {
        let s = match ssb_state {
            Err(e) => {
                return Err(e);
            },
            Ok(s) => s,
        };
        let there = move_there(&self.state, s);
        match adaptive::propagate_with_diagnosis(
            ops,
            force,
            &there,
            jd,
            n_axes,
            sigma_factor,
            max_steps,
        ) {
            Err(e) => Err(e),
            Ok(None) => Ok(None),
            Ok(Some(d)) => {
                let state = move_back(d.propagated);
                Ok(
                    Some(
                        (
                            PyUncertainState { state, non_grav: copy_mask(&self.non_grav) },
                            d.divergence,
                        ),
                    ),
                )
            },
        }
    }

    /// How far from linear the propagation of the state is.
    pub fn sigma_point_divergence<
        A: Algebra,
        F: AnalyticForce<A, Frame = Equatorial, Center = SSB>,
    >(
        &self,
        ops: &A,
        force: &F,
        ssb_state: KeteResult<State<Equatorial, SSB>>,
        jd: Time,
        n_axes: usize,
        sigma_factor: F64,
        max_steps: u64,
    ) -> (r: KeteResult<Option<F64>>)
        requires
            ops.lawful(),
            force.well_formed(),
            force.accepts(force.n_params()),
            stm::augmented_len(force.n_params()) <= usize::MAX,
            self.well_formed(),
        ensures
            r == (match ssb_state {
                Err(e) => Err(e),
                Ok(s) => adaptive::divergence_of(
                    adaptive::diagnosed(
                        ops,
                        force,
                        moved_there(self.state@, s),
                        jd,
                        n_axes,
                        sigma_factor,
                        max_steps as nat,
                    ),
                ),
            }),
    {
        match ssb_state {
            Err(e) => Err(e),
            Ok(s) => {
                let there = move_there(&self.state, s);
                adaptive::sigma_point_divergence(
                    ops,
                    force,
                    &there,
                    jd,
                    n_axes,
                    sigma_factor,
                    max_steps,
                )
            },
        }
    }
}

/// The values of the parameters of a model, and its force with all of them free.
fn values_and_mask<A: Arithmetic>(ops: &A, model: Option<PyNonGravModel>) -> (r: (
    Vec<F64>,
    Option<NonGravMask>,
))
    requires
        ops.lawful(),
        usable(ops, model),
    ensures
        r.0@ == model_values(model),
        r.0@.len() <= 3,
        mask_model(r.1) == model_mask(ops, model),
        r.1 matches Some(m) ==> m.well_formed(),
{
    match model {
        None => {
            let none: Vec<F64> = Vec::new();
            assert(none@ =~= model_values(model));
            (none, None)
        },
        Some(m) => (m.initial_values(), Some(m.to_mask(ops))),
    }
}

/// A state whose position and velocity are equally uncertain in all directions has the squares of
/// their uncertainties as variances, and parameters which are as good as known.
pub proof fn law_variances<A: Arithmetic>(
    ops: &A,
    v: Reading,
    pos_sigma: F64,
    vel_sigma: F64,
    params: nat,
    i: int,
)
    requires
        0 <= i < 6 + params,
        orbits::multiplies(ops, v, pos_sigma, pos_sigma),
        orbits::multiplies(ops, v, vel_sigma, vel_sigma),
    ensures
        variances(ops, pos_sigma, vel_sigma, params).len() == 6 + params,
        v(variances(ops, pos_sigma, vel_sigma, params)[i]) == (if i < 3 {
            v(pos_sigma) * v(pos_sigma)
        } else if i < 6 {
            v(vel_sigma) * v(vel_sigma)
        } else {
            v(F64 { bits: TINY_VARIANCE })
        }),
{
}

} // verus!
