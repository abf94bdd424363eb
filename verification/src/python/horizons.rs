//! What a catalog knows of an object.
use crate::algebra::Algebra;
use crate::errors::{Error, KeteResult, ValueFault};
use crate::float::F64;
use crate::forces::traits::ParameterizedForce;
use crate::forces::NonGravKind;
use crate::frames::{DynCenter, Equatorial};
use crate::numbers;
use crate::python::nongrav;
use crate::python::nongrav::PyNonGravModel;
use crate::python::state;
use crate::python::uncertain as shown;
use crate::python::uncertain::{MaskModel, PyUncertainState, Samples};
use crate::state::uncertain::UncertainState;
use crate::state::State;
use vstd::prelude::*;

verus! {

/// A force other than gravity and the values of its parameters.
#[derive(Clone)]
pub struct Fitted {
    /// The force.
    pub force: NonGravKind,
    /// The values.
    pub values: Vec<F64>,
}

/// The orbit, brightness and size of an object, as far as they are known. Angles are in degrees.
#[derive(Clone)]
pub struct HorizonsProperties {
    /// The designation.
    pub desig: String,
    /// The group of orbits it belongs to.
    pub group: Option<String>,
    /// When the elements hold.
    pub epoch: Option<F64>,
    /// The eccentricity.
    pub eccentricity: Option<F64>,
    /// The inclination.
    pub inclination: Option<F64>,
    /// The longitude of the ascending node.
    pub lon_of_ascending: Option<F64>,
    /// The argument of perihelion.
    pub peri_arg: Option<F64>,
    /// The distance of perihelion in AU.
    pub peri_dist: Option<F64>,
    /// When the object is at perihelion.
    pub peri_time: Option<F64>,
    /// The absolute magnitude.
    pub h_mag: Option<F64>,
    /// The visible albedo.
    pub vis_albedo: Option<F64>,
    /// The diameter in kilometers.
    pub diameter: Option<F64>,
    /// The least distance between its orbit and that of the Earth in AU.
    pub moid: Option<F64>,
    /// The phase parameter.
    pub g_phase: Option<F64>,
    /// For how many days it has been observed.
    pub arc_len: Option<F64>,
    /// The orbit with its uncertainty.
    pub uncertain_state: Option<UncertainState<Equatorial, DynCenter>>,
    /// The force other than gravity.
    pub non_grav: Option<Fitted>,
    /// Other designations.
    pub alternate_desigs: Vec<String>,
    /// The response of the service.
    pub raw_json: Option<String>,
}

/// What a catalog knows of an object.
#[derive(Clone)]
pub struct PyHorizonsProperties(pub HorizonsProperties);

/// The mask of a force with all parameters free.
pub open spec fn free_mask(f: Option<Fitted>) -> Option<MaskModel> {
    match f {
        None => None,
        Some(f) => Some(
            MaskModel { inner: f.force, mask: nongrav::open_mask(f.force.n_params()) },
        ),
    }
}

impl PyHorizonsProperties {
    /// The covariance is of the right size, where there is one.
    pub open spec fn well_formed(&self) -> bool {
        self.0.uncertain_state matches Some(u) ==> u@.well_formed()
    }

    /// The orbit with its uncertainty, and the force other than gravity with all parameters free.
    pub fn uncertain_state(&self) -> (r: Option<PyUncertainState>)
        requires
            self.well_formed(),
        ensures
            match self.0.uncertain_state {
                None => r is None,
                Some(u) => {
                    &&& r is Some
                    &&& r->Some_0.state@ == u@
                    &&& shown::mask_model(r->Some_0.non_grav) == free_mask(self.0.non_grav)
                    &&& r->Some_0.well_formed()
                },
            },
    {
        match &self.0.uncertain_state {
            None => None,
            Some(u) => {
                let non_grav = match &self.0.non_grav {
                    None => None,
                    Some(f) => Some(nongrav::free_all(f.force)),
                };
                Some(PyUncertainState { state: u.clone(), non_grav })
            },
        }
    }

    /// The model of the force other than gravity.
    pub fn non_grav(&self) -> (r: Option<PyNonGravModel>)
        ensures
            r == (match self.0.non_grav {
                None => None,
                Some(f) => PyNonGravModel::of_force(f.force, f.values@),
            }),
    {
        match &self.0.non_grav {
            None => None,
            Some(f) => PyNonGravModel::from_force(&f.force, f.values.as_slice()),
        }
    }

    /// Samples of the orbit, one for each draw of independent normal variables, as states around
    /// the Sun with their models. `recenter` moves a state to another center.
    pub fn sample<A: Algebra, R: Fn(State<Equatorial>, i32) -> KeteResult<State<Equatorial>>>(
        &self,
        ops: &A,
        recenter: &R,
        draws: &Vec<Vec<F64>>,
    ) -> (r: KeteResult<Samples>)
        requires
            ops.lawful(),
            state::recenters(recenter),
            self.well_formed(),
            self.0.uncertain_state matches Some(u) ==> numbers::shaped(
                numbers::rows(draws@),
                draws@.len(),
                6 + u.free_params@.len(),
            ),
        ensures
            match self.0.uncertain_state {
                None => r == Err::<Samples, Error>(Error::ValueError(ValueFault::NoCovariance)),
                Some(u) => match u@.samples(ops, numbers::rows(draws@)) {
                    Err(e) => r == Err::<Samples, Error>(e),
                    Ok(s) => match r {
                        Err(e) => state::all_centered(recenter, shown::sample_states(s), Err(e)),
                        Ok(found) => {
                            &&& state::all_centered(
                                recenter,
                                shown::sample_states(s),
                                Ok(found.states),
                            )
                            &&& found.non_gravs@ == shown::sample_models(
                                free_mask(self.0.non_grav),
                                u.free_params@,
                                s,
                            )
                        },
                    },
                },
            },
    {
        match self.uncertain_state() {
            None => Err(Error::ValueError(ValueFault::NoCovariance)),
            Some(u) => u.sample(ops, recenter, draws),
        }
    }

    /// The response of the service.
    pub fn json(&self) -> (r: KeteResult<&str>)
        ensures
            match self.0.raw_json {
                None => r == Err::<&str, Error>(Error::ValueError(ValueFault::NoResponse)),
                Some(s) => r is Ok && r->Ok_0@ == s@,
            },
    {
        match &self.0.raw_json {
            None => Err(Error::ValueError(ValueFault::NoResponse)),
            Some(s) => Ok(s.as_str()),
        }
    }
}

} // verus!
