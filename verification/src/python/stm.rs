//! How the final state depends on the initial one.
use crate::errors::{Error, KeteResult};
use crate::float::F64;
use crate::frames::{Equatorial, SSB};
use crate::numbers;
use crate::python::nongrav::PyNonGravModel;
use crate::python::propagation;
use crate::python::state::{PyFrames, PyState};
use crate::python::uncertain as shown;
use crate::state::State;
use crate::table::Table;
use vstd::prelude::*;

verus! {

/// A propagated state and its derivatives, row by row.
pub struct Transition {
    /// The state.
    pub state: PyState,
    /// The derivatives.
    pub rows: Vec<Vec<F64>>,
}

/// A propagated state around the barycenter and its derivatives.
pub struct Reached {
    /// The state.
    pub state: State<Equatorial, SSB>,
    /// The derivatives.
    pub sens: Table,
}

/// Is `r` what is shown of a propagated state and its derivatives: the state is moved to the
/// center `center_id`.
pub open spec fn returned<R: Fn(State<Equatorial>, i32) -> KeteResult<State<Equatorial>>>(
    recenter: &R,
    there: Reached,
    center_id: i32,
    frame: PyFrames,
    r: KeteResult<Transition>,
) -> bool {
    exists|back: KeteResult<State<Equatorial>>|
        {
            &&& #[trigger] call_ensures(
                *recenter,
                (propagation::uncentered(there.state), center_id),
                back,
            )
            &&& match back {
                Err(e) => r == Err::<Transition, Error>(e),
                Ok(raw) => {
                    &&& r is Ok
                    &&& r->Ok_0.state == (PyState { raw, frame })
                    &&& numbers::rows(r->Ok_0.rows@) == there.sens@.cells
                },
            }
        }
}

/// What is shown of a propagated state and its derivatives.
fn give_back<R: Fn(State<Equatorial>, i32) -> KeteResult<State<Equatorial>>>(
    recenter: &R,
    there: Reached,
    center_id: i32,
    frame: PyFrames,
) -> (r: KeteResult<Transition>)
    requires
        forall|s: State<Equatorial>, id: i32| #[trigger] call_requires(*recenter, (s, id)),
        there.sens@.well_formed(),
    ensures
        returned(recenter, there, center_id, frame, r),
{
    let back = (*recenter)(State::from(there.state), center_id);
    match back {
        Err(e) => Err(e),
        Ok(raw) => Ok(
            Transition { state: PyState { raw, frame }, rows: shown::rows_of(&there.sens) },
        ),
    }
}

/// Propagate a state and its derivatives. `to_ssb` moves it to the barycenter, `transition`
/// propagates it there under gravity and the force of a model, and `recenter` moves it back to its
/// old center.
pub fn compute_stm_py<
    S: Fn(State<Equatorial>) -> KeteResult<State<Equatorial, SSB>>,
    P: Fn(State<Equatorial, SSB>, Option<PyNonGravModel>) -> KeteResult<Reached>,
    R: Fn(State<Equatorial>, i32) -> KeteResult<State<Equatorial>>,
>(
    to_ssb: &S,
    transition: &P,
    recenter: &R,
    state: PyState,
    non_grav: Option<PyNonGravModel>,
) -> (r: KeteResult<Transition>)
    requires
        forall|s: State<Equatorial>| #[trigger] call_requires(*to_ssb, (s,)),
        forall|s: State<Equatorial, SSB>, m: Option<PyNonGravModel>|
            #[trigger] call_requires(*transition, (s, m)),
        forall|s: State<Equatorial, SSB>, m: Option<PyNonGravModel>, t: Reached|
            #[trigger] call_ensures(*transition, (s, m), Ok(t)) ==> t.sens@.well_formed(),
        forall|s: State<Equatorial>, id: i32| #[trigger] call_requires(*recenter, (s, id)),
    ensures
        exists|ssb: KeteResult<State<Equatorial, SSB>>|
            {
                &&& #[trigger] call_ensures(*to_ssb, (state.raw,), ssb)
                &&& match ssb {
                    Err(e) => r == Err::<Transition, Error>(e),
                    Ok(s) => exists|there: KeteResult<Reached>|
                        {
                            &&& #[trigger] call_ensures(*transition, (s, non_grav), there)
                            &&& match there {
                                Err(e) => r == Err::<Transition, Error>(e),
                                Ok(t) => returned(
                                    recenter,
                                    t,
                                    state.raw.center.0,
                                    state.frame,
                                    r,
                                ),
                            }
                        },
                }
            },
{
    let center_id = state.center_id();
    let frame = state.frame;
    let ssb = (*to_ssb)(state.raw);
    assert(call_ensures(*to_ssb, (state.raw,), ssb));
    match ssb {
        Err(e) => Err(e),
        Ok(s) => {
            let there = (*transition)(s, non_grav);
            assert(call_ensures(*transition, (s, non_grav), there));
            match there {
                Err(e) => Err(e),
                Ok(t) => {
                    assert(call_ensures(*transition, (s, non_grav), Ok(t)));
                    give_back(recenter, t, center_id, frame)
                },
            }
        },
    }
}

} // verus!
