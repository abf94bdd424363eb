//! Propagation of many states: how the work is split up, and what becomes of states which
//! cannot be propagated.
use crate::errors::{Error, KeteResult, ValueFault};
use crate::float::F64;
use crate::frames::{DynCenter, Equatorial, SunCenter, SSB};
use crate::python::nongrav::PyNonGravModel;
use crate::python::state::PyState;
use crate::state::State;
use crate::time::Time;
use vstd::prelude::*;

verus! {

/// How many states are propagated before the user may interrupt.
pub const CHUNK: usize = 500;

/// Is `d` the least distance between the orbit of a state and another one, or NaN where it cannot
/// be found.
pub open spec fn apart<
    S: Fn(State<Equatorial>) -> KeteResult<State<Equatorial, SunCenter>>,
    M: Fn(State<Equatorial, SunCenter>, State<Equatorial, SunCenter>) -> KeteResult<F64>,
>(
    to_sun: &S,
    moid: &M,
    state: State<Equatorial>,
    other: State<Equatorial, SunCenter>,
    d: F64,
) -> bool {
    let nan = F64 { bits: crate::float::NAN_64 };
    exists|sun: KeteResult<State<Equatorial, SunCenter>>|
        {
            &&& #[trigger] call_ensures(*to_sun, (state,), sun)
            &&& match sun {
                Err(_) => d == nan,
                Ok(s) => exists|found: KeteResult<F64>|
                    #[trigger] call_ensures(*moid, (s, other), found) && d == (match found {
                        Ok(x) => x,
                        Err(_) => nan,
                    }),
            }
        }
}

/// Is `b` the state which distances are measured from: the given one, or that of the Earth.
pub open spec fn second<E: Fn(Time) -> KeteResult<State<Equatorial>>>(
    earth: &E,
    epoch: Time,
    state_b: Option<PyState>,
    b: KeteResult<State<Equatorial>>,
) -> bool {
    match state_b {
        Some(s) => b == Ok::<State<Equatorial>, Error>(s.raw),
        None => call_ensures(*earth, (epoch,), b),
    }
}

/// The least distance between the orbit of a state and another one.
fn find_apart<
    S: Fn(State<Equatorial>) -> KeteResult<State<Equatorial, SunCenter>>,
    M: Fn(State<Equatorial, SunCenter>, State<Equatorial, SunCenter>) -> KeteResult<F64>,
>(
    to_sun: &S,
    moid: &M,
    state: &State<Equatorial>,
    other: &State<Equatorial, SunCenter>,
) -> (d: F64)
    requires
        forall|s: State<Equatorial>| #[trigger] call_requires(*to_sun, (s,)),
        forall|s: State<Equatorial, SunCenter>, t: State<Equatorial, SunCenter>|
            #[trigger] call_requires(*moid, (s, t)),
    ensures
        apart(to_sun, moid, *state, *other, d),
{
    let sun = (*to_sun)(state.clone());
    match sun {
        Err(_) => F64::new_nan(),
        Ok(s) => {
            let found = (*moid)(s, other.clone());
            match found {
                Ok(x) => x,
                Err(_) => F64::new_nan(),
            }
        },
    }
}

/// The least distances between orbits: of each state from another one, which is the Earth where
/// none is given. `earth` finds the Earth, `to_sun` moves a state to the Sun, and `moid` finds the
/// distance between two orbits. A distance which cannot be found is NaN.
pub fn moid_py<
    E: Fn(Time) -> KeteResult<State<Equatorial>>,
    S: Fn(State<Equatorial>) -> KeteResult<State<Equatorial, SunCenter>>,
    M: Fn(State<Equatorial, SunCenter>, State<Equatorial, SunCenter>) -> KeteResult<F64>,
>(
    earth: &E,
    to_sun: &S,
    moid: &M,
    states: &Vec<PyState>,
    state_b: Option<PyState>,
) -> (r: KeteResult<Vec<F64>>)
    requires
        forall|t: Time| #[trigger] call_requires(*earth, (t,)),
        forall|s: State<Equatorial>| #[trigger] call_requires(*to_sun, (s,)),
        forall|s: State<Equatorial, SunCenter>, t: State<Equatorial, SunCenter>|
            #[trigger] call_requires(*moid, (s, t)),
    ensures
        if states@.len() == 0 {
            r == Err::<Vec<F64>, Error>(Error::ValueError(ValueFault::NoFirstStates))
        } else {
            exists|b: KeteResult<State<Equatorial>>|
                {
                    &&& #[trigger] second(earth, states@[0].raw.epoch, state_b, b)
                    &&& match b {
                        Err(e) => r == Err::<Vec<F64>, Error>(e),
                        Ok(b) => exists|other: KeteResult<State<Equatorial, SunCenter>>|
                            {
                                &&& #[trigger] call_ensures(*to_sun, (b,), other)
                                &&& match other {
                                    Err(e) => r == Err::<Vec<F64>, Error>(e),
                                    Ok(other) => r is Ok && all_apart(
                                        to_sun,
                                        moid,
                                        states@,
                                        other,
                                        r->Ok_0@,
                                    ),
                                }
                            },
                    }
                }
        },
{
    if states.len() == 0 {
        return Err(Error::ValueError(ValueFault::NoFirstStates));
    }
    let b = match &state_b {
        Some(s) => Ok(s.raw.clone()),
        None => (*earth)(states[0].raw.epoch),
    };
    assert(second(earth, states@[0].raw.epoch, state_b, b));
    let b = match b {
        Err(e) => {
            return Err(e);
        },
        Ok(b) => b,
    };
    let other = (*to_sun)(b);
    assert(call_ensures(*to_sun, (b,), other));
    match other {
        Err(e) => Err(e),
        Ok(other) => Ok(find_all_apart(to_sun, moid, states, &other)),
    }
}

/// Are `r` the least distances between the orbits of states and another one.
pub open spec fn all_apart<
    S: Fn(State<Equatorial>) -> KeteResult<State<Equatorial, SunCenter>>,
    M: Fn(State<Equatorial, SunCenter>, State<Equatorial, SunCenter>) -> KeteResult<F64>,
>(
    to_sun: &S,
    moid: &M,
    states: Seq<PyState>,
    other: State<Equatorial, SunCenter>,
    r: Seq<F64>,
) -> bool {
    &&& r.len() == states.len()
    &&& forall|i: int| 0 <= i < r.len() ==> apart(to_sun, moid, states[i].raw, other,
        #[trigger] r[i])
}

/// The least distances between the orbits of states and another one.
fn find_all_apart<
    S: Fn(State<Equatorial>) -> KeteResult<State<Equatorial, SunCenter>>,
    M: Fn(State<Equatorial, SunCenter>, State<Equatorial, SunCenter>) -> KeteResult<F64>,
>(
    to_sun: &S,
    moid: &M,
    states: &Vec<PyState>,
    other: &State<Equatorial, SunCenter>,
) -> (r: Vec<F64>)
    requires
        forall|s: State<Equatorial>| #[trigger] call_requires(*to_sun, (s,)),
        forall|s: State<Equatorial, SunCenter>, t: State<Equatorial, SunCenter>|
            #[trigger] call_requires(*moid, (s, t)),
    ensures
        all_apart(to_sun, moid, states@, *other, r@),
{
    let mut r: Vec<F64> = Vec::new();
    let mut i: usize = 0;
    while i < states.len()
        invariant
            forall|s: State<Equatorial>| #[trigger] call_requires(*to_sun, (s,)),
            forall|s: State<Equatorial, SunCenter>, t: State<Equatorial, SunCenter>|
                #[trigger] call_requires(*moid, (s, t)),
            i <= states@.len(),
            r@.len() == i,
            forall|k: int|
                0 <= k < i ==> apart(to_sun, moid, states@[k].raw, *other, #[trigger] r@[k]),
        decreases states@.len() - i,
    {
        let ghost before = r@;
        let d = find_apart(to_sun, moid, &states[i].raw, other);
        r.push(d);
        assert forall|k: int| 0 <= k <= i implies apart(
            to_sun,
            moid,
            states@[k].raw,
            *other,
            #[trigger] r@[k],
        ) by {
            if k < i {
                assert(r@[k] == before[k]);
            }
        }
        i = i + 1;
    }
    r
}

/// A part of a list.
#[derive(Debug, Clone, Copy)]
pub struct Piece {
    /// Where it starts.
    pub start: usize,
    /// Where it ends.
    pub end: usize,
}

/// A list of `n` entries from `start` on, in pieces of `size` entries. The last piece may be
/// shorter.
pub open spec fn pieces(start: int, n: int, size: int) -> Seq<Piece>
    decreases n - start,
{
    if start >= n || size <= 0 {
        Seq::empty()
    } else {
        let end = if n - start <= size {
            n
        } else {
            start + size
        };
        seq![Piece { start: start as usize, end: end as usize }] + pieces(end, n, size)
    }
}

/// Pieces follow one another without a gap, from the start to the end. None is empty or too
/// long.
pub proof fn law_pieces(start: int, n: int, size: int)
    requires
        0 <= start <= n <= usize::MAX,
        size > 0,
    ensures
        ({
            let all = pieces(start, n, size);
            &&& start < n ==> all.len() > 0 && all[0].start == start && all.last().end == n
            &&& forall|k: int|
                0 <= k < all.len() ==> 0 < (#[trigger] all[k]).end - all[k].start <= size
            &&& forall|k: int|
                0 <= k < all.len() - 1 ==> (#[trigger] all[k]).end == all[k + 1].start
        }),
    decreases n - start,
{
    if start < n {
        let end = if n - start <= size {
            n
        } else {
            start + size
        };
        law_pieces(end, n, size);
        let first = Piece { start: start as usize, end: end as usize };
        let rest = pieces(end, n, size);
        let all = pieces(start, n, size);
        assert(all =~= seq![first] + rest);
        if rest.len() > 0 {
            assert(all.last() == rest.last());
        } else {
            assert(all.last() == first);
        }
        assert forall|k: int| 0 <= k < all.len() implies 0 < (#[trigger] all[k]).end
            - all[k].start <= size by {
            if k > 0 {
                assert(all[k] == rest[k - 1]);
            }
        }
        assert forall|k: int| 0 <= k < all.len() - 1 implies (#[trigger] all[k]).end == all[k
            + 1].start by {
            assert(all[k + 1] == rest[k]);
            if k > 0 {
                assert(all[k] == rest[k - 1]);
            }
        }
    }
}

/// A list of `n` entries in pieces of `size` entries.
pub fn split(n: usize, size: usize) -> (r: Vec<Piece>)
    requires
        size > 0,
    ensures
        r@ == pieces(0, n as int, size as int),
{
    let mut r: Vec<Piece> = Vec::new();
    let mut start: usize = 0;
    assert(r@ + pieces(0, n as int, size as int) =~= pieces(0, n as int, size as int));
    while start < n
        invariant
            size > 0,
            start <= n,
            r@ + pieces(start as int, n as int, size as int) == pieces(
                0,
                n as int,
                size as int,
            ),
        decreases n - start,
    {
        let end: usize = if n - start <= size {
            n
        } else {
            start + size
        };
        let ghost before = r@;
        r.push(Piece { start, end });
        assert(before + pieces(start as int, n as int, size as int) =~= r@ + pieces(
            end as int,
            n as int,
            size as int,
        ));
        start = end;
    }
    assert(r@ =~= pieces(0, n as int, size as int));
    r
}

/// The models of states, none for each where no models are given.
pub open spec fn models_for(
    given: Option<Seq<Option<PyNonGravModel>>>,
    states: nat,
) -> Seq<Option<PyNonGravModel>> {
    match given {
        Some(models) => models,
        None => Seq::new(states, |i: int| None),
    }
}

/// Models as numbers.
pub open spec fn given_models(m: Option<Vec<Option<PyNonGravModel>>>) -> Option<
    Seq<Option<PyNonGravModel>>,
> {
    match m {
        Some(v) => Some(v@),
        None => None,
    }
}

/// The models of states, none for each where no models are given.
pub fn fill_models(given: Option<Vec<Option<PyNonGravModel>>>, states: usize) -> (r: Vec<
    Option<PyNonGravModel>,
>)
    ensures
        r@ == models_for(given_models(given), states as nat),
{
    match given {
        Some(models) => models,
        None => {
            let mut r: Vec<Option<PyNonGravModel>> = Vec::new();
            let mut i: usize = 0;
            while i < states
                invariant
                    i <= states,
                    r@ == models_for(None, i as nat),
                decreases states - i,
            {
                r.push(None);
                i = i + 1;
                assert(r@ =~= models_for(None, i as nat));
            }
            r
        },
    }
}

/// What became of a state: where it went, and which body it ran into if the user wants to know.
pub struct Moved {
    /// The state, or why there is none.
    pub state: KeteResult<PyState>,
    /// The body and the time of an impact to report.
    pub impact: Option<(i32, Time)>,
}

/// What becomes of a state when its propagation fails. Where errors are not suppressed, the
/// error stands. Where they are, the state is NaN, and an impact is reported if
/// `suppress_impact_errors` is set.
pub open spec fn failed(
    state: PyState,
    jd: Time,
    e: Error,
    suppress_errors: bool,
    suppress_impact_errors: bool,
) -> Moved {
    if !suppress_errors {
        Moved { state: Err(e), impact: None }
    } else {
        Moved {
            state: Ok(PyState::nan(state.raw.desig, jd, state.raw.center.0, state.frame)),
            impact: match e {
                Error::Impact(id, time) => if suppress_impact_errors {
                    Some((id, time))
                } else {
                    None
                },
                _ => None,
            },
        }
    }
}

/// Where errors are suppressed, a failed propagation gives a state at the asked time, around the
/// old center and without a position.
pub proof fn law_suppressed(state: PyState, jd: Time, e: Error, suppress_impact_errors: bool)
    ensures
        failed(state, jd, e, true, suppress_impact_errors).state matches Ok(s) && {
            &&& s.raw.desig == state.raw.desig
            &&& s.raw.epoch == jd
            &&& s.raw.center == state.raw.center
            &&& s.frame == state.frame
            &&& s.raw.pos == crate::frames::Vector::<Equatorial>::nan()
            &&& s.raw.vel == crate::frames::Vector::<Equatorial>::nan()
        },
{
}

/// What is taken of a propagated state.
pub open spec fn arrived(state: PyState, back: KeteResult<State<Equatorial>>) -> Moved {
    match back {
        Err(e) => Moved { state: Err(e), impact: None },
        Ok(raw) => Moved { state: Ok(PyState { raw, frame: state.frame }), impact: None },
    }
}

/// A state around a center which is known at run time only.
pub open spec fn uncentered(s: State<Equatorial, SSB>) -> State<Equatorial> {
    State { desig: s.desig, epoch: s.epoch, pos: s.pos, vel: s.vel, center: DynCenter(0) }
}

/// Is `m` what becomes of a state after it was moved to the barycenter.
pub open spec fn moved_from_there<
    P: Fn(State<Equatorial, SSB>, Option<PyNonGravModel>) -> KeteResult<State<Equatorial, SSB>>,
    R: Fn(State<Equatorial>, i32) -> KeteResult<State<Equatorial>>,
>(
    propagate: &P,
    recenter: &R,
    state: PyState,
    model: Option<PyNonGravModel>,
    jd: Time,
    suppress_errors: bool,
    suppress_impact_errors: bool,
    ssb: KeteResult<State<Equatorial, SSB>>,
    m: Moved,
) -> bool {
    match ssb {
        Err(e) => m == (Moved { state: Err(e), impact: None }),
        Ok(s) => exists|there: KeteResult<State<Equatorial, SSB>>|
            {
                &&& #[trigger] call_ensures(*propagate, (s, model), there)
                &&& match there {
                    Err(e) => m == failed(state, jd, e, suppress_errors, suppress_impact_errors),
                    Ok(t) => exists|back: KeteResult<State<Equatorial>>|
                        #[trigger] call_ensures(
                            *recenter,
                            (uncentered(t), state.raw.center.0),
                            back,
                        ) && m == arrived(state, back),
                }
            },
    }
}

/// Is `m` what becomes of a state. A state which is not finite is not propagated.
pub open spec fn moved<
    S: Fn(State<Equatorial>) -> KeteResult<State<Equatorial, SSB>>,
    P: Fn(State<Equatorial, SSB>, Option<PyNonGravModel>) -> KeteResult<State<Equatorial, SSB>>,
    R: Fn(State<Equatorial>, i32) -> KeteResult<State<Equatorial>>,
>(
    to_ssb: &S,
    propagate: &P,
    recenter: &R,
    state: PyState,
    model: Option<PyNonGravModel>,
    jd: Time,
    suppress_errors: bool,
    suppress_impact_errors: bool,
    m: Moved,
) -> bool {
    if !state.raw.finite() {
        m == failed(
            state,
            jd,
            Error::ValueError(ValueFault::NanState),
            suppress_errors,
            suppress_impact_errors,
        )
    } else {
        exists|ssb: KeteResult<State<Equatorial, SSB>>| #[trigger]
            call_ensures(*to_ssb, (state.raw,), ssb) && moved_from_there(
                propagate,
                recenter,
                state,
                model,
                jd,
                suppress_errors,
                suppress_impact_errors,
                ssb,
                m,
            )
    }
}

/// Can the functions which move states be called with any state.
pub open spec fn callable<
    S: Fn(State<Equatorial>) -> KeteResult<State<Equatorial, SSB>>,
    P: Fn(State<Equatorial, SSB>, Option<PyNonGravModel>) -> KeteResult<State<Equatorial, SSB>>,
    R: Fn(State<Equatorial>, i32) -> KeteResult<State<Equatorial>>,
>(to_ssb: &S, propagate: &P, recenter: &R) -> bool {
    &&& forall|s: State<Equatorial>| #[trigger] call_requires(*to_ssb, (s,))
    &&& forall|s: State<Equatorial, SSB>, m: Option<PyNonGravModel>|
        #[trigger] call_requires(*propagate, (s, m))
    &&& forall|s: State<Equatorial>, id: i32| #[trigger] call_requires(*recenter, (s, id))
}

/// What becomes of a state when its propagation fails.
fn fail(
    state: &PyState,
    jd: Time,
    e: Error,
    suppress_errors: bool,
    suppress_impact_errors: bool,
) -> (m: Moved)
    ensures
        m == failed(*state, jd, e, suppress_errors, suppress_impact_errors),
{
    if !suppress_errors {
        return Moved { state: Err(e), impact: None };
    }
    let impact = match e {
        Error::Impact(id, time) => if suppress_impact_errors {
            Some((id, time))
        } else {
            None
        },
        _ => None,
    };
    let nan = PyState::new_nan(state.raw.desig.clone(), jd, state.center_id(), state.frame);
    Moved { state: Ok(nan), impact }
}

/// Propagate one state. `to_ssb` moves a state to the barycenter, `propagate` propagates it there
/// under gravity and the force of a model, and `recenter` moves it to another center.
pub fn propagate_one<
    S: Fn(State<Equatorial>) -> KeteResult<State<Equatorial, SSB>>,
    P: Fn(State<Equatorial, SSB>, Option<PyNonGravModel>) -> KeteResult<State<Equatorial, SSB>>,
    R: Fn(State<Equatorial>, i32) -> KeteResult<State<Equatorial>>,
>(
    to_ssb: &S,
    propagate: &P,
    recenter: &R,
    state: &PyState,
    model: Option<PyNonGravModel>,
    jd: Time,
    suppress_errors: bool,
    suppress_impact_errors: bool,
) -> (m: Moved)
    requires
        callable(to_ssb, propagate, recenter),
    ensures
        moved(
            to_ssb,
            propagate,
            recenter,
            *state,
            model,
            jd,
            suppress_errors,
            suppress_impact_errors,
            m,
        ),
{
    if !state.raw.is_finite() {
        return fail(
            state,
            jd,
            Error::ValueError(ValueFault::NanState),
            suppress_errors,
            suppress_impact_errors,
        );
    }
    let center = state.center_id();
    let ssb = (*to_ssb)(state.raw.clone());
    let m = match ssb {
        Err(e) => Moved { state: Err(e), impact: None },
        Ok(s) => {
            let there = (*propagate)(s, model);
            match there {
                Err(e) => fail(state, jd, e, suppress_errors, suppress_impact_errors),
                Ok(t) => {
                    let back = (*recenter)(State::from(t), center);
                    match back {
                        Err(e) => Moved { state: Err(e), impact: None },
                        Ok(raw) => Moved {
                            state: Ok(PyState { raw, frame: state.frame }),
                            impact: None,
                        },
                    }
                },
            }
        },
    };
    m
}

/// The states which were propagated, and the impacts on the way.
pub struct Propagated {
    /// The states.
    pub states: Vec<PyState>,
    /// The object, the body and the time of each impact to report.
    pub impacts: Vec<(usize, i32, Time)>,
}

/// What is reported of the first `n` states.
pub open spec fn reports(all: Seq<Moved>, n: nat) -> Seq<(usize, i32, Time)>
    decreases n,
{
    if n == 0 {
        Seq::empty()
    } else {
        let before = reports(all, (n - 1) as nat);
        match all[n - 1].impact {
            None => before,
            Some((id, time)) => before.push(((n - 1) as usize, id, time)),
        }
    }
}

/// Is `r` what became of states: all of them with the impacts to report, or the first error.
pub open spec fn gathered(all: Seq<Moved>, r: KeteResult<Propagated>) -> bool {
    match r {
        Ok(p) => {
            &&& p.states@.len() == all.len()
            &&& forall|i: int|
                0 <= i < all.len() ==> (#[trigger] all[i]).state == Ok::<PyState, Error>(
                    p.states@[i],
                )
            &&& p.impacts@ == reports(all, all.len())
        },
        Err(e) => exists|n: int|
            {
                &&& 0 <= n < all.len()
                &&& (#[trigger] all[n]).state == Err::<PyState, Error>(e)
                &&& forall|i: int| 0 <= i < n ==> (#[trigger] all[i]).state is Ok
            },
    }
}

/// Put together what became of states.
pub fn gather(all: Vec<Moved>) -> (r: KeteResult<Propagated>)
    ensures
        gathered(all@, r),
{
    let mut states: Vec<PyState> = Vec::new();
    let mut impacts: Vec<(usize, i32, Time)> = Vec::new();
    let mut i: usize = 0;
    while i < all.len()
        invariant
            i <= all@.len(),
            states@.len() == i,
            forall|k: int|
                0 <= k < i ==> (#[trigger] all@[k]).state == Ok::<PyState, Error>(states@[k]),
            impacts@ == reports(all@, i as nat),
        decreases all@.len() - i,
    {
        let one = &all[i];
        match &one.state {
            Err(e) => {
                assert(all@[i as int].state == Err::<PyState, Error>(*e));
                return Err(*e);
            },
            Ok(s) => {
                states.push(s.clone());
            },
        }
        if let Some((id, time)) = one.impact {
            impacts.push((i, id, time));
        }
        i = i + 1;
    }
    Ok(Propagated { states, impacts })
}

/// Is `all` what becomes of states with their models.
pub open spec fn all_moved<
    S: Fn(State<Equatorial>) -> KeteResult<State<Equatorial, SSB>>,
    P: Fn(State<Equatorial, SSB>, Option<PyNonGravModel>) -> KeteResult<State<Equatorial, SSB>>,
    R: Fn(State<Equatorial>, i32) -> KeteResult<State<Equatorial>>,
>(
    to_ssb: &S,
    propagate: &P,
    recenter: &R,
    states: Seq<PyState>,
    models: Seq<Option<PyNonGravModel>>,
    jd: Time,
    suppress_errors: bool,
    suppress_impact_errors: bool,
    all: Seq<Moved>,
) -> bool {
    &&& all.len() == states.len()
    &&& forall|i: int|
        0 <= i < all.len() ==> moved(
            to_ssb,
            propagate,
            recenter,
            states[i],
            models[i],
            jd,
            suppress_errors,
            suppress_impact_errors,
            #[trigger] all[i],
        )
}

/// Propagate states. There have to be as many models as states, if there are any.
pub fn propagation_n_body_spk_py<
    S: Fn(State<Equatorial>) -> KeteResult<State<Equatorial, SSB>>,
    P: Fn(State<Equatorial, SSB>, Option<PyNonGravModel>) -> KeteResult<State<Equatorial, SSB>>,
    R: Fn(State<Equatorial>, i32) -> KeteResult<State<Equatorial>>,
>(
    to_ssb: &S,
    propagate: &P,
    recenter: &R,
    states: &Vec<PyState>,
    jd: Time,
    non_gravs: Option<Vec<Option<PyNonGravModel>>>,
    suppress_errors: bool,
    suppress_impact_errors: bool,
) -> (r: KeteResult<Propagated>)
    requires
        callable(to_ssb, propagate, recenter),
    ensures
        ({
            let models = models_for(given_models(non_gravs), states@.len());
            if models.len() != states@.len() {
                r == Err::<Propagated, Error>(
                    Error::ValueError(
                        ValueFault::NonGravCount {
                            models: models.len() as usize,
                            states: states@.len() as usize,
                        },
                    ),
                )
            } else {
                exists|all: Seq<Moved>|
                    #[trigger] all_moved(
                        to_ssb,
                        propagate,
                        recenter,
                        states@,
                        models,
                        jd,
                        suppress_errors,
                        suppress_impact_errors,
                        all,
                    ) && gathered(all, r)
            }
        }),
{
    let models = fill_models(non_gravs, states.len());
    if models.len() != states.len() {
        return Err(
            Error::ValueError(
                ValueFault::NonGravCount { models: models.len(), states: states.len() },
            ),
        );
    }
    let mut all: Vec<Moved> = Vec::new();
    let mut i: usize = 0;
    while i < states.len()
        invariant
            callable(to_ssb, propagate, recenter),
            models@.len() == states@.len(),
            i <= states@.len(),
            all@.len() == i,
            forall|k: int|
                0 <= k < i ==> moved(
                    to_ssb,
                    propagate,
                    recenter,
                    states@[k],
                    models@[k],
                    jd,
                    suppress_errors,
                    suppress_impact_errors,
                    #[trigger] all@[k],
                ),
        decreases states@.len() - i,
    {
        let one = propagate_one(
            to_ssb,
            propagate,
            recenter,
            &states[i],
            models[i],
            jd,
            suppress_errors,
            suppress_impact_errors,
        );
        let ghost before = all@;
        all.push(one);
        assert forall|k: int| 0 <= k <= i implies moved(
            to_ssb,
            propagate,
            recenter,
            states@[k],
            models@[k],
            jd,
            suppress_errors,
            suppress_impact_errors,
            #[trigger] all@[k],
        ) by {
            if k < i {
                assert(all@[k] == before[k]);
            }
        }
        i = i + 1;
    }
    assert(all_moved(
        to_ssb,
        propagate,
        recenter,
        states@,
        models@,
        jd,
        suppress_errors,
        suppress_impact_errors,
        all@,
    ));
    gather(all)
}

/// Objects and planets after a batch was propagated.
pub struct Batch {
    /// The objects.
    pub states: Vec<PyState>,
    /// The planets.
    pub planets: Vec<PyState>,
}

/// The objects of the first `n` batches, one batch after the other.
pub open spec fn all_states(batches: Seq<Batch>, n: nat) -> Seq<PyState>
    decreases n,
{
    if n == 0 {
        Seq::empty()
    } else {
        all_states(batches, (n - 1) as nat) + batches[n - 1].states@
    }
}

/// Put batches together: the objects of all of them, and the planets of the last.
fn join(batches: Vec<Batch>) -> (r: Batch)
    ensures
        joined(batches@, r),
{
    let ghost all = batches@;
    let n: usize = batches.len();
    let mut batches = batches;
    let mut states: Vec<PyState> = Vec::new();
    let mut planets: Vec<PyState> = Vec::new();
    let mut i: usize = 0;
    assert(planets@ =~= Seq::empty());
    while i < n
        invariant
            n == all.len(),
            i <= n,
            batches@ == all.skip(i as int),
            states@ == all_states(all, i as nat),
            planets@ == (if i == 0 {
                Seq::empty()
            } else {
                all[i - 1].planets@
            }),
        decreases n - i,
    {
        let batch = batches.remove(0);
        assert(batch == all[i as int]);
        let mut more = batch.states;
        states.append(&mut more);
        planets = batch.planets;
        assert(batches@ =~= all.skip(i + 1));
        i = i + 1;
    }
    Batch { states, planets }
}

/// Is `r` made of batches: the objects of all of them, and the planets of the last.
pub open spec fn joined(batches: Seq<Batch>, r: Batch) -> bool {
    &&& r.states@ == all_states(batches, batches.len())
    &&& r.planets@ == (if batches.len() == 0 {
        Seq::empty()
    } else {
        batches.last().planets@
    })
}

/// Are `suns` the states of a piece around the Sun.
pub open spec fn all_at_sun<S: Fn(State<Equatorial>) -> KeteResult<State<Equatorial, SunCenter>>>(
    to_sun: &S,
    states: Seq<PyState>,
    piece: Piece,
    suns: Seq<State<Equatorial, SunCenter>>,
) -> bool {
    &&& suns.len() == piece.end - piece.start
    &&& forall|j: int|
        0 <= j < suns.len() ==> call_ensures(
            *to_sun,
            (states[piece.start + j].raw,),
            Ok(#[trigger] suns[j]),
        )
}

/// Is `r` what becomes of a piece of states: they are moved to the Sun and propagated together. A
/// state which cannot be moved there stops its batch.
pub open spec fn batched<
    S: Fn(State<Equatorial>) -> KeteResult<State<Equatorial, SunCenter>>,
    P: Fn(Vec<State<Equatorial, SunCenter>>, Vec<Option<PyNonGravModel>>) -> KeteResult<Batch>,
>(
    to_sun: &S,
    propagate: &P,
    states: Seq<PyState>,
    models: Seq<Option<PyNonGravModel>>,
    piece: Piece,
    r: KeteResult<Batch>,
) -> bool {
    ||| exists|suns: Vec<State<Equatorial, SunCenter>>, own: Vec<Option<PyNonGravModel>>|
        {
            &&& all_at_sun(to_sun, states, piece, suns@)
            &&& own@ == models.subrange(piece.start as int, piece.end as int)
            &&& #[trigger] call_ensures(*propagate, (suns, own), r)
        }
    ||| r matches Err(e) && exists|j: int|
        piece.start <= j < piece.end && call_ensures(*to_sun, (#[trigger] states[j].raw,), Err(e))
}

/// Can the functions which move states be called with any state.
pub open spec fn batch_callable<
    S: Fn(State<Equatorial>) -> KeteResult<State<Equatorial, SunCenter>>,
    P: Fn(Vec<State<Equatorial, SunCenter>>, Vec<Option<PyNonGravModel>>) -> KeteResult<Batch>,
>(to_sun: &S, propagate: &P) -> bool {
    &&& forall|s: State<Equatorial>| #[trigger] call_requires(*to_sun, (s,))
    &&& forall|s: Vec<State<Equatorial, SunCenter>>, m: Vec<Option<PyNonGravModel>>|
        #[trigger] call_requires(*propagate, (s, m))
}

/// Propagate a piece of states together.
fn propagate_batch<
    S: Fn(State<Equatorial>) -> KeteResult<State<Equatorial, SunCenter>>,
    P: Fn(Vec<State<Equatorial, SunCenter>>, Vec<Option<PyNonGravModel>>) -> KeteResult<Batch>,
>(
    to_sun: &S,
    propagate: &P,
    states: &Vec<PyState>,
    models: &Vec<Option<PyNonGravModel>>,
    piece: Piece,
) -> (r: KeteResult<Batch>)
    requires
        batch_callable(to_sun, propagate),
        piece.start <= piece.end <= states@.len(),
        piece.end <= models@.len(),
    ensures
        batched(to_sun, propagate, states@, models@, piece, r),
{
    let mut suns: Vec<State<Equatorial, SunCenter>> = Vec::new();
    let mut own: Vec<Option<PyNonGravModel>> = Vec::new();
    let mut i: usize = piece.start;
    while i < piece.end
        invariant
            batch_callable(to_sun, propagate),
            piece.start <= i <= piece.end,
            piece.end <= states@.len(),
            piece.end <= models@.len(),
            suns@.len() == i - piece.start,
            forall|j: int|
                0 <= j < suns@.len() ==> call_ensures(
                    *to_sun,
                    (states@[piece.start + j].raw,),
                    Ok(#[trigger] suns@[j]),
                ),
            own@ == models@.subrange(piece.start as int, i as int),
        decreases piece.end - i,
    {
        let sun = (*to_sun)(states[i].raw.clone());
        assert(call_ensures(*to_sun, (states@[i as int].raw,), sun));
        match sun {
            Err(e) => {
                return Err(e);
            },
            Ok(s) => {
                let ghost before = suns@;
                assert(call_ensures(*to_sun, (states@[i as int].raw,), Ok(s)));
                suns.push(s);
                assert forall|j: int| 0 <= j < suns@.len() implies call_ensures(
                    *to_sun,
                    (states@[piece.start + j].raw,),
                    Ok(#[trigger] suns@[j]),
                ) by {
                    if j < before.len() {
                        assert(suns@[j] == before[j]);
                        assert(call_ensures(
                            *to_sun,
                            (states@[piece.start + j].raw,),
                            Ok(before[j]),
                        ));
                    } else {
                        assert(suns@[j] == s);
                        assert(piece.start + j == i);
                    }
                }
            },
        }
        own.push(models[i]);
        i = i + 1;
        assert(own@ =~= models@.subrange(piece.start as int, i as int));
    }
    assert(all_at_sun(to_sun, states@, piece, suns@));
    (*propagate)(suns, own)
}

/// Are `batches` what becomes of all pieces.
pub open spec fn all_batched<
    S: Fn(State<Equatorial>) -> KeteResult<State<Equatorial, SunCenter>>,
    P: Fn(Vec<State<Equatorial, SunCenter>>, Vec<Option<PyNonGravModel>>) -> KeteResult<Batch>,
>(
    to_sun: &S,
    propagate: &P,
    states: Seq<PyState>,
    models: Seq<Option<PyNonGravModel>>,
    all: Seq<Piece>,
    batches: Seq<Batch>,
) -> bool {
    &&& batches.len() == all.len()
    &&& forall|k: int|
        0 <= k < all.len() ==> batched(
            to_sun,
            propagate,
            states,
            models,
            #[trigger] all[k],
            Ok(batches[k]),
        )
}

/// Propagate states in batches together with the planets. There have to be as many models as
/// states, if there are any. `to_sun` moves a state to the Sun, and `propagate` propagates a batch
/// under gravity and the forces of models. The planets are those of the last batch.
pub fn propagation_n_body_py<
    S: Fn(State<Equatorial>) -> KeteResult<State<Equatorial, SunCenter>>,
    P: Fn(Vec<State<Equatorial, SunCenter>>, Vec<Option<PyNonGravModel>>) -> KeteResult<Batch>,
>(
    to_sun: &S,
    propagate: &P,
    states: &Vec<PyState>,
    non_gravs: Option<Vec<Option<PyNonGravModel>>>,
    batch_size: usize,
) -> (r: KeteResult<Batch>)
    requires
        batch_callable(to_sun, propagate),
        batch_size > 0,
    ensures
        ({
            let models = models_for(given_models(non_gravs), states@.len());
            let all = pieces(0, states@.len() as int, batch_size as int);
            if models.len() != states@.len() {
                r == Err::<Batch, Error>(
                    Error::ValueError(
                        ValueFault::NonGravCount {
                            models: models.len() as usize,
                            states: states@.len() as usize,
                        },
                    ),
                )
            } else {
                match r {
                    Ok(b) => exists|batches: Seq<Batch>|
                        #[trigger] all_batched(to_sun, propagate, states@, models, all, batches)
                            && joined(batches, b),
                    Err(e) => exists|k: int|
                        0 <= k < all.len() && batched(
                            to_sun,
                            propagate,
                            states@,
                            models,
                            #[trigger] all[k],
                            Err(e),
                        ),
                }
            }
        }),
{
    let ghost given = models_for(given_models(non_gravs), states@.len());
    let models = fill_models(non_gravs, states.len());
    let n = states.len();
    if models.len() != n {
        return Err(
            Error::ValueError(ValueFault::NonGravCount { models: models.len(), states: n }),
        );
    }
    let all = split(n, batch_size);
    let mut batches: Vec<Batch> = Vec::new();
    let mut i: usize = 0;
    while i < all.len()
        invariant
            batch_callable(to_sun, propagate),
            batch_size > 0,
            given == models@,
            given == models_for(given_models(non_gravs), states@.len()),
            all@ == pieces(0, n as int, batch_size as int),
            n == states@.len(),
            n == models@.len(),
            i <= all@.len(),
            batches@.len() == i,
            forall|k: int|
                0 <= k < i ==> batched(
                    to_sun,
                    propagate,
                    states@,
                    models@,
                    #[trigger] all@[k],
                    Ok(batches@[k]),
                ),
        decreases all@.len() - i,
    {
        proof {
            lemma_piece_inside(0, n as int, batch_size as int, i as int);
        }
        let one = propagate_batch(to_sun, propagate, states, &models, all[i]);
        assert(batched(to_sun, propagate, states@, models@, all@[i as int], one));
        match one {
            Err(e) => {
                return Err(e);
            },
            Ok(b) => {
                let ghost before = batches@;
                batches.push(b);
                assert forall|k: int| 0 <= k <= i implies batched(
                    to_sun,
                    propagate,
                    states@,
                    models@,
                    #[trigger] all@[k],
                    Ok(batches@[k]),
                ) by {
                    if k < i {
                        assert(batches@[k] == before[k]);
                        assert(batched(
                            to_sun,
                            propagate,
                            states@,
                            models@,
                            all@[k],
                            Ok(before[k]),
                        ));
                    } else {
                        assert(batches@[k] == b);
                    }
                }
            },
        }
        i = i + 1;
    }
    let ghost done = batches@;
    let r = join(batches);
    assert(all_batched(to_sun, propagate, states@, given, all@, done));
    Ok(r)
}

/// A piece lies between the start and the end of a list.
proof fn lemma_piece_inside(start: int, n: int, size: int, k: int)
    requires
        0 <= start <= n <= usize::MAX,
        size > 0,
        0 <= k < pieces(start, n, size).len(),
    ensures
        start <= pieces(start, n, size)[k].start <= pieces(start, n, size)[k].end <= n,
    decreases n - start,
{
    let end = if n - start <= size {
        n
    } else {
        start + size
    };
    let first = Piece { start: start as usize, end: end as usize };
    let rest = pieces(end, n, size);
    assert(pieces(start, n, size) =~= seq![first] + rest);
    if k > 0 {
        lemma_piece_inside(end, n, size, k - 1);
    }
}

} // verus!
