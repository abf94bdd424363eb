//! States as they are shown.
use crate::arithmetic::Arithmetic;
use crate::constants;
use crate::constants::Constants;
use crate::desig::Desig;
use crate::errors::{Error, KeteResult};
use crate::exact;
use crate::float::F64;
use crate::frames;
use crate::frames::{CenterBody, DynCenter, Ecliptic, Equatorial};
use crate::rounding;
use crate::rounding::{read, Reading, Triple};
use crate::state::uncertain;
use crate::state::State;
use crate::time::Time;
use vstd::prelude::*;
use vstd::std_specs::convert::FromSpecImpl;

verus! {

/// The frames which a state can be shown in.
#[derive(Debug, Clone, Copy, PartialEq, Eq, Structural)]
pub enum PyFrames {
    /// The frame of the ecliptic.
    Ecliptic,
    /// The frame of the equator.
    Equatorial,
}

/// A state and the frame it is shown in. It is kept in the frame of the equator whichever frame
/// that is.
#[derive(Debug)]
pub struct PyState {
    /// The state.
    pub raw: State<Equatorial>,
    /// The frame it is shown in.
    pub frame: PyFrames,
}

impl Clone for PyState {
    fn clone(&self) -> (r: Self)
        ensures
            r == *self,
    {
        PyState { raw: self.raw.clone(), frame: self.frame }
    }
}

impl FromSpecImpl<State<Equatorial>> for PyState {
    open spec fn obeys_from_spec() -> bool {
        true
    }

    open spec fn from_spec(raw: State<Equatorial>) -> Self {
        PyState { raw, frame: PyFrames::Ecliptic }
    }
}

impl From<State<Equatorial>> for PyState {
    fn from(raw: State<Equatorial>) -> (r: Self) {
        PyState { raw, frame: PyFrames::Ecliptic }
    }
}

/// A state of the frame of the ecliptic in the frame of the equator.
pub open spec fn equatorial_state<A: Arithmetic>(
    ops: &A,
    c: Constants,
    s: State<Ecliptic>,
) -> State<Equatorial> {
    State {
        desig: s.desig,
        epoch: s.epoch,
        pos: uncertain::equatorial(ops, c, s.pos),
        vel: uncertain::equatorial(ops, c, s.vel),
        center: s.center,
    }
}

/// A state of the frame of the equator in the frame of the ecliptic.
pub open spec fn ecliptic_state<A: Arithmetic>(
    ops: &A,
    c: Constants,
    s: State<Equatorial>,
) -> State<Ecliptic> {
    State {
        desig: s.desig,
        epoch: s.epoch,
        pos: uncertain::ecliptic(ops, c, s.pos),
        vel: uncertain::ecliptic(ops, c, s.vel),
        center: s.center,
    }
}

/// Is `r` the state `s` around the body `center_id`. A state which is not yet there is moved by
/// `recenter`.
pub open spec fn centered<R: Fn(State<Equatorial>, i32) -> KeteResult<State<Equatorial>>>(
    recenter: &R,
    s: State<Equatorial>,
    center_id: i32,
    r: KeteResult<State<Equatorial>>,
) -> bool {
    if s.center.0 == center_id {
        r == Ok::<State<Equatorial>, Error>(s)
    } else {
        call_ensures(*recenter, (s, center_id), r)
    }
}

/// Can `recenter` move any state to any body.
pub open spec fn recenters<R: Fn(State<Equatorial>, i32) -> KeteResult<State<Equatorial>>>(
    recenter: &R,
) -> bool {
    forall|s: State<Equatorial>, center_id: i32|
        #[trigger] call_requires(*recenter, (s, center_id))
}

/// A state around the body `center_id`.
pub fn center_on<R: Fn(State<Equatorial>, i32) -> KeteResult<State<Equatorial>>>(
    recenter: &R,
    s: State<Equatorial>,
    center_id: i32,
) -> (r: KeteResult<State<Equatorial>>)
    requires
        recenters(recenter),
    ensures
        centered(recenter, s, center_id, r),
{
    if s.center_id() == center_id {
        Ok(s)
    } else {
        (*recenter)(s, center_id)
    }
}

/// Is `t` the state `s` around the Sun.
pub open spec fn at_sun<R: Fn(State<Equatorial>, i32) -> KeteResult<State<Equatorial>>>(
    recenter: &R,
    s: State<Equatorial>,
    t: State<Equatorial>,
) -> bool {
    centered(recenter, s, 10, Ok(t))
}

/// Can the state `s` be moved to the Sun.
pub open spec fn reaches_sun<R: Fn(State<Equatorial>, i32) -> KeteResult<State<Equatorial>>>(
    recenter: &R,
    s: State<Equatorial>,
) -> bool {
    exists|t: State<Equatorial>| at_sun(recenter, s, t)
}

/// Are `r` the states `s` around the Sun, or is it the fault of the first one that cannot be
/// moved there.
pub open spec fn all_centered<R: Fn(State<Equatorial>, i32) -> KeteResult<State<Equatorial>>>(
    recenter: &R,
    s: Seq<State<Equatorial>>,
    r: KeteResult<Vec<PyState>>,
) -> bool {
    match r {
        Ok(all) => {
            &&& all@.len() == s.len()
            &&& forall|i: int|
                0 <= i < s.len() ==> centered(recenter, #[trigger] s[i], 10, Ok(all@[i].raw))
                    && all@[i].frame == PyFrames::Ecliptic
        },
        Err(e) => exists|n: int|
            {
                &&& 0 <= n < s.len()
                &&& centered(recenter, #[trigger] s[n], 10, Err(e))
                &&& forall|i: int|
                    0 <= i < n ==> reaches_sun(recenter, #[trigger] s[i])
            },
    }
}

/// Move states to the Sun.
pub fn show_all<R: Fn(State<Equatorial>, i32) -> KeteResult<State<Equatorial>>>(
    recenter: &R,
    states: &Vec<State<Equatorial>>,
) -> (r: KeteResult<Vec<PyState>>)
    requires
        recenters(recenter),
    ensures
        all_centered(recenter, states@, r),
{
    let mut all: Vec<PyState> = Vec::new();
    let mut i: usize = 0;
    while i < states.len()
        invariant
            recenters(recenter),
            i <= states@.len(),
            all@.len() == i,
            forall|k: int|
                0 <= k < i ==> centered(recenter, #[trigger] states@[k], 10, Ok(all@[k].raw))
                    && all@[k].frame == PyFrames::Ecliptic,
        decreases states@.len() - i,
    {
        let moved = center_on(recenter, states[i].clone(), 10);
        assert(centered(recenter, states@[i as int], 10, moved));
        match moved {
            Err(e) => {
                assert forall|k: int| 0 <= k < i implies reaches_sun(
                    recenter,
                    #[trigger] states@[k],
                ) by {
                    assert(at_sun(recenter, states@[k], all@[k].raw));
                }
                return Err(e);
            },
            Ok(raw) => {
                let ghost before = all@;
                assert(centered(recenter, states@[i as int], 10, Ok(raw)));
                let shown = PyState::from(raw);
                assert(shown == (PyState { raw, frame: PyFrames::Ecliptic }));
                all.push(shown);
                assert forall|k: int| 0 <= k <= i implies centered(
                    recenter,
                    #[trigger] states@[k],
                    10,
                    Ok(all@[k].raw),
                ) && all@[k].frame == PyFrames::Ecliptic by {
                    if k < i {
                        assert(all@[k] == before[k]);
                        assert(centered(recenter, states@[k], 10, Ok(before[k].raw)));
                    } else {
                        assert(all@[k] == shown);
                    }
                }
            },
        }
        i = i + 1;
    }
    Ok(all)
}

impl PyState {
    /// The same state, shown in another frame.
    pub fn change_frame(self, frame: PyFrames) -> (r: Self)
        ensures
            r == (PyState { raw: self.raw, frame }),
    {
        PyState { raw: self.raw, frame }
    }

    /// The NAIF id of the center.
    pub fn center_id(&self) -> (id: i32)
        ensures
            id == self.raw.center.0,
    {
        self.raw.center_id()
    }

    /// A state whose position and velocity are NaN.
    pub fn new_nan(desig: Desig, epoch: Time, center_id: i32, frame: PyFrames) -> (r: Self)
        ensures
            r == Self::nan(desig, epoch, center_id, frame),
    {
        PyState { raw: State::new_nan(desig, epoch, DynCenter(center_id)), frame }
    }

    /// A state whose position and velocity are NaN.
    pub open spec fn nan(desig: Desig, epoch: Time, center_id: i32, frame: PyFrames) -> Self {
        PyState {
            raw: State {
                desig,
                epoch,
                pos: crate::frames::Vector::nan(),
                vel: crate::frames::Vector::nan(),
                center: DynCenter(center_id),
            },
            frame,
        }
    }

    /// A state of the frame of the ecliptic, which is also what it is shown in.
    pub fn of_ecliptic<A: Arithmetic>(ops: &A, c: Constants, s: State<Ecliptic>) -> (r: Self)
        requires
            ops.lawful(),
        ensures
            r == (PyState { raw: equatorial_state(ops, c, s), frame: PyFrames::Ecliptic }),
    {
        let pos = uncertain::to_equatorial(ops, c, s.pos);
        let vel = uncertain::to_equatorial(ops, c, s.vel);
        let raw = State::new(s.desig, s.epoch, pos, vel, s.center);
        PyState { raw, frame: PyFrames::Ecliptic }
    }

    /// The state in the frame of the ecliptic.
    pub fn to_ecliptic<A: Arithmetic>(self, ops: &A, c: Constants) -> (r: State<Ecliptic>)
        requires
            ops.lawful(),
        ensures
            r == ecliptic_state(ops, c, self.raw),
    {
        let pos = uncertain::to_ecliptic(ops, c, self.raw.pos);
        let vel = uncertain::to_ecliptic(ops, c, self.raw.vel);
        State::new(self.raw.desig, self.raw.epoch, pos, vel, self.raw.center)
    }
}

/// A state of the frame of the ecliptic is turned into that of the equator: a vector along an axis of
/// the ecliptic becomes the column of the matrix which belongs to that axis. Everything else stays.
pub proof fn law_ecliptic_is_turned<A: Arithmetic>(
    ops: &A,
    v: Reading,
    c: Constants,
    s: State<Ecliptic>,
)
    requires
        exact::applies(
            ops,
            v,
            c.ecliptic,
            frames::vector::<Equatorial>(s.pos.x, s.pos.y, s.pos.z),
        ),
        exact::applies(
            ops,
            v,
            c.ecliptic,
            frames::vector::<Equatorial>(s.vel.x, s.vel.y, s.vel.z),
        ),
    ensures
        ({
            let r = equatorial_state(ops, c, s);
            let e = c.ecliptic;
            &&& read(v, r.pos) == exact::mapped(v, e, read(v, s.pos))
            &&& read(v, r.vel) == exact::mapped(v, e, read(v, s.vel))
            &&& read(v, s.pos) == (Triple { x: 0real, y: 0real, z: 1real }) ==> read(v, r.pos) == (
            Triple { x: v(e.x.z), y: v(e.y.z), z: v(e.z.z) })
            &&& read(v, s.pos) == (Triple { x: 1real, y: 0real, z: 0real }) ==> read(v, r.pos) == (
            Triple { x: v(e.x.x), y: v(e.y.x), z: v(e.z.x) })
            &&& r.desig == s.desig
            &&& r.epoch == s.epoch
            &&& r.center == s.center
        }),
{
    let e = c.ecliptic;
    let (x, y, z) = (read(v, e.x), read(v, e.y), read(v, e.z));
    rounding::lemma_minus(x.x, 1real);
    rounding::lemma_minus(x.y, 1real);
    rounding::lemma_minus(x.z, 1real);
    rounding::lemma_minus(y.x, 1real);
    rounding::lemma_minus(y.y, 1real);
    rounding::lemma_minus(y.z, 1real);
    rounding::lemma_minus(z.x, 1real);
    rounding::lemma_minus(z.y, 1real);
    rounding::lemma_minus(z.z, 1real);
}

/// A state which is turned into the frame of the ecliptic and back is where it was, and on the way
/// its distance and its speed do not change.
pub proof fn law_ecliptic_comes_back<A: Arithmetic>(
    ops: &A,
    v: Reading,
    c: Constants,
    s: State<Equatorial>,
)
    requires
        exact::rotates(v, c.ecliptic),
        v(F64 { bits: constants::ONE }) == 1real,
        exact::applies(ops, v, c.ecliptic.transposed(), s.pos),
        exact::applies(ops, v, c.ecliptic.transposed(), s.vel),
        ({
            let t = ecliptic_state(ops, c, s);
            &&& exact::applies(
                ops,
                v,
                c.ecliptic,
                frames::vector::<Equatorial>(t.pos.x, t.pos.y, t.pos.z),
            )
            &&& exact::applies(
                ops,
                v,
                c.ecliptic,
                frames::vector::<Equatorial>(t.vel.x, t.vel.y, t.vel.z),
            )
        }),
    ensures
        ({
            let t = ecliptic_state(ops, c, s);
            let r = equatorial_state(ops, c, t);
            &&& read(v, r.pos) == read(v, s.pos)
            &&& read(v, r.vel) == read(v, s.vel)
            &&& read(v, t.pos).dot(read(v, t.pos)) == read(v, s.pos).dot(read(v, s.pos))
            &&& read(v, t.vel).dot(read(v, t.vel)) == read(v, s.vel).dot(read(v, s.vel))
            &&& r.desig == s.desig
            &&& r.epoch == s.epoch
            &&& r.center == s.center
        }),
{
    exact::lemma_rotated_back(v, c.ecliptic, read(v, s.pos));
    exact::lemma_rotated_back(v, c.ecliptic, read(v, s.vel));
    let t = ecliptic_state(ops, c, s);
    law_ecliptic_is_turned(ops, v, c, t);
}

} // verus!
