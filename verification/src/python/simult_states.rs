//! States of many objects at one moment, and how an observer sees them.
use crate::arithmetic::Arithmetic;
use crate::conics;
use crate::elements::DEGREES_PER_RADIAN;
use crate::errors::{Error, IoFault, KeteResult, ValueFault};
use crate::exact;
use crate::float::F64;
use crate::fov::FOV;
use crate::frames::{Equatorial, Vector};
use crate::io::wire;
use crate::io::wire::Wire;
use crate::orbits;
use crate::python::elements;
use crate::python::state;
use crate::python::state::PyState;
use crate::rounding;
use crate::rounding::{read, Reading};
use crate::state::simultaneous;
use crate::state::{SimultaneousStates, State};
use crate::time::Time;
use vstd::prelude::*;

verus! {

/// States of many objects, at one moment or in one field of view.
#[derive(Debug)]
pub struct PySimultaneousStates(pub SimultaneousStates);

/// The states inside.
pub open spec fn inner_states(s: Seq<PyState>) -> Seq<State<Equatorial>> {
    Seq::new(s.len(), |i: int| s[i].raw)
}

/// The vectors from an observer to states which are around the same center.
pub open spec fn sight_lines<A: Arithmetic>(
    ops: &A,
    observer: State<Equatorial>,
    states: Seq<State<Equatorial>>,
) -> Seq<Vector<Equatorial>> {
    Seq::new(states.len(), |i: int| states[i].pos.difference(ops, observer.pos))
}

/// Are `moved` the states `s` around the center of an observer.
pub open spec fn all_there<R: Fn(State<Equatorial>, i32) -> KeteResult<State<Equatorial>>>(
    recenter: &R,
    s: Seq<State<Equatorial>>,
    center_id: i32,
    moved: Seq<State<Equatorial>>,
) -> bool {
    &&& moved.len() == s.len()
    &&& forall|i: int|
        0 <= i < s.len() ==> state::centered(
            recenter,
            #[trigger] s[i],
            center_id,
            Ok(moved[i]),
        )
}

/// Which entry a number stands for: a negative one counts from the end.
pub open spec fn place(idx: int, len: nat) -> Option<int> {
    let i = if idx < 0 {
        idx + len
    } else {
        idx
    };
    if 0 <= i < len {
        Some(i)
    } else {
        None
    }
}

/// The angles between vectors and a direction, in degrees.
pub open spec fn angles_from<A: Arithmetic>(
    ops: &A,
    direction: Vector<Equatorial>,
    vectors: Seq<Vector<Equatorial>>,
) -> Seq<F64> {
    Seq::new(
        vectors.len(),
        |i: int| elements::in_degrees(ops, direction.angled(ops, vectors[i])),
    )
}

/// The angles between the positions of states and vectors, in degrees.
pub open spec fn angles_between<A: Arithmetic>(
    ops: &A,
    states: Seq<State<Equatorial>>,
    vectors: Seq<Vector<Equatorial>>,
) -> Seq<F64> {
    Seq::new(
        vectors.len(),
        |i: int| elements::in_degrees(ops, states[i].pos.angled(ops, vectors[i])),
    )
}

/// When states were last updated: one time for each, or one time for all.
pub enum Updates {
    /// One time for each state.
    Each(Vec<Time>),
    /// One time for all states.
    All(Time),
}

/// Could the first `n` states be moved to the center, and `e` is why the next one could not.
pub open spec fn stuck<R: Fn(State<Equatorial>, i32) -> KeteResult<State<Equatorial>>>(
    recenter: &R,
    states: Seq<State<Equatorial>>,
    center_id: i32,
    n: int,
    moved: Seq<State<Equatorial>>,
    e: Error,
) -> bool {
    &&& 0 <= n < states.len()
    &&& all_there(recenter, states.take(n), center_id, moved)
    &&& state::centered(recenter, states[n], center_id, Err(e))
}

/// The vectors from an observer to states.
fn find_sight_lines<A: Arithmetic, R: Fn(State<Equatorial>, i32) -> KeteResult<State<Equatorial>>>(
    ops: &A,
    recenter: &R,
    observer: &State<Equatorial>,
    states: &Vec<State<Equatorial>>,
) -> (r: KeteResult<Vec<Vector<Equatorial>>>)
    requires
        ops.lawful(),
        state::recenters(recenter),
    ensures
        match r {
            Ok(v) => exists|moved: Seq<State<Equatorial>>| #[trigger]
                all_there(recenter, states@, observer.center.0, moved) && v@ == sight_lines(
                    ops,
                    *observer,
                    moved,
                ),
            Err(e) => exists|n: int, moved: Seq<State<Equatorial>>| #[trigger]
                stuck(recenter, states@, observer.center.0, n, moved, e),
        },
{
    let mut r: Vec<Vector<Equatorial>> = Vec::new();
    let ghost mut moved: Seq<State<Equatorial>> = Seq::empty();
    let center_id = observer.center_id();
    let mut i: usize = 0;
    while i < states.len()
        invariant
            ops.lawful(),
            state::recenters(recenter),
            center_id == observer.center.0,
            i <= states@.len(),
            moved.len() == i,
            forall|k: int|
                0 <= k < i ==> state::centered(
                    recenter,
                    #[trigger] states@[k],
                    center_id,
                    Ok(moved[k]),
                ),
            r@ == sight_lines(ops, *observer, moved),
        decreases states@.len() - i,
    {
        let there = state::center_on(recenter, states[i].clone(), center_id);
        assert(state::centered(recenter, states@[i as int], center_id, there));
        match there {
            Err(e) => {
                proof {
                    let earlier = states@.take(i as int);
                    assert forall|k: int| 0 <= k < earlier.len() implies state::centered(
                        recenter,
                        #[trigger] earlier[k],
                        center_id,
                        Ok(moved[k]),
                    ) by {
                        assert(earlier[k] == states@[k]);
                    }
                    assert(stuck(recenter, states@, center_id, i as int, moved, e));
                }
                return Err(e);
            },
            Ok(s) => {
                let ghost before = moved;
                proof {
                    moved = moved.push(s);
                }
                r.push(s.pos.minus(ops, observer.pos));
                assert(r@ =~= sight_lines(ops, *observer, moved));
                assert(state::centered(recenter, states@[i as int], center_id, Ok(s)));
                assert forall|k: int| 0 <= k <= i implies state::centered(
                    recenter,
                    #[trigger] states@[k],
                    center_id,
                    Ok(moved[k]),
                ) by {
                    if k < i {
                        assert(moved[k] == before[k]);
                        assert(state::centered(recenter, states@[k], center_id, Ok(before[k])));
                    } else {
                        assert(moved[k] == s);
                    }
                }
            },
        }
        i = i + 1;
    }
    assert(all_there(recenter, states@, center_id, moved));
    Ok(r)
}

impl PySimultaneousStates {
    /// Collect states. Without a field of view they have to be at one moment.
    pub fn new(states: &Vec<PyState>, fov: Option<FOV>) -> (r: KeteResult<Self>)
        ensures
            match simultaneous::header(wire::wires(inner_states(states@)), fov.wire()) {
                Ok((jd, center_id)) => {
                    &&& r matches Ok(s)
                    &&& s.0.states@ == inner_states(states@)
                    &&& s.0.fov == fov
                    &&& s.0.epoch.jd == jd
                    &&& s.0.center_id == center_id
                    &&& s.0.well_formed()
                },
                Err(e) => r == Err::<Self, Error>(e),
            },
    {
        let mut raw: Vec<State<Equatorial>> = Vec::new();
        let mut i: usize = 0;
        while i < states.len()
            invariant
                i <= states@.len(),
                raw@ == inner_states(states@).take(i as int),
            decreases states@.len() - i,
        {
            raw.push(states[i].raw.clone());
            i = i + 1;
            assert(raw@ =~= inner_states(states@).take(i as int));
        }
        assert(raw@ =~= inner_states(states@));
        match SimultaneousStates::new_exact(raw, fov) {
            Ok(s) => Ok(PySimultaneousStates(s)),
            Err(e) => Err(e),
        }
    }

    /// The states.
    pub fn states(&self) -> (r: Vec<PyState>)
        ensures
            inner_states(r@) == self.0.states@,
            forall|i: int|
                0 <= i < r@.len() ==> (#[trigger] r@[i]).frame == state::PyFrames::Ecliptic,
    {
        let mut r: Vec<PyState> = Vec::new();
        let mut i: usize = 0;
        while i < self.0.states.len()
            invariant
                i <= self.0.states@.len(),
                inner_states(r@) == self.0.states@.take(i as int),
                forall|i: int|
                    0 <= i < r@.len() ==> (#[trigger] r@[i]).frame == state::PyFrames::Ecliptic,
            decreases self.0.states@.len() - i,
        {
            let ghost before = r@;
            let raw = self.0.states[i].clone();
            let shown = PyState::from(raw);
            r.push(shown);
            assert(inner_states(r@) =~= inner_states(before).push(raw));
            i = i + 1;
            assert(inner_states(r@) =~= self.0.states@.take(i as int));
        }
        assert(inner_states(r@) =~= self.0.states@);
        r
    }

    /// The moment of the collection.
    pub fn jd(&self) -> (t: Time)
        ensures
            t == self.0.epoch,
    {
        self.0.epoch()
    }

    /// The center of every state.
    pub fn center_id(&self) -> (id: i32)
        ensures
            id == self.0.center_id,
    {
        self.0.center_id()
    }

    /// How many states there are.
    pub fn __len__(&self) -> (n: usize)
        ensures
            n == self.0.states@.len(),
    {
        self.0.states.len()
    }

    /// The state of the given number. Negative numbers count from the end.
    pub fn __getitem__(&self, idx: isize) -> (r: KeteResult<PyState>)
        requires
            self.0.states@.len() <= isize::MAX,
        ensures
            match place(idx as int, self.0.states@.len()) {
                Some(i) => r == Ok::<PyState, Error>(
                    PyState { raw: self.0.states@[i], frame: state::PyFrames::Ecliptic },
                ),
                None => r == Err::<PyState, Error>(Error::ValueError(ValueFault::NoSuchState)),
            },
    {
        let len: usize = self.0.states.len();
        let i: isize = if idx < 0 {
            idx + len as isize
        } else {
            idx
        };
        if i < 0 || i as usize >= len {
            return Err(Error::ValueError(ValueFault::NoSuchState));
        }
        Ok(PyState::from(self.0.states[i as usize].clone()))
    }

    /// The times to save with the states in a table. A table has no place for a field of view,
    /// and there has to be a time for each state or one for all.
    pub fn save_parquet(&self, last_updated: Option<Updates>) -> (r: KeteResult<Option<Vec<Time>>>)
        ensures
            if self.0.fov is Some {
                r == Err::<Option<Vec<Time>>, Error>(Error::IOError(IoFault::FovInTable))
            } else {
                match last_updated {
                    None => r == Ok::<Option<Vec<Time>>, Error>(None),
                    Some(Updates::Each(v)) => if v@.len() != self.0.states@.len() {
                        r == Err::<Option<Vec<Time>>, Error>(
                            Error::ValueError(ValueFault::UpdateCount),
                        )
                    } else {
                        r == Ok::<Option<Vec<Time>>, Error>(Some(v))
                    },
                    Some(Updates::All(t)) => {
                        &&& r is Ok
                        &&& r->Ok_0 is Some
                        &&& r->Ok_0->Some_0@ == Seq::new(self.0.states@.len(), |i: int| t)
                    },
                }
            },
    {
        if self.0.fov.is_some() {
            return Err(Error::IOError(IoFault::FovInTable));
        }
        match last_updated {
            None => Ok(None),
            Some(Updates::Each(v)) => {
                if v.len() != self.0.states.len() {
                    return Err(Error::ValueError(ValueFault::UpdateCount));
                }
                Ok(Some(v))
            },
            Some(Updates::All(t)) => {
                let n: usize = self.0.states.len();
                let mut all: Vec<Time> = Vec::new();
                let mut i: usize = 0;
                while i < n
                    invariant
                        i <= n,
                        all@ == Seq::new(i as nat, |i: int| t),
                    decreases n - i,
                {
                    all.push(t);
                    i = i + 1;
                    assert(all@ =~= Seq::new(i as nat, |i: int| t));
                }
                Ok(Some(all))
            },
        }
    }

    /// The vectors from the observer to the objects. `recenter` moves a state to another center.
    pub fn obs_vecs<A: Arithmetic, R: Fn(State<Equatorial>, i32) -> KeteResult<State<Equatorial>>>(
        &self,
        ops: &A,
        recenter: &R,
    ) -> (r: KeteResult<Vec<Vector<Equatorial>>>)
        requires
            ops.lawful(),
            state::recenters(recenter),
        ensures
            match self.0.fov {
                None => r == Err::<Vec<Vector<Equatorial>>, Error>(
                    Error::ValueError(ValueFault::NoFov),
                ),
                Some(f) => match r {
                    Ok(v) => exists|moved: Seq<State<Equatorial>>| #[trigger]
                        all_there(recenter, self.0.states@, f.seen_by().center.0, moved) && v@
                            == sight_lines(ops, f.seen_by(), moved),
                    Err(e) => exists|n: int, moved: Seq<State<Equatorial>>| #[trigger]
                        stuck(recenter, self.0.states@, f.seen_by().center.0, n, moved, e),
                },
            },
    {
        match &self.0.fov {
            None => Err(Error::ValueError(ValueFault::NoFov)),
            Some(f) => find_sight_lines(ops, recenter, f.observer(), &self.0.states),
        }
    }

    /// The phases of the objects in degrees: the angles between the center and the observer as
    /// seen from each object, from the vectors of the observer to the objects.
    pub fn phase_angles<A: Arithmetic>(&self, ops: &A, obs_vecs: &Vec<Vector<Equatorial>>) -> (r:
        Vec<F64>)
        requires
            ops.lawful(),
            obs_vecs@.len() == self.0.states@.len(),
        ensures
            r@ == angles_between(ops, self.0.states@, obs_vecs@),
    {
        let mut r: Vec<F64> = Vec::new();
        let mut i: usize = 0;
        while i < obs_vecs.len()
            invariant
                ops.lawful(),
                obs_vecs@.len() == self.0.states@.len(),
                i <= obs_vecs@.len(),
                r@ == angles_between(ops, self.0.states@, obs_vecs@).take(i as int),
            decreases obs_vecs@.len() - i,
        {
            let phase = self.0.states[i].pos.angle(ops, obs_vecs[i]);
            r.push(elements::to_degrees(ops, phase));
            i = i + 1;
            assert(r@ =~= angles_between(ops, self.0.states@, obs_vecs@).take(i as int));
        }
        assert(r@ =~= angles_between(ops, self.0.states@, obs_vecs@));
        r
    }

    /// The elongations of the objects in degrees: the angles between the center and each object
    /// as seen from the observer, from the vectors of the observer to the objects.
    pub fn elongation<A: Arithmetic>(&self, ops: &A, obs_vecs: &Vec<Vector<Equatorial>>) -> (r:
        KeteResult<Vec<F64>>)
        requires
            ops.lawful(),
        ensures
            match self.0.fov {
                None => r == Err::<Vec<F64>, Error>(Error::ValueError(ValueFault::NoFov)),
                Some(f) => r is Ok && r->Ok_0@ == angles_from(
                    ops,
                    f.seen_by().pos.negated(),
                    obs_vecs@,
                ),
            },
    {
        let to_center = match &self.0.fov {
            None => {
                return Err(Error::ValueError(ValueFault::NoFov));
            },
            Some(f) => f.observer().pos.neg(),
        };
        let mut r: Vec<F64> = Vec::new();
        let mut i: usize = 0;
        while i < obs_vecs.len()
            invariant
                ops.lawful(),
                i <= obs_vecs@.len(),
                r@ == angles_from(ops, to_center, obs_vecs@).take(i as int),
            decreases obs_vecs@.len() - i,
        {
            r.push(elements::to_degrees(ops, to_center.angle(ops, obs_vecs[i])));
            i = i + 1;
            assert(r@ =~= angles_from(ops, to_center, obs_vecs@).take(i as int));
        }
        assert(r@ =~= angles_from(ops, to_center, obs_vecs@));
        Ok(r)
    }
}

/// The phase of an object is the angle at the object: its cosine, times the distances of the
/// object from the center and from the observer, is the product of the two lines. `x` is the
/// phase in radians.
pub proof fn law_phase<A: Arithmetic>(
    ops: &A,
    v: Reading,
    cosine: spec_fn(real) -> real,
    states: Seq<State<Equatorial>>,
    vectors: Seq<Vector<Equatorial>>,
    i: int,
    far: real,
    near: real,
    x: real,
)
    requires
        0 <= i < vectors.len(),
        exact::angles(ops, v, cosine, states[i].pos, vectors[i]),
        exact_degrees(ops, v, states[i].pos.angled(ops, vectors[i])),
        0real <= far,
        far * far == read(v, states[i].pos).dot(read(v, states[i].pos)),
        0real <= near,
        near * near == read(v, vectors[i]).dot(read(v, vectors[i])),
        x * v(F64 { bits: DEGREES_PER_RADIAN }) == v(angles_between(ops, states, vectors)[i]),
    ensures
        angles_between(ops, states, vectors).len() == vectors.len(),
        cosine(x) * (far * near) == read(v, states[i].pos).dot(read(v, vectors[i])),
{
    exact::law_angle(ops, v, cosine, states[i].pos, vectors[i], far, near);
    lemma_degrees(ops, v, states[i].pos.angled(ops, vectors[i]), x);
}

/// The elongation of an object is the angle at the observer, between the center, which is where
/// the position of the observer points from, and the object.
pub proof fn law_elongation<A: Arithmetic>(
    ops: &A,
    v: Reading,
    cosine: spec_fn(real) -> real,
    observer: Vector<Equatorial>,
    vectors: Seq<Vector<Equatorial>>,
    i: int,
    away: real,
    near: real,
    x: real,
)
    requires
        0 <= i < vectors.len(),
        read(v, observer.negated()) == conics::times(-1real, read(v, observer)),
        exact::angles(ops, v, cosine, observer.negated(), vectors[i]),
        exact_degrees(ops, v, observer.negated().angled(ops, vectors[i])),
        0real <= away,
        away * away == read(v, observer).dot(read(v, observer)),
        0real <= near,
        near * near == read(v, vectors[i]).dot(read(v, vectors[i])),
        x * v(F64 { bits: DEGREES_PER_RADIAN }) == v(
            angles_from(ops, observer.negated(), vectors)[i],
        ),
    ensures
        angles_from(ops, observer.negated(), vectors).len() == vectors.len(),
        cosine(x) * (away * near) == -read(v, observer).dot(read(v, vectors[i])),
{
    let p = read(v, observer);
    exact::lemma_dot_times(p, -1real, p);
    exact::lemma_dot_times(conics::times(-1real, p), -1real, p);
    exact::lemma_dot_times(read(v, vectors[i]), -1real, p);
    exact::lemma_dot_order(read(v, vectors[i]), p);
    exact::law_angle(ops, v, cosine, observer.negated(), vectors[i], away, near);
    lemma_degrees(ops, v, observer.negated().angled(ops, vectors[i]), x);
}

/// Is an angle turned into degrees exactly.
pub open spec fn exact_degrees<A: Arithmetic>(ops: &A, v: Reading, angle: F64) -> bool {
    &&& orbits::multiplies(ops, v, angle, F64 { bits: DEGREES_PER_RADIAN })
    &&& 0real < v(F64 { bits: DEGREES_PER_RADIAN })
}

/// An angle in radians, from the one in degrees.
proof fn lemma_degrees<A: Arithmetic>(ops: &A, v: Reading, angle: F64, x: real)
    requires
        exact_degrees(ops, v, angle),
        x * v(F64 { bits: DEGREES_PER_RADIAN }) == v(elements::in_degrees(ops, angle)),
    ensures
        x == v(angle),
{
    let k = v(F64 { bits: DEGREES_PER_RADIAN });
    rounding::lemma_order(x, k, 1real);
    rounding::lemma_order(v(angle), k, 1real);
    conics::lemma_cancel(k, x, v(angle));
}

/// What an observer sees of an object: the line of sight is the difference of the positions of
/// the object and of the observer. Center, observer and object are a triangle, and the line of
/// sight is made up of the projections of the other two sides: with the phase `phase` and the
/// elongation `elongation`, in radians, and with the distances `far` of the object and `away` of
/// the observer from the center, its length is
/// `far * cosine(phase) + away * cosine(elongation)`.
pub proof fn law_sight_line<A: Arithmetic>(
    ops: &A,
    v: Reading,
    cosine: spec_fn(real) -> real,
    observer: State<Equatorial>,
    states: Seq<State<Equatorial>>,
    i: int,
    far: real,
    away: real,
    near: real,
    phase: real,
    elongation: real,
)
    requires
        0 <= i < states.len(),
        exact::differs(ops, v, states[i].pos, observer.pos),
        ({
            let lines = sight_lines(ops, observer, states);
            let to_center = observer.pos.negated();
            let degree = v(F64 { bits: DEGREES_PER_RADIAN });
            &&& read(v, to_center) == conics::times(-1real, read(v, observer.pos))
            &&& exact::angles(ops, v, cosine, states[i].pos, lines[i])
            &&& exact::angles(ops, v, cosine, to_center, lines[i])
            &&& exact_degrees(ops, v, states[i].pos.angled(ops, lines[i]))
            &&& exact_degrees(ops, v, to_center.angled(ops, lines[i]))
            &&& near * near == read(v, lines[i]).dot(read(v, lines[i]))
            &&& phase * degree == v(angles_between(ops, states, lines)[i])
            &&& elongation * degree == v(angles_from(ops, to_center, lines)[i])
        }),
        0real <= far,
        far * far == read(v, states[i].pos).dot(read(v, states[i].pos)),
        0real <= away,
        away * away == read(v, observer.pos).dot(read(v, observer.pos)),
        0real <= near,
    ensures
        read(v, sight_lines(ops, observer, states)[i]) == exact::minus(
            read(v, states[i].pos),
            read(v, observer.pos),
        ),
        near == far * cosine(phase) + away * cosine(elongation),
{
    let lines = sight_lines(ops, observer, states);
    let (p, o, n) = (read(v, states[i].pos), read(v, observer.pos), read(v, lines[i]));
    law_phase(ops, v, cosine, states, lines, i, far, near, phase);
    law_elongation(ops, v, cosine, observer.pos, lines, i, away, near, elongation);
    exact::law_angle(ops, v, cosine, states[i].pos, lines[i], far, near);
    assert(n == exact::minus(p, o));
    exact::lemma_dot_plus(n, p, o);
    exact::lemma_dot_order(n, p);
    exact::lemma_dot_order(n, o);
    let (c, e) = (cosine(phase), cosine(elongation));
    rounding::lemma_order(c, far, near);
    rounding::lemma_order(e, away, near);
    rounding::lemma_order(c, far, 1real);
    rounding::lemma_order(e, away, 1real);
    rounding::lemma_order(far * c, near, 1real);
    rounding::lemma_order(away * e, near, 1real);
    rounding::lemma_spread(near, far * c, away * e, 0real);
    rounding::lemma_minus(near, 1real);
    conics::lemma_cancel(near, near, far * c + away * e);
}

/// Are `sine` and `cosine` those of an angle between zero and half a turn.
pub open spec fn unturned(
    cosine: spec_fn(real) -> real,
    sine: spec_fn(real) -> real,
    half: real,
    x: real,
) -> bool {
    &&& 0real <= x <= half
    &&& 0real <= sine(x)
    &&& cosine(x) * cosine(x) + sine(x) * sine(x) == 1real
}

/// Do `sine` and `cosine` of a sum of angles come from those of its parts.
pub open spec fn added(
    cosine: spec_fn(real) -> real,
    sine: spec_fn(real) -> real,
    x: real,
    y: real,
) -> bool {
    &&& cosine(x + y) == cosine(x) * cosine(y) - sine(x) * sine(y)
    &&& sine(x + y) == sine(x) * cosine(y) + cosine(x) * sine(y)
}

/// The sine that belongs to a cosine, times two sides of a triangle: twice its area.
proof fn lemma_area(c: real, s: real, k: real, d: real)
    requires
        0real <= s,
        c * c + s * s == 1real,
        0real < k,
        c * k == d,
    ensures
        (s * k) * (s * k) == k * k - d * d,
        0real <= s * k,
{
    rounding::lemma_factors(s, k, s, k);
    rounding::lemma_factors(c, k, c, k);
    let kk = k * k;
    rounding::lemma_spread(kk, c * c, s * s, 0real);
    rounding::lemma_minus(kk, 1real);
    rounding::lemma_order(kk, c * c, 1real);
    rounding::lemma_order(kk, s * s, 1real);
    if 0real < s {
        conics::lemma_positive(s, k);
    } else {
        rounding::lemma_order(0real, k, 1real);
        rounding::lemma_minus(k, 1real);
    }
}

/// The angles of a triangle with the sides `f`, `a` and `n`, where `q` is the product of the first
/// two as vectors, and the third is their difference: the first and the second angle together
/// have the sine of the third, and its cosine with the other sign.
proof fn lemma_triangle(
    f: real,
    a: real,
    n: real,
    q: real,
    ca: real,
    sa: real,
    cb: real,
    sb: real,
    cg: real,
    sg: real,
)
    requires
        0real < f,
        0real < a,
        0real < n,
        n * n == f * f - 2real * q + a * a,
        0real <= sa,
        ca * ca + sa * sa == 1real,
        ca * (f * n) == f * f - q,
        0real <= sb,
        cb * cb + sb * sb == 1real,
        cb * (a * n) == a * a - q,
        0real <= sg,
        cg * cg + sg * sg == 1real,
        cg * (f * a) == q,
    ensures
        ca * cb - sa * sb == -cg,
        sa * cb + ca * sb == sg,
{
    let (ff, aa, nn) = (f * f, a * a, n * n);
    let (across, an, fa) = (f * n, a * n, f * a);
    conics::lemma_positive(f, n);
    conics::lemma_positive(a, n);
    conics::lemma_positive(f, a);
    conics::lemma_positive(n, n);
    lemma_area(ca, sa, across, ff - q);
    lemma_area(cb, sb, an, aa - q);
    lemma_area(cg, sg, fa, q);
    let (x, y, z) = (sa * across, sb * an, sg * fa);
    rounding::lemma_factors(f, n, f, n);
    rounding::lemma_factors(a, n, a, n);
    rounding::lemma_factors(f, a, f, a);
    // the three areas are one
    let qq = q * q;
    rounding::lemma_spread(ff, ff, -2real * q, aa);
    rounding::lemma_spread(aa, ff, -2real * q, aa);
    rounding::lemma_order(ff, 2real, q);
    rounding::lemma_order(aa, 2real, q);
    rounding::lemma_minus(ff, 2real * q);
    rounding::lemma_minus(aa, 2real * q);
    conics::lemma_swap(ff, 2real, q);
    conics::lemma_swap(aa, 2real, q);
    conics::lemma_foil(ff, -q, ff, -q);
    conics::lemma_foil(aa, -q, aa, -q);
    conics::lemma_square(q);
    rounding::lemma_minus(ff, q);
    rounding::lemma_minus(aa, q);
    rounding::lemma_order(ff, -q, 1real);
    rounding::lemma_order(aa, -q, 1real);
    rounding::lemma_order(ff, aa, 1real);
    assert(x * x == ff * aa - qq);
    assert(y * y == ff * aa - qq);
    assert(z * z == ff * aa - qq);
    conics::lemma_same_square(x, y);
    conics::lemma_same_square(x, z);
    // the sides of the first two angles are those of the third, and twice the third side
    let k = across * an;
    conics::lemma_positive(across, an);
    rounding::lemma_factors(f, n, a, n);
    assert(k == fa * nn);
    // the cosines
    rounding::lemma_factors(ca, across, cb, an);
    rounding::lemma_factors(sa, across, sb, an);
    let (c, s) = (ca * cb, sa * sb);
    conics::lemma_foil(ff, -q, aa, -q);
    rounding::lemma_order(q, aa, 1real);
    rounding::lemma_order(-q, aa, 1real);
    rounding::lemma_spread(k, c, -s, 0real);
    rounding::lemma_minus(k, s);
    rounding::lemma_minus(k, 1real);
    rounding::lemma_order(k, c, 1real);
    rounding::lemma_order(k, s, 1real);
    rounding::lemma_spread(q, ff, -2real * q, aa);
    conics::lemma_swap(q, 2real, q);
    rounding::lemma_minus(q, 2real * q);
    rounding::lemma_order(q, ff, 1real);
    assert(k * (c - s) == -(q * nn));
    rounding::lemma_order(cg, fa, nn);
    rounding::lemma_order(k, cg, 1real);
    rounding::lemma_minus(k, cg);
    conics::lemma_cancel(k, c - s, -cg);
    // the sines
    rounding::lemma_factors(sa, across, cb, an);
    rounding::lemma_factors(ca, across, sb, an);
    let (d, e) = (sa * cb, ca * sb);
    rounding::lemma_spread(k, d, e, 0real);
    rounding::lemma_order(k, d, 1real);
    rounding::lemma_order(k, e, 1real);
    rounding::lemma_spread(x, aa - q, ff - q, 0real);
    rounding::lemma_minus(x, 1real);
    rounding::lemma_order(x, ff - q, 1real);
    assert(k * (d + e) == x * nn);
    rounding::lemma_order(sg, fa, nn);
    rounding::lemma_order(k, sg, 1real);
    conics::lemma_cancel(k, d + e, sg);
}

/// The phase, the elongation and the angle at the center between object and observer are the
/// angles of a triangle: they add up to half a turn.
pub proof fn law_angles_of_the_triangle<A: Arithmetic>(
    ops: &A,
    v: Reading,
    cosine: spec_fn(real) -> real,
    sine: spec_fn(real) -> real,
    half: real,
    observer: State<Equatorial>,
    states: Seq<State<Equatorial>>,
    i: int,
    far: real,
    away: real,
    near: real,
    phase: real,
    elongation: real,
)
    requires
        0 <= i < states.len(),
        exact::differs(ops, v, states[i].pos, observer.pos),
        ({
            let lines = sight_lines(ops, observer, states);
            let to_center = observer.pos.negated();
            let degree = v(F64 { bits: DEGREES_PER_RADIAN });
            let at_center = v(states[i].pos.angled(ops, observer.pos));
            &&& read(v, to_center) == conics::times(-1real, read(v, observer.pos))
            &&& exact::angles(ops, v, cosine, states[i].pos, lines[i])
            &&& exact::angles(ops, v, cosine, to_center, lines[i])
            &&& exact::angles(ops, v, cosine, states[i].pos, observer.pos)
            &&& exact_degrees(ops, v, states[i].pos.angled(ops, lines[i]))
            &&& exact_degrees(ops, v, to_center.angled(ops, lines[i]))
            &&& near * near == read(v, lines[i]).dot(read(v, lines[i]))
            &&& phase * degree == v(angles_between(ops, states, lines)[i])
            &&& elongation * degree == v(angles_from(ops, to_center, lines)[i])
            &&& unturned(cosine, sine, half, phase)
            &&& unturned(cosine, sine, half, elongation)
            &&& unturned(cosine, sine, half, at_center)
            &&& added(cosine, sine, phase, elongation)
            &&& added(cosine, sine, phase + elongation, at_center)
        }),
        cosine(half) == -1real,
        forall|x: real| 0real <= x < 3real * half && #[trigger] cosine(x) == -1real ==> x == half,
        0real <= far,
        far * far == read(v, states[i].pos).dot(read(v, states[i].pos)),
        0real <= away,
        away * away == read(v, observer.pos).dot(read(v, observer.pos)),
        0real <= near,
    ensures
        phase + elongation + v(states[i].pos.angled(ops, observer.pos)) == half,
{
    let lines = sight_lines(ops, observer, states);
    let (p, o, n) = (read(v, states[i].pos), read(v, observer.pos), read(v, lines[i]));
    let at_center = v(states[i].pos.angled(ops, observer.pos));
    law_phase(ops, v, cosine, states, lines, i, far, near, phase);
    law_elongation(ops, v, cosine, observer.pos, lines, i, away, near, elongation);
    exact::law_angle(ops, v, cosine, states[i].pos, lines[i], far, near);
    exact::law_angle(ops, v, cosine, states[i].pos, observer.pos, far, away);
    assert(n == exact::minus(p, o));
    let q = p.dot(o);
    exact::lemma_dot_plus(n, p, o);
    exact::lemma_dot_plus(p, p, o);
    exact::lemma_dot_plus(o, p, o);
    exact::lemma_dot_order(n, p);
    exact::lemma_dot_order(n, o);
    exact::lemma_dot_order(p, o);
    lemma_triangle(
        far,
        away,
        near,
        q,
        cosine(phase),
        sine(phase),
        cosine(elongation),
        sine(elongation),
        cosine(at_center),
        sine(at_center),
    );
    let (c, s) = (cosine(at_center), sine(at_center));
    rounding::lemma_minus(c, c);
    rounding::lemma_order(-c, c, 1real);
    let x = phase + elongation + at_center;
    assert(cosine(x) == -1real);
    if x == 3real * half {
        assert(phase == half && elongation == half);
        law_sight_line(
            ops,
            v,
            cosine,
            observer,
            states,
            i,
            far,
            away,
            near,
            phase,
            elongation,
        );
        rounding::lemma_minus(far, 1real);
        rounding::lemma_minus(away, 1real);
        assert(false);
    }
}

/// Positions on the sky and their rates in degrees.
pub open spec fn rates_in_degrees<A: Arithmetic>(ops: &A, rows: Seq<[F64; 4]>) -> Seq<Seq<F64>> {
    Seq::new(
        rows.len(),
        |i: int| Seq::new(4, |k: int| elements::in_degrees(ops, rows[i]@[k])),
    )
}

/// Rows of four numbers.
pub open spec fn quadruples(rows: Seq<[F64; 4]>) -> Seq<Seq<F64>> {
    Seq::new(rows.len(), |i: int| rows[i]@)
}

/// Positions on the sky and their rates in degrees, from those in radians.
pub fn ra_dec_with_rates<A: Arithmetic>(ops: &A, rows: &Vec<[F64; 4]>) -> (r: Vec<[F64; 4]>)
    requires
        ops.lawful(),
    ensures
        quadruples(r@) == rates_in_degrees(ops, rows@),
{
    let ghost want = rates_in_degrees(ops, rows@);
    let mut r: Vec<[F64; 4]> = Vec::new();
    let mut i: usize = 0;
    while i < rows.len()
        invariant
            ops.lawful(),
            want == rates_in_degrees(ops, rows@),
            i <= rows@.len(),
            quadruples(r@) == want.take(i as int),
        decreases rows@.len() - i,
    {
        let row = rows[i];
        let turned = [
            elements::to_degrees(ops, row[0]),
            elements::to_degrees(ops, row[1]),
            elements::to_degrees(ops, row[2]),
            elements::to_degrees(ops, row[3]),
        ];
        assert(turned@ =~= want[i as int]);
        let ghost before = r@;
        r.push(turned);
        assert(quadruples(r@) =~= quadruples(before).push(turned@));
        i = i + 1;
        assert(quadruples(r@) =~= want.take(i as int));
    }
    assert(quadruples(r@) =~= want);
    r
}

} // verus!
