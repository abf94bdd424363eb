//! The exact state of one object.
use crate::arithmetic::Arithmetic;
use crate::desig::Desig;
use crate::errors::{Error, KeteResult, ValueFault};
use crate::frames::{CenterBody, DynCenter, EarthCenter, InertialFrame, SunCenter, Vector, SSB};
use crate::matrix::Matrix3;
use crate::rounding;
use crate::rounding::Reading;
use crate::time::Time;
use vstd::prelude::*;
use vstd::std_specs::convert::{FromSpecImpl, TryFromSpecImpl};

verus! {

/// The designation, position and velocity of an object, around a center and in a
/// frame, at one moment and without uncertainty.
#[derive(Debug, PartialEq)]
#[must_use]
pub struct State<T: InertialFrame, C: CenterBody = DynCenter> {
    /// Designation of the object.
    pub desig: Desig,
    /// When the object is there.
    pub epoch: Time,
    /// Position with respect to the center, in AU.
    pub pos: Vector<T>,
    /// Velocity with respect to the center, in AU per day.
    pub vel: Vector<T>,
    /// What the object is centered on.
    pub center: C,
}

impl<T: InertialFrame, C: CenterBody + Copy> Clone for State<T, C> {
    fn clone(&self) -> (r: Self)
        ensures
            r == *self,
    {
        State {
            desig: self.desig.clone(),
            epoch: self.epoch,
            pos: self.pos,
            vel: self.vel,
            center: self.center,
        }
    }
}

impl<T: InertialFrame, C: CenterBody> State<T, C> {
    /// Is the epoch finite, and is every component of position and velocity.
    pub open spec fn finite(&self) -> bool {
        self.pos.finite() && self.vel.finite() && self.epoch.jd.finite()
    }

    /// NAIF id of the center.
    pub fn center_id(&self) -> (id: i32)
        ensures
            id == self.center.naif_id(),
    {
        self.center.center_id()
    }

    /// Are all values finite.
    pub fn is_finite(&self) -> (r: bool)
        ensures
            r == self.finite(),
    {
        self.pos.is_finite() && self.vel.is_finite() && self.epoch.jd.is_finite()
    }

    /// The same state with its vectors in another frame. `rotate` takes a vector of `T` to
    /// the same vector in `B`.
    pub fn into_frame<B: InertialFrame>(self, rotate: impl Fn(Vector<T>) -> Vector<B>) -> (s: State<
        B,
        C,
    >)
        requires
            forall|v: Vector<T>| call_requires(rotate, (v,)),
        ensures
            became(rotate, self, s),
    {
        let pos = rotate(self.pos);
        let vel = rotate(self.vel);
        State { desig: self.desig, epoch: self.epoch, pos, vel, center: self.center }
    }

    /// The state with the given parts.
    pub fn new(desig: Desig, epoch: Time, pos: Vector<T>, vel: Vector<T>, center: C) -> (s: Self)
        ensures
            s == (State { desig, epoch, pos, vel, center }),
    {
        State { desig, epoch, pos, vel, center }
    }

    /// A state whose position and velocity are NaN, which stands in for one that
    /// could not be computed.
    pub fn new_nan(desig: Desig, epoch: Time, center: C) -> (s: Self)
        ensures
            s.desig == desig,
            s.epoch == epoch,
            s.center == center,
            s.pos == Vector::<T>::nan(),
            s.vel == Vector::<T>::nan(),
            !s.finite(),
    {
        Self::new(desig, epoch, Vector::new_nan(), Vector::new_nan(), center)
    }
}

/// Is `b` the state `a` with its vectors taken to another frame.
pub open spec fn became<
    T: InertialFrame,
    B: InertialFrame,
    C: CenterBody,
    R: Fn(Vector<T>) -> Vector<B>,
>(rotate: R, a: State<T, C>, b: State<B, C>) -> bool {
    &&& b.desig == a.desig
    &&& b.epoch == a.epoch
    &&& b.center == a.center
    &&& call_ensures(rotate, (a.pos,), b.pos)
    &&& call_ensures(rotate, (a.vel,), b.vel)
}

/// A state which is taken to another frame by a rotation and back by its transpose keeps its name,
/// its epoch and its center; the lengths of its vectors stay the same, and its vectors come back,
/// both up to rounding.
pub proof fn law_frame_round_trip<
    A: Arithmetic,
    T: InertialFrame,
    B: InertialFrame,
    C: CenterBody,
    R: Fn(Vector<T>) -> Vector<B>,
    S: Fn(Vector<B>) -> Vector<T>,
>(
    ops: &A,
    v: Reading,
    range: real,
    eps: real,
    m: Matrix3<B>,
    delta: real,
    size: real,
    rotate: R,
    back: S,
    a: State<T, C>,
    b: State<B, C>,
    again: State<T, C>,
)
    requires
        rounding::rounds(ops, v, range, eps),
        0real <= delta,
        rounding::turns(v, m, delta),
        0real <= size,
        3real * rounding::turned_size(size, eps) + 4real * eps <= range,
        a.finite(),
        rounding::read(v, a.pos).bounded(size),
        rounding::read(v, a.vel).bounded(size),
        forall|x: Vector<T>, y: Vector<B>| #[trigger]
            call_ensures(rotate, (x,), y) ==> y == m.applied(ops, x.seen_in::<B>()),
        forall|x: Vector<B>, y: Vector<T>| #[trigger]
            call_ensures(back, (x,), y) ==> y == m.transposed().applied(ops, x).seen_in::<T>(),
        became(rotate, a, b),
        became(back, b, again),
    ensures
        again.desig == a.desig,
        again.epoch == a.epoch,
        again.center == a.center,
        rounding::same_length(v, b.pos, a.pos, delta, size, eps),
        rounding::same_length(v, b.vel, a.vel, delta, size, eps),
        rounding::read(v, again.pos).near(
            rounding::read(v, a.pos),
            3real * (delta * size) + 20real * eps,
        ),
        rounding::read(v, again.vel).near(
            rounding::read(v, a.vel),
            3real * (delta * size) + 20real * eps,
        ),
{
    let (pos, vel) = (a.pos.seen_in::<B>(), a.vel.seen_in::<B>());
    rounding::law_rotation(ops, v, range, eps, m, delta, pos, size);
    rounding::law_rotation(ops, v, range, eps, m, delta, vel, size);
}

/// The same for a state which is taken to the other frame by the transpose, and back by the
/// rotation.
pub proof fn law_frame_round_trip_back<
    A: Arithmetic,
    T: InertialFrame,
    B: InertialFrame,
    C: CenterBody,
    R: Fn(Vector<T>) -> Vector<B>,
    S: Fn(Vector<B>) -> Vector<T>,
>(
    ops: &A,
    v: Reading,
    range: real,
    eps: real,
    m: Matrix3<T>,
    delta: real,
    size: real,
    rotate: R,
    back: S,
    a: State<T, C>,
    b: State<B, C>,
    again: State<T, C>,
)
    requires
        rounding::rounds(ops, v, range, eps),
        0real <= delta,
        rounding::turns(v, m, delta),
        0real <= size,
        3real * rounding::turned_size(size, eps) + 4real * eps <= range,
        a.finite(),
        rounding::read(v, a.pos).bounded(size),
        rounding::read(v, a.vel).bounded(size),
        forall|x: Vector<T>, y: Vector<B>| #[trigger]
            call_ensures(rotate, (x,), y) ==> y == m.transposed().applied(ops, x).seen_in::<B>(),
        forall|x: Vector<B>, y: Vector<T>| #[trigger]
            call_ensures(back, (x,), y) ==> y == m.applied(ops, x.seen_in::<T>()),
        became(rotate, a, b),
        became(back, b, again),
    ensures
        again.desig == a.desig,
        again.epoch == a.epoch,
        again.center == a.center,
        rounding::same_length(v, b.pos, a.pos, delta, size, eps),
        rounding::same_length(v, b.vel, a.vel, delta, size, eps),
        rounding::read(v, again.pos).near(
            rounding::read(v, a.pos),
            3real * (delta * size) + 20real * eps,
        ),
        rounding::read(v, again.vel).near(
            rounding::read(v, a.vel),
            3real * (delta * size) + 20real * eps,
        ),
{
    let t = m.transposed();
    rounding::lemma_transposed_turns(v, m, delta);
    rounding::law_rotation(ops, v, range, eps, t, delta, a.pos, size);
    rounding::law_rotation(ops, v, range, eps, t, delta, a.vel, size);
}

/// What keeps `state` from becoming the center of `of`, checked in this order: the
/// times differ, `state` has no NAIF id, the two are not related.
pub open spec fn change_center_fault<T: InertialFrame>(
    of: State<T, DynCenter>,
    state: State<T, DynCenter>,
) -> Option<ValueFault> {
    if !of.epoch.same(state.epoch) {
        Some(ValueFault::EpochMismatch)
    } else {
        match state.desig {
            Desig::Naif(id) => if of.center != state.center && of.center.0 != id {
                Some(ValueFault::UnrelatedStates)
            } else {
                None
            },
            _ => Some(ValueFault::CenterNeedsNaif),
        }
    }
}

impl<T: InertialFrame> State<T, DynCenter> {
    /// `self` with the roles of object and center traded.
    pub open spec fn flipped(&self, other: Self) -> bool {
        &&& self.desig == Desig::Naif(other.center.0)
        &&& other.desig == Desig::Naif(self.center.0)
        &&& self.epoch == other.epoch
        &&& other.pos == self.pos.negated()
        &&& other.vel == self.vel.negated()
    }

    /// Trade the center with the object, and turn position and velocity around.
    pub fn try_flip_center_id(&mut self) -> (res: KeteResult<()>)
        ensures
            old(self).desig is Naif ==> res is Ok && old(self).flipped(*final(self)),
            !(old(self).desig is Naif) ==> res == Err::<(), Error>(
                Error::ValueError(ValueFault::FlipNeedsNaif),
            ) && *final(self) == *old(self),
    {
        if let Desig::Naif(id) = self.desig {
            let center: i32 = self.center.0;
            self.center = DynCenter(id);
            self.pos = self.pos.neg();
            self.vel = self.vel.neg();
            self.desig = Desig::Naif(center);
            return Ok(());
        }
        Err(Error::ValueError(ValueFault::FlipNeedsNaif))
    }

    /// Change the center of this state to the one `state` is about. Where both have
    /// the same center, that is the object of `state`; where `state` is the center
    /// of this one, it is the center of `state`.
    pub fn try_change_center<A: Arithmetic>(&mut self, ops: &A, state: Self)
        -> (res: KeteResult<()>)
        requires
            ops.lawful(),
        ensures
            match change_center_fault(*old(self), state) {
                Some(fault) => res == Err::<(), Error>(Error::ValueError(fault)) && *final(self)
                    == *old(self),
                None => {
                    &&& res is Ok
                    &&& final(self).desig == old(self).desig
                    &&& final(self).epoch == old(self).epoch
                    &&& if old(self).center == state.center {
                        &&& state.desig == Desig::Naif(final(self).center.0)
                        &&& final(self).pos == old(self).pos.sum(ops, state.pos.negated())
                        &&& final(self).vel == old(self).vel.sum(ops, state.vel.negated())
                    } else {
                        &&& final(self).center == state.center
                        &&& final(self).pos == old(self).pos.sum(ops, state.pos)
                        &&& final(self).vel == old(self).vel.sum(ops, state.vel)
                    }
                },
            },
    {
        if !self.epoch.equals(state.epoch) {
            return Err(Error::ValueError(ValueFault::EpochMismatch));
        }
        let state_id: i32 = match state.desig {
            Desig::Naif(id) => id,
            _ => {
                return Err(Error::ValueError(ValueFault::CenterNeedsNaif));
            },
        };
        if self.center.0 != state.center.0 && self.center.0 != state_id {
            return Err(Error::ValueError(ValueFault::UnrelatedStates));
        }
        let mut target = state;
        if self.center.0 == target.center.0 {
            let flip = target.try_flip_center_id();
            if let Err(fault) = flip {
                return Err(fault);
            }
        }
        self.center = DynCenter(target.center.0);
        self.pos = self.pos.plus(ops, target.pos);
        self.vel = self.vel.plus(ops, target.vel);
        Ok(())
    }
}

impl<T: InertialFrame> From<State<T, SSB>> for State<T, DynCenter> {
    fn from(s: State<T, SSB>) -> (r: Self) {
        State { desig: s.desig, epoch: s.epoch, pos: s.pos, vel: s.vel, center: DynCenter(0) }
    }
}

impl<T: InertialFrame> FromSpecImpl<State<T, SSB>> for State<T, DynCenter> {
    open spec fn obeys_from_spec() -> bool {
        true
    }

    open spec fn from_spec(s: State<T, SSB>) -> Self {
        State { desig: s.desig, epoch: s.epoch, pos: s.pos, vel: s.vel, center: DynCenter(0) }
    }
}

impl<T: InertialFrame> From<State<T, SunCenter>> for State<T, DynCenter> {
    fn from(s: State<T, SunCenter>) -> (r: Self) {
        State { desig: s.desig, epoch: s.epoch, pos: s.pos, vel: s.vel, center: DynCenter(10) }
    }
}

impl<T: InertialFrame> FromSpecImpl<State<T, SunCenter>> for State<T, DynCenter> {
    open spec fn obeys_from_spec() -> bool {
        true
    }

    open spec fn from_spec(s: State<T, SunCenter>) -> Self {
        State { desig: s.desig, epoch: s.epoch, pos: s.pos, vel: s.vel, center: DynCenter(10) }
    }
}

impl<T: InertialFrame> From<State<T, EarthCenter>> for State<T, DynCenter> {
    fn from(s: State<T, EarthCenter>) -> (r: Self) {
        State { desig: s.desig, epoch: s.epoch, pos: s.pos, vel: s.vel, center: DynCenter(399) }
    }
}

impl<T: InertialFrame> FromSpecImpl<State<T, EarthCenter>> for State<T, DynCenter> {
    open spec fn obeys_from_spec() -> bool {
        true
    }

    open spec fn from_spec(s: State<T, EarthCenter>) -> Self {
        State { desig: s.desig, epoch: s.epoch, pos: s.pos, vel: s.vel, center: DynCenter(399) }
    }
}

impl<T: InertialFrame> TryFrom<State<T, DynCenter>> for State<T, SSB> {
    type Error = Error;

    fn try_from(s: State<T, DynCenter>) -> (r: KeteResult<Self>) {
        if s.center.0 != 0 {
            return Err(
                Error::ValueError(ValueFault::WrongCenter { expected: 0, found: s.center.0 }),
            );
        }
        Ok(State { desig: s.desig, epoch: s.epoch, pos: s.pos, vel: s.vel, center: SSB })
    }
}

impl<T: InertialFrame> TryFromSpecImpl<State<T, DynCenter>> for State<T, SSB> {
    open spec fn obeys_try_from_spec() -> bool {
        true
    }

    open spec fn try_from_spec(s: State<T, DynCenter>) -> KeteResult<Self> {
        if s.center.0 != 0 {
            Err(Error::ValueError(ValueFault::WrongCenter { expected: 0, found: s.center.0 }))
        } else {
            Ok(State { desig: s.desig, epoch: s.epoch, pos: s.pos, vel: s.vel, center: SSB })
        }
    }
}

impl<T: InertialFrame> TryFrom<State<T, DynCenter>> for State<T, SunCenter> {
    type Error = Error;

    fn try_from(s: State<T, DynCenter>) -> (r: KeteResult<Self>) {
        if s.center.0 != 10 {
            return Err(
                Error::ValueError(ValueFault::WrongCenter { expected: 10, found: s.center.0 }),
            );
        }
        Ok(State { desig: s.desig, epoch: s.epoch, pos: s.pos, vel: s.vel, center: SunCenter })
    }
}

impl<T: InertialFrame> TryFromSpecImpl<State<T, DynCenter>> for State<T, SunCenter> {
    open spec fn obeys_try_from_spec() -> bool {
        true
    }

    open spec fn try_from_spec(s: State<T, DynCenter>) -> KeteResult<Self> {
        if s.center.0 != 10 {
            Err(Error::ValueError(ValueFault::WrongCenter { expected: 10, found: s.center.0 }))
        } else {
            Ok(State { desig: s.desig, epoch: s.epoch, pos: s.pos, vel: s.vel, center: SunCenter })
        }
    }
}

impl<T: InertialFrame> TryFrom<State<T, DynCenter>> for State<T, EarthCenter> {
    type Error = Error;

    fn try_from(s: State<T, DynCenter>) -> (r: KeteResult<Self>) {
        if s.center.0 != 399 {
            return Err(
                Error::ValueError(ValueFault::WrongCenter { expected: 399, found: s.center.0 }),
            );
        }
        Ok(State { desig: s.desig, epoch: s.epoch, pos: s.pos, vel: s.vel, center: EarthCenter })
    }
}

impl<T: InertialFrame> TryFromSpecImpl<State<T, DynCenter>> for State<T, EarthCenter> {
    open spec fn obeys_try_from_spec() -> bool {
        true
    }

    open spec fn try_from_spec(s: State<T, DynCenter>) -> KeteResult<Self> {
        if s.center.0 != 399 {
            Err(Error::ValueError(ValueFault::WrongCenter { expected: 399, found: s.center.0 }))
        } else {
            Ok(State { desig: s.desig, epoch: s.epoch, pos: s.pos, vel: s.vel,
                center: EarthCenter })
        }
    }
}

/// Trading object and center twice gives the state back.
pub proof fn law_flip_twice<T: InertialFrame>(
    a: State<T, DynCenter>,
    b: State<T, DynCenter>,
    c: State<T, DynCenter>,
)
    requires
        a.flipped(b),
        b.flipped(c),
    ensures
        c.desig == a.desig,
        c.epoch == a.epoch,
        c.center == a.center,
        c.pos == a.pos,
        c.vel == a.vel,
{
}

/// What leaving the fixed center `C` makes of a state.
pub open spec fn uncentered<T: InertialFrame, C: CenterBody>(s: State<T, C>) -> State<T, DynCenter>
    where State<T, DynCenter>: From<State<T, C>>
{
    <State<T, DynCenter> as vstd::std_specs::convert::FromSpec<State<T, C>>>::from_spec(s)
}

/// What taking a state to be around the fixed center `C` makes of it.
pub open spec fn try_centered<T: InertialFrame, C: CenterBody>(
    s: State<T, DynCenter>,
) -> KeteResult<State<T, C>> where State<T, C>: TryFrom<State<T, DynCenter>, Error = Error>
{
    <State<T, C> as vstd::std_specs::convert::TryFromSpec<State<T, DynCenter>>>::try_from_spec(s)
}

/// Leaving a fixed center for one known at run time and coming back changes nothing,
/// in either direction.
pub proof fn law_center_round_trip<T: InertialFrame>(
    barycentric: State<T, SSB>,
    heliocentric: State<T, SunCenter>,
    geocentric: State<T, EarthCenter>,
    s: State<T, DynCenter>,
)
    ensures
        try_centered::<T, SSB>(uncentered(barycentric)) == Ok::<State<T, SSB>, Error>(barycentric),
        try_centered::<T, SunCenter>(uncentered(heliocentric)) == Ok::<State<T, SunCenter>,
            Error>(heliocentric),
        try_centered::<T, EarthCenter>(uncentered(geocentric)) == Ok::<State<T, EarthCenter>,
            Error>(geocentric),
        try_centered::<T, SSB>(s) matches Ok(t) ==> uncentered(t) == s,
        try_centered::<T, SunCenter>(s) matches Ok(t) ==> uncentered(t) == s,
        try_centered::<T, EarthCenter>(s) matches Ok(t) ==> uncentered(t) == s,
{
    assert(barycentric.center == SSB);
    assert(heliocentric.center == SunCenter);
    assert(geocentric.center == EarthCenter);
}

} // verus!
