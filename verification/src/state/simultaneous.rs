//! States of many objects at one moment.
use crate::errors::{Error, KeteResult, ValueFault};
use crate::float::F64;
use crate::fov::FOV;
use crate::frames::{CenterBody, Equatorial};
use crate::io::fov;
use crate::io::fov::{FovModel, StateModel};
use crate::io::wire;
use crate::io::wire::Wire;
use crate::state::State;
use crate::time::Time;
use vstd::prelude::*;

verus! {

/// States around one center, either at one moment or as they appear in a field of
/// view. In a field of view, each state is at the moment the light left the object.
#[derive(Debug)]
pub struct SimultaneousStates {
    /// The states.
    pub states: Vec<State<Equatorial>>,
    /// Where the states were seen.
    pub fov: Option<FOV>,
    /// The moment of the collection.
    pub epoch: Time,
    /// The center of every state.
    pub center_id: i32,
}

/// The time of a state.
pub open spec fn epoch_of(s: StateModel) -> F64 {
    s.1.0
}

/// The center of a state.
pub open spec fn center_of(s: StateModel) -> i32 {
    s.1.1.1.1
}

/// The moment and the center of a collection, or why the states cannot be one. There
/// has to be a state, all of them have to be around one center, and without a field
/// of view all of them have to be at one moment. The moment of a field of view is that
/// of its observer.
pub open spec fn header(states: Seq<StateModel>, fov: Option<FovModel>) -> KeteResult<(F64, i32)> {
    if states.len() == 0 {
        Err(Error::ValueError(ValueFault::NoStates))
    } else if exists|i: int|
        0 <= i < states.len() && center_of(#[trigger] states[i]) != center_of(states[0]) {
        Err(Error::ValueError(ValueFault::MixedCenters))
    } else {
        match fov {
            Some(f) => Ok((epoch_of(fov::fov_observer(f)), center_of(states[0]))),
            None => if exists|i: int|
                0 <= i < states.len() && !epoch_of(#[trigger] states[i]).same(epoch_of(states[0])) {
                Err(Error::ValueError(ValueFault::MixedEpochs))
            } else {
                Ok((epoch_of(states[0]), center_of(states[0])))
            },
        }
    }
}

impl SimultaneousStates {
    /// The moment and the center are those of the states.
    pub open spec fn well_formed(&self) -> bool {
        header(wire::wires(self.states@), self.fov.wire()) == Ok::<(F64, i32), Error>(
            (self.epoch.jd, self.center_id),
        )
    }

    /// Collect states.
    pub fn new_exact(states: Vec<State<Equatorial>>, fov: Option<FOV>) -> (res: KeteResult<Self>)
        ensures
            match header(wire::wires(states@), fov.wire()) {
                Ok((jd, center_id)) => {
                    &&& res matches Ok(s)
                    &&& s.states == states
                    &&& s.fov == fov
                    &&& s.epoch.jd == jd
                    &&& s.center_id == center_id
                    &&& s.well_formed()
                },
                Err(e) => res == Err::<Self, Error>(e),
            },
    {
        let ghost models = wire::wires(states@);
        if states.len() == 0 {
            return Err(Error::ValueError(ValueFault::NoStates));
        }
        let center_id: i32 = states[0].center_id();
        let first = states[0].epoch;
        assert(models[0] == states@[0].wire());
        let mut i: usize = 0;
        while i < states.len()
            invariant
                i <= states@.len(),
                states@.len() > 0,
                models == wire::wires(states@),
                center_id == center_of(models[0]),
                forall|j: int| 0 <= j < i ==> center_of(#[trigger] models[j]) == center_id,
            decreases states.len() - i,
        {
            assert(models[i as int] == states@[i as int].wire());
            if states[i].center_id() != center_id {
                return Err(Error::ValueError(ValueFault::MixedCenters));
            }
            i = i + 1;
        }
        let mut epoch = first;
        match &fov {
            Some(f) => {
                epoch = f.observer().epoch;
                proof {
                    fov::lemma_observer_kept(*f);
                }
            },
            None => {
                let mut i: usize = 0;
                while i < states.len()
                    invariant
                        i <= states@.len(),
                        states@.len() > 0,
                        models == wire::wires(states@),
                        center_id == center_of(models[0]),
                        first.jd == epoch_of(models[0]),
                        fov is None,
                        forall|j: int|
                            0 <= j < models.len() ==> center_of(#[trigger] models[j]) == center_id,
                        forall|j: int|
                            0 <= j < i ==> epoch_of(#[trigger] models[j]).same(first.jd),
                    decreases states.len() - i,
                {
                    assert(models[i as int] == states@[i as int].wire());
                    if !states[i].epoch.equals(first) {
                        return Err(Error::ValueError(ValueFault::MixedEpochs));
                    }
                    i = i + 1;
                }
            },
        }
        Ok(SimultaneousStates { states, fov, epoch, center_id })
    }

    /// The moment of the collection.
    pub fn epoch(&self) -> (t: Time)
        ensures
            t == self.epoch,
    {
        self.epoch
    }

    /// The center of every state.
    pub fn center_id(&self) -> (id: i32)
        ensures
            id == self.center_id,
    {
        self.center_id
    }
}

} // verus!
