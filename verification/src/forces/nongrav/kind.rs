//! Any of the forces other than gravity.
use crate::errors::KeteResult;
use crate::float::F64;
use crate::forces::nongrav::dust::DustNonGrav;
use crate::forces::nongrav::farnocchia::FarnocchiaNonGrav;
use crate::forces::nongrav::jpl_comet::JplCometNonGrav;
use crate::forces::traits::{AnalyticForce, Evaluate, Jacobians, ParameterizedForce};
use crate::frames::{Equatorial, SunCenter, Vector};
use crate::physics::Physics;
use crate::time::Time;
use vstd::prelude::*;
use vstd::std_specs::convert::FromSpecImpl;

verus! {

/// A force other than gravity, relative to the Sun.
#[derive(Debug, Clone, Copy)]
pub enum NonGravKind {
    /// Sunlight on a grain of dust.
    Dust(DustNonGrav),
    /// The push of the gas that leaves a comet.
    JplComet(JplCometNonGrav),
    /// Sunlight and heat on an oblate body.
    Farnocchia(FarnocchiaNonGrav),
}

impl FromSpecImpl<DustNonGrav> for NonGravKind {
    open spec fn obeys_from_spec() -> bool {
        true
    }

    open spec fn from_spec(value: DustNonGrav) -> Self {
        NonGravKind::Dust(value)
    }
}

impl From<DustNonGrav> for NonGravKind {
    fn from(value: DustNonGrav) -> (r: Self) {
        NonGravKind::Dust(value)
    }
}

impl FromSpecImpl<JplCometNonGrav> for NonGravKind {
    open spec fn obeys_from_spec() -> bool {
        true
    }

    open spec fn from_spec(value: JplCometNonGrav) -> Self {
        NonGravKind::JplComet(value)
    }
}

impl From<JplCometNonGrav> for NonGravKind {
    fn from(value: JplCometNonGrav) -> (r: Self) {
        NonGravKind::JplComet(value)
    }
}

impl FromSpecImpl<FarnocchiaNonGrav> for NonGravKind {
    open spec fn obeys_from_spec() -> bool {
        true
    }

    open spec fn from_spec(value: FarnocchiaNonGrav) -> Self {
        NonGravKind::Farnocchia(value)
    }
}

impl From<FarnocchiaNonGrav> for NonGravKind {
    fn from(value: FarnocchiaNonGrav) -> (r: Self) {
        NonGravKind::Farnocchia(value)
    }
}

impl ParameterizedForce for NonGravKind {
    type Frame = Equatorial;

    type Center = SunCenter;

    open spec fn well_formed(&self) -> bool {
        true
    }

    open spec fn n_params(&self) -> nat {
        match self {
            NonGravKind::Dust(f) => f.n_params(),
            NonGravKind::JplComet(f) => f.n_params(),
            NonGravKind::Farnocchia(f) => f.n_params(),
        }
    }

    open spec fn names(&self) -> Seq<Seq<char>> {
        match self {
            NonGravKind::Dust(f) => f.names(),
            NonGravKind::JplComet(f) => f.names(),
            NonGravKind::Farnocchia(f) => f.names(),
        }
    }

    open spec fn bounds(&self) -> Seq<Option<F64>> {
        match self {
            NonGravKind::Dust(f) => f.bounds(),
            NonGravKind::JplComet(f) => f.bounds(),
            NonGravKind::Farnocchia(f) => f.bounds(),
        }
    }

    open spec fn accepts(&self, n: nat) -> bool {
        n >= self.n_params()
    }

    fn n_free_params(&self) -> usize {
        match self {
            NonGravKind::Dust(f) => f.n_free_params(),
            NonGravKind::JplComet(f) => f.n_free_params(),
            NonGravKind::Farnocchia(f) => f.n_free_params(),
        }
    }

    fn free_param_names(&self) -> Vec<&'static str> {
        match self {
            NonGravKind::Dust(f) => f.free_param_names(),
            NonGravKind::JplComet(f) => f.free_param_names(),
            NonGravKind::Farnocchia(f) => f.free_param_names(),
        }
    }

    fn lower_bounds(&self) -> Vec<Option<F64>> {
        match self {
            NonGravKind::Dust(f) => f.lower_bounds(),
            NonGravKind::JplComet(f) => f.lower_bounds(),
            NonGravKind::Farnocchia(f) => f.lower_bounds(),
        }
    }
}

impl<A: Physics> Evaluate<A> for NonGravKind {
    open spec fn accel_value(
        &self,
        ops: &A,
        time: Time,
        pos: Vector<Equatorial>,
        vel: Vector<Equatorial>,
        free_params: Seq<F64>,
    ) -> KeteResult<Vector<Equatorial>> {
        match self {
            NonGravKind::Dust(f) => f.accel_value(ops, time, pos, vel, free_params),
            NonGravKind::JplComet(f) => f.accel_value(ops, time, pos, vel, free_params),
            NonGravKind::Farnocchia(f) => f.accel_value(ops, time, pos, vel, free_params),
        }
    }

    fn accel(
        &self,
        ops: &A,
        time: Time,
        pos: Vector<Equatorial>,
        vel: Vector<Equatorial>,
        free_params: &[F64],
    ) -> KeteResult<Vector<Equatorial>> {
        match self {
            NonGravKind::Dust(f) => f.accel(ops, time, pos, vel, free_params),
            NonGravKind::JplComet(f) => f.accel(ops, time, pos, vel, free_params),
            NonGravKind::Farnocchia(f) => f.accel(ops, time, pos, vel, free_params),
        }
    }
}

impl<A: Physics> AnalyticForce<A> for NonGravKind {
    open spec fn jacobians_value(
        &self,
        ops: &A,
        time: Time,
        pos: Vector<Equatorial>,
        vel: Vector<Equatorial>,
        free_params: Seq<F64>,
    ) -> KeteResult<Jacobians<Equatorial>> {
        match self {
            NonGravKind::Dust(f) => f.jacobians_value(ops, time, pos, vel, free_params),
            NonGravKind::JplComet(f) => f.jacobians_value(ops, time, pos, vel, free_params),
            NonGravKind::Farnocchia(f) => f.jacobians_value(ops, time, pos, vel, free_params),
        }
    }

    open spec fn parameter_jacobian_value(
        &self,
        ops: &A,
        time: Time,
        pos: Vector<Equatorial>,
        vel: Vector<Equatorial>,
        free_params: Seq<F64>,
    ) -> KeteResult<Seq<Vector<Equatorial>>> {
        match self {
            NonGravKind::Dust(f) => f.parameter_jacobian_value(ops, time, pos, vel, free_params),
            NonGravKind::JplComet(f) => f.parameter_jacobian_value(
                ops,
                time,
                pos,
                vel,
                free_params,
            ),
            NonGravKind::Farnocchia(f) => f.parameter_jacobian_value(
                ops,
                time,
                pos,
                vel,
                free_params,
            ),
        }
    }

    proof fn lemma_columns(
        &self,
        ops: &A,
        time: Time,
        pos: Vector<Equatorial>,
        vel: Vector<Equatorial>,
        free_params: Seq<F64>,
    ) {
        match self {
            NonGravKind::Dust(f) => f.lemma_columns(ops, time, pos, vel, free_params),
            NonGravKind::JplComet(f) => f.lemma_columns(ops, time, pos, vel, free_params),
            NonGravKind::Farnocchia(f) => f.lemma_columns(ops, time, pos, vel, free_params),
        }
    }

    fn jacobians(
        &self,
        ops: &A,
        time: Time,
        pos: Vector<Equatorial>,
        vel: Vector<Equatorial>,
        free_params: &[F64],
    ) -> KeteResult<Jacobians<Equatorial>> {
        match self {
            NonGravKind::Dust(f) => f.jacobians(ops, time, pos, vel, free_params),
            NonGravKind::JplComet(f) => f.jacobians(ops, time, pos, vel, free_params),
            NonGravKind::Farnocchia(f) => f.jacobians(ops, time, pos, vel, free_params),
        }
    }

    fn parameter_jacobian(
        &self,
        ops: &A,
        time: Time,
        pos: Vector<Equatorial>,
        vel: Vector<Equatorial>,
        free_params: &[F64],
    ) -> KeteResult<Vec<Vector<Equatorial>>> {
        match self {
            NonGravKind::Dust(f) => f.parameter_jacobian(ops, time, pos, vel, free_params),
            NonGravKind::JplComet(f) => f.parameter_jacobian(ops, time, pos, vel, free_params),
            NonGravKind::Farnocchia(f) => f.parameter_jacobian(ops, time, pos, vel, free_params),
        }
    }
}

} // verus!
