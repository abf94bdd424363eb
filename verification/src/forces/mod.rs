//! Forces on an object, and the parameters they leave free.
pub mod adding;
pub mod differences;
pub mod frozen;
pub mod function;
pub mod gravity;
pub mod nongrav;
pub mod parameter_mask;
pub mod set;
pub mod sum;
pub mod traits;

pub use frozen::FrozenForce;
pub use function::ForceFunction;
pub use gravity::{
    analytical_jacobians, known_masses, register_custom_mass, register_mass, registered_masses,
    GravParams, Registry,
};
pub use nongrav::{DustNonGrav, FarnocchiaNonGrav, JplCometNonGrav, NonGravKind};
pub use parameter_mask::ParameterMask;
pub use set::ForceSet;
pub use sum::Sum;
pub use traits::{AnalyticForce, Evaluate, Force, ParameterizedForce};
use vstd::prelude::*;

verus! {

/// A force other than gravity of which some parameters are held.
pub type NonGravMask = ParameterMask<NonGravKind>;

/// A force other than gravity with all parameters held.
pub type FrozenNonGrav = FrozenForce<NonGravKind>;

} // verus!
