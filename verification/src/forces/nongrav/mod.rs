//! Forces other than gravity, all relative to the Sun.
pub mod dust;
pub mod farnocchia;
pub mod jpl_comet;
pub mod kind;

pub use dust::DustNonGrav;
pub use farnocchia::{
    a_over_m_from_physical, density_from_a_over_m, lambda_0_from_physical,
    thermal_inertia_from_lambda_0, FarnocchiaNonGrav,
};
pub use jpl_comet::JplCometNonGrav;
pub use kind::NonGravKind;
