//! States of objects.
pub mod adaptive;
pub mod cartesian;
pub mod diffuse;
pub mod mixing;
pub mod moments;
pub mod simultaneous;
pub mod stm;
pub mod uncertain;

pub use adaptive::{
    mixture_sigma_point_divergence, propagate_diffuse_state_adaptive, propagate_with_diagnosis,
    sigma_point_divergence, LinearityDiagnosis, SplitConfig,
};
pub use cartesian::State;
pub use diffuse::DiffuseState;
pub use simultaneous::SimultaneousStates;
pub use stm::{covariance_update, propagate_with_covariance, propagate_with_stm};
pub use uncertain::UncertainState;
