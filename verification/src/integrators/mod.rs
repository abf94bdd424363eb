//! Numerical integration of second order differential equations.
//!
//! Each integrator is a state and the transitions between states, and a function which takes
//! steps until the goal is reached or the steps run out.
pub mod bulirsch_stoer;
pub mod control;
pub mod gauss_jackson;
pub mod history;
pub mod nodes;
pub mod ode;
pub mod radau;
pub mod substeps;

pub use bulirsch_stoer::BulirschStoerIntegrator;
pub use gauss_jackson::GaussJacksonIntegrator;
pub use radau::RadauIntegrator;
