//! What the Python package does with the library: choices of units and defaults, checks of
//! inputs, and how work is split up.
pub mod checks;
pub mod diffuse;
pub mod elements;
pub mod fitting;
pub mod horizons;
pub mod nongrav;
pub mod propagation;
pub mod simult_states;
pub mod state;
pub mod stm;
pub mod uncertain;

pub use diffuse::PyDiffuseState;
pub use elements::PyCometElements;
pub use fitting::{PyObservation, PyOrbitFit, PyOrbitSamples, PyRangingSamples};
pub use horizons::PyHorizonsProperties;
pub use nongrav::PyNonGravModel;
pub use simult_states::PySimultaneousStates;
pub use state::{PyFrames, PyState};
pub use uncertain::PyUncertainState;
