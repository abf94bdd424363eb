pub mod accuracy;
pub mod algebra;
pub mod angles;
pub mod arithmetic;
pub mod conics;
pub mod constants;
pub mod desig;
pub mod elements;
pub mod errors;
pub mod exact;
pub mod float;
pub mod forces;
pub mod fov;
pub mod frames;
pub mod integrators;
pub mod io;
pub mod matrix;
pub mod numbers;
pub mod orbits;
pub mod perihelion;
pub mod physics;
pub mod places;
pub mod python;
pub mod ratios;
pub mod rounding;
pub mod state;
pub mod table;
pub mod time;
