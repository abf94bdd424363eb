//! Numbers, by their bit patterns, and the constants of nature.
use crate::float::F64;
use crate::frames::Equatorial;
use crate::matrix::Matrix3;
use vstd::prelude::*;

verus! {

/// Zero.
pub const ZERO: u64 = 0x0000_0000_0000_0000;

/// The distance from one to the next larger number.
pub const MACHINE_EPSILON: u64 = 0x3cb0_0000_0000_0000;

/// One quarter.
pub const QUARTER: u64 = 0x3fd0_0000_0000_0000;

/// One half.
pub const HALF: u64 = 0x3fe0_0000_0000_0000;

/// Three quarters.
pub const THREE_QUARTERS: u64 = 0x3fe8_0000_0000_0000;

/// One.
pub const ONE: u64 = 0x3ff0_0000_0000_0000;

/// One and a half.
pub const ONE_AND_HALF: u64 = 0x3ff8_0000_0000_0000;

/// Two.
pub const TWO: u64 = 0x4000_0000_0000_0000;

/// Three.
pub const THREE: u64 = 0x4008_0000_0000_0000;

/// Four.
pub const FOUR: u64 = 0x4010_0000_0000_0000;

/// Five.
pub const FIVE: u64 = 0x4014_0000_0000_0000;

/// Ten.
pub const TEN: u64 = 0x4024_0000_0000_0000;

/// Five hundred.
pub const FIVE_HUNDRED: u64 = 0x407f_4000_0000_0000;

/// The seconds of an hour.
pub const SECONDS_PER_HOUR: u64 = 0x40ac_2000_0000_0000;

/// The constants which forces and orbits depend on. Lengths are in AU and times in days
/// where nothing else is said.
#[derive(Debug, Clone, Copy)]
pub struct Constants {
    /// The standard gravitational parameter of the Sun.
    pub gms: F64,
    /// Its square root.
    pub gms_sqrt: F64,
    /// One over the square of the speed of light.
    pub c_inv_squared: F64,
    /// The oblateness of the Sun.
    pub sun_j2: F64,
    /// The oblateness of Jupiter.
    pub jupiter_j2: F64,
    /// The oblateness of the Earth.
    pub earth_j2: F64,
    /// The pressure of sunlight at one AU, as an acceleration of one kilogram by one square
    /// meter.
    pub f0_over_c: F64,
    /// The flux of sunlight at one AU, in watts per square meter.
    pub solar_flux: F64,
    /// The Stefan-Boltzmann constant.
    pub stefan_boltzmann: F64,
    /// How far from one an eccentricity may be and still be taken as that of a parabola.
    pub parabolic_limit: F64,
    /// Half of the circumference of the unit circle.
    pub pi: F64,
    /// The rotation which takes a vector from the frame of the ecliptic to that of the equator.
    pub ecliptic: Matrix3<Equatorial>,
}

} // verus!
