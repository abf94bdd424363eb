//! Observations of one object, and the orbits which are fitted to them.
use crate::arithmetic;
use crate::arithmetic::{Arithmetic, Unary};
use crate::constants;
use crate::desig::Desig;
use crate::elements::{DEGREES_PER_RADIAN, RADIANS_PER_DEGREE};
use crate::errors::{Error, KeteResult, ValueFault};
use crate::exact;
use crate::float::F64;
use crate::forces::traits::ParameterizedForce;
use crate::forces::FrozenNonGrav;
use crate::frames;
use crate::frames::{DynCenter, Equatorial, Vector, SSB};
use crate::numbers;
use crate::orbits;
use crate::python::elements;
use crate::python::nongrav;
use crate::python::nongrav::PyNonGravModel;
use crate::python::state;
use crate::python::state::PyState;
use crate::python::uncertain::PyUncertainState;
use crate::rounding;
use crate::rounding::{read, Reading, Triple};
use crate::state::uncertain::UncertainState;
use crate::state::State;
use crate::time::Time;
use vstd::prelude::*;

verus! {

/// The arcseconds of one radian.
pub const RAD_TO_ARCSEC: u64 = 0x4109_2dc6_7331_ad7b;

/// The least cosine of a declination which an uncertainty in right ascension is divided by.
pub const LEAST_COSINE: u64 = 0x3eb0_c6f7_a0b5_ed8d;

/// The uncertainty in time of an observation where nothing else is said, in seconds.
pub const DEFAULT_TIME_SIGMA: u64 = 0x3fe0_0000_0000_0000;

/// How often a fit is refined at most.
pub const MAX_FIT_ITERATIONS: usize = 50;

/// The correction below which a fit has converged.
pub const FIT_TOLERANCE: u64 = 0x3e45_798e_e230_8c3a;

/// Where an object was, or how far away, or how fast that changed.
#[derive(Debug)]
pub enum AstrometricObservation {
    /// A direction on the sky. Angles are in radians.
    Optical {
        /// The observer.
        observer: State<Equatorial, SSB>,
        /// The right ascension.
        ra: F64,
        /// The declination.
        dec: F64,
        /// The uncertainty along right ascension.
        sigma_ra: F64,
        /// The uncertainty along declination.
        sigma_dec: F64,
        /// The correlation of both.
        sigma_corr: F64,
        /// The uncertainty in time, in seconds.
        time_sigma: F64,
        /// Did the object pass in front of a star.
        is_occultation: bool,
        /// The name of the filter.
        band: String,
        /// The apparent magnitude.
        mag: F64,
    },
    /// A range by radar. Latitudes and longitudes are in radians, heights in kilometers.
    RadarRange {
        /// Where the transmitter is.
        xmit: Site,
        /// Where the receiver is.
        rcvr: Site,
        /// When the echo came back.
        epoch: Time,
        /// The range in AU.
        range: F64,
        /// Its uncertainty.
        sigma_range: F64,
    },
    /// A range rate by radar. Latitudes and longitudes are in radians, heights in kilometers.
    RadarRate {
        /// Where the transmitter is.
        xmit: Site,
        /// Where the receiver is.
        rcvr: Site,
        /// When the echo came back.
        epoch: Time,
        /// The range rate in AU per day.
        range_rate: F64,
        /// Its uncertainty.
        sigma_range_rate: F64,
    },
}

/// A place on the Earth.
#[derive(Debug, Clone, Copy)]
pub struct Site {
    /// The latitude in radians.
    pub lat: F64,
    /// The longitude in radians.
    pub lon: F64,
    /// The height above the ellipsoid in kilometers.
    pub height: F64,
}

/// A place given by its latitude and longitude in degrees.
pub open spec fn site<A: Arithmetic>(ops: &A, lat: F64, lon: F64, height: F64) -> Site {
    Site { lat: elements::in_radians(ops, lat), lon: elements::in_radians(ops, lon), height }
}

/// A place given by its latitude and longitude in degrees.
fn find_site<A: Arithmetic>(ops: &A, lat: F64, lon: F64, height: F64) -> (r: Site)
    requires
        ops.lawful(),
    ensures
        r == site(ops, lat, lon, height),
{
    Site { lat: elements::to_radians(ops, lat), lon: elements::to_radians(ops, lon), height }
}

impl Clone for AstrometricObservation {
    fn clone(&self) -> (r: Self)
        ensures
            r == *self,
    {
        match self {
            AstrometricObservation::Optical {
                observer,
                ra,
                dec,
                sigma_ra,
                sigma_dec,
                sigma_corr,
                time_sigma,
                is_occultation,
                band,
                mag,
            } => AstrometricObservation::Optical {
                observer: observer.clone(),
                ra: *ra,
                dec: *dec,
                sigma_ra: *sigma_ra,
                sigma_dec: *sigma_dec,
                sigma_corr: *sigma_corr,
                time_sigma: *time_sigma,
                is_occultation: *is_occultation,
                band: band.clone(),
                mag: *mag,
            },
            AstrometricObservation::RadarRange { xmit, rcvr, epoch, range, sigma_range } =>
                AstrometricObservation::RadarRange {
                xmit: *xmit,
                rcvr: *rcvr,
                epoch: *epoch,
                range: *range,
                sigma_range: *sigma_range,
            },
            AstrometricObservation::RadarRate {
                xmit,
                rcvr,
                epoch,
                range_rate,
                sigma_range_rate,
            } => AstrometricObservation::RadarRate {
                xmit: *xmit,
                rcvr: *rcvr,
                epoch: *epoch,
                range_rate: *range_rate,
                sigma_range_rate: *sigma_range_rate,
            },
        }
    }
}

impl AstrometricObservation {
    /// When the observation was made.
    pub open spec fn time(&self) -> Time {
        match self {
            AstrometricObservation::Optical { observer, .. } => observer.epoch,
            AstrometricObservation::RadarRange { epoch, .. } => *epoch,
            AstrometricObservation::RadarRate { epoch, .. } => *epoch,
        }
    }
}

/// The size of the cosine of a declination.
pub open spec fn dec_cosine<A: Arithmetic>(ops: &A, dec: F64) -> F64 {
    ops.one(Unary::Cos, dec).abs_value()
}

/// Why an observation on the sky is refused.
pub open spec fn optical_fault(
    sigma_ra: F64,
    sigma_dec: F64,
    time_sigma: F64,
    sigma_corr: F64,
) -> Option<ValueFault> {
    let zero = F64 { bits: 0 };
    let one = F64 { bits: constants::ONE };
    if sigma_ra.spec_le(zero) || sigma_dec.spec_le(zero) {
        Some(ValueFault::BadSkySigma)
    } else if time_sigma.spec_lt(zero) {
        Some(ValueFault::BadTimeSigma)
    } else if !(one.negated().spec_lt(sigma_corr) && sigma_corr.spec_lt(one)) {
        Some(ValueFault::BadCorrelation)
    } else {
        None
    }
}

/// An observation for the determination of an orbit.
#[derive(Debug, Clone)]
pub struct PyObservation {
    /// The observation.
    pub obs: AstrometricObservation,
}

impl PyObservation {
    /// There is no observation without a kind.
    pub fn new() -> (r: KeteResult<Self>)
        ensures
            r == Err::<Self, Error>(Error::ValueError(ValueFault::NeedsFactory)),
    {
        Err(Error::ValueError(ValueFault::NeedsFactory))
    }

    /// An observation on the sky. Right ascension and declination are in degrees, their
    /// uncertainties on the sky in arcseconds. `recenter` moves the observer to the barycenter of
    /// the Solar System.
    pub fn optical<A: Arithmetic, R: Fn(State<Equatorial>) -> KeteResult<State<Equatorial, SSB>>>(
        ops: &A,
        recenter: R,
        observer: PyState,
        ra: F64,
        dec: F64,
        sigma_ra: F64,
        sigma_dec: F64,
        band: String,
        mag: F64,
        time_sigma: F64,
        sigma_corr: F64,
        is_occultation: bool,
    ) -> (r: KeteResult<Self>)
        requires
            ops.lawful(),
            call_requires(recenter, (observer.raw,)),
        ensures
            match optical_fault(sigma_ra, sigma_dec, time_sigma, sigma_corr) {
                Some(f) => r == Err::<Self, Error>(Error::ValueError(f)),
                None => exists|moved: KeteResult<State<Equatorial, SSB>>| #[trigger]
                    call_ensures(recenter, (observer.raw,), moved) && r == Self::seen(
                        ops,
                        moved,
                        ra,
                        dec,
                        sigma_ra,
                        sigma_dec,
                        band,
                        mag,
                        time_sigma,
                        sigma_corr,
                        is_occultation,
                    ),
            },
    {
        let zero = F64::zero();
        let one = F64::from_bits(constants::ONE);
        if sigma_ra.less_or_equal(zero) || sigma_dec.less_or_equal(zero) {
            return Err(Error::ValueError(ValueFault::BadSkySigma));
        }
        if time_sigma.less(zero) {
            return Err(Error::ValueError(ValueFault::BadTimeSigma));
        }
        if !(one.neg().less(sigma_corr) && sigma_corr.less(one)) {
            return Err(Error::ValueError(ValueFault::BadCorrelation));
        }
        let moved = recenter(observer.raw);
        let scale = arithmetic::over(ops, one, F64::from_bits(RAD_TO_ARCSEC));
        match moved {
            Err(e) => Err(e),
            Ok(observer) => {
                let dec_rad = elements::to_radians(ops, dec);
                let cosine = numbers::max(
                    ops.unary(Unary::Cos, dec_rad).abs(),
                    F64::from_bits(LEAST_COSINE),
                );
                let sky = arithmetic::times(ops, sigma_ra, scale);
                Ok(
                    PyObservation {
                        obs: AstrometricObservation::Optical {
                            observer,
                            ra: elements::to_radians(ops, ra),
                            dec: dec_rad,
                            sigma_ra: arithmetic::over(ops, sky, cosine),
                            sigma_dec: arithmetic::times(ops, sigma_dec, scale),
                            sigma_corr,
                            time_sigma,
                            is_occultation,
                            band,
                            mag,
                        },
                    },
                )
            },
        }
    }

    /// What an observation on the sky is kept as. The uncertainty in right ascension is divided
    /// by the cosine of the declination.
    pub open spec fn seen<A: Arithmetic>(
        ops: &A,
        moved: KeteResult<State<Equatorial, SSB>>,
        ra: F64,
        dec: F64,
        sigma_ra: F64,
        sigma_dec: F64,
        band: String,
        mag: F64,
        time_sigma: F64,
        sigma_corr: F64,
        is_occultation: bool,
    ) -> KeteResult<Self> {
        let scale = arithmetic::quotient(
            ops,
            F64 { bits: constants::ONE },
            F64 { bits: RAD_TO_ARCSEC },
        );
        let dec_rad = elements::in_radians(ops, dec);
        match moved {
            Err(e) => Err(e),
            Ok(observer) => Ok(
                PyObservation {
                    obs: AstrometricObservation::Optical {
                        observer,
                        ra: elements::in_radians(ops, ra),
                        dec: dec_rad,
                        sigma_ra: arithmetic::quotient(
                            ops,
                            arithmetic::product(ops, sigma_ra, scale),
                            numbers::larger(
                                dec_cosine(ops, dec_rad),
                                F64 { bits: LEAST_COSINE },
                            ),
                        ),
                        sigma_dec: arithmetic::product(ops, sigma_dec, scale),
                        sigma_corr,
                        time_sigma,
                        is_occultation,
                        band,
                        mag,
                    },
                },
            ),
        }
    }

    /// A range by radar. Latitudes and longitudes are in degrees.
    pub fn radar_range<A: Arithmetic>(
        ops: &A,
        xmit_lat: F64,
        xmit_lon: F64,
        xmit_height: F64,
        rcvr_lat: F64,
        rcvr_lon: F64,
        rcvr_height: F64,
        epoch: Time,
        range: F64,
        sigma_range: F64,
    ) -> (r: KeteResult<Self>)
        requires
            ops.lawful(),
        ensures
            r == (if sigma_range.spec_le(F64 { bits: 0 }) {
                Err(Error::ValueError(ValueFault::BadRangeSigma))
            } else {
                Ok(
                    PyObservation {
                        obs: AstrometricObservation::RadarRange {
                            xmit: site(ops, xmit_lat, xmit_lon, xmit_height),
                            rcvr: site(ops, rcvr_lat, rcvr_lon, rcvr_height),
                            epoch,
                            range,
                            sigma_range,
                        },
                    },
                )
            }),
    {
        if sigma_range.less_or_equal(F64::zero()) {
            return Err(Error::ValueError(ValueFault::BadRangeSigma));
        }
        Ok(
            PyObservation {
                obs: AstrometricObservation::RadarRange {
                    xmit: find_site(ops, xmit_lat, xmit_lon, xmit_height),
                    rcvr: find_site(ops, rcvr_lat, rcvr_lon, rcvr_height),
                    epoch,
                    range,
                    sigma_range,
                },
            },
        )
    }

    /// A range rate by radar. Latitudes and longitudes are in degrees.
    pub fn radar_rate<A: Arithmetic>(
        ops: &A,
        xmit_lat: F64,
        xmit_lon: F64,
        xmit_height: F64,
        rcvr_lat: F64,
        rcvr_lon: F64,
        rcvr_height: F64,
        epoch: Time,
        range_rate: F64,
        sigma_range_rate: F64,
    ) -> (r: KeteResult<Self>)
        requires
            ops.lawful(),
        ensures
            r == (if sigma_range_rate.spec_le(F64 { bits: 0 }) {
                Err(Error::ValueError(ValueFault::BadRateSigma))
            } else {
                Ok(
                    PyObservation {
                        obs: AstrometricObservation::RadarRate {
                            xmit: site(ops, xmit_lat, xmit_lon, xmit_height),
                            rcvr: site(ops, rcvr_lat, rcvr_lon, rcvr_height),
                            epoch,
                            range_rate,
                            sigma_range_rate,
                        },
                    },
                )
            }),
    {
        if sigma_range_rate.less_or_equal(F64::zero()) {
            return Err(Error::ValueError(ValueFault::BadRateSigma));
        }
        Ok(
            PyObservation {
                obs: AstrometricObservation::RadarRate {
                    xmit: find_site(ops, xmit_lat, xmit_lon, xmit_height),
                    rcvr: find_site(ops, rcvr_lat, rcvr_lon, rcvr_height),
                    epoch,
                    range_rate,
                    sigma_range_rate,
                },
            },
        )
    }

    /// When the observation was made. For radar that is when the echo came back.
    pub fn epoch(&self) -> (t: Time)
        ensures
            t == self.obs.time(),
    {
        match &self.obs {
            AstrometricObservation::Optical { observer, .. } => observer.epoch,
            AstrometricObservation::RadarRange { epoch, .. } => *epoch,
            AstrometricObservation::RadarRate { epoch, .. } => *epoch,
        }
    }

    /// Residuals as they are shown: on the sky in arcseconds, otherwise as they are.
    pub open spec fn shown_residual<A: Arithmetic>(
        ops: &A,
        obs: AstrometricObservation,
        resid: Seq<F64>,
    ) -> Seq<F64> {
        match obs {
            AstrometricObservation::Optical { dec, .. } => {
                let arcsec = F64 { bits: RAD_TO_ARCSEC };
                seq![
                    arithmetic::product(
                        ops,
                        arithmetic::product(ops, resid[0], arcsec),
                        dec_cosine(ops, dec),
                    ),
                    arithmetic::product(ops, resid[1], arcsec),
                ]
            },
            _ => resid,
        }
    }

    /// A predicted measurement as it is shown: on the sky in degrees, otherwise as it is.
    pub open spec fn shown_prediction<A: Arithmetic>(
        ops: &A,
        obs: AstrometricObservation,
        pred: Seq<F64>,
    ) -> Seq<F64> {
        match obs {
            AstrometricObservation::Optical { .. } => seq![
                elements::in_degrees(ops, pred[0]),
                elements::in_degrees(ops, pred[1]),
            ],
            _ => pred,
        }
    }

    /// Residual and predicted measurement in the units they are shown in, from those in radians.
    pub fn residual<A: Arithmetic>(&self, ops: &A, resid: &Vec<F64>, pred: &Vec<F64>) -> (r: (
        Vec<F64>,
        Vec<F64>,
    ))
        requires
            ops.lawful(),
            self.obs is Optical ==> resid@.len() >= 2 && pred@.len() >= 2,
        ensures
            r.0@ == Self::shown_residual(ops, self.obs, resid@),
            r.1@ == Self::shown_prediction(ops, self.obs, pred@),
    {
        let shown = show_residual(ops, &self.obs, resid);
        match &self.obs {
            AstrometricObservation::Optical { .. } => {
                let p = vec![
                    elements::to_degrees(ops, pred[0]),
                    elements::to_degrees(ops, pred[1]),
                ];
                assert(p@ =~= Self::shown_prediction(ops, self.obs, pred@));
                (shown, p)
            },
            _ => (shown, numbers::copied(pred)),
        }
    }

    /// The right ascension in degrees, for an observation on the sky.
    pub fn ra<A: Arithmetic>(&self, ops: &A) -> (r: Option<F64>)
        requires
            ops.lawful(),
        ensures
            r == (match self.obs {
                AstrometricObservation::Optical { ra, .. } => Some(elements::in_degrees(ops, ra)),
                _ => None,
            }),
    {
        match &self.obs {
            AstrometricObservation::Optical { ra, .. } => Some(elements::to_degrees(ops, *ra)),
            _ => None,
        }
    }

    /// The declination in degrees, for an observation on the sky.
    pub fn dec<A: Arithmetic>(&self, ops: &A) -> (r: Option<F64>)
        requires
            ops.lawful(),
        ensures
            r == (match self.obs {
                AstrometricObservation::Optical { dec, .. } => Some(
                    elements::in_degrees(ops, dec),
                ),
                _ => None,
            }),
    {
        match &self.obs {
            AstrometricObservation::Optical { dec, .. } => Some(elements::to_degrees(ops, *dec)),
            _ => None,
        }
    }

    /// The uncertainty along right ascension on the sky in arcseconds, for an observation on the
    /// sky.
    pub fn sigma_ra<A: Arithmetic>(&self, ops: &A) -> (r: Option<F64>)
        requires
            ops.lawful(),
        ensures
            r == (match self.obs {
                AstrometricObservation::Optical { sigma_ra, dec, .. } => Some(
                    arithmetic::product(
                        ops,
                        arithmetic::product(ops, sigma_ra, F64 { bits: RAD_TO_ARCSEC }),
                        dec_cosine(ops, dec),
                    ),
                ),
                _ => None,
            }),
    {
        match &self.obs {
            AstrometricObservation::Optical { sigma_ra, dec, .. } => {
                let arcsec = arithmetic::times(ops, *sigma_ra, F64::from_bits(RAD_TO_ARCSEC));
                let cosine = ops.unary(Unary::Cos, *dec).abs();
                Some(arithmetic::times(ops, arcsec, cosine))
            },
            _ => None,
        }
    }

    /// The uncertainty along declination in arcseconds, for an observation on the sky.
    pub fn sigma_dec<A: Arithmetic>(&self, ops: &A) -> (r: Option<F64>)
        requires
            ops.lawful(),
        ensures
            r == (match self.obs {
                AstrometricObservation::Optical { sigma_dec, .. } => Some(
                    arithmetic::product(ops, sigma_dec, F64 { bits: RAD_TO_ARCSEC }),
                ),
                _ => None,
            }),
    {
        match &self.obs {
            AstrometricObservation::Optical { sigma_dec, .. } => Some(
                arithmetic::times(ops, *sigma_dec, F64::from_bits(RAD_TO_ARCSEC)),
            ),
            _ => None,
        }
    }

    /// The uncertainty in time in seconds, for an observation on the sky.
    pub fn time_sigma(&self) -> (r: Option<F64>)
        ensures
            r == (match self.obs {
                AstrometricObservation::Optical { time_sigma, .. } => Some(time_sigma),
                _ => None,
            }),
    {
        match &self.obs {
            AstrometricObservation::Optical { time_sigma, .. } => Some(*time_sigma),
            _ => None,
        }
    }

    /// The correlation of the uncertainties, for an observation on the sky.
    pub fn sigma_corr(&self) -> (r: Option<F64>)
        ensures
            r == (match self.obs {
                AstrometricObservation::Optical { sigma_corr, .. } => Some(sigma_corr),
                _ => None,
            }),
    {
        match &self.obs {
            AstrometricObservation::Optical { sigma_corr, .. } => Some(*sigma_corr),
            _ => None,
        }
    }

    /// Did the object pass in front of a star, for an observation on the sky.
    pub fn is_occultation(&self) -> (r: Option<bool>)
        ensures
            r == (match self.obs {
                AstrometricObservation::Optical { is_occultation, .. } => Some(is_occultation),
                _ => None,
            }),
    {
        match &self.obs {
            AstrometricObservation::Optical { is_occultation, .. } => Some(*is_occultation),
            _ => None,
        }
    }

    /// The range in AU, where that was measured.
    pub fn range(&self) -> (r: Option<F64>)
        ensures
            r == (match self.obs {
                AstrometricObservation::RadarRange { range, .. } => Some(range),
                _ => None,
            }),
    {
        match &self.obs {
            AstrometricObservation::RadarRange { range, .. } => Some(*range),
            _ => None,
        }
    }

    /// The uncertainty of the range in AU, where that was measured.
    pub fn sigma_range(&self) -> (r: Option<F64>)
        ensures
            r == (match self.obs {
                AstrometricObservation::RadarRange { sigma_range, .. } => Some(sigma_range),
                _ => None,
            }),
    {
        match &self.obs {
            AstrometricObservation::RadarRange { sigma_range, .. } => Some(*sigma_range),
            _ => None,
        }
    }

    /// The range rate in AU per day, where that was measured.
    pub fn range_rate(&self) -> (r: Option<F64>)
        ensures
            r == (match self.obs {
                AstrometricObservation::RadarRate { range_rate, .. } => Some(range_rate),
                _ => None,
            }),
    {
        match &self.obs {
            AstrometricObservation::RadarRate { range_rate, .. } => Some(*range_rate),
            _ => None,
        }
    }

    /// The uncertainty of the range rate in AU per day, where that was measured.
    pub fn sigma_range_rate(&self) -> (r: Option<F64>)
        ensures
            r == (match self.obs {
                AstrometricObservation::RadarRate { sigma_range_rate, .. }
                    => Some(sigma_range_rate),
                _ => None,
            }),
    {
        match &self.obs {
            AstrometricObservation::RadarRate { sigma_range_rate, .. } => Some(*sigma_range_rate),
            _ => None,
        }
    }

    /// The name of the filter, empty for radar.
    pub fn band(&self) -> (r: &str)
        ensures
            r@ == (match self.obs {
                AstrometricObservation::Optical { band, .. } => band@,
                _ => ""@,
            }),
    {
        match &self.obs {
            AstrometricObservation::Optical { band, .. } => band.as_str(),
            _ => "",
        }
    }

    /// The apparent magnitude, NaN where there is none.
    pub fn mag(&self) -> (r: F64)
        ensures
            r == (match self.obs {
                AstrometricObservation::Optical { mag, .. } => mag,
                _ => F64 { bits: crate::float::NAN_64 },
            }),
    {
        match &self.obs {
            AstrometricObservation::Optical { mag, .. } => *mag,
            _ => F64::new_nan(),
        }
    }
}

/// Residuals as they are shown.
fn show_residual<A: Arithmetic>(ops: &A, obs: &AstrometricObservation, resid: &Vec<F64>) -> (r: Vec<
    F64,
>)
    requires
        ops.lawful(),
        *obs is Optical ==> resid@.len() >= 2,
    ensures
        r@ == PyObservation::shown_residual(ops, *obs, resid@),
{
    match obs {
        AstrometricObservation::Optical { dec, .. } => {
            let arcsec = F64::from_bits(RAD_TO_ARCSEC);
            let cosine = ops.unary(Unary::Cos, *dec).abs();
            let across = arithmetic::times(ops, resid[0], arcsec);
            let shown = vec![
                arithmetic::times(ops, across, cosine),
                arithmetic::times(ops, resid[1], arcsec),
            ];
            assert(shown@ =~= PyObservation::shown_residual(ops, *obs, resid@));
            shown
        },
        _ => numbers::copied(resid),
    }
}

// ---------------------------------------------------------------------------
// Fitted orbits
// ---------------------------------------------------------------------------

/// An orbit fitted to observations.
#[derive(Clone)]
pub struct OrbitFit {
    /// The orbit and its uncertainty.
    pub uncertain_state: UncertainState<Equatorial, DynCenter>,
    /// The force other than gravity, with the values which were fitted.
    pub non_grav: Option<FrozenNonGrav>,
    /// The residuals of all observations, in radians or AU.
    pub residuals: Vec<Vec<F64>>,
    /// All observations.
    pub observations: Vec<AstrometricObservation>,
    /// Which observations the orbit was fitted to.
    pub included: Vec<bool>,
    /// The reduced weighted residual.
    pub rms: F64,
    /// Did the fit converge.
    pub converged: bool,
}

/// The entries of the first `n` which are included.
pub open spec fn chosen<X>(entries: Seq<X>, included: Seq<bool>, n: nat) -> Seq<X>
    decreases n,
{
    if n == 0 {
        Seq::empty()
    } else if included[n - 1] {
        chosen(entries, included, (n - 1) as nat).push(entries[n - 1])
    } else {
        chosen(entries, included, (n - 1) as nat)
    }
}

/// How many of the first `n` are true.
pub open spec fn count_true(flags: Seq<bool>, n: nat) -> nat
    decreases n,
{
    if n == 0 {
        0
    } else {
        count_true(flags, (n - 1) as nat) + (if flags[n - 1] {
            1nat
        } else {
            0nat
        })
    }
}

/// As many entries are chosen as flags are true.
pub proof fn law_chosen<X>(entries: Seq<X>, included: Seq<bool>, n: nat)
    ensures
        chosen(entries, included, n).len() == count_true(included, n),
        count_true(included, n) <= n,
    decreases n,
{
    if n > 0 {
        law_chosen(entries, included, (n - 1) as nat);
    }
}

/// How many are true.
pub fn count(flags: &Vec<bool>) -> (r: usize)
    ensures
        r == count_true(flags@, flags@.len()),
{
    let mut r: usize = 0;
    let mut i: usize = 0;
    while i < flags.len()
        invariant
            i <= flags@.len(),
            r <= i,
            r == count_true(flags@, i as nat),
        decreases flags@.len() - i,
    {
        if flags[i] {
            r = r + 1;
        }
        i = i + 1;
    }
    r
}

/// The residuals of observations as they are shown.
pub open spec fn shown<A: Arithmetic>(
    ops: &A,
    observations: Seq<AstrometricObservation>,
    residuals: Seq<Seq<F64>>,
) -> Seq<Seq<F64>> {
    Seq::new(
        observations.len(),
        |i: int| PyObservation::shown_residual(ops, observations[i], residuals[i]),
    )
}

/// The observations inside.
pub open spec fn inner_observations(s: Seq<PyObservation>) -> Seq<AstrometricObservation> {
    Seq::new(s.len(), |i: int| s[i].obs)
}

/// The smaller of two lengths.
pub open spec fn shorter(a: nat, b: nat) -> nat {
    if a < b {
        a
    } else {
        b
    }
}

/// The smaller of two lengths.
fn shorter_of(a: usize, b: usize) -> (r: usize)
    ensures
        r == shorter(a as nat, b as nat),
{
    if a < b {
        a
    } else {
        b
    }
}

impl OrbitFit {
    /// How many observations have a flag.
    pub open spec fn flagged(&self) -> nat {
        shorter(self.observations@.len(), self.included@.len())
    }

    /// How many observations have a residual and a flag.
    pub open spec fn measured(&self) -> nat {
        shorter(self.flagged(), self.residuals@.len())
    }

    /// A residual on the sky which is shown has two components.
    pub open spec fn readable(&self) -> bool {
        forall|i: int|
            0 <= i < self.measured() && self.included@[i] && (
            #[trigger] self.observations@[i]) is Optical ==> self.residuals@[i]@.len() >= 2
    }
}

/// An orbit fitted to observations.
#[derive(Clone)]
pub struct PyOrbitFit {
    /// The orbit.
    pub inner: OrbitFit,
}

impl PyOrbitFit {
    /// The orbit and its uncertainty, with all parameters of the force free.
    pub fn uncertain_state(&self) -> (r: PyUncertainState)
        requires
            self.inner.uncertain_state@.well_formed(),
        ensures
            r.state@ == self.inner.uncertain_state@,
            r.non_grav is Some == self.inner.non_grav is Some,
            r.non_grav matches Some(m) ==> m.inner == self.inner.non_grav->Some_0.inner && m.mask@
                == nongrav::open_mask(m.inner.n_params()),
            r.well_formed(),
    {
        let non_grav = match &self.inner.non_grav {
            None => None,
            Some(f) => Some(nongrav::free_all(f.inner)),
        };
        PyUncertainState { state: self.inner.uncertain_state.clone(), non_grav }
    }

    /// The state around the Sun. `recenter` moves a state to another center.
    pub fn state<R: Fn(State<Equatorial>, i32) -> KeteResult<State<Equatorial>>>(
        &self,
        recenter: &R,
    ) -> (r: KeteResult<PyState>)
        requires
            state::recenters(recenter),
        ensures
            match r {
                Err(e) => state::centered(
                    recenter,
                    self.inner.uncertain_state.state,
                    10,
                    Err(e),
                ),
                Ok(s) => state::centered(
                    recenter,
                    self.inner.uncertain_state.state,
                    10,
                    Ok(s.raw),
                ) && s.frame == state::PyFrames::Ecliptic,
            },
    {
        match state::center_on(recenter, self.inner.uncertain_state.state.clone(), 10) {
            Err(e) => Err(e),
            Ok(s) => Ok(PyState::from(s)),
        }
    }

    /// The residuals of the observations which the orbit was fitted to. An observation without a
    /// residual or without a flag is left out.
    pub fn residuals<A: Arithmetic>(&self, ops: &A) -> (r: Vec<Vec<F64>>)
        requires
            ops.lawful(),
            self.inner.readable(),
        ensures
            numbers::rows(r@) == chosen(
                shown(ops, self.inner.observations@, numbers::rows(self.inner.residuals@)),
                self.inner.included@,
                self.inner.measured(),
            ),
    {
        let flagged = shorter_of(self.inner.observations.len(), self.inner.included.len());
        let n = shorter_of(flagged, self.inner.residuals.len());
        let ghost all = shown(
            ops,
            self.inner.observations@,
            numbers::rows(self.inner.residuals@),
        );
        let mut r: Vec<Vec<F64>> = Vec::new();
        let mut i: usize = 0;
        assert(numbers::rows(r@) =~= Seq::empty());
        while i < n
            invariant
                ops.lawful(),
                self.inner.readable(),
                n == self.inner.measured(),
                i <= n,
                all == shown(
                    ops,
                    self.inner.observations@,
                    numbers::rows(self.inner.residuals@),
                ),
                numbers::rows(r@) == chosen(all, self.inner.included@, i as nat),
            decreases n - i,
        {
            if self.inner.included[i] {
                let ghost before = r@;
                let one = show_residual(
                    ops,
                    &self.inner.observations[i],
                    &self.inner.residuals[i],
                );
                r.push(one);
                assert(one@ == all[i as int]);
                assert(numbers::rows(r@) =~= numbers::rows(before).push(one@));
            }
            i = i + 1;
        }
        r
    }

    /// The observations which the orbit was fitted to. An observation without a flag is left out.
    pub fn observations(&self) -> (r: Vec<PyObservation>)
        ensures
            inner_observations(r@) == chosen(
                self.inner.observations@,
                self.inner.included@,
                self.inner.flagged(),
            ),
    {
        let n = shorter_of(self.inner.observations.len(), self.inner.included.len());
        let mut r: Vec<PyObservation> = Vec::new();
        let mut i: usize = 0;
        assert(inner_observations(r@) =~= Seq::empty());
        while i < n
            invariant
                n == self.inner.flagged(),
                i <= n,
                inner_observations(r@) == chosen(
                    self.inner.observations@,
                    self.inner.included@,
                    i as nat,
                ),
            decreases n - i,
        {
            if self.inner.included[i] {
                let ghost before = r@;
                let obs = self.inner.observations[i].clone();
                r.push(PyObservation { obs });
                assert(inner_observations(r@) =~= inner_observations(before).push(obs));
            }
            i = i + 1;
        }
        r
    }

    /// All observations.
    pub fn all_observations(&self) -> (r: Vec<PyObservation>)
        ensures
            inner_observations(r@) == self.inner.observations@,
    {
        let n: usize = self.inner.observations.len();
        let mut r: Vec<PyObservation> = Vec::new();
        let mut i: usize = 0;
        while i < n
            invariant
                n == self.inner.observations@.len(),
                i <= n,
                inner_observations(r@) == self.inner.observations@.take(i as int),
            decreases n - i,
        {
            let ghost before = r@;
            let obs = self.inner.observations[i].clone();
            r.push(PyObservation { obs });
            assert(inner_observations(r@) =~= inner_observations(before).push(obs));
            i = i + 1;
            assert(inner_observations(r@) =~= self.inner.observations@.take(i as int));
        }
        assert(inner_observations(r@) =~= self.inner.observations@);
        r
    }

    /// How many observations the orbit was fitted to.
    pub fn n_included(&self) -> (n: usize)
        ensures
            n == count_true(self.inner.included@, self.inner.included@.len()),
    {
        count(&self.inner.included)
    }

    /// The model of the force other than gravity.
    pub fn non_grav(&self) -> (r: Option<PyNonGravModel>)
        ensures
            r == (match self.inner.non_grav {
                None => None,
                Some(f) => PyNonGravModel::of_force(f.inner, f.values@),
            }),
    {
        match &self.inner.non_grav {
            None => None,
            Some(f) => PyNonGravModel::from_force(&f.inner, f.values.as_slice()),
        }
    }
}

// ---------------------------------------------------------------------------
// Sampled orbits
// ---------------------------------------------------------------------------

/// A sampled orbit around the Sun, from one around the barycenter.
pub open spec fn around_sun<A: Arithmetic>(
    ops: &A,
    draw: Seq<F64>,
    desig: Desig,
    epoch: F64,
    sun: State<Equatorial>,
) -> State<Equatorial> {
    let pos: Vector<Equatorial> = frames::vector(draw[0], draw[1], draw[2]);
    let vel: Vector<Equatorial> = frames::vector(draw[3], draw[4], draw[5]);
    State {
        desig,
        epoch: Time { jd: epoch },
        pos: pos.difference(ops, sun.pos),
        vel: vel.difference(ops, sun.vel),
        center: DynCenter(10),
    }
}

/// Sampled orbits around the Sun.
pub open spec fn all_around_sun<A: Arithmetic>(
    ops: &A,
    draws: Seq<Seq<F64>>,
    desig: Desig,
    epoch: F64,
    sun: State<Equatorial>,
) -> Seq<State<Equatorial>> {
    Seq::new(draws.len(), |i: int| around_sun(ops, draws[i], desig, epoch, sun))
}

/// The states inside.
pub open spec fn inner_states(s: Seq<PyState>) -> Seq<State<Equatorial>> {
    Seq::new(s.len(), |i: int| s[i].raw)
}

/// Every orbit has a position and a velocity.
pub open spec fn complete(draws: Seq<Vec<F64>>) -> bool {
    forall|i: int| 0 <= i < draws.len() ==> (#[trigger] draws[i])@.len() >= 6
}

/// Sampled orbits around the Sun.
fn move_to_sun<A: Arithmetic>(
    ops: &A,
    draws: &Vec<Vec<F64>>,
    desig: &Desig,
    epoch: F64,
    sun: &State<Equatorial>,
) -> (r: Vec<PyState>)
    requires
        ops.lawful(),
        complete(draws@),
    ensures
        inner_states(r@) == all_around_sun(ops, numbers::rows(draws@), *desig, epoch, *sun),
        forall|i: int|
            0 <= i < r@.len() ==> (#[trigger] r@[i]).frame
                == crate::python::state::PyFrames::Ecliptic,
{
    let ghost want = all_around_sun(ops, numbers::rows(draws@), *desig, epoch, *sun);
    let mut r: Vec<PyState> = Vec::new();
    let mut i: usize = 0;
    while i < draws.len()
        invariant
            ops.lawful(),
            complete(draws@),
            want == all_around_sun(ops, numbers::rows(draws@), *desig, epoch, *sun),
            i <= draws@.len(),
            inner_states(r@) == want.take(i as int),
            forall|i: int|
                0 <= i < r@.len() ==> (#[trigger] r@[i]).frame
                    == crate::python::state::PyFrames::Ecliptic,
        decreases draws@.len() - i,
    {
        let d = &draws[i];
        assert(draws@[i as int]@.len() >= 6);
        let pos: Vector<Equatorial> = Vector::of(d[0], d[1], d[2]);
        let vel: Vector<Equatorial> = Vector::of(d[3], d[4], d[5]);
        let raw = State::new(
            desig.clone(),
            Time::new(epoch),
            pos.minus(ops, sun.pos),
            vel.minus(ops, sun.vel),
            DynCenter(10),
        );
        assert(raw == want[i as int]);
        let ghost before = r@;
        r.push(PyState::from(raw));
        assert(inner_states(r@) =~= inner_states(before).push(raw));
        i = i + 1;
        assert(inner_states(r@) =~= want.take(i as int));
    }
    assert(inner_states(r@) =~= want);
    r
}

/// Orbits which agree with observations, found by a random walk.
#[derive(Debug, Clone)]
pub struct OrbitSamples {
    /// What the object is called.
    pub desig: String,
    /// When the orbits hold.
    pub epoch: F64,
    /// Position, velocity and parameters of each orbit, around the barycenter.
    pub draws: Vec<Vec<F64>>,
    /// Which start each orbit came from.
    pub seed_id: Vec<usize>,
    /// Where the walk had difficulties.
    pub divergent: Vec<bool>,
    /// The logarithm of the density at each orbit.
    pub log_posterior: Vec<F64>,
}

/// The different entries of the first `n`.
pub open spec fn different(ids: Seq<usize>, n: nat) -> Set<usize>
    decreases n,
{
    if n == 0 {
        Set::empty()
    } else {
        different(ids, (n - 1) as nat).insert(ids[n - 1])
    }
}

/// Is an entry among the first `n`.
fn occurs(ids: &Vec<usize>, n: usize, x: usize) -> (r: bool)
    requires
        n <= ids@.len(),
    ensures
        r == different(ids@, n as nat).contains(x),
    decreases n,
{
    if n == 0 {
        false
    } else if ids[n - 1] == x {
        true
    } else {
        occurs(ids, n - 1, x)
    }
}

/// How many different entries there are.
pub fn count_different(ids: &Vec<usize>) -> (r: usize)
    ensures
        different(ids@, ids@.len()).finite(),
        r == different(ids@, ids@.len()).len(),
{
    let mut r: usize = 0;
    let mut i: usize = 0;
    while i < ids.len()
        invariant
            i <= ids@.len(),
            r <= i,
            different(ids@, i as nat).finite(),
            r == different(ids@, i as nat).len(),
        decreases ids@.len() - i,
    {
        if !occurs(ids, i, ids[i]) {
            r = r + 1;
        } else {
            assert(different(ids@, i as nat).insert(ids@[i as int]) =~= different(
                ids@,
                i as nat,
            ));
        }
        i = i + 1;
    }
    r
}

/// Orbits which agree with observations.
#[derive(Debug, Clone)]
pub struct PyOrbitSamples(pub OrbitSamples);

impl PyOrbitSamples {
    /// The orbits as states around the Sun, given the state of the Sun around the barycenter.
    pub fn draws<A: Arithmetic>(&self, ops: &A, sun: &State<Equatorial>) -> (r: Vec<PyState>)
        requires
            ops.lawful(),
            complete(self.0.draws@),
        ensures
            inner_states(r@) == all_around_sun(
                ops,
                numbers::rows(self.0.draws@),
                Desig::Name(self.0.desig),
                self.0.epoch,
                *sun,
            ),
            forall|i: int|
                0 <= i < r@.len() ==> (#[trigger] r@[i]).frame
                    == crate::python::state::PyFrames::Ecliptic,
    {
        let desig = Desig::Name(self.0.desig.clone());
        move_to_sun(ops, &self.0.draws, &desig, self.0.epoch, sun)
    }

    /// How many orbits there are.
    pub fn __len__(&self) -> (n: usize)
        ensures
            n == self.0.draws@.len(),
    {
        self.0.draws.len()
    }

    /// How many starts the orbits came from.
    pub fn n_seeds(&self) -> (n: usize)
        ensures
            n == different(self.0.seed_id@, self.0.seed_id@.len()).len(),
    {
        count_different(&self.0.seed_id)
    }

    /// At how many orbits the walk had difficulties.
    pub fn n_divergent(&self) -> (n: usize)
        ensures
            n == count_true(self.0.divergent@, self.0.divergent@.len()),
    {
        count(&self.0.divergent)
    }
}

/// Orbits which agree with observations, found on a grid of distances.
#[derive(Debug, Clone)]
pub struct RangingSamples {
    /// When the orbits hold.
    pub epoch: F64,
    /// Position and velocity of each orbit, around the barycenter.
    pub draws: Vec<Vec<F64>>,
    /// The logarithm of the weight of each orbit.
    pub log_posterior: Vec<F64>,
    /// How many independent orbits the grid is worth.
    pub effective_sample_size: F64,
    /// What may be wrong with the orbits.
    pub convergence_warning: Option<String>,
}

/// Orbits which agree with observations.
#[derive(Debug, Clone)]
pub struct PyRangingSamples(pub RangingSamples);

impl PyRangingSamples {
    /// The orbits as states around the Sun, given the state of the Sun around the barycenter.
    pub fn draws<A: Arithmetic>(&self, ops: &A, sun: &State<Equatorial>) -> (r: Vec<PyState>)
        requires
            ops.lawful(),
            complete(self.0.draws@),
        ensures
            inner_states(r@) == all_around_sun(
                ops,
                numbers::rows(self.0.draws@),
                Desig::Empty,
                self.0.epoch,
                *sun,
            ),
            forall|i: int|
                0 <= i < r@.len() ==> (#[trigger] r@[i]).frame
                    == crate::python::state::PyFrames::Ecliptic,
    {
        move_to_sun(ops, &self.0.draws, &Desig::Empty, self.0.epoch, sun)
    }

    /// How many orbits there are.
    pub fn __len__(&self) -> (n: usize)
        ensures
            n == self.0.draws@.len(),
    {
        self.0.draws.len()
    }
}

/// Are the operations exact by which what was given of an observation on the sky is kept and shown.
pub open spec fn exact_sky<A: Arithmetic>(
    ops: &A,
    v: Reading,
    ra: F64,
    dec: F64,
    sigma_ra: F64,
    sigma_dec: F64,
) -> bool {
    let (one, arcsec) = (F64 { bits: constants::ONE }, F64 { bits: RAD_TO_ARCSEC });
    let scale = arithmetic::quotient(ops, one, arcsec);
    let c = dec_cosine(ops, elements::in_radians(ops, dec));
    let (wide, high) = (
        arithmetic::product(ops, sigma_ra, scale),
        arithmetic::product(ops, sigma_dec, scale),
    );
    let kept = arithmetic::quotient(ops, wide, c);
    let radian = F64 { bits: RADIANS_PER_DEGREE };
    let degree = F64 { bits: DEGREES_PER_RADIAN };
    &&& v(one) == 1real
    &&& orbits::divides(ops, v, one, arcsec)
    &&& orbits::multiplies(ops, v, sigma_ra, scale)
    &&& orbits::multiplies(ops, v, sigma_dec, scale)
    &&& orbits::divides(ops, v, wide, c)
    &&& orbits::multiplies(ops, v, kept, arcsec)
    &&& orbits::multiplies(ops, v, arithmetic::product(ops, kept, arcsec), c)
    &&& orbits::multiplies(ops, v, high, arcsec)
    &&& v(radian) * v(degree) == 1real
    &&& orbits::multiplies(ops, v, ra, radian)
    &&& orbits::multiplies(ops, v, dec, radian)
    &&& orbits::multiplies(ops, v, arithmetic::product(ops, ra, radian), degree)
    &&& orbits::multiplies(ops, v, arithmetic::product(ops, dec, radian), degree)
}

/// What is given of an observation on the sky comes back as it is shown: uncertainties in arcseconds
/// on the sky, and the direction in degrees. The declination is not too close to a pole.
pub proof fn law_sky_comes_back<A: Arithmetic>(
    ops: &A,
    v: Reading,
    moved: KeteResult<State<Equatorial, SSB>>,
    ra: F64,
    dec: F64,
    sigma_ra: F64,
    sigma_dec: F64,
    band: String,
    mag: F64,
    time_sigma: F64,
    sigma_corr: F64,
    is_occultation: bool,
)
    requires
        moved is Ok,
        ({
            let c = dec_cosine(ops, elements::in_radians(ops, dec));
            !c.nan() && !c.spec_lt(F64 { bits: LEAST_COSINE })
        }),
        exact_sky(ops, v, ra, dec, sigma_ra, sigma_dec),
    ensures
        ({
            let r = PyObservation::seen(
                ops,
                moved,
                ra,
                dec,
                sigma_ra,
                sigma_dec,
                band,
                mag,
                time_sigma,
                sigma_corr,
                is_occultation,
            );
            let kept = r->Ok_0.obs;
            let wide = PyObservation::shown_residual(
                ops,
                kept,
                seq![kept->Optical_sigma_ra, kept->Optical_sigma_dec],
            );
            let place = PyObservation::shown_prediction(
                ops,
                kept,
                seq![kept->Optical_ra, kept->Optical_dec],
            );
            &&& r is Ok
            &&& kept is Optical
            &&& v(wide[0]) == v(sigma_ra)
            &&& v(wide[1]) == v(sigma_dec)
            &&& v(place[0]) == v(ra)
            &&& v(place[1]) == v(dec)
        }),
{
    let (one, arcsec) = (F64 { bits: constants::ONE }, F64 { bits: RAD_TO_ARCSEC });
    let scale = v(arithmetic::quotient(ops, one, arcsec));
    let c = v(dec_cosine(ops, elements::in_radians(ops, dec)));
    let wide = arithmetic::product(
        ops,
        sigma_ra,
        arithmetic::quotient(ops, one, arcsec),
    );
    let kept = v(
        arithmetic::quotient(ops, wide, dec_cosine(ops, elements::in_radians(ops, dec))),
    );
    let (s, t, k) = (v(sigma_ra), v(sigma_dec), v(arcsec));
    // kept * c == s * scale
    rounding::lemma_order(kept, k, c);
    rounding::lemma_order(k, c, 1real);
    rounding::lemma_order(kept, c, k);
    rounding::lemma_order(s, scale, k);
    rounding::lemma_order(t, scale, k);
    rounding::lemma_minus(s, 1real);
    rounding::lemma_minus(t, 1real);
    let (radian, degree) = (
        v(F64 { bits: RADIANS_PER_DEGREE }),
        v(F64 { bits: DEGREES_PER_RADIAN }),
    );
    rounding::lemma_order(v(ra), radian, degree);
    rounding::lemma_order(v(dec), radian, degree);
    rounding::lemma_minus(v(ra), 1real);
    rounding::lemma_minus(v(dec), 1real);
}

/// A sampled orbit around the Sun, and the Sun, are together where the orbit was around the
/// barycenter.
pub proof fn law_around_sun<A: Arithmetic>(
    ops: &A,
    v: Reading,
    draw: Seq<F64>,
    desig: Desig,
    epoch: F64,
    sun: State<Equatorial>,
)
    requires
        draw.len() >= 6,
        exact::differs(
            ops,
            v,
            frames::vector::<Equatorial>(draw[0], draw[1], draw[2]),
            sun.pos,
        ),
        exact::differs(
            ops,
            v,
            frames::vector::<Equatorial>(draw[3], draw[4], draw[5]),
            sun.vel,
        ),
    ensures
        ({
            let s = around_sun(ops, draw, desig, epoch, sun);
            let (p, y) = (
                exact::plus(read(v, s.pos), read(v, sun.pos)),
                exact::plus(read(v, s.vel), read(v, sun.vel)),
            );
            &&& p == (Triple { x: v(draw[0]), y: v(draw[1]), z: v(draw[2]) })
            &&& y == (Triple { x: v(draw[3]), y: v(draw[4]), z: v(draw[5]) })
            &&& s.epoch.jd == epoch
            &&& s.desig == desig
        }),
{
}

} // verus!
