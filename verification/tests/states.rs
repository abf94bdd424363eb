//! States change centers as they should.
use kete::arithmetic::{Binary, Ops, Unary};
use kete::constants::Constants;
use kete::desig::Desig;
use kete::errors::{Error, ValueFault};
use kete::float::F64;
use kete::frames::{
    DynCenter, EarthCenter, Ecliptic, Equatorial, InertialFrame, SSB, SunCenter, Vector,
};
use kete::matrix::Matrix3;
use kete::state::{SimultaneousStates, State};
use kete::state::uncertain::{to_ecliptic, to_equatorial};
use kete::time::Time;

fn f(x: f64) -> F64 {
    F64::from_bits(x.to_bits())
}

fn g(x: F64) -> f64 {
    f64::from_bits(x.to_bits())
}

fn binary(op: Binary, a: F64, b: F64) -> F64 {
    let (a, b) = (g(a), g(b));
    f(match op {
        Binary::Add => a + b,
        Binary::Subtract => a - b,
        Binary::Multiply => a * b,
        Binary::Divide => a / b,
        Binary::Power => a.powf(b),
        Binary::Atan2 => a.atan2(b),
        Binary::RemEuclid => a.rem_euclid(b),
    })
}

fn unary(op: Unary, a: F64) -> F64 {
    let a = g(a);
    f(match op {
        Unary::Sqrt => a.sqrt(),
        Unary::Sin => a.sin(),
        Unary::Cos => a.cos(),
        Unary::Tan => a.tan(),
        Unary::Acos => a.acos(),
        Unary::Atan => a.atan(),
        Unary::Sinh => a.sinh(),
        Unary::Cosh => a.cosh(),
        Unary::Acosh => a.acosh(),
        Unary::Ln => a.ln(),
        Unary::Cbrt => a.cbrt(),
        Unary::Asinh => a.asinh(),
        Unary::Cubed => a.powi(3),
        Unary::Squared => a.powi(2),
        Unary::InverseCube => a.powi(-3),
    })
}

fn integer(n: u64) -> F64 {
    f(n as f64)
}

type Plain = Ops<fn(Binary, F64, F64) -> F64, fn(Unary, F64) -> F64, fn(u64) -> F64>;

/// The arithmetic of the machine.
fn ops() -> Plain {
    Ops { binary, unary, integer }
}

fn vector<T: InertialFrame>(x: f64, y: f64, z: f64) -> Vector<T> {
    Vector::new([f(x), f(y), f(z)])
}

fn constants() -> Constants {
    let obliquity = (84_381.448_f64 / 3600.0).to_radians();
    let (s, c) = (obliquity.sin(), obliquity.cos());
    Constants {
        gms: f(0.000_295_912_208_284_119_56),
        gms_sqrt: f(0.017_202_098_949_96),
        c_inv_squared: f(173.144_632_674_24_f64.powi(-2)),
        sun_j2: f(2.110_608_853_272_684e-7),
        jupiter_j2: f(0.014_695_72),
        earth_j2: f(1.082_625_39e-3),
        f0_over_c: f(1.0e-5),
        solar_flux: f(1360.8),
        stefan_boltzmann: f(5.670_374_419e-8),
        parabolic_limit: f(1e-6),
        pi: f(std::f64::consts::PI),
        ecliptic: Matrix3 {
            x: vector(1.0, 0.0, 0.0),
            y: vector(0.0, c, -s),
            z: vector(0.0, s, c),
        },
    }
}

fn state(desig: Desig, jd: f64, pos: [f64; 3], vel: [f64; 3], center: i32) -> State<Equatorial> {
    State::new(
        desig,
        Time::new(f(jd)),
        vector(pos[0], pos[1], pos[2]),
        vector(vel[0], vel[1], vel[2]),
        DynCenter(center),
    )
}

fn ecliptic(s: State<Equatorial>) -> State<Ecliptic> {
    s.into_frame(|v: Vector<Equatorial>| to_ecliptic(&ops(), constants(), v))
}

#[test]
fn flip_center() {
    let mut a = state(Desig::Naif(1), 0.0, [1.0, 0.0, 0.0], [0.0, 1.0, 0.0], 0);
    a.try_flip_center_id().unwrap();
    assert!(a.center_id() == 1);
    assert!(a.pos.components().map(g) == [-1.0, 0.0, 0.0]);
    assert!(a.vel.components().map(g) == [0.0, -1.0, 0.0]);
}

#[test]
fn nan_finite() {
    let a = state(Desig::Empty, 0.0, [1.0, 0.0, 0.0], [0.0, 1.0, 0.0], 0);
    assert!(a.is_finite());

    let b = State::<Equatorial>::new_nan(Desig::Empty, Time::new(f(0.0)), DynCenter(1000));
    assert!(!b.is_finite());
}

#[test]
fn ssb_round_trip() {
    let dyn_state = state(Desig::Empty, 0.0, [1.0, 2.0, 3.0], [0.1, 0.2, 0.3], 0);
    let ssb: State<Equatorial, SSB> = dyn_state.clone().try_into().unwrap();
    let back: State<Equatorial, DynCenter> = ssb.into();
    assert_eq!(dyn_state, back);
}

#[test]
fn ssb_try_from_wrong_center() {
    let bad = state(Desig::Empty, 0.0, [1.0, 0.0, 0.0], [0.0, 1.0, 0.0], 10);
    assert!(State::<Equatorial, SSB>::try_from(bad).is_err());
}

#[test]
fn change_center() {
    let mut a: State<Ecliptic> = State::new(
        Desig::Naif(1),
        Time::new(f(0.0)),
        vector(1.0, 0.0, 0.0),
        vector(1.0, 0.0, 0.0),
        DynCenter(0),
    );
    let b = state(Desig::Naif(3), 0.0, [0.0, 1.0, 0.0], [0.0, 1.0, 0.0], 0);
    a.try_change_center(&ops(), ecliptic(b)).unwrap();

    assert!(a.center_id() == 3);
    assert!(g(a.pos.x) == 1.0);
    assert!(g(a.pos.y) != 0.0);
    assert!(g(a.pos.z) != 0.0);
    assert!(g(a.vel.x) == 1.0);

    // try cases which cause errors
    let diff_jd = state(Desig::Naif(3), 1.0, [0.0, 1.0, 0.0], [0.0, 1.0, 0.0], 0);
    assert!(a.try_change_center(&ops(), ecliptic(diff_jd)).is_err());

    let not_naif_id = state(Desig::Empty, 0.0, [0.0, 1.0, 0.0], [0.0, 1.0, 0.0], 0);
    assert!(a.try_change_center(&ops(), ecliptic(not_naif_id)).is_err());

    let no_matching_id =
        state(Desig::Naif(2), 0.0, [0.0, 1.0, 0.0], [0.0, 1.0, 0.0], 1_000_000_000);
    assert!(a.try_change_center(&ops(), ecliptic(no_matching_id)).is_err());
}

#[test]
fn faults_of_a_change_of_center() {
    let s = state(Desig::Naif(1), 0.0, [1.0, 0.0, 0.0], [0.0, 1.0, 0.0], 0);
    let fault = |other: State<Equatorial>| {
        let mut a = s.clone();
        let r = a.try_change_center(&ops(), other);
        assert_eq!(a, s);
        r.unwrap_err()
    };
    assert_eq!(
        fault(state(Desig::Naif(3), 1.0, [0.0; 3], [0.0; 3], 0)),
        Error::ValueError(ValueFault::EpochMismatch)
    );
    assert_eq!(
        fault(state(Desig::Empty, 0.0, [0.0; 3], [0.0; 3], 0)),
        Error::ValueError(ValueFault::CenterNeedsNaif)
    );
    assert_eq!(
        fault(state(Desig::Naif(2), 0.0, [0.0; 3], [0.0; 3], 9)),
        Error::ValueError(ValueFault::UnrelatedStates)
    );
    let mut named = state(Desig::Name("x".to_string()), 0.0, [0.0; 3], [0.0; 3], 0);
    assert_eq!(
        named.try_flip_center_id().unwrap_err(),
        Error::ValueError(ValueFault::FlipNeedsNaif)
    );
}

#[test]
fn a_center_which_is_the_object_is_left_by_adding() {
    let mut a = state(Desig::Naif(1), 0.0, [1.0, 0.0, 0.0], [0.0, 1.0, 0.0], 399);
    let earth = state(Desig::Naif(399), 0.0, [0.5, 0.25, 0.0], [0.0, 0.0, 2.0], 10);
    a.try_change_center(&ops(), earth).unwrap();
    assert_eq!(a.center_id(), 10);
    assert_eq!(a.pos.components().map(g), [1.5, 0.25, 0.0]);
    assert_eq!(a.vel.components().map(g), [0.0, 1.0, 2.0]);
}

#[test]
fn flipping_twice_changes_nothing() {
    let s = state(Desig::Naif(301), 0.0, [1.0, -2.0, 3.0], [0.1, 0.2, -0.3], 399);
    let mut a = s.clone();
    a.try_flip_center_id().unwrap();
    assert_eq!(a.desig, Desig::Naif(399));
    a.try_flip_center_id().unwrap();
    assert_eq!(a, s);
}

#[test]
fn frames_are_changed_and_changed_back() {
    let a = state(Desig::Perm(7), 1.0, [1.0, -2.0, 3.0], [0.1, 0.2, -0.3], 10);
    let b = ecliptic(a.clone());
    assert_eq!((&b.desig, g(b.epoch.jd), b.center_id()), (&a.desig, 1.0, 10));
    let norm = |x: [f64; 3]| (x[0] * x[0] + x[1] * x[1] + x[2] * x[2]).sqrt();
    assert!((norm(b.pos.components().map(g)) - norm([1.0, -2.0, 3.0])).abs() < 1e-14);
    assert!((norm(b.vel.components().map(g)) - norm([0.1, 0.2, -0.3])).abs() < 1e-14);
    assert!((g(b.pos.z) - 3.0).abs() > 0.1);
    let back = b.into_frame(|v: Vector<Ecliptic>| to_equatorial(&ops(), constants(), v));
    for (x, y) in back.pos.components().map(g).iter().zip([1.0, -2.0, 3.0]) {
        assert!((x - y).abs() < 1e-14);
    }
    for (x, y) in back.vel.components().map(g).iter().zip([0.1, 0.2, -0.3]) {
        assert!((x - y).abs() < 1e-14);
    }
}

#[test]
fn fixed_centers_are_left_and_found_again() {
    let sun = state(Desig::Perm(7), 1.0, [1.0, 2.0, 3.0], [0.1, 0.2, 0.3], 10);
    let typed: State<Equatorial, SunCenter> = sun.clone().try_into().unwrap();
    assert_eq!(State::<Equatorial>::from(typed), sun);
    let earth = state(Desig::Perm(7), 1.0, [1.0, 2.0, 3.0], [0.1, 0.2, 0.3], 399);
    let typed: State<Equatorial, EarthCenter> = earth.clone().try_into().unwrap();
    assert_eq!(State::<Equatorial>::from(typed), earth);
    assert_eq!(
        State::<Equatorial, EarthCenter>::try_from(sun).unwrap_err(),
        Error::ValueError(ValueFault::WrongCenter { expected: 399, found: 10 })
    );
}

#[test]
fn states_of_one_collection_belong_together() {
    let s = |jd: f64, center: i32| state(Desig::Perm(1), jd, [1.0, 0.0, 0.0], [0.0; 3], center);
    let none = SimultaneousStates::new_exact(vec![], None);
    assert_eq!(none.unwrap_err(), Error::ValueError(ValueFault::NoStates));
    let centers = SimultaneousStates::new_exact(vec![s(1.0, 0), s(1.0, 10)], None);
    assert_eq!(centers.unwrap_err(), Error::ValueError(ValueFault::MixedCenters));
    let epochs = SimultaneousStates::new_exact(vec![s(1.0, 0), s(2.0, 0)], None);
    assert_eq!(epochs.unwrap_err(), Error::ValueError(ValueFault::MixedEpochs));
    let both = SimultaneousStates::new_exact(vec![s(1.0, 10), s(1.0, 10)], None).unwrap();
    assert_eq!(both.center_id(), 10);
    assert_eq!(g(both.epoch().jd), 1.0);
}
