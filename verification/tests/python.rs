//! What is offered to Python.
use kete::algebra::{Eigen, Linear};
use kete::arithmetic::{Binary, Ops, Unary};
use kete::constants::Constants;
use kete::desig::Desig;
use kete::errors::{Error, IoFault, KeteResult, ValueFault};
use kete::float::{F32, F64};
use kete::forces::{ForceFunction, GravParams, ParameterizedForce};
use kete::forces::traits::Jacobians;
use kete::fov::{FOV, OmniDirectional};
use kete::frames::{DynCenter, Equatorial, InertialFrame, SSB, SunCenter, Vector};
use kete::matrix::Matrix3;
use kete::physics::{Motion, World};
use kete::python::checks::{Reached, check_each, collect, fov_checks_py, group, plan, sort};
use kete::python::diffuse::PyDiffuseState;
use kete::python::elements::PyCometElements;
use kete::python::fitting::{
    AstrometricObservation, DEFAULT_TIME_SIGMA, OrbitFit, OrbitSamples, PyObservation, PyOrbitFit,
    PyOrbitSamples, PyRangingSamples, RangingSamples,
};
use kete::python::horizons::{Fitted, HorizonsProperties, PyHorizonsProperties};
use kete::python::nongrav::{NonGravData, PyNonGravModel};
use kete::python::propagation::{
    Batch, Propagated, fill_models, moid_py, propagation_n_body_py, propagation_n_body_spk_py,
    split,
};
use kete::python::simult_states::{PySimultaneousStates, Updates, ra_dec_with_rates};
use kete::python::state::{PyFrames, PyState};
use kete::python::stm::compute_stm_py;
use kete::python::uncertain::PyUncertainState;
use kete::state::{SplitConfig, State, UncertainState};
use kete::table::Table;
use kete::time::Time;
use nalgebra::DMatrix;

fn f(x: f64) -> F64 {
    F64::from_bits(x.to_bits())
}

fn g(x: F64) -> f64 {
    f64::from_bits(x.to_bits())
}

fn binary(op: Binary, a: F64, b: F64) -> F64 {
    let (a, b) = (g(a), g(b));
    f(match op {
        Binary::Add => a + b,
        Binary::Subtract => a - b,
        Binary::Multiply => a * b,
        Binary::Divide => a / b,
        Binary::Power => a.powf(b),
        Binary::Atan2 => a.atan2(b),
        Binary::RemEuclid => a.rem_euclid(b),
    })
}

fn unary(op: Unary, a: F64) -> F64 {
    let a = g(a);
    f(match op {
        Unary::Sqrt => a.sqrt(),
        Unary::Sin => a.sin(),
        Unary::Cos => a.cos(),
        Unary::Tan => a.tan(),
        Unary::Acos => a.acos(),
        Unary::Atan => a.atan(),
        Unary::Sinh => a.sinh(),
        Unary::Cosh => a.cosh(),
        Unary::Acosh => a.acosh(),
        Unary::Ln => a.ln(),
        Unary::Cbrt => a.cbrt(),
        Unary::Asinh => a.asinh(),
        Unary::Cubed => a.powi(3),
        Unary::Squared => a.powi(2),
        Unary::InverseCube => a.powi(-3),
    })
}

fn integer(n: u64) -> F64 {
    f(n as f64)
}

type Plain = Ops<fn(Binary, F64, F64) -> F64, fn(Unary, F64) -> F64, fn(u64) -> F64>;

/// The arithmetic of the machine.
fn ops() -> Plain {
    Ops { binary, unary, integer }
}

const GMS: f64 = 0.000_295_912_208_284_119_56;

const PARABOLIC_LIMIT: f64 = 1e-3;

fn newton(value: impl Fn(f64) -> f64, slope: impl Fn(f64) -> f64, start: f64) -> f64 {
    let mut x = start;
    for _ in 0..200 {
        let step = value(x) / slope(x);
        x -= step;
        if step.abs() < 1e-15 * (1.0 + x.abs()) {
            break;
        }
    }
    x
}

fn eccentric(ecc: F64, mean_anomaly: F64, peri_dist: F64) -> KeteResult<F64> {
    let (e, m, q) = (g(ecc), g(mean_anomaly), g(peri_dist));
    if !e.is_finite() || e < 0.0 {
        return Err(Error::Bounds);
    }
    let x = if e < 1e-6 {
        m
    } else if e < 1.0 - PARABOLIC_LIMIT {
        let m = m.rem_euclid(std::f64::consts::TAU);
        let (mut low, mut high) = (0.0, std::f64::consts::TAU);
        for _ in 0..60 {
            let mid = 0.5 * (low + high);
            if mid - e * mid.sin() < m {
                low = mid;
            } else {
                high = mid;
            }
        }
        newton(|x| x - e * x.sin() - m, |x| 1.0 - e * x.cos(), 0.5 * (low + high))
    } else if e <= 1.0 + PARABOLIC_LIMIT {
        let w = 3.0 * m / (2.0 * q).powf(1.5);
        let y = (w.abs() + (w * w + 1.0).sqrt()).cbrt();
        (2.0 * q).sqrt() * (y - 1.0 / y) * w.signum()
    } else {
        newton(|x| e * x.sinh() - x - m, |x| e * x.cosh() - 1.0, (m / e).asinh())
    };
    Ok(f(x))
}

fn true_angle(ecc: F64, mean_anomaly: F64, peri_dist: F64) -> KeteResult<F64> {
    let e = g(ecc);
    let x = g(eccentric(ecc, mean_anomaly, peri_dist)?);
    let angle = if (e - 1.0).abs() <= PARABOLIC_LIMIT {
        2.0 * (x / (2.0 * g(peri_dist)).sqrt()).atan()
    } else if e < 1.0 {
        2.0 * (((1.0 + e) / (1.0 - e)).sqrt() * (0.5 * x).tan()).atan()
    } else {
        2.0 * (((1.0 + e) / (e - 1.0)).sqrt() * (0.5 * x).tanh()).atan()
    };
    Ok(f(angle.rem_euclid(std::f64::consts::TAU)))
}

fn dot(a: [f64; 3], b: [f64; 3]) -> f64 {
    a[0] * b[0] + a[1] * b[1] + a[2] * b[2]
}

/// Where an object on an ellipse is some days later.
fn two_body_ellipse(days: f64, pos: [f64; 3], vel: [f64; 3]) -> ([f64; 3], [f64; 3]) {
    let r0 = dot(pos, pos).sqrt();
    let a = 1.0 / (2.0 / r0 - dot(vel, vel) / GMS);
    let n = (GMS / a.powi(3)).sqrt();
    let c0 = 1.0 - r0 / a;
    let s0 = dot(pos, vel) / (GMS * a).sqrt();
    let turns = (n * days).rem_euclid(std::f64::consts::TAU);
    let x = newton(
        |x| x - c0 * x.sin() + s0 * (1.0 - x.cos()) - turns,
        |x| 1.0 - c0 * x.cos() + s0 * x.sin(),
        turns,
    );
    let r = a * (1.0 - c0 * x.cos() + s0 * x.sin());
    let ff = 1.0 - a / r0 * (1.0 - x.cos());
    let gg = (a.powi(3) / GMS).sqrt() * (x.sin() - c0 * x.sin() + s0 * (1.0 - x.cos()));
    let fd = -(GMS * a).sqrt() / (r * r0) * x.sin();
    let gd = 1.0 - a / r * (1.0 - x.cos());
    let mut p = [0.0; 3];
    let mut v = [0.0; 3];
    for i in 0..3 {
        p[i] = ff * pos[i] + gg * vel[i];
        v[i] = fd * pos[i] + gd * vel[i];
    }
    (p, v)
}

fn two_body(days: F64, at: Motion<Equatorial>) -> KeteResult<Motion<Equatorial>> {
    let pos = [g(at.pos.x), g(at.pos.y), g(at.pos.z)];
    let vel = [g(at.vel.x), g(at.vel.y), g(at.vel.z)];
    let (p, v) = two_body_ellipse(g(days), pos, vel);
    Ok(Motion { pos: vector(p[0], p[1], p[2]), vel: vector(v[0], v[1], v[2]) })
}

fn vector<T: InertialFrame>(x: f64, y: f64, z: f64) -> Vector<T> {
    Vector::new([f(x), f(y), f(z)])
}

fn constants() -> Constants {
    let obliquity = (84_381.448_f64 / 3600.0).to_radians();
    let (s, c) = (obliquity.sin(), obliquity.cos());
    Constants {
        gms: f(GMS),
        gms_sqrt: f(GMS.sqrt()),
        c_inv_squared: f(173.144_632_674_24_f64.powi(-2)),
        sun_j2: f(2.110_608_853_272_684e-7),
        jupiter_j2: f(0.014_695_72),
        earth_j2: f(1.082_625_39e-3),
        f0_over_c: f(1.0e-5),
        solar_flux: f(1360.8),
        stefan_boltzmann: f(5.670_374_419e-8),
        parabolic_limit: f(PARABOLIC_LIMIT),
        pi: f(std::f64::consts::PI),
        ecliptic: Matrix3 {
            x: vector(1.0, 0.0, 0.0),
            y: vector(0.0, c, -s),
            z: vector(0.0, s, c),
        },
    }
}

type Sky = World<
    Plain,
    fn(F64, Motion<Equatorial>) -> KeteResult<Motion<Equatorial>>,
    fn(F64, F64, F64) -> KeteResult<F64>,
    fn(F64, F64, F64) -> KeteResult<F64>,
>;

/// The arithmetic of the machine with the constants of nature.
fn sky() -> Sky {
    World { ops: ops(), constants: constants(), two_body, eccentric, true_angle }
}

fn to_matrix(t: &Table) -> DMatrix<f64> {
    DMatrix::from_fn(t.nrows, t.ncols, |i, j| g(t.get(i, j)))
}

fn to_table(m: &DMatrix<f64>) -> Table {
    let cells = (0..m.nrows())
        .map(|i| (0..m.ncols()).map(|j| f(m[(i, j)])).collect())
        .collect();
    Table { nrows: m.nrows(), ncols: m.ncols(), cells }
}

fn eigen(t: &Table) -> Eigen {
    let e = to_matrix(t).symmetric_eigen();
    Eigen {
        values: e.eigenvalues.iter().map(|x| f(*x)).collect(),
        vectors: to_table(&e.eigenvectors),
    }
}

fn inverse(t: &Table) -> Option<Table> {
    to_matrix(t).try_inverse().map(|m| to_table(&m))
}

type Full<W> = Linear<W, fn(&Table) -> Eigen, fn(&Table) -> Option<Table>>;

/// An arithmetic with eigenvalues and inverses.
fn linear<W>(world: W) -> Full<W> {
    Linear { world, eigen, inverse }
}

/// A function of time, position, velocity and parameters.
type Given<R> = fn(Time, Vector<Equatorial>, Vector<Equatorial>, &[F64]) -> KeteResult<R>;

/// The force of three such functions.
type Force = ForceFunction<
    Equatorial,
    SSB,
    Given<Vector<Equatorial>>,
    Given<Jacobians<Equatorial>>,
    Given<Vec<Vector<Equatorial>>>,
>;

fn pull(gm: f64, pos: Vector<Equatorial>) -> Vector<Equatorial> {
    let p = pos.components().map(g);
    let r3 = dot(p, p).sqrt().powi(3);
    vector(-p[0] * (gm / r3), -p[1] * (gm / r3), -p[2] * (gm / r3))
}

fn pull_jacobians(gm: f64, pos: Vector<Equatorial>) -> Jacobians<Equatorial> {
    let p = pos.components().map(g);
    let r2 = dot(p, p);
    let r5 = r2 * r2 * r2.sqrt();
    let row = |i: usize| {
        let cell = |j: usize| {
            let same = if i == j { r2 } else { 0.0 };
            (3.0 * p[i] * p[j] - same) * (gm / r5)
        };
        vector(cell(0), cell(1), cell(2))
    };
    Jacobians { pos: Matrix3 { x: row(0), y: row(1), z: row(2) }, vel: Matrix3::zeros() }
}

fn two_body_accel(
    _: Time,
    pos: Vector<Equatorial>,
    _: Vector<Equatorial>,
    _: &[F64],
) -> KeteResult<Vector<Equatorial>> {
    Ok(pull(GMS, pos))
}

fn two_body_jacobians(
    _: Time,
    pos: Vector<Equatorial>,
    _: Vector<Equatorial>,
    _: &[F64],
) -> KeteResult<Jacobians<Equatorial>> {
    Ok(pull_jacobians(GMS, pos))
}

fn no_partials(
    _: Time,
    _: Vector<Equatorial>,
    _: Vector<Equatorial>,
    _: &[F64],
) -> KeteResult<Vec<Vector<Equatorial>>> {
    Ok(vec![])
}

/// The pull of the Sun, without free parameters.
fn two_body_force() -> Force {
    ForceFunction::new(vec![], vec![], two_body_accel, two_body_jacobians, no_partials)
}


fn fs(v: &[f64]) -> Vec<F64> {
    v.iter().map(|x| f(*x)).collect()
}

fn gs(v: &[F64]) -> Vec<f64> {
    v.iter().map(|x| g(*x)).collect()
}

fn time(jd: f64) -> Time {
    Time::new(f(jd))
}

const MANY: u64 = 100_000;

fn raw(pos: [f64; 3], vel: [f64; 3], center: i32) -> State<Equatorial> {
    State::new(
        Desig::Perm(1),
        time(100.0),
        vector(pos[0], pos[1], pos[2]),
        vector(vel[0], vel[1], vel[2]),
        DynCenter(center),
    )
}

fn circle(center: i32) -> State<Equatorial> {
    raw([1.0, 0.0, 0.0], [0.0, GMS.sqrt(), 0.0], center)
}

fn shown(s: State<Equatorial>) -> PyState {
    PyState { raw: s, frame: PyFrames::Equatorial }
}

/// Every center is at the same place.
fn recenter(mut s: State<Equatorial>, id: i32) -> KeteResult<State<Equatorial>> {
    s.center = DynCenter(id);
    Ok(s)
}

fn lost(_: State<Equatorial>, _: i32) -> KeteResult<State<Equatorial>> {
    Err(Error::Bounds)
}

fn fault<R>(r: KeteResult<R>) -> ValueFault {
    match r {
        Err(Error::ValueError(fault)) => fault,
        _ => panic!("no fault of the values"),
    }
}

// -- States --

#[test]
fn frames_of_a_state_are_a_matter_of_show() {
    let s = shown(circle(10));
    assert_eq!(s.center_id(), 10);
    let turned = s.clone().change_frame(PyFrames::Ecliptic);
    assert_eq!(turned.raw, s.raw);
    assert!(matches!(turned.frame, PyFrames::Ecliptic));
    let c = constants();
    let back = PyState::of_ecliptic(&ops(), c, s.to_ecliptic(&ops(), c));
    for (a, b) in back.raw.pos.components().iter().zip([1.0, 0.0, 0.0]) {
        assert!((g(*a) - b).abs() < 1e-15);
    }
    let none = PyState::new_nan(Desig::Perm(3), time(5.0), 399, PyFrames::Ecliptic);
    assert!(!none.raw.is_finite());
    assert_eq!(none.center_id(), 399);
}

// -- Elements --

fn known() -> [GravParams; 1] {
    [GravParams { naif_id: 399, mass: f(8.9e-10), radius: F32 { bits: 4.26e-5_f32.to_bits() } }]
}

fn py_elements(ecc: f64) -> PyCometElements {
    PyCometElements::new(
        &ops(),
        constants(),
        &known(),
        "test".to_string(),
        time(1100.0),
        f(ecc),
        f(30.0),
        f(2.0),
        f(60.0),
        time(1000.0),
        f(90.0),
        10,
    )
}

#[test]
fn angles_of_elements_are_in_degrees() {
    let e = py_elements(0.5);
    assert!((g(e.0.inclination) - 30.0_f64.to_radians()).abs() < 1e-15);
    assert!((g(e.inclination(&ops())) - 30.0).abs() < 1e-13);
    assert!((g(e.peri_arg(&ops())) - 60.0).abs() < 1e-13);
    assert!((g(e.lon_of_ascending(&ops())) - 90.0).abs() < 1e-13);
    assert_eq!(g(e.semi_major(&ops(), constants())), 4.0);
    assert_eq!(g(e.aphelion(&ops(), constants())), 6.0);
    assert_eq!(g(e.peri_dist()), 2.0);
    assert_eq!(g(e.eccentricity()), 0.5);
    assert_eq!((g(e.epoch().jd), g(e.peri_time().jd)), (1100.0, 1000.0));
    let motion = (GMS / 64.0).sqrt().to_degrees();
    assert!((g(e.mean_motion(&ops(), constants())) - motion).abs() < 1e-14);
    assert!((g(e.mean_anomaly(&ops(), constants())) - 100.0 * motion).abs() < 1e-11);
    let days = 360.0 / motion;
    assert!((g(e.orbital_period(&ops(), constants())) - days).abs() < 1e-8);
    assert!(g(py_elements(1.0).orbital_period(&ops(), constants())).is_nan());
    assert!(g(py_elements(1.5).orbital_period(&ops(), constants())).is_nan());
    let anomaly = g(e.eccentric_anomaly(&sky()).unwrap()).to_radians();
    let mean = (anomaly - 0.5 * anomaly.sin()).to_degrees();
    assert!((mean - 100.0 * motion).abs() < 1e-10);
    assert!(g(e.true_anomaly(&sky()).unwrap()) > anomaly.to_degrees());
}

#[test]
fn elements_and_states_belong_together() {
    let e = py_elements(0.5);
    let s = e.state(&sky()).unwrap();
    assert_eq!(s.center_id(), 10);
    let again = PyCometElements::from_state(&ops(), constants(), &known(), s);
    assert!((g(again.eccentricity()) - 0.5).abs() < 1e-12);
    assert!((g(again.peri_dist()) - 2.0).abs() < 1e-12);
    assert!((g(again.inclination(&ops())) - 30.0).abs() < 1e-11);
    assert!((g(again.peri_time().jd) - 1000.0).abs() < 1e-7);
}

#[test]
fn bodies_without_a_name_are_called_by_their_number() {
    let mut e = py_elements(0.5);
    let name_of = |id: i32| if id == 399 { Some("earth".to_string()) } else { None };
    let written = |d: &Desig| format!("{d:?}");
    assert_eq!(e.desig(name_of, written), "Name(\"test\")");
    e.0.desig = Desig::Naif(399);
    assert_eq!(e.desig(name_of, written), "earth");
    for (id, text) in [(0, "0"), (-31, "-31"), (1_000_012, "1000012"), (i32::MIN, "-2147483648")] {
        e.0.desig = Desig::Naif(id);
        assert_eq!(e.desig(name_of, written), text);
    }
}

// -- Models of forces --

fn comet() -> PyNonGravModel {
    PyNonGravModel::new_comet(
        f(1e-8),
        f(2e-9),
        f(3e-10),
        f(0.1),
        f(2.8),
        f(2.15),
        f(5.0),
        f(4.6),
        f(0.0),
    )
}

#[test]
fn dust_is_given_by_its_push_or_its_size() {
    let new = |beta: Option<f64>, size: Option<f64>| {
        PyNonGravModel::new_dust(
            &ops(),
            beta.map(f),
            size.map(f),
            f(1000.0),
            f(1.19e-3),
            f(1.0),
        )
    };
    assert_eq!(fault(new(None, None)), ValueFault::NoDustSize);
    assert_eq!(fault(new(Some(0.1), Some(1e-5))), ValueFault::TwoDustSizes);
    assert_eq!(g(new(Some(0.1), None).unwrap().beta()), 0.1);
    let sized = new(None, Some(1e-5)).unwrap();
    assert!((g(sized.beta()) - 0.119).abs() < 1e-15);
    let size = g(sized.diameter(&ops(), f(1000.0), f(1.19e-3), f(1.0)));
    assert!((size - 1e-5).abs() < 1e-19);
    assert!(g(comet().beta()).is_nan());
    assert_eq!(fault(PyNonGravModel::new()), ValueFault::NeedsFactory);
}

#[test]
fn models_become_forces_and_are_found_again() {
    let pole = vector(0.0, 0.0, 1.0);
    let body = PyNonGravModel::new_farnocchia(
        &ops(),
        f(1e-3),
        f(0.5),
        f(0.1),
        f(0.9),
        f(0.8),
        pole,
    )
    .unwrap();
    let dust = PyNonGravModel(NonGravData::Dust { beta: f(0.25) });
    for model in [comet(), body, dust] {
        let force = model.to_force(&ops());
        let values = model.initial_values();
        let again = PyNonGravModel::from_force(&force, &values).unwrap();
        let (a, b) = (model.items(), again.items());
        assert_eq!(a.len(), b.len());
        for (x, y) in a.iter().zip(b.iter()) {
            assert_eq!((x.0, g(x.1)), (y.0, g(y.1)));
        }
        assert_eq!(model.to_mask(&ops()).n_free_params(), values.len());
        assert_eq!(model.to_frozen(&ops()).n_free_params(), 0);
    }
    assert_eq!((g(body.a_over_m()), g(body.lambda_0())), (1e-3, 0.5));
    assert!(g(comet().a_over_m()).is_nan());
    let items = comet().items();
    let names: Vec<&str> = items.iter().map(|x| x.0).collect();
    assert_eq!(names, vec!["a1", "a2", "a3", "alpha", "r_0", "m", "n", "k", "dt"]);
    // Values which are not given count as zero.
    let short = PyNonGravModel::from_force(&comet().to_force(&ops()), &fs(&[7.0])).unwrap();
    assert_eq!(gs(&short.initial_values()), vec![7.0, 0.0, 0.0]);
    let bad = PyNonGravModel::new_farnocchia(
        &ops(),
        f(1e-3),
        f(0.5),
        f(-0.1),
        f(0.9),
        f(0.8),
        pole,
    );
    assert_eq!(fault(bad), ValueFault::BadAlbedo);
}

// -- States with a covariance --

#[test]
fn spreads_have_to_be_positive() {
    let new = |p: f64, v: f64| {
        PyUncertainState::from_state(&ops(), &recenter, shown(circle(10)), f(p), f(v), None)
    };
    assert_eq!(fault(new(0.0, 1.0)), ValueFault::BadSpread);
    assert_eq!(fault(new(1.0, -1.0)), ValueFault::BadSpread);
    let u = new(2.0, 3.0).unwrap();
    let rows = u.cov_matrix();
    assert_eq!(rows.len(), 6);
    for (i, row) in rows.iter().enumerate() {
        for (j, x) in row.iter().enumerate() {
            let want = if i != j {
                0.0
            } else if i < 3 {
                4.0
            } else {
                9.0
            };
            assert_eq!(g(*x), want);
        }
    }
    assert_eq!(u.param_names(), vec!["x", "y", "z", "vx", "vy", "vz"]);
    assert_eq!(g(u.epoch().jd), 100.0);
    assert!(u.non_grav().is_none());
    assert_eq!(u.state(&recenter).unwrap().center_id(), 10);
    let failed = PyUncertainState::from_state(
        &ops(),
        &lost,
        shown(circle(10)),
        f(1.0),
        f(1.0),
        None,
    );
    assert_eq!(failed.err().unwrap(), Error::Bounds);
}

fn with_comet() -> PyUncertainState {
    PyUncertainState::from_state(
        &ops(),
        &recenter,
        shown(circle(10)),
        f(1e-6),
        f(1e-8),
        Some(comet()),
    )
    .unwrap()
}

#[test]
fn parameters_of_a_model_are_estimated_with_the_state() {
    let u = with_comet();
    assert_eq!(
        u.param_names(),
        vec!["x", "y", "z", "vx", "vy", "vz", "a1", "a2", "a3"]
    );
    assert_eq!(u.cov_matrix().len(), 9);
    let model = u.non_grav().unwrap();
    assert_eq!(gs(&model.initial_values()), vec![1e-8, 2e-9, 3e-10]);
    let zero = vec![fs(&[0.0; 9]), fs(&[0.0; 9])];
    let s = u.sample(&linear(sky()), &recenter, &zero).unwrap();
    assert_eq!((s.states.len(), s.non_gravs.len()), (2, 2));
    assert_eq!(s.states[0].raw.pos.components().map(g), [1.0, 0.0, 0.0]);
    let same = s.non_gravs[1].unwrap();
    assert_eq!(gs(&same.initial_values()), vec![1e-8, 2e-9, 3e-10]);
}

#[test]
fn rows_of_a_covariance_are_all_of_one_length() {
    let mut rows = vec![fs(&[0.0; 6]); 6];
    let e = py_elements(0.5);
    let new = |rows: Vec<Vec<F64>>| PyUncertainState::from_cometary(&sky(), &e, rows, None);
    assert!(new(rows.clone()).is_ok());
    rows[2].pop();
    assert_eq!(
        fault(new(rows.clone())),
        ValueFault::CovarianceRow { row: 2, entries: 5, total: 6 }
    );
    rows = vec![fs(&[0.0; 7]); 7];
    assert_eq!(
        fault(new(rows)),
        ValueFault::CovarianceShape { size: 6, rows: 7, columns: 7 }
    );
}

fn plain() -> PyUncertainState {
    let s = shown(circle(0));
    PyUncertainState::from_state(&ops(), &recenter, s, f(1e-6), f(1e-8), None).unwrap()
}

fn at_barycenter() -> KeteResult<State<Equatorial, SSB>> {
    circle(0).try_into()
}

#[test]
fn covariances_move_with_their_states() {
    let u = plain();
    let end = u
        .propagate(&ops(), &two_body_force(), at_barycenter(), time(110.0), MANY)
        .unwrap()
        .unwrap();
    assert_eq!(g(end.epoch().jd), 110.0);
    let (p, _) = two_body_ellipse(10.0, [1.0, 0.0, 0.0], [0.0, GMS.sqrt(), 0.0]);
    let got = end.state(&recenter).unwrap().raw.pos.components().map(g);
    for i in 0..3 {
        assert!((got[i] - p[i]).abs() < 1e-10);
    }
    let (diagnosed, divergence) = u
        .propagate_with_diagnosis(
            &linear(ops()),
            &two_body_force(),
            at_barycenter(),
            time(110.0),
            3,
            f(1.0),
            MANY,
        )
        .unwrap()
        .unwrap();
    assert_eq!(diagnosed.state.state, end.state.state);
    let alone = u
        .sigma_point_divergence(
            &linear(ops()),
            &two_body_force(),
            at_barycenter(),
            time(110.0),
            3,
            f(1.0),
            MANY,
        )
        .unwrap()
        .unwrap();
    assert_eq!(g(alone), g(divergence));
    let failed = u.propagate(&ops(), &two_body_force(), Err(Error::Bounds), time(1.0), MANY);
    assert_eq!(failed.err().unwrap(), Error::Bounds);
}

// -- Mixtures --

#[test]
fn components_of_a_mixture_have_one_force() {
    let both = PyDiffuseState::new(&ops(), fs(&[0.5, 0.5]), vec![plain(), plain()]).unwrap();
    assert_eq!((both.n_components(), both.n_params(), both.cov_dim()), (2, 0, 6));
    assert_eq!(gs(&both.weights()), vec![0.5, 0.5]);
    assert_eq!(both.components().len(), 2);
    assert!(both.non_grav().is_none());
    assert_eq!(both.param_names().len(), 6);
    let mixed = PyDiffuseState::new(&ops(), fs(&[0.5, 0.5]), vec![with_comet(), plain()]);
    assert_eq!(fault(mixed), ValueFault::ComponentForce(1));
    // The values of parameters may differ, the coefficients of the force may not.
    let comets = |alpha: f64, a1: f64| {
        let model = PyNonGravModel::new_comet(
            f(a1),
            f(2e-9),
            f(3e-10),
            f(alpha),
            f(2.8),
            f(2.15),
            f(5.0),
            f(4.6),
            f(0.0),
        );
        let start = shown(circle(10));
        PyUncertainState::from_state(&ops(), &recenter, start, f(1e-6), f(1e-8), Some(model))
            .unwrap()
    };
    let alike = vec![comets(0.1112620426, 1e-8), comets(0.1112620426, 2e-8)];
    assert!(PyDiffuseState::new(&ops(), fs(&[0.5, 0.5]), alike).is_ok());
    let apart = vec![comets(0.1112620426, 1e-8), comets(1.0, 1e-8)];
    let refused = PyDiffuseState::new(&ops(), fs(&[0.5, 0.5]), apart);
    assert_eq!(fault(refused), ValueFault::ComponentForce(1));
    // Zero is zero, whatever its sign, and NaN is as good as NaN.
    let zeros = vec![comets(0.0, 1e-8), comets(-0.0, 1e-8)];
    assert!(PyDiffuseState::new(&ops(), fs(&[0.5, 0.5]), zeros).is_ok());
    let nans = vec![comets(f64::NAN, 1e-8), comets(-f64::NAN, 1e-8)];
    assert!(PyDiffuseState::new(&ops(), fs(&[0.5, 0.5]), nans).is_ok());
    let half = vec![comets(0.0, 1e-8), comets(f64::NAN, 1e-8)];
    let refused = PyDiffuseState::new(&ops(), fs(&[0.5, 0.5]), half);
    assert_eq!(fault(refused), ValueFault::ComponentForce(1));
    let one = PyDiffuseState::from_uncertain(with_comet());
    assert_eq!((one.n_components(), one.n_params(), one.cov_dim()), (1, 3, 9));
    assert_eq!(g(one.epoch().jd), 100.0);
    let left = both.prune(&ops(), f(0.6));
    assert_eq!(fault(left), ValueFault::AllPruned);
}

#[test]
fn mixtures_move_component_by_component() {
    let both = PyDiffuseState::new(&ops(), fs(&[0.25, 0.75]), vec![plain(), plain()]).unwrap();
    let there = || Ok(vec![at_barycenter().unwrap(), at_barycenter().unwrap()]);
    let end = both
        .propagate(&ops(), &two_body_force(), there(), time(110.0), MANY)
        .unwrap()
        .unwrap();
    assert_eq!(gs(&end.weights()), vec![0.25, 0.75]);
    assert_eq!(g(end.epoch().jd), 110.0);
    let split = both
        .propagate_adaptive(
            &linear(ops()),
            &two_body_force(),
            there(),
            time(110.0),
            &SplitConfig::default(),
            MANY,
        )
        .unwrap()
        .unwrap();
    assert_eq!(split.n_components(), 2);
    let far = both
        .sigma_point_divergence(
            &linear(ops()),
            &two_body_force(),
            there(),
            time(110.0),
            3,
            f(1.0),
            MANY,
        )
        .unwrap()
        .unwrap();
    assert_eq!(far.len(), 2);
    assert_eq!(g(far[0]), g(far[1]));
}

// -- Observations --

fn to_ssb(s: State<Equatorial>) -> KeteResult<State<Equatorial, SSB>> {
    recenter(s, 0)?.try_into()
}

fn optical(sra: f64, time_sigma: f64, corr: f64) -> KeteResult<PyObservation> {
    PyObservation::optical(
        &ops(),
        to_ssb,
        shown(circle(10)),
        f(120.0),
        f(60.0),
        f(sra),
        f(0.5),
        "G".to_string(),
        f(18.5),
        f(time_sigma),
        f(corr),
        false,
    )
}

#[test]
fn observations_on_the_sky_are_in_degrees_and_arcseconds() {
    assert_eq!(fault(optical(0.0, 0.5, 0.0)), ValueFault::BadSkySigma);
    assert_eq!(fault(optical(0.5, -0.5, 0.0)), ValueFault::BadTimeSigma);
    assert_eq!(fault(optical(0.5, 0.5, 1.0)), ValueFault::BadCorrelation);
    assert_eq!(fault(optical(0.5, 0.5, -1.0)), ValueFault::BadCorrelation);
    let o = optical(0.5, 0.25, 0.1).unwrap();
    assert!((g(o.ra(&ops()).unwrap()) - 120.0).abs() < 1e-12);
    assert!((g(o.dec(&ops()).unwrap()) - 60.0).abs() < 1e-12);
    assert!((g(o.sigma_ra(&ops()).unwrap()) - 0.5).abs() < 1e-12);
    assert!((g(o.sigma_dec(&ops()).unwrap()) - 0.5).abs() < 1e-12);
    assert_eq!(g(o.time_sigma().unwrap()), 0.25);
    assert_eq!(g(o.sigma_corr().unwrap()), 0.1);
    assert_eq!(o.is_occultation(), Some(false));
    assert_eq!((o.band(), g(o.mag())), ("G", 18.5));
    assert!(o.range().is_none() && o.range_rate().is_none());
    let arcsec = (1.0_f64 / 3600.0).to_radians();
    let (r, p) = o.residual(&ops(), &fs(&[2.0 * arcsec, arcsec]), &fs(&[arcsec, 0.0]));
    assert!((g(r[0]) - 1.0).abs() < 1e-12, "{}", g(r[0]));
    assert!((g(r[1]) - 1.0).abs() < 1e-12);
    assert!((g(p[0]) - 1.0 / 3600.0).abs() < 1e-15);
    assert_eq!(g(f64_of(DEFAULT_TIME_SIGMA)), 0.5);
    assert!(PyObservation::new().is_err());
}

fn f64_of(bits: u64) -> F64 {
    F64::from_bits(bits)
}

#[test]
fn radar_measures_range_and_rate() {
    let range = |sigma: f64| {
        PyObservation::radar_range(
            &ops(),
            f(10.0),
            f(20.0),
            f(0.1),
            f(30.0),
            f(40.0),
            f(0.2),
            time(7.0),
            f(0.01),
            f(sigma),
        )
    };
    assert_eq!(fault(range(0.0)), ValueFault::BadRangeSigma);
    let o = range(1e-9).unwrap();
    assert_eq!(g(o.range().unwrap()), 0.01);
    assert_eq!(g(o.sigma_range().unwrap()), 1e-9);
    assert_eq!(g(o.epoch().jd), 7.0);
    assert!(o.ra(&ops()).is_none());
    let (r, p) = o.residual(&ops(), &fs(&[3.0]), &fs(&[4.0]));
    assert_eq!((gs(&r), gs(&p)), (vec![3.0], vec![4.0]));
    let rate = |sigma: f64| {
        PyObservation::radar_rate(
            &ops(),
            f(10.0),
            f(20.0),
            f(0.1),
            f(30.0),
            f(40.0),
            f(0.2),
            time(7.0),
            f(-0.02),
            f(sigma),
        )
    };
    assert_eq!(fault(rate(-1.0)), ValueFault::BadRateSigma);
    let o = rate(1e-9).unwrap();
    assert_eq!(g(o.range_rate().unwrap()), -0.02);
    assert_eq!(g(o.sigma_range_rate().unwrap()), 1e-9);
    match o.obs {
        AstrometricObservation::RadarRate { xmit, .. } => {
            assert!((g(xmit.lat) - 10.0_f64.to_radians()).abs() < 1e-15);
            assert_eq!(g(xmit.height), 0.1);
        }
        _ => panic!(),
    }
}

#[test]
fn fits_show_what_was_included() {
    let o = || optical(0.5, 0.25, 0.1).unwrap().obs;
    let arcsec = (1.0_f64 / 3600.0).to_radians();
    let fit = PyOrbitFit {
        inner: OrbitFit {
            uncertain_state: plain().state,
            non_grav: Some(comet().to_frozen(&ops())),
            residuals: vec![
                fs(&[arcsec, arcsec]),
                fs(&[2.0 * arcsec, 2.0 * arcsec]),
                fs(&[3.0 * arcsec, 3.0 * arcsec]),
            ],
            observations: vec![o(), o(), o()],
            included: vec![true, false, true],
            rms: f(1.0),
            converged: true,
        },
    };
    assert_eq!(fit.n_included(), 2);
    assert_eq!(fit.observations().len(), 2);
    assert_eq!(fit.all_observations().len(), 3);
    let r = fit.residuals(&ops());
    assert_eq!(r.len(), 2);
    assert!((g(r[1][1]) - 3.0).abs() < 1e-12);
    let mut short = fit.clone();
    let _ = short.inner.residuals.pop();
    assert_eq!(short.residuals(&ops()).len(), 1);
    assert_eq!(short.observations().len(), 2);
    let _ = short.inner.included.pop();
    assert_eq!(short.observations().len(), 1);
    assert_eq!(fit.uncertain_state().cov_matrix().len(), 6);
    assert_eq!(fit.state(&recenter).unwrap().center_id(), 10);
    assert_eq!(gs(&fit.non_grav().unwrap().initial_values()), vec![1e-8, 2e-9, 3e-10]);
}

#[test]
fn draws_are_moved_to_the_sun() {
    let samples = PyOrbitSamples(OrbitSamples {
        desig: "x".to_string(),
        epoch: f(9.0),
        draws: vec![fs(&[1.0, 2.0, 3.0, 4.0, 5.0, 6.0, 7.0]), fs(&[0.0; 6])],
        seed_id: vec![3, 3],
        divergent: vec![false, true],
        log_posterior: fs(&[0.0, 0.0]),
    });
    let sun = raw([0.5, 0.5, 0.5], [1.0, 1.0, 1.0], 0);
    let states = samples.draws(&ops(), &sun);
    assert_eq!(states[0].raw.pos.components().map(g), [0.5, 1.5, 2.5]);
    assert_eq!(states[0].raw.vel.components().map(g), [3.0, 4.0, 5.0]);
    assert_eq!(states[1].center_id(), 10);
    assert!(matches!(states[1].frame, PyFrames::Ecliptic));
    assert_eq!(g(states[1].raw.epoch.jd), 9.0);
    assert_eq!((samples.__len__(), samples.n_seeds(), samples.n_divergent()), (2, 1, 1));
    let ranging = PyRangingSamples(RangingSamples {
        epoch: f(9.0),
        draws: vec![fs(&[0.0; 6])],
        log_posterior: fs(&[0.0]),
        effective_sample_size: f(1.0),
        convergence_warning: None,
    });
    assert_eq!(ranging.__len__(), 1);
    assert_eq!(ranging.draws(&ops(), &sun)[0].raw.desig, Desig::Empty);
}

// -- Fields of view --

fn field(jd: f64, mark: f64) -> FOV {
    let mut observer = raw([mark, 0.0, 0.0], [0.0; 3], 10);
    observer.epoch = time(jd);
    FOV::OmniDirectional(OmniDirectional { observer })
}

fn marks(fovs: &[FOV]) -> Vec<(f64, f64)> {
    fovs.iter().map(|x| (g(x.observer().epoch.jd), g(x.observer().pos.x))).collect()
}

#[test]
fn fields_are_sorted_by_time_and_kept_in_order() {
    let fovs = vec![
        field(3.0, 0.0),
        field(1.0, 1.0),
        field(2.0, 2.0),
        field(1.0, 3.0),
        field(-1.0, 4.0),
        field(3.0, 5.0),
    ];
    let s = sort(fovs);
    assert_eq!(
        marks(&s),
        vec![(-1.0, 4.0), (1.0, 1.0), (1.0, 3.0), (2.0, 2.0), (3.0, 0.0), (3.0, 5.0)]
    );
    assert!(sort(vec![]).is_empty());
}

#[test]
fn fields_close_in_time_are_grouped() {
    let fovs = vec![field(0.0, 0.0), field(1.0, 1.0), field(2.0, 2.0), field(2.5, 3.0)];
    let g2 = group(&ops(), fovs, f(0.75));
    let sizes: Vec<usize> = g2.iter().map(Vec::len).collect();
    assert_eq!(sizes, vec![2, 2]);
    assert!(group(&ops(), vec![], f(1.0)).is_empty());
}

#[test]
fn steps_follow_the_fields() {
    let at = Reached { jd: f(0.0), big_jd: f(0.0) };
    let near = plan(&ops(), at, &vec![field(0.5, 0.0), field(1.0, 0.0)], f(1.0));
    assert!(near.big.is_none() && near.small.is_none() && !near.restart);
    let far = plan(&ops(), at, &vec![field(10.0, 0.0)], f(1.0));
    assert!(far.big.is_none());
    assert_eq!(far.small.map(g), Some(10.0));
    let farther = plan(&ops(), at, &vec![field(100.0, 0.0)], f(1.0));
    assert_eq!(farther.big.map(g), Some(0.0));
    assert!(farther.restart);
    assert_eq!(farther.small.map(g), Some(100.0));
    assert_eq!((g(farther.reached.jd), g(farther.reached.big_jd)), (100.0, 100.0));
}

#[test]
fn objects_are_looked_for_where_they_are() {
    let advance = |s: &Vec<State<Equatorial>>, jd: F64| {
        s.iter()
            .map(|x| {
                let mut y = x.clone();
                y.epoch = Time::new(jd);
                y
            })
            .collect::<Vec<_>>()
    };
    let look = |fov: &FOV, s: &Vec<State<Equatorial>>| {
        let at = g(fov.observer().epoch.jd);
        s.iter()
            .map(|x| if at < 50.0 { Some((at, g(x.epoch.jd))) } else { None })
            .collect::<Vec<_>>()
    };
    let fovs = vec![field(60.0, 0.0), field(20.0, 1.0), field(19.5, 2.0), field(0.5, 3.0)];
    let states = vec![raw([0.0; 3], [0.0; 3], 10)];
    let found = fov_checks_py(&ops(), &advance, &look, states, f(0.0), fovs, f(1.0));
    assert_eq!(found, vec![(0.5, 100.0), (19.5, 19.75), (20.0, 19.75)]);
    let each = check_each(
        &|fov: &FOV| vec![Some(g(fov.observer().pos.x)), None],
        vec![field(2.0, 7.0), field(1.0, 8.0)],
    );
    assert_eq!(each, vec![8.0, 7.0]);
    assert_eq!(collect(vec![vec![Some(1), None], vec![], vec![Some(2)]]), vec![1, 2]);
}

// -- Motion --

fn drift(
    s: State<Equatorial, SSB>,
    model: Option<PyNonGravModel>,
) -> KeteResult<State<Equatorial, SSB>> {
    let x = g(s.pos.x);
    if x == 2.0 {
        return Err(Error::Impact(399, time(3.0)));
    }
    if x == 3.0 {
        return Err(Error::Bounds);
    }
    let mut s = s;
    let push = if model.is_some() { 100.0 } else { 10.0 };
    s.pos = vector(x + push, 0.0, 0.0);
    s.epoch = time(200.0);
    Ok(s)
}

fn at(x: f64) -> PyState {
    shown(raw([x, 0.0, 0.0], [0.0; 3], 10))
}

fn run(
    xs: &[f64],
    models: Option<Vec<Option<PyNonGravModel>>>,
    suppress: bool,
    impacts: bool,
) -> KeteResult<Propagated> {
    let states: Vec<PyState> = xs.iter().map(|x| at(*x)).collect();
    propagation_n_body_spk_py(
        &to_ssb,
        &drift,
        &recenter,
        &states,
        time(200.0),
        models,
        suppress,
        impacts,
    )
}

#[test]
fn errors_of_motion_are_suppressed_on_request() {
    let p = run(&[1.0, 2.0, 3.0, f64::NAN], None, true, true).unwrap();
    assert_eq!(p.states.len(), 4);
    assert_eq!(g(p.states[0].raw.pos.x), 11.0);
    assert_eq!(p.states[0].center_id(), 10);
    for s in &p.states[1..] {
        assert!(!s.raw.is_finite());
        assert_eq!(g(s.raw.epoch.jd), 200.0);
    }
    assert_eq!(p.impacts, vec![(1, 399, time(3.0))]);
    assert!(run(&[1.0, 2.0], None, true, false).unwrap().impacts.is_empty());
    assert_eq!(run(&[3.0], None, false, false).err().unwrap(), Error::Bounds);
    assert_eq!(
        run(&[2.0], None, false, true).err().unwrap(),
        Error::Impact(399, time(3.0))
    );
    assert_eq!(fault(run(&[f64::NAN], None, false, false)), ValueFault::NanState);
    assert_eq!(
        fault(run(&[1.0, 5.0], Some(vec![None]), true, true)),
        ValueFault::NonGravCount { models: 1, states: 2 }
    );
    let pushed = run(&[1.0, 5.0], Some(vec![Some(comet()), None]), false, false).unwrap();
    assert_eq!(g(pushed.states[0].raw.pos.x), 101.0);
    assert_eq!(g(pushed.states[1].raw.pos.x), 15.0);
}

#[test]
fn work_is_cut_into_pieces_without_gaps() {
    let ends: Vec<(usize, usize)> = split(12, 5).iter().map(|p| (p.start, p.end)).collect();
    assert_eq!(ends, vec![(0, 5), (5, 10), (10, 12)]);
    assert!(split(0, 5).is_empty());
    assert_eq!(fill_models(None, 3).len(), 3);
    assert_eq!(fill_models(Some(vec![None]), 3).len(), 1);
}

fn to_sun(s: State<Equatorial>) -> KeteResult<State<Equatorial, SunCenter>> {
    recenter(s, 10)?.try_into()
}

#[test]
fn batches_move_together_and_share_their_planets() {
    let states: Vec<PyState> = [1.0, 5.0, 6.0].iter().map(|x| at(*x)).collect();
    let move_batch = |s: Vec<State<Equatorial, SunCenter>>, m: Vec<Option<PyNonGravModel>>| {
        assert_eq!(s.len(), m.len());
        if s.iter().any(|x| g(x.pos.x) == 9.0) {
            return Err(Error::Bounds);
        }
        let states = s.into_iter().map(|x| shown(x.into())).collect();
        Ok(Batch { states, planets: vec![at(-1.0)] })
    };
    let r = propagation_n_body_py(&to_sun, &move_batch, &states, None, 2).unwrap();
    let xs: Vec<f64> = r.states.iter().map(|s| g(s.raw.pos.x)).collect();
    assert_eq!(xs, vec![1.0, 5.0, 6.0]);
    assert_eq!(r.planets.len(), 1);
    let failed = propagation_n_body_py(&to_sun, &move_batch, &vec![at(9.0)], None, 2);
    assert_eq!(failed.err().unwrap(), Error::Bounds);
    let few = propagation_n_body_py(&to_sun, &move_batch, &states, Some(vec![None]), 2);
    assert_eq!(fault(few), ValueFault::NonGravCount { models: 1, states: 3 });
}

#[test]
fn distances_of_orbits_are_to_the_earth_unless_told() {
    let earth = |t: Time| {
        let mut s = raw([-1.0, 0.0, 0.0], [0.0; 3], 10);
        s.epoch = t;
        Ok(s)
    };
    let apart = |a: State<Equatorial, SunCenter>, b: State<Equatorial, SunCenter>| {
        Ok(f((g(a.pos.x) - g(b.pos.x)).abs()))
    };
    let states = vec![at(1.0), at(3.0)];
    let r = moid_py(&earth, &to_sun, &apart, &states, None).unwrap();
    assert_eq!(gs(&r), vec![2.0, 4.0]);
    let r = moid_py(&earth, &to_sun, &apart, &states, Some(at(10.0))).unwrap();
    assert_eq!(gs(&r), vec![9.0, 7.0]);
    let none = moid_py(&earth, &to_sun, &apart, &vec![], None);
    assert_eq!(fault(none), ValueFault::NoFirstStates);
}

// -- Collections --

#[test]
fn states_of_a_collection_are_counted_from_either_end() {
    let s = PySimultaneousStates::new(&vec![at(1.0), at(2.0), at(3.0)], None).unwrap();
    assert_eq!((s.__len__(), s.center_id(), g(s.jd().jd)), (3, 10, 100.0));
    assert_eq!(s.states().len(), 3);
    let x = |i: isize| s.__getitem__(i).map(|p| g(p.raw.pos.x));
    assert_eq!(x(0), Ok(1.0));
    assert_eq!(x(-1), Ok(3.0));
    assert_eq!(x(-3), Ok(1.0));
    assert_eq!(x(3), Err(Error::ValueError(ValueFault::NoSuchState)));
    assert_eq!(x(-4), Err(Error::ValueError(ValueFault::NoSuchState)));
    assert_eq!(fault(PySimultaneousStates::new(&vec![], None)), ValueFault::NoStates);
}

#[test]
fn tables_hold_states_but_no_field() {
    let s = PySimultaneousStates::new(&vec![at(1.0), at(2.0)], None).unwrap();
    assert_eq!(s.save_parquet(None).unwrap(), None);
    let all = s.save_parquet(Some(Updates::All(time(4.0)))).unwrap().unwrap();
    assert_eq!(all, vec![time(4.0), time(4.0)]);
    let one = s.save_parquet(Some(Updates::Each(vec![time(1.0)])));
    assert_eq!(fault(one), ValueFault::UpdateCount);
    let seen = PySimultaneousStates::new(&vec![at(1.0)], Some(field(100.0, 0.0))).unwrap();
    assert_eq!(
        seen.save_parquet(None).unwrap_err(),
        Error::IOError(IoFault::FovInTable)
    );
}

#[test]
fn angles_at_the_observer_and_at_the_object() {
    let states = vec![shown(raw([1.0, 1.0, 0.0], [0.0; 3], 10))];
    // The observer is one away from the Sun along the first axis.
    let s = PySimultaneousStates::new(&states, Some(field(100.0, 1.0))).unwrap();
    let vecs = s.obs_vecs(&ops(), &recenter).unwrap();
    assert_eq!(vecs[0].components().map(g), [0.0, 1.0, 0.0]);
    let phase = s.phase_angles(&ops(), &vecs);
    assert!((g(phase[0]) - 45.0).abs() < 1e-12, "{}", g(phase[0]));
    let away = s.elongation(&ops(), &vecs).unwrap();
    assert!((g(away[0]) - 90.0).abs() < 1e-12, "{}", g(away[0]));
    let unseen = PySimultaneousStates::new(&states, None).unwrap();
    assert_eq!(fault(unseen.elongation(&ops(), &vecs)), ValueFault::NoFov);
    assert_eq!(fault(unseen.obs_vecs(&ops(), &recenter)), ValueFault::NoFov);
    let rates = ra_dec_with_rates(&ops(), &vec![[f(1.0), f(0.5), f(0.1), f(0.2)]]);
    assert!((g(rates[0][0]) - 1.0_f64.to_degrees()).abs() < 1e-12);
}

// -- Catalogs --

fn properties(
    uncertain_state: Option<UncertainState>,
    non_grav: Option<Fitted>,
) -> PyHorizonsProperties {
    PyHorizonsProperties(HorizonsProperties {
        desig: "x".to_string(),
        group: None,
        epoch: None,
        eccentricity: None,
        inclination: None,
        lon_of_ascending: None,
        peri_arg: None,
        peri_dist: None,
        peri_time: None,
        h_mag: None,
        vis_albedo: None,
        diameter: None,
        moid: None,
        g_phase: None,
        arc_len: None,
        uncertain_state,
        non_grav,
        alternate_desigs: vec![],
        raw_json: None,
    })
}

#[test]
fn entries_of_a_catalog_are_sampled_where_there_is_a_covariance() {
    let none = properties(None, None);
    assert!(none.uncertain_state().is_none());
    assert!(none.non_grav().is_none());
    assert_eq!(
        fault(none.sample(&linear(sky()), &recenter, &vec![])),
        ValueFault::NoCovariance
    );
    assert_eq!(fault(none.json()), ValueFault::NoResponse);
    let fitted = Fitted { force: comet().to_force(&ops()), values: fs(&[1.0, 2.0, 3.0]) };
    let full = properties(Some(with_comet().state), Some(fitted));
    assert_eq!(full.uncertain_state().unwrap().cov_matrix().len(), 9);
    assert_eq!(gs(&full.non_grav().unwrap().initial_values()), vec![1.0, 2.0, 3.0]);
    let draws = vec![fs(&[0.0; 9])];
    let s = full.sample(&linear(sky()), &recenter, &draws).unwrap();
    assert_eq!(s.states.len(), 1);
}

#[test]
fn transitions_are_shown_where_the_state_was() {
    let transition = |s: State<Equatorial, SSB>, _: Option<PyNonGravModel>| {
        Ok(kete::python::stm::Reached { state: s, sens: Table::zeros(6, 6) })
    };
    let r = compute_stm_py(&to_ssb, &transition, &recenter, at(1.0), None).unwrap();
    assert_eq!(r.state.center_id(), 10);
    assert_eq!((r.rows.len(), r.rows[0].len()), (6, 6));
}
