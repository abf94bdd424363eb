//! States with a covariance.
use kete::algebra::{Eigen, Linear};
use kete::arithmetic::{Binary, Ops, Unary};
use kete::constants::Constants;
use kete::desig::Desig;
use kete::elements::CometElements;
use kete::errors::{Error, KeteResult, ValueFault};
use kete::float::F64;
use kete::frames::{DynCenter, Equatorial, InertialFrame, Vector};
use kete::matrix::Matrix3;
use kete::physics::{Motion, World};
use kete::state::{State, UncertainState};
use kete::state::uncertain::{
    cometary_to_cartesian_jacobian, perturb_element, to_ecliptic, to_equatorial,
};
use kete::table::Table;
use kete::time::Time;
use nalgebra::DMatrix;
use rand::{Rng, SeedableRng};
use rand::rngs::StdRng;
use rand_distr::StandardNormal;

fn f(x: f64) -> F64 {
    F64::from_bits(x.to_bits())
}

fn g(x: F64) -> f64 {
    f64::from_bits(x.to_bits())
}

fn binary(op: Binary, a: F64, b: F64) -> F64 {
    let (a, b) = (g(a), g(b));
    f(match op {
        Binary::Add => a + b,
        Binary::Subtract => a - b,
        Binary::Multiply => a * b,
        Binary::Divide => a / b,
        Binary::Power => a.powf(b),
        Binary::Atan2 => a.atan2(b),
        Binary::RemEuclid => a.rem_euclid(b),
    })
}

fn unary(op: Unary, a: F64) -> F64 {
    let a = g(a);
    f(match op {
        Unary::Sqrt => a.sqrt(),
        Unary::Sin => a.sin(),
        Unary::Cos => a.cos(),
        Unary::Tan => a.tan(),
        Unary::Acos => a.acos(),
        Unary::Atan => a.atan(),
        Unary::Sinh => a.sinh(),
        Unary::Cosh => a.cosh(),
        Unary::Acosh => a.acosh(),
        Unary::Ln => a.ln(),
        Unary::Cbrt => a.cbrt(),
        Unary::Asinh => a.asinh(),
        Unary::Cubed => a.powi(3),
        Unary::Squared => a.powi(2),
        Unary::InverseCube => a.powi(-3),
    })
}

fn integer(n: u64) -> F64 {
    f(n as f64)
}

type Plain = Ops<fn(Binary, F64, F64) -> F64, fn(Unary, F64) -> F64, fn(u64) -> F64>;

/// The arithmetic of the machine.
fn ops() -> Plain {
    Ops { binary, unary, integer }
}

const GMS: f64 = 0.000_295_912_208_284_119_56;

const PARABOLIC_LIMIT: f64 = 1e-3;

fn newton(value: impl Fn(f64) -> f64, slope: impl Fn(f64) -> f64, start: f64) -> f64 {
    let mut x = start;
    for _ in 0..200 {
        let step = value(x) / slope(x);
        x -= step;
        if step.abs() < 1e-15 * (1.0 + x.abs()) {
            break;
        }
    }
    x
}

fn eccentric(ecc: F64, mean_anomaly: F64, peri_dist: F64) -> KeteResult<F64> {
    let (e, m, q) = (g(ecc), g(mean_anomaly), g(peri_dist));
    if !e.is_finite() || e < 0.0 {
        return Err(Error::Bounds);
    }
    let x = if e < 1e-6 {
        m
    } else if e < 1.0 - PARABOLIC_LIMIT {
        let m = m.rem_euclid(std::f64::consts::TAU);
        let (mut low, mut high) = (0.0, std::f64::consts::TAU);
        for _ in 0..60 {
            let mid = 0.5 * (low + high);
            if mid - e * mid.sin() < m {
                low = mid;
            } else {
                high = mid;
            }
        }
        newton(|x| x - e * x.sin() - m, |x| 1.0 - e * x.cos(), 0.5 * (low + high))
    } else if e <= 1.0 + PARABOLIC_LIMIT {
        let w = 3.0 * m / (2.0 * q).powf(1.5);
        let y = (w.abs() + (w * w + 1.0).sqrt()).cbrt();
        (2.0 * q).sqrt() * (y - 1.0 / y) * w.signum()
    } else {
        newton(|x| e * x.sinh() - x - m, |x| e * x.cosh() - 1.0, (m / e).asinh())
    };
    Ok(f(x))
}

fn true_angle(ecc: F64, mean_anomaly: F64, peri_dist: F64) -> KeteResult<F64> {
    let e = g(ecc);
    let x = g(eccentric(ecc, mean_anomaly, peri_dist)?);
    let angle = if (e - 1.0).abs() <= PARABOLIC_LIMIT {
        2.0 * (x / (2.0 * g(peri_dist)).sqrt()).atan()
    } else if e < 1.0 {
        2.0 * (((1.0 + e) / (1.0 - e)).sqrt() * (0.5 * x).tan()).atan()
    } else {
        2.0 * (((1.0 + e) / (e - 1.0)).sqrt() * (0.5 * x).tanh()).atan()
    };
    Ok(f(angle.rem_euclid(std::f64::consts::TAU)))
}

fn dot(a: [f64; 3], b: [f64; 3]) -> f64 {
    a[0] * b[0] + a[1] * b[1] + a[2] * b[2]
}

/// Where an object on an ellipse is some days later.
fn two_body_ellipse(days: f64, pos: [f64; 3], vel: [f64; 3]) -> ([f64; 3], [f64; 3]) {
    let r0 = dot(pos, pos).sqrt();
    let a = 1.0 / (2.0 / r0 - dot(vel, vel) / GMS);
    let n = (GMS / a.powi(3)).sqrt();
    let c0 = 1.0 - r0 / a;
    let s0 = dot(pos, vel) / (GMS * a).sqrt();
    let turns = (n * days).rem_euclid(std::f64::consts::TAU);
    let x = newton(
        |x| x - c0 * x.sin() + s0 * (1.0 - x.cos()) - turns,
        |x| 1.0 - c0 * x.cos() + s0 * x.sin(),
        turns,
    );
    let r = a * (1.0 - c0 * x.cos() + s0 * x.sin());
    let ff = 1.0 - a / r0 * (1.0 - x.cos());
    let gg = (a.powi(3) / GMS).sqrt() * (x.sin() - c0 * x.sin() + s0 * (1.0 - x.cos()));
    let fd = -(GMS * a).sqrt() / (r * r0) * x.sin();
    let gd = 1.0 - a / r * (1.0 - x.cos());
    let mut p = [0.0; 3];
    let mut v = [0.0; 3];
    for i in 0..3 {
        p[i] = ff * pos[i] + gg * vel[i];
        v[i] = fd * pos[i] + gd * vel[i];
    }
    (p, v)
}

fn two_body(days: F64, at: Motion<Equatorial>) -> KeteResult<Motion<Equatorial>> {
    let pos = [g(at.pos.x), g(at.pos.y), g(at.pos.z)];
    let vel = [g(at.vel.x), g(at.vel.y), g(at.vel.z)];
    let (p, v) = two_body_ellipse(g(days), pos, vel);
    Ok(Motion { pos: vector(p[0], p[1], p[2]), vel: vector(v[0], v[1], v[2]) })
}

fn vector<T: InertialFrame>(x: f64, y: f64, z: f64) -> Vector<T> {
    Vector::new([f(x), f(y), f(z)])
}

fn constants() -> Constants {
    let obliquity = (84_381.448_f64 / 3600.0).to_radians();
    let (s, c) = (obliquity.sin(), obliquity.cos());
    Constants {
        gms: f(GMS),
        gms_sqrt: f(GMS.sqrt()),
        c_inv_squared: f(173.144_632_674_24_f64.powi(-2)),
        sun_j2: f(2.110_608_853_272_684e-7),
        jupiter_j2: f(0.014_695_72),
        earth_j2: f(1.082_625_39e-3),
        f0_over_c: f(1.0e-5),
        solar_flux: f(1360.8),
        stefan_boltzmann: f(5.670_374_419e-8),
        parabolic_limit: f(PARABOLIC_LIMIT),
        pi: f(std::f64::consts::PI),
        ecliptic: Matrix3 {
            x: vector(1.0, 0.0, 0.0),
            y: vector(0.0, c, -s),
            z: vector(0.0, s, c),
        },
    }
}

type Sky = World<
    Plain,
    fn(F64, Motion<Equatorial>) -> KeteResult<Motion<Equatorial>>,
    fn(F64, F64, F64) -> KeteResult<F64>,
    fn(F64, F64, F64) -> KeteResult<F64>,
>;

/// The arithmetic of the machine with the constants of nature.
fn sky() -> Sky {
    World { ops: ops(), constants: constants(), two_body, eccentric, true_angle }
}

fn to_matrix(t: &Table) -> DMatrix<f64> {
    DMatrix::from_fn(t.nrows, t.ncols, |i, j| g(t.get(i, j)))
}

fn to_table(m: &DMatrix<f64>) -> Table {
    let cells = (0..m.nrows())
        .map(|i| (0..m.ncols()).map(|j| f(m[(i, j)])).collect())
        .collect();
    Table { nrows: m.nrows(), ncols: m.ncols(), cells }
}

fn eigen(t: &Table) -> Eigen {
    let e = to_matrix(t).symmetric_eigen();
    Eigen {
        values: e.eigenvalues.iter().map(|x| f(*x)).collect(),
        vectors: to_table(&e.eigenvectors),
    }
}

fn inverse(t: &Table) -> Option<Table> {
    to_matrix(t).try_inverse().map(|m| to_table(&m))
}

type Full<W> = Linear<W, fn(&Table) -> Eigen, fn(&Table) -> Option<Table>>;

/// An arithmetic with eigenvalues and inverses.
fn linear<W>(world: W) -> Full<W> {
    Linear { world, eigen, inverse }
}

const GMS_SQRT: f64 = 0.017_202_098_949_957_225;

/// An Earth-like state.
fn test_state() -> State<Equatorial> {
    State::new(
        Desig::Name("Test".to_string()),
        Time::new(f(2451545.0)),
        vector(1.0, 0.0, 0.0),
        vector(0.0, 0.01720209895, 0.0),
        DynCenter(10),
    )
}

fn scaled_identity(n: usize, k: f64) -> Table {
    to_table(&(DMatrix::identity(n, n) * k))
}

fn fs(v: &[f64]) -> Vec<F64> {
    v.iter().map(|x| f(*x)).collect()
}

/// Standard normal draws.
fn draws(count: usize, dim: usize, seed: u64) -> Vec<Vec<F64>> {
    let mut rng = StdRng::seed_from_u64(seed);
    (0..count)
        .map(|_| (0..dim).map(|_| f(rng.sample::<f64, _>(StandardNormal))).collect())
        .collect()
}

/// Position and velocity in the equatorial frame.
fn place(elements: &CometElements) -> [f64; 6] {
    let m = elements.to_pos_vel(&sky()).unwrap();
    let p = to_equatorial(&ops(), constants(), m.pos).components().map(g);
    let v = to_equatorial(&ops(), constants(), m.vel).components().map(g);
    [p[0], p[1], p[2], v[0], v[1], v[2]]
}

fn jacobian_predicts_changes(elements: &CometElements) {
    let jac = cometary_to_cartesian_jacobian(&sky(), elements).unwrap();
    let nominal = place(elements);
    let perturbation = 1e-4;
    for col in 0..6 {
        let perturbed = perturb_element(&ops(), elements, col, f(perturbation));
        let there = place(&perturbed);
        for row in 0..6 {
            let predicted = g(jac.get(row, col)) * perturbation;
            let actual = there[row] - nominal[row];
            let err = (predicted - actual).abs();
            let tol = 0.01 * actual.abs() + 1e-14;
            assert!(
                err < tol,
                "Jacobian[{row},{col}]: predicted={predicted:.6e}, actual={actual:.6e}, err={err:.2e}"
            );
        }
    }
}

#[test]
fn test_new_validates_dimensions() {
    let state = test_state();
    let result = UncertainState::new(state.clone(), scaled_identity(6, 1e-8), vec![]);
    assert!(result.is_ok());

    // Wrong size should fail.
    let result = UncertainState::new(state, scaled_identity(7, 1e-8), vec![]);
    assert!(result.is_err());
}

#[test]
fn test_new_with_free_params_validates_dimensions() {
    let state = test_state();
    // 3 free params -> need 9x9.
    let params = fs(&[1e-8, 2e-8, 3e-8]);
    let result = UncertainState::new(state.clone(), scaled_identity(9, 1e-8), params.clone());
    assert!(result.is_ok());

    // 6x6 with 3 free params should fail.
    let result = UncertainState::new(state, scaled_identity(6, 1e-8), params);
    assert_eq!(
        result.err().unwrap(),
        Error::ValueError(ValueFault::CovarianceShape { size: 9, rows: 6, columns: 6 })
    );
}

#[test]
fn test_n_free_params() {
    let state = test_state();
    let us = UncertainState::new(state.clone(), scaled_identity(6, 1e-8), vec![]).unwrap();
    assert_eq!(us.n_free_params(), 0);

    let us = UncertainState::new(state, scaled_identity(9, 1e-8), fs(&[1.0, 2.0, 3.0])).unwrap();
    assert_eq!(us.n_free_params(), 3);
}

#[test]
fn test_sample_no_free_params() {
    let state = test_state();
    let us = UncertainState::new(state.clone(), scaled_identity(6, 1e-12), vec![]).unwrap();
    let samples = us.sample(&linear(ops()), &draws(100, 6, 42)).unwrap();
    assert_eq!(samples.len(), 100);
    for s in &samples {
        assert!(s.params.is_empty());
        // Samples should be close to nominal with tiny covariance.
        assert!((g(s.state.pos.x) - g(state.pos.x)).abs() < 1e-3);
    }
}

#[test]
fn test_sample_with_free_params() {
    let state = test_state();
    let nominal = [1e-8, 2e-8, 3e-8];
    let us = UncertainState::new(state, scaled_identity(9, 1e-16), fs(&nominal)).unwrap();
    let samples = us.sample(&linear(ops()), &draws(10, 9, 42)).unwrap();
    assert_eq!(samples.len(), 10);
    for s in &samples {
        assert_eq!(s.params.len(), 3);
        for (sampled, nominal) in s.params.iter().zip(nominal.iter()) {
            assert!((g(*sampled) - nominal).abs() < 1e-6);
        }
    }
}

#[test]
fn test_sample_zero_covariance_returns_nominal() {
    let state = test_state();
    let us = UncertainState::new(state.clone(), scaled_identity(6, 0.0), vec![]).unwrap();
    let samples = us.sample(&linear(ops()), &draws(5, 6, 42)).unwrap();
    assert_eq!(samples.len(), 5);
    // Every sample should equal the nominal state exactly.
    for s in &samples {
        assert_eq!(s.state.pos.components().map(g), state.pos.components().map(g));
        assert_eq!(s.state.vel.components().map(g), state.vel.components().map(g));
    }
}

#[test]
fn samples_follow_the_axes_of_the_covariance() {
    let state = test_state();
    let mut cov = DMatrix::zeros(7, 7);
    cov[(1, 1)] = 4.0;
    cov[(6, 6)] = 9.0;
    let us = UncertainState::new(state, to_table(&cov), fs(&[0.5])).unwrap();
    let draw = fs(&[1.0; 7]);
    let samples = us.sample(&linear(ops()), &vec![draw]).unwrap();
    assert_eq!((g(samples[0].state.pos.y)).abs(), 2.0);
    assert_eq!((g(samples[0].params[0]) - 0.5).abs(), 3.0);
    assert_eq!(g(samples[0].state.pos.x), 1.0);
}

#[test]
fn covariances_with_negative_directions_are_refused() {
    let mut cov = DMatrix::identity(6, 6);
    cov[(2, 2)] = -1.0;
    let us = UncertainState::new(test_state(), to_table(&cov), vec![]).unwrap();
    let r = us.sample(&linear(ops()), &draws(1, 6, 1));
    assert!(matches!(r.err().unwrap(), Error::ValueError(ValueFault::Indefinite)));
    // A negative eigenvalue of the size of rounding counts as zero.
    cov[(2, 2)] = -1e-16;
    let us = UncertainState::new(test_state(), to_table(&cov), vec![]).unwrap();
    let samples = us.sample(&linear(ops()), &draws(1, 6, 1)).unwrap();
    assert_eq!(g(samples[0].state.pos.z), 0.0);
}

fn test_elements() -> CometElements {
    let s = test_state();
    let c = constants();
    let ecliptic = s.into_frame(|v: Vector<Equatorial>| to_ecliptic(&ops(), c, v));
    CometElements::from_state(&ops(), c, &[], &ecliptic)
}

#[test]
fn test_from_cometary_round_trip() {
    let state_eq = test_state();
    let cov_elem = scaled_identity(6, 1e-20);
    let us = UncertainState::from_cometary(&sky(), &test_elements(), &cov_elem, vec![]).unwrap();
    let (got_pos, want_pos) = (us.state.pos.components(), state_eq.pos.components());
    let (got_vel, want_vel) = (us.state.vel.components(), state_eq.vel.components());
    for i in 0..3 {
        let (a, b) = (g(got_pos[i]), g(want_pos[i]));
        assert!((a - b).abs() < 1e-10, "pos[{i}] mismatch: {a} vs {b}");
        let (a, b) = (g(got_vel[i]), g(want_vel[i]));
        assert!((a - b).abs() < 1e-10, "vel[{i}] mismatch: {a} vs {b}");
    }
}

#[test]
fn test_from_cometary_with_free_params() {
    let cov_elem = scaled_identity(9, 1e-20);
    let params = fs(&[1e-8, 2e-8, 3e-8]);
    let us = UncertainState::from_cometary(&sky(), &test_elements(), &cov_elem, params).unwrap();
    assert_eq!(us.cov_matrix.nrows, 9);
    assert_eq!(us.cov_matrix.ncols, 9);
    assert_eq!(us.free_params.len(), 3);
    // The covariance of the parameters stays as it is.
    assert_eq!(g(us.cov_matrix.get(7, 7)), 1e-20);
}

#[test]
fn test_jacobian_accuracy() {
    jacobian_predicts_changes(&CometElements {
        desig: Desig::Empty,
        epoch: Time::new(f(2460000.5)),
        eccentricity: f(0.3),
        peri_dist: f(1.5),
        // 100 days before epoch
        peri_time: Time::new(f(2459900.5)),
        // 45 deg
        lon_of_ascending: f(std::f64::consts::FRAC_PI_4),
        // 60 deg
        peri_arg: f(std::f64::consts::FRAC_PI_3),
        inclination: f(20.0_f64.to_radians()),
        center_id: 10,
        gm_sqrt: f(GMS_SQRT),
    });
}

#[test]
fn test_jacobian_equatorial_orbit() {
    jacobian_predicts_changes(&CometElements {
        desig: Desig::Empty,
        epoch: Time::new(f(2460000.5)),
        eccentricity: f(0.05),
        peri_dist: f(1.0),
        peri_time: Time::new(f(2459950.5)),
        // nearly zero
        lon_of_ascending: f(1e-6),
        // nearly zero
        peri_arg: f(1e-6),
        // nearly equatorial
        inclination: f(1e-4),
        center_id: 10,
        gm_sqrt: f(GMS_SQRT),
    });
}
