//! Forces and their derivatives.
use kete::arithmetic::{Binary, Ops, Unary};
use kete::constants::Constants;
use kete::desig::Desig;
use kete::errors::{Error, IoFault, KeteResult, ValueFault};
use kete::float::{F32, F64};
use kete::forces::{
    AnalyticForce, DustNonGrav, Evaluate, FarnocchiaNonGrav, ForceFunction, ForceSet, FrozenForce,
    GravParams, JplCometNonGrav, NonGravKind, ParameterMask, ParameterizedForce, Registry, Sum,
    analytical_jacobians, known_masses, register_custom_mass, register_mass, registered_masses,
};
use kete::forces::gravity::{is_skipped, read_row};
use kete::forces::nongrav::{
    a_over_m_from_physical, density_from_a_over_m, lambda_0_from_physical,
    thermal_inertia_from_lambda_0,
};
use kete::forces::traits::{CompensatedVector, Jacobians};
use kete::frames::{Equatorial, InertialFrame, SunCenter, Vector};
use kete::matrix::Matrix3;
use kete::physics::{Motion, World};
use kete::time::Time;

fn f(x: f64) -> F64 {
    F64::from_bits(x.to_bits())
}

fn g(x: F64) -> f64 {
    f64::from_bits(x.to_bits())
}

fn binary(op: Binary, a: F64, b: F64) -> F64 {
    let (a, b) = (g(a), g(b));
    f(match op {
        Binary::Add => a + b,
        Binary::Subtract => a - b,
        Binary::Multiply => a * b,
        Binary::Divide => a / b,
        Binary::Power => a.powf(b),
        Binary::Atan2 => a.atan2(b),
        Binary::RemEuclid => a.rem_euclid(b),
    })
}

fn unary(op: Unary, a: F64) -> F64 {
    let a = g(a);
    f(match op {
        Unary::Sqrt => a.sqrt(),
        Unary::Sin => a.sin(),
        Unary::Cos => a.cos(),
        Unary::Tan => a.tan(),
        Unary::Acos => a.acos(),
        Unary::Atan => a.atan(),
        Unary::Sinh => a.sinh(),
        Unary::Cosh => a.cosh(),
        Unary::Acosh => a.acosh(),
        Unary::Ln => a.ln(),
        Unary::Cbrt => a.cbrt(),
        Unary::Asinh => a.asinh(),
        Unary::Cubed => a.powi(3),
        Unary::Squared => a.powi(2),
        Unary::InverseCube => a.powi(-3),
    })
}

fn integer(n: u64) -> F64 {
    f(n as f64)
}

type Plain = Ops<fn(Binary, F64, F64) -> F64, fn(Unary, F64) -> F64, fn(u64) -> F64>;

/// The arithmetic of the machine.
fn ops() -> Plain {
    Ops { binary, unary, integer }
}

const GMS: f64 = 0.000_295_912_208_284_119_56;

const PARABOLIC_LIMIT: f64 = 1e-3;

fn newton(value: impl Fn(f64) -> f64, slope: impl Fn(f64) -> f64, start: f64) -> f64 {
    let mut x = start;
    for _ in 0..200 {
        let step = value(x) / slope(x);
        x -= step;
        if step.abs() < 1e-15 * (1.0 + x.abs()) {
            break;
        }
    }
    x
}

fn eccentric(ecc: F64, mean_anomaly: F64, peri_dist: F64) -> KeteResult<F64> {
    let (e, m, q) = (g(ecc), g(mean_anomaly), g(peri_dist));
    if !e.is_finite() || e < 0.0 {
        return Err(Error::Bounds);
    }
    let x = if e < 1e-6 {
        m
    } else if e < 1.0 - PARABOLIC_LIMIT {
        let m = m.rem_euclid(std::f64::consts::TAU);
        let (mut low, mut high) = (0.0, std::f64::consts::TAU);
        for _ in 0..60 {
            let mid = 0.5 * (low + high);
            if mid - e * mid.sin() < m {
                low = mid;
            } else {
                high = mid;
            }
        }
        newton(|x| x - e * x.sin() - m, |x| 1.0 - e * x.cos(), 0.5 * (low + high))
    } else if e <= 1.0 + PARABOLIC_LIMIT {
        let w = 3.0 * m / (2.0 * q).powf(1.5);
        let y = (w.abs() + (w * w + 1.0).sqrt()).cbrt();
        (2.0 * q).sqrt() * (y - 1.0 / y) * w.signum()
    } else {
        newton(|x| e * x.sinh() - x - m, |x| e * x.cosh() - 1.0, (m / e).asinh())
    };
    Ok(f(x))
}

fn true_angle(ecc: F64, mean_anomaly: F64, peri_dist: F64) -> KeteResult<F64> {
    let e = g(ecc);
    let x = g(eccentric(ecc, mean_anomaly, peri_dist)?);
    let angle = if (e - 1.0).abs() <= PARABOLIC_LIMIT {
        2.0 * (x / (2.0 * g(peri_dist)).sqrt()).atan()
    } else if e < 1.0 {
        2.0 * (((1.0 + e) / (1.0 - e)).sqrt() * (0.5 * x).tan()).atan()
    } else {
        2.0 * (((1.0 + e) / (e - 1.0)).sqrt() * (0.5 * x).tanh()).atan()
    };
    Ok(f(angle.rem_euclid(std::f64::consts::TAU)))
}

fn dot(a: [f64; 3], b: [f64; 3]) -> f64 {
    a[0] * b[0] + a[1] * b[1] + a[2] * b[2]
}

/// Where an object on an ellipse is some days later.
fn two_body_ellipse(days: f64, pos: [f64; 3], vel: [f64; 3]) -> ([f64; 3], [f64; 3]) {
    let r0 = dot(pos, pos).sqrt();
    let a = 1.0 / (2.0 / r0 - dot(vel, vel) / GMS);
    let n = (GMS / a.powi(3)).sqrt();
    let c0 = 1.0 - r0 / a;
    let s0 = dot(pos, vel) / (GMS * a).sqrt();
    let turns = (n * days).rem_euclid(std::f64::consts::TAU);
    let x = newton(
        |x| x - c0 * x.sin() + s0 * (1.0 - x.cos()) - turns,
        |x| 1.0 - c0 * x.cos() + s0 * x.sin(),
        turns,
    );
    let r = a * (1.0 - c0 * x.cos() + s0 * x.sin());
    let ff = 1.0 - a / r0 * (1.0 - x.cos());
    let gg = (a.powi(3) / GMS).sqrt() * (x.sin() - c0 * x.sin() + s0 * (1.0 - x.cos()));
    let fd = -(GMS * a).sqrt() / (r * r0) * x.sin();
    let gd = 1.0 - a / r * (1.0 - x.cos());
    let mut p = [0.0; 3];
    let mut v = [0.0; 3];
    for i in 0..3 {
        p[i] = ff * pos[i] + gg * vel[i];
        v[i] = fd * pos[i] + gd * vel[i];
    }
    (p, v)
}

fn two_body(days: F64, at: Motion<Equatorial>) -> KeteResult<Motion<Equatorial>> {
    let pos = [g(at.pos.x), g(at.pos.y), g(at.pos.z)];
    let vel = [g(at.vel.x), g(at.vel.y), g(at.vel.z)];
    let (p, v) = two_body_ellipse(g(days), pos, vel);
    Ok(Motion { pos: vector(p[0], p[1], p[2]), vel: vector(v[0], v[1], v[2]) })
}

fn vector<T: InertialFrame>(x: f64, y: f64, z: f64) -> Vector<T> {
    Vector::new([f(x), f(y), f(z)])
}

fn constants() -> Constants {
    let obliquity = (84_381.448_f64 / 3600.0).to_radians();
    let (s, c) = (obliquity.sin(), obliquity.cos());
    Constants {
        gms: f(GMS),
        gms_sqrt: f(GMS.sqrt()),
        c_inv_squared: f(173.144_632_674_24_f64.powi(-2)),
        sun_j2: f(2.110_608_853_272_684e-7),
        jupiter_j2: f(0.014_695_72),
        earth_j2: f(1.082_625_39e-3),
        f0_over_c: f(1.0e-5),
        solar_flux: f(1360.8),
        stefan_boltzmann: f(5.670_374_419e-8),
        parabolic_limit: f(PARABOLIC_LIMIT),
        pi: f(std::f64::consts::PI),
        ecliptic: Matrix3 {
            x: vector(1.0, 0.0, 0.0),
            y: vector(0.0, c, -s),
            z: vector(0.0, s, c),
        },
    }
}

type Sky = World<
    Plain,
    fn(F64, Motion<Equatorial>) -> KeteResult<Motion<Equatorial>>,
    fn(F64, F64, F64) -> KeteResult<F64>,
    fn(F64, F64, F64) -> KeteResult<F64>,
>;

/// The arithmetic of the machine with the constants of nature.
fn sky() -> Sky {
    World { ops: ops(), constants: constants(), two_body, eccentric, true_angle }
}

/// A force which is the same everywhere.
fn constant(
    x: f64,
    y: f64,
    z: f64,
) -> ForceFunction<
    Equatorial,
    SunCenter,
    impl Fn(Time, Vector<Equatorial>, Vector<Equatorial>, &[F64]) -> KeteResult<Vector<Equatorial>>,
    impl Fn(Time, Vector<Equatorial>, Vector<Equatorial>, &[F64])
        -> KeteResult<Jacobians<Equatorial>>,
    impl Fn(Time, Vector<Equatorial>, Vector<Equatorial>, &[F64])
        -> KeteResult<Vec<Vector<Equatorial>>>,
> {
    ForceFunction::new(
        vec![],
        vec![],
        move |_: Time, _: Vector<Equatorial>, _: Vector<Equatorial>, _: &[F64]| Ok(vector(x, y, z)),
        |_: Time, _: Vector<Equatorial>, _: Vector<Equatorial>, _: &[F64]| {
            Ok(Jacobians { pos: Matrix3::zeros(), vel: Matrix3::zeros() })
        },
        |_: Time, _: Vector<Equatorial>, _: Vector<Equatorial>, _: &[F64]| Ok(vec![]),
    )
}

fn pos() -> Vector<Equatorial> {
    vector(1.5, 0.3, 0.1)
}

fn vel() -> Vector<Equatorial> {
    vector(-0.005, 0.012, 0.001)
}

fn epoch() -> Time {
    Time::new(f(2_451_545.0))
}

fn three(v: Vector<Equatorial>) -> [f64; 3] {
    v.components().map(g)
}

fn apart(a: Vector<Equatorial>, b: Vector<Equatorial>) -> f64 {
    let (a, b) = (three(a), three(b));
    let d = [a[0] - b[0], a[1] - b[1], a[2] - b[2]];
    dot(d, d).sqrt()
}

#[test]
fn partial_freeze_a1_only() {
    let inner = JplCometNonGrav::standard_comet();
    let mask = vec![None, Some(f(2.0e-9)), Some(f(-3.0e-10))];
    let masked = ParameterMask::new(inner, mask).unwrap();
    assert_eq!(masked.n_free_params(), 1);
    assert_eq!(masked.free_param_names(), vec!["a1"]);
}

#[test]
fn partial_freeze_accel_matches_full_call() {
    let inner = JplCometNonGrav::standard_comet();
    let mask = vec![None, Some(f(2.0e-9)), Some(f(-3.0e-10))];
    let masked = ParameterMask::new(inner, mask).unwrap();
    let a_through = masked.accel(&sky(), epoch(), pos(), vel(), &[f(1.0e-8)]).unwrap();
    let a_direct = inner
        .accel(&sky(), epoch(), pos(), vel(), &[f(1.0e-8), f(2.0e-9), f(-3.0e-10)])
        .unwrap();
    assert!(apart(a_through, a_direct) < 1e-15);
    assert!(apart(a_direct, vector(0.0, 0.0, 0.0)) > 1e-12);
}

#[test]
fn partial_freeze_parameter_jacobian_projects_columns() {
    let inner = JplCometNonGrav::standard_comet();
    let mask = vec![None, Some(f(2.0e-9)), Some(f(-3.0e-10))];
    let full = [f(1.0e-8), f(2.0e-9), f(-3.0e-10)];
    let inner_jac = inner.parameter_jacobian(&sky(), epoch(), pos(), vel(), &full).unwrap();
    let masked = ParameterMask::new(inner, mask).unwrap();
    let masked_jac =
        masked.parameter_jacobian(&sky(), epoch(), pos(), vel(), &[f(1.0e-8)]).unwrap();

    assert_eq!(masked_jac.len(), 1);
    // The single masked column equals inner column 0 (a1).
    for row in 0..3 {
        let diff = (three(masked_jac[0])[row] - three(inner_jac[0])[row]).abs();
        assert!(diff < 1e-15, "row {row} diff = {diff}");
    }
}

#[test]
fn mask_length_mismatch_errors() {
    let res = ParameterMask::new(JplCometNonGrav::standard_comet(), vec![None, None]);
    assert!(res.is_err());
}

#[test]
fn a_mask_gives_back_what_it_holds_and_what_it_is_given() {
    let mask = vec![Some(f(7.0)), None, Some(f(8.0))];
    let masked = ParameterMask::new(JplCometNonGrav::standard_comet(), mask).unwrap();
    let full = masked.merge(&[f(1.0)]).unwrap();
    assert_eq!(full.iter().map(|x| g(*x)).collect::<Vec<_>>(), vec![7.0, 1.0, 8.0]);
    assert_eq!(
        masked.merge(&[f(1.0), f(2.0)]).unwrap_err(),
        Error::ValueError(ValueFault::ParamCount { needed: 1, given: 2 })
    );
    let open = ParameterMask::new(DustNonGrav, vec![None]).unwrap();
    assert_eq!(g(open.merge(&[f(0.25)]).unwrap()[0]), 0.25);
    assert_eq!(open.lower_bounds().len(), 1);
    assert_eq!(g(DustNonGrav.lower_bounds()[0].unwrap()), 0.0);
}

#[test]
fn frozen_forces_look_at_no_parameters() {
    let frozen = FrozenForce::new(DustNonGrav, vec![f(0.1)]).unwrap();
    assert_eq!(frozen.n_free_params(), 0);
    let held = frozen.accel(&sky(), epoch(), pos(), vel(), &[]).unwrap();
    let free = DustNonGrav.accel(&sky(), epoch(), pos(), vel(), &[f(0.1)]).unwrap();
    assert_eq!(three(held), three(free));
    assert!(matches!(
        FrozenForce::new(DustNonGrav, vec![]),
        Err(Error::ValueError(ValueFault::ParamCount { needed: 1, given: 0 }))
    ));
}

#[test]
fn empty_force_set_returns_zero() {
    let set: ForceSet<NonGravKind> = ForceSet::new();
    let a = set
        .accel(&sky(), Time::new(f(0.0)), vector(1.0, 0.0, 0.0), vector(0.0, 1.0, 0.0), &[])
        .unwrap();
    assert_eq!(three(a), [0.0, 0.0, 0.0]);
    assert_eq!(set.n_free_params(), 0);
    assert!(set.free_param_names().is_empty());
}

#[test]
fn force_set_sums_constant_forces() {
    let set = ForceSet::new()
        .with(constant(1.0, 0.0, 0.0))
        .with(constant(0.0, 2.0, 0.0))
        .with(constant(0.0, 0.0, 3.0));
    let a = set
        .accel(&ops(), Time::new(f(0.0)), vector(1.0, 0.0, 0.0), vector(0.0, 1.0, 0.0), &[])
        .unwrap();
    assert_eq!(three(a), [1.0, 2.0, 3.0]);
}

#[test]
fn neumaier_recovers_precision_for_disparate_terms() {
    let large = 1.0;
    let small = 1.0e-16;
    let n = 1_000_000;

    let mut naive_sum = large;
    for _ in 0..n {
        naive_sum += small;
    }

    let o = ops();
    let mut sum = CompensatedVector::zero();
    sum.neumaier_add(&o, vector::<Equatorial>(large, 0.0, 0.0));
    for _ in 0..n {
        sum.neumaier_add(&o, vector::<Equatorial>(small, 0.0, 0.0));
    }
    let compensated: Vector<Equatorial> = sum.value(&o);

    let expected = large + f64::from(n) * small;
    let naive_err = (naive_sum - expected).abs();
    let comp_err = (g(compensated.x) - expected).abs();
    assert!(comp_err < naive_err * 1e-6, "comp_err={comp_err}, naive_err={naive_err}");
}

#[test]
fn sum_adds_two_constant_forces() {
    let combo = Sum::new(
        constant(1.0, 0.0, 0.0),
        constant(0.0, 2.0, 0.0),
    );
    let a = combo
        .accel(&ops(), Time::new(f(0.0)), vector(1.0, 0.0, 0.0), vector(0.0, 1.0, 0.0), &[])
        .unwrap();
    assert_eq!(three(a), [1.0, 2.0, 0.0]);
}

#[test]
fn parameters_of_a_sum_follow_one_another() {
    let sum = Sum::new(DustNonGrav, JplCometNonGrav::standard_comet());
    assert_eq!(sum.n_free_params(), 4);
    assert_eq!(sum.free_param_names(), vec!["beta", "a1", "a2", "a3"]);
    let params = [f(0.1), f(1e-8), f(2e-9), f(0.0)];
    let both = sum.accel(&sky(), epoch(), pos(), vel(), &params).unwrap();
    let a = three(DustNonGrav.accel(&sky(), epoch(), pos(), vel(), &params[..1]).unwrap());
    let comet = JplCometNonGrav::standard_comet();
    let b = three(comet.accel(&sky(), epoch(), pos(), vel(), &params[1..]).unwrap());
    assert_eq!(three(both), [a[0] + b[0], a[1] + b[1], a[2] + b[2]]);
    assert_eq!(
        sum.accel(&sky(), epoch(), pos(), vel(), &params[..2]).unwrap_err(),
        Error::ValueError(ValueFault::ParamCount { needed: 4, given: 2 })
    );
    let set = ForceSet::new().with(DustNonGrav).with(DustNonGrav);
    assert_eq!(set.free_param_names(), vec!["beta", "beta"]);
    assert_eq!(
        set.accel(&sky(), epoch(), pos(), vel(), &[f(0.1)]).unwrap_err(),
        Error::ValueError(ValueFault::ParamCount { needed: 2, given: 1 })
    );
    let none = Error::ValueError(ValueFault::ParamCount { needed: 2, given: 0 });
    assert_eq!(set.accel(&sky(), epoch(), pos(), vel(), &[]).unwrap_err(), none);
    assert!(set.jacobians(&sky(), epoch(), pos(), vel(), &[]).is_err());
    assert!(set.parameter_jacobian(&sky(), epoch(), pos(), vel(), &[]).is_err());
    let columns =
        set.parameter_jacobian(&sky(), epoch(), pos(), vel(), &[f(0.1), f(0.2)]).unwrap();
    assert_eq!(columns.len(), 2);
    assert_eq!(three(columns[0]), three(columns[1]));
}

#[test]
fn sunlight_pushes_dust_away_from_the_sun() {
    let (beta, r) = (0.1, 2.0);
    let at_rest = vector(0.0, 0.0, 0.0);
    let a = DustNonGrav
        .accel(&sky(), epoch(), vector(r, 0.0, 0.0), at_rest, &[f(beta)])
        .unwrap();
    assert!((g(a.x) - GMS * beta / (r * r)).abs() < 1e-18);
    assert_eq!(g(a.y), 0.0);
    let columns = DustNonGrav
        .parameter_jacobian(&sky(), epoch(), vector(r, 0.0, 0.0), at_rest, &[f(beta)])
        .unwrap();
    assert!((g(columns[0].x) - GMS / (r * r)).abs() < 1e-18);
}

fn rows(m: Matrix3<Equatorial>) -> [[f64; 3]; 3] {
    [three(m.x), three(m.y), three(m.z)]
}

#[test]
fn derivatives_of_dust_match_differences() {
    let params = [f(0.3)];
    let jac = DustNonGrav.jacobians(&sky(), epoch(), pos(), vel(), &params).unwrap();
    let (dp, dv) = (rows(jac.pos), rows(jac.vel));
    let (p, v) = (three(pos()), three(vel()));
    for k in 0..3 {
        let h = 1e-6;
        let push = |sign: f64, by_pos: bool| {
            let (mut p, mut v) = (p, v);
            if by_pos {
                p[k] += sign * h;
            } else {
                v[k] += sign * h;
            }
            let at = vector(p[0], p[1], p[2]);
            let moving = vector(v[0], v[1], v[2]);
            three(DustNonGrav.accel(&sky(), epoch(), at, moving, &params).unwrap())
        };
        let (a, b) = (push(1.0, true), push(-1.0, true));
        let (c, d) = (push(1.0, false), push(-1.0, false));
        for row in 0..3 {
            assert!((dp[row][k] - (a[row] - b[row]) / (2.0 * h)).abs() < 1e-9);
            assert!((dv[row][k] - (c[row] - d[row]) / (2.0 * h)).abs() < 1e-9);
        }
    }
}

#[test]
fn surfaces_of_oblate_bodies_are_checked() {
    let pole = vector(0.0, 0.0, 2.0);
    let new = |albedo: f64, absorptivity: f64, flattening: f64, pole: Vector<Equatorial>| {
        FarnocchiaNonGrav::new(&ops(), f(albedo), f(absorptivity), f(flattening), pole)
    };
    let fault = |r: KeteResult<FarnocchiaNonGrav>| match r {
        Err(Error::ValueError(fault)) => fault,
        other => panic!("{other:?}"),
    };
    assert_eq!(fault(new(-0.1, 0.9, 0.5, pole)), ValueFault::BadAlbedo);
    assert_eq!(fault(new(0.1, f64::NAN, 0.5, pole)), ValueFault::BadAbsorptivity);
    assert_eq!(fault(new(0.1, 0.9, -0.5, pole)), ValueFault::BadFlattening);
    assert_eq!(fault(new(0.1, 0.9, 1.5, pole)), ValueFault::FlatteningAboveOne);
    assert_eq!(fault(new(0.1, 0.9, 0.5, vector(0.0, 0.0, 0.0))), ValueFault::BadSpinPole);
    let body = new(0.1, 0.9, 0.5, pole).unwrap();
    assert_eq!(three(body.spin_pole), [0.0, 0.0, 1.0]);
    assert_eq!(body.free_param_names(), vec!["a_over_m", "lambda_0"]);
    let a = body.accel(&sky(), epoch(), pos(), vel(), &[f(1e-3), f(0.0)]).unwrap();
    assert!(dot(three(a), three(pos())) > 0.0);
}

#[test]
fn physical_properties_are_found_again() {
    let o = ops();
    let a_over_m = a_over_m_from_physical(&o, f(2000.0), f(300.0), f(0.8));
    let density = density_from_a_over_m(&o, a_over_m, f(300.0), f(0.8));
    assert!((g(density) - 2000.0).abs() < 1e-9);
    let c = constants();
    let lambda = lambda_0_from_physical(&o, c, f(200.0), f(0.9), f(0.95), f(0.8), f(5.0));
    let inertia = thermal_inertia_from_lambda_0(&o, c, lambda, f(0.9), f(0.95), f(0.8), f(5.0));
    assert!((g(inertia) - 200.0).abs() < 1e-9);
}

#[test]
fn physical_properties_lead_to_the_parameters_again() {
    let o = ops();
    let density = density_from_a_over_m(&o, f(1e-6), f(300.0), f(0.8));
    let a_over_m = a_over_m_from_physical(&o, density, f(300.0), f(0.8));
    assert!((g(a_over_m) - 1e-6).abs() < 1e-20);
    let c = constants();
    let inertia = thermal_inertia_from_lambda_0(&o, c, f(1.5), f(0.9), f(0.95), f(0.8), f(5.0));
    let lambda = lambda_0_from_physical(&o, c, inertia, f(0.9), f(0.95), f(0.8), f(5.0));
    assert!((g(lambda) - 1.5).abs() < 1e-14);
}

fn body(naif_id: i32, mass: f64) -> GravParams {
    GravParams { naif_id, mass: f(mass), radius: F32 { bits: 4.0e-5_f32.to_bits() } }
}

#[test]
fn a_distant_body_pulls_like_a_point() {
    let mut a = vector(1.0, 2.0, 3.0);
    body(4, 1e-6).add_acceleration(
        &ops(),
        constants(),
        &mut a,
        vector(2.0, 0.0, 0.0),
        vector(0.0, 0.0, 0.0),
    );
    assert_eq!(three(a), [1.0 - 2.0 * (1e-6 * 2.0_f64.powi(-3)), 2.0, 3.0]);
}

#[test]
fn derivatives_of_gravity_match_differences() {
    let bodies = [body(10, GMS), body(5, 2.8e-7), body(399, 8.9e-10)];
    let places = [
        Motion { pos: vector(0.01, 0.0, 0.0), vel: vector(0.0, 1e-5, 0.0) },
        Motion { pos: vector(4.0, 3.0, 0.5), vel: vector(-0.004, 0.006, 0.0) },
        Motion { pos: vector(0.0, 1.0, 0.0), vel: vector(-0.017, 0.0, 0.0) },
    ];
    let c = constants();
    let pull = |p: [f64; 3], v: [f64; 3]| {
        let mut a = vector(0.0, 0.0, 0.0);
        for (body, at) in bodies.iter().zip(places.iter()) {
            let (q, w) = (three(at.pos), three(at.vel));
            body.add_acceleration(
                &ops(),
                c,
                &mut a,
                vector(p[0] - q[0], p[1] - q[1], p[2] - q[2]),
                vector(v[0] - w[0], v[1] - w[1], v[2] - w[2]),
            );
        }
        three(a)
    };
    let jac = analytical_jacobians(&ops(), c, pos(), vel(), &places, &bodies);
    let (dp, dv) = (rows(jac.pos), rows(jac.vel));
    let (p, v) = (three(pos()), three(vel()));
    for k in 0..3 {
        let h = 1e-5;
        let mut ahead = p;
        ahead[k] += h;
        let mut behind = p;
        behind[k] -= h;
        let (a, b) = (pull(ahead, v), pull(behind, v));
        let mut faster = v;
        faster[k] += h;
        let mut slower = v;
        slower[k] -= h;
        let (x, y) = (pull(p, faster), pull(p, slower));
        for row in 0..3 {
            let by_pos = (a[row] - b[row]) / (2.0 * h);
            let by_vel = (x[row] - y[row]) / (2.0 * h);
            assert!((dp[row][k] - by_pos).abs() < 1e-12, "{} {by_pos}", dp[row][k]);
            assert!((dv[row][k] - by_vel).abs() < 1e-14, "{} {by_vel}", dv[row][k]);
        }
    }
    let none = analytical_jacobians(&ops(), c, pos(), vel(), &[], &bodies);
    assert_eq!(rows(none.pos), [[0.0; 3]; 3]);
}

#[test]
fn bodies_are_registered_once_and_in_the_order_of_their_masses() {
    let known = [body(10, GMS), body(399, 8.9e-10), body(301, 1.1e-11), body(77, 1e-20)];
    let mut registry = Registry::new(&known);
    let ids = |r: &Registry| -> Vec<i32> { r.selected.iter().map(|b| b.naif_id).collect() };
    assert_eq!(ids(&registry), vec![301, 399, 10]);
    register_mass(&mut registry, &known, 77).unwrap();
    assert_eq!(ids(&registry), vec![77, 301, 399, 10]);
    register_mass(&mut registry, &known, 77).unwrap();
    assert_eq!(ids(&registry), vec![77, 301, 399, 10]);
    assert_eq!(
        register_mass(&mut registry, &known, 78).unwrap_err(),
        Error::ValueError(ValueFault::UnknownMass(78))
    );
    register_custom_mass(
        &ops(),
        constants(),
        &mut registry,
        1000,
        f(0.5),
        F32 { bits: 0 },
    );
    assert_eq!(ids(&registry), vec![77, 301, 399, 1000, 10]);
    assert_eq!(g(registry.selected[3].mass), 0.5 * GMS);
    let listed = registered_masses(&ops(), constants(), &registry);
    assert_eq!(listed[4].desig, Desig::Naif(10));
    assert_eq!(g(listed[4].mass), 1.0);
    let planets: Vec<i32> = GravParams::planets(&known).iter().map(|b| b.naif_id).collect();
    assert_eq!(planets, vec![10, 399, 301]);
    let simple = GravParams::simplified_planets(&known);
    assert_eq!(simple.len(), 1);
    assert_eq!(known_masses(&ops(), constants(), &known).len(), 4);
}

#[test]
fn rows_of_masses_are_read() {
    let row = read_row("  399\t3.0e-6  4.2e-5 extra").unwrap();
    assert_eq!((row.naif_id, row.mass, row.radius), ("399", "3.0e-6", Some("4.2e-5")));
    let short = read_row("10 1.0").unwrap();
    assert_eq!(short.radius, None);
    assert_eq!(read_row("10").unwrap_err(), Error::IOError(IoFault::BadMassRow));
    assert!(is_skipped("# comment"));
    assert!(is_skipped("   "));
    assert!(!is_skipped("10 1.0"));
    let of = GravParams::of_row(&ops(), constants(), 10, f(2.0), None);
    assert_eq!(g(of.mass), 2.0 * GMS);
    assert!((f32::from_bits(of.radius.bits) - 6.684_587e-10).abs() < 1e-15);
}

fn far(a: Vector<Equatorial>, b: Vector<Equatorial>, size: f64) -> bool {
    three(a).iter().zip(three(b)).any(|(x, y)| (x - y).abs() > 1e-6 * size)
}

#[test]
fn every_kind_has_derivatives() {
    // Dust has its own formulas.
    let dust = NonGravKind::from(DustNonGrav);
    let at = (epoch(), pos(), vel());
    let j = dust.jacobians(&sky(), at.0, at.1, at.2, &[f(0.1)]).unwrap();
    let own = DustNonGrav.jacobians(&sky(), at.0, at.1, at.2, &[f(0.1)]).unwrap();
    assert_eq!(three(j.pos.x), three(own.pos.x));
    assert_eq!(three(j.vel.z), three(own.vel.z));
    // The push of a comet grows with each of its parameters.
    let comet = NonGravKind::from(JplCometNonGrav::standard_comet());
    let params = [f(1.0e-8), f(2.0e-9), f(-3.0e-10)];
    let columns = comet.parameter_jacobian(&sky(), at.0, at.1, at.2, &params).unwrap();
    assert_eq!(columns.len(), 3);
    for k in 0..3 {
        let mut one = [f(0.0); 3];
        one[k] = f(1.0);
        let push = comet.accel(&sky(), at.0, at.1, at.2, &one).unwrap();
        assert!(!far(columns[k], push, apart(push, vector(0.0, 0.0, 0.0))));
    }
    // The slope along the first axis, from two points which are further apart.
    let j = comet.jacobians(&sky(), at.0, at.1, at.2, &params).unwrap();
    let (x, y, z) = (1.5, 0.3, 0.1);
    let ahead = comet.accel(&sky(), at.0, vector(x + 1e-4, y, z), at.2, &params).unwrap();
    let behind = comet.accel(&sky(), at.0, vector(x - 1e-4, y, z), at.2, &params).unwrap();
    let slope = (g(ahead.x) - g(behind.x)) / 2e-4;
    assert!((g(j.pos.x.x) - slope).abs() < 1e-4 * slope.abs());
}
