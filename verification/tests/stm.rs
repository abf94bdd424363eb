//! Motion with its derivatives.
use kete::arithmetic::{Binary, Ops, Unary};
use kete::errors::{Error, KeteResult, ValueFault};
use kete::float::F64;
use kete::forces::ForceFunction;
use kete::forces::traits::Jacobians;
use kete::frames::{Equatorial, InertialFrame, SunCenter, Vector};
use kete::matrix::Matrix3;
use kete::physics::Motion;
use kete::state::{covariance_update, propagate_with_covariance, propagate_with_stm};
use kete::state::stm::{Stm, propagate_state};
use kete::table::Table;
use kete::time::Time;

fn f(x: f64) -> F64 {
    F64::from_bits(x.to_bits())
}

fn g(x: F64) -> f64 {
    f64::from_bits(x.to_bits())
}

fn binary(op: Binary, a: F64, b: F64) -> F64 {
    let (a, b) = (g(a), g(b));
    f(match op {
        Binary::Add => a + b,
        Binary::Subtract => a - b,
        Binary::Multiply => a * b,
        Binary::Divide => a / b,
        Binary::Power => a.powf(b),
        Binary::Atan2 => a.atan2(b),
        Binary::RemEuclid => a.rem_euclid(b),
    })
}

fn unary(op: Unary, a: F64) -> F64 {
    let a = g(a);
    f(match op {
        Unary::Sqrt => a.sqrt(),
        Unary::Sin => a.sin(),
        Unary::Cos => a.cos(),
        Unary::Tan => a.tan(),
        Unary::Acos => a.acos(),
        Unary::Atan => a.atan(),
        Unary::Sinh => a.sinh(),
        Unary::Cosh => a.cosh(),
        Unary::Acosh => a.acosh(),
        Unary::Ln => a.ln(),
        Unary::Cbrt => a.cbrt(),
        Unary::Asinh => a.asinh(),
        Unary::Cubed => a.powi(3),
        Unary::Squared => a.powi(2),
        Unary::InverseCube => a.powi(-3),
    })
}

fn integer(n: u64) -> F64 {
    f(n as f64)
}

type Plain = Ops<fn(Binary, F64, F64) -> F64, fn(Unary, F64) -> F64, fn(u64) -> F64>;

/// The arithmetic of the machine.
fn ops() -> Plain {
    Ops { binary, unary, integer }
}

const GMS: f64 = 0.000_295_912_208_284_119_56;

fn vector<T: InertialFrame>(x: f64, y: f64, z: f64) -> Vector<T> {
    Vector::new([f(x), f(y), f(z)])
}

fn newton(value: impl Fn(f64) -> f64, slope: impl Fn(f64) -> f64, start: f64) -> f64 {
    let mut x = start;
    for _ in 0..200 {
        let step = value(x) / slope(x);
        x -= step;
        if step.abs() < 1e-15 * (1.0 + x.abs()) {
            break;
        }
    }
    x
}

fn dot(a: [f64; 3], b: [f64; 3]) -> f64 {
    a[0] * b[0] + a[1] * b[1] + a[2] * b[2]
}

/// Where an object on an ellipse is some days later.
fn two_body_ellipse(days: f64, pos: [f64; 3], vel: [f64; 3]) -> ([f64; 3], [f64; 3]) {
    let r0 = dot(pos, pos).sqrt();
    let a = 1.0 / (2.0 / r0 - dot(vel, vel) / GMS);
    let n = (GMS / a.powi(3)).sqrt();
    let c0 = 1.0 - r0 / a;
    let s0 = dot(pos, vel) / (GMS * a).sqrt();
    let turns = (n * days).rem_euclid(std::f64::consts::TAU);
    let x = newton(
        |x| x - c0 * x.sin() + s0 * (1.0 - x.cos()) - turns,
        |x| 1.0 - c0 * x.cos() + s0 * x.sin(),
        turns,
    );
    let r = a * (1.0 - c0 * x.cos() + s0 * x.sin());
    let ff = 1.0 - a / r0 * (1.0 - x.cos());
    let gg = (a.powi(3) / GMS).sqrt() * (x.sin() - c0 * x.sin() + s0 * (1.0 - x.cos()));
    let fd = -(GMS * a).sqrt() / (r * r0) * x.sin();
    let gd = 1.0 - a / r * (1.0 - x.cos());
    let mut p = [0.0; 3];
    let mut v = [0.0; 3];
    for i in 0..3 {
        p[i] = ff * pos[i] + gg * vel[i];
        v[i] = fd * pos[i] + gd * vel[i];
    }
    (p, v)
}

/// A function of time, position, velocity and parameters.
type Given<R> = fn(Time, Vector<Equatorial>, Vector<Equatorial>, &[F64]) -> KeteResult<R>;

/// The force of three such functions.
type Force = ForceFunction<
    Equatorial,
    SunCenter,
    Given<Vector<Equatorial>>,
    Given<Jacobians<Equatorial>>,
    Given<Vec<Vector<Equatorial>>>,
>;

fn pull(gm: f64, pos: Vector<Equatorial>) -> Vector<Equatorial> {
    let p = pos.components().map(g);
    let r3 = dot(p, p).sqrt().powi(3);
    vector(-p[0] * (gm / r3), -p[1] * (gm / r3), -p[2] * (gm / r3))
}

fn pull_jacobians(gm: f64, pos: Vector<Equatorial>) -> Jacobians<Equatorial> {
    let p = pos.components().map(g);
    let r2 = dot(p, p);
    let r5 = r2 * r2 * r2.sqrt();
    let row = |i: usize| {
        let cell = |j: usize| {
            let same = if i == j { r2 } else { 0.0 };
            (3.0 * p[i] * p[j] - same) * (gm / r5)
        };
        vector(cell(0), cell(1), cell(2))
    };
    Jacobians { pos: Matrix3 { x: row(0), y: row(1), z: row(2) }, vel: Matrix3::zeros() }
}

fn two_body_accel(
    _: Time,
    pos: Vector<Equatorial>,
    _: Vector<Equatorial>,
    _: &[F64],
) -> KeteResult<Vector<Equatorial>> {
    Ok(pull(GMS, pos))
}

fn two_body_jacobians(
    _: Time,
    pos: Vector<Equatorial>,
    _: Vector<Equatorial>,
    _: &[F64],
) -> KeteResult<Jacobians<Equatorial>> {
    Ok(pull_jacobians(GMS, pos))
}

fn no_partials(
    _: Time,
    _: Vector<Equatorial>,
    _: Vector<Equatorial>,
    _: &[F64],
) -> KeteResult<Vec<Vector<Equatorial>>> {
    Ok(vec![])
}

/// The pull of the Sun, without free parameters.
fn two_body_force() -> Force {
    ForceFunction::new(vec![], vec![], two_body_accel, two_body_jacobians, no_partials)
}

fn parametric_accel(
    _: Time,
    pos: Vector<Equatorial>,
    _: Vector<Equatorial>,
    params: &[F64],
) -> KeteResult<Vector<Equatorial>> {
    Ok(pull(g(params[0]), pos))
}

fn parametric_jacobians(
    _: Time,
    pos: Vector<Equatorial>,
    _: Vector<Equatorial>,
    params: &[F64],
) -> KeteResult<Jacobians<Equatorial>> {
    Ok(pull_jacobians(g(params[0]), pos))
}

fn parametric_partials(
    _: Time,
    pos: Vector<Equatorial>,
    _: Vector<Equatorial>,
    _: &[F64],
) -> KeteResult<Vec<Vector<Equatorial>>> {
    Ok(vec![pull(1.0, pos)])
}

/// The pull of a central body whose mass is free.
fn two_body_parametric() -> Force {
    ForceFunction::new(
        vec!["gm"],
        vec![None],
        parametric_accel,
        parametric_jacobians,
        parametric_partials,
    )
}

const MANY: u64 = 100_000;

fn time(jd: f64) -> Time {
    Time::new(f(jd))
}

fn circular() -> Motion<Equatorial> {
    Motion { pos: vector(1.0, 0.0, 0.0), vel: vector(0.0, GMS.sqrt(), 0.0) }
}

fn stm(force: &Force, from: Motion<Equatorial>, params: Vec<F64>, days: f64) -> Stm<Equatorial> {
    propagate_with_stm(&ops(), force, from, &params, time(0.0), time(days), MANY)
        .unwrap()
        .unwrap()
}

fn numbers(v: Vector<Equatorial>) -> [f64; 3] {
    v.components().map(g)
}

fn norm(v: Vector<Equatorial>) -> f64 {
    dot(numbers(v), numbers(v)).sqrt()
}

fn determinant(t: &Table, at: usize) -> f64 {
    let c = |i: usize, j: usize| g(t.get(at + i, at + j));
    c(0, 0) * (c(1, 1) * c(2, 2) - c(1, 2) * c(2, 1))
        - c(0, 1) * (c(1, 0) * c(2, 2) - c(1, 2) * c(2, 0))
        + c(0, 2) * (c(1, 0) * c(2, 1) - c(1, 1) * c(2, 0))
}

fn table(n: usize, m: usize, cell: impl Fn(usize, usize) -> f64) -> Table {
    Table {
        nrows: n,
        ncols: m,
        cells: (0..n).map(|i| (0..m).map(|j| f(cell(i, j))).collect()).collect(),
    }
}

#[test]
fn stm_two_body_circular_short_arc() {
    let v_circ = GMS.sqrt();
    let end = stm(&two_body_force(), circular(), vec![], 1.0);
    assert!(norm(end.at.pos) > 0.99 && norm(end.at.pos) < 1.01);
    assert!(norm(end.at.vel) > 0.99 * v_circ && norm(end.at.vel) < 1.01 * v_circ);
    assert_eq!(end.sens.nrows, 6);
    assert_eq!(end.sens.ncols, 6);
    let rr = determinant(&end.sens, 0);
    let vv = determinant(&end.sens, 3);
    assert!((rr - 1.0).abs() < 1e-3, "det(Phi_rr) = {rr}");
    assert!((vv - 1.0).abs() < 1e-3, "det(Phi_vv) = {vv}");
}

#[test]
fn covariance_update_identity_sensitivity() {
    let np = 2;
    let total = 6 + np;
    let sens = table(6, total, |i, j| if i == j { 1.0 } else { 0.0 });
    let cov = table(total, total, |i, j| {
        if i == j {
            (i as f64 + 1.0) * 0.5
        } else if i + j == 1 {
            0.1
        } else {
            0.0
        }
    });
    let cov_new = covariance_update(&ops(), &sens, &cov);
    for i in 0..total {
        for j in 0..total {
            let (a, b) = (g(cov_new.get(i, j)), g(cov.get(i, j)));
            assert!((a - b).abs() < 1e-14, "({i},{j}): {a} vs {b}");
        }
    }
}

#[test]
fn covariance_update_no_parameters() {
    let sens = table(6, 6, |i, j| {
        if i == j {
            2.0
        } else if j == i + 1 {
            0.5
        } else {
            0.0
        }
    });
    let cov = table(6, 6, |i, j| if i == j { 1.0 } else { 0.0 });
    let cov_new = covariance_update(&ops(), &sens, &cov);
    for i in 0..6 {
        for j in 0..6 {
            let expected: f64 = (0..6).map(|k| g(sens.get(i, k)) * g(sens.get(j, k))).sum();
            let got = g(cov_new.get(i, j));
            assert!((got - expected).abs() < 1e-14, "({i},{j}): {got} vs {expected}");
        }
    }
}

#[test]
fn covariance_update_parameter_block_passes_through() {
    let np = 1;
    let total = 6 + np;
    let sens = table(6, total, |i, j| if i == j { 1.0 } else { 0.0 });
    let cov = table(total, total, |i, j| if i == 6 && j == 6 { 0.25 } else { 0.0 });
    let cov_new = covariance_update(&ops(), &sens, &cov);
    let kept = g(cov_new.get(6, 6));
    assert!((kept - 0.25).abs() < 1e-14, "parameter variance changed: {kept} vs 0.25");
}

#[test]
fn propagate_with_covariance_validates_shape() {
    let cov = table(6, 6, |i, j| if i == j { 1.0 } else { 0.0 });
    let result = propagate_with_covariance(
        &ops(),
        &two_body_force(),
        circular(),
        &cov,
        &vec![f(1.0)],
        time(0.0),
        time(1.0),
        MANY,
    );
    assert_eq!(
        result.err().unwrap(),
        Error::ValueError(ValueFault::CovarianceShape { size: 7, rows: 6, columns: 6 })
    );
}

#[test]
fn propagate_with_covariance_preserves_symmetry() {
    let cov = table(6, 6, |i, j| {
        if i != j {
            0.0
        } else if i < 3 {
            1e-10
        } else {
            1e-12
        }
    });
    let end = propagate_with_covariance(
        &ops(),
        &two_body_force(),
        circular(),
        &cov,
        &vec![],
        time(0.0),
        time(10.0),
        MANY,
    )
    .unwrap()
    .unwrap();
    let c = |i: usize, j: usize| g(end.cov.get(i, j));
    for i in 0..6 {
        for j in (i + 1)..6 {
            let asym = (c(i, j) - c(j, i)).abs();
            assert!(
                asym < 1e-14 * c(i, i).abs().max(c(j, j).abs()),
                "asymmetry at ({i},{j}): {asym}"
            );
        }
    }
}

#[test]
fn stm_parameter_sensitivity_matches_finite_difference() {
    let force = two_body_parametric();
    let dt = 5.0;
    let base = stm(&force, circular(), vec![f(GMS)], dt);
    let h = GMS * 1e-6;
    let moved = stm(&force, circular(), vec![f(GMS + h)], dt);
    for i in 0..3 {
        let dpos = (numbers(moved.at.pos)[i] - numbers(base.at.pos)[i]) / h;
        let dvel = (numbers(moved.at.vel)[i] - numbers(base.at.vel)[i]) / h;
        let (sp, sv) = (g(base.sens.get(i, 6)), g(base.sens.get(3 + i, 6)));
        assert!((sp - dpos).abs() < 1e-3, "row {i} pos: STM={sp}, FD={dpos}");
        assert!((sv - dvel).abs() < 1e-3, "row {i} vel: STM={sv}, FD={dvel}");
    }
}

#[test]
fn stm_two_body_matches_finite_difference() {
    let force = two_body_force();
    let dt = 5.0;
    let base = stm(&force, circular(), vec![], dt);
    let h = 1e-6;
    let mut from = circular();
    from.pos = vector(1.0 + h, 0.0, 0.0);
    let moved = stm(&force, from, vec![], dt);
    for i in 0..3 {
        let dpos = (numbers(moved.at.pos)[i] - numbers(base.at.pos)[i]) / h;
        let dvel = (numbers(moved.at.vel)[i] - numbers(base.at.vel)[i]) / h;
        let (sp, sv) = (g(base.sens.get(i, 0)), g(base.sens.get(3 + i, 0)));
        assert!((sp - dpos).abs() < 1e-4, "row {i} pos: STM={sp}, FD={dpos}");
        assert!((sv - dvel).abs() < 1e-4, "row {i} vel: STM={sv}, FD={dvel}");
    }
}

#[test]
fn a_state_without_its_derivatives_moves_the_same_way() {
    let force = two_body_force();
    let with = stm(&force, circular(), vec![], 20.0);
    let alone =
        propagate_state(&ops(), &force, circular(), &vec![], time(0.0), time(20.0), MANY)
            .unwrap()
            .unwrap();
    let (p, _) = two_body_ellipse(20.0, [1.0, 0.0, 0.0], [0.0, GMS.sqrt(), 0.0]);
    for i in 0..3 {
        assert!((numbers(alone.pos)[i] - numbers(with.at.pos)[i]).abs() < 1e-10);
        assert!((numbers(alone.pos)[i] - p[i]).abs() < 1e-10);
    }
    let short =
        propagate_state(&ops(), &force, circular(), &vec![], time(0.0), time(20.0), 0).unwrap();
    assert!(short.is_none());
}

#[test]
fn errors_of_a_force_stop_the_motion() {
    fn fails(
        _: Time,
        _: Vector<Equatorial>,
        _: Vector<Equatorial>,
        _: &[F64],
    ) -> KeteResult<Vector<Equatorial>> {
        Err(Error::Bounds)
    }
    let force: Force =
        ForceFunction::new(vec![], vec![], fails, two_body_jacobians, no_partials);
    let end =
        propagate_state(&ops(), &force, circular(), &vec![], time(0.0), time(1.0), MANY);
    assert_eq!(end.err().unwrap(), Error::Bounds);
    let end =
        propagate_with_stm(&ops(), &force, circular(), &vec![], time(0.0), time(1.0), MANY);
    assert_eq!(end.err().unwrap(), Error::Bounds);
}
