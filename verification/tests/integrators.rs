//! Orbits are integrated as they should be.
use kete::arithmetic::{Binary, Ops, Unary};
use kete::errors::{Error, KeteResult, ValueFault};
use kete::float::F64;
use kete::integrators::bulirsch_stoer::BulirschStoerIntegrator;
use kete::integrators::gauss_jackson::GaussJacksonIntegrator;
use kete::integrators::ode::Function;
use kete::integrators::radau::RadauIntegrator;
use kete::time::Time;

fn f(x: f64) -> F64 {
    F64::from_bits(x.to_bits())
}

fn g(x: F64) -> f64 {
    f64::from_bits(x.to_bits())
}

fn binary(op: Binary, a: F64, b: F64) -> F64 {
    let (a, b) = (g(a), g(b));
    f(match op {
        Binary::Add => a + b,
        Binary::Subtract => a - b,
        Binary::Multiply => a * b,
        Binary::Divide => a / b,
        Binary::Power => a.powf(b),
        Binary::Atan2 => a.atan2(b),
        Binary::RemEuclid => a.rem_euclid(b),
    })
}

fn unary(op: Unary, a: F64) -> F64 {
    let a = g(a);
    f(match op {
        Unary::Sqrt => a.sqrt(),
        Unary::Sin => a.sin(),
        Unary::Cos => a.cos(),
        Unary::Tan => a.tan(),
        Unary::Acos => a.acos(),
        Unary::Atan => a.atan(),
        Unary::Sinh => a.sinh(),
        Unary::Cosh => a.cosh(),
        Unary::Acosh => a.acosh(),
        Unary::Ln => a.ln(),
        Unary::Cbrt => a.cbrt(),
        Unary::Asinh => a.asinh(),
        Unary::Cubed => a.powi(3),
        Unary::Squared => a.powi(2),
        Unary::InverseCube => a.powi(-3),
    })
}

fn integer(n: u64) -> F64 {
    f(n as f64)
}

type Plain = Ops<fn(Binary, F64, F64) -> F64, fn(Unary, F64) -> F64, fn(u64) -> F64>;

/// The arithmetic of the machine.
fn ops() -> Plain {
    Ops { binary, unary, integer }
}

const GMS: f64 = 0.000_295_912_208_284_119_56;

fn newton(value: impl Fn(f64) -> f64, slope: impl Fn(f64) -> f64, start: f64) -> f64 {
    let mut x = start;
    for _ in 0..200 {
        let step = value(x) / slope(x);
        x -= step;
        if step.abs() < 1e-15 * (1.0 + x.abs()) {
            break;
        }
    }
    x
}

fn dot(a: [f64; 3], b: [f64; 3]) -> f64 {
    a[0] * b[0] + a[1] * b[1] + a[2] * b[2]
}

/// Where an object on an ellipse is some days later.
fn two_body_ellipse(days: f64, pos: [f64; 3], vel: [f64; 3]) -> ([f64; 3], [f64; 3]) {
    let r0 = dot(pos, pos).sqrt();
    let a = 1.0 / (2.0 / r0 - dot(vel, vel) / GMS);
    let n = (GMS / a.powi(3)).sqrt();
    let c0 = 1.0 - r0 / a;
    let s0 = dot(pos, vel) / (GMS * a).sqrt();
    let turns = (n * days).rem_euclid(std::f64::consts::TAU);
    let x = newton(
        |x| x - c0 * x.sin() + s0 * (1.0 - x.cos()) - turns,
        |x| 1.0 - c0 * x.cos() + s0 * x.sin(),
        turns,
    );
    let r = a * (1.0 - c0 * x.cos() + s0 * x.sin());
    let ff = 1.0 - a / r0 * (1.0 - x.cos());
    let gg = (a.powi(3) / GMS).sqrt() * (x.sin() - c0 * x.sin() + s0 * (1.0 - x.cos()));
    let fd = -(GMS * a).sqrt() / (r * r0) * x.sin();
    let gd = 1.0 - a / r * (1.0 - x.cos());
    let mut p = [0.0; 3];
    let mut v = [0.0; 3];
    for i in 0..3 {
        p[i] = ff * pos[i] + gg * vel[i];
        v[i] = fd * pos[i] + gd * vel[i];
    }
    (p, v)
}

/// How many steps are enough for every orbit here.
const ENOUGH: u64 = 10_000_000;

fn central(
    _time: Time,
    pos: &Vec<F64>,
    _vel: &Vec<F64>,
    count: u64,
    _exact: bool,
) -> (KeteResult<Vec<F64>>, u64) {
    let p = [g(pos[0]), g(pos[1]), g(pos[2])];
    let scale = dot(p, p).sqrt().powi(-3) * GMS;
    (Ok(vec![f(-p[0] * scale), f(-p[1] * scale), f(-p[2] * scale)]), count + 1)
}

fn sun_only() -> Function<fn(Time, &Vec<F64>, &Vec<F64>, u64, bool) -> (KeteResult<Vec<F64>>,
    u64)> {
    Function { f: central }
}

fn three(v: &Vec<F64>) -> [f64; 3] {
    [g(v[0]), g(v[1]), g(v[2])]
}

fn numbers(v: [f64; 3]) -> Vec<F64> {
    v.iter().map(|x| f(*x)).collect()
}

fn at(jd: f64) -> Time {
    Time::new(f(jd))
}

fn radau(pos: [f64; 3], vel: [f64; 3], start: f64, goal: f64) -> ([f64; 3], [f64; 3]) {
    let (end, _) = RadauIntegrator::integrate(
        &ops(),
        &sun_only(),
        &numbers(pos),
        &numbers(vel),
        at(start),
        at(goal),
        0,
        None,
        ENOUGH,
    );
    let end = end.unwrap().unwrap();
    (three(&end.pos), three(&end.vel))
}

fn bulirsch_stoer(pos: [f64; 3], vel: [f64; 3], start: f64, goal: f64) -> ([f64; 3], [f64; 3]) {
    let (end, _) = BulirschStoerIntegrator::integrate(
        &ops(),
        &sun_only(),
        &numbers(pos),
        &numbers(vel),
        at(start),
        at(goal),
        0,
        None,
        ENOUGH,
    );
    let end = end.unwrap().unwrap();
    (three(&end.pos), three(&end.vel))
}

fn gauss_jackson(
    pos: [f64; 3],
    vel: [f64; 3],
    start: f64,
    goal: f64,
    step: Option<f64>,
) -> ([f64; 3], [f64; 3]) {
    let (end, _) = GaussJacksonIntegrator::integrate(
        &ops(),
        &sun_only(),
        &numbers(pos),
        &numbers(vel),
        at(start),
        at(goal),
        0,
        None,
        step.map(f),
        ENOUGH,
    );
    let end = end.unwrap().unwrap();
    (three(&end.pos), three(&end.vel))
}

fn energy(pos: [f64; 3], vel: [f64; 3]) -> f64 {
    0.5 * dot(vel, vel) - GMS / dot(pos, pos).sqrt()
}

const INIT_POS: [f64; 3] = [0.46937657, -0.8829981, 0.0];
const INIT_VEL: [f64; 3] = [0.01518942, 0.00807426, 0.0];

#[test]
fn basic_two_body() {
    let (pos, vel) = radau(INIT_POS, INIT_VEL, 0.0, 1000.0);
    assert!((pos[0] + 0.916350120888658).abs() < 1e-8);
    assert!((pos[1] + 0.4003771936559588).abs() < 1e-8);
    assert_eq!(pos[2], 0.0);

    assert!((vel[0] - 0.006887328686018099).abs() < 1e-8);
    assert!((vel[1] + 0.01576315407302832).abs() < 1e-8);
    assert_eq!(vel[2], 0.0);
}

#[test]
fn bulirsch_stoer_two_body_vs_analytic() {
    let (exact_pos, exact_vel) = two_body_ellipse(1000.0, INIT_POS, INIT_VEL);
    let (bs_pos, bs_vel) = bulirsch_stoer(INIT_POS, INIT_VEL, 0.0, 1000.0);
    for i in 0..3 {
        let pos_err = (bs_pos[i] - exact_pos[i]).abs();
        let vel_err = (bs_vel[i] - exact_vel[i]).abs();
        assert!(pos_err < 5e-11, "pos[{i}] error vs analytic: {pos_err:.2e}");
        assert!(vel_err < 5e-12, "vel[{i}] error vs analytic: {vel_err:.2e}");
    }
}

#[test]
fn bulirsch_stoer_energy_conservation() {
    let v_circ = GMS.sqrt();
    let (pos, vel) = bulirsch_stoer([1.0, 0.0, 0.0], [0.0, v_circ, 0.0], 0.0, 100_000.0);
    let energy_init = 0.5 * v_circ * v_circ - GMS;
    let rel_err = ((energy(pos, vel) - energy_init) / energy_init).abs();
    assert!(rel_err < 5e-11, "Energy conservation error: {rel_err:.2e}");
}

#[test]
fn bulirsch_stoer_backward_integration() {
    let (mid_pos, mid_vel) = bulirsch_stoer(INIT_POS, INIT_VEL, 0.0, 500.0);
    let (final_pos, final_vel) = bulirsch_stoer(mid_pos, mid_vel, 500.0, 0.0);
    for i in 0..3 {
        let pos_err = (final_pos[i] - INIT_POS[i]).abs();
        let vel_err = (final_vel[i] - INIT_VEL[i]).abs();
        assert!(pos_err < 1e-10, "Backward pos[{i}] error: {pos_err:.2e}");
        assert!(vel_err < 1e-10, "Backward vel[{i}] error: {vel_err:.2e}");
    }
}

#[test]
fn bulirsch_stoer_eccentric_orbit() {
    let r_peri = 0.1;
    let a = 1.0;
    let v_peri = (GMS * (2.0 / r_peri - 1.0 / a)).sqrt();
    let (pos, vel) = bulirsch_stoer([r_peri, 0.0, 0.0], [0.0, v_peri, 0.0], 0.0, 365.25);
    let energy_init = 0.5 * v_peri * v_peri - GMS / r_peri;
    let rel_err = ((energy(pos, vel) - energy_init) / energy_init).abs();
    assert!(rel_err < 1e-11, "Eccentric orbit energy error: {rel_err:.2e}");
}

#[test]
fn bulirsch_stoer_zero_interval() {
    let (pos, vel) = bulirsch_stoer([1.0, 0.0, 0.0], [0.0, 0.01, 0.0], 0.0, 0.0);
    assert_eq!(pos[0], 1.0);
    assert_eq!(vel[1], 0.01);
}

#[test]
fn gauss_jackson_two_body_vs_analytic() {
    let (exact_pos, exact_vel) = two_body_ellipse(1000.0, INIT_POS, INIT_VEL);
    let (gj_pos, gj_vel) = gauss_jackson(INIT_POS, INIT_VEL, 0.0, 1000.0, None);
    for i in 0..3 {
        let pos_err = (gj_pos[i] - exact_pos[i]).abs();
        let vel_err = (gj_vel[i] - exact_vel[i]).abs();
        assert!(pos_err < 5e-13, "pos[{i}] error vs analytic: {pos_err:.2e}");
        assert!(vel_err < 5e-14, "vel[{i}] error vs analytic: {vel_err:.2e}");
    }
}

#[test]
fn gauss_jackson_energy_conservation() {
    let v_circ = GMS.sqrt();
    let (pos, vel) = gauss_jackson([1.0, 0.0, 0.0], [0.0, v_circ, 0.0], 0.0, 100_000.0, None);
    let energy_init = 0.5 * v_circ * v_circ - GMS;
    let rel_err = ((energy(pos, vel) - energy_init) / energy_init).abs();
    assert!(rel_err < 5e-12, "Energy conservation error: {rel_err:.2e}");
}

#[test]
fn gauss_jackson_backward_integration() {
    let (mid_pos, mid_vel) = gauss_jackson(INIT_POS, INIT_VEL, 0.0, 500.0, None);
    let (final_pos, final_vel) = gauss_jackson(mid_pos, mid_vel, 500.0, 0.0, None);
    for i in 0..3 {
        let pos_err = (final_pos[i] - INIT_POS[i]).abs();
        let vel_err = (final_vel[i] - INIT_VEL[i]).abs();
        assert!(pos_err < 1e-11, "Backward pos[{i}] error: {pos_err:.2e}");
        assert!(vel_err < 1e-11, "Backward vel[{i}] error: {vel_err:.2e}");
    }
}

#[test]
fn gauss_jackson_eccentric_orbit() {
    let r_peri = 0.1;
    let a = 1.0;
    let v_peri = (GMS * (2.0 / r_peri - 1.0 / a)).sqrt();
    let (pos, vel) =
        gauss_jackson([r_peri, 0.0, 0.0], [0.0, v_peri, 0.0], 0.0, 365.25, Some(0.05));
    let energy_init = 0.5 * v_peri * v_peri - GMS / r_peri;
    let rel_err = ((energy(pos, vel) - energy_init) / energy_init).abs();
    assert!(rel_err < 5e-10, "Eccentric orbit energy error: {rel_err:.2e}");
}

#[test]
fn gauss_jackson_zero_interval() {
    let (pos, vel) = gauss_jackson([1.0, 0.0, 0.0], [0.0, 0.01, 0.0], 0.0, 0.0, None);
    assert_eq!(pos[0], 1.0);
    assert_eq!(vel[1], 0.01);
}

#[test]
fn step_size_convergence() {
    let (exact_pos, _) = two_body_ellipse(100.0, INIT_POS, INIT_VEL);
    let steps = [8.0, 4.0, 2.0];
    let mut errors = Vec::new();
    for &step in &steps {
        let (gj_pos, _) = gauss_jackson(INIT_POS, INIT_VEL, 0.0, 100.0, Some(step));
        let err: f64 = (0..3)
            .map(|i| (gj_pos[i] - exact_pos[i]).powi(2))
            .sum::<f64>()
            .sqrt();
        errors.push(err);
    }
    for i in 1..errors.len() {
        assert!(
            errors[i] < errors[i - 1],
            "Error did not decrease: h={} err={:.2e}, h={} err={:.2e}",
            steps[i - 1],
            errors[i - 1],
            steps[i],
            errors[i],
        );
    }
}

#[test]
fn too_few_steps_do_not_arrive() {
    let (end, count) = RadauIntegrator::integrate(
        &ops(),
        &sun_only(),
        &numbers(INIT_POS),
        &numbers(INIT_VEL),
        at(0.0),
        at(1000.0),
        0,
        None,
        2,
    );
    assert!(end.unwrap().is_none());
    assert!(count > 0);
}

#[test]
fn steps_which_are_not_needed_change_nothing() {
    let mut ends = Vec::new();
    for limit in [10_000, 20_000] {
        let (end, count) = RadauIntegrator::integrate(
            &ops(),
            &sun_only(),
            &numbers(INIT_POS),
            &numbers(INIT_VEL),
            at(0.0),
            at(100.0),
            0,
            None,
            limit,
        );
        let end = end.unwrap().unwrap();
        ends.push((end.pos, end.vel, count));
    }
    assert_eq!(ends[0], ends[1]);
}

#[test]
fn positions_and_velocities_belong_together() {
    let short = vec![f(1.0)];
    let (end, _) = RadauIntegrator::integrate(
        &ops(),
        &sun_only(),
        &numbers(INIT_POS),
        &short,
        at(0.0),
        at(1.0),
        0,
        None,
        ENOUGH,
    );
    assert!(matches!(end, Err(Error::ValueError(ValueFault::LengthMismatch))));
    let (end, _) = BulirschStoerIntegrator::integrate(
        &ops(),
        &sun_only(),
        &numbers(INIT_POS),
        &short,
        at(0.0),
        at(1.0),
        0,
        None,
        ENOUGH,
    );
    assert!(matches!(end, Err(Error::ValueError(ValueFault::LengthMismatch))));
    let (end, _) = RadauIntegrator::integrate(
        &ops(),
        &sun_only(),
        &numbers(INIT_POS),
        &numbers(INIT_VEL),
        at(0.0),
        at(1.0),
        0,
        Some(4),
        ENOUGH,
    );
    assert!(matches!(
        end,
        Err(Error::ValueError(ValueFault::ControlDim { control: 4, dim: 3 }))
    ));
}

#[test]
fn a_fault_of_the_force_ends_the_integration() {
    let failing = Function {
        f: |_t: Time, _p: &Vec<F64>, _v: &Vec<F64>, note: u64, _exact: bool| {
            (Err::<Vec<F64>, Error>(Error::Impact(399, at(3.0))), note + 1)
        },
    };
    let (end, count) = RadauIntegrator::integrate(
        &ops(),
        &failing,
        &numbers(INIT_POS),
        &numbers(INIT_VEL),
        at(0.0),
        at(1.0),
        0,
        None,
        ENOUGH,
    );
    assert!(matches!(end, Err(Error::Impact(399, _))));
    assert_eq!(count, 1);
}

/// How one integrator did on one orbit.
struct RunResult {
    name: &'static str,
    pos_err: f64,
    energy_err: f64,
}

/// An orbit, how long to follow it, and the step where it is fixed.
struct Scenario {
    label: &'static str,
    pos: [f64; 3],
    vel: [f64; 3],
    t_days: f64,
    gj_step: f64,
}

impl Scenario {
    /// Follow the orbit with all integrators.
    fn run(&self) -> Vec<RunResult> {
        let (exact, _) = two_body_ellipse(self.t_days, self.pos, self.vel);
        let e0 = energy(self.pos, self.vel);
        let ends = [
            ("Radau", radau(self.pos, self.vel, 0.0, self.t_days)),
            ("BS", bulirsch_stoer(self.pos, self.vel, 0.0, self.t_days)),
            ("GJ", gauss_jackson(self.pos, self.vel, 0.0, self.t_days, Some(self.gj_step))),
        ];
        ends.into_iter()
            .map(|(name, (p, v))| {
                let d = [p[0] - exact[0], p[1] - exact[1], p[2] - exact[2]];
                RunResult {
                    name,
                    pos_err: dot(d, d).sqrt(),
                    energy_err: ((energy(p, v) - e0) / e0).abs(),
                }
            })
            .collect()
    }
}

/// Position and velocity at perihelion.
fn keplerian_ic(a: f64, e: f64, inc_deg: f64, omega_deg: f64) -> ([f64; 3], [f64; 3]) {
    let r = a * (1.0 - e);
    let v = (GMS * (2.0 / r - 1.0 / a)).sqrt();
    let (sw, cw) = omega_deg.to_radians().sin_cos();
    let (si, ci) = inc_deg.to_radians().sin_cos();
    let turn = |x: f64, y: f64| [cw * x - sw * y, ci * (sw * x + cw * y), si * (sw * x + cw * y)];
    (turn(r, 0.0), turn(0.0, v))
}

fn scenario(
    label: &'static str,
    (a, e, inc, omega): (f64, f64, f64, f64),
    t_days: f64,
    gj_step: f64,
) -> Scenario {
    let (pos, vel) = keplerian_ic(a, e, inc, omega);
    Scenario { label, pos, vel, t_days, gj_step }
}

#[test]
fn integrator_stress_comparison() {
    let scenarios = [
        scenario("e=0.5, a=1 AU, 1000d", (1.0, 0.5, 0.0, 0.0), 1000.0, 0.5),
        scenario("e=0.95, a=1 AU, 365d", (1.0, 0.95, 0.0, 0.0), 365.25, 0.02),
        scenario("e=0.99, a=2 AU, 1000d", (2.0, 0.99, 0.0, 0.0), 1000.0, 0.01),
        scenario("Sun-grazer e=0.999, 100d", (10.0, 0.999, 0.0, 0.0), 100.0, 0.001),
        scenario("Circular, 100k days", (1.0, 0.0, 0.0, 0.0), 100_000.0, 1.0),
        scenario("Circular, 1M days", (1.0, 0.0, 0.0, 0.0), 1_000_000.0, 1.0),
        scenario("e=0.7, i=30, w=45, 1000d", (1.5, 0.7, 30.0, 45.0), 1000.0, 0.1),
        scenario("e=0.9, i=150 (retro), 500d", (1.0, 0.9, 150.0, 0.0), 500.0, 0.05),
        scenario("a=0.1 AU, e=0.3, 100d", (0.1, 0.3, 10.0, 0.0), 100.0, 0.05),
        scenario("a=30 AU, e=0.1, 10000d", (30.0, 0.1, 5.0, 0.0), 10_000.0, 2.0),
    ];
    let mut off = Vec::new();
    for s in &scenarios {
        for r in s.run() {
            // A fixed step cannot follow a sharp perihelion as an adaptive one does.
            let (pos, energy) = if r.name == "GJ" { (1e-4, 1e-5) } else { (1e-7, 1e-10) };
            if !(r.pos_err < pos && r.energy_err < energy) {
                off.push(format!(
                    "{} {}: {:.3e}, {:.3e}",
                    s.label, r.name, r.pos_err, r.energy_err
                ));
            }
        }
    }
    assert!(off.is_empty(), "{off:?}");
}

#[test]
fn integrator_reversibility() {
    let cases = [
        (1.0, 0.5, 500.0, 0.5),
        (1.0, 0.9, 200.0, 0.05),
        (1.0, 0.0, 10_000.0, 1.0),
    ];
    let apart = |a: [f64; 3], b: [f64; 3]| {
        let d = [a[0] - b[0], a[1] - b[1], a[2] - b[2]];
        dot(d, d).sqrt()
    };
    for (a, e, t, step) in cases {
        let (p0, v0) = keplerian_ic(a, e, 0.0, 0.0);
        let (pm, vm) = radau(p0, v0, 0.0, t);
        let (pf, vf) = radau(pm, vm, t, 0.0);
        assert!(apart(pf, p0) < 1e-8 && apart(vf, v0) < 1e-8, "Radau {e}");
        let (pm, vm) = bulirsch_stoer(p0, v0, 0.0, t);
        let (pf, vf) = bulirsch_stoer(pm, vm, t, 0.0);
        assert!(apart(pf, p0) < 1e-8 && apart(vf, v0) < 1e-8, "BS {e}");
        let (pm, vm) = gauss_jackson(p0, v0, 0.0, t, Some(step));
        let (pf, vf) = gauss_jackson(pm, vm, t, 0.0, Some(step));
        assert!(apart(pf, p0) < 1e-8 && apart(vf, v0) < 1e-8, "GJ {e}");
    }
}

#[test]
fn compare_integrators() {
    let apart = |a: [f64; 3], b: [f64; 3]| {
        let d = [a[0] - b[0], a[1] - b[1], a[2] - b[2]];
        dot(d, d).sqrt()
    };
    // Position and velocity on an ellipse.
    let (exact_pos, exact_vel) = two_body_ellipse(1000.0, INIT_POS, INIT_VEL);
    let ends = [
        gauss_jackson(INIT_POS, INIT_VEL, 0.0, 1000.0, None),
        radau(INIT_POS, INIT_VEL, 0.0, 1000.0),
        bulirsch_stoer(INIT_POS, INIT_VEL, 0.0, 1000.0),
    ];
    for (p, v) in ends {
        assert!(apart(p, exact_pos) < 1e-9);
        assert!(apart(v, exact_vel) < 1e-10);
    }
    // The energy on a circle.
    let p0 = [1.0, 0.0, 0.0];
    let v0 = [0.0, GMS.sqrt(), 0.0];
    let e0 = energy(p0, v0);
    let ends = [
        gauss_jackson(p0, v0, 0.0, 100_000.0, None),
        radau(p0, v0, 0.0, 100_000.0),
        bulirsch_stoer(p0, v0, 0.0, 100_000.0),
    ];
    for (p, v) in ends {
        let lost = ((energy(p, v) - e0) / e0).abs();
        assert!(lost < 1e-12, "{lost:.3e}");
    }
    // Steps of a fixed size.
    for step in [2.0, 1.0, 0.5, 0.25] {
        let (p, v) = gauss_jackson(INIT_POS, INIT_VEL, 0.0, 1000.0, Some(step));
        let (pe, ve) = (apart(p, exact_pos), apart(v, exact_vel));
        assert!(pe < 1e-9 && ve < 1e-10, "{step}: {pe:.3e}, {ve:.3e}");
    }
}
