//! Orbits and their elements.
use kete::arithmetic::{Binary, Ops, Unary};
use kete::constants::Constants;
use kete::desig::Desig;
use kete::elements::CometElements;
use kete::errors::{Error, KeteResult};
use kete::float::{F32, F64};
use kete::forces::GravParams;
use kete::frames::{DynCenter, Ecliptic, Equatorial, InertialFrame, Vector};
use kete::matrix::Matrix3;
use kete::physics::{Motion, World};
use kete::state::State;
use kete::time::Time;

fn f(x: f64) -> F64 {
    F64::from_bits(x.to_bits())
}

fn g(x: F64) -> f64 {
    f64::from_bits(x.to_bits())
}

fn binary(op: Binary, a: F64, b: F64) -> F64 {
    let (a, b) = (g(a), g(b));
    f(match op {
        Binary::Add => a + b,
        Binary::Subtract => a - b,
        Binary::Multiply => a * b,
        Binary::Divide => a / b,
        Binary::Power => a.powf(b),
        Binary::Atan2 => a.atan2(b),
        Binary::RemEuclid => a.rem_euclid(b),
    })
}

fn unary(op: Unary, a: F64) -> F64 {
    let a = g(a);
    f(match op {
        Unary::Sqrt => a.sqrt(),
        Unary::Sin => a.sin(),
        Unary::Cos => a.cos(),
        Unary::Tan => a.tan(),
        Unary::Acos => a.acos(),
        Unary::Atan => a.atan(),
        Unary::Sinh => a.sinh(),
        Unary::Cosh => a.cosh(),
        Unary::Acosh => a.acosh(),
        Unary::Ln => a.ln(),
        Unary::Cbrt => a.cbrt(),
        Unary::Asinh => a.asinh(),
        Unary::Cubed => a.powi(3),
        Unary::Squared => a.powi(2),
        Unary::InverseCube => a.powi(-3),
    })
}

fn integer(n: u64) -> F64 {
    f(n as f64)
}

type Plain = Ops<fn(Binary, F64, F64) -> F64, fn(Unary, F64) -> F64, fn(u64) -> F64>;

/// The arithmetic of the machine.
fn ops() -> Plain {
    Ops { binary, unary, integer }
}

const GMS: f64 = 0.000_295_912_208_284_119_56;

const PARABOLIC_LIMIT: f64 = 1e-3;

fn newton(value: impl Fn(f64) -> f64, slope: impl Fn(f64) -> f64, start: f64) -> f64 {
    let mut x = start;
    for _ in 0..200 {
        let step = value(x) / slope(x);
        x -= step;
        if step.abs() < 1e-15 * (1.0 + x.abs()) {
            break;
        }
    }
    x
}

fn eccentric(ecc: F64, mean_anomaly: F64, peri_dist: F64) -> KeteResult<F64> {
    let (e, m, q) = (g(ecc), g(mean_anomaly), g(peri_dist));
    if !e.is_finite() || e < 0.0 {
        return Err(Error::Bounds);
    }
    let x = if e < 1e-6 {
        m
    } else if e < 1.0 - PARABOLIC_LIMIT {
        let m = m.rem_euclid(std::f64::consts::TAU);
        let (mut low, mut high) = (0.0, std::f64::consts::TAU);
        for _ in 0..60 {
            let mid = 0.5 * (low + high);
            if mid - e * mid.sin() < m {
                low = mid;
            } else {
                high = mid;
            }
        }
        newton(|x| x - e * x.sin() - m, |x| 1.0 - e * x.cos(), 0.5 * (low + high))
    } else if e <= 1.0 + PARABOLIC_LIMIT {
        let w = 3.0 * m / (2.0 * q).powf(1.5);
        let y = (w.abs() + (w * w + 1.0).sqrt()).cbrt();
        (2.0 * q).sqrt() * (y - 1.0 / y) * w.signum()
    } else {
        newton(|x| e * x.sinh() - x - m, |x| e * x.cosh() - 1.0, (m / e).asinh())
    };
    Ok(f(x))
}

fn true_angle(ecc: F64, mean_anomaly: F64, peri_dist: F64) -> KeteResult<F64> {
    let e = g(ecc);
    let x = g(eccentric(ecc, mean_anomaly, peri_dist)?);
    let angle = if (e - 1.0).abs() <= PARABOLIC_LIMIT {
        2.0 * (x / (2.0 * g(peri_dist)).sqrt()).atan()
    } else if e < 1.0 {
        2.0 * (((1.0 + e) / (1.0 - e)).sqrt() * (0.5 * x).tan()).atan()
    } else {
        2.0 * (((1.0 + e) / (e - 1.0)).sqrt() * (0.5 * x).tanh()).atan()
    };
    Ok(f(angle.rem_euclid(std::f64::consts::TAU)))
}

fn dot(a: [f64; 3], b: [f64; 3]) -> f64 {
    a[0] * b[0] + a[1] * b[1] + a[2] * b[2]
}

/// Where an object on an ellipse is some days later.
fn two_body_ellipse(days: f64, pos: [f64; 3], vel: [f64; 3]) -> ([f64; 3], [f64; 3]) {
    let r0 = dot(pos, pos).sqrt();
    let a = 1.0 / (2.0 / r0 - dot(vel, vel) / GMS);
    let n = (GMS / a.powi(3)).sqrt();
    let c0 = 1.0 - r0 / a;
    let s0 = dot(pos, vel) / (GMS * a).sqrt();
    let turns = (n * days).rem_euclid(std::f64::consts::TAU);
    let x = newton(
        |x| x - c0 * x.sin() + s0 * (1.0 - x.cos()) - turns,
        |x| 1.0 - c0 * x.cos() + s0 * x.sin(),
        turns,
    );
    let r = a * (1.0 - c0 * x.cos() + s0 * x.sin());
    let ff = 1.0 - a / r0 * (1.0 - x.cos());
    let gg = (a.powi(3) / GMS).sqrt() * (x.sin() - c0 * x.sin() + s0 * (1.0 - x.cos()));
    let fd = -(GMS * a).sqrt() / (r * r0) * x.sin();
    let gd = 1.0 - a / r * (1.0 - x.cos());
    let mut p = [0.0; 3];
    let mut v = [0.0; 3];
    for i in 0..3 {
        p[i] = ff * pos[i] + gg * vel[i];
        v[i] = fd * pos[i] + gd * vel[i];
    }
    (p, v)
}

fn two_body(days: F64, at: Motion<Equatorial>) -> KeteResult<Motion<Equatorial>> {
    let pos = [g(at.pos.x), g(at.pos.y), g(at.pos.z)];
    let vel = [g(at.vel.x), g(at.vel.y), g(at.vel.z)];
    let (p, v) = two_body_ellipse(g(days), pos, vel);
    Ok(Motion { pos: vector(p[0], p[1], p[2]), vel: vector(v[0], v[1], v[2]) })
}

fn vector<T: InertialFrame>(x: f64, y: f64, z: f64) -> Vector<T> {
    Vector::new([f(x), f(y), f(z)])
}

fn constants() -> Constants {
    let obliquity = (84_381.448_f64 / 3600.0).to_radians();
    let (s, c) = (obliquity.sin(), obliquity.cos());
    Constants {
        gms: f(GMS),
        gms_sqrt: f(GMS.sqrt()),
        c_inv_squared: f(173.144_632_674_24_f64.powi(-2)),
        sun_j2: f(2.110_608_853_272_684e-7),
        jupiter_j2: f(0.014_695_72),
        earth_j2: f(1.082_625_39e-3),
        f0_over_c: f(1.0e-5),
        solar_flux: f(1360.8),
        stefan_boltzmann: f(5.670_374_419e-8),
        parabolic_limit: f(PARABOLIC_LIMIT),
        pi: f(std::f64::consts::PI),
        ecliptic: Matrix3 {
            x: vector(1.0, 0.0, 0.0),
            y: vector(0.0, c, -s),
            z: vector(0.0, s, c),
        },
    }
}

type Sky = World<
    Plain,
    fn(F64, Motion<Equatorial>) -> KeteResult<Motion<Equatorial>>,
    fn(F64, F64, F64) -> KeteResult<F64>,
    fn(F64, F64, F64) -> KeteResult<F64>,
>;

/// The arithmetic of the machine with the constants of nature.
fn sky() -> Sky {
    World { ops: ops(), constants: constants(), two_body, eccentric, true_angle }
}

fn gms_sqrt() -> f64 {
    GMS.sqrt()
}

fn at(jd: f64) -> Time {
    Time::new(f(jd))
}

#[allow(clippy::too_many_arguments)]
fn elements(
    epoch: f64,
    eccentricity: f64,
    inclination: f64,
    lon_of_ascending: f64,
    peri_time: f64,
    peri_arg: f64,
    peri_dist: f64,
) -> CometElements {
    CometElements {
        desig: Desig::Empty,
        epoch: at(epoch),
        eccentricity: f(eccentricity),
        inclination: f(inclination),
        lon_of_ascending: f(lon_of_ascending),
        peri_time: at(peri_time),
        peri_arg: f(peri_arg),
        peri_dist: f(peri_dist),
        center_id: 10,
        gm_sqrt: f(gms_sqrt()),
    }
}

fn again(epoch: f64, m: Motion<Ecliptic>) -> CometElements {
    CometElements::from_pos_vel(
        &ops(),
        constants(),
        Desig::Empty,
        at(epoch),
        m,
        10,
        f(gms_sqrt()),
    )
}

fn six(m: Motion<Ecliptic>) -> [f64; 6] {
    [g(m.pos.x), g(m.pos.y), g(m.pos.z), g(m.vel.x), g(m.vel.y), g(m.vel.z)]
}

#[test]
fn test_specific_conversion() {
    {
        // This was previously a failed instance.
        let elem = elements(
            2461722.5,
            0.7495474422690582,
            0.1582845445910239,
            1.247985615390004,
            2459273.227910867,
            4.229481513899533,
            0.5613867506855604,
        );
        assert!(elem.to_pos_vel(&sky()).is_ok());
    }
    {
        // This was previously a failed instance.
        let elem = elements(
            2455341.243793971,
            1.001148327267,
            2.433767,
            -1.24321,
            2454482.5825015577,
            0.823935226897,
            5.594792535298549,
        );
        assert!((g(elem.true_anomaly(&sky()).unwrap()) - 1.198554792).abs() < 1e-6);
        assert!(elem.to_pos_vel(&sky()).is_ok());
    }
    {
        let elem = elements(
            2455562.5,
            0.99999,
            2.792526803,
            0.349065850,
            2455369.7,
            -0.8726646259,
            0.5,
        );
        assert!((g(elem.true_anomaly(&sky()).unwrap()) - 2.6071638616282553).abs() < 1e-6);
    }
}

#[test]
fn test_elements_perihelion() {
    for ecc in [0.0, 0.1, 0.5, 1.0, 2.0] {
        for incl in [-2.0, 0.0, 2.0, 3.0] {
            for lon_of_asc in [-0.5, 0.0, 4.0] {
                for peri_arg in [-2.0, 0.0, 0.1, 0.5, 10.0] {
                    for peri_dist in [0.1, 0.5, 10.0] {
                        let elem =
                            elements(10.0, ecc, incl, lon_of_asc, 10.0, peri_arg, peri_dist);
                        let m = elem.to_pos_vel(&sky()).unwrap();
                        let pos = six(m);
                        let r = dot([pos[0], pos[1], pos[2]], [pos[0], pos[1], pos[2]]).sqrt();
                        assert!((r - peri_dist).abs() < 1e-6);
                        let new_elem = again(10.0, m);
                        assert!((peri_dist - g(new_elem.peri_dist)).abs() < 1e-8);
                        assert!((ecc - g(new_elem.eccentricity)).abs() < 1e-8);
                    }
                }
            }
        }
    }
}

#[test]
fn elements_come_back_within_the_bounds_of_rounding() {
    for ecc in [0.0_f64, 0.1, 0.5, 1.0, 2.0] {
        for peri_dist in [0.5_f64, 1.0, 2.0] {
            let speed = ((1.0 + ecc) / peri_dist).sqrt();
            let mut size: f64 = 1.0_f64.max(ecc).max(peri_dist).max(1.0 / peri_dist).max(speed);
            if ecc != 1.0 {
                size = size.max(1.0 / (1.0 - ecc).abs());
            }
            // Sums of a few numbers of this size are off by a few units in the last place.
            let (u, eps) = (4.0 * f64::EPSILON, 16.0 * size.powi(3) * f64::EPSILON);
            let by = 4.0 * (62.0 * size * size * u) + 34.0 * size * eps;
            let elem = elements(10.0, ecc, 2.0, 4.0, 10.0, 0.5, peri_dist);
            let m = elem.to_pos_vel(&sky()).unwrap();
            let p = six(m);
            let r = dot([p[0], p[1], p[2]], [p[0], p[1], p[2]]).sqrt();
            let back = again(10.0, m);
            assert!((r - peri_dist).abs() <= 8.0 * by);
            assert!((g(back.eccentricity) - ecc).abs() <= 1024.0 * size.powi(3) * by);
            assert!((g(back.peri_dist) - peri_dist).abs() <= 3100.0 * size.powi(4) * by);
            assert!(3100.0 * size.powi(4) * by < 1e-3);
        }
    }
}

#[test]
fn near_elements_lead_nearly_there() {
    let one = elements(10.0, 0.5, 2.0, 4.0, -20.0, 0.5, 1.0).to_pos_vel(&sky()).unwrap();
    let two = elements(10.0, 0.5, 2.0 + 1e-12, 4.0 - 1e-12, -20.0, 0.5 + 1e-12, 1.0)
        .to_pos_vel(&sky())
        .unwrap();
    let (one, two) = (six(one), six(two));
    for i in 0..6 {
        assert!((one[i] - two[i]).abs() < 1e-11);
    }
}

#[test]
fn test_elements_roundtrip() {
    for ecc in [0.001, 0.1, 0.5, 1.0, 2.0] {
        for epoch in [-10.0, 0.0, 10.0] {
            for incl in [-2.0, 0.1, 0.0, 2.0] {
                for lon_of_asc in [-0.5, 0.0, 4.0] {
                    for peri_time in [-100., 0.0, 100.0] {
                        for peri_arg in [-1.0, 0.0, 1.0] {
                            for peri_dist in [0.3, 0.5] {
                                let elem = elements(
                                    epoch, ecc, incl, lon_of_asc, peri_time, peri_arg, peri_dist,
                                );
                                let m = elem.to_pos_vel(&sky()).expect("no state");
                                let new_elem = again(epoch, m);
                                let n = new_elem.to_pos_vel(&sky()).expect("no state");
                                let (old, new) = (six(m), six(n));
                                for idx in 0..6 {
                                    assert!(
                                        (new[idx] - old[idx]).abs() < 1e-7,
                                        "{elem:?} {new_elem:?} {old:?} {new:?}",
                                    );
                                }

                                let t_anom = ((g(elem.true_anomaly(&sky()).unwrap())
                                    - g(new_elem.true_anomaly(&sky()).unwrap()))
                                    * 2.0)
                                    .sin()
                                    .abs();
                                let t_ecc = ((g(elem.eccentric_anomaly(&sky()).unwrap())
                                    - g(new_elem.eccentric_anomaly(&sky()).unwrap()))
                                    * 2.0)
                                    .sin()
                                    .abs();
                                assert!(t_anom < 1e-6);
                                assert!(t_ecc < 1e-6);
                            }
                        }
                    }
                }
            }
        }
    }
}

#[test]
fn test_elements_roundtrip_circular() {
    let ecc = 0.0;
    for incl in [-1.0, 0.1, 0.0, 1.0] {
        for epoch in [-10.0, 0.0, 10.0] {
            for lon_of_asc in [0.0, 1.5] {
                for peri_time in [-100., 0.0, 100.0] {
                    for peri_arg in [0.0, 1.0] {
                        for peri_dist in [0.3, 0.5] {
                            let elem = elements(
                                epoch, ecc, incl, lon_of_asc, peri_time, peri_arg, peri_dist,
                            );
                            let m = elem.to_pos_vel(&sky()).unwrap();
                            let new_elem = again(epoch, m);
                            let n = new_elem.to_pos_vel(&sky()).unwrap();
                            let (old, new) = (six(m), six(n));
                            for idx in 0..6 {
                                assert!(
                                    (new[idx] - old[idx]).abs() < 1e-7,
                                    "{elem:?} {new_elem:?} {old:?} {new:?}",
                                );
                            }
                            let mean = g(elem.mean_anomaly(&ops(), constants()));
                            assert!((g(elem.true_anomaly(&sky()).unwrap()) - mean).abs() < 1e-7);
                            assert!(
                                (g(elem.eccentric_anomaly(&sky()).unwrap()) - mean).abs() < 1e-7
                            );
                        }
                    }
                }
            }
        }
    }
}

#[test]
fn sizes_of_a_parabola_and_of_other_conics() {
    let (o, c) = (ops(), constants());
    let ellipse = elements(0.0, 0.5, 0.0, 0.0, 0.0, 0.0, 1.0);
    assert_eq!(g(ellipse.semi_major(&o, c)), 2.0);
    assert_eq!(g(ellipse.aphelion(&o, c)), 3.0);
    let year = std::f64::consts::TAU * 2.0_f64.powf(1.5) / gms_sqrt();
    assert_eq!(g(ellipse.orbital_period(&o, c)), year);
    assert_eq!(g(ellipse.mean_motion(&o, c)), gms_sqrt() / 2.0_f64.powf(1.5));

    let parabola = elements(0.0, 1.0, 0.0, 0.0, 0.0, 0.0, 1.0);
    assert!(g(parabola.semi_major(&o, c)).is_nan());
    assert!(g(parabola.aphelion(&o, c)).is_nan());
    assert_eq!(g(parabola.orbital_period(&o, c)), f64::INFINITY);
    assert_eq!(g(parabola.mean_motion(&o, c)), gms_sqrt() * 1.5 / 2.0_f64.sqrt());

    let hyperbola = elements(0.0, 2.0, 0.0, 0.0, 0.0, 0.0, 1.0);
    assert_eq!(g(hyperbola.semi_major(&o, c)), -1.0);
    assert_eq!(g(hyperbola.orbital_period(&o, c)), f64::INFINITY);
    assert!(ellipse.is_elliptical(&o, c) && !ellipse.is_hyperbolic(&o, c));
    assert!(hyperbola.is_hyperbolic(&o, c) && !hyperbola.is_parabolic(&o, c));
}

#[test]
fn an_anomaly_which_cannot_be_found_is_a_fault() {
    let bad = elements(0.0, -0.5, 0.0, 0.0, 0.0, 0.0, 1.0);
    assert_eq!(bad.to_pos_vel(&sky()).unwrap_err(), Error::Bounds);
    assert_eq!(bad.try_to_state(&sky()).unwrap_err(), Error::Bounds);
    assert_eq!(bad.true_anomaly(&sky()).unwrap_err(), Error::Bounds);
}

#[test]
fn elements_of_a_state_use_the_mass_of_its_center() {
    let earth = GravParams { naif_id: 399, mass: f(8.887e-10),
        radius: F32 { bits: 4.26e-5_f32.to_bits() } };
    let state: State<Ecliptic> = State::new(
        Desig::Naif(301),
        at(1.0),
        vector(0.0026, 0.0, 0.0),
        vector(0.0, 0.0006, 0.0),
        DynCenter(399),
    );
    let e = CometElements::from_state(&ops(), constants(), &[earth], &state);
    assert_eq!(e.center_id, 399);
    assert_eq!(g(e.gm_sqrt), 8.887e-10_f64.sqrt());
    let unknown = CometElements::from_state(&ops(), constants(), &[], &state);
    assert_eq!(g(unknown.gm_sqrt), gms_sqrt());
    assert_eq!(unknown.desig, Desig::Naif(301));
    let back = e.try_to_state(&sky()).unwrap();
    assert!((g(back.pos.x) - 0.0026).abs() < 1e-12);
    assert_eq!(back.center_id(), 399);
}
