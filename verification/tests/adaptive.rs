//! Mixtures which are split where motion is not linear.
use kete::algebra::{Eigen, Linear};
use kete::arithmetic::{Binary, Ops, Unary};
use kete::desig::Desig;
use kete::errors::{Error, KeteResult, ValueFault};
use kete::float::F64;
use kete::forces::ForceFunction;
use kete::forces::traits::Jacobians;
use kete::frames::{Equatorial, InertialFrame, SSB, Vector};
use kete::matrix::Matrix3;
use kete::state::{
    DiffuseState, SplitConfig, State, UncertainState, covariance_update,
    mixture_sigma_point_divergence, propagate_diffuse_state_adaptive, propagate_with_diagnosis,
    sigma_point_divergence,
};
use kete::table::Table;
use kete::time::Time;
use nalgebra::{DMatrix, DVector};

fn f(x: f64) -> F64 {
    F64::from_bits(x.to_bits())
}

fn g(x: F64) -> f64 {
    f64::from_bits(x.to_bits())
}

fn binary(op: Binary, a: F64, b: F64) -> F64 {
    let (a, b) = (g(a), g(b));
    f(match op {
        Binary::Add => a + b,
        Binary::Subtract => a - b,
        Binary::Multiply => a * b,
        Binary::Divide => a / b,
        Binary::Power => a.powf(b),
        Binary::Atan2 => a.atan2(b),
        Binary::RemEuclid => a.rem_euclid(b),
    })
}

fn unary(op: Unary, a: F64) -> F64 {
    let a = g(a);
    f(match op {
        Unary::Sqrt => a.sqrt(),
        Unary::Sin => a.sin(),
        Unary::Cos => a.cos(),
        Unary::Tan => a.tan(),
        Unary::Acos => a.acos(),
        Unary::Atan => a.atan(),
        Unary::Sinh => a.sinh(),
        Unary::Cosh => a.cosh(),
        Unary::Acosh => a.acosh(),
        Unary::Ln => a.ln(),
        Unary::Cbrt => a.cbrt(),
        Unary::Asinh => a.asinh(),
        Unary::Cubed => a.powi(3),
        Unary::Squared => a.powi(2),
        Unary::InverseCube => a.powi(-3),
    })
}

fn integer(n: u64) -> F64 {
    f(n as f64)
}

type Plain = Ops<fn(Binary, F64, F64) -> F64, fn(Unary, F64) -> F64, fn(u64) -> F64>;

/// The arithmetic of the machine.
fn ops() -> Plain {
    Ops { binary, unary, integer }
}

fn to_matrix(t: &Table) -> DMatrix<f64> {
    DMatrix::from_fn(t.nrows, t.ncols, |i, j| g(t.get(i, j)))
}

fn to_table(m: &DMatrix<f64>) -> Table {
    let cells = (0..m.nrows())
        .map(|i| (0..m.ncols()).map(|j| f(m[(i, j)])).collect())
        .collect();
    Table { nrows: m.nrows(), ncols: m.ncols(), cells }
}

fn eigen(t: &Table) -> Eigen {
    let e = to_matrix(t).symmetric_eigen();
    Eigen {
        values: e.eigenvalues.iter().map(|x| f(*x)).collect(),
        vectors: to_table(&e.eigenvectors),
    }
}

fn inverse(t: &Table) -> Option<Table> {
    to_matrix(t).try_inverse().map(|m| to_table(&m))
}

type Full<W> = Linear<W, fn(&Table) -> Eigen, fn(&Table) -> Option<Table>>;

/// An arithmetic with eigenvalues and inverses.
fn linear<W>(world: W) -> Full<W> {
    Linear { world, eigen, inverse }
}

const GMS: f64 = 0.000_295_912_208_284_119_56;

fn vector<T: InertialFrame>(x: f64, y: f64, z: f64) -> Vector<T> {
    Vector::new([f(x), f(y), f(z)])
}

fn dot(a: [f64; 3], b: [f64; 3]) -> f64 {
    a[0] * b[0] + a[1] * b[1] + a[2] * b[2]
}

/// A function of time, position, velocity and parameters.
type Given<R> = fn(Time, Vector<Equatorial>, Vector<Equatorial>, &[F64]) -> KeteResult<R>;

/// The force of three such functions.
type Force = ForceFunction<
    Equatorial,
    SSB,
    Given<Vector<Equatorial>>,
    Given<Jacobians<Equatorial>>,
    Given<Vec<Vector<Equatorial>>>,
>;

fn pull(gm: f64, pos: Vector<Equatorial>) -> Vector<Equatorial> {
    let p = pos.components().map(g);
    let r3 = dot(p, p).sqrt().powi(3);
    vector(-p[0] * (gm / r3), -p[1] * (gm / r3), -p[2] * (gm / r3))
}

fn pull_jacobians(gm: f64, pos: Vector<Equatorial>) -> Jacobians<Equatorial> {
    let p = pos.components().map(g);
    let r2 = dot(p, p);
    let r5 = r2 * r2 * r2.sqrt();
    let row = |i: usize| {
        let cell = |j: usize| {
            let same = if i == j { r2 } else { 0.0 };
            (3.0 * p[i] * p[j] - same) * (gm / r5)
        };
        vector(cell(0), cell(1), cell(2))
    };
    Jacobians { pos: Matrix3 { x: row(0), y: row(1), z: row(2) }, vel: Matrix3::zeros() }
}

fn two_body_accel(
    _: Time,
    pos: Vector<Equatorial>,
    _: Vector<Equatorial>,
    _: &[F64],
) -> KeteResult<Vector<Equatorial>> {
    Ok(pull(GMS, pos))
}

fn two_body_jacobians(
    _: Time,
    pos: Vector<Equatorial>,
    _: Vector<Equatorial>,
    _: &[F64],
) -> KeteResult<Jacobians<Equatorial>> {
    Ok(pull_jacobians(GMS, pos))
}

fn no_partials(
    _: Time,
    _: Vector<Equatorial>,
    _: Vector<Equatorial>,
    _: &[F64],
) -> KeteResult<Vec<Vector<Equatorial>>> {
    Ok(vec![])
}

/// The pull of the Sun, without free parameters.
fn two_body_force() -> Force {
    ForceFunction::new(vec![], vec![], two_body_accel, two_body_jacobians, no_partials)
}

const MANY: u64 = 100_000;

fn time(jd: f64) -> Time {
    Time::new(f(jd))
}

fn fs(v: &[f64]) -> Vec<F64> {
    v.iter().map(|x| f(*x)).collect()
}

fn diagonal(d: &[f64]) -> Table {
    to_table(&DMatrix::from_diagonal(&DVector::from_row_slice(d)))
}

/// On a circle about the center, with the same spread along each axis.
fn component(spread: f64) -> UncertainState<Equatorial, SSB> {
    let state = State::new(
        Desig::Perm(1),
        time(0.0),
        vector(1.0, 0.0, 0.0),
        vector(0.0, GMS.sqrt(), 0.0),
        SSB,
    );
    let p = spread * spread;
    let v = p * GMS;
    UncertainState::new(state, diagonal(&[p, p, p, v, v, v]), vec![]).unwrap()
}

fn fault<R>(r: KeteResult<R>) -> ValueFault {
    match r {
        Err(Error::ValueError(fault)) => fault,
        _ => panic!("no fault of the values"),
    }
}

fn diverges(spread: f64, days: f64) -> f64 {
    let r = sigma_point_divergence(
        &linear(ops()),
        &two_body_force(),
        &component(spread),
        time(days),
        3,
        f(1.0),
        MANY,
    );
    g(r.unwrap().unwrap())
}

fn adaptive(
    d: &DiffuseState<Equatorial, SSB>,
    days: f64,
    config: &SplitConfig,
) -> KeteResult<Option<DiffuseState<Equatorial, SSB>>> {
    propagate_diffuse_state_adaptive(
        &linear(ops()),
        &two_body_force(),
        d,
        time(days),
        config,
        MANY,
    )
}

#[test]
fn the_defaults_of_a_split() {
    let c = SplitConfig::default();
    assert_eq!(g(c.split_threshold), 0.05);
    assert_eq!((c.max_components, c.max_split_depth, c.n_axes), (64, 4, 3));
    assert_eq!(g(c.sigma_factor), 1.0);
    assert_eq!(g(c.prune_threshold), 0.0);
}

#[test]
fn a_wider_spread_is_less_linear() {
    let narrow = diverges(1e-6, 50.0);
    let wide = diverges(1e-2, 50.0);
    assert!(narrow < 1e-4, "{narrow}");
    assert!(wide > 10.0 * narrow, "{wide} {narrow}");
}

#[test]
fn a_diagnosis_says_where_the_spread_ends() {
    let d = propagate_with_diagnosis(
        &linear(ops()),
        &two_body_force(),
        &component(1e-4),
        time(10.0),
        2,
        f(1.0),
        MANY,
    )
    .unwrap()
    .unwrap();
    assert_eq!(g(d.propagated.state.epoch.jd), 10.0);
    assert_eq!((d.augmented_stm.nrows, d.augmented_stm.ncols), (6, 6));
    let cov = covariance_update(&ops(), &d.augmented_stm, &component(1e-4).cov_matrix);
    for i in 0..6 {
        for j in 0..6 {
            let (a, b) = (g(cov.get(i, j)), g(d.propagated.cov_matrix.get(i, j)));
            assert!((a - b).abs() < 1e-20, "{a} {b}");
        }
    }
    assert!(g(d.divergence) < 1e-2);
}

#[test]
fn faults_of_a_diagnosis() {
    let ask = |n_axes: usize, factor: f64| {
        sigma_point_divergence(
            &linear(ops()),
            &two_body_force(),
            &component(1e-6),
            time(1.0),
            n_axes,
            f(factor),
            MANY,
        )
    };
    assert_eq!(fault(ask(0, 1.0)), ValueFault::NoAxes);
    assert_eq!(fault(ask(3, 0.0)), ValueFault::BadSigmaFactor);
    assert_eq!(fault(ask(3, f64::NAN)), ValueFault::BadSigmaFactor);
    // There are no more axes than the covariance has.
    assert!(ask(100, 1.0).unwrap().is_some());
    let mut wrong = component(1e-6);
    wrong.cov_matrix = diagonal(&[1e-12; 7]);
    wrong.free_params = fs(&[0.0]);
    let r = sigma_point_divergence(
        &linear(ops()),
        &two_body_force(),
        &wrong,
        time(1.0),
        1,
        f(1.0),
        MANY,
    );
    assert_eq!(fault(r), ValueFault::ParamCount { needed: 0, given: 1 });
}

#[test]
fn each_component_of_a_mixture_is_tested() {
    let d = DiffuseState::new(&ops(), fs(&[0.5, 0.5]), vec![component(1e-6), component(1e-2)])
        .unwrap();
    let all = mixture_sigma_point_divergence(
        &linear(ops()),
        &two_body_force(),
        &d,
        time(50.0),
        3,
        f(1.0),
        MANY,
    )
    .unwrap()
    .unwrap();
    assert_eq!(all.len(), 2);
    assert_eq!(g(all[0]), diverges(1e-6, 50.0));
    assert_eq!(g(all[1]), diverges(1e-2, 50.0));
}

#[test]
fn a_linear_spread_stays_whole() {
    let d = DiffuseState::from_uncertain(component(1e-6));
    let end = adaptive(&d, 50.0, &SplitConfig::default()).unwrap().unwrap();
    assert_eq!(end.n_components(), 1);
    assert_eq!(g(end.weights[0]), 1.0);
    assert_eq!(g(end.epoch().jd), 50.0);
}

#[test]
fn a_curved_spread_is_split_and_keeps_its_weight() {
    let d = DiffuseState::from_uncertain(component(3e-2));
    let mut config = SplitConfig::default();
    config.split_threshold = f(1e-2);
    config.max_split_depth = 2;
    let end = adaptive(&d, 100.0, &config).unwrap().unwrap();
    assert!(end.n_components() > 1);
    assert!(end.n_components() <= 9);
    let total: f64 = end.weights.iter().map(|w| g(*w)).sum();
    assert!((total - 1.0).abs() < 1e-12);
    for c in &end.components {
        assert_eq!(g(c.state.epoch.jd), 100.0);
    }
}

#[test]
fn there_are_never_more_components_than_may_be() {
    let d = DiffuseState::from_uncertain(component(3e-2));
    let mut config = SplitConfig::default();
    config.split_threshold = f(0.0);
    config.max_components = 5;
    let end = adaptive(&d, 100.0, &config).unwrap().unwrap();
    assert_eq!(end.n_components(), 5);
    config.max_components = 2;
    assert_eq!(adaptive(&d, 100.0, &config).unwrap().unwrap().n_components(), 1);
    config.max_components = 64;
    config.max_split_depth = 0;
    assert_eq!(adaptive(&d, 100.0, &config).unwrap().unwrap().n_components(), 1);
}

#[test]
fn light_components_are_dropped_at_the_end() {
    let d = DiffuseState::from_uncertain(component(3e-2));
    let mut config = SplitConfig::default();
    config.split_threshold = f(0.0);
    config.max_components = 3;
    config.prune_threshold = f(0.5);
    let end = adaptive(&d, 100.0, &config).unwrap().unwrap();
    assert_eq!(end.n_components(), 1);
    assert_eq!(g(end.weights[0]), 1.0);
    config.prune_threshold = f(2.0);
    assert_eq!(fault(adaptive(&d, 100.0, &config)), ValueFault::AllPruned);
}

#[test]
fn faults_of_a_split() {
    let d = DiffuseState::new(&ops(), fs(&[0.5, 0.5]), vec![component(1e-6), component(1e-6)])
        .unwrap();
    let mut config = SplitConfig::default();
    config.split_threshold = f(-1.0);
    assert_eq!(fault(adaptive(&d, 1.0, &config)), ValueFault::BadSplitThreshold);
    config.split_threshold = f(f64::INFINITY);
    assert_eq!(fault(adaptive(&d, 1.0, &config)), ValueFault::BadSplitThreshold);
    config = SplitConfig::default();
    config.max_components = 1;
    assert_eq!(
        fault(adaptive(&d, 1.0, &config)),
        ValueFault::TooManyComponents { most: 1, count: 2 }
    );
    config = SplitConfig::default();
    config.n_axes = 0;
    assert_eq!(fault(adaptive(&d, 1.0, &config)), ValueFault::NoAxes);
}

#[test]
fn motion_which_takes_too_many_steps_is_not_finished() {
    let d = DiffuseState::from_uncertain(component(1e-6));
    let end = propagate_diffuse_state_adaptive(
        &linear(ops()),
        &two_body_force(),
        &d,
        time(50.0),
        &SplitConfig::default(),
        0,
    );
    assert!(end.unwrap().is_none());
}
