//! Mixtures of states with a covariance.
use kete::algebra::{Eigen, Linear};
use kete::arithmetic::{Binary, Ops, Unary};
use kete::desig::Desig;
use kete::errors::{Error, KeteResult, ValueFault};
use kete::float::F64;
use kete::frames::{DynCenter, Equatorial, InertialFrame, Vector};
use kete::state::{DiffuseState, State, UncertainState};
use kete::state::diffuse::{HUBER_K3_MEANS, HUBER_K3_SIGMA, HUBER_K3_WEIGHTS, split_axial_k3_along};
use kete::state::uncertain::Sample;
use kete::table::Table;
use kete::time::Time;
use nalgebra::{DMatrix, DVector};
use rand::{Rng, SeedableRng};
use rand::rngs::StdRng;
use rand_distr::{StandardNormal, StandardUniform};

fn f(x: f64) -> F64 {
    F64::from_bits(x.to_bits())
}

fn g(x: F64) -> f64 {
    f64::from_bits(x.to_bits())
}

fn binary(op: Binary, a: F64, b: F64) -> F64 {
    let (a, b) = (g(a), g(b));
    f(match op {
        Binary::Add => a + b,
        Binary::Subtract => a - b,
        Binary::Multiply => a * b,
        Binary::Divide => a / b,
        Binary::Power => a.powf(b),
        Binary::Atan2 => a.atan2(b),
        Binary::RemEuclid => a.rem_euclid(b),
    })
}

fn unary(op: Unary, a: F64) -> F64 {
    let a = g(a);
    f(match op {
        Unary::Sqrt => a.sqrt(),
        Unary::Sin => a.sin(),
        Unary::Cos => a.cos(),
        Unary::Tan => a.tan(),
        Unary::Acos => a.acos(),
        Unary::Atan => a.atan(),
        Unary::Sinh => a.sinh(),
        Unary::Cosh => a.cosh(),
        Unary::Acosh => a.acosh(),
        Unary::Ln => a.ln(),
        Unary::Cbrt => a.cbrt(),
        Unary::Asinh => a.asinh(),
        Unary::Cubed => a.powi(3),
        Unary::Squared => a.powi(2),
        Unary::InverseCube => a.powi(-3),
    })
}

fn integer(n: u64) -> F64 {
    f(n as f64)
}

type Plain = Ops<fn(Binary, F64, F64) -> F64, fn(Unary, F64) -> F64, fn(u64) -> F64>;

/// The arithmetic of the machine.
fn ops() -> Plain {
    Ops { binary, unary, integer }
}

fn vector<T: InertialFrame>(x: f64, y: f64, z: f64) -> Vector<T> {
    Vector::new([f(x), f(y), f(z)])
}

fn to_matrix(t: &Table) -> DMatrix<f64> {
    DMatrix::from_fn(t.nrows, t.ncols, |i, j| g(t.get(i, j)))
}

fn to_table(m: &DMatrix<f64>) -> Table {
    let cells = (0..m.nrows())
        .map(|i| (0..m.ncols()).map(|j| f(m[(i, j)])).collect())
        .collect();
    Table { nrows: m.nrows(), ncols: m.ncols(), cells }
}

fn eigen(t: &Table) -> Eigen {
    let e = to_matrix(t).symmetric_eigen();
    Eigen {
        values: e.eigenvalues.iter().map(|x| f(*x)).collect(),
        vectors: to_table(&e.eigenvectors),
    }
}

fn inverse(t: &Table) -> Option<Table> {
    to_matrix(t).try_inverse().map(|m| to_table(&m))
}

type Full<W> = Linear<W, fn(&Table) -> Eigen, fn(&Table) -> Option<Table>>;

/// An arithmetic with eigenvalues and inverses.
fn linear<W>(world: W) -> Full<W> {
    Linear { world, eigen, inverse }
}

fn test_state(desig: &str) -> State<Equatorial> {
    State::new(
        Desig::Name(desig.to_string()),
        Time::new(f(2451545.0)),
        vector(1.0, 0.0, 0.0),
        vector(0.0, 0.01720209895, 0.0),
        DynCenter(10),
    )
}

fn scaled_identity(n: usize, k: f64) -> Table {
    to_table(&(DMatrix::identity(n, n) * k))
}

fn diagonal(d: &[f64]) -> Table {
    to_table(&DMatrix::from_diagonal(&DVector::from_row_slice(d)))
}

fn fs(v: &[f64]) -> Vec<F64> {
    v.iter().map(|x| f(*x)).collect()
}

fn gs(v: &[F64]) -> Vec<f64> {
    v.iter().map(|x| g(*x)).collect()
}

fn small_uncertain(desig: &str) -> UncertainState {
    UncertainState::new(test_state(desig), scaled_identity(6, 1e-12), vec![]).unwrap()
}

fn uncertain(state: State<Equatorial>, cov: Table, params: &[f64]) -> UncertainState {
    UncertainState::new(state, cov, fs(params)).unwrap()
}

fn mixture(weights: &[f64], components: Vec<UncertainState>) -> KeteResult<DiffuseState> {
    DiffuseState::new(&ops(), fs(weights), components)
}

fn fault<R>(r: KeteResult<R>) -> ValueFault {
    match r {
        Err(Error::ValueError(fault)) => fault,
        _ => panic!("no fault of the values"),
    }
}

/// Draw from a mixture: first the components, then each of them with its own seed.
fn sample(d: &DiffuseState, count: usize, seed: u64) -> Vec<Sample<Equatorial, DynCenter>> {
    let mut rng = StdRng::seed_from_u64(seed);
    let uniform: Vec<F64> =
        (0..count).map(|_| f(rng.sample::<f64, _>(StandardUniform))).collect();
    let counts = d.sample_counts(&ops(), &uniform);
    let draws: Vec<Vec<Vec<F64>>> = counts
        .iter()
        .enumerate()
        .map(|(i, n)| {
            let own = DiffuseState::<Equatorial, DynCenter>::component_seed(Some(seed), i);
            let mut rng = StdRng::seed_from_u64(own.unwrap());
            let dim = 6 + d.components[i].n_free_params();
            (0..*n)
                .map(|_| (0..dim).map(|_| f(rng.sample::<f64, _>(StandardNormal))).collect())
                .collect()
        })
        .collect();
    d.sample(&linear(ops()), &draws).unwrap()
}

#[test]
fn test_new_validates_weights_sum() {
    let comps = || vec![small_uncertain("A"), small_uncertain("B")];
    // Sum != 1.
    assert_eq!(fault(mixture(&[0.4, 0.4], comps())), ValueFault::WeightSum);
    // Negative weight.
    assert_eq!(fault(mixture(&[1.2, -0.2], comps())), ValueFault::BadWeight);
    // Length mismatch.
    assert_eq!(
        fault(mixture(&[1.0], comps())),
        ValueFault::WeightCount { weights: 1, components: 2 }
    );
    // Empty components.
    assert_eq!(fault(mixture(&[], vec![])), ValueFault::NoComponents);
    // Valid.
    assert!(mixture(&[0.5, 0.5], comps()).is_ok());
}

#[test]
fn test_new_validates_epoch_and_center() {
    // Different epoch.
    let mut a = small_uncertain("A");
    a.state.epoch = Time::new(f(2451600.0));
    let b = small_uncertain("B");
    assert_eq!(fault(mixture(&[0.5, 0.5], vec![a, b])), ValueFault::ComponentEpoch(1));

    // Different center: SSB instead of Sun.
    let a = small_uncertain("A");
    let mut b = small_uncertain("B");
    b.state.center = DynCenter(0);
    assert_eq!(fault(mixture(&[0.5, 0.5], vec![a, b])), ValueFault::ComponentCenter(1));

    // Restore matching center, expect ok.
    let a = small_uncertain("A");
    let b = small_uncertain("B");
    assert!(mixture(&[0.5, 0.5], vec![a, b]).is_ok());
}

#[test]
fn test_new_validates_covariance_dim() {
    let st = test_state("A");
    let plain = uncertain(st.clone(), scaled_identity(6, 1e-12), &[]);
    let with_param = || uncertain(st.clone(), scaled_identity(7, 1e-12), &[0.01]);

    // Mixing 6x6 and 7x7 cov dims is invalid.
    assert_eq!(
        fault(mixture(&[0.5, 0.5], vec![plain, with_param()])),
        ValueFault::ComponentSize(1)
    );

    // Two components both with one free param (different values) are valid.
    let with_param2 = uncertain(st.clone(), scaled_identity(7, 1e-12), &[0.05]);
    let mix = mixture(&[0.5, 0.5], vec![with_param(), with_param2]).unwrap();
    assert_eq!(mix.n_components(), 2);
    assert_eq!(mix.n_params(), 1);
    assert_eq!(mix.cov_dim(), 7);
}

#[test]
fn test_from_uncertain_single_component() {
    let d = DiffuseState::from_uncertain(small_uncertain("solo"));
    assert_eq!(d.n_components(), 1);
    assert_eq!(gs(&d.weights), vec![1.0]);
    assert_eq!(d.cov_dim(), 6);
}

#[test]
fn test_mean_state_collapses_for_single_component() {
    let u = small_uncertain("A");
    let (want_pos, want_vel) = (u.state.pos, u.state.vel);
    let m = DiffuseState::from_uncertain(u).mean_state(&ops());
    assert_eq!(m.pos.components().map(g), want_pos.components().map(g));
    assert_eq!(m.vel.components().map(g), want_vel.components().map(g));
}

#[test]
fn test_mean_state_two_component() {
    let mut a = small_uncertain("A");
    let mut b = small_uncertain("B");
    a.state.pos = vector(0.0, 0.0, 0.0);
    a.state.vel = vector(0.0, 0.0, 0.0);
    b.state.pos = vector(2.0, 0.0, 0.0);
    b.state.vel = vector(0.0, 1.0, 0.0);
    let d = mixture(&[0.25, 0.75], vec![a, b]).unwrap();
    let m = d.mean_state(&ops());
    // 0.25 * 0 + 0.75 * 2 = 1.5
    assert!((g(m.pos.x) - 1.5).abs() < 1e-15);
    // 0.25 * 0 + 0.75 * 1 = 0.75
    assert!((g(m.vel.y) - 0.75).abs() < 1e-15);
}

#[test]
fn test_covariance_law_of_total_variance() {
    let mut a_state = test_state("A");
    a_state.pos = vector(-1.0, 0.0, 0.0);
    let mut b_state = test_state("A");
    b_state.pos = vector(1.0, 0.0, 0.0);
    let a = uncertain(a_state, scaled_identity(6, 1e-6), &[]);
    let b = uncertain(b_state, scaled_identity(6, 1e-6), &[]);
    let cov = mixture(&[0.5, 0.5], vec![a, b]).unwrap().covariance(&ops());
    // Within: 1e-6.  Between along x: 0.5 * (-1)^2 + 0.5 * 1^2 = 1.0.
    assert!((g(cov.get(0, 0)) - (1e-6 + 1.0)).abs() < 1e-12);
    // Other diagonal entries get only the within term.
    assert!((g(cov.get(1, 1)) - 1e-6).abs() < 1e-12);
    assert!((g(cov.get(2, 2)) - 1e-6).abs() < 1e-12);
}

#[test]
fn test_mean_params_with_free_params() {
    let a = uncertain(test_state("A"), scaled_identity(7, 1e-12), &[0.01]);
    let b = uncertain(test_state("A"), scaled_identity(7, 1e-12), &[0.05]);
    let p = mixture(&[0.5, 0.5], vec![a, b]).unwrap().mean_params(&ops());
    assert_eq!(p.len(), 1);
    assert!((g(p[0]) - 0.03).abs() < 1e-15);
}

#[test]
fn test_sample_count_and_distribution() {
    let mut a = small_uncertain("A");
    let mut b = small_uncertain("B");
    a.state.pos = vector(0.0, 0.0, 0.0);
    b.state.pos = vector(100.0, 0.0, 0.0);
    let d = mixture(&[0.9, 0.1], vec![a, b]).unwrap();

    let samples = sample(&d, 1000, 7);
    assert_eq!(samples.len(), 1000);
    let n_a = samples.iter().filter(|s| g(s.state.pos.x) < 50.0).count();
    // Expect ~900 from component A; allow generous slack.
    assert!(n_a > 850 && n_a < 950, "got n_a = {n_a}");
}

#[test]
fn test_sample_seed_is_deterministic() {
    let d = mixture(&[0.5, 0.5], vec![small_uncertain("A"), small_uncertain("B")]).unwrap();
    let s1 = sample(&d, 20, 42);
    let s2 = sample(&d, 20, 42);
    assert_eq!(s1.len(), s2.len());
    for (a, b) in s1.iter().zip(s2.iter()) {
        assert_eq!(a.state, b.state);
    }
}

#[test]
fn each_draw_picks_the_component_it_falls_on() {
    let comps = vec![small_uncertain("A"), small_uncertain("B"), small_uncertain("C")];
    let d = mixture(&[0.25, 0.5, 0.25], comps).unwrap();
    let uniform = fs(&[0.0, 0.25, 0.26, 0.75, 0.76, 0.999, 2.0]);
    assert_eq!(d.sample_counts(&ops(), &uniform), vec![2, 2, 3]);
    let seed = DiffuseState::<Equatorial, DynCenter>::component_seed;
    assert_eq!(seed(None, 3), None);
    assert_ne!(seed(Some(1), 0), seed(Some(1), 1));
}

#[test]
fn test_prune_drops_low_weight_components() {
    let comps = vec![small_uncertain("A"), small_uncertain("B"), small_uncertain("C")];
    let mut d = mixture(&[0.6, 0.3, 0.1], comps).unwrap();
    d.prune(&ops(), f(0.2)).unwrap();
    assert_eq!(d.n_components(), 2);
    let w = gs(&d.weights);
    // Remaining weights renormalize to sum to 1.
    assert!((w.iter().sum::<f64>() - 1.0).abs() < 1e-15);
    // Original ratio 0.6 : 0.3 = 2 : 1 -> 2/3, 1/3.
    assert!((w[0] - 2.0 / 3.0).abs() < 1e-15);
    assert!((w[1] - 1.0 / 3.0).abs() < 1e-15);
}

#[test]
fn test_prune_rejects_total_pruning() {
    let mut d = DiffuseState::from_uncertain(small_uncertain("A"));
    assert_eq!(fault(d.prune(&ops(), f(2.0))), ValueFault::AllPruned);
    assert_eq!(d.n_components(), 1);
}

#[test]
fn weights_which_are_left_cannot_all_be_zero() {
    let comps = vec![small_uncertain("A"), small_uncertain("B")];
    let mut d = mixture(&[1.0, 0.0], comps).unwrap();
    d.weights = fs(&[0.0, 0.0]);
    assert_eq!(fault(d.prune(&ops(), f(0.0))), ValueFault::NoWeightLeft);
}

#[test]
fn test_huber_k3_constants_preserve_moments() {
    let weights = HUBER_K3_WEIGHTS.map(f64::from_bits);
    let means = HUBER_K3_MEANS.map(f64::from_bits);
    let sigma = f64::from_bits(HUBER_K3_SIGMA);
    let sum: f64 = weights.iter().sum();
    assert!((sum - 1.0).abs() < 1e-15, "weights must sum to 1: got {sum}");
    let mean: f64 = weights.iter().zip(means.iter()).map(|(w, m)| w * m).sum();
    assert!(mean.abs() < 1e-15, "mean must be 0: got {mean}");
    let variance: f64 =
        weights.iter().zip(means.iter()).map(|(w, m)| w * (m * m + sigma * sigma)).sum();
    assert!((variance - 1.0).abs() < 1e-15, "variance must be 1: got {variance}");
}

#[test]
fn test_split_component_basic() {
    let mut a = small_uncertain("A");
    a.cov_matrix = diagonal(&[1.0, 1e-6, 1e-6, 1e-12, 1e-12, 1e-12]);
    let d = DiffuseState::from_uncertain(a);
    let split = d.split_component(&linear(ops()), 0).unwrap();
    assert_eq!(split.n_components(), 3);
    let total_w: f64 = gs(&split.weights).iter().sum();
    assert!((total_w - 1.0).abs() < 1e-15);
    for (got, want) in gs(&split.weights).iter().zip(HUBER_K3_WEIGHTS.map(f64::from_bits)) {
        assert!((got - want).abs() < 1e-15);
    }
}

#[test]
fn test_split_component_preserves_moments() {
    let cov = diagonal(&[4.0, 1.0, 1.0, 0.01, 0.01, 0.01]);
    let a = uncertain(test_state("A"), cov.clone(), &[]);
    let original_mean = a.state.pos.components().map(g);
    let d = DiffuseState::from_uncertain(a);

    let split = d.split_component(&linear(ops()), 0).unwrap();
    let split_mean = split.mean_state(&ops()).pos.components().map(g);
    let split_cov = split.covariance(&ops());

    // Mean is preserved.
    for i in 0..3 {
        let (a, b) = (split_mean[i], original_mean[i]);
        assert!((a - b).abs() < 1e-12, "mean[{i}] changed: {a} vs {b}");
    }
    // Total covariance is preserved (law of total variance).
    for r in 0..6 {
        for c in 0..6 {
            let (a, b) = (g(split_cov.get(r, c)), g(cov.get(r, c)));
            let rel_err = (a - b).abs() / b.abs().max(1e-12);
            assert!(rel_err < 1e-12, "cov[{r},{c}] changed: {a} vs {b}, rel_err={rel_err}");
        }
    }
}

#[test]
fn test_split_component_param_axis() {
    let cov = diagonal(&[1e-12, 1e-12, 1e-12, 1e-20, 1e-20, 1e-20, 1e-4]);
    let d = DiffuseState::from_uncertain(uncertain(test_state("A"), cov, &[0.01]));
    let split = d.split_component(&linear(ops()), 0).unwrap();
    assert_eq!(split.n_components(), 3);

    // sqrt(3/2) * 0.01
    let offset = f64::from_bits(HUBER_K3_MEANS[2]) * 1e-4_f64.sqrt();
    let mut params: Vec<f64> =
        split.components.iter().map(|c| g(c.free_params[0])).collect();
    params.sort_by(f64::total_cmp);
    assert!((params[0] - (0.01 - offset)).abs() < 1e-10);
    assert!((params[1] - 0.01).abs() < 1e-10);
    assert!((params[2] - (0.01 + offset)).abs() < 1e-10);
}

#[test]
fn test_split_component_rejects_zero_covariance() {
    let a = uncertain(test_state("A"), scaled_identity(6, 0.0), &[]);
    let d = DiffuseState::from_uncertain(a);
    assert_eq!(
        fault(d.split_component(&linear(ops()), 0)),
        ValueFault::NoPositiveEigenvalue
    );
}

#[test]
fn test_split_component_rejects_out_of_range() {
    let d = DiffuseState::from_uncertain(small_uncertain("A"));
    assert_eq!(
        fault(d.split_component(&linear(ops()), 7)),
        ValueFault::NoSuchComponent { index: 7, count: 1 }
    );
}

#[test]
fn test_split_along_arbitrary_direction_preserves_moments() {
    let st = test_state("A");
    let cov = diagonal(&[1.5, 1.0, 0.8, 1.2, 1.2, 1.2]);
    let component = uncertain(st.clone(), cov.clone(), &[]);
    let direction = fs(&[1.0, 0.5, 0.0, 0.7, 0.0, -0.3]);

    let parts = split_axial_k3_along(&linear(ops()), &component, &direction).unwrap();
    let weights: Vec<f64> = parts.iter().map(|p| g(p.weight)).collect();
    let comps: Vec<UncertainState> = parts.into_iter().map(|p| p.component).collect();
    let mixture = mixture(&weights, comps).unwrap();

    let m = mixture.mean_state(&ops());
    let (mp, sp) = (m.pos.components().map(g), st.pos.components().map(g));
    let (mv, sv) = (m.vel.components().map(g), st.vel.components().map(g));
    for i in 0..3 {
        assert!((mp[i] - sp[i]).abs() < 1e-12, "pos[{i}] mismatch");
        assert!((mv[i] - sv[i]).abs() < 1e-12, "vel[{i}] mismatch");
    }
    let cov_total = mixture.covariance(&ops());
    for r in 0..6 {
        for c in 0..6 {
            let (a, b) = (g(cov_total.get(r, c)), g(cov.get(r, c)));
            let tol = 1e-12 + b.abs() * 1e-12;
            assert!((a - b).abs() < tol, "cov[{r},{c}] mismatch: {a} vs {b}");
        }
    }
}

#[test]
fn test_split_along_validates_direction() {
    let component = uncertain(test_state("A"), scaled_identity(6, 1.0), &[]);
    let split = |d: &[f64]| split_axial_k3_along(&linear(ops()), &component, &fs(d));
    // Zero direction.
    assert_eq!(fault(split(&[0.0; 6])), ValueFault::BadDirection);
    // Wrong length.
    assert_eq!(
        fault(split(&[1.0; 7])),
        ValueFault::DirectionLength { length: 7, size: 6 }
    );
    assert_eq!(fault(split(&[f64::NAN; 6])), ValueFault::BadDirection);
}

#[test]
fn test_split_along_isotropic_is_psd_for_any_direction() {
    let component = uncertain(test_state("A"), scaled_identity(6, 0.25), &[]);
    let directions = [
        [1.0, 1.0, 1.0, 0.0, 0.0, 0.0],
        [0.0, 0.0, 0.0, 1.0, -1.0, 1.0],
        [0.4, 0.5, -0.3, 0.6, 0.0, -0.4],
        [1e-6, 1e-6, 1e-6, 1.0, 1.0, 1.0],
    ];
    for entries in directions {
        let parts = split_axial_k3_along(&linear(ops()), &component, &fs(&entries)).unwrap();
        assert_eq!(parts.len(), 3);
    }
}

#[test]
fn splits_need_variance_and_leave_it_positive() {
    let flat = uncertain(test_state("A"), diagonal(&[0.0, 1.0, 1.0, 1.0, 1.0, 1.0]), &[]);
    let along_x = fs(&[1.0, 0.0, 0.0, 0.0, 0.0, 0.0]);
    assert_eq!(
        fault(split_axial_k3_along(&linear(ops()), &flat, &along_x)),
        ValueFault::NoVariance
    );
    // Far from the axes of a long ellipsoid the reduction takes too much away.
    let long = uncertain(test_state("A"), diagonal(&[1e6, 1e-6, 1.0, 1.0, 1.0, 1.0]), &[]);
    let across = fs(&[1.0, 1.0, 0.0, 0.0, 0.0, 0.0]);
    assert_eq!(
        fault(split_axial_k3_along(&linear(ops()), &long, &across)),
        ValueFault::SplitIndefinite
    );
}
