//! Numbers, vectors and tables.
use kete::arithmetic::{Binary, Compensated, Kahan, Ops, Unary};
use kete::float::{F32, F64};
use kete::frames::{Equatorial, Vector};
use kete::matrix::Matrix3;
use kete::numbers::{clamp, copysign, max, min};
use kete::table::Table;

fn f(x: f64) -> F64 {
    F64::from_bits(x.to_bits())
}

fn g(x: F64) -> f64 {
    f64::from_bits(x.to_bits())
}

fn binary(op: Binary, a: F64, b: F64) -> F64 {
    let (a, b) = (g(a), g(b));
    f(match op {
        Binary::Add => a + b,
        Binary::Subtract => a - b,
        Binary::Multiply => a * b,
        Binary::Divide => a / b,
        Binary::Power => a.powf(b),
        Binary::Atan2 => a.atan2(b),
        Binary::RemEuclid => a.rem_euclid(b),
    })
}

fn unary(op: Unary, a: F64) -> F64 {
    let a = g(a);
    f(match op {
        Unary::Sqrt => a.sqrt(),
        Unary::Sin => a.sin(),
        Unary::Cos => a.cos(),
        Unary::Tan => a.tan(),
        Unary::Acos => a.acos(),
        Unary::Atan => a.atan(),
        Unary::Sinh => a.sinh(),
        Unary::Cosh => a.cosh(),
        Unary::Acosh => a.acosh(),
        Unary::Ln => a.ln(),
        Unary::Cbrt => a.cbrt(),
        Unary::Asinh => a.asinh(),
        Unary::Cubed => a.powi(3),
        Unary::Squared => a.powi(2),
        Unary::InverseCube => a.powi(-3),
    })
}

fn integer(n: u64) -> F64 {
    f(n as f64)
}

type Plain = Ops<fn(Binary, F64, F64) -> F64, fn(Unary, F64) -> F64, fn(u64) -> F64>;

/// The arithmetic of the machine.
fn ops() -> Plain {
    Ops { binary, unary, integer }
}

fn vector(x: f64, y: f64, z: f64) -> Vector<Equatorial> {
    Vector::new([f(x), f(y), f(z)])
}

fn fs(v: &[f64]) -> Vec<F64> {
    v.iter().map(|x| f(*x)).collect()
}

fn gs(v: &[F64]) -> Vec<f64> {
    v.iter().map(|x| g(*x)).collect()
}

/// Numbers of every kind.
fn kinds() -> Vec<f64> {
    vec![
        f64::NAN,
        -f64::NAN,
        f64::INFINITY,
        f64::NEG_INFINITY,
        0.0,
        -0.0,
        1.0,
        -1.0,
        1.5,
        f64::MIN_POSITIVE,
        -f64::MIN_POSITIVE,
        5e-324,
        -5e-324,
        f64::MAX,
        f64::MIN,
        1e300,
    ]
}

#[test]
fn numbers_compare_as_the_machine_compares_them() {
    for a in kinds() {
        assert_eq!(f(a).is_nan(), a.is_nan());
        assert_eq!(f(a).is_finite(), a.is_finite());
        assert_eq!(f(a).is_sign_negative(), a.is_sign_negative());
        assert_eq!(f(a).neg().to_bits(), (-a).to_bits());
        assert_eq!(f(a).abs().to_bits(), a.abs().to_bits());
        for b in kinds() {
            assert_eq!(f(a).less(f(b)), a < b, "{a} < {b}");
            assert_eq!(f(a).less_or_equal(f(b)), a <= b, "{a} <= {b}");
            assert_eq!(f(a).equals(f(b)), a == b, "{a} == {b}");
            assert_eq!(f(a) == f(b), a == b, "{a} == {b}");
            assert_eq!(f(a).total_less(f(b)), a.total_cmp(&b).is_lt(), "{a} {b}");
            assert_eq!(copysign(f(a), f(b)).to_bits(), a.copysign(b).to_bits());
            let (most, least) = (g(max(f(a), f(b))), g(min(f(a), f(b))));
            assert!(most == a.max(b) || (most.is_nan() && a.max(b).is_nan()));
            assert!(least == a.min(b) || (least.is_nan() && a.min(b).is_nan()));
        }
    }
    assert_eq!(g(F64::zero()), 0.0);
    assert!(g(F64::new_nan()).is_nan());
    assert_eq!(g(clamp(f(5.0), f(0.0), f(1.0))), 1.0);
    assert_eq!(g(clamp(f(-5.0), f(0.0), f(1.0))), 0.0);
    assert_eq!(g(clamp(f(0.5), f(0.0), f(1.0))), 0.5);
}

#[test]
fn narrow_numbers_keep_their_value() {
    for a in [0.0_f32, -0.0, 1.5, -2.75, 1e-45, -1e-40, 3.4e38, f32::INFINITY, f32::MIN_POSITIVE] {
        let wide = F32 { bits: a.to_bits() }.widen();
        assert_eq!(wide.to_bits(), f64::from(a).to_bits(), "{a}");
    }
    assert!(F32 { bits: f32::NAN.to_bits() }.widen().is_nan());
}

#[test]
fn what_rounding_takes_is_put_back() {
    let o = ops();
    let mut sum = Compensated::zero();
    for term in [1.0, 1e100, 1.0, -1e100] {
        sum.neumaier_add(&o, f(term));
    }
    assert_eq!(g(sum.value(&o)), 2.0);
    let mut k = Kahan { value: f(0.0), excess: f(0.0) };
    let mut naive = 0.0;
    for _ in 0..1000 {
        k = k.step(&o, f(0.1));
        naive += 0.1;
    }
    assert_eq!(g(k.value), 100.0);
    assert_ne!(naive, 100.0);
}

#[test]
fn vectors_add_and_turn() {
    let o = ops();
    let (a, b) = (vector(1.0, 2.0, 3.0), vector(-4.0, 5.0, 0.5));
    assert_eq!(gs(&a.plus(&o, b).components()), vec![-3.0, 7.0, 3.5]);
    assert_eq!(gs(&a.minus(&o, b).components()), vec![5.0, -3.0, 2.5]);
    assert_eq!(gs(&a.scale(&o, f(2.0)).components()), vec![2.0, 4.0, 6.0]);
    assert_eq!(gs(&a.over(&o, f(2.0)).components()), vec![0.5, 1.0, 1.5]);
    assert_eq!(g(a.dot(&o, b)), 7.5);
    assert_eq!(gs(&a.cross(&o, b).components()), vec![-14.0, -12.5, 13.0]);
    assert_eq!(g(vector(3.0, 4.0, 12.0).norm(&o)), 13.0);
    assert_eq!(gs(&vector(0.0, -2.0, 0.0).normalize(&o).components()), vec![0.0, -1.0, 0.0]);
    let right = vector(1.0, 0.0, 0.0).angle(&o, vector(0.0, 3.0, 0.0));
    assert_eq!(g(right), std::f64::consts::FRAC_PI_2);
    assert_eq!(gs(&a.neg().components()), vec![-1.0, -2.0, -3.0]);
}

fn rows(m: Matrix3<Equatorial>) -> [Vec<f64>; 3] {
    [gs(&m.x.components()), gs(&m.y.components()), gs(&m.z.components())]
}

#[test]
fn matrices_apply_to_vectors() {
    let o = ops();
    let m = Matrix3 {
        x: vector(1.0, 2.0, 3.0),
        y: vector(0.0, 1.0, 4.0),
        z: vector(5.0, 6.0, 0.0),
    };
    assert_eq!(gs(&m.apply(&o, vector(1.0, 1.0, 2.0)).components()), vec![9.0, 9.0, 11.0]);
    assert_eq!(rows(m.transpose())[0], vec![1.0, 0.0, 5.0]);
    assert_eq!(rows(m.transpose().transpose()), rows(m));
    assert_eq!(rows(m.multiply(&o, Matrix3::identity())), rows(m));
    assert_eq!(rows(m.multiply(&o, m))[0], vec![16.0, 22.0, 11.0]);
    assert_eq!(rows(m.plus(&o, m)), rows(m.scale(&o, f(2.0))));
    assert_eq!(rows(m.minus(&o, m)), rows(Matrix3::zeros()));
    assert_eq!(rows(m.over(&o, f(2.0)))[1], vec![0.0, 0.5, 2.0]);
    let d = Matrix3::from_diagonal(f(1.0), f(2.0), f(3.0));
    assert_eq!(rows(d)[1], vec![0.0, 2.0, 0.0]);
    let outer = vector(1.0, 2.0, 3.0).outer_product(&o, vector(1.0, 0.0, -1.0));
    assert_eq!(rows(outer)[2], vec![3.0, 0.0, -3.0]);
}

fn cells(t: &Table) -> Vec<Vec<f64>> {
    (0..t.nrows).map(|i| (0..t.ncols).map(|j| g(t.get(i, j))).collect()).collect()
}

#[test]
fn tables_multiply() {
    let o = ops();
    let a = Table::new(2, 3, vec![fs(&[1.0, 2.0, 3.0]), fs(&[4.0, 5.0, 6.0])]).unwrap();
    assert!(Table::new(2, 2, vec![fs(&[1.0])]).is_none());
    let t = a.transpose();
    assert_eq!(cells(&t), vec![vec![1.0, 4.0], vec![2.0, 5.0], vec![3.0, 6.0]]);
    assert_eq!(cells(&t.transpose()), cells(&a));
    assert_eq!(cells(&a.multiply(&o, &t)), vec![vec![14.0, 32.0], vec![32.0, 77.0]]);
    assert_eq!(gs(&a.apply(&o, &fs(&[1.0, 0.0, -1.0]))), vec![-2.0, -2.0]);
    assert_eq!(cells(&a.plus(&o, &a)), cells(&a.scale(&o, f(2.0))));
    assert_eq!(cells(&a.minus(&o, &a)), cells(&Table::zeros(2, 3)));
    assert_eq!(cells(&a.view_block(0, 1, 2, 2)), vec![vec![2.0, 3.0], vec![5.0, 6.0]]);
    let d = Table::from_diagonal(&fs(&[2.0, 3.0]));
    assert_eq!(cells(&d.multiply(&o, &a))[1], vec![12.0, 15.0, 18.0]);
    let outer = Table::outer_product(&o, &fs(&[1.0, 2.0]), &fs(&[3.0, 4.0]));
    assert_eq!(cells(&outer), vec![vec![3.0, 4.0], vec![6.0, 8.0]]);
    assert_eq!(cells(&a.clone()), cells(&a));
}
