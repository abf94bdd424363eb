//! Linear algebra that the caller brings.
use crate::arithmetic::{Arithmetic, Binary, Unary};
use crate::constants::Constants;
use crate::errors::KeteResult;
use crate::float::F64;
use crate::frames::Equatorial;
use crate::physics::{Motion, Physics};
use crate::table::{Grid, Table};
use vstd::prelude::*;

verus! {

/// The eigenvalues and eigenvectors of a matrix, as numbers.
pub struct Spectrum {
    pub values: Seq<F64>,
    pub vectors: Grid,
}

/// The eigenvalues and eigenvectors of a symmetric matrix.
#[derive(Debug)]
pub struct Eigen {
    /// The eigenvalues.
    pub values: Vec<F64>,
    /// The eigenvectors, as columns in the order of the eigenvalues.
    pub vectors: Table,
}

impl View for Eigen {
    type V = Spectrum;

    open spec fn view(&self) -> Spectrum {
        Spectrum { values: self.values@, vectors: self.vectors@ }
    }
}

/// Is a matrix square.
pub open spec fn square(m: Grid) -> bool {
    m.well_formed() && m.nrows == m.ncols
}

/// Are there `n` eigenvalues and `n` eigenvectors of the length `n`.
pub open spec fn fits(e: Spectrum, n: nat) -> bool {
    &&& e.values.len() == n
    &&& e.vectors.well_formed()
    &&& e.vectors.nrows == n
    &&& e.vectors.ncols == n
}

/// An inverse, as numbers.
pub open spec fn grid_of(r: Option<Table>) -> Option<Grid> {
    match r {
        Some(t) => Some(t@),
        None => None,
    }
}

/// An arithmetic with eigenvalues and inverses.
pub trait Algebra: Arithmetic {
    /// The eigenvalues and eigenvectors of a symmetric matrix.
    spec fn eigen(&self, m: Grid) -> Spectrum;

    /// The inverse of a matrix, where it has one.
    spec fn inverse(&self, m: Grid) -> Option<Grid>;

    /// The eigenvalues and eigenvectors of a symmetric matrix.
    fn symmetric_eigen(&self, m: &Table) -> (e: Eigen)
        requires
            self.lawful(),
            square(m@),
        ensures
            e@ == self.eigen(m@),
            fits(e@, m@.nrows),
    ;

    /// The inverse of a matrix, where it has one.
    fn try_inverse(&self, m: &Table) -> (r: Option<Table>)
        requires
            self.lawful(),
            square(m@),
        ensures
            grid_of(r) == self.inverse(m@),
            r matches Some(t) ==> square(t@) && t@.nrows == m@.nrows,
    ;
}

/// An arithmetic, or more than that, with functions for eigenvalues and inverses.
pub struct Linear<W, S, I> {
    /// What is added to.
    pub world: W,
    /// The eigenvalues and eigenvectors of a symmetric matrix.
    pub eigen: S,
    /// The inverse of a matrix, where it has one.
    pub inverse: I,
}

impl<W: Arithmetic, S: Fn(&Table) -> Eigen, I: Fn(&Table) -> Option<Table>> Arithmetic for Linear<
    W,
    S,
    I,
> {
    open spec fn lawful(&self) -> bool {
        &&& self.world.lawful()
        &&& forall|m: &Table| square(m@) ==> #[trigger] call_requires(self.eigen, (m,))
        &&& forall|m: &Table| square(m@) ==> #[trigger] call_requires(self.inverse, (m,))
        &&& forall|m: &Table, n: &Table, r: Eigen, s: Eigen|
            m@ == n@ && #[trigger] call_ensures(self.eigen, (m,), r) && #[trigger] call_ensures(
                self.eigen,
                (n,),
                s,
            ) ==> r@ == s@
        &&& forall|m: &Table, n: &Table, r: Option<Table>, s: Option<Table>|
            m@ == n@ && #[trigger] call_ensures(self.inverse, (m,), r) && #[trigger] call_ensures(
                self.inverse,
                (n,),
                s,
            ) ==> grid_of(r) == grid_of(s)
        &&& forall|m: &Table, r: Eigen|
            square(m@) && #[trigger] call_ensures(self.eigen, (m,), r) ==> fits(r@, m@.nrows)
        &&& forall|m: &Table, r: Option<Table>|
            square(m@) && #[trigger] call_ensures(self.inverse, (m,), r) ==> (r matches Some(t)
                ==> square(t@) && t@.nrows == m@.nrows)
    }

    open spec fn two(&self, op: Binary, a: F64, b: F64) -> F64 {
        self.world.two(op, a, b)
    }

    open spec fn one(&self, op: Unary, a: F64) -> F64 {
        self.world.one(op, a)
    }

    open spec fn whole(&self, n: u64) -> F64 {
        self.world.whole(n)
    }

    fn binary(&self, op: Binary, a: F64, b: F64) -> F64 {
        self.world.binary(op, a, b)
    }

    fn unary(&self, op: Unary, a: F64) -> F64 {
        self.world.unary(op, a)
    }

    fn integer(&self, n: u64) -> F64 {
        self.world.integer(n)
    }
}

impl<W: Physics, S: Fn(&Table) -> Eigen, I: Fn(&Table) -> Option<Table>> Physics for Linear<
    W,
    S,
    I,
> {
    open spec fn values(&self) -> Constants {
        self.world.values()
    }

    open spec fn two_body(&self, days: F64, at: Motion<Equatorial>) -> KeteResult<
        Motion<Equatorial>,
    > {
        self.world.two_body(days, at)
    }

    open spec fn eccentric(&self, ecc: F64, mean_anomaly: F64, peri_dist: F64) -> KeteResult<F64> {
        self.world.eccentric(ecc, mean_anomaly, peri_dist)
    }

    open spec fn true_angle(&self, ecc: F64, mean_anomaly: F64, peri_dist: F64) -> KeteResult<F64> {
        self.world.true_angle(ecc, mean_anomaly, peri_dist)
    }

    fn constants(&self) -> Constants {
        self.world.constants()
    }

    fn analytic_2_body(&self, days: F64, at: Motion<Equatorial>) -> KeteResult<Motion<Equatorial>> {
        self.world.analytic_2_body(days, at)
    }

    fn compute_eccentric_anomaly(&self, ecc: F64, mean_anomaly: F64, peri_dist: F64) -> KeteResult<
        F64,
    > {
        self.world.compute_eccentric_anomaly(ecc, mean_anomaly, peri_dist)
    }

    fn compute_true_anomaly(&self, ecc: F64, mean_anomaly: F64, peri_dist: F64) -> KeteResult<F64> {
        self.world.compute_true_anomaly(ecc, mean_anomaly, peri_dist)
    }
}

impl<W: Arithmetic, S: Fn(&Table) -> Eigen, I: Fn(&Table) -> Option<Table>> Algebra for Linear<
    W,
    S,
    I,
> {
    open spec fn eigen(&self, m: Grid) -> Spectrum {
        let (t, e) = choose|t: &Table, e: Eigen|
            t@ == m && #[trigger] call_ensures(self.eigen, (t,), e);
        e@
    }

    open spec fn inverse(&self, m: Grid) -> Option<Grid> {
        let (t, r) = choose|t: &Table, r: Option<Table>|
            t@ == m && #[trigger] call_ensures(self.inverse, (t,), r);
        grid_of(r)
    }

    fn symmetric_eigen(&self, m: &Table) -> Eigen {
        (self.eigen)(m)
    }

    fn try_inverse(&self, m: &Table) -> Option<Table> {
        (self.inverse)(m)
    }
}

} // verus!
