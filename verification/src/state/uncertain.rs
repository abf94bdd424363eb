//! The state of an object with its uncertainty.
use crate::algebra;
use crate::algebra::{Algebra, Spectrum};
use crate::arithmetic;
use crate::arithmetic::{Arithmetic, Unary};
use crate::constants;
use crate::constants::Constants;
use crate::elements::CometElements;
use crate::errors::{Error, KeteResult, ValueFault};
use crate::exact;
use crate::float::F64;
use crate::frames;
use crate::frames::{CenterBody, DynCenter, Ecliptic, Equatorial, InertialFrame, Vector};
use crate::numbers;
use crate::orbits;
use crate::physics::{Motion, Physics};
use crate::rounding;
use crate::rounding::Reading;
use crate::state::cartesian::State;
use crate::table;
use crate::table::{Grid, Table};
use crate::time::Time;
use vstd::prelude::*;

verus! {

/// Bits of 1e-10: how far below zero an eigenvalue may be, relative to the largest, and still
/// be taken for a zero that was rounded.
pub const ROUNDED_ZERO: u64 = 0x3ddb_7cdf_d9d7_bdbb;

/// A state, the covariance of its six components and of the parameters that were fitted with
/// them, and the values of those parameters.
#[derive(Debug)]
pub struct UncertainState<T: InertialFrame = Equatorial, C: CenterBody = DynCenter> {
    /// The state.
    pub state: State<T, C>,
    /// The covariance: position, velocity, and parameters.
    pub cov_matrix: Table,
    /// The values of the parameters.
    pub free_params: Vec<F64>,
}

impl<T: InertialFrame, C: CenterBody + Copy> Clone for UncertainState<T, C> {
    fn clone(&self) -> (r: Self)
        ensures
            r@ == self@,
    {
        UncertainState {
            state: self.state.clone(),
            cov_matrix: self.cov_matrix.clone(),
            free_params: numbers::copied(&self.free_params),
        }
    }
}

/// An uncertain state as numbers.
#[verifier::ext_equal]
pub struct UncertainModel<T: InertialFrame, C: CenterBody> {
    pub state: State<T, C>,
    pub cov: Grid,
    pub params: Seq<F64>,
}

impl<T: InertialFrame, C: CenterBody> View for UncertainState<T, C> {
    type V = UncertainModel<T, C>;

    open spec fn view(&self) -> UncertainModel<T, C> {
        UncertainModel { state: self.state, cov: self.cov_matrix@, params: self.free_params@ }
    }
}

/// An uncertain state as numbers, or why there is none.
pub open spec fn model_of<T: InertialFrame, C: CenterBody>(
    r: KeteResult<UncertainState<T, C>>,
) -> KeteResult<UncertainModel<T, C>> {
    match r {
        Ok(u) => Ok(u@),
        Err(e) => Err(e),
    }
}

/// Does a covariance have one row and one column for each component and each parameter.
pub open spec fn covers(cov: Grid, params: nat) -> bool {
    cov.nrows == 6 + params && cov.ncols == 6 + params
}

/// Why a covariance does not belong to a state with so many parameters.
pub open spec fn shape_fault(cov: Grid, params: nat) -> Error {
    Error::ValueError(
        ValueFault::CovarianceShape {
            size: (6 + params) as usize,
            rows: cov.nrows as usize,
            columns: cov.ncols as usize,
        },
    )
}

/// The six components of a position and a velocity.
pub open spec fn six<T: InertialFrame>(pos: Vector<T>, vel: Vector<T>) -> Seq<F64> {
    seq![pos.x, pos.y, pos.z, vel.x, vel.y, vel.z]
}

impl<T: InertialFrame, C: CenterBody> UncertainModel<T, C> {
    /// Do the parts belong together.
    pub open spec fn well_formed(self) -> bool {
        self.cov.well_formed() && covers(self.cov, self.params.len())
    }

    /// The state moved by the first six numbers.
    pub open spec fn moved_state<A: Arithmetic>(self, ops: &A, delta: Seq<F64>) -> State<T, C> {
        let p = self.state.pos;
        let v = self.state.vel;
        State {
            desig: self.state.desig,
            epoch: self.state.epoch,
            pos: frames::vector(
                arithmetic::sum(ops, p.x, delta[0]),
                arithmetic::sum(ops, p.y, delta[1]),
                arithmetic::sum(ops, p.z, delta[2]),
            ),
            vel: frames::vector(
                arithmetic::sum(ops, v.x, delta[3]),
                arithmetic::sum(ops, v.y, delta[4]),
                arithmetic::sum(ops, v.z, delta[5]),
            ),
            center: self.state.center,
        }
    }

    /// The parameters moved by the numbers behind the first six.
    pub open spec fn moved_params<A: Arithmetic>(self, ops: &A, delta: Seq<F64>) -> Seq<F64> {
        Seq::new(
            self.params.len(),
            |i: int| arithmetic::sum(ops, self.params[i], delta[6 + i]),
        )
    }

    /// The samples which belong to draws of independent normal variables.
    pub open spec fn samples<A: Algebra>(self, ops: &A, draws: Seq<Seq<F64>>) -> KeteResult<
        Seq<SampleModel<T, C>>,
    > {
        let e = ops.eigen(self.cov);
        if indefinite(ops, e.values) {
            Err(Error::ValueError(ValueFault::Indefinite))
        } else {
            Ok(
                Seq::new(
                    draws.len(),
                    |i: int|
                        SampleModel {
                            state: self.moved_state(ops, spread(ops, e).applied(ops, draws[i])),
                            params: self.moved_params(ops, spread(ops, e).applied(ops, draws[i])),
                        },
                ),
            )
        }
    }
}

/// A state and the values of its parameters.
#[derive(Debug)]
pub struct Sample<T: InertialFrame, C: CenterBody> {
    /// The state.
    pub state: State<T, C>,
    /// The values of the parameters.
    pub params: Vec<F64>,
}

/// A state and the values of its parameters, as numbers.
#[verifier::ext_equal]
pub struct SampleModel<T: InertialFrame, C: CenterBody> {
    pub state: State<T, C>,
    pub params: Seq<F64>,
}

impl<T: InertialFrame, C: CenterBody> View for Sample<T, C> {
    type V = SampleModel<T, C>;

    open spec fn view(&self) -> SampleModel<T, C> {
        SampleModel { state: self.state, params: self.params@ }
    }
}

/// The standard deviations along the eigenvectors. A negative eigenvalue counts as zero.
pub open spec fn deviations<A: Arithmetic>(ops: &A, values: Seq<F64>) -> Seq<F64> {
    Seq::new(
        values.len(),
        |i: int|
            if (F64 { bits: 0 }).spec_lt(values[i]) {
                ops.one(Unary::Sqrt, values[i])
            } else {
                F64 { bits: 0 }
            },
    )
}

/// The largest size of an eigenvalue.
pub open spec fn largest_size(values: Seq<F64>) -> F64 {
    numbers::peak(Seq::new(values.len(), |i: int| values[i].abs_value()), values.len())
}

/// Is some eigenvalue clearly negative: no covariance has such a one.
pub open spec fn indefinite<A: Arithmetic>(ops: &A, values: Seq<F64>) -> bool {
    let floor = arithmetic::product(
        ops,
        largest_size(values),
        F64 { bits: ROUNDED_ZERO },
    ).negated();
    exists|i: int| 0 <= i < values.len() && (#[trigger] values[i]).spec_lt(floor)
}

/// A matrix whose product with its transpose is the covariance with these eigenvalues and
/// eigenvectors.
pub open spec fn spread<A: Arithmetic>(ops: &A, e: Spectrum) -> Grid {
    e.vectors.weighted(ops, deviations(ops, e.values))
}

/// Is some eigenvalue clearly negative.
fn is_indefinite<A: Arithmetic>(ops: &A, values: &Vec<F64>) -> (r: bool)
    requires
        ops.lawful(),
    ensures
        r == indefinite(ops, values@),
{
    let mut sizes: Vec<F64> = Vec::new();
    let mut i: usize = 0;
    while i < values.len()
        invariant
            i <= values@.len(),
            sizes@ == Seq::new(i as nat, |i: int| values@[i].abs_value()),
        decreases values@.len() - i,
    {
        sizes.push(values[i].abs());
        i = i + 1;
        assert(sizes@ =~= Seq::new(i as nat, |i: int| values@[i].abs_value()));
    }
    let largest = numbers::largest(&sizes);
    let floor = arithmetic::times(ops, largest, F64::from_bits(ROUNDED_ZERO)).neg();
    let mut k: usize = 0;
    while k < values.len()
        invariant
            k <= values@.len(),
            floor == arithmetic::product(
                ops,
                largest_size(values@),
                F64 { bits: ROUNDED_ZERO },
            ).negated(),
            forall|i: int| 0 <= i < k ==> !(#[trigger] values@[i]).spec_lt(floor),
        decreases values@.len() - k,
    {
        if values[k].less(floor) {
            assert(values@[k as int].spec_lt(floor));
            return true;
        }
        k = k + 1;
    }
    false
}

/// The standard deviations along the eigenvectors.
fn find_deviations<A: Arithmetic>(ops: &A, values: &Vec<F64>) -> (r: Vec<F64>)
    requires
        ops.lawful(),
    ensures
        r@ == deviations(ops, values@),
{
    let mut r: Vec<F64> = Vec::new();
    let mut i: usize = 0;
    while i < values.len()
        invariant
            ops.lawful(),
            i <= values@.len(),
            r@ == deviations(ops, values@).take(i as int),
        decreases values@.len() - i,
    {
        let d = if F64::zero().less(values[i]) {
            ops.unary(Unary::Sqrt, values[i])
        } else {
            F64::zero()
        };
        r.push(d);
        i = i + 1;
        assert(r@ =~= deviations(ops, values@).take(i as int));
    }
    assert(r@ =~= deviations(ops, values@));
    r
}

impl<T: InertialFrame, C: CenterBody + Copy> UncertainState<T, C> {
    /// Put an uncertain state together, if the covariance is of the right size.
    pub fn new(state: State<T, C>, cov_matrix: Table, free_params: Vec<F64>)
        -> (r: KeteResult<Self>)
        requires
            free_params@.len() + 6 <= usize::MAX,
        ensures
            r == (if covers(cov_matrix@, free_params@.len()) {
                Ok(UncertainState { state, cov_matrix, free_params })
            } else {
                Err(shape_fault(cov_matrix@, free_params@.len()))
            }),
    {
        let size = 6 + free_params.len();
        if cov_matrix.nrows != size || cov_matrix.ncols != size {
            return Err(
                Error::ValueError(
                    ValueFault::CovarianceShape {
                        size,
                        rows: cov_matrix.nrows,
                        columns: cov_matrix.ncols,
                    },
                ),
            );
        }
        Ok(UncertainState { state, cov_matrix, free_params })
    }

    /// How many parameters there are.
    pub fn n_free_params(&self) -> (n: usize)
        ensures
            n == self.free_params@.len(),
    {
        self.free_params.len()
    }

    /// The state and the parameters moved by `delta`.
    pub fn moved<A: Arithmetic>(&self, ops: &A, delta: &Vec<F64>) -> (r: Sample<T, C>)
        requires
            ops.lawful(),
            delta@.len() == 6 + self.free_params@.len(),
        ensures
            r@ == (SampleModel {
                state: self@.moved_state(ops, delta@),
                params: self@.moved_params(ops, delta@),
            }),
    {
        let p = self.state.pos;
        let v = self.state.vel;
        let state = State {
            desig: self.state.desig.clone(),
            epoch: self.state.epoch,
            pos: Vector::of(
                arithmetic::plus(ops, p.x, delta[0]),
                arithmetic::plus(ops, p.y, delta[1]),
                arithmetic::plus(ops, p.z, delta[2]),
            ),
            vel: Vector::of(
                arithmetic::plus(ops, v.x, delta[3]),
                arithmetic::plus(ops, v.y, delta[4]),
                arithmetic::plus(ops, v.z, delta[5]),
            ),
            center: self.state.center,
        };
        let mut params: Vec<F64> = Vec::new();
        let n: usize = delta.len();
        let mut i: usize = 0;
        while i < self.free_params.len()
            invariant
                ops.lawful(),
                n == delta@.len(),
                delta@.len() == 6 + self.free_params@.len(),
                i <= self.free_params@.len(),
                params@ == self@.moved_params(ops, delta@).take(i as int),
            decreases self.free_params@.len() - i,
        {
            params.push(arithmetic::plus(ops, self.free_params[i], delta[6 + i]));
            i = i + 1;
            assert(params@ =~= self@.moved_params(ops, delta@).take(i as int));
        }
        assert(params@ =~= self@.moved_params(ops, delta@));
        Sample { state, params }
    }

    /// Samples of the distribution, one for each draw of independent normal variables. An
    /// error where the covariance is not positive semidefinite.
    pub fn sample<A: Algebra>(&self, ops: &A, draws: &Vec<Vec<F64>>) -> (r: KeteResult<
        Vec<Sample<T, C>>,
    >)
        requires
            ops.lawful(),
            self@.well_formed(),
            numbers::shaped(numbers::rows(draws@), draws@.len(), 6 + self.free_params@.len()),
        ensures
            samples_of(r) == self@.samples(ops, numbers::rows(draws@)),
    {
        let e = ops.symmetric_eigen(&self.cov_matrix);
        if is_indefinite(ops, &e.values) {
            return Err(Error::ValueError(ValueFault::Indefinite));
        }
        let l = e.vectors.weigh(ops, &find_deviations(ops, &e.values));
        let ghost want = self@.samples(ops, numbers::rows(draws@))->Ok_0;
        let mut r: Vec<Sample<T, C>> = Vec::new();
        let mut i: usize = 0;
        while i < draws.len()
            invariant
                ops.lawful(),
                self@.well_formed(),
                numbers::shaped(numbers::rows(draws@), draws@.len(), 6 + self.free_params@.len()),
                l@ == spread(ops, ops.eigen(self.cov_matrix@)),
                l@.well_formed(),
                l@.nrows == 6 + self.free_params@.len(),
                l@.ncols == 6 + self.free_params@.len(),
                !indefinite(ops, ops.eigen(self.cov_matrix@).values),
                want == self@.samples(ops, numbers::rows(draws@))->Ok_0,
                want.len() == draws@.len(),
                i <= draws@.len(),
                views(r@) == want.take(i as int),
            decreases draws@.len() - i,
        {
            assert(numbers::rows(draws@)[i as int] == draws@[i as int]@);
            let delta = l.apply(ops, &draws[i]);
            let sample = self.moved(ops, &delta);
            let ghost before = r@;
            r.push(sample);
            assert(views(r@) =~= views(before).push(sample@));
            i = i + 1;
            assert(views(r@) =~= want.take(i as int));
        }
        assert(views(r@) =~= want);
        Ok(r)
    }
}

/// Samples as numbers.
pub open spec fn views<T: InertialFrame, C: CenterBody>(s: Seq<Sample<T, C>>) -> Seq<
    SampleModel<T, C>,
> {
    Seq::new(s.len(), |i: int| s[i]@)
}

/// Samples as numbers, or why there are none.
pub open spec fn samples_of<T: InertialFrame, C: CenterBody>(
    r: KeteResult<Vec<Sample<T, C>>>,
) -> KeteResult<Seq<SampleModel<T, C>>> {
    match r {
        Ok(s) => Ok(views(s@)),
        Err(e) => Err(e),
    }
}

// ---------------------------------------------------------------------------
// From elements
// ---------------------------------------------------------------------------

/// A vector of the frame of the ecliptic in the frame of the equator.
pub open spec fn equatorial<A: Arithmetic>(ops: &A, c: Constants, v: Vector<Ecliptic>) -> Vector<
    Equatorial,
> {
    c.ecliptic.applied(ops, frames::vector(v.x, v.y, v.z))
}

/// A vector of the frame of the ecliptic in the frame of the equator.
pub fn to_equatorial<A: Arithmetic>(ops: &A, c: Constants, v: Vector<Ecliptic>) -> (r: Vector<
    Equatorial,
>)
    requires
        ops.lawful(),
    ensures
        r == equatorial(ops, c, v),
{
    c.ecliptic.apply(ops, Vector::of(v.x, v.y, v.z))
}

/// A vector of the frame of the equator in the frame of the ecliptic.
pub open spec fn ecliptic<A: Arithmetic>(ops: &A, c: Constants, v: Vector<Equatorial>) -> Vector<
    Ecliptic,
> {
    let turned = c.ecliptic.transposed().applied(ops, v);
    frames::vector(turned.x, turned.y, turned.z)
}

/// A vector of the frame of the equator in the frame of the ecliptic.
pub fn to_ecliptic<A: Arithmetic>(ops: &A, c: Constants, v: Vector<Equatorial>) -> (r: Vector<
    Ecliptic,
>)
    requires
        ops.lawful(),
    ensures
        r == ecliptic(ops, c, v),
{
    let turned = c.ecliptic.transpose().apply(ops, v);
    Vector::of(turned.x, turned.y, turned.z)
}

/// The elements with one of them changed: eccentricity, perihelion distance, time of
/// perihelion, longitude of the node, argument of perihelion, inclination.
pub open spec fn perturbed<A: Arithmetic>(
    ops: &A,
    e: CometElements,
    col: int,
    delta: F64,
) -> CometElements {
    if col == 0 {
        CometElements { eccentricity: arithmetic::sum(ops, e.eccentricity, delta), ..e }
    } else if col == 1 {
        CometElements { peri_dist: arithmetic::sum(ops, e.peri_dist, delta), ..e }
    } else if col == 2 {
        CometElements {
            peri_time: Time { jd: arithmetic::sum(ops, e.peri_time.jd, delta) },
            ..e
        }
    } else if col == 3 {
        CometElements { lon_of_ascending: arithmetic::sum(ops, e.lon_of_ascending, delta), ..e }
    } else if col == 4 {
        CometElements { peri_arg: arithmetic::sum(ops, e.peri_arg, delta), ..e }
    } else {
        CometElements { inclination: arithmetic::sum(ops, e.inclination, delta), ..e }
    }
}

/// The elements with one of them changed.
pub fn perturb_element<A: Arithmetic>(ops: &A, elements: &CometElements, col: usize, delta: F64)
    -> (r:
    CometElements)
    requires
        ops.lawful(),
        col < 6,
    ensures
        r == perturbed(ops, *elements, col as int, delta),
{
    let mut e = elements.clone();
    if col == 0 {
        e.eccentricity = arithmetic::plus(ops, e.eccentricity, delta);
    } else if col == 1 {
        e.peri_dist = arithmetic::plus(ops, e.peri_dist, delta);
    } else if col == 2 {
        e.peri_time = Time::new(arithmetic::plus(ops, e.peri_time.jd, delta));
    } else if col == 3 {
        e.lon_of_ascending = arithmetic::plus(ops, e.lon_of_ascending, delta);
    } else if col == 4 {
        e.peri_arg = arithmetic::plus(ops, e.peri_arg, delta);
    } else {
        e.inclination = arithmetic::plus(ops, e.inclination, delta);
    }
    e
}

/// How far an element is changed: in proportion to its size where that is above one, and for
/// the time of perihelion by a fixed part of a day.
pub open spec fn nudge<A: Arithmetic>(ops: &A, e: CometElements, col: int) -> F64 {
    let small = ops.one(Unary::Cbrt, F64 { bits: constants::MACHINE_EPSILON });
    if col == 2 {
        small
    } else {
        let v = if col == 0 {
            e.eccentricity
        } else if col == 1 {
            e.peri_dist
        } else if col == 3 {
            e.lon_of_ascending
        } else if col == 4 {
            e.peri_arg
        } else {
            e.inclination
        };
        arithmetic::product(
            ops,
            small,
            numbers::larger(v.abs_value(), F64 { bits: constants::ONE }),
        )
    }
}

/// How far an element is changed.
fn find_nudge<A: Arithmetic>(ops: &A, e: &CometElements, col: usize) -> (h: F64)
    requires
        ops.lawful(),
    ensures
        h == nudge(ops, *e, col as int),
{
    let small = ops.unary(Unary::Cbrt, F64::from_bits(constants::MACHINE_EPSILON));
    if col == 2 {
        return small;
    }
    let v = if col == 0 {
        e.eccentricity
    } else if col == 1 {
        e.peri_dist
    } else if col == 3 {
        e.lon_of_ascending
    } else if col == 4 {
        e.peri_arg
    } else {
        e.inclination
    };
    let one = F64::from_bits(constants::ONE);
    arithmetic::times(ops, small, numbers::max(v.abs(), one))
}

/// The position and the velocity of elements in the frame of the equator.
pub open spec fn cartesian<A: Physics>(ops: &A, e: CometElements) -> KeteResult<Seq<F64>> {
    match e.motion(ops) {
        Err(e) => Err(e),
        Ok(m) => Ok(
            six(
                equatorial(ops, ops.values(), m.pos),
                equatorial(ops, ops.values(), m.vel),
            ),
        ),
    }
}

/// The position and the velocity of elements in the frame of the equator.
fn to_cartesian<A: Physics>(ops: &A, e: &CometElements) -> (r: KeteResult<Vec<F64>>)
    requires
        ops.lawful(),
    ensures
        numbers_of(r) == cartesian(ops, *e),
        r matches Ok(v) ==> v@.len() == 6,
{
    match e.to_pos_vel(ops) {
        Err(e) => Err(e),
        Ok(m) => {
            let c = ops.constants();
            let p = to_equatorial(ops, c, m.pos);
            let v = to_equatorial(ops, c, m.vel);
            let all = vec![p.x, p.y, p.z, v.x, v.y, v.z];
            assert(all@ =~= six(p, v));
            Ok(all)
        },
    }
}

/// Numbers, or why there are none.
pub open spec fn numbers_of(r: KeteResult<Vec<F64>>) -> KeteResult<Seq<F64>> {
    match r {
        Ok(v) => Ok(v@),
        Err(e) => Err(e),
    }
}

/// How the position and the velocity change with one element: by the difference between the
/// states on both sides of it. An eccentricity close to zero is only made larger.
pub open spec fn slope<A: Physics>(ops: &A, e: CometElements, col: int) -> KeteResult<Seq<F64>> {
    let h = nudge(ops, e, col);
    let one = F64 { bits: constants::ONE };
    let two = F64 { bits: constants::TWO };
    let forward = col == 0 && e.eccentricity.spec_lt(arithmetic::product(ops, two, h));
    let below = if forward {
        cartesian(ops, e)
    } else {
        cartesian(ops, perturbed(ops, e, col, h.negated()))
    };
    let inverse = if forward {
        arithmetic::quotient(ops, one, h)
    } else {
        arithmetic::quotient(ops, one, arithmetic::product(ops, two, h))
    };
    match cartesian(ops, perturbed(ops, e, col, h)) {
        Err(e) => Err(e),
        Ok(above) => match below {
            Err(e) => Err(e),
            Ok(below) => Ok(numbers::scaled(ops, numbers::differences(ops, above, below), inverse)),
        },
    }
}

/// How the position and the velocity change with one element.
fn find_slope<A: Physics>(ops: &A, e: &CometElements, col: usize) -> (r: KeteResult<Vec<F64>>)
    requires
        ops.lawful(),
        col < 6,
    ensures
        numbers_of(r) == slope(ops, *e, col as int),
        r matches Ok(v) ==> v@.len() == 6,
{
    let h = find_nudge(ops, e, col);
    let one = F64::from_bits(constants::ONE);
    let two = F64::from_bits(constants::TWO);
    let doubled = arithmetic::times(ops, two, h);
    let forward = col == 0 && e.eccentricity.less(doubled);
    match to_cartesian(ops, &perturb_element(ops, e, col, h)) {
        Err(e) => Err(e),
        Ok(above) => {
            let below = if forward {
                to_cartesian(ops, e)
            } else {
                to_cartesian(ops, &perturb_element(ops, e, col, h.neg()))
            };
            match below {
                Err(e) => Err(e),
                Ok(below) => {
                    let inverse = if forward {
                        arithmetic::over(ops, one, h)
                    } else {
                        arithmetic::over(ops, one, doubled)
                    };
                    Ok(numbers::scale(ops, &numbers::subtract(ops, &above, &below), inverse))
                },
            }
        },
    }
}

/// How the position and the velocity change with the first `n` elements.
pub open spec fn slopes<A: Physics>(ops: &A, e: CometElements, n: nat) -> KeteResult<Seq<Seq<F64>>>
    decreases n,
{
    if n == 0 {
        Ok(Seq::empty())
    } else {
        match slopes(ops, e, (n - 1) as nat) {
            Err(e) => Err(e),
            Ok(columns) => match slope(ops, e, n - 1) {
                Err(e) => Err(e),
                Ok(column) => Ok(columns.push(column)),
            },
        }
    }
}

/// How the position and the velocity change with the first `n` elements.
fn find_slopes<A: Physics>(ops: &A, e: &CometElements, n: usize) -> (r: KeteResult<Vec<Vec<F64>>>)
    requires
        ops.lawful(),
        n <= 6,
    ensures
        match slopes(ops, *e, n as nat) {
            Err(e) => r == Err::<Vec<Vec<F64>>, Error>(e),
            Ok(columns) => r is Ok && numbers::rows(r->Ok_0@) == columns && numbers::shaped(
                columns,
                n as nat,
                6,
            ),
        },
    decreases n,
{
    if n == 0 {
        let none: Vec<Vec<F64>> = Vec::new();
        assert(numbers::rows(none@) =~= Seq::empty());
        return Ok(none);
    }
    match find_slopes(ops, e, n - 1) {
        Err(e) => Err(e),
        Ok(columns) => match find_slope(ops, e, n - 1) {
            Err(e) => Err(e),
            Ok(column) => {
                let mut columns = columns;
                proof {
                    numbers::lemma_rows_push(columns@, column);
                }
                columns.push(column);
                Ok(columns)
            },
        },
    }
}

/// The derivatives of position and velocity by the elements.
pub open spec fn elements_jacobian(columns: Seq<Seq<F64>>) -> Grid {
    table::grid(6, 6, |i: int, j: int| columns[j][i])
}

/// The covariance of position, velocity and parameters, from that of elements and parameters.
pub open spec fn turned_covariance<A: Arithmetic>(ops: &A, jac: Grid, cov: Grid, np: nat) -> Grid {
    let cart = jac.multiplied(ops, cov.block(0, 0, 6, 6)).multiplied(ops, jac.transposed());
    let cross = jac.multiplied(ops, cov.block(0, 6, 6, np));
    table::grid(
        6 + np,
        6 + np,
        |i: int, j: int|
            if i < 6 && j < 6 {
                cart.at(i, j)
            } else if i < 6 {
                cross.at(i, j - 6)
            } else if j < 6 {
                cross.at(j, i - 6)
            } else {
                cov.at(i, j)
            },
    )
}

/// The covariance of position, velocity and parameters, from that of elements and parameters.
fn turn_covariance<A: Arithmetic>(ops: &A, jac: &Table, cov: &Table, np: usize) -> (t: Table)
    requires
        ops.lawful(),
        jac@.well_formed(),
        jac.nrows == 6,
        jac.ncols == 6,
        cov@.well_formed(),
        np + 6 <= usize::MAX,
        cov.nrows == 6 + np,
        cov.ncols == 6 + np,
    ensures
        t@ == turned_covariance(ops, jac@, cov@, np as nat),
        t@.well_formed(),
{
    let cart = jac.multiply(ops, &cov.view_block(0, 0, 6, 6)).multiply(ops, &jac.transpose());
    let cross = jac.multiply(ops, &cov.view_block(0, 6, 6, np));
    let n: usize = 6 + np;
    let f = |i: usize, j: usize| -> (r: F64)
        requires
            table::inside(i, j, n, n),
            n == 6 + np,
            cart@.well_formed(),
            cart.nrows == 6,
            cart.ncols == 6,
            cross@.well_formed(),
            cross.nrows == 6,
            cross.ncols == np,
            cov@.well_formed(),
            cov.nrows == n,
            cov.ncols == n,
        ensures
            r == (if i < 6 && j < 6 {
                cart@.at(i as int, j as int)
            } else if i < 6 {
                cross@.at(i as int, j - 6)
            } else if j < 6 {
                cross@.at(j as int, i - 6)
            } else {
                cov@.at(i as int, j as int)
            }),
    {
        if i < 6 && j < 6 {
            cart.get(i, j)
        } else if i < 6 {
            cross.get(i, j - 6)
        } else if j < 6 {
            cross.get(j, i - 6)
        } else {
            cov.get(i, j)
        }
    };
    table::build(
        n,
        n,
        f,
        Ghost(
            |i: int, j: int|
                if i < 6 && j < 6 {
                    cart@.at(i, j)
                } else if i < 6 {
                    cross@.at(i, j - 6)
                } else if j < 6 {
                    cross@.at(j, i - 6)
                } else {
                    cov@.at(i, j)
                },
        ),
    )
}

impl UncertainState<Equatorial, DynCenter> {
    /// The uncertain state of elements with their covariance. The rows and columns of the
    /// covariance stand for eccentricity, perihelion distance, time of perihelion, longitude of
    /// the node, argument of perihelion and inclination, with angles in radians, and then for
    /// the parameters.
    pub open spec fn of_elements<A: Physics>(
        ops: &A,
        e: CometElements,
        cov: Grid,
        params: Seq<F64>,
    ) -> KeteResult<UncertainModel<Equatorial, DynCenter>> {
        if !covers(cov, params.len()) {
            Err(shape_fault(cov, params.len()))
        } else {
            match e.motion(ops) {
                Err(e) => Err(e),
                Ok(m) => match slopes(ops, e, 6) {
                    Err(e) => Err(e),
                    Ok(columns) => Ok(
                        UncertainModel {
                            state: State {
                                desig: e.desig,
                                epoch: e.epoch,
                                pos: equatorial(ops, ops.values(), m.pos),
                                vel: equatorial(ops, ops.values(), m.vel),
                                center: DynCenter(e.center_id),
                            },
                            cov: turned_covariance(
                                ops,
                                elements_jacobian(columns),
                                cov,
                                params.len(),
                            ),
                            params,
                        },
                    ),
                },
            }
        }
    }

    /// The uncertain state of elements with their covariance.
    pub fn from_cometary<A: Physics>(
        ops: &A,
        elements: &CometElements,
        cov_elem: &Table,
        free_params: Vec<F64>,
    ) -> (r: KeteResult<Self>)
        requires
            ops.lawful(),
            cov_elem@.well_formed(),
            free_params@.len() + 6 <= usize::MAX,
        ensures
            model_of(r) == Self::of_elements(ops, *elements, cov_elem@, free_params@),
            r matches Ok(u) ==> u@.well_formed(),
    {
        let np = free_params.len();
        let size = 6 + np;
        if cov_elem.nrows != size || cov_elem.ncols != size {
            return Err(
                Error::ValueError(
                    ValueFault::CovarianceShape {
                        size,
                        rows: cov_elem.nrows,
                        columns: cov_elem.ncols,
                    },
                ),
            );
        }
        let c = ops.constants();
        let m: Motion<Ecliptic> = match elements.to_pos_vel(ops) {
            Err(e) => {
                return Err(e);
            },
            Ok(m) => m,
        };
        let state = State::new(
            elements.desig.clone(),
            elements.epoch,
            to_equatorial(ops, c, m.pos),
            to_equatorial(ops, c, m.vel),
            DynCenter(elements.center_id),
        );
        let jac = match cometary_to_cartesian_jacobian(ops, elements) {
            Err(e) => {
                return Err(e);
            },
            Ok(jac) => jac,
        };
        let cov_cart = turn_covariance(ops, &jac, cov_elem, np);
        Self::new(state, cov_cart, free_params)
    }
}

/// The derivatives of position and velocity by the elements.
pub fn cometary_to_cartesian_jacobian<A: Physics>(ops: &A, elements: &CometElements) -> (r:
    KeteResult<Table>)
    requires
        ops.lawful(),
    ensures
        match slopes(ops, *elements, 6) {
            Err(e) => r == Err::<Table, Error>(e),
            Ok(columns) => r is Ok && r->Ok_0@ == elements_jacobian(columns)
                && r->Ok_0@.well_formed(),
        },
{
    match find_slopes(ops, elements, 6) {
        Err(e) => Err(e),
        Ok(columns) => {
            let f = |i: usize, j: usize| -> (r: F64)
                requires
                    table::inside(i, j, 6, 6),
                    columns@.len() == 6,
                    numbers::shaped(numbers::rows(columns@), 6, 6),
                ensures
                    r == numbers::rows(columns@)[j as int][i as int],
            {
                assert(numbers::rows(columns@)[j as int].len() == 6);
                columns[j][i]
            };
            let jac = table::build(
                6,
                6,
                f,
                Ghost(|i: int, j: int| numbers::rows(columns@)[j][i]),
            );
            Ok(jac)
        },
    }
}

/// Are the operations exact by which the rows `i` and `j` of the spread are found.
pub open spec fn exact_spread<A: Arithmetic>(
    ops: &A,
    v: Reading,
    e: Spectrum,
    i: int,
    j: int,
) -> bool {
    let d = deviations(ops, e.values);
    &&& v(F64 { bits: 0 }) == 0real
    &&& forall|k: int|
        0 <= k < e.values.len() ==> {
            &&& if (F64 { bits: 0 }).spec_lt(#[trigger] e.values[k]) {
                orbits::roots(ops, v, e.values[k])
            } else {
                v(e.values[k]) == 0real
            }
            &&& orbits::multiplies(ops, v, e.vectors.at(i, k), d[k])
            &&& orbits::multiplies(ops, v, e.vectors.at(j, k), d[k])
        }
}

/// Samples are spread like the covariance: the products of two rows of the matrix which turns
/// independent normal variables into a sample add up to what eigenvalues and eigenvectors give.
/// No eigenvalue is negative here.
pub proof fn law_spread_is_a_root<A: Arithmetic>(
    ops: &A,
    v: Reading,
    e: Spectrum,
    n: nat,
    i: int,
    j: int,
)
    requires
        e.values.len() == n,
        e.vectors.well_formed(),
        e.vectors.nrows == n,
        e.vectors.ncols == n,
        0 <= i < n,
        0 <= j < n,
        exact_spread(ops, v, e, i, j),
    ensures
        exact::total(
            |k: int| v(spread(ops, e).at(i, k)) * v(spread(ops, e).at(j, k)),
            n,
        ) == exact::total(
            |k: int| v(e.values[k]) * (v(e.vectors.at(i, k)) * v(e.vectors.at(j, k))),
            n,
        ),
{
    let s = spread(ops, e);
    let d = deviations(ops, e.values);
    let f = |k: int| v(s.at(i, k)) * v(s.at(j, k));
    let g = |k: int| v(e.values[k]) * (v(e.vectors.at(i, k)) * v(e.vectors.at(j, k)));
    assert forall|k: int| 0 <= k < n implies #[trigger] f(k) == g(k) by {
        let value = e.values[k];
        let (x, y, z) = (v(e.vectors.at(i, k)), v(e.vectors.at(j, k)), v(d[k]));
        assert(s.at(i, k) == arithmetic::product(ops, e.vectors.at(i, k), d[k]));
        assert(s.at(j, k) == arithmetic::product(ops, e.vectors.at(j, k), d[k]));
        rounding::lemma_minus(0real, 1real);
        assert(z * z == v(value));
        rounding::lemma_factors(x, z, y, z);
        rounding::lemma_order(x * y, z * z, 1real);
    }
    exact::lemma_total_same(f, g, n);
}

/// Are the operations exact by which entry `i` of a state is moved by a draw.
pub open spec fn exact_sample<A: Arithmetic>(
    ops: &A,
    v: Reading,
    s: Grid,
    draw: Seq<F64>,
    i: int,
    mean: F64,
) -> bool {
    &&& exact::dots_up(ops, v, s.cells[i], draw, s.ncols)
    &&& orbits::adds(ops, v, mean, s.applied(ops, draw)[i])
}

/// Entry `i` of position, velocity and parameters.
pub open spec fn entry<T: InertialFrame, C: CenterBody>(
    state: State<T, C>,
    params: Seq<F64>,
    i: int,
) -> F64 {
    if i < 6 {
        six(state.pos, state.vel)[i]
    } else {
        params[i - 6]
    }
}

/// A sample is the state moved by the spread, applied to the draw of independent normal variables.
/// Everything else about the state stays.
pub proof fn law_sample<T: InertialFrame, C: CenterBody, A: Algebra>(
    ops: &A,
    v: Reading,
    u: UncertainModel<T, C>,
    draws: Seq<Seq<F64>>,
    d: int,
    i: int,
)
    requires
        u.well_formed(),
        algebra::fits(ops.eigen(u.cov), u.cov.nrows),
        0 <= d < draws.len(),
        0 <= i < 6 + u.params.len(),
        u.samples(ops, draws) is Ok,
        exact_sample(
            ops,
            v,
            spread(ops, ops.eigen(u.cov)),
            draws[d],
            i,
            entry(u.state, u.params, i),
        ),
    ensures
        ({
            let all = u.samples(ops, draws)->Ok_0;
            let s = spread(ops, ops.eigen(u.cov));
            &&& all.len() == draws.len()
            &&& all[d].params.len() == u.params.len()
            &&& all[d].state.epoch == u.state.epoch
            &&& all[d].state.desig == u.state.desig
            &&& all[d].state.center == u.state.center
            &&& v(entry(all[d].state, all[d].params, i)) == v(entry(u.state, u.params, i))
                + exact::total(
                |k: int| v(s.cells[i][k]) * v(draws[d][k]),
                s.ncols,
            )
        }),
{
    let s = spread(ops, ops.eigen(u.cov));
    exact::lemma_dots_up(ops, v, s.cells[i], draws[d], s.ncols);
}

/// Are the operations exact by which the covariance of the entries `i` and `j` is turned.
pub open spec fn exact_turned<A: Arithmetic>(
    ops: &A,
    v: Reading,
    jac: Grid,
    cov: Grid,
    np: nat,
    i: int,
    j: int,
) -> bool {
    let half = jac.multiplied(ops, cov.block(0, 0, 6, 6));
    let side = cov.block(0, 6, 6, np);
    if i < 6 && j < 6 {
        &&& exact::dots_up(
            ops,
            v,
            half.cells[i],
            numbers::column(jac.transposed().cells, j),
            6,
        )
        &&& forall|l: int|
            0 <= l < 6 ==> exact::dots_up(
                ops,
                v,
                jac.cells[i],
                #[trigger] numbers::column(cov.block(0, 0, 6, 6).cells, l),
                6,
            )
    } else if i < 6 {
        exact::dots_up(ops, v, jac.cells[i], numbers::column(side.cells, j - 6), 6)
    } else {
        true
    }
}

/// The covariance of position and velocity, from that of elements: made up of the covariances of
/// all pairs of elements, each weighted by how the two depend on the pair. With a parameter it is
/// made up of those of the elements with the parameter, and parameters keep theirs.
pub proof fn law_elements_covariance_is_carried<A: Arithmetic>(
    ops: &A,
    v: Reading,
    jac: Grid,
    cov: Grid,
    np: nat,
    i: int,
    j: int,
)
    requires
        jac.well_formed(),
        jac.nrows == 6,
        jac.ncols == 6,
        cov.well_formed(),
        covers(cov, np),
        0 <= i < 6 + np,
        0 <= j < 6 + np,
        exact_turned(ops, v, jac, cov, np, i, j),
    ensures
        ({
            let r = turned_covariance(ops, jac, cov, np).at(i, j);
            if i < 6 && j < 6 {
                v(r) == exact::total(
                    |l: int|
                        exact::total(|k: int| v(jac.at(i, k)) * v(cov.at(k, l)), 6) * v(
                            jac.at(j, l),
                        ),
                    6,
                )
            } else if i < 6 {
                &&& v(r) == exact::total(|k: int| v(jac.at(i, k)) * v(cov.at(k, j)), 6)
                &&& turned_covariance(ops, jac, cov, np).at(j, i) == r
            } else if j >= 6 {
                r == cov.at(i, j)
            } else {
                true
            }
        }),
{
    if i < 6 && j < 6 {
        let block = cov.block(0, 0, 6, 6);
        let half = jac.multiplied(ops, block);
        let back = numbers::column(jac.transposed().cells, j);
        exact::lemma_dots_up(ops, v, half.cells[i], back, 6);
        let f = |l: int| v(half.cells[i][l]) * v(back[l]);
        let g = |l: int|
            exact::total(|k: int| v(jac.at(i, k)) * v(cov.at(k, l)), 6) * v(jac.at(j, l));
        assert forall|l: int| 0 <= l < 6 implies #[trigger] f(l) == g(l) by {
            let column = numbers::column(block.cells, l);
            exact::lemma_dots_up(ops, v, jac.cells[i], column, 6);
            let a = |k: int| v(jac.cells[i][k]) * v(column[k]);
            let b = |k: int| v(jac.at(i, k)) * v(cov.at(k, l));
            assert forall|k: int| 0 <= k < 6 implies #[trigger] a(k) == b(k) by {
                assert(column[k] == block.at(k, l));
            }
            exact::lemma_total_same(a, b, 6);
            assert(jac.transposed().cells[l][j] == jac.at(j, l));
        }
        exact::lemma_total_same(f, g, 6);
    } else if i < 6 {
        let side = cov.block(0, 6, 6, np);
        let column = numbers::column(side.cells, j - 6);
        exact::lemma_dots_up(ops, v, jac.cells[i], column, 6);
        let a = |k: int| v(jac.cells[i][k]) * v(column[k]);
        let b = |k: int| v(jac.at(i, k)) * v(cov.at(k, j));
        assert forall|k: int| 0 <= k < 6 implies #[trigger] a(k) == b(k) by {
            assert(column[k] == side.at(k, j - 6));
        }
        exact::lemma_total_same(a, b, 6);
    }
}

/// Element `col`: eccentricity, perihelion distance, time of perihelion, longitude of the node,
/// argument of perihelion, inclination.
pub open spec fn element(e: CometElements, col: int) -> F64 {
    if col == 0 {
        e.eccentricity
    } else if col == 1 {
        e.peri_dist
    } else if col == 2 {
        e.peri_time.jd
    } else if col == 3 {
        e.lon_of_ascending
    } else if col == 4 {
        e.peri_arg
    } else {
        e.inclination
    }
}

/// Are the second elements the first ones, with element `col` changed by `by` and no other.
pub open spec fn changed_by(
    v: Reading,
    e: CometElements,
    f: CometElements,
    col: int,
    by: real,
) -> bool {
    &&& forall|k: int|
        0 <= k < 6 ==> v(#[trigger] element(f, k)) == v(element(e, k)) + (if k == col {
            by
        } else {
            0real
        })
    &&& f.epoch == e.epoch
    &&& f.center_id == e.center_id
    &&& f.gm_sqrt == e.gm_sqrt
}

/// How position and velocity change with an element is a difference quotient between two sets of
/// elements which are apart in that element alone.
pub proof fn law_element_difference_quotient<A: Physics>(
    ops: &A,
    v: Reading,
    e: CometElements,
    col: int,
    i: int,
) -> (r: (CometElements, CometElements, real, real))
    requires
        0 <= col < 6,
        0 <= i < 6,
        slope(ops, e, col) is Ok,
        ({
            let h = nudge(ops, e, col);
            let (one, two) = (F64 { bits: constants::ONE }, F64 { bits: constants::TWO });
            let forward = col == 0 && e.eccentricity.spec_lt(arithmetic::product(ops, two, h));
            let width = if forward {
                h
            } else {
                arithmetic::product(ops, two, h)
            };
            let above = cartesian(ops, perturbed(ops, e, col, h))->Ok_0[i];
            let below = if forward {
                cartesian(ops, e)->Ok_0[i]
            } else {
                cartesian(ops, perturbed(ops, e, col, h.negated()))->Ok_0[i]
            };
            let inverse = arithmetic::quotient(ops, one, width);
            &&& v(one) == 1real && v(two) == 2real
            &&& v(h.negated()) == -v(h)
            &&& orbits::multiplies(ops, v, two, h)
            &&& orbits::divides(ops, v, one, width)
            &&& orbits::adds(ops, v, element(e, col), h)
            &&& orbits::adds(ops, v, element(e, col), h.negated())
            &&& orbits::subtracts(ops, v, above, below)
            &&& orbits::multiplies(ops, v, arithmetic::difference(ops, above, below), inverse)
        }),
    ensures
        changed_by(v, e, r.0, col, r.2),
        changed_by(v, e, r.1, col, -r.3),
        r.3 == r.2 || (r.3 == 0real && col == 0),
        cartesian(ops, r.0) is Ok,
        cartesian(ops, r.1) is Ok,
        v(slope(ops, e, col)->Ok_0[i]) * (r.2 + r.3) == v(cartesian(ops, r.0)->Ok_0[i]) - v(
            cartesian(ops, r.1)->Ok_0[i],
        ),
{
    let h = nudge(ops, e, col);
    let (one, two) = (F64 { bits: constants::ONE }, F64 { bits: constants::TWO });
    let forward = col == 0 && e.eccentricity.spec_lt(arithmetic::product(ops, two, h));
    let up = perturbed(ops, e, col, h);
    let down = if forward {
        e
    } else {
        perturbed(ops, e, col, h.negated())
    };
    let width = if forward {
        h
    } else {
        arithmetic::product(ops, two, h)
    };
    let gap = v(cartesian(ops, up)->Ok_0[i]) - v(cartesian(ops, down)->Ok_0[i]);
    let inverse = v(arithmetic::quotient(ops, one, width));
    rounding::lemma_order(gap, inverse, v(width));
    rounding::lemma_minus(gap, 1real);
    if forward {
        (up, down, v(h), 0real)
    } else {
        (up, down, v(h), v(h))
    }
}

} // verus!
