//! Derivatives of a force from accelerations on both sides.
use crate::arithmetic;
use crate::arithmetic::{Arithmetic, Unary};
use crate::conics::times;
use crate::constants;
use crate::errors::{Error, KeteResult};
use crate::exact;
use crate::float::F64;
use crate::forces::traits;
use crate::forces::traits::{Evaluate, Jacobians};
use crate::frames;
use crate::frames::{InertialFrame, Vector};
use crate::matrix::Matrix3;
use crate::numbers;
use crate::orbits;
use crate::rounding::{read, Reading, Triple};
use crate::time::Time;
use vstd::prelude::*;

verus! {

/// Positions and velocities below this are moved as far as this one.
pub const SMALL_COMPONENT: u64 = 0x3f1a_36e2_eb1c_432d;

/// Parameters below this are moved as far as this one.
pub const SMALL_PARAMETER: u64 = 0x3d71_9799_812d_ea11;

/// How far a number is moved to each side: the cube root of the precision times its size, which
/// is taken to be at least `floor`.
pub open spec fn step<A: Arithmetic>(ops: &A, x: F64, floor: F64) -> F64 {
    arithmetic::product(
        ops,
        ops.one(Unary::Cbrt, F64 { bits: constants::MACHINE_EPSILON }),
        numbers::larger(x.abs_value(), floor),
    )
}

/// How far a number is moved to each side.
fn find_step<A: Arithmetic>(ops: &A, x: F64, floor: F64) -> (h: F64)
    requires
        ops.lawful(),
    ensures
        h == step(ops, x, floor),
{
    let small = ops.unary(Unary::Cbrt, F64::from_bits(constants::MACHINE_EPSILON));
    arithmetic::times(ops, small, numbers::max(x.abs(), floor))
}

/// A component of a vector.
pub open spec fn component<T: InertialFrame>(v: Vector<T>, axis: int) -> F64 {
    if axis == 0 {
        v.x
    } else if axis == 1 {
        v.y
    } else {
        v.z
    }
}

/// A component of a vector.
fn component_of<T: InertialFrame>(v: Vector<T>, axis: usize) -> (x: F64)
    ensures
        x == component(v, axis as int),
{
    if axis == 0 {
        v.x
    } else if axis == 1 {
        v.y
    } else {
        v.z
    }
}

/// A vector with `h` added to one component.
pub open spec fn shifted<A: Arithmetic, T: InertialFrame>(
    ops: &A,
    v: Vector<T>,
    axis: int,
    h: F64,
) -> Vector<T> {
    if axis == 0 {
        frames::vector(arithmetic::sum(ops, v.x, h), v.y, v.z)
    } else if axis == 1 {
        frames::vector(v.x, arithmetic::sum(ops, v.y, h), v.z)
    } else {
        frames::vector(v.x, v.y, arithmetic::sum(ops, v.z, h))
    }
}

/// A vector with `h` added to one component.
fn shift<A: Arithmetic, T: InertialFrame>(ops: &A, v: Vector<T>, axis: usize, h: F64) -> (r:
    Vector<T>)
    requires
        ops.lawful(),
    ensures
        r == shifted(ops, v, axis as int, h),
{
    if axis == 0 {
        Vector::of(arithmetic::plus(ops, v.x, h), v.y, v.z)
    } else if axis == 1 {
        Vector::of(v.x, arithmetic::plus(ops, v.y, h), v.z)
    } else {
        Vector::of(v.x, v.y, arithmetic::plus(ops, v.z, h))
    }
}

/// The slope between two accelerations which are `h` to each side, or why one is not known.
pub open spec fn between<A: Arithmetic, T: InertialFrame>(
    ops: &A,
    above: KeteResult<Vector<T>>,
    below: KeteResult<Vector<T>>,
    h: F64,
) -> KeteResult<Vector<T>> {
    match above {
        Err(e) => Err(e),
        Ok(above) => match below {
            Err(e) => Err(e),
            Ok(below) => Ok(
                above.difference(ops, below).shrunk(
                    ops,
                    arithmetic::product(ops, F64 { bits: constants::TWO }, h),
                ),
            ),
        },
    }
}

/// The slope between two accelerations which are `h` to each side, or why one is not known.
fn find_between<A: Arithmetic, T: InertialFrame>(
    ops: &A,
    above: KeteResult<Vector<T>>,
    below: KeteResult<Vector<T>>,
    h: F64,
) -> (r: KeteResult<Vector<T>>)
    requires
        ops.lawful(),
    ensures
        r == between(ops, above, below, h),
{
    match above {
        Err(e) => Err(e),
        Ok(above) => match below {
            Err(e) => Err(e),
            Ok(below) => {
                let width = arithmetic::times(ops, F64::from_bits(constants::TWO), h);
                Ok(above.minus(ops, below).over(ops, width))
            },
        },
    }
}

/// The derivative of an acceleration by one component of the position, or by one of the velocity
/// from the fourth on.
pub open spec fn slope<A: Arithmetic, F: Evaluate<A>>(
    force: &F,
    ops: &A,
    time: Time,
    pos: Vector<F::Frame>,
    vel: Vector<F::Frame>,
    free_params: Seq<F64>,
    col: int,
) -> KeteResult<Vector<F::Frame>> {
    let floor = F64 { bits: SMALL_COMPONENT };
    if col < 3 {
        let h = step(ops, component(pos, col), floor);
        between(
            ops,
            force.accel_value(ops, time, shifted(ops, pos, col, h), vel, free_params),
            force.accel_value(ops, time, shifted(ops, pos, col, h.negated()), vel, free_params),
            h,
        )
    } else {
        let h = step(ops, component(vel, col - 3), floor);
        between(
            ops,
            force.accel_value(ops, time, pos, shifted(ops, vel, col - 3, h), free_params),
            force.accel_value(ops, time, pos, shifted(ops, vel, col - 3, h.negated()), free_params),
            h,
        )
    }
}

/// The derivative of an acceleration by one component of the position or of the velocity.
fn find_slope<A: Arithmetic, F: Evaluate<A>>(
    force: &F,
    ops: &A,
    time: Time,
    pos: Vector<F::Frame>,
    vel: Vector<F::Frame>,
    free_params: &[F64],
    col: usize,
) -> (r: KeteResult<Vector<F::Frame>>)
    requires
        ops.lawful(),
        force.well_formed(),
        force.accepts(free_params@.len()),
    ensures
        r == slope(force, ops, time, pos, vel, free_params@, col as int),
{
    let floor = F64::from_bits(SMALL_COMPONENT);
    if col < 3 {
        let h = find_step(ops, component_of(pos, col), floor);
        let above = force.accel(ops, time, shift(ops, pos, col, h), vel, free_params);
        let below = force.accel(ops, time, shift(ops, pos, col, h.neg()), vel, free_params);
        find_between(ops, above, below, h)
    } else {
        let h = find_step(ops, component_of(vel, col - 3), floor);
        let above = force.accel(ops, time, pos, shift(ops, vel, col - 3, h), free_params);
        let below = force.accel(ops, time, pos, shift(ops, vel, col - 3, h.neg()), free_params);
        find_between(ops, above, below, h)
    }
}

/// The first `n` derivatives by position and velocity, or the first fault.
pub open spec fn slopes<A: Arithmetic, F: Evaluate<A>>(
    force: &F,
    ops: &A,
    time: Time,
    pos: Vector<F::Frame>,
    vel: Vector<F::Frame>,
    free_params: Seq<F64>,
    n: nat,
) -> KeteResult<Seq<Vector<F::Frame>>>
    decreases n,
{
    if n == 0 {
        Ok(Seq::empty())
    } else {
        match slopes(force, ops, time, pos, vel, free_params, (n - 1) as nat) {
            Err(e) => Err(e),
            Ok(columns) => match slope(force, ops, time, pos, vel, free_params, n - 1) {
                Err(e) => Err(e),
                Ok(column) => Ok(columns.push(column)),
            },
        }
    }
}

/// The first `n` derivatives by position and velocity, or the first fault.
fn find_slopes<A: Arithmetic, F: Evaluate<A>>(
    force: &F,
    ops: &A,
    time: Time,
    pos: Vector<F::Frame>,
    vel: Vector<F::Frame>,
    free_params: &[F64],
    n: usize,
) -> (r: KeteResult<Vec<Vector<F::Frame>>>)
    requires
        ops.lawful(),
        force.well_formed(),
        force.accepts(free_params@.len()),
    ensures
        traits::columns(r) == slopes(force, ops, time, pos, vel, free_params@, n as nat),
        r matches Ok(columns) ==> columns@.len() == n,
    decreases n,
{
    if n == 0 {
        let none: Vec<Vector<F::Frame>> = Vec::new();
        assert(none@ =~= Seq::empty());
        return Ok(none);
    }
    match find_slopes(force, ops, time, pos, vel, free_params, n - 1) {
        Err(e) => Err(e),
        Ok(columns) => match find_slope(force, ops, time, pos, vel, free_params, n - 1) {
            Err(e) => Err(e),
            Ok(column) => {
                let mut columns = columns;
                columns.push(column);
                Ok(columns)
            },
        },
    }
}

/// The matrix with three given columns.
pub open spec fn by_columns<T: InertialFrame>(a: Vector<T>, b: Vector<T>, c: Vector<T>) -> Matrix3<
    T,
> {
    (Matrix3 { x: a, y: b, z: c }).transposed()
}

/// The derivatives of a force by position and velocity, or the first fault.
pub open spec fn jacobians<A: Arithmetic, F: Evaluate<A>>(
    force: &F,
    ops: &A,
    time: Time,
    pos: Vector<F::Frame>,
    vel: Vector<F::Frame>,
    free_params: Seq<F64>,
) -> KeteResult<Jacobians<F::Frame>> {
    match slopes(force, ops, time, pos, vel, free_params, 6) {
        Err(e) => Err(e),
        Ok(c) => Ok(
            Jacobians { pos: by_columns(c[0], c[1], c[2]), vel: by_columns(c[3], c[4], c[5]) },
        ),
    }
}

/// The derivatives of a force by position and velocity, or the first fault.
pub fn find_jacobians<A: Arithmetic, F: Evaluate<A>>(
    force: &F,
    ops: &A,
    time: Time,
    pos: Vector<F::Frame>,
    vel: Vector<F::Frame>,
    free_params: &[F64],
) -> (r: KeteResult<Jacobians<F::Frame>>)
    requires
        ops.lawful(),
        force.well_formed(),
        force.accepts(free_params@.len()),
    ensures
        r == jacobians(force, ops, time, pos, vel, free_params@),
{
    match find_slopes(force, ops, time, pos, vel, free_params, 6) {
        Err(e) => Err(e),
        Ok(c) => {
            let by_pos = Matrix3 { x: c[0], y: c[1], z: c[2] };
            let by_vel = Matrix3 { x: c[3], y: c[4], z: c[5] };
            Ok(Jacobians { pos: by_pos.transpose(), vel: by_vel.transpose() })
        },
    }
}

/// The derivative of an acceleration by one parameter, or the first fault.
pub open spec fn parameter_slope<A: Arithmetic, F: Evaluate<A>>(
    force: &F,
    ops: &A,
    time: Time,
    pos: Vector<F::Frame>,
    vel: Vector<F::Frame>,
    free_params: Seq<F64>,
    k: int,
) -> KeteResult<Vector<F::Frame>> {
    let h = step(ops, free_params[k], F64 { bits: SMALL_PARAMETER });
    let above = free_params.update(k, arithmetic::sum(ops, free_params[k], h));
    let below = free_params.update(k, arithmetic::sum(ops, free_params[k], h.negated()));
    between(
        ops,
        force.accel_value(ops, time, pos, vel, above),
        force.accel_value(ops, time, pos, vel, below),
        h,
    )
}

/// Numbers with one of them replaced.
fn with_entry(values: &[F64], k: usize, x: F64) -> (r: Vec<F64>)
    requires
        k < values@.len(),
    ensures
        r@ == values@.update(k as int, x),
{
    let ghost want = values@.update(k as int, x);
    let mut r: Vec<F64> = Vec::new();
    let mut i: usize = 0;
    while i < values.len()
        invariant
            k < values@.len(),
            want == values@.update(k as int, x),
            i <= values@.len(),
            r@ == want.take(i as int),
        decreases values@.len() - i,
    {
        r.push(
            if i == k {
                x
            } else {
                values[i]
            },
        );
        i = i + 1;
        assert(r@ =~= want.take(i as int));
    }
    assert(r@ =~= want);
    r
}

/// The derivative of an acceleration by one parameter, or the first fault.
fn find_parameter_slope<A: Arithmetic, F: Evaluate<A>>(
    force: &F,
    ops: &A,
    time: Time,
    pos: Vector<F::Frame>,
    vel: Vector<F::Frame>,
    free_params: &[F64],
    k: usize,
) -> (r: KeteResult<Vector<F::Frame>>)
    requires
        ops.lawful(),
        force.well_formed(),
        force.accepts(free_params@.len()),
        k < free_params@.len(),
    ensures
        r == parameter_slope(force, ops, time, pos, vel, free_params@, k as int),
{
    let h = find_step(ops, free_params[k], F64::from_bits(SMALL_PARAMETER));
    let above = with_entry(free_params, k, arithmetic::plus(ops, free_params[k], h));
    let below = with_entry(free_params, k, arithmetic::plus(ops, free_params[k], h.neg()));
    let above = force.accel(ops, time, pos, vel, above.as_slice());
    let below = force.accel(ops, time, pos, vel, below.as_slice());
    find_between(ops, above, below, h)
}

/// The derivatives by the first `n` parameters, or the first fault.
pub open spec fn parameter_slopes<A: Arithmetic, F: Evaluate<A>>(
    force: &F,
    ops: &A,
    time: Time,
    pos: Vector<F::Frame>,
    vel: Vector<F::Frame>,
    free_params: Seq<F64>,
    n: nat,
) -> KeteResult<Seq<Vector<F::Frame>>>
    decreases n,
{
    if n == 0 {
        Ok(Seq::empty())
    } else {
        match parameter_slopes(force, ops, time, pos, vel, free_params, (n - 1) as nat) {
            Err(e) => Err(e),
            Ok(columns) => match parameter_slope(force, ops, time, pos, vel, free_params, n - 1) {
                Err(e) => Err(e),
                Ok(column) => Ok(columns.push(column)),
            },
        }
    }
}

/// There is one derivative for each parameter.
pub proof fn lemma_parameter_slopes<A: Arithmetic, F: Evaluate<A>>(
    force: &F,
    ops: &A,
    time: Time,
    pos: Vector<F::Frame>,
    vel: Vector<F::Frame>,
    free_params: Seq<F64>,
    n: nat,
)
    ensures
        parameter_slopes(force, ops, time, pos, vel, free_params, n) matches Ok(c) ==> c.len() == n,
    decreases n,
{
    if n > 0 {
        lemma_parameter_slopes(force, ops, time, pos, vel, free_params, (n - 1) as nat);
    }
}

/// The derivatives by the first `n` parameters, or the first fault.
pub fn find_parameter_slopes<A: Arithmetic, F: Evaluate<A>>(
    force: &F,
    ops: &A,
    time: Time,
    pos: Vector<F::Frame>,
    vel: Vector<F::Frame>,
    free_params: &[F64],
    n: usize,
) -> (r: KeteResult<Vec<Vector<F::Frame>>>)
    requires
        ops.lawful(),
        force.well_formed(),
        force.accepts(free_params@.len()),
        n <= free_params@.len(),
    ensures
        traits::columns(r) == parameter_slopes(force, ops, time, pos, vel, free_params@, n as nat),
    decreases n,
{
    if n == 0 {
        let none: Vec<Vector<F::Frame>> = Vec::new();
        assert(none@ =~= Seq::empty());
        return Ok(none);
    }
    match find_parameter_slopes(force, ops, time, pos, vel, free_params, n - 1) {
        Err(e) => Err(e),
        Ok(columns) => match find_parameter_slope(
            force,
            ops,
            time,
            pos,
            vel,
            free_params,
            n - 1,
        ) {
            Err(e) => Err(e),
            Ok(column) => {
                let mut columns = columns;
                columns.push(column);
                Ok(columns)
            },
        },
    }
}

/// Component `col` of a position and a velocity.
pub open spec fn sixth<T: InertialFrame>(pos: Vector<T>, vel: Vector<T>, col: int) -> F64 {
    if col < 3 {
        component(pos, col)
    } else {
        component(vel, col - 3)
    }
}

/// Is a second state the first one moved by `by` in component `col` and in no other.
pub open spec fn moved_by<T: InertialFrame>(
    v: Reading,
    pos: Vector<T>,
    vel: Vector<T>,
    pos2: Vector<T>,
    vel2: Vector<T>,
    col: int,
    by: real,
) -> bool {
    forall|k: int|
        0 <= k < 6 ==> v(#[trigger] sixth(pos2, vel2, k)) == v(sixth(pos, vel, k)) + (if k == col {
            by
        } else {
            0real
        })
}

/// Are the operations exact by which the slope between two accelerations is found.
pub open spec fn exact_between<A: Arithmetic, T: InertialFrame>(
    ops: &A,
    v: Reading,
    above: Vector<T>,
    below: Vector<T>,
    x: F64,
    h: F64,
) -> bool {
    let two = F64 { bits: constants::TWO };
    &&& v(two) == 2real
    &&& v(h.negated()) == -v(h)
    &&& orbits::adds(ops, v, x, h)
    &&& orbits::adds(ops, v, x, h.negated())
    &&& orbits::multiplies(ops, v, two, h)
    &&& exact::differs(ops, v, above, below)
    &&& exact::shrinks(
        ops,
        v,
        above.difference(ops, below),
        arithmetic::product(ops, two, h),
    )
}

/// Column `col` of the derivatives by position and velocity.
pub open spec fn column_of<T: InertialFrame>(v: Reading, j: Jacobians<T>, col: int) -> Triple {
    let m = if col < 3 {
        j.pos
    } else {
        j.vel
    };
    let k = if col < 3 {
        col
    } else {
        col - 3
    };
    Triple { x: v(component(m.x, k)), y: v(component(m.y, k)), z: v(component(m.z, k)) }
}

/// Where all slopes are known, each of them is.
proof fn lemma_each_slope<A: Arithmetic, F: Evaluate<A>>(
    force: &F,
    ops: &A,
    time: Time,
    pos: Vector<F::Frame>,
    vel: Vector<F::Frame>,
    free_params: Seq<F64>,
    n: nat,
    col: int,
)
    requires
        0 <= col < n,
        slopes(force, ops, time, pos, vel, free_params, n) is Ok,
    ensures
        slopes(force, ops, time, pos, vel, free_params, n)->Ok_0.len() == n,
        slope(force, ops, time, pos, vel, free_params, col) == Ok::<Vector<F::Frame>, Error>(
            slopes(force, ops, time, pos, vel, free_params, n)->Ok_0[col],
        ),
    decreases n,
{
    let m = (n - 1) as nat;
    if col < m {
        lemma_each_slope(force, ops, time, pos, vel, free_params, m, col);
    } else if m > 0 {
        lemma_each_slope(force, ops, time, pos, vel, free_params, m, 0);
    }
}

/// A derivative is a difference quotient: column `col`, times the distance between two states
/// which are apart in that component alone, is the difference of the accelerations there.
pub proof fn law_difference_quotient<A: Arithmetic, F: Evaluate<A>>(
    force: &F,
    ops: &A,
    v: Reading,
    time: Time,
    pos: Vector<F::Frame>,
    vel: Vector<F::Frame>,
    free_params: Seq<F64>,
    col: int,
    above: Vector<F::Frame>,
    below: Vector<F::Frame>,
) -> (r: (Vector<F::Frame>, Vector<F::Frame>, Vector<F::Frame>, Vector<F::Frame>, real))
    requires
        0 <= col < 6,
        jacobians(force, ops, time, pos, vel, free_params) is Ok,
        ({
            let h = step(ops, sixth(pos, vel, col), F64 { bits: SMALL_COMPONENT });
            let (p, y) = if col < 3 {
                (shifted(ops, pos, col, h), vel)
            } else {
                (pos, shifted(ops, vel, col - 3, h))
            };
            let (q, z) = if col < 3 {
                (shifted(ops, pos, col, h.negated()), vel)
            } else {
                (pos, shifted(ops, vel, col - 3, h.negated()))
            };
            &&& force.accel_value(ops, time, p, y, free_params) == Ok::<Vector<F::Frame>, Error>(
                above,
            )
            &&& force.accel_value(ops, time, q, z, free_params) == Ok::<Vector<F::Frame>, Error>(
                below,
            )
            &&& exact_between(ops, v, above, below, sixth(pos, vel, col), h)
        }),
    ensures
        moved_by(v, pos, vel, r.0, r.1, col, r.4),
        moved_by(v, pos, vel, r.2, r.3, col, -r.4),
        force.accel_value(ops, time, r.0, r.1, free_params) == Ok::<Vector<F::Frame>, Error>(above),
        force.accel_value(ops, time, r.2, r.3, free_params) == Ok::<Vector<F::Frame>, Error>(below),
        times(
            2real * r.4,
            column_of(v, jacobians(force, ops, time, pos, vel, free_params)->Ok_0, col),
        ) == exact::minus(read(v, above), read(v, below)),
{
    let h = step(ops, sixth(pos, vel, col), F64 { bits: SMALL_COMPONENT });
    let (p, y) = if col < 3 {
        (shifted(ops, pos, col, h), vel)
    } else {
        (pos, shifted(ops, vel, col - 3, h))
    };
    let (q, z) = if col < 3 {
        (shifted(ops, pos, col, h.negated()), vel)
    } else {
        (pos, shifted(ops, vel, col - 3, h.negated()))
    };
    lemma_each_slope(force, ops, time, pos, vel, free_params, 6, col);
    let two = F64 { bits: constants::TWO };
    exact::lemma_shrunk(
        ops,
        v,
        above.difference(ops, below),
        arithmetic::product(ops, two, h),
    );
    let found = slope(force, ops, time, pos, vel, free_params, col)->Ok_0;
    let j = jacobians(force, ops, time, pos, vel, free_params)->Ok_0;
    assert(column_of(v, j, col) == read(v, found));
    (p, y, q, z, v(h))
}

/// Where all derivatives by parameters are known, each of them is.
proof fn lemma_each_parameter<A: Arithmetic, F: Evaluate<A>>(
    force: &F,
    ops: &A,
    time: Time,
    pos: Vector<F::Frame>,
    vel: Vector<F::Frame>,
    free_params: Seq<F64>,
    n: nat,
    k: int,
)
    requires
        0 <= k < n,
        parameter_slopes(force, ops, time, pos, vel, free_params, n) is Ok,
    ensures
        parameter_slopes(force, ops, time, pos, vel, free_params, n)->Ok_0.len() == n,
        parameter_slope(force, ops, time, pos, vel, free_params, k) == Ok::<
            Vector<F::Frame>,
            Error,
        >(parameter_slopes(force, ops, time, pos, vel, free_params, n)->Ok_0[k]),
    decreases n,
{
    let m = (n - 1) as nat;
    if k < m {
        lemma_each_parameter(force, ops, time, pos, vel, free_params, m, k);
    } else if m > 0 {
        lemma_each_parameter(force, ops, time, pos, vel, free_params, m, 0);
    }
}

/// The derivative by parameter `k` is a difference quotient between two sets of values which are
/// apart in that parameter alone.
pub proof fn law_parameter_difference_quotient<A: Arithmetic, F: Evaluate<A>>(
    force: &F,
    ops: &A,
    v: Reading,
    time: Time,
    pos: Vector<F::Frame>,
    vel: Vector<F::Frame>,
    free_params: Seq<F64>,
    k: int,
    above: Vector<F::Frame>,
    below: Vector<F::Frame>,
) -> (r: (F64, F64, real))
    requires
        0 <= k < free_params.len(),
        parameter_slopes(force, ops, time, pos, vel, free_params, free_params.len()) is Ok,
        ({
            let h = step(ops, free_params[k], F64 { bits: SMALL_PARAMETER });
            let up = free_params.update(k, arithmetic::sum(ops, free_params[k], h));
            let down = free_params.update(k, arithmetic::sum(ops, free_params[k], h.negated()));
            &&& force.accel_value(ops, time, pos, vel, up) == Ok::<Vector<F::Frame>, Error>(above)
            &&& force.accel_value(ops, time, pos, vel, down) == Ok::<Vector<F::Frame>, Error>(below)
            &&& exact_between(ops, v, above, below, free_params[k], h)
        }),
    ensures
        v(r.0) == v(free_params[k]) + r.2,
        v(r.1) == v(free_params[k]) - r.2,
        force.accel_value(ops, time, pos, vel, free_params.update(k, r.0)) == Ok::<
            Vector<F::Frame>,
            Error,
        >(above),
        force.accel_value(ops, time, pos, vel, free_params.update(k, r.1)) == Ok::<
            Vector<F::Frame>,
            Error,
        >(below),
        times(
            2real * r.2,
            read(
                v,
                parameter_slopes(
                    force,
                    ops,
                    time,
                    pos,
                    vel,
                    free_params,
                    free_params.len(),
                )->Ok_0[k],
            ),
        ) == exact::minus(read(v, above), read(v, below)),
{
    let h = step(ops, free_params[k], F64 { bits: SMALL_PARAMETER });
    lemma_each_parameter(
        force,
        ops,
        time,
        pos,
        vel,
        free_params,
        free_params.len(),
        k,
    );
    let two = F64 { bits: constants::TWO };
    exact::lemma_shrunk(
        ops,
        v,
        above.difference(ops, below),
        arithmetic::product(ops, two, h),
    );
    (
        arithmetic::sum(ops, free_params[k], h),
        arithmetic::sum(ops, free_params[k], h.negated()),
        v(h),
    )
}

} // verus!
