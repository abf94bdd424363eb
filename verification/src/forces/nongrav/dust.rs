//! Sunlight on a grain of dust.
use crate::arithmetic;
use crate::arithmetic::{Arithmetic};
use crate::conics;
use crate::constants;
use crate::constants::Constants;
use crate::errors::{KeteResult};
use crate::exact;
use crate::float::F64;
use crate::forces::traits;
use crate::forces::traits::{AnalyticForce, Evaluate, Jacobians, ParameterizedForce};
use crate::frames::{Equatorial, SunCenter, Vector};
use crate::matrix::Matrix3;
use crate::orbits;
use crate::physics::{Physics};
use crate::rounding;
use crate::rounding::{read, Reading, Triple};
use crate::time::Time;
use vstd::prelude::*;

verus! {

/// The pressure of sunlight on a grain of dust, and the drag which comes of its motion. The
/// ratio `beta` of the pressure to the pull of the Sun is free.
#[derive(Debug, Clone, Copy, Default)]
pub struct DustNonGrav;

/// The direction of the push, not yet scaled: away from the Sun, less what the motion takes.
pub open spec fn push<A: Arithmetic>(
    ops: &A,
    c: Constants,
    pos: Vector<Equatorial>,
    vel: Vector<Equatorial>,
) -> Vector<Equatorial> {
    let direction = pos.unit(ops);
    let r_dot = direction.dotted(ops, vel);
    direction.scaled(
        ops,
        arithmetic::difference(
            ops,
            F64 { bits: constants::ONE },
            arithmetic::product(ops, r_dot, c.c_inv_squared),
        ),
    ).difference(
        ops,
        vel.scaled(ops, c.c_inv_squared),
    )
}

/// The direction of the push, not yet scaled: away from the Sun, less what the motion takes.
fn find_push<A: Arithmetic>(
    ops: &A,
    c: Constants,
    pos: Vector<Equatorial>,
    vel: Vector<Equatorial>,
) -> (r: Vector<Equatorial>)
    requires
        ops.lawful(),
    ensures
        r == push(ops, c, pos, vel),
{
    let direction = pos.normalize(ops);
    let r_dot = direction.dot(ops, vel);
    direction.scale(
        ops,
        arithmetic::minus(
            ops,
            F64::from_bits(constants::ONE),
            arithmetic::times(ops, r_dot, c.c_inv_squared),
        ),
    ).minus(
        ops,
        vel.scale(ops, c.c_inv_squared),
    )
}

/// The acceleration of a grain with the ratio `beta`.
pub open spec fn pressure<A: Arithmetic>(
    ops: &A,
    c: Constants,
    pos: Vector<Equatorial>,
    vel: Vector<Equatorial>,
    beta: F64,
) -> Vector<Equatorial> {
    let inverse_square = arithmetic::quotient(
        ops,
        F64 { bits: constants::ONE },
        pos.dotted(ops, pos),
    );
    push(ops, c, pos, vel).scaled(
        ops,
        arithmetic::product(ops, arithmetic::product(ops, c.gms, beta), inverse_square),
    )
}

/// The acceleration of a grain with the ratio `beta`.
fn find_pressure<A: Arithmetic>(
    ops: &A,
    c: Constants,
    pos: Vector<Equatorial>,
    vel: Vector<Equatorial>,
    beta: F64,
) -> (r: Vector<Equatorial>)
    requires
        ops.lawful(),
    ensures
        r == pressure(ops, c, pos, vel, beta),
{
    let inverse_square = arithmetic::over(ops, F64::from_bits(constants::ONE), pos.dot(ops, pos));
    find_push(ops, c, pos, vel).scale(
        ops,
        arithmetic::times(ops, arithmetic::times(ops, c.gms, beta), inverse_square),
    )
}

/// The derivative of the acceleration by `beta`.
pub open spec fn pressure_by_beta<A: Arithmetic>(
    ops: &A,
    c: Constants,
    pos: Vector<Equatorial>,
    vel: Vector<Equatorial>,
) -> Vector<Equatorial> {
    let inverse_square = arithmetic::quotient(
        ops,
        F64 { bits: constants::ONE },
        pos.dotted(ops, pos),
    );
    push(ops, c, pos, vel).scaled(ops, arithmetic::product(ops, c.gms, inverse_square))
}

/// The derivative of the acceleration by `beta`.
fn find_pressure_by_beta<A: Arithmetic>(
    ops: &A,
    c: Constants,
    pos: Vector<Equatorial>,
    vel: Vector<Equatorial>,
) -> (r: Vector<Equatorial>)
    requires
        ops.lawful(),
    ensures
        r == pressure_by_beta(ops, c, pos, vel),
{
    let inverse_square = arithmetic::over(ops, F64::from_bits(constants::ONE), pos.dot(ops, pos));
    find_push(ops, c, pos, vel).scale(ops, arithmetic::times(ops, c.gms, inverse_square))
}

/// The derivatives of the acceleration by the position and the velocity.
pub open spec fn pressure_jacobians<A: Arithmetic>(
    ops: &A,
    c: Constants,
    pos: Vector<Equatorial>,
    vel: Vector<Equatorial>,
    beta: F64,
) -> Jacobians<Equatorial> {
    let r = pos.length(ops);
    let r2 = arithmetic::product(ops, r, r);
    let d_hat = pos.shrunk(ops, r);
    let r_dot = d_hat.dotted(ops, vel);
    let s = arithmetic::quotient(ops, arithmetic::product(ops, c.gms, beta), r2);
    let ident = Matrix3::<Equatorial>::unit();
    let inner = d_hat.scaled(
        ops,
        arithmetic::difference(
            ops,
            F64 { bits: constants::ONE },
            arithmetic::product(ops, r_dot, c.c_inv_squared),
        ),
    ).difference(
        ops,
        vel.scaled(ops, c.c_inv_squared),
    );
    let dd_hat = ident.difference(ops, d_hat.outer(ops, d_hat)).shrunk(ops, r);
    let dr_dot = vel.difference(ops, d_hat.scaled(ops, r_dot)).shrunk(ops, r);
    let da_dr = inner.scaled(
        ops,
        arithmetic::quotient(
            ops,
            arithmetic::product(ops, (F64 { bits: constants::TWO }).negated(), s),
            r2,
        ),
    ).outer(
        ops,
        pos,
    ).sum(
        ops,
        d_hat.scaled(ops, c.c_inv_squared.negated()).outer(ops, dr_dot).sum(
            ops,
            dd_hat.scaled(
                ops,
                arithmetic::difference(
                    ops,
                    F64 { bits: constants::ONE },
                    arithmetic::product(ops, r_dot, c.c_inv_squared),
                ),
            ),
        ).scaled(
            ops,
            s,
        ),
    );
    let da_dv = d_hat.outer(ops, d_hat).sum(ops, ident).scaled(
        ops,
        arithmetic::product(ops, s.negated(), c.c_inv_squared),
    );
    Jacobians { pos: da_dr, vel: da_dv }
}

/// The derivatives of the acceleration by the position and the velocity.
fn find_pressure_jacobians<A: Arithmetic>(
    ops: &A,
    c: Constants,
    pos: Vector<Equatorial>,
    vel: Vector<Equatorial>,
    beta: F64,
) -> (r: Jacobians<Equatorial>)
    requires
        ops.lawful(),
    ensures
        r == pressure_jacobians(ops, c, pos, vel, beta),
{
    let r = pos.norm(ops);
    let r2 = arithmetic::times(ops, r, r);
    let d_hat = pos.over(ops, r);
    let r_dot = d_hat.dot(ops, vel);
    let s = arithmetic::over(ops, arithmetic::times(ops, c.gms, beta), r2);
    let ident = Matrix3::identity();
    let inner = d_hat.scale(
        ops,
        arithmetic::minus(
            ops,
            F64::from_bits(constants::ONE),
            arithmetic::times(ops, r_dot, c.c_inv_squared),
        ),
    ).minus(
        ops,
        vel.scale(ops, c.c_inv_squared),
    );
    let dd_hat = ident.minus(ops, d_hat.outer_product(ops, d_hat)).over(ops, r);
    let dr_dot = vel.minus(ops, d_hat.scale(ops, r_dot)).over(ops, r);
    let da_dr = inner.scale(
        ops,
        arithmetic::over(ops, arithmetic::times(ops, F64::from_bits(constants::TWO).neg(), s), r2),
    ).outer_product(
        ops,
        pos,
    ).plus(
        ops,
        d_hat.scale(ops, c.c_inv_squared.neg()).outer_product(ops, dr_dot).plus(
            ops,
            dd_hat.scale(
                ops,
                arithmetic::minus(
                    ops,
                    F64::from_bits(constants::ONE),
                    arithmetic::times(ops, r_dot, c.c_inv_squared),
                ),
            ),
        ).scale(
            ops,
            s,
        ),
    );
    let da_dv = d_hat.outer_product(ops, d_hat).plus(ops, ident).scale(
        ops,
        arithmetic::times(ops, s.neg(), c.c_inv_squared),
    );
    Jacobians { pos: da_dr, vel: da_dv }
}

/// Are the operations exact by which the push on a grain is found.
pub open spec fn exact_push<A: Arithmetic>(
    ops: &A,
    v: Reading,
    c: Constants,
    pos: Vector<Equatorial>,
    vel: Vector<Equatorial>,
) -> bool {
    let one = F64 { bits: constants::ONE };
    let toward = pos.unit(ops);
    let r_dot = toward.dotted(ops, vel);
    let taken = arithmetic::product(ops, r_dot, c.c_inv_squared);
    let k = arithmetic::difference(ops, one, taken);
    &&& v(one) == 1real
    &&& exact::directs(ops, v, pos)
    &&& exact::dots(ops, v, toward, vel)
    &&& orbits::multiplies(ops, v, r_dot, c.c_inv_squared)
    &&& orbits::subtracts(ops, v, one, taken)
    &&& exact::scales(ops, v, toward, k)
    &&& exact::scales(ops, v, vel, c.c_inv_squared)
    &&& exact::differs(ops, v, toward.scaled(ops, k), vel.scaled(ops, c.c_inv_squared))
    &&& orbits::divides(ops, v, one, pos.dotted(ops, pos))
}

/// Are the operations exact by which the push on a grain is scaled.
pub open spec fn exact_pressure<A: Arithmetic>(
    ops: &A,
    v: Reading,
    c: Constants,
    pos: Vector<Equatorial>,
    vel: Vector<Equatorial>,
    beta: F64,
) -> bool {
    let inverse = arithmetic::quotient(
        ops,
        F64 { bits: constants::ONE },
        pos.dotted(ops, pos),
    );
    let gm = arithmetic::product(ops, c.gms, beta);
    &&& exact_push(ops, v, c, pos, vel)
    &&& orbits::multiplies(ops, v, c.gms, beta)
    &&& orbits::multiplies(ops, v, gm, inverse)
    &&& exact::scales(ops, v, push(ops, c, pos, vel), arithmetic::product(ops, gm, inverse))
}

/// The push, not yet scaled, at the distance `r`.
proof fn lemma_push<A: Arithmetic>(
    ops: &A,
    v: Reading,
    c: Constants,
    pos: Vector<Equatorial>,
    vel: Vector<Equatorial>,
    r: real,
)
    requires
        exact_push(ops, v, c, pos, vel),
        0real <= r,
        r * r == read(v, pos).dot(read(v, pos)),
    ensures
        ({
            let (p, y, w) = (read(v, pos), read(v, vel), v(c.c_inv_squared));
            let inverse = arithmetic::quotient(
                ops,
                F64 { bits: constants::ONE },
                pos.dotted(ops, pos),
            );
            &&& conics::times(r * r, read(v, push(ops, c, pos, vel))) == exact::minus(
                conics::times(r - w * p.dot(y), p),
                conics::times(w * (r * r), y),
            )
            &&& v(inverse) * (r * r) == 1real
        }),
{
    let (p, y, w) = (read(v, pos), read(v, vel), v(c.c_inv_squared));
    let toward = pos.unit(ops);
    let n = read(v, toward);
    exact::lemma_unit(ops, v, pos);
    conics::lemma_same_square(r, v(pos.length(ops)));
    let k = arithmetic::difference(
        ops,
        F64 { bits: constants::ONE },
        arithmetic::product(ops, toward.dotted(ops, vel), c.c_inv_squared),
    );
    let rho = n.dot(y);
    assert(v(k) == 1real - rho * w);
    exact::lemma_scaled(ops, v, toward, k);
    exact::lemma_scaled(ops, v, vel, c.c_inv_squared);
    let rr = r * r;
    let (a, b) = (conics::times(v(k), n), conics::times(w, y));
    exact::lemma_times_plus(rr, a, b);
    // the part along the line
    exact::lemma_times_times(rr, v(k), n);
    exact::lemma_times_times(r * v(k), r, n);
    rounding::lemma_order(r, r, v(k));
    rounding::lemma_order(r * v(k), r, 1real);
    rounding::lemma_order(r, v(k), 1real);
    rounding::lemma_order(r, r * v(k), 1real);
    assert(conics::times(rr, a) == conics::times(r * v(k), p));
    exact::lemma_dot_times(y, r, n);
    exact::lemma_dot_order(y, n);
    exact::lemma_dot_order(y, p);
    assert(r * rho == p.dot(y));
    rounding::lemma_spread(r, 1real, -(rho * w), 0real);
    rounding::lemma_minus(r, rho * w);
    rounding::lemma_minus(r, 1real);
    rounding::lemma_order(r, rho, w);
    rounding::lemma_order(p.dot(y), w, 1real);
    // the part against the motion
    exact::lemma_times_times(rr, w, y);
    rounding::lemma_order(rr, w, 1real);
}

/// Sunlight on a grain with the ratio `beta`, at the distance `r`. At rest the push is away from
/// the Sun and `beta` times the pull of the Sun. Motion takes from it along the line to the Sun
/// and against the motion, in proportion to one over the square of the speed of light.
pub proof fn law_pressure<A: Arithmetic>(
    ops: &A,
    v: Reading,
    c: Constants,
    pos: Vector<Equatorial>,
    vel: Vector<Equatorial>,
    beta: F64,
    r: real,
)
    requires
        exact_pressure(ops, v, c, pos, vel, beta),
        0real <= r,
        r * r == read(v, pos).dot(read(v, pos)),
    ensures
        ({
            let (p, y, w) = (read(v, pos), read(v, vel), v(c.c_inv_squared));
            let a = read(v, pressure(ops, c, pos, vel, beta));
            let strength = v(c.gms) * v(beta);
            &&& conics::times((r * r) * (r * r), a) == conics::times(
                strength,
                exact::minus(
                    conics::times(r - w * p.dot(y), p),
                    conics::times(w * (r * r), y),
                ),
            )
            &&& y == exact::nothing() ==> conics::times(r * (r * r), a) == conics::times(
                strength,
                p,
            )
        }),
{
    let (p, y, w) = (read(v, pos), read(v, vel), v(c.c_inv_squared));
    let inverse = v(
        arithmetic::quotient(ops, F64 { bits: constants::ONE }, pos.dotted(ops, pos)),
    );
    lemma_push(ops, v, c, pos, vel, r);
    let u = read(v, push(ops, c, pos, vel));
    let gm = arithmetic::product(ops, c.gms, beta);
    let s = arithmetic::product(
        ops,
        gm,
        arithmetic::quotient(ops, F64 { bits: constants::ONE }, pos.dotted(ops, pos)),
    );
    exact::lemma_scaled(ops, v, push(ops, c, pos, vel), s);
    let a = read(v, pressure(ops, c, pos, vel, beta));
    let rr = r * r;
    let m = v(c.gms) * v(beta);
    exact::lemma_times_times(rr, v(s), u);
    rounding::lemma_order(rr, m, inverse);
    rounding::lemma_order(m, inverse, rr);
    rounding::lemma_order(v(s), rr, 1real);
    rounding::lemma_minus(m, 1real);
    assert(conics::times(rr, a) == conics::times(m, u));
    exact::lemma_times_times(rr, rr, a);
    exact::lemma_times_times(rr, m, u);
    exact::lemma_times_times(m, rr, u);
    rounding::lemma_order(rr, m, 1real);
    if y == exact::nothing() {
        rounding::lemma_minus(p.x, 1real);
        rounding::lemma_minus(p.y, 1real);
        rounding::lemma_minus(p.z, 1real);
        rounding::lemma_minus(w, 1real);
        rounding::lemma_minus(w * rr, 1real);
        assert(p.dot(y) == 0real);
        assert(conics::times(rr, u) == conics::times(r, p));
        exact::lemma_unit(ops, v, pos);
        conics::lemma_same_square(r, v(pos.length(ops)));
        exact::lemma_times_times(m, r, p);
        exact::lemma_times_times(r, m, p);
        rounding::lemma_order(r, m, 1real);
        let cube = r * rr;
        exact::lemma_times_times(r, cube, a);
        rounding::lemma_order(r, r, rr);
        let (b, d) = (conics::times(cube, a), conics::times(m, p));
        conics::lemma_cancel(r, b.x, d.x);
        conics::lemma_cancel(r, b.y, d.y);
        conics::lemma_cancel(r, b.z, d.z);
    }
}

/// The push is in proportion to `beta`: its derivative by `beta`, times `beta`, is the push.
pub proof fn law_pressure_is_linear<A: Arithmetic>(
    ops: &A,
    v: Reading,
    c: Constants,
    pos: Vector<Equatorial>,
    vel: Vector<Equatorial>,
    beta: F64,
)
    requires
        exact_pressure(ops, v, c, pos, vel, beta),
        ({
            let inverse = arithmetic::quotient(
                ops,
                F64 { bits: constants::ONE },
                pos.dotted(ops, pos),
            );
            &&& orbits::multiplies(ops, v, c.gms, inverse)
            &&& exact::scales(
                ops,
                v,
                push(ops, c, pos, vel),
                arithmetic::product(ops, c.gms, inverse),
            )
        }),
    ensures
        conics::times(v(beta), read(v, pressure_by_beta(ops, c, pos, vel))) == read(
            v,
            pressure(ops, c, pos, vel, beta),
        ),
{
    let inverse = arithmetic::quotient(ops, F64 { bits: constants::ONE }, pos.dotted(ops, pos));
    let gm = arithmetic::product(ops, c.gms, beta);
    let u = push(ops, c, pos, vel);
    exact::lemma_scaled(ops, v, u, arithmetic::product(ops, gm, inverse));
    exact::lemma_scaled(ops, v, u, arithmetic::product(ops, c.gms, inverse));
    let (g, b, i) = (v(c.gms), v(beta), v(inverse));
    exact::lemma_times_times(b, g * i, read(v, u));
    rounding::lemma_order(b, g, i);
    rounding::lemma_order(b, g, 1real);
}

/// Are the operations exact by which the derivatives of the push on a grain are found.
pub open spec fn exact_pressure_jacobians<A: Arithmetic>(
    ops: &A,
    v: Reading,
    c: Constants,
    pos: Vector<Equatorial>,
    vel: Vector<Equatorial>,
    beta: F64,
) -> bool {
    let (one, two) = (F64 { bits: constants::ONE }, F64 { bits: constants::TWO });
    let w = c.c_inv_squared;
    let ident = Matrix3::<Equatorial>::unit();
    let r = pos.length(ops);
    let r2 = arithmetic::product(ops, r, r);
    let n = pos.shrunk(ops, r);
    let rho = n.dotted(ops, vel);
    let gm = arithmetic::product(ops, c.gms, beta);
    let s = arithmetic::quotient(ops, gm, r2);
    let taken = arithmetic::product(ops, rho, w);
    let k = arithmetic::difference(ops, one, taken);
    let inner = n.scaled(ops, k).difference(ops, vel.scaled(ops, w));
    let nn = n.outer(ops, n);
    let flat = ident.difference(ops, nn);
    let dd = flat.shrunk(ops, r);
    let side = vel.difference(ops, n.scaled(ops, rho));
    let dr = side.shrunk(ops, r);
    let down = arithmetic::product(ops, two.negated(), s);
    let k1 = arithmetic::quotient(ops, down, r2);
    let m1 = inner.scaled(ops, k1).outer(ops, pos);
    let m2 = n.scaled(ops, w.negated()).outer(ops, dr);
    let m3 = dd.scaled(ops, k);
    let k4 = arithmetic::product(ops, s.negated(), w);
    &&& v(F64 { bits: constants::ZERO }) == 0real && v(one) == 1real
    &&& v(two.negated()) == -2real && v(w.negated()) == -v(w) && v(s.negated()) == -v(s)
    &&& exact::directs(ops, v, pos) && orbits::multiplies(ops, v, r, r)
    &&& exact::dots(ops, v, n, vel) && orbits::multiplies(ops, v, c.gms, beta)
    &&& orbits::divides(ops, v, gm, r2) && orbits::multiplies(ops, v, rho, w)
    &&& orbits::subtracts(ops, v, one, taken)
    &&& exact::scales(ops, v, n, k) && exact::scales(ops, v, vel, w)
    &&& exact::differs(ops, v, n.scaled(ops, k), vel.scaled(ops, w))
    &&& exact::outers(ops, v, n, n) && exact::takes_off(ops, v, ident, nn)
    &&& exact::fades(ops, v, flat, r)
    &&& exact::scales(ops, v, n, rho) && exact::differs(ops, v, vel, n.scaled(ops, rho))
    &&& exact::shrinks(ops, v, side, r)
    &&& orbits::multiplies(ops, v, two.negated(), s) && orbits::divides(ops, v, down, r2)
    &&& exact::scales(ops, v, inner, k1) && exact::outers(ops, v, inner.scaled(ops, k1), pos)
    &&& exact::scales(ops, v, n, w.negated())
    &&& exact::outers(ops, v, n.scaled(ops, w.negated()), dr)
    &&& exact::grows(ops, v, dd, k) && exact::adds_up(ops, v, m2, m3)
    &&& exact::grows(ops, v, m2.sum(ops, m3), s)
    &&& exact::adds_up(ops, v, m1, m2.sum(ops, m3).scaled(ops, s))
    &&& exact::adds_up(ops, v, nn, ident) && orbits::multiplies(ops, v, s.negated(), w)
    &&& exact::grows(ops, v, nn.sum(ops, ident), k4)
}

/// How the push on a grain changes. With the velocity it changes against the change, twice as much
/// along the line to the Sun as across. Along the line the push falls off like twice itself, and
/// across it turns. `r` is the distance.
pub proof fn law_pressure_derivatives<A: Arithmetic>(
    ops: &A,
    v: Reading,
    c: Constants,
    pos: Vector<Equatorial>,
    vel: Vector<Equatorial>,
    beta: F64,
    r: real,
    x: Triple,
)
    requires
        exact_pressure_jacobians(ops, v, c, pos, vel, beta),
        0real <= r,
        r * r == read(v, pos).dot(read(v, pos)),
    ensures
        ({
            let (p, y, w) = (read(v, pos), read(v, vel), v(c.c_inv_squared));
            let strength = v(c.gms) * v(beta);
            let j = pressure_jacobians(ops, c, pos, vel, beta);
            let by_vel = exact::mapped(v, j.vel, x);
            let by_pos = exact::mapped(v, j.pos, x);
            let r4 = (r * r) * (r * r);
            let push = exact::minus(
                conics::times(r - w * p.dot(y), p),
                conics::times(w * (r * r), y),
            );
            &&& conics::times(r4, by_vel) == conics::times(
                -(strength * w),
                exact::plus(conics::times(p.dot(x), p), conics::times(r * r, x)),
            )
            &&& x == p ==> conics::times(r4, by_pos) == conics::times(-2real * strength, push)
            &&& p.dot(x) == 0real ==> conics::times(r4, by_pos) == conics::times(
                strength,
                exact::minus(
                    conics::times(r - w * p.dot(y), x),
                    conics::times(w * y.dot(x), p),
                ),
            )
        }),
{
    let (p, y, w) = (read(v, pos), read(v, vel), v(c.c_inv_squared));
    let strength = v(c.gms) * v(beta);
    let (one, two) = (F64 { bits: constants::ONE }, F64 { bits: constants::TWO });
    let wf = c.c_inv_squared;
    let ident = Matrix3::<Equatorial>::unit();
    let rf = pos.length(ops);
    let r2 = arithmetic::product(ops, rf, rf);
    let nf = pos.shrunk(ops, rf);
    let rho_f = nf.dotted(ops, vel);
    let gm = arithmetic::product(ops, c.gms, beta);
    let sf = arithmetic::quotient(ops, gm, r2);
    let taken = arithmetic::product(ops, rho_f, wf);
    let kf = arithmetic::difference(ops, one, taken);
    let inner_f = nf.scaled(ops, kf).difference(ops, vel.scaled(ops, wf));
    let nn = nf.outer(ops, nf);
    let flat = ident.difference(ops, nn);
    let dd = flat.shrunk(ops, rf);
    let side = vel.difference(ops, nf.scaled(ops, rho_f));
    let dr = side.shrunk(ops, rf);
    let down = arithmetic::product(ops, two.negated(), sf);
    let k1 = arithmetic::quotient(ops, down, r2);
    let m1 = inner_f.scaled(ops, k1).outer(ops, pos);
    let m2 = nf.scaled(ops, wf.negated()).outer(ops, dr);
    let m3 = dd.scaled(ops, kf);
    let k4 = arithmetic::product(ops, sf.negated(), wf);
    exact::lemma_unit(ops, v, pos);
    conics::lemma_same_square(r, v(rf));
    let n = read(v, nf);
    let (rho, s, k) = (n.dot(y), v(sf), v(kf));
    let rr = r * r;
    let r4 = rr * rr;
    conics::lemma_positive(r, r);
    // the direction
    assert(conics::times(r, n) == p);
    exact::lemma_dot_times(x, r, n);
    exact::lemma_dot_times(y, r, n);
    exact::lemma_dot_order(x, n);
    exact::lemma_dot_order(y, n);
    exact::lemma_dot_order(x, p);
    exact::lemma_dot_order(y, p);
    let (nx, px, py) = (n.dot(x), p.dot(x), p.dot(y));
    assert(r * nx == px);
    assert(r * rho == py);
    rounding::lemma_order(s, rr, 1real);
    assert(rr * s == strength);
    // the distance times the factor along the line
    rounding::lemma_spread(r, 1real, -(rho * w), 0real);
    rounding::lemma_minus(r, rho * w);
    rounding::lemma_minus(r, 1real);
    rounding::lemma_order(r, rho, w);
    rounding::lemma_order(py, w, 1real);
    assert(r * k == r - w * py);
    // by the velocity
    let unit_x = exact::mapped(v, ident, x);
    exact::lemma_mapped_diagonal::<Equatorial>(v, one, one, one, x);
    exact::lemma_times_one(x);
    assert(unit_x == x);
    exact::lemma_mapped_outer(ops, v, nf, nf, x);
    exact::lemma_mapped_sum(ops, v, nn, ident, x);
    exact::lemma_mapped_scaled(ops, v, nn.sum(ops, ident), k4, x);
    let both = exact::plus(conics::times(nx, n), x);
    let by_vel = exact::mapped(v, pressure_jacobians(ops, c, pos, vel, beta).vel, x);
    assert(by_vel == conics::times(v(k4), both));
    exact::lemma_times_times(rr, v(k4), both);
    rounding::lemma_minus(w, s);
    rounding::lemma_order(w, s, 1real);
    rounding::lemma_order(w, -s, 1real);
    assert(v(k4) == -(s * w));
    rounding::lemma_minus(rr, s * w);
    rounding::lemma_order(rr, s, w);
    assert(rr * v(k4) == -(strength * w));
    exact::lemma_times_times(rr, rr, by_vel);
    let q = -(strength * w);
    exact::lemma_times_times(rr, q, both);
    exact::lemma_times_times(q, rr, both);
    rounding::lemma_order(rr, q, 1real);
    exact::lemma_times_plus(rr, conics::times(nx, n), x);
    exact::lemma_times_times(rr, nx, n);
    exact::lemma_times_times(px, r, n);
    rounding::lemma_order(r, r, nx);
    rounding::lemma_order(px, r, 1real);
    rounding::lemma_order(rr, nx, 1real);
    rounding::lemma_order(r, px, 1real);
    assert(conics::times(rr, conics::times(nx, n)) == conics::times(px, p));
    // by the position
    exact::lemma_scaled(ops, v, nf, kf);
    exact::lemma_scaled(ops, v, vel, wf);
    let inner = exact::minus(conics::times(k, n), conics::times(w, y));
    assert(read(v, inner_f) == inner);
    exact::lemma_scaled(ops, v, inner_f, k1);
    exact::lemma_mapped_outer(ops, v, inner_f.scaled(ops, k1), pos, x);
    exact::lemma_scaled(ops, v, nf, wf.negated());
    exact::lemma_mapped_outer(ops, v, nf.scaled(ops, wf.negated()), dr, x);
    exact::lemma_mapped_difference(ops, v, ident, nn, x);
    exact::lemma_mapped_shrunk(ops, v, flat, rf, x);
    exact::lemma_mapped_scaled(ops, v, dd, kf, x);
    exact::lemma_mapped_sum(ops, v, m2, m3, x);
    exact::lemma_mapped_scaled(ops, v, m2.sum(ops, m3), sf, x);
    exact::lemma_mapped_sum(ops, v, m1, m2.sum(ops, m3).scaled(ops, sf), x);
    let by_pos = exact::mapped(v, pressure_jacobians(ops, c, pos, vel, beta).pos, x);
    let ddx = exact::mapped(v, dd, x);
    let drx = read(v, dr).dot(x);
    let j1 = v(k1);
    let u1 = conics::times(px, conics::times(j1, inner));
    let u2 = conics::times(drx, conics::times(-w, n));
    let u3 = conics::times(k, ddx);
    assert(by_pos == exact::plus(u1, conics::times(s, exact::plus(u2, u3))));
    // the distance times the change of the direction and of the radial speed
    assert(conics::times(r, ddx) == exact::minus(x, conics::times(nx, n)));
    exact::lemma_scaled(ops, v, nf, rho_f);
    exact::lemma_shrunk(ops, v, side, rf);
    let sd = exact::minus(y, conics::times(rho, n));
    assert(conics::times(r, read(v, dr)) == sd);
    exact::lemma_dot_times(x, r, read(v, dr));
    exact::lemma_dot_order(x, read(v, dr));
    exact::lemma_dot_plus(x, y, conics::times(rho, n));
    exact::lemma_dot_times(x, rho, n);
    exact::lemma_dot_order(x, y);
    assert(r * drx == y.dot(x) - rho * nx);
    assert(rr * j1 == -2real * s) by {
        rounding::lemma_order(j1, rr, 1real);
    }
    exact::lemma_times_plus(rr, u1, conics::times(s, exact::plus(u2, u3)));
    exact::lemma_times_times(rr, s, exact::plus(u2, u3));
    exact::lemma_times_times(rr, rr, by_pos);
    if x == p {
        assert(px == rr);
        rounding::lemma_order(r, r, 1real);
        conics::lemma_cancel(r, nx, r);
        assert(conics::times(nx, n) == p);
        lemma_nothing_left(r, ddx, p);
        rounding::lemma_order(rho, r, 1real);
        assert(r * drx == 0real);
        rounding::lemma_minus(r, 1real);
        conics::lemma_cancel(r, drx, 0real);
        exact::lemma_times_one(conics::times(-w, n));
        rounding::lemma_minus(k, 1real);
        rounding::lemma_minus(s, 1real);
        assert(conics::times(s, exact::plus(u2, u3)) == exact::nothing());
        exact::lemma_times_times(rr, j1, inner);
        let push = exact::minus(conics::times(r - w * py, p), conics::times(w * rr, y));
        // the push, times the square of the distance
        exact::lemma_times_plus(rr, conics::times(k, n), conics::times(w, y));
        exact::lemma_times_times(rr, k, n);
        exact::lemma_times_times(r * k, r, n);
        rounding::lemma_order(r, r, k);
        rounding::lemma_order(r * k, r, 1real);
        rounding::lemma_order(r, r * k, 1real);
        exact::lemma_times_times(rr, w, y);
        rounding::lemma_order(rr, w, 1real);
        assert(conics::times(rr, inner) == push);
        assert(by_pos == conics::times(-2real * s, inner));
        exact::lemma_times_times(rr, -2real * s, inner);
        exact::lemma_times_times(-2real * s, rr, inner);
        rounding::lemma_order(rr, -2real * s, 1real);
        assert(conics::times(rr, by_pos) == conics::times(-2real * s, push));
        exact::lemma_times_times(rr, -2real * s, push);
        rounding::lemma_order(rr, -2real, s);
        rounding::lemma_order(-2real, rr, s);
        rounding::lemma_order(rr, -2real, 1real);
    }
    if px == 0real {
        rounding::lemma_minus(r, 1real);
        conics::lemma_cancel(r, nx, 0real);
        exact::lemma_times_one(conics::times(j1, inner));
        exact::lemma_times_one(n);
        assert(conics::times(r, ddx) == x);
        rounding::lemma_minus(rho, 1real);
        let yx = y.dot(x);
        assert(r * drx == yx);
        // the square of the distance times both parts
        exact::lemma_times_plus(rr, u2, u3);
        exact::lemma_times_times(drx, -w, n);
        exact::lemma_times_times(rr, drx * -w, n);
        exact::lemma_times_times(yx * -w, r, n);
        rounding::lemma_order(r, r, drx * -w);
        rounding::lemma_order(r, drx, -w);
        rounding::lemma_order(r, yx * -w, 1real);
        rounding::lemma_order(yx, -w, 1real);
        rounding::lemma_minus(yx, w);
        rounding::lemma_order(yx, w, 1real);
        assert(conics::times(rr, u2) == conics::times(-(w * yx), p));
        exact::lemma_times_times(rr, k, ddx);
        exact::lemma_times_times(r * k, r, ddx);
        rounding::lemma_order(r, r, k);
        rounding::lemma_order(r * k, r, 1real);
        rounding::lemma_order(r, r * k, 1real);
        assert(conics::times(rr, u3) == conics::times(r - w * py, x));
        let turned = exact::minus(
            conics::times(r - w * py, x),
            conics::times(w * yx, p),
        );
        rounding::lemma_minus(p.x, w * yx);
        rounding::lemma_minus(p.y, w * yx);
        rounding::lemma_minus(p.z, w * yx);
        rounding::lemma_order(p.x, w * yx, 1real);
        rounding::lemma_order(p.y, w * yx, 1real);
        rounding::lemma_order(p.z, w * yx, 1real);
        rounding::lemma_order(p.x, -(w * yx), 1real);
        rounding::lemma_order(p.y, -(w * yx), 1real);
        rounding::lemma_order(p.z, -(w * yx), 1real);
        assert(conics::times(rr, exact::plus(u2, u3)) == turned);
        rounding::lemma_minus(rr, 1real);
        assert(conics::times(rr, by_pos) == conics::times(strength, exact::plus(u2, u3)));
        exact::lemma_times_times(rr, strength, exact::plus(u2, u3));
        exact::lemma_times_times(strength, rr, exact::plus(u2, u3));
        rounding::lemma_order(rr, strength, 1real);
    }
}

/// A vector of which a multiple is a vector less itself is nothing.
proof fn lemma_nothing_left(r: real, a: Triple, p: Triple)
    requires
        0real < r,
        conics::times(r, a) == exact::minus(p, p),
    ensures
        a == exact::nothing(),
{
    rounding::lemma_minus(r, 1real);
    exact::lemma_cancel_times(r, a, exact::nothing());
}

impl ParameterizedForce for DustNonGrav {
    type Frame = Equatorial;

    type Center = SunCenter;

    open spec fn well_formed(&self) -> bool {
        true
    }

    open spec fn n_params(&self) -> nat {
        1
    }

    open spec fn names(&self) -> Seq<Seq<char>> {
        seq!["beta"@]
    }

    open spec fn bounds(&self) -> Seq<Option<F64>> {
        seq![Some(F64 { bits: 0 })]
    }

    open spec fn accepts(&self, n: nat) -> bool {
        n >= 1
    }

    fn n_free_params(&self) -> usize {
        1
    }

    fn free_param_names(&self) -> Vec<&'static str> {
        let names = vec!["beta"];
        assert(traits::texts(names@) =~= self.names());
        names
    }

    fn lower_bounds(&self) -> Vec<Option<F64>> {
        let bounds = vec![Some(F64::zero())];
        assert(bounds@ =~= self.bounds());
        bounds
    }
}

impl<A: Physics> Evaluate<A> for DustNonGrav {
    open spec fn accel_value(
        &self,
        ops: &A,
        time: Time,
        pos: Vector<Equatorial>,
        vel: Vector<Equatorial>,
        free_params: Seq<F64>,
    ) -> KeteResult<Vector<Equatorial>> {
        Ok(pressure(ops, ops.values(), pos, vel, free_params[0]))
    }

    fn accel(
        &self,
        ops: &A,
        time: Time,
        pos: Vector<Equatorial>,
        vel: Vector<Equatorial>,
        free_params: &[F64],
    ) -> KeteResult<Vector<Equatorial>> {
        Ok(find_pressure(ops, ops.constants(), pos, vel, free_params[0]))
    }
}

impl<A: Physics> AnalyticForce<A> for DustNonGrav {
    open spec fn jacobians_value(
        &self,
        ops: &A,
        time: Time,
        pos: Vector<Equatorial>,
        vel: Vector<Equatorial>,
        free_params: Seq<F64>,
    ) -> KeteResult<Jacobians<Equatorial>> {
        Ok(pressure_jacobians(ops, ops.values(), pos, vel, free_params[0]))
    }

    open spec fn parameter_jacobian_value(
        &self,
        ops: &A,
        time: Time,
        pos: Vector<Equatorial>,
        vel: Vector<Equatorial>,
        free_params: Seq<F64>,
    ) -> KeteResult<Seq<Vector<Equatorial>>> {
        Ok(seq![pressure_by_beta(ops, ops.values(), pos, vel)])
    }

    proof fn lemma_columns(
        &self,
        ops: &A,
        time: Time,
        pos: Vector<Equatorial>,
        vel: Vector<Equatorial>,
        free_params: Seq<F64>,
    ) {
    }

    fn jacobians(
        &self,
        ops: &A,
        time: Time,
        pos: Vector<Equatorial>,
        vel: Vector<Equatorial>,
        free_params: &[F64],
    ) -> KeteResult<Jacobians<Equatorial>> {
        Ok(find_pressure_jacobians(ops, ops.constants(), pos, vel, free_params[0]))
    }

    fn parameter_jacobian(
        &self,
        ops: &A,
        time: Time,
        pos: Vector<Equatorial>,
        vel: Vector<Equatorial>,
        free_params: &[F64],
    ) -> KeteResult<Vec<Vector<Equatorial>>> {
        let columns = vec![find_pressure_by_beta(ops, ops.constants(), pos, vel)];
        assert(columns@ =~= seq![pressure_by_beta(ops, ops.values(), pos, vel)]);
        Ok(columns)
    }
}

} // verus!
