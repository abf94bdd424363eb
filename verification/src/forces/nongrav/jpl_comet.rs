//! The push of the gas that leaves a comet.
use crate::arithmetic;
use crate::arithmetic::{Arithmetic, Binary};
use crate::conics;
use crate::constants;
use crate::errors::{KeteResult};
use crate::exact;
use crate::float::F64;
use crate::forces::differences;
use crate::forces::traits;
use crate::forces::traits::{AnalyticForce, Evaluate, Jacobians, ParameterizedForce};
use crate::frames::{Equatorial, SunCenter, Vector};
use crate::orbits;
use crate::physics::{Motion, Physics};
use crate::rounding;
use crate::rounding::{read, Reading, Triple};
use crate::time::Time;
use vstd::prelude::*;

verus! {

/// The push of gas along the radial, the transverse and the normal direction, with the
/// strengths `a1`, `a2` and `a3` free. How it falls off with the distance `r` is
/// `alpha * (r / r_0)^-m * (1 + (r / r_0)^n)^-k`.
#[derive(Debug, Clone, Copy)]
pub struct JplCometNonGrav {
    /// The factor of the fall off.
    pub alpha: F64,
    /// The distance it is relative to, in AU.
    pub r_0: F64,
    /// An exponent of the fall off.
    pub m: F64,
    /// An exponent of the fall off.
    pub n: F64,
    /// An exponent of the fall off.
    pub k: F64,
    /// By how many days the gas lags behind: the distance is that of so long before.
    pub dt: F64,
}

/// The usual factor of the fall off.
pub const STANDARD_ALPHA: u64 = 0x3fbc_7bab_5240_cf04;

/// The usual distance the fall off is relative to.
pub const STANDARD_R_0: u64 = 0x4006_76c8_b439_5810;

/// The usual first exponent.
pub const STANDARD_M: u64 = 0x4001_3333_3333_3333;

/// The usual second exponent.
pub const STANDARD_N: u64 = 0x4014_5f3b_645a_1cac;

/// The usual third exponent.
pub const STANDARD_K: u64 = 0x4012_74f0_d844_d014;

impl JplCometNonGrav {
    /// The force with the given fall off and lag.
    pub fn new(alpha: F64, r_0: F64, m: F64, n: F64, k: F64, dt: F64) -> (f: Self)
        ensures
            f == (JplCometNonGrav { alpha, r_0, m, n, k, dt }),
    {
        JplCometNonGrav { alpha, r_0, m, n, k, dt }
    }

    /// The fall off of water ice, without a lag.
    pub fn standard_comet() -> (f: Self)
        ensures
            f == (JplCometNonGrav {
                alpha: F64 { bits: STANDARD_ALPHA },
                r_0: F64 { bits: STANDARD_R_0 },
                m: F64 { bits: STANDARD_M },
                n: F64 { bits: STANDARD_N },
                k: F64 { bits: STANDARD_K },
                dt: F64 { bits: 0 },
            }),
    {
        JplCometNonGrav {
            alpha: F64::from_bits(STANDARD_ALPHA),
            r_0: F64::from_bits(STANDARD_R_0),
            m: F64::from_bits(STANDARD_M),
            n: F64::from_bits(STANDARD_N),
            k: F64::from_bits(STANDARD_K),
            dt: F64::zero(),
        }
    }

    /// How strong the push is at a position.
    pub open spec fn strength<A: Arithmetic>(&self, ops: &A, pos: Vector<Equatorial>) -> F64 {
        let x = arithmetic::quotient(ops, pos.length(ops), self.r_0);
        arithmetic::product(
            ops,
            arithmetic::product(ops, self.alpha, ops.two(Binary::Power, x, self.m.negated())),
            ops.two(
                Binary::Power,
                arithmetic::sum(
                    ops,
                    F64 { bits: constants::ONE },
                    ops.two(Binary::Power, x, self.n),
                ),
                self.k.negated(),
            ),
        )
    }

    /// How strong the push is at a position.
    fn find_strength<A: Arithmetic>(&self, ops: &A, pos: Vector<Equatorial>) -> (r: F64)
        requires
            ops.lawful(),
        ensures
            r == self.strength(ops, pos),
    {
        let x = arithmetic::over(ops, pos.norm(ops), self.r_0);
        arithmetic::times(
            ops,
            arithmetic::times(ops, self.alpha, ops.binary(Binary::Power, x, self.m.neg())),
            ops.binary(
                Binary::Power,
                arithmetic::plus(
                    ops,
                    F64::from_bits(constants::ONE),
                    ops.binary(Binary::Power, x, self.n),
                ),
                self.k.neg(),
            ),
        )
    }

    /// The acceleration by the push of the given strength.
    pub open spec fn pushed<A: Arithmetic>(
        ops: &A,
        pos: Vector<Equatorial>,
        vel: Vector<Equatorial>,
        strength: F64,
        a1: F64,
        a2: F64,
        a3: F64,
    ) -> Vector<Equatorial> {
        let radial = pos.unit(ops);
        let transverse = vel.difference(ops, radial.scaled(ops, vel.dotted(ops, radial))).unit(ops);
        let normal = radial.crossed(ops, transverse);
        radial.scaled(ops, arithmetic::product(ops, strength, a1)).sum(
            ops,
            transverse.scaled(ops, arithmetic::product(ops, strength, a2)),
        ).sum(
            ops,
            normal.scaled(ops, arithmetic::product(ops, strength, a3)),
        )
    }

    /// The acceleration by the push of the given strength.
    fn find_pushed<A: Arithmetic>(
        ops: &A,
        pos: Vector<Equatorial>,
        vel: Vector<Equatorial>,
        strength: F64,
        a1: F64,
        a2: F64,
        a3: F64,
    ) -> (r: Vector<Equatorial>)
        requires
            ops.lawful(),
        ensures
            r == Self::pushed(ops, pos, vel, strength, a1, a2, a3),
    {
        let radial = pos.normalize(ops);
        let transverse = vel.minus(ops, radial.scale(ops, vel.dot(ops, radial))).normalize(ops);
        let normal = radial.cross(ops, transverse);
        radial.scale(ops, arithmetic::times(ops, strength, a1)).plus(
            ops,
            transverse.scale(ops, arithmetic::times(ops, strength, a2)),
        ).plus(
            ops,
            normal.scale(ops, arithmetic::times(ops, strength, a3)),
        )
    }
}

impl ParameterizedForce for JplCometNonGrav {
    type Frame = Equatorial;

    type Center = SunCenter;

    open spec fn well_formed(&self) -> bool {
        true
    }

    open spec fn n_params(&self) -> nat {
        3
    }

    open spec fn names(&self) -> Seq<Seq<char>> {
        seq!["a1"@, "a2"@, "a3"@]
    }

    open spec fn bounds(&self) -> Seq<Option<F64>> {
        traits::unbounded(3)
    }

    open spec fn accepts(&self, n: nat) -> bool {
        n >= 3
    }

    fn n_free_params(&self) -> usize {
        3
    }

    fn free_param_names(&self) -> Vec<&'static str> {
        let names = vec!["a1", "a2", "a3"];
        assert(traits::texts(names@) =~= self.names());
        names
    }

    fn lower_bounds(&self) -> Vec<Option<F64>> {
        traits::no_bounds(3)
    }
}

impl<A: Physics> Evaluate<A> for JplCometNonGrav {
    open spec fn accel_value(
        &self,
        ops: &A,
        time: Time,
        pos: Vector<Equatorial>,
        vel: Vector<Equatorial>,
        free_params: Seq<F64>,
    ) -> KeteResult<Vector<Equatorial>> {
        let a = free_params;
        if self.dt.same(F64 { bits: 0 }) {
            Ok(Self::pushed(ops, pos, vel, self.strength(ops, pos), a[0], a[1], a[2]))
        } else {
            match ops.two_body(self.dt.negated(), Motion { pos, vel }) {
                Err(e) => Err(e),
                Ok(before) => Ok(
                    Self::pushed(ops, pos, vel, self.strength(ops, before.pos), a[0], a[1], a[2]),
                ),
            }
        }
    }

    fn accel(
        &self,
        ops: &A,
        time: Time,
        pos: Vector<Equatorial>,
        vel: Vector<Equatorial>,
        free_params: &[F64],
    ) -> KeteResult<Vector<Equatorial>> {
        let a = free_params;
        let place = if self.dt.equals(F64::zero()) {
            pos
        } else {
            match ops.analytic_2_body(self.dt.neg(), Motion { pos, vel }) {
                Err(e) => {
                    return Err(e);
                },
                Ok(before) => before.pos,
            }
        };
        let strength = self.find_strength(ops, place);
        Ok(Self::find_pushed(ops, pos, vel, strength, a[0], a[1], a[2]))
    }
}

impl<A: Physics> AnalyticForce<A> for JplCometNonGrav {
    open spec fn jacobians_value(
        &self,
        ops: &A,
        time: Time,
        pos: Vector<Equatorial>,
        vel: Vector<Equatorial>,
        free_params: Seq<F64>,
    ) -> KeteResult<Jacobians<Equatorial>> {
        differences::jacobians(self, ops, time, pos, vel, free_params)
    }

    open spec fn parameter_jacobian_value(
        &self,
        ops: &A,
        time: Time,
        pos: Vector<Equatorial>,
        vel: Vector<Equatorial>,
        free_params: Seq<F64>,
    ) -> KeteResult<Seq<Vector<Equatorial>>> {
        differences::parameter_slopes(self, ops, time, pos, vel, free_params, 3)
    }

    proof fn lemma_columns(
        &self,
        ops: &A,
        time: Time,
        pos: Vector<Equatorial>,
        vel: Vector<Equatorial>,
        free_params: Seq<F64>,
    ) {
        differences::lemma_parameter_slopes(self, ops, time, pos, vel, free_params, 3);
    }

    fn jacobians(
        &self,
        ops: &A,
        time: Time,
        pos: Vector<Equatorial>,
        vel: Vector<Equatorial>,
        free_params: &[F64],
    ) -> KeteResult<Jacobians<Equatorial>> {
        differences::find_jacobians(self, ops, time, pos, vel, free_params)
    }

    fn parameter_jacobian(
        &self,
        ops: &A,
        time: Time,
        pos: Vector<Equatorial>,
        vel: Vector<Equatorial>,
        free_params: &[F64],
    ) -> KeteResult<Vec<Vector<Equatorial>>> {
        differences::find_parameter_slopes(self, ops, time, pos, vel, free_params, 3)
    }
}

/// Are the operations exact by which the push of gas is found, and does the velocity not point along
/// the position.
pub open spec fn exact_push<A: Arithmetic>(
    ops: &A,
    v: Reading,
    pos: Vector<Equatorial>,
    vel: Vector<Equatorial>,
    strength: F64,
    a1: F64,
    a2: F64,
    a3: F64,
) -> bool {
    let radial = pos.unit(ops);
    let along = radial.scaled(ops, vel.dotted(ops, radial));
    let aside = vel.difference(ops, along);
    let transverse = aside.unit(ops);
    let normal = radial.crossed(ops, transverse);
    let (s1, s2, s3) = (
        arithmetic::product(ops, strength, a1),
        arithmetic::product(ops, strength, a2),
        arithmetic::product(ops, strength, a3),
    );
    let (x, y, z) = (
        radial.scaled(ops, s1),
        transverse.scaled(ops, s2),
        normal.scaled(ops, s3),
    );
    &&& exact::directs(ops, v, pos)
    &&& exact::dots(ops, v, vel, radial)
    &&& exact::scales(ops, v, radial, vel.dotted(ops, radial))
    &&& exact::differs(ops, v, vel, along)
    &&& exact::directs(ops, v, aside)
    &&& exact::crosses(ops, v, radial, transverse)
    &&& orbits::multiplies(ops, v, strength, a1)
    &&& orbits::multiplies(ops, v, strength, a2)
    &&& orbits::multiplies(ops, v, strength, a3)
    &&& exact::scales(ops, v, radial, s1)
    &&& exact::scales(ops, v, transverse, s2)
    &&& exact::scales(ops, v, normal, s3)
    &&& exact::sums(ops, v, x, y)
    &&& exact::sums(ops, v, x.sum(ops, y), z)
}

/// The push of gas is away from the Sun with the strength `a1`, along the motion across that with
/// the strength `a2`, and towards the pole of the orbit with the strength `a3`. The distance is
/// `r`, and `m` is the size of the angular momentum.
pub proof fn law_push_directions<A: Arithmetic>(
    ops: &A,
    v: Reading,
    pos: Vector<Equatorial>,
    vel: Vector<Equatorial>,
    strength: F64,
    a1: F64,
    a2: F64,
    a3: F64,
    r: real,
    m: real,
)
    requires
        exact_push(ops, v, pos, vel, strength, a1, a2, a3),
        0real <= r,
        r * r == read(v, pos).dot(read(v, pos)),
        0real <= m,
        m * m == conics::cross(read(v, pos), read(v, vel)).dot(
            conics::cross(read(v, pos), read(v, vel)),
        ),
    ensures
        ({
            let (p, w) = (read(v, pos), read(v, vel));
            let a = read(v, JplCometNonGrav::pushed(ops, pos, vel, strength, a1, a2, a3));
            let s = v(strength);
            &&& 0real < r && 0real < m
            &&& a.dot(p) == (s * v(a1)) * r
            &&& r * a.dot(w) == (s * v(a1)) * p.dot(w) + (s * v(a2)) * m
            &&& a.dot(conics::cross(p, w)) == (s * v(a3)) * m
        }),
{
    let radial = pos.unit(ops);
    let along = radial.scaled(ops, vel.dotted(ops, radial));
    let aside = vel.difference(ops, along);
    let transverse = aside.unit(ops);
    let normal = radial.crossed(ops, transverse);
    let (p, w) = (read(v, pos), read(v, vel));
    let (u, t, n) = (read(v, radial), read(v, transverse), read(v, normal));
    let (s1, s2, s3) = (
        v(strength) * v(a1),
        v(strength) * v(a2),
        v(strength) * v(a3),
    );
    let a = read(v, JplCometNonGrav::pushed(ops, pos, vel, strength, a1, a2, a3));
    exact::lemma_unit(ops, v, pos);
    conics::lemma_same_square(v(pos.length(ops)), r);
    let c = w.dot(u);
    exact::lemma_scaled(ops, v, radial, vel.dotted(ops, radial));
    exact::lemma_unit(ops, v, aside);
    let d = v(aside.length(ops));
    let q = read(v, aside);
    assert(q == exact::minus(w, conics::times(c, u)));
    // the transverse direction is at right angles to the radial one
    exact::lemma_dot_plus(u, w, conics::times(c, u));
    exact::lemma_dot_times(u, c, u);
    exact::lemma_dot_order(u, w);
    rounding::lemma_minus(c, 1real);
    exact::lemma_dot_times(u, d, t);
    rounding::lemma_minus(d, 1real);
    conics::lemma_cancel(d, u.dot(t), 0real);
    exact::lemma_dot_order(u, t);
    // the normal direction
    assert(n == conics::cross(u, t));
    exact::lemma_cross_across(u, t);
    exact::lemma_lagrange(u, t);
    rounding::lemma_minus(1real, 1real);
    rounding::lemma_minus(0real, 1real);
    assert(n.dot(n) == 1real);
    // the acceleration
    exact::lemma_scaled(ops, v, radial, arithmetic::product(ops, strength, a1));
    exact::lemma_scaled(ops, v, transverse, arithmetic::product(ops, strength, a2));
    exact::lemma_scaled(ops, v, normal, arithmetic::product(ops, strength, a3));
    let (x, y, z) = (conics::times(s1, u), conics::times(s2, t), conics::times(s3, n));
    assert(a == exact::plus(exact::plus(x, y), z));
    let parts = Triple { x: s1, y: s2, z: s3 };
    exact::lemma_parts(u, u, t, n, parts);
    exact::lemma_parts(t, u, t, n, parts);
    exact::lemma_parts(n, u, t, n, parts);
    exact::lemma_dot_order(u, n);
    exact::lemma_dot_order(t, n);
    exact::lemma_dot_order(u, a);
    exact::lemma_dot_order(t, a);
    exact::lemma_dot_order(n, a);
    rounding::lemma_minus(s1, 1real);
    rounding::lemma_minus(s2, 1real);
    rounding::lemma_minus(s3, 1real);
    assert(a.dot(u) == s1 && a.dot(t) == s2 && a.dot(n) == s3);
    // along the position
    exact::lemma_dot_times(a, r, u);
    rounding::lemma_order(r, s1, 1real);
    // along the velocity
    assert(w == exact::plus(conics::times(d, t), conics::times(c, u)));
    exact::lemma_dot_plus(a, conics::times(d, t), conics::times(c, u));
    exact::lemma_dot_times(a, d, t);
    exact::lemma_dot_times(a, c, u);
    rounding::lemma_spread(r, d * s2, c * s1, 0real);
    rounding::lemma_minus(r, 1real);
    rounding::lemma_order(r, d, s2);
    rounding::lemma_order(r, c, s1);
    exact::lemma_dot_times(w, r, u);
    exact::lemma_dot_order(p, w);
    rounding::lemma_order(s1, p.dot(w), 1real);
    rounding::lemma_order(s2, r * d, 1real);
    assert(r * c == p.dot(w));
    // the pole of the orbit
    exact::lemma_cross_plus(p, conics::times(d, t), conics::times(c, u));
    exact::lemma_cross_times(r, u, d, t);
    exact::lemma_cross_times(r, u, c, u);
    exact::lemma_cross_self(u);
    rounding::lemma_minus(r * c, 1real);
    assert(conics::cross(p, w) == conics::times(r * d, n));
    exact::lemma_dot_times(conics::times(r * d, n), r * d, n);
    exact::lemma_dot_times(n, r * d, n);
    rounding::lemma_minus(r * d, 1real);
    conics::lemma_positive(r, d);
    conics::lemma_same_square(m, r * d);
    exact::lemma_dot_times(a, r * d, n);
    rounding::lemma_order(r * d, s3, 1real);
}

/// Are the operations exact by which the strength of the push at a position is found: a power
/// with a negated exponent is one over the power.
pub open spec fn exact_strength<A: Arithmetic>(
    ops: &A,
    v: Reading,
    f: JplCometNonGrav,
    pos: Vector<Equatorial>,
) -> bool {
    let one = F64 { bits: constants::ONE };
    let x = arithmetic::quotient(ops, pos.length(ops), f.r_0);
    let base = arithmetic::sum(ops, one, ops.two(Binary::Power, x, f.n));
    let (a, b) = (
        ops.two(Binary::Power, x, f.m.negated()),
        ops.two(Binary::Power, base, f.k.negated()),
    );
    &&& v(one) == 1real
    &&& exact::measures(ops, v, pos)
    &&& orbits::divides(ops, v, pos.length(ops), f.r_0)
    &&& orbits::adds(ops, v, one, ops.two(Binary::Power, x, f.n))
    &&& v(a) * v(ops.two(Binary::Power, x, f.m)) == 1real
    &&& v(b) * v(ops.two(Binary::Power, base, f.k)) == 1real
    &&& orbits::multiplies(ops, v, f.alpha, a)
    &&& orbits::multiplies(ops, v, arithmetic::product(ops, f.alpha, a), b)
}

/// The push falls off with the distance `r`: in units `x` of the distance `r_0`, the strength times
/// `x` to the power `m`, times `1 + x^n` to the power `k`, is the constant `alpha`.
pub proof fn law_strength<A: Arithmetic>(
    ops: &A,
    v: Reading,
    f: JplCometNonGrav,
    pos: Vector<Equatorial>,
    r: real,
) -> (xb: (F64, F64))
    requires
        exact_strength(ops, v, f, pos),
        0real <= r,
        r * r == read(v, pos).dot(read(v, pos)),
    ensures
        v(xb.0) * v(f.r_0) == r,
        v(xb.1) == 1real + v(ops.two(Binary::Power, xb.0, f.n)),
        (v(f.strength(ops, pos)) * v(ops.two(Binary::Power, xb.0, f.m))) * v(
            ops.two(Binary::Power, xb.1, f.k),
        ) == v(f.alpha),
{
    let one = F64 { bits: constants::ONE };
    let x = arithmetic::quotient(ops, pos.length(ops), f.r_0);
    let base = arithmetic::sum(ops, one, ops.two(Binary::Power, x, f.n));
    conics::lemma_same_square(r, v(pos.length(ops)));
    let (a, b) = (
        v(ops.two(Binary::Power, x, f.m.negated())),
        v(ops.two(Binary::Power, base, f.k.negated())),
    );
    let (c, d) = (v(ops.two(Binary::Power, x, f.m)), v(ops.two(Binary::Power, base, f.k)));
    let al = v(f.alpha);
    // ((al a) b) c) d
    rounding::lemma_order(al * a, b, c);
    rounding::lemma_order(b, c, 1real);
    rounding::lemma_order(al * a, c, b);
    rounding::lemma_order(al, a, c);
    rounding::lemma_minus(al, 1real);
    assert(((al * a) * b) * c == al * b);
    rounding::lemma_order(al, b, d);
    (x, base)
}

/// The push lags: it is as strong as at the place where the comet was `dt` days before, which is the
/// present place where there is no lag. It is directed by the present place and motion.
pub proof fn law_lag<A: Physics>(
    ops: &A,
    v: Reading,
    f: JplCometNonGrav,
    time: Time,
    pos: Vector<Equatorial>,
    vel: Vector<Equatorial>,
    params: Seq<F64>,
    place: Vector<Equatorial>,
    r: real,
    m: real,
)
    requires
        params.len() == 3,
        f.accel_value(ops, time, pos, vel, params) is Ok,
        if f.dt.same(F64 { bits: 0 }) {
            place == pos
        } else {
            &&& ops.two_body(f.dt.negated(), Motion { pos, vel }) is Ok
            &&& place == ops.two_body(f.dt.negated(), Motion { pos, vel })->Ok_0.pos
        },
        exact_push(
            ops,
            v,
            pos,
            vel,
            f.strength(ops, place),
            params[0],
            params[1],
            params[2],
        ),
        0real <= r,
        r * r == read(v, pos).dot(read(v, pos)),
        0real <= m,
        m * m == conics::cross(read(v, pos), read(v, vel)).dot(
            conics::cross(read(v, pos), read(v, vel)),
        ),
    ensures
        ({
            let (p, w) = (read(v, pos), read(v, vel));
            let a = read(v, f.accel_value(ops, time, pos, vel, params)->Ok_0);
            let s = v(f.strength(ops, place));
            &&& a.dot(p) == (s * v(params[0])) * r
            &&& r * a.dot(w) == (s * v(params[0])) * p.dot(w) + (s * v(params[1])) * m
            &&& a.dot(conics::cross(p, w)) == (s * v(params[2])) * m
        }),
{
    law_push_directions(
        ops,
        v,
        pos,
        vel,
        f.strength(ops, place),
        params[0],
        params[1],
        params[2],
        r,
        m,
    );
}

} // verus!
