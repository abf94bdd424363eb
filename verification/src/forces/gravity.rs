//! Massive bodies and their pull.
use crate::arithmetic;
use crate::arithmetic::{Arithmetic, Unary};
use crate::conics;
use crate::constants;
use crate::constants::Constants;
use crate::desig::Desig;
use crate::errors::{Error, IoFault, KeteResult, ValueFault};
use crate::exact;
use crate::float::{F32, F64};
use crate::forces::traits::Jacobians;
use crate::frames;
use crate::frames::{Equatorial, Vector};
use crate::matrix::Matrix3;
use crate::orbits;
use crate::physics::Motion;
use crate::rounding;
use crate::rounding::{read, Reading, Triple};
use vstd::prelude::*;
use vstd::string::StrSliceExecFns;

verus! {

/// The radius of a body whose radius is not given: one hundred meters, in AU.
pub const DEFAULT_RADIUS: u32 = 0x3037be9a;

/// The NAIF id of the barycenter of Jupiter.
pub const JUPITER: i32 = 5;

/// The NAIF id of the Sun.
pub const SUN: i32 = 10;

/// The NAIF id of the Earth.
pub const EARTH: i32 = 399;

/// What is known of a body that pulls on others.
#[derive(Debug, Clone, Copy)]
pub struct GravParams {
    /// The NAIF id of the body.
    pub naif_id: i32,
    /// The standard gravitational parameter.
    pub mass: F64,
    /// The radius in AU.
    pub radius: F32,
}

/// The acceleration by the oblateness of a body, in the frame of its pole.
pub open spec fn oblate<A: Arithmetic>(
    ops: &A,
    rel_pos: Vector<Equatorial>,
    radius: F64,
    j2: F64,
    mass: F64,
) -> Vector<Equatorial> {
    let r = rel_pos.length(ops);
    let z_squared = arithmetic::product(
        ops,
        F64 { bits: constants::FIVE },
        ops.one(Unary::Squared, arithmetic::quotient(ops, rel_pos.z, r)),
    );
    let coef = arithmetic::product(
        ops,
        arithmetic::product(
            ops,
            arithmetic::product(
                ops,
                arithmetic::product(ops, F64 { bits: constants::ONE_AND_HALF }, j2),
                mass,
            ),
            ops.one(Unary::Squared, arithmetic::quotient(ops, radius, r)),
        ),
        ops.one(Unary::InverseCube, r),
    );
    frames::vector(
        arithmetic::product(
            ops,
            arithmetic::product(ops, rel_pos.x, coef),
            arithmetic::difference(ops, z_squared, F64 { bits: constants::ONE }),
        ),
        arithmetic::product(
            ops,
            arithmetic::product(ops, rel_pos.y, coef),
            arithmetic::difference(ops, z_squared, F64 { bits: constants::ONE }),
        ),
        arithmetic::product(
            ops,
            arithmetic::product(ops, rel_pos.z, coef),
            arithmetic::difference(ops, z_squared, F64 { bits: constants::THREE }),
        ),
    )
}

/// The acceleration by the oblateness of a body, in the frame of its pole.
fn j2_correction<A: Arithmetic>(
    ops: &A,
    rel_pos: Vector<Equatorial>,
    radius: F64,
    j2: F64,
    mass: F64,
) -> (r: Vector<Equatorial>)
    requires
        ops.lawful(),
    ensures
        r == oblate(ops, rel_pos, radius, j2, mass),
{
    let r = rel_pos.norm(ops);
    let z_squared = arithmetic::times(
        ops,
        F64::from_bits(constants::FIVE),
        ops.unary(Unary::Squared, arithmetic::over(ops, rel_pos.z, r)),
    );
    let coef = arithmetic::times(
        ops,
        arithmetic::times(
            ops,
            arithmetic::times(
                ops,
                arithmetic::times(ops, F64::from_bits(constants::ONE_AND_HALF), j2),
                mass,
            ),
            ops.unary(Unary::Squared, arithmetic::over(ops, radius, r)),
        ),
        ops.unary(Unary::InverseCube, r),
    );
    Vector::of(
        arithmetic::times(
            ops,
            arithmetic::times(ops, rel_pos.x, coef),
            arithmetic::minus(ops, z_squared, F64::from_bits(constants::ONE)),
        ),
        arithmetic::times(
            ops,
            arithmetic::times(ops, rel_pos.y, coef),
            arithmetic::minus(ops, z_squared, F64::from_bits(constants::ONE)),
        ),
        arithmetic::times(
            ops,
            arithmetic::times(ops, rel_pos.z, coef),
            arithmetic::minus(ops, z_squared, F64::from_bits(constants::THREE)),
        ),
    )
}

/// The acceleration with what general relativity adds.
pub open spec fn relativistic<A: Arithmetic>(
    ops: &A,
    c: Constants,
    accel: Vector<Equatorial>,
    rel_pos: Vector<Equatorial>,
    rel_vel: Vector<Equatorial>,
    mass: F64,
) -> Vector<Equatorial> {
    let r_v = arithmetic::product(ops, F64 { bits: constants::FOUR }, rel_pos.dotted(ops, rel_vel));
    let v2 = rel_vel.dotted(ops, rel_vel);
    let r = rel_pos.length(ops);
    let strength = arithmetic::product(
        ops,
        arithmetic::product(ops, mass, c.c_inv_squared),
        ops.one(Unary::InverseCube, r),
    );
    let radial = arithmetic::difference(
        ops,
        arithmetic::quotient(
            ops,
            arithmetic::product(ops, F64 { bits: constants::FOUR }, mass),
            r,
        ),
        v2,
    );
    accel.sum(
        ops,
        rel_pos.scaled(ops, radial).sum(ops, rel_vel.scaled(ops, r_v)).scaled(ops, strength),
    )
}

/// The acceleration with what general relativity adds.
fn apply_gr_correction<A: Arithmetic>(
    ops: &A,
    c: Constants,
    accel: Vector<Equatorial>,
    rel_pos: Vector<Equatorial>,
    rel_vel: Vector<Equatorial>,
    mass: F64,
) -> (r: Vector<Equatorial>)
    requires
        ops.lawful(),
    ensures
        r == relativistic(ops, c, accel, rel_pos, rel_vel, mass),
{
    let r_v = arithmetic::times(ops, F64::from_bits(constants::FOUR), rel_pos.dot(ops, rel_vel));
    let v2 = rel_vel.dot(ops, rel_vel);
    let r = rel_pos.norm(ops);
    let strength = arithmetic::times(
        ops,
        arithmetic::times(ops, mass, c.c_inv_squared),
        ops.unary(Unary::InverseCube, r),
    );
    let radial = arithmetic::minus(
        ops,
        arithmetic::over(ops, arithmetic::times(ops, F64::from_bits(constants::FOUR), mass), r),
        v2,
    );
    accel.plus(
        ops,
        rel_pos.scale(ops, radial).plus(ops, rel_vel.scale(ops, r_v)).scale(ops, strength),
    )
}

/// The derivative by the position of the acceleration by the oblateness of a body.
pub open spec fn oblate_jacobian<A: Arithmetic>(
    ops: &A,
    d: Vector<Equatorial>,
    radius: F64,
    j2: F64,
    mass: F64,
) -> Matrix3<Equatorial> {
    let r = d.length(ops);
    let r2 = arithmetic::product(ops, r, r);
    let z = d.z;
    let lambda = arithmetic::quotient(
        ops,
        arithmetic::product(
            ops,
            arithmetic::product(
                ops,
                arithmetic::product(ops, F64 { bits: constants::ONE_AND_HALF }, j2),
                mass,
            ),
            ops.one(Unary::Squared, arithmetic::quotient(ops, radius, r)),
        ),
        arithmetic::product(ops, r2, r),
    );
    let big_z = arithmetic::quotient(
        ops,
        arithmetic::product(ops, arithmetic::product(ops, (F64 { bits: constants::FIVE }), z), z),
        r2,
    );
    let a_norm = frames::vector(
        arithmetic::product(
            ops,
            d.x,
            arithmetic::difference(ops, big_z, F64 { bits: constants::ONE }),
        ),
        arithmetic::product(
            ops,
            d.y,
            arithmetic::difference(ops, big_z, F64 { bits: constants::ONE }),
        ),
        arithmetic::product(
            ops,
            d.z,
            arithmetic::difference(ops, big_z, F64 { bits: constants::THREE }),
        ),
    );
    let f_diag = Matrix3::<Equatorial>::diagonal(
        arithmetic::difference(ops, big_z, F64 { bits: constants::ONE }),
        arithmetic::difference(ops, big_z, F64 { bits: constants::ONE }),
        arithmetic::difference(ops, big_z, F64 { bits: constants::THREE }),
    );
    let dz_dd = frames::vector(
        F64 { bits: constants::ZERO },
        F64 { bits: constants::ZERO },
        F64 { bits: constants::ONE },
    ).difference(
        ops,
        d.scaled(ops, arithmetic::quotient(ops, z, r2)),
    ).scaled(
        ops,
        arithmetic::quotient(ops, arithmetic::product(ops, (F64 { bits: constants::TEN }), z), r2),
    );
    a_norm.scaled(ops, arithmetic::quotient(ops, (F64 { bits: constants::FIVE }).negated(),
        r2)).outer(
        ops,
        d,
    ).sum(
        ops,
        f_diag,
    ).sum(
        ops,
        d.outer(ops, dz_dd),
    ).scaled(
        ops,
        lambda,
    )
}

/// The derivative by the position of the acceleration by the oblateness of a body.
fn j2_jacobian<A: Arithmetic>(
    ops: &A,
    d: Vector<Equatorial>,
    radius: F64,
    j2: F64,
    mass: F64,
) -> (r: Matrix3<Equatorial>)
    requires
        ops.lawful(),
    ensures
        r == oblate_jacobian(ops, d, radius, j2, mass),
{
    let r = d.norm(ops);
    let r2 = arithmetic::times(ops, r, r);
    let z = d.z;
    let lambda = arithmetic::over(
        ops,
        arithmetic::times(
            ops,
            arithmetic::times(
                ops,
                arithmetic::times(ops, F64::from_bits(constants::ONE_AND_HALF), j2),
                mass,
            ),
            ops.unary(Unary::Squared, arithmetic::over(ops, radius, r)),
        ),
        arithmetic::times(ops, r2, r),
    );
    let big_z = arithmetic::over(
        ops,
        arithmetic::times(ops, arithmetic::times(ops, F64::from_bits(constants::FIVE), z), z),
        r2,
    );
    let a_norm = Vector::of(
        arithmetic::times(ops, d.x, arithmetic::minus(ops, big_z, F64::from_bits(constants::ONE))),
        arithmetic::times(ops, d.y, arithmetic::minus(ops, big_z, F64::from_bits(constants::ONE))),
        arithmetic::times(
            ops,
            d.z,
            arithmetic::minus(ops, big_z, F64::from_bits(constants::THREE)),
        ),
    );
    let f_diag = Matrix3::from_diagonal(
        arithmetic::minus(ops, big_z, F64::from_bits(constants::ONE)),
        arithmetic::minus(ops, big_z, F64::from_bits(constants::ONE)),
        arithmetic::minus(ops, big_z, F64::from_bits(constants::THREE)),
    );
    let dz_dd = Vector::of(
        F64::from_bits(constants::ZERO),
        F64::from_bits(constants::ZERO),
        F64::from_bits(constants::ONE),
    ).minus(
        ops,
        d.scale(ops, arithmetic::over(ops, z, r2)),
    ).scale(
        ops,
        arithmetic::over(ops, arithmetic::times(ops, F64::from_bits(constants::TEN), z), r2),
    );
    a_norm.scale(ops, arithmetic::over(ops, F64::from_bits(constants::FIVE).neg(),
        r2)).outer_product(
        ops,
        d,
    ).plus(
        ops,
        f_diag,
    ).plus(
        ops,
        d.outer_product(ops, dz_dd),
    ).scale(
        ops,
        lambda,
    )
}

/// What a point mass takes off the derivative by the position.
pub open spec fn point_mass<A: Arithmetic>(
    ops: &A,
    d: Vector<Equatorial>,
    mass: F64,
) -> Matrix3<Equatorial> {
    let ident = Matrix3::<Equatorial>::unit();
    let r = d.length(ops);
    let r2 = arithmetic::product(ops, r, r);
    let r3 = arithmetic::product(ops, r2, r);
    let r5 = arithmetic::product(ops, r2, r3);
    ident.scaled(ops, r2).difference(
        ops,
        d.scaled(ops, F64 { bits: constants::THREE }).outer(ops, d),
    ).scaled(
        ops,
        arithmetic::quotient(ops, mass, r5),
    )
}

/// What a point mass takes off the derivative by the position.
fn find_point_mass<A: Arithmetic>(
    ops: &A,
    d: Vector<Equatorial>,
    mass: F64,
) -> (r: Matrix3<Equatorial>)
    requires
        ops.lawful(),
    ensures
        r == point_mass(ops, d, mass),
{
    let ident = Matrix3::<Equatorial>::identity();
    let r = d.norm(ops);
    let r2 = arithmetic::times(ops, r, r);
    let r3 = arithmetic::times(ops, r2, r);
    let r5 = arithmetic::times(ops, r2, r3);
    ident.scale(ops, r2).minus(
        ops,
        d.scale(ops, F64::from_bits(constants::THREE)).outer_product(ops, d),
    ).scale(
        ops,
        arithmetic::over(ops, mass, r5),
    )
}

/// What general relativity adds to the derivatives.
pub open spec fn relativistic_jacobians<A: Arithmetic>(
    ops: &A,
    c: Constants,
    d: Vector<Equatorial>,
    v: Vector<Equatorial>,
    mass: F64,
) -> Jacobians<Equatorial> {
    let ident = Matrix3::<Equatorial>::unit();
    let r = d.length(ops);
    let r2 = arithmetic::product(ops, r, r);
    let r3 = arithmetic::product(ops, r2, r);
    let kappa = arithmetic::quotient(ops, arithmetic::product(ops, mass, c.c_inv_squared), r3);
    let v2 = v.dotted(ops, v);
    let big_c = arithmetic::difference(
        ops,
        arithmetic::quotient(
            ops,
            arithmetic::product(ops, F64 { bits: constants::FOUR }, mass),
            r,
        ),
        v2,
    );
    let big_r = arithmetic::product(ops, F64 { bits: constants::FOUR }, d.dotted(ops, v));
    let a_gr = d.scaled(ops, big_c).sum(ops, v.scaled(ops, big_r));
    let pos = a_gr.scaled(
        ops,
        arithmetic::quotient(
            ops,
            arithmetic::product(ops, (F64 { bits: constants::THREE }).negated(), kappa),
            r2,
        ),
    ).outer(
        ops,
        d,
    ).sum(
        ops,
        d.scaled(
            ops,
            arithmetic::quotient(
                ops,
                arithmetic::product(ops, (F64 { bits: constants::FOUR }).negated(), mass),
                r3,
            ),
        ).outer(
            ops,
            d,
        ).sum(
            ops,
            ident.scaled(ops, big_c),
        ).sum(
            ops,
            v.scaled(ops, F64 { bits: constants::FOUR }).outer(ops, v),
        ).scaled(
            ops,
            kappa,
        ),
    );
    let vel = d.scaled(ops, (F64 { bits: constants::TWO }).negated()).outer(ops, v).sum(
        ops,
        v.scaled(ops, F64 { bits: constants::FOUR }).outer(ops, d),
    ).sum(
        ops,
        ident.scaled(ops, big_r),
    ).scaled(
        ops,
        kappa,
    );
    Jacobians { pos, vel }
}

/// What general relativity adds to the derivatives.
fn find_relativistic_jacobians<A: Arithmetic>(
    ops: &A,
    c: Constants,
    d: Vector<Equatorial>,
    v: Vector<Equatorial>,
    mass: F64,
) -> (r: Jacobians<Equatorial>)
    requires
        ops.lawful(),
    ensures
        r == relativistic_jacobians(ops, c, d, v, mass),
{
    let ident = Matrix3::<Equatorial>::identity();
    let r = d.norm(ops);
    let r2 = arithmetic::times(ops, r, r);
    let r3 = arithmetic::times(ops, r2, r);
    let kappa = arithmetic::over(ops, arithmetic::times(ops, mass, c.c_inv_squared), r3);
    let v2 = v.dot(ops, v);
    let big_c = arithmetic::minus(
        ops,
        arithmetic::over(ops, arithmetic::times(ops, F64::from_bits(constants::FOUR), mass), r),
        v2,
    );
    let big_r = arithmetic::times(ops, F64::from_bits(constants::FOUR), d.dot(ops, v));
    let a_gr = d.scale(ops, big_c).plus(ops, v.scale(ops, big_r));
    let pos = a_gr.scale(
        ops,
        arithmetic::over(
            ops,
            arithmetic::times(ops, F64::from_bits(constants::THREE).neg(), kappa),
            r2,
        ),
    ).outer_product(
        ops,
        d,
    ).plus(
        ops,
        d.scale(
            ops,
            arithmetic::over(
                ops,
                arithmetic::times(ops, F64::from_bits(constants::FOUR).neg(), mass),
                r3,
            ),
        ).outer_product(
            ops,
            d,
        ).plus(
            ops,
            ident.scale(ops, big_c),
        ).plus(
            ops,
            v.scale(ops, F64::from_bits(constants::FOUR)).outer_product(ops, v),
        ).scale(
            ops,
            kappa,
        ),
    );
    let vel = d.scale(ops, F64::from_bits(constants::TWO).neg()).outer_product(ops, v).plus(
        ops,
        v.scale(ops, F64::from_bits(constants::FOUR)).outer_product(ops, d),
    ).plus(
        ops,
        ident.scale(ops, big_r),
    ).scale(
        ops,
        kappa,
    );
    Jacobians { pos, vel }
}

/// The oblateness of the Sun or of Jupiter.
pub open spec fn giant_j2(c: Constants, naif_id: i32) -> F64 {
    if naif_id == SUN {
        c.sun_j2
    } else {
        c.jupiter_j2
    }
}

/// The oblateness of the Sun or of Jupiter.
fn find_giant_j2(c: Constants, naif_id: i32) -> (r: F64)
    ensures
        r == giant_j2(c, naif_id),
{
    if naif_id == SUN {
        c.sun_j2
    } else {
        c.jupiter_j2
    }
}

impl GravParams {
    /// The acceleration with what the shape of the body and general relativity add to its
    /// pull. The poles of the Sun and of Jupiter are taken to be that of the ecliptic.
    pub open spec fn corrected<A: Arithmetic>(
        &self,
        ops: &A,
        c: Constants,
        accel: Vector<Equatorial>,
        rel_pos: Vector<Equatorial>,
        rel_vel: Vector<Equatorial>,
    ) -> Vector<Equatorial> {
        let radius = self.radius.widened();
        if self.naif_id == SUN || self.naif_id == JUPITER {
            let tilted = c.ecliptic.transposed().applied(ops, rel_pos);
            let pull = oblate(ops, tilted, radius, giant_j2(c, self.naif_id), self.mass);
            relativistic(ops, c, accel, rel_pos, rel_vel, self.mass).sum(
                ops,
                c.ecliptic.applied(ops, pull),
            )
        } else if self.naif_id == EARTH {
            accel.sum(ops, oblate(ops, rel_pos, radius, c.earth_j2, self.mass))
        } else {
            accel
        }
    }

    /// The acceleration with the pull of the body.
    pub open spec fn pulled<A: Arithmetic>(
        &self,
        ops: &A,
        c: Constants,
        accel: Vector<Equatorial>,
        rel_pos: Vector<Equatorial>,
        rel_vel: Vector<Equatorial>,
    ) -> Vector<Equatorial> {
        let strength = arithmetic::product(
            ops,
            self.mass,
            ops.one(Unary::InverseCube, rel_pos.length(ops)),
        );
        self.corrected(ops, c, accel, rel_pos, rel_vel).difference(
            ops,
            rel_pos.scaled(ops, strength),
        )
    }

    /// Add the pull of the body to an acceleration.
    pub fn add_acceleration<A: Arithmetic>(
        &self,
        ops: &A,
        c: Constants,
        accel: &mut Vector<Equatorial>,
        rel_pos: Vector<Equatorial>,
        rel_vel: Vector<Equatorial>,
    )
        requires
            ops.lawful(),
        ensures
            *final(accel) == self.pulled(ops, c, *old(accel), rel_pos, rel_vel),
    {
        let radius = self.radius.widen();
        let mut sum = *accel;
        if self.naif_id == SUN || self.naif_id == JUPITER {
            sum = apply_gr_correction(ops, c, sum, rel_pos, rel_vel, self.mass);
            let tilted = c.ecliptic.transpose().apply(ops, rel_pos);
            let j2 = find_giant_j2(c, self.naif_id);
            let pull = j2_correction(ops, tilted, radius, j2, self.mass);
            sum = sum.plus(ops, c.ecliptic.apply(ops, pull));
        } else if self.naif_id == EARTH {
            sum = sum.plus(ops, j2_correction(ops, rel_pos, radius, c.earth_j2, self.mass));
        }
        let distance = rel_pos.norm(ops);
        let strength = arithmetic::times(
            ops,
            self.mass,
            ops.unary(Unary::InverseCube, distance),
        );
        *accel = sum.minus(ops, rel_pos.scale(ops, strength));
    }

    /// The derivatives with those of the pull of the body, which is at `at`.
    pub open spec fn with_jacobians<A: Arithmetic>(
        &self,
        ops: &A,
        c: Constants,
        so_far: Jacobians<Equatorial>,
        at: Motion<Equatorial>,
        pos: Vector<Equatorial>,
        vel: Vector<Equatorial>,
    ) -> Jacobians<Equatorial> {
        let d = pos.difference(ops, at.pos);
        let v = vel.difference(ops, at.vel);
        let radius = self.radius.widened();
        let newton = so_far.pos.difference(ops, point_mass(ops, d, self.mass));
        if self.naif_id == SUN || self.naif_id == JUPITER {
            let gr = relativistic_jacobians(ops, c, d, v, self.mass);
            let tilted = c.ecliptic.transposed().applied(ops, d);
            let j2 = oblate_jacobian(ops, tilted, radius, giant_j2(c, self.naif_id), self.mass);
            let turned = c.ecliptic.multiplied(ops, j2).multiplied(ops, c.ecliptic.transposed());
            Jacobians {
                pos: newton.sum(ops, gr.pos).sum(ops, turned),
                vel: so_far.vel.sum(ops, gr.vel),
            }
        } else if self.naif_id == EARTH {
            Jacobians {
                pos: newton.sum(ops, oblate_jacobian(ops, d, radius, c.earth_j2, self.mass)),
                vel: so_far.vel,
            }
        } else {
            Jacobians { pos: newton, vel: so_far.vel }
        }
    }

    /// Add the derivatives of the pull of the body, which is at `at`.
    fn add_jacobians<A: Arithmetic>(
        &self,
        ops: &A,
        c: Constants,
        so_far: Jacobians<Equatorial>,
        at: Motion<Equatorial>,
        pos: Vector<Equatorial>,
        vel: Vector<Equatorial>,
    ) -> (r: Jacobians<Equatorial>)
        requires
            ops.lawful(),
        ensures
            r == self.with_jacobians(ops, c, so_far, at, pos, vel),
    {
        let d = pos.minus(ops, at.pos);
        let v = vel.minus(ops, at.vel);
        let radius = self.radius.widen();
        let newton = so_far.pos.minus(ops, find_point_mass(ops, d, self.mass));
        if self.naif_id == SUN || self.naif_id == JUPITER {
            let gr = find_relativistic_jacobians(ops, c, d, v, self.mass);
            let tilted = c.ecliptic.transpose().apply(ops, d);
            let giant = find_giant_j2(c, self.naif_id);
            let j2 = j2_jacobian(ops, tilted, radius, giant, self.mass);
            let turned = c.ecliptic.multiply(ops, j2).multiply(ops, c.ecliptic.transpose());
            Jacobians {
                pos: newton.plus(ops, gr.pos).plus(ops, turned),
                vel: so_far.vel.plus(ops, gr.vel),
            }
        } else if self.naif_id == EARTH {
            Jacobians {
                pos: newton.plus(ops, j2_jacobian(ops, d, radius, c.earth_j2, self.mass)),
                vel: so_far.vel,
            }
        } else {
            Jacobians { pos: newton, vel: so_far.vel }
        }
    }
}

/// The distance of a position is the length which is found, where that is exact.
proof fn lemma_distance<A: Arithmetic>(ops: &A, v: Reading, p: Vector<Equatorial>, d: real)
    requires
        exact::measures(ops, v, p),
        0real <= d,
        d * d == read(v, p).dot(read(v, p)),
    ensures
        v(p.length(ops)) == d,
{
    conics::lemma_same_square(v(p.length(ops)), d);
}

/// Are the operations exact by which the pull of a body is taken off an acceleration.
pub open spec fn exact_pull<A: Arithmetic>(
    ops: &A,
    v: Reading,
    mass: F64,
    accel: Vector<Equatorial>,
    rel_pos: Vector<Equatorial>,
) -> bool {
    let r = rel_pos.length(ops);
    let cube = ops.one(Unary::InverseCube, r);
    let strength = arithmetic::product(ops, mass, cube);
    &&& exact::measures(ops, v, rel_pos)
    &&& exact::inverts_cube(ops, v, r)
    &&& orbits::multiplies(ops, v, mass, cube)
    &&& exact::scales(ops, v, rel_pos, strength)
    &&& exact::differs(ops, v, accel, rel_pos.scaled(ops, strength))
}

/// A mass pulls: what it adds to an acceleration, apart from what its shape and general relativity
/// add, is towards the mass, and it is the mass over the square of the distance `d`.
pub proof fn law_mass_attracts<A: Arithmetic>(
    ops: &A,
    v: Reading,
    body: GravParams,
    c: Constants,
    accel: Vector<Equatorial>,
    rel_pos: Vector<Equatorial>,
    rel_vel: Vector<Equatorial>,
    d: real,
)
    requires
        exact_pull(
            ops,
            v,
            body.mass,
            body.corrected(ops, c, accel, rel_pos, rel_vel),
            rel_pos,
        ),
        0real <= d,
        d * d == read(v, rel_pos).dot(read(v, rel_pos)),
    ensures
        ({
            let p = read(v, rel_pos);
            let before = read(v, body.corrected(ops, c, accel, rel_pos, rel_vel));
            let after = read(v, body.pulled(ops, c, accel, rel_pos, rel_vel));
            let pull = exact::minus(after, before);
            &&& 0real < d
            &&& conics::times(d * (d * d), pull) == conics::times(-v(body.mass), p)
            &&& d * pull.dot(p) == -v(body.mass)
            &&& 0real < v(body.mass) ==> pull.dot(p) < 0real
        }),
{
    let p = read(v, rel_pos);
    let before = read(v, body.corrected(ops, c, accel, rel_pos, rel_vel));
    let after = read(v, body.pulled(ops, c, accel, rel_pos, rel_vel));
    let pull = exact::minus(after, before);
    let m = v(body.mass);
    let r = rel_pos.length(ops);
    let cube = v(ops.one(Unary::InverseCube, r));
    let strength = arithmetic::product(ops, body.mass, ops.one(Unary::InverseCube, r));
    lemma_distance(ops, v, rel_pos, d);
    let d3 = d * (d * d);
    if d == 0real {
        rounding::lemma_minus(cube, 1real);
        rounding::lemma_minus(d, 1real);
        rounding::lemma_order(0real, d * d, 1real);
        rounding::lemma_minus(d * d, 1real);
    }
    exact::lemma_scaled(ops, v, rel_pos, strength);
    let k = v(strength);
    rounding::lemma_minus(k, 1real);
    assert(pull == conics::times(-k, p)) by {
        rounding::lemma_minus(p.x, k);
        rounding::lemma_minus(p.y, k);
        rounding::lemma_minus(p.z, k);
        rounding::lemma_order(p.x, k, 1real);
        rounding::lemma_order(p.y, k, 1real);
        rounding::lemma_order(p.z, k, 1real);
        rounding::lemma_order(p.x, -k, 1real);
        rounding::lemma_order(p.y, -k, 1real);
        rounding::lemma_order(p.z, -k, 1real);
    }
    exact::lemma_times_times(d3, -k, p);
    rounding::lemma_minus(d3, k);
    rounding::lemma_order(d3, m, cube);
    rounding::lemma_order(m, cube, d3);
    rounding::lemma_order(k, d3, 1real);
    rounding::lemma_minus(m, 1real);
    assert(d3 * k == m);
    // towards the mass
    exact::lemma_dot_times(p, -k, p);
    exact::lemma_dot_order(pull, p);
    let dd = d * d;
    rounding::lemma_order(d, -k, dd);
    rounding::lemma_order(d, dd, -k);
    rounding::lemma_order(-k, dd, 1real);
    rounding::lemma_order(d3, -k, 1real);
    assert(d * pull.dot(p) == -m);
    if 0real < m && 0real <= pull.dot(p) {
        if pull.dot(p) == 0real {
            rounding::lemma_minus(d, 1real);
        } else {
            conics::lemma_positive(d, pull.dot(p));
        }
    }
}

/// A body which is neither the Sun nor Jupiter nor the Earth adds nothing but that pull.
pub proof fn law_point_bodies<A: Arithmetic>(
    ops: &A,
    v: Reading,
    body: GravParams,
    c: Constants,
    accel: Vector<Equatorial>,
    rel_pos: Vector<Equatorial>,
    rel_vel: Vector<Equatorial>,
    d: real,
)
    requires
        body.naif_id != 10 && body.naif_id != 5 && body.naif_id != 399,
        exact_pull(ops, v, body.mass, accel, rel_pos),
        0real <= d,
        d * d == read(v, rel_pos).dot(read(v, rel_pos)),
    ensures
        conics::times(
            d * (d * d),
            exact::minus(read(v, body.pulled(ops, c, accel, rel_pos, rel_vel)), read(v, accel)),
        ) == conics::times(-v(body.mass), read(v, rel_pos)),
{
    law_mass_attracts(ops, v, body, c, accel, rel_pos, rel_vel, d);
}

/// Are the operations exact by which general relativity is added.
pub open spec fn exact_relativity<A: Arithmetic>(
    ops: &A,
    v: Reading,
    c: Constants,
    accel: Vector<Equatorial>,
    rel_pos: Vector<Equatorial>,
    rel_vel: Vector<Equatorial>,
    mass: F64,
) -> bool {
    let four = F64 { bits: constants::FOUR };
    let b = rel_pos.dotted(ops, rel_vel);
    let r_v = arithmetic::product(ops, four, b);
    let v2 = rel_vel.dotted(ops, rel_vel);
    let r = rel_pos.length(ops);
    let cube = ops.one(Unary::InverseCube, r);
    let small = arithmetic::product(ops, mass, c.c_inv_squared);
    let strength = arithmetic::product(ops, small, cube);
    let part = arithmetic::product(ops, four, mass);
    let over = arithmetic::quotient(ops, part, r);
    let radial = arithmetic::difference(ops, over, v2);
    let (x, y) = (rel_pos.scaled(ops, radial), rel_vel.scaled(ops, r_v));
    &&& v(four) == 4real
    &&& exact::dots(ops, v, rel_pos, rel_vel) && orbits::multiplies(ops, v, four, b)
    &&& exact::dots(ops, v, rel_vel, rel_vel)
    &&& exact::measures(ops, v, rel_pos) && exact::inverts_cube(ops, v, r)
    &&& orbits::multiplies(ops, v, mass, c.c_inv_squared) && orbits::multiplies(ops, v, small, cube)
    &&& orbits::multiplies(ops, v, four, mass) && orbits::divides(ops, v, part, r)
    &&& orbits::subtracts(ops, v, over, v2)
    &&& exact::scales(ops, v, rel_pos, radial) && exact::scales(ops, v, rel_vel, r_v)
    &&& exact::sums(ops, v, x, y) && exact::scales(ops, v, x.sum(ops, y), strength)
    &&& exact::sums(ops, v, accel, x.sum(ops, y).scaled(ops, strength))
}

/// What general relativity adds is in the plane of the orbit: along the position it is the
/// Schwarzschild term of the distance and the speed, along the velocity it has the sign of the
/// radial speed, and it vanishes with one over the square of the speed of light.
pub proof fn law_relativity<A: Arithmetic>(
    ops: &A,
    v: Reading,
    c: Constants,
    accel: Vector<Equatorial>,
    rel_pos: Vector<Equatorial>,
    rel_vel: Vector<Equatorial>,
    mass: F64,
    d: real,
)
    requires
        exact_relativity(ops, v, c, accel, rel_pos, rel_vel, mass),
        0real <= d,
        d * d == read(v, rel_pos).dot(read(v, rel_pos)),
    ensures
        ({
            let (p, w) = (read(v, rel_pos), read(v, rel_vel));
            let (m, small) = (v(mass), v(mass) * v(c.c_inv_squared));
            let more = exact::minus(
                read(v, relativistic(ops, c, accel, rel_pos, rel_vel, mass)),
                read(v, accel),
            );
            let d4 = d * (d * (d * d));
            let (b, s) = (p.dot(w), w.dot(w));
            &&& d4 * more.dot(p) == small * ((4real * m - d * s) * (d * d) + 4real * (d * (b * b)))
            &&& d4 * more.dot(w) == small * (b * (4real * m + 3real * (d * s)))
            &&& more.dot(conics::cross(p, w)) == 0real
        }),
{
    let (p, w) = (read(v, rel_pos), read(v, rel_vel));
    let four = F64 { bits: constants::FOUR };
    let (m, small) = (v(mass), v(mass) * v(c.c_inv_squared));
    let more = exact::minus(
        read(v, relativistic(ops, c, accel, rel_pos, rel_vel, mass)),
        read(v, accel),
    );
    let (b, s) = (p.dot(w), w.dot(w));
    let r = rel_pos.length(ops);
    let r_v = arithmetic::product(ops, four, rel_pos.dotted(ops, rel_vel));
    let part = arithmetic::product(ops, four, mass);
    let over = arithmetic::quotient(ops, part, r);
    let radial = arithmetic::difference(ops, over, rel_vel.dotted(ops, rel_vel));
    let cube = ops.one(Unary::InverseCube, r);
    let strength = arithmetic::product(
        ops,
        arithmetic::product(ops, mass, c.c_inv_squared),
        cube,
    );
    let (x, y) = (rel_pos.scaled(ops, radial), rel_vel.scaled(ops, r_v));
    lemma_distance(ops, v, rel_pos, d);
    exact::lemma_scaled(ops, v, rel_pos, radial);
    exact::lemma_scaled(ops, v, rel_vel, r_v);
    exact::lemma_scaled(ops, v, x.sum(ops, y), strength);
    let (f, g, k) = (v(radial), v(r_v), v(strength));
    let inner = exact::plus(conics::times(f, p), conics::times(g, w));
    assert(more == conics::times(k, inner));
    // the products with position and velocity
    exact::lemma_dot_times(p, k, inner);
    exact::lemma_dot_times(w, k, inner);
    exact::lemma_dot_plus(p, conics::times(f, p), conics::times(g, w));
    exact::lemma_dot_plus(w, conics::times(f, p), conics::times(g, w));
    exact::lemma_dot_times(p, f, p);
    exact::lemma_dot_times(p, g, w);
    exact::lemma_dot_times(w, f, p);
    exact::lemma_dot_times(w, g, w);
    exact::lemma_dot_order(p, w);
    exact::lemma_dot_order(more, p);
    exact::lemma_dot_order(more, w);
    let d2 = d * d;
    let d3 = d * d2;
    // the factors: d times f is four m less d times s
    let q = v(over);
    rounding::lemma_order(q, d, 1real);
    rounding::lemma_spread(d, q, -s, 0real);
    rounding::lemma_minus(d, s);
    rounding::lemma_minus(d, 1real);
    assert(d * f == 4real * m - d * s);
    // d cubed times k is small
    rounding::lemma_order(small, v(cube), d3);
    rounding::lemma_minus(small, 1real);
    rounding::lemma_order(k, d3, 1real);
    assert(d3 * k == small);
    let along = f * d2 + g * b;
    lemma_fourth(d, k, along, small);
    rounding::lemma_spread(d, f * d2, g * b, 0real);
    rounding::lemma_order(d, f, d2);
    rounding::lemma_order(d, g, b);
    rounding::lemma_order(4real, b, b);
    conics::lemma_swap(d, 4real, b * b);
    let aside = f * b + g * s;
    lemma_fourth(d, k, aside, small);
    rounding::lemma_spread(d, f * b, g * s, 0real);
    rounding::lemma_order(d, f, b);
    rounding::lemma_order(4real, b, s);
    conics::lemma_swap(d, 4real, b * s);
    conics::lemma_swap(d, b, s);
    rounding::lemma_spread(b, 4real * m, 3real * (d * s), 0real);
    rounding::lemma_minus(b, 1real);
    rounding::lemma_order(4real * m - d * s, b, 1real);
    rounding::lemma_spread(b, 4real * m, -(d * s), 0real);
    rounding::lemma_minus(b, d * s);
    conics::lemma_swap(b, 3real, d * s);
    // in the plane
    let n = conics::cross(p, w);
    exact::lemma_cross_across(p, w);
    exact::lemma_dot_order(p, n);
    exact::lemma_dot_order(w, n);
    exact::lemma_dot_times(n, k, inner);
    exact::lemma_dot_plus(n, conics::times(f, p), conics::times(g, w));
    exact::lemma_dot_times(n, f, p);
    exact::lemma_dot_times(n, g, w);
    exact::lemma_dot_order(more, n);
    rounding::lemma_minus(f, 1real);
    rounding::lemma_minus(g, 1real);
    rounding::lemma_minus(k, 1real);
}

/// The fourth power of a distance times a strength.
proof fn lemma_fourth(d: real, k: real, a: real, small: real)
    requires
        (d * (d * d)) * k == small,
    ensures
        (d * (d * (d * d))) * (k * a) == small * (d * a),
{
    let d3 = d * (d * d);
    rounding::lemma_factors(d, d3, k, a);
    rounding::lemma_factors(d3, d, k, a);
    rounding::lemma_order(d, d3, 1real);
}

/// Are the operations exact by which the acceleration by the oblateness of a body is found.
pub open spec fn exact_oblate<A: Arithmetic>(
    ops: &A,
    v: Reading,
    rel_pos: Vector<Equatorial>,
    radius: F64,
    j2: F64,
    mass: F64,
) -> bool {
    let (one, three, five, sesqui) = (
        F64 { bits: constants::ONE },
        F64 { bits: constants::THREE },
        F64 { bits: constants::FIVE },
        F64 { bits: constants::ONE_AND_HALF },
    );
    let r = rel_pos.length(ops);
    let cube = ops.one(Unary::InverseCube, r);
    let high = arithmetic::quotient(ops, rel_pos.z, r);
    let part = ops.one(Unary::Squared, high);
    let z_squared = arithmetic::product(ops, five, part);
    let wide = arithmetic::quotient(ops, radius, r);
    let area = ops.one(Unary::Squared, wide);
    let a = arithmetic::product(ops, sesqui, j2);
    let b = arithmetic::product(ops, a, mass);
    let e = arithmetic::product(ops, b, area);
    let coef = arithmetic::product(ops, e, cube);
    let low = arithmetic::difference(ops, z_squared, one);
    let top = arithmetic::difference(ops, z_squared, three);
    &&& v(one) == 1real && v(three) == 3real && v(five) == 5real && 2real * v(sesqui) == 3real
    &&& exact::measures(ops, v, rel_pos) && exact::inverts_cube(ops, v, r)
    &&& orbits::divides(ops, v, rel_pos.z, r) && orbits::squares(ops, v, high)
    &&& orbits::multiplies(ops, v, five, part)
    &&& orbits::divides(ops, v, radius, r) && orbits::squares(ops, v, wide)
    &&& orbits::multiplies(ops, v, sesqui, j2) && orbits::multiplies(ops, v, a, mass)
    &&& orbits::multiplies(ops, v, b, area) && orbits::multiplies(ops, v, e, cube)
    &&& orbits::subtracts(ops, v, z_squared, one) && orbits::subtracts(ops, v, z_squared, three)
    &&& orbits::multiplies(ops, v, rel_pos.x, coef)
    &&& orbits::multiplies(ops, v, rel_pos.y, coef)
    &&& orbits::multiplies(ops, v, rel_pos.z, coef)
    &&& orbits::multiplies(ops, v, arithmetic::product(ops, rel_pos.x, coef), low)
    &&& orbits::multiplies(ops, v, arithmetic::product(ops, rel_pos.y, coef), low)
    &&& orbits::multiplies(ops, v, arithmetic::product(ops, rel_pos.z, coef), top)
}

/// One component of the acceleration by oblateness.
proof fn lemma_oblate_part(x: real, coef: real, q: real, n: real, d: real, z: real, k: real)
    requires
        2real * ((d * (d * d)) * ((d * d) * coef)) == k,
        (d * d) * q == 5real * (z * z),
    ensures
        (2real * ((d * (d * d)) * ((d * d) * (d * d)))) * ((x * coef) * (q - n)) == k * ((5real * (z
            * z) - n * (d * d)) * x),
{
    let (d2, d3) = (d * d, d * (d * d));
    // d2 times (q - n)
    rounding::lemma_spread(d2, q, -n, 0real);
    rounding::lemma_minus(d2, n);
    rounding::lemma_order(d2, n, 1real);
    rounding::lemma_minus(d2, 1real);
    let f = 5real * (z * z) - n * d2;
    assert(d2 * (q - n) == f);
    rounding::lemma_order(d3, d2, d2);
    rounding::lemma_order(2real, d3 * d2, d2);
    let g = 2real * (d3 * d2);
    assert(2real * (d3 * (d2 * d2)) == g * d2);
    rounding::lemma_factors(g, d2, x * coef, q - n);
    assert((g * d2) * ((x * coef) * (q - n)) == (g * (x * coef)) * f);
    rounding::lemma_order(g, coef, x);
    rounding::lemma_order(x, coef, 1real);
    rounding::lemma_order(d3, d2, coef);
    rounding::lemma_order(2real, d3 * d2, coef);
    assert(g * (x * coef) == k * x);
    rounding::lemma_order(k, x, f);
    rounding::lemma_order(x, f, 1real);
}

/// The acceleration by the oblateness of a body whose pole is on the third axis, of the radius `R`
/// and at the distance `d`: along the position `5 z^2 - d^2` and against the pole `2 d^2 z`, times
/// `3 J2 m R^2` over `2 d^7`.
pub proof fn law_oblateness<A: Arithmetic>(
    ops: &A,
    v: Reading,
    rel_pos: Vector<Equatorial>,
    radius: F64,
    j2: F64,
    mass: F64,
    d: real,
)
    requires
        exact_oblate(ops, v, rel_pos, radius, j2, mass),
        0real <= d,
        d * d == read(v, rel_pos).dot(read(v, rel_pos)),
    ensures
        ({
            let p = read(v, rel_pos);
            let pole = Triple { x: 0real, y: 0real, z: 1real };
            let more = read(v, oblate(ops, rel_pos, radius, j2, mass));
            bulges(p, pole, more, d, flatness(v(radius), v(j2), v(mass)))
        }),
{
    let (three, five, sesqui) = (
        F64 { bits: constants::THREE },
        F64 { bits: constants::FIVE },
        F64 { bits: constants::ONE_AND_HALF },
    );
    let p = read(v, rel_pos);
    let pole = Triple { x: 0real, y: 0real, z: 1real };
    let more = read(v, oblate(ops, rel_pos, radius, j2, mass));
    let r = rel_pos.length(ops);
    let cube = v(ops.one(Unary::InverseCube, r));
    let high = arithmetic::quotient(ops, rel_pos.z, r);
    let wide = arithmetic::quotient(ops, radius, r);
    let area = v(ops.one(Unary::Squared, wide));
    let q = v(arithmetic::product(ops, five, ops.one(Unary::Squared, high)));
    let (big, z) = (v(radius), p.z);
    lemma_distance(ops, v, rel_pos, d);
    let (d2, d3) = (d * d, d * (d * d));
    // the height
    rounding::lemma_factors(v(high), d, v(high), d);
    rounding::lemma_order(v(high) * v(high), d2, 1real);
    conics::lemma_swap(d2, 5real, v(high) * v(high));
    assert(d2 * q == 5real * (z * z));
    // the strength
    rounding::lemma_factors(v(wide), d, v(wide), d);
    rounding::lemma_order(area, d2, 1real);
    assert(d2 * area == big * big);
    let a = v(sesqui) * v(j2);
    let b = a * v(mass);
    let e = b * area;
    let coef = e * cube;
    rounding::lemma_order(d2, e, cube);
    rounding::lemma_order(d3, d2 * e, cube);
    rounding::lemma_order(d3, cube, d2 * e);
    rounding::lemma_order(d2 * e, cube, 1real);
    rounding::lemma_order(cube, d3, 1real);
    rounding::lemma_order(1real, d2 * e, 1real);
    rounding::lemma_minus(d2 * e, 1real);
    assert(d3 * (d2 * coef) == d2 * e);
    conics::lemma_swap(d2, b, area);
    rounding::lemma_order(b, big * big, 1real);
    let k = flatness(big, v(j2), v(mass));
    rounding::lemma_order(2real, b, big * big);
    rounding::lemma_order(2real, a, v(mass));
    rounding::lemma_order(2real, v(sesqui), v(j2));
    rounding::lemma_order(3real, v(j2), v(mass));
    assert(2real * (d3 * (d2 * coef)) == k);
    lemma_oblate_part(p.x, coef, q, 1real, d, z, k);
    lemma_oblate_part(p.y, coef, q, 1real, d, z, k);
    lemma_oblate_part(p.z, coef, q, 3real, d, z, k);
    // the same as vectors
    rounding::lemma_minus(p.x, 1real);
    rounding::lemma_minus(p.y, 1real);
    rounding::lemma_minus(z, 1real);
    rounding::lemma_minus(2real * (d2 * z), 1real);
    let h = 5real * (z * z) - d2;
    assert(pole.dot(p) == z) by {
        rounding::lemma_order(0real, p.x, 1real);
        rounding::lemma_order(0real, p.y, 1real);
        rounding::lemma_order(1real, p.z, 1real);
    }
    conics::lemma_foil(h, -(2real * d2), z, 0real);
    rounding::lemma_minus(h, 1real);
    rounding::lemma_minus(2real * d2, 1real);
    rounding::lemma_minus(-(2real * d2), 1real);
    rounding::lemma_order(-(2real * d2), z, 1real);
    rounding::lemma_minus(z, 2real * d2);
    rounding::lemma_order(z, 2real * d2, 1real);
    rounding::lemma_order(2real, d2, z);
    rounding::lemma_order(1real, d2, 1real);
    rounding::lemma_minus(d2, 1real);
}

/// Three times the oblateness, the mass and the square of the radius.
pub open spec fn flatness(radius: real, j2: real, mass: real) -> real {
    ((3real * j2) * mass) * (radius * radius)
}

/// Is an acceleration at `p` that of a body which is flat along its `pole`, at the distance `d`.
pub open spec fn bulges(p: Triple, pole: Triple, more: Triple, d: real, flat: real) -> bool {
    let z = pole.dot(p);
    let d2 = d * d;
    conics::times(2real * ((d * d2) * (d2 * d2)), more) == conics::times(
        flat,
        exact::minus(
            conics::times(5real * (z * z) - d2, p),
            conics::times(2real * (d2 * z), pole),
        ),
    )
}

/// The Earth adds to its pull what its oblateness makes, with the pole on the third axis.
pub proof fn law_shape_of_the_earth<A: Arithmetic>(
    ops: &A,
    v: Reading,
    body: GravParams,
    c: Constants,
    accel: Vector<Equatorial>,
    rel_pos: Vector<Equatorial>,
    rel_vel: Vector<Equatorial>,
    d: real,
)
    requires
        body.naif_id == 399,
        exact_oblate(ops, v, rel_pos, body.radius.widened(), c.earth_j2, body.mass),
        exact::sums(
            ops,
            v,
            accel,
            oblate(ops, rel_pos, body.radius.widened(), c.earth_j2, body.mass),
        ),
        0real <= d,
        d * d == read(v, rel_pos).dot(read(v, rel_pos)),
    ensures
        bulges(
            read(v, rel_pos),
            Triple { x: 0real, y: 0real, z: 1real },
            exact::minus(
                read(v, body.corrected(ops, c, accel, rel_pos, rel_vel)),
                read(v, accel),
            ),
            d,
            flatness(v(body.radius.widened()), v(c.earth_j2), v(body.mass)),
        ),
{
    law_oblateness(ops, v, rel_pos, body.radius.widened(), c.earth_j2, body.mass, d);
    let more = exact::minus(
        read(v, body.corrected(ops, c, accel, rel_pos, rel_vel)),
        read(v, accel),
    );
    assert(more == read(v, oblate(ops, rel_pos, body.radius.widened(), c.earth_j2, body.mass)));
}

/// The Sun and Jupiter add to their pull and to general relativity what their oblateness makes,
/// with the pole of the ecliptic as their pole: where the third axis of the ecliptic points.
pub proof fn law_shape_of_the_giants<A: Arithmetic>(
    ops: &A,
    v: Reading,
    body: GravParams,
    c: Constants,
    accel: Vector<Equatorial>,
    rel_pos: Vector<Equatorial>,
    rel_vel: Vector<Equatorial>,
    d: real,
)
    requires
        body.naif_id == 10 || body.naif_id == 5,
        v(F64 { bits: constants::ONE }) == 1real,
        exact::rotates(v, c.ecliptic),
        exact::applies(ops, v, c.ecliptic.transposed(), rel_pos),
        ({
            let j2 = if body.naif_id == 10 {
                c.sun_j2
            } else {
                c.jupiter_j2
            };
            let tilted = c.ecliptic.transposed().applied(ops, rel_pos);
            let pull = oblate(ops, tilted, body.radius.widened(), j2, body.mass);
            let bent = relativistic(ops, c, accel, rel_pos, rel_vel, body.mass);
            &&& exact_oblate(ops, v, tilted, body.radius.widened(), j2, body.mass)
            &&& exact::applies(ops, v, c.ecliptic, pull)
            &&& exact::sums(ops, v, bent, c.ecliptic.applied(ops, pull))
        }),
        0real <= d,
        d * d == read(v, rel_pos).dot(read(v, rel_pos)),
    ensures
        bulges(
            read(v, rel_pos),
            Triple { x: v(c.ecliptic.x.z), y: v(c.ecliptic.y.z), z: v(c.ecliptic.z.z) },
            exact::minus(
                read(v, body.corrected(ops, c, accel, rel_pos, rel_vel)),
                read(v, relativistic(ops, c, accel, rel_pos, rel_vel, body.mass)),
            ),
            d,
            flatness(
                v(body.radius.widened()),
                v(
                    if body.naif_id == 10 {
                        c.sun_j2
                    } else {
                        c.jupiter_j2
                    },
                ),
                v(body.mass),
            ),
        ),
{
    let j2 = if body.naif_id == 10 {
        c.sun_j2
    } else {
        c.jupiter_j2
    };
    let (p, e) = (read(v, rel_pos), c.ecliptic);
    let tilted = e.transposed().applied(ops, rel_pos);
    let pull = oblate(ops, tilted, body.radius.widened(), j2, body.mass);
    let q = read(v, tilted);
    let small = read(v, pull);
    let more = exact::minus(
        read(v, body.corrected(ops, c, accel, rel_pos, rel_vel)),
        read(v, relativistic(ops, c, accel, rel_pos, rel_vel, body.mass)),
    );
    let flat = flatness(v(body.radius.widened()), v(j2), v(body.mass));
    assert(q == exact::mapped(v, e.transposed(), p));
    exact::lemma_rotated_back(v, e, p);
    law_oblateness(ops, v, tilted, body.radius.widened(), j2, body.mass, d);
    let up = Triple { x: 0real, y: 0real, z: 1real };
    let pole = Triple { x: v(e.x.z), y: v(e.y.z), z: v(e.z.z) };
    assert(more == exact::mapped(v, e, small));
    // the third axis is mapped to the pole
    let (x, y, z) = (read(v, e.x), read(v, e.y), read(v, e.z));
    rounding::lemma_minus(x.x, 1real);
    rounding::lemma_minus(x.y, 1real);
    rounding::lemma_minus(x.z, 1real);
    rounding::lemma_minus(y.x, 1real);
    rounding::lemma_minus(y.y, 1real);
    rounding::lemma_minus(y.z, 1real);
    rounding::lemma_minus(z.x, 1real);
    rounding::lemma_minus(z.y, 1real);
    rounding::lemma_minus(z.z, 1real);
    assert(exact::mapped(v, e, up) == pole);
    rounding::lemma_order(0real, q.x, 1real);
    rounding::lemma_order(0real, q.y, 1real);
    rounding::lemma_order(1real, q.z, 1real);
    rounding::lemma_minus(q.x, 1real);
    rounding::lemma_minus(q.y, 1real);
    rounding::lemma_minus(q.z, 1real);
    assert(up.dot(q) == q.z);
    assert(q.z == pole.dot(p));
    // the law in the frame of the ecliptic, mapped
    let d2 = d * d;
    let k = 2real * ((d * d2) * (d2 * d2));
    let (f, g) = (5real * (q.z * q.z) - d2, 2real * (d2 * q.z));
    let inner = exact::minus(conics::times(f, q), conics::times(g, up));
    exact::lemma_mapped(v, e, k, small, k, small);
    exact::lemma_mapped(v, e, flat, inner, flat, inner);
    exact::lemma_mapped(v, e, f, q, g, up);
}

/// Are the operations exact by which the derivative of the pull of a point is found.
pub open spec fn exact_tide<A: Arithmetic>(
    ops: &A,
    v: Reading,
    d: Vector<Equatorial>,
    mass: F64,
) -> bool {
    let ident = Matrix3::<Equatorial>::unit();
    let three = F64 { bits: constants::THREE };
    let r = d.length(ops);
    let r2 = arithmetic::product(ops, r, r);
    let r3 = arithmetic::product(ops, r2, r);
    let r5 = arithmetic::product(ops, r2, r3);
    let (a, b) = (ident.scaled(ops, r2), d.scaled(ops, three).outer(ops, d));
    let m = a.difference(ops, b);
    let k = arithmetic::quotient(ops, mass, r5);
    &&& v(F64 { bits: constants::ZERO }) == 0real && v(F64 { bits: constants::ONE }) == 1real
    &&& v(three) == 3real
    &&& exact::measures(ops, v, d) && v(r) != 0real
    &&& orbits::multiplies(ops, v, r, r) && orbits::multiplies(ops, v, r2, r)
    &&& orbits::multiplies(ops, v, r2, r3) && orbits::divides(ops, v, mass, r5)
    &&& exact::scales(ops, v, ident.x, r2) && exact::scales(ops, v, ident.y, r2)
    &&& exact::scales(ops, v, ident.z, r2) && exact::scales(ops, v, d, three)
    &&& exact::scales(ops, v, d, d.scaled(ops, three).x)
    &&& exact::scales(ops, v, d, d.scaled(ops, three).y)
    &&& exact::scales(ops, v, d, d.scaled(ops, three).z)
    &&& exact::differs(ops, v, a.x, b.x) && exact::differs(ops, v, a.y, b.y)
    &&& exact::differs(ops, v, a.z, b.z)
    &&& exact::scales(ops, v, m.x, k) && exact::scales(ops, v, m.y, k)
    &&& exact::scales(ops, v, m.z, k)
}

/// One row of the derivative of the pull of a point, applied to a vector.
proof fn lemma_tide_row<A: Arithmetic>(
    ops: &A,
    v: Reading,
    e: Vector<Equatorial>,
    d: Vector<Equatorial>,
    r2: F64,
    j: F64,
    k: F64,
    r5: real,
    mass: real,
    x: Triple,
)
    requires
        exact::scales(ops, v, e, r2),
        exact::scales(ops, v, d, j),
        exact::differs(ops, v, e.scaled(ops, r2), d.scaled(ops, j)),
        exact::scales(ops, v, e.scaled(ops, r2).difference(ops, d.scaled(ops, j)), k),
        v(k) * r5 == mass,
    ensures
        r5 * read(
            v,
            e.scaled(ops, r2).difference(ops, d.scaled(ops, j)).scaled(ops, k),
        ).dot(x) == mass * (v(r2) * read(v, e).dot(x) - v(j) * read(v, d).dot(x)),
{
    let row = e.scaled(ops, r2).difference(ops, d.scaled(ops, j));
    exact::lemma_scaled(ops, v, e, r2);
    exact::lemma_scaled(ops, v, d, j);
    exact::lemma_scaled(ops, v, row, k);
    let (a, b) = (conics::times(v(r2), read(v, e)), conics::times(v(j), read(v, d)));
    assert(read(v, row) == exact::minus(a, b));
    exact::lemma_dot_times(x, v(k), read(v, row));
    exact::lemma_dot_plus(x, a, b);
    exact::lemma_dot_times(x, v(r2), read(v, e));
    exact::lemma_dot_times(x, v(j), read(v, d));
    exact::lemma_dot_order(x, read(v, e));
    exact::lemma_dot_order(x, read(v, d));
    rounding::lemma_order(r5, v(k), x.dot(read(v, row)));
    rounding::lemma_order(r5, v(k), 1real);
}

/// The pull of a point changes with the position like twice itself along the line to the point,
/// where it falls off, and like itself at right angles, where it turns.
pub proof fn law_tide<A: Arithmetic>(
    ops: &A,
    v: Reading,
    pos: Vector<Equatorial>,
    mass: F64,
    d: real,
    x: Triple,
)
    requires
        exact_tide(ops, v, pos, mass),
        0real <= d,
        d * d == read(v, pos).dot(read(v, pos)),
    ensures
        ({
            let p = read(v, pos);
            let lost = exact::mapped(v, point_mass(ops, pos, mass), x);
            let cube = d * (d * d);
            &&& conics::times(cube * (d * d), lost) == conics::times(
                v(mass),
                exact::minus(conics::times(d * d, x), conics::times(3real * p.dot(x), p)),
            )
            &&& x == p ==> conics::times(cube, lost) == conics::times(-2real * v(mass), p)
            &&& p.dot(x) == 0real ==> conics::times(cube, lost) == conics::times(v(mass), x)
        }),
{
    let p = read(v, pos);
    let ident = Matrix3::<Equatorial>::unit();
    let three = F64 { bits: constants::THREE };
    let r = pos.length(ops);
    let r2 = arithmetic::product(ops, r, r);
    let r3 = arithmetic::product(ops, r2, r);
    let r5 = arithmetic::product(ops, r2, r3);
    let k = arithmetic::quotient(ops, mass, r5);
    let tripled = pos.scaled(ops, three);
    let m = v(mass);
    lemma_distance(ops, v, pos, d);
    let (d2, cube) = (d * d, d * (d * d));
    rounding::lemma_order(d2, d, 1real);
    rounding::lemma_order(d2, cube, 1real);
    assert(v(r5) == cube * d2);
    let q = cube * d2;
    lemma_tide_row(ops, v, ident.x, pos, r2, tripled.x, k, q, m, x);
    lemma_tide_row(ops, v, ident.y, pos, r2, tripled.y, k, q, m, x);
    lemma_tide_row(ops, v, ident.z, pos, r2, tripled.z, k, q, m, x);
    exact::lemma_scaled(ops, v, pos, three);
    rounding::lemma_minus(x.x, 1real);
    rounding::lemma_minus(x.y, 1real);
    rounding::lemma_minus(x.z, 1real);
    rounding::lemma_order(0real, x.x, 1real);
    rounding::lemma_order(0real, x.y, 1real);
    rounding::lemma_order(0real, x.z, 1real);
    rounding::lemma_order(1real, x.x, 1real);
    rounding::lemma_order(1real, x.y, 1real);
    rounding::lemma_order(1real, x.z, 1real);
    assert(read(v, ident.x).dot(x) == x.x);
    assert(read(v, ident.y).dot(x) == x.y);
    assert(read(v, ident.z).dot(x) == x.z);
    let along = p.dot(x);
    rounding::lemma_order(3real, p.x, along);
    rounding::lemma_order(3real, p.y, along);
    rounding::lemma_order(3real, p.z, along);
    rounding::lemma_order(3real, along, p.x);
    rounding::lemma_order(3real, along, p.y);
    rounding::lemma_order(3real, along, p.z);
    rounding::lemma_order(p.x, along, 1real);
    rounding::lemma_order(p.y, along, 1real);
    rounding::lemma_order(p.z, along, 1real);
    let lost = exact::mapped(v, point_mass(ops, pos, mass), x);
    let w = exact::minus(conics::times(d2, x), conics::times(3real * along, p));
    assert(conics::times(q, lost) == conics::times(m, w));
    assert(0real < d2) by {
        conics::lemma_square(d);
    }
    exact::lemma_times_times(d2, cube, lost);
    rounding::lemma_order(d2, cube, 1real);
    assert(conics::times(d2, conics::times(cube, lost)) == conics::times(m, w));
    if x == p {
        assert(w == conics::times(-2real * d2, p)) by {
            rounding::lemma_spread(p.x, d2, -3real * d2, 0real);
            rounding::lemma_spread(p.y, d2, -3real * d2, 0real);
            rounding::lemma_spread(p.z, d2, -3real * d2, 0real);
            rounding::lemma_minus(p.x, 3real * d2);
            rounding::lemma_minus(p.y, 3real * d2);
            rounding::lemma_minus(p.z, 3real * d2);
            rounding::lemma_order(p.x, d2, 1real);
            rounding::lemma_order(p.y, d2, 1real);
            rounding::lemma_order(p.z, d2, 1real);
            rounding::lemma_order(p.x, 3real * d2, 1real);
            rounding::lemma_order(p.y, 3real * d2, 1real);
            rounding::lemma_order(p.z, 3real * d2, 1real);
            rounding::lemma_order(p.x, -2real * d2, 1real);
            rounding::lemma_order(p.y, -2real * d2, 1real);
            rounding::lemma_order(p.z, -2real * d2, 1real);
        }
        exact::lemma_times_times(m, -2real * d2, p);
        exact::lemma_times_times(d2, -2real * m, p);
        rounding::lemma_minus(d2, 2real * m);
        rounding::lemma_minus(m, 2real * d2);
        conics::lemma_swap(m, 2real, d2);
        conics::lemma_swap(d2, 2real, m);
        rounding::lemma_order(m, d2, 1real);
        exact::lemma_cancel_times(d2, conics::times(cube, lost), conics::times(-2real * m, p));
    }
    if along == 0real {
        rounding::lemma_order(0real, p.x, 1real);
        rounding::lemma_order(0real, p.y, 1real);
        rounding::lemma_order(0real, p.z, 1real);
        rounding::lemma_minus(p.x, 1real);
        rounding::lemma_minus(p.y, 1real);
        rounding::lemma_minus(p.z, 1real);
        assert(w == conics::times(d2, x));
        exact::lemma_times_times(m, d2, x);
        exact::lemma_times_times(d2, m, x);
        rounding::lemma_order(m, d2, 1real);
        exact::lemma_cancel_times(d2, conics::times(cube, lost), conics::times(m, x));
    }
}

/// What the shape of a body and general relativity do to a displacement `x`, for a body which is at
/// the position `d` and the velocity `w` relative to it.
pub open spec fn other_tides<A: Arithmetic>(
    ops: &A,
    v: Reading,
    body: GravParams,
    c: Constants,
    d: Vector<Equatorial>,
    w: Vector<Equatorial>,
    x: Triple,
) -> Triple {
    let radius = body.radius.widened();
    if body.naif_id == SUN || body.naif_id == JUPITER {
        let tilted = c.ecliptic.transposed().applied(ops, d);
        let j2 = oblate_jacobian(ops, tilted, radius, giant_j2(c, body.naif_id), body.mass);
        exact::plus(
            exact::mapped(v, relativistic_jacobians(ops, c, d, w, body.mass).pos, x),
            exact::mapped(
                v,
                c.ecliptic.multiplied(ops, j2).multiplied(ops, c.ecliptic.transposed()),
                x,
            ),
        )
    } else if body.naif_id == EARTH {
        exact::mapped(v, oblate_jacobian(ops, d, radius, c.earth_j2, body.mass), x)
    } else {
        exact::nothing()
    }
}

/// Are the operations exact by which the derivatives of the pull of a body are added.
pub open spec fn exact_jacobians<A: Arithmetic>(
    ops: &A,
    v: Reading,
    body: GravParams,
    c: Constants,
    so_far: Jacobians<Equatorial>,
    d: Vector<Equatorial>,
    w: Vector<Equatorial>,
) -> bool {
    let radius = body.radius.widened();
    let newton = so_far.pos.difference(ops, point_mass(ops, d, body.mass));
    &&& exact_tide(ops, v, d, body.mass)
    &&& exact::takes_off(ops, v, so_far.pos, point_mass(ops, d, body.mass))
    &&& if body.naif_id == SUN || body.naif_id == JUPITER {
        let gr = relativistic_jacobians(ops, c, d, w, body.mass);
        let tilted = c.ecliptic.transposed().applied(ops, d);
        let j2 = oblate_jacobian(ops, tilted, radius, giant_j2(c, body.naif_id), body.mass);
        let turned = c.ecliptic.multiplied(ops, j2).multiplied(ops, c.ecliptic.transposed());
        &&& exact::adds_up(ops, v, newton, gr.pos)
        &&& exact::adds_up(ops, v, newton.sum(ops, gr.pos), turned)
    } else if body.naif_id == EARTH {
        exact::adds_up(ops, v, newton, oblate_jacobian(ops, d, radius, c.earth_j2, body.mass))
    } else {
        true
    }
}

/// Every mass has a tide: what it adds to the derivative by the position, apart from what its
/// shape and general relativity add, stretches a displacement along the line to the mass by twice
/// the mass over the cube of the distance `r`, and squeezes one at right angles by once that.
pub proof fn law_every_mass_has_a_tide<A: Arithmetic>(
    ops: &A,
    v: Reading,
    body: GravParams,
    c: Constants,
    so_far: Jacobians<Equatorial>,
    at: Motion<Equatorial>,
    pos: Vector<Equatorial>,
    vel: Vector<Equatorial>,
    r: real,
    x: Triple,
)
    requires
        exact::differs(ops, v, pos, at.pos),
        exact_jacobians(
            ops,
            v,
            body,
            c,
            so_far,
            pos.difference(ops, at.pos),
            vel.difference(ops, at.vel),
        ),
        0real <= r,
        ({
            let p = exact::minus(read(v, pos), read(v, at.pos));
            r * r == p.dot(p)
        }),
    ensures
        ({
            let p = exact::minus(read(v, pos), read(v, at.pos));
            let all = body.with_jacobians(ops, c, so_far, at, pos, vel);
            let others = other_tides(
                ops,
                v,
                body,
                c,
                pos.difference(ops, at.pos),
                vel.difference(ops, at.vel),
                x,
            );
            let tide = exact::minus(
                exact::minus(exact::mapped(v, all.pos, x), exact::mapped(v, so_far.pos, x)),
                others,
            );
            let cube = r * (r * r);
            &&& x == p ==> conics::times(cube, tide) == conics::times(2real * v(body.mass), p)
            &&& p.dot(x) == 0real ==> conics::times(cube, tide) == conics::times(-v(body.mass), x)
        }),
{
    let d = pos.difference(ops, at.pos);
    let w = vel.difference(ops, at.vel);
    let p = read(v, d);
    assert(p == exact::minus(read(v, pos), read(v, at.pos)));
    let m = point_mass(ops, d, body.mass);
    let newton = so_far.pos.difference(ops, m);
    let radius = body.radius.widened();
    law_tide(ops, v, d, body.mass, r, x);
    exact::lemma_mapped_difference(ops, v, so_far.pos, m, x);
    if body.naif_id == SUN || body.naif_id == JUPITER {
        let gr = relativistic_jacobians(ops, c, d, w, body.mass);
        let tilted = c.ecliptic.transposed().applied(ops, d);
        let j2 = oblate_jacobian(ops, tilted, radius, giant_j2(c, body.naif_id), body.mass);
        let turned = c.ecliptic.multiplied(ops, j2).multiplied(ops, c.ecliptic.transposed());
        exact::lemma_mapped_sum(ops, v, newton, gr.pos, x);
        exact::lemma_mapped_sum(ops, v, newton.sum(ops, gr.pos), turned, x);
    } else if body.naif_id == EARTH {
        exact::lemma_mapped_sum(
            ops,
            v,
            newton,
            oblate_jacobian(ops, d, radius, c.earth_j2, body.mass),
            x,
        );
    }
    let all = body.with_jacobians(ops, c, so_far, at, pos, vel);
    let lost = exact::mapped(v, m, x);
    let tide = exact::minus(
        exact::minus(exact::mapped(v, all.pos, x), exact::mapped(v, so_far.pos, x)),
        other_tides(ops, v, body, c, d, w, x),
    );
    assert(tide == exact::minus(exact::nothing(), lost));
    let cube = r * (r * r);
    exact::lemma_times_plus(cube, exact::nothing(), lost);
    rounding::lemma_minus(cube, 1real);
    let n = v(body.mass);
    lemma_against(-2real * n, p);
    lemma_against(n, x);
}

/// A vector against a multiple of another.
proof fn lemma_against(k: real, a: Triple)
    ensures
        conics::times(-k, a) == exact::minus(exact::nothing(), conics::times(k, a)),
{
    rounding::lemma_minus(a.x, k);
    rounding::lemma_minus(a.y, k);
    rounding::lemma_minus(a.z, k);
    rounding::lemma_order(a.x, k, 1real);
    rounding::lemma_order(a.y, k, 1real);
    rounding::lemma_order(a.z, k, 1real);
    rounding::lemma_order(a.x, -k, 1real);
    rounding::lemma_order(a.y, -k, 1real);
    rounding::lemma_order(a.z, -k, 1real);
}

/// Are the operations exact by which the derivative of general relativity by the velocity is found.
pub open spec fn exact_bend<A: Arithmetic>(
    ops: &A,
    v: Reading,
    c: Constants,
    d: Vector<Equatorial>,
    w: Vector<Equatorial>,
    mass: F64,
) -> bool {
    let (two, four) = (F64 { bits: constants::TWO }, F64 { bits: constants::FOUR });
    let ident = Matrix3::<Equatorial>::unit();
    let r = d.length(ops);
    let r2 = arithmetic::product(ops, r, r);
    let r3 = arithmetic::product(ops, r2, r);
    let small = arithmetic::product(ops, mass, c.c_inv_squared);
    let kappa = arithmetic::quotient(ops, small, r3);
    let big_r = arithmetic::product(ops, four, d.dotted(ops, w));
    let (a, b) = (d.scaled(ops, two.negated()), w.scaled(ops, four));
    let both = a.outer(ops, w).sum(ops, b.outer(ops, d));
    &&& v(F64 { bits: constants::ZERO }) == 0real && v(F64 { bits: constants::ONE }) == 1real
    &&& v(two.negated()) == -2real && v(four) == 4real
    &&& exact::measures(ops, v, d)
    &&& orbits::multiplies(ops, v, r, r) && orbits::multiplies(ops, v, r2, r)
    &&& orbits::multiplies(ops, v, mass, c.c_inv_squared) && orbits::divides(ops, v, small, r3)
    &&& exact::dots(ops, v, d, w) && orbits::multiplies(ops, v, four, d.dotted(ops, w))
    &&& exact::scales(ops, v, d, two.negated()) && exact::scales(ops, v, w, four)
    &&& exact::outers(ops, v, a, w) && exact::outers(ops, v, b, d)
    &&& exact::adds_up(ops, v, a.outer(ops, w), b.outer(ops, d))
    &&& exact::grows(ops, v, ident, big_r)
    &&& exact::adds_up(ops, v, both, ident.scaled(ops, big_r))
    &&& exact::grows(ops, v, both.sum(ops, ident.scaled(ops, big_r)), kappa)
}

/// How what general relativity adds changes with the velocity: along `x` the push along the position
/// loses twice what the speed gains, the push along the velocity gains four times the radial part of
/// the change, and the change itself is pushed like the velocity.
pub proof fn law_relativity_by_velocity<A: Arithmetic>(
    ops: &A,
    v: Reading,
    c: Constants,
    pos: Vector<Equatorial>,
    vel: Vector<Equatorial>,
    mass: F64,
    d: real,
    x: Triple,
)
    requires
        exact_bend(ops, v, c, pos, vel, mass),
        0real <= d,
        d * d == read(v, pos).dot(read(v, pos)),
    ensures
        ({
            let (p, w) = (read(v, pos), read(v, vel));
            let change = exact::mapped(v, relativistic_jacobians(ops, c, pos, vel, mass).vel, x);
            conics::times(d * (d * d), change) == conics::times(
                v(mass) * v(c.c_inv_squared),
                exact::plus(
                    exact::plus(
                        conics::times(-2real * w.dot(x), p),
                        conics::times(4real * p.dot(x), w),
                    ),
                    conics::times(4real * p.dot(w), x),
                ),
            )
        }),
{
    let (p, w) = (read(v, pos), read(v, vel));
    let (two, four) = (F64 { bits: constants::TWO }, F64 { bits: constants::FOUR });
    let ident = Matrix3::<Equatorial>::unit();
    let r = pos.length(ops);
    let r2 = arithmetic::product(ops, r, r);
    let r3 = arithmetic::product(ops, r2, r);
    let small = arithmetic::product(ops, mass, c.c_inv_squared);
    let kappa = arithmetic::quotient(ops, small, r3);
    let big_r = arithmetic::product(ops, four, pos.dotted(ops, vel));
    let (a, b) = (pos.scaled(ops, two.negated()), vel.scaled(ops, four));
    let both = a.outer(ops, vel).sum(ops, b.outer(ops, pos));
    lemma_distance(ops, v, pos, d);
    exact::lemma_scaled(ops, v, pos, two.negated());
    exact::lemma_scaled(ops, v, vel, four);
    exact::lemma_mapped_outer(ops, v, a, vel, x);
    exact::lemma_mapped_outer(ops, v, b, pos, x);
    exact::lemma_mapped_sum(ops, v, a.outer(ops, vel), b.outer(ops, pos), x);
    let one = F64 { bits: constants::ONE };
    exact::lemma_mapped_diagonal::<Equatorial>(v, one, one, one, x);
    exact::lemma_times_one(x);
    exact::lemma_mapped_scaled(ops, v, ident, big_r, x);
    exact::lemma_mapped_sum(ops, v, both, ident.scaled(ops, big_r), x);
    exact::lemma_mapped_scaled(ops, v, both.sum(ops, ident.scaled(ops, big_r)), kappa, x);
    let (wx, px) = (w.dot(x), p.dot(x));
    exact::lemma_times_times(wx, -2real, p);
    exact::lemma_times_times(px, 4real, w);
    rounding::lemma_order(wx, -2real, 1real);
    rounding::lemma_order(px, 4real, 1real);
    let inner = exact::plus(
        exact::plus(conics::times(-2real * wx, p), conics::times(4real * px, w)),
        conics::times(4real * p.dot(w), x),
    );
    let change = exact::mapped(v, relativistic_jacobians(ops, c, pos, vel, mass).vel, x);
    assert(change == conics::times(v(kappa), inner));
    let cube = d * (d * d);
    rounding::lemma_order(d * d, d, 1real);
    rounding::lemma_order(v(kappa), cube, 1real);
    exact::lemma_times_times(cube, v(kappa), inner);
}

/// Are the operations exact by which the derivative of general relativity by the position is found.
pub open spec fn exact_curve<A: Arithmetic>(
    ops: &A,
    v: Reading,
    c: Constants,
    d: Vector<Equatorial>,
    w: Vector<Equatorial>,
    mass: F64,
) -> bool {
    let (three, four) = (F64 { bits: constants::THREE }, F64 { bits: constants::FOUR });
    let ident = Matrix3::<Equatorial>::unit();
    let r = d.length(ops);
    let r2 = arithmetic::product(ops, r, r);
    let r3 = arithmetic::product(ops, r2, r);
    let small = arithmetic::product(ops, mass, c.c_inv_squared);
    let kappa = arithmetic::quotient(ops, small, r3);
    let w2 = w.dotted(ops, w);
    let part = arithmetic::product(ops, four, mass);
    let over = arithmetic::quotient(ops, part, r);
    let big_c = arithmetic::difference(ops, over, w2);
    let big_r = arithmetic::product(ops, four, d.dotted(ops, w));
    let (e, f) = (d.scaled(ops, big_c), w.scaled(ops, big_r));
    let bent = e.sum(ops, f);
    let down = arithmetic::product(ops, three.negated(), kappa);
    let k1 = arithmetic::quotient(ops, down, r2);
    let less = arithmetic::product(ops, four.negated(), mass);
    let k2 = arithmetic::quotient(ops, less, r3);
    let m1 = bent.scaled(ops, k1).outer(ops, d);
    let m2 = d.scaled(ops, k2).outer(ops, d);
    let m3 = ident.scaled(ops, big_c);
    let m4 = w.scaled(ops, four).outer(ops, w);
    let m = m2.sum(ops, m3).sum(ops, m4);
    &&& v(F64 { bits: constants::ZERO }) == 0real && v(F64 { bits: constants::ONE }) == 1real
    &&& v(three.negated()) == -3real && v(four) == 4real && v(four.negated()) == -4real
    &&& exact::measures(ops, v, d)
    &&& orbits::multiplies(ops, v, r, r) && orbits::multiplies(ops, v, r2, r)
    &&& orbits::multiplies(ops, v, mass, c.c_inv_squared) && orbits::divides(ops, v, small, r3)
    &&& exact::dots(ops, v, w, w) && orbits::multiplies(ops, v, four, mass)
    &&& orbits::divides(ops, v, part, r) && orbits::subtracts(ops, v, over, w2)
    &&& exact::dots(ops, v, d, w) && orbits::multiplies(ops, v, four, d.dotted(ops, w))
    &&& exact::scales(ops, v, d, big_c) && exact::scales(ops, v, w, big_r)
    &&& exact::sums(ops, v, e, f)
    &&& orbits::multiplies(ops, v, three.negated(), kappa) && orbits::divides(ops, v, down, r2)
    &&& orbits::multiplies(ops, v, four.negated(), mass) && orbits::divides(ops, v, less, r3)
    &&& exact::scales(ops, v, bent, k1) && exact::outers(ops, v, bent.scaled(ops, k1), d)
    &&& exact::scales(ops, v, d, k2) && exact::outers(ops, v, d.scaled(ops, k2), d)
    &&& exact::grows(ops, v, ident, big_c)
    &&& exact::scales(ops, v, w, four) && exact::outers(ops, v, w.scaled(ops, four), w)
    &&& exact::adds_up(ops, v, m2, m3) && exact::adds_up(ops, v, m2.sum(ops, m3), m4)
    &&& exact::grows(ops, v, m, kappa)
    &&& exact::adds_up(ops, v, m1, m.scaled(ops, kappa))
}

/// How what general relativity adds changes with the position, along the line to the mass and at
/// right angles to it. With `bent` for what it adds and `still` for what it would add at rest, it
/// falls off along the line like twice the first and once the second. At right angles it turns,
/// and the push along the velocity grows with the speed across.
pub proof fn law_relativity_by_position<A: Arithmetic>(
    ops: &A,
    v: Reading,
    c: Constants,
    pos: Vector<Equatorial>,
    vel: Vector<Equatorial>,
    mass: F64,
    d: real,
    x: Triple,
)
    requires
        exact_curve(ops, v, c, pos, vel, mass),
        0real < d,
        d * d == read(v, pos).dot(read(v, pos)),
    ensures
        ({
            let (p, w) = (read(v, pos), read(v, vel));
            let small = v(mass) * v(c.c_inv_squared);
            let change = exact::mapped(v, relativistic_jacobians(ops, c, pos, vel, mass).pos, x);
            let fourth = d * (d * (d * d));
            let radial = 4real * v(mass) - d * w.dot(w);
            let bent = conics::times(
                small,
                exact::plus(
                    conics::times(radial, p),
                    conics::times(4real * (d * p.dot(w)), w),
                ),
            );
            let still = conics::times(small, conics::times(4real * v(mass), p));
            &&& x == p ==> conics::times(fourth, change) == exact::minus(
                conics::times(-2real, bent),
                still,
            )
            &&& p.dot(x) == 0real ==> conics::times(fourth, change) == conics::times(
                small,
                exact::plus(
                    conics::times(radial, x),
                    conics::times(4real * (d * w.dot(x)), w),
                ),
            )
        }),
{
    let (p, w) = (read(v, pos), read(v, vel));
    let (three, four) = (F64 { bits: constants::THREE }, F64 { bits: constants::FOUR });
    let ident = Matrix3::<Equatorial>::unit();
    let r = pos.length(ops);
    let r2 = arithmetic::product(ops, r, r);
    let r3 = arithmetic::product(ops, r2, r);
    let tiny = arithmetic::product(ops, mass, c.c_inv_squared);
    let kappa = arithmetic::quotient(ops, tiny, r3);
    let part = arithmetic::product(ops, four, mass);
    let over = arithmetic::quotient(ops, part, r);
    let big_c = arithmetic::difference(ops, over, vel.dotted(ops, vel));
    let big_r = arithmetic::product(ops, four, pos.dotted(ops, vel));
    let (e, f) = (pos.scaled(ops, big_c), vel.scaled(ops, big_r));
    let sum = e.sum(ops, f);
    let down = arithmetic::product(ops, three.negated(), kappa);
    let k1 = arithmetic::quotient(ops, down, r2);
    let less = arithmetic::product(ops, four.negated(), mass);
    let k2 = arithmetic::quotient(ops, less, r3);
    let m1 = sum.scaled(ops, k1).outer(ops, pos);
    let m2 = pos.scaled(ops, k2).outer(ops, pos);
    let m3 = ident.scaled(ops, big_c);
    let m4 = vel.scaled(ops, four).outer(ops, vel);
    let m = m2.sum(ops, m3).sum(ops, m4);
    lemma_distance(ops, v, pos, d);
    exact::lemma_scaled(ops, v, pos, big_c);
    exact::lemma_scaled(ops, v, vel, big_r);
    exact::lemma_scaled(ops, v, sum, k1);
    exact::lemma_scaled(ops, v, pos, k2);
    exact::lemma_scaled(ops, v, vel, four);
    exact::lemma_mapped_outer(ops, v, sum.scaled(ops, k1), pos, x);
    exact::lemma_mapped_outer(ops, v, pos.scaled(ops, k2), pos, x);
    exact::lemma_mapped_outer(ops, v, vel.scaled(ops, four), vel, x);
    let one = F64 { bits: constants::ONE };
    exact::lemma_mapped_diagonal::<Equatorial>(v, one, one, one, x);
    exact::lemma_times_one(x);
    exact::lemma_mapped_scaled(ops, v, ident, big_c, x);
    exact::lemma_mapped_sum(ops, v, m2, m3, x);
    exact::lemma_mapped_sum(ops, v, m2.sum(ops, m3), m4, x);
    exact::lemma_mapped_scaled(ops, v, m, kappa, x);
    exact::lemma_mapped_sum(ops, v, m1, m.scaled(ops, kappa), x);
    let (px, wx) = (p.dot(x), w.dot(x));
    let (k, cc, rr) = (v(kappa), v(big_c), v(big_r));
    let small = v(tiny);
    let q = exact::plus(conics::times(cc, p), conics::times(rr, w));
    let change = exact::mapped(v, relativistic_jacobians(ops, c, pos, vel, mass).pos, x);
    let (u1, u2) = (
        conics::times(px, conics::times(v(k1), q)),
        conics::times(px, conics::times(v(k2), p)),
    );
    let u4 = conics::times(wx, conics::times(4real, w));
    let inner = exact::plus(exact::plus(u2, conics::times(cc, x)), u4);
    assert(change == exact::plus(u1, conics::times(k, inner)));
    let (dd, cube) = (d * d, d * (d * d));
    let fourth = d * cube;
    rounding::lemma_order(dd, d, 1real);
    rounding::lemma_order(k, cube, 1real);
    assert(cube * k == small);
    let radial = 4real * v(mass) - d * w.dot(w);
    let b = p.dot(w);
    // the distance times the factor along the position
    let o = v(over);
    rounding::lemma_order(o, d, 1real);
    rounding::lemma_spread(d, o, -w.dot(w), 0real);
    rounding::lemma_minus(d, w.dot(w));
    rounding::lemma_minus(d, 1real);
    assert(d * cc == radial);
    conics::lemma_swap(d, 4real, b);
    assert(d * rr == 4real * (d * b));
    // both parts, times the fourth power of the distance
    exact::lemma_times_plus(fourth, u1, conics::times(k, inner));
    exact::lemma_times_times(fourth, k, inner);
    rounding::lemma_order(d, cube, k);
    rounding::lemma_order(d, small, 1real);
    assert(fourth * k == small * d);
    exact::lemma_times_times(small, d, inner);
    exact::lemma_times_plus(d, exact::plus(u2, conics::times(cc, x)), u4);
    exact::lemma_times_plus(d, u2, conics::times(cc, x));
    exact::lemma_times_times(d, cc, x);
    exact::lemma_times_times(wx, 4real, w);
    exact::lemma_times_times(d, wx * 4real, w);
    rounding::lemma_order(d, wx, 4real);
    rounding::lemma_order(d * wx, 4real, 1real);
    let turned = exact::plus(
        conics::times(radial, x),
        conics::times(4real * (d * wx), w),
    );
    if px == 0real {
        exact::lemma_times_one(conics::times(v(k1), q));
        exact::lemma_times_one(conics::times(v(k2), p));
        lemma_times_none(fourth);
        lemma_times_none(d);
        assert(conics::times(d, inner) == turned);
        assert(conics::times(fourth, change) == conics::times(small, turned));
    }
    if x == p {
        assert(px == dd);
        assert(wx == b) by {
            exact::lemma_dot_order(w, p);
        }
        // the fall off
        let j1 = v(k1);
        assert(j1 * dd == -3real * k);
        exact::lemma_times_times(dd, j1, q);
        rounding::lemma_order(dd, j1, 1real);
        assert(u1 == conics::times(-3real * k, q));
        exact::lemma_times_times(fourth, -3real * k, q);
        rounding::lemma_order(fourth, -3real, k);
        rounding::lemma_order(fourth, -3real, 1real);
        rounding::lemma_order(-3real, fourth, k);
        assert(fourth * (-3real * k) == -3real * (small * d));
        rounding::lemma_order(-3real, small, d);
        exact::lemma_times_times(-3real * small, d, q);
        exact::lemma_times_plus(d, conics::times(cc, p), conics::times(rr, w));
        exact::lemma_times_times(d, cc, p);
        exact::lemma_times_times(d, rr, w);
        let whole = exact::plus(
            conics::times(radial, p),
            conics::times(4real * (d * b), w),
        );
        assert(conics::times(d, q) == whole);
        assert(turned == whole);
        assert(conics::times(fourth, u1) == conics::times(-3real * small, whole));
        // the push at rest
        let j2 = v(k2);
        assert(j2 * cube == -4real * v(mass));
        exact::lemma_times_times(dd, j2, p);
        exact::lemma_times_times(d, dd * j2, p);
        rounding::lemma_order(d, dd, j2);
        rounding::lemma_order(j2, cube, 1real);
        let rest = conics::times(-4real * v(mass), p);
        assert(conics::times(d, u2) == rest);
        assert(conics::times(d, inner) == exact::plus(rest, whole));
        exact::lemma_times_plus(small, rest, whole);
        let (bent, still) = (
            conics::times(small, whole),
            conics::times(small, conics::times(4real * v(mass), p)),
        );
        exact::lemma_times_times(-3real, small, whole);
        exact::lemma_times_times(small, -4real * v(mass), p);
        exact::lemma_times_times(small, 4real * v(mass), p);
        rounding::lemma_minus(small, 4real * v(mass));
        let y = small * (4real * v(mass));
        rounding::lemma_minus(p.x, y);
        rounding::lemma_minus(p.y, y);
        rounding::lemma_minus(p.z, y);
        rounding::lemma_order(p.x, y, 1real);
        rounding::lemma_order(p.y, y, 1real);
        rounding::lemma_order(p.z, y, 1real);
        rounding::lemma_order(p.x, -y, 1real);
        rounding::lemma_order(p.y, -y, 1real);
        rounding::lemma_order(p.z, -y, 1real);
        assert(conics::times(small, rest) == exact::minus(exact::nothing(), still));
    }
}

/// A multiple of no vector.
proof fn lemma_times_none(k: real)
    ensures
        conics::times(k, exact::nothing()) == exact::nothing(),
{
    rounding::lemma_minus(k, 1real);
}

/// Are the operations exact by which the derivative of an oblate pull is found.
pub open spec fn exact_bulge<A: Arithmetic>(
    ops: &A,
    v: Reading,
    d: Vector<Equatorial>,
    radius: F64,
    j2: F64,
    mass: F64,
) -> bool {
    let (zero, one) = (F64 { bits: constants::ZERO }, F64 { bits: constants::ONE });
    let (three, five) = (F64 { bits: constants::THREE }, F64 { bits: constants::FIVE });
    let (ten, sesqui) = (F64 { bits: constants::TEN }, F64 { bits: constants::ONE_AND_HALF });
    let r = d.length(ops);
    let r2 = arithmetic::product(ops, r, r);
    let r3 = arithmetic::product(ops, r2, r);
    let z = d.z;
    let s1 = arithmetic::product(ops, sesqui, j2);
    let s2 = arithmetic::product(ops, s1, mass);
    let wide = arithmetic::quotient(ops, radius, r);
    let area = ops.one(Unary::Squared, wide);
    let s3 = arithmetic::product(ops, s2, area);
    let lambda = arithmetic::quotient(ops, s3, r3);
    let z1 = arithmetic::product(ops, five, z);
    let z2 = arithmetic::product(ops, z1, z);
    let big_z = arithmetic::quotient(ops, z2, r2);
    let (f1, f3) = (
        arithmetic::difference(ops, big_z, one),
        arithmetic::difference(ops, big_z, three),
    );
    let a_norm: Vector<Equatorial> = frames::vector(
        arithmetic::product(ops, d.x, f1),
        arithmetic::product(ops, d.y, f1),
        arithmetic::product(ops, d.z, f3),
    );
    let diag = Matrix3::<Equatorial>::diagonal(f1, f1, f3);
    let up: Vector<Equatorial> = frames::vector(zero, zero, one);
    let h = arithmetic::quotient(ops, z, r2);
    let tilt = up.difference(ops, d.scaled(ops, h));
    let g1 = arithmetic::product(ops, ten, z);
    let g = arithmetic::quotient(ops, g1, r2);
    let dz = tilt.scaled(ops, g);
    let k5 = arithmetic::quotient(ops, five.negated(), r2);
    let m1 = a_norm.scaled(ops, k5).outer(ops, d);
    let m = m1.sum(ops, diag);
    &&& v(zero) == 0real && v(one) == 1real && v(three) == 3real && v(five) == 5real
    &&& v(five.negated()) == -5real && v(ten) == 10real && 2real * v(sesqui) == 3real
    &&& exact::measures(ops, v, d) && v(r) != 0real
    &&& orbits::multiplies(ops, v, r, r) && orbits::multiplies(ops, v, r2, r)
    &&& orbits::multiplies(ops, v, sesqui, j2) && orbits::multiplies(ops, v, s1, mass)
    &&& orbits::divides(ops, v, radius, r) && orbits::squares(ops, v, wide)
    &&& orbits::multiplies(ops, v, s2, area) && orbits::divides(ops, v, s3, r3)
    &&& orbits::multiplies(ops, v, five, z) && orbits::multiplies(ops, v, z1, z)
    &&& orbits::divides(ops, v, z2, r2)
    &&& orbits::subtracts(ops, v, big_z, one) && orbits::subtracts(ops, v, big_z, three)
    &&& orbits::multiplies(ops, v, d.x, f1) && orbits::multiplies(ops, v, d.y, f1)
    &&& orbits::multiplies(ops, v, d.z, f3)
    &&& orbits::divides(ops, v, z, r2) && exact::scales(ops, v, d, h)
    &&& exact::differs(ops, v, up, d.scaled(ops, h))
    &&& orbits::multiplies(ops, v, ten, z) && orbits::divides(ops, v, g1, r2)
    &&& exact::scales(ops, v, tilt, g)
    &&& orbits::divides(ops, v, five.negated(), r2)
    &&& exact::scales(ops, v, a_norm, k5) && exact::outers(ops, v, a_norm.scaled(ops, k5), d)
    &&& exact::adds_up(ops, v, m1, diag) && exact::outers(ops, v, d, dz)
    &&& exact::adds_up(ops, v, m, d.outer(ops, dz))
    &&& exact::grows(ops, v, m.sum(ops, d.outer(ops, dz)), lambda)
}

/// How the pull which the oblateness of a body makes changes with the position. Along the line to
/// the body it falls off like four times itself. At right angles it turns, and it changes with the
/// height above the equator.
pub proof fn law_oblateness_by_position<A: Arithmetic>(
    ops: &A,
    v: Reading,
    pos: Vector<Equatorial>,
    radius: F64,
    j2: F64,
    mass: F64,
    d: real,
    x: Triple,
)
    requires
        exact_bulge(ops, v, pos, radius, j2, mass),
        0real <= d,
        d * d == read(v, pos).dot(read(v, pos)),
    ensures
        ({
            let p = read(v, pos);
            let pole = Triple { x: 0real, y: 0real, z: 1real };
            let flat = flatness(v(radius), v(j2), v(mass));
            let change = exact::mapped(v, oblate_jacobian(ops, pos, radius, j2, mass), x);
            let d2 = d * d;
            let far = 2real * ((d * d2) * (d2 * d2));
            &&& x == p ==> bulges(p, pole, conics::times(-1real / 4real, change), d, flat)
            &&& p.dot(x) == 0real ==> conics::times(far, change) == conics::times(
                flat,
                exact::plus(
                    exact::minus(
                        conics::times(5real * (p.z * p.z) - d2, x),
                        conics::times(2real * (d2 * x.z), pole),
                    ),
                    conics::times(10real * (p.z * x.z), p),
                ),
            )
        }),
{
    let p = read(v, pos);
    let pole = Triple { x: 0real, y: 0real, z: 1real };
    let flat = flatness(v(radius), v(j2), v(mass));
    let change = exact::mapped(v, oblate_jacobian(ops, pos, radius, j2, mass), x);
    let (zero, one) = (F64 { bits: constants::ZERO }, F64 { bits: constants::ONE });
    let (three, five) = (F64 { bits: constants::THREE }, F64 { bits: constants::FIVE });
    let (ten, sesqui) = (F64 { bits: constants::TEN }, F64 { bits: constants::ONE_AND_HALF });
    let r = pos.length(ops);
    let r2 = arithmetic::product(ops, r, r);
    let r3 = arithmetic::product(ops, r2, r);
    let s1 = arithmetic::product(ops, sesqui, j2);
    let s2 = arithmetic::product(ops, s1, mass);
    let wide = arithmetic::quotient(ops, radius, r);
    let area = ops.one(Unary::Squared, wide);
    let s3 = arithmetic::product(ops, s2, area);
    let lambda = arithmetic::quotient(ops, s3, r3);
    let z1 = arithmetic::product(ops, five, pos.z);
    let z2 = arithmetic::product(ops, z1, pos.z);
    let big_z = arithmetic::quotient(ops, z2, r2);
    let (f1, f3) = (
        arithmetic::difference(ops, big_z, one),
        arithmetic::difference(ops, big_z, three),
    );
    let a_norm: Vector<Equatorial> = frames::vector(
        arithmetic::product(ops, pos.x, f1),
        arithmetic::product(ops, pos.y, f1),
        arithmetic::product(ops, pos.z, f3),
    );
    let diag = Matrix3::<Equatorial>::diagonal(f1, f1, f3);
    let up: Vector<Equatorial> = frames::vector(zero, zero, one);
    let h = arithmetic::quotient(ops, pos.z, r2);
    let tilt = up.difference(ops, pos.scaled(ops, h));
    let g1 = arithmetic::product(ops, ten, pos.z);
    let g = arithmetic::quotient(ops, g1, r2);
    let dz = tilt.scaled(ops, g);
    let k5 = arithmetic::quotient(ops, five.negated(), r2);
    let m1 = a_norm.scaled(ops, k5).outer(ops, pos);
    let m = m1.sum(ops, diag);
    lemma_distance(ops, v, pos, d);
    assert(0real < d);
    let (d2, cube) = (d * d, d * (d * d));
    rounding::lemma_order(d2, d, 1real);
    conics::lemma_positive(d, d);
    // the strength
    let (big, a) = (v(radius), v(area));
    rounding::lemma_factors(v(wide), d, v(wide), d);
    rounding::lemma_order(a, d2, 1real);
    assert(a * d2 == big * big);
    let l = v(lambda);
    assert(l * cube == v(s2) * a);
    rounding::lemma_order(l, cube, d2);
    rounding::lemma_order(v(s2), a, d2);
    rounding::lemma_order(2real, v(sesqui), v(j2));
    rounding::lemma_order(2real, v(s1), v(mass));
    rounding::lemma_order(2real, v(s2), big * big);
    assert(2real * (l * (cube * d2)) == flat);
    let far = 2real * (cube * (d2 * d2));
    rounding::lemma_order(cube, d2, d2);
    rounding::lemma_order(l, cube * d2, d2);
    rounding::lemma_order(2real, l * (cube * d2), d2);
    rounding::lemma_order(2real, cube * (d2 * d2), l);
    rounding::lemma_order(l, cube * (d2 * d2), 1real);
    assert(far * l == flat * d2);
    // the derivative, part by part
    exact::lemma_scaled(ops, v, a_norm, k5);
    exact::lemma_mapped_outer(ops, v, a_norm.scaled(ops, k5), pos, x);
    exact::lemma_mapped_diagonal::<Equatorial>(v, f1, f1, f3, x);
    exact::lemma_mapped_sum(ops, v, m1, diag, x);
    exact::lemma_scaled(ops, v, pos, h);
    exact::lemma_scaled(ops, v, tilt, g);
    exact::lemma_mapped_outer(ops, v, pos, dz, x);
    exact::lemma_mapped_sum(ops, v, m, pos.outer(ops, dz), x);
    exact::lemma_mapped_scaled(ops, v, m.sum(ops, pos.outer(ops, dz)), lambda, x);
    let (px, zz) = (p.dot(x), v(big_z));
    let n = read(v, a_norm);
    let (e1, e3) = (zz - 1real, zz - 3real);
    let fx = Triple { x: e1 * x.x, y: e1 * x.y, z: e3 * x.z };
    let t = read(v, dz).dot(x);
    let u1 = conics::times(px, conics::times(v(k5), n));
    let inner = exact::plus(exact::plus(u1, fx), conics::times(t, p));
    assert(change == conics::times(l, inner));
    exact::lemma_times_times(far, l, inner);
    exact::lemma_times_times(flat, d2, inner);
    assert(conics::times(far, change) == conics::times(flat, conics::times(d2, inner)));
    // the square of the distance times the parts
    let pz = p.z;
    rounding::lemma_order(5real, pz, pz);
    assert(zz * d2 == 5real * (pz * pz));
    rounding::lemma_order(zz, d2, 1real);
    let w1 = 5real * (pz * pz) - d2;
    rounding::lemma_spread(d2, zz, -1real, 0real);
    rounding::lemma_spread(d2, zz, -3real, 0real);
    rounding::lemma_minus(d2, 1real);
    rounding::lemma_minus(d2, 3real);
    rounding::lemma_order(d2, 3real, 1real);
    assert(d2 * e1 == w1);
    assert(d2 * e3 == w1 - 2real * d2);
    exact::lemma_times_plus(d2, exact::plus(u1, fx), conics::times(t, p));
    exact::lemma_times_plus(d2, u1, fx);
    exact::lemma_times_times(d2, t, p);
    // the tilt
    let up_t = read(v, up);
    let tt = read(v, tilt);
    let hp = conics::times(v(h), p);
    assert(tt == exact::minus(up_t, hp));
    exact::lemma_dot_times(x, v(g), tt);
    exact::lemma_dot_plus(x, up_t, hp);
    exact::lemma_dot_times(x, v(h), p);
    exact::lemma_dot_order(x, p);
    rounding::lemma_minus(x.x, 1real);
    rounding::lemma_minus(x.y, 1real);
    rounding::lemma_minus(x.z, 1real);
    assert(x.dot(up_t) == x.z);
    assert(t == v(g) * (x.z - v(h) * px));
    // the diagonal
    rounding::lemma_order(d2, e1, x.x);
    rounding::lemma_order(d2, e1, x.y);
    rounding::lemma_order(d2, e3, x.z);
    rounding::lemma_spread(x.z, w1, -(2real * d2), 0real);
    rounding::lemma_minus(x.z, 2real * d2);
    rounding::lemma_order(x.z, w1, 1real);
    rounding::lemma_order(x.z, 2real * d2, 1real);
    rounding::lemma_order(x.z, w1 - 2real * d2, 1real);
    rounding::lemma_order(2real, d2, x.z);
    let turned = exact::minus(
        conics::times(w1, x),
        conics::times(2real * (d2 * x.z), pole),
    );
    rounding::lemma_minus(2real * (d2 * x.z), 1real);
    assert(conics::times(d2, fx) == turned);
    if px == 0real {
        exact::lemma_times_one(conics::times(v(k5), n));
        lemma_times_none(d2);
        rounding::lemma_minus(v(h), 1real);
        assert(t == v(g) * x.z);
        assert(v(g) * d2 == 10real * pz);
        rounding::lemma_order(d2, v(g), x.z);
        rounding::lemma_order(v(g), d2, 1real);
        rounding::lemma_order(10real, pz, x.z);
        assert(d2 * t == 10real * (pz * x.z));
        assert(conics::times(d2, inner) == exact::plus(
            turned,
            conics::times(10real * (pz * x.z), p),
        ));
    }
    if x == p {
        assert(px == d2);
        // no tilt along the line
        assert(v(h) * d2 == pz);
        rounding::lemma_minus(v(g), 1real);
        assert(t == 0real);
        rounding::lemma_minus(d2, 1real);
        exact::lemma_times_one(p);
        // the fall off
        assert(v(k5) * d2 == -5real);
        exact::lemma_times_times(d2, v(k5), n);
        rounding::lemma_order(d2, v(k5), 1real);
        assert(u1 == conics::times(-5real, n));
        rounding::lemma_order(p.x, e1, 1real);
        rounding::lemma_order(p.y, e1, 1real);
        rounding::lemma_order(p.z, e3, 1real);
        assert(n == fx);
        exact::lemma_times_times(d2, -5real, n);
        exact::lemma_times_times(-5real, d2, n);
        rounding::lemma_order(d2, -5real, 1real);
        assert(conics::times(d2, u1) == conics::times(-5real, turned));
        assert(conics::times(d2, inner) == conics::times(-4real, turned));
        let quarter = -1real / 4real;
        assert(quarter * -4real == 1real);
        let less = conics::times(quarter, change);
        exact::lemma_times_times(far, quarter, change);
        exact::lemma_times_times(quarter, far, change);
        rounding::lemma_order(far, quarter, 1real);
        exact::lemma_times_times(quarter, flat, conics::times(-4real, turned));
        exact::lemma_times_times(flat, quarter, conics::times(-4real, turned));
        rounding::lemma_order(flat, quarter, 1real);
        exact::lemma_times_times(quarter, -4real, turned);
        exact::lemma_times_one(turned);
        rounding::lemma_order(0real, p.x, 1real);
        rounding::lemma_order(0real, p.y, 1real);
        rounding::lemma_order(1real, pz, 1real);
        rounding::lemma_minus(p.x, 1real);
        rounding::lemma_minus(p.y, 1real);
        rounding::lemma_minus(pz, 1real);
        assert(pole.dot(p) == pz);
    }
}

/// The derivative of the oblate pull of a giant is that in the frame of the ecliptic: a displacement
/// is turned there, and what comes of it is turned back.
pub proof fn law_giants_are_tilted<A: Arithmetic>(
    ops: &A,
    v: Reading,
    c: Constants,
    j: Matrix3<Equatorial>,
    x: Triple,
)
    requires
        exact::composes(ops, v, c.ecliptic, j),
        exact::composes(ops, v, c.ecliptic.multiplied(ops, j), c.ecliptic.transposed()),
    ensures
        exact::mapped(
            v,
            c.ecliptic.multiplied(ops, j).multiplied(ops, c.ecliptic.transposed()),
            x,
        ) == exact::mapped(
            v,
            c.ecliptic,
            exact::mapped(v, j, exact::mapped(v, c.ecliptic.transposed(), x)),
        ),
{
    exact::law_product_of_matrices(
        ops,
        v,
        c.ecliptic.multiplied(ops, j),
        c.ecliptic.transposed(),
        x,
    );
    exact::law_product_of_matrices(
        ops,
        v,
        c.ecliptic,
        j,
        exact::mapped(v, c.ecliptic.transposed(), x),
    );
}

/// The derivatives of the pull of the first `n` bodies.
pub open spec fn gravity_jacobians<A: Arithmetic>(
    ops: &A,
    c: Constants,
    pos: Vector<Equatorial>,
    vel: Vector<Equatorial>,
    cached_states: Seq<Motion<Equatorial>>,
    massive_obj: Seq<GravParams>,
    n: int,
) -> Jacobians<Equatorial>
    decreases n,
{
    if n <= 0 {
        Jacobians { pos: Matrix3::empty(), vel: Matrix3::empty() }
    } else {
        massive_obj[n - 1].with_jacobians(
            ops,
            c,
            gravity_jacobians(ops, c, pos, vel, cached_states, massive_obj, n - 1),
            cached_states[n - 1],
            pos,
            vel,
        )
    }
}

/// Each body has its tide where it is: with body `n - 1`, which is at the place of the same index, the
/// derivative by the position is that of the bodies before and the tide of that body.
pub proof fn law_each_body_has_its_tide<A: Arithmetic>(
    ops: &A,
    v: Reading,
    c: Constants,
    pos: Vector<Equatorial>,
    vel: Vector<Equatorial>,
    places: Seq<Motion<Equatorial>>,
    bodies: Seq<GravParams>,
    n: int,
    r: real,
    x: Triple,
)
    requires
        0 < n <= places.len(),
        n <= bodies.len(),
        exact::differs(ops, v, pos, places[n - 1].pos),
        exact_jacobians(
            ops,
            v,
            bodies[n - 1],
            c,
            gravity_jacobians(ops, c, pos, vel, places, bodies, n - 1),
            pos.difference(ops, places[n - 1].pos),
            vel.difference(ops, places[n - 1].vel),
        ),
        0real <= r,
        ({
            let p = exact::minus(read(v, pos), read(v, places[n - 1].pos));
            r * r == p.dot(p)
        }),
    ensures
        ({
            let p = exact::minus(read(v, pos), read(v, places[n - 1].pos));
            let m = v(bodies[n - 1].mass);
            let all = gravity_jacobians(ops, c, pos, vel, places, bodies, n);
            let before = gravity_jacobians(ops, c, pos, vel, places, bodies, n - 1);
            let others = other_tides(
                ops,
                v,
                bodies[n - 1],
                c,
                pos.difference(ops, places[n - 1].pos),
                vel.difference(ops, places[n - 1].vel),
                x,
            );
            let tide = exact::minus(
                exact::minus(exact::mapped(v, all.pos, x), exact::mapped(v, before.pos, x)),
                others,
            );
            let cube = r * (r * r);
            &&& x == p ==> conics::times(cube, tide) == conics::times(2real * m, p)
            &&& p.dot(x) == 0real ==> conics::times(cube, tide) == conics::times(-m, x)
        }),
{
    law_every_mass_has_a_tide(
        ops,
        v,
        bodies[n - 1],
        c,
        gravity_jacobians(ops, c, pos, vel, places, bodies, n - 1),
        places[n - 1],
        pos,
        vel,
        r,
        x,
    );
}

/// The derivatives of the pull of the bodies, each of which is at the place of the same
/// index. Bodies without a place, and places without a body, are left out.
pub fn analytical_jacobians<A: Arithmetic>(
    ops: &A,
    c: Constants,
    pos: Vector<Equatorial>,
    vel: Vector<Equatorial>,
    cached_states: &[Motion<Equatorial>],
    massive_obj: &[GravParams],
) -> (r: Jacobians<Equatorial>)
    requires
        ops.lawful(),
    ensures
        r == gravity_jacobians(
            ops,
            c,
            pos,
            vel,
            cached_states@,
            massive_obj@,
            if cached_states@.len() < massive_obj@.len() {
                cached_states@.len() as int
            } else {
                massive_obj@.len() as int
            },
        ),
{
    let mut sum = Jacobians { pos: Matrix3::zeros(), vel: Matrix3::zeros() };
    let mut i: usize = 0;
    while i < massive_obj.len() && i < cached_states.len()
        invariant
            ops.lawful(),
            i <= massive_obj@.len(),
            i <= cached_states@.len(),
            sum == gravity_jacobians(
                ops,
                c,
                pos,
                vel,
                cached_states@,
                massive_obj@,
                i as int,
            ),
        decreases massive_obj@.len() - i,
    {
        sum = massive_obj[i].add_jacobians(ops, c, sum, cached_states[i], pos, vel);
        i = i + 1;
    }
    sum
}

// ---------------------------------------------------------------------------
// The bodies that are taken into account
// ---------------------------------------------------------------------------

/// The first body with a NAIF id.
pub open spec fn found(bodies: Seq<GravParams>, naif_id: i32) -> Option<GravParams>
    decreases bodies.len(),
{
    if bodies.len() == 0 {
        None
    } else if bodies[0].naif_id == naif_id {
        Some(bodies[0])
    } else {
        found(bodies.skip(1), naif_id)
    }
}

/// A body is found if and only if one has the id.
pub proof fn lemma_found(bodies: Seq<GravParams>, naif_id: i32)
    ensures
        match found(bodies, naif_id) {
            Some(p) => p.naif_id == naif_id && bodies.contains(p),
            None => forall|i: int| 0 <= i < bodies.len() ==> bodies[i].naif_id != naif_id,
        },
    decreases bodies.len(),
{
    if bodies.len() > 0 && bodies[0].naif_id != naif_id {
        let rest = bodies.skip(1);
        lemma_found(rest, naif_id);
        match found(rest, naif_id) {
            Some(p) => {
                let i = choose|i: int| 0 <= i < rest.len() && rest[i] == p;
                assert(bodies[i + 1] == p);
            },
            None => {
                assert forall|i: int| 0 <= i < bodies.len() implies bodies[i].naif_id
                    != naif_id by {
                    if i > 0 {
                        assert(rest[i - 1] == bodies[i]);
                    }
                }
            },
        }
    }
}

/// Find the first body with a NAIF id.
pub fn find(bodies: &[GravParams], naif_id: i32) -> (r: Option<GravParams>)
    ensures
        r == found(bodies@, naif_id),
{
    let mut i: usize = 0;
    assert(bodies@.skip(0) =~= bodies@);
    while i < bodies.len()
        invariant
            i <= bodies@.len(),
            found(bodies@, naif_id) == found(bodies@.skip(i as int), naif_id),
        decreases bodies@.len() - i,
    {
        if bodies[i].naif_id == naif_id {
            return Some(bodies[i]);
        }
        assert(bodies@.skip(i as int).skip(1) =~= bodies@.skip(i + 1));
        i = i + 1;
    }
    None
}

/// The bodies with the given ids, in the order of the ids, without those that are not known.
pub open spec fn selection(known: Seq<GravParams>, ids: Seq<i32>) -> Seq<GravParams>
    decreases ids.len(),
{
    if ids.len() == 0 {
        Seq::empty()
    } else {
        let rest = selection(known, ids.drop_last());
        match found(known, ids.last()) {
            Some(p) => rest.push(p),
            None => rest,
        }
    }
}

/// The bodies with the given ids, in the order of the ids, without those that are not known.
pub fn select_by_naif_id(known: &[GravParams], ids: &[i32]) -> (r: Vec<GravParams>)
    ensures
        r@ == selection(known@, ids@),
{
    let mut r: Vec<GravParams> = Vec::new();
    let mut i: usize = 0;
    while i < ids.len()
        invariant
            i <= ids@.len(),
            r@ == selection(known@, ids@.take(i as int)),
        decreases ids@.len() - i,
    {
        assert(ids@.take(i + 1).drop_last() =~= ids@.take(i as int));
        match find(known, ids[i]) {
            Some(p) => {
                r.push(p);
            },
            None => {},
        }
        i = i + 1;
    }
    assert(ids@.take(i as int) =~= ids@);
    r
}

/// Are the masses in ascending order.
pub open spec fn ascending(bodies: Seq<GravParams>) -> bool {
    forall|i: int, j: int|
        0 <= i < j < bodies.len() ==> bodies[i].mass.total_rank() <= bodies[j].mass.total_rank()
}

/// Does no NAIF id occur twice.
pub open spec fn distinct(bodies: Seq<GravParams>) -> bool {
    forall|i: int, j: int|
        0 <= i < j < bodies.len() ==> bodies[i].naif_id != bodies[j].naif_id
}

/// Where a body goes among bodies in ascending order: behind the last that is not heavier.
pub open spec fn place(bodies: Seq<GravParams>, body: GravParams) -> int
    decreases bodies.len(),
{
    if bodies.len() == 0 || bodies.last().mass.total_rank() <= body.mass.total_rank() {
        bodies.len() as int
    } else {
        place(bodies.drop_last(), body)
    }
}

/// The bodies with one more at its place.
pub open spec fn placed(bodies: Seq<GravParams>, body: GravParams) -> Seq<GravParams> {
    bodies.insert(place(bodies, body), body)
}

/// The place of a body is within the bodies, behind those that are not heavier.
pub proof fn lemma_place(bodies: Seq<GravParams>, body: GravParams)
    ensures
        0 <= place(bodies, body) <= bodies.len(),
        forall|i: int|
            place(bodies, body) <= i < bodies.len() ==> body.mass.total_rank()
                < bodies[i].mass.total_rank(),
        place(bodies, body) > 0 ==> bodies[place(bodies, body) - 1].mass.total_rank()
            <= body.mass.total_rank(),
    decreases bodies.len(),
{
    if !(bodies.len() == 0 || bodies.last().mass.total_rank() <= body.mass.total_rank()) {
        let rest = bodies.drop_last();
        lemma_place(rest, body);
        assert forall|i: int| place(bodies, body) <= i < bodies.len() implies body.mass.total_rank()
            < bodies[i].mass.total_rank() by {
            if i < rest.len() {
                assert(rest[i] == bodies[i]);
            }
        }
    }
}

/// One more body at its place keeps the order.
pub proof fn lemma_placed_ascending(bodies: Seq<GravParams>, body: GravParams)
    requires
        ascending(bodies),
    ensures
        ascending(placed(bodies, body)),
        placed(bodies, body).len() == bodies.len() + 1,
{
    lemma_place(bodies, body);
    let k = place(bodies, body);
    let after = placed(bodies, body);
    assert forall|i: int, j: int| 0 <= i < j < after.len() implies after[i].mass.total_rank()
        <= after[j].mass.total_rank() by {
        let a = if i < k {
            i
        } else {
            i - 1
        };
        let b = if j < k {
            j
        } else {
            j - 1
        };
        if i == k {
            assert(after[i] == body);
            assert(after[j] == bodies[b]);
        } else if j == k {
            assert(after[i] == bodies[a]);
            assert(after[j] == body);
        } else {
            assert(after[i] == bodies[a]);
            assert(after[j] == bodies[b]);
        }
    }
}

/// Put one more body at its place.
fn insert_in_order(bodies: &mut Vec<GravParams>, body: GravParams)
    requires
        old(bodies)@.len() < usize::MAX,
    ensures
        final(bodies)@ == placed(old(bodies)@, body),
{
    let mut k: usize = bodies.len();
    assert(bodies@.take(k as int) =~= bodies@);
    while k > 0 && body.mass.total_less(bodies[k - 1].mass)
        invariant
            k <= bodies@.len(),
            place(bodies@, body) == place(bodies@.take(k as int), body),
        decreases k,
    {
        assert(bodies@.take(k as int).drop_last() =~= bodies@.take(k - 1));
        k = k - 1;
    }
    bodies.insert(k, body);
}

/// The bodies in ascending order of their masses, those of the same mass in the order in
/// which they were.
pub open spec fn sorted(bodies: Seq<GravParams>) -> Seq<GravParams>
    decreases bodies.len(),
{
    if bodies.len() == 0 {
        Seq::empty()
    } else {
        placed(sorted(bodies.drop_last()), bodies.last())
    }
}

/// Sorting puts the masses in ascending order and keeps every body.
pub proof fn law_sorted(bodies: Seq<GravParams>)
    ensures
        ascending(sorted(bodies)),
        sorted(bodies).len() == bodies.len(),
        sorted(bodies).to_multiset() == bodies.to_multiset(),
    decreases bodies.len(),
{
    if bodies.len() > 0 {
        let rest = sorted(bodies.drop_last());
        law_sorted(bodies.drop_last());
        lemma_placed_ascending(rest, bodies.last());
        lemma_place(rest, bodies.last());
        rest.to_multiset_ensures();
        vstd::seq_lib::to_multiset_insert(rest, place(rest, bodies.last()), bodies.last());
        vstd::seq_lib::to_multiset_build(bodies.drop_last(), bodies.last());
        assert(bodies.drop_last().push(bodies.last()) =~= bodies);
    } else {
        assert(bodies =~= Seq::empty());
    }
}

/// Put bodies in ascending order of their masses.
pub fn sort(bodies: &[GravParams]) -> (r: Vec<GravParams>)
    ensures
        r@ == sorted(bodies@),
{
    let mut r: Vec<GravParams> = Vec::new();
    let mut i: usize = 0;
    while i < bodies.len()
        invariant
            i <= bodies@.len(),
            r@.len() == i,
            r@ == sorted(bodies@.take(i as int)),
        decreases bodies@.len() - i,
    {
        assert(bodies@.take(i + 1).drop_last() =~= bodies@.take(i as int));
        proof {
            lemma_place(r@, bodies@[i as int]);
        }
        insert_in_order(&mut r, bodies[i]);
        i = i + 1;
    }
    assert(bodies@.take(i as int) =~= bodies@);
    r
}

/// The bodies whose pull is taken into account.
#[derive(Debug, Clone)]
pub struct Registry {
    /// The bodies.
    pub selected: Vec<GravParams>,
}

impl Registry {
    /// The masses are in ascending order and no body is registered twice.
    pub open spec fn well_formed(&self) -> bool {
        ascending(self.selected@) && distinct(self.selected@)
    }

    /// The bodies with one more, unless one has its id already.
    pub open spec fn registered(bodies: Seq<GravParams>, body: GravParams) -> Seq<GravParams> {
        if found(bodies, body.naif_id) is Some {
            bodies
        } else {
            placed(bodies, body)
        }
    }

    /// The bodies which are taken into account from the start, as far as they are known.
    pub fn new(known: &[GravParams]) -> (r: Registry)
        ensures
            r.selected@ == sorted(selection(known@, preloaded_ids())),
            r.well_formed(),
    {
        let ids: [i32; 15] = [
            10,
            1,
            2,
            399,
            301,
            4,
            5,
            6,
            7,
            8,
            20000001,
            20000002,
            20000004,
            20000010,
            20000704,
        ];
        assert(ids@ =~= preloaded_ids());
        let chosen = select_by_naif_id(known, &ids);
        proof {
            law_sorted(chosen@);
            lemma_selection_distinct(known@, ids@);
            lemma_sorted_distinct(chosen@);
        }
        Registry { selected: sort(chosen.as_slice()) }
    }
}

impl GravParams {
    /// Take the body into account, unless one with its id is already.
    pub fn register(self, registry: &mut Registry)
        requires
            old(registry).well_formed(),
            old(registry).selected@.len() < usize::MAX,
        ensures
            final(registry).selected@ == Registry::registered(old(registry).selected@, self),
            final(registry).well_formed(),
    {
        proof {
            law_register_keeps(*registry, self);
        }
        if find(registry.selected.as_slice(), self.naif_id).is_none() {
            insert_in_order(&mut registry.selected, self);
        }
    }

    /// The bodies which are taken into account.
    pub fn selected_masses(registry: &Registry) -> (r: &[GravParams])
        ensures
            r@ == registry.selected@,
    {
        registry.selected.as_slice()
    }

    /// The Sun, the planets and the Moon, as far as they are known.
    pub fn planets(known: &[GravParams]) -> (r: Vec<GravParams>)
        ensures
            r@ == selection(known@, planet_ids()),
    {
        let ids: [i32; 10] = [10, 1, 2, 399, 301, 4, 5, 6, 7, 8];
        assert(ids@ =~= planet_ids());
        select_by_naif_id(known, &ids)
    }

    /// The Sun and the planets, the Earth together with the Moon, as far as they are known.
    pub fn simplified_planets(known: &[GravParams]) -> (r: Vec<GravParams>)
        ensures
            r@ == selection(known@, simplified_planet_ids()),
    {
        let ids: [i32; 9] = [10, 1, 2, 3, 4, 5, 6, 7, 8];
        assert(ids@ =~= simplified_planet_ids());
        select_by_naif_id(known, &ids)
    }
}

/// The ids of the Sun, the planets and the Moon.
pub open spec fn planet_ids() -> Seq<i32> {
    seq![10, 1, 2, 399, 301, 4, 5, 6, 7, 8]
}

/// The ids of the Sun and the planets, the Earth together with the Moon.
pub open spec fn simplified_planet_ids() -> Seq<i32> {
    seq![10, 1, 2, 3, 4, 5, 6, 7, 8]
}

/// The ids of the bodies that are taken into account from the start: the planets and the five
/// heaviest asteroids.
pub open spec fn preloaded_ids() -> Seq<i32> {
    planet_ids() + seq![20000001, 20000002, 20000004, 20000010, 20000704]
}

/// Take a body into account whose mass is given relative to that of the Sun.
pub fn register_custom_mass<A: Arithmetic>(
    ops: &A,
    c: Constants,
    registry: &mut Registry,
    naif_id: i32,
    mass: F64,
    radius: F32,
)
    requires
        ops.lawful(),
        old(registry).well_formed(),
        old(registry).selected@.len() < usize::MAX,
    ensures
        final(registry).selected@ == Registry::registered(
            old(registry).selected@,
            GravParams { naif_id, mass: arithmetic::product(ops, mass, c.gms), radius },
        ),
        final(registry).well_formed(),
{
    let mass = arithmetic::times(ops, mass, c.gms);
    GravParams { naif_id, mass, radius }.register(registry);
}

/// Take a known body into account, by its id.
pub fn register_mass(registry: &mut Registry, known: &[GravParams], naif_id: i32) -> (r: KeteResult<
    (),
>)
    requires
        old(registry).well_formed(),
        old(registry).selected@.len() < usize::MAX,
    ensures
        final(registry).well_formed(),
        match found(known@, naif_id) {
            Some(body) => r == Ok::<(), Error>(()) && final(registry).selected@
                == Registry::registered(old(registry).selected@, body),
            None => r == Err::<(), Error>(Error::ValueError(ValueFault::UnknownMass(naif_id)))
                && *final(registry) == *old(registry),
        },
{
    match find(known, naif_id) {
        Some(body) => {
            body.register(registry);
            Ok(())
        },
        None => Err(Error::ValueError(ValueFault::UnknownMass(naif_id))),
    }
}

/// To take a body into account keeps the order and adds no id twice, and to do so again
/// changes nothing.
pub proof fn law_register_keeps(before: Registry, body: GravParams)
    requires
        before.well_formed(),
    ensures
        ascending(Registry::registered(before.selected@, body)),
        distinct(Registry::registered(before.selected@, body)),
        Registry::registered(Registry::registered(before.selected@, body), body)
            == Registry::registered(before.selected@, body),
{
    let bodies = before.selected@;
    let after = Registry::registered(bodies, body);
    lemma_found(bodies, body.naif_id);
    lemma_found(after, body.naif_id);
    if found(bodies, body.naif_id) is None {
        lemma_placed_ascending(bodies, body);
        lemma_place(bodies, body);
        let k = place(bodies, body);
        assert(after[k] == body);
        assert forall|i: int, j: int| 0 <= i < j < after.len() implies after[i].naif_id
            != after[j].naif_id by {
            if i == k {
                assert(after[j] == bodies[j - 1]);
            } else if j == k {
                assert(after[i] == bodies[i]);
            } else {
                let a = if i < k {
                    i
                } else {
                    i - 1
                };
                let b = if j < k {
                    j
                } else {
                    j - 1
                };
                assert(after[i] == bodies[a]);
                assert(after[j] == bodies[b]);
            }
        }
    }
}

/// Bodies which are selected by different ids have different ids.
proof fn lemma_selection_distinct(known: Seq<GravParams>, ids: Seq<i32>)
    requires
        ids.no_duplicates(),
    ensures
        distinct(selection(known, ids)),
        forall|i: int|
            0 <= i < selection(known, ids).len() ==> ids.contains(
                #[trigger] selection(known, ids)[i].naif_id,
            ),
    decreases ids.len(),
{
    if ids.len() > 0 {
        let shorter = ids.drop_last();
        let rest = selection(known, shorter);
        lemma_selection_distinct(known, shorter);
        lemma_found(known, ids.last());
        let all = selection(known, ids);
        assert forall|i: int| 0 <= i < all.len() implies ids.contains(
            #[trigger] all[i].naif_id,
        ) by {
            if i < rest.len() {
                assert(all[i] == rest[i]);
                let k = choose|k: int| 0 <= k < shorter.len() && shorter[k] == rest[i].naif_id;
                assert(ids[k] == all[i].naif_id);
            } else {
                assert(ids[ids.len() - 1] == all[i].naif_id);
            }
        }
        assert forall|i: int, j: int| 0 <= i < j < all.len() implies all[i].naif_id
            != all[j].naif_id by {
            assert(all[i] == rest[i]);
            if j < rest.len() {
                assert(all[j] == rest[j]);
            } else {
                let k = choose|k: int| 0 <= k < shorter.len() && shorter[k] == rest[i].naif_id;
                assert(ids[k] == rest[i].naif_id);
                assert(ids[k] != ids[ids.len() - 1]);
            }
        }
    }
}

/// Sorting brings in no id twice.
proof fn lemma_sorted_distinct(bodies: Seq<GravParams>)
    requires
        distinct(bodies),
    ensures
        distinct(sorted(bodies)),
        forall|i: int|
            0 <= i < sorted(bodies).len() ==> exists|k: int|
                0 <= k < bodies.len() && bodies[k] == #[trigger] sorted(bodies)[i],
    decreases bodies.len(),
{
    if bodies.len() > 0 {
        let shorter = bodies.drop_last();
        let body = bodies.last();
        let rest = sorted(shorter);
        assert forall|i: int, j: int| 0 <= i < j < shorter.len() implies shorter[i].naif_id
            != shorter[j].naif_id by {
            assert(shorter[i] == bodies[i] && shorter[j] == bodies[j]);
        }
        lemma_sorted_distinct(shorter);
        lemma_place(rest, body);
        let k = place(rest, body);
        let all = sorted(bodies);
        assert forall|i: int| 0 <= i < rest.len() implies #[trigger] rest[i].naif_id
            != body.naif_id by {
            let m = choose|m: int| 0 <= m < shorter.len() && shorter[m] == rest[i];
            assert(bodies[m] == rest[i]);
        }
        assert forall|i: int| 0 <= i < all.len() implies exists|m: int|
            0 <= m < bodies.len() && bodies[m] == #[trigger] all[i] by {
            if i == k {
                assert(bodies[bodies.len() - 1] == all[i]);
            } else {
                let a = if i < k {
                    i
                } else {
                    i - 1
                };
                assert(all[i] == rest[a]);
                let m = choose|m: int| 0 <= m < shorter.len() && shorter[m] == rest[a];
                assert(bodies[m] == all[i]);
            }
        }
        assert forall|i: int, j: int| 0 <= i < j < all.len() implies all[i].naif_id
            != all[j].naif_id by {
            let a = if i < k {
                i
            } else {
                i - 1
            };
            let b = if j < k {
                j
            } else {
                j - 1
            };
            if i == k {
                assert(all[j] == rest[b]);
            } else if j == k {
                assert(all[i] == rest[a]);
            } else {
                assert(all[i] == rest[a] && all[j] == rest[b]);
            }
        }
    }
}

/// A body as it is listed: its name, its NAIF id, its mass relative to that of the Sun, and
/// its radius.
#[derive(Debug, Clone)]
pub struct Listed {
    /// What the body is named by.
    pub desig: Desig,
    /// The NAIF id.
    pub naif_id: i32,
    /// The mass relative to that of the Sun.
    pub mass: F64,
    /// The radius in AU.
    pub radius: F32,
}

/// How a body is listed.
pub open spec fn as_listed<A: Arithmetic>(ops: &A, c: Constants, body: GravParams) -> Listed {
    Listed {
        desig: Desig::Naif(body.naif_id),
        naif_id: body.naif_id,
        mass: arithmetic::quotient(ops, body.mass, c.gms),
        radius: body.radius,
    }
}

/// How bodies are listed, in their order.
pub open spec fn all_listed<A: Arithmetic>(ops: &A, c: Constants, bodies: Seq<GravParams>) -> Seq<
    Listed,
> {
    Seq::new(bodies.len(), |i: int| as_listed(ops, c, bodies[i]))
}

/// List bodies, in their order.
fn list<A: Arithmetic>(ops: &A, c: Constants, bodies: &[GravParams]) -> (r: Vec<Listed>)
    requires
        ops.lawful(),
    ensures
        r@ == all_listed(ops, c, bodies@),
{
    let mut r: Vec<Listed> = Vec::new();
    let mut i: usize = 0;
    while i < bodies.len()
        invariant
            ops.lawful(),
            i <= bodies@.len(),
            r@.len() == i,
            forall|j: int| 0 <= j < i ==> #[trigger] r@[j] == as_listed(ops, c, bodies@[j]),
        decreases bodies@.len() - i,
    {
        let body = bodies[i];
        r.push(
            Listed {
                desig: Desig::Naif(body.naif_id),
                naif_id: body.naif_id,
                mass: arithmetic::over(ops, body.mass, c.gms),
                radius: body.radius,
            },
        );
        i = i + 1;
    }
    assert(r@ =~= all_listed(ops, c, bodies@));
    r
}

/// List the bodies which are taken into account.
pub fn registered_masses<A: Arithmetic>(ops: &A, c: Constants, registry: &Registry) -> (r: Vec<
    Listed,
>)
    requires
        ops.lawful(),
    ensures
        r@ == all_listed(ops, c, registry.selected@),
{
    list(ops, c, registry.selected.as_slice())
}

/// List the bodies which are known.
pub fn known_masses<A: Arithmetic>(ops: &A, c: Constants, known: &[GravParams]) -> (r: Vec<Listed>)
    requires
        ops.lawful(),
    ensures
        r@ == all_listed(ops, c, known@),
{
    list(ops, c, known)
}

// ---------------------------------------------------------------------------
// Rows of a table of bodies
// ---------------------------------------------------------------------------

/// Does a character separate words: those with the Unicode property White_Space.
pub open spec fn white_space(c: char) -> bool {
    ||| '\u{9}' <= c <= '\u{d}'
    ||| c == '\u{20}'
    ||| c == '\u{85}'
    ||| c == '\u{a0}'
    ||| c == '\u{1680}'
    ||| '\u{2000}' <= c <= '\u{200a}'
    ||| c == '\u{2028}'
    ||| c == '\u{2029}'
    ||| c == '\u{202f}'
    ||| c == '\u{205f}'
    ||| c == '\u{3000}'
}

/// Does a character separate words.
fn is_white_space(c: char) -> (r: bool)
    ensures
        r == white_space(c),
{
    ('\u{9}' <= c && c <= '\u{d}') || c == '\u{20}' || c == '\u{85}' || c == '\u{a0}' || c
        == '\u{1680}' || ('\u{2000}' <= c && c <= '\u{200a}') || c == '\u{2028}' || c == '\u{2029}'
        || c == '\u{202f}' || c == '\u{205f}' || c == '\u{3000}'
}

/// Where the word starts that a text ends with; the length where it ends with none.
pub open spec fn last_word(text: Seq<char>) -> int
    decreases text.len(),
{
    if text.len() == 0 || white_space(text.last()) {
        text.len() as int
    } else {
        last_word(text.drop_last())
    }
}

/// The words of a text.
pub open spec fn words(text: Seq<char>) -> Seq<Seq<char>>
    decreases text.len(),
    via words_shrink
{
    if text.len() == 0 {
        Seq::empty()
    } else if white_space(text.last()) {
        words(text.drop_last())
    } else {
        words(text.take(last_word(text))).push(text.skip(last_word(text)))
    }
}

#[via_fn]
proof fn words_shrink(text: Seq<char>) {
    lemma_last_word(text);
}

/// A word which a text ends with is part of the text.
proof fn lemma_last_word(text: Seq<char>)
    ensures
        0 <= last_word(text) <= text.len(),
        text.len() > 0 && !white_space(text.last()) ==> last_word(text) < text.len(),
    decreases text.len(),
{
    if text.len() > 0 && !white_space(text.last()) {
        lemma_last_word(text.drop_last());
    }
}

/// Where the word starts that the first `n` characters end with.
fn find_last_word(text: &str, n: usize) -> (k: usize)
    requires
        n <= text@.len(),
    ensures
        k == last_word(text@.take(n as int)),
        k <= n,
{
    let mut k: usize = n;
    while k > 0 && !is_white_space(text.get_char(k - 1))
        invariant
            k <= n <= text@.len(),
            last_word(text@.take(n as int)) == last_word(text@.take(k as int)),
        decreases k,
    {
        assert(text@.take(k as int).drop_last() =~= text@.take(k - 1));
        k = k - 1;
    }
    k
}

/// The characters of some texts.
pub open spec fn texts(parts: Seq<&str>) -> Seq<Seq<char>> {
    Seq::new(parts.len(), |i: int| parts[i]@)
}

/// The words of the first `n` characters.
fn find_words<'a>(text: &'a str, n: usize) -> (r: Vec<&'a str>)
    requires
        n <= text@.len(),
    ensures
        texts(r@) == words(text@.take(n as int)),
    decreases n,
{
    if n == 0 {
        let none: Vec<&'a str> = Vec::new();
        assert(texts(none@) =~= words(text@.take(0)));
        return none;
    }
    let ghost front = text@.take(n as int);
    assert(front.drop_last() =~= text@.take(n - 1));
    if is_white_space(text.get_char(n - 1)) {
        return find_words(text, n - 1);
    }
    let k = find_last_word(text, n);
    proof {
        lemma_last_word(front);
        assert(front.take(k as int) =~= text@.take(k as int));
        assert(front.skip(k as int) =~= text@.subrange(k as int, n as int));
    }
    let mut r = find_words(text, k);
    let ghost before = r@;
    let word = text.substring_char(k, n);
    r.push(word);
    assert(texts(r@) =~= texts(before).push(word@));
    r
}

/// The fields of a row of a table of bodies.
#[derive(Debug, Clone, Copy)]
pub struct Row<'a> {
    /// The NAIF id.
    pub naif_id: &'a str,
    /// The mass relative to that of the Sun.
    pub mass: &'a str,
    /// The radius in AU, where it is given.
    pub radius: Option<&'a str>,
}

/// Read the fields of a row: an id, a mass, and a radius which may be left out. What comes
/// after them is not looked at.
pub fn read_row<'a>(row: &'a str) -> (r: KeteResult<Row<'a>>)
    ensures
        ({
            let w = words(row@);
            match r {
                Ok(f) => w.len() >= 2 && f.naif_id@ == w[0] && f.mass@ == w[1] && (match f.radius {
                    Some(radius) => w.len() >= 3 && radius@ == w[2],
                    None => w.len() == 2,
                }),
                Err(e) => w.len() < 2 && e == Error::IOError(IoFault::BadMassRow),
            }
        }),
{
    let n = row.unicode_len();
    assert(row@.take(n as int) =~= row@);
    let parts = find_words(row, n);
    let ghost w = texts(parts@);
    if parts.len() < 2 {
        return Err(Error::IOError(IoFault::BadMassRow));
    }
    assert(w[0] == parts@[0]@ && w[1] == parts@[1]@);
    let radius = if parts.len() < 3 {
        None
    } else {
        assert(w[2] == parts@[2]@);
        Some(parts[2])
    };
    Ok(Row { naif_id: parts[0], mass: parts[1], radius })
}

/// Is a row of a table to be passed over: it is a comment or blank.
pub fn is_skipped(row: &str) -> (r: bool)
    ensures
        r == ((row@.len() > 0 && row@[0] == '#') || words(row@).len() == 0),
{
    let n = row.unicode_len();
    if n > 0 && row.get_char(0) == '#' {
        return true;
    }
    assert(row@.take(n as int) =~= row@);
    find_words(row, n).len() == 0
}

impl GravParams {
    /// The body of a row whose numbers have been read.
    pub fn of_row<A: Arithmetic>(
        ops: &A,
        c: Constants,
        naif_id: i32,
        mass: F64,
        radius: Option<F32>,
    ) -> (r: GravParams)
        requires
            ops.lawful(),
        ensures
            r == (GravParams {
                naif_id,
                mass: arithmetic::product(ops, mass, c.gms),
                radius: match radius {
                    Some(radius) => radius,
                    None => F32 { bits: DEFAULT_RADIUS },
                },
            }),
    {
        let radius = match radius {
            Some(radius) => radius,
            None => F32 { bits: DEFAULT_RADIUS },
        };
        GravParams { naif_id, mass: arithmetic::times(ops, mass, c.gms), radius }
    }
}

} // verus!
