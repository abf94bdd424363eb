//! Orbits as conics.
use crate::arithmetic;
use crate::arithmetic::{Arithmetic, Binary, Unary};
use crate::conics;
use crate::constants;
use crate::constants::Constants;
use crate::desig::Desig;
use crate::errors::KeteResult;
use crate::float::F64;
use crate::forces::gravity;
use crate::forces::gravity::GravParams;
use crate::frames;
use crate::frames::{CenterBody, DynCenter, Ecliptic, Vector};
use crate::numbers;
use crate::orbits;
use crate::physics::{Motion, Physics};
use crate::rounding;
use crate::rounding::Reading;
use crate::state::cartesian::State;
use crate::time::Time;
use vstd::prelude::*;

verus! {

/// Below this a length is taken to be zero.
pub const NEARLY_ZERO: u64 = 0x3e45_798e_e230_8c3a;

/// Below this an eccentricity is taken to be that of a circle.
pub const NEARLY_CIRCULAR: u64 = 0x3eb0_c6f7_a0b5_ed8d;

/// A full turn.
pub const TAU: u64 = 0x4019_21fb_5444_2d18;

/// The degrees of one radian.
pub const DEGREES_PER_RADIAN: u64 = 0x404c_a5dc_1a63_c1f8;

/// The radians of one degree.
pub const RADIANS_PER_DEGREE: u64 = 0x3f91_df46_a252_9d39;

/// The elements of an orbit around one body, in the frame of the ecliptic. Angles are in
/// radians, lengths in AU and times in days.
#[derive(Debug)]
pub struct CometElements {
    /// What the object is called.
    pub desig: Desig,
    /// When the elements hold.
    pub epoch: Time,
    /// The eccentricity.
    pub eccentricity: F64,
    /// The inclination.
    pub inclination: F64,
    /// The longitude of the ascending node.
    pub lon_of_ascending: F64,
    /// When the object is at perihelion.
    pub peri_time: Time,
    /// The argument of perihelion.
    pub peri_arg: F64,
    /// The perihelion distance.
    pub peri_dist: F64,
    /// The NAIF id of the body in the center.
    pub center_id: i32,
    /// The square root of the standard gravitational parameter of that body.
    pub gm_sqrt: F64,
}

impl Clone for CometElements {
    fn clone(&self) -> (r: Self)
        ensures
            r == *self,
    {
        CometElements {
            desig: self.desig.clone(),
            epoch: self.epoch,
            eccentricity: self.eccentricity,
            inclination: self.inclination,
            lon_of_ascending: self.lon_of_ascending,
            peri_time: self.peri_time,
            peri_arg: self.peri_arg,
            peri_dist: self.peri_dist,
            center_id: self.center_id,
            gm_sqrt: self.gm_sqrt,
        }
    }
}

/// The vectors and lengths which the elements of an orbit follow from.
#[derive(Debug, Clone, Copy)]
pub struct Conic {
    /// The square of the speed, in units of the center.
    pub v_mag2: F64,
    /// The distance.
    pub p_mag: F64,
    /// The product of position and velocity.
    pub vp_mag: F64,
    /// Towards perihelion, as long as the eccentricity.
    pub ecc_vec: Vector<Ecliptic>,
    /// The angular momentum.
    pub ang_vec: Vector<Ecliptic>,
    /// Towards the ascending node.
    pub node_vec: Vector<Ecliptic>,
    /// The eccentricity.
    pub ecc: F64,
    /// The length of the angular momentum.
    pub ang_mag: F64,
    /// The length of the vector towards the ascending node; the orbit is in the ecliptic where
    /// it is nearly zero.
    pub node_mag: F64,
    /// The perihelion distance.
    pub peri_dist: F64,
}

/// The conic on which an object with the given position and velocity moves.
pub open spec fn conic<A: Arithmetic>(
    ops: &A,
    pos: Vector<Ecliptic>,
    vel: Vector<Ecliptic>,
    gm_sqrt: F64,
) -> Conic {
    let scaled = vel.shrunk(ops, gm_sqrt);
    let v_mag2 = scaled.dotted(ops, scaled);
    let p_mag = pos.length(ops);
    let vp_mag = pos.dotted(ops, scaled);
    let ecc_vec = pos.scaled(
        ops,
        arithmetic::difference(
            ops,
            v_mag2,
            arithmetic::quotient(ops, F64 { bits: constants::ONE }, p_mag),
        ),
    ).difference(
        ops,
        scaled.scaled(ops, vp_mag),
    );
    let ang_vec = pos.crossed(ops, scaled);
    let across = frames::vector::<Ecliptic>(ang_vec.y.negated(), ang_vec.x,
        F64 { bits: constants::ZERO });
    let ecc = ecc_vec.length(ops);
    let ang_mag = ang_vec.length(ops);
    let node_mag = across.length(ops);
    let peri_dist = arithmetic::quotient(
        ops,
        ops.one(Unary::Squared, ang_mag),
        arithmetic::sum(ops, F64 { bits: constants::ONE }, ecc),
    );
    let node_vec = if node_mag.spec_lt(F64 { bits: NEARLY_ZERO }) {
        frames::vector(
            F64 { bits: constants::ONE },
            F64 { bits: constants::ZERO },
            F64 { bits: constants::ZERO },
        )
    } else {
        across
    };
    Conic {
        v_mag2,
        p_mag,
        vp_mag,
        ecc_vec,
        ang_vec,
        node_vec,
        ecc,
        ang_mag,
        node_mag,
        peri_dist,
    }
}

/// The conic on which an object with the given position and velocity moves.
fn find_conic<A: Arithmetic>(
    ops: &A,
    pos: Vector<Ecliptic>,
    vel: Vector<Ecliptic>,
    gm_sqrt: F64,
) -> (r: Conic)
    requires
        ops.lawful(),
    ensures
        r == conic(ops, pos, vel, gm_sqrt),
{
    let scaled = vel.over(ops, gm_sqrt);
    let v_mag2 = scaled.dot(ops, scaled);
    let p_mag = pos.norm(ops);
    let vp_mag = pos.dot(ops, scaled);
    let ecc_vec = pos.scale(
        ops,
        arithmetic::minus(
            ops,
            v_mag2,
            arithmetic::over(ops, F64::from_bits(constants::ONE), p_mag),
        ),
    ).minus(
        ops,
        scaled.scale(ops, vp_mag),
    );
    let ang_vec = pos.cross(ops, scaled);
    let across = Vector::of(ang_vec.y.neg(), ang_vec.x, F64::from_bits(constants::ZERO));
    let ecc = ecc_vec.norm(ops);
    let ang_mag = ang_vec.norm(ops);
    let node_mag = across.norm(ops);
    let peri_dist = arithmetic::over(
        ops,
        ops.unary(Unary::Squared, ang_mag),
        arithmetic::plus(ops, F64::from_bits(constants::ONE), ecc),
    );
    let node_vec = if node_mag.less(F64::from_bits(NEARLY_ZERO)) {
        Vector::of(
            F64::from_bits(constants::ONE),
            F64::from_bits(constants::ZERO),
            F64::from_bits(constants::ZERO),
        )
    } else {
        across
    };
    Conic {
        v_mag2,
        p_mag,
        vp_mag,
        ecc_vec,
        ang_vec,
        node_vec,
        ecc,
        ang_mag,
        node_mag,
        peri_dist,
    }
}

/// The longitude of the ascending node.
pub open spec fn node_longitude<A: Arithmetic>(ops: &A, k: Conic) -> F64 {
    if k.node_mag.spec_lt(F64 { bits: NEARLY_ZERO }) {
        F64 { bits: constants::ZERO }
    } else {
        ops.two(
            Binary::Atan2,
            arithmetic::quotient(ops, k.node_vec.y, k.node_mag),
            arithmetic::quotient(ops, k.node_vec.x, k.node_mag),
        )
    }
}

/// The longitude of the ascending node.
fn find_node_longitude<A: Arithmetic>(ops: &A, k: Conic) -> (r: F64)
    requires
        ops.lawful(),
    ensures
        r == node_longitude(ops, k),
{
    if k.node_mag.less(F64::from_bits(NEARLY_ZERO)) {
        F64::from_bits(constants::ZERO)
    } else {
        ops.binary(
            Binary::Atan2,
            arithmetic::over(ops, k.node_vec.y, k.node_mag),
            arithmetic::over(ops, k.node_vec.x, k.node_mag),
        )
    }
}

/// An angle, or what is left of a full turn where the orbit is seen from the other side.
pub open spec fn turned<A: Arithmetic>(ops: &A, angle: F64, mirrored: bool) -> F64 {
    if mirrored {
        arithmetic::difference(ops, F64 { bits: TAU }, angle)
    } else {
        angle
    }
}

/// An angle, or what is left of a full turn where the orbit is seen from the other side.
fn turn_back<A: Arithmetic>(ops: &A, angle: F64, mirrored: bool) -> (r: F64)
    requires
        ops.lawful(),
    ensures
        r == turned(ops, angle, mirrored),
{
    if mirrored {
        arithmetic::minus(ops, F64::from_bits(TAU), angle)
    } else {
        angle
    }
}

/// The argument of perihelion.
pub open spec fn perihelion_argument<A: Arithmetic>(ops: &A, k: Conic) -> F64 {
    if k.ecc.spec_lt(F64 { bits: NEARLY_ZERO }) {
        F64 { bits: constants::ZERO }
    } else if k.node_mag.spec_lt(F64 { bits: NEARLY_ZERO }) {
        turned(
            ops,
            ops.two(Binary::Atan2, k.ecc_vec.y, k.ecc_vec.x),
            k.ang_vec.z.spec_lt(F64 { bits: constants::ZERO }),
        )
    } else {
        let cosine = numbers::within(
            arithmetic::quotient(
                ops,
                k.node_vec.dotted(ops, k.ecc_vec),
                arithmetic::product(ops, k.ecc, k.node_mag),
            ),
            (F64 { bits: constants::ONE }).negated(),
            F64 { bits: constants::ONE },
        );
        turned(
            ops,
            ops.one(Unary::Acos, cosine),
            k.ecc_vec.z.spec_lt(F64 { bits: constants::ZERO }),
        )
    }
}

/// The argument of perihelion.
fn find_perihelion_argument<A: Arithmetic>(ops: &A, k: Conic) -> (r: F64)
    requires
        ops.lawful(),
    ensures
        r == perihelion_argument(ops, k),
{
    if k.ecc.less(F64::from_bits(NEARLY_ZERO)) {
        F64::from_bits(constants::ZERO)
    } else if k.node_mag.less(F64::from_bits(NEARLY_ZERO)) {
        turn_back(
            ops,
            ops.binary(Binary::Atan2, k.ecc_vec.y, k.ecc_vec.x),
            k.ang_vec.z.less(F64::from_bits(constants::ZERO)),
        )
    } else {
        let cosine = numbers::clamp(
            arithmetic::over(
                ops,
                k.node_vec.dot(ops, k.ecc_vec),
                arithmetic::times(ops, k.ecc, k.node_mag),
            ),
            F64::from_bits(constants::ONE).neg(),
            F64::from_bits(constants::ONE),
        );
        turn_back(
            ops,
            ops.unary(Unary::Acos, cosine),
            k.ecc_vec.z.less(F64::from_bits(constants::ZERO)),
        )
    }
}

/// An angle, negative where the object is on the other side.
pub open spec fn signed(angle: F64, behind: bool) -> F64 {
    if behind {
        angle.negated()
    } else {
        angle
    }
}

/// An angle, negative where the object is on the other side.
fn put_sign(angle: F64, behind: bool) -> (r: F64)
    ensures
        r == signed(angle, behind),
{
    if behind {
        angle.neg()
    } else {
        angle
    }
}

/// When an object on a parabola is at perihelion.
pub open spec fn parabolic_time<A: Arithmetic>(
    ops: &A,
    k: Conic,
    pos: Vector<Ecliptic>,
    epoch: F64,
    gm_sqrt: F64,
) -> F64 {
    let true_anomaly = signed(k.ecc_vec.angled(ops, pos), k.vp_mag.is_negative());
    let d = ops.one(
        Unary::Tan,
        arithmetic::quotient(ops, true_anomaly, F64 { bits: constants::TWO }),
    );
    let dt = arithmetic::product(
        ops,
        arithmetic::quotient(
            ops,
            arithmetic::product(
                ops,
                ops.one(Unary::Sqrt, F64 { bits: constants::TWO }),
                ops.two(Binary::Power, k.peri_dist, F64 { bits: constants::ONE_AND_HALF }),
            ),
            gm_sqrt,
        ),
        arithmetic::sum(
            ops,
            d,
            arithmetic::quotient(ops, ops.one(Unary::Cubed, d), F64 { bits: constants::THREE }),
        ),
    );
    arithmetic::difference(ops, epoch, dt)
}

/// When an object on a parabola is at perihelion.
fn find_parabolic_time<A: Arithmetic>(
    ops: &A,
    k: Conic,
    pos: Vector<Ecliptic>,
    epoch: F64,
    gm_sqrt: F64,
) -> (r: F64)
    requires
        ops.lawful(),
    ensures
        r == parabolic_time(ops, k, pos, epoch, gm_sqrt),
{
    let true_anomaly = put_sign(k.ecc_vec.angle(ops, pos), k.vp_mag.is_sign_negative());
    let d = ops.unary(
        Unary::Tan,
        arithmetic::over(ops, true_anomaly, F64::from_bits(constants::TWO)),
    );
    let dt = arithmetic::times(
        ops,
        arithmetic::over(
            ops,
            arithmetic::times(
                ops,
                ops.unary(Unary::Sqrt, F64::from_bits(constants::TWO)),
                ops.binary(Binary::Power, k.peri_dist, F64::from_bits(constants::ONE_AND_HALF)),
            ),
            gm_sqrt,
        ),
        arithmetic::plus(
            ops,
            d,
            arithmetic::over(ops, ops.unary(Unary::Cubed, d), F64::from_bits(constants::THREE)),
        ),
    );
    arithmetic::minus(ops, epoch, dt)
}

/// The semi major axis, negative for a hyperbola.
pub open spec fn axis<A: Arithmetic>(ops: &A, k: Conic) -> F64 {
    arithmetic::quotient(
        ops,
        F64 { bits: constants::ONE },
        arithmetic::difference(
            ops,
            arithmetic::quotient(ops, F64 { bits: constants::TWO }, k.p_mag),
            k.v_mag2,
        ),
    )
}

/// The semi major axis, negative for a hyperbola.
fn find_axis<A: Arithmetic>(ops: &A, k: Conic) -> (r: F64)
    requires
        ops.lawful(),
    ensures
        r == axis(ops, k),
{
    arithmetic::over(
        ops,
        F64::from_bits(constants::ONE),
        arithmetic::minus(
            ops,
            arithmetic::over(ops, F64::from_bits(constants::TWO), k.p_mag),
            k.v_mag2,
        ),
    )
}

/// When an object on a circle is at its perihelion, which is put at the ascending node.
pub open spec fn circular_time<A: Arithmetic>(
    ops: &A,
    k: Conic,
    pos: Vector<Ecliptic>,
    epoch: F64,
    gm_sqrt: F64,
) -> F64 {
    let a = axis(ops, k);
    let mean_motion = arithmetic::product(
        ops,
        ops.two(Binary::Power, a.abs_value(), (F64 { bits: constants::ONE_AND_HALF }).negated()),
        gm_sqrt,
    );
    let true_anomaly = signed(
        k.node_vec.angled(ops, pos),
        k.ang_vec.crossed(ops, k.node_vec).dotted(ops, pos).is_negative(),
    );
    arithmetic::difference(ops, epoch, arithmetic::quotient(ops, true_anomaly, mean_motion))
}

/// When an object on a circle is at its perihelion, which is put at the ascending node.
fn find_circular_time<A: Arithmetic>(
    ops: &A,
    k: Conic,
    pos: Vector<Ecliptic>,
    epoch: F64,
    gm_sqrt: F64,
) -> (r: F64)
    requires
        ops.lawful(),
    ensures
        r == circular_time(ops, k, pos, epoch, gm_sqrt),
{
    let a = find_axis(ops, k);
    let mean_motion = arithmetic::times(
        ops,
        ops.binary(Binary::Power, a.abs(), F64::from_bits(constants::ONE_AND_HALF).neg()),
        gm_sqrt,
    );
    let true_anomaly = put_sign(
        k.node_vec.angle(ops, pos),
        k.ang_vec.cross(ops, k.node_vec).dot(ops, pos).is_sign_negative(),
    );
    arithmetic::minus(ops, epoch, arithmetic::over(ops, true_anomaly, mean_motion))
}

/// The mean anomaly on an ellipse or a hyperbola with the semi major axis `a`.
pub open spec fn conic_anomaly<A: Arithmetic>(ops: &A, k: Conic, a: F64) -> F64 {
    let x_bar = arithmetic::quotient(
        ops,
        arithmetic::difference(ops, ops.one(Unary::Squared, k.ang_mag), k.p_mag),
        k.ecc,
    );
    let y_bar = arithmetic::product(ops, arithmetic::quotient(ops, k.vp_mag, k.ecc), k.ang_mag);
    let b = arithmetic::product(
        ops,
        a,
        ops.one(
            Unary::Sqrt,
            arithmetic::difference(
                ops,
                F64 { bits: constants::ONE },
                ops.one(Unary::Squared, k.ecc),
            ).abs_value(),
        ),
    );
    let s_e = arithmetic::quotient(ops, y_bar, b);
    if k.ecc.spec_lt(F64 { bits: constants::ONE }) {
        let c_e = arithmetic::sum(ops, arithmetic::quotient(ops, x_bar, a), k.ecc);
        arithmetic::difference(
            ops,
            ops.two(Binary::Atan2, s_e, c_e),
            arithmetic::product(ops, k.ecc, s_e),
        )
    } else {
        arithmetic::difference(
            ops,
            arithmetic::product(ops, k.ecc.negated(), s_e),
            ops.one(Unary::Asinh, s_e.negated()),
        )
    }
}

/// The mean anomaly on an ellipse or a hyperbola with the semi major axis `a`.
fn find_conic_anomaly<A: Arithmetic>(ops: &A, k: Conic, a: F64) -> (r: F64)
    requires
        ops.lawful(),
    ensures
        r == conic_anomaly(ops, k, a),
{
    let x_bar = arithmetic::over(
        ops,
        arithmetic::minus(ops, ops.unary(Unary::Squared, k.ang_mag), k.p_mag),
        k.ecc,
    );
    let y_bar = arithmetic::times(ops, arithmetic::over(ops, k.vp_mag, k.ecc), k.ang_mag);
    let b = arithmetic::times(
        ops,
        a,
        ops.unary(
            Unary::Sqrt,
            arithmetic::minus(ops, F64::from_bits(constants::ONE), ops.unary(Unary::Squared,
                k.ecc)).abs(),
        ),
    );
    let s_e = arithmetic::over(ops, y_bar, b);
    if k.ecc.less(F64::from_bits(constants::ONE)) {
        let c_e = arithmetic::plus(ops, arithmetic::over(ops, x_bar, a), k.ecc);
        arithmetic::minus(
            ops,
            ops.binary(Binary::Atan2, s_e, c_e),
            arithmetic::times(ops, k.ecc, s_e),
        )
    } else {
        arithmetic::minus(
            ops,
            arithmetic::times(ops, k.ecc.neg(), s_e),
            ops.unary(Unary::Asinh, s_e.neg()),
        )
    }
}

/// When an object on an ellipse or a hyperbola is at perihelion.
pub open spec fn conic_time<A: Arithmetic>(ops: &A, k: Conic, epoch: F64, gm_sqrt: F64) -> F64 {
    let a = axis(ops, k);
    let mean_motion = arithmetic::product(
        ops,
        ops.two(Binary::Power, a.abs_value(), (F64 { bits: constants::ONE_AND_HALF }).negated()),
        gm_sqrt,
    );
    let mean_anomaly = conic_anomaly(ops, k, a);
    arithmetic::difference(ops, epoch, arithmetic::quotient(ops, mean_anomaly, mean_motion))
}

/// When an object on an ellipse or a hyperbola is at perihelion.
fn find_conic_time<A: Arithmetic>(ops: &A, k: Conic, epoch: F64, gm_sqrt: F64) -> (r: F64)
    requires
        ops.lawful(),
    ensures
        r == conic_time(ops, k, epoch, gm_sqrt),
{
    let a = find_axis(ops, k);
    let mean_motion = arithmetic::times(
        ops,
        ops.binary(Binary::Power, a.abs(), F64::from_bits(constants::ONE_AND_HALF).neg()),
        gm_sqrt,
    );
    let mean_anomaly = find_conic_anomaly(ops, k, a);
    arithmetic::minus(ops, epoch, arithmetic::over(ops, mean_anomaly, mean_motion))
}

/// When an object is at perihelion.
pub open spec fn perihelion_time<A: Arithmetic>(
    ops: &A,
    c: Constants,
    k: Conic,
    pos: Vector<Ecliptic>,
    epoch: F64,
    gm_sqrt: F64,
) -> F64 {
    if arithmetic::difference(ops, k.ecc,
        (F64 { bits: constants::ONE })).abs_value().spec_lt(c.parabolic_limit) {
        parabolic_time(ops, k, pos, epoch, gm_sqrt)
    } else if k.ecc.spec_lt(F64 { bits: NEARLY_CIRCULAR }) {
        circular_time(ops, k, pos, epoch, gm_sqrt)
    } else {
        conic_time(ops, k, epoch, gm_sqrt)
    }
}

/// When an object is at perihelion.
fn find_perihelion_time<A: Arithmetic>(
    ops: &A,
    c: Constants,
    k: Conic,
    pos: Vector<Ecliptic>,
    epoch: F64,
    gm_sqrt: F64,
) -> (r: F64)
    requires
        ops.lawful(),
    ensures
        r == perihelion_time(ops, c, k, pos, epoch, gm_sqrt),
{
    if arithmetic::minus(ops, k.ecc, F64::from_bits(constants::ONE)).abs().less(c.parabolic_limit) {
        find_parabolic_time(ops, k, pos, epoch, gm_sqrt)
    } else if k.ecc.less(F64::from_bits(NEARLY_CIRCULAR)) {
        find_circular_time(ops, k, pos, epoch, gm_sqrt)
    } else {
        find_conic_time(ops, k, epoch, gm_sqrt)
    }
}

/// Coordinates in the plane of an orbit, the first towards perihelion.
#[derive(Debug, Clone, Copy)]
pub struct InPlane {
    /// Towards perihelion.
    pub x: F64,
    /// Across, in the direction of motion at perihelion.
    pub y: F64,
    /// How fast `x` changes.
    pub x_dot: F64,
    /// How fast `y` changes.
    pub y_dot: F64,
}

impl CometElements {
    /// The square root of the standard gravitational parameter of a body; that of the Sun where
    /// the body is not known.
    pub open spec fn center_gm_sqrt<A: Arithmetic>(
        ops: &A,
        c: Constants,
        known: Seq<GravParams>,
        center_id: i32,
    ) -> F64 {
        match gravity::found(known, center_id) {
            Some(body) => ops.one(Unary::Sqrt, body.mass),
            None => c.gms_sqrt,
        }
    }

    /// The square root of the standard gravitational parameter of a body; that of the Sun where
    /// the body is not known.
    pub fn gm_sqrt_for_center<A: Arithmetic>(
        ops: &A,
        c: Constants,
        known: &[GravParams],
        center_id: i32,
    ) -> (r: F64)
        requires
            ops.lawful(),
        ensures
            r == Self::center_gm_sqrt(ops, c, known@, center_id),
    {
        match gravity::find(known, center_id) {
            Some(body) => ops.unary(Unary::Sqrt, body.mass),
            None => c.gms_sqrt,
        }
    }

    /// The elements of an object with the given position and velocity.
    pub open spec fn of_motion<A: Arithmetic>(
        ops: &A,
        c: Constants,
        desig: Desig,
        epoch: Time,
        at: Motion<Ecliptic>,
        center_id: i32,
        gm_sqrt: F64,
    ) -> CometElements {
        let k = conic(ops, at.pos, at.vel, gm_sqrt);
        CometElements {
            desig,
            epoch,
            eccentricity: k.ecc,
            inclination: ops.one(
                Unary::Acos,
                arithmetic::quotient(ops, k.ang_vec.z, k.ang_mag),
            ),
            lon_of_ascending: node_longitude(ops, k),
            peri_time: Time { jd: perihelion_time(ops, c, k, at.pos, epoch.jd, gm_sqrt) },
            peri_arg: perihelion_argument(ops, k),
            peri_dist: k.peri_dist,
            center_id,
            gm_sqrt,
        }
    }

    /// The elements of an object with the given position and velocity.
    pub fn from_pos_vel<A: Arithmetic>(
        ops: &A,
        c: Constants,
        desig: Desig,
        epoch: Time,
        at: Motion<Ecliptic>,
        center_id: i32,
        gm_sqrt: F64,
    ) -> (r: CometElements)
        requires
            ops.lawful(),
        ensures
            r == Self::of_motion(ops, c, desig, epoch, at, center_id, gm_sqrt),
    {
        let k = find_conic(ops, at.pos, at.vel, gm_sqrt);
        let cosine = arithmetic::over(ops, k.ang_vec.z, k.ang_mag);
        CometElements {
            desig,
            epoch,
            eccentricity: k.ecc,
            inclination: ops.unary(Unary::Acos, cosine),
            lon_of_ascending: find_node_longitude(ops, k),
            peri_time: Time::new(
                find_perihelion_time(ops, c, k, at.pos, epoch.jd, gm_sqrt),
            ),
            peri_arg: find_perihelion_argument(ops, k),
            peri_dist: k.peri_dist,
            center_id,
            gm_sqrt,
        }
    }

    /// The elements of the orbit of a state around its center.
    pub fn from_state<A: Arithmetic, C: CenterBody>(
        ops: &A,
        c: Constants,
        known: &[GravParams],
        state: &State<Ecliptic, C>,
    ) -> (r: CometElements)
        requires
            ops.lawful(),
        ensures
            r == Self::of_motion(
                ops,
                c,
                state.desig,
                state.epoch,
                Motion { pos: state.pos, vel: state.vel },
                state.center.naif_id(),
                Self::center_gm_sqrt(ops, c, known@, state.center.naif_id()),
            ),
    {
        let center_id = state.center_id();
        let gm_sqrt = Self::gm_sqrt_for_center(ops, c, known, center_id);
        Self::from_pos_vel(
            ops,
            c,
            state.desig.clone(),
            state.epoch,
            Motion { pos: state.pos, vel: state.vel },
            center_id,
            gm_sqrt,
        )
    }

    /// Is the eccentricity clearly below that of a parabola.
    pub open spec fn elliptical<A: Arithmetic>(&self, ops: &A, c: Constants) -> bool {
        self.eccentricity.spec_lt(
            arithmetic::difference(ops, F64 { bits: constants::ONE }, c.parabolic_limit),
        )
    }

    /// Is the eccentricity clearly above that of a parabola.
    pub open spec fn hyperbolic<A: Arithmetic>(&self, ops: &A, c: Constants) -> bool {
        arithmetic::sum(ops, F64 { bits: constants::ONE }, c.parabolic_limit).spec_lt(
            self.eccentricity,
        )
    }

    /// Is the eccentricity clearly below that of a parabola.
    pub fn is_elliptical<A: Arithmetic>(&self, ops: &A, c: Constants) -> (r: bool)
        requires
            ops.lawful(),
        ensures
            r == self.elliptical(ops, c),
    {
        let one = F64::from_bits(constants::ONE);
        self.eccentricity.less(arithmetic::minus(ops, one, c.parabolic_limit))
    }

    /// Is the eccentricity clearly above that of a parabola.
    pub fn is_hyperbolic<A: Arithmetic>(&self, ops: &A, c: Constants) -> (r: bool)
        requires
            ops.lawful(),
        ensures
            r == self.hyperbolic(ops, c),
    {
        let one = F64::from_bits(constants::ONE);
        arithmetic::plus(ops, one, c.parabolic_limit).less(self.eccentricity)
    }

    /// Where on the ellipse with the semi major axis `a` the object is.
    pub open spec fn on_ellipse<A: Arithmetic>(&self, ops: &A, a: F64, ecc_anom: F64) -> InPlane {
        let sin_e = ops.one(Unary::Sin, ecc_anom);
        let cos_e = ops.one(Unary::Cos, ecc_anom);
        let e_dot = arithmetic::product(
            ops,
            ops.two(Binary::Power, a, F64 { bits: constants::ONE_AND_HALF }),
            arithmetic::difference(
                ops,
                F64 { bits: constants::ONE },
                arithmetic::product(ops, self.eccentricity, cos_e),
            ),
        );
        let b = arithmetic::product(
            ops,
            a,
            ops.one(
                Unary::Sqrt,
                arithmetic::difference(
                    ops,
                    F64 { bits: constants::ONE },
                    ops.one(Unary::Squared, self.eccentricity),
                ),
            ),
        );
        let x = arithmetic::product(ops, a, arithmetic::difference(ops, cos_e, self.eccentricity));
        let y = arithmetic::product(ops, b, sin_e);
        let x_dot = arithmetic::product(
            ops,
            arithmetic::product(ops, arithmetic::quotient(ops, a.negated(), e_dot), sin_e),
            self.gm_sqrt,
        );
        let y_dot = arithmetic::product(
            ops,
            arithmetic::product(ops, arithmetic::quotient(ops, b, e_dot), cos_e),
            self.gm_sqrt,
        );
        InPlane { x, y, x_dot, y_dot }
    }

    /// Where on the ellipse with the semi major axis `a` the object is.
    fn find_on_ellipse<A: Arithmetic>(&self, ops: &A, a: F64, ecc_anom: F64) -> (r: InPlane)
        requires
            ops.lawful(),
        ensures
            r == self.on_ellipse(ops, a, ecc_anom),
    {
        let sin_e = ops.unary(Unary::Sin, ecc_anom);
        let cos_e = ops.unary(Unary::Cos, ecc_anom);
        let e_dot = arithmetic::times(
            ops,
            ops.binary(Binary::Power, a, F64::from_bits(constants::ONE_AND_HALF)),
            arithmetic::minus(
                ops,
                F64::from_bits(constants::ONE),
                arithmetic::times(ops, self.eccentricity, cos_e),
            ),
        );
        let b = arithmetic::times(
            ops,
            a,
            ops.unary(
                Unary::Sqrt,
                arithmetic::minus(
                    ops,
                    F64::from_bits(constants::ONE),
                    ops.unary(Unary::Squared, self.eccentricity),
                ),
            ),
        );
        let x = arithmetic::times(ops, a, arithmetic::minus(ops, cos_e, self.eccentricity));
        let y = arithmetic::times(ops, b, sin_e);
        let x_dot = arithmetic::times(
            ops,
            arithmetic::times(ops, arithmetic::over(ops, a.neg(), e_dot), sin_e),
            self.gm_sqrt,
        );
        let y_dot = arithmetic::times(
            ops,
            arithmetic::times(ops, arithmetic::over(ops, b, e_dot), cos_e),
            self.gm_sqrt,
        );
        InPlane { x, y, x_dot, y_dot }
    }

    /// Where on the hyperbola with the semi major axis `a` the object is.
    pub open spec fn on_hyperbola<A: Arithmetic>(
        &self,
        ops: &A,
        a: F64,
        ecc_anom: F64,
    ) -> InPlane {
        let sinh_h = ops.one(Unary::Sinh, ecc_anom);
        let cosh_h = ops.one(Unary::Cosh, ecc_anom);
        let b = arithmetic::product(
            ops,
            a.negated(),
            ops.one(
                Unary::Sqrt,
                arithmetic::difference(
                    ops,
                    ops.one(Unary::Squared, self.eccentricity),
                    F64 { bits: constants::ONE },
                ),
            ),
        );
        let h_dot = arithmetic::product(
            ops,
            ops.two(Binary::Power, a.abs_value(), F64 { bits: constants::ONE_AND_HALF }),
            arithmetic::difference(
                ops,
                F64 { bits: constants::ONE },
                arithmetic::product(ops, self.eccentricity, cosh_h),
            ),
        );
        let x = arithmetic::product(ops, a, arithmetic::difference(ops, cosh_h, self.eccentricity));
        let y = arithmetic::product(ops, b, sinh_h);
        let x_dot = arithmetic::product(
            ops,
            arithmetic::product(ops, arithmetic::quotient(ops, a.negated(), h_dot), sinh_h),
            self.gm_sqrt,
        );
        let y_dot = arithmetic::product(
            ops,
            arithmetic::product(ops, arithmetic::quotient(ops, b.negated(), h_dot), cosh_h),
            self.gm_sqrt,
        );
        InPlane { x, y, x_dot, y_dot }
    }

    /// Where on the hyperbola with the semi major axis `a` the object is.
    fn find_on_hyperbola<A: Arithmetic>(&self, ops: &A, a: F64, ecc_anom: F64) -> (r: InPlane)
        requires
            ops.lawful(),
        ensures
            r == self.on_hyperbola(ops, a, ecc_anom),
    {
        let sinh_h = ops.unary(Unary::Sinh, ecc_anom);
        let cosh_h = ops.unary(Unary::Cosh, ecc_anom);
        let b = arithmetic::times(
            ops,
            a.neg(),
            ops.unary(
                Unary::Sqrt,
                arithmetic::minus(
                    ops,
                    ops.unary(Unary::Squared, self.eccentricity),
                    F64::from_bits(constants::ONE),
                ),
            ),
        );
        let h_dot = arithmetic::times(
            ops,
            ops.binary(Binary::Power, a.abs(), F64::from_bits(constants::ONE_AND_HALF)),
            arithmetic::minus(
                ops,
                F64::from_bits(constants::ONE),
                arithmetic::times(ops, self.eccentricity, cosh_h),
            ),
        );
        let x = arithmetic::times(ops, a, arithmetic::minus(ops, cosh_h, self.eccentricity));
        let y = arithmetic::times(ops, b, sinh_h);
        let x_dot = arithmetic::times(
            ops,
            arithmetic::times(ops, arithmetic::over(ops, a.neg(), h_dot), sinh_h),
            self.gm_sqrt,
        );
        let y_dot = arithmetic::times(
            ops,
            arithmetic::times(ops, arithmetic::over(ops, b.neg(), h_dot), cosh_h),
            self.gm_sqrt,
        );
        InPlane { x, y, x_dot, y_dot }
    }

    /// Where on the parabola the object is.
    pub open spec fn on_parabola<A: Arithmetic>(&self, ops: &A, ecc_anom: F64) -> InPlane {
        let d_dot = arithmetic::sum(
            ops,
            self.peri_dist,
            arithmetic::quotient(
                ops,
                ops.one(Unary::Squared, ecc_anom),
                F64 { bits: constants::TWO },
            ),
        );
        let x = arithmetic::difference(
            ops,
            self.peri_dist,
            arithmetic::quotient(
                ops,
                ops.one(Unary::Squared, ecc_anom),
                F64 { bits: constants::TWO },
            ),
        );
        let y = arithmetic::product(
            ops,
            ops.one(
                Unary::Sqrt,
                arithmetic::product(ops, F64 { bits: constants::TWO }, self.peri_dist),
            ),
            ecc_anom,
        );
        let x_dot = arithmetic::product(
            ops,
            arithmetic::quotient(ops, ecc_anom.negated(), d_dot),
            self.gm_sqrt,
        );
        let y_dot = arithmetic::product(
            ops,
            arithmetic::quotient(
                ops,
                ops.one(
                    Unary::Sqrt,
                    arithmetic::product(ops, F64 { bits: constants::TWO }, self.peri_dist),
                ),
                d_dot,
            ),
            self.gm_sqrt,
        );
        InPlane { x, y, x_dot, y_dot }
    }

    /// Where on the parabola the object is.
    fn find_on_parabola<A: Arithmetic>(&self, ops: &A, ecc_anom: F64) -> (r: InPlane)
        requires
            ops.lawful(),
        ensures
            r == self.on_parabola(ops, ecc_anom),
    {
        let d_dot = arithmetic::plus(
            ops,
            self.peri_dist,
            arithmetic::over(
                ops,
                ops.unary(Unary::Squared, ecc_anom),
                F64::from_bits(constants::TWO),
            ),
        );
        let x = arithmetic::minus(
            ops,
            self.peri_dist,
            arithmetic::over(
                ops,
                ops.unary(Unary::Squared, ecc_anom),
                F64::from_bits(constants::TWO),
            ),
        );
        let y = arithmetic::times(
            ops,
            ops.unary(
                Unary::Sqrt,
                arithmetic::times(ops, F64::from_bits(constants::TWO), self.peri_dist),
            ),
            ecc_anom,
        );
        let x_dot = arithmetic::times(
            ops,
            arithmetic::over(ops, ecc_anom.neg(), d_dot),
            self.gm_sqrt,
        );
        let y_dot = arithmetic::times(
            ops,
            arithmetic::over(
                ops,
                ops.unary(
                    Unary::Sqrt,
                    arithmetic::times(ops, F64::from_bits(constants::TWO), self.peri_dist),
                ),
                d_dot,
            ),
            self.gm_sqrt,
        );
        InPlane { x, y, x_dot, y_dot }
    }

    /// A position and a velocity in the plane of the orbit, turned into space.
    pub open spec fn turned_out<A: Arithmetic>(&self, ops: &A, at: InPlane) -> Motion<Ecliptic> {
        let s_w = ops.one(Unary::Sin, self.peri_arg);
        let c_w = ops.one(Unary::Cos, self.peri_arg);
        let s_o = ops.one(Unary::Sin, self.lon_of_ascending);
        let c_o = ops.one(Unary::Cos, self.lon_of_ascending);
        let s_i = ops.one(Unary::Sin, self.inclination);
        let c_i = ops.one(Unary::Cos, self.inclination);
        let px = arithmetic::difference(
            ops,
            arithmetic::product(ops, c_w, c_o),
            arithmetic::product(ops, arithmetic::product(ops, s_w, s_o), c_i),
        );
        let py = arithmetic::sum(
            ops,
            arithmetic::product(ops, c_w, s_o),
            arithmetic::product(ops, arithmetic::product(ops, s_w, c_o), c_i),
        );
        let pz = arithmetic::product(ops, s_w, s_i);
        let qx = arithmetic::difference(
            ops,
            arithmetic::product(ops, s_w.negated(), c_o),
            arithmetic::product(ops, arithmetic::product(ops, c_w, s_o), c_i),
        );
        let qy = arithmetic::sum(
            ops,
            arithmetic::product(ops, s_w.negated(), s_o),
            arithmetic::product(ops, arithmetic::product(ops, c_w, c_o), c_i),
        );
        let qz = arithmetic::product(ops, c_w, s_i);
        let pos = frames::vector(
            arithmetic::sum(
                ops,
                arithmetic::product(ops, at.x, px),
                arithmetic::product(ops, at.y, qx),
            ),
            arithmetic::sum(
                ops,
                arithmetic::product(ops, at.x, py),
                arithmetic::product(ops, at.y, qy),
            ),
            arithmetic::sum(
                ops,
                arithmetic::product(ops, at.x, pz),
                arithmetic::product(ops, at.y, qz),
            ),
        );
        let vel = frames::vector(
            arithmetic::sum(
                ops,
                arithmetic::product(ops, at.x_dot, px),
                arithmetic::product(ops, at.y_dot, qx),
            ),
            arithmetic::sum(
                ops,
                arithmetic::product(ops, at.x_dot, py),
                arithmetic::product(ops, at.y_dot, qy),
            ),
            arithmetic::sum(
                ops,
                arithmetic::product(ops, at.x_dot, pz),
                arithmetic::product(ops, at.y_dot, qz),
            ),
        );
        Motion { pos, vel }
    }

    /// A position and a velocity in the plane of the orbit, turned into space.
    fn turn_out<A: Arithmetic>(&self, ops: &A, at: InPlane) -> (r: Motion<Ecliptic>)
        requires
            ops.lawful(),
        ensures
            r == self.turned_out(ops, at),
    {
        let s_w = ops.unary(Unary::Sin, self.peri_arg);
        let c_w = ops.unary(Unary::Cos, self.peri_arg);
        let s_o = ops.unary(Unary::Sin, self.lon_of_ascending);
        let c_o = ops.unary(Unary::Cos, self.lon_of_ascending);
        let s_i = ops.unary(Unary::Sin, self.inclination);
        let c_i = ops.unary(Unary::Cos, self.inclination);
        let px = arithmetic::minus(
            ops,
            arithmetic::times(ops, c_w, c_o),
            arithmetic::times(ops, arithmetic::times(ops, s_w, s_o), c_i),
        );
        let py = arithmetic::plus(
            ops,
            arithmetic::times(ops, c_w, s_o),
            arithmetic::times(ops, arithmetic::times(ops, s_w, c_o), c_i),
        );
        let pz = arithmetic::times(ops, s_w, s_i);
        let qx = arithmetic::minus(
            ops,
            arithmetic::times(ops, s_w.neg(), c_o),
            arithmetic::times(ops, arithmetic::times(ops, c_w, s_o), c_i),
        );
        let qy = arithmetic::plus(
            ops,
            arithmetic::times(ops, s_w.neg(), s_o),
            arithmetic::times(ops, arithmetic::times(ops, c_w, c_o), c_i),
        );
        let qz = arithmetic::times(ops, c_w, s_i);
        let pos = Vector::of(
            arithmetic::plus(
                ops,
                arithmetic::times(ops, at.x, px),
                arithmetic::times(ops, at.y, qx),
            ),
            arithmetic::plus(
                ops,
                arithmetic::times(ops, at.x, py),
                arithmetic::times(ops, at.y, qy),
            ),
            arithmetic::plus(
                ops,
                arithmetic::times(ops, at.x, pz),
                arithmetic::times(ops, at.y, qz),
            ),
        );
        let vel = Vector::of(
            arithmetic::plus(
                ops,
                arithmetic::times(ops, at.x_dot, px),
                arithmetic::times(ops, at.y_dot, qx),
            ),
            arithmetic::plus(
                ops,
                arithmetic::times(ops, at.x_dot, py),
                arithmetic::times(ops, at.y_dot, qy),
            ),
            arithmetic::plus(
                ops,
                arithmetic::times(ops, at.x_dot, pz),
                arithmetic::times(ops, at.y_dot, qz),
            ),
        );
        Motion { pos, vel }
    }

    /// The semi major axis by which the position is found; zero stands for a parabola.
    pub open spec fn working_axis<A: Arithmetic>(&self, ops: &A, c: Constants) -> F64 {
        if self.elliptical(ops, c) || self.hyperbolic(ops, c) {
            arithmetic::quotient(
                ops,
                self.peri_dist,
                arithmetic::difference(ops, F64 { bits: constants::ONE }, self.eccentricity),
            )
        } else {
            F64 { bits: constants::ZERO }
        }
    }

    /// The mean anomaly by which the position is found.
    pub open spec fn working_anomaly<A: Arithmetic>(&self, ops: &A, c: Constants) -> F64 {
        let motion = if self.elliptical(ops, c) || self.hyperbolic(ops, c) {
            arithmetic::product(
                ops,
                ops.two(
                    Binary::Power,
                    self.working_axis(ops, c).abs_value(),
                    (F64 { bits: constants::ONE_AND_HALF }).negated(),
                ),
                self.gm_sqrt,
            )
        } else {
            self.gm_sqrt
        };
        arithmetic::product(
            ops,
            motion,
            arithmetic::difference(ops, self.epoch.jd, self.peri_time.jd),
        )
    }

    /// The position and the velocity, or why the eccentric anomaly cannot be found.
    pub open spec fn motion<A: Physics>(&self, ops: &A) -> KeteResult<Motion<Ecliptic>> {
        let c = ops.values();
        let a = self.working_axis(ops, c);
        match ops.eccentric(self.eccentricity, self.working_anomaly(ops, c), self.peri_dist) {
            Err(e) => Err(e),
            Ok(ecc_anom) => Ok(
                self.turned_out(
                    ops,
                    if self.elliptical(ops, c) {
                        self.on_ellipse(ops, a, ecc_anom)
                    } else if self.hyperbolic(ops, c) {
                        self.on_hyperbola(ops, a, ecc_anom)
                    } else {
                        self.on_parabola(ops, ecc_anom)
                    },
                ),
            ),
        }
    }

    /// The position and the velocity.
    pub fn to_pos_vel<A: Physics>(&self, ops: &A) -> (r: KeteResult<Motion<Ecliptic>>)
        requires
            ops.lawful(),
        ensures
            r == self.motion(ops),
    {
        let c = ops.constants();
        let elliptical = self.is_elliptical(ops, c);
        let hyperbolic = self.is_hyperbolic(ops, c);
        let one = F64::from_bits(constants::ONE);
        let parabolic = !elliptical && !hyperbolic;
        let a = if parabolic {
            F64::from_bits(constants::ZERO)
        } else {
            arithmetic::over(ops, self.peri_dist, arithmetic::minus(ops, one, self.eccentricity))
        };
        let motion = if parabolic {
            self.gm_sqrt
        } else {
            let power = F64::from_bits(constants::ONE_AND_HALF).neg();
            arithmetic::times(ops, ops.binary(Binary::Power, a.abs(), power), self.gm_sqrt)
        };
        let elapsed = arithmetic::minus(ops, self.epoch.jd, self.peri_time.jd);
        let anomaly = arithmetic::times(ops, motion, elapsed);
        match ops.compute_eccentric_anomaly(self.eccentricity, anomaly, self.peri_dist) {
            Err(e) => Err(e),
            Ok(ecc_anom) => {
                let at = if elliptical {
                    self.find_on_ellipse(ops, a, ecc_anom)
                } else if hyperbolic {
                    self.find_on_hyperbola(ops, a, ecc_anom)
                } else {
                    self.find_on_parabola(ops, ecc_anom)
                };
                Ok(self.turn_out(ops, at))
            },
        }
    }

    /// The state of the object at the epoch of the elements.
    pub fn try_to_state<A: Physics>(&self, ops: &A) -> (r: KeteResult<State<Ecliptic>>)
        requires
            ops.lawful(),
        ensures
            r == (match self.motion(ops) {
                Err(e) => Err(e),
                Ok(at) => Ok(
                    State {
                        desig: self.desig,
                        epoch: self.epoch,
                        pos: at.pos,
                        vel: at.vel,
                        center: DynCenter(self.center_id),
                    },
                ),
            }),
    {
        match self.to_pos_vel(ops) {
            Err(e) => Err(e),
            Ok(at) => Ok(
                State::new(
                    self.desig.clone(),
                    self.epoch,
                    at.pos,
                    at.vel,
                    DynCenter(self.center_id),
                ),
            ),
        }
    }

    /// Is the eccentricity that of a parabola, or close to it.
    pub open spec fn parabolic<A: Arithmetic>(&self, ops: &A, c: Constants) -> bool {
        arithmetic::difference(
            ops,
            self.eccentricity,
            F64 { bits: constants::ONE },
        ).abs_value().spec_le(c.parabolic_limit)
    }

    /// Is the eccentricity that of a parabola, or close to it.
    pub fn is_parabolic<A: Arithmetic>(&self, ops: &A, c: Constants) -> (r: bool)
        requires
            ops.lawful(),
        ensures
            r == self.parabolic(ops, c),
    {
        let one = F64::from_bits(constants::ONE);
        arithmetic::minus(ops, self.eccentricity, one).abs().less_or_equal(c.parabolic_limit)
    }

    /// The semi major axis, NaN for a parabola.
    pub open spec fn semi_major_axis<A: Arithmetic>(&self, ops: &A, c: Constants) -> F64 {
        if self.parabolic(ops, c) {
            F64 { bits: crate::float::NAN_64 }
        } else {
            arithmetic::quotient(
                ops,
                self.peri_dist,
                arithmetic::difference(ops, F64 { bits: constants::ONE }, self.eccentricity),
            )
        }
    }

    /// The semi major axis, NaN for a parabola.
    pub fn semi_major<A: Arithmetic>(&self, ops: &A, c: Constants) -> (r: F64)
        requires
            ops.lawful(),
        ensures
            r == self.semi_major_axis(ops, c),
    {
        if self.is_parabolic(ops, c) {
            F64::new_nan()
        } else {
            arithmetic::over(
                ops,
                self.peri_dist,
                arithmetic::minus(ops, F64::from_bits(constants::ONE), self.eccentricity),
            )
        }
    }

    /// The orbital period, infinite for a parabola and for a hyperbola.
    pub open spec fn period<A: Arithmetic>(&self, ops: &A, c: Constants) -> F64 {
        let a = self.semi_major_axis(ops, c);
        if self.parabolic(ops, c) {
            F64 { bits: crate::float::INFINITY_64 }
        } else if a.spec_le(F64 { bits: NEARLY_ZERO }) {
            F64 { bits: crate::float::INFINITY_64 }
        } else {
            arithmetic::quotient(
                ops,
                arithmetic::product(
                    ops,
                    F64 { bits: TAU },
                    ops.two(Binary::Power, a, F64 { bits: constants::ONE_AND_HALF }),
                ),
                self.gm_sqrt,
            )
        }
    }

    /// The orbital period, infinite for a parabola and for a hyperbola.
    pub fn orbital_period<A: Arithmetic>(&self, ops: &A, c: Constants) -> (r: F64)
        requires
            ops.lawful(),
        ensures
            r == self.period(ops, c),
    {
        let a = self.semi_major(ops, c);
        if self.is_parabolic(ops, c) {
            F64::from_bits(crate::float::INFINITY_64)
        } else if a.less_or_equal(F64::from_bits(NEARLY_ZERO)) {
            F64::from_bits(crate::float::INFINITY_64)
        } else {
            arithmetic::over(
                ops,
                arithmetic::times(
                    ops,
                    F64::from_bits(TAU),
                    ops.binary(Binary::Power, a, F64::from_bits(constants::ONE_AND_HALF)),
                ),
                self.gm_sqrt,
            )
        }
    }

    /// The aphelion distance, NaN for a parabola.
    pub open spec fn aphelion_distance<A: Arithmetic>(&self, ops: &A, c: Constants) -> F64 {
        if self.parabolic(ops, c) {
            F64 { bits: crate::float::NAN_64 }
        } else {
            arithmetic::quotient(
                ops,
                arithmetic::product(
                    ops,
                    self.peri_dist,
                    arithmetic::sum(ops, F64 { bits: constants::ONE }, self.eccentricity),
                ),
                arithmetic::difference(ops, F64 { bits: constants::ONE }, self.eccentricity),
            )
        }
    }

    /// The aphelion distance, NaN for a parabola.
    pub fn aphelion<A: Arithmetic>(&self, ops: &A, c: Constants) -> (r: F64)
        requires
            ops.lawful(),
        ensures
            r == self.aphelion_distance(ops, c),
    {
        if self.is_parabolic(ops, c) {
            F64::new_nan()
        } else {
            arithmetic::over(
                ops,
                arithmetic::times(
                    ops,
                    self.peri_dist,
                    arithmetic::plus(ops, F64::from_bits(constants::ONE), self.eccentricity),
                ),
                arithmetic::minus(ops, F64::from_bits(constants::ONE), self.eccentricity),
            )
        }
    }

    /// The mean motion, in radians per day.
    pub open spec fn mean_rate<A: Arithmetic>(&self, ops: &A, c: Constants) -> F64 {
        if self.parabolic(ops, c) {
            arithmetic::quotient(
                ops,
                arithmetic::quotient(
                    ops,
                    arithmetic::product(ops, self.gm_sqrt, F64 { bits: constants::ONE_AND_HALF }),
                    ops.one(Unary::Sqrt, F64 { bits: constants::TWO }),
                ),
                ops.two(Binary::Power, self.peri_dist, F64 { bits: constants::ONE_AND_HALF }),
            )
        } else {
            arithmetic::quotient(
                ops,
                self.gm_sqrt,
                ops.two(
                    Binary::Power,
                    self.semi_major_axis(ops, c).abs_value(),
                    F64 { bits: constants::ONE_AND_HALF },
                ),
            )
        }
    }

    /// The mean motion, in radians per day.
    pub fn mean_motion<A: Arithmetic>(&self, ops: &A, c: Constants) -> (r: F64)
        requires
            ops.lawful(),
        ensures
            r == self.mean_rate(ops, c),
    {
        if self.is_parabolic(ops, c) {
            arithmetic::over(
                ops,
                arithmetic::over(
                    ops,
                    arithmetic::times(ops, self.gm_sqrt, F64::from_bits(constants::ONE_AND_HALF)),
                    ops.unary(Unary::Sqrt, F64::from_bits(constants::TWO)),
                ),
                ops.binary(Binary::Power, self.peri_dist, F64::from_bits(constants::ONE_AND_HALF)),
            )
        } else {
            arithmetic::over(
                ops,
                self.gm_sqrt,
                ops.binary(
                    Binary::Power,
                    self.semi_major(ops, c).abs(),
                    F64::from_bits(constants::ONE_AND_HALF),
                ),
            )
        }
    }

    /// The mean anomaly, within a full turn for an ellipse.
    pub open spec fn mean_angle<A: Arithmetic>(&self, ops: &A, c: Constants) -> F64 {
        let rate = self.mean_rate(ops, c);
        let anomaly = arithmetic::product(
            ops,
            arithmetic::difference(ops, self.epoch.jd, self.peri_time.jd),
            rate,
        );
        if self.elliptical(ops, c) {
            ops.two(Binary::RemEuclid, anomaly, F64 { bits: TAU })
        } else {
            anomaly
        }
    }

    /// The mean anomaly, within a full turn for an ellipse.
    pub fn mean_anomaly<A: Arithmetic>(&self, ops: &A, c: Constants) -> (r: F64)
        requires
            ops.lawful(),
        ensures
            r == self.mean_angle(ops, c),
    {
        let rate = self.mean_motion(ops, c);
        let anomaly = arithmetic::times(
            ops,
            arithmetic::minus(ops, self.epoch.jd, self.peri_time.jd),
            rate,
        );
        if self.is_elliptical(ops, c) {
            ops.binary(Binary::RemEuclid, anomaly, F64::from_bits(TAU))
        } else {
            anomaly
        }
    }

    /// The eccentric anomaly, within a full turn for an ellipse.
    pub open spec fn eccentric_angle<A: Physics>(&self, ops: &A) -> KeteResult<F64> {
        let c = ops.values();
        match ops.eccentric(self.eccentricity, self.mean_angle(ops, c), self.peri_dist) {
            Err(e) => Err(e),
            Ok(x) => if arithmetic::difference(
                ops,
                F64 { bits: constants::ONE },
                c.parabolic_limit,
            ).spec_lt(self.eccentricity) {
                Ok(x)
            } else {
                Ok(ops.two(Binary::RemEuclid, x, F64 { bits: TAU }))
            },
        }
    }

    /// The eccentric anomaly, within a full turn for an ellipse.
    pub fn eccentric_anomaly<A: Physics>(&self, ops: &A) -> (r: KeteResult<F64>)
        requires
            ops.lawful(),
        ensures
            r == self.eccentric_angle(ops),
    {
        let c = ops.constants();
        let mean = self.mean_anomaly(ops, c);
        match ops.compute_eccentric_anomaly(self.eccentricity, mean, self.peri_dist) {
            Err(e) => Err(e),
            Ok(x) => {
                let one = F64::from_bits(constants::ONE);
                if arithmetic::minus(ops, one, c.parabolic_limit).less(self.eccentricity) {
                    Ok(x)
                } else {
                    Ok(ops.binary(Binary::RemEuclid, x, F64::from_bits(TAU)))
                }
            },
        }
    }

    /// The true anomaly: the angle between perihelion and the object.
    pub fn true_anomaly<A: Physics>(&self, ops: &A) -> (r: KeteResult<F64>)
        requires
            ops.lawful(),
        ensures
            r == ops.true_angle(
                self.eccentricity,
                self.mean_angle(ops, ops.values()),
                self.peri_dist,
            ),
    {
        let mean = self.mean_anomaly(ops, ops.constants());
        ops.compute_true_anomaly(self.eccentricity, mean, self.peri_dist)
    }
}

/// Are the operations exact by which the axis and the far end of a conic are found.
pub open spec fn exact_apsides<A: Arithmetic>(ops: &A, v: Reading, e: CometElements) -> bool {
    let one = F64 { bits: constants::ONE };
    let less = arithmetic::difference(ops, one, e.eccentricity);
    let more = arithmetic::sum(ops, one, e.eccentricity);
    &&& v(one) == 1real
    &&& orbits::subtracts(ops, v, one, e.eccentricity)
    &&& v(less) != 0real
    &&& orbits::divides(ops, v, e.peri_dist, less)
    &&& orbits::adds(ops, v, one, e.eccentricity)
    &&& orbits::multiplies(ops, v, e.peri_dist, more)
    &&& orbits::divides(ops, v, arithmetic::product(ops, e.peri_dist, more), less)
}

/// The near and the far end of a conic are two semi major axes apart, and the eccentricity is how
/// far they are from its middle, in units of the axis.
pub proof fn law_apsides<A: Arithmetic>(ops: &A, v: Reading, c: Constants, e: CometElements)
    requires
        !e.parabolic(ops, c),
        exact_apsides(ops, v, e),
    ensures
        ({
            let a = v(e.semi_major_axis(ops, c));
            let (near, far) = (v(e.peri_dist), v(e.aphelion_distance(ops, c)));
            let ecc = v(e.eccentricity);
            &&& near + far == 2real * a
            &&& near == a * (1real - ecc)
            &&& far == a * (1real + ecc)
        }),
{
    let a = v(e.semi_major_axis(ops, c));
    let (near, far) = (v(e.peri_dist), v(e.aphelion_distance(ops, c)));
    let ecc = v(e.eccentricity);
    let (less, more) = (1real - ecc, 1real + ecc);
    assert(near == a * less);
    assert(far * less == near * more);
    rounding::lemma_order(a, less, more);
    rounding::lemma_order(less, more, 1real);
    rounding::lemma_order(a, more, less);
    assert(far * less == (a * more) * less);
    rounding::lemma_order(far, less, 1real);
    rounding::lemma_order(a * more, less, 1real);
    if 0real < less {
        conics::lemma_cancel(less, far, a * more);
    } else {
        rounding::lemma_minus(far, less);
        rounding::lemma_minus(a * more, less);
        rounding::lemma_order(far, -less, 1real);
        rounding::lemma_order(a * more, -less, 1real);
        conics::lemma_cancel(-less, far, a * more);
    }
    rounding::lemma_spread(a, 1real, -ecc, 0real);
    rounding::lemma_spread(a, 1real, ecc, 0real);
    rounding::lemma_minus(a, ecc);
    rounding::lemma_minus(a, 1real);
}

/// Are the operations exact by which period and mean motion are found.
pub open spec fn exact_period<A: Arithmetic>(
    ops: &A,
    v: Reading,
    c: Constants,
    e: CometElements,
) -> bool {
    let a = e.semi_major_axis(ops, c);
    let p = ops.two(Binary::Power, a, F64 { bits: constants::ONE_AND_HALF });
    &&& 0real < v(p)
    &&& v(p) * v(p) == v(a) * (v(a) * v(a))
    &&& orbits::multiplies(ops, v, F64 { bits: TAU }, p)
    &&& orbits::divides(ops, v, arithmetic::product(ops, F64 { bits: TAU }, p), e.gm_sqrt)
    &&& orbits::divides(ops, v, e.gm_sqrt, p)
}

/// An object on an ellipse makes a full turn in a period, by its mean motion. The square of the
/// period, times the mass of the center, is the cube of the axis, times the square of a full turn.
pub proof fn law_period<A: Arithmetic>(ops: &A, v: Reading, c: Constants, e: CometElements)
    requires
        !e.parabolic(ops, c),
        !e.semi_major_axis(ops, c).spec_le(F64 { bits: NEARLY_ZERO }),
        e.semi_major_axis(ops, c).abs_value() == e.semi_major_axis(ops, c),
        exact_period(ops, v, c, e),
    ensures
        ({
            let (t, n) = (v(e.period(ops, c)), v(e.mean_rate(ops, c)));
            let (a, g, turn) = (
                v(e.semi_major_axis(ops, c)),
                v(e.gm_sqrt),
                v(F64 { bits: TAU }),
            );
            &&& t * n == turn
            &&& (t * t) * (g * g) == (turn * turn) * (a * (a * a))
        }),
{
    let (t, n) = (v(e.period(ops, c)), v(e.mean_rate(ops, c)));
    let a = v(e.semi_major_axis(ops, c));
    let (g, turn) = (v(e.gm_sqrt), v(F64 { bits: TAU }));
    let p = v(
        ops.two(
            Binary::Power,
            e.semi_major_axis(ops, c),
            F64 { bits: constants::ONE_AND_HALF },
        ),
    );
    assert(t * g == turn * p);
    assert(n * p == g);
    rounding::lemma_order(t, n, p);
    rounding::lemma_order(t * n, p, 1real);
    rounding::lemma_order(turn, p, 1real);
    conics::lemma_cancel(p, t * n, turn);
    rounding::lemma_factors(t, g, t, g);
    rounding::lemma_factors(turn, p, turn, p);
}

/// The mean anomaly is zero at perihelion and grows by the mean motion. On an ellipse whole turns are
/// taken off, `turns` of them.
pub proof fn law_mean_anomaly<A: Arithmetic>(
    ops: &A,
    v: Reading,
    c: Constants,
    e: CometElements,
    turns: real,
)
    requires
        ({
            let rate = e.mean_rate(ops, c);
            let since = arithmetic::difference(ops, e.epoch.jd, e.peri_time.jd);
            let whole = arithmetic::product(ops, since, rate);
            &&& orbits::subtracts(ops, v, e.epoch.jd, e.peri_time.jd)
            &&& orbits::multiplies(ops, v, since, rate)
            &&& if e.elliptical(ops, c) {
                v(ops.two(Binary::RemEuclid, whole, F64 { bits: TAU })) == v(whole) - turns * v(
                    F64 { bits: TAU },
                )
            } else {
                turns == 0real
            }
        }),
    ensures
        v(e.mean_angle(ops, c)) + turns * v(F64 { bits: TAU }) == (v(e.epoch.jd) - v(
            e.peri_time.jd,
        )) * v(e.mean_rate(ops, c)),
{
    let t = v(F64 { bits: TAU });
    rounding::lemma_order(0real, t, 1real);
    rounding::lemma_minus(t, 1real);
}

} // verus!
