//! Cometary elements with their angles in degrees.
use crate::arithmetic;
use crate::arithmetic::Arithmetic;
use crate::constants::Constants;
use crate::desig::Desig;
use crate::elements;
use crate::elements::CometElements;
use crate::errors::KeteResult;
use crate::float::F64;
use crate::forces::gravity::GravParams;
use crate::orbits;
use crate::physics::{Motion, Physics};
use crate::python::state;
use crate::python::state::{PyFrames, PyState};
use crate::rounding;
use crate::rounding::Reading;
use crate::time::Time;
use vstd::prelude::*;

verus! {

/// An angle in degrees.
pub open spec fn in_degrees<A: Arithmetic>(ops: &A, radians: F64) -> F64 {
    arithmetic::product(ops, radians, F64 { bits: elements::DEGREES_PER_RADIAN })
}

/// An angle in degrees.
pub fn to_degrees<A: Arithmetic>(ops: &A, radians: F64) -> (r: F64)
    requires
        ops.lawful(),
    ensures
        r == in_degrees(ops, radians),
{
    arithmetic::times(ops, radians, F64::from_bits(elements::DEGREES_PER_RADIAN))
}

/// An angle in radians.
pub open spec fn in_radians<A: Arithmetic>(ops: &A, degrees: F64) -> F64 {
    arithmetic::product(ops, degrees, F64 { bits: elements::RADIANS_PER_DEGREE })
}

/// An angle in radians.
pub fn to_radians<A: Arithmetic>(ops: &A, degrees: F64) -> (r: F64)
    requires
        ops.lawful(),
    ensures
        r == in_radians(ops, degrees),
{
    arithmetic::times(ops, degrees, F64::from_bits(elements::RADIANS_PER_DEGREE))
}

/// An angle in degrees, where there is one.
pub open spec fn result_in_degrees<A: Arithmetic>(ops: &A, r: KeteResult<F64>) -> KeteResult<F64> {
    match r {
        Ok(radians) => Ok(in_degrees(ops, radians)),
        Err(e) => Err(e),
    }
}

/// The decimal digits of a number.
pub open spec fn digits(n: nat) -> Seq<char>
    decreases n,
{
    let last = ('0' as u32 + (n % 10) as u32) as char;
    if n < 10 {
        seq![last]
    } else {
        digits(n / 10).push(last)
    }
}

/// A whole number in decimal, with a sign if it is negative.
pub open spec fn decimal(n: int) -> Seq<char> {
    if n < 0 {
        seq!['-'] + digits((-n) as nat)
    } else {
        digits(n as nat)
    }
}

/// Write one decimal digit at the end of a text.
fn write_digit(s: &mut String, d: u32)
    requires
        d < 10,
    ensures
        final(s)@ == old(s)@.push(('0' as u32 + d) as char),
{
    let text = match d {
        0 => "0",
        1 => "1",
        2 => "2",
        3 => "3",
        4 => "4",
        5 => "5",
        6 => "6",
        7 => "7",
        8 => "8",
        _ => "9",
    };
    proof {
        reveal_strlit("0");
        reveal_strlit("1");
        reveal_strlit("2");
        reveal_strlit("3");
        reveal_strlit("4");
        reveal_strlit("5");
        reveal_strlit("6");
        reveal_strlit("7");
        reveal_strlit("8");
        reveal_strlit("9");
    }
    let ghost before = s@;
    s.append(text);
    assert(s@ =~= before.push(('0' as u32 + d) as char));
}

/// Write the decimal digits of a number at the end of a text.
fn write_digits(s: &mut String, n: u32)
    ensures
        final(s)@ == old(s)@ + digits(n as nat),
    decreases n,
{
    let ghost before = s@;
    if n >= 10 {
        write_digits(s, n / 10);
    }
    write_digit(s, n % 10);
    assert(s@ =~= before + digits(n as nat));
}

/// A whole number in decimal, with a sign if it is negative.
fn integer_text(n: i32) -> (s: String)
    ensures
        s@ == decimal(n as int),
{
    let mut s = String::new();
    if n < 0 {
        proof {
            reveal_strlit("-");
        }
        s.append("-");
        write_digits(&mut s, (-(n as i64)) as u32);
    } else {
        write_digits(&mut s, n as u32);
    }
    assert(s@ =~= decimal(n as int));
    s
}

/// The elements of an orbit around one body.
#[derive(Debug, Clone)]
pub struct PyCometElements(pub CometElements);

impl PyCometElements {
    /// The elements of an orbit around the body `center_id`. Angles are in degrees. A body whose
    /// mass is not known weighs as much as the Sun.
    pub fn new<A: Arithmetic>(
        ops: &A,
        c: Constants,
        known: &[GravParams],
        desig: String,
        epoch: Time,
        eccentricity: F64,
        inclination: F64,
        peri_dist: F64,
        peri_arg: F64,
        peri_time: Time,
        lon_of_ascending: F64,
        center_id: i32,
    ) -> (r: Self)
        requires
            ops.lawful(),
        ensures
            r.0 == (CometElements {
                desig: Desig::Name(desig),
                epoch,
                eccentricity,
                inclination: in_radians(ops, inclination),
                lon_of_ascending: in_radians(ops, lon_of_ascending),
                peri_time,
                peri_arg: in_radians(ops, peri_arg),
                peri_dist,
                center_id,
                gm_sqrt: CometElements::center_gm_sqrt(ops, c, known@, center_id),
            }),
    {
        let gm_sqrt = CometElements::gm_sqrt_for_center(ops, c, known, center_id);
        PyCometElements(
            CometElements {
                desig: Desig::Name(desig),
                epoch,
                eccentricity,
                inclination: to_radians(ops, inclination),
                lon_of_ascending: to_radians(ops, lon_of_ascending),
                peri_time,
                peri_arg: to_radians(ops, peri_arg),
                peri_dist,
                center_id,
                gm_sqrt,
            },
        )
    }

    /// The elements of the orbit of a state around its center.
    pub fn from_state<A: Arithmetic>(
        ops: &A,
        c: Constants,
        known: &[GravParams],
        state: PyState,
    ) -> (r: Self)
        requires
            ops.lawful(),
        ensures
            r.0 == CometElements::of_motion(
                ops,
                c,
                state.raw.desig,
                state.raw.epoch,
                Motion {
                    pos: state::ecliptic_state(ops, c, state.raw).pos,
                    vel: state::ecliptic_state(ops, c, state.raw).vel,
                },
                state.raw.center.0,
                CometElements::center_gm_sqrt(ops, c, known@, state.raw.center.0),
            ),
    {
        let turned = state.to_ecliptic(ops, c);
        PyCometElements(CometElements::from_state(ops, c, known, &turned))
    }

    /// When the elements hold.
    pub fn epoch(&self) -> (t: Time)
        ensures
            t == self.0.epoch,
    {
        self.0.epoch
    }

    /// What the object is called. `name_of` finds the name which belongs to a NAIF id, and
    /// `written` writes out any other designation. A NAIF id without a name is written as a
    /// number.
    pub fn desig<N: Fn(i32) -> Option<String>, W: Fn(&Desig) -> String>(
        &self,
        name_of: N,
        written: W,
    ) -> (s: String)
        requires
            forall|id: i32| call_requires(name_of, (id,)),
            forall|d: &Desig| call_requires(written, (d,)),
        ensures
            match self.0.desig {
                Desig::Naif(id) => call_ensures(name_of, (id,), Some(s)) || (call_ensures(
                    name_of,
                    (id,),
                    None,
                ) && s@ == decimal(id as int)),
                _ => call_ensures(written, (&self.0.desig,), s),
            },
    {
        match &self.0.desig {
            Desig::Naif(id) => match name_of(*id) {
                Some(name) => name,
                None => integer_text(*id),
            },
            _ => written(&self.0.desig),
        }
    }

    /// The eccentricity.
    pub fn eccentricity(&self) -> (r: F64)
        ensures
            r == self.0.eccentricity,
    {
        self.0.eccentricity
    }

    /// The inclination in degrees.
    pub fn inclination<A: Arithmetic>(&self, ops: &A) -> (r: F64)
        requires
            ops.lawful(),
        ensures
            r == in_degrees(ops, self.0.inclination),
    {
        to_degrees(ops, self.0.inclination)
    }

    /// The longitude of the ascending node in degrees.
    pub fn lon_of_ascending<A: Arithmetic>(&self, ops: &A) -> (r: F64)
        requires
            ops.lawful(),
        ensures
            r == in_degrees(ops, self.0.lon_of_ascending),
    {
        to_degrees(ops, self.0.lon_of_ascending)
    }

    /// When the object is at perihelion.
    pub fn peri_time(&self) -> (t: Time)
        ensures
            t == self.0.peri_time,
    {
        self.0.peri_time
    }

    /// The NAIF id of the central body.
    pub fn center_id(&self) -> (id: i32)
        ensures
            id == self.0.center_id,
    {
        self.0.center_id
    }

    /// The argument of perihelion in degrees.
    pub fn peri_arg<A: Arithmetic>(&self, ops: &A) -> (r: F64)
        requires
            ops.lawful(),
        ensures
            r == in_degrees(ops, self.0.peri_arg),
    {
        to_degrees(ops, self.0.peri_arg)
    }

    /// The distance of perihelion in AU.
    pub fn peri_dist(&self) -> (r: F64)
        ensures
            r == self.0.peri_dist,
    {
        self.0.peri_dist
    }

    /// The semi major axis in AU.
    pub fn semi_major<A: Arithmetic>(&self, ops: &A, c: Constants) -> (r: F64)
        requires
            ops.lawful(),
        ensures
            r == self.0.semi_major_axis(ops, c),
    {
        self.0.semi_major(ops, c)
    }

    /// The mean motion in degrees per day.
    pub fn mean_motion<A: Arithmetic>(&self, ops: &A, c: Constants) -> (r: F64)
        requires
            ops.lawful(),
        ensures
            r == in_degrees(ops, self.0.mean_rate(ops, c)),
    {
        to_degrees(ops, self.0.mean_motion(ops, c))
    }

    /// The orbital period in days, NaN if the orbit is not an ellipse.
    pub fn orbital_period<A: Arithmetic>(&self, ops: &A, c: Constants) -> (r: F64)
        requires
            ops.lawful(),
        ensures
            r == (if self.0.elliptical(ops, c) {
                self.0.period(ops, c)
            } else {
                F64 { bits: crate::float::NAN_64 }
            }),
    {
        if self.0.is_elliptical(ops, c) {
            self.0.orbital_period(ops, c)
        } else {
            F64::new_nan()
        }
    }

    /// The eccentric anomaly in degrees.
    pub fn eccentric_anomaly<A: Physics>(&self, ops: &A) -> (r: KeteResult<F64>)
        requires
            ops.lawful(),
        ensures
            r == result_in_degrees(ops, self.0.eccentric_angle(ops)),
    {
        match self.0.eccentric_anomaly(ops) {
            Ok(radians) => Ok(to_degrees(ops, radians)),
            Err(e) => Err(e),
        }
    }

    /// The mean anomaly in degrees.
    pub fn mean_anomaly<A: Arithmetic>(&self, ops: &A, c: Constants) -> (r: F64)
        requires
            ops.lawful(),
        ensures
            r == in_degrees(ops, self.0.mean_angle(ops, c)),
    {
        to_degrees(ops, self.0.mean_anomaly(ops, c))
    }

    /// The distance of aphelion in AU.
    pub fn aphelion<A: Arithmetic>(&self, ops: &A, c: Constants) -> (r: F64)
        requires
            ops.lawful(),
        ensures
            r == self.0.aphelion_distance(ops, c),
    {
        self.0.aphelion(ops, c)
    }

    /// The true anomaly in degrees.
    pub fn true_anomaly<A: Physics>(&self, ops: &A) -> (r: KeteResult<F64>)
        requires
            ops.lawful(),
        ensures
            r == result_in_degrees(
                ops,
                ops.true_angle(
                    self.0.eccentricity,
                    self.0.mean_angle(ops, ops.values()),
                    self.0.peri_dist,
                ),
            ),
    {
        match self.0.true_anomaly(ops) {
            Ok(radians) => Ok(to_degrees(ops, radians)),
            Err(e) => Err(e),
        }
    }

    /// The state of the object at the epoch of the elements, shown in the frame of the ecliptic.
    pub fn state<A: Physics>(&self, ops: &A) -> (r: KeteResult<PyState>)
        requires
            ops.lawful(),
        ensures
            r == (match self.0.motion(ops) {
                Err(e) => Err(e),
                Ok(at) => Ok(
                    PyState {
                        raw: state::equatorial_state(
                            ops,
                            ops.values(),
                            crate::state::State {
                                desig: self.0.desig,
                                epoch: self.0.epoch,
                                pos: at.pos,
                                vel: at.vel,
                                center: crate::frames::DynCenter(self.0.center_id),
                            },
                        ),
                        frame: PyFrames::Ecliptic,
                    },
                ),
            }),
    {
        match self.0.try_to_state(ops) {
            Err(e) => Err(e),
            Ok(s) => {
                let c = ops.constants();
                Ok(PyState::of_ecliptic(ops, c, s))
            },
        }
    }
}

/// An angle which is given in degrees is shown in degrees as it was given.
pub proof fn law_degrees_come_back<A: Arithmetic>(ops: &A, v: Reading, degrees: F64)
    requires
        v(F64 { bits: elements::RADIANS_PER_DEGREE }) * v(
            F64 { bits: elements::DEGREES_PER_RADIAN },
        ) == 1real,
        orbits::multiplies(ops, v, degrees, F64 { bits: elements::RADIANS_PER_DEGREE }),
        orbits::multiplies(
            ops,
            v,
            in_radians(ops, degrees),
            F64 { bits: elements::DEGREES_PER_RADIAN },
        ),
    ensures
        v(in_degrees(ops, in_radians(ops, degrees))) == v(degrees),
{
    let (a, b) = (
        v(F64 { bits: elements::RADIANS_PER_DEGREE }),
        v(F64 { bits: elements::DEGREES_PER_RADIAN }),
    );
    rounding::lemma_order(v(degrees), a, b);
    rounding::lemma_minus(v(degrees), 1real);
}

} // verus!
