//! Models of the forces other than gravity, with the values of their parameters.
use crate::arithmetic;
use crate::arithmetic::Arithmetic;
use crate::conics;
use crate::constants::Constants;
use crate::errors::{Error, KeteResult, ValueFault};
use crate::float::F64;
use crate::forces::nongrav::farnocchia;
use crate::forces::nongrav::{DustNonGrav, FarnocchiaNonGrav, JplCometNonGrav, NonGravKind};
use crate::forces::traits::ParameterizedForce;
use crate::forces::{FrozenForce, FrozenNonGrav, NonGravMask, ParameterMask};
use crate::frames::{Equatorial, Vector};
use crate::orbits;
use crate::rounding;
use crate::rounding::Reading;
use vstd::prelude::*;

verus! {

/// What a model of forces is made of.
#[derive(Debug, Clone, Copy)]
pub enum NonGravData {
    /// Sunlight on a grain of dust.
    Dust {
        /// The push of sunlight over the pull of the Sun.
        beta: F64,
    },
    /// The push of the gas that leaves a comet.
    JplComet {
        /// The radial push.
        a1: F64,
        /// The transverse push.
        a2: F64,
        /// The normal push.
        a3: F64,
        /// The scale of the push.
        alpha: F64,
        /// The scale of the distance.
        r_0: F64,
        /// The exponent near the Sun.
        m: F64,
        /// The inner exponent.
        n: F64,
        /// The outer exponent.
        k: F64,
        /// The delay in days.
        dt: F64,
    },
    /// Sunlight and heat on an oblate body.
    Farnocchia {
        /// The area per mass.
        a_over_m: F64,
        /// The thermal parameter.
        lambda_0: F64,
        /// The albedo.
        albedo: F64,
        /// The absorptivity.
        absorptivity: F64,
        /// The flattening.
        flattening: F64,
        /// The direction of the spin pole.
        spin_pole: Vector<Equatorial>,
    },
}

/// A model of the forces other than gravity on one object.
#[derive(Debug, Clone, Copy)]
pub struct PyNonGravModel(pub NonGravData);

/// An entry of a list, zero where the list is too short.
pub open spec fn entry(values: Seq<F64>, i: int) -> F64 {
    if i < values.len() {
        values[i]
    } else {
        F64 { bits: 0 }
    }
}

/// An entry of a list, zero where the list is too short.
fn entry_of(values: &[F64], i: usize) -> (x: F64)
    ensures
        x == entry(values@, i as int),
{
    if i < values.len() {
        values[i]
    } else {
        F64::zero()
    }
}

/// The push over the pull of the Sun for a grain of the given size and density.
pub open spec fn beta_of_size<A: Arithmetic>(
    ops: &A,
    size: F64,
    density: F64,
    c_pr: F64,
    q_pr: F64,
) -> F64 {
    arithmetic::quotient(
        ops,
        arithmetic::product(ops, c_pr, q_pr),
        arithmetic::product(ops, size, density),
    )
}

/// The push over the pull of the Sun for a grain of the given size and density. The same formula
/// gives the size from the push.
fn find_beta_of_size<A: Arithmetic>(
    ops: &A,
    size: F64,
    density: F64,
    c_pr: F64,
    q_pr: F64,
) -> (r: F64)
    requires
        ops.lawful(),
    ensures
        r == beta_of_size(ops, size, density, c_pr, q_pr),
{
    let top = arithmetic::times(ops, c_pr, q_pr);
    let bottom = arithmetic::times(ops, size, density);
    arithmetic::over(ops, top, bottom)
}

impl PyNonGravModel {
    /// The surface, shape and pole of the body are ones it can have.
    pub open spec fn well_formed<A: Arithmetic>(&self, ops: &A) -> bool {
        match self.0 {
            NonGravData::Farnocchia { albedo, absorptivity, flattening, spin_pole, .. } =>
                farnocchia::surface_fault(
                ops,
                albedo,
                absorptivity,
                flattening,
                spin_pole,
            ) is None,
            _ => true,
        }
    }

    /// The force of the model, without the values of its parameters.
    pub open spec fn force<A: Arithmetic>(&self, ops: &A) -> NonGravKind {
        match self.0 {
            NonGravData::Dust { .. } => NonGravKind::Dust(DustNonGrav),
            NonGravData::JplComet { alpha, r_0, m, n, k, dt, .. } => NonGravKind::JplComet(
                JplCometNonGrav { alpha, r_0, m, n, k, dt },
            ),
            NonGravData::Farnocchia { albedo, absorptivity, flattening, spin_pole, .. } =>
                NonGravKind::Farnocchia(
                FarnocchiaNonGrav {
                    albedo,
                    absorptivity,
                    flattening,
                    spin_pole: spin_pole.unit(ops),
                },
            ),
        }
    }

    /// The values of the parameters.
    pub open spec fn values(&self) -> Seq<F64> {
        match self.0 {
            NonGravData::Dust { beta } => seq![beta],
            NonGravData::JplComet { a1, a2, a3, .. } => seq![a1, a2, a3],
            NonGravData::Farnocchia { a_over_m, lambda_0, .. } => seq![a_over_m, lambda_0],
        }
    }

    /// The force of the model, without the values of its parameters.
    pub fn to_force<A: Arithmetic>(&self, ops: &A) -> (f: NonGravKind)
        requires
            ops.lawful(),
            self.well_formed(ops),
        ensures
            f == self.force(ops),
            f.n_params() == self.values().len(),
    {
        match self.0 {
            NonGravData::Dust { .. } => NonGravKind::Dust(DustNonGrav),
            NonGravData::JplComet { alpha, r_0, m, n, k, dt, .. } => NonGravKind::JplComet(
                JplCometNonGrav::new(alpha, r_0, m, n, k, dt),
            ),
            NonGravData::Farnocchia { albedo, absorptivity, flattening, spin_pole, .. } =>
                NonGravKind::Farnocchia(
                FarnocchiaNonGrav {
                    albedo,
                    absorptivity,
                    flattening,
                    spin_pole: spin_pole.normalize(ops),
                },
            ),
        }
    }

    /// The values of the parameters.
    pub fn initial_values(&self) -> (v: Vec<F64>)
        ensures
            v@ == self.values(),
    {
        let v = match self.0 {
            NonGravData::Dust { beta } => vec![beta],
            NonGravData::JplComet { a1, a2, a3, .. } => vec![a1, a2, a3],
            NonGravData::Farnocchia { a_over_m, lambda_0, .. } => vec![a_over_m, lambda_0],
        };
        assert(v@ =~= self.values());
        v
    }

    /// The force with its parameters held at their values.
    pub fn to_frozen<A: Arithmetic>(&self, ops: &A) -> (f: FrozenNonGrav)
        requires
            ops.lawful(),
            self.well_formed(ops),
        ensures
            f.inner == self.force(ops),
            f.values@ == self.values(),
    {
        let inner = self.to_force(ops);
        let values = self.initial_values();
        FrozenForce { inner, values }
    }

    /// The force with all of its parameters free.
    pub fn to_mask<A: Arithmetic>(&self, ops: &A) -> (f: NonGravMask)
        requires
            ops.lawful(),
            self.well_formed(ops),
        ensures
            f.inner == self.force(ops),
            f.mask@ == open_mask(self.values().len()),
            f.well_formed(),
    {
        free_all(self.to_force(ops))
    }

    /// The model of a force and values for its parameters.
    pub open spec fn of_force(force: NonGravKind, values: Seq<F64>) -> Option<Self> {
        match force {
            NonGravKind::Dust(_) => if values.len() == 0 {
                None
            } else {
                Some(PyNonGravModel(NonGravData::Dust { beta: values[0] }))
            },
            NonGravKind::JplComet(f) => Some(
                PyNonGravModel(
                    NonGravData::JplComet {
                        a1: entry(values, 0),
                        a2: entry(values, 1),
                        a3: entry(values, 2),
                        alpha: f.alpha,
                        r_0: f.r_0,
                        m: f.m,
                        n: f.n,
                        k: f.k,
                        dt: f.dt,
                    },
                ),
            ),
            NonGravKind::Farnocchia(f) => Some(
                PyNonGravModel(
                    NonGravData::Farnocchia {
                        a_over_m: entry(values, 0),
                        lambda_0: entry(values, 1),
                        albedo: f.albedo,
                        absorptivity: f.absorptivity,
                        flattening: f.flattening,
                        spin_pole: f.spin_pole,
                    },
                ),
            ),
        }
    }

    /// The model of a force and values for its parameters. A value which is missing is taken to
    /// be zero, but a grain of dust needs its own.
    pub fn from_force(template: &NonGravKind, values: &[F64]) -> (r: Option<Self>)
        ensures
            r == Self::of_force(*template, values@),
    {
        match template {
            NonGravKind::Dust(_) => if values.len() == 0 {
                None
            } else {
                Some(PyNonGravModel(NonGravData::Dust { beta: values[0] }))
            },
            NonGravKind::JplComet(f) => Some(
                PyNonGravModel(
                    NonGravData::JplComet {
                        a1: entry_of(values, 0),
                        a2: entry_of(values, 1),
                        a3: entry_of(values, 2),
                        alpha: f.alpha,
                        r_0: f.r_0,
                        m: f.m,
                        n: f.n,
                        k: f.k,
                        dt: f.dt,
                    },
                ),
            ),
            NonGravKind::Farnocchia(f) => Some(
                PyNonGravModel(
                    NonGravData::Farnocchia {
                        a_over_m: entry_of(values, 0),
                        lambda_0: entry_of(values, 1),
                        albedo: f.albedo,
                        absorptivity: f.absorptivity,
                        flattening: f.flattening,
                        spin_pole: f.spin_pole,
                    },
                ),
            ),
        }
    }

    /// There is no model without a kind.
    pub fn new() -> (r: KeteResult<Self>)
        ensures
            r == Err::<Self, Error>(Error::ValueError(ValueFault::NeedsFactory)),
    {
        Err(Error::ValueError(ValueFault::NeedsFactory))
    }

    /// A grain of dust, given either by the push of sunlight or by its diameter.
    pub fn new_dust<A: Arithmetic>(
        ops: &A,
        beta: Option<F64>,
        diameter: Option<F64>,
        density: F64,
        c_pr: F64,
        q_pr: F64,
    ) -> (r: KeteResult<Self>)
        requires
            ops.lawful(),
        ensures
            r == (match (beta, diameter) {
                (None, None) => Err(Error::ValueError(ValueFault::NoDustSize)),
                (Some(_), Some(_)) => Err(Error::ValueError(ValueFault::TwoDustSizes)),
                (Some(b), None) => Ok(PyNonGravModel(NonGravData::Dust { beta: b })),
                (None, Some(d)) => Ok(
                    PyNonGravModel(
                        NonGravData::Dust { beta: beta_of_size(ops, d, density, c_pr, q_pr) },
                    ),
                ),
            }),
    {
        match (beta, diameter) {
            (None, None) => Err(Error::ValueError(ValueFault::NoDustSize)),
            (Some(_), Some(_)) => Err(Error::ValueError(ValueFault::TwoDustSizes)),
            (Some(b), None) => Ok(PyNonGravModel(NonGravData::Dust { beta: b })),
            (None, Some(d)) => Ok(
                PyNonGravModel(
                    NonGravData::Dust { beta: find_beta_of_size(ops, d, density, c_pr, q_pr) },
                ),
            ),
        }
    }

    /// The push of sunlight over the pull of the Sun; NaN unless this is a grain of dust.
    pub fn beta(&self) -> (r: F64)
        ensures
            r == (match self.0 {
                NonGravData::Dust { beta } => beta,
                _ => F64 { bits: crate::float::NAN_64 },
            }),
    {
        match self.0 {
            NonGravData::Dust { beta } => beta,
            _ => F64::new_nan(),
        }
    }

    /// The diameter of a grain of dust in meters; NaN unless this is one.
    pub fn diameter<A: Arithmetic>(&self, ops: &A, density: F64, c_pr: F64, q_pr: F64) -> (r: F64)
        requires
            ops.lawful(),
        ensures
            r == (match self.0 {
                NonGravData::Dust { beta } => beta_of_size(ops, beta, density, c_pr, q_pr),
                _ => F64 { bits: crate::float::NAN_64 },
            }),
    {
        match self.0 {
            NonGravData::Dust { beta } => find_beta_of_size(ops, beta, density, c_pr, q_pr),
            _ => F64::new_nan(),
        }
    }

    /// The push of the gas that leaves a comet.
    pub fn new_comet(
        a1: F64,
        a2: F64,
        a3: F64,
        alpha: F64,
        r_0: F64,
        m: F64,
        n: F64,
        k: F64,
        dt: F64,
    ) -> (r: Self)
        ensures
            r == PyNonGravModel(NonGravData::JplComet { a1, a2, a3, alpha, r_0, m, n, k, dt }),
    {
        PyNonGravModel(NonGravData::JplComet { a1, a2, a3, alpha, r_0, m, n, k, dt })
    }

    /// The push on an asteroid, in the form of that on a comet.
    pub fn new_asteroid(
        a1: F64,
        a2: F64,
        a3: F64,
        alpha: F64,
        r_0: F64,
        m: F64,
        n: F64,
        k: F64,
        dt: F64,
    ) -> (r: Self)
        ensures
            r == PyNonGravModel(NonGravData::JplComet { a1, a2, a3, alpha, r_0, m, n, k, dt }),
    {
        PyNonGravModel(NonGravData::JplComet { a1, a2, a3, alpha, r_0, m, n, k, dt })
    }

    /// Sunlight and heat on an oblate body.
    pub fn new_farnocchia<A: Arithmetic>(
        ops: &A,
        a_over_m: F64,
        lambda_0: F64,
        albedo: F64,
        absorptivity: F64,
        flattening: F64,
        spin_pole: Vector<Equatorial>,
    ) -> (r: KeteResult<Self>)
        requires
            ops.lawful(),
        ensures
            r == (match farnocchia::surface_fault(
                ops,
                albedo,
                absorptivity,
                flattening,
                spin_pole,
            ) {
                Some(f) => Err(Error::ValueError(f)),
                None => Ok(
                    PyNonGravModel(
                        NonGravData::Farnocchia {
                            a_over_m,
                            lambda_0,
                            albedo,
                            absorptivity,
                            flattening,
                            spin_pole,
                        },
                    ),
                ),
            }),
            r matches Ok(m) ==> m.well_formed(ops),
    {
        match FarnocchiaNonGrav::new(ops, albedo, absorptivity, flattening, spin_pole) {
            Err(e) => Err(e),
            Ok(_) => Ok(
                PyNonGravModel(
                    NonGravData::Farnocchia {
                        a_over_m,
                        lambda_0,
                        albedo,
                        absorptivity,
                        flattening,
                        spin_pole,
                    },
                ),
            ),
        }
    }

    /// The area per mass of an oblate body; NaN unless this is one.
    pub fn a_over_m(&self) -> (r: F64)
        ensures
            r == (match self.0 {
                NonGravData::Farnocchia { a_over_m, .. } => a_over_m,
                _ => F64 { bits: crate::float::NAN_64 },
            }),
    {
        match self.0 {
            NonGravData::Farnocchia { a_over_m, .. } => a_over_m,
            _ => F64::new_nan(),
        }
    }

    /// The thermal parameter of an oblate body; NaN unless this is one.
    pub fn lambda_0(&self) -> (r: F64)
        ensures
            r == (match self.0 {
                NonGravData::Farnocchia { lambda_0, .. } => lambda_0,
                _ => F64 { bits: crate::float::NAN_64 },
            }),
    {
        match self.0 {
            NonGravData::Farnocchia { lambda_0, .. } => lambda_0,
            _ => F64::new_nan(),
        }
    }

    /// The density of an oblate body of the given diameter; NaN unless this is one.
    pub fn bulk_density<A: Arithmetic>(&self, ops: &A, diameter: F64) -> (r: F64)
        requires
            ops.lawful(),
        ensures
            r == (match self.0 {
                NonGravData::Farnocchia { a_over_m, flattening, .. } => farnocchia::density_of(
                    ops,
                    a_over_m,
                    diameter,
                    flattening,
                ),
                _ => F64 { bits: crate::float::NAN_64 },
            }),
    {
        match self.0 {
            NonGravData::Farnocchia { a_over_m, flattening, .. } =>
                farnocchia::density_from_a_over_m(ops, a_over_m, diameter, flattening),
            _ => F64::new_nan(),
        }
    }

    /// The thermal inertia of the surface of an oblate body; NaN unless this is one.
    pub fn thermal_inertia<A: Arithmetic>(
        &self,
        ops: &A,
        c: Constants,
        emissivity: F64,
        rotation_period: F64,
    ) -> (r: F64)
        requires
            ops.lawful(),
        ensures
            r == (match self.0 {
                NonGravData::Farnocchia { lambda_0, absorptivity, flattening, .. } =>
                    farnocchia::inertia_of(
                    ops,
                    c,
                    lambda_0,
                    emissivity,
                    absorptivity,
                    flattening,
                    rotation_period,
                ),
                _ => F64 { bits: crate::float::NAN_64 },
            }),
    {
        match self.0 {
            NonGravData::Farnocchia { lambda_0, absorptivity, flattening, .. } =>
                farnocchia::thermal_inertia_from_lambda_0(
                ops,
                c,
                lambda_0,
                emissivity,
                absorptivity,
                flattening,
                rotation_period,
            ),
            _ => F64::new_nan(),
        }
    }

    /// The numbers of the model, each after its name.
    pub open spec fn named(&self) -> Seq<(Seq<char>, F64)> {
        match self.0 {
            NonGravData::Dust { beta } => seq![("beta"@, beta)],
            NonGravData::JplComet { a1, a2, a3, alpha, r_0, m, n, k, dt } => seq![
                ("a1"@, a1),
                ("a2"@, a2),
                ("a3"@, a3),
                ("alpha"@, alpha),
                ("r_0"@, r_0),
                ("m"@, m),
                ("n"@, n),
                ("k"@, k),
                ("dt"@, dt),
            ],
            NonGravData::Farnocchia {
                a_over_m,
                lambda_0,
                albedo,
                absorptivity,
                flattening,
                spin_pole,
            } => seq![
                ("a_over_m"@, a_over_m),
                ("lambda_0"@, lambda_0),
                ("albedo"@, albedo),
                ("absorptivity"@, absorptivity),
                ("flattening"@, flattening),
                ("spin_pole_x"@, spin_pole.x),
                ("spin_pole_y"@, spin_pole.y),
                ("spin_pole_z"@, spin_pole.z),
            ],
        }
    }

    /// The numbers of the model, each after its name.
    pub fn items(&self) -> (r: Vec<(&'static str, F64)>)
        ensures
            names_and_numbers(r@) == self.named(),
    {
        let r = match self.0 {
            NonGravData::Dust { beta } => vec![("beta", beta)],
            NonGravData::JplComet { a1, a2, a3, alpha, r_0, m, n, k, dt } => vec![
                ("a1", a1),
                ("a2", a2),
                ("a3", a3),
                ("alpha", alpha),
                ("r_0", r_0),
                ("m", m),
                ("n", n),
                ("k", k),
                ("dt", dt),
            ],
            NonGravData::Farnocchia {
                a_over_m,
                lambda_0,
                albedo,
                absorptivity,
                flattening,
                spin_pole,
            } => vec![
                ("a_over_m", a_over_m),
                ("lambda_0", lambda_0),
                ("albedo", albedo),
                ("absorptivity", absorptivity),
                ("flattening", flattening),
                ("spin_pole_x", spin_pole.x),
                ("spin_pole_y", spin_pole.y),
                ("spin_pole_z", spin_pole.z),
            ],
        };
        assert(names_and_numbers(r@) =~= self.named());
        r
    }
}

/// Names and numbers, with the names as sequences of characters.
pub open spec fn names_and_numbers(items: Seq<(&'static str, F64)>) -> Seq<(Seq<char>, F64)> {
    Seq::new(items.len(), |i: int| (items[i].0@, items[i].1))
}

/// A mask which holds none of `n` parameters.
pub open spec fn open_mask(n: nat) -> Seq<Option<F64>> {
    Seq::new(n, |i: int| None)
}

/// A force with all of its parameters free.
pub fn free_all(force: NonGravKind) -> (f: NonGravMask)
    ensures
        f.inner == force,
        f.mask@ == open_mask(force.n_params()),
        f.well_formed(),
{
    let n: usize = force.n_free_params();
    let mut mask: Vec<Option<F64>> = Vec::new();
    let mut i: usize = 0;
    while i < n
        invariant
            i <= n,
            mask@ == open_mask(i as nat),
        decreases n - i,
    {
        mask.push(None);
        i = i + 1;
        assert(mask@ =~= open_mask(i as nat));
    }
    ParameterMask { inner: force, mask }
}

/// A grain of dust and a comet are found again from their force and the values of its
/// parameters. So is an oblate body, but for the length of its pole.
pub proof fn law_model_from_force<A: Arithmetic>(ops: &A, model: PyNonGravModel)
    ensures
        PyNonGravModel::of_force(model.force(ops), model.values()) == Some(
            match model.0 {
                NonGravData::Farnocchia {
                    a_over_m,
                    lambda_0,
                    albedo,
                    absorptivity,
                    flattening,
                    spin_pole,
                } => PyNonGravModel(
                    NonGravData::Farnocchia {
                        a_over_m,
                        lambda_0,
                        albedo,
                        absorptivity,
                        flattening,
                        spin_pole: spin_pole.unit(ops),
                    },
                ),
                _ => model,
            },
        ),
{
}

/// The names of the numbers of a model differ from one another.
pub proof fn law_names_differ(model: PyNonGravModel)
    ensures
        forall|i: int, j: int|
            0 <= i < j < model.named().len() ==> (#[trigger] model.named()[i]).0 != (
            #[trigger] model.named()[j]).0,
{
    reveal_strlit("beta");
    reveal_strlit("a1");
    reveal_strlit("a2");
    reveal_strlit("a3");
    reveal_strlit("alpha");
    reveal_strlit("r_0");
    reveal_strlit("m");
    reveal_strlit("n");
    reveal_strlit("k");
    reveal_strlit("dt");
    reveal_strlit("a_over_m");
    reveal_strlit("lambda_0");
    reveal_strlit("albedo");
    reveal_strlit("absorptivity");
    reveal_strlit("flattening");
    reveal_strlit("spin_pole_x");
    reveal_strlit("spin_pole_y");
    reveal_strlit("spin_pole_z");
    let s = model.named();
    match model.0 {
        NonGravData::Dust { .. } => {},
        NonGravData::JplComet { .. } => {
            assert(s[0].0[1] == '1' && s[1].0[1] == '2' && s[2].0[1] == '3' && s[8].0[1] == 't');
            assert(s[5].0[0] == 'm' && s[6].0[0] == 'n' && s[7].0[0] == 'k');
            assert(s[0].0.len() == 2 && s[1].0.len() == 2 && s[2].0.len() == 2 && s[8].0.len()
                == 2);
            assert(s[5].0.len() == 1 && s[6].0.len() == 1 && s[7].0.len() == 1);
            assert(s[3].0.len() == 5 && s[4].0.len() == 3);
            assert(s.len() == 9);
        },
        NonGravData::Farnocchia { .. } => {
            assert(s[0].0[0] == 'a' && s[1].0[0] == 'l' && s[0].0.len() == 8 && s[1].0.len() == 8);
            assert(s[2].0.len() == 6 && s[3].0.len() == 12 && s[4].0.len() == 10);
            assert(s[5].0[10] == 'x' && s[6].0[10] == 'y' && s[7].0[10] == 'z');
            assert(s[5].0.len() == 11 && s[6].0.len() == 11 && s[7].0.len() == 11);
            assert(s.len() == 8);
        },
    }
    assert forall|i: int, j: int| 0 <= i < j < s.len() implies (#[trigger] s[i]).0 != (
    #[trigger] s[j]).0 by {
        assert(i == 0 || i == 1 || i == 2 || i == 3 || i == 4 || i == 5 || i == 6 || i == 7);
        assert(j == 1 || j == 2 || j == 3 || j == 4 || j == 5 || j == 6 || j == 7 || j == 8);
    }
}

/// The push on a grain of dust falls off with its size and its density. The size comes back from the
/// push.
pub proof fn law_dust_size_comes_back<A: Arithmetic>(
    ops: &A,
    v: Reading,
    size: F64,
    density: F64,
    c_pr: F64,
    q_pr: F64,
)
    requires
        ({
            let top = arithmetic::product(ops, c_pr, q_pr);
            let bottom = arithmetic::product(ops, size, density);
            let beta = beta_of_size(ops, size, density, c_pr, q_pr);
            let back = arithmetic::product(ops, beta, density);
            &&& orbits::multiplies(ops, v, c_pr, q_pr)
            &&& orbits::multiplies(ops, v, size, density)
            &&& orbits::divides(ops, v, top, bottom)
            &&& orbits::multiplies(ops, v, beta, density)
            &&& orbits::divides(ops, v, top, back)
            &&& 0real < v(back)
        }),
    ensures
        ({
            let beta = beta_of_size(ops, size, density, c_pr, q_pr);
            &&& v(beta) * (v(size) * v(density)) == v(c_pr) * v(q_pr)
            &&& v(beta_of_size(ops, beta, density, c_pr, q_pr)) == v(size)
        }),
{
    let beta = beta_of_size(ops, size, density, c_pr, q_pr);
    let again = v(beta_of_size(ops, beta, density, c_pr, q_pr));
    let (b, x, d) = (v(beta), v(size), v(density));
    rounding::lemma_order(b, x, d);
    rounding::lemma_order(x, b, d);
    rounding::lemma_order(b, x, 1real);
    let k = b * d;
    rounding::lemma_order(again, k, 1real);
    rounding::lemma_order(x, k, 1real);
    conics::lemma_cancel(k, again, x);
}

} // verus!
