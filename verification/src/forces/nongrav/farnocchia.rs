//! Sunlight and heat on an oblate body.
use crate::arithmetic;
use crate::arithmetic::{Arithmetic, Binary, Unary};
use crate::conics;
use crate::constants;
use crate::constants::Constants;
use crate::errors::{Error, KeteResult, ValueFault};
use crate::exact;
use crate::float::F64;
use crate::forces::differences;
use crate::forces::traits;
use crate::forces::traits::{AnalyticForce, Evaluate, Jacobians, ParameterizedForce};
use crate::frames::{Equatorial, SunCenter, Vector};
use crate::numbers;
use crate::orbits;
use crate::physics::Physics;
use crate::ratios;
use crate::rounding;
use crate::rounding::{read, Reading};
use crate::time::Time;
use vstd::prelude::*;

verus! {

/// Flatter than this is not a sphere.
pub const ALMOST_ONE: u64 = 0x3fef_ffff_ff76_8fa1;

/// Two thirds.
pub const TWO_THIRDS: u64 = 0x3fe5_5555_5555_5555;

/// Four ninths.
pub const FOUR_NINTHS: u64 = 0x3fdc_71c7_1c71_c71c;

/// The distance from the center of a body to its poles in meters, from its diameter in kilometers
/// and its ratio of axes.
pub open spec fn polar_radius<A: Arithmetic>(ops: &A, diameter: F64, flattening: F64) -> F64 {
    arithmetic::product(
        ops,
        arithmetic::product(
            ops,
            ops.two(Binary::Power, flattening, F64 { bits: TWO_THIRDS }),
            diameter,
        ),
        F64 { bits: constants::FIVE_HUNDRED },
    )
}

/// The cross section per mass of a body, in square meters per kilogram, from its density in
/// kilograms per cubic meter, its diameter in kilometers and its ratio of axes.
pub open spec fn area_per_mass<A: Arithmetic>(
    ops: &A,
    density: F64,
    diameter: F64,
    flattening: F64,
) -> F64 {
    arithmetic::quotient(
        ops,
        F64 { bits: constants::THREE },
        arithmetic::product(
            ops,
            arithmetic::product(ops, F64 { bits: constants::FOUR }, density),
            polar_radius(ops, diameter, flattening),
        ),
    )
}

/// The cross section per mass of a body, in square meters per kilogram, from its density in
/// kilograms per cubic meter, its diameter in kilometers and its ratio of axes.
pub fn a_over_m_from_physical<A: Arithmetic>(
    ops: &A,
    density: F64,
    diameter: F64,
    flattening: F64,
) -> (r: F64)
    requires
        ops.lawful(),
    ensures
        r == area_per_mass(ops, density, diameter, flattening),
{
    let polar_radius = arithmetic::times(
        ops,
        arithmetic::times(
            ops,
            ops.binary(Binary::Power, flattening, F64::from_bits(TWO_THIRDS)),
            diameter,
        ),
        F64::from_bits(constants::FIVE_HUNDRED),
    );
    arithmetic::over(
        ops,
        F64::from_bits(constants::THREE),
        arithmetic::times(
            ops,
            arithmetic::times(ops, F64::from_bits(constants::FOUR), density),
            polar_radius,
        ),
    )
}

/// The density of a body from its cross section per mass, its diameter and its ratio of axes.
pub open spec fn density_of<A: Arithmetic>(
    ops: &A,
    a_over_m: F64,
    diameter: F64,
    flattening: F64,
) -> F64 {
    arithmetic::quotient(
        ops,
        F64 { bits: constants::THREE },
        arithmetic::product(
            ops,
            arithmetic::product(ops, F64 { bits: constants::FOUR }, a_over_m),
            polar_radius(ops, diameter, flattening),
        ),
    )
}

/// The density of a body from its cross section per mass, its diameter and its ratio of axes.
pub fn density_from_a_over_m<A: Arithmetic>(
    ops: &A,
    a_over_m: F64,
    diameter: F64,
    flattening: F64,
) -> (r: F64)
    requires
        ops.lawful(),
    ensures
        r == density_of(ops, a_over_m, diameter, flattening),
{
    let polar_radius = arithmetic::times(
        ops,
        arithmetic::times(
            ops,
            ops.binary(Binary::Power, flattening, F64::from_bits(TWO_THIRDS)),
            diameter,
        ),
        F64::from_bits(constants::FIVE_HUNDRED),
    );
    arithmetic::over(
        ops,
        F64::from_bits(constants::THREE),
        arithmetic::times(
            ops,
            arithmetic::times(ops, F64::from_bits(constants::FOUR), a_over_m),
            polar_radius,
        ),
    )
}

/// Are the operations exact by which a density becomes a cross section per mass, or a cross
/// section per mass a density.
pub open spec fn exact_section<A: Arithmetic>(
    ops: &A,
    v: Reading,
    x: F64,
    diameter: F64,
    flattening: F64,
) -> bool {
    let (three, four) = (F64 { bits: constants::THREE }, F64 { bits: constants::FOUR });
    let radius = polar_radius(ops, diameter, flattening);
    let part = arithmetic::product(ops, four, x);
    &&& orbits::multiplies(ops, v, four, x)
    &&& orbits::multiplies(ops, v, part, radius)
    &&& orbits::divides(ops, v, three, arithmetic::product(ops, part, radius))
}

/// What a factor other than zero leaves equal is equal.
proof fn lemma_cancel_any(k: real, a: real, b: real)
    requires
        k != 0real,
        k * a == k * b,
    ensures
        a == b,
{
    conics::lemma_square(k);
    rounding::lemma_order(k, k, a);
    rounding::lemma_order(k, k, b);
    conics::lemma_cancel(k * k, a, b);
}

/// The density comes back from the cross section per mass, where no rounding comes in between.
pub proof fn law_density_comes_back<A: Arithmetic>(
    ops: &A,
    v: Reading,
    density: F64,
    diameter: F64,
    flattening: F64,
)
    requires
        v(F64 { bits: constants::THREE }) == 3real,
        exact_section(ops, v, density, diameter, flattening),
        exact_section(
            ops,
            v,
            area_per_mass(ops, density, diameter, flattening),
            diameter,
            flattening,
        ),
    ensures
        v(
            density_of(
                ops,
                area_per_mass(ops, density, diameter, flattening),
                diameter,
                flattening,
            ),
        ) == v(density),
{
    let area = area_per_mass(ops, density, diameter, flattening);
    let back = v(density_of(ops, area, diameter, flattening));
    let (a, d) = (v(area), v(density));
    let f = v(F64 { bits: constants::FOUR });
    let r = v(polar_radius(ops, diameter, flattening));
    lemma_same_section(f, r, d, a, back);
}

/// The cross section per mass comes back from the density, where no rounding comes in between.
pub proof fn law_section_comes_back<A: Arithmetic>(
    ops: &A,
    v: Reading,
    a_over_m: F64,
    diameter: F64,
    flattening: F64,
)
    requires
        v(F64 { bits: constants::THREE }) == 3real,
        exact_section(ops, v, a_over_m, diameter, flattening),
        exact_section(
            ops,
            v,
            density_of(ops, a_over_m, diameter, flattening),
            diameter,
            flattening,
        ),
    ensures
        v(
            area_per_mass(
                ops,
                density_of(ops, a_over_m, diameter, flattening),
                diameter,
                flattening,
            ),
        ) == v(a_over_m),
{
    law_density_comes_back(ops, v, a_over_m, diameter, flattening);
}

/// Are the operations off by at most the factor `k` by which a density becomes a cross section per
/// mass, or a cross section per mass a density.
pub open spec fn rounded_section<A: Arithmetic>(
    ops: &A,
    v: Reading,
    k: real,
    x: F64,
    diameter: F64,
    flattening: F64,
) -> bool {
    let (three, four) = (F64 { bits: constants::THREE }, F64 { bits: constants::FOUR });
    let radius = polar_radius(ops, diameter, flattening);
    let part = arithmetic::product(ops, four, x);
    &&& ratios::multiplies(ops, v, k, four, x)
    &&& ratios::multiplies(ops, v, k, part, radius)
    &&& ratios::divides(ops, v, k, three, arithmetic::product(ops, part, radius))
}

/// A positive number with a product which is known.
proof fn lemma_other_factor(k: real, c: real) -> (x: real)
    requires
        0real < k,
        0real < c,
    ensures
        x * k == c,
        0real < x,
{
    let x = c / k;
    assert(x * k == c) by (nonlinear_arith)
        requires
            x == c / k,
            0real < k,
    ;
    orbits::lemma_positive_factor(x, k);
    x
}

/// What a number becomes by way of three over four times itself times a radius.
proof fn lemma_section<A: Arithmetic>(
    ops: &A,
    v: Reading,
    k: real,
    x1: F64,
    x: real,
    diameter: F64,
    flattening: F64,
    n: nat,
) -> (y: real)
    requires
        1real < k,
        v(F64 { bits: constants::THREE }) == 3real,
        0real < v(F64 { bits: constants::FOUR }),
        0real < x,
        0real < v(polar_radius(ops, diameter, flattening)),
        ratios::ratio(v(x1), x, ratios::raised(k, n)),
        rounded_section(ops, v, k, x1, diameter, flattening),
    ensures
        0real < y,
        y * ((v(F64 { bits: constants::FOUR }) * x) * v(
            polar_radius(ops, diameter, flattening),
        )) == 3real,
        ratios::ratio(
            v(area_per_mass(ops, x1, diameter, flattening)),
            y,
            ratios::raised(k, n + 3),
        ),
{
    let radius = polar_radius(ops, diameter, flattening);
    let four = F64 { bits: constants::FOUR };
    let part = arithmetic::product(ops, four, x1);
    let whole = arithmetic::product(ops, part, radius);
    let area = v(area_per_mass(ops, x1, diameter, flattening));
    let (f, r) = (v(four), v(radius));
    ratios::lemma_first(k);
    ratios::lemma_same(f, k, 0);
    ratios::lemma_same(r, k, 0);
    ratios::lemma_ratio_product(f, f, v(x1), x, k, 0, n);
    ratios::lemma_apart(v(part), f * v(x1), k, k);
    ratios::lemma_ratio_chain(v(part), f * v(x1), f * x, k, 1, n);
    ratios::lemma_ratio_product(v(part), f * x, r, r, k, n + 1, 0);
    ratios::lemma_apart(v(whole), v(part) * r, k, k);
    ratios::lemma_ratio_chain(v(whole), v(part) * r, (f * x) * r, k, 1, n + 1);
    let y = lemma_other_factor((f * x) * r, 3real);
    ratios::lemma_apart(area * v(whole), 3real, k, k);
    ratios::lemma_ratio_quotient(area, y, v(whole), (f * x) * r, k, 1, n + 2);
    y
}

/// The density comes back from the cross section per mass up to rounding: each of six operations is
/// off by at most the factor `k`, and the density by six such factors.
pub proof fn law_density_nearly_comes_back<A: Arithmetic>(
    ops: &A,
    v: Reading,
    k: real,
    density: F64,
    diameter: F64,
    flattening: F64,
)
    requires
        1real < k,
        v(F64 { bits: constants::THREE }) == 3real,
        0real < v(F64 { bits: constants::FOUR }),
        0real < v(density),
        0real < v(polar_radius(ops, diameter, flattening)),
        rounded_section(ops, v, k, density, diameter, flattening),
        rounded_section(
            ops,
            v,
            k,
            area_per_mass(ops, density, diameter, flattening),
            diameter,
            flattening,
        ),
    ensures
        ratios::ratio(
            v(
                density_of(
                    ops,
                    area_per_mass(ops, density, diameter, flattening),
                    diameter,
                    flattening,
                ),
            ),
            v(density),
            ratios::raised(k, 6),
        ),
{
    let area = area_per_mass(ops, density, diameter, flattening);
    let (f, r) = (v(F64 { bits: constants::FOUR }), v(polar_radius(ops, diameter, flattening)));
    let d = v(density);
    ratios::lemma_same(d, k, 0);
    let a = lemma_section(ops, v, k, density, d, diameter, flattening, 0);
    let back = lemma_section(ops, v, k, area, a, diameter, flattening, 3);
    // what comes back of the exact numbers is the density
    lemma_same_section(f, r, d, a, back);
}

/// The exact numbers come back.
proof fn lemma_same_section(f: real, r: real, d: real, a: real, back: real)
    requires
        a * ((f * d) * r) == 3real,
        back * ((f * a) * r) == 3real,
    ensures
        back == d,
{
    let k = (f * a) * r;
    rounding::lemma_order(f, d, r);
    rounding::lemma_order(f, a, r);
    rounding::lemma_order(a, f, d * r);
    rounding::lemma_order(f * a, d, r);
    rounding::lemma_order(f * a, r, d);
    rounding::lemma_order(d, r, 1real);
    rounding::lemma_order(f, a, 1real);
    assert(k * d == 3real);
    rounding::lemma_order(back, k, 1real);
    if k == 0real {
        rounding::lemma_minus(back, 1real);
    }
    lemma_cancel_any(k, back, d);
}

/// How the shape of a body changes the pressure of sunlight.
#[derive(Debug, Clone, Copy)]
pub struct Shape {
    /// Along the radial direction.
    pub psi_x: F64,
    /// Along the pole.
    pub psi_z: F64,
    /// The area relative to that of a sphere.
    pub sigma: F64,
}

/// The shape of a body with the ratio `e` of polar to equatorial radius.
pub open spec fn shape<A: Arithmetic>(ops: &A, e: F64) -> Shape {
    if (F64 { bits: ALMOST_ONE }).spec_le(e) {
        let one = F64 { bits: constants::ONE };
        Shape { psi_x: one, psi_z: one, sigma: one }
    } else {
        let e2 = arithmetic::product(ops, e, e);
        let eta = ops.one(
            Unary::Sqrt,
            arithmetic::difference(ops, F64 { bits: constants::ONE }, e2),
        );
        let log_term = ops.one(
            Unary::Ln,
            arithmetic::quotient(
                ops,
                arithmetic::sum(ops, F64 { bits: constants::ONE }, eta),
                arithmetic::difference(ops, F64 { bits: constants::ONE }, eta),
            ),
        );
        let psi_x = arithmetic::product(
            ops,
            arithmetic::quotient(
                ops,
                arithmetic::product(ops, F64 { bits: constants::THREE }, e2),
                arithmetic::product(
                    ops,
                    arithmetic::product(ops, F64 { bits: constants::FOUR }, eta),
                    eta,
                ),
            ),
            arithmetic::difference(
                ops,
                arithmetic::product(
                    ops,
                    arithmetic::quotient(
                        ops,
                        arithmetic::sum(
                            ops,
                            F64 { bits: constants::ONE },
                            arithmetic::product(ops, eta, eta),
                        ),
                        arithmetic::product(ops, F64 { bits: constants::TWO }, eta),
                    ),
                    log_term,
                ),
                F64 { bits: constants::ONE },
            ),
        );
        let psi_z = arithmetic::product(
            ops,
            arithmetic::quotient(
                ops,
                F64 { bits: constants::THREE },
                arithmetic::product(
                    ops,
                    arithmetic::product(ops, F64 { bits: constants::TWO }, eta),
                    eta,
                ),
            ),
            arithmetic::difference(
                ops,
                F64 { bits: constants::ONE },
                arithmetic::product(
                    ops,
                    arithmetic::quotient(
                        ops,
                        e2,
                        arithmetic::product(ops, F64 { bits: constants::TWO }, eta),
                    ),
                    log_term,
                ),
            ),
        );
        let sigma = arithmetic::product(
            ops,
            F64 { bits: constants::HALF },
            arithmetic::sum(
                ops,
                F64 { bits: constants::ONE },
                arithmetic::product(
                    ops,
                    arithmetic::quotient(
                        ops,
                        e2,
                        arithmetic::product(ops, F64 { bits: constants::TWO }, eta),
                    ),
                    log_term,
                ),
            ),
        );
        Shape { psi_x, psi_z, sigma }
    }
}

/// The shape of a body with the ratio `e` of polar to equatorial radius.
pub fn shape_factors<A: Arithmetic>(ops: &A, e: F64) -> (r: Shape)
    requires
        ops.lawful(),
    ensures
        r == shape(ops, e),
{
    if F64::from_bits(ALMOST_ONE).less_or_equal(e) {
        let one = F64::from_bits(constants::ONE);
        return Shape { psi_x: one, psi_z: one, sigma: one };
    }
    let e2 = arithmetic::times(ops, e, e);
    let eta = ops.unary(
        Unary::Sqrt,
        arithmetic::minus(ops, F64::from_bits(constants::ONE), e2),
    );
    let log_term = ops.unary(
        Unary::Ln,
        arithmetic::over(
            ops,
            arithmetic::plus(ops, F64::from_bits(constants::ONE), eta),
            arithmetic::minus(ops, F64::from_bits(constants::ONE), eta),
        ),
    );
    let psi_x = arithmetic::times(
        ops,
        arithmetic::over(
            ops,
            arithmetic::times(ops, F64::from_bits(constants::THREE), e2),
            arithmetic::times(
                ops,
                arithmetic::times(ops, F64::from_bits(constants::FOUR), eta),
                eta,
            ),
        ),
        arithmetic::minus(
            ops,
            arithmetic::times(
                ops,
                arithmetic::over(
                    ops,
                    arithmetic::plus(
                        ops,
                        F64::from_bits(constants::ONE),
                        arithmetic::times(ops, eta, eta),
                    ),
                    arithmetic::times(ops, F64::from_bits(constants::TWO), eta),
                ),
                log_term,
            ),
            F64::from_bits(constants::ONE),
        ),
    );
    let psi_z = arithmetic::times(
        ops,
        arithmetic::over(
            ops,
            F64::from_bits(constants::THREE),
            arithmetic::times(
                ops,
                arithmetic::times(ops, F64::from_bits(constants::TWO), eta),
                eta,
            ),
        ),
        arithmetic::minus(
            ops,
            F64::from_bits(constants::ONE),
            arithmetic::times(
                ops,
                arithmetic::over(
                    ops,
                    e2,
                    arithmetic::times(ops, F64::from_bits(constants::TWO), eta),
                ),
                log_term,
            ),
        ),
    );
    let sigma = arithmetic::times(
        ops,
        F64::from_bits(constants::HALF),
        arithmetic::plus(
            ops,
            F64::from_bits(constants::ONE),
            arithmetic::times(
                ops,
                arithmetic::over(
                    ops,
                    e2,
                    arithmetic::times(ops, F64::from_bits(constants::TWO), eta),
                ),
                log_term,
            ),
        ),
    );
    Shape { psi_x, psi_z, sigma }
}

/// What the heat which a body gives off is measured by.
pub open spec fn radiated<A: Arithmetic>(
    ops: &A,
    c: Constants,
    emissivity: F64,
    absorptivity: F64,
) -> F64 {
    arithmetic::product(
        ops,
        ops.two(
            Binary::Power,
            arithmetic::product(ops, emissivity, c.stefan_boltzmann),
            F64 { bits: constants::QUARTER },
        ),
        ops.two(
            Binary::Power,
            arithmetic::product(ops, absorptivity, c.solar_flux),
            F64 { bits: constants::THREE_QUARTERS },
        ),
    )
}

/// What the speed of the rotation is measured by, from the rotation period in hours.
pub open spec fn spin_rate<A: Arithmetic>(ops: &A, c: Constants, rotation_period: F64) -> F64 {
    ops.one(
        Unary::Sqrt,
        arithmetic::quotient(
            ops,
            c.pi,
            arithmetic::product(
                ops,
                arithmetic::product(ops, F64 { bits: constants::TWO }, rotation_period),
                F64 { bits: constants::SECONDS_PER_HOUR },
            ),
        ),
    )
}

/// What the shape of a body is measured by.
pub open spec fn spread<A: Arithmetic>(ops: &A, flattening: F64) -> F64 {
    ops.two(
        Binary::Power,
        shape(ops, flattening).sigma,
        F64 { bits: constants::THREE_QUARTERS },
    )
}

/// The thermal parameter of a body from what its surface is like and from its rotation period
/// in hours.
pub open spec fn thermal_parameter<A: Arithmetic>(
    ops: &A,
    c: Constants,
    thermal_inertia: F64,
    emissivity: F64,
    absorptivity: F64,
    flattening: F64,
    rotation_period: F64,
) -> F64 {
    arithmetic::product(
        ops,
        arithmetic::quotient(
            ops,
            arithmetic::product(ops, thermal_inertia, spread(ops, flattening)),
            radiated(ops, c, emissivity, absorptivity),
        ),
        spin_rate(ops, c, rotation_period),
    )
}

/// The thermal parameter of a body from what its surface is like and from its rotation period
/// in hours.
pub fn lambda_0_from_physical<A: Arithmetic>(
    ops: &A,
    c: Constants,
    thermal_inertia: F64,
    emissivity: F64,
    absorptivity: F64,
    flattening: F64,
    rotation_period: F64,
) -> (r: F64)
    requires
        ops.lawful(),
    ensures
        r == thermal_parameter(
            ops,
            c,
            thermal_inertia,
            emissivity,
            absorptivity,
            flattening,
            rotation_period,
        ),
{
    let sigma = shape_factors(ops, flattening).sigma;
    let radiated = arithmetic::times(
        ops,
        ops.binary(
            Binary::Power,
            arithmetic::times(ops, emissivity, c.stefan_boltzmann),
            F64::from_bits(constants::QUARTER),
        ),
        ops.binary(
            Binary::Power,
            arithmetic::times(ops, absorptivity, c.solar_flux),
            F64::from_bits(constants::THREE_QUARTERS),
        ),
    );
    let rate = ops.unary(
        Unary::Sqrt,
        arithmetic::over(
            ops,
            c.pi,
            arithmetic::times(
                ops,
                arithmetic::times(ops, F64::from_bits(constants::TWO), rotation_period),
                F64::from_bits(constants::SECONDS_PER_HOUR),
            ),
        ),
    );
    arithmetic::times(
        ops,
        arithmetic::over(
            ops,
            arithmetic::times(
                ops,
                thermal_inertia,
                ops.binary(Binary::Power, sigma, F64::from_bits(constants::THREE_QUARTERS)),
            ),
            radiated,
        ),
        rate,
    )
}

/// The thermal inertia of a body from its thermal parameter.
pub open spec fn inertia_of<A: Arithmetic>(
    ops: &A,
    c: Constants,
    lambda_0: F64,
    emissivity: F64,
    absorptivity: F64,
    flattening: F64,
    rotation_period: F64,
) -> F64 {
    arithmetic::quotient(
        ops,
        arithmetic::product(ops, lambda_0, radiated(ops, c, emissivity, absorptivity)),
        arithmetic::product(
            ops,
            spread(ops, flattening),
            spin_rate(ops, c, rotation_period),
        ),
    )
}

/// The thermal inertia of a body from its thermal parameter.
pub fn thermal_inertia_from_lambda_0<A: Arithmetic>(
    ops: &A,
    c: Constants,
    lambda_0: F64,
    emissivity: F64,
    absorptivity: F64,
    flattening: F64,
    rotation_period: F64,
) -> (r: F64)
    requires
        ops.lawful(),
    ensures
        r == inertia_of(ops, c, lambda_0, emissivity, absorptivity, flattening, rotation_period),
{
    let sigma = shape_factors(ops, flattening).sigma;
    let radiated = arithmetic::times(
        ops,
        ops.binary(
            Binary::Power,
            arithmetic::times(ops, emissivity, c.stefan_boltzmann),
            F64::from_bits(constants::QUARTER),
        ),
        ops.binary(
            Binary::Power,
            arithmetic::times(ops, absorptivity, c.solar_flux),
            F64::from_bits(constants::THREE_QUARTERS),
        ),
    );
    let rate = ops.unary(
        Unary::Sqrt,
        arithmetic::over(
            ops,
            c.pi,
            arithmetic::times(
                ops,
                arithmetic::times(ops, F64::from_bits(constants::TWO), rotation_period),
                F64::from_bits(constants::SECONDS_PER_HOUR),
            ),
        ),
    );
    arithmetic::over(
        ops,
        arithmetic::times(ops, lambda_0, radiated),
        arithmetic::times(
            ops,
            ops.binary(Binary::Power, sigma, F64::from_bits(constants::THREE_QUARTERS)),
            rate,
        ),
    )
}

/// The thermal inertia comes back from the thermal parameter, where no rounding comes in between
/// and nothing is divided by zero.
pub proof fn law_inertia_comes_back<A: Arithmetic>(
    ops: &A,
    v: Reading,
    c: Constants,
    thermal_inertia: F64,
    emissivity: F64,
    absorptivity: F64,
    flattening: F64,
    rotation_period: F64,
)
    requires
        ({
            let wide = spread(ops, flattening);
            let heat = radiated(ops, c, emissivity, absorptivity);
            let rate = spin_rate(ops, c, rotation_period);
            let part = arithmetic::product(ops, thermal_inertia, wide);
            let lambda = thermal_parameter(
                ops,
                c,
                thermal_inertia,
                emissivity,
                absorptivity,
                flattening,
                rotation_period,
            );
            &&& orbits::multiplies(ops, v, thermal_inertia, wide)
            &&& orbits::divides(ops, v, part, heat)
            &&& orbits::multiplies(ops, v, arithmetic::quotient(ops, part, heat), rate)
            &&& orbits::multiplies(ops, v, lambda, heat)
            &&& orbits::multiplies(ops, v, wide, rate)
            &&& orbits::divides(
                ops,
                v,
                arithmetic::product(ops, lambda, heat),
                arithmetic::product(ops, wide, rate),
            )
            &&& v(heat) != 0real
            &&& v(arithmetic::product(ops, wide, rate)) != 0real
        }),
    ensures
        v(
            inertia_of(
                ops,
                c,
                thermal_parameter(
                    ops,
                    c,
                    thermal_inertia,
                    emissivity,
                    absorptivity,
                    flattening,
                    rotation_period,
                ),
                emissivity,
                absorptivity,
                flattening,
                rotation_period,
            ),
        ) == v(thermal_inertia),
{
    let wide = spread(ops, flattening);
    let heat = radiated(ops, c, emissivity, absorptivity);
    let rate = spin_rate(ops, c, rotation_period);
    let part = arithmetic::product(ops, thermal_inertia, wide);
    let lambda = thermal_parameter(
        ops,
        c,
        thermal_inertia,
        emissivity,
        absorptivity,
        flattening,
        rotation_period,
    );
    let back = v(
        inertia_of(ops, c, lambda, emissivity, absorptivity, flattening, rotation_period),
    );
    let (g, w, h, r) = (v(thermal_inertia), v(wide), v(heat), v(rate));
    let t = v(arithmetic::quotient(ops, part, heat));
    // what is divided by w times r is t times r times h, and t times h is g times w
    assert(t * h == g * w);
    assert(back * (w * r) == (t * r) * h);
    rounding::lemma_order(t, r, h);
    rounding::lemma_order(t, h, r);
    rounding::lemma_order(r, h, 1real);
    rounding::lemma_order(g, w, r);
    rounding::lemma_order(back, w * r, 1real);
    rounding::lemma_order(g, w * r, 1real);
    lemma_cancel_any(w * r, back, g);
}

/// The thermal inertia comes back from the thermal parameter up to rounding: each of six operations
/// is off by at most the factor `k`, and the thermal inertia by six such factors.
pub proof fn law_inertia_nearly_comes_back<A: Arithmetic>(
    ops: &A,
    v: Reading,
    k: real,
    c: Constants,
    thermal_inertia: F64,
    emissivity: F64,
    absorptivity: F64,
    flattening: F64,
    rotation_period: F64,
)
    requires
        1real < k,
        0real < v(thermal_inertia),
        ({
            let wide = spread(ops, flattening);
            let heat = radiated(ops, c, emissivity, absorptivity);
            let rate = spin_rate(ops, c, rotation_period);
            let part = arithmetic::product(ops, thermal_inertia, wide);
            let lambda = thermal_parameter(
                ops,
                c,
                thermal_inertia,
                emissivity,
                absorptivity,
                flattening,
                rotation_period,
            );
            &&& 0real < v(wide) && 0real < v(heat) && 0real < v(rate)
            &&& ratios::multiplies(ops, v, k, thermal_inertia, wide)
            &&& ratios::divides(ops, v, k, part, heat)
            &&& ratios::multiplies(ops, v, k, arithmetic::quotient(ops, part, heat), rate)
            &&& ratios::multiplies(ops, v, k, lambda, heat)
            &&& ratios::multiplies(ops, v, k, wide, rate)
            &&& ratios::divides(
                ops,
                v,
                k,
                arithmetic::product(ops, lambda, heat),
                arithmetic::product(ops, wide, rate),
            )
        }),
    ensures
        ratios::ratio(
            v(
                inertia_of(
                    ops,
                    c,
                    thermal_parameter(
                        ops,
                        c,
                        thermal_inertia,
                        emissivity,
                        absorptivity,
                        flattening,
                        rotation_period,
                    ),
                    emissivity,
                    absorptivity,
                    flattening,
                    rotation_period,
                ),
            ),
            v(thermal_inertia),
            ratios::raised(k, 6),
        ),
{
    let wide = spread(ops, flattening);
    let heat = radiated(ops, c, emissivity, absorptivity);
    let rate = spin_rate(ops, c, rotation_period);
    let part = arithmetic::product(ops, thermal_inertia, wide);
    let over = arithmetic::quotient(ops, part, heat);
    let lambda = thermal_parameter(
        ops,
        c,
        thermal_inertia,
        emissivity,
        absorptivity,
        flattening,
        rotation_period,
    );
    let back = v(
        inertia_of(ops, c, lambda, emissivity, absorptivity, flattening, rotation_period),
    );
    let (g, w, h, r) = (v(thermal_inertia), v(wide), v(heat), v(rate));
    ratios::lemma_first(k);
    ratios::lemma_same(h, k, 0);
    ratios::lemma_same(r, k, 0);
    // the thermal parameter
    conics::lemma_positive(g, w);
    ratios::lemma_apart(v(part), g * w, k, k);
    ratios::lemma_apart(v(over) * h, v(part), k, k);
    ratios::lemma_ratio_chain(v(over) * h, v(part), g * w, k, 1, 1);
    let t = lemma_other_factor(h, g * w);
    ratios::lemma_ratio_quotient(v(over), t, h, h, k, 2, 0);
    ratios::lemma_ratio_product(v(over), t, r, r, k, 2, 0);
    ratios::lemma_apart(v(lambda), v(over) * r, k, k);
    ratios::lemma_ratio_chain(v(lambda), v(over) * r, t * r, k, 1, 2);
    // and back
    let num = arithmetic::product(ops, lambda, heat);
    let den = arithmetic::product(ops, wide, rate);
    ratios::lemma_ratio_product(v(lambda), t * r, h, h, k, 3, 0);
    ratios::lemma_apart(v(num), v(lambda) * h, k, k);
    ratios::lemma_ratio_chain(v(num), v(lambda) * h, (t * r) * h, k, 1, 3);
    conics::lemma_positive(w, r);
    ratios::lemma_apart(v(den), w * r, k, k);
    ratios::lemma_apart(back * v(den), v(num), k, k);
    ratios::lemma_ratio_chain(back * v(den), v(num), (t * r) * h, k, 1, 4);
    rounding::lemma_order(t, r, h);
    rounding::lemma_order(t, h, r);
    rounding::lemma_order(r, h, 1real);
    rounding::lemma_order(g, w, r);
    ratios::lemma_ratio_quotient(back, g, v(den), w * r, k, 5, 1);
}

/// The thermal parameter comes back from the thermal inertia, where no rounding comes in between
/// and nothing is divided by zero.
pub proof fn law_lambda_comes_back<A: Arithmetic>(
    ops: &A,
    v: Reading,
    c: Constants,
    lambda_0: F64,
    emissivity: F64,
    absorptivity: F64,
    flattening: F64,
    rotation_period: F64,
)
    requires
        ({
            let wide = spread(ops, flattening);
            let heat = radiated(ops, c, emissivity, absorptivity);
            let rate = spin_rate(ops, c, rotation_period);
            let inertia = inertia_of(
                ops,
                c,
                lambda_0,
                emissivity,
                absorptivity,
                flattening,
                rotation_period,
            );
            let part = arithmetic::product(ops, inertia, wide);
            &&& orbits::multiplies(ops, v, lambda_0, heat)
            &&& orbits::multiplies(ops, v, wide, rate)
            &&& orbits::divides(
                ops,
                v,
                arithmetic::product(ops, lambda_0, heat),
                arithmetic::product(ops, wide, rate),
            )
            &&& orbits::multiplies(ops, v, inertia, wide)
            &&& orbits::divides(ops, v, part, heat)
            &&& orbits::multiplies(ops, v, arithmetic::quotient(ops, part, heat), rate)
            &&& v(heat) != 0real
            &&& v(arithmetic::product(ops, wide, rate)) != 0real
        }),
    ensures
        v(
            thermal_parameter(
                ops,
                c,
                inertia_of(
                    ops,
                    c,
                    lambda_0,
                    emissivity,
                    absorptivity,
                    flattening,
                    rotation_period,
                ),
                emissivity,
                absorptivity,
                flattening,
                rotation_period,
            ),
        ) == v(lambda_0),
{
    let wide = spread(ops, flattening);
    let heat = radiated(ops, c, emissivity, absorptivity);
    let rate = spin_rate(ops, c, rotation_period);
    let inertia = inertia_of(
        ops,
        c,
        lambda_0,
        emissivity,
        absorptivity,
        flattening,
        rotation_period,
    );
    let part = arithmetic::product(ops, inertia, wide);
    let (l, g, w, h, r) = (v(lambda_0), v(inertia), v(wide), v(heat), v(rate));
    let t = v(arithmetic::quotient(ops, part, heat));
    // g times w times r is l times h, and t times h is g times w
    assert(g * (w * r) == l * h);
    assert(t * h == g * w);
    rounding::lemma_order(g, w, r);
    rounding::lemma_order(t, h, r);
    rounding::lemma_order(t, r, h);
    rounding::lemma_order(r, h, 1real);
    rounding::lemma_order(t * r, h, 1real);
    rounding::lemma_order(l, h, 1real);
    lemma_cancel_any(h, t * r, l);
}

/// Sunlight and heat on an oblate body which spins. Its cross section per mass and its
/// thermal parameter are free.
#[derive(Debug, Clone, Copy)]
pub struct FarnocchiaNonGrav {
    /// The geometric albedo.
    pub albedo: F64,
    /// The part of the light that is taken up.
    pub absorptivity: F64,
    /// The ratio of polar to equatorial radius, one for a sphere.
    pub flattening: F64,
    /// The direction of the spin pole, of length one.
    pub spin_pole: Vector<Equatorial>,
}

/// Is a property of a surface out of range.
pub open spec fn is_bad(v: F64) -> bool {
    !v.finite() || v.spec_lt(F64 { bits: 0 })
}

/// Is a property of a surface out of range.
fn check_bad(v: F64) -> (r: bool)
    ensures
        r == is_bad(v),
{
    !v.is_finite() || v.less(F64::zero())
}

/// Why a body cannot have these properties.
pub open spec fn surface_fault<A: Arithmetic>(
    ops: &A,
    albedo: F64,
    absorptivity: F64,
    flattening: F64,
    spin_pole: Vector<Equatorial>,
) -> Option<ValueFault> {
    if is_bad(albedo) {
        Some(ValueFault::BadAlbedo)
    } else if is_bad(absorptivity) {
        Some(ValueFault::BadAbsorptivity)
    } else if is_bad(flattening) {
        Some(ValueFault::BadFlattening)
    } else if (F64 { bits: constants::ONE }).spec_lt(flattening) {
        Some(ValueFault::FlatteningAboveOne)
    } else if !spin_pole.finite() || spin_pole.length(ops).same(F64 { bits: 0 }) {
        Some(ValueFault::BadSpinPole)
    } else {
        None
    }
}

impl FarnocchiaNonGrav {
    /// A body with the given surface, shape and spin pole.
    pub fn new<A: Arithmetic>(
        ops: &A,
        albedo: F64,
        absorptivity: F64,
        flattening: F64,
        spin_pole: Vector<Equatorial>,
    ) -> (r: KeteResult<Self>)
        requires
            ops.lawful(),
        ensures
            r == (match surface_fault(ops, albedo, absorptivity, flattening, spin_pole) {
                Some(f) => Err(Error::ValueError(f)),
                None => Ok(
                    FarnocchiaNonGrav {
                        albedo,
                        absorptivity,
                        flattening,
                        spin_pole: spin_pole.unit(ops),
                    },
                ),
            }),
    {
        if check_bad(albedo) {
            return Err(Error::ValueError(ValueFault::BadAlbedo));
        }
        if check_bad(absorptivity) {
            return Err(Error::ValueError(ValueFault::BadAbsorptivity));
        }
        if check_bad(flattening) {
            return Err(Error::ValueError(ValueFault::BadFlattening));
        }
        if F64::from_bits(constants::ONE).less(flattening) {
            return Err(Error::ValueError(ValueFault::FlatteningAboveOne));
        }
        if !spin_pole.is_finite() || spin_pole.norm(ops).equals(F64::zero()) {
            return Err(Error::ValueError(ValueFault::BadSpinPole));
        }
        Ok(
            FarnocchiaNonGrav {
                albedo,
                absorptivity,
                flattening,
                spin_pole: spin_pole.normalize(ops),
            },
        )
    }

    /// Where the light comes from and how strong it is.
    pub open spec fn geometry<A: Arithmetic>(
        &self,
        ops: &A,
        c: Constants,
        pos: Vector<Equatorial>,
        a_over_m: F64,
    ) -> Geometry {
        let e = self.flattening;
        let r = pos.length(ops);
        let r_inv = arithmetic::quotient(ops, F64 { bits: constants::ONE }, r);
        let r_hat = pos.scaled(ops, r_inv);
        let g = arithmetic::product(ops, r_inv, r_inv);
        let shape = shape(ops, e);
        let r_dot_s = r_hat.dotted(ops, self.spin_pole);
        let cos_theta = r_dot_s.negated();
        let sin2_theta = numbers::larger(
            arithmetic::difference(
                ops,
                F64 { bits: constants::ONE },
                arithmetic::product(ops, cos_theta, cos_theta),
            ),
            F64 { bits: constants::ZERO },
        );
        let j2_theta = ops.one(
            Unary::Sqrt,
            arithmetic::sum(
                ops,
                arithmetic::product(ops, arithmetic::product(ops, e, e), sin2_theta),
                arithmetic::product(ops, cos_theta, cos_theta),
            ),
        );
        let scale = arithmetic::product(ops, arithmetic::product(ops, a_over_m, c.f0_over_c), g);
        Geometry { r, r_hat, shape, r_dot_s, j2_theta, scale }
    }

    /// Where the light comes from and how strong it is.
    fn find_geometry<A: Arithmetic>(
        &self,
        ops: &A,
        c: Constants,
        pos: Vector<Equatorial>,
        a_over_m: F64,
    ) -> (r: Geometry)
        requires
            ops.lawful(),
        ensures
            r == self.geometry(ops, c, pos, a_over_m),
    {
        let e = self.flattening;
        let r = pos.norm(ops);
        let r_inv = arithmetic::over(ops, F64::from_bits(constants::ONE), r);
        let r_hat = pos.scale(ops, r_inv);
        let g = arithmetic::times(ops, r_inv, r_inv);
        let shape = shape_factors(ops, e);
        let r_dot_s = r_hat.dot(ops, self.spin_pole);
        let cos_theta = r_dot_s.neg();
        let sin2_theta = numbers::max(
            arithmetic::minus(
                ops,
                F64::from_bits(constants::ONE),
                arithmetic::times(ops, cos_theta, cos_theta),
            ),
            F64::from_bits(constants::ZERO),
        );
        let j2_theta = ops.unary(
            Unary::Sqrt,
            arithmetic::plus(
                ops,
                arithmetic::times(ops, arithmetic::times(ops, e, e), sin2_theta),
                arithmetic::times(ops, cos_theta, cos_theta),
            ),
        );
        let scale = arithmetic::times(ops, arithmetic::times(ops, a_over_m, c.f0_over_c), g);
        Geometry { r, r_hat, shape, r_dot_s, j2_theta, scale }
    }

    /// The acceleration by the pressure of sunlight.
    pub open spec fn sunlight<A: Arithmetic>(&self, ops: &A, g: Geometry) -> Vector<Equatorial> {
        let four_ninths = arithmetic::product(ops, F64 { bits: FOUR_NINTHS }, self.albedo);
        let radial = arithmetic::sum(
            ops,
            g.j2_theta,
            arithmetic::product(ops, four_ninths, g.shape.psi_x),
        );
        let pole = arithmetic::product(
            ops,
            arithmetic::product(
                ops,
                four_ninths,
                arithmetic::difference(ops, g.shape.psi_z, g.shape.psi_x),
            ),
            g.r_dot_s,
        );
        g.r_hat.scaled(ops, radial).sum(ops, self.spin_pole.scaled(ops, pole)).scaled(ops, g.scale)
    }

    /// The acceleration by the pressure of sunlight.
    fn find_sunlight<A: Arithmetic>(&self, ops: &A, g: Geometry) -> (r: Vector<Equatorial>)
        requires
            ops.lawful(),
        ensures
            r == self.sunlight(ops, g),
    {
        let four_ninths = arithmetic::times(ops, F64::from_bits(FOUR_NINTHS), self.albedo);
        let radial = arithmetic::plus(
            ops,
            g.j2_theta,
            arithmetic::times(ops, four_ninths, g.shape.psi_x),
        );
        let pole = arithmetic::times(
            ops,
            arithmetic::times(
                ops,
                four_ninths,
                arithmetic::minus(ops, g.shape.psi_z, g.shape.psi_x),
            ),
            g.r_dot_s,
        );
        g.r_hat.scale(ops, radial).plus(ops, self.spin_pole.scale(ops, pole)).scale(ops, g.scale)
    }

    /// The acceleration by sunlight with that by the heat which the body gives off.
    pub open spec fn with_heat<A: Arithmetic>(
        &self,
        ops: &A,
        g: Geometry,
        light: Vector<Equatorial>,
        lambda_0: F64,
    ) -> Vector<Equatorial> {
        let lambda = arithmetic::product(
            ops,
            arithmetic::quotient(
                ops,
                lambda_0,
                ops.two(Binary::Power, g.j2_theta, F64 { bits: constants::THREE_QUARTERS }),
            ),
            ops.two(Binary::Power, g.r, F64 { bits: constants::ONE_AND_HALF }),
        );
        let denom = arithmetic::sum(
            ops,
            arithmetic::sum(
                ops,
                F64 { bits: constants::ONE },
                arithmetic::product(ops, F64 { bits: constants::TWO }, lambda),
            ),
            arithmetic::product(
                ops,
                arithmetic::product(ops, F64 { bits: constants::TWO }, lambda),
                lambda,
            ),
        );
        let lambda_1 = arithmetic::quotient(
            ops,
            arithmetic::sum(ops, F64 { bits: constants::ONE }, lambda),
            denom,
        );
        let lambda_2 = arithmetic::quotient(ops, lambda, denom);
        let four_ninths = arithmetic::product(ops, F64 { bits: FOUR_NINTHS }, self.absorptivity);
        let radial = arithmetic::product(ops, lambda_1, g.shape.psi_x);
        let pole = arithmetic::product(
            ops,
            arithmetic::difference(
                ops,
                g.shape.psi_z,
                arithmetic::product(ops, lambda_1, g.shape.psi_x),
            ),
            g.r_dot_s,
        );
        let along = g.r_hat.scaled(ops, radial).sum(ops, self.spin_pole.scaled(ops, pole)).scaled(
            ops,
            arithmetic::product(ops, four_ninths, g.scale),
        );
        let across = g.r_hat.crossed(ops, self.spin_pole).scaled(
            ops,
            arithmetic::product(
                ops,
                arithmetic::product(
                    ops,
                    arithmetic::product(ops, four_ninths.negated(), g.scale),
                    lambda_2,
                ),
                g.shape.psi_x,
            ),
        );
        light.sum(ops, along).sum(ops, across)
    }

    /// The acceleration by sunlight with that by the heat which the body gives off.
    fn add_heat<A: Arithmetic>(
        &self,
        ops: &A,
        g: Geometry,
        light: Vector<Equatorial>,
        lambda_0: F64,
    ) -> (r: Vector<Equatorial>)
        requires
            ops.lawful(),
        ensures
            r == self.with_heat(ops, g, light, lambda_0),
    {
        let lambda = arithmetic::times(
            ops,
            arithmetic::over(
                ops,
                lambda_0,
                ops.binary(Binary::Power, g.j2_theta, F64::from_bits(constants::THREE_QUARTERS)),
            ),
            ops.binary(Binary::Power, g.r, F64::from_bits(constants::ONE_AND_HALF)),
        );
        let denom = arithmetic::plus(
            ops,
            arithmetic::plus(
                ops,
                F64::from_bits(constants::ONE),
                arithmetic::times(ops, F64::from_bits(constants::TWO), lambda),
            ),
            arithmetic::times(
                ops,
                arithmetic::times(ops, F64::from_bits(constants::TWO), lambda),
                lambda,
            ),
        );
        let lambda_1 = arithmetic::over(
            ops,
            arithmetic::plus(ops, F64::from_bits(constants::ONE), lambda),
            denom,
        );
        let lambda_2 = arithmetic::over(ops, lambda, denom);
        let four_ninths = arithmetic::times(ops, F64::from_bits(FOUR_NINTHS), self.absorptivity);
        let radial = arithmetic::times(ops, lambda_1, g.shape.psi_x);
        let pole = arithmetic::times(
            ops,
            arithmetic::minus(ops, g.shape.psi_z, arithmetic::times(ops, lambda_1, g.shape.psi_x)),
            g.r_dot_s,
        );
        let along = g.r_hat.scale(ops, radial).plus(ops, self.spin_pole.scale(ops, pole)).scale(
            ops,
            arithmetic::times(ops, four_ninths, g.scale),
        );
        let across = g.r_hat.cross(ops, self.spin_pole).scale(
            ops,
            arithmetic::times(
                ops,
                arithmetic::times(
                    ops,
                    arithmetic::times(ops, four_ninths.neg(), g.scale),
                    lambda_2,
                ),
                g.shape.psi_x,
            ),
        );
        light.plus(ops, along).plus(ops, across)
    }

    /// The acceleration of the body.
    pub open spec fn recoil<A: Arithmetic>(
        &self,
        ops: &A,
        c: Constants,
        pos: Vector<Equatorial>,
        a_over_m: F64,
        lambda_0: F64,
    ) -> Vector<Equatorial> {
        let g = self.geometry(ops, c, pos, a_over_m);
        let light = self.sunlight(ops, g);
        let zero = F64 { bits: 0 };
        if zero.spec_lt(self.absorptivity) && zero.spec_lt(lambda_0) {
            self.with_heat(ops, g, light, lambda_0)
        } else {
            light
        }
    }

    /// The acceleration of the body.
    fn find_recoil<A: Arithmetic>(
        &self,
        ops: &A,
        c: Constants,
        pos: Vector<Equatorial>,
        a_over_m: F64,
        lambda_0: F64,
    ) -> (r: Vector<Equatorial>)
        requires
            ops.lawful(),
        ensures
            r == self.recoil(ops, c, pos, a_over_m, lambda_0),
    {
        let g = self.find_geometry(ops, c, pos, a_over_m);
        let light = self.find_sunlight(ops, g);
        let zero = F64::zero();
        if zero.less(self.absorptivity) && zero.less(lambda_0) {
            self.add_heat(ops, g, light, lambda_0)
        } else {
            light
        }
    }
}

/// Where the light comes from and how strong it is.
#[derive(Debug, Clone, Copy)]
pub struct Geometry {
    /// The distance to the Sun.
    pub r: F64,
    /// The direction away from the Sun.
    pub r_hat: Vector<Equatorial>,
    /// How the shape changes the pressure.
    pub shape: Shape,
    /// The cosine of the angle between that direction and the pole.
    pub r_dot_s: F64,
    /// The part of the cross section that is seen from the Sun.
    pub j2_theta: F64,
    /// The acceleration which the other factors scale.
    pub scale: F64,
}

impl ParameterizedForce for FarnocchiaNonGrav {
    type Frame = Equatorial;

    type Center = SunCenter;

    open spec fn well_formed(&self) -> bool {
        true
    }

    open spec fn n_params(&self) -> nat {
        2
    }

    open spec fn names(&self) -> Seq<Seq<char>> {
        seq!["a_over_m"@, "lambda_0"@]
    }

    open spec fn bounds(&self) -> Seq<Option<F64>> {
        traits::unbounded(2)
    }

    open spec fn accepts(&self, n: nat) -> bool {
        n >= 2
    }

    fn n_free_params(&self) -> usize {
        2
    }

    fn free_param_names(&self) -> Vec<&'static str> {
        let names = vec!["a_over_m", "lambda_0"];
        assert(traits::texts(names@) =~= self.names());
        names
    }

    fn lower_bounds(&self) -> Vec<Option<F64>> {
        traits::no_bounds(2)
    }
}

impl<A: Physics> Evaluate<A> for FarnocchiaNonGrav {
    open spec fn accel_value(
        &self,
        ops: &A,
        time: Time,
        pos: Vector<Equatorial>,
        vel: Vector<Equatorial>,
        free_params: Seq<F64>,
    ) -> KeteResult<Vector<Equatorial>> {
        Ok(self.recoil(ops, ops.values(), pos, free_params[0], free_params[1]))
    }

    fn accel(
        &self,
        ops: &A,
        time: Time,
        pos: Vector<Equatorial>,
        vel: Vector<Equatorial>,
        free_params: &[F64],
    ) -> KeteResult<Vector<Equatorial>> {
        Ok(self.find_recoil(ops, ops.constants(), pos, free_params[0], free_params[1]))
    }
}

impl<A: Physics> AnalyticForce<A> for FarnocchiaNonGrav {
    open spec fn jacobians_value(
        &self,
        ops: &A,
        time: Time,
        pos: Vector<Equatorial>,
        vel: Vector<Equatorial>,
        free_params: Seq<F64>,
    ) -> KeteResult<Jacobians<Equatorial>> {
        differences::jacobians(self, ops, time, pos, vel, free_params)
    }

    open spec fn parameter_jacobian_value(
        &self,
        ops: &A,
        time: Time,
        pos: Vector<Equatorial>,
        vel: Vector<Equatorial>,
        free_params: Seq<F64>,
    ) -> KeteResult<Seq<Vector<Equatorial>>> {
        differences::parameter_slopes(self, ops, time, pos, vel, free_params, 2)
    }

    proof fn lemma_columns(
        &self,
        ops: &A,
        time: Time,
        pos: Vector<Equatorial>,
        vel: Vector<Equatorial>,
        free_params: Seq<F64>,
    ) {
        differences::lemma_parameter_slopes(self, ops, time, pos, vel, free_params, 2);
    }

    fn jacobians(
        &self,
        ops: &A,
        time: Time,
        pos: Vector<Equatorial>,
        vel: Vector<Equatorial>,
        free_params: &[F64],
    ) -> KeteResult<Jacobians<Equatorial>> {
        differences::find_jacobians(self, ops, time, pos, vel, free_params)
    }

    fn parameter_jacobian(
        &self,
        ops: &A,
        time: Time,
        pos: Vector<Equatorial>,
        vel: Vector<Equatorial>,
        free_params: &[F64],
    ) -> KeteResult<Vec<Vector<Equatorial>>> {
        differences::find_parameter_slopes(self, ops, time, pos, vel, free_params, 2)
    }
}

/// Are the operations exact by which it is found where the light comes from.
pub open spec fn exact_geometry<A: Arithmetic>(
    ops: &A,
    v: Reading,
    f: FarnocchiaNonGrav,
    c: Constants,
    pos: Vector<Equatorial>,
    a_over_m: F64,
) -> bool {
    let one = F64 { bits: constants::ONE };
    let r_inv = arithmetic::quotient(ops, one, pos.length(ops));
    let g = arithmetic::product(ops, r_inv, r_inv);
    let lit = arithmetic::product(ops, a_over_m, c.f0_over_c);
    &&& v(one) == 1real
    &&& exact::measures(ops, v, pos)
    &&& orbits::divides(ops, v, one, pos.length(ops))
    &&& exact::scales(ops, v, pos, r_inv)
    &&& orbits::multiplies(ops, v, r_inv, r_inv)
    &&& orbits::multiplies(ops, v, a_over_m, c.f0_over_c)
    &&& orbits::multiplies(ops, v, lit, g)
    &&& exact::dots(ops, v, pos.scaled(ops, r_inv), f.spin_pole)
}

/// The light comes from the Sun, at the distance `d`, and falls off with the square of it.
pub proof fn law_light_comes_from_the_sun<A: Arithmetic>(
    ops: &A,
    v: Reading,
    f: FarnocchiaNonGrav,
    c: Constants,
    pos: Vector<Equatorial>,
    a_over_m: F64,
    d: real,
)
    requires
        exact_geometry(ops, v, f, c, pos, a_over_m),
        0real <= d,
        d * d == read(v, pos).dot(read(v, pos)),
    ensures
        ({
            let g = f.geometry(ops, c, pos, a_over_m);
            &&& 0real < d
            &&& v(g.r) == d
            &&& conics::times(d, read(v, g.r_hat)) == read(v, pos)
            &&& v(g.scale) * (d * d) == v(a_over_m) * v(c.f0_over_c)
            &&& d * v(g.r_dot_s) == read(v, pos).dot(read(v, f.spin_pole))
        }),
{
    let one = F64 { bits: constants::ONE };
    let r_inv = arithmetic::quotient(ops, one, pos.length(ops));
    let i = v(r_inv);
    let p = read(v, pos);
    conics::lemma_same_square(d, v(pos.length(ops)));
    assert(i * d == 1real);
    rounding::lemma_minus(i, 1real);
    rounding::lemma_order(i, d, 1real);
    exact::lemma_scaled(ops, v, pos, r_inv);
    exact::lemma_times_times(d, i, p);
    rounding::lemma_order(1real, p.x, 1real);
    rounding::lemma_order(1real, p.y, 1real);
    rounding::lemma_order(1real, p.z, 1real);
    rounding::lemma_minus(p.x, 1real);
    rounding::lemma_minus(p.y, 1real);
    rounding::lemma_minus(p.z, 1real);
    let lit = v(a_over_m) * v(c.f0_over_c);
    rounding::lemma_order(lit, i * i, d * d);
    rounding::lemma_factors(i, i, d, d);
    rounding::lemma_factors(i, d, i, d);
    rounding::lemma_minus(1real, 1real);
    rounding::lemma_minus(lit, 1real);
    let n = conics::times(i, p);
    let s = read(v, f.spin_pole);
    exact::lemma_dot_times(s, i, p);
    exact::lemma_dot_order(s, p);
    rounding::lemma_order(d, i, p.dot(s));
    rounding::lemma_order(1real, p.dot(s), 1real);
    rounding::lemma_minus(p.dot(s), 1real);
}

/// Are the operations exact by which the pressure of sunlight is found.
pub open spec fn exact_sunlight<A: Arithmetic>(
    ops: &A,
    v: Reading,
    f: FarnocchiaNonGrav,
    g: Geometry,
) -> bool {
    let part = arithmetic::product(ops, F64 { bits: FOUR_NINTHS }, f.albedo);
    let more = arithmetic::product(ops, part, g.shape.psi_x);
    let radial = arithmetic::sum(ops, g.j2_theta, more);
    let gap = arithmetic::difference(ops, g.shape.psi_z, g.shape.psi_x);
    let pole = arithmetic::product(ops, arithmetic::product(ops, part, gap), g.r_dot_s);
    let (a, b) = (g.r_hat.scaled(ops, radial), f.spin_pole.scaled(ops, pole));
    &&& orbits::multiplies(ops, v, F64 { bits: FOUR_NINTHS }, f.albedo)
    &&& orbits::multiplies(ops, v, part, g.shape.psi_x)
    &&& orbits::adds(ops, v, g.j2_theta, more)
    &&& orbits::subtracts(ops, v, g.shape.psi_z, g.shape.psi_x)
    &&& orbits::multiplies(ops, v, part, gap)
    &&& orbits::multiplies(ops, v, arithmetic::product(ops, part, gap), g.r_dot_s)
    &&& exact::scales(ops, v, g.r_hat, radial)
    &&& exact::scales(ops, v, f.spin_pole, pole)
    &&& exact::sums(ops, v, a, b)
    &&& exact::scales(ops, v, a.sum(ops, b), g.scale)
}

/// Sunlight on a body which is not flattened, or which the Sun shines on from above its equator,
/// pushes it straight away from the Sun.
pub proof fn law_sunlight<A: Arithmetic>(ops: &A, v: Reading, f: FarnocchiaNonGrav, g: Geometry)
    requires
        exact_sunlight(ops, v, f, g),
        v(g.shape.psi_z) == v(g.shape.psi_x) || v(g.r_dot_s) == 0real,
    ensures
        read(v, f.sunlight(ops, g)) == conics::times(
            v(g.scale) * (v(g.j2_theta) + (v(F64 { bits: FOUR_NINTHS }) * v(f.albedo)) * v(
                g.shape.psi_x,
            )),
            read(v, g.r_hat),
        ),
{
    let part = arithmetic::product(ops, F64 { bits: FOUR_NINTHS }, f.albedo);
    let more = arithmetic::product(ops, part, g.shape.psi_x);
    let radial = arithmetic::sum(ops, g.j2_theta, more);
    let gap = arithmetic::difference(ops, g.shape.psi_z, g.shape.psi_x);
    let pole = arithmetic::product(ops, arithmetic::product(ops, part, gap), g.r_dot_s);
    let (a, b) = (g.r_hat.scaled(ops, radial), f.spin_pole.scaled(ops, pole));
    let (n, s) = (read(v, g.r_hat), read(v, f.spin_pole));
    rounding::lemma_minus(v(part), 1real);
    rounding::lemma_order(0real, v(g.r_dot_s), 1real);
    rounding::lemma_minus(v(g.r_dot_s), 1real);
    rounding::lemma_minus(v(part) * v(gap), 1real);
    assert(v(pole) == 0real);
    exact::lemma_scaled(ops, v, g.r_hat, radial);
    exact::lemma_scaled(ops, v, f.spin_pole, pole);
    exact::lemma_scaled(ops, v, a.sum(ops, b), g.scale);
    rounding::lemma_order(0real, s.x, 1real);
    rounding::lemma_order(0real, s.y, 1real);
    rounding::lemma_order(0real, s.z, 1real);
    rounding::lemma_minus(s.x, 1real);
    rounding::lemma_minus(s.y, 1real);
    rounding::lemma_minus(s.z, 1real);
    assert(read(v, a.sum(ops, b)) == conics::times(v(radial), n));
    exact::lemma_times_times(v(g.scale), v(radial), n);
}

/// The thermal parameter at the distance of the body.
pub open spec fn local_lambda<A: Arithmetic>(ops: &A, g: Geometry, lambda_0: F64) -> F64 {
    arithmetic::product(
        ops,
        arithmetic::quotient(
            ops,
            lambda_0,
            ops.two(Binary::Power, g.j2_theta, F64 { bits: constants::THREE_QUARTERS }),
        ),
        ops.two(Binary::Power, g.r, F64 { bits: constants::ONE_AND_HALF }),
    )
}

/// Are the operations exact by which the push of heat is found.
pub open spec fn exact_heat<A: Arithmetic>(
    ops: &A,
    v: Reading,
    f: FarnocchiaNonGrav,
    g: Geometry,
    light: Vector<Equatorial>,
    lambda_0: F64,
) -> bool {
    let (one, two) = (F64 { bits: constants::ONE }, F64 { bits: constants::TWO });
    let lambda = local_lambda(ops, g, lambda_0);
    let twice = arithmetic::product(ops, two, lambda);
    let first = arithmetic::sum(ops, one, twice);
    let square = arithmetic::product(ops, twice, lambda);
    let denom = arithmetic::sum(ops, first, square);
    let lambda_1 = arithmetic::quotient(ops, arithmetic::sum(ops, one, lambda), denom);
    let lambda_2 = arithmetic::quotient(ops, lambda, denom);
    let part = arithmetic::product(ops, F64 { bits: FOUR_NINTHS }, f.absorptivity);
    let radial = arithmetic::product(ops, lambda_1, g.shape.psi_x);
    let gap = arithmetic::difference(ops, g.shape.psi_z, radial);
    let pole = arithmetic::product(ops, gap, g.r_dot_s);
    let (a, b) = (g.r_hat.scaled(ops, radial), f.spin_pole.scaled(ops, pole));
    let push = arithmetic::product(ops, part, g.scale);
    let along = a.sum(ops, b).scaled(ops, push);
    let k1 = arithmetic::product(ops, part.negated(), g.scale);
    let k2 = arithmetic::product(ops, k1, lambda_2);
    let k3 = arithmetic::product(ops, k2, g.shape.psi_x);
    let across = g.r_hat.crossed(ops, f.spin_pole);
    &&& v(one) == 1real && v(two) == 2real
    &&& orbits::multiplies(ops, v, two, lambda)
    &&& orbits::adds(ops, v, one, twice)
    &&& orbits::multiplies(ops, v, twice, lambda)
    &&& orbits::adds(ops, v, first, square)
    &&& orbits::adds(ops, v, one, lambda)
    &&& orbits::divides(ops, v, arithmetic::sum(ops, one, lambda), denom)
    &&& orbits::divides(ops, v, lambda, denom)
    &&& orbits::multiplies(ops, v, F64 { bits: FOUR_NINTHS }, f.absorptivity)
    &&& v(part.negated()) == -v(part)
    &&& orbits::multiplies(ops, v, lambda_1, g.shape.psi_x)
    &&& orbits::subtracts(ops, v, g.shape.psi_z, radial)
    &&& orbits::multiplies(ops, v, gap, g.r_dot_s)
    &&& exact::scales(ops, v, g.r_hat, radial)
    &&& exact::scales(ops, v, f.spin_pole, pole)
    &&& exact::sums(ops, v, a, b)
    &&& orbits::multiplies(ops, v, part, g.scale)
    &&& exact::scales(ops, v, a.sum(ops, b), push)
    &&& orbits::multiplies(ops, v, part.negated(), g.scale)
    &&& orbits::multiplies(ops, v, k1, lambda_2)
    &&& orbits::multiplies(ops, v, k2, g.shape.psi_x)
    &&& exact::crosses(ops, v, g.r_hat, f.spin_pole)
    &&& exact::scales(ops, v, across, k3)
    &&& exact::sums(ops, v, light, along)
    &&& exact::sums(ops, v, light.sum(ops, along), across.scaled(ops, k3))
}

/// The heat which a body gives off pushes it. Because the warmest part of the surface has turned on
/// by then, part of the push is across: along the motion of the surface under the Sun, which is
/// against the cross product of the direction from the Sun and the pole. It grows with the thermal
/// parameter `l` as `l / (1 + 2 l + 2 l^2)`. Where the Sun is above the equator, the push away from
/// the Sun is `(1 + l) / (1 + 2 l + 2 l^2)` of what it is without delay.
pub proof fn law_heat_pushes_across<A: Arithmetic>(
    ops: &A,
    v: Reading,
    f: FarnocchiaNonGrav,
    g: Geometry,
    light: Vector<Equatorial>,
    lambda_0: F64,
)
    requires
        exact_heat(ops, v, f, g, light, lambda_0),
    ensures
        ({
            let (n, s) = (read(v, g.r_hat), read(v, f.spin_pole));
            let push = exact::minus(read(v, f.with_heat(ops, g, light, lambda_0)), read(v, light));
            let across = conics::cross(n, s);
            let l = v(local_lambda(ops, g, lambda_0));
            let delay = 1real + 2real * l + (2real * l) * l;
            let strength = (v(F64 { bits: FOUR_NINTHS }) * v(f.absorptivity)) * v(g.scale);
            &&& delay * push.dot(across) == -((strength * l) * v(g.shape.psi_x)) * across.dot(
                across,
            )
            &&& v(g.r_dot_s) == 0real ==> delay * push.dot(n) == ((strength * (1real + l)) * v(
                g.shape.psi_x,
            )) * n.dot(n)
        }),
{
    let (one, two) = (F64 { bits: constants::ONE }, F64 { bits: constants::TWO });
    let lambda = local_lambda(ops, g, lambda_0);
    let twice = arithmetic::product(ops, two, lambda);
    let denom = arithmetic::sum(
        ops,
        arithmetic::sum(ops, one, twice),
        arithmetic::product(ops, twice, lambda),
    );
    let lambda_1 = arithmetic::quotient(ops, arithmetic::sum(ops, one, lambda), denom);
    let lambda_2 = arithmetic::quotient(ops, lambda, denom);
    let part = arithmetic::product(ops, F64 { bits: FOUR_NINTHS }, f.absorptivity);
    let radial = arithmetic::product(ops, lambda_1, g.shape.psi_x);
    let gap = arithmetic::difference(ops, g.shape.psi_z, radial);
    let pole = arithmetic::product(ops, gap, g.r_dot_s);
    let (a, b) = (g.r_hat.scaled(ops, radial), f.spin_pole.scaled(ops, pole));
    let push_f = arithmetic::product(ops, part, g.scale);
    let along = a.sum(ops, b).scaled(ops, push_f);
    let k1 = arithmetic::product(ops, part.negated(), g.scale);
    let k2 = arithmetic::product(ops, k1, lambda_2);
    let k3 = arithmetic::product(ops, k2, g.shape.psi_x);
    let crossed = g.r_hat.crossed(ops, f.spin_pole);
    let (n, s) = (read(v, g.r_hat), read(v, f.spin_pole));
    let w = conics::cross(n, s);
    assert(read(v, crossed) == w);
    exact::lemma_scaled(ops, v, g.r_hat, radial);
    exact::lemma_scaled(ops, v, f.spin_pole, pole);
    exact::lemma_scaled(ops, v, a.sum(ops, b), push_f);
    exact::lemma_scaled(ops, v, crossed, k3);
    let (x, y) = (conics::times(v(radial), n), conics::times(v(pole), s));
    let z = exact::plus(x, y);
    let (t, u) = (conics::times(v(push_f), z), conics::times(v(k3), w));
    let push = exact::minus(read(v, f.with_heat(ops, g, light, lambda_0)), read(v, light));
    assert(push == exact::plus(t, u));
    let (l, d) = (v(lambda), v(denom));
    let psi = v(g.shape.psi_x);
    let m = v(push_f);
    // across
    exact::lemma_cross_across(n, s);
    exact::lemma_dot_order(n, w);
    exact::lemma_dot_order(s, w);
    exact::lemma_dot_plus(w, t, u);
    exact::lemma_dot_plus(w, x, y);
    exact::lemma_dot_times(w, m, z);
    exact::lemma_dot_times(w, v(radial), n);
    exact::lemma_dot_times(w, v(pole), s);
    exact::lemma_dot_times(w, v(k3), w);
    exact::lemma_dot_order(w, push);
    rounding::lemma_minus(v(radial), 1real);
    rounding::lemma_minus(v(pole), 1real);
    rounding::lemma_minus(m, 1real);
    assert(push.dot(w) == v(k3) * w.dot(w));
    let l2 = v(lambda_2);
    rounding::lemma_minus(v(g.scale), v(part));
    rounding::lemma_order(v(g.scale), v(part), 1real);
    rounding::lemma_order(v(g.scale), -v(part), 1real);
    assert(v(k1) == -m);
    rounding::lemma_order(d, v(k3), w.dot(w));
    rounding::lemma_order(v(k1), l2, psi);
    rounding::lemma_order(d, v(k1) * l2, psi);
    rounding::lemma_order(d, v(k1), l2);
    rounding::lemma_order(v(k1), l2, d);
    rounding::lemma_order(l2, d, 1real);
    rounding::lemma_order(v(k1) * l2, d, 1real);
    assert(d * (v(k1) * l2) == v(k1) * l);
    rounding::lemma_minus(l, m);
    rounding::lemma_order(l, m, 1real);
    rounding::lemma_order(l, -m, 1real);
    rounding::lemma_minus(psi, m * l);
    rounding::lemma_order(psi, m * l, 1real);
    rounding::lemma_order(psi, -(m * l), 1real);
    assert(d * v(k3) == -((m * l) * psi));
    // away from the Sun
    if v(g.r_dot_s) == 0real {
        rounding::lemma_minus(v(gap), 1real);
        assert(v(pole) == 0real);
        exact::lemma_dot_plus(n, t, u);
        exact::lemma_dot_plus(n, x, y);
        exact::lemma_dot_times(n, m, z);
        exact::lemma_dot_times(n, v(radial), n);
        exact::lemma_dot_times(n, v(pole), s);
        exact::lemma_dot_times(n, v(k3), w);
        exact::lemma_dot_order(n, push);
        rounding::lemma_minus(v(k3), 1real);
        rounding::lemma_order(0real, n.dot(s), 1real);
        rounding::lemma_minus(n.dot(s), 1real);
        let nn = n.dot(n);
        assert(push.dot(n) == m * (v(radial) * nn));
        let l1 = v(lambda_1);
        assert(l1 * d == 1real + l);
        rounding::lemma_order(m, v(radial), nn);
        rounding::lemma_order(d, m * v(radial), nn);
        rounding::lemma_order(m, l1, psi);
        rounding::lemma_order(d, m * l1, psi);
        rounding::lemma_order(m, l1, d);
        rounding::lemma_order(m * l1, d, 1real);
    }
}

} // verus!
