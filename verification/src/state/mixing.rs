//! Mean, covariance and weights of mixtures, as real numbers and where the operations on the way
//! are exact.
use crate::arithmetic;
use crate::arithmetic::Arithmetic;
use crate::conics;
use crate::constants;
use crate::exact;
use crate::float::F64;
use crate::frames::{CenterBody, Equatorial, InertialFrame, SSB};
use crate::numbers;
use crate::orbits::{adds, divides, multiplies, subtracts};
use crate::rounding;
use crate::rounding::Reading;
use crate::state::adaptive;
use crate::state::diffuse;
use crate::state::diffuse::{component_vector, mean_vector, spread_around, PartModel};
use crate::state::uncertain::UncertainModel;
use crate::table::Grid;
use vstd::prelude::*;

verus! {

/// The weighted sum of the first `n` numbers.
pub open spec fn blended<A: Arithmetic>(
    ops: &A,
    weights: Seq<F64>,
    x: spec_fn(int) -> F64,
    n: nat,
) -> F64
    decreases n,
{
    if n == 0 {
        F64 { bits: constants::ZERO }
    } else {
        arithmetic::sum(
            ops,
            blended(ops, weights, x, (n - 1) as nat),
            arithmetic::product(ops, x(n - 1), weights[n - 1]),
        )
    }
}

/// Are the operations exact by which numbers are blended.
pub open spec fn exact_blend<A: Arithmetic>(
    ops: &A,
    v: Reading,
    weights: Seq<F64>,
    x: spec_fn(int) -> F64,
    n: nat,
) -> bool
    decreases n,
{
    if n == 0 {
        v(F64 { bits: constants::ZERO }) == 0real
    } else {
        let m = (n - 1) as nat;
        &&& exact_blend(ops, v, weights, x, m)
        &&& multiplies(ops, v, x(n - 1), weights[n - 1])
        &&& adds(
            ops,
            v,
            blended(ops, weights, x, m),
            arithmetic::product(ops, x(n - 1), weights[n - 1]),
        )
    }
}

/// What blended numbers are.
proof fn lemma_blended<A: Arithmetic>(
    ops: &A,
    v: Reading,
    weights: Seq<F64>,
    x: spec_fn(int) -> F64,
    n: nat,
)
    requires
        exact_blend(ops, v, weights, x, n),
    ensures
        v(blended(ops, weights, x, n)) == exact::total(|k: int| v(weights[k]) * v(x(k)), n),
    decreases n,
{
    if n > 0 {
        lemma_blended(ops, v, weights, x, (n - 1) as nat);
        rounding::lemma_order(v(weights[n - 1]), v(x(n - 1)), 1real);
    }
}

/// Entry `i` of the mean is blended from entry `i` of the components.
proof fn lemma_mean_entry<A: Arithmetic, T: InertialFrame, C: CenterBody>(
    ops: &A,
    weights: Seq<F64>,
    components: Seq<UncertainModel<T, C>>,
    np: nat,
    n: nat,
    i: int,
)
    requires
        forall|k: int| 0 <= k < n ==> (#[trigger] components[k]).params.len() == np,
        0 <= i < 6 + np,
    ensures
        ({
            let all = crate::state::uncertain::six(
                diffuse::mean_pos(ops, weights, components, n),
                diffuse::mean_vel(ops, weights, components, n),
            ) + diffuse::mean_of_params(ops, weights, components, np, n);
            all[i] == blended(ops, weights, |k: int| component_vector(components[k])[i], n)
        }),
        diffuse::mean_of_params(ops, weights, components, np, n).len() == np,
    decreases n,
{
    if n > 0 {
        lemma_mean_entry(ops, weights, components, np, (n - 1) as nat, i);
        assert(components[n - 1].params.len() == np);
    }
}

/// The mean of a mixture: each entry is the sum of those of the components, each times the weight
/// of its component.
pub proof fn law_mixture_mean<A: Arithmetic, T: InertialFrame, C: CenterBody>(
    ops: &A,
    v: Reading,
    weights: Seq<F64>,
    components: Seq<UncertainModel<T, C>>,
    i: int,
)
    requires
        components.len() > 0,
        forall|k: int|
            0 <= k < components.len() ==> (#[trigger] components[k]).params.len()
                == components[0].params.len(),
        0 <= i < 6 + components[0].params.len(),
        exact_blend(
            ops,
            v,
            weights,
            |k: int| component_vector(components[k])[i],
            components.len(),
        ),
    ensures
        v(mean_vector(ops, weights, components)[i]) == exact::total(
            |k: int| v(weights[k]) * v(component_vector(components[k])[i]),
            components.len(),
        ),
{
    let n = components.len();
    let x = |k: int| component_vector(components[k])[i];
    lemma_mean_entry(ops, weights, components, components[0].params.len(), n, i);
    lemma_blended(ops, v, weights, x, n);
    exact::lemma_total_same(
        |k: int| v(weights[k]) * v(x(k)),
        |k: int| v(weights[k]) * v(component_vector(components[k])[i]),
        n,
    );
}

/// Are the operations exact by which entry `i`, `j` of the covariance of a mixture is found.
pub open spec fn exact_around<A: Arithmetic, T: InertialFrame, C: CenterBody>(
    ops: &A,
    v: Reading,
    weights: Seq<F64>,
    components: Seq<UncertainModel<T, C>>,
    mean: Seq<F64>,
    n: nat,
    i: int,
    j: int,
) -> bool
    decreases n,
{
    if n == 0 {
        v(F64 { bits: constants::ZERO }) == 0real
    } else {
        let m = (n - 1) as nat;
        let (c, w) = (components[n - 1], weights[n - 1]);
        let (a, b) = (component_vector(c)[i], component_vector(c)[j]);
        let (d, e) = (
            arithmetic::difference(ops, a, mean[i]),
            arithmetic::difference(ops, b, mean[j]),
        );
        let own = arithmetic::product(ops, c.cov.at(i, j), w);
        let apart = arithmetic::product(ops, arithmetic::product(ops, d, e), w);
        let before = spread_around(ops, weights, components, mean, m).at(i, j);
        &&& exact_around(ops, v, weights, components, mean, m, i, j)
        &&& subtracts(ops, v, a, mean[i])
        &&& subtracts(ops, v, b, mean[j])
        &&& multiplies(ops, v, d, e)
        &&& multiplies(ops, v, arithmetic::product(ops, d, e), w)
        &&& multiplies(ops, v, c.cov.at(i, j), w)
        &&& adds(ops, v, before, own)
        &&& adds(ops, v, arithmetic::sum(ops, before, own), apart)
    }
}

/// The covariance of a mixture around a mean: for each component its own covariance and the product
/// of its distances from the mean, times its weight.
pub proof fn law_mixture_covariance<A: Arithmetic, T: InertialFrame, C: CenterBody>(
    ops: &A,
    v: Reading,
    weights: Seq<F64>,
    components: Seq<UncertainModel<T, C>>,
    mean: Seq<F64>,
    n: nat,
    i: int,
    j: int,
)
    requires
        forall|k: int|
            0 <= k < n ==> component_vector(#[trigger] components[k]).len() == mean.len()
                && components[k].cov.nrows == mean.len() && components[k].cov.ncols == mean.len()
                && components[k].cov.well_formed(),
        0 <= i < mean.len(),
        0 <= j < mean.len(),
        exact_around(ops, v, weights, components, mean, n, i, j),
    ensures
        spread_around(ops, weights, components, mean, n).nrows == mean.len(),
        spread_around(ops, weights, components, mean, n).ncols == mean.len(),
        v(spread_around(ops, weights, components, mean, n).at(i, j)) == exact::total(
            |k: int|
                v(weights[k]) * (v(components[k].cov.at(i, j)) + (v(
                    component_vector(components[k])[i],
                ) - v(mean[i])) * (v(component_vector(components[k])[j]) - v(mean[j]))),
            n,
        ),
    decreases n,
{
    if n > 0 {
        let m = (n - 1) as nat;
        law_mixture_covariance(ops, v, weights, components, mean, m, i, j);
        let (c, w) = (components[n - 1], weights[n - 1]);
        assert(component_vector(c).len() == mean.len());
        let dev = numbers::differences(ops, component_vector(c), mean);
        let before = spread_around(ops, weights, components, mean, m);
        let own = c.cov.scaled(ops, w);
        let apart = Grid::outer(ops, dev, dev).scaled(ops, w);
        assert(before.sum(ops, own).at(i, j) == arithmetic::sum(ops, before.at(i, j), own.at(i, j)));
        assert(spread_around(ops, weights, components, mean, n).at(i, j) == arithmetic::sum(
            ops,
            before.sum(ops, own).at(i, j),
            apart.at(i, j),
        ));
        let (x, y) = (v(c.cov.at(i, j)), v(dev[i]) * v(dev[j]));
        rounding::lemma_spread(v(w), x, y, 0real);
        rounding::lemma_minus(v(w), 1real);
        rounding::lemma_order(v(w), x, 1real);
        rounding::lemma_order(v(w), y, 1real);
    }
}

/// Is the sum of the first `n` weights exact.
pub open spec fn exact_total<A: Arithmetic>(ops: &A, v: Reading, w: Seq<F64>, n: nat) -> bool
    decreases n,
{
    if n == 0 {
        v(F64 { bits: constants::ZERO }) == 0real
    } else {
        &&& exact_total(ops, v, w, (n - 1) as nat)
        &&& adds(ops, v, diffuse::total(ops, w, (n - 1) as nat), w[n - 1])
    }
}

/// What the first `n` weights add up to.
proof fn lemma_total<A: Arithmetic>(ops: &A, v: Reading, w: Seq<F64>, n: nat)
    requires
        exact_total(ops, v, w, n),
    ensures
        v(diffuse::total(ops, w, n)) == exact::total(|k: int| v(w[k]), n),
    decreases n,
{
    if n > 0 {
        lemma_total(ops, v, w, (n - 1) as nat);
    }
}

/// The weights which are left after a mixture was pruned add up to one, and they are to each other
/// as they were.
pub proof fn law_pruned_weights<A: Arithmetic>(ops: &A, v: Reading, left: Seq<F64>, i: int, j: int)
    requires
        exact_total(ops, v, left, left.len()),
        v(diffuse::total(ops, left, left.len())) != 0real,
        forall|k: int|
            0 <= k < left.len() ==> divides(
                ops,
                v,
                #[trigger] left[k],
                diffuse::total(ops, left, left.len()),
            ),
        0 <= i < left.len(),
        0 <= j < left.len(),
    ensures
        ({
            let now = numbers::parts(ops, left, diffuse::total(ops, left, left.len()));
            &&& now.len() == left.len()
            &&& exact::total(|k: int| v(now[k]), now.len()) == 1real
            &&& v(now[i]) * v(left[j]) == v(now[j]) * v(left[i])
        }),
{
    let n = left.len();
    let all = diffuse::total(ops, left, n);
    let now = numbers::parts(ops, left, all);
    let t = v(all);
    lemma_total(ops, v, left, n);
    assert forall|k: int| 0 <= k < n implies v(left[k]) == t * v(#[trigger] now[k]) by {
        assert(divides(ops, v, left[k], all));
        rounding::lemma_order(t, v(now[k]), 1real);
    }
    exact::lemma_total_times(t, |k: int| v(now[k]), |k: int| v(left[k]), n);
    let s = exact::total(|k: int| v(now[k]), n);
    assert(t * s == t);
    rounding::lemma_minus(t, 1real);
    if 0real < t {
        conics::lemma_cancel(t, s, 1real);
    } else {
        rounding::lemma_minus(s, t);
        rounding::lemma_order(-t, s, 1real);
        rounding::lemma_order(t, s, 1real);
        rounding::lemma_minus(-t, 1real);
        conics::lemma_cancel(-t, s, 1real);
    }
    assert(v(left[i]) == t * v(now[i]) && v(left[j]) == t * v(now[j]));
    conics::lemma_swap(v(now[i]), t, v(now[j]));
    conics::lemma_swap(v(now[j]), t, v(now[i]));
}

/// A draw falls to the first component up to which the mixture reaches it, and to the last one
/// where the mixture does not reach it.
pub proof fn law_pick(cdf: Seq<F64>, u: F64, start: int)
    requires
        0 <= start <= cdf.len(),
        cdf.len() > 0,
    ensures
        ({
            let k = diffuse::pick(cdf, u, start);
            &&& 0 <= k < cdf.len()
            &&& forall|i: int| start <= i < k ==> !u.spec_le(#[trigger] cdf[i])
            &&& (start <= k && u.spec_le(cdf[k])) || (k == cdf.len() - 1 && forall|i: int|
                start <= i < cdf.len() ==> !u.spec_le(#[trigger] cdf[i]))
        }),
    decreases cdf.len() - start,
{
    if start < cdf.len() && !u.spec_le(cdf[start]) {
        law_pick(cdf, u, start + 1);
    }
}

/// The strongest of numbers is none of the weaker ones.
pub proof fn law_strongest(values: Seq<F64>, n: nat, i: int)
    requires
        0 <= i < n <= values.len(),
        forall|k: int| 0 <= k < n ==> !(#[trigger] values[k]).nan(),
    ensures
        0 <= diffuse::strongest(values, n) < n,
        values[i].spec_le(values[diffuse::strongest(values, n)]),
    decreases n,
{
    assert(!values[i].nan());
    assert(!values[0].nan());
    assert(!values[n - 1].nan());
    if n > 1 {
        let m = (n - 1) as nat;
        if i < m {
            law_strongest(values, m, i);
        } else {
            law_strongest(values, m, 0);
        }
        assert(!values[diffuse::strongest(values, m)].nan());
    }
}

/// Are the operations exact by which the variance along a direction is found.
pub open spec fn exact_variance<A: Arithmetic>(ops: &A, v: Reading, cov: Grid, d: Seq<F64>) -> bool {
    let turned = cov.transposed();
    &&& exact::dots_up(ops, v, turned.applied(ops, d), d, d.len())
    &&& forall|j: int|
        0 <= j < d.len() ==> exact::dots_up(ops, v, #[trigger] turned.cells[j], d, d.len())
}

/// The variance along a direction is made up of all covariances, each times the two components of
/// the direction.
pub proof fn law_variance_along<A: Arithmetic>(ops: &A, v: Reading, cov: Grid, d: Seq<F64>)
    requires
        cov.well_formed(),
        cov.nrows == d.len(),
        cov.ncols == d.len(),
        exact_variance(ops, v, cov, d),
    ensures
        v(diffuse::variance_along(ops, cov, d)) == exact::total(
            |j: int|
                exact::total(|i: int| v(cov.at(i, j)) * v(d[i]), d.len()) * v(d[j]),
            d.len(),
        ),
{
    let n = d.len();
    let turned = cov.transposed();
    let once = turned.applied(ops, d);
    exact::lemma_dots_up(ops, v, once, d, n);
    let f = |j: int| v(once[j]) * v(d[j]);
    let g = |j: int| exact::total(|i: int| v(cov.at(i, j)) * v(d[i]), n) * v(d[j]);
    assert forall|j: int| 0 <= j < n implies #[trigger] f(j) == g(j) by {
        assert(exact::dots_up(ops, v, turned.cells[j], d, n));
        exact::lemma_dots_up(ops, v, turned.cells[j], d, n);
        let a = |i: int| v(turned.cells[j][i]) * v(d[i]);
        let b = |i: int| v(cov.at(i, j)) * v(d[i]);
        assert forall|i: int| 0 <= i < n implies #[trigger] a(i) == b(i) by {
            assert(turned.cells[j][i] == cov.at(i, j));
        }
        exact::lemma_total_same(a, b, n);
    }
    exact::lemma_total_same(f, g, n);
}

/// How much of a mixture the components up to each one are: with one more component it is its weight
/// more, from none at the start.
pub proof fn law_cumulative<A: Arithmetic>(ops: &A, v: Reading, weights: Seq<F64>, i: int)
    requires
        0 <= i < weights.len(),
        exact_total(ops, v, weights, (i + 1) as nat),
    ensures
        diffuse::cumulative(ops, weights).len() == weights.len(),
        v(diffuse::cumulative(ops, weights)[i]) == exact::total(
            |k: int| v(weights[k]),
            (i + 1) as nat,
        ),
{
    lemma_total(ops, v, weights, (i + 1) as nat);
}

/// The parts of a component which is split have together the weight of the component, where the
/// weights of the parts add up to one.
pub proof fn law_parts_keep_the_weight<A: Arithmetic>(
    ops: &A,
    v: Reading,
    weight: F64,
    depth: nat,
    parts: Seq<PartModel<Equatorial, SSB>>,
)
    requires
        forall|k: int|
            0 <= k < parts.len() ==> multiplies(ops, v, weight, (#[trigger] parts[k]).weight),
        exact::total(|k: int| v(parts[k].weight), parts.len()) == 1real,
    ensures
        ({
            let now = adaptive::part_items(ops, weight, depth, parts);
            &&& now.len() == parts.len()
            &&& exact::total(|k: int| v(now[k].weight), now.len()) == v(weight)
            &&& forall|k: int|
                0 <= k < now.len() ==> (#[trigger] now[k]).component == parts[k].component
                    && now[k].depth == depth
        }),
{
    let now = adaptive::part_items(ops, weight, depth, parts);
    let f = |k: int| v(parts[k].weight);
    let h = |k: int| v(now[k].weight);
    assert forall|k: int| 0 <= k < parts.len() implies #[trigger] h(k) == v(weight) * f(k) by {
        assert(multiplies(ops, v, weight, parts[k].weight));
    }
    exact::lemma_total_times(v(weight), f, h, parts.len());
    rounding::lemma_minus(v(weight), 1real);
}

/// The highest of numbers is none of the smaller ones, and not below zero.
pub proof fn law_highest(values: Seq<F64>, n: nat, i: int)
    requires
        0 <= i < n <= values.len(),
        forall|k: int| 0 <= k < n ==> !(#[trigger] values[k]).nan(),
    ensures
        values[i].spec_le(adaptive::highest(values, n)),
        (F64 { bits: constants::ZERO }).spec_le(adaptive::highest(values, n)),
    decreases n,
{
    let m = (n - 1) as nat;
    assert(!values[i].nan() && !values[n - 1].nan());
    lemma_highest(values, m);
    if i < m {
        law_highest(values, m, i);
    }
}

/// The highest of numbers is not below zero.
proof fn lemma_highest(values: Seq<F64>, n: nat)
    requires
        n <= values.len(),
        forall|k: int| 0 <= k < n ==> !(#[trigger] values[k]).nan(),
    ensures
        (F64 { bits: constants::ZERO }).spec_le(adaptive::highest(values, n)),
    decreases n,
{
    if n > 0 {
        lemma_highest(values, (n - 1) as nat);
        assert(!values[n - 1].nan());
    }
}

/// The lowest of numbers is none of the larger ones.
pub proof fn law_lowest(values: Seq<F64>, n: nat, i: int)
    requires
        0 <= i < n <= values.len(),
        forall|k: int| 0 <= k < n ==> !(#[trigger] values[k]).nan(),
    ensures
        diffuse::lowest(values, n).spec_le(values[i]),
    decreases n,
{
    let m = (n - 1) as nat;
    assert(!values[i].nan() && !values[n - 1].nan());
    lemma_lowest(values, m);
    if i < m {
        law_lowest(values, m, i);
    }
}

/// The lowest of numbers is a number.
proof fn lemma_lowest(values: Seq<F64>, n: nat)
    requires
        n <= values.len(),
        forall|k: int| 0 <= k < n ==> !(#[trigger] values[k]).nan(),
    ensures
        !diffuse::lowest(values, n).nan(),
    decreases n,
{
    if n > 0 {
        lemma_lowest(values, (n - 1) as nat);
        assert(!values[n - 1].nan());
    }
}

} // verus!
