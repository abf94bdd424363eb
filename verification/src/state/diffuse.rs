//! Mixtures of uncertain states.
use crate::algebra;
use crate::algebra::Algebra;
use crate::arithmetic;
use crate::arithmetic::{Arithmetic, Unary};
use crate::constants;
use crate::desig::Desig;
use crate::errors::{Error, KeteResult, ValueFault};
use crate::float;
use crate::float::F64;
use crate::frames;
use crate::frames::{CenterBody, DynCenter, Equatorial, InertialFrame, Vector};
use crate::numbers;
use crate::state::cartesian::State;
use crate::state::uncertain;
use crate::state::uncertain::{Sample, SampleModel, UncertainModel, UncertainState};
use crate::table::{Grid, Table};
use crate::time::Time;
use vstd::prelude::*;

verus! {

/// Bits of 1e-10: how far the sum of the weights may be from one.
pub const WEIGHT_SUM_TOL: u64 = 0x3ddb_7cdf_d9d7_bdbb;

/// Bits of the weights of the three parts of a split: one sixth, two thirds, one sixth.
pub const HUBER_K3_WEIGHTS: [u64; 3] = [
    0x3fc5_5555_5555_5555,
    0x3fe5_5555_5555_5555,
    0x3fc5_5555_5555_5555,
];

/// Bits of the places of the three parts of a split, in standard deviations along the
/// direction of the split: the square root of three halves to both sides, and the middle.
pub const HUBER_K3_MEANS: [u64; 3] = [0xbff3_988e_1409_212e, 0x0000_0000_0000_0000,
    0x3ff3_988e_1409_212e];

/// Bits of the standard deviation of each part along the direction of the split: one over the
/// square root of two.
pub const HUBER_K3_SIGMA: u64 = 0x3fe6_a09e_667f_3bcd;

/// Bits of 1e-10: how far below zero an eigenvalue may be after a split, relative to the
/// variance along the direction.
pub const DEFINITE_TOL: u64 = 0x3ddb_7cdf_d9d7_bdbb;

/// The weight of part `k` of a split.
pub open spec fn part_weight(k: int) -> F64 {
    F64 { bits: HUBER_K3_WEIGHTS@[k] }
}

/// The place of part `k` of a split.
pub open spec fn part_mean(k: int) -> F64 {
    F64 { bits: HUBER_K3_MEANS@[k] }
}

/// A mixture of uncertain states, each with a weight. The weights sum to one, and the states
/// share their epoch, their center and the size of their covariances.
#[derive(Debug)]
pub struct DiffuseState<T: InertialFrame = Equatorial, C: CenterBody = DynCenter> {
    /// The weights.
    pub weights: Vec<F64>,
    /// The states.
    pub components: Vec<UncertainState<T, C>>,
}

impl<T: InertialFrame, C: CenterBody + Copy> Clone for DiffuseState<T, C> {
    fn clone(&self) -> (r: Self)
        ensures
            r.weights@ == self.weights@,
            models(r.components@) == models(self.components@),
    {
        let mut components: Vec<UncertainState<T, C>> = Vec::new();
        let mut i: usize = 0;
        while i < self.components.len()
            invariant
                i <= self.components@.len(),
                components@.len() == i,
                models(components@) == models(self.components@).take(i as int),
            decreases self.components@.len() - i,
        {
            components.push(self.components[i].clone());
            i = i + 1;
            assert(models(components@) =~= models(self.components@).take(i as int));
        }
        assert(models(components@) =~= models(self.components@));
        DiffuseState { weights: numbers::copied(&self.weights), components }
    }
}

/// The states of a mixture as numbers.
pub open spec fn models<T: InertialFrame, C: CenterBody>(s: Seq<UncertainState<T, C>>) -> Seq<
    UncertainModel<T, C>,
> {
    Seq::new(s.len(), |i: int| s[i]@)
}

/// The sum of the first `n` numbers, first to last.
pub open spec fn total<A: Arithmetic>(ops: &A, v: Seq<F64>, n: nat) -> F64
    decreases n,
{
    if n == 0 {
        F64 { bits: constants::ZERO }
    } else {
        arithmetic::sum(ops, total(ops, v, (n - 1) as nat), v[n - 1])
    }
}

/// Is a weight negative or not finite.
pub open spec fn bad_weight(w: F64) -> bool {
    !w.finite() || w.spec_lt(F64 { bits: 0 })
}

/// What keeps a component from being mixed with the first one.
pub open spec fn stray<T: InertialFrame, C: CenterBody>(
    first: UncertainModel<T, C>,
    other: UncertainModel<T, C>,
    i: int,
) -> Option<ValueFault> {
    if !other.state.epoch.same(first.state.epoch) {
        Some(ValueFault::ComponentEpoch(i as usize))
    } else if other.state.center.naif_id() != first.state.center.naif_id() {
        Some(ValueFault::ComponentCenter(i as usize))
    } else if other.cov.nrows != first.cov.nrows {
        Some(ValueFault::ComponentSize(i as usize))
    } else {
        None
    }
}

/// What keeps the components from number `i` on from being mixed with the first one.
pub open spec fn strays<T: InertialFrame, C: CenterBody>(
    components: Seq<UncertainModel<T, C>>,
    i: int,
) -> Option<ValueFault>
    decreases components.len() - i,
{
    if i >= components.len() {
        None
    } else if stray(components[0], components[i], i) is Some {
        stray(components[0], components[i], i)
    } else {
        strays(components, i + 1)
    }
}

/// What keeps weights and components from being a mixture.
pub open spec fn mixture_fault<A: Arithmetic, T: InertialFrame, C: CenterBody>(
    ops: &A,
    weights: Seq<F64>,
    components: Seq<UncertainModel<T, C>>,
) -> Option<ValueFault> {
    if components.len() == 0 {
        Some(ValueFault::NoComponents)
    } else if weights.len() != components.len() {
        Some(
            ValueFault::WeightCount {
                weights: weights.len() as usize,
                components: components.len() as usize,
            },
        )
    } else if exists|i: int| 0 <= i < weights.len() && bad_weight(#[trigger] weights[i]) {
        Some(ValueFault::BadWeight)
    } else if (F64 { bits: WEIGHT_SUM_TOL }).spec_lt(
        arithmetic::difference(
            ops,
            total(ops, weights, weights.len()),
            F64 { bits: constants::ONE },
        ).abs_value(),
    ) {
        Some(ValueFault::WeightSum)
    } else {
        strays(components, 1)
    }
}

/// Do all components share their epoch, their center and the size of their covariances.
pub open spec fn alike<T: InertialFrame, C: CenterBody>(components: Seq<UncertainModel<T, C>>)
    -> bool {
    forall|i: int, j: int|
        0 <= i < components.len() && 0 <= j < components.len() && i != j ==> #[trigger] stray(
            components[i],
            components[j],
            j,
        ) is None
}

/// Components without a fault are all alike.
pub proof fn lemma_strays<T: InertialFrame, C: CenterBody>(
    components: Seq<UncertainModel<T, C>>,
    i: int,
)
    requires
        1 <= i,
        strays(components, i) is None,
    ensures
        forall|j: int|
            i <= j < components.len() ==> #[trigger] stray(components[0], components[j], j) is None,
    decreases components.len() - i,
{
    if i < components.len() {
        lemma_strays(components, i + 1);
    }
}

/// Of components that can be mixed with the first one, any two are alike.
pub proof fn law_alike<T: InertialFrame, C: CenterBody>(components: Seq<UncertainModel<T, C>>)
    requires
        strays(components, 1) is None,
    ensures
        alike(components),
{
    lemma_strays(components, 1);
    assert forall|i: int, j: int|
        0 <= i < components.len() && 0 <= j < components.len() && i != j implies #[trigger] stray(
        components[i],
        components[j],
        j,
    ) is None by {
        if i > 0 {
            assert(stray(components[0], components[i], i) is None);
        }
        if j > 0 {
            assert(stray(components[0], components[j], j) is None);
        }
    }
}

/// The weights of the first `n` components that weigh at least `least`.
pub open spec fn kept_weights(weights: Seq<F64>, least: F64, n: nat) -> Seq<F64>
    decreases n,
{
    if n == 0 {
        Seq::empty()
    } else if least.spec_le(weights[n - 1]) {
        kept_weights(weights, least, (n - 1) as nat).push(weights[n - 1])
    } else {
        kept_weights(weights, least, (n - 1) as nat)
    }
}

/// Those of the first `n` components that weigh at least `least`.
pub open spec fn kept<X>(weights: Seq<F64>, components: Seq<X>, least: F64, n: nat) -> Seq<X>
    decreases n,
{
    if n == 0 {
        Seq::empty()
    } else if least.spec_le(weights[n - 1]) {
        kept(weights, components, least, (n - 1) as nat).push(components[n - 1])
    } else {
        kept(weights, components, least, (n - 1) as nat)
    }
}

/// What keeps a mixture from being pruned.
pub open spec fn prune_fault<A: Arithmetic>(ops: &A, weights: Seq<F64>, least: F64) -> Option<
    ValueFault,
> {
    let left = kept_weights(weights, least, weights.len());
    if left.len() == 0 {
        Some(ValueFault::AllPruned)
    } else if total(ops, left, left.len()).spec_le(F64 { bits: constants::ZERO }) {
        Some(ValueFault::NoWeightLeft)
    } else {
        None
    }
}

/// As many weights are kept as components.
pub proof fn lemma_kept<X>(weights: Seq<F64>, components: Seq<X>, least: F64, n: nat)
    requires
        n <= weights.len(),
        n <= components.len(),
    ensures
        kept_weights(weights, least, n).len() == kept(weights, components, least, n).len(),
        kept(weights, components, least, n).len() <= n,
        forall|k: int|
            0 <= k < kept(weights, components, least, n).len() ==> exists|i: int|
                0 <= i < n && components[i] == #[trigger] kept(weights, components, least, n)[k]
                    && weights[i] == kept_weights(weights, least, n)[k] && least.spec_le(
                    weights[i],
                ),
    decreases n,
{
    if n > 0 {
        let m = (n - 1) as nat;
        lemma_kept(weights, components, least, m);
        let all = kept(weights, components, least, n);
        assert forall|k: int| 0 <= k < all.len() implies exists|i: int|
            0 <= i < n && components[i] == #[trigger] all[k] && weights[i] == kept_weights(
                weights,
                least,
                n,
            )[k] && least.spec_le(weights[i]) by {
            if k < kept(weights, components, least, m).len() {
                assert(all[k] == kept(weights, components, least, m)[k]);
                let i = choose|i: int|
                    0 <= i < m && components[i] == kept(weights, components, least, m)[k]
                        && weights[i] == kept_weights(weights, least, m)[k] && least.spec_le(
                        weights[i],
                    );
                assert(components[i] == all[k]);
            } else {
                assert(components[n - 1] == all[k]);
            }
        }
    }
}

/// Pruning keeps only components which weigh enough, and those that are kept are still alike.
pub proof fn law_prune_keeps<T: InertialFrame, C: CenterBody>(
    weights: Seq<F64>,
    components: Seq<UncertainModel<T, C>>,
    least: F64,
)
    requires
        weights.len() == components.len(),
        alike(components),
        components.len() > 1 || kept(weights, components, least, weights.len()).len() <= 1,
    ensures
        kept(weights, components, least, weights.len()).len() <= components.len(),
        forall|k: int|
            0 <= k < kept_weights(weights, least, weights.len()).len() ==> least.spec_le(
                #[trigger] kept_weights(weights, least, weights.len())[k],
            ),
        alike(kept(weights, components, least, weights.len())),
{
    let n = weights.len();
    lemma_kept(weights, components, least, n);
    let left = kept(weights, components, least, n);
    let w = kept_weights(weights, least, n);
    assert forall|k: int| 0 <= k < w.len() implies least.spec_le(#[trigger] w[k]) by {
        assert(left[k] == left[k]);
    }
    assert forall|a: int, b: int|
        0 <= a < left.len() && 0 <= b < left.len() && a != b implies #[trigger] stray(
        left[a],
        left[b],
        b,
    ) is None by {
        let i = choose|i: int|
            0 <= i < n && components[i] == left[a] && weights[i] == w[a] && least.spec_le(
                weights[i],
            );
        let j = choose|j: int|
            0 <= j < n && components[j] == left[b] && weights[j] == w[b] && least.spec_le(
                weights[j],
            );
        if i != j {
            assert(stray(components[i], components[j], j) is None);
        } else {
            let other = if i == 0 {
                1int
            } else {
                0int
            };
            assert(stray(components[i], components[other], other) is None);
            assert(stray(components[other], components[i], i) is None);
        }
    }
}

/// The sums of the first weights: how much of the mixture the components up to each are.
pub open spec fn cumulative<A: Arithmetic>(ops: &A, weights: Seq<F64>) -> Seq<F64> {
    Seq::new(weights.len(), |i: int| total(ops, weights, (i + 1) as nat))
}

/// The component which a number between zero and one falls to, from number `i` on: the first
/// one up to which the mixture reaches it, or the last one.
pub open spec fn pick(cdf: Seq<F64>, u: F64, i: int) -> int
    decreases cdf.len() - i,
{
    if i >= cdf.len() {
        cdf.len() - 1
    } else if u.spec_le(cdf[i]) {
        i
    } else {
        pick(cdf, u, i + 1)
    }
}

/// How many of the first `n` numbers fall to component `k`.
pub open spec fn picks(cdf: Seq<F64>, uniform: Seq<F64>, k: int, n: nat) -> nat
    decreases n,
{
    if n == 0 {
        0
    } else {
        picks(cdf, uniform, k, (n - 1) as nat) + (if pick(cdf, uniform[n - 1], 0) == k {
            1nat
        } else {
            0nat
        })
    }
}

/// The sum of the first `n` of some counts.
pub open spec fn tally(counts: Seq<nat>, n: nat) -> nat
    decreases n,
{
    if n == 0 {
        0
    } else {
        tally(counts, (n - 1) as nat) + counts[n - 1]
    }
}

/// A number falls to one of the components.
pub proof fn lemma_pick(cdf: Seq<F64>, u: F64, i: int)
    requires
        cdf.len() > 0,
        0 <= i,
    ensures
        0 <= pick(cdf, u, i) < cdf.len(),
    decreases cdf.len() - i,
{
    if i < cdf.len() && !u.spec_le(cdf[i]) {
        lemma_pick(cdf, u, i + 1);
    }
}

/// No more numbers fall to a component than there are.
pub proof fn lemma_picks(cdf: Seq<F64>, uniform: Seq<F64>, k: int, n: nat)
    ensures
        picks(cdf, uniform, k, n) <= n,
    decreases n,
{
    if n > 0 {
        lemma_picks(cdf, uniform, k, (n - 1) as nat);
    }
}

/// One more number adds one to the counts of the first `m` components if and only if it falls
/// to one of them.
proof fn lemma_tally_step(cdf: Seq<F64>, uniform: Seq<F64>, n: nat, m: nat)
    requires
        n > 0,
    ensures
        tally(Seq::new(m, |k: int| picks(cdf, uniform, k, n)), m) == tally(
            Seq::new(m, |k: int| picks(cdf, uniform, k, (n - 1) as nat)),
            m,
        ) + (if 0 <= pick(cdf, uniform[n - 1], 0) < m {
            1nat
        } else {
            0nat
        }),
    decreases m,
{
    if m > 0 {
        let l = (m - 1) as nat;
        lemma_tally_step(cdf, uniform, n, l);
        lemma_tally_prefix(cdf, uniform, n, l, m);
        lemma_tally_prefix(cdf, uniform, (n - 1) as nat, l, m);
    }
}

/// The counts of the first components do not depend on how many more there are.
proof fn lemma_tally_prefix(cdf: Seq<F64>, uniform: Seq<F64>, n: nat, l: nat, m: nat)
    requires
        l <= m,
    ensures
        tally(Seq::new(m, |k: int| picks(cdf, uniform, k, n)), l) == tally(
            Seq::new(l, |k: int| picks(cdf, uniform, k, n)),
            l,
        ),
    decreases l,
{
    if l > 0 {
        let p = (l - 1) as nat;
        lemma_tally_prefix(cdf, uniform, n, p, m);
        lemma_tally_prefix(cdf, uniform, n, p, l);
    }
}

/// Every number falls to exactly one component: the counts sum to how many numbers there are.
pub proof fn law_every_draw_counts(cdf: Seq<F64>, uniform: Seq<F64>, n: nat)
    requires
        cdf.len() > 0,
        n <= uniform.len(),
    ensures
        tally(Seq::new(cdf.len(), |k: int| picks(cdf, uniform, k, n)), cdf.len()) == n,
    decreases n,
{
    if n > 0 {
        law_every_draw_counts(cdf, uniform, (n - 1) as nat);
        lemma_pick(cdf, uniform[n - 1], 0);
        lemma_tally_step(cdf, uniform, n, cdf.len());
    } else {
        lemma_no_draws(cdf, uniform, cdf.len());
    }
}

/// Without numbers nothing is counted.
proof fn lemma_no_draws(cdf: Seq<F64>, uniform: Seq<F64>, m: nat)
    ensures
        tally(Seq::new(m, |k: int| picks(cdf, uniform, k, 0)), m) == 0,
    decreases m,
{
    if m > 0 {
        lemma_no_draws(cdf, uniform, (m - 1) as nat);
        lemma_tally_prefix(cdf, uniform, 0, (m - 1) as nat, m);
    }
}

/// The samples of the first `n` components, one after the other, or the first fault.
pub open spec fn mixed_samples<A: Algebra, T: InertialFrame, C: CenterBody + Copy>(
    ops: &A,
    components: Seq<UncertainState<T, C>>,
    draws: Seq<Seq<Seq<F64>>>,
    n: nat,
) -> KeteResult<Seq<SampleModel<T, C>>>
    decreases n,
{
    if n == 0 {
        Ok(Seq::empty())
    } else {
        match mixed_samples(ops, components, draws, (n - 1) as nat) {
            Err(e) => Err(e),
            Ok(so_far) => if draws[n - 1].len() == 0 {
                Ok(so_far)
            } else {
                match components[n - 1]@.samples(ops, draws[n - 1]) {
                    Err(e) => Err(e),
                    Ok(more) => Ok(so_far + more),
                }
            },
        }
    }
}

/// A fault of the first components is the fault of all.
proof fn lemma_mixed_fault<A: Algebra, T: InertialFrame, C: CenterBody + Copy>(
    ops: &A,
    components: Seq<UncertainState<T, C>>,
    draws: Seq<Seq<Seq<F64>>>,
    m: nat,
    n: nat,
)
    requires
        m <= n,
        mixed_samples(ops, components, draws, m) is Err,
    ensures
        mixed_samples(ops, components, draws, n) == mixed_samples(ops, components, draws, m),
    decreases n - m,
{
    if m < n {
        lemma_mixed_fault(ops, components, draws, m, (n - 1) as nat);
    }
}

/// Draws for each component as numbers.
pub open spec fn layers(draws: Seq<Vec<Vec<F64>>>) -> Seq<Seq<Seq<F64>>> {
    Seq::new(draws.len(), |i: int| numbers::rows(draws[i]@))
}

/// The sum of all numbers, first to last.
fn add_up<A: Arithmetic>(ops: &A, v: &Vec<F64>) -> (r: F64)
    requires
        ops.lawful(),
    ensures
        r == total(ops, v@, v@.len()),
{
    let mut r = F64::from_bits(constants::ZERO);
    let mut i: usize = 0;
    while i < v.len()
        invariant
            ops.lawful(),
            i <= v@.len(),
            r == total(ops, v@, i as nat),
        decreases v@.len() - i,
    {
        r = arithmetic::plus(ops, r, v[i]);
        i = i + 1;
    }
    r
}

/// Is some weight negative or not finite.
fn has_bad_weight(weights: &Vec<F64>) -> (r: bool)
    ensures
        r == exists|i: int| 0 <= i < weights@.len() && bad_weight(#[trigger] weights@[i]),
{
    let mut i: usize = 0;
    while i < weights.len()
        invariant
            i <= weights@.len(),
            forall|k: int| 0 <= k < i ==> !bad_weight(#[trigger] weights@[k]),
        decreases weights@.len() - i,
    {
        if !weights[i].is_finite() || weights[i].less(F64::zero()) {
            assert(bad_weight(weights@[i as int]));
            return true;
        }
        i = i + 1;
    }
    false
}

impl<T: InertialFrame, C: CenterBody + Copy> DiffuseState<T, C> {
    /// Do the parts belong together.
    pub open spec fn well_formed(&self) -> bool {
        &&& self.components@.len() > 0
        &&& self.weights@.len() == self.components@.len()
        &&& forall|i: int|
            0 <= i < self.components@.len() ==> (#[trigger] self.components@[i])@.well_formed()
        &&& strays(models(self.components@), 1) is None
    }

    /// Mix states by their weights.
    pub fn new<A: Arithmetic>(
        ops: &A,
        weights: Vec<F64>,
        components: Vec<UncertainState<T, C>>,
    ) -> (r: KeteResult<Self>)
        requires
            ops.lawful(),
        ensures
            r == (match mixture_fault(ops, weights@, models(components@)) {
                Some(f) => Err(Error::ValueError(f)),
                None => Ok(DiffuseState { weights, components }),
            }),
    {
        let ghost all = models(components@);
        if components.len() == 0 {
            return Err(Error::ValueError(ValueFault::NoComponents));
        }
        if weights.len() != components.len() {
            return Err(
                Error::ValueError(
                    ValueFault::WeightCount {
                        weights: weights.len(),
                        components: components.len(),
                    },
                ),
            );
        }
        if has_bad_weight(&weights) {
            return Err(Error::ValueError(ValueFault::BadWeight));
        }
        let one = F64::from_bits(constants::ONE);
        let off = arithmetic::minus(ops, add_up(ops, &weights), one).abs();
        if F64::from_bits(WEIGHT_SUM_TOL).less(off) {
            return Err(Error::ValueError(ValueFault::WeightSum));
        }
        let epoch = components[0].state.epoch;
        let center = components[0].state.center_id();
        let size = components[0].cov_matrix.nrows;
        let mut i: usize = 1;
        while i < components.len()
            invariant
                1 <= i <= components@.len(),
                all == models(components@),
                epoch == all[0].state.epoch,
                center == all[0].state.center.naif_id(),
                size == all[0].cov.nrows,
                strays(all, 1) == strays(all, i as int),
                weights@.len() == components@.len(),
                mixture_fault(ops, weights@, all) == strays(all, 1),
            decreases components@.len() - i,
        {
            if !components[i].state.epoch.equals(epoch) {
                return Err(Error::ValueError(ValueFault::ComponentEpoch(i)));
            }
            if components[i].state.center_id() != center {
                return Err(Error::ValueError(ValueFault::ComponentCenter(i)));
            }
            if components[i].cov_matrix.nrows != size {
                return Err(Error::ValueError(ValueFault::ComponentSize(i)));
            }
            i = i + 1;
        }
        Ok(DiffuseState { weights, components })
    }

    /// A mixture of one state.
    pub fn from_uncertain(state: UncertainState<T, C>) -> (r: Self)
        ensures
            r.weights@ == seq![F64 { bits: constants::ONE }],
            r.components@ == seq![state],
            state@.well_formed() ==> r.well_formed(),
    {
        let r = DiffuseState {
            weights: vec![F64::from_bits(constants::ONE)],
            components: vec![state],
        };
        assert(r.weights@ =~= seq![F64 { bits: constants::ONE }]);
        assert(r.components@ =~= seq![state]);
        r
    }

    /// The epoch which the components share.
    pub fn epoch(&self) -> (t: Time)
        requires
            self.components@.len() > 0,
        ensures
            t == self.components@[0].state.epoch,
    {
        self.components[0].state.epoch
    }

    /// How many components there are.
    pub fn n_components(&self) -> (n: usize)
        ensures
            n == self.components@.len(),
    {
        self.components.len()
    }

    /// How many parameters each component has.
    pub fn n_params(&self) -> (n: usize)
        requires
            self.components@.len() > 0,
        ensures
            n == self.components@[0].free_params@.len(),
    {
        self.components[0].free_params.len()
    }

    /// The size of the covariance of each component.
    pub fn cov_dim(&self) -> (n: usize)
        requires
            self.components@.len() > 0,
            self.components@[0].free_params@.len() + 6 <= usize::MAX,
        ensures
            n == 6 + self.components@[0].free_params@.len(),
    {
        6 + self.n_params()
    }

    /// Drop the components which weigh less than `min_weight`, and scale the weights of the
    /// others so that they sum to one. The mixture stays as it is where that fails.
    pub fn prune<A: Arithmetic>(&mut self, ops: &A, min_weight: F64) -> (r: KeteResult<()>)
        requires
            ops.lawful(),
            old(self).well_formed(),
        ensures
            match prune_fault(ops, old(self).weights@, min_weight) {
                Some(f) => r == Err::<(), Error>(Error::ValueError(f)) && *final(self)
                    == *old(self),
                None => {
                    let n = old(self).weights@.len();
                    let left = kept_weights(old(self).weights@, min_weight, n);
                    &&& r == Ok::<(), Error>(())
                    &&& final(self).weights@ == numbers::parts(
                        ops,
                        left,
                        total(ops, left, left.len()),
                    )
                    &&& models(final(self).components@) == kept(
                        old(self).weights@,
                        models(old(self).components@),
                        min_weight,
                        n,
                    )
                },
            },
            final(self).well_formed(),
    {
        let ghost all = models(self.components@);
        let mut weights: Vec<F64> = Vec::new();
        let mut components: Vec<UncertainState<T, C>> = Vec::new();
        let mut i: usize = 0;
        assert(models(components@) =~= kept(self.weights@, all, min_weight, 0));
        while i < self.weights.len()
            invariant
                self.well_formed(),
                all == models(self.components@),
                i <= self.weights@.len(),
                weights@ == kept_weights(self.weights@, min_weight, i as nat),
                models(components@) == kept(self.weights@, all, min_weight, i as nat),
                forall|k: int|
                    0 <= k < components@.len() ==> (#[trigger] components@[k])@.well_formed(),
            decreases self.weights@.len() - i,
        {
            if min_weight.less_or_equal(self.weights[i]) {
                assert(self.components@[i as int]@.well_formed());
                weights.push(self.weights[i]);
                let ghost before = components@;
                let copy = self.components[i].clone();
                components.push(copy);
                assert(models(components@) =~= models(before).push(copy@));
                assert(all[i as int] == copy@);
            }
            i = i + 1;
        }
        if weights.len() == 0 {
            return Err(Error::ValueError(ValueFault::AllPruned));
        }
        let sum = add_up(ops, &weights);
        if sum.less_or_equal(F64::from_bits(constants::ZERO)) {
            return Err(Error::ValueError(ValueFault::NoWeightLeft));
        }
        proof {
            let n = self.weights@.len();
            law_alike(all);
            lemma_kept(self.weights@, all, min_weight, n);
            if all.len() == 1 {
                assert(kept(self.weights@, all, min_weight, n).len() <= 1);
            }
            law_prune_keeps(self.weights@, all, min_weight);
            lemma_alike_strays(models(components@), 1);
        }
        self.weights = numbers::divide(ops, &weights, sum);
        self.components = components;
        Ok(())
    }

    /// How many samples each component owes, when each of some numbers between zero and one
    /// picks a component by the weights.
    pub fn sample_counts<A: Arithmetic>(&self, ops: &A, uniform: &Vec<F64>) -> (r: Vec<usize>)
        requires
            ops.lawful(),
            self.weights@.len() > 0,
        ensures
            r@.len() == self.weights@.len(),
            forall|k: int|
                0 <= k < r@.len() ==> #[trigger] r@[k] == picks(
                    cumulative(ops, self.weights@),
                    uniform@,
                    k,
                    uniform@.len(),
                ),
    {
        let ghost want = cumulative(ops, self.weights@);
        let mut cdf: Vec<F64> = Vec::new();
        let mut acc = F64::from_bits(constants::ZERO);
        let mut counts: Vec<usize> = Vec::new();
        let mut k: usize = 0;
        while k < self.weights.len()
            invariant
                ops.lawful(),
                want == cumulative(ops, self.weights@),
                k <= self.weights@.len(),
                acc == total(ops, self.weights@, k as nat),
                cdf@ == want.take(k as int),
                counts@.len() == k,
                forall|i: int| 0 <= i < k ==> #[trigger] counts@[i] == 0,
            decreases self.weights@.len() - k,
        {
            acc = arithmetic::plus(ops, acc, self.weights[k]);
            cdf.push(acc);
            counts.push(0);
            k = k + 1;
            assert(cdf@ =~= want.take(k as int));
        }
        assert(cdf@ =~= want);
        let mut i: usize = 0;
        while i < uniform.len()
            invariant
                cdf@ == want,
                want.len() > 0,
                counts@.len() == want.len(),
                i <= uniform@.len(),
                forall|k: int|
                    0 <= k < want.len() ==> #[trigger] counts@[k] == picks(
                        want,
                        uniform@,
                        k,
                        i as nat,
                    ),
            decreases uniform@.len() - i,
        {
            let idx = choose_component(&cdf, uniform[i]);
            proof {
                lemma_picks(want, uniform@, idx as int, i as nat);
            }
            let n = counts[idx] + 1;
            counts.set(idx, n);
            i = i + 1;
        }
        counts
    }

    /// The seed of the samples of a component.
    pub fn component_seed(seed: Option<u64>, idx: usize) -> (r: Option<u64>)
        ensures
            match seed {
                Some(s) => r is Some && r->Some_0 == (s + idx + 1) % 0x1_0000_0000_0000_0000,
                None => r is None,
            },
    {
        match seed {
            Some(s) => Some(s.wrapping_add(idx as u64).wrapping_add(1)),
            None => None,
        }
    }

    /// Samples of the mixture, one for each draw of independent normal variables, component by
    /// component.
    pub fn sample<A: Algebra>(&self, ops: &A, draws: &Vec<Vec<Vec<F64>>>) -> (r: KeteResult<
        Vec<Sample<T, C>>,
    >)
        requires
            ops.lawful(),
            self.well_formed(),
            draws@.len() == self.components@.len(),
            forall|i: int|
                0 <= i < draws@.len() ==> numbers::shaped(
                    #[trigger] layers(draws@)[i],
                    draws@[i]@.len(),
                    6 + self.components@[i].free_params@.len(),
                ),
        ensures
            uncertain::samples_of(r) == mixed_samples(
                ops,
                self.components@,
                layers(draws@),
                draws@.len(),
            ),
    {
        let mut all: Vec<Sample<T, C>> = Vec::new();
        let mut i: usize = 0;
        assert(uncertain::views(all@) =~= Seq::empty());
        while i < draws.len()
            invariant
                ops.lawful(),
                self.well_formed(),
                draws@.len() == self.components@.len(),
                forall|i: int|
                    0 <= i < draws@.len() ==> numbers::shaped(
                        #[trigger] layers(draws@)[i],
                        draws@[i]@.len(),
                        6 + self.components@[i].free_params@.len(),
                    ),
                i <= draws@.len(),
                mixed_samples(ops, self.components@, layers(draws@), i as nat) == Ok::<
                    Seq<SampleModel<T, C>>,
                    Error,
                >(uncertain::views(all@)),
            decreases draws@.len() - i,
        {
            assert(layers(draws@)[i as int] == numbers::rows(draws@[i as int]@));
            assert(self.components@[i as int]@.well_formed());
            if draws[i].len() > 0 {
                match self.components[i].sample(ops, &draws[i]) {
                    Err(e) => {
                        proof {
                            lemma_mixed_fault(
                                ops,
                                self.components@,
                                layers(draws@),
                                i as nat + 1,
                                draws@.len(),
                            );
                        }
                        return Err(e);
                    },
                    Ok(more) => {
                        let mut more = more;
                        let ghost first = all@;
                        let ghost second = more@;
                        all.append(&mut more);
                        assert(uncertain::views(all@) =~= uncertain::views(first)
                            + uncertain::views(second));
                    },
                }
            }
            i = i + 1;
        }
        Ok(all)
    }
}

/// Components which are alike can be mixed.
proof fn lemma_alike_strays<T: InertialFrame, C: CenterBody>(
    components: Seq<UncertainModel<T, C>>,
    i: int,
)
    requires
        1 <= i,
        alike(components),
    ensures
        strays(components, i) is None,
    decreases components.len() - i,
{
    if i < components.len() {
        assert(stray(components[0], components[i], i) is None);
        lemma_alike_strays(components, i + 1);
    }
}

/// The component which a number between zero and one falls to.
fn choose_component(cdf: &Vec<F64>, u: F64) -> (k: usize)
    requires
        cdf@.len() > 0,
    ensures
        k == pick(cdf@, u, 0),
        k < cdf@.len(),
{
    let mut i: usize = 0;
    while i < cdf.len()
        invariant
            i <= cdf@.len(),
            pick(cdf@, u, 0) == pick(cdf@, u, i as int),
        decreases cdf@.len() - i,
    {
        if u.less_or_equal(cdf[i]) {
            return i;
        }
        i = i + 1;
    }
    cdf.len() - 1
}

// ---------------------------------------------------------------------------
// Splits
// ---------------------------------------------------------------------------

/// The index of the largest of the first `n` numbers, the last of them where there are several.
pub open spec fn strongest(values: Seq<F64>, n: nat) -> int
    decreases n,
{
    if n <= 1 {
        0
    } else {
        let best = strongest(values, (n - 1) as nat);
        if values[n - 1].spec_lt(values[best]) {
            best
        } else {
            n - 1
        }
    }
}

/// The eigenvector with the largest eigenvalue.
pub open spec fn dominant<A: Algebra>(ops: &A, cov: Grid) -> KeteResult<Seq<F64>> {
    let e = ops.eigen(cov);
    let k = strongest(e.values, e.values.len());
    let largest = e.values[k];
    if !largest.finite() || largest.spec_le(F64 { bits: constants::ZERO }) {
        Err(Error::ValueError(ValueFault::NoPositiveEigenvalue))
    } else {
        Ok(numbers::column(e.vectors.cells, k))
    }
}

/// The eigenvector with the largest eigenvalue.
pub fn dominant_eigenvector<A: Algebra>(ops: &A, cov: &Table) -> (r: KeteResult<Vec<F64>>)
    requires
        ops.lawful(),
        algebra::square(cov@),
        cov@.nrows > 0,
    ensures
        uncertain::numbers_of(r) == dominant(ops, cov@),
        r matches Ok(v) ==> v@.len() == cov@.nrows,
{
    let e = ops.symmetric_eigen(cov);
    let mut best: usize = 0;
    let mut i: usize = 1;
    while i < e.values.len()
        invariant
            e.values@.len() > 0,
            1 <= i <= e.values@.len(),
            best == strongest(e.values@, i as nat),
            best < i,
        decreases e.values@.len() - i,
    {
        if !e.values[i].less(e.values[best]) {
            best = i;
        }
        i = i + 1;
    }
    let largest = e.values[best];
    if !largest.is_finite() || largest.less_or_equal(F64::from_bits(constants::ZERO)) {
        return Err(Error::ValueError(ValueFault::NoPositiveEigenvalue));
    }
    proof {
        assert forall|k: int| 0 <= k < e.vectors.cells@.len() implies best < (
        #[trigger] e.vectors.cells@[k])@.len() by {
            assert(e.vectors@.cells[k].len() == e.vectors.ncols);
        }
    }
    Ok(numbers::column_of(&e.vectors.cells, best))
}

/// The smallest of the first `n` numbers and infinity.
pub open spec fn lowest(values: Seq<F64>, n: nat) -> F64
    decreases n,
{
    if n == 0 {
        F64 { bits: float::INFINITY_64 }
    } else {
        numbers::smaller(lowest(values, (n - 1) as nat), values[n - 1])
    }
}

/// The smallest number.
fn find_lowest(values: &Vec<F64>) -> (r: F64)
    ensures
        r == lowest(values@, values@.len()),
{
    let mut r = F64::from_bits(float::INFINITY_64);
    let mut i: usize = 0;
    while i < values.len()
        invariant
            i <= values@.len(),
            r == lowest(values@, i as nat),
        decreases values@.len() - i,
    {
        r = numbers::min(r, values[i]);
        i = i + 1;
    }
    r
}

/// The length of a list of numbers as a vector.
pub open spec fn norm<A: Arithmetic>(ops: &A, v: Seq<F64>) -> F64 {
    ops.one(Unary::Sqrt, numbers::dot(ops, v, v, v.len()))
}

/// The length of a list of numbers as a vector.
pub fn find_norm<A: Arithmetic>(ops: &A, v: &Vec<F64>) -> (r: F64)
    requires
        ops.lawful(),
    ensures
        r == norm(ops, v@),
{
    ops.unary(Unary::Sqrt, numbers::inner(ops, v, v))
}

/// The variance along a direction.
pub open spec fn variance_along<A: Arithmetic>(ops: &A, cov: Grid, d: Seq<F64>) -> F64 {
    numbers::dot(ops, cov.transposed().applied(ops, d), d, d.len())
}

/// A covariance with its variance along `d`, which is `sigma_sq`, brought down to that of one
/// part of a split.
pub open spec fn narrowed<A: Arithmetic>(ops: &A, cov: Grid, d: Seq<F64>, sigma_sq: F64) -> Grid {
    let alpha = arithmetic::product(
        ops,
        arithmetic::difference(
            ops,
            F64 { bits: constants::ONE },
            ops.one(Unary::Squared, F64 { bits: HUBER_K3_SIGMA }),
        ),
        sigma_sq,
    );
    let reduced = cov.difference(ops, Grid::outer(ops, d, d).scaled(ops, alpha));
    reduced.sum(ops, reduced.transposed()).scaled(ops, F64 { bits: constants::HALF })
}

/// A covariance with its variance along `d` brought down to that of one part of a split.
fn narrow<A: Arithmetic>(ops: &A, cov: &Table, d: &Vec<F64>, sigma_sq: F64) -> (r: Table)
    requires
        ops.lawful(),
        algebra::square(cov@),
        d@.len() == cov@.nrows,
    ensures
        r@ == narrowed(ops, cov@, d@, sigma_sq),
        r@.well_formed(),
        r@.nrows == cov@.nrows,
        r@.ncols == cov@.nrows,
{
    let one = F64::from_bits(constants::ONE);
    let kept = ops.unary(Unary::Squared, F64::from_bits(HUBER_K3_SIGMA));
    let alpha = arithmetic::times(ops, arithmetic::minus(ops, one, kept), sigma_sq);
    let reduced = cov.minus(ops, &Table::outer_product(ops, d, d).scale(ops, alpha));
    reduced.plus(ops, &reduced.transpose()).scale(ops, F64::from_bits(constants::HALF))
}

/// A part of a split, as numbers.
#[verifier::ext_equal]
pub struct PartModel<T: InertialFrame, C: CenterBody> {
    pub weight: F64,
    pub component: UncertainModel<T, C>,
}

/// A part of a split.
#[derive(Debug)]
pub struct Part<T: InertialFrame, C: CenterBody> {
    /// The weight of the part.
    pub weight: F64,
    /// The part.
    pub component: UncertainState<T, C>,
}

impl<T: InertialFrame, C: CenterBody> View for Part<T, C> {
    type V = PartModel<T, C>;

    open spec fn view(&self) -> PartModel<T, C> {
        PartModel { weight: self.weight, component: self.component@ }
    }
}

/// Parts as numbers.
pub open spec fn part_models<T: InertialFrame, C: CenterBody>(s: Seq<Part<T, C>>) -> Seq<
    PartModel<T, C>,
> {
    Seq::new(s.len(), |i: int| s[i]@)
}

/// Parts as numbers, or why there are none.
pub open spec fn parts_of<T: InertialFrame, C: CenterBody>(r: KeteResult<Vec<Part<T, C>>>)
    -> KeteResult<
    Seq<PartModel<T, C>>,
> {
    match r {
        Ok(s) => Ok(part_models(s@)),
        Err(e) => Err(e),
    }
}

/// Part `k` of a component which is split along the unit vector `d`.
pub open spec fn part<A: Arithmetic, T: InertialFrame, C: CenterBody>(
    ops: &A,
    component: UncertainModel<T, C>,
    d: Seq<F64>,
    sigma_sq: F64,
    k: int,
) -> PartModel<T, C> {
    let sigma = ops.one(Unary::Sqrt, sigma_sq);
    let delta = numbers::scaled(ops, d, arithmetic::product(ops, part_mean(k), sigma));
    PartModel {
        weight: part_weight(k),
        component: UncertainModel {
            state: component.moved_state(ops, delta),
            cov: narrowed(ops, component.cov, d, sigma_sq),
            params: component.moved_params(ops, delta),
        },
    }
}

/// The three parts of a component which is split along a direction, or why it cannot be.
pub open spec fn split_along<A: Algebra, T: InertialFrame, C: CenterBody>(
    ops: &A,
    component: UncertainModel<T, C>,
    direction: Seq<F64>,
) -> KeteResult<Seq<PartModel<T, C>>> {
    let zero = F64 { bits: constants::ZERO };
    let length = norm(ops, direction);
    let d = numbers::parts(ops, direction, length);
    let sigma_sq = variance_along(ops, component.cov, d);
    let cov = narrowed(ops, component.cov, d, sigma_sq);
    let values = ops.eigen(cov).values;
    if direction.len() != component.cov.nrows {
        Err(
            Error::ValueError(
                ValueFault::DirectionLength {
                    length: direction.len() as usize,
                    size: component.cov.nrows as usize,
                },
            ),
        )
    } else if !length.finite() || length.spec_le(zero) {
        Err(Error::ValueError(ValueFault::BadDirection))
    } else if !sigma_sq.finite() || sigma_sq.spec_le(zero) {
        Err(Error::ValueError(ValueFault::NoVariance))
    } else if lowest(values, values.len()).spec_lt(
        arithmetic::product(
            ops,
            sigma_sq.abs_value().negated(),
            F64 { bits: DEFINITE_TOL },
        ),
    ) {
        Err(Error::ValueError(ValueFault::SplitIndefinite))
    } else {
        Ok(
            seq![
                part(ops, component, d, sigma_sq, 0),
                part(ops, component, d, sigma_sq, 1),
                part(ops, component, d, sigma_sq, 2),
            ],
        )
    }
}

/// Part `k` of a component which is split along the unit vector `d`.
fn make_part<A: Arithmetic, T: InertialFrame, C: CenterBody + Copy>(
    ops: &A,
    component: &UncertainState<T, C>,
    d: &Vec<F64>,
    sigma_sq: F64,
    cov: &Table,
    k: usize,
) -> (r: Part<T, C>)
    requires
        ops.lawful(),
        component@.well_formed(),
        d@.len() == component@.cov.nrows,
        cov@ == narrowed(ops, component@.cov, d@, sigma_sq),
        k < 3,
    ensures
        r@ == part(ops, component@, d@, sigma_sq, k as int),
        r.component@.well_formed(),
{
    let sigma = ops.unary(Unary::Sqrt, sigma_sq);
    let offset = arithmetic::times(ops, F64::from_bits(HUBER_K3_MEANS[k]), sigma);
    let delta = numbers::scale(ops, d, offset);
    let there = component.moved(ops, &delta);
    let component = UncertainState {
        state: there.state,
        cov_matrix: cov.clone(),
        free_params: there.params,
    };
    Part { weight: F64::from_bits(HUBER_K3_WEIGHTS[k]), component }
}

/// Split a component along a direction into three parts, which together have its mean and its
/// covariance.
pub fn split_axial_k3_along<A: Algebra, T: InertialFrame, C: CenterBody + Copy>(
    ops: &A,
    component: &UncertainState<T, C>,
    direction: &Vec<F64>,
) -> (r: KeteResult<Vec<Part<T, C>>>)
    requires
        ops.lawful(),
        component@.well_formed(),
    ensures
        parts_of(r) == split_along(ops, component@, direction@),
        r matches Ok(parts) ==> parts@.len() == 3 && forall|k: int|
            0 <= k < 3 ==> (#[trigger] parts@[k]).component@.well_formed(),
{
    let zero = F64::from_bits(constants::ZERO);
    let size = component.cov_matrix.nrows;
    if direction.len() != size {
        return Err(
            Error::ValueError(ValueFault::DirectionLength { length: direction.len(), size }),
        );
    }
    let length = find_norm(ops, direction);
    if !length.is_finite() || length.less_or_equal(zero) {
        return Err(Error::ValueError(ValueFault::BadDirection));
    }
    let d = numbers::divide(ops, direction, length);
    let across = component.cov_matrix.transpose().apply(ops, &d);
    let sigma_sq = numbers::inner(ops, &across, &d);
    if !sigma_sq.is_finite() || sigma_sq.less_or_equal(zero) {
        return Err(Error::ValueError(ValueFault::NoVariance));
    }
    let cov = narrow(ops, &component.cov_matrix, &d, sigma_sq);
    let e = ops.symmetric_eigen(&cov);
    let floor = arithmetic::times(ops, sigma_sq.abs().neg(), F64::from_bits(DEFINITE_TOL));
    if find_lowest(&e.values).less(floor) {
        return Err(Error::ValueError(ValueFault::SplitIndefinite));
    }
    let a = make_part(ops, component, &d, sigma_sq, &cov, 0);
    let b = make_part(ops, component, &d, sigma_sq, &cov, 1);
    let c = make_part(ops, component, &d, sigma_sq, &cov, 2);
    let parts = vec![a, b, c];
    assert(part_models(parts@) =~= split_along(ops, component@, direction@)->Ok_0);
    Ok(parts)
}

/// The parts of a component which is split before it is propagated: along the direction that
/// grows into the largest uncertainty, or where that fails along its own largest uncertainty.
pub open spec fn split_before<A: Algebra, T: InertialFrame, C: CenterBody>(
    ops: &A,
    component: UncertainModel<T, C>,
    prop_cov: Grid,
    stm: Grid,
) -> KeteResult<Seq<PartModel<T, C>>> {
    let preferred = match dominant(ops, prop_cov) {
        Err(e) => Err(e),
        Ok(v) => match ops.inverse(stm) {
            None => Err(Error::ValueError(ValueFault::Singular)),
            Some(back) => split_along(ops, component, back.applied(ops, v)),
        },
    };
    if preferred is Ok {
        preferred
    } else {
        match dominant(ops, component.cov) {
            Err(e) => Err(e),
            Ok(v) => split_along(ops, component, v),
        }
    }
}

/// Split a component before it is propagated.
pub fn split_for_propagation<A: Algebra, T: InertialFrame, C: CenterBody + Copy>(
    ops: &A,
    component: &UncertainState<T, C>,
    prop_cov: &Table,
    augmented_stm: &Table,
) -> (r: KeteResult<Vec<Part<T, C>>>)
    requires
        ops.lawful(),
        component@.well_formed(),
        algebra::square(prop_cov@),
        algebra::square(augmented_stm@),
        prop_cov@.nrows == augmented_stm@.nrows,
        prop_cov@.nrows > 0,
    ensures
        parts_of(r) == split_before(ops, component@, prop_cov@, augmented_stm@),
        r matches Ok(parts) ==> parts@.len() == 3 && forall|k: int|
            0 <= k < 3 ==> (#[trigger] parts@[k]).component@.well_formed(),
{
    if let Ok(v) = dominant_eigenvector(ops, prop_cov) {
        if let Some(back) = ops.try_inverse(augmented_stm) {
            if let Ok(parts) = split_axial_k3_along(ops, component, &back.apply(ops, &v)) {
                return Ok(parts);
            }
        }
    }
    match dominant_eigenvector(ops, &component.cov_matrix) {
        Err(e) => Err(e),
        Ok(v) => split_axial_k3_along(ops, component, &v),
    }
}

// ---------------------------------------------------------------------------
// Moments of a mixture
// ---------------------------------------------------------------------------

/// The mean position of the first `n` components.
pub open spec fn mean_pos<A: Arithmetic, T: InertialFrame, C: CenterBody>(
    ops: &A,
    weights: Seq<F64>,
    components: Seq<UncertainModel<T, C>>,
    n: nat,
) -> Vector<T>
    decreases n,
{
    let zero = F64 { bits: constants::ZERO };
    if n == 0 {
        frames::vector(zero, zero, zero)
    } else {
        mean_pos(ops, weights, components, (n - 1) as nat).sum(
            ops,
            components[n - 1].state.pos.scaled(ops, weights[n - 1]),
        )
    }
}

/// The mean velocity of the first `n` components.
pub open spec fn mean_vel<A: Arithmetic, T: InertialFrame, C: CenterBody>(
    ops: &A,
    weights: Seq<F64>,
    components: Seq<UncertainModel<T, C>>,
    n: nat,
) -> Vector<T>
    decreases n,
{
    let zero = F64 { bits: constants::ZERO };
    if n == 0 {
        frames::vector(zero, zero, zero)
    } else {
        mean_vel(ops, weights, components, (n - 1) as nat).sum(
            ops,
            components[n - 1].state.vel.scaled(ops, weights[n - 1]),
        )
    }
}

/// The mean parameters of the first `n` components, of which there are `np`.
pub open spec fn mean_of_params<A: Arithmetic, T: InertialFrame, C: CenterBody>(
    ops: &A,
    weights: Seq<F64>,
    components: Seq<UncertainModel<T, C>>,
    np: nat,
    n: nat,
) -> Seq<F64>
    decreases n,
{
    if n == 0 {
        numbers::zeros(np)
    } else {
        numbers::sums(
            ops,
            mean_of_params(ops, weights, components, np, (n - 1) as nat),
            numbers::scaled(ops, components[n - 1].params, weights[n - 1]),
        )
    }
}

/// The mean of position, velocity and parameters.
pub open spec fn mean_vector<A: Arithmetic, T: InertialFrame, C: CenterBody>(
    ops: &A,
    weights: Seq<F64>,
    components: Seq<UncertainModel<T, C>>,
) -> Seq<F64> {
    uncertain::six(
        mean_pos(ops, weights, components, components.len()),
        mean_vel(ops, weights, components, components.len()),
    ) + mean_of_params(
        ops,
        weights,
        components,
        components[0].params.len(),
        components.len(),
    )
}

/// Position, velocity and parameters of a component.
pub open spec fn component_vector<T: InertialFrame, C: CenterBody>(c: UncertainModel<T, C>) -> Seq<
    F64,
> {
    uncertain::six(c.state.pos, c.state.vel) + c.params
}

/// The covariance of the first `n` components around a mean: the covariance of each, and the
/// spread of their means.
pub open spec fn spread_around<A: Arithmetic, T: InertialFrame, C: CenterBody>(
    ops: &A,
    weights: Seq<F64>,
    components: Seq<UncertainModel<T, C>>,
    mean: Seq<F64>,
    n: nat,
) -> Grid
    decreases n,
{
    if n == 0 {
        Grid::zeros(mean.len(), mean.len())
    } else {
        let c = components[n - 1];
        let w = weights[n - 1];
        let dev = numbers::differences(ops, component_vector(c), mean);
        spread_around(ops, weights, components, mean, (n - 1) as nat).sum(
            ops,
            c.cov.scaled(ops, w),
        ).sum(ops, Grid::outer(ops, dev, dev).scaled(ops, w))
    }
}

/// The weights of a mixture of which component `idx` is split: its parts come last.
pub open spec fn split_weights<A: Arithmetic, T: InertialFrame, C: CenterBody>(
    ops: &A,
    weights: Seq<F64>,
    idx: int,
    parts: Seq<PartModel<T, C>>,
) -> Seq<F64> {
    weights.remove(idx) + Seq::new(
        parts.len(),
        |k: int| arithmetic::product(ops, weights[idx], parts[k].weight),
    )
}

/// The components of a mixture of which component `idx` is split: its parts come last.
pub open spec fn split_components<T: InertialFrame, C: CenterBody>(
    components: Seq<UncertainModel<T, C>>,
    idx: int,
    parts: Seq<PartModel<T, C>>,
) -> Seq<UncertainModel<T, C>> {
    components.remove(idx) + Seq::new(parts.len(), |k: int| parts[k].component)
}

/// Splitting a component adds two and keeps the others as they are, in their order.
pub proof fn law_split_keeps_others<A: Arithmetic, T: InertialFrame, C: CenterBody>(
    ops: &A,
    weights: Seq<F64>,
    components: Seq<UncertainModel<T, C>>,
    idx: int,
    parts: Seq<PartModel<T, C>>,
)
    requires
        0 <= idx < components.len(),
        weights.len() == components.len(),
        parts.len() == 3,
    ensures
        split_components(components, idx, parts).len() == components.len() + 2,
        split_weights(ops, weights, idx, parts).len() == components.len() + 2,
        forall|i: int|
            0 <= i < idx ==> #[trigger] split_components(components, idx, parts)[i]
                == components[i],
        forall|i: int|
            idx <= i < components.len() - 1 ==> #[trigger] split_components(
                components,
                idx,
                parts,
            )[i] == components[i + 1],
{
}

/// Each part of a split keeps the epoch, the center and the size of the component.
pub proof fn law_parts_are_alike<A: Algebra, T: InertialFrame, C: CenterBody>(
    ops: &A,
    component: UncertainModel<T, C>,
    direction: Seq<F64>,
)
    requires
        component.well_formed(),
        split_along(ops, component, direction) is Ok,
    ensures
        split_along(ops, component, direction)->Ok_0.len() == 3,
        forall|k: int|
            0 <= k < 3 ==> {
                let p = (#[trigger] split_along(ops, component, direction)->Ok_0[k]).component;
                &&& p.well_formed()
                &&& p.cov.nrows == component.cov.nrows
                &&& p.params.len() == component.params.len()
                &&& p.state.desig == component.state.desig
                &&& p.state.epoch == component.state.epoch
                &&& p.state.center == component.state.center
            },
{
}

impl<T: InertialFrame, C: CenterBody + Copy> DiffuseState<T, C> {
    /// The mean state of the mixture.
    pub fn mean_state<A: Arithmetic>(&self, ops: &A) -> (s: State<T, C>)
        requires
            ops.lawful(),
            self.well_formed(),
        ensures
            s == (State {
                desig: Desig::Empty,
                epoch: self.components@[0].state.epoch,
                pos: mean_pos(
                    ops,
                    self.weights@,
                    models(self.components@),
                    self.components@.len(),
                ),
                vel: mean_vel(
                    ops,
                    self.weights@,
                    models(self.components@),
                    self.components@.len(),
                ),
                center: self.components@[0].state.center,
            }),
    {
        let zero = F64::from_bits(constants::ZERO);
        let mut pos = Vector::of(zero, zero, zero);
        let mut vel = Vector::of(zero, zero, zero);
        let mut i: usize = 0;
        let ghost all = models(self.components@);
        while i < self.components.len()
            invariant
                ops.lawful(),
                self.well_formed(),
                all == models(self.components@),
                i <= self.components@.len(),
                pos == mean_pos(ops, self.weights@, all, i as nat),
                vel == mean_vel(ops, self.weights@, all, i as nat),
            decreases self.components@.len() - i,
        {
            let w = self.weights[i];
            pos = pos.plus(ops, self.components[i].state.pos.scale(ops, w));
            vel = vel.plus(ops, self.components[i].state.vel.scale(ops, w));
            i = i + 1;
        }
        State {
            desig: Desig::Empty,
            epoch: self.components[0].state.epoch,
            pos,
            vel,
            center: self.components[0].state.center,
        }
    }

    /// The mean parameters of the mixture.
    pub fn mean_params<A: Arithmetic>(&self, ops: &A) -> (r: Vec<F64>)
        requires
            ops.lawful(),
            self.well_formed(),
        ensures
            r@ == mean_of_params(
                ops,
                self.weights@,
                models(self.components@),
                self.components@[0].free_params@.len(),
                self.components@.len(),
            ),
            r@.len() == self.components@[0].free_params@.len(),
    {
        let np = self.components[0].free_params.len();
        let mut r = numbers::zero_vector(np);
        let mut i: usize = 0;
        let ghost all = models(self.components@);
        while i < self.components.len()
            invariant
                ops.lawful(),
                self.well_formed(),
                all == models(self.components@),
                np == all[0].params.len(),
                i <= self.components@.len(),
                r@.len() == np,
                r@ == mean_of_params(ops, self.weights@, all, np as nat, i as nat),
            decreases self.components@.len() - i,
        {
            proof {
                self.lemma_sizes(i as int);
            }
            let scaled = numbers::scale(ops, &self.components[i].free_params, self.weights[i]);
            r = numbers::add(ops, &r, &scaled);
            i = i + 1;
        }
        r
    }

    /// All components have as many parameters as the first one.
    proof fn lemma_sizes(&self, i: int)
        requires
            self.well_formed(),
            0 <= i < self.components@.len(),
        ensures
            self.components@[i].free_params@.len() == self.components@[0].free_params@.len(),
            self.components@[i]@.well_formed(),
    {
        let all = models(self.components@);
        assert(self.components@[i]@.well_formed());
        assert(self.components@[0]@.well_formed());
        lemma_strays(all, 1);
        if i > 0 {
            assert(stray(all[0], all[i], i) is None);
        }
    }

    /// Position, velocity and parameters of a component.
    fn as_vector(&self, i: usize) -> (r: Vec<F64>)
        requires
            i < self.components@.len(),
        ensures
            r@ == component_vector(self.components@[i as int]@),
    {
        let c = &self.components[i];
        let p = c.state.pos;
        let v = c.state.vel;
        let mut r = vec![p.x, p.y, p.z, v.x, v.y, v.z];
        assert(r@ =~= uncertain::six(p, v));
        let mut params = numbers::copied(&c.free_params);
        r.append(&mut params);
        r
    }

    /// The covariance of the mixture.
    pub fn covariance<A: Arithmetic>(&self, ops: &A) -> (r: Table)
        requires
            ops.lawful(),
            self.well_formed(),
        ensures
            r@ == spread_around(
                ops,
                self.weights@,
                models(self.components@),
                mean_vector(ops, self.weights@, models(self.components@)),
                self.components@.len(),
            ),
    {
        let ghost all = models(self.components@);
        let m = self.mean_state(ops);
        let mut mean = vec![m.pos.x, m.pos.y, m.pos.z, m.vel.x, m.vel.y, m.vel.z];
        assert(mean@ =~= uncertain::six(m.pos, m.vel));
        let mut params = self.mean_params(ops);
        mean.append(&mut params);
        let n = mean.len();
        let mut sum = Table::zeros(n, n);
        let mut i: usize = 0;
        while i < self.components.len()
            invariant
                ops.lawful(),
                self.well_formed(),
                all == models(self.components@),
                mean@.len() == n,
                n == 6 + all[0].params.len(),
                i <= self.components@.len(),
                sum@ == spread_around(ops, self.weights@, all, mean@, i as nat),
                sum@.well_formed(),
                sum@.nrows == n,
                sum@.ncols == n,
            decreases self.components@.len() - i,
        {
            proof {
                self.lemma_sizes(i as int);
            }
            let w = self.weights[i];
            let within = self.components[i].cov_matrix.scale(ops, w);
            let dev = numbers::subtract(ops, &self.as_vector(i), &mean);
            let between = Table::outer_product(ops, &dev, &dev).scale(ops, w);
            sum = sum.plus(ops, &within).plus(ops, &between);
            i = i + 1;
        }
        sum
    }

    /// The mixture with component `idx` split along its largest uncertainty.
    pub fn split_component<A: Algebra>(&self, ops: &A, idx: usize) -> (r: KeteResult<Self>)
        requires
            ops.lawful(),
            self.well_formed(),
            self.weights@.len() < usize::MAX - 3,
        ensures
            ({
                let all = models(self.components@);
                let d = dominant(ops, all[idx as int].cov);
                let parts = split_along(ops, all[idx as int], d->Ok_0);
                if idx >= self.components@.len() {
                    r == Err::<Self, Error>(
                        Error::ValueError(
                            ValueFault::NoSuchComponent {
                                index: idx,
                                count: self.components@.len() as usize,
                            },
                        ),
                    )
                } else if let Err(e) = d {
                    r == Err::<Self, Error>(e)
                } else if let Err(e) = parts {
                    r == Err::<Self, Error>(e)
                } else {
                    let weights = split_weights(ops, self.weights@, idx as int, parts->Ok_0);
                    let components = split_components(all, idx as int, parts->Ok_0);
                    match mixture_fault(ops, weights, components) {
                        Some(f) => r == Err::<Self, Error>(Error::ValueError(f)),
                        None => r is Ok && r->Ok_0.weights@ == weights && models(
                            r->Ok_0.components@,
                        ) == components,
                    }
                }
            }),
            r matches Ok(d) ==> d.well_formed(),
    {
        let ghost all = models(self.components@);
        if idx >= self.components.len() {
            return Err(
                Error::ValueError(
                    ValueFault::NoSuchComponent { index: idx, count: self.components.len() },
                ),
            );
        }
        assert(self.components@[idx as int]@.well_formed());
        let d = match dominant_eigenvector(ops, &self.components[idx].cov_matrix) {
            Err(e) => {
                return Err(e);
            },
            Ok(d) => d,
        };
        let parts = match split_axial_k3_along(ops, &self.components[idx], &d) {
            Err(e) => {
                return Err(e);
            },
            Ok(parts) => parts,
        };
        let mut weights: Vec<F64> = Vec::new();
        let mut components: Vec<UncertainState<T, C>> = Vec::new();
        let mut i: usize = 0;
        assert(models(components@) =~= Seq::empty());
        while i < self.components.len()
            invariant
                self.well_formed(),
                all == models(self.components@),
                idx < self.components@.len(),
                i <= self.components@.len(),
                weights@ == (if i <= idx {
                    self.weights@.take(i as int)
                } else {
                    self.weights@.take(idx as int) + self.weights@.subrange(idx + 1, i as int)
                }),
                models(components@) == (if i <= idx {
                    all.take(i as int)
                } else {
                    all.take(idx as int) + all.subrange(idx + 1, i as int)
                }),
                forall|k: int|
                    0 <= k < components@.len() ==> (#[trigger] components@[k])@.well_formed(),
            decreases self.components@.len() - i,
        {
            if i != idx {
                assert(self.components@[i as int]@.well_formed());
                weights.push(self.weights[i]);
                let ghost before = components@;
                let copy = self.components[i].clone();
                components.push(copy);
                assert(models(components@) =~= models(before).push(all[i as int]));
            }
            i = i + 1;
            assert(weights@ =~= (if i <= idx {
                self.weights@.take(i as int)
            } else {
                self.weights@.take(idx as int) + self.weights@.subrange(idx + 1, i as int)
            }));
            assert(models(components@) =~= (if i <= idx {
                all.take(i as int)
            } else {
                all.take(idx as int) + all.subrange(idx + 1, i as int)
            }));
        }
        assert(weights@ =~= self.weights@.remove(idx as int));
        assert(models(components@) =~= all.remove(idx as int));
        let ghost cut = part_models(parts@);
        let ghost others = weights@;
        let ghost rest = models(components@);
        let w = self.weights[idx];
        let mut k: usize = 0;
        let mut parts = parts;
        assert(weights@ =~= others + Seq::new(
            0,
            |k: int| arithmetic::product(ops, w, cut[k].weight),
        ));
        assert(models(components@) =~= rest + Seq::new(0, |k: int| cut[k].component));
        while k < 3
            invariant
                ops.lawful(),
                k <= 3,
                cut.len() == 3,
                part_models(parts@) == cut.skip(k as int),
                weights@ == others + Seq::new(
                    k as nat,
                    |k: int| arithmetic::product(ops, w, cut[k].weight),
                ),
                models(components@) == rest + Seq::new(k as nat, |k: int| cut[k].component),
                forall|i: int|
                    0 <= i < parts@.len() ==> (#[trigger] parts@[i]).component@.well_formed(),
                forall|i: int|
                    0 <= i < components@.len() ==> (#[trigger] components@[i])@.well_formed(),
            decreases 3 - k,
        {
            assert(part_models(parts@).len() == 3 - k);
            let ghost whole = parts@;
            let part = parts.remove(0);
            assert(cut[k as int] == cut.skip(k as int)[0]);
            assert forall|i: int| 0 <= i < parts@.len() implies #[trigger] parts@[i]@ == cut[k + 1
                + i] by {
                assert(parts@[i] == whole[i + 1]);
                assert(part_models(whole)[i + 1] == cut.skip(k as int)[i + 1]);
            }
            assert(part@ == cut[k as int]);
            weights.push(arithmetic::times(ops, w, part.weight));
            let ghost before = components@;
            components.push(part.component);
            assert(models(components@) =~= models(before).push(cut[k as int].component));
            k = k + 1;
            assert(part_models(parts@) =~= cut.skip(k as int));
            assert(weights@ =~= others + Seq::new(
                k as nat,
                |k: int| arithmetic::product(ops, w, cut[k].weight),
            ));
            assert(models(components@) =~= rest + Seq::new(
                k as nat,
                |k: int| cut[k].component,
            ));
        }
        assert(weights@ =~= split_weights(ops, self.weights@, idx as int, cut));
        assert(models(components@) =~= split_components(all, idx as int, cut));
        Self::new(ops, weights, components)
    }
}

} // verus!
