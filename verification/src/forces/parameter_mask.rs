//! Hold some parameters of a force at fixed values.
use crate::arithmetic::Arithmetic;
use crate::errors::{Error, KeteResult, ValueFault};
use crate::float::F64;
use crate::forces::traits;
use crate::forces::traits::{AnalyticForce, Evaluate, Jacobians, ParameterizedForce};
use crate::frames::Vector;
use crate::time::Time;
use vstd::prelude::*;

verus! {

/// A force of which some parameters are held at fixed values.
#[derive(Clone)]
pub struct ParameterMask<F: ParameterizedForce> {
    /// The force.
    pub inner: F,
    /// For each parameter of the force the value it is held at, or `None` where it stays free.
    pub mask: Vec<Option<F64>>,
}

/// How many parameters a mask leaves free.
pub open spec fn free_count(mask: Seq<Option<F64>>) -> nat
    decreases mask.len(),
{
    if mask.len() == 0 {
        0
    } else {
        free_count(mask.drop_last()) + (if mask.last() is None {
            1nat
        } else {
            0nat
        })
    }
}

/// The entries which belong to the parameters that a mask leaves free.
pub open spec fn exposed<T>(mask: Seq<Option<F64>>, entries: Seq<T>) -> Seq<T>
    decreases mask.len(),
{
    if mask.len() == 0 {
        Seq::empty()
    } else if mask.last() is None {
        exposed(mask.drop_last(), entries.take(mask.len() - 1)).push(entries[mask.len() - 1])
    } else {
        exposed(mask.drop_last(), entries.take(mask.len() - 1))
    }
}

/// All parameters of a force, from the values held by a mask and those of the free ones.
pub open spec fn merged(mask: Seq<Option<F64>>, free: Seq<F64>) -> Seq<F64>
    decreases mask.len(),
{
    if mask.len() == 0 {
        Seq::empty()
    } else {
        match mask.last() {
            Some(v) => merged(mask.drop_last(), free).push(v),
            None => merged(mask.drop_last(), free.drop_last()).push(free.last()),
        }
    }
}

/// All parameters, or why the number of free ones is wrong.
pub open spec fn try_merged(mask: Seq<Option<F64>>, free: Seq<F64>) -> KeteResult<Seq<F64>> {
    if free.len() != free_count(mask) {
        Err(
            Error::ValueError(
                ValueFault::ParamCount {
                    needed: free_count(mask) as usize,
                    given: free.len() as usize,
                },
            ),
        )
    } else {
        Ok(merged(mask, free))
    }
}

/// A mask leaves at most as many parameters free as it has entries.
pub proof fn lemma_free_count(mask: Seq<Option<F64>>)
    ensures
        free_count(mask) <= mask.len(),
    decreases mask.len(),
{
    if mask.len() > 0 {
        lemma_free_count(mask.drop_last());
    }
}

/// The exposed entries are as many as the free parameters.
pub proof fn lemma_exposed_len<T>(mask: Seq<Option<F64>>, entries: Seq<T>)
    ensures
        exposed(mask, entries).len() == free_count(mask),
    decreases mask.len(),
{
    if mask.len() > 0 {
        lemma_exposed_len(mask.drop_last(), entries.take(mask.len() - 1));
    }
}

/// What a mask merges keeps both sources: each held value stands at its place, and the free
/// values are the entries that the mask exposes.
pub proof fn law_merge_keeps_both(mask: Seq<Option<F64>>, free: Seq<F64>)
    requires
        free.len() == free_count(mask),
    ensures
        merged(mask, free).len() == mask.len(),
        exposed(mask, merged(mask, free)) == free,
        forall|i: int|
            0 <= i < mask.len() ==> (#[trigger] mask[i] matches Some(v) ==> merged(mask,
                free)[i] == v),
    decreases mask.len(),
{
    if mask.len() > 0 {
        let rest = match mask.last() {
            Some(v) => free,
            None => free.drop_last(),
        };
        let shorter = mask.drop_last();
        law_merge_keeps_both(shorter, rest);
        assert(merged(mask, free).take(mask.len() - 1) =~= merged(shorter, rest));
        assert forall|i: int| 0 <= i < mask.len() implies (#[trigger] mask[i] matches Some(v)
            ==> merged(mask, free)[i] == v) by {
            if i < mask.len() - 1 {
                assert(shorter[i] == mask[i]);
            }
        }
        assert(exposed(mask, merged(mask, free)) =~= free);
    } else {
        assert(free =~= Seq::empty());
    }
}

/// A mask which holds nothing gives the parameters on as they are.
pub proof fn law_open_mask(mask: Seq<Option<F64>>, free: Seq<F64>)
    requires
        free.len() == mask.len(),
        forall|i: int| 0 <= i < mask.len() ==> mask[i] is None,
    ensures
        free_count(mask) == mask.len(),
        merged(mask, free) == free,
    decreases mask.len(),
{
    if mask.len() > 0 {
        assert forall|i: int| 0 <= i < mask.len() - 1 implies mask.drop_last()[i] is None by {
            assert(mask.drop_last()[i] == mask[i]);
        }
        law_open_mask(mask.drop_last(), free.drop_last());
        assert(merged(mask, free) =~= free);
    } else {
        assert(merged(mask, free) =~= free);
    }
}

/// One more entry of a mask exposes one more entry at most.
proof fn lemma_exposed_step<T>(mask: Seq<Option<F64>>, entries: Seq<T>, i: int)
    requires
        0 <= i < mask.len(),
        mask.len() <= entries.len(),
    ensures
        mask.take(i + 1).drop_last() == mask.take(i),
        free_count(mask.take(i + 1)) == free_count(mask.take(i)) + (if mask[i] is None {
            1nat
        } else {
            0nat
        }),
        exposed(mask.take(i + 1), entries.take(i + 1)) == (if mask[i] is None {
            exposed(mask.take(i), entries.take(i)).push(entries[i])
        } else {
            exposed(mask.take(i), entries.take(i))
        }),
{
    assert(mask.take(i + 1).drop_last() =~= mask.take(i));
    assert(entries.take(i + 1).take(i) =~= entries.take(i));
}

/// How many parameters a mask leaves free.
fn count_free(mask: &Vec<Option<F64>>) -> (n: usize)
    ensures
        n == free_count(mask@),
{
    let mut n: usize = 0;
    let mut i: usize = 0;
    while i < mask.len()
        invariant
            i <= mask@.len(),
            n == free_count(mask@.take(i as int)),
            n <= i,
        decreases mask@.len() - i,
    {
        proof {
            lemma_exposed_step(mask@, mask@, i as int);
        }
        if mask[i].is_none() {
            n = n + 1;
        }
        i = i + 1;
    }
    assert(mask@.take(i as int) =~= mask@);
    n
}

/// The entries which belong to the parameters that a mask leaves free.
fn expose<T: Copy>(mask: &Vec<Option<F64>>, entries: &Vec<T>) -> (out: Vec<T>)
    requires
        mask@.len() == entries@.len(),
    ensures
        out@ == exposed(mask@, entries@),
        out@.len() == free_count(mask@),
{
    let mut out: Vec<T> = Vec::new();
    let mut i: usize = 0;
    while i < mask.len()
        invariant
            i <= mask@.len(),
            mask@.len() == entries@.len(),
            out@ == exposed(mask@.take(i as int), entries@.take(i as int)),
        decreases mask@.len() - i,
    {
        proof {
            lemma_exposed_step(mask@, entries@, i as int);
        }
        if mask[i].is_none() {
            out.push(entries[i]);
        }
        i = i + 1;
    }
    proof {
        assert(mask@.take(i as int) =~= mask@);
        assert(entries@.take(i as int) =~= entries@);
        lemma_exposed_len(mask@, entries@);
    }
    out
}

impl<F: ParameterizedForce> ParameterMask<F> {
    /// Hold parameters of a force, if the mask has an entry for each of them.
    pub fn new(inner: F, mask: Vec<Option<F64>>) -> (r: KeteResult<Self>)
        requires
            inner.well_formed(),
        ensures
            r == (if mask@.len() != inner.n_params() {
                Err(
                    Error::ValueError(
                        ValueFault::MaskLength {
                            needed: inner.n_params() as usize,
                            given: mask@.len() as usize,
                        },
                    ),
                )
            } else {
                Ok(ParameterMask { inner, mask })
            }),
    {
        let n = inner.n_free_params();
        if mask.len() != n {
            return Err(
                Error::ValueError(ValueFault::MaskLength { needed: n, given: mask.len() }),
            );
        }
        Ok(ParameterMask { inner, mask })
    }

    /// All parameters of the force, from the held values and those of the free ones.
    pub fn merge(&self, free_params: &[F64]) -> (r: KeteResult<Vec<F64>>)
        ensures
            match try_merged(self.mask@, free_params@) {
                Ok(full) => r is Ok && r->Ok_0@ == full && full.len() == self.mask@.len(),
                Err(e) => r == Err::<Vec<F64>, Error>(e),
            },
    {
        let expected = count_free(&self.mask);
        if free_params.len() != expected {
            return Err(
                Error::ValueError(ValueFault::ParamCount { needed: expected,
                    given: free_params.len() }),
            );
        }
        let mut full: Vec<F64> = Vec::new();
        let mut idx: usize = 0;
        let mut i: usize = 0;
        while i < self.mask.len()
            invariant
                i <= self.mask@.len(),
                free_params@.len() == free_count(self.mask@),
                idx == free_count(self.mask@.take(i as int)),
                full@.len() == i,
                full@ == merged(self.mask@.take(i as int), free_params@.take(idx as int)),
                idx <= free_params@.len(),
            decreases self.mask@.len() - i,
        {
            proof {
                lemma_exposed_step(self.mask@, self.mask@, i as int);
                lemma_free_count_take(self.mask@, i as int + 1);
            }
            match self.mask[i] {
                Some(v) => {
                    full.push(v);
                },
                None => {
                    full.push(free_params[idx]);
                    assert(free_params@.take(idx + 1).drop_last() =~= free_params@.take(
                        idx as int,
                    ));
                    idx = idx + 1;
                },
            }
            i = i + 1;
        }
        assert(self.mask@.take(i as int) =~= self.mask@);
        assert(free_params@.take(idx as int) =~= free_params@);
        Ok(full)
    }
}

/// The first entries of a mask leave no more parameters free than all of them.
proof fn lemma_free_count_take(mask: Seq<Option<F64>>, n: int)
    requires
        0 <= n <= mask.len(),
    ensures
        free_count(mask.take(n)) <= free_count(mask),
    decreases mask.len() - n,
{
    if n < mask.len() {
        lemma_exposed_step(mask, mask, n);
        lemma_free_count_take(mask, n + 1);
    } else {
        assert(mask.take(n) =~= mask);
    }
}

impl<F: ParameterizedForce> ParameterizedForce for ParameterMask<F> {
    type Frame = F::Frame;

    type Center = F::Center;

    open spec fn well_formed(&self) -> bool {
        &&& self.inner.well_formed()
        &&& self.mask@.len() == self.inner.n_params()
        &&& self.inner.accepts(self.inner.n_params())
    }

    open spec fn n_params(&self) -> nat {
        free_count(self.mask@)
    }

    open spec fn names(&self) -> Seq<Seq<char>> {
        exposed(self.mask@, self.inner.names())
    }

    open spec fn bounds(&self) -> Seq<Option<F64>> {
        traits::unbounded(free_count(self.mask@))
    }

    open spec fn accepts(&self, n: nat) -> bool {
        true
    }

    fn n_free_params(&self) -> usize {
        count_free(&self.mask)
    }

    fn free_param_names(&self) -> Vec<&'static str> {
        let names = self.inner.free_param_names();
        let out = expose(&self.mask, &names);
        proof {
            lemma_exposed_texts(self.mask@, names@);
        }
        out
    }

    fn lower_bounds(&self) -> Vec<Option<F64>> {
        traits::no_bounds(count_free(&self.mask))
    }
}

/// The characters of the exposed names are the exposed characters.
proof fn lemma_exposed_texts(mask: Seq<Option<F64>>, names: Seq<&'static str>)
    requires
        mask.len() == names.len(),
    ensures
        traits::texts(exposed(mask, names)) == exposed(mask, traits::texts(names)),
    decreases mask.len(),
{
    if mask.len() > 0 {
        let n = mask.len() - 1;
        lemma_exposed_texts(mask.drop_last(), names.take(n));
        assert(traits::texts(names).take(n) =~= traits::texts(names.take(n)));
    }
    assert(traits::texts(exposed(mask, names)) =~= exposed(mask, traits::texts(names)));
}

impl<A: Arithmetic, F: Evaluate<A>> Evaluate<A> for ParameterMask<F> {
    open spec fn accel_value(
        &self,
        ops: &A,
        time: Time,
        pos: Vector<F::Frame>,
        vel: Vector<F::Frame>,
        free_params: Seq<F64>,
    ) -> KeteResult<Vector<F::Frame>> {
        match try_merged(self.mask@, free_params) {
            Err(e) => Err(e),
            Ok(full) => self.inner.accel_value(ops, time, pos, vel, full),
        }
    }

    fn accel(
        &self,
        ops: &A,
        time: Time,
        pos: Vector<F::Frame>,
        vel: Vector<F::Frame>,
        free_params: &[F64],
    ) -> KeteResult<Vector<F::Frame>> {
        match self.merge(free_params) {
            Err(e) => Err(e),
            Ok(full) => self.inner.accel(ops, time, pos, vel, full.as_slice()),
        }
    }
}

impl<A: Arithmetic, F: AnalyticForce<A>> AnalyticForce<A> for ParameterMask<F> {
    open spec fn jacobians_value(
        &self,
        ops: &A,
        time: Time,
        pos: Vector<F::Frame>,
        vel: Vector<F::Frame>,
        free_params: Seq<F64>,
    ) -> KeteResult<Jacobians<F::Frame>> {
        match try_merged(self.mask@, free_params) {
            Err(e) => Err(e),
            Ok(full) => self.inner.jacobians_value(ops, time, pos, vel, full),
        }
    }

    open spec fn parameter_jacobian_value(
        &self,
        ops: &A,
        time: Time,
        pos: Vector<F::Frame>,
        vel: Vector<F::Frame>,
        free_params: Seq<F64>,
    ) -> KeteResult<Seq<Vector<F::Frame>>> {
        match try_merged(self.mask@, free_params) {
            Err(e) => Err(e),
            Ok(full) => match self.inner.parameter_jacobian_value(ops, time, pos, vel, full) {
                Err(e) => Err(e),
                Ok(all) => Ok(exposed(self.mask@, all)),
            },
        }
    }

    proof fn lemma_columns(
        &self,
        ops: &A,
        time: Time,
        pos: Vector<F::Frame>,
        vel: Vector<F::Frame>,
        free_params: Seq<F64>,
    ) {
        if let Ok(full) = try_merged(self.mask@, free_params) {
            if let Ok(all) = self.inner.parameter_jacobian_value(ops, time, pos, vel, full) {
                lemma_exposed_len(self.mask@, all);
            }
        }
    }

    fn jacobians(
        &self,
        ops: &A,
        time: Time,
        pos: Vector<F::Frame>,
        vel: Vector<F::Frame>,
        free_params: &[F64],
    ) -> KeteResult<Jacobians<F::Frame>> {
        match self.merge(free_params) {
            Err(e) => Err(e),
            Ok(full) => self.inner.jacobians(ops, time, pos, vel, full.as_slice()),
        }
    }

    fn parameter_jacobian(
        &self,
        ops: &A,
        time: Time,
        pos: Vector<F::Frame>,
        vel: Vector<F::Frame>,
        free_params: &[F64],
    ) -> KeteResult<Vec<Vector<F::Frame>>> {
        match self.merge(free_params) {
            Err(e) => Err(e),
            Ok(full) => {
                proof {
                    self.inner.lemma_columns(ops, time, pos, vel, full@);
                }
                match self.inner.parameter_jacobian(ops, time, pos, vel, full.as_slice()) {
                    Err(e) => Err(e),
                    Ok(all) => Ok(expose(&self.mask, &all)),
                }
            },
        }
    }
}

/// A masked force is the force with the held values put in at their places. Its derivatives by
/// the free parameters are those of the force, without those by the held ones.
pub proof fn law_mask_is_force<A: Arithmetic, F: AnalyticForce<A>>(
    masked: ParameterMask<F>,
    ops: &A,
    time: Time,
    pos: Vector<F::Frame>,
    vel: Vector<F::Frame>,
    free: Seq<F64>,
)
    requires
        free.len() == free_count(masked.mask@),
    ensures
        ({
            let full = merged(masked.mask@, free);
            &&& masked.accel_value(ops, time, pos, vel, free) == masked.inner.accel_value(
                ops,
                time,
                pos,
                vel,
                full,
            )
            &&& masked.jacobians_value(ops, time, pos, vel, free) == masked.inner.jacobians_value(
                ops,
                time,
                pos,
                vel,
                full,
            )
            &&& masked.inner.parameter_jacobian_value(ops, time, pos, vel, full) matches Ok(all)
                ==> masked.parameter_jacobian_value(ops, time, pos, vel, free) == Ok::<
                Seq<Vector<F::Frame>>,
                Error,
            >(exposed(masked.mask@, all))
        }),
{
}

} // verus!
