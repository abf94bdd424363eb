//! What is integrated.
use crate::errors::KeteResult;
use crate::float::F64;
use crate::time::Time;
use vstd::prelude::*;

verus! {

/// An outcome with the numbers of a vector in place of the vector.
pub open spec fn numbers(r: KeteResult<Vec<F64>>) -> KeteResult<Seq<F64>> {
    match r {
        Ok(v) => Ok(v@),
        Err(e) => Err(e),
    }
}

/// The second derivative of a vector and the note which is left, as a function of the time, the
/// vector, its first derivative, the note of the evaluation before, and whether the state is
/// going to be kept.
pub type Rule<M> = spec_fn(Time, Seq<F64>, Seq<F64>, M, bool) -> (KeteResult<Seq<F64>>, M);

/// The rule of a differential equation.
pub open spec fn rule<M, E: SecondOrderOde<M>>(ode: &E) -> Rule<M> {
    |t: Time, pos: Seq<F64>, vel: Seq<F64>, note: M, exact: bool|
        ode.value(t, pos, vel, note, exact)
}

/// The second derivative of a vector, as a function of the time, the vector and its
/// first derivative. Each evaluation may leave a note for the next one.
pub trait SecondOrderOde<M> {
    /// Can this be evaluated everywhere, with one result, of the right length.
    spec fn lawful(&self) -> bool;

    /// The second derivative and the note which is left. `exact` tells an evaluation at
    /// a state which is going to be kept from one at a trial state.
    spec fn value(&self, t: Time, pos: Seq<F64>, vel: Seq<F64>, note: M, exact: bool) -> (
        KeteResult<Seq<F64>>,
        M,
    );

    /// The second derivative has as many components as the vector.
    proof fn lemma_length(&self, t: Time, pos: Seq<F64>, vel: Seq<F64>, note: M, exact: bool)
        requires
            self.lawful(),
            pos.len() == vel.len(),
        ensures
            self.value(t, pos, vel, note, exact).0 matches Ok(a) ==> a.len() == pos.len(),
    ;

    /// Evaluate the second derivative.
    fn eval(&self, t: Time, pos: &Vec<F64>, vel: &Vec<F64>, note: M, exact: bool) -> (r: (
        KeteResult<Vec<F64>>,
        M,
    ))
        requires
            self.lawful(),
            pos@.len() == vel@.len(),
        ensures
            (numbers(r.0), r.1) == self.value(t, pos@, vel@, note, exact),
            r.0 matches Ok(a) ==> a@.len() == pos@.len(),
    ;
}

/// The differential equation of a function.
pub struct Function<F> {
    /// The function.
    pub f: F,
}

impl<M, F: Fn(Time, &Vec<F64>, &Vec<F64>, M, bool) -> (KeteResult<Vec<F64>>, M)> SecondOrderOde<
    M,
> for Function<F> {
    open spec fn lawful(&self) -> bool {
        &&& forall|t: Time, p: &Vec<F64>, v: &Vec<F64>, note: M, exact: bool|
            p@.len() == v@.len() ==> #[trigger] call_requires(self.f, (t, p, v, note, exact))
        &&& forall|
            t: Time,
            p: &Vec<F64>,
            v: &Vec<F64>,
            q: &Vec<F64>,
            w: &Vec<F64>,
            note: M,
            exact: bool,
            r: (KeteResult<Vec<F64>>, M),
            s: (KeteResult<Vec<F64>>, M),
        |
            #![trigger call_ensures(self.f, (t, p, v, note, exact), r), call_ensures(
                self.f,
                (t, q, w, note, exact),
                s,
            )]
            p@ == q@ && v@ == w@ && call_ensures(self.f, (t, p, v, note, exact), r) && call_ensures(
                self.f,
                (t, q, w, note, exact),
                s,
            ) ==> numbers(r.0) == numbers(s.0) && r.1 == s.1
        &&& forall|
            t: Time,
            p: &Vec<F64>,
            v: &Vec<F64>,
            note: M,
            exact: bool,
            r: (KeteResult<Vec<F64>>, M),
        | #[trigger]
            call_ensures(self.f, (t, p, v, note, exact), r) ==> (r.0 matches Ok(a) ==> a@.len()
                == p@.len())
    }

    open spec fn value(&self, t: Time, pos: Seq<F64>, vel: Seq<F64>, note: M, exact: bool) -> (
        KeteResult<Seq<F64>>,
        M,
    ) {
        let (p, v, r) = choose|p: &Vec<F64>, v: &Vec<F64>, r: (KeteResult<Vec<F64>>, M)|
            p@ == pos && v@ == vel && #[trigger] call_ensures(self.f, (t, p, v, note, exact), r);
        if p@ == pos && v@ == vel && call_ensures(self.f, (t, p, v, note, exact), r) {
            (numbers(r.0), r.1)
        } else {
            (Ok(pos), note)
        }
    }

    proof fn lemma_length(&self, t: Time, pos: Seq<F64>, vel: Seq<F64>, note: M, exact: bool) {
    }

    fn eval(&self, t: Time, pos: &Vec<F64>, vel: &Vec<F64>, note: M, exact: bool) -> (
        KeteResult<Vec<F64>>,
        M,
    ) {
        (self.f)(t, pos, vel, note, exact)
    }
}

} // verus!
