//! Which objects fields of view see: in which order the fields are looked at, and when the
//! objects are propagated on the way.
use crate::arithmetic;
use crate::arithmetic::Arithmetic;
use crate::constants;
use crate::float::F64;
use crate::fov::FOV;
use crate::frames::Equatorial;
use crate::state::State;
use vstd::prelude::*;

verus! {

/// The bits of fifty: how much longer the large steps are.
pub const LARGE_STEP: u64 = 0x4049_0000_0000_0000;

/// The bits of twenty-five: how far from the last large step the small ones start again.
pub const RESTART: u64 = 0x4039_0000_0000_0000;

/// When a field was observed.
pub open spec fn when(f: FOV) -> F64 {
    f.seen_by().epoch.jd
}

/// Is one field before another. NaN is behind every number, or before it if it has a sign.
pub open spec fn before(a: FOV, b: FOV) -> bool {
    when(a).total_rank() < when(b).total_rank()
}

/// Are fields in the order of their times.
pub open spec fn ascending(s: Seq<FOV>) -> bool {
    forall|i: int, j: int|
        0 <= i < j < s.len() ==> when(#[trigger] s[i]).total_rank() <= when(
            #[trigger] s[j],
        ).total_rank()
}

/// The fields whose time has the given rank, in their order.
pub open spec fn of_rank(s: Seq<FOV>, rank: int) -> Seq<FOV>
    decreases s.len(),
{
    if s.len() == 0 {
        Seq::empty()
    } else {
        let earlier = of_rank(s.drop_last(), rank);
        if when(s.last()).total_rank() == rank {
            earlier.push(s.last())
        } else {
            earlier
        }
    }
}

/// Two ordered rows of fields as one. Where times are the same, those of the first row come
/// first.
pub open spec fn merged(a: Seq<FOV>, b: Seq<FOV>) -> Seq<FOV>
    decreases a.len() + b.len(),
{
    if a.len() == 0 {
        b
    } else if b.len() == 0 {
        a
    } else if before(b.last(), a.last()) {
        merged(a.drop_last(), b).push(a.last())
    } else {
        merged(a, b.drop_last()).push(b.last())
    }
}

/// Fields in the order of their times. Fields of the same time stay in their order.
pub open spec fn sorted(s: Seq<FOV>) -> Seq<FOV>
    decreases s.len(),
{
    if s.len() <= 1 {
        s
    } else {
        let half = s.len() / 2;
        merged(sorted(s.take(half as int)), sorted(s.skip(half as int)))
    }
}

/// No field of an ordered row has a rank above that of the last.
proof fn lemma_rank_above(s: Seq<FOV>, rank: int)
    requires
        ascending(s),
        s.len() > 0 ==> when(s.last()).total_rank() < rank,
    ensures
        of_rank(s, rank) == Seq::<FOV>::empty(),
    decreases s.len(),
{
    if s.len() > 0 {
        let t = s.drop_last();
        assert forall|i: int, j: int| 0 <= i < j < t.len() implies when(
            #[trigger] t[i],
        ).total_rank() <= when(#[trigger] t[j]).total_rank() by {
            assert(t[i] == s[i] && t[j] == s[j]);
        }
        if t.len() > 0 {
            assert(t.last() == s[s.len() - 2] && s.last() == s[s.len() - 1]);
        }
        lemma_rank_above(t, rank);
    }
}

/// An ordered row without its last field is ordered.
proof fn lemma_ascending_front(s: Seq<FOV>)
    requires
        ascending(s),
        s.len() > 0,
    ensures
        ascending(s.drop_last()),
{
    let t = s.drop_last();
    assert forall|i: int, j: int| 0 <= i < j < t.len() implies when(#[trigger] t[i]).total_rank()
        <= when(#[trigger] t[j]).total_rank() by {
        assert(t[i] == s[i] && t[j] == s[j]);
    }
}

/// An ordered row stays ordered with a field behind its last one.
proof fn lemma_ascending_push(s: Seq<FOV>, f: FOV)
    requires
        ascending(s),
        s.len() > 0 ==> when(s.last()).total_rank() <= when(f).total_rank(),
    ensures
        ascending(s.push(f)),
{
    let t = s.push(f);
    assert forall|i: int, j: int| 0 <= i < j < t.len() implies when(#[trigger] t[i]).total_rank()
        <= when(#[trigger] t[j]).total_rank() by {
        if j < s.len() {
            assert(t[i] == s[i] && t[j] == s[j]);
        } else if i < s.len() - 1 {
            assert(t[i] == s[i] && s.last() == s[s.len() - 1]);
            assert(when(s[i]).total_rank() <= when(s[s.len() - 1]).total_rank());
        } else {
            assert(t[i] == s.last());
        }
    }
}

/// The last field of two rows put together is the last of one of them.
proof fn lemma_merged_last(a: Seq<FOV>, b: Seq<FOV>)
    ensures
        merged(a, b).len() == a.len() + b.len(),
        a.len() > 0 && b.len() > 0 ==> merged(a, b).last() == (if before(b.last(), a.last()) {
            a.last()
        } else {
            b.last()
        }),
    decreases a.len() + b.len(),
{
    if a.len() > 0 && b.len() > 0 {
        if before(b.last(), a.last()) {
            lemma_merged_last(a.drop_last(), b);
        } else {
            lemma_merged_last(a, b.drop_last());
        }
    }
}

/// Two ordered rows put together are one ordered row, which holds what both hold.
proof fn lemma_merged(a: Seq<FOV>, b: Seq<FOV>)
    requires
        ascending(a),
        ascending(b),
    ensures
        ascending(merged(a, b)),
        forall|rank: int|
            #[trigger] of_rank(merged(a, b), rank) == of_rank(a, rank) + of_rank(b, rank),
    decreases a.len() + b.len(),
{
    if a.len() == 0 {
        assert forall|rank: int| #[trigger] of_rank(merged(a, b), rank) == of_rank(a, rank)
            + of_rank(b, rank) by {
            assert(of_rank(a, rank) + of_rank(b, rank) =~= of_rank(b, rank));
        }
    } else if b.len() == 0 {
        assert forall|rank: int| #[trigger] of_rank(merged(a, b), rank) == of_rank(a, rank)
            + of_rank(b, rank) by {
            assert(of_rank(a, rank) + of_rank(b, rank) =~= of_rank(a, rank));
        }
    } else if before(b.last(), a.last()) {
        let front = a.drop_last();
        lemma_ascending_front(a);
        lemma_merged(front, b);
        let m = merged(front, b);
        lemma_merged_last(front, b);
        if front.len() > 0 {
            assert(front.last() == a[a.len() - 2] && a.last() == a[a.len() - 1]);
        } else {
            assert(m == b);
        }
        lemma_ascending_push(m, a.last());
        assert forall|rank: int| #[trigger] of_rank(merged(a, b), rank) == of_rank(a, rank)
            + of_rank(b, rank) by {
            assert(merged(a, b).drop_last() =~= m);
            assert(of_rank(m, rank) == of_rank(front, rank) + of_rank(b, rank));
            if when(a.last()).total_rank() == rank {
                lemma_rank_above(b, rank);
                assert(of_rank(merged(a, b), rank) =~= of_rank(a, rank) + of_rank(b, rank));
            }
        }
    } else {
        let front = b.drop_last();
        lemma_ascending_front(b);
        lemma_merged(a, front);
        let m = merged(a, front);
        lemma_merged_last(a, front);
        if front.len() > 0 {
            assert(front.last() == b[b.len() - 2] && b.last() == b[b.len() - 1]);
        } else {
            assert(m == a);
        }
        lemma_ascending_push(m, b.last());
        assert forall|rank: int| #[trigger] of_rank(merged(a, b), rank) == of_rank(a, rank)
            + of_rank(b, rank) by {
            assert(merged(a, b).drop_last() =~= m);
            assert(of_rank(m, rank) == of_rank(a, rank) + of_rank(front, rank));
            if when(b.last()).total_rank() == rank {
                assert(of_rank(merged(a, b), rank) =~= of_rank(a, rank) + of_rank(b, rank));
            }
        }
    }
}

/// The fields of one rank of two rows, one after the other.
proof fn lemma_of_rank_add(a: Seq<FOV>, b: Seq<FOV>, rank: int)
    ensures
        of_rank(a + b, rank) == of_rank(a, rank) + of_rank(b, rank),
    decreases b.len(),
{
    if b.len() == 0 {
        assert(a + b =~= a);
        assert(of_rank(a, rank) + of_rank(b, rank) =~= of_rank(a, rank));
    } else {
        lemma_of_rank_add(a, b.drop_last(), rank);
        assert((a + b).drop_last() =~= a + b.drop_last());
        assert((a + b).last() == b.last());
        assert(of_rank(a + b, rank) =~= of_rank(a, rank) + of_rank(b, rank));
    }
}

/// Fields are put in the order of their times, and those of the same time stay in their order.
/// So none is lost and none is added.
pub proof fn law_sorted(s: Seq<FOV>)
    ensures
        ascending(sorted(s)),
        sorted(s).len() == s.len(),
        forall|rank: int| #[trigger] of_rank(sorted(s), rank) == of_rank(s, rank),
    decreases s.len(),
{
    if s.len() > 1 {
        let half = (s.len() / 2) as int;
        let a = s.take(half);
        let b = s.skip(half);
        law_sorted(a);
        law_sorted(b);
        lemma_merged(sorted(a), sorted(b));
        lemma_merged_last(sorted(a), sorted(b));
        assert forall|rank: int| #[trigger] of_rank(sorted(s), rank) == of_rank(s, rank) by {
            assert(of_rank(merged(sorted(a), sorted(b)), rank) == of_rank(sorted(a), rank)
                + of_rank(sorted(b), rank));
            assert(of_rank(sorted(a), rank) == of_rank(a, rank));
            assert(of_rank(sorted(b), rank) == of_rank(b, rank));
            lemma_of_rank_add(a, b, rank);
            assert(a + b =~= s);
        }
    }
}

/// Is one field before another.
fn is_before(a: &FOV, b: &FOV) -> (r: bool)
    ensures
        r == before(*a, *b),
{
    a.observer().epoch.jd.total_less(b.observer().epoch.jd)
}

/// Entries in the other order.
fn turn_around<X>(s: Vec<X>) -> (r: Vec<X>)
    ensures
        r@ == s@.reverse(),
{
    let ghost all = s@;
    let mut s = s;
    let mut r: Vec<X> = Vec::new();
    assert(r@ =~= all.reverse().take(0));
    while s.len() > 0
        invariant
            s@.len() <= all.len(),
            s@ == all.take(s@.len() as int),
            r@ == all.reverse().take(all.len() - s@.len()),
        decreases s@.len(),
    {
        if let Some(x) = s.pop() {
            r.push(x);
            assert(s@ =~= all.take(s@.len() as int));
            assert(r@ =~= all.reverse().take(all.len() - s@.len()));
        }
    }
    assert(r@ =~= all.reverse());
    r
}

/// Two ordered rows of fields as one.
fn merge(a: Vec<FOV>, b: Vec<FOV>) -> (r: Vec<FOV>)
    ensures
        r@ == merged(a@, b@),
{
    let ghost left = a@;
    let ghost right = b@;
    let mut a = a;
    let mut b = b;
    let mut back: Vec<FOV> = Vec::new();
    assert(merged(left, right) =~= merged(a@, b@) + back@.reverse());
    while a.len() > 0 && b.len() > 0
        invariant
            merged(left, right) == merged(a@, b@) + back@.reverse(),
        decreases a@.len() + b@.len(),
    {
        let ghost rest = back@;
        let ghost m = merged(a@, b@);
        let take_first: bool = is_before(&b[b.len() - 1], &a[a.len() - 1]);
        let last = if take_first {
            a.pop()
        } else {
            b.pop()
        };
        if let Some(f) = last {
            back.push(f);
            assert(m == merged(a@, b@).push(f));
            assert(m + rest.reverse() =~= merged(a@, b@) + back@.reverse());
        }
    }
    let mut r = if a.len() > 0 {
        a
    } else {
        b
    };
    assert(r@ == merged(a@, b@));
    let mut tail = turn_around(back);
    r.append(&mut tail);
    r
}

/// Put fields in the order of their times.
pub fn sort(fovs: Vec<FOV>) -> (r: Vec<FOV>)
    ensures
        r@ == sorted(fovs@),
    decreases fovs@.len(),
{
    let n: usize = fovs.len();
    if n <= 1 {
        return fovs;
    }
    let ghost all = fovs@;
    let mut first = fovs;
    let second = first.split_off(n / 2);
    assert(first@ =~= all.take((n / 2) as int));
    assert(second@ =~= all.skip((n / 2) as int));
    merge(sort(first), sort(second))
}

/// Is a field too long after the first one of a group to belong to it.
pub open spec fn far<A: Arithmetic>(ops: &A, first: FOV, f: FOV, dt_limit: F64) -> bool {
    arithmetic::product(ops, F64 { bits: constants::TWO }, dt_limit).spec_le(
        arithmetic::difference(ops, when(f), when(first)).abs_value(),
    )
}

/// Groups of fields, and the group which is not complete yet.
#[verifier::ext_equal]
pub struct Groups {
    pub done: Seq<Seq<FOV>>,
    pub open: Seq<FOV>,
}

/// The groups of the first `n` fields. A group ends before a field which is too long after its
/// first one.
pub open spec fn grouped<A: Arithmetic>(ops: &A, fovs: Seq<FOV>, dt_limit: F64, n: nat) -> Groups
    decreases n,
{
    if n == 0 {
        Groups { done: Seq::empty(), open: Seq::empty() }
    } else {
        let g = grouped(ops, fovs, dt_limit, (n - 1) as nat);
        let f = fovs[n - 1];
        if g.open.len() == 0 || !far(ops, g.open[0], f, dt_limit) {
            Groups { done: g.done, open: g.open.push(f) }
        } else {
            Groups { done: g.done.push(g.open), open: seq![f] }
        }
    }
}

/// The groups of fields.
pub open spec fn groups<A: Arithmetic>(ops: &A, fovs: Seq<FOV>, dt_limit: F64) -> Seq<Seq<FOV>> {
    let g = grouped(ops, fovs, dt_limit, fovs.len());
    if g.open.len() == 0 {
        g.done
    } else {
        g.done.push(g.open)
    }
}

/// Groups, one after the other.
pub open spec fn joined(s: Seq<Seq<FOV>>) -> Seq<FOV>
    decreases s.len(),
{
    if s.len() == 0 {
        Seq::empty()
    } else {
        joined(s.drop_last()) + s.last()
    }
}

/// Is no field of a group too long after the first one.
pub open spec fn close<A: Arithmetic>(ops: &A, g: Seq<FOV>, dt_limit: F64) -> bool {
    forall|i: int| 0 < i < g.len() ==> !far(ops, g[0], #[trigger] g[i], dt_limit)
}

/// The groups of the first fields are those fields, and none is empty or too long.
proof fn lemma_grouped<A: Arithmetic>(ops: &A, fovs: Seq<FOV>, dt_limit: F64, n: nat)
    requires
        n <= fovs.len(),
    ensures
        ({
            let g = grouped(ops, fovs, dt_limit, n);
            &&& joined(g.done) + g.open == fovs.take(n as int)
            &&& n > 0 ==> g.open.len() > 0
            &&& close(ops, g.open, dt_limit)
            &&& forall|k: int|
                0 <= k < g.done.len() ==> (#[trigger] g.done[k]).len() > 0 && close(
                    ops,
                    g.done[k],
                    dt_limit,
                )
        }),
    decreases n,
{
    if n == 0 {
        assert(joined(Seq::empty()) + Seq::<FOV>::empty() =~= fovs.take(0));
    } else {
        lemma_grouped(ops, fovs, dt_limit, (n - 1) as nat);
        let g = grouped(ops, fovs, dt_limit, (n - 1) as nat);
        let f = fovs[n - 1];
        let h = grouped(ops, fovs, dt_limit, n);
        assert(fovs.take(n as int) =~= fovs.take(n - 1).push(f));
        if g.open.len() == 0 || !far(ops, g.open[0], f, dt_limit) {
            assert(joined(h.done) + h.open =~= fovs.take(n as int));
            assert forall|i: int| 0 < i < h.open.len() implies !far(
                ops,
                h.open[0],
                #[trigger] h.open[i],
                dt_limit,
            ) by {
                if i < g.open.len() {
                    assert(h.open[i] == g.open[i]);
                }
            }
        } else {
            assert(h.done.drop_last() =~= g.done);
            assert(joined(h.done) =~= joined(g.done) + g.open);
            assert(joined(h.done) + h.open =~= fovs.take(n as int));
            assert forall|k: int| 0 <= k < h.done.len() implies (#[trigger] h.done[k]).len() > 0
                && close(ops, h.done[k], dt_limit) by {
                if k < g.done.len() {
                    assert(h.done[k] == g.done[k]);
                }
            }
        }
    }
}

/// Groups hold all fields in their order. None is empty, and no field is too long after the first
/// one of its group.
pub proof fn law_groups<A: Arithmetic>(ops: &A, fovs: Seq<FOV>, dt_limit: F64)
    ensures
        joined(groups(ops, fovs, dt_limit)) == fovs,
        forall|k: int|
            0 <= k < groups(ops, fovs, dt_limit).len() ==> (#[trigger] groups(
                ops,
                fovs,
                dt_limit,
            )[k]).len() > 0 && close(ops, groups(ops, fovs, dt_limit)[k], dt_limit),
{
    lemma_grouped(ops, fovs, dt_limit, fovs.len());
    let g = grouped(ops, fovs, dt_limit, fovs.len());
    let all = groups(ops, fovs, dt_limit);
    assert(fovs.take(fovs.len() as int) =~= fovs);
    if g.open.len() == 0 {
        assert(joined(g.done) + g.open =~= joined(g.done));
    } else {
        assert(all.drop_last() =~= g.done);
    }
}

/// Rows of fields.
pub open spec fn rows(s: Seq<Vec<FOV>>) -> Seq<Seq<FOV>> {
    Seq::new(s.len(), |i: int| s[i]@)
}

/// Break fields into groups.
pub fn group<A: Arithmetic>(ops: &A, fovs: Vec<FOV>, dt_limit: F64) -> (r: Vec<Vec<FOV>>)
    requires
        ops.lawful(),
    ensures
        rows(r@) == groups(ops, fovs@, dt_limit),
{
    let ghost all = fovs@;
    let n: usize = fovs.len();
    let limit = arithmetic::times(ops, F64::from_bits(constants::TWO), dt_limit);
    let mut waiting = turn_around(fovs);
    let mut done: Vec<Vec<FOV>> = Vec::new();
    let mut open: Vec<FOV> = Vec::new();
    let mut i: usize = 0;
    assert(rows(done@) =~= Seq::empty());
    assert(open@ =~= Seq::empty());
    while i < n
        invariant
            ops.lawful(),
            n == all.len(),
            i <= n,
            limit == arithmetic::product(ops, F64 { bits: constants::TWO }, dt_limit),
            waiting@ == all.skip(i as int).reverse(),
            rows(done@) == grouped(ops, all, dt_limit, i as nat).done,
            open@ == grouped(ops, all, dt_limit, i as nat).open,
        decreases n - i,
    {
        if let Some(f) = waiting.pop() {
            assert(f == all[i as int]);
            assert(waiting@ =~= all.skip(i + 1).reverse());
            let complete: bool = if open.len() == 0 {
                false
            } else {
                let jd_start = open[0].observer().epoch.jd;
                let elapsed = arithmetic::minus(ops, f.observer().epoch.jd, jd_start);
                limit.less_or_equal(elapsed.abs())
            };
            if complete {
                let ghost before = done@;
                done.push(open);
                assert(rows(done@) =~= rows(before).push(open@));
                open = vec![f];
                assert(open@ =~= seq![f]);
            } else {
                open.push(f);
            }
        }
        i = i + 1;
    }
    if open.len() > 0 {
        let ghost before = done@;
        done.push(open);
        assert(rows(done@) =~= rows(before).push(open@));
    }
    done
}

/// What has been reached: by small steps, and by large steps, which are taken less often so that
/// fewer errors add up.
#[derive(Debug, Clone, Copy)]
pub struct Reached {
    /// Where the objects on small steps stand.
    pub jd: F64,
    /// The middle of the group of fields before which the last large step was taken. The objects
    /// on large steps do not stand there, but where those on small steps stood before that step.
    pub big_jd: F64,
}

/// What is done before a group of fields is looked at, in this order.
#[derive(Debug, Clone, Copy)]
pub struct Plan {
    /// Where the objects on large steps are propagated to.
    pub big: Option<F64>,
    /// Do the objects on small steps start again from those on large steps.
    pub restart: bool,
    /// Where the objects on small steps are propagated to.
    pub small: Option<F64>,
    /// Where the objects are after that.
    pub reached: Reached,
}

/// Is `a` at least `limit` away from `b`.
pub open spec fn away<A: Arithmetic>(ops: &A, a: F64, b: F64, limit: F64) -> bool {
    limit.spec_le(arithmetic::difference(ops, a, b).abs_value())
}

/// Is `a` at least `limit` away from `b`.
fn is_away<A: Arithmetic>(ops: &A, a: F64, b: F64, limit: F64) -> (r: bool)
    requires
        ops.lawful(),
    ensures
        r == away(ops, a, b, limit),
{
    limit.less_or_equal(arithmetic::minus(ops, a, b).abs())
}

/// The middle of a group of fields.
pub open spec fn middle<A: Arithmetic>(ops: &A, first: F64, last: F64) -> F64 {
    arithmetic::quotient(ops, arithmetic::sum(ops, last, first), F64 { bits: constants::TWO })
}

/// What is done before a group of fields is looked at, whose first and last one are given.
pub open spec fn planned<A: Arithmetic>(
    ops: &A,
    at: Reached,
    first: F64,
    last: F64,
    dt_limit: F64,
) -> Plan {
    let mean = middle(ops, first, last);
    let far_big = away(
        ops,
        mean,
        at.big_jd,
        arithmetic::product(ops, dt_limit, F64 { bits: LARGE_STEP }),
    );
    let big_jd = if far_big {
        mean
    } else {
        at.big_jd
    };
    let far_small = away(ops, mean, at.jd, dt_limit);
    Plan {
        big: if far_big {
            Some(at.jd)
        } else {
            None
        },
        restart: far_small && away(
            ops,
            at.jd,
            big_jd,
            arithmetic::product(ops, dt_limit, F64 { bits: RESTART }),
        ),
        small: if far_small {
            Some(mean)
        } else {
            None
        },
        reached: Reached {
            jd: if far_small {
                mean
            } else {
                at.jd
            },
            big_jd,
        },
    }
}

/// What is done before a group of fields is looked at.
pub fn plan<A: Arithmetic>(ops: &A, at: Reached, fovs: &Vec<FOV>, dt_limit: F64) -> (r: Plan)
    requires
        ops.lawful(),
        fovs@.len() > 0,
    ensures
        r == planned(ops, at, when(fovs@[0]), when(fovs@.last()), dt_limit),
{
    let first = fovs[0].observer().epoch.jd;
    let last = fovs[fovs.len() - 1].observer().epoch.jd;
    let sum = arithmetic::plus(ops, last, first);
    let mean = arithmetic::over(ops, sum, F64::from_bits(constants::TWO));
    let large = arithmetic::times(ops, dt_limit, F64::from_bits(LARGE_STEP));
    let far_big: bool = is_away(ops, mean, at.big_jd, large);
    let big_jd = if far_big {
        mean
    } else {
        at.big_jd
    };
    let far_small: bool = is_away(ops, mean, at.jd, dt_limit);
    let drift = arithmetic::times(ops, dt_limit, F64::from_bits(RESTART));
    let drifted: bool = is_away(ops, at.jd, big_jd, drift);
    Plan {
        big: if far_big {
            Some(at.jd)
        } else {
            None
        },
        restart: far_small && drifted,
        small: if far_small {
            Some(mean)
        } else {
            None
        },
        reached: Reached {
            jd: if far_small {
                mean
            } else {
                at.jd
            },
            big_jd,
        },
    }
}

/// After a plan the objects on small steps are not far from the middle of the group.
pub proof fn law_plan_is_near<A: Arithmetic>(
    ops: &A,
    at: Reached,
    first: F64,
    last: F64,
    dt_limit: F64,
)
    ensures
        ({
            let p = planned(ops, at, first, last, dt_limit);
            p.reached.jd == middle(ops, first, last) || !away(
                ops,
                middle(ops, first, last),
                p.reached.jd,
                dt_limit,
            )
        }),
{
}

/// What is there of the first `n` entries.
pub open spec fn present<X>(found: Seq<Option<X>>, n: nat) -> Seq<X>
    decreases n,
{
    if n == 0 {
        Seq::empty()
    } else {
        match found[n - 1] {
            None => present(found, (n - 1) as nat),
            Some(x) => present(found, (n - 1) as nat).push(x),
        }
    }
}

/// What is there of the entries of the first `n` rows, row by row.
pub open spec fn all_present<X>(found: Seq<Seq<Option<X>>>, n: nat) -> Seq<X>
    decreases n,
{
    if n == 0 {
        Seq::empty()
    } else {
        all_present(found, (n - 1) as nat) + present(found[n - 1], found[n - 1].len())
    }
}

/// Rows of what may be there.
pub open spec fn option_rows<X>(s: Seq<Vec<Option<X>>>) -> Seq<Seq<Option<X>>> {
    Seq::new(s.len(), |i: int| s[i]@)
}

/// What is there of entries.
fn keep_present<X>(found: Vec<Option<X>>) -> (r: Vec<X>)
    ensures
        r@ == present(found@, found@.len()),
{
    let ghost all = found@;
    let mut found = found;
    let mut back: Vec<X> = Vec::new();
    assert(present(all, all.len()) =~= present(found@, found@.len()) + back@.reverse());
    while found.len() > 0
        invariant
            present(all, all.len()) == present(found@, found@.len()) + back@.reverse(),
        decreases found@.len(),
    {
        let ghost front = found@;
        let ghost rest = back@;
        proof {
            lemma_present_front(front);
        }
        if let Some(Some(x)) = found.pop() {
            back.push(x);
            assert(present(front, front.len()) + rest.reverse() =~= present(found@, found@.len())
                + back@.reverse());
        }
    }
    assert(present(all, all.len()) =~= back@.reverse());
    turn_around(back)
}

/// What is there of the first entries does not depend on the last one.
proof fn lemma_present_front<X>(s: Seq<Option<X>>)
    requires
        s.len() > 0,
    ensures
        present(s, (s.len() - 1) as nat) == present(s.drop_last(), s.drop_last().len()),
{
    lemma_present_same(s, s.drop_last(), s.drop_last().len());
}

/// What is there of the first `n` entries depends on those alone.
proof fn lemma_present_same<X>(s: Seq<Option<X>>, t: Seq<Option<X>>, n: nat)
    requires
        n <= s.len(),
        n <= t.len(),
        forall|i: int| 0 <= i < n ==> #[trigger] s[i] == t[i],
    ensures
        present(s, n) == present(t, n),
    decreases n,
{
    if n > 0 {
        lemma_present_same(s, t, (n - 1) as nat);
    }
}

/// Put together what was found in each field. Fields where nothing was found leave no trace.
pub fn collect<X>(found: Vec<Vec<Option<X>>>) -> (r: Vec<X>)
    ensures
        r@ == all_present(option_rows(found@), found@.len()),
{
    let ghost all = found@;
    let mut waiting = turn_around(found);
    let mut r: Vec<X> = Vec::new();
    let ghost mut i: int = 0;
    assert(waiting@ =~= all.skip(0).reverse());
    while waiting.len() > 0
        invariant
            0 <= i <= all.len(),
            waiting@ == all.skip(i).reverse(),
            r@ == all_present(option_rows(all), i as nat),
        decreases waiting@.len(),
    {
        if let Some(row) = waiting.pop() {
            assert(row == all[i]);
            let mut more = keep_present(row);
            r.append(&mut more);
            assert(waiting@ =~= all.skip(i + 1).reverse());
            proof {
                i = i + 1;
            }
        }
    }
    assert(i == all.len());
    r
}

// ---------------------------------------------------------------------------
// Looking
// ---------------------------------------------------------------------------

/// The same states.
fn copy_states(s: &Vec<State<Equatorial>>) -> (r: Vec<State<Equatorial>>)
    ensures
        r@ == s@,
{
    let mut r: Vec<State<Equatorial>> = Vec::new();
    let mut i: usize = 0;
    while i < s.len()
        invariant
            i <= s@.len(),
            r@ == s@.take(i as int),
        decreases s@.len() - i,
    {
        r.push(s[i].clone());
        i = i + 1;
        assert(r@ =~= s@.take(i as int));
    }
    assert(r@ =~= s@);
    r
}

/// Are `r` the states which `advance` makes of `s` when it propagates them to `jd`.
pub open spec fn advanced<P: Fn(&Vec<State<Equatorial>>, F64) -> Vec<State<Equatorial>>>(
    advance: &P,
    s: Seq<State<Equatorial>>,
    jd: F64,
    r: Seq<State<Equatorial>>,
) -> bool {
    exists|v: Vec<State<Equatorial>>, w: Vec<State<Equatorial>>|
        v@ == s && w@ == r && #[trigger] call_ensures(*advance, (&v, jd), w)
}

/// Is `found` what `look` sees of states in a field of view.
pub open spec fn looked<X, V: Fn(&FOV, &Vec<State<Equatorial>>) -> Vec<Option<X>>>(
    look: &V,
    fov: FOV,
    s: Seq<State<Equatorial>>,
    found: Seq<Option<X>>,
) -> bool {
    exists|v: Vec<State<Equatorial>>, w: Vec<Option<X>>|
        v@ == s && w@ == found && #[trigger] call_ensures(*look, (&fov, &v), w)
}

/// The objects when a group of fields is looked at.
#[verifier::ext_equal]
pub struct Stage {
    pub small: Seq<State<Equatorial>>,
    pub big: Seq<State<Equatorial>>,
    pub at: Reached,
}

/// Does one stage follow another by the plan for a group of fields.
pub open spec fn follows<
    A: Arithmetic,
    P: Fn(&Vec<State<Equatorial>>, F64) -> Vec<State<Equatorial>>,
>(ops: &A, advance: &P, from: Stage, group: Seq<FOV>, dt_limit: F64, to: Stage) -> bool {
    let p = planned(ops, from.at, when(group[0]), when(group.last()), dt_limit);
    let base = if p.restart {
        to.big
    } else {
        from.small
    };
    &&& to.at == p.reached
    &&& match p.big {
        Some(jd) => advanced(advance, from.big, jd, to.big),
        None => to.big == from.big,
    }
    &&& match p.small {
        Some(jd) => advanced(advance, base, jd, to.small),
        None => to.small == base,
    }
}

/// Is `rows` what is seen in each field of a group.
pub open spec fn seen<X, V: Fn(&FOV, &Vec<State<Equatorial>>) -> Vec<Option<X>>>(
    look: &V,
    group: Seq<FOV>,
    states: Seq<State<Equatorial>>,
    rows: Seq<Seq<Option<X>>>,
) -> bool {
    &&& rows.len() == group.len()
    &&& forall|j: int| 0 <= j < group.len() ==> looked(look, #[trigger] group[j], states, rows[j])
}

/// Are stages and sightings those of groups: the first stage is given, each one follows the one
/// before, and each group is looked at in its own stage.
pub open spec fn observed<
    A: Arithmetic,
    X,
    P: Fn(&Vec<State<Equatorial>>, F64) -> Vec<State<Equatorial>>,
    V: Fn(&FOV, &Vec<State<Equatorial>>) -> Vec<Option<X>>,
>(
    ops: &A,
    advance: &P,
    look: &V,
    start: Stage,
    gs: Seq<Seq<FOV>>,
    dt_limit: F64,
    stages: Seq<Stage>,
    found: Seq<Seq<Seq<Option<X>>>>,
) -> bool {
    &&& stages.len() == gs.len() + 1
    &&& found.len() == gs.len()
    &&& stages[0] == start
    &&& forall|k: int|
        0 <= k < gs.len() ==> follows(
            ops,
            advance,
            stages[k],
            #[trigger] gs[k],
            dt_limit,
            stages[k + 1],
        ) && seen(look, gs[k], stages[k + 1].small, found[k])
}

/// What is there in the sightings of the first `n` groups.
pub open spec fn all_found<X>(found: Seq<Seq<Seq<Option<X>>>>, n: nat) -> Seq<X>
    decreases n,
{
    if n == 0 {
        Seq::empty()
    } else {
        all_found(found, (n - 1) as nat) + all_present(found[n - 1], found[n - 1].len())
    }
}

/// What is seen in each field of a group.
fn look_at<X, V: Fn(&FOV, &Vec<State<Equatorial>>) -> Vec<Option<X>>>(
    look: &V,
    group: &Vec<FOV>,
    states: &Vec<State<Equatorial>>,
) -> (r: Vec<Vec<Option<X>>>)
    requires
        forall|f: &FOV, s: &Vec<State<Equatorial>>| #[trigger] call_requires(*look, (f, s)),
    ensures
        seen(look, group@, states@, option_rows(r@)),
{
    let mut r: Vec<Vec<Option<X>>> = Vec::new();
    let mut i: usize = 0;
    while i < group.len()
        invariant
            forall|f: &FOV, s: &Vec<State<Equatorial>>| #[trigger] call_requires(*look, (f, s)),
            i <= group@.len(),
            r@.len() == i,
            forall|j: int|
                0 <= j < i ==> looked(look, #[trigger] group@[j], states@, option_rows(r@)[j]),
        decreases group@.len() - i,
    {
        let found = (*look)(&group[i], states);
        assert(looked(look, group@[i as int], states@, found@));
        let ghost before = r@;
        r.push(found);
        assert forall|j: int| 0 <= j <= i implies looked(
            look,
            #[trigger] group@[j],
            states@,
            option_rows(r@)[j],
        ) by {
            if j < i {
                assert(option_rows(r@)[j] == option_rows(before)[j]);
            } else {
                assert(option_rows(r@)[j] == found@);
            }
        }
        i = i + 1;
    }
    r
}

/// Look for objects in fields of view. The objects are at `epoch`. `advance` propagates objects
/// and leaves out those which cannot be propagated, and `look` sees objects in a field close in
/// time.
pub fn fov_checks_py<
    A: Arithmetic,
    X,
    P: Fn(&Vec<State<Equatorial>>, F64) -> Vec<State<Equatorial>>,
    V: Fn(&FOV, &Vec<State<Equatorial>>) -> Vec<Option<X>>,
>(
    ops: &A,
    advance: &P,
    look: &V,
    states: Vec<State<Equatorial>>,
    epoch: F64,
    fovs: Vec<FOV>,
    dt_limit: F64,
) -> (r: Vec<X>)
    requires
        ops.lawful(),
        forall|s: &Vec<State<Equatorial>>, jd: F64| #[trigger] call_requires(*advance, (s, jd)),
        forall|f: &FOV, s: &Vec<State<Equatorial>>| #[trigger] call_requires(*look, (f, s)),
    ensures
        exists|stages: Seq<Stage>, found: Seq<Seq<Seq<Option<X>>>>|
            #[trigger] observed(
                ops,
                advance,
                look,
                Stage {
                    small: states@,
                    big: states@,
                    at: Reached { jd: epoch, big_jd: epoch },
                },
                groups(ops, sorted(fovs@), dt_limit),
                dt_limit,
                stages,
                found,
            ) && r@ == all_found(found, found.len()),
{
    let gs = group(ops, sort(fovs), dt_limit);
    let ghost all = rows(gs@);
    proof {
        law_groups(ops, sorted(fovs@), dt_limit);
    }
    let mut at = Reached { jd: epoch, big_jd: epoch };
    let mut big = copy_states(&states);
    let mut small = states;
    let ghost start = Stage { small: small@, big: big@, at };
    let ghost mut stages: Seq<Stage> = seq![start];
    let ghost mut found: Seq<Seq<Seq<Option<X>>>> = Seq::empty();
    let mut r: Vec<X> = Vec::new();
    let mut i: usize = 0;
    while i < gs.len()
        invariant
            ops.lawful(),
            forall|s: &Vec<State<Equatorial>>, jd: F64|
                #[trigger] call_requires(*advance, (s, jd)),
            forall|f: &FOV, s: &Vec<State<Equatorial>>| #[trigger] call_requires(*look, (f, s)),
            all == rows(gs@),
            forall|k: int| 0 <= k < all.len() ==> (#[trigger] all[k]).len() > 0,
            i <= gs@.len(),
            observed(
                ops,
                advance,
                look,
                start,
                all.take(i as int),
                dt_limit,
                stages,
                found,
            ),
            stages.last() == (Stage { small: small@, big: big@, at }),
            r@ == all_found(found, i as nat),
        decreases gs@.len() - i,
    {
        let ghost from = stages.last();
        let ghost old_stages = stages;
        let ghost old_found = found;
        let one = &gs[i];
        assert(all[i as int] == one@);
        let p = plan(ops, at, one, dt_limit);
        if let Some(jd) = p.big {
            let next = (*advance)(&big, jd);
            assert(advanced(advance, from.big, jd, next@));
            big = next;
        }
        if p.restart {
            small = copy_states(&big);
        }
        if let Some(jd) = p.small {
            let ghost base = small@;
            let next = (*advance)(&small, jd);
            assert(advanced(advance, base, jd, next@));
            small = next;
        }
        at = p.reached;
        let sightings = look_at(look, one, &small);
        let ghost to = Stage { small: small@, big: big@, at };
        proof {
            stages = stages.push(to);
            found = found.push(option_rows(sightings@));
            lemma_observed_more(
                ops,
                advance,
                look,
                start,
                all,
                i as int,
                dt_limit,
                old_stages,
                old_found,
                to,
                option_rows(sightings@),
            );
            lemma_found_same(old_found, found, i as nat);
        }
        let mut more = collect(sightings);
        r.append(&mut more);
        i = i + 1;
    }
    assert(all.take(i as int) =~= all);
    r
}

/// One more group is looked at.
proof fn lemma_observed_more<
    A: Arithmetic,
    X,
    P: Fn(&Vec<State<Equatorial>>, F64) -> Vec<State<Equatorial>>,
    V: Fn(&FOV, &Vec<State<Equatorial>>) -> Vec<Option<X>>,
>(
    ops: &A,
    advance: &P,
    look: &V,
    start: Stage,
    gs: Seq<Seq<FOV>>,
    i: int,
    dt_limit: F64,
    stages: Seq<Stage>,
    found: Seq<Seq<Seq<Option<X>>>>,
    to: Stage,
    sightings: Seq<Seq<Option<X>>>,
)
    requires
        0 <= i < gs.len(),
        observed(ops, advance, look, start, gs.take(i), dt_limit, stages, found),
        follows(ops, advance, stages.last(), gs[i], dt_limit, to),
        seen(look, gs[i], to.small, sightings),
    ensures
        observed(
            ops,
            advance,
            look,
            start,
            gs.take(i + 1),
            dt_limit,
            stages.push(to),
            found.push(sightings),
        ),
{
    let s = stages.push(to);
    let f = found.push(sightings);
    assert forall|k: int| 0 <= k < gs.take(i + 1).len() implies follows(
        ops,
        advance,
        s[k],
        #[trigger] gs.take(i + 1)[k],
        dt_limit,
        s[k + 1],
    ) && seen(look, gs.take(i + 1)[k], s[k + 1].small, f[k]) by {
        if k < i {
            assert(gs.take(i)[k] == gs.take(i + 1)[k]);
        }
    }
}

/// What is there in the first groups depends on those alone.
proof fn lemma_found_same<X>(
    a: Seq<Seq<Seq<Option<X>>>>,
    b: Seq<Seq<Seq<Option<X>>>>,
    n: nat,
)
    requires
        n <= a.len(),
        n <= b.len(),
        forall|k: int| 0 <= k < n ==> #[trigger] a[k] == b[k],
    ensures
        all_found(a, n) == all_found(b, n),
    decreases n,
{
    if n > 0 {
        lemma_found_same(a, b, (n - 1) as nat);
    }
}

/// Is `rows` what `look` finds in each field.
pub open spec fn found_in<X, V: Fn(&FOV) -> Vec<Option<X>>>(
    look: &V,
    fovs: Seq<FOV>,
    rows: Seq<Vec<Option<X>>>,
) -> bool {
    &&& rows.len() == fovs.len()
    &&& forall|j: int|
        0 <= j < fovs.len() ==> call_ensures(*look, (&#[trigger] fovs[j],), rows[j])
}

/// What `look` finds in fields of view, in the order of their times. Fields where nothing is found
/// leave no trace.
pub fn check_each<X, V: Fn(&FOV) -> Vec<Option<X>>>(look: &V, fovs: Vec<FOV>) -> (r: Vec<X>)
    requires
        forall|f: &FOV| #[trigger] call_requires(*look, (f,)),
    ensures
        exists|rows: Seq<Vec<Option<X>>>|
            #[trigger] found_in(look, sorted(fovs@), rows) && r@ == all_present(
                option_rows(rows),
                rows.len(),
            ),
{
    let ghost want = sorted(fovs@);
    let fovs = sort(fovs);
    let mut rows: Vec<Vec<Option<X>>> = Vec::new();
    let mut i: usize = 0;
    while i < fovs.len()
        invariant
            forall|f: &FOV| #[trigger] call_requires(*look, (f,)),
            want == fovs@,
            i <= fovs@.len(),
            rows@.len() == i,
            forall|j: int|
                0 <= j < i ==> call_ensures(*look, (&#[trigger] fovs@[j],), rows@[j]),
        decreases fovs@.len() - i,
    {
        let found = (*look)(&fovs[i]);
        let ghost before = rows@;
        rows.push(found);
        assert forall|j: int| 0 <= j <= i implies call_ensures(
            *look,
            (&#[trigger] fovs@[j],),
            rows@[j],
        ) by {
            if j < i {
                assert(rows@[j] == before[j]);
            }
        }
        i = i + 1;
    }
    assert(found_in(look, want, rows@));
    collect(rows)
}

} // verus!
