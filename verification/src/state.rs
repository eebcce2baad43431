//! Search states and their one-step resolution.

use crate::env::{clone_exact, dup, dup_env, extend_env};
use crate::eval::{run_at, views};
use crate::pattern::{Hook, MAtomImpl, MConsImpl, MJoinImpl, MList, Pattern};
use crate::semantics::{
    all_extend, cons_cost, cons_sols, hook_live, hook_ok, hook_out, join_sols, lemma_cost_rank,
    lemma_hook_out, lemma_list_mono, lemma_list_rank, lemma_list_shape, lemma_pat_rank,
    lemma_pat_shape, list_arity,
    list_cost, list_sols, list_wf_at, pat_arity, pat_sols, pat_wf_at, stripped, tail_cost,
};
use std::collections::VecDeque;
use vstd::prelude::*;

verus! {

/// The states `(rs + b, tail)` for `b` in `bs`, in order.
pub open spec fn advance<'a, A, M, P, H>(
    bs: Seq<Seq<A>>,
    tail: MList<'a, A, M, P, H>,
    rs: Seq<A>,
) -> Seq<(Seq<A>, MList<'a, A, M, P, H>)> {
    Seq::new(bs.len(), |i: int| (rs + bs[i], tail))
}

/// The states of `q`, each with `rhs` joined behind what it has left.
pub open spec fn rewrap<'a, A, M, P, H>(
    q: Seq<(Seq<A>, MList<'a, A, M, P, H>)>,
    rhs: MList<'a, A, M, P, H>,
) -> Seq<(Seq<A>, MList<'a, A, M, P, H>)> {
    Seq::new(q.len(), |i: int| (q[i].0, MList::MJoin(Box::new(MJoinImpl { lhs: q[i].1, rhs }))))
}

/// The successors of the state `(rs, l)`, in the order in which the search
/// takes them up.
pub open spec fn step<'a, A, M, P: Fn(&Vec<A>, &A) -> bool, H: Hook<A, M, P>>(
    l: &MList<'a, A, M, P, H>,
    rs: Seq<A>,
    n: nat,
) -> Seq<(Seq<A>, MList<'a, A, M, P, H>)>
    decreases l,
{
    match l {
        MList::MNil => Seq::empty(),
        MList::MCons(c) => match c.head.pattern {
            Pattern::Pattern(h, _) => if hook_live(h, rs, c.head.matcher, c.head.target) {
                seq![
                    (
                        rs,
                        MList::MJoin(
                            Box::new(
                                MJoinImpl {
                                    lhs: hook_out(h, rs, c.head.matcher, c.head.target),
                                    rhs: c.tail,
                                },
                            ),
                        ),
                    ),
                ]
            } else {
                Seq::empty()
            },
            _ => advance(
                pat_sols(c.head.pattern, rs, c.head.matcher, c.head.target, n),
                c.tail,
                rs,
            ),
        },
        MList::MJoin(j) => if j.lhs is MNil {
            if j.rhs is MNil {
                seq![(rs, MList::MNil)]
            } else {
                step(&j.rhs, rs, n)
            }
        } else {
            rewrap(step(&j.lhs, rs, n), j.rhs)
        },
    }
}

/// What the states of `q` lead to, one state after the other.
pub open spec fn queue_sols<A, M, P: Fn(&Vec<A>, &A) -> bool, H: Hook<A, M, P>>(
    q: Seq<(Seq<A>, MList<A, M, P, H>)>,
    n: nat,
) -> Seq<Seq<A>>
    decreases q.len(),
{
    if q.len() == 0 {
        Seq::empty()
    } else {
        queue_sols(q.drop_last(), n) + list_sols(&q.last().1, q.last().0, n)
    }
}

/// Expansions that it takes to search all states of `q` to the end.
pub open spec fn queue_cost<A, M, P: Fn(&Vec<A>, &A) -> bool, H: Hook<A, M, P>>(
    q: Seq<(Seq<A>, MList<A, M, P, H>)>,
    n: nat,
) -> nat
    decreases q.len(),
{
    if q.len() == 0 {
        0
    } else {
        queue_cost(q.drop_last(), n) + list_cost(&q.last().1, q.last().0, n)
    }
}

/// Every state of `q` is well formed and leads to environments of `total`
/// bindings.
pub open spec fn queue_ok<A, M, P: Fn(&Vec<A>, &A) -> bool, H: Hook<A, M, P>>(
    q: Seq<(Seq<A>, MList<A, M, P, H>)>,
    n: nat,
    total: nat,
) -> bool {
    forall|i: int|
        0 <= i < q.len() ==> list_wf_at(&(#[trigger] q[i]).1, q[i].0.len(), n) && q[i].0.len()
            + list_arity(&q[i].1) == total
}

/// A row of one state leads to what the state leads to.
pub proof fn lemma_queue_single<A, M, P: Fn(&Vec<A>, &A) -> bool, H: Hook<A, M, P>>(
    s: (Seq<A>, MList<A, M, P, H>),
    n: nat,
)
    ensures
        queue_sols(seq![s], n) == list_sols(&s.1, s.0, n),
        queue_cost(seq![s], n) == list_cost(&s.1, s.0, n),
{
    let q = seq![s];
    assert(q.drop_last() =~= Seq::empty());
    assert(queue_sols(q.drop_last(), n) =~= Seq::empty());
    assert(queue_cost(q.drop_last(), n) == 0);
    assert(q.last() == s);
    assert(queue_sols(q, n) =~= list_sols(&s.1, s.0, n));
}

proof fn lemma_join_single<A, M, P: Fn(&Vec<A>, &A) -> bool, H: Hook<A, M, P>>(
    e: Seq<A>,
    rhs: &MList<A, M, P, H>,
    n: nat,
)
    ensures
        join_sols(seq![e], rhs, n) == list_sols(rhs, e, n),
        tail_cost(seq![e], rhs, n) == if rhs is MNil {
            1
        } else {
            list_cost(rhs, e, n)
        },
{
    let one = seq![e];
    assert(one.drop_last() =~= Seq::<Seq<A>>::empty());
    assert(join_sols(one.drop_last(), rhs, n) =~= Seq::empty());
    assert(tail_cost(one.drop_last(), rhs, n) == 0);
    assert(one.last() == e);
    assert(join_sols(one, rhs, n) =~= list_sols(rhs, e, n));
}

proof fn lemma_advance<A, M, P: Fn(&Vec<A>, &A) -> bool, H: Hook<A, M, P>>(
    bs: Seq<Seq<A>>,
    tail: MList<A, M, P, H>,
    rs: Seq<A>,
    n: nat,
)
    ensures
        queue_sols(advance(bs, tail, rs), n) == cons_sols(bs, &tail, rs, n),
        queue_cost(advance(bs, tail, rs), n) == cons_cost(bs, &tail, rs, n),
    decreases bs.len(),
{
    if bs.len() > 0 {
        lemma_advance(bs.drop_last(), tail, rs, n);
        assert(advance(bs, tail, rs).drop_last() =~= advance(bs.drop_last(), tail, rs));
    }
}

proof fn lemma_strip_join<A, M, P: Fn(&Vec<A>, &A) -> bool, H: Hook<A, M, P>>(
    es: Seq<Seq<A>>,
    tail: &MList<A, M, P, H>,
    rs: Seq<A>,
    k: nat,
    n: nat,
)
    requires
        all_extend(es, rs, k),
    ensures
        cons_sols(stripped(rs.len(), es), tail, rs, n) == join_sols(es, tail, n),
    decreases es.len(),
{
    if es.len() > 0 {
        lemma_strip_join(es.drop_last(), tail, rs, k, n);
        assert(stripped(rs.len(), es).drop_last() =~= stripped(rs.len(), es.drop_last()));
        let e = es.last();
        assert(e.take(rs.len() as int) == rs);
        assert(rs + e.skip(rs.len() as int) =~= e);
    }
}

proof fn lemma_join_concat<A, M, P: Fn(&Vec<A>, &A) -> bool, H: Hook<A, M, P>>(
    x: Seq<Seq<A>>,
    y: Seq<Seq<A>>,
    rhs: &MList<A, M, P, H>,
    n: nat,
)
    ensures
        join_sols(x + y, rhs, n) == join_sols(x, rhs, n) + join_sols(y, rhs, n),
        tail_cost(x + y, rhs, n) == tail_cost(x, rhs, n) + tail_cost(y, rhs, n),
    decreases y.len(),
{
    if y.len() == 0 {
        assert(x + y =~= x);
        assert(join_sols(x, rhs, n) + join_sols(y, rhs, n) =~= join_sols(x, rhs, n));
    } else {
        lemma_join_concat(x, y.drop_last(), rhs, n);
        assert((x + y).drop_last() =~= x + y.drop_last());
        assert((x + y).last() == y.last());
        assert(join_sols(x + y, rhs, n) =~= join_sols(x, rhs, n) + join_sols(y, rhs, n));
    }
}

proof fn lemma_rewrap<A, M, P: Fn(&Vec<A>, &A) -> bool, H: Hook<A, M, P>>(
    q: Seq<(Seq<A>, MList<A, M, P, H>)>,
    rhs: MList<A, M, P, H>,
    n: nat,
)
    ensures
        queue_sols(rewrap(q, rhs), n) == join_sols(queue_sols(q, n), &rhs, n),
        queue_cost(rewrap(q, rhs), n) == queue_cost(q, n) + tail_cost(queue_sols(q, n), &rhs, n),
    decreases q.len(),
{
    if q.len() > 0 {
        lemma_rewrap(q.drop_last(), rhs, n);
        assert(rewrap(q, rhs).drop_last() =~= rewrap(q.drop_last(), rhs));
        lemma_join_concat(queue_sols(q.drop_last(), n), list_sols(&q.last().1, q.last().0, n), &rhs, n);
    }
}

/// One expansion loses nothing: the successors of a well-formed state with
/// obligations left are well formed, lead together to exactly what the state
/// leads to, in the same order, and take one expansion less to search.
pub proof fn lemma_step<A, M, P: Fn(&Vec<A>, &A) -> bool, H: Hook<A, M, P>>(
    l: &MList<A, M, P, H>,
    c: nat,
    n: nat,
    rs: Seq<A>,
)
    requires
        list_wf_at(l, c, n),
        rs.len() == c,
        !(l is MNil),
    ensures
        queue_ok(step(l, rs, n), n, c + list_arity(l)),
        queue_sols(step(l, rs, n), n) == list_sols(l, rs, n),
        list_cost(l, rs, n) == 1 + queue_cost(step(l, rs, n), n),
    decreases l,
{
    let q = step(l, rs, n);
    match l {
        MList::MNil => {},
        MList::MCons(cell) => {
            let hd = cell.head;
            match hd.pattern {
                Pattern::Pattern(h, _) => {
                    if hook_live(h, rs, hd.matcher, hd.target) {
                        lemma_hook_out(hd.pattern, c, n, rs, hd.matcher, hd.target);
                        let out = hook_out(h, rs, hd.matcher, hd.target);
                        let k = (n - 1) as nat;
                        lemma_list_mono(&out, c, k, n);
                        lemma_list_rank(&out, c, k, n, rs);
                        lemma_cost_rank(&out, c, k, n, rs);
                        lemma_list_shape(&out, c, k, rs);
                        lemma_strip_join(list_sols(&out, rs, k), &cell.tail, rs, list_arity(&out), n);
                        let bs = pat_sols(hd.pattern, rs, hd.matcher, hd.target, n);
                        assert(bs == stripped(rs.len(), list_sols(&out, rs, k)));
                        assert(list_sols(l, rs, n) == cons_sols(bs, &cell.tail, rs, n));
                        let s = q[0];
                        assert(q =~= seq![s]);
                        lemma_queue_single(s, n);
                        assert(list_sols(&s.1, s.0, n) == join_sols(
                            list_sols(&out, rs, n),
                            &cell.tail,
                            n,
                        ));
                                            } else {
                        let bs = pat_sols(hd.pattern, rs, hd.matcher, hd.target, n);
                        assert(bs =~= Seq::empty());
                        assert(cons_sols(bs, &cell.tail, rs, n) =~= Seq::empty());
                        assert(q =~= Seq::empty());
                                            }
                },
                _ => {
                    let bs = pat_sols(hd.pattern, rs, hd.matcher, hd.target, n);
                    lemma_pat_shape(hd.pattern, c, n, rs, hd.matcher, hd.target);
                    lemma_advance(bs, cell.tail, rs, n);
                                    },
            }
        },
        MList::MJoin(j) => {
            if j.lhs is MNil {
                lemma_join_single(rs, &j.rhs, n);
                assert(list_sols(&j.lhs, rs, n) == seq![rs]);
                assert(list_cost(&j.lhs, rs, n) == 0);
                if j.rhs is MNil {
                    assert(q =~= seq![(rs, MList::MNil)]);
                    lemma_queue_single((rs, MList::<A, M, P, H>::MNil), n);
                                    } else {
                    lemma_step(&j.rhs, c, n, rs);
                                    }
            } else {
                lemma_step(&j.lhs, c, n, rs);
                lemma_rewrap(step(&j.lhs, rs, n), j.rhs, n);
                            }
        },
    }
}

/// Every state of `q` is well formed.
pub open spec fn queue_wf<A, M, P: Fn(&Vec<A>, &A) -> bool, H: Hook<A, M, P>>(
    q: Seq<(Seq<A>, MList<A, M, P, H>)>,
    n: nat,
) -> bool {
    forall|i: int| 0 <= i < q.len() ==> list_wf_at(&(#[trigger] q[i]).1, q[i].0.len(), n)
}

/// Number of expansions that the depth-first search of the state `(rs, l)`
/// makes before it reaches the first environment; where the state leads to
/// none, the number that it takes to find that out.
pub open spec fn list_lead<A, M, P: Fn(&Vec<A>, &A) -> bool, H: Hook<A, M, P>>(
    l: &MList<A, M, P, H>,
    rs: Seq<A>,
    n: nat,
) -> nat
    decreases list_cost(l, rs, n), 0nat,
    when list_wf_at(l, rs.len(), n)
{
    if l is MNil {
        0
    } else {
        proof {
            lemma_step(l, rs.len(), n, rs);
        }
        1 + queue_lead(step(l, rs, n), n)
    }
}

/// Number of expansions that the depth-first search of the states of `q`,
/// the first one first, makes before it reaches the first environment.
pub open spec fn queue_lead<A, M, P: Fn(&Vec<A>, &A) -> bool, H: Hook<A, M, P>>(
    q: Seq<(Seq<A>, MList<A, M, P, H>)>,
    n: nat,
) -> nat
    decreases queue_cost(q, n), 1nat,
    when queue_wf(q, n)
{
    if q.len() == 0 {
        0
    } else {
        proof {
            lemma_queue_front(q, n);
            if !(q[0].1 is MNil) {
                lemma_step(&q[0].1, q[0].0.len(), n, q[0].0);
            }
        }
        if list_sols(&q[0].1, q[0].0, n).len() > 0 {
            list_lead(&q[0].1, q[0].0, n)
        } else {
            list_cost(&q[0].1, q[0].0, n) + queue_lead(q.skip(1), n)
        }
    }
}

/// A frontier node of the search: what has been bound so far, and the
/// obligations that are left.
pub struct MStateImpl<'a, A, M, P, H> {
    pub rs: Vec<A>,
    pub list: MList<'a, A, M, P, H>,
}

/// The states of `q` as pairs of bound values and obligations left.
pub open spec fn state_views<'a, A, M, P, H>(q: Seq<MStateImpl<'a, A, M, P, H>>) -> Seq<
    (Seq<A>, MList<'a, A, M, P, H>),
> {
    q.map_values(|s: MStateImpl<'a, A, M, P, H>| (s.rs@, s.list))
}

/// A copy of the obligation list `l`. Patterns are shared, matchers and
/// targets are copied.
pub(crate) fn dup_list<'a, A: Clone, M: Clone, P, H>(l: &MList<'a, A, M, P, H>) -> (r: MList<'a, A, M, P, H>)
    requires
        clone_exact::<A>(),
        clone_exact::<M>(),
    ensures
        r == *l,
    decreases l,
{
    match l {
        MList::MNil => MList::MNil,
        MList::MCons(c) => MList::MCons(
            Box::new(
                MConsImpl {
                    head: MAtomImpl {
                        pattern: c.head.pattern,
                        matcher: dup(&c.head.matcher),
                        target: dup(&c.head.target),
                    },
                    tail: dup_list(&c.tail),
                },
            ),
        ),
        MList::MJoin(j) => MList::MJoin(
            Box::new(MJoinImpl { lhs: dup_list(&j.lhs), rhs: dup_list(&j.rhs) }),
        ),
    }
}

/// The successors of the state `(rs, c)`, with the bound `n` on nested hook
/// expansions made explicit.
#[verifier::loop_isolation(false)]
fn cons_process_at<'a, A: Clone, M: Clone, P: Fn(&Vec<A>, &A) -> bool, H: Hook<A, M, P>>(
    c: &MConsImpl<'a, A, M, P, H>,
    rs: &Vec<A>,
    Ghost(n): Ghost<nat>,
) -> (out: VecDeque<MStateImpl<'a, A, M, P, H>>)
    requires
        clone_exact::<A>(),
        clone_exact::<M>(),
        list_wf_at(&MList::MCons(Box::new(*c)), rs@.len(), n),
    ensures
        state_views(out@) == step(&MList::MCons(Box::new(*c)), rs@, n),
{
    let mut out: VecDeque<MStateImpl<'a, A, M, P, H>> = VecDeque::new();
    match c.head.pattern {
        Pattern::Pattern(h, _) => {
            let list = h.expand(rs, &c.head.matcher, &c.head.target);
            proof {
                assert(call_ensures(H::expand, (h, rs, &c.head.matcher, &c.head.target), list));
                assert(hook_live(h, rs@, c.head.matcher, c.head.target));
                assert(pat_wf_at(c.head.pattern, rs@.len(), n));
                assert(hook_ok(h, rs@.len()));
                assert(list == hook_out(h, rs@, c.head.matcher, c.head.target));
            }
            let next = MStateImpl {
                rs: dup_env(rs),
                list: MList::MJoin(Box::new(MJoinImpl { lhs: list, rhs: dup_list(&c.tail) })),
            };
            out.push_back(next);
            assert(out@ =~= seq![next]);
            assert(state_views(out@) =~= seq![(next.rs@, next.list)]);
            assert(state_views(out@) =~= step(&MList::MCons(Box::new(*c)), rs@, n));
        },
        _ => {
            let bs = run_at(c.head.pattern, rs, &c.head.matcher, &c.head.target, Ghost(n));
            let mut i: usize = 0;
            assert(state_views(out@) =~= advance(views(bs).take(0), c.tail, rs@));
            while i < bs.len()
                invariant
                    i <= bs.len(),
                    state_views(out@) == advance(views(bs).take(i as int), c.tail, rs@),
                decreases bs.len() - i,
            {
                let b = &bs[i];
                let next = MStateImpl { rs: extend_env(rs, b), list: dup_list(&c.tail) };
                let ghost before = state_views(out@);
                out.push_back(next);
                assert(b@ == views(bs)[i as int]);
                assert(state_views(out@) =~= before.push((rs@ + b@, c.tail)));
                assert(advance(views(bs).take(i + 1), c.tail, rs@) =~= advance(
                    views(bs).take(i as int),
                    c.tail,
                    rs@,
                ).push((rs@ + b@, c.tail)));
                i += 1;
            }
            assert(views(bs).take(bs.len() as int) =~= views(bs));
        },
    }
    out
}

/// The successors of the state `(rs, j)`, with the bound `n` on nested hook
/// expansions made explicit.
#[verifier::loop_isolation(false)]
fn join_process_at<'a, A: Clone, M: Clone, P: Fn(&Vec<A>, &A) -> bool, H: Hook<A, M, P>>(
    j: &MJoinImpl<'a, A, M, P, H>,
    rs: &Vec<A>,
    Ghost(n): Ghost<nat>,
) -> (out: VecDeque<MStateImpl<'a, A, M, P, H>>)
    requires
        clone_exact::<A>(),
        clone_exact::<M>(),
        list_wf_at(&MList::MJoin(Box::new(*j)), rs@.len(), n),
    ensures
        state_views(out@) == step(&MList::MJoin(Box::new(*j)), rs@, n),
    decreases j,
{
    match &j.lhs {
        MList::MNil => match &j.rhs {
            MList::MNil => {
                let mut out: VecDeque<MStateImpl<'a, A, M, P, H>> = VecDeque::new();
                out.push_back(MStateImpl { rs: dup_env(rs), list: MList::MNil });
                assert(state_views(out@) =~= step(&MList::MJoin(Box::new(*j)), rs@, n));
                out
            },
            _ => list_process_at(&j.rhs, rs, Ghost(n)),
        },
        _ => {
            let mut inner = list_process_at(&j.lhs, rs, Ghost(n));
            let ghost all = inner@;
            let mut out: VecDeque<MStateImpl<'a, A, M, P, H>> = VecDeque::new();
            let total = inner.len();
            let mut i: usize = 0;
            assert(state_views(out@) =~= rewrap(state_views(all).take(0), j.rhs));
            assert(inner@ =~= all.skip(0));
            while i < total
                invariant
                    i <= total,
                    total == all.len(),
                    inner@ == all.skip(i as int),
                    state_views(out@) == rewrap(state_views(all).take(i as int), j.rhs),
                decreases total - i,
            {
                match inner.pop_front() {
                    Some(s) => {
                        assert(s == all[i as int]);
                        let next = MStateImpl {
                            rs: s.rs,
                            list: MList::MJoin(
                                Box::new(MJoinImpl { lhs: s.list, rhs: dup_list(&j.rhs) }),
                            ),
                        };
                        let ghost before = state_views(out@);
                        let ghost sv = (s.rs@, s.list);
                        let ghost wrapped = (
                            sv.0,
                            MList::MJoin(Box::new(MJoinImpl { lhs: sv.1, rhs: j.rhs })),
                        );
                        out.push_back(next);
                        assert(inner@ =~= all.skip(i + 1));
                        assert(state_views(all)[i as int] == sv);
                        assert(state_views(out@) =~= before.push(wrapped));
                        assert(rewrap(state_views(all).take(i + 1), j.rhs) =~= rewrap(
                            state_views(all).take(i as int),
                            j.rhs,
                        ).push(wrapped));
                    },
                    None => {},
                }
                i += 1;
            }
            assert(state_views(all).take(total as int) =~= state_views(all));
            out
        },
    }
}

/// The successors of the state `(rs, l)`, with the bound `n` on nested hook
/// expansions made explicit.
fn list_process_at<'a, A: Clone, M: Clone, P: Fn(&Vec<A>, &A) -> bool, H: Hook<A, M, P>>(
    l: &MList<'a, A, M, P, H>,
    rs: &Vec<A>,
    Ghost(n): Ghost<nat>,
) -> (out: VecDeque<MStateImpl<'a, A, M, P, H>>)
    requires
        clone_exact::<A>(),
        clone_exact::<M>(),
        list_wf_at(l, rs@.len(), n),
    ensures
        state_views(out@) == step(l, rs@, n),
    decreases l,
{
    match l {
        MList::MNil => {
            let out: VecDeque<MStateImpl<'a, A, M, P, H>> = VecDeque::new();
            assert(state_views(out@) =~= step(l, rs@, n));
            out
        },
        MList::MCons(c) => cons_process_at(c, rs, Ghost(n)),
        MList::MJoin(j) => join_process_at(j, rs, Ghost(n)),
    }
}

impl<'a, A, M, P: Fn(&Vec<A>, &A) -> bool, H: Hook<A, M, P>> MList<'a, A, M, P, H> {
    /// The successors of the state `(rs, self)`, in the order in which the
    /// search takes them up.
    pub open spec fn successors(&self, rs: Seq<A>) -> Seq<(Seq<A>, MList<'a, A, M, P, H>)> {
        step(self, rs, self.rank(rs.len()))
    }

    /// The number of expansions that the depth-first search of the state
    /// `(rs, self)` makes before it reaches the first environment.
    pub open spec fn lead(&self, rs: Seq<A>) -> nat {
        list_lead(self, rs, self.rank(rs.len()))
    }
}

/// The successors of a well-formed state do not depend on the bound on
/// nested hook expansions under which it is well formed.
pub proof fn lemma_step_rank<A, M, P: Fn(&Vec<A>, &A) -> bool, H: Hook<A, M, P>>(
    l: &MList<A, M, P, H>,
    c: nat,
    n: nat,
    n2: nat,
    rs: Seq<A>,
)
    requires
        list_wf_at(l, c, n),
        list_wf_at(l, c, n2),
        rs.len() == c,
    ensures
        step(l, rs, n) == step(l, rs, n2),
    decreases l,
{
    match l {
        MList::MNil => {},
        MList::MCons(cell) => {
            let hd = cell.head;
            lemma_pat_rank(hd.pattern, c, n, n2, rs, hd.matcher, hd.target);
        },
        MList::MJoin(j) => {
            if j.lhs is MNil {
                if !(j.rhs is MNil) {
                    lemma_step_rank(&j.rhs, c, n, n2, rs);
                }
            } else {
                lemma_step_rank(&j.lhs, c, n, n2, rs);
            }
        },
    }
}

/// The lead of a well-formed state does not depend on the bound on nested
/// hook expansions under which it is well formed.
pub proof fn lemma_lead_rank<A, M, P: Fn(&Vec<A>, &A) -> bool, H: Hook<A, M, P>>(
    l: &MList<A, M, P, H>,
    c: nat,
    n: nat,
    n2: nat,
    rs: Seq<A>,
)
    requires
        list_wf_at(l, c, n),
        list_wf_at(l, c, n2),
        rs.len() == c,
    ensures
        list_lead(l, rs, n) == list_lead(l, rs, n2),
    decreases list_cost(l, rs, n), 0nat,
{
    if !(l is MNil) {
        lemma_step(l, c, n, rs);
        lemma_step(l, c, n2, rs);
        lemma_step_rank(l, c, n, n2, rs);
        lemma_queue_lead_rank(step(l, rs, n), n, n2);
    }
}

proof fn lemma_queue_lead_rank<A, M, P: Fn(&Vec<A>, &A) -> bool, H: Hook<A, M, P>>(
    q: Seq<(Seq<A>, MList<A, M, P, H>)>,
    n: nat,
    n2: nat,
)
    requires
        queue_wf(q, n),
        queue_wf(q, n2),
    ensures
        queue_lead(q, n) == queue_lead(q, n2),
    decreases queue_cost(q, n), 1nat,
{
    if q.len() > 0 {
        let s = q[0];
        lemma_queue_front(q, n);
        assert(list_wf_at(&s.1, s.0.len(), n));
        assert(list_wf_at(&s.1, s.0.len(), n2));
        lemma_list_rank(&s.1, s.0.len(), n, n2, s.0);
        lemma_cost_rank(&s.1, s.0.len(), n, n2, s.0);
        if !(s.1 is MNil) {
            lemma_step(&s.1, s.0.len(), n, s.0);
        }
        if list_sols(&s.1, s.0, n).len() > 0 {
            lemma_lead_rank(&s.1, s.0.len(), n, n2, s.0);
        } else {
            assert forall|i: int| 0 <= i < q.skip(1).len() implies list_wf_at(
                &(#[trigger] q.skip(1)[i]).1,
                q.skip(1)[i].0.len(),
                n,
            ) && list_wf_at(&q.skip(1)[i].1, q.skip(1)[i].0.len(), n2) by {
                assert(q.skip(1)[i] == q[i + 1]);
            }
            lemma_queue_lead_rank(q.skip(1), n, n2);
        }
    }
}

/// The sequences of `parts`, one after the other.
pub open spec fn concat_all<E>(parts: Seq<Seq<E>>) -> Seq<E>
    decreases parts.len(),
{
    if parts.len() == 0 {
        Seq::empty()
    } else {
        parts[0] + concat_all(parts.skip(1))
    }
}

/// The sum of the numbers of `parts`.
pub open spec fn sum_all(parts: Seq<nat>) -> nat
    decreases parts.len(),
{
    if parts.len() == 0 {
        0
    } else {
        parts[0] + sum_all(parts.skip(1))
    }
}

/// Over parts of the form (has a solution, lead, cost), in order: the lead
/// of the first part that has a solution, plus the cost of every part
/// before it; the cost of all parts where none has a solution.
pub open spec fn lead_all(parts: Seq<(bool, nat, nat)>) -> nat
    decreases parts.len(),
{
    if parts.len() == 0 {
        0
    } else if parts[0].0 {
        parts[0].1
    } else {
        parts[0].2 + lead_all(parts.skip(1))
    }
}

/// A node of a search: it is either finished and yields one environment, or
/// it can be expanded into the nodes that follow it.
pub trait MState<Vs: View>: Sized {
    /// The invariant of the node.
    spec fn wf(&self) -> bool;

    /// The environments that the node leads to, in depth-first order.
    spec fn solutions(&self) -> Seq<Vs::V>;

    /// The number of expansions that searching the node to the end takes. It
    /// is zero exactly for a finished node.
    spec fn cost(&self) -> nat;

    /// The number of expansions that the depth-first search of the node
    /// makes before it reaches the first environment; the cost where the
    /// node leads to none.
    spec fn lead(&self) -> nat;

    /// The environment of a finished node; `None` for any other.
    fn decompose_if_nil(&self) -> (r: Option<Vs>)
        requires
            self.wf(),
        ensures
            r is Some <==> self.cost() == 0,
            r matches Some(e) ==> self.solutions() == seq![e@] && self.lead() == 0,
    ;

    /// The successors of a node that is not finished.
    fn process(&self) -> (out: VecDeque<Self>)
        requires
            self.wf(),
            self.cost() > 0,
        ensures
            forall|i: int| 0 <= i < out@.len() ==> (#[trigger] out@[i]).wf(),
            concat_all(out@.map_values(|s: Self| s.solutions())) == self.solutions(),
            sum_all(out@.map_values(|s: Self| s.cost())) + 1 == self.cost(),
            lead_all(out@.map_values(|s: Self| (s.solutions().len() > 0, s.lead(), s.cost()))) + 1
                == self.lead(),
    ;
}

/// Every node of `q` meets its invariant.
pub open spec fn frontier_wf<Vs: View, S: MState<Vs>>(q: Seq<S>) -> bool {
    forall|i: int| 0 <= i < q.len() ==> (#[trigger] q[i]).wf()
}

/// What the nodes of `q` lead to, one node after the other.
pub open spec fn frontier_solutions<Vs: View, S: MState<Vs>>(q: Seq<S>) -> Seq<Vs::V> {
    concat_all(q.map_values(|s: S| s.solutions()))
}

/// The number of expansions that searching all nodes of `q` to the end takes.
pub open spec fn frontier_cost<Vs: View, S: MState<Vs>>(q: Seq<S>) -> nat {
    sum_all(q.map_values(|s: S| s.cost()))
}

/// The number of expansions that the depth-first search of the nodes of
/// `q`, the first one first, makes before it reaches the first environment.
pub open spec fn frontier_lead<Vs: View, S: MState<Vs>>(q: Seq<S>) -> nat {
    lead_all(q.map_values(|s: S| (s.solutions().len() > 0, s.lead(), s.cost())))
}

/// The first node of a frontier comes first.
pub proof fn lemma_frontier_unfold<Vs: View, S: MState<Vs>>(q: Seq<S>)
    ensures
        q.len() == 0 ==> frontier_solutions(q) == Seq::<Vs::V>::empty() && frontier_cost(q) == 0
            && frontier_lead(q) == 0,
        q.len() > 0 ==> frontier_solutions(q) == q[0].solutions() + frontier_solutions(q.skip(1))
            && frontier_cost(q) == q[0].cost() + frontier_cost(q.skip(1)) && frontier_lead(q)
            == if q[0].solutions().len() > 0 {
            q[0].lead()
        } else {
            q[0].cost() + frontier_lead(q.skip(1))
        },
{
    if q.len() > 0 {
        assert(q.map_values(|s: S| (s.solutions().len() > 0, s.lead(), s.cost())).skip(1)
            =~= q.skip(1).map_values(|s: S| (s.solutions().len() > 0, s.lead(), s.cost())));
        assert(q.map_values(|s: S| s.solutions()).skip(1) =~= q.skip(1).map_values(
            |s: S| s.solutions(),
        ));
        assert(q.map_values(|s: S| s.cost()).skip(1) =~= q.skip(1).map_values(|s: S| s.cost()));
    }
}

/// Solutions and cost of a frontier add up over concatenation.
pub proof fn lemma_frontier_concat<Vs: View, S: MState<Vs>>(x: Seq<S>, y: Seq<S>)
    ensures
        frontier_solutions(x + y) == frontier_solutions(x) + frontier_solutions(y),
        frontier_cost(x + y) == frontier_cost(x) + frontier_cost(y),
    decreases x.len(),
{
    lemma_frontier_unfold(x);
    lemma_frontier_unfold(x + y);
    if x.len() == 0 {
        assert(x + y =~= y);
        assert(frontier_solutions(x) + frontier_solutions(y) =~= frontier_solutions(y));
    } else {
        lemma_frontier_concat(x.skip(1), y);
        assert((x + y).skip(1) =~= x.skip(1) + y);
        assert(frontier_solutions(x + y) =~= frontier_solutions(x) + frontier_solutions(y));
    }
}

/// The search of a frontier `x + y` reaches its first environment within
/// `x` where `x` leads to one, and else after all of `x` within `y`.
pub proof fn lemma_frontier_lead_concat<Vs: View, S: MState<Vs>>(x: Seq<S>, y: Seq<S>)
    ensures
        frontier_lead(x + y) == if frontier_solutions(x).len() > 0 {
            frontier_lead(x)
        } else {
            frontier_cost(x) + frontier_lead(y)
        },
    decreases x.len(),
{
    lemma_frontier_unfold(x);
    lemma_frontier_unfold(x + y);
    if x.len() == 0 {
        assert(x + y =~= y);
    } else {
        lemma_frontier_lead_concat(x.skip(1), y);
        assert((x + y).skip(1) =~= x.skip(1) + y);
    }
}

/// The first state of a row comes first.
pub proof fn lemma_queue_front<A, M, P: Fn(&Vec<A>, &A) -> bool, H: Hook<A, M, P>>(
    q: Seq<(Seq<A>, MList<A, M, P, H>)>,
    n: nat,
)
    requires
        q.len() > 0,
    ensures
        queue_sols(q, n) == list_sols(&q[0].1, q[0].0, n) + queue_sols(q.skip(1), n),
        queue_cost(q, n) == list_cost(&q[0].1, q[0].0, n) + queue_cost(q.skip(1), n),
    decreases q.len(),
{
    if q.len() == 1 {
        assert(q =~= seq![q[0]]);
        lemma_queue_single(q[0], n);
        assert(queue_sols(q.skip(1), n) =~= Seq::empty());
        assert(queue_sols(q, n) =~= list_sols(&q[0].1, q[0].0, n) + queue_sols(q.skip(1), n));
    } else {
        lemma_queue_front(q.drop_last(), n);
        assert(q.drop_last().skip(1) =~= q.skip(1).drop_last());
        assert(q.skip(1).last() == q.last());
        assert(q.drop_last()[0] == q[0]);
        assert(queue_sols(q, n) =~= list_sols(&q[0].1, q[0].0, n) + queue_sols(q.skip(1), n));
    }
}

/// An obligation followed by a list, as the search resolves it.
pub trait MCons<'a, A: Clone, M: Clone, P: Fn(&Vec<A>, &A) -> bool, H: Hook<A, M, P>>: Sized {
    /// The obligation list that the cell is.
    spec fn as_list(&self) -> MList<'a, A, M, P, H>;

    /// Resolves the head obligation behind the environment `rs`. A head
    /// that is an extension hands its target to the hook and leaves one
    /// state, with the hook's obligations joined before the tail; any other
    /// head leaves one state for each environment `b` that its pattern
    /// contributes, in order: `rs` followed by `b`, with the tail left.
    fn process(&self, rs: &Vec<A>) -> (out: VecDeque<MStateImpl<'a, A, M, P, H>>)
        requires
            clone_exact::<A>(),
            clone_exact::<M>(),
            self.as_list().wf(rs@.len()),
        ensures
            state_views(out@) == self.as_list().successors(rs@),
    ;
}

impl<'a, A: Clone, M: Clone, P: Fn(&Vec<A>, &A) -> bool, H: Hook<A, M, P>> MCons<
    'a,
    A,
    M,
    P,
    H,
> for MConsImpl<'a, A, M, P, H> {
    open spec fn as_list(&self) -> MList<'a, A, M, P, H> {
        MList::MCons(Box::new(*self))
    }

    fn process(&self, rs: &Vec<A>) -> (out: VecDeque<MStateImpl<'a, A, M, P, H>>) {
        let ghost n = MList::MCons(Box::new(*self)).rank(rs@.len());
        cons_process_at(self, rs, Ghost(n))
    }
}

/// Two obligation lists in sequence, as the search resolves them.
pub trait MJoin<'a, A: Clone, M: Clone, P: Fn(&Vec<A>, &A) -> bool, H: Hook<A, M, P>>: Sized {
    /// The obligation list that the join is.
    spec fn as_list(&self) -> MList<'a, A, M, P, H>;

    /// Resolves one step of the join behind the environment `rs`. With
    /// obligations on the left, it takes the step of the left side and keeps
    /// the right side joined behind each state that results. With none on
    /// the left, it takes the step of the right side; where that has none
    /// either, it leaves the finished state.
    fn process(&self, rs: &Vec<A>) -> (out: VecDeque<MStateImpl<'a, A, M, P, H>>)
        requires
            clone_exact::<A>(),
            clone_exact::<M>(),
            self.as_list().wf(rs@.len()),
        ensures
            state_views(out@) == self.as_list().successors(rs@),
    ;
}

impl<'a, A: Clone, M: Clone, P: Fn(&Vec<A>, &A) -> bool, H: Hook<A, M, P>> MJoin<
    'a,
    A,
    M,
    P,
    H,
> for MJoinImpl<'a, A, M, P, H> {
    open spec fn as_list(&self) -> MList<'a, A, M, P, H> {
        MList::MJoin(Box::new(*self))
    }

    fn process(&self, rs: &Vec<A>) -> (out: VecDeque<MStateImpl<'a, A, M, P, H>>) {
        let ghost n = MList::MJoin(Box::new(*self)).rank(rs@.len());
        join_process_at(self, rs, Ghost(n))
    }
}

/// The invariant of a search state: copies of its values are exact, and
/// its obligations are well formed behind what it has bound.
pub open spec fn state_wf<'a, A: Clone, M: Clone, P: Fn(&Vec<A>, &A) -> bool, H: Hook<A, M, P>>(
    s: MStateImpl<'a, A, M, P, H>,
) -> bool {
    &&& clone_exact::<A>()
    &&& clone_exact::<M>()
    &&& s.list.wf(s.rs@.len())
}

/// The complete environments that a search state leads to.
pub open spec fn state_sols<'a, A, M, P: Fn(&Vec<A>, &A) -> bool, H: Hook<A, M, P>>(
    s: MStateImpl<'a, A, M, P, H>,
) -> Seq<Seq<A>> {
    s.list.solutions(s.rs@)
}

/// The number of expansions that searching a state to the end takes.
pub open spec fn state_cost<'a, A, M, P: Fn(&Vec<A>, &A) -> bool, H: Hook<A, M, P>>(
    s: MStateImpl<'a, A, M, P, H>,
) -> nat {
    s.list.cost(s.rs@)
}

/// The number of expansions that the search of a state makes before it
/// reaches the first environment.
pub open spec fn state_lead<'a, A, M, P: Fn(&Vec<A>, &A) -> bool, H: Hook<A, M, P>>(
    s: MStateImpl<'a, A, M, P, H>,
) -> nat {
    s.list.lead(s.rs@)
}

/// The solutions, the cost and the lead of a row of search states are those
/// of its views under any bound that makes every state well formed.
pub proof fn lemma_states<'a, A: Clone, M: Clone, P: Fn(&Vec<A>, &A) -> bool, H: Hook<A, M, P>>(
    q: Seq<MStateImpl<'a, A, M, P, H>>,
    n: nat,
    total: nat,
)
    requires
        clone_exact::<A>(),
        clone_exact::<M>(),
        queue_ok(state_views(q), n, total),
    ensures
        forall|i: int| 0 <= i < q.len() ==> state_wf(#[trigger] q[i]),
        concat_all(q.map_values(|s: MStateImpl<'a, A, M, P, H>| state_sols(s))) == queue_sols(
            state_views(q),
            n,
        ),
        sum_all(q.map_values(|s: MStateImpl<'a, A, M, P, H>| state_cost(s))) == queue_cost(
            state_views(q),
            n,
        ),
        lead_all(
            q.map_values(
                |s: MStateImpl<'a, A, M, P, H>|
                    (state_sols(s).len() > 0, state_lead(s), state_cost(s)),
            ),
        ) == queue_lead(state_views(q), n),
    decreases q.len(),
{
    let v = state_views(q);
    assert(queue_wf(v, n));
    assert forall|i: int| 0 <= i < q.len() implies state_wf(#[trigger] q[i]) by {
        assert(list_wf_at(&v[i].1, v[i].0.len(), n));
    }
    if q.len() > 0 {
        assert(state_views(q.skip(1)) =~= v.skip(1));
        assert forall|i: int| 0 <= i < v.skip(1).len() implies list_wf_at(
            &(#[trigger] v.skip(1)[i]).1,
            v.skip(1)[i].0.len(),
            n,
        ) && v.skip(1)[i].0.len() + list_arity(&v.skip(1)[i].1) == total by {
            assert(v.skip(1)[i] == v[i + 1]);
        }
        lemma_states(q.skip(1), n, total);
        lemma_queue_front(v, n);
        let s = q[0];
        assert(list_wf_at(&v[0].1, v[0].0.len(), n));
        let r = s.list.rank(s.rs@.len());
        lemma_list_rank(&s.list, s.rs@.len(), r, n, s.rs@);
        lemma_cost_rank(&s.list, s.rs@.len(), r, n, s.rs@);
        lemma_lead_rank(&s.list, s.rs@.len(), r, n, s.rs@);
        assert(q.map_values(
            |s: MStateImpl<'a, A, M, P, H>| (state_sols(s).len() > 0, state_lead(s), state_cost(s)),
        ).skip(1) =~= q.skip(1).map_values(
            |s: MStateImpl<'a, A, M, P, H>| (state_sols(s).len() > 0, state_lead(s), state_cost(s)),
        ));
        assert(q.map_values(|s: MStateImpl<'a, A, M, P, H>| state_sols(s)).skip(1) =~= q.skip(
            1,
        ).map_values(|s: MStateImpl<'a, A, M, P, H>| state_sols(s)));
        assert(q.map_values(|s: MStateImpl<'a, A, M, P, H>| state_cost(s)).skip(1) =~= q.skip(
            1,
        ).map_values(|s: MStateImpl<'a, A, M, P, H>| state_cost(s)));
    }
}

/// The list of the single obligation `(pattern, matcher, target)`.
pub open spec fn seed_list<'a, A, M, P, H>(
    pattern: &'a Pattern<A, M, P, H>,
    matcher: M,
    target: A,
) -> MList<'a, A, M, P, H> {
    MList::MCons(
        Box::new(MConsImpl { head: MAtomImpl { pattern, matcher, target }, tail: MList::MNil }),
    )
}

proof fn lemma_cons_nil<A, M, P: Fn(&Vec<A>, &A) -> bool, H: Hook<A, M, P>>(bs: Seq<Seq<A>>, n: nat)
    ensures
        cons_sols(bs, &MList::<A, M, P, H>::MNil, Seq::empty(), n) == bs,
    decreases bs.len(),
{
    let nil = MList::<A, M, P, H>::MNil;
    if bs.len() == 0 {
        assert(cons_sols(bs, &nil, Seq::empty(), n) =~= bs);
    } else {
        lemma_cons_nil::<A, M, P, H>(bs.drop_last(), n);
        assert(Seq::<A>::empty() + bs.last() =~= bs.last());
        assert(list_sols(&nil, bs.last(), n) == seq![bs.last()]);
        assert(cons_sols(bs, &nil, Seq::empty(), n) =~= bs);
    }
}

/// A pattern that is well formed with nothing bound makes a well-formed
/// single obligation, which leads to exactly the environments that the
/// pattern contributes.
pub proof fn lemma_seed<A, M, P: Fn(&Vec<A>, &A) -> bool, H: Hook<A, M, P>>(
    pattern: &Pattern<A, M, P, H>,
    matcher: M,
    target: A,
)
    requires
        pattern.wf(0),
    ensures
        seed_list(pattern, matcher, target).wf(0),
        seed_list(pattern, matcher, target).solutions(Seq::empty()) == pattern.solutions(
            Seq::empty(),
            matcher,
            target,
        ),
{
    let l = seed_list(pattern, matcher, target);
    let n = pattern.rank(0);
    let e = Seq::<A>::empty();
    assert(list_wf_at(&l.arrow_MCons_0().tail, 0 + pat_arity(pattern), n));
    assert(list_wf_at(&l, 0, n));
    let r = l.rank(0);
    lemma_list_rank(&l, 0, r, n, e);
    let bs = pat_sols(pattern, e, matcher, target, n);
    assert(list_sols(&l, e, n) == cons_sols(bs, &MList::<A, M, P, H>::MNil, e, n));
    lemma_cons_nil::<A, M, P, H>(bs, n);
}

impl<'a, A: Clone, M: Clone, P: Fn(&Vec<A>, &A) -> bool, H: Hook<A, M, P>> MStateImpl<'a, A, M, P, H> {
    /// The initial state of a clause: nothing is bound, and `target` is
    /// still to be matched by `pattern` under `matcher`.
    pub fn seed(pattern: &'a Pattern<A, M, P, H>, matcher: M, target: A) -> (s: Self)
        requires
            clone_exact::<A>(),
            clone_exact::<M>(),
            pattern.wf(0),
        ensures
            s.rs@ == Seq::<A>::empty(),
            s.list == seed_list(pattern, matcher, target),
            state_wf(s),
            state_sols(s) == pattern.solutions(Seq::empty(), matcher, target),
    {
        proof {
            lemma_seed(pattern, matcher, target);
        }
        MStateImpl {
            rs: Vec::new(),
            list: MList::MCons(
                Box::new(
                    MConsImpl { head: MAtomImpl { pattern, matcher, target }, tail: MList::MNil },
                ),
            ),
        }
    }
}

impl<'a, A: Clone, M: Clone, P: Fn(&Vec<A>, &A) -> bool, H: Hook<A, M, P>> MState<
    Vec<A>,
> for MStateImpl<'a, A, M, P, H> {
    open spec fn wf(&self) -> bool {
        state_wf(*self)
    }

    open spec fn solutions(&self) -> Seq<Seq<A>> {
        state_sols(*self)
    }

    open spec fn cost(&self) -> nat {
        state_cost(*self)
    }

    open spec fn lead(&self) -> nat {
        state_lead(*self)
    }

    fn decompose_if_nil(&self) -> (r: Option<Vec<A>>)
        ensures
            self.list is MNil ==> r is Some && r->0@ == self.rs@,
            !(self.list is MNil) ==> r is None,
    {
        proof {
            if !(self.list is MNil) {
                lemma_step(&self.list, self.rs@.len(), self.list.rank(self.rs@.len()), self.rs@);
            }
        }
        match self.list {
            MList::MNil => Some(dup_env(&self.rs)),
            _ => None,
        }
    }

    fn process(&self) -> (out: VecDeque<Self>)
        ensures
            state_views(out@) == self.list.successors(self.rs@),
    {
        let ghost n = self.list.rank(self.rs@.len());
        let out = list_process_at(&self.list, &self.rs, Ghost(n));
        proof {
            lemma_step(&self.list, self.rs@.len(), n, self.rs@);
            lemma_states(out@, n, self.rs@.len() + list_arity(&self.list));
            assert(out@.map_values(|s: Self| s.solutions()) =~= out@.map_values(
                |s: MStateImpl<'a, A, M, P, H>| state_sols(s),
            ));
            assert(out@.map_values(|s: Self| s.cost()) =~= out@.map_values(
                |s: MStateImpl<'a, A, M, P, H>| state_cost(s),
            ));
            assert(out@.map_values(|s: Self| (s.solutions().len() > 0, s.lead(), s.cost()))
                =~= out@.map_values(
                |s: MStateImpl<'a, A, M, P, H>|
                    (state_sols(s).len() > 0, state_lead(s), state_cost(s)),
            ));
        }
        out
    }
}

} // verus!
