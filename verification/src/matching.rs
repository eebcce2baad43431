//! The lazy depth-first enumerator, and the clause driver built on it.

use crate::env::{clone_exact, dup};
use crate::pattern::{Hook, Pattern};
use crate::semantics::{all_len, lemma_pat_shape, pat_arity};
use crate::state::{
    frontier_cost, frontier_lead, frontier_solutions, frontier_wf, lemma_frontier_concat,
    lemma_frontier_lead_concat, lemma_frontier_unfold, MState, MStateImpl,
};
use core::marker::PhantomData;
use std::collections::VecDeque;
use vstd::prelude::*;

verus! {

/// A pull-driven sequence of solutions: a work queue of search nodes that is
/// advanced only as far as the next solution needs.
pub struct Enumerator<Vs, S> {
    queue: VecDeque<S>,
    count: usize,
    exact: Ghost<nat>,
    env: PhantomData<Vs>,
}

impl<Vs: View, S: MState<Vs>> Enumerator<Vs, S> {
    /// Every queued node meets its invariant and the counter is in step.
    pub closed spec fn wf(&self) -> bool {
        &&& frontier_wf(self.queue@)
        &&& self.count == if self.exact@ <= usize::MAX {
            self.exact@
        } else {
            usize::MAX as nat
        }
    }

    /// The nodes that are queued, the next one first.
    pub closed spec fn frontier(&self) -> Seq<S> {
        self.queue@
    }

    /// The solutions that are still to come, in order.
    pub open spec fn remaining(&self) -> Seq<Vs::V> {
        frontier_solutions(self.frontier())
    }

    /// The number of expansions that lie between the enumerator and its
    /// next solution; where no solution is left, the number that it takes to
    /// exhaust the search.
    pub open spec fn lead(&self) -> nat {
        frontier_lead(self.frontier())
    }

    /// The number of expansions made so far.
    pub closed spec fn expanded(&self) -> nat {
        self.exact@
    }

    /// An enumerator over the given nodes, the first to be searched first.
    pub fn new(states: VecDeque<S>) -> (r: Self)
        requires
            frontier_wf(states@),
        ensures
            r.wf(),
            r.frontier() == states@,
            r.expanded() == 0,
    {
        Enumerator { queue: states, count: 0, exact: Ghost(0), env: PhantomData }
    }

    /// The number of expansions made so far; it stops at `usize::MAX`.
    pub fn expansions(&self) -> (r: usize)
        requires
            self.wf(),
        ensures
            r == if self.expanded() <= usize::MAX {
                self.expanded()
            } else {
                usize::MAX as nat
            },
    {
        self.count
    }

    /// The next solution, or `None` when the search is exhausted. Finished
    /// nodes are emitted, others are replaced by their successors, which go
    /// ahead of the rest of the queue.
    pub fn next(&mut self) -> (r: Option<Vs>)
        requires
            old(self).wf(),
        ensures
            final(self).wf(),
            match r {
                Some(e) => {
                    &&& old(self).remaining().len() > 0
                    &&& e@ == old(self).remaining()[0]
                    &&& final(self).remaining() == old(self).remaining().skip(1)
                },
                None => {
                    &&& old(self).remaining().len() == 0
                    &&& final(self).frontier().len() == 0
                    &&& final(self).expanded() == old(self).expanded() + frontier_cost(
                        old(self).frontier(),
                    )
                },
            },
            final(self).expanded() + frontier_cost(final(self).frontier()) == old(self).expanded()
                + frontier_cost(old(self).frontier()),
            final(self).expanded() == old(self).expanded() + old(self).lead(),
    {
        loop
            invariant
                self.wf(),
                self.remaining() == old(self).remaining(),
                self.expanded() + frontier_cost(self.frontier()) == old(self).expanded()
                    + frontier_cost(old(self).frontier()),
                self.expanded() + self.lead() == old(self).expanded() + old(self).lead(),
            decreases frontier_cost(self.queue@),
        {
            let ghost q0 = self.queue@;
            proof {
                lemma_frontier_unfold(q0);
            }
            match self.queue.pop_front() {
                None => {
                    return None;
                },
                Some(s) => {
                    assert(self.queue@ =~= q0.skip(1));
                    assert(s == q0[0]);
                    assert(s.wf());
                    assert forall|i: int| 0 <= i < self.queue@.len() implies (
                    #[trigger] self.queue@[i]).wf() by {
                        assert(self.queue@[i] == q0[i + 1]);
                    }
                    match s.decompose_if_nil() {
                        Some(e) => {
                            proof {
                                let rest = frontier_solutions(q0.skip(1));
                                assert((seq![e@] + rest).skip(1) =~= rest);
                            }
                            return Some(e);
                        },
                        None => {
                            let mut succ = s.process();
                            let ghost fresh = succ@;
                            succ.append(&mut self.queue);
                            self.queue = succ;
                            if self.count < usize::MAX {
                                self.count = self.count + 1;
                            }
                            proof {
                                self.exact@ = self.exact@ + 1;
                                lemma_frontier_concat(fresh, q0.skip(1));
                                lemma_frontier_lead_concat(fresh, q0.skip(1));
                                assert(self.queue@ =~= fresh + q0.skip(1));
                                assert forall|i: int| 0 <= i < self.queue@.len() implies (
                                #[trigger] self.queue@[i]).wf() by {
                                    if i < fresh.len() {
                                        assert(self.queue@[i] == fresh[i]);
                                    } else {
                                        assert(self.queue@[i] == q0[i - fresh.len() + 1]);
                                    }
                                }
                            }
                        },
                    }
                },
            }
        }
    }
}

/// The environments held by `v`, by their views.
pub open spec fn env_views<Vs: View>(v: Seq<Vs>) -> Seq<Vs::V> {
    v.map_values(|e: Vs| e@)
}

/// Searches the given nodes depth first, the first node first, and returns
/// every solution in the order in which it is found.
pub fn process_mstate_all_dfs<Vs: View, S: MState<Vs>>(mstates: VecDeque<S>) -> (out: VecDeque<Vs>)
    requires
        frontier_wf(mstates@),
    ensures
        env_views(out@) == frontier_solutions(mstates@),
{
    let mut search: Enumerator<Vs, S> = Enumerator::new(mstates);
    let mut out: VecDeque<Vs> = VecDeque::new();
    let ghost all = search.remaining();
    assert(env_views(out@) =~= all.take(0));
    assert(all.skip(0) =~= all);
    loop
        invariant
            search.wf(),
            all == frontier_solutions(mstates@),
            out@.len() <= all.len(),
            env_views(out@) == all.take(out@.len() as int),
            search.remaining() == all.skip(out@.len() as int),
        decreases search.remaining().len(),
    {
        let ghost done = out@.len() as int;
        match search.next() {
            Some(e) => {
                let ghost before = env_views(out@);
                out.push_back(e);
                assert(env_views(out@) =~= before.push(e@));
                assert(all.take(done + 1) =~= all.take(done).push(all.skip(done)[0]));
                assert(all.skip(done).skip(1) =~= all.skip(done + 1));
            },
            None => {
                assert(all.take(done) =~= all);
                return out;
            },
        }
    }
}

/// A clause of a match: a pattern, and what to make of each environment
/// that the pattern produces.
pub trait MatchClause<A, M, P, H, B>: Sized {
    /// The pattern of the clause.
    spec fn clause_pattern(&self) -> Pattern<A, M, P, H>;

    /// The clause can take the environment `env`.
    spec fn accepts(&self, env: Seq<A>) -> bool;

    /// `b` is what the clause can make of the environment `env`.
    spec fn yields(&self, env: Seq<A>, b: B) -> bool;

    /// The pattern of the clause.
    fn pattern(&self) -> (p: &Pattern<A, M, P, H>)
        ensures
            *p == self.clause_pattern(),
    ;

    /// What the clause makes of the environment `env`.
    fn apply(&self, env: Vec<A>) -> (b: B)
        requires
            self.accepts(env@),
        ensures
            self.yields(env@, b),
    ;
}

/// A clause made of a pattern and a function from environments to results.
pub struct MatchClauseImpl<A, M, P, H, F> {
    pub pattern: Pattern<A, M, P, H>,
    pub processor: F,
}

impl<A, M, P, H, B, F: Fn(Vec<A>) -> B> MatchClause<A, M, P, H, B> for MatchClauseImpl<A, M, P, H, F> {
    open spec fn clause_pattern(&self) -> Pattern<A, M, P, H> {
        self.pattern
    }

    open spec fn accepts(&self, env: Seq<A>) -> bool {
        forall|v: Vec<A>| v@ == env ==> #[trigger] call_requires(self.processor, (v,))
    }

    open spec fn yields(&self, env: Seq<A>, b: B) -> bool {
        exists|v: Vec<A>| v@ == env && #[trigger] call_ensures(self.processor, (v,), b)
    }

    fn pattern(&self) -> (p: &Pattern<A, M, P, H>) {
        &self.pattern
    }

    fn apply(&self, env: Vec<A>) -> (b: B) {
        (self.processor)(env)
    }
}

/// `out` holds, clause by clause in order, one result for each environment
/// that the clause's pattern produces for `target`, in the order of the
/// environments.
pub open spec fn clause_outputs<
    A,
    M,
    P: Fn(&Vec<A>, &A) -> bool,
    H: Hook<A, M, P>,
    B,
    C: MatchClause<A, M, P, H, B>,
>(cs: Seq<C>, matcher: M, target: A, out: Seq<B>) -> bool
    decreases cs.len(),
{
    if cs.len() == 0 {
        out.len() == 0
    } else {
        let sols = cs.last().clause_pattern().solutions(Seq::empty(), matcher, target);
        let base = out.len() - sols.len();
        &&& base >= 0
        &&& forall|j: int| 0 <= j < sols.len() ==> cs.last().yields(sols[j], #[trigger] out[base + j])
        &&& clause_outputs(cs.drop_last(), matcher, target, out.take(base))
    }
}

/// Every clause has a well-formed pattern and takes every environment of
/// its pattern's number of slots.
pub open spec fn clauses_ok<
    A,
    M,
    P: Fn(&Vec<A>, &A) -> bool,
    H: Hook<A, M, P>,
    B,
    C: MatchClause<A, M, P, H, B>,
>(cs: Seq<C>) -> bool {
    forall|i: int|
        0 <= i < cs.len() ==> {
            &&& (#[trigger] cs[i]).clause_pattern().wf(0)
            &&& forall|env: Seq<A>|
                env.len() == pat_arity(&cs[i].clause_pattern()) ==> #[trigger] cs[i].accepts(env)
        }
}

/// Appends to `out`, for each environment that the pattern of `clause`
/// produces for `target`, in order, what the clause makes of it.
fn run_clause<
    A: Clone,
    M: Clone,
    P: Fn(&Vec<A>, &A) -> bool,
    H: Hook<A, M, P>,
    B,
    C: MatchClause<A, M, P, H, B>,
>(clause: &C, target: &A, matcher: &M, out: &mut VecDeque<B>)
    requires
        clone_exact::<A>(),
        clone_exact::<M>(),
        clause.clause_pattern().wf(0),
        forall|env: Seq<A>|
            env.len() == pat_arity(&clause.clause_pattern()) ==> #[trigger] clause.accepts(env),
    ensures
        final(out)@.len() == old(out)@.len() + clause.clause_pattern().solutions(
            Seq::empty(),
            *matcher,
            *target,
        ).len(),
        final(out)@.take(old(out)@.len() as int) == old(out)@,
        forall|j: int|
            0 <= j < clause.clause_pattern().solutions(Seq::empty(), *matcher, *target).len()
                ==> clause.yields(
                clause.clause_pattern().solutions(Seq::empty(), *matcher, *target)[j],
                #[trigger] final(out)@[old(out)@.len() + j],
            ),
{
    let pattern = clause.pattern();
    let ghost sols = pattern.solutions(Seq::empty(), *matcher, *target);
    let ghost base = out@;
    let seed = MStateImpl::seed(pattern, dup(matcher), dup(target));
    let mut states: VecDeque<MStateImpl<A, M, P, H>> = VecDeque::new();
    states.push_back(seed);
    proof {
        assert(states@ =~= seq![seed]);
        assert(seed.wf());
        lemma_frontier_unfold(states@);
        lemma_frontier_unfold(states@.skip(1));
        assert(frontier_solutions(states@) =~= sols);
        lemma_pat_shape(pattern, 0, pattern.rank(0), Seq::empty(), *matcher, *target);
    }
    let mut search: Enumerator<Vec<A>, MStateImpl<A, M, P, H>> = Enumerator::new(states);
    assert(sols.skip(0) =~= sols);
    assert(base + Seq::<B>::empty() =~= base);
    let ghost mut found: Seq<B> = Seq::empty();
    loop
        invariant
            search.wf(),
            clause.clause_pattern() == *pattern,
            forall|env: Seq<A>| env.len() == pat_arity(pattern) ==> #[trigger] clause.accepts(env),
            all_len(sols, pat_arity(pattern)),
            found.len() <= sols.len(),
            search.remaining() == sols.skip(found.len() as int),
            out@ == base + found,
            forall|j: int| 0 <= j < found.len() ==> clause.yields(sols[j], #[trigger] found[j]),
        ensures
            found.len() == sols.len(),
        decreases search.remaining().len(),
    {
        match search.next() {
            Some(e) => {
                assert(e@ == sols[found.len() as int]);
                let b = clause.apply(e);
                out.push_back(b);
                proof {
                    assert(sols.skip(found.len() as int).skip(1) =~= sols.skip(found.len() as int + 1));
                    found = found.push(b);
                    assert(out@ =~= base + found);
                }
            },
            None => {
                assert(sols.skip(found.len() as int).len() == 0);
                break ;
            },
        }
    }
    proof {
        assert(out@.take(base.len() as int) =~= base);
        assert forall|j: int| 0 <= j < sols.len() implies clause.yields(
            sols[j],
            #[trigger] out@[base.len() + j],
        ) by {
            assert(out@[base.len() + j] == found[j]);
        }
    }
}

/// Matches `target` against every clause in order and returns, for each
/// environment that a clause's pattern produces, what the clause makes of
/// it: all results of the first clause, then all of the second, and so on.
pub fn match_all<
    A: Clone,
    M: Clone,
    P: Fn(&Vec<A>, &A) -> bool,
    H: Hook<A, M, P>,
    B,
    C: MatchClause<A, M, P, H, B>,
>(target: A, matcher: M, clauses: VecDeque<C>) -> (out: VecDeque<B>)
    requires
        clone_exact::<A>(),
        clone_exact::<M>(),
        clauses_ok(clauses@),
    ensures
        clause_outputs(clauses@, matcher, target, out@),
{
    let mut out: VecDeque<B> = VecDeque::new();
    let mut i: usize = 0;
    assert(clauses@.take(0).len() == 0);
    while i < clauses.len()
        invariant
            clone_exact::<A>(),
            clone_exact::<M>(),
            clauses_ok(clauses@),
            i <= clauses.len(),
            clause_outputs(clauses@.take(i as int), matcher, target, out@),
        decreases clauses.len() - i,
    {
        let ghost base = out@;
        run_clause(&clauses[i], &target, &matcher, &mut out);
        proof {
            let cs = clauses@.take(i + 1);
            assert(cs.last() == clauses@[i as int]);
            assert(cs.drop_last() =~= clauses@.take(i as int));
        }
        i += 1;
    }
    assert(clauses@.take(clauses.len() as int) =~= clauses@);
    out
}

/// Which clauses of a match contribute results.
#[derive(Debug, PartialEq, Eq, Clone, Copy)]
pub enum ClausePolicy {
    /// Every clause contributes, in order.
    AllClauses,
    /// Only the first clause whose pattern produces an environment
    /// contributes.
    FirstMatch,
}

/// `out` holds the results of the first clause of `cs` whose pattern
/// produces an environment for `target`, one for each environment in order;
/// it is empty where no clause has such a pattern.
pub open spec fn first_match_outputs<
    A,
    M,
    P: Fn(&Vec<A>, &A) -> bool,
    H: Hook<A, M, P>,
    B,
    C: MatchClause<A, M, P, H, B>,
>(cs: Seq<C>, matcher: M, target: A, out: Seq<B>) -> bool
    decreases cs.len(),
{
    if cs.len() == 0 {
        out.len() == 0
    } else {
        let sols = cs[0].clause_pattern().solutions(Seq::empty(), matcher, target);
        if sols.len() > 0 {
            &&& out.len() == sols.len()
            &&& forall|j: int| 0 <= j < sols.len() ==> cs[0].yields(sols[j], #[trigger] out[j])
        } else {
            first_match_outputs(cs.skip(1), matcher, target, out)
        }
    }
}

proof fn lemma_first_match_skip<
    A,
    M,
    P: Fn(&Vec<A>, &A) -> bool,
    H: Hook<A, M, P>,
    B,
    C: MatchClause<A, M, P, H, B>,
>(cs: Seq<C>, i: int, matcher: M, target: A, out: Seq<B>)
    requires
        0 <= i <= cs.len(),
        forall|k: int|
            0 <= k < i ==> (#[trigger] cs[k]).clause_pattern().solutions(
                Seq::empty(),
                matcher,
                target,
            ).len() == 0,
    ensures
        first_match_outputs(cs, matcher, target, out) == first_match_outputs(
            cs.skip(i),
            matcher,
            target,
            out,
        ),
    decreases i,
{
    if i == 0 {
        assert(cs.skip(0) =~= cs);
    } else {
        assert(cs[0].clause_pattern().solutions(Seq::empty(), matcher, target).len() == 0);
        assert forall|k: int| 0 <= k < i - 1 implies (#[trigger] cs.skip(1)[k]).clause_pattern().solutions(
            Seq::empty(),
            matcher,
            target,
        ).len() == 0 by {
            assert(cs.skip(1)[k] == cs[k + 1]);
        }
        lemma_first_match_skip(cs.skip(1), i - 1, matcher, target, out);
        assert(cs.skip(1).skip(i - 1) =~= cs.skip(i));
    }
}

/// Matches `target` against the clauses in order and returns the results of
/// the first clause whose pattern produces an environment, one for each of
/// its environments in order. Later clauses are not tried.
pub fn match_first<
    A: Clone,
    M: Clone,
    P: Fn(&Vec<A>, &A) -> bool,
    H: Hook<A, M, P>,
    B,
    C: MatchClause<A, M, P, H, B>,
>(target: A, matcher: M, clauses: VecDeque<C>) -> (out: VecDeque<B>)
    requires
        clone_exact::<A>(),
        clone_exact::<M>(),
        clauses_ok(clauses@),
    ensures
        first_match_outputs(clauses@, matcher, target, out@),
{
    let mut out: VecDeque<B> = VecDeque::new();
    let mut i: usize = 0;
    while i < clauses.len()
        invariant
            clone_exact::<A>(),
            clone_exact::<M>(),
            clauses_ok(clauses@),
            i <= clauses.len(),
            out@.len() == 0,
            forall|k: int|
                0 <= k < i ==> (#[trigger] clauses@[k]).clause_pattern().solutions(
                    Seq::empty(),
                    matcher,
                    target,
                ).len() == 0,
        decreases clauses.len() - i,
    {
        run_clause(&clauses[i], &target, &matcher, &mut out);
        if out.len() > 0 {
            proof {
                lemma_first_match_skip(clauses@, i as int, matcher, target, out@);
                let c = clauses@[i as int];
                assert(clauses@.skip(i as int)[0] == c);
                let sols = c.clause_pattern().solutions(Seq::empty(), matcher, target);
                assert forall|j: int| 0 <= j < sols.len() implies c.yields(
                    sols[j],
                    #[trigger] out@[j],
                ) by {
                    assert(c.yields(sols[j], out@[0 + j]));
                }
            }
            return out;
        }
        i += 1;
    }
    proof {
        lemma_first_match_skip(clauses@, clauses@.len() as int, matcher, target, out@);
    }
    out
}

/// Matches `target` against the clauses under the given policy.
pub fn match_with<
    A: Clone,
    M: Clone,
    P: Fn(&Vec<A>, &A) -> bool,
    H: Hook<A, M, P>,
    B,
    C: MatchClause<A, M, P, H, B>,
>(policy: ClausePolicy, target: A, matcher: M, clauses: VecDeque<C>) -> (out: VecDeque<B>)
    requires
        clone_exact::<A>(),
        clone_exact::<M>(),
        clauses_ok(clauses@),
    ensures
        match policy {
            ClausePolicy::AllClauses => clause_outputs(clauses@, matcher, target, out@),
            ClausePolicy::FirstMatch => first_match_outputs(clauses@, matcher, target, out@),
        },
{
    match policy {
        ClausePolicy::AllClauses => match_all(target, matcher, clauses),
        ClausePolicy::FirstMatch => match_first(target, matcher, clauses),
    }
}

} // verus!
