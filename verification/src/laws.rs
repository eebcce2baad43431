//! What holds of every pattern: the environments of each combinator, stated
//! over the environments of its operands.

use crate::pattern::{AndPatImpl, Hook, MAtomImpl, MConsImpl, MJoinImpl, MList, Pattern};
use crate::semantics::{
    all_extend, all_len, and_sols, cons_sols, hook_live, hook_ok, hook_out, join_sols, lemma_hook_out,
    lemma_list_rank, lemma_list_shape, lemma_pat_mono, lemma_pat_rank,
    lemma_pat_shape, list_arity, list_sols, list_wf_at, pat_arity, pat_sols, pat_wf_at, prefixed,
    stripped, test_holds, test_ok,
};
use crate::state::{frontier_solutions, state_views, MState, MStateImpl};
use core::marker::PhantomData;
use vstd::prelude::*;

verus! {

/// For every `e` of `ls`, in order: `e` followed by each environment that
/// `rhs` contributes once `ctx` and `e` are bound.
pub open spec fn and_then<A, M, P: Fn(&Vec<A>, &A) -> bool, H: Hook<A, M, P>>(
    ls: Seq<Seq<A>>,
    rhs: &Pattern<A, M, P, H>,
    ctx: Seq<A>,
    matcher: M,
    target: A,
) -> Seq<Seq<A>>
    decreases ls.len(),
{
    if ls.len() == 0 {
        Seq::empty()
    } else {
        and_then(ls.drop_last(), rhs, ctx, matcher, target) + prefixed(
            ls.last(),
            rhs.solutions(ctx + ls.last(), matcher, target),
        )
    }
}

/// For every `b` of `bs`, in order: what the state `(rs + b, tail)` leads to.
pub open spec fn cons_then<A, M, P: Fn(&Vec<A>, &A) -> bool, H: Hook<A, M, P>>(
    bs: Seq<Seq<A>>,
    tail: &MList<A, M, P, H>,
    rs: Seq<A>,
) -> Seq<Seq<A>>
    decreases bs.len(),
{
    if bs.len() == 0 {
        Seq::empty()
    } else {
        cons_then(bs.drop_last(), tail, rs) + tail.solutions(rs + bs.last())
    }
}

/// For every `e` of `es`, in order: what the state `(e, rhs)` leads to.
pub open spec fn join_then<A, M, P: Fn(&Vec<A>, &A) -> bool, H: Hook<A, M, P>>(
    es: Seq<Seq<A>>,
    rhs: &MList<A, M, P, H>,
) -> Seq<Seq<A>>
    decreases es.len(),
{
    if es.len() == 0 {
        Seq::empty()
    } else {
        join_then(es.drop_last(), rhs) + rhs.solutions(es.last())
    }
}

proof fn lemma_and_then<A, M, P: Fn(&Vec<A>, &A) -> bool, H: Hook<A, M, P>>(
    ls: Seq<Seq<A>>,
    rhs: &Pattern<A, M, P, H>,
    a: nat,
    n: nat,
    ctx: Seq<A>,
    m: M,
    t: A,
)
    requires
        all_len(ls, a),
        pat_wf_at(rhs, ctx.len() + a, n),
    ensures
        and_then(ls, rhs, ctx, m, t) == and_sols(ls, rhs, ctx, m, t, n),
    decreases ls.len(),
{
    if ls.len() > 0 {
        lemma_and_then(ls.drop_last(), rhs, a, n, ctx, m, t);
        let c2 = ctx + ls.last();
        lemma_pat_rank(rhs, c2.len(), rhs.rank(c2.len()), n, c2, m, t);
    }
}

proof fn lemma_cons_then<A, M, P: Fn(&Vec<A>, &A) -> bool, H: Hook<A, M, P>>(
    bs: Seq<Seq<A>>,
    tail: &MList<A, M, P, H>,
    a: nat,
    n: nat,
    rs: Seq<A>,
)
    requires
        all_len(bs, a),
        list_wf_at(tail, rs.len() + a, n),
    ensures
        cons_then(bs, tail, rs) == cons_sols(bs, tail, rs, n),
    decreases bs.len(),
{
    if bs.len() > 0 {
        lemma_cons_then(bs.drop_last(), tail, a, n, rs);
        let r2 = rs + bs.last();
        lemma_list_rank(tail, r2.len(), tail.rank(r2.len()), n, r2);
    }
}

proof fn lemma_join_then<A, M, P: Fn(&Vec<A>, &A) -> bool, H: Hook<A, M, P>>(
    es: Seq<Seq<A>>,
    rhs: &MList<A, M, P, H>,
    a: nat,
    n: nat,
    rs: Seq<A>,
)
    requires
        all_extend(es, rs, a),
        list_wf_at(rhs, rs.len() + a, n),
    ensures
        join_then(es, rhs) == join_sols(es, rhs, n),
    decreases es.len(),
{
    if es.len() > 0 {
        lemma_join_then(es.drop_last(), rhs, a, n, rs);
        let e = es.last();
        lemma_list_rank(rhs, e.len(), rhs.rank(e.len()), n, e);
    }
}

/// A well-formed pattern contributes environments of exactly the number of
/// slots that it declares.
pub proof fn law_shape<A, M, P: Fn(&Vec<A>, &A) -> bool, H: Hook<A, M, P>>(
    p: &Pattern<A, M, P, H>,
    ctx: Seq<A>,
    matcher: M,
    target: A,
)
    requires
        p.wf(ctx.len()),
    ensures
        all_len(p.solutions(ctx, matcher, target), pat_arity(p)),
{
    lemma_pat_shape(p, ctx.len(), p.rank(ctx.len()), ctx, matcher, target);
}

/// A wildcard is well formed anywhere and contributes exactly one
/// environment, which is empty, whatever the target.
pub proof fn law_wildcard<A, M, P: Fn(&Vec<A>, &A) -> bool, H: Hook<A, M, P>>(
    ctx: Seq<A>,
    matcher: M,
    target: A,
)
    ensures
        Pattern::<A, M, P, H>::Wildcard(PhantomData).wf(ctx.len()),
        Pattern::<A, M, P, H>::Wildcard(PhantomData).solutions(ctx, matcher, target)
            == seq![Seq::<A>::empty()],
{
    let p = Pattern::<A, M, P, H>::Wildcard(PhantomData);
    assert(pat_wf_at(&p, ctx.len(), 0));
}

/// A variable is well formed anywhere and contributes exactly one
/// environment, which holds the target and nothing else.
pub proof fn law_variable<A, M, P: Fn(&Vec<A>, &A) -> bool, H: Hook<A, M, P>>(
    name: String,
    ctx: Seq<A>,
    matcher: M,
    target: A,
)
    ensures
        Pattern::<A, M, P, H>::PatVar(name).wf(ctx.len()),
        Pattern::<A, M, P, H>::PatVar(name).solutions(ctx, matcher, target) == seq![seq![target]],
{
    let p = Pattern::<A, M, P, H>::PatVar(name);
    assert(pat_wf_at(&p, ctx.len(), 0));
}

/// A conjunction is well formed where its left operand is, its right
/// operand is well formed behind the slots of the left, and it declares the
/// slots of both; and only there.
pub proof fn law_conjunction_wf<A, M, P: Fn(&Vec<A>, &A) -> bool, H: Hook<A, M, P>>(
    lhs: Pattern<A, M, P, H>,
    rhs: Pattern<A, M, P, H>,
    vars: usize,
    c: nat,
)
    ensures
        Pattern::AndPat(Box::new(AndPatImpl { lhs, rhs, vars })).wf(c) <==> {
            &&& vars == pat_arity(&lhs) + pat_arity(&rhs)
            &&& lhs.wf(c)
            &&& rhs.wf(c + pat_arity(&lhs))
        },
{
    let p = Pattern::AndPat(Box::new(AndPatImpl { lhs, rhs, vars }));
    let c2 = c + pat_arity(&lhs);
    if p.wf(c) {
        let n = p.rank(c);
        assert(pat_wf_at(&lhs, c, n));
        assert(pat_wf_at(&rhs, c2, n));
    }
    if vars == pat_arity(&lhs) + pat_arity(&rhs) && lhs.wf(c) && rhs.wf(c2) {
        let n1 = lhs.rank(c);
        let n2 = rhs.rank(c2);
        let n = if n1 <= n2 {
            n2
        } else {
            n1
        };
        lemma_pat_mono(&lhs, c, n1, n);
        lemma_pat_mono(&rhs, c2, n2, n);
        assert(pat_wf_at(&p, c, n));
    }
}

/// A conjunction contributes, for each environment `e` of its left operand
/// in order, `e` followed by each environment that its right operand
/// contributes once `e` is bound as well.
pub proof fn law_conjunction<A, M, P: Fn(&Vec<A>, &A) -> bool, H: Hook<A, M, P>>(
    lhs: Pattern<A, M, P, H>,
    rhs: Pattern<A, M, P, H>,
    vars: usize,
    ctx: Seq<A>,
    matcher: M,
    target: A,
)
    requires
        Pattern::AndPat(Box::new(AndPatImpl { lhs, rhs, vars })).wf(ctx.len()),
    ensures
        Pattern::AndPat(Box::new(AndPatImpl { lhs, rhs, vars })).solutions(ctx, matcher, target)
            == and_then(lhs.solutions(ctx, matcher, target), &rhs, ctx, matcher, target),
{
    let p = Pattern::AndPat(Box::new(AndPatImpl { lhs, rhs, vars }));
    let c = ctx.len();
    let n = p.rank(c);
    assert(pat_wf_at(&lhs, c, n));
    assert(pat_wf_at(&rhs, c + pat_arity(&lhs), n));
    lemma_pat_rank(&lhs, c, lhs.rank(c), n, ctx, matcher, target);
    lemma_pat_shape(&lhs, c, n, ctx, matcher, target);
    lemma_and_then(pat_sols(&lhs, ctx, matcher, target, n), &rhs, pat_arity(&lhs), n, ctx, matcher, target);
}

/// A conjunction whose left operand is a wildcard contributes the same
/// environments, in the same order, as its right operand alone.
pub proof fn law_conjunction_identity<A, M, P: Fn(&Vec<A>, &A) -> bool, H: Hook<A, M, P>>(
    p: Pattern<A, M, P, H>,
    vars: usize,
    ctx: Seq<A>,
    matcher: M,
    target: A,
)
    requires
        p.wf(ctx.len()),
        vars == pat_arity(&p),
    ensures
        Pattern::AndPat(
            Box::new(AndPatImpl { lhs: Pattern::Wildcard(PhantomData), rhs: p, vars }),
        ).wf(ctx.len()),
        Pattern::AndPat(
            Box::new(AndPatImpl { lhs: Pattern::Wildcard(PhantomData), rhs: p, vars }),
        ).solutions(ctx, matcher, target) == p.solutions(ctx, matcher, target),
{
    let w = Pattern::<A, M, P, H>::Wildcard(PhantomData);
    law_wildcard::<A, M, P, H>(ctx, matcher, target);
    law_conjunction_wf(w, p, vars, ctx.len());
    law_conjunction(w, p, vars, ctx, matcher, target);
    let ls = seq![Seq::<A>::empty()];
    let ps = p.solutions(ctx, matcher, target);
    assert(ls.drop_last() =~= Seq::<Seq<A>>::empty());
    assert(and_then(ls.drop_last(), &p, ctx, matcher, target) =~= Seq::<Seq<A>>::empty());
    assert(ctx + ls.last() =~= ctx);
    assert(prefixed(ls.last(), ps) =~= ps) by {
        assert forall|i: int| 0 <= i < ps.len() implies prefixed(ls.last(), ps)[i] == ps[i] by {
            assert(Seq::<A>::empty() + ps[i] =~= ps[i]);
        }
    }
    assert(and_then(ls, &p, ctx, matcher, target) =~= ps);
}

/// A disjunction is well formed where both operands are and declare the
/// same number of slots; and only there.
pub proof fn law_disjunction_wf<A, M, P: Fn(&Vec<A>, &A) -> bool, H: Hook<A, M, P>>(
    lhs: Pattern<A, M, P, H>,
    rhs: Pattern<A, M, P, H>,
    c: nat,
)
    ensures
        Pattern::OrPat(Box::new(lhs), Box::new(rhs)).wf(c) <==> {
            &&& pat_arity(&lhs) == pat_arity(&rhs)
            &&& lhs.wf(c)
            &&& rhs.wf(c)
        },
{
    let p = Pattern::OrPat(Box::new(lhs), Box::new(rhs));
    if p.wf(c) {
        let n = p.rank(c);
        assert(pat_wf_at(&lhs, c, n));
        assert(pat_wf_at(&rhs, c, n));
    }
    if pat_arity(&lhs) == pat_arity(&rhs) && lhs.wf(c) && rhs.wf(c) {
        let n1 = lhs.rank(c);
        let n2 = rhs.rank(c);
        let n = if n1 <= n2 {
            n2
        } else {
            n1
        };
        lemma_pat_mono(&lhs, c, n1, n);
        lemma_pat_mono(&rhs, c, n2, n);
        assert(pat_wf_at(&p, c, n));
    }
}

/// A disjunction contributes every environment of its left operand, then
/// every environment of its right operand: as many as both together, the
/// first of them being those of the left operand in their own order.
pub proof fn law_disjunction<A, M, P: Fn(&Vec<A>, &A) -> bool, H: Hook<A, M, P>>(
    lhs: Pattern<A, M, P, H>,
    rhs: Pattern<A, M, P, H>,
    ctx: Seq<A>,
    matcher: M,
    target: A,
)
    requires
        Pattern::OrPat(Box::new(lhs), Box::new(rhs)).wf(ctx.len()),
    ensures
        Pattern::OrPat(Box::new(lhs), Box::new(rhs)).solutions(ctx, matcher, target)
            == lhs.solutions(ctx, matcher, target) + rhs.solutions(ctx, matcher, target),
        Pattern::OrPat(Box::new(lhs), Box::new(rhs)).solutions(ctx, matcher, target).len()
            == lhs.solutions(ctx, matcher, target).len() + rhs.solutions(
            ctx,
            matcher,
            target,
        ).len(),
        Pattern::OrPat(Box::new(lhs), Box::new(rhs)).solutions(ctx, matcher, target).take(
            lhs.solutions(ctx, matcher, target).len() as int,
        ) == lhs.solutions(ctx, matcher, target),
{
    let p = Pattern::OrPat(Box::new(lhs), Box::new(rhs));
    let c = ctx.len();
    let n = p.rank(c);
    assert(pat_wf_at(&lhs, c, n));
    assert(pat_wf_at(&rhs, c, n));
    lemma_pat_rank(&lhs, c, lhs.rank(c), n, ctx, matcher, target);
    lemma_pat_rank(&rhs, c, rhs.rank(c), n, ctx, matcher, target);
    let l = lhs.solutions(ctx, matcher, target);
    let r = rhs.solutions(ctx, matcher, target);
    assert((l + r).take(l.len() as int) =~= l);
}

/// A negation is well formed exactly where its operand is.
pub proof fn law_negation_wf<A, M, P: Fn(&Vec<A>, &A) -> bool, H: Hook<A, M, P>>(
    inner: Pattern<A, M, P, H>,
    c: nat,
)
    ensures
        Pattern::NotPat(Box::new(inner)).wf(c) <==> inner.wf(c),
{
    let p = Pattern::NotPat(Box::new(inner));
    if p.wf(c) {
        assert(pat_wf_at(&inner, c, p.rank(c)));
    }
    if inner.wf(c) {
        assert(pat_wf_at(&p, c, inner.rank(c)));
    }
}

/// A negation contributes exactly one environment, which is empty, iff its
/// operand contributes none for the same target; otherwise it contributes
/// none.
pub proof fn law_negation<A, M, P: Fn(&Vec<A>, &A) -> bool, H: Hook<A, M, P>>(
    inner: Pattern<A, M, P, H>,
    ctx: Seq<A>,
    matcher: M,
    target: A,
)
    requires
        Pattern::NotPat(Box::new(inner)).wf(ctx.len()),
    ensures
        Pattern::NotPat(Box::new(inner)).solutions(ctx, matcher, target) == if inner.solutions(
            ctx,
            matcher,
            target,
        ).len() == 0 {
            seq![Seq::<A>::empty()]
        } else {
            Seq::<Seq<A>>::empty()
        },
        Pattern::NotPat(Box::new(inner)).solutions(ctx, matcher, target).len() == 1
            <==> inner.solutions(ctx, matcher, target).len() == 0,
        Pattern::NotPat(Box::new(inner)).solutions(ctx, matcher, target).len() <= 1,
{
    let p = Pattern::NotPat(Box::new(inner));
    let c = ctx.len();
    let n = p.rank(c);
    assert(pat_wf_at(&inner, c, n));
    lemma_pat_rank(&inner, c, inner.rank(c), n, ctx, matcher, target);
}

/// A predicate pattern is well formed exactly where its test takes every
/// context of that many bindings and answers by them and the target alone.
pub proof fn law_predicate_wf<A, M, P: Fn(&Vec<A>, &A) -> bool, H: Hook<A, M, P>>(test: P, c: nat)
    ensures
        Pattern::<A, M, P, H>::PredicatePat(test).wf(c) <==> test_ok(&test, c),
{
    let p = Pattern::<A, M, P, H>::PredicatePat(test);
    if p.wf(c) {
        assert(pat_wf_at(&p, c, p.rank(c)));
    }
    if test_ok(&test, c) {
        assert(pat_wf_at(&p, c, 0));
    }
}

/// A predicate pattern contributes one empty environment if its test holds
/// of context and target, and none otherwise.
pub proof fn law_predicate<A, M, P: Fn(&Vec<A>, &A) -> bool, H: Hook<A, M, P>>(
    test: P,
    ctx: Seq<A>,
    matcher: M,
    target: A,
)
    ensures
        Pattern::<A, M, P, H>::PredicatePat(test).solutions(ctx, matcher, target) == if test_holds(
            &test,
            ctx,
            target,
        ) {
            seq![Seq::<A>::empty()]
        } else {
            Seq::<Seq<A>>::empty()
        },
{
}

/// An extension pattern is well formed where its hook answers by context,
/// matcher and target alone, and every answer is a well-formed list of the
/// declared number of slots.
pub proof fn law_extension_wf<A, M, P: Fn(&Vec<A>, &A) -> bool, H: Hook<A, M, P>>(
    hook: H,
    vars: usize,
    c: nat,
    depth: nat,
)
    requires
        hook_ok(&hook, c),
        forall|v: Vec<A>, m: M, t: A, out: MList<A, M, P, H>|
            v@.len() == c && #[trigger] call_ensures(H::expand, (&hook, &v, &m, &t), out) ==> {
                &&& list_arity(&out) == vars
                &&& list_wf_at(&out, c, depth)
            },
    ensures
        Pattern::<A, M, P, H>::Pattern(hook, vars).wf(c),
{
    let p = Pattern::<A, M, P, H>::Pattern(hook, vars);
    assert(pat_wf_at(&p, c, depth + 1));
}

/// An extension pattern contributes what the list that its hook answers
/// with leads to from the context, each environment without the context.
pub proof fn law_extension<A, M, P: Fn(&Vec<A>, &A) -> bool, H: Hook<A, M, P>>(
    hook: H,
    vars: usize,
    ctx: Seq<A>,
    matcher: M,
    target: A,
)
    requires
        Pattern::<A, M, P, H>::Pattern(hook, vars).wf(ctx.len()),
        hook_live(&hook, ctx, matcher, target),
    ensures
        hook_out(&hook, ctx, matcher, target).wf(ctx.len()),
        Pattern::<A, M, P, H>::Pattern(hook, vars).solutions(ctx, matcher, target) == stripped(
            ctx.len(),
            hook_out(&hook, ctx, matcher, target).solutions(ctx),
        ),
{
    let p = Pattern::<A, M, P, H>::Pattern(hook, vars);
    let c = ctx.len();
    let n = p.rank(c);
    lemma_hook_out(&p, c, n, ctx, matcher, target);
    let out = hook_out(&hook, ctx, matcher, target);
    lemma_list_rank(&out, c, out.rank(c), (n - 1) as nat, ctx);
}

/// The empty list is well formed anywhere and leads to the accumulated
/// environment alone.
pub proof fn law_nil<A, M, P: Fn(&Vec<A>, &A) -> bool, H: Hook<A, M, P>>(rs: Seq<A>)
    ensures
        MList::<A, M, P, H>::MNil.wf(rs.len()),
        MList::<A, M, P, H>::MNil.solutions(rs) == seq![rs],
{
    assert(list_wf_at(&MList::<A, M, P, H>::MNil, rs.len(), 0));
}

/// An obligation followed by a list leads, for each environment `b` that
/// the obligation's pattern contributes, in order, to what the list leads to
/// once `b` is bound as well.
pub proof fn law_cons<A, M, P: Fn(&Vec<A>, &A) -> bool, H: Hook<A, M, P>>(
    head: MAtomImpl<A, M, P, H>,
    tail: MList<A, M, P, H>,
    rs: Seq<A>,
)
    requires
        MList::MCons(Box::new(MConsImpl { head, tail })).wf(rs.len()),
    ensures
        head.pattern.wf(rs.len()),
        tail.wf(rs.len() + pat_arity(head.pattern)),
        MList::MCons(Box::new(MConsImpl { head, tail })).solutions(rs) == cons_then(
            head.pattern.solutions(rs, head.matcher, head.target),
            &tail,
            rs,
        ),
{
    let l = MList::MCons(Box::new(MConsImpl { head, tail }));
    let c = rs.len();
    let n = l.rank(c);
    assert(pat_wf_at(head.pattern, c, n));
    assert(list_wf_at(&tail, c + pat_arity(head.pattern), n));
    lemma_pat_rank(head.pattern, c, head.pattern.rank(c), n, rs, head.matcher, head.target);
    lemma_pat_shape(head.pattern, c, n, rs, head.matcher, head.target);
    lemma_cons_then(
        pat_sols(head.pattern, rs, head.matcher, head.target, n),
        &tail,
        pat_arity(head.pattern),
        n,
        rs,
    );
}

/// Two lists in sequence lead, for each environment `e` that the first
/// leads to, in order, to what the second leads to from `e`.
pub proof fn law_join<A, M, P: Fn(&Vec<A>, &A) -> bool, H: Hook<A, M, P>>(
    lhs: MList<A, M, P, H>,
    rhs: MList<A, M, P, H>,
    rs: Seq<A>,
)
    requires
        MList::MJoin(Box::new(MJoinImpl { lhs, rhs })).wf(rs.len()),
    ensures
        lhs.wf(rs.len()),
        rhs.wf(rs.len() + list_arity(&lhs)),
        MList::MJoin(Box::new(MJoinImpl { lhs, rhs })).solutions(rs) == join_then(
            lhs.solutions(rs),
            &rhs,
        ),
{
    let l = MList::MJoin(Box::new(MJoinImpl { lhs, rhs }));
    let c = rs.len();
    let n = l.rank(c);
    assert(list_wf_at(&lhs, c, n));
    assert(list_wf_at(&rhs, c + list_arity(&lhs), n));
    lemma_list_rank(&lhs, c, lhs.rank(c), n, rs);
    lemma_list_shape(&lhs, c, n, rs);
    lemma_join_then(list_sols(&lhs, rs, n), &rhs, list_arity(&lhs), n, rs);
}

/// The solution sequence is a function of what is searched: two frontiers
/// that hold the same bound values and the same obligations lead to the same
/// solutions in the same order.
pub proof fn law_order_deterministic<
    'a,
    A: Clone,
    M: Clone,
    P: Fn(&Vec<A>, &A) -> bool,
    H: Hook<A, M, P>,
>(first: Seq<MStateImpl<'a, A, M, P, H>>, second: Seq<MStateImpl<'a, A, M, P, H>>)
    requires
        state_views(first) == state_views(second),
    ensures
        frontier_solutions(first) == frontier_solutions(second),
{
    let f = first.map_values(|s: MStateImpl<'a, A, M, P, H>| s.solutions());
    let g = second.map_values(|s: MStateImpl<'a, A, M, P, H>| s.solutions());
    assert(first.len() == state_views(first).len());
    assert(second.len() == state_views(second).len());
    assert forall|i: int| 0 <= i < f.len() implies f[i] == g[i] by {
        assert(state_views(first)[i] == state_views(second)[i]);
    }
    assert(f =~= g);
}

} // verus!
