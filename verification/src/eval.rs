//! Eager evaluation: all environments of a pattern or of an obligation list
//! at once.

use crate::env::{clone_exact, dup, dup_env, extend_env};
use crate::pattern::{Hook, MList, Pattern};
use crate::semantics::{
    all_extend, all_len, and_sols, cons_sols, hook_live, hook_out, join_sols, lemma_hook_out,
    lemma_list_shape, lemma_pat_shape, list_arity, list_sols, list_wf_at, pat_arity, pat_sols,
    pat_wf_at, prefixed, stripped,
};
use vstd::prelude::*;

verus! {

/// The environments held by `v`, as sequences.
pub open spec fn views<A>(v: Vec<Vec<A>>) -> Seq<Seq<A>> {
    v@.map_values(|e: Vec<A>| e@)
}

/// Appends to `out`, for each `r` of `rsol` in order, `e` followed by `r`.
fn push_prefixed<A: Clone>(out: &mut Vec<Vec<A>>, e: &Vec<A>, rsol: &Vec<Vec<A>>)
    requires
        clone_exact::<A>(),
    ensures
        views(*final(out)) == views(*old(out)) + prefixed(e@, views(*rsol)),
{
    let mut j: usize = 0;
    while j < rsol.len()
        invariant
            clone_exact::<A>(),
            j <= rsol.len(),
            views(*out) == views(*old(out)) + prefixed(e@, views(*rsol)).take(j as int),
        decreases rsol.len() - j,
    {
        let ghost before = views(*out);
        out.push(extend_env(e, &rsol[j]));
        assert(views(*out) =~= before.push(e@ + rsol[j as int]@));
        assert(prefixed(e@, views(*rsol)).take(j + 1) =~= prefixed(e@, views(*rsol)).take(
            j as int,
        ).push(e@ + rsol[j as int]@));
        j += 1;
    }
    assert(prefixed(e@, views(*rsol)).take(rsol.len() as int) =~= prefixed(e@, views(*rsol)));
}

/// Appends the environments of `more` to `out`, in order.
fn push_all<A>(out: &mut Vec<Vec<A>>, more: Vec<Vec<A>>)
    ensures
        views(*final(out)) == views(*old(out)) + views(more),
{
    let mut more = more;
    let ghost m0 = more;
    out.append(&mut more);
    assert(views(*out) =~= views(*old(out)) + views(m0));
}

/// Each environment of `full` without its first `c` bindings.
fn strip_all<A: Clone>(full: &Vec<Vec<A>>, c: usize) -> (out: Vec<Vec<A>>)
    requires
        clone_exact::<A>(),
        forall|i: int| 0 <= i < full@.len() ==> (#[trigger] full@[i])@.len() >= c,
    ensures
        views(out) == stripped(c as nat, views(*full)),
{
    let mut out: Vec<Vec<A>> = Vec::new();
    let mut i: usize = 0;
    while i < full.len()
        invariant
            clone_exact::<A>(),
            i <= full.len(),
            forall|i: int| 0 <= i < full@.len() ==> (#[trigger] full@[i])@.len() >= c,
            views(out) == stripped(c as nat, views(*full)).take(i as int),
        decreases full.len() - i,
    {
        let e = &full[i];
        let mut r: Vec<A> = Vec::new();
        let mut j: usize = c;
        while j < e.len()
            invariant
                clone_exact::<A>(),
                c <= j <= e.len(),
                r@ == e@.subrange(c as int, j as int),
            decreases e.len() - j,
        {
            r.push(dup(&e[j]));
            assert(r@ =~= e@.subrange(c as int, j + 1));
            j += 1;
        }
        assert(r@ =~= e@.skip(c as int));
        let ghost before = views(out);
        out.push(r);
        assert(views(out) =~= before.push(e@.skip(c as int)));
        assert(stripped(c as nat, views(*full)).take(i + 1) =~= stripped(c as nat, views(*full)).take(
            i as int,
        ).push(e@.skip(c as int)));
        i += 1;
    }
    assert(stripped(c as nat, views(*full)).take(full.len() as int) =~= stripped(
        c as nat,
        views(*full),
    ));
    out
}

/// All environments that `p` contributes, with the bound `n` on nested hook
/// expansions made explicit.
#[verifier::loop_isolation(false)]
pub(crate) fn run_at<A: Clone, M: Clone, P: Fn(&Vec<A>, &A) -> bool, H: Hook<A, M, P>>(
    p: &Pattern<A, M, P, H>,
    ctx: &Vec<A>,
    m: &M,
    t: &A,
    Ghost(n): Ghost<nat>,
) -> (out: Vec<Vec<A>>)
    requires
        clone_exact::<A>(),
        clone_exact::<M>(),
        pat_wf_at(p, ctx@.len(), n),
    ensures
        views(out) == pat_sols(p, ctx@, *m, *t, n),
    decreases n, p,
{
    let mut out: Vec<Vec<A>> = Vec::new();
    match p {
        Pattern::Wildcard(_) => {
            out.push(Vec::new());
            assert(views(out) =~= seq![Seq::<A>::empty()]);
        },
        Pattern::PatVar(_) => {
            let mut e: Vec<A> = Vec::new();
            e.push(dup(t));
            out.push(e);
            assert(e@ =~= seq![*t]);
            assert(views(out) =~= seq![seq![*t]]);
        },
        Pattern::AndPat(b) => {
            let ls = run_at(&b.lhs, ctx, m, t, Ghost(n));
            proof {
                lemma_pat_shape(&b.lhs, ctx@.len(), n, ctx@, *m, *t);
            }
            assert(views(out) =~= Seq::<Seq<A>>::empty());
            let mut i: usize = 0;
            while i < ls.len()
                invariant
                    clone_exact::<A>(),
                    clone_exact::<M>(),
                    i <= ls.len(),
                    all_len(views(ls), pat_arity(&b.lhs)),
                    pat_wf_at(&b.rhs, ctx@.len() + pat_arity(&b.lhs), n),
                    views(out) == and_sols(views(ls).take(i as int), &b.rhs, ctx@, *m, *t, n),
                decreases ls.len() - i,
            {
                let e = &ls[i];
                assert(e@ == views(ls)[i as int]);
                let ctx2 = extend_env(ctx, e);
                let rsol = run_at(&b.rhs, &ctx2, m, t, Ghost(n));
                push_prefixed(&mut out, e, &rsol);
                proof {
                    let pre = views(ls).take(i + 1);
                    assert(pre.drop_last() =~= views(ls).take(i as int));
                    assert(pre.last() == e@);
                }
                i += 1;
            }
            assert(views(ls).take(ls.len() as int) =~= views(ls));
        },
        Pattern::OrPat(l, r) => {
            let ls = run_at(l, ctx, m, t, Ghost(n));
            let rs = run_at(r, ctx, m, t, Ghost(n));
            assert(views(out) =~= Seq::<Seq<A>>::empty());
            push_all(&mut out, ls);
            push_all(&mut out, rs);
            assert(views(out) =~= views(ls) + views(rs));
        },
        Pattern::NotPat(q) => {
            let qs = run_at(q, ctx, m, t, Ghost(n));
            assert(views(qs).len() == qs.len());
            if qs.len() == 0 {
                out.push(Vec::new());
                assert(views(out) =~= seq![Seq::<A>::empty()]);
            } else {
                assert(views(out) =~= Seq::<Seq<A>>::empty());
            }
        },
        Pattern::PredicatePat(f) => {
            let holds = f(ctx, t);
            if holds {
                out.push(Vec::new());
                assert(views(out) =~= seq![Seq::<A>::empty()]);
            } else {
                assert(views(out) =~= Seq::<Seq<A>>::empty());
            }
        },
        Pattern::Pattern(h, _) => {
            let list = h.expand(ctx, m, t);
            proof {
                assert(call_ensures(H::expand, (h, ctx, m, t), list));
                assert(hook_live(h, ctx@, *m, *t));
                lemma_hook_out(p, ctx@.len(), n, ctx@, *m, *t);
                assert(list == hook_out(h, ctx@, *m, *t));
            }
            let full = run_list_at(&list, ctx, Ghost((n - 1) as nat));
            proof {
                lemma_list_shape(&list, ctx@.len(), (n - 1) as nat, ctx@);
                assert forall|i: int| 0 <= i < full@.len() implies (#[trigger] full@[i])@.len()
                    >= ctx.len() by {
                    assert(full@[i]@ == views(full)[i]);
                }
            }
            out = strip_all(&full, ctx.len());
        },
    }
    out
}

/// All complete environments that the state `(rs, l)` leads to, with the
/// bound `n` on nested hook expansions made explicit.
#[verifier::loop_isolation(false)]
pub(crate) fn run_list_at<A: Clone, M: Clone, P: Fn(&Vec<A>, &A) -> bool, H: Hook<A, M, P>>(
    l: &MList<A, M, P, H>,
    rs: &Vec<A>,
    Ghost(n): Ghost<nat>,
) -> (out: Vec<Vec<A>>)
    requires
        clone_exact::<A>(),
        clone_exact::<M>(),
        list_wf_at(l, rs@.len(), n),
    ensures
        views(out) == list_sols(l, rs@, n),
    decreases n, l,
{
    let mut out: Vec<Vec<A>> = Vec::new();
    match l {
        MList::MNil => {
            out.push(dup_env(rs));
            assert(views(out) =~= seq![rs@]);
        },
        MList::MCons(c) => {
            let bs = run_at(c.head.pattern, rs, &c.head.matcher, &c.head.target, Ghost(n));
            proof {
                lemma_pat_shape(c.head.pattern, rs@.len(), n, rs@, c.head.matcher, c.head.target);
            }
            assert(views(out) =~= Seq::<Seq<A>>::empty());
            let mut i: usize = 0;
            while i < bs.len()
                invariant
                    clone_exact::<A>(),
                    clone_exact::<M>(),
                    i <= bs.len(),
                    all_len(views(bs), pat_arity(c.head.pattern)),
                    list_wf_at(&c.tail, rs@.len() + pat_arity(c.head.pattern), n),
                    views(out) == cons_sols(views(bs).take(i as int), &c.tail, rs@, n),
                decreases bs.len() - i,
            {
                let b = &bs[i];
                assert(b@ == views(bs)[i as int]);
                let rs2 = extend_env(rs, b);
                let more = run_list_at(&c.tail, &rs2, Ghost(n));
                push_all(&mut out, more);
                proof {
                    let pre = views(bs).take(i + 1);
                    assert(pre.drop_last() =~= views(bs).take(i as int));
                    assert(pre.last() == b@);
                }
                i += 1;
            }
            assert(views(bs).take(bs.len() as int) =~= views(bs));
        },
        MList::MJoin(j) => {
            let es = run_list_at(&j.lhs, rs, Ghost(n));
            proof {
                lemma_list_shape(&j.lhs, rs@.len(), n, rs@);
            }
            assert(views(out) =~= Seq::<Seq<A>>::empty());
            let mut i: usize = 0;
            while i < es.len()
                invariant
                    clone_exact::<A>(),
                    clone_exact::<M>(),
                    i <= es.len(),
                    all_extend(views(es), rs@, list_arity(&j.lhs)),
                    list_wf_at(&j.rhs, rs@.len() + list_arity(&j.lhs), n),
                    views(out) == join_sols(views(es).take(i as int), &j.rhs, n),
                decreases es.len() - i,
            {
                let e = &es[i];
                assert(e@ == views(es)[i as int]);
                let more = run_list_at(&j.rhs, e, Ghost(n));
                push_all(&mut out, more);
                proof {
                    let pre = views(es).take(i + 1);
                    assert(pre.drop_last() =~= views(es).take(i as int));
                    assert(pre.last() == e@);
                }
                i += 1;
            }
            assert(views(es).take(es.len() as int) =~= views(es));
        },
    }
    out
}

impl<A: Clone, M: Clone, P: Fn(&Vec<A>, &A) -> bool, H: Hook<A, M, P>> Pattern<A, M, P, H> {
    /// Runs the pattern against `target` under `matcher` with `ctx` bound and
    /// returns every environment that it contributes, in order.
    pub fn run(&self, ctx: &Vec<A>, matcher: &M, target: &A) -> (out: Vec<Vec<A>>)
        requires
            clone_exact::<A>(),
            clone_exact::<M>(),
            self.wf(ctx@.len()),
        ensures
            views(out) == self.solutions(ctx@, *matcher, *target),
            all_len(views(out), pat_arity(self)),
    {
        proof {
            lemma_pat_shape(self, ctx@.len(), self.rank(ctx@.len()), ctx@, *matcher, *target);
        }
        run_at(self, ctx, matcher, target, Ghost(self.rank(ctx@.len())))
    }
}

impl<'a, A: Clone, M: Clone, P: Fn(&Vec<A>, &A) -> bool, H: Hook<A, M, P>> MList<'a, A, M, P, H> {
    /// Resolves every obligation of the list behind the environment `rs` and
    /// returns every complete environment that results, in order.
    pub fn run(&self, rs: &Vec<A>) -> (out: Vec<Vec<A>>)
        requires
            clone_exact::<A>(),
            clone_exact::<M>(),
            self.wf(rs@.len()),
        ensures
            views(out) == self.solutions(rs@),
            all_extend(views(out), rs@, list_arity(self)),
    {
        proof {
            lemma_list_shape(self, rs@.len(), self.rank(rs@.len()), rs@);
        }
        run_list_at(self, rs, Ghost(self.rank(rs@.len())))
    }
}

} // verus!
