//! What a pattern means: the sequence of environments that it contributes,
//! as a function of context, matcher and target.

use crate::pattern::{Hook, MList, Pattern};
use vstd::prelude::*;

verus! {

/// Number of slots that `p` declares.
pub open spec fn pat_arity<A, M, P, H>(p: &Pattern<A, M, P, H>) -> nat
    decreases p,
{
    match p {
        Pattern::Wildcard(_) => 0,
        Pattern::PatVar(_) => 1,
        Pattern::AndPat(b) => b.vars as nat,
        Pattern::OrPat(l, _) => pat_arity(&**l),
        Pattern::NotPat(_) => 0,
        Pattern::PredicatePat(_) => 0,
        Pattern::Pattern(_, k) => *k as nat,
    }
}

/// Number of slots that the obligations of `l` declare together.
pub open spec fn list_arity<A, M, P, H>(l: &MList<A, M, P, H>) -> nat
    decreases l,
{
    match l {
        MList::MNil => 0,
        MList::MCons(c) => pat_arity(c.head.pattern) + list_arity(&c.tail),
        MList::MJoin(j) => list_arity(&j.lhs) + list_arity(&j.rhs),
    }
}

/// The test `f` can hold of `ctx` and `t`.
pub open spec fn test_holds<A, P: Fn(&Vec<A>, &A) -> bool>(f: &P, ctx: Seq<A>, t: A) -> bool {
    exists|v: Vec<A>| v@ == ctx && #[trigger] call_ensures(*f, (&v, &t), true)
}

/// The test `f` accepts every context of `c` bindings with every target, and
/// its answer depends on the bindings and the target alone.
pub open spec fn test_ok<A, P: Fn(&Vec<A>, &A) -> bool>(f: &P, c: nat) -> bool {
    &&& forall|v: Vec<A>, t: A| v@.len() == c ==> #[trigger] call_requires(*f, (&v, &t))
    &&& forall|v: Vec<A>, t: A|
        v@.len() == c && #[trigger] call_ensures(*f, (&v, &t), false) ==> !test_holds(f, v@, t)
}

/// The obligations that the hook `h` answers with for `ctx`, `m` and `t`.
pub open spec fn hook_out<'a, A, M, P, H: Hook<A, M, P>>(h: &'a H, ctx: Seq<A>, m: M, t: A) -> MList<
    'a,
    A,
    M,
    P,
    H,
> {
    let pair = choose|out: MList<'a, A, M, P, H>, v: Vec<A>|
        v@ == ctx && #[trigger] call_ensures(H::expand, (h, &v, &m, &t), out);
    pair.0
}

/// The hook `h` can answer for `ctx`, `m` and `t`.
pub open spec fn hook_live<A, M, P, H: Hook<A, M, P>>(h: &H, ctx: Seq<A>, m: M, t: A) -> bool {
    exists|out: MList<A, M, P, H>, v: Vec<A>|
        v@ == ctx && #[trigger] call_ensures(H::expand, (h, &v, &m, &t), out)
}

/// The answer of the hook `h` depends on the bindings, the matcher and the
/// target alone, for every context of `c` bindings.
pub open spec fn hook_ok<A, M, P, H: Hook<A, M, P>>(h: &H, c: nat) -> bool {
    forall|v: Vec<A>, m: M, t: A, out: MList<A, M, P, H>|
        v@.len() == c && #[trigger] call_ensures(H::expand, (h, &v, &m, &t), out) ==> out == hook_out(
            h,
            v@,
            m,
            t,
        )
}

/// `p` is well formed in a context of `c` bindings, with at most `n` nested
/// hook expansions: declared slot counts agree, tests and hooks are total and
/// functional, and what hooks answer with is well formed in turn.
pub open spec fn pat_wf_at<A, M, P: Fn(&Vec<A>, &A) -> bool, H: Hook<A, M, P>>(
    p: &Pattern<A, M, P, H>,
    c: nat,
    n: nat,
) -> bool
    decreases n, p,
{
    match p {
        Pattern::Wildcard(_) => true,
        Pattern::PatVar(_) => true,
        Pattern::AndPat(b) => {
            &&& b.vars == pat_arity(&b.lhs) + pat_arity(&b.rhs)
            &&& pat_wf_at(&b.lhs, c, n)
            &&& pat_wf_at(&b.rhs, c + pat_arity(&b.lhs), n)
        },
        Pattern::OrPat(l, r) => {
            &&& pat_arity(&**l) == pat_arity(&**r)
            &&& pat_wf_at(&**l, c, n)
            &&& pat_wf_at(&**r, c, n)
        },
        Pattern::NotPat(q) => pat_wf_at(&**q, c, n),
        Pattern::PredicatePat(f) => test_ok(f, c),
        Pattern::Pattern(h, k) => {
            &&& n > 0
            &&& hook_ok(h, c)
            &&& forall|v: Vec<A>, m: M, t: A, out: MList<A, M, P, H>|
                v@.len() == c && #[trigger] call_ensures(H::expand, (h, &v, &m, &t), out) ==> {
                    &&& list_arity(&out) == *k
                    &&& list_wf_at(&out, c, (n - 1) as nat)
                }
        },
    }
}

/// `l` is well formed behind an accumulated environment of `c` bindings, with
/// at most `n` nested hook expansions.
pub open spec fn list_wf_at<A, M, P: Fn(&Vec<A>, &A) -> bool, H: Hook<A, M, P>>(
    l: &MList<A, M, P, H>,
    c: nat,
    n: nat,
) -> bool
    decreases n, l,
{
    match l {
        MList::MNil => true,
        MList::MCons(cell) => {
            &&& pat_wf_at(cell.head.pattern, c, n)
            &&& list_wf_at(&cell.tail, c + pat_arity(cell.head.pattern), n)
        },
        MList::MJoin(j) => {
            &&& list_wf_at(&j.lhs, c, n)
            &&& list_wf_at(&j.rhs, c + list_arity(&j.lhs), n)
        },
    }
}

/// Each environment of `envs` with `e` put in front.
pub open spec fn prefixed<A>(e: Seq<A>, envs: Seq<Seq<A>>) -> Seq<Seq<A>> {
    envs.map_values(|r: Seq<A>| e + r)
}

/// Each environment of `envs` without its first `c` bindings.
pub open spec fn stripped<A>(c: nat, envs: Seq<Seq<A>>) -> Seq<Seq<A>> {
    envs.map_values(|r: Seq<A>| r.skip(c as int))
}

/// The environments that `p` contributes for target `t` under matcher `m`
/// when `ctx` is already bound, in the order in which they are found. Each
/// holds the new bindings only.
pub open spec fn pat_sols<A, M, P: Fn(&Vec<A>, &A) -> bool, H: Hook<A, M, P>>(
    p: &Pattern<A, M, P, H>,
    ctx: Seq<A>,
    m: M,
    t: A,
    n: nat,
) -> Seq<Seq<A>>
    decreases n, p, 0nat,
{
    match p {
        Pattern::Wildcard(_) => seq![Seq::<A>::empty()],
        Pattern::PatVar(_) => seq![seq![t]],
        Pattern::AndPat(b) => and_sols(pat_sols(&b.lhs, ctx, m, t, n), &b.rhs, ctx, m, t, n),
        Pattern::OrPat(l, r) => pat_sols(&**l, ctx, m, t, n) + pat_sols(&**r, ctx, m, t, n),
        Pattern::NotPat(q) => if pat_sols(&**q, ctx, m, t, n).len() == 0 {
            seq![Seq::<A>::empty()]
        } else {
            Seq::<Seq<A>>::empty()
        },
        Pattern::PredicatePat(f) => if test_holds(f, ctx, t) {
            seq![Seq::<A>::empty()]
        } else {
            Seq::<Seq<A>>::empty()
        },
        Pattern::Pattern(h, _) => if n == 0 || !hook_live(h, ctx, m, t) {
            Seq::<Seq<A>>::empty()
        } else {
            stripped(ctx.len(), list_sols(&hook_out(h, ctx, m, t), ctx, (n - 1) as nat))
        },
    }
}

/// For every `e` of `ls`, in order: `e` followed by each environment that
/// `rhs` contributes once `ctx` and `e` are bound.
pub open spec fn and_sols<A, M, P: Fn(&Vec<A>, &A) -> bool, H: Hook<A, M, P>>(
    ls: Seq<Seq<A>>,
    rhs: &Pattern<A, M, P, H>,
    ctx: Seq<A>,
    m: M,
    t: A,
    n: nat,
) -> Seq<Seq<A>>
    decreases n, rhs, ls.len(),
{
    if ls.len() == 0 {
        Seq::<Seq<A>>::empty()
    } else {
        and_sols(ls.drop_last(), rhs, ctx, m, t, n) + prefixed(
            ls.last(),
            pat_sols(rhs, ctx + ls.last(), m, t, n),
        )
    }
}

/// The complete environments that the search state `(rs, l)` leads to, in
/// depth-first order. Each starts with `rs`.
pub open spec fn list_sols<A, M, P: Fn(&Vec<A>, &A) -> bool, H: Hook<A, M, P>>(
    l: &MList<A, M, P, H>,
    rs: Seq<A>,
    n: nat,
) -> Seq<Seq<A>>
    decreases n, l, 0nat,
{
    match l {
        MList::MNil => seq![rs],
        MList::MCons(c) => cons_sols(
            pat_sols(c.head.pattern, rs, c.head.matcher, c.head.target, n),
            &c.tail,
            rs,
            n,
        ),
        MList::MJoin(j) => join_sols(list_sols(&j.lhs, rs, n), &j.rhs, n),
    }
}

/// For every `b` of `bs`, in order: what `(rs + b, tail)` leads to.
pub open spec fn cons_sols<A, M, P: Fn(&Vec<A>, &A) -> bool, H: Hook<A, M, P>>(
    bs: Seq<Seq<A>>,
    tail: &MList<A, M, P, H>,
    rs: Seq<A>,
    n: nat,
) -> Seq<Seq<A>>
    decreases n, tail, bs.len(),
{
    if bs.len() == 0 {
        Seq::<Seq<A>>::empty()
    } else {
        cons_sols(bs.drop_last(), tail, rs, n) + list_sols(tail, rs + bs.last(), n)
    }
}

/// For every `e` of `es`, in order: what `(e, rhs)` leads to.
pub open spec fn join_sols<A, M, P: Fn(&Vec<A>, &A) -> bool, H: Hook<A, M, P>>(
    es: Seq<Seq<A>>,
    rhs: &MList<A, M, P, H>,
    n: nat,
) -> Seq<Seq<A>>
    decreases n, rhs, es.len(),
{
    if es.len() == 0 {
        Seq::<Seq<A>>::empty()
    } else {
        join_sols(es.drop_last(), rhs, n) + list_sols(rhs, es.last(), n)
    }
}

/// Number of expansions that it takes to search the state `(rs, l)` to the
/// end: the number of states with obligations left that the search visits.
pub open spec fn list_cost<A, M, P: Fn(&Vec<A>, &A) -> bool, H: Hook<A, M, P>>(
    l: &MList<A, M, P, H>,
    rs: Seq<A>,
    n: nat,
) -> nat
    decreases n, l, 0nat,
{
    match l {
        MList::MNil => 0,
        MList::MCons(c) => match c.head.pattern {
            Pattern::Pattern(h, _) => if n == 0 || !hook_live(h, rs, c.head.matcher, c.head.target) {
                1
            } else {
                let out = hook_out(h, rs, c.head.matcher, c.head.target);
                1 + list_cost(&out, rs, (n - 1) as nat) + tail_cost(
                    list_sols(&out, rs, (n - 1) as nat),
                    &c.tail,
                    n,
                )
            },
            _ => 1 + cons_cost(
                pat_sols(c.head.pattern, rs, c.head.matcher, c.head.target, n),
                &c.tail,
                rs,
                n,
            ),
        },
        MList::MJoin(j) => list_cost(&j.lhs, rs, n) + tail_cost(list_sols(&j.lhs, rs, n), &j.rhs, n),
    }
}

/// Expansions spent on `rhs` behind a join whose left side is exhausted,
/// summed over the environments `es` that the left side produced.
pub open spec fn tail_cost<A, M, P: Fn(&Vec<A>, &A) -> bool, H: Hook<A, M, P>>(
    es: Seq<Seq<A>>,
    rhs: &MList<A, M, P, H>,
    n: nat,
) -> nat
    decreases n, rhs, es.len(),
{
    if es.len() == 0 {
        0
    } else {
        tail_cost(es.drop_last(), rhs, n) + if rhs is MNil {
            1
        } else {
            list_cost(rhs, es.last(), n)
        }
    }
}

/// Expansions spent on `tail`, summed over the states `(rs + b, tail)` for
/// `b` in `bs`.
pub open spec fn cons_cost<A, M, P: Fn(&Vec<A>, &A) -> bool, H: Hook<A, M, P>>(
    bs: Seq<Seq<A>>,
    tail: &MList<A, M, P, H>,
    rs: Seq<A>,
    n: nat,
) -> nat
    decreases n, tail, bs.len(),
{
    if bs.len() == 0 {
        0
    } else {
        cons_cost(bs.drop_last(), tail, rs, n) + list_cost(tail, rs + bs.last(), n)
    }
}

impl<A, M, P: Fn(&Vec<A>, &A) -> bool, H: Hook<A, M, P>> Pattern<A, M, P, H> {
    /// The pattern is well formed where `c` bindings are visible: declared
    /// slot counts agree, every test and hook is total and functional, and
    /// hooks nest to a bounded depth.
    pub open spec fn wf(&self, c: nat) -> bool {
        exists|n: nat| pat_wf_at(self, c, n)
    }

    /// A bound on nested hook expansions under which the pattern is well
    /// formed.
    pub open spec fn rank(&self, c: nat) -> nat {
        choose|n: nat| pat_wf_at(self, c, n)
    }

    /// The environments that the pattern contributes for `target` under
    /// `matcher` when `ctx` is bound, in order. Each holds the new bindings.
    pub open spec fn solutions(&self, ctx: Seq<A>, matcher: M, target: A) -> Seq<Seq<A>> {
        pat_sols(self, ctx, matcher, target, self.rank(ctx.len()))
    }
}

impl<'a, A, M, P: Fn(&Vec<A>, &A) -> bool, H: Hook<A, M, P>> MList<'a, A, M, P, H> {
    /// The list is well formed behind `c` accumulated bindings.
    pub open spec fn wf(&self, c: nat) -> bool {
        exists|n: nat| list_wf_at(self, c, n)
    }

    /// A bound on nested hook expansions under which the list is well formed.
    pub open spec fn rank(&self, c: nat) -> nat {
        choose|n: nat| list_wf_at(self, c, n)
    }

    /// The complete environments that the state `(rs, self)` leads to, in
    /// depth-first order.
    pub open spec fn solutions(&self, rs: Seq<A>) -> Seq<Seq<A>> {
        list_sols(self, rs, self.rank(rs.len()))
    }

    /// The number of expansions that searching `(rs, self)` to the end takes.
    pub open spec fn cost(&self, rs: Seq<A>) -> nat {
        list_cost(self, rs, self.rank(rs.len()))
    }
}

/// Every environment of `envs` has `k` bindings.
pub open spec fn all_len<A>(envs: Seq<Seq<A>>, k: nat) -> bool {
    forall|i: int| 0 <= i < envs.len() ==> (#[trigger] envs[i]).len() == k
}

/// Every environment of `envs` is `rs` followed by `k` more bindings.
pub open spec fn all_extend<A>(envs: Seq<Seq<A>>, rs: Seq<A>, k: nat) -> bool {
    forall|i: int|
        0 <= i < envs.len() ==> (#[trigger] envs[i]).len() == rs.len() + k && envs[i].take(
            rs.len() as int,
        ) == rs
}

/// What a live hook answers with is well formed one level further down.
pub proof fn lemma_hook_out<A, M, P: Fn(&Vec<A>, &A) -> bool, H: Hook<A, M, P>>(
    p: &Pattern<A, M, P, H>,
    c: nat,
    n: nat,
    ctx: Seq<A>,
    m: M,
    t: A,
)
    requires
        p is Pattern,
        pat_wf_at(p, c, n),
        ctx.len() == c,
        hook_live(&p->Pattern_0, ctx, m, t),
    ensures
        n > 0,
        list_arity(&hook_out(&p->Pattern_0, ctx, m, t)) == pat_arity(p),
        list_wf_at(&hook_out(&p->Pattern_0, ctx, m, t), c, (n - 1) as nat),
{
    let h = &p->Pattern_0;
    let pair = choose|out: MList<A, M, P, H>, v: Vec<A>|
        v@ == ctx && #[trigger] call_ensures(H::expand, (h, &v, &m, &t), out);
    assert(call_ensures(H::expand, (h, &pair.1, &m, &t), pair.0));
}

/// A well-formed pattern contributes environments of exactly its declared
/// number of slots.
pub proof fn lemma_pat_shape<A, M, P: Fn(&Vec<A>, &A) -> bool, H: Hook<A, M, P>>(
    p: &Pattern<A, M, P, H>,
    c: nat,
    n: nat,
    ctx: Seq<A>,
    m: M,
    t: A,
)
    requires
        pat_wf_at(p, c, n),
        ctx.len() == c,
    ensures
        all_len(pat_sols(p, ctx, m, t, n), pat_arity(p)),
    decreases n, p, 0nat,
{
    match p {
        Pattern::Wildcard(_) => {},
        Pattern::PatVar(_) => {},
        Pattern::AndPat(b) => {
            lemma_pat_shape(&b.lhs, c, n, ctx, m, t);
            lemma_and_shape(pat_sols(&b.lhs, ctx, m, t, n), &b.rhs, c, pat_arity(&b.lhs), n, ctx, m, t);
        },
        Pattern::OrPat(l, r) => {
            lemma_pat_shape(&**l, c, n, ctx, m, t);
            lemma_pat_shape(&**r, c, n, ctx, m, t);
        },
        Pattern::NotPat(_) => {},
        Pattern::PredicatePat(_) => {},
        Pattern::Pattern(h, k) => {
            if hook_live(h, ctx, m, t) {
                lemma_hook_out(p, c, n, ctx, m, t);
                let out = hook_out(h, ctx, m, t);
                lemma_list_shape(&out, c, (n - 1) as nat, ctx);
            }
        },
    }
}

proof fn lemma_and_shape<A, M, P: Fn(&Vec<A>, &A) -> bool, H: Hook<A, M, P>>(
    ls: Seq<Seq<A>>,
    rhs: &Pattern<A, M, P, H>,
    c: nat,
    a: nat,
    n: nat,
    ctx: Seq<A>,
    m: M,
    t: A,
)
    requires
        all_len(ls, a),
        pat_wf_at(rhs, c + a, n),
        ctx.len() == c,
    ensures
        all_len(and_sols(ls, rhs, ctx, m, t, n), a + pat_arity(rhs)),
    decreases n, rhs, ls.len(),
{
    if ls.len() > 0 {
        lemma_and_shape(ls.drop_last(), rhs, c, a, n, ctx, m, t);
        lemma_pat_shape(rhs, c + a, n, ctx + ls.last(), m, t);
    }
}

/// A well-formed state leads to environments that start with what it has
/// accumulated and add exactly the slots that its obligations declare.
pub proof fn lemma_list_shape<A, M, P: Fn(&Vec<A>, &A) -> bool, H: Hook<A, M, P>>(
    l: &MList<A, M, P, H>,
    c: nat,
    n: nat,
    rs: Seq<A>,
)
    requires
        list_wf_at(l, c, n),
        rs.len() == c,
    ensures
        all_extend(list_sols(l, rs, n), rs, list_arity(l)),
    decreases n, l, 0nat,
{
    match l {
        MList::MNil => {
            assert(rs.take(rs.len() as int) =~= rs);
        },
        MList::MCons(cell) => {
            lemma_pat_shape(cell.head.pattern, c, n, rs, cell.head.matcher, cell.head.target);
            lemma_cons_shape(
                pat_sols(cell.head.pattern, rs, cell.head.matcher, cell.head.target, n),
                &cell.tail,
                pat_arity(cell.head.pattern),
                n,
                rs,
            );
        },
        MList::MJoin(j) => {
            lemma_list_shape(&j.lhs, c, n, rs);
            lemma_join_shape(list_sols(&j.lhs, rs, n), &j.rhs, list_arity(&j.lhs), n, rs);
        },
    }
}

proof fn lemma_cons_shape<A, M, P: Fn(&Vec<A>, &A) -> bool, H: Hook<A, M, P>>(
    bs: Seq<Seq<A>>,
    tail: &MList<A, M, P, H>,
    a: nat,
    n: nat,
    rs: Seq<A>,
)
    requires
        all_len(bs, a),
        list_wf_at(tail, rs.len() + a, n),
    ensures
        all_extend(cons_sols(bs, tail, rs, n), rs, a + list_arity(tail)),
    decreases n, tail, bs.len(),
{
    if bs.len() > 0 {
        lemma_cons_shape(bs.drop_last(), tail, a, n, rs);
        let b = bs.last();
        lemma_list_shape(tail, rs.len() + a, n, rs + b);
        let tl = list_sols(tail, rs + b, n);
        assert forall|i: int| 0 <= i < tl.len() implies (#[trigger] tl[i]).len() == rs.len() + (a
            + list_arity(tail)) && tl[i].take(rs.len() as int) == rs by {
            assert(tl[i].take((rs + b).len() as int) == rs + b);
            assert(tl[i].take(rs.len() as int) =~= (rs + b).take(rs.len() as int));
            assert((rs + b).take(rs.len() as int) =~= rs);
        }
    }
}

proof fn lemma_join_shape<A, M, P: Fn(&Vec<A>, &A) -> bool, H: Hook<A, M, P>>(
    es: Seq<Seq<A>>,
    rhs: &MList<A, M, P, H>,
    a: nat,
    n: nat,
    rs: Seq<A>,
)
    requires
        all_extend(es, rs, a),
        list_wf_at(rhs, rs.len() + a, n),
    ensures
        all_extend(join_sols(es, rhs, n), rs, a + list_arity(rhs)),
    decreases n, rhs, es.len(),
{
    if es.len() > 0 {
        lemma_join_shape(es.drop_last(), rhs, a, n, rs);
        let e = es.last();
        lemma_list_shape(rhs, rs.len() + a, n, e);
        let tl = list_sols(rhs, e, n);
        assert forall|i: int| 0 <= i < tl.len() implies (#[trigger] tl[i]).len() == rs.len() + (a
            + list_arity(rhs)) && tl[i].take(rs.len() as int) == rs by {
            assert(tl[i].take(e.len() as int) == e);
            assert(tl[i].take(rs.len() as int) =~= e.take(rs.len() as int));
        }
    }
}

/// Well-formedness survives a larger bound on nested hook expansions.
pub proof fn lemma_pat_mono<A, M, P: Fn(&Vec<A>, &A) -> bool, H: Hook<A, M, P>>(
    p: &Pattern<A, M, P, H>,
    c: nat,
    n: nat,
    n2: nat,
)
    requires
        pat_wf_at(p, c, n),
        n <= n2,
    ensures
        pat_wf_at(p, c, n2),
    decreases n, p,
{
    match p {
        Pattern::Wildcard(_) => {},
        Pattern::PatVar(_) => {},
        Pattern::AndPat(b) => {
            lemma_pat_mono(&b.lhs, c, n, n2);
            lemma_pat_mono(&b.rhs, c + pat_arity(&b.lhs), n, n2);
        },
        Pattern::OrPat(l, r) => {
            lemma_pat_mono(&**l, c, n, n2);
            lemma_pat_mono(&**r, c, n, n2);
        },
        Pattern::NotPat(q) => {
            lemma_pat_mono(&**q, c, n, n2);
        },
        Pattern::PredicatePat(_) => {},
        Pattern::Pattern(h, k) => {
            assert forall|v: Vec<A>, m: M, t: A, out: MList<A, M, P, H>|
                v@.len() == c && #[trigger] call_ensures(
                    H::expand,
                    (h, &v, &m, &t),
                    out,
                ) implies list_arity(&out) == *k && list_wf_at(&out, c, (n2 - 1) as nat) by {
                lemma_list_mono(&out, c, (n - 1) as nat, (n2 - 1) as nat);
            }
        },
    }
}

/// Well-formedness of a list survives a larger bound on nested hook
/// expansions.
pub proof fn lemma_list_mono<A, M, P: Fn(&Vec<A>, &A) -> bool, H: Hook<A, M, P>>(
    l: &MList<A, M, P, H>,
    c: nat,
    n: nat,
    n2: nat,
)
    requires
        list_wf_at(l, c, n),
        n <= n2,
    ensures
        list_wf_at(l, c, n2),
    decreases n, l,
{
    match l {
        MList::MNil => {},
        MList::MCons(cell) => {
            lemma_pat_mono(cell.head.pattern, c, n, n2);
            lemma_list_mono(&cell.tail, c + pat_arity(cell.head.pattern), n, n2);
        },
        MList::MJoin(j) => {
            lemma_list_mono(&j.lhs, c, n, n2);
            lemma_list_mono(&j.rhs, c + list_arity(&j.lhs), n, n2);
        },
    }
}

/// What a well-formed pattern contributes does not depend on the bound on
/// nested hook expansions under which it is well formed.
pub proof fn lemma_pat_rank<A, M, P: Fn(&Vec<A>, &A) -> bool, H: Hook<A, M, P>>(
    p: &Pattern<A, M, P, H>,
    c: nat,
    n: nat,
    n2: nat,
    ctx: Seq<A>,
    m: M,
    t: A,
)
    requires
        pat_wf_at(p, c, n),
        pat_wf_at(p, c, n2),
        ctx.len() == c,
    ensures
        pat_sols(p, ctx, m, t, n) == pat_sols(p, ctx, m, t, n2),
    decreases n, p, 0nat,
{
    match p {
        Pattern::Wildcard(_) => {},
        Pattern::PatVar(_) => {},
        Pattern::AndPat(b) => {
            lemma_pat_rank(&b.lhs, c, n, n2, ctx, m, t);
            lemma_pat_shape(&b.lhs, c, n, ctx, m, t);
            lemma_and_rank(pat_sols(&b.lhs, ctx, m, t, n), &b.rhs, c, pat_arity(&b.lhs), n, n2, ctx, m, t);
        },
        Pattern::OrPat(l, r) => {
            lemma_pat_rank(&**l, c, n, n2, ctx, m, t);
            lemma_pat_rank(&**r, c, n, n2, ctx, m, t);
        },
        Pattern::NotPat(q) => {
            lemma_pat_rank(&**q, c, n, n2, ctx, m, t);
        },
        Pattern::PredicatePat(_) => {},
        Pattern::Pattern(h, k) => {
            if hook_live(h, ctx, m, t) {
                lemma_hook_out(p, c, n, ctx, m, t);
                lemma_hook_out(p, c, n2, ctx, m, t);
                let out = hook_out(h, ctx, m, t);
                lemma_list_rank(&out, c, (n - 1) as nat, (n2 - 1) as nat, ctx);
            }
        },
    }
}

proof fn lemma_and_rank<A, M, P: Fn(&Vec<A>, &A) -> bool, H: Hook<A, M, P>>(
    ls: Seq<Seq<A>>,
    rhs: &Pattern<A, M, P, H>,
    c: nat,
    a: nat,
    n: nat,
    n2: nat,
    ctx: Seq<A>,
    m: M,
    t: A,
)
    requires
        all_len(ls, a),
        pat_wf_at(rhs, c + a, n),
        pat_wf_at(rhs, c + a, n2),
        ctx.len() == c,
    ensures
        and_sols(ls, rhs, ctx, m, t, n) == and_sols(ls, rhs, ctx, m, t, n2),
    decreases n, rhs, ls.len(),
{
    if ls.len() > 0 {
        lemma_and_rank(ls.drop_last(), rhs, c, a, n, n2, ctx, m, t);
        lemma_pat_rank(rhs, c + a, n, n2, ctx + ls.last(), m, t);
    }
}

/// What a well-formed state leads to does not depend on the bound on nested
/// hook expansions under which it is well formed.
pub proof fn lemma_list_rank<A, M, P: Fn(&Vec<A>, &A) -> bool, H: Hook<A, M, P>>(
    l: &MList<A, M, P, H>,
    c: nat,
    n: nat,
    n2: nat,
    rs: Seq<A>,
)
    requires
        list_wf_at(l, c, n),
        list_wf_at(l, c, n2),
        rs.len() == c,
    ensures
        list_sols(l, rs, n) == list_sols(l, rs, n2),
    decreases n, l, 0nat,
{
    match l {
        MList::MNil => {},
        MList::MCons(cell) => {
            let hd = cell.head;
            lemma_pat_rank(hd.pattern, c, n, n2, rs, hd.matcher, hd.target);
            lemma_pat_shape(hd.pattern, c, n, rs, hd.matcher, hd.target);
            lemma_cons_rank(
                pat_sols(hd.pattern, rs, hd.matcher, hd.target, n),
                &cell.tail,
                pat_arity(hd.pattern),
                n,
                n2,
                rs,
            );
        },
        MList::MJoin(j) => {
            lemma_list_rank(&j.lhs, c, n, n2, rs);
            lemma_list_shape(&j.lhs, c, n, rs);
            lemma_join_rank(list_sols(&j.lhs, rs, n), &j.rhs, list_arity(&j.lhs), n, n2, rs);
        },
    }
}

proof fn lemma_cons_rank<A, M, P: Fn(&Vec<A>, &A) -> bool, H: Hook<A, M, P>>(
    bs: Seq<Seq<A>>,
    tail: &MList<A, M, P, H>,
    a: nat,
    n: nat,
    n2: nat,
    rs: Seq<A>,
)
    requires
        all_len(bs, a),
        list_wf_at(tail, rs.len() + a, n),
        list_wf_at(tail, rs.len() + a, n2),
    ensures
        cons_sols(bs, tail, rs, n) == cons_sols(bs, tail, rs, n2),
    decreases n, tail, bs.len(),
{
    if bs.len() > 0 {
        lemma_cons_rank(bs.drop_last(), tail, a, n, n2, rs);
        lemma_list_rank(tail, rs.len() + a, n, n2, rs + bs.last());
    }
}

proof fn lemma_join_rank<A, M, P: Fn(&Vec<A>, &A) -> bool, H: Hook<A, M, P>>(
    es: Seq<Seq<A>>,
    rhs: &MList<A, M, P, H>,
    a: nat,
    n: nat,
    n2: nat,
    rs: Seq<A>,
)
    requires
        all_extend(es, rs, a),
        list_wf_at(rhs, rs.len() + a, n),
        list_wf_at(rhs, rs.len() + a, n2),
    ensures
        join_sols(es, rhs, n) == join_sols(es, rhs, n2),
    decreases n, rhs, es.len(),
{
    if es.len() > 0 {
        lemma_join_rank(es.drop_last(), rhs, a, n, n2, rs);
        lemma_list_rank(rhs, rs.len() + a, n, n2, es.last());
    }
}

/// The number of expansions of a well-formed state does not depend on the
/// bound on nested hook expansions under which it is well formed.
pub proof fn lemma_cost_rank<A, M, P: Fn(&Vec<A>, &A) -> bool, H: Hook<A, M, P>>(
    l: &MList<A, M, P, H>,
    c: nat,
    n: nat,
    n2: nat,
    rs: Seq<A>,
)
    requires
        list_wf_at(l, c, n),
        list_wf_at(l, c, n2),
        rs.len() == c,
    ensures
        list_cost(l, rs, n) == list_cost(l, rs, n2),
    decreases n, l, 0nat,
{
    match l {
        MList::MNil => {},
        MList::MCons(cell) => {
            let hd = cell.head;
            match hd.pattern {
                Pattern::Pattern(h, _) => {
                    if hook_live(h, rs, hd.matcher, hd.target) {
                        lemma_hook_out(hd.pattern, c, n, rs, hd.matcher, hd.target);
                        lemma_hook_out(hd.pattern, c, n2, rs, hd.matcher, hd.target);
                        let out = hook_out(h, rs, hd.matcher, hd.target);
                        let k = (n - 1) as nat;
                        let k2 = (n2 - 1) as nat;
                        lemma_cost_rank(&out, c, k, k2, rs);
                        lemma_list_rank(&out, c, k, k2, rs);
                        lemma_list_shape(&out, c, k, rs);
                        lemma_tail_cost_rank(list_sols(&out, rs, k), &cell.tail, list_arity(&out), n, n2, rs);
                    }
                },
                _ => {
                    lemma_pat_rank(hd.pattern, c, n, n2, rs, hd.matcher, hd.target);
                    lemma_pat_shape(hd.pattern, c, n, rs, hd.matcher, hd.target);
                    lemma_cons_cost_rank(
                        pat_sols(hd.pattern, rs, hd.matcher, hd.target, n),
                        &cell.tail,
                        pat_arity(hd.pattern),
                        n,
                        n2,
                        rs,
                    );
                },
            }
        },
        MList::MJoin(j) => {
            lemma_cost_rank(&j.lhs, c, n, n2, rs);
            lemma_list_rank(&j.lhs, c, n, n2, rs);
            lemma_list_shape(&j.lhs, c, n, rs);
            lemma_tail_cost_rank(list_sols(&j.lhs, rs, n), &j.rhs, list_arity(&j.lhs), n, n2, rs);
        },
    }
}

proof fn lemma_tail_cost_rank<A, M, P: Fn(&Vec<A>, &A) -> bool, H: Hook<A, M, P>>(
    es: Seq<Seq<A>>,
    rhs: &MList<A, M, P, H>,
    a: nat,
    n: nat,
    n2: nat,
    rs: Seq<A>,
)
    requires
        all_extend(es, rs, a),
        list_wf_at(rhs, rs.len() + a, n),
        list_wf_at(rhs, rs.len() + a, n2),
    ensures
        tail_cost(es, rhs, n) == tail_cost(es, rhs, n2),
    decreases n, rhs, es.len(),
{
    if es.len() > 0 {
        lemma_tail_cost_rank(es.drop_last(), rhs, a, n, n2, rs);
        lemma_cost_rank(rhs, rs.len() + a, n, n2, es.last());
    }
}

proof fn lemma_cons_cost_rank<A, M, P: Fn(&Vec<A>, &A) -> bool, H: Hook<A, M, P>>(
    bs: Seq<Seq<A>>,
    tail: &MList<A, M, P, H>,
    a: nat,
    n: nat,
    n2: nat,
    rs: Seq<A>,
)
    requires
        all_len(bs, a),
        list_wf_at(tail, rs.len() + a, n),
        list_wf_at(tail, rs.len() + a, n2),
    ensures
        cons_cost(bs, tail, rs, n) == cons_cost(bs, tail, rs, n2),
    decreases n, tail, bs.len(),
{
    if bs.len() > 0 {
        lemma_cons_cost_rank(bs.drop_last(), tail, a, n, n2, rs);
        lemma_cost_rank(tail, rs.len() + a, n, n2, rs + bs.last());
    }
}

} // verus!
