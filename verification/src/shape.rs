//! Slot counts at run time, and the constructors that check them.

use crate::pattern::{AndPatImpl, MAtomImpl, MConsImpl, MJoinImpl, MList, Pattern, ShapeError};
use crate::semantics::{list_arity, pat_arity};
use core::marker::PhantomData;
use vstd::prelude::*;

verus! {

impl<A, M, P, H> Pattern<A, M, P, H> {
    /// The number of slots that the pattern declares.
    pub fn arity(&self) -> (k: usize)
        ensures
            k == pat_arity(self),
        decreases self,
    {
        match self {
            Pattern::Wildcard(_) => 0,
            Pattern::PatVar(_) => 1,
            Pattern::AndPat(b) => b.vars,
            Pattern::OrPat(l, _) => l.arity(),
            Pattern::NotPat(_) => 0,
            Pattern::PredicatePat(_) => 0,
            Pattern::Pattern(_, k) => *k,
        }
    }

    /// The pattern that binds nothing and always succeeds.
    pub fn wildcard() -> (p: Self)
        ensures
            p == Pattern::<A, M, P, H>::Wildcard(PhantomData),
    {
        Pattern::Wildcard(PhantomData)
    }

    /// The pattern that binds the target to the slot `name`.
    pub fn variable(name: String) -> (p: Self)
        ensures
            p == Pattern::<A, M, P, H>::PatVar(name),
    {
        Pattern::PatVar(name)
    }

    /// The conjunction of `lhs` and `rhs`, declared to bind `vars` slots. It
    /// is refused unless `vars` is the slot count of `lhs` plus that of `rhs`.
    pub fn conjunction(lhs: Self, rhs: Self, vars: usize) -> (r: Result<Self, ShapeError>)
        ensures
            match r {
                Ok(p) => vars == pat_arity(&lhs) + pat_arity(&rhs) && p == Pattern::AndPat(
                    Box::new(AndPatImpl { lhs, rhs, vars }),
                ),
                Err(e) => vars != pat_arity(&lhs) + pat_arity(&rhs) && e
                    == ShapeError::ConcatMismatch,
            },
    {
        match AndPatImpl::new(lhs, rhs, vars) {
            Ok(b) => Ok(Pattern::AndPat(Box::new(b))),
            Err(e) => Err(e),
        }
    }

    /// The disjunction of `lhs` and `rhs`. It is refused unless both declare
    /// the same number of slots.
    pub fn disjunction(lhs: Self, rhs: Self) -> (r: Result<Self, ShapeError>)
        ensures
            match r {
                Ok(p) => pat_arity(&lhs) == pat_arity(&rhs) && p == Pattern::OrPat(
                    Box::new(lhs),
                    Box::new(rhs),
                ),
                Err(e) => pat_arity(&lhs) != pat_arity(&rhs) && e == ShapeError::BranchMismatch,
            },
    {
        if lhs.arity() == rhs.arity() {
            Ok(Pattern::OrPat(Box::new(lhs), Box::new(rhs)))
        } else {
            Err(ShapeError::BranchMismatch)
        }
    }

    /// The negation of `inner`.
    pub fn negation(inner: Self) -> (p: Self)
        ensures
            p == Pattern::NotPat(Box::new(inner)),
    {
        Pattern::NotPat(Box::new(inner))
    }

    /// The pattern that succeeds iff `test` holds of context and target.
    pub fn predicate(test: P) -> (p: Self)
        ensures
            p == Pattern::<A, M, P, H>::PredicatePat(test),
    {
        Pattern::PredicatePat(test)
    }

    /// The pattern that hands the target to `hook` and binds `vars` slots.
    pub fn extension(hook: H, vars: usize) -> (p: Self)
        ensures
            p == Pattern::<A, M, P, H>::Pattern(hook, vars),
    {
        Pattern::Pattern(hook, vars)
    }
}

impl<A, M, P, H> AndPatImpl<A, M, P, H> {
    /// The operands of a conjunction that declares `vars` slots. They are
    /// refused unless `vars` is the slot count of `lhs` plus that of `rhs`.
    pub fn new(lhs: Pattern<A, M, P, H>, rhs: Pattern<A, M, P, H>, vars: usize) -> (r: Result<
        Self,
        ShapeError,
    >)
        ensures
            match r {
                Ok(b) => vars == pat_arity(&lhs) + pat_arity(&rhs) && b == (AndPatImpl {
                    lhs,
                    rhs,
                    vars,
                }),
                Err(e) => vars != pat_arity(&lhs) + pat_arity(&rhs) && e
                    == ShapeError::ConcatMismatch,
            },
    {
        let l = lhs.arity();
        let r = rhs.arity();
        if l <= vars && vars - l == r {
            Ok(AndPatImpl { lhs, rhs, vars })
        } else {
            Err(ShapeError::ConcatMismatch)
        }
    }
}

impl<'a, A, M, P, H> MList<'a, A, M, P, H> {
    /// The number of slots that the obligations of the list declare
    /// together, or `None` where it does not fit a `usize`.
    pub fn arity(&self) -> (r: Option<usize>)
        ensures
            match r {
                Some(k) => k == list_arity(self),
                None => list_arity(self) > usize::MAX,
            },
        decreases self,
    {
        match self {
            MList::MNil => Some(0),
            MList::MCons(c) => match c.tail.arity() {
                Some(t) => c.head.pattern.arity().checked_add(t),
                None => None,
            },
            MList::MJoin(j) => match j.lhs.arity() {
                Some(l) => match j.rhs.arity() {
                    Some(r) => l.checked_add(r),
                    None => None,
                },
                None => None,
            },
        }
    }

    /// The list with nothing left to match.
    pub fn nil() -> (l: Self)
        ensures
            l == MList::<'a, A, M, P, H>::MNil,
    {
        MList::MNil
    }

    /// The list of `head` followed by `tail`.
    pub fn cons(head: MAtomImpl<'a, A, M, P, H>, tail: Self) -> (l: Self)
        ensures
            l == MList::MCons(Box::new(MConsImpl { head, tail })),
    {
        MList::MCons(Box::new(MConsImpl { head, tail }))
    }

    /// The list of `lhs` followed by `rhs`, declared to bind `vars` slots. It
    /// is refused unless `vars` is the slot count of `lhs` plus that of `rhs`.
    pub fn join(lhs: Self, rhs: Self, vars: usize) -> (r: Result<Self, ShapeError>)
        ensures
            match r {
                Ok(l) => vars == list_arity(&lhs) + list_arity(&rhs) && l == MList::MJoin(
                    Box::new(MJoinImpl { lhs, rhs }),
                ),
                Err(e) => vars != list_arity(&lhs) + list_arity(&rhs) && e
                    == ShapeError::ConcatMismatch,
            },
    {
        match MJoinImpl::new(lhs, rhs, vars) {
            Ok(j) => Ok(MList::MJoin(Box::new(j))),
            Err(e) => Err(e),
        }
    }
}

impl<'a, A, M, P, H> MAtomImpl<'a, A, M, P, H> {
    /// The obligation to match `target` by `pattern` under `matcher`.
    pub fn new(pattern: &'a Pattern<A, M, P, H>, matcher: M, target: A) -> (a: Self)
        ensures
            a == (MAtomImpl { pattern, matcher, target }),
    {
        MAtomImpl { pattern, matcher, target }
    }
}

impl<'a, A, M, P, H> MJoinImpl<'a, A, M, P, H> {
    /// The two sides of a join that declares `vars` slots. They are refused
    /// unless `vars` is the slot count of `lhs` plus that of `rhs`.
    pub fn new(lhs: MList<'a, A, M, P, H>, rhs: MList<'a, A, M, P, H>, vars: usize) -> (r: Result<
        Self,
        ShapeError,
    >)
        ensures
            match r {
                Ok(j) => vars == list_arity(&lhs) + list_arity(&rhs) && j == (MJoinImpl {
                    lhs,
                    rhs,
                }),
                Err(e) => vars != list_arity(&lhs) + list_arity(&rhs) && e
                    == ShapeError::ConcatMismatch,
            },
    {
        let fits = match lhs.arity() {
            Some(l) => match rhs.arity() {
                Some(r) => l <= vars && vars - l == r,
                None => false,
            },
            None => false,
        };
        if fits {
            Ok(MJoinImpl { lhs, rhs })
        } else {
            Err(ShapeError::ConcatMismatch)
        }
    }
}

} // verus!
