//! Patterns, match obligations and obligation lists.

use core::marker::PhantomData;
use vstd::prelude::*;

verus! {

/// A tree of pattern combinators over targets of type `A`, with matchers of
/// type `M`, predicates of type `P` and extension hooks of type `H`.
pub enum Pattern<A, M, P, H> {
    /// Binds nothing and always succeeds.
    Wildcard(PhantomData<(A, M)>),
    /// Binds the target to one slot and always succeeds.
    PatVar(String),
    /// Both operands must match; the right one sees the bindings of the left.
    AndPat(Box<AndPatImpl<A, M, P, H>>),
    /// Every match of the left operand, then every match of the right.
    OrPat(Box<Pattern<A, M, P, H>>, Box<Pattern<A, M, P, H>>),
    /// Succeeds, binding nothing, iff the operand has no match at all.
    NotPat(Box<Pattern<A, M, P, H>>),
    /// Succeeds, binding nothing, iff the test holds of context and target.
    PredicatePat(P),
    /// Hands the target to a hook, which answers with further obligations
    /// that bind the declared number of slots.
    Pattern(H, usize),
}

/// The two operands of a conjunction and the number of slots that the
/// conjunction declares.
pub struct AndPatImpl<A, M, P, H> {
    pub lhs: Pattern<A, M, P, H>,
    pub rhs: Pattern<A, M, P, H>,
    pub vars: usize,
}

/// A pending obligation: `target` is still to be matched by `pattern` with
/// `matcher`.
pub struct MAtomImpl<'a, A, M, P, H> {
    pub pattern: &'a Pattern<A, M, P, H>,
    pub matcher: M,
    pub target: A,
}

/// An ordered chain of obligations.
pub enum MList<'a, A, M, P, H> {
    /// Nothing is left to match.
    MNil,
    /// One obligation, then a list that sees its bindings.
    MCons(Box<MConsImpl<'a, A, M, P, H>>),
    /// Two lists in sequence; the second sees the bindings of the first.
    MJoin(Box<MJoinImpl<'a, A, M, P, H>>),
}

/// One obligation and the list behind it, which sees its bindings.
pub struct MConsImpl<'a, A, M, P, H> {
    pub head: MAtomImpl<'a, A, M, P, H>,
    pub tail: MList<'a, A, M, P, H>,
}

/// Two lists in sequence; the second sees the bindings of the first.
pub struct MJoinImpl<'a, A, M, P, H> {
    pub lhs: MList<'a, A, M, P, H>,
    pub rhs: MList<'a, A, M, P, H>,
}

/// A caller-supplied decomposition: how a structural pattern turns a target
/// into further obligations. It reads context, matcher and target only.
pub trait Hook<A, M, P>: Sized {
    /// The obligations by which matching `target` goes on, given the
    /// bindings `ctx` made so far and the matcher.
    fn expand<'a>(&'a self, ctx: &Vec<A>, matcher: &M, target: &A) -> MList<'a, A, M, P, Self>;
}

/// The hook of patterns that use no extension: it adds no obligation.
pub enum Placeholder {
    Idle,
}

impl<A, M, P> Hook<A, M, P> for Placeholder {
    fn expand<'a>(&'a self, ctx: &Vec<A>, matcher: &M, target: &A) -> MList<'a, A, M, P, Self>
        returns
            MList::<'a, A, M, P, Placeholder>::MNil,
    {
        MList::MNil
    }
}

/// Why a pattern or an obligation list was refused when it was built.
#[derive(Debug, PartialEq, Eq, Clone, Copy)]
pub enum ShapeError {
    /// The two branches of a disjunction declare different numbers of slots.
    BranchMismatch,
    /// The slots claimed for a conjunction or a join are not those of its
    /// left operand followed by those of its right operand.
    ConcatMismatch,
}

} // verus!
