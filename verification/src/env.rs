//! Binding environments and their concatenation.

use vstd::prelude::*;

verus! {

/// The end of a heterogeneous list of `frunk`; it has no fields.
#[verifier::external_type_specification]
pub struct ExHNil(frunk::HNil);

/// A cell of a heterogeneous list of `frunk`, with its two public fields
/// `head` and `tail` as the crate declares them.
#[verifier::external_type_specification]
#[verifier::reject_recursive_types(H)]
#[verifier::reject_recursive_types(T)]
pub struct ExHCons<H, T>(frunk::HCons<H, T>);

/// `frunk::HCons::pop` takes a cell apart: it returns the field `head` and the
/// field `tail` as a pair, unchanged.
pub assume_specification<H, T>[ frunk::HCons::<H, T>::pop ](l: frunk::HCons<H, T>) -> (r: (H, T))
    ensures
        r.0 == l.head,
        r.1 == l.tail,
;

/// Concatenation of two environments: the bindings of `self`, in order,
/// followed by the bindings of `other`, in order.
pub trait Append<Other>: Sized {
    type Output;

    /// `out` holds the bindings of `self` followed by those of `other`.
    spec fn is_append(self, other: Other, out: Self::Output) -> bool;

    /// Consumes both environments and returns their concatenation.
    fn append(self, other: Other) -> (out: Self::Output)
        ensures
            self.is_append(other, out),
    ;
}

impl<Other> Append<Other> for frunk::HNil {
    type Output = Other;

    open spec fn is_append(self, other: Other, out: Other) -> bool {
        out == other
    }

    fn append(self, other: Other) -> (out: Other) {
        other
    }
}

impl<Other, Head, Tail: Append<Other>> Append<Other> for frunk::HCons<Head, Tail> {
    type Output = frunk::HCons<Head, Tail::Output>;

    open spec fn is_append(self, other: Other, out: frunk::HCons<Head, Tail::Output>) -> bool {
        out.head == self.head && self.tail.is_append(other, out.tail)
    }

    fn append(self, other: Other) -> (out: frunk::HCons<Head, Tail::Output>) {
        let (head, tail) = self.pop();
        frunk::HCons { head, tail: tail.append(other) }
    }
}

impl<T> Append<Vec<T>> for Vec<T> {
    type Output = Vec<T>;

    open spec fn is_append(self, other: Vec<T>, out: Vec<T>) -> bool {
        out@ == self@ + other@
    }

    fn append(self, other: Vec<T>) -> (out: Vec<T>) {
        let mut out = self;
        let mut other = other;
        Vec::append(&mut out, &mut other);
        out
    }
}

/// Cloning a `T` gives back an equal value. The engine copies targets,
/// matchers and bound values, and relies on the copies being the same values.
pub open spec fn clone_exact<T: Clone>() -> bool {
    forall|a: T, b: T| #[trigger] call_ensures(T::clone, (&a,), b) ==> a == b
}

/// A copy of `x`.
pub(crate) fn dup<T: Clone>(x: &T) -> (r: T)
    requires
        clone_exact::<T>(),
    ensures
        r == *x,
{
    x.clone()
}

/// A copy of the environment `env`.
pub(crate) fn dup_env<T: Clone>(env: &Vec<T>) -> (r: Vec<T>)
    requires
        clone_exact::<T>(),
    ensures
        r@ == env@,
{
    let mut r: Vec<T> = Vec::new();
    let mut i: usize = 0;
    while i < env.len()
        invariant
            clone_exact::<T>(),
            i <= env.len(),
            r@ == env@.take(i as int),
        decreases env.len() - i,
    {
        r.push(dup(&env[i]));
        i += 1;
    }
    assert(env@.take(env@.len() as int) == env@);
    r
}

/// `env` followed by `more`, as a new environment.
pub(crate) fn extend_env<T: Clone>(env: &Vec<T>, more: &Vec<T>) -> (r: Vec<T>)
    requires
        clone_exact::<T>(),
    ensures
        r@ == env@ + more@,
{
    dup_env(env).append(dup_env(more))
}

} // verus!
