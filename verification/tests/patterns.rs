use frunk::{HCons, HNil};
use patmatch::{AndPatImpl, Append, MAtomImpl, MJoinImpl, MList, Pattern, Placeholder, ShapeError};
use std::marker::PhantomData;

type Test = fn(&Vec<i64>, &i64) -> bool;
type Pat = Pattern<i64, (), Test, Placeholder>;

fn var(name: &str) -> Pat {
    Pattern::variable(name.to_string())
}

fn is_even(_ctx: &Vec<i64>, t: &i64) -> bool {
    *t % 2 == 0
}

fn equals_first(ctx: &Vec<i64>, t: &i64) -> bool {
    ctx[0] == *t
}

fn no_envs() -> Vec<Vec<i64>> {
    Vec::new()
}

#[test]
fn wildcard_yields_one_empty_environment_for_any_target() {
    let p: Pat = Pattern::wildcard();
    for t in [-3i64, 0, 7, i64::MAX] {
        assert_eq!(p.run(&vec![], &(), &t), vec![Vec::<i64>::new()]);
    }
    assert_eq!(p.run(&vec![1, 2], &(), &9), vec![Vec::<i64>::new()]);
    assert_eq!(p.arity(), 0);
}

#[test]
fn variable_yields_one_environment_holding_the_target() {
    let p = var("x");
    for t in [-3i64, 0, 7, i64::MIN] {
        assert_eq!(p.run(&vec![], &(), &t), vec![vec![t]]);
    }
    assert_eq!(p.run(&vec![4], &(), &9), vec![vec![9]]);
    assert_eq!(p.arity(), 1);
}

#[test]
fn conjunction_with_wildcard_on_the_left_is_the_right_operand() {
    let inner = Pattern::disjunction(var("x"), var("y")).unwrap();
    let alone = inner.run(&vec![], &(), &5);
    let inner2 = Pattern::disjunction(var("x"), var("y")).unwrap();
    let both: Pat = Pattern::conjunction(Pattern::wildcard(), inner2, 1).unwrap();
    assert_eq!(both.run(&vec![], &(), &5), alone);
    assert_eq!(alone, vec![vec![5], vec![5]]);
}

#[test]
fn conjunction_binds_left_slots_then_right_slots() {
    let p: Pat = Pattern::conjunction(var("x"), var("y"), 2).unwrap();
    assert_eq!(p.arity(), 2);
    assert_eq!(p.run(&vec![], &(), &8), vec![vec![8, 8]]);
}

#[test]
fn conjunction_orders_by_left_then_right() {
    let left: Pat = Pattern::disjunction(var("a"), var("b")).unwrap();
    let right: Pat = Pattern::disjunction(var("c"), var("d")).unwrap();
    let p = Pattern::conjunction(left, right, 2).unwrap();
    assert_eq!(p.run(&vec![], &(), &3).len(), 4);
    assert_eq!(p.run(&vec![], &(), &3), vec![vec![3, 3]; 4]);
}

#[test]
fn conjunction_right_operand_sees_left_bindings() {
    let test: Test = equals_first;
    let p: Pat = Pattern::conjunction(var("x"), Pattern::predicate(test), 1).unwrap();
    assert_eq!(p.run(&vec![], &(), &6), vec![vec![6]]);
    let q: Pat = Pattern::predicate(test);
    assert_eq!(q.run(&vec![6], &(), &7), no_envs());
}

#[test]
fn disjunction_counts_add_up_and_left_comes_first() {
    let l: Pat = Pattern::disjunction(var("x"), var("x")).unwrap();
    let r: Pat = var("x");
    let nl = l.run(&vec![], &(), &1).len();
    let nr = r.run(&vec![], &(), &1).len();
    let left_alone = l.run(&vec![], &(), &1);
    let p = Pattern::disjunction(l, r).unwrap();
    let all = p.run(&vec![], &(), &1);
    assert_eq!(all.len(), nl + nr);
    assert_eq!(all.len(), 3);
    assert_eq!(all[..nl].to_vec(), left_alone);
}

#[test]
fn disjunction_of_a_failing_and_a_matching_branch() {
    let test: Test = is_even;
    let p: Pat =
        Pattern::disjunction(Pattern::predicate(test), Pattern::wildcard()).unwrap();
    assert_eq!(p.run(&vec![], &(), &4).len(), 2);
    assert_eq!(p.run(&vec![], &(), &5).len(), 1);
}

#[test]
fn negation_succeeds_exactly_when_operand_fails() {
    let test: Test = is_even;
    let p: Pat = Pattern::negation(Pattern::predicate(test));
    assert_eq!(p.run(&vec![], &(), &3), vec![Vec::<i64>::new()]);
    assert_eq!(p.run(&vec![], &(), &4), no_envs());
    let never: Pat = Pattern::negation(Pattern::wildcard());
    assert_eq!(never.run(&vec![], &(), &0), no_envs());
    let twice: Pat = Pattern::negation(Pattern::negation(Pattern::wildcard()));
    assert_eq!(twice.run(&vec![], &(), &0), vec![Vec::<i64>::new()]);
    assert_eq!(p.arity(), 0);
}

#[test]
fn negation_of_a_pattern_with_many_solutions_yields_none() {
    let many: Pat = Pattern::disjunction(var("x"), var("x")).unwrap();
    let p = Pattern::negation(many);
    assert_eq!(p.run(&vec![], &(), &1), no_envs());
}

#[test]
fn predicate_yields_one_empty_environment_iff_test_holds() {
    let test: Test = is_even;
    let p: Pat = Pattern::predicate(test);
    assert_eq!(p.run(&vec![], &(), &10), vec![Vec::<i64>::new()]);
    assert_eq!(p.run(&vec![], &(), &11), no_envs());
}

#[test]
fn running_twice_gives_the_same_sequence() {
    let test: Test = is_even;
    let p: Pat = Pattern::conjunction(
        Pattern::disjunction(var("x"), var("y")).unwrap(),
        Pattern::disjunction(Pattern::predicate(test), Pattern::wildcard()).unwrap(),
        1,
    )
    .unwrap();
    let first = p.run(&vec![], &(), &2);
    let second = p.run(&vec![], &(), &2);
    assert_eq!(first, second);
    assert_eq!(first, vec![vec![2]; 4]);
}

#[test]
fn disjunction_with_different_slot_counts_is_refused() {
    let r: Result<Pat, ShapeError> = Pattern::disjunction(var("x"), Pattern::wildcard());
    assert!(matches!(r, Err(ShapeError::BranchMismatch)));
    let two: Pat = Pattern::conjunction(var("x"), var("y"), 2).unwrap();
    assert!(matches!(Pattern::disjunction(two, var("z")), Err(ShapeError::BranchMismatch)));
}

#[test]
fn conjunction_with_wrong_claimed_slots_is_refused() {
    let r: Result<Pat, ShapeError> = Pattern::conjunction(var("x"), var("y"), 1);
    assert!(matches!(r, Err(ShapeError::ConcatMismatch)));
    let r: Result<Pat, ShapeError> = Pattern::conjunction(var("x"), var("y"), 3);
    assert!(matches!(r, Err(ShapeError::ConcatMismatch)));
    let r: Result<Pat, ShapeError> = Pattern::conjunction(var("x"), Pattern::wildcard(), 0);
    assert!(matches!(r, Err(ShapeError::ConcatMismatch)));
    let b = AndPatImpl::new(var("x"), var("y"), 2);
    assert!(b.is_ok());
    assert_eq!(b.ok().map(|b| b.vars), Some(2));
    assert!(matches!(
        AndPatImpl::new(var("x"), var("y"), usize::MAX),
        Err(ShapeError::ConcatMismatch)
    ));
}

#[test]
fn extension_declares_its_own_slot_count() {
    let p: Pat = Pattern::extension(Placeholder::Idle, 3);
    assert_eq!(p.arity(), 3);
    let q: Pat = Pattern::disjunction(var("x"), Pattern::extension(Placeholder::Idle, 1)).unwrap();
    assert_eq!(q.arity(), 1);
}

#[test]
fn list_slot_counts_add_up() {
    let x = var("x");
    let w: Pat = Pattern::wildcard();
    let nil: MList<i64, (), Test, Placeholder> = MList::nil();
    assert_eq!(nil.arity(), Some(0));
    let l = MList::cons(MAtomImpl::new(&x, (), 1), MList::cons(MAtomImpl::new(&w, (), 2), MList::nil()));
    assert_eq!(l.arity(), Some(1));
    let r = MList::cons(MAtomImpl::new(&x, (), 3), MList::nil());
    let j = MList::join(l, r, 2).unwrap();
    assert_eq!(j.arity(), Some(2));
}

#[test]
fn list_slot_count_that_overflows_is_none() {
    let big: Pat = Pattern::extension(Placeholder::Idle, usize::MAX);
    let x = var("x");
    let l = MList::cons(MAtomImpl::new(&big, (), 1), MList::cons(MAtomImpl::new(&x, (), 2), MList::nil()));
    assert_eq!(l.arity(), None);
}

#[test]
fn join_with_wrong_claimed_slots_is_refused() {
    let x = var("x");
    let l: MList<i64, (), Test, Placeholder> = MList::cons(MAtomImpl::new(&x, (), 1), MList::nil());
    let r: MList<i64, (), Test, Placeholder> = MList::cons(MAtomImpl::new(&x, (), 2), MList::nil());
    assert!(matches!(MList::join(l, r, 1), Err(ShapeError::ConcatMismatch)));
    let l: MList<i64, (), Test, Placeholder> = MList::cons(MAtomImpl::new(&x, (), 1), MList::nil());
    let r: MList<i64, (), Test, Placeholder> = MList::nil();
    assert!(MJoinImpl::new(l, r, 1).is_ok());
    let l: MList<i64, (), Test, Placeholder> = MList::nil();
    let r: MList<i64, (), Test, Placeholder> = MList::nil();
    assert!(matches!(MJoinImpl::new(l, r, 1), Err(ShapeError::ConcatMismatch)));
}

#[test]
fn list_run_threads_bindings_left_to_right() {
    let x = var("x");
    let test: Test = equals_first;
    let same: Pat = Pattern::predicate(test);
    let l = MList::cons(MAtomImpl::new(&x, (), 4), MList::cons(MAtomImpl::new(&same, (), 4), MList::nil()));
    assert_eq!(l.run(&vec![]), vec![vec![4]]);
    let m = MList::cons(MAtomImpl::new(&x, (), 4), MList::cons(MAtomImpl::new(&same, (), 5), MList::nil()));
    assert_eq!(m.run(&vec![]), no_envs());
    let nil: MList<i64, (), Test, Placeholder> = MList::nil();
    assert_eq!(nil.run(&vec![7, 8]), vec![vec![7, 8]]);
}

#[test]
fn join_runs_left_list_then_right_list() {
    let x = var("x");
    let either: Pat = Pattern::disjunction(var("a"), var("b")).unwrap();
    let l = MList::cons(MAtomImpl::new(&either, (), 1), MList::nil());
    let r = MList::cons(MAtomImpl::new(&x, (), 2), MList::nil());
    let j = MList::join(l, r, 2).unwrap();
    assert_eq!(j.run(&vec![0]), vec![vec![0, 1, 2], vec![0, 1, 2]]);
}

#[test]
fn vectors_append_in_order() {
    assert_eq!(Append::append(vec![1, 2], vec![3]), vec![1, 2, 3]);
    assert_eq!(Append::append(Vec::<i64>::new(), vec![3]), vec![3]);
    assert_eq!(Append::append(vec![3], Vec::<i64>::new()), vec![3]);
}

#[test]
fn heterogeneous_lists_append_in_order() {
    let left = HCons { head: 1i64, tail: HCons { head: "a", tail: HNil } };
    let right = HCons { head: true, tail: HNil };
    let both = Append::append(left, right);
    assert_eq!(
        both,
        HCons { head: 1i64, tail: HCons { head: "a", tail: HCons { head: true, tail: HNil } } }
    );
    assert_eq!(Append::append(HNil, HCons { head: 2u8, tail: HNil }), HCons { head: 2u8, tail: HNil });
    assert_eq!(Append::append(HCons { head: 2u8, tail: HNil }, HNil), HCons { head: 2u8, tail: HNil });
}

#[test]
fn wildcard_values_are_interchangeable() {
    let a: Pat = Pattern::Wildcard(PhantomData);
    let b: Pat = Pattern::wildcard();
    assert_eq!(a.run(&vec![], &(), &1), b.run(&vec![], &(), &1));
}
