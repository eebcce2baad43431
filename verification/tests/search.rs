use patmatch::{
    process_mstate_all_dfs, Enumerator, Hook, MAtomImpl, MCons, MConsImpl, MJoin, MJoinImpl, MList,
    MState, MStateImpl, Pattern, Placeholder,
};
use std::collections::VecDeque;

#[derive(Clone, Copy, Debug, PartialEq)]
enum Value {
    Int(i64),
    Pair(i64, i64),
}

type Check = fn(&Vec<Value>, &Value) -> bool;

struct PairHook {
    first: Box<Pattern<Value, (), Check, PairHook>>,
    second: Box<Pattern<Value, (), Check, PairHook>>,
    never: Box<Pattern<Value, (), Check, PairHook>>,
}

impl Hook<Value, (), Check> for PairHook {
    fn expand<'a>(
        &'a self,
        _ctx: &Vec<Value>,
        matcher: &(),
        target: &Value,
    ) -> MList<'a, Value, (), Check, PairHook> {
        match *target {
            Value::Pair(a, b) => MList::cons(
                MAtomImpl::new(&self.first, *matcher, Value::Int(a)),
                MList::cons(MAtomImpl::new(&self.second, *matcher, Value::Int(b)), MList::nil()),
            ),
            _ => MList::cons(MAtomImpl::new(&self.never, *matcher, *target), MList::nil()),
        }
    }
}

type PairPat = Pattern<Value, (), Check, PairHook>;

fn same_as_latest(ctx: &Vec<Value>, t: &Value) -> bool {
    ctx[ctx.len() - 1] == *t
}

fn pair_of_equals() -> PairPat {
    let check: Check = same_as_latest;
    Pattern::extension(
        PairHook {
            first: Box::new(Pattern::variable("x".to_string())),
            second: Box::new(Pattern::predicate(check)),
            never: Box::new(Pattern::negation(Pattern::wildcard())),
        },
        1,
    )
}

fn drain<'a>(p: &'a PairPat, target: Value) -> Vec<Vec<Value>> {
    let mut states = VecDeque::new();
    states.push_back(MStateImpl::seed(p, (), target));
    process_mstate_all_dfs(states).into_iter().collect()
}

type Test = fn(&Vec<i64>, &i64) -> bool;
type Pat = Pattern<i64, (), Test, Placeholder>;
type State<'a> = MStateImpl<'a, i64, (), Test, Placeholder>;

fn var(name: &str) -> Pat {
    Pattern::variable(name.to_string())
}

fn envs(v: VecDeque<Vec<i64>>) -> Vec<Vec<i64>> {
    v.into_iter().collect()
}

#[test]
fn pair_with_equal_components_matches_once() {
    let p = pair_of_equals();
    assert_eq!(drain(&p, Value::Pair(1, 1)), vec![vec![Value::Int(1)]]);
    assert_eq!(p.run(&vec![], &(), &Value::Pair(1, 1)), vec![vec![Value::Int(1)]]);
}

#[test]
fn pair_with_different_components_does_not_match() {
    let p = pair_of_equals();
    assert_eq!(drain(&p, Value::Pair(1, 2)), Vec::<Vec<Value>>::new());
    assert_eq!(p.run(&vec![], &(), &Value::Pair(1, 2)), Vec::<Vec<Value>>::new());
}

#[test]
fn pair_pattern_on_a_target_that_is_no_pair_does_not_match() {
    let p = pair_of_equals();
    assert_eq!(drain(&p, Value::Int(1)), Vec::<Vec<Value>>::new());
}

#[test]
fn extension_under_a_conjunction_sees_earlier_bindings() {
    let p: PairPat =
        Pattern::conjunction(Pattern::variable("whole".to_string()), pair_of_equals(), 2).unwrap();
    assert_eq!(
        drain(&p, Value::Pair(3, 3)),
        vec![vec![Value::Pair(3, 3), Value::Int(3)]]
    );
    assert_eq!(drain(&p, Value::Pair(3, 4)), Vec::<Vec<Value>>::new());
}

#[test]
fn extension_at_the_head_becomes_a_join() {
    let p = pair_of_equals();
    let seed = MStateImpl::seed(&p, (), Value::Pair(2, 2));
    assert!(seed.decompose_if_nil().is_none());
    let next = seed.process();
    assert_eq!(next.len(), 1);
    assert_eq!(next[0].rs, Vec::<Value>::new());
    assert!(matches!(next[0].list, MList::MJoin(_)));
    let after = next[0].process();
    assert_eq!(after.len(), 1);
    assert_eq!(after[0].rs, vec![Value::Int(2)]);
    assert!(matches!(after[0].list, MList::MJoin(_)));
}

#[test]
fn two_variables_in_a_disjunction_yield_the_target_twice() {
    let p: Pat = Pattern::disjunction(var("x"), var("x")).unwrap();
    let mut states = VecDeque::new();
    states.push_back(MStateImpl::seed(&p, (), 5));
    assert_eq!(envs(process_mstate_all_dfs(states)), vec![vec![5], vec![5]]);
}

#[test]
fn no_states_no_solutions() {
    let states: VecDeque<State> = VecDeque::new();
    assert_eq!(envs(process_mstate_all_dfs(states)), Vec::<Vec<i64>>::new());
}

#[test]
fn finished_state_decomposes_to_its_environment() {
    let s: State = MStateImpl { rs: vec![1, 2], list: MList::nil() };
    assert_eq!(s.decompose_if_nil(), Some(vec![1, 2]));
    let mut states = VecDeque::new();
    states.push_back(s);
    assert_eq!(envs(process_mstate_all_dfs(states)), vec![vec![1, 2]]);
}

#[test]
fn cons_leaves_one_state_per_environment_of_its_head() {
    let either: Pat = Pattern::disjunction(var("a"), var("b")).unwrap();
    let y = var("y");
    let cell = MConsImpl {
        head: MAtomImpl::new(&either, (), 7),
        tail: MList::cons(MAtomImpl::new(&y, (), 8), MList::nil()),
    };
    let next = cell.process(&vec![0]);
    assert_eq!(next.len(), 2);
    for s in next.iter() {
        assert_eq!(s.rs, vec![0, 7]);
        assert!(matches!(s.list, MList::MCons(_)));
        assert!(s.decompose_if_nil().is_none());
    }
}

#[test]
fn cons_with_a_failing_head_leaves_no_state() {
    let never: Pat = Pattern::negation(Pattern::wildcard());
    let cell = MConsImpl { head: MAtomImpl::new(&never, (), 7), tail: MList::nil() };
    assert_eq!(cell.process(&vec![]).len(), 0);
}

#[test]
fn join_of_two_empty_lists_leaves_the_finished_state() {
    let j: MJoinImpl<i64, (), Test, Placeholder> = MJoinImpl::new(MList::nil(), MList::nil(), 0).unwrap();
    let next = j.process(&vec![3]);
    assert_eq!(next.len(), 1);
    assert_eq!(next[0].decompose_if_nil(), Some(vec![3]));
}

#[test]
fn join_with_empty_left_side_steps_the_right_side() {
    let x = var("x");
    let j = MJoinImpl::new(MList::nil(), MList::cons(MAtomImpl::new(&x, (), 4), MList::nil()), 1).unwrap();
    let next = j.process(&vec![3]);
    assert_eq!(next.len(), 1);
    assert_eq!(next[0].decompose_if_nil(), Some(vec![3, 4]));
}

#[test]
fn join_keeps_the_right_side_behind_each_successor_of_the_left() {
    let either: Pat = Pattern::disjunction(var("a"), var("b")).unwrap();
    let x = var("x");
    let j = MJoinImpl::new(
        MList::cons(MAtomImpl::new(&either, (), 1), MList::nil()),
        MList::cons(MAtomImpl::new(&x, (), 2), MList::nil()),
        2,
    )
    .unwrap();
    let next = j.process(&vec![]);
    assert_eq!(next.len(), 2);
    for s in next.iter() {
        assert_eq!(s.rs, vec![1]);
        assert!(matches!(s.list, MList::MJoin(_)));
    }
    let mut states = VecDeque::new();
    states.push_back(MStateImpl { rs: vec![], list: MList::MJoin(Box::new(j)) });
    assert_eq!(envs(process_mstate_all_dfs(states)), vec![vec![1, 2], vec![1, 2]]);
}

#[test]
fn states_are_searched_in_the_order_given() {
    let x = var("x");
    let mut states = VecDeque::new();
    states.push_back(MStateImpl::seed(&x, (), 1));
    states.push_back(MStateImpl::seed(&x, (), 2));
    states.push_back(MStateImpl::seed(&x, (), 3));
    assert_eq!(envs(process_mstate_all_dfs(states)), vec![vec![1], vec![2], vec![3]]);
}

#[test]
fn successors_go_ahead_of_the_rest_of_the_queue() {
    let either: Pat = Pattern::disjunction(var("a"), var("b")).unwrap();
    let y = var("y");
    let chain = MList::cons(
        MAtomImpl::new(&either, (), 1),
        MList::cons(MAtomImpl::new(&either, (), 2), MList::nil()),
    );
    let mut states = VecDeque::new();
    states.push_back(MStateImpl { rs: vec![], list: chain });
    states.push_back(MStateImpl::seed(&y, (), 9));
    assert_eq!(
        envs(process_mstate_all_dfs(states)),
        vec![vec![1, 2], vec![1, 2], vec![1, 2], vec![1, 2], vec![9]]
    );
}

#[test]
fn enumerator_is_pulled_one_solution_at_a_time() {
    let x = var("x");
    let mut states = VecDeque::new();
    states.push_back(MStateImpl::seed(&x, (), 1));
    states.push_back(MStateImpl::seed(&x, (), 2));
    let mut search: Enumerator<Vec<i64>, State> = Enumerator::new(states);
    assert_eq!(search.expansions(), 0);
    assert_eq!(search.next(), Some(vec![1]));
    assert_eq!(search.expansions(), 1);
    assert_eq!(search.next(), Some(vec![2]));
    assert_eq!(search.expansions(), 2);
    assert_eq!(search.next(), None);
    assert_eq!(search.expansions(), 2);
    assert_eq!(search.next(), None);
}

#[test]
fn pulling_some_solutions_expands_no_more_than_they_need() {
    let either: Pat = Pattern::disjunction(var("a"), var("b")).unwrap();
    let chain = MList::cons(
        MAtomImpl::new(&either, (), 1),
        MList::cons(MAtomImpl::new(&either, (), 2), MList::nil()),
    );
    let mut states = VecDeque::new();
    states.push_back(MStateImpl { rs: vec![], list: chain });
    let mut search: Enumerator<Vec<i64>, State> = Enumerator::new(states);
    assert_eq!(search.next(), Some(vec![1, 2]));
    assert_eq!(search.expansions(), 2);
    assert_eq!(search.next(), Some(vec![1, 2]));
    assert_eq!(search.expansions(), 2);
    assert_eq!(search.next(), Some(vec![1, 2]));
    assert_eq!(search.expansions(), 3);
    assert_eq!(search.next(), Some(vec![1, 2]));
    assert_eq!(search.expansions(), 3);
    assert_eq!(search.next(), None);
    assert_eq!(search.expansions(), 3);
}

#[test]
fn failing_states_are_expanded_on_the_way_to_the_next_solution() {
    let never: Pat = Pattern::negation(Pattern::wildcard());
    let x = var("x");
    let mut states = VecDeque::new();
    states.push_back(MStateImpl::seed(&never, (), 1));
    states.push_back(MStateImpl::seed(&never, (), 2));
    states.push_back(MStateImpl::seed(&x, (), 3));
    states.push_back(MStateImpl::seed(&x, (), 4));
    let mut search: Enumerator<Vec<i64>, State> = Enumerator::new(states);
    assert_eq!(search.next(), Some(vec![3]));
    assert_eq!(search.expansions(), 3);
}

#[test]
fn searching_twice_gives_the_same_sequence() {
    let either: Pat = Pattern::disjunction(var("a"), var("b")).unwrap();
    let p: Pat = Pattern::conjunction(either, var("c"), 2).unwrap();
    let mut one = VecDeque::new();
    one.push_back(MStateImpl::seed(&p, (), 6));
    let mut two = VecDeque::new();
    two.push_back(MStateImpl::seed(&p, (), 6));
    let first = envs(process_mstate_all_dfs(one));
    assert_eq!(first, envs(process_mstate_all_dfs(two)));
    assert_eq!(first, vec![vec![6, 6], vec![6, 6]]);
    assert_eq!(first, p.run(&vec![], &(), &6));
}
