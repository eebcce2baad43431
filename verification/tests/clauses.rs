use patmatch::{
    match_all, match_first, match_with, ClausePolicy, MatchClause, MatchClauseImpl, Pattern,
    Placeholder,
};
use std::collections::VecDeque;

type Test = fn(&Vec<i64>, &i64) -> bool;
type Pat = Pattern<i64, (), Test, Placeholder>;
type Make = Box<dyn Fn(Vec<i64>) -> String>;
type Clause = MatchClauseImpl<i64, (), Test, Placeholder, Make>;

fn var(name: &str) -> Pat {
    Pattern::variable(name.to_string())
}

fn is_even(_ctx: &Vec<i64>, t: &i64) -> bool {
    *t % 2 == 0
}

fn clause(pattern: Pat, label: &'static str) -> Clause {
    MatchClauseImpl { pattern, processor: Box::new(move |env: Vec<i64>| format!("{}{:?}", label, env)) }
}

fn even() -> Pat {
    let test: Test = is_even;
    Pattern::predicate(test)
}

fn three_clauses() -> VecDeque<Clause> {
    let mut clauses = VecDeque::new();
    clauses.push_back(clause(even(), "even"));
    clauses.push_back(clause(Pattern::disjunction(var("x"), var("y")).unwrap(), "either"));
    clauses.push_back(clause(var("z"), "any"));
    clauses
}

fn strings(out: VecDeque<String>) -> Vec<String> {
    out.into_iter().collect()
}

#[test]
fn every_clause_contributes_in_clause_order() {
    assert_eq!(
        strings(match_all(4, (), three_clauses())),
        vec!["even[]", "either[4]", "either[4]", "any[4]"]
    );
    assert_eq!(strings(match_all(5, (), three_clauses())), vec!["either[5]", "either[5]", "any[5]"]);
}

#[test]
fn no_clauses_no_results() {
    let clauses: VecDeque<Clause> = VecDeque::new();
    assert_eq!(strings(match_all(1, (), clauses)), Vec::<String>::new());
    let clauses: VecDeque<Clause> = VecDeque::new();
    assert_eq!(strings(match_first(1, (), clauses)), Vec::<String>::new());
}

#[test]
fn first_matching_clause_alone_contributes() {
    assert_eq!(strings(match_first(4, (), three_clauses())), vec!["even[]"]);
    assert_eq!(strings(match_first(5, (), three_clauses())), vec!["either[5]", "either[5]"]);
}

#[test]
fn no_matching_clause_no_results() {
    let mut clauses = VecDeque::new();
    clauses.push_back(clause(even(), "even"));
    clauses.push_back(clause(Pattern::negation(Pattern::wildcard()), "never"));
    assert_eq!(strings(match_first(3, (), clauses)), Vec::<String>::new());
    let mut clauses = VecDeque::new();
    clauses.push_back(clause(even(), "even"));
    assert_eq!(strings(match_all(3, (), clauses)), Vec::<String>::new());
}

#[test]
fn policy_selects_the_driver() {
    assert_eq!(
        strings(match_with(ClausePolicy::AllClauses, 4, (), three_clauses())),
        strings(match_all(4, (), three_clauses()))
    );
    assert_eq!(
        strings(match_with(ClausePolicy::FirstMatch, 4, (), three_clauses())),
        strings(match_first(4, (), three_clauses()))
    );
    assert_ne!(ClausePolicy::AllClauses, ClausePolicy::FirstMatch);
}

#[test]
fn clause_hands_out_its_pattern_and_applies_its_function() {
    let c = clause(var("x"), "got");
    assert_eq!(c.pattern().arity(), 1);
    assert_eq!(c.apply(vec![1, 2]), "got[1, 2]");
}
