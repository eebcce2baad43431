//! A non-linear pattern-matching engine: given a target and a tree of pattern
//! combinators, it enumerates every way the pattern binds its variables.

pub mod env;
pub mod eval;
pub mod laws;
pub mod matching;
pub mod pattern;
pub mod semantics;
pub mod shape;
pub mod state;

pub use env::Append;
pub use matching::{
    match_all, match_first, match_with, process_mstate_all_dfs, ClausePolicy, Enumerator, MatchClause,
    MatchClauseImpl,
};
pub use pattern::{
    AndPatImpl, Hook, MAtomImpl, MConsImpl, MJoinImpl, MList, Pattern, Placeholder, ShapeError,
};
pub use state::{MCons, MJoin, MState, MStateImpl};
