//! Resolution core of a rule-based policy query engine: logical terms,
//! binding frames, the walk/unify/isa algorithms, backtracking goal
//! evaluation over a knowledge base of rules, and top-level query
//! projection.

pub mod kb;
pub mod laws;
pub mod query;
pub mod state;
pub mod terms;
