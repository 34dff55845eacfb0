//! Construction engine for rich vehicle routing problems: the tour model, the
//! constraint pipeline, the insertion evaluator, the recreate heuristics and the
//! fleet validation rules, each with a verified contract.

pub mod models;
pub mod registry;
pub mod solution;
pub mod constraints;
pub mod priorities;
pub mod lemmas;
pub mod conditional;
pub mod capacity;
pub mod breaks;
pub mod pipeline;
pub mod problem;
pub mod insertions;
pub mod evaluator;
pub mod heuristic;
pub mod random;
pub mod actor_set;
pub mod regret;
pub mod gaps;
pub mod pragmatic;
pub mod hre;
pub mod validation;
