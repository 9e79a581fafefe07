//! A small family of composable Turing machines over a shared tape
//! abstraction: a deterministic subsequence verifier, a coin-driven word
//! generator, and an orchestrator that composes the two into a one-shot
//! probabilistic check of a word problem.

pub mod m1;
pub mod m2;
pub mod m3;
pub mod machine;
pub mod tape;
pub mod words;
