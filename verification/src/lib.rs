//! A structural pattern-matching engine for small syntax trees.
//!
//! A pattern describes the shape of a tree declaratively: alternatives over a
//! single value, optional presence, and quantified repetition over ordered
//! children. Matching a pattern against a concrete tree either fails or
//! produces a map of named captures pointing at the sub-trees that satisfied
//! the named pattern pieces.

pub mod ast;
pub mod ast_match;
pub mod laws;
pub mod lints;
pub mod match_result;
pub mod matchers;
pub mod pattern_tree;
pub mod repeat;
