//! Reconciles two resolved package graphs, a source workspace under local
//! development and a destination workspace that consumes its packages through
//! git, into the override groups that redirect the destination to local paths.

pub mod active;
pub mod emit;
pub mod error;
pub mod graph;
pub mod grouping;
pub mod laws;
pub mod locator;
pub mod overrides;
pub mod resolver;
pub mod seq_lemmas;
