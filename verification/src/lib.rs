//! Gardens of working trees.
//!
//! A configuration declares trees, and the groups and gardens that gather them.
//! This crate holds the data model (`model`), the grammar of expressions
//! (`expr`) and the evaluator that substitutes and caches their values
//! (`eval`), the resolver that turns a selector into the ordered list of tree
//! contexts that it names (`query`), the steps that bring a configuration into
//! use (`setup`), the orchestrator of a run over many trees (`exec`), the
//! forest of configurations that grafts compose (`context`), and the progress
//! lines (`display`).
//!
//! The library launches no process and reads no file. Where a value is the
//! output of a command, the evaluator hands the command out; the caller runs it
//! and evaluates again with the answer.

pub mod text;
pub mod errors;
pub mod syntax;
pub mod pattern;
pub mod model;
pub mod expr;
pub mod eval;
pub mod query;
pub mod exec;
pub mod context;
pub mod display;
pub mod setup;
