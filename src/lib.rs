//! Compiles structured command trees into the flat instruction lists of a
//! versioned scripting dialect, hoisting oversized groups into callable units.
//!
//! - `condition`: guard expressions, their negation normal form and their
//!   expansion into disjunctive clauses;
//! - `command`: the instruction tree and its views;
//! - `execute`: compilation of commands and execute chains, and hoisting;
//! - `conditional`: the two lowerings of guarded branches;
//! - `compile`: options and the per-function compile state;
//! - `validate`: availability of commands in a range of pack formats;
//! - `function`, `namespace`, `tag`, `datapack`, `vfs`: the pack around them.

pub mod text;
pub mod digest;
pub mod queue;
pub mod condition;
pub mod command;
pub mod compile;
pub mod execute;
pub mod conditional;
pub mod validate;
pub mod function;
pub mod vfs;
pub mod tag;
pub mod namespace;
pub mod datapack;
pub mod model;
