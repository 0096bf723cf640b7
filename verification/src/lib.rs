//! Core of a custom-mention query system for a chat platform.
//!
//! Users embed query expressions in ordinary messages; this library scans the
//! message for query chunks, parses each chunk into an abstract syntax tree,
//! evaluates the set algebra against a read-only view of the guild, covers the
//! resulting audience with existing roles plus an outlier set, and plans the
//! replies that deliver the mentions, gating large audiences behind a
//! confirmation step.

pub mod ast;
pub mod chars;
pub mod guild;
pub mod interpreter;
pub mod mention;
pub mod parser;
pub mod planner;
pub mod scanner;
pub mod unionize;
pub mod userset;
pub mod wrap;
