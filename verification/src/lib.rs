
//!
//! An ahead-of-time compiler for a small statically typed imperative
//! The pipeline parses source text into a syntax tree, validates it with
//! a suite of semantic passes, lowers it to a basic-block control-flow
//! arithmetic and comparisons, calls, conditionals and returns.
//! graph, and emits an instruction-level module for a native backend to
//! language: functions, machine integers, record types, assignments,
//! write out as bitcode.
pub mod ast;
pub mod backend;
pub mod codegen;
pub mod error;
pub mod grammar;
pub mod lir;
pub mod lowering;
pub mod nodes;
pub mod pass;
pub mod runner;
pub mod symbol_table;
pub mod traversal;
pub mod visitors;
