//! A tiny postscript-style, stack-oriented interpreter.
//!
//! Source text is split into whitespace-separated tokens; tokens push values
//! onto a data stack or invoke operators that consume and produce values.
//! Nested `{` `}` blocks are first-class values that can be executed
//! conditionally (`if`), iterated (`for`) or bound to names (`def`).
//! Evaluation is an explicit small-step state machine over an execution
//! stack, so a driver can advance one operation at a time and inspect the
//! machine between steps.

pub mod fnum;
pub mod text;
pub mod names;
pub mod value;
pub mod error;
pub mod parser;
pub mod vm;
pub mod trace;
pub mod eval;
pub mod laws;
