//! A small interpreter for a Forth-like stack language.
//!
//! Programs are sequences of whitespace-delimited tokens that run against a
//! bounded stack of 16-bit signed integers. The engine supports arithmetic,
//! comparison and logic, stack manipulation, output, user-defined words and
//! `IF ... ELSE ... THEN` conditionals. Every executable function carries a
//! contract over a mathematical model of the machine, checked by Verus.

pub mod arithmetic_operations;
pub mod boolean_operations;
pub mod conditional_operations;
pub mod error;
pub mod forth_basic_operations;
pub mod laws;
pub mod machine;
pub mod output_operations;
pub mod program;
pub mod stack;
pub mod text;
pub mod token;
pub mod word_definitions;
