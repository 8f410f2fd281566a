//! # DreamBerd "noodles" interpreter
//!
//! The verified core of an interpreter for the DreamBerd programming language:
//! source positions, the lexical parsers, the static analysis that finds hoisted
//! declarations, literal and operator parsing, expression tree building and the
//! variable scopes of the runtime.

pub mod cli;
pub mod interpreter;
pub mod prelude;
