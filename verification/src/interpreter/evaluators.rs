//! Statements of the language: how they are parsed and what they do to the state.
pub mod conditional;
pub mod control_flow;
pub mod expression;
pub mod function;
pub mod scope;
pub mod statement;
pub mod variable;
