//! Runtime values that the library handles itself.
pub mod equality;
pub mod literal;
pub mod object;
pub mod symbol;
