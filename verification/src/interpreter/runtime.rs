//! The runtime of the interpreter: its errors, its values and its variable scopes.
pub mod error;
pub mod state;
pub mod stdlib;
pub mod text;
pub mod value;
