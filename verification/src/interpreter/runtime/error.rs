//! Errors raised while a program runs.
use vstd::prelude::*;
use crate::interpreter::parsers::types::chars_to_string;
use super::text::{decimal, push_decimal, push_str};

verus! {

/// An error raised while a program runs
#[derive(Debug, Clone)]
pub enum Error {
    /// A function of that name is not defined
    FunctionNotFound(String),
    /// A function was called with a wrong number of arguments
    InvalidArgumentCount { expected: usize, got: usize },
    /// An exception raised by the program itself
    RuntimeException(String),
    /// A variable of that name is not defined
    VariableNotFound(String),
}

impl Error {
    /// The text that describes the error.
    pub open spec fn message_spec(&self) -> Seq<char> {
        match self {
            Error::FunctionNotFound(name) => "Function "@ + name@ + " not found"@,
            Error::InvalidArgumentCount { expected, got } => "Invalid argument count, expected "@
                + decimal(*expected as nat) + ", got "@ + decimal(*got as nat),
            Error::RuntimeException(text) => "Runtime exception: "@ + text@,
            Error::VariableNotFound(name) => "Variable "@ + name@ + " not found"@,
        }
    }

    /// Appends the text that describes the error.
    pub fn write_message(&self, out: &mut Vec<char>)
        ensures
            final(out)@ == old(out)@ + self.message_spec(),
    {
        match self {
            Error::FunctionNotFound(name) => {
                push_str(out, "Function ");
                push_str(out, name.as_str());
                push_str(out, " not found");
            },
            Error::InvalidArgumentCount { expected, got } => {
                push_str(out, "Invalid argument count, expected ");
                push_decimal(out, *expected);
                push_str(out, ", got ");
                push_decimal(out, *got);
            },
            Error::RuntimeException(text) => {
                push_str(out, "Runtime exception: ");
                push_str(out, text.as_str());
            },
            Error::VariableNotFound(name) => {
                push_str(out, "Variable ");
                push_str(out, name.as_str());
                push_str(out, " not found");
            },
        }
    }

    /// The text that describes the error.
    pub fn message(&self) -> (r: String)
        ensures
            r@ == self.message_spec(),
    {
        let mut out: Vec<char> = Vec::new();
        self.write_message(&mut out);
        assert(out@ =~= self.message_spec());
        chars_to_string(out.as_slice())
    }
}

} // verus!
