//! Errors reported by the interpreter.
use vstd::prelude::*;
use crate::interpreter::parsers::types::chars_to_string;
use crate::interpreter::runtime::error::Error as RuntimeError;
use crate::interpreter::runtime::text::push_str;

verus! {

/// An error reported by the interpreter
#[derive(Debug, Clone)]
pub enum Error {
    /// Evaluating the program raised a runtime error
    EvalError(RuntimeError),
}

impl Error {
    /// The text that describes the error.
    pub open spec fn message_spec(&self) -> Seq<char> {
        match self {
            Error::EvalError(inner) => "Failed to evaluate: "@ + inner.message_spec(),
        }
    }

    /// The text that describes the error.
    pub fn message(&self) -> (r: String)
        ensures
            r@ == self.message_spec(),
    {
        let mut out: Vec<char> = Vec::new();
        match self {
            Error::EvalError(inner) => {
                push_str(&mut out, "Failed to evaluate: ");
                inner.write_message(&mut out);
            },
        }
        assert(out@ =~= self.message_spec());
        chars_to_string(out.as_slice())
    }
}

impl From<RuntimeError> for Error {
    fn from(value: RuntimeError) -> (r: Self) {
        Error::EvalError(value)
    }
}

impl vstd::std_specs::convert::FromSpecImpl<RuntimeError> for Error {
    open spec fn obeys_from_spec() -> bool {
        true
    }

    open spec fn from_spec(v: RuntimeError) -> Self {
        Error::EvalError(v)
    }
}

} // verus!
