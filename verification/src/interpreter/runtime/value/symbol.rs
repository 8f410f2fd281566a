//! Symbols: unique values with an optional description.
use vstd::prelude::*;
use crate::interpreter::parsers::types::chars_to_string;
use crate::interpreter::runtime::text::push_str;

verus! {

/// A unique value; two symbols are the same symbol when their ids are equal
#[derive(Debug, Clone)]
pub struct Symbol {
    pub description: Option<String>,
    pub id: usize,
}

impl Symbol {
    /// The text that shows the symbol: `Symbol(description)`.
    pub open spec fn display_spec(&self) -> Seq<char> {
        "Symbol("@ + match self.description {
            Some(d) => d@,
            None => Seq::empty(),
        } + ")"@
    }

    /// The text that shows the symbol: `Symbol(description)`, with nothing between the
    /// brackets when it has no description.
    pub fn to_display_string(&self) -> (r: String)
        ensures
            r@ == self.display_spec(),
    {
        let mut out: Vec<char> = Vec::new();
        push_str(&mut out, "Symbol(");
        match &self.description {
            Some(d) => push_str(&mut out, d.as_str()),
            None => {},
        }
        push_str(&mut out, ")");
        assert(out@ =~= self.display_spec());
        chars_to_string(out.as_slice())
    }
}

impl PartialEq for Symbol {
    fn eq(&self, other: &Self) -> (r: bool) {
        self.id == other.id
    }
}

impl vstd::std_specs::cmp::PartialEqSpecImpl for Symbol {
    open spec fn obeys_eq_spec() -> bool {
        true
    }

    open spec fn eq_spec(&self, other: &Symbol) -> bool {
        self.id == other.id
    }
}

} // verus!
