//! Statements that change how the program runs.
use vstd::prelude::*;
use crate::interpreter::parsers::{end_of_statement, end_of_statement_spec, has_tag, tag_at, ws, ws_end, ParseError};
use crate::interpreter::parsers::types::Position;
use crate::interpreter::runtime::state::{InterpreterState, StateView};

verus! {

/// The `reverse!` statement: the program runs backwards from here on
#[derive(Debug)]
pub struct Reverse;

/// Where `reverse`, whitespace and the end of a statement end, if they stand at the
/// start of `s`.
pub open spec fn reverse_spec(s: Seq<char>) -> Option<int> {
    if has_tag(s, 0, seq!['r', 'e', 'v', 'e', 'r', 's', 'e']) {
        end_of_statement_spec(s, ws_end(s, 7))
    } else {
        None
    }
}

impl Reverse {
    /// Parses `reverse`, whitespace and the end of a statement.
    pub fn parse(input: &Position) -> (r: Result<(Position, Reverse), ParseError>)
        requires
            input.wf(),
        ensures
            match reverse_spec(input.input@) {
                Some(k) => r matches Ok((rest, _)) && input.advanced_by(k, rest) && rest.wf(),
                None => r == Err::<(Position, Reverse), ParseError>(ParseError::Error),
            },
    {
        let s = input.input.as_slice();
        proof {
            reveal_strlit("reverse");
        }
        assert("reverse"@ =~= seq!['r', 'e', 'v', 'e', 'r', 's', 'e']);
        if !tag_at(s, 0, "reverse") {
            return Err(ParseError::Error);
        }
        let j = ws(s, 7);
        match end_of_statement(s, j) {
            Some(k) => Ok((input.advance(k), Reverse)),
            None => Err(ParseError::Error),
        }
    }

    /// Turns the direction in which the program runs around.
    pub fn eval<V, W>(&self, state: &mut InterpreterState<V, W>)
        requires
            old(state).wf(),
        ensures
            final(state).wf(),
            final(state)@ == (StateView { reversed: !old(state)@.reversed, ..old(state)@ }),
    {
        state.toggle_reverse();
    }
}

} // verus!
