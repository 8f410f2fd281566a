//! Opening and closing scopes with `{` and `}`.
use vstd::prelude::*;
use crate::interpreter::parsers::{lemma_ws_end, ws, ws_end, ParseError};
use crate::interpreter::evaluators::statement::{
    block_step, block_step_spec, implicit_statement, implicit_statement_end, ScopeMark,
};
use crate::interpreter::parsers::types::Position;
use crate::interpreter::runtime::error::Error;
use crate::interpreter::runtime::state::{pop_scope_spec, push_scope_spec, InterpreterState};

verus! {

/// The start of a scope: `{`
#[derive(Debug)]
pub struct ScopeStart {
    /// The line on which the scope opens
    pub line: usize,
}

impl ScopeStart {
    /// Parses `{` and records the line it stands on.
    pub fn parse(input: &Position) -> (r: Result<(Position, ScopeStart), ParseError>)
        requires
            input.wf(),
        ensures
            input.input@.len() > 0 && input.input@[0] == '{' ==> (r matches Ok((rest, st))
                && input.advanced_by(1, rest) && rest.wf() && st.line == input.line),
            !(input.input@.len() > 0 && input.input@[0] == '{') ==> r == Err::<
                (Position, ScopeStart),
                ParseError,
            >(ParseError::Error),
    {
        if input.input.len() > 0 && input.input[0] == '{' {
            Ok((input.advance(1), ScopeStart { line: input.line }))
        } else {
            Err(ParseError::Error)
        }
    }

    /// Opens a scope in the current call.
    pub fn eval<V, W>(&self, state: &mut InterpreterState<V, W>) -> (r: Result<(), Error>)
        requires
            old(state).wf(),
        ensures
            final(state).wf(),
            final(state)@ == push_scope_spec(old(state)@, self.line as int),
            r is Ok,
    {
        state.push_scope(self.line);
        Ok(())
    }
}

/// The end of a scope: `}`
#[derive(Debug)]
pub struct ScopeEnd {
    /// The line on which the scope closes
    pub line: usize,
}

impl ScopeEnd {
    /// Parses `}` and records the line it stands on.
    pub fn parse(input: &Position) -> (r: Result<(Position, ScopeEnd), ParseError>)
        requires
            input.wf(),
        ensures
            input.input@.len() > 0 && input.input@[0] == '}' ==> (r matches Ok((rest, en))
                && input.advanced_by(1, rest) && rest.wf() && en.line == input.line),
            !(input.input@.len() > 0 && input.input@[0] == '}') ==> r == Err::<
                (Position, ScopeEnd),
                ParseError,
            >(ParseError::Error),
    {
        if input.input.len() > 0 && input.input[0] == '}' {
            Ok((input.advance(1), ScopeEnd { line: input.line }))
        } else {
            Err(ParseError::Error)
        }
    }

    /// Closes the innermost scope of the current call (the outermost one stays open).
    pub fn eval<V, W>(&self, state: &mut InterpreterState<V, W>) -> (r: Result<(), Error>)
        requires
            old(state).wf(),
        ensures
            final(state).wf(),
            final(state)@ == pop_scope_spec(old(state)@, self.line as int),
            r is Ok,
    {
        state.pop_scope(self.line);
        Ok(())
    }
}

/// The mark of the character at `q` for the nesting of scopes.
pub open spec fn mark_of(c: char) -> ScopeMark {
    if c == '{' {
        ScopeMark::Open
    } else if c == '}' {
        ScopeMark::Close
    } else {
        ScopeMark::Other
    }
}

/// Reads a block body that is `depth` scopes deep at `p`: after whitespace, a `{`
/// opens one more scope, a `}` closes one (the body ends after the `}` that closes its
/// own scope), and any other statement is passed over as an implicit statement, up to
/// its end of statement.
/// # Returns
/// - where the body ends, and whether its own scope closed there; a body that never
///   closes takes the rest of the text
pub open spec fn scope_scan(s: Seq<char>, p: int, depth: nat) -> (int, bool)
    decreases s.len() - p,
{
    let q = ws_end(s, p);
    if p < 0 || q < p || q >= s.len() {
        (q, false)
    } else {
        match mark_of(s[q]) {
            ScopeMark::Other => {
                let e = implicit_statement_end(s, q);
                scope_scan(s, if q < e <= s.len() { e } else { q + 1 }, depth)
            },
            mark => match block_step_spec(depth, mark) {
                Some(d) => scope_scan(s, q + 1, d),
                None => (q + 1, true),
            },
        }
    }
}

/// Where a block body ends that is `depth` scopes deep at `p` (see `scope_scan`).
pub open spec fn scope_end(s: Seq<char>, p: int, depth: nat) -> int {
    scope_scan(s, p, depth).0
}

/// Reads a block body that starts with `{` at `i` (see `scope_scan`).
/// # Returns
/// - where the body ends and whether it closed; none when no `{` stands at `i`
fn scan_scope(s: &[char], i: usize) -> (r: Option<(usize, bool)>)
    requires
        i <= s@.len(),
    ensures
        i < s@.len() && s@[i as int] == '{' ==> (r matches Some((e, closed)) && (e as int, closed)
            == scope_scan(s@, i + 1, 1)),
        !(i < s@.len() && s@[i as int] == '{') ==> r is None,
        r matches Some((e, _)) ==> i < e <= s@.len(),
{
    if !(i < s.len() && s[i] == '{') {
        return None;
    }
    let n = s.len();
    let mut p = i + 1;
    let mut depth: usize = 1;
    loop
        invariant
            n == s@.len(),
            i < p <= n,
            s@[i as int] == '{',
            1 <= depth <= p,
            scope_scan(s@, i + 1, 1) == scope_scan(s@, p as int, depth as nat),
        decreases n - p,
    {
        proof {
            lemma_ws_end(s@, p as int);
        }
        let q = ws(s, p);
        if q >= n {
            return Some((q, false));
        }
        let c = s[q];
        let mark = if c == '{' {
            ScopeMark::Open
        } else if c == '}' {
            ScopeMark::Close
        } else {
            ScopeMark::Other
        };
        assert(mark == mark_of(s@[q as int]));
        match mark {
            ScopeMark::Other => {
                let (e, _) = implicit_statement(s, q);
                p = if q < e {
                    e
                } else {
                    q + 1
                };
            },
            _ => {
                match block_step(depth, mark) {
                    Some(d) => {
                        depth = d;
                        p = q + 1;
                    },
                    None => {
                        return Some((q + 1, true));
                    },
                }
            },
        }
    }
}

/// Parses a block body that starts with `{` at `i`, keeping the scopes balanced.
/// # Returns
/// - where the body ends: after the `}` that closes it, or at the end of the text when
///   it never closes; none when no `{` stands at `i`
pub fn scope(s: &[char], i: usize) -> (r: Option<usize>)
    requires
        i <= s@.len(),
    ensures
        i < s@.len() && s@[i as int] == '{' ==> (r matches Some(e) && e == scope_end(s@, i + 1, 1)),
        !(i < s@.len() && s@[i as int] == '{') ==> r is None,
        r matches Some(e) ==> i < e <= s@.len(),
{
    match scan_scope(s, i) {
        Some((e, _)) => Some(e),
        None => None,
    }
}

/// Parses a block that starts with `{` at `i` and closes.
/// # Returns
/// - where the block ends, after the `}` that closes it; none when no `{` stands at
///   `i` or the text ends before the block closes
pub fn closed_scope(s: &[char], i: usize) -> (r: Option<usize>)
    requires
        i <= s@.len(),
    ensures
        i < s@.len() && s@[i as int] == '{' && scope_scan(s@, i + 1, 1).1 ==> (r matches Some(e) && e
            == scope_end(s@, i + 1, 1)),
        !(i < s@.len() && s@[i as int] == '{' && scope_scan(s@, i + 1, 1).1) ==> r is None,
        r matches Some(e) ==> i < e <= s@.len(),
{
    match scan_scope(s, i) {
        Some((e, true)) => Some(e),
        _ => None,
    }
}

} // verus!
