//! Statements: the text that is none of the other statements, and how a block body
//! counts its scopes.
use vstd::prelude::*;
use crate::interpreter::parsers::{
    end_of_statement, end_of_statement_spec, lemma_scan, lemma_ws_char, lemma_ws_end, scan, scan_exec,
    spec_is_ws, ws1, ws1_spec, CharClass,
};

verus! {

/// Where the text of an implicit string statement ends, reading pieces from `p` on:
/// it ends at the end of the input or where the end of a statement matches; otherwise
/// whitespace or a chunk up to whitespace or `!` is taken.
pub open spec fn implicit_end(s: Seq<char>, p: int) -> int
    decreases s.len() - p,
{
    if p < 0 || p >= s.len() {
        p
    } else if end_of_statement_spec(s, p) is Some {
        p
    } else {
        let q = match ws1_spec(s, p) {
            Some(q) => q,
            None => scan(s, p, CharClass::NotWsNorBang),
        };
        if p < q <= s.len() {
            implicit_end(s, q)
        } else {
            p
        }
    }
}

/// Where an implicit string statement that starts at `i` ends: after its end of
/// statement, or at the end of the input.
pub open spec fn implicit_statement_end(s: Seq<char>, i: int) -> int {
    let t = implicit_end(s, i);
    match end_of_statement_spec(s, t) {
        Some(e) => e,
        None => t,
    }
}

/// Parses an implicit string statement: text up to the end of the statement or of the
/// input.
/// # Returns
/// - where the statement ends and where its text ends (the text starts at `i`)
pub fn implicit_statement(s: &[char], i: usize) -> (r: (usize, usize))
    requires
        i <= s@.len(),
    ensures
        r.1 == implicit_end(s@, i as int),
        r.0 == implicit_statement_end(s@, i as int),
        i <= r.1 <= r.0 <= s@.len(),
{
    let n = s.len();
    let mut p = i;
    loop
        invariant
            n == s@.len(),
            i <= p <= n,
            implicit_end(s@, i as int) == implicit_end(s@, p as int),
        decreases n - p,
    {
        if p >= n {
            return (p, p);
        }
        match end_of_statement(s, p) {
            Some(e) => {
                return (e, p);
            },
            None => {},
        }
        let q = match ws1(s, p) {
            Some(q) => q,
            None => scan_exec(s, p, CharClass::NotWsNorBang),
        };
        if q <= p {
            proof {
                lemma_ws_char(s@, p as int);
            }
            return (p, p);
        }
        p = q;
    }
}

/// What a statement does to the nesting of scopes in a block body.
#[derive(Debug, Clone, Copy, PartialEq, Eq, Structural)]
pub enum ScopeMark {
    /// `{`
    Open,
    /// `}`
    Close,
    /// Any other statement
    Other,
}

/// The depth after a statement of a block body, or none when the block closes.
pub open spec fn block_step_spec(depth: nat, mark: ScopeMark) -> Option<nat> {
    match mark {
        ScopeMark::Open => Some(depth + 1),
        ScopeMark::Close => if depth <= 1 {
            None
        } else {
            Some((depth - 1) as nat)
        },
        ScopeMark::Other => Some(depth),
    }
}

/// The depth of a block body after a statement: `{` opens one more scope, `}` closes
/// one, and the body ends when its own scope closes.
pub fn block_step(depth: usize, mark: ScopeMark) -> (r: Option<usize>)
    requires
        depth >= 1,
        mark == ScopeMark::Open ==> depth < usize::MAX,
    ensures
        match block_step_spec(depth as nat, mark) {
            Some(d) => r == Some(d as usize),
            None => r is None,
        },
{
    match mark {
        ScopeMark::Open => Some(depth + 1),
        ScopeMark::Close => if depth == 1 {
            None
        } else {
            Some(depth - 1)
        },
        ScopeMark::Other => Some(depth),
    }
}

} // verus!
