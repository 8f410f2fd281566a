//! Parsers used by the static analysis, which runs before any statement is evaluated.
use vstd::prelude::*;
use crate::interpreter::parsers::{
    end_of_statement, end_of_statement_spec, identifier_at, identifier_spec, lemma_scan,
    lemma_ws_end, lifetime_at, lifetime_spec, scan, scan_exec, tag_at, has_tag, terminated_chunk,
    ws, ws1, ws1_spec, ws_end, CharClass, LifeTime, LifeTimeSpec, LtStep, SpecLtStep, SpecStep,
    Step, Terminator,
};

use crate::interpreter::static_analysis::{hoisted_line_exec, hoisted_line_spec};

verus! {

/// A string that starts at `i`: a run of quotes, anything up to the first quote of
/// the run, then the run of quotes in reverse order
pub open spec fn str_spec(s: Seq<char>, i: int) -> Option<int> {
    if 0 <= i < s.len() && CharClass::Quote.holds(s[i]) {
        let q = scan(s, i, CharClass::Quote);
        let k = q - i;
        let t = scan(s, q, CharClass::NotChar(s[i]));
        if t + k <= s.len() && forall|m: int| 0 <= m < k ==> #[trigger] s[t + m] == s[q - 1 - m] {
            Some(t + k)
        } else {
            None
        }
    } else {
        None
    }
}

/// One piece of a statement: a string, or everything up to the next `!`
pub open spec fn till_step(s: Seq<char>, j: int) -> Option<int> {
    match str_spec(s, j) {
        Some(k) => Some(k),
        None => if 0 <= j < s.len() && s[j] != '!' {
            Some(scan(s, j, CharClass::NotBang))
        } else {
            None
        },
    }
}

pub open spec fn till_loop(s: Seq<char>, j: int) -> int
    decreases s.len() - j,
{
    match till_step(s, j) {
        Some(k) => if j < k <= s.len() {
            till_loop(s, k)
        } else {
            j
        },
        None => j,
    }
}

/// At least one piece of a statement: where the statement's terminator `!` is
pub open spec fn till_term_spec(s: Seq<char>, i: int) -> Option<int> {
    if till_step(s, i) is Some {
        Some(till_loop(s, i))
    } else {
        None
    }
}

pub proof fn lemma_till_step(s: Seq<char>, j: int)
    requires
        0 <= j <= s.len(),
    ensures
        till_step(s, j) matches Some(k) ==> j < k <= s.len(),
{
    if 0 <= j < s.len() && CharClass::Quote.holds(s[j]) {
        lemma_scan(s, j, CharClass::Quote);
        let q = scan(s, j, CharClass::Quote);
        lemma_scan(s, q, CharClass::NotChar(s[j]));
    }
    if 0 <= j < s.len() && s[j] != '!' {
        lemma_scan(s, j, CharClass::NotBang);
    }
}

pub proof fn lemma_till_loop(s: Seq<char>, j: int)
    requires
        0 <= j <= s.len(),
    ensures
        j <= till_loop(s, j) <= s.len(),
    decreases s.len() - j,
{
    lemma_till_step(s, j);
    if let Some(k) = till_step(s, j) {
        lemma_till_loop(s, k);
    }
}

/// A string that starts at `i`
pub fn str_at(s: &[char], i: usize) -> (r: Option<usize>)
    requires
        i <= s@.len(),
    ensures
        r matches Some(k) ==> str_spec(s@, i as int) == Some(k as int),
        r is None ==> str_spec(s@, i as int) is None,
{
    let n = s.len();
    if !(i < n && CharClass::Quote.test(s[i])) {
        return None;
    }
    let q = scan_exec(s, i, CharClass::Quote);
    proof {
        lemma_scan(s@, i as int, CharClass::Quote);
        lemma_scan(s@, q as int, CharClass::NotChar(s@[i as int]));
    }
    let k = q - i;
    let t = scan_exec(s, q, CharClass::NotChar(s[i]));
    if k > n - t {
        return None;
    }
    let mut m: usize = 0;
    while m < k
        invariant
            n == s@.len(),
            i < q <= t <= n,
            k == q - i,
            CharClass::Quote.holds(s@[i as int]),
            q == scan(s@, i as int, CharClass::Quote),
            t == scan(s@, q as int, CharClass::NotChar(s@[i as int])),
            t + k <= n,
            m <= k,
            forall|x: int| 0 <= x < m ==> #[trigger] s@[t + x] == s@[q - 1 - x],
        decreases k - m,
    {
        if s[t + m] != s[q - 1 - m] {
            proof {
                let mm = m as int;
                assert(!(s@[t + mm] == s@[q - 1 - mm]));
            }
            return None;
        }
        m = m + 1;
    }
    Some(t + k)
}

/// One piece of a statement
pub fn till_step_at(s: &[char], j: usize) -> (r: Option<usize>)
    requires
        j <= s@.len(),
    ensures
        r matches Some(k) ==> till_step(s@, j as int) == Some(k as int) && j < k <= s@.len(),
        r is None ==> till_step(s@, j as int) is None,
{
    proof {
        lemma_till_step(s@, j as int);
    }
    match str_at(s, j) {
        Some(k) => Some(k),
        None => {
            if j < s.len() && s[j] != '!' {
                Some(scan_exec(s, j, CharClass::NotBang))
            } else {
                None
            }
        },
    }
}

/// Takes everything up to the terminator `!` of a statement, skipping a string
/// that starts a piece
/// # Returns
/// - where the `!` (or the end of the input) is
pub fn till_term(s: &[char], i: usize) -> (r: Option<usize>)
    requires
        i <= s@.len(),
    ensures
        r matches Some(k) ==> till_term_spec(s@, i as int) == Some(k as int) && i < k <= s@.len(),
        r is None ==> till_term_spec(s@, i as int) is None,
{
    let first = till_step_at(s, i);
    if first.is_none() {
        return None;
    }
    let mut j = i;
    loop
        invariant
            i <= j <= s@.len(),
            till_loop(s@, i as int) == till_loop(s@, j as int),
            till_step(s@, i as int) is Some,
            j == i ==> till_step(s@, i as int) is Some,
            j > i || till_step(s@, j as int) is Some,
        decreases s@.len() - j,
    {
        match till_step_at(s, j) {
            Some(k) => {
                j = k;
            },
            None => {
                return Some(j);
            },
        }
    }
}

/// The list of arguments of a function expression, separated by commas
pub open spec fn sep_loop(s: Seq<char>, k: int) -> int
    decreases s.len() - k,
{
    let a = ws_end(s, k);
    if 0 <= a < s.len() && s[a] == ',' {
        let b = ws_end(s, a + 1);
        match identifier_spec(s, b, Terminator::Char(',')) {
            SpecStep::Done(m) => if k < m <= s.len() {
                sep_loop(s, m)
            } else {
                k
            },
            _ => k,
        }
    } else {
        k
    }
}

/// Where the arguments of a function expression that start at `i` end
pub open spec fn sep_list_end(s: Seq<char>, i: int) -> int {
    match identifier_spec(s, i, Terminator::Char(',')) {
        SpecStep::Done(k) => sep_loop(s, k),
        _ => i,
    }
}

pub open spec fn arrow() -> Seq<char> {
    seq!['=', '>']
}

/// A function expression: arguments, `=>`, then the body up to the statement end
pub open spec fn function_expression_spec(s: Seq<char>, i: int) -> Option<int> {
    let a = ws_end(s, i);
    let args_end = if has_tag(s, a, arrow()) {
        Some(a + 2)
    } else {
        let b = ws_end(s, sep_list_end(s, i));
        if has_tag(s, b, arrow()) {
            Some(b + 2)
        } else {
            None
        }
    };
    match args_end {
        None => None,
        Some(x) => till_term_spec(s, ws_end(s, x)),
    }
}

pub proof fn lemma_sep_loop(s: Seq<char>, k: int)
    requires
        0 <= k <= s.len(),
    ensures
        k <= sep_loop(s, k) <= s.len(),
    decreases s.len() - k,
{
    lemma_ws_end(s, k);
    let a = ws_end(s, k);
    if 0 <= a < s.len() && s[a] == ',' {
        lemma_ws_end(s, a + 1);
        let b = ws_end(s, a + 1);
        if let SpecStep::Done(m) = identifier_spec(s, b, Terminator::Char(',')) {
            if k < m <= s.len() {
                lemma_sep_loop(s, m);
            }
        }
    }
}

/// Where the arguments of a function expression end
pub fn sep_list(s: &[char], i: usize) -> (r: usize)
    requires
        i <= s@.len(),
    ensures
        r == sep_list_end(s@, i as int),
        i <= r <= s@.len(),
{
    let first = identifier_at(s, i, Terminator::Char(','));
    let mut k = match first {
        Step::Done(k) => k,
        _ => {
            return i;
        },
    };
    proof {
        lemma_sep_loop(s@, k as int);
    }
    loop
        invariant
            i < k <= s@.len(),
            sep_list_end(s@, i as int) == sep_loop(s@, k as int),
        ensures
            i < k <= s@.len(),
            sep_list_end(s@, i as int) == k,
        decreases s@.len() - k,
    {
        let a = ws(s, k);
        if !(a < s.len() && s[a] == ',') {
            break;
        }
        let b = ws(s, a + 1);
        match identifier_at(s, b, Terminator::Char(',')) {
            Step::Done(m) => {
                proof {
                    lemma_ws_end(s@, k as int);
                    lemma_ws_end(s@, a + 1);
                }
                k = m;
            },
            _ => {
                break;
            },
        }
    }
    k
}

/// Parses a function expression
/// # Example
/// - ` => statement!`
/// - `arg1,arg2 , arg3 =>statement!`
/// # Returns
/// - where the `!` that ends the body is
pub fn function_expression(s: &[char], i: usize) -> (r: Option<usize>)
    requires
        i <= s@.len(),
    ensures
        r matches Some(k) ==> function_expression_spec(s@, i as int) == Some(k as int) && i < k
            <= s@.len(),
        r is None ==> function_expression_spec(s@, i as int) is None,
{
    proof {
        reveal_strlit("=>");
        assert("=>"@ =~= arrow());
    }
    let n = s.len();
    let a = ws(s, i);
    let args_end = if tag_at(s, a, "=>") {
        Some(a + 2)
    } else {
        let b = ws(s, sep_list(s, i));
        if tag_at(s, b, "=>") {
            Some(b + 2)
        } else {
            None
        }
    };
    match args_end {
        None => None,
        Some(x) => till_term(s, ws(s, x)),
    }
}

/// The expression of a variable declaration: pieces up to the end of the statement
pub open spec fn var_expr_spec(s: Seq<char>, j: int) -> Option<int>
    decreases s.len() - j,
{
    match end_of_statement_spec(s, j) {
        Some(e) => Some(e),
        None => {
            let k = match function_expression_spec(s, j) {
                Some(k) => k,
                None => scan(s, j, CharClass::NotWsNorBang),
            };
            let k2 = ws_end(s, k);
            if 0 <= j < k2 <= s.len() {
                var_expr_spec(s, k2)
            } else {
                None
            }
        },
    }
}

/// The expression of a variable declaration
/// # Returns
/// - where the statement ends
pub fn var_expr(s: &[char], j: usize) -> (r: Option<usize>)
    requires
        j <= s@.len(),
    ensures
        r matches Some(k) ==> var_expr_spec(s@, j as int) == Some(k as int) && j < k <= s@.len(),
        r is None ==> var_expr_spec(s@, j as int) is None,
{
    let mut p = j;
    loop
        invariant
            j <= p <= s@.len(),
            var_expr_spec(s@, j as int) == var_expr_spec(s@, p as int),
        decreases s@.len() - p,
    {
        match end_of_statement(s, p) {
            Some(e) => {
                return Some(e);
            },
            None => {},
        }
        let k = match function_expression(s, p) {
            Some(k) => k,
            None => terminated_chunk(s, p),
        };
        let k2 = ws(s, k);
        if k2 == p {
            return None;
        }
        p = k2;
    }
}

/// What a variable declaration holds
pub enum VarDeclSpec {
    Done { end: int, name: Seq<char>, life_time: LifeTimeSpec, expr_start: int },
    Error,
    Failure,
    Panic,
}

pub open spec fn word_var() -> Seq<char> {
    seq!['v', 'a', 'r']
}

pub open spec fn word_const() -> Seq<char> {
    seq!['c', 'o', 'n', 's', 't']
}

/// `var` or `const` at `i`: where it ends
pub open spec fn decl_word_spec(s: Seq<char>, i: int) -> Option<int> {
    if has_tag(s, i, word_const()) {
        Some(i + 5)
    } else if has_tag(s, i, word_var()) {
        Some(i + 3)
    } else {
        None
    }
}

/// Two words `var` or `const` separated by whitespace: where they end
pub open spec fn decl_kind_spec(s: Seq<char>, i: int) -> Option<int> {
    match decl_word_spec(s, i) {
        None => None,
        Some(a) => match ws1_spec(s, a) {
            None => None,
            Some(b) => decl_word_spec(s, b),
        },
    }
}

/// A variable declaration with a life time:
/// `var var name<life time> = expression!`
pub open spec fn var_decl_spec(s: Seq<char>, i: int) -> VarDeclSpec {
    match decl_kind_spec(s, i) {
        None => VarDeclSpec::Error,
        Some(c0) => match ws1_spec(s, c0) {
            None => VarDeclSpec::Error,
            Some(c) => match identifier_spec(s, c, Terminator::LifeTime) {
                SpecStep::Panic => VarDeclSpec::Panic,
                SpecStep::Done(d) => match lifetime_spec(s, d) {
                    SpecLtStep::Panic => VarDeclSpec::Panic,
                    SpecLtStep::Failure => VarDeclSpec::Failure,
                    SpecLtStep::Error => VarDeclSpec::Error,
                    SpecLtStep::Done(e, lt) => {
                        let f = ws_end(s, e);
                        if 0 <= f < s.len() && s[f] == '=' {
                            let g = ws_end(s, f + 1);
                            match var_expr_spec(s, g) {
                                None => VarDeclSpec::Error,
                                Some(h) => VarDeclSpec::Done {
                                    end: h,
                                    name: s.subrange(c, d),
                                    life_time: lt,
                                    expr_start: g,
                                },
                            }
                        } else {
                            VarDeclSpec::Error
                        }
                    },
                },
                _ => VarDeclSpec::Error,
            },
        },
    }
}

/// What a variable declaration holds.
#[derive(Debug, Clone, PartialEq)]
pub enum VarDeclStep {
    Done {
        end: usize,
        name_start: usize,
        name_end: usize,
        life_time: LifeTime,
        expr_start: usize,
        /// The line from which the variable is usable (see `hoisted_line_spec`)
        hoisted_line: usize,
    },
    Error,
    Failure,
    Panic,
}

fn decl_word_at(s: &[char], i: usize) -> (r: Option<usize>)
    requires
        i <= s@.len(),
    ensures
        r matches Some(k) ==> decl_word_spec(s@, i as int) == Some(k as int) && k <= s@.len(),
        r is None ==> decl_word_spec(s@, i as int) is None,
{
    proof {
        reveal_strlit("const");
        reveal_strlit("var");
        assert("const"@ =~= word_const());
        assert("var"@ =~= word_var());
    }
    let n = s.len();
    if tag_at(s, i, "const") {
        Some(i + 5)
    } else if tag_at(s, i, "var") {
        Some(i + 3)
    } else {
        None
    }
}

/// Parses a variable declaration that starts at `i`, on line `line`
/// # Note
/// - The expression is taken all the way including the `!` terminator
/// - The declaration is hoisted to the line that its life time gives (see
///   `hoisted_line_spec`)
pub fn var_decl(s: &[char], i: usize, line: usize) -> (r: VarDeclStep)
    requires
        i <= s@.len(),
    ensures
        match var_decl_spec(s@, i as int) {
            VarDeclSpec::Done { end, name, life_time, expr_start } => r matches VarDeclStep::Done {
                end: e2,
                name_start,
                name_end,
                life_time: lt2,
                expr_start: x2,
                hoisted_line: h2,
            } && h2 == hoisted_line_spec(line as int, life_time) && e2 == end && name_start <= name_end <= s@.len() && s@.subrange(
                name_start as int,
                name_end as int,
            ) == name && lt2@ == life_time && x2 == expr_start && i < expr_start < end
                <= s@.len(),
            VarDeclSpec::Error => r is Error,
            VarDeclSpec::Failure => r is Failure,
            VarDeclSpec::Panic => r is Panic,
        },
{
    let c0 = match decl_word_at(s, i) {
        None => {
            return VarDeclStep::Error;
        },
        Some(a) => match ws1(s, a) {
            None => {
                return VarDeclStep::Error;
            },
            Some(b) => match decl_word_at(s, b) {
                None => {
                    return VarDeclStep::Error;
                },
                Some(c0) => c0,
            },
        },
    };
    let c = match ws1(s, c0) {
        None => {
            return VarDeclStep::Error;
        },
        Some(c) => c,
    };
    let d = match identifier_at(s, c, Terminator::LifeTime) {
        Step::Panic => {
            return VarDeclStep::Panic;
        },
        Step::Done(d) => d,
        _ => {
            return VarDeclStep::Error;
        },
    };
    let (e, lt) = match lifetime_at(s, d) {
        LtStep::Panic => {
            return VarDeclStep::Panic;
        },
        LtStep::Failure => {
            return VarDeclStep::Failure;
        },
        LtStep::Error => {
            return VarDeclStep::Error;
        },
        LtStep::Done(e, lt) => (e, lt),
    };
    let f = ws(s, e);
    if !(f < s.len() && s[f] == '=') {
        return VarDeclStep::Error;
    }
    let g = ws(s, f + 1);
    match var_expr(s, g) {
        None => VarDeclStep::Error,
        Some(h) => {
            let hoisted_line = hoisted_line_exec(line, &lt);
            VarDeclStep::Done { end: h, name_start: c, name_end: d, life_time: lt, expr_start: g, hoisted_line }
        },
    }
}

} // verus!
