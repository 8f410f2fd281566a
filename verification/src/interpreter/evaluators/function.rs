//! Defining, calling and returning from functions.
use vstd::prelude::*;
use crate::interpreter::parsers::{
    end_of_statement, end_of_statement_spec, has_tag, identifier_at, identifier_spec, is_ws, lemma_ident_scan, lemma_scan, lemma_ws_end, scan,
    scan_exec, spec_is_ws, tag_at, ws, ws_end, CharClass, ParseError, SpecStep, Step, Terminator,
};
use crate::interpreter::parsers::types::{chars_to_string, slice_to_vec, Position};
use crate::interpreter::evaluators::scope::{scope, scope_end};
use crate::interpreter::evaluators::statement::{implicit_end, implicit_statement, implicit_statement_end};

verus! {

/// The letters of the keyword `function`.
pub open spec fn header_word() -> Seq<char> {
    seq!['f', 'u', 'n', 'c', 't', 'i', 'o', 'n']
}

/// The first position of a letter in `function`.
pub open spec fn header_index(c: char) -> Option<int> {
    if c == 'f' {
        Some(0)
    } else if c == 'u' {
        Some(1)
    } else if c == 'n' {
        Some(2)
    } else if c == 'c' {
        Some(3)
    } else if c == 't' {
        Some(4)
    } else if c == 'i' {
        Some(5)
    } else if c == 'o' {
        Some(6)
    } else {
        None
    }
}

/// The next position of `c` in `function` from `p` on.
pub open spec fn header_next(c: char, p: int) -> Option<int>
    decreases 8 - p,
{
    if p < 0 || p >= 8 {
        None
    } else if header_word()[p] == c {
        Some(p)
    } else {
        header_next(c, p + 1)
    }
}

/// Whether the characters from `k` to `end` appear in order in `function` from `p` on.
pub open spec fn header_rest(s: Seq<char>, k: int, end: int, p: int) -> bool
    decreases end - k,
{
    if k < 0 || k >= end || k >= s.len() {
        true
    } else {
        match header_next(s[k], p) {
            None => false,
            Some(q) => header_rest(s, k + 1, end, q + 1),
        }
    }
}

/// The keyword that starts a function definition: a chunk of letters that appear in
/// order in `function` (`fn`, `func`, `fun`, `union`, ...); where it ends.
pub open spec fn function_header_spec(s: Seq<char>, i: int) -> Option<int> {
    if 0 <= i < s.len() && !spec_is_ws(s[i]) && header_index(s[i]) is Some {
        let c = scan(s, i + 1, CharClass::NotWs);
        if header_rest(s, i + 1, c, header_index(s[i])->0 + 1) {
            Some(c)
        } else {
            None
        }
    } else {
        None
    }
}

fn header_index_exec(c: char) -> (r: Option<usize>)
    ensures
        r == match header_index(c) {
            Some(h) => Some(h as usize),
            None => None,
        },
{
    if c == 'f' {
        Some(0)
    } else if c == 'u' {
        Some(1)
    } else if c == 'n' {
        Some(2)
    } else if c == 'c' {
        Some(3)
    } else if c == 't' {
        Some(4)
    } else if c == 'i' {
        Some(5)
    } else if c == 'o' {
        Some(6)
    } else {
        None
    }
}

fn header_char(p: usize) -> (c: char)
    requires
        p < 8,
    ensures
        c == header_word()[p as int],
{
    if p == 0 {
        'f'
    } else if p == 1 {
        'u'
    } else if p == 2 {
        'n'
    } else if p == 3 {
        'c'
    } else if p == 4 {
        't'
    } else if p == 5 {
        'i'
    } else if p == 6 {
        'o'
    } else {
        'n'
    }
}

/// Parses the keyword of a function definition at `i`.
/// # Returns
/// - where it ends
pub fn function_header(s: &[char], i: usize) -> (r: Option<usize>)
    requires
        i <= s@.len(),
    ensures
        match function_header_spec(s@, i as int) {
            Some(k) => r == Some(k as usize) && i < k <= s@.len(),
            None => r is None,
        },
{
    let n = s.len();
    if i >= n || is_ws(s[i]) {
        return None;
    }
    let h = match header_index_exec(s[i]) {
        Some(h) => h,
        None => {
            return None;
        },
    };
    let c = scan_exec(s, i + 1, CharClass::NotWs);
    let mut k = i + 1;
    let mut p = h + 1;
    while k < c
        invariant
            n == s@.len(),
            i < k <= c <= n,
            p <= 8,
            header_rest(s@, i + 1, c as int, h + 1) == header_rest(s@, k as int, c as int, p as int),
            c == scan(s@, i + 1, CharClass::NotWs),
            header_index(s@[i as int]) == Some(h as int),
            !spec_is_ws(s@[i as int]),
        decreases c - k,
    {
        let ghost p0 = p;
        loop
            invariant
                p0 <= p <= 8,
                k < c <= n,
                n == s@.len(),
                header_next(s@[k as int], p0 as int) == header_next(s@[k as int], p as int),
                header_rest(s@, i + 1, c as int, h + 1) == header_rest(s@, k as int, c as int, p0 as int),
                i < k,
                c == scan(s@, i + 1, CharClass::NotWs),
                header_index(s@[i as int]) == Some(h as int),
                !spec_is_ws(s@[i as int]),
            ensures
                p < 8,
                header_next(s@[k as int], p0 as int) == Some(p as int),
            decreases 8 - p,
        {
            if p >= 8 {
                return None;
            }
            if header_char(p) == s[k] {
                break;
            }
            p = p + 1;
        }
        p = p + 1;
        k = k + 1;
    }
    Some(c)
}

/// Parses the start of a function definition: the keyword, whitespace, the name
/// (up to whitespace or `=>`) and whitespace
/// # Returns
/// - the position after them and the name
pub fn function_def_head(input: &Position) -> (r: Result<(Position, String), ParseError>)
    requires
        input.wf(),
    ensures
        match function_header_spec(input.input@, 0) {
            None => r == Err::<(Position, String), ParseError>(ParseError::Error),
            Some(c) => {
                let a = ws_end(input.input@, c);
                match identifier_spec(input.input@, a, Terminator::Arrow) {
                    SpecStep::Done(d) => r matches Ok((rest, name)) && input.advanced_by(
                        ws_end(input.input@, d),
                        rest,
                    ) && rest.wf() && name@ == input.input@.subrange(a, d),
                    _ => r == Err::<(Position, String), ParseError>(ParseError::Error),
                }
            },
        },
{
    let s = input.input.as_slice();
    let c = match function_header(s, 0) {
        Some(c) => c,
        None => {
            return Err(ParseError::Error);
        },
    };
    let a = ws(s, c);
    match identifier_at(s, a, Terminator::Arrow) {
        Step::Done(d) => {
            let e = ws(s, d);
            let name = chars_to_string(slice_to_vec(s, a, d).as_slice());
            Ok((input.advance(e), name))
        },
        _ => Err(ParseError::Error),
    }
}

/// The names of the arguments of a function expression after the first one, each after
/// a comma, from `k` on.
pub open spec fn arg_spans_from(s: Seq<char>, k: int) -> Seq<(int, int)>
    decreases s.len() - k,
{
    let a = ws_end(s, k);
    if 0 <= a < s.len() && s[a] == ',' {
        let b = ws_end(s, a + 1);
        match identifier_spec(s, b, Terminator::Char(',')) {
            SpecStep::Done(m) => if k < m <= s.len() {
                seq![(b, m)] + arg_spans_from(s, m)
            } else {
                Seq::empty()
            },
            _ => Seq::empty(),
        }
    } else {
        Seq::empty()
    }
}

/// The names of the arguments of a function expression: a first name, then names each
/// after a comma.
pub open spec fn arg_spans(s: Seq<char>, i: int) -> Seq<(int, int)> {
    match identifier_spec(s, i, Terminator::Char(',')) {
        SpecStep::Done(k) => seq![(i, k)] + arg_spans_from(s, k),
        _ => Seq::empty(),
    }
}

/// Where the last of a list of names ends (`i` for no names).
pub open spec fn spans_end(spans: Seq<(int, int)>, i: int) -> int {
    if spans.len() == 0 {
        i
    } else {
        spans.last().1
    }
}

/// The arguments of a function expression and where its body starts: either `=>` right
/// away, or the names of the arguments and `=>`; whitespace around.
pub open spec fn function_args_spec(s: Seq<char>, i: int) -> Option<(Seq<(int, int)>, int)> {
    let a = ws_end(s, i);
    if has_tag(s, a, seq!['=', '>']) {
        Some((Seq::empty(), ws_end(s, a + 2)))
    } else {
        let spans = arg_spans(s, i);
        let b = ws_end(s, spans_end(spans, i));
        if has_tag(s, b, seq!['=', '>']) {
            Some((spans, ws_end(s, b + 2)))
        } else {
            None
        }
    }
}

proof fn lemma_arg_spans_from(s: Seq<char>, k: int)
    requires
        0 <= k <= s.len(),
    ensures
        forall|j: int| 0 <= j < arg_spans_from(s, k).len() ==> k < (#[trigger] arg_spans_from(s, k)[j]).0 <= arg_spans_from(s, k)[j].1 <= s.len(),
        k <= spans_end(arg_spans_from(s, k), k) <= s.len(),
    decreases s.len() - k,
{
    lemma_ws_end(s, k);
    let a = ws_end(s, k);
    if 0 <= a < s.len() && s[a] == ',' {
        lemma_ws_end(s, a + 1);
        let b = ws_end(s, a + 1);
        if let SpecStep::Done(m) = identifier_spec(s, b, Terminator::Char(',')) {
            if k < m <= s.len() {
                lemma_arg_spans_from(s, m);
                lemma_ident_scan(s, b, Terminator::Char(','));
                let rest = arg_spans_from(s, m);
                let all = seq![(b, m)] + rest;
                assert forall|j: int| 0 <= j < all.len() implies k < (#[trigger] all[j]).0 <= all[j].1 <= s.len() by {
                    if j > 0 {
                        assert(all[j] == rest[j - 1]);
                    }
                }
                if rest.len() > 0 {
                    assert(all.last() == rest.last());
                }
            }
        }
    }
}

/// Parses the arguments of a function expression at `i`.
/// # Returns
/// - the start and end of each argument name, and where the body starts
pub fn function_args(s: &[char], i: usize) -> (r: Option<(Vec<(usize, usize)>, usize)>)
    requires
        i <= s@.len(),
    ensures
        match function_args_spec(s@, i as int) {
            Some((spans, body)) => r matches Some((v, b)) && b == body && v@.len() == spans.len()
                && (forall|j: int| 0 <= j < spans.len() ==> (#[trigger] v@[j]).0 == spans[j].0 && v@[j].1
                == spans[j].1) && body <= s@.len(),
            None => r is None,
        },
{
    proof {
        reveal_strlit("=>");
        assert("=>"@ =~= seq!['=', '>']);
    }
    let n = s.len();
    let a = ws(s, i);
    if tag_at(s, a, "=>") {
        let body = ws(s, a + 2);
        return Some((Vec::new(), body));
    }
    let mut spans: Vec<(usize, usize)> = Vec::new();
    let mut end = i;
    proof {
        lemma_ident_scan(s@, i as int, Terminator::Char(','));
    }
    match identifier_at(s, i, Terminator::Char(',')) {
        Step::Done(k) => {
            spans.push((i, k));
            end = k;
            let mut p = k;
            proof {
                lemma_arg_spans_from(s@, k as int);
            }
            loop
                invariant
                    n == s@.len(),
                    i < p <= n,
                    end == p,
                    spans@.len() >= 1,
                    spans@.last().1 == p,
                    arg_spans(s@, i as int) == ({
                        let v = spans@;
                        Seq::new(v.len(), |j: int| (v[j].0 as int, v[j].1 as int))
                    }) + arg_spans_from(s@, p as int),
                ensures
                    end == p,
                    p <= n,
                    arg_spans(s@, i as int) == ({
                        let v = spans@;
                        Seq::new(v.len(), |j: int| (v[j].0 as int, v[j].1 as int))
                    }) + arg_spans_from(s@, p as int),
                    arg_spans_from(s@, p as int) == Seq::<(int, int)>::empty(),
                    spans@.len() >= 1,
                    spans@.last().1 == p,
                decreases n - p,
            {
                let a2 = ws(s, p);
                if !(a2 < n && s[a2] == ',') {
                    break;
                }
                let b = ws(s, a2 + 1);
                match identifier_at(s, b, Terminator::Char(',')) {
                    Step::Done(m) => {
                        proof {
                            lemma_ws_end(s@, p as int);
                            lemma_ws_end(s@, a2 + 1);
                        }
                        let ghost before = spans@;
                        spans.push((b, m));
                        proof {
                            let v0 = Seq::new(before.len(), |j: int| (before[j].0 as int, before[j].1 as int));
                            let v1 = Seq::new(spans@.len(), |j: int| (spans@[j].0 as int, spans@[j].1 as int));
                            assert(v1 =~= v0 + seq![(b as int, m as int)]);
                            assert(arg_spans_from(s@, p as int) == seq![(b as int, m as int)] + arg_spans_from(s@, m as int));
                            assert(v0 + (seq![(b as int, m as int)] + arg_spans_from(s@, m as int)) =~= v1 + arg_spans_from(s@, m as int));
                        }
                        p = m;
                        end = m;
                    },
                    _ => {
                        break;
                    },
                }
            }
            proof {
                let v = spans@;
                let vs = Seq::new(v.len(), |j: int| (v[j].0 as int, v[j].1 as int));
                assert(arg_spans_from(s@, end as int) =~= Seq::<(int, int)>::empty());
                assert(arg_spans(s@, i as int) =~= vs);
                assert(spans_end(arg_spans(s@, i as int), i as int) == end);
            }
        },
        _ => {},
    }
    let b = ws(s, end);
    if tag_at(s, b, "=>") {
        let body = ws(s, b + 2);
        Some((spans, body))
    } else {
        None
    }
}

/// Parses the start of a return statement: `return` and whitespace.
/// # Returns
/// - where what is returned starts
pub fn return_head(s: &[char], i: usize) -> (r: Option<usize>)
    requires
        i <= s@.len(),
    ensures
        has_tag(s@, i as int, seq!['r', 'e', 't', 'u', 'r', 'n']) ==> r == Some(ws_end(s@, i + 6) as usize),
        !has_tag(s@, i as int, seq!['r', 'e', 't', 'u', 'r', 'n']) ==> r is None,
        r matches Some(k) ==> k <= s@.len(),
{
    proof {
        reveal_strlit("return");
        assert("return"@ =~= seq!['r', 'e', 't', 'u', 'r', 'n']);
    }
    let _n = s.len();
    if tag_at(s, i, "return") {
        Some(ws(s, i + 6))
    } else {
        None
    }
}

/// Parses the body of a function expression that starts at `i`: a body that starts
/// with `{` is a block and runs to the end of its scope; any other body is one implicit
/// statement.
/// # Returns
/// - where the text of the body ends, and where what was parsed ends
pub fn function_body(s: &[char], i: usize) -> (r: (usize, usize))
    requires
        i <= s@.len(),
    ensures
        i < s@.len() && s@[i as int] == '{' ==> r.0 == scope_end(s@, i + 1, 1) && r.1 == r.0,
        !(i < s@.len() && s@[i as int] == '{') ==> r.0 == implicit_end(s@, i as int) && r.1
            == implicit_statement_end(s@, i as int),
        i <= r.0 <= r.1 <= s@.len(),
{
    match scope(s, i) {
        Some(e) => (e, e),
        None => {
            let (end, text_end) = implicit_statement(s, i);
            (text_end, end)
        },
    }
}

/// What parsing the arguments of a call does next.
#[derive(Debug, Clone, Copy, PartialEq, Eq, Structural)]
pub enum ArgStep {
    /// An argument's expression starts here
    Parse(usize),
    /// The call ends here
    Done(usize),
    /// The text is no call
    Fail,
}

/// The spec form of `ArgStep`.
pub enum ArgStepSpec {
    Parse(int),
    Done(int),
    Fail,
}

impl ArgStep {
    pub open spec fn view(self) -> ArgStepSpec {
        match self {
            ArgStep::Parse(p) => ArgStepSpec::Parse(p as int),
            ArgStep::Done(p) => ArgStepSpec::Done(p as int),
            ArgStep::Fail => ArgStepSpec::Fail,
        }
    }
}

/// The first step after the name of a function that takes `count` arguments, at `k`:
/// without arguments the call ends there; otherwise the statement must not end there,
/// and the first argument starts after whitespace.
pub open spec fn first_arg_spec(s: Seq<char>, k: int, count: nat) -> ArgStepSpec {
    if count == 0 {
        ArgStepSpec::Done(k)
    } else if end_of_statement_spec(s, k) is Some {
        ArgStepSpec::Fail
    } else {
        ArgStepSpec::Parse(ws_end(s, k))
    }
}

/// The step after the expression of the `parsed`-th argument ended at `e`: whitespace,
/// and then the call ends when all `count` arguments are parsed; otherwise a comma and
/// whitespace lead to the next argument.
pub open spec fn next_arg_spec(s: Seq<char>, e: int, parsed: nat, count: nat) -> ArgStepSpec {
    let p = ws_end(s, e);
    if parsed >= count {
        ArgStepSpec::Done(p)
    } else if 0 <= p < s.len() && s[p] == ',' {
        ArgStepSpec::Parse(ws_end(s, p + 1))
    } else {
        ArgStepSpec::Fail
    }
}

/// The first step of parsing the arguments of a call (see `first_arg_spec`).
pub fn first_arg(s: &[char], k: usize, count: usize) -> (r: ArgStep)
    requires
        k <= s@.len(),
    ensures
        r@ == first_arg_spec(s@, k as int, count as nat),
        r matches ArgStep::Parse(p) ==> p <= s@.len(),
        r matches ArgStep::Done(p) ==> p <= s@.len(),
{
    if count == 0 {
        ArgStep::Done(k)
    } else if end_of_statement(s, k).is_some() {
        ArgStep::Fail
    } else {
        ArgStep::Parse(ws(s, k))
    }
}

/// The step after an argument's expression (see `next_arg_spec`).
pub fn next_arg(s: &[char], e: usize, parsed: usize, count: usize) -> (r: ArgStep)
    requires
        e <= s@.len(),
    ensures
        r@ == next_arg_spec(s@, e as int, parsed as nat, count as nat),
        r matches ArgStep::Parse(p) ==> e < p <= s@.len(),
        r matches ArgStep::Done(p) ==> e <= p <= s@.len(),
{
    let p = ws(s, e);
    if parsed >= count {
        ArgStep::Done(p)
    } else if p < s.len() && s[p] == ',' {
        ArgStep::Parse(ws(s, p + 1))
    } else {
        ArgStep::Fail
    }
}

} // verus!
