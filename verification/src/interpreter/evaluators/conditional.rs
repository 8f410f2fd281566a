//! Conditionals: `if` statements and `when` watchers, how they are parsed, and what a
//! watcher's condition reads.
use vstd::prelude::*;
use crate::interpreter::parsers::{
    has_tag, identifier_at, identifier_spec, lemma_ident_scan, lemma_scan, lemma_ws_end, scan, scan_exec,
    tag_at, ws, ws1, ws1_spec, ws_end, CharClass, SpecStep, Step, Terminator,
};
use crate::interpreter::ast::uncertain::{is_white_space_exec, trim_end_at};
use crate::interpreter::evaluators::scope::{closed_scope, scope, scope_end, scope_scan};
use crate::interpreter::parsers::types::{chars_to_string, slice_to_vec};

verus! {

/// The words of a condition from `p` on, each up to whitespace, with the whitespace
/// after it skipped: their starts and ends.
pub open spec fn word_spans(s: Seq<char>, p: int) -> Seq<(int, int)>
    decreases s.len() - p,
{
    match identifier_spec(s, p, Terminator::Never) {
        SpecStep::Done(k) => {
            let q = ws_end(s, k);
            if p < k <= q <= s.len() {
                seq![(p, k)] + word_spans(s, q)
            } else {
                Seq::empty()
            }
        },
        _ => Seq::empty(),
    }
}

/// The words of the condition of a `when` watcher: the names whose values it watches.
pub fn condition_words(s: &[char]) -> (r: Vec<String>)
    ensures
        r@.len() == word_spans(s@, 0).len(),
        forall|j: int| 0 <= j < r@.len() ==> (#[trigger] r@[j])@ == s@.subrange(
            word_spans(s@, 0)[j].0,
            word_spans(s@, 0)[j].1,
        ),
{
    let n = s.len();
    let mut p: usize = 0;
    let mut out: Vec<String> = Vec::new();
    let ghost all = word_spans(s@, 0);
    loop
        invariant
            n == s@.len(),
            p <= n,
            all == word_spans(s@, 0),
            out@.len() + word_spans(s@, p as int).len() == all.len(),
            forall|j: int| 0 <= j < out@.len() ==> (#[trigger] out@[j])@ == s@.subrange(all[j].0, all[j].1),
            forall|j: int| 0 <= j < word_spans(s@, p as int).len() ==> #[trigger] word_spans(s@, p as int)[j]
                == all[out@.len() + j],
        decreases n - p,
    {
        proof {
            lemma_ident_scan(s@, p as int, Terminator::Never);
        }
        match identifier_at(s, p, Terminator::Never) {
            Step::Done(k) => {
                let q = ws(s, k);
                let ghost rest = word_spans(s@, p as int);
                let ghost next = word_spans(s@, q as int);
                proof {
                    assert(rest == seq![(p as int, k as int)] + next);
                    assert(rest[0] == all[out@.len() as int]);
                }
                out.push(chars_to_string(slice_to_vec(s, p, k).as_slice()));
                proof {
                    assert forall|j: int| 0 <= j < next.len() implies #[trigger] next[j] == all[out@.len() + j] by {
                        assert(rest[j + 1] == next[j]);
                    }
                }
                if q >= n {
                    proof {
                        assert(word_spans(s@, q as int) =~= Seq::<(int, int)>::empty());
                    }
                    return out;
                }
                p = q;
            },
            _ => {
                return out;
            },
        }
    }
}

/// The letters of the keyword `when`.
pub open spec fn when_word() -> Seq<char> {
    seq!['w', 'h', 'e', 'n']
}

/// The letters of the keyword `else`.
pub open spec fn else_word() -> Seq<char> {
    seq!['e', 'l', 's', 'e']
}

/// The parts of a `when` statement that starts at `i`: `when`, whitespace, the
/// condition up to the first `{` (without the white space at its end), the body as a
/// block from that `{`, and then, right after the body, an optional `else` branch:
/// `else`, whitespace and another `when` statement, or `else`, whitespace and a block.
/// # Returns
/// - where the condition starts and ends, where the body starts and ends, and where
///   the statement ends; none when the text is no `when` statement
pub open spec fn when_spec(s: Seq<char>, i: int) -> Option<(int, int, int, int, int)>
    decreases s.len() - i,
{
    if !has_tag(s, i, when_word()) {
        None
    } else {
        match ws1_spec(s, i + 4) {
            None => None,
            Some(a) => {
                let b = scan(s, a, CharClass::NotChar('{'));
                if !(i < a <= b < s.len()) {
                    None
                } else {
                    let c = scope_end(s, b + 1, 1);
                    let end = if i < c <= s.len() && has_tag(s, c, else_word()) {
                        match ws1_spec(s, c + 4) {
                            Some(d) => if c < d <= s.len() {
                                match when_spec(s, d) {
                                    Some(w) => w.4,
                                    None => if d < s.len() && s[d] == '{' {
                                        scope_end(s, d + 1, 1)
                                    } else {
                                        c
                                    },
                                }
                            } else {
                                c
                            },
                            None => c,
                        }
                    } else {
                        c
                    };
                    Some((a, trim_end_at(s, a, b), b, c, end))
                }
            },
        }
    }
}

/// Where the parts of a `when` statement stand in the text.
#[derive(Debug, Clone, Copy, PartialEq, Eq, Structural)]
pub struct WhenParts {
    /// Where the condition starts
    pub condition_start: usize,
    /// Where the condition ends, without the white space at its end
    pub condition_end: usize,
    /// Where the body starts, at its `{`
    pub body_start: usize,
    /// Where the body ends, after its `}` (or at the end of a text that never closes it)
    pub body_end: usize,
    /// Where the statement ends, after an `else` branch if one follows the body
    pub end: usize,
}

/// Parses a `when` statement that starts at `i` (see `when_spec`).
pub fn when_parts(s: &[char], i: usize) -> (r: Option<WhenParts>)
    requires
        i <= s@.len(),
    ensures
        match when_spec(s@, i as int) {
            Some(w) => r matches Some(p) && p.condition_start == w.0 && p.condition_end == w.1
                && p.body_start == w.2 && p.body_end == w.3 && p.end == w.4,
            None => r is None,
        },
        r matches Some(p) ==> i < p.condition_start <= p.condition_end <= p.body_start < p.body_end
            <= p.end <= s@.len(),
    decreases s@.len() - i,
{
    proof {
        reveal_strlit("when");
        reveal_strlit("else");
        assert("when"@ =~= when_word());
        assert("else"@ =~= else_word());
    }
    let n = s.len();
    if !tag_at(s, i, "when") {
        return None;
    }
    let a = match ws1(s, i + 4) {
        Some(a) => a,
        None => {
            return None;
        },
    };
    let b = scan_exec(s, a, CharClass::NotChar('{'));
    if b >= n {
        return None;
    }
    proof {
        lemma_scan(s@, a as int, CharClass::NotChar('{'));
    }
    let c = match scope(s, b) {
        Some(c) => c,
        None => {
            return None;
        },
    };
    let mut e = b;
    while e > a && is_white_space_exec(s[e - 1])
        invariant
            n == s@.len(),
            a <= e <= b < n,
            trim_end_at(s@, a as int, b as int) == trim_end_at(s@, a as int, e as int),
        decreases e - a,
    {
        e = e - 1;
    }
    let mut end = c;
    if tag_at(s, c, "else") {
        match ws1(s, c + 4) {
            Some(d) => {
                match when_parts(s, d) {
                    Some(w) => {
                        end = w.end;
                    },
                    None => {
                        if d < n && s[d] == '{' {
                            match scope(s, d) {
                                Some(f) => {
                                    end = f;
                                },
                                None => {},
                            }
                        }
                    },
                }
            },
            None => {},
        }
    }
    Some(WhenParts { condition_start: a, condition_end: e, body_start: b, body_end: c, end })
}

/// What a watched name holds now, next to what it held when its watcher last looked.
#[derive(Debug, Clone, Copy, PartialEq, Eq, Structural)]
pub enum Watch {
    /// No variable of that name is found now
    Unset,
    /// No variable was found before, and one is found now
    Appeared,
    /// A value was found before and one is found now; whether the two are strictly equal
    Held(bool),
}

/// Has the watched name changed? A name whose variable is gone does not count as
/// changed.
pub open spec fn watch_changed(w: Watch) -> bool {
    match w {
        Watch::Unset => false,
        Watch::Appeared => true,
        Watch::Held(same) => !same,
    }
}

/// Which watched name of a `when` watcher changed first: the names are looked at in
/// order, and the first that changed is the one whose value the watcher records.
/// # Returns
/// - its index, or none when no name changed (the body then does not run)
pub fn first_change(watches: &[Watch]) -> (r: Option<usize>)
    ensures
        r matches Some(k) ==> k < watches@.len() && watch_changed(watches@[k as int]) && forall|j: int|
            0 <= j < k ==> !watch_changed(#[trigger] watches@[j]),
        r is None ==> forall|j: int| 0 <= j < watches@.len() ==> !watch_changed(#[trigger] watches@[j]),
{
    let mut k: usize = 0;
    while k < watches.len()
        invariant
            k <= watches@.len(),
            forall|j: int| 0 <= j < k ==> !watch_changed(#[trigger] watches@[j]),
        decreases watches@.len() - k,
    {
        let changed = match watches[k] {
            Watch::Unset => false,
            Watch::Appeared => true,
            Watch::Held(same) => !same,
        };
        if changed {
            return Some(k);
        }
        k = k + 1;
    }
    None
}

/// The letters of the keyword `if`.
pub open spec fn if_word() -> Seq<char> {
    seq!['i', 'f']
}

/// One `if` that starts at `i`: `if`, whitespace, the condition up to the first `{`
/// (without the white space at its end), and a block from that `{` that closes.
/// # Returns
/// - where the condition starts and ends and where the block starts and ends; none
///   when the text is no such `if`
pub open spec fn if_branch_spec(s: Seq<char>, i: int) -> Option<(int, int, int, int)> {
    if !has_tag(s, i, if_word()) {
        None
    } else {
        match ws1_spec(s, i + 2) {
            None => None,
            Some(a) => {
                let b = scan(s, a, CharClass::NotChar('{'));
                if !(i < a <= b < s.len()) {
                    None
                } else if scope_scan(s, b + 1, 1).1 {
                    Some((a, trim_end_at(s, a, b), b, scope_end(s, b + 1, 1)))
                } else {
                    None
                }
            },
        }
    }
}

/// What follows the block of an `if` that ends at `e`: any number of `else`,
/// whitespace and another `if`, and then possibly `else`, whitespace and a block that
/// closes; whitespace may stand before each `else`.
/// # Returns
/// - the further branches, the last block if there is one, and where the statement
///   ends
pub open spec fn else_chain_spec(s: Seq<char>, e: int) -> (
    Seq<(int, int, int, int)>,
    Option<(int, int)>,
    int,
)
    decreases s.len() - e,
{
    let w = ws_end(s, e);
    let nothing = (Seq::<(int, int, int, int)>::empty(), None::<(int, int)>, e);
    if !(0 <= e <= w && has_tag(s, w, else_word())) {
        nothing
    } else {
        match ws1_spec(s, w + 4) {
            None => nothing,
            Some(d) => if !(e < d <= s.len()) {
                nothing
            } else {
                match if_branch_spec(s, d) {
                    Some(branch) => if e < branch.3 <= s.len() {
                        let rest = else_chain_spec(s, branch.3);
                        (seq![branch] + rest.0, rest.1, rest.2)
                    } else {
                        nothing
                    },
                    None => if d < s.len() && s[d] == '{' && scope_scan(s, d + 1, 1).1 {
                        let f = scope_end(s, d + 1, 1);
                        (Seq::empty(), Some((d, f)), f)
                    } else {
                        nothing
                    },
                }
            },
        }
    }
}

/// An `if` statement that starts at `i`: an `if` (see `if_branch_spec`) and what
/// follows its block (see `else_chain_spec`).
/// # Returns
/// - its branches, its last block if there is one, and where it ends; none when the
///   text is no `if` statement
pub open spec fn if_spec(s: Seq<char>, i: int) -> Option<
    (Seq<(int, int, int, int)>, Option<(int, int)>, int),
> {
    match if_branch_spec(s, i) {
        None => None,
        Some(branch) => {
            let rest = else_chain_spec(s, branch.3);
            Some((seq![branch] + rest.0, rest.1, rest.2))
        },
    }
}

/// Where a branch of an `if` statement stands in the text.
#[derive(Debug, Clone, Copy, PartialEq, Eq, Structural)]
pub struct IfBranch {
    /// Where the condition starts
    pub condition_start: usize,
    /// Where the condition ends, without the white space at its end
    pub condition_end: usize,
    /// Where the block starts, at its `{`
    pub block_start: usize,
    /// Where the block ends, after its `}`
    pub block_end: usize,
}

impl IfBranch {
    /// The positions of the branch as integers.
    pub open spec fn spec(self) -> (int, int, int, int) {
        (self.condition_start as int, self.condition_end as int, self.block_start as int, self.block_end as int)
    }
}

/// The positions of branches as integers.
pub open spec fn branch_specs(b: Seq<IfBranch>) -> Seq<(int, int, int, int)> {
    b.map_values(|x: IfBranch| x.spec())
}

/// Where the parts of an `if` statement stand in the text.
#[derive(Debug, Clone)]
pub struct IfParts {
    /// The `if` and the `else if` branches, in order
    pub branches: Vec<IfBranch>,
    /// The block after the last `else`, if there is one: where it starts and ends
    pub else_block: Option<(usize, usize)>,
    /// Where the statement ends
    pub end: usize,
}

/// Parses one `if` that starts at `i` (see `if_branch_spec`).
fn if_branch(s: &[char], i: usize) -> (r: Option<IfBranch>)
    requires
        i <= s@.len(),
    ensures
        match if_branch_spec(s@, i as int) {
            Some(b) => r matches Some(x) && x.spec() == b,
            None => r is None,
        },
        r matches Some(x) ==> i < x.condition_start <= x.condition_end <= x.block_start < x.block_end
            <= s@.len(),
{
    proof {
        reveal_strlit("if");
        assert("if"@ =~= if_word());
    }
    let n = s.len();
    if !tag_at(s, i, "if") {
        return None;
    }
    let a = match ws1(s, i + 2) {
        Some(a) => a,
        None => {
            return None;
        },
    };
    let b = scan_exec(s, a, CharClass::NotChar('{'));
    if b >= n {
        return None;
    }
    proof {
        lemma_scan(s@, a as int, CharClass::NotChar('{'));
    }
    let c = match closed_scope(s, b) {
        Some(c) => c,
        None => {
            return None;
        },
    };
    let mut e = b;
    while e > a && is_white_space_exec(s[e - 1])
        invariant
            n == s@.len(),
            a <= e <= b < n,
            trim_end_at(s@, a as int, b as int) == trim_end_at(s@, a as int, e as int),
        decreases e - a,
    {
        e = e - 1;
    }
    Some(IfBranch { condition_start: a, condition_end: e, block_start: b, block_end: c })
}

/// Parses what follows the block of an `if` that ends at `e` (see `else_chain_spec`).
fn else_chain(s: &[char], e: usize) -> (r: (Vec<IfBranch>, Option<(usize, usize)>, usize))
    requires
        e <= s@.len(),
    ensures
        branch_specs(r.0@) == else_chain_spec(s@, e as int).0,
        match else_chain_spec(s@, e as int).1 {
            Some(x) => r.1 matches Some(y) && y.0 == x.0 && y.1 == x.1,
            None => r.1 is None,
        },
        r.2 == else_chain_spec(s@, e as int).2,
        e <= r.2 <= s@.len(),
    decreases s@.len() - e,
{
    proof {
        reveal_strlit("else");
        assert("else"@ =~= else_word());
        lemma_ws_end(s@, e as int);
        assert(Seq::<IfBranch>::empty().map_values(|x: IfBranch| x.spec()) =~= Seq::empty());
    }
    let n = s.len();
    let w = ws(s, e);
    if !tag_at(s, w, "else") {
        return (Vec::new(), None, e);
    }
    let d = match ws1(s, w + 4) {
        Some(d) => d,
        None => {
            return (Vec::new(), None, e);
        },
    };
    match if_branch(s, d) {
        Some(branch) => {
            let (rest, last, end) = else_chain(s, branch.block_end);
            let mut branches = vec![branch];
            let mut rest = rest;
            let ghost rest_view = rest@;
            branches.append(&mut rest);
            proof {
                assert(branches@ =~= seq![branch] + rest_view);
                assert(branch_specs(branches@) =~= seq![branch.spec()] + else_chain_spec(
                    s@,
                    branch.block_end as int,
                ).0);
            }
            (branches, last, end)
        },
        None => {
            if d < n && s[d] == '{' {
                match closed_scope(s, d) {
                    Some(f) => (Vec::new(), Some((d, f)), f),
                    None => (Vec::new(), None, e),
                }
            } else {
                (Vec::new(), None, e)
            }
        },
    }
}

/// Parses an `if` statement that starts at `i` (see `if_spec`).
pub fn if_parts(s: &[char], i: usize) -> (r: Option<IfParts>)
    requires
        i <= s@.len(),
    ensures
        match if_spec(s@, i as int) {
            Some(x) => r matches Some(p) && branch_specs(p.branches@) == x.0 && p.end == x.2 && match x.1 {
                Some(b) => p.else_block matches Some(y) && y.0 == b.0 && y.1 == b.1,
                None => p.else_block is None,
            },
            None => r is None,
        },
        r matches Some(p) ==> i < p.end <= s@.len() && p.branches@.len() >= 1,
{
    let first = if_branch(s, i)?;
    let (rest, else_block, end) = else_chain(s, first.block_end);
    let mut branches = vec![first];
    let mut rest = rest;
    let ghost rest_view = rest@;
    branches.append(&mut rest);
    proof {
        assert(branches@ =~= seq![first] + rest_view);
        assert(branch_specs(branches@) =~= seq![first.spec()] + else_chain_spec(
            s@,
            first.block_end as int,
        ).0);
    }
    Some(IfParts { branches, else_block, end })
}

} // verus!
