//! Responsible for doing static analysis operation on the code before it is evaluated
pub mod parsers;

use vstd::prelude::*;
use self::parsers::{till_term, till_term_spec, var_decl, var_decl_spec, VarDeclSpec, VarDeclStep};
use crate::interpreter::parsers::{
    lemma_scan, lemma_ws_char, lemma_ws_end, scan, scan_exec, ws, ws_char_at, ws_char_spec, ws_end,
    CharClass, LifeTime, LifeTimeSpec,
};
use crate::interpreter::parsers::types::{
    byte_len, byte_len_chars, calc_line_column_chars, chars_to_string, lemma_byte_len_append,
    lemma_byte_len_encode, lemma_counts_bounded, lemma_nl_count_append, nl_count, slice_to_vec,
    str_chars,
};

verus! {

#[derive(Debug, Clone, PartialEq, Eq)]
/// Information for a variable whose declaration is hoisted
/// # Note
/// - This only applies to declarations with a life time
pub struct HoistedVarInfo {
    pub identifier: String,
    /// Index of the line where the variable will become usable
    pub hoisted_line: usize,
    /// Byte index of the declaration's expression
    pub expr_index: usize,
}

/// What a hoisted declaration holds.
pub struct HoistedSpec {
    pub identifier: Seq<char>,
    pub hoisted_line: int,
    pub expr_index: int,
}

impl View for HoistedVarInfo {
    type V = HoistedSpec;

    open spec fn view(&self) -> HoistedSpec {
        HoistedSpec {
            identifier: self.identifier@,
            hoisted_line: self.hoisted_line as int,
            expr_index: self.expr_index as int,
        }
    }
}

/// Contains useful data about the code
#[derive(Debug, Clone)]
pub struct Analysis {
    /// Variables whose declaration is hoisted, in the order of the code
    pub hoisted_vars: Vec<HoistedVarInfo>,
}

impl View for Analysis {
    type V = Seq<HoistedSpec>;

    open spec fn view(&self) -> Seq<HoistedSpec> {
        self.hoisted_vars@.map_values(|h: HoistedVarInfo| h@)
    }
}

/// The line from which a variable declared on `decl_line` is usable: a negative
/// number of lines moves it up (no further than line 0), any other life time
/// keeps it on its line
pub open spec fn hoisted_line_spec(decl_line: int, life_time: LifeTimeSpec) -> int {
    match life_time {
        LifeTimeSpec::Lines(l) => if l < 0 {
            if decl_line + l < 0 {
                0
            } else {
                decl_line + l
            }
        } else {
            decl_line
        },
        _ => decl_line,
    }
}

/// The line of index `i` of the code, counted from 1
pub open spec fn line_at(s: Seq<char>, i: int) -> int {
    1 + nl_count(s.take(i)) as int
}

pub open spec fn prepend(a: Seq<HoistedSpec>, r: Option<Seq<HoistedSpec>>) -> Option<Seq<HoistedSpec>> {
    match r {
        Some(x) => Some(a + x),
        None => None,
    }
}

/// The hoisted declarations of the code from index `i` on; `None` where the analysis
/// aborts: at a `!` that starts a piece, and at a declaration whose life time
/// commits to a failure or makes the parser abort
#[verifier::opaque]
pub open spec fn analyze_spec(s: Seq<char>, i: int) -> Option<Seq<HoistedSpec>>
    decreases s.len() - i,
{
    if i < 0 || i >= s.len() {
        Some(Seq::empty())
    } else {
        match ws_char_spec(s, i) {
            Some(j) => if i < j <= s.len() {
                analyze_spec(s, j)
            } else {
                None
            },
            None => match var_decl_spec(s, i) {
                VarDeclSpec::Done { end, name, life_time, expr_start } => if i < end <= s.len() {
                    prepend(
                        seq![
                            HoistedSpec {
                                identifier: name,
                                hoisted_line: hoisted_line_spec(line_at(s, i), life_time),
                                expr_index: byte_len(s.take(expr_start)) as int,
                            },
                        ],
                        analyze_spec(s, end),
                    )
                } else {
                    None
                },
                VarDeclSpec::Error => match till_term_spec(s, i) {
                    None => None,
                    Some(k) => {
                        let k3 = scan(s, ws_end(s, k), CharClass::Bang);
                        if i < k3 <= s.len() {
                            analyze_spec(s, k3)
                        } else {
                            None
                        }
                    },
                },
                _ => None,
            },
        }
    }
}

pub(crate) fn hoisted_line_exec(decl_line: usize, life_time: &LifeTime) -> (r: usize)
    ensures
        r == hoisted_line_spec(decl_line as int, life_time@),
{
    match life_time {
        LifeTime::Lines(l) => {
            if *l < 0 {
                let sum = decl_line as i128 + *l as i128;
                if sum < 0 {
                    0
                } else {
                    sum as usize
                }
            } else {
                decl_line
            }
        },
        _ => decl_line,
    }
}

/// One step of the analysis loop.
enum AnalysisStep {
    /// Continue at the index, having found the declaration if any
    Next(usize, Option<HoistedVarInfo>),
    /// The analysis aborts here
    Abort,
}

pub open spec fn opt_seq(h: Option<HoistedVarInfo>) -> Seq<HoistedSpec> {
    match h {
        Some(x) => seq![x@],
        None => Seq::empty(),
    }
}

/// One level of the definition of the analysis
proof fn lemma_analyze_unfold(s: Seq<char>, j: int, line: int)
    requires
        0 <= j < s.len(),
        line == line_at(s, j),
    ensures
        ws_char_spec(s, j) matches Some(k) ==> (j < k <= s.len() ==> analyze_spec(s, j) == analyze_spec(s, k)),
        ws_char_spec(s, j) is None ==> (var_decl_spec(s, j) matches VarDeclSpec::Done { end, name, life_time, expr_start } ==> (j < end <= s.len() ==> analyze_spec(s, j) == prepend(
            seq![
                HoistedSpec {
                    identifier: name,
                    hoisted_line: hoisted_line_spec(line, life_time),
                    expr_index: byte_len(s.take(expr_start)) as int,
                },
            ],
            analyze_spec(s, end),
        ))),
        ws_char_spec(s, j) is None ==> (var_decl_spec(s, j) is Failure || var_decl_spec(s, j) is Panic ==> analyze_spec(s, j) is None),
        ws_char_spec(s, j) is None ==> (var_decl_spec(s, j) is Error ==> (till_term_spec(s, j) is None ==> analyze_spec(s, j) is None)),
        ws_char_spec(s, j) is None ==> (var_decl_spec(s, j) is Error ==> (till_term_spec(s, j) matches Some(k) ==> (j < scan(s, ws_end(s, k), CharClass::Bang) <= s.len() ==> analyze_spec(s, j) == analyze_spec(s, scan(s, ws_end(s, k), CharClass::Bang))))),
{
    reveal(analyze_spec);
}

/// One step of the analysis at index `j`, which is on line `line`
fn analysis_step(s: &[char], j: usize, line: usize) -> (r: AnalysisStep)
    requires
        j < s@.len(),
        line == line_at(s@, j as int),
        byte_len(s@) <= usize::MAX,
    ensures
        match r {
            AnalysisStep::Abort => analyze_spec(s@, j as int) is None,
            AnalysisStep::Next(k, h) => j < k <= s@.len() && analyze_spec(s@, j as int) == prepend(
                opt_seq(h),
                analyze_spec(s@, k as int),
            ),
        },
{
    let ghost sv = s@;
    proof {
        lemma_analyze_unfold(sv, j as int, line as int);
    }
    match ws_char_at(s, j) {
        Some(k) => {
            proof {
                assert(opt_seq(None) + analyze_spec(sv, k as int)->0 =~= analyze_spec(sv, k as int)->0);
            }
            AnalysisStep::Next(k, None)
        },
        None => {
            match var_decl(s, j, line) {
                VarDeclStep::Done { end, name_start, name_end, life_time, expr_start, hoisted_line } => {
                    proof {
                        assert(sv.take(expr_start as int) =~= sv.subrange(0, expr_start as int));
                        lemma_byte_len_append(sv.take(expr_start as int), sv.skip(expr_start as int));
                        assert(sv.take(expr_start as int) + sv.skip(expr_start as int) =~= sv);
                    }
                    let expr_index = byte_len_chars(s, 0, expr_start);
                    let name = chars_to_string(slice_to_vec(s, name_start, name_end).as_slice());
                    let info = HoistedVarInfo { identifier: name, hoisted_line, expr_index };
                    AnalysisStep::Next(end, Some(info))
                },
                VarDeclStep::Error => {
                    match till_term(s, j) {
                        None => AnalysisStep::Abort,
                        Some(k) => {
                            let k2 = ws(s, k);
                            proof {
                                lemma_scan(sv, k2 as int, CharClass::Bang);
                            }
                            let k3 = scan_exec(s, k2, CharClass::Bang);
                            proof {
                                assert(opt_seq(None) + analyze_spec(sv, k3 as int)->0 =~= analyze_spec(sv, k3 as int)->0);
                            }
                            AnalysisStep::Next(k3, None)
                        },
                    }
                },
                _ => AnalysisStep::Abort,
            }
        },
    }
}

impl Analysis {
    /// Does a static analysis of code
    /// # Returns
    /// - `None` where the analysis of the code aborts
    pub fn try_analyze(input: &str) -> (r: Option<Self>)
        requires
            input@.len() < usize::MAX,
        ensures
            match analyze_spec(input@, 0) {
                None => r is None,
                Some(v) => r matches Some(a) && a@ == v,
            },
    {
        let total = input.as_bytes().len();
        let chars = str_chars(input);
        let s = chars.as_slice();
        let ghost sv = s@;
        proof {
            lemma_byte_len_encode(input@);
        }
        let n = s.len();
        let mut res: Vec<HoistedVarInfo> = Vec::new();
        let mut j: usize = 0;
        let mut line: usize = 1;
        proof {
            assert(sv.take(0) =~= Seq::<char>::empty());
            assert(res@.map_values(|h: HoistedVarInfo| h@) + analyze_spec(sv, 0)->0 =~= analyze_spec(sv, 0)->0);
        }
        loop
            invariant
                sv == s@,
                sv == input@,
                n == sv.len(),
                n < usize::MAX,
                byte_len(sv) <= usize::MAX,
                j <= n,
                line == line_at(sv, j as int),
                analyze_spec(sv, 0) == prepend(res@.map_values(|h: HoistedVarInfo| h@), analyze_spec(sv, j as int)),
            decreases n - j,
        {
            if j >= n {
                proof {
                    reveal(analyze_spec);
                    assert(res@.map_values(|h: HoistedVarInfo| h@) + Seq::<HoistedSpec>::empty() =~= res@.map_values(|h: HoistedVarInfo| h@));
                }
                return Some(Analysis { hoisted_vars: res });
            }
            match analysis_step(s, j, line) {
                AnalysisStep::Abort => {
                    return None;
                },
                AnalysisStep::Next(next, found) => {
                    let ghost before = res@.map_values(|h: HoistedVarInfo| h@);
                    let ghost hs = opt_seq(found);
                    match found {
                        Some(info) => {
                            res.push(info);
                        },
                        None => {},
                    }
                    proof {
                        assert(res@.map_values(|h: HoistedVarInfo| h@) =~= before + hs);
                        if analyze_spec(sv, next as int) is Some {
                            let rest = analyze_spec(sv, next as int)->0;
                            assert(before + hs + rest =~= before + (hs + rest));
                        }
                        assert(sv.take(next as int) =~= sv.take(j as int) + sv.subrange(j as int, next as int));
                        lemma_nl_count_append(sv.take(j as int), sv.subrange(j as int, next as int));
                        lemma_counts_bounded(sv.take(next as int));
                    }
                    let (lines, _) = calc_line_column_chars(s, j, next);
                    line = line + lines;
                    j = next;
                },
            }
        }
    }

    /// Does a static analysis of code
    pub fn analyze(input: &str) -> (r: Self)
        requires
            input@.len() < usize::MAX,
            analyze_spec(input@, 0) is Some,
        ensures
            Some(r@) == analyze_spec(input@, 0),
    {
        match Self::try_analyze(input) {
            Some(a) => a,
            None => Analysis { hoisted_vars: Vec::new() },
        }
    }
}

} // verus!
