//! Lexical parsers of the language: whitespace and comments, chunks, identifiers,
//! life times, integers and the end of a statement.
//!
//! Every parser reads a character sequence `s` from a start index and either stops
//! at an end index or fails. A failure is an `Error` (another alternative may be
//! tried), a `Failure` (a committed parse went wrong, no alternative is tried) or a
//! `Panic` (the input makes the parser abort).
pub mod lines;
pub mod types;

use vstd::prelude::*;
use self::types::{chars_to_string, slice_to_vec, str_chars};

verus! {

/// The outcome of a parser in specifications.
pub enum SpecStep {
    Done(int),
    Error,
    Failure,
    Panic,
}

/// The outcome of a parser.
#[derive(Debug, Clone, Copy, PartialEq, Eq)]
pub enum Step {
    /// The parser stopped at the given index
    Done(usize),
    /// The parser did not match
    Error,
    /// The parser matched partly and committed to a failure
    Failure,
    /// The input makes the parser abort
    Panic,
}

impl View for Step {
    type V = SpecStep;

    open spec fn view(&self) -> SpecStep {
        match *self {
            Step::Done(k) => SpecStep::Done(k as int),
            Step::Error => SpecStep::Error,
            Step::Failure => SpecStep::Failure,
            Step::Panic => SpecStep::Panic,
        }
    }
}

/// Characters that count as whitespace, brackets included
#[verifier::when_used_as_spec(spec_is_ws)]
pub fn is_ws(ch: char) -> (r: bool)
    ensures
        r == spec_is_ws(ch),
{
    ch == ' ' || ch == '\t' || ch == '\n' || ch == '\r' || ch == '(' || ch == ')'
}

pub open spec fn spec_is_ws(ch: char) -> bool {
    ch == ' ' || ch == '\t' || ch == '\n' || ch == '\r' || ch == '(' || ch == ')'
}

/// A class of characters that a scan runs over.
#[derive(Debug, Clone, Copy, PartialEq, Eq)]
pub enum CharClass {
    /// Anything but a newline
    NotNewline,
    /// Anything but `!`
    NotBang,
    /// Anything but whitespace
    NotWs,
    /// Anything but whitespace and `!`
    NotWsNorBang,
    /// The digits `0` to `9`
    AsciiDigit,
    /// The character `!`
    Bang,
    /// A quote: `"` or `'`
    Quote,
    /// Anything but the given character
    NotChar(char),
    /// The given character
    Is(char),
}

impl CharClass {
    pub open spec fn holds(self, c: char) -> bool {
        match self {
            CharClass::NotNewline => c != '\n',
            CharClass::NotBang => c != '!',
            CharClass::NotWs => !spec_is_ws(c),
            CharClass::NotWsNorBang => !spec_is_ws(c) && c != '!',
            CharClass::AsciiDigit => '0' <= c && c <= '9',
            CharClass::Bang => c == '!',
            CharClass::Quote => c == '"' || c == '\'',
            CharClass::NotChar(d) => c != d,
            CharClass::Is(d) => c == d,
        }
    }

    /// Does the class hold for `c`?
    pub fn test(&self, c: char) -> (r: bool)
        ensures
            r == self.holds(c),
    {
        match *self {
            CharClass::NotNewline => c != '\n',
            CharClass::NotBang => c != '!',
            CharClass::NotWs => !is_ws(c),
            CharClass::NotWsNorBang => !is_ws(c) && c != '!',
            CharClass::AsciiDigit => '0' <= c && c <= '9',
            CharClass::Bang => c == '!',
            CharClass::Quote => c == '"' || c == '\'',
            CharClass::NotChar(d) => c != d,
            CharClass::Is(d) => c == d,
        }
    }
}

/// The index of the first character at or after `j` for which `cls` does not hold
/// (the length of `s` if there is none).
pub open spec fn scan(s: Seq<char>, j: int, cls: CharClass) -> int
    decreases s.len() - j,
{
    if 0 <= j < s.len() && cls.holds(s[j]) {
        scan(s, j + 1, cls)
    } else {
        j
    }
}

pub proof fn lemma_scan(s: Seq<char>, j: int, cls: CharClass)
    requires
        0 <= j <= s.len(),
    ensures
        j <= scan(s, j, cls) <= s.len(),
        forall|m: int| j <= m < scan(s, j, cls) ==> cls.holds(#[trigger] s[m]),
        scan(s, j, cls) == s.len() || !cls.holds(s[scan(s, j, cls)]),
    decreases s.len() - j,
{
    if j < s.len() && cls.holds(s[j]) {
        lemma_scan(s, j + 1, cls);
    }
}

/// Runs over the characters of `cls` from `i` on
pub fn scan_exec(s: &[char], i: usize, cls: CharClass) -> (j: usize)
    requires
        i <= s@.len(),
    ensures
        j == scan(s@, i as int, cls),
        i <= j <= s@.len(),
{
    proof {
        lemma_scan(s@, i as int, cls);
    }
    let mut j = i;
    while j < s.len() && cls.test(s[j])
        invariant
            i <= j <= s@.len(),
            scan(s@, i as int, cls) == scan(s@, j as int, cls),
        decreases s@.len() - j,
    {
        j = j + 1;
    }
    j
}

/// Does `s` hold the characters of `t` from `j` on?
pub open spec fn has_tag(s: Seq<char>, j: int, t: Seq<char>) -> bool {
    0 <= j && j + t.len() <= s.len() && s.subrange(j, j + t.len()) == t
}

/// Does `s` hold `t` from `j` on?
pub fn tag_at(s: &[char], j: usize, t: &str) -> (r: bool)
    requires
        j <= s@.len(),
    ensures
        r == has_tag(s@, j as int, t@),
{
    let tc = str_chars(t);
    if tc.len() > s.len() - j {
        return false;
    }
    let mut k: usize = 0;
    let n = s.len();
    while k < tc.len()
        invariant
            n == s@.len(),
            j <= s@.len(),
            tc@ == t@,
            j + tc@.len() <= s@.len(),
            k <= tc@.len(),
            forall|m: int| 0 <= m < k ==> s@[j + m] == tc@[m],
        decreases tc@.len() - k,
    {
        if s[j + k] != tc[k] {
            proof {
                assert(s@.subrange(j as int, j + t@.len())[k as int] != t@[k as int]);
            }
            return false;
        }
        k = k + 1;
    }
    proof {
        assert(s@.subrange(j as int, j + t@.len()) =~= t@);
    }
    true
}

/// End of a line comment starting at `i` (`i` itself when there is none)
pub open spec fn comment_end(s: Seq<char>, i: int) -> int {
    if 0 <= i && i + 1 < s.len() && s[i] == '/' && s[i + 1] == '/' {
        scan(s, i + 2, CharClass::NotNewline)
    } else {
        i
    }
}

/// One whitespace character, and the line comment that follows it if any
pub open spec fn ws_char_spec(s: Seq<char>, i: int) -> Option<int> {
    if 0 <= i < s.len() && spec_is_ws(s[i]) {
        Some(comment_end(s, i + 1))
    } else {
        None
    }
}

pub proof fn lemma_ws_char(s: Seq<char>, i: int)
    requires
        0 <= i <= s.len(),
    ensures
        ws_char_spec(s, i) matches Some(j) ==> i < j <= s.len(),
{
    if 0 <= i < s.len() && spec_is_ws(s[i]) {
        if i + 2 < s.len() + 1 && i + 2 <= s.len() {
            lemma_scan(s, i + 2, CharClass::NotNewline);
        }
    }
}

/// Any amount of whitespace: where it ends
pub open spec fn ws_end(s: Seq<char>, i: int) -> int
    decreases s.len() - i,
{
    match ws_char_spec(s, i) {
        Some(j) => if i < j <= s.len() {
            ws_end(s, j)
        } else {
            i
        },
        None => i,
    }
}

/// Any amount of whitespace: how many whitespace characters
pub open spec fn ws_count_spec(s: Seq<char>, i: int) -> nat
    decreases s.len() - i,
{
    match ws_char_spec(s, i) {
        Some(j) => if i < j <= s.len() {
            1 + ws_count_spec(s, j)
        } else {
            0
        },
        None => 0,
    }
}

pub proof fn lemma_ws_end(s: Seq<char>, i: int)
    requires
        0 <= i <= s.len(),
    ensures
        i <= ws_end(s, i) <= s.len(),
        ws_count_spec(s, i) <= ws_end(s, i) - i,
        ws_char_spec(s, ws_end(s, i)) is None,
    decreases s.len() - i,
{
    lemma_ws_char(s, i);
    if let Some(j) = ws_char_spec(s, i) {
        lemma_ws_end(s, j);
    }
}

/// At least one whitespace character: where the whitespace ends
pub open spec fn ws1_spec(s: Seq<char>, i: int) -> Option<int> {
    if ws_char_spec(s, i) is Some {
        Some(ws_end(s, i))
    } else {
        None
    }
}

/// The end of a statement: whitespace, then at least one `!`
pub open spec fn end_of_statement_spec(s: Seq<char>, i: int) -> Option<int> {
    let j = ws_end(s, i);
    if 0 <= j < s.len() && s[j] == '!' {
        Some(scan(s, j, CharClass::Bang))
    } else {
        None
    }
}

/// One whitespace character and a line comment that follows it
pub fn ws_char_at(s: &[char], i: usize) -> (r: Option<usize>)
    requires
        i <= s@.len(),
    ensures
        r matches Some(j) ==> ws_char_spec(s@, i as int) == Some(j as int),
        r is None ==> ws_char_spec(s@, i as int) is None,
        r matches Some(j) ==> i < j <= s@.len(),
{
    proof {
        lemma_ws_char(s@, i as int);
    }
    if i < s.len() && is_ws(s[i]) {
        let j = i + 1;
        if j < s.len() && s.len() - j > 1 && s[j] == '/' && s[j + 1] == '/' {
            Some(scan_exec(s, j + 2, CharClass::NotNewline))
        } else {
            Some(j)
        }
    } else {
        None
    }
}

/// Any amount of whitespace
/// # Returns
/// - where it ends and how many whitespace characters it holds
pub fn ws_count(s: &[char], i: usize) -> (r: (usize, usize))
    requires
        i <= s@.len(),
    ensures
        r.0 == ws_end(s@, i as int),
        r.1 == ws_count_spec(s@, i as int),
        i <= r.0 <= s@.len(),
{
    proof {
        lemma_ws_end(s@, i as int);
    }
    let mut j = i;
    let mut count: usize = 0;
    loop
        invariant
            i <= j <= s@.len(),
            ws_end(s@, i as int) == ws_end(s@, j as int),
            ws_count_spec(s@, i as int) == count + ws_count_spec(s@, j as int),
            count <= j - i,
        decreases s@.len() - j,
    {
        match ws_char_at(s, j) {
            Some(k) => {
                j = k;
                count = count + 1;
            },
            None => {
                return (j, count);
            },
        }
    }
}

/// Any amount of whitespace: where it ends
pub fn ws(s: &[char], i: usize) -> (r: usize)
    requires
        i <= s@.len(),
    ensures
        r == ws_end(s@, i as int),
        i <= r <= s@.len(),
{
    ws_count(s, i).0
}

/// At least one whitespace character: where the whitespace ends
pub fn ws1(s: &[char], i: usize) -> (r: Option<usize>)
    requires
        i <= s@.len(),
    ensures
        r matches Some(j) ==> ws1_spec(s@, i as int) == Some(j as int) && i < j <= s@.len(),
        r is None ==> ws1_spec(s@, i as int) is None,
{
    match ws_char_at(s, i) {
        Some(_) => {
            proof {
                lemma_ws_end(s@, i as int);
                lemma_ws_char(s@, i as int);
                let j = ws_char_spec(s@, i as int)->0;
                lemma_ws_end(s@, j);
            }
            Some(ws(s, i))
        },
        None => None,
    }
}

/// Parses a line comment starting at `i`: `//` and everything up to the newline
pub fn comment_line(s: &[char], i: usize) -> (r: Option<usize>)
    requires
        i <= s@.len(),
    ensures
        r matches Some(j) ==> comment_end(s@, i as int) == j && i < j <= s@.len(),
        r is None ==> comment_end(s@, i as int) == i,
{
    if i < s.len() && s.len() - i > 1 && s[i] == '/' && s[i + 1] == '/' {
        proof {
            lemma_scan(s@, i + 2, CharClass::NotNewline);
        }
        Some(scan_exec(s, i + 2, CharClass::NotNewline))
    } else {
        None
    }
}

/// Takes a chunk of code until the next whitespace
pub fn chunk(s: &[char], i: usize) -> (r: usize)
    requires
        i <= s@.len(),
    ensures
        r == scan(s@, i as int, CharClass::NotWs),
        i <= r <= s@.len(),
{
    scan_exec(s, i, CharClass::NotWs)
}

/// Takes a chunk of code until the next whitespace or `!`
pub fn terminated_chunk(s: &[char], i: usize) -> (r: usize)
    requires
        i <= s@.len(),
    ensures
        r == scan(s@, i as int, CharClass::NotWsNorBang),
        i <= r <= s@.len(),
{
    scan_exec(s, i, CharClass::NotWsNorBang)
}

/// The end of a statement including the whitespace before it
pub fn end_of_statement(s: &[char], i: usize) -> (r: Option<usize>)
    requires
        i <= s@.len(),
    ensures
        r matches Some(j) ==> end_of_statement_spec(s@, i as int) == Some(j as int),
        r is None ==> end_of_statement_spec(s@, i as int) is None,
        r matches Some(j) ==> i < j <= s@.len(),
{
    let (j, _) = ws_count(s, i);
    if j < s.len() && s[j] == '!' {
        proof {
            lemma_scan(s@, j as int, CharClass::Bang);
        }
        Some(scan_exec(s, j, CharClass::Bang))
    } else {
        None
    }
}


/// Is `c` the letter `l` in either case? (`l` is a lower case ASCII letter)
pub open spec fn no_case_eq(c: char, l: char) -> bool {
    c == l || (c as u32) + 32 == (l as u32)
}

/// Does `s` hold the lower case ASCII word `w` (in any case) from `j` on?
pub open spec fn has_tag_no_case(s: Seq<char>, j: int, w: Seq<char>) -> bool {
    0 <= j && j + w.len() <= s.len() && forall|m: int| 0 <= m < w.len() ==> no_case_eq(#[trigger] s[j + m], w[m])
}

pub open spec fn is_digit(c: char) -> bool {
    '0' <= c && c <= '9'
}

pub open spec fn is_sign(c: char) -> bool {
    c == '+' || c == '-'
}

/// The digits and the optional fraction of a decimal number starting at `k`
pub open spec fn float_mantissa(s: Seq<char>, k: int) -> Option<int> {
    if 0 <= k < s.len() && is_digit(s[k]) {
        let d = scan(s, k, CharClass::AsciiDigit);
        if d < s.len() && s[d] == '.' {
            Some(scan(s, d + 1, CharClass::AsciiDigit))
        } else {
            Some(d)
        }
    } else if 0 <= k && k + 1 < s.len() && s[k] == '.' && is_digit(s[k + 1]) {
        Some(scan(s, k + 1, CharClass::AsciiDigit))
    } else {
        None
    }
}

/// The optional exponent of a decimal number starting at `m`; a marker `e` or `E`
/// without digits after it commits to a failure.
pub open spec fn float_exponent(s: Seq<char>, m: int) -> SpecStep {
    if 0 <= m < s.len() && (s[m] == 'e' || s[m] == 'E') {
        let e1 = m + 1;
        let e2 = if e1 < s.len() && is_sign(s[e1]) {
            e1 + 1
        } else {
            e1
        };
        if e2 < s.len() && is_digit(s[e2]) {
            SpecStep::Done(scan(s, e2, CharClass::AsciiDigit))
        } else {
            SpecStep::Failure
        }
    } else {
        SpecStep::Done(m)
    }
}

/// A floating point number in text format: an optional sign, digits with an
/// optional fraction (or a fraction alone) and an optional exponent; failing that,
/// the words `nan` or `inf` in any case.
pub open spec fn float_spec(s: Seq<char>, j: int) -> SpecStep {
    let k0 = if 0 <= j < s.len() && is_sign(s[j]) {
        j + 1
    } else {
        j
    };
    let recognized = match float_mantissa(s, k0) {
        None => SpecStep::Error,
        Some(m) => float_exponent(s, m),
    };
    match recognized {
        SpecStep::Error => if has_tag_no_case(s, j, seq!['n', 'a', 'n']) || has_tag_no_case(
            s,
            j,
            seq!['i', 'n', 'f'],
        ) {
            SpecStep::Done(j + 3)
        } else {
            SpecStep::Error
        },
        other => other,
    }
}

pub proof fn lemma_float(s: Seq<char>, j: int)
    requires
        0 <= j <= s.len(),
    ensures
        float_spec(s, j) matches SpecStep::Done(k) ==> j < k <= s.len(),
        float_spec(s, j) is Done || float_spec(s, j) is Error || float_spec(s, j) is Failure,
{
    let k0 = if 0 <= j < s.len() && is_sign(s[j]) {
        j + 1
    } else {
        j
    };
    if 0 <= k0 < s.len() && is_digit(s[k0]) {
        lemma_scan(s, k0, CharClass::AsciiDigit);
        let d = scan(s, k0, CharClass::AsciiDigit);
        if d < s.len() && s[d] == '.' {
            lemma_scan(s, d + 1, CharClass::AsciiDigit);
        }
    } else if 0 <= k0 && k0 + 1 < s.len() && s[k0] == '.' && is_digit(s[k0 + 1]) {
        lemma_scan(s, k0 + 1, CharClass::AsciiDigit);
    }
    if let Some(m) = float_mantissa(s, k0) {
        if 0 <= m < s.len() && (s[m] == 'e' || s[m] == 'E') {
            let e1 = m + 1;
            let e2 = if e1 < s.len() && is_sign(s[e1]) {
                e1 + 1
            } else {
                e1
            };
            if e2 < s.len() && is_digit(s[e2]) {
                lemma_scan(s, e2, CharClass::AsciiDigit);
            }
        }
    }
}

fn is_sign_exec(c: char) -> (r: bool)
    ensures
        r == is_sign(c),
{
    c == '+' || c == '-'
}

fn is_digit_exec(c: char) -> (r: bool)
    ensures
        r == is_digit(c),
{
    '0' <= c && c <= '9'
}

fn no_case_tag_at(s: &[char], j: usize, w0: char, w1: char, w2: char) -> (r: bool)
    requires
        j <= s@.len(),
        'a' <= w0 <= 'z',
        'a' <= w1 <= 'z',
        'a' <= w2 <= 'z',
    ensures
        r == has_tag_no_case(s@, j as int, seq![w0, w1, w2]),
{
    if s.len() - j < 3 {
        return false;
    }
    let r = no_case_char(s[j], w0) && no_case_char(s[j + 1], w1) && no_case_char(s[j + 2], w2);
    proof {
        let w = seq![w0, w1, w2];
        if r {
            assert forall|m: int| 0 <= m < w.len() implies no_case_eq(#[trigger] s@[j + m], w[m]) by {
                if m == 0 {
                } else if m == 1 {
                } else {
                }
            }
        } else {
            if !no_case_eq(s@[j as int], w0) {
                assert(!no_case_eq(s@[j + 0], w[0]));
            } else if !no_case_eq(s@[j + 1], w1) {
                assert(!no_case_eq(s@[j + 1], w[1]));
            } else {
                assert(!no_case_eq(s@[j + 2], w[2]));
            }
        }
    }
    r
}

fn no_case_char(c: char, l: char) -> (r: bool)
    requires
        'a' <= l <= 'z',
    ensures
        r == no_case_eq(c, l),
{
    c == l || (c as u32) + 32 == (l as u32)
}

/// Recognizes a floating point number in text format
pub fn float_at(s: &[char], j: usize) -> (r: Step)
    requires
        j <= s@.len(),
    ensures
        r@ == float_spec(s@, j as int),
        r matches Step::Done(k) ==> j < k <= s@.len(),
{
    proof {
        lemma_float(s@, j as int);
    }
    let n = s.len();
    let k0 = if j < n && is_sign_exec(s[j]) {
        j + 1
    } else {
        j
    };
    let mantissa: Option<usize> = if k0 < n && is_digit_exec(s[k0]) {
        let d = scan_exec(s, k0, CharClass::AsciiDigit);
        if d < n && s[d] == '.' {
            Some(scan_exec(s, d + 1, CharClass::AsciiDigit))
        } else {
            Some(d)
        }
    } else if k0 < n && n - k0 > 1 && s[k0] == '.' && is_digit_exec(s[k0 + 1]) {
        Some(scan_exec(s, k0 + 1, CharClass::AsciiDigit))
    } else {
        None
    };
    let recognized = match mantissa {
        None => Step::Error,
        Some(m) => {
            if m < n && (s[m] == 'e' || s[m] == 'E') {
                let e1 = m + 1;
                let e2 = if e1 < n && is_sign_exec(s[e1]) {
                    e1 + 1
                } else {
                    e1
                };
                if e2 < n && is_digit_exec(s[e2]) {
                    Step::Done(scan_exec(s, e2, CharClass::AsciiDigit))
                } else {
                    Step::Failure
                }
            } else {
                Step::Done(m)
            }
        },
    };
    match recognized {
        Step::Error => {
            if no_case_tag_at(s, j, 'n', 'a', 'n') || no_case_tag_at(s, j, 'i', 'n', 'f') {
                Step::Done(j + 3)
            } else {
                Step::Error
            }
        },
        other => other,
    }
}

/// The value of a run of decimal digits
pub open spec fn digits_value(d: Seq<char>) -> nat
    decreases d.len(),
{
    if d.len() == 0 {
        0
    } else {
        digits_value(d.drop_last()) * 10 + ((d.last() as int - 48) as nat)
    }
}

pub proof fn lemma_digits_value_mono(d: Seq<char>, m: int, n: int)
    requires
        0 <= m <= n <= d.len(),
    ensures
        digits_value(d.take(m)) <= digits_value(d.take(n)),
    decreases n - m,
{
    if m < n {
        lemma_digits_value_mono(d, m, n - 1);
        assert(d.take(n).drop_last() =~= d.take(n - 1));
    }
}

/// An integer: an optional `-` and at least one digit.
/// # Returns
/// - where it ends, whether it is negative and the value of its digits
pub open spec fn isize_spec(s: Seq<char>, j: int) -> Option<(int, bool, nat)> {
    let neg = 0 <= j < s.len() && s[j] == '-';
    let d0 = if neg {
        j + 1
    } else {
        j
    };
    if 0 <= d0 < s.len() && is_digit(s[d0]) {
        let e = scan(s, d0, CharClass::AsciiDigit);
        Some((e, neg, digits_value(s.subrange(d0, e))))
    } else {
        None
    }
}

/// The outcome of an integer parse.
#[derive(Debug, Clone, Copy, PartialEq, Eq)]
pub enum IntStep {
    Done(usize, isize),
    Error,
    Panic,
}

/// Parses an integer; the digits must fit in an `isize`
pub fn isize_at(s: &[char], j: usize) -> (r: IntStep)
    requires
        j <= s@.len(),
    ensures
        match isize_spec(s@, j as int) {
            None => r is Error,
            Some((e, neg, v)) => if v > isize::MAX {
                r is Panic
            } else {
                r matches IntStep::Done(k, x) && k == e && x == (if neg {
                    -(v as int)
                } else {
                    v as int
                })
            },
        },
        r matches IntStep::Done(k, _) ==> j < k <= s@.len(),
{
    let n = s.len();
    let neg = j < n && s[j] == '-';
    let d0 = if neg {
        j + 1
    } else {
        j
    };
    if !(d0 < n && is_digit_exec(s[d0])) {
        return IntStep::Error;
    }
    let e = scan_exec(s, d0, CharClass::AsciiDigit);
    proof {
        lemma_scan(s@, d0 as int, CharClass::AsciiDigit);
    }
    let ghost d = s@.subrange(d0 as int, e as int);
    assert(isize_spec(s@, j as int) == Some((e as int, neg, digits_value(d))));
    let mut v: isize = 0;
    let mut k = d0;
    while k < e
        invariant
            d0 <= k <= e <= s@.len(),
            n == s@.len(),
            d == s@.subrange(d0 as int, e as int),
            isize_spec(s@, j as int) == Some((e as int, neg, digits_value(d))),
            forall|m: int| d0 <= m < e ==> is_digit(#[trigger] s@[m]),
            0 <= v,
            v == digits_value(d.take(k - d0)),
        decreases e - k,
    {
        proof {
            assert(d.take(k - d0 + 1).drop_last() =~= d.take(k - d0));
            assert(d.take(k - d0 + 1).last() == s@[k as int]);
            assert(is_digit(s@[k as int]));
        }
        let digit = (s[k] as u32 - 48) as isize;
        let next = match v.checked_mul(10) {
            Some(t) => t.checked_add(digit),
            None => None,
        };
        assert(next is None ==> v * 10 + digit > isize::MAX);
        match next {
            Some(t) => {
                v = t;
            },
            None => {
                proof {
                    assert(digits_value(d.take(k - d0 + 1)) == digits_value(d.take(k - d0)) * 10 + ((s@[k as int] as int - 48) as nat));
                    assert(digits_value(d.take(k - d0 + 1)) == v * 10 + digit);
                    lemma_digits_value_mono(d, k - d0 + 1, d.len() as int);
                    assert(d.take(d.len() as int) =~= d);
                    assert(digits_value(d) > isize::MAX);
                }
                return IntStep::Panic;
            },
        }
        k = k + 1;
    }
    proof {
        assert(d.take(e - d0) =~= d);
    }
    if neg {
        IntStep::Done(e, -v)
    } else {
        IntStep::Done(e, v)
    }
}

/// Tries to parse an `isize` from the input: an optional `-` and at least one digit
/// # Note
/// - Digits that run to the end of the input move the column but not the index
pub fn parse_isize(input: &types::Position) -> (r: Option<(types::Position, isize)>)
    requires
        input.wf(),
        isize_spec(input.input@, 0) matches Some((_, _, v)) ==> v <= isize::MAX,
    ensures
        match isize_spec(input.input@, 0) {
            None => r is None,
            Some((e, neg, v)) => r matches Some((rest, x)) && rest.wf() && rest.input@
                == input.input@.skip(e) && rest.line == input.line + types::nl_count(
                input.input@.take(e),
            ) && rest.column == types::column_after(input.column as int, input.input@.take(e))
                && rest.index == input.index + types::byte_len(
                input.input@.take(
                    if e == input.input@.len() {
                        if neg {
                            1
                        } else {
                            0
                        }
                    } else {
                        e
                    },
                ),
            ) && x == (if neg {
                -(v as int)
            } else {
                v as int
            }),
        },
{
    let s = input.input.as_slice();
    match isize_at(s, 0) {
        IntStep::Done(k, x) => {
            let moved = input.advance(k);
            if k == s.len() {
                let d0: usize = if s[0] == '-' {
                    1
                } else {
                    0
                };
                let head = input.advance(d0);
                proof {
                    assert(input.input@.take(d0 as int) + input.input@.skip(d0 as int).take(k - d0) =~= input.input@.take(k as int));
                    types::lemma_byte_len_append(input.input@.take(d0 as int), input.input@.skip(d0 as int).take(k - d0));
                }
                Some((types::Position::from_parts(moved.line, moved.column, head.index, moved.input), x))
            } else {
                Some((moved, x))
            }
        },
        _ => None,
    }
}

/// The life time of a variable: `<Infinity>`, `<10.5s>` or `<-5>`
#[derive(Debug, Clone, PartialEq)]
pub enum LifeTime {
    Infinity,
    /// A number of seconds, as the decimal text it was written with
    Seconds(String),
    Lines(isize),
}

pub enum LifeTimeSpec {
    Infinity,
    Seconds(Seq<char>),
    Lines(int),
}

impl View for LifeTime {
    type V = LifeTimeSpec;

    open spec fn view(&self) -> LifeTimeSpec {
        match self {
            LifeTime::Infinity => LifeTimeSpec::Infinity,
            LifeTime::Seconds(t) => LifeTimeSpec::Seconds(t@),
            LifeTime::Lines(l) => LifeTimeSpec::Lines(*l as int),
        }
    }
}

pub enum SpecLtStep {
    Done(int, LifeTimeSpec),
    Error,
    Failure,
    Panic,
}

/// The outcome of a life time parse.
#[derive(Debug, Clone, PartialEq)]
pub enum LtStep {
    Done(usize, LifeTime),
    Error,
    Failure,
    Panic,
}

impl View for LtStep {
    type V = SpecLtStep;

    open spec fn view(&self) -> SpecLtStep {
        match self {
            LtStep::Done(k, lt) => SpecLtStep::Done(*k as int, lt@),
            LtStep::Error => SpecLtStep::Error,
            LtStep::Failure => SpecLtStep::Failure,
            LtStep::Panic => SpecLtStep::Panic,
        }
    }
}

pub open spec fn infinity_word() -> Seq<char> {
    seq!['I', 'n', 'f', 'i', 'n', 'i', 't', 'y']
}

/// The body of a life time after `<`: `Infinity`, a non negative number of seconds
/// followed by `s`, or an integer number of lines
pub open spec fn lifetime_body_spec(s: Seq<char>, j: int) -> SpecLtStep {
    if has_tag(s, j, infinity_word()) {
        SpecLtStep::Done(j + 8, LifeTimeSpec::Infinity)
    } else {
        let lines = match isize_spec(s, j) {
            None => SpecLtStep::Error,
            Some((e, neg, v)) => if v > isize::MAX {
                SpecLtStep::Panic
            } else {
                SpecLtStep::Done(
                    e,
                    LifeTimeSpec::Lines(
                        if neg {
                            -(v as int)
                        } else {
                            v as int
                        },
                    ),
                )
            },
        };
        match float_spec(s, j) {
            SpecStep::Failure => SpecLtStep::Failure,
            SpecStep::Done(k) => if k < s.len() && s[k] == 's' && s[j] != '-' {
                SpecLtStep::Done(k + 1, LifeTimeSpec::Seconds(s.subrange(j, k)))
            } else {
                lines
            },
            _ => lines,
        }
    }
}

/// A life time: `<`, its body, `>`
pub open spec fn lifetime_spec(s: Seq<char>, i: int) -> SpecLtStep {
    if 0 <= i < s.len() && s[i] == '<' {
        match lifetime_body_spec(s, i + 1) {
            SpecLtStep::Done(k, lt) => if 0 <= k < s.len() && s[k] == '>' {
                SpecLtStep::Done(k + 1, lt)
            } else {
                SpecLtStep::Error
            },
            other => other,
        }
    } else {
        SpecLtStep::Error
    }
}

/// Parses a life time
pub fn lifetime_at(s: &[char], i: usize) -> (r: LtStep)
    requires
        i <= s@.len(),
    ensures
        r@ == lifetime_spec(s@, i as int),
        r matches LtStep::Done(k, _) ==> i < k <= s@.len(),
{
    let n = s.len();
    if !(i < n && s[i] == '<') {
        return LtStep::Error;
    }
    let j = i + 1;
    let body = if tag_at(s, j, "Infinity") {
        proof {
            reveal_strlit("Infinity");
            assert("Infinity"@ =~= infinity_word());
        }
        LtStep::Done(j + 8, LifeTime::Infinity)
    } else {
        proof {
            reveal_strlit("Infinity");
            assert("Infinity"@ =~= infinity_word());
        }
        let float = float_at(s, j);
        let seconds = match float {
            Step::Done(k) => {
                if k < n && s[k] == 's' && s[j] != '-' {
                    let text = slice_to_vec(s, j, k);
                    Some(LtStep::Done(k + 1, LifeTime::Seconds(chars_to_string(text.as_slice()))))
                } else {
                    None
                }
            },
            Step::Failure => Some(LtStep::Failure),
            _ => None,
        };
        match seconds {
            Some(r) => r,
            None => match isize_at(s, j) {
                IntStep::Done(e, x) => LtStep::Done(e, LifeTime::Lines(x)),
                IntStep::Error => LtStep::Error,
                IntStep::Panic => LtStep::Panic,
            },
        }
    };
    match body {
        LtStep::Done(k, lt) => {
            if k < n && s[k] == '>' {
                LtStep::Done(k + 1, lt)
            } else {
                LtStep::Error
            }
        },
        other => other,
    }
}


/// What ends an identifier besides whitespace.
#[derive(Debug, Clone, Copy, PartialEq, Eq)]
pub enum Terminator {
    /// The given character
    Char(char),
    /// A life time such as `<5>`
    LifeTime,
    /// The arrow `=>`
    Arrow,
    /// A life time, or else an assignment operator such as `+=`
    LifeTimeOrAssign,
    /// Nothing but whitespace
    Never,
}

/// Does the terminator match at `j`? `None` when trying it aborts.
pub open spec fn term_check(s: Seq<char>, j: int, t: Terminator) -> Option<bool> {
    match t {
        Terminator::Char(c) => Some(s[j] == c),
        Terminator::LifeTime => match lifetime_spec(s, j) {
            SpecLtStep::Done(_, _) => Some(true),
            SpecLtStep::Panic => None,
            _ => Some(false),
        },
        Terminator::Arrow => Some(s[j] == '=' && j + 1 < s.len() && s[j + 1] == '>'),
        Terminator::LifeTimeOrAssign => match lifetime_spec(s, j) {
            SpecLtStep::Done(_, _) => Some(true),
            SpecLtStep::Panic => None,
            SpecLtStep::Failure => Some(false),
            SpecLtStep::Error => Some(
                crate::interpreter::evaluators::variable::var_set_op_spec(s, j) is Some,
            ),
        },
        Terminator::Never => Some(false),
    }
}

/// Where an identifier that runs from `j` on stops: at the end of the input, at a
/// whitespace character or where the terminator matches. `None` when a terminator
/// check aborts.
pub open spec fn ident_scan(s: Seq<char>, j: int, t: Terminator) -> Option<int>
    decreases s.len() - j,
{
    if j < 0 || j >= s.len() {
        Some(j)
    } else if spec_is_ws(s[j]) {
        Some(j)
    } else {
        match term_check(s, j, t) {
            None => None,
            Some(true) => Some(j),
            Some(false) => ident_scan(s, j + 1, t),
        }
    }
}

/// An identifier: at least one character up to whitespace or the terminator
pub open spec fn identifier_spec(s: Seq<char>, i: int, t: Terminator) -> SpecStep {
    match ident_scan(s, i, t) {
        None => SpecStep::Panic,
        Some(j) => if j == i {
            SpecStep::Error
        } else {
            SpecStep::Done(j)
        },
    }
}

pub proof fn lemma_ident_scan(s: Seq<char>, j: int, t: Terminator)
    requires
        0 <= j <= s.len(),
    ensures
        ident_scan(s, j, t) matches Some(k) ==> j <= k <= s.len(),
    decreases s.len() - j,
{
    if j < s.len() && !spec_is_ws(s[j]) {
        if term_check(s, j, t) == Some(false) {
            lemma_ident_scan(s, j + 1, t);
        }
    }
}

fn term_check_exec(s: &[char], j: usize, t: Terminator) -> (r: Option<bool>)
    requires
        j < s@.len(),
    ensures
        r == term_check(s@, j as int, t),
{
    match t {
        Terminator::Char(c) => Some(s[j] == c),
        Terminator::LifeTime => match lifetime_at(s, j) {
            LtStep::Done(_, _) => Some(true),
            LtStep::Panic => None,
            _ => Some(false),
        },
        Terminator::Arrow => Some(s[j] == '=' && s.len() - j > 1 && s[j + 1] == '>'),
        Terminator::LifeTimeOrAssign => match lifetime_at(s, j) {
            LtStep::Done(_, _) => Some(true),
            LtStep::Panic => None,
            LtStep::Failure => Some(false),
            LtStep::Error => Some(
                crate::interpreter::evaluators::variable::VarSetOp::parse(s, j).is_some(),
            ),
        },
        Terminator::Never => Some(false),
    }
}

/// Gets the identifier that starts at `i`
pub fn identifier_at(s: &[char], i: usize, t: Terminator) -> (r: Step)
    requires
        i <= s@.len(),
    ensures
        r@ == identifier_spec(s@, i as int, t),
        r matches Step::Done(k) ==> i < k <= s@.len(),
{
    proof {
        lemma_ident_scan(s@, i as int, t);
    }
    let mut j = i;
    loop
        invariant
            i <= j <= s@.len(),
            ident_scan(s@, i as int, t) == ident_scan(s@, j as int, t),
        ensures
            i <= j <= s@.len(),
            ident_scan(s@, i as int, t) == Some(j as int),
        decreases s@.len() - j,
    {
        if j >= s.len() || is_ws(s[j]) {
            break;
        }
        match term_check_exec(s, j, t) {
            None => {
                return Step::Panic;
            },
            Some(true) => {
                break;
            },
            Some(false) => {
                j = j + 1;
            },
        }
    }
    if j == i {
        Step::Error
    } else {
        Step::Done(j)
    }
}

/// Why a parser did not produce a result.
#[derive(Debug, Clone, Copy, PartialEq, Eq)]
pub enum ParseError {
    /// The parser did not match
    Error,
    /// The parser matched partly and committed to a failure
    Failure,
}

/// Tries to parse a single whitespace character
/// # Note
/// - It also handles a line comment right after it
/// - A comment that runs to the end of the input moves the line and column
///   but not the index past its text
pub fn ws_char(input: &types::Position) -> (r: Option<types::Position>)
    requires
        input.wf(),
    ensures
        match ws_char_spec(input.input@, 0) {
            None => r is None,
            Some(j) => r matches Some(rest) && rest.wf() && rest.input@ == input.input@.skip(j)
                && rest.line == input.line + types::nl_count(input.input@.take(j))
                && rest.column == types::column_after(input.column as int, input.input@.take(j))
                && rest.index == input.index + types::byte_len(input.input@.take(
                if comment_runs_to_end(input.input@) {
                    3
                } else {
                    j
                },
            )),
        },
{
    let s = input.input.as_slice();
    match ws_char_at(s, 0) {
        None => None,
        Some(j) => {
            let moved = input.advance(j);
            if s.len() > 3 && j == s.len() && s[1] == '/' && s[2] == '/' {
                let head = input.advance(3);
                proof {
                    assert(input.input@.take(3) + input.input@.skip(3).take(j - 3) =~= input.input@.take(j as int));
                    types::lemma_byte_len_append(input.input@.take(3), input.input@.skip(3).take(j - 3));
                    types::lemma_counts_bounded(input.input@.skip(3));
                }
                assert(comment_runs_to_end(input.input@));
                Some(types::Position::from_parts(moved.line, moved.column, head.index, moved.input))
            } else {
                assert(!comment_runs_to_end(input.input@));
                Some(moved)
            }
        },
    }
}

/// Does the input start with a whitespace character and a line comment that
/// has text and runs to the end of the input?
pub open spec fn comment_runs_to_end(s: Seq<char>) -> bool {
    s.len() > 3 && spec_is_ws(s[0]) && s[1] == '/' && s[2] == '/' && scan(
        s,
        3,
        CharClass::NotNewline,
    ) == s.len()
}

/// Gets the identifier
/// # Arguments
/// - `terminator`: What terminates the identifier besides whitespace
///
/// # Returns
/// - `(rest, identifier)`
pub fn identifier(terminator: Terminator, input: &types::Position) -> (r: Result<
    (types::Position, types::Position),
    ParseError,
>)
    requires
        input.wf(),
        identifier_spec(input.input@, 0, terminator) != SpecStep::Panic,
    ensures
        match identifier_spec(input.input@, 0, terminator) {
            SpecStep::Done(k) => r matches Ok((rest, ident)) && input.advanced_by(k, rest)
                && input.truncated_to(k, ident) && rest.wf() && ident.wf(),
            _ => r == Err::<(types::Position, types::Position), ParseError>(ParseError::Error),
        },
{
    match identifier_at(input.input.as_slice(), 0, terminator) {
        Step::Done(k) => Ok(input.take_split(k)),
        _ => Err(ParseError::Error),
    }
}

impl LifeTime {
    /// Parses a life time: `<Infinity>`, `<10.5s>` or `<-5>`
    pub fn parse(input: &types::Position) -> (r: Result<(types::Position, LifeTime), ParseError>)
        requires
            input.wf(),
            lifetime_spec(input.input@, 0) != SpecLtStep::Panic,
        ensures
            match lifetime_spec(input.input@, 0) {
                SpecLtStep::Done(k, lt) => r matches Ok((rest, v)) && input.advanced_by(k, rest) && rest.wf()
                    && v@ == lt,
                SpecLtStep::Failure => r == Err::<(types::Position, LifeTime), ParseError>(
                    ParseError::Failure,
                ),
                _ => r == Err::<(types::Position, LifeTime), ParseError>(ParseError::Error),
            },
    {
        match lifetime_at(input.input.as_slice(), 0) {
            LtStep::Done(k, lt) => Ok((input.advance(k), lt)),
            LtStep::Failure => Err(ParseError::Failure),
            _ => Err(ParseError::Error),
        }
    }
}

} // verus!
