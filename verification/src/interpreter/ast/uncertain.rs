//! Contains structures that are uncertain until runtime
use vstd::prelude::*;
use crate::interpreter::parsers::types::{chars_to_string, str_chars};

verus! {

/// Either a variable, or a value, or a function call
#[derive(Debug, Clone)]
pub struct UncertainExpr {
    pub identifier: String,
}

impl UncertainExpr {
    /// An expression decided at runtime from its text.
    pub fn new(identifier: String) -> (r: Self)
        ensures
            r.identifier@ == identifier@,
    {
        UncertainExpr { identifier }
    }

    /// The text of the expression as a string value: quotes stripped, escapes replaced.
    pub fn as_string(&self) -> (r: String)
        ensures
            r@ == proper_string_spec(self.identifier@),
    {
        raw_string_to_proper(self.identifier.as_str())
    }
}

/// Either a variable, or a string, or a function call
#[derive(Debug, Clone)]
pub struct UncertainString {
    pub value: String,
}

impl UncertainString {
    /// A string decided at runtime from its text.
    pub fn new(value: String) -> (r: Self)
        ensures
            r.value@ == value@,
    {
        UncertainString { value }
    }

    /// The text as a string value: quotes stripped, escapes replaced.
    pub fn as_string(&self) -> (r: String)
        ensures
            r@ == proper_string_spec(self.value@),
    {
        raw_string_to_proper(self.value.as_str())
    }
}

/// Characters with the Unicode `White_Space` property.
pub open spec fn is_white_space(c: char) -> bool {
    let u = c as u32;
    ||| 0x9 <= u <= 0xD
    ||| u == 0x20
    ||| u == 0x85
    ||| u == 0xA0
    ||| u == 0x1680
    ||| 0x2000 <= u <= 0x200A
    ||| u == 0x2028
    ||| u == 0x2029
    ||| u == 0x202F
    ||| u == 0x205F
    ||| u == 0x3000
}

/// Whether a character has the Unicode `White_Space` property.
pub fn is_white_space_exec(c: char) -> (r: bool)
    ensures
        r == is_white_space(c),
{
    let u = c as u32;
    (0x9 <= u && u <= 0xD) || u == 0x20 || u == 0x85 || u == 0xA0 || u == 0x1680 || (0x2000 <= u
        && u <= 0x200A) || u == 0x2028 || u == 0x2029 || u == 0x202F || u == 0x205F || u == 0x3000
}

/// The position of the first character that is not white space, from `i` on.
pub open spec fn trim_start_at(s: Seq<char>, i: int) -> int
    decreases s.len() - i,
{
    if 0 <= i < s.len() && is_white_space(s[i]) {
        trim_start_at(s, i + 1)
    } else {
        i
    }
}

/// The end of the text once the white space before `j` is removed, but not before `lo`.
pub open spec fn trim_end_at(s: Seq<char>, lo: int, j: int) -> int
    decreases j - lo,
{
    if lo < j && j <= s.len() && is_white_space(s[j - 1]) {
        trim_end_at(s, lo, j - 1)
    } else {
        j
    }
}

/// The text without its leading and trailing white space.
pub open spec fn trim_spec(s: Seq<char>) -> Seq<char> {
    let a = trim_start_at(s, 0);
    s.subrange(a, trim_end_at(s, a, s.len() as int))
}

/// The text without the pairs of equal quotes (`"` or `'`) that enclose it.
pub open spec fn strip_quotes(s: Seq<char>) -> Seq<char>
    decreases s.len(),
{
    if s.len() >= 2 && s[0] == s[s.len() - 1] && (s[0] == '"' || s[0] == '\'') {
        strip_quotes(s.subrange(1, s.len() - 1))
    } else {
        s
    }
}

/// Every occurrence of the two characters `a`, `b` replaced by `to`, from left to right.
pub open spec fn replace_pair(s: Seq<char>, a: char, b: char, to: char) -> Seq<char>
    decreases s.len(),
{
    if s.len() == 0 {
        s
    } else if s.len() >= 2 && s[0] == a && s[1] == b {
        seq![to] + replace_pair(s.skip(2), a, b, to)
    } else {
        seq![s[0]] + replace_pair(s.skip(1), a, b, to)
    }
}

/// The escapes `\"`, `\'`, `\\` and `\n` replaced, one after the other.
pub open spec fn unescape_spec(s: Seq<char>) -> Seq<char> {
    replace_pair(
        replace_pair(replace_pair(replace_pair(s, '\\', '"', '"'), '\\', '\'', '\''), '\\', '\\', '\\'),
        '\\',
        'n',
        '\n',
    )
}

/// The string value of a raw text: trimmed, stripped of enclosing quotes, unescaped.
pub open spec fn proper_string_spec(s: Seq<char>) -> Seq<char> {
    unescape_spec(strip_quotes(trim_spec(s)))
}

/// Every occurrence of the two characters `a`, `b` replaced by `to`.
pub fn replace_pair_exec(s: &[char], a: char, b: char, to: char) -> (r: Vec<char>)
    ensures
        r@ == replace_pair(s@, a, b, to),
{
    let n = s.len();
    let mut out: Vec<char> = Vec::new();
    let mut i: usize = 0;
    assert(s@.skip(0) =~= s@);
    while i < n
        invariant
            n == s@.len(),
            i <= n,
            replace_pair(s@, a, b, to) == out@ + replace_pair(s@.skip(i as int), a, b, to),
        decreases n - i,
    {
        let ghost rest = s@.skip(i as int);
        if n - i >= 2 && s[i] == a && s[i + 1] == b {
            assert(rest.skip(2) =~= s@.skip(i + 2));
            assert(out@ + (seq![to] + replace_pair(rest.skip(2), a, b, to)) =~= out@.push(to)
                + replace_pair(s@.skip(i + 2), a, b, to));
            out.push(to);
            i = i + 2;
        } else {
            assert(rest.skip(1) =~= s@.skip(i + 1));
            assert(out@ + (seq![s@[i as int]] + replace_pair(rest.skip(1), a, b, to)) =~= out@.push(
                s@[i as int],
            ) + replace_pair(s@.skip(i + 1), a, b, to));
            out.push(s[i]);
            i = i + 1;
        }
    }
    assert(s@.skip(n as int) =~= Seq::<char>::empty());
    assert(out@ + Seq::<char>::empty() =~= out@);
    out
}

/// Turns the raw text of a string into its value: the text is trimmed, pairs of
/// equal quotes (`"` or `'`) that enclose it are removed, and the escapes `\"`, `\'`,
/// `\\` and `\n` are replaced in that order.
pub fn raw_string_to_proper(value: &str) -> (r: String)
    ensures
        r@ == proper_string_spec(value@),
{
    let cs = str_chars(value);
    let n = cs.len();
    let mut a: usize = 0;
    while a < n && is_white_space_exec(cs[a])
        invariant
            n == cs@.len(),
            cs@ == value@,
            a <= n,
            trim_start_at(value@, 0) == trim_start_at(value@, a as int),
        decreases n - a,
    {
        a = a + 1;
    }
    let mut b: usize = n;
    while b > a && is_white_space_exec(cs[b - 1])
        invariant
            n == cs@.len(),
            cs@ == value@,
            a <= b <= n,
            trim_end_at(value@, a as int, n as int) == trim_end_at(value@, a as int, b as int),
        decreases b - a,
    {
        b = b - 1;
    }
    assert(trim_spec(value@) == value@.subrange(a as int, b as int));
    let mut lo: usize = a;
    let mut hi: usize = b;
    while hi - lo >= 2 && cs[lo] == cs[hi - 1] && (cs[lo] == '"' || cs[lo] == '\'')
        invariant
            n == cs@.len(),
            cs@ == value@,
            lo <= hi <= n,
            strip_quotes(trim_spec(value@)) == strip_quotes(value@.subrange(lo as int, hi as int)),
        decreases hi - lo,
    {
        assert(value@.subrange(lo as int, hi as int).subrange(1, hi - lo - 1) =~= value@.subrange(
            lo + 1,
            hi - 1,
        ));
        lo = lo + 1;
        hi = hi - 1;
    }
    let mut inner: Vec<char> = Vec::new();
    let mut k: usize = lo;
    while k < hi
        invariant
            n == cs@.len(),
            cs@ == value@,
            lo <= k <= hi <= n,
            inner@ == value@.subrange(lo as int, k as int),
        decreases hi - k,
    {
        inner.push(cs[k]);
        k = k + 1;
        assert(inner@ =~= value@.subrange(lo as int, k as int));
    }
    assert(strip_quotes(value@.subrange(lo as int, hi as int)) == value@.subrange(lo as int, hi as int));
    let s1 = replace_pair_exec(inner.as_slice(), '\\', '"', '"');
    let s2 = replace_pair_exec(s1.as_slice(), '\\', '\'', '\'');
    let s3 = replace_pair_exec(s2.as_slice(), '\\', '\\', '\\');
    let s4 = replace_pair_exec(s3.as_slice(), '\\', 'n', '\n');
    chars_to_string(s4.as_slice())
}

} // verus!
