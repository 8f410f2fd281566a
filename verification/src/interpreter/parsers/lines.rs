//! The lines of a program text, and where a program goes on after `reverse`.
//!
//! Lines end at `\n`; a `\r` right before the `\n` belongs to the line ending, and a
//! final line ending is optional.
use vstd::prelude::*;
use crate::interpreter::parsers::{lemma_scan, scan, scan_exec, CharClass};
use crate::interpreter::parsers::types::{
    byte_len, char_width_exec, lemma_byte_len_append, lemma_counts_bounded, slice_to_vec, Position,
};

verus! {

/// Where the first line of `s` ends: at its first `\n`, or at the end of `s`.
pub open spec fn first_line_end(s: Seq<char>) -> int {
    scan(s, 0, CharClass::NotChar('\n'))
}

/// The first line of `s`, without its line ending; `k` is where it ends.
pub open spec fn line_at(s: Seq<char>, k: int) -> Seq<char> {
    if 0 < k <= s.len() && s[k - 1] == '\r' {
        s.subrange(0, k - 1)
    } else {
        s.subrange(0, k)
    }
}

/// The number of lines of `s`.
pub open spec fn line_count_spec(s: Seq<char>) -> nat
    decreases s.len(),
{
    let k = first_line_end(s);
    if s.len() == 0 {
        0
    } else if 0 <= k < s.len() {
        1 + line_count_spec(s.subrange(k + 1, s.len() as int))
    } else {
        1
    }
}

/// The lines of `s` from the last to the first, joined with nothing between them.
pub open spec fn reversed_lines_spec(s: Seq<char>) -> Seq<char>
    decreases s.len(),
{
    let k = first_line_end(s);
    if s.len() == 0 {
        Seq::empty()
    } else if 0 <= k < s.len() {
        reversed_lines_spec(s.subrange(k + 1, s.len() as int)) + line_at(s, k)
    } else {
        s
    }
}

pub proof fn lemma_reversed_lines_bounded(s: Seq<char>)
    ensures
        reversed_lines_spec(s).len() <= s.len(),
        byte_len(reversed_lines_spec(s)) <= byte_len(s),
        line_count_spec(s) <= s.len(),
    decreases s.len(),
{
    let k = first_line_end(s);
    lemma_scan(s, 0, CharClass::NotChar('\n'));
    if s.len() > 0 && 0 <= k < s.len() {
        let rest = s.subrange(k + 1, s.len() as int);
        lemma_reversed_lines_bounded(rest);
        lemma_byte_len_append(reversed_lines_spec(rest), line_at(s, k));
        lemma_byte_len_append(s.subrange(0, k), s.subrange(k, s.len() as int));
        assert(s.subrange(0, k) + s.subrange(k, s.len() as int) =~= s);
        lemma_byte_len_append(s.subrange(k, k + 1), rest);
        assert(s.subrange(k, k + 1) + rest =~= s.subrange(k, s.len() as int));
        if 0 < k && s[k - 1] == '\r' {
            lemma_byte_len_append(s.subrange(0, k - 1), s.subrange(k - 1, k));
            assert(s.subrange(0, k - 1) + s.subrange(k - 1, k) =~= s.subrange(0, k));
        }
    }
}

/// The characters of `a` followed by those of `b`.
fn concat(a: &[char], b: &[char]) -> (r: Vec<char>)
    ensures
        r@ == a@ + b@,
{
    let mut v = slice_to_vec(a, 0, a.len());
    let mut k: usize = 0;
    while k < b.len()
        invariant
            k <= b@.len(),
            v@ == a@ + b@.subrange(0, k as int),
        decreases b@.len() - k,
    {
        v.push(b[k]);
        proof {
            assert(v@ =~= a@ + b@.subrange(0, k + 1));
        }
        k = k + 1;
    }
    proof {
        assert(b@.subrange(0, b@.len() as int) =~= b@);
    }
    v
}

/// The lines of a program text from the last to the first, joined with nothing between
/// them, and how many lines there are.
pub fn reversed_lines(code: &[char]) -> (r: (Vec<char>, usize))
    ensures
        r.0@ == reversed_lines_spec(code@),
        r.1 == line_count_spec(code@),
{
    let n = code.len();
    let mut p: usize = 0;
    let mut out: Vec<char> = Vec::new();
    let mut count: usize = 0;
    proof {
        assert(code@.subrange(0, n as int) =~= code@);
        assert(reversed_lines_spec(code@) =~= reversed_lines_spec(code@) + out@);
    }
    loop
        invariant
            n == code@.len(),
            p <= n,
            reversed_lines_spec(code@) == reversed_lines_spec(code@.subrange(p as int, n as int)) + out@,
            line_count_spec(code@) == line_count_spec(code@.subrange(p as int, n as int)) + count,
            count <= p,
        decreases n - p,
    {
        let ghost rest = code@.subrange(p as int, n as int);
        if p == n {
            proof {
                assert(rest.len() == 0);
                assert(reversed_lines_spec(rest) =~= Seq::<char>::empty());
                assert(out@ =~= reversed_lines_spec(rest) + out@);
            }
            return (out, count);
        }
        let k = scan_exec(code, p, CharClass::NotChar('\n'));
        proof {
            lemma_scan(code@, p as int, CharClass::NotChar('\n'));
            lemma_scan(rest, 0, CharClass::NotChar('\n'));
            lemma_scan_shift(code@, p as int, p as int, CharClass::NotChar('\n'));
            assert(first_line_end(rest) == k - p);
        }
        if k == n {
            proof {
                assert(reversed_lines_spec(rest) == rest);
            }
            let line = slice_to_vec(code, p, n);
            return (concat(line.as_slice(), out.as_slice()), count + 1);
        }
        let end = if k > p && code[k - 1] == '\r' {
            k - 1
        } else {
            k
        };
        let line = slice_to_vec(code, p, end);
        proof {
            assert(line_at(rest, k - p) =~= line@);
            assert(rest.subrange(k - p + 1, rest.len() as int) =~= code@.subrange(k + 1, n as int));
            assert(reversed_lines_spec(rest) == reversed_lines_spec(code@.subrange(k + 1, n as int)) + line@);
        }
        out = concat(line.as_slice(), out.as_slice());
        proof {
            assert(reversed_lines_spec(code@) =~= reversed_lines_spec(code@.subrange(k + 1, n as int)) + out@);
        }
        count = count + 1;
        p = k + 1;
    }
}

/// A scan from `j` is the scan of the text after `p`, from `j - p`, shifted by `p`.
pub proof fn lemma_scan_shift(s: Seq<char>, p: int, j: int, cls: CharClass)
    requires
        0 <= p <= j <= s.len(),
    ensures
        scan(s, j, cls) == p + scan(s.subrange(p, s.len() as int), j - p, cls),
    decreases s.len() - j,
{
    let t = s.subrange(p, s.len() as int);
    if j < s.len() && cls.holds(s[j]) {
        assert(t[j - p] == s[j]);
        lemma_scan_shift(s, p, j + 1, cls);
    }
}

pub proof fn lemma_byte_len_prefix(s: Seq<char>, j: int, k: int)
    requires
        0 <= j <= k <= s.len(),
    ensures
        byte_len(s.subrange(0, j)) + (k - j) <= byte_len(s.subrange(0, k)),
{
    lemma_byte_len_append(s.subrange(0, j), s.subrange(j, k));
    assert(s.subrange(0, j) + s.subrange(j, k) =~= s.subrange(0, k));
    lemma_counts_bounded(s.subrange(j, k));
}

/// Does the character at `k` of `s` (or its end, for `k` its length) start at byte `b`?
pub open spec fn starts_at_byte(s: Seq<char>, b: int, k: int) -> bool {
    0 <= k <= s.len() && byte_len(s.subrange(0, k)) == b
}

/// At most one character starts at a given byte, so the input that a `reverse`
/// statement leads to is determined.
pub proof fn lemma_starts_at_byte_unique(s: Seq<char>, b: int, j: int, k: int)
    requires
        starts_at_byte(s, b, j),
        starts_at_byte(s, b, k),
    ensures
        j == k,
{
    if j < k {
        lemma_byte_len_prefix(s, j, k);
    } else if k < j {
        lemma_byte_len_prefix(s, k, j);
    }
}

/// The index of the character of `s` that starts at byte `b` (its length when `b` is
/// the byte length of `s`), or none when no character starts there.
pub fn char_index_at_byte(s: &[char], b: usize) -> (r: Option<usize>)
    requires
        byte_len(s@) <= usize::MAX,
    ensures
        r matches Some(k) ==> starts_at_byte(s@, b as int, k as int),
        r is None ==> forall|k: int| !starts_at_byte(s@, b as int, k),
{
    let n = s.len();
    let mut k: usize = 0;
    let mut acc: usize = 0;
    proof {
        assert(s@.subrange(0, 0) =~= Seq::<char>::empty());
        assert(s@.subrange(0, n as int) =~= s@);
    }
    while k < n && acc < b
        invariant
            n == s@.len(),
            k <= n,
            acc == byte_len(s@.subrange(0, k as int)),
            byte_len(s@.subrange(0, n as int)) <= usize::MAX,
            forall|j: int| 0 <= j < k ==> byte_len(#[trigger] s@.subrange(0, j)) < b,
        decreases n - k,
    {
        proof {
            assert(s@.subrange(0, k + 1).drop_last() =~= s@.subrange(0, k as int));
            lemma_byte_len_prefix(s@, k + 1, n as int);
        }
        acc = acc + char_width_exec(s[k]);
        k = k + 1;
    }
    if acc == b {
        Some(k)
    } else {
        proof {
            assert forall|j: int| !starts_at_byte(s@, b as int, j) by {
                if 0 <= j <= n && k <= j {
                    lemma_byte_len_prefix(s@, k as int, j);
                }
            }
        }
        None
    }
}

/// The text that runs after a `reverse` statement: the lines of the program from the
/// last to the first, joined with nothing between them, when the program now runs
/// reversed, and the program itself otherwise.
pub open spec fn text_after_reverse(code: Seq<char>, reversed: bool) -> Seq<char> {
    if reversed {
        reversed_lines_spec(code)
    } else {
        code
    }
}

/// The position at which a program goes on after a `reverse` statement whose parse
/// started at `pos`: the byte index is mirrored at the byte length of the program, the
/// line at its number of lines, the column stays, and the input is what follows that
/// byte in the text that now runs (see `text_after_reverse`).
/// # Returns
/// - that position; none when the index or the line would fall below zero, or no
///   character of that text starts at the new byte
pub fn reverse_jump(pos: &Position, code: &[char], reversed: bool) -> (r: Option<Position>)
    requires
        byte_len(code@) <= usize::MAX,
        pos.column + code@.len() <= usize::MAX,
        2 * code@.len() <= usize::MAX,
    ensures
        ({
            let text = text_after_reverse(code@, reversed);
            let b = byte_len(code@) - pos.index;
            let l = line_count_spec(code@) - pos.line;
            &&& r matches Some(p) ==> {
                &&& b >= 0 && l >= 0
                &&& p.index == b && p.line == l && p.column == pos.column && p.wf()
                &&& exists|k: int| starts_at_byte(text, b, k) && p.input@ == text.subrange(k, text.len() as int)
            }
            &&& r is None ==> b < 0 || l < 0 || forall|k: int| !starts_at_byte(text, b, k)
        }),
{
    let (reversed_code, lines) = reversed_lines(code);
    proof {
        lemma_reversed_lines_bounded(code@);
        assert(code@.subrange(0, code@.len() as int) =~= code@);
    }
    let total = crate::interpreter::parsers::types::byte_len_chars(code, 0, code.len());
    if total < pos.index || lines < pos.line {
        return None;
    }
    let b = total - pos.index;
    let l = lines - pos.line;
    let text = if reversed {
        reversed_code
    } else {
        slice_to_vec(code, 0, code.len())
    };
    let ghost t = text@;
    proof {
        assert(t == text_after_reverse(code@, reversed));
        assert(t.len() <= code@.len() && byte_len(t) <= byte_len(code@));
    }
    match char_index_at_byte(text.as_slice(), b) {
        Some(k) => {
            let input = slice_to_vec(text.as_slice(), k, text.len());
            proof {
                assert(starts_at_byte(t, b as int, k as int));
                assert(input@ =~= t.subrange(k as int, t.len() as int));
                lemma_byte_len_append(t.subrange(0, k as int), t.subrange(k as int, t.len() as int));
                assert(t.subrange(0, k as int) + t.subrange(k as int, t.len() as int) =~= t);
            }
            let r = Position::from_parts(l, pos.column, b, input);
            assert(r.wf());
            Some(r)
        },
        None => None,
    }
}

} // verus!
