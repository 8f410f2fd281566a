//! Literal values written in the code: booleans, `undefined`, `null`, big integers,
//! numbers and strings.
use vstd::prelude::*;
use crate::interpreter::ast::uncertain::{replace_pair, replace_pair_exec};
use crate::interpreter::parsers::{
    float_at, float_spec, has_tag, is_digit, lemma_float, lemma_scan, scan, scan_exec, tag_at, CharClass,
    ParseError, SpecStep, Step,
};
use crate::interpreter::parsers::types::{byte_len, char_width, char_width_exec, chars_to_string, slice_to_vec, Position};

verus! {

/// A literal value
#[derive(Debug, Clone, PartialEq)]
pub enum Literal {
    Boolean(bool),
    Undefined,
    Null,
    /// A big integer, as the decimal text it was written with (without the `n`)
    BigInt(String),
    /// A number, as the text it was written with
    Number(String),
    String(String),
}

/// What a literal holds.
pub enum LiteralView {
    Boolean(bool),
    Undefined,
    Null,
    BigInt(Seq<char>),
    Number(Seq<char>),
    Str(Seq<char>),
}

impl View for Literal {
    type V = LiteralView;

    open spec fn view(&self) -> LiteralView {
        match self {
            Literal::Boolean(b) => LiteralView::Boolean(*b),
            Literal::Undefined => LiteralView::Undefined,
            Literal::Null => LiteralView::Null,
            Literal::BigInt(t) => LiteralView::BigInt(t@),
            Literal::Number(t) => LiteralView::Number(t@),
            Literal::String(t) => LiteralView::Str(t@),
        }
    }
}

/// The outcome of parsing a literal, in specifications.
pub enum LitSpec {
    Done(int, LiteralView),
    Error,
    Panic,
}

/// The outcome of parsing a literal.
#[derive(Debug)]
pub enum LitStep {
    /// The literal and where it ends
    Done(usize, Literal),
    /// No literal
    Error,
    /// The input makes the parser abort
    Panic,
}

impl View for LitStep {
    type V = LitSpec;

    open spec fn view(&self) -> LitSpec {
        match self {
            LitStep::Done(k, l) => LitSpec::Done(*k as int, l@),
            LitStep::Error => LitSpec::Error,
            LitStep::Panic => LitSpec::Panic,
        }
    }
}

/// The text that `num_bigint::BigInt::from_str` accepts: an optional `-`, then an
/// optional `+` (only one sign character in all), then decimal digits and `_`, not
/// starting with `_`.
pub open spec fn bigint_syntax(s: Seq<char>) -> bool {
    let u = bigint_unsigned(s);
    u.len() > 0 && u[0] != '_' && forall|k: int| 0 <= k < u.len() ==> (is_digit(#[trigger] u[k]) || u[k] == '_')
}

/// The text of a big integer without its sign: a leading `-` is dropped unless a `+`
/// follows it, and then a leading `+` unless another `+` follows it.
pub open spec fn bigint_unsigned(s: Seq<char>) -> Seq<char> {
    let t = if s.len() >= 1 && s[0] == '-' && !(s.len() >= 2 && s[1] == '+') {
        s.skip(1)
    } else {
        s
    };
    if t.len() >= 1 && t[0] == '+' && !(t.len() >= 2 && t[1] == '+') {
        t.skip(1)
    } else {
        t
    }
}

/// Whether `num_bigint::BigInt` parses the text (`str::parse`, radix 10).
/// The contract claims that it accepts exactly `bigint_syntax`, as the source of
/// `BigInt::from_str_radix` and `BigUint::from_str_radix` shows.
#[verifier::external_body]
fn bigint_text_is_valid(text: &str) -> (r: bool)
    ensures
        r == bigint_syntax(text@),
{
    text.parse::<num_bigint::BigInt>().is_ok()
}

/// Where the inside of a string ends: escapes `\'`, `\"` and `\n` count as one piece,
/// any character but a quote as another.
pub open spec fn string_inner_end(s: Seq<char>, p: int) -> int
    decreases s.len() - p,
{
    if 0 <= p && p + 1 < s.len() && s[p] == '\\' && (s[p + 1] == '\'' || s[p + 1] == '"' || s[p + 1]
        == 'n') {
        string_inner_end(s, p + 2)
    } else if 0 <= p < s.len() && !(s[p] == '\'' || s[p] == '"') {
        string_inner_end(s, p + 1)
    } else {
        p
    }
}

proof fn lemma_string_inner_end(s: Seq<char>, p: int)
    requires
        0 <= p <= s.len(),
    ensures
        p <= string_inner_end(s, p) <= s.len(),
    decreases s.len() - p,
{
    if p + 1 < s.len() && s[p] == '\\' && (s[p + 1] == '\'' || s[p + 1] == '"' || s[p + 1] == 'n') {
        lemma_string_inner_end(s, p + 2);
    } else if p < s.len() && !(s[p] == '\'' || s[p] == '"') {
        lemma_string_inner_end(s, p + 1);
    }
}

/// The number of characters of `t` whose UTF-8 encoding takes exactly `c` bytes,
/// counting from `m` characters that take `acc` bytes; none when `c` bytes end inside
/// a character or after the text.
pub open spec fn byte_prefix_from(t: Seq<char>, m: int, acc: int, c: int) -> Option<int>
    decreases t.len() - m,
{
    if acc >= c {
        if acc == c {
            Some(m)
        } else {
            None
        }
    } else if m < 0 || m >= t.len() {
        None
    } else {
        byte_prefix_from(t, m + 1, acc + char_width(t[m]), c)
    }
}

proof fn lemma_byte_prefix_range(t: Seq<char>, m: int, acc: int, c: int)
    requires
        0 <= m <= t.len(),
    ensures
        byte_prefix_from(t, m, acc, c) matches Some(r) ==> m <= r <= t.len(),
    decreases t.len() - m,
{
    if acc < c && m < t.len() {
        lemma_byte_prefix_range(t, m + 1, acc + char_width(t[m]), c);
    }
}

/// The escapes `\n`, `\\`, `\'` and `\"` of a string replaced, one after the other.
pub open spec fn string_unescape(s: Seq<char>) -> Seq<char> {
    replace_pair(
        replace_pair(replace_pair(replace_pair(s, '\\', 'n', '\n'), '\\', '\\', '\\'), '\\', '\'', '\''),
        '\\',
        '"',
        '"',
    )
}

/// Replacing pairs leaves a text without the pair's first character as it is.
proof fn lemma_replace_free(s: Seq<char>, a: char, b: char, to: char)
    requires
        forall|i: int| 0 <= i < s.len() ==> s[i] != a,
    ensures
        replace_pair(s, a, b, to) == s,
    decreases s.len(),
{
    if s.len() > 0 {
        lemma_replace_free(s.skip(1), a, b, to);
        assert(seq![s[0]] + s.skip(1) =~= s);
    }
}

/// A prefix without the pair's first character is kept, and the rest is replaced on
/// its own.
proof fn lemma_replace_prefix_free(p: Seq<char>, s: Seq<char>, a: char, b: char, to: char)
    requires
        forall|i: int| 0 <= i < p.len() ==> p[i] != a,
    ensures
        replace_pair(p + s, a, b, to) == p + replace_pair(s, a, b, to),
    decreases p.len(),
{
    if p.len() > 0 {
        lemma_replace_prefix_free(p.skip(1), s, a, b, to);
        assert((p + s).skip(1) =~= p.skip(1) + s);
        assert((p + s)[0] == p[0]);
        assert(seq![p[0]] + (p.skip(1) + replace_pair(s, a, b, to)) =~= p + replace_pair(s, a, b, to));
    }
}

/// In a text whose only backslash is the escape `\` and `y` (not a backslash), a
/// replacement of `\` and `q` replaces that escape when `y` is `q` and keeps the text
/// otherwise.
proof fn lemma_replace_escape(x: Seq<char>, y: char, z: Seq<char>, q: char, to: char)
    requires
        forall|i: int| 0 <= i < x.len() ==> x[i] != '\\',
        forall|i: int| 0 <= i < z.len() ==> z[i] != '\\',
        y != '\\',
    ensures
        replace_pair(x + seq!['\\', y] + z, '\\', q, to) == if y == q {
            x + seq![to] + z
        } else {
            x + seq!['\\', y] + z
        },
{
    let s = seq!['\\', y] + z;
    assert(x + seq!['\\', y] + z =~= x + s);
    lemma_replace_prefix_free(x, s, '\\', q, to);
    lemma_replace_free(z, '\\', q, to);
    assert(s.skip(2) =~= z);
    if y != q {
        let t = seq![y] + z;
        assert(s.skip(1) =~= t);
        assert(t.skip(1) =~= z);
        assert(replace_pair(t, '\\', q, to) == seq![y] + replace_pair(z, '\\', q, to));
        assert(seq!['\\'] + (seq![y] + z) =~= s);
    }
    assert(x + (seq![to] + z) =~= x + seq![to] + z);
    assert(x + s =~= x + seq!['\\', y] + z);
}

/// In a text whose only backslash is the lone `\` before `z`, a replacement of `\`
/// and `q` keeps the text when `z` does not start with `q`.
proof fn lemma_replace_lone(x: Seq<char>, z: Seq<char>, q: char, to: char)
    requires
        forall|i: int| 0 <= i < x.len() ==> x[i] != '\\',
        forall|i: int| 0 <= i < z.len() ==> z[i] != '\\',
        z.len() == 0 || z[0] != q,
    ensures
        replace_pair(x + seq!['\\'] + z, '\\', q, to) == x + seq!['\\'] + z,
{
    let s = seq!['\\'] + z;
    assert(x + seq!['\\'] + z =~= x + s);
    lemma_replace_prefix_free(x, s, '\\', q, to);
    lemma_replace_free(z, '\\', q, to);
    assert(s.skip(1) =~= z);
    assert(seq!['\\'] + z =~= s);
}

/// An escape in an inside that holds no other backslash becomes the character it
/// stands for: `\n` a newline, `\'` a single quote, `\"` a double quote, and `\\`
/// one backslash (when what follows is not `n` or a quote, which the later
/// replacements, made one after the other, would read as an escape again). The rest
/// of the text stays as it is.
pub proof fn law_escape_replaced(x: Seq<char>, e: char, z: Seq<char>)
    requires
        forall|i: int| 0 <= i < x.len() ==> x[i] != '\\',
        forall|i: int| 0 <= i < z.len() ==> z[i] != '\\',
        e == 'n' || e == '\'' || e == '"' || e == '\\',
        e == '\\' ==> z.len() == 0 || (z[0] != 'n' && z[0] != '\'' && z[0] != '"'),
    ensures
        string_unescape(x + seq!['\\', e] + z) == x + seq![
            if e == 'n' {
                '\n'
            } else {
                e
            },
        ] + z,
{
    let c = if e == 'n' {
        '\n'
    } else {
        e
    };
    let done = x + seq![c] + z;
    if e == '\\' {
        // the first replacement keeps both backslashes
        let s = seq!['\\', '\\'] + z;
        assert(x + seq!['\\', e] + z =~= x + s);
        lemma_replace_prefix_free(x, s, '\\', 'n', '\n');
        lemma_replace_free(z, '\\', 'n', '\n');
        let t = seq!['\\'] + z;
        assert(s.skip(1) =~= t);
        assert(t.skip(1) =~= z);
        assert(replace_pair(t, '\\', 'n', '\n') == t);
        assert(replace_pair(s, '\\', 'n', '\n') =~= s);
        let r1 = x + s;
        // the second makes one backslash of them
        assert(s.skip(2) =~= z);
        lemma_replace_prefix_free(x, s, '\\', '\\', '\\');
        lemma_replace_free(z, '\\', '\\', '\\');
        let r2 = x + seq!['\\'] + z;
        assert(replace_pair(r1, '\\', '\\', '\\') =~= r2);
        lemma_replace_lone(x, z, '\'', '\'');
        lemma_replace_lone(x, z, '"', '"');
        assert(done =~= r2);
    } else {
        lemma_replace_escape(x, e, z, 'n', '\n');
        let r1 = replace_pair(x + seq!['\\', e] + z, '\\', 'n', '\n');
        if e == 'n' {
            assert forall|i: int| 0 <= i < done.len() implies done[i] != '\\' by {
                if i < x.len() {
                } else if i == x.len() {
                } else {
                    assert(done[i] == z[i - x.len() - 1]);
                }
            }
            lemma_replace_free(done, '\\', '\\', '\\');
            lemma_replace_free(done, '\\', '\'', '\'');
            lemma_replace_free(done, '\\', '"', '"');
        } else {
            lemma_replace_escape(x, e, z, '\\', '\\');
            lemma_replace_escape(x, e, z, '\'', '\'');
            lemma_replace_escape(x, e, z, '"', '"');
            if e == '\'' {
                assert forall|i: int| 0 <= i < done.len() implies done[i] != '\\' by {
                    if i < x.len() {
                    } else if i == x.len() {
                    } else {
                        assert(done[i] == z[i - x.len() - 1]);
                    }
                }
                lemma_replace_free(done, '\\', '"', '"');
            }
        }
    }
}

/// A string literal: quotes (`'` and `"` in any mix), the inside, and the same quotes in
/// the reverse order. Only as many closing quotes are compared as the text up to the
/// next whitespace holds, and then as many characters as there were opening quotes are
/// consumed. With nothing inside, the run of quotes is split in two halves that must
/// mirror each other, and the literal is the empty string that the run itself makes
/// up. The value is the inside with its escapes replaced, cut to as many
/// bytes as the inside has characters (this aborts when the cut falls inside a
/// character).
pub open spec fn string_spec(s: Seq<char>) -> LitSpec {
    let j0 = scan(s, 0, CharClass::Quote);
    let e = string_inner_end(s, j0);
    if j0 == 0 {
        LitSpec::Error
    } else if e == j0 {
        let h = j0 / 2;
        if j0 % 2 != 0 {
            LitSpec::Error
        } else if forall|k: int| 0 <= k < h ==> s[h - 1 - k] == #[trigger] s[h + k] {
            LitSpec::Done(j0, LiteralView::Str(Seq::empty()))
        } else {
            LitSpec::Error
        }
    } else {
        let c1 = scan(s, e, CharClass::NotWs);
        let len = if j0 < c1 - e {
            j0
        } else {
            c1 - e
        };
        if (forall|k: int| 0 <= k < len ==> s[j0 - 1 - k] == #[trigger] s[e + k]) && e + j0 <= s.len() {
            match byte_prefix_from(s.subrange(j0, e), 0, 0, e - j0) {
                Some(m) => LitSpec::Done(e + j0, LiteralView::Str(string_unescape(s.subrange(j0, j0 + m)))),
                None => LitSpec::Panic,
            }
        } else {
            LitSpec::Error
        }
    }
}

/// A literal at the start of `s`: `true`, `false`, `undefined`, `null`, a big integer
/// (text up to the first `n` that `num_bigint` accepts, then the `n`), a number, or a
/// string. The words match as prefixes.
pub open spec fn literal_spec(s: Seq<char>) -> LitSpec {
    if has_tag(s, 0, seq!['t', 'r', 'u', 'e']) {
        LitSpec::Done(4, LiteralView::Boolean(true))
    } else if has_tag(s, 0, seq!['f', 'a', 'l', 's', 'e']) {
        LitSpec::Done(5, LiteralView::Boolean(false))
    } else if has_tag(s, 0, seq!['u', 'n', 'd', 'e', 'f', 'i', 'n', 'e', 'd']) {
        LitSpec::Done(9, LiteralView::Undefined)
    } else if has_tag(s, 0, seq!['n', 'u', 'l', 'l']) {
        LitSpec::Done(4, LiteralView::Null)
    } else {
        let p = scan(s, 0, CharClass::NotChar('n'));
        if p < s.len() && bigint_syntax(s.take(p)) {
            LitSpec::Done(p + 1, LiteralView::BigInt(s.take(p)))
        } else {
            match float_spec(s, 0) {
                SpecStep::Done(k) => LitSpec::Done(k, LiteralView::Number(s.take(k))),
                _ => string_spec(s),
            }
        }
    }
}

/// A plain text: no backslash, no quote, and only ASCII characters.
pub open spec fn plain_text(s: Seq<char>) -> bool {
    forall|i: int| 0 <= i < s.len() ==> s[i] != '\\' && s[i] != '\'' && s[i] != '"' && (s[i] as u32) < 128
}

proof fn lemma_inner_skip_plain(s: Seq<char>, p: int, q: int)
    requires
        0 <= p <= q <= s.len(),
        forall|i: int| p <= i < q ==> s[i] != '\\' && s[i] != '\'' && s[i] != '"',
    ensures
        string_inner_end(s, p) == string_inner_end(s, q),
    decreases q - p,
{
    if p < q {
        lemma_inner_skip_plain(s, p + 1, q);
    }
}

proof fn lemma_byte_prefix_ascii(t: Seq<char>, m: int)
    requires
        0 <= m <= t.len(),
        forall|i: int| 0 <= i < t.len() ==> (t[i] as u32) < 128,
    ensures
        byte_prefix_from(t, m, m, t.len() as int) == Some(t.len() as int),
    decreases t.len() - m,
{
    if m < t.len() {
        assert(char_width(t[m]) == 1);
        lemma_byte_prefix_ascii(t, m + 1);
    }
}

proof fn lemma_not_bigint(u: Seq<char>)
    requires
        u.len() > 0,
        u[0] != '-' && u[0] != '+' && u[0] != '_' && !is_digit(u[0]),
    ensures
        !bigint_syntax(u),
{
    assert(bigint_unsigned(u) == u);
    assert(!(is_digit(bigint_unsigned(u)[0]) || bigint_unsigned(u)[0] == '_'));
}

/// A text that starts with a quote holds no word, big integer or number literal, so
/// it is read as a string.
proof fn lemma_quote_is_string(s: Seq<char>)
    requires
        s.len() > 0,
        s[0] == '\'',
    ensures
        literal_spec(s) == string_spec(s),
{
    assert(!has_tag(s, 0, seq!['t', 'r', 'u', 'e'])) by {
        if has_tag(s, 0, seq!['t', 'r', 'u', 'e']) {
            assert(s.subrange(0, 4)[0] == s[0]);
        }
    }
    assert(!has_tag(s, 0, seq!['f', 'a', 'l', 's', 'e'])) by {
        if has_tag(s, 0, seq!['f', 'a', 'l', 's', 'e']) {
            assert(s.subrange(0, 5)[0] == s[0]);
        }
    }
    assert(!has_tag(s, 0, seq!['u', 'n', 'd', 'e', 'f', 'i', 'n', 'e', 'd'])) by {
        if has_tag(s, 0, seq!['u', 'n', 'd', 'e', 'f', 'i', 'n', 'e', 'd']) {
            assert(s.subrange(0, 9)[0] == s[0]);
        }
    }
    assert(!has_tag(s, 0, seq!['n', 'u', 'l', 'l'])) by {
        if has_tag(s, 0, seq!['n', 'u', 'l', 'l']) {
            assert(s.subrange(0, 4)[0] == s[0]);
        }
    }
    let p = scan(s, 0, CharClass::NotChar('n'));
    lemma_scan(s, 0, CharClass::NotChar('n'));
    assert(!bigint_syntax(s.take(p))) by {
        let u = s.take(p);
        assert(CharClass::NotChar('n').holds(s[0]));
        assert(p > 0);
        assert(u.len() > 0);
        if p > 0 {
            assert(u[0] == s[0]);
            assert(u[0] == '\'');
            assert(!is_digit(u[0]) && u[0] != '_');
            assert(u[0] != '-');
            assert(u[0] != '+');
            lemma_not_bigint(u);
        }
    }
    assert(float_spec(s, 0) == SpecStep::Error) by {
        assert(!crate::interpreter::parsers::has_tag_no_case(s, 0, seq!['n', 'a', 'n'])) by {
            assert(!crate::interpreter::parsers::no_case_eq(s[0], 'n'));
        }
        assert(!crate::interpreter::parsers::has_tag_no_case(s, 0, seq!['i', 'n', 'f'])) by {
            assert(!crate::interpreter::parsers::no_case_eq(s[0], 'i'));
        }
    }
}

/// The inside of a quoted text made of plain text around one escape runs up to the
/// closing quote.
proof fn lemma_escape_inner_end(x: Seq<char>, e: char, z: Seq<char>, s: Seq<char>)
    requires
        plain_text(x),
        plain_text(z),
        e == 'n' || e == '\'' || e == '"' || e == '\\',
        e == '\\' ==> z.len() > 0 && z[0] != 'n',
        s.len() > x.len() + z.len() + 3,
        s.subrange(1, x.len() + z.len() + 3int) == x + seq!['\\', e] + z,
        s[x.len() + z.len() + 3int] == '\'',
    ensures
        string_inner_end(s, 1) == x.len() + z.len() + 3,
{
    let inside = x + seq!['\\', e] + z;
    let q: int = x.len() + z.len() + 3int;
    assert forall|i: int| 0 <= i < inside.len() implies s[1 + i] == inside[i] by {
        assert(s.subrange(1, q)[i] == s[1 + i]);
    }
    let ex: int = 1 + x.len() as int;
    assert forall|i: int| 1 <= i < ex implies s[i] != '\\' && s[i] != '\'' && s[i] != '"' by {
        assert(s[i] == inside[i - 1]);
        assert(inside[i - 1] == x[i - 1]);
    }
    lemma_inner_skip_plain(s, 1, ex);
    assert(s[ex] == inside[x.len() as int]);
    assert(s[ex + 1] == inside[x.len() + 1int]);
    let ez: int = ex + 2;
    assert forall|i: int| ez <= i < q implies s[i] != '\\' && s[i] != '\'' && s[i] != '"' by {
        assert(s[i] == inside[i - 1]);
        assert(inside[i - 1] == z[i - ez]);
    }
    lemma_inner_skip_plain(s, ez, q);
    if e == '\\' {
        assert(s[ez] == inside[ez - 1]);
        assert(inside[ez - 1] == z[0]);
        assert(string_inner_end(s, ex) == string_inner_end(s, ex + 1));
        assert(string_inner_end(s, ex + 1) == string_inner_end(s, ez));
        lemma_inner_skip_plain(s, ez + 1, q);
        assert(string_inner_end(s, ez) == string_inner_end(s, ez + 1));
    } else {
        assert(string_inner_end(s, ex) == string_inner_end(s, ez));
    }
    assert(string_inner_end(s, q) == q);
}

/// A string literal in single quotes whose plain inside (see `plain_text`) holds one
/// escape is the inside with the escape replaced by the character it stands for:
/// `'it\'s'` is `it's`, `'a\nb'` holds a newline, `'a\"b'` a double quote, and
/// `'a\\b'` one backslash. (A `\\` right before the closing quote or before `n`
/// reads differently, as the inside is read from left to right.) The literal ends after
/// its closing quote, whatever follows.
pub proof fn law_string_literal_escape(x: Seq<char>, e: char, z: Seq<char>, rest: Seq<char>)
    requires
        plain_text(x),
        plain_text(z),
        e == 'n' || e == '\'' || e == '"' || e == '\\',
        e == '\\' ==> z.len() > 0 && z[0] != 'n',
    ensures
        literal_spec(seq!['\''] + x + seq!['\\', e] + z + seq!['\''] + rest) == LitSpec::Done(
            x.len() + z.len() + 4int,
            LiteralView::Str(
                x + seq![
                    if e == 'n' {
                        '\n'
                    } else {
                        e
                    },
                ] + z,
            ),
        ),
{
    let inside = x + seq!['\\', e] + z;
    let s = seq!['\''] + inside + seq!['\''] + rest;
    assert(seq!['\''] + x + seq!['\\', e] + z + seq!['\''] + rest =~= s);
    let q: int = 1 + inside.len() as int;
    assert(s[0] == '\'');
    assert(s[q] == '\'');
    assert(s.subrange(1, q) =~= inside);
    lemma_quote_is_string(s);
    assert(s[1] != '\'' && s[1] != '"') by {
        assert(s[1] == inside[0]);
        if x.len() > 0 {
            assert(inside[0] == x[0]);
        }
    }
    assert(scan(s, 0, CharClass::Quote) == 1) by {
        assert(scan(s, 1, CharClass::Quote) == 1);
    }
    lemma_escape_inner_end(x, e, z, s);
    lemma_scan(s, q, CharClass::NotWs);
    assert(scan(s, q, CharClass::NotWs) > q) by {
        assert(!crate::interpreter::parsers::spec_is_ws(s[q]));
    }
    assert forall|i: int| 0 <= i < inside.len() implies (inside[i] as u32) < 128 by {
        if i < x.len() {
            assert(inside[i] == x[i]);
        } else if i == x.len() {
        } else if i == x.len() + 1 {
        } else {
            assert(inside[i] == z[i - x.len() - 2]);
        }
    }
    lemma_byte_prefix_ascii(inside, 0);
    law_escape_replaced(x, e, z);
}

fn string_inner_end_exec(s: &[char], p: usize) -> (r: usize)
    requires
        p <= s@.len(),
    ensures
        r == string_inner_end(s@, p as int),
        p <= r <= s@.len(),
{
    proof {
        lemma_string_inner_end(s@, p as int);
    }
    let n = s.len();
    let mut q = p;
    loop
        invariant
            n == s@.len(),
            p <= q <= n,
            string_inner_end(s@, p as int) == string_inner_end(s@, q as int),
        decreases n - q,
    {
        if q < n && n - q > 1 && s[q] == '\\' && (s[q + 1] == '\'' || s[q + 1] == '"' || s[q + 1] == 'n') {
            q = q + 2;
        } else if q < n && !(s[q] == '\'' || s[q] == '"') {
            q = q + 1;
        } else {
            return q;
        }
    }
}

fn byte_prefix(t: &[char], c: usize) -> (r: Option<usize>)
    ensures
        r == match byte_prefix_from(t@, 0, 0, c as int) {
            Some(m) => Some(m as usize),
            None => None,
        },
        r matches Some(m) ==> m <= t@.len(),
{
    proof {
        lemma_byte_prefix_range(t@, 0, 0, c as int);
    }
    let n = t.len();
    let mut m: usize = 0;
    let mut acc: u128 = 0;
    while acc < c as u128 && m < n
        invariant
            n == t@.len(),
            m <= n,
            acc <= c + 4,
            byte_prefix_from(t@, 0, 0, c as int) == byte_prefix_from(t@, m as int, acc as int, c as int),
        decreases n - m,
    {
        acc = acc + char_width_exec(t[m]) as u128;
        m = m + 1;
    }
    if acc == c as u128 {
        Some(m)
    } else {
        None
    }
}

fn string_at(s: &[char]) -> (r: LitStep)
    ensures
        r@ == string_spec(s@),
        r matches LitStep::Done(k, _) ==> k <= s@.len(),
{
    let n = s.len();
    let j0 = scan_exec(s, 0, CharClass::Quote);
    let e = string_inner_end_exec(s, j0);
    if j0 == 0 {
        return LitStep::Error;
    }
    if e == j0 {
        let h = j0 / 2;
        if j0 % 2 != 0 {
            return LitStep::Error;
        }
        let mut k: usize = 0;
        while k < h
            invariant
                h <= j0 <= n,
                n == s@.len(),
                h == j0 / 2,
                j0 % 2 == 0,
                j0 > 0,
                j0 == scan(s@, 0, CharClass::Quote),
                e == string_inner_end(s@, j0 as int),
                e == j0,
                k <= h,
                forall|m: int| 0 <= m < k ==> s@[h - 1 - m] == #[trigger] s@[h + m],
            decreases h - k,
        {
            if s[h - 1 - k] != s[h + k] {
                assert(s@[h - 1 - k as int] != s@[h + k as int]);
                return LitStep::Error;
            }
            k = k + 1;
        }
        return LitStep::Done(j0, Literal::String(String::new()));
    }
    let c1 = scan_exec(s, e, CharClass::NotWs);
    let len = if j0 < c1 - e {
        j0
    } else {
        c1 - e
    };
    let mut k: usize = 0;
    while k < len
        invariant
            len <= j0 <= e <= n,
            len <= c1 - e,
            c1 <= n,
            n == s@.len(),
            j0 > 0,
            j0 == scan(s@, 0, CharClass::Quote),
            e == string_inner_end(s@, j0 as int),
            e != j0,
            c1 == scan(s@, e as int, CharClass::NotWs),
            len == (if j0 < c1 - e {
                j0 as int
            } else {
                c1 - e
            }),
            k <= len,
            forall|m: int| 0 <= m < k ==> s@[j0 - 1 - m] == #[trigger] s@[e + m],
        decreases len - k,
    {
        if s[j0 - 1 - k] != s[e + k] {
            assert(s@[j0 - 1 - k as int] != s@[e + k as int]);
            return LitStep::Error;
        }
        k = k + 1;
    }
    if n - e < j0 {
        return LitStep::Error;
    }
    let inner = slice_to_vec(s, j0, e);
    let bp = byte_prefix(inner.as_slice(), e - j0);
    proof {
        lemma_byte_prefix_range(inner@, 0, 0, (e - j0) as int);
    }
    match bp {
        Some(m) => {
            let cut = slice_to_vec(s, j0, j0 + m);
            let a = replace_pair_exec(cut.as_slice(), '\\', 'n', '\n');
            let b = replace_pair_exec(a.as_slice(), '\\', '\\', '\\');
            let c = replace_pair_exec(b.as_slice(), '\\', '\'', '\'');
            let d = replace_pair_exec(c.as_slice(), '\\', '"', '"');
            LitStep::Done(e + j0, Literal::String(chars_to_string(d.as_slice())))
        },
        None => LitStep::Panic,
    }
}

/// Parses a literal at the start of `s` (see `literal_spec`).
pub fn literal_at(s: &[char]) -> (r: LitStep)
    ensures
        r@ == literal_spec(s@),
        r matches LitStep::Done(k, _) ==> k <= s@.len(),
{
    proof {
        reveal_strlit("true");
        reveal_strlit("false");
        reveal_strlit("undefined");
        reveal_strlit("null");
        assert("true"@ =~= seq!['t', 'r', 'u', 'e']);
        assert("false"@ =~= seq!['f', 'a', 'l', 's', 'e']);
        assert("undefined"@ =~= seq!['u', 'n', 'd', 'e', 'f', 'i', 'n', 'e', 'd']);
        assert("null"@ =~= seq!['n', 'u', 'l', 'l']);
    }
    let n = s.len();
    if tag_at(s, 0, "true") {
        return LitStep::Done(4, Literal::Boolean(true));
    }
    if tag_at(s, 0, "false") {
        return LitStep::Done(5, Literal::Boolean(false));
    }
    if tag_at(s, 0, "undefined") {
        return LitStep::Done(9, Literal::Undefined);
    }
    if tag_at(s, 0, "null") {
        return LitStep::Done(4, Literal::Null);
    }
    let p = scan_exec(s, 0, CharClass::NotChar('n'));
    if p < n {
        let text = slice_to_vec(s, 0, p);
        assert(text@ =~= s@.take(p as int));
        let text_string = chars_to_string(text.as_slice());
        if bigint_text_is_valid(text_string.as_str()) {
            return LitStep::Done(p + 1, Literal::BigInt(text_string));
        }
    }
    proof {
        lemma_float(s@, 0);
    }
    match float_at(s, 0) {
        Step::Done(k) => {
            let text = slice_to_vec(s, 0, k);
            assert(text@ =~= s@.take(k as int));
            LitStep::Done(k, Literal::Number(chars_to_string(text.as_slice())))
        },
        _ => string_at(s),
    }
}

impl Literal {
    /// Parses a literal (see `literal_spec`)
    /// # Returns
    /// - the position after it and the literal
    pub fn parse(input: &Position) -> (r: Result<(Position, Literal), ParseError>)
        requires
            input.wf(),
            !(literal_spec(input.input@) is Panic),
        ensures
            match literal_spec(input.input@) {
                LitSpec::Done(k, v) => r matches Ok((rest, lit)) && input.advanced_by(k, rest) && rest.wf()
                    && lit@ == v,
                _ => r == Err::<(Position, Literal), ParseError>(ParseError::Error),
            },
    {
        match literal_at(input.input.as_slice()) {
            LitStep::Done(k, lit) => Ok((input.advance(k), lit)),
            _ => Err(ParseError::Error),
        }
    }
}

} // verus!
