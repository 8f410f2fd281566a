//! Source text positions.
//!
//! A [`Position`] is the remaining input together with the line, the column and the
//! byte index at which that input starts in the whole source text.
use vstd::prelude::*;
use vstd::utf8::*;

verus! {

/// Number of bytes of the UTF-8 encoding of `c`.
pub open spec fn char_width(c: char) -> nat {
    let u = c as u32;
    if u <= 0x7F {
        1
    } else if u <= 0x7FF {
        2
    } else if u <= 0xFFFF {
        3
    } else {
        4
    }
}

/// Number of bytes of the UTF-8 encoding of `s`.
pub open spec fn byte_len(s: Seq<char>) -> nat
    decreases s.len(),
{
    if s.len() == 0 {
        0
    } else {
        byte_len(s.drop_last()) + char_width(s.last())
    }
}

/// Number of newline characters in `s`.
pub open spec fn nl_count(s: Seq<char>) -> nat
    decreases s.len(),
{
    if s.len() == 0 {
        0
    } else {
        nl_count(s.drop_last()) + (if s.last() == '\n' { 1nat } else { 0nat })
    }
}

/// Number of characters after the last newline of `s` (all of them if there is none).
pub open spec fn last_line_len(s: Seq<char>) -> nat
    decreases s.len(),
{
    if s.len() == 0 {
        0
    } else if s.last() == '\n' {
        0
    } else {
        last_line_len(s.drop_last()) + 1
    }
}

pub proof fn lemma_byte_len_append(a: Seq<char>, b: Seq<char>)
    ensures
        byte_len(a + b) == byte_len(a) + byte_len(b),
    decreases b.len(),
{
    if b.len() == 0 {
        assert(a + b =~= a);
    } else {
        lemma_byte_len_append(a, b.drop_last());
        assert((a + b).drop_last() =~= a + b.drop_last());
    }
}

pub proof fn lemma_nl_count_append(a: Seq<char>, b: Seq<char>)
    ensures
        nl_count(a + b) == nl_count(a) + nl_count(b),
    decreases b.len(),
{
    if b.len() == 0 {
        assert(a + b =~= a);
    } else {
        lemma_nl_count_append(a, b.drop_last());
        assert((a + b).drop_last() =~= a + b.drop_last());
    }
}

pub proof fn lemma_counts_bounded(s: Seq<char>)
    ensures
        nl_count(s) <= s.len(),
        last_line_len(s) <= s.len(),
        s.len() <= byte_len(s),
        byte_len(s) <= 4 * s.len(),
    decreases s.len(),
{
    if s.len() > 0 {
        lemma_counts_bounded(s.drop_last());
    }
}

/// The byte length of a character sequence is the length of its UTF-8 encoding.
pub proof fn lemma_byte_len_encode(s: Seq<char>)
    ensures
        byte_len(s) == encode_utf8(s).len(),
    decreases s.len(),
{
    if s.len() > 0 {
        lemma_byte_len_encode(s.drop_first());
        let c = s[0];
        lemma_byte_len_append(seq![c], s.drop_first());
        assert(seq![c] + s.drop_first() =~= s);
        assert(seq![c].drop_last() =~= Seq::<char>::empty());
        vstd::utf8::char_is_scalar(c);
        assert(seq![c].last() == c);
        reveal_with_fuel(byte_len, 2);
        assert(byte_len(seq![c]) == char_width(c));
        assert(encode_scalar(c as u32).len() == char_width(c));
        assert(encode_utf8(s) == encode_scalar(s[0] as u32) + encode_utf8(s.drop_first()));
    }
}

/// Number of bytes of the UTF-8 encoding of `c`.
pub fn char_width_exec(c: char) -> (w: usize)
    ensures
        w == char_width(c),
        1 <= w <= 4,
{
    let u = c as u32;
    if u <= 0x7F {
        1
    } else if u <= 0x7FF {
        2
    } else if u <= 0xFFFF {
        3
    } else {
        4
    }
}

/// The characters of a string slice, collected from std's `str::chars`; trusted to give
/// exactly the characters of `s` in order (its view), as std documents `chars`.
#[verifier::external_body]
pub(crate) fn str_chars(s: &str) -> (r: Vec<char>)
    ensures
        r@ == s@,
{
    s.chars().collect()
}

/// A string made of the given characters, collected by std's `FromIterator<&char>` for
/// `String`; trusted to hold exactly those characters in order.
#[verifier::external_body]
pub(crate) fn chars_to_string(s: &[char]) -> (r: String)
    ensures
        r@ == s@,
{
    s.iter().collect()
}

/// Calculates how many lines and columns the input produces
/// - The line is the number of newlines, the column the number of characters after the last one
pub fn calc_line_column(input: &str) -> (r: (usize, usize))
    ensures
        r.0 == nl_count(input@),
        r.1 == last_line_len(input@),
{
    let chars = str_chars(input);
    proof {
        assert(chars@.subrange(0, chars@.len() as int) =~= input@);
    }
    calc_line_column_chars(chars.as_slice(), 0, chars.len())
}

/// Line and column counts of `s[from..to]`.
pub fn calc_line_column_chars(s: &[char], from: usize, to: usize) -> (r: (usize, usize))
    requires
        from <= to <= s@.len(),
    ensures
        r.0 == nl_count(s@.subrange(from as int, to as int)),
        r.1 == last_line_len(s@.subrange(from as int, to as int)),
{
    let mut line: usize = 0;
    let mut column: usize = 0;
    let mut k = from;
    while k < to
        invariant
            from <= k <= to <= s@.len(),
            line == nl_count(s@.subrange(from as int, k as int)),
            column == last_line_len(s@.subrange(from as int, k as int)),
        decreases to - k,
    {
        proof {
            lemma_counts_bounded(s@.subrange(from as int, k as int));
            assert(s@.subrange(from as int, k + 1).drop_last() =~= s@.subrange(from as int, k as int));
        }
        if s[k] == '\n' {
            line = line + 1;
            column = 0;
        } else {
            column = column + 1;
        }
        k = k + 1;
    }
    (line, column)
}

/// Byte length of `s[from..to]`.
pub fn byte_len_chars(s: &[char], from: usize, to: usize) -> (r: usize)
    requires
        from <= to <= s@.len(),
        byte_len(s@.subrange(from as int, to as int)) <= usize::MAX,
    ensures
        r == byte_len(s@.subrange(from as int, to as int)),
{
    let mut n: usize = 0;
    let mut k = from;
    while k < to
        invariant
            from <= k <= to <= s@.len(),
            n == byte_len(s@.subrange(from as int, k as int)),
            byte_len(s@.subrange(from as int, to as int)) <= usize::MAX,
        decreases to - k,
    {
        proof {
            assert(s@.subrange(from as int, k + 1).drop_last() =~= s@.subrange(from as int, k as int));
            lemma_byte_len_append(s@.subrange(from as int, k + 1), s@.subrange(k + 1, to as int));
            assert(s@.subrange(from as int, k + 1) + s@.subrange(k + 1, to as int) =~= s@.subrange(from as int, to as int));
        }
        n = n + char_width_exec(s[k]);
        k = k + 1;
    }
    n
}

/// Position information for parsing
/// # Note
/// - The position points to the start of the input
/// - As the input is parsed and sliced, the position will be updated
#[derive(Debug, Clone)]
pub struct Position {
    pub line: usize,
    pub column: usize,
    pub index: usize,
    pub input: Vec<char>,
}

/// The column after consuming `consumed` from `column`: after a newline the column
/// starts again at 1, so it counts the characters after the last newline.
pub open spec fn column_after(column: int, consumed: Seq<char>) -> int {
    if nl_count(consumed) > 0 {
        1 + last_line_len(consumed) as int
    } else {
        column + last_line_len(consumed)
    }
}

/// Line, column and index after consuming `consumed` from the given start.
pub open spec fn moved(line: int, column: int, index: int, consumed: Seq<char>) -> (int, int, int) {
    (line + nl_count(consumed), column_after(column, consumed), index + byte_len(consumed))
}

impl Position {
    /// The counters of the position cannot overflow while its input is consumed.
    pub open spec fn wf(&self) -> bool {
        &&& self.index + byte_len(self.input@) <= usize::MAX
        &&& self.line + self.input@.len() <= usize::MAX
        &&& self.column + self.input@.len() <= usize::MAX
        &&& self.input@.len() < usize::MAX
    }

    /// `next` is this position after the first `n` characters of the input were consumed.
    pub open spec fn advanced_by(&self, n: int, next: Position) -> bool {
        &&& 0 <= n <= self.input@.len()
        &&& next.input@ == self.input@.skip(n)
        &&& (next.line as int, next.column as int, next.index as int) == moved(
            self.line as int,
            self.column as int,
            self.index as int,
            self.input@.take(n),
        )
    }

    /// `next` is this position after the whole input was consumed by a scan that
    /// never stopped: the line and column move, the index stays where it was.
    pub open spec fn consumed_to_end(&self, next: Position) -> bool {
        &&& next.input@.len() == 0
        &&& next.line == self.line + nl_count(self.input@)
        &&& next.column == column_after(self.column as int, self.input@)
        &&& next.index == self.index
    }

    /// `next` has the counters of this position and the first `n` characters as input.
    pub open spec fn truncated_to(&self, n: int, next: Position) -> bool {
        &&& 0 <= n <= self.input@.len()
        &&& next.input@ == self.input@.take(n)
        &&& next.line == self.line
        &&& next.column == self.column
        &&& next.index == self.index
    }

    /// Takes the characters of `t` if the input starts with them
    /// # Returns
    /// - `(rest, taken)`
    pub fn tag(&self, t: &str) -> (r: Option<(Position, Position)>)
        requires
            self.wf(),
        ensures
            crate::interpreter::parsers::has_tag(self.input@, 0, t@) ==> (r matches Some((rest, taken))
                && self.advanced_by(t@.len() as int, rest) && self.truncated_to(t@.len() as int, taken)
                && rest.wf() && taken.wf()),
            !crate::interpreter::parsers::has_tag(self.input@, 0, t@) ==> r is None,
    {
        if crate::interpreter::parsers::tag_at(self.input.as_slice(), 0, t) {
            let n = str_chars(t).len();
            Some(self.take_split(n))
        } else {
            None
        }
    }

    /// Takes the first character if it is of the given class
    /// # Returns
    /// - the position after it and the character
    pub fn satisfy(&self, cls: crate::interpreter::parsers::CharClass) -> (r: Option<(Position, char)>)
        requires
            self.wf(),
        ensures
            self.input@.len() > 0 && cls.holds(self.input@[0]) ==> (r matches Some((rest, c))
                && self.advanced_by(1, rest) && rest.wf() && c == self.input@[0]),
            !(self.input@.len() > 0 && cls.holds(self.input@[0])) ==> r is None,
    {
        if self.input.len() > 0 && cls.test(self.input[0]) {
            Some((self.advance(1), self.input[0]))
        } else {
            None
        }
    }

    /// Creates a position at the start of `input`: line 1, column 1, index 0
    pub fn new(input: &str) -> (r: Self)
        requires
            input@.len() < usize::MAX,
        ensures
            r.wf(),
            r.input@ == input@,
            r.line == 1,
            r.column == 1,
            r.index == 0,
    {
        let bytes = input.as_bytes().len();
        proof {
            lemma_byte_len_encode(input@);
        }
        Position { line: 1, column: 1, index: 0, input: str_chars(input) }
    }

    /// Creates a position from characters and counters.
    pub fn from_parts(line: usize, column: usize, index: usize, input: Vec<char>) -> (r: Self)
        ensures
            r.line == line,
            r.column == column,
            r.index == index,
            r.input@ == input@,
    {
        Position { line, column, index, input }
    }

    /// The remaining input as a string
    pub fn input_string(&self) -> (r: String)
        ensures
            r@ == self.input@,
    {
        chars_to_string(self.input.as_slice())
    }

    /// The position after the first `n` characters of the input were consumed.
    pub fn advance(&self, n: usize) -> (r: Position)
        requires
            self.wf(),
            n <= self.input@.len(),
        ensures
            r.wf(),
            self.advanced_by(n as int, r),
    {
        let s = self.input.as_slice();
        let ghost t = self.input@.take(n as int);
        proof {
            assert(s@.subrange(0, n as int) =~= t);
            assert(s@.subrange(n as int, s@.len() as int) =~= self.input@.skip(n as int));
            assert(t + self.input@.skip(n as int) =~= self.input@);
            lemma_byte_len_append(t, self.input@.skip(n as int));
            lemma_counts_bounded(t);
            lemma_counts_bounded(self.input@.skip(n as int));
        }
        let (lines, column) = calc_line_column_chars(s, 0, n);
        let bytes = byte_len_chars(s, 0, n);
        let rest = slice_to_vec(s, n, s.len());
        Position {
            line: self.line + lines,
            column: if lines > 0 {
                1 + column
            } else {
                self.column + column
            },
            index: self.index + bytes,
            input: rest,
        }
    }

    /// The position after a scan that took the whole input without stopping.
    /// The index is not moved by such a scan.
    pub fn advance_to_end(&self) -> (r: Position)
        requires
            self.wf(),
        ensures
            r.wf(),
            self.consumed_to_end(r),
    {
        let s = self.input.as_slice();
        proof {
            assert(s@.subrange(0, s@.len() as int) =~= self.input@);
            lemma_counts_bounded(self.input@);
        }
        let (lines, column) = calc_line_column_chars(s, 0, s.len());
        Position {
            line: self.line + lines,
            column: if lines > 0 {
                1 + column
            } else {
                self.column + column
            },
            index: self.index,
            input: Vec::new(),
        }
    }

    /// The first `n` characters of the input with the counters of this position.
    pub fn truncate(&self, n: usize) -> (r: Position)
        requires
            self.wf(),
            n <= self.input@.len(),
        ensures
            r.wf(),
            self.truncated_to(n as int, r),
    {
        let s = self.input.as_slice();
        proof {
            assert(s@.subrange(0, n as int) =~= self.input@.take(n as int));
            assert(self.input@.take(n as int) + self.input@.skip(n as int) =~= self.input@);
            lemma_byte_len_append(self.input@.take(n as int), self.input@.skip(n as int));
        }
        Position {
            line: self.line,
            column: self.column,
            index: self.index,
            input: slice_to_vec(s, 0, n),
        }
    }

    /// Splits off the first `count` characters
    /// # Returns
    /// - `(rest, taken)`: the position after them and the taken characters
    pub fn take_split(&self, count: usize) -> (r: (Position, Position))
        requires
            self.wf(),
            count <= self.input@.len(),
        ensures
            r.0.wf(),
            r.1.wf(),
            self.advanced_by(count as int, r.0),
            self.truncated_to(count as int, r.1),
    {
        (self.advance(count), self.truncate(count))
    }

    /// Splits the input at its first character for which `keep` does not hold
    /// # Returns
    /// - `(rest, taken)`, or `None` when `keep` holds for the whole input
    pub fn split_at_position(&self, keep: crate::interpreter::parsers::CharClass) -> (r: Option<(Position, Position)>)
        requires
            self.wf(),
        ensures
            match r {
                None => crate::interpreter::parsers::scan(self.input@, 0, keep) == self.input@.len(),
                Some((rest, taken)) => {
                    let k = crate::interpreter::parsers::scan(self.input@, 0, keep);
                    &&& k < self.input@.len()
                    &&& self.advanced_by(k, rest)
                    &&& self.truncated_to(k, taken)
                    &&& rest.wf()
                    &&& taken.wf()
                },
            },
    {
        let k = crate::interpreter::parsers::scan_exec(self.input.as_slice(), 0, keep);
        if k == self.input.len() {
            None
        } else {
            Some(self.take_split(k))
        }
    }

    /// The input from the given character on, like `slice(start..)`
    pub fn slice_from(&self, start: usize) -> (r: Position)
        requires
            self.wf(),
            start <= self.input@.len(),
        ensures
            r.wf(),
            self.advanced_by(start as int, r),
    {
        self.advance(start)
    }

    /// The input up to the given character, like `slice(..end)`
    pub fn slice_to(&self, end: usize) -> (r: Position)
        requires
            self.wf(),
            end <= self.input@.len(),
        ensures
            r.wf(),
            self.truncated_to(end as int, r),
    {
        self.truncate(end)
    }
}

/// The characters `s[from..to]` as a vector.
pub fn slice_to_vec(s: &[char], from: usize, to: usize) -> (r: Vec<char>)
    requires
        from <= to <= s@.len(),
    ensures
        r@ == s@.subrange(from as int, to as int),
{
    let mut v: Vec<char> = Vec::new();
    let mut k = from;
    while k < to
        invariant
            from <= k <= to <= s@.len(),
            v@ == s@.subrange(from as int, k as int),
        decreases to - k,
    {
        v.push(s[k]);
        proof {
            assert(v@ =~= s@.subrange(from as int, k + 1));
        }
        k = k + 1;
    }
    v
}

} // verus!
