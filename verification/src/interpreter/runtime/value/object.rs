//! Objects: the keys under which arrays hold their items, and how an object is written
//! as text.
use vstd::prelude::*;
use crate::interpreter::parsers::types::{chars_to_string, str_chars};
use crate::interpreter::runtime::text::{decimal, push_chars, push_decimal};

verus! {

/// The key under which an array holds the item at position `i` of its initialiser:
/// arrays count from -1, so the first item is under `-1` and the others under `i - 1`.
pub open spec fn array_key_spec(i: nat) -> Seq<char> {
    if i == 0 {
        seq!['-', '1']
    } else {
        decimal((i - 1) as nat)
    }
}

/// The key under which an array holds the item at position `i` of its initialiser.
pub fn array_key(i: usize) -> (r: String)
    ensures
        r@ == array_key_spec(i as nat),
{
    let mut out: Vec<char> = Vec::new();
    if i == 0 {
        out.push('-');
        out.push('1');
        proof {
            assert(out@ =~= seq!['-', '1']);
        }
    } else {
        push_decimal(&mut out, i - 1);
        proof {
            assert(out@ =~= decimal((i - 1) as nat));
        }
    }
    chars_to_string(out.as_slice())
}

/// How the value of a property is written in the text of its object.
#[derive(Debug, Clone, PartialEq, Eq)]
pub enum PropertyText {
    /// A string value: written in single quotes, with each newline written as `\n`
    Quoted(String),
    /// Any other value, by its own text: each line after the first is indented by two
    /// spaces
    Shown(String),
}

/// `s` with each newline written as a backslash and `n`.
pub open spec fn escape_newlines(s: Seq<char>) -> Seq<char>
    decreases s.len(),
{
    if s.len() == 0 {
        Seq::empty()
    } else {
        escape_newlines(s.drop_last()) + if s.last() == '\n' {
            seq!['\\', 'n']
        } else {
            seq![s.last()]
        }
    }
}

/// `s` with each line after the first indented by two spaces.
pub open spec fn indent_lines(s: Seq<char>) -> Seq<char>
    decreases s.len(),
{
    if s.len() == 0 {
        Seq::empty()
    } else {
        indent_lines(s.drop_last()) + if s.last() == '\n' {
            seq!['\n', ' ', ' ']
        } else {
            seq![s.last()]
        }
    }
}

/// The text of the value of a property.
pub open spec fn value_text(v: PropertyText) -> Seq<char> {
    match v {
        PropertyText::Quoted(s) => seq!['\''] + escape_newlines(s@) + seq!['\''],
        PropertyText::Shown(s) => indent_lines(s@),
    }
}

/// The line of a property: two spaces, the key, a colon and a space, and the value.
pub open spec fn property_line(key: Seq<char>, v: PropertyText) -> Seq<char> {
    seq![' ', ' '] + key + seq![':', ' '] + value_text(v)
}

/// The lines of the properties, joined by a comma and a newline.
pub open spec fn property_lines(entries: Seq<(String, PropertyText)>) -> Seq<char>
    decreases entries.len(),
{
    if entries.len() == 0 {
        Seq::empty()
    } else if entries.len() == 1 {
        property_line(entries[0].0@, entries[0].1)
    } else {
        property_lines(entries.drop_last()) + seq![',', '\n'] + property_line(
            entries.last().0@,
            entries.last().1,
        )
    }
}

/// The text of an object with the given properties, in the given order: `{}` when it
/// has none, and otherwise `{`, a newline, the lines of its properties, a newline and
/// `}`.
pub open spec fn object_text_spec(entries: Seq<(String, PropertyText)>) -> Seq<char> {
    if entries.len() == 0 {
        seq!['{', '}']
    } else {
        seq!['{', '\n'] + property_lines(entries) + seq!['\n', '}']
    }
}

/// Appends the text of the value of a property.
fn push_value_text(out: &mut Vec<char>, v: &PropertyText)
    ensures
        final(out)@ == old(out)@ + value_text(*v),
{
    let (s, quoted) = match v {
        PropertyText::Quoted(s) => (s, true),
        PropertyText::Shown(s) => (s, false),
    };
    let cs = str_chars(s.as_str());
    let ghost start = out@;
    if quoted {
        out.push('\'');
    }
    let ghost base = out@;
    let n = cs.len();
    let mut i: usize = 0;
    while i < n
        invariant
            n == cs@.len(),
            cs@ == s@,
            i <= n,
            out@ == base + if quoted {
                escape_newlines(cs@.take(i as int))
            } else {
                indent_lines(cs@.take(i as int))
            },
        decreases n - i,
    {
        let c = cs[i];
        if c == '\n' {
            if quoted {
                out.push('\\');
                out.push('n');
            } else {
                out.push('\n');
                out.push(' ');
                out.push(' ');
            }
        } else {
            out.push(c);
        }
        proof {
            assert(cs@.take(i + 1).drop_last() =~= cs@.take(i as int));
        }
        i = i + 1;
    }
    proof {
        assert(cs@.take(n as int) =~= cs@);
    }
    if quoted {
        out.push('\'');
    }
}

/// The text of an object with the given properties, in the given order (see
/// `object_text_spec`).
pub fn object_text(entries: &Vec<(String, PropertyText)>) -> (r: String)
    ensures
        r@ == object_text_spec(entries@),
{
    let n = entries.len();
    let mut out: Vec<char> = Vec::new();
    if n == 0 {
        out.push('{');
        out.push('}');
        proof {
            assert(out@ =~= seq!['{', '}']);
        }
        return chars_to_string(out.as_slice());
    }
    out.push('{');
    out.push('\n');
    let mut i: usize = 0;
    while i < n
        invariant
            n == entries@.len(),
            n > 0,
            i <= n,
            out@ == seq!['{', '\n'] + property_lines(entries@.take(i as int)),
        decreases n - i,
    {
        let ghost before = out@;
        if i > 0 {
            out.push(',');
            out.push('\n');
        }
        out.push(' ');
        out.push(' ');
        let key = str_chars(entries[i].0.as_str());
        push_chars(&mut out, key.as_slice());
        out.push(':');
        out.push(' ');
        push_value_text(&mut out, &entries[i].1);
        proof {
            let t = entries@.take(i + 1);
            assert(t.drop_last() =~= entries@.take(i as int));
            assert(t.last() == entries@[i as int]);
            if i == 0 {
                assert(entries@.take(0) =~= Seq::<(String, PropertyText)>::empty());
            }
            assert(out@ =~= seq!['{', '\n'] + property_lines(t));
        }
        i = i + 1;
    }
    out.push('\n');
    out.push('}');
    proof {
        assert(entries@.take(n as int) =~= entries@);
        assert(out@ =~= object_text_spec(entries@));
    }
    chars_to_string(out.as_slice())
}

} // verus!
