//! Which comparison `==` and the ordering operators make for two values, by the kinds
//! of the values. What the comparisons themselves compute depends on floating point
//! numbers and is left to the runtime values.
use vstd::prelude::*;

verus! {

/// The kind of a runtime value.
#[derive(Debug, Clone, Copy, PartialEq, Eq, Structural)]
pub enum ValueKind {
    Number,
    Boolean,
    BigInt,
    String,
    Undefined,
    /// An object, `null` included
    Object,
    Symbol,
}

impl ValueKind {
    /// Every kind but objects is primitive.
    pub open spec fn primitive(self) -> bool {
        self != ValueKind::Object
    }

    /// Is a value of this kind primitive (anything but an object)?
    pub fn is_primitive(&self) -> (r: bool)
        ensures
            r == self.primitive(),
    {
        match self {
            ValueKind::Object => false,
            _ => true,
        }
    }
}

/// The step that `==` takes for two values of given kinds.
#[derive(Debug, Clone, Copy, PartialEq, Eq, Structural)]
pub enum LooseEqStep {
    /// The kinds are the same: compare the values as values of that kind
    SameKind,
    /// The values are not equal, without comparing them
    Unequal,
    /// The left value is a boolean: compare its number with the right value instead
    LeftToNumber,
    /// The right value is a boolean: compare the left value with its number instead
    RightToNumber,
    /// A number and a string: the string, read as a number, against the number
    NumberString,
    /// A string and a number: the string, read as a number, against the number
    StringNumber,
    /// A number and a big integer: the number, if finite, as a big integer
    NumberBigInt,
    /// A big integer and a number: the number, if finite, as a big integer
    BigIntNumber,
    /// A string and a big integer: the string, read as a big integer
    StringBigInt,
    /// A big integer and a string: the string, read as a big integer
    BigIntString,
}

/// The step that `==` takes for two values of kinds `l` and `r`: values of one kind
/// compare directly; an object equals no value of another kind, and neither does a
/// symbol or `undefined`; a boolean on either side is compared as a number; a number, a
/// string and a big integer compare with each other by reading the string or converting
/// the number, whichever side each stands on.
pub open spec fn loose_eq_step_spec(l: ValueKind, r: ValueKind) -> LooseEqStep {
    if l == r {
        LooseEqStep::SameKind
    } else if !l.primitive() || !r.primitive() {
        LooseEqStep::Unequal
    } else if l == ValueKind::Symbol || r == ValueKind::Symbol {
        LooseEqStep::Unequal
    } else if l == ValueKind::Boolean {
        LooseEqStep::LeftToNumber
    } else if r == ValueKind::Boolean {
        LooseEqStep::RightToNumber
    } else if l == ValueKind::Undefined || r == ValueKind::Undefined {
        LooseEqStep::Unequal
    } else if l == ValueKind::Number && r == ValueKind::String {
        LooseEqStep::NumberString
    } else if l == ValueKind::String && r == ValueKind::Number {
        LooseEqStep::StringNumber
    } else if l == ValueKind::Number && r == ValueKind::BigInt {
        LooseEqStep::NumberBigInt
    } else if l == ValueKind::BigInt && r == ValueKind::Number {
        LooseEqStep::BigIntNumber
    } else if l == ValueKind::String {
        LooseEqStep::StringBigInt
    } else {
        LooseEqStep::BigIntString
    }
}

/// The step that `==` takes for two values of kinds `l` and `r` (see
/// `loose_eq_step_spec`).
pub fn loose_eq_step(l: ValueKind, r: ValueKind) -> (s: LooseEqStep)
    ensures
        s == loose_eq_step_spec(l, r),
{
    if l == r {
        LooseEqStep::SameKind
    } else if !l.is_primitive() || !r.is_primitive() {
        LooseEqStep::Unequal
    } else {
        match (l, r) {
            (ValueKind::Symbol, _) | (_, ValueKind::Symbol) => LooseEqStep::Unequal,
            (ValueKind::Boolean, _) => LooseEqStep::LeftToNumber,
            (_, ValueKind::Boolean) => LooseEqStep::RightToNumber,
            (ValueKind::Undefined, _) | (_, ValueKind::Undefined) => LooseEqStep::Unequal,
            (ValueKind::Number, ValueKind::String) => LooseEqStep::NumberString,
            (ValueKind::String, ValueKind::Number) => LooseEqStep::StringNumber,
            (ValueKind::Number, ValueKind::BigInt) => LooseEqStep::NumberBigInt,
            (ValueKind::BigInt, ValueKind::Number) => LooseEqStep::BigIntNumber,
            (ValueKind::String, _) => LooseEqStep::StringBigInt,
            _ => LooseEqStep::BigIntString,
        }
    }
}

/// The step for the same two values with their sides swapped.
pub open spec fn mirrored(s: LooseEqStep) -> LooseEqStep {
    match s {
        LooseEqStep::LeftToNumber => LooseEqStep::RightToNumber,
        LooseEqStep::RightToNumber => LooseEqStep::LeftToNumber,
        LooseEqStep::NumberString => LooseEqStep::StringNumber,
        LooseEqStep::StringNumber => LooseEqStep::NumberString,
        LooseEqStep::NumberBigInt => LooseEqStep::BigIntNumber,
        LooseEqStep::BigIntNumber => LooseEqStep::NumberBigInt,
        LooseEqStep::StringBigInt => LooseEqStep::BigIntString,
        LooseEqStep::BigIntString => LooseEqStep::StringBigInt,
        other => other,
    }
}

/// `==` answers the same both ways: with the sides swapped it takes the mirrored step,
/// which compares the same two values in the same way.
pub proof fn law_loose_eq_symmetric(l: ValueKind, r: ValueKind)
    ensures
        loose_eq_step_spec(r, l) == mirrored(loose_eq_step_spec(l, r)),
{
}

/// Which values `==` compares, and how: values of one kind directly; an object, a
/// symbol, or `undefined` against a value of another kind (a boolean aside) never
/// equals it; a boolean on either side becomes a number; and a number, a string and a
/// big integer of different kinds are compared by converting one to the other, with
/// the string always read and the number always converted, whichever side they stand
/// on.
pub proof fn law_loose_eq_steps(l: ValueKind, r: ValueKind)
    ensures
        loose_eq_step_spec(l, r) == LooseEqStep::SameKind <==> l == r,
        loose_eq_step_spec(l, r) == LooseEqStep::Unequal <==> (l != r && (l == ValueKind::Object || r
            == ValueKind::Object || l == ValueKind::Symbol || r == ValueKind::Symbol || ((l
            == ValueKind::Undefined || r == ValueKind::Undefined) && l != ValueKind::Boolean && r
            != ValueKind::Boolean))),
        loose_eq_step_spec(l, r) == LooseEqStep::LeftToNumber <==> (l == ValueKind::Boolean && r
            != ValueKind::Boolean && r != ValueKind::Object && r != ValueKind::Symbol),
        loose_eq_step_spec(l, r) == LooseEqStep::RightToNumber <==> (r == ValueKind::Boolean && l
            != ValueKind::Boolean && l != ValueKind::Object && l != ValueKind::Symbol),
        loose_eq_step_spec(l, r) == LooseEqStep::NumberString <==> (l == ValueKind::Number && r
            == ValueKind::String),
        loose_eq_step_spec(l, r) == LooseEqStep::StringNumber <==> (l == ValueKind::String && r
            == ValueKind::Number),
        loose_eq_step_spec(l, r) == LooseEqStep::NumberBigInt <==> (l == ValueKind::Number && r
            == ValueKind::BigInt),
        loose_eq_step_spec(l, r) == LooseEqStep::BigIntNumber <==> (l == ValueKind::BigInt && r
            == ValueKind::Number),
        loose_eq_step_spec(l, r) == LooseEqStep::StringBigInt <==> (l == ValueKind::String && r
            == ValueKind::BigInt),
        loose_eq_step_spec(l, r) == LooseEqStep::BigIntString <==> (l == ValueKind::BigInt && r
            == ValueKind::String),
{
}

/// `==` turns at most one boolean into a number: after it did, the next step compares
/// or decides without converting again.
pub proof fn law_loose_eq_converts_once(l: ValueKind, r: ValueKind)
    ensures
        loose_eq_step_spec(l, r) == LooseEqStep::LeftToNumber ==> {
            let next = loose_eq_step_spec(ValueKind::Number, r);
            next != LooseEqStep::LeftToNumber && next != LooseEqStep::RightToNumber
        },
        loose_eq_step_spec(l, r) == LooseEqStep::RightToNumber ==> {
            let next = loose_eq_step_spec(l, ValueKind::Number);
            next != LooseEqStep::LeftToNumber && next != LooseEqStep::RightToNumber
        },
{
}

/// How the ordering operators compare two values of given kinds.
#[derive(Debug, Clone, Copy, PartialEq, Eq, Structural)]
pub enum CompareStep {
    /// The values have no order
    Unordered,
    /// Two strings: in the order of their text
    Texts,
    /// Any other two primitive values: by their numeric values, a big integer by its
    /// exact value (no order when a value is not a number)
    Numbers,
}

/// How the ordering operators compare values of kinds `l` and `r`: objects have no
/// order, two strings are ordered by their text, and other primitive values by their
/// numeric values.
pub open spec fn compare_step_spec(l: ValueKind, r: ValueKind) -> CompareStep {
    if !l.primitive() || !r.primitive() {
        CompareStep::Unordered
    } else if l == ValueKind::String && r == ValueKind::String {
        CompareStep::Texts
    } else {
        CompareStep::Numbers
    }
}

/// How the ordering operators compare values of kinds `l` and `r` (see
/// `compare_step_spec`).
pub fn compare_step(l: ValueKind, r: ValueKind) -> (s: CompareStep)
    ensures
        s == compare_step_spec(l, r),
{
    if !l.is_primitive() || !r.is_primitive() {
        CompareStep::Unordered
    } else if l == ValueKind::String && r == ValueKind::String {
        CompareStep::Texts
    } else {
        CompareStep::Numbers
    }
}

/// The ordering operators order every two primitive values: two strings by their
/// text, any other two by their numeric values; only an object on either side leaves
/// them unordered.
pub proof fn law_ordering_by_kind(l: ValueKind, r: ValueKind)
    ensures
        compare_step_spec(l, r) == CompareStep::Unordered <==> (l == ValueKind::Object || r
            == ValueKind::Object),
        compare_step_spec(l, r) == CompareStep::Texts <==> (l == ValueKind::String && r
            == ValueKind::String),
        compare_step_spec(l, r) == CompareStep::Numbers <==> (l != ValueKind::Object && r
            != ValueKind::Object && !(l == ValueKind::String && r == ValueKind::String)),
{
}

} // verus!
