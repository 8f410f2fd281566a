//! The standard library: what it declares, and the decisions of its native functions
//! (app code performs their input and output).
use vstd::prelude::*;
use crate::interpreter::runtime::error::Error;
use crate::interpreter::runtime::value::equality::ValueKind;

verus! {

/// The name of the type of a value of kind `k`, as `typeof` gives it.
pub open spec fn type_name_spec(k: ValueKind) -> Seq<char> {
    match k {
        ValueKind::Number => "number"@,
        ValueKind::Boolean => "boolean"@,
        ValueKind::BigInt => "bigint"@,
        ValueKind::String => "string"@,
        ValueKind::Undefined => "undefined"@,
        ValueKind::Symbol => "symbol"@,
        ValueKind::Object => "object"@,
    }
}

/// What `typeof` gives for the kind of its first argument, if there is one.
pub open spec fn type_of_spec(first: Option<ValueKind>) -> Seq<char> {
    match first {
        Some(k) => type_name_spec(k),
        None => type_name_spec(ValueKind::Undefined),
    }
}

/// What `typeof` gives for the kind of its first argument: the name of its type, and
/// `undefined` without an argument.
pub fn type_of(first: Option<ValueKind>) -> (r: &'static str)
    ensures
        r@ == type_of_spec(first),
{
    match first {
        Some(ValueKind::Number) => "number",
        Some(ValueKind::Boolean) => "boolean",
        Some(ValueKind::BigInt) => "bigint",
        Some(ValueKind::String) => "string",
        Some(ValueKind::Symbol) => "symbol",
        Some(ValueKind::Object) => "object",
        Some(ValueKind::Undefined) | None => "undefined",
    }
}

/// `typeof` gives the JavaScript name of a value's type: each name belongs to exactly
/// one kind of value (`number`, `boolean`, `bigint`, `string`, `undefined`, `symbol`,
/// `object`), and a missing argument counts as `undefined`.
pub proof fn law_typeof_names(k: ValueKind)
    ensures
        type_name_spec(k) == "number"@ <==> k == ValueKind::Number,
        type_name_spec(k) == "boolean"@ <==> k == ValueKind::Boolean,
        type_name_spec(k) == "bigint"@ <==> k == ValueKind::BigInt,
        type_name_spec(k) == "string"@ <==> k == ValueKind::String,
        type_name_spec(k) == "undefined"@ <==> k == ValueKind::Undefined,
        type_name_spec(k) == "symbol"@ <==> k == ValueKind::Symbol,
        type_name_spec(k) == "object"@ <==> k == ValueKind::Object,
        type_of_spec(Some(k)) == type_name_spec(k),
        type_of_spec(None) == "undefined"@,
{
    reveal_strlit("number");
    reveal_strlit("boolean");
    reveal_strlit("bigint");
    reveal_strlit("string");
    reveal_strlit("undefined");
    reveal_strlit("symbol");
    reveal_strlit("object");
    assert("number"@ != "boolean"@ && "number"@ != "bigint"@ && "number"@ != "string"@ && "number"@
        != "undefined"@ && "number"@ != "symbol"@ && "number"@ != "object"@) by {
        assert("number"@[0] != "boolean"@[0]);
        assert("number"@[0] != "bigint"@[0]);
        assert("number"@[0] != "string"@[0]);
        assert("number"@[0] != "undefined"@[0]);
        assert("number"@[0] != "symbol"@[0]);
        assert("number"@[0] != "object"@[0]);
    }
    assert("boolean"@ != "bigint"@ && "boolean"@ != "string"@ && "boolean"@ != "undefined"@
        && "boolean"@ != "symbol"@ && "boolean"@ != "object"@) by {
        assert("boolean"@.len() != "bigint"@.len());
        assert("boolean"@.len() != "string"@.len());
        assert("boolean"@.len() != "undefined"@.len());
        assert("boolean"@.len() != "symbol"@.len());
        assert("boolean"@.len() != "object"@.len());
    }
    assert("bigint"@ != "string"@ && "bigint"@ != "undefined"@ && "bigint"@ != "symbol"@ && "bigint"@
        != "object"@) by {
        assert("bigint"@[0] != "string"@[0]);
        assert("bigint"@.len() != "undefined"@.len());
        assert("bigint"@[0] != "symbol"@[0]);
        assert("bigint"@[0] != "object"@[0]);
    }
    assert("string"@ != "undefined"@ && "string"@ != "symbol"@ && "string"@ != "object"@) by {
        assert("string"@.len() != "undefined"@.len());
        assert("string"@[1] != "symbol"@[1]);
        assert("string"@[0] != "object"@[0]);
    }
    assert("undefined"@ != "symbol"@ && "undefined"@ != "object"@) by {
        assert("undefined"@.len() != "symbol"@.len());
        assert("undefined"@.len() != "object"@.len());
    }
    assert("symbol"@ != "object"@) by {
        assert("symbol"@[0] != "object"@[0]);
    }
}

/// What `assert` makes of its arguments: it takes exactly one, and passes when that
/// one is `true`.
/// # Arguments
/// - `arg_count`: how many arguments it got
/// - `first`: the first argument when it is a boolean, none when it is another value
///   or missing
pub fn check_assertion(arg_count: usize, first: Option<bool>) -> (r: Result<(), Error>)
    ensures
        arg_count != 1 ==> (r matches Err(Error::InvalidArgumentCount { expected, got })
            && expected == 1 && got == arg_count),
        arg_count == 1 && first == Some(true) ==> r is Ok,
        arg_count == 1 && first == Some(false) ==> (r matches Err(Error::RuntimeException(text))
            && text@ == "Assertion failed"@),
        arg_count == 1 && first is None ==> (r matches Err(Error::RuntimeException(text)) && text@
            == "Assertion failed, not a boolean"@),
{
    if arg_count != 1 {
        return Err(Error::InvalidArgumentCount { expected: 1, got: arg_count });
    }
    match first {
        Some(true) => Ok(()),
        Some(false) => Err(Error::RuntimeException("Assertion failed".to_owned())),
        None => Err(Error::RuntimeException("Assertion failed, not a boolean".to_owned())),
    }
}

/// What the standard library declares under a name.
#[derive(Debug, Clone, Copy, PartialEq, Eq, Structural)]
pub enum StdItem {
    /// A native function that takes this many arguments when called by name (none: it
    /// accepts any number, and a call by name passes none)
    Function(Option<usize>),
    /// A variable holding an object
    Variable,
}

/// What the standard library declares, in order: the functions `assert`, `print`,
/// `input`, `typeof` and `sleep` of one argument each, the variables `Object`,
/// `Function` and `Array`, and then the function `Array`, which takes any number of
/// arguments and so replaces the variable of that name.
pub open spec fn standard_library_spec() -> Seq<(Seq<char>, StdItem)> {
    seq![
        ("assert"@, StdItem::Function(Some(1))),
        ("print"@, StdItem::Function(Some(1))),
        ("input"@, StdItem::Function(Some(1))),
        ("typeof"@, StdItem::Function(Some(1))),
        ("sleep"@, StdItem::Function(Some(1))),
        ("Object"@, StdItem::Variable),
        ("Function"@, StdItem::Variable),
        ("Array"@, StdItem::Variable),
        ("Array"@, StdItem::Function(None)),
    ]
}

/// The entries that the standard library declares (see `standard_library_spec`).
pub fn standard_library() -> (r: Vec<(String, StdItem)>)
    ensures
        r@.len() == standard_library_spec().len(),
        forall|k: int| 0 <= k < r@.len() ==> (#[trigger] r@[k]).0@ == standard_library_spec()[k].0
            && r@[k].1 == standard_library_spec()[k].1,
{
    let mut r: Vec<(String, StdItem)> = Vec::new();
    r.push(("assert".to_owned(), StdItem::Function(Some(1))));
    r.push(("print".to_owned(), StdItem::Function(Some(1))));
    r.push(("input".to_owned(), StdItem::Function(Some(1))));
    r.push(("typeof".to_owned(), StdItem::Function(Some(1))));
    r.push(("sleep".to_owned(), StdItem::Function(Some(1))));
    r.push(("Object".to_owned(), StdItem::Variable));
    r.push(("Function".to_owned(), StdItem::Variable));
    r.push(("Array".to_owned(), StdItem::Variable));
    r.push(("Array".to_owned(), StdItem::Function(None)));
    r
}

} // verus!
