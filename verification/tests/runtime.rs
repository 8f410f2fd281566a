use dreamberd_noodles_interpreter::interpreter::runtime::stdlib::{check_assertion, type_of};
use dreamberd_noodles_interpreter::interpreter::runtime::value::equality::{
    compare_step, loose_eq_step, CompareStep, LooseEqStep, ValueKind,
};
use dreamberd_noodles_interpreter::interpreter::runtime::value::object::{
    array_key, object_text, PropertyText,
};
use dreamberd_noodles_interpreter::interpreter::error::Error as InterpreterError;
use dreamberd_noodles_interpreter::interpreter::runtime::error::Error;
use dreamberd_noodles_interpreter::interpreter::evaluators::variable::VarType;
use dreamberd_noodles_interpreter::interpreter::runtime::state::{
    choose_definition, DefineKind, InterpreterState, Variable, VariableState,
};
use dreamberd_noodles_interpreter::interpreter::runtime::text::push_decimal;
use dreamberd_noodles_interpreter::interpreter::runtime::value::symbol::Symbol;
use dreamberd_noodles_interpreter::interpreter::parsers::LifeTime;

fn state() -> InterpreterState<i64, u8> {
    InterpreterState::new()
}

fn value_of(state: &InterpreterState<i64, u8>, name: &str) -> Option<i64> {
    state.get_var(name).map(|v| v.value)
}

#[test]
fn error_messages() {
    assert_eq!(Error::FunctionNotFound("f".to_string()).message(), "Function f not found");
    assert_eq!(
        Error::InvalidArgumentCount { expected: 2, got: 13 }.message(),
        "Invalid argument count, expected 2, got 13"
    );
    assert_eq!(Error::RuntimeException("boom".to_string()).message(), "Runtime exception: boom");
    assert_eq!(Error::VariableNotFound("x".to_string()).message(), "Variable x not found");
    let wrapped: InterpreterError = Error::VariableNotFound("y".to_string()).into();
    assert_eq!(wrapped.message(), "Failed to evaluate: Variable y not found");
}

#[test]
fn decimal_notation() {
    let mut out = Vec::new();
    push_decimal(&mut out, 0);
    push_decimal(&mut out, 907);
    assert_eq!(out.iter().collect::<String>(), "0907");
}

#[test]
fn symbol_display_and_equality() {
    let a = Symbol { description: Some("apple".to_string()), id: 1 };
    let b = Symbol { description: None, id: 1 };
    let c = Symbol { description: Some("apple".to_string()), id: 2 };
    assert_eq!(a.to_display_string(), "Symbol(apple)");
    assert_eq!(b.to_display_string(), "Symbol()");
    assert!(a == b);
    assert!(a != c);
}

#[test]
fn var_types() {
    assert!(VarType::VarVar.allows_reassign());
    assert!(VarType::VarConst.allows_reassign());
    assert!(!VarType::ConstVar.allows_reassign());
    assert!(!VarType::ConstConst.allows_reassign());
    assert!(VarType::VarVar.allows_mutation());
    assert!(VarType::ConstVar.allows_mutation());
    assert!(!VarType::VarConst.allows_mutation());
    assert!(!VarType::ConstConst.allows_mutation());
}

#[test]
fn set_value_keeps_previous() {
    let mut v = Variable { value: 1, previous: 1, line: 0, type_: VarType::VarVar, life_time: None };
    v.set_value(5);
    assert_eq!((v.value, v.previous), (5, 1));
    let mut c = Variable { value: 1, previous: 1, line: 0, type_: VarType::ConstConst, life_time: None };
    c.set_value(5);
    assert_eq!((c.value, c.previous), (1, 1));
}

#[test]
fn variable_state_declare_get_remove() {
    let mut vars: VariableState<i64> = VariableState::new();
    vars.declare_var("a", 3, 2, VarType::ConstConst, Some(LifeTime::Lines(4)));
    vars.declare_var("b", 4, 2, VarType::VarVar, None);
    vars.declare_var("a", 7, 5, VarType::VarVar, None);
    assert_eq!(vars.len(), 2);
    let a = vars.get_var("a").unwrap();
    assert_eq!((a.value, a.previous, a.line), (7, 7, 5));
    assert!(vars.set_var("b", 9));
    assert!(!vars.set_var("c", 9));
    assert_eq!(vars.get_var("b").unwrap().previous, 4);
    vars.remove_var("a");
    assert!(vars.get_var("a").is_none());
    assert!(vars.contains("b"));
    assert_eq!(vars.len(), 1);
}

#[test]
fn split_and_absorb_by_line() {
    let mut vars: VariableState<i64> = VariableState::new();
    vars.declare_var("early", 1, 1, VarType::VarVar, None);
    vars.declare_var("late", 2, 9, VarType::VarVar, None);
    let (keep, moved) = vars.split_by_line(4);
    assert!(keep.contains("early") && !keep.contains("late"));
    assert!(moved.contains("late") && !moved.contains("early"));
    let mut keep = keep;
    keep.absorb_after_line(moved, 4);
    assert!(keep.contains("early") && keep.contains("late"));
}

#[test]
fn push_scope_moves_hoisted_variables() {
    let mut s = state();
    s.add_var("early", 1, 1, VarType::VarVar, None);
    s.add_var("late", 2, 10, VarType::VarVar, None);
    s.push_scope(5);
    assert_eq!(s.scope_depth(), 2);
    s.add_var("inner", 3, 6, VarType::VarVar, None);
    assert_eq!(value_of(&s, "late"), Some(2));
    assert_eq!(value_of(&s, "inner"), Some(3));
    s.pop_scope(7);
    assert_eq!(s.scope_depth(), 1);
    // the inner variable was usable before line 7 and is gone, the hoisted one is back
    assert_eq!(value_of(&s, "inner"), None);
    assert_eq!(value_of(&s, "late"), Some(2));
    assert_eq!(value_of(&s, "early"), Some(1));
}

#[test]
fn pop_scope_never_closes_the_outermost() {
    let mut s = state();
    s.add_var("x", 1, 0, VarType::VarVar, None);
    s.pop_scope(3);
    assert_eq!(s.scope_depth(), 1);
    assert_eq!(value_of(&s, "x"), Some(1));
}

#[test]
fn set_var_assigns_or_declares_globally() {
    let mut s = state();
    s.add_var("x", 1, 0, VarType::VarVar, None);
    s.add_var("k", 1, 0, VarType::ConstConst, None);
    s.push_scope(1);
    s.set_var("x", 2, 2);
    s.set_var("k", 2, 2);
    s.set_var("fresh", 5, 3);
    let x = s.get_var("x").unwrap();
    assert_eq!((x.value, x.previous), (2, 1));
    assert_eq!(s.get_var("k").unwrap().value, 1);
    s.pop_scope(4);
    let fresh = s.get_var("fresh").unwrap();
    assert_eq!((fresh.value, fresh.line, fresh.type_), (5, 3, VarType::VarVar));
    assert_eq!(s.find_var("fresh"), Some((0, 0)));
}

#[test]
fn lookup_searches_earlier_calls_first() {
    let mut s = state();
    s.add_var("x", 1, 0, VarType::VarVar, None);
    s.push_call();
    assert_eq!(s.call_depth(), 2);
    s.add_var("x", 2, 0, VarType::VarVar, None);
    assert_eq!(value_of(&s, "x"), Some(1));
    assert_eq!(s.find_var("x"), Some((0, 0)));
    s.pop_call();
    assert_eq!(s.call_depth(), 1);
}

#[test]
fn whens_and_reverse() {
    let mut s = state();
    s.push_when(7);
    assert!(!s.is_reversed());
    s.toggle_reverse();
    assert!(s.is_reversed());
    s.toggle_reverse();
    assert!(!s.is_reversed());
}

#[test]
fn definitions_of_a_name() {
    assert_eq!(choose_definition(None, None, false), None);
    assert_eq!(choose_definition(None, Some(3), false), Some(DefineKind::Var));
    assert_eq!(choose_definition(Some(Some(5)), None, false), Some(DefineKind::Func));
    assert_eq!(choose_definition(Some(Some(5)), Some(9), true), Some(DefineKind::Func));
    assert_eq!(choose_definition(Some(Some(5)), Some(9), false), Some(DefineKind::Var));
    assert_eq!(choose_definition(Some(Some(5)), Some(5), false), Some(DefineKind::Func));
    assert_eq!(choose_definition(Some(None), Some(0), false), Some(DefineKind::Var));
}

#[test]
fn whens_are_listed_in_scope_order() {
    let mut s = state();
    s.push_when(1);
    s.push_scope(0);
    s.push_when(2);
    s.push_when(3);
    s.push_call();
    s.push_when(4);
    let listed: Vec<u8> = s.whens().into_iter().copied().collect();
    assert_eq!(listed, vec![1, 2, 3, 4]);
}

#[test]
fn forget_removes_the_visible_variable() {
    let mut s = state();
    s.add_var("x", 1, 0, VarType::VarVar, None);
    s.push_scope(0);
    s.add_var("x", 2, 1, VarType::VarVar, None);
    s.forget_var("x");
    assert_eq!(value_of(&s, "x"), Some(1));
    s.forget_var("x");
    assert_eq!(value_of(&s, "x"), None);
    s.forget_var("x");
    assert_eq!(s.scope_depth(), 2);
}

#[test]
fn closing_a_scope_right_after_opening_it_changes_nothing() {
    let mut s = state();
    s.add_var("a", 1, 2, VarType::VarVar, None);
    s.add_var("b", 2, 8, VarType::ConstConst, None);
    s.push_scope(5);
    assert_eq!(value_of(&s, "a"), Some(1));
    assert_eq!(value_of(&s, "b"), Some(2));
    s.pop_scope(5);
    assert_eq!(s.scope_depth(), 1);
    assert_eq!(s.find_var("a"), Some((0, 0)));
    assert_eq!(s.find_var("b"), Some((0, 0)));
    assert_eq!(s.get_var("b").unwrap().line, 8);
}

#[test]
fn array_keys() {
    assert_eq!(array_key(0), "-1");
    assert_eq!(array_key(1), "0");
    assert_eq!(array_key(2), "1");
    assert_eq!(array_key(12), "11");
}

#[test]
fn object_texts() {
    assert_eq!(object_text(&vec![]), "{}");
    let entries = vec![
        ("a".to_string(), PropertyText::Shown("1".to_string())),
        ("b".to_string(), PropertyText::Quoted("x\ny".to_string())),
    ];
    assert_eq!(object_text(&entries), "{\n  a: 1,\n  b: 'x\\ny'\n}");
    // the lines of a nested object are indented
    let inner = object_text(&vec![("c".to_string(), PropertyText::Shown("null".to_string()))]);
    let outer = object_text(&vec![("d".to_string(), PropertyText::Shown(inner))]);
    assert_eq!(outer, "{\n  d: {\n    c: null\n  }\n}");
}

#[test]
fn loose_equality_steps() {
    assert_eq!(loose_eq_step(ValueKind::Number, ValueKind::Number), LooseEqStep::SameKind);
    assert_eq!(loose_eq_step(ValueKind::Object, ValueKind::Object), LooseEqStep::SameKind);
    assert_eq!(loose_eq_step(ValueKind::Object, ValueKind::Number), LooseEqStep::Unequal);
    assert_eq!(loose_eq_step(ValueKind::String, ValueKind::Object), LooseEqStep::Unequal);
    assert_eq!(loose_eq_step(ValueKind::Symbol, ValueKind::Boolean), LooseEqStep::Unequal);
    assert_eq!(loose_eq_step(ValueKind::Boolean, ValueKind::Symbol), LooseEqStep::Unequal);
    assert_eq!(loose_eq_step(ValueKind::Number, ValueKind::Symbol), LooseEqStep::Unequal);
    assert_eq!(loose_eq_step(ValueKind::Undefined, ValueKind::Number), LooseEqStep::Unequal);
    assert_eq!(loose_eq_step(ValueKind::String, ValueKind::Undefined), LooseEqStep::Unequal);
    assert_eq!(loose_eq_step(ValueKind::Boolean, ValueKind::Undefined), LooseEqStep::LeftToNumber);
    assert_eq!(loose_eq_step(ValueKind::String, ValueKind::Boolean), LooseEqStep::RightToNumber);
    assert_eq!(loose_eq_step(ValueKind::Number, ValueKind::String), LooseEqStep::NumberString);
    assert_eq!(loose_eq_step(ValueKind::String, ValueKind::Number), LooseEqStep::StringNumber);
    assert_eq!(loose_eq_step(ValueKind::Number, ValueKind::BigInt), LooseEqStep::NumberBigInt);
    assert_eq!(loose_eq_step(ValueKind::BigInt, ValueKind::Number), LooseEqStep::BigIntNumber);
    assert_eq!(loose_eq_step(ValueKind::String, ValueKind::BigInt), LooseEqStep::StringBigInt);
    assert_eq!(loose_eq_step(ValueKind::BigInt, ValueKind::String), LooseEqStep::BigIntString);
    // after a boolean became a number, no second conversion follows
    assert_eq!(loose_eq_step(ValueKind::Boolean, ValueKind::String), LooseEqStep::LeftToNumber);
    assert_eq!(loose_eq_step(ValueKind::Number, ValueKind::String), LooseEqStep::NumberString);
    assert_eq!(loose_eq_step(ValueKind::BigInt, ValueKind::Boolean), LooseEqStep::RightToNumber);
    assert_eq!(loose_eq_step(ValueKind::BigInt, ValueKind::Number), LooseEqStep::BigIntNumber);
    assert!(ValueKind::Number.is_primitive());
    assert!(!ValueKind::Object.is_primitive());
}

#[test]
fn loose_equality_is_symmetric() {
    let kinds = [
        ValueKind::Number,
        ValueKind::Boolean,
        ValueKind::BigInt,
        ValueKind::String,
        ValueKind::Undefined,
        ValueKind::Object,
        ValueKind::Symbol,
    ];
    let mirrored = |s: LooseEqStep| match s {
        LooseEqStep::LeftToNumber => LooseEqStep::RightToNumber,
        LooseEqStep::RightToNumber => LooseEqStep::LeftToNumber,
        LooseEqStep::NumberString => LooseEqStep::StringNumber,
        LooseEqStep::StringNumber => LooseEqStep::NumberString,
        LooseEqStep::NumberBigInt => LooseEqStep::BigIntNumber,
        LooseEqStep::BigIntNumber => LooseEqStep::NumberBigInt,
        LooseEqStep::StringBigInt => LooseEqStep::BigIntString,
        LooseEqStep::BigIntString => LooseEqStep::StringBigInt,
        other => other,
    };
    for l in kinds {
        for r in kinds {
            assert_eq!(loose_eq_step(r, l), mirrored(loose_eq_step(l, r)));
        }
    }
}

#[test]
fn ordering_steps() {
    assert_eq!(compare_step(ValueKind::String, ValueKind::String), CompareStep::Texts);
    assert_eq!(compare_step(ValueKind::String, ValueKind::Number), CompareStep::Numbers);
    assert_eq!(compare_step(ValueKind::BigInt, ValueKind::Boolean), CompareStep::Numbers);
    assert_eq!(compare_step(ValueKind::Object, ValueKind::Number), CompareStep::Unordered);
    assert_eq!(compare_step(ValueKind::Number, ValueKind::Object), CompareStep::Unordered);
}

#[test]
fn typeof_names() {
    assert_eq!(type_of(None), "undefined");
    assert_eq!(type_of(Some(ValueKind::Number)), "number");
    assert_eq!(type_of(Some(ValueKind::BigInt)), "bigint");
    assert_eq!(type_of(Some(ValueKind::Object)), "object");
    assert_eq!(type_of(Some(ValueKind::Symbol)), "symbol");
}

#[test]
fn assertions() {
    assert!(check_assertion(1, Some(true)).is_ok());
    match check_assertion(1, Some(false)) {
        Err(Error::RuntimeException(text)) => assert_eq!(text, "Assertion failed"),
        other => panic!("unexpected: {:?}", other),
    }
    match check_assertion(1, None) {
        Err(Error::RuntimeException(text)) => assert_eq!(text, "Assertion failed, not a boolean"),
        other => panic!("unexpected: {:?}", other),
    }
    match check_assertion(2, Some(true)) {
        Err(Error::InvalidArgumentCount { expected, got }) => assert_eq!((expected, got), (1, 2)),
        other => panic!("unexpected: {:?}", other),
    }
    assert!(matches!(check_assertion(0, None), Err(Error::InvalidArgumentCount { expected: 1, got: 0 })));
}

#[test]
fn a_call_leaves_its_caller_as_it_was() {
    let mut s = state();
    s.add_var("x", 1, 0, VarType::VarVar, None);
    s.push_call();
    s.push_scope(3);
    s.add_var("y", 2, 3, VarType::VarVar, None);
    s.push_scope(4);
    s.pop_call();
    assert_eq!(s.call_depth(), 1);
    assert_eq!(s.scope_depth(), 1);
    assert_eq!(value_of(&s, "x"), Some(1));
    assert_eq!(value_of(&s, "y"), None);
}
