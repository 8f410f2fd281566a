use dreamberd_noodles_interpreter::interpreter::evaluators::conditional::{
    condition_words, first_change, if_parts, when_parts, Watch,
};
use dreamberd_noodles_interpreter::interpreter::evaluators::scope::{closed_scope, scope};
use dreamberd_noodles_interpreter::interpreter::evaluators::function::{
    first_arg, function_args, function_body, function_def_head, function_header, next_arg, return_head,
    ArgStep,
};
use dreamberd_noodles_interpreter::interpreter::evaluators::statement::{
    block_step, implicit_statement, ScopeMark,
};
use dreamberd_noodles_interpreter::interpreter::evaluators::variable::{
    var_type_at, VarSetHead, VarSetOp, VarType, VariableDeclHead,
};
use dreamberd_noodles_interpreter::interpreter::runtime::state::InterpreterState;
use dreamberd_noodles_interpreter::interpreter::parsers::types::Position;
use dreamberd_noodles_interpreter::interpreter::parsers::{LifeTime, ParseError};

fn chars(s: &str) -> Vec<char> {
    s.chars().collect()
}

#[test]
fn assignment_operators() {
    let cases = [
        ("=", 1, VarSetOp::Equals),
        ("&=", 2, VarSetOp::And),
        ("|=", 2, VarSetOp::Or),
        ("+=", 2, VarSetOp::Add),
        ("++", 2, VarSetOp::AddOne),
        ("--", 2, VarSetOp::SubOne),
        ("-=", 2, VarSetOp::Subtract),
        ("*=", 2, VarSetOp::Multiply),
        ("^=", 2, VarSetOp::Exponential),
        ("/=", 2, VarSetOp::Divide),
        ("%=", 2, VarSetOp::Modulo),
    ];
    for (text, end, op) in cases {
        assert_eq!(VarSetOp::parse(&chars(text), 0), Some((end, op)));
    }
    assert_eq!(VarSetOp::parse(&chars("=="), 0), Some((1, VarSetOp::Equals)));
    assert_eq!(VarSetOp::parse(&chars("+"), 0), None);
    assert!(VarSetOp::AddOne.takes_no_expression());
    assert!(!VarSetOp::Add.takes_no_expression());
    assert!(!VarSetOp::Equals.reads_variable());
    assert!(VarSetOp::Modulo.reads_variable());
}

#[test]
fn declaration_types() {
    assert_eq!(var_type_at(&chars("const const x"), 0), Some((11, VarType::ConstConst)));
    assert_eq!(var_type_at(&chars("var var x"), 0), Some((7, VarType::VarVar)));
    assert_eq!(var_type_at(&chars("const var x"), 0), Some((9, VarType::ConstVar)));
    assert_eq!(var_type_at(&chars("var  const x"), 0), Some((10, VarType::VarConst)));
    assert_eq!(var_type_at(&chars("varvar x"), 0), None);
    assert_eq!(var_type_at(&chars("let x"), 0), None);
}

#[test]
fn declaration_heads() {
    let input = Position::new("const var name<-2> = 1 + 1!");
    let (rest, head) = VariableDeclHead::parse(&input).unwrap();
    assert_eq!(head.name, "name");
    assert_eq!(head.type_, VarType::ConstVar);
    assert_eq!(head.life_time, Some(LifeTime::Lines(-2)));
    assert_eq!(head.line, 1);
    assert_eq!(rest.input_string(), "1 + 1!");

    // the name runs up to whitespace, so it takes the `=` with it
    assert!(matches!(VariableDeclHead::parse(&Position::new("var var x=5!")), Err(ParseError::Error)));
    assert!(matches!(VariableDeclHead::parse(&Position::new("var var x 5!")), Err(ParseError::Error)));

    let (rest, head) = VariableDeclHead::parse(&Position::new("var var x =5!")).unwrap();
    assert_eq!(head.name, "x");
    assert_eq!(rest.input_string(), "5!");
}

#[test]
fn function_keywords() {
    assert_eq!(function_header(&chars("function f"), 0), Some(8));
    assert_eq!(function_header(&chars("fn f"), 0), Some(2));
    assert_eq!(function_header(&chars("func f"), 0), Some(4));
    assert_eq!(function_header(&chars("union f"), 0), Some(5));
    assert_eq!(function_header(&chars("fnu f"), 0), None);
    assert_eq!(function_header(&chars("fx f"), 0), None);
    assert_eq!(function_header(&chars("x f"), 0), None);
    assert_eq!(function_header(&chars(" fn"), 0), None);
}

#[test]
fn function_definition_heads() {
    let (rest, name) = function_def_head(&Position::new("fn add  a, b => a + b!")).unwrap();
    assert_eq!(name, "add");
    assert_eq!(rest.input_string(), "a, b => a + b!");
    let (rest, name) = function_def_head(&Position::new("fn one=> 1!")).unwrap();
    assert_eq!(name, "one");
    assert_eq!(rest.input_string(), "=> 1!");
    assert!(function_def_head(&Position::new("let x => 1!")).is_err());
}

#[test]
fn function_arguments() {
    let s = chars("a, b ,c => a!");
    let (spans, body) = function_args(&s, 0).unwrap();
    assert_eq!(spans, vec![(0, 1), (3, 4), (6, 7)]);
    assert_eq!(body, 11);
    let (spans, body) = function_args(&chars(" => 1!"), 0).unwrap();
    assert!(spans.is_empty());
    assert_eq!(body, 4);
    assert!(function_args(&chars("a b => 1!"), 0).is_none());
}

#[test]
fn return_statements() {
    assert_eq!(return_head(&chars("return  x!"), 0), Some(8));
    assert_eq!(return_head(&chars("return!"), 0), Some(6));
    assert_eq!(return_head(&chars("retur x!"), 0), None);
}

#[test]
fn implicit_strings() {
    let s = chars("hello world! next");
    assert_eq!(implicit_statement(&s, 0), (12, 11));
    let s = chars("a  !!b");
    assert_eq!(implicit_statement(&s, 0), (5, 1));
    let s = chars("no end here");
    assert_eq!(implicit_statement(&s, 0), (11, 11));
}

#[test]
fn block_depth() {
    assert_eq!(block_step(1, ScopeMark::Open), Some(2));
    assert_eq!(block_step(2, ScopeMark::Close), Some(1));
    assert_eq!(block_step(1, ScopeMark::Close), None);
    assert_eq!(block_step(3, ScopeMark::Other), Some(3));
}

#[test]
fn when_condition_words() {
    assert_eq!(condition_words(&chars("a == b")), vec!["a", "==", "b"]);
    assert_eq!(condition_words(&chars("x>1")), vec!["x>1"]);
    assert!(condition_words(&chars("")).is_empty());
}

#[test]
fn assignment_heads() {
    let mut state: InterpreterState<i32, ()> = InterpreterState::new();

    let (rest, head) = VarSetHead::parse(&Position::new("x = 5!"), &state).unwrap().unwrap();
    assert_eq!((head.name.as_str(), head.op), ("x", VarSetOp::Equals));
    assert_eq!(rest.input_string(), "5!");

    // reading operators need the variable
    assert!(VarSetHead::parse(&Position::new("x += 5!"), &state).unwrap().is_none());
    state.add_var("x", 1, 0, VarType::VarVar, None);
    let (rest, head) = VarSetHead::parse(&Position::new("x+=5!"), &state).unwrap().unwrap();
    assert_eq!((head.name.as_str(), head.op), ("x", VarSetOp::Add));
    assert_eq!(rest.input_string(), "5!");

    let (rest, head) = VarSetHead::parse(&Position::new("x++! next"), &state).unwrap().unwrap();
    assert_eq!(head.op, VarSetOp::AddOne);
    assert_eq!(rest.input_string(), " next");
    assert!(VarSetHead::parse(&Position::new("x++ 1!"), &state).unwrap().is_none());
    assert!(VarSetHead::parse(&Position::new("print x!"), &state).unwrap().is_none());
    assert!(VarSetHead::parse(&Position::new("x<99999999999999999999999> = 1!"), &state).is_err());
}

#[test]
fn scope_bodies() {
    // a block ends after the `}` that closes it
    let s = chars("{ print 1! }rest");
    assert_eq!(scope(&s, 0), Some(12));
    // nested blocks keep the count
    let s = chars("{ { a! } b! } c!");
    assert_eq!(scope(&s, 0), Some(13));
    // braces inside a statement are passed over with it
    let s = chars("{ x{y! }z");
    assert_eq!(scope(&s, 0), Some(8));
    // a block that never closes takes the rest of the text
    let s = chars("{ a! { b!");
    assert_eq!(scope(&s, 0), Some(9));
    // no block without `{`
    let s = chars("a! }");
    assert_eq!(scope(&s, 0), None);
    assert_eq!(scope(&s, 4), None);
}

#[test]
fn function_bodies() {
    let s = chars("{ return 1! } next!");
    assert_eq!(function_body(&s, 0), (13, 13));
    let s = chars("x + 1! next!");
    assert_eq!(function_body(&s, 0), (5, 6));
    let s = chars("text");
    assert_eq!(function_body(&s, 0), (4, 4));
}

#[test]
fn when_statements() {
    let s = chars("when x == 5  { print x! } after!");
    let parts = when_parts(&s, 0).unwrap();
    assert_eq!(parts.condition_start, 5);
    assert_eq!(parts.condition_end, 11);
    assert_eq!(parts.body_start, 13);
    assert_eq!(parts.body_end, 25);
    assert_eq!(parts.end, 25);

    // an `else` branch right after the body belongs to the statement
    let s = chars("when a {b!}else {c!} d!");
    let parts = when_parts(&s, 0).unwrap();
    assert_eq!((parts.body_start, parts.body_end, parts.end), (7, 11, 20));

    // so does an `else when` chain
    let s = chars("when a {b!}else when c {d!}else {e!}");
    let parts = when_parts(&s, 0).unwrap();
    assert_eq!(parts.body_end, 11);
    assert_eq!(parts.end, s.len());

    // an `else` after whitespace does not
    let s = chars("when a {b!} else {c!}");
    assert_eq!(when_parts(&s, 0).unwrap().end, 11);

    // no body, no keyword, no whitespace after the keyword
    assert!(when_parts(&chars("when a b!"), 0).is_none());
    assert!(when_parts(&chars("whenever {a!}"), 0).is_none());
    assert!(when_parts(&chars("if a {b!}"), 0).is_none());
}

#[test]
fn watched_names() {
    assert_eq!(first_change(&[]), None);
    assert_eq!(first_change(&[Watch::Unset, Watch::Held(true)]), None);
    assert_eq!(first_change(&[Watch::Held(true), Watch::Appeared, Watch::Held(false)]), Some(1));
    assert_eq!(first_change(&[Watch::Unset, Watch::Held(false)]), Some(1));
    assert_eq!(first_change(&[Watch::Held(false), Watch::Appeared]), Some(0));
}

#[test]
fn closed_blocks() {
    let s = chars("{ a! } b!");
    assert_eq!(closed_scope(&s, 0), Some(6));
    // a block that runs to the end of the text does not close
    let s = chars("{ a! { b! }");
    assert_eq!(scope(&s, 0), Some(11));
    assert_eq!(closed_scope(&s, 0), None);
    assert_eq!(closed_scope(&chars("x"), 0), None);
}

#[test]
fn if_statements() {
    let s = chars("if x == 1 {a!}");
    let parts = if_parts(&s, 0).unwrap();
    assert_eq!(parts.branches.len(), 1);
    let b = parts.branches[0];
    assert_eq!((b.condition_start, b.condition_end, b.block_start, b.block_end), (3, 9, 10, 14));
    assert!(parts.else_block.is_none());
    assert_eq!(parts.end, 14);

    // `else if` branches and a last `else`, with whitespace before each `else`
    let s = chars("if a {b!} else if c {d!}\nelse {e!} f!");
    let parts = if_parts(&s, 0).unwrap();
    assert_eq!(parts.branches.len(), 2);
    assert_eq!((parts.branches[1].condition_start, parts.branches[1].condition_end), (18, 19));
    assert_eq!((parts.branches[1].block_start, parts.branches[1].block_end), (20, 24));
    assert_eq!(parts.else_block, Some((30, 34)));
    assert_eq!(parts.end, 34);

    // an `else` that is followed by neither an `if` nor a block is not part of it
    let s = chars("if a {b!} else c!");
    assert_eq!(if_parts(&s, 0).unwrap().end, 9);

    // a block that does not close, or no block at all, is no `if` statement
    assert!(if_parts(&chars("if a {b!"), 0).is_none());
    assert!(if_parts(&chars("if a b!"), 0).is_none());
    assert!(if_parts(&chars("iffy {a!}"), 0).is_none());
}

#[test]
fn call_arguments() {
    // a function without arguments ends at its name
    assert_eq!(first_arg(&chars("f!"), 1, 0), ArgStep::Done(1));
    // with arguments the statement must go on
    assert_eq!(first_arg(&chars("f!"), 1, 2), ArgStep::Fail);
    assert_eq!(first_arg(&chars("f  a, b!"), 1, 2), ArgStep::Parse(3));
    // after an argument: a comma leads to the next one, or the call ends
    let s = chars("f a , b !");
    assert_eq!(next_arg(&s, 3, 1, 2), ArgStep::Parse(6));
    assert_eq!(next_arg(&s, 7, 2, 2), ArgStep::Done(8));
    assert_eq!(next_arg(&s, 7, 1, 3), ArgStep::Fail);
}
