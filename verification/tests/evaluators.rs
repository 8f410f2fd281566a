use dreamberd_noodles_interpreter::cli::{prompt_takes_expression, shown_results, Cli};
use dreamberd_noodles_interpreter::interpreter::ast::uncertain::{
    raw_string_to_proper, UncertainExpr, UncertainString,
};
use dreamberd_noodles_interpreter::interpreter::ast::AnalysisProgress;
use dreamberd_noodles_interpreter::interpreter::evaluators::control_flow::Reverse;
use dreamberd_noodles_interpreter::interpreter::evaluators::scope::{ScopeEnd, ScopeStart};
use dreamberd_noodles_interpreter::interpreter::parsers::types::Position;
use dreamberd_noodles_interpreter::interpreter::parsers::ParseError;
use dreamberd_noodles_interpreter::interpreter::evaluators::variable::VarType;
use dreamberd_noodles_interpreter::interpreter::runtime::state::InterpreterState;
use dreamberd_noodles_interpreter::interpreter::runtime::stdlib::{standard_library, StdItem};
use dreamberd_noodles_interpreter::interpreter::{Interpreter, InterpreterBuilder};
use dreamberd_noodles_interpreter::prelude::Wrapper;

#[test]
fn raw_strings() {
    assert_eq!(raw_string_to_proper("  \"hello\"  "), "hello");
    assert_eq!(raw_string_to_proper("'\"nested\"'"), "nested");
    assert_eq!(raw_string_to_proper("\"mismatch'"), "\"mismatch'");
    assert_eq!(raw_string_to_proper("\"a\\nb\""), "a\nb");
    assert_eq!(raw_string_to_proper("say \\\"hi\\\""), "say \"hi\"");
    assert_eq!(raw_string_to_proper("back\\\\slash"), "back\\slash");
    assert_eq!(raw_string_to_proper("it\\'s"), "it's");
    assert_eq!(raw_string_to_proper("\u{3000}x\u{a0}"), "x");
    assert_eq!(raw_string_to_proper("\""), "\"");
    assert_eq!(raw_string_to_proper(""), "");
}

#[test]
fn uncertain_values() {
    let e = UncertainExpr::new("'abc'".to_string());
    assert_eq!(e.as_string(), "abc");
    let s = UncertainString::new(" hi ".to_string());
    assert_eq!(s.as_string(), "hi");
}

#[test]
fn scope_statements() {
    let mut input = Position::new("{ }");
    input.line = 4;
    let (rest, start) = ScopeStart::parse(&input).unwrap();
    assert_eq!(start.line, 4);
    assert_eq!(rest.input_string(), " }");
    assert!(matches!(ScopeEnd::parse(&input), Err(ParseError::Error)));
    let (rest, end) = ScopeEnd::parse(&rest.advance(1)).unwrap();
    assert_eq!(end.line, 4);
    assert_eq!(rest.input_string(), "");

    let mut state: InterpreterState<i32, ()> = InterpreterState::new();
    state.add_var("late", 1, 9, VarType::VarVar, None);
    assert!(start.eval(&mut state).is_ok());
    assert_eq!(state.scope_depth(), 2);
    assert!(end.eval(&mut state).is_ok());
    assert_eq!(state.scope_depth(), 1);
    assert!(state.get_var("late").is_some());
}

#[test]
fn reverse_statement() {
    let input = Position::new("reverse!! next");
    let (rest, rev) = Reverse::parse(&input).unwrap();
    assert_eq!(rest.input_string(), " next");
    assert_eq!(rest.index, 9);
    assert!(matches!(Reverse::parse(&Position::new("reverse next!")), Err(ParseError::Error)));
    assert!(matches!(Reverse::parse(&Position::new("revers!")), Err(ParseError::Error)));
    let mut state: InterpreterState<i32, ()> = InterpreterState::new();
    rev.eval(&mut state);
    assert!(state.is_reversed());
}

#[test]
fn builder_and_progress() {
    let out: Vec<u8> = Vec::new();
    let interpreter = InterpreterBuilder::with_stdout(out).build::<i32, ()>(Vec::new());
    assert!(interpreter.stdout.is_empty());
    assert_eq!(interpreter.state.call_depth(), 1);
    assert_eq!(interpreter.state.scope_depth(), 1);
    let progress = AnalysisProgress::new("global");
    assert_eq!(progress.scope_depth, vec!["global"]);
    assert!(progress.index_depth.is_empty());
    let cli = Cli { file: Some("a.db".to_string()) };
    assert!(cli.runs_script());
    assert!(!Cli { file: None }.runs_script());
    let w = Wrapper(3);
    assert_eq!(*w.inner(), 3);
}

#[test]
fn prompt_results() {
    assert_eq!(shown_results(&[]), 0);
    assert_eq!(shown_results(&[true, true]), 0);
    assert_eq!(shown_results(&[false, true, true]), 1);
    assert_eq!(shown_results(&[true, false]), 2);
    assert_eq!(shown_results(&[false, true, false, true]), 3);
}

#[test]
fn build_declares_the_standard_entries() {
    let entries = vec![("a".to_string(), 1i64), ("b".to_string(), 2), ("a".to_string(), 3)];
    let interpreter: Interpreter<(), i64, u8> = InterpreterBuilder::with_stdout(()).build(entries);
    assert_eq!(interpreter.state.get_var("a").map(|var| var.value), Some(3));
    assert_eq!(interpreter.state.get_var("b").map(|var| var.line), Some(0));
    assert!(interpreter.state.get_var("c").is_none());
    assert_eq!(interpreter.state.call_depth(), 1);
}

#[test]
fn standard_library_entries() {
    let names: Vec<(String, StdItem)> = standard_library();
    let expected = [
        ("assert", StdItem::Function(Some(1))),
        ("print", StdItem::Function(Some(1))),
        ("input", StdItem::Function(Some(1))),
        ("typeof", StdItem::Function(Some(1))),
        ("sleep", StdItem::Function(Some(1))),
        ("Object", StdItem::Variable),
        ("Function", StdItem::Variable),
        ("Array", StdItem::Variable),
        ("Array", StdItem::Function(None)),
    ];
    assert_eq!(names.len(), expected.len());
    for ((name, item), (want_name, want_item)) in names.iter().zip(expected.iter()) {
        assert_eq!(name, want_name);
        assert_eq!(item, want_item);
    }
}

#[test]
fn prompt_expressions() {
    assert!(prompt_takes_expression(true, false));
    assert!(!prompt_takes_expression(true, true));
    assert!(!prompt_takes_expression(false, false));
}
