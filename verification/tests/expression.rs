use dreamberd_noodles_interpreter::interpreter::evaluators::expression::{
    build_expression, op_chunk, unary_prefix, Expression, OpItem, Operator, UnaryGroup,
    UnaryOperator,
};
use dreamberd_noodles_interpreter::interpreter::parsers::types::Position;
use dreamberd_noodles_interpreter::interpreter::runtime::value::literal::{
    literal_at, LitStep, Literal,
};

fn chars(s: &str) -> Vec<char> {
    s.chars().collect()
}

fn show(e: &Expression<i32>) -> String {
    match e {
        Expression::Atom(a) => a.to_string(),
        Expression::UnaryOperation { operator, right } => {
            let op = match operator {
                UnaryOperator::Not => ";",
                UnaryOperator::Minus => "-",
            };
            format!("({}{})", op, show(right))
        }
        Expression::Operation { left, operator, right } => {
            let op = match operator {
                Operator::Add => "+",
                Operator::Subtract => "-",
                Operator::Multiply => "*",
                Operator::Divide => "/",
                Operator::Exponential => "^",
                Operator::Equal => "==",
                _ => "?",
            };
            format!("({} {} {})", show(left), op, show(right))
        }
    }
}

fn atom(a: i32) -> Expression<i32> {
    Expression::Atom(a)
}

fn item(op: Operator, ws: usize, a: i32) -> OpItem<i32> {
    OpItem { op, ws, right: atom(a), unaries: Vec::new() }
}

fn group(ops: Vec<UnaryOperator>, ws: usize) -> UnaryGroup {
    UnaryGroup { ops, ws }
}

#[test]
fn operators_parse_longest_spelling_first() {
    let cases = [
        ("===", 3, "StrictEqual"),
        ("==", 2, "Equal"),
        (";==", 3, "StrictNotEqual"),
        (";=", 2, "NotEqual"),
        (">=", 2, "GreaterThanOrEqual"),
        (">", 1, "GreaterThan"),
        ("<=", 2, "LessThanOrEqual"),
        ("<", 1, "LessThan"),
        ("&&", 2, "And"),
        ("||", 2, "Or"),
        ("+", 1, "Add"),
        ("-", 1, "Subtract"),
        ("*", 1, "Multiply"),
        ("^", 1, "Exponential"),
        ("/", 1, "Divide"),
        ("%", 1, "Modulo"),
    ];
    for (text, end, name) in cases {
        let (k, op) = Operator::parse(&chars(text), 0).unwrap();
        assert_eq!(k, end);
        assert_eq!(format!("{:?}", op), name);
    }
    assert!(Operator::parse(&chars("&x"), 0).is_none());
    assert!(Operator::parse(&chars(""), 0).is_none());
}

#[test]
fn operator_precedence_and_ordering() {
    assert_eq!(usize::from(Operator::Add), 0);
    assert_eq!(usize::from(Operator::Modulo), 1);
    assert_eq!(usize::from(Operator::Exponential), 2);
    assert!(Operator::Add == Operator::Or);
    assert!(Operator::Multiply != Operator::Add);
    assert!(Operator::Exponential > Operator::Divide);
    assert!(Operator::Subtract < Operator::Multiply);
}

#[test]
fn unary_groups_are_reversed_and_cancelled() {
    let (end, groups) = unary_prefix(&chars("--x"), 0);
    assert_eq!(end, 2);
    assert!(groups.is_empty());

    let (end, groups) = unary_prefix(&chars("-  ;x"), 0);
    assert_eq!(end, 4);
    assert_eq!(groups.len(), 2);
    assert_eq!(groups[0].ops, vec![UnaryOperator::Not]);
    assert_eq!(groups[0].ws, 0);
    assert_eq!(groups[1].ops, vec![UnaryOperator::Minus]);
    assert_eq!(groups[1].ws, 2);

    // a dropped group hands its whitespace to the next group kept
    let (end, groups) = unary_prefix(&chars("; -- 1"), 0);
    assert_eq!(end, 5);
    assert_eq!(groups.len(), 1);
    assert_eq!(groups[0].ops, vec![UnaryOperator::Not]);
    assert_eq!(groups[0].ws, 2);

    let (_, groups) = unary_prefix(&chars("-;x"), 0);
    assert_eq!(groups[0].ops, vec![UnaryOperator::Not, UnaryOperator::Not]);

    let (end, groups) = unary_prefix(&chars("x"), 0);
    assert_eq!((end, groups.len()), (0, 0));
}

#[test]
fn op_chunks() {
    assert_eq!(
        format!("{:?}", op_chunk(&chars(" + 1"), 0)),
        format!("{:?}", Some((3usize, Operator::Add, 2usize)))
    );
    assert!(op_chunk(&chars(" x"), 0).is_none());
}

#[test]
fn whitespace_decides_the_grouping() {
    // 1 + 2*3
    let e = build_expression(atom(1), Vec::new(), vec![item(Operator::Add, 2, 2), item(Operator::Multiply, 0, 3)]);
    assert_eq!(show(&e), "(1 + (2 * 3))");
    // 1*2 + 3
    let e = build_expression(atom(1), Vec::new(), vec![item(Operator::Multiply, 0, 2), item(Operator::Add, 2, 3)]);
    assert_eq!(show(&e), "((1 * 2) + 3)");
    // 1+2*3: same whitespace, precedence decides
    let e = build_expression(atom(1), Vec::new(), vec![item(Operator::Add, 0, 2), item(Operator::Multiply, 0, 3)]);
    assert_eq!(show(&e), "(1 + (2 * 3))");
    // 1*2+3
    let e = build_expression(atom(1), Vec::new(), vec![item(Operator::Multiply, 0, 2), item(Operator::Add, 0, 3)]);
    assert_eq!(show(&e), "((1 * 2) + 3)");
    // 1+2 * 3: whitespace beats precedence
    let e = build_expression(atom(1), Vec::new(), vec![item(Operator::Add, 0, 2), item(Operator::Multiply, 2, 3)]);
    assert_eq!(show(&e), "((1 + 2) * 3)");
    // 1 - 2 - 3 associates to the left
    let e = build_expression(atom(1), Vec::new(), vec![item(Operator::Subtract, 2, 2), item(Operator::Subtract, 2, 3)]);
    assert_eq!(show(&e), "((1 - 2) - 3)");
    // 1 + 2+3 * 4
    let e = build_expression(
        atom(1),
        Vec::new(),
        vec![item(Operator::Add, 2, 2), item(Operator::Add, 0, 3), item(Operator::Multiply, 2, 4)],
    );
    assert_eq!(show(&e), "((1 + (2 + 3)) * 4)");
    // a lone atom
    let e = build_expression(atom(7), Vec::new(), Vec::new());
    assert_eq!(show(&e), "7");
}

#[test]
fn unary_operators_bind_by_whitespace() {
    // -1 + 2
    let e = build_expression(atom(1), vec![group(vec![UnaryOperator::Minus], 0)], vec![item(Operator::Add, 2, 2)]);
    assert_eq!(show(&e), "((-1) + 2)");
    // - 1+2
    let e = build_expression(atom(1), vec![group(vec![UnaryOperator::Minus], 1)], vec![item(Operator::Add, 0, 2)]);
    assert_eq!(show(&e), "(-(1 + 2))");
    // ;x with no operator
    let e = build_expression(atom(1), vec![group(vec![UnaryOperator::Not], 0)], Vec::new());
    assert_eq!(show(&e), "(;1)");
    // 1 + -2
    let right = OpItem { op: Operator::Add, ws: 2, right: atom(2), unaries: vec![group(vec![UnaryOperator::Minus], 0)] };
    let e = build_expression(atom(1), Vec::new(), vec![right]);
    assert_eq!(show(&e), "(1 + (-2))");
}

fn lit(text: &str) -> (usize, Literal) {
    match literal_at(&chars(text)) {
        LitStep::Done(k, l) => (k, l),
        other => panic!("no literal in {:?}: {:?}", text, other),
    }
}

#[test]
fn literal_words_and_numbers() {
    assert_eq!(lit("true!"), (4, Literal::Boolean(true)));
    assert_eq!(lit("falsey"), (5, Literal::Boolean(false)));
    assert_eq!(lit("undefined"), (9, Literal::Undefined));
    assert_eq!(lit("null!"), (4, Literal::Null));
    assert_eq!(lit("12n!"), (3, Literal::BigInt("12".to_string())));
    assert_eq!(lit("-3_0n"), (5, Literal::BigInt("-3_0".to_string())));
    assert_eq!(lit("1.5e3 x"), (5, Literal::Number("1.5e3".to_string())));
    assert_eq!(lit("12 and n"), (2, Literal::Number("12".to_string())));
    assert_eq!(lit("NaNx"), (3, Literal::Number("NaN".to_string())));
    assert_eq!(lit("infinity"), (3, Literal::Number("inf".to_string())));
    assert!(matches!(literal_at(&chars("n")), LitStep::Error));
    assert!(matches!(literal_at(&chars("1e")), LitStep::Error));
    assert!(matches!(literal_at(&chars("_1n")), LitStep::Error));
}

#[test]
fn literal_strings() {
    assert_eq!(lit("\"hi\" rest"), (4, Literal::String("hi".to_string())));
    assert_eq!(lit("'a\\nb'!"), (6, Literal::String("a\nb".to_string())));
    assert_eq!(lit("\"'x'\"!"), (5, Literal::String("x".to_string())));
    // an even run of quotes with nothing inside is the empty string
    assert_eq!(lit("\"''\""), (4, Literal::String(String::new())));
    assert_eq!(lit("\"\""), (2, Literal::String(String::new())));
    assert_eq!(lit("''"), (2, Literal::String(String::new())));
    // text right after the quotes is the inside of a string that never closes
    assert!(matches!(literal_at(&chars("\"\"ab")), LitStep::Error));
    // unless its halves do not mirror each other
    assert!(matches!(literal_at(&chars("\"'\"'")), LitStep::Error));
    assert!(matches!(literal_at(&chars("\"abc")), LitStep::Error));
    assert!(matches!(literal_at(&chars("'x\"")), LitStep::Error));
    assert!(matches!(literal_at(&chars("\"'\"")), LitStep::Error));
    assert!(matches!(literal_at(&chars("x")), LitStep::Error));
    assert!(matches!(literal_at(&chars("\"é\" x")), LitStep::Panic));
}

#[test]
fn literal_parse_moves_the_position() {
    let input = Position::new("'a b' + 1");
    let (rest, value) = Literal::parse(&input).unwrap();
    assert_eq!(value, Literal::String("a b".to_string()));
    assert_eq!(rest.input_string(), " + 1");
    assert_eq!((rest.index, rest.column), (5, 6));
}

#[test]
fn repeated_unary_operators_cancel_in_pairs() {
    let (_, groups) = unary_prefix(&chars("---x"), 0);
    assert_eq!(groups.len(), 1);
    assert_eq!(groups[0].ops, vec![UnaryOperator::Minus]);
    let (_, groups) = unary_prefix(&chars(";;;;x"), 0);
    assert!(groups.is_empty());
}

fn leaves(e: &Expression<i32>, out: &mut Vec<String>) {
    match e {
        Expression::Atom(a) => out.push(a.to_string()),
        Expression::UnaryOperation { right, .. } => leaves(right, out),
        Expression::Operation { left, operator, right } => {
            leaves(left, out);
            out.push(format!("{:?}", operator));
            leaves(right, out);
        }
    }
}

#[test]
fn building_keeps_the_written_order() {
    let items = vec![
        item(Operator::Add, 4, 2),
        item(Operator::Multiply, 0, 3),
        item(Operator::Subtract, 2, 4),
        item(Operator::Exponential, 0, 5),
        item(Operator::Divide, 6, 6),
    ];
    let e = build_expression(atom(1), Vec::new(), items);
    let mut out = Vec::new();
    leaves(&e, &mut out);
    assert_eq!(
        out,
        vec!["1", "Add", "2", "Multiply", "3", "Subtract", "4", "Exponential", "5", "Divide", "6"]
    );
}
