use dreamberd_noodles_interpreter::interpreter::parsers::lines::{
    char_index_at_byte, reverse_jump, reversed_lines,
};
use dreamberd_noodles_interpreter::interpreter::parsers::types::{calc_line_column, Position};
use dreamberd_noodles_interpreter::interpreter::parsers::{
    chunk, end_of_statement, identifier, parse_isize, terminated_chunk, ws, ws1, ws_char,
    ws_count, CharClass, LifeTime, ParseError, Terminator,
};

fn chars(s: &str) -> Vec<char> {
    s.chars().collect()
}

fn seconds(lt: &LifeTime) -> f64 {
    match lt {
        LifeTime::Seconds(text) => text.parse::<f64>().unwrap(),
        other => panic!("not seconds: {:?}", other),
    }
}

#[test]
fn split_at_position() {
    let input = Position::new("foo bar");

    // split like i.. and ..i
    let (l, r) = input.split_at_position(CharClass::NotChar(' ')).unwrap();
    assert_eq!(l.input_string(), " bar");
    assert_eq!(l.line, 1);
    assert_eq!(l.column, 4);
    assert_eq!(l.index, 3);

    assert_eq!(r.input_string(), "foo");
    assert_eq!(r.line, 1);
    assert_eq!(r.column, 1);
    assert_eq!(r.index, 0);
}

#[test]
fn slice_to() {
    let input = Position::new("slice");
    let input = input.slice_to(3);
    assert_eq!(input.input_string(), "sli");
    assert_eq!(input.line, 1);
    assert_eq!(input.column, 1);
    assert_eq!(input.index, 0);
}

#[test]
fn slice_from() {
    let input = Position::new("slice");
    let input = input.slice_from(3);
    assert_eq!(input.input_string(), "ce");
    assert_eq!(input.line, 1);
    assert_eq!(input.column, 4);
    assert_eq!(input.index, 3);
}

#[test]
fn calc_line_column_test() {
    let input = "foo bar\nbaz";
    let (line, column) = calc_line_column(&input);
    assert_eq!(line, 1);
    assert_eq!(column, 3);
}

#[test]
fn take_split() {
    let input = Position::new("fooobar");
    let (l, r) = input.take_split(4);

    assert_eq!(r.input_string(), "fooo");
    assert_eq!(r.line, 1);
    assert_eq!(r.column, 1);
    assert_eq!(r.index, 0);

    assert_eq!(l.input_string(), "bar");
    assert_eq!(l.line, 1);
    assert_eq!(l.column, 5);
}

#[test]
fn identifier_term_at_parser() {
    let input = Position::new("foo1 bar");

    let (input, identifier) = identifier(Terminator::Char('1'), &input).unwrap();

    assert_eq!(identifier.input_string(), "foo");
    assert_eq!(identifier.line, 1);
    assert_eq!(identifier.column, 1);
    assert_eq!(identifier.index, 0);

    assert_eq!(input.input_string(), "1 bar");
    assert_eq!(input.line, 1);
    assert_eq!(input.column, 4);
    assert_eq!(input.index, 3);
}

#[test]
fn identifier_term_at_ws() {
    let input = Position::new("foo 1bar");

    let (input, identifier) = identifier(Terminator::Char('1'), &input).unwrap();

    assert_eq!(identifier.input_string(), "foo");
    assert_eq!(identifier.line, 1);
    assert_eq!(identifier.column, 1);
    assert_eq!(identifier.index, 0);

    assert_eq!(input.input_string(), " 1bar");
    assert_eq!(input.line, 1);
    assert_eq!(input.column, 4);
    assert_eq!(input.index, 3);
}

#[test]
fn identifier_no_ws_no_term() {
    let input = Position::new("foobar");

    let (input, identifier) = identifier(Terminator::Char('1'), &input).unwrap();

    assert_eq!(identifier.input_string(), "foobar");
    assert_eq!(identifier.line, 1);
    assert_eq!(identifier.column, 1);
    assert_eq!(identifier.index, 0);

    assert_eq!(input.input_string(), "");
    assert_eq!(input.line, 1);
    assert_eq!(input.column, 7);
    assert_eq!(input.index, 6);
}

#[test]
fn identifier_empty() {
    let input = Position::new("");
    let result = identifier(Terminator::Char('1'), &input);
    assert!(result.is_err());
}

#[test]
fn identifier_start_at_ws() {
    let input = Position::new(" ");
    let result = identifier(Terminator::Char('1'), &input);
    assert!(result.is_err());
}

#[test]
fn identifier_start_at_term() {
    let input = Position::new("1");
    let result = identifier(Terminator::Char('1'), &input);
    assert!(result.is_err());
}

#[test]
fn ws_char_parse() {
    let input = Position::new(" foo bar");
    let input = ws_char(&input).unwrap();
    assert_eq!(input.input_string(), "foo bar");
    assert_eq!(input.line, 1);
    assert_eq!(input.column, 2);
    assert_eq!(input.index, 1);
}

#[test]
fn life_time_neg_line() {
    let input = Position::new("<-5>");
    let (_, life_time) = LifeTime::parse(&input).unwrap();
    assert_eq!(life_time, LifeTime::Lines(-5));
}

#[test]
fn life_time_pos_line() {
    let input = Position::new("<5>");
    let (_, life_time) = LifeTime::parse(&input).unwrap();
    assert_eq!(life_time, LifeTime::Lines(5));
}

#[test]
fn life_time_zero_line() {
    let input = Position::new("<0>");
    let (_, life_time) = LifeTime::parse(&input).unwrap();
    assert_eq!(life_time, LifeTime::Lines(0));
}

#[test]
fn life_time_seconds() {
    let input = Position::new("<10.5s>");
    let (_, life_time) = LifeTime::parse(&input).unwrap();
    assert_eq!(seconds(&life_time), 10.5);
}

#[test]
fn life_time_neg_seconds_fail() {
    let input = Position::new("<-10.5s>");
    assert!(LifeTime::parse(&input).is_err());
}

#[test]
fn life_time_zero_seconds() {
    let input = Position::new("<0s>");
    let (_, life_time) = LifeTime::parse(&input).unwrap();
    assert_eq!(seconds(&life_time), 0.);
}

#[test]
fn life_time_infinity() {
    let input = Position::new("<Infinity>");
    let (_, life_time) = LifeTime::parse(&input).unwrap();
    assert_eq!(life_time, LifeTime::Infinity);
}

#[test]
fn life_time_exponent_without_digits_is_a_failure() {
    let input = Position::new("<1es>");
    assert!(matches!(LifeTime::parse(&input), Err(ParseError::Failure)));
}

#[test]
fn life_time_nan_seconds_and_rest() {
    let input = Position::new("<NaNs> rest");
    let (rest, life_time) = LifeTime::parse(&input).unwrap();
    assert_eq!(life_time, LifeTime::Seconds("NaN".to_string()));
    assert_eq!(rest.input_string(), " rest");
    assert_eq!(rest.index, 6);
}

#[test]
fn life_time_infinity_then_s_is_an_error() {
    let input = Position::new("<Infinitys>");
    assert!(matches!(LifeTime::parse(&input), Err(ParseError::Error)));
}

#[test]
fn ws_char_comment_to_end_keeps_index() {
    let input = Position::new(" //abc");
    let rest = ws_char(&input).unwrap();
    assert_eq!(rest.input_string(), "");
    assert_eq!(rest.column, 7);
    assert_eq!(rest.index, 3);
}

#[test]
fn ws_char_comment_to_newline() {
    let input = Position::new("\n// note\nx");
    let rest = ws_char(&input).unwrap();
    assert_eq!(rest.input_string(), "\nx");
    assert_eq!(rest.line, 2);
    assert_eq!(rest.index, 8);
}

#[test]
fn parse_isize_values_and_rest() {
    let input = Position::new("-42 rest");
    let (rest, value) = parse_isize(&input).unwrap();
    assert_eq!(value, -42);
    assert_eq!(rest.input_string(), " rest");
    assert_eq!(rest.index, 3);

    let input = Position::new("-42");
    let (rest, value) = parse_isize(&input).unwrap();
    assert_eq!(value, -42);
    assert_eq!(rest.index, 1);
    assert_eq!(rest.column, 4);

    assert!(parse_isize(&Position::new("x1")).is_none());
}

#[test]
fn whitespace_helpers() {
    let s = chars("  (x) // c\n!! y");
    assert_eq!(ws_count(&s, 0), (3, 3));
    assert_eq!(ws(&s, 4), 11);
    assert_eq!(ws1(&s, 3), None);
    assert_eq!(ws1(&s, 4), Some(11));
    assert_eq!(chunk(&s, 3), 4);
    assert_eq!(terminated_chunk(&chars("ab!c"), 0), 2);
    assert_eq!(end_of_statement(&s, 4), Some(13));
    assert_eq!(end_of_statement(&s, 0), None);
}

#[test]
fn tag_parse() {
    let input = Position::new("tag");
    let (input, tag) = input.tag("tag").unwrap();
    assert!(
        input.input.is_empty(),
        "input is not empty, input: {:?}, tag: {:?}",
        input,
        tag
    );
    assert_eq!(input.line, 1);
    assert_eq!(input.column, 4);
    assert_eq!(input.index, 3);
}

#[test]
fn satisfy_parse() {
    let input = Position::new("foo bar");
    let (input, c) = input.satisfy(CharClass::Is('f')).unwrap();
    assert_eq!(c, 'f');
    assert_eq!(input.input_string(), "oo bar");
    assert_eq!(input.line, 1);
    assert_eq!(input.column, 2);
    assert_eq!(input.index, 1);
}

#[test]
fn lines_reversed() {
    let (text, count) = reversed_lines(&chars("a!\nb!\r\nc!"));
    assert_eq!(text.iter().collect::<String>(), "c!b!a!");
    assert_eq!(count, 3);
    // a final line ending is optional, and a lone `\r` stays
    let (text, count) = reversed_lines(&chars("x\ny\r\n"));
    assert_eq!(text.iter().collect::<String>(), "yx");
    assert_eq!(count, 2);
    let (text, count) = reversed_lines(&chars("x\r"));
    assert_eq!(text.iter().collect::<String>(), "x\r");
    assert_eq!(count, 1);
    let (text, count) = reversed_lines(&chars("\n"));
    assert_eq!(text.len(), 0);
    assert_eq!(count, 1);
    let (text, count) = reversed_lines(&[]);
    assert_eq!(text.len(), 0);
    assert_eq!(count, 0);
}

#[test]
fn bytes_to_chars() {
    let s = chars("aé€b");
    assert_eq!(char_index_at_byte(&s, 0), Some(0));
    assert_eq!(char_index_at_byte(&s, 1), Some(1));
    assert_eq!(char_index_at_byte(&s, 2), None);
    assert_eq!(char_index_at_byte(&s, 3), Some(2));
    assert_eq!(char_index_at_byte(&s, 6), Some(3));
    assert_eq!(char_index_at_byte(&s, 7), Some(4));
    assert_eq!(char_index_at_byte(&s, 8), None);
}

#[test]
fn reverse_positions() {
    let code = chars("x!\ny!\nreverse!");
    // the `reverse` statement is parsed from just after `y!`
    let pos = Position::new("x!\ny!\nreverse!").advance(5);
    assert_eq!((pos.index, pos.line), (5, 2));
    let jumped = reverse_jump(&pos, &code, true).unwrap();
    assert_eq!(jumped.index, 9);
    assert_eq!(jumped.line, 1);
    assert_eq!(jumped.column, pos.column);
    assert_eq!(jumped.input.iter().collect::<String>(), "!x!");
    // not reversed, the program itself runs from the mirrored byte
    let back = reverse_jump(&pos, &code, false).unwrap();
    assert_eq!(back.input.iter().collect::<String>(), "erse!");
    // a single statement runs to the end of the reversed text
    let one = chars("reverse!");
    let jumped = reverse_jump(&Position::new("reverse!"), &one, true).unwrap();
    assert_eq!((jumped.index, jumped.line, jumped.input.len()), (8, 0, 0));
    // past the end of the reversed text: there is no position there
    let two = chars("reverse!\nreverse!");
    assert!(reverse_jump(&Position::new("reverse!\nreverse!"), &two, true).is_none());
    // a line below zero
    let mut late = Position::new("a!");
    late.line = 5;
    assert!(reverse_jump(&late, &chars("a!"), false).is_none());
}

#[test]
fn columns_restart_after_a_newline() {
    let p = Position::new("ab\ncd").slice_from(1);
    assert_eq!((p.line, p.column, p.index), (1, 2, 1));
    let (rest, taken) = p.take_split(2);
    assert_eq!(rest.input.iter().collect::<String>(), "cd");
    assert_eq!((rest.line, rest.column, rest.index), (2, 1, 3));
    assert_eq!(taken.input.iter().collect::<String>(), "b\n");
    let end = Position::new("a\nbc").advance(4);
    assert_eq!((end.line, end.column), (2, 3));
}
