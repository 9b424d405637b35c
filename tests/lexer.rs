use bytevm::ast::Expr;
use bytevm::expr_parser::{parse_bool_expr, parse_number_expr};
use bytevm::input::{Input, ParseError};
use bytevm::util::{fail, fatal, keyword, maybe, parse_bool, parse_junk, parse_name, parse_number, parse_symbol, punct};

#[test]
fn util_should_parse_single_underscore_symbol() -> Result<(), ParseError> {
    let mut input = Input::new("_");
    let result = parse_symbol(&mut input)?;

    assert_eq!(result, "_");

    Ok(())
}

#[test]
fn util_should_parse_single_character_symbol() -> Result<(), ParseError> {
    let mut input = Input::new("a");
    let result = parse_symbol(&mut input)?;

    assert_eq!(result, "a");

    Ok(())
}

#[test]
fn util_should_parse_symbol() -> Result<(), ParseError> {
    let mut input = Input::new("blah_1234");
    let result = parse_symbol(&mut input)?;

    assert_eq!(result, "blah_1234");

    Ok(())
}

#[test]
fn util_should_parse_positive_int() -> Result<(), ParseError> {
    let mut input = Input::new("1234");
    let result = parse_number(&mut input)?;

    assert_eq!(result, 1234);

    Ok(())
}

#[test]
fn util_should_parse_negative_int() -> Result<(), ParseError> {
    let mut input = Input::new("-1234");
    let result = parse_number(&mut input)?;

    assert_eq!(result, -1234);

    Ok(())
}

#[test]
fn util_should_parse_true() -> Result<(), ParseError> {
    let mut input = Input::new("true");
    let result = parse_bool(&mut input)?;

    assert_eq!(result, true);

    Ok(())
}

#[test]
fn util_should_parse_false() -> Result<(), ParseError> {
    let mut input = Input::new("false");
    let result = parse_bool(&mut input)?;

    assert_eq!(result, false);

    Ok(())
}

#[test]
fn util_should_not_consume_non_bool() -> Result<(), ParseError> {
    let mut input = Input::new("false_");
    let result = parse_bool(&mut input);

    assert!(matches!(result, Err(_)));

    let result = parse_symbol(&mut input)?;

    assert_eq!(result, "false_");

    Ok(())
}

#[test]
fn keyword_should_parse_with_whitespace() -> Result<(), ParseError> {
    let mut input = Input::new("input extra");
    keyword(&mut input, "input")?;
    Ok(())
}

#[test]
fn keyword_should_parse_with_non_symbol() -> Result<(), ParseError> {
    let mut input = Input::new("input(");
    keyword(&mut input, "input")?;
    punct(&mut input, "(")?;
    Ok(())
}

#[test]
fn keyword_should_parse_with_end_of_file() -> Result<(), ParseError> {
    let mut input = Input::new("input");
    keyword(&mut input, "input")?;
    Ok(())
}

#[test]
fn keyword_should_leave_input_alone_on_failure() -> Result<(), ParseError> {
    let mut input = Input::new("inputx");
    let result = keyword(&mut input, "input");

    assert!(matches!(result, Err(_)));

    let result = parse_symbol(&mut input)?;

    assert_eq!(result, "inputx");

    Ok(())
}

#[test]
fn parser_should_parse_positive_int() -> Result<(), ParseError> {
    let mut input = Input::new("1234");
    let result = parse_number_expr(&mut input)?;

    assert!(matches!(result, Expr::Number(1234)));

    Ok(())
}

#[test]
fn parser_should_parse_negative_int() -> Result<(), ParseError> {
    let mut input = Input::new("-1234");
    let result = parse_number_expr(&mut input)?;

    assert!(matches!(result, Expr::Number(-1234)));

    Ok(())
}

#[test]
fn parser_should_parse_single_underscore_symbol() -> Result<(), ParseError> {
    let mut input = Input::new("_");
    let result = parse_symbol(&mut input)?;

    assert_eq!(result, "_");

    Ok(())
}

#[test]
fn parser_should_parse_single_character_symbol() -> Result<(), ParseError> {
    let mut input = Input::new("a");
    let result = parse_symbol(&mut input)?;

    assert_eq!(result, "a");

    Ok(())
}

#[test]
fn parser_should_parse_symbol() -> Result<(), ParseError> {
    let mut input = Input::new("blah_1234");
    let result = parse_symbol(&mut input)?;

    assert_eq!(result, "blah_1234");

    Ok(())
}

#[test]
fn parser_should_parse_true() -> Result<(), ParseError> {
    let mut input = Input::new("true");
    let result = parse_bool_expr(&mut input)?;

    assert!(matches!(result, Expr::Bool(true)));

    Ok(())
}

#[test]
fn parser_should_parse_false() -> Result<(), ParseError> {
    let mut input = Input::new("false");
    let result = parse_bool_expr(&mut input)?;

    assert!(matches!(result, Expr::Bool(false)));

    Ok(())
}

#[test]
fn parser_should_not_consume_non_bool() -> Result<(), ParseError> {
    let mut input = Input::new("false_");
    let result = parse_bool_expr(&mut input);

    assert!(matches!(result, Err(_)));

    let result = parse_symbol(&mut input)?;

    assert_eq!(result, "false_");

    Ok(())
}

fn messages(e: ParseError) -> Vec<String> {
    match e {
        ParseError::Fatal(fs) => fs,
        ParseError::Error => panic!("expected a fatal failure"),
    }
}

#[test]
fn junk_skips_whitespace_and_comments() {
    let mut input = Input::new("  # a comment\n\t x");
    assert!(parse_junk(&mut input).is_ok());
    assert_eq!(input.position(), 16);
    assert!(matches!(input.next(), Ok('x')));
    assert!(matches!(input.next(), Err(ParseError::Error)));
    assert!(matches!(input.peek(), Err(ParseError::Error)));
}

#[test]
fn symbol_after_junk_and_failure_on_non_symbol() {
    let mut input = Input::new("  # c\r abc1 ");
    assert_eq!(parse_symbol(&mut input).unwrap(), "abc1");
    let mut input = Input::new("  1abc");
    assert!(matches!(parse_symbol(&mut input), Err(ParseError::Error)));
    assert_eq!(input.position(), 2);
}

#[test]
fn number_edge_cases() {
    let mut input = Input::new("-");
    assert_eq!(messages(parse_number(&mut input).unwrap_err()), vec!["encountered single '-'".to_string()]);
    let mut input = Input::new("9223372036854775807");
    assert_eq!(parse_number(&mut input).unwrap(), i64::MAX);
    let mut input = Input::new("-9223372036854775808");
    assert_eq!(parse_number(&mut input).unwrap(), i64::MIN);
    let mut input = Input::new("9223372036854775808");
    assert_eq!(messages(parse_number(&mut input).unwrap_err()), vec!["number does not fit in 64 bits".to_string()]);
    let mut input = Input::new("00042x");
    assert_eq!(parse_number(&mut input).unwrap(), 42);
    assert_eq!(input.position(), 5);
    let mut input = Input::new("x");
    assert!(matches!(parse_number(&mut input), Err(ParseError::Error)));
}

#[test]
fn punct_matches_text_anywhere_and_keyword_needs_a_boundary() {
    let mut input = Input::new("  ->x");
    assert!(punct(&mut input, "->").is_ok());
    assert_eq!(input.position(), 4);
    let mut input = Input::new("funny");
    assert!(matches!(keyword(&mut input, "fun"), Err(ParseError::Error)));
    assert_eq!(input.position(), 0);
    assert!(punct(&mut input, "fun").is_ok());
}

#[test]
fn name_checks_the_case_of_the_first_letter() {
    let mut input = Input::new(" Cons");
    assert!(matches!(parse_name(&mut input, false), Err(ParseError::Error)));
    assert_eq!(input.position(), 0);
    assert_eq!(parse_name(&mut input, true).unwrap(), "Cons");
}

#[test]
fn failure_combinators() {
    assert!(matches!(maybe::<i32>(Ok(3)), Ok(Some(3))));
    assert!(matches!(maybe::<i32>(Err(ParseError::Error)), Ok(None)));
    assert!(matches!(maybe::<i32>(fail("x")), Err(ParseError::Fatal(_))));
    assert_eq!(messages(fatal::<i32>(Err(ParseError::Error), "outer").unwrap_err()), vec!["outer".to_string()]);
    assert_eq!(
        messages(fatal::<i32>(fail("inner"), "outer").unwrap_err()),
        vec!["inner".to_string(), "outer".to_string()]
    );
    assert!(matches!(fatal::<i32>(Ok(1), "outer"), Ok(1)));
}

#[test]
fn parse_error_display() {
    assert_eq!(ParseError::Error.display(), "Error");
    let e = ParseError::Fatal(vec!["a".to_string(), "b".to_string()]);
    assert_eq!(e.display(), "Fatal:\n a\nb");
}

#[test]
fn restore_returns_to_a_saved_input() {
    let mut input = Input::new("ab");
    let saved = input.clone();
    assert!(matches!(input.next(), Ok('a')));
    input.restore(saved);
    assert!(matches!(input.peek(), Ok('a')));
    assert_eq!(input.position(), 0);
}
