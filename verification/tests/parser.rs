use lambed::parser::{
    parse_string, primitive, term, token_bar, token_identifier, token_integer, token_left_brace,
    token_left_paren, token_right_brace, token_right_paren, ParseError,
};
use lambed::term::{Primitive, Term};

fn chars(s: &str) -> Vec<char> {
    s.chars().collect()
}

#[test]
fn test_parse_token_left_paren() {
    let input = chars("(");
    let result = token_left_paren(&input, 0);
    assert_eq!(result, Some(1));
}

#[test]
fn test_parse_token_right_paren() {
    let input = chars(")");
    let result = token_right_paren(&input, 0);
    assert_eq!(result, Some(1));
}

#[test]
fn test_parse_token_left_brace() {
    let input = chars("{");
    let result = token_left_brace(&input, 0);
    assert_eq!(result, Some(1));
}

#[test]
fn test_parse_token_right_brace() {
    let input = chars("}");
    let result = token_right_brace(&input, 0);
    assert_eq!(result, Some(1));
}

#[test]
fn test_parse_token_bar() {
    let input = chars("|");
    let result = token_bar(&input, 0);
    assert_eq!(result, Some(1));
}

#[test]
fn test_parse_token_integer() {
    let input = chars("42");
    let result = token_integer(&input, 0);
    assert_eq!(result, Some((42, 2)));
}

#[test]
fn test_token_skips_trailing_spaces() {
    let input = chars("42   x");
    let result = token_integer(&input, 0);
    assert_eq!(result, Some((42, 5)));
}

#[test]
fn test_token_identifier_with_dash() {
    let input = chars("my-name ");
    let result = token_identifier(&input, 0);
    assert_eq!(result, Some(("my-name".to_string(), 8)));
}

#[test]
fn test_token_integer_rejects_overflow() {
    let input = chars("9223372036854775808");
    assert_eq!(token_integer(&input, 0), None);
    let max = chars("9223372036854775807");
    assert_eq!(token_integer(&max, 0), Some((i64::MAX, 19)));
}

#[test]
fn test_primitive_int() {
    let input = chars("7");
    let result = primitive(&input, 0);
    assert_eq!(result, Some((Primitive::Integer(7), 1)));
}

#[test]
fn test_term_val_int() {
    let input = chars("42");
    let result = term(&input, 0);
    assert_eq!(result, Some((Term::val_int(42), 2)));
}

#[test]
fn test_term_var() {
    let input = chars("x");
    let expr = Term::<(), Primitive>::var("x".to_string());
    assert_eq!(term(&input, 0), Some((expr, 1)));
}

#[test]
fn test_term_app() {
    let input = chars("{a b}");
    let expr = Term::<(), Primitive>::app(
        Term::var("a".to_string()),
        Term::var("b".to_string()),
    );
    assert_eq!(term(&input, 0), Some((expr, 5)));
}

#[test]
fn test_term_abs() {
    let input = chars("|a| b");
    let expr = Term::<(), Primitive>::abs("a".to_string(), (), Term::var("b".to_string()));
    assert_eq!(term(&input, 0), Some((expr, 5)));
}

#[test]
fn test_term_parenthesised() {
    let input = chars("( x )");
    let expr = Term::<(), Primitive>::var("x".to_string());
    assert_eq!(term(&input, 0), Some((expr, 5)));
}

#[test]
fn test_term_app_many_args() {
    let input = chars("{f a b}");
    let expr = Term::<(), Primitive>::app(
        Term::app(Term::var("f".to_string()), Term::var("a".to_string())),
        Term::var("b".to_string()),
    );
    assert_eq!(term(&input, 0), Some((expr, 7)));
}

#[test]
fn test_term_abs_many_params() {
    let input = chars("|x y| x");
    let expr = Term::<(), Primitive>::abs(
        "x".to_string(),
        (),
        Term::abs("y".to_string(), (), Term::var("x".to_string())),
    );
    assert_eq!(term(&input, 0), Some((expr, 7)));
}

#[test]
fn test_parse_string_leaves_remainder() {
    let source = "42 abc".to_string();
    let parsed = parse_string(&source);
    assert_eq!(parsed, Ok((Term::val_int(42), 3)));
}

#[test]
fn test_parse_string_rejects_garbage() {
    let source = "%".to_string();
    assert_eq!(parse_string(&source), Err(ParseError::Syntax));
    let unclosed = "{a b".to_string();
    assert_eq!(parse_string(&unclosed), Err(ParseError::Syntax));
}
