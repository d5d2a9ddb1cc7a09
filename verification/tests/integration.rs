use lambed::eval;
use lambed::parser;
use lambed::term;

#[test]
fn test_id() {
    let source = "{|x| x 5}".to_string();
    let parsed = parser::parse_string(&source);
    let result = parsed.map(|(expr, _)| eval::eval(expr));
    assert_eq!(result, Result::Ok(Result::Ok(term::Term::val_int(5))));
}

#[test]
fn test_id_2() {
    let source = "{{|x| x |y| y} 5}".to_string();
    let parsed = parser::parse_string(&source);
    let result = parsed.map(|(expr, _)| eval::eval(expr));
    assert_eq!(result, Result::Ok(Result::Ok(term::Term::val_int(5))));
}

#[test]
fn test_id_app() {
    let source = "{|x y| {y 5} 5 (|z| z)}".to_string();
    let parsed = parser::parse_string(&source);
    let result = parsed.map(|(expr, _)| eval::eval(expr));
    assert_eq!(result, Result::Ok(Result::Ok(term::Term::val_int(5))));
}
