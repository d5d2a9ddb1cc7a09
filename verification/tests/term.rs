use lambed::term::{Primitive, Term, Untyped};

#[test]
fn test_var_constructor() {
    let t: Term<(), Primitive> = Term::var("x".to_string());
    assert_eq!(t, Term::Var("x".to_string()));
}

#[test]
fn test_abs_constructor() {
    let t: Term<(), Primitive> = Term::abs("x".to_string(), (), Term::var("x".to_string()));
    assert_eq!(
        t,
        Term::Abs("x".to_string(), (), Box::new(Term::Var("x".to_string())))
    );
}

#[test]
fn test_app_constructor() {
    let t: Term<(), Primitive> = Term::app(Term::var("f".to_string()), Term::val_int(1));
    assert_eq!(
        t,
        Term::App(
            Box::new(Term::Var("f".to_string())),
            Box::new(Term::Val(Primitive::Integer(1)))
        )
    );
}

#[test]
fn test_val_constructors() {
    assert_eq!(
        Term::<(), Primitive>::val_int(3),
        Term::Val(Primitive::Integer(3))
    );
    assert_eq!(
        Term::<(), Primitive>::val_string("s".to_string()),
        Term::Val(Primitive::String("s".to_string()))
    );
}

#[test]
fn test_abs_many_nests_left_to_right() {
    let t: Term<(), Primitive> = Term::abs_many(
        ("x".to_string(), ()),
        vec![("y".to_string(), ()), ("z".to_string(), ())],
        Term::var("x".to_string()),
    );
    let expected = Term::abs(
        "x".to_string(),
        (),
        Term::abs(
            "y".to_string(),
            (),
            Term::abs("z".to_string(), (), Term::var("x".to_string())),
        ),
    );
    assert_eq!(t, expected);
}

#[test]
fn test_abs_many_single() {
    let t: Term<(), Primitive> =
        Term::abs_many(("x".to_string(), ()), vec![], Term::var("x".to_string()));
    assert_eq!(t, Term::abs("x".to_string(), (), Term::var("x".to_string())));
}

#[test]
fn test_app_many_nests_left_to_right() {
    let t: Term<(), Primitive> = Term::app_many(
        Term::var("f".to_string()),
        Term::val_int(1),
        vec![Term::val_int(2), Term::val_int(3)],
    );
    let expected = Term::app(
        Term::app(
            Term::app(Term::var("f".to_string()), Term::val_int(1)),
            Term::val_int(2),
        ),
        Term::val_int(3),
    );
    assert_eq!(t, expected);
}

#[test]
fn test_app_many_single() {
    let t: Term<(), Primitive> =
        Term::app_many(Term::var("f".to_string()), Term::val_int(1), vec![]);
    assert_eq!(t, Term::app(Term::var("f".to_string()), Term::val_int(1)));
}

#[test]
fn test_abs_many_untyped() {
    let t: Untyped<Primitive> = Untyped::abs_many_untyped(
        "x".to_string(),
        vec!["y".to_string()],
        Term::var("y".to_string()),
    );
    let expected = Term::abs(
        "x".to_string(),
        (),
        Term::abs("y".to_string(), (), Term::var("y".to_string())),
    );
    assert_eq!(t, expected);
}
