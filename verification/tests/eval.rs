use lambed::eval::{eval, eval_bounded, eval_counted, EvalError, ReferenceError, TypeError};
use lambed::term::{Primitive, Term};

#[test]
fn eval_val() {
    let x = eval(Term::<(), _>::val_int(42));
    assert_eq!(x, Result::Ok(Term::val_int(42)));
}

#[test]
fn eval_id() {
    let x = eval(Term::app(
        Term::abs("x".to_string(), (), Term::var("x".to_string())),
        Term::val_int(42),
    ));
    assert_eq!(x, Result::Ok(Term::val_int(42)));
}

#[test]
fn eval_string_value() {
    let x = eval(Term::<(), _>::val_string("hello".to_string()));
    assert_eq!(x, Result::Ok(Term::val_string("hello".to_string())));
}

#[test]
fn eval_abs_is_normal() {
    let x = eval(Term::<(), Primitive>::abs(
        "x".to_string(),
        (),
        Term::var("x".to_string()),
    ));
    assert_eq!(
        x,
        Result::Ok(Term::abs("x".to_string(), (), Term::var("x".to_string())))
    );
}

#[test]
fn eval_curried_const() {
    // {{|x| |y| x 1} 2} selects the first argument
    let x = eval(Term::<(), Primitive>::app(
        Term::app(
            Term::abs(
                "x".to_string(),
                (),
                Term::abs("y".to_string(), (), Term::var("x".to_string())),
            ),
            Term::val_int(1),
        ),
        Term::val_int(2),
    ));
    assert_eq!(x, Result::Ok(Term::val_int(1)));
}

#[test]
fn eval_not_a_function() {
    // {|x| {0 x} 1} applies the value 0
    let x = eval(Term::<(), Primitive>::app(
        Term::abs(
            "x".to_string(),
            (),
            Term::app(Term::val_int(0), Term::var("x".to_string())),
        ),
        Term::val_int(1),
    ));
    assert_eq!(
        x,
        Result::Err(EvalError::TypeError(TypeError::NotAFunction(
            Primitive::Integer(0)
        )))
    );
}

#[test]
fn eval_unbound_reference() {
    let x = eval(Term::<(), Primitive>::var("free".to_string()));
    assert_eq!(
        x,
        Result::Err(EvalError::ReferenceError(ReferenceError::NotFound(
            "free".to_string()
        )))
    );
}

#[test]
fn eval_single_use_let() {
    // {|x| {x x} |y| y}: the second lookup of x finds its binding spent,
    // so the single-use policy reports the name as not found
    let x = eval(Term::<(), Primitive>::app(
        Term::abs(
            "x".to_string(),
            (),
            Term::app(Term::var("x".to_string()), Term::var("x".to_string())),
        ),
        Term::abs("y".to_string(), (), Term::var("y".to_string())),
    ));
    assert_eq!(
        x,
        Result::Err(EvalError::ReferenceError(ReferenceError::NotFound(
            "x".to_string()
        )))
    );
}

#[test]
fn eval_shadowed_let_is_dropped() {
    // {|x| |x| x 1}: the inner abstraction re-binds x, so the pending
    // binding of the outer x is dropped with the abstraction kept
    let x = eval(Term::<(), Primitive>::app(
        Term::abs(
            "x".to_string(),
            (),
            Term::abs("x".to_string(), (), Term::var("x".to_string())),
        ),
        Term::val_int(9),
    ));
    assert_eq!(
        x,
        Result::Ok(Term::abs("x".to_string(), (), Term::var("x".to_string())))
    );
}

#[test]
fn eval_hnf_value_zero_steps() {
    let (r, steps) = eval_counted(Term::<(), Primitive>::val_int(7), 10);
    assert_eq!(r, Result::Ok(Term::val_int(7)));
    assert_eq!(steps, 0);
}

#[test]
fn eval_hnf_abs_zero_steps() {
    let (r, steps) = eval_counted(
        Term::<(), Primitive>::abs("x".to_string(), (), Term::var("x".to_string())),
        10,
    );
    assert_eq!(
        r,
        Result::Ok(Term::abs("x".to_string(), (), Term::var("x".to_string())))
    );
    assert_eq!(steps, 0);
}

#[test]
fn eval_redex_takes_steps() {
    let (r, steps) = eval_counted(
        Term::<(), Primitive>::app(
            Term::abs("x".to_string(), (), Term::var("x".to_string())),
            Term::val_int(42),
        ),
        100,
    );
    assert_eq!(r, Result::Ok(Term::val_int(42)));
    assert!(steps > 0);
}

#[test]
fn eval_budget_of_zero_exhausts() {
    let x = eval_bounded(
        Term::<(), Primitive>::app(
            Term::abs("x".to_string(), (), Term::var("x".to_string())),
            Term::val_int(5),
        ),
        0,
    );
    assert_eq!(x, Result::Err(EvalError::ResourceExhausted));
}

#[test]
fn eval_self_application_stops_on_spent_binding() {
    // {|x| {x x} |x| {x x}} does not reduce forever here: the single-use
    // policy spends each binding, so the second lookup of x fails
    let omega = |name: &str| {
        Term::<(), Primitive>::abs(
            name.to_string(),
            (),
            Term::app(Term::var(name.to_string()), Term::var(name.to_string())),
        )
    };
    let x = eval_bounded(Term::app(omega("x"), omega("x")), 50);
    assert_eq!(
        x,
        Result::Err(EvalError::ReferenceError(ReferenceError::NotFound(
            "x".to_string()
        )))
    );
}

#[test]
fn eval_bounded_small_budget_suffices() {
    let x = eval_bounded(
        Term::<(), Primitive>::app(
            Term::abs("x".to_string(), (), Term::var("x".to_string())),
            Term::val_int(5),
        ),
        10,
    );
    assert_eq!(x, Result::Ok(Term::val_int(5)));
}
