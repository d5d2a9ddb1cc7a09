use lambed::fix::Fix;
use lambed::term::{Primitive, Term};
use lambed::zipper::{Ctx, Loc};

fn id_abs() -> Term<(), Primitive> {
    Term::abs("x".to_string(), (), Term::var("x".to_string()))
}

#[test]
fn test_top_get() {
    let loc = Loc::top(Term::<(), Primitive>::val_int(1));
    assert_eq!(loc.get(), Term::val_int(1));
}

#[test]
fn test_set_replaces_focus() {
    let loc = Loc::top(Term::<(), Primitive>::val_int(1));
    let loc = loc.set(Term::val_int(2));
    assert_eq!(loc.get(), Term::val_int(2));
}

#[test]
fn test_down_into_value_is_fixed() {
    let loc = Loc::top(Term::<(), Primitive>::val_int(1));
    match loc.down() {
        Fix::Fix(l) => assert_eq!(l.get(), Term::val_int(1)),
        Fix::Pro(_) => panic!("a value has nothing to descend into"),
    }
}

#[test]
fn test_down_up_restores_abs() {
    let loc = Loc::top(id_abs());
    match loc.down() {
        Fix::Pro(inner) => {
            match inner.up() {
                Fix::Pro(outer) => assert_eq!(outer.get(), id_abs()),
                Fix::Fix(_) => panic!("ascent out of an abstraction body must progress"),
            }
        }
        Fix::Fix(_) => panic!("descent into an abstraction must progress"),
    }
}

#[test]
fn test_down_focuses_function_side() {
    let t = Term::<(), Primitive>::app(id_abs(), Term::val_int(3));
    match Loc::top(t).down() {
        Fix::Pro(l) => assert_eq!(l.get(), id_abs()),
        Fix::Fix(_) => panic!("descent into an application must progress"),
    }
}

#[test]
fn test_right_then_left_swaps_sides() {
    let t = Term::<(), Primitive>::app(id_abs(), Term::val_int(3));
    match Loc::top(t).down() {
        Fix::Pro(l) => match l.right() {
            Fix::Pro(r) => {
                match r.left() {
                    Fix::Pro(back) => assert_eq!(back.get(), id_abs()),
                    Fix::Fix(_) => panic!("moving back left must progress"),
                }
            }
            Fix::Fix(_) => panic!("moving right from the function side must progress"),
        },
        Fix::Fix(_) => panic!("descent into an application must progress"),
    }
}

#[test]
fn test_right_at_top_is_fixed() {
    let loc = Loc::top(Term::<(), Primitive>::val_int(1));
    assert!(matches!(loc.right(), Fix::Fix(_)));
}

#[test]
fn test_take_term_consumes_let_binding() {
    let t = Term::<(), Primitive>::Let(
        "x".to_string(),
        Some(((), Box::new(Term::val_int(1)))),
        Box::new(Term::var("x".to_string())),
    );
    match Loc::top(t).down() {
        Fix::Pro(l) => {
            let Loc(focus, _, mut env) = l;
            assert_eq!(focus, Term::var("x".to_string()));
            // the first lookup yields the thunk and spends the frame
            match env.take_term("x") {
                Some(Fix::Pro(thunk)) => assert_eq!(*thunk, Term::val_int(1)),
                _ => panic!("the pending thunk must be handed out as progress"),
            }
            // the second lookup finds the frame spent
            assert!(env.take_term("x").is_none());
        }
        Fix::Fix(_) => panic!("descent into a let must progress"),
    }
}

#[test]
fn test_take_term_parameter_frame_stays() {
    match Loc::top(id_abs()).down() {
        Fix::Pro(l) => {
            let Loc(_, _, mut env) = l;
            // a parameter frame yields a reference to itself, twice over
            match env.take_term("x") {
                Some(Fix::Fix(t)) => assert_eq!(*t, Term::<(), Primitive>::var("x".to_string())),
                _ => panic!("a parameter frame must yield a fixed point"),
            }
            assert!(env.take_term("x").is_some());
            assert!(env.take_term("missing").is_none());
        }
        Fix::Fix(_) => panic!("descent into an abstraction must progress"),
    }
}

#[test]
fn test_take_yields_annotation() {
    match Loc::top(id_abs()).down() {
        Fix::Pro(l) => {
            let Loc(_, _, mut env) = l;
            match env.take("x") {
                Some(Fix::Fix((annotation, t))) => {
                    assert_eq!(annotation, ());
                    assert_eq!(*t, Term::<(), Primitive>::var("x".to_string()));
                }
                _ => panic!("a parameter frame must yield its annotation"),
            }
        }
        Fix::Fix(_) => panic!("descent into an abstraction must progress"),
    }
}

#[test]
fn test_ctx_top_equality() {
    let loc = Loc::top(Term::<(), Primitive>::val_int(1));
    assert_eq!(loc.1, Ctx::Top);
}
