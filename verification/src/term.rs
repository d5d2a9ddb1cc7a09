//! Abstract syntax of the lambda calculus: literal values, variable
//! references by name, single-argument abstractions, applications, and
//! deferred-binding ("let") nodes.

use vstd::prelude::*;

verus! {

/// A primitive literal: an integer or a string.
#[derive(Debug, PartialEq, Eq)]
pub enum Primitive {
    Integer(i64),
    String(String),
}

/// The type of a primitive literal.
#[derive(Debug, PartialEq, Eq)]
pub enum PrimitiveType {
    Integer,
    String,
}

/// A simple object-language type: a primitive type or a function type.
#[derive(Debug, PartialEq, Eq)]
pub enum Type {
    Val(PrimitiveType),
    Abs(Box<Type>, Box<Type>),
}

/// A lambda term, generic over the annotation `T` carried by binders and
/// the value type `V` carried by literals.
///
/// `Let(name, pending, body)` records a deferred substitution: while
/// `pending` is `Some((annotation, thunk))` the thunk has not been forced
/// yet; once a lookup of `name` consumes it, the slot is left `None`.
#[derive(Debug, PartialEq, Eq)]
pub enum Term<T, V> {
    Val(V),
    Var(String),
    Abs(String, T, Box<Term<T, V>>),
    App(Box<Term<T, V>>, Box<Term<T, V>>),
    Let(String, Option<(T, Box<Term<T, V>>)>, Box<Term<T, V>>),
}

/// A term whose head is no longer reducible: a literal or an unapplied
/// abstraction.
pub open spec fn is_hnf<T, V>(t: Term<T, V>) -> bool {
    match t {
        Term::Val(_) => true,
        Term::Abs(_, _, _) => true,
        _ => false,
    }
}

/// `nest_abs(args, t)` wraps `t` in one abstraction per argument, the
/// first argument binding outermost.
pub open spec fn nest_abs<T, V>(args: Seq<(String, T)>, t: Term<T, V>) -> Term<T, V>
    decreases args.len(),
{
    if args.len() == 0 {
        t
    } else {
        nest_abs(args.drop_last(), Term::Abs(args.last().0, args.last().1, Box::new(t)))
    }
}

/// `nest_app(f, args)` applies `f` to each argument in turn, leftmost
/// innermost: `nest_app(f, [a, b]) == App(App(f, a), b)`.
pub open spec fn nest_app<T, V>(f: Term<T, V>, args: Seq<Term<T, V>>) -> Term<T, V>
    decreases args.len(),
{
    if args.len() == 0 {
        f
    } else {
        Term::App(Box::new(nest_app(f, args.drop_last())), Box::new(args.last()))
    }
}

impl<T, V> Term<T, V> {
    /// A variable reference.
    pub fn var(id: String) -> (t: Term<T, V>)
        ensures
            t == Term::<T, V>::Var(id),
    {
        Term::Var(id)
    }

    /// A single-argument abstraction.
    pub fn abs(id: String, y: T, term: Term<T, V>) -> (t: Term<T, V>)
        ensures
            t == Term::<T, V>::Abs(id, y, Box::new(term)),
    {
        Term::Abs(id, y, Box::new(term))
    }

    /// A multi-argument abstraction, curried into nested single-argument
    /// abstractions: the first argument binds outermost.
    pub fn abs_many(first_arg: (String, T), args: Vec<(String, T)>, term: Term<T, V>) -> (t: Term<
        T,
        V,
    >)
        ensures
            t == Term::<T, V>::Abs(
                first_arg.0,
                first_arg.1,
                Box::new(nest_abs(args@, term)),
            ),
    {
        let mut rest = args;
        let mut lambda_term = term;
        while rest.len() > 0
            invariant
                nest_abs(rest@, lambda_term) == nest_abs(args@, term),
            decreases rest@.len(),
        {
            let ghost prev = rest@;
            match rest.pop() {
                Option::Some((id, y)) => {
                    proof {
                        assert(prev.drop_last() =~= rest@);
                    }
                    lambda_term = Term::abs(id, y, lambda_term);
                },
                Option::None => {
                    proof {
                        assert(false);
                    }
                },
            }
        }
        Term::abs(first_arg.0, first_arg.1, lambda_term)
    }

    /// An application.
    pub fn app(fun: Term<T, V>, arg: Term<T, V>) -> (t: Term<T, V>)
        ensures
            t == Term::<T, V>::App(Box::new(fun), Box::new(arg)),
    {
        Term::App(Box::new(fun), Box::new(arg))
    }

    /// A multi-argument application, curried into nested applications:
    /// `app_many(f, a, [b, c]) == App(App(App(f, a), b), c)`.
    pub fn app_many(fun: Term<T, V>, first_arg: Term<T, V>, args: Vec<Term<T, V>>) -> (t: Term<
        T,
        V,
    >)
        ensures
            t == nest_app(Term::<T, V>::App(Box::new(fun), Box::new(first_arg)), args@),
    {
        let ghost base = Term::<T, V>::App(Box::new(fun), Box::new(first_arg));
        let mut rest = args;
        let mut app_term = Term::app(fun, first_arg);
        let ghost mut done: int = 0;
        proof {
            assert(args@.take(0) =~= Seq::<Term<T, V>>::empty());
            assert(args@.skip(0) =~= args@);
        }
        while rest.len() > 0
            invariant
                0 <= done <= args@.len(),
                rest@ =~= args@.skip(done),
                app_term == nest_app(base, args@.take(done)),
            decreases rest@.len(),
        {
            let ghost prev = rest@;
            let arg = rest.remove(0);
            proof {
                assert(arg == prev[0]);
                assert(arg == args@[done]);
                assert(rest@ =~= args@.skip(done + 1));
                assert(args@.take(done + 1).drop_last() =~= args@.take(done));
                assert(args@.take(done + 1).last() == arg);
            }
            app_term = Term::app(app_term, arg);
            proof {
                done = done + 1;
            }
        }
        proof {
            assert(args@.take(done) =~= args@);
        }
        app_term
    }
}

impl<T> Term<T, Primitive> {
    /// An integer literal.
    pub fn val_int(x: i64) -> (t: Term<T, Primitive>)
        ensures
            t == Term::<T, Primitive>::Val(Primitive::Integer(x)),
    {
        Term::Val(Primitive::Integer(x))
    }

    /// A string literal.
    pub fn val_string(x: String) -> (t: Term<T, Primitive>)
        ensures
            t == Term::<T, Primitive>::Val(Primitive::String(x)),
    {
        Term::Val(Primitive::String(x))
    }
}

/// A term with no annotations on its binders.
pub type Untyped<V> = Term<(), V>;

impl<V> Untyped<V> {
    /// A multi-argument unannotated abstraction, curried like
    /// [`Term::abs_many`].
    pub fn abs_many_untyped(first_id: String, many_ids: Vec<String>, term: Untyped<V>) -> (t:
        Untyped<V>)
        ensures
            t == Term::<(), V>::Abs(
                first_id,
                (),
                Box::new(nest_abs(many_ids@.map_values(|id: String| (id, ())), term)),
            ),
    {
        let mut ids = many_ids;
        let mut lambda_term = term;
        while ids.len() > 0
            invariant
                nest_abs(ids@.map_values(|id: String| (id, ())), lambda_term) == nest_abs(
                    many_ids@.map_values(|id: String| (id, ())),
                    term,
                ),
            decreases ids@.len(),
        {
            let ghost prev = ids@;
            match ids.pop() {
                Option::Some(id) => {
                    proof {
                        let prev_pairs = prev.map_values(|i: String| (i, ()));
                        assert(prev_pairs.drop_last() =~= ids@.map_values(|i: String| (i, ())));
                        assert(prev_pairs.last() == (id, ()));
                    }
                    lambda_term = Term::abs(id, (), lambda_term);
                },
                Option::None => {
                    proof {
                        assert(false);
                    }
                },
            }
        }
        proof {
            assert(ids@.map_values(|i: String| (i, ())) =~= Seq::<(String, ())>::empty());
        }
        Term::abs(first_id, (), lambda_term)
    }
}

} // verus!
