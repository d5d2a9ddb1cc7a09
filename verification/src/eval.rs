//! Reduction to head normal form: a shallow one-step rewrite iterated by
//! a bounded trampoline that ascends out of the context whenever the
//! focus is locally normal.
//!
//! Substitution is deferred: applying an abstraction records the
//! argument as a pending let binding instead of rewriting the body, and
//! the binding is forced only when the bound name is looked up. Two
//! deliberate limitations of this discipline: a forced thunk is not
//! memoized, so a second reference to the same let-bound name fails as
//! unbound; and no alpha-renaming is performed, capture avoidance
//! resting on the shadowing check alone.

use vstd::prelude::*;

use crate::fix::Fix;
use crate::term::{is_hnf, Term};
use crate::zipper::{
    bind_name, ctx_kinds, down_spec, env_kinds, find_bind, loc_wf, take_term_env, take_term_result,
    up_spec, Bind, Ctx, Loc, LocView,
};

verus! {

/// A variable name had no binding reachable in the environment: either
/// it is truly unbound, or a let binding was already consumed once.
#[derive(Debug, PartialEq, Eq)]
pub enum ReferenceError {
    NotFound(String),
}

/// An application's function position reduced to a terminal value.
#[derive(Debug, PartialEq, Eq)]
pub enum TypeError<V> {
    NotAFunction(V),
}

/// Why an evaluation stopped without a result.
#[derive(Debug, PartialEq, Eq)]
pub enum EvalError<V> {
    ReferenceError(ReferenceError),
    TypeError(TypeError<V>),
    /// Evaluation did not reach a fixed point within the step budget.
    ResourceExhausted,
}

type EvalResult<T, V> = Result<Fix<Loc<T, V>>, EvalError<V>>;

/// What one shallow step does to a location, before any ascent: values
/// and abstractions are fixed points, a variable is replaced by what its
/// binding yields, an applied abstraction becomes a let with a pending
/// thunk, and a let is dropped, pushed through a non-shadowing
/// abstraction, or descended into, depending on its body.
pub open spec fn step_spec<T, V>(l: LocView<T, V>) -> Result<Fix<LocView<T, V>>, EvalError<V>> {
    match l.term {
        Term::Var(s) => match take_term_result(l.env, s@) {
            None => Err(EvalError::ReferenceError(ReferenceError::NotFound(s))),
            Some(Fix::Fix(tb)) => Ok(
                Fix::Fix(LocView { term: *tb, ctx: l.ctx, env: take_term_env(l.env, s@) }),
            ),
            Some(Fix::Pro(tb)) => Ok(
                Fix::Pro(LocView { term: *tb, ctx: l.ctx, env: take_term_env(l.env, s@) }),
            ),
        },
        Term::App(fun, arg) => match *fun {
            Term::Val(v) => Err(EvalError::TypeError(TypeError::NotAFunction(v))),
            Term::Abs(id, y, body) => Ok(
                Fix::Pro(
                    LocView { term: Term::Let(id, Some((y, arg)), body), ctx: l.ctx, env: l.env },
                ),
            ),
            _ => Ok(down_spec(l)),
        },
        Term::Let(s, o, body) => match *body {
            Term::Val(_) => Ok(Fix::Pro(LocView { term: *body, ctx: l.ctx, env: l.env })),
            Term::Abs(a_s, a_y, a_body) => {
                if s@ == a_s@ {
                    Ok(
                        Fix::Pro(
                            LocView { term: Term::Abs(a_s, a_y, a_body), ctx: l.ctx, env: l.env },
                        ),
                    )
                } else {
                    Ok(
                        Fix::Pro(
                            LocView {
                                term: Term::Abs(a_s, a_y, Box::new(Term::Let(s, o, a_body))),
                                ctx: l.ctx,
                                env: l.env,
                            },
                        ),
                    )
                }
            },
            _ => Ok(down_spec(l)),
        },
        _ => Ok(Fix::Fix(l)),
    }
}

/// The location inside a step result.
pub open spec fn step_view<T, V>(r: Result<Fix<Loc<T, V>>, EvalError<V>>) -> Result<
    Fix<LocView<T, V>>,
    EvalError<V>,
> {
    match r {
        Ok(Fix::Fix(l)) => Ok(Fix::Fix(l@)),
        Ok(Fix::Pro(l)) => Ok(Fix::Pro(l@)),
        Err(e) => Err(e),
    }
}

/// One trampoline iteration: a shallow step, then an ascent whenever the
/// step reports a local fixed point. The iteration is itself a fixed
/// point only when ascent finds nothing left above the focus.
pub open spec fn step_up_spec<T, V>(l: LocView<T, V>) -> Result<Fix<LocView<T, V>>, EvalError<V>> {
    match step_spec(l) {
        Err(e) => Err(e),
        Ok(Fix::Fix(l2)) => Ok(up_spec(l2)),
        Ok(Fix::Pro(l2)) => Ok(Fix::Pro(l2)),
    }
}

/// The outcome of iterating [`step_up_spec`] under a step budget.
pub enum RunResult<T, V> {
    /// A fixed point was reached; the term is in head normal form.
    Done(Term<T, V>),
    /// A step failed; evaluation stops at the first error.
    Failed(EvalError<V>),
    /// The budget ran out before a fixed point was reached.
    Exhausted,
}

/// Iterate [`step_up_spec`] from `l`, spending one unit of fuel per
/// progress step.
pub open spec fn run_spec<T, V>(l: LocView<T, V>, fuel: nat) -> RunResult<T, V>
    decreases fuel,
{
    match step_up_spec(l) {
        Err(e) => RunResult::Failed(e),
        Ok(Fix::Fix(l2)) => RunResult::Done(l2.term),
        Ok(Fix::Pro(l2)) => if fuel == 0 {
            RunResult::Exhausted
        } else {
            run_spec(l2, (fuel - 1) as nat)
        },
    }
}

/// How many progress steps the iteration performs before it stops, for
/// whatever reason.
pub open spec fn run_steps<T, V>(l: LocView<T, V>, fuel: nat) -> nat
    decreases fuel,
{
    match step_up_spec(l) {
        Err(_) => 0,
        Ok(Fix::Fix(_)) => 0,
        Ok(Fix::Pro(l2)) => if fuel == 0 {
            0
        } else {
            1 + run_steps(l2, (fuel - 1) as nat)
        },
    }
}

/// A run outcome as the caller sees it.
pub open spec fn run_result_to_result<T, V>(r: RunResult<T, V>) -> Result<Term<T, V>, EvalError<V>> {
    match r {
        RunResult::Done(t) => Ok(t),
        RunResult::Failed(e) => Err(e),
        RunResult::Exhausted => Err(EvalError::ResourceExhausted),
    }
}

/// A whole term focused at the top, with no context and no bindings.
pub open spec fn top_view<T, V>(t: Term<T, V>) -> LocView<T, V> {
    LocView { term: t, ctx: Ctx::Top, env: Seq::empty() }
}

fn eval_shallow<T, V>(loc: Loc<T, V>) -> (r: EvalResult<T, V>)
    ensures
        step_view(r) == step_spec(loc@),
{
    match loc {
        Loc(Term::Var(s), c, e) => {
            let mut e = e;
            match e.take_term(s.as_str()) {
                None => Err(EvalError::ReferenceError(ReferenceError::NotFound(s))),
                Some(Fix::Fix(t_box)) => Ok(Fix::Fix(Loc(*t_box, c, e))),
                Some(Fix::Pro(t_box)) => Ok(Fix::Pro(Loc(*t_box, c, e))),
            }
        },
        Loc(Term::App(fun_box, arg_box), c, e) => {
            let fun: Term<T, V> = *fun_box;
            match fun {
                Term::Val(val) => Err(EvalError::TypeError(TypeError::NotAFunction(val))),
                Term::Abs(id, y, term_box) => Ok(
                    Fix::Pro(Loc(Term::Let(id, Option::Some((y, arg_box)), term_box), c, e)),
                ),
                _ => Ok(Loc::down(Loc(Term::App(Box::new(fun), arg_box), c, e))),
            }
        },
        Loc(Term::Let(s, o, t_box), c, e) => {
            let t: Term<T, V> = *t_box;
            match t {
                Term::Val(_) => Ok(Fix::Pro(Loc(t, c, e))),
                Term::Abs(abs_s, abs_y, abs_t_box) => {
                    if s == abs_s {
                        // the abstraction re-binds the same name, shadowing
                        // the let, so the let can be dropped
                        Ok(Fix::Pro(Loc(Term::Abs(abs_s, abs_y, abs_t_box), c, e)))
                    } else {
                        // no shadowing, so the let moves inside the
                        // abstraction to become visible once it is entered
                        Ok(
                            Fix::Pro(
                                Loc(
                                    Term::Abs(abs_s, abs_y, Box::new(Term::Let(s, o, abs_t_box))),
                                    c,
                                    e,
                                ),
                            ),
                        )
                    }
                },
                _ => Ok(Loc::down(Loc(Term::Let(s, o, Box::new(t)), c, e))),
            }
        },
        _ => Ok(Fix::Fix(loc)),
    }
}

/// A found binding lies inside the environment.
proof fn lemma_find_bind_range<T, V>(env: Seq<Bind<T, V>>, id: Seq<char>)
    ensures
        find_bind(env, id) matches Some(i) ==> 0 <= i < env.len(),
    decreases env.len(),
{
    if env.len() > 0 && bind_name(env.last()) != id {
        lemma_find_bind_range(env.drop_last(), id);
    }
}

/// Consuming a binding never changes the shape of the environment: a
/// spent let frame is still a let frame.
proof fn lemma_take_term_env_kinds<T, V>(env: Seq<Bind<T, V>>, id: Seq<char>)
    ensures
        env_kinds(take_term_env(env, id)) == env_kinds(env),
{
    lemma_find_bind_range(env, id);
    match find_bind(env, id) {
        Some(i) => match env[i] {
            Bind::Let(s, Some(_)) => {
                assert(env_kinds(env.update(i, Bind::<T, V>::Let(s, None))) =~= env_kinds(env));
            },
            _ => {},
        },
        None => {},
    }
}

/// One shallow step preserves well-formedness of the location.
proof fn lemma_step_wf<T, V>(l: LocView<T, V>)
    requires
        loc_wf(l),
    ensures
        step_spec(l) matches Ok(f) ==> loc_wf(
            match f {
                Fix::Fix(l2) => l2,
                Fix::Pro(l2) => l2,
            },
        ),
{
    match l.term {
        Term::Var(s) => {
            lemma_take_term_env_kinds(l.env, s@);
        },
        Term::App(_, _) => {},
        Term::Let(s, o, body) => {
            match down_spec(l) {
                Fix::Pro(l2) => {
                    assert(env_kinds(l.env.push(Bind::<T, V>::Let(s, o))) =~= env_kinds(
                        l.env,
                    ).push(false));
                },
                _ => {},
            }
        },
        _ => {},
    }
}

/// The number of trampoline iterations allowed when no explicit budget
/// is given.
pub const DEFAULT_STEP_LIMIT: u64 = 1000000;

/// Run the trampoline from `loc`, counting progress steps.
fn run_loc<T, V>(loc: Loc<T, V>, limit: u64) -> (r: (Result<Term<T, V>, EvalError<V>>, u64))
    requires
        loc_wf(loc@),
    ensures
        r.0 == run_result_to_result(run_spec(loc@, limit as nat)),
        r.1 as nat == run_steps(loc@, limit as nat),
{
    let mut cur = loc;
    let mut remaining = limit;
    loop
        invariant
            loc_wf(cur@),
            remaining <= limit,
            run_spec(cur@, remaining as nat) == run_spec(loc@, limit as nat),
            run_steps(loc@, limit as nat) == (limit - remaining) + run_steps(
                cur@,
                remaining as nat,
            ),
        decreases remaining,
    {
        proof {
            lemma_step_wf(cur@);
        }
        match eval_shallow(cur) {
            Err(e) => {
                return (Err(e), limit - remaining);
            },
            Ok(Fix::Pro(next)) => {
                if remaining == 0 {
                    return (Err(EvalError::ResourceExhausted), limit);
                }
                remaining = remaining - 1;
                cur = next;
            },
            Ok(Fix::Fix(stuck)) => {
                proof {
                    crate::zipper::lemma_up_wf(stuck@);
                }
                match stuck.up() {
                    Fix::Fix(done) => {
                        return (Ok(done.get()), limit - remaining);
                    },
                    Fix::Pro(next) => {
                        if remaining == 0 {
                            return (Err(EvalError::ResourceExhausted), limit);
                        }
                        remaining = remaining - 1;
                        cur = next;
                    },
                }
            },
        }
    }
}

/// Reduce `term` to head normal form under the default step budget: the
/// result of iterating [`step_up_spec`] from the top of the term.
pub fn eval<T, V>(term: Term<T, V>) -> (r: Result<Term<T, V>, EvalError<V>>)
    ensures
        r == run_result_to_result(run_spec(top_view(term), DEFAULT_STEP_LIMIT as nat)),
{
    eval_bounded(term, DEFAULT_STEP_LIMIT)
}

/// Reduce `term` to head normal form, giving up with
/// [`EvalError::ResourceExhausted`] after `limit` rewriting steps.
pub fn eval_bounded<T, V>(term: Term<T, V>, limit: u64) -> (r: Result<Term<T, V>, EvalError<V>>)
    ensures
        r == run_result_to_result(run_spec(top_view(term), limit as nat)),
{
    run_loc(Loc::top(term), limit).0
}

/// Like [`eval_bounded`], also reporting how many rewriting steps the
/// reduction performed.
pub fn eval_counted<T, V>(term: Term<T, V>, limit: u64) -> (r: (
    Result<Term<T, V>, EvalError<V>>,
    u64,
))
    ensures
        r.0 == run_result_to_result(run_spec(top_view(term), limit as nat)),
        r.1 as nat == run_steps(top_view(term), limit as nat),
{
    run_loc(Loc::top(term), limit)
}

/// Whenever a well-formed location runs to completion, the resulting
/// term is in head normal form: a literal value or an unapplied
/// abstraction.
pub proof fn lemma_done_is_hnf<T, V>(l: LocView<T, V>, fuel: nat)
    requires
        loc_wf(l),
    ensures
        run_spec(l, fuel) matches RunResult::Done(t) ==> is_hnf(t),
    decreases fuel,
{
    lemma_step_wf(l);
    match step_spec(l) {
        Err(_) => {},
        Ok(Fix::Fix(l2)) => {
            crate::zipper::lemma_up_wf(l2);
            crate::zipper::lemma_wf_frames(l2);
            match up_spec(l2) {
                Fix::Fix(_) => {
                    // ascent found nothing above the focus, so under
                    // well-formedness the context is Top and the
                    // environment empty; a Var focus would then have
                    // failed its lookup rather than reached a fixed point
                    match l.term {
                        Term::Var(_) => {
                            match l.ctx {
                                Ctx::Top => {
                                    assert(env_kinds(l.env) =~= Seq::<bool>::empty());
                                    assert(env_kinds(l.env).len() == l.env.len());
                                    assert(l.env =~= Seq::<Bind<T, V>>::empty());
                                },
                                _ => {},
                            }
                        },
                        _ => {},
                    }
                },
                Fix::Pro(l3) => {
                    if fuel > 0 {
                        lemma_done_is_hnf(l3, (fuel - 1) as nat);
                    }
                },
            }
        },
        Ok(Fix::Pro(l2)) => {
            if fuel > 0 {
                lemma_done_is_hnf(l2, (fuel - 1) as nat);
            }
        },
    }
}

/// On success, [`eval`] returns a term in head normal form: a literal
/// value or an unapplied abstraction.
pub proof fn lemma_eval_returns_hnf<T, V>(t: Term<T, V>, fuel: nat)
    ensures
        run_spec(top_view(t), fuel) matches RunResult::Done(r) ==> is_hnf(r),
{
    assert(env_kinds(top_view(t).env) =~= ctx_kinds::<T, V>(Ctx::Top));
    lemma_done_is_hnf(top_view(t), fuel);
}

/// Applying an identity abstraction to a literal value yields that
/// value, for any binder name and any budget of at least five steps:
/// one beta step recording the argument as a pending let, one descent
/// into the let body, one lookup that consumes the thunk, and two steps
/// that discard the spent let around the value.
pub proof fn lemma_eval_identity_application<T, V>(s1: String, s2: String, y: T, v: V, fuel: nat)
    requires
        s1@ == s2@,
        fuel >= 5,
    ensures
        run_result_to_result(
            run_spec(
                top_view(
                    Term::<T, V>::App(
                        Box::new(Term::Abs(s1, y, Box::new(Term::Var(s2)))),
                        Box::new(Term::Val(v)),
                    ),
                ),
                fuel,
            ),
        ) == Ok::<Term<T, V>, EvalError<V>>(Term::Val(v)),
{
    let empty_env = Seq::<Bind<T, V>>::empty();
    let arg = Box::new(Term::<T, V>::Val(v));
    let l0 = top_view(
        Term::<T, V>::App(Box::new(Term::Abs(s1, y, Box::new(Term::Var(s2)))), arg),
    );
    // beta: the application becomes a let with a pending thunk
    let l1 = LocView {
        term: Term::<T, V>::Let(s1, Some((y, arg)), Box::new(Term::Var(s2))),
        ctx: Ctx::Top,
        env: empty_env,
    };
    assert(step_up_spec(l0) == Ok::<Fix<LocView<T, V>>, EvalError<V>>(Fix::Pro(l1)));
    // the let body is a variable, so descend, pushing the let frame
    let env1 = empty_env.push(Bind::Let(s1, Some((y, arg))));
    let l2 = LocView {
        term: Term::<T, V>::Var(s2),
        ctx: Ctx::Let(Box::new(Ctx::Top)),
        env: env1,
    };
    assert(step_up_spec(l1) == Ok::<Fix<LocView<T, V>>, EvalError<V>>(Fix::Pro(l2)));
    // the lookup consumes the thunk and leaves the frame spent
    assert(env1.last() == Bind::<T, V>::Let(s1, Some((y, arg))));
    assert(find_bind(env1, s2@) == Some(0int));
    let env_spent = env1.update(0, Bind::<T, V>::Let(s1, None));
    assert(take_term_result(env1, s2@) == Some(Fix::Pro(arg)));
    assert(take_term_env(env1, s2@) == env_spent);
    let l3 = LocView {
        term: Term::<T, V>::Val(v),
        ctx: Ctx::Let(Box::new(Ctx::Top)),
        env: env_spent,
    };
    assert(step_up_spec(l2) == Ok::<Fix<LocView<T, V>>, EvalError<V>>(Fix::Pro(l3)));
    // the value is locally normal, so ascend, reassembling the spent let
    assert(env_spent.last() == Bind::<T, V>::Let(s1, None));
    assert(env_spent.drop_last() =~= empty_env);
    let l4 = LocView {
        term: Term::<T, V>::Let(s1, None, Box::new(Term::Val(v))),
        ctx: Ctx::Top,
        env: empty_env,
    };
    assert(step_up_spec(l3) == Ok::<Fix<LocView<T, V>>, EvalError<V>>(Fix::Pro(l4)));
    // a let around a value is irrelevant and is dropped
    let l5 = LocView { term: Term::<T, V>::Val(v), ctx: Ctx::Top, env: empty_env };
    assert(step_up_spec(l4) == Ok::<Fix<LocView<T, V>>, EvalError<V>>(Fix::Pro(l5)));
    // the value at the top is the result
    assert(step_up_spec(l5) == Ok::<Fix<LocView<T, V>>, EvalError<V>>(Fix::Fix(l5)));
    assert(run_spec(l5, (fuel - 5) as nat) == RunResult::<T, V>::Done(Term::Val(v)));
    assert(run_spec(l4, (fuel - 4) as nat) == RunResult::<T, V>::Done(Term::Val(v)));
    assert(run_spec(l3, (fuel - 3) as nat) == RunResult::<T, V>::Done(Term::Val(v)));
    assert(run_spec(l2, (fuel - 2) as nat) == RunResult::<T, V>::Done(Term::Val(v)));
    assert(run_spec(l1, (fuel - 1) as nat) == RunResult::<T, V>::Done(Term::Val(v)));
    assert(run_spec(l0, fuel) == RunResult::<T, V>::Done(Term::Val(v)));
}

/// A term already in head normal form — a literal value or an unapplied
/// abstraction — evaluates to itself, whatever the budget, and performs
/// zero rewriting steps.
pub proof fn lemma_eval_hnf<T, V>(t: Term<T, V>, fuel: nat)
    requires
        is_hnf(t),
    ensures
        run_spec(top_view(t), fuel) == RunResult::<T, V>::Done(t),
        run_steps(top_view(t), fuel) == 0,
{
}

/// A literal value is already head normal: evaluating it returns it
/// unchanged.
pub proof fn lemma_eval_value<T, V>(v: V, fuel: nat)
    ensures
        run_result_to_result(run_spec(top_view(Term::<T, V>::Val(v)), fuel)) == Ok::<
            Term<T, V>,
            EvalError<V>,
        >(Term::Val(v)),
{
    lemma_eval_hnf(Term::<T, V>::Val(v), fuel);
}

/// An unapplied abstraction is already head normal: evaluating it
/// returns it unchanged.
pub proof fn lemma_eval_abs<T, V>(s: String, y: T, body: Term<T, V>, fuel: nat)
    ensures
        run_result_to_result(
            run_spec(top_view(Term::<T, V>::Abs(s, y, Box::new(body))), fuel),
        ) == Ok::<Term<T, V>, EvalError<V>>(Term::Abs(s, y, Box::new(body))),
{
    lemma_eval_hnf(Term::<T, V>::Abs(s, y, Box::new(body)), fuel);
}

} // verus!
