//! A zipper over lambda terms: a focused subterm, the context that
//! surrounds it, and an environment of bindings pushed while descending
//! through binders.

use vstd::prelude::*;
use vstd::pervasive::cloned;

use crate::fix::Fix;
use crate::term::Term;

verus! {

/// The surroundings of a focused subterm: `Top` means the focus is the
/// whole term; `AppL` holds the not-yet-visited argument, `AppR` the
/// already-visited function side.
#[derive(Debug, PartialEq, Eq)]
pub enum Ctx<T, V> {
    Top,
    Abs(Box<Ctx<T, V>>),
    AppL(Box<Ctx<T, V>>, Term<T, V>),
    AppR(Term<T, V>, Box<Ctx<T, V>>),
    Let(Box<Ctx<T, V>>),
}

/// One binding frame: a parameter of an enclosing abstraction, or a let
/// binding whose thunk is consumed by the first lookup.
#[derive(Debug, PartialEq, Eq)]
pub enum Bind<T, V> {
    Var(String, T),
    Let(String, Option<(T, Box<Term<T, V>>)>),
}

/// An ordered stack of binding frames; the last element is the innermost
/// scope.
#[derive(Debug, PartialEq, Eq)]
pub struct Env<T, V>(Vec<Bind<T, V>>);

impl<T, V> View for Env<T, V> {
    type V = Seq<Bind<T, V>>;

    closed spec fn view(&self) -> Seq<Bind<T, V>> {
        self.0@
    }
}

/// The name a frame binds.
pub open spec fn bind_name<T, V>(b: Bind<T, V>) -> Seq<char> {
    match b {
        Bind::Var(s, _) => s@,
        Bind::Let(s, _) => s@,
    }
}

/// The index of the innermost frame binding `id`, if any.
pub open spec fn find_bind<T, V>(env: Seq<Bind<T, V>>, id: Seq<char>) -> Option<int>
    decreases env.len(),
{
    if env.len() == 0 {
        None
    } else if bind_name(env.last()) == id {
        Some(env.len() - 1)
    } else {
        find_bind(env.drop_last(), id)
    }
}

/// What [`Env::take_term`] hands back: a parameter frame yields a
/// reference to itself as a fixed point, a let frame yields its thunk as
/// progress, and a spent let frame or a missing name yields nothing.
pub open spec fn take_term_result<T, V>(env: Seq<Bind<T, V>>, id: Seq<char>) -> Option<
    Fix<Box<Term<T, V>>>,
> {
    match find_bind(env, id) {
        None => None,
        Some(i) => match env[i] {
            Bind::Var(s, _) => Some(Fix::Fix(Box::new(Term::Var(s)))),
            Bind::Let(_, Some((_, t))) => Some(Fix::Pro(t)),
            Bind::Let(_, None) => None,
        },
    }
}

/// The environment after [`Env::take_term`]: a consumed let thunk leaves
/// its frame spent; everything else is unchanged.
pub open spec fn take_term_env<T, V>(env: Seq<Bind<T, V>>, id: Seq<char>) -> Seq<Bind<T, V>> {
    match find_bind(env, id) {
        Some(i) => match env[i] {
            Bind::Let(s, Some(_)) => env.update(i, Bind::Let(s, None)),
            _ => env,
        },
        None => env,
    }
}

/// Relies on str's PartialEq: two string slices are equal exactly when
/// their character sequences are.
#[verifier::external_body]
fn str_eq(a: &str, b: &str) -> (r: bool)
    ensures
        r == (a@ == b@),
{
    a == b
}

impl<T, V> Bind<T, V> {
    fn is_identified_by(&self, id: &str) -> (r: bool)
        ensures
            r == (bind_name(*self) == id@),
    {
        match self {
            Bind::Var(s, _) => str_eq(id, s.as_str()),
            Bind::Let(s, _) => str_eq(id, s.as_str()),
        }
    }
}

impl<T, V> Env<T, V> {
    fn new() -> (e: Env<T, V>)
        ensures
            e@ == Seq::<Bind<T, V>>::empty(),
    {
        Env(Vec::new())
    }

    fn push_var(&mut self, s: String, y: T)
        ensures
            final(self)@ == old(self)@.push(Bind::Var(s, y)),
    {
        self.0.push(Bind::Var(s, y))
    }

    fn push_let(&mut self, s: String, o: Option<(T, Box<Term<T, V>>)>)
        ensures
            final(self)@ == old(self)@.push(Bind::Let(s, o)),
    {
        self.0.push(Bind::Let(s, o))
    }

    fn pop_var(&mut self) -> (r: (String, T))
        requires
            old(self)@.len() > 0,
            old(self)@.last() matches Bind::Var(_, _),
        ensures
            final(self)@ == old(self)@.drop_last(),
            old(self)@.last() == Bind::<T, V>::Var(r.0, r.1),
    {
        match self.0.pop() {
            Some(Bind::Var(s, y)) => (s, y),
            _ => unreached(),
        }
    }

    fn pop_let(&mut self) -> (r: (String, Option<(T, Box<Term<T, V>>)>))
        requires
            old(self)@.len() > 0,
            old(self)@.last() matches Bind::Let(_, _),
        ensures
            final(self)@ == old(self)@.drop_last(),
            old(self)@.last() == Bind::<T, V>::Let(r.0, r.1),
    {
        match self.0.pop() {
            Some(Bind::Let(s, o)) => (s, o),
            _ => unreached(),
        }
    }

    /// The index of the innermost frame binding `id`, if any.
    fn position(&self, id: &str) -> (r: Option<usize>)
        ensures
            match r {
                Some(i) => i < self@.len() && find_bind(self@, id@) == Some(i as int),
                None => find_bind(self@, id@) is None,
            },
    {
        let mut i = self.0.len();
        proof {
            assert(self@.take(self@.len() as int) =~= self@);
        }
        while i > 0
            invariant
                i <= self@.len(),
                find_bind(self@, id@) == find_bind(self@.take(i as int), id@),
            decreases i,
        {
            let ghost pre = self@.take(i as int);
            i = i - 1;
            if self.0[i].is_identified_by(id) {
                proof {
                    assert(pre.last() == self@[i as int]);
                }
                return Some(i);
            }
            proof {
                assert(pre.last() == self@[i as int]);
                assert(pre.drop_last() =~= self@.take(i as int));
            }
        }
        proof {
            assert(self@.take(0) =~= Seq::<Bind<T, V>>::empty());
        }
        None
    }

    /// Innermost-first lookup that consumes, pairing the found term with
    /// the binder's annotation: behaves as [`Env::take_term`], except
    /// that a parameter frame also yields a clone of its annotation and
    /// a let frame yields the annotation stored beside its thunk.
    pub fn take(&mut self, id: &str) -> (r: Option<Fix<(T, Box<Term<T, V>>)>>) where T: Clone
        ensures
            final(self)@ == take_term_env(old(self)@, id@),
            match find_bind(old(self)@, id@) {
                None => r is None,
                Some(i) => match old(self)@[i] {
                    Bind::Var(s, y) => r matches Some(Fix::Fix(p)) && cloned::<T>(y, p.0) && p.1
                        == Box::new(Term::<T, V>::Var(s)),
                    Bind::Let(_, Some(p0)) => r == Some(Fix::Pro(p0)),
                    Bind::Let(_, None) => r is None,
                },
            },
    {
        match self.position(id) {
            None => None,
            Some(i) => {
                let ghost pre = self@;
                match &mut self.0[i] {
                    Bind::Var(s, y) => {
                        let name = s.clone();
                        let annotation = y.clone();
                        proof {
                            assert(pre.update(i as int, pre[i as int]) =~= pre);
                        }
                        Some(Fix::Fix((annotation, Box::new(Term::Var(name)))))
                    },
                    Bind::Let(_, o) => {
                        match o.take() {
                            None => {
                                proof {
                                    assert(pre.update(i as int, pre[i as int]) =~= pre);
                                }
                                None
                            },
                            Some(p) => Some(Fix::Pro(p)),
                        }
                    },
                }
            },
        }
    }

    /// Innermost-first lookup that consumes: a let frame's thunk is taken
    /// and the frame left spent, so a second lookup of the same name
    /// reports not-found; a parameter frame yields a reference term back
    /// to itself and stays intact.
    pub fn take_term(&mut self, id: &str) -> (r: Option<Fix<Box<Term<T, V>>>>)
        ensures
            r == take_term_result(old(self)@, id@),
            final(self)@ == take_term_env(old(self)@, id@),
    {
        match self.position(id) {
            None => None,
            Some(i) => {
                let ghost pre = self@;
                match &mut self.0[i] {
                    Bind::Var(s, _) => {
                        let name = s.clone();
                        proof {
                            assert(pre.update(i as int, pre[i as int]) =~= pre);
                        }
                        Some(Fix::Fix(Box::new(Term::Var(name))))
                    },
                    Bind::Let(_, o) => {
                        match o.take() {
                            None => {
                                proof {
                                    assert(pre.update(i as int, pre[i as int]) =~= pre);
                                }
                                None
                            },
                            Some((_, t_box)) => Some(Fix::Pro(t_box)),
                        }
                    },
                }
            },
        }
    }
}

/// The mathematical value of a [`Loc`]: the focused term, its context,
/// and the environment as a sequence of frames.
pub struct LocView<T, V> {
    pub term: Term<T, V>,
    pub ctx: Ctx<T, V>,
    pub env: Seq<Bind<T, V>>,
}

/// Which kind of frame each binder of a context pushes, outermost first:
/// `true` for a parameter frame, `false` for a let frame.
pub open spec fn ctx_kinds<T, V>(c: Ctx<T, V>) -> Seq<bool>
    decreases c,
{
    match c {
        Ctx::Top => Seq::empty(),
        Ctx::Abs(c0) => ctx_kinds(*c0).push(true),
        Ctx::AppL(c0, _) => ctx_kinds(*c0),
        Ctx::AppR(_, c0) => ctx_kinds(*c0),
        Ctx::Let(c0) => ctx_kinds(*c0).push(false),
    }
}

/// The kind of each environment frame, in stack order.
pub open spec fn env_kinds<T, V>(env: Seq<Bind<T, V>>) -> Seq<bool> {
    env.map_values(|b: Bind<T, V>| b matches Bind::Var(_, _))
}

/// A location is well formed when its environment holds exactly one
/// frame per binder of its context, of the matching kind. Every location
/// the evaluator builds from [`Loc::top`] stays well formed.
pub open spec fn loc_wf<T, V>(l: LocView<T, V>) -> bool {
    env_kinds(l.env) == ctx_kinds(l.ctx)
}

/// What descending does: an abstraction or a let focuses its body and
/// pushes the matching frame, an application focuses its function side,
/// and anything else is a fixed point.
pub open spec fn down_spec<T, V>(l: LocView<T, V>) -> Fix<LocView<T, V>> {
    match l.term {
        Term::Abs(s, y, t1) => Fix::Pro(
            LocView {
                term: *t1,
                ctx: Ctx::Abs(Box::new(l.ctx)),
                env: l.env.push(Bind::Var(s, y)),
            },
        ),
        Term::App(t1, t2) => Fix::Pro(
            LocView { term: *t1, ctx: Ctx::AppL(Box::new(l.ctx), *t2), env: l.env },
        ),
        Term::Let(s, o, t1) => Fix::Pro(
            LocView {
                term: *t1,
                ctx: Ctx::Let(Box::new(l.ctx)),
                env: l.env.push(Bind::Let(s, o)),
            },
        ),
        _ => Fix::Fix(l),
    }
}

/// What ascending does: the innermost context frame is popped and the
/// enclosing node reassembled, popping the matching environment frame
/// for a binder; at `Top` it is a fixed point. On an ill-formed location
/// whose environment does not match its context it is also a fixed
/// point, a case [`loc_wf`] rules out.
pub open spec fn up_spec<T, V>(l: LocView<T, V>) -> Fix<LocView<T, V>> {
    match l.ctx {
        Ctx::Abs(c) => {
            if l.env.len() > 0 && (l.env.last() matches Bind::Var(_, _)) {
                match l.env.last() {
                    Bind::Var(s, y) => Fix::Pro(
                        LocView {
                            term: Term::Abs(s, y, Box::new(l.term)),
                            ctx: *c,
                            env: l.env.drop_last(),
                        },
                    ),
                    _ => Fix::Fix(l),
                }
            } else {
                Fix::Fix(l)
            }
        },
        Ctx::AppL(c, t2) => Fix::Pro(
            LocView { term: Term::App(Box::new(l.term), Box::new(t2)), ctx: *c, env: l.env },
        ),
        Ctx::AppR(t1, c) => Fix::Pro(
            LocView { term: Term::App(Box::new(t1), Box::new(l.term)), ctx: *c, env: l.env },
        ),
        Ctx::Let(c) => {
            if l.env.len() > 0 && (l.env.last() matches Bind::Let(_, _)) {
                match l.env.last() {
                    Bind::Let(s, o) => Fix::Pro(
                        LocView {
                            term: Term::Let(s, o, Box::new(l.term)),
                            ctx: *c,
                            env: l.env.drop_last(),
                        },
                    ),
                    _ => Fix::Fix(l),
                }
            } else {
                Fix::Fix(l)
            }
        },
        Ctx::Top => Fix::Fix(l),
    }
}

/// What moving to the function side does: only legal when the focus is
/// an application's argument side.
pub open spec fn left_spec<T, V>(l: LocView<T, V>) -> Fix<LocView<T, V>> {
    match l.ctx {
        Ctx::AppR(t1, c) => Fix::Pro(
            LocView { term: t1, ctx: Ctx::AppL(c, l.term), env: l.env },
        ),
        _ => Fix::Fix(l),
    }
}

/// What moving to the argument side does: only legal when the focus is
/// an application's function side.
pub open spec fn right_spec<T, V>(l: LocView<T, V>) -> Fix<LocView<T, V>> {
    match l.ctx {
        Ctx::AppL(c, t2) => Fix::Pro(
            LocView { term: t2, ctx: Ctx::AppR(l.term, c), env: l.env },
        ),
        _ => Fix::Fix(l),
    }
}

/// A focused term together with its context and environment.
#[derive(Debug, PartialEq, Eq)]
pub struct Loc<T, V>(pub Term<T, V>, pub Ctx<T, V>, pub Env<T, V>);

impl<T, V> View for Loc<T, V> {
    type V = LocView<T, V>;

    open spec fn view(&self) -> LocView<T, V> {
        LocView { term: self.0, ctx: self.1, env: self.2@ }
    }
}

/// The location inside a navigation result.
pub open spec fn fix_loc_view<T, V>(f: Fix<Loc<T, V>>) -> Fix<LocView<T, V>> {
    match f {
        Fix::Fix(l) => Fix::Fix(l@),
        Fix::Pro(l) => Fix::Pro(l@),
    }
}

impl<T, V> Loc<T, V> {
    /// The focused term, dropping context and environment.
    pub fn get(self) -> (t: Term<T, V>)
        ensures
            t == self@.term,
    {
        self.0
    }

    /// The same location refocused on another term.
    pub fn set(self, term: Term<T, V>) -> (l: Loc<T, V>)
        ensures
            l@ == (LocView { term, ..self@ }),
    {
        Loc(term, self.1, self.2)
    }

    /// A location focusing a whole term, with nothing around it and no
    /// bindings pending.
    pub fn top(term: Term<T, V>) -> (l: Loc<T, V>)
        ensures
            l@ == (LocView::<T, V> { term, ctx: Ctx::Top, env: Seq::empty() }),
            loc_wf(l@),
    {
        let l = Loc(term, Ctx::Top, Env::new());
        proof {
            assert(env_kinds(l@.env) =~= ctx_kinds::<T, V>(Ctx::Top));
        }
        l
    }

    /// Descend into the focused term, as [`down_spec`] says.
    pub fn down(self) -> (r: Fix<Loc<T, V>>)
        ensures
            fix_loc_view(r) == down_spec(self@),
    {
        match self {
            Loc(Term::Abs(s, y, t1), c, e) => {
                let mut e = e;
                e.push_var(s, y);
                Fix::Pro(Loc(*t1, Ctx::Abs(Box::new(c)), e))
            },
            Loc(Term::App(t1, t2), c, e) => Fix::Pro(Loc(*t1, Ctx::AppL(Box::new(c), *t2), e)),
            Loc(Term::Let(s, o, t1), c, e) => {
                let mut e = e;
                e.push_let(s, o);
                Fix::Pro(Loc(*t1, Ctx::Let(Box::new(c)), e))
            },
            _ => Fix::Fix(self),
        }
    }

    /// Ascend out of the focused term, as [`up_spec`] says. The
    /// precondition rules out locations whose innermost binder frame
    /// does not match the context.
    pub fn up(self) -> (r: Fix<Loc<T, V>>)
        requires
            loc_wf(self@),
        ensures
            fix_loc_view(r) == up_spec(self@),
    {
        proof {
            lemma_wf_frames(self@);
        }
        match self {
            Loc(t1, Ctx::Abs(c), e) => {
                let mut e = e;
                let (s, y) = e.pop_var();
                Fix::Pro(Loc(Term::abs(s, y, t1), *c, e))
            },
            Loc(t1, Ctx::AppL(c, t2), e) => Fix::Pro(Loc(Term::app(t1, t2), *c, e)),
            Loc(t2, Ctx::AppR(t1, c), e) => Fix::Pro(Loc(Term::app(t1, t2), *c, e)),
            Loc(t1, Ctx::Let(c), e) => {
                let mut e = e;
                let (s, o) = e.pop_let();
                Fix::Pro(Loc(Term::Let(s, o, Box::new(t1)), *c, e))
            },
            _ => Fix::Fix(self),
        }
    }

    /// Move from an application's argument side to its function side, as
    /// [`left_spec`] says.
    pub fn left(self) -> (r: Fix<Loc<T, V>>)
        ensures
            fix_loc_view(r) == left_spec(self@),
    {
        match self {
            Loc(t2, Ctx::AppR(t1, c), e) => Fix::Pro(Loc(t1, Ctx::AppL(c, t2), e)),
            _ => Fix::Fix(self),
        }
    }

    /// Move from an application's function side to its argument side, as
    /// [`right_spec`] says.
    pub fn right(self) -> (r: Fix<Loc<T, V>>)
        ensures
            fix_loc_view(r) == right_spec(self@),
    {
        match self {
            Loc(t1, Ctx::AppL(c, t2), e) => Fix::Pro(Loc(t2, Ctx::AppR(t1, c), e)),
            _ => Fix::Fix(self),
        }
    }
}

/// Descending keeps a location well formed: entering a binder pushes
/// the matching frame.
pub proof fn lemma_down_wf<T, V>(l: LocView<T, V>)
    requires
        loc_wf(l),
    ensures
        down_spec(l) matches Fix::Pro(l2) ==> loc_wf(l2),
        down_spec(l) matches Fix::Fix(l2) ==> loc_wf(l2),
{
    match l.term {
        Term::Abs(s, y, _) => {
            assert(env_kinds(l.env.push(Bind::<T, V>::Var(s, y))) =~= env_kinds(l.env).push(true));
        },
        Term::Let(s, o, _) => {
            assert(env_kinds(l.env.push(Bind::<T, V>::Let(s, o))) =~= env_kinds(l.env).push(
                false,
            ));
        },
        _ => {},
    }
}

/// Ascending keeps a location well formed: leaving a binder pops the
/// matching frame.
pub proof fn lemma_up_wf<T, V>(l: LocView<T, V>)
    requires
        loc_wf(l),
    ensures
        up_spec(l) matches Fix::Pro(l2) ==> loc_wf(l2),
        up_spec(l) matches Fix::Fix(l2) ==> loc_wf(l2),
{
    match l.ctx {
        Ctx::Abs(c0) => {
            if l.env.len() > 0 {
                assert(env_kinds(l.env).drop_last() =~= env_kinds(l.env.drop_last()));
                assert(ctx_kinds(l.ctx).drop_last() =~= ctx_kinds(*c0));
            }
        },
        Ctx::Let(c0) => {
            if l.env.len() > 0 {
                assert(env_kinds(l.env).drop_last() =~= env_kinds(l.env.drop_last()));
                assert(ctx_kinds(l.ctx).drop_last() =~= ctx_kinds(*c0));
            }
        },
        _ => {},
    }
}

/// On a well-formed location whose context expects a binder, the
/// innermost environment frame exists and is of the matching kind.
pub(crate) proof fn lemma_wf_frames<T, V>(l: LocView<T, V>)
    requires
        loc_wf(l),
    ensures
        l.ctx matches Ctx::Abs(_) ==> l.env.len() > 0 && (l.env.last() matches Bind::Var(_, _)),
        l.ctx matches Ctx::Let(_) ==> l.env.len() > 0 && (l.env.last() matches Bind::Let(_, _)),
{
    match l.ctx {
        Ctx::Abs(_) => {
            assert(env_kinds(l.env).last() == true);
            assert(env_kinds(l.env).last() == (l.env.last() matches Bind::Var(_, _)));
        },
        Ctx::Let(_) => {
            assert(env_kinds(l.env).last() == false);
            assert(env_kinds(l.env).last() == (l.env.last() matches Bind::Var(_, _)));
        },
        _ => {},
    }
}

} // verus!
