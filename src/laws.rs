use vstd::prelude::*;
use crate::expr::Term;
use crate::command::{AppliedRuleView, CommandView};
use crate::matching::{Env, env_find, env_get, match_args, match_result, match_term, subst, wildcard};
use crate::rewrite::{MAX_REWRITE_DEPTH, RuleView, rewrite, rewrite_args, rewrite_at};
use crate::session::{ContextView, step};
use crate::strategy::Strategy;
use crate::token::Loc;

verus! {

/// `a` is an initial part of `b`.
pub open spec fn is_prefix(a: Env, b: Env) -> bool {
    a.len() <= b.len() && forall|i: int| 0 <= i < a.len() ==> #[trigger] b[i] == a[i]
}

/// No variable of `p` is the wildcard.
pub open spec fn no_wildcard(p: Term) -> bool
    decreases p,
{
    match p {
        Term::Sym(_) => true,
        Term::Var(n) => n != wildcard(),
        Term::Op(_, l, r) => no_wildcard(*l) && no_wildcard(*r),
        Term::Fun(h, args) => no_wildcard(*h) && forall|i: int|
            0 <= i < args.len() ==> no_wildcard(#[trigger] args[i]),
    }
}

/// Every variable of `p` other than the wildcard is bound in `env`.
pub open spec fn all_bound(p: Term, env: Env) -> bool
    decreases p,
{
    match p {
        Term::Sym(_) => true,
        Term::Var(n) => n == wildcard() || env_get(env, n) is Some,
        Term::Op(_, l, r) => all_bound(*l, env) && all_bound(*r, env),
        Term::Fun(h, args) => all_bound(*h, env) && forall|i: int|
            0 <= i < args.len() ==> all_bound(#[trigger] args[i], env),
    }
}

proof fn lemma_find_prefix(a: Env, b: Env, n: Seq<char>, i: nat)
    requires
        is_prefix(a, b),
        env_find(a, n, i) is Some,
    ensures
        env_find(b, n, i) == env_find(a, n, i),
    decreases a.len() - i,
{
    if i < a.len() {
        assert(b[i as int] == a[i as int]);
        if a[i as int].0 != n {
            lemma_find_prefix(a, b, n, i + 1);
        }
    }
}

proof fn lemma_find_push(a: Env, n: Seq<char>, v: Term, i: nat)
    requires
        env_find(a, n, i) is None,
        i <= a.len(),
    ensures
        env_find(a.push((n, v)), n, i) == Some(v),
    decreases a.len() - i,
{
    if i < a.len() {
        assert(a.push((n, v))[i as int] == a[i as int]);
        lemma_find_push(a, n, v, i + 1);
    } else {
        assert(a.push((n, v))[i as int] == (n, v));
    }
}

proof fn lemma_prefix_trans(a: Env, b: Env, c: Env)
    requires
        is_prefix(a, b),
        is_prefix(b, c),
    ensures
        is_prefix(a, c),
{
    assert forall|i: int| 0 <= i < a.len() implies #[trigger] c[i] == a[i] by {
        assert(c[i] == b[i]);
    }
}

proof fn lemma_all_bound_extend(p: Term, a: Env, b: Env)
    requires
        all_bound(p, a),
        is_prefix(a, b),
    ensures
        all_bound(p, b),
    decreases p,
{
    match p {
        Term::Var(n) => {
            if n != wildcard() {
                lemma_find_prefix(a, b, n, 0);
            }
        },
        Term::Op(_, l, r) => {
            lemma_all_bound_extend(*l, a, b);
            lemma_all_bound_extend(*r, a, b);
        },
        Term::Fun(h, args) => {
            lemma_all_bound_extend(*h, a, b);
            assert forall|i: int| 0 <= i < args.len() implies all_bound(#[trigger] args[i], b) by {
                lemma_all_bound_extend(args[i], a, b);
            }
        },
        Term::Sym(_) => {},
    }
}

proof fn lemma_subst_extend(p: Term, a: Env, b: Env)
    requires
        all_bound(p, a),
        no_wildcard(p),
        is_prefix(a, b),
    ensures
        subst(b, p) == subst(a, p),
    decreases p,
{
    match p {
        Term::Var(n) => {
            lemma_find_prefix(a, b, n, 0);
        },
        Term::Op(_, l, r) => {
            lemma_subst_extend(*l, a, b);
            lemma_subst_extend(*r, a, b);
        },
        Term::Fun(h, args) => {
            lemma_subst_extend(*h, a, b);
            assert forall|i: int| 0 <= i < args.len() implies subst(b, #[trigger] args[i]) == subst(
                a,
                args[i],
            ) by {
                lemma_subst_extend(args[i], a, b);
            }
            assert(subst(b, p)->Fun_1 =~= subst(a, p)->Fun_1);
        },
        Term::Sym(_) => {},
    }
}

/// A successful match extends its environment, binds every variable of the
/// pattern, and instantiates the pattern to the value.
proof fn lemma_match_sound_env(p: Term, v: Term, env: Env)
    requires
        no_wildcard(p),
        match_term(p, v, env) is Some,
    ensures
        is_prefix(env, match_term(p, v, env)->0),
        all_bound(p, match_term(p, v, env)->0),
        subst(match_term(p, v, env)->0, p) == v,
    decreases p, 0nat,
{
    let env2 = match_term(p, v, env)->0;
    match p {
        Term::Sym(_) => {},
        Term::Var(n) => {
            if env_get(env, n) is None {
                lemma_find_push(env, n, v, 0);
            }
        },
        Term::Op(o, l, r) => {
            let (l2, r2) = match v {
                Term::Op(_, l2, r2) => (*l2, *r2),
                _ => (v, v),
            };
            let e1 = match_term(*l, l2, env)->0;
            lemma_match_sound_env(*l, l2, env);
            lemma_match_sound_env(*r, r2, e1);
            lemma_prefix_trans(env, e1, env2);
            lemma_all_bound_extend(*l, e1, env2);
            lemma_subst_extend(*l, e1, env2);
        },
        Term::Fun(h, ps) => {
            let (h2, vs) = match v {
                Term::Fun(h2, vs) => (*h2, vs),
                _ => (v, Seq::empty()),
            };
            let e1 = match_term(*h, h2, env)->0;
            lemma_match_sound_env(*h, h2, env);
            assert forall|i: int| 0 <= i < ps.len() implies no_wildcard(#[trigger] ps[i]) by {}
            lemma_match_args_sound(ps, vs, 0, e1);
            lemma_prefix_trans(env, e1, env2);
            lemma_all_bound_extend(*h, e1, env2);
            lemma_subst_extend(*h, e1, env2);
            assert(subst(env2, p)->Fun_1 =~= vs);
        },
    }
}

proof fn lemma_match_args_sound(ps: Seq<Term>, vs: Seq<Term>, i: nat, env: Env)
    requires
        forall|j: int| 0 <= j < ps.len() ==> no_wildcard(#[trigger] ps[j]),
        ps.len() == vs.len(),
        match_args(ps, vs, i, env) is Some,
    ensures
        is_prefix(env, match_args(ps, vs, i, env)->0),
        forall|j: int|
            i <= j < ps.len() ==> all_bound(#[trigger] ps[j], match_args(ps, vs, i, env)->0),
        forall|j: int|
            i <= j < ps.len() ==> subst(match_args(ps, vs, i, env)->0, #[trigger] ps[j]) == vs[j],
    decreases ps, ps.len() - i,
{
    let env2 = match_args(ps, vs, i, env)->0;
    if i < ps.len() {
        let e1 = match_term(ps[i as int], vs[i as int], env)->0;
        lemma_match_sound_env(ps[i as int], vs[i as int], env);
        lemma_match_args_sound(ps, vs, i + 1, e1);
        lemma_prefix_trans(env, e1, env2);
        lemma_all_bound_extend(ps[i as int], e1, env2);
        lemma_subst_extend(ps[i as int], e1, env2);
    }
}

/// Match soundness: when a pattern without wildcards matches a value,
/// instantiating the pattern with the bindings found gives the value back.
pub proof fn lemma_match_sound(p: Term, v: Term)
    requires
        no_wildcard(p),
        match_result(p, v) is Some,
    ensures
        subst(match_result(p, v)->0, p) == v,
{
    lemma_match_sound_env(p, v, Seq::empty());
}

/// Substitution identity: instantiating a term with no bindings leaves it as
/// it is.
pub proof fn lemma_subst_empty(t: Term)
    ensures
        subst(Seq::empty(), t) == t,
    decreases t,
{
    match t {
        Term::Op(_, l, r) => {
            lemma_subst_empty(*l);
            lemma_subst_empty(*r);
        },
        Term::Fun(h, args) => {
            lemma_subst_empty(*h);
            assert forall|i: int| 0 <= i < args.len() implies subst(
                Seq::empty(),
                #[trigger] args[i],
            ) == args[i] by {
                lemma_subst_empty(args[i]);
            }
            assert(subst(Seq::empty(), t)->Fun_1 =~= args);
        },
        _ => {},
    }
}

/// Wildcard: the pattern `_` matches every value and binds nothing.
pub proof fn lemma_wildcard_matches(v: Term, env: Env)
    ensures
        match_term(Term::Var(wildcard()), v, env) == Some(env),
        match_result(Term::Var(wildcard()), v) == Some(Seq::<(Seq<char>, Term)>::empty()),
{
}

/// The term that a successful rewrite gives.
pub open spec fn term_after(r: crate::rewrite::Step) -> Term {
    match r {
        Ok((t, _, _)) => t,
        Err(_) => Term::Sym(Seq::empty()),
    }
}

/// The session state after a successful command.
pub open spec fn state_after(
    r: Result<(ContextView, Option<Term>), crate::error::RuntimeErrorView>,
) -> ContextView {
    match r {
        Ok((c, _)) => c,
        Err(_) => ContextView {
            rules: Map::empty(),
            current: None,
            history: Seq::empty(),
            quit: false,
        },
    }
}

/// Variable `x` of pattern `p` stands where value `v` holds `w`.
pub open spec fn occurs_bound_to(p: Term, v: Term, x: Seq<char>, w: Term) -> bool
    decreases p, 0nat,
{
    match p {
        Term::Sym(_) => false,
        Term::Var(n) => n == x && v == w,
        Term::Op(_, l1, r1) => match v {
            Term::Op(_, l2, r2) => occurs_bound_to(*l1, *l2, x, w) || occurs_bound_to(
                *r1,
                *r2,
                x,
                w,
            ),
            _ => false,
        },
        Term::Fun(h1, a1) => match v {
            Term::Fun(h2, a2) => occurs_bound_to(*h1, *h2, x, w) || occurs_in_args(a1, a2, 0, x, w),
            _ => false,
        },
    }
}

/// `occurs_bound_to` for some pair of arguments from position `i` on.
pub open spec fn occurs_in_args(ps: Seq<Term>, vs: Seq<Term>, i: nat, x: Seq<char>, w: Term) -> bool
    decreases ps, ps.len() - i,
{
    if i >= ps.len() || i >= vs.len() {
        false
    } else {
        occurs_bound_to(ps[i as int], vs[i as int], x, w) || occurs_in_args(ps, vs, i + 1, x, w)
    }
}

proof fn lemma_match_keeps(p: Term, v: Term, env: Env, x: Seq<char>, w: Term)
    requires
        match_term(p, v, env) is Some,
        x != wildcard(),
    ensures
        is_prefix(env, match_term(p, v, env)->0),
        occurs_bound_to(p, v, x, w) ==> env_get(match_term(p, v, env)->0, x) == Some(w),
    decreases p, 0nat,
{
    let env2 = match_term(p, v, env)->0;
    match p {
        Term::Sym(_) => {},
        Term::Var(n) => {
            if n != wildcard() && env_get(env, n) is None {
                lemma_find_push(env, n, v, 0);
            }
        },
        Term::Op(o, l, r) => {
            let (l2, r2) = match v {
                Term::Op(_, l2, r2) => (*l2, *r2),
                _ => (v, v),
            };
            let e1 = match_term(*l, l2, env)->0;
            lemma_match_keeps(*l, l2, env, x, w);
            lemma_match_keeps(*r, r2, e1, x, w);
            lemma_prefix_trans(env, e1, env2);
            if occurs_bound_to(*l, l2, x, w) {
                lemma_find_prefix(e1, env2, x, 0);
            }
        },
        Term::Fun(h, ps) => {
            let (h2, vs) = match v {
                Term::Fun(h2, vs) => (*h2, vs),
                _ => (v, Seq::empty()),
            };
            let e1 = match_term(*h, h2, env)->0;
            lemma_match_keeps(*h, h2, env, x, w);
            lemma_match_args_keeps(ps, vs, 0, e1, x, w);
            lemma_prefix_trans(env, e1, env2);
            if occurs_bound_to(*h, h2, x, w) {
                lemma_find_prefix(e1, env2, x, 0);
            }
        },
    }
}

proof fn lemma_match_args_keeps(ps: Seq<Term>, vs: Seq<Term>, i: nat, env: Env, x: Seq<char>, w: Term)
    requires
        match_args(ps, vs, i, env) is Some,
        x != wildcard(),
    ensures
        is_prefix(env, match_args(ps, vs, i, env)->0),
        occurs_in_args(ps, vs, i, x, w) ==> env_get(match_args(ps, vs, i, env)->0, x) == Some(w),
    decreases ps, ps.len() - i,
{
    let env2 = match_args(ps, vs, i, env)->0;
    if i < ps.len() && i < vs.len() {
        let e1 = match_term(ps[i as int], vs[i as int], env)->0;
        lemma_match_keeps(ps[i as int], vs[i as int], env, x, w);
        lemma_match_args_keeps(ps, vs, i + 1, e1, x, w);
        lemma_prefix_trans(env, e1, env2);
        if occurs_bound_to(ps[i as int], vs[i as int], x, w) {
            lemma_find_prefix(e1, env2, x, 0);
        }
    }
}

/// Linearity: when a variable of the pattern occurs at two places where the
/// value holds different subterms, the match fails.
pub proof fn lemma_nonlinear_mismatch(p: Term, v: Term, x: Seq<char>, w1: Term, w2: Term)
    requires
        x != wildcard(),
        occurs_bound_to(p, v, x, w1),
        occurs_bound_to(p, v, x, w2),
        w1 != w2,
    ensures
        match_result(p, v) is None,
{
    if match_result(p, v) is Some {
        lemma_match_keeps(p, v, Seq::empty(), x, w1);
        lemma_match_keeps(p, v, Seq::empty(), x, w2);
    }
}

/// No subterm of `t` matches `head`.
pub open spec fn no_match_anywhere(head: Term, t: Term) -> bool
    decreases t,
{
    match_result(head, t) is None && match t {
        Term::Sym(_) => true,
        Term::Var(_) => true,
        Term::Op(_, l, r) => no_match_anywhere(head, *l) && no_match_anywhere(head, *r),
        Term::Fun(h, args) => no_match_anywhere(head, *h) && forall|i: int|
            0 <= i < args.len() ==> no_match_anywhere(head, #[trigger] args[i]),
    }
}

/// `t` is shallow enough to be walked within `d` levels.
pub open spec fn fits_depth(t: Term, d: nat) -> bool
    decreases t,
{
    d > 0 && match t {
        Term::Sym(_) => true,
        Term::Var(_) => true,
        Term::Op(_, l, r) => fits_depth(*l, (d - 1) as nat) && fits_depth(*r, (d - 1) as nat),
        Term::Fun(h, args) => fits_depth(*h, (d - 1) as nat) && forall|i: int|
            0 <= i < args.len() ==> fits_depth(#[trigger] args[i], (d - 1) as nat),
    }
}

proof fn lemma_rewrite_no_match(
    rloc: Loc,
    head: Term,
    body: Term,
    t: Term,
    s: Strategy,
    loc: Loc,
    d: nat,
)
    requires
        no_match_anywhere(head, t),
        fits_depth(t, d),
    ensures
        rewrite_at(RuleView::User { loc: rloc, head, body }, t, s, loc, d) == Ok::<
            (Term, bool, Strategy),
            crate::error::RuntimeErrorView,
        >((t, false, s)),
    decreases t, 0nat,
{
    let rule = RuleView::User { loc: rloc, head, body };
    assert(rewrite_at(rule, t, s, loc, d) == crate::rewrite::rewrite_children(
        rule,
        t,
        s,
        loc,
        (d - 1) as nat,
    ));
    match t {
        Term::Op(_, l, r) => {
            lemma_rewrite_no_match(rloc, head, body, *l, s, loc, (d - 1) as nat);
            lemma_rewrite_no_match(rloc, head, body, *r, s, loc, (d - 1) as nat);
        },
        Term::Fun(h, args) => {
            lemma_rewrite_no_match(rloc, head, body, *h, s, loc, (d - 1) as nat);
            lemma_rewrite_args_no_match(rloc, head, body, args, 0, s, loc, (d - 1) as nat);
            assert(args.subrange(0, args.len() as int) =~= args);
        },
        _ => {},
    }
}

proof fn lemma_rewrite_args_no_match(
    rloc: Loc,
    head: Term,
    body: Term,
    args: Seq<Term>,
    i: nat,
    s: Strategy,
    loc: Loc,
    d: nat,
)
    requires
        forall|j: int| 0 <= j < args.len() ==> no_match_anywhere(head, #[trigger] args[j]),
        forall|j: int| 0 <= j < args.len() ==> fits_depth(#[trigger] args[j], d),
        i <= args.len(),
    ensures
        rewrite_args(RuleView::User { loc: rloc, head, body }, args, i, s, loc, d) == Ok::<
            (Seq<Term>, Strategy),
            crate::error::RuntimeErrorView,
        >((args.subrange(i as int, args.len() as int), s)),
    decreases args, args.len() - i,
{
    if i < args.len() {
        lemma_rewrite_no_match(rloc, head, body, args[i as int], s, loc, d);
        lemma_rewrite_args_no_match(rloc, head, body, args, i + 1, s, loc, d);
        assert(seq![args[i as int]] + args.subrange((i + 1) as int, args.len() as int) =~= args.subrange(
            i as int,
            args.len() as int,
        ));
    } else {
        assert(args.subrange(i as int, args.len() as int) =~= Seq::<Term>::empty());
    }
}

/// Idempotence of `all`: when the result of rewriting with `all` holds no
/// match of the rule anywhere, a second pass gives it back unchanged.
pub proof fn lemma_all_idempotent(rloc: Loc, head: Term, body: Term, e: Term, loc: Loc)
    requires
        rewrite(RuleView::User { loc: rloc, head, body }, e, Strategy::All, loc) is Ok,
        no_match_anywhere(
            head,
            term_after(rewrite(RuleView::User { loc: rloc, head, body }, e, Strategy::All, loc)),
        ),
        fits_depth(
            term_after(rewrite(RuleView::User { loc: rloc, head, body }, e, Strategy::All, loc)),
            MAX_REWRITE_DEPTH as nat,
        ),
    ensures
        ({
            let t = term_after(rewrite(RuleView::User { loc: rloc, head, body }, e, Strategy::All, loc));
            rewrite(RuleView::User { loc: rloc, head, body }, t, Strategy::All, loc) == Ok::<
                (Term, bool, Strategy),
                crate::error::RuntimeErrorView,
            >((t, false, Strategy::All))
        }),
{
    let t = term_after(rewrite(RuleView::User { loc: rloc, head, body }, e, Strategy::All, loc));
    lemma_rewrite_no_match(rloc, head, body, t, Strategy::All, loc, MAX_REWRITE_DEPTH as nat);
}

/// Undo cancels apply: after `shape e`, a successful `apply` and an `undo`,
/// the current expression is `e` again and the history is empty.
pub proof fn lemma_undo_cancels_apply(
    c: ContextView,
    e: Term,
    shape_loc: Loc,
    apply_loc: Loc,
    strategy_name: Seq<char>,
    applied_rule: AppliedRuleView,
    undo_loc: Loc,
)
    requires
        step(c, CommandView::StartShaping(shape_loc, e)) is Ok,
        step(
            state_after(step(c, CommandView::StartShaping(shape_loc, e))),
            CommandView::ApplyRule { loc: apply_loc, strategy_name, applied_rule },
        ) is Ok,
    ensures
        ({
            let c1 = state_after(step(c, CommandView::StartShaping(shape_loc, e)));
            let c2 = state_after(step(
                c1,
                CommandView::ApplyRule { loc: apply_loc, strategy_name, applied_rule },
            ));
            let r = step(c2, CommandView::UndoRule(undo_loc));
            &&& r is Ok
            &&& state_after(r).current == Some(e)
            &&& state_after(r).history.len() == 0
            &&& state_after(r).rules == c.rules
        }),
{
    let c1 = state_after(step(c, CommandView::StartShaping(shape_loc, e)));
    let c2 = state_after(step(c1, CommandView::ApplyRule { loc: apply_loc, strategy_name, applied_rule }));
    assert(c2.history =~= seq![e]);
}

/// Defining a rule is rejected exactly when the name is taken; otherwise the
/// table gains that one entry.
pub proof fn lemma_define_rule(c: ContextView, loc: Loc, name: Seq<char>, rule: RuleView)
    ensures
        step(c, CommandView::DefineRule(loc, name, rule)) is Err <==> c.rules.contains_key(name),
        step(c, CommandView::DefineRule(loc, name, rule)) is Ok ==> state_after(step(
            c,
            CommandView::DefineRule(loc, name, rule),
        )).rules == c.rules.insert(name, rule),
{
}

} // verus!
