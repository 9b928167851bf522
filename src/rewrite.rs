use vstd::prelude::*;
use crate::error::{RuntimeError, RuntimeErrorView};
use crate::expr::{Expr, Term, terms_of, lemma_fun_args_view};
use crate::matching::{match_result, subst, pattern_match, substitute_bindings};
use crate::strategy::{Action, State, Strategy, resolve, strategy_named};
use crate::token::Loc;

verus! {

broadcast use vstd::std_specs::vec::group_vec_axioms;

/// A rewrite rule: one defined by the user, or the built-in meta-rule that
/// carries out `apply_rule(Strategy, Head, Body, Expr)` terms.
#[derive(Debug)]
pub enum Rule {
    User { loc: Loc, head: Expr, body: Expr },
    Replace,
}

pub enum RuleView {
    User { loc: Loc, head: Term, body: Term },
    Replace,
}

impl View for Rule {
    type V = RuleView;

    open spec fn view(&self) -> RuleView {
        match self {
            Rule::User { loc, head, body } => RuleView::User { loc: *loc, head: head@, body: body@ },
            Rule::Replace => RuleView::Replace,
        }
    }
}

impl Clone for Rule {
    fn clone(&self) -> (r: Rule)
        ensures
            r@ == self@,
    {
        match self {
            Rule::User { loc, head, body } => Rule::User {
                loc: *loc,
                head: head.deep_clone(),
                body: body.deep_clone(),
            },
            Rule::Replace => Rule::Replace,
        }
    }
}

/// How deeply one rewrite may nest: each level of the tree and each
/// rewrite of a result goes one level deeper. It keeps a rewrite that does
/// not terminate from running without end.
pub const MAX_REWRITE_DEPTH: u64 = 1024;

/// The pattern of the meta-rule: `apply_rule(Strategy, Head, Body, Expr)`.
pub open spec fn meta_pattern() -> Term {
    Term::Fun(
        Box::new(Term::Sym("apply_rule"@)),
        seq![
            Term::Var("Strategy"@),
            Term::Var("Head"@),
            Term::Var("Body"@),
            Term::Var("Expr"@),
        ],
    )
}

/// The result of rewriting one subtree: the new subtree, whether the whole
/// rewrite halts, and the strategy's state afterwards.
pub type Step = Result<(Term, bool, Strategy), RuntimeErrorView>;

/// Rewriting `e` with `rule` under strategy `s`, at most `depth` levels deep.
/// The rule is tried at `e` first; where it does not match, the children are
/// rewritten.
pub open spec fn rewrite_at(rule: RuleView, e: Term, s: Strategy, loc: Loc, depth: nat) -> Step
    decreases depth, 0nat, 0nat,
{
    if depth == 0 {
        Err(RuntimeErrorView::DepthLimit(loc))
    } else {
        match rule {
            RuleView::User { head, body, .. } => match match_result(head, e) {
                Some(env) => {
                    let (res, s1) = resolve(s);
                    let ne = if res.action == Action::Apply {
                        subst(env, body)
                    } else {
                        e
                    };
                    match res.state {
                        State::Bail => Ok((ne, false, s1)),
                        State::Cont => rewrite_children(rule, ne, s1, loc, (depth - 1) as nat),
                        State::Halt => Ok((ne, true, s1)),
                    }
                },
                None => rewrite_children(rule, e, s, loc, (depth - 1) as nat),
            },
            RuleView::Replace => match match_result(meta_pattern(), e) {
                Some(_) => {
                    // The four variables of the meta pattern bind the four
                    // arguments, in order.
                    let args = e->Fun_1;
                    match args[0] {
                        Term::Sym(name) => match strategy_named(name) {
                            Some(ms) => match rewrite_at(
                                RuleView::User { loc, head: args[1], body: args[2] },
                                args[3],
                                ms,
                                loc,
                                (depth - 1) as nat,
                            ) {
                                Ok((t, _, _)) => Ok((t, false, s)),
                                Err(x) => Err(x),
                            },
                            None => Err(RuntimeErrorView::UnknownStrategy(name, loc)),
                        },
                        other => Err(RuntimeErrorView::StrategyIsNotSym(other, loc)),
                    }
                },
                None => rewrite_children(rule, e, s, loc, (depth - 1) as nat),
            },
        }
    }
}

/// Rewriting the children of `e`: the left operand before the right one, the
/// head before the arguments. A halt in an operand halts the whole rewrite; a
/// halt in an argument leaves the later arguments as they are but does not
/// reach past the application.
pub open spec fn rewrite_children(rule: RuleView, e: Term, s: Strategy, loc: Loc, depth: nat) -> Step
    decreases depth, 2nat, 0nat,
{
    match e {
        Term::Sym(_) => Ok((e, false, s)),
        Term::Var(_) => Ok((e, false, s)),
        Term::Op(o, l, r) => match rewrite_at(rule, *l, s, loc, depth) {
            Ok((l2, h, s1)) => if h {
                Ok((Term::Op(o, Box::new(l2), r), true, s1))
            } else {
                match rewrite_at(rule, *r, s1, loc, depth) {
                    Ok((r2, h2, s2)) => Ok((Term::Op(o, Box::new(l2), Box::new(r2)), h2, s2)),
                    Err(x) => Err(x),
                }
            },
            Err(x) => Err(x),
        },
        Term::Fun(h, args) => match rewrite_at(rule, *h, s, loc, depth) {
            Ok((h2, halted, s1)) => if halted {
                Ok((Term::Fun(Box::new(h2), args), true, s1))
            } else {
                match rewrite_args(rule, args, 0, s1, loc, depth) {
                    Ok((a2, s2)) => Ok((Term::Fun(Box::new(h2), a2), false, s2)),
                    Err(x) => Err(x),
                }
            },
            Err(x) => Err(x),
        },
    }
}

/// Rewriting `args[i..]` left to right, until one of them halts.
pub open spec fn rewrite_args(
    rule: RuleView,
    args: Seq<Term>,
    i: nat,
    s: Strategy,
    loc: Loc,
    depth: nat,
) -> Result<(Seq<Term>, Strategy), RuntimeErrorView>
    decreases depth, 1nat, args.len() - i,
{
    if i >= args.len() {
        Ok((Seq::empty(), s))
    } else {
        match rewrite_at(rule, args[i as int], s, loc, depth) {
            Ok((a, halted, s1)) => if halted {
                Ok((seq![a] + args.subrange((i + 1) as int, args.len() as int), s1))
            } else {
                match rewrite_args(rule, args, i + 1, s1, loc, depth) {
                    Ok((rest, s2)) => Ok((seq![a] + rest, s2)),
                    Err(x) => Err(x),
                }
            },
            Err(x) => Err(x),
        }
    }
}

/// The step that an application gives once its head has been rewritten to
/// `h` without halting and its arguments have been rewritten to `args`.
pub open spec fn fun_outcome(h: Term, args: Result<(Seq<Term>, Strategy), RuntimeErrorView>) -> Step {
    match args {
        Ok((a2, s2)) => Ok((Term::Fun(Box::new(h), a2), false, s2)),
        Err(x) => Err(x),
    }
}

/// A whole rewrite of `e`: the new term, and the strategy's final state.
pub open spec fn rewrite(rule: RuleView, e: Term, s: Strategy, loc: Loc) -> Step {
    rewrite_at(rule, e, s, loc, MAX_REWRITE_DEPTH as nat)
}

/// Whether an executable step result agrees with the spec's.
pub open spec fn step_agrees(
    r: Result<(Expr, bool), RuntimeError>,
    spec: Step,
    s_after: Strategy,
) -> bool {
    match r {
        Ok((x, h)) => spec == Ok::<(Term, bool, Strategy), RuntimeErrorView>((x@, h, s_after)),
        Err(e) => spec == Err::<(Term, bool, Strategy), RuntimeErrorView>(e@),
    }
}

fn meta_pattern_expr() -> (r: Expr)
    ensures
        r@ == meta_pattern(),
{
    proof {
        reveal_strlit("apply_rule");
        reveal_strlit("Strategy");
        reveal_strlit("Head");
        reveal_strlit("Body");
        reveal_strlit("Expr");
    }
    let mut args: Vec<Expr> = Vec::new();
    args.push(Expr::Var("Strategy".to_owned()));
    args.push(Expr::Var("Head".to_owned()));
    args.push(Expr::Var("Body".to_owned()));
    args.push(Expr::Var("Expr".to_owned()));
    let ghost a = args@;
    let r = Expr::Fun(Box::new(Expr::Sym("apply_rule".to_owned())), args);
    proof {
        lemma_fun_args_view(&r);
        assert(terms_of(a) =~= meta_pattern()->Fun_1);
    }
    r
}

fn apply_impl(
    rule: &Rule,
    expr: &Expr,
    strategy: &mut Strategy,
    loc: Loc,
    depth: u64,
) -> (r: Result<(Expr, bool), RuntimeError>)
    ensures
        step_agrees(r, rewrite_at(rule@, expr@, *old(strategy), loc, depth as nat), *final(strategy)),
    decreases depth, 0nat,
{
    if depth == 0 {
        return Err(RuntimeError::DepthLimit(loc));
    }
    match rule {
        Rule::User { head, body, .. } => match pattern_match(head, expr) {
            Some(bindings) => {
                let resolution = strategy.matched();
                let new_expr = match resolution.action {
                    Action::Apply => substitute_bindings(&bindings, body),
                    Action::Skip => expr.deep_clone(),
                };
                match resolution.state {
                    State::Bail => Ok((new_expr, false)),
                    State::Cont => apply_to_subexprs(rule, &new_expr, strategy, loc, depth - 1),
                    State::Halt => Ok((new_expr, true)),
                }
            },
            None => apply_to_subexprs(rule, expr, strategy, loc, depth - 1),
        },
        Rule::Replace => {
            let meta = meta_pattern_expr();
            match pattern_match(&meta, expr) {
                Some(_) => match expr {
                    Expr::Fun(_, args) => {
                        proof {
                            lemma_fun_args_view(expr);
                        }
                        assert(args.len() == 4);
                        match &args[0] {
                            Expr::Sym(name) => match Strategy::by_name(name.as_str()) {
                                Some(mut meta_strategy) => {
                                    let meta_rule = Rule::User {
                                        loc,
                                        head: args[1].deep_clone(),
                                        body: args[2].deep_clone(),
                                    };
                                    match apply_impl(
                                        &meta_rule,
                                        &args[3],
                                        &mut meta_strategy,
                                        loc,
                                        depth - 1,
                                    ) {
                                        Ok((t, _)) => Ok((t, false)),
                                        Err(x) => Err(x),
                                    }
                                },
                                None => Err(RuntimeError::UnknownStrategy(name.clone(), loc)),
                            },
                            other => Err(RuntimeError::StrategyIsNotSym(other.deep_clone(), loc)),
                        }
                    },
                    _ => {
                        assert(false);
                        Err(RuntimeError::DepthLimit(loc))
                    },
                },
                None => apply_to_subexprs(rule, expr, strategy, loc, depth - 1),
            }
        },
    }
}

fn apply_to_subexprs(
    rule: &Rule,
    expr: &Expr,
    strategy: &mut Strategy,
    loc: Loc,
    depth: u64,
) -> (r: Result<(Expr, bool), RuntimeError>)
    ensures
        step_agrees(
            r,
            rewrite_children(rule@, expr@, *old(strategy), loc, depth as nat),
            *final(strategy),
        ),
    decreases depth, 1nat,
{
    match expr {
        Expr::Sym(s) => Ok((Expr::Sym(s.clone()), false)),
        Expr::Var(s) => Ok((Expr::Var(s.clone()), false)),
        Expr::Op(o, l, r) => {
            let (new_lhs, halt) = match apply_impl(rule, l, strategy, loc, depth) {
                Ok(p) => p,
                Err(x) => return Err(x),
            };
            if halt {
                return Ok((Expr::Op(*o, Box::new(new_lhs), Box::new(r.deep_clone())), true));
            }
            let (new_rhs, halt) = match apply_impl(rule, r, strategy, loc, depth) {
                Ok(p) => p,
                Err(x) => return Err(x),
            };
            Ok((Expr::Op(*o, Box::new(new_lhs), Box::new(new_rhs)), halt))
        },
        Expr::Fun(head, args) => {
            proof {
                lemma_fun_args_view(expr);
            }
            let ghost targs = expr@->Fun_1;
            let (new_head, halt) = match apply_impl(rule, head, strategy, loc, depth) {
                Ok(p) => p,
                Err(x) => return Err(x),
            };
            if halt {
                let mut same_args: Vec<Expr> = Vec::new();
                let mut k: usize = 0;
                while k < args.len()
                    invariant
                        k <= args.len(),
                        same_args@.len() == k,
                        forall|j: int| 0 <= j < k ==> (#[trigger] same_args@[j])@ == args@[j]@,
                    decreases args.len() - k,
                {
                    same_args.push(args[k].deep_clone());
                    k += 1;
                }
                let r = Expr::Fun(Box::new(new_head), same_args);
                assert(r@->Fun_1 =~= targs);
                return Ok((r, true));
            }
            let ghost s_start = *strategy;
            let ghost new_head_t = new_head@;
            assert(rewrite_children(rule@, expr@, *old(strategy), loc, depth as nat) == fun_outcome(
                new_head_t,
                rewrite_args(rule@, targs, 0, s_start, loc, depth as nat),
            ));
            let mut new_args: Vec<Expr> = Vec::new();
            let mut halted = false;
            let mut i: usize = 0;
            while i < args.len()
                invariant
                    targs == terms_of(args@),
                    rewrite_children(rule@, expr@, *old(strategy), loc, depth as nat) == fun_outcome(
                        new_head_t,
                        rewrite_args(rule@, targs, 0, s_start, loc, depth as nat),
                    ),
                    i <= args.len(),
                    new_args@.len() == i,
                    !halted ==> rewrite_args(rule@, targs, 0, s_start, loc, depth as nat) == match rewrite_args(
                        rule@,
                        targs,
                        i as nat,
                        *strategy,
                        loc,
                        depth as nat,
                    ) {
                        Ok((rest, s2)) => Ok((terms_of(new_args@) + rest, s2)),
                        Err(x) => Err(x),
                    },
                    halted ==> rewrite_args(rule@, targs, 0, s_start, loc, depth as nat) == Ok::<
                        (Seq<Term>, Strategy),
                        RuntimeErrorView,
                    >((terms_of(new_args@) + targs.subrange(i as int, targs.len() as int), *strategy)),
                decreases args.len() - i,
            {
                let ghost before = new_args@;
                if halted {
                    new_args.push(args[i].deep_clone());
                    proof {
                        assert(terms_of(new_args@) =~= terms_of(before).push(args@[i as int]@));
                        assert(terms_of(new_args@) + targs.subrange(i + 1, targs.len() as int)
                            =~= terms_of(before) + targs.subrange(i as int, targs.len() as int));
                    }
                } else {
                    let ghost s_i = *strategy;
                    assert(targs[i as int] == args@[i as int]@);
                    match apply_impl(rule, &args[i], strategy, loc, depth) {
                        Ok((a, h)) => {
                            new_args.push(a);
                            proof {
                                assert(terms_of(new_args@) =~= terms_of(before).push(a@));
                                if h {
                                    assert(terms_of(new_args@) + targs.subrange(
                                        i + 1,
                                        targs.len() as int,
                                    ) =~= terms_of(before) + (seq![a@] + targs.subrange(
                                        i + 1,
                                        targs.len() as int,
                                    )));
                                } else {
                                    match rewrite_args(
                                        rule@,
                                        targs,
                                        (i + 1) as nat,
                                        *strategy,
                                        loc,
                                        depth as nat,
                                    ) {
                                        Ok((rest, s2)) => {
                                            assert(terms_of(new_args@) + rest =~= terms_of(before)
                                                + (seq![a@] + rest));
                                        },
                                        Err(x) => {},
                                    }
                                }
                            }
                            halted = h;
                        },
                        Err(x) => {
                            return Err(x);
                        },
                    }
                }
                i += 1;
            }
            proof {
                if halted {
                    assert(targs.subrange(i as int, targs.len() as int) =~= Seq::<Term>::empty());
                }
                assert(terms_of(new_args@) + Seq::<Term>::empty() =~= terms_of(new_args@));
            }
            let r = Expr::Fun(Box::new(new_head), new_args);
            proof {
                lemma_fun_args_view(&r);
            }
            Ok((r, false))
        },
    }
}

impl Rule {
    /// Rewrites `expr` with this rule under `strategy`; `apply_command_loc`
    /// is where the command that asked for it stands.
    pub fn apply(&self, expr: &Expr, strategy: &mut Strategy, apply_command_loc: &Loc) -> (r: Result<
        Expr,
        RuntimeError,
    >)
        ensures
            match r {
                Ok(x) => rewrite(self@, expr@, *old(strategy), *apply_command_loc) matches Ok(
                    (t, _, s2),
                ) && x@ == t && s2 == *final(strategy),
                Err(e) => rewrite(self@, expr@, *old(strategy), *apply_command_loc) == Err::<
                    (Term, bool, Strategy),
                    RuntimeErrorView,
                >(e@),
            },
    {
        match apply_impl(self, expr, strategy, *apply_command_loc, MAX_REWRITE_DEPTH) {
            Ok((x, _)) => Ok(x),
            Err(e) => Err(e),
        }
    }
}

} // verus!
