use vstd::prelude::*;
use crate::expr::{Expr, Term, terms_of, lemma_fun_args_view};

verus! {

broadcast use vstd::std_specs::vec::group_vec_axioms;

/// A binding environment: names paired with the terms bound to them, in the
/// order in which they were bound.
pub type Env = Seq<(Seq<char>, Term)>;

/// The term bound to `name` at or after position `i` of `env`, earliest first.
pub open spec fn env_find(env: Env, name: Seq<char>, i: nat) -> Option<Term>
    decreases env.len() - i,
{
    if i >= env.len() {
        None
    } else if env[i as int].0 == name {
        Some(env[i as int].1)
    } else {
        env_find(env, name, i + 1)
    }
}

/// The term bound to `name` in `env`, if any.
pub open spec fn env_get(env: Env, name: Seq<char>) -> Option<Term> {
    env_find(env, name, 0)
}

/// The name `_` of the wildcard variable.
pub open spec fn wildcard() -> Seq<char> {
    seq!['_']
}

/// Matching of pattern `p` against value `v`, extending `env`.
pub open spec fn match_term(p: Term, v: Term, env: Env) -> Option<Env>
    decreases p, 0nat,
{
    match p {
        Term::Sym(a) => match v {
            Term::Sym(b) => if a == b {
                Some(env)
            } else {
                None
            },
            _ => None,
        },
        Term::Var(n) => if n == wildcard() {
            Some(env)
        } else {
            match env_get(env, n) {
                Some(w) => if w == v {
                    Some(env)
                } else {
                    None
                },
                None => Some(env.push((n, v))),
            }
        },
        Term::Op(o1, l1, r1) => match v {
            Term::Op(o2, l2, r2) => if o1 == o2 {
                match match_term(*l1, *l2, env) {
                    Some(e1) => match_term(*r1, *r2, e1),
                    None => None,
                }
            } else {
                None
            },
            _ => None,
        },
        Term::Fun(h1, a1) => match v {
            Term::Fun(h2, a2) => match match_term(*h1, *h2, env) {
                Some(e1) => if a1.len() == a2.len() {
                    match_args(a1, a2, 0, e1)
                } else {
                    None
                },
                None => None,
            },
            _ => None,
        },
    }
}

/// Pointwise matching of `ps[i..]` against `vs[i..]`, left to right.
pub open spec fn match_args(ps: Seq<Term>, vs: Seq<Term>, i: nat, env: Env) -> Option<Env>
    decreases ps, ps.len() - i,
{
    if i >= ps.len() || i >= vs.len() {
        Some(env)
    } else {
        match match_term(ps[i as int], vs[i as int], env) {
            Some(e1) => match_args(ps, vs, i + 1, e1),
            None => None,
        }
    }
}

/// Matching of `p` against `v` from an empty environment.
pub open spec fn match_result(p: Term, v: Term) -> Option<Env> {
    match_term(p, v, Seq::empty())
}

/// `t` with every bound variable replaced by its binding.
pub open spec fn subst(env: Env, t: Term) -> Term
    decreases t,
{
    match t {
        Term::Sym(_) => t,
        Term::Var(n) => match env_get(env, n) {
            Some(w) => w,
            None => t,
        },
        Term::Op(o, l, r) => Term::Op(o, Box::new(subst(env, *l)), Box::new(subst(env, *r))),
        Term::Fun(h, args) => Term::Fun(
            Box::new(subst(env, *h)),
            Seq::new(
                args.len(),
                |i: int|
                    if 0 <= i < args.len() {
                        subst(env, args[i])
                    } else {
                        Term::Sym(Seq::empty())
                    },
            ),
        ),
    }
}

/// The variables bound by a successful match, with their values.
pub struct Bindings {
    entries: Vec<(String, Expr)>,
}

impl View for Bindings {
    type V = Env;

    closed spec fn view(&self) -> Env {
        self.entries@.map_values(|p: (String, Expr)| (p.0@, p.1@))
    }
}

impl Bindings {
    pub fn new() -> (r: Bindings)
        ensures
            r@ == Seq::<(Seq<char>, Term)>::empty(),
    {
        let r = Bindings { entries: Vec::new() };
        assert(r@ =~= Seq::<(Seq<char>, Term)>::empty());
        r
    }

    /// The number of bound variables.
    pub fn len(&self) -> (r: usize)
        ensures
            r == self@.len(),
    {
        self.entries.len()
    }

    /// The value bound to `name`, if any.
    pub fn get(&self, name: &String) -> (r: Option<&Expr>)
        ensures
            match r {
                Some(e) => env_get(self@, name@) == Some(e@),
                None => env_get(self@, name@) is None,
            },
    {
        let mut i: usize = 0;
        while i < self.entries.len()
            invariant
                i <= self.entries.len(),
                env_get(self@, name@) == env_find(self@, name@, i as nat),
            decreases self.entries.len() - i,
        {
            if self.entries[i].0 == *name {
                return Some(&self.entries[i].1);
            }
            i += 1;
        }
        None
    }

    /// Appends a binding.
    pub fn bind(&mut self, name: String, value: Expr)
        ensures
            final(self)@ == old(self)@.push((name@, value@)),
    {
        self.entries.push((name, value));
        assert(final(self)@ =~= old(self)@.push((name@, value@)));
    }
}

/// Matches `pattern` against `value`, extending `bindings`. On success the
/// environment is the one `match_term` gives; on failure it is left in an
/// unspecified state.
pub fn pattern_match_impl(pattern: &Expr, value: &Expr, bindings: &mut Bindings) -> (r: bool)
    ensures
        r == match_term(pattern@, value@, old(bindings)@) is Some,
        r ==> final(bindings)@ == match_term(pattern@, value@, old(bindings)@)->0,
    decreases pattern,
{
    match pattern {
        Expr::Sym(a) => match value {
            Expr::Sym(b) => *a == *b,
            _ => false,
        },
        Expr::Var(n) => {
            proof {
                reveal_strlit("_");
            }
            if n.as_str().unicode_len() == 1 && n.as_str().get_char(0) == '_' {
                assert(n@ =~= wildcard());
                return true;
            }
            assert(n@ != wildcard());
            match bindings.get(n) {
                Some(w) => w.same_as(value),
                None => {
                    bindings.bind(n.clone(), value.deep_clone());
                    true
                },
            }
        },
        Expr::Op(o1, l1, r1) => match value {
            Expr::Op(o2, l2, r2) => {
                if *o1 != *o2 {
                    return false;
                }
                if !pattern_match_impl(l1, l2, bindings) {
                    return false;
                }
                pattern_match_impl(r1, r2, bindings)
            },
            _ => false,
        },
        Expr::Fun(h1, a1) => match value {
            Expr::Fun(h2, a2) => {
                proof {
                    lemma_fun_args_view(pattern);
                    lemma_fun_args_view(value);
                }
                let ghost ps = pattern@->Fun_1;
                let ghost vs = value@->Fun_1;
                if !pattern_match_impl(h1, h2, bindings) {
                    return false;
                }
                if a1.len() != a2.len() {
                    return false;
                }
                let ghost e_head = bindings@;
                assert(match_term(pattern@, value@, old(bindings)@) == match_args(ps, vs, 0, e_head));
                let mut i: usize = 0;
                assert(decreases_to!(*pattern => *a1));
                while i < a1.len()
                    invariant
                        decreases_to!(*pattern => *a1),
                        ps == terms_of(a1@),
                        vs == terms_of(a2@),
                        a1.len() == a2.len(),
                        i <= a1.len(),
                        match_term(pattern@, value@, old(bindings)@) == match_args(ps, vs, 0, e_head),
                        match_args(ps, vs, 0, e_head) == match_args(ps, vs, i as nat, bindings@),
                    decreases a1.len() - i,
                {
                    proof {
                        assert(decreases_to!(*a1 => a1@[i as int]));
                    }
                    let ghost before = bindings@;
                    assert(ps[i as int] == a1@[i as int]@);
                    assert(vs[i as int] == a2@[i as int]@);
                    if !pattern_match_impl(&a1[i], &a2[i], bindings) {
                        assert(match_args(ps, vs, i as nat, before) is None);
                        return false;
                    }
                    i += 1;
                }
                true
            },
            _ => false,
        },
    }
}

/// Matches `pattern` against `value` from an empty environment.
pub fn pattern_match(pattern: &Expr, value: &Expr) -> (r: Option<Bindings>)
    ensures
        match r {
            Some(b) => match_result(pattern@, value@) == Some(b@),
            None => match_result(pattern@, value@) is None,
        },
{
    let mut bindings = Bindings::new();
    if pattern_match_impl(pattern, value, &mut bindings) {
        Some(bindings)
    } else {
        None
    }
}

/// Rebuilds `expr` with every bound variable replaced by a copy of its value.
pub fn substitute_bindings(bindings: &Bindings, expr: &Expr) -> (r: Expr)
    ensures
        r@ == subst(bindings@, expr@),
    decreases expr,
{
    match expr {
        Expr::Sym(s) => Expr::Sym(s.clone()),
        Expr::Var(name) => match bindings.get(name) {
            Some(value) => value.deep_clone(),
            None => Expr::Var(name.clone()),
        },
        Expr::Op(o, l, r) => Expr::Op(
            *o,
            Box::new(substitute_bindings(bindings, l)),
            Box::new(substitute_bindings(bindings, r)),
        ),
        Expr::Fun(h, args) => {
            proof {
                lemma_fun_args_view(expr);
            }
            let new_head = substitute_bindings(bindings, h);
            let mut new_args: Vec<Expr> = Vec::new();
            let mut i: usize = 0;
            assert(decreases_to!(*expr => *args));
            while i < args.len()
                invariant
                    decreases_to!(*expr => *args),
                    expr@->Fun_1 == terms_of(args@),
                    i <= args.len(),
                    new_args@.len() == i,
                    forall|j: int|
                        0 <= j < i ==> (#[trigger] new_args@[j])@ == subst(
                            bindings@,
                            args@[j]@,
                        ),
                decreases args.len() - i,
            {
                proof {
                    assert(decreases_to!(*args => args@[i as int]));
                }
                new_args.push(substitute_bindings(bindings, &args[i]));
                i += 1;
            }
            let r = Expr::Fun(Box::new(new_head), new_args);
            assert(r@->Fun_1 =~= subst(bindings@, expr@)->Fun_1);
            r
        },
    }
}

} // verus!
