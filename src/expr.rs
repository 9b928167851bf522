use vstd::prelude::*;

verus! {

broadcast use vstd::std_specs::vec::group_vec_axioms;

/// A binary operator. Operators are purely structural: nothing evaluates them.
#[derive(Clone, Copy, PartialEq, Eq, Structural, Debug)]
pub enum Op {
    Add,
    Sub,
    Mul,
    Div,
    Pow,
}

/// The highest precedence level that an operator can have.
pub const MAX_PRECEDENCE: usize = 2;

impl Op {
    /// Binding strength: `+ -` bind loosest, `^` tightest.
    pub open spec fn prec(self) -> nat {
        match self {
            Op::Add | Op::Sub => 0,
            Op::Mul | Op::Div => 1,
            Op::Pow => 2,
        }
    }

    /// The operator's token as text.
    pub open spec fn symbol_spec(self) -> Seq<char> {
        match self {
            Op::Add => seq!['+'],
            Op::Sub => seq!['-'],
            Op::Mul => seq!['*'],
            Op::Div => seq!['/'],
            Op::Pow => seq!['^'],
        }
    }

    pub fn precedence(&self) -> (r: usize)
        ensures
            r == self.prec(),
            r <= MAX_PRECEDENCE,
    {
        match self {
            Op::Add | Op::Sub => 0,
            Op::Mul | Op::Div => 1,
            Op::Pow => 2,
        }
    }

    pub fn symbol(&self) -> (r: &'static str)
        ensures
            r@ == self.symbol_spec(),
    {
        proof {
            reveal_strlit("+");
            reveal_strlit("-");
            reveal_strlit("*");
            reveal_strlit("/");
            reveal_strlit("^");
        }
        match self {
            Op::Add => "+",
            Op::Sub => "-",
            Op::Mul => "*",
            Op::Div => "/",
            Op::Pow => "^",
        }
    }
}

/// The mathematical value of an expression: names as character sequences and
/// argument lists as sequences.
pub enum Term {
    Sym(Seq<char>),
    Var(Seq<char>),
    Fun(Box<Term>, Seq<Term>),
    Op(Op, Box<Term>, Box<Term>),
}

/// An expression tree: a symbol, a variable, a head applied to arguments, or a
/// binary operator node.
#[derive(Debug)]
pub enum Expr {
    Sym(String),
    Var(String),
    Fun(Box<Expr>, Vec<Expr>),
    Op(Op, Box<Expr>, Box<Expr>),
}

pub open spec fn term_of(e: &Expr) -> Term
    decreases e,
{
    match e {
        Expr::Sym(s) => Term::Sym(s@),
        Expr::Var(s) => Term::Var(s@),
        Expr::Fun(h, args) => Term::Fun(
            Box::new(term_of(h)),
            Seq::new(
                args.len() as nat,
                |i: int|
                    if 0 <= i < args.len() {
                        term_of(&args@[i])
                    } else {
                        Term::Sym(Seq::empty())
                    },
            ),
        ),
        Expr::Op(o, l, r) => Term::Op(*o, Box::new(term_of(l)), Box::new(term_of(r))),
    }
}

impl View for Expr {
    type V = Term;

    open spec fn view(&self) -> Term {
        term_of(self)
    }
}

/// The views of a list of expressions.
pub open spec fn terms_of(es: Seq<Expr>) -> Seq<Term> {
    es.map_values(|e: Expr| e@)
}

pub proof fn lemma_fun_args_view(e: &Expr)
    requires
        e is Fun,
    ensures
        e@ is Fun,
        e@->Fun_1 == terms_of(e->Fun_1@),
        *e@->Fun_0 == (*e->Fun_0)@,
{
    assert(e@->Fun_1 =~= terms_of(e->Fun_1@));
}

/// Whether a character is upper case, as Unicode defines it.
pub uninterp spec fn is_uppercase_char(c: char) -> bool;

/// Relies on `char::is_uppercase`: whether the character has the Unicode
/// `Uppercase` property, which depends on the character alone.
#[verifier::external_body]
fn char_is_uppercase(c: char) -> (r: bool)
    ensures
        r == is_uppercase_char(c),
{
    c.is_uppercase()
}

/// An identifier names a variable when it starts with an upper-case letter or
/// an underscore; otherwise it names a symbol.
pub open spec fn classify_with(name: Seq<char>, first_is_upper: bool) -> Term {
    if first_is_upper || (name.len() > 0 && name[0] == '_') {
        Term::Var(name)
    } else {
        Term::Sym(name)
    }
}

pub open spec fn classify(name: Seq<char>) -> Term
    recommends
        name.len() > 0,
{
    classify_with(name, is_uppercase_char(name[0]))
}

/// Builds a variable or a symbol from `name`, given whether its first
/// character is upper case.
pub fn classify_name(name: &str, first_is_upper: bool) -> (r: Expr)
    ensures
        r@ == classify_with(name@, first_is_upper),
{
    let is_var = if first_is_upper {
        true
    } else if name.unicode_len() > 0 {
        name.get_char(0) == '_'
    } else {
        false
    };
    if is_var {
        Expr::Var(name.to_owned())
    } else {
        Expr::Sym(name.to_owned())
    }
}

/// Builds a variable or a symbol from a non-empty identifier.
pub fn var_or_sym_based_on_name(name: &str) -> (r: Expr)
    requires
        name@.len() > 0,
    ensures
        r@ == classify(name@),
{
    let first = name.get_char(0);
    classify_name(name, char_is_uppercase(first))
}

pub open spec fn human_name_spec(t: Term) -> Seq<char> {
    match t {
        Term::Sym(_) => "a symbol"@,
        Term::Var(_) => "a variable"@,
        Term::Fun(_, _) => "a functor"@,
        Term::Op(_, _, _) => "a binary operator"@,
    }
}

/// Wraps `s` in parentheses when `b` holds.
pub open spec fn paren_if(b: bool, s: Seq<char>) -> Seq<char> {
    if b {
        seq!['('] + s + seq![')']
    } else {
        s
    }
}

/// Whether an operand must be parenthesised under operator `o`.
pub open spec fn needs_parens(side: Term, o: Op) -> bool {
    side is Op && side->Op_0.prec() <= o.prec()
}

/// The operator with its surrounding spacing: spaces only at precedence 0.
pub open spec fn op_text(o: Op) -> Seq<char> {
    if o.prec() == 0 {
        seq![' '] + o.symbol_spec() + seq![' ']
    } else {
        o.symbol_spec()
    }
}

/// The printed form of a term.
pub open spec fn print_term(t: Term) -> Seq<char>
    decreases t, 0nat,
{
    match t {
        Term::Sym(n) => n,
        Term::Var(n) => n,
        Term::Fun(h, args) => paren_if(*h is Op, print_term(*h)) + seq!['('] + print_args(
            args,
            args.len(),
        ) + seq![')'],
        Term::Op(o, l, r) => paren_if(needs_parens(*l, o), print_term(*l)) + op_text(o)
            + paren_if(needs_parens(*r, o), print_term(*r)),
    }
}

/// The first `n` terms of `ts`, printed and separated by `", "`.
pub open spec fn print_args(ts: Seq<Term>, n: nat) -> Seq<char>
    decreases ts, n,
{
    if n == 0 || n > ts.len() {
        Seq::empty()
    } else if n == 1 {
        print_term(ts[0])
    } else {
        print_args(ts, (n - 1) as nat) + seq![',', ' '] + print_term(ts[n - 1])
    }
}

impl Expr {
    /// A phrase naming the kind of the expression, for messages.
    pub fn human_name(&self) -> (r: &'static str)
        ensures
            r@ == human_name_spec(self@),
    {
        match self {
            Expr::Sym(_) => "a symbol",
            Expr::Var(_) => "a variable",
            Expr::Fun(_, _) => "a functor",
            Expr::Op(_, _, _) => "a binary operator",
        }
    }

    /// A copy of the whole tree.
    pub fn deep_clone(&self) -> (r: Expr)
        ensures
            r@ == self@,
        decreases self,
    {
        match self {
            Expr::Sym(s) => Expr::Sym(s.clone()),
            Expr::Var(s) => Expr::Var(s.clone()),
            Expr::Fun(h, args) => {
                let new_head = h.deep_clone();
                let mut new_args: Vec<Expr> = Vec::new();
                let mut i: usize = 0;
                assert(decreases_to!(*self => *args));
                while i < args.len()
                    invariant
                        decreases_to!(*self => *args),
                        i <= args.len(),
                        new_args@.len() == i,
                        forall|j: int| 0 <= j < i ==> (#[trigger] new_args@[j])@ == args@[j]@,
                    decreases args.len() - i,
                {
                    proof {
                        assert(decreases_to!(*args => args@[i as int]));
                    }
                    new_args.push(args[i].deep_clone());
                    i += 1;
                }
                let r = Expr::Fun(Box::new(new_head), new_args);
                assert(r@->Fun_1 =~= self@->Fun_1);
                r
            },
            Expr::Op(o, l, r) => Expr::Op(*o, Box::new(l.deep_clone()), Box::new(r.deep_clone())),
        }
    }

    /// Structural equality of two trees.
    pub fn same_as(&self, other: &Expr) -> (r: bool)
        ensures
            r == (self@ == other@),
        decreases self,
    {
        match (self, other) {
            (Expr::Sym(a), Expr::Sym(b)) => *a == *b,
            (Expr::Var(a), Expr::Var(b)) => *a == *b,
            (Expr::Op(o1, l1, r1), Expr::Op(o2, l2, r2)) => {
                if *o1 != *o2 {
                    return false;
                }
                if !l1.same_as(l2) {
                    assert(self@->Op_1 != other@->Op_1);
                    return false;
                }
                let same_r = r1.same_as(r2);
                if !same_r {
                    assert(self@->Op_2 != other@->Op_2);
                }
                same_r
            },
            (Expr::Fun(h1, a1), Expr::Fun(h2, a2)) => {
                if !h1.same_as(h2) {
                    assert(self@->Fun_0 != other@->Fun_0);
                    return false;
                }
                if a1.len() != a2.len() {
                    assert(self@->Fun_1.len() != other@->Fun_1.len());
                    return false;
                }
                let mut i: usize = 0;
                assert(decreases_to!(*self => *a1));
                proof {
                    lemma_fun_args_view(self);
                    lemma_fun_args_view(other);
                }
                while i < a1.len()
                    invariant
                        decreases_to!(*self => *a1),
                        self@->Fun_1 == terms_of(a1@),
                        other@->Fun_1 == terms_of(a2@),
                        a1.len() == a2.len(),
                        i <= a1.len(),
                        forall|j: int| 0 <= j < i ==> (#[trigger] a1@[j])@ == a2@[j]@,
                    decreases a1.len() - i,
                {
                    proof {
                        assert(decreases_to!(*a1 => a1@[i as int]));
                    }
                    if !a1[i].same_as(&a2[i]) {
                        assert(self@->Fun_1[i as int] != other@->Fun_1[i as int]);
                        return false;
                    }
                    i += 1;
                }
                assert(self@->Fun_1 =~= other@->Fun_1);
                assert(self@ == other@);
                true
            },
            _ => false,
        }
    }

    /// The printed form: names as they are, applications as `head(a, b)`,
    /// operators with parentheses around operands that bind no tighter.
    pub fn to_text(&self) -> (r: String)
        ensures
            r@ == print_term(self@),
        decreases self,
    {
        match self {
            Expr::Sym(s) => s.clone(),
            Expr::Var(s) => s.clone(),
            Expr::Fun(h, args) => {
                proof {
                    reveal_strlit("(");
                    reveal_strlit(")");
                    reveal_strlit(", ");
                    lemma_fun_args_view(self);
                }
                let ghost targs = self@->Fun_1;
                let mut out = String::new();
                let head_text = h.to_text();
                let head_is_op = match &**h {
                    Expr::Op(_, _, _) => true,
                    _ => false,
                };
                if head_is_op {
                    out.append("(");
                    out.append(head_text.as_str());
                    out.append(")");
                } else {
                    out.append(head_text.as_str());
                }
                out.append("(");
                let ghost prefix = out@;
                let mut i: usize = 0;
                assert(decreases_to!(*self => *args));
                while i < args.len()
                    invariant
                        decreases_to!(*self => *args),
                        targs == terms_of(args@),
                        i <= args.len(),
                        out@ == prefix + print_args(targs, i as nat),
                    decreases args.len() - i,
                {
                    proof {
                        assert(decreases_to!(*args => args@[i as int]));
                    }
                    let arg_text = args[i].to_text();
                    proof {
                        reveal_strlit(", ");
                    }
                    assert(targs[i as int] == args@[i as int]@);
                    if i > 0 {
                        out.append(", ");
                    }
                    out.append(arg_text.as_str());
                    assert(targs.len() == args.len());
                    if i == 0 {
                        assert(print_args(targs, 1) == print_term(targs[0]));
                    } else {
                        assert(print_args(targs, (i + 1) as nat) == print_args(targs, i as nat)
                            + seq![',', ' '] + print_term(targs[i as int]));
                    }
                    i += 1;
                    assert(out@ =~= prefix + print_args(targs, i as nat));
                }
                out.append(")");
                assert(out@ =~= print_term(self@));
                out
            },
            Expr::Op(o, l, r) => {
                proof {
                    reveal_strlit("(");
                    reveal_strlit(")");
                    reveal_strlit(" ");
                }
                let mut out = String::new();
                let prec = o.precedence();
                let l_text = l.to_text();
                let l_wrap = match &**l {
                    Expr::Op(so, _, _) => so.precedence() <= prec,
                    _ => false,
                };
                if l_wrap {
                    out.append("(");
                    out.append(l_text.as_str());
                    out.append(")");
                } else {
                    out.append(l_text.as_str());
                }
                if prec == 0 {
                    out.append(" ");
                    out.append(o.symbol());
                    out.append(" ");
                } else {
                    out.append(o.symbol());
                }
                let r_text = r.to_text();
                let r_wrap = match &**r {
                    Expr::Op(so, _, _) => so.precedence() <= prec,
                    _ => false,
                };
                if r_wrap {
                    out.append("(");
                    out.append(r_text.as_str());
                    out.append(")");
                } else {
                    out.append(r_text.as_str());
                }
                assert(out@ =~= print_term(self@));
                out
            },
        }
    }
}

impl Clone for Expr {
    fn clone(&self) -> (r: Expr)
        ensures
            r@ == self@,
    {
        self.deep_clone()
    }
}

impl PartialEq for Expr {
    fn eq(&self, other: &Expr) -> (r: bool) {
        self.same_as(other)
    }
}

impl vstd::std_specs::cmp::PartialEqSpecImpl for Expr {
    open spec fn obeys_eq_spec() -> bool {
        true
    }

    open spec fn eq_spec(&self, other: &Expr) -> bool {
        self@ == other@
    }
}

} // verus!
