use vstd::prelude::*;
use crate::expr::{Op, Term, classify, needs_parens, op_text, paren_if, print_args, print_term};
use crate::lexer::{is_blank, is_word_char, lex_from, lex_spec, punct_kind, word_end, word_kind};
use crate::parser::{
    op_of_kind, parse_args_at, parse_args_rest, parse_binop_at, parse_binop_rest, parse_expr_at,
    parse_primary_at, parse_tails_at,
};
use crate::token::{Loc, TokenKind, TokenView, token_at};

verus! {

/// Tokens without their locations: kinds and texts.
pub type Shape = Seq<(TokenKind, Seq<char>)>;

pub open spec fn open_tok() -> (TokenKind, Seq<char>) {
    (TokenKind::OpenParen, seq!['('])
}

pub open spec fn close_tok() -> (TokenKind, Seq<char>) {
    (TokenKind::CloseParen, seq![')'])
}

pub open spec fn comma_tok() -> (TokenKind, Seq<char>) {
    (TokenKind::Comma, seq![','])
}

/// The token kind of an operator.
pub open spec fn op_kind(o: Op) -> TokenKind {
    match o {
        Op::Add => TokenKind::Plus,
        Op::Sub => TokenKind::Dash,
        Op::Mul => TokenKind::Asterisk,
        Op::Div => TokenKind::Slash,
        Op::Pow => TokenKind::Caret,
    }
}

pub open spec fn wrap_toks(b: bool, s: Shape) -> Shape {
    if b {
        seq![open_tok()] + s + seq![close_tok()]
    } else {
        s
    }
}

/// The tokens of the printed form of a term.
pub open spec fn print_tokens(t: Term) -> Shape
    decreases t, 0nat,
{
    match t {
        Term::Sym(n) => seq![(TokenKind::Ident, n)],
        Term::Var(n) => seq![(TokenKind::Ident, n)],
        Term::Fun(h, args) => wrap_toks(*h is Op, print_tokens(*h)) + seq![open_tok()]
            + args_tokens(args, args.len()) + seq![close_tok()],
        Term::Op(o, l, r) => wrap_toks(needs_parens(*l, o), print_tokens(*l)) + seq![
            (op_kind(o), o.symbol_spec()),
        ] + wrap_toks(needs_parens(*r, o), print_tokens(*r)),
    }
}

/// The tokens of the first `n` arguments, separated by commas.
pub open spec fn args_tokens(ts: Seq<Term>, n: nat) -> Shape
    decreases ts, n,
{
    if n == 0 || n > ts.len() {
        Seq::empty()
    } else if n == 1 {
        print_tokens(ts[0])
    } else {
        args_tokens(ts, (n - 1) as nat) + seq![comma_tok()] + print_tokens(ts[n - 1])
    }
}

/// A name that prints as one identifier token.
pub open spec fn is_name(n: Seq<char>) -> bool {
    &&& n.len() > 0
    &&& forall|i: int| 0 <= i < n.len() ==> is_word_char(#[trigger] n[i])
    &&& word_kind(n) == TokenKind::Ident
}

/// A term that the grammar can build: every name is an identifier that is
/// not a keyword and whose first character makes it the variable or the
/// symbol that it is.
pub open spec fn well_formed(t: Term) -> bool
    decreases t,
{
    match t {
        Term::Sym(n) => is_name(n) && classify(n) == t,
        Term::Var(n) => is_name(n) && classify(n) == t,
        Term::Fun(h, args) => well_formed(*h) && forall|i: int|
            0 <= i < args.len() ==> well_formed(#[trigger] args[i]),
        Term::Op(_, l, r) => well_formed(*l) && well_formed(*r),
    }
}

/// The tokens of `ts` from position `p` on have the kinds and texts of `s`.
pub open spec fn holds_at(ts: Seq<TokenView>, p: nat, s: Shape) -> bool {
    &&& p + s.len() <= ts.len()
    &&& forall|j: int|
        0 <= j < s.len() ==> ts[p + j].kind == (#[trigger] s[j]).0 && ts[p + j].text == s[j].1
}

/// The token at `q` ends a term parsed at level `k`: it opens no argument
/// list and is no operator of precedence `k` or more.
pub open spec fn stops_at(ts: Seq<TokenView>, end: Loc, q: nat, k: nat) -> bool {
    let kd = token_at(ts, end, q).kind;
    kd != TokenKind::OpenParen && (op_of_kind(kd) is Some ==> op_of_kind(kd)->0.prec() < k)
}

proof fn lemma_holds_split(ts: Seq<TokenView>, p: nat, a: Shape, b: Shape)
    requires
        holds_at(ts, p, a + b),
    ensures
        holds_at(ts, p, a),
        holds_at(ts, p + a.len(), b),
{
    assert forall|j: int| 0 <= j < a.len() implies ts[p + j].kind == (#[trigger] a[j]).0
        && ts[p + j].text == a[j].1 by {
        assert((a + b)[j] == a[j]);
    }
    assert forall|j: int| 0 <= j < b.len() implies ts[(p + a.len()) + j].kind == (
    #[trigger] b[j]).0 && ts[(p + a.len()) + j].text == b[j].1 by {
        assert((a + b)[a.len() + j] == b[j]);
    }
}

proof fn lemma_holds_prefix(ts: Seq<TokenView>, p: nat, s: Shape, n: nat)
    requires
        holds_at(ts, p, s),
        n <= s.len(),
    ensures
        holds_at(ts, p, s.subrange(0, n as int)),
{
    assert forall|j: int| 0 <= j < n implies ts[p + j].kind == (#[trigger] s.subrange(
        0,
        n as int,
    )[j]).0 && ts[p + j].text == s.subrange(0, n as int)[j].1 by {
        assert(s.subrange(0, n as int)[j] == s[j]);
    }
}

/// The token at `p + j` of `ts`, where `s` holds.
proof fn lemma_token_in(ts: Seq<TokenView>, end: Loc, p: nat, s: Shape, j: int)
    requires
        holds_at(ts, p, s),
        0 <= j < s.len(),
    ensures
        token_at(ts, end, (p + j) as nat).kind == s[j].0,
        token_at(ts, end, (p + j) as nat).text == s[j].1,
{
    assert(s[j] == s[j]);
}

proof fn lemma_first_token(t: Term)
    ensures
        print_tokens(t).len() > 0,
        print_tokens(t)[0].0 == TokenKind::Ident || print_tokens(t)[0].0 == TokenKind::OpenParen,
    decreases t,
{
    match t {
        Term::Fun(h, args) => {
            lemma_first_token(*h);
        },
        Term::Op(o, l, r) => {
            lemma_first_token(*l);
        },
        _ => {},
    }
}

proof fn lemma_args_prefix(args: Seq<Term>, n: nat, m: nat)
    requires
        n <= m <= args.len(),
    ensures
        args_tokens(args, n).len() <= args_tokens(args, m).len(),
        args_tokens(args, m).subrange(0, args_tokens(args, n).len() as int) == args_tokens(args, n),
    decreases m - n,
{
    if n < m {
        lemma_args_prefix(args, n, (m - 1) as nat);
        let a = args_tokens(args, n);
        let b = args_tokens(args, (m - 1) as nat);
        let c = args_tokens(args, m);
        if m == 1 {
            assert(n == 0);
            assert(c.subrange(0, 0) =~= a);
        } else {
            assert(c == b + seq![comma_tok()] + print_tokens(args[m - 1]));
            assert(c.subrange(0, a.len() as int) =~= b.subrange(0, a.len() as int));
        }
    } else {
        assert(args_tokens(args, m).subrange(0, args_tokens(args, n).len() as int) =~= args_tokens(
            args,
            n,
        ));
    }
}

/// A term that has been parsed as a primary is parsed the same way at every
/// level, provided the next token ends it.
proof fn lemma_prim_levels(ts: Seq<TokenView>, end: Loc, p: nat, k: nat, t: Term, m: nat)
    requires
        k <= 3,
        parse_primary_at(ts, end, p) == Ok::<(Term, nat), crate::error::SyntaxErrorView>((t, p + m)),
        0 < m,
        p + m <= ts.len(),
        stops_at(ts, end, p + m, k),
    ensures
        parse_binop_at(ts, end, p, k) == Ok::<(Term, nat), crate::error::SyntaxErrorView>(
            (t, p + m),
        ),
    decreases 3 - k,
{
    if k <= 2 {
        lemma_prim_levels(ts, end, p, k + 1, t, m);
        assert(parse_binop_rest(ts, end, p + m, k, t) == Ok::<
            (Term, nat),
            crate::error::SyntaxErrorView,
        >((t, p + m)));
    }
}

/// A term that prints as a primary parses as one, followed by argument lists.
proof fn lemma_primary_form(ts: Seq<TokenView>, end: Loc, p: nat, t: Term)
    requires
        well_formed(t),
        !(t is Op),
        holds_at(ts, p, print_tokens(t)),
    ensures
        parse_primary_at(ts, end, p) == parse_tails_at(ts, end, p + print_tokens(t).len(), t),
    decreases t, 0nat,
{
    match t {
        Term::Sym(n) => {
            lemma_token_in(ts, end, p, print_tokens(t), 0);
        },
        Term::Var(n) => {
            lemma_token_in(ts, end, p, print_tokens(t), 0);
        },
        Term::Fun(h, args) => {
            let hs = wrap_toks(*h is Op, print_tokens(*h));
            let rest = seq![open_tok()] + args_tokens(args, args.len()) + seq![close_tok()];
            assert(print_tokens(t) =~= hs + rest);
            lemma_holds_split(ts, p, hs, rest);
            let q = p + hs.len();
            lemma_args_parse(ts, end, q, args);
            lemma_token_in(ts, end, q, rest, 0);
            let m = print_tokens(t).len();
            if *h is Op {
                let inner = print_tokens(*h);
                assert(hs =~= seq![open_tok()] + (inner + seq![close_tok()]));
                lemma_holds_split(ts, p, seq![open_tok()], inner + seq![close_tok()]);
                lemma_holds_split(ts, p + 1, inner, seq![close_tok()]);
                lemma_token_in(ts, end, p, seq![open_tok()], 0);
                lemma_token_in(ts, end, p + 1 + inner.len(), seq![close_tok()], 0);
                lemma_binop_form(ts, end, p + 1, 0, *h);
                assert(parse_expr_at(ts, end, p + 1) == Ok::<
                    (Term, nat),
                    crate::error::SyntaxErrorView,
                >((*h, p + 1 + inner.len())));
                assert(parse_primary_at(ts, end, p) == parse_tails_at(ts, end, q, *h));
            } else {
                lemma_primary_form(ts, end, p, *h);
            }
            assert(Term::Fun(Box::new(*h), args) == t);
            assert(parse_tails_at(ts, end, q, *h) == parse_tails_at(ts, end, p + m, t));
        },
        _ => {},
    }
}

/// The operand of an operator of precedence `k0`, printed with the
/// parentheses it needs, parses at level `k0 + 1`.
proof fn lemma_operand(ts: Seq<TokenView>, end: Loc, p: nat, o: Op, x: Term)
    requires
        well_formed(x),
        holds_at(ts, p, wrap_toks(needs_parens(x, o), print_tokens(x))),
        stops_at(ts, end, p + wrap_toks(needs_parens(x, o), print_tokens(x)).len(), o.prec() + 1),
    ensures
        parse_binop_at(ts, end, p, o.prec() + 1) == Ok::<(Term, nat), crate::error::SyntaxErrorView>(
            (x, p + wrap_toks(needs_parens(x, o), print_tokens(x)).len()),
        ),
    decreases x, 5nat,
{
    let inner = print_tokens(x);
    let w = wrap_toks(needs_parens(x, o), inner);
    lemma_first_token(x);
    if needs_parens(x, o) {
        assert(w =~= seq![open_tok()] + (inner + seq![close_tok()]));
        lemma_holds_split(ts, p, seq![open_tok()], inner + seq![close_tok()]);
        lemma_holds_split(ts, p + 1, inner, seq![close_tok()]);
        lemma_token_in(ts, end, p, seq![open_tok()], 0);
        lemma_token_in(ts, end, p + 1 + inner.len(), seq![close_tok()], 0);
        lemma_binop_form(ts, end, p + 1, 0, x);
        assert(parse_primary_at(ts, end, p) == Ok::<(Term, nat), crate::error::SyntaxErrorView>(
            (x, p + w.len()),
        ));
        lemma_prim_levels(ts, end, p, o.prec() + 1, x, w.len());
    } else {
        lemma_binop_form(ts, end, p, o.prec() + 1, x);
    }
}

/// A well-formed term followed by a token that ends it parses back at level
/// `k`, when its own operator binds at least that tightly.
proof fn lemma_binop_form(ts: Seq<TokenView>, end: Loc, p: nat, k: nat, t: Term)
    requires
        well_formed(t),
        k <= 3,
        holds_at(ts, p, print_tokens(t)),
        t is Op ==> t->Op_0.prec() >= k,
        stops_at(ts, end, p + print_tokens(t).len(), k),
    ensures
        parse_binop_at(ts, end, p, k) == Ok::<(Term, nat), crate::error::SyntaxErrorView>(
            (t, p + print_tokens(t).len()),
        ),
    decreases t, 4 - k,
{
    let m = print_tokens(t).len();
    lemma_first_token(t);
    match t {
        Term::Op(o, l, r) => {
            let k0 = o.prec();
            if k < k0 {
                lemma_binop_form(ts, end, p, k + 1, t);
                assert(parse_binop_rest(ts, end, p + m, k, t) == Ok::<
                    (Term, nat),
                    crate::error::SyntaxErrorView,
                >((t, p + m)));
            } else {
                let ls = wrap_toks(needs_parens(*l, o), print_tokens(*l));
                let os = seq![(op_kind(o), o.symbol_spec())];
                let rs = wrap_toks(needs_parens(*r, o), print_tokens(*r));
                assert(print_tokens(t) =~= ls + (os + rs));
                lemma_holds_split(ts, p, ls, os + rs);
                lemma_holds_split(ts, p + ls.len(), os, rs);
                let q = p + ls.len();
                lemma_token_in(ts, end, q, os, 0);
                assert(op_of_kind(op_kind(o)) == Some(o));
                lemma_operand(ts, end, p, o, *l);
                lemma_operand(ts, end, q + 1, o, *r);
                assert(parse_binop_rest(ts, end, p + m, k0, t) == Ok::<
                    (Term, nat),
                    crate::error::SyntaxErrorView,
                >((t, p + m)));
                assert(parse_binop_rest(ts, end, q, k0, *l) == parse_binop_rest(
                    ts,
                    end,
                    p + m,
                    k0,
                    t,
                ));
            }
        },
        _ => {
            lemma_primary_form(ts, end, p, t);
            assert(parse_tails_at(ts, end, p + m, t) == Ok::<
                (Term, nat),
                crate::error::SyntaxErrorView,
            >((t, p + m)));
            lemma_prim_levels(ts, end, p, k, t, m);
        },
    }
}

/// A parenthesised, comma-separated argument list parses back.
proof fn lemma_args_parse(ts: Seq<TokenView>, end: Loc, p: nat, args: Seq<Term>)
    requires
        forall|i: int| 0 <= i < args.len() ==> well_formed(#[trigger] args[i]),
        holds_at(ts, p, seq![open_tok()] + args_tokens(args, args.len()) + seq![close_tok()]),
    ensures
        parse_args_at(ts, end, p) == Ok::<(Seq<Term>, nat), crate::error::SyntaxErrorView>(
            (args, p + 2 + args_tokens(args, args.len()).len()),
        ),
    decreases args, 1nat,
{
    let all = args_tokens(args, args.len());
    lemma_holds_split(ts, p, seq![open_tok()] + all, seq![close_tok()]);
    lemma_holds_split(ts, p, seq![open_tok()], all);
    lemma_token_in(ts, end, p, seq![open_tok()], 0);
    lemma_token_in(ts, end, p + 1 + all.len(), seq![close_tok()], 0);
    if args.len() == 0 {
        assert(args =~= Seq::<Term>::empty());
    } else {
        lemma_args_prefix(args, 1, args.len());
        lemma_holds_prefix(ts, p + 1, all, args_tokens(args, 1).len());
        lemma_first_token(args[0]);
        lemma_token_in(ts, end, p + 1, args_tokens(args, 1), 0);
        lemma_args_next(ts, end, p, args, 0);
        lemma_binop_form(ts, end, p + 1, 0, args[0]);
        assert(seq![args[0]] =~= args.subrange(0, 1));
        lemma_args_rest(ts, end, p, args, 1);
    }
}

/// The token that follows the first `n + 1` arguments: a comma, or the
/// closing parenthesis after the last one.
proof fn lemma_args_next(ts: Seq<TokenView>, end: Loc, p: nat, args: Seq<Term>, n: nat)
    requires
        n < args.len(),
        holds_at(ts, p, seq![open_tok()] + args_tokens(args, args.len()) + seq![close_tok()]),
    ensures
        ({
            let q = p + 1 + args_tokens(args, n + 1).len();
            &&& stops_at(ts, end, q, 0)
            &&& n + 1 < args.len() ==> token_at(ts, end, q).kind == TokenKind::Comma
            &&& n + 1 == args.len() ==> token_at(ts, end, q).kind == TokenKind::CloseParen
            &&& q < ts.len()
        }),
{
    let all = args_tokens(args, args.len());
    lemma_holds_split(ts, p, seq![open_tok()] + all, seq![close_tok()]);
    lemma_holds_split(ts, p, seq![open_tok()], all);
    let q = p + 1 + args_tokens(args, n + 1).len();
    if n + 1 < args.len() {
        lemma_args_prefix(args, n + 2, args.len());
        let s2 = args_tokens(args, n + 2);
        lemma_holds_prefix(ts, p + 1, all, s2.len());
        assert(s2 == args_tokens(args, n + 1) + seq![comma_tok()] + print_tokens(args[(n + 1) as int]));
        assert(s2[args_tokens(args, n + 1).len() as int] == comma_tok());
        lemma_token_in(ts, end, p + 1, s2, args_tokens(args, n + 1).len() as int);
    } else {
        lemma_token_in(ts, end, p + 1 + all.len(), seq![close_tok()], 0);
    }
}

/// After the first `n` arguments, the rest of the list parses back.
proof fn lemma_args_rest(ts: Seq<TokenView>, end: Loc, p: nat, args: Seq<Term>, n: nat)
    requires
        1 <= n <= args.len(),
        forall|i: int| 0 <= i < args.len() ==> well_formed(#[trigger] args[i]),
        holds_at(ts, p, seq![open_tok()] + args_tokens(args, args.len()) + seq![close_tok()]),
    ensures
        parse_args_rest(ts, end, p + 1 + args_tokens(args, n).len(), args.subrange(0, n as int))
            == Ok::<(Seq<Term>, nat), crate::error::SyntaxErrorView>(
            (args, p + 2 + args_tokens(args, args.len()).len()),
        ),
    decreases args, 0nat, args.len() - n,
{
    let all = args_tokens(args, args.len());
    let q = p + 1 + args_tokens(args, n).len();
    lemma_args_next(ts, end, p, args, (n - 1) as nat);
    if n == args.len() {
        assert(args.subrange(0, n as int) =~= args);
        assert(token_at(ts, end, q).kind == TokenKind::CloseParen);
        assert(q + 1 == p + 2 + all.len());
    } else {
        let s2 = args_tokens(args, n + 1);
        lemma_args_prefix(args, n + 1, args.len());
        lemma_holds_split(ts, p, seq![open_tok()] + all, seq![close_tok()]);
        lemma_holds_split(ts, p, seq![open_tok()], all);
        lemma_holds_prefix(ts, p + 1, all, s2.len());
        assert(s2 == args_tokens(args, n) + seq![comma_tok()] + print_tokens(args[n as int]));
        lemma_holds_split(ts, p + 1, args_tokens(args, n) + seq![comma_tok()], print_tokens(
            args[n as int],
        ));
        lemma_args_next(ts, end, p, args, n);
        lemma_first_token(args[n as int]);
        lemma_binop_form(ts, end, q + 1, 0, args[n as int]);
        assert(args.subrange(0, n as int).push(args[n as int]) =~= args.subrange(0, (n + 1) as int));
        lemma_args_rest(ts, end, p, args, n + 1);
        let pn = print_tokens(args[n as int]);
        assert(token_at(ts, end, q).kind == TokenKind::Comma);
        assert(parse_expr_at(ts, end, q + 1) == Ok::<(Term, nat), crate::error::SyntaxErrorView>(
            (args[n as int], q + 1 + pn.len()),
        ));
        assert(q + 1 + pn.len() == p + 1 + s2.len());
        assert(q + 1 + pn.len() <= ts.len());
    }
}

/// Round trip at the level of tokens: the tokens of the printed form of a
/// well-formed term parse back to the term.
pub proof fn lemma_parse_print_tokens(ts: Seq<TokenView>, end: Loc, t: Term)
    requires
        well_formed(t),
        holds_at(ts, 0, print_tokens(t)),
        ts.len() == print_tokens(t).len(),
    ensures
        parse_expr_at(ts, end, 0) == Ok::<(Term, nat), crate::error::SyntaxErrorView>(
            (t, ts.len()),
        ),
{
    lemma_binop_form(ts, end, 0, 0, t);
}

/// `cs` holds `s` from position `i` on.
pub open spec fn chars_at(cs: Seq<char>, i: nat, s: Seq<char>) -> bool {
    i + s.len() <= cs.len() && cs.subrange(i as int, (i + s.len()) as int) == s
}

/// Position `j` of `cs` is the end of the text or a character that cannot
/// continue a word.
pub open spec fn word_break(cs: Seq<char>, j: nat) -> bool {
    j < cs.len() ==> !is_word_char(cs[j as int])
}

/// Lexing `cs` from `i` gives the tokens `s` for the next `n` characters and
/// then goes on as from `i + n`.
pub open spec fn lexes_to(cs: Seq<char>, i: nat, row: nat, col: nat, n: nat, s: Shape) -> bool {
    let all = lex_from(cs, i, row, col);
    let rest = lex_from(cs, i + n, row, col + n);
    &&& all.len() == s.len() + rest.len()
    &&& holds_at(all, 0, s)
    &&& all.subrange(s.len() as int, all.len() as int) == rest
}

proof fn lemma_chars_split(cs: Seq<char>, i: nat, a: Seq<char>, b: Seq<char>)
    requires
        chars_at(cs, i, a + b),
    ensures
        chars_at(cs, i, a),
        chars_at(cs, i + a.len(), b),
        b.len() > 0 ==> cs[(i + a.len()) as int] == b[0],
{
    assert forall|k: int| 0 <= k < a.len() implies cs.subrange(i as int, (i + a.len()) as int)[k] == a[k] by {
        assert(cs.subrange(i as int, (i + (a + b).len()) as int)[k] == (a + b)[k]);
    }
    assert(cs.subrange(i as int, (i + a.len()) as int) =~= a);
    let j = i + a.len();
    assert forall|k: int|
        0 <= k < b.len() implies cs.subrange(j as int, (j + b.len()) as int)[k] == b[k] by {
        assert(cs.subrange(i as int, (i + (a + b).len()) as int)[a.len() + k] == (a + b)[a.len() + k]);
    }
    assert(cs.subrange((i + a.len()) as int, (i + a.len() + b.len()) as int) =~= b);
    if b.len() > 0 {
        assert(cs.subrange(i as int, (i + (a + b).len()) as int)[a.len() as int] == (a + b)[a.len() as int]);
    }
}

proof fn lemma_lexes_compose(
    cs: Seq<char>,
    i: nat,
    row: nat,
    col: nat,
    n1: nat,
    s1: Shape,
    n2: nat,
    s2: Shape,
)
    requires
        lexes_to(cs, i, row, col, n1, s1),
        lexes_to(cs, i + n1, row, col + n1, n2, s2),
    ensures
        lexes_to(cs, i, row, col, n1 + n2, s1 + s2),
{
    let all = lex_from(cs, i, row, col);
    let mid = lex_from(cs, i + n1, row, col + n1);
    let rest = lex_from(cs, i + n1 + n2, row, col + n1 + n2);
    assert(i + (n1 + n2) == i + n1 + n2);
    assert(col + (n1 + n2) == col + n1 + n2);
    assert forall|j: int| 0 <= j < (s1 + s2).len() implies all[0 + j].kind == (#[trigger] (s1
        + s2)[j]).0 && all[0 + j].text == (s1 + s2)[j].1 by {
        if j < s1.len() {
            assert(s1[j] == s1[j]);
        } else {
            assert(all[j] == all.subrange(s1.len() as int, all.len() as int)[j - s1.len()]);
            assert(s2[j - s1.len()] == s2[j - s1.len()]);
            assert(mid[0 + (j - s1.len())] == mid[j - s1.len()]);
        }
    }
    assert(all.subrange((s1 + s2).len() as int, all.len() as int) =~= mid.subrange(
        s2.len() as int,
        mid.len() as int,
    ));
}

proof fn lemma_lex_empty(cs: Seq<char>, i: nat, row: nat, col: nat)
    ensures
        lexes_to(cs, i, row, col, 0, Seq::empty()),
{
    let all = lex_from(cs, i, row, col);
    assert(all.subrange(0, all.len() as int) =~= all);
}

proof fn lemma_lex_punct(cs: Seq<char>, i: nat, row: nat, col: nat, c: char)
    requires
        chars_at(cs, i, seq![c]),
        !is_blank(c),
        !is_word_char(c),
    ensures
        lexes_to(cs, i, row, col, 1, seq![(punct_kind(c), seq![c])]),
{
    assert(cs.subrange(i as int, (i + 1) as int)[0] == cs[i as int]);
    let all = lex_from(cs, i, row, col);
    let rest = lex_from(cs, i + 1, row, col + 1);
    assert(all.subrange(1, all.len() as int) =~= rest);
}

proof fn lemma_lex_space(cs: Seq<char>, i: nat, row: nat, col: nat)
    requires
        chars_at(cs, i, seq![' ']),
    ensures
        lexes_to(cs, i, row, col, 1, Seq::empty()),
{
    assert(cs.subrange(i as int, (i + 1) as int)[0] == cs[i as int]);
    let all = lex_from(cs, i, row, col);
    assert(all.subrange(0, all.len() as int) =~= all);
}

proof fn lemma_word_end_at(cs: Seq<char>, i: nat, j: nat)
    requires
        i <= j <= cs.len(),
        forall|k: int| i <= k < j ==> is_word_char(#[trigger] cs[k]),
        word_break(cs, j),
    ensures
        word_end(cs, i) == j,
    decreases j - i,
{
    if i < j {
        lemma_word_end_at(cs, i + 1, j);
    }
}

proof fn lemma_lex_word(cs: Seq<char>, i: nat, row: nat, col: nat, n: Seq<char>)
    requires
        is_name(n),
        chars_at(cs, i, n),
        word_break(cs, i + n.len()),
    ensures
        lexes_to(cs, i, row, col, n.len(), seq![(TokenKind::Ident, n)]),
{
    assert forall|k: int| i <= k < i + n.len() implies is_word_char(#[trigger] cs[k]) by {
        assert(cs.subrange(i as int, (i + n.len()) as int)[k - i] == n[k - i]);
    }
    lemma_word_end_at(cs, i, i + n.len());
    assert(cs.subrange(i as int, (i + n.len()) as int)[0] == n[0]);
    assert(is_word_char(cs[i as int]));
    let all = lex_from(cs, i, row, col);
    let rest = lex_from(cs, i + n.len(), row, col + n.len());
    assert(all.subrange(1, all.len() as int) =~= rest);
}

proof fn lemma_lex_op_char(o: Op)
    ensures
        o.symbol_spec().len() == 1,
        punct_kind(o.symbol_spec()[0]) == op_kind(o),
        !is_blank(o.symbol_spec()[0]),
        !is_word_char(o.symbol_spec()[0]),
        seq![o.symbol_spec()[0]] == o.symbol_spec(),
{
    assert(seq![o.symbol_spec()[0]] =~= o.symbol_spec());
}

/// The printed form of a term, wrapped in parentheses or not, lexes to its
/// tokens, wrapped the same way.
proof fn lemma_lex_wrapped(cs: Seq<char>, i: nat, row: nat, col: nat, b: bool, t: Term)
    requires
        well_formed(t),
        chars_at(cs, i, paren_if(b, print_term(t))),
        word_break(cs, i + paren_if(b, print_term(t)).len()),
    ensures
        lexes_to(
            cs,
            i,
            row,
            col,
            paren_if(b, print_term(t)).len(),
            wrap_toks(b, print_tokens(t)),
        ),
    decreases t, 4nat,
{
    let pr = print_term(t);
    if b {
        assert(paren_if(b, pr) =~= seq!['('] + (pr + seq![')']));
        lemma_chars_split(cs, i, seq!['('], pr + seq![')']);
        lemma_chars_split(cs, i + 1, pr, seq![')']);
        lemma_lex_punct(cs, i, row, col, '(');
        lemma_lex_printed(cs, i + 1, row, col + 1, t);
        lemma_lex_punct(cs, i + 1 + pr.len(), row, col + 1 + pr.len(), ')');
        lemma_lexes_compose(cs, i + 1, row, col + 1, pr.len(), print_tokens(t), 1, seq![close_tok()]);
        let inner = print_tokens(t) + seq![close_tok()];
        lemma_lexes_compose(cs, i, row, col, 1, seq![open_tok()], pr.len() + 1, inner);
        assert(seq![open_tok()] + (print_tokens(t) + seq![close_tok()]) =~= wrap_toks(b, print_tokens(t)));
    } else {
        lemma_lex_printed(cs, i, row, col, t);
    }
}

/// The printed form of a well-formed term lexes to the tokens of it, when
/// what follows cannot extend its last word.
proof fn lemma_lex_printed(cs: Seq<char>, i: nat, row: nat, col: nat, t: Term)
    requires
        well_formed(t),
        chars_at(cs, i, print_term(t)),
        word_break(cs, i + print_term(t).len()),
    ensures
        lexes_to(cs, i, row, col, print_term(t).len(), print_tokens(t)),
    decreases t, 3nat,
{
    match t {
        Term::Sym(n) => {
            lemma_lex_word(cs, i, row, col, n);
        },
        Term::Var(n) => {
            lemma_lex_word(cs, i, row, col, n);
        },
        Term::Fun(_, _) => {
            lemma_lex_fun(cs, i, row, col, t);
        },
        Term::Op(_, _, _) => {
            lemma_lex_op(cs, i, row, col, t);
        },
    }
}

proof fn lemma_lex_fun(cs: Seq<char>, i: nat, row: nat, col: nat, t: Term)
    requires
        t is Fun,
        well_formed(t),
        chars_at(cs, i, print_term(t)),
        word_break(cs, i + print_term(t).len()),
    ensures
        lexes_to(cs, i, row, col, print_term(t).len(), print_tokens(t)),
    decreases t, 2nat,
{
    let h = t->Fun_0;
    let args = t->Fun_1;
    let hp = paren_if(*h is Op, print_term(*h));
    let ap = print_args(args, args.len());
    assert(print_term(t) =~= hp + (seq!['('] + (ap + seq![')'])));
    lemma_chars_split(cs, i, hp, seq!['('] + (ap + seq![')']));
    let i1 = i + hp.len();
    lemma_chars_split(cs, i1, seq!['('], ap + seq![')']);
    let i2 = i1 + 1;
    lemma_chars_split(cs, i2, ap, seq![')']);
    let i3 = i2 + ap.len();
    lemma_lex_wrapped(cs, i, row, col, *h is Op, *h);
    lemma_lex_punct(cs, i1, row, col + hp.len(), '(');
    lemma_lex_args(cs, i2, row, col + hp.len() + 1, args, args.len());
    lemma_lex_punct(cs, i3, row, col + hp.len() + 1 + ap.len(), ')');
    let hs = wrap_toks(*h is Op, print_tokens(*h));
    let at = args_tokens(args, args.len());
    lemma_lexes_compose(cs, i2, row, col + hp.len() + 1, ap.len(), at, 1, seq![close_tok()]);
    let closed = at + seq![close_tok()];
    lemma_lexes_compose(cs, i1, row, col + hp.len(), 1, seq![open_tok()], ap.len() + 1, closed);
    lemma_lexes_compose(cs, i, row, col, hp.len(), hs, ap.len() + 2, seq![open_tok()] + closed);
    assert(hs + (seq![open_tok()] + (at + seq![close_tok()])) =~= print_tokens(t));
}

proof fn lemma_lex_op_text(cs: Seq<char>, i: nat, row: nat, col: nat, o: Op)
    requires
        chars_at(cs, i, op_text(o)),
    ensures
        lexes_to(cs, i, row, col, op_text(o).len(), seq![(op_kind(o), o.symbol_spec())]),
        !is_word_char(op_text(o)[0]),
{
    let ot = op_text(o);
    lemma_lex_op_char(o);
    let c = o.symbol_spec()[0];
    let os = seq![(op_kind(o), o.symbol_spec())];
    if o.prec() == 0 {
        assert(ot =~= seq![' '] + (seq![c] + seq![' ']));
        lemma_chars_split(cs, i, seq![' '], seq![c] + seq![' ']);
        lemma_chars_split(cs, i + 1, seq![c], seq![' ']);
        lemma_lex_space(cs, i, row, col);
        lemma_lex_punct(cs, i + 1, row, col + 1, c);
        lemma_lex_space(cs, i + 2, row, col + 2);
        lemma_lexes_compose(cs, i + 1, row, col + 1, 1, os, 1, Seq::empty());
        lemma_lexes_compose(cs, i, row, col, 1, Seq::empty(), 2, os + Seq::empty());
        assert(Seq::<(TokenKind, Seq<char>)>::empty() + (os + Seq::empty()) =~= os);
    } else {
        assert(ot =~= seq![c]);
        lemma_lex_punct(cs, i, row, col, c);
    }
}

proof fn lemma_lex_op(cs: Seq<char>, i: nat, row: nat, col: nat, t: Term)
    requires
        t is Op,
        well_formed(t),
        chars_at(cs, i, print_term(t)),
        word_break(cs, i + print_term(t).len()),
    ensures
        lexes_to(cs, i, row, col, print_term(t).len(), print_tokens(t)),
    decreases t, 2nat,
{
    let o = t->Op_0;
    let l = *t->Op_1;
    let r = *t->Op_2;
    let lp = paren_if(needs_parens(l, o), print_term(l));
    let ot = op_text(o);
    let rp = paren_if(needs_parens(r, o), print_term(r));
    assert(print_term(t) =~= lp + (ot + rp));
    lemma_chars_split(cs, i, lp, ot + rp);
    let i1 = i + lp.len();
    lemma_chars_split(cs, i1, ot, rp);
    let i2 = i1 + ot.len();
    let os = seq![(op_kind(o), o.symbol_spec())];
    lemma_lex_op_text(cs, i1, row, col + lp.len(), o);
    lemma_lex_wrapped(cs, i, row, col, needs_parens(l, o), l);
    lemma_lex_wrapped(cs, i2, row, col + lp.len() + ot.len(), needs_parens(r, o), r);
    let ls = wrap_toks(needs_parens(l, o), print_tokens(l));
    let rs = wrap_toks(needs_parens(r, o), print_tokens(r));
    lemma_lexes_compose(cs, i1, row, col + lp.len(), ot.len(), os, rp.len(), rs);
    lemma_lexes_compose(cs, i, row, col, lp.len(), ls, ot.len() + rp.len(), os + rs);
    assert(ls + (os + rs) =~= print_tokens(t));
}

/// The printed arguments lex to their tokens.
proof fn lemma_lex_args(cs: Seq<char>, i: nat, row: nat, col: nat, args: Seq<Term>, n: nat)
    requires
        n <= args.len(),
        forall|k: int| 0 <= k < args.len() ==> well_formed(#[trigger] args[k]),
        chars_at(cs, i, print_args(args, n)),
        word_break(cs, i + print_args(args, n).len()),
    ensures
        lexes_to(cs, i, row, col, print_args(args, n).len(), args_tokens(args, n)),
    decreases args, n,
{
    if n == 0 {
        lemma_lex_empty(cs, i, row, col);
    } else if n == 1 {
        lemma_lex_printed(cs, i, row, col, args[0]);
    } else {
        let a = print_args(args, (n - 1) as nat);
        let last = print_term(args[n - 1]);
        assert(print_args(args, n) =~= a + (seq![','] + (seq![' '] + last)));
        lemma_chars_split(cs, i, a, seq![','] + (seq![' '] + last));
        let i1 = i + a.len();
        lemma_chars_split(cs, i1, seq![','], seq![' '] + last);
        lemma_chars_split(cs, i1 + 1, seq![' '], last);
        lemma_lex_args(cs, i, row, col, args, (n - 1) as nat);
        lemma_lex_punct(cs, i1, row, col + a.len(), ',');
        lemma_lex_space(cs, i1 + 1, row, col + a.len() + 1);
        lemma_lex_printed(cs, i1 + 2, row, col + a.len() + 2, args[n - 1]);
        let pl = print_tokens(args[n - 1]);
        lemma_lexes_compose(cs, i1 + 1, row, col + a.len() + 1, 1, Seq::empty(), last.len(), pl);
        let spaced: Shape = Seq::empty() + pl;
        let front = args_tokens(args, (n - 1) as nat);
        lemma_lexes_compose(cs, i1, row, col + a.len(), 1, seq![comma_tok()], 1 + last.len(), spaced);
        lemma_lexes_compose(cs, i, row, col, a.len(), front, 2 + last.len(), seq![comma_tok()] + spaced);
        assert(front + (seq![comma_tok()] + spaced) =~= args_tokens(args, n));
    }
}

/// Round trip: lexing and parsing the printed form of a well-formed term
/// gives the term back.
pub proof fn lemma_round_trip(t: Term, end: Loc)
    requires
        well_formed(t),
    ensures
        parse_expr_at(lex_spec(print_term(t)), end, 0) == Ok::<
            (Term, nat),
            crate::error::SyntaxErrorView,
        >((t, lex_spec(print_term(t)).len())),
{
    let cs = print_term(t);
    assert(cs.subrange(0, cs.len() as int) =~= cs);
    lemma_lex_printed(cs, 0, 1, 1, t);
    let all = lex_spec(cs);
    assert(lex_from(cs, cs.len(), 1, 1 + cs.len()) =~= Seq::<TokenView>::empty());
    lemma_parse_print_tokens(all, end, t);
}

} // verus!
