use vstd::prelude::*;
use crate::command::{AppliedRule, AppliedRuleView, Command, CommandView, flipped};
use crate::error::{SyntaxError, SyntaxErrorView};
use crate::expr::{
    Expr, Op, Term, classify, terms_of, lemma_fun_args_view, var_or_sym_based_on_name,
    MAX_PRECEDENCE,
};
use crate::rewrite::{Rule, RuleView};
use crate::token::{Loc, Token, TokenKind, TokenView, Tokens, token_at};

verus! {

/// The operator that a token kind stands for, if any.
pub open spec fn op_of_kind(k: TokenKind) -> Option<Op> {
    match k {
        TokenKind::Plus => Some(Op::Add),
        TokenKind::Dash => Some(Op::Sub),
        TokenKind::Asterisk => Some(Op::Mul),
        TokenKind::Slash => Some(Op::Div),
        TokenKind::Caret => Some(Op::Pow),
        _ => None,
    }
}

impl Op {
    pub fn from_token_kind(kind: TokenKind) -> (r: Option<Op>)
        ensures
            r == op_of_kind(kind),
    {
        match kind {
            TokenKind::Plus => Some(Op::Add),
            TokenKind::Dash => Some(Op::Sub),
            TokenKind::Asterisk => Some(Op::Mul),
            TokenKind::Slash => Some(Op::Div),
            TokenKind::Caret => Some(Op::Pow),
            _ => None,
        }
    }
}

/// What parsing a term from a position gives: the term and the position after
/// it, or the error.
pub type Parsed<T> = Result<(T, nat), SyntaxErrorView>;

/// Order among parse functions that start at the same position.
pub open spec fn binop_rank(k: nat) -> nat {
    if k <= 3 {
        (5 - k) as nat
    } else {
        2
    }
}

/// `expr := binop(0)`.
pub open spec fn parse_expr_at(ts: Seq<TokenView>, end: Loc, p: nat) -> Parsed<Term>
    decreases ts.len() - p, 7nat,
{
    parse_binop_at(ts, end, p, 0)
}

/// `binop(k) := primary` for `k` above the highest precedence; else
/// `binop(k+1) { OP(k) binop(k+1) }*`, grouping to the left.
pub open spec fn parse_binop_at(ts: Seq<TokenView>, end: Loc, p: nat, k: nat) -> Parsed<Term>
    decreases ts.len() - p, binop_rank(k),
{
    if k > 2 {
        parse_primary_at(ts, end, p)
    } else {
        match parse_binop_at(ts, end, p, k + 1) {
            Ok((lhs, p1)) => if p < p1 <= ts.len() {
                parse_binop_rest(ts, end, p1, k, lhs)
            } else {
                Ok((lhs, p1))
            },
            Err(x) => Err(x),
        }
    }
}

/// The `{ OP(k) binop(k+1) }*` part, with `lhs` parsed so far.
pub open spec fn parse_binop_rest(ts: Seq<TokenView>, end: Loc, p: nat, k: nat, lhs: Term) -> Parsed<
    Term,
>
    decreases ts.len() - p, 0nat,
{
    let t = token_at(ts, end, p);
    match op_of_kind(t.kind) {
        Some(op) => if op.prec() == k {
            match parse_binop_at(ts, end, p + 1, k + 1) {
                Ok((rhs, p2)) => {
                    let e = Term::Op(op, Box::new(lhs), Box::new(rhs));
                    if p + 1 < p2 <= ts.len() {
                        parse_binop_rest(ts, end, p2, k, e)
                    } else {
                        Ok((e, p2))
                    }
                },
                Err(x) => Err(x),
            }
        } else {
            Ok((lhs, p))
        },
        None => Ok((lhs, p)),
    }
}

/// `primary := '(' expr ')' fun_tail* | Ident fun_tail*`.
pub open spec fn parse_primary_at(ts: Seq<TokenView>, end: Loc, p: nat) -> Parsed<Term>
    decreases ts.len() - p, 1nat,
{
    let t = token_at(ts, end, p);
    if t.kind == TokenKind::OpenParen {
        match parse_expr_at(ts, end, p + 1) {
            Ok((e, p1)) => {
                let c = token_at(ts, end, p1);
                if c.kind != TokenKind::CloseParen {
                    Err(SyntaxErrorView::ExpectedToken(TokenKind::CloseParen, c))
                } else if p < p1 + 1 {
                    parse_tails_at(ts, end, p1 + 1, e)
                } else {
                    Ok((e, p1 + 1))
                }
            },
            Err(x) => Err(x),
        }
    } else if t.kind == TokenKind::Ident {
        parse_tails_at(ts, end, p + 1, classify(t.text))
    } else {
        Err(SyntaxErrorView::ExpectedPrimary(t))
    }
}

/// `fun_tail*` applied to `head`.
pub open spec fn parse_tails_at(ts: Seq<TokenView>, end: Loc, p: nat, head: Term) -> Parsed<Term>
    decreases ts.len() - p, 1nat,
{
    if token_at(ts, end, p).kind == TokenKind::OpenParen {
        match parse_args_at(ts, end, p) {
            Ok((args, p2)) => {
                let e = Term::Fun(Box::new(head), args);
                if p < p2 <= ts.len() {
                    parse_tails_at(ts, end, p2, e)
                } else {
                    Ok((e, p2))
                }
            },
            Err(x) => Err(x),
        }
    } else {
        Ok((head, p))
    }
}

/// `fun_tail := '(' [ expr { ',' expr } ] ')'`.
pub open spec fn parse_args_at(ts: Seq<TokenView>, end: Loc, p: nat) -> Parsed<Seq<Term>>
    decreases ts.len() - p, 0nat,
{
    let t = token_at(ts, end, p);
    if t.kind != TokenKind::OpenParen {
        Err(SyntaxErrorView::ExpectedToken(TokenKind::OpenParen, t))
    } else if token_at(ts, end, p + 1).kind == TokenKind::CloseParen {
        Ok((Seq::empty(), p + 2))
    } else {
        match parse_expr_at(ts, end, p + 1) {
            Ok((a, p1)) => if p < p1 <= ts.len() {
                parse_args_rest(ts, end, p1, seq![a])
            } else {
                Ok((seq![a], p1))
            },
            Err(x) => Err(x),
        }
    }
}

/// The `{ ',' expr } ')'` part, with the arguments `acc` parsed so far.
pub open spec fn parse_args_rest(ts: Seq<TokenView>, end: Loc, p: nat, acc: Seq<Term>) -> Parsed<
    Seq<Term>,
>
    decreases ts.len() - p, 0nat,
{
    let t = token_at(ts, end, p);
    if t.kind == TokenKind::Comma {
        match parse_expr_at(ts, end, p + 1) {
            Ok((a, p1)) => if p + 1 < p1 <= ts.len() {
                parse_args_rest(ts, end, p1, acc.push(a))
            } else {
                Ok((acc.push(a), p1))
            },
            Err(x) => Err(x),
        }
    } else if t.kind == TokenKind::CloseParen {
        Ok((acc, p + 1))
    } else {
        Err(SyntaxErrorView::ExpectedToken(TokenKind::CloseParen, t))
    }
}

/// Whether an executable parse result agrees with the spec's, the stream
/// having moved to `p1`.
pub open spec fn parsed_as<E: View>(
    r: Result<E, SyntaxError>,
    spec: Parsed<E::V>,
    p0: nat,
    p1: nat,
) -> bool {
    match r {
        Ok(e) => spec == Ok::<(E::V, nat), SyntaxErrorView>((e@, p1)) && p0 < p1,
        Err(x) => spec == Err::<(E::V, nat), SyntaxErrorView>(x@),
    }
}

/// `parsed_as` for a list of expressions.
pub open spec fn args_parsed_as(
    r: Result<Vec<Expr>, SyntaxError>,
    spec: Parsed<Seq<Term>>,
    p0: nat,
    p1: nat,
) -> bool {
    match r {
        Ok(v) => spec == Ok::<(Seq<Term>, nat), SyntaxErrorView>((terms_of(v@), p1)) && p0 < p1,
        Err(x) => spec == Err::<(Seq<Term>, nat), SyntaxErrorView>(x@),
    }
}

/// The stream after a call: the same tokens, still well formed, the position
/// not past the end.
pub open spec fn same_stream(before: Tokens, after: Tokens) -> bool {
    &&& after.wf()
    &&& after@.items == before@.items
    &&& after@.end == before@.end
    &&& after@.pos <= after@.items.len()
}

/// Consumes the next token and checks its kind.
pub fn expect_token_kind(lexer: &mut Tokens, kind: TokenKind) -> (r: Result<Token, SyntaxError>)
    requires
        old(lexer).wf(),
    ensures
        same_stream(*old(lexer), *final(lexer)),
        ({
            let t = token_at(old(lexer)@.items, old(lexer)@.end, old(lexer)@.pos);
            match r {
                Ok(tok) => tok@ == t && t.kind == kind && final(lexer)@.pos == if old(lexer)@.pos
                    < old(lexer)@.items.len() {
                    old(lexer)@.pos + 1
                } else {
                    old(lexer)@.pos
                },
                Err(x) => t.kind != kind && x@ == SyntaxErrorView::ExpectedToken(kind, t),
            }
        }),
{
    let token = lexer.next_token();
    if kind == token.kind {
        Ok(token)
    } else {
        Err(SyntaxError::ExpectedToken(kind, token))
    }
}

impl Expr {
    /// Parses `fun_tail`: a parenthesised, comma-separated argument list.
    fn parse_fun_args(lexer: &mut Tokens) -> (r: Result<Vec<Expr>, SyntaxError>)
        requires
            old(lexer).wf(),
        ensures
            same_stream(*old(lexer), *final(lexer)),
            args_parsed_as(
                r,
                parse_args_at(old(lexer)@.items, old(lexer)@.end, old(lexer)@.pos),
                old(lexer)@.pos,
                final(lexer)@.pos,
            ),
        decreases old(lexer)@.items.len() - old(lexer)@.pos, 0nat,
    {
        let ghost ts = lexer@.items;
        let ghost end = lexer@.end;
        let ghost p0 = lexer@.pos;
        let mut args: Vec<Expr> = Vec::new();
        match expect_token_kind(lexer, TokenKind::OpenParen) {
            Ok(_) => {},
            Err(x) => return Err(x),
        }
        if lexer.peek_token().kind == TokenKind::CloseParen {
            lexer.next_token();
            assert(terms_of(args@) =~= Seq::<Term>::empty());
            return Ok(args);
        }
        let ghost p_first = lexer@.pos;
        let first = match Expr::parse(lexer) {
            Ok(e) => e,
            Err(x) => return Err(x),
        };
        args.push(first);
        proof {
            assert(terms_of(args@) =~= seq![first@]);
        }
        while lexer.peek_token().kind == TokenKind::Comma
            invariant
                same_stream(*old(lexer), *lexer),
                p0 == old(lexer)@.pos,
                lexer@.items == ts,
                lexer@.end == end,
                p0 < lexer@.pos,
                parse_args_at(ts, end, p0) == parse_args_rest(
                    ts,
                    end,
                    lexer@.pos,
                    terms_of(args@),
                ),
            decreases ts.len() - lexer@.pos,
        {
            let ghost p = lexer@.pos;
            let ghost acc = terms_of(args@);
            lexer.next_token();
            let a = match Expr::parse(lexer) {
                Ok(e) => e,
                Err(x) => return Err(x),
            };
            args.push(a);
            assert(terms_of(args@) =~= acc.push(a@));
        }
        let close_paren = lexer.next_token();
        if close_paren.kind == TokenKind::CloseParen {
            Ok(args)
        } else {
            Err(SyntaxError::ExpectedToken(TokenKind::CloseParen, close_paren))
        }
    }

    /// Parses `primary`: a parenthesised expression or an identifier, each
    /// followed by any number of argument lists.
    fn parse_fun_or_var_or_sym(lexer: &mut Tokens) -> (r: Result<Expr, SyntaxError>)
        requires
            old(lexer).wf(),
        ensures
            same_stream(*old(lexer), *final(lexer)),
            parsed_as(
                r,
                parse_primary_at(old(lexer)@.items, old(lexer)@.end, old(lexer)@.pos),
                old(lexer)@.pos,
                final(lexer)@.pos,
            ),
        decreases old(lexer)@.items.len() - old(lexer)@.pos, 1nat,
    {
        let ghost ts = lexer@.items;
        let ghost end = lexer@.end;
        let ghost p0 = lexer@.pos;
        let token = lexer.peek_token();
        let mut head = if token.kind == TokenKind::OpenParen {
            lexer.next_token();
            let result = match Expr::parse(lexer) {
                Ok(e) => e,
                Err(x) => return Err(x),
            };
            match expect_token_kind(lexer, TokenKind::CloseParen) {
                Ok(_) => {},
                Err(x) => return Err(x),
            }
            result
        } else if token.kind == TokenKind::Ident {
            lexer.next_token();
            var_or_sym_based_on_name(token.text.as_str())
        } else {
            return Err(SyntaxError::ExpectedPrimary(token));
        };
        assert(parse_primary_at(ts, end, p0) == parse_tails_at(ts, end, lexer@.pos, head@));
        while lexer.peek_token().kind == TokenKind::OpenParen
            invariant
                same_stream(*old(lexer), *lexer),
                p0 == old(lexer)@.pos,
                lexer@.items == ts,
                lexer@.end == end,
                p0 < lexer@.pos,
                parse_primary_at(ts, end, p0) == parse_tails_at(ts, end, lexer@.pos, head@),
            decreases ts.len() - lexer@.pos,
        {
            let args = match Expr::parse_fun_args(lexer) {
                Ok(a) => a,
                Err(x) => return Err(x),
            };
            let ghost targs = terms_of(args@);
            head = Expr::Fun(Box::new(head), args);
            proof {
                lemma_fun_args_view(&head);
            }
        }
        Ok(head)
    }

    /// Parses `binop(current_precedence)`.
    pub fn parse_binary_operator(lexer: &mut Tokens, current_precedence: usize) -> (r: Result<
        Expr,
        SyntaxError,
    >)
        requires
            old(lexer).wf(),
            current_precedence <= MAX_PRECEDENCE + 1,
        ensures
            same_stream(*old(lexer), *final(lexer)),
            parsed_as(
                r,
                parse_binop_at(
                    old(lexer)@.items,
                    old(lexer)@.end,
                    old(lexer)@.pos,
                    current_precedence as nat,
                ),
                old(lexer)@.pos,
                final(lexer)@.pos,
            ),
        decreases old(lexer)@.items.len() - old(lexer)@.pos, binop_rank(current_precedence as nat),
    {
        if current_precedence > MAX_PRECEDENCE {
            return Expr::parse_fun_or_var_or_sym(lexer);
        }
        let ghost ts = lexer@.items;
        let ghost end = lexer@.end;
        let ghost p0 = lexer@.pos;
        let mut result = match Expr::parse_binary_operator(lexer, current_precedence + 1) {
            Ok(e) => e,
            Err(x) => return Err(x),
        };
        let mut done = false;
        while !done
            invariant
                same_stream(*old(lexer), *lexer),
                p0 == old(lexer)@.pos,
                lexer@.items == ts,
                lexer@.end == end,
                p0 < lexer@.pos,
                current_precedence <= MAX_PRECEDENCE,
                !done ==> parse_binop_at(ts, end, p0, current_precedence as nat) == parse_binop_rest(
                    ts,
                    end,
                    lexer@.pos,
                    current_precedence as nat,
                    result@,
                ),
                done ==> parse_binop_at(ts, end, p0, current_precedence as nat) == Ok::<
                    (Term, nat),
                    SyntaxErrorView,
                >((result@, lexer@.pos)),
            decreases ts.len() - lexer@.pos, if done {
                0nat
            } else {
                1nat
            },
        {
            match Op::from_token_kind(lexer.peek_token().kind) {
                Some(op) => {
                    if current_precedence != op.precedence() {
                        done = true;
                    } else {
                        lexer.next_token();
                        let rhs = match Expr::parse_binary_operator(lexer, current_precedence + 1) {
                            Ok(e) => e,
                            Err(x) => return Err(x),
                        };
                        result = Expr::Op(op, Box::new(result), Box::new(rhs));
                    }
                },
                None => {
                    done = true;
                },
            }
        }
        Ok(result)
    }

    /// Parses one expression.
    pub fn parse(lexer: &mut Tokens) -> (r: Result<Expr, SyntaxError>)
        requires
            old(lexer).wf(),
        ensures
            same_stream(*old(lexer), *final(lexer)),
            parsed_as(
                r,
                parse_expr_at(old(lexer)@.items, old(lexer)@.end, old(lexer)@.pos),
                old(lexer)@.pos,
                final(lexer)@.pos,
            ),
        decreases old(lexer)@.items.len() - old(lexer)@.pos, 7nat,
    {
        Expr::parse_binary_operator(lexer, 0)
    }
}

/// `applied_rule := 'reverse' applied_rule | 'rule' expr '=' expr | Ident`.
pub open spec fn parse_applied_at(ts: Seq<TokenView>, end: Loc, p: nat) -> Parsed<AppliedRuleView>
    decreases ts.len() - p,
{
    let t = token_at(ts, end, p);
    if t.kind == TokenKind::Reverse {
        match parse_applied_at(ts, end, p + 1) {
            Ok((a, p1)) => Ok((flipped(a), p1)),
            Err(x) => Err(x),
        }
    } else if t.kind == TokenKind::Rule {
        match parse_expr_at(ts, end, p + 1) {
            Ok((head, p1)) => {
                let q = token_at(ts, end, p1);
                if q.kind != TokenKind::Equals {
                    Err(SyntaxErrorView::ExpectedToken(TokenKind::Equals, q))
                } else {
                    match parse_expr_at(ts, end, p1 + 1) {
                        Ok((body, p2)) => Ok(
                            (AppliedRuleView::Anonymous { loc: t.loc, head, body }, p2),
                        ),
                        Err(x) => Err(x),
                    }
                }
            },
            Err(x) => Err(x),
        }
    } else if t.kind == TokenKind::Ident {
        Ok((AppliedRuleView::ByName { loc: t.loc, name: t.text, reversed: false }, p + 1))
    } else {
        Err(SyntaxErrorView::ExpectedAppliedRule(t))
    }
}

/// One command: `rule Ident expr '=' expr`, `shape expr`,
/// `apply Ident applied_rule`, `done`, `undo`, `quit` or `delete Ident`.
pub open spec fn parse_command_at(ts: Seq<TokenView>, end: Loc, p: nat) -> Parsed<CommandView> {
    let kw = token_at(ts, end, p);
    let n = token_at(ts, end, p + 1);
    match kw.kind {
        TokenKind::Rule => if n.kind != TokenKind::Ident {
            Err(SyntaxErrorView::ExpectedToken(TokenKind::Ident, n))
        } else {
            match parse_expr_at(ts, end, p + 2) {
                Ok((head, p1)) => {
                    let q = token_at(ts, end, p1);
                    if q.kind != TokenKind::Equals {
                        Err(SyntaxErrorView::ExpectedToken(TokenKind::Equals, q))
                    } else {
                        match parse_expr_at(ts, end, p1 + 1) {
                            Ok((body, p2)) => Ok(
                                (
                                    CommandView::DefineRule(
                                        kw.loc,
                                        n.text,
                                        RuleView::User { loc: kw.loc, head, body },
                                    ),
                                    p2,
                                ),
                            ),
                            Err(x) => Err(x),
                        }
                    }
                },
                Err(x) => Err(x),
            }
        },
        TokenKind::Shape => match parse_expr_at(ts, end, p + 1) {
            Ok((e, p1)) => Ok((CommandView::StartShaping(kw.loc, e), p1)),
            Err(x) => Err(x),
        },
        TokenKind::Apply => if n.kind != TokenKind::Ident {
            Err(SyntaxErrorView::ExpectedToken(TokenKind::Ident, n))
        } else {
            match parse_applied_at(ts, end, p + 2) {
                Ok((a, p1)) => Ok(
                    (
                        CommandView::ApplyRule {
                            loc: kw.loc,
                            strategy_name: n.text,
                            applied_rule: a,
                        },
                        p1,
                    ),
                ),
                Err(x) => Err(x),
            }
        },
        TokenKind::Done => Ok((CommandView::FinishShaping(kw.loc), p + 1)),
        TokenKind::Undo => Ok((CommandView::UndoRule(kw.loc), p + 1)),
        TokenKind::Quit => Ok((CommandView::Quit, p + 1)),
        TokenKind::Delete => if n.kind != TokenKind::Ident {
            Err(SyntaxErrorView::ExpectedToken(TokenKind::Ident, n))
        } else {
            Ok((CommandView::DeleteRule(kw.loc, n.text), p + 2))
        },
        _ => Err(SyntaxErrorView::ExpectedCommand(kw)),
    }
}

impl AppliedRule {
    /// Parses `applied_rule`.
    pub fn parse(lexer: &mut Tokens) -> (r: Result<AppliedRule, SyntaxError>)
        requires
            old(lexer).wf(),
        ensures
            same_stream(*old(lexer), *final(lexer)),
            parsed_as(
                r,
                parse_applied_at(old(lexer)@.items, old(lexer)@.end, old(lexer)@.pos),
                old(lexer)@.pos,
                final(lexer)@.pos,
            ),
        decreases old(lexer)@.items.len() - old(lexer)@.pos,
    {
        let token = lexer.next_token();
        if token.kind == TokenKind::Reverse {
            match AppliedRule::parse(lexer) {
                Ok(a) => Ok(a.reversed()),
                Err(x) => Err(x),
            }
        } else if token.kind == TokenKind::Rule {
            let head = match Expr::parse(lexer) {
                Ok(e) => e,
                Err(x) => return Err(x),
            };
            match expect_token_kind(lexer, TokenKind::Equals) {
                Ok(_) => {},
                Err(x) => return Err(x),
            }
            let body = match Expr::parse(lexer) {
                Ok(e) => e,
                Err(x) => return Err(x),
            };
            Ok(AppliedRule::Anonymous { loc: token.loc, head, body })
        } else if token.kind == TokenKind::Ident {
            Ok(AppliedRule::ByName { loc: token.loc, name: token.text, reversed: false })
        } else {
            Err(SyntaxError::ExpectedAppliedRule(token))
        }
    }
}

impl Command {
    /// Parses one command.
    pub fn parse(lexer: &mut Tokens) -> (r: Result<Command, SyntaxError>)
        requires
            old(lexer).wf(),
        ensures
            same_stream(*old(lexer), *final(lexer)),
            parsed_as(
                r,
                parse_command_at(old(lexer)@.items, old(lexer)@.end, old(lexer)@.pos),
                old(lexer)@.pos,
                final(lexer)@.pos,
            ),
    {
        let keyword = lexer.next_token();
        match keyword.kind {
            TokenKind::Rule => {
                let name = match expect_token_kind(lexer, TokenKind::Ident) {
                    Ok(t) => t,
                    Err(x) => return Err(x),
                };
                let head = match Expr::parse(lexer) {
                    Ok(e) => e,
                    Err(x) => return Err(x),
                };
                match expect_token_kind(lexer, TokenKind::Equals) {
                    Ok(_) => {},
                    Err(x) => return Err(x),
                }
                let body = match Expr::parse(lexer) {
                    Ok(e) => e,
                    Err(x) => return Err(x),
                };
                Ok(
                    Command::DefineRule(
                        keyword.loc,
                        name.text,
                        Rule::User { loc: keyword.loc, head, body },
                    ),
                )
            },
            TokenKind::Shape => match Expr::parse(lexer) {
                Ok(e) => Ok(Command::StartShaping(keyword.loc, e)),
                Err(x) => Err(x),
            },
            TokenKind::Apply => {
                let strategy_name = match expect_token_kind(lexer, TokenKind::Ident) {
                    Ok(t) => t.text,
                    Err(x) => return Err(x),
                };
                match AppliedRule::parse(lexer) {
                    Ok(applied_rule) => Ok(
                        Command::ApplyRule { loc: keyword.loc, strategy_name, applied_rule },
                    ),
                    Err(x) => Err(x),
                }
            },
            TokenKind::Done => Ok(Command::FinishShaping(keyword.loc)),
            TokenKind::Undo => Ok(Command::UndoRule(keyword.loc)),
            TokenKind::Quit => Ok(Command::Quit),
            TokenKind::Delete => match expect_token_kind(lexer, TokenKind::Ident) {
                Ok(t) => Ok(Command::DeleteRule(keyword.loc, t.text)),
                Err(x) => Err(x),
            },
            _ => Err(SyntaxError::ExpectedCommand(keyword)),
        }
    }
}

} // verus!
