use vstd::prelude::*;
use crate::expr::{Expr, Term};
use crate::token::{Loc, Token, TokenKind, TokenView};

verus! {

/// An error found while parsing commands or expressions. Each carries the
/// offending token.
#[derive(Debug)]
pub enum SyntaxError {
    ExpectedToken(TokenKind, Token),
    ExpectedPrimary(Token),
    ExpectedAppliedRule(Token),
    ExpectedCommand(Token),
}

pub enum SyntaxErrorView {
    ExpectedToken(TokenKind, TokenView),
    ExpectedPrimary(TokenView),
    ExpectedAppliedRule(TokenView),
    ExpectedCommand(TokenView),
}

impl View for SyntaxError {
    type V = SyntaxErrorView;

    open spec fn view(&self) -> SyntaxErrorView {
        match self {
            SyntaxError::ExpectedToken(k, t) => SyntaxErrorView::ExpectedToken(*k, t@),
            SyntaxError::ExpectedPrimary(t) => SyntaxErrorView::ExpectedPrimary(t@),
            SyntaxError::ExpectedAppliedRule(t) => SyntaxErrorView::ExpectedAppliedRule(t@),
            SyntaxError::ExpectedCommand(t) => SyntaxErrorView::ExpectedCommand(t@),
        }
    }
}

/// An error found while carrying out a command.
#[derive(Debug)]
pub enum RuntimeError {
    /// The name, where the new definition stands, and where the old one
    /// stands (absent for the built-in rule).
    RuleAlreadyExists(String, Loc, Option<Loc>),
    RuleDoesNotExist(String, Loc),
    AlreadyShaping(Loc),
    NoShapingInPlace(Loc),
    NoHistory(Loc),
    UnknownStrategy(String, Loc),
    IrreversibleRule(Loc),
    StrategyIsNotSym(Expr, Loc),
    /// A rewrite nested deeper than the engine's depth limit.
    DepthLimit(Loc),
}

pub enum RuntimeErrorView {
    RuleAlreadyExists(Seq<char>, Loc, Option<Loc>),
    RuleDoesNotExist(Seq<char>, Loc),
    AlreadyShaping(Loc),
    NoShapingInPlace(Loc),
    NoHistory(Loc),
    UnknownStrategy(Seq<char>, Loc),
    IrreversibleRule(Loc),
    StrategyIsNotSym(Term, Loc),
    DepthLimit(Loc),
}

impl View for RuntimeError {
    type V = RuntimeErrorView;

    open spec fn view(&self) -> RuntimeErrorView {
        match self {
            RuntimeError::RuleAlreadyExists(n, l, o) => RuntimeErrorView::RuleAlreadyExists(
                n@,
                *l,
                *o,
            ),
            RuntimeError::RuleDoesNotExist(n, l) => RuntimeErrorView::RuleDoesNotExist(n@, *l),
            RuntimeError::AlreadyShaping(l) => RuntimeErrorView::AlreadyShaping(*l),
            RuntimeError::NoShapingInPlace(l) => RuntimeErrorView::NoShapingInPlace(*l),
            RuntimeError::NoHistory(l) => RuntimeErrorView::NoHistory(*l),
            RuntimeError::UnknownStrategy(n, l) => RuntimeErrorView::UnknownStrategy(n@, *l),
            RuntimeError::IrreversibleRule(l) => RuntimeErrorView::IrreversibleRule(*l),
            RuntimeError::StrategyIsNotSym(e, l) => RuntimeErrorView::StrategyIsNotSym(e@, *l),
            RuntimeError::DepthLimit(l) => RuntimeErrorView::DepthLimit(*l),
        }
    }
}

/// Either kind of error.
#[derive(Debug)]
pub enum Error {
    Runtime(RuntimeError),
    Syntax(SyntaxError),
}

pub enum ErrorView {
    Runtime(RuntimeErrorView),
    Syntax(SyntaxErrorView),
}

impl View for Error {
    type V = ErrorView;

    open spec fn view(&self) -> ErrorView {
        match self {
            Error::Runtime(e) => ErrorView::Runtime(e@),
            Error::Syntax(e) => ErrorView::Syntax(e@),
        }
    }
}

} // verus!
