use vstd::prelude::*;
use crate::expr::{Expr, Term};
use crate::rewrite::{Rule, RuleView};
use crate::token::Loc;

verus! {

/// The rule named in an `apply` command: a rule of the table, possibly to be
/// reversed, or one written in place.
#[derive(Debug)]
pub enum AppliedRule {
    ByName { loc: Loc, name: String, reversed: bool },
    Anonymous { loc: Loc, head: Expr, body: Expr },
}

pub enum AppliedRuleView {
    ByName { loc: Loc, name: Seq<char>, reversed: bool },
    Anonymous { loc: Loc, head: Term, body: Term },
}

impl View for AppliedRule {
    type V = AppliedRuleView;

    open spec fn view(&self) -> AppliedRuleView {
        match self {
            AppliedRule::ByName { loc, name, reversed } => AppliedRuleView::ByName {
                loc: *loc,
                name: name@,
                reversed: *reversed,
            },
            AppliedRule::Anonymous { loc, head, body } => AppliedRuleView::Anonymous {
                loc: *loc,
                head: head@,
                body: body@,
            },
        }
    }
}

/// The applied rule flipped: head and body swap places in a rule written in
/// place; a rule named from the table has its `reversed` flag toggled.
pub open spec fn flipped(a: AppliedRuleView) -> AppliedRuleView {
    match a {
        AppliedRuleView::ByName { loc, name, reversed } => AppliedRuleView::ByName {
            loc,
            name,
            reversed: !reversed,
        },
        AppliedRuleView::Anonymous { loc, head, body } => AppliedRuleView::Anonymous {
            loc,
            head: body,
            body: head,
        },
    }
}

impl AppliedRule {
    pub fn reversed(self) -> (r: AppliedRule)
        ensures
            r@ == flipped(self@),
    {
        match self {
            AppliedRule::ByName { loc, name, reversed } => AppliedRule::ByName {
                loc,
                name,
                reversed: !reversed,
            },
            AppliedRule::Anonymous { loc, head, body } => AppliedRule::Anonymous {
                loc,
                head: body,
                body: head,
            },
        }
    }
}

/// One command of the source language.
#[derive(Debug)]
pub enum Command {
    DefineRule(Loc, String, Rule),
    StartShaping(Loc, Expr),
    ApplyRule { loc: Loc, strategy_name: String, applied_rule: AppliedRule },
    FinishShaping(Loc),
    UndoRule(Loc),
    Quit,
    DeleteRule(Loc, String),
}

pub enum CommandView {
    DefineRule(Loc, Seq<char>, RuleView),
    StartShaping(Loc, Term),
    ApplyRule { loc: Loc, strategy_name: Seq<char>, applied_rule: AppliedRuleView },
    FinishShaping(Loc),
    UndoRule(Loc),
    Quit,
    DeleteRule(Loc, Seq<char>),
}

impl View for Command {
    type V = CommandView;

    open spec fn view(&self) -> CommandView {
        match self {
            Command::DefineRule(l, n, r) => CommandView::DefineRule(*l, n@, r@),
            Command::StartShaping(l, e) => CommandView::StartShaping(*l, e@),
            Command::ApplyRule { loc, strategy_name, applied_rule } => CommandView::ApplyRule {
                loc: *loc,
                strategy_name: strategy_name@,
                applied_rule: applied_rule@,
            },
            Command::FinishShaping(l) => CommandView::FinishShaping(*l),
            Command::UndoRule(l) => CommandView::UndoRule(*l),
            Command::Quit => CommandView::Quit,
            Command::DeleteRule(l, n) => CommandView::DeleteRule(*l, n@),
        }
    }
}

} // verus!
