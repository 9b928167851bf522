use vstd::prelude::*;
use crate::command::{AppliedRule, AppliedRuleView, Command, CommandView};
use crate::error::{Error, ErrorView, RuntimeError, RuntimeErrorView};
use crate::parser::{Parsed, parse_command_at, same_stream};
use crate::token::{TokenKind, TokenView, Tokens, token_at};
use crate::expr::{Expr, Term, terms_of};
use crate::rewrite::{Rule, RuleView, rewrite};
use crate::strategy::{Strategy, strategy_named};
use crate::token::Loc;

verus! {

broadcast use vstd::std_specs::vec::group_vec_axioms;

/// Named entries, in the order they were added.
pub type Entries = Seq<(Seq<char>, RuleView)>;

/// The table that a list of uniquely named entries stands for.
pub open spec fn rule_map(ps: Entries) -> Map<Seq<char>, RuleView>
    decreases ps.len(),
{
    if ps.len() == 0 {
        Map::empty()
    } else {
        rule_map(ps.drop_last()).insert(ps.last().0, ps.last().1)
    }
}

pub open spec fn names_unique(ps: Entries) -> bool {
    forall|i: int, j: int| 0 <= i < j < ps.len() ==> (#[trigger] ps[i]).0 != (#[trigger] ps[j]).0
}

proof fn lemma_rule_map_keys(ps: Entries, k: Seq<char>)
    ensures
        rule_map(ps).contains_key(k) <==> exists|i: int| 0 <= i < ps.len() && (#[trigger] ps[i]).0 == k,
    decreases ps.len(),
{
    if ps.len() > 0 {
        lemma_rule_map_keys(ps.drop_last(), k);
        if rule_map(ps.drop_last()).contains_key(k) {
            let i = choose|i: int| 0 <= i < ps.drop_last().len() && (#[trigger] ps.drop_last()[i]).0 == k;
            assert(ps[i] == ps.drop_last()[i]);
        }
        if exists|i: int| 0 <= i < ps.len() && (#[trigger] ps[i]).0 == k {
            let i = choose|i: int| 0 <= i < ps.len() && (#[trigger] ps[i]).0 == k;
            if i < ps.len() - 1 {
                assert(ps.drop_last()[i] == ps[i]);
            }
        }
    }
}

proof fn lemma_rule_map_get(ps: Entries, i: int)
    requires
        names_unique(ps),
        0 <= i < ps.len(),
    ensures
        rule_map(ps).contains_key(ps[i].0),
        rule_map(ps)[ps[i].0] == ps[i].1,
    decreases ps.len(),
{
    if i < ps.len() - 1 {
        lemma_rule_map_get(ps.drop_last(), i);
        assert(ps.drop_last()[i] == ps[i]);
        assert(ps[i].0 != ps.last().0);
    }
}

proof fn lemma_rule_map_remove(ps: Entries, j: int)
    requires
        names_unique(ps),
        0 <= j < ps.len(),
    ensures
        rule_map(ps.remove(j)) == rule_map(ps).remove(ps[j].0),
        names_unique(ps.remove(j)),
    decreases ps.len(),
{
    let k = ps[j].0;
    if j == ps.len() - 1 {
        assert(ps.remove(j) =~= ps.drop_last());
        lemma_rule_map_keys(ps.drop_last(), k);
        if rule_map(ps.drop_last()).contains_key(k) {
            let i = choose|i: int| 0 <= i < ps.drop_last().len() && (#[trigger] ps.drop_last()[i]).0 == k;
            assert(ps[i].0 == k);
        }
        assert(rule_map(ps.remove(j)) =~= rule_map(ps).remove(k));
    } else {
        lemma_rule_map_remove(ps.drop_last(), j);
        assert(ps.remove(j).drop_last() =~= ps.drop_last().remove(j));
        assert(ps.remove(j).last() == ps.last());
        assert(ps.last().0 != k);
        assert(rule_map(ps.remove(j)) =~= rule_map(ps).remove(k));
    }
    assert forall|a: int, b: int| 0 <= a < b < ps.remove(j).len() implies (#[trigger] ps.remove(j)[a]).0
        != (#[trigger] ps.remove(j)[b]).0 by {
        let a2 = if a < j { a } else { a + 1 };
        let b2 = if b < j { b } else { b + 1 };
        assert(ps.remove(j)[a] == ps[a2]);
        assert(ps.remove(j)[b] == ps[b2]);
    }
}

/// The state of a session.
pub struct ContextView {
    pub rules: Map<Seq<char>, RuleView>,
    pub current: Option<Term>,
    pub history: Seq<Term>,
    pub quit: bool,
}

/// The rule that an applied rule stands for, given the table.
pub open spec fn materialize(rules: Map<Seq<char>, RuleView>, a: AppliedRuleView) -> Result<
    RuleView,
    RuntimeErrorView,
> {
    match a {
        AppliedRuleView::Anonymous { loc, head, body } => Ok(RuleView::User { loc, head, body }),
        AppliedRuleView::ByName { loc, name, reversed } => if !rules.contains_key(name) {
            Err(RuntimeErrorView::RuleDoesNotExist(name, loc))
        } else if !reversed {
            Ok(rules[name])
        } else {
            match rules[name] {
                RuleView::User { loc: l, head, body } => Ok(
                    RuleView::User { loc: l, head: body, body: head },
                ),
                RuleView::Replace => Err(RuntimeErrorView::IrreversibleRule(loc)),
            }
        },
    }
}

/// Where the existing rule of a name was defined, if it is a user rule.
pub open spec fn defined_at(r: RuleView) -> Option<Loc> {
    match r {
        RuleView::User { loc, .. } => Some(loc),
        RuleView::Replace => None,
    }
}

/// What one command does to a session: the new state and the expression to
/// show, or the error. On an error the state stays as it was.
pub open spec fn step(c: ContextView, cmd: CommandView) -> Result<
    (ContextView, Option<Term>),
    RuntimeErrorView,
> {
    match cmd {
        CommandView::DefineRule(loc, name, rule) => if c.rules.contains_key(name) {
            Err(RuntimeErrorView::RuleAlreadyExists(name, loc, defined_at(c.rules[name])))
        } else {
            Ok(
                (
                    ContextView {
                        rules: c.rules.insert(name, rule),
                        current: c.current,
                        history: c.history,
                        quit: c.quit,
                    },
                    None,
                ),
            )
        },
        CommandView::StartShaping(loc, e) => if c.current is Some {
            Err(RuntimeErrorView::AlreadyShaping(loc))
        } else {
            Ok(
                (
                    ContextView {
                        rules: c.rules,
                        current: Some(e),
                        history: Seq::empty(),
                        quit: c.quit,
                    },
                    Some(e),
                ),
            )
        },
        CommandView::ApplyRule { loc, strategy_name, applied_rule } => match c.current {
            None => Err(RuntimeErrorView::NoShapingInPlace(loc)),
            Some(e) => match materialize(c.rules, applied_rule) {
                Err(x) => Err(x),
                Ok(rule) => match strategy_named(strategy_name) {
                    None => Err(RuntimeErrorView::UnknownStrategy(strategy_name, loc)),
                    Some(s) => match rewrite(rule, e, s, loc) {
                        Err(x) => Err(x),
                        Ok((t, _, _)) => Ok(
                            (
                                ContextView {
                                    rules: c.rules,
                                    current: Some(t),
                                    history: c.history.push(e),
                                    quit: c.quit,
                                },
                                Some(t),
                            ),
                        ),
                    },
                },
            },
        },
        CommandView::FinishShaping(loc) => if c.current is Some {
            Ok(
                (
                    ContextView {
                        rules: c.rules,
                        current: None,
                        history: Seq::empty(),
                        quit: c.quit,
                    },
                    None,
                ),
            )
        } else {
            Err(RuntimeErrorView::NoShapingInPlace(loc))
        },
        CommandView::UndoRule(loc) => if c.current is None {
            Err(RuntimeErrorView::NoShapingInPlace(loc))
        } else if c.history.len() == 0 {
            Err(RuntimeErrorView::NoHistory(loc))
        } else {
            Ok(
                (
                    ContextView {
                        rules: c.rules,
                        current: Some(c.history.last()),
                        history: c.history.drop_last(),
                        quit: c.quit,
                    },
                    Some(c.history.last()),
                ),
            )
        },
        CommandView::Quit => Ok(
            (
                ContextView { rules: c.rules, current: c.current, history: c.history, quit: true },
                None,
            ),
        ),
        CommandView::DeleteRule(loc, name) => if c.rules.contains_key(name) {
            Ok(
                (
                    ContextView {
                        rules: c.rules.remove(name),
                        current: c.current,
                        history: c.history,
                        quit: c.quit,
                    },
                    None,
                ),
            )
        } else {
            Err(RuntimeErrorView::RuleDoesNotExist(name, loc))
        },
    }
}

/// The view of an optional expression.
pub open spec fn opt_term(o: Option<Expr>) -> Option<Term> {
    match o {
        Some(e) => Some(e@),
        None => None,
    }
}

/// Whether an executable command result agrees with `step`.
pub open spec fn outcome_agrees(
    before: ContextView,
    cmd: CommandView,
    r: Result<Option<Expr>, RuntimeError>,
    after: ContextView,
) -> bool {
    match r {
        Ok(o) => step(before, cmd) == Ok::<(ContextView, Option<Term>), RuntimeErrorView>(
            (after, opt_term(o)),
        ),
        Err(e) => step(before, cmd) == Err::<(ContextView, Option<Term>), RuntimeErrorView>(e@)
            && after == before,
    }
}

/// A session: the rule table, the expression being shaped, and its history.
pub struct Context {
    rules: Vec<(String, Rule)>,
    current_expr: Option<Expr>,
    shaping_history: Vec<Expr>,
    quit: bool,
}

impl View for Context {
    type V = ContextView;

    closed spec fn view(&self) -> ContextView {
        ContextView {
            rules: rule_map(self.entries()),
            current: opt_term(self.current_expr),
            history: terms_of(self.shaping_history@),
            quit: self.quit,
        }
    }
}

impl Context {
    pub closed spec fn entries(&self) -> Entries {
        self.rules@.map_values(|p: (String, Rule)| (p.0@, p.1@))
    }

    pub closed spec fn wf(&self) -> bool {
        names_unique(self.entries())
    }

    /// A fresh session whose table holds the built-in rule `replace`.
    pub fn new() -> (r: Context)
        ensures
            r.wf(),
            r@.rules == map!["replace"@ => RuleView::Replace],
            r@.current is None,
            r@.history.len() == 0,
            !r@.quit,
    {
        proof {
            reveal_strlit("replace");
        }
        let mut rules: Vec<(String, Rule)> = Vec::new();
        let builtin = "replace".to_owned();
        let ghost builtin_name = builtin@;
        rules.push((builtin, Rule::Replace));
        let r = Context { rules, current_expr: None, shaping_history: Vec::new(), quit: false };
        proof {
            let ps = r.entries();
            assert(ps.drop_last() =~= Seq::<(Seq<char>, RuleView)>::empty());
            assert(ps.len() == 1);
            assert(ps.last() == (builtin_name, RuleView::Replace));
            assert(rule_map(ps.drop_last()) =~= Map::<Seq<char>, RuleView>::empty());
            assert(r@.rules == rule_map(ps));
            assert(r@.rules =~= map!["replace"@ => RuleView::Replace]);
        }
        r
    }

    /// Whether a `quit` command has been carried out.
    pub fn quit(&self) -> (r: bool)
        ensures
            r == self@.quit,
    {
        self.quit
    }

    /// The expression being shaped, if a shaping session is in place.
    pub fn current_expr(&self) -> (r: Option<&Expr>)
        ensures
            match r {
                Some(e) => self@.current == Some(e@),
                None => self@.current is None,
            },
    {
        match &self.current_expr {
            Some(e) => Some(e),
            None => None,
        }
    }

    /// How many steps of the current shaping can be undone.
    pub fn history_len(&self) -> (r: usize)
        ensures
            r == self@.history.len(),
    {
        self.shaping_history.len()
    }

    /// Whether the table holds a rule of that name.
    pub fn has_rule(&self, name: &String) -> (r: bool)
        requires
            self.wf(),
        ensures
            r == self@.rules.contains_key(name@),
    {
        self.find_rule(name).is_some()
    }

    fn find_rule(&self, name: &String) -> (r: Option<usize>)
        requires
            self.wf(),
        ensures
            match r {
                Some(i) => i < self.rules.len() && self.entries()[i as int].0 == name@
                    && self@.rules.contains_key(name@) && self@.rules[name@]
                    == self.entries()[i as int].1,
                None => !self@.rules.contains_key(name@),
            },
    {
        let mut i: usize = 0;
        while i < self.rules.len()
            invariant
                self.wf(),
                i <= self.rules.len(),
                forall|j: int| 0 <= j < i ==> (#[trigger] self.entries()[j]).0 != name@,
            decreases self.rules.len() - i,
        {
            if self.rules[i].0 == *name {
                proof {
                    lemma_rule_map_get(self.entries(), i as int);
                }
                return Some(i);
            }
            i += 1;
        }
        proof {
            lemma_rule_map_keys(self.entries(), name@);
        }
        None
    }

    /// The rule that `applied_rule` stands for.
    pub fn materialize_applied_rule(&self, applied_rule: AppliedRule) -> (r: Result<
        Rule,
        RuntimeError,
    >)
        requires
            self.wf(),
        ensures
            match r {
                Ok(rule) => materialize(self@.rules, applied_rule@) == Ok::<
                    RuleView,
                    RuntimeErrorView,
                >(rule@),
                Err(e) => materialize(self@.rules, applied_rule@) == Err::<
                    RuleView,
                    RuntimeErrorView,
                >(e@),
            },
    {
        match applied_rule {
            AppliedRule::ByName { loc, name, reversed } => match self.find_rule(&name) {
                Some(i) => {
                    if reversed {
                        match &self.rules[i].1 {
                            Rule::User { loc, head, body } => Ok(
                                Rule::User {
                                    loc: *loc,
                                    head: body.deep_clone(),
                                    body: head.deep_clone(),
                                },
                            ),
                            Rule::Replace => Err(RuntimeError::IrreversibleRule(loc)),
                        }
                    } else {
                        Ok(self.rules[i].1.clone())
                    }
                },
                None => Err(RuntimeError::RuleDoesNotExist(name, loc)),
            },
            AppliedRule::Anonymous { loc, head, body } => Ok(Rule::User { loc, head, body }),
        }
    }

    fn define_rule(&mut self, loc: Loc, name: String, rule: Rule) -> (r: Result<
        Option<Expr>,
        RuntimeError,
    >)
        requires
            old(self).wf(),
        ensures
            final(self).wf(),
            outcome_agrees(
                old(self)@,
                CommandView::DefineRule(loc, name@, rule@),
                r,
                final(self)@,
            ),
    {
        match self.find_rule(&name) {
            Some(i) => {
                let old_loc = match &self.rules[i].1 {
                    Rule::User { loc, .. } => Some(*loc),
                    Rule::Replace => None,
                };
                Err(RuntimeError::RuleAlreadyExists(name, loc, old_loc))
            },
            None => {
                let ghost ps = self.entries();
                let ghost k = name@;
                let ghost v = rule@;
                self.rules.push((name, rule));
                proof {
                    assert(self.entries() =~= ps.push((k, v)));
                    assert(self.entries().drop_last() =~= ps);
                    lemma_rule_map_keys(ps, k);
                    assert forall|a: int, b: int|
                        0 <= a < b < self.entries().len() implies (#[trigger] self.entries()[a]).0
                        != (#[trigger] self.entries()[b]).0 by {
                        if b == ps.len() {
                            assert(self.entries()[a] == ps[a]);
                        } else {
                            assert(self.entries()[a] == ps[a]);
                            assert(self.entries()[b] == ps[b]);
                        }
                    }
                }
                Ok(None)
            },
        }
    }

    fn start_shaping(&mut self, loc: Loc, expr: Expr) -> (r: Result<Option<Expr>, RuntimeError>)
        requires
            old(self).wf(),
        ensures
            final(self).wf(),
            outcome_agrees(old(self)@, CommandView::StartShaping(loc, expr@), r, final(self)@),
    {
        if self.current_expr.is_some() {
            return Err(RuntimeError::AlreadyShaping(loc));
        }
        let shown = expr.deep_clone();
        self.current_expr = Some(expr);
        self.shaping_history = Vec::new();
        assert(terms_of(self.shaping_history@) =~= Seq::<Term>::empty());
        Ok(Some(shown))
    }

    fn apply_rule(&mut self, loc: Loc, strategy_name: String, applied_rule: AppliedRule) -> (r:
        Result<Option<Expr>, RuntimeError>)
        requires
            old(self).wf(),
        ensures
            final(self).wf(),
            outcome_agrees(
                old(self)@,
                CommandView::ApplyRule {
                    loc,
                    strategy_name: strategy_name@,
                    applied_rule: applied_rule@,
                },
                r,
                final(self)@,
            ),
    {
        let ghost ar = applied_rule@;
        let new_expr = match &self.current_expr {
            None => return Err(RuntimeError::NoShapingInPlace(loc)),
            Some(expr) => {
                let rule = match self.materialize_applied_rule(applied_rule) {
                    Ok(rule) => rule,
                    Err(x) => return Err(x),
                };
                let mut strategy = match Strategy::by_name(strategy_name.as_str()) {
                    Some(s) => s,
                    None => return Err(RuntimeError::UnknownStrategy(strategy_name, loc)),
                };
                match rule.apply(expr, &mut strategy, &loc) {
                    Ok(x) => x,
                    Err(x) => return Err(x),
                }
            },
        };
        let shown = new_expr.deep_clone();
        let old_expr = self.current_expr.take();
        match old_expr {
            Some(e) => {
                let ghost h = self.shaping_history@;
                self.shaping_history.push(e);
                assert(terms_of(self.shaping_history@) =~= terms_of(h).push(e@));
            },
            None => {},
        }
        self.current_expr = Some(new_expr);
        Ok(Some(shown))
    }

    fn finish_shaping(&mut self, loc: Loc) -> (r: Result<Option<Expr>, RuntimeError>)
        requires
            old(self).wf(),
        ensures
            final(self).wf(),
            outcome_agrees(old(self)@, CommandView::FinishShaping(loc), r, final(self)@),
    {
        if self.current_expr.is_some() {
            self.current_expr = None;
            self.shaping_history.clear();
            assert(terms_of(self.shaping_history@) =~= Seq::<Term>::empty());
            Ok(None)
        } else {
            Err(RuntimeError::NoShapingInPlace(loc))
        }
    }

    fn undo_rule(&mut self, loc: Loc) -> (r: Result<Option<Expr>, RuntimeError>)
        requires
            old(self).wf(),
        ensures
            final(self).wf(),
            outcome_agrees(old(self)@, CommandView::UndoRule(loc), r, final(self)@),
    {
        if self.current_expr.is_none() {
            return Err(RuntimeError::NoShapingInPlace(loc));
        }
        let ghost h = self.shaping_history@;
        match self.shaping_history.pop() {
            Some(previous_expr) => {
                assert(terms_of(self.shaping_history@) =~= terms_of(h).drop_last());
                let shown = previous_expr.deep_clone();
                self.current_expr = Some(previous_expr);
                Ok(Some(shown))
            },
            None => Err(RuntimeError::NoHistory(loc)),
        }
    }

    fn delete_rule(&mut self, loc: Loc, name: String) -> (r: Result<Option<Expr>, RuntimeError>)
        requires
            old(self).wf(),
        ensures
            final(self).wf(),
            outcome_agrees(old(self)@, CommandView::DeleteRule(loc, name@), r, final(self)@),
    {
        match self.find_rule(&name) {
            Some(i) => {
                let ghost ps = self.entries();
                self.rules.remove(i);
                proof {
                    assert(self.entries() =~= ps.remove(i as int));
                    lemma_rule_map_remove(ps, i as int);
                }
                Ok(None)
            },
            None => Err(RuntimeError::RuleDoesNotExist(name, loc)),
        }
    }

    /// Carries out one command. On success it gives the expression to show,
    /// if the command shows one; on an error the session is left as it was.
    pub fn process_command(&mut self, command: Command) -> (r: Result<Option<Expr>, RuntimeError>)
        requires
            old(self).wf(),
        ensures
            final(self).wf(),
            outcome_agrees(old(self)@, command@, r, final(self)@),
    {
        match command {
            Command::DefineRule(loc, name, rule) => self.define_rule(loc, name, rule),
            Command::StartShaping(loc, expr) => self.start_shaping(loc, expr),
            Command::ApplyRule { loc, strategy_name, applied_rule } => self.apply_rule(
                loc,
                strategy_name,
                applied_rule,
            ),
            Command::FinishShaping(loc) => self.finish_shaping(loc),
            Command::UndoRule(loc) => self.undo_rule(loc),
            Command::Quit => {
                self.quit = true;
                Ok(None)
            },
            Command::DeleteRule(loc, name) => self.delete_rule(loc, name),
        }
    }
}

/// What reading and carrying out one command gives: a syntax error leaves the
/// session as it was; a parsed command does what `step` says.
pub open spec fn command_outcome(
    before: ContextView,
    parsed: Parsed<CommandView>,
    r: Result<Option<Expr>, Error>,
    after: ContextView,
) -> bool {
    match parsed {
        Err(x) => r matches Err(Error::Syntax(e)) && e@ == x && after == before,
        Ok((cmd, _)) => match r {
            Ok(o) => step(before, cmd) == Ok::<(ContextView, Option<Term>), RuntimeErrorView>(
                (after, opt_term(o)),
            ),
            Err(Error::Runtime(e)) => step(before, cmd) == Err::<
                (ContextView, Option<Term>),
                RuntimeErrorView,
            >(e@) && after == before,
            Err(Error::Syntax(_)) => false,
        },
    }
}

/// Reads one command from `lexer` and carries it out.
pub fn parse_and_process_command(context: &mut Context, lexer: &mut Tokens) -> (r: Result<
    Option<Expr>,
    Error,
>)
    requires
        old(context).wf(),
        old(lexer).wf(),
    ensures
        final(context).wf(),
        same_stream(*old(lexer), *final(lexer)),
        command_outcome(
            old(context)@,
            parse_command_at(old(lexer)@.items, old(lexer)@.end, old(lexer)@.pos),
            r,
            final(context)@,
        ),
        parse_command_at(old(lexer)@.items, old(lexer)@.end, old(lexer)@.pos) matches Ok((_, p1))
            ==> final(lexer)@.pos == p1 && old(lexer)@.pos < p1,
{
    let command = match Command::parse(lexer) {
        Ok(c) => c,
        Err(x) => return Err(Error::Syntax(x)),
    };
    match context.process_command(command) {
        Ok(o) => Ok(o),
        Err(x) => Err(Error::Runtime(x)),
    }
}

/// What running the commands of a token stream from position `p` gives: the
/// final state, the expressions shown, and the error that stopped the run, if
/// any. A run ends at the end of input, after `quit`, or at the first error.
pub open spec fn run_from(c: ContextView, ts: Seq<TokenView>, end: Loc, p: nat) -> (
    ContextView,
    Seq<Term>,
    Option<ErrorView>,
)
    decreases ts.len() - p,
{
    if c.quit || token_at(ts, end, p).kind == TokenKind::End {
        (c, Seq::empty(), None)
    } else {
        match parse_command_at(ts, end, p) {
            Err(x) => (c, Seq::empty(), Some(ErrorView::Syntax(x))),
            Ok((cmd, p1)) => match step(c, cmd) {
                Err(e) => (c, Seq::empty(), Some(ErrorView::Runtime(e))),
                Ok((c2, shown)) => {
                    let first = match shown {
                        Some(t) => seq![t],
                        None => Seq::empty(),
                    };
                    if p < p1 <= ts.len() {
                        let (c3, out, err) = run_from(c2, ts, end, p1);
                        (c3, first + out, err)
                    } else {
                        (c2, first, None)
                    }
                },
            },
        }
    }
}

/// Runs commands from `lexer` until the end of input, a `quit`, or the first
/// error. Gives the expressions shown, in order, and the error, if any.
pub fn interpret(context: &mut Context, lexer: &mut Tokens) -> (r: (Vec<Expr>, Option<Error>))
    requires
        old(context).wf(),
        old(lexer).wf(),
    ensures
        final(context).wf(),
        ({
            let (c, out, err) = run_from(
                old(context)@,
                old(lexer)@.items,
                old(lexer)@.end,
                old(lexer)@.pos,
            );
            &&& final(context)@ == c
            &&& terms_of(r.0@) == out
            &&& match r.1 {
                Some(e) => err == Some(e@),
                None => err is None,
            }
        }),
{
    let ghost ts = lexer@.items;
    let ghost end = lexer@.end;
    let ghost total = run_from(context@, ts, end, lexer@.pos);
    let mut shown: Vec<Expr> = Vec::new();
    while !context.quit() && lexer.peek_token().kind != TokenKind::End
        invariant
            context.wf(),
            lexer.wf(),
            lexer@.items == ts,
            lexer@.end == end,
            ts == old(lexer)@.items,
            end == old(lexer)@.end,
            total == run_from(old(context)@, ts, end, old(lexer)@.pos),
            ({
                let (c, out, err) = run_from(context@, ts, end, lexer@.pos);
                total == (c, terms_of(shown@) + out, err)
            }),
        decreases ts.len() - lexer@.pos,
    {
        let ghost p = lexer@.pos;
        let ghost c0 = context@;
        let ghost before = terms_of(shown@);
        assert(!c0.quit && token_at(ts, end, p).kind != TokenKind::End);
        match parse_and_process_command(context, lexer) {
            Ok(o) => {
                match o {
                    Some(e) => {
                        shown.push(e);
                        proof {
                            assert(terms_of(shown@) =~= before.push(e@));
                        }
                    },
                    None => {},
                }
                proof {
                    let (c3, out, err) = run_from(context@, ts, end, lexer@.pos);
                    assert(run_from(c0, ts, end, p) == (c3, match opt_term(o) {
                        Some(t) => seq![t],
                        None => Seq::<Term>::empty(),
                    } + out, err));
                    let first = match opt_term(o) {
                        Some(t) => seq![t],
                        None => Seq::<Term>::empty(),
                    };
                    assert(terms_of(shown@) =~= before + first);
                    assert(terms_of(shown@) + out =~= before + (first + out));
                }
            },
            Err(x) => {
                proof {
                    assert(run_from(c0, ts, end, p) == (c0, Seq::<Term>::empty(), Some(x@)));
                    assert(terms_of(shown@) + Seq::<Term>::empty() =~= terms_of(shown@));
                }
                return (shown, Some(x));
            },
        }
    }
    proof {
        assert(terms_of(shown@) + Seq::<Term>::empty() =~= terms_of(shown@));
    }
    (shown, None)
}

} // verus!
