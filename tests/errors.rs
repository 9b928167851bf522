use noq::error::{Error, RuntimeError, SyntaxError};
use noq::expr::{classify_name, var_or_sym_based_on_name, Expr};
use noq::lexer::lex;
use noq::session::{parse_and_process_command, Context};
use noq::strategy::{Action, State, Strategy};
use noq::token::{Loc, TokenKind, Tokens};

fn tokens(src: &str) -> Tokens {
    let cs: Vec<char> = src.chars().collect();
    let (items, end) = lex(&cs);
    Tokens::new(items, end)
}

fn run(ctx: &mut Context, line: &str) -> Result<Option<Expr>, Error> {
    parse_and_process_command(ctx, &mut tokens(line))
}

#[test]
fn missing_close_paren_is_expected_token() {
    match Expr::parse(&mut tokens("f(a, b")) {
        Err(SyntaxError::ExpectedToken(TokenKind::CloseParen, t)) => {
            assert_eq!(t.kind, TokenKind::End);
            assert_eq!(t.loc, Loc { row: 1, col: 7 });
        }
        other => panic!("unexpected outcome {:?}", other),
    }
}

#[test]
fn operator_in_place_of_operand_is_expected_primary() {
    match Expr::parse(&mut tokens("a + * b")) {
        Err(SyntaxError::ExpectedPrimary(t)) => {
            assert_eq!(t.kind, TokenKind::Asterisk);
            assert_eq!(t.loc, Loc { row: 1, col: 5 });
        }
        other => panic!("unexpected outcome {:?}", other),
    }
}

#[test]
fn bad_applied_rule_is_reported() {
    let mut ctx = Context::new();
    assert!(matches!(
        run(&mut ctx, "apply all ("),
        Err(Error::Syntax(SyntaxError::ExpectedAppliedRule(_)))
    ));
}

#[test]
fn bad_keyword_is_expected_command() {
    let mut ctx = Context::new();
    assert!(matches!(
        run(&mut ctx, "foo"),
        Err(Error::Syntax(SyntaxError::ExpectedCommand(_)))
    ));
}

#[test]
fn rule_without_equals_is_expected_token() {
    let mut ctx = Context::new();
    assert!(matches!(
        run(&mut ctx, "rule r a b"),
        Err(Error::Syntax(SyntaxError::ExpectedToken(TokenKind::Equals, _)))
    ));
}

#[test]
fn unknown_rule_is_reported() {
    let mut ctx = Context::new();
    assert!(matches!(run(&mut ctx, "shape a"), Ok(Some(_))));
    assert!(matches!(
        run(&mut ctx, "apply all nope"),
        Err(Error::Runtime(RuntimeError::RuleDoesNotExist(_, _)))
    ));
    assert!(matches!(
        run(&mut ctx, "delete nope"),
        Err(Error::Runtime(RuntimeError::RuleDoesNotExist(_, _)))
    ));
}

#[test]
fn shaping_twice_is_rejected() {
    let mut ctx = Context::new();
    assert!(matches!(run(&mut ctx, "shape a"), Ok(Some(_))));
    assert!(matches!(
        run(&mut ctx, "shape b"),
        Err(Error::Runtime(RuntimeError::AlreadyShaping(_)))
    ));
    assert_eq!(ctx.current_expr().unwrap().to_text(), "a");
}

#[test]
fn commands_need_a_shaping_session() {
    let mut ctx = Context::new();
    assert!(matches!(run(&mut ctx, "rule r a = b"), Ok(None)));
    for line in ["apply all r", "done", "undo"] {
        assert!(matches!(
            run(&mut ctx, line),
            Err(Error::Runtime(RuntimeError::NoShapingInPlace(_)))
        ));
    }
}

#[test]
fn unknown_strategy_is_reported() {
    let mut ctx = Context::new();
    assert!(matches!(run(&mut ctx, "rule r a = b"), Ok(None)));
    assert!(matches!(run(&mut ctx, "shape a"), Ok(Some(_))));
    match run(&mut ctx, "apply sideways r") {
        Err(Error::Runtime(RuntimeError::UnknownStrategy(name, _))) => assert_eq!(name, "sideways"),
        other => panic!("unexpected outcome {:?}", other),
    }
    assert_eq!(ctx.history_len(), 0);
}

#[test]
fn replace_cannot_be_reversed() {
    let mut ctx = Context::new();
    assert!(matches!(run(&mut ctx, "shape a"), Ok(Some(_))));
    assert!(matches!(
        run(&mut ctx, "apply all reverse replace"),
        Err(Error::Runtime(RuntimeError::IrreversibleRule(_)))
    ));
}

#[test]
fn meta_strategy_must_be_a_symbol() {
    let mut ctx = Context::new();
    assert!(matches!(run(&mut ctx, "shape apply_rule(f(x), a, b, a)"), Ok(Some(_))));
    match run(&mut ctx, "apply all replace") {
        Err(Error::Runtime(RuntimeError::StrategyIsNotSym(e, _))) => {
            assert_eq!(e.to_text(), "f(x)");
            assert_eq!(e.human_name(), "a functor");
        }
        other => panic!("unexpected outcome {:?}", other),
    }
}

#[test]
fn meta_strategy_must_be_known() {
    let mut ctx = Context::new();
    assert!(matches!(run(&mut ctx, "shape apply_rule(often, a, b, a)"), Ok(Some(_))));
    assert!(matches!(
        run(&mut ctx, "apply all replace"),
        Err(Error::Runtime(RuntimeError::UnknownStrategy(_, _)))
    ));
}

#[test]
fn strategy_names() {
    assert_eq!(Strategy::by_name("all"), Some(Strategy::All));
    assert_eq!(Strategy::by_name("deep"), Some(Strategy::Deep));
    assert_eq!(Strategy::by_name("first"), Some(Strategy::Nth { current: 0, target: 0 }));
    assert_eq!(Strategy::by_name("12"), Some(Strategy::Nth { current: 0, target: 12 }));
    assert_eq!(Strategy::by_name("+3"), Some(Strategy::Nth { current: 0, target: 3 }));
    assert_eq!(Strategy::by_name("-1"), None);
    assert_eq!(Strategy::by_name("x1"), None);
    assert_eq!(Strategy::by_name(""), None);
    assert_eq!(Strategy::by_name("99999999999999999999999999"), None);
}

#[test]
fn nth_strategy_counts_then_halts() {
    let mut s = Strategy::nth(1);
    let r = s.matched();
    assert_eq!((r.action, r.state), (Action::Skip, State::Cont));
    let r = s.matched();
    assert_eq!((r.action, r.state), (Action::Apply, State::Halt));
    let mut past = Strategy::Nth { current: 3, target: 1 };
    let r = past.matched();
    assert_eq!((r.action, r.state), (Action::Skip, State::Halt));
}

#[test]
fn identifiers_are_classified_by_first_character() {
    assert_eq!(var_or_sym_based_on_name("X").human_name(), "a variable");
    assert_eq!(var_or_sym_based_on_name("_").human_name(), "a variable");
    assert_eq!(var_or_sym_based_on_name("Ärger").human_name(), "a variable");
    assert_eq!(var_or_sym_based_on_name("x").human_name(), "a symbol");
    assert_eq!(var_or_sym_based_on_name("0").human_name(), "a symbol");
    assert_eq!(classify_name("abc", true).human_name(), "a variable");
    assert_eq!(classify_name("_abc", false).human_name(), "a variable");
    assert_eq!(classify_name("Abc", false).human_name(), "a symbol");
}

#[test]
fn lexer_tracks_rows_and_columns() {
    let cs: Vec<char> = "rule r\n  f(X) = x".chars().collect();
    let (toks, end) = lex(&cs);
    let kinds: Vec<TokenKind> = toks.iter().map(|t| t.kind).collect();
    assert_eq!(
        kinds,
        vec![
            TokenKind::Rule,
            TokenKind::Ident,
            TokenKind::Ident,
            TokenKind::OpenParen,
            TokenKind::Ident,
            TokenKind::CloseParen,
            TokenKind::Equals,
            TokenKind::Ident,
        ]
    );
    assert_eq!(toks[1].text, "r");
    assert_eq!(toks[2].loc, Loc { row: 2, col: 3 });
    assert_eq!(toks[7].loc, Loc { row: 2, col: 10 });
    assert_eq!(end, Loc { row: 2, col: 11 });
}

#[test]
fn lexer_marks_unknown_characters() {
    let cs: Vec<char> = "a $ b".chars().collect();
    let (toks, _) = lex(&cs);
    assert_eq!(toks[1].kind, TokenKind::Invalid);
    assert_eq!(toks[1].text, "$");
}

#[test]
fn endless_rewrite_stops_at_depth_limit() {
    let mut ctx = Context::new();
    assert!(matches!(run(&mut ctx, "rule grow X = f(X)"), Ok(None)));
    assert!(matches!(run(&mut ctx, "shape a"), Ok(Some(_))));
    assert!(matches!(
        run(&mut ctx, "apply deep grow"),
        Err(Error::Runtime(RuntimeError::DepthLimit(_)))
    ));
    assert_eq!(ctx.current_expr().unwrap().to_text(), "a");
    assert_eq!(ctx.history_len(), 0);
}
