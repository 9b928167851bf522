use noq::error::{Error, RuntimeError};
use noq::expr::Expr;
use noq::lexer::lex;
use noq::session::{interpret, parse_and_process_command, Context};
use noq::token::Tokens;

fn tokens(src: &str) -> Tokens {
    let cs: Vec<char> = src.chars().collect();
    let (items, end) = lex(&cs);
    Tokens::new(items, end)
}

fn run(ctx: &mut Context, line: &str) -> Result<Option<Expr>, Error> {
    parse_and_process_command(ctx, &mut tokens(line))
}

fn shown(ctx: &mut Context, line: &str) -> String {
    match run(ctx, line) {
        Ok(Some(e)) => format!(" => {}", e.to_text()),
        other => panic!("unexpected outcome {:?}", other),
    }
}

#[test]
fn swap_rule_rewrites_pair() {
    let mut ctx = Context::new();
    assert!(matches!(run(&mut ctx, "rule swap swap(pair(A, B)) = pair(B, A)"), Ok(None)));
    assert_eq!(shown(&mut ctx, "shape swap(pair(f(a), b))"), " => swap(pair(f(a), b))");
    assert_eq!(shown(&mut ctx, "apply all swap"), " => pair(b, f(a))");
    assert!(matches!(run(&mut ctx, "done"), Ok(None)));
}

#[test]
fn numeric_strategy_counts_head_as_match_site() {
    // The root is match site 0 and the head `f` is match site 1.
    let mut ctx = Context::new();
    assert!(matches!(run(&mut ctx, "rule dup X = pair(X, X)"), Ok(None)));
    assert_eq!(shown(&mut ctx, "shape f(a, b, c)"), " => f(a, b, c)");
    assert_eq!(shown(&mut ctx, "apply 1 dup"), " => pair(f, f)(a, b, c)");
}

#[test]
fn numeric_strategy_targets_an_argument() {
    let mut ctx = Context::new();
    assert!(matches!(run(&mut ctx, "rule dup b = pair(b, b)"), Ok(None)));
    assert_eq!(shown(&mut ctx, "shape f(b, b, b)"), " => f(b, b, b)");
    assert_eq!(shown(&mut ctx, "apply 1 dup"), " => f(b, pair(b, b), b)");
}

#[test]
fn reversed_rule_removes_zero() {
    let mut ctx = Context::new();
    assert!(matches!(run(&mut ctx, "rule add_zero X = X + 0"), Ok(None)));
    assert_eq!(shown(&mut ctx, "shape a + 0"), " => a + 0");
    assert_eq!(shown(&mut ctx, "apply all reverse add_zero"), " => a");
}

#[test]
fn precedence_pretty_print() {
    let mut t = tokens("a + b * c ^ d");
    assert_eq!(Expr::parse(&mut t).unwrap().to_text(), "a + b*c^d");
    let mut t = tokens("(a + b) * c");
    assert_eq!(Expr::parse(&mut t).unwrap().to_text(), "(a + b)*c");
}

#[test]
fn meta_rule_applies_embedded_request() {
    let mut ctx = Context::new();
    assert!(matches!(run(&mut ctx, "rule comm A + B = B + A"), Ok(None)));
    assert_eq!(
        shown(&mut ctx, "shape apply_rule(all, A + B, B + A, x + y)"),
        " => apply_rule(all, A + B, B + A, x + y)"
    );
    assert_eq!(shown(&mut ctx, "apply all replace"), " => y + x");
}

#[test]
fn second_undo_has_no_history() {
    let mut ctx = Context::new();
    assert!(matches!(run(&mut ctx, "rule ident X = X"), Ok(None)));
    assert_eq!(shown(&mut ctx, "shape a"), " => a");
    assert_eq!(shown(&mut ctx, "apply all ident"), " => a");
    assert_eq!(shown(&mut ctx, "undo"), " => a");
    assert!(matches!(
        run(&mut ctx, "undo"),
        Err(Error::Runtime(RuntimeError::NoHistory(_)))
    ));
}

#[test]
fn deep_strategy_rewrites_inside_results() {
    let mut ctx = Context::new();
    assert!(matches!(run(&mut ctx, "rule unwrap w(X) = X"), Ok(None)));
    assert_eq!(shown(&mut ctx, "shape w(w(w(a)))"), " => w(w(w(a)))");
    // After a rewrite the search goes on inside the result's subterms, not at
    // the result itself.
    assert_eq!(shown(&mut ctx, "apply deep unwrap"), " => w(a)");
}

#[test]
fn all_strategy_does_not_rewrite_results() {
    let mut ctx = Context::new();
    assert!(matches!(run(&mut ctx, "rule unwrap w(X) = X"), Ok(None)));
    assert_eq!(shown(&mut ctx, "shape w(w(w(a)))"), " => w(w(w(a)))");
    assert_eq!(shown(&mut ctx, "apply all unwrap"), " => w(w(a))");
}

#[test]
fn first_strategy_rewrites_one_site() {
    let mut ctx = Context::new();
    assert!(matches!(run(&mut ctx, "rule one a = b"), Ok(None)));
    assert_eq!(shown(&mut ctx, "shape a + a"), " => a + a");
    assert_eq!(shown(&mut ctx, "apply first one"), " => b + a");
}

#[test]
fn anonymous_rule_and_reverse_of_it() {
    let mut ctx = Context::new();
    assert_eq!(shown(&mut ctx, "shape f(a)"), " => f(a)");
    assert_eq!(shown(&mut ctx, "apply all rule f(X) = g(X)"), " => g(a)");
    assert_eq!(shown(&mut ctx, "apply all reverse rule f(X) = g(X)"), " => f(a)");
    assert_eq!(ctx.history_len(), 2);
}

#[test]
fn halt_in_an_argument_keeps_later_arguments() {
    let mut ctx = Context::new();
    assert!(matches!(run(&mut ctx, "rule one a = b"), Ok(None)));
    assert_eq!(shown(&mut ctx, "shape f(a, a) + a"), " => f(a, a) + a");
    // The halt inside the arguments does not reach past `f(...)`, so the
    // strategy is asked again at the right operand.
    assert_eq!(shown(&mut ctx, "apply 0 one"), " => f(b, a) + b");
}

#[test]
fn delete_then_redefine_rule() {
    let mut ctx = Context::new();
    assert!(matches!(run(&mut ctx, "rule r a = b"), Ok(None)));
    assert!(ctx.has_rule(&"r".to_string()));
    assert!(matches!(run(&mut ctx, "delete r"), Ok(None)));
    assert!(!ctx.has_rule(&"r".to_string()));
    assert!(matches!(run(&mut ctx, "rule r b = a"), Ok(None)));
    assert!(ctx.has_rule(&"r".to_string()));
}

#[test]
fn quit_sets_the_flag() {
    let mut ctx = Context::new();
    assert!(!ctx.quit());
    assert!(matches!(run(&mut ctx, "quit"), Ok(None)));
    assert!(ctx.quit());
}

#[test]
fn done_clears_the_session() {
    let mut ctx = Context::new();
    assert_eq!(shown(&mut ctx, "shape a"), " => a");
    assert!(ctx.current_expr().is_some());
    assert!(matches!(run(&mut ctx, "done"), Ok(None)));
    assert!(ctx.current_expr().is_none());
    assert_eq!(ctx.history_len(), 0);
}

#[test]
fn script_runs_until_the_first_error() {
    let mut ctx = Context::new();
    let mut t = tokens(
        "rule swap swap(pair(A, B)) = pair(B, A)\nshape swap(pair(f(a), b))\napply all swap\nundo\nundo\nshape c",
    );
    let (shown, err) = interpret(&mut ctx, &mut t);
    let texts: Vec<String> = shown.iter().map(|e| e.to_text()).collect();
    assert_eq!(texts, vec!["swap(pair(f(a), b))", "pair(b, f(a))", "swap(pair(f(a), b))"]);
    match err {
        Some(Error::Runtime(RuntimeError::NoHistory(loc))) => {
            assert_eq!((loc.row, loc.col), (5, 1));
        }
        other => panic!("unexpected outcome {:?}", other),
    }
    assert_eq!(ctx.current_expr().unwrap().to_text(), "swap(pair(f(a), b))");
}

#[test]
fn script_stops_at_quit() {
    let mut ctx = Context::new();
    let mut t = tokens("shape a\nquit\nshape b");
    let (shown, err) = interpret(&mut ctx, &mut t);
    assert_eq!(shown.len(), 1);
    assert!(err.is_none());
    assert!(ctx.quit());
    assert_eq!(ctx.current_expr().unwrap().to_text(), "a");
}
