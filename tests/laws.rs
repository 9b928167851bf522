use noq::error::{Error, RuntimeError};
use noq::expr::Expr;
use noq::lexer::lex;
use noq::matching::{pattern_match, substitute_bindings, Bindings};
use noq::rewrite::Rule;
use noq::session::{parse_and_process_command, Context};
use noq::strategy::Strategy;
use noq::token::{Loc, Tokens};

fn tokens(src: &str) -> Tokens {
    let cs: Vec<char> = src.chars().collect();
    let (items, end) = lex(&cs);
    Tokens::new(items, end)
}

fn expr(src: &str) -> Expr {
    Expr::parse(&mut tokens(src)).unwrap()
}

fn run(ctx: &mut Context, line: &str) -> Result<Option<Expr>, Error> {
    parse_and_process_command(ctx, &mut tokens(line))
}

fn loc() -> Loc {
    Loc { row: 1, col: 1 }
}

#[test]
fn print_then_parse_gives_the_expression_back() {
    for src in [
        "a",
        "X",
        "f()",
        "f(a, g(B), h())",
        "f(a)(b)",
        "(a + b)(c)",
        "a - b - c",
        "a - (b - c)",
        "a ^ b ^ c",
        "a * (b + c) / d",
        "(a + b) * (c - d) ^ e",
        "f(x + y, z * w)",
    ] {
        let e = expr(src);
        let printed = e.to_text();
        let back = expr(&printed);
        assert_eq!(back, e, "{} printed as {}", src, printed);
    }
}

#[test]
fn operators_group_to_the_left() {
    assert_eq!(expr("a - b - c"), expr("(a - b) - c"));
    assert_eq!(expr("a - b - c").to_text(), "(a - b) - c");
    assert_eq!(expr("a / b * c").to_text(), "(a/b)*c");
}

#[test]
fn match_then_subst_gives_the_value() {
    let p = expr("f(X, g(Y), X)");
    let v = expr("f(a + b, g(h(c)), a + b)");
    let b = pattern_match(&p, &v).unwrap();
    assert_eq!(b.len(), 2);
    assert_eq!(substitute_bindings(&b, &p), v);
}

#[test]
fn subst_with_no_bindings_is_identity() {
    let e = expr("f(X, g(Y) + Z, a)");
    assert_eq!(substitute_bindings(&Bindings::new(), &e), e);
}

#[test]
fn wildcard_matches_without_binding() {
    let p = expr("_");
    for src in ["a", "X", "f(a, b)", "a + b"] {
        let b = pattern_match(&p, &expr(src)).unwrap();
        assert_eq!(b.len(), 0);
    }
    let b = pattern_match(&expr("f(_, _)"), &expr("f(a, b)")).unwrap();
    assert_eq!(b.len(), 0);
}

#[test]
fn repeated_variable_must_bind_equal_terms() {
    let p = expr("pair(X, X)");
    assert!(pattern_match(&p, &expr("pair(a, b)")).is_none());
    assert!(pattern_match(&p, &expr("pair(f(a), f(b))")).is_none());
    let b = pattern_match(&p, &expr("pair(f(a), f(a))")).unwrap();
    assert_eq!(b.get(&"X".to_string()), Some(&expr("f(a)")));
}

#[test]
fn second_all_pass_changes_nothing() {
    let rule = Rule::User { loc: loc(), head: expr("f(X)"), body: expr("g(X)") };
    let e = expr("h(f(a), f(b) + c)");
    let once = rule.apply(&e, &mut Strategy::All, &loc()).unwrap();
    assert_eq!(once.to_text(), "h(g(a), g(b) + c)");
    let twice = rule.apply(&once, &mut Strategy::All, &loc()).unwrap();
    assert_eq!(twice, once);
}

#[test]
fn undo_restores_the_shaped_expression() {
    let mut ctx = Context::new();
    assert!(matches!(run(&mut ctx, "rule comm A + B = B + A"), Ok(None)));
    assert!(matches!(run(&mut ctx, "shape x + y"), Ok(Some(_))));
    assert!(matches!(run(&mut ctx, "apply all comm"), Ok(Some(_))));
    assert_eq!(ctx.history_len(), 1);
    assert!(matches!(run(&mut ctx, "undo"), Ok(Some(_))));
    assert_eq!(ctx.current_expr(), Some(&expr("x + y")));
    assert_eq!(ctx.history_len(), 0);
}

#[test]
fn define_rule_rejected_when_name_taken() {
    let mut ctx = Context::new();
    assert!(matches!(run(&mut ctx, "rule r a = b"), Ok(None)));
    match run(&mut ctx, "rule r c = d") {
        Err(Error::Runtime(RuntimeError::RuleAlreadyExists(name, new_loc, old_loc))) => {
            assert_eq!(name, "r");
            assert_eq!(new_loc, Loc { row: 1, col: 1 });
            assert_eq!(old_loc, Some(Loc { row: 1, col: 1 }));
        }
        other => panic!("unexpected outcome {:?}", other),
    }
    // The table still holds the first definition.
    assert!(matches!(run(&mut ctx, "shape a"), Ok(Some(_))));
    match run(&mut ctx, "apply all r") {
        Ok(Some(e)) => assert_eq!(e.to_text(), "b"),
        other => panic!("unexpected outcome {:?}", other),
    }
    match run(&mut ctx, "rule replace a = b") {
        Err(Error::Runtime(RuntimeError::RuleAlreadyExists(_, _, old_loc))) => {
            assert_eq!(old_loc, None)
        }
        other => panic!("unexpected outcome {:?}", other),
    }
}
