use somescheme::base_expr::{BExpr, BExprBody, BExprBodyExpr};
use somescheme::literals::Literal;
use somescheme::parse::parse;

fn var(n: &str) -> BExpr {
    BExpr::Var(n.to_string())
}

fn num(i: i64) -> BExpr {
    BExpr::Lit(Literal::Int(i))
}

fn void() -> BExpr {
    BExpr::Lit(Literal::Void)
}

fn call(f: BExpr, args: Vec<BExpr>) -> BExpr {
    BExpr::App(Box::new(f), args)
}

fn set(n: &str, e: BExpr) -> BExpr {
    BExpr::Assign(n.to_string(), Box::new(e))
}

fn body(items: Vec<BExprBodyExpr>, last: BExpr) -> BExprBody {
    BExprBody(items, Box::new(last))
}

fn single(last: BExpr) -> BExprBody {
    body(vec![], last)
}

fn lam(params: &[&str], b: BExprBody) -> BExpr {
    BExpr::Lam(params.iter().map(|p| p.to_string()).collect(), b)
}

fn def(n: &str, e: BExpr) -> BExprBodyExpr {
    BExprBodyExpr::Def(n.to_string(), e)
}

fn expr(s: &str) -> BExpr {
    let b = parse(s).unwrap();
    assert!(b.0.is_empty());
    *b.1
}

fn bump(e: BExpr) -> BExpr {
    match e {
        BExpr::Lit(Literal::Int(n)) => BExpr::Lit(Literal::Int(n + 1)),
        other => other,
    }
}

#[test]
fn pull_defines_declares_and_assigns() {
    let b = body(vec![def("x", num(1))], var("x"));
    assert_eq!(
        b.pull_defines(),
        single(BExpr::Let(
            vec![("x".to_string(), void())],
            body(vec![BExprBodyExpr::Expr(set("x", num(1)))], var("x"))
        ))
    );
}

#[test]
fn pull_defines_keeps_the_order_of_items_and_names() {
    let b = body(
        vec![def("a", num(1)), BExprBodyExpr::Expr(call(var("f"), vec![])), def("b", num(2))],
        var("b"),
    );
    assert_eq!(
        b.pull_defines(),
        single(BExpr::Let(
            vec![("a".to_string(), void()), ("b".to_string(), void())],
            body(
                vec![
                    BExprBodyExpr::Expr(set("a", num(1))),
                    BExprBodyExpr::Expr(call(var("f"), vec![])),
                    BExprBodyExpr::Expr(set("b", num(2))),
                ],
                var("b")
            )
        ))
    );
}

#[test]
fn pull_defines_declares_a_name_once_for_each_definition() {
    let b = body(vec![def("x", num(1)), def("x", num(2))], var("x"));
    assert_eq!(
        b.pull_defines(),
        single(BExpr::Let(
            vec![("x".to_string(), void()), ("x".to_string(), void())],
            body(
                vec![BExprBodyExpr::Expr(set("x", num(1))), BExprBodyExpr::Expr(set("x", num(2)))],
                var("x")
            )
        ))
    );
}

#[test]
fn pull_defines_leaves_a_body_without_definitions() {
    let b = body(vec![BExprBodyExpr::Expr(num(1))], num(2));
    assert_eq!(b.pull_defines(), body(vec![BExprBodyExpr::Expr(num(1))], num(2)));
    assert_eq!(single(var("x")).pull_defines(), single(var("x")));
}

#[test]
fn as_expressions_lists_the_items_and_the_last() {
    let b = body(vec![BExprBodyExpr::Expr(num(1)), BExprBodyExpr::Expr(num(2))], num(3));
    assert_eq!(b.as_expressions(), vec![num(1), num(2), num(3)]);
    assert_eq!(single(var("x")).as_expressions(), vec![var("x")]);
}

#[test]
fn remove_let_makes_a_call_of_a_function() {
    assert_eq!(expr("(let ((x 1) (y 2)) (f x y))").remove_let(), expr("((lambda (x y) (f x y)) 1 2)"));
    assert_eq!(expr("(let () 1)").remove_let(), expr("((lambda () 1))"));
}

#[test]
fn remove_let_reaches_every_let() {
    assert_eq!(
        expr("(let ((x (let ((y 1)) y))) (lambda () (let ((z x)) z)))").remove_let(),
        expr("((lambda (x) (lambda () ((lambda (z) z) x))) ((lambda (y) y) 1))")
    );
    assert_eq!(
        expr("(if (let ((a 1)) a) (set! q (let ((b 2)) b)) (f (let ((c 3)) c)))").remove_let(),
        expr("(if ((lambda (a) a) 1) (set! q ((lambda (b) b) 2)) (f ((lambda (c) c) 3)))")
    );
}

#[test]
fn lift_defines_reaches_every_body() {
    let e = expr("(lambda () (define a (lambda () (define b 1) b)) a)");
    assert_eq!(
        e.lift_defines(),
        lam(
            &[],
            single(BExpr::Let(
                vec![("a".to_string(), void())],
                body(
                    vec![BExprBodyExpr::Expr(set(
                        "a",
                        lam(
                            &[],
                            single(BExpr::Let(
                                vec![("b".to_string(), void())],
                                body(vec![BExprBodyExpr::Expr(set("b", num(1)))], var("b"))
                            ))
                        )
                    ))],
                    var("a")
                )
            ))
        )
    );
}

#[test]
fn lift_defines_pulls_out_of_the_body_of_a_let() {
    let e = expr("(let ((x 1)) (define y x) y)");
    assert_eq!(
        e.lift_defines(),
        BExpr::Let(
            vec![("x".to_string(), num(1))],
            single(BExpr::Let(
                vec![("y".to_string(), void())],
                body(vec![BExprBodyExpr::Expr(set("y", var("x")))], var("y"))
            ))
        )
    );
}

#[test]
fn a_let_with_an_assignment_becomes_the_call_of_a_function() {
    let e = expr("(let ((x 1)) (set! x 2) x)");
    assert_eq!(e.lift_defines().remove_let(), expr("((lambda (x) (set! x 2) x) 1)"));
}

#[test]
fn a_defined_function_becomes_a_declared_and_assigned_name() {
    let e = expr("(lambda () (define (fact n) (if (null? n) 1 (* n (fact (- n 1))))) (fact 5))");
    assert_eq!(
        e.lift_defines().remove_let(),
        expr(
            "(lambda () ((lambda (fact) \
               (set! fact (lambda (n) (if (null? n) 1 (* n (fact (- n 1)))))) \
               (fact 5)) void))"
        )
    );
}

#[test]
fn rewrite_applies_the_function_to_every_expression() {
    assert_eq!(
        expr("(f 1 (if 2 (set! x 3) (lambda () 4 5)) (let ((y 6)) 7))").rewrite(&bump),
        expr("(f 2 (if 3 (set! x 4) (lambda () 5 6)) (let ((y 7)) 8))")
    );
}

#[test]
fn rewrite_goes_from_the_leaves_to_the_root() {
    let wrap = |e: BExpr| match e {
        BExpr::App(f, args) => BExpr::App(f, args),
        other => BExpr::App(Box::new(BExpr::Var("w".to_string())), vec![other]),
    };
    assert_eq!(expr("(f 1)").rewrite(&wrap), expr("((w f) (w 1))"));
    assert_eq!(expr("x").rewrite(&wrap), expr("(w x)"));
}

#[test]
fn rewrite_of_items_and_bodies() {
    assert_eq!(def("x", num(1)).rewrite(&bump), def("x", num(2)));
    assert_eq!(BExprBodyExpr::Expr(num(1)).rewrite(&bump), BExprBodyExpr::Expr(num(2)));
    assert_eq!(
        body(vec![def("x", num(1))], num(5)).rewrite(&bump),
        body(vec![def("x", num(2))], num(6))
    );
}

#[test]
fn desugaring_leaves_alone_what_has_no_let_and_no_definition() {
    let texts = [
        "x",
        "12",
        "(+ 1 2)",
        "(if a (set! b 1) (f))",
        "(lambda (x) x)",
        "(lambda () 1 2 3)",
        "((lambda (f) (f 10)) (lambda (x) (+ x 1)))",
        "(f (lambda (a b) (g a) (lambda () b)))",
    ];
    for t in texts {
        assert_eq!(expr(t).lift_defines().remove_let(), expr(t));
        assert_eq!(expr(t).remove_let().lift_defines(), expr(t));
        assert_eq!(expr(t).lift_defines(), expr(t));
        assert_eq!(expr(t).remove_let(), expr(t));
    }
}

#[test]
fn desugaring_changes_what_has_a_let_or_a_definition() {
    assert_ne!(expr("(let ((x 1)) x)").lift_defines().remove_let(), expr("(let ((x 1)) x)"));
    let with_def = expr("(lambda () (define x 1) x)");
    assert_ne!(with_def.lift_defines().remove_let(), expr("(lambda () (define x 1) x)"));
}

#[test]
fn let_removal_leaves_alone_what_has_no_let_even_with_definitions() {
    let make = || {
        lam(
            &["n"],
            body(
                vec![
                    def("fact", lam(&["m"], single(call(var("fact"), vec![var("m")])))),
                    BExprBodyExpr::Expr(set("n", num(2))),
                    def("twice", lam(&[], body(vec![def("t", num(1))], var("t")))),
                ],
                call(var("fact"), vec![call(var("twice"), vec![]), var("n")]),
            ),
        )
    };
    assert_eq!(make().remove_let(), make());
    let once = expr("(lambda (a) (let ((b a)) (define c b) c))").remove_let();
    let again = expr("(lambda (a) (let ((b a)) (define c b) c))").remove_let().remove_let();
    assert_eq!(once, again);
}

#[test]
fn pulling_definitions_leaves_alone_what_has_none_even_with_a_let() {
    let make = || {
        BExpr::Let(
            vec![("x".to_string(), num(1)), ("f".to_string(), lam(&["y"], single(var("y"))))],
            body(vec![BExprBodyExpr::Expr(set("x", num(2)))], call(var("f"), vec![var("x")])),
        )
    };
    assert_eq!(make().lift_defines(), make());
}
