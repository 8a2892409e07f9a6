use somescheme::cont_expr::{m, t_c, AExp, CExp};
use somescheme::error::CompileError;
use somescheme::expr::Expr;
use somescheme::flat_expr::FExpr;
use somescheme::literals::Literal;
use somescheme::names::FreeVar;
use somescheme::transform::TransformContext;

fn fv(name: &str, id: u64) -> FreeVar {
    FreeVar { pretty_name: name.to_string(), unique_id: id }
}

fn var(name: &str, id: u64) -> Expr {
    Expr::Var(fv(name, id))
}

fn num(i: i64) -> Expr {
    Expr::Lit(Literal::Int(i))
}

fn app(f: Expr, a: Expr) -> Expr {
    Expr::App(Box::new(f), Box::new(a))
}

fn avar(name: &str, id: u64) -> AExp {
    AExp::Var(fv(name, id))
}

fn anum(i: i64) -> AExp {
    AExp::Lit(Literal::Int(i))
}

fn avoid() -> AExp {
    AExp::Lit(Literal::Void)
}

fn exit() -> AExp {
    AExp::BuiltinIdent("exit".to_string())
}

fn call1(k: AExp, a: AExp) -> CExp {
    CExp::Call1(Box::new(k), Box::new(a))
}

fn call2(f: AExp, a: AExp, k: AExp) -> CExp {
    CExp::Call2(Box::new(f), Box::new(a), Box::new(k))
}

fn lam1(name: &str, id: u64, body: CExp) -> AExp {
    AExp::Lam1(fv(name, id), Box::new(body))
}

fn tc(e: Expr, k: AExp, ctx: &mut TransformContext) -> CExp {
    t_c(e, k, ctx).unwrap()
}

fn atom(e: Expr, ctx: &mut TransformContext) -> AExp {
    m(e, ctx).unwrap()
}

fn names_of(c: &CExp, out: &mut Vec<(String, u64)>) {
    fn atom(a: &AExp, out: &mut Vec<(String, u64)>) {
        match a {
            AExp::Lam2(p, k, body) => {
                out.push((p.pretty_name.clone(), p.unique_id));
                out.push((k.pretty_name.clone(), k.unique_id));
                super_names(body, out);
            }
            AExp::Lam1(p, body) => {
                out.push((p.pretty_name.clone(), p.unique_id));
                super_names(body, out);
            }
            _ => {}
        }
    }
    fn super_names(c: &CExp, out: &mut Vec<(String, u64)>) {
        match c {
            CExp::If(a, t, e) => {
                atom(a, out);
                super_names(t, out);
                super_names(e, out);
            }
            CExp::SetThen(_, a, then) => {
                atom(a, out);
                super_names(then, out);
            }
            CExp::Call1(k, a) => {
                atom(k, out);
                atom(a, out);
            }
            CExp::Call2(f, a, k) => {
                atom(f, out);
                atom(a, out);
                atom(k, out);
            }
        }
    }
    super_names(c, out)
}

#[test]
fn an_atom_goes_to_the_continuation() {
    let mut ctx = TransformContext::new();
    assert_eq!(tc(num(1), exit(), &mut ctx), call1(exit(), anum(1)));
    assert_eq!(tc(var("x", 4), avar("k", 9), &mut ctx), call1(avar("k", 9), avar("x", 4)));
    assert_eq!(
        tc(Expr::BuiltinIdent("car".to_string()), exit(), &mut ctx),
        call1(exit(), AExp::BuiltinIdent("car".to_string()))
    );
    assert_eq!(ctx.drawn(), 0);
}

#[test]
fn a_function_gets_a_continuation_parameter() {
    let mut ctx = TransformContext::starting_at(5);
    let f = Expr::Lam(fv("x", 0), Box::new(var("x", 0)));
    let got = atom(f, &mut ctx);
    let want =
        AExp::Lam2(fv("x", 0), fv("k", 5), Box::new(call1(avar("k", 5), avar("x", 0))));
    assert_eq!(got, want);
    assert_eq!(ctx.drawn(), 6);
    match got {
        AExp::Lam2(p, k, _) => {
            assert_eq!(p.pretty_name, "x");
            assert_eq!(k.pretty_name, "k");
        }
        other => panic!("{:?}", other),
    }
}

#[test]
fn atoms_other_than_functions_translate_to_themselves() {
    let mut ctx = TransformContext::new();
    assert_eq!(atom(var("x", 3), &mut ctx), avar("x", 3));
    assert_eq!(atom(num(7), &mut ctx), anum(7));
    assert_eq!(atom(Expr::Lit(Literal::Void), &mut ctx), avoid());
    assert_eq!(
        atom(Expr::BuiltinIdent("+".to_string()), &mut ctx),
        AExp::BuiltinIdent("+".to_string())
    );
    assert_eq!(ctx.drawn(), 0);
}

#[test]
fn a_call_of_atoms_is_a_call_with_the_continuation() {
    let mut ctx = TransformContext::new();
    assert_eq!(
        tc(app(var("f", 1), num(2)), exit(), &mut ctx),
        call2(avar("f", 1), anum(2), exit())
    );
    assert_eq!(ctx.drawn(), 0);
}

#[test]
fn a_nested_call_runs_first_and_hands_its_result_on() {
    let mut ctx = TransformContext::new();
    let e = app(app(Expr::BuiltinIdent("+".to_string()), num(1)), num(2));
    assert_eq!(
        tc(e, exit(), &mut ctx),
        call2(
            AExp::BuiltinIdent("+".to_string()),
            anum(1),
            lam1("rv", 0, call2(avar("rv", 0), anum(2), exit()))
        )
    );
    assert_eq!(ctx.drawn(), 1);
}

#[test]
fn arguments_are_evaluated_from_left_to_right() {
    let mut ctx = TransformContext::new();
    let e = app(app(var("f", 10), num(1)), app(var("g", 11), num(2)));
    // ((f 1) (g 2)): first (f 1), then (g 2), then the call of the results.
    let want = call2(
        avar("f", 10),
        anum(1),
        lam1(
            "rv",
            0,
            call2(
                avar("g", 11),
                anum(2),
                lam1("rv", 1, call2(avar("rv", 0), avar("rv", 1), exit())),
            ),
        ),
    );
    assert_eq!(tc(e, exit(), &mut ctx), want);
    assert_eq!(ctx.drawn(), 2);
}

#[test]
fn an_assignment_goes_on_with_void() {
    let mut ctx = TransformContext::new();
    let e = Expr::Assign(fv("x", 3), Box::new(num(1)));
    assert_eq!(
        tc(e, exit(), &mut ctx),
        CExp::SetThen(fv("x", 3), Box::new(anum(1)), Box::new(call1(exit(), avoid())))
    );
    assert_eq!(ctx.drawn(), 0);
}

#[test]
fn an_assignment_as_an_argument_passes_void() {
    let mut ctx = TransformContext::new();
    let e = app(var("f", 1), Expr::Assign(fv("x", 3), Box::new(num(1))));
    assert_eq!(
        tc(e, exit(), &mut ctx),
        CExp::SetThen(
            fv("x", 3),
            Box::new(anum(1)),
            Box::new(call2(avar("f", 1), avoid(), exit()))
        )
    );
}

#[test]
fn a_conditional_names_its_continuation() {
    let mut ctx = TransformContext::new();
    let e = Expr::If(Box::new(var("c", 1)), Box::new(num(1)), Box::new(num(2)));
    assert_eq!(
        tc(e, exit(), &mut ctx),
        call1(
            lam1(
                "k",
                0,
                CExp::If(
                    Box::new(avar("c", 1)),
                    Box::new(call1(avar("k", 0), anum(1))),
                    Box::new(call1(avar("k", 0), anum(2))),
                )
            ),
            exit()
        )
    );
    assert_eq!(ctx.drawn(), 1);
}

#[test]
fn a_conditional_as_an_argument_shares_the_rest() {
    let mut ctx = TransformContext::new();
    let e = app(
        var("f", 1),
        Expr::If(Box::new(var("c", 2)), Box::new(num(1)), Box::new(num(2))),
    );
    let rest = || lam1("rv", 0, call2(avar("f", 1), avar("rv", 0), exit()));
    assert_eq!(
        tc(e, exit(), &mut ctx),
        CExp::If(
            Box::new(avar("c", 2)),
            Box::new(call1(rest(), anum(1))),
            Box::new(call1(rest(), anum(2))),
        )
    );
    assert_eq!(ctx.drawn(), 1);
}

#[test]
fn the_condition_is_evaluated_before_the_branches() {
    let mut ctx = TransformContext::new();
    let e = Expr::If(
        Box::new(app(var("p", 1), num(0))),
        Box::new(app(var("f", 2), num(1))),
        Box::new(num(2)),
    );
    assert_eq!(
        tc(e, exit(), &mut ctx),
        call1(
            lam1(
                "k",
                0,
                call2(
                    avar("p", 1),
                    anum(0),
                    lam1(
                        "rv",
                        1,
                        CExp::If(
                            Box::new(avar("rv", 1)),
                            Box::new(call2(avar("f", 2), anum(1), avar("k", 0))),
                            Box::new(call1(avar("k", 0), anum(2))),
                        )
                    )
                )
            ),
            exit()
        )
    );
    assert_eq!(ctx.drawn(), 2);
}

#[test]
fn the_body_of_a_function_hands_its_result_to_the_continuation_parameter() {
    let mut ctx = TransformContext::new();
    let f = Expr::Lam(fv("x", 7), Box::new(app(var("g", 8), var("x", 7))));
    assert_eq!(
        tc(f, exit(), &mut ctx),
        call1(
            exit(),
            AExp::Lam2(
                fv("x", 7),
                fv("k", 0),
                Box::new(call2(avar("g", 8), avar("x", 7), avar("k", 0)))
            )
        )
    );
}

#[test]
fn fresh_names_are_spelled_by_their_role() {
    let mut ctx = TransformContext::new();
    let e = Expr::If(
        Box::new(app(var("p", 100), num(0))),
        Box::new(Expr::Lam(fv("x", 101), Box::new(var("x", 101)))),
        Box::new(num(2)),
    );
    let mut names = Vec::new();
    names_of(&tc(e, exit(), &mut ctx), &mut names);
    assert_eq!(
        names,
        vec![
            ("k".to_string(), 0),
            ("rv".to_string(), 1),
            ("x".to_string(), 101),
            ("k".to_string(), 2)
        ]
    );
}

#[test]
fn copies_are_equal_to_what_they_copy() {
    let a = lam1("rv", 0, call2(avar("f", 1), avar("rv", 0), exit()));
    assert_eq!(a.clone(), a);
    assert_eq!(a.dup(), a);
    let c = CExp::If(Box::new(avar("c", 1)), Box::new(call1(a.dup(), anum(1))), Box::new(call1(a, avoid())));
    assert_eq!(c.clone(), c);
    assert_eq!(c.dup(), c);
}

#[test]
fn flattening_relabels_every_node() {
    let c = CExp::SetThen(
        fv("x", 1),
        Box::new(anum(1)),
        Box::new(CExp::If(
            Box::new(avar("x", 1)),
            Box::new(call1(lam1("rv", 2, call1(exit(), avar("rv", 2))), avoid())),
            Box::new(call2(
                AExp::Lam2(fv("a", 3), fv("k", 4), Box::new(call1(avar("k", 4), avar("a", 3)))),
                AExp::BuiltinIdent("car".to_string()),
                exit(),
            )),
        )),
    );
    let fx = |name: &str, id: u64| Box::new(FExpr::Var(fv(name, id)));
    let want = FExpr::SetThen(
        fv("x", 1),
        Box::new(FExpr::Lit(Literal::Int(1))),
        Box::new(FExpr::If(
            fx("x", 1),
            Box::new(FExpr::CallOne(
                Box::new(FExpr::LamOne(
                    fv("rv", 2),
                    Box::new(FExpr::CallOne(
                        Box::new(FExpr::BuiltinIdent("exit".to_string())),
                        fx("rv", 2),
                    )),
                )),
                Box::new(FExpr::Lit(Literal::Void)),
            )),
            Box::new(FExpr::CallTwo(
                Box::new(FExpr::LamTwo(
                    fv("a", 3),
                    fv("k", 4),
                    Box::new(FExpr::CallOne(fx("k", 4), fx("a", 3))),
                )),
                Box::new(FExpr::BuiltinIdent("car".to_string())),
                Box::new(FExpr::BuiltinIdent("exit".to_string())),
            )),
        )),
    );
    assert_eq!(c.into_fexpr(), want);
}

#[test]
fn flattening_an_atom() {
    assert_eq!(anum(3).into_fexpr(), FExpr::Lit(Literal::Int(3)));
    assert_eq!(avar("x", 2).into_fexpr(), FExpr::Var(fv("x", 2)));
}

#[test]
fn an_expression_is_translated_and_flattened_in_one_step() {
    let mut ctx = TransformContext::new();
    let e = app(app(Expr::BuiltinIdent("+".to_string()), num(1)), num(2));
    let want = FExpr::CallTwo(
        Box::new(FExpr::BuiltinIdent("+".to_string())),
        Box::new(FExpr::Lit(Literal::Int(1))),
        Box::new(FExpr::LamOne(
            fv("rv", 0),
            Box::new(FExpr::CallTwo(
                Box::new(FExpr::Var(fv("rv", 0))),
                Box::new(FExpr::Lit(Literal::Int(2))),
                Box::new(FExpr::BuiltinIdent("exit".to_string())),
            )),
        )),
    );
    assert_eq!(e.into_fexpr(exit(), &mut ctx), Ok(want));
}

fn is_value(f: &FExpr) -> bool {
    match f {
        FExpr::LamOne(_, body) | FExpr::LamTwo(_, _, body) => is_computation(body),
        FExpr::Var(_) | FExpr::Lit(_) | FExpr::BuiltinIdent(_) => true,
        _ => false,
    }
}

fn is_computation(f: &FExpr) -> bool {
    match f {
        FExpr::If(c, t, e) => is_value(c) && is_computation(t) && is_computation(e),
        FExpr::SetThen(_, a, then) => is_value(a) && is_computation(then),
        FExpr::CallOne(k, a) => is_value(k) && is_value(a),
        FExpr::CallTwo(f, a, k) => is_value(f) && is_value(a) && is_value(k),
        _ => false,
    }
}

#[test]
fn every_call_is_in_tail_position() {
    let programs = [
        "(+ 1 2)",
        "(if 0 \"no\" \"yes\")",
        "(let ((x 1)) (set! x 2) x)",
        "((lambda (f) (f 10)) (lambda (x) (+ x 1)))",
        "(lambda () (define (fact n) (if (null? n) 1 (* n (fact (- n 1))))) (fact 5))",
        "(cons 1 (cons 2 void))",
        "(f (if a b c) (set! x (g)))",
    ];
    for p in programs {
        let body = somescheme::parse::parse(&format!("(lambda (f a b c x g) {})", p)).unwrap();
        let mut ctx = TransformContext::new();
        let e = (*body.1).into_expr(&mut ctx).unwrap();
        let flat = e.into_fexpr(exit(), &mut ctx).unwrap();
        assert!(is_computation(&flat), "{}", p);
    }
}

#[test]
fn translation_reports_an_exhausted_supply() {
    let mut ctx = TransformContext::starting_at(u64::MAX - 1);
    let e = app(app(var("f", 1), num(1)), num(2));
    assert_eq!(t_c(e, exit(), &mut ctx), Err(CompileError::NamesExhausted));
    assert!(ctx.exhausted());
    let mut ctx = TransformContext::starting_at(u64::MAX - 1);
    let f = Expr::Lam(fv("x", 0), Box::new(var("x", 0)));
    assert_eq!(m(f, &mut ctx), Err(CompileError::NamesExhausted));
    let mut ctx = TransformContext::starting_at(u64::MAX - 1);
    let f = Expr::Lam(fv("x", 0), Box::new(var("x", 0)));
    assert_eq!(f.into_fexpr(exit(), &mut ctx), Err(CompileError::NamesExhausted));
}

#[test]
fn the_last_fresh_name_that_fits_is_drawn() {
    let mut fits = TransformContext::starting_at(u64::MAX - 2);
    let e = app(app(var("f", 1), num(1)), num(2));
    assert_eq!(
        t_c(e, exit(), &mut fits),
        Ok(call2(
            avar("f", 1),
            anum(1),
            lam1("rv", u64::MAX - 2, call2(avar("rv", u64::MAX - 2), anum(2), exit()))
        ))
    );
    assert!(!fits.exhausted());
}

#[test]
fn translation_that_draws_nothing_does_not_mind_an_exhausted_supply() {
    let mut ctx = TransformContext::starting_at(u64::MAX - 1);
    assert_eq!(t_c(num(1), exit(), &mut ctx), Ok(call1(exit(), anum(1))));
    assert_eq!(m(var("x", 3), &mut ctx), Ok(avar("x", 3)));
}

fn free_in_expr(e: &Expr, bound: &mut Vec<u64>, out: &mut Vec<u64>) {
    let mut note = |id: u64, bound: &Vec<u64>| {
        if !bound.contains(&id) && !out.contains(&id) {
            out.push(id);
        }
    };
    match e {
        Expr::Var(v) => note(v.unique_id, bound),
        Expr::Lit(_) | Expr::BuiltinIdent(_) => {}
        Expr::If(c, t, f) => {
            free_in_expr(c, bound, out);
            free_in_expr(t, bound, out);
            free_in_expr(f, bound, out);
        }
        Expr::Assign(v, e) => {
            note(v.unique_id, bound);
            free_in_expr(e, bound, out);
        }
        Expr::Lam(p, body) => {
            bound.push(p.unique_id);
            free_in_expr(body, bound, out);
            bound.pop();
        }
        Expr::App(f, a) => {
            free_in_expr(f, bound, out);
            free_in_expr(a, bound, out);
        }
    }
}

fn free_in_atom(a: &AExp, bound: &mut Vec<u64>, out: &mut Vec<u64>) {
    match a {
        AExp::Lam2(p, k, body) => {
            bound.push(p.unique_id);
            bound.push(k.unique_id);
            free_in_comp(body, bound, out);
            bound.pop();
            bound.pop();
        }
        AExp::Lam1(p, body) => {
            bound.push(p.unique_id);
            free_in_comp(body, bound, out);
            bound.pop();
        }
        AExp::Var(v) => {
            if !bound.contains(&v.unique_id) && !out.contains(&v.unique_id) {
                out.push(v.unique_id);
            }
        }
        AExp::BuiltinIdent(_) | AExp::Lit(_) => {}
    }
}

fn free_in_comp(c: &CExp, bound: &mut Vec<u64>, out: &mut Vec<u64>) {
    match c {
        CExp::If(a, t, e) => {
            free_in_atom(a, bound, out);
            free_in_comp(t, bound, out);
            free_in_comp(e, bound, out);
        }
        CExp::SetThen(v, a, then) => {
            if !bound.contains(&v.unique_id) && !out.contains(&v.unique_id) {
                out.push(v.unique_id);
            }
            free_in_atom(a, bound, out);
            free_in_comp(then, bound, out);
        }
        CExp::Call1(k, a) => {
            free_in_atom(k, bound, out);
            free_in_atom(a, bound, out);
        }
        CExp::Call2(f, a, k) => {
            free_in_atom(f, bound, out);
            free_in_atom(a, bound, out);
            free_in_atom(k, bound, out);
        }
    }
}

fn sorted(mut ids: Vec<u64>) -> Vec<u64> {
    ids.sort();
    ids
}

/// `(lambda (p) (if (f p) (set! x (g p)) ((f x) p)))`, open in `f`, `x`
/// and `g`, which have the identifiers 0, 1 and 2.
fn open_term() -> Expr {
    Expr::Lam(
        fv("p", 3),
        Box::new(Expr::If(
            Box::new(app(var("f", 0), var("p", 3))),
            Box::new(Expr::Assign(fv("x", 1), Box::new(app(var("g", 2), var("p", 3))))),
            Box::new(app(app(var("f", 0), var("x", 1)), var("p", 3))),
        )),
    )
}

#[test]
fn the_translation_keeps_the_free_variables_of_the_expression_and_the_continuation() {
    let mut before = Vec::new();
    free_in_expr(&open_term(), &mut Vec::new(), &mut before);
    assert_eq!(sorted(before), vec![0, 1, 2]);
    for start in [5u64, 6, 40] {
        let mut ctx = TransformContext::starting_at(start);
        let c = tc(app(open_term(), var("y", 4)), avar("k", 2), &mut ctx);
        let mut after = Vec::new();
        free_in_comp(&c, &mut Vec::new(), &mut after);
        assert_eq!(sorted(after), vec![0, 1, 2, 4], "supply at {}", start);
        let mut ctx = TransformContext::starting_at(start);
        let a = atom(open_term(), &mut ctx);
        let mut after = Vec::new();
        free_in_atom(&a, &mut Vec::new(), &mut after);
        assert_eq!(sorted(after), vec![0, 1, 2], "supply at {}", start);
    }
}

#[test]
fn a_supply_that_stands_below_a_variable_may_capture_it() {
    let mut ctx = TransformContext::starting_at(0);
    let a = atom(Expr::Lam(fv("p", 3), Box::new(var("f", 0))), &mut ctx);
    let mut after = Vec::new();
    free_in_atom(&a, &mut Vec::new(), &mut after);
    assert_eq!(after, Vec::<u64>::new());
    let mut ctx = TransformContext::starting_at(4);
    let a = atom(Expr::Lam(fv("p", 3), Box::new(var("f", 0))), &mut ctx);
    let mut after = Vec::new();
    free_in_atom(&a, &mut Vec::new(), &mut after);
    assert_eq!(after, vec![0]);
}
