use somescheme::flat_expr::FExpr;
use somescheme::lifted_expr::{LExpr, LiftedLambda};
use somescheme::literals::Literal;
use somescheme::names::FreeVar;
use std::collections::HashMap;

/// The lifted expression with its functions in the order of their
/// identifiers, which are the keys from 0 on.
fn listed((root, mut map): (LExpr, HashMap<usize, LiftedLambda>)) -> (LExpr, Vec<LiftedLambda>) {
    let list = (0..map.len())
        .map(|i| map.remove(&i).expect("a function under every identifier from 0 on"))
        .collect();
    (root, list)
}

fn fv(name: &str, id: u64) -> FreeVar {
    FreeVar { pretty_name: name.to_string(), unique_id: id }
}

fn var(name: &str, id: u64) -> Box<FExpr> {
    Box::new(FExpr::Var(fv(name, id)))
}

fn num(i: i64) -> Box<FExpr> {
    Box::new(FExpr::Lit(Literal::Int(i)))
}

fn exit() -> Box<FExpr> {
    Box::new(FExpr::BuiltinIdent("exit".to_string()))
}

fn lvar(name: &str, id: u64) -> Box<LExpr> {
    Box::new(LExpr::Var(fv(name, id)))
}

fn lnum(i: i64) -> Box<LExpr> {
    Box::new(LExpr::Lit(Literal::Int(i)))
}

fn lexit() -> Box<LExpr> {
    Box::new(LExpr::BuiltinIdent("exit".to_string()))
}

fn spelled(vars: &[FreeVar]) -> Vec<(String, u64)> {
    vars.iter().map(|v| (v.pretty_name.clone(), v.unique_id)).collect()
}

fn named(list: &[(&str, u64)]) -> Vec<(String, u64)> {
    list.iter().map(|(n, i)| (n.to_string(), *i)).collect()
}

fn lifted_free(e: &LExpr, table: &[LiftedLambda], out: &mut Vec<u64>) {
    match e {
        LExpr::Var(v) => out.push(v.unique_id),
        LExpr::Lit(_) | LExpr::BuiltinIdent(_) => {}
        LExpr::SetThen(v, a, then) => {
            out.push(v.unique_id);
            lifted_free(a, table, out);
            lifted_free(then, table, out);
        }
        LExpr::If(c, t, f) => {
            lifted_free(c, table, out);
            lifted_free(t, table, out);
            lifted_free(f, table, out);
        }
        LExpr::Lifted(id) => {
            let l = &table[*id];
            for v in &l.freevars {
                if !l.params.contains(v) {
                    out.push(v.unique_id);
                }
            }
        }
        LExpr::CallOne(k, a) => {
            lifted_free(k, table, out);
            lifted_free(a, table, out);
        }
        LExpr::CallTwo(f, a, k) => {
            lifted_free(f, table, out);
            lifted_free(a, table, out);
            lifted_free(k, table, out);
        }
    }
}

#[test]
fn free_variables_are_listed_once_in_the_order_of_first_use() {
    let e = FExpr::CallTwo(var("f", 3), var("x", 1), var("f", 3));
    assert_eq!(spelled(&e.free_vars()), named(&[("f", 3), ("x", 1)]));
    let e = FExpr::If(var("c", 5), Box::new(FExpr::CallOne(var("a", 2), var("c", 5))), Box::new(FExpr::CallOne(var("b", 9), var("a", 2))));
    assert_eq!(spelled(&e.free_vars()), named(&[("c", 5), ("a", 2), ("b", 9)]));
}

#[test]
fn literals_and_builtins_have_no_free_variable() {
    assert_eq!(FExpr::Lit(Literal::Void).free_vars(), vec![]);
    assert_eq!(FExpr::CallOne(exit(), num(1)).free_vars(), vec![]);
}

#[test]
fn an_assigned_variable_is_free() {
    let e = FExpr::SetThen(fv("x", 4), num(1), Box::new(FExpr::CallOne(var("k", 2), var("x", 4))));
    assert_eq!(spelled(&e.free_vars()), named(&[("x", 4), ("k", 2)]));
}

#[test]
fn a_function_binds_its_parameters() {
    let e = FExpr::LamOne(fv("rv", 1), Box::new(FExpr::CallTwo(var("f", 2), var("rv", 1), var("k", 3))));
    assert_eq!(spelled(&e.free_vars()), named(&[("f", 2), ("k", 3)]));
    let e = FExpr::LamTwo(
        fv("x", 1),
        fv("k", 2),
        Box::new(FExpr::CallTwo(var("f", 3), var("x", 1), var("k", 2))),
    );
    assert_eq!(spelled(&e.free_vars()), named(&[("f", 3)]));
}

#[test]
fn a_binder_hides_only_inside_its_function() {
    let e = FExpr::CallOne(
        Box::new(FExpr::LamOne(fv("x", 1), Box::new(FExpr::CallOne(var("k", 2), var("x", 1))))),
        var("x", 1),
    );
    assert_eq!(spelled(&e.free_vars()), named(&[("k", 2), ("x", 1)]));
}

#[test]
fn an_expression_without_functions_lifts_to_itself() {
    let e = FExpr::SetThen(fv("x", 4), num(1), Box::new(FExpr::If(var("x", 4), Box::new(FExpr::CallOne(exit(), num(2))), Box::new(FExpr::CallTwo(var("f", 1), num(3), exit())))));
    let (root, table) = listed(e.lift_lambdas());
    assert_eq!(
        root,
        LExpr::SetThen(
            fv("x", 4),
            lnum(1),
            Box::new(LExpr::If(
                lvar("x", 4),
                Box::new(LExpr::CallOne(lexit(), lnum(2))),
                Box::new(LExpr::CallTwo(lvar("f", 1), lnum(3), lexit()))
            ))
        )
    );
    assert_eq!(table, vec![]);
}

#[test]
fn a_continuation_is_lifted_with_its_parameter_among_its_free_variables() {
    let e = FExpr::CallTwo(
        Box::new(FExpr::BuiltinIdent("+".to_string())),
        num(1),
        Box::new(FExpr::LamOne(fv("rv", 0), Box::new(FExpr::CallTwo(var("rv", 0), num(2), exit())))),
    );
    let (root, table) = listed(e.lift_lambdas());
    assert_eq!(
        root,
        LExpr::CallTwo(
            Box::new(LExpr::BuiltinIdent("+".to_string())),
            lnum(1),
            Box::new(LExpr::Lifted(0))
        )
    );
    assert_eq!(table.len(), 1);
    assert_eq!(table[0].id, 0);
    assert_eq!(spelled(&table[0].params), named(&[("rv", 0)]));
    assert_eq!(spelled(&table[0].freevars), named(&[("rv", 0)]));
    assert_eq!(*table[0].body, LExpr::CallTwo(lvar("rv", 0), lnum(2), lexit()));
}

#[test]
fn a_parameter_that_the_body_does_not_use_is_no_free_variable() {
    let e = FExpr::LamTwo(fv("x", 1), fv("k", 2), Box::new(FExpr::CallOne(var("k", 2), num(1))));
    let (root, table) = listed(e.lift_lambdas());
    assert_eq!(root, LExpr::Lifted(0));
    assert_eq!(spelled(&table[0].params), named(&[("x", 1), ("k", 2)]));
    assert_eq!(spelled(&table[0].freevars), named(&[("k", 2)]));
}

#[test]
fn inner_functions_are_numbered_before_outer_ones() {
    let inner = FExpr::LamOne(fv("rv", 3), Box::new(FExpr::CallOne(var("k", 2), var("rv", 3))));
    let outer = FExpr::LamTwo(
        fv("x", 1),
        fv("k", 2),
        Box::new(FExpr::CallTwo(var("f", 9), var("x", 1), Box::new(inner))),
    );
    let (root, table) = listed(FExpr::CallOne(exit(), Box::new(outer)).lift_lambdas());
    assert_eq!(root, LExpr::CallOne(lexit(), Box::new(LExpr::Lifted(1))));
    assert_eq!(table.len(), 2);
    assert_eq!(table[0].id, 0);
    assert_eq!(spelled(&table[0].params), named(&[("rv", 3)]));
    assert_eq!(spelled(&table[0].freevars), named(&[("k", 2), ("rv", 3)]));
    assert_eq!(*table[0].body, LExpr::CallOne(lvar("k", 2), lvar("rv", 3)));
    assert_eq!(table[1].id, 1);
    assert_eq!(spelled(&table[1].params), named(&[("x", 1), ("k", 2)]));
    assert_eq!(spelled(&table[1].freevars), named(&[("f", 9), ("x", 1), ("k", 2)]));
    assert_eq!(*table[1].body, LExpr::CallTwo(lvar("f", 9), lvar("x", 1), Box::new(LExpr::Lifted(0))));
}

#[test]
fn functions_are_numbered_from_left_to_right() {
    let k = |id: u64| {
        Box::new(FExpr::LamOne(fv("rv", id), Box::new(FExpr::CallOne(exit(), var("rv", id)))))
    };
    let e = FExpr::If(
        num(0),
        Box::new(FExpr::CallTwo(k(10), k(11), k(12))),
        Box::new(FExpr::SetThen(fv("x", 1), k(13), Box::new(FExpr::CallOne(k(14), num(1))))),
    );
    let (root, table) = listed(e.lift_lambdas());
    let l = |id: usize| Box::new(LExpr::Lifted(id));
    assert_eq!(
        root,
        LExpr::If(
            lnum(0),
            Box::new(LExpr::CallTwo(l(0), l(1), l(2))),
            Box::new(LExpr::SetThen(fv("x", 1), l(3), Box::new(LExpr::CallOne(l(4), lnum(1)))))
        )
    );
    let ids: Vec<usize> = table.iter().map(|l| l.id).collect();
    assert_eq!(ids, vec![0, 1, 2, 3, 4]);
    let params: Vec<u64> = table.iter().map(|l| l.params[0].unique_id).collect();
    assert_eq!(params, vec![10, 11, 12, 13, 14]);
}

#[test]
fn a_new_lifted_function_holds_what_it_is_given() {
    let l = LiftedLambda::new(
        3,
        vec![fv("x", 1)],
        vec![fv("x", 1), fv("y", 2)],
        Box::new(LExpr::Lifted(0)),
    );
    assert_eq!(l.id, 3);
    assert_eq!(spelled(&l.params), named(&[("x", 1)]));
    assert_eq!(spelled(&l.freevars), named(&[("x", 1), ("y", 2)]));
    assert_eq!(*l.body, LExpr::Lifted(0));
}

#[test]
fn the_body_of_a_lifted_function_is_closed() {
    let programs = [
        "(+ 1 2)",
        "((lambda (f) (f 10)) (lambda (x) (+ x 1)))",
        "(let ((x 1)) (set! x 2) x)",
        "(lambda () (define (fact n) (if (null? n) 1 (* n (fact (- n 1))))) (fact 5))",
        "(lambda (a b) (lambda (c) (a b c) (lambda () (set! a c))))",
    ];
    for p in programs {
        let body = somescheme::parse::parse(p).unwrap();
        let mut ctx = somescheme::transform::TransformContext::new();
        let e = (*body.1).into_expr(&mut ctx).unwrap();
        let k = somescheme::cont_expr::AExp::BuiltinIdent("exit".to_string());
        let (root, table) = listed(e.into_fexpr(k, &mut ctx).unwrap().lift_lambdas());
        for l in &table {
            let mut free = Vec::new();
            lifted_free(&l.body, &table, &mut free);
            for id in free {
                assert!(
                    l.params.iter().any(|v| v.unique_id == id)
                        || l.freevars.iter().any(|v| v.unique_id == id),
                    "{} leaks {} from lambda {}",
                    p,
                    id,
                    l.id
                );
            }
            assert!(l.params.len() == 1 || l.params.len() == 2);
        }
        for (i, l) in table.iter().enumerate() {
            assert_eq!(l.id, i);
        }
        let mut free = Vec::new();
        lifted_free(&root, &table, &mut free);
        assert_eq!(free, Vec::<u64>::new(), "{}", p);
    }
}
