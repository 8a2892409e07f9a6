use somescheme::base_expr::{BExpr, BExprBody};
use somescheme::cont_expr::AExp;
use somescheme::error::CompileError;
use somescheme::lifted_expr::{LExpr, LiftedLambda};
use somescheme::literals::Literal;
use somescheme::parse::parse;
use somescheme::program::{compile, compile_source, generate_program_source};
use somescheme::transform::TransformContext;
use std::collections::HashMap;

/// The lifted expression with its functions in the order of their
/// identifiers, which are the keys from 0 on.
fn listed((root, mut map): (LExpr, HashMap<usize, LiftedLambda>)) -> (LExpr, Vec<LiftedLambda>) {
    let list = (0..map.len())
        .map(|i| map.remove(&i).expect("a function under every identifier from 0 on"))
        .collect();
    (root, list)
}

fn unit(text: &str) -> String {
    let full = compile_source(text).unwrap();
    let head = generate_program_source("");
    let cut = head.find("\nint main()").unwrap();
    let (prelude, epilogue) = head.split_at(cut);
    assert!(full.starts_with(prelude));
    assert!(full.ends_with(epilogue));
    full[prelude.len()..full.len() - epilogue.len()].to_string()
}

fn lines(text: &str) -> Vec<String> {
    unit(text).lines().map(|l| l.to_string()).collect()
}

fn lifted(text: &str) -> (LExpr, Vec<LiftedLambda>) {
    let body = parse(text).unwrap();
    assert!(body.0.is_empty());
    let mut ctx = TransformContext::new();
    let e = (*body.1).into_expr(&mut ctx).unwrap();
    listed(e.into_fexpr(AExp::BuiltinIdent("exit".to_string()), &mut ctx).unwrap().lift_lambdas())
}

fn count(haystack: &str, needle: &str) -> usize {
    haystack.matches(needle).count()
}

#[test]
fn add_one_two_compiles_to_one_lifted_function_and_the_root() {
    assert_eq!(
        lines("(+ 1 2)"),
        vec![
            "struct env_0 {struct obj *v_rv_0;};",
            "void lambda_0(struct obj *, struct env_obj *)__attribute__((noreturn)) ;",
            "void lambda_0(struct obj *var_0, struct env_obj *env_in){\
             struct env_0 *env = (struct env_0 *)(&((env_in)->env));\
             OBJECT_CELL_OBJ_NEW(var_1,var_0);\
             ((env)->v_rv_0)=(var_1);\
             OBJECT_INT_OBJ_NEW(var_2,2);\
             OBJECT_CLOSURE_ONE_NEW(var_3,exit_k,NULL);\
             call_closure_two(((struct cell_obj *)((env)->v_rv_0))->val,var_2,var_3);\
             __builtin_unreachable();}",
            "void main_lambda(struct obj *input_obj, struct env_obj *input_env){\
             OBJECT_CLOSURE_TWO_NEW(var_4,add_k,NULL);\
             OBJECT_INT_OBJ_NEW(var_5,1);\
             OBJECT_ENV_OBJ_NEW(var_6,struct env_0 );\
             OBJECT_CLOSURE_ONE_NEW(var_7,lambda_0,var_6);\
             call_closure_two(var_4,var_5,var_7);\
             __builtin_unreachable();}",
        ]
    );
    let text = compile_source("(+ 1 2)").unwrap();
    assert_eq!(count(&text, "add_k"), 1);
    assert_eq!(count(&text, "exit_k"), 1);
    let (_, table) = lifted("(+ 1 2)");
    assert_eq!(table.len(), 1);
}

#[test]
fn a_conditional_compiles_to_a_c_if_with_a_tail_call_in_each_branch() {
    assert_eq!(
        lines("(if 0 \"no\" \"yes\")"),
        vec![
            "struct env_0 {struct obj *v_k_0;};",
            "void lambda_0(struct obj *, struct env_obj *)__attribute__((noreturn)) ;",
            "void lambda_0(struct obj *var_0, struct env_obj *env_in){\
             struct env_0 *env = (struct env_0 *)(&((env_in)->env));\
             OBJECT_CELL_OBJ_NEW(var_1,var_0);\
             ((env)->v_k_0)=(var_1);\
             OBJECT_INT_OBJ_NEW(var_4,0);\
             if (obj_is_truthy(var_4)){\
             OBJECT_STRING_OBJ_NEW(var_2,\"no\");\
             call_closure_one(((struct cell_obj *)((env)->v_k_0))->val,var_2);\
             } else {\
             OBJECT_STRING_OBJ_NEW(var_3,\"yes\");\
             call_closure_one(((struct cell_obj *)((env)->v_k_0))->val,var_3);\
             }0;\
             __builtin_unreachable();}",
            "void main_lambda(struct obj *input_obj, struct env_obj *input_env){\
             OBJECT_ENV_OBJ_NEW(var_5,struct env_0 );\
             OBJECT_CLOSURE_ONE_NEW(var_6,lambda_0,var_5);\
             OBJECT_CLOSURE_ONE_NEW(var_7,exit_k,NULL);\
             call_closure_one(var_6,var_7);\
             __builtin_unreachable();}",
        ]
    );
}

#[test]
fn a_let_bound_variable_lives_in_a_cell_and_set_stores_through_it() {
    let text = unit("(let ((x 1)) (set! x 2) x)");
    // One slot in the environment of the function that binds `x`, one in
    // that of the function that reads it after the assignment.
    assert_eq!(count(&text, "struct obj *v_x_0;"), 2);
    assert_eq!(count(&text, "((env)->v_x_0)=(var_"), 1);
    assert_eq!(count(&text, "(((struct cell_obj *)((env)->v_x_0))->val)=(var_"), 1);
    assert!(text.contains("OBJECT_INT_OBJ_NEW(var_"));
    let cell = text.find("((env)->v_x_0)=(var_").unwrap();
    let store = text.find("(((struct cell_obj *)((env)->v_x_0))->val)=(var_").unwrap();
    assert!(cell < store);
    let made = &text[..cell];
    assert!(made.ends_with(");"));
    assert!(made[made.rfind("OBJECT_").unwrap()..].starts_with("OBJECT_CELL_OBJ_NEW(var_"));
}

#[test]
fn a_function_passed_as_an_argument_is_lifted_and_captures_nothing() {
    let (root, table) = lifted("((lambda (f) (f 10)) (lambda (x) (+ x 1)))");
    assert_eq!(table.len(), 3);
    let applied = &table[0];
    assert_eq!(applied.params.len(), 2);
    assert_eq!(applied.params[0].pretty_name, "f");
    assert_eq!(*applied.body, LExpr::CallTwo(
        Box::new(LExpr::Var(applied.params[0].clone())),
        Box::new(LExpr::Lit(Literal::Int(10))),
        Box::new(LExpr::Var(applied.params[1].clone())),
    ));
    let rest = &table[1];
    assert_eq!(rest.params.len(), 1);
    assert_eq!(rest.params[0].pretty_name, "rv");
    let passed = &table[2];
    assert_eq!(passed.params.len(), 2);
    assert_eq!(passed.params[0].pretty_name, "x");
    for l in [applied, passed] {
        for v in &l.freevars {
            assert!(l.params.contains(v));
        }
    }
    assert_eq!(
        root,
        LExpr::CallTwo(
            Box::new(LExpr::Lifted(0)),
            Box::new(LExpr::Lifted(2)),
            Box::new(LExpr::BuiltinIdent("exit".to_string())),
        )
    );
    let text = unit("((lambda (f) (f 10)) (lambda (x) (+ x 1)))");
    let main = text.lines().last().unwrap();
    assert!(main.starts_with("void main_lambda("));
    assert_eq!(count(main, ")=((env)->"), 0);
    assert_eq!(count(main, "OBJECT_CLOSURE_TWO_NEW("), 2);
    assert_eq!(count(&text, "add_k"), 1);
}

#[test]
fn a_defined_function_is_reached_through_its_cell() {
    let text = unit("(define (fact n) (if (null? n) 1 (* n (fact (- n 1))))) (fact 5)");
    assert_eq!(count(&text, "(((struct cell_obj *)((env)->v_fact_0))->val)=("), 1);
    assert_eq!(count(&text, "((env)->v_fact_0)=(var_"), 1);
    assert!(count(&text, "((struct cell_obj *)((env)->v_fact_0))->val") >= 3);
    for runtime in ["is_null_k", "mul_k", "sub_k", "exit_k"] {
        assert_eq!(count(&text, runtime), 1, "{}", runtime);
    }
    assert!(text.contains("OBJECT_INT_OBJ_NEW(var_"));
    assert!(text.contains(",5);"));
}

#[test]
fn a_defined_function_is_declared_before_it_is_assigned() {
    let body = parse("(define (fact n) (if (null? n) 1 (* n (fact (- n 1))))) (fact 5)").unwrap();
    let wrapped = BExpr::App(Box::new(BExpr::Lam(vec![], body)), vec![]);
    let want = parse(
        "((lambda () ((lambda (fact) \
           (set! fact (lambda (n) (if (null? n) 1 (* n (fact (- n 1)))))) \
           (fact 5)) void)))",
    )
    .unwrap();
    assert_eq!(wrapped.lift_defines().remove_let(), *want.1);
}

#[test]
fn a_list_is_built_by_nested_calls_of_cons() {
    let text = unit("(cons 1 (cons 2 void))");
    assert_eq!(count(&text, ",cons_k,NULL);"), 2);
    assert_eq!(count(&text, "OBJECT_CLOSURE_TWO_NEW(var_"), 2);
    assert_eq!(count(&text, "OBJECT_CLOSURE_ONE_NEW(var_"), 4);
    assert!(text.contains(",1);"));
    assert!(text.contains(",2);"));
    assert!(text.contains(",NULL,"));
    let (root, table) = lifted("(cons 1 (cons 2 void))");
    assert_eq!(table.len(), 3);
    assert_eq!(
        root,
        LExpr::CallTwo(
            Box::new(LExpr::BuiltinIdent("cons".to_string())),
            Box::new(LExpr::Lit(Literal::Int(1))),
            Box::new(LExpr::Lifted(2)),
        )
    );
}

#[test]
fn an_unbound_identifier_stops_compilation() {
    assert_eq!(
        compile_source("(lambda (x) y)"),
        Err(CompileError::UnboundIdentifier("y".to_string()))
    );
}

#[test]
fn a_body_that_ends_in_a_definition_stops_compilation() {
    assert_eq!(compile_source("(let ((x 1)) (define x 2))"), Err(CompileError::IllFormedBody));
}

#[test]
fn an_unknown_builtin_stops_compilation() {
    let program = BExprBody(
        vec![],
        Box::new(BExpr::App(
            Box::new(BExpr::BuiltinIdent("unknown-builtin".to_string())),
            vec![BExpr::Lit(Literal::Int(1))],
        )),
    );
    assert_eq!(compile(program), Err(CompileError::UnknownBuiltin("unknown-builtin".to_string())));
}

#[test]
fn a_floating_point_literal_stops_compilation() {
    let program = BExprBody(vec![], Box::new(BExpr::Lit(Literal::Float(0))));
    assert_eq!(compile(program), Err(CompileError::UnsupportedLiteral));
}

#[test]
fn a_parse_error_stops_compilation() {
    assert_eq!(compile_source("(+ 1 2"), Err(CompileError::Parse(0)));
    assert_eq!(compile_source(""), Err(CompileError::Parse(0)));
}

#[test]
fn an_unbound_identifier_is_reported_before_an_unknown_builtin() {
    let program = BExprBody(
        vec![],
        Box::new(BExpr::App(
            Box::new(BExpr::BuiltinIdent("unknown-builtin".to_string())),
            vec![BExpr::Var("y".to_string())],
        )),
    );
    assert_eq!(compile(program), Err(CompileError::UnboundIdentifier("y".to_string())));
}

#[test]
fn a_program_of_one_expression_is_compiled_as_that_expression() {
    assert_eq!(lines("12"), vec![
        "void main_lambda(struct obj *input_obj, struct env_obj *input_env){\
         OBJECT_CLOSURE_ONE_NEW(var_0,exit_k,NULL);\
         OBJECT_INT_OBJ_NEW(var_1,12);\
         call_closure_one(var_0,var_1);\
         __builtin_unreachable();}"
    ]);
}

#[test]
fn a_program_of_several_items_is_the_body_of_a_function_called_at_once() {
    let several = compile_source("(display 1) 2").unwrap();
    let wrapped = compile_source("((lambda () (display 1) 2))").unwrap();
    assert_eq!(several, wrapped);
    let defined = compile_source("(define x 1) x").unwrap();
    let by_hand = compile_source("((lambda () (define x 1) x))").unwrap();
    assert_eq!(defined, by_hand);
}

#[test]
fn programs_that_differ_in_spelling_compile_alike_up_to_slot_names() {
    let a = unit("((lambda (x) (+ x 1)) 2)");
    let b = unit("((lambda (y) (+ y 1)) 2)");
    assert_ne!(a, b);
    assert_eq!(a.replace("v_x_", "v_y_"), b);
}
