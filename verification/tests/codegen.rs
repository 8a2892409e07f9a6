use somescheme::cdsl::{CDecl, CStmt, CType, ToC};
use somescheme::codegen::{do_codegen, name_for_free_var, object_type, CodegenCtx};
use somescheme::error::CompileError;
use somescheme::lifted_expr::{LExpr, LiftedLambda};
use somescheme::literals::Literal;
use somescheme::names::FreeVar;
use somescheme::program::{generate_program_source, render_unit};
use std::collections::HashMap;

fn fv(name: &str, id: u64) -> FreeVar {
    FreeVar { pretty_name: name.to_string(), unique_id: id }
}

fn var(name: &str, id: u64) -> Box<LExpr> {
    Box::new(LExpr::Var(fv(name, id)))
}

fn num(i: i64) -> Box<LExpr> {
    Box::new(LExpr::Lit(Literal::Int(i)))
}

fn text(s: &str) -> Box<LExpr> {
    Box::new(LExpr::Lit(Literal::String(s.to_string())))
}

fn void() -> Box<LExpr> {
    Box::new(LExpr::Lit(Literal::Void))
}

fn builtin(name: &str) -> Box<LExpr> {
    Box::new(LExpr::BuiltinIdent(name.to_string()))
}

/// The functions `list`, each under its identifier.
fn keyed(list: Vec<LiftedLambda>) -> HashMap<usize, LiftedLambda> {
    list.into_iter().map(|l| (l.id, l)).collect()
}

fn statements(root: LExpr, table: &HashMap<usize, LiftedLambda>) -> String {
    let (stmts, _, _) = do_codegen(root, table).unwrap();
    stmts.iter().map(|s| s.export()).collect::<Vec<String>>().concat()
}

fn declarations(list: &[CDecl]) -> Vec<String> {
    list.iter().map(|d| d.export()).collect()
}

#[test]
fn the_slot_of_a_variable_is_named_by_its_letters_digits_and_identifier() {
    assert_eq!(name_for_free_var(&fv("x", 0)), "v_x_0");
    assert_eq!(name_for_free_var(&fv("null?", 3)), "v_null_3");
    assert_eq!(name_for_free_var(&fv("_unused", 12)), "v_unused_12");
    assert_eq!(name_for_free_var(&fv("a-b_c1", 40)), "v_abc1_40");
    assert_eq!(name_for_free_var(&fv("", 5)), "v__5");
    assert_eq!(name_for_free_var(&fv("+", u64::MAX)), "v__18446744073709551615");
}

#[test]
fn every_value_is_a_pointer_to_an_object() {
    assert_eq!(object_type(), CType::Ptr(Box::new(CType::Struct("obj".to_string()))));
}

#[test]
fn a_new_context_has_drawn_nothing() {
    let table = HashMap::new();
    let ctx = CodegenCtx::new(&table);
    assert!(!ctx.exhausted());
}

#[test]
fn a_call_of_a_continuation_with_a_number() {
    let root = LExpr::CallOne(builtin("exit"), num(3));
    assert_eq!(
        statements(root, &HashMap::new()),
        "OBJECT_CLOSURE_ONE_NEW(var_0,exit_k,NULL);\
         OBJECT_INT_OBJ_NEW(var_1,3);\
         call_closure_one(var_0,var_1);"
    );
}

#[test]
fn a_program_without_functions_declares_nothing() {
    let (_, protos, decls) = do_codegen(LExpr::CallOne(builtin("exit"), num(3)), &HashMap::new()).unwrap();
    assert_eq!(protos, vec![]);
    assert_eq!(decls, vec![]);
}

#[test]
fn literals_are_made_by_their_macros() {
    assert_eq!(
        statements(LExpr::CallTwo(builtin("display"), text("hi"), void()), &HashMap::new()),
        "OBJECT_CLOSURE_TWO_NEW(var_0,display_k,NULL);\
         OBJECT_STRING_OBJ_NEW(var_1,\"hi\");\
         call_closure_two(var_0,var_1,NULL);"
    );
    assert_eq!(
        statements(LExpr::CallOne(num(-5), num(i64::MAX)), &HashMap::new()),
        "OBJECT_INT_OBJ_NEW(var_0,-5);\
         OBJECT_INT_OBJ_NEW(var_1,9223372036854775807);\
         call_closure_one(var_0,var_1);"
    );
}

#[test]
fn every_builtin_has_its_runtime_function() {
    let catalogue = [
        ("tostring", "TWO", "to_string_k"),
        ("display", "TWO", "display_k"),
        ("exit", "ONE", "exit_k"),
        ("+", "TWO", "add_k"),
        ("-", "TWO", "sub_k"),
        ("*", "TWO", "mul_k"),
        ("/", "TWO", "div_k"),
        ("^", "TWO", "xor_k"),
        ("cons", "TWO", "cons_k"),
        ("cons?", "TWO", "is_cons_k"),
        ("null?", "TWO", "is_null_k"),
        ("car", "TWO", "car_k"),
        ("cdr", "TWO", "cdr_k"),
        ("string-concat", "TWO", "string_concat_k"),
    ];
    for (name, arity, target) in catalogue {
        assert_eq!(
            statements(LExpr::CallOne(builtin(name), void()), &HashMap::new()),
            format!("OBJECT_CLOSURE_{}_NEW(var_0,{},NULL);call_closure_one(var_0,NULL);", arity, target)
        );
    }
}

#[test]
fn an_unknown_builtin_is_reported() {
    assert_eq!(
        do_codegen(LExpr::CallOne(builtin("frobnicate"), num(1)), &HashMap::new()),
        Err(CompileError::UnknownBuiltin("frobnicate".to_string()))
    );
    assert_eq!(
        do_codegen(LExpr::CallOne(builtin("Exit"), num(1)), &HashMap::new()),
        Err(CompileError::UnknownBuiltin("Exit".to_string()))
    );
    assert_eq!(
        do_codegen(LExpr::CallOne(builtin(""), num(1)), &HashMap::new()),
        Err(CompileError::UnknownBuiltin(String::new()))
    );
}

#[test]
fn a_floating_point_literal_is_reported() {
    let root = LExpr::CallOne(builtin("exit"), Box::new(LExpr::Lit(Literal::Float(0x3ff0000000000000))));
    assert_eq!(do_codegen(root, &HashMap::new()), Err(CompileError::UnsupportedLiteral));
}

#[test]
fn the_first_fault_in_the_order_of_emission_is_reported() {
    let root = LExpr::CallTwo(builtin("first"), builtin("second"), builtin("third"));
    assert_eq!(do_codegen(root, &HashMap::new()), Err(CompileError::UnknownBuiltin("first".to_string())));
    let root = LExpr::If(
        Box::new(LExpr::Lit(Literal::Float(0))),
        Box::new(LExpr::CallOne(builtin("a"), void())),
        Box::new(LExpr::CallOne(builtin("b"), void())),
    );
    assert_eq!(do_codegen(root, &HashMap::new()), Err(CompileError::UnknownBuiltin("a".to_string())));
    let root = LExpr::If(
        Box::new(LExpr::Lit(Literal::Float(0))),
        Box::new(LExpr::CallOne(builtin("exit"), void())),
        Box::new(LExpr::CallOne(builtin("b"), void())),
    );
    assert_eq!(do_codegen(root, &HashMap::new()), Err(CompileError::UnknownBuiltin("b".to_string())));
    let root = LExpr::If(
        Box::new(LExpr::Lit(Literal::Float(0))),
        Box::new(LExpr::CallOne(builtin("exit"), void())),
        Box::new(LExpr::CallOne(builtin("exit"), void())),
    );
    assert_eq!(do_codegen(root, &HashMap::new()), Err(CompileError::UnsupportedLiteral));
    let root = LExpr::If(
        void(),
        Box::new(LExpr::CallOne(builtin("exit"), builtin("a"))),
        Box::new(LExpr::CallOne(builtin("b"), void())),
    );
    assert_eq!(do_codegen(root, &HashMap::new()), Err(CompileError::UnknownBuiltin("a".to_string())));
    let root = LExpr::SetThen(fv("x", 1), builtin("late"), Box::new(LExpr::CallOne(builtin("later"), void())));
    assert_eq!(do_codegen(root, &HashMap::new()), Err(CompileError::UnknownBuiltin("late".to_string())));
}

#[test]
fn a_fault_in_a_function_comes_before_one_in_the_root() {
    let table = vec![
        LiftedLambda::new(0, vec![fv("a", 1)], vec![], Box::new(LExpr::CallOne(builtin("exit"), void()))),
        LiftedLambda::new(1, vec![fv("b", 2)], vec![], Box::new(LExpr::CallOne(builtin("inner"), void()))),
    ];
    let root = LExpr::CallOne(builtin("outer"), Box::new(LExpr::Lifted(1)));
    assert_eq!(do_codegen(root, &keyed(table)), Err(CompileError::UnknownBuiltin("inner".to_string())));
}

#[test]
fn a_variable_is_read_through_its_cell() {
    let root = LExpr::CallOne(var("k", 2), var("x", 7));
    assert_eq!(
        statements(root, &HashMap::new()),
        "call_closure_one(((struct cell_obj *)((env)->v_k_2))->val,\
         ((struct cell_obj *)((env)->v_x_7))->val);"
    );
}

#[test]
fn an_assignment_stores_through_the_cell() {
    let root = LExpr::SetThen(fv("x", 7), num(2), Box::new(LExpr::CallOne(builtin("exit"), var("x", 7))));
    assert_eq!(
        statements(root, &HashMap::new()),
        "OBJECT_INT_OBJ_NEW(var_0,2);\
         (((struct cell_obj *)((env)->v_x_7))->val)=(var_0);\
         OBJECT_CLOSURE_ONE_NEW(var_1,exit_k,NULL);\
         call_closure_one(var_1,((struct cell_obj *)((env)->v_x_7))->val);"
    );
}

#[test]
fn a_conditional_emits_its_condition_and_then_both_branches() {
    let root = LExpr::If(
        num(0),
        Box::new(LExpr::CallOne(builtin("exit"), text("no"))),
        Box::new(LExpr::CallOne(builtin("exit"), text("yes"))),
    );
    assert_eq!(
        statements(root, &HashMap::new()),
        "OBJECT_INT_OBJ_NEW(var_4,0);\
         if (obj_is_truthy(var_4)){\
         OBJECT_CLOSURE_ONE_NEW(var_0,exit_k,NULL);\
         OBJECT_STRING_OBJ_NEW(var_1,\"no\");\
         call_closure_one(var_0,var_1);\
         } else {\
         OBJECT_CLOSURE_ONE_NEW(var_2,exit_k,NULL);\
         OBJECT_STRING_OBJ_NEW(var_3,\"yes\");\
         call_closure_one(var_2,var_3);\
         }0;"
    );
}

#[test]
fn a_conditional_numbers_its_branches_before_its_condition() {
    let root = LExpr::If(
        num(0),
        Box::new(LExpr::CallOne(builtin("exit"), text("no"))),
        Box::new(LExpr::CallOne(builtin("exit"), text("yes"))),
    );
    let (stmts, _, _) = do_codegen(root, &HashMap::new()).unwrap();
    assert_eq!(stmts.len(), 3);
    assert_eq!(stmts[0].export(), "OBJECT_INT_OBJ_NEW(var_4,0);");
    assert_eq!(
        stmts[1].export(),
        "if (obj_is_truthy(var_4)){\
         OBJECT_CLOSURE_ONE_NEW(var_0,exit_k,NULL);\
         OBJECT_STRING_OBJ_NEW(var_1,\"no\");\
         call_closure_one(var_0,var_1);\
         } else {\
         OBJECT_CLOSURE_ONE_NEW(var_2,exit_k,NULL);\
         OBJECT_STRING_OBJ_NEW(var_3,\"yes\");\
         call_closure_one(var_2,var_3);\
         }"
    );
}

#[test]
fn a_closure_copies_the_free_variables_that_are_not_its_parameters() {
    let table = vec![LiftedLambda::new(
        0,
        vec![fv("p", 1)],
        vec![fv("a", 2), fv("p", 1), fv("b", 3)],
        Box::new(LExpr::CallOne(var("a", 2), var("p", 1))),
    )];
    let root = LExpr::CallOne(Box::new(LExpr::Lifted(0)), void());
    let (stmts, protos, decls) = do_codegen(root, &keyed(table)).unwrap();
    assert_eq!(
        declarations(&protos),
        vec![
            "struct env_0 {struct obj *v_a_2;struct obj *v_p_1;struct obj *v_b_3;};",
            "void lambda_0(struct obj *, struct env_obj *)__attribute__((noreturn)) ;",
        ]
    );
    assert_eq!(
        declarations(&decls),
        vec![
            "void lambda_0(struct obj *var_0, struct env_obj *env_in){\
             struct env_0 *env = (struct env_0 *)(&((env_in)->env));\
             OBJECT_CELL_OBJ_NEW(var_1,var_0);\
             ((env)->v_p_1)=(var_1);\
             call_closure_one(((struct cell_obj *)((env)->v_a_2))->val,\
             ((struct cell_obj *)((env)->v_p_1))->val);\
             __builtin_unreachable();}"
        ]
    );
    assert_eq!(
        stmts.iter().map(|s| s.export()).collect::<Vec<String>>(),
        vec![
            "OBJECT_ENV_OBJ_NEW(var_2,struct env_0 );",
            "(((struct env_0 *)(&((var_2)->env)))->v_a_2)=((env)->v_a_2);",
            "(((struct env_0 *)(&((var_2)->env)))->v_b_3)=((env)->v_b_3);",
            "OBJECT_CLOSURE_ONE_NEW(var_3,lambda_0,var_2);",
            "call_closure_one(var_3,NULL);",
        ]
    );
}

#[test]
fn a_parameter_that_the_body_does_not_use_gets_no_cell() {
    let table = vec![LiftedLambda::new(
        0,
        vec![fv("x", 1), fv("k", 2)],
        vec![fv("k", 2)],
        Box::new(LExpr::CallOne(var("k", 2), num(1))),
    )];
    let root = LExpr::CallTwo(Box::new(LExpr::Lifted(0)), void(), builtin("exit"));
    let (stmts, protos, decls) = do_codegen(root, &keyed(table)).unwrap();
    assert_eq!(
        declarations(&protos),
        vec![
            "struct env_0 {struct obj *v_k_2;};",
            "void lambda_0(struct obj *, struct obj *, struct env_obj *)__attribute__((noreturn)) ;",
        ]
    );
    assert_eq!(
        declarations(&decls),
        vec![
            "void lambda_0(struct obj *var_0, struct obj *var_1, struct env_obj *env_in){\
             struct env_0 *env = (struct env_0 *)(&((env_in)->env));\
             OBJECT_CELL_OBJ_NEW(var_2,var_1);\
             ((env)->v_k_2)=(var_2);\
             OBJECT_INT_OBJ_NEW(var_3,1);\
             call_closure_one(((struct cell_obj *)((env)->v_k_2))->val,var_3);\
             __builtin_unreachable();}"
        ]
    );
    assert_eq!(
        stmts.iter().map(|s| s.export()).collect::<Vec<String>>().concat(),
        "OBJECT_ENV_OBJ_NEW(var_4,struct env_0 );\
         OBJECT_CLOSURE_TWO_NEW(var_5,lambda_0,var_4);\
         OBJECT_CLOSURE_ONE_NEW(var_6,exit_k,NULL);\
         call_closure_two(var_5,NULL,var_6);"
    );
}

#[test]
fn structs_come_before_prototypes_and_functions_in_the_order_of_their_identifiers() {
    let body = || Box::new(LExpr::CallOne(builtin("exit"), void()));
    let table = vec![
        LiftedLambda::new(0, vec![fv("a", 1)], vec![], body()),
        LiftedLambda::new(1, vec![fv("b", 2), fv("k", 3)], vec![], body()),
        LiftedLambda::new(2, vec![fv("c", 4)], vec![], Box::new(LExpr::CallOne(Box::new(LExpr::Lifted(1)), Box::new(LExpr::Lifted(0))))),
    ];
    let (_, protos, decls) = do_codegen(LExpr::CallOne(Box::new(LExpr::Lifted(2)), void()), &keyed(table)).unwrap();
    assert_eq!(
        declarations(&protos),
        vec![
            "struct env_0 {};",
            "struct env_1 {};",
            "struct env_2 {};",
            "void lambda_0(struct obj *, struct env_obj *)__attribute__((noreturn)) ;",
            "void lambda_1(struct obj *, struct obj *, struct env_obj *)__attribute__((noreturn)) ;",
            "void lambda_2(struct obj *, struct env_obj *)__attribute__((noreturn)) ;",
        ]
    );
    let names: Vec<String> = decls
        .iter()
        .map(|d| match d {
            CDecl::Fun { name, .. } => name.clone(),
            other => panic!("{:?}", other),
        })
        .collect();
    assert_eq!(names, vec!["lambda_0", "lambda_1", "lambda_2"]);
}

#[test]
fn every_function_body_ends_in_a_call_and_the_mark_of_no_return() {
    let table = vec![LiftedLambda::new(
        0,
        vec![fv("x", 1)],
        vec![fv("x", 1)],
        Box::new(LExpr::CallOne(builtin("exit"), var("x", 1))),
    )];
    let (_, _, decls) = do_codegen(LExpr::CallOne(Box::new(LExpr::Lifted(0)), void()), &keyed(table)).unwrap();
    match &decls[0] {
        CDecl::Fun { body, .. } => {
            let n = body.len();
            assert_eq!(body[n - 1].export(), "__builtin_unreachable();");
            assert!(body[n - 2].export().starts_with("call_closure_one("));
            assert!(matches!(body[0], CStmt::Decl(_)));
        }
        other => panic!("{:?}", other),
    }
}

#[test]
fn the_unit_holds_the_declarations_and_the_root_function_line_by_line() {
    let (stmts, protos, decls) = do_codegen(LExpr::CallOne(builtin("exit"), num(3)), &HashMap::new()).unwrap();
    assert_eq!(
        render_unit(stmts, &protos, &decls),
        "void main_lambda(struct obj *input_obj, struct env_obj *input_env){\
         OBJECT_CLOSURE_ONE_NEW(var_0,exit_k,NULL);\
         OBJECT_INT_OBJ_NEW(var_1,3);\
         call_closure_one(var_0,var_1);\
         __builtin_unreachable();}\n"
    );
}

#[test]
fn the_unit_keeps_the_order_of_the_declarations() {
    let protos = vec![
        CDecl::Struct { name: "env_0".to_string(), members: vec![] },
        CDecl::FunProto { name: "f".to_string(), typ: CType::Void, args: vec![], noreturn: false },
    ];
    let decls = vec![CDecl::Fun { name: "f".to_string(), typ: CType::Void, args: vec![], body: vec![] }];
    assert_eq!(
        render_unit(vec![], &protos, &decls),
        "struct env_0 {};\nvoid f();\nvoid f(){}\n\
         void main_lambda(struct obj *input_obj, struct env_obj *input_env){__builtin_unreachable();}\n"
    );
}

#[test]
fn the_program_source_wraps_the_unit_in_headers_and_entry_point() {
    let src = generate_program_source("UNIT\n");
    assert_eq!(
        src,
        "\n#include <stdlib.h>\n#include <string.h>\n#include \"base.h\"\n#include \"builtin.h\"\n\
         UNIT\n\
         \nint main() {\n  struct closure_obj initial_closure = object_closure_one_new(main_lambda, NULL);\n  \
         struct thunk initial_thunk = {\n    .closr = &initial_closure,\n    .one = {NULL},\n  };\n\n  \
         struct thunk *thnk_heap = malloc(sizeof(struct thunk));\n  \
         memcpy(thnk_heap, &initial_thunk, sizeof(struct thunk));\n  scheme_start(thnk_heap);\n}\n"
    );
    assert!(generate_program_source("").ends_with("scheme_start(thnk_heap);\n}\n"));
}

#[test]
fn a_function_may_refer_to_one_that_stands_after_it() {
    let table = vec![
        LiftedLambda::new(
            0,
            vec![fv("a", 1)],
            vec![],
            Box::new(LExpr::CallOne(Box::new(LExpr::Lifted(1)), void())),
        ),
        LiftedLambda::new(1, vec![fv("b", 2)], vec![], Box::new(LExpr::CallOne(builtin("exit"), void()))),
    ];
    let root = LExpr::CallOne(Box::new(LExpr::Lifted(0)), void());
    let (stmts, protos, decls) = do_codegen(root, &keyed(table)).unwrap();
    assert_eq!(protos.len(), 4);
    assert_eq!(
        declarations(&decls),
        vec![
            "void lambda_0(struct obj *var_0, struct env_obj *env_in){\
             struct env_0 *env = (struct env_0 *)(&((env_in)->env));\
             OBJECT_ENV_OBJ_NEW(var_1,struct env_1 );\
             OBJECT_CLOSURE_ONE_NEW(var_2,lambda_1,var_1);\
             call_closure_one(var_2,NULL);\
             __builtin_unreachable();}",
            "void lambda_1(struct obj *var_3, struct env_obj *env_in){\
             struct env_1 *env = (struct env_1 *)(&((env_in)->env));\
             OBJECT_CLOSURE_ONE_NEW(var_4,exit_k,NULL);\
             call_closure_one(var_4,NULL);\
             __builtin_unreachable();}",
        ]
    );
    assert_eq!(
        stmts.iter().map(|s| s.export()).collect::<Vec<String>>().concat(),
        "OBJECT_ENV_OBJ_NEW(var_5,struct env_0 );\
         OBJECT_CLOSURE_ONE_NEW(var_6,lambda_0,var_5);\
         call_closure_one(var_6,NULL);"
    );
}
