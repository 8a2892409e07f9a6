use somescheme::names::FreeVar;
use somescheme::nodes::{ExprLit, LExpr};
use somescheme::error::CompileError;
use somescheme::transform::{
    cps_transform, cps_transform_cont, expand_lam_app, expand_lam_body, rename_builtins,
    transform_lits, TransformContext,
};

fn expand_app(e: LExpr, ctx: &mut TransformContext) -> LExpr {
    expand_lam_app(e, ctx).unwrap()
}

fn expand_body(e: LExpr, ctx: &mut TransformContext) -> LExpr {
    expand_lam_body(e, ctx).unwrap()
}

fn cps(e: LExpr, ctx: &mut TransformContext) -> LExpr {
    cps_transform(e, ctx).unwrap()
}

fn cps_cont(e: LExpr, k: LExpr, ctx: &mut TransformContext) -> LExpr {
    cps_transform_cont(e, k, ctx).unwrap()
}

fn var(n: &str) -> LExpr {
    LExpr::Var(n.to_string())
}

fn num(i: i64) -> LExpr {
    LExpr::Lit(ExprLit::NumLit(i))
}

fn names(list: &[&str]) -> Vec<String> {
    list.iter().map(|n| n.to_string()).collect()
}

fn lam(args: &[&str], body: Vec<LExpr>) -> LExpr {
    LExpr::Lam(names(args), body)
}

fn app(f: LExpr, args: Vec<LExpr>) -> LExpr {
    LExpr::App(Box::new(f), args)
}

fn app1(f: LExpr, a: LExpr) -> LExpr {
    LExpr::AppOne(Box::new(f), Box::new(a))
}

fn lam11(arg: &str, body: LExpr) -> LExpr {
    LExpr::LamOneOne(arg.to_string(), Box::new(body))
}

#[test]
fn a_new_supply_starts_at_zero() {
    let ctx = TransformContext::new();
    assert_eq!(ctx.drawn(), 0);
    assert!(!ctx.exhausted());
}

#[test]
fn names_carry_the_count_and_the_count_goes_up() {
    let mut ctx = TransformContext::new();
    assert_eq!(ctx.gen_ident("x"), "$anon_var_x_0");
    assert_eq!(ctx.gen_throwaway(), "$throwaway_var_1");
    assert_eq!(ctx.gen_cont(), var("$cont_var_2"));
    assert_eq!(ctx.gen_var("v"), var("$anon_var_v_3"));
    assert_eq!(ctx.gen_throwaway_var(), var("$throwaway_var_4"));
    let k = ctx.fresh_var("k");
    assert_eq!(k, FreeVar { pretty_name: "k".to_string(), unique_id: 5 });
    assert_eq!(k.pretty_name, "k");
    assert_eq!(ctx.gen_ident(""), "$anon_var__6");
    assert_eq!(ctx.drawn(), 7);
}

#[test]
fn a_supply_goes_on_where_it_is_told() {
    let mut ctx = TransformContext::starting_at(1000);
    assert_eq!(ctx.gen_ident("rv"), "$anon_var_rv_1000");
    assert_eq!(ctx.drawn(), 1001);
}

#[test]
fn the_supply_is_exhausted_at_the_largest_count() {
    let mut ctx = TransformContext::starting_at(u64::MAX - 1);
    assert!(!ctx.exhausted());
    assert_eq!(ctx.gen_throwaway(), "$throwaway_var_18446744073709551614");
    assert!(ctx.exhausted());
    assert_eq!(ctx.drawn(), u64::MAX);
    assert_eq!(ctx.gen_throwaway(), "$throwaway_var_18446744073709551615");
    assert_eq!(ctx.drawn(), u64::MAX);
    assert!(ctx.exhausted());
}

#[test]
fn arithmetic_operators_become_builtins() {
    let mut ctx = TransformContext::new();
    let e = lam(&["a"], vec![app(var("+"), vec![var("a"), app(var("-"), vec![var("*"), var("/")])])]);
    assert_eq!(
        rename_builtins(e, &mut ctx).to_text(),
        "(lambda (a) (object_int_obj_add a (object_int_obj_sub object_int_obj_mul object_int_obj_div)))"
    );
    assert_eq!(ctx.drawn(), 0);
}

#[test]
fn renaming_turns_variables_into_builtins() {
    let mut ctx = TransformContext::new();
    assert_eq!(
        rename_builtins(var("+"), &mut ctx),
        LExpr::BuiltinIdent("object_int_obj_add".to_string())
    );
    assert_eq!(rename_builtins(var("x"), &mut ctx), var("x"));
    assert_eq!(rename_builtins(var("++"), &mut ctx), var("++"));
    assert_eq!(rename_builtins(num(1), &mut ctx), num(1));
    assert_eq!(
        rename_builtins(LExpr::BuiltinIdent("+".to_string()), &mut ctx),
        LExpr::BuiltinIdent("+".to_string())
    );
}

#[test]
fn renaming_does_not_look_into_a_builtin_application() {
    let mut ctx = TransformContext::new();
    let e = LExpr::BuiltinApp("p".to_string(), Box::new(var("+")));
    assert_eq!(rename_builtins(e, &mut ctx), LExpr::BuiltinApp("p".to_string(), Box::new(var("+"))));
}

#[test]
fn literals_become_calls_of_their_constructors() {
    let mut ctx = TransformContext::new();
    assert_eq!(
        transform_lits(num(12), &mut ctx),
        LExpr::BuiltinApp("object_int_obj_new".to_string(), Box::new(num(12)))
    );
    assert_eq!(
        transform_lits(LExpr::Lit(ExprLit::StringLit("s".to_string())), &mut ctx),
        LExpr::BuiltinApp(
            "object_str_obj_new".to_string(),
            Box::new(LExpr::Lit(ExprLit::StringLit("s".to_string())))
        )
    );
    assert_eq!(
        transform_lits(LExpr::Lit(ExprLit::Void), &mut ctx),
        app(LExpr::BuiltinIdent("object_void_obj_new".to_string()), vec![])
    );
    assert_eq!(ctx.drawn(), 0);
}

#[test]
fn literals_are_replaced_inside_functions_and_calls() {
    let mut ctx = TransformContext::new();
    let e = lam(&["f"], vec![app(var("f"), vec![num(1), LExpr::Lit(ExprLit::Void)]), num(2)]);
    assert_eq!(
        transform_lits(e, &mut ctx).to_text(),
        "(lambda (f) (f (object_int_obj_new 1) (object_void_obj_new)) (object_int_obj_new 2))"
    );
    assert_eq!(transform_lits(var("x"), &mut ctx), var("x"));
}

#[test]
fn several_parameters_become_nested_functions_of_one() {
    let mut ctx = TransformContext::new();
    let e = lam(&["a", "b", "c"], vec![var("x"), var("y")]);
    assert_eq!(
        expand_app(e, &mut ctx),
        LExpr::LamOne(
            "a".to_string(),
            vec![LExpr::LamOne(
                "b".to_string(),
                vec![LExpr::LamOne("c".to_string(), vec![var("x"), var("y")])]
            )]
        )
    );
    assert_eq!(ctx.drawn(), 0);
    assert_eq!(
        expand_app(lam(&["a"], vec![var("a")]), &mut ctx),
        LExpr::LamOne("a".to_string(), vec![var("a")])
    );
}

#[test]
fn a_function_without_parameters_gets_a_throwaway_one() {
    let mut ctx = TransformContext::new();
    assert_eq!(
        expand_app(lam(&[], vec![var("x")]), &mut ctx),
        LExpr::LamOne("$throwaway_var_0".to_string(), vec![var("x")])
    );
    assert_eq!(ctx.drawn(), 1);
}

#[test]
fn inner_functions_draw_their_names_first() {
    let mut ctx = TransformContext::new();
    let e = lam(&[], vec![lam(&[], vec![]), lam(&[], vec![])]);
    assert_eq!(
        expand_app(e, &mut ctx).to_text(),
        "(lambda ($throwaway_var_2) (lambda ($throwaway_var_0)) (lambda ($throwaway_var_1)))"
    );
    assert_eq!(ctx.drawn(), 3);
}

#[test]
fn several_arguments_become_nested_calls_of_one() {
    let mut ctx = TransformContext::new();
    assert_eq!(
        expand_app(app(var("f"), vec![var("a"), var("b"), var("c")]), &mut ctx),
        app1(app1(app1(var("f"), var("a")), var("b")), var("c"))
    );
    assert_eq!(
        expand_app(app(var("f"), vec![]), &mut ctx),
        app1(var("f"), LExpr::Lit(ExprLit::Void))
    );
    assert_eq!(
        expand_app(app(app(var("f"), vec![var("a")]), vec![app(var("g"), vec![])]), &mut ctx)
            .to_text(),
        "((f a) (g NULL))"
    );
}

#[test]
fn the_operator_draws_its_names_before_the_operands() {
    let mut ctx = TransformContext::new();
    let e = app(lam(&[], vec![]), vec![lam(&[], vec![]), lam(&[], vec![])]);
    assert_eq!(
        expand_app(e, &mut ctx).to_text(),
        "(((lambda ($throwaway_var_0)) (lambda ($throwaway_var_1))) (lambda ($throwaway_var_2)))"
    );
}

#[test]
fn a_body_of_several_expressions_becomes_one() {
    let mut ctx = TransformContext::new();
    let e = LExpr::LamOne("x".to_string(), vec![var("a"), var("b"), var("c")]);
    assert_eq!(
        expand_body(e, &mut ctx).to_text(),
        "(lambda (x) ((lambda ($anon_var_lam_expand_1) ((lambda ($anon_var_lam_expand_0) c) b)) a))"
    );
    assert_eq!(ctx.drawn(), 2);
}

#[test]
fn a_body_of_one_expression_stays() {
    let mut ctx = TransformContext::new();
    assert_eq!(
        expand_body(LExpr::LamOne("x".to_string(), vec![var("a")]), &mut ctx),
        lam11("x", var("a"))
    );
    assert_eq!(ctx.drawn(), 0);
}

#[test]
fn an_empty_body_becomes_a_function_that_gives_void() {
    let mut ctx = TransformContext::new();
    assert_eq!(
        expand_body(LExpr::LamOne("x".to_string(), vec![]), &mut ctx).to_text(),
        "(lambda (x) (lambda (x) NULL))"
    );
}

#[test]
fn bodies_are_brought_to_one_expression_from_the_last_to_the_first() {
    let mut ctx = TransformContext::new();
    let inner = |n: &str| LExpr::LamOne(n.to_string(), vec![var("p"), var("q")]);
    let e = LExpr::LamOne("x".to_string(), vec![inner("first"), inner("second")]);
    assert_eq!(
        expand_body(e, &mut ctx).to_text(),
        "(lambda (x) ((lambda ($anon_var_lam_expand_2) \
         (lambda (second) ((lambda ($anon_var_lam_expand_0) q) p))) \
         (lambda (first) ((lambda ($anon_var_lam_expand_1) q) p))))"
    );
    assert_eq!(ctx.drawn(), 3);
}

#[test]
fn calls_of_one_argument_are_looked_into() {
    let mut ctx = TransformContext::new();
    let e = app1(
        LExpr::LamOne("f".to_string(), vec![var("a"), var("b")]),
        LExpr::LamOne("g".to_string(), vec![var("c"), var("d")]),
    );
    assert_eq!(
        expand_body(e, &mut ctx).to_text(),
        "((lambda (f) ((lambda ($anon_var_lam_expand_0) b) a)) \
         (lambda (g) ((lambda ($anon_var_lam_expand_1) d) c)))"
    );
    assert_eq!(expand_body(var("x"), &mut ctx), var("x"));
    assert_eq!(expand_body(lam(&["a"], vec![]), &mut ctx), lam(&["a"], vec![]));
}

#[test]
fn a_single_function_gets_a_continuation_name() {
    let mut ctx = TransformContext::new();
    assert_eq!(
        cps(lam11("x", var("x")), &mut ctx).to_text(),
        "(lambda (x $anon_var_cont_var_0) \
         ((lambda ($anon_var_rv_var_1) ($anon_var_cont_var_0 $anon_var_rv_var_1)) x))"
    );
    assert_eq!(ctx.drawn(), 2);
}

#[test]
fn what_is_no_function_stays() {
    let mut ctx = TransformContext::new();
    assert_eq!(cps(var("x"), &mut ctx), var("x"));
    assert_eq!(cps(num(1), &mut ctx), num(1));
    assert_eq!(cps(app1(var("f"), var("x")), &mut ctx), app1(var("f"), var("x")));
    assert_eq!(ctx.drawn(), 0);
}

#[test]
fn a_value_is_handed_to_the_continuation() {
    let mut ctx = TransformContext::new();
    assert_eq!(cps_cont(var("x"), var("k"), &mut ctx), app1(var("k"), var("x")));
    assert_eq!(
        cps_cont(LExpr::BuiltinIdent("b".to_string()), var("k"), &mut ctx),
        app1(var("k"), LExpr::BuiltinIdent("b".to_string()))
    );
    assert_eq!(ctx.drawn(), 0);
}

#[test]
fn a_literal_and_a_call_with_a_continuation_stay() {
    let mut ctx = TransformContext::new();
    assert_eq!(cps_cont(num(1), var("k"), &mut ctx), num(1));
    let call = || LExpr::AppOneCont(Box::new(var("f")), Box::new(var("x")), Box::new(var("c")));
    assert_eq!(cps_cont(call(), var("k"), &mut ctx), call());
}

#[test]
fn a_call_names_its_operator_its_operand_and_its_result() {
    let mut ctx = TransformContext::new();
    assert_eq!(
        cps_cont(app1(var("f"), var("a")), var("k"), &mut ctx).to_text(),
        "((lambda ($anon_var_operator_var_0) \
         ((lambda ($anon_var_operand_var_1) \
         ($anon_var_operator_var_0 $anon_var_operand_var_1 \
         (lambda ($anon_var_rv_2) (k $anon_var_rv_2)))) a)) f)"
    );
    assert_eq!(ctx.drawn(), 3);
}

#[test]
fn the_operand_draws_its_names_before_the_operator() {
    let mut ctx = TransformContext::new();
    let e = app1(lam11("p", var("p")), lam11("q", var("q")));
    let text = cps_cont(e, var("k"), &mut ctx).to_text();
    assert_eq!(
        text,
        "((lambda ($anon_var_operator_var_0) \
         ((lambda ($anon_var_operand_var_1) \
         ($anon_var_operator_var_0 $anon_var_operand_var_1 \
         (lambda ($anon_var_rv_2) (k $anon_var_rv_2)))) \
         (lambda (q $anon_var_cont_var_3) \
         ((lambda ($anon_var_rv_var_4) ($anon_var_cont_var_3 $anon_var_rv_var_4)) q)))) \
         (lambda (p $anon_var_cont_var_5) \
         ((lambda ($anon_var_rv_var_6) ($anon_var_cont_var_5 $anon_var_rv_var_6)) p)))"
    );
    assert_eq!(ctx.drawn(), 7);
}

#[test]
fn a_step_that_finds_the_supply_exhausted_reports_it() {
    let mut ctx = TransformContext::starting_at(u64::MAX - 1);
    assert_eq!(expand_lam_app(lam(&[], vec![]), &mut ctx), Err(CompileError::NamesExhausted));
    let mut ctx = TransformContext::starting_at(u64::MAX - 1);
    assert_eq!(
        expand_lam_body(LExpr::LamOne("x".to_string(), vec![var("a"), var("b")]), &mut ctx),
        Err(CompileError::NamesExhausted)
    );
    let mut ctx = TransformContext::starting_at(u64::MAX - 2);
    assert_eq!(cps_transform(lam11("x", var("x")), &mut ctx), Err(CompileError::NamesExhausted));
    let mut ctx = TransformContext::starting_at(u64::MAX - 3);
    assert_eq!(
        cps_transform_cont(app1(var("f"), var("a")), var("k"), &mut ctx),
        Err(CompileError::NamesExhausted)
    );
}

#[test]
fn a_step_that_draws_nothing_does_not_mind_an_exhausted_supply() {
    let mut ctx = TransformContext::starting_at(u64::MAX - 1);
    assert_eq!(expand_lam_app(var("x"), &mut ctx), Ok(var("x")));
    assert_eq!(expand_lam_body(var("x"), &mut ctx), Ok(var("x")));
    assert_eq!(cps_transform(var("x"), &mut ctx), Ok(var("x")));
    assert_eq!(cps_transform_cont(var("x"), var("k"), &mut ctx), Ok(app1(var("k"), var("x"))));
}

#[test]
fn the_last_name_that_fits_is_drawn() {
    let mut ctx = TransformContext::starting_at(u64::MAX - 2);
    assert_eq!(
        expand_lam_app(lam(&[], vec![var("x")]), &mut ctx),
        Ok(LExpr::LamOne("$throwaway_var_18446744073709551613".to_string(), vec![var("x")]))
    );
    assert!(!ctx.exhausted());
}
