use somescheme::nodes::{Env, ExprLit, LExEnv, LExpr, LamType};

fn var(n: &str) -> LExpr {
    LExpr::Var(n.to_string())
}

fn names(list: &[&str]) -> Vec<String> {
    list.iter().map(|n| n.to_string()).collect()
}

fn env(list: &[(&str, usize)]) -> Env {
    Env(list.iter().map(|(n, v)| (n.to_string(), *v)).collect())
}

fn bindings(list: &[(&str, usize)]) -> Vec<(String, usize)> {
    list.iter().map(|(n, v)| (n.to_string(), *v)).collect()
}

#[test]
fn literals_as_text() {
    assert_eq!(ExprLit::StringLit("yes".to_string()).to_text(), "\"yes\"");
    assert_eq!(ExprLit::NumLit(12).to_text(), "12");
    assert_eq!(ExprLit::NumLit(-3).to_text(), "-3");
    assert_eq!(ExprLit::Void.to_text(), "NULL");
}

#[test]
fn parameters_are_joined_by_spaces() {
    assert_eq!(LExpr::Lam(names(&["a", "b", "c"]), vec![]).to_text(), "(lambda (a b c))");
    assert_eq!(LExpr::Lam(names(&["only"]), vec![]).to_text(), "(lambda (only))");
    assert_eq!(LExpr::Lam(names(&[]), vec![]).to_text(), "(lambda ())");
    assert_eq!(LExpr::Lam(names(&["a", "", "b"]), vec![]).to_text(), "(lambda (a  b))");
}

#[test]
fn functions_and_calls_of_any_arity_as_text() {
    assert_eq!(
        LExpr::Lam(names(&["a", "b"]), vec![var("a"), var("b")]).to_text(),
        "(lambda (a b) a b)"
    );
    assert_eq!(
        LExpr::App(Box::new(var("f")), vec![LExpr::Lit(ExprLit::NumLit(1)), var("x")]).to_text(),
        "(f 1 x)"
    );
    assert_eq!(LExpr::App(Box::new(var("f")), vec![]).to_text(), "(f)");
}

#[test]
fn atoms_as_text() {
    assert_eq!(var("x").to_text(), "x");
    assert_eq!(LExpr::BuiltinIdent("object_int_obj_add".to_string()).to_text(), "object_int_obj_add");
    assert_eq!(LExpr::Lit(ExprLit::StringLit("s".to_string())).to_text(), "\"s\"");
}

#[test]
fn single_forms_as_text() {
    assert_eq!(
        LExpr::BuiltinApp("object_int_obj_new".to_string(), Box::new(LExpr::Lit(ExprLit::NumLit(12))))
            .to_text(),
        "(object_int_obj_new 12)"
    );
    assert_eq!(LExpr::LamOneOne("x".to_string(), Box::new(var("x"))).to_text(), "(lambda (x) x)");
    assert_eq!(LExpr::AppOne(Box::new(var("f")), Box::new(var("x"))).to_text(), "(f x)");
    assert_eq!(
        LExpr::LamOne("x".to_string(), vec![var("a"), var("b")]).to_text(),
        "(lambda (x) a b)"
    );
    assert_eq!(LExpr::LamOne("x".to_string(), vec![]).to_text(), "(lambda (x))");
    assert_eq!(
        LExpr::LamOneOneCont("x".to_string(), "k".to_string(), Box::new(var("x"))).to_text(),
        "(lambda (x k) x)"
    );
    assert_eq!(
        LExpr::AppOneCont(Box::new(var("f")), Box::new(var("x")), Box::new(var("k"))).to_text(),
        "(f x k)"
    );
}

#[test]
fn text_is_appended_to_what_is_there() {
    let mut out = String::from("> ");
    var("x").write_text(&mut out);
    ExprLit::Void.write_text(&mut out);
    assert_eq!(out, "> xNULL");
}

#[test]
fn a_copy_is_equal_to_what_it_copies() {
    let e = LExpr::Lam(
        names(&["a"]),
        vec![LExpr::App(
            Box::new(var("f")),
            vec![LExpr::LamOne("x".to_string(), vec![LExpr::Lit(ExprLit::StringLit("s".to_string()))])],
        )],
    );
    assert_eq!(e.dup(), e);
    assert_eq!(e.clone(), e);
    assert_eq!(ExprLit::NumLit(4).clone(), ExprLit::NumLit(4));
}

#[test]
fn a_new_environment_adds_to_its_parent() {
    let e = Env::new(&env(&[("a", 1), ("b", 2)]), bindings(&[("c", 3)]));
    assert_eq!(e.get("a"), Some(1));
    assert_eq!(e.get("b"), Some(2));
    assert_eq!(e.get("c"), Some(3));
    assert_eq!(e.get("d"), None);
}

#[test]
fn a_new_binding_hides_that_of_the_parent() {
    let parent = env(&[("a", 1), ("b", 2)]);
    let e = Env::new(&parent, bindings(&[("b", 20)]));
    assert_eq!(e.get("b"), Some(20));
    assert_eq!(e.get("a"), Some(1));
    assert_eq!(parent.get("b"), Some(2));
}

#[test]
fn the_last_of_two_bindings_of_a_name_wins() {
    let e = Env::new(&env(&[]), bindings(&[("x", 1), ("y", 5), ("x", 2)]));
    assert_eq!(e.get("x"), Some(2));
    assert_eq!(e.get("y"), Some(5));
}

#[test]
fn the_empty_environment_binds_nothing() {
    assert_eq!(env(&[]).get("x"), None);
    assert_eq!(Env::new(&env(&[]), vec![]).get(""), None);
    assert_eq!(Env::new(&env(&[("", 9)]), vec![]).get(""), Some(9));
}

#[test]
fn the_arity_of_a_function_names_its_constructor() {
    assert_eq!(LamType::OneArg.ctor_func(), "object_closure_one_new");
    assert_eq!(LamType::TwoArg.ctor_func(), "object_closure_two_new");
    assert_eq!(LamType::OneArg.num_args(), 1);
    assert_eq!(LamType::TwoArg.num_args(), 2);
}

#[test]
fn expressions_with_environments_as_text() {
    let x = || Box::new(LExEnv::Var { name: "x".to_string(), env: env(&[("x", 0)]) });
    assert_eq!(
        LExEnv::Lam { arg: "x".to_string(), expr: x(), env: env(&[]), id: 4 }.to_text(),
        "(lambda (x) x)"
    );
    assert_eq!(
        LExEnv::LamCont { arg: "x".to_string(), cont: "k".to_string(), expr: x(), env: env(&[]), id: 4 }
            .to_text(),
        "(lambda (x k) x)"
    );
    assert_eq!(LExEnv::App1 { cont: x(), rand: x(), env: env(&[]) }.to_text(), "(x x)");
    assert_eq!(
        LExEnv::App2 {
            rator: Box::new(LExEnv::BuiltinIdent("car".to_string())),
            rand: x(),
            cont: Box::new(LExEnv::LamRef { id: 3, lam_type: LamType::OneArg }),
            env: env(&[])
        }
        .to_text(),
        "(car x lambda<1>:3)"
    );
    assert_eq!(LExEnv::LamRef { id: 12, lam_type: LamType::TwoArg }.to_text(), "lambda<2>:12");
    assert_eq!(LExEnv::Lit(ExprLit::NumLit(7)).to_text(), "7");
    assert_eq!(
        LExEnv::BuiltinApp("object_int_obj_new".to_string(), Box::new(LExEnv::Lit(ExprLit::NumLit(7))))
            .to_text(),
        "(object_int_obj_new 7)"
    );
}
