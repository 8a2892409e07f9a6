use somescheme::cdsl::{CDecl, CExpr, CStmt, CType, MacroArg, ToC, ToCDC};

fn ident(name: &str) -> CExpr {
    CExpr::Ident(name.to_string())
}

fn boxed(name: &str) -> Box<CExpr> {
    Box::new(ident(name))
}

fn obj_ptr() -> CType {
    CType::Ptr(Box::new(CType::Struct("obj".to_string())))
}

fn declare(t: &CType, name: &str) -> String {
    let mut s = String::new();
    t.export_with_name(&mut s, name);
    s
}

#[test]
fn binary_operator_parenthesises_both_sides() {
    let e = CExpr::BinOp { op: "+".to_string(), left: boxed("a"), right: boxed("b") };
    assert_eq!(e.export(), "(a)+(b)");
}

#[test]
fn prefix_and_postfix_operators() {
    let pre = CExpr::PreUnOp { op: "&".to_string(), ex: boxed("x") };
    let post = CExpr::PostUnOp { op: "++".to_string(), ex: boxed("x") };
    assert_eq!(pre.export(), "&(x)");
    assert_eq!(post.export(), "(x)++");
}

#[test]
fn index_operator_text() {
    let e = CExpr::ArrIndexOp { index: boxed("i"), expr: boxed("arr") };
    assert_eq!(e.export(), "(arr)[i]");
    let nested = CExpr::ArrIndexOp {
        index: Box::new(CExpr::LitUInt(0)),
        expr: Box::new(CExpr::ArrIndexOp { index: boxed("i"), expr: boxed("a") }),
    };
    assert_eq!(nested.export(), "((a)[i])[0]");
}

#[test]
fn member_access_by_dot_and_arrow() {
    let dot = CExpr::Dot { expr: boxed("s"), attr: "len".to_string() };
    let arrow = CExpr::Arrow { expr: boxed("p"), attr: "val".to_string() };
    assert_eq!(dot.export(), "(s).len");
    assert_eq!(arrow.export(), "(p)->val");
}

#[test]
fn function_call_separates_arguments_by_commas() {
    let none = CExpr::FunCallOp { expr: boxed("f"), params: vec![] };
    let one = CExpr::FunCallOp { expr: boxed("f"), params: vec![ident("a")] };
    let three =
        CExpr::FunCallOp { expr: boxed("f"), params: vec![ident("a"), ident("b"), ident("c")] };
    assert_eq!(none.export(), "(f)()");
    assert_eq!(one.export(), "(f)(a)");
    assert_eq!(three.export(), "(f)(a,b,c)");
}

#[test]
fn cast_writes_the_type_before_the_expression() {
    let e = CExpr::Cast { ex: boxed("x"), typ: obj_ptr() };
    assert_eq!(e.export(), "(struct obj *)(x)");
}

#[test]
fn macro_call_takes_expressions_and_types() {
    let e = CExpr::MacroCall {
        name: "OBJECT_ENV_OBJ_NEW".to_string(),
        args: vec![MacroArg::Expr(ident("var_0")), MacroArg::Type(CType::Struct("env_3".to_string()))],
    };
    assert_eq!(e.export(), "OBJECT_ENV_OBJ_NEW(var_0,struct env_3 )");
    let none = CExpr::MacroCall { name: "__builtin_unreachable".to_string(), args: vec![] };
    assert_eq!(none.export(), "__builtin_unreachable()");
}

#[test]
fn into_arg_keeps_the_text() {
    assert_eq!(ident("x").into_arg(), MacroArg::Expr(ident("x")));
    assert_eq!(CType::Void.into_arg(), MacroArg::Type(CType::Void));
}

#[test]
fn conditional_expression_text() {
    let e = CExpr::If { cond: boxed("c"), ift: boxed("a"), iff: boxed("b") };
    assert_eq!(e.export(), "(c)?(a):(b)");
}

#[test]
fn initialiser_list_text() {
    assert_eq!(CExpr::InitList(vec![]).export(), "{}");
    assert_eq!(CExpr::InitList(vec![CExpr::LitUInt(1), CExpr::LitUInt(2)]).export(), "{1,2}");
}

#[test]
fn literals_text() {
    assert_eq!(CExpr::LitStr("yes".to_string()).export(), "\"yes\"");
    assert_eq!(CExpr::LitUInt(0).export(), "0");
    assert_eq!(CExpr::LitUInt(4096).export(), "4096");
    assert_eq!(CExpr::LitIInt(-7).export(), "-7");
    assert_eq!(CExpr::LitIInt(12).export(), "12");
    assert_eq!(ident("NULL").export(), "NULL");
}

#[test]
fn nested_expression_text() {
    let cell = CExpr::Arrow {
        expr: Box::new(CExpr::Cast {
            ex: Box::new(CExpr::Arrow { expr: boxed("env"), attr: "v_x_3".to_string() }),
            typ: CType::Ptr(Box::new(CType::Struct("cell_obj".to_string()))),
        }),
        attr: "val".to_string(),
    };
    assert_eq!(cell.export(), "((struct cell_obj *)((env)->v_x_3))->val");
}

#[test]
fn export_internal_appends_to_the_text() {
    let mut s = String::from("x = ");
    ident("y").export_internal(&mut s);
    assert_eq!(s, "x = y");
}

#[test]
fn plain_types_end_in_a_space() {
    assert_eq!(CType::Void.export(), "void ");
    assert_eq!(CType::Struct("obj".to_string()).export(), "struct obj ");
    assert_eq!(CType::Union("u".to_string()).export(), "union u ");
    assert_eq!(CType::Other("size_t".to_string()).export(), "size_t ");
}

#[test]
fn integer_types_name_their_size() {
    assert_eq!(CType::Int { size: 32, sign: false }.export(), "int32_t");
    assert_eq!(CType::Int { size: 8, sign: true }.export(), "uint8_t");
    assert_eq!(declare(&CType::Int { size: 64, sign: false }, "n"), "int64_tn");
}

#[test]
fn pointer_star_stands_before_the_name() {
    assert_eq!(obj_ptr().export(), "struct obj *");
    assert_eq!(declare(&obj_ptr(), "x"), "struct obj *x");
    let twice = CType::Ptr(Box::new(obj_ptr()));
    assert_eq!(declare(&twice, "x"), "struct obj **x");
}

#[test]
fn array_brackets_stand_after_the_name() {
    let open = CType::Arr(Box::new(CType::Void), None);
    let sized = CType::Arr(Box::new(CType::Struct("obj".to_string())), Some(16));
    assert_eq!(declare(&open, "buf"), "void buf[]");
    assert_eq!(declare(&sized, "buf"), "struct obj buf[16]");
}

#[test]
fn static_and_const_stand_before_the_name() {
    let st = CType::Static(Box::new(CType::Void));
    let co = CType::Const(Box::new(CType::Other("char".to_string())));
    assert_eq!(declare(&st, "f"), "void static f");
    assert_eq!(declare(&co, "c"), "char const c");
}

#[test]
fn expression_statement_ends_in_a_semicolon() {
    assert_eq!(CStmt::Expr(ident("x")).export(), "x;");
}

#[test]
fn block_concatenates_its_statements() {
    assert_eq!(CStmt::Block(vec![]).export(), "{}");
    let b = CStmt::Block(vec![CStmt::Expr(ident("a")), CStmt::Expr(ident("b"))]);
    assert_eq!(b.export(), "{a;b;}");
}

#[test]
fn if_statement_text() {
    let s = CStmt::If {
        cond: ident("c"),
        ift: Box::new(CStmt::Block(vec![CStmt::Expr(ident("a"))])),
        iff: Box::new(CStmt::Block(vec![CStmt::Expr(ident("b"))])),
    };
    assert_eq!(s.export(), "if (c){a;} else {b;}");
}

#[test]
fn loops_text() {
    let w = CStmt::While { cond: ident("c"), body: Box::new(CStmt::Expr(ident("x"))) };
    assert_eq!(w.export(), "while (c)x;");
    let f = CStmt::For {
        init: ident("i"),
        test: ident("t"),
        updt: ident("u"),
        body: Box::new(CStmt::Block(vec![])),
    };
    assert_eq!(f.export(), "for (i;t;u){}");
}

#[test]
fn declaration_statement_is_the_declaration() {
    let d = CDecl::Var { name: "x".to_string(), typ: obj_ptr(), init: None };
    assert_eq!(CStmt::Decl(d).export(), "struct obj *x;");
}

#[test]
fn variable_with_initialiser() {
    let d = CDecl::Var { name: "x".to_string(), typ: obj_ptr(), init: Some(ident("NULL")) };
    assert_eq!(d.export(), "struct obj *x = NULL;");
}

#[test]
fn prototype_text() {
    let p = CDecl::FunProto {
        name: "lambda_2".to_string(),
        typ: CType::Void,
        args: vec![obj_ptr(), obj_ptr(), CType::Ptr(Box::new(CType::Struct("env_obj".to_string())))],
        noreturn: true,
    };
    assert_eq!(
        p.export(),
        "void lambda_2(struct obj *, struct obj *, struct env_obj *)__attribute__((noreturn)) ;"
    );
    let plain =
        CDecl::FunProto { name: "f".to_string(), typ: CType::Void, args: vec![], noreturn: false };
    assert_eq!(plain.export(), "void f();");
}

#[test]
fn function_definition_text() {
    let f = CDecl::Fun {
        name: "f".to_string(),
        typ: CType::Void,
        args: vec![("a".to_string(), obj_ptr()), ("b".to_string(), obj_ptr())],
        body: vec![CStmt::Expr(ident("a")), CStmt::Expr(ident("b"))],
    };
    assert_eq!(f.export(), "void f(struct obj *a, struct obj *b){a;b;}");
}

#[test]
fn struct_and_union_text() {
    let s = CDecl::Struct {
        name: "env_1".to_string(),
        members: vec![("v_x_1".to_string(), obj_ptr()), ("v_y_2".to_string(), obj_ptr())],
    };
    assert_eq!(s.export(), "struct env_1 {struct obj *v_x_1;struct obj *v_y_2;};");
    let u = CDecl::Union { name: "u".to_string(), members: vec![] };
    assert_eq!(u.export(), "union u {};");
}
