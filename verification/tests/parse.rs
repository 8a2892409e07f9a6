use somescheme::base_expr::{BExpr, BExprBody, BExprBodyExpr};
use somescheme::error::CompileError;
use somescheme::lexer::{tokenize, Token};
use somescheme::literals::Literal;
use somescheme::parse::{parse, read, SExpr, SchemeParser};

fn var(n: &str) -> BExpr {
    BExpr::Var(n.to_string())
}

fn num(i: i64) -> BExpr {
    BExpr::Lit(Literal::Int(i))
}

fn text(s: &str) -> BExpr {
    BExpr::Lit(Literal::String(s.to_string()))
}

fn void() -> BExpr {
    BExpr::Lit(Literal::Void)
}

fn builtin(n: &str) -> BExpr {
    BExpr::BuiltinIdent(n.to_string())
}

fn call(f: BExpr, args: Vec<BExpr>) -> BExpr {
    BExpr::App(Box::new(f), args)
}

fn body(items: Vec<BExprBodyExpr>, last: BExpr) -> BExprBody {
    BExprBody(items, Box::new(last))
}

fn single(last: BExpr) -> BExprBody {
    body(vec![], last)
}

fn lam(params: &[&str], b: BExprBody) -> BExpr {
    BExpr::Lam(params.iter().map(|p| p.to_string()).collect(), b)
}

fn expr(s: &str) -> Result<BExpr, CompileError> {
    parse(s).map(|b| {
        assert!(b.0.is_empty());
        *b.1
    })
}

#[test]
fn reading_builds_nested_lists() {
    let toks = tokenize("(a (1 \"s\") ())").unwrap();
    assert_eq!(
        read(&toks),
        Ok(vec![SExpr::List(
            vec![
                SExpr::Word("a".to_string(), 1),
                SExpr::List(vec![SExpr::Int(1, 4), SExpr::Str("s".to_string(), 6)], 3),
                SExpr::List(vec![], 11),
            ],
            0
        )])
    );
}

#[test]
fn reading_keeps_the_expressions_in_order() {
    let toks = tokenize("a 1 (b)").unwrap();
    assert_eq!(
        read(&toks),
        Ok(vec![
            SExpr::Word("a".to_string(), 0),
            SExpr::Int(1, 2),
            SExpr::List(vec![SExpr::Word("b".to_string(), 5)], 4),
        ])
    );
    assert_eq!(read(&vec![]), Ok(vec![]));
}

#[test]
fn a_closing_parenthesis_that_closes_nothing_is_refused() {
    assert_eq!(read(&tokenize(")").unwrap()), Err(CompileError::Parse(0)));
    assert_eq!(read(&tokenize("(a) )").unwrap()), Err(CompileError::Parse(4)));
}

#[test]
fn an_opening_parenthesis_that_nothing_closes_is_refused() {
    assert_eq!(read(&tokenize("(a").unwrap()), Err(CompileError::Parse(0)));
    assert_eq!(read(&tokenize("(a (b c)").unwrap()), Err(CompileError::Parse(0)));
    assert_eq!(read(&tokenize("(a (b c").unwrap()), Err(CompileError::Parse(3)));
    assert_eq!(read(&vec![Token::Open(9)]), Err(CompileError::Parse(9)));
}

#[test]
fn literals_are_parsed() {
    assert_eq!(expr("12"), Ok(num(12)));
    assert_eq!(expr("-3"), Ok(num(-3)));
    assert_eq!(expr("\"yes\""), Ok(text("yes")));
    assert_eq!(expr("void"), Ok(void()));
}

#[test]
fn words_are_variables_unless_they_name_a_runtime_primitive() {
    assert_eq!(expr("x"), Ok(var("x")));
    assert_eq!(expr("fact"), Ok(var("fact")));
    for name in [
        "tostring", "display", "exit", "+", "-", "*", "/", "^", "cons", "cons?", "null?", "car",
        "cdr", "string-concat",
    ] {
        assert_eq!(expr(name), Ok(builtin(name)));
    }
    assert_eq!(expr("unknown-builtin"), Ok(var("unknown-builtin")));
}

#[test]
fn the_name_of_a_form_is_no_expression() {
    assert_eq!(expr("if"), Err(CompileError::Parse(0)));
    assert_eq!(expr("(f lambda)"), Err(CompileError::Parse(3)));
    assert_eq!(expr("(f define)"), Err(CompileError::Parse(3)));
    assert_eq!(expr(" let"), Err(CompileError::Parse(1)));
    assert_eq!(expr("set!"), Err(CompileError::Parse(0)));
}

#[test]
fn a_call_has_a_function_and_arguments() {
    assert_eq!(expr("(f)"), Ok(call(var("f"), vec![])));
    assert_eq!(expr("(+ 1 2)"), Ok(call(builtin("+"), vec![num(1), num(2)])));
    assert_eq!(
        expr("((f 1) (g))"),
        Ok(call(call(var("f"), vec![num(1)]), vec![call(var("g"), vec![])]))
    );
    assert_eq!(expr("(1 2)"), Ok(call(num(1), vec![num(2)])));
}

#[test]
fn the_empty_list_is_no_expression() {
    assert_eq!(expr("()"), Err(CompileError::Parse(0)));
    assert_eq!(expr("(f ())"), Err(CompileError::Parse(3)));
}

#[test]
fn if_takes_two_or_three_expressions() {
    assert_eq!(
        expr("(if 0 \"no\" \"yes\")"),
        Ok(BExpr::If(Box::new(num(0)), Box::new(text("no")), Box::new(text("yes"))))
    );
    assert_eq!(
        expr("(if c t)"),
        Ok(BExpr::If(Box::new(var("c")), Box::new(var("t")), Box::new(void())))
    );
    assert_eq!(expr("(if c)"), Err(CompileError::Parse(0)));
    assert_eq!(expr("(if)"), Err(CompileError::Parse(0)));
    assert_eq!(expr("(f (if a b c d))"), Err(CompileError::Parse(3)));
}

#[test]
fn set_takes_a_name_and_an_expression() {
    assert_eq!(expr("(set! x 2)"), Ok(BExpr::Assign("x".to_string(), Box::new(num(2)))));
    assert_eq!(expr("(set! x)"), Err(CompileError::Parse(0)));
    assert_eq!(expr("(set! x 1 2)"), Err(CompileError::Parse(0)));
    assert_eq!(expr("(set! 1 2)"), Err(CompileError::Parse(6)));
    assert_eq!(expr("(set! (x) 2)"), Err(CompileError::Parse(6)));
    assert_eq!(expr("(set! void 2)"), Err(CompileError::Parse(6)));
    assert_eq!(expr("(set! if 2)"), Err(CompileError::Parse(6)));
}

#[test]
fn lambda_takes_parameters_and_a_body() {
    assert_eq!(expr("(lambda (x) x)"), Ok(lam(&["x"], single(var("x")))));
    assert_eq!(expr("(lambda () 1)"), Ok(lam(&[], single(num(1)))));
    assert_eq!(
        expr("(lambda (a b) (f a) b)"),
        Ok(lam(
            &["a", "b"],
            body(vec![BExprBodyExpr::Expr(call(var("f"), vec![var("a")]))], var("b"))
        ))
    );
    assert_eq!(expr("(lambda (x))"), Err(CompileError::Parse(0)));
    assert_eq!(expr("(lambda x x)"), Err(CompileError::Parse(0)));
    assert_eq!(expr("(lambda (1) x)"), Err(CompileError::Parse(9)));
    assert_eq!(expr("(lambda (a (b)) x)"), Err(CompileError::Parse(11)));
}

#[test]
fn let_takes_bindings_and_a_body() {
    assert_eq!(
        expr("(let ((x 1)) (set! x 2) x)"),
        Ok(BExpr::Let(
            vec![("x".to_string(), num(1))],
            body(
                vec![BExprBodyExpr::Expr(BExpr::Assign("x".to_string(), Box::new(num(2))))],
                var("x")
            )
        ))
    );
    assert_eq!(expr("(let () 1)"), Ok(BExpr::Let(vec![], single(num(1)))));
    assert_eq!(
        expr("(let ((a 1) (b (f a))) b)"),
        Ok(BExpr::Let(
            vec![("a".to_string(), num(1)), ("b".to_string(), call(var("f"), vec![var("a")]))],
            single(var("b"))
        ))
    );
}

#[test]
fn malformed_let_is_refused() {
    assert_eq!(expr("(let ((x 1)))"), Err(CompileError::Parse(0)));
    assert_eq!(expr("(let x 1)"), Err(CompileError::Parse(0)));
    assert_eq!(expr("(let (x) 1)"), Err(CompileError::Parse(6)));
    assert_eq!(expr("(let ((x)) 1)"), Err(CompileError::Parse(6)));
    assert_eq!(expr("(let ((x 1 2)) 1)"), Err(CompileError::Parse(6)));
    assert_eq!(expr("(let ((1 2)) 1)"), Err(CompileError::Parse(7)));
    assert_eq!(expr("(let ((a 1) (b ())) 1)"), Err(CompileError::Parse(15)));
}

#[test]
fn a_definition_is_a_body_item() {
    assert_eq!(
        parse("(define x 1) x"),
        Ok(body(vec![BExprBodyExpr::Def("x".to_string(), num(1))], var("x")))
    );
    assert_eq!(
        expr("(lambda () (define a 1) (define b 2) (+ a b))"),
        Ok(lam(
            &[],
            body(
                vec![
                    BExprBodyExpr::Def("a".to_string(), num(1)),
                    BExprBodyExpr::Def("b".to_string(), num(2)),
                ],
                call(builtin("+"), vec![var("a"), var("b")])
            )
        ))
    );
}

#[test]
fn a_definition_of_a_function_names_its_parameters() {
    assert_eq!(
        parse("(define (id x) x) (id 5)"),
        Ok(body(
            vec![BExprBodyExpr::Def("id".to_string(), lam(&["x"], single(var("x"))))],
            call(var("id"), vec![num(5)])
        ))
    );
    assert_eq!(
        parse("(define (k) 1 2) k"),
        Ok(body(
            vec![BExprBodyExpr::Def(
                "k".to_string(),
                lam(&[], body(vec![BExprBodyExpr::Expr(num(1))], num(2)))
            )],
            var("k")
        ))
    );
}

#[test]
fn a_definition_is_no_expression() {
    assert_eq!(expr("(f (define x 1))"), Err(CompileError::Parse(3)));
    assert_eq!(expr("(if (define x 1) 2 3)"), Err(CompileError::Parse(4)));
}

#[test]
fn malformed_definitions_are_refused() {
    assert_eq!(parse("(define x) x"), Err(CompileError::Parse(0)));
    assert_eq!(parse("(define x 1 2) x"), Err(CompileError::Parse(0)));
    assert_eq!(parse("(define 1 2) x"), Err(CompileError::Parse(8)));
    assert_eq!(parse("(define () 2) x"), Err(CompileError::Parse(8)));
    assert_eq!(parse("(define (f 1) 2) x"), Err(CompileError::Parse(11)));
    assert_eq!(parse("(define (1 a) 2) x"), Err(CompileError::Parse(9)));
}

#[test]
fn a_body_that_ends_in_a_definition_is_ill_formed() {
    assert_eq!(parse("(let ((x 1)) (define x 2))"), Err(CompileError::IllFormedBody));
    assert_eq!(parse("(define x 1)"), Err(CompileError::IllFormedBody));
    assert_eq!(parse("(lambda () 1 (define y 2))"), Err(CompileError::IllFormedBody));
    assert_eq!(parse("(define (f) (define y 2)) f"), Err(CompileError::IllFormedBody));
}

#[test]
fn the_first_error_in_reading_order_is_reported() {
    assert_eq!(parse("(f ()) (define x 1)"), Err(CompileError::Parse(3)));
    assert_eq!(parse("(lambda () (f if) (define y 2))"), Err(CompileError::Parse(14)));
    assert_eq!(parse("(f \"open"), Err(CompileError::Parse(3)));
    assert_eq!(parse("(f (g)"), Err(CompileError::Parse(0)));
}

#[test]
fn a_program_is_a_body() {
    assert_eq!(parse("1"), Ok(single(num(1))));
    assert_eq!(
        parse("(f 1) (g 2) 3"),
        Ok(body(
            vec![
                BExprBodyExpr::Expr(call(var("f"), vec![num(1)])),
                BExprBodyExpr::Expr(call(var("g"), vec![num(2)])),
            ],
            num(3)
        ))
    );
}

#[test]
fn the_empty_program_is_refused() {
    assert_eq!(parse(""), Err(CompileError::Parse(0)));
    assert_eq!(parse("   \n"), Err(CompileError::Parse(0)));
    assert_eq!(SchemeParser::program(&vec![]), Err(CompileError::Parse(0)));
}

#[test]
fn the_parser_reads_one_expression() {
    assert_eq!(SchemeParser::expression(&SExpr::Int(4, 0)), Ok(num(4)));
    assert_eq!(
        SchemeParser::expression(&SExpr::List(vec![SExpr::Word("f".to_string(), 1)], 0)),
        Ok(call(var("f"), vec![]))
    );
    assert_eq!(SchemeParser::expression(&SExpr::List(vec![], 7)), Err(CompileError::Parse(7)));
}
