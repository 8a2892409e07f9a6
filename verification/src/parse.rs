use crate::base_expr::{
    BExpr, BExprBody, BExprBodyExpr, BExprBodyExprView, BExprBodyView, BExprView,
};
use crate::base_expr::{bexprs_view, bindings_view, items_view, names_view};
use crate::codegen::{builtin_info, builtin_known};
use crate::error::{CompileError, CompileErrorView};
use crate::lexer::{tokenize, tokens_of, tokens_view, Token, TokenView};
use crate::literals::{Literal, LiteralView};
use vstd::prelude::*;

verus! {

/// A parenthesised expression as it is read, before its form is looked
/// at: an atom or a list, with the position of its first character.
#[derive(Debug, PartialEq)]
pub enum SExpr {
    Int(i64, usize),
    Str(String, usize),
    Word(String, usize),
    List(Vec<SExpr>, usize),
}

/// The mathematical value of an [`SExpr`].
pub enum SExprView {
    Int(int, nat),
    Str(Seq<char>, nat),
    Word(Seq<char>, nat),
    List(Seq<SExprView>, nat),
}

impl SExpr {
    /// The mathematical value of this term.
    pub open spec fn model(self) -> SExprView
        decreases self,
    {
        match self {
            SExpr::Int(v, at) => SExprView::Int(v as int, at as nat),
            SExpr::Str(s, at) => SExprView::Str(s@, at as nat),
            SExpr::Word(w, at) => SExprView::Word(w@, at as nat),
            SExpr::List(items, at) => SExprView::List(
                Seq::new(
                    items.len() as nat,
                    |i: int|
                        if 0 <= i < items.len() {
                            items[i].model()
                        } else {
                            SExprView::Int(0, 0)
                        },
                ),
                at as nat,
            ),
        }
    }
}

impl View for SExpr {
    type V = SExprView;

    open spec fn view(&self) -> SExprView {
        self.model()
    }
}

/// The views of a vector of expressions, in order.
pub open spec fn sexprs_view(xs: Seq<SExpr>) -> Seq<SExprView> {
    Seq::new(xs.len(), |i: int| xs[i]@)
}

/// The position of the first character of `x`.
pub open spec fn at_of(x: SExprView) -> nat {
    match x {
        SExprView::Int(_, at) => at,
        SExprView::Str(_, at) => at,
        SExprView::Word(_, at) => at,
        SExprView::List(_, at) => at,
    }
}

/// The expression that starts at the token `pos`, and the position of the
/// token after it; or the position of a closing parenthesis that closes
/// nothing, or of an opening one that nothing closes.
pub open spec fn read_one(toks: Seq<TokenView>, pos: nat) -> Result<(SExprView, nat), nat>
    decreases toks.len() - pos, 0nat,
{
    if pos >= toks.len() {
        Err(0)
    } else {
        match toks[pos as int] {
            TokenView::Int(v, at) => Ok((SExprView::Int(v, at), pos + 1)),
            TokenView::Str(s, at) => Ok((SExprView::Str(s, at), pos + 1)),
            TokenView::Word(w, at) => Ok((SExprView::Word(w, at), pos + 1)),
            TokenView::Close(at) => Err(at),
            TokenView::Open(at) => match read_list(toks, pos + 1, Seq::empty(), at) {
                Ok((items, next)) => Ok((SExprView::List(items, at), next)),
                Err(e) => Err(e),
            },
        }
    }
}

/// The expressions from the token `pos` up to the parenthesis that closes
/// the list opened at the character `open_at`, after the expressions
/// `acc`, and the position of the token after that parenthesis.
pub open spec fn read_list(toks: Seq<TokenView>, pos: nat, acc: Seq<SExprView>, open_at: nat) -> Result<
    (Seq<SExprView>, nat),
    nat,
>
    decreases toks.len() - pos, 1nat,
{
    if pos >= toks.len() {
        Err(open_at)
    } else if toks[pos as int] is Close {
        Ok((acc, pos + 1))
    } else {
        match read_one(toks, pos) {
            Err(e) => Err(e),
            Ok((x, next)) => if pos < next <= toks.len() {
                read_list(toks, next, acc.push(x), open_at)
            } else {
                Err(open_at)
            },
        }
    }
}

/// The expressions from the token `pos` to the end, after the expressions
/// `acc`.
pub open spec fn read_all(toks: Seq<TokenView>, pos: nat, acc: Seq<SExprView>) -> Result<
    Seq<SExprView>,
    nat,
>
    decreases toks.len() - pos,
{
    if pos >= toks.len() {
        Ok(acc)
    } else {
        match read_one(toks, pos) {
            Err(e) => Err(e),
            Ok((x, next)) => if pos < next <= toks.len() {
                read_all(toks, next, acc.push(x))
            } else {
                Err(0)
            },
        }
    }
}

fn push_sexpr(acc: &mut Vec<SExpr>, x: SExpr)
    ensures
        sexprs_view(final(acc)@) == sexprs_view(old(acc)@).push(x@),
{
    acc.push(x);
    assert(sexprs_view(acc@) =~= sexprs_view(old(acc)@).push(x@));
}

fn list_of(items: Vec<SExpr>, at: usize) -> (res: SExpr)
    ensures
        res@ == SExprView::List(sexprs_view(items@), at as nat),
{
    let res = SExpr::List(items, at);
    assert(res@->List_0 =~= sexprs_view(items@));
    res
}

/// Reads the expression that starts at the token `pos`: see [`read_one`].
#[verifier::loop_isolation(false)]
fn read_expr(toks: &Vec<Token>, pos: usize) -> (res: Result<(SExpr, usize), CompileError>)
    requires
        pos < toks@.len(),
    ensures
        match res {
            Ok((x, next)) => read_one(tokens_view(toks@), pos as nat) == Ok::<
                (SExprView, nat),
                nat,
            >((x@, next as nat)) && pos < next <= toks@.len(),
            Err(e) => match read_one(tokens_view(toks@), pos as nat) {
                Ok(_) => false,
                Err(at) => e@ == CompileErrorView::Parse(at),
            },
        },
    decreases toks@.len() - pos,
{
    let ghost views = tokens_view(toks@);
    assert(views[pos as int] == toks@[pos as int]@);
    let count = toks.len();
    match &toks[pos] {
        Token::Int(v, at) => Ok((SExpr::Int(*v, *at), pos + 1)),
        Token::Str(s, at) => Ok((SExpr::Str(s.clone(), *at), pos + 1)),
        Token::Word(w, at) => Ok((SExpr::Word(w.clone(), *at), pos + 1)),
        Token::Close(at) => Err(CompileError::Parse(*at)),
        Token::Open(at) => {
            let mut items: Vec<SExpr> = Vec::new();
            assert(sexprs_view(items@) =~= Seq::empty());
            let mut p = pos + 1;
            loop
                invariant
                    pos < p <= toks@.len(),
                    read_list(views, p as nat, sexprs_view(items@), *at as nat) == read_list(
                        views,
                        (pos + 1) as nat,
                        Seq::empty(),
                        *at as nat,
                    ),
                decreases toks@.len() - p,
            {
                if p >= count {
                    return Err(CompileError::Parse(*at));
                }
                assert(views[p as int] == toks@[p as int]@);
                match &toks[p] {
                    Token::Close(_) => {
                        return Ok((list_of(items, *at), p + 1));
                    },
                    _ => {},
                }
                match read_expr(toks, p) {
                    Ok((x, next)) => {
                        push_sexpr(&mut items, x);
                        p = next;
                    },
                    Err(e) => {
                        return Err(e);
                    },
                }
            }
        },
    }
}

/// What reading the expressions of the tokens `toks` gives.
pub open spec fn read_as(res: Result<Vec<SExpr>, CompileError>, toks: Seq<TokenView>) -> bool {
    match res {
        Ok(xs) => read_all(toks, 0, Seq::empty()) == Ok::<Seq<SExprView>, nat>(sexprs_view(xs@)),
        Err(e) => match read_all(toks, 0, Seq::empty()) {
            Ok(_) => false,
            Err(at) => e@ == CompileErrorView::Parse(at),
        },
    }
}

/// Reads the expressions that the tokens make up, in order.
pub fn read(toks: &Vec<Token>) -> (res: Result<Vec<SExpr>, CompileError>)
    ensures
        read_as(res, tokens_view(toks@)),
{
    let ghost views = tokens_view(toks@);
    let mut out: Vec<SExpr> = Vec::new();
    assert(sexprs_view(out@) =~= Seq::empty());
    let mut pos: usize = 0;
    while pos < toks.len()
        invariant
            pos <= toks@.len(),
            views == tokens_view(toks@),
            read_all(views, pos as nat, sexprs_view(out@)) == read_all(views, 0, Seq::empty()),
        decreases toks@.len() - pos,
    {
        match read_expr(toks, pos) {
            Ok((x, next)) => {
                push_sexpr(&mut out, x);
                pos = next;
            },
            Err(e) => {
                return Err(e);
            },
        }
    }
    Ok(out)
}


/// Whether the word `w` names a form of the language.
pub open spec fn is_keyword(w: Seq<char>) -> bool {
    w == "if"@ || w == "set!"@ || w == "let"@ || w == "lambda"@ || w == "define"@
}

/// The parse error at the character `at`.
pub open spec fn parse_error<T>(at: nat) -> Result<T, CompileErrorView> {
    Err(CompileErrorView::Parse(at))
}

/// The expression that the word `w` at the character `at` stands for:
/// the literal `void`, a builtin where it names a runtime primitive, and
/// a variable otherwise. The name of a form is no expression.
pub open spec fn word_expr(w: Seq<char>, at: nat) -> Result<BExprView, CompileErrorView> {
    if w == "void"@ {
        Ok(BExprView::Lit(LiteralView::Void))
    } else if is_keyword(w) {
        parse_error(at)
    } else if builtin_info(w) is Some {
        Ok(BExprView::BuiltinIdent(w))
    } else {
        Ok(BExprView::Var(w))
    }
}

/// The name that `x` binds or assigns: a word that is neither `void` nor
/// the name of a form.
pub open spec fn name_of(x: SExprView) -> Result<Seq<char>, CompileErrorView> {
    match x {
        SExprView::Word(w, at) => if w == "void"@ || is_keyword(w) {
            parse_error(at)
        } else {
            Ok(w)
        },
        _ => parse_error(at_of(x)),
    }
}

/// Whether `x` is a definition: a list that starts with the word `define`.
pub open spec fn is_define(x: SExprView) -> bool {
    match x {
        SExprView::List(items, _) => items.len() > 0 && items[0] is Word && items[0]->Word_0
            == "define"@,
        _ => false,
    }
}

/// The expression that `x` stands for.
///
/// A list is a form where it starts with the name of one: `(if c t)` and
/// `(if c t e)`, `(set! n e)`, `(let ((n e) ..) body ..)`,
/// `(lambda (p ..) body ..)`. A definition is no expression. Any other
/// list is a call of its first expression with the others.
pub open spec fn expr_of(x: SExprView) -> Result<BExprView, CompileErrorView>
    decreases x, 0nat,
{
    match x {
        SExprView::Int(v, _) => Ok(BExprView::Lit(LiteralView::Int(v))),
        SExprView::Str(s, _) => Ok(BExprView::Lit(LiteralView::String(s))),
        SExprView::Word(w, at) => word_expr(w, at),
        SExprView::List(items, at) => if items.len() == 0 {
            parse_error(at)
        } else {
            match items[0] {
                SExprView::Word(w, _) => if w == "if"@ {
                    if_of(items, at)
                } else if w == "set!"@ {
                    set_of(items, at)
                } else if w == "let"@ {
                    let_of(items, at)
                } else if w == "lambda"@ {
                    lambda_of(items, at)
                } else if w == "define"@ {
                    parse_error(at)
                } else {
                    app_of(items)
                },
                _ => app_of(items),
            }
        },
    }
}

/// The conditional `(if c t)` or `(if c t e)`; without `e` the value of
/// the other branch is `void`.
pub open spec fn if_of(items: Seq<SExprView>, at: nat) -> Result<BExprView, CompileErrorView>
    decreases items, items.len() + 2,
{
    if items.len() == 3 || items.len() == 4 {
        match expr_of(items[1]) {
            Err(e) => Err(e),
            Ok(c) => match expr_of(items[2]) {
                Err(e) => Err(e),
                Ok(t) => if items.len() == 3 {
                    Ok(
                        BExprView::If(
                            Box::new(c),
                            Box::new(t),
                            Box::new(BExprView::Lit(LiteralView::Void)),
                        ),
                    )
                } else {
                    match expr_of(items[3]) {
                        Err(e) => Err(e),
                        Ok(f) => Ok(BExprView::If(Box::new(c), Box::new(t), Box::new(f))),
                    }
                },
            },
        }
    } else {
        parse_error(at)
    }
}

/// The assignment `(set! n e)`.
pub open spec fn set_of(items: Seq<SExprView>, at: nat) -> Result<BExprView, CompileErrorView>
    decreases items, items.len() + 2,
{
    if items.len() == 3 {
        match name_of(items[1]) {
            Err(e) => Err(e),
            Ok(n) => match expr_of(items[2]) {
                Err(e) => Err(e),
                Ok(v) => Ok(BExprView::Assign(n, Box::new(v))),
            },
        }
    } else {
        parse_error(at)
    }
}

/// The binding form `(let ((n e) ..) body ..)`.
pub open spec fn let_of(items: Seq<SExprView>, at: nat) -> Result<BExprView, CompileErrorView>
    decreases items, items.len() + 2,
{
    if items.len() >= 3 {
        match items[1] {
            SExprView::List(pairs, _) => match bindings_of(pairs, pairs.len()) {
                Err(e) => Err(e),
                Ok(bs) => match body_of(items, 2) {
                    Err(e) => Err(e),
                    Ok(body) => Ok(BExprView::Let(bs, body)),
                },
            },
            _ => parse_error(at),
        }
    } else {
        parse_error(at)
    }
}

/// The first `n` of the bindings `pairs`, each of the shape `(n e)`.
pub open spec fn bindings_of(pairs: Seq<SExprView>, n: nat) -> Result<
    Seq<(Seq<char>, BExprView)>,
    CompileErrorView,
>
    decreases pairs, n,
{
    if n == 0 || n > pairs.len() {
        Ok(Seq::empty())
    } else {
        match bindings_of(pairs, (n - 1) as nat) {
            Err(e) => Err(e),
            Ok(acc) => match pairs[n - 1] {
                SExprView::List(pair, at) => if pair.len() == 2 {
                    match name_of(pair[0]) {
                        Err(e) => Err(e),
                        Ok(name) => match expr_of(pair[1]) {
                            Err(e) => Err(e),
                            Ok(v) => Ok(acc.push((name, v))),
                        },
                    }
                } else {
                    parse_error(at)
                },
                other => parse_error(at_of(other)),
            },
        }
    }
}

/// The function `(lambda (p ..) body ..)`.
pub open spec fn lambda_of(items: Seq<SExprView>, at: nat) -> Result<BExprView, CompileErrorView>
    decreases items, items.len() + 2,
{
    if items.len() >= 3 {
        match items[1] {
            SExprView::List(params, _) => match names_from(params, 0, params.len()) {
                Err(e) => Err(e),
                Ok(ps) => match body_of(items, 2) {
                    Err(e) => Err(e),
                    Ok(body) => Ok(BExprView::Lam(ps, body)),
                },
            },
            _ => parse_error(at),
        }
    } else {
        parse_error(at)
    }
}

/// The names `xs[from..n]`.
pub open spec fn names_from(xs: Seq<SExprView>, from: nat, n: nat) -> Result<
    Seq<Seq<char>>,
    CompileErrorView,
>
    decreases n,
{
    if n <= from || n > xs.len() {
        Ok(Seq::empty())
    } else {
        match names_from(xs, from, (n - 1) as nat) {
            Err(e) => Err(e),
            Ok(acc) => match name_of(xs[n - 1]) {
                Err(e) => Err(e),
                Ok(name) => Ok(acc.push(name)),
            },
        }
    }
}

/// The call of the first of `items` with the others.
pub open spec fn app_of(items: Seq<SExprView>) -> Result<BExprView, CompileErrorView>
    decreases items, items.len() + 2,
{
    if items.len() == 0 {
        parse_error(0)
    } else {
        match expr_of(items[0]) {
            Err(e) => Err(e),
            Ok(f) => match exprs_from(items, 1, items.len()) {
                Err(e) => Err(e),
                Ok(args) => Ok(BExprView::App(Box::new(f), args)),
            },
        }
    }
}

/// The expressions `items[from..n]`.
pub open spec fn exprs_from(items: Seq<SExprView>, from: nat, n: nat) -> Result<
    Seq<BExprView>,
    CompileErrorView,
>
    decreases items, n,
{
    if n <= from || n > items.len() {
        Ok(Seq::empty())
    } else {
        match exprs_from(items, from, (n - 1) as nat) {
            Err(e) => Err(e),
            Ok(acc) => match expr_of(items[n - 1]) {
                Err(e) => Err(e),
                Ok(v) => Ok(acc.push(v)),
            },
        }
    }
}

/// The body `items[from..]`: definitions and expressions, the last of
/// which has to be an expression.
pub open spec fn body_of(items: Seq<SExprView>, from: nat) -> Result<
    BExprBodyView,
    CompileErrorView,
>
    decreases items, items.len() + 1,
{
    if from >= items.len() {
        parse_error(0)
    } else {
        match items_from(items, from, (items.len() - 1) as nat) {
            Err(e) => Err(e),
            Ok(before) => if is_define(items[items.len() - 1]) {
                Err(CompileErrorView::IllFormedBody)
            } else {
                match expr_of(items[items.len() - 1]) {
                    Err(e) => Err(e),
                    Ok(last) => Ok(BExprBodyView { items: before, last: Box::new(last) }),
                }
            },
        }
    }
}

/// The body items `items[from..n]`.
pub open spec fn items_from(items: Seq<SExprView>, from: nat, n: nat) -> Result<
    Seq<BExprBodyExprView>,
    CompileErrorView,
>
    decreases items, n,
{
    if n <= from || n > items.len() {
        Ok(Seq::empty())
    } else {
        match items_from(items, from, (n - 1) as nat) {
            Err(e) => Err(e),
            Ok(acc) => match item_of(items[n - 1]) {
                Err(e) => Err(e),
                Ok(item) => Ok(acc.push(item)),
            },
        }
    }
}

/// The body item that `x` stands for: a definition or an expression.
pub open spec fn item_of(x: SExprView) -> Result<BExprBodyExprView, CompileErrorView>
    decreases x, 1nat,
{
    match x {
        SExprView::List(items, at) => if is_define(x) {
            define_of(items, at)
        } else {
            match expr_of(x) {
                Err(e) => Err(e),
                Ok(e) => Ok(BExprBodyExprView::Expr(e)),
            }
        },
        _ => match expr_of(x) {
            Err(e) => Err(e),
            Ok(e) => Ok(BExprBodyExprView::Expr(e)),
        },
    }
}

/// The definition `(define n e)`, or `(define (n p ..) body ..)`, which
/// defines `n` as the function of the parameters `p ..` with that body.
pub open spec fn define_of(items: Seq<SExprView>, at: nat) -> Result<
    BExprBodyExprView,
    CompileErrorView,
>
    decreases items, items.len() + 2,
{
    if items.len() >= 3 {
        match items[1] {
            SExprView::List(sig, sig_at) => if sig.len() == 0 {
                parse_error(sig_at)
            } else {
                match name_of(sig[0]) {
                    Err(e) => Err(e),
                    Ok(name) => match names_from(sig, 1, sig.len()) {
                        Err(e) => Err(e),
                        Ok(ps) => match body_of(items, 2) {
                            Err(e) => Err(e),
                            Ok(body) => Ok(
                                BExprBodyExprView::Def(name, BExprView::Lam(ps, body)),
                            ),
                        },
                    },
                }
            },
            _ => if items.len() == 3 {
                match name_of(items[1]) {
                    Err(e) => Err(e),
                    Ok(name) => match expr_of(items[2]) {
                        Err(e) => Err(e),
                        Ok(v) => Ok(BExprBodyExprView::Def(name, v)),
                    },
                }
            } else {
                parse_error(at)
            },
        }
    } else {
        parse_error(at)
    }
}

/// The body of the program that the expressions `xs` make up. A program
/// holds at least one expression.
pub open spec fn program_of(xs: Seq<SExprView>) -> Result<BExprBodyView, CompileErrorView> {
    if xs.len() == 0 {
        parse_error(0)
    } else {
        body_of(xs, 0)
    }
}

/// The body of the program that the text `s` holds.
pub open spec fn parsed(s: Seq<char>) -> Result<BExprBodyView, CompileErrorView> {
    match tokens_of(s) {
        Err(at) => parse_error(at),
        Ok(toks) => match read_all(toks, 0, Seq::empty()) {
            Err(at) => parse_error(at),
            Ok(xs) => program_of(xs),
        },
    }
}


/// Whether the result `res` is what the result `model` describes.
pub open spec fn expr_agrees(
    res: Result<BExpr, CompileError>,
    model: Result<BExprView, CompileErrorView>,
) -> bool {
    match res {
        Ok(e) => model == Ok::<BExprView, CompileErrorView>(e@),
        Err(x) => model == Err::<BExprView, CompileErrorView>(x@),
    }
}

/// Whether the result `res` is what the result `model` describes.
pub open spec fn body_agrees(
    res: Result<BExprBody, CompileError>,
    model: Result<BExprBodyView, CompileErrorView>,
) -> bool {
    match res {
        Ok(b) => model == Ok::<BExprBodyView, CompileErrorView>(b@),
        Err(x) => model == Err::<BExprBodyView, CompileErrorView>(x@),
    }
}

spec fn item_agrees(
    res: Result<BExprBodyExpr, CompileError>,
    model: Result<BExprBodyExprView, CompileErrorView>,
) -> bool {
    match res {
        Ok(b) => model == Ok::<BExprBodyExprView, CompileErrorView>(b@),
        Err(x) => model == Err::<BExprBodyExprView, CompileErrorView>(x@),
    }
}

spec fn exprs_agree(
    res: Result<Vec<BExpr>, CompileError>,
    model: Result<Seq<BExprView>, CompileErrorView>,
) -> bool {
    match res {
        Ok(v) => model == Ok::<Seq<BExprView>, CompileErrorView>(bexprs_view(v@)),
        Err(x) => model == Err::<Seq<BExprView>, CompileErrorView>(x@),
    }
}

spec fn items_agree(
    res: Result<Vec<BExprBodyExpr>, CompileError>,
    model: Result<Seq<BExprBodyExprView>, CompileErrorView>,
) -> bool {
    match res {
        Ok(v) => model == Ok::<Seq<BExprBodyExprView>, CompileErrorView>(items_view(v@)),
        Err(x) => model == Err::<Seq<BExprBodyExprView>, CompileErrorView>(x@),
    }
}

spec fn names_agree(
    res: Result<Vec<String>, CompileError>,
    model: Result<Seq<Seq<char>>, CompileErrorView>,
) -> bool {
    match res {
        Ok(v) => model == Ok::<Seq<Seq<char>>, CompileErrorView>(names_view(v@)),
        Err(x) => model == Err::<Seq<Seq<char>>, CompileErrorView>(x@),
    }
}

spec fn bindings_agree(
    res: Result<Vec<(String, BExpr)>, CompileError>,
    model: Result<Seq<(Seq<char>, BExprView)>, CompileErrorView>,
) -> bool {
    match res {
        Ok(v) => model == Ok::<Seq<(Seq<char>, BExprView)>, CompileErrorView>(bindings_view(v@)),
        Err(x) => model == Err::<Seq<(Seq<char>, BExprView)>, CompileErrorView>(x@),
    }
}

spec fn name_agrees(res: Result<String, CompileError>, model: Result<Seq<char>, CompileErrorView>) -> bool {
    match res {
        Ok(v) => model == Ok::<Seq<char>, CompileErrorView>(v@),
        Err(x) => model == Err::<Seq<char>, CompileErrorView>(x@),
    }
}

proof fn lemma_exprs_error_stays(items: Seq<SExprView>, from: nat, k: nat, n: nat)
    requires
        k <= n <= items.len(),
        exprs_from(items, from, k) is Err,
    ensures
        exprs_from(items, from, n) == exprs_from(items, from, k),
    decreases n,
{
    if k < n {
        lemma_exprs_error_stays(items, from, k, (n - 1) as nat);
    }
}

proof fn lemma_items_error_stays(items: Seq<SExprView>, from: nat, k: nat, n: nat)
    requires
        k <= n <= items.len(),
        items_from(items, from, k) is Err,
    ensures
        items_from(items, from, n) == items_from(items, from, k),
    decreases n,
{
    if k < n {
        lemma_items_error_stays(items, from, k, (n - 1) as nat);
    }
}

proof fn lemma_names_error_stays(xs: Seq<SExprView>, from: nat, k: nat, n: nat)
    requires
        k <= n <= xs.len(),
        names_from(xs, from, k) is Err,
    ensures
        names_from(xs, from, n) == names_from(xs, from, k),
    decreases n,
{
    if k < n {
        lemma_names_error_stays(xs, from, k, (n - 1) as nat);
    }
}

proof fn lemma_bindings_error_stays(pairs: Seq<SExprView>, k: nat, n: nat)
    requires
        k <= n <= pairs.len(),
        bindings_of(pairs, k) is Err,
    ensures
        bindings_of(pairs, n) == bindings_of(pairs, k),
    decreases n,
{
    if k < n {
        lemma_bindings_error_stays(pairs, k, (n - 1) as nat);
    }
}

fn text_is(a: &String, b: &str) -> (res: bool)
    ensures
        res == (a@ == b@),
{
    let other = String::from_str(b);
    *a == other
}

fn keyword(w: &String) -> (res: bool)
    ensures
        res == is_keyword(w@),
{
    text_is(w, "if") || text_is(w, "set!") || text_is(w, "let") || text_is(w, "lambda") || text_is(
        w,
        "define",
    )
}

fn position(x: &SExpr) -> (at: usize)
    ensures
        at as nat == at_of(x@),
{
    match x {
        SExpr::Int(_, at) => *at,
        SExpr::Str(_, at) => *at,
        SExpr::Word(_, at) => *at,
        SExpr::List(_, at) => *at,
    }
}

fn word_from(w: &String, at: usize) -> (res: Result<BExpr, CompileError>)
    ensures
        expr_agrees(res, word_expr(w@, at as nat)),
{
    if text_is(w, "void") {
        Ok(BExpr::Lit(Literal::Void))
    } else if keyword(w) {
        Err(CompileError::Parse(at))
    } else if builtin_known(w) {
        Ok(BExpr::BuiltinIdent(w.clone()))
    } else {
        Ok(BExpr::Var(w.clone()))
    }
}

fn name_from(x: &SExpr) -> (res: Result<String, CompileError>)
    ensures
        name_agrees(res, name_of(x@)),
{
    match x {
        SExpr::Word(w, at) => {
            if text_is(w, "void") || keyword(w) {
                Err(CompileError::Parse(*at))
            } else {
                Ok(w.clone())
            }
        },
        other => Err(CompileError::Parse(position(other))),
    }
}

fn defines(x: &SExpr) -> (res: bool)
    ensures
        res == is_define(x@),
{
    match x {
        SExpr::List(items, _) => {
            assert(x@->List_0 =~= sexprs_view(items@));
            if items.len() == 0 {
                return false;
            }
            assert(sexprs_view(items@)[0] == items@[0]@);
            match &items[0] {
                SExpr::Word(w, _) => text_is(w, "define"),
                _ => false,
            }
        },
        _ => false,
    }
}

fn names_in(xs: &Vec<SExpr>, from: usize) -> (res: Result<Vec<String>, CompileError>)
    ensures
        names_agree(res, names_from(sexprs_view(xs@), from as nat, xs@.len())),
{
    let ghost views = sexprs_view(xs@);
    let mut out: Vec<String> = Vec::new();
    assert(names_view(out@) =~= Seq::empty());
    let n = xs.len();
    if from >= n {
        return Ok(out);
    }
    let mut i = from;
    while i < n
        invariant
            from <= i <= n,
            n == xs@.len(),
            views == sexprs_view(xs@),
            names_from(views, from as nat, i as nat) == Ok::<Seq<Seq<char>>, CompileErrorView>(
                names_view(out@),
            ),
        decreases n - i,
    {
        assert(views[i as int] == xs@[i as int]@);
        match name_from(&xs[i]) {
            Ok(name) => {
                let ghost before = names_view(out@);
                out.push(name);
                assert(names_view(out@) =~= before.push(name@));
            },
            Err(e) => {
                proof {
                    lemma_names_error_stays(views, from as nat, (i + 1) as nat, n as nat);
                }
                return Err(e);
            },
        }
        i += 1;
    }
    Ok(out)
}

#[verifier::loop_isolation(false)]
fn exprs_in(items: &Vec<SExpr>, from: usize) -> (res: Result<Vec<BExpr>, CompileError>)
    ensures
        exprs_agree(res, exprs_from(sexprs_view(items@), from as nat, items@.len())),
    decreases items, items@.len(),
{
    let ghost views = sexprs_view(items@);
    let mut out: Vec<BExpr> = Vec::new();
    assert(bexprs_view(out@) =~= Seq::empty());
    let n = items.len();
    if from >= n {
        return Ok(out);
    }
    let mut i = from;
    while i < n
        invariant
            from <= i <= n,
            exprs_from(views, from as nat, i as nat) == Ok::<Seq<BExprView>, CompileErrorView>(
                bexprs_view(out@),
            ),
        decreases n - i,
    {
        assert(views[i as int] == items@[i as int]@);
        match expr_from(&items[i]) {
            Ok(e) => {
                let ghost before = bexprs_view(out@);
                out.push(e);
                assert(bexprs_view(out@) =~= before.push(e@));
            },
            Err(e) => {
                proof {
                    lemma_exprs_error_stays(views, from as nat, (i + 1) as nat, n as nat);
                }
                return Err(e);
            },
        }
        i += 1;
    }
    Ok(out)
}

#[verifier::loop_isolation(false)]
fn items_in(items: &Vec<SExpr>, from: usize, to: usize) -> (res: Result<
    Vec<BExprBodyExpr>,
    CompileError,
>)
    requires
        to <= items@.len(),
    ensures
        items_agree(res, items_from(sexprs_view(items@), from as nat, to as nat)),
    decreases items, to,
{
    let ghost views = sexprs_view(items@);
    let mut out: Vec<BExprBodyExpr> = Vec::new();
    assert(items_view(out@) =~= Seq::empty());
    if from >= to {
        return Ok(out);
    }
    let mut i = from;
    while i < to
        invariant
            from <= i <= to,
            items_from(views, from as nat, i as nat) == Ok::<
                Seq<BExprBodyExprView>,
                CompileErrorView,
            >(items_view(out@)),
        decreases to - i,
    {
        assert(views[i as int] == items@[i as int]@);
        match item_from(&items[i]) {
            Ok(item) => {
                let ghost before = items_view(out@);
                out.push(item);
                assert(items_view(out@) =~= before.push(item@));
            },
            Err(e) => {
                proof {
                    lemma_items_error_stays(views, from as nat, (i + 1) as nat, to as nat);
                }
                return Err(e);
            },
        }
        i += 1;
    }
    Ok(out)
}

#[verifier::loop_isolation(false)]
fn bindings_in(pairs: &Vec<SExpr>) -> (res: Result<Vec<(String, BExpr)>, CompileError>)
    ensures
        bindings_agree(res, bindings_of(sexprs_view(pairs@), pairs@.len())),
    decreases pairs, pairs@.len(),
{
    let ghost views = sexprs_view(pairs@);
    let mut out: Vec<(String, BExpr)> = Vec::new();
    assert(bindings_view(out@) =~= Seq::empty());
    let n = pairs.len();
    let mut i: usize = 0;
    while i < n
        invariant
            i <= n,
            bindings_of(views, i as nat) == Ok::<Seq<(Seq<char>, BExprView)>, CompileErrorView>(
                bindings_view(out@),
            ),
        decreases n - i,
    {
        assert(views[i as int] == pairs@[i as int]@);
        proof {
            if bindings_of(views, (i + 1) as nat) is Err {
                lemma_bindings_error_stays(views, (i + 1) as nat, n as nat);
            }
        }
        match &pairs[i] {
            SExpr::List(pair, at) => {
                assert(pairs@[i as int]@->List_0 =~= sexprs_view(pair@));
                if pair.len() != 2 {
                    return Err(CompileError::Parse(*at));
                }
                assert(sexprs_view(pair@)[0] == pair@[0]@);
                assert(sexprs_view(pair@)[1] == pair@[1]@);
                let name = match name_from(&pair[0]) {
                    Ok(name) => name,
                    Err(e) => {
                        return Err(e);
                    },
                };
                let value = match expr_from(&pair[1]) {
                    Ok(v) => v,
                    Err(e) => {
                        return Err(e);
                    },
                };
                let ghost before = bindings_view(out@);
                let ghost added = (name@, value@);
                out.push((name, value));
                assert(bindings_view(out@) =~= before.push(added));
            },
            other => {
                return Err(CompileError::Parse(position(other)));
            },
        }
        i += 1;
    }
    Ok(out)
}

fn void_expr() -> (res: BExpr)
    ensures
        res@ == BExprView::Lit(LiteralView::Void),
{
    BExpr::Lit(Literal::Void)
}

fn if_from(items: &Vec<SExpr>, at: usize) -> (res: Result<BExpr, CompileError>)
    ensures
        expr_agrees(res, if_of(sexprs_view(items@), at as nat)),
    decreases items, items@.len() + 2,
{
    let ghost views = sexprs_view(items@);
    let n = items.len();
    if n != 3 && n != 4 {
        return Err(CompileError::Parse(at));
    }
    assert(views[1] == items@[1]@);
    assert(views[2] == items@[2]@);
    let c = match expr_from(&items[1]) {
        Ok(e) => e,
        Err(e) => {
            return Err(e);
        },
    };
    let t = match expr_from(&items[2]) {
        Ok(e) => e,
        Err(e) => {
            return Err(e);
        },
    };
    if n == 3 {
        return Ok(BExpr::If(Box::new(c), Box::new(t), Box::new(void_expr())));
    }
    assert(views[3] == items@[3]@);
    let f = match expr_from(&items[3]) {
        Ok(e) => e,
        Err(e) => {
            return Err(e);
        },
    };
    Ok(BExpr::If(Box::new(c), Box::new(t), Box::new(f)))
}

fn set_from(items: &Vec<SExpr>, at: usize) -> (res: Result<BExpr, CompileError>)
    ensures
        expr_agrees(res, set_of(sexprs_view(items@), at as nat)),
    decreases items, items@.len() + 2,
{
    let ghost views = sexprs_view(items@);
    if items.len() != 3 {
        return Err(CompileError::Parse(at));
    }
    assert(views[1] == items@[1]@);
    assert(views[2] == items@[2]@);
    let name = match name_from(&items[1]) {
        Ok(n) => n,
        Err(e) => {
            return Err(e);
        },
    };
    let value = match expr_from(&items[2]) {
        Ok(e) => e,
        Err(e) => {
            return Err(e);
        },
    };
    Ok(BExpr::Assign(name, Box::new(value)))
}

fn let_from(items: &Vec<SExpr>, at: usize) -> (res: Result<BExpr, CompileError>)
    ensures
        expr_agrees(res, let_of(sexprs_view(items@), at as nat)),
    decreases items, items@.len() + 2,
{
    let ghost views = sexprs_view(items@);
    if items.len() < 3 {
        return Err(CompileError::Parse(at));
    }
    assert(views[1] == items@[1]@);
    match &items[1] {
        SExpr::List(pairs, _) => {
            assert(items@[1]@->List_0 =~= sexprs_view(pairs@));
            let bs = match bindings_in(pairs) {
                Ok(bs) => bs,
                Err(e) => {
                    return Err(e);
                },
            };
            let body = match body_from(items, 2) {
                Ok(b) => b,
                Err(e) => {
                    return Err(e);
                },
            };
            let res = BExpr::Let(bs, body);
            assert(res@->Let_0 =~= bindings_view(bs@));
            Ok(res)
        },
        _ => Err(CompileError::Parse(at)),
    }
}

fn lambda_from(items: &Vec<SExpr>, at: usize) -> (res: Result<BExpr, CompileError>)
    ensures
        expr_agrees(res, lambda_of(sexprs_view(items@), at as nat)),
    decreases items, items@.len() + 2,
{
    let ghost views = sexprs_view(items@);
    if items.len() < 3 {
        return Err(CompileError::Parse(at));
    }
    assert(views[1] == items@[1]@);
    match &items[1] {
        SExpr::List(params, _) => {
            assert(items@[1]@->List_0 =~= sexprs_view(params@));
            let ps = match names_in(params, 0) {
                Ok(ps) => ps,
                Err(e) => {
                    return Err(e);
                },
            };
            let body = match body_from(items, 2) {
                Ok(b) => b,
                Err(e) => {
                    return Err(e);
                },
            };
            Ok(BExpr::Lam(ps, body))
        },
        _ => Err(CompileError::Parse(at)),
    }
}

fn app_from(items: &Vec<SExpr>) -> (res: Result<BExpr, CompileError>)
    requires
        items@.len() > 0,
    ensures
        expr_agrees(res, app_of(sexprs_view(items@))),
    decreases items, items@.len() + 2,
{
    let ghost views = sexprs_view(items@);
    assert(views[0] == items@[0]@);
    let f = match expr_from(&items[0]) {
        Ok(e) => e,
        Err(e) => {
            return Err(e);
        },
    };
    let args = match exprs_in(items, 1) {
        Ok(a) => a,
        Err(e) => {
            return Err(e);
        },
    };
    let res = BExpr::App(Box::new(f), args);
    assert(res@->App_1 =~= bexprs_view(args@));
    Ok(res)
}

fn body_from(items: &Vec<SExpr>, from: usize) -> (res: Result<BExprBody, CompileError>)
    ensures
        body_agrees(res, body_of(sexprs_view(items@), from as nat)),
    decreases items, items@.len() + 1,
{
    let ghost views = sexprs_view(items@);
    let n = items.len();
    if from >= n {
        return Err(CompileError::Parse(0));
    }
    let before = match items_in(items, from, n - 1) {
        Ok(b) => b,
        Err(e) => {
            return Err(e);
        },
    };
    assert(views[n - 1] == items@[n - 1]@);
    if defines(&items[n - 1]) {
        return Err(CompileError::IllFormedBody);
    }
    let last = match expr_from(&items[n - 1]) {
        Ok(e) => e,
        Err(e) => {
            return Err(e);
        },
    };
    let res = BExprBody(before, Box::new(last));
    assert(res@.items =~= items_view(before@));
    Ok(res)
}

fn define_from(items: &Vec<SExpr>, at: usize) -> (res: Result<BExprBodyExpr, CompileError>)
    ensures
        item_agrees(res, define_of(sexprs_view(items@), at as nat)),
    decreases items, items@.len() + 2,
{
    let ghost views = sexprs_view(items@);
    if items.len() < 3 {
        return Err(CompileError::Parse(at));
    }
    assert(views[1] == items@[1]@);
    assert(views[2] == items@[2]@);
    match &items[1] {
        SExpr::List(sig, sig_at) => {
            assert(items@[1]@->List_0 =~= sexprs_view(sig@));
            if sig.len() == 0 {
                return Err(CompileError::Parse(*sig_at));
            }
            assert(sexprs_view(sig@)[0] == sig@[0]@);
            let name = match name_from(&sig[0]) {
                Ok(n) => n,
                Err(e) => {
                    return Err(e);
                },
            };
            let ps = match names_in(sig, 1) {
                Ok(ps) => ps,
                Err(e) => {
                    return Err(e);
                },
            };
            let body = match body_from(items, 2) {
                Ok(b) => b,
                Err(e) => {
                    return Err(e);
                },
            };
            let lam = BExpr::Lam(ps, body);
            Ok(BExprBodyExpr::Def(name, lam))
        },
        other => {
            if items.len() != 3 {
                return Err(CompileError::Parse(at));
            }
            let name = match name_from(other) {
                Ok(n) => n,
                Err(e) => {
                    return Err(e);
                },
            };
            let value = match expr_from(&items[2]) {
                Ok(e) => e,
                Err(e) => {
                    return Err(e);
                },
            };
            Ok(BExprBodyExpr::Def(name, value))
        },
    }
}

fn item_from(x: &SExpr) -> (res: Result<BExprBodyExpr, CompileError>)
    ensures
        item_agrees(res, item_of(x@)),
    decreases x, 1nat,
{
    match x {
        SExpr::List(items, at) => {
            assert(x@->List_0 =~= sexprs_view(items@));
            if defines(x) {
                return define_from(items, *at);
            }
        },
        _ => {},
    }
    match expr_from(x) {
        Ok(e) => Ok(BExprBodyExpr::Expr(e)),
        Err(e) => Err(e),
    }
}

/// The expression that `x` stands for: see [`expr_of`].
fn expr_from(x: &SExpr) -> (res: Result<BExpr, CompileError>)
    ensures
        expr_agrees(res, expr_of(x@)),
    decreases x, 0nat,
{
    match x {
        SExpr::Int(v, _) => Ok(BExpr::Lit(Literal::Int(*v))),
        SExpr::Str(s, _) => Ok(BExpr::Lit(Literal::String(s.clone()))),
        SExpr::Word(w, at) => word_from(w, *at),
        SExpr::List(items, at) => {
            assert(x@->List_0 =~= sexprs_view(items@));
            if items.len() == 0 {
                return Err(CompileError::Parse(*at));
            }
            assert(sexprs_view(items@)[0] == items@[0]@);
            match &items[0] {
                SExpr::Word(w, _) => {
                    if text_is(w, "if") {
                        if_from(items, *at)
                    } else if text_is(w, "set!") {
                        set_from(items, *at)
                    } else if text_is(w, "let") {
                        let_from(items, *at)
                    } else if text_is(w, "lambda") {
                        lambda_from(items, *at)
                    } else if text_is(w, "define") {
                        Err(CompileError::Parse(*at))
                    } else {
                        app_from(items)
                    }
                },
                _ => app_from(items),
            }
        },
    }
}

/// The parser of the source language.
pub struct SchemeParser;

impl SchemeParser {
    /// The body of the program that the expressions `xs` make up: see
    /// [`program_of`].
    pub fn program(xs: &Vec<SExpr>) -> (res: Result<BExprBody, CompileError>)
        ensures
            body_agrees(res, program_of(sexprs_view(xs@))),
    {
        if xs.len() == 0 {
            return Err(CompileError::Parse(0));
        }
        body_from(xs, 0)
    }

    /// The expression that `x` stands for: see [`expr_of`].
    pub fn expression(x: &SExpr) -> (res: Result<BExpr, CompileError>)
        ensures
            expr_agrees(res, expr_of(x@)),
    {
        expr_from(x)
    }
}

/// Parses the source text of a program into its body: see [`parsed`].
pub fn parse(s: &str) -> (res: Result<BExprBody, CompileError>)
    ensures
        body_agrees(res, parsed(s@)),
{
    let toks = match tokenize(s) {
        Ok(t) => t,
        Err(e) => {
            return Err(e);
        },
    };
    let xs = match read(&toks) {
        Ok(xs) => xs,
        Err(e) => {
            return Err(e);
        },
    };
    SchemeParser::program(&xs)
}

} // verus!
