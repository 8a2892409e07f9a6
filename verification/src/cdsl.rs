use crate::utils::{decimal, push_decimal, push_signed_decimal, signed_decimal};
use vstd::prelude::*;

verus! {

/// A C type.
#[derive(Debug, PartialEq)]
pub enum CType {
    Ptr(Box<CType>),
    Arr(Box<CType>, Option<usize>),
    Int { size: usize, sign: bool },
    Struct(String),
    Union(String),
    Other(String),
    Static(Box<CType>),
    Const(Box<CType>),
    Void,
}

/// A C expression.
#[derive(Debug, PartialEq)]
pub enum CExpr {
    BinOp { op: String, left: Box<CExpr>, right: Box<CExpr> },
    PreUnOp { op: String, ex: Box<CExpr> },
    PostUnOp { op: String, ex: Box<CExpr> },
    ArrIndexOp { index: Box<CExpr>, expr: Box<CExpr> },
    Dot { expr: Box<CExpr>, attr: String },
    Arrow { expr: Box<CExpr>, attr: String },
    FunCallOp { expr: Box<CExpr>, params: Vec<CExpr> },
    Cast { ex: Box<CExpr>, typ: CType },
    MacroCall { name: String, args: Vec<MacroArg> },
    If { cond: Box<CExpr>, ift: Box<CExpr>, iff: Box<CExpr> },
    InitList(Vec<CExpr>),
    Ident(String),
    LitStr(String),
    LitUInt(usize),
    LitIInt(isize),
}

/// An argument of a macro call: an expression or a type.
#[derive(Debug, PartialEq)]
pub enum MacroArg {
    Expr(CExpr),
    Type(CType),
}

/// A C statement.
#[derive(Debug, PartialEq)]
pub enum CStmt {
    If { cond: CExpr, ift: Box<CStmt>, iff: Box<CStmt> },
    While { cond: CExpr, body: Box<CStmt> },
    For { init: CExpr, test: CExpr, updt: CExpr, body: Box<CStmt> },
    Decl(CDecl),
    Block(Vec<CStmt>),
    Expr(CExpr),
}

/// A C declaration.
#[allow(inconsistent_fields)]
#[derive(Debug, PartialEq)]
pub enum CDecl {
    FunProto { name: String, typ: CType, args: Vec<CType>, noreturn: bool },
    Fun { name: String, typ: CType, args: Vec<(String, CType)>, body: Vec<CStmt> },
    Struct { name: String, members: Vec<(String, CType)> },
    Union { name: String, members: Vec<(String, CType)> },
    Var { name: String, typ: CType, init: Option<CExpr> },
}

/// The mathematical value of a [`CType`].
pub enum CTypeView {
    Ptr(Box<CTypeView>),
    Arr(Box<CTypeView>, Option<nat>),
    Int { size: nat, sign: bool },
    Struct(Seq<char>),
    Union(Seq<char>),
    Other(Seq<char>),
    Static(Box<CTypeView>),
    Const(Box<CTypeView>),
    Void,
}

/// The mathematical value of a [`CExpr`].
pub enum CExprView {
    BinOp { op: Seq<char>, left: Box<CExprView>, right: Box<CExprView> },
    PreUnOp { op: Seq<char>, ex: Box<CExprView> },
    PostUnOp { op: Seq<char>, ex: Box<CExprView> },
    ArrIndexOp { index: Box<CExprView>, expr: Box<CExprView> },
    Dot { expr: Box<CExprView>, attr: Seq<char> },
    Arrow { expr: Box<CExprView>, attr: Seq<char> },
    FunCallOp { expr: Box<CExprView>, params: Seq<CExprView> },
    Cast { ex: Box<CExprView>, typ: CTypeView },
    MacroCall { name: Seq<char>, args: Seq<MacroArgView> },
    If { cond: Box<CExprView>, ift: Box<CExprView>, iff: Box<CExprView> },
    InitList(Seq<CExprView>),
    Ident(Seq<char>),
    LitStr(Seq<char>),
    LitUInt(nat),
    LitIInt(int),
}

/// The mathematical value of a [`MacroArg`].
pub enum MacroArgView {
    Expr(CExprView),
    Type(CTypeView),
}

/// The mathematical value of a [`CStmt`].
pub enum CStmtView {
    If { cond: CExprView, ift: Box<CStmtView>, iff: Box<CStmtView> },
    While { cond: CExprView, body: Box<CStmtView> },
    For { init: CExprView, test: CExprView, updt: CExprView, body: Box<CStmtView> },
    Decl(CDeclView),
    Block(Seq<CStmtView>),
    Expr(CExprView),
}

/// The mathematical value of a [`CDecl`].
#[allow(inconsistent_fields)]
pub enum CDeclView {
    FunProto { name: Seq<char>, typ: CTypeView, args: Seq<CTypeView>, noreturn: bool },
    Fun { name: Seq<char>, typ: CTypeView, args: Seq<(Seq<char>, CTypeView)>, body: Seq<CStmtView> },
    Struct { name: Seq<char>, members: Seq<(Seq<char>, CTypeView)> },
    Union { name: Seq<char>, members: Seq<(Seq<char>, CTypeView)> },
    Var { name: Seq<char>, typ: CTypeView, init: Option<CExprView> },
}

impl CType {
    /// The mathematical value of this term.
    pub open spec fn model(self) -> CTypeView
        decreases self,
    {
        match self {
            CType::Ptr(to) => CTypeView::Ptr(Box::new((*to).model())),
            CType::Arr(of, len) => CTypeView::Arr(
                Box::new((*of).model()),
                match len {
                    Some(n) => Some(n as nat),
                    None => None,
                },
            ),
            CType::Int { size, sign } => CTypeView::Int { size: size as nat, sign },
            CType::Struct(name) => CTypeView::Struct(name@),
            CType::Union(name) => CTypeView::Union(name@),
            CType::Other(name) => CTypeView::Other(name@),
            CType::Static(of) => CTypeView::Static(Box::new((*of).model())),
            CType::Const(of) => CTypeView::Const(Box::new((*of).model())),
            CType::Void => CTypeView::Void,
        }
    }
}

impl View for CType {
    type V = CTypeView;

    open spec fn view(&self) -> CTypeView {
        self.model()
    }
}

/// The views of a vector of types, in order.
pub open spec fn types_view(ts: Seq<CType>) -> Seq<CTypeView> {
    Seq::new(ts.len(), |i: int| ts[i]@)
}

/// The views of a vector of named types, in order.
pub open spec fn members_view(ms: Seq<(String, CType)>) -> Seq<(Seq<char>, CTypeView)> {
    Seq::new(ms.len(), |i: int| (ms[i].0@, ms[i].1@))
}

impl CExpr {
    /// The mathematical value of this term.
    pub open spec fn model(self) -> CExprView
        decreases self,
    {
        match self {
            CExpr::BinOp { op, left, right } => CExprView::BinOp {
                op: op@,
                left: Box::new((*left).model()),
                right: Box::new((*right).model()),
            },
            CExpr::PreUnOp { op, ex } => CExprView::PreUnOp { op: op@, ex: Box::new((*ex).model()) },
            CExpr::PostUnOp { op, ex } => CExprView::PostUnOp {
                op: op@,
                ex: Box::new((*ex).model()),
            },
            CExpr::ArrIndexOp { index, expr } => CExprView::ArrIndexOp {
                index: Box::new((*index).model()),
                expr: Box::new((*expr).model()),
            },
            CExpr::Dot { expr, attr } => CExprView::Dot {
                expr: Box::new((*expr).model()),
                attr: attr@,
            },
            CExpr::Arrow { expr, attr } => CExprView::Arrow {
                expr: Box::new((*expr).model()),
                attr: attr@,
            },
            CExpr::FunCallOp { expr, params } => CExprView::FunCallOp {
                expr: Box::new((*expr).model()),
                params: Seq::new(
                    params.len() as nat,
                    |i: int|
                        if 0 <= i < params.len() {
                            params[i].model()
                        } else {
                            CExprView::LitUInt(0)
                        },
                ),
            },
            CExpr::Cast { ex, typ } => CExprView::Cast { ex: Box::new((*ex).model()), typ: typ@ },
            CExpr::MacroCall { name, args } => CExprView::MacroCall {
                name: name@,
                args: Seq::new(
                    args.len() as nat,
                    |i: int|
                        if 0 <= i < args.len() {
                            args[i].model()
                        } else {
                            MacroArgView::Type(CTypeView::Void)
                        },
                ),
            },
            CExpr::If { cond, ift, iff } => CExprView::If {
                cond: Box::new((*cond).model()),
                ift: Box::new((*ift).model()),
                iff: Box::new((*iff).model()),
            },
            CExpr::InitList(items) => CExprView::InitList(
                Seq::new(
                    items.len() as nat,
                    |i: int|
                        if 0 <= i < items.len() {
                            items[i].model()
                        } else {
                            CExprView::LitUInt(0)
                        },
                ),
            ),
            CExpr::Ident(name) => CExprView::Ident(name@),
            CExpr::LitStr(text) => CExprView::LitStr(text@),
            CExpr::LitUInt(n) => CExprView::LitUInt(n as nat),
            CExpr::LitIInt(i) => CExprView::LitIInt(i as int),
        }
    }
}

impl MacroArg {
    /// The mathematical value of this term.
    pub open spec fn model(self) -> MacroArgView
        decreases self,
    {
        match self {
            MacroArg::Expr(e) => MacroArgView::Expr(e.model()),
            MacroArg::Type(t) => MacroArgView::Type(t@),
        }
    }
}

impl View for CExpr {
    type V = CExprView;

    open spec fn view(&self) -> CExprView {
        self.model()
    }
}

impl View for MacroArg {
    type V = MacroArgView;

    open spec fn view(&self) -> MacroArgView {
        self.model()
    }
}

/// The views of a vector of expressions, in order.
pub open spec fn exprs_view(es: Seq<CExpr>) -> Seq<CExprView> {
    Seq::new(es.len(), |i: int| es[i]@)
}

/// The views of a vector of macro arguments, in order.
pub open spec fn margs_view(args: Seq<MacroArg>) -> Seq<MacroArgView> {
    Seq::new(args.len(), |i: int| args[i]@)
}

impl CStmt {
    /// The mathematical value of this term.
    pub open spec fn model(self) -> CStmtView
        decreases self,
    {
        match self {
            CStmt::If { cond, ift, iff } => CStmtView::If {
                cond: cond@,
                ift: Box::new((*ift).model()),
                iff: Box::new((*iff).model()),
            },
            CStmt::While { cond, body } => CStmtView::While {
                cond: cond@,
                body: Box::new((*body).model()),
            },
            CStmt::For { init, test, updt, body } => CStmtView::For {
                init: init@,
                test: test@,
                updt: updt@,
                body: Box::new((*body).model()),
            },
            CStmt::Decl(decl) => CStmtView::Decl(decl.model()),
            CStmt::Block(body) => CStmtView::Block(
                Seq::new(
                    body.len() as nat,
                    |i: int|
                        if 0 <= i < body.len() {
                            body[i].model()
                        } else {
                            CStmtView::Block(Seq::empty())
                        },
                ),
            ),
            CStmt::Expr(e) => CStmtView::Expr(e@),
        }
    }
}

impl CDecl {
    /// The mathematical value of this term.
    pub open spec fn model(self) -> CDeclView
        decreases self,
    {
        match self {
            CDecl::FunProto { name, typ, args, noreturn } => CDeclView::FunProto {
                name: name@,
                typ: typ@,
                args: types_view(args@),
                noreturn,
            },
            CDecl::Fun { name, typ, args, body } => CDeclView::Fun {
                name: name@,
                typ: typ@,
                args: members_view(args@),
                body: Seq::new(
                    body.len() as nat,
                    |i: int|
                        if 0 <= i < body.len() {
                            body[i].model()
                        } else {
                            CStmtView::Block(Seq::empty())
                        },
                ),
            },
            CDecl::Struct { name, members } => CDeclView::Struct {
                name: name@,
                members: members_view(members@),
            },
            CDecl::Union { name, members } => CDeclView::Union {
                name: name@,
                members: members_view(members@),
            },
            CDecl::Var { name, typ, init } => CDeclView::Var {
                name: name@,
                typ: typ@,
                init: match init {
                    Some(e) => Some(e@),
                    None => None,
                },
            },
        }
    }
}

impl View for CStmt {
    type V = CStmtView;

    open spec fn view(&self) -> CStmtView {
        self.model()
    }
}

impl View for CDecl {
    type V = CDeclView;

    open spec fn view(&self) -> CDeclView {
        self.model()
    }
}

/// The views of a vector of statements, in order.
pub open spec fn stmts_view(ss: Seq<CStmt>) -> Seq<CStmtView> {
    Seq::new(ss.len(), |i: int| ss[i]@)
}

/// The views of a vector of declarations, in order.
pub open spec fn decls_view(ds: Seq<CDecl>) -> Seq<CDeclView> {
    Seq::new(ds.len(), |i: int| ds[i]@)
}

/// The texts of `parts` one after another, with `sep` between each two.
pub open spec fn join_text(parts: Seq<Seq<char>>, sep: Seq<char>) -> Seq<char>
    decreases parts.len(),
{
    if parts.len() == 0 {
        Seq::empty()
    } else if parts.len() == 1 {
        parts[0]
    } else {
        join_text(parts.drop_last(), sep) + sep + parts.last()
    }
}

/// The texts of `parts` one after another.
pub open spec fn concat_text(parts: Seq<Seq<char>>) -> Seq<char>
    decreases parts.len(),
{
    if parts.len() == 0 {
        Seq::empty()
    } else {
        concat_text(parts.drop_last()) + parts.last()
    }
}

/// The C text that declares `name` with the type `t`. With an empty `name`
/// it is the text of the type alone.
pub open spec fn declarator_text(t: CTypeView, name: Seq<char>) -> Seq<char>
    decreases t,
{
    match t {
        CTypeView::Ptr(to) => declarator_text(*to, "*"@ + name),
        CTypeView::Arr(of, None) => declarator_text(*of, name + "[]"@),
        CTypeView::Arr(of, Some(len)) => declarator_text(*of, name + "["@ + decimal(len) + "]"@),
        CTypeView::Int { size, sign } => (if sign {
            "u"@
        } else {
            ""@
        }) + "int"@ + decimal(size) + "_t"@ + name,
        CTypeView::Struct(tag) => "struct "@ + tag + " "@ + name,
        CTypeView::Union(tag) => "union "@ + tag + " "@ + name,
        CTypeView::Other(tag) => tag + " "@ + name,
        CTypeView::Static(of) => declarator_text(*of, "static "@ + name),
        CTypeView::Const(of) => declarator_text(*of, "const "@ + name),
        CTypeView::Void => "void "@ + name,
    }
}

/// The C text of the expression `e`.
pub open spec fn expr_text(e: CExprView) -> Seq<char>
    decreases e, 0nat,
{
    match e {
        CExprView::BinOp { op, left, right } => "("@ + expr_text(*left) + ")"@ + op + "("@
            + expr_text(*right) + ")"@,
        CExprView::PreUnOp { op, ex } => op + "("@ + expr_text(*ex) + ")"@,
        CExprView::PostUnOp { op, ex } => "("@ + expr_text(*ex) + ")"@ + op,
        CExprView::ArrIndexOp { index, expr } => "("@ + expr_text(*expr) + ")["@ + expr_text(
            *index,
        ) + "]"@,
        CExprView::Dot { expr, attr } => "("@ + expr_text(*expr) + ")."@ + attr,
        CExprView::Arrow { expr, attr } => "("@ + expr_text(*expr) + ")->"@ + attr,
        CExprView::FunCallOp { expr, params } => "("@ + expr_text(*expr) + ")("@ + exprs_text(params, params.len()) + ")"@,
        CExprView::Cast { ex, typ } => "("@ + declarator_text(typ, Seq::empty()) + ")("@
            + expr_text(*ex) + ")"@,
        CExprView::MacroCall { name, args } => name + "("@ + macro_args_text(args, args.len()) + ")"@,
        CExprView::If { cond, ift, iff } => "("@ + expr_text(*cond) + ")?("@ + expr_text(*ift)
            + "):("@ + expr_text(*iff) + ")"@,
        CExprView::InitList(items) => "{"@ + exprs_text(items, items.len()) + "}"@,
        CExprView::Ident(name) => name,
        CExprView::LitStr(text) => "\""@ + text + "\""@,
        CExprView::LitUInt(n) => decimal(n),
        CExprView::LitIInt(i) => signed_decimal(i),
    }
}

/// The C texts of the first `n` of the expressions `es`, with a comma
/// between each two.
pub open spec fn exprs_text(es: Seq<CExprView>, n: nat) -> Seq<char>
    decreases es, n,
{
    if n == 0 || n > es.len() {
        Seq::empty()
    } else if n == 1 {
        expr_text(es[0])
    } else {
        exprs_text(es, (n - 1) as nat) + ","@ + expr_text(es[n - 1])
    }
}

/// The C texts of the first `n` of the macro arguments `args`, with a comma
/// between each two.
pub open spec fn macro_args_text(args: Seq<MacroArgView>, n: nat) -> Seq<char>
    decreases args, n,
{
    if n == 0 || n > args.len() {
        Seq::empty()
    } else if n == 1 {
        macro_arg_text(args[0])
    } else {
        macro_args_text(args, (n - 1) as nat) + ","@ + macro_arg_text(args[n - 1])
    }
}

/// The C text of a macro argument.
pub open spec fn macro_arg_text(a: MacroArgView) -> Seq<char>
    decreases a, 0nat,
{
    match a {
        MacroArgView::Expr(e) => expr_text(e),
        MacroArgView::Type(t) => declarator_text(t, Seq::empty()),
    }
}

/// The texts of the types `ts`, in order.
pub open spec fn type_texts(ts: Seq<CTypeView>) -> Seq<Seq<char>> {
    Seq::new(ts.len(), |i: int| declarator_text(ts[i], Seq::empty()))
}

/// The texts that declare each of `ms`, in order.
pub open spec fn member_texts(ms: Seq<(Seq<char>, CTypeView)>) -> Seq<Seq<char>> {
    Seq::new(ms.len(), |i: int| declarator_text(ms[i].1, ms[i].0))
}

/// The texts that declare each of `ms` as a field, in order: the declaration
/// and a semicolon.
pub open spec fn field_texts(ms: Seq<(Seq<char>, CTypeView)>) -> Seq<Seq<char>> {
    Seq::new(ms.len(), |i: int| declarator_text(ms[i].1, ms[i].0) + ";"@)
}

/// What stands for the name in a function prototype: the name, the
/// parameter types in parentheses, and the attribute where the function
/// does not return.
pub open spec fn proto_head(name: Seq<char>, args: Seq<CTypeView>, noreturn: bool) -> Seq<char> {
    name + "("@ + join_text(type_texts(args), ", "@) + ")"@ + (if noreturn {
        "__attribute__((noreturn)) "@
    } else {
        ""@
    })
}

/// What stands for the name in a function definition: the name and the
/// named parameters in parentheses.
pub open spec fn fun_head(name: Seq<char>, args: Seq<(Seq<char>, CTypeView)>) -> Seq<char> {
    name + "("@ + join_text(member_texts(args), ", "@) + ")"@
}

/// The C text of the statement `s`.
pub open spec fn stmt_text(s: CStmtView) -> Seq<char>
    decreases s, 0nat,
{
    match s {
        CStmtView::If { cond, ift, iff } => "if ("@ + expr_text(cond) + ")"@ + stmt_text(*ift)
            + " else "@ + stmt_text(*iff),
        CStmtView::While { cond, body } => "while ("@ + expr_text(cond) + ")"@ + stmt_text(*body),
        CStmtView::For { init, test, updt, body } => "for ("@ + expr_text(init) + ";"@ + expr_text(
            test,
        ) + ";"@ + expr_text(updt) + ")"@ + stmt_text(*body),
        CStmtView::Decl(decl) => decl_text(decl),
        CStmtView::Block(body) => "{"@ + stmts_text(body, body.len()) + "}"@,
        CStmtView::Expr(e) => expr_text(e) + ";"@,
    }
}

/// The C texts of the first `n` of the statements `ss`, one after another.
pub open spec fn stmts_text(ss: Seq<CStmtView>, n: nat) -> Seq<char>
    decreases ss, n,
{
    if n == 0 || n > ss.len() {
        Seq::empty()
    } else {
        stmts_text(ss, (n - 1) as nat) + stmt_text(ss[n - 1])
    }
}

/// The C text of the declaration `d`.
pub open spec fn decl_text(d: CDeclView) -> Seq<char>
    decreases d, 0nat,
{
    match d {
        CDeclView::FunProto { name, typ, args, noreturn } => declarator_text(
            typ,
            proto_head(name, args, noreturn),
        ) + ";"@,
        CDeclView::Fun { name, typ, args, body } => declarator_text(typ, fun_head(name, args))
            + "{"@ + stmts_text(body, body.len()) + "}"@,
        CDeclView::Struct { name, members } => "struct "@ + name + " {"@ + concat_text(
            field_texts(members),
        ) + "};"@,
        CDeclView::Union { name, members } => "union "@ + name + " {"@ + concat_text(
            field_texts(members),
        ) + "};"@,
        CDeclView::Var { name, typ, init } => declarator_text(typ, name) + (match init {
            Some(e) => " = "@ + expr_text(e),
            None => Seq::empty(),
        }) + ";"@,
    }
}

/// A value that can be written out as C text.
pub trait ToC {
    /// The C text of this value.
    spec fn c_text(&self) -> Seq<char>;

    /// Appends the C text of this value to `s`.
    fn export_internal(&self, s: &mut String)
        ensures
            final(s)@ == old(s)@ + self.c_text(),
    ;

    /// The C text of this value.
    fn export(&self) -> (text: String)
        ensures
            text@ == self.c_text(),
    {
        let mut text = String::new();
        self.export_internal(&mut text);
        assert(Seq::<char>::empty() + self.c_text() =~= self.c_text());
        text
    }
}

/// A value that can stand as an argument of a macro call.
pub trait ToCDC: ToC {
    /// The macro argument that holds this value.
    spec fn as_arg(&self) -> MacroArgView;

    /// The macro argument that holds this value. Its text is the text of
    /// the value.
    fn into_arg(self) -> (arg: MacroArg)
        ensures
            arg@ == self.as_arg(),
            macro_arg_text(arg@) == self.c_text(),
    ;
}

proof fn lemma_join_step(parts: Seq<Seq<char>>, sep: Seq<char>, i: int)
    requires
        0 <= i < parts.len(),
    ensures
        join_text(parts.take(i + 1), sep) == if i == 0 {
            parts[0]
        } else {
            join_text(parts.take(i), sep) + sep + parts[i]
        },
{
    assert(parts.take(i + 1).drop_last() =~= parts.take(i));
    assert(parts.take(i + 1).last() == parts[i]);
    assert(parts.take(i + 1)[0] == parts[0]);
}

proof fn lemma_concat_step(parts: Seq<Seq<char>>, i: int)
    requires
        0 <= i < parts.len(),
    ensures
        concat_text(parts.take(i + 1)) == concat_text(parts.take(i)) + parts[i],
{
    assert(parts.take(i + 1).drop_last() =~= parts.take(i));
    assert(parts.take(i + 1).last() == parts[i]);
}

impl CType {
    /// Appends to `s` the C text that declares `name` with this type.
    pub fn export_with_name(&self, s: &mut String, name: &str)
        ensures
            final(s)@ == old(s)@ + declarator_text(self@, name@),
        decreases self,
    {
        match self {
            CType::Ptr(to) => {
                let mut inner = String::from_str("*");
                inner.append(name);
                to.export_with_name(s, inner.as_str());
            },
            CType::Arr(of, None) => {
                let mut inner = String::from_str(name);
                inner.append("[]");
                of.export_with_name(s, inner.as_str());
            },
            CType::Arr(of, Some(len)) => {
                let mut inner = String::from_str(name);
                inner.append("[");
                push_decimal(&mut inner, *len as u64);
                inner.append("]");
                of.export_with_name(s, inner.as_str());
            },
            CType::Int { size, sign } => {
                if *sign {
                    s.append("u");
                } else {
                    s.append("");
                }
                s.append("int");
                push_decimal(s, *size as u64);
                s.append("_t");
                s.append(name);
                assert(s@ =~= old(s)@ + declarator_text(self@, name@));
            },
            CType::Struct(tag) => {
                s.append("struct ");
                s.append(tag.as_str());
                s.append(" ");
                s.append(name);
                assert(s@ =~= old(s)@ + declarator_text(self@, name@));
            },
            CType::Union(tag) => {
                s.append("union ");
                s.append(tag.as_str());
                s.append(" ");
                s.append(name);
                assert(s@ =~= old(s)@ + declarator_text(self@, name@));
            },
            CType::Other(tag) => {
                s.append(tag.as_str());
                s.append(" ");
                s.append(name);
                assert(s@ =~= old(s)@ + declarator_text(self@, name@));
            },
            CType::Static(of) => {
                let mut inner = String::from_str("static ");
                inner.append(name);
                of.export_with_name(s, inner.as_str());
            },
            CType::Const(of) => {
                let mut inner = String::from_str("const ");
                inner.append(name);
                of.export_with_name(s, inner.as_str());
            },
            CType::Void => {
                s.append("void ");
                s.append(name);
                assert(s@ =~= old(s)@ + declarator_text(self@, name@));
            },
        }
    }
}

impl ToC for CType {
    open spec fn c_text(&self) -> Seq<char> {
        declarator_text(self@, Seq::empty())
    }

    fn export_internal(&self, s: &mut String) {
        let none = String::new();
        self.export_with_name(s, none.as_str());
    }
}

impl ToCDC for CType {
    open spec fn as_arg(&self) -> MacroArgView {
        MacroArgView::Type(self@)
    }

    fn into_arg(self) -> (arg: MacroArg) {
        MacroArg::Type(self)
    }
}


/// Appends to `s` the texts of `items`, with a comma between each two.
#[verifier::loop_isolation(false)]
fn export_exprs(items: &Vec<CExpr>, s: &mut String)
    ensures
        final(s)@ == old(s)@ + exprs_text(exprs_view(items@), items@.len()),
    decreases items,
{
    let ghost views = exprs_view(items@);
    let mut i: usize = 0;
    while i < items.len()
        invariant
            i <= items.len(),
            s@ == old(s)@ + exprs_text(views, i as nat),
        decreases items.len() - i,
    {
        if i > 0 {
            s.append(",");
        }
        items[i].emit(s);
        assert(views[i as int] == items@[i as int]@);
        i += 1;
        assert(s@ =~= old(s)@ + exprs_text(views, i as nat));
    }
}

/// Appends to `s` the texts of `args`, with a comma between each two.
#[verifier::loop_isolation(false)]
fn export_macro_args(args: &Vec<MacroArg>, s: &mut String)
    ensures
        final(s)@ == old(s)@ + macro_args_text(margs_view(args@), args@.len()),
    decreases args,
{
    let ghost views = margs_view(args@);
    let mut i: usize = 0;
    while i < args.len()
        invariant
            i <= args.len(),
            s@ == old(s)@ + macro_args_text(views, i as nat),
        decreases args.len() - i,
    {
        if i > 0 {
            s.append(",");
        }
        match &args[i] {
            MacroArg::Expr(e) => {
                e.emit(s);
                assert(macro_arg_text(args@[i as int]@) == expr_text(e@));
            },
            MacroArg::Type(t) => {
                t.export_internal(s);
                assert(macro_arg_text(args@[i as int]@) == t.c_text());
            },
        }
        assert(views[i as int] == args@[i as int]@);
        i += 1;
        assert(s@ =~= old(s)@ + macro_args_text(views, i as nat));
    }
}

impl CExpr {
    /// Appends the C text of this expression to `s`.
    #[verifier::rlimit(60)]
    pub fn emit(&self, s: &mut String)
        ensures
            final(s)@ == old(s)@ + expr_text(self@),
        decreases self,
    {
        match self {
            CExpr::BinOp { op, left, right } => {
                s.append("(");
                left.emit(s);
                s.append(")");
                s.append(op.as_str());
                s.append("(");
                right.emit(s);
                s.append(")");
                assert(s@ =~= old(s)@ + expr_text(self@));
            },
            CExpr::PreUnOp { op, ex } => {
                s.append(op.as_str());
                s.append("(");
                ex.emit(s);
                s.append(")");
                assert(s@ =~= old(s)@ + expr_text(self@));
            },
            CExpr::PostUnOp { op, ex } => {
                s.append("(");
                ex.emit(s);
                s.append(")");
                s.append(op.as_str());
                assert(s@ =~= old(s)@ + expr_text(self@));
            },
            CExpr::ArrIndexOp { index, expr } => {
                s.append("(");
                expr.emit(s);
                s.append(")[");
                index.emit(s);
                s.append("]");
                assert(s@ =~= old(s)@ + expr_text(self@));
            },
            CExpr::Dot { expr, attr } => {
                s.append("(");
                expr.emit(s);
                s.append(").");
                s.append(attr.as_str());
                assert(s@ =~= old(s)@ + expr_text(self@));
            },
            CExpr::Arrow { expr, attr } => {
                s.append("(");
                expr.emit(s);
                s.append(")->");
                s.append(attr.as_str());
                assert(s@ =~= old(s)@ + expr_text(self@));
            },
            CExpr::FunCallOp { expr, params } => {
                s.append("(");
                expr.emit(s);
                s.append(")(");
                export_exprs(params, s);
                s.append(")");
                assert(self@->FunCallOp_params =~= exprs_view(params@));
                assert(s@ =~= old(s)@ + expr_text(self@));
            },
            CExpr::Cast { ex, typ } => {
                s.append("(");
                typ.export_internal(s);
                s.append(")(");
                ex.emit(s);
                s.append(")");
                assert(s@ =~= old(s)@ + expr_text(self@));
            },
            CExpr::MacroCall { name, args } => {
                s.append(name.as_str());
                s.append("(");
                export_macro_args(args, s);
                s.append(")");
                assert(self@->MacroCall_args =~= margs_view(args@));
                assert(s@ =~= old(s)@ + expr_text(self@));
            },
            CExpr::If { cond, ift, iff } => {
                s.append("(");
                cond.emit(s);
                s.append(")?(");
                ift.emit(s);
                s.append("):(");
                iff.emit(s);
                s.append(")");
                assert(s@ =~= old(s)@ + expr_text(self@));
            },
            CExpr::InitList(items) => {
                s.append("{");
                export_exprs(items, s);
                s.append("}");
                assert(self@->InitList_0 =~= exprs_view(items@));
                assert(s@ =~= old(s)@ + expr_text(self@));
            },
            CExpr::Ident(name) => {
                s.append(name.as_str());
            },
            CExpr::LitStr(text) => {
                s.append("\"");
                s.append(text.as_str());
                s.append("\"");
                assert(s@ =~= old(s)@ + expr_text(self@));
            },
            CExpr::LitUInt(n) => {
                push_decimal(s, *n as u64);
            },
            CExpr::LitIInt(i) => {
                push_signed_decimal(s, *i as i64);
            },
        }
    }
}

impl ToC for CExpr {
    open spec fn c_text(&self) -> Seq<char> {
        expr_text(self@)
    }

    fn export_internal(&self, s: &mut String) {
        self.emit(s);
    }
}

impl ToCDC for CExpr {
    open spec fn as_arg(&self) -> MacroArgView {
        MacroArgView::Expr(self@)
    }

    fn into_arg(self) -> (arg: MacroArg) {
        MacroArg::Expr(self)
    }
}


/// Appends to `s` the texts of the types `ts`, with a comma and a space
/// between each two.
fn export_types(ts: &Vec<CType>, s: &mut String)
    ensures
        final(s)@ == old(s)@ + join_text(type_texts(types_view(ts@)), ", "@),
{
    let ghost texts = type_texts(types_view(ts@));
    let mut i: usize = 0;
    while i < ts.len()
        invariant
            i <= ts.len(),
            texts == type_texts(types_view(ts@)),
            s@ == old(s)@ + join_text(texts.take(i as int), ", "@),
        decreases ts.len() - i,
    {
        if i > 0 {
            s.append(", ");
        }
        ts[i].export_internal(s);
        proof {
            lemma_join_step(texts, ", "@, i as int);
            assert(texts[i as int] == ts@[i as int].c_text());
        }
        i += 1;
        assert(s@ =~= old(s)@ + join_text(texts.take(i as int), ", "@));
    }
    assert(texts.take(ts.len() as int) =~= texts);
}

/// Appends to `s` the declarations of the named types `ms`, with a comma
/// and a space between each two.
fn export_params(ms: &Vec<(String, CType)>, s: &mut String)
    ensures
        final(s)@ == old(s)@ + join_text(member_texts(members_view(ms@)), ", "@),
{
    let ghost texts = member_texts(members_view(ms@));
    let mut i: usize = 0;
    while i < ms.len()
        invariant
            i <= ms.len(),
            texts == member_texts(members_view(ms@)),
            s@ == old(s)@ + join_text(texts.take(i as int), ", "@),
        decreases ms.len() - i,
    {
        if i > 0 {
            s.append(", ");
        }
        ms[i].1.export_with_name(s, ms[i].0.as_str());
        proof {
            lemma_join_step(texts, ", "@, i as int);
            assert(texts[i as int] == declarator_text(ms@[i as int].1@, ms@[i as int].0@));
        }
        i += 1;
        assert(s@ =~= old(s)@ + join_text(texts.take(i as int), ", "@));
    }
    assert(texts.take(ms.len() as int) =~= texts);
}

/// Appends to `s` the declarations of the named types `ms`, each followed
/// by a semicolon.
fn export_fields(ms: &Vec<(String, CType)>, s: &mut String)
    ensures
        final(s)@ == old(s)@ + concat_text(field_texts(members_view(ms@))),
{
    let ghost texts = field_texts(members_view(ms@));
    let mut i: usize = 0;
    while i < ms.len()
        invariant
            i <= ms.len(),
            texts == field_texts(members_view(ms@)),
            s@ == old(s)@ + concat_text(texts.take(i as int)),
        decreases ms.len() - i,
    {
        ms[i].1.export_with_name(s, ms[i].0.as_str());
        s.append(";");
        proof {
            lemma_concat_step(texts, i as int);
            assert(texts[i as int] == declarator_text(ms@[i as int].1@, ms@[i as int].0@) + ";"@);
        }
        i += 1;
        assert(s@ =~= old(s)@ + concat_text(texts.take(i as int)));
    }
    assert(texts.take(ms.len() as int) =~= texts);
}

/// Appends to `s` the texts of the statements `body`, one after another.
#[verifier::loop_isolation(false)]
fn export_stmts(body: &Vec<CStmt>, s: &mut String)
    ensures
        final(s)@ == old(s)@ + stmts_text(stmts_view(body@), body@.len()),
    decreases body,
{
    let ghost views = stmts_view(body@);
    let mut i: usize = 0;
    while i < body.len()
        invariant
            i <= body.len(),
            s@ == old(s)@ + stmts_text(views, i as nat),
        decreases body.len() - i,
    {
        body[i].emit(s);
        assert(views[i as int] == body@[i as int]@);
        i += 1;
        assert(s@ =~= old(s)@ + stmts_text(views, i as nat));
    }
}

impl CStmt {
    /// Appends the C text of this statement to `s`.
    pub fn emit(&self, s: &mut String)
        ensures
            final(s)@ == old(s)@ + stmt_text(self@),
        decreases self,
    {
        match self {
            CStmt::If { cond, ift, iff } => {
                s.append("if (");
                cond.emit(s);
                s.append(")");
                ift.emit(s);
                s.append(" else ");
                iff.emit(s);
                assert(s@ =~= old(s)@ + stmt_text(self@));
            },
            CStmt::While { cond, body } => {
                s.append("while (");
                cond.emit(s);
                s.append(")");
                body.emit(s);
                assert(s@ =~= old(s)@ + stmt_text(self@));
            },
            CStmt::For { init, test, updt, body } => {
                s.append("for (");
                init.emit(s);
                s.append(";");
                test.emit(s);
                s.append(";");
                updt.emit(s);
                s.append(")");
                body.emit(s);
                assert(s@ =~= old(s)@ + stmt_text(self@));
            },
            CStmt::Decl(decl) => {
                decl.emit(s);
            },
            CStmt::Block(body) => {
                s.append("{");
                export_stmts(body, s);
                s.append("}");
                assert(self@->Block_0 =~= stmts_view(body@));
                assert(s@ =~= old(s)@ + stmt_text(self@));
            },
            CStmt::Expr(e) => {
                e.emit(s);
                s.append(";");
                assert(s@ =~= old(s)@ + stmt_text(self@));
            },
        }
    }
}

impl CDecl {
    /// Appends the C text of this declaration to `s`.
    pub fn emit(&self, s: &mut String)
        ensures
            final(s)@ == old(s)@ + decl_text(self@),
        decreases self,
    {
        match self {
            CDecl::FunProto { name, typ, args, noreturn } => {
                let mut head = name.clone();
                head.append("(");
                export_types(args, &mut head);
                head.append(")");
                if *noreturn {
                    head.append("__attribute__((noreturn)) ");
                } else {
                    head.append("");
                }
                assert(head@ =~= proto_head(name@, types_view(args@), *noreturn));
                typ.export_with_name(s, head.as_str());
                s.append(";");
                assert(s@ =~= old(s)@ + decl_text(self@));
            },
            CDecl::Fun { name, typ, args, body } => {
                let mut head = name.clone();
                head.append("(");
                export_params(args, &mut head);
                head.append(")");
                assert(head@ =~= fun_head(name@, members_view(args@)));
                typ.export_with_name(s, head.as_str());
                s.append("{");
                export_stmts(body, s);
                s.append("}");
                assert(self@->Fun_body =~= stmts_view(body@));
                assert(s@ =~= old(s)@ + decl_text(self@));
            },
            CDecl::Struct { name, members } => {
                s.append("struct ");
                s.append(name.as_str());
                s.append(" {");
                export_fields(members, s);
                s.append("};");
                assert(s@ =~= old(s)@ + decl_text(self@));
            },
            CDecl::Union { name, members } => {
                s.append("union ");
                s.append(name.as_str());
                s.append(" {");
                export_fields(members, s);
                s.append("};");
                assert(s@ =~= old(s)@ + decl_text(self@));
            },
            CDecl::Var { name, typ, init } => {
                typ.export_with_name(s, name.as_str());
                match init {
                    Some(e) => {
                        s.append(" = ");
                        e.emit(s);
                    },
                    None => {},
                }
                s.append(";");
                assert(s@ =~= old(s)@ + decl_text(self@));
            },
        }
    }
}

impl ToC for CStmt {
    open spec fn c_text(&self) -> Seq<char> {
        stmt_text(self@)
    }

    fn export_internal(&self, s: &mut String) {
        self.emit(s);
    }
}

impl ToC for CDecl {
    open spec fn c_text(&self) -> Seq<char> {
        decl_text(self@)
    }

    fn export_internal(&self, s: &mut String) {
        self.emit(s);
    }
}

} // verus!
