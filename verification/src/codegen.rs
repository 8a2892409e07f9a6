use crate::cdsl::{
    margs_view, stmts_view, CDecl, CDeclView, CExpr, CExprView, CStmt, CStmtView, CType, CTypeView,
    MacroArg, MacroArgView,
};
use crate::error::{CompileError, CompileErrorView};
use crate::lifted_expr::{
    dense, lambda_at, lambda_total, lambdas_view, lifted_computation, refs_below, table_wf, LExpr,
    LExprView, LiftedLambda, LiftedLambdaView,
};
use crate::literals::{Literal, LiteralView};
use crate::names::{contains_var, has_id, FreeVar, FreeVarView};
use crate::utils::{alnum_only, decimal, push_alnum_only, push_decimal};
use std::collections::HashMap;
use vstd::prelude::*;

verus! {

/// The name of the temporary drawn at `n`.
pub open spec fn temp_name(n: nat) -> Seq<char> {
    "var_"@ + decimal(n)
}

/// The name of the slot that holds the variable `v` in an environment: the
/// letters and digits of its spelling, and its identifier.
pub open spec fn slot_name(v: FreeVarView) -> Seq<char> {
    "v_"@ + alnum_only(v.name) + "_"@ + decimal(v.id)
}

/// The name of the environment struct of the lifted function `id`.
pub open spec fn env_name(id: nat) -> Seq<char> {
    "env_"@ + decimal(id)
}

/// The name of the C function of the lifted function `id`.
pub open spec fn lambda_name(id: nat) -> Seq<char> {
    "lambda_"@ + decimal(id)
}

/// The type of a pointer to the struct `tag`.
pub open spec fn ptr_to_struct(tag: Seq<char>) -> CTypeView {
    CTypeView::Ptr(Box::new(CTypeView::Struct(tag)))
}

/// The type of every value of the compiled program: a pointer to an object.
pub open spec fn object_type_view() -> CTypeView {
    ptr_to_struct("obj"@)
}

/// The identifier `name` as an expression.
pub open spec fn ident(name: Seq<char>) -> CExprView {
    CExprView::Ident(name)
}

/// The member `attr` of what `expr` points to.
pub open spec fn arrow(expr: CExprView, attr: Seq<char>) -> CExprView {
    CExprView::Arrow { expr: Box::new(expr), attr }
}

/// The expression `e` as a macro argument.
pub open spec fn arg(e: CExprView) -> MacroArgView {
    MacroArgView::Expr(e)
}

/// The call of the macro `name` with `args`.
pub open spec fn macro_call(name: Seq<char>, args: Seq<MacroArgView>) -> CExprView {
    CExprView::MacroCall { name, args }
}

/// The expression `e` as a statement.
pub open spec fn expr_stmt(e: CExprView) -> CStmtView {
    CStmtView::Expr(e)
}

/// The statement that assigns `right` to `left`.
pub open spec fn assign_stmt(left: CExprView, right: CExprView) -> CStmtView {
    CStmtView::Expr(CExprView::BinOp { op: "="@, left: Box::new(left), right: Box::new(right) })
}

/// The value of the variable `v`: what the cell in its slot of the current
/// environment holds.
pub open spec fn cell_value(v: FreeVarView) -> CExprView {
    arrow(
        CExprView::Cast {
            ex: Box::new(arrow(ident("env"@), slot_name(v))),
            typ: ptr_to_struct("cell_obj"@),
        },
        "val"@,
    )
}

/// The environment of the lifted function `id` inside the object that
/// `holder` points to.
pub open spec fn env_cast(holder: CExprView, id: nat) -> CExprView {
    CExprView::Cast {
        ex: Box::new(CExprView::PreUnOp { op: "&"@, ex: Box::new(arrow(holder, "env"@)) }),
        typ: ptr_to_struct(env_name(id)),
    }
}

/// The statement that marks the end of a function body as never reached.
pub open spec fn unreachable_stmt() -> CStmtView {
    expr_stmt(macro_call("__builtin_unreachable"@, Seq::empty()))
}

/// The runtime function behind the builtin `name` and the number of its
/// parameters, the continuation included; `None` for any other name.
pub open spec fn builtin_info(name: Seq<char>) -> Option<(nat, Seq<char>)> {
    if name == "tostring"@ {
        Some((2nat, "to_string_k"@))
    } else if name == "display"@ {
        Some((2nat, "display_k"@))
    } else if name == "exit"@ {
        Some((1nat, "exit_k"@))
    } else if name == "+"@ {
        Some((2nat, "add_k"@))
    } else if name == "-"@ {
        Some((2nat, "sub_k"@))
    } else if name == "*"@ {
        Some((2nat, "mul_k"@))
    } else if name == "/"@ {
        Some((2nat, "div_k"@))
    } else if name == "^"@ {
        Some((2nat, "xor_k"@))
    } else if name == "cons"@ {
        Some((2nat, "cons_k"@))
    } else if name == "cons?"@ {
        Some((2nat, "is_cons_k"@))
    } else if name == "null?"@ {
        Some((2nat, "is_null_k"@))
    } else if name == "car"@ {
        Some((2nat, "car_k"@))
    } else if name == "cdr"@ {
        Some((2nat, "cdr_k"@))
    } else if name == "string-concat"@ {
        Some((2nat, "string_concat_k"@))
    } else {
        None
    }
}

/// The macro that makes a closure of a function of `params` parameters.
pub open spec fn closure_ctor(params: nat) -> Seq<char> {
    if params == 1 {
        "OBJECT_CLOSURE_ONE_NEW"@
    } else {
        "OBJECT_CLOSURE_TWO_NEW"@
    }
}

/// The statement that makes, in the temporary drawn at `n`, a closure of
/// `target` with the environment `env`.
pub open spec fn closure_stmt(params: nat, n: nat, target: Seq<char>, env: CExprView) -> CStmtView {
    expr_stmt(
        macro_call(
            closure_ctor(params),
            seq![arg(ident(temp_name(n))), arg(ident(target)), arg(env)],
        ),
    )
}

/// The statement that makes, in the temporary drawn at `n`, an object with
/// the macro `ctor` from `value`.
pub open spec fn object_stmt(ctor: Seq<char>, n: nat, value: CExprView) -> CStmtView {
    expr_stmt(macro_call(ctor, seq![arg(ident(temp_name(n))), arg(value)]))
}

/// The statement that makes, in the temporary drawn at `n`, an empty
/// environment of the lifted function `id`.
pub open spec fn new_env_stmt(n: nat, id: nat) -> CStmtView {
    expr_stmt(
        macro_call(
            "OBJECT_ENV_OBJ_NEW"@,
            seq![arg(ident(temp_name(n))), MacroArgView::Type(CTypeView::Struct(env_name(id)))],
        ),
    )
}

/// The statement that copies the slot of `v` from the current environment
/// into the environment of the lifted function `id` held in the temporary
/// drawn at `n`.
pub open spec fn copy_stmt(v: FreeVarView, n: nat, id: nat) -> CStmtView {
    assign_stmt(
        arrow(env_cast(ident(temp_name(n)), id), slot_name(v)),
        arrow(ident("env"@), slot_name(v)),
    )
}

/// The statements that copy into the new environment the first `k` free
/// variables of `lambda`, those left out that are its own parameters.
pub open spec fn copy_stmts(lambda: LiftedLambdaView, n: nat, k: nat) -> Seq<CStmtView>
    decreases k,
{
    if k == 0 || k > lambda.freevars.len() {
        Seq::empty()
    } else {
        let before = copy_stmts(lambda, n, (k - 1) as nat);
        let v = lambda.freevars[k - 1];
        if has_id(lambda.params, v.id) {
            before
        } else {
            before.push(copy_stmt(v, n, lambda.id))
        }
    }
}

/// The statements that make a closure of `lambda`: a new environment in
/// the temporary drawn at `n`, filled from the current one, and the
/// closure in the temporary drawn next.
pub open spec fn closure_stmts(lambda: LiftedLambdaView, n: nat) -> Seq<CStmtView> {
    seq![new_env_stmt(n, lambda.id)] + copy_stmts(lambda, n, lambda.freevars.len()).push(
        closure_stmt(lambda.params.len(), n + 1, lambda_name(lambda.id), ident(temp_name(n))),
    )
}

/// Whether the integer `i` can stand as a signed literal of the target.
pub open spec fn fits_isize(i: int) -> bool {
    isize::MIN <= i <= isize::MAX
}

/// The first reason, in the order of emission, for which `e` cannot be
/// emitted: a builtin that names no runtime function, or a literal
/// without a counterpart.
pub open spec fn emit_fault(e: LExprView) -> Option<CompileErrorView>
    decreases e,
{
    match e {
        LExprView::Var(_) => None,
        LExprView::Lit(LiteralView::Float(_)) => Some(CompileErrorView::UnsupportedLiteral),
        LExprView::Lit(LiteralView::Int(i)) => if fits_isize(i) {
            None
        } else {
            Some(CompileErrorView::UnsupportedLiteral)
        },
        LExprView::Lit(_) => None,
        LExprView::BuiltinIdent(name) => if builtin_info(name) is Some {
            None
        } else {
            Some(CompileErrorView::UnknownBuiltin(name))
        },
        LExprView::SetThen(_, a, then) => match emit_fault(*a) {
            Some(x) => Some(x),
            None => emit_fault(*then),
        },
        LExprView::If(c, t, f) => match emit_fault(*t) {
            Some(x) => Some(x),
            None => match emit_fault(*f) {
                Some(x) => Some(x),
                None => emit_fault(*c),
            },
        },
        LExprView::Lifted(_) => None,
        LExprView::CallOne(k, a) => match emit_fault(*k) {
            Some(x) => Some(x),
            None => emit_fault(*a),
        },
        LExprView::CallTwo(f, a, k) => match emit_fault(*f) {
            Some(x) => Some(x),
            None => match emit_fault(*a) {
                Some(x) => Some(x),
                None => emit_fault(*k),
            },
        },
    }
}

/// The number of temporaries that emitting `e` draws.
pub open spec fn emit_demand(e: LExprView) -> nat
    decreases e,
{
    match e {
        LExprView::Var(_) => 0,
        LExprView::Lit(LiteralView::Int(_)) => 1,
        LExprView::Lit(LiteralView::String(_)) => 1,
        LExprView::Lit(_) => 0,
        LExprView::BuiltinIdent(_) => 1,
        LExprView::SetThen(_, a, then) => emit_demand(*a) + emit_demand(*then),
        LExprView::If(c, t, f) => emit_demand(*c) + emit_demand(*t) + emit_demand(*f),
        LExprView::Lifted(_) => 2,
        LExprView::CallOne(k, a) => emit_demand(*k) + emit_demand(*a),
        LExprView::CallTwo(f, a, k) => emit_demand(*f) + emit_demand(*a) + emit_demand(*k),
    }
}

/// The block of a branch: the statements that prepare `e`, then `e` itself
/// as a statement.
pub open spec fn branch_block(stmts: Seq<CStmtView>, value: CExprView) -> CStmtView {
    CStmtView::Block(stmts.push(expr_stmt(value)))
}

/// The C expression that stands for the value of `e`, after the
/// statements of [`emit_stmts`]; the temporaries are drawn from `n` on.
pub open spec fn emit_value(e: LExprView, table: Seq<LiftedLambdaView>, n: nat) -> CExprView
    decreases e,
{
    match e {
        LExprView::Var(v) => cell_value(v),
        LExprView::Lit(LiteralView::Void) => ident("NULL"@),
        LExprView::Lit(_) => ident(temp_name(n)),
        LExprView::BuiltinIdent(_) => ident(temp_name(n)),
        LExprView::SetThen(_, a, then) => emit_value(*then, table, n + emit_demand(*a)),
        LExprView::If(_, _, _) => CExprView::LitIInt(0),
        LExprView::Lifted(_) => ident(temp_name(n + 1)),
        LExprView::CallOne(k, a) => macro_call(
            "call_closure_one"@,
            seq![
                arg(emit_value(*k, table, n)),
                arg(emit_value(*a, table, n + emit_demand(*k))),
            ],
        ),
        LExprView::CallTwo(f, a, k) => macro_call(
            "call_closure_two"@,
            seq![
                arg(emit_value(*f, table, n)),
                arg(emit_value(*a, table, n + emit_demand(*f))),
                arg(emit_value(*k, table, n + emit_demand(*f) + emit_demand(*a))),
            ],
        ),
    }
}

/// The C statements that prepare the value of `e`, in order; the
/// temporaries are drawn from `n` on. A conditional draws for its first
/// branch, then for its second, then for its condition, whose statements
/// nevertheless come before the `if`.
pub open spec fn emit_stmts(e: LExprView, table: Seq<LiftedLambdaView>, n: nat) -> Seq<CStmtView>
    decreases e,
{
    match e {
        LExprView::Var(_) => Seq::empty(),
        LExprView::Lit(LiteralView::Int(i)) => seq![
            object_stmt("OBJECT_INT_OBJ_NEW"@, n, CExprView::LitIInt(i)),
        ],
        LExprView::Lit(LiteralView::String(s)) => seq![
            object_stmt("OBJECT_STRING_OBJ_NEW"@, n, CExprView::LitStr(s)),
        ],
        LExprView::Lit(_) => Seq::empty(),
        LExprView::BuiltinIdent(name) => match builtin_info(name) {
            Some((params, target)) => seq![closure_stmt(params, n, target, ident("NULL"@))],
            None => Seq::empty(),
        },
        LExprView::SetThen(v, a, then) => emit_stmts(*a, table, n).push(
            assign_stmt(cell_value(v), emit_value(*a, table, n)),
        ) + emit_stmts(*then, table, n + emit_demand(*a)),
        LExprView::If(c, t, f) => emit_stmts(
            *c,
            table,
            n + emit_demand(*t) + emit_demand(*f),
        ).push(
            CStmtView::If {
                cond: macro_call(
                    "obj_is_truthy"@,
                    seq![arg(emit_value(*c, table, n + emit_demand(*t) + emit_demand(*f)))],
                ),
                ift: Box::new(branch_block(emit_stmts(*t, table, n), emit_value(*t, table, n))),
                iff: Box::new(
                    branch_block(
                        emit_stmts(*f, table, n + emit_demand(*t)),
                        emit_value(*f, table, n + emit_demand(*t)),
                    ),
                ),
            },
        ),
        LExprView::Lifted(id) => if id < table.len() {
            closure_stmts(table[id as int], n)
        } else {
            Seq::empty()
        },
        LExprView::CallOne(k, a) => emit_stmts(*k, table, n) + emit_stmts(
            *a,
            table,
            n + emit_demand(*k),
        ),
        LExprView::CallTwo(f, a, k) => emit_stmts(*f, table, n) + emit_stmts(
            *a,
            table,
            n + emit_demand(*f),
        ) + emit_stmts(*k, table, n + emit_demand(*f) + emit_demand(*a)),
    }
}

/// The count of temporaries after `n` more were drawn from `count`.
pub open spec fn bump(count: nat, n: nat) -> nat {
    if count + n < usize::MAX {
        count + n
    } else {
        usize::MAX as nat
    }
}


/// What the emitter keeps while it works: the count of temporaries drawn,
/// the declarations made so far, and the table of lifted functions.
pub struct CodegenCtx<'a> {
    unique_var_id: usize,
    protos: Vec<CDecl>,
    declarations: Vec<CDecl>,
    lambdas: &'a HashMap<usize, LiftedLambda>,
}

impl<'a> CodegenCtx<'a> {
    /// The number of temporaries drawn so far.
    pub closed spec fn next(&self) -> nat {
        self.unique_var_id as nat
    }

    /// The table of lifted functions.
    pub closed spec fn table(&self) -> Seq<LiftedLambdaView> {
        lambdas_view(self.lambdas@)
    }

    /// Whether the lifted functions are keyed by the identifiers from 0
    /// on, without gaps.
    pub closed spec fn keyed(&self) -> bool {
        dense(self.lambdas@)
    }

    /// The struct declarations and prototypes made so far.
    pub closed spec fn protos_view(&self) -> Seq<CDeclView> {
        crate::cdsl::decls_view(self.protos@)
    }

    /// The function definitions made so far.
    pub closed spec fn decls_view(&self) -> Seq<CDeclView> {
        crate::cdsl::decls_view(self.declarations@)
    }

    /// Whether the supply of temporaries has run out.
    pub open spec fn is_exhausted(&self) -> bool {
        self.next() >= usize::MAX
    }

    /// The count never passes the point of exhaustion.
    pub proof fn lemma_next_in_range(&self)
        ensures
            self.next() <= usize::MAX,
    {
    }

    /// A context for the table `lambdas`, with no temporary drawn and no
    /// declaration made.
    pub fn new(lambdas: &'a HashMap<usize, LiftedLambda>) -> (ctx: Self)
        ensures
            ctx.next() == 0,
            ctx.table() == lambdas_view(lambdas@),
            ctx.keyed() == dense(lambdas@),
            ctx.protos_view() == Seq::<CDeclView>::empty(),
            ctx.decls_view() == Seq::<CDeclView>::empty(),
    {
        let ctx = CodegenCtx {
            unique_var_id: 0,
            protos: Vec::new(),
            declarations: Vec::new(),
            lambdas,
        };
        assert(ctx.protos_view() =~= Seq::<CDeclView>::empty());
        assert(ctx.decls_view() =~= Seq::<CDeclView>::empty());
        ctx
    }

    /// Whether the supply of temporaries has run out.
    pub fn exhausted(&self) -> (b: bool)
        ensures
            b == self.is_exhausted(),
    {
        self.unique_var_id == usize::MAX
    }

    fn gen_var_id(&mut self) -> (id: usize)
        ensures
            id as nat == old(self).next(),
            final(self).next() == bump(old(self).next(), 1),
            final(self).table() == old(self).table(),
            final(self).protos_view() == old(self).protos_view(),
            final(self).decls_view() == old(self).decls_view(),
            final(self).lambdas == old(self).lambdas,
    {
        let id = self.unique_var_id;
        if id < usize::MAX {
            self.unique_var_id = id + 1;
        }
        id
    }

    fn gen_var(&mut self) -> (name: String)
        ensures
            name@ == temp_name(old(self).next()),
            final(self).next() == bump(old(self).next(), 1),
            final(self).table() == old(self).table(),
            final(self).protos_view() == old(self).protos_view(),
            final(self).decls_view() == old(self).decls_view(),
            final(self).lambdas == old(self).lambdas,
    {
        let id = self.gen_var_id();
        let mut name = String::from_str("var_");
        push_decimal(&mut name, id as u64);
        name
    }

    fn add_proto(&mut self, proto: CDecl)
        ensures
            final(self).next() == old(self).next(),
            final(self).table() == old(self).table(),
            final(self).protos_view() == old(self).protos_view().push(proto@),
            final(self).decls_view() == old(self).decls_view(),
            final(self).lambdas == old(self).lambdas,
    {
        self.protos.push(proto);
        assert(self.protos_view() =~= old(self).protos_view().push(proto@));
    }

    fn add_decl(&mut self, decl: CDecl)
        ensures
            final(self).next() == old(self).next(),
            final(self).table() == old(self).table(),
            final(self).protos_view() == old(self).protos_view(),
            final(self).decls_view() == old(self).decls_view().push(decl@),
            final(self).lambdas == old(self).lambdas,
    {
        self.declarations.push(decl);
        assert(self.decls_view() =~= old(self).decls_view().push(decl@));
    }
}

fn mk_ident(name: &str) -> (res: CExpr)
    ensures
        res@ == ident(name@),
{
    CExpr::Ident(String::from_str(name))
}

fn mk_ident_of(name: String) -> (res: CExpr)
    ensures
        res@ == ident(name@),
{
    CExpr::Ident(name)
}

fn mk_arrow(expr: CExpr, attr: String) -> (res: CExpr)
    ensures
        res@ == arrow(expr@, attr@),
{
    CExpr::Arrow { expr: Box::new(expr), attr }
}

fn mk_arg(e: CExpr) -> (res: MacroArg)
    ensures
        res@ == arg(e@),
{
    MacroArg::Expr(e)
}

fn mk_macro(name: &str, args: Vec<MacroArg>) -> (res: CExpr)
    ensures
        res@ == macro_call(name@, margs_view(args@)),
{
    let res = CExpr::MacroCall { name: String::from_str(name), args };
    assert(res@->MacroCall_args =~= margs_view(args@));
    res
}

fn args1(a: MacroArg) -> (res: Vec<MacroArg>)
    ensures
        margs_view(res@) == seq![a@],
{
    let res = vec![a];
    assert(margs_view(res@) =~= seq![a@]);
    res
}

fn args2(a: MacroArg, b: MacroArg) -> (res: Vec<MacroArg>)
    ensures
        margs_view(res@) == seq![a@, b@],
{
    let res = vec![a, b];
    assert(margs_view(res@) =~= seq![a@, b@]);
    res
}

fn args3(a: MacroArg, b: MacroArg, c: MacroArg) -> (res: Vec<MacroArg>)
    ensures
        margs_view(res@) == seq![a@, b@, c@],
{
    let res = vec![a, b, c];
    assert(margs_view(res@) =~= seq![a@, b@, c@]);
    res
}

fn mk_expr_stmt(e: CExpr) -> (res: CStmt)
    ensures
        res@ == expr_stmt(e@),
{
    CStmt::Expr(e)
}

fn mk_assign(left: CExpr, right: CExpr) -> (res: CStmt)
    ensures
        res@ == assign_stmt(left@, right@),
{
    let e = CExpr::BinOp { op: String::from_str("="), left: Box::new(left), right: Box::new(right) };
    assert(e@ == CExprView::BinOp { op: "="@, left: Box::new(left@), right: Box::new(right@) });
    CStmt::Expr(e)
}

pub(crate) fn mk_ptr_to_struct(tag: String) -> (res: CType)
    ensures
        res@ == ptr_to_struct(tag@),
{
    let inner = CType::Struct(tag);
    assert(inner@ == CTypeView::Struct(tag@));
    CType::Ptr(Box::new(inner))
}

/// The type of every value of the compiled program: a pointer to an object.
pub fn object_type() -> (res: CType)
    ensures
        res@ == object_type_view(),
{
    mk_ptr_to_struct(String::from_str("obj"))
}

pub(crate) fn push_stmt(stmts: &mut Vec<CStmt>, s: CStmt)
    ensures
        stmts_view(final(stmts)@) == stmts_view(old(stmts)@).push(s@),
{
    stmts.push(s);
    assert(stmts_view(stmts@) =~= stmts_view(old(stmts)@).push(s@));
}

/// The name of the slot that holds the variable `var` in an environment.
pub fn name_for_free_var(var: &FreeVar) -> (name: String)
    ensures
        name@ == slot_name(var@),
{
    let mut name = String::from_str("v_");
    push_alnum_only(&mut name, var.pretty_name.as_str());
    name.append("_");
    push_decimal(&mut name, var.unique_id);
    name
}

fn env_text(id: usize) -> (name: String)
    ensures
        name@ == env_name(id as nat),
{
    let mut name = String::from_str("env_");
    push_decimal(&mut name, id as u64);
    name
}

fn lambda_text(id: usize) -> (name: String)
    ensures
        name@ == lambda_name(id as nat),
{
    let mut name = String::from_str("lambda_");
    push_decimal(&mut name, id as u64);
    name
}

fn mk_cell_value(v: &FreeVar) -> (res: CExpr)
    ensures
        res@ == cell_value(v@),
{
    let slot = mk_arrow(mk_ident("env"), name_for_free_var(v));
    let cast = CExpr::Cast {
        ex: Box::new(slot),
        typ: mk_ptr_to_struct(String::from_str("cell_obj")),
    };
    assert(cast@ == CExprView::Cast {
        ex: Box::new(arrow(ident("env"@), slot_name(v@))),
        typ: ptr_to_struct("cell_obj"@),
    });
    mk_arrow(cast, String::from_str("val"))
}

pub(crate) fn mk_unreachable() -> (res: CStmt)
    ensures
        res@ == unreachable_stmt(),
{
    let args: Vec<MacroArg> = Vec::new();
    assert(margs_view(args@) =~= Seq::empty());
    mk_expr_stmt(mk_macro("__builtin_unreachable", args))
}

fn text_is(a: &String, b: &str) -> (res: bool)
    ensures
        res == (a@ == b@),
{
    let other = String::from_str(b);
    *a == other
}

fn known(params: usize, target: &str) -> (res: Option<(usize, String)>)
    ensures
        res == Some((params, res->Some_0.1)),
        res->Some_0.1@ == target@,
{
    Some((params, String::from_str(target)))
}

/// The runtime function behind the builtin `name` and the number of its
/// parameters.
fn builtin_lookup(name: &String) -> (res: Option<(usize, String)>)
    ensures
        match res {
            Some((params, target)) => builtin_info(name@) == Some((params as nat, target@)),
            None => builtin_info(name@) is None,
        },
{
    if text_is(name, "tostring") {
        known(2, "to_string_k")
    } else if text_is(name, "display") {
        known(2, "display_k")
    } else if text_is(name, "exit") {
        known(1, "exit_k")
    } else if text_is(name, "+") {
        known(2, "add_k")
    } else if text_is(name, "-") {
        known(2, "sub_k")
    } else if text_is(name, "*") {
        known(2, "mul_k")
    } else if text_is(name, "/") {
        known(2, "div_k")
    } else if text_is(name, "^") {
        known(2, "xor_k")
    } else if text_is(name, "cons") {
        known(2, "cons_k")
    } else if text_is(name, "cons?") {
        known(2, "is_cons_k")
    } else if text_is(name, "null?") {
        known(2, "is_null_k")
    } else if text_is(name, "car") {
        known(2, "car_k")
    } else if text_is(name, "cdr") {
        known(2, "cdr_k")
    } else if text_is(name, "string-concat") {
        known(2, "string_concat_k")
    } else {
        None
    }
}

/// Whether `name` names a runtime primitive.
pub(crate) fn builtin_known(name: &String) -> (res: bool)
    ensures
        res == builtin_info(name@) is Some,
{
    builtin_lookup(name).is_some()
}

fn mk_closure_stmt(params: usize, holder: String, target: String, env: CExpr) -> (res: CStmt)
    requires
        params == 1 || params == 2,
    ensures
        res@ == expr_stmt(
            macro_call(
                closure_ctor(params as nat),
                seq![arg(ident(holder@)), arg(ident(target@)), arg(env@)],
            ),
        ),
{
    let args = args3(mk_arg(mk_ident_of(holder)), mk_arg(mk_ident_of(target)), mk_arg(env));
    if params == 1 {
        mk_expr_stmt(mk_macro("OBJECT_CLOSURE_ONE_NEW", args))
    } else {
        mk_expr_stmt(mk_macro("OBJECT_CLOSURE_TWO_NEW", args))
    }
}


/// What emitting `e` gives, for a count of temporaries that stood at
/// `before` and stands at `after`, and a list of statements that held
/// `start` and holds `end`.
///
/// It fails exactly when [`emit_fault`] names a reason, with that reason.
/// Otherwise the count has moved on by what `e` draws, and, where there
/// was room for that, the statements of [`emit_stmts`] were added and the
/// result is [`emit_value`].
pub open spec fn emitted(
    res: Result<CExpr, CompileError>,
    e: LExprView,
    table: Seq<LiftedLambdaView>,
    before: nat,
    after: nat,
    start: Seq<CStmtView>,
    end: Seq<CStmtView>,
) -> bool {
    match res {
        Ok(v) => {
            &&& emit_fault(e) is None
            &&& after == bump(before, emit_demand(e))
            &&& before + emit_demand(e) < usize::MAX ==> {
                &&& v@ == emit_value(e, table, before)
                &&& end == start + emit_stmts(e, table, before)
            }
        },
        Err(x) => emit_fault(e) == Some(x@),
    }
}

fn mk_block(stmts: Vec<CStmt>) -> (res: CStmt)
    ensures
        res@ == CStmtView::Block(stmts_view(stmts@)),
{
    let res = CStmt::Block(stmts);
    assert(res@->Block_0 =~= stmts_view(stmts@));
    res
}

fn mk_if(cond: CExpr, ift: CStmt, iff: CStmt) -> (res: CStmt)
    ensures
        res@ == (CStmtView::If { cond: cond@, ift: Box::new(ift@), iff: Box::new(iff@) }),
{
    CStmt::If { cond, ift: Box::new(ift), iff: Box::new(iff) }
}

fn mk_zero() -> (res: CExpr)
    ensures
        res@ == CExprView::LitIInt(0),
{
    CExpr::LitIInt(0)
}

impl LiftedLambda {
    fn generate_env_ptr_typ(&self) -> (res: CType)
        ensures
            res@ == ptr_to_struct(env_name(self@.id)),
    {
        mk_ptr_to_struct(env_text(self.id))
    }

    fn generate_env_cast(&self, in_expr: CExpr) -> (res: CExpr)
        ensures
            res@ == env_cast(in_expr@, self@.id),
    {
        let inner = mk_arrow(in_expr, String::from_str("env"));
        let address = CExpr::PreUnOp { op: String::from_str("&"), ex: Box::new(inner) };
        assert(address@ == CExprView::PreUnOp { op: "&"@, ex: Box::new(inner@) });
        CExpr::Cast { ex: Box::new(address), typ: self.generate_env_ptr_typ() }
    }

    fn construct_env_code(&self, dest: &str) -> (res: CStmt)
        ensures
            res@ == expr_stmt(
                macro_call(
                    "OBJECT_ENV_OBJ_NEW"@,
                    seq![arg(ident(dest@)), MacroArgView::Type(CTypeView::Struct(env_name(self@.id)))],
                ),
            ),
    {
        let typ = CType::Struct(env_text(self.id));
        assert(typ@ == CTypeView::Struct(env_name(self@.id)));
        let second = MacroArg::Type(typ);
        assert(second@ == MacroArgView::Type(CTypeView::Struct(env_name(self@.id))));
        mk_expr_stmt(mk_macro("OBJECT_ENV_OBJ_NEW", args2(mk_arg(mk_ident(dest)), second)))
    }

    /// Adds the statements that make a new environment for this function
    /// and fill it from the current one; the result names the new
    /// environment.
    fn make_env_code(&self, ctx: &mut CodegenCtx, supporting_stmts: &mut Vec<CStmt>) -> (res: CExpr)
        ensures
            final(ctx).next() == bump(old(ctx).next(), 1),
            final(ctx).table() == old(ctx).table(),
            final(ctx).protos_view() == old(ctx).protos_view(),
            final(ctx).decls_view() == old(ctx).decls_view(),
            final(ctx).lambdas == old(ctx).lambdas,
            res@ == ident(temp_name(old(ctx).next())),
            stmts_view(final(supporting_stmts)@) == stmts_view(old(supporting_stmts)@) + seq![
                new_env_stmt(old(ctx).next(), self@.id),
            ] + copy_stmts(self@, old(ctx).next(), self@.freevars.len()),
    {
        let ghost n = ctx.next();
        let ghost start = stmts_view(supporting_stmts@);
        let ghost me = self@;
        let var_name = ctx.gen_var();
        push_stmt(supporting_stmts, self.construct_env_code(var_name.as_str()));
        let count = self.freevars.len();
        let mut i: usize = 0;
        while i < count
            invariant
                i <= count,
                count == self.freevars@.len(),
                me == self@,
                var_name@ == temp_name(n),
                stmts_view(supporting_stmts@) == start.push(new_env_stmt(n, me.id)) + copy_stmts(
                    me,
                    n,
                    i as nat,
                ),
            decreases count - i,
        {
            let var = &self.freevars[i];
            assert(me.freevars[i as int] == var@);
            if !contains_var(&self.params, var) {
                let slot = name_for_free_var(var);
                let target = mk_arrow(
                    self.generate_env_cast(mk_ident_of(var_name.clone())),
                    slot.clone(),
                );
                let source = mk_arrow(mk_ident("env"), slot);
                push_stmt(supporting_stmts, mk_assign(target, source));
                assert(stmts_view(supporting_stmts@) =~= start.push(new_env_stmt(n, me.id))
                    + copy_stmts(me, n, (i + 1) as nat));
            }
            i += 1;
        }
        assert(stmts_view(supporting_stmts@) =~= start + seq![new_env_stmt(n, me.id)] + copy_stmts(
            me,
            n,
            me.freevars.len(),
        ));
        mk_ident_of(var_name)
    }

    /// Adds the statements that make a closure of this function over the
    /// current environment; the result names the closure.
    fn generate_closure(&self, ctx: &mut CodegenCtx, supporting_stmts: &mut Vec<CStmt>) -> (res:
        CExpr)
        requires
            self@.params.len() == 1 || self@.params.len() == 2,
        ensures
            final(ctx).next() == bump(old(ctx).next(), 2),
            final(ctx).table() == old(ctx).table(),
            final(ctx).protos_view() == old(ctx).protos_view(),
            final(ctx).decls_view() == old(ctx).decls_view(),
            final(ctx).lambdas == old(ctx).lambdas,
            old(ctx).next() + 2 < usize::MAX ==> {
                &&& res@ == ident(temp_name(old(ctx).next() + 1))
                &&& stmts_view(final(supporting_stmts)@) == stmts_view(old(supporting_stmts)@)
                    + closure_stmts(self@, old(ctx).next())
            },
    {
        let ghost n = ctx.next();
        let ghost start = stmts_view(supporting_stmts@);
        proof {
            ctx.lemma_next_in_range();
        }
        let env_expr = self.make_env_code(ctx, supporting_stmts);
        let var_name = ctx.gen_var();
        let init_stmt = mk_closure_stmt(
            self.params.len(),
            var_name.clone(),
            lambda_text(self.id),
            env_expr,
        );
        push_stmt(supporting_stmts, init_stmt);
        proof {
            if n + 2 < usize::MAX {
                assert(stmts_view(supporting_stmts@) =~= start + closure_stmts(self@, n));
            }
        }
        mk_ident_of(var_name)
    }
}

/// Emits the literal `l`.
fn literal_codegen(l: &Literal, ctx: &mut CodegenCtx, supporting_stmts: &mut Vec<CStmt>) -> (res:
    Result<CExpr, CompileError>)
    ensures
        final(ctx).table() == old(ctx).table(),
        final(ctx).protos_view() == old(ctx).protos_view(),
        final(ctx).decls_view() == old(ctx).decls_view(),
        final(ctx).lambdas == old(ctx).lambdas,
        emitted(
            res,
            LExprView::Lit(l@),
            old(ctx).table(),
            old(ctx).next(),
            final(ctx).next(),
            stmts_view(old(supporting_stmts)@),
            stmts_view(final(supporting_stmts)@),
        ),
{
    let ghost n = ctx.next();
    let ghost start = stmts_view(supporting_stmts@);
    proof {
        ctx.lemma_next_in_range();
    }
    match l {
        Literal::String(s) => {
            let value = CExpr::LitStr(s.clone());
            let dest = ctx.gen_var();
            let init = mk_macro(
                "OBJECT_STRING_OBJ_NEW",
                args2(mk_arg(mk_ident_of(dest.clone())), mk_arg(value)),
            );
            push_stmt(supporting_stmts, mk_expr_stmt(init));
            assert(stmts_view(supporting_stmts@) =~= start + seq![
                object_stmt("OBJECT_STRING_OBJ_NEW"@, n, CExprView::LitStr(s@)),
            ]);
            Ok(mk_ident_of(dest))
        },
        Literal::Int(i) => {
            if *i < isize::MIN as i64 || *i > isize::MAX as i64 {
                return Err(CompileError::UnsupportedLiteral);
            }
            let value = CExpr::LitIInt(*i as isize);
            let dest = ctx.gen_var();
            let init = mk_macro(
                "OBJECT_INT_OBJ_NEW",
                args2(mk_arg(mk_ident_of(dest.clone())), mk_arg(value)),
            );
            push_stmt(supporting_stmts, mk_expr_stmt(init));
            assert(stmts_view(supporting_stmts@) =~= start + seq![
                object_stmt("OBJECT_INT_OBJ_NEW"@, n, CExprView::LitIInt(*i as int)),
            ]);
            Ok(mk_ident_of(dest))
        },
        Literal::Float(_) => Err(CompileError::UnsupportedLiteral),
        Literal::Void => {
            assert(start =~= start + Seq::<CStmtView>::empty());
            Ok(mk_ident("NULL"))
        },
    }
}

/// Emits the closure of the runtime function behind the builtin `name`.
fn builtin_ident_codegen(
    name: &String,
    ctx: &mut CodegenCtx,
    supporting_stmts: &mut Vec<CStmt>,
) -> (res: Result<CExpr, CompileError>)
    ensures
        final(ctx).table() == old(ctx).table(),
        final(ctx).protos_view() == old(ctx).protos_view(),
        final(ctx).decls_view() == old(ctx).decls_view(),
        final(ctx).lambdas == old(ctx).lambdas,
        emitted(
            res,
            LExprView::BuiltinIdent(name@),
            old(ctx).table(),
            old(ctx).next(),
            final(ctx).next(),
            stmts_view(old(supporting_stmts)@),
            stmts_view(final(supporting_stmts)@),
        ),
{
    let ghost n = ctx.next();
    let ghost start = stmts_view(supporting_stmts@);
    proof {
        ctx.lemma_next_in_range();
    }
    let (params, target) = match builtin_lookup(name) {
        Some(found) => found,
        None => {
            return Err(CompileError::UnknownBuiltin(name.clone()));
        },
    };
    assert(params == 1 || params == 2);
    let var_name = ctx.gen_var();
    let init = mk_closure_stmt(params, var_name.clone(), target, mk_ident("NULL"));
    push_stmt(supporting_stmts, init);
    assert(stmts_view(supporting_stmts@) =~= start + seq![
        closure_stmt(params as nat, n, target@, ident("NULL"@)),
    ]);
    Ok(mk_ident_of(var_name))
}


/// Emits `e`: adds to `supporting_stmts` the statements that prepare its
/// value, and gives the expression that stands for the value.
fn do_codegen_internal(e: &LExpr, ctx: &mut CodegenCtx, supporting_stmts: &mut Vec<CStmt>) -> (res:
    Result<CExpr, CompileError>)
    requires
        refs_below(e@, old(ctx).table().len()),
        table_wf(old(ctx).table()),
        old(ctx).keyed(),
    ensures
        final(ctx).table() == old(ctx).table(),
        final(ctx).protos_view() == old(ctx).protos_view(),
        final(ctx).decls_view() == old(ctx).decls_view(),
        final(ctx).lambdas == old(ctx).lambdas,
        emitted(
            res,
            e@,
            old(ctx).table(),
            old(ctx).next(),
            final(ctx).next(),
            stmts_view(old(supporting_stmts)@),
            stmts_view(final(supporting_stmts)@),
        ),
    decreases e,
{
    let ghost n = ctx.next();
    let ghost start = stmts_view(supporting_stmts@);
    let ghost table = ctx.table();
    proof {
        ctx.lemma_next_in_range();
    }
    match e {
        LExpr::Var(v) => {
            assert(start =~= start + Seq::<CStmtView>::empty());
            Ok(mk_cell_value(v))
        },
        LExpr::Lit(l) => literal_codegen(l, ctx, supporting_stmts),
        LExpr::BuiltinIdent(name) => builtin_ident_codegen(name, ctx, supporting_stmts),
        LExpr::SetThen(v, a, then) => {
            let value = match do_codegen_internal(a, ctx, supporting_stmts) {
                Ok(x) => x,
                Err(x) => {
                    return Err(x);
                },
            };
            push_stmt(supporting_stmts, mk_assign(mk_cell_value(v), value));
            let res = match do_codegen_internal(then, ctx, supporting_stmts) {
                Ok(x) => x,
                Err(x) => {
                    return Err(x);
                },
            };
            proof {
                if n + emit_demand(e@) < usize::MAX {
                    assert(stmts_view(supporting_stmts@) =~= start + emit_stmts(e@, table, n));
                }
            }
            Ok(res)
        },
        LExpr::Lifted(id) => {
            let lambda = lambda_at(ctx.lambdas, *id);
            let res = lambda.generate_closure(ctx, supporting_stmts);
            Ok(res)
        },
        LExpr::If(c, t, f) => {
            let mut ift_stmts: Vec<CStmt> = Vec::new();
            assert(stmts_view(ift_stmts@) =~= Seq::empty());
            let ift = match do_codegen_internal(t, ctx, &mut ift_stmts) {
                Ok(x) => x,
                Err(x) => {
                    return Err(x);
                },
            };
            let ghost ift_prepared = stmts_view(ift_stmts@);
            push_stmt(&mut ift_stmts, mk_expr_stmt(ift));
            let mut iff_stmts: Vec<CStmt> = Vec::new();
            assert(stmts_view(iff_stmts@) =~= Seq::empty());
            let iff = match do_codegen_internal(f, ctx, &mut iff_stmts) {
                Ok(x) => x,
                Err(x) => {
                    return Err(x);
                },
            };
            let ghost iff_prepared = stmts_view(iff_stmts@);
            push_stmt(&mut iff_stmts, mk_expr_stmt(iff));
            let cond = match do_codegen_internal(c, ctx, supporting_stmts) {
                Ok(x) => x,
                Err(x) => {
                    return Err(x);
                },
            };
            let test = mk_macro("obj_is_truthy", args1(mk_arg(cond)));
            let stmt = mk_if(test, mk_block(ift_stmts), mk_block(iff_stmts));
            push_stmt(supporting_stmts, stmt);
            proof {
                if n + emit_demand(e@) < usize::MAX {
                    let d_t = emit_demand(t@);
                    assert(ift_prepared =~= emit_stmts(t@, table, n));
                    assert(iff_prepared =~= emit_stmts(f@, table, n + d_t));
                    assert(stmts_view(supporting_stmts@) =~= start + emit_stmts(e@, table, n));
                }
            }
            Ok(mk_zero())
        },
        LExpr::CallOne(k, a) => {
            let first = match do_codegen_internal(k, ctx, supporting_stmts) {
                Ok(x) => x,
                Err(x) => {
                    return Err(x);
                },
            };
            let second = match do_codegen_internal(a, ctx, supporting_stmts) {
                Ok(x) => x,
                Err(x) => {
                    return Err(x);
                },
            };
            proof {
                if n + emit_demand(e@) < usize::MAX {
                    assert(stmts_view(supporting_stmts@) =~= start + emit_stmts(e@, table, n));
                }
            }
            Ok(mk_macro("call_closure_one", args2(mk_arg(first), mk_arg(second))))
        },
        LExpr::CallTwo(f, a, k) => {
            let first = match do_codegen_internal(f, ctx, supporting_stmts) {
                Ok(x) => x,
                Err(x) => {
                    return Err(x);
                },
            };
            let second = match do_codegen_internal(a, ctx, supporting_stmts) {
                Ok(x) => x,
                Err(x) => {
                    return Err(x);
                },
            };
            let third = match do_codegen_internal(k, ctx, supporting_stmts) {
                Ok(x) => x,
                Err(x) => {
                    return Err(x);
                },
            };
            proof {
                if n + emit_demand(e@) < usize::MAX {
                    assert(stmts_view(supporting_stmts@) =~= start + emit_stmts(e@, table, n));
                }
            }
            Ok(mk_macro("call_closure_two", args3(mk_arg(first), mk_arg(second), mk_arg(third))))
        },
    }
}


/// The declaration of the environment struct of `lambda`: one slot for
/// each of its free variables.
pub open spec fn env_struct_decl(lambda: LiftedLambdaView) -> CDeclView {
    CDeclView::Struct {
        name: env_name(lambda.id),
        members: Seq::new(
            lambda.freevars.len(),
            |i: int| (slot_name(lambda.freevars[i]), object_type_view()),
        ),
    }
}

/// The parameter types of the C function of a lifted function of `params`
/// parameters: an object for each, then the environment.
pub open spec fn proto_args(params: nat) -> Seq<CTypeView> {
    Seq::new(params, |i: int| object_type_view()).push(ptr_to_struct("env_obj"@))
}

/// The prototype of the C function of `lambda`.
pub open spec fn proto_decl(lambda: LiftedLambdaView) -> CDeclView {
    CDeclView::FunProto {
        name: lambda_name(lambda.id),
        typ: CTypeView::Void,
        args: proto_args(lambda.params.len()),
        noreturn: true,
    }
}

/// The parameters of the C function of a lifted function of `params`
/// parameters, named by the temporaries drawn from `n` on, and the
/// incoming environment.
pub open spec fn func_params(params: nat, n: nat) -> Seq<(Seq<char>, CTypeView)> {
    Seq::new(params, |i: int| (temp_name((n + i) as nat), object_type_view())).push(
        ("env_in"@, ptr_to_struct("env_obj"@)),
    )
}

/// The statement that binds `env` to the environment of the lifted
/// function `id` inside the incoming object.
pub open spec fn env_decl_stmt(id: nat) -> CStmtView {
    CStmtView::Decl(
        CDeclView::Var {
            name: "env"@,
            typ: ptr_to_struct(env_name(id)),
            init: Some(env_cast(ident("env_in"@), id)),
        },
    )
}

/// The number of the first `k` parameters of `lambda` that its body uses.
pub open spec fn used_params(lambda: LiftedLambdaView, k: nat) -> nat
    decreases k,
{
    if k == 0 || k > lambda.params.len() {
        0
    } else {
        used_params(lambda, (k - 1) as nat) + if has_id(
            lambda.freevars,
            lambda.params[k - 1].id,
        ) {
            1nat
        } else {
            0nat
        }
    }
}

/// The statements that put each of the first `k` parameters of `lambda`
/// that its body uses into a fresh cell, and the cell into the slot of the
/// parameter. The parameters are named by the temporaries drawn from `n`
/// on, and the cells by those drawn after them.
pub open spec fn cell_stmts(lambda: LiftedLambdaView, n: nat, k: nat) -> Seq<CStmtView>
    decreases k,
{
    if k == 0 || k > lambda.params.len() {
        Seq::empty()
    } else {
        let before = cell_stmts(lambda, n, (k - 1) as nat);
        let p = lambda.params[k - 1];
        if has_id(lambda.freevars, p.id) {
            let tmp = n + lambda.params.len() + used_params(lambda, (k - 1) as nat);
            before.push(
                object_stmt("OBJECT_CELL_OBJ_NEW"@, tmp, ident(temp_name((n + k - 1) as nat))),
            ).push(assign_stmt(arrow(ident("env"@), slot_name(p)), ident(temp_name(tmp))))
        } else {
            before
        }
    }
}

/// The number of temporaries that the C function of `lambda` draws.
pub open spec fn func_demand(lambda: LiftedLambdaView) -> nat {
    lambda.params.len() + used_params(lambda, lambda.params.len()) + emit_demand(lambda.body)
}

/// The body of the C function of `lambda`: the environment, the cells of
/// the parameters, the body as a tail expression, and the mark that the
/// end is never reached.
pub open spec fn func_body(lambda: LiftedLambdaView, table: Seq<LiftedLambdaView>, n: nat) -> Seq<
    CStmtView,
> {
    let inner = n + lambda.params.len() + used_params(lambda, lambda.params.len());
    (seq![env_decl_stmt(lambda.id)] + cell_stmts(lambda, n, lambda.params.len()) + emit_stmts(
        lambda.body,
        table,
        inner,
    )).push(expr_stmt(emit_value(lambda.body, table, inner))).push(unreachable_stmt())
}

/// The definition of the C function of `lambda`.
pub open spec fn func_decl(lambda: LiftedLambdaView, table: Seq<LiftedLambdaView>, n: nat) -> CDeclView {
    CDeclView::Fun {
        name: lambda_name(lambda.id),
        typ: CTypeView::Void,
        args: func_params(lambda.params.len(), n),
        body: func_body(lambda, table, n),
    }
}

fn mk_decl_stmt(name: &str, typ: CType, init: CExpr) -> (res: CStmt)
    ensures
        res@ == CStmtView::Decl(CDeclView::Var { name: name@, typ: typ@, init: Some(init@) }),
{
    let decl = CDecl::Var { name: String::from_str(name), typ, init: Some(init) };
    assert(decl@ == CDeclView::Var { name: name@, typ: typ@, init: Some(init@) });
    CStmt::Decl(decl)
}

impl LiftedLambda {
    /// The declaration of the environment struct of this function.
    fn env_struct(&self) -> (res: CDecl)
        ensures
            res@ == env_struct_decl(self@),
    {
        let ghost me = self@;
        let mut members: Vec<(String, CType)> = Vec::new();
        let count = self.freevars.len();
        let mut i: usize = 0;
        while i < count
            invariant
                i <= count,
                count == self.freevars@.len(),
                me == self@,
                members@.len() == i,
                forall|j: int|
                    0 <= j < i ==> (#[trigger] members@[j]).0@ == slot_name(me.freevars[j])
                        && members@[j].1@ == object_type_view(),
            decreases count - i,
        {
            assert(me.freevars[i as int] == self.freevars@[i as int]@);
            members.push((name_for_free_var(&self.freevars[i]), object_type()));
            i += 1;
        }
        let res = CDecl::Struct { name: env_text(self.id), members };
        assert(res@->Struct_members =~= env_struct_decl(me)->Struct_members);
        res
    }

    /// The prototype of the C function of this function.
    fn prototype(&self) -> (res: CDecl)
        ensures
            res@ == proto_decl(self@),
    {
        let mut types_only: Vec<CType> = Vec::new();
        let count = self.params.len();
        let mut i: usize = 0;
        while i < count
            invariant
                i <= count,
                count == self.params@.len(),
                types_only@.len() == i,
                forall|j: int| 0 <= j < i ==> (#[trigger] types_only@[j])@ == object_type_view(),
            decreases count - i,
        {
            types_only.push(object_type());
            i += 1;
        }
        types_only.push(mk_ptr_to_struct(String::from_str("env_obj")));
        let res = CDecl::FunProto {
            name: lambda_text(self.id),
            typ: CType::Void,
            args: types_only,
            noreturn: true,
        };
        assert(res@->FunProto_args =~= proto_args(self@.params.len()));
        res
    }

    /// Draws a temporary for each parameter and gives the named
    /// parameters of the C function.
    fn named_params(&self, ctx: &mut CodegenCtx) -> (res: Vec<(String, CType)>)
        ensures
            final(ctx).next() == bump(old(ctx).next(), self@.params.len()),
            final(ctx).table() == old(ctx).table(),
            final(ctx).protos_view() == old(ctx).protos_view(),
            final(ctx).decls_view() == old(ctx).decls_view(),
            final(ctx).lambdas == old(ctx).lambdas,
            res@.len() == self@.params.len() + 1,
            old(ctx).next() + self@.params.len() < usize::MAX ==> crate::cdsl::members_view(res@)
                == func_params(self@.params.len(), old(ctx).next()),
    {
        let ghost n = ctx.next();
        proof {
            ctx.lemma_next_in_range();
        }
        let mut with_names: Vec<(String, CType)> = Vec::new();
        let count = self.params.len();
        let mut i: usize = 0;
        while i < count
            invariant
                i <= count,
                count == self.params@.len(),
                count == self@.params.len(),
                with_names@.len() == i,
                ctx.next() == bump(n, i as nat),
                ctx.table() == old(ctx).table(),
                ctx.protos_view() == old(ctx).protos_view(),
                ctx.decls_view() == old(ctx).decls_view(),
                ctx.lambdas == old(ctx).lambdas,
                n + count < usize::MAX ==> forall|j: int|
                    0 <= j < i ==> (#[trigger] with_names@[j]).0@ == temp_name((n + j) as nat)
                        && with_names@[j].1@ == object_type_view(),
            decreases count - i,
        {
            let name = ctx.gen_var();
            with_names.push((name, object_type()));
            i += 1;
        }
        with_names.push((String::from_str("env_in"), mk_ptr_to_struct(String::from_str("env_obj"))));
        proof {
            if n + count < usize::MAX {
                assert(crate::cdsl::members_view(with_names@) =~= func_params(
                    self@.params.len(),
                    n,
                ));
            }
        }
        with_names
    }

    /// Adds the statements that put each parameter that the body uses into
    /// a fresh cell in its slot of the environment.
    fn cell_code(
        &self,
        names: &Vec<(String, CType)>,
        ctx: &mut CodegenCtx,
        stmts: &mut Vec<CStmt>,
        Ghost(n): Ghost<nat>,
    )
        requires
            names@.len() == self@.params.len() + 1,
            old(ctx).next() == bump(n, self@.params.len()),
            n + self@.params.len() < usize::MAX ==> crate::cdsl::members_view(names@)
                == func_params(self@.params.len(), n),
        ensures
            final(ctx).next() == bump(
                n,
                self@.params.len() + used_params(self@, self@.params.len()),
            ),
            final(ctx).table() == old(ctx).table(),
            final(ctx).protos_view() == old(ctx).protos_view(),
            final(ctx).decls_view() == old(ctx).decls_view(),
            final(ctx).lambdas == old(ctx).lambdas,
            n + self@.params.len() + used_params(self@, self@.params.len()) < usize::MAX
                ==> stmts_view(final(stmts)@) == stmts_view(old(stmts)@) + cell_stmts(
                self@,
                n,
                self@.params.len(),
            ),
    {
        let ghost me = self@;
        let ghost start = stmts_view(stmts@);
        let ghost total = me.params.len() + used_params(me, me.params.len());
        proof {
            ctx.lemma_next_in_range();
            lemma_used_params_grows(me, 0, me.params.len());
        }
        let count = self.params.len();
        let mut i: usize = 0;
        assert(start =~= start + cell_stmts(me, n, 0));
        while i < count
            invariant
                i <= count,
                count == self.params@.len(),
                count == me.params.len(),
                me == self@,
                names@.len() == count + 1,
                total == me.params.len() + used_params(me, me.params.len()),
                n + count < usize::MAX ==> crate::cdsl::members_view(names@) == func_params(
                    me.params.len(),
                    n,
                ),
                ctx.next() == bump(n, me.params.len() + used_params(me, i as nat)),
                ctx.table() == old(ctx).table(),
                ctx.protos_view() == old(ctx).protos_view(),
                ctx.decls_view() == old(ctx).decls_view(),
                ctx.lambdas == old(ctx).lambdas,
                n + total < usize::MAX ==> stmts_view(stmts@) == start + cell_stmts(
                    me,
                    n,
                    i as nat,
                ),
            decreases count - i,
        {
            proof {
                lemma_used_params_grows(me, (i + 1) as nat, me.params.len());
                ctx.lemma_next_in_range();
            }
            let param = &self.params[i];
            assert(me.params[i as int] == param@);
            if contains_var(&self.freevars, param) {
                let tmp_name = ctx.gen_var();
                let in_var = names[i].0.clone();
                let make = mk_macro(
                    "OBJECT_CELL_OBJ_NEW",
                    args2(mk_arg(mk_ident_of(tmp_name.clone())), mk_arg(mk_ident_of(in_var))),
                );
                push_stmt(stmts, mk_expr_stmt(make));
                let slot = mk_arrow(mk_ident("env"), name_for_free_var(param));
                push_stmt(stmts, mk_assign(slot, mk_ident_of(tmp_name)));
                proof {
                    if n + total < usize::MAX {
                        assert(crate::cdsl::members_view(names@)[i as int].0 == temp_name(
                            (n + i) as nat,
                        ));
                        assert(stmts_view(stmts@) =~= start + cell_stmts(me, n, (i + 1) as nat));
                    }
                }
            }
            i += 1;
        }
    }

    /// Adds the prototype and the definition of the C function of this
    /// function.
    fn generate_func(&self, ctx: &mut CodegenCtx) -> (res: Result<(), CompileError>)
        requires
            table_wf(old(ctx).table()),
            old(ctx).keyed(),
            refs_below(self@.body, old(ctx).table().len()),
        ensures
            final(ctx).table() == old(ctx).table(),
            final(ctx).lambdas == old(ctx).lambdas,
            match res {
                Ok(_) => {
                    &&& emit_fault(self@.body) is None
                    &&& final(ctx).next() == bump(old(ctx).next(), func_demand(self@))
                    &&& final(ctx).protos_view() == old(ctx).protos_view().push(proto_decl(self@))
                    &&& old(ctx).next() + func_demand(self@) < usize::MAX ==> final(ctx).decls_view()
                        == old(ctx).decls_view().push(
                        func_decl(self@, old(ctx).table(), old(ctx).next()),
                    )
                },
                Err(x) => emit_fault(self@.body) == Some(x@),
            },
    {
        let ghost n = ctx.next();
        let ghost me = self@;
        let ghost table = ctx.table();
        proof {
            ctx.lemma_next_in_range();
        }
        let with_names = self.named_params(ctx);
        ctx.add_proto(self.prototype());
        let env_move = mk_decl_stmt(
            "env",
            self.generate_env_ptr_typ(),
            self.generate_env_cast(mk_ident("env_in")),
        );
        let mut stmts: Vec<CStmt> = Vec::new();
        assert(stmts_view(stmts@) =~= Seq::empty());
        push_stmt(&mut stmts, env_move);
        self.cell_code(&with_names, ctx, &mut stmts, Ghost(n));
        let final_expr = match do_codegen_internal(&self.body, ctx, &mut stmts) {
            Ok(x) => x,
            Err(x) => {
                return Err(x);
            },
        };
        push_stmt(&mut stmts, mk_expr_stmt(final_expr));
        push_stmt(&mut stmts, mk_unreachable());
        proof {
            if n + func_demand(me) < usize::MAX {
                assert(stmts_view(stmts@) =~= func_body(me, table, n));
            }
        }
        let fun = CDecl::Fun {
            name: lambda_text(self.id),
            typ: CType::Void,
            args: with_names,
            body: stmts,
        };
        assert(fun@->Fun_body =~= stmts_view(stmts@));
        ctx.add_decl(fun);
        Ok(())
    }
}

proof fn lemma_used_params_grows(lambda: LiftedLambdaView, k: nat, m: nat)
    requires
        k <= m <= lambda.params.len(),
    ensures
        used_params(lambda, k) <= used_params(lambda, m),
    decreases m,
{
    if k < m {
        lemma_used_params_grows(lambda, k, (m - 1) as nat);
    }
}


/// The first reason for which one of the first `k` functions of `table`
/// cannot be emitted.
pub open spec fn funcs_fault(table: Seq<LiftedLambdaView>, k: nat) -> Option<CompileErrorView>
    decreases k,
{
    if k == 0 || k > table.len() {
        None
    } else {
        match funcs_fault(table, (k - 1) as nat) {
            Some(x) => Some(x),
            None => emit_fault(table[k - 1].body),
        }
    }
}

/// The number of temporaries that the first `k` functions of `table` draw.
pub open spec fn funcs_demand(table: Seq<LiftedLambdaView>, k: nat) -> nat
    decreases k,
{
    if k == 0 || k > table.len() {
        0
    } else {
        funcs_demand(table, (k - 1) as nat) + func_demand(table[k - 1])
    }
}

/// The definitions of the C functions of the first `k` functions of
/// `table`, each drawing its temporaries after those of the ones before.
pub open spec fn func_decls(table: Seq<LiftedLambdaView>, k: nat) -> Seq<CDeclView>
    decreases k,
{
    if k == 0 || k > table.len() {
        Seq::empty()
    } else {
        func_decls(table, (k - 1) as nat).push(
            func_decl(table[k - 1], table, funcs_demand(table, (k - 1) as nat)),
        )
    }
}

/// The environment structs of the functions of `table`, in order.
pub open spec fn env_structs(table: Seq<LiftedLambdaView>) -> Seq<CDeclView> {
    Seq::new(table.len(), |i: int| env_struct_decl(table[i]))
}

/// The prototypes of the C functions of the functions of `table`, in order.
pub open spec fn func_protos(table: Seq<LiftedLambdaView>) -> Seq<CDeclView> {
    Seq::new(table.len(), |i: int| proto_decl(table[i]))
}

/// The first reason for which the program of the root expression `root`
/// and the functions of `table` cannot be emitted: the functions come
/// first, in order.
pub open spec fn program_fault(root: LExprView, table: Seq<LiftedLambdaView>) -> Option<
    CompileErrorView,
> {
    match funcs_fault(table, table.len()) {
        Some(x) => Some(x),
        None => emit_fault(root),
    }
}

/// The number of temporaries that the whole program draws.
pub open spec fn program_demand(root: LExprView, table: Seq<LiftedLambdaView>) -> nat {
    funcs_demand(table, table.len()) + emit_demand(root)
}

/// The statements of the root expression: those that prepare it, then the
/// expression itself; its temporaries come after those of the functions.
pub open spec fn root_stmts(root: LExprView, table: Seq<LiftedLambdaView>) -> Seq<CStmtView> {
    let n = funcs_demand(table, table.len());
    emit_stmts(root, table, n).push(expr_stmt(emit_value(root, table, n)))
}

proof fn lemma_funcs_fault_stays(table: Seq<LiftedLambdaView>, k: nat, m: nat)
    requires
        k <= m <= table.len(),
        funcs_fault(table, k) is Some,
    ensures
        funcs_fault(table, m) == funcs_fault(table, k),
    decreases m,
{
    if k < m {
        lemma_funcs_fault_stays(table, k, (m - 1) as nat);
    }
}

proof fn lemma_funcs_demand_grows(table: Seq<LiftedLambdaView>, k: nat, m: nat)
    requires
        k <= m <= table.len(),
    ensures
        funcs_demand(table, k) <= funcs_demand(table, m),
    decreases m,
{
    if k < m {
        lemma_funcs_demand_grows(table, k, (m - 1) as nat);
    }
}

/// Adds the environment struct of every function of the table.
fn declare_envs(ctx: &mut CodegenCtx)
    requires
        old(ctx).keyed(),
        old(ctx).protos_view() == Seq::<CDeclView>::empty(),
    ensures
        final(ctx).next() == old(ctx).next(),
        final(ctx).table() == old(ctx).table(),
        final(ctx).decls_view() == old(ctx).decls_view(),
        final(ctx).lambdas == old(ctx).lambdas,
        final(ctx).protos_view() == env_structs(old(ctx).table()),
{
    let ghost table = ctx.table();
    let lambdas = ctx.lambdas;
    let count = lambda_total(lambdas);
    let mut i: usize = 0;
    while i < count
        invariant
            i <= count,
            count == lambdas@.len(),
            dense(lambdas@),
            lambdas == ctx.lambdas,
            table == lambdas_view(lambdas@),
            ctx.next() == old(ctx).next(),
            ctx.table() == old(ctx).table(),
            ctx.decls_view() == old(ctx).decls_view(),
            ctx.lambdas == old(ctx).lambdas,
            ctx.protos_view() == env_structs(table).take(i as int),
        decreases count - i,
    {
        ctx.add_proto(lambda_at(lambdas, i).env_struct());
        i += 1;
        assert(ctx.protos_view() =~= env_structs(table).take(i as int));
    }
    assert(env_structs(table).take(count as int) =~= env_structs(table));
}

/// Adds the prototype and the definition of every function of the table.
fn define_funcs(ctx: &mut CodegenCtx) -> (res: Result<(), CompileError>)
    requires
        table_wf(old(ctx).table()),
        old(ctx).keyed(),
        old(ctx).next() == 0,
        old(ctx).decls_view() == Seq::<CDeclView>::empty(),
    ensures
        final(ctx).table() == old(ctx).table(),
        final(ctx).lambdas == old(ctx).lambdas,
        ({
            let table = old(ctx).table();
            match res {
                Ok(_) => {
                    &&& funcs_fault(table, table.len()) is None
                    &&& final(ctx).next() == bump(0, funcs_demand(table, table.len()))
                    &&& final(ctx).protos_view() == old(ctx).protos_view() + func_protos(table)
                    &&& funcs_demand(table, table.len()) < usize::MAX ==> final(ctx).decls_view()
                        == func_decls(table, table.len())
                },
                Err(x) => funcs_fault(table, table.len()) == Some(x@),
            }
        }),
{
    let ghost table = ctx.table();
    let ghost total = funcs_demand(table, table.len());
    let lambdas = ctx.lambdas;
    let count = lambda_total(lambdas);
    let mut i: usize = 0;
    assert(ctx.protos_view() =~= old(ctx).protos_view() + func_protos(table).take(0));
    assert(ctx.decls_view() =~= func_decls(table, 0));
    while i < count
        invariant
            i <= count,
            count == lambdas@.len(),
            dense(lambdas@),
            lambdas == ctx.lambdas,
            table == lambdas_view(lambdas@),
            table_wf(table),
            total == funcs_demand(table, table.len()),
            ctx.table() == old(ctx).table(),
            ctx.table() == table,
            ctx.lambdas == old(ctx).lambdas,
            funcs_fault(table, i as nat) is None,
            ctx.next() == bump(0, funcs_demand(table, i as nat)),
            ctx.protos_view() == old(ctx).protos_view() + func_protos(table).take(i as int),
            total < usize::MAX ==> ctx.decls_view() == func_decls(table, i as nat),
        decreases count - i,
    {
        proof {
            lemma_funcs_demand_grows(table, (i + 1) as nat, table.len());
            ctx.lemma_next_in_range();
        }
        match lambda_at(lambdas, i).generate_func(ctx) {
            Ok(_) => {},
            Err(x) => {
                proof {
                    lemma_funcs_fault_stays(table, (i + 1) as nat, table.len());
                }
                return Err(x);
            },
        }
        i += 1;
        assert(ctx.protos_view() =~= old(ctx).protos_view() + func_protos(table).take(i as int));
    }
    assert(func_protos(table).take(count as int) =~= func_protos(table));
    Ok(())
}

/// Emits the program of the root expression `e` and the lifted functions
/// `lambdas`: the statements of the root, the struct declarations and
/// prototypes, and the function definitions. The functions are keyed by
/// their identifiers, which go from 0 on without gaps, and are emitted in
/// that order.
pub fn do_codegen(e: LExpr, lambdas: &HashMap<usize, LiftedLambda>) -> (res: Result<
    (Vec<CStmt>, Vec<CDecl>, Vec<CDecl>),
    CompileError,
>)
    requires
        dense(lambdas@),
        table_wf(lambdas_view(lambdas@)),
        refs_below(e@, lambdas@.len()),
    ensures
        ({
            let table = lambdas_view(lambdas@);
            match res {
                Ok((stmts, protos, decls)) => {
                    &&& program_fault(e@, table) is None
                    &&& program_demand(e@, table) < usize::MAX
                    &&& stmts_view(stmts@) == root_stmts(e@, table)
                    &&& crate::cdsl::decls_view(protos@) == env_structs(table) + func_protos(table)
                    &&& crate::cdsl::decls_view(decls@) == func_decls(table, table.len())
                },
                Err(x) => match program_fault(e@, table) {
                    Some(fault) => x@ == fault,
                    None => program_demand(e@, table) >= usize::MAX && x@
                        == CompileErrorView::NamesExhausted,
                },
            }
        }),
{
    let ghost table = lambdas_view(lambdas@);
    let mut ctx = CodegenCtx::new(lambdas);
    let mut stmts: Vec<CStmt> = Vec::new();
    assert(stmts_view(stmts@) =~= Seq::empty());
    declare_envs(&mut ctx);
    match define_funcs(&mut ctx) {
        Ok(_) => {},
        Err(x) => {
            return Err(x);
        },
    }
    let final_expr = match do_codegen_internal(&e, &mut ctx, &mut stmts) {
        Ok(x) => x,
        Err(x) => {
            return Err(x);
        },
    };
    if ctx.exhausted() {
        return Err(CompileError::NamesExhausted);
    }
    push_stmt(&mut stmts, mk_expr_stmt(final_expr));
    proof {
        let n = funcs_demand(table, table.len());
        assert(stmts_view(stmts@) =~= root_stmts(e@, table));
    }
    Ok((stmts, ctx.protos, ctx.declarations))
}


/// Whether `v` is a tail call: a call of a closure through the trampoline.
pub open spec fn is_tail_call(v: CExprView) -> bool {
    v is MacroCall && (v->MacroCall_name == "call_closure_one"@ || v->MacroCall_name
        == "call_closure_two"@)
}

/// Whether `s` is the block of a branch that was emitted for the
/// computation `e`: what prepares `e`, then `e` itself.
pub open spec fn is_branch_of(s: CStmtView, e: LExprView, table: Seq<LiftedLambdaView>, n: nat) -> bool {
    s == branch_block(emit_stmts(e, table, n), emit_value(e, table, n))
}

/// A computation ends in a tail call: what is emitted for it is a tail
/// call, or, for a branch, ends in a C `if` whose two blocks are what is
/// emitted for the two computations of the branch, which end in tail
/// calls in turn.
pub proof fn lemma_emit_ends_in_tail_call(e: LExprView, table: Seq<LiftedLambdaView>, n: nat)
    requires
        lifted_computation(e),
    ensures
        is_tail_call(emit_value(e, table, n)) || {
            let stmts = emit_stmts(e, table, n);
            &&& emit_value(e, table, n) == CExprView::LitIInt(0)
            &&& stmts.len() > 0
            &&& stmts.last() is If
            &&& exists|t: LExprView, f: LExprView, nt: nat, nf: nat|
                lifted_computation(t) && lifted_computation(f) && is_branch_of(
                    *stmts.last()->If_ift,
                    t,
                    table,
                    nt,
                ) && is_branch_of(*stmts.last()->If_iff, f, table, nf)
        },
    decreases e,
{
    match e {
        LExprView::SetThen(_, a, then) => {
            let n1 = n + emit_demand(*a);
            lemma_emit_ends_in_tail_call(*then, table, n1);
            let before = emit_stmts(*a, table, n).push(
                assign_stmt(cell_value(e->SetThen_0), emit_value(*a, table, n)),
            );
            let rest = emit_stmts(*then, table, n1);
            if !is_tail_call(emit_value(*then, table, n1)) {
                assert((before + rest).last() == rest.last());
            }
        },
        LExprView::If(c, t, f) => {
            let nt = n;
            let nf = n + emit_demand(*t);
            let stmts = emit_stmts(e, table, n);
            assert(is_branch_of(*stmts.last()->If_ift, *t, table, nt));
            assert(is_branch_of(*stmts.last()->If_iff, *f, table, nf));
        },
        _ => {},
    }
}

} // verus!
