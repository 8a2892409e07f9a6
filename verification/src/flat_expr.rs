use crate::cont_expr::{cps_tc, demand_tc, translate_to, AExp, AExpView, CExp, CExpView};
use crate::error::{CompileError, CompileErrorView};
use crate::expr::Expr;
use crate::literals::{Literal, LiteralView};
use crate::names::{FreeVar, FreeVarView};
use crate::transform::{advance, TransformContext};
use vstd::prelude::*;

verus! {

/// The continuation-passing form with values and computations in one
/// type. `LamTwo` is a function of the user, with its parameter and its
/// continuation; `LamOne` is a continuation.
#[derive(Debug, PartialEq)]
pub enum FExpr {
    If(Box<FExpr>, Box<FExpr>, Box<FExpr>),
    LamOne(FreeVar, Box<FExpr>),
    LamTwo(FreeVar, FreeVar, Box<FExpr>),
    Var(FreeVar),
    Lit(Literal),
    BuiltinIdent(String),
    SetThen(FreeVar, Box<FExpr>, Box<FExpr>),
    CallOne(Box<FExpr>, Box<FExpr>),
    CallTwo(Box<FExpr>, Box<FExpr>, Box<FExpr>),
}

/// The mathematical value of an [`FExpr`].
pub enum FExprView {
    If(Box<FExprView>, Box<FExprView>, Box<FExprView>),
    LamOne(FreeVarView, Box<FExprView>),
    LamTwo(FreeVarView, FreeVarView, Box<FExprView>),
    Var(FreeVarView),
    Lit(LiteralView),
    BuiltinIdent(Seq<char>),
    SetThen(FreeVarView, Box<FExprView>, Box<FExprView>),
    CallOne(Box<FExprView>, Box<FExprView>),
    CallTwo(Box<FExprView>, Box<FExprView>, Box<FExprView>),
}

impl FExpr {
    /// The mathematical value of this term.
    pub open spec fn model(self) -> FExprView
        decreases self,
    {
        match self {
            FExpr::If(c, t, e) => FExprView::If(
                Box::new((*c).model()),
                Box::new((*t).model()),
                Box::new((*e).model()),
            ),
            FExpr::LamOne(p, body) => FExprView::LamOne(p@, Box::new((*body).model())),
            FExpr::LamTwo(p, k, body) => FExprView::LamTwo(p@, k@, Box::new((*body).model())),
            FExpr::Var(v) => FExprView::Var(v@),
            FExpr::Lit(l) => FExprView::Lit(l@),
            FExpr::BuiltinIdent(n) => FExprView::BuiltinIdent(n@),
            FExpr::SetThen(v, a, then) => FExprView::SetThen(
                v@,
                Box::new((*a).model()),
                Box::new((*then).model()),
            ),
            FExpr::CallOne(k, a) => FExprView::CallOne(
                Box::new((*k).model()),
                Box::new((*a).model()),
            ),
            FExpr::CallTwo(f, a, k) => FExprView::CallTwo(
                Box::new((*f).model()),
                Box::new((*a).model()),
                Box::new((*k).model()),
            ),
        }
    }
}

impl View for FExpr {
    type V = FExprView;

    open spec fn view(&self) -> FExprView {
        self.model()
    }
}

/// The atomic expression `a` in the flat form.
pub open spec fn flat_a(a: AExpView) -> FExprView
    decreases a,
{
    match a {
        AExpView::Lam2(p, k, body) => FExprView::LamTwo(p, k, Box::new(flat_c(*body))),
        AExpView::Lam1(p, body) => FExprView::LamOne(p, Box::new(flat_c(*body))),
        AExpView::Var(v) => FExprView::Var(v),
        AExpView::BuiltinIdent(n) => FExprView::BuiltinIdent(n),
        AExpView::Lit(l) => FExprView::Lit(l),
    }
}

/// The computation `c` in the flat form.
pub open spec fn flat_c(c: CExpView) -> FExprView
    decreases c,
{
    match c {
        CExpView::If(a, t, e) => FExprView::If(
            Box::new(flat_a(*a)),
            Box::new(flat_c(*t)),
            Box::new(flat_c(*e)),
        ),
        CExpView::SetThen(v, a, then) => FExprView::SetThen(
            v,
            Box::new(flat_a(*a)),
            Box::new(flat_c(*then)),
        ),
        CExpView::Call1(k, a) => FExprView::CallOne(Box::new(flat_a(*k)), Box::new(flat_a(*a))),
        CExpView::Call2(f, a, k) => FExprView::CallTwo(
            Box::new(flat_a(*f)),
            Box::new(flat_a(*a)),
            Box::new(flat_a(*k)),
        ),
    }
}

/// Whether `f` denotes a value: a variable, a literal, a builtin, or a
/// function whose body is a computation.
pub open spec fn is_value(f: FExprView) -> bool
    decreases f,
{
    match f {
        FExprView::LamOne(_, body) => is_computation(*body),
        FExprView::LamTwo(_, _, body) => is_computation(*body),
        FExprView::Var(_) => true,
        FExprView::Lit(_) => true,
        FExprView::BuiltinIdent(_) => true,
        _ => false,
    }
}

/// Whether `f` is a computation in tail form: a call of values, or an
/// assignment or a branch that goes on with computations. No value stands
/// where control goes on.
pub open spec fn is_computation(f: FExprView) -> bool
    decreases f,
{
    match f {
        FExprView::If(c, t, e) => is_value(*c) && is_computation(*t) && is_computation(*e),
        FExprView::SetThen(_, a, then) => is_value(*a) && is_computation(*then),
        FExprView::CallOne(k, a) => is_value(*k) && is_value(*a),
        FExprView::CallTwo(f, a, k) => is_value(*f) && is_value(*a) && is_value(*k),
        _ => false,
    }
}

impl AExp {
    /// This atomic expression in the flat form.
    pub fn into_fexpr(self) -> (res: FExpr)
        ensures
            res@ == flat_a(self@),
            is_value(res@),
        decreases self,
    {
        match self {
            AExp::Lam2(p, k, body) => FExpr::LamTwo(p, k, Box::new((*body).into_fexpr())),
            AExp::Lam1(p, body) => FExpr::LamOne(p, Box::new((*body).into_fexpr())),
            AExp::Var(v) => FExpr::Var(v),
            AExp::BuiltinIdent(n) => FExpr::BuiltinIdent(n),
            AExp::Lit(l) => FExpr::Lit(l),
        }
    }
}

impl CExp {
    /// This computation in the flat form.
    pub fn into_fexpr(self) -> (res: FExpr)
        ensures
            res@ == flat_c(self@),
            is_computation(res@),
        decreases self,
    {
        match self {
            CExp::If(a, t, e) => FExpr::If(
                Box::new((*a).into_fexpr()),
                Box::new((*t).into_fexpr()),
                Box::new((*e).into_fexpr()),
            ),
            CExp::SetThen(v, a, then) => FExpr::SetThen(
                v,
                Box::new((*a).into_fexpr()),
                Box::new((*then).into_fexpr()),
            ),
            CExp::Call1(k, a) => FExpr::CallOne(
                Box::new((*k).into_fexpr()),
                Box::new((*a).into_fexpr()),
            ),
            CExp::Call2(f, a, k) => FExpr::CallTwo(
                Box::new((*f).into_fexpr()),
                Box::new((*a).into_fexpr()),
                Box::new((*k).into_fexpr()),
            ),
        }
    }
}

/// What translating and flattening `e` for the continuation `k` gives,
/// for a supply of fresh names that stood at `before` and stands at
/// `after`: the flat form of [`cps_tc`], or the report that the supply
/// has run out.
pub open spec fn flattened(
    res: Result<FExpr, CompileError>,
    e: crate::expr::ExprView,
    k: AExpView,
    before: nat,
    after: nat,
) -> bool {
    if before + demand_tc(e) < u64::MAX {
        res matches Ok(f) && f@ == flat_c(cps_tc(e, k, before)) && is_computation(f@) && after
            == before + demand_tc(e)
    } else {
        res matches Err(x) && x@ == CompileErrorView::NamesExhausted
    }
}

impl Expr {
    /// The flat continuation-passing form of this expression, its value
    /// handed to the continuation `k`. Where every variable of the
    /// expression and every free variable of `k` has an identifier below
    /// the count of `ctx`, the result has the free variables of the
    /// expression and of `k`.
    pub fn into_fexpr(self, k: AExp, ctx: &mut TransformContext) -> (res: Result<
        FExpr,
        CompileError,
    >)
        ensures
            flattened(res, self@, k@, old(ctx).count(), final(ctx).count()),
            res is Ok && crate::expr::names_below(self@, old(ctx).count())
                && crate::expr::all_below(crate::capture::atom_free(k@), old(ctx).count())
                ==> crate::lift::flat_free(res->Ok_0@) == crate::expr::free_ids(self@)
                + crate::capture::atom_free(k@),
    {
        proof {
            ctx.lemma_count_in_range();
            if crate::expr::names_below(self@, ctx.count()) && crate::expr::all_below(
                crate::capture::atom_free(k@),
                ctx.count(),
            ) {
                crate::capture::lemma_cps_keeps_free_variables(self@, k@, ctx.count());
                crate::capture::lemma_flat_keeps_free_variables(
                    k@,
                    cps_tc(self@, k@, ctx.count()),
                );
            }
        }
        let flat = translate_to(self, k, ctx).into_fexpr();
        if ctx.exhausted() {
            Err(CompileError::NamesExhausted)
        } else {
            Ok(flat)
        }
    }
}

} // verus!
