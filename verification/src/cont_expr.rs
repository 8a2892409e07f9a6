use crate::error::{CompileError, CompileErrorView};
use crate::expr::{Expr, ExprView};
use crate::literals::{Literal, LiteralView};
use crate::names::{FreeVar, FreeVarView};
use crate::transform::{advance, TransformContext};
use vstd::prelude::*;

verus! {

/// An atomic expression of the continuation-passing form: it denotes a
/// value without computing. `Lam2` is a function of the user, with its
/// parameter and its continuation; `Lam1` is a continuation, with the
/// value it receives.
#[derive(Debug, PartialEq)]
pub enum AExp {
    Lam2(FreeVar, FreeVar, Box<CExp>),
    Lam1(FreeVar, Box<CExp>),
    Var(FreeVar),
    BuiltinIdent(String),
    Lit(Literal),
}

/// A computation of the continuation-passing form: it never returns.
/// `Call2` calls a function of the user with an argument and a
/// continuation; `Call1` hands a value to a continuation.
#[derive(Debug, PartialEq)]
pub enum CExp {
    If(Box<AExp>, Box<CExp>, Box<CExp>),
    SetThen(FreeVar, Box<AExp>, Box<CExp>),
    Call1(Box<AExp>, Box<AExp>),
    Call2(Box<AExp>, Box<AExp>, Box<AExp>),
}

/// The mathematical value of an [`AExp`].
pub enum AExpView {
    Lam2(FreeVarView, FreeVarView, Box<CExpView>),
    Lam1(FreeVarView, Box<CExpView>),
    Var(FreeVarView),
    BuiltinIdent(Seq<char>),
    Lit(LiteralView),
}

/// The mathematical value of a [`CExp`].
pub enum CExpView {
    If(Box<AExpView>, Box<CExpView>, Box<CExpView>),
    SetThen(FreeVarView, Box<AExpView>, Box<CExpView>),
    Call1(Box<AExpView>, Box<AExpView>),
    Call2(Box<AExpView>, Box<AExpView>, Box<AExpView>),
}

impl AExp {
    /// The mathematical value of this term.
    pub open spec fn model(self) -> AExpView
        decreases self,
    {
        match self {
            AExp::Lam2(p, k, body) => AExpView::Lam2(p@, k@, Box::new((*body).model())),
            AExp::Lam1(p, body) => AExpView::Lam1(p@, Box::new((*body).model())),
            AExp::Var(v) => AExpView::Var(v@),
            AExp::BuiltinIdent(n) => AExpView::BuiltinIdent(n@),
            AExp::Lit(l) => AExpView::Lit(l@),
        }
    }
}

impl CExp {
    /// The mathematical value of this term.
    pub open spec fn model(self) -> CExpView
        decreases self,
    {
        match self {
            CExp::If(c, t, e) => CExpView::If(
                Box::new((*c).model()),
                Box::new((*t).model()),
                Box::new((*e).model()),
            ),
            CExp::SetThen(v, a, then) => CExpView::SetThen(
                v@,
                Box::new((*a).model()),
                Box::new((*then).model()),
            ),
            CExp::Call1(k, a) => CExpView::Call1(Box::new((*k).model()), Box::new((*a).model())),
            CExp::Call2(f, a, k) => CExpView::Call2(
                Box::new((*f).model()),
                Box::new((*a).model()),
                Box::new((*k).model()),
            ),
        }
    }
}

impl View for AExp {
    type V = AExpView;

    open spec fn view(&self) -> AExpView {
        self.model()
    }
}

impl View for CExp {
    type V = CExpView;

    open spec fn view(&self) -> CExpView {
        self.model()
    }
}

impl AExp {
    /// A copy of this expression.
    pub fn dup(&self) -> (res: AExp)
        ensures
            res@ == self@,
        decreases self,
    {
        match self {
            AExp::Lam2(p, k, body) => AExp::Lam2(p.clone(), k.clone(), Box::new(body.dup())),
            AExp::Lam1(p, body) => AExp::Lam1(p.clone(), Box::new(body.dup())),
            AExp::Var(v) => AExp::Var(v.clone()),
            AExp::BuiltinIdent(n) => AExp::BuiltinIdent(n.clone()),
            AExp::Lit(l) => AExp::Lit(l.clone()),
        }
    }
}

impl CExp {
    /// A copy of this computation.
    pub fn dup(&self) -> (res: CExp)
        ensures
            res@ == self@,
        decreases self,
    {
        match self {
            CExp::If(c, t, e) => CExp::If(
                Box::new(c.dup()),
                Box::new(t.dup()),
                Box::new(e.dup()),
            ),
            CExp::SetThen(v, a, then) => CExp::SetThen(
                v.clone(),
                Box::new(a.dup()),
                Box::new(then.dup()),
            ),
            CExp::Call1(k, a) => CExp::Call1(Box::new(k.dup()), Box::new(a.dup())),
            CExp::Call2(f, a, k) => CExp::Call2(
                Box::new(f.dup()),
                Box::new(a.dup()),
                Box::new(k.dup()),
            ),
        }
    }
}

impl Clone for AExp {
    fn clone(&self) -> (res: Self)
        ensures
            res@ == self@,
    {
        self.dup()
    }
}

impl Clone for CExp {
    fn clone(&self) -> (res: Self)
        ensures
            res@ == self@,
    {
        self.dup()
    }
}

/// What is left to do with the value of an expression that is being
/// translated: the rest of the computation, as data.
#[derive(Debug, PartialEq)]
pub enum Kont {
    /// Assign the value to the variable, then go on with `void`.
    SetThenK(FreeVar, Box<Kont>),
    /// Assign the value to the variable, then hand `void` to the
    /// continuation.
    SetThenC(FreeVar, AExp),
    /// Branch on the value: each branch hands its result to the
    /// continuation.
    Branch(Expr, Expr, AExp),
    /// The value is a function: translate its argument, then call.
    AppFun(Expr, AExp),
    /// The value is the argument of the function: call it with the
    /// continuation.
    AppArg(AExp, AExp),
}

/// The mathematical value of a [`Kont`].
pub enum KontView {
    SetThenK(FreeVarView, Box<KontView>),
    SetThenC(FreeVarView, AExpView),
    Branch(ExprView, ExprView, AExpView),
    AppFun(ExprView, AExpView),
    AppArg(AExpView, AExpView),
}

impl Kont {
    /// The mathematical value of this term.
    pub open spec fn model(self) -> KontView
        decreases self,
    {
        match self {
            Kont::SetThenK(v, k) => KontView::SetThenK(v@, Box::new((*k).model())),
            Kont::SetThenC(v, c) => KontView::SetThenC(v@, c@),
            Kont::Branch(t, e, c) => KontView::Branch(t@, e@, c@),
            Kont::AppFun(e, c) => KontView::AppFun(e@, c@),
            Kont::AppArg(f, c) => KontView::AppArg(f@, c@),
        }
    }
}

impl View for Kont {
    type V = KontView;

    open spec fn view(&self) -> KontView {
        self.model()
    }
}

/// Whether `e` is atomic: a function, a variable, a literal or a builtin.
pub open spec fn is_atomic(e: ExprView) -> bool {
    e is Lam || e is Var || e is Lit || e is BuiltinIdent
}

/// A measure of `e` that goes down at every step of the translation.
pub open spec fn weight(e: ExprView) -> nat
    decreases e,
{
    match e {
        ExprView::Var(_) => 1,
        ExprView::Lit(_) => 1,
        ExprView::BuiltinIdent(_) => 1,
        ExprView::Lam(_, body) => 1 + weight(*body),
        ExprView::Assign(_, e) => 2 + weight(*e),
        ExprView::If(c, t, e) => 2 + weight(*c) + weight(*t) + weight(*e),
        ExprView::App(f, a) => 2 + weight(*f) + weight(*a),
    }
}

/// The measure of what `k` still holds to translate.
pub open spec fn kont_weight(k: KontView) -> nat
    decreases k,
{
    match k {
        KontView::SetThenK(_, rest) => 1 + kont_weight(*rest),
        KontView::SetThenC(_, _) => 0,
        KontView::Branch(t, e, _) => 1 + weight(t) + weight(e),
        KontView::AppFun(e, _) => 1 + weight(e),
        KontView::AppArg(_, _) => 0,
    }
}

/// The literal `void` as an atomic expression.
pub open spec fn void_atom() -> AExpView {
    AExpView::Lit(LiteralView::Void)
}

/// The fresh variable drawn at `count` for a result.
pub open spec fn rv_at(count: nat) -> FreeVarView {
    FreeVarView { name: "rv"@, id: count }
}

/// The fresh variable drawn at `count` for a continuation.
pub open spec fn k_at(count: nat) -> FreeVarView {
    FreeVarView { name: "k"@, id: count }
}

/// The number of fresh variables that [`cps_m`] draws for `e`.
pub open spec fn demand_m(e: ExprView) -> nat
    decreases e, 0nat,
{
    match e {
        ExprView::Lam(_, body) => 1 + demand_tc(*body),
        _ => 0,
    }
}

/// The number of fresh variables that [`cps_tc`] draws for `e`.
pub open spec fn demand_tc(e: ExprView) -> nat
    decreases e, 1nat,
{
    match e {
        ExprView::Assign(_, inner) => demand_e(*inner),
        ExprView::If(c, t, f) => 1 + demand_e(*c) + demand_tc(*t) + demand_tc(*f),
        ExprView::App(f, a) => demand_e(*f) + demand_e(*a),
        _ => demand_m(e),
    }
}

/// The number of fresh variables that [`cps_tk`] draws for `e`, without
/// those of what is left to do.
pub open spec fn demand_e(e: ExprView) -> nat
    decreases e, 1nat,
{
    match e {
        ExprView::Assign(_, inner) => demand_e(*inner),
        ExprView::If(c, t, f) => 1 + demand_e(*c) + demand_tc(*t) + demand_tc(*f),
        ExprView::App(f, a) => 1 + demand_e(*f) + demand_e(*a),
        _ => demand_m(e),
    }
}

/// The number of fresh variables that [`cps_apply`] draws for `k`.
pub open spec fn demand_apply(k: KontView) -> nat
    decreases k,
{
    match k {
        KontView::SetThenK(_, rest) => demand_apply(*rest),
        KontView::SetThenC(_, _) => 0,
        KontView::Branch(t, e, _) => demand_tc(t) + demand_tc(e),
        KontView::AppFun(e, _) => demand_e(e),
        KontView::AppArg(_, _) => 0,
    }
}

/// The number of fresh variables that [`cps_tk`] draws for `e` and `k`.
pub open spec fn demand_tk(e: ExprView, k: KontView) -> nat {
    demand_e(e) + demand_apply(k)
}

/// The atomic expression `e` in continuation-passing form, the fresh
/// variables drawn from `count` on: a function gets a continuation
/// parameter, and its body hands its result to that continuation.
pub open spec fn cps_m(e: ExprView, count: nat) -> AExpView
    decreases weight(e), 0nat,
{
    match e {
        ExprView::Lam(p, body) => AExpView::Lam2(
            p,
            k_at(count),
            Box::new(cps_tc(*body, AExpView::Var(k_at(count)), count + 1)),
        ),
        ExprView::Var(v) => AExpView::Var(v),
        ExprView::BuiltinIdent(n) => AExpView::BuiltinIdent(n),
        ExprView::Lit(l) => AExpView::Lit(l),
        _ => void_atom(),
    }
}

/// The computation that evaluates `e` and hands its value to the
/// continuation `c`, the fresh variables drawn from `count` on.
pub open spec fn cps_tc(e: ExprView, c: AExpView, count: nat) -> CExpView
    decreases weight(e), 1nat,
{
    match e {
        ExprView::Assign(v, inner) => cps_tk(*inner, KontView::SetThenC(v, c), count),
        ExprView::If(cond, t, f) => CExpView::Call1(
            Box::new(
                AExpView::Lam1(
                    k_at(count),
                    Box::new(
                        cps_tk(
                            *cond,
                            KontView::Branch(*t, *f, AExpView::Var(k_at(count))),
                            count + 1,
                        ),
                    ),
                ),
            ),
            Box::new(c),
        ),
        ExprView::App(f, a) => cps_tk(*f, KontView::AppFun(*a, c), count),
        _ => CExpView::Call1(Box::new(c), Box::new(cps_m(e, count))),
    }
}

/// The computation that evaluates `e` and goes on with `k`, the fresh
/// variables drawn from `count` on.
pub open spec fn cps_tk(e: ExprView, k: KontView, count: nat) -> CExpView
    decreases weight(e) + kont_weight(k), 1nat,
{
    match e {
        ExprView::Assign(v, inner) => cps_tk(*inner, KontView::SetThenK(v, Box::new(k)), count),
        ExprView::If(c, t, f) => cps_tk(
            *c,
            KontView::Branch(
                *t,
                *f,
                AExpView::Lam1(
                    rv_at(count),
                    Box::new(cps_apply(k, AExpView::Var(rv_at(count)), count + 1)),
                ),
            ),
            count + 1 + demand_apply(k),
        ),
        ExprView::App(f, a) => cps_tk(
            *f,
            KontView::AppFun(
                *a,
                AExpView::Lam1(
                    rv_at(count),
                    Box::new(cps_apply(k, AExpView::Var(rv_at(count)), count + 1)),
                ),
            ),
            count + 1 + demand_apply(k),
        ),
        _ => cps_apply(k, cps_m(e, count), count + demand_m(e)),
    }
}

/// The computation that goes on with `k` for the value `a`, the fresh
/// variables drawn from `count` on.
pub open spec fn cps_apply(k: KontView, a: AExpView, count: nat) -> CExpView
    decreases kont_weight(k), 1nat,
{
    match k {
        KontView::SetThenK(v, rest) => CExpView::SetThen(
            v,
            Box::new(a),
            Box::new(cps_apply(*rest, void_atom(), count)),
        ),
        KontView::SetThenC(v, c) => CExpView::SetThen(
            v,
            Box::new(a),
            Box::new(CExpView::Call1(Box::new(c), Box::new(void_atom()))),
        ),
        KontView::Branch(t, e, c) => CExpView::If(
            Box::new(a),
            Box::new(cps_tc(t, c, count)),
            Box::new(cps_tc(e, c, count + demand_tc(t))),
        ),
        KontView::AppFun(e, c) => cps_tk(e, KontView::AppArg(a, c), count),
        KontView::AppArg(f, c) => CExpView::Call2(Box::new(f), Box::new(a), Box::new(c)),
    }
}


fn lam1(p: FreeVar, body: CExp) -> (res: AExp)
    ensures
        res@ == AExpView::Lam1(p@, Box::new(body@)),
{
    AExp::Lam1(p, Box::new(body))
}

fn lam2(p: FreeVar, k: FreeVar, body: CExp) -> (res: AExp)
    ensures
        res@ == AExpView::Lam2(p@, k@, Box::new(body@)),
{
    AExp::Lam2(p, k, Box::new(body))
}

fn var_atom(v: FreeVar) -> (res: AExp)
    ensures
        res@ == AExpView::Var(v@),
{
    AExp::Var(v)
}

fn void_value() -> (res: AExp)
    ensures
        res@ == void_atom(),
{
    AExp::Lit(Literal::Void)
}

fn call1(k: AExp, a: AExp) -> (res: CExp)
    ensures
        res@ == CExpView::Call1(Box::new(k@), Box::new(a@)),
{
    CExp::Call1(Box::new(k), Box::new(a))
}

fn call2(f: AExp, a: AExp, k: AExp) -> (res: CExp)
    ensures
        res@ == CExpView::Call2(Box::new(f@), Box::new(a@), Box::new(k@)),
{
    CExp::Call2(Box::new(f), Box::new(a), Box::new(k))
}

fn set_then(v: FreeVar, a: AExp, then: CExp) -> (res: CExp)
    ensures
        res@ == CExpView::SetThen(v@, Box::new(a@), Box::new(then@)),
{
    CExp::SetThen(v, Box::new(a), Box::new(then))
}

fn branch(a: AExp, t: CExp, e: CExp) -> (res: CExp)
    ensures
        res@ == CExpView::If(Box::new(a@), Box::new(t@), Box::new(e@)),
{
    CExp::If(Box::new(a), Box::new(t), Box::new(e))
}

/// The continuation that receives a result and goes on with `k`.
fn result_cont(k: Kont, ctx: &mut TransformContext) -> (res: AExp)
    ensures
        final(ctx).count() == advance(old(ctx).count(), 1 + demand_apply(k@)),
        old(ctx).has_room(1 + demand_apply(k@)) ==> res@ == AExpView::Lam1(
            rv_at(old(ctx).count()),
            Box::new(cps_apply(k@, AExpView::Var(rv_at(old(ctx).count())), old(ctx).count() + 1)),
        ),
    decreases kont_weight(k@), 2nat,
{
    proof {
        ctx.lemma_count_in_range();
    }
    let rv = ctx.fresh_var("rv");
    let body = apply(k, var_atom(rv.clone()), ctx);
    lam1(rv, body)
}

/// Translates the atomic expression `expr`: see [`cps_m`].
fn translate_atom(expr: Expr, ctx: &mut TransformContext) -> (res: AExp)
    requires
        is_atomic(expr@),
    ensures
        final(ctx).count() == advance(old(ctx).count(), demand_m(expr@)),
        old(ctx).has_room(demand_m(expr@)) ==> res@ == cps_m(expr@, old(ctx).count()),
    decreases weight(expr@), 0nat,
{
    proof {
        ctx.lemma_count_in_range();
    }
    match expr {
        Expr::Lam(p, body) => {
            let k = ctx.fresh_var("k");
            let inner = translate_to(*body, var_atom(k.clone()), ctx);
            lam2(p, k, inner)
        },
        Expr::Var(v) => AExp::Var(v),
        Expr::BuiltinIdent(n) => AExp::BuiltinIdent(n),
        Expr::Lit(l) => AExp::Lit(l),
        _ => void_value(),
    }
}

/// Translates `expr` so that its value goes to the continuation `c`: see
/// [`cps_tc`].
pub(crate) fn translate_to(expr: Expr, c: AExp, ctx: &mut TransformContext) -> (res: CExp)
    ensures
        final(ctx).count() == advance(old(ctx).count(), demand_tc(expr@)),
        old(ctx).has_room(demand_tc(expr@)) ==> res@ == cps_tc(expr@, c@, old(ctx).count()),
    decreases weight(expr@), 1nat,
{
    proof {
        ctx.lemma_count_in_range();
    }
    match expr {
        Expr::Assign(v, inner) => t_k(*inner, Kont::SetThenC(v, c), ctx),
        Expr::If(cond, t, f) => {
            let k = ctx.fresh_var("k");
            let rest = Kont::Branch(*t, *f, var_atom(k.clone()));
            let body = t_k(*cond, rest, ctx);
            call1(lam1(k, body), c)
        },
        Expr::App(f, a) => t_k(*f, Kont::AppFun(*a, c), ctx),
        atom => {
            let a = translate_atom(atom, ctx);
            call1(c, a)
        },
    }
}

/// Translates `expr` so that `k` goes on with its value: see [`cps_tk`].
fn t_k(expr: Expr, k: Kont, ctx: &mut TransformContext) -> (res: CExp)
    ensures
        final(ctx).count() == advance(old(ctx).count(), demand_tk(expr@, k@)),
        old(ctx).has_room(demand_tk(expr@, k@)) ==> res@ == cps_tk(expr@, k@, old(ctx).count()),
    decreases weight(expr@) + kont_weight(k@), 1nat,
{
    proof {
        ctx.lemma_count_in_range();
    }
    match expr {
        Expr::Assign(v, inner) => t_k(*inner, Kont::SetThenK(v, Box::new(k)), ctx),
        Expr::If(c, t, f) => {
            let cont = result_cont(k, ctx);
            t_k(*c, Kont::Branch(*t, *f, cont), ctx)
        },
        Expr::App(f, a) => {
            let cont = result_cont(k, ctx);
            t_k(*f, Kont::AppFun(*a, cont), ctx)
        },
        atom => {
            let a = translate_atom(atom, ctx);
            apply(k, a, ctx)
        },
    }
}

/// Goes on with `k` for the value `a`: see [`cps_apply`].
fn apply(k: Kont, a: AExp, ctx: &mut TransformContext) -> (res: CExp)
    ensures
        final(ctx).count() == advance(old(ctx).count(), demand_apply(k@)),
        old(ctx).has_room(demand_apply(k@)) ==> res@ == cps_apply(k@, a@, old(ctx).count()),
    decreases kont_weight(k@), 1nat,
{
    proof {
        ctx.lemma_count_in_range();
    }
    match k {
        Kont::SetThenK(v, rest) => {
            let then = apply(*rest, void_value(), ctx);
            set_then(v, a, then)
        },
        Kont::SetThenC(v, c) => set_then(v, a, call1(c, void_value())),
        Kont::Branch(t, e, c) => {
            let c2 = c.clone();
            let tt = translate_to(t, c2, ctx);
            let ee = translate_to(e, c, ctx);
            branch(a, tt, ee)
        },
        Kont::AppFun(e, c) => t_k(e, Kont::AppArg(a, c), ctx),
        Kont::AppArg(f, c) => call2(f, a, c),
    }
}


/// What translating the atomic expression `e` gives, for a supply of fresh
/// names that stood at `before` and stands at `after`: [`cps_m`], or the
/// report that the supply has run out where it had no room for the names
/// that the translation draws.
pub open spec fn atom_translated(
    res: Result<AExp, CompileError>,
    e: ExprView,
    before: nat,
    after: nat,
) -> bool {
    if before + demand_m(e) < u64::MAX {
        res matches Ok(a) && a@ == cps_m(e, before) && after == before + demand_m(e)
    } else {
        res matches Err(x) && x@ == CompileErrorView::NamesExhausted
    }
}

/// What translating `e` for the continuation `c` gives, for a supply of
/// fresh names that stood at `before` and stands at `after`: [`cps_tc`],
/// or the report that the supply has run out where it had no room for the
/// names that the translation draws.
pub open spec fn translated(
    res: Result<CExp, CompileError>,
    e: ExprView,
    c: AExpView,
    before: nat,
    after: nat,
) -> bool {
    if before + demand_tc(e) < u64::MAX {
        res matches Ok(t) && t@ == cps_tc(e, c, before) && after == before + demand_tc(e)
    } else {
        res matches Err(x) && x@ == CompileErrorView::NamesExhausted
    }
}

/// Translates the atomic expression `expr` to continuation-passing form:
/// a function gets a continuation parameter, any other atom stays.
///
/// Where every variable of `expr` has an identifier below the count of
/// `ctx`, the result has the free variables of `expr`.
pub fn m(expr: Expr, ctx: &mut TransformContext) -> (res: Result<AExp, CompileError>)
    requires
        is_atomic(expr@),
    ensures
        atom_translated(res, expr@, old(ctx).count(), final(ctx).count()),
        res is Ok && crate::expr::names_below(expr@, old(ctx).count()) ==> crate::capture::atom_free(
            res->Ok_0@,
        ) == crate::expr::free_ids(expr@),
{
    proof {
        ctx.lemma_count_in_range();
        if crate::expr::names_below(expr@, ctx.count()) {
            crate::capture::lemma_cps_atom_keeps_free_variables(expr@, ctx.count());
        }
    }
    let a = translate_atom(expr, ctx);
    if ctx.exhausted() {
        Err(CompileError::NamesExhausted)
    } else {
        Ok(a)
    }
}

/// Translates `expr` to continuation-passing form, so that its value goes
/// to the continuation `c`.
///
/// The binders that the translation invents are drawn from `ctx`. Where
/// every variable of `expr` and every free variable of `c` has an
/// identifier below the count of `ctx`, as is the case when `expr` was
/// resolved with the same supply, none of them is captured and none is
/// dropped: the result has the free variables of `expr` and of `c`.
pub fn t_c(expr: Expr, c: AExp, ctx: &mut TransformContext) -> (res: Result<CExp, CompileError>)
    ensures
        translated(res, expr@, c@, old(ctx).count(), final(ctx).count()),
        res is Ok && crate::expr::names_below(expr@, old(ctx).count()) && crate::expr::all_below(
            crate::capture::atom_free(c@),
            old(ctx).count(),
        ) ==> crate::capture::comp_free(res->Ok_0@) == crate::expr::free_ids(expr@)
            + crate::capture::atom_free(c@),
{
    proof {
        ctx.lemma_count_in_range();
        if crate::expr::names_below(expr@, ctx.count()) && crate::expr::all_below(
            crate::capture::atom_free(c@),
            ctx.count(),
        ) {
            crate::capture::lemma_cps_keeps_free_variables(expr@, c@, ctx.count());
        }
    }
    let t = translate_to(expr, c, ctx);
    if ctx.exhausted() {
        Err(CompileError::NamesExhausted)
    } else {
        Ok(t)
    }
}

} // verus!
