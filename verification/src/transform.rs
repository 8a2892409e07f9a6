use crate::names::{FreeVar, FreeVarView};
use crate::nodes::{lexprs_view, ExprLit, ExprLitView, LExpr, LExprView};
use crate::utils::{decimal, push_decimal, reversed};
use vstd::prelude::*;

verus! {

/// The supply of fresh names that every transformation draws from.
///
/// Each name taken carries the current count, and the count then goes up by
/// one. At `u64::MAX` the supply is exhausted: the count stays, and the names
/// handed out from then on are no longer fresh.
pub struct TransformContext {
    genvar_count: u64,
}

/// The spelling of the anonymous identifier drawn at `count` for `name`.
pub open spec fn anon_ident(name: Seq<char>, count: nat) -> Seq<char> {
    "$anon_var_"@ + name + "_"@ + decimal(count)
}

/// The spelling of the continuation identifier drawn at `count`.
pub open spec fn cont_ident(count: nat) -> Seq<char> {
    "$cont_var_"@ + decimal(count)
}

/// The spelling of the throwaway identifier drawn at `count`.
pub open spec fn throwaway_ident(count: nat) -> Seq<char> {
    "$throwaway_var_"@ + decimal(count)
}

/// The count after `n` more names were drawn from a supply that stood at `count`.
pub open spec fn advance(count: nat, n: nat) -> nat {
    if count + n < u64::MAX {
        count + n
    } else {
        u64::MAX as nat
    }
}

impl TransformContext {
    /// The number of names drawn so far.
    pub closed spec fn count(&self) -> nat {
        self.genvar_count as nat
    }

    /// Whether the supply has run out.
    pub open spec fn is_exhausted(&self) -> bool {
        self.count() >= u64::MAX
    }

    /// Whether `n` more names can be drawn, all of them fresh.
    pub open spec fn has_room(&self, n: nat) -> bool {
        self.count() + n < u64::MAX
    }

    /// The count never passes the point of exhaustion.
    pub proof fn lemma_count_in_range(&self)
        ensures
            self.count() <= u64::MAX,
    {
    }

    /// A supply from which no name was drawn yet.
    pub fn new() -> (ctx: Self)
        ensures
            ctx.count() == 0,
    {
        TransformContext { genvar_count: 0 }
    }

    /// A supply that goes on after `count` names were drawn elsewhere.
    pub fn starting_at(count: u64) -> (ctx: Self)
        ensures
            ctx.count() == count,
    {
        TransformContext { genvar_count: count }
    }

    /// Whether the supply has run out.
    pub fn exhausted(&self) -> (b: bool)
        ensures
            b == self.is_exhausted(),
    {
        self.genvar_count == u64::MAX
    }

    /// The number of names drawn so far.
    pub fn drawn(&self) -> (n: u64)
        ensures
            n as nat == self.count(),
    {
        self.genvar_count
    }

    fn take(&mut self) -> (n: u64)
        ensures
            n as nat == old(self).count(),
            final(self).count() == advance(old(self).count(), 1),
    {
        let n = self.genvar_count;
        if n < u64::MAX {
            self.genvar_count = n + 1;
        }
        n
    }

    /// Draws an anonymous identifier that recalls `name`.
    pub fn gen_ident(&mut self, name: &str) -> (ident: String)
        ensures
            ident@ == anon_ident(name@, old(self).count()),
            final(self).count() == advance(old(self).count(), 1),
    {
        let n = self.take();
        let mut ident = String::from_str("$anon_var_");
        ident.append(name);
        ident.append("_");
        push_decimal(&mut ident, n);
        ident
    }

    /// Draws an identifier for a value that nothing will read.
    pub fn gen_throwaway(&mut self) -> (ident: String)
        ensures
            ident@ == throwaway_ident(old(self).count()),
            final(self).count() == advance(old(self).count(), 1),
    {
        let n = self.take();
        let mut ident = String::from_str("$throwaway_var_");
        push_decimal(&mut ident, n);
        ident
    }

    /// Draws an anonymous variable that recalls `name`.
    pub fn gen_var(&mut self, name: &str) -> (var: LExpr)
        ensures
            var@ == LExprView::Var(anon_ident(name@, old(self).count())),
            final(self).count() == advance(old(self).count(), 1),
    {
        LExpr::Var(self.gen_ident(name))
    }

    /// Draws a variable for a continuation.
    pub fn gen_cont(&mut self) -> (var: LExpr)
        ensures
            var@ == LExprView::Var(cont_ident(old(self).count())),
            final(self).count() == advance(old(self).count(), 1),
    {
        let n = self.take();
        let mut ident = String::from_str("$cont_var_");
        push_decimal(&mut ident, n);
        LExpr::Var(ident)
    }

    /// Draws a variable for a value that nothing will read.
    pub fn gen_throwaway_var(&mut self) -> (var: LExpr)
        ensures
            var@ == LExprView::Var(throwaway_ident(old(self).count())),
            final(self).count() == advance(old(self).count(), 1),
    {
        LExpr::Var(self.gen_throwaway())
    }

    /// Draws a fresh variable spelled `hint`.
    pub fn fresh_var(&mut self, hint: &str) -> (v: FreeVar)
        ensures
            v@ == (FreeVarView { name: hint@, id: old(self).count() }),
            final(self).count() == advance(old(self).count(), 1),
    {
        let n = self.take();
        FreeVar { pretty_name: String::from_str(hint), unique_id: n }
    }
}


/// The literal `void` of the string-named form.
pub open spec fn void_view() -> LExprView {
    LExprView::Lit(ExprLitView::Void)
}

fn void_obj() -> (res: LExpr)
    ensures
        res@ == void_view(),
{
    LExpr::Lit(ExprLit::Void)
}

fn text_is(a: &String, b: &str) -> (res: bool)
    ensures
        res == (a@ == b@),
{
    let other = String::from_str(b);
    *a == other
}

/// Whether `e` is an expression as it is read: functions and calls of any
/// arity, variables, literals and builtins.
pub open spec fn is_source(e: LExprView) -> bool
    decreases e,
{
    match e {
        LExprView::Lam(_, body) => forall|i: int| 0 <= i < body.len() ==> is_source(body[i]),
        LExprView::App(f, args) => is_source(*f) && forall|i: int|
            0 <= i < args.len() ==> is_source(args[i]),
        LExprView::Var(_) => true,
        LExprView::Lit(_) => true,
        LExprView::BuiltinIdent(_) => true,
        LExprView::BuiltinApp(_, _) => true,
        _ => false,
    }
}

/// The runtime function that stands for the arithmetic operator `name`.
pub open spec fn builtin_target(name: Seq<char>) -> Option<Seq<char>> {
    if name == "+"@ {
        Some("object_int_obj_add"@)
    } else if name == "-"@ {
        Some("object_int_obj_sub"@)
    } else if name == "*"@ {
        Some("object_int_obj_mul"@)
    } else if name == "/"@ {
        Some("object_int_obj_div"@)
    } else {
        None
    }
}

/// The expression `e` with every variable that names an arithmetic
/// operator replaced by the builtin that stands for it.
pub open spec fn renamed(e: LExprView) -> LExprView
    decreases e, 0nat,
{
    match e {
        LExprView::Lam(args, body) => LExprView::Lam(args, renamed_all(body, body.len())),
        LExprView::App(f, args) => LExprView::App(
            Box::new(renamed(*f)),
            renamed_all(args, args.len()),
        ),
        LExprView::Var(name) => match builtin_target(name) {
            Some(target) => LExprView::BuiltinIdent(target),
            None => e,
        },
        _ => e,
    }
}

/// The first `n` of `es`, each with its operators renamed.
pub open spec fn renamed_all(es: Seq<LExprView>, n: nat) -> Seq<LExprView>
    decreases es, n,
{
    if n == 0 || n > es.len() {
        Seq::empty()
    } else {
        renamed_all(es, (n - 1) as nat).push(renamed(es[n - 1]))
    }
}

fn rename_var(name: String) -> (res: LExpr)
    ensures
        res@ == renamed(LExprView::Var(name@)),
{
    if text_is(&name, "+") {
        LExpr::BuiltinIdent(String::from_str("object_int_obj_add"))
    } else if text_is(&name, "-") {
        LExpr::BuiltinIdent(String::from_str("object_int_obj_sub"))
    } else if text_is(&name, "*") {
        LExpr::BuiltinIdent(String::from_str("object_int_obj_mul"))
    } else if text_is(&name, "/") {
        LExpr::BuiltinIdent(String::from_str("object_int_obj_div"))
    } else {
        LExpr::Var(name)
    }
}

#[verifier::loop_isolation(false)]
fn rename_builtins_all(es: Vec<LExpr>, ctx: &mut TransformContext) -> (res: Vec<LExpr>)
    requires
        forall|i: int| 0 <= i < es@.len() ==> is_source(es@[i]@),
    ensures
        lexprs_view(res@) == renamed_all(lexprs_view(es@), es@.len()),
        final(ctx).count() == old(ctx).count(),
    decreases es,
{
    let ghost views = lexprs_view(es@);
    let n = es.len();
    let mut rest = reversed(es);
    let mut out: Vec<LExpr> = Vec::new();
    assert(lexprs_view(out@) =~= renamed_all(views, 0));
    while rest.len() > 0
        invariant
            rest@.len() + out@.len() == n,
            forall|i: int| 0 <= i < rest@.len() ==> rest@[i] == es@[n - 1 - i],
            lexprs_view(out@) == renamed_all(views, out@.len()),
            ctx.count() == old(ctx).count(),
        decreases rest@.len(),
    {
        let ghost k = out@.len() as int;
        let ghost before = lexprs_view(out@);
        let e = rest.pop().unwrap();
        assert(e == es@[k]);
        assert(e@ == views[k]);
        let r = rename_builtins(e, ctx);
        out.push(r);
        assert(lexprs_view(out@) =~= before.push(r@));
    }
    out
}

/// Replaces every variable that names an arithmetic operator by the
/// builtin that stands for it.
pub fn rename_builtins(expr: LExpr, ctx: &mut TransformContext) -> (res: LExpr)
    requires
        is_source(expr@),
    ensures
        res@ == renamed(expr@),
        final(ctx).count() == old(ctx).count(),
    decreases expr,
{
    match expr {
        LExpr::Lam(args, body) => {
            assert(expr@->Lam_1 =~= lexprs_view(body@));
            assert forall|i: int| 0 <= i < body@.len() implies is_source(body@[i]@) by {
                assert(lexprs_view(body@)[i] == body@[i]@);
            }
            let body2 = rename_builtins_all(body, ctx);
            let res = LExpr::Lam(args, body2);
            assert(res@->Lam_1 =~= lexprs_view(body2@));
            res
        },
        LExpr::App(f, operands) => {
            assert(expr@->App_1 =~= lexprs_view(operands@));
            assert forall|i: int| 0 <= i < operands@.len() implies is_source(operands@[i]@) by {
                assert(lexprs_view(operands@)[i] == operands@[i]@);
            }
            let f2 = rename_builtins(*f, ctx);
            let operands2 = rename_builtins_all(operands, ctx);
            let res = LExpr::App(Box::new(f2), operands2);
            assert(res@->App_1 =~= lexprs_view(operands2@));
            res
        },
        LExpr::Var(name) => rename_var(name),
        other => other,
    }
}

/// The expression `e` with every literal replaced by the call that makes
/// its object.
pub open spec fn with_ctors(e: LExprView) -> LExprView
    decreases e, 0nat,
{
    match e {
        LExprView::Lam(args, body) => LExprView::Lam(args, with_ctors_all(body, body.len())),
        LExprView::App(f, args) => LExprView::App(
            Box::new(with_ctors(*f)),
            with_ctors_all(args, args.len()),
        ),
        LExprView::Lit(ExprLitView::Void) => LExprView::App(
            Box::new(LExprView::BuiltinIdent("object_void_obj_new"@)),
            Seq::empty(),
        ),
        LExprView::Lit(ExprLitView::StringLit(s)) => LExprView::BuiltinApp(
            "object_str_obj_new"@,
            Box::new(e),
        ),
        LExprView::Lit(ExprLitView::NumLit(n)) => LExprView::BuiltinApp(
            "object_int_obj_new"@,
            Box::new(e),
        ),
        _ => e,
    }
}

/// The first `n` of `es`, each with its literals replaced.
pub open spec fn with_ctors_all(es: Seq<LExprView>, n: nat) -> Seq<LExprView>
    decreases es, n,
{
    if n == 0 || n > es.len() {
        Seq::empty()
    } else {
        with_ctors_all(es, (n - 1) as nat).push(with_ctors(es[n - 1]))
    }
}

fn transform_lit(lit: ExprLit) -> (res: LExpr)
    ensures
        res@ == with_ctors(LExprView::Lit(lit@)),
{
    match lit {
        ExprLit::Void => {
            let head = LExpr::BuiltinIdent(String::from_str("object_void_obj_new"));
            assert(head@ == LExprView::BuiltinIdent("object_void_obj_new"@));
            let none: Vec<LExpr> = Vec::new();
            let res = LExpr::App(Box::new(head), none);
            assert(res@->App_1 =~= Seq::empty());
            res
        },
        ExprLit::StringLit(s) => {
            let inner = LExpr::Lit(ExprLit::StringLit(s));
            assert(inner@ == LExprView::Lit(lit@));
            LExpr::BuiltinApp(String::from_str("object_str_obj_new"), Box::new(inner))
        },
        ExprLit::NumLit(n) => {
            let inner = LExpr::Lit(ExprLit::NumLit(n));
            assert(inner@ == LExprView::Lit(lit@));
            LExpr::BuiltinApp(String::from_str("object_int_obj_new"), Box::new(inner))
        },
    }
}

#[verifier::loop_isolation(false)]
fn transform_lits_all(es: Vec<LExpr>, ctx: &mut TransformContext) -> (res: Vec<LExpr>)
    requires
        forall|i: int| 0 <= i < es@.len() ==> is_source(es@[i]@),
    ensures
        lexprs_view(res@) == with_ctors_all(lexprs_view(es@), es@.len()),
        final(ctx).count() == old(ctx).count(),
    decreases es,
{
    let ghost views = lexprs_view(es@);
    let n = es.len();
    let mut rest = reversed(es);
    let mut out: Vec<LExpr> = Vec::new();
    assert(lexprs_view(out@) =~= with_ctors_all(views, 0));
    while rest.len() > 0
        invariant
            rest@.len() + out@.len() == n,
            forall|i: int| 0 <= i < rest@.len() ==> rest@[i] == es@[n - 1 - i],
            lexprs_view(out@) == with_ctors_all(views, out@.len()),
            ctx.count() == old(ctx).count(),
        decreases rest@.len(),
    {
        let ghost k = out@.len() as int;
        let ghost before = lexprs_view(out@);
        let e = rest.pop().unwrap();
        assert(e == es@[k]);
        assert(e@ == views[k]);
        let r = transform_lits(e, ctx);
        out.push(r);
        assert(lexprs_view(out@) =~= before.push(r@));
    }
    out
}

/// Replaces every literal by the call that makes its object.
pub fn transform_lits(expr: LExpr, ctx: &mut TransformContext) -> (res: LExpr)
    requires
        is_source(expr@),
    ensures
        res@ == with_ctors(expr@),
        final(ctx).count() == old(ctx).count(),
    decreases expr,
{
    match expr {
        LExpr::Lam(args, body) => {
            assert(expr@->Lam_1 =~= lexprs_view(body@));
            assert forall|i: int| 0 <= i < body@.len() implies is_source(body@[i]@) by {
                assert(lexprs_view(body@)[i] == body@[i]@);
            }
            let body2 = transform_lits_all(body, ctx);
            let res = LExpr::Lam(args, body2);
            assert(res@->Lam_1 =~= lexprs_view(body2@));
            res
        },
        LExpr::App(f, operands) => {
            assert(expr@->App_1 =~= lexprs_view(operands@));
            assert forall|i: int| 0 <= i < operands@.len() implies is_source(operands@[i]@) by {
                assert(lexprs_view(operands@)[i] == operands@[i]@);
            }
            let f2 = transform_lits(*f, ctx);
            let operands2 = transform_lits_all(operands, ctx);
            let res = LExpr::App(Box::new(f2), operands2);
            assert(res@->App_1 =~= lexprs_view(operands2@));
            res
        },
        LExpr::Lit(lit) => transform_lit(lit),
        other => other,
    }
}


/// The number of names that [`expand_lam_app`] draws for `e`: one for
/// every function without parameters.
pub open spec fn expand_demand(e: LExprView) -> nat
    decreases e, 0nat,
{
    match e {
        LExprView::Lam(args, body) => expand_demand_all(body, body.len()) + if args.len() == 0 {
            1nat
        } else {
            0nat
        },
        LExprView::App(f, args) => expand_demand(*f) + expand_demand_all(args, args.len()),
        _ => 0,
    }
}

/// The number of names that [`expand_lam_app`] draws for the first `n` of
/// `es`.
pub open spec fn expand_demand_all(es: Seq<LExprView>, n: nat) -> nat
    decreases es, n,
{
    if n == 0 || n > es.len() {
        0
    } else {
        expand_demand_all(es, (n - 1) as nat) + expand_demand(es[n - 1])
    }
}

/// The function of the parameters `args[from..]`, one nested function of
/// one parameter for each, the innermost with the body `body`.
pub open spec fn nested_lams(args: Seq<Seq<char>>, body: Seq<LExprView>, from: nat) -> LExprView
    decreases args.len() - from,
{
    if from + 1 >= args.len() {
        LExprView::LamOne(args[from as int], body)
    } else {
        LExprView::LamOne(args[from as int], seq![nested_lams(args, body, from + 1)])
    }
}

/// The call of `head` with the first `n` of `args`, one nested call of one
/// argument for each.
pub open spec fn nested_apps(head: LExprView, args: Seq<LExprView>, n: nat) -> LExprView
    decreases n,
{
    if n == 0 || n > args.len() {
        head
    } else {
        LExprView::AppOne(
            Box::new(nested_apps(head, args, (n - 1) as nat)),
            Box::new(args[n - 1]),
        )
    }
}

/// The expression `e` with every function and call brought to one
/// parameter and one argument; the names are drawn from `count` on.
pub open spec fn expanded(e: LExprView, count: nat) -> LExprView
    decreases e, 0nat,
{
    match e {
        LExprView::Lam(args, body) => {
            let inner = expanded_all(body, count, body.len());
            if args.len() == 0 {
                LExprView::LamOne(
                    throwaway_ident(count + expand_demand_all(body, body.len())),
                    inner,
                )
            } else {
                nested_lams(args, inner, 0)
            }
        },
        LExprView::App(f, args) => {
            let head = expanded(*f, count);
            let rest = expanded_all(args, count + expand_demand(*f), args.len());
            if args.len() == 0 {
                LExprView::AppOne(Box::new(head), Box::new(void_view()))
            } else {
                nested_apps(head, rest, args.len())
            }
        },
        _ => e,
    }
}

/// The first `n` of `es`, each expanded in turn.
pub open spec fn expanded_all(es: Seq<LExprView>, count: nat, n: nat) -> Seq<LExprView>
    decreases es, n,
{
    if n == 0 || n > es.len() {
        Seq::empty()
    } else {
        expanded_all(es, count, (n - 1) as nat).push(
            expanded(es[n - 1], count + expand_demand_all(es, (n - 1) as nat)),
        )
    }
}

proof fn lemma_expand_demand_grows(es: Seq<LExprView>, k: nat, n: nat)
    requires
        k <= n <= es.len(),
    ensures
        expand_demand_all(es, k) <= expand_demand_all(es, n),
    decreases n,
{
    if k < n {
        lemma_expand_demand_grows(es, k, (n - 1) as nat);
    }
}

proof fn lemma_expanded_all_len(es: Seq<LExprView>, count: nat, n: nat)
    requires
        n <= es.len(),
    ensures
        expanded_all(es, count, n).len() == n,
    decreases n,
{
    if n > 0 {
        lemma_expanded_all_len(es, count, (n - 1) as nat);
    }
}

fn lam_one(arg: String, body: Vec<LExpr>) -> (res: LExpr)
    ensures
        res@ == LExprView::LamOne(arg@, lexprs_view(body@)),
{
    let res = LExpr::LamOne(arg, body);
    assert(res@->LamOne_1 =~= lexprs_view(body@));
    res
}

fn app_one(f: LExpr, a: LExpr) -> (res: LExpr)
    ensures
        res@ == LExprView::AppOne(Box::new(f@), Box::new(a@)),
{
    LExpr::AppOne(Box::new(f), Box::new(a))
}

fn lam_one_one(arg: String, body: LExpr) -> (res: LExpr)
    ensures
        res@ == LExprView::LamOneOne(arg@, Box::new(body@)),
{
    LExpr::LamOneOne(arg, Box::new(body))
}

fn var_of(name: String) -> (res: LExpr)
    ensures
        res@ == LExprView::Var(name@),
{
    LExpr::Var(name)
}

fn single(e: LExpr) -> (res: Vec<LExpr>)
    ensures
        lexprs_view(res@) == seq![e@],
{
    let res = vec![e];
    assert(lexprs_view(res@) =~= seq![e@]);
    res
}

/// Wraps `body` in one function of one parameter for each of `args`.
fn nest_lams(args: Vec<String>, body: Vec<LExpr>) -> (res: LExpr)
    requires
        args@.len() > 0,
    ensures
        res@ == nested_lams(crate::base_expr::names_view(args@), lexprs_view(body@), 0),
{
    let ghost names = crate::base_expr::names_view(args@);
    let ghost inner = lexprs_view(body@);
    let mut rest = args;
    let last = rest.pop().unwrap();
    assert(last@ == names[names.len() - 1]);
    let mut acc = lam_one(last, body);
    while rest.len() > 0
        invariant
            rest@.len() < names.len(),
            names == crate::base_expr::names_view(args@),
            forall|i: int| 0 <= i < rest@.len() ==> rest@[i] == args@[i],
            acc@ == nested_lams(names, inner, rest@.len() as nat),
        decreases rest@.len(),
    {
        let arg = rest.pop().unwrap();
        assert(arg@ == names[rest@.len() as int]);
        acc = lam_one(arg, single(acc));
    }
    acc
}

/// Calls `head` with each of `args` in turn.
fn nest_apps(head: LExpr, args: Vec<LExpr>) -> (res: LExpr)
    ensures
        res@ == nested_apps(head@, lexprs_view(args@), args@.len()),
{
    let ghost views = lexprs_view(args@);
    let ghost head_view = head@;
    let n = args.len();
    let mut rest = reversed(args);
    let mut acc = head;
    let mut done: usize = 0;
    while rest.len() > 0
        invariant
            rest@.len() + done == n,
            n == args@.len(),
            views == lexprs_view(args@),
            forall|i: int| 0 <= i < rest@.len() ==> rest@[i] == args@[n - 1 - i],
            acc@ == nested_apps(head_view, views, done as nat),
        decreases rest@.len(),
    {
        let e = rest.pop().unwrap();
        assert(e == args@[done as int]);
        assert(e@ == views[done as int]);
        acc = app_one(acc, e);
        done += 1;
    }
    acc
}

#[verifier::loop_isolation(false)]
fn expand_app_all(es: Vec<LExpr>, ctx: &mut TransformContext) -> (res: Vec<LExpr>)
    requires
        forall|i: int| 0 <= i < es@.len() ==> is_source(es@[i]@),
    ensures
        final(ctx).count() == advance(
            old(ctx).count(),
            expand_demand_all(lexprs_view(es@), es@.len()),
        ),
        res@.len() == es@.len(),
        old(ctx).has_room(expand_demand_all(lexprs_view(es@), es@.len())) ==> lexprs_view(res@)
            == expanded_all(lexprs_view(es@), old(ctx).count(), es@.len()),
    decreases es,
{
    let ghost views = lexprs_view(es@);
    let ghost c0 = ctx.count();
    let ghost total = expand_demand_all(views, views.len());
    proof {
        ctx.lemma_count_in_range();
    }
    let n = es.len();
    let mut rest = reversed(es);
    let mut out: Vec<LExpr> = Vec::new();
    assert(lexprs_view(out@) =~= expanded_all(views, c0, 0));
    while rest.len() > 0
        invariant
            rest@.len() + out@.len() == n,
            forall|i: int| 0 <= i < rest@.len() ==> rest@[i] == es@[n - 1 - i],
            ctx.count() == advance(c0, expand_demand_all(views, out@.len())),
            c0 + total < u64::MAX ==> lexprs_view(out@) == expanded_all(views, c0, out@.len()),
        decreases rest@.len(),
    {
        let ghost k = out@.len() as int;
        let ghost before = lexprs_view(out@);
        proof {
            lemma_expand_demand_grows(views, (k + 1) as nat, n as nat);
        }
        let e = rest.pop().unwrap();
        assert(e == es@[k]);
        assert(e@ == views[k]);
        let r = expand_app(e, ctx);
        out.push(r);
        assert(lexprs_view(out@) =~= before.push(r@));
    }
    out
}

/// Brings every function to one parameter and every call to one argument:
/// see [`expanded`].
fn expand_app(expr: LExpr, ctx: &mut TransformContext) -> (res: LExpr)
    requires
        is_source(expr@),
    ensures
        final(ctx).count() == advance(old(ctx).count(), expand_demand(expr@)),
        old(ctx).has_room(expand_demand(expr@)) ==> res@ == expanded(expr@, old(ctx).count()),
    decreases expr,
{
    proof {
        ctx.lemma_count_in_range();
    }
    match expr {
        LExpr::Lam(args, body) => {
            assert(expr@->Lam_1 =~= lexprs_view(body@));
            assert forall|i: int| 0 <= i < body@.len() implies is_source(body@[i]@) by {
                assert(lexprs_view(body@)[i] == body@[i]@);
            }
            let body2 = expand_app_all(body, ctx);
            if args.len() == 0 {
                let name = ctx.gen_throwaway();
                lam_one(name, body2)
            } else {
                nest_lams(args, body2)
            }
        },
        LExpr::App(f, operands) => {
            let ghost views = lexprs_view(operands@);
            assert(expr@->App_1 =~= views);
            assert forall|i: int| 0 <= i < operands@.len() implies is_source(operands@[i]@) by {
                assert(views[i] == operands@[i]@);
            }
            let ghost c0 = ctx.count();
            let head = expand_app(*f, ctx);
            let ghost c1 = ctx.count();
            let count = operands.len();
            let operands2 = expand_app_all(operands, ctx);
            proof {
                assert(expand_demand_all(views, 0) == 0);
                if c0 + expand_demand(expr@) < u64::MAX {
                    lemma_expanded_all_len(views, c1, views.len());
                }
            }
            if count == 0 {
                app_one(head, void_obj())
            } else {
                nest_apps(head, operands2)
            }
        },
        other => other,
    }
}


/// The number of names that [`expand_lam_body`] draws for `e`: one for
/// every expression of a body before its last.
pub open spec fn body_demand(e: LExprView) -> nat
    decreases e, 0nat,
{
    match e {
        LExprView::LamOne(_, body) => body_demand_back(body, body.len()) + if body.len() == 0 {
            0nat
        } else {
            (body.len() - 1) as nat
        },
        LExprView::AppOne(f, a) => body_demand(*f) + body_demand(*a),
        _ => 0,
    }
}

/// The number of names that [`expand_lam_body`] draws for the last `k` of
/// `es`.
pub open spec fn body_demand_back(es: Seq<LExprView>, k: nat) -> nat
    decreases es, k,
{
    if k == 0 || k > es.len() {
        0
    } else {
        body_demand_back(es, (k - 1) as nat) + body_demand(es[es.len() - k])
    }
}

/// The expressions `done[..k]` evaluated from the last to the first, the
/// value being that of `done[0]`: every expression but `done[0]` is the
/// argument of a function whose parameter, drawn from `ids` on, nothing
/// reads.
pub open spec fn chained(done: Seq<LExprView>, ids: nat, k: nat) -> LExprView
    decreases k,
{
    if k == 0 || k > done.len() {
        void_view()
    } else if k == 1 {
        done[0]
    } else {
        LExprView::AppOne(
            Box::new(
                LExprView::LamOneOne(
                    anon_ident("lam_expand"@, (ids + k - 2) as nat),
                    Box::new(chained(done, ids, (k - 1) as nat)),
                ),
            ),
            Box::new(done[k - 1]),
        )
    }
}

/// The expression `e` with every body of several expressions brought to
/// one expression; the names are drawn from `count` on.
pub open spec fn single_bodied(e: LExprView, count: nat) -> LExprView
    decreases e, 0nat,
{
    match e {
        LExprView::LamOne(arg, body) => LExprView::LamOneOne(
            arg,
            Box::new(
                if body.len() == 0 {
                    LExprView::LamOneOne(arg, Box::new(void_view()))
                } else {
                    chained(
                        single_bodied_back(body, count, body.len()),
                        count + body_demand_back(body, body.len()),
                        body.len(),
                    )
                },
            ),
        ),
        LExprView::AppOne(f, a) => LExprView::AppOne(
            Box::new(single_bodied(*f, count)),
            Box::new(single_bodied(*a, count + body_demand(*f))),
        ),
        _ => e,
    }
}

/// The last `k` of `es`, from the last on, each brought to single bodies
/// in turn.
pub open spec fn single_bodied_back(es: Seq<LExprView>, count: nat, k: nat) -> Seq<LExprView>
    decreases es, k,
{
    if k == 0 || k > es.len() {
        Seq::empty()
    } else {
        single_bodied_back(es, count, (k - 1) as nat).push(
            single_bodied(es[es.len() - k], count + body_demand_back(es, (k - 1) as nat)),
        )
    }
}

proof fn lemma_body_demand_grows(es: Seq<LExprView>, k: nat, n: nat)
    requires
        k <= n <= es.len(),
    ensures
        body_demand_back(es, k) <= body_demand_back(es, n),
    decreases n,
{
    if k < n {
        lemma_body_demand_grows(es, k, (n - 1) as nat);
    }
}

#[verifier::loop_isolation(false)]
fn expand_body_back(es: Vec<LExpr>, ctx: &mut TransformContext) -> (res: Vec<LExpr>)
    ensures
        final(ctx).count() == advance(
            old(ctx).count(),
            body_demand_back(lexprs_view(es@), es@.len()),
        ),
        res@.len() == es@.len(),
        old(ctx).has_room(body_demand_back(lexprs_view(es@), es@.len())) ==> lexprs_view(res@)
            == single_bodied_back(lexprs_view(es@), old(ctx).count(), es@.len()),
    decreases es,
{
    let ghost views = lexprs_view(es@);
    let ghost c0 = ctx.count();
    let ghost total = body_demand_back(views, views.len());
    proof {
        ctx.lemma_count_in_range();
    }
    let n = es.len();
    let mut rest = es;
    let mut out: Vec<LExpr> = Vec::new();
    assert(lexprs_view(out@) =~= single_bodied_back(views, c0, 0));
    while rest.len() > 0
        invariant
            rest@.len() + out@.len() == n,
            n == es@.len(),
            forall|i: int| 0 <= i < rest@.len() ==> rest@[i] == es@[i],
            ctx.count() == advance(c0, body_demand_back(views, out@.len())),
            c0 + total < u64::MAX ==> lexprs_view(out@) == single_bodied_back(
                views,
                c0,
                out@.len(),
            ),
        decreases rest@.len(),
    {
        let ghost k = out@.len() as int;
        let ghost before = lexprs_view(out@);
        proof {
            lemma_body_demand_grows(views, (k + 1) as nat, n as nat);
        }
        let e = rest.pop().unwrap();
        assert(e == es@[n - 1 - k]);
        assert(e@ == views[n - (k + 1)]);
        let r = expand_body(e, ctx);
        out.push(r);
        assert(lexprs_view(out@) =~= before.push(r@));
    }
    out
}

/// Chains the expressions `done`: see [`chained`].
fn chain(done: Vec<LExpr>, ctx: &mut TransformContext) -> (res: LExpr)
    requires
        done@.len() > 0,
    ensures
        final(ctx).count() == advance(old(ctx).count(), (done@.len() - 1) as nat),
        old(ctx).has_room((done@.len() - 1) as nat) ==> res@ == chained(
            lexprs_view(done@),
            old(ctx).count(),
            done@.len(),
        ),
{
    let ghost views = lexprs_view(done@);
    let ghost c0 = ctx.count();
    proof {
        ctx.lemma_count_in_range();
    }
    let n = done.len();
    let mut rest = reversed(done);
    let first = rest.pop().unwrap();
    assert(first == done@[0]);
    assert(first@ == views[0]);
    let mut acc = first;
    let mut k: usize = 1;
    while rest.len() > 0
        invariant
            1 <= k <= n,
            rest@.len() + k == n,
            n == done@.len(),
            views == lexprs_view(done@),
            forall|i: int| 0 <= i < rest@.len() ==> rest@[i] == done@[n - 1 - i],
            ctx.count() == advance(c0, (k - 1) as nat),
            c0 + (n - 1) < u64::MAX ==> acc@ == chained(views, c0, k as nat),
        decreases rest@.len(),
    {
        let e = rest.pop().unwrap();
        assert(e == done@[k as int]);
        assert(e@ == views[k as int]);
        let name = ctx.gen_ident("lam_expand");
        acc = app_one(lam_one_one(name, acc), e);
        k += 1;
    }
    acc
}

/// Brings every body of several expressions to one expression: see
/// [`single_bodied`].
fn expand_body(expr: LExpr, ctx: &mut TransformContext) -> (res: LExpr)
    ensures
        final(ctx).count() == advance(old(ctx).count(), body_demand(expr@)),
        old(ctx).has_room(body_demand(expr@)) ==> res@ == single_bodied(expr@, old(ctx).count()),
    decreases expr,
{
    proof {
        ctx.lemma_count_in_range();
    }
    match expr {
        LExpr::LamOne(arg, body) => {
            assert(expr@->LamOne_1 =~= lexprs_view(body@));
            let count = body.len();
            let done = expand_body_back(body, ctx);
            let inner = if count == 0 {
                lam_one_one(arg.clone(), void_obj())
            } else {
                chain(done, ctx)
            };
            lam_one_one(arg, inner)
        },
        LExpr::AppOne(f, a) => {
            let f2 = expand_body(*f, ctx);
            let a2 = expand_body(*a, ctx);
            app_one(f2, a2)
        },
        other => other,
    }
}

/// Whether `e` is ready for the continuation-passing translation: it
/// holds no function or call of several parameters or arguments, and no
/// body of several expressions.
pub open spec fn is_single(e: LExprView) -> bool
    decreases e,
{
    match e {
        LExprView::Lam(_, _) => false,
        LExprView::App(_, _) => false,
        LExprView::LamOne(_, _) => false,
        LExprView::LamOneOne(_, body) => is_single(*body),
        LExprView::AppOne(f, a) => is_single(*f) && is_single(*a),
        _ => true,
    }
}

/// The number of names that [`cps_transform`] draws for `e`.
pub open spec fn cps_demand(e: LExprView) -> nat
    decreases e, 0nat,
{
    match e {
        LExprView::LamOneOne(_, body) => 2 + cps_cont_demand(*body),
        _ => 0,
    }
}

/// The number of names that [`cps_transform_cont`] draws for `e`.
pub open spec fn cps_cont_demand(e: LExprView) -> nat
    decreases e, 1nat,
{
    match e {
        LExprView::AppOne(f, a) => 3 + cps_cont_demand(*a) + cps_cont_demand(*f),
        LExprView::AppOneCont(_, _, _) => 0,
        LExprView::Lit(_) => 0,
        _ => cps_demand(e),
    }
}

/// The continuation that hands what it receives, under the name `rv`, to
/// `cont`.
pub open spec fn forward_to(cont: LExprView, rv: Seq<char>) -> LExprView {
    LExprView::LamOneOne(
        rv,
        Box::new(LExprView::AppOne(Box::new(cont), Box::new(LExprView::Var(rv)))),
    )
}

/// The expression `e` in continuation-passing form: a function gets a
/// continuation parameter, and its body hands its result to it. The names
/// are drawn from `count` on.
pub open spec fn cps_form(e: LExprView, count: nat) -> LExprView
    decreases e, 0nat,
{
    match e {
        LExprView::LamOneOne(arg, body) => {
            let cont_var = anon_ident("cont_var"@, count);
            let rv_var = anon_ident("rv_var"@, count + 1);
            LExprView::LamOneOneCont(
                arg,
                cont_var,
                Box::new(
                    cps_cont_form(*body, forward_to(LExprView::Var(cont_var), rv_var), count + 2),
                ),
            )
        },
        _ => e,
    }
}

/// The expression `e` in continuation-passing form, its value handed to
/// the continuation `cont`. The names are drawn from `count` on.
pub open spec fn cps_cont_form(e: LExprView, cont: LExprView, count: nat) -> LExprView
    decreases e, 1nat,
{
    match e {
        LExprView::AppOne(f, a) => {
            let operator_var = anon_ident("operator_var"@, count);
            let operand_var = anon_ident("operand_var"@, count + 1);
            let rv_var = anon_ident("rv"@, count + 2);
            let call = LExprView::AppOneCont(
                Box::new(LExprView::Var(operator_var)),
                Box::new(LExprView::Var(operand_var)),
                Box::new(forward_to(cont, rv_var)),
            );
            let inner = cps_cont_form(
                *a,
                LExprView::LamOneOne(operand_var, Box::new(call)),
                count + 3,
            );
            cps_cont_form(
                *f,
                LExprView::LamOneOne(operator_var, Box::new(inner)),
                count + 3 + cps_cont_demand(*a),
            )
        },
        LExprView::AppOneCont(_, _, _) => e,
        LExprView::Lit(_) => e,
        _ => LExprView::AppOne(Box::new(cont), Box::new(cps_form(e, count))),
    }
}

fn forward(cont: LExpr, rv: String) -> (res: LExpr)
    ensures
        res@ == forward_to(cont@, rv@),
{
    let var = var_of(rv.clone());
    lam_one_one(rv, app_one(cont, var))
}

fn app_one_cont(f: LExpr, a: LExpr, k: LExpr) -> (res: LExpr)
    ensures
        res@ == LExprView::AppOneCont(Box::new(f@), Box::new(a@), Box::new(k@)),
{
    LExpr::AppOneCont(Box::new(f), Box::new(a), Box::new(k))
}

/// Translates `expr` so that its value goes to the continuation `cont`:
/// see [`cps_cont_form`].
fn cps_cont(expr: LExpr, cont: LExpr, ctx: &mut TransformContext) -> (res: LExpr)
    requires
        is_single(expr@),
    ensures
        final(ctx).count() == advance(old(ctx).count(), cps_cont_demand(expr@)),
        old(ctx).has_room(cps_cont_demand(expr@)) ==> res@ == cps_cont_form(
            expr@,
            cont@,
            old(ctx).count(),
        ),
    decreases expr, 1nat,
{
    proof {
        ctx.lemma_count_in_range();
    }
    match expr {
        LExpr::AppOne(operator, operand) => {
            let operator_var = ctx.gen_ident("operator_var");
            let operand_var = ctx.gen_ident("operand_var");
            let rv_var = ctx.gen_ident("rv");
            let new_cont = forward(cont, rv_var);
            let call = app_one_cont(
                var_of(operator_var.clone()),
                var_of(operand_var.clone()),
                new_cont,
            );
            let inner = cps_cont(*operand, lam_one_one(operand_var, call), ctx);
            cps_cont(*operator, lam_one_one(operator_var, inner), ctx)
        },
        LExpr::AppOneCont(f, a, k) => LExpr::AppOneCont(f, a, k),
        LExpr::Lit(l) => LExpr::Lit(l),
        other => {
            let value = cps(other, ctx);
            app_one(cont, value)
        },
    }
}

/// Translates `expr` to continuation-passing form: see [`cps_form`].
fn cps(expr: LExpr, ctx: &mut TransformContext) -> (res: LExpr)
    requires
        is_single(expr@),
    ensures
        final(ctx).count() == advance(old(ctx).count(), cps_demand(expr@)),
        old(ctx).has_room(cps_demand(expr@)) ==> res@ == cps_form(expr@, old(ctx).count()),
    decreases expr, 0nat,
{
    proof {
        ctx.lemma_count_in_range();
    }
    match expr {
        LExpr::LamOneOne(arg, body) => {
            let cont_var = ctx.gen_ident("cont_var");
            let rv_var = ctx.gen_ident("rv_var");
            let cont = forward(var_of(cont_var.clone()), rv_var);
            let inner = cps_cont(*body, cont, ctx);
            LExpr::LamOneOneCont(arg, cont_var, Box::new(inner))
        },
        other => other,
    }
}


/// What a step that draws `demand` names gives, for a supply that stood at
/// `before` and stands at `after`: the expression `model`, or the report
/// that the supply has run out where it had no room for the names.
pub open spec fn stepped(
    res: Result<LExpr, crate::error::CompileError>,
    model: LExprView,
    demand: nat,
    before: nat,
    after: nat,
) -> bool {
    if before + demand < u64::MAX {
        res matches Ok(e) && e@ == model && after == before + demand
    } else {
        res matches Err(x) && x@ == crate::error::CompileErrorView::NamesExhausted
    }
}

fn checked(e: LExpr, ctx: &TransformContext) -> (res: Result<LExpr, crate::error::CompileError>)
    ensures
        ctx.is_exhausted() ==> (res matches Err(x) && x@
            == crate::error::CompileErrorView::NamesExhausted),
        !ctx.is_exhausted() ==> res == Ok::<LExpr, crate::error::CompileError>(e),
{
    if ctx.exhausted() {
        Err(crate::error::CompileError::NamesExhausted)
    } else {
        Ok(e)
    }
}

/// Brings every function to one parameter and every call to one argument:
/// see [`expanded`].
pub fn expand_lam_app(expr: LExpr, ctx: &mut TransformContext) -> (res: Result<
    LExpr,
    crate::error::CompileError,
>)
    requires
        is_source(expr@),
    ensures
        stepped(
            res,
            expanded(expr@, old(ctx).count()),
            expand_demand(expr@),
            old(ctx).count(),
            final(ctx).count(),
        ),
{
    proof {
        ctx.lemma_count_in_range();
    }
    let e = expand_app(expr, ctx);
    checked(e, ctx)
}

/// Brings every body of several expressions to one expression: see
/// [`single_bodied`].
pub fn expand_lam_body(expr: LExpr, ctx: &mut TransformContext) -> (res: Result<
    LExpr,
    crate::error::CompileError,
>)
    ensures
        stepped(
            res,
            single_bodied(expr@, old(ctx).count()),
            body_demand(expr@),
            old(ctx).count(),
            final(ctx).count(),
        ),
{
    proof {
        ctx.lemma_count_in_range();
    }
    let e = expand_body(expr, ctx);
    checked(e, ctx)
}

/// Translates `expr` so that its value goes to the continuation `cont`:
/// see [`cps_cont_form`].
pub fn cps_transform_cont(expr: LExpr, cont: LExpr, ctx: &mut TransformContext) -> (res: Result<
    LExpr,
    crate::error::CompileError,
>)
    requires
        is_single(expr@),
    ensures
        stepped(
            res,
            cps_cont_form(expr@, cont@, old(ctx).count()),
            cps_cont_demand(expr@),
            old(ctx).count(),
            final(ctx).count(),
        ),
{
    proof {
        ctx.lemma_count_in_range();
    }
    let e = cps_cont(expr, cont, ctx);
    checked(e, ctx)
}

/// Translates `expr` to continuation-passing form: see [`cps_form`].
pub fn cps_transform(expr: LExpr, ctx: &mut TransformContext) -> (res: Result<
    LExpr,
    crate::error::CompileError,
>)
    requires
        is_single(expr@),
    ensures
        stepped(
            res,
            cps_form(expr@, old(ctx).count()),
            cps_demand(expr@),
            old(ctx).count(),
            final(ctx).count(),
        ),
{
    proof {
        ctx.lemma_count_in_range();
    }
    let e = cps(expr, ctx);
    checked(e, ctx)
}

} // verus!
