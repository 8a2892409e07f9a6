use crate::base_expr::{BExpr, BExprBody, BExprBodyExpr, BExprBodyExprView, BExprBodyView, BExprView};
use crate::error::{CompileError, CompileErrorView};
use crate::expr::{Expr, ExprView};
use crate::literals::{Literal, LiteralView};
use crate::names::{FreeVar, FreeVarView};
use crate::transform::{advance, TransformContext};
use vstd::prelude::*;

verus! {

/// The spelling of a binder that nothing refers to.
pub open spec fn unused_name() -> Seq<char> {
    "_unused"@
}

/// The fresh variable drawn at `count` for the spelling `name`.
pub open spec fn var_at(name: Seq<char>, count: nat) -> FreeVarView {
    FreeVarView { name, id: count }
}

/// The names and variables of a scope, innermost binding last.
pub open spec fn scope_view(env: Seq<(String, FreeVar)>) -> Seq<(Seq<char>, FreeVarView)> {
    Seq::new(env.len(), |i: int| (env[i].0@, env[i].1@))
}

/// The names of a scope, innermost binding last.
pub open spec fn names_of(env: Seq<(Seq<char>, FreeVarView)>) -> Seq<Seq<char>> {
    Seq::new(env.len(), |i: int| env[i].0)
}

/// The variable that `name` refers to among the first `n` bindings of
/// `env`: that of the innermost binding of the name.
pub open spec fn lookup(env: Seq<(Seq<char>, FreeVarView)>, name: Seq<char>, n: nat) -> Option<
    FreeVarView,
>
    decreases n,
{
    if n == 0 || n > env.len() {
        None
    } else if env[n - 1].0 == name {
        Some(env[n - 1].1)
    } else {
        lookup(env, name, (n - 1) as nat)
    }
}

/// The variable that `name` refers to in `env`.
pub open spec fn resolve(env: Seq<(Seq<char>, FreeVarView)>, name: Seq<char>) -> FreeVarView {
    match lookup(env, name, env.len()) {
        Some(v) => v,
        None => var_at(name, 0),
    }
}

/// The bindings of the parameters `params` to the fresh variables drawn
/// from `count` on, one for each parameter in order.
pub open spec fn param_bindings(params: Seq<Seq<char>>, count: nat) -> Seq<
    (Seq<char>, FreeVarView),
> {
    Seq::new(params.len(), |i: int| (params[i], var_at(params[i], (count + i) as nat)))
}

/// Whether `b` is an expression of the core language: without `let` and
/// without definitions.
pub open spec fn is_core(b: BExprView) -> bool
    decreases b, 0nat,
{
    match b {
        BExprView::Var(_) => true,
        BExprView::Lit(_) => true,
        BExprView::BuiltinIdent(_) => true,
        BExprView::If(c, t, e) => is_core(*c) && is_core(*t) && is_core(*e),
        BExprView::Assign(_, e) => is_core(*e),
        BExprView::Let(_, _) => false,
        BExprView::Lam(_, body) => body_is_core(body),
        BExprView::App(f, args) => is_core(*f) && all_core(args, args.len()),
    }
}

/// Whether the first `n` of `es` are expressions of the core language.
pub open spec fn all_core(es: Seq<BExprView>, n: nat) -> bool
    decreases es, n,
{
    if n == 0 || n > es.len() {
        true
    } else {
        all_core(es, (n - 1) as nat) && is_core(es[n - 1])
    }
}

/// Whether `body` holds expressions of the core language only.
pub open spec fn body_is_core(body: BExprBodyView) -> bool
    decreases body, 0nat,
{
    items_core(body.items, body.items.len()) && is_core(*body.last)
}

/// Whether the first `n` of `items` are expressions of the core language.
pub open spec fn items_core(items: Seq<BExprBodyExprView>, n: nat) -> bool
    decreases items, n,
{
    if n == 0 || n > items.len() {
        true
    } else {
        items_core(items, (n - 1) as nat) && match items[n - 1] {
            BExprBodyExprView::Expr(e) => is_core(e),
            BExprBodyExprView::Def(_, _) => false,
        }
    }
}

/// The number of fresh variables that resolving the names of `b` draws.
pub open spec fn bind_demand(b: BExprView) -> nat
    decreases b, 0nat,
{
    match b {
        BExprView::Var(_) => 0,
        BExprView::Lit(_) => 0,
        BExprView::BuiltinIdent(_) => 0,
        BExprView::If(c, t, e) => bind_demand(*c) + bind_demand(*t) + bind_demand(*e),
        BExprView::Assign(_, e) => bind_demand(*e),
        BExprView::Let(_, _) => 0,
        BExprView::Lam(params, body) => params.len() + body_demand(body) + if params.len() == 0 {
            1nat
        } else {
            0nat
        },
        BExprView::App(f, args) => bind_demand(*f) + demand_all(args, args.len()),
    }
}

/// The number of fresh variables that the first `n` of `es` draw.
pub open spec fn demand_all(es: Seq<BExprView>, n: nat) -> nat
    decreases es, n,
{
    if n == 0 || n > es.len() {
        0
    } else {
        demand_all(es, (n - 1) as nat) + bind_demand(es[n - 1])
    }
}

/// The number of fresh variables that `body` draws.
pub open spec fn body_demand(body: BExprBodyView) -> nat
    decreases body, 0nat,
{
    if body.items.len() == 0 {
        bind_demand(*body.last)
    } else {
        items_demand(body.items, body.items.len()) + 1 + bind_demand(*body.last)
    }
}

/// The number of fresh variables that the first `n` of `items` draw: those
/// of each expression, and one for every expression after the first.
pub open spec fn items_demand(items: Seq<BExprBodyExprView>, n: nat) -> nat
    decreases items, n,
{
    if n == 0 || n > items.len() {
        0
    } else {
        let own = match items[n - 1] {
            BExprBodyExprView::Expr(e) => bind_demand(e),
            BExprBodyExprView::Def(_, e) => bind_demand(e),
        };
        if n == 1 {
            own
        } else {
            items_demand(items, (n - 1) as nat) + 1 + own
        }
    }
}

/// The first name in `b`, in evaluation order, that is used where no
/// binder of `names` or of `b` itself is in scope.
pub open spec fn first_unbound(b: BExprView, names: Seq<Seq<char>>) -> Option<Seq<char>>
    decreases b, 0nat,
{
    match b {
        BExprView::Var(n) => if names.contains(n) {
            None
        } else {
            Some(n)
        },
        BExprView::Lit(_) => None,
        BExprView::BuiltinIdent(_) => None,
        BExprView::If(c, t, e) => match first_unbound(*c, names) {
            Some(x) => Some(x),
            None => match first_unbound(*t, names) {
                Some(x) => Some(x),
                None => first_unbound(*e, names),
            },
        },
        BExprView::Assign(n, e) => if names.contains(n) {
            first_unbound(*e, names)
        } else {
            Some(n)
        },
        BExprView::Let(_, _) => None,
        BExprView::Lam(params, body) => body_unbound(body, names + params),
        BExprView::App(f, args) => match first_unbound(*f, names) {
            Some(x) => Some(x),
            None => unbound_all(args, names, args.len()),
        },
    }
}

/// The first unbound name among the first `n` of `es`.
pub open spec fn unbound_all(es: Seq<BExprView>, names: Seq<Seq<char>>, n: nat) -> Option<
    Seq<char>,
>
    decreases es, n,
{
    if n == 0 || n > es.len() {
        None
    } else {
        match unbound_all(es, names, (n - 1) as nat) {
            Some(x) => Some(x),
            None => first_unbound(es[n - 1], names),
        }
    }
}

/// The first unbound name in `body`.
pub open spec fn body_unbound(body: BExprBodyView, names: Seq<Seq<char>>) -> Option<Seq<char>>
    decreases body, 0nat,
{
    match items_unbound(body.items, names, body.items.len()) {
        Some(x) => Some(x),
        None => first_unbound(*body.last, names),
    }
}

/// The first unbound name among the first `n` of `items`.
pub open spec fn items_unbound(
    items: Seq<BExprBodyExprView>,
    names: Seq<Seq<char>>,
    n: nat,
) -> Option<Seq<char>>
    decreases items, n,
{
    if n == 0 || n > items.len() {
        None
    } else {
        match items_unbound(items, names, (n - 1) as nat) {
            Some(x) => Some(x),
            None => match items[n - 1] {
                BExprBodyExprView::Expr(e) => first_unbound(e, names),
                BExprBodyExprView::Def(_, e) => first_unbound(e, names),
            },
        }
    }
}

/// The expression that evaluates `first`, drops its value, and then
/// evaluates `then`: the call of a function whose parameter `unused`
/// nothing reads, whose body is `then`, and whose argument is `first`.
pub open spec fn sequenced(first: ExprView, unused: FreeVarView, then: ExprView) -> ExprView {
    ExprView::App(Box::new(ExprView::Lam(unused, Box::new(then))), Box::new(first))
}

/// The function of the parameters `vars[from..]`, one nested function for
/// each, around `body`.
pub open spec fn curried(vars: Seq<FreeVarView>, body: ExprView, from: nat) -> ExprView
    decreases vars.len() - from,
{
    if from >= vars.len() {
        body
    } else {
        ExprView::Lam(vars[from as int], Box::new(curried(vars, body, from + 1)))
    }
}

/// The variables of the bindings `bs`, in order.
pub open spec fn vars_of(bs: Seq<(Seq<char>, FreeVarView)>) -> Seq<FreeVarView> {
    Seq::new(bs.len(), |i: int| bs[i].1)
}

/// The core expression `b` with its names resolved in the scope `env`,
/// the fresh variables drawn from `count` on.
///
/// A function of several parameters becomes nested functions of one
/// parameter each, and one without parameters gets a parameter that
/// nothing reads. A call with several arguments becomes nested calls with
/// one argument each, and one without arguments gets the argument `void`.
/// A body of several expressions becomes their evaluation in order.
pub open spec fn bind_tree(b: BExprView, env: Seq<(Seq<char>, FreeVarView)>, count: nat) -> ExprView
    decreases b, 0nat,
{
    match b {
        BExprView::Var(n) => ExprView::Var(resolve(env, n)),
        BExprView::Lit(l) => ExprView::Lit(l),
        BExprView::BuiltinIdent(n) => ExprView::BuiltinIdent(n),
        BExprView::If(c, t, e) => ExprView::If(
            Box::new(bind_tree(*c, env, count)),
            Box::new(bind_tree(*t, env, count + bind_demand(*c))),
            Box::new(bind_tree(*e, env, count + bind_demand(*c) + bind_demand(*t))),
        ),
        BExprView::Assign(n, e) => ExprView::Assign(
            resolve(env, n),
            Box::new(bind_tree(*e, env, count)),
        ),
        BExprView::Let(_, _) => ExprView::Lit(LiteralView::Void),
        BExprView::Lam(params, body) => {
            let inner = body_tree(
                body,
                env + param_bindings(params, count),
                count + params.len(),
            );
            if params.len() == 0 {
                ExprView::Lam(var_at(unused_name(), count + body_demand(body)), Box::new(inner))
            } else {
                curried(vars_of(param_bindings(params, count)), inner, 0)
            }
        },
        BExprView::App(f, args) => if args.len() == 0 {
            ExprView::App(
                Box::new(bind_tree(*f, env, count)),
                Box::new(ExprView::Lit(LiteralView::Void)),
            )
        } else {
            applied(bind_tree(*f, env, count), args, env, count + bind_demand(*f), args.len())
        },
    }
}

/// The call of `head` with the first `n` of `args`, one nested call for
/// each argument; the arguments draw their fresh variables from `count` on.
pub open spec fn applied(
    head: ExprView,
    args: Seq<BExprView>,
    env: Seq<(Seq<char>, FreeVarView)>,
    count: nat,
    n: nat,
) -> ExprView
    decreases args, n,
{
    if n == 0 || n > args.len() {
        head
    } else {
        ExprView::App(
            Box::new(applied(head, args, env, count, (n - 1) as nat)),
            Box::new(bind_tree(args[n - 1], env, count + demand_all(args, (n - 1) as nat))),
        )
    }
}

/// The body `body` resolved in the scope `env`: its expressions in order,
/// the value of the last one being the value of the whole.
pub open spec fn body_tree(
    body: BExprBodyView,
    env: Seq<(Seq<char>, FreeVarView)>,
    count: nat,
) -> ExprView
    decreases body, 0nat,
{
    if body.items.len() == 0 {
        bind_tree(*body.last, env, count)
    } else {
        let before = items_demand(body.items, body.items.len());
        sequenced(
            items_tree(body.items, env, count, body.items.len()),
            var_at(unused_name(), count + before),
            bind_tree(*body.last, env, count + before + 1),
        )
    }
}

/// The first `n` of `items` resolved and evaluated in order.
pub open spec fn items_tree(
    items: Seq<BExprBodyExprView>,
    env: Seq<(Seq<char>, FreeVarView)>,
    count: nat,
    n: nat,
) -> ExprView
    decreases items, n,
{
    if n == 0 || n > items.len() {
        arbitrary()
    } else if n == 1 {
        match items[0] {
            BExprBodyExprView::Expr(e) => bind_tree(e, env, count),
            BExprBodyExprView::Def(_, e) => bind_tree(e, env, count),
        }
    } else {
        let before = items_demand(items, (n - 1) as nat);
        sequenced(
            items_tree(items, env, count, (n - 1) as nat),
            var_at(unused_name(), count + before),
            match items[n - 1] {
                BExprBodyExprView::Expr(e) => bind_tree(e, env, count + before + 1),
                BExprBodyExprView::Def(_, e) => bind_tree(e, env, count + before + 1),
            },
        )
    }
}


/// What resolving `b` in the scope `env` gives, for a supply of fresh
/// names that stood at `before` and stands at `after`.
///
/// It fails exactly when a name is used out of scope, with the first such
/// name. Otherwise the supply has moved on by what `b` draws, and, where
/// it had room for that, the result is [`bind_tree`].
pub open spec fn bound_as(
    res: Result<Expr, CompileError>,
    b: BExprView,
    env: Seq<(Seq<char>, FreeVarView)>,
    before: nat,
    after: nat,
) -> bool {
    match res {
        Ok(e) => {
            &&& first_unbound(b, names_of(env)) is None
            &&& after == advance(before, bind_demand(b))
            &&& before + bind_demand(b) < u64::MAX ==> e@ == bind_tree(b, env, before)
        },
        Err(x) => match first_unbound(b, names_of(env)) {
            Some(n) => x@ == CompileErrorView::UnboundIdentifier(n),
            None => false,
        },
    }
}

/// [`bound_as`] for a body.
pub open spec fn body_bound_as(
    res: Result<Expr, CompileError>,
    body: BExprBodyView,
    env: Seq<(Seq<char>, FreeVarView)>,
    before: nat,
    after: nat,
) -> bool {
    match res {
        Ok(e) => {
            &&& body_unbound(body, names_of(env)) is None
            &&& after == advance(before, body_demand(body))
            &&& before + body_demand(body) < u64::MAX ==> e@ == body_tree(body, env, before)
        },
        Err(x) => match body_unbound(body, names_of(env)) {
            Some(n) => x@ == CompileErrorView::UnboundIdentifier(n),
            None => false,
        },
    }
}

pub(crate) proof fn lemma_lookup_known(env: Seq<(Seq<char>, FreeVarView)>, name: Seq<char>, n: nat)
    requires
        n <= env.len(),
    ensures
        lookup(env, name, n) is Some <==> exists|i: int| 0 <= i < n && env[i].0 == name,
    decreases n,
{
    if n > 0 {
        lemma_lookup_known(env, name, (n - 1) as nat);
        if env[n - 1].0 == name {
        } else {
            if exists|i: int| 0 <= i < n && env[i].0 == name {
                let i = choose|i: int| 0 <= i < n && env[i].0 == name;
                assert(0 <= i < n - 1 && env[i].0 == name);
            }
        }
    }
}

pub(crate) proof fn lemma_resolve_known(env: Seq<(Seq<char>, FreeVarView)>, name: Seq<char>)
    ensures
        lookup(env, name, env.len()) is Some <==> names_of(env).contains(name),
{
    lemma_lookup_known(env, name, env.len());
    let names = names_of(env);
    if names.contains(name) {
        let i = choose|i: int| 0 <= i < names.len() && names[i] == name;
        assert(env[i].0 == name);
    }
    if exists|i: int| 0 <= i < env.len() && env[i].0 == name {
        let i = choose|i: int| 0 <= i < env.len() && env[i].0 == name;
        assert(names[i] == name);
    }
}

proof fn lemma_all_core_at(es: Seq<BExprView>, n: nat, i: int)
    requires
        all_core(es, n),
        0 <= i < n <= es.len(),
    ensures
        is_core(es[i]),
    decreases n,
{
    if i < n - 1 {
        lemma_all_core_at(es, (n - 1) as nat, i);
    }
}

proof fn lemma_items_core_at(items: Seq<BExprBodyExprView>, n: nat, i: int)
    requires
        items_core(items, n),
        0 <= i < n <= items.len(),
    ensures
        items[i] is Expr,
        is_core(items[i]->Expr_0),
    decreases n,
{
    if i < n - 1 {
        lemma_items_core_at(items, (n - 1) as nat, i);
    }
}

proof fn lemma_demand_all_grows(es: Seq<BExprView>, k: nat, n: nat)
    requires
        k <= n <= es.len(),
    ensures
        demand_all(es, k) <= demand_all(es, n),
    decreases n,
{
    if k < n {
        lemma_demand_all_grows(es, k, (n - 1) as nat);
    }
}

proof fn lemma_items_demand_grows(items: Seq<BExprBodyExprView>, k: nat, n: nat)
    requires
        k <= n <= items.len(),
    ensures
        items_demand(items, k) <= items_demand(items, n),
    decreases n,
{
    if k < n {
        lemma_items_demand_grows(items, k, (n - 1) as nat);
    }
}

proof fn lemma_unbound_all_stays(es: Seq<BExprView>, names: Seq<Seq<char>>, k: nat, n: nat)
    requires
        k <= n <= es.len(),
        unbound_all(es, names, k) is Some,
    ensures
        unbound_all(es, names, n) == unbound_all(es, names, k),
    decreases n,
{
    if k < n {
        lemma_unbound_all_stays(es, names, k, (n - 1) as nat);
    }
}

proof fn lemma_items_unbound_stays(
    items: Seq<BExprBodyExprView>,
    names: Seq<Seq<char>>,
    k: nat,
    n: nat,
)
    requires
        k <= n <= items.len(),
        items_unbound(items, names, k) is Some,
    ensures
        items_unbound(items, names, n) == items_unbound(items, names, k),
    decreases n,
{
    if k < n {
        lemma_items_unbound_stays(items, names, k, (n - 1) as nat);
    }
}

pub(crate) proof fn lemma_curried_from(vars: Seq<FreeVarView>, body: ExprView, from: nat)
    requires
        from < vars.len(),
    ensures
        curried(vars, body, from) == ExprView::Lam(
            vars[from as int],
            Box::new(curried(vars, body, from + 1)),
        ),
{
}

/// The expression that evaluates `first`, drops its value, and then
/// evaluates `then`.
fn sequence(first: Expr, unused: FreeVar, then: Expr) -> (res: Expr)
    ensures
        res@ == sequenced(first@, unused@, then@),
{
    let lam = Expr::Lam(unused, Box::new(then));
    assert(lam@ == ExprView::Lam(unused@, Box::new(then@)));
    Expr::App(Box::new(lam), Box::new(first))
}

/// The call of `head` with the argument `void`.
fn call_with_void(head: Expr) -> (res: Expr)
    ensures
        res@ == ExprView::App(Box::new(head@), Box::new(ExprView::Lit(LiteralView::Void))),
{
    let void = Expr::Lit(Literal::Void);
    assert(void@ == ExprView::Lit(LiteralView::Void));
    Expr::App(Box::new(head), Box::new(void))
}

/// The variable that `name` refers to in `env`, if any.
fn find(env: &Vec<(String, FreeVar)>, name: &String) -> (res: Option<FreeVar>)
    ensures
        res is Some <==> names_of(scope_view(env@)).contains(name@),
        res matches Some(v) ==> v@ == resolve(scope_view(env@), name@),
{
    let ghost sv = scope_view(env@);
    proof {
        lemma_resolve_known(sv, name@);
    }
    let mut i = env.len();
    while i > 0
        invariant
            i <= env@.len(),
            sv == scope_view(env@),
            lookup(sv, name@, env@.len() as nat) is Some <==> names_of(sv).contains(name@),
            lookup(sv, name@, env@.len() as nat) == lookup(sv, name@, i as nat),
        decreases i,
    {
        i -= 1;
        if env[i].0 == *name {
            return Some(env[i].1.clone());
        }
    }
    None
}

/// Binds each of `params` to a fresh variable, innermost last, on top of
/// the scope `env`.
fn push_params(params: &Vec<String>, env: &mut Vec<(String, FreeVar)>, ctx: &mut TransformContext)
    ensures
        final(ctx).count() == advance(old(ctx).count(), params@.len()),
        final(env)@.len() == old(env)@.len() + params@.len(),
        forall|j: int| 0 <= j < old(env)@.len() ==> final(env)@[j] == old(env)@[j],
        names_of(scope_view(final(env)@)) == names_of(scope_view(old(env)@))
            + crate::base_expr::names_view(params@),
        old(ctx).count() + params@.len() < u64::MAX ==> scope_view(final(env)@) == scope_view(
            old(env)@,
        ) + param_bindings(crate::base_expr::names_view(params@), old(ctx).count()),
{
    let ghost c0 = ctx.count();
    let ghost pviews = crate::base_expr::names_view(params@);
    let ghost pb = param_bindings(pviews, c0);
    let ghost base = env@.len();
    proof {
        ctx.lemma_count_in_range();
    }
    let count = params.len();
    let mut i: usize = 0;
    while i < count
        invariant
            i <= count,
            count == params@.len(),
            pviews == crate::base_expr::names_view(params@),
            pb == param_bindings(pviews, c0),
            env@.len() == base + i,
            base == old(env)@.len(),
            forall|j: int| 0 <= j < base ==> env@[j] == old(env)@[j],
            ctx.count() == advance(c0, i as nat),
            forall|j: int| base <= j < base + i ==> env@[j].0@ == pviews[j - base],
            c0 + count < u64::MAX ==> forall|j: int|
                base <= j < base + i ==> env@[j].1@ == pb[j - base].1,
        decreases count - i,
    {
        let v = ctx.fresh_var(params[i].as_str());
        env.push((params[i].clone(), v));
        i += 1;
    }
    assert(names_of(scope_view(env@)) =~= names_of(scope_view(old(env)@)) + pviews);
    proof {
        if c0 + count < u64::MAX {
            assert(scope_view(env@) =~= scope_view(old(env)@) + pb);
        }
    }
}

/// Wraps `inner` in one function for each variable of the scope `env`
/// from position `base` on, the outermost for the variable at `base`, and
/// takes those variables out of the scope.
fn wrap_params(env: &mut Vec<(String, FreeVar)>, base: usize, inner: Expr) -> (res: Expr)
    requires
        base <= old(env)@.len(),
    ensures
        final(env)@ == old(env)@.subrange(0, base as int),
        res@ == curried(
            vars_of(scope_view(old(env)@).subrange(base as int, old(env)@.len() as int)),
            inner@,
            0,
        ),
{
    let ghost vars = vars_of(scope_view(env@).subrange(base as int, env@.len() as int));
    let ghost inner_view = inner@;
    let mut acc = inner;
    let mut j: usize = env.len();
    while j > base
        invariant
            base <= j <= env@.len(),
            env@ == old(env)@,
            vars == vars_of(scope_view(env@).subrange(base as int, env@.len() as int)),
            acc@ == curried(vars, inner_view, (j - base) as nat),
        decreases j,
    {
        j -= 1;
        proof {
            lemma_curried_from(vars, inner_view, (j - base) as nat);
            assert(vars[j - base] == env@[j as int].1@);
        }
        acc = Expr::Lam(env[j].1.clone(), Box::new(acc));
    }
    env.truncate(base);
    acc
}

/// Applies `head` to each of `args` in turn: see [`applied`].
#[verifier::loop_isolation(false)]
fn bind_args(
    args: &Vec<BExpr>,
    head: Expr,
    env: &mut Vec<(String, FreeVar)>,
    ctx: &mut TransformContext,
) -> (res: Result<Expr, CompileError>)
    requires
        all_core(crate::base_expr::bexprs_view(args@), args@.len()),
    ensures
        res is Ok ==> final(env)@ == old(env)@,
        ({
            let views = crate::base_expr::bexprs_view(args@);
            let sv = scope_view(old(env)@);
            let before = old(ctx).count();
            match res {
                Ok(e) => {
                    &&& unbound_all(views, names_of(sv), views.len()) is None
                    &&& final(ctx).count() == advance(before, demand_all(views, views.len()))
                    &&& before + demand_all(views, views.len()) < u64::MAX ==> e@ == applied(
                        head@,
                        views,
                        sv,
                        before,
                        views.len(),
                    )
                },
                Err(x) => match unbound_all(views, names_of(sv), views.len()) {
                    Some(n) => x@ == CompileErrorView::UnboundIdentifier(n),
                    None => false,
                },
            }
        }),
    decreases args,
{
    let ghost views = crate::base_expr::bexprs_view(args@);
    let ghost sv = scope_view(env@);
    let ghost names = names_of(sv);
    let ghost c0 = ctx.count();
    let ghost total = demand_all(views, views.len());
    let ghost head_view = head@;
    proof {
        ctx.lemma_count_in_range();
    }
    let n = args.len();
    let mut acc = head;
    let mut i: usize = 0;
    while i < n
        invariant
            i <= n,
            env@ == old(env)@,
            unbound_all(views, names, i as nat) is None,
            ctx.count() == advance(c0, demand_all(views, i as nat)),
            c0 + total < u64::MAX ==> acc@ == applied(head_view, views, sv, c0, i as nat),
        decreases n - i,
    {
        proof {
            lemma_all_core_at(views, n as nat, i as int);
            lemma_demand_all_grows(views, (i + 1) as nat, n as nat);
        }
        let a = match args[i].resolve(env, ctx) {
            Ok(x) => x,
            Err(x) => {
                proof {
                    lemma_unbound_all_stays(views, names, (i + 1) as nat, n as nat);
                }
                return Err(x);
            },
        };
        acc = Expr::App(Box::new(acc), Box::new(a));
        i += 1;
    }
    Ok(acc)
}

/// Resolves the expression of a body item.
fn bind_item(item: &BExprBodyExpr, env: &mut Vec<(String, FreeVar)>, ctx: &mut TransformContext) -> (res:
    Result<Expr, CompileError>)
    requires
        item@ is Expr,
        is_core(item@->Expr_0),
    ensures
        bound_as(res, item@->Expr_0, scope_view(old(env)@), old(ctx).count(), final(ctx).count()),
        res is Ok ==> final(env)@ == old(env)@,
    decreases item, 0nat,
{
    match item {
        BExprBodyExpr::Expr(e) => e.resolve(env, ctx),
        // A core body holds no definition.
        BExprBodyExpr::Def(_, _) => unreached(),
    }
}

/// Resolves the items of a body and evaluates them in order: see
/// [`items_tree`].
#[verifier::loop_isolation(false)]
fn bind_items(
    items: &Vec<BExprBodyExpr>,
    env: &mut Vec<(String, FreeVar)>,
    ctx: &mut TransformContext,
) -> (res: Result<Expr, CompileError>)
    requires
        items@.len() > 0,
        items_core(crate::base_expr::items_view(items@), items@.len()),
    ensures
        res is Ok ==> final(env)@ == old(env)@,
        ({
            let views = crate::base_expr::items_view(items@);
            let sv = scope_view(old(env)@);
            let before = old(ctx).count();
            match res {
                Ok(e) => {
                    &&& items_unbound(views, names_of(sv), views.len()) is None
                    &&& final(ctx).count() == advance(before, items_demand(views, views.len()))
                    &&& before + items_demand(views, views.len()) < u64::MAX ==> e@
                        == items_tree(views, sv, before, views.len())
                },
                Err(x) => match items_unbound(views, names_of(sv), views.len()) {
                    Some(n) => x@ == CompileErrorView::UnboundIdentifier(n),
                    None => false,
                },
            }
        }),
    decreases items,
{
    let ghost views = crate::base_expr::items_view(items@);
    let ghost sv = scope_view(env@);
    let ghost names = names_of(sv);
    let ghost c0 = ctx.count();
    let ghost total = items_demand(views, views.len());
    let n = items.len();
    proof {
        ctx.lemma_count_in_range();
        lemma_items_core_at(views, n as nat, 0);
        lemma_items_demand_grows(views, 1, n as nat);
        assert(items_unbound(views, names, 0) is None);
        assert(views[0] == items@[0]@);
    }
    let mut acc = match bind_item(&items[0], env, ctx) {
        Ok(x) => x,
        Err(x) => {
            proof {
                lemma_items_unbound_stays(views, names, 1, n as nat);
            }
            return Err(x);
        },
    };
    let mut k: usize = 1;
    while k < n
        invariant
            1 <= k <= n,
            env@ == old(env)@,
            items_unbound(views, names, k as nat) is None,
            ctx.count() == advance(c0, items_demand(views, k as nat)),
            c0 + total < u64::MAX ==> acc@ == items_tree(views, sv, c0, k as nat),
        decreases n - k,
    {
        proof {
            lemma_items_core_at(views, n as nat, k as int);
            lemma_items_demand_grows(views, (k + 1) as nat, n as nat);
            assert(views[k as int] == items@[k as int]@);
        }
        let unused = ctx.fresh_var("_unused");
        let then = match bind_item(&items[k], env, ctx) {
            Ok(x) => x,
            Err(x) => {
                proof {
                    lemma_items_unbound_stays(views, names, (k + 1) as nat, n as nat);
                }
                return Err(x);
            },
        };
        acc = sequence(acc, unused, then);
        k += 1;
    }
    Ok(acc)
}

impl BExprBody {
    /// Resolves the names of this body: see [`body_tree`].
    fn resolve(&self, env: &mut Vec<(String, FreeVar)>, ctx: &mut TransformContext) -> (res: Result<
        Expr,
        CompileError,
    >)
        requires
            body_is_core(self@),
        ensures
            body_bound_as(
                res,
                self@,
                scope_view(old(env)@),
                old(ctx).count(),
                final(ctx).count(),
            ),
            res is Ok ==> final(env)@ == old(env)@,
        decreases self, 0nat,
    {
        let ghost sv = scope_view(env@);
        let ghost names = names_of(sv);
        let ghost c0 = ctx.count();
        let ghost items = crate::base_expr::items_view(self.0@);
        let ghost last_view = (*self.1)@;
        assert(self@.items =~= items);
        assert(self@ == (BExprBodyView { items, last: Box::new(last_view) }));
        proof {
            ctx.lemma_count_in_range();
        }
        if self.0.len() == 0 {
            assert(items_unbound(items, names, 0) is None);
            return (*self.1).resolve(env, ctx);
        }
        let ghost before = items_demand(items, items.len());
        let first = match bind_items(&self.0, env, ctx) {
            Ok(x) => x,
            Err(x) => {
                return Err(x);
            },
        };
        let ghost c1 = ctx.count();
        let unused = ctx.fresh_var("_unused");
        let ghost c2 = ctx.count();
        let last = match (*self.1).resolve(env, ctx) {
            Ok(x) => x,
            Err(x) => {
                return Err(x);
            },
        };
        let ghost first_view = first@;
        let ghost unused_view = unused@;
        let ghost last_result = last@;
        let res = sequence(first, unused, last);
        proof {
            let total = body_demand(self@);
            assert(total == before + 1 + bind_demand(last_view));
            assert(c1 == advance(c0, before));
            assert(c2 == advance(c1, 1));
            assert(ctx.count() == advance(c2, bind_demand(last_view)));
            assert(ctx.count() == advance(c0, total));
            if c0 + total < u64::MAX {
                assert(first_view == items_tree(items, sv, c0, items.len()));
                assert(unused_view == var_at(unused_name(), c0 + before));
                assert(last_result == bind_tree(last_view, sv, c0 + before + 1));
            }
        }
        Ok(res)
    }
}

/// Resolves a function of the parameters `params` and the body `body`.
fn bind_lam(
    params: &Vec<String>,
    body: &BExprBody,
    env: &mut Vec<(String, FreeVar)>,
    ctx: &mut TransformContext,
) -> (res: Result<Expr, CompileError>)
    requires
        body_is_core(body@),
    ensures
        bound_as(
            res,
            BExprView::Lam(crate::base_expr::names_view(params@), body@),
            scope_view(old(env)@),
            old(ctx).count(),
            final(ctx).count(),
        ),
        res is Ok ==> final(env)@ == old(env)@,
    decreases body, 1nat,
{
    let ghost c0 = ctx.count();
    let ghost pviews = crate::base_expr::names_view(params@);
    let ghost pb = param_bindings(pviews, c0);
    proof {
        ctx.lemma_count_in_range();
    }
    let base = env.len();
    push_params(params, env, ctx);
    let ghost full = env@;
    let inner = match body.resolve(env, ctx) {
        Ok(x) => x,
        Err(x) => {
            return Err(x);
        },
    };
    if params.len() == 0 {
        let unused = ctx.fresh_var("_unused");
        assert(env@ =~= old(env)@);
        Ok(Expr::Lam(unused, Box::new(inner)))
    } else {
        let res = wrap_params(env, base, inner);
        assert(env@ =~= old(env)@);
        proof {
            if c0 + bind_demand(BExprView::Lam(pviews, body@)) < u64::MAX {
                assert(scope_view(full).subrange(base as int, full.len() as int) =~= pb);
            }
        }
        Ok(res)
    }
}

impl BExpr {
    /// Resolves the names of this core expression in the scope `env`: see
    /// [`bind_tree`].
    fn resolve(&self, env: &mut Vec<(String, FreeVar)>, ctx: &mut TransformContext) -> (res:
        Result<Expr, CompileError>)
        requires
            is_core(self@),
        ensures
            bound_as(res, self@, scope_view(old(env)@), old(ctx).count(), final(ctx).count()),
            res is Ok ==> final(env)@ == old(env)@,
        decreases self, 2nat,
    {
        proof {
            ctx.lemma_count_in_range();
        }
        match self {
            BExpr::Var(n) => match find(env, n) {
                Some(v) => Ok(Expr::Var(v)),
                None => Err(CompileError::UnboundIdentifier(n.clone())),
            },
            BExpr::Lit(l) => Ok(Expr::Lit(l.clone())),
            BExpr::BuiltinIdent(n) => Ok(Expr::BuiltinIdent(n.clone())),
            BExpr::If(c, t, e) => {
                let c2 = match c.resolve(env, ctx) {
                    Ok(x) => x,
                    Err(x) => {
                        return Err(x);
                    },
                };
                let t2 = match t.resolve(env, ctx) {
                    Ok(x) => x,
                    Err(x) => {
                        return Err(x);
                    },
                };
                let e2 = match e.resolve(env, ctx) {
                    Ok(x) => x,
                    Err(x) => {
                        return Err(x);
                    },
                };
                Ok(Expr::If(Box::new(c2), Box::new(t2), Box::new(e2)))
            },
            BExpr::Assign(n, e) => {
                let v = match find(env, n) {
                    Some(v) => v,
                    None => {
                        return Err(CompileError::UnboundIdentifier(n.clone()));
                    },
                };
                let e2 = match e.resolve(env, ctx) {
                    Ok(x) => x,
                    Err(x) => {
                        return Err(x);
                    },
                };
                Ok(Expr::Assign(v, Box::new(e2)))
            },
            // A core expression holds no `let`.
            BExpr::Let(_, _) => unreached(),
            BExpr::Lam(params, body) => bind_lam(params, body, env, ctx),
            BExpr::App(f, args) => {
                let ghost views = crate::base_expr::bexprs_view(args@);
                assert(self@->App_1 =~= views);
                assert(self@ == BExprView::App(Box::new(f@), views));
                let head = match f.resolve(env, ctx) {
                    Ok(x) => x,
                    Err(x) => {
                        return Err(x);
                    },
                };
                assert(unbound_all(views, names_of(scope_view(env@)), 0) is None);
                assert(demand_all(views, 0) == 0);
                if args.len() == 0 {
                    return Ok(call_with_void(head));
                }
                bind_args(args, head, env, ctx)
            },
        }
    }
}


/// What resolving the core expression `b` in the scope `env` gives, for a
/// supply of fresh names that stood at `before` and stands at `after`.
///
/// It fails with the first name that is used out of scope, if there is
/// one; else it fails where the supply had no room for the fresh
/// variables; else it gives [`bind_tree`].
pub open spec fn bound_in(
    res: Result<Expr, CompileError>,
    b: BExprView,
    env: Seq<(Seq<char>, FreeVarView)>,
    before: nat,
    after: nat,
) -> bool {
    match first_unbound(b, names_of(env)) {
        Some(n) => res matches Err(x) && x@ == CompileErrorView::UnboundIdentifier(n),
        None => if before + bind_demand(b) < u64::MAX {
            res matches Ok(e) && e@ == bind_tree(b, env, before) && after == before + bind_demand(
                b,
            )
        } else {
            res matches Err(x) && x@ == CompileErrorView::NamesExhausted
        },
    }
}

impl BExpr {
    /// Resolves the names of this core expression in the scope `env`:
    /// every binder gets a fresh variable, and every use becomes the
    /// variable of its binder. The scope is left as it was.
    pub fn bind(&self, env: &mut Vec<(String, FreeVar)>, ctx: &mut TransformContext) -> (res:
        Result<Expr, CompileError>)
        requires
            is_core(self@),
        ensures
            bound_in(res, self@, scope_view(old(env)@), old(ctx).count(), final(ctx).count()),
            res is Ok ==> final(env)@ == old(env)@,
    {
        proof {
            ctx.lemma_count_in_range();
        }
        match self.resolve(env, ctx) {
            Ok(e) => {
                if ctx.exhausted() {
                    Err(CompileError::NamesExhausted)
                } else {
                    Ok(e)
                }
            },
            Err(x) => Err(x),
        }
    }
}

/// What resolving the names of the whole expression `b` gives, for a
/// supply of fresh names that stood at `before` and stands at `after`.
///
/// The expression is desugared first. Resolving fails with the first name
/// that is used out of scope, if there is one; else it fails where the
/// supply had no room for the fresh variables; else it gives
/// [`bind_tree`] of the desugared expression in the empty scope.
pub open spec fn resolved_as(
    res: Result<Expr, CompileError>,
    b: BExprView,
    before: nat,
    after: nat,
) -> bool {
    let core = crate::base_expr::without_let(crate::base_expr::without_defines(b));
    match res {
        Ok(e) => {
            &&& first_unbound(core, Seq::empty()) is None
            &&& before + bind_demand(core) < u64::MAX
            &&& after == before + bind_demand(core)
            &&& e@ == bind_tree(core, Seq::empty(), before)
        },
        Err(x) => match first_unbound(core, Seq::empty()) {
            Some(n) => x@ == CompileErrorView::UnboundIdentifier(n),
            None => before + bind_demand(core) >= u64::MAX && x@
                == CompileErrorView::NamesExhausted,
        },
    }
}

impl BExpr {
    /// Desugars this expression and resolves its names: every binder gets
    /// a fresh variable, and every use becomes the variable of its binder.
    /// The result is closed, and each of its variables was drawn from
    /// `ctx`.
    pub fn into_expr(self, ctx: &mut TransformContext) -> (res: Result<Expr, CompileError>)
        ensures
            resolved_as(res, self@, old(ctx).count(), final(ctx).count()),
            res matches Ok(e) ==> crate::expr::free_ids(e@) == Set::<nat>::empty()
                && crate::expr::names_below(e@, final(ctx).count()),
    {
        proof {
            crate::desugar::lemma_desugared_is_core(self@);
            ctx.lemma_count_in_range();
            let core = crate::base_expr::without_let(crate::base_expr::without_defines(self@));
            if first_unbound(core, Seq::empty()) is None {
                crate::scoping::lemma_program_closed(core, ctx.count());
                crate::scoping::lemma_program_below(core, ctx.count());
            }
        }
        let core = self.lift_defines().remove_let();
        let mut env: Vec<(String, FreeVar)> = Vec::new();
        assert(scope_view(env@) =~= Seq::empty());
        assert(names_of(scope_view(env@)) =~= Seq::empty());
        match core.resolve(&mut env, ctx) {
            Ok(e) => {
                if ctx.exhausted() {
                    Err(CompileError::NamesExhausted)
                } else {
                    Ok(e)
                }
            },
            Err(x) => Err(x),
        }
    }
}

} // verus!
