use crate::base_expr::{
    bound_names, bound_values, declared, no_defs, BExprBodyExprView, BExprBodyView, BExprView,
};
use crate::desugar::{
    desugared, desugared_all, desugared_bindings, desugared_body, desugared_item,
    desugared_items,
};
use crate::bind::{
    applied, bind_demand, bind_tree, body_demand, body_tree, body_unbound, curried, demand_all,
    first_unbound, items_demand, items_tree, items_unbound, lemma_resolve_known, lookup, names_of, param_bindings, resolve, sequenced, unbound_all,
    unused_name, var_at, vars_of,
};
use crate::expr::{
    all_below, free_ids, lemma_names_below_more, names_below, same_up_to_spelling, ExprView,
};
use crate::literals::LiteralView;
use crate::names::FreeVarView;
use vstd::prelude::*;

verus! {

/// The identifiers of the variables that the scope `env` binds.
pub open spec fn scope_ids(env: Seq<(Seq<char>, FreeVarView)>) -> Set<nat> {
    Set::new(|id: nat| exists|i: int| 0 <= i < env.len() && env[i].1.id == id)
}

proof fn lemma_lookup_in_scope(env: Seq<(Seq<char>, FreeVarView)>, name: Seq<char>, n: nat)
    requires
        n <= env.len(),
        lookup(env, name, n) is Some,
    ensures
        scope_ids(env).contains(lookup(env, name, n)->Some_0.id),
    decreases n,
{
    if n > 0 {
        if env[n - 1].0 == name {
            assert(env[n - 1].1.id == lookup(env, name, n)->Some_0.id);
        } else {
            lemma_lookup_in_scope(env, name, (n - 1) as nat);
        }
    }
}

proof fn lemma_resolve_in_scope(env: Seq<(Seq<char>, FreeVarView)>, name: Seq<char>)
    requires
        names_of(env).contains(name),
    ensures
        scope_ids(env).contains(resolve(env, name).id),
{
    lemma_resolve_known(env, name);
    lemma_lookup_in_scope(env, name, env.len());
}

pub(crate) proof fn lemma_unbound_all_prefix(es: Seq<BExprView>, names: Seq<Seq<char>>, n: nat, k: nat)
    requires
        k <= n <= es.len(),
        unbound_all(es, names, n) is None,
    ensures
        unbound_all(es, names, k) is None,
    decreases n,
{
    if k < n {
        lemma_unbound_all_prefix(es, names, (n - 1) as nat, k);
    }
}

pub(crate) proof fn lemma_items_unbound_prefix(
    items: Seq<BExprBodyExprView>,
    names: Seq<Seq<char>>,
    n: nat,
    k: nat,
)
    requires
        k <= n <= items.len(),
        items_unbound(items, names, n) is None,
    ensures
        items_unbound(items, names, k) is None,
    decreases n,
{
    if k < n {
        lemma_items_unbound_prefix(items, names, (n - 1) as nat, k);
    }
}

proof fn lemma_curried_free(vars: Seq<FreeVarView>, body: ExprView, from: nat, allowed: Set<nat>)
    requires
        from <= vars.len(),
        forall|id: nat|
            free_ids(body).contains(id) ==> allowed.contains(id) || exists|j: int|
                0 <= j < vars.len() && vars[j].id == id,
    ensures
        forall|id: nat|
            free_ids(curried(vars, body, from)).contains(id) ==> allowed.contains(id) || exists|
                j: int,
            | 0 <= j < from && vars[j].id == id,
    decreases vars.len() - from,
{
    if from < vars.len() {
        lemma_curried_free(vars, body, from + 1, allowed);
        assert forall|id: nat| free_ids(curried(vars, body, from)).contains(id) implies (
        allowed.contains(id) || exists|j: int| 0 <= j < from && vars[j].id == id) by {
            assert(free_ids(curried(vars, body, from + 1)).contains(id));
            assert(id != vars[from as int].id);
            if !allowed.contains(id) {
                let j = choose|j: int| 0 <= j < from + 1 && vars[j].id == id;
                assert(0 <= j < from && vars[j].id == id);
            }
        }
    } else {
        assert forall|id: nat| free_ids(curried(vars, body, from)).contains(id) implies (
        allowed.contains(id) || exists|j: int| 0 <= j < from && vars[j].id == id) by {
            if !allowed.contains(id) {
                let j = choose|j: int| 0 <= j < vars.len() && vars[j].id == id;
                assert(0 <= j < from && vars[j].id == id);
            }
        }
    }
}

proof fn lemma_sequenced_closed(
    first: ExprView,
    unused: FreeVarView,
    then: ExprView,
    allowed: Set<nat>,
)
    requires
        free_ids(first).subset_of(allowed),
        free_ids(then).subset_of(allowed),
    ensures
        free_ids(sequenced(first, unused, then)).subset_of(allowed),
{
    let lam = ExprView::Lam(unused, Box::new(then));
    assert(free_ids(lam) == free_ids(then).remove(unused.id));
    assert(free_ids(sequenced(first, unused, then)) == free_ids(lam) + free_ids(first));
}

proof fn lemma_applied_closed(
    head: ExprView,
    args: Seq<BExprView>,
    env: Seq<(Seq<char>, FreeVarView)>,
    count: nat,
    n: nat,
)
    requires
        n <= args.len(),
        unbound_all(args, names_of(env), n) is None,
        free_ids(head).subset_of(scope_ids(env)),
    ensures
        free_ids(applied(head, args, env, count, n)).subset_of(scope_ids(env)),
    decreases args, n,
{
    if n > 0 {
        lemma_unbound_all_prefix(args, names_of(env), n, (n - 1) as nat);
        lemma_applied_closed(head, args, env, count, (n - 1) as nat);
        lemma_bind_closed(args[n - 1], env, count + demand_all(args, (n - 1) as nat));
    }
}

proof fn lemma_items_closed(
    items: Seq<BExprBodyExprView>,
    env: Seq<(Seq<char>, FreeVarView)>,
    count: nat,
    n: nat,
)
    requires
        1 <= n <= items.len(),
        items_unbound(items, names_of(env), n) is None,
    ensures
        free_ids(items_tree(items, env, count, n)).subset_of(scope_ids(env)),
    decreases items, n,
{
    lemma_items_unbound_prefix(items, names_of(env), n, (n - 1) as nat);
    assert(items_unbound(items, names_of(env), 0) is None);
    if n == 1 {
        match items[0] {
            BExprBodyExprView::Expr(e) => {
                lemma_bind_closed(e, env, count);
            },
            BExprBodyExprView::Def(_, e) => {
                lemma_bind_closed(e, env, count);
            },
        }
    } else {
        let before = items_demand(items, (n - 1) as nat);
        lemma_items_closed(items, env, count, (n - 1) as nat);
        let first = items_tree(items, env, count, (n - 1) as nat);
        let unused = var_at(unused_name(), count + before);
        match items[n - 1] {
            BExprBodyExprView::Expr(e) => {
                lemma_bind_closed(e, env, count + before + 1);
                lemma_sequenced_closed(
                    first,
                    unused,
                    bind_tree(e, env, count + before + 1),
                    scope_ids(env),
                );
            },
            BExprBodyExprView::Def(_, e) => {
                lemma_bind_closed(e, env, count + before + 1);
                lemma_sequenced_closed(
                    first,
                    unused,
                    bind_tree(e, env, count + before + 1),
                    scope_ids(env),
                );
            },
        }
    }
}

proof fn lemma_body_closed(body: BExprBodyView, env: Seq<(Seq<char>, FreeVarView)>, count: nat)
    requires
        body_unbound(body, names_of(env)) is None,
    ensures
        free_ids(body_tree(body, env, count)).subset_of(scope_ids(env)),
    decreases body, 0nat,
{
    if body.items.len() == 0 {
        lemma_bind_closed(*body.last, env, count);
    } else {
        let before = items_demand(body.items, body.items.len());
        lemma_items_closed(body.items, env, count, body.items.len());
        lemma_bind_closed(*body.last, env, count + before + 1);
        lemma_sequenced_closed(
            items_tree(body.items, env, count, body.items.len()),
            var_at(unused_name(), count + before),
            bind_tree(*body.last, env, count + before + 1),
            scope_ids(env),
        );
    }
}

/// Resolved expressions are closed in their scope: where every name of
/// `b` is used in scope, every variable that occurs free in
/// [`bind_tree`] of `b` is a variable that the scope `env` binds.
pub proof fn lemma_bind_closed(b: BExprView, env: Seq<(Seq<char>, FreeVarView)>, count: nat)
    requires
        first_unbound(b, names_of(env)) is None,
    ensures
        free_ids(bind_tree(b, env, count)).subset_of(scope_ids(env)),
    decreases b, 0nat,
{
    let names = names_of(env);
    match b {
        BExprView::Var(n) => {
            lemma_resolve_in_scope(env, n);
        },
        BExprView::Lit(_) => {},
        BExprView::BuiltinIdent(_) => {},
        BExprView::If(c, t, e) => {
            lemma_bind_closed(*c, env, count);
            lemma_bind_closed(*t, env, count + bind_demand(*c));
            lemma_bind_closed(*e, env, count + bind_demand(*c) + bind_demand(*t));
        },
        BExprView::Assign(n, e) => {
            lemma_resolve_in_scope(env, n);
            lemma_bind_closed(*e, env, count);
        },
        BExprView::Let(_, _) => {},
        BExprView::Lam(params, body) => {
            let pb = param_bindings(params, count);
            let inner_env = env + pb;
            assert(names_of(inner_env) =~= names + params);
            lemma_body_closed(body, inner_env, count + params.len());
            let inner = body_tree(body, inner_env, count + params.len());
            let vars = vars_of(pb);
            assert forall|id: nat| free_ids(inner).contains(id) implies scope_ids(env).contains(id)
                || exists|j: int| 0 <= j < vars.len() && vars[j].id == id by {
                assert(scope_ids(inner_env).contains(id));
                let i = choose|i: int| 0 <= i < inner_env.len() && inner_env[i].1.id == id;
                if i < env.len() {
                    assert(env[i].1.id == id);
                } else {
                    assert(vars[i - env.len()].id == id);
                }
            }
            if params.len() == 0 {
                assert forall|id: nat| free_ids(inner).contains(id) implies scope_ids(
                    env,
                ).contains(id) by {
                    if !scope_ids(env).contains(id) {
                        let j = choose|j: int| 0 <= j < vars.len() && vars[j].id == id;
                    }
                }
                let unused = var_at(unused_name(), count + body_demand(body));
                assert(bind_tree(b, env, count) == ExprView::Lam(unused, Box::new(inner)));
                assert(free_ids(bind_tree(b, env, count)) == free_ids(inner).remove(unused.id));
            } else {
                lemma_curried_free(vars, inner, 0, scope_ids(env));
                assert(bind_tree(b, env, count) == curried(vars, inner, 0));
                assert forall|id: nat|
                    free_ids(bind_tree(b, env, count)).contains(id) implies scope_ids(
                    env,
                ).contains(id) by {
                    if !scope_ids(env).contains(id) {
                        let j = choose|j: int| 0 <= j < 0 && vars[j].id == id;
                    }
                }
            }
        },
        BExprView::App(f, args) => {
            lemma_bind_closed(*f, env, count);
            if args.len() > 0 {
                lemma_applied_closed(
                    bind_tree(*f, env, count),
                    args,
                    env,
                    count + bind_demand(*f),
                    args.len(),
                );
            } else {
                assert(free_ids(ExprView::Lit(LiteralView::Void)) == Set::<nat>::empty());
            }
        },
    }
}

/// A resolved program is closed: where every name of `b` is used in
/// scope, no variable occurs free in [`bind_tree`] of `b` in the empty
/// scope.
pub proof fn lemma_program_closed(b: BExprView, count: nat)
    requires
        first_unbound(b, Seq::empty()) is None,
    ensures
        free_ids(bind_tree(b, Seq::empty(), count)) == Set::<nat>::empty(),
{
    let env = Seq::<(Seq<char>, FreeVarView)>::empty();
    assert(names_of(env) =~= Seq::empty());
    lemma_bind_closed(b, env, count);
    assert(scope_ids(env) =~= Set::empty());
    assert(free_ids(bind_tree(b, env, count)) =~= Set::empty());
}

proof fn lemma_curried_below(vars: Seq<FreeVarView>, body: ExprView, from: nat, n: nat)
    requires
        forall|j: int| 0 <= j < vars.len() ==> vars[j].id < n,
        names_below(body, n),
    ensures
        names_below(curried(vars, body, from), n),
    decreases vars.len() - from,
{
    if from < vars.len() {
        lemma_curried_below(vars, body, from + 1, n);
    }
}

proof fn lemma_sequenced_below(first: ExprView, unused: FreeVarView, then: ExprView, n: nat)
    requires
        names_below(first, n),
        names_below(then, n),
        unused.id < n,
    ensures
        names_below(sequenced(first, unused, then), n),
{
    let lam = ExprView::Lam(unused, Box::new(then));
    assert(names_below(lam, n));
}

proof fn lemma_applied_below(
    head: ExprView,
    args: Seq<BExprView>,
    env: Seq<(Seq<char>, FreeVarView)>,
    count: nat,
    n: nat,
)
    requires
        n <= args.len(),
        unbound_all(args, names_of(env), n) is None,
        all_below(scope_ids(env), count),
        names_below(head, count),
    ensures
        names_below(applied(head, args, env, count, n), count + demand_all(args, n)),
    decreases args, n,
{
    if n > 0 {
        let before = demand_all(args, (n - 1) as nat);
        lemma_unbound_all_prefix(args, names_of(env), n, (n - 1) as nat);
        lemma_applied_below(head, args, env, count, (n - 1) as nat);
        lemma_names_below_more(
            applied(head, args, env, count, (n - 1) as nat),
            count + before,
            count + demand_all(args, n),
        );
        lemma_bind_below(args[n - 1], env, count + before);
    }
}

proof fn lemma_items_below(
    items: Seq<BExprBodyExprView>,
    env: Seq<(Seq<char>, FreeVarView)>,
    count: nat,
    n: nat,
)
    requires
        1 <= n <= items.len(),
        items_unbound(items, names_of(env), n) is None,
        all_below(scope_ids(env), count),
    ensures
        names_below(items_tree(items, env, count, n), count + items_demand(items, n)),
    decreases items, n,
{
    lemma_items_unbound_prefix(items, names_of(env), n, (n - 1) as nat);
    assert(items_unbound(items, names_of(env), 0) is None);
    if n == 1 {
        match items[0] {
            BExprBodyExprView::Expr(e) => {
                lemma_bind_below(e, env, count);
            },
            BExprBodyExprView::Def(_, e) => {
                lemma_bind_below(e, env, count);
            },
        }
    } else {
        let before = items_demand(items, (n - 1) as nat);
        let all = count + items_demand(items, n);
        lemma_items_below(items, env, count, (n - 1) as nat);
        lemma_names_below_more(items_tree(items, env, count, (n - 1) as nat), count + before, all);
        match items[n - 1] {
            BExprBodyExprView::Expr(e) => {
                lemma_bind_below(e, env, count + before + 1);
                lemma_sequenced_below(
                    items_tree(items, env, count, (n - 1) as nat),
                    var_at(unused_name(), count + before),
                    bind_tree(e, env, count + before + 1),
                    all,
                );
            },
            BExprBodyExprView::Def(_, e) => {
                lemma_bind_below(e, env, count + before + 1);
                lemma_sequenced_below(
                    items_tree(items, env, count, (n - 1) as nat),
                    var_at(unused_name(), count + before),
                    bind_tree(e, env, count + before + 1),
                    all,
                );
            },
        }
    }
}

pub(crate) proof fn lemma_body_below(body: BExprBodyView, env: Seq<(Seq<char>, FreeVarView)>, count: nat)
    requires
        body_unbound(body, names_of(env)) is None,
        all_below(scope_ids(env), count),
    ensures
        names_below(body_tree(body, env, count), count + body_demand(body)),
    decreases body, 0nat,
{
    if body.items.len() == 0 {
        lemma_bind_below(*body.last, env, count);
    } else {
        let before = items_demand(body.items, body.items.len());
        lemma_items_below(body.items, env, count, body.items.len());
        lemma_names_below_more(
            items_tree(body.items, env, count, body.items.len()),
            count + before,
            count + body_demand(body),
        );
        lemma_bind_below(*body.last, env, count + before + 1);
        lemma_sequenced_below(
            items_tree(body.items, env, count, body.items.len()),
            var_at(unused_name(), count + before),
            bind_tree(*body.last, env, count + before + 1),
            count + body_demand(body),
        );
    }
}

/// Resolving draws every binder from the supply: where every name of `b`
/// is used in scope and every variable of the scope `env` has an
/// identifier below `count`, every variable of [`bind_tree`] of `b`,
/// bound or free, has an identifier below the count at which the supply
/// stands afterwards.
pub proof fn lemma_bind_below(b: BExprView, env: Seq<(Seq<char>, FreeVarView)>, count: nat)
    requires
        first_unbound(b, names_of(env)) is None,
        all_below(scope_ids(env), count),
    ensures
        names_below(bind_tree(b, env, count), count + bind_demand(b)),
    decreases b, 0nat,
{
    let names = names_of(env);
    let all = count + bind_demand(b);
    match b {
        BExprView::Var(n) => {
            lemma_resolve_in_scope(env, n);
            assert(scope_ids(env).contains(resolve(env, n).id));
            assert(names_below(bind_tree(b, env, count), all));
        },
        BExprView::Lit(_) => {},
        BExprView::BuiltinIdent(_) => {},
        BExprView::If(c, t, e) => {
            let n1 = count + bind_demand(*c);
            let n2 = n1 + bind_demand(*t);
            lemma_bind_below(*c, env, count);
            lemma_bind_below(*t, env, n1);
            lemma_bind_below(*e, env, n2);
            lemma_names_below_more(bind_tree(*c, env, count), n1, all);
            lemma_names_below_more(bind_tree(*t, env, n1), n2, all);
            assert(names_below(bind_tree(b, env, count), all));
        },
        BExprView::Assign(n, e) => {
            lemma_resolve_in_scope(env, n);
            assert(scope_ids(env).contains(resolve(env, n).id));
            lemma_bind_below(*e, env, count);
            assert(names_below(bind_tree(b, env, count), all));
        },
        BExprView::Let(_, _) => {},
        BExprView::Lam(params, body) => {
            let pb = param_bindings(params, count);
            let inner_env = env + pb;
            let vars = vars_of(pb);
            assert(names_of(inner_env) =~= names + params);
            assert forall|id: nat| scope_ids(inner_env).contains(id) implies id < count
                + params.len() by {
                let i = choose|i: int| 0 <= i < inner_env.len() && inner_env[i].1.id == id;
                if i < env.len() {
                    assert(env[i].1.id == id);
                    assert(scope_ids(env).contains(id));
                } else {
                    assert(inner_env[i] == pb[i - env.len()]);
                }
            }
            lemma_body_below(body, inner_env, count + params.len());
            let inner = body_tree(body, inner_env, count + params.len());
            lemma_names_below_more(inner, count + params.len() + body_demand(body), all);
            if params.len() > 0 {
                assert forall|j: int| 0 <= j < vars.len() implies vars[j].id < all by {
                    assert(vars[j] == pb[j].1);
                }
                lemma_curried_below(vars, inner, 0, all);
                assert(bind_tree(b, env, count) == curried(vars, inner, 0));
            } else {
                let unused = var_at(unused_name(), count + body_demand(body));
                assert(bind_tree(b, env, count) == ExprView::Lam(unused, Box::new(inner)));
                assert(names_below(ExprView::Lam(unused, Box::new(inner)), all));
            }
            assert(names_below(bind_tree(b, env, count), all));
        },
        BExprView::App(f, args) => {
            let head = bind_tree(*f, env, count);
            let n1 = count + bind_demand(*f);
            lemma_bind_below(*f, env, count);
            assert(first_unbound(*f, names) is None);
            assert(all == n1 + demand_all(args, args.len()));
            if args.len() > 0 {
                assert(unbound_all(args, names, args.len()) is None);
                lemma_applied_below(head, args, env, n1, args.len());
                assert(bind_tree(b, env, count) == applied(head, args, env, n1, args.len()));
            } else {
                let unit = ExprView::Lit(LiteralView::Void);
                assert(demand_all(args, 0) == 0);
                assert(names_below(head, all));
                assert(names_below(unit, all));
                assert(bind_tree(b, env, count) == ExprView::App(Box::new(head), Box::new(unit)));
                assert(names_below(ExprView::App(Box::new(head), Box::new(unit)), all));
            }
            assert(names_below(bind_tree(b, env, count), all));
        },
    }
}

/// The same of a whole program: every variable of the resolved program
/// has an identifier from `count` on and below the count at which the
/// supply stands afterwards.
pub proof fn lemma_program_below(b: BExprView, count: nat)
    requires
        first_unbound(b, Seq::empty()) is None,
    ensures
        names_below(bind_tree(b, Seq::empty(), count), count + bind_demand(b)),
{
    let env = Seq::<(Seq<char>, FreeVarView)>::empty();
    assert(names_of(env) =~= Seq::empty());
    lemma_bind_below(b, env, count);
}

/// A function without parameters gets one parameter that nothing reads,
/// and a call without arguments gets the argument `void`.
pub proof fn lemma_nullary_forms(
    f: BExprView,
    body: BExprBodyView,
    env: Seq<(Seq<char>, FreeVarView)>,
    count: nat,
)
    ensures
        bind_tree(BExprView::Lam(Seq::empty(), body), env, count) == ExprView::Lam(
            var_at(unused_name(), count + body_demand(body)),
            Box::new(body_tree(body, env, count)),
        ),
        bind_tree(BExprView::App(Box::new(f), Seq::empty()), env, count) == ExprView::App(
            Box::new(bind_tree(f, env, count)),
            Box::new(ExprView::Lit(LiteralView::Void)),
        ),
{
    assert(env + param_bindings(Seq::empty(), count) =~= env);
}


/// The position, among the first `n` of `names`, of the innermost binding
/// of `name`.
pub open spec fn position(names: Seq<Seq<char>>, name: Seq<char>, n: nat) -> Option<int>
    decreases n,
{
    if n == 0 || n > names.len() {
        None
    } else if names[n - 1] == name {
        Some(n - 1)
    } else {
        position(names, name, (n - 1) as nat)
    }
}

/// Whether the name `a` in the scope `na` and the name `b` in the scope
/// `nb` refer to the same binder: the binder at the same position, or, out
/// of scope, the same spelling.
pub open spec fn same_use(a: Seq<char>, na: Seq<Seq<char>>, b: Seq<char>, nb: Seq<Seq<char>>) -> bool {
    match (position(na, a, na.len()), position(nb, b, nb.len())) {
        (Some(i), Some(j)) => i == j,
        (None, None) => a == b,
        _ => false,
    }
}

/// Whether the core expressions `a`, in the scope `na`, and `b`, in the
/// scope `nb`, differ only in the spelling of bound identifiers.
pub open spec fn respelled(a: BExprView, b: BExprView, na: Seq<Seq<char>>, nb: Seq<Seq<char>>) -> bool
    decreases a,
{
    match (a, b) {
        (BExprView::Var(x), BExprView::Var(y)) => same_use(x, na, y, nb),
        (BExprView::Lit(l), BExprView::Lit(m)) => l == m,
        (BExprView::BuiltinIdent(x), BExprView::BuiltinIdent(y)) => x == y,
        (BExprView::If(c, t, e), BExprView::If(c2, t2, e2)) => respelled(*c, *c2, na, nb)
            && respelled(*t, *t2, na, nb) && respelled(*e, *e2, na, nb),
        (BExprView::Assign(x, e), BExprView::Assign(y, e2)) => same_use(x, na, y, nb)
            && respelled(*e, *e2, na, nb),
        (BExprView::Lam(ps, body), BExprView::Lam(qs, body2)) => ps.len() == qs.len()
            && body_respelled(body, body2, na + ps, nb + qs),
        (BExprView::App(f, args), BExprView::App(g, args2)) => respelled(*f, *g, na, nb)
            && args.len() == args2.len() && forall|i: int|
            0 <= i < args.len() ==> respelled(args[i], args2[i], na, nb),
        _ => false,
    }
}

/// [`respelled`] for body items.
pub open spec fn item_respelled(
    a: BExprBodyExprView,
    b: BExprBodyExprView,
    na: Seq<Seq<char>>,
    nb: Seq<Seq<char>>,
) -> bool
    decreases a,
{
    match (a, b) {
        (BExprBodyExprView::Expr(e), BExprBodyExprView::Expr(f)) => respelled(e, f, na, nb),
        _ => false,
    }
}

/// [`respelled`] for bodies.
pub open spec fn body_respelled(
    a: BExprBodyView,
    b: BExprBodyView,
    na: Seq<Seq<char>>,
    nb: Seq<Seq<char>>,
) -> bool
    decreases a,
{
    &&& a.items.len() == b.items.len()
    &&& forall|i: int| 0 <= i < a.items.len() ==> item_respelled(a.items[i], b.items[i], na, nb)
    &&& respelled(*a.last, *b.last, na, nb)
}

/// Whether the scopes `ea` and `eb` bind the same variables at the same
/// positions.
pub open spec fn scopes_agree(
    ea: Seq<(Seq<char>, FreeVarView)>,
    eb: Seq<(Seq<char>, FreeVarView)>,
) -> bool {
    &&& ea.len() == eb.len()
    &&& forall|i: int| 0 <= i < ea.len() ==> ea[i].1.id == eb[i].1.id
}

pub(crate) proof fn lemma_lookup_position(env: Seq<(Seq<char>, FreeVarView)>, name: Seq<char>, n: nat)
    requires
        n <= env.len(),
    ensures
        match position(names_of(env), name, n) {
            Some(i) => 0 <= i < n && lookup(env, name, n) == Some(env[i].1),
            None => lookup(env, name, n) is None,
        },
    decreases n,
{
    if n > 0 {
        assert(names_of(env)[n - 1] == env[n - 1].0);
        if env[n - 1].0 != name {
            lemma_lookup_position(env, name, (n - 1) as nat);
        }
    }
}

proof fn lemma_same_use(
    a: Seq<char>,
    ea: Seq<(Seq<char>, FreeVarView)>,
    b: Seq<char>,
    eb: Seq<(Seq<char>, FreeVarView)>,
)
    requires
        same_use(a, names_of(ea), b, names_of(eb)),
        scopes_agree(ea, eb),
    ensures
        resolve(ea, a).id == resolve(eb, b).id,
{
    lemma_lookup_position(ea, a, ea.len());
    lemma_lookup_position(eb, b, eb.len());
}

proof fn lemma_curried_same(
    va: Seq<FreeVarView>,
    ba: ExprView,
    vb: Seq<FreeVarView>,
    bb: ExprView,
    from: nat,
)
    requires
        va.len() == vb.len(),
        forall|j: int| 0 <= j < va.len() ==> va[j].id == vb[j].id,
        same_up_to_spelling(ba, bb),
    ensures
        same_up_to_spelling(curried(va, ba, from), curried(vb, bb, from)),
    decreases va.len() - from,
{
    if from < va.len() {
        lemma_curried_same(va, ba, vb, bb, from + 1);
    }
}

proof fn lemma_sequenced_same(
    fa: ExprView,
    ua: FreeVarView,
    ta: ExprView,
    fb: ExprView,
    ub: FreeVarView,
    tb: ExprView,
)
    requires
        same_up_to_spelling(fa, fb),
        ua.id == ub.id,
        same_up_to_spelling(ta, tb),
    ensures
        same_up_to_spelling(sequenced(fa, ua, ta), sequenced(fb, ub, tb)),
{
    let la = ExprView::Lam(ua, Box::new(ta));
    let lb = ExprView::Lam(ub, Box::new(tb));
    assert(same_up_to_spelling(la, lb));
}

proof fn lemma_applied_same(
    ha: ExprView,
    hb: ExprView,
    a: Seq<BExprView>,
    b: Seq<BExprView>,
    ea: Seq<(Seq<char>, FreeVarView)>,
    eb: Seq<(Seq<char>, FreeVarView)>,
    count: nat,
    n: nat,
)
    requires
        n <= a.len(),
        a.len() == b.len(),
        forall|i: int| 0 <= i < a.len() ==> respelled(a[i], b[i], names_of(ea), names_of(eb)),
        scopes_agree(ea, eb),
        same_up_to_spelling(ha, hb),
    ensures
        demand_all(a, n) == demand_all(b, n),
        same_up_to_spelling(applied(ha, a, ea, count, n), applied(hb, b, eb, count, n)),
    decreases a, n,
{
    if n > 0 {
        lemma_applied_same(ha, hb, a, b, ea, eb, count, (n - 1) as nat);
        lemma_respelled_same(a[n - 1], b[n - 1], ea, eb, count + demand_all(a, (n - 1) as nat));
    }
}

proof fn lemma_items_same(
    a: Seq<BExprBodyExprView>,
    b: Seq<BExprBodyExprView>,
    ea: Seq<(Seq<char>, FreeVarView)>,
    eb: Seq<(Seq<char>, FreeVarView)>,
    count: nat,
    n: nat,
)
    requires
        1 <= n <= a.len(),
        a.len() == b.len(),
        forall|i: int|
            0 <= i < a.len() ==> item_respelled(a[i], b[i], names_of(ea), names_of(eb)),
        scopes_agree(ea, eb),
    ensures
        items_demand(a, n) == items_demand(b, n),
        same_up_to_spelling(items_tree(a, ea, count, n), items_tree(b, eb, count, n)),
    decreases a, n,
{
    assert(item_respelled(a[n - 1], b[n - 1], names_of(ea), names_of(eb)));
    if n == 1 {
        lemma_respelled_same(a[0]->Expr_0, b[0]->Expr_0, ea, eb, count);
    } else {
        lemma_items_same(a, b, ea, eb, count, (n - 1) as nat);
        let before = items_demand(a, (n - 1) as nat);
        lemma_respelled_same(a[n - 1]->Expr_0, b[n - 1]->Expr_0, ea, eb, count + before + 1);
        lemma_sequenced_same(
            items_tree(a, ea, count, (n - 1) as nat),
            var_at(unused_name(), count + before),
            bind_tree(a[n - 1]->Expr_0, ea, count + before + 1),
            items_tree(b, eb, count, (n - 1) as nat),
            var_at(unused_name(), count + before),
            bind_tree(b[n - 1]->Expr_0, eb, count + before + 1),
        );
    }
}

proof fn lemma_body_same(
    a: BExprBodyView,
    b: BExprBodyView,
    ea: Seq<(Seq<char>, FreeVarView)>,
    eb: Seq<(Seq<char>, FreeVarView)>,
    count: nat,
)
    requires
        body_respelled(a, b, names_of(ea), names_of(eb)),
        scopes_agree(ea, eb),
    ensures
        body_demand(a) == body_demand(b),
        same_up_to_spelling(body_tree(a, ea, count), body_tree(b, eb, count)),
    decreases a, 0nat,
{
    if a.items.len() == 0 {
        lemma_respelled_same(*a.last, *b.last, ea, eb, count);
    } else {
        lemma_items_same(a.items, b.items, ea, eb, count, a.items.len());
        let before = items_demand(a.items, a.items.len());
        lemma_respelled_same(*a.last, *b.last, ea, eb, count + before + 1);
        lemma_sequenced_same(
            items_tree(a.items, ea, count, a.items.len()),
            var_at(unused_name(), count + before),
            bind_tree(*a.last, ea, count + before + 1),
            items_tree(b.items, eb, count, b.items.len()),
            var_at(unused_name(), count + before),
            bind_tree(*b.last, eb, count + before + 1),
        );
    }
}

/// Spelling does not reach the resolved form: where `a` and `b` differ
/// only in the spelling of bound identifiers, and their scopes bind the
/// same variables, they draw as many fresh variables and resolve to the
/// same expression up to spelling.
pub proof fn lemma_respelled_same(
    a: BExprView,
    b: BExprView,
    ea: Seq<(Seq<char>, FreeVarView)>,
    eb: Seq<(Seq<char>, FreeVarView)>,
    count: nat,
)
    requires
        respelled(a, b, names_of(ea), names_of(eb)),
        scopes_agree(ea, eb),
    ensures
        bind_demand(a) == bind_demand(b),
        same_up_to_spelling(bind_tree(a, ea, count), bind_tree(b, eb, count)),
    decreases a, 0nat,
{
    match (a, b) {
        (BExprView::Var(x), BExprView::Var(y)) => {
            lemma_same_use(x, ea, y, eb);
        },
        (BExprView::Lit(_), BExprView::Lit(_)) => {},
        (BExprView::BuiltinIdent(_), BExprView::BuiltinIdent(_)) => {},
        (BExprView::If(c, t, e), BExprView::If(c2, t2, e2)) => {
            lemma_respelled_same(*c, *c2, ea, eb, count);
            lemma_respelled_same(*t, *t2, ea, eb, count + bind_demand(*c));
            lemma_respelled_same(*e, *e2, ea, eb, count + bind_demand(*c) + bind_demand(*t));
        },
        (BExprView::Assign(x, e), BExprView::Assign(y, e2)) => {
            lemma_same_use(x, ea, y, eb);
            lemma_respelled_same(*e, *e2, ea, eb, count);
        },
        (BExprView::Lam(ps, body), BExprView::Lam(qs, body2)) => {
            let pa = param_bindings(ps, count);
            let pb = param_bindings(qs, count);
            let ia = ea + pa;
            let ib = eb + pb;
            assert(names_of(ia) =~= names_of(ea) + ps);
            assert(names_of(ib) =~= names_of(eb) + qs);
            assert(scopes_agree(ia, ib));
            lemma_body_same(body, body2, ia, ib, count + ps.len());
            let inner_a = body_tree(body, ia, count + ps.len());
            let inner_b = body_tree(body2, ib, count + qs.len());
            if ps.len() > 0 {
                lemma_curried_same(vars_of(pa), inner_a, vars_of(pb), inner_b, 0);
            }
        },
        (BExprView::App(f, args), BExprView::App(g, args2)) => {
            lemma_respelled_same(*f, *g, ea, eb, count);
            lemma_applied_same(
                bind_tree(*f, ea, count),
                bind_tree(*g, eb, count),
                args,
                args2,
                ea,
                eb,
                count + bind_demand(*f),
                args.len(),
            );
            if args.len() == 0 {
                let void = ExprView::Lit(LiteralView::Void);
                assert(same_up_to_spelling(void, void));
            }
        },
        _ => {},
    }
}

/// Two programs of the core language that differ only in the spelling of
/// bound identifiers resolve to the same expression up to spelling.
pub proof fn lemma_spelling_irrelevant(a: BExprView, b: BExprView, count: nat)
    requires
        respelled(a, b, Seq::empty(), Seq::empty()),
    ensures
        same_up_to_spelling(
            bind_tree(a, Seq::empty(), count),
            bind_tree(b, Seq::empty(), count),
        ),
{
    let env = Seq::<(Seq<char>, FreeVarView)>::empty();
    assert(names_of(env) =~= Seq::empty());
    lemma_respelled_same(a, b, env, env, count);
}


/// Whether the expressions `a`, in the scope `na`, and `b`, in the scope
/// `nb`, differ only in the spelling of bound identifiers. A `let` binds
/// its names in its body and not in its values; a body binds the names
/// that it defines in all of its items.
pub open spec fn source_respelled(
    a: BExprView,
    b: BExprView,
    na: Seq<Seq<char>>,
    nb: Seq<Seq<char>>,
) -> bool
    decreases a,
{
    match (a, b) {
        (BExprView::Var(x), BExprView::Var(y)) => same_use(x, na, y, nb),
        (BExprView::Lit(l), BExprView::Lit(m)) => l == m,
        (BExprView::BuiltinIdent(x), BExprView::BuiltinIdent(y)) => x == y,
        (BExprView::If(c, t, e), BExprView::If(c2, t2, e2)) => source_respelled(*c, *c2, na, nb)
            && source_respelled(*t, *t2, na, nb) && source_respelled(*e, *e2, na, nb),
        (BExprView::Assign(x, e), BExprView::Assign(y, e2)) => same_use(x, na, y, nb)
            && source_respelled(*e, *e2, na, nb),
        (BExprView::Let(bs, body), BExprView::Let(cs, body2)) => bs.len() == cs.len() && (forall|
            i: int,
        | 0 <= i < bs.len() ==> source_respelled(bs[i].1, cs[i].1, na, nb))
            && source_body_respelled(body, body2, na + bound_names(bs), nb + bound_names(cs)),
        (BExprView::Lam(ps, body), BExprView::Lam(qs, body2)) => ps.len() == qs.len()
            && source_body_respelled(body, body2, na + ps, nb + qs),
        (BExprView::App(f, args), BExprView::App(g, args2)) => source_respelled(*f, *g, na, nb)
            && args.len() == args2.len() && forall|i: int|
            0 <= i < args.len() ==> source_respelled(args[i], args2[i], na, nb),
        _ => false,
    }
}

/// [`source_respelled`] for body items.
pub open spec fn source_item_respelled(
    a: BExprBodyExprView,
    b: BExprBodyExprView,
    na: Seq<Seq<char>>,
    nb: Seq<Seq<char>>,
) -> bool
    decreases a,
{
    match (a, b) {
        (BExprBodyExprView::Def(x, e), BExprBodyExprView::Def(y, f)) => same_use(x, na, y, nb)
            && source_respelled(e, f, na, nb),
        (BExprBodyExprView::Expr(e), BExprBodyExprView::Expr(f)) => source_respelled(e, f, na, nb),
        _ => false,
    }
}

/// The names that `items` define, in order.
pub open spec fn defined_names(items: Seq<BExprBodyExprView>) -> Seq<Seq<char>> {
    bound_names(declared(items, items.len()))
}

/// [`source_respelled`] for bodies.
pub open spec fn source_body_respelled(
    a: BExprBodyView,
    b: BExprBodyView,
    na: Seq<Seq<char>>,
    nb: Seq<Seq<char>>,
) -> bool
    decreases a,
{
    &&& a.items.len() == b.items.len()
    &&& forall|i: int|
        0 <= i < a.items.len() ==> source_item_respelled(
            a.items[i],
            b.items[i],
            na + defined_names(a.items),
            nb + defined_names(b.items),
        )
    &&& source_respelled(
        *a.last,
        *b.last,
        na + defined_names(a.items),
        nb + defined_names(b.items),
    )
}

proof fn lemma_bindings_names(bs: Seq<(Seq<char>, BExprView)>, n: nat)
    requires
        n <= bs.len(),
    ensures
        desugared_bindings(bs, n).len() == n,
        forall|i: int|
            0 <= i < n ==> (#[trigger] desugared_bindings(bs, n)[i]) == (
                bs[i].0,
                desugared(bs[i].1),
            ),
    decreases n,
{
    if n > 0 {
        lemma_bindings_names(bs, (n - 1) as nat);
    }
}

proof fn lemma_desugared_all_at(es: Seq<BExprView>, n: nat)
    requires
        n <= es.len(),
    ensures
        desugared_all(es, n).len() == n,
        forall|i: int| 0 <= i < n ==> (#[trigger] desugared_all(es, n)[i]) == desugared(es[i]),
    decreases n,
{
    if n > 0 {
        lemma_desugared_all_at(es, (n - 1) as nat);
    }
}

proof fn lemma_desugared_items_all(items: Seq<BExprBodyExprView>, n: nat)
    requires
        n <= items.len(),
    ensures
        desugared_items(items, n).len() == n,
        forall|i: int|
            0 <= i < n ==> (#[trigger] desugared_items(items, n)[i]) == desugared_item(items[i]),
    decreases n,
{
    if n > 0 {
        lemma_desugared_items_all(items, (n - 1) as nat);
    }
}

proof fn lemma_declared_len(a: Seq<BExprBodyExprView>, b: Seq<BExprBodyExprView>, n: nat)
    requires
        n <= a.len(),
        a.len() == b.len(),
        forall|i: int| 0 <= i < a.len() ==> (a[i] is Def <==> b[i] is Def),
    ensures
        declared(a, n).len() == declared(b, n).len(),
    decreases n,
{
    if n > 0 {
        lemma_declared_len(a, b, (n - 1) as nat);
        assert(a[n - 1] is Def <==> b[n - 1] is Def);
    }
}

proof fn lemma_declared_names_kept(items: Seq<BExprBodyExprView>, n: nat)
    requires
        n <= items.len(),
    ensures
        bound_names(declared(desugared_items(items, items.len()), n)) == bound_names(
            declared(items, n),
        ),
        declared(desugared_items(items, items.len()), n).len() == declared(items, n).len(),
        forall|i: int|
            0 <= i < declared(items, n).len() ==> (#[trigger] declared(
                desugared_items(items, items.len()),
                n,
            )[i]).1 == crate::base_expr::void_lit(),
    decreases n,
{
    let d = desugared_items(items, items.len());
    lemma_desugared_items_all(items, items.len());
    if n > 0 {
        lemma_declared_names_kept(items, (n - 1) as nat);
        assert(d[n - 1] == desugared_item(items[n - 1]));
        let before_d = declared(d, (n - 1) as nat);
        let before = declared(items, (n - 1) as nat);
        match items[n - 1] {
            BExprBodyExprView::Def(name, e) => {
                assert(d[n - 1] == BExprBodyExprView::Def(name, desugared(e)));
                assert(declared(d, n) == before_d.push((name, crate::base_expr::void_lit())));
                assert(declared(items, n) == before.push((name, crate::base_expr::void_lit())));
                assert(bound_names(before_d.push((name, crate::base_expr::void_lit())))
                    =~= bound_names(before_d).push(name));
                assert(bound_names(before.push((name, crate::base_expr::void_lit())))
                    =~= bound_names(before).push(name));
            },
            BExprBodyExprView::Expr(e) => {
                assert(d[n - 1] == BExprBodyExprView::Expr(desugared(e)));
            },
        }
    } else {
        assert(bound_names(declared(d, n)) =~= bound_names(declared(items, n)));
    }
}

proof fn lemma_source_body(
    a: BExprBodyView,
    b: BExprBodyView,
    na: Seq<Seq<char>>,
    nb: Seq<Seq<char>>,
)
    requires
        source_body_respelled(a, b, na, nb),
    ensures
        body_respelled(desugared_body(a), desugared_body(b), na, nb),
    decreases a, 1nat,
{
    let n = a.items.len();
    let da = defined_names(a.items);
    let db = defined_names(b.items);
    let ia = desugared_items(a.items, n);
    let ib = desugared_items(b.items, n);
    lemma_desugared_items_all(a.items, n);
    lemma_desugared_items_all(b.items, n);
    lemma_source_to_core(*a.last, *b.last, na + da, nb + db);
    assert forall|i: int| 0 <= i < n implies (a.items[i] is Def <==> b.items[i] is Def) by {
        assert(source_item_respelled(a.items[i], b.items[i], na + da, nb + db));
    }
    lemma_declared_len(a.items, b.items, n);
    crate::base_expr::lemma_declared_none(a.items, n);
    crate::base_expr::lemma_declared_none(b.items, n);
    assert(no_defs(a.items) <==> no_defs(b.items));
    if no_defs(a.items) {
        assert(na + da =~= na);
        assert(nb + db =~= nb);
        assert forall|i: int| 0 <= i < n implies item_respelled(ia[i], ib[i], na, nb) by {
            assert(source_item_respelled(a.items[i], b.items[i], na, nb));
            assert(a.items[i] is Expr);
            assert(b.items[i] is Expr);
            lemma_source_to_core(a.items[i]->Expr_0, b.items[i]->Expr_0, na, nb);
        }
    } else {
        lemma_declared_names_kept(a.items, n);
        lemma_declared_names_kept(b.items, n);
        let decls_a = declared(ia, n);
        let decls_b = declared(ib, n);
        let inner_a = BExprBodyView {
            items: Seq::new(n, |i: int| crate::base_expr::assigned(ia[i])),
            last: Box::new(desugared(*a.last)),
        };
        let inner_b = BExprBodyView {
            items: Seq::new(n, |i: int| crate::base_expr::assigned(ib[i])),
            last: Box::new(desugared(*b.last)),
        };
        assert forall|i: int| 0 <= i < n implies item_respelled(
            inner_a.items[i],
            inner_b.items[i],
            na + da,
            nb + db,
        ) by {
            assert(source_item_respelled(a.items[i], b.items[i], na + da, nb + db));
            match (a.items[i], b.items[i]) {
                (BExprBodyExprView::Def(x, e), BExprBodyExprView::Def(y, f)) => {
                    lemma_source_to_core(e, f, na + da, nb + db);
                    let sa = BExprView::Assign(x, Box::new(desugared(e)));
                    let sb = BExprView::Assign(y, Box::new(desugared(f)));
                    assert(respelled(sa, sb, na + da, nb + db));
                    assert(inner_a.items[i] == BExprBodyExprView::Expr(sa));
                    assert(inner_b.items[i] == BExprBodyExprView::Expr(sb));
                },
                (BExprBodyExprView::Expr(e), BExprBodyExprView::Expr(f)) => {
                    lemma_source_to_core(e, f, na + da, nb + db);
                },
                _ => {},
            }
        }
        assert(body_respelled(inner_a, inner_b, na + da, nb + db));
        let fa = BExprView::Lam(bound_names(decls_a), inner_a);
        let fb = BExprView::Lam(bound_names(decls_b), inner_b);
        assert(respelled(fa, fb, na, nb));
        let va = bound_values(decls_a);
        let vb = bound_values(decls_b);
        assert forall|i: int| 0 <= i < va.len() implies respelled(va[i], vb[i], na, nb) by {
            assert(decls_a[i].1 == crate::base_expr::void_lit());
            assert(decls_b[i].1 == crate::base_expr::void_lit());
        }
        let ca = BExprView::App(Box::new(fa), va);
        let cb = BExprView::App(Box::new(fb), vb);
        assert(respelled(ca, cb, na, nb));
        assert(*desugared_body(a).last == ca);
        assert(*desugared_body(b).last == cb);
    }
}

/// What differs only in spelling before desugaring differs only in
/// spelling after it.
pub proof fn lemma_source_to_core(
    a: BExprView,
    b: BExprView,
    na: Seq<Seq<char>>,
    nb: Seq<Seq<char>>,
)
    requires
        source_respelled(a, b, na, nb),
    ensures
        respelled(desugared(a), desugared(b), na, nb),
    decreases a, 0nat,
{
    match (a, b) {
        (BExprView::If(c, t, e), BExprView::If(c2, t2, e2)) => {
            lemma_source_to_core(*c, *c2, na, nb);
            lemma_source_to_core(*t, *t2, na, nb);
            lemma_source_to_core(*e, *e2, na, nb);
        },
        (BExprView::Assign(_, e), BExprView::Assign(_, e2)) => {
            lemma_source_to_core(*e, *e2, na, nb);
        },
        (BExprView::Let(bs, body), BExprView::Let(cs, body2)) => {
            let bs2 = desugared_bindings(bs, bs.len());
            let cs2 = desugared_bindings(cs, cs.len());
            lemma_bindings_names(bs, bs.len());
            lemma_bindings_names(cs, cs.len());
            assert(bound_names(bs2) =~= bound_names(bs));
            assert(bound_names(cs2) =~= bound_names(cs));
            lemma_source_body(body, body2, na + bound_names(bs), nb + bound_names(cs));
            let fa = BExprView::Lam(bound_names(bs2), desugared_body(body));
            let fb = BExprView::Lam(bound_names(cs2), desugared_body(body2));
            assert(respelled(fa, fb, na, nb));
            let va = bound_values(bs2);
            let vb = bound_values(cs2);
            assert forall|i: int| 0 <= i < va.len() implies respelled(va[i], vb[i], na, nb) by {
                assert(bs2[i] == (bs[i].0, desugared(bs[i].1)));
                assert(cs2[i] == (cs[i].0, desugared(cs[i].1)));
                lemma_source_to_core(bs[i].1, cs[i].1, na, nb);
            }
            assert(respelled(
                BExprView::App(Box::new(fa), va),
                BExprView::App(Box::new(fb), vb),
                na,
                nb,
            ));
        },
        (BExprView::Lam(ps, body), BExprView::Lam(qs, body2)) => {
            lemma_source_body(body, body2, na + ps, nb + qs);
        },
        (BExprView::App(f, args), BExprView::App(g, args2)) => {
            lemma_source_to_core(*f, *g, na, nb);
            lemma_desugared_all_at(args, args.len());
            lemma_desugared_all_at(args2, args2.len());
            let va = desugared_all(args, args.len());
            let vb = desugared_all(args2, args2.len());
            assert forall|i: int| 0 <= i < va.len() implies respelled(va[i], vb[i], na, nb) by {
                assert(va[i] == desugared(args[i]));
                assert(vb[i] == desugared(args2[i]));
                lemma_source_to_core(args[i], args2[i], na, nb);
            }
        },
        _ => {},
    }
}

/// Two programs that differ only in the spelling of bound identifiers are
/// the same after they are desugared and their names are resolved, up to
/// spelling: they draw as many fresh variables and agree on every
/// identifier.
pub proof fn lemma_programs_respelled(a: BExprView, b: BExprView, count: nat)
    requires
        source_respelled(a, b, Seq::empty(), Seq::empty()),
    ensures
        ({
            let core_a = crate::base_expr::without_let(crate::base_expr::without_defines(a));
            let core_b = crate::base_expr::without_let(crate::base_expr::without_defines(b));
            &&& bind_demand(core_a) == bind_demand(core_b)
            &&& same_up_to_spelling(
                bind_tree(core_a, Seq::empty(), count),
                bind_tree(core_b, Seq::empty(), count),
            )
        }),
{
    crate::desugar::lemma_desugar_direct(a);
    crate::desugar::lemma_desugar_direct(b);
    lemma_source_to_core(a, b, Seq::empty(), Seq::empty());
    let env = Seq::<(Seq<char>, FreeVarView)>::empty();
    assert(names_of(env) =~= Seq::empty());
    lemma_respelled_same(desugared(a), desugared(b), env, env, count);
}

} // verus!
