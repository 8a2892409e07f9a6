use crate::base_expr::{
    assigned, bound_names, bound_values, declared, lift_defines_rule, no_defs, pulled,
    remove_let_rule, rewrite_all, rewrite_bindings, rewrite_body, rewrite_item, rewrite_items,
    rewrite_with, void_lit, without_defines, without_let, BExprBodyExprView, BExprBodyView,
    BExprView,
};
use crate::bind::{all_core, body_is_core, is_core, items_core};
use vstd::prelude::*;

verus! {

/// Whether no body in `b` holds a definition.
pub open spec fn def_free(b: BExprView) -> bool
    decreases b,
{
    match b {
        BExprView::Var(_) => true,
        BExprView::Lit(_) => true,
        BExprView::BuiltinIdent(_) => true,
        BExprView::If(c, t, e) => def_free(*c) && def_free(*t) && def_free(*e),
        BExprView::Assign(_, e) => def_free(*e),
        BExprView::Let(bs, body) => (forall|i: int| 0 <= i < bs.len() ==> def_free(bs[i].1))
            && body_def_free(body),
        BExprView::Lam(_, body) => body_def_free(body),
        BExprView::App(f, args) => def_free(*f) && forall|i: int|
            0 <= i < args.len() ==> def_free(args[i]),
    }
}

/// Whether `item` is an expression in which no body holds a definition.
pub open spec fn item_def_free(item: BExprBodyExprView) -> bool
    decreases item,
{
    match item {
        BExprBodyExprView::Expr(e) => def_free(e),
        BExprBodyExprView::Def(_, _) => false,
    }
}

/// Whether neither `body` nor any body in it holds a definition.
pub open spec fn body_def_free(body: BExprBodyView) -> bool
    decreases body,
{
    (forall|i: int| 0 <= i < body.items.len() ==> item_def_free(body.items[i])) && def_free(
        *body.last,
    )
}

/// Whether `b` holds neither a `let` nor a definition.
pub open spec fn sugar_free(b: BExprView) -> bool
    decreases b,
{
    match b {
        BExprView::Var(_) => true,
        BExprView::Lit(_) => true,
        BExprView::BuiltinIdent(_) => true,
        BExprView::If(c, t, e) => sugar_free(*c) && sugar_free(*t) && sugar_free(*e),
        BExprView::Assign(_, e) => sugar_free(*e),
        BExprView::Let(_, _) => false,
        BExprView::Lam(_, body) => body_sugar_free(body),
        BExprView::App(f, args) => sugar_free(*f) && forall|i: int|
            0 <= i < args.len() ==> sugar_free(args[i]),
    }
}

/// Whether `item` is an expression that holds neither a `let` nor a
/// definition.
pub open spec fn item_sugar_free(item: BExprBodyExprView) -> bool
    decreases item,
{
    match item {
        BExprBodyExprView::Expr(e) => sugar_free(e),
        BExprBodyExprView::Def(_, _) => false,
    }
}

/// Whether `body` holds neither a `let` nor a definition.
pub open spec fn body_sugar_free(body: BExprBodyView) -> bool
    decreases body,
{
    (forall|i: int| 0 <= i < body.items.len() ==> item_sugar_free(body.items[i])) && sugar_free(
        *body.last,
    )
}

proof fn lemma_rewrite_all_at(
    es: Seq<BExprView>,
    step: spec_fn(BExprView) -> BExprView,
    n: nat,
    i: int,
)
    requires
        0 <= i < n <= es.len(),
    ensures
        rewrite_all(es, step, n).len() == n,
        rewrite_all(es, step, n)[i] == rewrite_with(es[i], step),
    decreases n,
{
    lemma_rewrite_all_len(es, step, (n - 1) as nat);
    if i < n - 1 {
        lemma_rewrite_all_at(es, step, (n - 1) as nat, i);
    }
}

proof fn lemma_rewrite_all_len(es: Seq<BExprView>, step: spec_fn(BExprView) -> BExprView, n: nat)
    requires
        n <= es.len(),
    ensures
        rewrite_all(es, step, n).len() == n,
    decreases n,
{
    if n > 0 {
        lemma_rewrite_all_len(es, step, (n - 1) as nat);
    }
}

proof fn lemma_rewrite_bindings_len(
    bs: Seq<(Seq<char>, BExprView)>,
    step: spec_fn(BExprView) -> BExprView,
    n: nat,
)
    requires
        n <= bs.len(),
    ensures
        rewrite_bindings(bs, step, n).len() == n,
    decreases n,
{
    if n > 0 {
        lemma_rewrite_bindings_len(bs, step, (n - 1) as nat);
    }
}

proof fn lemma_rewrite_bindings_at(
    bs: Seq<(Seq<char>, BExprView)>,
    step: spec_fn(BExprView) -> BExprView,
    n: nat,
    i: int,
)
    requires
        0 <= i < n <= bs.len(),
    ensures
        rewrite_bindings(bs, step, n).len() == n,
        rewrite_bindings(bs, step, n)[i] == (bs[i].0, rewrite_with(bs[i].1, step)),
    decreases n,
{
    lemma_rewrite_bindings_len(bs, step, (n - 1) as nat);
    if i < n - 1 {
        lemma_rewrite_bindings_at(bs, step, (n - 1) as nat, i);
    }
}

proof fn lemma_rewrite_items_len(
    items: Seq<BExprBodyExprView>,
    step: spec_fn(BExprView) -> BExprView,
    n: nat,
)
    requires
        n <= items.len(),
    ensures
        rewrite_items(items, step, n).len() == n,
    decreases n,
{
    if n > 0 {
        lemma_rewrite_items_len(items, step, (n - 1) as nat);
    }
}

proof fn lemma_rewrite_items_at(
    items: Seq<BExprBodyExprView>,
    step: spec_fn(BExprView) -> BExprView,
    n: nat,
    i: int,
)
    requires
        0 <= i < n <= items.len(),
    ensures
        rewrite_items(items, step, n).len() == n,
        rewrite_items(items, step, n)[i] == rewrite_item(items[i], step),
    decreases n,
{
    lemma_rewrite_items_len(items, step, (n - 1) as nat);
    if i < n - 1 {
        lemma_rewrite_items_at(items, step, (n - 1) as nat, i);
    }
}

proof fn lemma_declared_void(items: Seq<BExprBodyExprView>, n: nat, i: int)
    requires
        n <= items.len(),
        0 <= i < declared(items, n).len(),
    ensures
        declared(items, n)[i].1 == void_lit(),
    decreases n,
{
    if n > 0 {
        let before = declared(items, (n - 1) as nat);
        if i < before.len() {
            lemma_declared_void(items, (n - 1) as nat, i);
        }
    }
}

/// Whether every expression of `body`, defined or not, is free of
/// definitions.
spec fn exprs_def_free(body: BExprBodyView) -> bool {
    &&& forall|i: int|
        0 <= i < body.items.len() ==> match #[trigger] body.items[i] {
            BExprBodyExprView::Expr(e) => def_free(e),
            BExprBodyExprView::Def(_, e) => def_free(e),
        }
    &&& def_free(*body.last)
}

proof fn lemma_pulled_def_free(body: BExprBodyView)
    requires
        exprs_def_free(body),
    ensures
        body_def_free(pulled(body)),
{
    if no_defs(body.items) {
        assert forall|i: int| 0 <= i < body.items.len() implies item_def_free(
            body.items[i],
        ) by {
            assert(body.items[i] is Expr);
        }
        return ;
    }
    let decls = declared(body.items, body.items.len());
    let inner = BExprBodyView {
        items: Seq::new(body.items.len(), |i: int| assigned(body.items[i])),
        last: body.last,
    };
    assert forall|i: int| 0 <= i < decls.len() implies def_free(decls[i].1) by {
        lemma_declared_void(body.items, body.items.len(), i);
    }
    assert forall|i: int| 0 <= i < inner.items.len() implies item_def_free(inner.items[i]) by {
        let item = body.items[i];
        match item {
            BExprBodyExprView::Expr(e) => {
                assert(inner.items[i] == BExprBodyExprView::Expr(e));
            },
            BExprBodyExprView::Def(name, e) => {
                let set = BExprView::Assign(name, Box::new(e));
                assert(inner.items[i] == BExprBodyExprView::Expr(set));
                assert(def_free(set));
            },
        }
    }
    assert(body_def_free(inner));
    let wrapped = BExprView::Let(decls, inner);
    assert(def_free(wrapped));
    assert(pulled(body).items.len() == 0);
    assert(*pulled(body).last == wrapped);
}

proof fn lemma_body_lifted(body: BExprBodyView)
    ensures
        exprs_def_free(rewrite_body(body, lift_defines_rule())),
    decreases body, 1nat,
{
    let r = lift_defines_rule();
    let out = rewrite_body(body, r);
    lemma_rewrite_items_len(body.items, r, body.items.len());
    assert forall|i: int| 0 <= i < out.items.len() implies match #[trigger] out.items[i] {
        BExprBodyExprView::Expr(e) => def_free(e),
        BExprBodyExprView::Def(_, e) => def_free(e),
    } by {
        lemma_rewrite_items_at(body.items, r, body.items.len(), i);
        match body.items[i] {
            BExprBodyExprView::Expr(e) => {
                lemma_defines_lifted(e);
            },
            BExprBodyExprView::Def(_, e) => {
                lemma_defines_lifted(e);
            },
        }
    }
    lemma_defines_lifted(*body.last);
}

/// After the definitions are pulled out, no body holds a definition.
pub proof fn lemma_defines_lifted(b: BExprView)
    ensures
        def_free(without_defines(b)),
    decreases b, 0nat,
{
    let r = lift_defines_rule();
    match b {
        BExprView::Var(_) => {},
        BExprView::Lit(_) => {},
        BExprView::BuiltinIdent(_) => {},
        BExprView::If(c, t, e) => {
            lemma_defines_lifted(*c);
            lemma_defines_lifted(*t);
            lemma_defines_lifted(*e);
        },
        BExprView::Assign(_, e) => {
            lemma_defines_lifted(*e);
        },
        BExprView::Let(bs, body) => {
            let bs2 = rewrite_bindings(bs, r, bs.len());
            let body2 = rewrite_body(body, r);
            lemma_rewrite_bindings_len(bs, r, bs.len());
            assert forall|i: int| 0 <= i < bs2.len() implies def_free(bs2[i].1) by {
                lemma_rewrite_bindings_at(bs, r, bs.len(), i);
                lemma_defines_lifted(bs[i].1);
            }
            lemma_body_lifted(body);
            lemma_pulled_def_free(body2);
            assert(without_defines(b) == BExprView::Let(bs2, pulled(body2)));
        },
        BExprView::Lam(params, body) => {
            let body2 = rewrite_body(body, r);
            lemma_body_lifted(body);
            lemma_pulled_def_free(body2);
            assert(without_defines(b) == BExprView::Lam(params, pulled(body2)));
        },
        BExprView::App(f, args) => {
            let args2 = rewrite_all(args, r, args.len());
            lemma_defines_lifted(*f);
            lemma_rewrite_all_len(args, r, args.len());
            assert forall|i: int| 0 <= i < args2.len() implies def_free(args2[i]) by {
                lemma_rewrite_all_at(args, r, args.len(), i);
                lemma_defines_lifted(args[i]);
            }
            assert(without_defines(b) == BExprView::App(
                Box::new(rewrite_with(*f, r)),
                args2,
            ));
        },
    }
}

proof fn lemma_all_core_from(es: Seq<BExprView>, n: nat)
    requires
        n <= es.len(),
        forall|i: int| 0 <= i < n ==> is_core(es[i]),
    ensures
        all_core(es, n),
    decreases n,
{
    if n > 0 {
        lemma_all_core_from(es, (n - 1) as nat);
    }
}

proof fn lemma_items_core_from(items: Seq<BExprBodyExprView>, n: nat)
    requires
        n <= items.len(),
        forall|i: int| 0 <= i < n ==> (#[trigger] items[i]) is Expr && is_core(items[i]->Expr_0),
    ensures
        items_core(items, n),
    decreases n,
{
    if n > 0 {
        lemma_items_core_from(items, (n - 1) as nat);
        assert(items[n - 1] is Expr);
    }
}

proof fn lemma_body_let_removed(body: BExprBodyView)
    requires
        body_def_free(body),
    ensures
        body_is_core(rewrite_body(body, remove_let_rule())),
    decreases body, 1nat,
{
    let r = remove_let_rule();
    let out = rewrite_body(body, r);
    lemma_rewrite_items_len(body.items, r, body.items.len());
    assert forall|i: int| 0 <= i < out.items.len() implies (#[trigger] out.items[i]) is Expr
        && is_core(out.items[i]->Expr_0) by {
        lemma_rewrite_items_at(body.items, r, body.items.len(), i);
        assert(item_def_free(body.items[i]));
        match body.items[i] {
            BExprBodyExprView::Expr(e) => {
                lemma_let_removed(e);
            },
            BExprBodyExprView::Def(_, _) => {},
        }
    }
    lemma_items_core_from(out.items, out.items.len());
    lemma_let_removed(*body.last);
}

/// Where no body holds a definition, the expression is in the core
/// language once every `let` was turned into a call.
pub proof fn lemma_let_removed(b: BExprView)
    requires
        def_free(b),
    ensures
        is_core(without_let(b)),
    decreases b, 0nat,
{
    let r = remove_let_rule();
    match b {
        BExprView::Var(_) => {},
        BExprView::Lit(_) => {},
        BExprView::BuiltinIdent(_) => {},
        BExprView::If(c, t, e) => {
            lemma_let_removed(*c);
            lemma_let_removed(*t);
            lemma_let_removed(*e);
        },
        BExprView::Assign(_, e) => {
            lemma_let_removed(*e);
        },
        BExprView::Let(bs, body) => {
            let bs2 = rewrite_bindings(bs, r, bs.len());
            let body2 = rewrite_body(body, r);
            lemma_rewrite_bindings_len(bs, r, bs.len());
            let values = bound_values(bs2);
            assert forall|i: int| 0 <= i < values.len() implies is_core(values[i]) by {
                lemma_rewrite_bindings_at(bs, r, bs.len(), i);
                lemma_let_removed(bs[i].1);
            }
            lemma_all_core_from(values, values.len());
            lemma_body_let_removed(body);
            let lam = BExprView::Lam(bound_names(bs2), body2);
            assert(is_core(lam));
            assert(without_let(b) == BExprView::App(Box::new(lam), values));
        },
        BExprView::Lam(params, body) => {
            let body2 = rewrite_body(body, r);
            lemma_body_let_removed(body);
            assert(without_let(b) == BExprView::Lam(params, body2));
        },
        BExprView::App(f, args) => {
            let args2 = rewrite_all(args, r, args.len());
            lemma_let_removed(*f);
            lemma_rewrite_all_len(args, r, args.len());
            assert forall|i: int| 0 <= i < args2.len() implies is_core(args2[i]) by {
                lemma_rewrite_all_at(args, r, args.len(), i);
                lemma_let_removed(args[i]);
            }
            lemma_all_core_from(args2, args2.len());
            assert(without_let(b) == BExprView::App(Box::new(rewrite_with(*f, r)), args2));
        },
    }
}

/// Desugaring ends in the core language: once the definitions are pulled
/// out and every `let` is turned into a call, neither a `let` nor a
/// definition is left.
pub proof fn lemma_desugared_is_core(b: BExprView)
    ensures
        is_core(without_let(without_defines(b))),
{
    lemma_defines_lifted(b);
    lemma_let_removed(without_defines(b));
}

/// Whether `step` leaves alone every expression that is no `let` and no
/// function with a definition in its body.
spec fn keeps_plain(step: spec_fn(BExprView) -> BExprView) -> bool {
    forall|e: BExprView|
        !(e is Let) && (e is Lam ==> no_defs(e->Lam_1.items)) ==> #[trigger] step(e) == e
}

proof fn lemma_body_unchanged(body: BExprBodyView, step: spec_fn(BExprView) -> BExprView)
    requires
        body_sugar_free(body),
        keeps_plain(step),
    ensures
        rewrite_body(body, step) == body,
    decreases body, 1nat,
{
    let out = rewrite_body(body, step);
    lemma_rewrite_items_len(body.items, step, body.items.len());
    assert forall|i: int| 0 <= i < body.items.len() implies out.items[i] == body.items[i] by {
        lemma_rewrite_items_at(body.items, step, body.items.len(), i);
        assert(item_sugar_free(body.items[i]));
        match body.items[i] {
            BExprBodyExprView::Expr(e) => {
                lemma_sugar_free_unchanged(e, step);
            },
            BExprBodyExprView::Def(_, _) => {},
        }
    }
    assert(out.items =~= body.items);
    lemma_sugar_free_unchanged(*body.last, step);
}

proof fn lemma_sugar_free_unchanged(b: BExprView, step: spec_fn(BExprView) -> BExprView)
    requires
        sugar_free(b),
        keeps_plain(step),
    ensures
        rewrite_with(b, step) == b,
    decreases b, 0nat,
{
    match b {
        BExprView::Var(_) => {},
        BExprView::Lit(_) => {},
        BExprView::BuiltinIdent(_) => {},
        BExprView::If(c, t, e) => {
            lemma_sugar_free_unchanged(*c, step);
            lemma_sugar_free_unchanged(*t, step);
            lemma_sugar_free_unchanged(*e, step);
        },
        BExprView::Assign(_, e) => {
            lemma_sugar_free_unchanged(*e, step);
        },
        BExprView::Let(_, _) => {},
        BExprView::Lam(params, body) => {
            assert(body_sugar_free(body));
            lemma_body_unchanged(body, step);
            assert forall|i: int| 0 <= i < body.items.len() implies body.items[i] is Expr by {
                assert(item_sugar_free(body.items[i]));
            }
            assert(no_defs(b->Lam_1.items));
        },
        BExprView::App(f, args) => {
            lemma_sugar_free_unchanged(*f, step);
            let args2 = rewrite_all(args, step, args.len());
            lemma_rewrite_all_len(args, step, args.len());
            assert forall|i: int| 0 <= i < args.len() implies args2[i] == args[i] by {
                lemma_rewrite_all_at(args, step, args.len(), i);
                lemma_sugar_free_unchanged(args[i], step);
            }
            assert(args2 =~= args);
        },
    }
}

/// Desugaring leaves alone what needs none: an expression that holds
/// neither a `let` nor a definition comes back as it was from pulling out
/// the definitions and from turning every `let` into a call, in either
/// order.
pub proof fn lemma_desugar_identity(b: BExprView)
    requires
        sugar_free(b),
    ensures
        without_defines(b) == b,
        without_let(b) == b,
        without_let(without_defines(b)) == b,
        without_defines(without_let(b)) == b,
{
    assert(keeps_plain(lift_defines_rule())) by {
        assert forall|e: BExprView|
            !(e is Let) && (e is Lam ==> no_defs(e->Lam_1.items)) implies #[trigger] lift_defines_rule()(
            e,
        ) == e by {}
    }
    assert(keeps_plain(remove_let_rule())) by {
        assert forall|e: BExprView|
            !(e is Let) && (e is Lam ==> no_defs(e->Lam_1.items)) implies #[trigger] remove_let_rule()(
            e,
        ) == e by {}
    }
    lemma_sugar_free_unchanged(b, lift_defines_rule());
    lemma_sugar_free_unchanged(b, remove_let_rule());
}

/// Whether `b` holds no `let`; its bodies may hold definitions.
pub open spec fn let_free(b: BExprView) -> bool
    decreases b,
{
    match b {
        BExprView::Var(_) => true,
        BExprView::Lit(_) => true,
        BExprView::BuiltinIdent(_) => true,
        BExprView::If(c, t, e) => let_free(*c) && let_free(*t) && let_free(*e),
        BExprView::Assign(_, e) => let_free(*e),
        BExprView::Let(_, _) => false,
        BExprView::Lam(_, body) => body_let_free(body),
        BExprView::App(f, args) => let_free(*f) && forall|i: int|
            0 <= i < args.len() ==> let_free(args[i]),
    }
}

/// Whether `item`, an expression or a definition, holds no `let`.
pub open spec fn item_let_free(item: BExprBodyExprView) -> bool
    decreases item,
{
    match item {
        BExprBodyExprView::Expr(e) => let_free(e),
        BExprBodyExprView::Def(_, e) => let_free(e),
    }
}

/// Whether `body` holds no `let`.
pub open spec fn body_let_free(body: BExprBodyView) -> bool
    decreases body,
{
    (forall|i: int| 0 <= i < body.items.len() ==> item_let_free(body.items[i])) && let_free(
        *body.last,
    )
}

proof fn lemma_body_without_let(body: BExprBodyView)
    requires
        body_let_free(body),
    ensures
        rewrite_body(body, remove_let_rule()) == body,
    decreases body, 1nat,
{
    let step = remove_let_rule();
    let out = rewrite_body(body, step);
    lemma_rewrite_items_len(body.items, step, body.items.len());
    assert forall|i: int| 0 <= i < body.items.len() implies out.items[i] == body.items[i] by {
        lemma_rewrite_items_at(body.items, step, body.items.len(), i);
        assert(item_let_free(body.items[i]));
        match body.items[i] {
            BExprBodyExprView::Expr(e) => {
                lemma_remove_let_identity(e);
            },
            BExprBodyExprView::Def(_, e) => {
                lemma_remove_let_identity(e);
            },
        }
    }
    assert(out.items =~= body.items);
    lemma_remove_let_identity(*body.last);
}

/// Turning every `let` into a call leaves alone what holds no `let`: an
/// expression without a `let` at any depth, whether or not its bodies
/// hold definitions, comes back as it was.
pub proof fn lemma_remove_let_identity(b: BExprView)
    requires
        let_free(b),
    ensures
        without_let(b) == b,
    decreases b, 0nat,
{
    let step = remove_let_rule();
    match b {
        BExprView::Var(_) => {},
        BExprView::Lit(_) => {},
        BExprView::BuiltinIdent(_) => {},
        BExprView::If(c, t, e) => {
            lemma_remove_let_identity(*c);
            lemma_remove_let_identity(*t);
            lemma_remove_let_identity(*e);
        },
        BExprView::Assign(_, e) => {
            lemma_remove_let_identity(*e);
        },
        BExprView::Let(_, _) => {},
        BExprView::Lam(_, body) => {
            lemma_body_without_let(body);
        },
        BExprView::App(f, args) => {
            lemma_remove_let_identity(*f);
            let args2 = rewrite_all(args, step, args.len());
            lemma_rewrite_all_len(args, step, args.len());
            assert forall|i: int| 0 <= i < args.len() implies args2[i] == args[i] by {
                lemma_rewrite_all_at(args, step, args.len(), i);
                lemma_remove_let_identity(args[i]);
            }
            assert(args2 =~= args);
        },
    }
}

/// Pulling out definitions leaves alone what holds none: an expression
/// in which no body holds a definition, whether or not it holds a `let`,
/// comes back as it was.
pub proof fn lemma_lift_defines_identity(b: BExprView)
    requires
        def_free(b),
    ensures
        without_defines(b) == b,
    decreases b, 0nat,
{
    let step = lift_defines_rule();
    match b {
        BExprView::Var(_) => {},
        BExprView::Lit(_) => {},
        BExprView::BuiltinIdent(_) => {},
        BExprView::If(c, t, e) => {
            lemma_lift_defines_identity(*c);
            lemma_lift_defines_identity(*t);
            lemma_lift_defines_identity(*e);
        },
        BExprView::Assign(_, e) => {
            lemma_lift_defines_identity(*e);
        },
        BExprView::Let(bs, body) => {
            let bs2 = rewrite_bindings(bs, step, bs.len());
            lemma_rewrite_bindings_len(bs, step, bs.len());
            assert forall|i: int| 0 <= i < bs.len() implies bs2[i] == bs[i] by {
                lemma_rewrite_bindings_at(bs, step, bs.len(), i);
                lemma_lift_defines_identity(bs[i].1);
            }
            assert(bs2 =~= bs);
            lemma_body_without_defines(body);
        },
        BExprView::Lam(_, body) => {
            lemma_body_without_defines(body);
        },
        BExprView::App(f, args) => {
            lemma_lift_defines_identity(*f);
            let args2 = rewrite_all(args, step, args.len());
            lemma_rewrite_all_len(args, step, args.len());
            assert forall|i: int| 0 <= i < args.len() implies args2[i] == args[i] by {
                lemma_rewrite_all_at(args, step, args.len(), i);
                lemma_lift_defines_identity(args[i]);
            }
            assert(args2 =~= args);
        },
    }
}

proof fn lemma_body_without_defines(body: BExprBodyView)
    requires
        body_def_free(body),
    ensures
        rewrite_body(body, lift_defines_rule()) == body,
        pulled(body) == body,
    decreases body, 1nat,
{
    let step = lift_defines_rule();
    let out = rewrite_body(body, step);
    lemma_rewrite_items_len(body.items, step, body.items.len());
    assert forall|i: int| 0 <= i < body.items.len() implies out.items[i] == body.items[i] by {
        lemma_rewrite_items_at(body.items, step, body.items.len(), i);
        assert(item_def_free(body.items[i]));
        match body.items[i] {
            BExprBodyExprView::Expr(e) => {
                lemma_lift_defines_identity(e);
            },
            BExprBodyExprView::Def(_, _) => {},
        }
    }
    assert(out.items =~= body.items);
    lemma_lift_defines_identity(*body.last);
    assert forall|i: int| 0 <= i < body.items.len() implies body.items[i] is Expr by {
        assert(item_def_free(body.items[i]));
    }
    assert(no_defs(body.items));
}

/// The desugared form of `b`, stated directly: every `let` is the call of
/// a function of the bound names with the bound values, and every body
/// with definitions is the call, with `void` for each defined name, of a
/// function of the defined names whose body assigns where the old one
/// defined.
pub open spec fn desugared(b: BExprView) -> BExprView
    decreases b, 0nat,
{
    match b {
        BExprView::Var(_) => b,
        BExprView::Lit(_) => b,
        BExprView::BuiltinIdent(_) => b,
        BExprView::If(c, t, e) => BExprView::If(
            Box::new(desugared(*c)),
            Box::new(desugared(*t)),
            Box::new(desugared(*e)),
        ),
        BExprView::Assign(n, e) => BExprView::Assign(n, Box::new(desugared(*e))),
        BExprView::Let(bs, body) => {
            let bs2 = desugared_bindings(bs, bs.len());
            BExprView::App(
                Box::new(BExprView::Lam(bound_names(bs2), desugared_body(body))),
                bound_values(bs2),
            )
        },
        BExprView::Lam(params, body) => BExprView::Lam(params, desugared_body(body)),
        BExprView::App(f, args) => BExprView::App(
            Box::new(desugared(*f)),
            desugared_all(args, args.len()),
        ),
    }
}

/// The first `n` of `es`, each desugared.
pub open spec fn desugared_all(es: Seq<BExprView>, n: nat) -> Seq<BExprView>
    decreases es, n,
{
    if n == 0 || n > es.len() {
        Seq::empty()
    } else {
        desugared_all(es, (n - 1) as nat).push(desugared(es[n - 1]))
    }
}

/// The first `n` of the bindings `bs`, the value of each desugared.
pub open spec fn desugared_bindings(bs: Seq<(Seq<char>, BExprView)>, n: nat) -> Seq<
    (Seq<char>, BExprView),
>
    decreases bs, n,
{
    if n == 0 || n > bs.len() {
        Seq::empty()
    } else {
        desugared_bindings(bs, (n - 1) as nat).push((bs[n - 1].0, desugared(bs[n - 1].1)))
    }
}

/// The body item with its expression desugared.
pub open spec fn desugared_item(item: BExprBodyExprView) -> BExprBodyExprView
    decreases item, 0nat,
{
    match item {
        BExprBodyExprView::Def(n, e) => BExprBodyExprView::Def(n, desugared(e)),
        BExprBodyExprView::Expr(e) => BExprBodyExprView::Expr(desugared(e)),
    }
}

/// The first `n` of the body items `items`, each desugared.
pub open spec fn desugared_items(items: Seq<BExprBodyExprView>, n: nat) -> Seq<BExprBodyExprView>
    decreases items, n,
{
    if n == 0 || n > items.len() {
        Seq::empty()
    } else {
        desugared_items(items, (n - 1) as nat).push(desugared_item(items[n - 1]))
    }
}

/// The desugared form of `body`.
pub open spec fn desugared_body(body: BExprBodyView) -> BExprBodyView
    decreases body, 0nat,
{
    let items = desugared_items(body.items, body.items.len());
    let last = desugared(*body.last);
    if no_defs(body.items) {
        BExprBodyView { items, last: Box::new(last) }
    } else {
        let decls = declared(items, items.len());
        BExprBodyView {
            items: Seq::empty(),
            last: Box::new(
                BExprView::App(
                    Box::new(
                        BExprView::Lam(
                            bound_names(decls),
                            BExprBodyView {
                                items: Seq::new(items.len(), |i: int| assigned(items[i])),
                                last: Box::new(last),
                            },
                        ),
                    ),
                    bound_values(decls),
                ),
            ),
        }
    }
}

/// Whether `a` and `b` are items of the same kind, and definitions of the
/// same name where they are definitions.
spec fn same_kind(a: BExprBodyExprView, b: BExprBodyExprView) -> bool {
    match (a, b) {
        (BExprBodyExprView::Def(n, _), BExprBodyExprView::Def(m, _)) => n == m,
        (BExprBodyExprView::Expr(_), BExprBodyExprView::Expr(_)) => true,
        _ => false,
    }
}

proof fn lemma_declared_by_kind(a: Seq<BExprBodyExprView>, b: Seq<BExprBodyExprView>, n: nat)
    requires
        n <= a.len(),
        a.len() == b.len(),
        forall|i: int| 0 <= i < a.len() ==> same_kind(a[i], b[i]),
    ensures
        declared(a, n) == declared(b, n),
    decreases n,
{
    if n > 0 {
        lemma_declared_by_kind(a, b, (n - 1) as nat);
        assert(same_kind(a[n - 1], b[n - 1]));
    }
}

proof fn lemma_desugared_items_at(items: Seq<BExprBodyExprView>, n: nat, i: int)
    requires
        0 <= i < n <= items.len(),
    ensures
        desugared_items(items, n).len() == n,
        desugared_items(items, n)[i] == desugared_item(items[i]),
    decreases n,
{
    lemma_desugared_items_len(items, (n - 1) as nat);
    if i < n - 1 {
        lemma_desugared_items_at(items, (n - 1) as nat, i);
    }
}

proof fn lemma_desugared_items_len(items: Seq<BExprBodyExprView>, n: nat)
    requires
        n <= items.len(),
    ensures
        desugared_items(items, n).len() == n,
    decreases n,
{
    if n > 0 {
        lemma_desugared_items_len(items, (n - 1) as nat);
    }
}

proof fn lemma_two_passes_all(es: Seq<BExprView>, n: nat)
    requires
        n <= es.len(),
    ensures
        rewrite_all(rewrite_all(es, lift_defines_rule(), es.len()), remove_let_rule(), n)
            == desugared_all(es, n),
    decreases es, n,
{
    let first = rewrite_all(es, lift_defines_rule(), es.len());
    lemma_rewrite_all_len(es, lift_defines_rule(), es.len());
    if n > 0 {
        lemma_two_passes_all(es, (n - 1) as nat);
        lemma_rewrite_all_at(es, lift_defines_rule(), es.len(), n - 1);
        lemma_desugar_direct(es[n - 1]);
    }
}

proof fn lemma_two_passes_bindings(bs: Seq<(Seq<char>, BExprView)>, n: nat)
    requires
        n <= bs.len(),
    ensures
        rewrite_bindings(
            rewrite_bindings(bs, lift_defines_rule(), bs.len()),
            remove_let_rule(),
            n,
        ) == desugared_bindings(bs, n),
    decreases bs, n,
{
    lemma_rewrite_bindings_len(bs, lift_defines_rule(), bs.len());
    if n > 0 {
        lemma_two_passes_bindings(bs, (n - 1) as nat);
        lemma_rewrite_bindings_at(bs, lift_defines_rule(), bs.len(), n - 1);
        lemma_desugar_direct(bs[n - 1].1);
    }
}

proof fn lemma_two_passes_item(item: BExprBodyExprView)
    ensures
        rewrite_item(rewrite_item(item, lift_defines_rule()), remove_let_rule()) == desugared_item(
            item,
        ),
    decreases item, 1nat,
{
    match item {
        BExprBodyExprView::Def(_, e) => {
            lemma_desugar_direct(e);
        },
        BExprBodyExprView::Expr(e) => {
            lemma_desugar_direct(e);
        },
    }
}

proof fn lemma_two_passes_items(items: Seq<BExprBodyExprView>, n: nat)
    requires
        n <= items.len(),
    ensures
        rewrite_items(
            rewrite_items(items, lift_defines_rule(), items.len()),
            remove_let_rule(),
            n,
        ) == desugared_items(items, n),
    decreases items, n,
{
    lemma_rewrite_items_len(items, lift_defines_rule(), items.len());
    if n > 0 {
        lemma_two_passes_items(items, (n - 1) as nat);
        lemma_rewrite_items_at(items, lift_defines_rule(), items.len(), n - 1);
        lemma_two_passes_item(items[n - 1]);
    }
}

proof fn lemma_assigned_pass(item: BExprBodyExprView)
    ensures
        rewrite_item(assigned(rewrite_item(item, lift_defines_rule())), remove_let_rule())
            == assigned(desugared_item(item)),
    decreases item, 1nat,
{
    let r2 = remove_let_rule();
    match item {
        BExprBodyExprView::Def(n, e) => {
            lemma_desugar_direct(e);
            let e1 = rewrite_with(e, lift_defines_rule());
            let set = BExprView::Assign(n, Box::new(e1));
            assert(rewrite_with(set, r2) == BExprView::Assign(n, Box::new(rewrite_with(e1, r2))));
        },
        BExprBodyExprView::Expr(e) => {
            lemma_desugar_direct(e);
        },
    }
}

proof fn lemma_voids_unchanged(decls: Seq<(Seq<char>, BExprView)>, n: nat)
    requires
        n <= decls.len(),
        forall|i: int| 0 <= i < decls.len() ==> decls[i].1 == void_lit(),
    ensures
        rewrite_bindings(decls, remove_let_rule(), n) == decls.take(n as int),
    decreases n,
{
    if n > 0 {
        lemma_voids_unchanged(decls, (n - 1) as nat);
        assert(rewrite_with(void_lit(), remove_let_rule()) == void_lit());
        assert(decls.take(n as int) =~= decls.take(n - 1).push(decls[n - 1]));
    } else {
        assert(decls.take(0) =~= Seq::empty());
    }
}

proof fn lemma_two_passes_body(body: BExprBodyView)
    ensures
        rewrite_body(pulled(rewrite_body(body, lift_defines_rule())), remove_let_rule())
            == desugared_body(body),
    decreases body, 1nat,
{
    let r1 = lift_defines_rule();
    let r2 = remove_let_rule();
    let n = body.items.len();
    let b1 = rewrite_body(body, r1);
    let items1 = b1.items;
    let items2 = desugared_items(body.items, n);
    lemma_rewrite_items_len(body.items, r1, n);
    lemma_desugared_items_len(body.items, n);
    lemma_desugar_direct(*body.last);
    assert forall|i: int| 0 <= i < n implies same_kind(items1[i], items2[i]) && same_kind(
        items1[i],
        body.items[i],
    ) by {
        lemma_rewrite_items_at(body.items, r1, n, i);
        lemma_desugared_items_at(body.items, n, i);
    }
    if no_defs(body.items) {
        assert(no_defs(items1)) by {
            assert forall|i: int| 0 <= i < items1.len() implies items1[i] is Expr by {
                assert(same_kind(items1[i], body.items[i]));
                assert(body.items[i] is Expr);
            }
        }
        lemma_two_passes_items(body.items, n);
    } else {
        assert(!no_defs(items1)) by {
            let i = choose|i: int| 0 <= i < body.items.len() && !(body.items[i] is Expr);
            assert(same_kind(items1[i], body.items[i]));
            assert(!(items1[i] is Expr));
        }
        let decls = declared(items1, n);
        lemma_declared_by_kind(items1, items2, n);
        let inner = BExprBodyView {
            items: Seq::new(n, |i: int| assigned(items1[i])),
            last: b1.last,
        };
        let wrapped = BExprView::Let(decls, inner);
        assert(pulled(b1) == BExprBodyView { items: Seq::empty(), last: Box::new(wrapped) });
        assert(rewrite_items(Seq::<BExprBodyExprView>::empty(), r2, 0) =~= Seq::empty());
        assert forall|i: int| 0 <= i < decls.len() implies decls[i].1 == void_lit() by {
            lemma_declared_void(items1, n, i);
        }
        lemma_voids_unchanged(decls, decls.len());
        assert(decls.take(decls.len() as int) =~= decls);
        let inner2 = rewrite_body(inner, r2);
        let want_items = Seq::new(n, |i: int| assigned(items2[i]));
        lemma_rewrite_items_len(inner.items, r2, n);
        assert forall|i: int| 0 <= i < n implies inner2.items[i] == want_items[i] by {
            lemma_rewrite_items_at(inner.items, r2, n, i);
            lemma_rewrite_items_at(body.items, r1, n, i);
            lemma_desugared_items_at(body.items, n, i);
            lemma_assigned_pass(body.items[i]);
        }
        assert(inner2.items =~= want_items);
        assert(*inner2.last == desugared(*body.last));
        assert(rewrite_with(wrapped, r2) == BExprView::App(
            Box::new(BExprView::Lam(bound_names(decls), inner2)),
            bound_values(decls),
        ));
    }
}

/// Desugaring is what [`desugared`] says: pulling out the definitions and
/// then turning every `let` into a call gives that form.
pub proof fn lemma_desugar_direct(b: BExprView)
    ensures
        without_let(without_defines(b)) == desugared(b),
    decreases b, 0nat,
{
    let r1 = lift_defines_rule();
    let r2 = remove_let_rule();
    match b {
        BExprView::Var(_) => {},
        BExprView::Lit(_) => {},
        BExprView::BuiltinIdent(_) => {},
        BExprView::If(c, t, e) => {
            lemma_desugar_direct(*c);
            lemma_desugar_direct(*t);
            lemma_desugar_direct(*e);
            let mid = BExprView::If(
                Box::new(rewrite_with(*c, r1)),
                Box::new(rewrite_with(*t, r1)),
                Box::new(rewrite_with(*e, r1)),
            );
            assert(without_defines(b) == mid);
        },
        BExprView::Assign(n, e) => {
            lemma_desugar_direct(*e);
            let mid = BExprView::Assign(n, Box::new(rewrite_with(*e, r1)));
            assert(without_defines(b) == mid);
        },
        BExprView::Let(bs, body) => {
            let bs1 = rewrite_bindings(bs, r1, bs.len());
            let b1 = rewrite_body(body, r1);
            let mid = BExprView::Let(bs1, pulled(b1));
            assert(without_defines(b) == mid);
            lemma_rewrite_bindings_len(bs, r1, bs.len());
            lemma_two_passes_bindings(bs, bs.len());
            lemma_two_passes_body(body);
            let bs2 = desugared_bindings(bs, bs.len());
            assert(rewrite_with(mid, r2) == BExprView::App(
                Box::new(BExprView::Lam(bound_names(bs2), desugared_body(body))),
                bound_values(bs2),
            ));
        },
        BExprView::Lam(params, body) => {
            let b1 = rewrite_body(body, r1);
            let mid = BExprView::Lam(params, pulled(b1));
            assert(without_defines(b) == mid);
            lemma_two_passes_body(body);
            assert(rewrite_with(mid, r2) == BExprView::Lam(params, desugared_body(body)));
        },
        BExprView::App(f, args) => {
            let args1 = rewrite_all(args, r1, args.len());
            let mid = BExprView::App(Box::new(rewrite_with(*f, r1)), args1);
            assert(without_defines(b) == mid);
            lemma_desugar_direct(*f);
            lemma_rewrite_all_len(args, r1, args.len());
            lemma_two_passes_all(args, args.len());
        },
    }
}

} // verus!
