use crate::base_expr::{BExprBodyExprView, BExprBodyView, BExprView};
use crate::bind::{
    applied, bind_demand, bind_tree, body_demand, body_tree, body_unbound, curried, demand_all,
    first_unbound, items_demand, items_tree, items_unbound, lemma_resolve_known, names_of,
    param_bindings, resolve, sequenced, unbound_all, unused_name, var_at, vars_of,
};
use crate::desugar::desugared;
use crate::expr::{all_below, alike, equivalent, names_below, same_binder, ExprView};
use crate::literals::LiteralView;
use crate::names::FreeVarView;
use crate::scoping::{
    body_respelled, item_respelled, lemma_body_below, lemma_items_unbound_prefix,
    lemma_lookup_position, scope_ids,
    lemma_source_to_core, lemma_unbound_all_prefix, position, respelled, same_use,
    source_respelled,
};
use vstd::prelude::*;

verus! {

/// The pairs of the fresh variables that two supplies of names, one at
/// `ca` and one at `cb`, give to `k` binders in turn.
pub open spec fn fresh_pairs(ca: nat, cb: nat, k: nat) -> Seq<(nat, nat)> {
    Seq::new(k, |i: int| ((ca + i) as nat, (cb + i) as nat))
}

/// Whether no variable stands in two of `pairs`, on either side.
pub open spec fn one_to_one(pairs: Seq<(nat, nat)>) -> bool {
    forall|i: int, j: int|
        0 <= i < j < pairs.len() ==> pairs[i].0 != pairs[j].0 && pairs[i].1 != pairs[j].1
}

/// Whether the scopes `ea` and `eb` bind, position by position, variables
/// that `pairs` pairs, where `pairs` holds the binders drawn so far from
/// two supplies of names that stand at `ca` and at `cb`.
pub open spec fn linked(
    ea: Seq<(Seq<char>, FreeVarView)>,
    eb: Seq<(Seq<char>, FreeVarView)>,
    pairs: Seq<(nat, nat)>,
    ca: nat,
    cb: nat,
) -> bool {
    &&& ea.len() == eb.len()
    &&& forall|i: int|
        0 <= i < ea.len() ==> pairs.contains(((#[trigger] ea[i]).1.id, eb[i].1.id))
    &&& one_to_one(pairs)
    &&& forall|j: int| 0 <= j < pairs.len() ==> (#[trigger] pairs[j]).0 < ca && pairs[j].1 < cb
}

proof fn lemma_same_binder(pairs: Seq<(nat, nat)>, x: nat, y: nat, j: int, n: nat)
    requires
        one_to_one(pairs),
        0 <= j < n <= pairs.len(),
        pairs[j] == (x, y),
    ensures
        same_binder(pairs, x, y, n),
    decreases n,
{
    if pairs[n - 1].0 == x || pairs[n - 1].1 == y {
        if j != n - 1 {
            assert(pairs[j].0 != pairs[n - 1].0 && pairs[j].1 != pairs[n - 1].1);
        }
    } else {
        lemma_same_binder(pairs, x, y, j, (n - 1) as nat);
    }
}

proof fn lemma_linked_more(
    ea: Seq<(Seq<char>, FreeVarView)>,
    eb: Seq<(Seq<char>, FreeVarView)>,
    pairs: Seq<(nat, nat)>,
    ca: nat,
    cb: nat,
    d: nat,
)
    requires
        linked(ea, eb, pairs, ca, cb),
    ensures
        linked(ea, eb, pairs, ca + d, cb + d),
{
}

proof fn lemma_linked_push(
    ea: Seq<(Seq<char>, FreeVarView)>,
    eb: Seq<(Seq<char>, FreeVarView)>,
    pairs: Seq<(nat, nat)>,
    ca: nat,
    cb: nat,
)
    requires
        linked(ea, eb, pairs, ca, cb),
    ensures
        linked(ea, eb, pairs.push((ca, cb)), ca + 1, cb + 1),
{
    let more = pairs.push((ca, cb));
    assert forall|i: int| 0 <= i < ea.len() implies more.contains(
        ((#[trigger] ea[i]).1.id, eb[i].1.id),
    ) by {
        let p = (ea[i].1.id, eb[i].1.id);
        assert(pairs.contains(p));
        let j = choose|j: int| 0 <= j < pairs.len() && pairs[j] == p;
        assert(more[j] == p);
    }
    assert forall|i: int, j: int| 0 <= i < j < more.len() implies more[i].0 != more[j].0
        && more[i].1 != more[j].1 by {
        assert(more[i] == pairs[i]);
        if j < pairs.len() {
            assert(more[j] == pairs[j]);
        }
    }
    assert forall|j: int| 0 <= j < more.len() implies (#[trigger] more[j]).0 < ca + 1
        && more[j].1 < cb + 1 by {
        if j < pairs.len() {
            assert(more[j] == pairs[j]);
        }
    }
}

proof fn lemma_linked_params(
    ea: Seq<(Seq<char>, FreeVarView)>,
    eb: Seq<(Seq<char>, FreeVarView)>,
    pairs: Seq<(nat, nat)>,
    ps: Seq<Seq<char>>,
    qs: Seq<Seq<char>>,
    ca: nat,
    cb: nat,
)
    requires
        linked(ea, eb, pairs, ca, cb),
        ps.len() == qs.len(),
    ensures
        linked(
            ea + param_bindings(ps, ca),
            eb + param_bindings(qs, cb),
            pairs + fresh_pairs(ca, cb, ps.len()),
            ca + ps.len(),
            cb + ps.len(),
        ),
{
    let ia = ea + param_bindings(ps, ca);
    let ib = eb + param_bindings(qs, cb);
    let fresh = fresh_pairs(ca, cb, ps.len());
    let more = pairs + fresh;
    assert forall|i: int| 0 <= i < ia.len() implies more.contains(
        ((#[trigger] ia[i]).1.id, ib[i].1.id),
    ) by {
        let p = (ia[i].1.id, ib[i].1.id);
        if i < ea.len() {
            assert(ia[i] == ea[i] && ib[i] == eb[i]);
            assert(pairs.contains((ea[i].1.id, eb[i].1.id)));
            let j = choose|j: int| 0 <= j < pairs.len() && pairs[j] == p;
            assert(more[j] == p);
        } else {
            let k = i - ea.len();
            assert(ia[i] == param_bindings(ps, ca)[k]);
            assert(ib[i] == param_bindings(qs, cb)[k]);
            assert(more[pairs.len() + k] == fresh[k]);
            assert(fresh[k] == p);
        }
    }
    assert forall|i: int, j: int| 0 <= i < j < more.len() implies more[i].0 != more[j].0
        && more[i].1 != more[j].1 by {
        if j < pairs.len() {
            assert(more[i] == pairs[i] && more[j] == pairs[j]);
        } else if i < pairs.len() {
            assert(more[i] == pairs[i]);
            assert(more[j] == fresh[j - pairs.len()]);
        } else {
            assert(more[i] == fresh[i - pairs.len()]);
            assert(more[j] == fresh[j - pairs.len()]);
        }
    }
    assert forall|j: int| 0 <= j < more.len() implies (#[trigger] more[j]).0 < ca + ps.len()
        && more[j].1 < cb + ps.len() by {
        if j < pairs.len() {
            assert(more[j] == pairs[j]);
        } else {
            assert(more[j] == fresh[j - pairs.len()]);
        }
    }
}

proof fn lemma_linked_scope(
    ea: Seq<(Seq<char>, FreeVarView)>,
    eb: Seq<(Seq<char>, FreeVarView)>,
    pairs: Seq<(nat, nat)>,
    ca: nat,
    cb: nat,
)
    requires
        linked(ea, eb, pairs, ca, cb),
    ensures
        all_below(scope_ids(ea), ca),
        all_below(scope_ids(eb), cb),
{
    assert forall|id: nat| scope_ids(ea).contains(id) implies id < ca by {
        let i = choose|i: int| 0 <= i < ea.len() && ea[i].1.id == id;
        let p = (ea[i].1.id, eb[i].1.id);
        assert(pairs.contains(p));
        let j = choose|j: int| 0 <= j < pairs.len() && pairs[j] == p;
        assert(pairs[j].0 < ca);
    }
    assert forall|id: nat| scope_ids(eb).contains(id) implies id < cb by {
        let i = choose|i: int| 0 <= i < eb.len() && eb[i].1.id == id;
        let p = (ea[i].1.id, eb[i].1.id);
        assert(pairs.contains(p));
        let j = choose|j: int| 0 <= j < pairs.len() && pairs[j] == p;
        assert(pairs[j].1 < cb);
    }
}

proof fn lemma_same_binder_prefix(
    s: Seq<(nat, nat)>,
    t: Seq<(nat, nat)>,
    x: nat,
    y: nat,
    n: nat,
)
    requires
        n <= s.len(),
        n <= t.len(),
        forall|i: int| 0 <= i < n ==> s[i] == t[i],
    ensures
        same_binder(s, x, y, n) == same_binder(t, x, y, n),
    decreases n,
{
    if n > 0 {
        lemma_same_binder_prefix(s, t, x, y, (n - 1) as nat);
    }
}

proof fn lemma_same_binder_skip(
    before: Seq<(nat, nat)>,
    after: Seq<(nat, nat)>,
    u: (nat, nat),
    x: nat,
    y: nat,
    n: nat,
)
    requires
        n <= after.len(),
        x != u.0,
        y != u.1,
    ensures
        same_binder(before + after, x, y, before.len() + n) == same_binder(
            before.push(u) + after,
            x,
            y,
            before.len() + 1 + n,
        ),
    decreases n,
{
    let s = before + after;
    let t = before.push(u) + after;
    if n == 0 {
        assert(t[before.len() as int] == u);
        lemma_same_binder_prefix(s, t, x, y, before.len());
    } else {
        assert(s[before.len() + n - 1] == after[n - 1]);
        assert(t[before.len() + 1 + n - 1] == after[n - 1]);
        lemma_same_binder_skip(before, after, u, x, y, (n - 1) as nat);
    }
}

/// A binder that binds nothing changes nothing: two expressions that
/// are equal up to the renaming of binders stay so under one more pair
/// of binders, wherever it stands, that no variable of either names.
proof fn lemma_unused_binder(
    a: ExprView,
    b: ExprView,
    before: Seq<(nat, nat)>,
    after: Seq<(nat, nat)>,
    u: (nat, nat),
)
    requires
        alike(a, b, before + after),
        names_below(a, u.0),
        names_below(b, u.1),
    ensures
        alike(a, b, before.push(u) + after),
    decreases a,
{
    let s = before + after;
    let t = before.push(u) + after;
    match (a, b) {
        (ExprView::Var(v), ExprView::Var(w)) => {
            lemma_same_binder_skip(before, after, u, v.id, w.id, after.len());
        },
        (ExprView::If(c, x, e), ExprView::If(c2, x2, e2)) => {
            lemma_unused_binder(*c, *c2, before, after, u);
            lemma_unused_binder(*x, *x2, before, after, u);
            lemma_unused_binder(*e, *e2, before, after, u);
        },
        (ExprView::Assign(v, e), ExprView::Assign(w, e2)) => {
            lemma_same_binder_skip(before, after, u, v.id, w.id, after.len());
            lemma_unused_binder(*e, *e2, before, after, u);
        },
        (ExprView::Lam(p, body), ExprView::Lam(q, body2)) => {
            let more = after.push((p.id, q.id));
            assert(s.push((p.id, q.id)) =~= before + more);
            lemma_unused_binder(*body, *body2, before, more, u);
            assert(t.push((p.id, q.id)) =~= before.push(u) + more);
        },
        (ExprView::App(f, x), ExprView::App(f2, x2)) => {
            lemma_unused_binder(*f, *f2, before, after, u);
            lemma_unused_binder(*x, *x2, before, after, u);
        },
        _ => {},
    }
}

proof fn lemma_use_alike(
    x: Seq<char>,
    ea: Seq<(Seq<char>, FreeVarView)>,
    y: Seq<char>,
    eb: Seq<(Seq<char>, FreeVarView)>,
    pairs: Seq<(nat, nat)>,
    ca: nat,
    cb: nat,
)
    requires
        same_use(x, names_of(ea), y, names_of(eb)),
        names_of(ea).contains(x),
        linked(ea, eb, pairs, ca, cb),
    ensures
        same_binder(pairs, resolve(ea, x).id, resolve(eb, y).id, pairs.len()),
{
    lemma_resolve_known(ea, x);
    lemma_lookup_position(ea, x, ea.len());
    lemma_lookup_position(eb, y, eb.len());
    let i = position(names_of(ea), x, ea.len())->Some_0;
    assert(names_of(ea).len() == ea.len());
    assert(names_of(eb).len() == eb.len());
    assert(resolve(ea, x) == ea[i].1);
    assert(resolve(eb, y) == eb[i].1);
    let p = (ea[i].1.id, eb[i].1.id);
    assert(pairs.contains(p));
    let j = choose|j: int| 0 <= j < pairs.len() && pairs[j] == p;
    lemma_same_binder(pairs, p.0, p.1, j, pairs.len());
}

proof fn lemma_curried_alike(
    va: Seq<FreeVarView>,
    ba: ExprView,
    vb: Seq<FreeVarView>,
    bb: ExprView,
    from: nat,
    pairs: Seq<(nat, nat)>,
    fresh: Seq<(nat, nat)>,
)
    requires
        from <= va.len(),
        va.len() == vb.len(),
        va.len() == fresh.len(),
        forall|j: int| 0 <= j < va.len() ==> fresh[j] == (va[j].id, vb[j].id),
        alike(ba, bb, pairs + fresh),
    ensures
        alike(curried(va, ba, from), curried(vb, bb, from), pairs + fresh.take(from as int)),
    decreases va.len() - from,
{
    if from < va.len() {
        lemma_curried_alike(va, ba, vb, bb, from + 1, pairs, fresh);
        let here = pairs + fresh.take(from as int);
        assert(here.push((va[from as int].id, vb[from as int].id)) =~= pairs + fresh.take(
            from as int + 1,
        ));
    } else {
        assert(fresh.take(from as int) =~= fresh);
    }
}

proof fn lemma_sequenced_alike(
    fa: ExprView,
    ua: FreeVarView,
    ta: ExprView,
    fb: ExprView,
    ub: FreeVarView,
    tb: ExprView,
    pairs: Seq<(nat, nat)>,
)
    requires
        alike(fa, fb, pairs),
        alike(ta, tb, pairs.push((ua.id, ub.id))),
    ensures
        alike(sequenced(fa, ua, ta), sequenced(fb, ub, tb), pairs),
{
    let la = ExprView::Lam(ua, Box::new(ta));
    let lb = ExprView::Lam(ub, Box::new(tb));
    assert(alike(la, lb, pairs));
}

proof fn lemma_applied_alike(
    ha: ExprView,
    hb: ExprView,
    a: Seq<BExprView>,
    b: Seq<BExprView>,
    ea: Seq<(Seq<char>, FreeVarView)>,
    eb: Seq<(Seq<char>, FreeVarView)>,
    ca: nat,
    cb: nat,
    pairs: Seq<(nat, nat)>,
    n: nat,
)
    requires
        n <= a.len(),
        a.len() == b.len(),
        forall|i: int| 0 <= i < a.len() ==> respelled(a[i], b[i], names_of(ea), names_of(eb)),
        unbound_all(a, names_of(ea), n) is None,
        unbound_all(b, names_of(eb), n) is None,
        linked(ea, eb, pairs, ca, cb),
        alike(ha, hb, pairs),
    ensures
        demand_all(a, n) == demand_all(b, n),
        alike(applied(ha, a, ea, ca, n), applied(hb, b, eb, cb, n), pairs),
    decreases a, n,
{
    if n > 0 {
        let d = demand_all(a, (n - 1) as nat);
        lemma_unbound_all_prefix(a, names_of(ea), n, (n - 1) as nat);
        lemma_unbound_all_prefix(b, names_of(eb), n, (n - 1) as nat);
        lemma_applied_alike(ha, hb, a, b, ea, eb, ca, cb, pairs, (n - 1) as nat);
        lemma_linked_more(ea, eb, pairs, ca, cb, d);
        lemma_alike(a[n - 1], b[n - 1], ea, eb, ca + d, cb + d, pairs);
    }
}

proof fn lemma_items_alike(
    a: Seq<BExprBodyExprView>,
    b: Seq<BExprBodyExprView>,
    ea: Seq<(Seq<char>, FreeVarView)>,
    eb: Seq<(Seq<char>, FreeVarView)>,
    ca: nat,
    cb: nat,
    pairs: Seq<(nat, nat)>,
    n: nat,
)
    requires
        1 <= n <= a.len(),
        a.len() == b.len(),
        forall|i: int|
            0 <= i < a.len() ==> item_respelled(a[i], b[i], names_of(ea), names_of(eb)),
        items_unbound(a, names_of(ea), n) is None,
        items_unbound(b, names_of(eb), n) is None,
        linked(ea, eb, pairs, ca, cb),
    ensures
        items_demand(a, n) == items_demand(b, n),
        alike(items_tree(a, ea, ca, n), items_tree(b, eb, cb, n), pairs),
    decreases a, n,
{
    assert(item_respelled(a[n - 1], b[n - 1], names_of(ea), names_of(eb)));
    lemma_items_unbound_prefix(a, names_of(ea), n, (n - 1) as nat);
    lemma_items_unbound_prefix(b, names_of(eb), n, (n - 1) as nat);
    assert(items_unbound(a, names_of(ea), 0) is None);
    assert(items_unbound(b, names_of(eb), 0) is None);
    if n == 1 {
        lemma_alike(a[0]->Expr_0, b[0]->Expr_0, ea, eb, ca, cb, pairs);
    } else {
        lemma_items_alike(a, b, ea, eb, ca, cb, pairs, (n - 1) as nat);
        let before = items_demand(a, (n - 1) as nat);
        let ua = var_at(unused_name(), ca + before);
        let ub = var_at(unused_name(), cb + before);
        let inner = pairs.push((ua.id, ub.id));
        lemma_linked_more(ea, eb, pairs, ca, cb, before);
        lemma_linked_push(ea, eb, pairs, ca + before, cb + before);
        lemma_alike(
            a[n - 1]->Expr_0,
            b[n - 1]->Expr_0,
            ea,
            eb,
            ca + before + 1,
            cb + before + 1,
            inner,
        );
        lemma_sequenced_alike(
            items_tree(a, ea, ca, (n - 1) as nat),
            ua,
            bind_tree(a[n - 1]->Expr_0, ea, ca + before + 1),
            items_tree(b, eb, cb, (n - 1) as nat),
            ub,
            bind_tree(b[n - 1]->Expr_0, eb, cb + before + 1),
            pairs,
        );
    }
}

proof fn lemma_body_alike(
    a: BExprBodyView,
    b: BExprBodyView,
    ea: Seq<(Seq<char>, FreeVarView)>,
    eb: Seq<(Seq<char>, FreeVarView)>,
    ca: nat,
    cb: nat,
    pairs: Seq<(nat, nat)>,
)
    requires
        body_respelled(a, b, names_of(ea), names_of(eb)),
        body_unbound(a, names_of(ea)) is None,
        body_unbound(b, names_of(eb)) is None,
        linked(ea, eb, pairs, ca, cb),
    ensures
        body_demand(a) == body_demand(b),
        alike(body_tree(a, ea, ca), body_tree(b, eb, cb), pairs),
    decreases a, 0nat,
{
    if a.items.len() == 0 {
        lemma_alike(*a.last, *b.last, ea, eb, ca, cb, pairs);
    } else {
        lemma_items_alike(a.items, b.items, ea, eb, ca, cb, pairs, a.items.len());
        let before = items_demand(a.items, a.items.len());
        let ua = var_at(unused_name(), ca + before);
        let ub = var_at(unused_name(), cb + before);
        let inner = pairs.push((ua.id, ub.id));
        lemma_linked_more(ea, eb, pairs, ca, cb, before);
        lemma_linked_push(ea, eb, pairs, ca + before, cb + before);
        lemma_alike(
            *a.last,
            *b.last,
            ea,
            eb,
            ca + before + 1,
            cb + before + 1,
            inner,
        );
        lemma_sequenced_alike(
            items_tree(a.items, ea, ca, a.items.len()),
            ua,
            bind_tree(*a.last, ea, ca + before + 1),
            items_tree(b.items, eb, cb, b.items.len()),
            ub,
            bind_tree(*b.last, eb, cb + before + 1),
            pairs,
        );
    }
}

proof fn lemma_alike(
    a: BExprView,
    b: BExprView,
    ea: Seq<(Seq<char>, FreeVarView)>,
    eb: Seq<(Seq<char>, FreeVarView)>,
    ca: nat,
    cb: nat,
    pairs: Seq<(nat, nat)>,
)
    requires
        respelled(a, b, names_of(ea), names_of(eb)),
        first_unbound(a, names_of(ea)) is None,
        first_unbound(b, names_of(eb)) is None,
        linked(ea, eb, pairs, ca, cb),
    ensures
        bind_demand(a) == bind_demand(b),
        alike(bind_tree(a, ea, ca), bind_tree(b, eb, cb), pairs),
    decreases a, 0nat,
{
    let na = names_of(ea);
    let nb = names_of(eb);
    match (a, b) {
        (BExprView::Var(x), BExprView::Var(y)) => {
            lemma_use_alike(x, ea, y, eb, pairs, ca, cb);
        },
        (BExprView::Lit(_), BExprView::Lit(_)) => {},
        (BExprView::BuiltinIdent(_), BExprView::BuiltinIdent(_)) => {},
        (BExprView::If(c, t, e), BExprView::If(c2, t2, e2)) => {
            let d1 = bind_demand(*c);
            let d2 = d1 + bind_demand(*t);
            assert(first_unbound(*c, na) is None);
            assert(first_unbound(*t, na) is None);
            assert(first_unbound(*e, na) is None);
            assert(first_unbound(*c2, nb) is None);
            assert(first_unbound(*t2, nb) is None);
            assert(first_unbound(*e2, nb) is None);
            lemma_alike(*c, *c2, ea, eb, ca, cb, pairs);
            lemma_linked_more(ea, eb, pairs, ca, cb, d1);
            lemma_alike(*t, *t2, ea, eb, ca + d1, cb + d1, pairs);
            lemma_linked_more(ea, eb, pairs, ca, cb, d2);
            lemma_alike(*e, *e2, ea, eb, ca + d2, cb + d2, pairs);
        },
        (BExprView::Assign(x, e), BExprView::Assign(y, e2)) => {
            assert(na.contains(x));
            lemma_use_alike(x, ea, y, eb, pairs, ca, cb);
            lemma_alike(*e, *e2, ea, eb, ca, cb, pairs);
        },
        (BExprView::Lam(ps, body), BExprView::Lam(qs, body2)) => {
            let pa = param_bindings(ps, ca);
            let pb = param_bindings(qs, cb);
            let ia = ea + pa;
            let ib = eb + pb;
            let fresh = fresh_pairs(ca, cb, ps.len());
            assert(names_of(ia) =~= na + ps);
            assert(names_of(ib) =~= names_of(eb) + qs);
            lemma_linked_params(ea, eb, pairs, ps, qs, ca, cb);
            if ps.len() > 0 {
                lemma_body_alike(body, body2, ia, ib, ca + ps.len(), cb + ps.len(), pairs + fresh);
                let inner_a = body_tree(body, ia, ca + ps.len());
                let inner_b = body_tree(body2, ib, cb + qs.len());
                let va = vars_of(pa);
                let vb = vars_of(pb);
                assert forall|j: int| 0 <= j < va.len() implies fresh[j] == (va[j].id, vb[j].id) by {
                    assert(va[j] == pa[j].1);
                    assert(vb[j] == pb[j].1);
                }
                lemma_curried_alike(va, inner_a, vb, inner_b, 0, pairs, fresh);
                assert(pairs + fresh.take(0) =~= pairs);
                assert(bind_tree(a, ea, ca) == curried(va, inner_a, 0));
                assert(bind_tree(b, eb, cb) == curried(vb, inner_b, 0));
            } else {
                assert(pairs + fresh =~= pairs);
                lemma_body_alike(body, body2, ia, ib, ca, cb, pairs);
                let d = body_demand(body);
                let ua = var_at(unused_name(), ca + d);
                let ub = var_at(unused_name(), cb + d);
                let inner_a = body_tree(body, ia, ca);
                let inner_b = body_tree(body2, ib, cb);
                lemma_linked_scope(ia, ib, pairs, ca, cb);
                lemma_body_below(body, ia, ca);
                lemma_body_below(body2, ib, cb);
                assert(pairs + Seq::<(nat, nat)>::empty() =~= pairs);
                lemma_unused_binder(inner_a, inner_b, pairs, Seq::empty(), (ua.id, ub.id));
                assert(pairs.push((ua.id, ub.id)) + Seq::<(nat, nat)>::empty() =~= pairs.push(
                    (ua.id, ub.id),
                ));
                assert(bind_tree(a, ea, ca) == ExprView::Lam(ua, Box::new(inner_a)));
                assert(bind_tree(b, eb, cb) == ExprView::Lam(ub, Box::new(inner_b)));
            }
        },
        (BExprView::App(f, args), BExprView::App(g, args2)) => {
            let d = bind_demand(*f);
            let ha = bind_tree(*f, ea, ca);
            let hb = bind_tree(*g, eb, cb);
            assert(first_unbound(*f, na) is None);
            assert(first_unbound(*g, nb) is None);
            lemma_alike(*f, *g, ea, eb, ca, cb, pairs);
            if args.len() == 0 {
                let void = ExprView::Lit(LiteralView::Void);
                assert(alike(void, void, pairs));
                assert(bind_tree(a, ea, ca) == ExprView::App(Box::new(ha), Box::new(void)));
                assert(bind_tree(b, eb, cb) == ExprView::App(Box::new(hb), Box::new(void)));
            } else {
                assert(unbound_all(args, na, args.len()) is None);
                assert(unbound_all(args2, nb, args2.len()) is None);
                lemma_linked_more(ea, eb, pairs, ca, cb, d);
                lemma_applied_alike(ha, hb, args, args2, ea, eb, ca + d, cb + d, pairs, args.len());
            }
        },
        _ => {},
    }
}

proof fn lemma_position_known(names: Seq<Seq<char>>, name: Seq<char>, n: nat)
    requires
        n <= names.len(),
    ensures
        position(names, name, n) is Some <==> exists|i: int| 0 <= i < n && names[i] == name,
    decreases n,
{
    if n > 0 {
        lemma_position_known(names, name, (n - 1) as nat);
        if names[n - 1] != name {
            if exists|i: int| 0 <= i < n && names[i] == name {
                let i = choose|i: int| 0 <= i < n && names[i] == name;
                assert(0 <= i < n - 1 && names[i] == name);
            }
        }
    }
}

proof fn lemma_use_known(x: Seq<char>, na: Seq<Seq<char>>, y: Seq<char>, nb: Seq<Seq<char>>)
    requires
        same_use(x, na, y, nb),
        na.contains(x),
    ensures
        nb.contains(y),
{
    lemma_position_known(na, x, na.len());
    lemma_position_known(nb, y, nb.len());
    let i = choose|i: int| 0 <= i < na.len() && na[i] == x;
    assert(position(na, x, na.len()) is Some);
    assert(position(nb, y, nb.len()) is Some);
    let j = choose|j: int| 0 <= j < nb.len() && nb[j] == y;
    assert(nb[j] == y);
}

proof fn lemma_args_accepted(
    a: Seq<BExprView>,
    b: Seq<BExprView>,
    na: Seq<Seq<char>>,
    nb: Seq<Seq<char>>,
    n: nat,
)
    requires
        n <= a.len(),
        a.len() == b.len(),
        forall|i: int| 0 <= i < a.len() ==> respelled(a[i], b[i], na, nb),
        unbound_all(a, na, n) is None,
    ensures
        unbound_all(b, nb, n) is None,
    decreases a, n,
{
    if n > 0 {
        lemma_unbound_all_prefix(a, na, n, (n - 1) as nat);
        lemma_args_accepted(a, b, na, nb, (n - 1) as nat);
        lemma_respelled_accepted(a[n - 1], b[n - 1], na, nb);
    }
}

proof fn lemma_items_accepted(
    a: Seq<BExprBodyExprView>,
    b: Seq<BExprBodyExprView>,
    na: Seq<Seq<char>>,
    nb: Seq<Seq<char>>,
    n: nat,
)
    requires
        n <= a.len(),
        a.len() == b.len(),
        forall|i: int| 0 <= i < a.len() ==> item_respelled(a[i], b[i], na, nb),
        items_unbound(a, na, n) is None,
    ensures
        items_unbound(b, nb, n) is None,
    decreases a, n,
{
    if n > 0 {
        lemma_items_unbound_prefix(a, na, n, (n - 1) as nat);
        lemma_items_accepted(a, b, na, nb, (n - 1) as nat);
        assert(item_respelled(a[n - 1], b[n - 1], na, nb));
        lemma_respelled_accepted(a[n - 1]->Expr_0, b[n - 1]->Expr_0, na, nb);
    }
}

proof fn lemma_body_accepted(
    a: BExprBodyView,
    b: BExprBodyView,
    na: Seq<Seq<char>>,
    nb: Seq<Seq<char>>,
)
    requires
        body_respelled(a, b, na, nb),
        body_unbound(a, na) is None,
    ensures
        body_unbound(b, nb) is None,
    decreases a, 0nat,
{
    lemma_items_accepted(a.items, b.items, na, nb, a.items.len());
    lemma_respelled_accepted(*a.last, *b.last, na, nb);
}

/// Spelling does not decide whether a program is resolved: where `a` and
/// `b` differ only in the spelling of bound identifiers and every name
/// of `a` is used in scope, so is every name of `b`.
pub proof fn lemma_respelled_accepted(
    a: BExprView,
    b: BExprView,
    na: Seq<Seq<char>>,
    nb: Seq<Seq<char>>,
)
    requires
        respelled(a, b, na, nb),
        first_unbound(a, na) is None,
    ensures
        first_unbound(b, nb) is None,
    decreases a, 0nat,
{
    match (a, b) {
        (BExprView::Var(x), BExprView::Var(y)) => {
            lemma_use_known(x, na, y, nb);
        },
        (BExprView::If(c, t, e), BExprView::If(c2, t2, e2)) => {
            lemma_respelled_accepted(*c, *c2, na, nb);
            lemma_respelled_accepted(*t, *t2, na, nb);
            lemma_respelled_accepted(*e, *e2, na, nb);
        },
        (BExprView::Assign(x, e), BExprView::Assign(y, e2)) => {
            lemma_use_known(x, na, y, nb);
            lemma_respelled_accepted(*e, *e2, na, nb);
        },
        (BExprView::Lam(ps, body), BExprView::Lam(qs, body2)) => {
            lemma_body_accepted(body, body2, na + ps, nb + qs);
        },
        (BExprView::App(f, args), BExprView::App(g, args2)) => {
            lemma_respelled_accepted(*f, *g, na, nb);
            lemma_args_accepted(args, args2, na, nb, args.len());
        },
        _ => {},
    }
}

/// Neither spelling nor the state of the supply reaches the resolved
/// form but through the names of its binders: where `a` and `b` differ
/// only in the spelling of bound identifiers, every name of `a` is used
/// in scope, and the scopes bind, position by position, variables that
/// `pairs` pairs, the two draw as many fresh variables, and what they
/// resolve to, from whatever counts, is equal up to the renaming of
/// binders.
pub proof fn lemma_respelled_alike(
    a: BExprView,
    b: BExprView,
    ea: Seq<(Seq<char>, FreeVarView)>,
    eb: Seq<(Seq<char>, FreeVarView)>,
    ca: nat,
    cb: nat,
    pairs: Seq<(nat, nat)>,
)
    requires
        respelled(a, b, names_of(ea), names_of(eb)),
        first_unbound(a, names_of(ea)) is None,
        linked(ea, eb, pairs, ca, cb),
    ensures
        bind_demand(a) == bind_demand(b),
        alike(bind_tree(a, ea, ca), bind_tree(b, eb, cb), pairs),
{
    lemma_respelled_accepted(a, b, names_of(ea), names_of(eb));
    lemma_alike(a, b, ea, eb, ca, cb, pairs);
}

/// Two programs of the core language that differ only in the spelling of
/// bound identifiers, and in which every name is used in scope, resolve
/// to expressions that are equal up to the renaming of binders, whatever
/// the counts at which the two supplies of fresh names stand.
pub proof fn lemma_renaming_irrelevant(a: BExprView, b: BExprView, ca: nat, cb: nat)
    requires
        respelled(a, b, Seq::empty(), Seq::empty()),
        first_unbound(a, Seq::empty()) is None,
    ensures
        first_unbound(b, Seq::empty()) is None,
        bind_demand(a) == bind_demand(b),
        equivalent(bind_tree(a, Seq::empty(), ca), bind_tree(b, Seq::empty(), cb)),
{
    let env = Seq::<(Seq<char>, FreeVarView)>::empty();
    assert(names_of(env) =~= Seq::empty());
    lemma_respelled_accepted(a, b, Seq::empty(), Seq::empty());
    lemma_respelled_alike(a, b, env, env, ca, cb, Seq::empty());
}

/// Two programs that differ only in the spelling of bound identifiers
/// are equal up to the renaming of binders after they are desugared and
/// their names are resolved, whatever the counts at which the two
/// supplies of fresh names stand: where the one uses no name out of
/// scope, neither does the other, they draw as many fresh variables, and
/// what they resolve to is equal up to the renaming of binders.
pub proof fn lemma_programs_equivalent(a: BExprView, b: BExprView, ca: nat, cb: nat)
    requires
        source_respelled(a, b, Seq::empty(), Seq::empty()),
        first_unbound(
            crate::base_expr::without_let(crate::base_expr::without_defines(a)),
            Seq::empty(),
        ) is None,
    ensures
        ({
            let core_a = crate::base_expr::without_let(crate::base_expr::without_defines(a));
            let core_b = crate::base_expr::without_let(crate::base_expr::without_defines(b));
            &&& first_unbound(core_b, Seq::empty()) is None
            &&& bind_demand(core_a) == bind_demand(core_b)
            &&& equivalent(
                bind_tree(core_a, Seq::empty(), ca),
                bind_tree(core_b, Seq::empty(), cb),
            )
        }),
{
    crate::desugar::lemma_desugar_direct(a);
    crate::desugar::lemma_desugar_direct(b);
    lemma_source_to_core(a, b, Seq::empty(), Seq::empty());
    lemma_renaming_irrelevant(desugared(a), desugared(b), ca, cb);
}

} // verus!
