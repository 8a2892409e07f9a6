use crate::cont_expr::{
    cps_apply, cps_m, cps_tc, cps_tk, demand_apply, demand_m, demand_tc, is_atomic, k_at,
    kont_weight, rv_at, void_atom, weight, AExpView, CExpView, KontView,
};
use crate::expr::{
    all_below, free_ids, lemma_free_ids_below, lemma_names_below_more, names_below, ExprView,
};
use crate::base_expr::BExprView;
use crate::bind::{bind_demand, bind_tree, first_unbound};
use crate::flat_expr::{flat_a, flat_c};
use crate::scoping::{lemma_program_below, lemma_program_closed};
use crate::lift::flat_free;
use vstd::prelude::*;

verus! {

/// The identifiers of the variables that occur free in the atomic
/// expression `a`.
pub open spec fn atom_free(a: AExpView) -> Set<nat>
    decreases a,
{
    match a {
        AExpView::Lam2(p, k, body) => comp_free(*body).remove(p.id).remove(k.id),
        AExpView::Lam1(p, body) => comp_free(*body).remove(p.id),
        AExpView::Var(v) => set![v.id],
        AExpView::BuiltinIdent(_) => Set::empty(),
        AExpView::Lit(_) => Set::empty(),
    }
}

/// The identifiers of the variables that occur free in the computation
/// `c`.
pub open spec fn comp_free(c: CExpView) -> Set<nat>
    decreases c,
{
    match c {
        CExpView::If(a, t, e) => atom_free(*a) + comp_free(*t) + comp_free(*e),
        CExpView::SetThen(v, a, then) => (atom_free(*a) + comp_free(*then)).insert(v.id),
        CExpView::Call1(k, a) => atom_free(*k) + atom_free(*a),
        CExpView::Call2(f, a, k) => atom_free(*f) + atom_free(*a) + atom_free(*k),
    }
}

/// The identifiers of the variables that occur free in what `k` still
/// holds: in the expressions it has yet to translate, in the atomic
/// expressions it has kept, and the variables it assigns.
pub open spec fn kont_free(k: KontView) -> Set<nat>
    decreases k,
{
    match k {
        KontView::SetThenK(v, rest) => kont_free(*rest).insert(v.id),
        KontView::SetThenC(v, c) => atom_free(c).insert(v.id),
        KontView::Branch(t, e, c) => free_ids(t) + free_ids(e) + atom_free(c),
        KontView::AppFun(e, c) => free_ids(e) + atom_free(c),
        KontView::AppArg(f, c) => atom_free(f) + atom_free(c),
    }
}

/// Whether a translation that draws its fresh variables from `n` on can
/// go on with `k`: the expressions that `k` has yet to translate have
/// every variable below `n`, and so have the variables it assigns and
/// the free variables of the atomic expressions it has kept.
pub open spec fn kont_below(k: KontView, n: nat) -> bool
    decreases k,
{
    match k {
        KontView::SetThenK(v, rest) => v.id < n && kont_below(*rest, n),
        KontView::SetThenC(v, c) => v.id < n && all_below(atom_free(c), n),
        KontView::Branch(t, e, c) => names_below(t, n) && names_below(e, n) && all_below(
            atom_free(c),
            n,
        ),
        KontView::AppFun(e, c) => names_below(e, n) && all_below(atom_free(c), n),
        KontView::AppArg(f, c) => all_below(atom_free(f), n) && all_below(atom_free(c), n),
    }
}

proof fn lemma_kont_below_more(k: KontView, n: nat, m: nat)
    requires
        kont_below(k, n),
        n <= m,
    ensures
        kont_below(k, m),
    decreases k,
{
    match k {
        KontView::SetThenK(_, rest) => {
            lemma_kont_below_more(*rest, n, m);
        },
        KontView::SetThenC(_, _) => {},
        KontView::Branch(t, e, _) => {
            lemma_names_below_more(t, n, m);
            lemma_names_below_more(e, n, m);
        },
        KontView::AppFun(e, _) => {
            lemma_names_below_more(e, n, m);
        },
        KontView::AppArg(_, _) => {},
    }
}

proof fn lemma_kont_free_below(k: KontView, n: nat)
    requires
        kont_below(k, n),
    ensures
        all_below(kont_free(k), n),
    decreases k,
{
    match k {
        KontView::SetThenK(_, rest) => {
            lemma_kont_free_below(*rest, n);
        },
        KontView::SetThenC(_, _) => {},
        KontView::Branch(t, e, _) => {
            lemma_free_ids_below(t, n);
            lemma_free_ids_below(e, n);
        },
        KontView::AppFun(e, _) => {
            lemma_free_ids_below(e, n);
        },
        KontView::AppArg(_, _) => {},
    }
}

/// The continuation that [`cps_tk`] makes of `k` for a result drawn at
/// `count`.
spec fn reified(k: KontView, count: nat) -> AExpView {
    AExpView::Lam1(
        rv_at(count),
        Box::new(cps_apply(k, AExpView::Var(rv_at(count)), count + 1)),
    )
}

proof fn lemma_atom_keeps_free(e: ExprView, count: nat)
    requires
        is_atomic(e),
        names_below(e, count),
    ensures
        atom_free(cps_m(e, count)) == free_ids(e),
    decreases weight(e), 0nat,
{
    match e {
        ExprView::Lam(p, body) => {
            let k = AExpView::Var(k_at(count));
            lemma_names_below_more(*body, count, count + 1);
            lemma_comp_keeps_free(*body, k, count + 1);
            lemma_free_ids_below(*body, count);
            assert(atom_free(cps_m(e, count)) =~= free_ids(e));
        },
        _ => {},
    }
}

proof fn lemma_comp_keeps_free(e: ExprView, c: AExpView, count: nat)
    requires
        names_below(e, count),
        all_below(atom_free(c), count),
    ensures
        comp_free(cps_tc(e, c, count)) == free_ids(e) + atom_free(c),
    decreases weight(e), 1nat,
{
    match e {
        ExprView::Assign(v, inner) => {
            lemma_rest_keeps_free(*inner, KontView::SetThenC(v, c), count);
            assert(comp_free(cps_tc(e, c, count)) =~= free_ids(e) + atom_free(c));
        },
        ExprView::If(cond, t, f) => {
            let k = KontView::Branch(*t, *f, AExpView::Var(k_at(count)));
            lemma_names_below_more(*cond, count, count + 1);
            lemma_names_below_more(*t, count, count + 1);
            lemma_names_below_more(*f, count, count + 1);
            lemma_rest_keeps_free(*cond, k, count + 1);
            lemma_free_ids_below(e, count);
            let inner = cps_tk(*cond, k, count + 1);
            let head = AExpView::Lam1(k_at(count), Box::new(inner));
            assert(comp_free(inner) =~= free_ids(e).insert(count));
            assert(atom_free(head) =~= free_ids(e));
            assert(cps_tc(e, c, count) == CExpView::Call1(Box::new(head), Box::new(c)));
            assert(comp_free(cps_tc(e, c, count)) =~= free_ids(e) + atom_free(c));
        },
        ExprView::App(f, a) => {
            lemma_rest_keeps_free(*f, KontView::AppFun(*a, c), count);
            assert(comp_free(cps_tc(e, c, count)) =~= free_ids(e) + atom_free(c));
        },
        _ => {
            lemma_atom_keeps_free(e, count);
        },
    }
}

proof fn lemma_reified_keeps_free(k: KontView, count: nat)
    requires
        kont_below(k, count),
    ensures
        atom_free(reified(k, count)) == kont_free(k),
    decreases kont_weight(k), 2nat,
{
    lemma_kont_below_more(k, count, count + 1);
    lemma_apply_keeps_free(k, AExpView::Var(rv_at(count)), count + 1);
    lemma_kont_free_below(k, count);
    assert(atom_free(reified(k, count)) =~= kont_free(k));
}

proof fn lemma_rest_keeps_free(e: ExprView, k: KontView, count: nat)
    requires
        names_below(e, count),
        kont_below(k, count),
    ensures
        comp_free(cps_tk(e, k, count)) == free_ids(e) + kont_free(k),
    decreases weight(e) + kont_weight(k), 3nat,
{
    match e {
        ExprView::Assign(v, inner) => {
            lemma_rest_keeps_free(*inner, KontView::SetThenK(v, Box::new(k)), count);
            assert(comp_free(cps_tk(e, k, count)) =~= free_ids(e) + kont_free(k));
        },
        ExprView::If(c, t, f) => {
            let next = count + 1 + demand_apply(k);
            lemma_reified_keeps_free(k, count);
            lemma_kont_free_below(k, count);
            lemma_names_below_more(*c, count, next);
            lemma_names_below_more(*t, count, next);
            lemma_names_below_more(*f, count, next);
            lemma_rest_keeps_free(*c, KontView::Branch(*t, *f, reified(k, count)), next);
            assert(comp_free(cps_tk(e, k, count)) =~= free_ids(e) + kont_free(k));
        },
        ExprView::App(f, a) => {
            let next = count + 1 + demand_apply(k);
            lemma_reified_keeps_free(k, count);
            lemma_kont_free_below(k, count);
            lemma_names_below_more(*f, count, next);
            lemma_names_below_more(*a, count, next);
            lemma_rest_keeps_free(*f, KontView::AppFun(*a, reified(k, count)), next);
            assert(comp_free(cps_tk(e, k, count)) =~= free_ids(e) + kont_free(k));
        },
        _ => {
            let next = count + demand_m(e);
            lemma_atom_keeps_free(e, count);
            lemma_free_ids_below(e, count);
            lemma_kont_below_more(k, count, next);
            lemma_apply_keeps_free(k, cps_m(e, count), next);
            assert(comp_free(cps_tk(e, k, count)) =~= free_ids(e) + kont_free(k));
        },
    }
}

proof fn lemma_apply_keeps_free(k: KontView, a: AExpView, count: nat)
    requires
        kont_below(k, count),
        all_below(atom_free(a), count),
    ensures
        comp_free(cps_apply(k, a, count)) == kont_free(k) + atom_free(a),
    decreases kont_weight(k), 1nat,
{
    match k {
        KontView::SetThenK(v, rest) => {
            lemma_apply_keeps_free(*rest, void_atom(), count);
            assert(comp_free(cps_apply(k, a, count)) =~= kont_free(k) + atom_free(a));
        },
        KontView::SetThenC(v, c) => {
            let then = CExpView::Call1(Box::new(c), Box::new(void_atom()));
            assert(atom_free(void_atom()) =~= Set::empty());
            assert(comp_free(then) =~= atom_free(c));
            assert(cps_apply(k, a, count) == CExpView::SetThen(v, Box::new(a), Box::new(then)));
            assert(comp_free(cps_apply(k, a, count)) =~= kont_free(k) + atom_free(a));
        },
        KontView::Branch(t, e, c) => {
            let next = count + demand_tc(t);
            lemma_comp_keeps_free(t, c, count);
            lemma_names_below_more(e, count, next);
            lemma_comp_keeps_free(e, c, next);
            assert(comp_free(cps_apply(k, a, count)) =~= kont_free(k) + atom_free(a));
        },
        KontView::AppFun(e, c) => {
            lemma_rest_keeps_free(e, KontView::AppArg(a, c), count);
            assert(comp_free(cps_apply(k, a, count)) =~= kont_free(k) + atom_free(a));
        },
        KontView::AppArg(f, c) => {
            assert(comp_free(cps_apply(k, a, count)) =~= kont_free(k) + atom_free(a));
        },
    }
}

/// The translation to continuation-passing form keeps the free variables
/// and captures none: where every variable of `e`, and every free
/// variable of the continuation `c`, has an identifier below `count`,
/// the variables free in the computation that evaluates `e` and hands
/// its value to `c` are those free in `e` and those free in `c`. None of
/// the variables that the translation invents is among them, and none of
/// the binders it invents binds a variable of `e` or of `c`.
pub proof fn lemma_cps_keeps_free_variables(e: ExprView, c: AExpView, count: nat)
    requires
        names_below(e, count),
        all_below(atom_free(c), count),
    ensures
        comp_free(cps_tc(e, c, count)) == free_ids(e) + atom_free(c),
{
    lemma_comp_keeps_free(e, c, count);
}

/// The same of an atomic expression: the translated function has the
/// free variables of the function.
pub proof fn lemma_cps_atom_keeps_free_variables(e: ExprView, count: nat)
    requires
        is_atomic(e),
        names_below(e, count),
    ensures
        atom_free(cps_m(e, count)) == free_ids(e),
{
    lemma_atom_keeps_free(e, count);
}

/// The flat form of an atomic expression and of a computation has the
/// free variables of the term it was made of.
pub proof fn lemma_flat_keeps_free_variables(a: AExpView, c: CExpView)
    ensures
        flat_free(flat_a(a)) == atom_free(a),
        flat_free(flat_c(c)) == comp_free(c),
{
    lemma_flat_atom_free(a);
    lemma_flat_comp_free(c);
}

/// A program that is resolved and then translated has no free variable
/// but those of its continuation: where every name of `b` is used in
/// scope, `b` is resolved with the supply of fresh names at `count`, and
/// the result is translated with the supply as resolving left it, the
/// variables free in the translated program, and in its flat form, are
/// those free in the continuation `c`.
pub proof fn lemma_translated_program_closed(b: BExprView, c: AExpView, count: nat)
    requires
        first_unbound(b, Seq::empty()) is None,
        all_below(atom_free(c), count + bind_demand(b)),
    ensures
        comp_free(cps_tc(bind_tree(b, Seq::empty(), count), c, count + bind_demand(b)))
            == atom_free(c),
        flat_free(flat_c(cps_tc(bind_tree(b, Seq::empty(), count), c, count + bind_demand(b))))
            == atom_free(c),
{
    let bound = bind_tree(b, Seq::empty(), count);
    let next = count + bind_demand(b);
    lemma_program_below(b, count);
    lemma_program_closed(b, count);
    lemma_comp_keeps_free(bound, c, next);
    assert(free_ids(bound) + atom_free(c) =~= atom_free(c));
    lemma_flat_comp_free(cps_tc(bound, c, next));
}

proof fn lemma_flat_atom_free(a: AExpView)
    ensures
        flat_free(flat_a(a)) == atom_free(a),
    decreases a,
{
    match a {
        AExpView::Lam2(_, _, body) => {
            lemma_flat_comp_free(*body);
        },
        AExpView::Lam1(_, body) => {
            lemma_flat_comp_free(*body);
        },
        _ => {},
    }
}

proof fn lemma_flat_comp_free(c: CExpView)
    ensures
        flat_free(flat_c(c)) == comp_free(c),
    decreases c,
{
    match c {
        CExpView::If(a, t, e) => {
            lemma_flat_atom_free(*a);
            lemma_flat_comp_free(*t);
            lemma_flat_comp_free(*e);
        },
        CExpView::SetThen(_, a, then) => {
            lemma_flat_atom_free(*a);
            lemma_flat_comp_free(*then);
        },
        CExpView::Call1(k, a) => {
            lemma_flat_atom_free(*k);
            lemma_flat_atom_free(*a);
        },
        CExpView::Call2(f, a, k) => {
            lemma_flat_atom_free(*f);
            lemma_flat_atom_free(*a);
            lemma_flat_atom_free(*k);
        },
    }
}

} // verus!
