use crate::flat_expr::{is_computation, is_value, FExpr, FExprView};
use crate::lifted_expr::{
    bodies_in_tail_form, dense, lambda_total, lambdas_view, lemma_refs_below_more,
    lifted_computation, lifted_value, refs_below, table_wf, LExpr, LExprView, LiftedLambda,
    LiftedLambdaView,
};
use crate::names::{contains_var, has_id, vars_view, FreeVar, FreeVarView};
use std::collections::HashMap;
use vstd::prelude::*;

verus! {

/// The list `acc` with the variable `v` noted: added at the end unless a
/// binder in `shadow` hides it or the list has it already.
pub open spec fn note_var(v: FreeVarView, shadow: Seq<FreeVarView>, acc: Seq<FreeVarView>) -> Seq<
    FreeVarView,
> {
    if has_id(shadow, v.id) || has_id(acc, v.id) {
        acc
    } else {
        acc.push(v)
    }
}

/// The list `acc` followed by the variables that occur free in `f` under
/// the binders `shadow`, each once, in the order of their first use.
pub open spec fn free_list(f: FExprView, shadow: Seq<FreeVarView>, acc: Seq<FreeVarView>) -> Seq<
    FreeVarView,
>
    decreases f,
{
    match f {
        FExprView::Var(v) => note_var(v, shadow, acc),
        FExprView::Lit(_) => acc,
        FExprView::BuiltinIdent(_) => acc,
        FExprView::LamOne(p, body) => free_list(*body, shadow.push(p), acc),
        FExprView::LamTwo(p, k, body) => free_list(*body, shadow.push(p).push(k), acc),
        FExprView::SetThen(v, a, then) => free_list(
            *then,
            shadow,
            free_list(*a, shadow, note_var(v, shadow, acc)),
        ),
        FExprView::If(c, t, e) => free_list(
            *e,
            shadow,
            free_list(*t, shadow, free_list(*c, shadow, acc)),
        ),
        FExprView::CallOne(k, a) => free_list(*a, shadow, free_list(*k, shadow, acc)),
        FExprView::CallTwo(f, a, k) => free_list(
            *k,
            shadow,
            free_list(*a, shadow, free_list(*f, shadow, acc)),
        ),
    }
}

/// The variables that occur free in `f`, each once, in the order of their
/// first use.
pub open spec fn free_vars_of(f: FExprView) -> Seq<FreeVarView> {
    free_list(f, Seq::empty(), Seq::empty())
}

/// The number of functions in `f`.
pub open spec fn lambda_count(f: FExprView) -> nat
    decreases f,
{
    match f {
        FExprView::Var(_) => 0,
        FExprView::Lit(_) => 0,
        FExprView::BuiltinIdent(_) => 0,
        FExprView::LamOne(_, body) => lambda_count(*body) + 1,
        FExprView::LamTwo(_, _, body) => lambda_count(*body) + 1,
        FExprView::SetThen(_, a, then) => lambda_count(*a) + lambda_count(*then),
        FExprView::If(c, t, e) => lambda_count(*c) + lambda_count(*t) + lambda_count(*e),
        FExprView::CallOne(k, a) => lambda_count(*k) + lambda_count(*a),
        FExprView::CallTwo(f, a, k) => lambda_count(*f) + lambda_count(*a) + lambda_count(*k),
    }
}

/// The expression `f` with every function replaced by a reference to its
/// lifted form; the functions of `f` get the identifiers from `next` on,
/// a function after those inside it, and sub-expressions from left to
/// right.
pub open spec fn lift_tree(f: FExprView, next: nat) -> LExprView
    decreases f,
{
    match f {
        FExprView::Var(v) => LExprView::Var(v),
        FExprView::Lit(l) => LExprView::Lit(l),
        FExprView::BuiltinIdent(n) => LExprView::BuiltinIdent(n),
        FExprView::LamOne(_, body) => LExprView::Lifted(next + lambda_count(*body)),
        FExprView::LamTwo(_, _, body) => LExprView::Lifted(next + lambda_count(*body)),
        FExprView::SetThen(v, a, then) => LExprView::SetThen(
            v,
            Box::new(lift_tree(*a, next)),
            Box::new(lift_tree(*then, next + lambda_count(*a))),
        ),
        FExprView::If(c, t, e) => LExprView::If(
            Box::new(lift_tree(*c, next)),
            Box::new(lift_tree(*t, next + lambda_count(*c))),
            Box::new(lift_tree(*e, next + lambda_count(*c) + lambda_count(*t))),
        ),
        FExprView::CallOne(k, a) => LExprView::CallOne(
            Box::new(lift_tree(*k, next)),
            Box::new(lift_tree(*a, next + lambda_count(*k))),
        ),
        FExprView::CallTwo(f, a, k) => LExprView::CallTwo(
            Box::new(lift_tree(*f, next)),
            Box::new(lift_tree(*a, next + lambda_count(*f))),
            Box::new(lift_tree(*k, next + lambda_count(*f) + lambda_count(*a))),
        ),
    }
}

/// The lifted forms of the functions of `f`, in the order of their
/// identifiers, which start at `next`. The free variables of a lifted
/// function are those of its body, its own parameters among them where
/// the body uses them.
pub open spec fn lifted(f: FExprView, next: nat) -> Seq<LiftedLambdaView>
    decreases f,
{
    match f {
        FExprView::Var(_) => Seq::empty(),
        FExprView::Lit(_) => Seq::empty(),
        FExprView::BuiltinIdent(_) => Seq::empty(),
        FExprView::LamOne(p, body) => lifted(*body, next).push(
            LiftedLambdaView {
                id: next + lambda_count(*body),
                params: seq![p],
                freevars: free_vars_of(*body),
                body: lift_tree(*body, next),
            },
        ),
        FExprView::LamTwo(p, k, body) => lifted(*body, next).push(
            LiftedLambdaView {
                id: next + lambda_count(*body),
                params: seq![p, k],
                freevars: free_vars_of(*body),
                body: lift_tree(*body, next),
            },
        ),
        FExprView::SetThen(_, a, then) => lifted(*a, next) + lifted(
            *then,
            next + lambda_count(*a),
        ),
        FExprView::If(c, t, e) => lifted(*c, next) + lifted(*t, next + lambda_count(*c)) + lifted(
            *e,
            next + lambda_count(*c) + lambda_count(*t),
        ),
        FExprView::CallOne(k, a) => lifted(*k, next) + lifted(*a, next + lambda_count(*k)),
        FExprView::CallTwo(f, a, k) => lifted(*f, next) + lifted(*a, next + lambda_count(*f))
            + lifted(*k, next + lambda_count(*f) + lambda_count(*a)),
    }
}

/// Whether the lifted function `l` may stand at position `at` of a table:
/// it carries that identifier, has one or two parameters, and refers in
/// its body only to functions that stand before it.
pub open spec fn entry_wf(l: LiftedLambdaView, at: nat) -> bool {
    &&& l.id == at
    &&& (l.params.len() == 1 || l.params.len() == 2)
    &&& refs_below(l.body, at)
}

/// Whether each of `entries` may stand at its position of a table in
/// which the first of them stands at `next`.
pub open spec fn numbered(entries: Seq<LiftedLambdaView>, next: nat) -> bool {
    forall|i: int| 0 <= i < entries.len() ==> entry_wf(#[trigger] entries[i], (next + i) as nat)
}

proof fn lemma_numbered_join(a: Seq<LiftedLambdaView>, b: Seq<LiftedLambdaView>, next: nat)
    requires
        numbered(a, next),
        numbered(b, next + a.len()),
    ensures
        numbered(a + b, next),
{
    assert forall|i: int| 0 <= i < (a + b).len() implies entry_wf(
        #[trigger] (a + b)[i],
        (next + i) as nat,
    ) by {
        if i >= a.len() {
            assert((a + b)[i] == b[i - a.len()]);
            assert(entry_wf(b[i - a.len()], (next + a.len() + (i - a.len())) as nat));
        } else {
            assert((a + b)[i] == a[i]);
        }
    }
}

proof fn lemma_numbered_push(a: Seq<LiftedLambdaView>, x: LiftedLambdaView, next: nat)
    requires
        numbered(a, next),
        entry_wf(x, next + a.len()),
    ensures
        numbered(a.push(x), next),
{
    assert forall|i: int| 0 <= i < a.push(x).len() implies entry_wf(
        #[trigger] a.push(x)[i],
        (next + i) as nat,
    ) by {
        if i < a.len() {
            assert(a.push(x)[i] == a[i]);
        }
    }
}

/// Lifting numbers the functions of `f` from `next` on without gaps: the
/// lifted functions are as many as the functions of `f`, each may stand at
/// its position of the table, and the lifted expression refers only to
/// functions numbered so far.
pub proof fn lemma_lift_numbering(f: FExprView, next: nat)
    ensures
        lifted(f, next).len() == lambda_count(f),
        refs_below(lift_tree(f, next), next + lambda_count(f)),
        numbered(lifted(f, next), next),
    decreases f,
{
    match f {
        FExprView::Var(_) => {},
        FExprView::Lit(_) => {},
        FExprView::BuiltinIdent(_) => {},
        FExprView::LamOne(p, body) => {
            lemma_lift_numbering(*body, next);
            let entry = LiftedLambdaView {
                id: next + lambda_count(*body),
                params: seq![p],
                freevars: free_vars_of(*body),
                body: lift_tree(*body, next),
            };
            lemma_numbered_push(lifted(*body, next), entry, next);
        },
        FExprView::LamTwo(p, k, body) => {
            lemma_lift_numbering(*body, next);
            let entry = LiftedLambdaView {
                id: next + lambda_count(*body),
                params: seq![p, k],
                freevars: free_vars_of(*body),
                body: lift_tree(*body, next),
            };
            lemma_numbered_push(lifted(*body, next), entry, next);
        },
        FExprView::SetThen(_, a, then) => {
            let n1 = next + lambda_count(*a);
            lemma_lift_numbering(*a, next);
            lemma_lift_numbering(*then, n1);
            lemma_refs_below_more(lift_tree(*a, next), n1, n1 + lambda_count(*then));
            lemma_numbered_join(lifted(*a, next), lifted(*then, n1), next);
        },
        FExprView::CallOne(k, a) => {
            let n1 = next + lambda_count(*k);
            lemma_lift_numbering(*k, next);
            lemma_lift_numbering(*a, n1);
            lemma_refs_below_more(lift_tree(*k, next), n1, n1 + lambda_count(*a));
            lemma_numbered_join(lifted(*k, next), lifted(*a, n1), next);
        },
        FExprView::If(c, t, e) => {
            let n1 = next + lambda_count(*c);
            let n2 = n1 + lambda_count(*t);
            let n3 = n2 + lambda_count(*e);
            lemma_lift_numbering(*c, next);
            lemma_lift_numbering(*t, n1);
            lemma_lift_numbering(*e, n2);
            lemma_refs_below_more(lift_tree(*c, next), n1, n3);
            lemma_refs_below_more(lift_tree(*t, n1), n2, n3);
            lemma_numbered_join(lifted(*c, next), lifted(*t, n1), next);
            lemma_numbered_join(lifted(*c, next) + lifted(*t, n1), lifted(*e, n2), next);
        },
        FExprView::CallTwo(g, a, k) => {
            let n1 = next + lambda_count(*g);
            let n2 = n1 + lambda_count(*a);
            let n3 = n2 + lambda_count(*k);
            lemma_lift_numbering(*g, next);
            lemma_lift_numbering(*a, n1);
            lemma_lift_numbering(*k, n2);
            lemma_refs_below_more(lift_tree(*g, next), n1, n3);
            lemma_refs_below_more(lift_tree(*a, n1), n2, n3);
            lemma_numbered_join(lifted(*g, next), lifted(*a, n1), next);
            lemma_numbered_join(lifted(*g, next) + lifted(*a, n1), lifted(*k, n2), next);
        },
    }
}

/// The functions lifted out of a whole expression make a table, and the
/// lifted expression refers only to functions of that table.
pub proof fn lemma_lift_well_formed(f: FExprView)
    ensures
        table_wf(lifted(f, 0)),
        refs_below(lift_tree(f, 0), lifted(f, 0).len()),
{
    lemma_lift_numbering(f, 0);
    assert forall|i: int| 0 <= i < lifted(f, 0).len() implies {
        &&& (#[trigger] lifted(f, 0)[i]).id == i
        &&& (lifted(f, 0)[i].params.len() == 1 || lifted(f, 0)[i].params.len() == 2)
        &&& refs_below(lifted(f, 0)[i].body, lifted(f, 0).len())
    } by {
        assert(entry_wf(lifted(f, 0)[i], (0 + i) as nat));
        lemma_refs_below_more(lifted(f, 0)[i].body, i as nat, lifted(f, 0).len());
    }
}

fn note(v: &FreeVar, shadow: &Vec<FreeVar>, acc: &mut Vec<FreeVar>)
    ensures
        vars_view(final(acc)@) == note_var(v@, vars_view(shadow@), vars_view(old(acc)@)),
{
    if contains_var(shadow, v) {
        return ;
    }
    if contains_var(acc, v) {
        return ;
    }
    acc.push(v.clone());
    assert(vars_view(acc@) =~= vars_view(old(acc)@).push(v@));
}

fn collect_free(f: &FExpr, shadow: &mut Vec<FreeVar>, acc: &mut Vec<FreeVar>)
    ensures
        final(shadow)@ == old(shadow)@,
        vars_view(final(acc)@) == free_list(f@, vars_view(old(shadow)@), vars_view(old(acc)@)),
    decreases f,
{
    match f {
        FExpr::Var(v) => {
            note(v, shadow, acc);
        },
        FExpr::Lit(_) => {},
        FExpr::BuiltinIdent(_) => {},
        FExpr::LamOne(p, body) => {
            shadow.push(p.clone());
            assert(vars_view(shadow@) =~= vars_view(old(shadow)@).push(p@));
            collect_free(body, shadow, acc);
            shadow.pop();
            assert(shadow@ =~= old(shadow)@);
        },
        FExpr::LamTwo(p, k, body) => {
            shadow.push(p.clone());
            shadow.push(k.clone());
            assert(vars_view(shadow@) =~= vars_view(old(shadow)@).push(p@).push(k@));
            collect_free(body, shadow, acc);
            shadow.pop();
            shadow.pop();
            assert(shadow@ =~= old(shadow)@);
        },
        FExpr::SetThen(v, a, then) => {
            note(v, shadow, acc);
            collect_free(a, shadow, acc);
            collect_free(then, shadow, acc);
        },
        FExpr::If(c, t, e) => {
            collect_free(c, shadow, acc);
            collect_free(t, shadow, acc);
            collect_free(e, shadow, acc);
        },
        FExpr::CallOne(k, a) => {
            collect_free(k, shadow, acc);
            collect_free(a, shadow, acc);
        },
        FExpr::CallTwo(f, a, k) => {
            collect_free(f, shadow, acc);
            collect_free(a, shadow, acc);
            collect_free(k, shadow, acc);
        },
    }
}

fn lifted_ref(id: usize) -> (res: LExpr)
    ensures
        res@ == LExprView::Lifted(id as nat),
{
    LExpr::Lifted(id)
}

fn one_param(p: FreeVar) -> (res: Vec<FreeVar>)
    ensures
        vars_view(res@) == seq![p@],
{
    let res = vec![p];
    assert(vars_view(res@) =~= seq![p@]);
    res
}

fn two_params(p: FreeVar, k: FreeVar) -> (res: Vec<FreeVar>)
    ensures
        vars_view(res@) == seq![p@, k@],
{
    let res = vec![p, k];
    assert(vars_view(res@) =~= seq![p@, k@]);
    res
}

fn add_lambda(
    table: &mut HashMap<usize, LiftedLambda>,
    params: Vec<FreeVar>,
    freevars: Vec<FreeVar>,
    body: LExpr,
) -> (id: usize)
    requires
        dense(old(table)@),
    ensures
        dense(final(table)@),
        id == old(table)@.len(),
        lambdas_view(final(table)@) == lambdas_view(old(table)@).push(
            LiftedLambdaView {
                id: id as nat,
                params: vars_view(params@),
                freevars: vars_view(freevars@),
                body: body@,
            },
        ),
        final(table)@.len() == old(table)@.len() + 1,
{
    broadcast use vstd::std_specs::hash::group_hash_axioms;

    let id = lambda_total(table);
    let lambda = LiftedLambda::new(id, params, freevars, Box::new(body));
    let ghost entry = lambda@;
    table.insert(id, lambda);
    assert(table@.len() == old(table)@.len() + 1);
    assert(lambdas_view(table@) =~= lambdas_view(old(table)@).push(entry));
    id
}

impl FExpr {
    /// The variables that occur free in this expression, each once, in the
    /// order of their first use.
    pub fn free_vars(&self) -> (res: Vec<FreeVar>)
        ensures
            vars_view(res@) == free_vars_of(self@),
    {
        let mut shadow: Vec<FreeVar> = Vec::new();
        let mut acc: Vec<FreeVar> = Vec::new();
        assert(vars_view(shadow@) =~= Seq::empty());
        assert(vars_view(acc@) =~= Seq::empty());
        collect_free(self, &mut shadow, &mut acc);
        acc
    }

    /// Lifts every function of this expression to the top level: see
    /// [`lift_tree`] and [`lifted`]. The lifted expression has the free
    /// variables of this one, and each lifted function lists, each once,
    /// exactly the variables free in its body.
    pub fn lift_lambdas(self) -> (res: (LExpr, HashMap<usize, LiftedLambda>))
        ensures
            dense(res.1@),
            res.0@ == lift_tree(self@, 0),
            lambdas_view(res.1@) == lifted(self@, 0),
            table_wf(lambdas_view(res.1@)),
            refs_below(res.0@, res.1@.len() as nat),
            is_computation(self@) ==> lifted_computation(res.0@) && bodies_in_tail_form(
                lambdas_view(res.1@),
            ),
            lifted_free(res.0@, lambdas_view(res.1@)) == flat_free(self@),
            forall|i: int|
                0 <= i < res.1@.len() ==> {
                    &&& entry_exact(#[trigger] lambdas_view(res.1@)[i], lambdas_view(res.1@))
                    &&& entry_closed(lambdas_view(res.1@)[i], lambdas_view(res.1@))
                    &&& distinct_ids(lambdas_view(res.1@)[i].freevars)
                },
    {
        proof {
            lemma_lift_well_formed(self@);
            lemma_lift_closed(self@);
            lemma_lift_exact(self@);
            lemma_lift_distinct(self@, 0);
            if is_computation(self@) {
                lemma_lift_keeps_tail_form(self@, 0);
            }
        }
        let mut table: HashMap<usize, LiftedLambda> = HashMap::new();
        assert(lambdas_view(table@) =~= Seq::empty());
        let root = self.lift_lambdas_internal(&mut table);
        assert(lambdas_view(table@) =~= lifted(self@, 0));
        (root, table)
    }

    fn lift_lambdas_internal(self, table: &mut HashMap<usize, LiftedLambda>) -> (res: LExpr)
        requires
            dense(old(table)@),
        ensures
            dense(final(table)@),
            res@ == lift_tree(self@, old(table)@.len()),
            lambdas_view(final(table)@) == lambdas_view(old(table)@) + lifted(
                self@,
                old(table)@.len(),
            ),
            final(table)@.len() == old(table)@.len() + lambda_count(self@),
        decreases self,
    {
        let ghost before = lambdas_view(table@);
        let ghost next = table@.len();
        match self {
            FExpr::LamOne(p, body) => {
                let free = body.free_vars();
                let inner = (*body).lift_lambdas_internal(table);
                let id = add_lambda(table, one_param(p), free, inner);
                assert(lambdas_view(table@) =~= before + lifted(self@, next));
                lifted_ref(id)
            },
            FExpr::LamTwo(p, k, body) => {
                let free = body.free_vars();
                let inner = (*body).lift_lambdas_internal(table);
                let id = add_lambda(table, two_params(p, k), free, inner);
                assert(lambdas_view(table@) =~= before + lifted(self@, next));
                lifted_ref(id)
            },
            FExpr::Var(v) => {
                assert(before =~= before + lifted(self@, next));
                LExpr::Var(v)
            },
            FExpr::Lit(l) => {
                assert(before =~= before + lifted(self@, next));
                LExpr::Lit(l)
            },
            FExpr::BuiltinIdent(n) => {
                assert(before =~= before + lifted(self@, next));
                LExpr::BuiltinIdent(n)
            },
            FExpr::SetThen(v, a, then) => {
                let a2 = (*a).lift_lambdas_internal(table);
                let then2 = (*then).lift_lambdas_internal(table);
                assert(lambdas_view(table@) =~= before + lifted(self@, next));
                LExpr::SetThen(v, Box::new(a2), Box::new(then2))
            },
            FExpr::CallOne(k, a) => {
                let k2 = (*k).lift_lambdas_internal(table);
                let a2 = (*a).lift_lambdas_internal(table);
                assert(lambdas_view(table@) =~= before + lifted(self@, next));
                LExpr::CallOne(Box::new(k2), Box::new(a2))
            },
            FExpr::CallTwo(f, a, k) => {
                let f2 = (*f).lift_lambdas_internal(table);
                let a2 = (*a).lift_lambdas_internal(table);
                let k2 = (*k).lift_lambdas_internal(table);
                assert(lambdas_view(table@) =~= before + lifted(self@, next));
                LExpr::CallTwo(Box::new(f2), Box::new(a2), Box::new(k2))
            },
            FExpr::If(c, t, e) => {
                let c2 = (*c).lift_lambdas_internal(table);
                let t2 = (*t).lift_lambdas_internal(table);
                let e2 = (*e).lift_lambdas_internal(table);
                assert(lambdas_view(table@) =~= before + lifted(self@, next));
                LExpr::If(Box::new(c2), Box::new(t2), Box::new(e2))
            },
        }
    }
}


/// The identifiers of the variables `vars`, as a set.
pub open spec fn id_set(vars: Seq<FreeVarView>) -> Set<nat> {
    Set::new(|id: nat| has_id(vars, id))
}

/// The identifiers of the variables that occur free in the flat
/// expression `f`.
pub open spec fn flat_free(f: FExprView) -> Set<nat>
    decreases f,
{
    match f {
        FExprView::Var(v) => set![v.id],
        FExprView::Lit(_) => Set::empty(),
        FExprView::BuiltinIdent(_) => Set::empty(),
        FExprView::LamOne(p, body) => flat_free(*body).remove(p.id),
        FExprView::LamTwo(p, k, body) => flat_free(*body).remove(p.id).remove(k.id),
        FExprView::SetThen(v, a, then) => (flat_free(*a) + flat_free(*then)).insert(v.id),
        FExprView::If(c, t, e) => flat_free(*c) + flat_free(*t) + flat_free(*e),
        FExprView::CallOne(k, a) => flat_free(*k) + flat_free(*a),
        FExprView::CallTwo(g, a, k) => flat_free(*g) + flat_free(*a) + flat_free(*k),
    }
}

/// The identifiers of the variables that occur free in the lifted
/// expression `e`: a reference to a lifted function stands for the
/// variables that its closure takes from the environment, which are its
/// free variables without its own parameters.
pub open spec fn lifted_free(e: LExprView, table: Seq<LiftedLambdaView>) -> Set<nat>
    decreases e,
{
    match e {
        LExprView::Var(v) => set![v.id],
        LExprView::Lit(_) => Set::empty(),
        LExprView::BuiltinIdent(_) => Set::empty(),
        LExprView::Lifted(id) => if id < table.len() {
            id_set(table[id as int].freevars).difference(id_set(table[id as int].params))
        } else {
            Set::empty()
        },
        LExprView::SetThen(v, a, then) => (lifted_free(*a, table) + lifted_free(
            *then,
            table,
        )).insert(v.id),
        LExprView::If(c, t, e) => lifted_free(*c, table) + lifted_free(*t, table) + lifted_free(
            *e,
            table,
        ),
        LExprView::CallOne(k, a) => lifted_free(*k, table) + lifted_free(*a, table),
        LExprView::CallTwo(g, a, k) => lifted_free(*g, table) + lifted_free(*a, table)
            + lifted_free(*k, table),
    }
}

/// Whether the body of the lifted function `l` is closed: every variable
/// free in it is a parameter of `l` or one of its free variables.
pub open spec fn entry_closed(l: LiftedLambdaView, table: Seq<LiftedLambdaView>) -> bool {
    lifted_free(l.body, table).subset_of(id_set(l.params) + id_set(l.freevars))
}

/// Whether the free variables of the lifted function `l` are exactly the
/// variables free in its body, a reference to a lifted function counted
/// for what its closure takes from the environment.
pub open spec fn entry_exact(l: LiftedLambdaView, table: Seq<LiftedLambdaView>) -> bool {
    lifted_free(l.body, table) == id_set(l.freevars)
}

/// The identifiers of the variables that a closure of `l` takes from the
/// environment in which it is made: the free variables of `l` without its
/// own parameters.
pub open spec fn captured(l: LiftedLambdaView) -> Set<nat> {
    id_set(l.freevars).difference(id_set(l.params))
}

/// Whether the lifted expression `e` holds a reference to the lifted
/// function `j`.
pub open spec fn refers_to(e: LExprView, j: nat) -> bool
    decreases e,
{
    match e {
        LExprView::Var(_) => false,
        LExprView::Lit(_) => false,
        LExprView::BuiltinIdent(_) => false,
        LExprView::Lifted(id) => id == j,
        LExprView::SetThen(_, a, then) => refers_to(*a, j) || refers_to(*then, j),
        LExprView::If(c, t, e) => refers_to(*c, j) || refers_to(*t, j) || refers_to(*e, j),
        LExprView::CallOne(k, a) => refers_to(*k, j) || refers_to(*a, j),
        LExprView::CallTwo(g, a, k) => refers_to(*g, j) || refers_to(*a, j) || refers_to(*k, j),
    }
}

/// Whether `table` holds the lifted functions of `f` from position `next`
/// on.
pub open spec fn embedded(table: Seq<LiftedLambdaView>, f: FExprView, next: nat) -> bool {
    &&& next + lambda_count(f) <= table.len()
    &&& forall|j: int|
        0 <= j < lambda_count(f) ==> #[trigger] table[next + j] == lifted(f, next)[j]
}

proof fn lemma_has_id_push(vars: Seq<FreeVarView>, v: FreeVarView, id: nat)
    ensures
        has_id(vars.push(v), id) <==> has_id(vars, id) || v.id == id,
{
    let more = vars.push(v);
    if has_id(vars, id) {
        let i = choose|i: int| 0 <= i < vars.len() && vars[i].id == id;
        assert(more[i].id == id);
    }
    if v.id == id {
        assert(more[vars.len() as int].id == id);
    }
    if has_id(more, id) {
        let i = choose|i: int| 0 <= i < more.len() && more[i].id == id;
        if i < vars.len() {
            assert(vars[i].id == id);
        }
    }
}

proof fn lemma_id_set_push(vars: Seq<FreeVarView>, v: FreeVarView)
    ensures
        id_set(vars.push(v)) == id_set(vars).insert(v.id),
{
    assert forall|id: nat| id_set(vars.push(v)).contains(id) <==> id_set(vars).insert(
        v.id,
    ).contains(id) by {
        lemma_has_id_push(vars, v, id);
    }
    assert(id_set(vars.push(v)) =~= id_set(vars).insert(v.id));
}

proof fn lemma_note_var_ids(v: FreeVarView, shadow: Seq<FreeVarView>, acc: Seq<FreeVarView>)
    ensures
        id_set(note_var(v, shadow, acc)) == id_set(acc) + set![v.id].difference(id_set(shadow)),
{
    if !(has_id(shadow, v.id) || has_id(acc, v.id)) {
        lemma_id_set_push(acc, v);
    }
    assert(id_set(note_var(v, shadow, acc)) =~= id_set(acc) + set![v.id].difference(
        id_set(shadow),
    ));
}

/// The list of free variables holds exactly the free variables: the
/// identifiers of [`free_list`] are those of `acc` and those free in `f`
/// that no binder of `shadow` hides.
pub proof fn lemma_free_list_ids(f: FExprView, shadow: Seq<FreeVarView>, acc: Seq<FreeVarView>)
    ensures
        id_set(free_list(f, shadow, acc)) == id_set(acc) + flat_free(f).difference(id_set(shadow)),
    decreases f,
{
    let goal = id_set(acc) + flat_free(f).difference(id_set(shadow));
    match f {
        FExprView::Var(v) => {
            lemma_note_var_ids(v, shadow, acc);
        },
        FExprView::Lit(_) => {
            assert(id_set(acc) =~= goal);
        },
        FExprView::BuiltinIdent(_) => {
            assert(id_set(acc) =~= goal);
        },
        FExprView::LamOne(p, body) => {
            lemma_free_list_ids(*body, shadow.push(p), acc);
            lemma_id_set_push(shadow, p);
            assert(id_set(free_list(f, shadow, acc)) =~= goal);
        },
        FExprView::LamTwo(p, k, body) => {
            lemma_free_list_ids(*body, shadow.push(p).push(k), acc);
            lemma_id_set_push(shadow, p);
            lemma_id_set_push(shadow.push(p), k);
            assert(id_set(free_list(f, shadow, acc)) =~= goal);
        },
        FExprView::SetThen(v, a, then) => {
            let a1 = note_var(v, shadow, acc);
            let a2 = free_list(*a, shadow, a1);
            lemma_note_var_ids(v, shadow, acc);
            lemma_free_list_ids(*a, shadow, a1);
            lemma_free_list_ids(*then, shadow, a2);
            assert(id_set(free_list(f, shadow, acc)) =~= goal);
        },
        FExprView::If(c, t, e) => {
            let a1 = free_list(*c, shadow, acc);
            let a2 = free_list(*t, shadow, a1);
            lemma_free_list_ids(*c, shadow, acc);
            lemma_free_list_ids(*t, shadow, a1);
            lemma_free_list_ids(*e, shadow, a2);
            assert(id_set(free_list(f, shadow, acc)) =~= goal);
        },
        FExprView::CallOne(k, a) => {
            let a1 = free_list(*k, shadow, acc);
            lemma_free_list_ids(*k, shadow, acc);
            lemma_free_list_ids(*a, shadow, a1);
            assert(id_set(free_list(f, shadow, acc)) =~= goal);
        },
        FExprView::CallTwo(g, a, k) => {
            let a1 = free_list(*g, shadow, acc);
            let a2 = free_list(*a, shadow, a1);
            lemma_free_list_ids(*g, shadow, acc);
            lemma_free_list_ids(*a, shadow, a1);
            lemma_free_list_ids(*k, shadow, a2);
            assert(id_set(free_list(f, shadow, acc)) =~= goal);
        },
    }
}

proof fn lemma_free_vars_ids(f: FExprView)
    ensures
        id_set(free_vars_of(f)) == flat_free(f),
{
    let none = Seq::<FreeVarView>::empty();
    lemma_free_list_ids(f, none, none);
    assert(id_set(none) =~= Set::empty());
    assert(id_set(free_vars_of(f)) =~= flat_free(f));
}

proof fn lemma_embedded_two(table: Seq<LiftedLambdaView>, a: FExprView, b: FExprView, next: nat)
    requires
        next + lambda_count(a) + lambda_count(b) <= table.len(),
        forall|j: int|
            0 <= j < lambda_count(a) + lambda_count(b) ==> #[trigger] table[next + j] == (lifted(
                a,
                next,
            ) + lifted(b, next + lambda_count(a)))[j],
    ensures
        embedded(table, a, next),
        embedded(table, b, next + lambda_count(a)),
{
    lemma_lift_numbering(a, next);
    lemma_lift_numbering(b, next + lambda_count(a));
    let n1 = next + lambda_count(a);
    assert forall|j: int| 0 <= j < lambda_count(a) implies #[trigger] table[next + j] == lifted(
        a,
        next,
    )[j] by {}
    assert forall|j: int| 0 <= j < lambda_count(b) implies #[trigger] table[n1 + j] == lifted(
        b,
        n1,
    )[j] by {
        let i = lambda_count(a) + j;
        assert(table[next + i] == (lifted(a, next) + lifted(b, n1))[i]);
    }
}

proof fn lemma_embedded_three(
    table: Seq<LiftedLambdaView>,
    a: FExprView,
    b: FExprView,
    c: FExprView,
    next: nat,
)
    requires
        next + lambda_count(a) + lambda_count(b) + lambda_count(c) <= table.len(),
        forall|j: int|
            0 <= j < lambda_count(a) + lambda_count(b) + lambda_count(c) ==> #[trigger] table[next
                + j] == (lifted(a, next) + lifted(b, next + lambda_count(a)) + lifted(
                c,
                next + lambda_count(a) + lambda_count(b),
            ))[j],
    ensures
        embedded(table, a, next),
        embedded(table, b, next + lambda_count(a)),
        embedded(table, c, next + lambda_count(a) + lambda_count(b)),
{
    lemma_lift_numbering(a, next);
    lemma_lift_numbering(b, next + lambda_count(a));
    lemma_lift_numbering(c, next + lambda_count(a) + lambda_count(b));
    let n1 = next + lambda_count(a);
    let n2 = n1 + lambda_count(b);
    let all = lifted(a, next) + lifted(b, n1) + lifted(c, n2);
    assert forall|j: int| 0 <= j < lambda_count(a) implies #[trigger] table[next + j] == lifted(
        a,
        next,
    )[j] by {
        assert(table[next + j] == all[j]);
    }
    assert forall|j: int| 0 <= j < lambda_count(b) implies #[trigger] table[n1 + j] == lifted(
        b,
        n1,
    )[j] by {
        let i = lambda_count(a) + j;
        assert(table[next + i] == all[i]);
    }
    assert forall|j: int| 0 <= j < lambda_count(c) implies #[trigger] table[n2 + j] == lifted(
        c,
        n2,
    )[j] by {
        let i = lambda_count(a) + lambda_count(b) + j;
        assert(table[next + i] == all[i]);
    }
}

/// The entry that lifting adds for a function of the parameters `params`
/// and the body `body`, numbered from `next` on.
pub open spec fn lam_entry(params: Seq<FreeVarView>, body: FExprView, next: nat) -> LiftedLambdaView {
    LiftedLambdaView {
        id: next + lambda_count(body),
        params,
        freevars: free_vars_of(body),
        body: lift_tree(body, next),
    }
}

proof fn lemma_embedded_lam(
    table: Seq<LiftedLambdaView>,
    f: FExprView,
    params: Seq<FreeVarView>,
    body: FExprView,
    next: nat,
)
    requires
        embedded(table, f, next),
        lambda_count(f) == lambda_count(body) + 1,
        lifted(f, next) == lifted(body, next).push(lam_entry(params, body, next)),
    ensures
        embedded(table, body, next),
        table[(next + lambda_count(body)) as int] == lam_entry(params, body, next),
{
    lemma_lift_numbering(body, next);
    assert forall|j: int| 0 <= j < lambda_count(body) implies #[trigger] table[next + j]
        == lifted(body, next)[j] by {
        assert(table[next + j] == lifted(f, next)[j]);
    }
    let at = lambda_count(body) as int;
    assert(table[next + at] == lifted(f, next)[at]);
}

proof fn lemma_one_id(p: FreeVarView)
    ensures
        id_set(seq![p]) == set![p.id],
{
    assert forall|id: nat| id_set(seq![p]).contains(id) <==> set![p.id].contains(id) by {
        if id == p.id {
            assert(seq![p][0].id == id);
        }
    }
    assert(id_set(seq![p]) =~= set![p.id]);
}

proof fn lemma_two_ids(p: FreeVarView, k: FreeVarView)
    ensures
        id_set(seq![p, k]) == set![p.id, k.id],
{
    assert forall|id: nat| id_set(seq![p, k]).contains(id) <==> set![p.id, k.id].contains(id) by {
        if id == p.id {
            assert(seq![p, k][0].id == id);
        }
        if id == k.id {
            assert(seq![p, k][1].id == id);
        }
    }
    assert(id_set(seq![p, k]) =~= set![p.id, k.id]);
}

/// Lifting keeps the free variables: in a table that holds the lifted
/// functions of `f`, the lifted expression has the free variables of `f`.
pub proof fn lemma_lifted_free(f: FExprView, next: nat, table: Seq<LiftedLambdaView>)
    requires
        embedded(table, f, next),
    ensures
        lifted_free(lift_tree(f, next), table) == flat_free(f),
    decreases f,
{
    match f {
        FExprView::Var(_) => {},
        FExprView::Lit(_) => {},
        FExprView::BuiltinIdent(_) => {},
        FExprView::LamOne(p, body) => {
            lemma_embedded_lam(table, f, seq![p], *body, next);
            lemma_free_vars_ids(*body);
            lemma_one_id(p);
            assert(lifted_free(lift_tree(f, next), table) =~= flat_free(f));
        },
        FExprView::LamTwo(p, k, body) => {
            lemma_embedded_lam(table, f, seq![p, k], *body, next);
            lemma_free_vars_ids(*body);
            lemma_two_ids(p, k);
            assert(lifted_free(lift_tree(f, next), table) =~= flat_free(f));
        },
        FExprView::SetThen(_, a, then) => {
            lemma_embedded_two(table, *a, *then, next);
            lemma_lifted_free(*a, next, table);
            lemma_lifted_free(*then, next + lambda_count(*a), table);
        },
        FExprView::CallOne(k, a) => {
            lemma_embedded_two(table, *k, *a, next);
            lemma_lifted_free(*k, next, table);
            lemma_lifted_free(*a, next + lambda_count(*k), table);
        },
        FExprView::If(c, t, e) => {
            lemma_embedded_three(table, *c, *t, *e, next);
            lemma_lifted_free(*c, next, table);
            lemma_lifted_free(*t, next + lambda_count(*c), table);
            lemma_lifted_free(*e, next + lambda_count(*c) + lambda_count(*t), table);
        },
        FExprView::CallTwo(g, a, k) => {
            lemma_embedded_three(table, *g, *a, *k, next);
            lemma_lifted_free(*g, next, table);
            lemma_lifted_free(*a, next + lambda_count(*g), table);
            lemma_lifted_free(*k, next + lambda_count(*g) + lambda_count(*a), table);
        },
    }
}

/// Whether each of the `count` entries of `table` from position `from` on
/// has exactly the free variables of its body.
pub open spec fn range_exact(table: Seq<LiftedLambdaView>, from: nat, count: nat) -> bool {
    forall|j: int| 0 <= j < count ==> entry_exact(#[trigger] table[from + j], table)
}

proof fn lemma_range_join(table: Seq<LiftedLambdaView>, from: nat, a: nat, b: nat)
    requires
        range_exact(table, from, a),
        range_exact(table, from + a, b),
    ensures
        range_exact(table, from, a + b),
{
    assert forall|j: int| 0 <= j < a + b implies entry_exact(
        #[trigger] table[from + j],
        table,
    ) by {
        if j >= a {
            assert(table[from + j] == table[(from + a) + (j - a)]);
        }
    }
}

proof fn lemma_range_one_more(table: Seq<LiftedLambdaView>, from: nat, a: nat)
    requires
        range_exact(table, from, a),
        entry_exact(table[(from + a) as int], table),
    ensures
        range_exact(table, from, a + 1),
{
    assert forall|j: int| 0 <= j < a + 1 implies entry_exact(
        #[trigger] table[from + j],
        table,
    ) by {
        if j == a {
            assert(table[from + j] == table[(from + a) as int]);
        }
    }
}

proof fn lemma_lam_exact(
    table: Seq<LiftedLambdaView>,
    params: Seq<FreeVarView>,
    body: FExprView,
    next: nat,
)
    requires
        embedded(table, body, next),
    ensures
        entry_exact(lam_entry(params, body, next), table),
{
    lemma_lifted_free(body, next, table);
    lemma_free_vars_ids(body);
}

proof fn lemma_entries_exact(f: FExprView, next: nat, table: Seq<LiftedLambdaView>)
    requires
        embedded(table, f, next),
    ensures
        range_exact(table, next, lambda_count(f)),
    decreases f,
{
    match f {
        FExprView::Var(_) => {},
        FExprView::Lit(_) => {},
        FExprView::BuiltinIdent(_) => {},
        FExprView::LamOne(p, body) => {
            lemma_embedded_lam(table, f, seq![p], *body, next);
            lemma_entries_exact(*body, next, table);
            lemma_lam_exact(table, seq![p], *body, next);
            lemma_range_one_more(table, next, lambda_count(*body));
        },
        FExprView::LamTwo(p, k, body) => {
            lemma_embedded_lam(table, f, seq![p, k], *body, next);
            lemma_entries_exact(*body, next, table);
            lemma_lam_exact(table, seq![p, k], *body, next);
            lemma_range_one_more(table, next, lambda_count(*body));
        },
        FExprView::SetThen(_, a, then) => {
            lemma_embedded_two(table, *a, *then, next);
            lemma_entries_exact(*a, next, table);
            lemma_entries_exact(*then, next + lambda_count(*a), table);
            lemma_range_join(table, next, lambda_count(*a), lambda_count(*then));
        },
        FExprView::CallOne(k, a) => {
            lemma_embedded_two(table, *k, *a, next);
            lemma_entries_exact(*k, next, table);
            lemma_entries_exact(*a, next + lambda_count(*k), table);
            lemma_range_join(table, next, lambda_count(*k), lambda_count(*a));
        },
        FExprView::If(c, t, e) => {
            lemma_embedded_three(table, *c, *t, *e, next);
            lemma_entries_exact(*c, next, table);
            lemma_entries_exact(*t, next + lambda_count(*c), table);
            lemma_entries_exact(*e, next + lambda_count(*c) + lambda_count(*t), table);
            lemma_range_join(table, next, lambda_count(*c), lambda_count(*t));
            lemma_range_join(
                table,
                next,
                lambda_count(*c) + lambda_count(*t),
                lambda_count(*e),
            );
        },
        FExprView::CallTwo(g, a, k) => {
            lemma_embedded_three(table, *g, *a, *k, next);
            lemma_entries_exact(*g, next, table);
            lemma_entries_exact(*a, next + lambda_count(*g), table);
            lemma_entries_exact(*k, next + lambda_count(*g) + lambda_count(*a), table);
            lemma_range_join(table, next, lambda_count(*g), lambda_count(*a));
            lemma_range_join(
                table,
                next,
                lambda_count(*g) + lambda_count(*a),
                lambda_count(*k),
            );
        },
    }
}

/// Lifted functions are closed: in the table of the functions lifted out
/// of `f`, every variable free in the body of a lifted function is one of
/// its parameters or one of its free variables; and the lifted root has
/// the free variables of `f`.
pub proof fn lemma_lift_closed(f: FExprView)
    ensures
        forall|i: int|
            0 <= i < lifted(f, 0).len() ==> entry_closed(#[trigger] lifted(f, 0)[i], lifted(f, 0)),
        lifted_free(lift_tree(f, 0), lifted(f, 0)) == flat_free(f),
{
    let table = lifted(f, 0);
    lemma_lift_numbering(f, 0);
    assert(embedded(table, f, 0)) by {
        assert forall|j: int| 0 <= j < lambda_count(f) implies #[trigger] table[0 + j] == lifted(
            f,
            0,
        )[j] by {}
    }
    lemma_entries_exact(f, 0, table);
    lemma_lifted_free(f, 0, table);
    assert forall|i: int| 0 <= i < table.len() implies entry_closed(#[trigger] table[i], table) by {
        assert(table[i] == table[0 + i]);
        assert(entry_exact(table[0 + i], table));
    }
}

/// The free variables of a lifted function are those of its body: in
/// the table of the functions lifted out of `f`, the variables free in
/// the body of a lifted function, a reference counted for what its
/// closure takes from the environment, are exactly the free variables of
/// that function.
pub proof fn lemma_lift_exact(f: FExprView)
    ensures
        forall|i: int|
            0 <= i < lifted(f, 0).len() ==> entry_exact(#[trigger] lifted(f, 0)[i], lifted(f, 0)),
{
    let table = lifted(f, 0);
    lemma_lift_numbering(f, 0);
    assert(embedded(table, f, 0)) by {
        assert forall|j: int| 0 <= j < lambda_count(f) implies #[trigger] table[0 + j] == lifted(
            f,
            0,
        )[j] by {}
    }
    lemma_entries_exact(f, 0, table);
    assert forall|i: int| 0 <= i < table.len() implies entry_exact(#[trigger] table[i], table) by {
        assert(table[i] == table[0 + i]);
    }
}

/// What a referenced function captures is free where the reference
/// stands: where `e` refers to the function `j` of `table`, the
/// variables that a closure of that function takes from the environment
/// are free in `e`.
pub proof fn lemma_reference_free(e: LExprView, table: Seq<LiftedLambdaView>, j: nat)
    requires
        refers_to(e, j),
        j < table.len(),
    ensures
        captured(table[j as int]).subset_of(lifted_free(e, table)),
    decreases e,
{
    match e {
        LExprView::SetThen(_, a, then) => {
            if refers_to(*a, j) {
                lemma_reference_free(*a, table, j);
            } else {
                lemma_reference_free(*then, table, j);
            }
        },
        LExprView::If(c, t, f) => {
            if refers_to(*c, j) {
                lemma_reference_free(*c, table, j);
            } else if refers_to(*t, j) {
                lemma_reference_free(*t, table, j);
            } else {
                lemma_reference_free(*f, table, j);
            }
        },
        LExprView::CallOne(k, a) => {
            if refers_to(*k, j) {
                lemma_reference_free(*k, table, j);
            } else {
                lemma_reference_free(*a, table, j);
            }
        },
        LExprView::CallTwo(g, a, k) => {
            if refers_to(*g, j) {
                lemma_reference_free(*g, table, j);
            } else if refers_to(*a, j) {
                lemma_reference_free(*a, table, j);
            } else {
                lemma_reference_free(*k, table, j);
            }
        },
        _ => {},
    }
}

proof fn lemma_reference_below(e: LExprView, n: nat, j: nat)
    requires
        refers_to(e, j),
        refs_below(e, n),
    ensures
        j < n,
    decreases e,
{
    match e {
        LExprView::SetThen(_, a, then) => {
            if refers_to(*a, j) {
                lemma_reference_below(*a, n, j);
            } else {
                lemma_reference_below(*then, n, j);
            }
        },
        LExprView::If(c, t, f) => {
            if refers_to(*c, j) {
                lemma_reference_below(*c, n, j);
            } else if refers_to(*t, j) {
                lemma_reference_below(*t, n, j);
            } else {
                lemma_reference_below(*f, n, j);
            }
        },
        LExprView::CallOne(k, a) => {
            if refers_to(*k, j) {
                lemma_reference_below(*k, n, j);
            } else {
                lemma_reference_below(*a, n, j);
            }
        },
        LExprView::CallTwo(g, a, k) => {
            if refers_to(*g, j) {
                lemma_reference_below(*g, n, j);
            } else if refers_to(*a, j) {
                lemma_reference_below(*a, n, j);
            } else {
                lemma_reference_below(*k, n, j);
            }
        },
        _ => {},
    }
}

/// What a nested function captures is counted among the free variables
/// of the function around it: in the table of the functions lifted out
/// of `f`, where the body of the function `i` refers to the function
/// `j`, that function stands before `i` in the table, and every free
/// variable of `j` that is none of the parameters of `j` is a free
/// variable of `i`.
pub proof fn lemma_lift_counts_captures(f: FExprView, i: int, j: nat)
    requires
        0 <= i < lifted(f, 0).len(),
        refers_to(lifted(f, 0)[i].body, j),
    ensures
        j < i,
        captured(lifted(f, 0)[j as int]).subset_of(id_set(lifted(f, 0)[i].freevars)),
{
    let table = lifted(f, 0);
    lemma_lift_numbering(f, 0);
    assert(entry_wf(table[i], (0 + i) as nat));
    lemma_reference_below(table[i].body, i as nat, j);
    lemma_lift_exact(f);
    lemma_reference_free(table[i].body, table, j);
}


/// Whether no two of `vars` have the same identifier.
pub open spec fn distinct_ids(vars: Seq<FreeVarView>) -> bool {
    forall|i: int, j: int| 0 <= i < j < vars.len() ==> vars[i].id != vars[j].id
}

proof fn lemma_note_var_distinct(v: FreeVarView, shadow: Seq<FreeVarView>, acc: Seq<FreeVarView>)
    requires
        distinct_ids(acc),
    ensures
        distinct_ids(note_var(v, shadow, acc)),
{
    if !(has_id(shadow, v.id) || has_id(acc, v.id)) {
        let more = acc.push(v);
        assert forall|i: int, j: int| 0 <= i < j < more.len() implies more[i].id != more[j].id by {
            if j == acc.len() {
                if more[i].id == v.id {
                    assert(acc[i].id == v.id);
                    assert(has_id(acc, v.id));
                }
            }
        }
    }
}

/// The list of free variables names no variable twice.
pub proof fn lemma_free_list_distinct(f: FExprView, shadow: Seq<FreeVarView>, acc: Seq<FreeVarView>)
    requires
        distinct_ids(acc),
    ensures
        distinct_ids(free_list(f, shadow, acc)),
    decreases f,
{
    match f {
        FExprView::Var(v) => {
            lemma_note_var_distinct(v, shadow, acc);
        },
        FExprView::Lit(_) => {},
        FExprView::BuiltinIdent(_) => {},
        FExprView::LamOne(p, body) => {
            lemma_free_list_distinct(*body, shadow.push(p), acc);
        },
        FExprView::LamTwo(p, k, body) => {
            lemma_free_list_distinct(*body, shadow.push(p).push(k), acc);
        },
        FExprView::SetThen(v, a, then) => {
            let a1 = note_var(v, shadow, acc);
            lemma_note_var_distinct(v, shadow, acc);
            lemma_free_list_distinct(*a, shadow, a1);
            lemma_free_list_distinct(*then, shadow, free_list(*a, shadow, a1));
        },
        FExprView::If(c, t, e) => {
            let a1 = free_list(*c, shadow, acc);
            lemma_free_list_distinct(*c, shadow, acc);
            lemma_free_list_distinct(*t, shadow, a1);
            lemma_free_list_distinct(*e, shadow, free_list(*t, shadow, a1));
        },
        FExprView::CallOne(k, a) => {
            lemma_free_list_distinct(*k, shadow, acc);
            lemma_free_list_distinct(*a, shadow, free_list(*k, shadow, acc));
        },
        FExprView::CallTwo(g, a, k) => {
            let a1 = free_list(*g, shadow, acc);
            lemma_free_list_distinct(*g, shadow, acc);
            lemma_free_list_distinct(*a, shadow, a1);
            lemma_free_list_distinct(*k, shadow, free_list(*a, shadow, a1));
        },
    }
}

/// The free variables of an expression are listed without repetition.
pub proof fn lemma_free_vars_distinct(f: FExprView)
    ensures
        distinct_ids(free_vars_of(f)),
{
    lemma_free_list_distinct(f, Seq::empty(), Seq::empty());
}


/// Whether each of `entries` lists its free variables without
/// repetition.
pub open spec fn listed_once(entries: Seq<LiftedLambdaView>) -> bool {
    forall|i: int| 0 <= i < entries.len() ==> distinct_ids(#[trigger] entries[i].freevars)
}

proof fn lemma_listed_once_join(a: Seq<LiftedLambdaView>, b: Seq<LiftedLambdaView>)
    requires
        listed_once(a),
        listed_once(b),
    ensures
        listed_once(a + b),
{
    assert forall|i: int| 0 <= i < (a + b).len() implies distinct_ids(
        #[trigger] (a + b)[i].freevars,
    ) by {
        if i < a.len() {
            assert((a + b)[i] == a[i]);
        } else {
            assert((a + b)[i] == b[i - a.len()]);
        }
    }
}

proof fn lemma_listed_once_push(a: Seq<LiftedLambdaView>, x: LiftedLambdaView)
    requires
        listed_once(a),
        distinct_ids(x.freevars),
    ensures
        listed_once(a.push(x)),
{
    assert forall|i: int| 0 <= i < a.push(x).len() implies distinct_ids(
        #[trigger] a.push(x)[i].freevars,
    ) by {
        if i < a.len() {
            assert(a.push(x)[i] == a[i]);
        }
    }
}

/// Every lifted function lists its free variables without repetition.
pub proof fn lemma_lift_distinct(f: FExprView, next: nat)
    ensures
        listed_once(lifted(f, next)),
    decreases f,
{
    match f {
        FExprView::Var(_) => {},
        FExprView::Lit(_) => {},
        FExprView::BuiltinIdent(_) => {},
        FExprView::LamOne(p, body) => {
            lemma_lift_distinct(*body, next);
            lemma_free_vars_distinct(*body);
            lemma_listed_once_push(lifted(*body, next), lam_entry(seq![p], *body, next));
        },
        FExprView::LamTwo(p, k, body) => {
            lemma_lift_distinct(*body, next);
            lemma_free_vars_distinct(*body);
            lemma_listed_once_push(lifted(*body, next), lam_entry(seq![p, k], *body, next));
        },
        FExprView::SetThen(_, a, then) => {
            let n1 = next + lambda_count(*a);
            lemma_lift_distinct(*a, next);
            lemma_lift_distinct(*then, n1);
            lemma_listed_once_join(lifted(*a, next), lifted(*then, n1));
        },
        FExprView::If(c, t, e) => {
            let n1 = next + lambda_count(*c);
            let n2 = n1 + lambda_count(*t);
            lemma_lift_distinct(*c, next);
            lemma_lift_distinct(*t, n1);
            lemma_lift_distinct(*e, n2);
            lemma_listed_once_join(lifted(*c, next), lifted(*t, n1));
            lemma_listed_once_join(lifted(*c, next) + lifted(*t, n1), lifted(*e, n2));
        },
        FExprView::CallOne(k, a) => {
            let n1 = next + lambda_count(*k);
            lemma_lift_distinct(*k, next);
            lemma_lift_distinct(*a, n1);
            lemma_listed_once_join(lifted(*k, next), lifted(*a, n1));
        },
        FExprView::CallTwo(g, a, k) => {
            let n1 = next + lambda_count(*g);
            let n2 = n1 + lambda_count(*a);
            lemma_lift_distinct(*g, next);
            lemma_lift_distinct(*a, n1);
            lemma_lift_distinct(*k, n2);
            lemma_listed_once_join(lifted(*g, next), lifted(*a, n1));
            lemma_listed_once_join(lifted(*g, next) + lifted(*a, n1), lifted(*k, n2));
        },
    }
}

proof fn lemma_tail_form_join(a: Seq<LiftedLambdaView>, b: Seq<LiftedLambdaView>)
    requires
        bodies_in_tail_form(a),
        bodies_in_tail_form(b),
    ensures
        bodies_in_tail_form(a + b),
{
    assert forall|i: int| 0 <= i < (a + b).len() implies lifted_computation(
        #[trigger] (a + b)[i].body,
    ) by {
        if i < a.len() {
            assert((a + b)[i] == a[i]);
        } else {
            assert((a + b)[i] == b[i - a.len()]);
        }
    }
}

proof fn lemma_tail_form_push(a: Seq<LiftedLambdaView>, x: LiftedLambdaView)
    requires
        bodies_in_tail_form(a),
        lifted_computation(x.body),
    ensures
        bodies_in_tail_form(a.push(x)),
{
    assert forall|i: int| 0 <= i < a.push(x).len() implies lifted_computation(
        #[trigger] a.push(x)[i].body,
    ) by {
        if i < a.len() {
            assert(a.push(x)[i] == a[i]);
        }
    }
}

/// Lifting keeps the tail form: a value lifts to a value, a computation
/// to a computation, and the body of every lifted function is a
/// computation.
pub proof fn lemma_lift_keeps_tail_form(f: FExprView, next: nat)
    requires
        is_value(f) || is_computation(f),
    ensures
        is_value(f) ==> lifted_value(lift_tree(f, next)),
        is_computation(f) ==> lifted_computation(lift_tree(f, next)),
        bodies_in_tail_form(lifted(f, next)),
    decreases f,
{
    match f {
        FExprView::Var(_) => {},
        FExprView::Lit(_) => {},
        FExprView::BuiltinIdent(_) => {},
        FExprView::LamOne(p, body) => {
            lemma_lift_keeps_tail_form(*body, next);
            lemma_tail_form_push(lifted(*body, next), lam_entry(seq![p], *body, next));
        },
        FExprView::LamTwo(p, k, body) => {
            lemma_lift_keeps_tail_form(*body, next);
            lemma_tail_form_push(lifted(*body, next), lam_entry(seq![p, k], *body, next));
        },
        FExprView::SetThen(_, a, then) => {
            let n1 = next + lambda_count(*a);
            lemma_lift_keeps_tail_form(*a, next);
            lemma_lift_keeps_tail_form(*then, n1);
            lemma_tail_form_join(lifted(*a, next), lifted(*then, n1));
        },
        FExprView::CallOne(k, a) => {
            let n1 = next + lambda_count(*k);
            lemma_lift_keeps_tail_form(*k, next);
            lemma_lift_keeps_tail_form(*a, n1);
            lemma_tail_form_join(lifted(*k, next), lifted(*a, n1));
        },
        FExprView::If(c, t, e) => {
            let n1 = next + lambda_count(*c);
            let n2 = n1 + lambda_count(*t);
            lemma_lift_keeps_tail_form(*c, next);
            lemma_lift_keeps_tail_form(*t, n1);
            lemma_lift_keeps_tail_form(*e, n2);
            lemma_tail_form_join(lifted(*c, next), lifted(*t, n1));
            lemma_tail_form_join(lifted(*c, next) + lifted(*t, n1), lifted(*e, n2));
        },
        FExprView::CallTwo(g, a, k) => {
            let n1 = next + lambda_count(*g);
            let n2 = n1 + lambda_count(*a);
            lemma_lift_keeps_tail_form(*g, next);
            lemma_lift_keeps_tail_form(*a, n1);
            lemma_lift_keeps_tail_form(*k, n2);
            lemma_tail_form_join(lifted(*g, next), lifted(*a, n1));
            lemma_tail_form_join(lifted(*g, next) + lifted(*a, n1), lifted(*k, n2));
        },
    }
}

} // verus!
