use crate::literals::{Literal, LiteralView};
use crate::names::{vars_view, FreeVar, FreeVarView};
use std::collections::HashMap;
use vstd::prelude::*;

verus! {

/// The flat form with every function replaced by a reference to a lifted
/// function.
#[derive(Debug, PartialEq)]
pub enum LExpr {
    Var(FreeVar),
    Lit(Literal),
    BuiltinIdent(String),
    SetThen(FreeVar, Box<LExpr>, Box<LExpr>),
    If(Box<LExpr>, Box<LExpr>, Box<LExpr>),
    Lifted(usize),
    CallOne(Box<LExpr>, Box<LExpr>),
    CallTwo(Box<LExpr>, Box<LExpr>, Box<LExpr>),
}

/// A function lifted to the top level: its identifier, its parameters in
/// order, the variables that occur free in its body, and the body.
#[derive(Debug, PartialEq)]
pub struct LiftedLambda {
    pub id: usize,
    pub params: Vec<FreeVar>,
    pub freevars: Vec<FreeVar>,
    pub body: Box<LExpr>,
}

/// The mathematical value of an [`LExpr`].
pub enum LExprView {
    Var(FreeVarView),
    Lit(LiteralView),
    BuiltinIdent(Seq<char>),
    SetThen(FreeVarView, Box<LExprView>, Box<LExprView>),
    If(Box<LExprView>, Box<LExprView>, Box<LExprView>),
    Lifted(nat),
    CallOne(Box<LExprView>, Box<LExprView>),
    CallTwo(Box<LExprView>, Box<LExprView>, Box<LExprView>),
}

/// The mathematical value of a [`LiftedLambda`].
pub struct LiftedLambdaView {
    pub id: nat,
    pub params: Seq<FreeVarView>,
    pub freevars: Seq<FreeVarView>,
    pub body: LExprView,
}

impl LExpr {
    /// The mathematical value of this term.
    pub open spec fn model(self) -> LExprView
        decreases self,
    {
        match self {
            LExpr::Var(v) => LExprView::Var(v@),
            LExpr::Lit(l) => LExprView::Lit(l@),
            LExpr::BuiltinIdent(n) => LExprView::BuiltinIdent(n@),
            LExpr::SetThen(v, a, then) => LExprView::SetThen(
                v@,
                Box::new((*a).model()),
                Box::new((*then).model()),
            ),
            LExpr::If(c, t, e) => LExprView::If(
                Box::new((*c).model()),
                Box::new((*t).model()),
                Box::new((*e).model()),
            ),
            LExpr::Lifted(id) => LExprView::Lifted(id as nat),
            LExpr::CallOne(k, a) => LExprView::CallOne(
                Box::new((*k).model()),
                Box::new((*a).model()),
            ),
            LExpr::CallTwo(f, a, k) => LExprView::CallTwo(
                Box::new((*f).model()),
                Box::new((*a).model()),
                Box::new((*k).model()),
            ),
        }
    }
}

impl View for LExpr {
    type V = LExprView;

    open spec fn view(&self) -> LExprView {
        self.model()
    }
}

impl View for LiftedLambda {
    type V = LiftedLambdaView;

    open spec fn view(&self) -> LiftedLambdaView {
        LiftedLambdaView {
            id: self.id as nat,
            params: vars_view(self.params@),
            freevars: vars_view(self.freevars@),
            body: (*self.body)@,
        }
    }
}

/// Whether the keys of `m` are the identifiers from 0 up to their number,
/// without gaps.
pub open spec fn dense(m: Map<usize, LiftedLambda>) -> bool {
    m.dom().finite() && forall|k: usize| m.contains_key(k) <==> (k as nat) < m.len()
}

/// The views of the lifted functions of a map with [`dense`] keys, in the
/// order of their keys.
pub open spec fn lambdas_view(m: Map<usize, LiftedLambda>) -> Seq<LiftedLambdaView> {
    Seq::new(m.len(), |i: int| m[i as usize]@)
}

/// The lifted function with the identifier `i` in a map with [`dense`]
/// keys.
pub(crate) fn lambda_at(lambdas: &HashMap<usize, LiftedLambda>, i: usize) -> (res: &LiftedLambda)
    requires
        dense(lambdas@),
        i < lambdas@.len(),
    ensures
        *res == lambdas@[i],
        res@ == lambdas_view(lambdas@)[i as int],
{
    broadcast use vstd::std_specs::hash::group_hash_axioms;

    match lambdas.get(&i) {
        Some(l) => l,
        None => unreached(),
    }
}

/// The number of lifted functions in a map.
pub(crate) fn lambda_total(lambdas: &HashMap<usize, LiftedLambda>) -> (res: usize)
    ensures
        res == lambdas@.len(),
{
    broadcast use vstd::std_specs::hash::group_hash_axioms;

    lambdas.len()
}

impl LiftedLambda {
    /// The lifted function of these parts.
    pub fn new(id: usize, params: Vec<FreeVar>, freevars: Vec<FreeVar>, body: Box<LExpr>) -> (res:
        Self)
        ensures
            res@ == (LiftedLambdaView {
                id: id as nat,
                params: vars_view(params@),
                freevars: vars_view(freevars@),
                body: (*body)@,
            }),
            res.id == id,
            res.params == params,
            res.freevars == freevars,
            res.body == body,
    {
        LiftedLambda { id, params, freevars, body }
    }
}

/// Whether every reference in `e` is to a lifted function with an
/// identifier below `n`.
pub open spec fn refs_below(e: LExprView, n: nat) -> bool
    decreases e,
{
    match e {
        LExprView::Var(_) => true,
        LExprView::Lit(_) => true,
        LExprView::BuiltinIdent(_) => true,
        LExprView::SetThen(_, a, then) => refs_below(*a, n) && refs_below(*then, n),
        LExprView::If(c, t, e) => refs_below(*c, n) && refs_below(*t, n) && refs_below(*e, n),
        LExprView::Lifted(id) => id < n,
        LExprView::CallOne(k, a) => refs_below(*k, n) && refs_below(*a, n),
        LExprView::CallTwo(f, a, k) => refs_below(*f, n) && refs_below(*a, n) && refs_below(*k, n),
    }
}

/// Whether `table` is a table of lifted functions: each stands at the
/// position of its identifier, has one or two parameters, and refers in
/// its body only to functions of the table.
pub open spec fn table_wf(table: Seq<LiftedLambdaView>) -> bool {
    forall|i: int|
        0 <= i < table.len() ==> {
            &&& (#[trigger] table[i]).id == i
            &&& (table[i].params.len() == 1 || table[i].params.len() == 2)
            &&& refs_below(table[i].body, table.len())
        }
}


/// References that are below `n` are below any `m` that is not smaller.
pub proof fn lemma_refs_below_more(e: LExprView, n: nat, m: nat)
    requires
        refs_below(e, n),
        n <= m,
    ensures
        refs_below(e, m),
    decreases e,
{
    match e {
        LExprView::SetThen(_, a, then) => {
            lemma_refs_below_more(*a, n, m);
            lemma_refs_below_more(*then, n, m);
        },
        LExprView::If(c, t, f) => {
            lemma_refs_below_more(*c, n, m);
            lemma_refs_below_more(*t, n, m);
            lemma_refs_below_more(*f, n, m);
        },
        LExprView::CallOne(k, a) => {
            lemma_refs_below_more(*k, n, m);
            lemma_refs_below_more(*a, n, m);
        },
        LExprView::CallTwo(f, a, k) => {
            lemma_refs_below_more(*f, n, m);
            lemma_refs_below_more(*a, n, m);
            lemma_refs_below_more(*k, n, m);
        },
        _ => {},
    }
}


/// Whether `e` denotes a value: a variable, a literal, a builtin, or a
/// reference to a lifted function.
pub open spec fn lifted_value(e: LExprView) -> bool {
    e is Var || e is Lit || e is BuiltinIdent || e is Lifted
}

/// Whether `e` is a computation in tail form: a call of values, or an
/// assignment or a branch that goes on with computations.
pub open spec fn lifted_computation(e: LExprView) -> bool
    decreases e,
{
    match e {
        LExprView::If(c, t, f) => lifted_value(*c) && lifted_computation(*t) && lifted_computation(
            *f,
        ),
        LExprView::SetThen(_, a, then) => lifted_value(*a) && lifted_computation(*then),
        LExprView::CallOne(k, a) => lifted_value(*k) && lifted_value(*a),
        LExprView::CallTwo(f, a, k) => lifted_value(*f) && lifted_value(*a) && lifted_value(*k),
        _ => false,
    }
}

/// Whether the body of every function of `table` is a computation in tail
/// form.
pub open spec fn bodies_in_tail_form(table: Seq<LiftedLambdaView>) -> bool {
    forall|i: int| 0 <= i < table.len() ==> lifted_computation(#[trigger] table[i].body)
}

} // verus!
