use crate::literals::{Literal, LiteralView};
use crate::names::{FreeVar, FreeVarView};
use vstd::prelude::*;

verus! {

/// An expression with its names resolved: every function has one
/// parameter, every call one argument, and every variable is the fresh
/// variable of the binder it refers to.
#[derive(Debug, PartialEq)]
pub enum Expr {
    Var(FreeVar),
    Lit(Literal),
    BuiltinIdent(String),
    If(Box<Expr>, Box<Expr>, Box<Expr>),
    Assign(FreeVar, Box<Expr>),
    Lam(FreeVar, Box<Expr>),
    App(Box<Expr>, Box<Expr>),
}

/// The mathematical value of an [`Expr`].
pub enum ExprView {
    Var(FreeVarView),
    Lit(LiteralView),
    BuiltinIdent(Seq<char>),
    If(Box<ExprView>, Box<ExprView>, Box<ExprView>),
    Assign(FreeVarView, Box<ExprView>),
    Lam(FreeVarView, Box<ExprView>),
    App(Box<ExprView>, Box<ExprView>),
}

impl Expr {
    /// The mathematical value of this term.
    pub open spec fn model(self) -> ExprView
        decreases self,
    {
        match self {
            Expr::Var(v) => ExprView::Var(v@),
            Expr::Lit(l) => ExprView::Lit(l@),
            Expr::BuiltinIdent(n) => ExprView::BuiltinIdent(n@),
            Expr::If(c, t, e) => ExprView::If(
                Box::new((*c).model()),
                Box::new((*t).model()),
                Box::new((*e).model()),
            ),
            Expr::Assign(v, e) => ExprView::Assign(v@, Box::new((*e).model())),
            Expr::Lam(p, body) => ExprView::Lam(p@, Box::new((*body).model())),
            Expr::App(f, a) => ExprView::App(Box::new((*f).model()), Box::new((*a).model())),
        }
    }
}

impl View for Expr {
    type V = ExprView;

    open spec fn view(&self) -> ExprView {
        self.model()
    }
}

/// The identifiers of the variables that occur free in `e`: used, and not
/// under a function that binds them.
pub open spec fn free_ids(e: ExprView) -> Set<nat>
    decreases e,
{
    match e {
        ExprView::Var(v) => set![v.id],
        ExprView::Lit(_) => Set::empty(),
        ExprView::BuiltinIdent(_) => Set::empty(),
        ExprView::If(c, t, e) => free_ids(*c) + free_ids(*t) + free_ids(*e),
        ExprView::Assign(v, e) => free_ids(*e).insert(v.id),
        ExprView::Lam(p, body) => free_ids(*body).remove(p.id),
        ExprView::App(f, a) => free_ids(*f) + free_ids(*a),
    }
}

/// Whether every identifier in `s` is below `n`.
pub open spec fn all_below(s: Set<nat>, n: nat) -> bool {
    forall|i: nat| s.contains(i) ==> i < n
}

/// Whether every variable of `e` has an identifier below `n`: those that
/// are used, those that are assigned, and the parameters of its
/// functions.
pub open spec fn names_below(e: ExprView, n: nat) -> bool
    decreases e,
{
    match e {
        ExprView::Var(v) => v.id < n,
        ExprView::Lit(_) => true,
        ExprView::BuiltinIdent(_) => true,
        ExprView::If(c, t, e) => names_below(*c, n) && names_below(*t, n) && names_below(*e, n),
        ExprView::Assign(v, e) => v.id < n && names_below(*e, n),
        ExprView::Lam(p, body) => p.id < n && names_below(*body, n),
        ExprView::App(f, a) => names_below(*f, n) && names_below(*a, n),
    }
}

/// Variables that are below `n` are below any `m` that is not smaller.
pub proof fn lemma_names_below_more(e: ExprView, n: nat, m: nat)
    requires
        names_below(e, n),
        n <= m,
    ensures
        names_below(e, m),
    decreases e,
{
    match e {
        ExprView::If(c, t, f) => {
            lemma_names_below_more(*c, n, m);
            lemma_names_below_more(*t, n, m);
            lemma_names_below_more(*f, n, m);
        },
        ExprView::Assign(_, inner) => {
            lemma_names_below_more(*inner, n, m);
        },
        ExprView::Lam(_, body) => {
            lemma_names_below_more(*body, n, m);
        },
        ExprView::App(f, a) => {
            lemma_names_below_more(*f, n, m);
            lemma_names_below_more(*a, n, m);
        },
        _ => {},
    }
}

/// Where every variable of `e` is below `n`, so is every free one.
pub proof fn lemma_free_ids_below(e: ExprView, n: nat)
    requires
        names_below(e, n),
    ensures
        all_below(free_ids(e), n),
    decreases e,
{
    match e {
        ExprView::If(c, t, f) => {
            lemma_free_ids_below(*c, n);
            lemma_free_ids_below(*t, n);
            lemma_free_ids_below(*f, n);
        },
        ExprView::Assign(_, inner) => {
            lemma_free_ids_below(*inner, n);
        },
        ExprView::Lam(_, body) => {
            lemma_free_ids_below(*body, n);
        },
        ExprView::App(f, a) => {
            lemma_free_ids_below(*f, n);
            lemma_free_ids_below(*a, n);
        },
        _ => {},
    }
}

/// Whether `a` and `b` are the same expression when variables are told
/// apart by their identifiers alone, whatever their spellings.
pub open spec fn same_up_to_spelling(a: ExprView, b: ExprView) -> bool
    decreases a,
{
    match (a, b) {
        (ExprView::Var(v), ExprView::Var(w)) => v.id == w.id,
        (ExprView::Lit(l), ExprView::Lit(m)) => l == m,
        (ExprView::BuiltinIdent(n), ExprView::BuiltinIdent(m)) => n == m,
        (ExprView::If(c, t, e), ExprView::If(c2, t2, e2)) => same_up_to_spelling(*c, *c2)
            && same_up_to_spelling(*t, *t2) && same_up_to_spelling(*e, *e2),
        (ExprView::Assign(v, e), ExprView::Assign(w, e2)) => v.id == w.id && same_up_to_spelling(
            *e,
            *e2,
        ),
        (ExprView::Lam(p, body), ExprView::Lam(q, body2)) => p.id == q.id && same_up_to_spelling(
            *body,
            *body2,
        ),
        (ExprView::App(f, a), ExprView::App(f2, a2)) => same_up_to_spelling(*f, *f2)
            && same_up_to_spelling(*a, *a2),
        _ => false,
    }
}

/// Whether the variable `x` on one side and the variable `y` on the other
/// stand for the same thing under the first `n` of the binders `pairs`,
/// the innermost pair last: the innermost pair that binds either of them
/// binds both; where no pair binds either, both are free and the same
/// variable.
pub open spec fn same_binder(pairs: Seq<(nat, nat)>, x: nat, y: nat, n: nat) -> bool
    decreases n,
{
    if n == 0 || n > pairs.len() {
        x == y
    } else if pairs[n - 1].0 == x || pairs[n - 1].1 == y {
        pairs[n - 1].0 == x && pairs[n - 1].1 == y
    } else {
        same_binder(pairs, x, y, (n - 1) as nat)
    }
}

/// Whether `a` and `b` are equal up to the renaming of binders, under the
/// binders `pairs` that stand around them, the innermost last: they have
/// the same shape, the same literals and builtins, and every variable of
/// `a` stands where `b` has a variable of the same binder.
pub open spec fn alike(a: ExprView, b: ExprView, pairs: Seq<(nat, nat)>) -> bool
    decreases a,
{
    match (a, b) {
        (ExprView::Var(v), ExprView::Var(w)) => same_binder(pairs, v.id, w.id, pairs.len()),
        (ExprView::Lit(l), ExprView::Lit(m)) => l == m,
        (ExprView::BuiltinIdent(n), ExprView::BuiltinIdent(m)) => n == m,
        (ExprView::If(c, t, e), ExprView::If(c2, t2, e2)) => alike(*c, *c2, pairs) && alike(
            *t,
            *t2,
            pairs,
        ) && alike(*e, *e2, pairs),
        (ExprView::Assign(v, e), ExprView::Assign(w, e2)) => same_binder(
            pairs,
            v.id,
            w.id,
            pairs.len(),
        ) && alike(*e, *e2, pairs),
        (ExprView::Lam(p, body), ExprView::Lam(q, body2)) => alike(
            *body,
            *body2,
            pairs.push((p.id, q.id)),
        ),
        (ExprView::App(f, a), ExprView::App(f2, a2)) => alike(*f, *f2, pairs) && alike(
            *a,
            *a2,
            pairs,
        ),
        _ => false,
    }
}

/// Whether `a` and `b` are equal up to the renaming of binders.
pub open spec fn equivalent(a: ExprView, b: ExprView) -> bool {
    alike(a, b, Seq::empty())
}

/// The pairs of binders `pairs` as pairs of identifiers.
pub open spec fn pairs_view(pairs: Seq<(u64, u64)>) -> Seq<(nat, nat)> {
    Seq::new(pairs.len(), |i: int| (pairs[i].0 as nat, pairs[i].1 as nat))
}

fn same_literal(a: &Literal, b: &Literal) -> (res: bool)
    ensures
        res == (a@ == b@),
{
    match (a, b) {
        (Literal::String(s), Literal::String(t)) => *s == *t,
        (Literal::Int(i), Literal::Int(j)) => *i == *j,
        (Literal::Float(x), Literal::Float(y)) => *x == *y,
        (Literal::Void, Literal::Void) => true,
        _ => false,
    }
}

fn bound_alike(pairs: &Vec<(u64, u64)>, x: u64, y: u64) -> (res: bool)
    ensures
        res == same_binder(pairs_view(pairs@), x as nat, y as nat, pairs@.len()),
{
    let ghost all = pairs_view(pairs@);
    let mut n: usize = pairs.len();
    while n > 0
        invariant
            n <= pairs@.len(),
            all == pairs_view(pairs@),
            same_binder(all, x as nat, y as nat, pairs@.len()) == same_binder(
                all,
                x as nat,
                y as nat,
                n as nat,
            ),
        decreases n,
    {
        let p = pairs[n - 1];
        assert(all[n - 1] == (p.0 as nat, p.1 as nat));
        if p.0 == x || p.1 == y {
            return p.0 == x && p.1 == y;
        }
        n = n - 1;
    }
    x == y
}

impl Expr {
    /// Whether this expression and `other` are equal up to the renaming
    /// of binders.
    pub fn term_eq(&self, other: &Expr) -> (res: bool)
        ensures
            res == equivalent(self@, other@),
    {
        let mut pairs: Vec<(u64, u64)> = Vec::new();
        assert(pairs_view(pairs@) =~= Seq::empty());
        self.alike_under(other, &mut pairs)
    }

    fn alike_under(&self, other: &Expr, pairs: &mut Vec<(u64, u64)>) -> (res: bool)
        ensures
            res == alike(self@, other@, pairs_view(old(pairs)@)),
            final(pairs)@ == old(pairs)@,
        decreases self,
    {
        match (self, other) {
            (Expr::Var(v), Expr::Var(w)) => bound_alike(pairs, v.unique_id, w.unique_id),
            (Expr::Lit(l), Expr::Lit(m)) => same_literal(l, m),
            (Expr::BuiltinIdent(n), Expr::BuiltinIdent(m)) => *n == *m,
            (Expr::If(c, t, e), Expr::If(c2, t2, e2)) => {
                c.alike_under(c2, pairs) && t.alike_under(t2, pairs) && e.alike_under(e2, pairs)
            },
            (Expr::Assign(v, e), Expr::Assign(w, e2)) => {
                bound_alike(pairs, v.unique_id, w.unique_id) && e.alike_under(e2, pairs)
            },
            (Expr::Lam(p, body), Expr::Lam(q, body2)) => {
                let ghost before = pairs@;
                pairs.push((p.unique_id, q.unique_id));
                assert(pairs_view(pairs@) =~= pairs_view(before).push((p@.id, q@.id)));
                let res = body.alike_under(body2, pairs);
                pairs.pop();
                assert(pairs@ =~= before);
                res
            },
            (Expr::App(f, a), Expr::App(f2, a2)) => {
                f.alike_under(f2, pairs) && a.alike_under(a2, pairs)
            },
            _ => false,
        }
    }
}

} // verus!
