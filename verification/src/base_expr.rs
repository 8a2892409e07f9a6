use crate::literals::{Literal, LiteralView};
use crate::utils::reversed;
use vstd::prelude::*;

verus! {

/// An expression of the surface language.
#[derive(Debug, PartialEq)]
pub enum BExpr {
    Var(String),
    Lit(Literal),
    BuiltinIdent(String),
    If(Box<BExpr>, Box<BExpr>, Box<BExpr>),
    Assign(String, Box<BExpr>),
    Let(Vec<(String, BExpr)>, BExprBody),
    Lam(Vec<String>, BExprBody),
    App(Box<BExpr>, Vec<BExpr>),
}

/// One item of a body: a definition or an expression.
#[derive(Debug, PartialEq)]
pub enum BExprBodyExpr {
    Def(String, BExpr),
    Expr(BExpr),
}

/// A body: items evaluated in order, then the expression whose value is the
/// value of the body.
#[derive(Debug, PartialEq)]
pub struct BExprBody(pub Vec<BExprBodyExpr>, pub Box<BExpr>);

/// The mathematical value of a [`BExpr`].
pub enum BExprView {
    Var(Seq<char>),
    Lit(LiteralView),
    BuiltinIdent(Seq<char>),
    If(Box<BExprView>, Box<BExprView>, Box<BExprView>),
    Assign(Seq<char>, Box<BExprView>),
    Let(Seq<(Seq<char>, BExprView)>, BExprBodyView),
    Lam(Seq<Seq<char>>, BExprBodyView),
    App(Box<BExprView>, Seq<BExprView>),
}

/// The mathematical value of a [`BExprBodyExpr`].
pub enum BExprBodyExprView {
    Def(Seq<char>, BExprView),
    Expr(BExprView),
}

/// The mathematical value of a [`BExprBody`].
pub struct BExprBodyView {
    pub items: Seq<BExprBodyExprView>,
    pub last: Box<BExprView>,
}

/// The views of a vector of names, in order.
pub open spec fn names_view(names: Seq<String>) -> Seq<Seq<char>> {
    Seq::new(names.len(), |i: int| names[i]@)
}

impl BExpr {
    /// The mathematical value of this term.
    pub open spec fn model(self) -> BExprView
        decreases self,
    {
        match self {
            BExpr::Var(n) => BExprView::Var(n@),
            BExpr::Lit(l) => BExprView::Lit(l@),
            BExpr::BuiltinIdent(n) => BExprView::BuiltinIdent(n@),
            BExpr::If(c, t, e) => BExprView::If(
                Box::new((*c).model()),
                Box::new((*t).model()),
                Box::new((*e).model()),
            ),
            BExpr::Assign(n, e) => BExprView::Assign(n@, Box::new((*e).model())),
            BExpr::Let(bindings, body) => BExprView::Let(
                Seq::new(
                    bindings.len() as nat,
                    |i: int|
                        if 0 <= i < bindings.len() {
                            (bindings[i].0@, bindings[i].1.model())
                        } else {
                            (Seq::empty(), BExprView::Lit(LiteralView::Void))
                        },
                ),
                body.model(),
            ),
            BExpr::Lam(params, body) => BExprView::Lam(names_view(params@), body.model()),
            BExpr::App(f, args) => BExprView::App(
                Box::new((*f).model()),
                Seq::new(
                    args.len() as nat,
                    |i: int|
                        if 0 <= i < args.len() {
                            args[i].model()
                        } else {
                            BExprView::Lit(LiteralView::Void)
                        },
                ),
            ),
        }
    }
}

impl BExprBodyExpr {
    /// The mathematical value of this term.
    pub open spec fn model(self) -> BExprBodyExprView
        decreases self,
    {
        match self {
            BExprBodyExpr::Def(n, e) => BExprBodyExprView::Def(n@, e.model()),
            BExprBodyExpr::Expr(e) => BExprBodyExprView::Expr(e.model()),
        }
    }
}

impl BExprBody {
    /// The mathematical value of this term.
    pub open spec fn model(self) -> BExprBodyView
        decreases self,
    {
        BExprBodyView {
            items: Seq::new(
                self.0.len() as nat,
                |i: int|
                    if 0 <= i < self.0.len() {
                        self.0[i].model()
                    } else {
                        BExprBodyExprView::Expr(BExprView::Lit(LiteralView::Void))
                    },
            ),
            last: Box::new((*self.1).model()),
        }
    }
}

impl View for BExpr {
    type V = BExprView;

    open spec fn view(&self) -> BExprView {
        self.model()
    }
}

impl View for BExprBodyExpr {
    type V = BExprBodyExprView;

    open spec fn view(&self) -> BExprBodyExprView {
        self.model()
    }
}

impl View for BExprBody {
    type V = BExprBodyView;

    open spec fn view(&self) -> BExprBodyView {
        self.model()
    }
}

/// The views of a vector of expressions, in order.
pub open spec fn bexprs_view(es: Seq<BExpr>) -> Seq<BExprView> {
    Seq::new(es.len(), |i: int| es[i]@)
}

/// The views of a vector of bindings, in order.
pub open spec fn bindings_view(bs: Seq<(String, BExpr)>) -> Seq<(Seq<char>, BExprView)> {
    Seq::new(bs.len(), |i: int| (bs[i].0@, bs[i].1@))
}

/// The views of a vector of body items, in order.
pub open spec fn items_view(items: Seq<BExprBodyExpr>) -> Seq<BExprBodyExprView> {
    Seq::new(items.len(), |i: int| items[i]@)
}

/// The literal that stands for no value.
pub open spec fn void_lit() -> BExprView {
    BExprView::Lit(LiteralView::Void)
}

/// The bindings that declare, each with no value, the names that the first
/// `n` of `items` define, in order.
pub open spec fn declared(items: Seq<BExprBodyExprView>, n: nat) -> Seq<(Seq<char>, BExprView)>
    decreases n,
{
    if n == 0 || n > items.len() {
        Seq::empty()
    } else {
        match items[n - 1] {
            BExprBodyExprView::Def(name, _) => declared(items, (n - 1) as nat).push(
                (name, void_lit()),
            ),
            BExprBodyExprView::Expr(_) => declared(items, (n - 1) as nat),
        }
    }
}

/// The item with a definition turned into an assignment.
pub open spec fn assigned(item: BExprBodyExprView) -> BExprBodyExprView {
    match item {
        BExprBodyExprView::Def(name, e) => BExprBodyExprView::Expr(
            BExprView::Assign(name, Box::new(e)),
        ),
        BExprBodyExprView::Expr(e) => BExprBodyExprView::Expr(e),
    }
}

/// Whether none of `items` is a definition.
pub open spec fn no_defs(items: Seq<BExprBodyExprView>) -> bool {
    forall|i: int| 0 <= i < items.len() ==> items[i] is Expr
}

/// The body with its definitions pulled out. A body without definitions
/// is left as it is. Any other body becomes one expression: a `let` that
/// declares every defined name with no value and whose body is the old
/// body with each definition turned into an assignment.
pub open spec fn pulled(body: BExprBodyView) -> BExprBodyView {
    if no_defs(body.items) {
        body
    } else {
        BExprBodyView {
            items: Seq::empty(),
            last: Box::new(
                BExprView::Let(
                    declared(body.items, body.items.len()),
                    BExprBodyView {
                        items: Seq::new(body.items.len(), |i: int| assigned(body.items[i])),
                        last: body.last,
                    },
                ),
            ),
        }
    }
}

/// The first `n` of `items` hold a definition exactly when they declare a
/// name.
pub proof fn lemma_declared_none(items: Seq<BExprBodyExprView>, n: nat)
    requires
        n <= items.len(),
    ensures
        declared(items, n).len() == 0 <==> forall|i: int| 0 <= i < n ==> items[i] is Expr,
    decreases n,
{
    if n > 0 {
        lemma_declared_none(items, (n - 1) as nat);
        if declared(items, n).len() == 0 {
            assert forall|i: int| 0 <= i < n implies items[i] is Expr by {
                if i == n - 1 {
                } else {
                    assert(declared(items, (n - 1) as nat).len() == 0);
                }
            }
        }
    }
}

/// The expressions of a body without definitions, in order, the last one
/// included.
pub open spec fn body_exprs(body: BExprBodyView) -> Seq<BExprView> {
    Seq::new(
        body.items.len() + 1,
        |i: int|
            if i < body.items.len() {
                body.items[i]->Expr_0
            } else {
                *body.last
            },
    )
}

impl BExprBody {
    /// Turns each definition into an assignment and declares the defined
    /// names in a `let` around the body; a body without definitions is
    /// left as it is.
    pub fn pull_defines(self) -> (res: BExprBody)
        ensures
            res@ == pulled(self@),
    {
        let ghost items0 = self.0;
        let ghost views = self@.items;
        assert(views =~= items_view(items0@));
        let n = self.0.len();
        let mut rest = reversed(self.0);
        let mut defines: Vec<(String, BExpr)> = Vec::new();
        let mut body: Vec<BExprBodyExpr> = Vec::new();
        while rest.len() > 0
            invariant
                rest@.len() + body@.len() == n,
                n == views.len(),
                views == items_view(items0@),
                items0@.len() == n,
                forall|i: int| 0 <= i < rest@.len() ==> rest@[i] == items0@[n - 1 - i],
                bindings_view(defines@) == declared(views, body@.len() as nat),
                items_view(body@) == Seq::new(body@.len() as nat, |i: int| assigned(views[i])),
            decreases rest@.len(),
        {
            let ghost k = body@.len() as int;
            let ghost old_defines = defines@;
            let ghost old_body = body@;
            let item = rest.pop().unwrap();
            assert(item == items0@[k]);
            assert(item@ == views[k]);
            match item {
                BExprBodyExpr::Def(name, e) => {
                    defines.push((name.clone(), BExpr::Lit(Literal::Void)));
                    body.push(BExprBodyExpr::Expr(BExpr::Assign(name, Box::new(e))));
                    assert(bindings_view(defines@) =~= bindings_view(old_defines).push(
                        (name@, void_lit()),
                    ));
                },
                BExprBodyExpr::Expr(e) => {
                    body.push(BExprBodyExpr::Expr(e));
                },
            }
            assert(items_view(body@) =~= items_view(old_body).push(assigned(views[k])));
            assert(items_view(body@) =~= Seq::new(
                body@.len() as nat,
                |i: int| assigned(views[i]),
            ));
        }
        proof {
            lemma_declared_none(views, n as nat);
        }
        let inner = BExprBody(body, self.1);
        assert(inner@.items =~= items_view(body@));
        if defines.len() == 0 {
            assert(inner@.items =~= views);
            return inner;
        }
        let outer = BExpr::Let(defines, inner);
        assert(outer@->Let_0 =~= bindings_view(defines@));
        let res = BExprBody(Vec::new(), Box::new(outer));
        assert(res@.items =~= Seq::empty());
        res
    }

    /// The expressions of a body without definitions, in order, the last
    /// one included.
    pub fn as_expressions(self) -> (res: Vec<BExpr>)
        requires
            no_defs(self@.items),
        ensures
            bexprs_view(res@) == body_exprs(self@),
            res@.len() == self.0@.len() + 1,
            forall|i: int| 0 <= i < self.0@.len() ==> self.0@[i] == BExprBodyExpr::Expr(res@[i]),
            res@[self.0@.len() as int] == *self.1,
    {
        let ghost items0 = self.0;
        let ghost views = self@.items;
        assert(views =~= items_view(items0@));
        let n = self.0.len();
        let mut rest = reversed(self.0);
        let mut out: Vec<BExpr> = Vec::new();
        while rest.len() > 0
            invariant
                rest@.len() + out@.len() == n,
                n == views.len(),
                views == items_view(items0@),
                items0@.len() == n,
                no_defs(views),
                forall|i: int| 0 <= i < rest@.len() ==> rest@[i] == items0@[n - 1 - i],
                forall|i: int| 0 <= i < out@.len() ==> items0@[i] == BExprBodyExpr::Expr(out@[i]),
            decreases rest@.len(),
        {
            let ghost k = out@.len() as int;
            let item = rest.pop().unwrap();
            assert(item == items0@[k]);
            assert(item@ == views[k]);
            match item {
                // No item is a definition.
                BExprBodyExpr::Def(_, _) => unreached(),
                BExprBodyExpr::Expr(e) => {
                    out.push(e);
                },
            }
        }
        out.push(*self.1);
        assert(bexprs_view(out@) =~= body_exprs(self@)) by {
            assert forall|i: int| 0 <= i < out@.len() implies bexprs_view(out@)[i] == body_exprs(
                self@,
            )[i] by {
                if i < n {
                    assert(views[i] == items0@[i]@);
                }
            }
        }
        out
    }
}


/// The expression `b` rewritten bottom-up: every sub-expression is
/// rewritten first, and `step` is then applied to the node built from the
/// results.
pub open spec fn rewrite_with(b: BExprView, step: spec_fn(BExprView) -> BExprView) -> BExprView
    decreases b, 0nat,
{
    step(
        match b {
            BExprView::Var(_) => b,
            BExprView::Lit(_) => b,
            BExprView::BuiltinIdent(_) => b,
            BExprView::Assign(n, e) => BExprView::Assign(n, Box::new(rewrite_with(*e, step))),
            BExprView::If(c, t, e) => BExprView::If(
                Box::new(rewrite_with(*c, step)),
                Box::new(rewrite_with(*t, step)),
                Box::new(rewrite_with(*e, step)),
            ),
            BExprView::Let(bindings, body) => BExprView::Let(
                rewrite_bindings(bindings, step, bindings.len()),
                rewrite_body(body, step),
            ),
            BExprView::Lam(params, body) => BExprView::Lam(params, rewrite_body(body, step)),
            BExprView::App(f, args) => BExprView::App(
                Box::new(rewrite_with(*f, step)),
                rewrite_all(args, step, args.len()),
            ),
        },
    )
}

/// The first `n` of the expressions `es`, each rewritten with `step`.
pub open spec fn rewrite_all(
    es: Seq<BExprView>,
    step: spec_fn(BExprView) -> BExprView,
    n: nat,
) -> Seq<BExprView>
    decreases es, n,
{
    if n == 0 || n > es.len() {
        Seq::empty()
    } else {
        rewrite_all(es, step, (n - 1) as nat).push(rewrite_with(es[n - 1], step))
    }
}

/// The first `n` of the bindings `bs`, the expression of each rewritten
/// with `step`.
pub open spec fn rewrite_bindings(
    bs: Seq<(Seq<char>, BExprView)>,
    step: spec_fn(BExprView) -> BExprView,
    n: nat,
) -> Seq<(Seq<char>, BExprView)>
    decreases bs, n,
{
    if n == 0 || n > bs.len() {
        Seq::empty()
    } else {
        rewrite_bindings(bs, step, (n - 1) as nat).push(
            (bs[n - 1].0, rewrite_with(bs[n - 1].1, step)),
        )
    }
}

/// The body item with its expression rewritten with `step`.
pub open spec fn rewrite_item(
    item: BExprBodyExprView,
    step: spec_fn(BExprView) -> BExprView,
) -> BExprBodyExprView
    decreases item, 0nat,
{
    match item {
        BExprBodyExprView::Def(n, e) => BExprBodyExprView::Def(n, rewrite_with(e, step)),
        BExprBodyExprView::Expr(e) => BExprBodyExprView::Expr(rewrite_with(e, step)),
    }
}

/// The first `n` of the body items `items`, each rewritten with `step`.
pub open spec fn rewrite_items(
    items: Seq<BExprBodyExprView>,
    step: spec_fn(BExprView) -> BExprView,
    n: nat,
) -> Seq<BExprBodyExprView>
    decreases items, n,
{
    if n == 0 || n > items.len() {
        Seq::empty()
    } else {
        rewrite_items(items, step, (n - 1) as nat).push(rewrite_item(items[n - 1], step))
    }
}

/// The body with every expression in it rewritten with `step`.
pub open spec fn rewrite_body(
    body: BExprBodyView,
    step: spec_fn(BExprView) -> BExprView,
) -> BExprBodyView
    decreases body, 0nat,
{
    BExprBodyView {
        items: rewrite_items(body.items, step, body.items.len()),
        last: Box::new(rewrite_with(*body.last, step)),
    }
}

/// Whether the function `f` computes `step`: whatever it returns for an
/// expression is what `step` gives for that expression.
pub open spec fn implements<F: Fn(BExpr) -> BExpr>(
    f: &F,
    step: spec_fn(BExprView) -> BExprView,
) -> bool {
    forall|e: BExpr, r: BExpr| #[trigger] f.ensures((e,), r) ==> r@ == step(e@)
}

#[verifier::loop_isolation(false)]
fn rewrite_vec<F: Fn(BExpr) -> BExpr>(es: Vec<BExpr>, f: &F) -> (res: Vec<BExpr>)
    requires
        forall|e: BExpr| f.requires((e,)),
    ensures
        forall|step: spec_fn(BExprView) -> BExprView| #[trigger]
            implements(f, step) ==> bexprs_view(res@) == rewrite_all(
                bexprs_view(es@),
                step,
                es@.len(),
            ),
    decreases es,
{
    let ghost views = bexprs_view(es@);
    let n = es.len();
    let mut rest = reversed(es);
    let mut out: Vec<BExpr> = Vec::new();
    while rest.len() > 0
        invariant
            rest@.len() + out@.len() == n,
            forall|i: int| 0 <= i < rest@.len() ==> rest@[i] == es@[n - 1 - i],
            forall|step: spec_fn(BExprView) -> BExprView| #[trigger]
                implements(f, step) ==> bexprs_view(out@) == rewrite_all(
                    views,
                    step,
                    out@.len(),
                ),
        decreases rest@.len(),
    {
        let ghost k = out@.len() as int;
        let ghost old_out = out@;
        let e = rest.pop().unwrap();
        assert(e == es@[k]);
        assert(e@ == views[k]);
        let r = e.rewrite(f);
        out.push(r);
        assert forall|step: spec_fn(BExprView) -> BExprView| #[trigger]
            implements(f, step) implies bexprs_view(out@) == rewrite_all(
            views,
            step,
            out@.len(),
        ) by {
            assert(bexprs_view(out@) =~= bexprs_view(old_out).push(r@));
        }
    }
    out
}

#[verifier::loop_isolation(false)]
fn rewrite_binding_vec<F: Fn(BExpr) -> BExpr>(bs: Vec<(String, BExpr)>, f: &F) -> (res: Vec<
    (String, BExpr),
>)
    requires
        forall|e: BExpr| f.requires((e,)),
    ensures
        forall|step: spec_fn(BExprView) -> BExprView| #[trigger]
            implements(f, step) ==> bindings_view(res@) == rewrite_bindings(
                bindings_view(bs@),
                step,
                bs@.len(),
            ),
    decreases bs,
{
    let ghost views = bindings_view(bs@);
    let n = bs.len();
    let mut rest = reversed(bs);
    let mut out: Vec<(String, BExpr)> = Vec::new();
    while rest.len() > 0
        invariant
            rest@.len() + out@.len() == n,
            forall|i: int| 0 <= i < rest@.len() ==> rest@[i] == bs@[n - 1 - i],
            forall|step: spec_fn(BExprView) -> BExprView| #[trigger]
                implements(f, step) ==> bindings_view(out@) == rewrite_bindings(
                    views,
                    step,
                    out@.len(),
                ),
        decreases rest@.len(),
    {
        let ghost k = out@.len() as int;
        let ghost old_out = out@;
        let b = rest.pop().unwrap();
        assert(b == bs@[k]);
        assert((b.0@, b.1@) == views[k]);
        let (name, e) = b;
        let r = e.rewrite(f);
        out.push((name, r));
        assert forall|step: spec_fn(BExprView) -> BExprView| #[trigger]
            implements(f, step) implies bindings_view(out@) == rewrite_bindings(
            views,
            step,
            out@.len(),
        ) by {
            assert(bindings_view(out@) =~= bindings_view(old_out).push((name@, r@)));
        }
    }
    out
}

#[verifier::loop_isolation(false)]
fn rewrite_item_vec<F: Fn(BExpr) -> BExpr>(items: Vec<BExprBodyExpr>, f: &F) -> (res: Vec<
    BExprBodyExpr,
>)
    requires
        forall|e: BExpr| f.requires((e,)),
    ensures
        forall|step: spec_fn(BExprView) -> BExprView| #[trigger]
            implements(f, step) ==> items_view(res@) == rewrite_items(
                items_view(items@),
                step,
                items@.len(),
            ),
    decreases items,
{
    let ghost views = items_view(items@);
    let n = items.len();
    let mut rest = reversed(items);
    let mut out: Vec<BExprBodyExpr> = Vec::new();
    while rest.len() > 0
        invariant
            rest@.len() + out@.len() == n,
            forall|i: int| 0 <= i < rest@.len() ==> rest@[i] == items@[n - 1 - i],
            forall|step: spec_fn(BExprView) -> BExprView| #[trigger]
                implements(f, step) ==> items_view(out@) == rewrite_items(
                    views,
                    step,
                    out@.len(),
                ),
        decreases rest@.len(),
    {
        let ghost k = out@.len() as int;
        let ghost old_out = out@;
        let item = rest.pop().unwrap();
        assert(item == items@[k]);
        assert(item@ == views[k]);
        let r = item.rewrite(f);
        out.push(r);
        assert forall|step: spec_fn(BExprView) -> BExprView| #[trigger]
            implements(f, step) implies items_view(out@) == rewrite_items(
            views,
            step,
            out@.len(),
        ) by {
            assert(items_view(out@) =~= items_view(old_out).push(r@));
        }
    }
    out
}

impl BExprBodyExpr {
    /// Rewrites the expression of this item bottom-up with `f`.
    pub fn rewrite<F: Fn(BExpr) -> BExpr>(self, f: &F) -> (res: BExprBodyExpr)
        requires
            forall|e: BExpr| f.requires((e,)),
        ensures
            forall|step: spec_fn(BExprView) -> BExprView| #[trigger]
                implements(f, step) ==> res@ == rewrite_item(self@, step),
        decreases self,
    {
        match self {
            BExprBodyExpr::Def(n, e) => BExprBodyExpr::Def(n, e.rewrite(f)),
            BExprBodyExpr::Expr(e) => BExprBodyExpr::Expr(e.rewrite(f)),
        }
    }
}

impl BExprBody {
    /// Rewrites every expression of this body bottom-up with `f`.
    pub fn rewrite<F: Fn(BExpr) -> BExpr>(self, f: &F) -> (res: BExprBody)
        requires
            forall|e: BExpr| f.requires((e,)),
        ensures
            forall|step: spec_fn(BExprView) -> BExprView| #[trigger]
                implements(f, step) ==> res@ == rewrite_body(self@, step),
        decreases self,
    {
        let ghost items0 = self.0@;
        assert(self@.items =~= items_view(items0));
        let items = rewrite_item_vec(self.0, f);
        let last = (*self.1).rewrite(f);
        let res = BExprBody(items, Box::new(last));
        assert(res@.items =~= items_view(items@));
        res
    }
}

impl BExpr {
    /// Rewrites this expression bottom-up: every sub-expression first, then
    /// `f` on the node built from the results.
    pub fn rewrite<F: Fn(BExpr) -> BExpr>(self, f: &F) -> (res: BExpr)
        requires
            forall|e: BExpr| f.requires((e,)),
        ensures
            forall|step: spec_fn(BExprView) -> BExprView| #[trigger]
                implements(f, step) ==> res@ == rewrite_with(self@, step),
        decreases self,
    {
        let node = match self {
            BExpr::Var(n) => BExpr::Var(n),
            BExpr::Lit(l) => BExpr::Lit(l),
            BExpr::BuiltinIdent(n) => BExpr::BuiltinIdent(n),
            BExpr::Assign(n, e) => BExpr::Assign(n, Box::new((*e).rewrite(f))),
            BExpr::If(c, t, e) => BExpr::If(
                Box::new((*c).rewrite(f)),
                Box::new((*t).rewrite(f)),
                Box::new((*e).rewrite(f)),
            ),
            BExpr::Let(bindings, body) => {
                assert(self@->Let_0 =~= bindings_view(bindings@));
                let new_bindings = rewrite_binding_vec(bindings, f);
                let new_body = body.rewrite(f);
                let node = BExpr::Let(new_bindings, new_body);
                assert(node@->Let_0 =~= bindings_view(new_bindings@));
                node
            },
            BExpr::Lam(params, body) => BExpr::Lam(params, body.rewrite(f)),
            BExpr::App(r, es) => {
                assert(self@->App_1 =~= bexprs_view(es@));
                let new_r = (*r).rewrite(f);
                let new_es = rewrite_vec(es, f);
                let node = BExpr::App(Box::new(new_r), new_es);
                assert(node@->App_1 =~= bexprs_view(new_es@));
                node
            },
        };
        f(node)
    }
}


/// The names of the bindings `bs`, in order.
pub open spec fn bound_names(bs: Seq<(Seq<char>, BExprView)>) -> Seq<Seq<char>> {
    Seq::new(bs.len(), |i: int| bs[i].0)
}

/// The expressions of the bindings `bs`, in order.
pub open spec fn bound_values(bs: Seq<(Seq<char>, BExprView)>) -> Seq<BExprView> {
    Seq::new(bs.len(), |i: int| bs[i].1)
}

/// A `let` turned into the call of a function: the function's parameters
/// are the bound names, its body is the body of the `let`, and its
/// arguments are the bound expressions. Any other expression is left as it
/// is.
pub open spec fn remove_let_step(e: BExprView) -> BExprView {
    match e {
        BExprView::Let(bs, body) => BExprView::App(
            Box::new(BExprView::Lam(bound_names(bs), body)),
            bound_values(bs),
        ),
        _ => e,
    }
}

/// [`remove_let_step`] as a function value.
pub open spec fn remove_let_rule() -> spec_fn(BExprView) -> BExprView {
    |e: BExprView| remove_let_step(e)
}

/// The expression with every `let` in it turned into the call of a function.
pub open spec fn without_let(b: BExprView) -> BExprView {
    rewrite_with(b, remove_let_rule())
}

/// A `let` or a function with the definitions of its body pulled out. Any
/// other expression is left as it is.
pub open spec fn lift_defines_step(e: BExprView) -> BExprView {
    match e {
        BExprView::Let(bs, body) => BExprView::Let(bs, pulled(body)),
        BExprView::Lam(params, body) => BExprView::Lam(params, pulled(body)),
        _ => e,
    }
}

/// [`lift_defines_step`] as a function value.
pub open spec fn lift_defines_rule() -> spec_fn(BExprView) -> BExprView {
    |e: BExprView| lift_defines_step(e)
}

/// The expression with the definitions of every body in it pulled out.
pub open spec fn without_defines(b: BExprView) -> BExprView {
    rewrite_with(b, lift_defines_rule())
}

fn remove_let_at(e: BExpr) -> (r: BExpr)
    ensures
        r@ == remove_let_step(e@),
{
    match e {
        BExpr::Let(bs, body) => {
            let ghost views = bindings_view(bs@);
            assert(e@->Let_0 =~= views);
            let n = bs.len();
            let mut rest = reversed(bs);
            let mut names: Vec<String> = Vec::new();
            let mut values: Vec<BExpr> = Vec::new();
            while rest.len() > 0
                invariant
                    rest@.len() + names@.len() == n,
                    names@.len() == values@.len(),
                    n == bs@.len(),
                    views == bindings_view(bs@),
                    forall|i: int| 0 <= i < rest@.len() ==> rest@[i] == bs@[n - 1 - i],
                    forall|i: int| 0 <= i < names@.len() ==> names@[i]@ == views[i].0,
                    forall|i: int| 0 <= i < values@.len() ==> values@[i]@ == views[i].1,
                decreases rest@.len(),
            {
                let ghost k = names@.len() as int;
                let b = rest.pop().unwrap();
                assert(b == bs@[k]);
                let (name, value) = b;
                names.push(name);
                values.push(value);
            }
            assert(names_view(names@) =~= bound_names(views));
            let ghost body_view = body@;
            let lam = BExpr::Lam(names, body);
            assert(lam@ == BExprView::Lam(bound_names(views), body_view));
            let r = BExpr::App(Box::new(lam), values);
            assert(r@->App_1 =~= bound_values(views));
            assert(r@->App_0 == lam@);
            assert(e@ == BExprView::Let(views, body_view));
            r
        },
        other => other,
    }
}

fn lift_defines_at(e: BExpr) -> (r: BExpr)
    ensures
        r@ == lift_defines_step(e@),
{
    match e {
        BExpr::Let(bs, body) => {
            let ghost views = bindings_view(bs@);
            assert(e@->Let_0 =~= views);
            let r = BExpr::Let(bs, body.pull_defines());
            assert(r@->Let_0 =~= views);
            r
        },
        BExpr::Lam(params, body) => BExpr::Lam(params, body.pull_defines()),
        other => other,
    }
}

impl BExpr {
    /// Turns every `let` into the call of a function.
    pub fn remove_let(self) -> (res: BExpr)
        ensures
            res@ == without_let(self@),
    {
        let res = self.rewrite(&remove_let_at);
        assert(implements(&remove_let_at, remove_let_rule()));
        res
    }

    /// Pulls the definitions out of every body: each becomes an assignment
    /// to a name that a `let` around the body declares.
    pub fn lift_defines(self) -> (res: BExpr)
        ensures
            res@ == without_defines(self@),
    {
        let res = self.rewrite(&lift_defines_at);
        assert(implements(&lift_defines_at, lift_defines_rule()));
        res
    }
}

} // verus!
