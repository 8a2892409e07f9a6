use crate::base_expr::names_view;
use crate::cdsl::join_text;
use crate::utils::{decimal, push_decimal, push_signed_decimal, signed_decimal};
use itertools::Itertools;
use vstd::prelude::*;

verus! {

/// A literal of the string-named form.
#[derive(Debug, PartialEq)]
pub enum ExprLit {
    StringLit(String),
    NumLit(i64),
    Void,
}

/// An expression of the string-named form, in which variables are plain
/// names. The variants follow the stages of the translation: functions and
/// calls of any arity, then of one parameter, then of one body, then with
/// a continuation.
#[derive(Debug, PartialEq)]
pub enum LExpr {
    Lam(Vec<String>, Vec<LExpr>),
    App(Box<LExpr>, Vec<LExpr>),
    Var(String),
    BuiltinIdent(String),
    BuiltinApp(String, Box<LExpr>),
    Lit(ExprLit),
    LamOne(String, Vec<LExpr>),
    AppOne(Box<LExpr>, Box<LExpr>),
    LamOneOne(String, Box<LExpr>),
    AppOneCont(Box<LExpr>, Box<LExpr>, Box<LExpr>),
    LamOneOneCont(String, String, Box<LExpr>),
}

/// The mathematical value of an [`ExprLit`].
pub enum ExprLitView {
    StringLit(Seq<char>),
    NumLit(int),
    Void,
}

/// The mathematical value of an [`LExpr`].
pub enum LExprView {
    Lam(Seq<Seq<char>>, Seq<LExprView>),
    App(Box<LExprView>, Seq<LExprView>),
    Var(Seq<char>),
    BuiltinIdent(Seq<char>),
    BuiltinApp(Seq<char>, Box<LExprView>),
    Lit(ExprLitView),
    LamOne(Seq<char>, Seq<LExprView>),
    AppOne(Box<LExprView>, Box<LExprView>),
    LamOneOne(Seq<char>, Box<LExprView>),
    AppOneCont(Box<LExprView>, Box<LExprView>, Box<LExprView>),
    LamOneOneCont(Seq<char>, Seq<char>, Box<LExprView>),
}

impl View for ExprLit {
    type V = ExprLitView;

    open spec fn view(&self) -> ExprLitView {
        match self {
            ExprLit::StringLit(s) => ExprLitView::StringLit(s@),
            ExprLit::NumLit(n) => ExprLitView::NumLit(*n as int),
            ExprLit::Void => ExprLitView::Void,
        }
    }
}

impl Clone for ExprLit {
    fn clone(&self) -> (res: Self)
        ensures
            res@ == self@,
    {
        match self {
            ExprLit::StringLit(s) => ExprLit::StringLit(s.clone()),
            ExprLit::NumLit(n) => ExprLit::NumLit(*n),
            ExprLit::Void => ExprLit::Void,
        }
    }
}

impl LExpr {
    /// The mathematical value of this term.
    pub open spec fn model(self) -> LExprView
        decreases self,
    {
        match self {
            LExpr::Lam(args, body) => LExprView::Lam(
                names_view(args@),
                Seq::new(
                    body.len() as nat,
                    |i: int|
                        if 0 <= i < body.len() {
                            body[i].model()
                        } else {
                            LExprView::Lit(ExprLitView::Void)
                        },
                ),
            ),
            LExpr::App(f, args) => LExprView::App(
                Box::new((*f).model()),
                Seq::new(
                    args.len() as nat,
                    |i: int|
                        if 0 <= i < args.len() {
                            args[i].model()
                        } else {
                            LExprView::Lit(ExprLitView::Void)
                        },
                ),
            ),
            LExpr::Var(n) => LExprView::Var(n@),
            LExpr::BuiltinIdent(n) => LExprView::BuiltinIdent(n@),
            LExpr::BuiltinApp(n, e) => LExprView::BuiltinApp(n@, Box::new((*e).model())),
            LExpr::Lit(l) => LExprView::Lit(l@),
            LExpr::LamOne(arg, body) => LExprView::LamOne(
                arg@,
                Seq::new(
                    body.len() as nat,
                    |i: int|
                        if 0 <= i < body.len() {
                            body[i].model()
                        } else {
                            LExprView::Lit(ExprLitView::Void)
                        },
                ),
            ),
            LExpr::AppOne(f, a) => LExprView::AppOne(
                Box::new((*f).model()),
                Box::new((*a).model()),
            ),
            LExpr::LamOneOne(arg, e) => LExprView::LamOneOne(arg@, Box::new((*e).model())),
            LExpr::AppOneCont(f, a, k) => LExprView::AppOneCont(
                Box::new((*f).model()),
                Box::new((*a).model()),
                Box::new((*k).model()),
            ),
            LExpr::LamOneOneCont(arg, k, e) => LExprView::LamOneOneCont(
                arg@,
                k@,
                Box::new((*e).model()),
            ),
        }
    }
}

impl View for LExpr {
    type V = LExprView;

    open spec fn view(&self) -> LExprView {
        self.model()
    }
}

/// The views of a vector of expressions, in order.
pub open spec fn lexprs_view(es: Seq<LExpr>) -> Seq<LExprView> {
    Seq::new(es.len(), |i: int| es[i]@)
}

/// A map from names to numbers, later bindings of a name hiding earlier
/// ones.
#[derive(Debug, PartialEq)]
pub struct Env(pub Vec<(String, usize)>);

/// The bindings `entries` as a map: each binding in turn, a later one of
/// a name replacing an earlier one.
pub open spec fn env_map(entries: Seq<(Seq<char>, nat)>, n: nat) -> Map<Seq<char>, nat>
    decreases n,
{
    if n == 0 || n > entries.len() {
        Map::empty()
    } else {
        env_map(entries, (n - 1) as nat).insert(entries[n - 1].0, entries[n - 1].1)
    }
}

/// The views of a vector of bindings, in order.
pub open spec fn entries_view(entries: Seq<(String, usize)>) -> Seq<(Seq<char>, nat)> {
    Seq::new(entries.len(), |i: int| (entries[i].0@, entries[i].1 as nat))
}

impl View for Env {
    type V = Map<Seq<char>, nat>;

    open spec fn view(&self) -> Map<Seq<char>, nat> {
        env_map(entries_view(self.0@), self.0@.len())
    }
}

proof fn lemma_env_map_append(a: Seq<(Seq<char>, nat)>, b: Seq<(Seq<char>, nat)>, n: nat)
    requires
        n <= b.len(),
    ensures
        env_map(a + b, a.len() + n) == env_map(a, a.len()).union_prefer_right(env_map(b, n)),
    decreases n,
{
    let all = a + b;
    if n == 0 {
        lemma_env_map_prefix(a, all, a.len());
        assert(env_map(a, a.len()).union_prefer_right(env_map(b, 0)) =~= env_map(a, a.len()));
    } else {
        lemma_env_map_append(a, b, (n - 1) as nat);
        assert(all[a.len() + n - 1] == b[n - 1]);
        assert(env_map(all, a.len() + n) =~= env_map(a, a.len()).union_prefer_right(
            env_map(b, n),
        ));
    }
}

proof fn lemma_env_map_prefix(a: Seq<(Seq<char>, nat)>, all: Seq<(Seq<char>, nat)>, n: nat)
    requires
        n <= a.len() <= all.len(),
        forall|i: int| 0 <= i < a.len() ==> all[i] == a[i],
    ensures
        env_map(all, n) == env_map(a, n),
    decreases n,
{
    if n > 0 {
        lemma_env_map_prefix(a, all, (n - 1) as nat);
    }
}

impl Env {
    /// The map `parent` with each of `vals` bound in turn.
    pub fn new(parent: &Env, vals: Vec<(String, usize)>) -> (res: Env)
        ensures
            res@ == parent@.union_prefer_right(env_map(entries_view(vals@), vals@.len())),
    {
        let mut entries: Vec<(String, usize)> = Vec::new();
        let mut i: usize = 0;
        while i < parent.0.len()
            invariant
                i <= parent.0@.len(),
                entries@.len() == i,
                forall|j: int|
                    0 <= j < i ==> (#[trigger] entries@[j]).0@ == parent.0@[j].0@ && entries@[j].1
                        == parent.0@[j].1,
            decreases parent.0@.len() - i,
        {
            entries.push((parent.0[i].0.clone(), parent.0[i].1));
            i += 1;
        }
        assert(entries_view(entries@) =~= entries_view(parent.0@));
        let ghost base = entries_view(entries@);
        let ghost more = entries_view(vals@);
        let mut vals = vals;
        entries.append(&mut vals);
        proof {
            assert(entries_view(entries@) =~= base + more);
            lemma_env_map_append(base, more, more.len());
        }
        Env(entries)
    }

    /// The number that `key` is bound to, if any.
    pub fn get(&self, key: &str) -> (res: Option<usize>)
        ensures
            match res {
                Some(v) => self@.contains_key(key@) && self@[key@] == v as nat,
                None => !self@.contains_key(key@),
            },
    {
        let ghost entries = entries_view(self.0@);
        let wanted = String::from_str(key);
        assert(forall|k: Seq<char>| !(#[trigger] env_map(entries, 0).contains_key(k)));
        let mut found: Option<usize> = None;
        let mut i: usize = 0;
        while i < self.0.len()
            invariant
                i <= self.0@.len(),
                entries == entries_view(self.0@),
                wanted@ == key@,
                match found {
                    Some(v) => env_map(entries, i as nat).contains_key(key@) && env_map(
                        entries,
                        i as nat,
                    )[key@] == v as nat,
                    None => !env_map(entries, i as nat).contains_key(key@),
                },
            decreases self.0@.len() - i,
        {
            assert(entries[i as int] == (self.0@[i as int].0@, self.0@[i as int].1 as nat));
            if self.0[i].0 == wanted {
                found = Some(self.0[i].1);
            }
            i += 1;
        }
        found
    }
}

/// The arity of a lifted function.
#[derive(Clone, Copy, Debug, PartialEq)]
pub enum LamType {
    OneArg,
    TwoArg,
}

impl LamType {
    /// The runtime function that makes a closure of this arity.
    pub fn ctor_func(self) -> (name: String)
        ensures
            name@ == match self {
                LamType::OneArg => "object_closure_one_new"@,
                LamType::TwoArg => "object_closure_two_new"@,
            },
    {
        match self {
            LamType::OneArg => String::from_str("object_closure_one_new"),
            LamType::TwoArg => String::from_str("object_closure_two_new"),
        }
    }

    /// The number of arguments.
    pub fn num_args(self) -> (n: usize)
        ensures
            n == match self {
                LamType::OneArg => 1usize,
                LamType::TwoArg => 2usize,
            },
    {
        match self {
            LamType::OneArg => 1,
            LamType::TwoArg => 2,
        }
    }
}

/// An expression with explicit environments.
#[allow(inconsistent_fields)]
#[derive(Debug, PartialEq)]
pub enum LExEnv {
    Lam { arg: String, expr: Box<LExEnv>, env: Env, id: usize },
    LamCont { arg: String, cont: String, expr: Box<LExEnv>, env: Env, id: usize },
    App1 { cont: Box<LExEnv>, rand: Box<LExEnv>, env: Env },
    App2 { rator: Box<LExEnv>, rand: Box<LExEnv>, cont: Box<LExEnv>, env: Env },
    Var { name: String, env: Env },
    LamRef { id: usize, lam_type: LamType },
    BuiltinIdent(String),
    BuiltinApp(String, Box<LExEnv>),
    Lit(ExprLit),
}

/// The text of a literal.
pub open spec fn lit_text(l: ExprLitView) -> Seq<char> {
    match l {
        ExprLitView::StringLit(s) => "\""@ + s + "\""@,
        ExprLitView::NumLit(n) => signed_decimal(n),
        ExprLitView::Void => "NULL"@,
    }
}

/// The text of the expression `e`, as an S-expression.
pub open spec fn lexpr_text(e: LExprView) -> Seq<char>
    decreases e, 0nat,
{
    match e {
        LExprView::Lam(args, body) => "(lambda ("@ + join_text(args, " "@) + ")"@ + spaced_text(
            body,
            body.len(),
        ) + ")"@,
        LExprView::App(f, args) => "("@ + lexpr_text(*f) + spaced_text(args, args.len()) + ")"@,
        LExprView::Var(n) => n,
        LExprView::BuiltinIdent(n) => n,
        LExprView::Lit(l) => lit_text(l),
        LExprView::BuiltinApp(n, operand) => "("@ + n + " "@ + lexpr_text(*operand) + ")"@,
        LExprView::LamOneOne(arg, body) => "(lambda ("@ + arg + ") "@ + lexpr_text(*body) + ")"@,
        LExprView::AppOne(f, a) => "("@ + lexpr_text(*f) + " "@ + lexpr_text(*a) + ")"@,
        LExprView::LamOne(arg, body) => "(lambda ("@ + arg + ")"@ + spaced_text(body, body.len())
            + ")"@,
        LExprView::LamOneOneCont(arg, k, body) => "(lambda ("@ + arg + " "@ + k + ") "@
            + lexpr_text(*body) + ")"@,
        LExprView::AppOneCont(f, a, k) => "("@ + lexpr_text(*f) + " "@ + lexpr_text(*a) + " "@
            + lexpr_text(*k) + ")"@,
    }
}

/// The texts of the first `n` of `es`, a space before each.
pub open spec fn spaced_text(es: Seq<LExprView>, n: nat) -> Seq<char>
    decreases es, n,
{
    if n == 0 || n > es.len() {
        Seq::empty()
    } else {
        spaced_text(es, (n - 1) as nat) + " "@ + lexpr_text(es[n - 1])
    }
}

/// `Itertools::join` of the crate itertools, on the strings of `names`:
/// the strings one after another, with `sep` between each two, and the
/// empty string where there is none.
#[verifier::external_body]
fn join_names(names: &Vec<String>, sep: &str) -> (res: String)
    ensures
        res@ == join_text(names_view(names@), sep@),
{
    names.iter().join(sep)
}

impl ExprLit {
    /// Appends the text of this literal to `out`.
    pub fn write_text(&self, out: &mut String)
        ensures
            final(out)@ == old(out)@ + lit_text(self@),
    {
        match self {
            ExprLit::StringLit(s) => {
                out.append("\"");
                out.append(s.as_str());
                out.append("\"");
                assert(out@ =~= old(out)@ + lit_text(self@));
            },
            ExprLit::NumLit(n) => {
                push_signed_decimal(out, *n);
            },
            ExprLit::Void => {
                out.append("NULL");
            },
        }
    }

    /// The text of this literal.
    pub fn to_text(&self) -> (res: String)
        ensures
            res@ == lit_text(self@),
    {
        let mut out = String::new();
        self.write_text(&mut out);
        assert(out@ =~= lit_text(self@));
        out
    }
}

#[verifier::loop_isolation(false)]
fn write_spaced(es: &Vec<LExpr>, out: &mut String)
    ensures
        final(out)@ == old(out)@ + spaced_text(lexprs_view(es@), es@.len()),
    decreases es,
{
    let ghost views = lexprs_view(es@);
    let mut i: usize = 0;
    assert(out@ =~= old(out)@ + spaced_text(views, 0));
    while i < es.len()
        invariant
            i <= es@.len(),
            out@ == old(out)@ + spaced_text(views, i as nat),
        decreases es@.len() - i,
    {
        out.append(" ");
        es[i].write_text(out);
        assert(views[i as int] == es@[i as int]@);
        i += 1;
        assert(out@ =~= old(out)@ + spaced_text(views, i as nat));
    }
}

impl LExpr {
    /// Appends the text of this expression to `out`.
    #[verifier::rlimit(60)]
    pub fn write_text(&self, out: &mut String)
        ensures
            final(out)@ == old(out)@ + lexpr_text(self@),
        decreases self,
    {
        match self {
            LExpr::Lam(args, body) => {
                assert(self@->Lam_1 =~= lexprs_view(body@));
                out.append("(lambda (");
                let joined = join_names(args, " ");
                out.append(joined.as_str());
                out.append(")");
                write_spaced(body, out);
                out.append(")");
                assert(out@ =~= old(out)@ + lexpr_text(self@));
            },
            LExpr::App(f, args) => {
                assert(self@->App_1 =~= lexprs_view(args@));
                out.append("(");
                f.write_text(out);
                write_spaced(args, out);
                out.append(")");
                assert(out@ =~= old(out)@ + lexpr_text(self@));
            },
            LExpr::Var(n) => {
                out.append(n.as_str());
            },
            LExpr::BuiltinIdent(n) => {
                out.append(n.as_str());
            },
            LExpr::Lit(l) => {
                l.write_text(out);
            },
            LExpr::BuiltinApp(n, operand) => {
                out.append("(");
                out.append(n.as_str());
                out.append(" ");
                operand.write_text(out);
                out.append(")");
                assert(out@ =~= old(out)@ + lexpr_text(self@));
            },
            LExpr::LamOneOne(arg, body) => {
                out.append("(lambda (");
                out.append(arg.as_str());
                out.append(") ");
                body.write_text(out);
                out.append(")");
                assert(out@ =~= old(out)@ + lexpr_text(self@));
            },
            LExpr::AppOne(f, a) => {
                out.append("(");
                f.write_text(out);
                out.append(" ");
                a.write_text(out);
                out.append(")");
                assert(out@ =~= old(out)@ + lexpr_text(self@));
            },
            LExpr::LamOne(arg, body) => {
                assert(self@->LamOne_1 =~= lexprs_view(body@));
                out.append("(lambda (");
                out.append(arg.as_str());
                out.append(")");
                write_spaced(body, out);
                out.append(")");
                assert(out@ =~= old(out)@ + lexpr_text(self@));
            },
            LExpr::LamOneOneCont(arg, k, body) => {
                out.append("(lambda (");
                out.append(arg.as_str());
                out.append(" ");
                out.append(k.as_str());
                out.append(") ");
                body.write_text(out);
                out.append(")");
                assert(out@ =~= old(out)@ + lexpr_text(self@));
            },
            LExpr::AppOneCont(f, a, k) => {
                out.append("(");
                f.write_text(out);
                out.append(" ");
                a.write_text(out);
                out.append(" ");
                k.write_text(out);
                out.append(")");
                assert(out@ =~= old(out)@ + lexpr_text(self@));
            },
        }
    }

    /// The text of this expression, as an S-expression.
    pub fn to_text(&self) -> (res: String)
        ensures
            res@ == lexpr_text(self@),
    {
        let mut out = String::new();
        self.write_text(&mut out);
        assert(out@ =~= lexpr_text(self@));
        out
    }
}


#[verifier::loop_isolation(false)]
fn dup_all(es: &Vec<LExpr>) -> (res: Vec<LExpr>)
    ensures
        lexprs_view(res@) == lexprs_view(es@),
    decreases es,
{
    let mut out: Vec<LExpr> = Vec::new();
    let mut i: usize = 0;
    while i < es.len()
        invariant
            i <= es@.len(),
            out@.len() == i,
            forall|j: int| 0 <= j < i ==> out@[j]@ == es@[j]@,
        decreases es@.len() - i,
    {
        out.push(es[i].dup());
        i += 1;
    }
    assert(lexprs_view(out@) =~= lexprs_view(es@));
    out
}

fn dup_names(names: &Vec<String>) -> (res: Vec<String>)
    ensures
        names_view(res@) == names_view(names@),
{
    let mut out: Vec<String> = Vec::new();
    let mut i: usize = 0;
    while i < names.len()
        invariant
            i <= names@.len(),
            out@.len() == i,
            forall|j: int| 0 <= j < i ==> out@[j]@ == names@[j]@,
        decreases names@.len() - i,
    {
        out.push(names[i].clone());
        i += 1;
    }
    assert(names_view(out@) =~= names_view(names@));
    out
}

impl LExpr {
    /// A copy of this expression.
    pub fn dup(&self) -> (res: LExpr)
        ensures
            res@ == self@,
        decreases self,
    {
        match self {
            LExpr::Lam(args, body) => {
                let body2 = dup_all(body);
                assert(self@->Lam_1 =~= lexprs_view(body@));
                let res = LExpr::Lam(dup_names(args), body2);
                assert(res@->Lam_1 =~= lexprs_view(body2@));
                res
            },
            LExpr::App(f, args) => {
                let args2 = dup_all(args);
                assert(self@->App_1 =~= lexprs_view(args@));
                let res = LExpr::App(Box::new(f.dup()), args2);
                assert(res@->App_1 =~= lexprs_view(args2@));
                res
            },
            LExpr::Var(n) => LExpr::Var(n.clone()),
            LExpr::BuiltinIdent(n) => LExpr::BuiltinIdent(n.clone()),
            LExpr::BuiltinApp(n, e) => LExpr::BuiltinApp(n.clone(), Box::new(e.dup())),
            LExpr::Lit(l) => LExpr::Lit(l.clone()),
            LExpr::LamOne(arg, body) => {
                let body2 = dup_all(body);
                assert(self@->LamOne_1 =~= lexprs_view(body@));
                let res = LExpr::LamOne(arg.clone(), body2);
                assert(res@->LamOne_1 =~= lexprs_view(body2@));
                res
            },
            LExpr::AppOne(f, a) => LExpr::AppOne(Box::new(f.dup()), Box::new(a.dup())),
            LExpr::LamOneOne(arg, e) => LExpr::LamOneOne(arg.clone(), Box::new(e.dup())),
            LExpr::AppOneCont(f, a, k) => LExpr::AppOneCont(
                Box::new(f.dup()),
                Box::new(a.dup()),
                Box::new(k.dup()),
            ),
            LExpr::LamOneOneCont(arg, k, e) => LExpr::LamOneOneCont(
                arg.clone(),
                k.clone(),
                Box::new(e.dup()),
            ),
        }
    }
}

impl Clone for LExpr {
    fn clone(&self) -> (res: Self)
        ensures
            res@ == self@,
    {
        self.dup()
    }
}

/// The text of the expression `e`, as an S-expression; the environments
/// are left out.
pub open spec fn lexenv_text(e: LExEnv) -> Seq<char>
    decreases e,
{
    match e {
        LExEnv::Lam { arg, expr, env, id } => "(lambda ("@ + arg@ + ") "@ + lexenv_text(*expr)
            + ")"@,
        LExEnv::LamCont { arg, cont, expr, env, id } => "(lambda ("@ + arg@ + " "@ + cont@ + ") "@
            + lexenv_text(*expr) + ")"@,
        LExEnv::App1 { cont, rand, env } => "("@ + lexenv_text(*cont) + " "@ + lexenv_text(*rand)
            + ")"@,
        LExEnv::App2 { rator, rand, cont, env } => "("@ + lexenv_text(*rator) + " "@ + lexenv_text(
            *rand,
        ) + " "@ + lexenv_text(*cont) + ")"@,
        LExEnv::Var { name, env } => name@,
        LExEnv::BuiltinIdent(name) => name@,
        LExEnv::LamRef { id, lam_type } => "lambda<"@ + decimal(
            match lam_type {
                LamType::OneArg => 1nat,
                LamType::TwoArg => 2nat,
            },
        ) + ">:"@ + decimal(id as nat),
        LExEnv::Lit(l) => lit_text(l@),
        LExEnv::BuiltinApp(name, operand) => "("@ + name@ + " "@ + lexenv_text(*operand) + ")"@,
    }
}

impl LExEnv {
    /// Appends the text of this expression to `out`.
    pub fn write_text(&self, out: &mut String)
        ensures
            final(out)@ == old(out)@ + lexenv_text(*self),
        decreases self,
    {
        match self {
            LExEnv::Lam { arg, expr, env, id } => {
                out.append("(lambda (");
                out.append(arg.as_str());
                out.append(") ");
                expr.write_text(out);
                out.append(")");
                assert(out@ =~= old(out)@ + lexenv_text(*self));
            },
            LExEnv::LamCont { arg, cont, expr, env, id } => {
                out.append("(lambda (");
                out.append(arg.as_str());
                out.append(" ");
                out.append(cont.as_str());
                out.append(") ");
                expr.write_text(out);
                out.append(")");
                assert(out@ =~= old(out)@ + lexenv_text(*self));
            },
            LExEnv::App1 { cont, rand, env } => {
                out.append("(");
                cont.write_text(out);
                out.append(" ");
                rand.write_text(out);
                out.append(")");
                assert(out@ =~= old(out)@ + lexenv_text(*self));
            },
            LExEnv::App2 { rator, rand, cont, env } => {
                out.append("(");
                rator.write_text(out);
                out.append(" ");
                rand.write_text(out);
                out.append(" ");
                cont.write_text(out);
                out.append(")");
                assert(out@ =~= old(out)@ + lexenv_text(*self));
            },
            LExEnv::Var { name, env } => {
                out.append(name.as_str());
            },
            LExEnv::BuiltinIdent(name) => {
                out.append(name.as_str());
            },
            LExEnv::LamRef { id, lam_type } => {
                out.append("lambda<");
                push_decimal(out, lam_type.num_args() as u64);
                out.append(">:");
                push_decimal(out, *id as u64);
                assert(out@ =~= old(out)@ + lexenv_text(*self));
            },
            LExEnv::Lit(l) => {
                l.write_text(out);
            },
            LExEnv::BuiltinApp(name, operand) => {
                out.append("(");
                out.append(name.as_str());
                out.append(" ");
                operand.write_text(out);
                out.append(")");
                assert(out@ =~= old(out)@ + lexenv_text(*self));
            },
        }
    }

    /// The text of this expression, as an S-expression.
    pub fn to_text(&self) -> (res: String)
        ensures
            res@ == lexenv_text(*self),
    {
        let mut out = String::new();
        self.write_text(&mut out);
        assert(out@ =~= lexenv_text(*self));
        out
    }
}

} // verus!
