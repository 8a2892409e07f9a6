use crate::base_expr::{BExpr, BExprBody, BExprBodyView, BExprView};
use crate::bind::{bind_demand, bind_tree, first_unbound};
use crate::cdsl::{
    decl_text, decls_view, members_view, stmts_view, CDecl, CDeclView, CStmt, CStmtView, CType,
    CTypeView, ToC,
};
use crate::codegen::{
    do_codegen, env_structs, func_decls, func_protos, mk_ptr_to_struct, mk_unreachable,
    object_type, object_type_view, program_demand, program_fault, ptr_to_struct, push_stmt,
    root_stmts, unreachable_stmt,
};
use crate::cont_expr::{cps_tc, demand_tc, AExp, AExpView};
use crate::error::{CompileError, CompileErrorView};
use crate::flat_expr::flat_c;
use crate::lift::{lift_tree, lifted};
use crate::transform::TransformContext;
use vstd::prelude::*;

verus! {

/// What stands before the emitted declarations in a translation unit: the
/// headers of the C library and of the runtime.
pub open spec fn unit_prelude() -> Seq<char> {
    "\n#include <stdlib.h>\n#include <string.h>\n#include \"base.h\"\n#include \"builtin.h\"\n"@
}

/// What stands after the emitted declarations in a translation unit: the
/// entry point, which makes a closure of `main_lambda` and hands it to the
/// runtime.
pub open spec fn unit_epilogue() -> Seq<char> {
    "\nint main() {\n  struct closure_obj initial_closure = object_closure_one_new(main_lambda, NULL);\n  struct thunk initial_thunk = {\n    .closr = &initial_closure,\n    .one = {NULL},\n  };\n\n  struct thunk *thnk_heap = malloc(sizeof(struct thunk));\n  memcpy(thnk_heap, &initial_thunk, sizeof(struct thunk));\n  scheme_start(thnk_heap);\n}\n"@
}

/// The translation unit around the emitted declarations `src`.
pub open spec fn program_source(src: Seq<char>) -> Seq<char> {
    unit_prelude() + src + unit_epilogue()
}

/// The translation unit around the emitted declarations `src`.
pub fn generate_program_source(src: &str) -> (res: String)
    ensures
        res@ == program_source(src@),
{
    let mut res = String::from_str(
        "\n#include <stdlib.h>\n#include <string.h>\n#include \"base.h\"\n#include \"builtin.h\"\n",
    );
    res.append(src);
    res.append(
        "\nint main() {\n  struct closure_obj initial_closure = object_closure_one_new(main_lambda, NULL);\n  struct thunk initial_thunk = {\n    .closr = &initial_closure,\n    .one = {NULL},\n  };\n\n  struct thunk *thnk_heap = malloc(sizeof(struct thunk));\n  memcpy(thnk_heap, &initial_thunk, sizeof(struct thunk));\n  scheme_start(thnk_heap);\n}\n",
    );
    res
}

/// The texts of the first `k` of the declarations `decls`, each on a line
/// of its own.
pub open spec fn decl_lines(decls: Seq<CDeclView>, k: nat) -> Seq<char>
    decreases k,
{
    if k == 0 || k > decls.len() {
        Seq::empty()
    } else {
        decl_lines(decls, (k - 1) as nat) + decl_text(decls[k - 1]) + "\n"@
    }
}

/// The function that holds the root of the program: its statements, and
/// the mark that the end is never reached.
pub open spec fn main_lambda_decl(stmts: Seq<CStmtView>) -> CDeclView {
    CDeclView::Fun {
        name: "main_lambda"@,
        typ: CTypeView::Void,
        args: seq![
            ("input_obj"@, object_type_view()),
            ("input_env"@, ptr_to_struct("env_obj"@)),
        ],
        body: stmts.push(unreachable_stmt()),
    }
}

/// The text of the emitted declarations: the struct declarations and
/// prototypes, the function definitions, and the function of the root,
/// each on a line of its own.
pub open spec fn unit_text(
    stmts: Seq<CStmtView>,
    protos: Seq<CDeclView>,
    decls: Seq<CDeclView>,
) -> Seq<char> {
    decl_lines(protos, protos.len()) + decl_lines(decls, decls.len()) + decl_text(
        main_lambda_decl(stmts),
    ) + "\n"@
}

fn write_lines(decls: &Vec<CDecl>, out: &mut String)
    ensures
        final(out)@ == old(out)@ + decl_lines(decls_view(decls@), decls@.len()),
{
    let ghost views = decls_view(decls@);
    let mut i: usize = 0;
    assert(out@ =~= old(out)@ + decl_lines(views, 0));
    while i < decls.len()
        invariant
            i <= decls@.len(),
            views == decls_view(decls@),
            out@ == old(out)@ + decl_lines(views, i as nat),
        decreases decls@.len() - i,
    {
        assert(views[i as int] == decls@[i as int]@);
        decls[i].export_internal(out);
        out.append("\n");
        i += 1;
        assert(out@ =~= old(out)@ + decl_lines(views, i as nat));
    }
}

/// Writes out the emitted program: see [`unit_text`].
pub fn render_unit(root: Vec<CStmt>, protos: &Vec<CDecl>, decls: &Vec<CDecl>) -> (res: String)
    ensures
        res@ == unit_text(stmts_view(root@), decls_view(protos@), decls_view(decls@)),
{
    let ghost root_view = stmts_view(root@);
    let mut out = String::new();
    write_lines(protos, &mut out);
    write_lines(decls, &mut out);
    let mut body = root;
    push_stmt(&mut body, mk_unreachable());
    let input_env = mk_ptr_to_struct(String::from_str("env_obj"));
    let args = vec![
        (String::from_str("input_obj"), object_type()),
        (String::from_str("input_env"), input_env),
    ];
    assert(members_view(args@) =~= seq![
        ("input_obj"@, object_type_view()),
        ("input_env"@, ptr_to_struct("env_obj"@)),
    ]);
    let main_lambda = CDecl::Fun {
        name: String::from_str("main_lambda"),
        typ: CType::Void,
        args,
        body,
    };
    assert(main_lambda@ == main_lambda_decl(root_view)) by {
        assert(main_lambda@->Fun_body =~= stmts_view(body@));
    }
    main_lambda.export_internal(&mut out);
    out.append("\n");
    assert(out@ =~= unit_text(root_view, decls_view(protos@), decls_view(decls@)));
    out
}


/// The expression that stands for the program with the body `body`: a
/// body of one expression is that expression; any other body is the body
/// of a function without parameters that is called at once.
pub open spec fn wrapped(body: BExprBodyView) -> BExprView {
    if body.items.len() == 0 {
        *body.last
    } else {
        BExprView::App(Box::new(BExprView::Lam(Seq::empty(), body)), Seq::empty())
    }
}

/// The continuation of the whole program: the builtin that ends it.
pub open spec fn exit_cont() -> AExpView {
    AExpView::BuiltinIdent("exit"@)
}

/// What compiling the body `body` gives.
///
/// The program is desugared and its names are resolved; it is brought
/// into continuation-passing form with the continuation [`exit_cont`],
/// flattened, and its functions are lifted; the result is emitted as C.
/// Compiling fails with the first name used out of scope; else where the
/// fresh names run out; else with the first builtin or literal that
/// cannot be emitted; else where the temporaries run out. Otherwise it
/// gives the text of the translation unit.
pub open spec fn compiled(res: Result<String, CompileError>, body: BExprBodyView) -> bool {
    let core = crate::base_expr::without_let(crate::base_expr::without_defines(wrapped(body)));
    match first_unbound(core, Seq::empty()) {
        Some(n) => res matches Err(x) && x@ == CompileErrorView::UnboundIdentifier(n),
        None => {
            let names = bind_demand(core);
            let bound = bind_tree(core, Seq::empty(), 0);
            if names + demand_tc(bound) >= u64::MAX {
                res matches Err(x) && x@ == CompileErrorView::NamesExhausted
            } else {
                let flat = flat_c(cps_tc(bound, exit_cont(), names));
                let root = lift_tree(flat, 0);
                let table = lifted(flat, 0);
                match program_fault(root, table) {
                    Some(fault) => res matches Err(x) && x@ == fault,
                    None => if program_demand(root, table) >= usize::MAX {
                        res matches Err(x) && x@ == CompileErrorView::NamesExhausted
                    } else {
                        res matches Ok(text) && text@ == program_source(
                            unit_text(
                                root_stmts(root, table),
                                env_structs(table) + func_protos(table),
                                func_decls(table, table.len()),
                            ),
                        )
                    },
                }
            }
        },
    }
}

/// The expression that stands for the program with the body `body`: see
/// [`wrapped`].
pub fn wrap_body(body: BExprBody) -> (res: BExpr)
    ensures
        res@ == wrapped(body@),
{
    if body.0.len() == 0 {
        return *body.1;
    }
    let params: Vec<String> = Vec::new();
    assert(crate::base_expr::names_view(params@) =~= Seq::empty());
    let lam = BExpr::Lam(params, body);
    assert(lam@ == BExprView::Lam(Seq::empty(), body@));
    let args: Vec<BExpr> = Vec::new();
    let res = BExpr::App(Box::new(lam), args);
    assert(res@->App_1 =~= Seq::empty());
    res
}

fn exit_builtin() -> (res: AExp)
    ensures
        res@ == exit_cont(),
{
    AExp::BuiltinIdent(String::from_str("exit"))
}

/// Compiles the body of a program to the text of a C translation unit:
/// see [`compiled`].
pub fn compile(body: BExprBody) -> (res: Result<String, CompileError>)
    ensures
        compiled(res, body@),
{
    let expr = wrap_body(body);
    let mut ctx = TransformContext::new();
    let bound = match expr.into_expr(&mut ctx) {
        Ok(e) => e,
        Err(x) => {
            return Err(x);
        },
    };
    let flat = match bound.into_fexpr(exit_builtin(), &mut ctx) {
        Ok(f) => f,
        Err(x) => {
            return Err(x);
        },
    };
    let (root, lambdas) = flat.lift_lambdas();
    let (stmts, protos, decls) = match do_codegen(root, &lambdas) {
        Ok(out) => out,
        Err(x) => {
            return Err(x);
        },
    };
    let text = render_unit(stmts, &protos, &decls);
    Ok(generate_program_source(text.as_str()))
}


/// What compiling the source text `s` gives: a parse error, or what
/// compiling the body that it holds gives.
pub open spec fn compiled_source(res: Result<String, CompileError>, s: Seq<char>) -> bool {
    match crate::parse::parsed(s) {
        Err(e) => res matches Err(x) && x@ == e,
        Ok(body) => compiled(res, body),
    }
}

/// Compiles the source text of a program to the text of a C translation
/// unit: see [`compiled_source`].
pub fn compile_source(text: &str) -> (res: Result<String, CompileError>)
    ensures
        compiled_source(res, text@),
{
    match crate::parse::parse(text) {
        Ok(body) => compile(body),
        Err(e) => Err(e),
    }
}

} // verus!
