use somescheme::base_expr::{BExpr, BExprBody, BExprBodyExpr};
use somescheme::cont_expr::{t_c, AExp, CExp};
use somescheme::expr::Expr;
use somescheme::flat_expr::FExpr;
use somescheme::lifted_expr::{LExpr, LiftedLambda};
use somescheme::literals::Literal;
use somescheme::program::compile;
use somescheme::transform::TransformContext;
use std::collections::HashMap;

/// The lifted expression with its functions in the order of their
/// identifiers, which are the keys from 0 on.
fn listed((root, mut map): (LExpr, HashMap<usize, LiftedLambda>)) -> (LExpr, Vec<LiftedLambda>) {
    let list = (0..map.len())
        .map(|i| map.remove(&i).expect("a function under every identifier from 0 on"))
        .collect();
    (root, list)
}

/// A small deterministic source of numbers.
struct Dice(u64);

impl Dice {
    fn roll(&mut self, sides: u64) -> u64 {
        self.0 = self.0.wrapping_mul(6364136223846793005).wrapping_add(1442695040888963407);
        (self.0 >> 33) % sides
    }
}

/// A closed program made of the names in `scope`, spelled with `prefix`.
fn program(dice: &mut Dice, depth: u32, scope: &mut Vec<String>, prefix: &str, sugar: bool) -> BExpr {
    let leaf = depth == 0 || dice.roll(5) == 0;
    if leaf {
        return match dice.roll(4) {
            0 if !scope.is_empty() => {
                let i = dice.roll(scope.len() as u64) as usize;
                BExpr::Var(scope[i].clone())
            }
            1 => BExpr::Lit(Literal::Int(dice.roll(100) as i64 - 50)),
            2 => BExpr::BuiltinIdent(["+", "car", "cons", "null?"][dice.roll(4) as usize].to_string()),
            _ => BExpr::Lit(Literal::Void),
        };
    }
    match dice.roll(if sugar { 6 } else { 4 }) {
        0 => BExpr::If(
            Box::new(program(dice, depth - 1, scope, prefix, sugar)),
            Box::new(program(dice, depth - 1, scope, prefix, sugar)),
            Box::new(program(dice, depth - 1, scope, prefix, sugar)),
        ),
        1 if !scope.is_empty() => {
            let i = dice.roll(scope.len() as u64) as usize;
            let name = scope[i].clone();
            BExpr::Assign(name, Box::new(program(dice, depth - 1, scope, prefix, sugar)))
        }
        2 => {
            let count = dice.roll(3) as usize;
            let base = scope.len();
            let params: Vec<String> = (0..count).map(|i| format!("{}{}", prefix, base + i)).collect();
            scope.extend(params.iter().cloned());
            let body = body(dice, depth - 1, scope, prefix, sugar);
            scope.truncate(base);
            BExpr::Lam(params, body)
        }
        4 => {
            let count = dice.roll(3) as usize;
            let base = scope.len();
            let values: Vec<BExpr> =
                (0..count).map(|_| program(dice, depth - 1, scope, prefix, sugar)).collect();
            let names: Vec<String> = (0..count).map(|i| format!("{}{}", prefix, base + i)).collect();
            scope.extend(names.iter().cloned());
            let body = body(dice, depth - 1, scope, prefix, sugar);
            scope.truncate(base);
            BExpr::Let(names.into_iter().zip(values).collect(), body)
        }
        _ => {
            let count = dice.roll(3) as usize;
            let f = program(dice, depth - 1, scope, prefix, sugar);
            let args = (0..count).map(|_| program(dice, depth - 1, scope, prefix, sugar)).collect();
            BExpr::App(Box::new(f), args)
        }
    }
}

fn body(dice: &mut Dice, depth: u32, scope: &mut Vec<String>, prefix: &str, sugar: bool) -> BExprBody {
    let count = dice.roll(3) as usize;
    let base = scope.len();
    let defined: Vec<bool> = (0..count).map(|_| sugar && dice.roll(2) == 0).collect();
    let mut next = base;
    let mut names = Vec::new();
    for d in &defined {
        if *d {
            names.push(format!("{}{}", prefix, next));
            next += 1;
        }
    }
    scope.extend(names.iter().cloned());
    let mut items = Vec::new();
    let mut used = 0;
    for d in &defined {
        let e = program(dice, depth, scope, prefix, sugar);
        if *d {
            items.push(BExprBodyExpr::Def(names[used].clone(), e));
            used += 1;
        } else {
            items.push(BExprBodyExpr::Expr(e));
        }
    }
    let last = program(dice, depth, scope, prefix, sugar);
    scope.truncate(base);
    BExprBody(items, Box::new(last))
}

fn sample(seed: u64, prefix: &str, sugar: bool) -> BExpr {
    program(&mut Dice(seed), 4, &mut Vec::new(), prefix, sugar)
}

fn free_of(e: &Expr, bound: &mut Vec<u64>) -> bool {
    match e {
        Expr::Var(v) => bound.contains(&v.unique_id),
        Expr::Lit(_) | Expr::BuiltinIdent(_) => true,
        Expr::If(c, t, f) => free_of(c, bound) && free_of(t, bound) && free_of(f, bound),
        Expr::Assign(v, e) => bound.contains(&v.unique_id) && free_of(e, bound),
        Expr::Lam(p, body) => {
            bound.push(p.unique_id);
            let ok = free_of(body, bound);
            bound.pop();
            ok
        }
        Expr::App(f, a) => free_of(f, bound) && free_of(a, bound),
    }
}

fn is_value(f: &FExpr) -> bool {
    match f {
        FExpr::LamOne(_, body) | FExpr::LamTwo(_, _, body) => is_computation(body),
        FExpr::Var(_) | FExpr::Lit(_) | FExpr::BuiltinIdent(_) => true,
        _ => false,
    }
}

fn is_computation(f: &FExpr) -> bool {
    match f {
        FExpr::If(c, t, e) => is_value(c) && is_computation(t) && is_computation(e),
        FExpr::SetThen(_, a, then) => is_value(a) && is_computation(then),
        FExpr::CallOne(k, a) => is_value(k) && is_value(a),
        FExpr::CallTwo(f, a, k) => is_value(f) && is_value(a) && is_value(k),
        _ => false,
    }
}

fn lifted_free(e: &LExpr, table: &[LiftedLambda], out: &mut Vec<u64>) {
    match e {
        LExpr::Var(v) => out.push(v.unique_id),
        LExpr::Lit(_) | LExpr::BuiltinIdent(_) => {}
        LExpr::SetThen(v, a, then) => {
            out.push(v.unique_id);
            lifted_free(a, table, out);
            lifted_free(then, table, out);
        }
        LExpr::If(c, t, f) => {
            lifted_free(c, table, out);
            lifted_free(t, table, out);
            lifted_free(f, table, out);
        }
        LExpr::Lifted(id) => {
            let l = &table[*id];
            out.extend(l.freevars.iter().filter(|v| !l.params.contains(v)).map(|v| v.unique_id));
        }
        LExpr::CallOne(k, a) => {
            lifted_free(k, table, out);
            lifted_free(a, table, out);
        }
        LExpr::CallTwo(f, a, k) => {
            lifted_free(f, table, out);
            lifted_free(a, table, out);
            lifted_free(k, table, out);
        }
    }
}

fn exit() -> AExp {
    AExp::BuiltinIdent("exit".to_string())
}

#[test]
fn generated_programs_are_closed_and_so_are_their_resolved_forms() {
    for seed in 0..300 {
        let e = sample(seed, "x", true).into_expr(&mut TransformContext::new()).unwrap();
        assert!(free_of(&e, &mut Vec::new()), "seed {}", seed);
    }
}

#[test]
fn generated_programs_resolve_alike_whatever_their_spelling() {
    for seed in 0..300 {
        let a = sample(seed, "x", true).into_expr(&mut TransformContext::new()).unwrap();
        let b = sample(seed, "other_", true).into_expr(&mut TransformContext::new()).unwrap();
        assert_eq!(a, b, "seed {}", seed);
    }
}

#[test]
fn generated_programs_without_sugar_are_left_alone_by_desugaring() {
    for seed in 0..300 {
        assert_eq!(sample(seed, "x", false).lift_defines().remove_let(), sample(seed, "x", false));
        assert_eq!(sample(seed, "x", false).remove_let().lift_defines(), sample(seed, "x", false));
    }
}

#[test]
fn generated_programs_are_in_tail_form_after_translation() {
    for seed in 0..300 {
        let mut ctx = TransformContext::new();
        let e = sample(seed, "x", true).into_expr(&mut ctx).unwrap();
        let flat = e.into_fexpr(exit(), &mut ctx).unwrap();
        assert!(is_computation(&flat), "seed {}", seed);
    }
}

#[test]
fn generated_programs_lift_to_closed_functions() {
    for seed in 0..300 {
        let mut ctx = TransformContext::new();
        let e = sample(seed, "x", true).into_expr(&mut ctx).unwrap();
        let (root, table) = listed(e.into_fexpr(exit(), &mut ctx).unwrap().lift_lambdas());
        for (i, l) in table.iter().enumerate() {
            assert_eq!(l.id, i);
            assert!(l.params.len() == 1 || l.params.len() == 2);
            let mut free = Vec::new();
            lifted_free(&l.body, &table, &mut free);
            for id in free {
                assert!(
                    l.params.iter().chain(l.freevars.iter()).any(|v| v.unique_id == id),
                    "seed {} lambda {} leaks {}",
                    seed,
                    i,
                    id
                );
            }
            for (j, v) in l.freevars.iter().enumerate() {
                assert!(!l.freevars[..j].contains(v), "seed {} lambda {}", seed, i);
            }
        }
        let mut free = Vec::new();
        lifted_free(&root, &table, &mut free);
        assert!(free.is_empty(), "seed {}", seed);
    }
}

#[test]
fn generated_programs_compile() {
    for seed in 0..100 {
        let text = compile(BExprBody(vec![], Box::new(sample(seed, "x", true)))).unwrap();
        assert!(text.contains("void main_lambda("), "seed {}", seed);
        assert_eq!(
            text.matches("__builtin_unreachable();}").count(),
            text.matches("__attribute__((noreturn)) ;").count() + 1,
            "seed {}",
            seed
        );
    }
}

fn bound_ids(e: &Expr, out: &mut Vec<u64>) {
    match e {
        Expr::Var(v) => out.push(v.unique_id),
        Expr::Lit(_) | Expr::BuiltinIdent(_) => {}
        Expr::If(c, t, f) => {
            bound_ids(c, out);
            bound_ids(t, out);
            bound_ids(f, out);
        }
        Expr::Assign(v, e) => {
            out.push(v.unique_id);
            bound_ids(e, out);
        }
        Expr::Lam(p, body) => {
            out.push(p.unique_id);
            bound_ids(body, out);
        }
        Expr::App(f, a) => {
            bound_ids(f, out);
            bound_ids(a, out);
        }
    }
}

fn atom_closed(a: &AExp, bound: &mut Vec<u64>) -> bool {
    match a {
        AExp::Lam2(p, k, body) => {
            bound.push(p.unique_id);
            bound.push(k.unique_id);
            let ok = comp_closed(body, bound);
            bound.pop();
            bound.pop();
            ok
        }
        AExp::Lam1(p, body) => {
            bound.push(p.unique_id);
            let ok = comp_closed(body, bound);
            bound.pop();
            ok
        }
        AExp::Var(v) => bound.contains(&v.unique_id),
        AExp::BuiltinIdent(_) | AExp::Lit(_) => true,
    }
}

fn comp_closed(c: &CExp, bound: &mut Vec<u64>) -> bool {
    match c {
        CExp::If(a, t, e) => atom_closed(a, bound) && comp_closed(t, bound) && comp_closed(e, bound),
        CExp::SetThen(v, a, then) => {
            bound.contains(&v.unique_id) && atom_closed(a, bound) && comp_closed(then, bound)
        }
        CExp::Call1(k, a) => atom_closed(k, bound) && atom_closed(a, bound),
        CExp::Call2(f, a, k) => atom_closed(f, bound) && atom_closed(a, bound) && atom_closed(k, bound),
    }
}

fn references(e: &LExpr, out: &mut Vec<usize>) {
    match e {
        LExpr::Var(_) | LExpr::Lit(_) | LExpr::BuiltinIdent(_) => {}
        LExpr::Lifted(id) => out.push(*id),
        LExpr::SetThen(_, a, then) => {
            references(a, out);
            references(then, out);
        }
        LExpr::If(c, t, f) => {
            references(c, out);
            references(t, out);
            references(f, out);
        }
        LExpr::CallOne(k, a) => {
            references(k, out);
            references(a, out);
        }
        LExpr::CallTwo(f, a, k) => {
            references(f, out);
            references(a, out);
            references(k, out);
        }
    }
}

#[test]
fn generated_programs_draw_every_variable_from_the_supply() {
    for seed in 0..300 {
        for start in [0u64, 17] {
            let mut ctx = TransformContext::starting_at(start);
            let e = sample(seed, "x", true).into_expr(&mut ctx).unwrap();
            let mut ids = Vec::new();
            bound_ids(&e, &mut ids);
            assert!(ids.iter().all(|id| start <= *id && *id < ctx.drawn()), "seed {}", seed);
        }
    }
}

#[test]
fn generated_programs_stay_closed_in_continuation_passing_form() {
    for seed in 0..300 {
        let mut ctx = TransformContext::new();
        let e = sample(seed, "x", true).into_expr(&mut ctx).unwrap();
        let c = t_c(e, exit(), &mut ctx).unwrap();
        assert!(comp_closed(&c, &mut Vec::new()), "seed {}", seed);
    }
}

#[test]
fn generated_programs_count_what_a_nested_function_captures() {
    for seed in 0..300 {
        let mut ctx = TransformContext::new();
        let e = sample(seed, "x", true).into_expr(&mut ctx).unwrap();
        let (_, table) = listed(e.into_fexpr(exit(), &mut ctx).unwrap().lift_lambdas());
        for (i, l) in table.iter().enumerate() {
            let mut free = Vec::new();
            lifted_free(&l.body, &table, &mut free);
            for v in &l.freevars {
                assert!(free.contains(&v.unique_id), "seed {} lambda {}", seed, i);
            }
            for id in &free {
                assert!(l.freevars.iter().any(|v| v.unique_id == *id), "seed {} lambda {}", seed, i);
            }
            let mut refs = Vec::new();
            references(&l.body, &mut refs);
            for j in refs {
                assert!(j < i, "seed {} lambda {}", seed, i);
                let inner = &table[j];
                for v in inner.freevars.iter().filter(|v| !inner.params.contains(v)) {
                    assert!(l.freevars.contains(v), "seed {} lambda {} inner {}", seed, i, j);
                }
            }
        }
    }
}

#[test]
fn generated_programs_without_a_let_are_left_alone_by_let_removal() {
    for seed in 0..300 {
        let once = sample(seed, "x", true).remove_let();
        assert_eq!(sample(seed, "x", true).remove_let().remove_let(), once, "seed {}", seed);
        let core = || sample(seed, "x", true).lift_defines().remove_let();
        assert_eq!(core().remove_let(), core(), "seed {}", seed);
        assert_eq!(core().lift_defines(), core(), "seed {}", seed);
    }
}

#[test]
fn generated_programs_resolve_alike_whatever_the_supply_up_to_renaming() {
    for seed in 0..300 {
        let a = sample(seed, "x", true).into_expr(&mut TransformContext::new()).unwrap();
        let b = sample(seed, "other_", true)
            .into_expr(&mut TransformContext::starting_at(1 + seed * 7))
            .unwrap();
        assert!(a.term_eq(&b), "seed {}", seed);
        assert!(b.term_eq(&a), "seed {}", seed);
    }
}
