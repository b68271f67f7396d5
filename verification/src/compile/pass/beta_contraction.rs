use vstd::prelude::*;

use crate::compile::anf::{
    aexpr_view, cexpr_view, rhs_view, AExpr, AExprView, Application, CExpr, CExprView, Expr, ExprView, If, Lambda,
    Let, Rhs, RhsView, Value,
};
use crate::compile::census::Census;
use crate::compile::compilation_error::CompilationError;
use crate::compile::ident::{Duplicate, ResolvedVar};
use crate::compile::pass::beta_reduction::{
    at_most, call_of, inline_lambda_app, inlined_app, step_matches, Definitions, ErrorView, Step,
};
use crate::compile::pass::census_collection::{census_map, census_of, collect_census, expr_rebinds, expr_uses};
use crate::compile::pass::dce::{dce, dce_expr};
use crate::compile::symbol_map::SymbolMap;

verus! {

/// The procedure bound by `(let ((name rhs)) ..)`, if `rhs` is one.
pub open spec fn lambda_of(rhs: RhsView) -> Option<(Seq<Seq<char>>, Option<Seq<char>>, ExprView)> {
    match rhs {
        RhsView::AExpr(AExprView::Lambda(args, var_arg, body, _)) => Some((args, var_arg, *body)),
        _ => None,
    }
}

/// The binding of the procedure that `c` calls, when it may be contracted in
/// `root`: it was recorded, has no rest parameter, is used exactly once and is
/// never assigned, and inlinings are left.
pub open spec fn contractible(c: CExprView, d: Definitions, f: nat, root: ExprView) -> Option<Seq<char>> {
    match call_of(c) {
        Some((b, _, _)) => if f > 0 && d.dom().contains(b) && d[b].1 is None && expr_uses(root, b) == 1
            && !expr_rebinds(root, b) {
            Some(b)
        } else {
            None
        },
        None => None,
    }
}

/// Beta contraction in `root`, walking the tree in evaluation order with the
/// procedures `d` bound so far and at most `f` inlinings left: every `let` of
/// a procedure records it as written (before its right-hand side is
/// contracted), and a call, in expression position, of a recorded procedure
/// that `contractible` accepts is replaced by its inlined body, which is then
/// contracted in turn.
pub open spec fn contract_expr(e: ExprView, d: Definitions, f: nat, root: ExprView) -> Step<ExprView>
    decreases f, e,
{
    match e {
        ExprView::Let(name, rhs, body, s) => {
            let d1 = match lambda_of(rhs) {
                Some(l) => d.insert(name, l),
                None => d,
            };
            match contract_rhs(rhs, d1, f, root) {
                Err(x) => Err(x),
                Ok((rhs2, d2, f2)) => match contract_expr(*body, d2, at_most(f2, f), root) {
                    Err(x) => Err(x),
                    Ok((body2, d3, f3)) => Ok((ExprView::Let(name, rhs2, Box::new(body2), s), d3, f3)),
                },
            }
        },
        ExprView::CExpr(c) => {
            let target = match (contractible(c, d, f, root), call_of(c)) {
                (Some(b), Some((_, args, s))) => Some(inlined_app(d[b], args, s)),
                _ => None,
            };
            match target {
                Some(Err(x)) => Err(x),
                Some(Ok(e2)) => contract_expr(e2, d, (f - 1) as nat, root),
                None => match contract_cexpr(c, d, f, root) {
                    Err(x) => Err(x),
                    Ok((c2, d2, f2)) => Ok((ExprView::CExpr(c2), d2, f2)),
                },
            }
        },
        ExprView::AExpr(a) => match contract_aexpr(a, d, f, root) {
            Err(x) => Err(x),
            Ok((a2, d2, f2)) => Ok((ExprView::AExpr(a2), d2, f2)),
        },
    }
}

pub open spec fn contract_rhs(r: RhsView, d: Definitions, f: nat, root: ExprView) -> Step<RhsView>
    decreases f, r,
{
    match r {
        RhsView::AExpr(a) => match contract_aexpr(a, d, f, root) {
            Err(x) => Err(x),
            Ok((a2, d2, f2)) => Ok((RhsView::AExpr(a2), d2, f2)),
        },
        RhsView::CExpr(c) => match contract_cexpr(c, d, f, root) {
            Err(x) => Err(x),
            Ok((c2, d2, f2)) => Ok((RhsView::CExpr(c2), d2, f2)),
        },
    }
}

pub open spec fn contract_aexpr(a: AExprView, d: Definitions, f: nat, root: ExprView) -> Step<AExprView>
    decreases f, a,
{
    match a {
        AExprView::Lambda(args, var_arg, body, s) => match contract_expr(*body, d, f, root) {
            Err(x) => Err(x),
            Ok((body2, d2, f2)) => Ok((AExprView::Lambda(args, var_arg, Box::new(body2), s), d2, f2)),
        },
        _ => Ok((a, d, f)),
    }
}

pub open spec fn contract_cexpr(c: CExprView, d: Definitions, f: nat, root: ExprView) -> Step<CExprView>
    decreases f, c,
{
    match c {
        CExprView::If(t, conseq, alt, s) => match contract_expr(*conseq, d, f, root) {
            Err(x) => Err(x),
            Ok((conseq2, d1, f1)) => match contract_expr(*alt, d1, at_most(f1, f), root) {
                Err(x) => Err(x),
                Ok((alt2, d2, f2)) => Ok((CExprView::If(t, Box::new(conseq2), Box::new(alt2), s), d2, f2)),
            },
        },
        _ => Ok((c, d, f)),
    }
}

/// The recorded procedure that `cexpr` calls, when `contractible` accepts it.
fn contractible_definition(
    cexpr: &CExpr,
    defs: &SymbolMap<Lambda>,
    fuel: u64,
    census: &Census,
    Ghost(root): Ghost<ExprView>,
) -> (r: Option<Lambda>)
    requires
        census_of(*census, root),
    ensures
        match r {
            Some(l) => contractible(cexpr_view(*cexpr), defs@, fuel as nat, root) is Some && l@ == defs@[contractible(
                cexpr_view(*cexpr),
                defs@,
                fuel as nat,
                root,
            )->0],
            None => contractible(cexpr_view(*cexpr), defs@, fuel as nat, root) is None,
        },
{
    if fuel == 0 {
        return None;
    }
    match cexpr {
        CExpr::Application(Application { operand, .. }, _) => match &**operand {
            Value::Var(ResolvedVar::Bound { binding, .. }, _) => match defs.get(binding) {
                Some(lambda) => {
                    if lambda.var_arg.is_none() && census.use_count(binding) == 1 && !census.is_rebound(binding) {
                        Some(lambda.duplicate())
                    } else {
                        None
                    }
                },
                None => None,
            },
            _ => None,
        },
        _ => None,
    }
}

fn contract_expr_exec(
    expr: Expr,
    defs: &mut SymbolMap<Lambda>,
    fuel: &mut u64,
    census: &Census,
    Ghost(root): Ghost<ExprView>,
) -> (r: Result<Expr, CompilationError>)
    requires
        census_of(*census, root),
    ensures
        *final(fuel) <= *old(fuel),
        step_matches(r, |e: Expr| e@, contract_expr(expr@, old(defs)@, *old(fuel) as nat, root), final(defs)@, *final(fuel)),
    decreases *old(fuel), expr,
{
    match expr {
        Expr::Let(Let { initializer, body }, span) => {
            let (symbol, rhs) = *initializer;
            if let Rhs::AExpr(AExpr::Lambda(lambda, _)) = &rhs {
                defs.insert(symbol.duplicate(), lambda.duplicate());
            }
            let rhs = match contract_rhs_exec(rhs, defs, fuel, census, Ghost(root)) {
                Ok(rhs) => rhs,
                Err(e) => return Err(e),
            };
            let body = match contract_expr_exec(*body, defs, fuel, census, Ghost(root)) {
                Ok(body) => body,
                Err(e) => return Err(e),
            };
            Ok(Expr::Let(Let { initializer: Box::new((symbol, rhs)), body: Box::new(body) }, span))
        },
        Expr::CExpr(cexpr) => match contractible_definition(&cexpr, defs, *fuel, census, Ghost(root)) {
            Some(lambda) => {
                let (args, span) = match cexpr {
                    CExpr::Application(Application { args, .. }, span) => (args, span),
                    _ => vstd::pervasive::unreached(),
                };
                *fuel = *fuel - 1;
                match inline_lambda_app(lambda, args, span) {
                    Ok(inlined) => contract_expr_exec(inlined, defs, fuel, census, Ghost(root)),
                    Err(e) => Err(e),
                }
            },
            None => match contract_cexpr_exec(cexpr, defs, fuel, census, Ghost(root)) {
                Ok(c) => Ok(Expr::CExpr(c)),
                Err(e) => Err(e),
            },
        },
        Expr::AExpr(aexpr) => match contract_aexpr_exec(aexpr, defs, fuel, census, Ghost(root)) {
            Ok(a) => Ok(Expr::AExpr(a)),
            Err(e) => Err(e),
        },
    }
}

fn contract_rhs_exec(
    rhs: Rhs,
    defs: &mut SymbolMap<Lambda>,
    fuel: &mut u64,
    census: &Census,
    Ghost(root): Ghost<ExprView>,
) -> (r: Result<Rhs, CompilationError>)
    requires
        census_of(*census, root),
    ensures
        *final(fuel) <= *old(fuel),
        step_matches(r, |x: Rhs| rhs_view(x), contract_rhs(rhs_view(rhs), old(defs)@, *old(fuel) as nat, root), final(defs)@, *final(fuel)),
    decreases *old(fuel), rhs,
{
    match rhs {
        Rhs::AExpr(aexpr) => match contract_aexpr_exec(aexpr, defs, fuel, census, Ghost(root)) {
            Ok(a) => Ok(Rhs::AExpr(a)),
            Err(e) => Err(e),
        },
        Rhs::CExpr(cexpr) => match contract_cexpr_exec(cexpr, defs, fuel, census, Ghost(root)) {
            Ok(c) => Ok(Rhs::CExpr(c)),
            Err(e) => Err(e),
        },
    }
}

fn contract_aexpr_exec(
    aexpr: AExpr,
    defs: &mut SymbolMap<Lambda>,
    fuel: &mut u64,
    census: &Census,
    Ghost(root): Ghost<ExprView>,
) -> (r: Result<AExpr, CompilationError>)
    requires
        census_of(*census, root),
    ensures
        *final(fuel) <= *old(fuel),
        step_matches(r, |x: AExpr| aexpr_view(x), contract_aexpr(aexpr_view(aexpr), old(defs)@, *old(fuel) as nat, root), final(defs)@, *final(fuel)),
    decreases *old(fuel), aexpr,
{
    match aexpr {
        AExpr::Lambda(Lambda { args, var_arg, body }, span) => match contract_expr_exec(
            *body,
            defs,
            fuel,
            census,
            Ghost(root),
        ) {
            Ok(body) => Ok(AExpr::Lambda(Lambda { args, var_arg, body: Box::new(body) }, span)),
            Err(e) => Err(e),
        },
        other => Ok(other),
    }
}

fn contract_cexpr_exec(
    cexpr: CExpr,
    defs: &mut SymbolMap<Lambda>,
    fuel: &mut u64,
    census: &Census,
    Ghost(root): Ghost<ExprView>,
) -> (r: Result<CExpr, CompilationError>)
    requires
        census_of(*census, root),
    ensures
        *final(fuel) <= *old(fuel),
        step_matches(r, |x: CExpr| cexpr_view(x), contract_cexpr(cexpr_view(cexpr), old(defs)@, *old(fuel) as nat, root), final(defs)@, *final(fuel)),
    decreases *old(fuel), cexpr,
{
    match cexpr {
        CExpr::If(If { test, conseq, alt }, span) => {
            let conseq = match contract_expr_exec(*conseq, defs, fuel, census, Ghost(root)) {
                Ok(c) => c,
                Err(e) => return Err(e),
            };
            let alt = match contract_expr_exec(*alt, defs, fuel, census, Ghost(root)) {
                Ok(a) => a,
                Err(e) => return Err(e),
            };
            Ok(CExpr::If(If { test, conseq: Box::new(conseq), alt: Box::new(alt) }, span))
        },
        other => Ok(other),
    }
}

/// Beta contraction of `e` (see `contract_expr`), starting with no recorded
/// procedures and at most `u64::MAX` inlinings, followed by dead code
/// elimination.
pub open spec fn beta_contracted(e: ExprView) -> Result<ExprView, ErrorView> {
    match contract_expr(e, Map::empty(), u64::MAX as nat, e) {
        Err(x) => Err(x),
        Ok((e2, _, _)) => Ok(dce_expr(e2, census_map(e2)).0),
    }
}

/// Inlines each call of a procedure bound by a `let` to a name used exactly
/// once, and never assigned, then removes the code left dead. Fails where such
/// a call passes a different number of arguments than the procedure takes.
pub fn beta_contract(expr: Expr) -> (r: Result<Expr, CompilationError>)
    requires
        forall|k: Seq<char>| #[trigger] expr_uses(expr@, k) <= usize::MAX,
        contract_expr(expr@, Map::empty(), u64::MAX as nat, expr@) is Ok ==> forall|k: Seq<char>| #[trigger]
            expr_uses(contract_expr(expr@, Map::empty(), u64::MAX as nat, expr@)->Ok_0.0, k) <= usize::MAX,
    ensures
        match r {
            Ok(e) => beta_contracted(expr@) == Ok::<ExprView, ErrorView>(e@),
            Err(x) => beta_contracted(expr@) == Err::<ExprView, ErrorView>(x@),
        },
{
    let ghost root = expr@;
    let census = collect_census(&expr);
    let mut defs: SymbolMap<Lambda> = SymbolMap::new();
    let mut fuel: u64 = u64::MAX;
    match contract_expr_exec(expr, &mut defs, &mut fuel, &census, Ghost(root)) {
        Ok(contracted) => Ok(dce(contracted)),
        Err(e) => Err(e),
    }
}

/// A call of a recorded procedure that has a rest parameter is never
/// contracted: it stays as it is, and no arity error is reported for it.
pub proof fn law_variadic_call_kept(c: CExprView, d: Definitions, f: nat, root: ExprView)
    requires
        call_of(c) matches Some((b, _, _)) && d.dom().contains(b) && d[b].1 is Some,
    ensures
        contract_expr(ExprView::CExpr(c), d, f, root) == Ok::<(ExprView, Definitions, nat), ErrorView>(
            (ExprView::CExpr(c), d, f),
        ),
{
    assert(contract_cexpr(c, d, f, root) == Ok::<(CExprView, Definitions, nat), ErrorView>((c, d, f)));
}

/// A call is only contracted when its procedure was recorded, has no rest
/// parameter, is used exactly once in `root` and never assigned there, and an
/// inlining is left; every other call stays as it is, with no error.
pub proof fn law_call_kept_unless_single_use(c: CExprView, d: Definitions, f: nat, root: ExprView)
    requires
        c is Application,
        !(call_of(c) matches Some((b, _, _)) && f > 0 && d.dom().contains(b) && d[b].1 is None && expr_uses(root, b)
            == 1 && !expr_rebinds(root, b)),
    ensures
        contract_expr(ExprView::CExpr(c), d, f, root) == Ok::<(ExprView, Definitions, nat), ErrorView>(
            (ExprView::CExpr(c), d, f),
        ),
{
    assert(contract_cexpr(c, d, f, root) == Ok::<(CExprView, Definitions, nat), ErrorView>((c, d, f)));
}

} // verus!
