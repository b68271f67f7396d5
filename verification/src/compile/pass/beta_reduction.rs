use vstd::prelude::*;

use crate::compile::anf::{
    aexpr_view, cexpr_view, rhs_view, value_aexpr, values_view, AExpr, AExprView, Application, CExpr, CExprView, Expr,
    ExprView, If, Lambda, LambdaView, Let, Rhs, RhsView, Value, ValueView,
};
use crate::compile::census::{rebound, uses, Census};
use crate::compile::compilation_error::CompilationError;
use crate::compile::ident::{Duplicate, ResolvedVar, Symbol};
use crate::compile::pass::census_collection::{census_map, census_of, collect_census, expr_rebinds, expr_uses};
use crate::compile::pass::dce::{dce, dce_expr};
use crate::compile::span::Span;
use crate::compile::symbol_map::SymbolMap;
use crate::compile::text::{decimal, push_decimal};
use vstd::string::StringExecFns;

verus! {

/// The procedures that may be inlined, by the name that binds them.
pub type Definitions = Map<Seq<char>, LambdaView>;

/// An error's view: where it is and why.
pub type ErrorView = (Span, Seq<char>);

/// What a step of beta reduction gives: the rewritten part, the definitions
/// known afterwards and the inlinings still allowed; or an error.
pub type Step<T> = Result<(T, Definitions, nat), ErrorView>;

/// `(let ((p1 a1)) (let ((p2 a2)) .. body))`, every `let` with the span `span`.
pub open spec fn bind_args(params: Seq<Seq<char>>, args: Seq<ValueView>, body: ExprView, span: Span) -> ExprView
    decreases params.len(),
{
    if params.len() == 0 || args.len() == 0 {
        body
    } else {
        ExprView::Let(
            params[0],
            RhsView::AExpr(value_aexpr(args[0])),
            Box::new(bind_args(params.skip(1), args.skip(1), body, span)),
            span,
        )
    }
}

/// Why a call of a procedure of `expected` parameters on `got` arguments fails.
pub open spec fn arity_message(expected: nat, got: nat) -> Seq<char> {
    "Invalid application: expected "@ + decimal(expected) + " arguments, but got "@ + decimal(got)
}

/// The call of the procedure `l` on `args`, written as `let`s of its
/// parameters around its body; an error where the numbers differ.
pub open spec fn inlined_app(l: LambdaView, args: Seq<ValueView>, span: Span) -> Result<ExprView, ErrorView> {
    if l.0.len() != args.len() {
        Err((span, arity_message(l.0.len(), args.len())))
    } else {
        Ok(bind_args(l.0, args, l.2, span))
    }
}

/// The procedure that `(let ((name rhs)) ..)` lets be inlined, in `root`:
/// one without a rest parameter whose name is used exactly once and never
/// assigned.
pub open spec fn definition_of(name: Seq<char>, rhs: RhsView, root: ExprView) -> Option<LambdaView> {
    match rhs {
        RhsView::AExpr(AExprView::Lambda(args, var_arg, body, _)) => if var_arg is None && expr_uses(root, name) == 1
            && !expr_rebinds(root, name) {
            Some((args, var_arg, *body))
        } else {
            None
        },
        _ => None,
    }
}

/// The callee's binding, the arguments and the span of a call of a bound variable.
pub open spec fn call_of(c: CExprView) -> Option<(Seq<char>, Seq<ValueView>, Span)> {
    match c {
        CExprView::Application(ValueView::Var((_, Some(b)), _), args, s) => Some((b, args, s)),
        _ => None,
    }
}

/// The recorded procedure that `c` calls, while inlinings are left.
pub open spec fn callee(c: CExprView, d: Definitions, f: nat) -> Option<Seq<char>> {
    match call_of(c) {
        Some((b, _, _)) => if f > 0 && d.dom().contains(b) {
            Some(b)
        } else {
            None
        },
        None => None,
    }
}

/// `f1`, but never more than `f`.
pub open spec fn at_most(f1: nat, f: nat) -> nat {
    if f1 <= f {
        f1
    } else {
        f
    }
}

/// Beta reduction in `root`, walking the tree in evaluation order with the
/// known definitions `d` and at most `f` inlinings left: a `let` records its
/// procedure when `definition_of` accepts it (after its right-hand side is
/// reduced), and a call of a recorded procedure, in expression position, is
/// replaced by its inlined body, which is then reduced in turn.
pub open spec fn beta_expr(e: ExprView, d: Definitions, f: nat, root: ExprView) -> Step<ExprView>
    decreases f, e,
{
    match e {
        ExprView::Let(name, rhs, body, s) => match beta_rhs(rhs, d, f, root) {
            Err(x) => Err(x),
            Ok((rhs2, d1, f1)) => {
                let d2 = match definition_of(name, rhs2, root) {
                    Some(l) => d1.insert(name, l),
                    None => d1,
                };
                match beta_expr(*body, d2, at_most(f1, f), root) {
                    Err(x) => Err(x),
                    Ok((body2, d3, f3)) => Ok((ExprView::Let(name, rhs2, Box::new(body2), s), d3, f3)),
                }
            },
        },
        ExprView::CExpr(c) => {
            let target = match (callee(c, d, f), call_of(c)) {
                (Some(b), Some((_, args, s))) => Some(inlined_app(d[b], args, s)),
                _ => None,
            };
            match target {
                Some(Err(x)) => Err(x),
                Some(Ok(e2)) => beta_expr(e2, d, (f - 1) as nat, root),
                None => match beta_cexpr(c, d, f, root) {
                    Err(x) => Err(x),
                    Ok((c2, d2, f2)) => Ok((ExprView::CExpr(c2), d2, f2)),
                },
            }
        },
        ExprView::AExpr(a) => match beta_aexpr(a, d, f, root) {
            Err(x) => Err(x),
            Ok((a2, d2, f2)) => Ok((ExprView::AExpr(a2), d2, f2)),
        },
    }
}

/// In a `let`'s right-hand side only a call without arguments of a recorded
/// procedure without parameters is inlined, and only when the body is atomic
/// or complex; the body is kept as it is.
pub open spec fn beta_rhs(r: RhsView, d: Definitions, f: nat, root: ExprView) -> Step<RhsView>
    decreases f, r,
{
    match r {
        RhsView::AExpr(a) => match beta_aexpr(a, d, f, root) {
            Err(x) => Err(x),
            Ok((a2, d2, f2)) => Ok((RhsView::AExpr(a2), d2, f2)),
        },
        RhsView::CExpr(c) => {
            let inlined = match (callee(c, d, f), call_of(c)) {
                (Some(b), Some((_, args, _))) => if args.len() == 0 && d[b].0.len() == 0 {
                    match d[b].2 {
                        ExprView::AExpr(a) => Some(RhsView::AExpr(a)),
                        ExprView::CExpr(c2) => Some(RhsView::CExpr(c2)),
                        ExprView::Let(..) => None,
                    }
                } else {
                    None
                },
                _ => None,
            };
            match inlined {
                Some(r2) => Ok((r2, d, (f - 1) as nat)),
                None => match beta_cexpr(c, d, f, root) {
                    Err(x) => Err(x),
                    Ok((c2, d2, f2)) => Ok((RhsView::CExpr(c2), d2, f2)),
                },
            }
        },
    }
}

pub open spec fn beta_aexpr(a: AExprView, d: Definitions, f: nat, root: ExprView) -> Step<AExprView>
    decreases f, a,
{
    match a {
        AExprView::Lambda(args, var_arg, body, s) => match beta_expr(*body, d, f, root) {
            Err(x) => Err(x),
            Ok((body2, d2, f2)) => Ok((AExprView::Lambda(args, var_arg, Box::new(body2), s), d2, f2)),
        },
        _ => Ok((a, d, f)),
    }
}

pub open spec fn beta_cexpr(c: CExprView, d: Definitions, f: nat, root: ExprView) -> Step<CExprView>
    decreases f, c,
{
    match c {
        CExprView::If(t, conseq, alt, s) => match beta_expr(*conseq, d, f, root) {
            Err(x) => Err(x),
            Ok((conseq2, d1, f1)) => match beta_expr(*alt, d1, at_most(f1, f), root) {
                Err(x) => Err(x),
                Ok((alt2, d2, f2)) => Ok((CExprView::If(t, Box::new(conseq2), Box::new(alt2), s), d2, f2)),
            },
        },
        _ => Ok((c, d, f)),
    }
}

/// Every recorded procedure is bound to a name that `root` uses exactly once
/// and never assigns, and has no rest parameter.
pub open spec fn sound_definitions(d: Definitions, root: ExprView) -> bool {
    forall|b: Seq<char>| #[trigger] d.dom().contains(b) ==> expr_uses(root, b) == 1 && !expr_rebinds(root, b)
        && d[b].1 is None
}

/// Beta reduction only ever inlines a procedure whose name is used exactly
/// once and never assigned, and that has no rest parameter: every definition
/// recorded on the way is of that kind.
pub proof fn law_only_single_use_procedures_inlined(e: ExprView, d: Definitions, f: nat, root: ExprView)
    requires
        sound_definitions(d, root),
    ensures
        beta_expr(e, d, f, root) matches Ok((_, d2, _)) ==> sound_definitions(d2, root),
    decreases f, e,
{
    match e {
        ExprView::Let(name, rhs, body, s) => {
            lemma_rhs_sound(rhs, d, f, root);
            if let Ok((rhs2, d1, f1)) = beta_rhs(rhs, d, f, root) {
                let d2 = match definition_of(name, rhs2, root) {
                    Some(l) => d1.insert(name, l),
                    None => d1,
                };
                law_only_single_use_procedures_inlined(*body, d2, at_most(f1, f), root);
            }
        },
        ExprView::CExpr(c) => {
            match (callee(c, d, f), call_of(c)) {
                (Some(b), Some((_, args, s))) => {
                    if let Ok(e2) = inlined_app(d[b], args, s) {
                        law_only_single_use_procedures_inlined(e2, d, (f - 1) as nat, root);
                    }
                },
                _ => lemma_cexpr_sound(c, d, f, root),
            }
        },
        ExprView::AExpr(a) => lemma_aexpr_sound(a, d, f, root),
    }
}

proof fn lemma_rhs_sound(r: RhsView, d: Definitions, f: nat, root: ExprView)
    requires
        sound_definitions(d, root),
    ensures
        beta_rhs(r, d, f, root) matches Ok((_, d2, _)) ==> sound_definitions(d2, root),
    decreases f, r,
{
    match r {
        RhsView::AExpr(a) => lemma_aexpr_sound(a, d, f, root),
        RhsView::CExpr(c) => lemma_cexpr_sound(c, d, f, root),
    }
}

proof fn lemma_aexpr_sound(a: AExprView, d: Definitions, f: nat, root: ExprView)
    requires
        sound_definitions(d, root),
    ensures
        beta_aexpr(a, d, f, root) matches Ok((_, d2, _)) ==> sound_definitions(d2, root),
    decreases f, a,
{
    if let AExprView::Lambda(_, _, body, _) = a {
        law_only_single_use_procedures_inlined(*body, d, f, root);
    }
}

proof fn lemma_cexpr_sound(c: CExprView, d: Definitions, f: nat, root: ExprView)
    requires
        sound_definitions(d, root),
    ensures
        beta_cexpr(c, d, f, root) matches Ok((_, d2, _)) ==> sound_definitions(d2, root),
    decreases f, c,
{
    if let CExprView::If(_, conseq, alt, _) = c {
        law_only_single_use_procedures_inlined(*conseq, d, f, root);
        if let Ok((_, d1, f1)) = beta_expr(*conseq, d, f, root) {
            law_only_single_use_procedures_inlined(*alt, d1, at_most(f1, f), root);
        }
    }
}

/// The outcome `r` of an executable step is the step `spec`, with `defs` and
/// `fuel` the state afterwards.
pub open spec fn step_matches<T, V>(r: Result<T, CompilationError>, view: spec_fn(T) -> V, spec: Result<(V, Definitions, nat), ErrorView>, defs: Definitions, fuel: u64) -> bool {
    match r {
        Ok(t) => spec == Ok::<(V, Definitions, nat), ErrorView>((view(t), defs, fuel as nat)),
        Err(x) => spec == Err::<(V, Definitions, nat), ErrorView>(x@),
    }
}

fn arity_error(span: Span, expected: usize, got: usize) -> (r: CompilationError)
    ensures
        r@ == (span, arity_message(expected as nat, got as nat)),
{
    let mut reason = String::from_str("Invalid application: expected ");
    push_decimal(&mut reason, expected as u64);
    reason.append(" arguments, but got ");
    push_decimal(&mut reason, got as u64);
    CompilationError { span, reason }
}

proof fn lemma_bind_args_step(params: Seq<Seq<char>>, args: Seq<ValueView>, body: ExprView, span: Span, i: int)
    requires
        0 <= i < params.len(),
        params.len() == args.len(),
    ensures
        bind_args(params.skip(i), args.skip(i), body, span) == ExprView::Let(
            params[i],
            RhsView::AExpr(value_aexpr(args[i])),
            Box::new(bind_args(params.skip(i + 1), args.skip(i + 1), body, span)),
            span,
        ),
{
    assert(params.skip(i).skip(1) =~= params.skip(i + 1));
    assert(args.skip(i).skip(1) =~= args.skip(i + 1));
}

fn build_inlined_expr(body: Expr, params: Vec<Symbol>, args: Vec<Value>, span: Span) -> (r: Expr)
    requires
        params@.len() == args@.len(),
    ensures
        r@ == bind_args(crate::compile::anf::symbols_view(params@), values_view(args@), body@, span),
{
    let ghost ps = crate::compile::anf::symbols_view(params@);
    let ghost vs = values_view(args@);
    let mut params = params;
    let mut args = args;
    let mut result = body;
    assert(ps.skip(ps.len() as int) =~= Seq::<Seq<char>>::empty());
    while params.len() > 0
        invariant
            params@.len() == args@.len(),
            params@.len() <= ps.len(),
            ps.len() == vs.len(),
            crate::compile::anf::symbols_view(params@) == ps.take(params@.len() as int),
            values_view(args@) == vs.take(args@.len() as int),
            result@ == bind_args(ps.skip(params@.len() as int), vs.skip(args@.len() as int), body@, span),
        decreases params@.len(),
    {
        let ghost i = params@.len() - 1;
        let ghost before_p = params@;
        let ghost before_a = args@;
        let p = match params.pop() {
            Some(p) => p,
            None => vstd::pervasive::unreached(),
        };
        let a = match args.pop() {
            Some(a) => a,
            None => vstd::pervasive::unreached(),
        };
        proof {
            assert(ps.take(i + 1)[i] == ps[i]);
            assert(vs.take(i + 1)[i] == vs[i]);
            assert(p == before_p[i]);
            assert(a == before_a[i]);
            assert(crate::compile::anf::symbols_view(params@) =~= ps.take(i));
            assert(values_view(args@) =~= vs.take(i));
            lemma_bind_args_step(ps, vs, body@, span, i);
        }
        let aexpr = match a {
            Value::Literal(e) => AExpr::Literal(e),
            Value::Var(var, s) => AExpr::Var(var, s),
        };
        assert(aexpr_view(aexpr) == value_aexpr(vs[i]));
        proof {
            reveal_with_fuel(crate::compile::anf::expr_view, 2);
        }
        let ghost inner = result@;
        result = Expr::Let(Let { initializer: Box::new((p, Rhs::AExpr(aexpr))), body: Box::new(result) }, span);
        assert(result@ == ExprView::Let(ps[i], RhsView::AExpr(value_aexpr(vs[i])), Box::new(inner), span));
    }
    assert(ps.skip(0) =~= ps);
    assert(vs.skip(0) =~= vs);
    result
}

pub(crate) fn inline_lambda_app(lambda: Lambda, args: Vec<Value>, span: Span) -> (r: Result<Expr, CompilationError>)
    ensures
        match r {
            Ok(e) => inlined_app(lambda@, values_view(args@), span) == Ok::<ExprView, ErrorView>(e@),
            Err(x) => inlined_app(lambda@, values_view(args@), span) == Err::<ExprView, ErrorView>(x@),
        },
{
    let Lambda { args: params, body, .. } = lambda;
    if params.len() != args.len() {
        return Err(arity_error(span, params.len(), args.len()));
    }
    Ok(build_inlined_expr(*body, params, args, span))
}

fn definition_of_let(name: &Symbol, rhs: &Rhs, census: &Census, Ghost(root): Ghost<ExprView>) -> (r: Option<Lambda>)
    requires
        census_of(*census, root),
    ensures
        match r {
            Some(l) => definition_of(name@, rhs_view(*rhs), root) == Some(l@),
            None => definition_of(name@, rhs_view(*rhs), root) is None,
        },
{
    match rhs {
        Rhs::AExpr(AExpr::Lambda(lambda, _)) => {
            if lambda.var_arg.is_none() && census.use_count(name) == 1 && !census.is_rebound(name) {
                Some(lambda.duplicate())
            } else {
                None
            }
        },
        _ => None,
    }
}

/// The recorded procedure called by `cexpr`, if any, while inlinings are left.
fn called_definition(cexpr: &CExpr, defs: &SymbolMap<Lambda>, fuel: u64) -> (r: Option<Lambda>)
    ensures
        match r {
            Some(l) => callee(cexpr_view(*cexpr), defs@, fuel as nat) is Some && l@ == defs@[callee(
                cexpr_view(*cexpr),
                defs@,
                fuel as nat,
            )->0],
            None => callee(cexpr_view(*cexpr), defs@, fuel as nat) is None,
        },
{
    if fuel == 0 {
        return None;
    }
    match cexpr {
        CExpr::Application(Application { operand, .. }, _) => match &**operand {
            Value::Var(ResolvedVar::Bound { binding, .. }, _) => match defs.get(binding) {
                Some(lambda) => Some(lambda.duplicate()),
                None => None,
            },
            _ => None,
        },
        _ => None,
    }
}

fn fold_expr(
    expr: Expr,
    defs: &mut SymbolMap<Lambda>,
    fuel: &mut u64,
    census: &Census,
    Ghost(root): Ghost<ExprView>,
) -> (r: Result<Expr, CompilationError>)
    requires
        census_of(*census, root),
    ensures
        *final(fuel) <= *old(fuel),
        step_matches(r, |e: Expr| e@, beta_expr(expr@, old(defs)@, *old(fuel) as nat, root), final(defs)@, *final(fuel)),
    decreases *old(fuel), expr,
{
    match expr {
        Expr::Let(Let { initializer, body }, span) => {
            let (symbol, rhs) = *initializer;
            let rhs = match fold_rhs(rhs, defs, fuel, census, Ghost(root)) {
                Ok(rhs) => rhs,
                Err(e) => return Err(e),
            };
            if let Some(lambda) = definition_of_let(&symbol, &rhs, census, Ghost(root)) {
                defs.insert(symbol.duplicate(), lambda);
            }
            let body = match fold_expr(*body, defs, fuel, census, Ghost(root)) {
                Ok(body) => body,
                Err(e) => return Err(e),
            };
            Ok(Expr::Let(Let { initializer: Box::new((symbol, rhs)), body: Box::new(body) }, span))
        },
        Expr::CExpr(cexpr) => {
            match called_definition(&cexpr, defs, *fuel) {
                Some(lambda) => {
                    let (args, span) = match cexpr {
                        CExpr::Application(Application { args, .. }, span) => (args, span),
                        _ => vstd::pervasive::unreached(),
                    };
                    *fuel = *fuel - 1;
                    match inline_lambda_app(lambda, args, span) {
                        Ok(inlined) => fold_expr(inlined, defs, fuel, census, Ghost(root)),
                        Err(e) => Err(e),
                    }
                },
                None => match fold_cexpr(cexpr, defs, fuel, census, Ghost(root)) {
                    Ok(c) => Ok(Expr::CExpr(c)),
                    Err(e) => Err(e),
                },
            }
        },
        Expr::AExpr(aexpr) => match fold_aexpr(aexpr, defs, fuel, census, Ghost(root)) {
            Ok(a) => Ok(Expr::AExpr(a)),
            Err(e) => Err(e),
        },
    }
}

fn fold_rhs(
    rhs: Rhs,
    defs: &mut SymbolMap<Lambda>,
    fuel: &mut u64,
    census: &Census,
    Ghost(root): Ghost<ExprView>,
) -> (r: Result<Rhs, CompilationError>)
    requires
        census_of(*census, root),
    ensures
        *final(fuel) <= *old(fuel),
        step_matches(r, |x: Rhs| rhs_view(x), beta_rhs(rhs_view(rhs), old(defs)@, *old(fuel) as nat, root), final(defs)@, *final(fuel)),
    decreases *old(fuel), rhs,
{
    match rhs {
        Rhs::AExpr(aexpr) => match fold_aexpr(aexpr, defs, fuel, census, Ghost(root)) {
            Ok(a) => Ok(Rhs::AExpr(a)),
            Err(e) => Err(e),
        },
        Rhs::CExpr(cexpr) => {
            if let Some(lambda) = called_definition(&cexpr, defs, *fuel) {
                let no_args = match &cexpr {
                    CExpr::Application(Application { args, .. }, _) => args.len() == 0,
                    _ => false,
                };
                if no_args && lambda.args.len() == 0 {
                    match *lambda.body {
                        Expr::AExpr(a) => {
                            *fuel = *fuel - 1;
                            return Ok(Rhs::AExpr(a));
                        },
                        Expr::CExpr(c) => {
                            *fuel = *fuel - 1;
                            return Ok(Rhs::CExpr(c));
                        },
                        Expr::Let(..) => {},
                    }
                }
            }
            match fold_cexpr(cexpr, defs, fuel, census, Ghost(root)) {
                Ok(c) => Ok(Rhs::CExpr(c)),
                Err(e) => Err(e),
            }
        },
    }
}

fn fold_aexpr(
    aexpr: AExpr,
    defs: &mut SymbolMap<Lambda>,
    fuel: &mut u64,
    census: &Census,
    Ghost(root): Ghost<ExprView>,
) -> (r: Result<AExpr, CompilationError>)
    requires
        census_of(*census, root),
    ensures
        *final(fuel) <= *old(fuel),
        step_matches(r, |x: AExpr| aexpr_view(x), beta_aexpr(aexpr_view(aexpr), old(defs)@, *old(fuel) as nat, root), final(defs)@, *final(fuel)),
    decreases *old(fuel), aexpr,
{
    match aexpr {
        AExpr::Lambda(Lambda { args, var_arg, body }, span) => match fold_expr(*body, defs, fuel, census, Ghost(root)) {
            Ok(body) => Ok(AExpr::Lambda(Lambda { args, var_arg, body: Box::new(body) }, span)),
            Err(e) => Err(e),
        },
        other => Ok(other),
    }
}

fn fold_cexpr(
    cexpr: CExpr,
    defs: &mut SymbolMap<Lambda>,
    fuel: &mut u64,
    census: &Census,
    Ghost(root): Ghost<ExprView>,
) -> (r: Result<CExpr, CompilationError>)
    requires
        census_of(*census, root),
    ensures
        *final(fuel) <= *old(fuel),
        step_matches(r, |x: CExpr| cexpr_view(x), beta_cexpr(cexpr_view(cexpr), old(defs)@, *old(fuel) as nat, root), final(defs)@, *final(fuel)),
    decreases *old(fuel), cexpr,
{
    match cexpr {
        CExpr::If(If { test, conseq, alt }, span) => {
            let conseq = match fold_expr(*conseq, defs, fuel, census, Ghost(root)) {
                Ok(c) => c,
                Err(e) => return Err(e),
            };
            let alt = match fold_expr(*alt, defs, fuel, census, Ghost(root)) {
                Ok(a) => a,
                Err(e) => return Err(e),
            };
            Ok(CExpr::If(If { test, conseq: Box::new(conseq), alt: Box::new(alt) }, span))
        },
        other => Ok(other),
    }
}

/// Beta reduction of `e` (see `beta_expr`), starting with no definitions and
/// at most `u64::MAX` inlinings, followed by dead code elimination.
pub open spec fn beta_reduced(e: ExprView) -> Result<ExprView, ErrorView> {
    match beta_expr(e, Map::empty(), u64::MAX as nat, e) {
        Err(x) => Err(x),
        Ok((e2, _, _)) => Ok(dce_expr(e2, census_map(e2)).0),
    }
}

/// Inlines each procedure bound by a `let` to a name used exactly once, and
/// never assigned, at the call that uses it; then removes the code left dead.
/// Fails where such a call passes a different number of arguments than the
/// procedure takes.
pub fn beta_reduce(expr: Expr) -> (r: Result<Expr, CompilationError>)
    requires
        forall|k: Seq<char>| #[trigger] expr_uses(expr@, k) <= usize::MAX,
        beta_expr(expr@, Map::empty(), u64::MAX as nat, expr@) is Ok ==> forall|k: Seq<char>| #[trigger]
            expr_uses(beta_expr(expr@, Map::empty(), u64::MAX as nat, expr@)->Ok_0.0, k) <= usize::MAX,
    ensures
        match r {
            Ok(e) => beta_reduced(expr@) == Ok::<ExprView, ErrorView>(e@),
            Err(x) => beta_reduced(expr@) == Err::<ExprView, ErrorView>(x@),
        },
{
    let ghost root = expr@;
    let census = collect_census(&expr);
    let mut defs: SymbolMap<Lambda> = SymbolMap::new();
    let mut fuel: u64 = u64::MAX;
    match fold_expr(expr, &mut defs, &mut fuel, &census, Ghost(root)) {
        Ok(reduced) => Ok(dce(reduced)),
        Err(e) => Err(e),
    }
}

/// In a `let`'s right-hand side, a call is only ever replaced when it passes
/// no argument to a recorded procedure that takes no parameter, and it is then
/// replaced by that procedure's body; any other call stays as it is.
pub proof fn law_rhs_call_inlined_only_without_arguments(c: CExprView, d: Definitions, f: nat, root: ExprView)
    requires
        c is Application,
    ensures
        beta_rhs(RhsView::CExpr(c), d, f, root) matches Ok((r2, d2, _)) ==> d2 == d && (r2 == RhsView::CExpr(c) || {
            &&& call_of(c) matches Some((b, args, _))
            &&& args.len() == 0
            &&& d.dom().contains(b)
            &&& d[b].0.len() == 0
            &&& f > 0
            &&& (r2 matches RhsView::AExpr(a) ==> d[b].2 == ExprView::AExpr(a))
            &&& (r2 matches RhsView::CExpr(c2) ==> d[b].2 == ExprView::CExpr(c2))
        }),
{
}

/// A call in expression position is only inlined when it calls a recorded
/// procedure and an inlining is left; every other call stays as it is, with no
/// error.
pub proof fn law_expr_call_kept_unless_recorded(c: CExprView, d: Definitions, f: nat, root: ExprView)
    requires
        c is Application,
        !(call_of(c) matches Some((b, _, _)) && f > 0 && d.dom().contains(b)),
    ensures
        beta_expr(ExprView::CExpr(c), d, f, root) == Ok::<(ExprView, Definitions, nat), ErrorView>(
            (ExprView::CExpr(c), d, f),
        ),
{
    assert(beta_cexpr(c, d, f, root) == Ok::<(CExprView, Definitions, nat), ErrorView>((c, d, f)));
}

} // verus!
