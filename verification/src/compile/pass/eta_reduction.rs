use vstd::prelude::*;

use crate::compile::anf::{option_view, symbols_view, Application, CExpr, CExprView, Expr, ExprView, Lambda, Value, ValueView};
use crate::compile::census::uses;
use crate::compile::ident::{Duplicate, ResolvedVar, Symbol};
use crate::compile::pass::aliasing::{aliased_expr, propagate_aliases, AliasRule};
use crate::compile::pass::census_collection::{collect_census, expr_uses};

verus! {

/// Whether `v` refers to the binding `b`.
pub open spec fn refers_to(v: ValueView, b: Seq<char>) -> bool {
    v matches ValueView::Var((_, Some(x)), _) && x == b
}

/// The binding that the procedure `(λ args body)` calls on its own parameters,
/// unchanged and in order, when that is all it does: then the procedure
/// behaves as that binding. `None` when it has a rest parameter, when the
/// callee is one of its parameters, or when the call passes anything else.
pub open spec fn eta_target(args: Seq<Seq<char>>, var_arg: Option<Seq<char>>, body: ExprView) -> Option<Seq<char>> {
    match body {
        ExprView::CExpr(CExprView::Application(ValueView::Var((_, Some(op)), _), app_args, _)) => {
            if var_arg is None && !args.contains(op) && args.len() == app_args.len() && forall|i: int|
                0 <= i < args.len() ==> #[trigger] refers_to(app_args[i], args[i]) {
                Some(op)
            } else {
                None
            }
        },
        _ => None,
    }
}

fn contains_symbol(symbols: &Vec<Symbol>, s: &Symbol) -> (r: bool)
    ensures
        r == symbols_view(symbols@).contains(s@),
{
    let mut i: usize = 0;
    while i < symbols.len()
        invariant
            i <= symbols@.len(),
            forall|j: int| 0 <= j < i ==> symbols@[j]@ != s@,
        decreases symbols@.len() - i,
    {
        if symbols[i].same(s) {
            assert(symbols_view(symbols@)[i as int] == s@);
            return true;
        }
        i = i + 1;
    }
    false
}

/// The binding that `lambda` behaves as, when it only passes its parameters on
/// to it (see `eta_target`).
pub(crate) fn try_eta(lambda: &Lambda) -> (r: Option<Symbol>)
    ensures
        option_view(r) == eta_target(symbols_view(lambda.args@), option_view(lambda.var_arg), lambda.body@),
{
    let Lambda { args: lambda_args, var_arg, body } = lambda;
    proof {
        reveal_with_fuel(crate::compile::anf::expr_view, 2);
    }
    let (operand, app_args) = match &**body {
        Expr::CExpr(CExpr::Application(Application { operand, args }, _)) => (operand, args),
        _ => return None,
    };
    let op = match &**operand {
        Value::Var(ResolvedVar::Bound { binding, .. }, _) => binding,
        _ => return None,
    };
    let ghost params = symbols_view(lambda_args@);
    let ghost passed = crate::compile::anf::values_view(app_args@);
    if var_arg.is_some() || contains_symbol(lambda_args, op) || lambda_args.len() != app_args.len() {
        return None;
    }
    assert(eta_target(params, option_view(*var_arg), lambda.body@) == if (forall|j: int|
        0 <= j < params.len() ==> #[trigger] refers_to(passed[j], params[j])) {
        Some(op@)
    } else {
        None::<Seq<char>>
    });
    let mut i: usize = 0;
    while i < lambda_args.len()
        invariant
            i <= lambda_args@.len(),
            lambda_args@.len() == app_args@.len(),
            params == symbols_view(lambda_args@),
            passed == crate::compile::anf::values_view(app_args@),
            forall|j: int| 0 <= j < i ==> #[trigger] refers_to(passed[j], params[j]),
            params == symbols_view(lambda.args@),
            lambda_args@ == lambda.args@,
            eta_target(params, option_view(lambda.var_arg), lambda.body@) == if (forall|j: int|
                0 <= j < params.len() ==> #[trigger] refers_to(passed[j], params[j])) {
                Some(op@)
            } else {
                None::<Seq<char>>
            },
        decreases lambda_args@.len() - i,
    {
        match &app_args[i] {
            Value::Var(ResolvedVar::Bound { binding, .. }, _) => {
                if !binding.same(&lambda_args[i]) {
                    assert(!refers_to(passed[i as int], params[i as int]));
                    return None;
                }
            },
            _ => {
                assert(!refers_to(passed[i as int], params[i as int]));
                return None;
            },
        }
        i = i + 1;
    }
    Some(op.duplicate())
}

/// Eta reduction: wherever `(let ((x (λ (a ..) (f a ..)))) ..)` binds `x` to a
/// procedure that only passes its parameters on to `f`, and neither `x` nor
/// `f` is ever assigned, later references to `x` refer to `f` instead; the
/// `let` itself stays (dead code elimination removes it).
pub fn eta_reduce(expr: Expr) -> (r: Expr)
    requires
        forall|k: Seq<char>| #[trigger] expr_uses(expr@, k) <= usize::MAX,
    ensures
        r@ == aliased_expr(AliasRule::EtaReductions, expr@, Map::empty(), expr@).0,
{
    let census = collect_census(&expr);
    propagate_aliases(AliasRule::EtaReductions, expr, &census)
}

/// A procedure is eta-reducible only when it does nothing but call one bound
/// variable, other than its parameters, on exactly its parameters, each once
/// and in order, and has no rest parameter; it then behaves as that variable.
pub proof fn law_eta_target_passes_exactly_the_parameters(
    args: Seq<Seq<char>>,
    var_arg: Option<Seq<char>>,
    body: ExprView,
)
    ensures
        eta_target(args, var_arg, body) matches Some(op) ==> {
            &&& var_arg is None
            &&& !args.contains(op)
            &&& body matches ExprView::CExpr(CExprView::Application(ValueView::Var((_, Some(callee)), _), passed, _))
            &&& callee == op
            &&& passed.len() == args.len()
            &&& forall|i: int| 0 <= i < args.len() ==> (#[trigger] passed[i]) is Var && passed[i]->Var_0.1 == Some(args[i])
        },
{
    if let Some(op) = eta_target(args, var_arg, body) {
        if let ExprView::CExpr(CExprView::Application(_, passed, _)) = body {
            assert forall|i: int| 0 <= i < args.len() implies (#[trigger] passed[i]) is Var && passed[i]->Var_0.1 == Some(args[i]) by {
                assert(refers_to(passed[i], args[i]));
            }
        }
    }
}

} // verus!
