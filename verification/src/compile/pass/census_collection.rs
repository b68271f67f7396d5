use vstd::prelude::*;

use crate::compile::anf::{
    aexpr_view, cexpr_view, rhs_view, values_view, AExpr, AExprView, Application, Assign, CExpr, CExprView, Expr,
    ExprView, If, Lambda, Let, Rhs, RhsView, Value, ValueView,
};
use crate::compile::census::{rebound, sat_sub, uses, Census};
use crate::compile::ident::ResolvedVar;

verus! {

/// How often a value refers to the binding `k`.
pub open spec fn value_uses(v: ValueView, k: Seq<char>) -> nat {
    match v {
        ValueView::Var((_, Some(b)), _) => if b == k {
            1
        } else {
            0
        },
        _ => 0,
    }
}

/// How often the values refer to the binding `k`.
pub open spec fn values_uses(vs: Seq<ValueView>, k: Seq<char>) -> nat
    decreases vs.len(),
{
    if vs.len() == 0 {
        0
    } else {
        value_uses(vs[0], k) + values_uses(vs.skip(1), k)
    }
}

/// How often an expression refers to the binding `k`: each bound variable
/// reference counts, an assignment to it included; what a lambda's body
/// refers to counts too.
pub open spec fn expr_uses(e: ExprView, k: Seq<char>) -> nat
    decreases e,
{
    match e {
        ExprView::AExpr(a) => aexpr_uses(a, k),
        ExprView::CExpr(c) => cexpr_uses(c, k),
        ExprView::Let(_, rhs, body, _) => rhs_uses(rhs, k) + expr_uses(*body, k),
    }
}

pub open spec fn aexpr_uses(a: AExprView, k: Seq<char>) -> nat
    decreases a,
{
    match a {
        AExprView::Var((_, Some(b)), _) => if b == k {
            1
        } else {
            0
        },
        AExprView::Lambda(_, _, body, _) => expr_uses(*body, k),
        _ => 0,
    }
}

pub open spec fn cexpr_uses(c: CExprView, k: Seq<char>) -> nat
    decreases c,
{
    match c {
        CExprView::Application(op, args, _) => value_uses(op, k) + values_uses(args, k),
        CExprView::If(t, conseq, alt, _) => value_uses(t, k) + expr_uses(*conseq, k) + expr_uses(*alt, k),
        CExprView::Assign((_, Some(b)), v, _) => (if b == k {
            1nat
        } else {
            0nat
        }) + value_uses(v, k),
        CExprView::Assign((_, None), v, _) => value_uses(v, k),
    }
}

pub open spec fn rhs_uses(r: RhsView, k: Seq<char>) -> nat
    decreases r,
{
    match r {
        RhsView::AExpr(a) => aexpr_uses(a, k),
        RhsView::CExpr(c) => cexpr_uses(c, k),
    }
}

/// Whether an expression assigns to the binding `k`, in a lambda's body too.
pub open spec fn expr_rebinds(e: ExprView, k: Seq<char>) -> bool
    decreases e,
{
    match e {
        ExprView::AExpr(a) => aexpr_rebinds(a, k),
        ExprView::CExpr(c) => cexpr_rebinds(c, k),
        ExprView::Let(_, rhs, body, _) => rhs_rebinds(rhs, k) || expr_rebinds(*body, k),
    }
}

pub open spec fn aexpr_rebinds(a: AExprView, k: Seq<char>) -> bool
    decreases a,
{
    match a {
        AExprView::Lambda(_, _, body, _) => expr_rebinds(*body, k),
        _ => false,
    }
}

pub open spec fn cexpr_rebinds(c: CExprView, k: Seq<char>) -> bool
    decreases c,
{
    match c {
        CExprView::If(_, conseq, alt, _) => expr_rebinds(*conseq, k) || expr_rebinds(*alt, k),
        CExprView::Assign((_, Some(b)), _, _) => b == k,
        _ => false,
    }
}

pub open spec fn rhs_rebinds(r: RhsView, k: Seq<char>) -> bool
    decreases r,
{
    match r {
        RhsView::AExpr(a) => aexpr_rebinds(a, k),
        RhsView::CExpr(c) => cexpr_rebinds(c, k),
    }
}

/// The census of `e`: for each binding, how often `e` refers to it (see
/// `expr_uses`) and whether it assigns to it (see `expr_rebinds`); a binding
/// it never refers to is not in it.
pub open spec fn census_map(e: ExprView) -> Map<Seq<char>, (nat, bool)> {
    Map::new(|k: Seq<char>| expr_uses(e, k) > 0, |k: Seq<char>| (expr_uses(e, k), expr_rebinds(e, k)))
}

/// The census `census` records what `root` uses and assigns.
pub open spec fn census_of(census: Census, root: ExprView) -> bool {
    &&& forall|k: Seq<char>| #[trigger] rebound(census@, k) == expr_rebinds(root, k)
    &&& forall|k: Seq<char>| #[trigger] uses(census@, k) == expr_uses(root, k)
}

/// The census of an expression (see `census_map`).
pub fn collect_census(expr: &Expr) -> (r: Census)
    requires
        forall|k: Seq<char>| #[trigger] expr_uses(expr@, k) <= usize::MAX,
    ensures
        r@ == census_map(expr@),
        forall|k: Seq<char>| #[trigger] uses(r@, k) == expr_uses(expr@, k),
        forall|k: Seq<char>| #[trigger] rebound(r@, k) == expr_rebinds(expr@, k),
        forall|k: Seq<char>| #[trigger] r@.dom().contains(k) == (expr_uses(expr@, k) > 0),
{
    let mut census = Census::new();
    collect_census_expr(expr, &mut census);
    assert forall|k: Seq<char>| census@.dom().contains(k) implies census@[k] == (expr_uses(expr@, k), expr_rebinds(
        expr@,
        k,
    )) by {
        assert(uses(census@, k) == expr_uses(expr@, k));
        assert(rebound(census@, k) == expr_rebinds(expr@, k));
    }
    assert(census@ =~= census_map(expr@));
    census
}

fn collect_census_expr(expr: &Expr, census: &mut Census)
    requires
        forall|k: Seq<char>| #[trigger] uses(old(census)@, k) + expr_uses(expr@, k) <= usize::MAX,
    ensures
        forall|k: Seq<char>| #[trigger] uses(final(census)@, k) == uses(old(census)@, k) + expr_uses(expr@, k),
        forall|k: Seq<char>| #[trigger] rebound(final(census)@, k) == (rebound(old(census)@, k) || expr_rebinds(expr@, k)),
        forall|k: Seq<char>| #[trigger]
            final(census)@.dom().contains(k) == (old(census)@.dom().contains(k) || expr_uses(expr@, k) > 0),
    decreases expr,
{
    match expr {
        Expr::AExpr(aexpr) => collect_census_aexpr(aexpr, census),
        Expr::CExpr(cexpr) => collect_census_cexpr(cexpr, census),
        Expr::Let(Let { initializer, body }, _) => {
            collect_census_rhs(&initializer.1, census);
            collect_census_expr(body, census);
        },
    }
}

fn collect_census_rhs(rhs: &Rhs, census: &mut Census)
    requires
        forall|k: Seq<char>| #[trigger] uses(old(census)@, k) + rhs_uses(rhs_view(*rhs), k) <= usize::MAX,
    ensures
        forall|k: Seq<char>| #[trigger]
            uses(final(census)@, k) == uses(old(census)@, k) + rhs_uses(rhs_view(*rhs), k),
        forall|k: Seq<char>| #[trigger]
            rebound(final(census)@, k) == (rebound(old(census)@, k) || rhs_rebinds(rhs_view(*rhs), k)),
        forall|k: Seq<char>| #[trigger]
            final(census)@.dom().contains(k) == (old(census)@.dom().contains(k) || rhs_uses(rhs_view(*rhs), k) > 0),
    decreases rhs,
{
    match rhs {
        Rhs::AExpr(aexpr) => collect_census_aexpr(aexpr, census),
        Rhs::CExpr(cexpr) => collect_census_cexpr(cexpr, census),
    }
}

fn collect_census_aexpr(aexpr: &AExpr, census: &mut Census)
    requires
        forall|k: Seq<char>| #[trigger] uses(old(census)@, k) + aexpr_uses(aexpr_view(*aexpr), k) <= usize::MAX,
    ensures
        forall|k: Seq<char>| #[trigger]
            uses(final(census)@, k) == uses(old(census)@, k) + aexpr_uses(aexpr_view(*aexpr), k),
        forall|k: Seq<char>| #[trigger]
            rebound(final(census)@, k) == (rebound(old(census)@, k) || aexpr_rebinds(aexpr_view(*aexpr), k)),
        forall|k: Seq<char>| #[trigger]
            final(census)@.dom().contains(k) == (old(census)@.dom().contains(k) || aexpr_uses(aexpr_view(*aexpr), k) > 0),
    decreases aexpr,
{
    match aexpr {
        AExpr::Var(ResolvedVar::Bound { binding, .. }, _) => {
            assert(uses(old(census)@, binding@) + aexpr_uses(aexpr_view(*aexpr), binding@) <= usize::MAX);
            census.track_use(binding);
        },
        AExpr::Lambda(Lambda { body, .. }, _) => {
            collect_census_expr(body, census);
        },
        _ => {},
    }
}

fn collect_census_value(value: &Value, census: &mut Census)
    requires
        forall|k: Seq<char>| #[trigger] uses(old(census)@, k) + value_uses(value@, k) <= usize::MAX,
    ensures
        forall|k: Seq<char>| #[trigger] uses(final(census)@, k) == uses(old(census)@, k) + value_uses(value@, k),
        forall|k: Seq<char>| #[trigger] rebound(final(census)@, k) == rebound(old(census)@, k),
        forall|k: Seq<char>| #[trigger]
            final(census)@.dom().contains(k) == (old(census)@.dom().contains(k) || value_uses(value@, k) > 0),
{
    if let Value::Var(ResolvedVar::Bound { binding, .. }, _) = value {
        assert(uses(old(census)@, binding@) + value_uses(value@, binding@) <= usize::MAX);
        census.track_use(binding);
    }
}

fn collect_census_cexpr(cexpr: &CExpr, census: &mut Census)
    requires
        forall|k: Seq<char>| #[trigger] uses(old(census)@, k) + cexpr_uses(cexpr_view(*cexpr), k) <= usize::MAX,
    ensures
        forall|k: Seq<char>| #[trigger]
            uses(final(census)@, k) == uses(old(census)@, k) + cexpr_uses(cexpr_view(*cexpr), k),
        forall|k: Seq<char>| #[trigger]
            rebound(final(census)@, k) == (rebound(old(census)@, k) || cexpr_rebinds(cexpr_view(*cexpr), k)),
        forall|k: Seq<char>| #[trigger]
            final(census)@.dom().contains(k) == (old(census)@.dom().contains(k) || cexpr_uses(cexpr_view(*cexpr), k) > 0),
    decreases cexpr,
{
    match cexpr {
        CExpr::Application(Application { operand, args }, span) => {
            collect_census_value(operand, census);
            let mut i: usize = 0;
            while i < args.len()
                invariant
                    i <= args.len(),
                    forall|k: Seq<char>| #[trigger]
                        uses(census@, k) == uses(old(census)@, k) + value_uses(operand@, k) + values_uses(
                            values_view(args@).take(i as int),
                            k,
                        ),
                    forall|k: Seq<char>| #[trigger] rebound(census@, k) == rebound(old(census)@, k),
                    forall|k: Seq<char>| #[trigger]
                        census@.dom().contains(k) == (old(census)@.dom().contains(k) || value_uses(operand@, k) + values_uses(
                            values_view(args@).take(i as int),
                            k,
                        ) > 0),
                    forall|k: Seq<char>| #[trigger] uses(old(census)@, k) + cexpr_uses(cexpr_view(*cexpr), k) <= usize::MAX,
                    cexpr_view(*cexpr) == CExprView::Application(operand@, values_view(args@), *span),
                decreases args.len() - i,
            {
                proof {
                    lemma_values_uses_take(values_view(args@), i as int);
                    assert forall|k: Seq<char>| #[trigger] uses(census@, k) + value_uses(args@[i as int]@, k) <= usize::MAX by {
                        lemma_values_uses_take(values_view(args@), i as int);
                        lemma_values_uses_bound(values_view(args@), i as int + 1, k);
                        assert(cexpr_uses(cexpr_view(*cexpr), k) == value_uses(operand@, k) + values_uses(
                            values_view(args@),
                            k,
                        ));
                    }
                }
                collect_census_value(&args[i], census);
                i = i + 1;
            }
            assert(values_view(args@).take(args.len() as int) =~= values_view(args@));
        },
        CExpr::If(If { test, conseq, alt }, _) => {
            collect_census_value(test, census);
            collect_census_expr(conseq, census);
            collect_census_expr(alt, census);
        },
        CExpr::Assign(Assign { var, aexpr }, _) => {
            match var {
                ResolvedVar::Bound { binding, .. } => {
                    assert(uses(old(census)@, binding@) + cexpr_uses(cexpr_view(*cexpr), binding@) <= usize::MAX);
                    census.track_use(binding);
                    census.track_rebound(binding);
                    assert forall|k: Seq<char>| #[trigger] uses(census@, k) + value_uses(aexpr@, k) <= usize::MAX by {
                        assert(uses(old(census)@, k) + cexpr_uses(cexpr_view(*cexpr), k) <= usize::MAX);
                    }
                    collect_census_value(aexpr, census);
                },
                ResolvedVar::Free { .. } => {
                    assert forall|k: Seq<char>| #[trigger] cexpr_uses(cexpr_view(*cexpr), k) == value_uses(aexpr@, k) by {}
                    collect_census_value(aexpr, census);
                },
            }
        },
    }
}

/// The census after the uses in `rhs` are forgotten.
fn forget_rhs(rhs: &Rhs, census: &mut Census)
    ensures
        forall|k: Seq<char>| #[trigger]
            uses(final(census)@, k) == sat_sub(uses(old(census)@, k), rhs_uses(rhs_view(*rhs), k)),
        forall|k: Seq<char>| #[trigger] rebound(final(census)@, k) == rebound(old(census)@, k),
        forall|k: Seq<char>| #[trigger] final(census)@.dom().contains(k) == old(census)@.dom().contains(k),
    decreases rhs,
{
    match rhs {
        Rhs::AExpr(aexpr) => forget_aexpr(aexpr, census),
        Rhs::CExpr(cexpr) => forget_cexpr(cexpr, census),
    }
}

fn forget_expr(expr: &Expr, census: &mut Census)
    ensures
        forall|k: Seq<char>| #[trigger]
            uses(final(census)@, k) == sat_sub(uses(old(census)@, k), expr_uses(expr@, k)),
        forall|k: Seq<char>| #[trigger] rebound(final(census)@, k) == rebound(old(census)@, k),
        forall|k: Seq<char>| #[trigger] final(census)@.dom().contains(k) == old(census)@.dom().contains(k),
    decreases expr,
{
    match expr {
        Expr::AExpr(aexpr) => forget_aexpr(aexpr, census),
        Expr::CExpr(cexpr) => forget_cexpr(cexpr, census),
        Expr::Let(Let { initializer, body }, _) => {
            forget_rhs(&initializer.1, census);
            forget_expr(body, census);
        },
    }
}

fn forget_binding(var: &ResolvedVar, census: &mut Census)
    ensures
        forall|k: Seq<char>| #[trigger]
            uses(final(census)@, k) == sat_sub(uses(old(census)@, k), match var@.1 {
                Some(b) => if b == k {
                    1nat
                } else {
                    0nat
                },
                None => 0nat,
            }),
        forall|k: Seq<char>| #[trigger] rebound(final(census)@, k) == rebound(old(census)@, k),
        forall|k: Seq<char>| #[trigger] final(census)@.dom().contains(k) == old(census)@.dom().contains(k),
{
    if let ResolvedVar::Bound { binding, .. } = var {
        census.untrack_use(binding);
    }
}

fn forget_aexpr(aexpr: &AExpr, census: &mut Census)
    ensures
        forall|k: Seq<char>| #[trigger]
            uses(final(census)@, k) == sat_sub(uses(old(census)@, k), aexpr_uses(aexpr_view(*aexpr), k)),
        forall|k: Seq<char>| #[trigger] rebound(final(census)@, k) == rebound(old(census)@, k),
        forall|k: Seq<char>| #[trigger] final(census)@.dom().contains(k) == old(census)@.dom().contains(k),
    decreases aexpr,
{
    match aexpr {
        AExpr::Var(var, _) => forget_binding(var, census),
        AExpr::Lambda(Lambda { body, .. }, _) => forget_expr(body, census),
        _ => {},
    }
}

fn forget_value(value: &Value, census: &mut Census)
    ensures
        forall|k: Seq<char>| #[trigger]
            uses(final(census)@, k) == sat_sub(uses(old(census)@, k), value_uses(value@, k)),
        forall|k: Seq<char>| #[trigger] rebound(final(census)@, k) == rebound(old(census)@, k),
        forall|k: Seq<char>| #[trigger] final(census)@.dom().contains(k) == old(census)@.dom().contains(k),
{
    if let Value::Var(var, _) = value {
        forget_binding(var, census);
    }
}

fn forget_cexpr(cexpr: &CExpr, census: &mut Census)
    ensures
        forall|k: Seq<char>| #[trigger]
            uses(final(census)@, k) == sat_sub(uses(old(census)@, k), cexpr_uses(cexpr_view(*cexpr), k)),
        forall|k: Seq<char>| #[trigger] rebound(final(census)@, k) == rebound(old(census)@, k),
        forall|k: Seq<char>| #[trigger] final(census)@.dom().contains(k) == old(census)@.dom().contains(k),
    decreases cexpr,
{
    match cexpr {
        CExpr::Application(Application { operand, args }, span) => {
            forget_value(operand, census);
            let mut i: usize = 0;
            while i < args.len()
                invariant
                    i <= args.len(),
                    forall|k: Seq<char>| #[trigger]
                        uses(census@, k) == sat_sub(uses(old(census)@, k), value_uses(operand@, k) + values_uses(
                            values_view(args@).take(i as int),
                            k,
                        )),
                    forall|k: Seq<char>| #[trigger] rebound(census@, k) == rebound(old(census)@, k),
                    forall|k: Seq<char>| #[trigger] census@.dom().contains(k) == old(census)@.dom().contains(k),
                    cexpr_view(*cexpr) == CExprView::Application(operand@, values_view(args@), *span),
                decreases args.len() - i,
            {
                proof {
                    lemma_values_uses_take(values_view(args@), i as int);
                }
                forget_value(&args[i], census);
                i = i + 1;
            }
            assert(values_view(args@).take(args.len() as int) =~= values_view(args@));
        },
        CExpr::If(If { test, conseq, alt }, _) => {
            forget_value(test, census);
            forget_expr(conseq, census);
            forget_expr(alt, census);
        },
        CExpr::Assign(Assign { var, aexpr }, _) => {
            forget_binding(var, census);
            forget_value(aexpr, census);
        },
    }
}

/// The census `m` after the uses in `e` are forgotten: each count drops by
/// the uses of its variable in `e`, but not below zero.
pub open spec fn without_expr_uses(m: Map<Seq<char>, (nat, bool)>, e: ExprView) -> Map<Seq<char>, (nat, bool)> {
    Map::new(|k: Seq<char>| m.dom().contains(k), |k: Seq<char>| (sat_sub(m[k].0, expr_uses(e, k)), m[k].1))
}

/// The census `m` after the uses in `r` are forgotten.
pub open spec fn without_rhs_uses(m: Map<Seq<char>, (nat, bool)>, r: RhsView) -> Map<Seq<char>, (nat, bool)> {
    Map::new(|k: Seq<char>| m.dom().contains(k), |k: Seq<char>| (sat_sub(m[k].0, rhs_uses(r, k)), m[k].1))
}

/// Forgetting all the uses in an expression, from its own census, leaves no
/// use counted, and keeps every binding and reassignment mark.
pub proof fn law_forget_everything(e: ExprView, k: Seq<char>)
    ensures
        uses(without_expr_uses(census_map(e), e), k) == 0,
        rebound(without_expr_uses(census_map(e), e), k) == rebound(census_map(e), k),
        without_expr_uses(census_map(e), e).dom() == census_map(e).dom(),
{
    assert(without_expr_uses(census_map(e), e).dom() =~= census_map(e).dom());
}

impl Census {
    /// Forgets the uses in `rhs`, which is being removed: each count drops by
    /// the uses of its variable there, but not below zero.
    pub fn eliminate(&mut self, rhs: &Rhs)
        ensures
            final(self)@ == without_rhs_uses(old(self)@, rhs_view(*rhs)),
    {
        let ghost before = self@;
        forget_rhs(rhs, self);
        assert forall|k: Seq<char>| self@.dom().contains(k) implies self@[k] == (sat_sub(before[k].0, rhs_uses(rhs_view(*rhs), k)), before[k].1) by {
            assert(uses(self@, k) == sat_sub(uses(before, k), rhs_uses(rhs_view(*rhs), k)));
            assert(rebound(self@, k) == rebound(before, k));
            assert(before.dom().contains(k));
        }
        assert(self@ =~= without_rhs_uses(before, rhs_view(*rhs)));
    }

    /// Forgets the uses in `expr`, which is being removed: each count drops by
    /// the uses of its variable there, but not below zero.
    pub fn eliminate_expr(&mut self, expr: &Expr)
        ensures
            final(self)@ == without_expr_uses(old(self)@, expr@),
    {
        let ghost before = self@;
        forget_expr(expr, self);
        assert forall|k: Seq<char>| self@.dom().contains(k) implies self@[k] == (sat_sub(before[k].0, expr_uses(expr@, k)), before[k].1) by {
            assert(uses(self@, k) == sat_sub(uses(before, k), expr_uses(expr@, k)));
            assert(rebound(self@, k) == rebound(before, k));
            assert(before.dom().contains(k));
        }
        assert(self@ =~= without_expr_uses(before, expr@));
    }
}

/// The uses counted in the first `i + 1` values are those of the first `i`
/// and of the value at `i`.
proof fn lemma_values_uses_take(vs: Seq<ValueView>, i: int)
    requires
        0 <= i < vs.len(),
    ensures
        forall|k: Seq<char>| #[trigger]
            values_uses(vs.take(i + 1), k) == values_uses(vs.take(i), k) + value_uses(vs[i], k),
{
    assert forall|k: Seq<char>| #[trigger]
        values_uses(vs.take(i + 1), k) == values_uses(vs.take(i), k) + value_uses(vs[i], k) by {
        lemma_values_uses_push(vs.take(i), vs[i], k);
        assert(vs.take(i + 1) =~= vs.take(i).push(vs[i]));
    }
}

proof fn lemma_values_uses_push(vs: Seq<ValueView>, v: ValueView, k: Seq<char>)
    ensures
        values_uses(vs.push(v), k) == values_uses(vs, k) + value_uses(v, k),
    decreases vs.len(),
{
    assert(vs.push(v)[0] == if vs.len() == 0 {
        v
    } else {
        vs[0]
    });
    if vs.len() == 0 {
        assert(vs.push(v).skip(1) =~= Seq::<ValueView>::empty());
        assert(values_uses(vs.push(v).skip(1), k) == 0);
    } else {
        lemma_values_uses_push(vs.skip(1), v, k);
        assert(vs.push(v).skip(1) =~= vs.skip(1).push(v));
    }
}

/// The uses counted in a prefix are at most those of the whole.
proof fn lemma_values_uses_bound(vs: Seq<ValueView>, i: int, k: Seq<char>)
    requires
        0 <= i <= vs.len(),
    ensures
        values_uses(vs.take(i), k) <= values_uses(vs, k),
    decreases vs.len() - i,
{
    if i < vs.len() {
        lemma_values_uses_bound(vs, i + 1, k);
        lemma_values_uses_push(vs.take(i), vs[i], k);
        assert(vs.take(i + 1) =~= vs.take(i).push(vs[i]));
    } else {
        assert(vs.take(i) =~= vs);
    }
}

} // verus!
