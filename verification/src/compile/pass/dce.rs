use vstd::prelude::*;

use crate::compile::anf::{
    aexpr_view, cexpr_view, rhs_view, AExpr, AExprView, CExpr, CExprView, Expr, ExprView, If, Lambda, Let, Rhs,
    RhsView, Value, ValueView,
};
use crate::compile::census::{rebound, sat_sub, uses, Census};
use crate::compile::pass::census_collection::{
    aexpr_uses, census_map, cexpr_uses, collect_census, expr_uses, rhs_uses, without_expr_uses, without_rhs_uses,
};
use crate::compile::sexpr::{Bool, SExpr, SExprView};

verus! {

/// A census: for each variable seen, its number of uses and whether it is
/// assigned again.
pub type CensusView = Map<Seq<char>, (nat, bool)>;

/// Dead code elimination, walking the tree in evaluation order with the census
/// `m`, which forgets the uses in whatever is removed:
/// - a `let` of an atomic value whose name has no use left is removed (checked
///   before and again after its body is cleaned);
/// - a conditional whose test is a literal is replaced by the branch that runs
///   (the alternative for `#f`, the consequent for any other literal).
/// Also gives the census at the end.
pub open spec fn dce_expr(e: ExprView, m: CensusView) -> (ExprView, CensusView)
    decreases e,
{
    match e {
        ExprView::Let(name, rhs, body, s) => {
            if uses(m, name) == 0 && rhs is AExpr {
                dce_expr(*body, without_rhs_uses(m, rhs))
            } else {
                let (body2, m1) = dce_expr(*body, m);
                if uses(m1, name) == 0 && rhs is AExpr {
                    (body2, without_rhs_uses(m1, rhs))
                } else {
                    let (rhs2, m2) = dce_rhs(rhs, m1);
                    (ExprView::Let(name, rhs2, Box::new(body2), s), m2)
                }
            }
        },
        ExprView::CExpr(CExprView::If(ValueView::Literal(t), conseq, alt, _)) => {
            if t matches SExprView::Bool(false, _) {
                dce_expr(*alt, without_expr_uses(m, *conseq))
            } else {
                dce_expr(*conseq, without_expr_uses(m, *alt))
            }
        },
        ExprView::AExpr(a) => {
            let (a2, m2) = dce_aexpr(a, m);
            (ExprView::AExpr(a2), m2)
        },
        ExprView::CExpr(c) => {
            let (c2, m2) = dce_cexpr(c, m);
            (ExprView::CExpr(c2), m2)
        },
    }
}

pub open spec fn dce_aexpr(a: AExprView, m: CensusView) -> (AExprView, CensusView)
    decreases a,
{
    match a {
        AExprView::Lambda(args, var_arg, body, s) => {
            let (body2, m2) = dce_expr(*body, m);
            (AExprView::Lambda(args, var_arg, Box::new(body2), s), m2)
        },
        _ => (a, m),
    }
}

pub open spec fn dce_cexpr(c: CExprView, m: CensusView) -> (CExprView, CensusView)
    decreases c,
{
    match c {
        CExprView::If(t, conseq, alt, s) => {
            let (conseq2, m1) = dce_expr(*conseq, m);
            let (alt2, m2) = dce_expr(*alt, m1);
            (CExprView::If(t, Box::new(conseq2), Box::new(alt2), s), m2)
        },
        _ => (c, m),
    }
}

pub open spec fn dce_rhs(r: RhsView, m: CensusView) -> (RhsView, CensusView)
    decreases r,
{
    match r {
        RhsView::AExpr(a) => {
            let (a2, m2) = dce_aexpr(a, m);
            (RhsView::AExpr(a2), m2)
        },
        RhsView::CExpr(c) => {
            let (c2, m2) = dce_cexpr(c, m);
            (RhsView::CExpr(c2), m2)
        },
    }
}

/// `m2` differs from `m` only in counts that went down.
pub open spec fn only_forgets(m2: CensusView, m: CensusView) -> bool {
    &&& m2.dom() == m.dom()
    &&& forall|k: Seq<char>| #[trigger] uses(m2, k) <= uses(m, k)
    &&& forall|k: Seq<char>| #[trigger] rebound(m2, k) == rebound(m, k)
}

/// Dead code elimination only forgets uses: no count goes up, no binding
/// enters or leaves the census, and no reassignment mark changes.
pub proof fn law_dce_only_forgets(e: ExprView, m: CensusView)
    ensures
        only_forgets(dce_expr(e, m).1, m),
    decreases e,
{
    match e {
        ExprView::Let(name, rhs, body, s) => {
            if uses(m, name) == 0 && rhs is AExpr {
                law_dce_only_forgets(*body, without_rhs_uses(m, rhs));
                assert(without_rhs_uses(m, rhs).dom() =~= m.dom());
            } else {
                law_dce_only_forgets(*body, m);
                let m1 = dce_expr(*body, m).1;
                if uses(m1, name) == 0 && rhs is AExpr {
                    assert(without_rhs_uses(m1, rhs).dom() =~= m1.dom());
                    assert forall|k: Seq<char>| #[trigger] uses(without_rhs_uses(m1, rhs), k) <= uses(m1, k) by {
                        if m1.dom().contains(k) {
                            assert(without_rhs_uses(m1, rhs)[k].0 == sat_sub(m1[k].0, rhs_uses(rhs, k)));
                        }
                    }
                    assert forall|k: Seq<char>| #[trigger] rebound(without_rhs_uses(m1, rhs), k) == rebound(m1, k) by {
                        if m1.dom().contains(k) {
                            assert(without_rhs_uses(m1, rhs)[k].1 == m1[k].1);
                        }
                    }
                } else {
                    lemma_dce_rhs_only_forgets(rhs, m1);
                    }
            }
        },
        ExprView::CExpr(CExprView::If(ValueView::Literal(t), conseq, alt, _)) => {
            if t matches SExprView::Bool(false, _) {
                law_dce_only_forgets(*alt, without_expr_uses(m, *conseq));
                assert(without_expr_uses(m, *conseq).dom() =~= m.dom());
            } else {
                law_dce_only_forgets(*conseq, without_expr_uses(m, *alt));
                assert(without_expr_uses(m, *alt).dom() =~= m.dom());
            }
        },
        ExprView::AExpr(a) => lemma_dce_aexpr_only_forgets(a, m),
        ExprView::CExpr(c) => {
            lemma_dce_cexpr_only_forgets(c, m);
            assert(dce_expr(e, m) == (ExprView::CExpr(dce_cexpr(c, m).0), dce_cexpr(c, m).1));
        },
    }
}

proof fn lemma_dce_aexpr_only_forgets(a: AExprView, m: CensusView)
    ensures
        only_forgets(dce_aexpr(a, m).1, m),
    decreases a,
{
    if let AExprView::Lambda(_, _, body, _) = a {
        law_dce_only_forgets(*body, m);
    }
}

proof fn lemma_dce_cexpr_only_forgets(c: CExprView, m: CensusView)
    ensures
        only_forgets(dce_cexpr(c, m).1, m),
    decreases c,
{
    if let CExprView::If(_, conseq, alt, _) = c {
        law_dce_only_forgets(*conseq, m);
        law_dce_only_forgets(*alt, dce_expr(*conseq, m).1);
    }
}

proof fn lemma_dce_rhs_only_forgets(r: RhsView, m: CensusView)
    ensures
        only_forgets(dce_rhs(r, m).1, m),
    decreases r,
{
    match r {
        RhsView::AExpr(a) => lemma_dce_aexpr_only_forgets(a, m),
        RhsView::CExpr(c) => lemma_dce_cexpr_only_forgets(c, m),
    }
}

/// Dead code elimination only removes code: afterwards no binding is referred
/// to more often than before.
pub proof fn law_dce_removes_only(e: ExprView, m: CensusView, k: Seq<char>)
    ensures
        expr_uses(dce_expr(e, m).0, k) <= expr_uses(e, k),
    decreases e,
{
    match e {
        ExprView::Let(name, rhs, body, s) => {
            if uses(m, name) == 0 && rhs is AExpr {
                law_dce_removes_only(*body, without_rhs_uses(m, rhs), k);
            } else {
                law_dce_removes_only(*body, m, k);
                let m1 = dce_expr(*body, m).1;
                if !(uses(m1, name) == 0 && rhs is AExpr) {
                    lemma_dce_rhs_removes_only(rhs, m1, k);
                }
            }
        },
        ExprView::CExpr(CExprView::If(ValueView::Literal(t), conseq, alt, s)) => {
            assert(expr_uses(e, k) == cexpr_uses(CExprView::If(ValueView::Literal(t), conseq, alt, s), k));
            if t matches SExprView::Bool(false, _) {
                law_dce_removes_only(*alt, without_expr_uses(m, *conseq), k);
            } else {
                law_dce_removes_only(*conseq, without_expr_uses(m, *alt), k);
            }
        },
        ExprView::AExpr(a) => lemma_dce_aexpr_removes_only(a, m, k),
        ExprView::CExpr(c) => {
            lemma_dce_cexpr_removes_only(c, m, k);
            assert(dce_expr(e, m) == (ExprView::CExpr(dce_cexpr(c, m).0), dce_cexpr(c, m).1));
        },
    }
}

proof fn lemma_dce_aexpr_removes_only(a: AExprView, m: CensusView, k: Seq<char>)
    ensures
        aexpr_uses(dce_aexpr(a, m).0, k) <= aexpr_uses(a, k),
    decreases a,
{
    if let AExprView::Lambda(_, _, body, _) = a {
        law_dce_removes_only(*body, m, k);
    }
}

proof fn lemma_dce_cexpr_removes_only(c: CExprView, m: CensusView, k: Seq<char>)
    ensures
        cexpr_uses(dce_cexpr(c, m).0, k) <= cexpr_uses(c, k),
    decreases c,
{
    if let CExprView::If(_, conseq, alt, _) = c {
        law_dce_removes_only(*conseq, m, k);
        law_dce_removes_only(*alt, dce_expr(*conseq, m).1, k);
    }
}

proof fn lemma_dce_rhs_removes_only(r: RhsView, m: CensusView, k: Seq<char>)
    ensures
        rhs_uses(dce_rhs(r, m).0, k) <= rhs_uses(r, k),
    decreases r,
{
    match r {
        RhsView::AExpr(a) => lemma_dce_aexpr_removes_only(a, m, k),
        RhsView::CExpr(c) => lemma_dce_cexpr_removes_only(c, m, k),
    }
}

fn fold_expr(expr: Expr, census: &mut Census) -> (r: Expr)
    ensures
        (r@, final(census)@) == dce_expr(expr@, old(census)@),
    decreases expr,
{
    proof {
        reveal_with_fuel(crate::compile::anf::expr_view, 2);
    }
    match expr {
        Expr::Let(Let { initializer, body }, span) => {
            let (symbol, rhs) = *initializer;
            let atomic = matches!(rhs, Rhs::AExpr(..));
            if census.use_count(&symbol) == 0 && atomic {
                census.eliminate(&rhs);
                return fold_expr(*body, census);
            }
            let body = fold_expr(*body, census);
            if census.use_count(&symbol) == 0 && atomic {
                census.eliminate(&rhs);
                return body;
            }
            let rhs = fold_rhs(rhs, census);
            Expr::Let(Let { initializer: Box::new((symbol, rhs)), body: Box::new(body) }, span)
        },
        Expr::CExpr(CExpr::If(If { test, conseq, alt }, span)) => match *test {
            Value::Literal(SExpr::Bool(Bool(false), _)) => {
                census.eliminate_expr(&conseq);
                fold_expr(*alt, census)
            },
            Value::Literal(_) => {
                census.eliminate_expr(&alt);
                fold_expr(*conseq, census)
            },
            test => {
                let cexpr = CExpr::If(If { test: Box::new(test), conseq, alt }, span);
                assert(expr@ == ExprView::CExpr(cexpr_view(cexpr)));
                Expr::CExpr(fold_cexpr(cexpr, census))
            },
        },
        Expr::AExpr(aexpr) => Expr::AExpr(fold_aexpr(aexpr, census)),
        Expr::CExpr(cexpr) => Expr::CExpr(fold_cexpr(cexpr, census)),
    }
}

fn fold_rhs(rhs: Rhs, census: &mut Census) -> (r: Rhs)
    ensures
        (rhs_view(r), final(census)@) == dce_rhs(rhs_view(rhs), old(census)@),
    decreases rhs,
{
    match rhs {
        Rhs::AExpr(aexpr) => Rhs::AExpr(fold_aexpr(aexpr, census)),
        Rhs::CExpr(cexpr) => Rhs::CExpr(fold_cexpr(cexpr, census)),
    }
}

fn fold_aexpr(aexpr: AExpr, census: &mut Census) -> (r: AExpr)
    ensures
        (aexpr_view(r), final(census)@) == dce_aexpr(aexpr_view(aexpr), old(census)@),
    decreases aexpr,
{
    match aexpr {
        AExpr::Lambda(Lambda { args, var_arg, body }, span) => {
            let body = fold_expr(*body, census);
            AExpr::Lambda(Lambda { args, var_arg, body: Box::new(body) }, span)
        },
        other => other,
    }
}

fn fold_cexpr(cexpr: CExpr, census: &mut Census) -> (r: CExpr)
    ensures
        (cexpr_view(r), final(census)@) == dce_cexpr(cexpr_view(cexpr), old(census)@),
    decreases cexpr,
{
    match cexpr {
        CExpr::If(If { test, conseq, alt }, span) => {
            let conseq = fold_expr(*conseq, census);
            let alt = fold_expr(*alt, census);
            CExpr::If(If { test, conseq: Box::new(conseq), alt: Box::new(alt) }, span)
        },
        other => other,
    }
}

/// Dead code elimination (see `dce_expr`), starting from the census of `expr`.
pub fn dce(expr: Expr) -> (r: Expr)
    requires
        forall|k: Seq<char>| #[trigger] expr_uses(expr@, k) <= usize::MAX,
    ensures
        r@ == dce_expr(expr@, census_map(expr@)).0,
{
    let mut census = collect_census(&expr);
    fold_expr(expr, &mut census)
}

} // verus!
