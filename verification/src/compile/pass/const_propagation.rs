use vstd::prelude::*;

use crate::compile::anf::{
    aexpr_let_names, cexpr_let_names, let_names, rhs_let_names, aexpr_view, cexpr_view, rhs_view, values_view, AExpr, AExprView, Application, Assign, CExpr, CExprView, Expr,
    ExprView, If, Lambda, Let, Rhs, RhsView, Value, ValueView,
};
use crate::compile::census::{rebound, uses, Census};
use crate::compile::ident::{Duplicate, ResolvedVar, Symbol};
use crate::compile::pass::census_collection::{census_of, collect_census, expr_rebinds, expr_uses};
use crate::compile::sexpr::{SExpr, SExprView};
use crate::compile::symbol_map::SymbolMap;

verus! {

/// The literal that each known constant stands for.
pub type Consts = Map<Seq<char>, SExprView<Seq<char>>>;

/// A value with a reference to a known constant replaced by its literal.
pub open spec fn const_value(v: ValueView, cm: Consts) -> ValueView {
    match v {
        ValueView::Var((_, Some(b)), _) => if cm.dom().contains(b) {
            ValueView::Literal(cm[b])
        } else {
            v
        },
        _ => v,
    }
}

pub open spec fn const_values(vs: Seq<ValueView>, cm: Consts) -> Seq<ValueView> {
    vs.map_values(|v: ValueView| const_value(v, cm))
}

/// The literal that `(let ((name rhs)) ..)` makes `name` a constant for, in
/// the expression `root`: `name` is never assigned, and the literal is atomic
/// or `name` is used exactly once.
pub open spec fn const_of(name: Seq<char>, rhs: RhsView, root: ExprView) -> Option<SExprView<Seq<char>>> {
    match rhs {
        RhsView::AExpr(AExprView::Literal(e)) => if !expr_rebinds(root, name) && (e.atomic() || expr_uses(root, name)
            == 1) {
            Some(e)
        } else {
            None
        },
        _ => None,
    }
}

pub open spec fn consts_after_let(name: Seq<char>, rhs: RhsView, cm: Consts, root: ExprView) -> Consts {
    match const_of(name, rhs, root) {
        Some(e) => cm.insert(name, e),
        None => cm,
    }
}

/// The expression with every reference to a known constant replaced by its
/// literal, walking the tree in evaluation order and recording a constant at
/// each `let` that `const_of` accepts (the `let` itself stays); with the
/// constants known at the end.
pub open spec fn const_expr(e: ExprView, cm: Consts, root: ExprView) -> (ExprView, Consts)
    decreases e,
{
    match e {
        ExprView::AExpr(a) => {
            let (a2, cm2) = const_aexpr(a, cm, root);
            (ExprView::AExpr(a2), cm2)
        },
        ExprView::CExpr(c) => {
            let (c2, cm2) = const_cexpr(c, cm, root);
            (ExprView::CExpr(c2), cm2)
        },
        ExprView::Let(name, rhs, body, s) => {
            let (rhs2, cm1) = const_rhs(rhs, cm, root);
            let (body2, cm3) = const_expr(*body, consts_after_let(name, rhs2, cm1, root), root);
            (ExprView::Let(name, rhs2, Box::new(body2), s), cm3)
        },
    }
}

pub open spec fn const_aexpr(a: AExprView, cm: Consts, root: ExprView) -> (AExprView, Consts)
    decreases a,
{
    match a {
        AExprView::Var((_, Some(b)), _) => if cm.dom().contains(b) {
            (AExprView::Literal(cm[b]), cm)
        } else {
            (a, cm)
        },
        AExprView::Lambda(args, var_arg, body, s) => {
            let (body2, cm2) = const_expr(*body, cm, root);
            (AExprView::Lambda(args, var_arg, Box::new(body2), s), cm2)
        },
        _ => (a, cm),
    }
}

pub open spec fn const_cexpr(c: CExprView, cm: Consts, root: ExprView) -> (CExprView, Consts)
    decreases c,
{
    match c {
        CExprView::Application(op, args, s) => (
            CExprView::Application(const_value(op, cm), const_values(args, cm), s),
            cm,
        ),
        CExprView::If(t, conseq, alt, s) => {
            let (conseq2, cm1) = const_expr(*conseq, cm, root);
            let (alt2, cm2) = const_expr(*alt, cm1, root);
            (CExprView::If(const_value(t, cm), Box::new(conseq2), Box::new(alt2), s), cm2)
        },
        CExprView::Assign(var, v, s) => (CExprView::Assign(var, const_value(v, cm), s), cm),
    }
}

pub open spec fn const_rhs(r: RhsView, cm: Consts, root: ExprView) -> (RhsView, Consts)
    decreases r,
{
    match r {
        RhsView::AExpr(a) => {
            let (a2, cm2) = const_aexpr(a, cm, root);
            (RhsView::AExpr(a2), cm2)
        },
        RhsView::CExpr(c) => {
            let (c2, cm2) = const_cexpr(c, cm, root);
            (RhsView::CExpr(c2), cm2)
        },
    }
}

/// Every known constant is a binding that `root` never assigns, bound to an
/// atomic literal or used exactly once.
pub open spec fn sound_consts(cm: Consts, root: ExprView) -> bool {
    forall|k: Seq<char>| #[trigger] cm.dom().contains(k) ==> !expr_rebinds(root, k) && (cm[k].atomic() || expr_uses(
        root,
        k,
    ) == 1)
}

/// Propagation never copies a literal into a binding that is assigned, and
/// never duplicates a compound literal: every constant recorded on the way is
/// a binding that `root` never assigns, bound to an atomic literal or used
/// exactly once.
pub proof fn law_consts_sound(e: ExprView, cm: Consts, root: ExprView)
    requires
        sound_consts(cm, root),
    ensures
        sound_consts(const_expr(e, cm, root).1, root),
    decreases e,
{
    match e {
        ExprView::AExpr(a) => lemma_aexpr_consts_sound(a, cm, root),
        ExprView::CExpr(c) => lemma_cexpr_consts_sound(c, cm, root),
        ExprView::Let(name, rhs, body, s) => {
            lemma_rhs_consts_sound(rhs, cm, root);
            let (rhs2, cm1) = const_rhs(rhs, cm, root);
            law_consts_sound(*body, consts_after_let(name, rhs2, cm1, root), root);
        },
    }
}

proof fn lemma_aexpr_consts_sound(a: AExprView, cm: Consts, root: ExprView)
    requires
        sound_consts(cm, root),
    ensures
        sound_consts(const_aexpr(a, cm, root).1, root),
    decreases a,
{
    if let AExprView::Lambda(_, _, body, _) = a {
        law_consts_sound(*body, cm, root);
    }
}

proof fn lemma_cexpr_consts_sound(c: CExprView, cm: Consts, root: ExprView)
    requires
        sound_consts(cm, root),
    ensures
        sound_consts(const_cexpr(c, cm, root).1, root),
    decreases c,
{
    if let CExprView::If(_, conseq, alt, _) = c {
        law_consts_sound(*conseq, cm, root);
        law_consts_sound(*alt, const_expr(*conseq, cm, root).1, root);
    }
}

proof fn lemma_rhs_consts_sound(r: RhsView, cm: Consts, root: ExprView)
    requires
        sound_consts(cm, root),
    ensures
        sound_consts(const_rhs(r, cm, root).1, root),
    decreases r,
{
    match r {
        RhsView::AExpr(a) => lemma_aexpr_consts_sound(a, cm, root),
        RhsView::CExpr(c) => lemma_cexpr_consts_sound(c, cm, root),
    }
}

/// Propagation only replaces references: every `let` stays, binding the same
/// name, in the same order.
pub proof fn law_consts_lets_kept(e: ExprView, cm: Consts, root: ExprView)
    ensures
        let_names(const_expr(e, cm, root).0) == let_names(e),
    decreases e,
{
    match e {
        ExprView::AExpr(a) => lemma_aexpr_consts_lets_kept(a, cm, root),
        ExprView::CExpr(c) => lemma_cexpr_consts_lets_kept(c, cm, root),
        ExprView::Let(name, rhs, body, s) => {
            lemma_rhs_consts_lets_kept(rhs, cm, root);
            let (rhs2, cm1) = const_rhs(rhs, cm, root);
            law_consts_lets_kept(*body, consts_after_let(name, rhs2, cm1, root), root);
        },
    }
}

proof fn lemma_aexpr_consts_lets_kept(a: AExprView, cm: Consts, root: ExprView)
    ensures
        aexpr_let_names(const_aexpr(a, cm, root).0) == aexpr_let_names(a),
    decreases a,
{
    if let AExprView::Lambda(_, _, body, _) = a {
        law_consts_lets_kept(*body, cm, root);
    }
}

proof fn lemma_cexpr_consts_lets_kept(c: CExprView, cm: Consts, root: ExprView)
    ensures
        cexpr_let_names(const_cexpr(c, cm, root).0) == cexpr_let_names(c),
    decreases c,
{
    if let CExprView::If(_, conseq, alt, _) = c {
        law_consts_lets_kept(*conseq, cm, root);
        law_consts_lets_kept(*alt, const_expr(*conseq, cm, root).1, root);
    }
}

proof fn lemma_rhs_consts_lets_kept(r: RhsView, cm: Consts, root: ExprView)
    ensures
        rhs_let_names(const_rhs(r, cm, root).0) == rhs_let_names(r),
    decreases r,
{
    match r {
        RhsView::AExpr(a) => lemma_aexpr_consts_lets_kept(a, cm, root),
        RhsView::CExpr(c) => lemma_cexpr_consts_lets_kept(c, cm, root),
    }
}

fn fold_value(value: Value, consts: &SymbolMap<SExpr<Symbol>>) -> (r: Value)
    ensures
        r@ == const_value(value@, consts@),
{
    match value {
        Value::Var(ResolvedVar::Bound { symbol, binding }, span) => match consts.get(&binding) {
            Some(sexpr) => Value::Literal(sexpr.duplicate()),
            None => Value::Var(ResolvedVar::Bound { symbol, binding }, span),
        },
        other => other,
    }
}

fn fold_values(values: Vec<Value>, consts: &SymbolMap<SExpr<Symbol>>) -> (r: Vec<Value>)
    ensures
        values_view(r@) == const_values(values_view(values@), consts@),
{
    let ghost orig = values@;
    let mut rest = values;
    let mut out: Vec<Value> = Vec::new();
    while rest.len() > 0
        invariant
            out@.len() + rest@.len() == orig.len(),
            rest@ == orig.skip(out@.len() as int),
            forall|i: int| 0 <= i < out@.len() ==> (#[trigger] out@[i])@ == const_value(orig[i]@, consts@),
        decreases rest@.len(),
    {
        let ghost k = out@.len() as int;
        let v = rest.remove(0);
        assert(v == orig[k]);
        assert(rest@ =~= orig.skip(k + 1));
        out.push(fold_value(v, consts));
    }
    assert(values_view(out@) =~= const_values(values_view(orig), consts@));
    out
}

fn const_of_let(name: &Symbol, rhs: &Rhs, census: &Census, Ghost(root): Ghost<ExprView>) -> (r: Option<SExpr<Symbol>>)
    requires
        census_of(*census, root),
    ensures
        match r {
            Some(e) => const_of(name@, rhs_view(*rhs), root) == Some(e@),
            None => const_of(name@, rhs_view(*rhs), root) is None,
        },
{
    match rhs {
        Rhs::AExpr(AExpr::Literal(sexpr)) => {
            if !census.is_rebound(name) && (sexpr.is_atomic() || census.use_count(name) == 1) {
                Some(sexpr.duplicate())
            } else {
                None
            }
        },
        _ => None,
    }
}

fn fold_expr(expr: Expr, consts: &mut SymbolMap<SExpr<Symbol>>, census: &Census, Ghost(root): Ghost<ExprView>) -> (r:
    Expr)
    requires
        census_of(*census, root),
    ensures
        (r@, final(consts)@) == const_expr(expr@, old(consts)@, root),
    decreases expr,
{
    match expr {
        Expr::AExpr(aexpr) => Expr::AExpr(fold_aexpr(aexpr, consts, census, Ghost(root))),
        Expr::CExpr(cexpr) => Expr::CExpr(fold_cexpr(cexpr, consts, census, Ghost(root))),
        Expr::Let(Let { initializer, body }, span) => {
            let (symbol, rhs) = *initializer;
            let rhs = fold_rhs(rhs, consts, census, Ghost(root));
            if let Some(sexpr) = const_of_let(&symbol, &rhs, census, Ghost(root)) {
                consts.insert(symbol.duplicate(), sexpr);
            }
            let body = fold_expr(*body, consts, census, Ghost(root));
            Expr::Let(Let { initializer: Box::new((symbol, rhs)), body: Box::new(body) }, span)
        },
    }
}

fn fold_rhs(rhs: Rhs, consts: &mut SymbolMap<SExpr<Symbol>>, census: &Census, Ghost(root): Ghost<ExprView>) -> (r: Rhs)
    requires
        census_of(*census, root),
    ensures
        (rhs_view(r), final(consts)@) == const_rhs(rhs_view(rhs), old(consts)@, root),
    decreases rhs,
{
    match rhs {
        Rhs::AExpr(aexpr) => Rhs::AExpr(fold_aexpr(aexpr, consts, census, Ghost(root))),
        Rhs::CExpr(cexpr) => Rhs::CExpr(fold_cexpr(cexpr, consts, census, Ghost(root))),
    }
}

fn fold_aexpr(aexpr: AExpr, consts: &mut SymbolMap<SExpr<Symbol>>, census: &Census, Ghost(root): Ghost<ExprView>) -> (r:
    AExpr)
    requires
        census_of(*census, root),
    ensures
        (aexpr_view(r), final(consts)@) == const_aexpr(aexpr_view(aexpr), old(consts)@, root),
    decreases aexpr,
{
    match aexpr {
        AExpr::Var(ResolvedVar::Bound { symbol, binding }, span) => match consts.get(&binding) {
            Some(sexpr) => AExpr::Literal(sexpr.duplicate()),
            None => AExpr::Var(ResolvedVar::Bound { symbol, binding }, span),
        },
        AExpr::Lambda(Lambda { args, var_arg, body }, span) => {
            let body = fold_expr(*body, consts, census, Ghost(root));
            AExpr::Lambda(Lambda { args, var_arg, body: Box::new(body) }, span)
        },
        other => other,
    }
}

fn fold_cexpr(cexpr: CExpr, consts: &mut SymbolMap<SExpr<Symbol>>, census: &Census, Ghost(root): Ghost<ExprView>) -> (r:
    CExpr)
    requires
        census_of(*census, root),
    ensures
        (cexpr_view(r), final(consts)@) == const_cexpr(cexpr_view(cexpr), old(consts)@, root),
    decreases cexpr,
{
    match cexpr {
        CExpr::Application(Application { operand, args }, span) => {
            let operand = fold_value(*operand, consts);
            let args = fold_values(args, consts);
            CExpr::Application(Application { operand: Box::new(operand), args }, span)
        },
        CExpr::If(If { test, conseq, alt }, span) => {
            let test = fold_value(*test, consts);
            let conseq = fold_expr(*conseq, consts, census, Ghost(root));
            let alt = fold_expr(*alt, consts, census, Ghost(root));
            CExpr::If(If { test: Box::new(test), conseq: Box::new(conseq), alt: Box::new(alt) }, span)
        },
        CExpr::Assign(Assign { var, aexpr }, span) => {
            let aexpr = fold_value(aexpr, consts);
            CExpr::Assign(Assign { var, aexpr }, span)
        },
    }
}

/// Constant propagation: wherever `(let ((x lit)) ..)` binds `x` to a literal,
/// `x` is never assigned, and the literal is atomic or `x` is used only once,
/// later references to `x` are replaced by the literal; the `let` itself stays.
pub fn propagate_consts(expr: Expr) -> (r: Expr)
    requires
        forall|k: Seq<char>| #[trigger] expr_uses(expr@, k) <= usize::MAX,
    ensures
        r@ == const_expr(expr@, Map::empty(), expr@).0,
{
    let ghost root = expr@;
    let census = collect_census(&expr);
    let mut consts: SymbolMap<SExpr<Symbol>> = SymbolMap::new();
    fold_expr(expr, &mut consts, &census, Ghost(root))
}

} // verus!
