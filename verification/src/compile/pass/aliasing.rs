use vstd::prelude::*;

use crate::compile::anf::{
    aexpr_let_names, cexpr_let_names, let_names, rhs_let_names, aexpr_view, cexpr_view, expr_view, rhs_view, value_view, values_view, AExpr, AExprView, Application, Assign,
    CExpr, CExprView, Expr, ExprView, If, Lambda, Let, Rhs, RhsView, Value, ValueView, VarView,
};
use crate::compile::census::{rebound, Census};
use crate::compile::ident::{Duplicate, ResolvedVar, Symbol};
use crate::compile::pass::census_collection::{census_of, expr_rebinds};
use crate::compile::pass::eta_reduction::{eta_target, try_eta};
use crate::compile::symbol_map::SymbolMap;

verus! {

/// Which `let`s make their name an alias of another binding.
#[derive(Clone, Copy, Debug, PartialEq, Eq)]
pub enum AliasRule {
    /// `(let ((x y)) ..)`: `x` stands for `y`.
    Copies,
    /// `(let ((x (λ (a ..) (f a ..)))) ..)`: `x` stands for `f`.
    EtaReductions,
}

/// Which binding each alias stands for.
pub type Aliases = Map<Seq<char>, Seq<char>>;

/// A variable reference with its binding replaced by what it is an alias of.
pub open spec fn aliased_var(v: VarView, al: Aliases) -> VarView {
    match v.1 {
        Some(b) => (v.0, Some(if al.dom().contains(b) { al[b] } else { b })),
        None => v,
    }
}

pub open spec fn aliased_value(v: ValueView, al: Aliases) -> ValueView {
    match v {
        ValueView::Literal(e) => ValueView::Literal(e),
        ValueView::Var(r, s) => ValueView::Var(aliased_var(r, al), s),
    }
}

pub open spec fn aliased_values(vs: Seq<ValueView>, al: Aliases) -> Seq<ValueView> {
    vs.map_values(|v: ValueView| aliased_value(v, al))
}

/// The binding that `(let ((name rhs)) ..)` makes `name` an alias of, under
/// `rule`, in the expression `root`: neither may be assigned anywhere in `root`.
pub open spec fn alias_target(rule: AliasRule, name: Seq<char>, rhs: RhsView, root: ExprView) -> Option<Seq<char>> {
    if expr_rebinds(root, name) {
        None
    } else {
        let target = match rule {
            AliasRule::Copies => match rhs {
                RhsView::AExpr(AExprView::Var((_, Some(b)), _)) => Some(b),
                _ => None,
            },
            AliasRule::EtaReductions => match rhs {
                RhsView::AExpr(AExprView::Lambda(args, var_arg, body, _)) => eta_target(args, var_arg, *body),
                _ => None,
            },
        };
        match target {
            Some(t) => if expr_rebinds(root, t) {
                None
            } else {
                Some(t)
            },
            None => None,
        }
    }
}

/// The aliases after a `let` of `name` to `rhs` has been seen.
pub open spec fn after_let(rule: AliasRule, name: Seq<char>, rhs: RhsView, al: Aliases, root: ExprView) -> Aliases {
    match alias_target(rule, name, rhs, root) {
        Some(t) => al.insert(name, t),
        None => al,
    }
}

/// The expression with every bound variable reference replaced by what it is
/// an alias of, walking the tree in evaluation order and recording an alias at
/// each `let` that `rule` accepts (the `let` itself stays); with the aliases
/// known at the end.
pub open spec fn aliased_expr(rule: AliasRule, e: ExprView, al: Aliases, root: ExprView) -> (ExprView, Aliases)
    decreases e,
{
    match e {
        ExprView::AExpr(a) => {
            let (a2, al2) = aliased_aexpr(rule, a, al, root);
            (ExprView::AExpr(a2), al2)
        },
        ExprView::CExpr(c) => {
            let (c2, al2) = aliased_cexpr(rule, c, al, root);
            (ExprView::CExpr(c2), al2)
        },
        ExprView::Let(name, rhs, body, s) => {
            let (rhs2, al1) = aliased_rhs(rule, rhs, al, root);
            let (body2, al3) = aliased_expr(rule, *body, after_let(rule, name, rhs2, al1, root), root);
            (ExprView::Let(name, rhs2, Box::new(body2), s), al3)
        },
    }
}

pub open spec fn aliased_aexpr(rule: AliasRule, a: AExprView, al: Aliases, root: ExprView) -> (AExprView, Aliases)
    decreases a,
{
    match a {
        AExprView::Literal(e) => (AExprView::Literal(e), al),
        AExprView::Var(r, s) => (AExprView::Var(aliased_var(r, al), s), al),
        AExprView::Lambda(args, var_arg, body, s) => {
            let (body2, al2) = aliased_expr(rule, *body, al, root);
            (AExprView::Lambda(args, var_arg, Box::new(body2), s), al2)
        },
    }
}

pub open spec fn aliased_cexpr(rule: AliasRule, c: CExprView, al: Aliases, root: ExprView) -> (CExprView, Aliases)
    decreases c,
{
    match c {
        CExprView::Application(op, args, s) => (
            CExprView::Application(aliased_value(op, al), aliased_values(args, al), s),
            al,
        ),
        CExprView::If(t, conseq, alt, s) => {
            let (conseq2, al1) = aliased_expr(rule, *conseq, al, root);
            let (alt2, al2) = aliased_expr(rule, *alt, al1, root);
            (CExprView::If(aliased_value(t, al), Box::new(conseq2), Box::new(alt2), s), al2)
        },
        CExprView::Assign(var, v, s) => (CExprView::Assign(aliased_var(var, al), aliased_value(v, al), s), al),
    }
}

pub open spec fn aliased_rhs(rule: AliasRule, r: RhsView, al: Aliases, root: ExprView) -> (RhsView, Aliases)
    decreases r,
{
    match r {
        RhsView::AExpr(a) => {
            let (a2, al2) = aliased_aexpr(rule, a, al, root);
            (RhsView::AExpr(a2), al2)
        },
        RhsView::CExpr(c) => {
            let (c2, al2) = aliased_cexpr(rule, c, al, root);
            (RhsView::CExpr(c2), al2)
        },
    }
}

/// Every alias and what it stands for are bindings that `root` never assigns.
pub open spec fn sound_aliases(al: Aliases, root: ExprView) -> bool {
    forall|k: Seq<char>| #[trigger] al.dom().contains(k) ==> !expr_rebinds(root, k) && !expr_rebinds(root, al[k])
}

/// Rewriting never makes an assigned binding an alias, nor redirects a
/// reference to one: every alias recorded on the way, under either rule,
/// relates two bindings that `root` never assigns.
pub proof fn law_aliases_never_assigned(rule: AliasRule, e: ExprView, al: Aliases, root: ExprView)
    requires
        sound_aliases(al, root),
    ensures
        sound_aliases(aliased_expr(rule, e, al, root).1, root),
    decreases e,
{
    match e {
        ExprView::AExpr(a) => lemma_aexpr_aliases_never_assigned(rule, a, al, root),
        ExprView::CExpr(c) => lemma_cexpr_aliases_never_assigned(rule, c, al, root),
        ExprView::Let(name, rhs, body, s) => {
            lemma_rhs_aliases_never_assigned(rule, rhs, al, root);
            let (rhs2, al1) = aliased_rhs(rule, rhs, al, root);
            law_aliases_never_assigned(rule, *body, after_let(rule, name, rhs2, al1, root), root);
        },
    }
}

proof fn lemma_aexpr_aliases_never_assigned(rule: AliasRule, a: AExprView, al: Aliases, root: ExprView)
    requires
        sound_aliases(al, root),
    ensures
        sound_aliases(aliased_aexpr(rule, a, al, root).1, root),
    decreases a,
{
    if let AExprView::Lambda(_, _, body, _) = a {
        law_aliases_never_assigned(rule, *body, al, root);
    }
}

proof fn lemma_cexpr_aliases_never_assigned(rule: AliasRule, c: CExprView, al: Aliases, root: ExprView)
    requires
        sound_aliases(al, root),
    ensures
        sound_aliases(aliased_cexpr(rule, c, al, root).1, root),
    decreases c,
{
    if let CExprView::If(_, conseq, alt, _) = c {
        law_aliases_never_assigned(rule, *conseq, al, root);
        law_aliases_never_assigned(rule, *alt, aliased_expr(rule, *conseq, al, root).1, root);
    }
}

proof fn lemma_rhs_aliases_never_assigned(rule: AliasRule, r: RhsView, al: Aliases, root: ExprView)
    requires
        sound_aliases(al, root),
    ensures
        sound_aliases(aliased_rhs(rule, r, al, root).1, root),
    decreases r,
{
    match r {
        RhsView::AExpr(a) => lemma_aexpr_aliases_never_assigned(rule, a, al, root),
        RhsView::CExpr(c) => lemma_cexpr_aliases_never_assigned(rule, c, al, root),
    }
}

/// Rewriting only redirects references: every `let` stays, binding the same
/// name, in the same order.
pub proof fn law_lets_kept(rule: AliasRule, e: ExprView, al: Aliases, root: ExprView)
    ensures
        let_names(aliased_expr(rule, e, al, root).0) == let_names(e),
    decreases e,
{
    match e {
        ExprView::AExpr(a) => lemma_aexpr_lets_kept(rule, a, al, root),
        ExprView::CExpr(c) => lemma_cexpr_lets_kept(rule, c, al, root),
        ExprView::Let(name, rhs, body, s) => {
            lemma_rhs_lets_kept(rule, rhs, al, root);
            let (rhs2, al1) = aliased_rhs(rule, rhs, al, root);
            law_lets_kept(rule, *body, after_let(rule, name, rhs2, al1, root), root);
        },
    }
}

proof fn lemma_aexpr_lets_kept(rule: AliasRule, a: AExprView, al: Aliases, root: ExprView)
    ensures
        aexpr_let_names(aliased_aexpr(rule, a, al, root).0) == aexpr_let_names(a),
    decreases a,
{
    if let AExprView::Lambda(_, _, body, _) = a {
        law_lets_kept(rule, *body, al, root);
    }
}

proof fn lemma_cexpr_lets_kept(rule: AliasRule, c: CExprView, al: Aliases, root: ExprView)
    ensures
        cexpr_let_names(aliased_cexpr(rule, c, al, root).0) == cexpr_let_names(c),
    decreases c,
{
    if let CExprView::If(_, conseq, alt, _) = c {
        law_lets_kept(rule, *conseq, al, root);
        law_lets_kept(rule, *alt, aliased_expr(rule, *conseq, al, root).1, root);
    }
}

proof fn lemma_rhs_lets_kept(rule: AliasRule, r: RhsView, al: Aliases, root: ExprView)
    ensures
        rhs_let_names(aliased_rhs(rule, r, al, root).0) == rhs_let_names(r),
    decreases r,
{
    match r {
        RhsView::AExpr(a) => lemma_aexpr_lets_kept(rule, a, al, root),
        RhsView::CExpr(c) => lemma_cexpr_lets_kept(rule, c, al, root),
    }
}

/// A reference to a binding that `root` assigns is left as it is by sound
/// aliases.
pub proof fn law_assigned_reference_kept(v: VarView, al: Aliases, root: ExprView)
    requires
        sound_aliases(al, root),
        v.1 matches Some(b) && expr_rebinds(root, b),
    ensures
        aliased_var(v, al) == v,
{
}

fn alias_var(var: ResolvedVar, aliases: &SymbolMap<Symbol>) -> (r: ResolvedVar)
    ensures
        r@ == aliased_var(var@, aliases@),
{
    match var {
        ResolvedVar::Bound { symbol, binding } => {
            let binding = match aliases.get(&binding) {
                Some(target) => target.duplicate(),
                None => binding,
            };
            ResolvedVar::Bound { symbol, binding }
        },
        free => free,
    }
}

fn alias_value(value: Value, aliases: &SymbolMap<Symbol>) -> (r: Value)
    ensures
        r@ == aliased_value(value@, aliases@),
{
    match value {
        Value::Var(var, span) => Value::Var(alias_var(var, aliases), span),
        literal => literal,
    }
}

fn alias_values(values: Vec<Value>, aliases: &SymbolMap<Symbol>) -> (r: Vec<Value>)
    ensures
        values_view(r@) == aliased_values(values_view(values@), aliases@),
{
    let ghost orig = values@;
    let mut rest = values;
    let mut out: Vec<Value> = Vec::new();
    while rest.len() > 0
        invariant
            out@.len() + rest@.len() == orig.len(),
            rest@ == orig.skip(out@.len() as int),
            forall|i: int| 0 <= i < out@.len() ==> (#[trigger] out@[i])@ == aliased_value(orig[i]@, aliases@),
        decreases rest@.len(),
    {
        let ghost k = out@.len() as int;
        let v = rest.remove(0);
        assert(v == orig[k]);
        assert(rest@ =~= orig.skip(k + 1));
        out.push(alias_value(v, aliases));
    }
    assert(values_view(out@) =~= aliased_values(values_view(orig), aliases@));
    out
}

fn alias_target_of(rule: AliasRule, name: &Symbol, rhs: &Rhs, census: &Census, Ghost(root): Ghost<ExprView>) -> (r:
    Option<Symbol>)
    requires
        census_of(*census, root),
    ensures
        match r {
            Some(t) => alias_target(rule, name@, rhs_view(*rhs), root) == Some(t@),
            None => alias_target(rule, name@, rhs_view(*rhs), root) is None,
        },
{
    if census.is_rebound(name) {
        return None;
    }
    let target = match rule {
        AliasRule::Copies => match rhs {
            Rhs::AExpr(AExpr::Var(ResolvedVar::Bound { binding, .. }, _)) => Some(binding.duplicate()),
            _ => None,
        },
        AliasRule::EtaReductions => match rhs {
            Rhs::AExpr(AExpr::Lambda(lambda, _)) => try_eta(lambda),
            _ => None,
        },
    };
    match target {
        Some(t) => if census.is_rebound(&t) {
            None
        } else {
            Some(t)
        },
        None => None,
    }
}

fn alias_expr(rule: AliasRule, expr: Expr, aliases: &mut SymbolMap<Symbol>, census: &Census, Ghost(root): Ghost<
    ExprView,
>) -> (r: Expr)
    requires
        census_of(*census, root),
    ensures
        (r@, final(aliases)@) == aliased_expr(rule, expr@, old(aliases)@, root),
    decreases expr,
{
    match expr {
        Expr::AExpr(aexpr) => Expr::AExpr(alias_aexpr(rule, aexpr, aliases, census, Ghost(root))),
        Expr::CExpr(cexpr) => Expr::CExpr(alias_cexpr(rule, cexpr, aliases, census, Ghost(root))),
        Expr::Let(Let { initializer, body }, span) => {
            let (symbol, rhs) = *initializer;
            let rhs = alias_rhs(rule, rhs, aliases, census, Ghost(root));
            if let Some(target) = alias_target_of(rule, &symbol, &rhs, census, Ghost(root)) {
                aliases.insert(symbol.duplicate(), target);
            }
            let body = alias_expr(rule, *body, aliases, census, Ghost(root));
            Expr::Let(Let { initializer: Box::new((symbol, rhs)), body: Box::new(body) }, span)
        },
    }
}

fn alias_rhs(rule: AliasRule, rhs: Rhs, aliases: &mut SymbolMap<Symbol>, census: &Census, Ghost(root): Ghost<
    ExprView,
>) -> (r: Rhs)
    requires
        census_of(*census, root),
    ensures
        (rhs_view(r), final(aliases)@) == aliased_rhs(rule, rhs_view(rhs), old(aliases)@, root),
    decreases rhs,
{
    match rhs {
        Rhs::AExpr(aexpr) => Rhs::AExpr(alias_aexpr(rule, aexpr, aliases, census, Ghost(root))),
        Rhs::CExpr(cexpr) => Rhs::CExpr(alias_cexpr(rule, cexpr, aliases, census, Ghost(root))),
    }
}

fn alias_aexpr(rule: AliasRule, aexpr: AExpr, aliases: &mut SymbolMap<Symbol>, census: &Census, Ghost(root): Ghost<
    ExprView,
>) -> (r: AExpr)
    requires
        census_of(*census, root),
    ensures
        (aexpr_view(r), final(aliases)@) == aliased_aexpr(rule, aexpr_view(aexpr), old(aliases)@, root),
    decreases aexpr,
{
    match aexpr {
        AExpr::Var(var, span) => AExpr::Var(alias_var(var, aliases), span),
        AExpr::Lambda(Lambda { args, var_arg, body }, span) => {
            let body = alias_expr(rule, *body, aliases, census, Ghost(root));
            AExpr::Lambda(Lambda { args, var_arg, body: Box::new(body) }, span)
        },
        literal => literal,
    }
}

fn alias_cexpr(rule: AliasRule, cexpr: CExpr, aliases: &mut SymbolMap<Symbol>, census: &Census, Ghost(root): Ghost<
    ExprView,
>) -> (r: CExpr)
    requires
        census_of(*census, root),
    ensures
        (cexpr_view(r), final(aliases)@) == aliased_cexpr(rule, cexpr_view(cexpr), old(aliases)@, root),
    decreases cexpr,
{
    match cexpr {
        CExpr::Application(Application { operand, args }, span) => {
            let operand = alias_value(*operand, aliases);
            let args = alias_values(args, aliases);
            CExpr::Application(Application { operand: Box::new(operand), args }, span)
        },
        CExpr::If(If { test, conseq, alt }, span) => {
            let test = alias_value(*test, aliases);
            let conseq = alias_expr(rule, *conseq, aliases, census, Ghost(root));
            let alt = alias_expr(rule, *alt, aliases, census, Ghost(root));
            CExpr::If(If { test: Box::new(test), conseq: Box::new(conseq), alt: Box::new(alt) }, span)
        },
        CExpr::Assign(Assign { var, aexpr }, span) => {
            let var = alias_var(var, aliases);
            let aexpr = alias_value(aexpr, aliases);
            CExpr::Assign(Assign { var, aexpr }, span)
        },
    }
}

/// Rewrites `expr` under `rule`, starting with no aliases; `census` must
/// record what `expr` assigns.
pub(crate) fn propagate_aliases(rule: AliasRule, expr: Expr, census: &Census) -> (r: Expr)
    requires
        census_of(*census, expr@),
    ensures
        r@ == aliased_expr(rule, expr@, Map::empty(), expr@).0,
{
    let ghost root = expr@;
    let mut aliases: SymbolMap<Symbol> = SymbolMap::new();
    alias_expr(rule, expr, &mut aliases, census, Ghost(root))
}

} // verus!
