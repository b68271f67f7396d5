use vstd::prelude::*;

use super::bindings::{Bindings, Id};
use super::ident::{ResolvedSymbol, ResolvedView, Symbol};
use super::pass::expand::transformer::Form;
use super::sexpr::{lemma_vars_mapped_view, lemma_view_span, map_vars_view, sexpr_view, Cons, IdView, SExpr, SExprView};

verus! {

/// What an identifier resolves to: bound, to the symbol of the binding it
/// resolves to, or free.
pub open spec fn resolve_id(b: Bindings, id: IdView) -> ResolvedView {
    match b.resolution(id) {
        Some(k) => ResolvedView::Bound(id.0, k.0),
        None => ResolvedView::Free(id.0),
    }
}

/// Every identifier of `e` resolved.
pub open spec fn resolved(e: Form, b: Bindings) -> SExprView<ResolvedView> {
    map_vars_view(e, |id: IdView| resolve_id(b, id))
}

/// Whether `e` is an identifier that resolves to `quote`.
pub open spec fn is_quote(e: Form, b: Bindings) -> bool {
    e matches SExprView::Var(id, _) && b.resolution(id) matches Some(k) && k.0 == "quote"@
}

/// A form `(quote datum)` reduced: `quote`, bound to itself and spanning the
/// whole form, then the datum with every identifier a literal.
pub open spec fn quote_reduced(e: Form) -> SExprView<ResolvedView> {
    match e {
        SExprView::Cons(_, d, s) => match *d {
            SExprView::Cons(x, _, _) => SExprView::pair(
                SExprView::Var(ResolvedView::Bound("quote"@, "quote"@), s),
                SExprView::pair(
                    map_vars_view(*x, |id: IdView| ResolvedView::Literal(id.0)),
                    SExprView::Nil((*x).span()),
                ),
            ),
            _ => SExprView::Nil(s),
        },
        _ => SExprView::Nil(e.span()),
    }
}

/// An expanded form with its identifiers resolved. A list headed by an
/// identifier that resolves to `quote` is a quote form; a list headed by
/// another identifier has that identifier resolved and the rest of the list
/// reduced; any other pair has both halves reduced (pairs span both halves);
/// anything else has its identifiers resolved, inside vectors too.
pub open spec fn reduced(e: Form, b: Bindings) -> SExprView<ResolvedView>
    decreases e,
{
    match e {
        SExprView::Cons(a, d, _) => if *a is Var {
            if is_quote(*a, b) {
                quote_reduced(e)
            } else {
                SExprView::pair(resolved(*a, b), reduced(*d, b))
            }
        } else {
            SExprView::pair(reduced(*a, b), reduced(*d, b))
        },
        _ => resolved(e, b),
    }
}

/// Whether `e` can be reduced: every quote form in it is `(quote datum)`.
pub open spec fn reducible(e: Form, b: Bindings) -> bool
    decreases e,
{
    match e {
        SExprView::Cons(a, d, _) => if *a is Var {
            if is_quote(*a, b) {
                *d matches SExprView::Cons(_, end, _) && *end is Nil
            } else {
                reducible(*d, b)
            }
        } else {
            reducible(*a, b) && reducible(*d, b)
        },
        _ => true,
    }
}

/// Resolves every identifier of `e`; see `resolved`.
fn resolve_vars(e: SExpr<Id>, bindings: &Bindings) -> (r: SExpr<ResolvedSymbol>)
    ensures
        r@ == resolved(e@, *bindings),
{
    let resolve = |id: Id| -> (r: ResolvedSymbol)
        ensures
            r@ == resolve_id(*bindings, id@),
        {
            match bindings.resolve_sym(&id) {
                Some(binding) => ResolvedSymbol::Bound { symbol: id.symbol, binding },
                None => ResolvedSymbol::Free { symbol: id.symbol },
            }
        };
    let ghost orig = e;
    let r = e.map_var(&resolve);
    proof {
        lemma_vars_mapped_view(orig, r, resolve, |id: IdView| resolve_id(*bindings, id));
    }
    r
}

/// Reduces a form `(quote datum)`; see `quote_reduced`.
fn alpha_reduce_quote(sexpr: SExpr<Id>) -> (r: SExpr<ResolvedSymbol>)
    requires
        sexpr@ matches SExprView::Cons(_, d, _) && *d matches SExprView::Cons(_, end, _) && *end is Nil,
    ensures
        r@ == quote_reduced(sexpr@),
{
    proof {
        reveal_with_fuel(sexpr_view, 3);
        lemma_view_span(sexpr);
    }
    let span = sexpr.get_span();
    match sexpr {
        SExpr::Cons(c, _) => match *c.cdr {
            SExpr::Cons(c2, _) => {
                let x = *c2.car;
                let literal = |id: Id| -> (r: ResolvedSymbol)
                    ensures
                        r@ == ResolvedView::Literal(id@.0),
                    { ResolvedSymbol::Literal { symbol: id.symbol } };
                let ghost orig = x;
                let datum = x.map_var(&literal);
                proof {
                    lemma_vars_mapped_view(orig, datum, literal, |id: IdView| ResolvedView::Literal(id.0));
                    lemma_view_span(orig);
                    lemma_view_span(datum);
                }
                let datum_span = datum.get_span();
                let quote = SExpr::Var(
                    ResolvedSymbol::Bound { symbol: Symbol::new("quote"), binding: Symbol::new("quote") },
                    span,
                );
                let tail = SExpr::cons(datum, SExpr::Nil(datum_span));
                proof {
                    lemma_view_span(tail);
                }
                SExpr::cons(quote, tail)
            },
            _ => vstd::pervasive::unreached(),
        },
        _ => vstd::pervasive::unreached(),
    }
}

/// Resolves the identifiers of an expanded form; see `reduced`.
pub fn alpha_reduce(sexpr: SExpr<Id>, bindings: &Bindings) -> (r: SExpr<ResolvedSymbol>)
    requires
        reducible(sexpr@, *bindings),
    ensures
        r@ == reduced(sexpr@, *bindings),
    decreases sexpr,
{
    proof {
        reveal_with_fuel(sexpr_view, 3);
    }
    match sexpr {
        SExpr::Cons(c, span) => {
            let quoted = match &*c.car {
                SExpr::Var(id, _) => match bindings.resolve_sym(id) {
                    Some(s) => s.same(&Symbol::new("quote")),
                    None => false,
                },
                _ => false,
            };
            if quoted {
                return alpha_reduce_quote(SExpr::Cons(c, span));
            }
            let head_is_var = match &*c.car {
                SExpr::Var(..) => true,
                _ => false,
            };
            let Cons { car, cdr } = c;
            let head = if head_is_var {
                resolve_vars(*car, bindings)
            } else {
                alpha_reduce(*car, bindings)
            };
            let rest = alpha_reduce(*cdr, bindings);
            proof {
                lemma_view_span(head);
                lemma_view_span(rest);
            }
            SExpr::cons(head, rest)
        },
        other => resolve_vars(other, bindings),
    }
}

} // verus!
