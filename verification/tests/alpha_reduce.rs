use rrrrr_rs::compile::{
    alpha_reduce::alpha_reduce,
    bindings::{Bindings, Id},
    expand::introduce,
    ident::{ResolvedSymbol, Symbol},
    read::{lex::tokenize, parse::parse},
    sexpr::SExpr,
    span::Span,
};

fn form(src: &str) -> SExpr<Id> {
    introduce(parse(&tokenize(src).unwrap()).unwrap().pop().unwrap())
}

/// The tree written out, each identifier with its resolution.
fn show(e: &SExpr<ResolvedSymbol>) -> String {
    match e {
        SExpr::Var(ResolvedSymbol::Bound { symbol, binding }, _) => format!("{}={}", symbol.0, binding.0),
        SExpr::Var(ResolvedSymbol::Free { symbol }, _) => format!("{}?", symbol.0),
        SExpr::Var(ResolvedSymbol::Literal { symbol }, _) => format!("'{}", symbol.0),
        SExpr::Cons(c, _) => format!("({} . {})", show(&c.car), show(&c.cdr)),
        SExpr::Nil(_) => "()".to_string(),
        SExpr::Num(n, _) => n.0.clone(),
        SExpr::Vector(v, _) => format!("#[{}]", v.0.iter().map(show).collect::<Vec<_>>().join(" ")),
        _ => "?".to_string(),
    }
}

#[test]
fn alpha_reduce_free_application() {
    let b = Bindings::new();
    assert_eq!(show(&alpha_reduce(form("(f x 1)"), &b)), "(f? . (x? . (1 . ())))");
}

#[test]
fn alpha_reduce_bound_identifiers() {
    let mut b = Bindings::new();
    b.add_binding(&Id::new("x", [Bindings::CORE_SCOPE]), &Symbol::new("x:1"));
    assert_eq!(
        show(&alpha_reduce(form("(lambda (x) x)"), &b)),
        "(lambda=lambda . ((x=x:1 . ()) . (x=x:1 . ())))"
    );
}

#[test]
fn alpha_reduce_quote_makes_literals() {
    let mut b = Bindings::new();
    b.add_binding(&Id::new("x", [Bindings::CORE_SCOPE]), &Symbol::new("x:1"));
    let r = alpha_reduce(form("'(x y)"), &b);
    assert_eq!(show(&r), "(quote=quote . (('x . ('y . ())) . ()))");
    // `quote` spans the whole form, the closing `()` the datum.
    let SExpr::Cons(c, whole) = &r else { panic!("expected a pair") };
    assert_eq!(*whole, Span { lo: 0, hi: 6 });
    assert_eq!(c.car.get_span(), Span { lo: 0, hi: 6 });
    let SExpr::Cons(c2, _) = c.cdr.as_ref() else { panic!("expected a pair") };
    assert_eq!(c2.cdr.get_span(), Span { lo: 1, hi: 6 });
}

#[test]
fn alpha_reduce_quote_inside_a_list() {
    let b = Bindings::new();
    assert_eq!(show(&alpha_reduce(form("(f (quote a))"), &b)), "(f? . ((quote=quote . ('a . ())) . ()))");
}

#[test]
fn alpha_reduce_quote_after_the_head_starts_a_quote_form() {
    // The rest of a list headed by an identifier is reduced as a form of its
    // own, so `quote` there quotes what follows it.
    let b = Bindings::new();
    assert_eq!(show(&alpha_reduce(form("(f quote a)"), &b)), "(f? . (quote=quote . ('a . ())))");
}

#[test]
fn alpha_reduce_resolves_inside_vectors() {
    let mut b = Bindings::new();
    b.add_binding(&Id::new("x", [Bindings::CORE_SCOPE]), &Symbol::new("x:1"));
    assert_eq!(show(&alpha_reduce(form("#(x y)"), &b)), "#[x=x:1 y?]");
}

#[test]
fn alpha_reduce_pairs_span_both_halves() {
    let b = Bindings::new();
    let r = alpha_reduce(form("((f) 1)"), &b);
    // Each pair is rebuilt to span its two halves, so the list now starts at
    // `f` rather than at the opening parentheses.
    assert_eq!(r.get_span(), Span { lo: 2, hi: 7 });
}

// The cases below write their source as expansion leaves it and bind, as
// expansion would have, the identifiers it introduces.

fn span0() -> Span {
    Span { lo: 0, hi: 0 }
}

fn rs_bound(symbol: &str, binding: &str) -> SExpr<ResolvedSymbol> {
    SExpr::Var(ResolvedSymbol::Bound { symbol: Symbol::new(symbol), binding: Symbol::new(binding) }, span0())
}

fn rs_free(symbol: &str) -> SExpr<ResolvedSymbol> {
    SExpr::Var(ResolvedSymbol::Free { symbol: Symbol::new(symbol) }, span0())
}

fn rs_literal(symbol: &str) -> SExpr<ResolvedSymbol> {
    SExpr::Var(ResolvedSymbol::Literal { symbol: Symbol::new(symbol) }, span0())
}

fn rs_list(items: Vec<SExpr<ResolvedSymbol>>) -> SExpr<ResolvedSymbol> {
    let mut acc = SExpr::Nil(span0());
    let mut items = items;
    while let Some(item) = items.pop() {
        acc = SExpr::cons(item, acc);
    }
    acc
}

fn alpha_reduce_source(source: &str, bound: &[(&str, &str)]) -> SExpr<ResolvedSymbol> {
    let mut bindings = Bindings::new();
    for (name, binding) in bound {
        bindings.add_binding(&Id::new(name, [Bindings::CORE_SCOPE]), &Symbol::new(binding));
    }
    alpha_reduce(form(source), &bindings)
}

#[test]
fn test_alpha_reduce_quote_keeps_quote_bound() {
    let result = alpha_reduce_source("'x", &[]);
    let expected = rs_list(vec![rs_bound("quote", "quote"), rs_literal("x")]);
    assert_eq!(result.without_spans(), expected.without_spans());
}

#[test]
fn test_alpha_reduce_quote_literalizes_nested_payload_identifiers() {
    let result = alpha_reduce_source("'(x y)", &[]);
    let expected = rs_list(vec![rs_bound("quote", "quote"), rs_list(vec![rs_literal("x"), rs_literal("y")])]);
    assert_eq!(result.without_spans(), expected.without_spans());
}

#[test]
fn test_alpha_reduce_shadowed_quote_is_not_treated_as_literal_form() {
    // The lambda's parameter `quote` is bound, and so is its use in the body.
    let result = alpha_reduce_source("(lambda (quote) (quote x))", &[("quote", "quote:1")]);
    let expected = rs_list(vec![
        rs_bound("lambda", "lambda"),
        rs_list(vec![rs_bound("quote", "quote:1")]),
        rs_list(vec![rs_bound("quote", "quote:1"), rs_free("x")]),
    ]);
    assert_eq!(result.without_spans(), expected.without_spans());
}

#[test]
fn test_alpha_reduce_inserted_vars_are_not_rebound() {
    // `(define (x) 1)` as expansion leaves it: a `define` of a core `lambda`.
    let result = alpha_reduce_source("(begin (define lambda 1) (define x (lambda () 1)))", &[]);
    let one = || SExpr::Num(rrrrr_rs::compile::sexpr::Num("1".to_string()), span0());
    let expected = rs_list(vec![
        rs_bound("begin", "begin"),
        rs_list(vec![rs_bound("define", "define"), rs_bound("lambda", "lambda"), one()]),
        rs_list(vec![
            rs_bound("define", "define"),
            rs_free("x"),
            rs_list(vec![rs_bound("lambda", "lambda"), SExpr::Nil(span0()), one()]),
        ]),
    ]);
    assert_eq!(result.without_spans(), expected.without_spans());
}
