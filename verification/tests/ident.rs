use rrrrr_rs::compile::ident::{ResolvedSymbol, ResolvedVar, Symbol};

#[test]
fn resolved_symbols_are_written_by_binding_or_marked_free() {
    let bound = ResolvedSymbol::Bound { symbol: Symbol::new("x"), binding: Symbol::new("x:1") };
    let free = ResolvedSymbol::Free { symbol: Symbol::new("f") };
    let literal = ResolvedSymbol::Literal { symbol: Symbol::new("q") };
    assert_eq!(bound.display(), "x:1");
    assert_eq!(free.display(), "f:free");
    assert_eq!(literal.display(), "q");
}

#[test]
fn variables_are_written_by_binding_or_marked_free() {
    let bound = ResolvedVar::Bound { symbol: Symbol::new("y"), binding: Symbol::new("y:7") };
    let free = ResolvedVar::Free { symbol: Symbol::new("g") };
    assert_eq!(bound.display(), "y:7");
    assert_eq!(free.display(), "g:free");
}
