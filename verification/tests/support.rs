use rrrrr_rs::compile::{
    bindings::Id,
    census::Census,
    compilation_error::CompilationError,
    expand::{introduce, Context, SyntaxContext},
    gensym::GenSym,
    ident::{ResolvedSymbol, ResolvedVar, Symbol},
    read::{lex::tokenize, parse::parse},
    sexpr::SExpr,
    source_loc,
    span::Span,
    src_loc,
};

fn error(lo: usize, hi: usize, reason: &str) -> CompilationError {
    CompilationError { span: Span { lo, hi }, reason: reason.to_string() }
}

#[test]
fn test_pprint_single_line() {
    let source = "(+ 1\n  (foo bar))\n";
    let e = error(8, 11, "Unbound variable");
    assert_eq!(
        e.pprint_with_source(source).render(),
        "Error: Unbound variable\n --> 2:4:\n    |\n  2 |   (foo bar))\n    |    ^^^      \n"
    );
}

#[test]
fn test_pprint_spanning_lines() {
    let source = "(a\n b)";
    let e = error(0, 6, "r");
    assert_eq!(
        e.pprint_with_source(source).render(),
        "Error: r\n --> 1:1:\n    |\n  1 | (a\n    | ^^\n  2 |  b)\n    | ^^^\n"
    );
}

#[test]
fn test_pprint_past_the_end() {
    let e = error(5, 5, "Unexpected end of input");
    assert_eq!(e.pprint_with_source("ab").render(), "Error: Unexpected end of input\n");
    assert_eq!(e.pprint_with_source("").render(), "Error: Unexpected end of input\n");
}

#[test]
fn test_pprint_line_numbers_are_padded() {
    let mut source = String::new();
    for _ in 0..11 {
        source.push_str("x\n");
    }
    source.push_str("bad");
    let e = error(22, 25, "oops");
    assert_eq!(
        e.pprint_with_source(&source).render(),
        "Error: oops\n --> 12:1:\n    |\n 12 | bad\n    | ^^^\n"
    );
}

#[test]
fn test_pprint_of_lexer_error() {
    let source = "(a [b)";
    let err = tokenize(source).unwrap_err();
    let text = err.pprint_with_source(source).render();
    assert!(text.starts_with("Error: "));
    assert!(text.contains("  1 | (a [b)\n    |    ^  \n"));
}

#[test]
fn test_error_and_span_display() {
    let e = error(3, 7, "Expected a datum");
    assert_eq!(e.span.display(), "lo: 3, hi: 7");
    assert_eq!(e.display(), "lo: 3, hi: 7: Expected a datum");
}

#[test]
fn test_span_combine() {
    let a = Span { lo: 2, hi: 5 };
    let b = Span { lo: 4, hi: 9 };
    assert_eq!(a.combine(b), Span { lo: 2, hi: 9 });
    assert_eq!(b.combine(a), Span { lo: 2, hi: 9 });
    assert_eq!(a.combine(a), a);
}

#[test]
fn test_source_loc_combine() {
    let a = source_loc::SourceLoc { line: 1, idx: 10, width: 3 };
    let b = source_loc::SourceLoc { line: 2, idx: 20, width: 4 };
    let joined = source_loc::SourceLoc { line: 1, idx: 10, width: 14 };
    assert_eq!(a.combine(b), joined);
    assert_eq!(b.combine(a), joined);
    assert_eq!(a.display(), "line: 1, idx: 10");
}

#[test]
fn test_src_loc_display() {
    let loc = src_loc::SourceLoc { line: 4, col: 2, width: 1 };
    assert_eq!(loc.display(), "line: 4, col: 2");
}

#[test]
fn test_gen_sym_fresh_counts_up() {
    let mut g = GenSym::new();
    assert_eq!(g.fresh("x"), Symbol::new("x:1"));
    assert_eq!(g.fresh("y"), Symbol::new("y:2"));
    assert_eq!(g.fresh("z"), Symbol::new("z:3"));
    assert_eq!(GenSym::default().fresh("w"), Symbol::new("w:1"));
}

#[test]
fn test_census_counts_uses_and_rebinds() {
    let mut c = Census::new();
    let x = Symbol::new("x");
    let y = Symbol::new("y");
    assert_eq!(c.use_count(&x), 0);
    assert!(!c.is_rebound(&x));
    c.track_use(&x);
    c.track_use(&x);
    c.track_use(&y);
    assert_eq!(c.use_count(&x), 2);
    assert_eq!(c.use_count(&y), 1);
    c.track_rebound(&y);
    assert!(c.is_rebound(&y));
    assert!(!c.is_rebound(&x));
    assert_eq!(c.use_count(&y), 1);
    let mut d = Census::default();
    d.track_rebound(&x);
    assert!(d.is_rebound(&x));
    assert_eq!(d.use_count(&x), 0);
}

#[test]
fn test_context() {
    let mut ctx = Context::new(SyntaxContext::TopLevel);
    assert_eq!(ctx.depth, 0);
    ctx.increment_depth();
    ctx.increment_depth();
    let body = ctx.with_syntax_ctx(SyntaxContext::Body);
    assert_eq!(body, Context { syntax_ctx: SyntaxContext::Body, depth: 2 });
}

#[test]
fn test_introduce_puts_symbols_in_core_scope() {
    let datum = parse(&tokenize("(a (b))").unwrap()).unwrap().pop().unwrap();
    let syntax = introduce(datum);
    let SExpr::Cons(cons, _) = syntax else { panic!("expected a list") };
    assert!(matches!(*cons.car, SExpr::Var(ref id, _) if *id == Id::new("a", [0])));
}

#[test]
fn test_resolved_symbol_conversions() {
    let bound = ResolvedSymbol::Bound { symbol: Symbol::new("x"), binding: Symbol::new("x:1") };
    assert_eq!(
        bound.clone().try_into_var(),
        Ok(ResolvedVar::Bound { symbol: Symbol::new("x"), binding: Symbol::new("x:1") })
    );
    let literal = ResolvedSymbol::Literal { symbol: Symbol::new("q") };
    assert_eq!(literal.clone().try_into_var(), Err(literal.clone()));
    assert_eq!(Symbol::from(bound), Symbol::new("x"));
    assert_eq!(literal.into_symbol(), Symbol::new("q"));
}

#[test]
fn test_datum_display() {
    let source = "(a \"x\\\"y\" #\\space #(1 2) #t . 3.50)";
    let datum = parse(&tokenize(source).unwrap()).unwrap().pop().unwrap();
    assert_eq!(datum.display(), "(a \"x\\\"y\" #\\space #(1 2) #t . 3.50)");
    let nested = parse(&tokenize("((1) () #\\newline #\\q #f)").unwrap()).unwrap().pop().unwrap();
    assert_eq!(nested.display(), "((1) () #\\newline #\\q #f)");
    let empty_vector = parse(&tokenize("#()").unwrap()).unwrap().pop().unwrap();
    assert_eq!(empty_vector.display(), "#()");
}
