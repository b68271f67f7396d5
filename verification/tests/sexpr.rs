use rrrrr_rs::compile::{
    bindings::Id,
    read::{lex::tokenize, parse::parse},
    sexpr::{Cons, Num, SExpr, Vector},
    span::Span,
};

fn num(text: &str) -> Num {
    Num(text.to_string())
}

/// A proper list of `items`, each pair spanning its element and the rest, the
/// closing `()` taking the span of the last element.
fn list<T>(items: Vec<SExpr<T>>) -> SExpr<T> {
    let mut items = items;
    let last = items.pop().expect("a list with at least one element");
    let span = last.get_span();
    let mut acc = SExpr::cons(last, SExpr::Nil(span));
    while let Some(item) = items.pop() {
        acc = SExpr::cons(item, acc);
    }
    acc
}

fn parse_single_source(src: &str) -> SExpr<rrrrr_rs::compile::ident::Symbol> {
    let mut vec = parse(&tokenize(src).unwrap()).unwrap();
    assert_eq!(vec.len(), 1);
    vec.pop().unwrap()
}

#[test]
fn sexpr_test_add_scope() {
    let span = Span { lo: 0, hi: 1 };
    let l = list(vec![
        SExpr::Var(Id::new("a", [1]), span),
        list(vec![SExpr::Var(Id::new("b", [1]), span)]),
        list(vec![SExpr::Var(Id::new("c", [0]), span)]),
        SExpr::Var(Id::new("d", [0, 1]), span),
    ]);
    assert_eq!(
        l.add_scope(0).add_scope(2).without_spans(),
        list(vec![
            SExpr::Var(Id::new("a", [0, 1, 2]), span),
            list(vec![SExpr::Var(Id::new("b", [0, 1, 2]), span)]),
            list(vec![SExpr::Var(Id::new("c", [0, 2]), span)]),
            SExpr::Var(Id::new("d", [0, 1, 2]), span),
        ])
        .without_spans()
    )
}

#[test]
fn sexpr_test_flip_scope() {
    let span = Span { lo: 0, hi: 1 };
    let l = list(vec![
        SExpr::Var(Id::new("a", [1]), span),
        list(vec![SExpr::Var(Id::new("b", [1]), span)]),
        list(vec![SExpr::Var(Id::new("c", [0]), span)]),
        SExpr::Var(Id::new("d", [0, 1]), span),
    ]);
    assert_eq!(
        l.flip_scope(0).without_spans(),
        list(vec![
            SExpr::Var(Id::new("a", [1, 0]), span),
            list(vec![SExpr::Var(Id::new("b", [1, 0]), span)]),
            list(vec![SExpr::Var(Id::new("c", []), span)]),
            SExpr::Var(Id::new("d", [1]), span),
        ])
        .without_spans()
    )
}

#[test]
fn test_add_scope_vector() {
    let span = Span { lo: 0, hi: 1 };
    let vector = SExpr::Vector(
        Vector(vec![
            SExpr::Var(Id::new("a", [1]), span),
            SExpr::Var(Id::new("b", [0]), span),
            SExpr::Num(num("42"), span),
        ]),
        span,
    );
    assert_eq!(
        vector.add_scope(2).without_spans(),
        SExpr::Vector(
            Vector(vec![
                SExpr::Var(Id::new("a", [1, 2]), span),
                SExpr::Var(Id::new("b", [0, 2]), span),
                SExpr::Num(num("42"), span),
            ]),
            span,
        )
        .without_spans()
    )
}

#[test]
fn test_flip_scope_vector() {
    let span = Span { lo: 0, hi: 1 };
    let vector = SExpr::Vector(
        Vector(vec![
            SExpr::Var(Id::new("a", [0, 1]), span),
            SExpr::Var(Id::new("b", [1]), span),
        ]),
        span,
    );
    assert_eq!(
        vector.flip_scope(1).without_spans(),
        SExpr::Vector(
            Vector(vec![
                SExpr::Var(Id::new("a", [0]), span),
                SExpr::Var(Id::new("b", []), span),
            ]),
            span,
        )
        .without_spans()
    )
}

#[test]
fn test_add_scope_nested_vector() {
    let span = Span { lo: 0, hi: 1 };
    let nested = list(vec![
        SExpr::Vector(Vector(vec![SExpr::Var(Id::new("x", [1]), span)]), span),
        SExpr::Var(Id::new("y", [1]), span),
    ]);
    assert_eq!(
        nested.add_scope(2).without_spans(),
        list(vec![
            SExpr::Vector(Vector(vec![SExpr::Var(Id::new("x", [1, 2]), span)]), span),
            SExpr::Var(Id::new("y", [1, 2]), span),
        ])
        .without_spans()
    )
}

#[test]
fn test_vector_to_cons_list() {
    let SExpr::Vector(vector, span) = parse_single_source("#(1 2 3)") else {
        unreachable!("Expected a vector")
    };

    assert_eq!(
        vector.into_cons_list(span),
        SExpr::Cons(
            Cons {
                car: Box::new(SExpr::Num(num("1"), Span { lo: 2, hi: 3 })),
                cdr: Box::new(SExpr::Cons(
                    Cons {
                        car: Box::new(SExpr::Num(num("2"), Span { lo: 4, hi: 5 })),
                        cdr: Box::new(SExpr::Cons(
                            Cons {
                                car: Box::new(SExpr::Num(num("3"), Span { lo: 6, hi: 7 })),
                                cdr: Box::new(SExpr::Nil(Span { lo: 7, hi: 8 })),
                            },
                            Span { lo: 6, hi: 8 },
                        )),
                    },
                    Span { lo: 4, hi: 8 },
                )),
            },
            Span { lo: 2, hi: 8 },
        ),
    );
}

#[test]
fn test_eq_includes_spans() {
    let left: SExpr<Id> = SExpr::Num(num("1"), Span { lo: 0, hi: 1 });
    let right: SExpr<Id> = SExpr::Num(num("1"), Span { lo: 3, hi: 4 });

    assert_ne!(left, right);
    assert_eq!(left.without_spans(), right.without_spans());
}

#[test]
fn test_debug_without_spans_omits_span_fields() {
    let sexpr = SExpr::cons(
        SExpr::Num(num("1"), Span { lo: 1, hi: 2 }),
        SExpr::Vector(
            Vector(vec![SExpr::Var(Id::new("x", [1]), Span { lo: 3, hi: 4 })]),
            Span { lo: 5, hi: 6 },
        ),
    );

    let rendered = format!("{:?}", sexpr.without_spans());
    assert!(
        !rendered.contains("lo"),
        "debug output leaked span: {rendered}"
    );
    assert!(
        !rendered.contains("hi"),
        "debug output leaked span: {rendered}"
    );
}
