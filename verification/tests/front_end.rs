//! The front end run from source text: read, resolve identifiers, lower, and
//! put in A-normal form. Expansion is not part of the library, so each test
//! writes its source already expanded and binds, as expansion would have, the
//! identifiers it introduces; `names_made` counts the fresh names it took.

use rrrrr_rs::compile::{
    alpha_reduce::alpha_reduce,
    anf::{self, AExpr, Application, Assign, CExpr, If, Lambda, Let, Rhs, Value},
    bindings::{Bindings, Id},
    core_expr,
    expand::introduce,
    gensym::GenSym,
    ident::{ResolvedVar, Symbol},
    pass::{a_normalization::a_normalize, lower::lower},
    read::{lex::tokenize, parse::parse},
    sexpr::{Bool, Cons, Num, SExpr, Str},
    span::Span,
};

fn sp(lo: usize, hi: usize) -> Span {
    Span { lo, hi }
}

fn num(text: &str, span: Span) -> SExpr<Symbol> {
    SExpr::Num(Num(text.to_string()), span)
}

fn names(names_made: usize) -> GenSym {
    let mut g = GenSym::new();
    for _ in 0..names_made {
        g.fresh("n");
    }
    g
}

fn resolve_source(source: &str, bound: &[(&str, &str)]) -> SExpr<rrrrr_rs::compile::ident::ResolvedSymbol> {
    let mut bindings = Bindings::new();
    bindings.add_binding(&Id::new("letrec", [Bindings::CORE_SCOPE]), &Symbol::new("letrec"));
    for (name, binding) in bound {
        bindings.add_binding(&Id::new(name, [Bindings::CORE_SCOPE]), &Symbol::new(binding));
    }
    let datum = parse(&tokenize(source).unwrap()).unwrap().pop().unwrap();
    alpha_reduce(introduce(datum), &bindings)
}

fn lower_source(source: &str, bound: &[(&str, &str)], names_made: usize) -> core_expr::Expr {
    let mut g = names(names_made);
    lower(&mut g, resolve_source(source, bound))
}

fn a_normalize_source(source: &str, bound: &[(&str, &str)], names_made: usize) -> anf::Expr {
    let mut g = names(names_made);
    let lowered = lower(&mut g, resolve_source(source, bound));
    a_normalize(&mut g, lowered)
}

fn bound_var(symbol: &str, binding: &str) -> ResolvedVar {
    ResolvedVar::Bound { symbol: Symbol::new(symbol), binding: Symbol::new(binding) }
}

fn free_var(symbol: &str) -> ResolvedVar {
    ResolvedVar::Free { symbol: Symbol::new(symbol) }
}

#[test]
fn test_lower_number_literal() {
    assert_eq!(lower_source("42", &[], 0), core_expr::Expr::Literal(num("42", sp(0, 2))));
}

#[test]
fn test_lower_boolean_literal() {
    assert_eq!(
        lower_source("#f", &[], 0),
        core_expr::Expr::Literal(SExpr::Bool(Bool(false), sp(0, 2)))
    );
}

#[test]
fn test_lower_string_literal() {
    assert_eq!(
        lower_source("\"hello\"", &[], 0),
        core_expr::Expr::Literal(SExpr::Str(Str("hello".to_string()), sp(0, 7)))
    );
}

#[test]
fn test_lower_quoted_symbol() {
    assert_eq!(
        lower_source("'x", &[], 0),
        core_expr::Expr::Literal(SExpr::Var(Symbol::new("x"), sp(1, 2)))
    );
}

#[test]
fn test_lower_quoted_list() {
    assert_eq!(
        lower_source("'(a b c)", &[], 0),
        core_expr::Expr::Literal(SExpr::Cons(
            Cons::new(
                SExpr::Var(Symbol::new("a"), sp(2, 3)),
                SExpr::Cons(
                    Cons::new(
                        SExpr::Var(Symbol::new("b"), sp(4, 5)),
                        SExpr::Cons(
                            Cons::new(SExpr::Var(Symbol::new("c"), sp(6, 7)), SExpr::Nil(sp(7, 8))),
                            sp(6, 8),
                        ),
                    ),
                    sp(4, 8),
                ),
            ),
            sp(1, 8),
        ))
    );
}

#[test]
fn test_lower_quoted_nil() {
    assert_eq!(lower_source("'()", &[], 0), core_expr::Expr::Literal(SExpr::Nil(sp(1, 3))));
}

#[test]
fn test_lower_free_variable() {
    assert_eq!(lower_source("x", &[], 0), core_expr::Expr::Var(free_var("x"), sp(0, 1)));
}

#[test]
fn test_lower_lambda() {
    assert_eq!(
        lower_source("(lambda (x y) x)", &[("x", "x:1"), ("y", "y:2")], 2),
        core_expr::Expr::Lambda(
            core_expr::Lambda {
                args: vec![Symbol::new("x:1"), Symbol::new("y:2")],
                var_arg: None,
                body: Box::new(core_expr::Expr::Var(bound_var("x", "x:1"), sp(14, 15))),
            },
            sp(1, 16),
        )
    );
}

#[test]
fn test_lower_lambda_rest_param() {
    assert_eq!(
        lower_source("(lambda (x . rest) x)", &[("x", "x:1"), ("rest", "rest:2")], 2),
        core_expr::Expr::Lambda(
            core_expr::Lambda {
                args: vec![Symbol::new("x:1")],
                var_arg: Some(Symbol::new("rest:2")),
                body: Box::new(core_expr::Expr::Var(bound_var("x", "x:1"), sp(19, 20))),
            },
            sp(1, 21),
        )
    );
}

#[test]
fn test_lower_lambda_single_rest_param() {
    assert_eq!(
        lower_source("(lambda args args)", &[("args", "args:1")], 1),
        core_expr::Expr::Lambda(
            core_expr::Lambda {
                args: vec![],
                var_arg: Some(Symbol::new("args:1")),
                body: Box::new(core_expr::Expr::Var(bound_var("args", "args:1"), sp(13, 17))),
            },
            sp(1, 18),
        )
    );
}

#[test]
fn test_lower_application() {
    assert_eq!(
        lower_source("(f 1 2)", &[], 0),
        core_expr::Expr::Application(
            core_expr::Application {
                operand: Box::new(core_expr::Expr::Var(free_var("f"), sp(1, 2))),
                args: vec![
                    core_expr::Expr::Literal(num("1", sp(3, 4))),
                    core_expr::Expr::Literal(num("2", sp(5, 6))),
                ],
            },
            sp(1, 7),
        )
    );
}

#[test]
fn test_lower_if() {
    assert_eq!(
        lower_source("(if #t 1 2)", &[], 0),
        core_expr::Expr::If(
            core_expr::If {
                test: Box::new(core_expr::Expr::Literal(SExpr::Bool(Bool(true), sp(4, 6)))),
                conseq: Box::new(core_expr::Expr::Literal(num("1", sp(7, 8)))),
                alt: Box::new(core_expr::Expr::Literal(num("2", sp(9, 10)))),
            },
            sp(1, 11),
        )
    );
}

#[test]
fn test_lower_define() {
    assert_eq!(
        lower_source("(define x 42)", &[], 0),
        core_expr::Expr::Assign(
            core_expr::Assign {
                var: free_var("x"),
                expr: Box::new(core_expr::Expr::Literal(num("42", sp(10, 12)))),
            },
            sp(1, 13),
        )
    );
}

#[test]
fn test_lower_set() {
    assert_eq!(
        lower_source("(set! x 2)", &[], 0),
        core_expr::Expr::Assign(
            core_expr::Assign {
                var: free_var("x"),
                expr: Box::new(core_expr::Expr::Literal(num("2", sp(8, 9)))),
            },
            sp(1, 10),
        )
    );
}

#[test]
fn test_lower_begin() {
    assert_eq!(
        lower_source("(begin 1 2 3)", &[], 0),
        core_expr::Expr::Begin(
            core_expr::Begin {
                body: vec![
                    core_expr::Expr::Literal(num("1", sp(7, 8))),
                    core_expr::Expr::Literal(num("2", sp(9, 10))),
                    core_expr::Expr::Literal(num("3", sp(11, 12))),
                ],
            },
            sp(1, 13),
        )
    );
}

fn temp_set(symbol: &str, binding: &str, temp: &str, s: Span) -> core_expr::Expr {
    core_expr::Expr::Assign(
        core_expr::Assign {
            var: bound_var(symbol, binding),
            expr: Box::new(core_expr::Expr::Var(bound_var("temp", temp), s)),
        },
        s,
    )
}

#[test]
fn test_lower_letrec() {
    // (letrec ((x 1) (y 2)) x)
    // →
    // ((lambda (x y)
    //    ((lambda (t1 t2) (begin (set! x t1) (set! y t2) x)) 1 2))
    //  void void)
    let s = sp(1, 24);
    assert_eq!(
        lower_source("(letrec ((x 1) (y 2)) x)", &[("x", "x:1"), ("y", "y:2")], 2),
        core_expr::Expr::Application(
            core_expr::Application {
                operand: Box::new(core_expr::Expr::Lambda(
                    core_expr::Lambda {
                        args: vec![Symbol::new("x:1"), Symbol::new("y:2")],
                        var_arg: None,
                        body: Box::new(core_expr::Expr::Application(
                            core_expr::Application {
                                operand: Box::new(core_expr::Expr::Lambda(
                                    core_expr::Lambda {
                                        args: vec![Symbol::new("temp:3"), Symbol::new("temp:4")],
                                        var_arg: None,
                                        body: Box::new(core_expr::Expr::Begin(
                                            core_expr::Begin {
                                                body: vec![
                                                    temp_set("x", "x:1", "temp:3", s),
                                                    temp_set("y", "y:2", "temp:4", s),
                                                    core_expr::Expr::Var(bound_var("x", "x:1"), sp(22, 23)),
                                                ],
                                            },
                                            s,
                                        )),
                                    },
                                    s,
                                )),
                                args: vec![
                                    core_expr::Expr::Literal(num("1", sp(12, 13))),
                                    core_expr::Expr::Literal(num("2", sp(18, 19))),
                                ],
                            },
                            s,
                        )),
                    },
                    s,
                )),
                args: vec![core_expr::Expr::Literal(SExpr::Void(s)), core_expr::Expr::Literal(SExpr::Void(s))],
            },
            s,
        )
    );
}

#[test]
fn test_lower_letrec_no_binding() {
    // (letrec () 1)
    // →
    // ((lambda () 1))
    assert_eq!(
        lower_source("(letrec () 1)", &[], 0),
        core_expr::Expr::Application(
            core_expr::Application {
                operand: Box::new(core_expr::Expr::Lambda(
                    core_expr::Lambda {
                        args: vec![],
                        var_arg: None,
                        body: Box::new(core_expr::Expr::Literal(num("1", sp(11, 12)))),
                    },
                    sp(1, 13),
                )),
                args: vec![],
            },
            sp(1, 13),
        )
    );
}

#[test]
fn test_a_normalize_literal() {
    assert_eq!(a_normalize_source("42", &[], 0), anf::Expr::AExpr(AExpr::Literal(num("42", sp(0, 2)))));
}

#[test]
fn test_a_normalize_free_variable() {
    assert_eq!(a_normalize_source("x", &[], 0), anf::Expr::AExpr(AExpr::Var(free_var("x"), sp(0, 1))));
}

#[test]
fn test_a_normalize_lambda() {
    assert_eq!(
        a_normalize_source("(lambda (x) x)", &[("x", "x:1")], 1),
        anf::Expr::AExpr(AExpr::Lambda(
            Lambda {
                args: vec![Symbol::new("x:1")],
                var_arg: None,
                body: Box::new(anf::Expr::AExpr(AExpr::Var(bound_var("x", "x:1"), sp(12, 13)))),
            },
            sp(1, 14),
        ))
    );
}

#[test]
fn test_a_normalize_application() {
    assert_eq!(
        a_normalize_source("(f 1 2)", &[], 0),
        anf::Expr::CExpr(CExpr::Application(
            Application {
                operand: Box::new(Value::Var(free_var("f"), sp(1, 2))),
                args: vec![Value::Literal(num("1", sp(3, 4))), Value::Literal(num("2", sp(5, 6)))],
            },
            sp(1, 7),
        ))
    );
}

#[test]
fn test_a_normalize_application_names_complex_arg() {
    // (f (g 1))
    // →
    // (let ((anf:1 (g 1)))
    //   (f anf:1))
    assert_eq!(
        a_normalize_source("(f (g 1))", &[], 0),
        anf::Expr::Let(
            Let {
                initializer: Box::new((
                    Symbol::new("anf:1"),
                    Rhs::CExpr(CExpr::Application(
                        Application {
                            operand: Box::new(Value::Var(free_var("g"), sp(4, 5))),
                            args: vec![Value::Literal(num("1", sp(6, 7)))],
                        },
                        sp(4, 8),
                    )),
                )),
                body: Box::new(anf::Expr::CExpr(CExpr::Application(
                    Application {
                        operand: Box::new(Value::Var(free_var("f"), sp(1, 2))),
                        args: vec![Value::Var(bound_var("anf", "anf:1"), sp(4, 8))],
                    },
                    sp(1, 9),
                ))),
            },
            sp(4, 8),
        )
    );
}

#[test]
fn test_a_normalize_if() {
    assert_eq!(
        a_normalize_source("(if #t 1 2)", &[], 0),
        anf::Expr::CExpr(CExpr::If(
            If {
                test: Box::new(Value::Literal(SExpr::Bool(Bool(true), sp(4, 6)))),
                conseq: Box::new(anf::Expr::AExpr(AExpr::Literal(num("1", sp(7, 8))))),
                alt: Box::new(anf::Expr::AExpr(AExpr::Literal(num("2", sp(9, 10))))),
            },
            sp(1, 11),
        ))
    );
}

#[test]
fn test_a_normalize_set() {
    assert_eq!(
        a_normalize_source("(set! x 1)", &[], 0),
        anf::Expr::CExpr(CExpr::Assign(
            Assign { var: free_var("x"), aexpr: Value::Literal(num("1", sp(8, 9))) },
            sp(1, 10),
        ))
    );
}

#[test]
fn test_a_normalize_begin_returns_last() {
    assert_eq!(
        a_normalize_source("(begin 1 2 3)", &[], 0),
        anf::Expr::AExpr(AExpr::Literal(num("3", sp(11, 12))))
    );
}

#[test]
fn test_a_normalize_begin_preserves_side_effects() {
    // (begin (f 1) 2)
    // →
    // (let ((anf:1 (f 1)))
    //   2)
    assert_eq!(
        a_normalize_source("(begin (f 1) 2)", &[], 0),
        anf::Expr::Let(
            Let {
                initializer: Box::new((
                    Symbol::new("anf:1"),
                    Rhs::CExpr(CExpr::Application(
                        Application {
                            operand: Box::new(Value::Var(free_var("f"), sp(8, 9))),
                            args: vec![Value::Literal(num("1", sp(10, 11)))],
                        },
                        sp(8, 12),
                    )),
                )),
                body: Box::new(anf::Expr::AExpr(AExpr::Literal(num("2", sp(13, 14))))),
            },
            sp(8, 12),
        )
    );
}

#[test]
fn test_a_normalize_nested_application_in_arg() {
    // (+ ((lambda () 1)))
    // →
    // (let ((anf:1 (lambda () 1)))
    //   (let ((anf:2 (anf:1)))
    //     (+:free anf:2)))
    assert_eq!(
        a_normalize_source("(+ ((lambda () 1)))", &[], 0),
        anf::Expr::Let(
            Let {
                initializer: Box::new((
                    Symbol::new("anf:1"),
                    Rhs::AExpr(AExpr::Lambda(
                        Lambda {
                            args: vec![],
                            var_arg: None,
                            body: Box::new(anf::Expr::AExpr(AExpr::Literal(num("1", sp(15, 16))))),
                        },
                        sp(5, 17),
                    )),
                )),
                body: Box::new(anf::Expr::Let(
                    Let {
                        initializer: Box::new((
                            Symbol::new("anf:2"),
                            Rhs::CExpr(CExpr::Application(
                                Application {
                                    operand: Box::new(Value::Var(bound_var("anf", "anf:1"), sp(5, 17))),
                                    args: vec![],
                                },
                                sp(5, 18),
                            )),
                        )),
                        body: Box::new(anf::Expr::CExpr(CExpr::Application(
                            Application {
                                operand: Box::new(Value::Var(free_var("+"), sp(1, 2))),
                                args: vec![Value::Var(bound_var("anf", "anf:2"), sp(5, 18))],
                            },
                            sp(1, 19),
                        ))),
                    },
                    sp(5, 18),
                )),
            },
            sp(5, 17),
        )
    );
}

#[test]
fn test_pretty_print() {
    // `(define (f x y) ...)` as expansion leaves it: a `define` of a lambda.
    let source = "(define f (lambda (x y) (if (= x 0) y (f (- x 1) (* x y)))))";
    assert_eq!(
        a_normalize_source(source, &[("x", "x:1"), ("y", "y:2")], 3).display(),
        r#"
(let ((anf:7
       (λ (x:1 y:2)
         (let ((anf:4 (=:free x:1 0)))
           (if anf:4
               y:2
               (let ((anf:5 (-:free x:1 1)))
                 (let ((anf:6 (*:free x:1 y:2)))
                   (f:free anf:5 anf:6))))))))
  (set! f:free anf:7))
        "#
        .trim()
    );
}
