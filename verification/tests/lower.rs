use rrrrr_rs::compile::{
    core_expr::{Application, Assign, Begin, Expr, If, Lambda},
    gensym::GenSym,
    ident::{ResolvedSymbol, ResolvedVar, Symbol},
    pass::lower::lower,
    sexpr::{Bool, Cons, Num, SExpr},
    span::Span,
};

fn sp(lo: usize, hi: usize) -> Span {
    Span { lo, hi }
}

fn bound(symbol: &str, binding: &str, span: Span) -> SExpr<ResolvedSymbol> {
    SExpr::Var(
        ResolvedSymbol::Bound {
            symbol: Symbol::new(symbol),
            binding: Symbol::new(binding),
        },
        span,
    )
}

fn keyword(name: &str) -> SExpr<ResolvedSymbol> {
    bound(name, name, sp(0, 0))
}

fn free(symbol: &str, span: Span) -> SExpr<ResolvedSymbol> {
    SExpr::Var(ResolvedSymbol::Free { symbol: Symbol::new(symbol) }, span)
}

fn num<T>(text: &str, span: Span) -> SExpr<T> {
    SExpr::Num(Num(text.to_string()), span)
}

/// A proper list of `items`, every pair spanning `span`.
fn list<T>(items: Vec<SExpr<T>>, span: Span) -> SExpr<T> {
    let mut acc = SExpr::Nil(span);
    let mut items = items;
    while let Some(item) = items.pop() {
        acc = SExpr::Cons(Cons::new(item, acc), span);
    }
    acc
}

fn bound_var(symbol: &str, binding: &str, span: Span) -> Expr {
    Expr::Var(
        ResolvedVar::Bound {
            symbol: Symbol::new(symbol),
            binding: Symbol::new(binding),
        },
        span,
    )
}

fn lit(text: &str, span: Span) -> Expr {
    Expr::Literal(num(text, span))
}

#[test]
fn lower_number_literal() {
    let mut g = GenSym::new();
    assert_eq!(lower(&mut g, num("42", sp(0, 2))), lit("42", sp(0, 2)));
}

#[test]
fn lower_boolean_literal() {
    let mut g = GenSym::new();
    assert_eq!(
        lower(&mut g, SExpr::Bool(Bool(false), sp(0, 2))),
        Expr::Literal(SExpr::Bool(Bool(false), sp(0, 2)))
    );
}

#[test]
fn lower_free_variable() {
    let mut g = GenSym::new();
    assert_eq!(
        lower(&mut g, free("x", sp(0, 1))),
        Expr::Var(ResolvedVar::Free { symbol: Symbol::new("x") }, sp(0, 1))
    );
}

#[test]
fn lower_quoted_list_keeps_written_names() {
    let mut g = GenSym::new();
    let quoted = list(vec![bound("a", "a:7", sp(2, 3)), free("b", sp(4, 5))], sp(1, 6));
    let form = list(vec![keyword("quote"), quoted], sp(0, 6));
    let expected = list(
        vec![
            SExpr::Var(Symbol::new("a"), sp(2, 3)),
            SExpr::Var(Symbol::new("b"), sp(4, 5)),
        ],
        sp(1, 6),
    );
    assert_eq!(lower(&mut g, form), Expr::Literal(expected));
}

#[test]
fn lower_lambda() {
    let mut g = GenSym::new();
    let form = list(
        vec![
            keyword("lambda"),
            list(vec![bound("x", "x:1", sp(9, 10)), bound("y", "y:2", sp(11, 12))], sp(8, 13)),
            bound("x", "x:1", sp(14, 15)),
        ],
        sp(0, 16),
    );
    assert_eq!(
        lower(&mut g, form),
        Expr::Lambda(
            Lambda {
                args: vec![Symbol::new("x:1"), Symbol::new("y:2")],
                var_arg: None,
                body: Box::new(bound_var("x", "x:1", sp(14, 15))),
            },
            sp(0, 16),
        )
    );
}

#[test]
fn lower_lambda_rest_param() {
    let mut g = GenSym::new();
    let params = SExpr::Cons(Cons::new(bound("x", "x:1", sp(9, 10)), bound("rest", "rest:2", sp(13, 17))), sp(8, 18));
    let form = list(vec![keyword("lambda"), params, bound("x", "x:1", sp(19, 20))], sp(0, 21));
    assert_eq!(
        lower(&mut g, form),
        Expr::Lambda(
            Lambda {
                args: vec![Symbol::new("x:1")],
                var_arg: Some(Symbol::new("rest:2")),
                body: Box::new(bound_var("x", "x:1", sp(19, 20))),
            },
            sp(0, 21),
        )
    );
}

#[test]
fn lower_lambda_single_rest_param() {
    let mut g = GenSym::new();
    let form = list(
        vec![keyword("lambda"), bound("args", "args:1", sp(8, 12)), bound("args", "args:1", sp(13, 17))],
        sp(0, 18),
    );
    assert_eq!(
        lower(&mut g, form),
        Expr::Lambda(
            Lambda {
                args: vec![],
                var_arg: Some(Symbol::new("args:1")),
                body: Box::new(bound_var("args", "args:1", sp(13, 17))),
            },
            sp(0, 18),
        )
    );
}

#[test]
fn lower_lambda_body_of_several_forms_is_a_begin() {
    let mut g = GenSym::new();
    let body = list(vec![num("1", sp(11, 12)), num("2", sp(13, 14))], sp(11, 15));
    let form = SExpr::Cons(
        Cons::new(keyword("lambda"), SExpr::Cons(Cons::new(SExpr::Nil(sp(8, 10)), body), sp(8, 15))),
        sp(0, 15),
    );
    assert_eq!(
        lower(&mut g, form),
        Expr::Lambda(
            Lambda {
                args: vec![],
                var_arg: None,
                body: Box::new(Expr::Begin(
                    Begin { body: vec![lit("1", sp(11, 12)), lit("2", sp(13, 14))] },
                    sp(11, 15),
                )),
            },
            sp(0, 15),
        )
    );
}

#[test]
fn lower_application() {
    let mut g = GenSym::new();
    let form = list(vec![free("f", sp(1, 2)), num("1", sp(3, 4)), num("2", sp(5, 6))], sp(0, 7));
    assert_eq!(
        lower(&mut g, form),
        Expr::Application(
            Application {
                operand: Box::new(Expr::Var(ResolvedVar::Free { symbol: Symbol::new("f") }, sp(1, 2))),
                args: vec![lit("1", sp(3, 4)), lit("2", sp(5, 6))],
            },
            sp(0, 7),
        )
    );
}

#[test]
fn lower_application_of_a_bound_procedure() {
    let mut g = GenSym::new();
    let form = list(vec![bound("+", "+:3", sp(1, 2)), num("1", sp(3, 4))], sp(0, 5));
    assert_eq!(
        lower(&mut g, form),
        Expr::Application(
            Application {
                operand: Box::new(bound_var("+", "+:3", sp(1, 2))),
                args: vec![lit("1", sp(3, 4))],
            },
            sp(0, 5),
        )
    );
}

#[test]
fn lower_if() {
    let mut g = GenSym::new();
    let form = list(
        vec![keyword("if"), SExpr::Bool(Bool(true), sp(4, 6)), num("1", sp(7, 8)), num("2", sp(9, 10))],
        sp(0, 11),
    );
    assert_eq!(
        lower(&mut g, form),
        Expr::If(
            If {
                test: Box::new(Expr::Literal(SExpr::Bool(Bool(true), sp(4, 6)))),
                conseq: Box::new(lit("1", sp(7, 8))),
                alt: Box::new(lit("2", sp(9, 10))),
            },
            sp(0, 11),
        )
    );
}

#[test]
fn lower_define() {
    let mut g = GenSym::new();
    let form = list(vec![keyword("define"), free("x", sp(8, 9)), num("42", sp(10, 12))], sp(0, 13));
    assert_eq!(
        lower(&mut g, form),
        Expr::Assign(
            Assign {
                var: ResolvedVar::Free { symbol: Symbol::new("x") },
                expr: Box::new(lit("42", sp(10, 12))),
            },
            sp(0, 13),
        )
    );
}

#[test]
fn lower_set() {
    let mut g = GenSym::new();
    let form = list(vec![keyword("set!"), bound("x", "x:1", sp(6, 7)), num("2", sp(8, 9))], sp(0, 10));
    assert_eq!(
        lower(&mut g, form),
        Expr::Assign(
            Assign {
                var: ResolvedVar::Bound { symbol: Symbol::new("x"), binding: Symbol::new("x:1") },
                expr: Box::new(lit("2", sp(8, 9))),
            },
            sp(0, 10),
        )
    );
}

#[test]
fn lower_begin() {
    let mut g = GenSym::new();
    let form = list(
        vec![keyword("begin"), num("1", sp(7, 8)), num("2", sp(9, 10)), num("3", sp(11, 12))],
        sp(0, 13),
    );
    assert_eq!(
        lower(&mut g, form),
        Expr::Begin(
            Begin { body: vec![lit("1", sp(7, 8)), lit("2", sp(9, 10)), lit("3", sp(11, 12))] },
            sp(0, 13),
        )
    );
}

fn temp_set(symbol: &str, binding: &str, temp: &str, s: Span) -> Expr {
    Expr::Assign(
        Assign {
            var: ResolvedVar::Bound { symbol: Symbol::new(symbol), binding: Symbol::new(binding) },
            expr: Box::new(bound_var("temp", temp, s)),
        },
        s,
    )
}

#[test]
fn lower_letrec() {
    // (letrec ((x 1) (y 2)) x), after two names were made for x and y.
    let mut g = GenSym::new();
    g.fresh("x");
    g.fresh("y");
    let s = sp(0, 24);
    let inits = list(
        vec![
            list(vec![bound("x", "x:1", sp(10, 11)), num("1", sp(12, 13))], sp(9, 14)),
            list(vec![bound("y", "y:2", sp(16, 17)), num("2", sp(18, 19))], sp(15, 20)),
        ],
        sp(8, 21),
    );
    let form = list(vec![keyword("letrec"), inits, bound("x", "x:1", sp(22, 23))], s);
    let expected = Expr::Application(
        Application {
            operand: Box::new(Expr::Lambda(
                Lambda {
                    args: vec![Symbol::new("x:1"), Symbol::new("y:2")],
                    var_arg: None,
                    body: Box::new(Expr::Application(
                        Application {
                            operand: Box::new(Expr::Lambda(
                                Lambda {
                                    args: vec![Symbol::new("temp:3"), Symbol::new("temp:4")],
                                    var_arg: None,
                                    body: Box::new(Expr::Begin(
                                        Begin {
                                            body: vec![
                                                temp_set("x", "x:1", "temp:3", s),
                                                temp_set("y", "y:2", "temp:4", s),
                                                bound_var("x", "x:1", sp(22, 23)),
                                            ],
                                        },
                                        s,
                                    )),
                                },
                                s,
                            )),
                            args: vec![lit("1", sp(12, 13)), lit("2", sp(18, 19))],
                        },
                        s,
                    )),
                },
                s,
            )),
            args: vec![Expr::Literal(SExpr::Void(s)), Expr::Literal(SExpr::Void(s))],
        },
        s,
    );
    assert_eq!(lower(&mut g, form), expected);
    // One fresh name was taken for each initializer.
    assert_eq!(g.fresh("t"), Symbol::new("t:5"));
}

#[test]
fn lower_letrec_without_bindings_calls_a_thunk() {
    let mut g = GenSym::new();
    let form = list(vec![keyword("letrec"), SExpr::Nil(sp(8, 10)), num("1", sp(11, 12))], sp(0, 13));
    assert_eq!(
        lower(&mut g, form),
        Expr::Application(
            Application {
                operand: Box::new(Expr::Lambda(
                    Lambda { args: vec![], var_arg: None, body: Box::new(lit("1", sp(11, 12))) },
                    sp(0, 13),
                )),
                args: vec![],
            },
            sp(0, 13),
        )
    );
    assert_eq!(g.fresh("t"), Symbol::new("t:1"));
}

#[test]
fn lower_letrec_temporaries_follow_the_initial_values() {
    // The temporary of an initializer is made after its value is lowered, so
    // a nested letrec in the value takes the earlier name.
    let mut g = GenSym::new();
    let inner = list(
        vec![
            keyword("letrec"),
            list(vec![list(vec![bound("a", "a:9", sp(0, 0)), num("0", sp(0, 0))], sp(0, 0))], sp(0, 0)),
            bound("a", "a:9", sp(0, 0)),
        ],
        sp(0, 0),
    );
    let form = list(
        vec![
            keyword("letrec"),
            list(vec![list(vec![bound("b", "b:8", sp(0, 0)), inner], sp(0, 0))], sp(0, 0)),
            bound("b", "b:8", sp(0, 0)),
        ],
        sp(0, 0),
    );
    let Expr::Application(outer, _) = lower(&mut g, form) else {
        panic!("expected an application");
    };
    let Expr::Lambda(outer_lambda, _) = *outer.operand else {
        panic!("expected a lambda");
    };
    let Expr::Application(inner_app, _) = *outer_lambda.body else {
        panic!("expected an application");
    };
    let Expr::Lambda(temps_lambda, _) = *inner_app.operand else {
        panic!("expected a lambda");
    };
    assert_eq!(temps_lambda.args, vec![Symbol::new("temp:2")]);
}
