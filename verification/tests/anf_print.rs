use rrrrr_rs::compile::{
    anf::{AExpr, Application, Assign, CExpr, Expr, If, Lambda, Let, Rhs, Value},
    ident::{ResolvedVar, Symbol},
    sexpr::{Bool, Num, SExpr},
    span::Span,
};

fn sp() -> Span {
    Span { lo: 0, hi: 0 }
}

fn num(text: &str) -> SExpr<Symbol> {
    SExpr::Num(Num(text.to_string()), sp())
}

fn bound(name: &str, binding: &str) -> ResolvedVar {
    ResolvedVar::Bound { symbol: Symbol::new(name), binding: Symbol::new(binding) }
}

fn free(name: &str) -> ResolvedVar {
    ResolvedVar::Free { symbol: Symbol::new(name) }
}

fn var_expr(v: ResolvedVar) -> Expr {
    Expr::AExpr(AExpr::Var(v, sp()))
}

fn let_expr(name: &str, rhs: Rhs, body: Expr) -> Expr {
    Expr::Let(Let { initializer: Box::new((Symbol::new(name), rhs)), body: Box::new(body) }, sp())
}

fn lambda(args: &[&str], var_arg: Option<&str>, body: Expr) -> AExpr {
    AExpr::Lambda(
        Lambda {
            args: args.iter().map(|a| Symbol::new(a)).collect(),
            var_arg: var_arg.map(Symbol::new),
            body: Box::new(body),
        },
        sp(),
    )
}

fn simple_let() -> Expr {
    let_expr("x:1", Rhs::AExpr(AExpr::Literal(num("1"))), var_expr(bound("x", "x:1")))
}

#[test]
fn display_literal() {
    assert_eq!(Expr::AExpr(AExpr::Literal(num("42"))).display(), "42");
}

#[test]
fn display_quoted_symbol_and_nil() {
    assert_eq!(Expr::AExpr(AExpr::Literal(SExpr::Var(Symbol::new("x"), sp()))).display(), "'x");
    assert_eq!(Expr::AExpr(AExpr::Literal(SExpr::Nil(sp()))).display(), "'()");
}

#[test]
fn display_variables() {
    assert_eq!(var_expr(free("x")).display(), "x:free");
    assert_eq!(var_expr(bound("x", "x:1")).display(), "x:1");
}

#[test]
fn display_let() {
    assert_eq!(simple_let().display(), "(let ((x:1 1))\n  x:1)");
}

#[test]
fn display_lambda_on_one_line() {
    let body = Expr::CExpr(CExpr::Application(
        Application {
            operand: Box::new(Value::Var(free("f"), sp())),
            args: vec![Value::Var(bound("a", "a:1"), sp()), Value::Var(bound("b", "b:2"), sp())],
        },
        sp(),
    ));
    let e = Expr::AExpr(lambda(&["a:1", "b:2"], None, body));
    assert_eq!(e.display(), "(λ (a:1 b:2) (f:free a:1 b:2))");
}

#[test]
fn display_lambda_parameters() {
    let e = Expr::AExpr(lambda(&[], Some("args:1"), var_expr(bound("args", "args:1"))));
    assert_eq!(e.display(), "(λ args:1 args:1)");
    let e = Expr::AExpr(lambda(&["a:1"], Some("r:2"), var_expr(bound("a", "a:1"))));
    assert_eq!(e.display(), "(λ (a:1 . r:2) a:1)");
    let e = Expr::AExpr(lambda(&[], None, Expr::AExpr(AExpr::Literal(num("0")))));
    assert_eq!(e.display(), "(λ () 0)");
}

#[test]
fn display_lambda_with_multiline_body() {
    let e = Expr::AExpr(lambda(&[], None, simple_let()));
    assert_eq!(e.display(), "(λ ()\n  (let ((x:1 1))\n    x:1))");
}

#[test]
fn display_if_on_one_line() {
    let e = Expr::CExpr(CExpr::If(
        If {
            test: Box::new(Value::Literal(SExpr::Bool(Bool(true), sp()))),
            conseq: Box::new(Expr::AExpr(AExpr::Literal(num("1")))),
            alt: Box::new(Expr::AExpr(AExpr::Literal(num("2")))),
        },
        sp(),
    ));
    assert_eq!(e.display(), "(if #t 1 2)");
}

#[test]
fn display_if_over_several_lines() {
    let e = Expr::CExpr(CExpr::If(
        If {
            test: Box::new(Value::Literal(SExpr::Bool(Bool(true), sp()))),
            conseq: Box::new(simple_let()),
            alt: Box::new(Expr::AExpr(AExpr::Literal(num("2")))),
        },
        sp(),
    ));
    assert_eq!(e.display(), "(if #t\n    (let ((x:1 1))\n      x:1)\n    2)");
}

#[test]
fn display_set() {
    let e = Expr::CExpr(CExpr::Assign(Assign { var: bound("x", "x:1"), aexpr: Value::Literal(num("2")) }, sp()));
    assert_eq!(e.display(), "(set! x:1 2)");
}

#[test]
fn display_let_of_a_lambda() {
    let f = lambda(&["x:2"], None, var_expr(bound("x", "x:2")));
    let call = Expr::CExpr(CExpr::Application(
        Application { operand: Box::new(Value::Var(bound("f", "f:1"), sp())), args: vec![Value::Literal(num("1"))] },
        sp(),
    ));
    let e = let_expr("f:1", Rhs::AExpr(f), call);
    assert_eq!(e.display(), "(let ((f:1\n       (λ (x:2) x:2)))\n  (f:1 1))");
}
