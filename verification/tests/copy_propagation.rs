//! Copy propagation on expressions in A-normal form. Each input is written as
//! beta reduction leaves it.

#![allow(dead_code)]

use rrrrr_rs::compile::{
    anf::{AExpr, Application, Assign, CExpr, Expr, Lambda, Let, Rhs, Value},
    ident::{ResolvedVar, Symbol},
    pass::copy_propagation::propagate_copies,
    sexpr::{Num, SExpr},
    span::Span,
};

fn sp() -> Span {
    Span { lo: 0, hi: 0 }
}

fn num(text: &str) -> SExpr<Symbol> {
    SExpr::Num(Num(text.to_string()), sp())
}

fn bound(binding: &str) -> ResolvedVar {
    let name = binding.split(':').next().unwrap();
    ResolvedVar::Bound { symbol: Symbol::new(name), binding: Symbol::new(binding) }
}

fn free(name: &str) -> ResolvedVar {
    ResolvedVar::Free { symbol: Symbol::new(name) }
}

fn var(binding: &str) -> Value {
    Value::Var(bound(binding), sp())
}

fn free_var(name: &str) -> Value {
    Value::Var(free(name), sp())
}

fn lit(e: SExpr<Symbol>) -> Value {
    Value::Literal(e)
}

fn app(operand: Value, args: Vec<Value>) -> CExpr {
    CExpr::Application(Application { operand: Box::new(operand), args }, sp())
}

fn let_(name: &str, rhs: Rhs, body: Expr) -> Expr {
    Expr::Let(Let { initializer: Box::new((Symbol::new(name), rhs)), body: Box::new(body) }, sp())
}

fn rhs_lit(e: SExpr<Symbol>) -> Rhs {
    Rhs::AExpr(AExpr::Literal(e))
}

fn rhs_var(binding: &str) -> Rhs {
    Rhs::AExpr(AExpr::Var(bound(binding), sp()))
}

fn lambda(args: &[&str], body: Expr) -> AExpr {
    AExpr::Lambda(
        Lambda { args: args.iter().map(|a| Symbol::new(a)).collect(), var_arg: None, body: Box::new(body) },
        sp(),
    )
}

fn set(binding: &str, value: Value) -> CExpr {
    CExpr::Assign(Assign { var: bound(binding), aexpr: value }, sp())
}

fn var_expr(binding: &str) -> Expr {
    Expr::AExpr(AExpr::Var(bound(binding), sp()))
}

#[test]
fn copy_propagation_test_no_propagation() {
    let input = Expr::CExpr(app(free_var("f"), vec![lit(num("1"))]));
    assert_eq!(propagate_copies(input).display(), "(f:free 1)");
}

#[test]
fn test_literal_rhs_not_propagated() {
    let input = let_("x:1", rhs_lit(num("1")), var_expr("x:1"));
    assert_eq!(propagate_copies(input).display(), "(let ((x:1 1))\n  x:1)");
}

#[test]
fn test_simple_copy_eliminated() {
    let input = let_("y:8", rhs_lit(num("10")), let_("x:9", rhs_var("y:8"), var_expr("x:9")));
    assert_eq!(propagate_copies(input).display(), "(let ((y:8 10))\n  (let ((x:9 y:8))\n    y:8))");
}

#[test]
fn test_copy_propagated_into_body() {
    let input = let_(
        "y:8",
        rhs_lit(num("10")),
        let_("x:9", rhs_var("y:8"), Expr::CExpr(app(free_var("+"), vec![var("x:9"), lit(num("1"))]))),
    );
    assert_eq!(
        propagate_copies(input).display(),
        "(let ((y:8 10))\n  (let ((x:9 y:8))\n    (+:free y:8 1)))"
    );
}

#[test]
fn test_copy_propagated_to_multiple_uses() {
    let input = let_(
        "y:8",
        rhs_lit(num("10")),
        let_("x:9", rhs_var("y:8"), Expr::CExpr(app(free_var("+"), vec![var("x:9"), var("x:9")]))),
    );
    assert_eq!(
        propagate_copies(input).display(),
        "(let ((y:8 10))\n  (let ((x:9 y:8))\n    (+:free y:8 y:8)))"
    );
}

#[test]
fn test_multi_arg_copies_propagated() {
    let input = let_(
        "a:8",
        rhs_lit(num("1")),
        let_(
            "b:9",
            rhs_lit(num("2")),
            let_(
                "x:10",
                rhs_var("a:8"),
                let_("y:11", rhs_var("b:9"), Expr::CExpr(app(free_var("+"), vec![var("x:10"), var("y:11")]))),
            ),
        ),
    );
    assert_eq!(
        propagate_copies(input).display(),
        "(let ((a:8 1))\n  (let ((b:9 2))\n    (let ((x:10 a:8))\n      (let ((y:11 b:9))\n        (+:free a:8 b:9)))))"
    );
}

#[test]
fn test_mutated_binding_preserved() {
    let input = let_(
        "y:8",
        rhs_lit(num("10")),
        let_("x:9", rhs_var("y:8"), let_("anf:10", Rhs::CExpr(set("x:9", lit(num("5")))), var_expr("x:9"))),
    );
    assert_eq!(
        propagate_copies(input).display(),
        "(let ((y:8 10))\n  (let ((x:9 y:8))\n    (let ((anf:10 (set! x:9 5)))\n      x:9)))"
    );
}

#[test]
fn copy_of_an_assigned_binding_is_kept() {
    let input = let_(
        "x:1",
        rhs_var("y:0"),
        let_("anf:2", Rhs::CExpr(set("y:0", lit(num("5")))), var_expr("x:1")),
    );
    assert_eq!(
        propagate_copies(input).display(),
        "(let ((x:1 y:0))\n  (let ((anf:2 (set! y:0 5)))\n    x:1))"
    );
}

#[test]
fn chained_copies_reach_the_original() {
    let input = let_("a:1", rhs_var("z:0"), let_("b:2", rhs_var("a:1"), var_expr("b:2")));
    assert_eq!(
        propagate_copies(input).display(),
        "(let ((a:1 z:0))\n  (let ((b:2 z:0))\n    z:0))"
    );
}

#[test]
fn copies_reach_into_lambda_bodies_and_branches() {
    let body = Expr::CExpr(CExpr::If(
        rrrrr_rs::compile::anf::If {
            test: Box::new(var("x:1")),
            conseq: Box::new(var_expr("x:1")),
            alt: Box::new(Expr::AExpr(lambda(&[], var_expr("x:1")))),
        },
        sp(),
    ));
    let input = let_("x:1", rhs_var("y:0"), body);
    assert_eq!(
        propagate_copies(input).display(),
        "(let ((x:1 y:0))\n  (if y:0\n      y:0\n      (λ () y:0)))"
    );
}
