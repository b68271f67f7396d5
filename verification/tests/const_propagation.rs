//! Constant propagation on expressions in A-normal form. Each input is written
//! as beta contraction and dead code elimination leave it.

#![allow(dead_code)]

use rrrrr_rs::compile::{
    anf::{AExpr, Application, Assign, CExpr, Expr, If, Lambda, Let, Rhs, Value},
    ident::{ResolvedVar, Symbol},
    pass::const_propagation::propagate_consts,
    sexpr::{Cons, Num, SExpr, Str},
    span::Span,
};

fn sp() -> Span {
    Span { lo: 0, hi: 0 }
}

fn num(text: &str) -> SExpr<Symbol> {
    SExpr::Num(Num(text.to_string()), sp())
}

fn bound(binding: &str) -> ResolvedVar {
    let name = binding.split(':').next().unwrap();
    ResolvedVar::Bound { symbol: Symbol::new(name), binding: Symbol::new(binding) }
}

fn free(name: &str) -> ResolvedVar {
    ResolvedVar::Free { symbol: Symbol::new(name) }
}

fn var(binding: &str) -> Value {
    Value::Var(bound(binding), sp())
}

fn free_var(name: &str) -> Value {
    Value::Var(free(name), sp())
}

fn lit(e: SExpr<Symbol>) -> Value {
    Value::Literal(e)
}

fn app(operand: Value, args: Vec<Value>) -> CExpr {
    CExpr::Application(Application { operand: Box::new(operand), args }, sp())
}

fn let_(name: &str, rhs: Rhs, body: Expr) -> Expr {
    Expr::Let(Let { initializer: Box::new((Symbol::new(name), rhs)), body: Box::new(body) }, sp())
}

fn rhs_lit(e: SExpr<Symbol>) -> Rhs {
    Rhs::AExpr(AExpr::Literal(e))
}

fn rhs_var(binding: &str) -> Rhs {
    Rhs::AExpr(AExpr::Var(bound(binding), sp()))
}

fn lambda(args: &[&str], body: Expr) -> AExpr {
    AExpr::Lambda(
        Lambda { args: args.iter().map(|a| Symbol::new(a)).collect(), var_arg: None, body: Box::new(body) },
        sp(),
    )
}

fn set(binding: &str, value: Value) -> CExpr {
    CExpr::Assign(Assign { var: bound(binding), aexpr: value }, sp())
}

fn var_expr(binding: &str) -> Expr {
    Expr::AExpr(AExpr::Var(bound(binding), sp()))
}

fn list12() -> SExpr<Symbol> {
    SExpr::Cons(
        Cons::new(num("1"), SExpr::Cons(Cons::new(num("2"), SExpr::Nil(sp())), sp())),
        sp(),
    )
}

fn hi() -> SExpr<Symbol> {
    SExpr::Str(Str("hi".to_string()), sp())
}

fn call(f: &str, args: Vec<Value>) -> Expr {
    Expr::CExpr(app(free_var(f), args))
}

#[test]
fn const_propagation_test_no_propagation() {
    assert_eq!(propagate_consts(call("f", vec![lit(num("1"))])).display(), "(f:free 1)");
}

#[test]
fn test_atomic_literal_propagated_into_body() {
    let input = let_("y:8", rhs_lit(num("10")), let_("x:9", rhs_var("y:8"), call("+", vec![var("x:9"), lit(num("1"))])));
    assert_eq!(
        propagate_consts(input).display(),
        "(let ((y:8 10))\n  (let ((x:9 10))\n    (+:free 10 1)))"
    );
}

#[test]
fn test_atomic_literal_propagated_to_multiple_uses() {
    let input = let_("y:8", rhs_lit(num("10")), let_("x:9", rhs_var("y:8"), call("+", vec![var("x:9"), var("x:9")])));
    assert_eq!(
        propagate_consts(input).display(),
        "(let ((y:8 10))\n  (let ((x:9 10))\n    (+:free 10 10)))"
    );
}

#[test]
fn test_compound_literal_single_use_propagated() {
    let input = let_("p:8", rhs_lit(list12()), let_("x:9", rhs_var("p:8"), call("car", vec![var("x:9")])));
    assert_eq!(
        propagate_consts(input).display(),
        "(let ((p:8 '(1 2)))\n  (let ((x:9 '(1 2)))\n    (car:free '(1 2))))"
    );
}

#[test]
fn test_compound_literal_multiple_uses_not_propagated() {
    let input = let_("p:8", rhs_lit(list12()), let_("x:9", rhs_var("p:8"), call("cons", vec![var("x:9"), var("x:9")])));
    assert_eq!(
        propagate_consts(input).display(),
        "(let ((p:8 '(1 2)))\n  (let ((x:9 '(1 2)))\n    (cons:free x:9 x:9)))"
    );
}

#[test]
fn test_string_literal_multiple_uses_not_propagated() {
    let input = let_("s:8", rhs_lit(hi()), let_("x:9", rhs_var("s:8"), call("cons", vec![var("x:9"), var("x:9")])));
    assert_eq!(
        propagate_consts(input).display(),
        "(let ((s:8 \"hi\"))\n  (let ((x:9 \"hi\"))\n    (cons:free x:9 x:9)))"
    );
}

#[test]
fn test_string_literal_single_use_propagated() {
    let input = let_("s:8", rhs_lit(hi()), let_("x:9", rhs_var("s:8"), call("car", vec![var("x:9")])));
    assert_eq!(
        propagate_consts(input).display(),
        "(let ((s:8 \"hi\"))\n  (let ((x:9 \"hi\"))\n    (car:free \"hi\")))"
    );
}

#[test]
fn test_mutated_binding_not_propagated() {
    let input = let_(
        "y:8",
        rhs_lit(num("10")),
        let_("x:9", rhs_var("y:8"), let_("anf:10", Rhs::CExpr(set("x:9", lit(num("5")))), var_expr("x:9"))),
    );
    assert_eq!(
        propagate_consts(input).display(),
        "(let ((y:8 10))\n  (let ((x:9 10))\n    (let ((anf:10 (set! x:9 5)))\n      x:9)))"
    );
}

#[test]
fn test_propagation_through_if() {
    let body = Expr::CExpr(CExpr::If(
        If { test: Box::new(var("x:9")), conseq: Box::new(var_expr("x:9")), alt: Box::new(var_expr("x:9")) },
        sp(),
    ));
    let input = let_("y:8", rhs_lit(num("10")), let_("x:9", rhs_var("y:8"), body));
    assert_eq!(
        propagate_consts(input).display(),
        "(let ((y:8 10))\n  (let ((x:9 10))\n    (if 10 10 10)))"
    );
}

#[test]
fn test_propagation_into_lambda_body() {
    let input = let_("y:8", rhs_lit(num("10")), Expr::AExpr(lambda(&[], var_expr("y:8"))));
    assert_eq!(propagate_consts(input).display(), "(let ((y:8 10))\n  (λ () 10))");
}

#[test]
fn assigned_value_is_propagated_but_target_kept() {
    let input = let_(
        "y:1",
        rhs_lit(num("3")),
        let_("z:2", rhs_lit(num("4")), Expr::CExpr(CExpr::Assign(Assign { var: bound("z:2"), aexpr: var("y:1") }, sp()))),
    );
    assert_eq!(propagate_consts(input).display(), "(let ((y:1 3))\n  (let ((z:2 4))\n    (set! z:2 3)))");
}

#[test]
fn unused_compound_literal_is_not_recorded() {
    let input = let_("p:1", rhs_lit(list12()), call("f", vec![]));
    assert_eq!(propagate_consts(input).display(), "(let ((p:1 '(1 2)))\n  (f:free))");
}
