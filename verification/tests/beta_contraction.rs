//! Beta contraction on expressions in A-normal form. Each input is written as
//! A-normalization leaves the source named in the test.

#![allow(dead_code)]

use rrrrr_rs::compile::{
    anf::{AExpr, Application, Assign, CExpr, Expr, If, Lambda, Let, Rhs, Value},
    ident::{ResolvedVar, Symbol},
    pass::beta_contraction::beta_contract,
    sexpr::{Num, SExpr},
    span::Span,
};

fn sp() -> Span {
    Span { lo: 0, hi: 0 }
}

fn num(text: &str) -> SExpr<Symbol> {
    SExpr::Num(Num(text.to_string()), sp())
}

fn bound(binding: &str) -> ResolvedVar {
    let name = binding.split(':').next().unwrap();
    ResolvedVar::Bound { symbol: Symbol::new(name), binding: Symbol::new(binding) }
}

fn free(name: &str) -> ResolvedVar {
    ResolvedVar::Free { symbol: Symbol::new(name) }
}

fn var(binding: &str) -> Value {
    Value::Var(bound(binding), sp())
}

fn free_var(name: &str) -> Value {
    Value::Var(free(name), sp())
}

fn lit(e: SExpr<Symbol>) -> Value {
    Value::Literal(e)
}

fn app(operand: Value, args: Vec<Value>) -> CExpr {
    CExpr::Application(Application { operand: Box::new(operand), args }, sp())
}

fn let_(name: &str, rhs: Rhs, body: Expr) -> Expr {
    Expr::Let(Let { initializer: Box::new((Symbol::new(name), rhs)), body: Box::new(body) }, sp())
}

fn rhs_lit(e: SExpr<Symbol>) -> Rhs {
    Rhs::AExpr(AExpr::Literal(e))
}

fn rhs_var(binding: &str) -> Rhs {
    Rhs::AExpr(AExpr::Var(bound(binding), sp()))
}

fn lambda(args: &[&str], body: Expr) -> AExpr {
    AExpr::Lambda(
        Lambda { args: args.iter().map(|a| Symbol::new(a)).collect(), var_arg: None, body: Box::new(body) },
        sp(),
    )
}

fn set(binding: &str, value: Value) -> CExpr {
    CExpr::Assign(Assign { var: bound(binding), aexpr: value }, sp())
}

fn var_expr(binding: &str) -> Expr {
    Expr::AExpr(AExpr::Var(bound(binding), sp()))
}

fn num_expr(text: &str) -> Expr {
    Expr::AExpr(AExpr::Literal(num(text)))
}

fn call(operand: Value, args: Vec<Value>) -> Expr {
    Expr::CExpr(app(operand, args))
}

fn plus(a: Value, b: Value) -> Expr {
    call(free_var("+"), vec![a, b])
}

/// `((λ params body) args..)` as A-normalization names it.
fn applied(name: &str, params: &[&str], body: Expr, args: Vec<Value>) -> Expr {
    let_(name, Rhs::AExpr(lambda(params, body)), call(var(name), args))
}

#[test]
fn test_no_contraction() {
    let input = call(free_var("f"), vec![lit(num("1"))]);
    assert_eq!(beta_contract(input).unwrap().display(), "(f:free 1)");
}

#[test]
fn test_zero_arg_contraction() {
    let input = applied("anf:1", &[], num_expr("42"), vec![]);
    assert_eq!(beta_contract(input).unwrap().display(), "42");
}

#[test]
fn test_single_arg_contraction() {
    let input = applied("anf:2", &["x:1"], plus(var("x:1"), lit(num("1"))), vec![lit(num("1"))]);
    assert_eq!(beta_contract(input).unwrap().display(), "(let ((x:1 1))\n  (+:free x:1 1))");
}

#[test]
fn test_multi_arg_contraction() {
    let input = applied("anf:3", &["x:1", "y:2"], plus(var("x:1"), var("y:2")), vec![lit(num("1")), lit(num("2"))]);
    assert_eq!(
        beta_contract(input).unwrap().display(),
        "(let ((x:1 1))\n  (let ((y:2 2))\n    (+:free x:1 y:2)))"
    );
}

#[test]
fn test_nested_contraction() {
    let inner = applied("anf:3", &["y:2"], plus(var("x:1"), var("y:2")), vec![lit(num("2"))]);
    let input = applied("anf:4", &["x:1"], inner, vec![lit(num("1"))]);
    assert_eq!(
        beta_contract(input).unwrap().display(),
        "(let ((x:1 1))\n  (let ((y:2 2))\n    (+:free x:1 y:2)))"
    );
}

#[test]
fn beta_contraction_test_let_form() {
    let input = applied("anf:10", &["x:8", "y:9"], plus(var("x:8"), var("y:9")), vec![lit(num("1")), lit(num("2"))]);
    assert_eq!(
        beta_contract(input).unwrap().display(),
        "(let ((x:8 1))\n  (let ((y:9 2))\n    (+:free x:8 y:9)))"
    );
}

#[test]
fn contraction_arity_mismatch_is_an_error() {
    let input = applied("anf:2", &["x:1", "y:2"], var_expr("x:1"), vec![lit(num("1"))]);
    let err = beta_contract(input).unwrap_err();
    assert_eq!(err.reason, "Invalid application: expected 2 arguments, but got 1");
}

#[test]
fn assigned_procedure_is_not_contracted() {
    let input = let_(
        "f:1",
        Rhs::AExpr(lambda(&[], num_expr("7"))),
        let_("anf:2", Rhs::CExpr(set("f:1", lit(num("0")))), call(var("f:1"), vec![])),
    );
    assert_eq!(
        beta_contract(input).unwrap().display(),
        "(let ((f:1\n       (λ () 7)))\n  (let ((anf:2 (set! f:1 0)))\n    (f:1)))"
    );
}
