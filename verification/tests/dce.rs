//! Dead code elimination on expressions in A-normal form. Each input is
//! written as beta reduction leaves it.

#![allow(dead_code)]

use rrrrr_rs::compile::{
    anf::{AExpr, Application, Assign, CExpr, Expr, If, Lambda, Let, Rhs, Value},
    ident::{ResolvedVar, Symbol},
    pass::dce::dce,
    sexpr::{Bool, Num, SExpr},
    span::Span,
};

fn sp() -> Span {
    Span { lo: 0, hi: 0 }
}

fn num(text: &str) -> SExpr<Symbol> {
    SExpr::Num(Num(text.to_string()), sp())
}

fn bound(binding: &str) -> ResolvedVar {
    let name = binding.split(':').next().unwrap();
    ResolvedVar::Bound { symbol: Symbol::new(name), binding: Symbol::new(binding) }
}

fn free(name: &str) -> ResolvedVar {
    ResolvedVar::Free { symbol: Symbol::new(name) }
}

fn var(binding: &str) -> Value {
    Value::Var(bound(binding), sp())
}

fn free_var(name: &str) -> Value {
    Value::Var(free(name), sp())
}

fn lit(e: SExpr<Symbol>) -> Value {
    Value::Literal(e)
}

fn app(operand: Value, args: Vec<Value>) -> CExpr {
    CExpr::Application(Application { operand: Box::new(operand), args }, sp())
}

fn let_(name: &str, rhs: Rhs, body: Expr) -> Expr {
    Expr::Let(Let { initializer: Box::new((Symbol::new(name), rhs)), body: Box::new(body) }, sp())
}

fn rhs_lit(e: SExpr<Symbol>) -> Rhs {
    Rhs::AExpr(AExpr::Literal(e))
}

fn rhs_var(binding: &str) -> Rhs {
    Rhs::AExpr(AExpr::Var(bound(binding), sp()))
}

fn lambda(args: &[&str], body: Expr) -> AExpr {
    AExpr::Lambda(
        Lambda { args: args.iter().map(|a| Symbol::new(a)).collect(), var_arg: None, body: Box::new(body) },
        sp(),
    )
}

fn set(binding: &str, value: Value) -> CExpr {
    CExpr::Assign(Assign { var: bound(binding), aexpr: value }, sp())
}

fn var_expr(binding: &str) -> Expr {
    Expr::AExpr(AExpr::Var(bound(binding), sp()))
}

fn num_expr(text: &str) -> Expr {
    Expr::AExpr(AExpr::Literal(num(text)))
}

fn boolean(b: bool) -> SExpr<Symbol> {
    SExpr::Bool(Bool(b), sp())
}

fn if_(test: Value, conseq: Expr, alt: Expr) -> CExpr {
    CExpr::If(If { test: Box::new(test), conseq: Box::new(conseq), alt: Box::new(alt) }, sp())
}

#[test]
fn test_no_elimination() {
    let input = Expr::CExpr(app(free_var("f"), vec![lit(num("1"))]));
    assert_eq!(dce(input).display(), "(f:free 1)");
}

#[test]
fn test_dead_pure_binding() {
    let input = let_("anf:1", Rhs::AExpr(lambda(&[], num_expr("42"))), num_expr("42"));
    assert_eq!(dce(input).display(), "42");
}

#[test]
fn test_dead_binding_after_reduction() {
    let add = Expr::CExpr(app(free_var("+"), vec![var("x:1"), lit(num("1"))]));
    let input = let_(
        "anf:2",
        Rhs::AExpr(lambda(&["x:1"], Expr::CExpr(app(free_var("+"), vec![var("x:1"), lit(num("1"))])))),
        let_("x:1", rhs_lit(num("1")), add),
    );
    assert_eq!(dce(input).display(), "(let ((x:1 1))\n  (+:free x:1 1))");
}

#[test]
fn test_nested_dead_bindings() {
    let add = || Expr::CExpr(app(free_var("+"), vec![var("x:1"), var("y:2")]));
    let inner = let_("anf:3", Rhs::AExpr(lambda(&["y:2"], add())), let_("y:2", rhs_lit(num("2")), add()));
    let input = let_(
        "anf:4",
        Rhs::AExpr(lambda(&["x:1"], num_expr("0"))),
        let_("x:1", rhs_lit(num("1")), inner),
    );
    assert_eq!(dce(input).display(), "(let ((x:1 1))\n  (let ((y:2 2))\n    (+:free x:1 y:2)))");
}

#[test]
fn test_side_effectful_binding_preserved() {
    let input = let_(
        "anf:2",
        Rhs::AExpr(lambda(&["x:1"], num_expr("42"))),
        let_(
            "anf:3",
            Rhs::CExpr(app(free_var("f"), vec![lit(num("1"))])),
            let_("x:1", rhs_var("anf:3"), num_expr("42")),
        ),
    );
    assert_eq!(dce(input).display(), "(let ((anf:3 (f:free 1)))\n  42)");
}

#[test]
fn test_cascading_through_dead_lambda() {
    let input = let_(
        "anf:4",
        Rhs::AExpr(lambda(&[], num_expr("1"))),
        let_("x:1", rhs_var("anf:4"), let_("y:2", rhs_var("x:1"), num_expr("2"))),
    );
    assert_eq!(dce(input).display(), "2");
}

#[test]
fn test_live_conditional_initializer_is_folded() {
    let conseq = let_(
        "anf:4",
        Rhs::AExpr(lambda(&["x:3"], num_expr("1"))),
        let_("x:3", rhs_lit(num("2")), num_expr("1")),
    );
    let input = let_(
        "anf:5",
        Rhs::CExpr(if_(lit(boolean(true)), conseq, num_expr("3"))),
        let_("f:1", rhs_var("anf:5"), var_expr("f:1")),
    );
    assert_eq!(dce(input).display(), "(let ((anf:5 (if #t 1 3)))\n  (let ((f:1 anf:5))\n    f:1))");
}

#[test]
fn test_if_branch_is_eliminated() {
    let body = || Expr::CExpr(if_(lit(num("1")), Expr::CExpr(if_(lit(boolean(false)), num_expr("0"), num_expr("1"))), Expr::AExpr(AExpr::Literal(SExpr::Void(sp())))));
    let input = let_("anf:1", Rhs::AExpr(lambda(&[], body())), body());
    assert_eq!(dce(input).display(), "1");
}

#[test]
fn test_if_branch_elimination_truthy_values() {
    let input = Expr::CExpr(if_(lit(SExpr::Nil(sp())), num_expr("1"), num_expr("2")));
    assert_eq!(dce(input).display(), "1");
}

#[test]
fn dead_branch_uses_are_forgotten() {
    let input = let_(
        "y:1",
        rhs_lit(num("5")),
        Expr::CExpr(if_(lit(boolean(false)), var_expr("y:1"), num_expr("0"))),
    );
    assert_eq!(dce(input).display(), "0");
}

#[test]
fn assignment_keeps_its_binding_alive() {
    let input = let_(
        "x:1",
        rhs_lit(num("1")),
        let_("anf:2", Rhs::CExpr(set("x:1", lit(num("2")))), num_expr("0")),
    );
    assert_eq!(dce(input).display(), "(let ((x:1 1))\n  (let ((anf:2 (set! x:1 2)))\n    0))");
}

#[test]
fn test_variable_is_kept() {
    let input = Expr::CExpr(if_(var("t:0"), num_expr("1"), num_expr("2")));
    assert_eq!(dce(input).display(), "(if t:0 1 2)");
}
