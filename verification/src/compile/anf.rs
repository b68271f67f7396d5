use vstd::prelude::*;

use super::ident::{Duplicate, ResolvedVar, Symbol};
use super::sexpr::{lemma_view_span, SExpr, SExprView};
use super::span::Span;

verus! {

/// An expression in A-normal form: every operand is a value, and every
/// intermediate result is named by a `let`.
#[derive(PartialEq, Debug)]
pub enum Expr {
    AExpr(AExpr),
    CExpr(CExpr),
    Let(Let, Span),
}

/// An atomic expression: evaluating it does nothing but produce its value.
#[derive(PartialEq, Debug)]
pub enum AExpr {
    Literal(SExpr<Symbol>),
    Var(ResolvedVar, Span),
    Lambda(Lambda, Span),
}

/// A complex expression: its operands are values.
#[derive(PartialEq, Debug)]
pub enum CExpr {
    Application(Application, Span),
    If(If, Span),
    Assign(Assign, Span),
}

/// What a `let` binds its name to.
#[derive(PartialEq, Debug)]
pub enum Rhs {
    AExpr(AExpr),
    CExpr(CExpr),
}

/// A value: a literal or a variable.
#[derive(PartialEq, Debug)]
pub enum Value {
    Literal(SExpr<Symbol>),
    Var(ResolvedVar, Span),
}

/// `(let ((name rhs)) body)`.
#[derive(PartialEq, Debug)]
pub struct Let {
    pub initializer: Box<(Symbol, Rhs)>,
    pub body: Box<Expr>,
}

/// A procedure: its fixed parameters, its rest parameter if any, and its body.
#[derive(PartialEq, Debug)]
pub struct Lambda {
    pub args: Vec<Symbol>,
    pub var_arg: Option<Symbol>,
    pub body: Box<Expr>,
}

/// A call of a value on values.
#[derive(PartialEq, Debug)]
pub struct Application {
    pub operand: Box<Value>,
    pub args: Vec<Value>,
}

/// A conditional on a value.
#[derive(PartialEq, Debug)]
pub struct If {
    pub test: Box<Value>,
    pub conseq: Box<Expr>,
    pub alt: Box<Expr>,
}

/// An assignment of a value to a variable.
#[derive(PartialEq, Debug)]
pub struct Assign {
    pub var: ResolvedVar,
    pub aexpr: Value,
}

/// The view of a variable reference: its written name and its binding, if bound.
pub type VarView = (Seq<char>, Option<Seq<char>>);

/// The mathematical value of a value.
pub enum ValueView {
    Literal(SExprView<Seq<char>>),
    Var(VarView, Span),
}

/// The mathematical value of an expression in A-normal form.
pub enum ExprView {
    AExpr(AExprView),
    CExpr(CExprView),
    Let(Seq<char>, RhsView, Box<ExprView>, Span),
}

/// The mathematical value of an atomic expression.
pub enum AExprView {
    Literal(SExprView<Seq<char>>),
    Var(VarView, Span),
    Lambda(Seq<Seq<char>>, Option<Seq<char>>, Box<ExprView>, Span),
}

/// The mathematical value of a complex expression.
pub enum CExprView {
    Application(ValueView, Seq<ValueView>, Span),
    If(ValueView, Box<ExprView>, Box<ExprView>, Span),
    Assign(VarView, ValueView, Span),
}

/// The mathematical value of what a `let` binds.
pub enum RhsView {
    AExpr(AExprView),
    CExpr(CExprView),
}

pub open spec fn value_view(v: Value) -> ValueView {
    match v {
        Value::Literal(e) => ValueView::Literal(e@),
        Value::Var(r, s) => ValueView::Var(r@, s),
    }
}

pub open spec fn values_view(vs: Seq<Value>) -> Seq<ValueView> {
    vs.map_values(|v: Value| value_view(v))
}

pub open spec fn symbols_view(ss: Seq<Symbol>) -> Seq<Seq<char>> {
    ss.map_values(|s: Symbol| s@)
}

pub open spec fn option_view(o: Option<Symbol>) -> Option<Seq<char>> {
    match o {
        Some(s) => Some(s@),
        None => None,
    }
}

pub open spec fn expr_view(e: Expr) -> ExprView
    decreases e,
{
    match e {
        Expr::AExpr(a) => ExprView::AExpr(aexpr_view(a)),
        Expr::CExpr(c) => ExprView::CExpr(cexpr_view(c)),
        Expr::Let(l, s) => ExprView::Let(l.initializer.0@, rhs_view(l.initializer.1), Box::new(expr_view(*l.body)), s),
    }
}

pub open spec fn aexpr_view(a: AExpr) -> AExprView
    decreases a,
{
    match a {
        AExpr::Literal(e) => AExprView::Literal(e@),
        AExpr::Var(r, s) => AExprView::Var(r@, s),
        AExpr::Lambda(l, s) => AExprView::Lambda(
            symbols_view(l.args@),
            option_view(l.var_arg),
            Box::new(expr_view(*l.body)),
            s,
        ),
    }
}

pub open spec fn cexpr_view(c: CExpr) -> CExprView
    decreases c,
{
    match c {
        CExpr::Application(a, s) => CExprView::Application(value_view(*a.operand), values_view(a.args@), s),
        CExpr::If(i, s) => CExprView::If(value_view(*i.test), Box::new(expr_view(*i.conseq)), Box::new(expr_view(*i.alt)), s),
        CExpr::Assign(st, s) => CExprView::Assign(st.var@, value_view(st.aexpr), s),
    }
}

pub open spec fn rhs_view(r: Rhs) -> RhsView
    decreases r,
{
    match r {
        Rhs::AExpr(a) => RhsView::AExpr(aexpr_view(a)),
        Rhs::CExpr(c) => RhsView::CExpr(cexpr_view(c)),
    }
}

/// The names that the `let`s of an expression bind, in evaluation order,
/// those in procedure bodies and in both branches of conditionals included.
pub open spec fn let_names(e: ExprView) -> Seq<Seq<char>>
    decreases e,
{
    match e {
        ExprView::AExpr(a) => aexpr_let_names(a),
        ExprView::CExpr(c) => cexpr_let_names(c),
        ExprView::Let(name, rhs, body, _) => seq![name] + rhs_let_names(rhs) + let_names(*body),
    }
}

pub open spec fn aexpr_let_names(a: AExprView) -> Seq<Seq<char>>
    decreases a,
{
    match a {
        AExprView::Lambda(_, _, body, _) => let_names(*body),
        _ => Seq::empty(),
    }
}

pub open spec fn cexpr_let_names(c: CExprView) -> Seq<Seq<char>>
    decreases c,
{
    match c {
        CExprView::If(_, conseq, alt, _) => let_names(*conseq) + let_names(*alt),
        _ => Seq::empty(),
    }
}

pub open spec fn rhs_let_names(r: RhsView) -> Seq<Seq<char>>
    decreases r,
{
    match r {
        RhsView::AExpr(a) => aexpr_let_names(a),
        RhsView::CExpr(c) => cexpr_let_names(c),
    }
}

impl View for Expr {
    type V = ExprView;

    open spec fn view(&self) -> ExprView {
        expr_view(*self)
    }
}

/// A procedure's view: its fixed parameters, its rest parameter and its body.
pub type LambdaView = (Seq<Seq<char>>, Option<Seq<char>>, ExprView);

impl View for Lambda {
    type V = LambdaView;

    open spec fn view(&self) -> LambdaView {
        (symbols_view(self.args@), option_view(self.var_arg), self.body@)
    }
}

impl View for Value {
    type V = ValueView;

    open spec fn view(&self) -> ValueView {
        value_view(*self)
    }
}

fn duplicate_symbols(symbols: &Vec<Symbol>) -> (r: Vec<Symbol>)
    ensures
        symbols_view(r@) == symbols_view(symbols@),
{
    let mut out: Vec<Symbol> = Vec::new();
    let mut i: usize = 0;
    while i < symbols.len()
        invariant
            i <= symbols@.len(),
            out@.len() == i,
            forall|j: int| 0 <= j < i ==> (#[trigger] out@[j])@ == symbols@[j]@,
        decreases symbols@.len() - i,
    {
        out.push(symbols[i].duplicate());
        i = i + 1;
    }
    assert(symbols_view(out@) =~= symbols_view(symbols@));
    out
}

fn duplicate_values(values: &Vec<Value>) -> (r: Vec<Value>)
    ensures
        values_view(r@) == values_view(values@),
{
    let mut out: Vec<Value> = Vec::new();
    let mut i: usize = 0;
    while i < values.len()
        invariant
            i <= values@.len(),
            out@.len() == i,
            forall|j: int| 0 <= j < i ==> (#[trigger] out@[j])@ == values@[j]@,
        decreases values@.len() - i,
    {
        out.push(values[i].duplicate());
        i = i + 1;
    }
    assert(values_view(out@) =~= values_view(values@));
    out
}

impl Duplicate for Value {
    fn duplicate(&self) -> (r: Value) {
        match self {
            Value::Literal(e) => Value::Literal(e.duplicate()),
            Value::Var(var, span) => Value::Var(var.duplicate(), *span),
        }
    }
}

impl Lambda {
    /// A copy of the procedure.
    pub fn duplicate(&self) -> (r: Lambda)
        ensures
            r@ == self@,
        decreases self,
    {
        let var_arg = match &self.var_arg {
            Some(s) => Some(s.duplicate()),
            None => None,
        };
        Lambda { args: duplicate_symbols(&self.args), var_arg, body: Box::new(duplicate_expr(&self.body)) }
    }
}

fn duplicate_expr(e: &Expr) -> (r: Expr)
    ensures
        r@ == e@,
    decreases e,
{
    match e {
        Expr::AExpr(a) => Expr::AExpr(duplicate_aexpr(a)),
        Expr::CExpr(c) => Expr::CExpr(duplicate_cexpr(c)),
        Expr::Let(Let { initializer, body }, span) => {
            let rhs = duplicate_rhs(&initializer.1);
            Expr::Let(
                Let { initializer: Box::new((initializer.0.duplicate(), rhs)), body: Box::new(duplicate_expr(body)) },
                *span,
            )
        },
    }
}

fn duplicate_rhs(r: &Rhs) -> (out: Rhs)
    ensures
        rhs_view(out) == rhs_view(*r),
    decreases r,
{
    match r {
        Rhs::AExpr(a) => Rhs::AExpr(duplicate_aexpr(a)),
        Rhs::CExpr(c) => Rhs::CExpr(duplicate_cexpr(c)),
    }
}

fn duplicate_aexpr(a: &AExpr) -> (r: AExpr)
    ensures
        aexpr_view(r) == aexpr_view(*a),
    decreases a,
{
    match a {
        AExpr::Literal(e) => AExpr::Literal(e.duplicate()),
        AExpr::Var(var, span) => AExpr::Var(var.duplicate(), *span),
        AExpr::Lambda(l, span) => AExpr::Lambda(l.duplicate(), *span),
    }
}

fn duplicate_cexpr(c: &CExpr) -> (r: CExpr)
    ensures
        cexpr_view(r) == cexpr_view(*c),
    decreases c,
{
    match c {
        CExpr::Application(Application { operand, args }, span) => CExpr::Application(
            Application { operand: Box::new(operand.duplicate()), args: duplicate_values(args) },
            *span,
        ),
        CExpr::If(If { test, conseq, alt }, span) => CExpr::If(
            If {
                test: Box::new(test.duplicate()),
                conseq: Box::new(duplicate_expr(conseq)),
                alt: Box::new(duplicate_expr(alt)),
            },
            *span,
        ),
        CExpr::Assign(Assign { var, aexpr }, span) => CExpr::Assign(
            Assign { var: var.duplicate(), aexpr: aexpr.duplicate() },
            *span,
        ),
    }
}

impl Duplicate for Expr {
    fn duplicate(&self) -> (r: Expr) {
        duplicate_expr(self)
    }
}

impl ExprView {
    /// The span of the expression's root.
    pub open spec fn span(self) -> Span {
        match self {
            ExprView::AExpr(AExprView::Literal(e)) => e.span(),
            ExprView::AExpr(AExprView::Var(_, s)) => s,
            ExprView::AExpr(AExprView::Lambda(_, _, _, s)) => s,
            ExprView::CExpr(CExprView::Application(_, _, s)) => s,
            ExprView::CExpr(CExprView::If(_, _, _, s)) => s,
            ExprView::CExpr(CExprView::Assign(_, _, s)) => s,
            ExprView::Let(_, _, _, s) => s,
        }
    }
}

impl Expr {
    /// The span of the expression's root.
    pub fn get_span(&self) -> (r: Span)
        ensures
            r == self@.span(),
    {
        proof {
            reveal_with_fuel(expr_view, 2);
        }
        match self {
            Expr::AExpr(AExpr::Literal(sexpr)) => {
                proof {
                    lemma_view_span(*sexpr);
                }
                sexpr.get_span()
            },
            Expr::AExpr(AExpr::Var(_, span)) => *span,
            Expr::AExpr(AExpr::Lambda(_, span)) => *span,
            Expr::CExpr(CExpr::Application(_, span)) => *span,
            Expr::CExpr(CExpr::If(_, span)) => *span,
            Expr::CExpr(CExpr::Assign(_, span)) => *span,
            Expr::Let(_, span) => *span,
        }
    }
}

/// The atomic expression of a value.
pub open spec fn value_aexpr(v: ValueView) -> AExprView {
    match v {
        ValueView::Literal(e) => AExprView::Literal(e),
        ValueView::Var(r, s) => AExprView::Var(r, s),
    }
}

impl From<Value> for AExpr {
    fn from(value: Value) -> (r: AExpr) {
        match value {
            Value::Literal(sexpr) => AExpr::Literal(sexpr),
            Value::Var(resolved, span) => AExpr::Var(resolved, span),
        }
    }
}

impl vstd::std_specs::convert::FromSpecImpl<Value> for AExpr {
    open spec fn obeys_from_spec() -> bool {
        true
    }

    open spec fn from_spec(value: Value) -> AExpr {
        match value {
            Value::Literal(sexpr) => AExpr::Literal(sexpr),
            Value::Var(resolved, span) => AExpr::Var(resolved, span),
        }
    }
}

impl From<Value> for Expr {
    fn from(value: Value) -> (r: Expr) {
        Expr::AExpr(AExpr::from(value))
    }
}

impl vstd::std_specs::convert::FromSpecImpl<Value> for Expr {
    open spec fn obeys_from_spec() -> bool {
        true
    }

    open spec fn from_spec(value: Value) -> Expr {
        match value {
            Value::Literal(sexpr) => Expr::AExpr(AExpr::Literal(sexpr)),
            Value::Var(resolved, span) => Expr::AExpr(AExpr::Var(resolved, span)),
        }
    }
}

} // verus!
