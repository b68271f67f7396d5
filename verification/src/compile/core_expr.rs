use vstd::prelude::*;

use super::anf::{option_view, symbols_view, VarView};
use super::ident::{ResolvedVar, Symbol};
use super::sexpr::{SExpr, SExprView};
use super::span::Span;

verus! {

/// An expression of the core language that the front end lowers programs to.
#[derive(PartialEq, Debug)]
pub enum Expr {
    Literal(SExpr<Symbol>),
    Var(ResolvedVar, Span),
    Lambda(Lambda, Span),
    Application(Application, Span),
    If(If, Span),
    Assign(Assign, Span),
    Begin(Begin, Span),
}

/// A procedure: its fixed parameters, its rest parameter if any, and its body.
#[derive(PartialEq, Debug)]
pub struct Lambda {
    pub args: Vec<Symbol>,
    pub var_arg: Option<Symbol>,
    pub body: Box<Expr>,
}

/// A call.
#[derive(PartialEq, Debug)]
pub struct Application {
    pub operand: Box<Expr>,
    pub args: Vec<Expr>,
}

/// A conditional.
#[derive(PartialEq, Debug)]
pub struct If {
    pub test: Box<Expr>,
    pub conseq: Box<Expr>,
    pub alt: Box<Expr>,
}

/// An assignment.
#[derive(PartialEq, Debug)]
pub struct Assign {
    pub var: ResolvedVar,
    pub expr: Box<Expr>,
}

/// A sequence of expressions, evaluated in order; the last gives the value.
#[derive(PartialEq, Debug)]
pub struct Begin {
    pub body: Vec<Expr>,
}

/// The mathematical value of a core expression.
pub enum CoreView {
    Literal(SExprView<Seq<char>>),
    Var(VarView, Span),
    Lambda(Seq<Seq<char>>, Option<Seq<char>>, Box<CoreView>, Span),
    Application(Box<CoreView>, Seq<CoreView>, Span),
    If(Box<CoreView>, Box<CoreView>, Box<CoreView>, Span),
    Assign(VarView, Box<CoreView>, Span),
    Begin(Seq<CoreView>, Span),
}

pub open spec fn core_view(e: Expr) -> CoreView
    decreases e,
{
    match e {
        Expr::Literal(d) => CoreView::Literal(d@),
        Expr::Var(r, s) => CoreView::Var(r@, s),
        Expr::Lambda(l, s) => CoreView::Lambda(symbols_view(l.args@), option_view(l.var_arg), Box::new(core_view(*l.body)), s),
        Expr::Application(a, s) => CoreView::Application(
            Box::new(core_view(*a.operand)),
            Seq::new(a.args.len() as nat, |i: int| if 0 <= i < a.args.len() { core_view(a.args[i]) } else { CoreView::Begin(Seq::empty(), s) }),
            s,
        ),
        Expr::If(i, s) => CoreView::If(
            Box::new(core_view(*i.test)),
            Box::new(core_view(*i.conseq)),
            Box::new(core_view(*i.alt)),
            s,
        ),
        Expr::Assign(st, s) => CoreView::Assign(st.var@, Box::new(core_view(*st.expr)), s),
        Expr::Begin(b, s) => CoreView::Begin(
            Seq::new(b.body.len() as nat, |i: int| if 0 <= i < b.body.len() { core_view(b.body[i]) } else { CoreView::Begin(Seq::empty(), s) }),
            s,
        ),
    }
}

impl View for Expr {
    type V = CoreView;

    open spec fn view(&self) -> CoreView {
        core_view(*self)
    }
}

/// Every `begin` in the expression has at least one expression in its body.
pub open spec fn well_formed(e: CoreView) -> bool
    decreases e,
{
    match e {
        CoreView::Lambda(_, _, body, _) => well_formed(*body),
        CoreView::Application(op, args, _) => well_formed(*op) && forall|i: int|
            0 <= i < args.len() ==> well_formed(#[trigger] args[i]),
        CoreView::If(t, c, a, _) => well_formed(*t) && well_formed(*c) && well_formed(*a),
        CoreView::Assign(_, x, _) => well_formed(*x),
        CoreView::Begin(body, _) => body.len() > 0 && forall|i: int| 0 <= i < body.len() ==> well_formed(#[trigger] body[i]),
        _ => true,
    }
}

} // verus!
