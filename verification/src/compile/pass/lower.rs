use vstd::prelude::*;

use crate::compile::anf::{option_view, symbols_view, VarView};
use crate::compile::core_expr::{core_view, Application, Assign, Begin, CoreView, Expr, If, Lambda};
use crate::compile::gensym::{fresh_text, GenSym};
use crate::compile::ident::{Duplicate, ResolvedSymbol, ResolvedVar, ResolvedView, Symbol};
use crate::compile::sexpr::{lemma_vars_mapped_view, map_vars_view, sexpr_view, Cons, SExpr, SExprView};
use crate::compile::span::Span;

verus! {

/// A fully expanded form whose identifiers are resolved.
pub type RForm = SExprView<ResolvedView>;

/// The name of a resolved symbol as it was written.
pub open spec fn source_name(r: ResolvedView) -> Seq<char> {
    match r {
        ResolvedView::Bound(s, _) => s,
        ResolvedView::Free(s) => s,
        ResolvedView::Literal(s) => s,
    }
}

/// The variable a resolved symbol stands for: its name and, when bound, its binding.
pub open spec fn var_of(r: ResolvedView) -> VarView {
    match r {
        ResolvedView::Bound(s, b) => (s, Some(b)),
        ResolvedView::Free(s) => (s, None),
        ResolvedView::Literal(s) => (s, None),
    }
}

/// Whether `e` is an identifier bound to a binding.
pub open spec fn is_bound(e: RForm) -> bool {
    e matches SExprView::Var(ResolvedView::Bound(..), _)
}

/// The binding of a bound identifier.
pub open spec fn binding_of(e: RForm) -> Seq<char> {
    match e {
        SExprView::Var(ResolvedView::Bound(_, b), _) => b,
        _ => Seq::empty(),
    }
}

/// The value of a quoted form: the same tree, each identifier as it was written.
pub open spec fn datum_of(e: RForm) -> SExprView<Seq<char>> {
    map_vars_view(e, |r: ResolvedView| source_name(r))
}

/// The first halves along the chain of pairs starting at `l`.
pub open spec fn pair_items(l: RForm) -> Seq<RForm>
    decreases l,
{
    match l {
        SExprView::Cons(a, d, _) => seq![*a] + pair_items(*d),
        _ => Seq::empty(),
    }
}

/// What ends the chain of pairs starting at `l`.
pub open spec fn pair_end(l: RForm) -> RForm
    decreases l,
{
    match l {
        SExprView::Cons(_, d, _) => pair_end(*d),
        _ => l,
    }
}

/// Whether each element along the pairs of `l` can be lowered.
pub open spec fn each_ok(l: RForm) -> bool
    decreases l, 0int,
{
    match l {
        SExprView::Cons(a, d, _) => lowerable(*a) && each_ok(*d),
        _ => true,
    }
}

/// Whether a lambda's parameters can be lowered: one bound identifier, or a
/// list of bound identifiers ending in `()` or in a bound identifier.
pub open spec fn params_ok(arg: RForm) -> bool {
    match arg {
        SExprView::Var(ResolvedView::Bound(..), _) => true,
        SExprView::Nil(_) => true,
        SExprView::Cons(..) => (forall|i: int| 0 <= i < pair_items(arg).len() ==> is_bound(#[trigger] pair_items(arg)[i])) && (
        is_bound(pair_end(arg)) || pair_end(arg) is Nil),
        _ => false,
    }
}

/// Whether a body can be lowered: at least one form, each of which can.
pub open spec fn body_ok(b: RForm) -> bool
    decreases b, 1int,
{
    match b {
        SExprView::Cons(x, rest, _) => if *rest is Cons {
            each_ok(b)
        } else {
            lowerable(*x)
        },
        _ => false,
    }
}

/// Whether the initializers of a `letrec` can be lowered: each a list of a
/// bound identifier and one form that can.
pub open spec fn inits_ok(l: RForm) -> bool
    decreases l, 0int,
{
    match l {
        SExprView::Cons(init, rest, _) => match *init {
            SExprView::Cons(v, d, _) => is_bound(*v) && match *d {
                SExprView::Cons(x, end, _) => *end is Nil && lowerable(*x) && inits_ok(*rest),
                _ => false,
            },
            _ => false,
        },
        _ => true,
    }
}

/// Whether a `(lambda params body ...)` form can be lowered.
pub open spec fn lambda_ok(e: RForm) -> bool
    decreases e, 1int,
{
    match e {
        SExprView::Cons(_, d, _) => match *d {
            SExprView::Cons(arg, body, _) => params_ok(*arg) && body_ok(*body),
            _ => false,
        },
        _ => false,
    }
}

/// Whether a `(letrec ((var init) ...) body ...)` form can be lowered: with no
/// initializer the body must be one that `body_ok` accepts.
pub open spec fn letrec_ok(e: RForm) -> bool
    decreases e, 1int,
{
    match e {
        SExprView::Cons(_, d, _) => match *d {
            SExprView::Cons(inits, body, _) => if *inits is Cons {
                inits_ok(*inits) && each_ok(*body)
            } else if *inits is Nil {
                body_ok(*body)
            } else {
                false
            },
            _ => false,
        },
        _ => false,
    }
}

/// Whether an `(if test consequent alternate)` form can be lowered.
pub open spec fn if_ok(e: RForm) -> bool
    decreases e, 1int,
{
    match e {
        SExprView::Cons(_, d1, _) => match *d1 {
            SExprView::Cons(t, d2, _) => match *d2 {
                SExprView::Cons(c, d3, _) => match *d3 {
                    SExprView::Cons(a, d4, _) => *d4 is Nil && lowerable(*t) && lowerable(*c) && lowerable(*a),
                    _ => false,
                },
                _ => false,
            },
            _ => false,
        },
        _ => false,
    }
}

/// Whether a `(set! var form)` form, or with `define` a `(define var form)`
/// form, can be lowered: the variable must not be a literal, and for `define`
/// it must be free.
pub open spec fn assign_ok(e: RForm, define: bool) -> bool
    decreases e, 1int,
{
    match e {
        SExprView::Cons(_, d1, _) => match *d1 {
            SExprView::Cons(v, d2, _) => match *v {
                SExprView::Var(r, _) => !(r is Literal) && (define ==> r is Free) && match *d2 {
                    SExprView::Cons(x, d3, _) => *d3 is Nil && lowerable(*x),
                    _ => false,
                },
                _ => false,
            },
            _ => false,
        },
        _ => false,
    }
}

/// Whether a fully expanded form can be lowered: an identifier that is not a
/// literal; a list headed by a bound identifier naming a core form that is
/// well formed for it (`quote` needs a datum, `begin` anything); any other
/// non-empty list as an application; or any other atom.
pub open spec fn lowerable(e: RForm) -> bool
    decreases e, 2int,
{
    match e {
        SExprView::Var(r, _) => !(r is Literal),
        SExprView::Cons(a, d, _) => match *a {
            SExprView::Var(ResolvedView::Bound(_, b), _) => if b == "quote"@ {
                *d is Cons
            } else if b == "lambda"@ {
                lambda_ok(e)
            } else if b == "letrec"@ {
                letrec_ok(e)
            } else if b == "if"@ {
                if_ok(e)
            } else if b == "define"@ {
                assign_ok(e, true)
            } else if b == "set!"@ {
                assign_ok(e, false)
            } else if b == "begin"@ {
                each_ok(*d)
            } else {
                each_ok(e)
            },
            SExprView::Var(ResolvedView::Literal(_), _) => false,
            _ => each_ok(e),
        },
        SExprView::Nil(_) => false,
        _ => true,
    }
}

/// Lowering each element along the pairs of `l`, the count of fresh names
/// threaded through from `n`: the results and the count after.
pub open spec fn lowered_each(l: RForm, n: nat) -> (Seq<CoreView>, nat)
    decreases l, 0int,
{
    match l {
        SExprView::Cons(a, d, _) => {
            let (x, n1) = lowered(*a, n);
            let (xs, n2) = lowered_each(*d, n1);
            (seq![x] + xs, n2)
        },
        _ => (Seq::empty(), n),
    }
}

/// Lowering a body: one form lowers to itself, more to a `begin` of them all.
pub open spec fn lowered_body(b: RForm, n: nat) -> (CoreView, nat)
    decreases b, 1int,
{
    match b {
        SExprView::Cons(x, rest, s) => if *rest is Cons {
            let (xs, n1) = lowered_each(b, n);
            (CoreView::Begin(xs, s), n1)
        } else {
            lowered(*x, n)
        },
        _ => (CoreView::Begin(Seq::empty(), b.span()), n),
    }
}

/// Lowering the initializers of a `letrec`: the variables (name and binding),
/// the lowered initial values, and a fresh name `temp:<n>` for each, made
/// after its value is lowered; then the count after.
pub open spec fn lowered_inits(l: RForm, n: nat) -> (Seq<(Seq<char>, Seq<char>)>, Seq<CoreView>, Seq<Seq<char>>, nat)
    decreases l, 0int,
{
    match l {
        SExprView::Cons(init, rest, _) => match *init {
            SExprView::Cons(v, d, _) => match *d {
                SExprView::Cons(x, _, _) => {
                    let (rhs, n1) = lowered(*x, n);
                    let temp = fresh_text("temp"@, n1 + 1);
                    let (vs, xs, ts, n2) = lowered_inits(*rest, n1 + 1);
                    (
                        seq![(source_name(v->Var_0), binding_of(*v))] + vs,
                        seq![rhs] + xs,
                        seq![temp] + ts,
                        n2,
                    )
                },
                _ => (Seq::empty(), Seq::empty(), Seq::empty(), n),
            },
            _ => (Seq::empty(), Seq::empty(), Seq::empty(), n),
        },
        _ => (Seq::empty(), Seq::empty(), Seq::empty(), n),
    }
}

/// The fixed parameters of a lambda: the bindings of the listed identifiers.
pub open spec fn params_of(arg: RForm) -> Seq<Seq<char>> {
    if arg is Cons {
        pair_items(arg).map_values(|x: RForm| binding_of(x))
    } else {
        Seq::empty()
    }
}

/// The rest parameter of a lambda: the binding of a lone identifier, or of the
/// identifier that ends the parameter list.
pub open spec fn rest_param_of(arg: RForm) -> Option<Seq<char>> {
    match arg {
        SExprView::Var(ResolvedView::Bound(_, b), _) => Some(b),
        SExprView::Cons(..) => if is_bound(pair_end(arg)) {
            Some(binding_of(pair_end(arg)))
        } else {
            None
        },
        _ => None,
    }
}

/// Lowering `(lambda params body ...)` to a procedure over the parameters' bindings.
pub open spec fn lowered_lambda(e: RForm, n: nat) -> (CoreView, nat)
    decreases e, 1int,
{
    match e {
        SExprView::Cons(_, d, s) => match *d {
            SExprView::Cons(arg, body, _) => {
                let (bv, n1) = lowered_body(*body, n);
                (CoreView::Lambda(params_of(*arg), rest_param_of(*arg), Box::new(bv), s), n1)
            },
            _ => (CoreView::Begin(Seq::empty(), s), n),
        },
        _ => (CoreView::Begin(Seq::empty(), e.span()), n),
    }
}

/// The assignments that start the inner procedure of a lowered `letrec`: each
/// variable set to its temporary.
pub open spec fn letrec_sets(vs: Seq<(Seq<char>, Seq<char>)>, temps: Seq<Seq<char>>, s: Span) -> Seq<CoreView> {
    Seq::new(
        vs.len(),
        |i: int| CoreView::Assign((vs[i].0, Some(vs[i].1)), Box::new(CoreView::Var(("temp"@, Some(temps[i])), s)), s),
    )
}

/// Lowering `(letrec ((var init) ...) body ...)`. With no initializer: a call
/// of a procedure of no parameters whose body is the lowered body. Else a call,
/// with one unspecified value for each variable, of a procedure over the
/// variables' bindings that calls, with the lowered initial values, a
/// procedure over fresh temporaries that sets each variable to its temporary
/// and then runs each form of the body.
pub open spec fn lowered_letrec(e: RForm, n: nat) -> (CoreView, nat)
    decreases e, 1int,
{
    match e {
        SExprView::Cons(_, d, s) => match *d {
            SExprView::Cons(inits, body, _) => if *inits is Cons {
                let (vs, rhs, temps, n1) = lowered_inits(*inits, n);
                let (bs, n2) = lowered_each(*body, n1);
                let inner = CoreView::Application(
                    Box::new(CoreView::Lambda(temps, None, Box::new(CoreView::Begin(letrec_sets(vs, temps, s) + bs, s)), s)),
                    rhs,
                    s,
                );
                (
                    CoreView::Application(
                        Box::new(CoreView::Lambda(vs.map_values(|v: (Seq<char>, Seq<char>)| v.1), None, Box::new(inner), s)),
                        Seq::new(vs.len(), |i: int| CoreView::Literal(SExprView::Void(s))),
                        s,
                    ),
                    n2,
                )
            } else {
                let (bv, n1) = lowered_body(*body, n);
                (CoreView::Application(Box::new(CoreView::Lambda(Seq::empty(), None, Box::new(bv), s)), Seq::empty(), s), n1)
            },
            _ => (CoreView::Begin(Seq::empty(), s), n),
        },
        _ => (CoreView::Begin(Seq::empty(), e.span()), n),
    }
}

/// Lowering `(if test consequent alternate)`, the three lowered in order.
pub open spec fn lowered_if(e: RForm, n: nat) -> (CoreView, nat)
    decreases e, 1int,
{
    match e {
        SExprView::Cons(_, d1, s) => match *d1 {
            SExprView::Cons(t, d2, _) => match *d2 {
                SExprView::Cons(c, d3, _) => match *d3 {
                    SExprView::Cons(a, _, _) => {
                        let (tv, n1) = lowered(*t, n);
                        let (cv, n2) = lowered(*c, n1);
                        let (av, n3) = lowered(*a, n2);
                        (CoreView::If(Box::new(tv), Box::new(cv), Box::new(av), s), n3)
                    },
                    _ => (CoreView::Begin(Seq::empty(), s), n),
                },
                _ => (CoreView::Begin(Seq::empty(), s), n),
            },
            _ => (CoreView::Begin(Seq::empty(), s), n),
        },
        _ => (CoreView::Begin(Seq::empty(), e.span()), n),
    }
}

/// Lowering `(set! var form)` or `(define var form)` to an assignment.
pub open spec fn lowered_assign(e: RForm, n: nat) -> (CoreView, nat)
    decreases e, 1int,
{
    match e {
        SExprView::Cons(_, d1, s) => match *d1 {
            SExprView::Cons(v, d2, _) => match *d2 {
                SExprView::Cons(x, _, _) => {
                    let (xv, n1) = lowered(*x, n);
                    (CoreView::Assign(var_of(v->Var_0), Box::new(xv), s), n1)
                },
                _ => (CoreView::Begin(Seq::empty(), s), n),
            },
            _ => (CoreView::Begin(Seq::empty(), s), n),
        },
        _ => (CoreView::Begin(Seq::empty(), e.span()), n),
    }
}

/// Lowering an application: the operator, then each argument, in order.
pub open spec fn lowered_app(e: RForm, n: nat) -> (CoreView, nat)
    decreases e, 1int,
{
    match e {
        SExprView::Cons(a, d, s) => {
            let (op, n1) = lowered(*a, n);
            let (args, n2) = lowered_each(*d, n1);
            (CoreView::Application(Box::new(op), args, s), n2)
        },
        _ => (CoreView::Begin(Seq::empty(), e.span()), n),
    }
}

/// Lowering a fully expanded form to a core expression, the count of fresh
/// names threaded through from `n`: the expression and the count after. An
/// identifier becomes a variable; a list headed by a bound identifier naming
/// `quote`, `lambda`, `letrec`, `if`, `define`, `set!` or `begin` becomes that
/// core form; any other list an application; any other atom a literal.
pub open spec fn lowered(e: RForm, n: nat) -> (CoreView, nat)
    decreases e, 2int,
{
    match e {
        SExprView::Var(r, s) => (CoreView::Var(var_of(r), s), n),
        SExprView::Cons(a, d, s) => if is_bound(*a) {
            let b = binding_of(*a);
            if b == "quote"@ {
                match *d {
                    SExprView::Cons(x, _, _) => (CoreView::Literal(datum_of(*x)), n),
                    _ => (CoreView::Begin(Seq::empty(), s), n),
                }
            } else if b == "lambda"@ {
                lowered_lambda(e, n)
            } else if b == "letrec"@ {
                lowered_letrec(e, n)
            } else if b == "if"@ {
                lowered_if(e, n)
            } else if b == "define"@ || b == "set!"@ {
                lowered_assign(e, n)
            } else if b == "begin"@ {
                let (xs, n1) = lowered_each(*d, n);
                (CoreView::Begin(xs, s), n1)
            } else {
                lowered_app(e, n)
            }
        } else {
            lowered_app(e, n)
        },
        _ => (CoreView::Literal(datum_of(e)), n),
    }
}

/// Lowering never takes a fresh name back: the count after is at least the
/// count before.
pub proof fn lemma_lowered_count(e: RForm, n: nat)
    ensures
        lowered(e, n).1 >= n,
    decreases e, 2int,
{
    match e {
        SExprView::Cons(a, d, _) => if is_bound(*a) {
            let b = binding_of(*a);
            if b == "quote"@ {
            } else if b == "lambda"@ {
                lemma_lowered_lambda_count(e, n);
            } else if b == "letrec"@ {
                lemma_lowered_letrec_count(e, n);
            } else if b == "if"@ {
                lemma_lowered_if_count(e, n);
            } else if b == "define"@ || b == "set!"@ {
                lemma_lowered_assign_count(e, n);
            } else if b == "begin"@ {
                lemma_lowered_each_count(*d, n);
            } else {
                lemma_lowered_app_count(e, n);
            }
        } else {
            lemma_lowered_app_count(e, n);
        },
        _ => {},
    }
}

proof fn lemma_lowered_each_count(l: RForm, n: nat)
    ensures
        lowered_each(l, n).1 >= n,
    decreases l, 0int,
{
    if let SExprView::Cons(a, d, _) = l {
        lemma_lowered_count(*a, n);
        lemma_lowered_each_count(*d, lowered(*a, n).1);
    }
}

proof fn lemma_lowered_body_count(b: RForm, n: nat)
    ensures
        lowered_body(b, n).1 >= n,
    decreases b, 1int,
{
    if let SExprView::Cons(x, rest, _) = b {
        if *rest is Cons {
            lemma_lowered_each_count(b, n);
        } else {
            lemma_lowered_count(*x, n);
        }
    }
}

proof fn lemma_lowered_inits_count(l: RForm, n: nat)
    ensures
        lowered_inits(l, n).3 >= n,
    decreases l, 0int,
{
    if let SExprView::Cons(init, rest, _) = l {
        if let SExprView::Cons(_, d, _) = *init {
            if let SExprView::Cons(x, _, _) = *d {
                lemma_lowered_count(*x, n);
                lemma_lowered_inits_count(*rest, lowered(*x, n).1 + 1);
            }
        }
    }
}

proof fn lemma_lowered_lambda_count(e: RForm, n: nat)
    ensures
        lowered_lambda(e, n).1 >= n,
    decreases e, 1int,
{
    if let SExprView::Cons(_, d, _) = e {
        if let SExprView::Cons(_, body, _) = *d {
            lemma_lowered_body_count(*body, n);
        }
    }
}

proof fn lemma_lowered_letrec_count(e: RForm, n: nat)
    ensures
        lowered_letrec(e, n).1 >= n,
    decreases e, 1int,
{
    if let SExprView::Cons(_, d, _) = e {
        if let SExprView::Cons(inits, body, _) = *d {
            if *inits is Cons {
                lemma_lowered_inits_count(*inits, n);
                lemma_lowered_each_count(*body, lowered_inits(*inits, n).3);
            } else {
                lemma_lowered_body_count(*body, n);
            }
        }
    }
}

proof fn lemma_lowered_if_count(e: RForm, n: nat)
    ensures
        lowered_if(e, n).1 >= n,
    decreases e, 1int,
{
    if let SExprView::Cons(_, d1, _) = e {
        if let SExprView::Cons(t, d2, _) = *d1 {
            if let SExprView::Cons(c, d3, _) = *d2 {
                if let SExprView::Cons(a, _, _) = *d3 {
                    lemma_lowered_count(*t, n);
                    lemma_lowered_count(*c, lowered(*t, n).1);
                    lemma_lowered_count(*a, lowered(*c, lowered(*t, n).1).1);
                }
            }
        }
    }
}

proof fn lemma_lowered_assign_count(e: RForm, n: nat)
    ensures
        lowered_assign(e, n).1 >= n,
    decreases e, 1int,
{
    if let SExprView::Cons(_, d1, _) = e {
        if let SExprView::Cons(_, d2, _) = *d1 {
            if let SExprView::Cons(x, _, _) = *d2 {
                lemma_lowered_count(*x, n);
            }
        }
    }
}

proof fn lemma_lowered_app_count(e: RForm, n: nat)
    ensures
        lowered_app(e, n).1 >= n,
    decreases e, 1int,
{
    if let SExprView::Cons(a, d, _) = e {
        lemma_lowered_count(*a, n);
        lemma_lowered_each_count(*d, lowered(*a, n).1);
    }
}

/// The views of a sequence of core expressions.
pub open spec fn exprs_view(v: Seq<Expr>) -> Seq<CoreView> {
    v.map_values(|x: Expr| x@)
}

/// The views of a sequence of (name, binding) pairs.
pub open spec fn pairs_view(v: Seq<(Symbol, Symbol)>) -> Seq<(Seq<char>, Seq<char>)> {
    v.map_values(|p: (Symbol, Symbol)| (p.0@, p.1@))
}

/// The value of a quoted form; see `datum_of`.
fn datum_from(e: SExpr<ResolvedSymbol>) -> (r: SExpr<Symbol>)
    ensures
        r@ == datum_of(e@),
{
    let name = |r: ResolvedSymbol| -> (s: Symbol)
        ensures
            s@ == source_name(r@),
        { r.into_symbol() };
    let ghost orig = e;
    let d = e.map_var(&name);
    proof {
        lemma_vars_mapped_view(orig, d, name, |r: ResolvedView| source_name(r));
    }
    d
}

/// Which kind of form a fully expanded form is.
enum FormKind {
    Variable,
    Quote,
    LambdaForm,
    Letrec,
    IfForm,
    Define,
    SetForm,
    BeginForm,
    Call,
    Datum,
}

/// The kind of form `e` is, as `lowered` tells them apart.
spec fn kind_of(e: RForm) -> FormKind {
    match e {
        SExprView::Var(..) => FormKind::Variable,
        SExprView::Cons(a, _, _) => if is_bound(*a) {
            let b = binding_of(*a);
            if b == "quote"@ {
                FormKind::Quote
            } else if b == "lambda"@ {
                FormKind::LambdaForm
            } else if b == "letrec"@ {
                FormKind::Letrec
            } else if b == "if"@ {
                FormKind::IfForm
            } else if b == "define"@ {
                FormKind::Define
            } else if b == "set!"@ {
                FormKind::SetForm
            } else if b == "begin"@ {
                FormKind::BeginForm
            } else {
                FormKind::Call
            }
        } else {
            FormKind::Call
        },
        _ => FormKind::Datum,
    }
}

fn form_kind(e: &SExpr<ResolvedSymbol>) -> (k: FormKind)
    ensures
        k == kind_of(e@),
{
    proof {
        reveal_with_fuel(sexpr_view, 3);
    }
    match e {
        SExpr::Var(..) => FormKind::Variable,
        SExpr::Cons(c, _) => match &*c.car {
            SExpr::Var(ResolvedSymbol::Bound { binding, .. }, _) => {
                if binding.same(&Symbol::new("quote")) {
                    FormKind::Quote
                } else if binding.same(&Symbol::new("lambda")) {
                    FormKind::LambdaForm
                } else if binding.same(&Symbol::new("letrec")) {
                    FormKind::Letrec
                } else if binding.same(&Symbol::new("if")) {
                    FormKind::IfForm
                } else if binding.same(&Symbol::new("define")) {
                    FormKind::Define
                } else if binding.same(&Symbol::new("set!")) {
                    FormKind::SetForm
                } else if binding.same(&Symbol::new("begin")) {
                    FormKind::BeginForm
                } else {
                    FormKind::Call
                }
            },
            _ => FormKind::Call,
        },
        _ => FormKind::Datum,
    }
}

/// Lowers a fully expanded form to a core expression; see `lowered`. The
/// fresh names are taken from `gen_sym`, whose count must not overflow.
pub fn lower(gen_sym: &mut GenSym, sexpr: SExpr<ResolvedSymbol>) -> (r: Expr)
    requires
        lowerable(sexpr@),
        lowered(sexpr@, old(gen_sym).count()).1 <= u64::MAX,
    ensures
        r@ == lowered(sexpr@, old(gen_sym).count()).0,
        final(gen_sym).count() == lowered(sexpr@, old(gen_sym).count()).1,
    decreases sexpr, 3int,
{
    proof {
        reveal_with_fuel(sexpr_view, 3);
    }
    let kind = form_kind(&sexpr);
    match kind {
        FormKind::Variable => match sexpr {
            SExpr::Var(resolved, span) => match resolved.try_into_var() {
                Ok(v) => Expr::Var(v, span),
                Err(_) => vstd::pervasive::unreached(),
            },
            _ => vstd::pervasive::unreached(),
        },
        FormKind::Quote => match sexpr {
            SExpr::Cons(c, _) => match *c.cdr {
                SExpr::Cons(c2, _) => Expr::Literal(datum_from(*c2.car)),
                _ => vstd::pervasive::unreached(),
            },
            _ => vstd::pervasive::unreached(),
        },
        FormKind::LambdaForm => lower_lambda(gen_sym, sexpr),
        FormKind::Letrec => lower_letrec(gen_sym, sexpr),
        FormKind::IfForm => lower_if(gen_sym, sexpr),
        FormKind::Define => lower_define(gen_sym, sexpr),
        FormKind::SetForm => lower_set(gen_sym, sexpr),
        FormKind::BeginForm => lower_begin(gen_sym, sexpr),
        FormKind::Call => lower_fn_application(gen_sym, sexpr),
        FormKind::Datum => Expr::Literal(datum_from(sexpr)),
    }
}

/// Lowers each element along the pairs of `list`; see `lowered_each`.
fn lower_list(gen_sym: &mut GenSym, list: SExpr<ResolvedSymbol>) -> (r: Vec<Expr>)
    requires
        each_ok(list@),
        lowered_each(list@, old(gen_sym).count()).1 <= u64::MAX,
    ensures
        exprs_view(r@) == lowered_each(list@, old(gen_sym).count()).0,
        final(gen_sym).count() == lowered_each(list@, old(gen_sym).count()).1,
    decreases list, 0int,
{
    match list {
        SExpr::Cons(c, _) => {
            let Cons { car, cdr } = c;
            proof {
                lemma_lowered_each_count(cdr@, lowered(car@, gen_sym.count()).1);
            }
            let x = lower(gen_sym, *car);
            let mut rest = lower_list(gen_sym, *cdr);
            let ghost tail = rest@;
            rest.insert(0, x);
            assert(exprs_view(rest@) =~= seq![x@] + exprs_view(tail));
            rest
        },
        _ => {
            let r: Vec<Expr> = Vec::new();
            assert(exprs_view(r@) =~= Seq::<CoreView>::empty());
            r
        },
    }
}

/// Lowers an application: the operator, then each argument; see `lowered_app`.
fn lower_fn_application(gen_sym: &mut GenSym, sexpr: SExpr<ResolvedSymbol>) -> (r: Expr)
    requires
        sexpr@ is Cons,
        each_ok(sexpr@),
        lowered_app(sexpr@, old(gen_sym).count()).1 <= u64::MAX,
    ensures
        r@ == lowered_app(sexpr@, old(gen_sym).count()).0,
        final(gen_sym).count() == lowered_app(sexpr@, old(gen_sym).count()).1,
    decreases sexpr, 1int,
{
    match sexpr {
        SExpr::Cons(c, span) => {
            let Cons { car, cdr } = c;
            proof {
                lemma_lowered_each_count(cdr@, lowered(car@, gen_sym.count()).1);
            }
            let operand = lower(gen_sym, *car);
            let args = lower_list(gen_sym, *cdr);
            let r = Expr::Application(Application { operand: Box::new(operand), args }, span);
            assert(r@->Application_1 =~= exprs_view(args@));
            r
        },
        _ => vstd::pervasive::unreached(),
    }
}

/// The bindings of the identifiers along the pairs of `l`, and the binding of
/// the identifier that ends them, if one does.
fn param_list(l: &SExpr<ResolvedSymbol>) -> (r: (Vec<Symbol>, Option<Symbol>))
    requires
        forall|i: int| 0 <= i < pair_items(l@).len() ==> is_bound(#[trigger] pair_items(l@)[i]),
        is_bound(pair_end(l@)) || pair_end(l@) is Nil,
    ensures
        symbols_view(r.0@) == pair_items(l@).map_values(|x: RForm| binding_of(x)),
        option_view(r.1) == (if is_bound(pair_end(l@)) {
            Some(binding_of(pair_end(l@)))
        } else {
            None
        }),
    decreases l,
{
    match l {
        SExpr::Cons(c, _) => {
            assert(pair_items(l@) == seq![c.car@] + pair_items(c.cdr@));
            assert(pair_items(l@)[0] == c.car@);
            assert forall|i: int| 0 <= i < pair_items(c.cdr@).len() implies is_bound(#[trigger] pair_items(c.cdr@)[i]) by {
                assert(pair_items(l@)[i + 1] == pair_items(c.cdr@)[i]);
            }
            let (mut v, t) = param_list(&c.cdr);
            let name = match &*c.car {
                SExpr::Var(ResolvedSymbol::Bound { binding, .. }, _) => binding.duplicate(),
                _ => vstd::pervasive::unreached(),
            };
            let ghost tail = v@;
            v.insert(0, name);
            assert(symbols_view(v@) =~= seq![name@] + symbols_view(tail));
            assert(pair_items(l@).map_values(|x: RForm| binding_of(x)) =~= seq![binding_of(c.car@)] + pair_items(
                c.cdr@,
            ).map_values(|x: RForm| binding_of(x)));
            (v, t)
        },
        SExpr::Var(ResolvedSymbol::Bound { binding, .. }, _) => {
            let v: Vec<Symbol> = Vec::new();
            assert(symbols_view(v@) =~= pair_items(l@).map_values(|x: RForm| binding_of(x)));
            (v, Some(binding.duplicate()))
        },
        _ => {
            let v: Vec<Symbol> = Vec::new();
            assert(symbols_view(v@) =~= pair_items(l@).map_values(|x: RForm| binding_of(x)));
            (v, None)
        },
    }
}

/// Lowers a body; see `lowered_body`.
fn lower_body(gen_sym: &mut GenSym, body: SExpr<ResolvedSymbol>) -> (r: Expr)
    requires
        body_ok(body@),
        lowered_body(body@, old(gen_sym).count()).1 <= u64::MAX,
    ensures
        r@ == lowered_body(body@, old(gen_sym).count()).0,
        final(gen_sym).count() == lowered_body(body@, old(gen_sym).count()).1,
    decreases body, 1int,
{
    proof {
        reveal_with_fuel(sexpr_view, 3);
    }
    let multi = match &body {
        SExpr::Cons(c, _) => match &*c.cdr {
            SExpr::Cons(..) => true,
            _ => false,
        },
        _ => vstd::pervasive::unreached(),
    };
    if multi {
        let span = body.get_span();
        let xs = lower_list(gen_sym, body);
        let r = Expr::Begin(Begin { body: xs }, span);
        assert(r@->Begin_0 =~= exprs_view(xs@));
        r
    } else {
        match body {
            SExpr::Cons(c, _) => lower(gen_sym, *c.car),
            _ => vstd::pervasive::unreached(),
        }
    }
}

/// Lowers `(lambda params body ...)`; see `lowered_lambda`.
fn lower_lambda(gen_sym: &mut GenSym, sexpr: SExpr<ResolvedSymbol>) -> (r: Expr)
    requires
        lambda_ok(sexpr@),
        lowered_lambda(sexpr@, old(gen_sym).count()).1 <= u64::MAX,
    ensures
        r@ == lowered_lambda(sexpr@, old(gen_sym).count()).0,
        final(gen_sym).count() == lowered_lambda(sexpr@, old(gen_sym).count()).1,
    decreases sexpr, 1int,
{
    proof {
        reveal_with_fuel(sexpr_view, 3);
    }
    match sexpr {
        SExpr::Cons(c1, span) => match *c1.cdr {
            SExpr::Cons(c2, _) => {
                let Cons { car: arg, cdr: body } = c2;
                let (args, var_arg) = param_list(&arg);
                proof {
                    if !(arg@ is Cons) {
                        assert(symbols_view(args@) =~= params_of(arg@));
                    }
                }
                let b = lower_body(gen_sym, *body);
                Expr::Lambda(Lambda { args, var_arg, body: Box::new(b) }, span)
            },
            _ => vstd::pervasive::unreached(),
        },
        _ => vstd::pervasive::unreached(),
    }
}

/// Lowers `(if test consequent alternate)`; see `lowered_if`.
fn lower_if(gen_sym: &mut GenSym, sexpr: SExpr<ResolvedSymbol>) -> (r: Expr)
    requires
        if_ok(sexpr@),
        lowered_if(sexpr@, old(gen_sym).count()).1 <= u64::MAX,
    ensures
        r@ == lowered_if(sexpr@, old(gen_sym).count()).0,
        final(gen_sym).count() == lowered_if(sexpr@, old(gen_sym).count()).1,
    decreases sexpr, 1int,
{
    proof {
        reveal_with_fuel(sexpr_view, 5);
    }
    match sexpr {
        SExpr::Cons(c1, span) => match *c1.cdr {
            SExpr::Cons(c2, _) => match *c2.cdr {
                SExpr::Cons(c3, _) => match *c3.cdr {
                    SExpr::Cons(c4, _) => {
                        proof {
                            let n = gen_sym.count() as nat;
                            let n1 = lowered(c2.car@, n).1;
                            lemma_lowered_count(c3.car@, n1);
                            lemma_lowered_count(c4.car@, lowered(c3.car@, n1).1);
                        }
                        let test = lower(gen_sym, *c2.car);
                        let conseq = lower(gen_sym, *c3.car);
                        let alt = lower(gen_sym, *c4.car);
                        Expr::If(If { test: Box::new(test), conseq: Box::new(conseq), alt: Box::new(alt) }, span)
                    },
                    _ => vstd::pervasive::unreached(),
                },
                _ => vstd::pervasive::unreached(),
            },
            _ => vstd::pervasive::unreached(),
        },
        _ => vstd::pervasive::unreached(),
    }
}

/// Lowers `(set! var form)` or `(define var form)`; see `lowered_assign`.
fn lower_set(gen_sym: &mut GenSym, sexpr: SExpr<ResolvedSymbol>) -> (r: Expr)
    requires
        assign_ok(sexpr@, false),
        lowered_assign(sexpr@, old(gen_sym).count()).1 <= u64::MAX,
    ensures
        r@ == lowered_assign(sexpr@, old(gen_sym).count()).0,
        final(gen_sym).count() == lowered_assign(sexpr@, old(gen_sym).count()).1,
    decreases sexpr, 1int,
{
    proof {
        reveal_with_fuel(sexpr_view, 5);
    }
    match sexpr {
        SExpr::Cons(c1, span) => match *c1.cdr {
            SExpr::Cons(c2, _) => {
                let Cons { car: v, cdr: d } = c2;
                match *v {
                    SExpr::Var(resolved, _) => match *d {
                        SExpr::Cons(c3, _) => {
                            let var = match resolved.try_into_var() {
                                Ok(var) => var,
                                Err(_) => vstd::pervasive::unreached(),
                            };
                            let x = lower(gen_sym, *c3.car);
                            Expr::Assign(Assign { var, expr: Box::new(x) }, span)
                        },
                        _ => vstd::pervasive::unreached(),
                    },
                    _ => vstd::pervasive::unreached(),
                }
            },
            _ => vstd::pervasive::unreached(),
        },
        _ => vstd::pervasive::unreached(),
    }
}

/// Lowers the initializers of a `letrec`; see `lowered_inits`.
fn lower_initializers(gen_sym: &mut GenSym, l: SExpr<ResolvedSymbol>) -> (r: (Vec<(Symbol, Symbol)>, Vec<Expr>, Vec<Symbol>))
    requires
        inits_ok(l@),
        lowered_inits(l@, old(gen_sym).count()).3 <= u64::MAX,
    ensures
        pairs_view(r.0@) == lowered_inits(l@, old(gen_sym).count()).0,
        exprs_view(r.1@) == lowered_inits(l@, old(gen_sym).count()).1,
        symbols_view(r.2@) == lowered_inits(l@, old(gen_sym).count()).2,
        final(gen_sym).count() == lowered_inits(l@, old(gen_sym).count()).3,
        r.0.len() == r.1.len(),
        r.0.len() == r.2.len(),
    decreases l, 0int,
{
    proof {
        reveal_with_fuel(sexpr_view, 5);
    }
    match l {
        SExpr::Cons(c, _) => {
            let Cons { car: init, cdr: rest } = c;
            match *init {
                SExpr::Cons(ic, _) => {
                    let Cons { car: v, cdr: d } = ic;
                    match *v {
                        SExpr::Var(ResolvedSymbol::Bound { symbol, binding }, _) => match *d {
                            SExpr::Cons(dc, _) => {
                                proof {
                                    let n1 = lowered(dc.car@, gen_sym.count() as nat).1;
                                    lemma_lowered_inits_count(rest@, n1 + 1);
                                }
                                let rhs = lower(gen_sym, *dc.car);
                                let temp = gen_sym.fresh("temp");
                                let (mut vs, mut xs, mut ts) = lower_initializers(gen_sym, *rest);
                                let ghost (vs0, xs0, ts0) = (vs@, xs@, ts@);
                                vs.insert(0, (symbol, binding));
                                xs.insert(0, rhs);
                                ts.insert(0, temp);
                                assert(pairs_view(vs@) =~= seq![(vs@[0].0@, vs@[0].1@)] + pairs_view(vs0));
                                assert(exprs_view(xs@) =~= seq![rhs@] + exprs_view(xs0));
                                assert(symbols_view(ts@) =~= seq![temp@] + symbols_view(ts0));
                                (vs, xs, ts)
                            },
                            _ => vstd::pervasive::unreached(),
                        },
                        _ => vstd::pervasive::unreached(),
                    }
                },
                _ => vstd::pervasive::unreached(),
            }
        },
        _ => {
            let (vs, xs, ts): (Vec<(Symbol, Symbol)>, Vec<Expr>, Vec<Symbol>) = (Vec::new(), Vec::new(), Vec::new());
            assert(pairs_view(vs@) =~= Seq::<(Seq<char>, Seq<char>)>::empty());
            assert(exprs_view(xs@) =~= Seq::<CoreView>::empty());
            assert(symbols_view(ts@) =~= Seq::<Seq<char>>::empty());
            (vs, xs, ts)
        },
    }
}

/// Lowers `(letrec ((var init) ...) body ...)`; see `lowered_letrec`.
fn lower_letrec(gen_sym: &mut GenSym, sexpr: SExpr<ResolvedSymbol>) -> (r: Expr)
    requires
        letrec_ok(sexpr@),
        lowered_letrec(sexpr@, old(gen_sym).count()).1 <= u64::MAX,
    ensures
        r@ == lowered_letrec(sexpr@, old(gen_sym).count()).0,
        final(gen_sym).count() == lowered_letrec(sexpr@, old(gen_sym).count()).1,
    decreases sexpr, 1int,
{
    proof {
        reveal_with_fuel(sexpr_view, 5);
        reveal_with_fuel(core_view, 3);
    }
    match sexpr {
        SExpr::Cons(c1, span) => match *c1.cdr {
            SExpr::Cons(c2, _) => {
                let Cons { car: inits, cdr: body } = c2;
                let has_inits = match &*inits {
                    SExpr::Cons(..) => true,
                    _ => false,
                };
                if !has_inits {
                    let b = lower_body(gen_sym, *body);
                    let lambda = Expr::Lambda(Lambda { args: Vec::new(), var_arg: None, body: Box::new(b) }, span);
                    let r = Expr::Application(Application { operand: Box::new(lambda), args: Vec::new() }, span);
                    assert(lambda@->Lambda_0 =~= Seq::<Seq<char>>::empty());
                    assert(r@->Application_1 =~= Seq::<CoreView>::empty());
                    return r;
                }
                proof {
                    lemma_lowered_each_count(body@, lowered_inits(inits@, gen_sym.count() as nat).3);
                }
                let (vars, rhs, temps) = lower_initializers(gen_sym, *inits);
                let mut body_exprs = lower_list(gen_sym, *body);
                let ghost vs = pairs_view(vars@);
                let ghost ts = symbols_view(temps@);
                let ghost bs = exprs_view(body_exprs@);
                let ghost sets = letrec_sets(vs, ts, span);
                let k = vars.len();
                let mut seq_body: Vec<Expr> = Vec::new();
                let mut bindings: Vec<Symbol> = Vec::new();
                let mut voids: Vec<Expr> = Vec::new();
                let mut i: usize = 0;
                while i < k
                    invariant
                        k == vars.len(),
                        k == temps.len(),
                        vs == pairs_view(vars@),
                        ts == symbols_view(temps@),
                        sets == letrec_sets(vs, ts, span),
                        i <= k,
                        exprs_view(seq_body@) =~= sets.take(i as int),
                        symbols_view(bindings@) =~= vs.map_values(|v: (Seq<char>, Seq<char>)| v.1).take(i as int),
                        exprs_view(voids@) =~= Seq::new(
                            vs.len(),
                            |j: int| CoreView::Literal(SExprView::Void(span)),
                        ).take(i as int),
                    decreases k - i,
                {
                    let v = &vars[i];
                    let set = Expr::Assign(
                        Assign {
                            var: ResolvedVar::Bound { symbol: v.0.duplicate(), binding: v.1.duplicate() },
                            expr: Box::new(
                                Expr::Var(ResolvedVar::Bound { symbol: Symbol::new("temp"), binding: temps[i].duplicate() }, span),
                            ),
                        },
                        span,
                    );
                    let ghost (s0, b0, v0) = (seq_body@, bindings@, voids@);
                    seq_body.push(set);
                    bindings.push(v.1.duplicate());
                    voids.push(Expr::Literal(SExpr::Void(span)));
                    proof {
                        reveal_with_fuel(core_view, 2);
                    }
                    assert(vs[i as int] == (v.0@, v.1@));
                    assert(ts[i as int] == temps@[i as int]@);
                    assert(set@ == sets[i as int]);
                    assert(sets.take(i + 1) =~= sets.take(i as int).push(sets[i as int]));
                    assert(exprs_view(seq_body@) =~= exprs_view(s0).push(set@));
                    assert(symbols_view(bindings@) =~= symbols_view(b0).push(v.1@));
                    assert(exprs_view(voids@) =~= exprs_view(v0).push(CoreView::Literal(SExprView::Void(span))));
                    i = i + 1;
                }
                assert(sets.take(k as int) =~= sets);
                assert(vs.map_values(|v: (Seq<char>, Seq<char>)| v.1).take(k as int) =~= vs.map_values(
                    |v: (Seq<char>, Seq<char>)| v.1,
                ));
                assert(Seq::new(vs.len(), |j: int| CoreView::Literal(SExprView::Void(span))).take(k as int) =~= Seq::new(
                    vs.len(),
                    |j: int| CoreView::Literal(SExprView::Void(span)),
                ));
                let ghost before = seq_body@;
                seq_body.append(&mut body_exprs);
                assert(exprs_view(seq_body@) =~= exprs_view(before) + bs);
                let begin = Expr::Begin(Begin { body: seq_body }, span);
                assert(begin@->Begin_0 =~= exprs_view(seq_body@));
                let inner_lambda = Expr::Lambda(Lambda { args: temps, var_arg: None, body: Box::new(begin) }, span);
                let inner = Expr::Application(Application { operand: Box::new(inner_lambda), args: rhs }, span);
                assert(inner@->Application_1 =~= exprs_view(rhs@));
                let outer_lambda = Expr::Lambda(Lambda { args: bindings, var_arg: None, body: Box::new(inner) }, span);
                let r = Expr::Application(Application { operand: Box::new(outer_lambda), args: voids }, span);
                assert(r@->Application_1 =~= exprs_view(voids@));
                r
            },
            _ => vstd::pervasive::unreached(),
        },
        _ => vstd::pervasive::unreached(),
    }
}

/// Lowers `(define var form)` at the top level, `var` free; see `lowered_assign`.
fn lower_define(gen_sym: &mut GenSym, sexpr: SExpr<ResolvedSymbol>) -> (r: Expr)
    requires
        assign_ok(sexpr@, true),
        lowered_assign(sexpr@, old(gen_sym).count()).1 <= u64::MAX,
    ensures
        r@ == lowered_assign(sexpr@, old(gen_sym).count()).0,
        final(gen_sym).count() == lowered_assign(sexpr@, old(gen_sym).count()).1,
    decreases sexpr, 2int,
{
    lower_set(gen_sym, sexpr)
}

/// Lowers `(begin form ...)` to a sequence of the lowered forms.
fn lower_begin(gen_sym: &mut GenSym, sexpr: SExpr<ResolvedSymbol>) -> (r: Expr)
    requires
        sexpr@ is Cons,
        each_ok(*sexpr@->Cons_1),
        lowered_each(*sexpr@->Cons_1, old(gen_sym).count()).1 <= u64::MAX,
    ensures
        r@ == CoreView::Begin(lowered_each(*sexpr@->Cons_1, old(gen_sym).count()).0, sexpr@.span()),
        final(gen_sym).count() == lowered_each(*sexpr@->Cons_1, old(gen_sym).count()).1,
    decreases sexpr, 1int,
{
    match sexpr {
        SExpr::Cons(c, span) => {
            let body = lower_list(gen_sym, *c.cdr);
            let r = Expr::Begin(Begin { body }, span);
            assert(r@->Begin_0 =~= exprs_view(body@));
            r
        },
        _ => vstd::pervasive::unreached(),
    }
}

} // verus!
