use vstd::prelude::*;

use crate::compile::anf::{
    self, expr_view, rhs_view, value_aexpr, AExprView, CExprView, ExprView, RhsView, ValueView, VarView,
};
use crate::compile::core_expr::{self, core_view, well_formed, CoreView};
use crate::compile::gensym::{fresh_text, law_fresh_distinct, GenSym};
use crate::compile::ident::{Duplicate, ResolvedVar, Symbol};
use crate::compile::span::Span;

verus! {

/// A pending `let`: the name, what it is bound to, and the span of the `let`.
pub type Bind = (Seq<char>, RhsView, Span);

/// The `k`-th name made while normalizing.
pub open spec fn anf_name(k: nat) -> Seq<char> {
    fresh_text("anf"@, k)
}

/// The variable that refers to the `k`-th name made while normalizing.
pub open spec fn anf_var(k: nat) -> VarView {
    ("anf"@, Some(anf_name(k)))
}

/// `body` inside the `let`s of `binds`, the first one outermost.
pub open spec fn wrap(binds: Seq<Bind>, body: ExprView) -> ExprView
    decreases binds.len(),
{
    if binds.len() == 0 {
        body
    } else {
        ExprView::Let(binds[0].0, binds[0].1, Box::new(wrap(binds.skip(1), body)), binds[0].2)
    }
}

/// The views of a sequence of core expressions.
pub open spec fn cores_view(es: Seq<core_expr::Expr>) -> Seq<CoreView> {
    es.map_values(|x: core_expr::Expr| core_view(x))
}

/// Normalizing `e` with `n` names made so far: the `let`s that must enclose it,
/// the atomic or complex expression that computes its value inside them, and
/// the number of names made afterwards. Operands are named from left to right,
/// each nested expression before the name of the expression around it.
pub open spec fn flat_expr(e: CoreView, n: nat) -> (Seq<Bind>, ExprView, nat)
    decreases e, 0int,
{
    match e {
        CoreView::Literal(d) => (Seq::empty(), ExprView::AExpr(AExprView::Literal(d)), n),
        CoreView::Var(v, s) => (Seq::empty(), ExprView::AExpr(AExprView::Var(v, s)), n),
        CoreView::Lambda(args, var_arg, body, s) => {
            let (bb, bc, n1) = flat_expr(*body, n);
            (Seq::empty(), ExprView::AExpr(AExprView::Lambda(args, var_arg, Box::new(wrap(bb, bc)), s)), n1)
        },
        CoreView::Application(op, args, s) => {
            let (b1, v, n1) = flat_name(*op, n);
            let (b2, vs, n2) = flat_names(args, n1);
            (b1 + b2, ExprView::CExpr(CExprView::Application(v, vs, s)), n2)
        },
        CoreView::If(t, c, a, s) => {
            let (b, v, n1) = flat_name(*t, n);
            let (cb, cc, n2) = flat_expr(*c, n1);
            let (ab, ac, n3) = flat_expr(*a, n2);
            (b, ExprView::CExpr(CExprView::If(v, Box::new(wrap(cb, cc)), Box::new(wrap(ab, ac)), s)), n3)
        },
        CoreView::Assign(var, x, s) => {
            let (b, v, n1) = flat_name(*x, n);
            (b, ExprView::CExpr(CExprView::Assign(var, v, s)), n1)
        },
        CoreView::Begin(body, _) => {
            let (b, vs, n1) = flat_names(body, n);
            (b, ExprView::AExpr(value_aexpr(vs.last())), n1)
        },
    }
}

/// Normalizing `e` into a value: literals and variables stand for themselves;
/// anything else is bound by one more `let` to the next fresh name.
pub open spec fn flat_name(e: CoreView, n: nat) -> (Seq<Bind>, ValueView, nat)
    decreases e, 1int,
{
    let (b, c, n1) = flat_expr(e, n);
    match c {
        ExprView::AExpr(AExprView::Literal(d)) => (b, ValueView::Literal(d), n1),
        ExprView::AExpr(AExprView::Var(v, s)) => (b, ValueView::Var(v, s), n1),
        ExprView::AExpr(a) => (
            b.push((anf_name(n1 + 1), RhsView::AExpr(a), c.span())),
            ValueView::Var(anf_var(n1 + 1), c.span()),
            n1 + 1,
        ),
        ExprView::CExpr(x) => (
            b.push((anf_name(n1 + 1), RhsView::CExpr(x), c.span())),
            ValueView::Var(anf_var(n1 + 1), c.span()),
            n1 + 1,
        ),
        ExprView::Let(..) => (b, ValueView::Var(anf_var(n1), c.span()), n1),
    }
}

/// Normalizing each of `es` into a value, from left to right.
pub open spec fn flat_names(es: Seq<CoreView>, n: nat) -> (Seq<Bind>, Seq<ValueView>, nat)
    decreases es, 2int,
{
    if es.len() == 0 {
        (Seq::empty(), Seq::empty(), n)
    } else {
        let (b, v, n1) = flat_name(es[0], n);
        let (bs, vs, n2) = flat_names(es.skip(1), n1);
        (b + bs, seq![v] + vs, n2)
    }
}

/// The A-normal form of `e` with `n` names made so far, and the number of names
/// made afterwards.
pub open spec fn normalize(e: CoreView, n: nat) -> (ExprView, nat) {
    let (b, c, n1) = flat_expr(e, n);
    (wrap(b, c), n1)
}

/// Normalizing never leaves a `let` as the expression inside the `let`s.
proof fn lemma_flat_expr_not_let(e: CoreView, n: nat)
    ensures
        !(flat_expr(e, n).1 is Let),
{
}

/// Normalizing a sequence gives one value per expression.
proof fn lemma_flat_names_len(es: Seq<CoreView>, n: nat)
    ensures
        flat_names(es, n).1.len() == es.len(),
    decreases es.len(),
{
    if es.len() > 0 {
        lemma_flat_names_len(es.skip(1), flat_name(es[0], n).2);
    }
}

/// Normalizing never lowers the number of names made.
proof fn lemma_flat_expr_count(e: CoreView, n: nat)
    ensures
        flat_expr(e, n).2 >= n,
    decreases e, 0int,
{
    match e {
        CoreView::Lambda(_, _, body, _) => {
            lemma_flat_expr_count(*body, n);
        },
        CoreView::Application(op, args, _) => {
            lemma_flat_name_count(*op, n);
            lemma_flat_names_count(args, flat_name(*op, n).2);
        },
        CoreView::If(t, c, a, _) => {
            lemma_flat_name_count(*t, n);
            let n1 = flat_name(*t, n).2;
            lemma_flat_expr_count(*c, n1);
            lemma_flat_expr_count(*a, flat_expr(*c, n1).2);
        },
        CoreView::Assign(_, x, _) => {
            lemma_flat_name_count(*x, n);
        },
        CoreView::Begin(body, _) => {
            lemma_flat_names_count(body, n);
        },
        _ => {},
    }
}

proof fn lemma_flat_name_count(e: CoreView, n: nat)
    ensures
        flat_name(e, n).2 >= flat_expr(e, n).2 >= n,
    decreases e, 1int,
{
    lemma_flat_expr_count(e, n);
}

proof fn lemma_flat_names_count(es: Seq<CoreView>, n: nat)
    ensures
        flat_names(es, n).2 >= n,
    decreases es, 2int,
{
    if es.len() > 0 {
        lemma_flat_name_count(es[0], n);
        lemma_flat_names_count(es.skip(1), flat_name(es[0], n).2);
    }
}

/// A pending `let` as the program holds it.
type PendingLet = (Symbol, anf::Rhs, Span);

/// The views of pending `let`s.
pub open spec fn binds_view(bs: Seq<(Symbol, anf::Rhs, Span)>) -> Seq<Bind> {
    bs.map_values(|b: (Symbol, anf::Rhs, Span)| (b.0@, rhs_view(b.1), b.2))
}

/// `body` inside the `let`s of `binds`, the first one outermost.
fn wrap_lets(binds: Vec<PendingLet>, body: anf::Expr) -> (r: anf::Expr)
    ensures
        r@ == wrap(binds_view(binds@), body@),
{
    let ghost orig = binds@;
    let mut binds = binds;
    let mut result = body;
    assert(binds_view(orig).skip(orig.len() as int) =~= Seq::<Bind>::empty());
    while binds.len() > 0
        invariant
            binds@ == orig.take(binds@.len() as int),
            binds@.len() <= orig.len(),
            result@ == wrap(binds_view(orig).skip(binds@.len() as int), body@),
        decreases binds@.len(),
    {
        let ghost k = binds@.len() - 1;
        let (sym, rhs, span) = match binds.pop() {
            Some(b) => b,
            None => vstd::pervasive::unreached(),
        };
        assert(binds@ =~= orig.take(k));
        assert(binds_view(orig).skip(k).skip(1) =~= binds_view(orig).skip(k + 1));
        assert(binds_view(orig).skip(k)[0] == binds_view(orig)[k]);
        result = anf::Expr::Let(anf::Let { initializer: Box::new((sym, rhs)), body: Box::new(result) }, span);
    }
    assert(binds_view(orig).skip(0) =~= binds_view(orig));
    result
}

fn reversed<T>(v: Vec<T>) -> (r: Vec<T>)
    ensures
        r@ == v@.reverse(),
{
    let ghost orig = v@;
    let ghost n = orig.len();
    let mut v = v;
    let mut r: Vec<T> = Vec::new();
    while v.len() > 0
        invariant
            v@ == orig.take(v@.len() as int),
            v@.len() + r@.len() == n,
            n == orig.len(),
            forall|k: int| 0 <= k < r@.len() ==> r@[k] == orig[n - 1 - k],
        decreases v@.len(),
    {
        let ghost k = v@.len() - 1;
        let x = match v.pop() {
            Some(x) => x,
            None => vstd::pervasive::unreached(),
        };
        assert(v@ =~= orig.take(k));
        r.push(x);
    }
    assert(r@ =~= orig.reverse());
    r
}

/// Normalizes `expr`: the `let`s that must enclose it are appended to `binds`,
/// and the atomic or complex expression that computes its value is returned.
fn a_normalize_expr(gen_sym: &mut GenSym, expr: core_expr::Expr, binds: &mut Vec<PendingLet>) -> (r: anf::Expr)
    requires
        well_formed(expr@),
        flat_expr(expr@, old(gen_sym).count()).2 <= u64::MAX,
    ensures
        binds_view(final(binds)@) == binds_view(old(binds)@) + flat_expr(expr@, old(gen_sym).count()).0,
        r@ == flat_expr(expr@, old(gen_sym).count()).1,
        final(gen_sym).count() == flat_expr(expr@, old(gen_sym).count()).2,
    decreases expr, 0int,
{
    proof {
        reveal_with_fuel(expr_view, 3);
    }
    let ghost n = gen_sym.count();
    let ghost ev = expr@;
    let ghost b0 = binds_view(binds@);
    match expr {
        core_expr::Expr::Literal(d) => {
            assert(binds_view(binds@) =~= b0 + Seq::<Bind>::empty());
            anf::Expr::AExpr(anf::AExpr::Literal(d))
        },
        core_expr::Expr::Var(v, s) => {
            assert(binds_view(binds@) =~= b0 + Seq::<Bind>::empty());
            anf::Expr::AExpr(anf::AExpr::Var(v, s))
        },
        core_expr::Expr::Lambda(l, s) => {
            let core_expr::Lambda { args, var_arg, body } = l;
            let body = a_normalize(gen_sym, *body);
            assert(binds_view(binds@) =~= b0 + Seq::<Bind>::empty());
            anf::Expr::AExpr(anf::AExpr::Lambda(anf::Lambda { args, var_arg, body: Box::new(body) }, s))
        },
        core_expr::Expr::Application(a, s) => {
            let core_expr::Application { operand, args } = a;
            let ghost argv = cores_view(args@);
            assert(argv =~= ev->Application_1);
            assert forall|i: int| 0 <= i < args@.len() implies well_formed(#[trigger] core_view(args@[i])) by {
                assert(well_formed(argv[i]));
            }
            proof {
                lemma_flat_name_count(core_view(*operand), n);
                lemma_flat_names_count(argv, flat_name(core_view(*operand), n).2);
            }
            let v = a_normalize_name(gen_sym, *operand, binds);
            let ghost b1 = binds_view(binds@);
            let vs = a_normalize_names(gen_sym, args, binds);
            assert(binds_view(binds@) =~= b0 + (b1.skip(b0.len() as int) + binds_view(binds@).skip(b1.len() as int)));
            anf::Expr::CExpr(anf::CExpr::Application(anf::Application { operand: Box::new(v), args: vs }, s))
        },
        core_expr::Expr::If(i, s) => {
            let core_expr::If { test, conseq, alt } = i;
            proof {
                lemma_flat_name_count(core_view(*test), n);
                let n1 = flat_name(core_view(*test), n).2;
                lemma_flat_expr_count(core_view(*conseq), n1);
                lemma_flat_expr_count(core_view(*alt), flat_expr(core_view(*conseq), n1).2);
            }
            let v = a_normalize_name(gen_sym, *test, binds);
            let c = a_normalize(gen_sym, *conseq);
            let a = a_normalize(gen_sym, *alt);
            anf::Expr::CExpr(anf::CExpr::If(anf::If { test: Box::new(v), conseq: Box::new(c), alt: Box::new(a) }, s))
        },
        core_expr::Expr::Assign(st, s) => {
            let core_expr::Assign { var, expr } = st;
            proof {
                lemma_flat_name_count(core_view(*expr), n);
            }
            let v = a_normalize_name(gen_sym, *expr, binds);
            anf::Expr::CExpr(anf::CExpr::Assign(anf::Assign { var, aexpr: v }, s))
        },
        core_expr::Expr::Begin(b, _) => {
            let core_expr::Begin { body } = b;
            let ghost bodyv = cores_view(body@);
            assert(bodyv =~= ev->Begin_0);
            assert forall|i: int| 0 <= i < body@.len() implies well_formed(#[trigger] core_view(body@[i])) by {
                assert(well_formed(bodyv[i]));
            }
            let mut vs = a_normalize_names(gen_sym, body, binds);
            proof {
                lemma_flat_names_len(bodyv, n);
            }
            let last = match vs.pop() {
                Some(last) => last,
                None => vstd::pervasive::unreached(),
            };
            anf::Expr::AExpr(anf::AExpr::from(last))
        },
    }
}

/// Normalizes `expr` into a value, appending the `let`s it needs to `binds`.
fn a_normalize_name(gen_sym: &mut GenSym, expr: core_expr::Expr, binds: &mut Vec<PendingLet>) -> (r: anf::Value)
    requires
        well_formed(expr@),
        flat_name(expr@, old(gen_sym).count()).2 <= u64::MAX,
    ensures
        binds_view(final(binds)@) == binds_view(old(binds)@) + flat_name(expr@, old(gen_sym).count()).0,
        r@ == flat_name(expr@, old(gen_sym).count()).1,
        final(gen_sym).count() == flat_name(expr@, old(gen_sym).count()).2,
    decreases expr, 1int,
{
    proof {
        reveal_with_fuel(expr_view, 3);
        lemma_flat_name_count(expr@, old(gen_sym).count());
        lemma_flat_expr_not_let(expr@, old(gen_sym).count());
    }
    let ghost b0 = binds_view(binds@);
    let normalized = a_normalize_expr(gen_sym, expr, binds);
    let span = normalized.get_span();
    let ghost b1 = binds_view(binds@);
    match normalized {
        anf::Expr::AExpr(anf::AExpr::Literal(d)) => anf::Value::Literal(d),
        anf::Expr::AExpr(anf::AExpr::Var(v, s)) => anf::Value::Var(v, s),
        anf::Expr::AExpr(a) => {
            let sym = gen_sym.fresh("anf");
            let binding = sym.duplicate();
            binds.push((sym, anf::Rhs::AExpr(a), span));
            assert(binds_view(binds@) =~= b1.push((anf_name(gen_sym.count()), RhsView::AExpr(anf::aexpr_view(a)), span)));
            anf::Value::Var(ResolvedVar::Bound { symbol: Symbol::new("anf"), binding }, span)
        },
        anf::Expr::CExpr(c) => {
            let sym = gen_sym.fresh("anf");
            let binding = sym.duplicate();
            binds.push((sym, anf::Rhs::CExpr(c), span));
            assert(binds_view(binds@) =~= b1.push((anf_name(gen_sym.count()), RhsView::CExpr(anf::cexpr_view(c)), span)));
            anf::Value::Var(ResolvedVar::Bound { symbol: Symbol::new("anf"), binding }, span)
        },
        anf::Expr::Let(..) => vstd::pervasive::unreached(),
    }
}

/// Normalizes each of `exprs` into a value, from left to right, appending the
/// `let`s they need to `binds`.
fn a_normalize_names(gen_sym: &mut GenSym, exprs: Vec<core_expr::Expr>, binds: &mut Vec<PendingLet>) -> (r: Vec<anf::Value>)
    requires
        forall|i: int| 0 <= i < exprs@.len() ==> well_formed(#[trigger] core_view(exprs@[i])),
        flat_names(cores_view(exprs@), old(gen_sym).count()).2 <= u64::MAX,
    ensures
        binds_view(final(binds)@) == binds_view(old(binds)@) + flat_names(cores_view(exprs@), old(gen_sym).count()).0,
        anf::values_view(r@) == flat_names(cores_view(exprs@), old(gen_sym).count()).1,
        final(gen_sym).count() == flat_names(cores_view(exprs@), old(gen_sym).count()).2,
    decreases exprs, 2int,
{
    let ghost orig = exprs@;
    let ghost es = cores_view(orig);
    let ghost n0 = gen_sym.count();
    let ghost b0 = binds_view(binds@);
    let ghost total = flat_names(es, n0);
    let mut stack = reversed(exprs);
    let mut values: Vec<anf::Value> = Vec::new();
    let ghost mut done: int = 0;
    assert(es.skip(0) =~= es);
    assert(orig.skip(0) =~= orig);
    assert(binds_view(binds@) + total.0 =~= b0 + total.0);
    assert(anf::values_view(values@) + total.1 =~= total.1);
    loop
        invariant
            0 <= done <= orig.len(),
            orig == exprs@,
            es == cores_view(orig),
            b0 == binds_view(old(binds)@),
            total == flat_names(es, old(gen_sym).count()),
            stack@ == orig.skip(done).reverse(),
            forall|i: int| 0 <= i < orig.len() ==> well_formed(#[trigger] core_view(orig[i])),
            binds_view(binds@) + flat_names(es.skip(done), gen_sym.count()).0 == b0 + total.0,
            anf::values_view(values@) + flat_names(es.skip(done), gen_sym.count()).1 == total.1,
            flat_names(es.skip(done), gen_sym.count()).2 == total.2,
            total.2 <= u64::MAX,
        decreases stack@.len(),
    {
        let ghost c = gen_sym.count();
        let ghost rest = es.skip(done);
        let ghost bv = binds_view(binds@);
        let ghost vv = anf::values_view(values@);
        let e = match stack.pop() {
            Some(e) => e,
            None => {
                assert(rest =~= Seq::<CoreView>::empty());
                assert(binds_view(binds@) =~= b0 + total.0);
                assert(anf::values_view(values@) =~= total.1);
                return values;
            },
        };
        assert(orig.skip(done).reverse().last() == orig[done]);
        assert(e == orig[done]);
        assert(stack@ =~= orig.skip(done + 1).reverse());
        assert(rest[0] == core_view(e));
        assert(rest.skip(1) =~= es.skip(done + 1));
        proof {
            lemma_flat_name_count(rest[0], c);
            lemma_flat_names_count(rest.skip(1), flat_name(rest[0], c).2);
            assert(decreases_to!(exprs => exprs@));
            assert(decreases_to!(exprs@ => exprs@[done]));
        }
        let v = a_normalize_name(gen_sym, e, binds);
        let ghost vview = v@;
        values.push(v);
        proof {
            let (b, v1, n1) = flat_name(rest[0], c);
            let (bs, vs, n2) = flat_names(rest.skip(1), n1);
            assert(binds_view(binds@) + bs =~= bv + (b + bs));
            assert(anf::values_view(values@) =~= vv.push(vview));
            assert(anf::values_view(values@) + vs =~= vv + (seq![v1] + vs));
            done = done + 1;
        }
    }
}

/// The A-normal form of `expr`: every operand of a call, test of a conditional
/// and assigned value is a literal or a variable, and every intermediate result
/// is bound by a `let` to a fresh name `anf:<n>` made by `gen_sym`.
pub fn a_normalize(gen_sym: &mut GenSym, expr: core_expr::Expr) -> (r: anf::Expr)
    requires
        well_formed(expr@),
        normalize(expr@, old(gen_sym).count()).1 <= u64::MAX,
    ensures
        r@ == normalize(expr@, old(gen_sym).count()).0,
        final(gen_sym).count() == normalize(expr@, old(gen_sym).count()).1,
    decreases expr, 1int,
{
    let mut binds: Vec<PendingLet> = Vec::new();
    let core = a_normalize_expr(gen_sym, expr, &mut binds);
    assert(binds_view(binds@) =~= Seq::<(Symbol, anf::Rhs, Span)>::empty().map_values(
        |b: (Symbol, anf::Rhs, Span)| (b.0@, rhs_view(b.1), b.2),
    ) + flat_expr(expr@, old(gen_sym).count()).0);
    wrap_lets(binds, core)
}

/// Which count a name made while normalizing carries.
pub open spec fn anf_index(name: Seq<char>) -> nat {
    choose|k: nat| anf_name(k) == name
}

/// Every `let` of `b` binds a name made while normalizing, with a count in
/// `lo + 1 ..= hi`, and no two of them bind the same name.
pub open spec fn fresh_between(b: Seq<Bind>, lo: nat, hi: nat) -> bool {
    &&& forall|i: int| 0 <= i < b.len() ==> #[trigger] anf_name(anf_index(b[i].0)) == b[i].0
    &&& forall|i: int| 0 <= i < b.len() ==> lo < #[trigger] anf_index(b[i].0) <= hi
    &&& forall|i: int, j: int| 0 <= i < j < b.len() ==> b[i].0 != b[j].0
}

proof fn lemma_fresh_concat(b1: Seq<Bind>, b2: Seq<Bind>, lo: nat, mid: nat, hi: nat)
    requires
        fresh_between(b1, lo, mid),
        fresh_between(b2, mid, hi),
        lo <= mid <= hi,
    ensures
        fresh_between(b1 + b2, lo, hi),
{
    let b = b1 + b2;
    assert forall|i: int| 0 <= i < b.len() implies #[trigger] anf_name(anf_index(b[i].0)) == b[i].0 by {
        if i >= b1.len() {
            assert(b[i] == b2[i - b1.len()]);
        } else {
            assert(b[i] == b1[i]);
        }
    }
    assert forall|i: int| 0 <= i < b.len() implies lo < #[trigger] anf_index(b[i].0) <= hi by {
        if i >= b1.len() {
            assert(b[i] == b2[i - b1.len()]);
        } else {
            assert(b[i] == b1[i]);
        }
    }
    assert forall|i: int, j: int| 0 <= i < j < b.len() implies b[i].0 != b[j].0 by {
        if j < b1.len() {
        } else if i >= b1.len() {
            assert(b[i] == b2[i - b1.len()]);
            assert(b[j] == b2[j - b1.len()]);
        } else {
            assert(b[j] == b2[j - b1.len()]);
            assert(anf_index(b1[i].0) <= mid);
            assert(anf_index(b2[j - b1.len()].0) > mid);
        }
    }
}

proof fn lemma_fresh_widen(b: Seq<Bind>, lo: nat, hi: nat, hi2: nat)
    requires
        fresh_between(b, lo, hi),
        hi <= hi2,
    ensures
        fresh_between(b, lo, hi2),
{
    assert forall|i: int| 0 <= i < b.len() implies lo < #[trigger] anf_index(b[i].0) <= hi2 by {
        assert(anf_index(b[i].0) <= hi);
    }
}

proof fn lemma_fresh_expr(e: CoreView, n: nat)
    ensures
        fresh_between(flat_expr(e, n).0, n, flat_expr(e, n).2),
    decreases e, 0int,
{
    match e {
        CoreView::Application(op, args, _) => {
            let n1 = flat_name(*op, n).2;
            lemma_flat_name_count(*op, n);
            lemma_flat_names_count(args, n1);
            lemma_fresh_name(*op, n);
            lemma_fresh_names(args, n1);
            lemma_fresh_concat(flat_name(*op, n).0, flat_names(args, n1).0, n, n1, flat_names(args, n1).2);
        },
        CoreView::If(t, c, a, _) => {
            lemma_fresh_name(*t, n);
            let n1 = flat_name(*t, n).2;
            lemma_flat_expr_count(*c, n1);
            lemma_flat_expr_count(*a, flat_expr(*c, n1).2);
            lemma_fresh_widen(flat_name(*t, n).0, n, n1, flat_expr(e, n).2);
        },
        CoreView::Assign(_, x, _) => {
            lemma_fresh_name(*x, n);
        },
        CoreView::Begin(body, _) => {
            lemma_fresh_names(body, n);
        },
        _ => {},
    }
}

proof fn lemma_fresh_name(e: CoreView, n: nat)
    ensures
        fresh_between(flat_name(e, n).0, n, flat_name(e, n).2),
    decreases e, 1int,
{
    lemma_fresh_expr(e, n);
    lemma_flat_expr_not_let(e, n);
    lemma_flat_expr_count(e, n);
    let (b, c, n1) = flat_expr(e, n);
    if !(c matches ExprView::AExpr(AExprView::Literal(_))) && !(c matches ExprView::AExpr(AExprView::Var(..))) {
        let b2 = flat_name(e, n).0;
        assert(exists|k: nat| #[trigger] anf_name(k) == anf_name(n1 + 1)) by {
            assert(anf_name(n1 + 1) == anf_name(n1 + 1));
        }
        let k = anf_index(anf_name(n1 + 1));
        law_fresh_distinct("anf"@, k, "anf"@, n1 + 1);
        assert(b2 == b.push(b2.last()));
        assert(b2.last().0 == anf_name(n1 + 1));
        assert forall|i: int| 0 <= i < b2.len() implies #[trigger] anf_name(anf_index(b2[i].0)) == b2[i].0 by {
            if i < b.len() {
                assert(b2[i] == b[i]);
            }
        }
        assert forall|i: int| 0 <= i < b2.len() implies n < #[trigger] anf_index(b2[i].0) <= n1 + 1 by {
            if i < b.len() {
                assert(b2[i] == b[i]);
            }
        }
        assert forall|i: int, j: int| 0 <= i < j < b2.len() implies b2[i].0 != b2[j].0 by {
            if j < b.len() {
                assert(b2[i] == b[i]);
                assert(b2[j] == b[j]);
            } else {
                assert(b2[i] == b[i]);
                assert(anf_index(b[i].0) <= n1);
            }
        }
    }
}

proof fn lemma_fresh_names(es: Seq<CoreView>, n: nat)
    ensures
        fresh_between(flat_names(es, n).0, n, flat_names(es, n).2),
    decreases es, 2int,
{
    if es.len() > 0 {
        let n1 = flat_name(es[0], n).2;
        lemma_flat_name_count(es[0], n);
        lemma_flat_names_count(es.skip(1), n1);
        lemma_fresh_name(es[0], n);
        lemma_fresh_names(es.skip(1), n1);
        lemma_fresh_concat(flat_name(es[0], n).0, flat_names(es.skip(1), n1).0, n, n1, flat_names(es.skip(1), n1).2);
    } else {
        assert(flat_names(es, n).0 =~= Seq::<Bind>::empty());
    }
}

/// The `let`s that normalization puts around an expression bind pairwise
/// distinct names `anf:<k>`, each made after the `n` names made before it and
/// no later than the count it ends with.
pub proof fn law_anf_lets_fresh(e: CoreView, n: nat)
    ensures
        fresh_between(flat_expr(e, n).0, n, flat_expr(e, n).2),
{
    lemma_fresh_expr(e, n);
}

} // verus!
