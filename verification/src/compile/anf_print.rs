use vstd::prelude::*;
use vstd::string::StringExecFns;

use super::anf::{
    aexpr_view, cexpr_view, rhs_view, values_view, AExpr, AExprView, Application, Assign,
    CExpr, CExprView, Expr, ExprView, If, Lambda, Let, Rhs, RhsView, Value, ValueView, VarView,
};
use super::anf::{option_view, symbols_view};
use super::ident::{ResolvedVar, Symbol};
use super::sexpr::{datum_text, SExpr, SExprView};
use super::text::push_char;

verus! {

/// `n` spaces.
pub open spec fn spaces(n: nat) -> Seq<char> {
    Seq::new(n, |i: int| ' ')
}

/// How a variable is written: a bound one as its binding, a free one as its
/// name followed by `:free`.
pub open spec fn var_text(v: VarView) -> Seq<char> {
    match v.1 {
        Some(b) => b,
        None => v.0 + ":free"@,
    }
}

/// How a literal is written: a symbol, a pair or `()` quoted with `'`.
pub open spec fn literal_text(d: SExprView<Seq<char>>) -> Seq<char> {
    if d is Var || d is Cons || d is Nil {
        seq!['\''] + datum_text(d)
    } else {
        datum_text(d)
    }
}

/// How a value is written.
pub open spec fn value_text(v: ValueView) -> Seq<char> {
    match v {
        ValueView::Literal(d) => literal_text(d),
        ValueView::Var(x, _) => var_text(x),
    }
}

/// Values written one after the other, each after a space.
pub open spec fn values_text(vs: Seq<ValueView>) -> Seq<char>
    decreases vs.len(),
{
    if vs.len() == 0 {
        Seq::empty()
    } else {
        seq![' '] + value_text(vs[0]) + values_text(vs.skip(1))
    }
}

/// Names separated by single spaces.
pub open spec fn names_text(ns: Seq<Seq<char>>) -> Seq<char>
    decreases ns.len(),
{
    if ns.len() == 0 {
        Seq::empty()
    } else if ns.len() == 1 {
        ns[0]
    } else {
        ns[0] + seq![' '] + names_text(ns.skip(1))
    }
}

/// How a lambda's parameters are written: `()`, the rest parameter alone, or
/// the fixed ones in parentheses, with ` . rest` before the closing one.
pub open spec fn params_text(args: Seq<Seq<char>>, var_arg: Option<Seq<char>>) -> Seq<char> {
    if args.len() == 0 {
        match var_arg {
            None => "()"@,
            Some(v) => v,
        }
    } else {
        seq!['('] + names_text(args) + match var_arg {
            Some(v) => " . "@ + v + seq![')'],
            None => seq![')'],
        }
    }
}

/// Whether an expression is written over several lines: a `let`, a lambda, or
/// an `if` with a branch that is.
pub open spec fn multilined(e: ExprView) -> bool
    decreases e,
{
    match e {
        ExprView::AExpr(a) => a is Lambda,
        ExprView::CExpr(c) => multilined_cexpr(c),
        ExprView::Let(..) => true,
    }
}

pub open spec fn multilined_cexpr(c: CExprView) -> bool
    decreases c,
{
    match c {
        CExprView::If(_, conseq, alt, _) => multilined(*conseq) || multilined(*alt),
        _ => false,
    }
}

pub open spec fn multilined_rhs(r: RhsView) -> bool {
    match r {
        RhsView::AExpr(a) => a is Lambda,
        RhsView::CExpr(c) => multilined_cexpr(c),
    }
}

/// How an expression is written, each line of it after `ind` spaces: a `let`
/// as `(let ((name rhs))` and its body on the next line two columns in (a rhs
/// written over several lines starts on a line of its own, seven columns in);
/// a lambda as `(λ params body)`, a body over several lines starting on the
/// next line two columns in; an `if` on one line, or over three with its
/// branches four columns in; a call as its operator and operands in
/// parentheses; an assignment as `(set! var value)`.
pub open spec fn expr_text(e: ExprView, ind: nat) -> Seq<char>
    decreases e,
{
    match e {
        ExprView::AExpr(a) => aexpr_text(a, ind),
        ExprView::CExpr(c) => cexpr_text(c, ind),
        ExprView::Let(name, rhs, body, _) => spaces(ind) + "(let (("@ + name + (if multilined_rhs(rhs) {
            seq!['\n'] + rhs_text(rhs, ind + 7)
        } else {
            seq![' '] + rhs_text(rhs, 0)
        }) + "))\n"@ + expr_text(*body, ind + 2) + seq![')'],
    }
}

pub open spec fn aexpr_text(a: AExprView, ind: nat) -> Seq<char>
    decreases a,
{
    spaces(ind) + match a {
        AExprView::Literal(d) => literal_text(d),
        AExprView::Var(x, _) => var_text(x),
        AExprView::Lambda(args, var_arg, body, _) => "(λ "@ + params_text(args, var_arg) + (if multilined(*body) {
            seq!['\n'] + expr_text(*body, ind + 2)
        } else {
            seq![' '] + expr_text(*body, 0)
        }) + seq![')'],
    }
}

pub open spec fn cexpr_text(c: CExprView, ind: nat) -> Seq<char>
    decreases c,
{
    spaces(ind) + match c {
        CExprView::Application(op, args, _) => seq!['('] + value_text(op) + values_text(args) + seq![')'],
        CExprView::If(t, conseq, alt, _) => if multilined(*conseq) || multilined(*alt) {
            "(if "@ + value_text(t) + seq!['\n'] + expr_text(*conseq, ind + 4) + seq!['\n'] + expr_text(*alt, ind + 4) + seq![')']
        } else {
            "(if "@ + value_text(t) + seq![' '] + expr_text(*conseq, 0) + seq![' '] + expr_text(*alt, 0) + seq![')']
        },
        CExprView::Assign(x, v, _) => "(set! "@ + var_text(x) + seq![' '] + value_text(v) + seq![')'],
    }
}

pub open spec fn rhs_text(r: RhsView, ind: nat) -> Seq<char>
    decreases r,
{
    match r {
        RhsView::AExpr(a) => aexpr_text(a, ind),
        RhsView::CExpr(c) => cexpr_text(c, ind),
    }
}

/// How deep lets, lambdas and ifs nest in an expression.
pub open spec fn nesting(e: ExprView) -> nat
    decreases e,
{
    match e {
        ExprView::AExpr(a) => aexpr_nesting(a),
        ExprView::CExpr(c) => cexpr_nesting(c),
        ExprView::Let(_, rhs, body, _) => 1 + vstd::math::max(rhs_nesting(rhs) as int, nesting(*body) as int) as nat,
    }
}

pub open spec fn aexpr_nesting(a: AExprView) -> nat
    decreases a,
{
    match a {
        AExprView::Lambda(_, _, body, _) => 1 + nesting(*body),
        _ => 0,
    }
}

pub open spec fn cexpr_nesting(c: CExprView) -> nat
    decreases c,
{
    match c {
        CExprView::If(_, conseq, alt, _) => 1 + vstd::math::max(nesting(*conseq) as int, nesting(*alt) as int) as nat,
        _ => 0,
    }
}

pub open spec fn rhs_nesting(r: RhsView) -> nat
    decreases r,
{
    match r {
        RhsView::AExpr(a) => aexpr_nesting(a),
        RhsView::CExpr(c) => cexpr_nesting(c),
    }
}

fn write_spaces(out: &mut String, n: usize)
    ensures
        final(out)@ == old(out)@ + spaces(n as nat),
{
    let mut i: usize = 0;
    while i < n
        invariant
            i <= n,
            out@ == old(out)@ + spaces(i as nat),
        decreases n - i,
    {
        push_char(out, ' ');
        assert(spaces((i + 1) as nat) =~= spaces(i as nat).push(' '));
        i = i + 1;
    }
}

fn write_var(out: &mut String, v: &ResolvedVar)
    ensures
        final(out)@ == old(out)@ + var_text(v@),
{
    match v {
        ResolvedVar::Bound { binding, .. } => {
            out.append(binding.0.as_str());
        },
        ResolvedVar::Free { symbol } => {
            out.append(symbol.0.as_str());
            out.append(":free");
            assert(out@ =~= old(out)@ + var_text(v@));
        },
    }
}

fn write_literal(out: &mut String, d: &SExpr<Symbol>)
    ensures
        final(out)@ == old(out)@ + literal_text(d@),
{
    let quoted = match d {
        SExpr::Var(..) | SExpr::Cons(..) | SExpr::Nil(..) => true,
        _ => false,
    };
    if quoted {
        push_char(out, '\'');
    }
    let text = d.display();
    out.append(text.as_str());
    assert(out@ =~= old(out)@ + literal_text(d@));
}

fn write_value(out: &mut String, v: &Value)
    ensures
        final(out)@ == old(out)@ + value_text(v@),
{
    match v {
        Value::Literal(d) => write_literal(out, d),
        Value::Var(x, _) => write_var(out, x),
    }
}

fn write_params(out: &mut String, args: &Vec<Symbol>, var_arg: &Option<Symbol>)
    ensures
        final(out)@ == old(out)@ + params_text(symbols_view(args@), option_view(*var_arg)),
{
    let ghost ns = symbols_view(args@);
    if args.len() == 0 {
        match var_arg {
            None => {
                out.append("()");
            },
            Some(v) => {
                out.append(v.0.as_str());
            },
        }
        return;
    }
    push_char(out, '(');
    let mut i: usize = 0;
    while i < args.len()
        invariant
            0 < args.len(),
            i <= args.len(),
            ns == symbols_view(args@),
            i > 0 ==> out@ == old(out)@ + seq!['('] + names_text(ns.take(i as int)),
            i == 0 ==> out@ == old(out)@ + seq!['('],
        decreases args.len() - i,
    {
        let ghost before = out@;
        if i > 0 {
            push_char(out, ' ');
        }
        out.append(args[i].0.as_str());
        proof {
            lemma_names_text_push(ns.take(i as int), ns[i as int]);
            assert(ns.take(i + 1) =~= ns.take(i as int).push(ns[i as int]));
            if i == 0 {
                assert(ns.take(1) =~= seq![ns[0]]);
                assert(names_text(ns.take(1)) == ns[0]);
            }
        }
        i = i + 1;
    }
    assert(ns.take(args.len() as int) =~= ns);
    match var_arg {
        Some(v) => {
            out.append(" . ");
            out.append(v.0.as_str());
            push_char(out, ')');
        },
        None => {
            push_char(out, ')');
        },
    }
    assert(out@ =~= old(out)@ + params_text(ns, option_view(*var_arg)));
}

/// Adding a name to a non-empty list of names adds a space and the name.
proof fn lemma_names_text_push(ns: Seq<Seq<char>>, n: Seq<char>)
    ensures
        ns.len() > 0 ==> names_text(ns.push(n)) == names_text(ns) + seq![' '] + n,
    decreases ns.len(),
{
    if ns.len() > 1 {
        lemma_names_text_push(ns.skip(1), n);
        assert(ns.push(n).skip(1) =~= ns.skip(1).push(n));
        assert(ns.push(n)[0] == ns[0]);
        assert(names_text(ns.push(n)) =~= names_text(ns) + seq![' '] + n);
    } else if ns.len() == 1 {
        assert(ns.push(n).skip(1) =~= seq![n]);
        assert(names_text(seq![n]) == n);
        assert(ns.push(n)[0] == ns[0]);
        assert(names_text(ns) == ns[0]);
        assert(names_text(ns.push(n)) =~= names_text(ns) + seq![' '] + n);
    }
}

fn is_multilined(e: &Expr) -> (r: bool)
    ensures
        r == multilined(e@),
    decreases e,
{
    match e {
        Expr::AExpr(a) => {
            assert(e@ == ExprView::AExpr(aexpr_view(*a)));
            matches!(a, AExpr::Lambda(..))
        },
        Expr::CExpr(c) => is_multilined_cexpr(c),
        Expr::Let(..) => true,
    }
}

fn is_multilined_cexpr(c: &CExpr) -> (r: bool)
    ensures
        r == multilined_cexpr(cexpr_view(*c)),
    decreases c,
{
    match c {
        CExpr::If(If { conseq, alt, .. }, _) => is_multilined(conseq) || is_multilined(alt),
        _ => false,
    }
}

fn is_multilined_rhs(r: &Rhs) -> (b: bool)
    ensures
        b == multilined_rhs(rhs_view(*r)),
{
    match r {
        Rhs::AExpr(a) => matches!(a, AExpr::Lambda(..)),
        Rhs::CExpr(c) => is_multilined_cexpr(c),
    }
}

fn write_expr(out: &mut String, e: &Expr, ind: usize)
    requires
        ind + 7 * nesting(e@) <= usize::MAX,
    ensures
        final(out)@ == old(out)@ + expr_text(e@, ind as nat),
    decreases e, 1int,
{
    match e {
        Expr::AExpr(a) => write_aexpr(out, a, ind),
        Expr::CExpr(c) => write_cexpr(out, c, ind),
        Expr::Let(..) => write_let(out, e, ind),
    }
}

#[verifier::rlimit(40)]
fn write_let(out: &mut String, e: &Expr, ind: usize)
    requires
        e is Let,
        ind + 7 * nesting(e@) <= usize::MAX,
    ensures
        final(out)@ == old(out)@ + expr_text(e@, ind as nat),
    decreases e, 0int,
{
    match e {
        Expr::Let(Let { initializer, body }, _) => {
            let ghost rhs = rhs_view(initializer.1);
            assert(nesting(e@) >= 1 + rhs_nesting(rhs));
            assert(nesting(e@) >= 1 + nesting(body@));
            write_spaces(out, ind);
            out.append("(let ((");
            out.append(initializer.0.0.as_str());
            let ghost s0 = out@;
            if is_multilined_rhs(&initializer.1) {
                push_char(out, '\n');
                write_rhs(out, &initializer.1, ind + 7);
                assert(out@ =~= s0 + (seq!['\n'] + rhs_text(rhs, (ind + 7) as nat)));
            } else {
                push_char(out, ' ');
                write_rhs(out, &initializer.1, 0);
                assert(out@ =~= s0 + (seq![' '] + rhs_text(rhs, 0)));
            }
            let ghost s1 = out@;
            out.append("))\n");
            write_expr(out, body, ind + 2);
            push_char(out, ')');
            assert(out@ =~= s1 + ("))\n"@ + expr_text(body@, (ind + 2) as nat) + seq![')']));
            assert(out@ =~= old(out)@ + expr_text(e@, ind as nat));
        },
        _ => vstd::pervasive::unreached(),
    }
}

fn write_rhs(out: &mut String, r: &Rhs, ind: usize)
    requires
        ind + 7 * rhs_nesting(rhs_view(*r)) <= usize::MAX,
    ensures
        final(out)@ == old(out)@ + rhs_text(rhs_view(*r), ind as nat),
    decreases r, 1int,
{
    match r {
        Rhs::AExpr(a) => write_aexpr(out, a, ind),
        Rhs::CExpr(c) => write_cexpr(out, c, ind),
    }
}

fn write_aexpr(out: &mut String, a: &AExpr, ind: usize)
    requires
        ind + 7 * aexpr_nesting(aexpr_view(*a)) <= usize::MAX,
    ensures
        final(out)@ == old(out)@ + aexpr_text(aexpr_view(*a), ind as nat),
    decreases a, 1int,
{
    write_spaces(out, ind);
    let ghost start = out@;
    match a {
        AExpr::Literal(d) => write_literal(out, d),
        AExpr::Var(x, _) => write_var(out, x),
        AExpr::Lambda(Lambda { args, var_arg, body }, _) => {
            out.append("(λ ");
            write_params(out, args, var_arg);
            if is_multilined(body) {
                push_char(out, '\n');
                write_expr(out, body, ind + 2);
            } else {
                push_char(out, ' ');
                write_expr(out, body, 0);
            }
            push_char(out, ')');
        },
    }
    assert(out@ =~= old(out)@ + aexpr_text(aexpr_view(*a), ind as nat));
}

fn write_cexpr(out: &mut String, c: &CExpr, ind: usize)
    requires
        ind + 7 * cexpr_nesting(cexpr_view(*c)) <= usize::MAX,
    ensures
        final(out)@ == old(out)@ + cexpr_text(cexpr_view(*c), ind as nat),
    decreases c, 1int,
{
    write_spaces(out, ind);
    let ghost start = out@;
    match c {
        CExpr::Application(Application { operand, args }, _) => {
            write_application(out, operand, args);
        },
        CExpr::If(If { test, conseq, alt }, _) => {
            out.append("(if ");
            write_value(out, test);
            if is_multilined(conseq) || is_multilined(alt) {
                push_char(out, '\n');
                write_expr(out, conseq, ind + 4);
                push_char(out, '\n');
                write_expr(out, alt, ind + 4);
                push_char(out, ')');
                assert(out@ =~= start + ("(if "@ + value_text(test@) + seq!['\n'] + expr_text(conseq@, (ind + 4) as nat)
                    + seq!['\n'] + expr_text(alt@, (ind + 4) as nat) + seq![')']));
            } else {
                push_char(out, ' ');
                write_expr(out, conseq, 0);
                push_char(out, ' ');
                write_expr(out, alt, 0);
                push_char(out, ')');
                assert(out@ =~= start + ("(if "@ + value_text(test@) + seq![' '] + expr_text(conseq@, 0) + seq![' ']
                    + expr_text(alt@, 0) + seq![')']));
            }
        },
        CExpr::Assign(Assign { var, aexpr }, _) => {
            out.append("(set! ");
            write_var(out, var);
            push_char(out, ' ');
            write_value(out, aexpr);
            push_char(out, ')');
            assert(out@ =~= start + ("(set! "@ + var_text(var@) + seq![' '] + value_text(aexpr@) + seq![')']));
        },
    }
    assert(out@ =~= old(out)@ + cexpr_text(cexpr_view(*c), ind as nat));
}

fn write_application(out: &mut String, operand: &Value, args: &Vec<Value>)
    ensures
        final(out)@ == old(out)@ + (seq!['('] + value_text(operand@) + values_text(values_view(args@)) + seq![')']),
{
    push_char(out, '(');
    write_value(out, operand);
    let ghost vs = values_view(args@);
    let ghost head = out@;
    let mut i: usize = 0;
    assert(vs.take(0) =~= Seq::<ValueView>::empty());
    while i < args.len()
        invariant
            i <= args.len(),
            vs == values_view(args@),
            out@ == head + values_text(vs.take(i as int)),
        decreases args.len() - i,
    {
        push_char(out, ' ');
        write_value(out, &args[i]);
        proof {
            lemma_values_text_push(vs.take(i as int), vs[i as int]);
            assert(vs.take(i + 1) =~= vs.take(i as int).push(vs[i as int]));
        }
        i = i + 1;
    }
    assert(vs.take(args.len() as int) =~= vs);
    push_char(out, ')');
    assert(out@ =~= old(out)@ + (seq!['('] + value_text(operand@) + values_text(vs) + seq![')']));
}

/// Adding a value adds a space and its text.
proof fn lemma_values_text_push(vs: Seq<ValueView>, v: ValueView)
    ensures
        values_text(vs.push(v)) == values_text(vs) + seq![' '] + value_text(v),
    decreases vs.len(),
{
    if vs.len() == 0 {
        assert(vs.push(v).skip(1) =~= Seq::<ValueView>::empty());
        assert(values_text(vs.push(v).skip(1)) == Seq::<char>::empty());
        assert(vs.push(v)[0] == v);
    } else {
        lemma_values_text_push(vs.skip(1), v);
        assert(vs.push(v).skip(1) =~= vs.skip(1).push(v));
        assert(vs.push(v)[0] == vs[0]);
    }
}

impl Expr {
    /// The expression written as `expr_text` describes, from column 0.
    pub fn display(&self) -> (r: String)
        requires
            7 * nesting(self@) <= usize::MAX,
        ensures
            r@ == expr_text(self@, 0),
    {
        let mut out = String::new();
        write_expr(&mut out, self, 0);
        assert(out@ =~= expr_text(self@, 0));
        out
    }
}

} // verus!
