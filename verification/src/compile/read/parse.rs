use vstd::prelude::*;

use crate::compile::compilation_error::CompilationError;
use crate::compile::ident::{Duplicate, Symbol};
use crate::compile::read::token::{tokens_view, Token, TokenView};
use crate::compile::sexpr::{Bool, Char, Cons, Num, SExpr, SExprView, Str, Vector};
use crate::compile::span::Span;
use crate::compile::text::string_of;

verus! {

/// A datum as the reader produces it: an s-expression over symbol texts.
pub type Datum = SExprView<Seq<char>>;

/// The error value of the reader: where and why.
pub type ReadError = (Span, Seq<char>);

/// The views of a sequence of s-expressions.
pub open spec fn sexprs_view(es: Seq<SExpr<Symbol>>) -> Seq<Datum> {
    es.map_values(|e: SExpr<Symbol>| e@)
}

/// An error about the token `t`, naming it after the reason.
pub open spec fn err_at(t: TokenView, reason: Seq<char>) -> ReadError {
    (t.span(), reason + ", but got: "@ + t.display())
}

pub open spec fn is_atom(t: TokenView) -> bool {
    t is Id || t is Bool || t is Num || t is Char || t is Str
}

/// The datum of an atomic token.
pub open spec fn atom_of(t: TokenView) -> Datum {
    match t {
        TokenView::Id(s, sp) => SExprView::Var(s, sp),
        TokenView::Bool(b, sp) => SExprView::Bool(b, sp),
        TokenView::Num(n, sp) => SExprView::Num(n, sp),
        TokenView::Char(c, sp) => SExprView::Char(c, sp),
        TokenView::Str(s, sp) => SExprView::Str(s, sp),
        _ => SExprView::Nil(t.span()),
    }
}

pub open spec fn is_prefix(t: TokenView) -> bool {
    t is Quote || t is QuasiQuote || t is Comma || t is CommaAt
}

/// The symbol that an abbreviation prefix stands for.
pub open spec fn prefix_of(t: TokenView) -> Datum {
    match t {
        TokenView::Quote(sp) => SExprView::Var("quote"@, sp),
        TokenView::QuasiQuote(sp) => SExprView::Var("quasiquote"@, sp),
        TokenView::Comma(sp) => SExprView::Var("unquote"@, sp),
        _ => SExprView::Var("unquote-splicing"@, t.span()),
    }
}

/// The list of `elems` ending in `tail`, each pair spanning its two parts.
pub open spec fn cons_onto(elems: Seq<Datum>, tail: Datum) -> Datum
    decreases elems.len(),
{
    if elems.len() == 0 {
        tail
    } else {
        SExprView::pair(elems[0], cons_onto(elems.skip(1), tail))
    }
}

/// A proper list of `elems` whose closing parenthesis spans `end` and whose
/// whole span starts at `start`.
pub open spec fn list_of(elems: Seq<Datum>, start: Span, end: Span) -> Datum {
    let l = cons_onto(elems, SExprView::Nil(end));
    l.with_span(start.spec_combine(l.span()))
}

/// A dotted list of `elems` (at least two; the last is the tail) whose closing
/// parenthesis spans `end` and whose whole span starts at `start`.
pub open spec fn improper_list_of(elems: Seq<Datum>, start: Span, end: Span) -> Datum {
    let n = elems.len() as int;
    let core = SExprView::pair(elems[n - 2], elems[n - 1]);
    let l = cons_onto(elems.take(n - 2), core.with_span(core.span().spec_combine(end)));
    l.with_span(start.spec_combine(l.span()))
}

/// Reads one datum starting at token `pos`: the datum and the index after it.
pub open spec fn read_datum(ts: Seq<TokenView>, pos: int) -> Result<(Datum, int), ReadError>
    decreases ts.len() - pos, 0int,
{
    if pos < 0 || pos >= ts.len() {
        Err((Span { lo: 0, hi: 0 }, Seq::empty()))
    } else {
        let t = ts[pos];
        if is_atom(t) {
            Ok((atom_of(t), pos + 1))
        } else if t is LParen {
            match read_elems(ts, pos + 1, Seq::empty(), true) {
                Err(e) => Err(e),
                Ok((es, q)) => {
                    if q <= pos || q >= ts.len() {
                        Err((Span { lo: 0, hi: 0 }, Seq::empty()))
                    } else {
                        let u = ts[q];
                        if u is Dot {
                            if es.len() == 0 {
                                Err(err_at(u, "Expected a datum after '('"@))
                            } else {
                                match read_datum(ts, q + 1) {
                                    Err(e) => Err(e),
                                    Ok((tail, r)) => {
                                        if r <= q || r >= ts.len() {
                                            Err((Span { lo: 0, hi: 0 }, Seq::empty()))
                                        } else if ts[r] is RParen {
                                            Ok(
                                                (
                                                    improper_list_of(es.push(tail), t.span(), ts[r].span()),
                                                    r + 1,
                                                ),
                                            )
                                        } else {
                                            Err(err_at(ts[r], "Expected ')' after dotted datum"@))
                                        }
                                    },
                                }
                            }
                        } else if u is RParen {
                            Ok((list_of(es, t.span(), u.span()), q + 1))
                        } else {
                            Err(err_at(u, "Expected ')' to close '('"@))
                        }
                    }
                },
            }
        } else if t is HashLParen {
            match read_elems(ts, pos + 1, Seq::empty(), false) {
                Err(e) => Err(e),
                Ok((es, q)) => {
                    if q <= pos || q >= ts.len() {
                        Err((Span { lo: 0, hi: 0 }, Seq::empty()))
                    } else if ts[q] is RParen {
                        Ok((SExprView::Vector(es, t.span().spec_combine(ts[q].span())), q + 1))
                    } else {
                        Err(err_at(ts[q], "Expected ')' to close '#('"@))
                    }
                },
            }
        } else if is_prefix(t) {
            match read_datum(ts, pos + 1) {
                Err(e) => Err(e),
                Ok((d, q)) => Ok((list_of(seq![prefix_of(t), d], t.span(), d.span()), q)),
            }
        } else {
            Err(err_at(t, "Expected a datum"@))
        }
    }
}

/// Reads the data of a list or vector from token `pos` on, after `acc`, up to
/// the first `)`, end of input or (when `dot_stops`) dot.
pub open spec fn read_elems(ts: Seq<TokenView>, pos: int, acc: Seq<Datum>, dot_stops: bool) -> Result<
    (Seq<Datum>, int),
    ReadError,
>
    decreases ts.len() - pos, 1int,
{
    if pos < 0 || pos >= ts.len() {
        Ok((acc, pos))
    } else {
        let t = ts[pos];
        if t is RParen || t is EoF || (dot_stops && t is Dot) {
            Ok((acc, pos))
        } else {
            match read_datum(ts, pos) {
                Err(e) => Err(e),
                Ok((d, q)) => {
                    if q <= pos || q > ts.len() {
                        Ok((acc, pos))
                    } else {
                        read_elems(ts, q, acc.push(d), dot_stops)
                    }
                },
            }
        }
    }
}

/// Reads the data from token `pos` to the end of input, after `acc`.
pub open spec fn read_all(ts: Seq<TokenView>, pos: int, acc: Seq<Datum>) -> Result<Seq<Datum>, ReadError>
    decreases ts.len() - pos,
{
    if pos < 0 || pos >= ts.len() || ts[pos] is EoF {
        Ok(acc)
    } else {
        match read_datum(ts, pos) {
            Err(e) => Err(e),
            Ok((d, q)) => {
                if q <= pos || q > ts.len() {
                    Ok(acc)
                } else {
                    read_all(ts, q, acc.push(d))
                }
            },
        }
    }
}

/// The data of a token stream, or the first syntax error. The stream must be
/// non-empty and end with the end-of-input token.
pub open spec fn spec_parse(ts: Seq<TokenView>) -> Result<Seq<Datum>, ReadError> {
    if ts.len() == 0 {
        Err((Span { lo: 0, hi: 0 }, "Token stream must have at least 1 token"@))
    } else if !(ts.last() is EoF) {
        Err((ts.last().span(), "Token stream must end with the EOF token"@))
    } else {
        read_all(ts, 0, Seq::empty())
    }
}

// ---------------------------------------------------------------------------
// Positions stay inside the stream
// ---------------------------------------------------------------------------

pub open spec fn well_ended(ts: Seq<TokenView>) -> bool {
    ts.len() > 0 && ts.last() is EoF
}

proof fn lemma_read_bounds(ts: Seq<TokenView>, pos: int, acc: Seq<Datum>, dot_stops: bool)
    requires
        well_ended(ts),
        0 <= pos < ts.len(),
    ensures
        read_datum(ts, pos) matches Ok((_, q)) ==> pos < q < ts.len(),
        read_elems(ts, pos, acc, dot_stops) matches Ok((_, q)) ==> pos <= q < ts.len() && (
        ts[q] is RParen || ts[q] is EoF || (dot_stops && ts[q] is Dot)),
    decreases ts.len() - pos,
{
    let t = ts[pos];
    if pos + 1 < ts.len() {
        lemma_read_bounds(ts, pos + 1, Seq::empty(), true);
        lemma_read_bounds(ts, pos + 1, Seq::empty(), false);
    }
    if !(t is RParen || t is EoF || (dot_stops && t is Dot)) {
        if let Ok((d, q)) = read_datum(ts, pos) {
            if pos < q < ts.len() {
                lemma_read_bounds(ts, q, acc.push(d), dot_stops);
            }
        }
    }
    if t is LParen {
        if let Ok((es, q)) = read_elems(ts, pos + 1, Seq::empty(), true) {
            if pos < q < ts.len() && ts[q] is Dot && q + 1 < ts.len() {
                lemma_read_bounds(ts, q + 1, Seq::empty(), true);
            }
        }
    }
    if pos == ts.len() - 1 {
        assert(t is EoF);
    }
}

// ---------------------------------------------------------------------------
// Building lists
// ---------------------------------------------------------------------------

proof fn lemma_view_span<T: View>(e: SExpr<T>)
    ensures
        e@.span() == e.spec_span(),
{
}

proof fn lemma_cons_onto_take(s: Seq<Datum>, k: int, tail: Datum)
    requires
        0 <= k < s.len(),
    ensures
        cons_onto(s.take(k + 1), tail) == cons_onto(s.take(k), SExprView::pair(s[k], tail)),
    decreases k,
{
    if k == 0 {
        assert(s.take(1).skip(1) =~= Seq::<Datum>::empty());
        assert(s.take(0) =~= Seq::<Datum>::empty());
        assert(cons_onto(s.take(1), tail) == SExprView::pair(s[0], cons_onto(s.take(1).skip(1), tail)));
    } else {
        lemma_cons_onto_take(s.skip(1), k - 1, tail);
        assert(s.take(k + 1).skip(1) =~= s.skip(1).take(k));
        assert(s.take(k).skip(1) =~= s.skip(1).take(k - 1));
        assert(s.skip(1)[k - 1] == s[k]);
        assert(cons_onto(s.take(k + 1), tail) == SExprView::pair(
            s[0],
            cons_onto(s.take(k + 1).skip(1), tail),
        ));
        assert(cons_onto(s.take(k), SExprView::pair(s[k], tail)) == SExprView::pair(
            s[0],
            cons_onto(s.take(k).skip(1), SExprView::pair(s[k], tail)),
        ));
    }
}

/// Pairs the elements of `v` in front of `tail`.
fn cons_all(v: Vec<SExpr<Symbol>>, tail: SExpr<Symbol>) -> (r: SExpr<Symbol>)
    ensures
        r@ == cons_onto(sexprs_view(v@), tail@),
{
    let ghost orig = sexprs_view(v@);
    let mut v = v;
    let mut res = tail;
    while v.len() > 0
        invariant
            v@.len() <= orig.len(),
            sexprs_view(v@) == orig.take(v@.len() as int),
            cons_onto(sexprs_view(v@), res@) == cons_onto(orig, tail@),
        decreases v@.len(),
    {
        let ghost before = v@;
        let e = v.pop().unwrap();
        proof {
            assert(sexprs_view(v@) =~= orig.take(v@.len() as int));
            assert(before.last() == e);
            assert(sexprs_view(before)[v@.len() as int] == e@);
            assert(orig.take(before.len() as int)[v@.len() as int] == orig[v@.len() as int]);
            assert(e@ == orig[v@.len() as int]);
            lemma_cons_onto_take(orig, v@.len() as int, res@);
            assert(orig.take(v@.len() as int + 1) =~= sexprs_view(before));
            lemma_view_span(e);
            lemma_view_span(res);
        }
        res = SExpr::cons(e, res);
    }
    assert(sexprs_view(v@) =~= Seq::<Datum>::empty());
    res
}

proof fn lemma_with_span_view(e: SExpr<Symbol>, span: Span, f: SExpr<Symbol>)
    requires
        f == match e {
            SExpr::Var(v, _) => SExpr::Var(v, span),
            SExpr::Cons(c, _) => SExpr::Cons(c, span),
            SExpr::Nil(_) => SExpr::Nil(span),
            SExpr::Bool(b, _) => SExpr::Bool(b, span),
            SExpr::Num(n, _) => SExpr::Num(n, span),
            SExpr::Char(c, _) => SExpr::Char(c, span),
            SExpr::Str(t, _) => SExpr::Str(t, span),
            SExpr::Vector(v, _) => SExpr::Vector(v, span),
            SExpr::Void(_) => SExpr::Void(span),
        },
    ensures
        f@ == e@.with_span(span),
{
}

fn make_list(elements: Vec<SExpr<Symbol>>, start: Span, end: Span) -> (r: SExpr<Symbol>)
    ensures
        r@ == list_of(sexprs_view(elements@), start, end),
{
    let mut res = cons_all(elements, SExpr::Nil(end));
    let span = start.combine(res.get_span());
    proof {
        lemma_view_span(res);
    }
    let ghost before = res;
    res.update_span(span);
    proof {
        lemma_with_span_view(before, span, res);
    }
    res
}

fn make_improper_list(elements: Vec<SExpr<Symbol>>, start: Span, end: Span) -> (r: SExpr<Symbol>)
    requires
        elements@.len() >= 2,
    ensures
        r@ == improper_list_of(sexprs_view(elements@), start, end),
{
    let ghost all = sexprs_view(elements@);
    let ghost n = all.len() as int;
    let mut elements = elements;
    let cdr = elements.pop().unwrap();
    let car = elements.pop().unwrap();
    proof {
        assert(cdr@ == all[n - 1]);
        assert(car@ == all[n - 2]);
        assert(sexprs_view(elements@) =~= all.take(n - 2));
        lemma_view_span(car);
        lemma_view_span(cdr);
    }
    let mut core = SExpr::cons(car, cdr);
    let span = core.get_span().combine(end);
    proof {
        lemma_view_span(core);
    }
    let ghost before = core;
    core.update_span(span);
    proof {
        lemma_with_span_view(before, span, core);
    }
    let mut res = cons_all(elements, core);
    let span = start.combine(res.get_span());
    proof {
        lemma_view_span(res);
    }
    let ghost before = res;
    res.update_span(span);
    proof {
        lemma_with_span_view(before, span, res);
    }
    res
}

// ---------------------------------------------------------------------------
// The reader
// ---------------------------------------------------------------------------

fn error_at(t: &Token, reason: &str) -> (r: CompilationError)
    ensures
        r@ == err_at(t@, reason@),
{
    let mut msg = string_of(reason);
    msg.append(", but got: ");
    let shown = t.display();
    msg.append(shown.as_str());
    CompilationError { span: t.get_span(), reason: msg }
}

fn atom(t: &Token) -> (r: SExpr<Symbol>)
    requires
        is_atom(t@),
    ensures
        r@ == atom_of(t@),
{
    match t {
        Token::Id(s, span) => SExpr::Var(s.duplicate(), *span),
        Token::Bool(b, span) => SExpr::Bool(Bool(b.0), *span),
        Token::Num(n, span) => SExpr::Num(Num(n.0.clone()), *span),
        Token::Char(c, span) => SExpr::Char(Char(c.0), *span),
        Token::Str(s, span) => SExpr::Str(Str(s.0.clone()), *span),
        _ => SExpr::Nil(t.get_span()),
    }
}

fn prefix(t: &Token) -> (r: SExpr<Symbol>)
    requires
        is_prefix(t@),
    ensures
        r@ == prefix_of(t@),
{
    match t {
        Token::Quote(span) => SExpr::Var(Symbol::new("quote"), *span),
        Token::QuasiQuote(span) => SExpr::Var(Symbol::new("quasiquote"), *span),
        Token::Comma(span) => SExpr::Var(Symbol::new("unquote"), *span),
        _ => SExpr::Var(Symbol::new("unquote-splicing"), t.get_span()),
    }
}

/// Whether the reader's result agrees with `read_datum`.
pub open spec fn read_datum_agrees(
    ts: Seq<TokenView>,
    pos: int,
    r: Result<(SExpr<Symbol>, usize), CompilationError>,
) -> bool {
    match (r, read_datum(ts, pos)) {
        (Ok((e, q)), Ok((d, sq))) => e@ == d && q == sq,
        (Err(e), Err(ev)) => e@ == ev,
        _ => false,
    }
}

fn read_datum_exec(ts: &[Token], pos: usize) -> (r: Result<(SExpr<Symbol>, usize), CompilationError>)
    requires
        well_ended(tokens_view(ts@)),
        pos < ts@.len(),
    ensures
        read_datum_agrees(tokens_view(ts@), pos as int, r),
    decreases ts@.len() - pos, 0int,
{
    let ghost tv = tokens_view(ts@);
    proof {
        lemma_read_bounds(tv, pos as int, Seq::empty(), true);
        if pos + 1 < tv.len() {
            lemma_read_bounds(tv, pos + 1, Seq::empty(), true);
            lemma_read_bounds(tv, pos + 1, Seq::empty(), false);
        }
        assert(tv[pos as int] == ts@[pos as int]@);
    }
    let t = &ts[pos];
    match t {
        Token::Id(..) | Token::Bool(..) | Token::Num(..) | Token::Char(..) | Token::Str(..) => {
            return Ok((atom(t), pos + 1));
        },
        Token::LParen(_) => {
            let (elems, q) = match read_elems_exec(ts, pos + 1, true) {
                Err(e) => {
                    return Err(e);
                },
                Ok(res) => res,
            };
            proof {
                assert(tv[q as int] == ts@[q as int]@);
            }
            let u = &ts[q];
            match u {
                Token::Dot(_) => {
                    if elems.len() == 0 {
                        return Err(error_at(u, "Expected a datum after '('"));
                    }
                    proof {
                        lemma_read_bounds(tv, q + 1, Seq::empty(), true);
                    }
                    let (tail, r) = match read_datum_exec(ts, q + 1) {
                        Err(e) => {
                            return Err(e);
                        },
                        Ok(res) => res,
                    };
                    proof {
                        assert(tv[r as int] == ts@[r as int]@);
                    }
                    match &ts[r] {
                        Token::RParen(end) => {
                            let mut elems = elems;
                            let ghost before = elems@;
                            elems.push(tail);
                            assert(sexprs_view(elems@) =~= sexprs_view(before).push(tail@));
                            return Ok((make_improper_list(elems, t.get_span(), *end), r + 1));
                        },
                        other => {
                            return Err(error_at(other, "Expected ')' after dotted datum"));
                        },
                    }
                },
                Token::RParen(end) => {
                    return Ok((make_list(elems, t.get_span(), *end), q + 1));
                },
                _ => {
                    return Err(error_at(u, "Expected ')' to close '('"));
                },
            }
        },
        Token::HashLParen(_) => {
            let (elems, q) = match read_elems_exec(ts, pos + 1, false) {
                Err(e) => {
                    return Err(e);
                },
                Ok(res) => res,
            };
            proof {
                assert(tv[q as int] == ts@[q as int]@);
            }
            match &ts[q] {
                Token::RParen(end) => {
                    let span = t.get_span().combine(*end);
                    let ghost ev = elems@;
                    let r = SExpr::Vector(Vector(elems), span);
                    proof {
                        let f = |i: int|
                            if 0 <= i < ev.len() {
                                crate::compile::sexpr::sexpr_view(ev[i])
                            } else {
                                SExprView::Void(Span { lo: 0, hi: 0 })
                            };
                        if let SExprView::Vector(items, sp2) = r@ {
                            assert(items =~= sexprs_view(ev));
                        }
                    }
                    return Ok((r, q + 1));
                },
                other => {
                    return Err(error_at(other, "Expected ')' to close '#('"));
                },
            }
        },
        Token::Quote(_) | Token::QuasiQuote(_) | Token::Comma(_) | Token::CommaAt(_) => {
            let head = prefix(t);
            let (d, q) = match read_datum_exec(ts, pos + 1) {
                Err(e) => {
                    return Err(e);
                },
                Ok(res) => res,
            };
            let end = d.get_span();
            proof {
                lemma_view_span(d);
            }
            let mut elements = Vec::new();
            elements.push(head);
            elements.push(d);
            assert(sexprs_view(elements@) =~= seq![prefix_of(t@), d@]);
            return Ok((make_list(elements, t.get_span(), end), q));
        },
        _ => {
            return Err(error_at(t, "Expected a datum"));
        },
    }
}

fn read_elems_exec(ts: &[Token], pos: usize, dot_stops: bool) -> (r: Result<
    (Vec<SExpr<Symbol>>, usize),
    CompilationError,
>)
    requires
        well_ended(tokens_view(ts@)),
        pos < ts@.len(),
    ensures
        match (r, read_elems(tokens_view(ts@), pos as int, Seq::empty(), dot_stops)) {
            (Ok((es, q)), Ok((ds, sq))) => sexprs_view(es@) == ds && q == sq,
            (Err(e), Err(ev)) => e@ == ev,
            _ => false,
        },
    decreases ts@.len() - pos, 1int,
{
    let ghost tv = tokens_view(ts@);
    let mut elems: Vec<SExpr<Symbol>> = Vec::new();
    let mut k = pos;
    assert(sexprs_view(elems@) =~= Seq::<Datum>::empty());
    loop
        invariant
            well_ended(tv),
            tv == tokens_view(ts@),
            pos <= k < ts@.len(),
            read_elems(tv, pos as int, Seq::empty(), dot_stops) == read_elems(
                tv,
                k as int,
                sexprs_view(elems@),
                dot_stops,
            ),
        decreases ts@.len() - k,
    {
        proof {
            assert(tv[k as int] == ts@[k as int]@);
            lemma_read_bounds(tv, k as int, sexprs_view(elems@), dot_stops);
        }
        let stop = match &ts[k] {
            Token::RParen(_) | Token::EoF(_) => true,
            Token::Dot(_) => dot_stops,
            _ => false,
        };
        if stop {
            return Ok((elems, k));
        }
        match read_datum_exec(ts, k) {
            Err(e) => {
                return Err(e);
            },
            Ok((d, q)) => {
                let ghost before = elems@;
                elems.push(d);
                assert(sexprs_view(elems@) =~= sexprs_view(before).push(d@));
                k = q;
            },
        }
    }
}

/// Reads the data of a token stream, which must be non-empty and end with the
/// end-of-input token; fails at the first syntax error.
pub fn parse(tokens: &[Token]) -> (r: Result<Vec<SExpr<Symbol>>, CompilationError>)
    ensures
        match (r, spec_parse(tokens_view(tokens@))) {
            (Ok(es), Ok(ds)) => sexprs_view(es@) == ds,
            (Err(e), Err(ev)) => e@ == ev,
            _ => false,
        },
{
    let ghost tv = tokens_view(tokens@);
    if tokens.len() == 0 {
        return Err(
            CompilationError {
                span: Span { lo: 0, hi: 0 },
                reason: string_of("Token stream must have at least 1 token"),
            },
        );
    }
    let last = &tokens[tokens.len() - 1];
    assert(tv.last() == last@);
    match last {
        Token::EoF(_) => {},
        _ => {
            return Err(
                CompilationError {
                    span: last.get_span(),
                    reason: string_of("Token stream must end with the EOF token"),
                },
            );
        },
    }
    let mut out: Vec<SExpr<Symbol>> = Vec::new();
    let mut k: usize = 0;
    assert(sexprs_view(out@) =~= Seq::<Datum>::empty());
    loop
        invariant
            well_ended(tv),
            tv == tokens_view(tokens@),
            k < tokens@.len(),
            read_all(tv, 0, Seq::empty()) == read_all(tv, k as int, sexprs_view(out@)),
        decreases tokens@.len() - k,
    {
        proof {
            assert(tv[k as int] == tokens@[k as int]@);
            lemma_read_bounds(tv, k as int, Seq::empty(), true);
        }
        if let Token::EoF(_) = &tokens[k] {
            return Ok(out);
        }
        match read_datum_exec(tokens, k) {
            Err(e) => {
                return Err(e);
            },
            Ok((d, q)) => {
                let ghost before = out@;
                out.push(d);
                assert(sexprs_view(out@) =~= sexprs_view(before).push(d@));
                k = q;
            },
        }
    }
}

/// The name of the symbol that an abbreviation prefix reads as: `'` is
/// `quote`, `` ` `` is `quasiquote`, `,` is `unquote` and `,@` is
/// `unquote-splicing`.
pub open spec fn abbreviation_name(t: TokenView) -> Seq<char> {
    if t is Quote {
        "quote"@
    } else if t is QuasiQuote {
        "quasiquote"@
    } else if t is Comma {
        "unquote"@
    } else {
        "unquote-splicing"@
    }
}

/// An abbreviation followed by a datum `d` reads as the two-element list whose
/// head is the symbol the abbreviation stands for (`,` is `unquote`, `,@` is
/// `unquote-splicing`, `'` is `quote`, `` ` `` is `quasiquote`), spanning the
/// prefix, and whose second element is `d`, read from the next token on.
pub proof fn law_abbreviation_reads_as_list(ts: Seq<TokenView>, pos: int)
    requires
        0 <= pos < ts.len(),
        is_prefix(ts[pos]),
    ensures
        read_datum(ts, pos) matches Ok((l, q)) ==> {
            &&& read_datum(ts, pos + 1) matches Ok((d, q2))
            &&& q == q2
            &&& l matches SExprView::Cons(head, rest, _)
            &&& *head == SExprView::Var(abbreviation_name(ts[pos]), ts[pos].span())
            &&& *rest matches SExprView::Cons(second, end, _)
            &&& *second == d
            &&& *end is Nil
        },
{
    reveal_with_fuel(cons_onto, 3);
    let t = ts[pos];
    if let Ok((d, q)) = read_datum(ts, pos + 1) {
        let elems = seq![prefix_of(t), d];
        assert(elems.skip(1) =~= seq![d]);
        assert(elems.skip(1).skip(1) =~= Seq::<Datum>::empty());
    }
}

} // verus!
