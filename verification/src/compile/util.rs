use vstd::prelude::*;

use super::sexpr::{spine_len, Cons, ListAccess, SExpr};

verus! {

/// The first half of a pair, or `None` when the value is not a pair.
pub open spec fn spec_first<S: ListAccess>(sexpr: S) -> Option<S> {
    match sexpr.spec_destruct() {
        Some((car, _)) => Some(car),
        None => None,
    }
}

/// The second half of a pair, or `None` when the value is not a pair.
pub open spec fn spec_rest<S: ListAccess>(sexpr: S) -> Option<S> {
    match sexpr.spec_destruct() {
        Some((_, cdr)) => Some(cdr),
        None => None,
    }
}

/// The `idx`-th element of a list, counting from 0; `None` when the list has
/// fewer pairs.
pub open spec fn spec_nth<S: ListAccess>(sexpr: S, idx: nat) -> Option<S>
    decreases idx,
{
    match sexpr.spec_destruct() {
        None => None,
        Some((car, cdr)) => if idx == 0 {
            Some(car)
        } else {
            spec_nth(cdr, (idx - 1) as nat)
        },
    }
}

/// The elements of a list, following the chain of second halves, in order.
pub open spec fn spec_elements<S: ListAccess>(sexpr: S) -> Seq<S>
    decreases sexpr.list_len(),
{
    proof {
        sexpr.lemma_destruct();
    }
    match sexpr.spec_destruct() {
        None => Seq::empty(),
        Some((car, cdr)) => seq![car] + spec_elements(cdr),
    }
}

/// The last element of a list, or `None` when it has none.
pub open spec fn spec_last<S: ListAccess>(sexpr: S) -> Option<S> {
    let es = spec_elements(sexpr);
    if es.len() == 0 {
        None
    } else {
        Some(es.last())
    }
}

/// The first element of a list, or `None` when the value is not a pair.
pub fn try_first<S: ListAccess>(sexpr: S) -> (r: Option<S>)
    ensures
        r == spec_first(sexpr),
{
    match sexpr.try_destruct() {
        Some((car, _)) => Some(car),
        None => None,
    }
}

/// The first element of a list, which must be a pair.
pub fn first<S: ListAccess>(sexpr: S) -> (r: S)
    requires
        sexpr.spec_destruct() is Some,
    ensures
        Some(r) == spec_first(sexpr),
{
    match try_first(sexpr) {
        Some(car) => car,
        None => vstd::pervasive::unreached(),
    }
}

/// Everything after the first element, or `None` when the value is not a pair.
pub fn try_rest<S: ListAccess>(sexpr: S) -> (r: Option<S>)
    ensures
        r == spec_rest(sexpr),
{
    match sexpr.try_destruct() {
        Some((_, cdr)) => Some(cdr),
        None => None,
    }
}

/// Everything after the first element of a list, which must be a pair.
pub fn rest<S: ListAccess>(sexpr: S) -> (r: S)
    requires
        sexpr.spec_destruct() is Some,
    ensures
        Some(r) == spec_rest(sexpr),
{
    match try_rest(sexpr) {
        Some(cdr) => cdr,
        None => vstd::pervasive::unreached(),
    }
}

/// The `idx`-th element of a list, counting from 0.
pub fn try_nth<S: ListAccess>(sexpr: S, idx: usize) -> (r: Option<S>)
    ensures
        r == spec_nth(sexpr, idx as nat),
    decreases idx,
{
    let (car, cdr) = match sexpr.try_destruct() {
        Some(pair) => pair,
        None => {
            return None;
        },
    };
    if idx == 0 {
        Some(car)
    } else {
        try_nth(cdr, idx - 1)
    }
}

/// The last element of a list, or `None` when the value is not a pair.
pub fn try_last<S: ListAccess>(sexpr: S) -> (r: Option<S>)
    ensures
        r == spec_last(sexpr),
{
    proof {
        sexpr.lemma_destruct();
    }
    let (mut last, mut cur) = match sexpr.try_destruct() {
        Some(pair) => pair,
        None => {
            return None;
        },
    };
    assert(spec_elements(sexpr) == seq![last] + spec_elements(cur));
    loop
        invariant
            spec_elements(sexpr).len() > 0,
            spec_elements(sexpr).last() == (if spec_elements(cur).len() == 0 {
                last
            } else {
                spec_elements(cur).last()
            }),
        decreases cur.list_len(),
    {
        proof {
            cur.lemma_destruct();
        }
        match cur.try_destruct() {
            Some((car, cdr)) => {
                assert(spec_elements(cur) == seq![car] + spec_elements(cdr));
                last = car;
                cur = cdr;
            },
            None => {
                return Some(last);
            },
        }
    }
}

/// Calls `op` on each element of a list, in order.
pub fn for_each<S, F>(sexpr: S, op: F) where S: ListAccess, F: Fn(S)
    requires
        forall|x: S| op.requires((x,)),
    ensures
        forall|i: int| 0 <= i < spec_elements(sexpr).len() ==> op.ensures((#[trigger] spec_elements(sexpr)[i],), ()),
{
    let mut cur = sexpr;
    let ghost mut done: int = 0;
    assert(spec_elements(sexpr).skip(0) =~= spec_elements(sexpr));
    loop
        invariant
            forall|x: S| op.requires((x,)),
            0 <= done <= spec_elements(sexpr).len(),
            spec_elements(cur) == spec_elements(sexpr).skip(done),
            forall|i: int| 0 <= i < done ==> op.ensures((#[trigger] spec_elements(sexpr)[i],), ()),
        decreases cur.list_len(),
    {
        proof {
            cur.lemma_destruct();
        }
        match cur.try_destruct() {
            Some((car, cdr)) => {
                proof {
                    assert(spec_elements(cur) == seq![car] + spec_elements(cdr));
                    assert(spec_elements(cur)[0] == car);
                    assert(spec_elements(sexpr).skip(done)[0] == spec_elements(sexpr)[done]);
                }
                op(car);
                proof {
                    assert(spec_elements(cdr) =~= spec_elements(cur).skip(1));
                    assert(spec_elements(sexpr).skip(done).skip(1) =~= spec_elements(sexpr).skip(done + 1));
                    done = done + 1;
                }
                cur = cdr;
            },
            None => {
                proof {
                    assert(spec_elements(cur).len() == 0);
                }
                return;
            },
        }
    }
}

/// Calls `op` on each element of a list, in order, stopping at the first error,
/// which is returned; `Ok` when every call succeeded.
pub fn try_for_each<S, F, E>(sexpr: S, op: F) -> (r: Result<(), E>) where
    S: ListAccess,
    F: Fn(S) -> Result<(), E>,

    requires
        forall|x: S| op.requires((x,)),
    ensures
        r is Ok ==> forall|i: int|
            0 <= i < spec_elements(sexpr).len() ==> op.ensures(
                (#[trigger] spec_elements(sexpr)[i],),
                Ok::<(), E>(()),
            ),
        r matches Err(e) ==> exists|k: int|
            0 <= k < spec_elements(sexpr).len() && op.ensures(
                (#[trigger] spec_elements(sexpr)[k],),
                Err::<(), E>(e),
            ) && forall|j: int|
                0 <= j < k ==> op.ensures((#[trigger] spec_elements(sexpr)[j],), Ok::<(), E>(())),
{
    let mut cur = sexpr;
    let ghost mut done: int = 0;
    assert(spec_elements(sexpr).skip(0) =~= spec_elements(sexpr));
    loop
        invariant
            forall|x: S| op.requires((x,)),
            0 <= done <= spec_elements(sexpr).len(),
            spec_elements(cur) == spec_elements(sexpr).skip(done),
            forall|i: int|
                0 <= i < done ==> op.ensures((#[trigger] spec_elements(sexpr)[i],), Ok::<(), E>(())),
        decreases cur.list_len(),
    {
        proof {
            cur.lemma_destruct();
        }
        match cur.try_destruct() {
            Some((car, cdr)) => {
                proof {
                    assert(spec_elements(cur) == seq![car] + spec_elements(cdr));
                    assert(spec_elements(cur)[0] == car);
                    assert(spec_elements(cur).len() > 0);
                    assert(spec_elements(sexpr).skip(done)[0] == spec_elements(sexpr)[done]);
                }
                let res = op(car);
                match res {
                    Ok(u) => {
                        assert(u == ());
                        assert(res == Ok::<(), E>(()));
                    },
                    Err(e) => {
                        assert(op.ensures((spec_elements(sexpr)[done],), Err::<(), E>(e)));
                        return Err(e);
                    },
                }
                proof {
                    assert(spec_elements(cdr) =~= spec_elements(cur).skip(1));
                    assert(spec_elements(sexpr).skip(done).skip(1) =~= spec_elements(sexpr).skip(done + 1));
                    done = done + 1;
                }
                cur = cdr;
            },
            None => {
                proof {
                    assert(spec_elements(cur).len() == 0);
                    assert(done == spec_elements(sexpr).len());
                }
                return Ok(());
            },
        }
    }
}

/// Number of pairs along the chain of second halves: the length of a proper list.
pub fn len<T>(sexpr: &SExpr<T>) -> (r: usize)
    requires
        spine_len(*sexpr) <= usize::MAX,
    ensures
        r == spine_len(*sexpr),
{
    let mut res: usize = 0;
    let mut cur = sexpr;
    loop
        invariant
            res + spine_len(*cur) == spine_len(*sexpr),
            spine_len(*sexpr) <= usize::MAX,
        decreases spine_len(*cur),
    {
        match cur {
            SExpr::Cons(Cons { cdr, .. }, _) => {
                res = res + 1;
                cur = cdr;
            },
            _ => {
                return res;
            },
        }
    }
}

/// What ends the chain of second halves starting at `e`.
pub open spec fn spec_tail<T>(e: SExpr<T>) -> SExpr<T>
    decreases e,
{
    match e {
        SExpr::Cons(c, _) => spec_tail(*c.cdr),
        _ => e,
    }
}

/// Whether `e` is `()` or a chain of pairs ending in `()`.
pub open spec fn spec_is_proper<T>(e: SExpr<T>) -> bool {
    spec_tail(e) is Nil
}

/// What ends a list: `None` when the value is not a pair, else the first value
/// along the chain of second halves that is not a pair (`()` for a proper list).
pub fn try_dotted_tail<T>(sexpr: &SExpr<T>) -> (r: Option<&SExpr<T>>)
    ensures
        r == (if *sexpr is Cons { Some(&spec_tail(*sexpr)) } else { None::<&SExpr<T>> }),
{
    let mut cur: &SExpr<T> = match sexpr {
        SExpr::Cons(Cons { cdr, .. }, _) => &**cdr,
        _ => {
            return None;
        },
    };
    loop
        invariant
            *sexpr is Cons,
            spec_tail(*cur) == spec_tail(*sexpr),
        decreases spine_len(*cur),
    {
        match cur {
            SExpr::Cons(Cons { cdr, .. }, _) => {
                cur = cdr;
            },
            _ => {
                assert(spec_tail(*cur) == *cur);
                return Some(cur);
            },
        }
    }
}

/// Whether the value is `()` or a chain of pairs ending in `()`.
pub fn is_proper_list<T>(sexpr: &SExpr<T>) -> (r: bool)
    ensures
        r == spec_is_proper(*sexpr),
{
    if let SExpr::Nil(_) = sexpr {
        return true;
    }
    match try_dotted_tail(sexpr) {
        Some(tail) => matches!(tail, SExpr::Nil(_)),
        None => false,
    }
}

/// A list with the `()` ending `head` replaced by `tail`.
pub open spec fn spec_append<T>(head: SExpr<T>, tail: SExpr<T>) -> SExpr<T>
    decreases head,
{
    match head {
        SExpr::Cons(c, span) => SExpr::Cons(
            Cons { car: c.car, cdr: Box::new(spec_append(*c.cdr, tail)) },
            span,
        ),
        _ => tail,
    }
}

/// Replaces what ends the list `head` (its `()`, or the last value of a dotted
/// list) by `tail`, keeping every pair of `head` with its span.
pub fn append<T>(head: SExpr<T>, tail: SExpr<T>) -> (r: SExpr<T>)
    requires
        head is Nil || head is Cons,
    ensures
        r == spec_append(head, tail),
{
    replace_end(head, tail)
}

fn replace_end<T>(head: SExpr<T>, tail: SExpr<T>) -> (r: SExpr<T>)
    ensures
        r == spec_append(head, tail),
    decreases head,
{
    match head {
        SExpr::Cons(cons, span) => {
            let Cons { car, cdr } = cons;
            SExpr::Cons(Cons { car, cdr: Box::new(replace_end(*cdr, tail)) }, span)
        },
        _ => tail,
    }
}

/// Whether `r` is the list `e` with each element replaced by a value that `op`
/// may return as `Ok` for it; the pairs keep their spans and the end of the list
/// stays as it is.
pub open spec fn cars_mapped<T, E, F: Fn(SExpr<T>) -> Result<SExpr<T>, E>>(
    e: SExpr<T>,
    r: SExpr<T>,
    op: F,
) -> bool
    decreases e,
{
    match e {
        SExpr::Cons(c, s) => r matches SExpr::Cons(c2, s2) && s2 == s && op.ensures(
            (*c.car,),
            Ok::<SExpr<T>, E>(*c2.car),
        ) && cars_mapped(*c.cdr, *c2.cdr, op),
        _ => r == e,
    }
}

/// Applies `op` to each element of a list, in order, keeping the pairs and the
/// end of the list; the first error of `op` is returned.
pub fn try_map<T, F, E>(sexpr: SExpr<T>, op: F) -> (r: Result<SExpr<T>, E>) where
    F: Fn(SExpr<T>) -> Result<SExpr<T>, E>,

    requires
        forall|x: SExpr<T>| op.requires((x,)),
    ensures
        r matches Ok(v) ==> cars_mapped(sexpr, v, op),
        r matches Err(x) ==> exists|k: int|
            0 <= k < spec_elements(sexpr).len() && op.ensures(
                (#[trigger] spec_elements(sexpr)[k],),
                Err::<SExpr<T>, E>(x),
            ) && forall|j: int|
                0 <= j < k ==> exists|v: SExpr<T>| op.ensures((#[trigger] spec_elements(sexpr)[j],), Ok::<SExpr<T>, E>(v)),
    decreases sexpr,
{
    let ghost whole = sexpr;
    match sexpr {
        SExpr::Cons(cons, span) => {
            let Cons { car, cdr } = cons;
            let ghost rest = *cdr;
            assert(spec_elements(whole) == seq![*car] + spec_elements(*cdr));
            let ghost car0 = *car;
            let car = match op(*car) {
                Ok(v) => v,
                Err(x) => {
                    assert(spec_elements(whole)[0] == car0);
                    return Err(x);
                },
            };
            assert(op.ensures((car0,), Ok::<SExpr<T>, E>(car)));
            let cdr = match try_map(*cdr, op) {
                Ok(v) => v,
                Err(x) => {
                    proof {
                        let i = choose|i: int|
                            0 <= i < spec_elements(rest).len() && op.ensures(
                                (#[trigger] spec_elements(rest)[i],),
                                Err::<SExpr<T>, E>(x),
                            ) && forall|j: int|
                                0 <= j < i ==> exists|v: SExpr<T>| op.ensures((#[trigger] spec_elements(rest)[j],), Ok::<SExpr<T>, E>(v));
                        assert(spec_elements(whole)[i + 1] == spec_elements(rest)[i]);
                        assert(spec_elements(whole)[0] == car0);
                        assert forall|j: int| 0 <= j < i + 1 implies exists|v: SExpr<T>| op.ensures((#[trigger] spec_elements(whole)[j],), Ok::<SExpr<T>, E>(v)) by {
                            if j == 0 {
                                assert(op.ensures((spec_elements(whole)[0],), Ok::<SExpr<T>, E>(car)));
                            } else {
                                assert(spec_elements(whole)[j] == spec_elements(rest)[j - 1]);
                                assert(exists|v: SExpr<T>| op.ensures((#[trigger] spec_elements(rest)[j - 1],), Ok::<SExpr<T>, E>(v)));
                            }
                        }
                    }
                    return Err(x);
                },
            };
            Ok(SExpr::Cons(Cons::new(car, cdr), span))
        },
        other => Ok(other),
    }
}

/// Splits a list after its first `n` elements: a proper list of those elements
/// and the rest. The new list reuses the pairs' spans; its closing `()` takes the
/// span of the last element taken (or, for `n == 0`, of the whole list).
pub open spec fn spec_split<T>(list: SExpr<T>, n: nat) -> (SExpr<T>, SExpr<T>)
    decreases n,
{
    if n == 0 {
        (SExpr::Nil(list.spec_span()), list)
    } else {
        match list {
            SExpr::Cons(c, _) => if n == 1 {
                (
                    SExpr::Cons(
                        Cons { car: c.car, cdr: Box::new(SExpr::Nil(c.car.spec_span())) },
                        c.car.spec_span().spec_combine(c.car.spec_span()),
                    ),
                    *c.cdr,
                )
            } else {
                let (head, rest) = spec_split(*c.cdr, (n - 1) as nat);
                (
                    SExpr::Cons(
                        Cons { car: c.car, cdr: Box::new(head) },
                        c.car.spec_span().spec_combine(head.spec_span()),
                    ),
                    rest,
                )
            },
            _ => (list, list),
        }
    }
}

/// Splits a list, which must have at least `n` pairs, after its first `n` elements.
pub fn split<T>(list: SExpr<T>, n: usize) -> (r: (SExpr<T>, SExpr<T>))
    requires
        n <= spine_len(list),
    ensures
        r == spec_split(list, n as nat),
    decreases n,
{
    if n == 0 {
        let span = list.get_span();
        return (SExpr::Nil(span), list);
    }
    let cons = match list {
        SExpr::Cons(cons, _) => cons,
        _ => vstd::pervasive::unreached(),
    };
    let Cons { car, cdr } = cons;
    if n == 1 {
        let span = car.get_span();
        return (SExpr::cons(*car, SExpr::Nil(span)), *cdr);
    }
    let (head, rest) = split(*cdr, n - 1);
    (SExpr::cons(*car, head), rest)
}

} // verus!
