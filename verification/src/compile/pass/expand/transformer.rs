use vstd::prelude::*;
use vstd::string::StringExecFns;

use crate::compile::assoc::{
    assoc_map, keys_unique, lemma_assoc_dom, lemma_assoc_len, lemma_assoc_push, lemma_assoc_same, lemma_assoc_update,
    lemma_assoc_value,
};
use crate::compile::bindings::{Bindings, Id};
use crate::compile::compilation_error::CompilationError;
use crate::compile::ident::{Duplicate, Symbol};
use crate::compile::sexpr::{
    cons_list, erase_spans, form_text, lemma_view_span, sexpr_view, Cons, IdView, SExpr, SExprView, Vector,
};
use crate::compile::span::Span;
use crate::compile::text::{decimal, push_decimal};
use crate::compile::util::{is_proper_list, spec_elements, spec_tail, try_dotted_tail};

verus! {

broadcast use vstd::seq_lib::group_seq_properties;

/// A syntax form as the transformer sees it: identifiers with their scopes.
pub type Form = SExprView<IdView>;

/// An error of the transformer: where and why.
pub type TransformError = (Span, Seq<char>);

/// Whether `e` is an identifier named `name`.
pub open spec fn is_named(e: Form, name: Seq<char>) -> bool {
    e matches SExprView::Var(id, _) && id.0 == name
}

/// How many `...` identifiers start the list `e`.
pub open spec fn ellipses(e: Form) -> nat
    decreases e,
{
    match e {
        SExprView::Cons(a, d, _) => if is_named(*a, "..."@) {
            1 + ellipses(*d)
        } else {
            0
        },
        _ => 0,
    }
}

/// The list `e` without the `...` identifiers it starts with.
pub open spec fn after_ellipses(e: Form) -> Form
    decreases e,
{
    match e {
        SExprView::Cons(a, d, _) => if is_named(*a, "..."@) {
            after_ellipses(*d)
        } else {
            e
        },
        _ => e,
    }
}

/// What ends the chain of second halves starting at `e`.
pub open spec fn end_of(e: Form) -> Form
    decreases e,
{
    match e {
        SExprView::Cons(_, d, _) => end_of(*d),
        _ => e,
    }
}

/// The first halves along the chain of second halves starting at `e`.
pub open spec fn items_of(e: Form) -> Seq<Form>
    decreases e,
{
    match e {
        SExprView::Cons(a, d, _) => seq![*a] + items_of(*d),
        _ => Seq::empty(),
    }
}

/// `items` put in front of `tail`, each pair spanning its element and the rest.
pub open spec fn prepend_all(items: Seq<Form>, tail: Form) -> Form
    decreases items.len(),
{
    if items.len() == 0 {
        tail
    } else {
        SExprView::pair(items[0], prepend_all(items.skip(1), tail))
    }
}

/// The proper list of a vector's elements, its closing `()` spanning the last
/// position of the vector's span.
pub open spec fn vector_as_list(v: Seq<Form>, span: Span) -> Form {
    prepend_all(v, SExprView::Nil(Span { lo: (span.hi - 1) as usize, hi: span.hi }))
}

/// A size that every recursion of the transformer makes smaller, turning a
/// vector into a list included.
pub open spec fn weight(e: Form) -> nat
    decreases e, 0int,
{
    match e {
        SExprView::Cons(a, d, _) => weight(*a) + weight(*d),
        SExprView::Vector(v, _) => 2 + weights(v),
        _ => 1,
    }
}

pub open spec fn weights(v: Seq<Form>) -> nat
    decreases v, 1int,
{
    if v.len() == 0 {
        0
    } else {
        weight(v[0]) + weights(v.skip(1))
    }
}

/// Every form has a positive weight.
pub proof fn lemma_weight_positive(e: Form)
    ensures
        weight(e) >= 1,
    decreases e,
{
    if let SExprView::Cons(a, _, _) = e {
        lemma_weight_positive(*a);
    }
}

/// Putting elements in front of a tail adds their weights.
pub proof fn lemma_prepend_weight(items: Seq<Form>, tail: Form)
    ensures
        weight(prepend_all(items, tail)) == weights(items) + weight(tail),
    decreases items.len(),
{
    if items.len() > 0 {
        lemma_prepend_weight(items.skip(1), tail);
    }
}

/// A vector weighs more than the list of its elements.
pub proof fn lemma_vector_list_weight(v: Seq<Form>, span: Span)
    ensures
        weight(vector_as_list(v, span)) < weight(SExprView::Vector(v, span)),
{
    lemma_prepend_weight(v, SExprView::Nil(Span { lo: (span.hi - 1) as usize, hi: span.hi }));
}

/// What ends a list weighs less than the list.
pub proof fn lemma_end_weight(e: Form)
    ensures
        e is Cons ==> weight(end_of(e)) < weight(e),
        weight(end_of(e)) <= weight(e),
    decreases e,
{
    if let SExprView::Cons(a, d, _) = e {
        lemma_end_weight(*d);
        lemma_weight_positive(*a);
    }
}

/// The identifiers of `p` other than `...`, `_` and the literals, by name, in
/// the order they are written (a name as often as it occurs).
pub open spec fn occurrences(p: Form, lits: Set<Seq<char>>) -> Seq<Seq<char>>
    decreases p, 0int,
{
    match p {
        SExprView::Var(id, _) => if id.0 != "..."@ && id.0 != "_"@ && !lits.contains(id.0) {
            seq![id.0]
        } else {
            Seq::empty()
        },
        SExprView::Cons(a, d, _) => occurrences(*a, lits) + occurrences(*d, lits),
        SExprView::Vector(v, _) => occurrences_all(v, lits),
        _ => Seq::empty(),
    }
}

pub open spec fn occurrences_all(v: Seq<Form>, lits: Set<Seq<char>>) -> Seq<Seq<char>>
    decreases v, 1int,
{
    if v.len() == 0 {
        Seq::empty()
    } else {
        occurrences(v[0], lits) + occurrences_all(v.skip(1), lits)
    }
}

/// The names of the pattern variables of `p`.
pub open spec fn vars_of(p: Form, lits: Set<Seq<char>>) -> Set<Seq<char>> {
    occurrences(p, lits).to_set()
}

/// What a pattern variable captured: one form, or, under an ellipsis, what it
/// captured in each repetition.
pub enum CaptureView {
    One(Form),
    Many(Seq<CaptureView>),
}

/// The captures of a match, by variable name.
pub type Captures = Map<Seq<char>, CaptureView>;

/// The captures of each repetition, gathered by variable name.
pub type Repeated = Map<Seq<char>, Seq<CaptureView>>;

pub open spec fn get_or_empty(m: Repeated, k: Seq<char>) -> Seq<CaptureView> {
    if m.dom().contains(k) {
        m[k]
    } else {
        Seq::empty()
    }
}

/// The captures of `x` followed by those of `y`, for every name of either.
pub open spec fn combine(x: Repeated, y: Repeated) -> Repeated {
    Map::new(|k: Seq<char>| x.dom().contains(k) || y.dom().contains(k), |k: Seq<char>| get_or_empty(x, k) + get_or_empty(y, k))
}

/// The captures of one repetition, each as a sequence of one.
pub open spec fn singles(m: Captures) -> Repeated {
    m.map_values(|c: CaptureView| seq![c])
}

/// `caps` with every variable of a repeated pattern bound to what it captured
/// in each repetition (nothing, when there was none).
pub open spec fn with_many(caps: Captures, rep: Repeated, vars: Set<Seq<char>>) -> Captures {
    Map::new(
        |k: Seq<char>| caps.dom().contains(k) || vars.contains(k) || rep.dom().contains(k),
        |k: Seq<char>| if vars.contains(k) || rep.dom().contains(k) {
            CaptureView::Many(get_or_empty(rep, k))
        } else {
            caps[k]
        },
    )
}

/// Whether a literal in a pattern matches an identifier: both resolve to the
/// same binding, or neither resolves and they have the same name.
pub open spec fn same_literal(b: Bindings, p: IdView, t: IdView) -> bool {
    match (b.resolution(p), b.resolution(t)) {
        (Some(x), Some(y)) => x == y,
        (None, None) => p.0 == t.0,
        _ => false,
    }
}

/// Matching pattern `p` against form `t`, adding to `caps`: the captures, or
/// `None` when `t` does not fit. A literal matches only an identifier that
/// `same_literal` accepts; `_` matches anything; another identifier captures
/// the form; a list matches element by element, an element followed by `...`
/// matching every remaining element of the form; vectors match as lists of
/// their elements; anything else must equal the form but for spans.
pub open spec fn match_sub(p: Form, t: Form, lits: Set<Seq<char>>, b: Bindings, caps: Captures) -> Option<Captures>
    decreases weight(p), if p is Cons { 1int } else { 0int }, t,
{
    match p {
        SExprView::Var(pid, _) => if lits.contains(pid.0) {
            match t {
                SExprView::Var(tid, _) => if same_literal(b, pid, tid) {
                    Some(caps)
                } else {
                    None
                },
                _ => None,
            }
        } else if pid.0 == "_"@ {
            Some(caps)
        } else {
            Some(caps.insert(pid.0, CaptureView::One(t)))
        },
        SExprView::Cons(..) => match_list(p, t, lits, b, caps),
        SExprView::Vector(pv, ps) => match t {
            SExprView::Vector(tv, ts) => {
                proof {
                    lemma_vector_list_weight(pv, ps);
                }
                match_list(vector_as_list(pv, ps), vector_as_list(tv, ts), lits, b, caps)
            },
            _ => None,
        },
        _ => if erase_spans(p) == erase_spans(t) {
            Some(caps)
        } else {
            None
        },
    }
}

/// Matching the list pattern `p` against `t`; see `match_sub`.
pub open spec fn match_list(p: Form, t: Form, lits: Set<Seq<char>>, b: Bindings, caps: Captures) -> Option<Captures>
    decreases weight(p), if p is Cons { 0int } else { 1int }, t,
{
    match p {
        SExprView::Cons(pa, pd, _) => {
            proof {
                lemma_weight_positive(*pa);
                lemma_weight_positive(*pd);
                lemma_end_weight(p);
            }
            if ellipses(*pd) > 0 {
                match match_rep(*pa, t, lits, b) {
                    None => None,
                    Some(rep) => match_sub(
                        end_of(p),
                        if t is Cons { end_of(t) } else { t },
                        lits,
                        b,
                        with_many(caps, rep, vars_of(*pa, lits)),
                    ),
                }
            } else {
                match t {
                    SExprView::Cons(ta, td, _) => match match_sub(*pa, *ta, lits, b, caps) {
                        None => None,
                        Some(c2) => match_list(*pd, *td, lits, b, c2),
                    },
                    _ => None,
                }
            }
        },
        _ => match_sub(p, t, lits, b, caps),
    }
}

/// Matching the repeated pattern `rp` against each element of the list `t`:
/// what each variable captured in each element, or `None` when one does not fit.
pub open spec fn match_rep(rp: Form, t: Form, lits: Set<Seq<char>>, b: Bindings) -> Option<Repeated>
    decreases weight(rp), 2int, t,
{
    match t {
        SExprView::Cons(ta, td, _) => match match_sub(rp, *ta, lits, b, Map::empty()) {
            None => None,
            Some(m) => match match_rep(rp, *td, lits, b) {
                None => None,
                Some(r) => Some(combine(singles(m), r)),
            },
        },
        _ => Some(Map::empty()),
    }
}

/// What a pattern variable captured: one form, or, under an ellipsis, what it
/// captured in each repetition.
#[derive(Debug)]
pub enum CapturedSExpr {
    One(SExpr<Id>),
    Many(Vec<CapturedSExpr>),
}

pub open spec fn capture_view(c: CapturedSExpr) -> CaptureView
    decreases c,
{
    match c {
        CapturedSExpr::One(e) => CaptureView::One(e@),
        CapturedSExpr::Many(v) => CaptureView::Many(
            Seq::new(v.len() as nat, |i: int| if 0 <= i < v.len() { capture_view(v[i]) } else { CaptureView::Many(Seq::empty()) }),
        ),
    }
}

impl View for CapturedSExpr {
    type V = CaptureView;

    open spec fn view(&self) -> CaptureView {
        capture_view(*self)
    }
}

/// The views of a sequence of captures.
pub open spec fn captures_view(v: Seq<CapturedSExpr>) -> Seq<CaptureView> {
    v.map_values(|c: CapturedSExpr| capture_view(c))
}

impl Duplicate for CapturedSExpr {
    fn duplicate(&self) -> (r: CapturedSExpr)
        decreases self,
    {
        match self {
            CapturedSExpr::One(e) => CapturedSExpr::One(e.duplicate()),
            CapturedSExpr::Many(v) => {
                let mut out: Vec<CapturedSExpr> = Vec::new();
                let mut i: usize = 0;
                while i < v.len()
                    invariant
                        *self matches CapturedSExpr::Many(w) && w == *v,
                        i <= v.len(),
                        out.len() == i,
                        forall|j: int| 0 <= j < i ==> capture_view(#[trigger] out[j]) == capture_view(v[j]),
                    decreases v.len() - i,
                {
                    let c = v[i].duplicate();
                    out.push(c);
                    i = i + 1;
                }
                let r = CapturedSExpr::Many(out);
                assert(r@->Many_0 =~= self@->Many_0);
                r
            },
        }
    }
}

spec fn entry_name() -> spec_fn((Symbol, CapturedSExpr)) -> Seq<char> {
    |e: (Symbol, CapturedSExpr)| e.0@
}

spec fn entry_capture() -> spec_fn((Symbol, CapturedSExpr)) -> CaptureView {
    |e: (Symbol, CapturedSExpr)| e.1@
}

/// The captures of a match, by variable name.
#[derive(Debug)]
pub struct CaptureMap {
    entries: Vec<(Symbol, CapturedSExpr)>,
}

impl View for CaptureMap {
    type V = Captures;

    closed spec fn view(&self) -> Captures {
        assoc_map(self.entries@, entry_name(), entry_capture())
    }
}

impl CaptureMap {
    #[verifier::type_invariant]
    spec fn inv(&self) -> bool {
        keys_unique(self.entries@, entry_name())
    }

    /// No captures.
    pub fn new() -> (r: CaptureMap)
        ensures
            r@ == Map::<Seq<char>, CaptureView>::empty(),
    {
        CaptureMap { entries: Vec::new() }
    }

    fn find(&self, name: &Symbol) -> (r: Option<usize>)
        ensures
            match r {
                Some(i) => i < self.entries@.len() && self.entries@[i as int].0@ == name@,
                None => !self@.dom().contains(name@),
            },
    {
        let mut i: usize = 0;
        while i < self.entries.len()
            invariant
                0 <= i <= self.entries@.len(),
                forall|j: int| 0 <= j < i ==> (#[trigger] self.entries@[j]).0@ != name@,
            decreases self.entries@.len() - i,
        {
            if self.entries[i].0.same(name) {
                return Some(i);
            }
            i = i + 1;
        }
        proof {
            lemma_assoc_dom(self.entries@, entry_name(), entry_capture(), name@);
        }
        None
    }

    /// What `name` captured, if anything.
    pub fn get(&self, name: &Symbol) -> (r: Option<&CapturedSExpr>)
        ensures
            match r {
                Some(c) => self@.dom().contains(name@) && c@ == self@[name@],
                None => !self@.dom().contains(name@),
            },
    {
        proof {
            use_type_invariant(self);
        }
        match self.find(name) {
            Some(i) => {
                proof {
                    lemma_assoc_value(self.entries@, entry_name(), entry_capture(), i as int);
                }
                Some(&self.entries[i].1)
            },
            None => None,
        }
    }

    /// Records that `name` captured `c`, replacing what it captured before.
    pub fn insert(&mut self, name: Symbol, c: CapturedSExpr)
        ensures
            final(self)@ == old(self)@.insert(name@, c@),
    {
        proof {
            use_type_invariant(&*self);
        }
        let mut entries = Vec::new();
        std::mem::swap(&mut entries, &mut self.entries);
        let ghost before = entries@;
        let mut i: usize = 0;
        while i < entries.len()
            invariant
                0 <= i <= entries@.len(),
                entries@ == before,
                before == old(self).entries@,
                keys_unique(before, entry_name()),
                forall|j: int| 0 <= j < i ==> (#[trigger] entries@[j]).0@ != name@,
            decreases entries@.len() - i,
        {
            if entries[i].0.same(&name) {
                proof {
                    lemma_assoc_update(before, entry_name(), entry_capture(), i as int, (name, c));
                }
                entries.set(i, (name, c));
                *self = CaptureMap { entries };
                return;
            }
            i = i + 1;
        }
        proof {
            lemma_assoc_dom(before, entry_name(), entry_capture(), name@);
            lemma_assoc_push(before, entry_name(), entry_capture(), (name, c));
        }
        entries.push((name, c));
        *self = CaptureMap { entries };
    }

    /// How many variables captured something.
    pub fn len(&self) -> (r: usize)
        ensures
            r == self@.dom().len(),
    {
        proof {
            use_type_invariant(self);
            lemma_assoc_len(self.entries@, entry_name(), entry_capture());
        }
        self.entries.len()
    }

    /// Whether no variable captured anything.
    pub fn is_empty(&self) -> (r: bool)
        ensures
            r == (self@.dom().len() == 0),
    {
        self.len() == 0
    }
}

impl Duplicate for CaptureMap {
    fn duplicate(&self) -> (r: CaptureMap) {
        proof {
            use_type_invariant(self);
        }
        let mut entries: Vec<(Symbol, CapturedSExpr)> = Vec::new();
        let mut i: usize = 0;
        while i < self.entries.len()
            invariant
                0 <= i <= self.entries@.len(),
                keys_unique(self.entries@, entry_name()),
                entries@.len() == i,
                forall|j: int| 0 <= j < i ==> (#[trigger] entries@[j]).0@ == self.entries@[j].0@ && entries@[j].1@
                    == self.entries@[j].1@,
            decreases self.entries@.len() - i,
        {
            let e = (self.entries[i].0.duplicate(), self.entries[i].1.duplicate());
            entries.push(e);
            i = i + 1;
        }
        proof {
            lemma_assoc_same(entries@, self.entries@, entry_name(), entry_capture());
        }
        CaptureMap { entries }
    }
}

/// The names of a sequence of symbols.
pub open spec fn names_of(v: Seq<Symbol>) -> Seq<Seq<char>> {
    v.map_values(|s: Symbol| s@)
}

/// The set of names of a sequence of symbols.
pub open spec fn name_set(v: Seq<Symbol>) -> Set<Seq<char>> {
    names_of(v).to_set()
}

/// Whether one of `v` has the name of `s`.
fn contains_name(v: &Vec<Symbol>, s: &Symbol) -> (r: bool)
    ensures
        r == name_set(v@).contains(s@),
{
    let mut i: usize = 0;
    while i < v.len()
        invariant
            0 <= i <= v@.len(),
            forall|j: int| 0 <= j < i ==> (#[trigger] v@[j])@ != s@,
        decreases v@.len() - i,
    {
        if v[i].same(s) {
            assert(names_of(v@)[i as int] == s@);
            return true;
        }
        i = i + 1;
    }
    assert(!names_of(v@).contains(s@)) by {
        if names_of(v@).contains(s@) {
            let j = choose|j: int| 0 <= j < names_of(v@).len() && names_of(v@)[j] == s@;
            assert(v@[j]@ == s@);
        }
    }
    false
}

/// Whether `e` is an identifier named `name`.
fn is_named_exec(e: &SExpr<Id>, name: &Symbol) -> (r: bool)
    ensures
        r == is_named(e@, name@),
{
    match e {
        SExpr::Var(id, _) => id.symbol.same(name),
        _ => false,
    }
}

/// How many `...` start the list `e` (as many as a `usize` holds), and the rest.
pub open spec fn ellipsis_level(e: Form) -> nat {
    if ellipses(e) <= usize::MAX {
        ellipses(e)
    } else {
        usize::MAX as nat
    }
}

fn consume_ellipsis(cdr: &SExpr<Id>) -> (r: (usize, &SExpr<Id>))
    ensures
        r.0 == ellipsis_level(cdr@),
        r.1@ == after_ellipses(cdr@),
{
    let dots = Symbol::new("...");
    let mut count: usize = 0;
    let mut cur = cdr;
    loop
        invariant
            dots@ == "..."@,
            ellipsis_level(cdr@) == (if count + ellipses(cur@) <= usize::MAX { count + ellipses(cur@) } else { usize::MAX as int }),
            after_ellipses(cur@) == after_ellipses(cdr@),
        decreases cur@,
    {
        match cur {
            SExpr::Cons(c, _) => {
                if is_named_exec(&c.car, &dots) {
                    if count < usize::MAX {
                        count = count + 1;
                    }
                    cur = &c.cdr;
                } else {
                    return (count, cur);
                }
            },
            _ => {
                return (count, cur);
            },
        }
    }
}

/// Appends to `out` the identifiers of `p` other than `...`, `_` and the
/// literals, in the order they are written.
fn collect_capture_variables(p: &SExpr<Id>, lits: &Vec<Symbol>, out: &mut Vec<Symbol>)
    ensures
        names_of(final(out)@) == names_of(old(out)@) + occurrences(p@, name_set(lits@)),
    decreases p,
{
    let ghost l = name_set(lits@);
    match p {
        SExpr::Var(id, _) => {
            let dots = Symbol::new("...");
            let underscore = Symbol::new("_");
            if !id.symbol.same(&dots) && !id.symbol.same(&underscore) && !contains_name(lits, &id.symbol) {
                out.push(id.symbol.duplicate());
                assert(names_of(out@) =~= names_of(old(out)@) + occurrences(p@, l));
            } else {
                assert(names_of(out@) =~= names_of(old(out)@) + occurrences(p@, l));
            }
        },
        SExpr::Cons(c, _) => {
            collect_capture_variables(&c.car, lits, out);
            collect_capture_variables(&c.cdr, lits, out);
            assert(names_of(out@) =~= names_of(old(out)@) + occurrences(p@, l));
        },
        SExpr::Vector(v, _) => {
            let ghost views = p@->Vector_0;
            let n = v.0.len();
            let mut i: usize = 0;
            assert(views.skip(0) =~= views);
            assert(names_of(out@) + occurrences_all(views.skip(0), l) =~= names_of(old(out)@) + occurrences_all(views, l));
            while i < n
                invariant
                    *p matches SExpr::Vector(w, _) && w == *v,
                    n == v.0@.len(),
                    views.len() == n,
                    forall|j: int| 0 <= j < n ==> #[trigger] views[j] == sexpr_view(v.0@[j]),
                    i <= n,
                    l == name_set(lits@),
                    names_of(out@) + occurrences_all(views.skip(i as int), l) == names_of(old(out)@) + occurrences_all(views, l),
                decreases n - i,
            {
                let ghost before = names_of(out@);
                let ghost rest = views.skip(i as int);
                assert(rest[0] == views[i as int]);
                assert(rest.skip(1) =~= views.skip(i + 1));
                collect_capture_variables(&v.0[i], lits, out);
                assert(names_of(out@) + occurrences_all(views.skip(i + 1), l) =~= before + occurrences_all(rest, l));
                i = i + 1;
            }
            assert(views.skip(n as int) =~= Seq::<Form>::empty());
            assert(names_of(out@) =~= names_of(old(out)@) + occurrences(p@, l));
        },
        _ => {
            assert(names_of(out@) =~= names_of(old(out)@) + occurrences(p@, l));
        },
    }
}

/// Whether the atom `p` equals `t` but for spans.
fn same_but_spans(p: &SExpr<Id>, t: &SExpr<Id>) -> (r: bool)
    requires
        !(p is Var || p is Cons || p is Vector),
    ensures
        r == (erase_spans(p@) == erase_spans(t@)),
{
    match (p, t) {
        (SExpr::Nil(_), SExpr::Nil(_)) => true,
        (SExpr::Bool(a, _), SExpr::Bool(b, _)) => a.0 == b.0,
        (SExpr::Num(a, _), SExpr::Num(b, _)) => a.0 == b.0,
        (SExpr::Char(a, _), SExpr::Char(b, _)) => a.0 == b.0,
        (SExpr::Str(a, _), SExpr::Str(b, _)) => a.0 == b.0,
        (SExpr::Void(_), SExpr::Void(_)) => true,
        _ => false,
    }
}

/// The end of a list, seen through views, is what ends its view.
pub proof fn lemma_tail_view(e: SExpr<Id>)
    ensures
        spec_tail(e)@ == end_of(e@),
    decreases e,
{
    if let SExpr::Cons(c, _) = e {
        lemma_tail_view(*c.cdr);
    }
}

/// The view of a list built from elements is those views put in front of the tail's.
pub proof fn lemma_cons_list_view(es: Seq<SExpr<Id>>, tail: SExpr<Id>)
    ensures
        cons_list(es, tail)@ == prepend_all(es.map_values(|x: SExpr<Id>| x@), tail@),
    decreases es.len(),
{
    if es.len() > 0 {
        lemma_cons_list_view(es.skip(1), tail);
        assert(es.skip(1).map_values(|x: SExpr<Id>| x@) =~= es.map_values(|x: SExpr<Id>| x@).skip(1));
        lemma_view_span(es[0]);
        lemma_view_span(cons_list(es.skip(1), tail));
    }
}


/// Whether every vector in `e` has a span that ends after the first byte, as
/// the reader makes them.
pub open spec fn spans_ok(e: Form) -> bool
    decreases e,
{
    match e {
        SExprView::Cons(a, d, _) => spans_ok(*a) && spans_ok(*d),
        SExprView::Vector(v, s) => s.hi >= 1 && forall|i: int| 0 <= i < v.len() ==> spans_ok(#[trigger] v[i]),
        _ => true,
    }
}

proof fn lemma_prepend_spans_ok(items: Seq<Form>, tail: Form)
    requires
        forall|i: int| 0 <= i < items.len() ==> spans_ok(#[trigger] items[i]),
        spans_ok(tail),
    ensures
        spans_ok(prepend_all(items, tail)),
    decreases items.len(),
{
    if items.len() > 0 {
        assert(spans_ok(items[0]));
        lemma_prepend_spans_ok(items.skip(1), tail);
    }
}

proof fn lemma_end_spans_ok(e: Form)
    requires
        spans_ok(e),
    ensures
        spans_ok(end_of(e)),
    decreases e,
{
    if let SExprView::Cons(_, d, _) = e {
        lemma_end_spans_ok(*d);
    }
}

/// A vector of forms turned into the list of its elements, its closing `()`
/// spanning the last position of the vector's span.
fn vector_to_list(e: &SExpr<Id>) -> (r: SExpr<Id>)
    requires
        e is Vector,
        spans_ok(e@),
    ensures
        r@ == vector_as_list(e@->Vector_0, e@->Vector_1),
        spans_ok(r@),
{
    let copy = e.duplicate();
    match copy {
        SExpr::Vector(v, span) => {
            let ghost items = v.0@;
            let r = v.into_cons_list(span);
            proof {
                lemma_cons_list_view(items, SExpr::Nil(Span { lo: (span.hi - 1) as usize, hi: span.hi }));
                assert(items.map_values(|x: SExpr<Id>| x@) =~= e@->Vector_0);
                let views = e@->Vector_0;
                assert forall|i: int| 0 <= i < views.len() implies spans_ok(#[trigger] views[i]) by {}
                lemma_prepend_spans_ok(views, SExprView::Nil(Span { lo: (span.hi - 1) as usize, hi: span.hi }));
            }
            r
        },
        _ => vstd::pervasive::unreached(),
    }
}

/// The captures gathered over repetitions, as the program holds them.
type RepEntries = Vec<(Symbol, Vec<CapturedSExpr>)>;

spec fn rep_name() -> spec_fn((Symbol, Vec<CapturedSExpr>)) -> Seq<char> {
    |e: (Symbol, Vec<CapturedSExpr>)| e.0@
}

spec fn rep_captures() -> spec_fn((Symbol, Vec<CapturedSExpr>)) -> Seq<CaptureView> {
    |e: (Symbol, Vec<CapturedSExpr>)| captures_view(e.1@)
}

spec fn rep_view(v: Seq<(Symbol, Vec<CapturedSExpr>)>) -> Repeated {
    assoc_map(v, rep_name(), rep_captures())
}

proof fn lemma_combine_empty(x: Repeated)
    ensures
        combine(x, Map::empty()) == x,
{
    assert(combine(x, Map::empty()) =~= x);
}

proof fn lemma_combine_assoc(x: Repeated, y: Repeated, z: Repeated)
    ensures
        combine(combine(x, y), z) == combine(x, combine(y, z)),
{
    assert forall|k: Seq<char>| #[trigger] combine(combine(x, y), z).dom().contains(k) implies combine(combine(x, y), z)[k]
        == combine(x, combine(y, z))[k] by {
        assert(get_or_empty(x, k) + get_or_empty(y, k) + get_or_empty(z, k) =~= get_or_empty(x, k) + (get_or_empty(y, k)
            + get_or_empty(z, k)));
    }
    assert(combine(combine(x, y), z) =~= combine(x, combine(y, z)));
}

/// Adding the captures of a variable not seen before in a repetition appends
/// them to what that variable captured so far.
proof fn lemma_combine_insert(a: Repeated, m: Captures, k: Seq<char>, c: CaptureView)
    requires
        !m.dom().contains(k),
    ensures
        combine(a, singles(m.insert(k, c))) == combine(a, singles(m)).insert(k, get_or_empty(combine(a, singles(m)), k).push(c)),
{
    let lhs = combine(a, singles(m.insert(k, c)));
    let rhs = combine(a, singles(m)).insert(k, get_or_empty(combine(a, singles(m)), k).push(c));
    assert forall|x: Seq<char>| #[trigger] lhs.dom().contains(x) implies lhs[x] == rhs[x] by {
        if x == k {
            assert(get_or_empty(singles(m), k) =~= Seq::<CaptureView>::empty());
            assert(get_or_empty(singles(m.insert(k, c)), k) =~= seq![c]);
            assert(lhs[x] =~= rhs[x]);
        } else {
            assert(get_or_empty(singles(m.insert(k, c)), x) == get_or_empty(singles(m), x));
        }
    }
    assert(lhs =~= rhs);
}

/// Where `name` is among the gathered captures, if it is.
fn find_rep(acc: &RepEntries, name: &Symbol) -> (r: Option<usize>)
    ensures
        match r {
            Some(j) => j < acc@.len() && acc@[j as int].0@ == name@,
            None => !rep_view(acc@).dom().contains(name@),
        },
{
    let mut j: usize = 0;
    while j < acc.len()
        invariant
            0 <= j <= acc@.len(),
            forall|k: int| 0 <= k < j ==> (#[trigger] acc@[k]).0@ != name@,
        decreases acc@.len() - j,
    {
        if acc[j].0.same(name) {
            return Some(j);
        }
        j = j + 1;
    }
    proof {
        lemma_assoc_dom(acc@, rep_name(), rep_captures(), name@);
    }
    None
}

/// Adds the captures of one more repetition to those gathered so far.
fn add_singles(acc: &mut RepEntries, sub: &CaptureMap)
    requires
        keys_unique(old(acc)@, rep_name()),
    ensures
        keys_unique(final(acc)@, rep_name()),
        rep_view(final(acc)@) == combine(rep_view(old(acc)@), singles(sub@)),
{
    proof {
        use_type_invariant(sub);
    }
    let ghost acc0 = rep_view(acc@);
    let ghost es = sub.entries@;
    let mut i: usize = 0;
    assert(es.take(0) =~= Seq::<(Symbol, CapturedSExpr)>::empty());
    assert(rep_view(acc@) =~= combine(acc0, singles(assoc_map(es.take(0), entry_name(), entry_capture()))));
    while i < sub.entries.len()
        invariant
            0 <= i <= es.len(),
            es == sub.entries@,
            keys_unique(es, entry_name()),
            keys_unique(acc@, rep_name()),
            rep_view(acc@) == combine(acc0, singles(assoc_map(es.take(i as int), entry_name(), entry_capture()))),
        decreases es.len() - i,
    {
        let name = &sub.entries[i].0;
        let c = sub.entries[i].1.duplicate();
        let ghost m = assoc_map(es.take(i as int), entry_name(), entry_capture());
        proof {
            assert(es.take(i + 1).drop_last() =~= es.take(i as int));
            assert(keys_unique(es.take(i as int), entry_name()));
            lemma_assoc_dom(es.take(i as int), entry_name(), entry_capture(), name@);
            if m.dom().contains(name@) {
                let j = choose|j: int| 0 <= j < es.take(i as int).len() && entry_name()(es.take(i as int)[j]) == name@;
                assert(es[j].0@ == es[i as int].0@);
            }
        }
        let ghost before = acc@;
        proof {
            lemma_combine_insert(acc0, m, name@, c@);
        }
        match find_rep(acc, name) {
            Some(j) => {
                proof {
                    lemma_assoc_value(before, rep_name(), rep_captures(), j as int);
                }
                let ghost old_entry = before[j as int];
                acc[j].1.push(c);
                proof {
                    let new_entry = acc@[j as int];
                    assert(captures_view(new_entry.1@) =~= captures_view(old_entry.1@).push(c@));
                    assert(acc@ == before.update(j as int, new_entry));
                    lemma_assoc_update(before, rep_name(), rep_captures(), j as int, new_entry);
                }
            },
            None => {
                let mut v: Vec<CapturedSExpr> = Vec::new();
                v.push(c);
                let entry = (name.duplicate(), v);
                proof {
                    assert(captures_view(entry.1@) =~= seq![c@]);
                    assert(seq![c@] =~= get_or_empty(rep_view(before), name@).push(c@));
                    lemma_assoc_push(before, rep_name(), rep_captures(), entry);
                }
                acc.push(entry);
            },
        }
        proof {
            let m2 = assoc_map(es.take(i + 1), entry_name(), entry_capture());
            assert(m2 == m.insert(name@, c@));
        }
        i = i + 1;
    }
    assert(es.take(es.len() as int) =~= es);
}

/// Binds in `captures` every variable of a repeated pattern to what it captured
/// in each repetition; a variable of `vars` that captured nothing is bound to
/// no repetitions.
fn add_repeated(captures: &mut CaptureMap, rep: RepEntries, vars: &Vec<Symbol>)
    requires
        keys_unique(rep@, rep_name()),
    ensures
        final(captures)@ == with_many(old(captures)@, rep_view(rep@), name_set(vars@)),
{
    let ghost rep0 = rep_view(rep@);
    let ghost vset = name_set(vars@);
    let mut rep = rep;
    let mut i: usize = 0;
    while i < vars.len()
        invariant
            0 <= i <= vars@.len(),
            keys_unique(rep@, rep_name()),
            forall|k: Seq<char>| #[trigger] rep_view(rep@).dom().contains(k) <==> rep0.dom().contains(k) || names_of(
                vars@.take(i as int),
            ).contains(k),
            forall|k: Seq<char>| #[trigger] rep_view(rep@).dom().contains(k) ==> rep_view(rep@)[k] == get_or_empty(rep0, k),
        decreases vars@.len() - i,
    {
        let ghost before = rep@;
        proof {
            assert(names_of(vars@.take(i + 1)) =~= names_of(vars@.take(i as int)).push(vars@[i as int]@));
        }
        match find_rep(&rep, &vars[i]) {
            Some(j) => {
                proof {
                    assert(rep_name()(before[j as int]) == vars@[i as int]@);
                    lemma_assoc_dom(before, rep_name(), rep_captures(), vars@[i as int]@);
                }
            },
            None => {
                let entry = (vars[i].duplicate(), Vec::new());
                proof {
                    lemma_assoc_push(before, rep_name(), rep_captures(), entry);
                    assert(captures_view(entry.1@) =~= Seq::<CaptureView>::empty());
                }
                rep.push(entry);
            },
        }
        proof {
            assert forall|k: Seq<char>| #[trigger] rep_view(rep@).dom().contains(k) <==> rep0.dom().contains(k)
                || names_of(vars@.take(i + 1)).contains(k) by {
                if names_of(vars@.take(i + 1)).contains(k) && k != vars@[i as int]@ {
                    let j = choose|j: int| 0 <= j < names_of(vars@.take(i + 1)).len() && #[trigger] names_of(vars@.take(i + 1))[j] == k;
                    assert(names_of(vars@.take(i as int))[j] == k);
                }
                if names_of(vars@.take(i as int)).contains(k) {
                    let j = choose|j: int| 0 <= j < names_of(vars@.take(i as int)).len() && #[trigger] names_of(vars@.take(i as int))[j] == k;
                    assert(names_of(vars@.take(i + 1))[j] == k);
                }
            }
        }
        i = i + 1;
    }
    assert(vars@.take(vars@.len() as int) =~= vars@);
    let ghost full = rep@;
    let ghost fullv = rep_view(full);
    let ghost caps0 = captures@;
    proof {
        assert forall|k: Seq<char>| #[trigger] fullv.dom().contains(k) <==> rep0.dom().contains(k) || vset.contains(k) by {
            if names_of(vars@).contains(k) {
            }
        }
    }
    assert(full.skip(full.len() as int) =~= Seq::<(Symbol, Vec<CapturedSExpr>)>::empty());
    while rep.len() > 0
        invariant
            rep@ == full.take(rep@.len() as int),
            rep@.len() <= full.len(),
            keys_unique(full, rep_name()),
            fullv == rep_view(full),
            forall|k: Seq<char>| #[trigger] captures@.dom().contains(k) <==> caps0.dom().contains(k) || names_of_rep(
                full.skip(rep@.len() as int),
            ).contains(k),
            forall|k: Seq<char>| #[trigger] captures@.dom().contains(k) ==> captures@[k] == if names_of_rep(
                full.skip(rep@.len() as int),
            ).contains(k) {
                CaptureView::Many(fullv[k])
            } else {
                caps0[k]
            },
        decreases rep@.len(),
    {
        let ghost k = rep@.len() - 1;
        let (name, vs) = match rep.pop() {
            Some(e) => e,
            None => vstd::pervasive::unreached(),
        };
        proof {
            assert(rep@ =~= full.take(k));
            lemma_assoc_value(full, rep_name(), rep_captures(), k);
            assert(names_of_rep(full.skip(k)) =~= seq![name@] + names_of_rep(full.skip(k + 1)));
            assert(CapturedSExpr::Many(vs)@ == CaptureView::Many(captures_view(vs@))) by {
                assert(CapturedSExpr::Many(vs)@->Many_0 =~= captures_view(vs@));
            }
        }
        captures.insert(name, CapturedSExpr::Many(vs));
    }
    proof {
        assert(full.skip(0) =~= full);
        assert forall|k: Seq<char>| names_of_rep(full).contains(k) <==> fullv.dom().contains(k) by {
            lemma_assoc_dom(full, rep_name(), rep_captures(), k);
            if names_of_rep(full).contains(k) {
                let j = choose|j: int| 0 <= j < names_of_rep(full).len() && names_of_rep(full)[j] == k;
                assert(rep_name()(full[j]) == k);
            }
            if fullv.dom().contains(k) {
                let j = choose|j: int| 0 <= j < full.len() && rep_name()(full[j]) == k;
                assert(names_of_rep(full)[j] == k);
            }
        }
        assert(captures@ =~= with_many(caps0, rep0, vset));
    }
}

spec fn names_of_rep(v: Seq<(Symbol, Vec<CapturedSExpr>)>) -> Seq<Seq<char>> {
    v.map_values(|e: (Symbol, Vec<CapturedSExpr>)| e.0@)
}

/// Matches `pattern` against `target`, adding the captures to `captures`; see
/// `match_sub`. On failure `captures` holds no promise.
fn match_subpattern(
    pattern: &SExpr<Id>,
    target: &SExpr<Id>,
    lits: &Vec<Symbol>,
    bindings: &Bindings,
    captures: &mut CaptureMap,
) -> (r: bool)
    requires
        spans_ok(pattern@),
        spans_ok(target@),
    ensures
        r == match_sub(pattern@, target@, name_set(lits@), *bindings, old(captures)@) is Some,
        r ==> Some(final(captures)@) == match_sub(pattern@, target@, name_set(lits@), *bindings, old(captures)@),
    decreases weight(pattern@), if pattern@ is Cons { 1int } else { 0int }, target@,
{
    match pattern {
        SExpr::Var(pat_id, _) => {
            if contains_name(lits, &pat_id.symbol) {
                match target {
                    SExpr::Var(tgt_id, _) => {
                        let rp = bindings.resolve(pat_id);
                        let rt = bindings.resolve(tgt_id);
                        match (rp, rt) {
                            (Some(a), Some(b)) => a.symbol.same(&b.symbol) && a.scopes.same(&b.scopes),
                            (None, None) => pat_id.symbol.same(&tgt_id.symbol),
                            _ => false,
                        }
                    },
                    _ => false,
                }
            } else if pat_id.symbol.same(&Symbol::new("_")) {
                true
            } else {
                captures.insert(pat_id.symbol.duplicate(), CapturedSExpr::One(target.duplicate()));
                true
            }
        },
        SExpr::Cons(..) => match_subpatterns(pattern, target, lits, bindings, captures),
        SExpr::Vector(..) => match target {
            SExpr::Vector(..) => {
                let pl = vector_to_list(pattern);
                let tl = vector_to_list(target);
                proof {
                    lemma_vector_list_weight(pattern@->Vector_0, pattern@->Vector_1);
                }
                match_subpatterns(&pl, &tl, lits, bindings, captures)
            },
            _ => false,
        },
        _ => same_but_spans(pattern, target),
    }
}

/// Matches the list pattern `patterns` against `target`; see `match_list`.
fn match_subpatterns(
    patterns: &SExpr<Id>,
    target: &SExpr<Id>,
    lits: &Vec<Symbol>,
    bindings: &Bindings,
    captures: &mut CaptureMap,
) -> (r: bool)
    requires
        spans_ok(patterns@),
        spans_ok(target@),
    ensures
        r == match_list(patterns@, target@, name_set(lits@), *bindings, old(captures)@) is Some,
        r ==> Some(final(captures)@) == match_list(patterns@, target@, name_set(lits@), *bindings, old(captures)@),
    decreases weight(patterns@), if patterns@ is Cons { 0int } else { 1int }, target@,
{
    match patterns {
        SExpr::Cons(pc, _) => {
            proof {
                lemma_weight_positive(pc.car@);
                lemma_weight_positive(pc.cdr@);
                lemma_end_weight(patterns@);
            }
            let (n, _) = consume_ellipsis(&pc.cdr);
            if n > 0 {
                let rep = match match_repetition(&pc.car, target, lits, bindings) {
                    Some(rep) => rep,
                    None => {
                        return false;
                    },
                };
                let mut vars: Vec<Symbol> = Vec::new();
                collect_capture_variables(&pc.car, lits, &mut vars);
                assert(names_of(vars@) =~= occurrences(pc.car@, name_set(lits@)));
                add_repeated(captures, rep, &vars);
                let pend = match try_dotted_tail(patterns) {
                    Some(x) => x,
                    None => vstd::pervasive::unreached(),
                };
                let tend = match try_dotted_tail(target) {
                    Some(x) => x,
                    None => target,
                };
                proof {
                    lemma_tail_view(*patterns);
                    lemma_tail_view(*target);
                    lemma_end_spans_ok(patterns@);
                    lemma_end_spans_ok(target@);
                }
                match_subpattern(pend, tend, lits, bindings, captures)
            } else {
                match target {
                    SExpr::Cons(tc, _) => {
                        if match_subpattern(&pc.car, &tc.car, lits, bindings, captures) {
                            match_subpatterns(&pc.cdr, &tc.cdr, lits, bindings, captures)
                        } else {
                            false
                        }
                    },
                    _ => false,
                }
            }
        },
        _ => match_subpattern(patterns, target, lits, bindings, captures),
    }
}

/// Matches the repeated pattern `rp` against each element of the list `target`;
/// see `match_rep`.
fn match_repetition(rp: &SExpr<Id>, target: &SExpr<Id>, lits: &Vec<Symbol>, bindings: &Bindings) -> (r: Option<RepEntries>)
    requires
        spans_ok(rp@),
        spans_ok(target@),
    ensures
        match r {
            Some(x) => keys_unique(x@, rep_name()) && match_rep(rp@, target@, name_set(lits@), *bindings) == Some(
                rep_view(x@),
            ),
            None => match_rep(rp@, target@, name_set(lits@), *bindings) is None,
        },
    decreases weight(rp@), 2int, target@,
{
    let ghost l = name_set(lits@);
    let mut acc: RepEntries = Vec::new();
    let mut cur = target;
    assert(rep_view(acc@) =~= Map::<Seq<char>, Seq<CaptureView>>::empty());
    proof {
        match match_rep(rp@, target@, l, *bindings) {
            Some(x) => {
                assert(combine(Map::empty(), x) =~= x);
            },
            None => {},
        }
    }
    loop
        invariant
            keys_unique(acc@, rep_name()),
            spans_ok(rp@),
            spans_ok(cur@),
            l == name_set(lits@),
            match_rep(rp@, target@, l, *bindings) == match match_rep(rp@, cur@, l, *bindings) {
                None => None,
                Some(x) => Some(combine(rep_view(acc@), x)),
            },
        decreases cur@,
    {
        match cur {
            SExpr::Cons(tc, _) => {
                let mut sub = CaptureMap::new();
                if !match_subpattern(rp, &tc.car, lits, bindings, &mut sub) {
                    return None;
                }
                let ghost acc_before = rep_view(acc@);
                add_singles(&mut acc, &sub);
                proof {
                    match match_rep(rp@, tc.cdr@, l, *bindings) {
                        Some(x) => {
                            lemma_combine_assoc(acc_before, singles(sub@), x);
                        },
                        None => {},
                    }
                }
                cur = &tc.cdr;
            },
            _ => {
                proof {
                    lemma_combine_empty(rep_view(acc@));
                }
                return Some(acc);
            },
        }
    }
}

/// What follows the `...` that start a list weighs no more than the list.
pub proof fn lemma_after_ellipses_weight(e: Form)
    ensures
        weight(after_ellipses(e)) <= weight(e),
    decreases e,
{
    if let SExprView::Cons(a, d, _) = e {
        if is_named(*a, "..."@) {
            lemma_after_ellipses_weight(*d);
            lemma_weight_positive(*a);
        }
    }
}

/// Checking a pattern, given the names of the pattern variables seen so far:
/// the names seen afterwards, or the first error. `...` may only follow an
/// element of a list, once, as the list's last element (a dotted tail may
/// follow); a pattern variable may occur only once.
pub open spec fn validate(p: Form, lits: Set<Seq<char>>, seen: Set<Seq<char>>) -> Result<Set<Seq<char>>, TransformError>
    decreases weight(p), if p is Cons { 1int } else { 0int },
{
    match p {
        SExprView::Var(id, span) => if id.0 == "..."@ {
            Err((span, "'...' is not allowed in this position"@))
        } else if id.0 != "_"@ && !lits.contains(id.0) {
            if seen.contains(id.0) {
                Err((span, "Duplicate pattern variable '"@ + id.0 + "'"@))
            } else {
                Ok(seen.insert(id.0))
            }
        } else {
            Ok(seen)
        },
        SExprView::Cons(..) => validate_list(p, lits, seen),
        SExprView::Vector(v, span) => {
            proof {
                lemma_vector_list_weight(v, span);
            }
            validate(vector_as_list(v, span), lits, seen)
        },
        _ => Ok(seen),
    }
}

/// Checking the list pattern `p`; see `validate`.
pub open spec fn validate_list(p: Form, lits: Set<Seq<char>>, seen: Set<Seq<char>>) -> Result<Set<Seq<char>>, TransformError>
    decreases weight(p), if p is Cons { 0int } else { 1int },
{
    match p {
        SExprView::Cons(a, d, _) => {
            proof {
                lemma_weight_positive(*a);
                lemma_weight_positive(*d);
                lemma_after_ellipses_weight(*d);
            }
            if ellipses(*d) > 0 {
                if ellipses(*d) > 1 {
                    Err(((*d).span(), "Multiple consecutive '...' in pattern"@))
                } else {
                    match validate(*a, lits, seen) {
                        Err(e) => Err(e),
                        Ok(s2) => {
                            let rest = after_ellipses(*d);
                            if rest is Cons {
                                Err((rest.span(), "Unexpected pattern element after '...'"@))
                            } else if rest is Nil {
                                Ok(s2)
                            } else {
                                validate(rest, lits, s2)
                            }
                        },
                    }
                }
            } else {
                match validate(*a, lits, seen) {
                    Err(e) => Err(e),
                    Ok(s2) => validate_list(*d, lits, s2),
                }
            }
        },
        SExprView::Nil(_) => Ok(seen),
        _ => validate(p, lits, seen),
    }
}

fn error(span: Span, reason: String) -> (r: CompilationError)
    ensures
        r@ == (span, reason@),
{
    CompilationError { span, reason }
}

/// Checks `pattern`, adding the names of its pattern variables to `seen`; see `validate`.
fn validate_pattern(pattern: &SExpr<Id>, lits: &Vec<Symbol>, seen: &mut Vec<Symbol>) -> (r: Result<(), CompilationError>)
    requires
        spans_ok(pattern@),
    ensures
        match r {
            Ok(()) => validate(pattern@, name_set(lits@), name_set(old(seen)@)) == Ok::<Set<Seq<char>>, TransformError>(
                name_set(final(seen)@),
            ),
            Err(e) => validate(pattern@, name_set(lits@), name_set(old(seen)@)) == Err::<Set<Seq<char>>, TransformError>(e@),
        },
    decreases weight(pattern@), if pattern@ is Cons { 1int } else { 0int },
{
    match pattern {
        SExpr::Var(id, span) => {
            if id.symbol.same(&Symbol::new("...")) {
                return Err(error(*span, String::from_str("'...' is not allowed in this position")));
            }
            if !id.symbol.same(&Symbol::new("_")) && !contains_name(lits, &id.symbol) {
                if contains_name(seen, &id.symbol) {
                    let mut reason = String::from_str("Duplicate pattern variable '");
                    reason.append(id.symbol.0.as_str());
                    reason.append("'");
                    return Err(error(*span, reason));
                }
                seen.push(id.symbol.duplicate());
                assert(names_of(seen@) =~= names_of(old(seen)@).push(id.symbol@));
                assert(name_set(seen@) =~= name_set(old(seen)@).insert(id.symbol@));
            }
            Ok(())
        },
        SExpr::Cons(..) => validate_list_exec(pattern, lits, seen),
        SExpr::Vector(..) => {
            let l = vector_to_list(pattern);
            proof {
                lemma_vector_list_weight(pattern@->Vector_0, pattern@->Vector_1);
            }
            validate_pattern(&l, lits, seen)
        },
        _ => Ok(()),
    }
}

fn validate_list_exec(pattern: &SExpr<Id>, lits: &Vec<Symbol>, seen: &mut Vec<Symbol>) -> (r: Result<(), CompilationError>)
    requires
        spans_ok(pattern@),
    ensures
        match r {
            Ok(()) => validate_list(pattern@, name_set(lits@), name_set(old(seen)@)) == Ok::<Set<Seq<char>>, TransformError>(
                name_set(final(seen)@),
            ),
            Err(e) => validate_list(pattern@, name_set(lits@), name_set(old(seen)@)) == Err::<Set<Seq<char>>, TransformError>(e@),
        },
    decreases weight(pattern@), if pattern@ is Cons { 0int } else { 1int },
{
    match pattern {
        SExpr::Cons(c, _) => {
            proof {
                lemma_weight_positive(c.car@);
                lemma_weight_positive(c.cdr@);
                lemma_after_ellipses_weight(c.cdr@);
            }
            let (n, rest) = consume_ellipsis(&c.cdr);
            if n > 0 {
                if n > 1 {
                    proof {
                        lemma_view_span(*c.cdr);
                    }
                    return Err(error(c.cdr.get_span(), String::from_str("Multiple consecutive '...' in pattern")));
                }
                match validate_pattern(&c.car, lits, seen) {
                    Err(e) => {
                        return Err(e);
                    },
                    Ok(()) => {},
                }
                proof {
                    lemma_view_span(*rest);
                    lemma_after_ellipses_spans_ok(c.cdr@);
                }
                match rest {
                    SExpr::Cons(..) => Err(error(rest.get_span(), String::from_str("Unexpected pattern element after '...'"))),
                    SExpr::Nil(_) => Ok(()),
                    _ => validate_pattern(rest, lits, seen),
                }
            } else {
                match validate_pattern(&c.car, lits, seen) {
                    Err(e) => Err(e),
                    Ok(()) => validate_list_exec(&c.cdr, lits, seen),
                }
            }
        },
        SExpr::Nil(_) => Ok(()),
        _ => validate_pattern(pattern, lits, seen),
    }
}

proof fn lemma_after_ellipses_spans_ok(e: Form)
    requires
        spans_ok(e),
    ensures
        spans_ok(after_ellipses(e)),
    decreases e,
{
    if let SExprView::Cons(a, d, _) = e {
        if is_named(*a, "..."@) {
            lemma_after_ellipses_spans_ok(*d);
        }
    }
}

/// How many repetitions a capture holds (none for a single capture).
pub open spec fn many_len(c: CaptureView) -> nat {
    match c {
        CaptureView::Many(v) => v.len(),
        CaptureView::One(_) => 0,
    }
}

/// Whether `k` captured under an ellipsis.
pub open spec fn is_many(caps: Captures, k: Seq<char>) -> bool {
    caps.dom().contains(k) && caps[k] is Many
}

/// The names among `occ` that captured under an ellipsis, in order.
pub open spec fn packed_of(occ: Seq<Seq<char>>, caps: Captures) -> Seq<Seq<char>>
    decreases occ.len(),
{
    if occ.len() == 0 {
        Seq::empty()
    } else {
        let rest = packed_of(occ.drop_last(), caps);
        if is_many(caps, occ.last()) {
            rest.push(occ.last())
        } else {
            rest
        }
    }
}

/// The first name of `packed` after the first whose number of repetitions
/// differs from `n`.
pub open spec fn first_mismatch(packed: Seq<Seq<char>>, caps: Captures, n: nat) -> Option<int> {
    if exists|j: int| 1 <= j < packed.len() && many_len(caps[packed[j]]) != n {
        Some(choose|j: int| 1 <= j < packed.len() && many_len(caps[packed[j]]) != n && forall|k: int| 1 <= k < j ==> many_len(caps[packed[k]]) == n)
    } else {
        None
    }
}

/// `caps` with each name of `packed` bound to its `i`-th repetition.
pub open spec fn caps_at(caps: Captures, packed: Seq<Seq<char>>, i: int) -> Captures {
    Map::new(
        |k: Seq<char>| caps.dom().contains(k),
        |k: Seq<char>| if packed.contains(k) {
            caps[k]->Many_0[i]
        } else {
            caps[k]
        },
    )
}

/// Rendering template `t` with the captures `caps`: the form, or the first
/// error. A captured variable gives what it captured (an error when it captured
/// under an ellipsis); a list is rendered element by element, an element
/// followed by `...` once for each repetition of the variables in it that
/// captured under an ellipsis; a vector is rendered as the list of its elements;
/// anything else stands for itself.
pub open spec fn render(t: Form, caps: Captures) -> Result<Form, TransformError>
    decreases weight(t), if t is Cons { 1int } else { 0int }, 0int, 0int,
{
    match t {
        SExprView::Var(id, span) => if caps.dom().contains(id.0) {
            match caps[id.0] {
                CaptureView::One(e) => Ok(e),
                CaptureView::Many(_) => Err((span, "'"@ + id.0 + "' is followed by ellipsis in pattern but not in template"@)),
            }
        } else {
            Ok(t)
        },
        SExprView::Cons(..) => render_list(t, caps),
        SExprView::Vector(v, span) => {
            proof {
                lemma_vector_list_weight(v, span);
            }
            match render_list(vector_as_list(v, span), caps) {
                Err(e) => Err(e),
                Ok(l) => match l {
                    SExprView::Cons(_, _, s2) => Ok(SExprView::Vector(items_of(l), s2)),
                    SExprView::Nil(s2) => Ok(SExprView::Vector(Seq::empty(), s2)),
                    _ => Ok(l),
                },
            }
        },
        _ => Ok(t),
    }
}

/// Rendering the list template `t`; see `render`.
pub open spec fn render_list(t: Form, caps: Captures) -> Result<Form, TransformError>
    decreases weight(t), if t is Cons { 0int } else { 1int }, 0int, 0int,
{
    match t {
        SExprView::Cons(a, d, _) => {
            proof {
                lemma_weight_positive(*a);
                lemma_weight_positive(*d);
                lemma_after_ellipses_weight(*d);
            }
            let n = ellipsis_level(*d);
            if n > 0 {
                match render_rep(*a, n, caps) {
                    Err(e) => Err(e),
                    Ok(items) => match render(after_ellipses(*d), caps) {
                        Err(e) => Err(e),
                        Ok(tail) => Ok(prepend_all(items, tail)),
                    },
                }
            } else {
                match render(*a, caps) {
                    Err(e) => Err(e),
                    Ok(car) => match render(*d, caps) {
                        Err(e) => Err(e),
                        Ok(cdr) => Ok(SExprView::pair(car, cdr)),
                    },
                }
            }
        },
        _ => Ok(t),
    }
}

/// Rendering template `t` followed by `level` ellipses: the forms of all its
/// repetitions, in order, or the first error.
pub open spec fn render_rep(t: Form, level: nat, caps: Captures) -> Result<Seq<Form>, TransformError>
    decreases weight(t), 2int, level, 0int,
{
    if level == 0 {
        match render(t, caps) {
            Err(e) => Err(e),
            Ok(x) => Ok(seq![x]),
        }
    } else {
        let packed = packed_of(occurrences(t, Set::empty()), caps);
        if packed.len() == 0 {
            Err((t.span(), "Expected at least one repeated capture variable in ellipsis template"@))
        } else {
            let n = many_len(caps[packed[0]]);
            match first_mismatch(packed, caps, n) {
                Some(j) => Err((
                    t.span(),
                    "Incompatible ellipsis match counts for '"@ + packed[0] + "' ("@ + decimal(n) + ") and '"@ + packed[j]
                        + "' ("@ + decimal(many_len(caps[packed[j]])) + ")"@,
                )),
                None => render_rep_from(t, (level - 1) as nat, caps, packed, 0, n),
            }
        }
    }
}

/// The repetitions `i ..< n` of template `t`, each rendered with the names of
/// `packed` bound to their repetition.
pub open spec fn render_rep_from(t: Form, level: nat, caps: Captures, packed: Seq<Seq<char>>, i: nat, n: nat) -> Result<
    Seq<Form>,
    TransformError,
>
    decreases weight(t), 2int, level, n - i + 1,
{
    if i >= n {
        Ok(Seq::empty())
    } else {
        match render_rep(t, level, caps_at(caps, packed, i as int)) {
            Err(e) => Err(e),
            Ok(xs) => match render_rep_from(t, level, caps, packed, i + 1, n) {
                Err(e) => Err(e),
                Ok(ys) => Ok(xs + ys),
            },
        }
    }
}

/// Putting elements in front of a tail keeps what ends the list.
pub proof fn lemma_prepend_end(items: Seq<Form>, tail: Form)
    ensures
        end_of(prepend_all(items, tail)) == end_of(tail),
        items.len() > 0 ==> prepend_all(items, tail) is Cons,
    decreases items.len(),
{
    if items.len() > 0 {
        lemma_prepend_end(items.skip(1), tail);
    }
}

proof fn lemma_after_ellipses_end(e: Form)
    ensures
        end_of(after_ellipses(e)) == end_of(e),
        (e is Cons || e is Nil) && end_of(e) is Nil ==> (after_ellipses(e) is Cons || after_ellipses(e) is Nil),
    decreases e,
{
    if let SExprView::Cons(a, d, _) = e {
        if is_named(*a, "..."@) {
            lemma_after_ellipses_end(*d);
        }
    }
}

/// Rendering a proper list gives a proper list.
pub proof fn lemma_render_proper(t: Form, caps: Captures)
    requires
        t is Cons || t is Nil,
        end_of(t) is Nil,
    ensures
        render_list(t, caps) matches Ok(r) ==> (r is Cons || r is Nil) && end_of(r) is Nil,
    decreases weight(t),
{
    if let SExprView::Cons(a, d, _) = t {
        lemma_weight_positive(*a);
        lemma_weight_positive(*d);
        lemma_after_ellipses_weight(*d);
        let n = ellipsis_level(*d);
        if n > 0 {
            lemma_after_ellipses_end(*d);
            let rest = after_ellipses(*d);
            if rest is Cons {
                lemma_render_proper(rest, caps);
            }
            if let Ok(items) = render_rep(*a, n, caps) {
                if let Ok(tail) = render(rest, caps) {
                    lemma_prepend_end(items, tail);
                }
            }
        } else {
            if *d is Cons {
                lemma_render_proper(*d, caps);
            }
        }
    }
}

/// The views of a sequence of forms.
pub open spec fn forms_view(v: Seq<SExpr<Id>>) -> Seq<Form> {
    v.map_values(|x: SExpr<Id>| x@)
}

/// The elements of a list, seen through views, are the elements of its view.
pub proof fn lemma_elements_view(e: SExpr<Id>)
    ensures
        forms_view(spec_elements(e)) == items_of(e@),
    decreases e,
{
    if let SExpr::Cons(c, _) = e {
        lemma_elements_view(*c.cdr);
        assert(spec_elements(e) == seq![*c.car] + spec_elements(*c.cdr));
        assert(forms_view(spec_elements(e)) =~= seq![c.car@] + forms_view(spec_elements(*c.cdr)));
    } else {
        assert(forms_view(spec_elements(e)) =~= Seq::<Form>::empty());
    }
}

/// Renders `template` with `captures`; see `render`.
fn render_template(template: &SExpr<Id>, captures: &CaptureMap) -> (r: Result<SExpr<Id>, CompilationError>)
    requires
        spans_ok(template@),
    ensures
        match r {
            Ok(x) => render(template@, captures@) == Ok::<Form, TransformError>(x@),
            Err(e) => render(template@, captures@) == Err::<Form, TransformError>(e@),
        },
    decreases weight(template@), if template@ is Cons { 1int } else { 0int }, 0int, 0int,
{
    match template {
        SExpr::Var(id, span) => match captures.get(&id.symbol) {
            Some(CapturedSExpr::One(e)) => Ok(e.duplicate()),
            Some(CapturedSExpr::Many(_)) => {
                let mut reason = String::from_str("'");
                reason.append(id.symbol.0.as_str());
                reason.append("' is followed by ellipsis in pattern but not in template");
                Err(error(*span, reason))
            },
            None => Ok(template.duplicate()),
        },
        SExpr::Cons(..) => render_templates(template, captures),
        SExpr::Vector(..) => {
            let l = vector_to_list(template);
            proof {
                lemma_vector_list_weight(template@->Vector_0, template@->Vector_1);
                let span = template@->Vector_1;
                lemma_prepend_end(template@->Vector_0, SExprView::Nil(Span { lo: (span.hi - 1) as usize, hi: span.hi }));
                lemma_render_proper(l@, captures@);
            }
            let rendered = match render_templates(&l, captures) {
                Ok(x) => x,
                Err(e) => {
                    return Err(e);
                },
            };
            match rendered {
                SExpr::Cons(c, s2) => {
                    let ghost cv = c;
                    proof {
                        lemma_tail_view(*cv.cdr);
                        lemma_elements_view(*cv.cdr);
                    }
                    match c.try_into_vector(s2) {
                        Some(v) => {
                            proof {
                                let vv = v->Vector_0;
                                assert(v@->Vector_0 =~= forms_view(vv.0@));
                                assert(forms_view(seq![*cv.car] + spec_elements(*cv.cdr)) =~= seq![cv.car@] + forms_view(
                                    spec_elements(*cv.cdr),
                                ));
                            }
                            Ok(v)
                        },
                        None => vstd::pervasive::unreached(),
                    }
                },
                SExpr::Nil(s2) => {
                    let r = SExpr::Vector(Vector(Vec::new()), s2);
                    assert(r@->Vector_0 =~= Seq::<Form>::empty());
                    Ok(r)
                },
                _ => vstd::pervasive::unreached(),
            }
        },
        _ => Ok(template.duplicate()),
    }
}

/// `items` put in front of `tail`, the last one innermost.
fn prepend_forms(items: Vec<SExpr<Id>>, tail: SExpr<Id>) -> (r: SExpr<Id>)
    ensures
        r@ == prepend_all(forms_view(items@), tail@),
{
    let ghost orig = items@;
    let mut items = items;
    let mut acc = tail;
    assert(forms_view(orig).skip(orig.len() as int) =~= Seq::<Form>::empty());
    while items.len() > 0
        invariant
            items@ == orig.take(items@.len() as int),
            items@.len() <= orig.len(),
            acc@ == prepend_all(forms_view(orig).skip(items@.len() as int), tail@),
        decreases items@.len(),
    {
        let ghost k = items@.len() - 1;
        let item = match items.pop() {
            Some(x) => x,
            None => vstd::pervasive::unreached(),
        };
        proof {
            assert(items@ =~= orig.take(k));
            assert(forms_view(orig).skip(k).skip(1) =~= forms_view(orig).skip(k + 1));
            assert(forms_view(orig).skip(k)[0] == item@);
            lemma_view_span(item);
            lemma_view_span(acc);
        }
        acc = SExpr::cons(item, acc);
    }
    assert(forms_view(orig).skip(0) =~= forms_view(orig));
    acc
}

/// Renders the list template `templates`; see `render_list`.
fn render_templates(templates: &SExpr<Id>, captures: &CaptureMap) -> (r: Result<SExpr<Id>, CompilationError>)
    requires
        spans_ok(templates@),
    ensures
        match r {
            Ok(x) => render_list(templates@, captures@) == Ok::<Form, TransformError>(x@),
            Err(e) => render_list(templates@, captures@) == Err::<Form, TransformError>(e@),
        },
    decreases weight(templates@), if templates@ is Cons { 0int } else { 1int }, 0int, 0int,
{
    match templates {
        SExpr::Cons(c, _) => {
            proof {
                lemma_weight_positive(c.car@);
                lemma_weight_positive(c.cdr@);
                lemma_after_ellipses_weight(c.cdr@);
                lemma_after_ellipses_spans_ok(c.cdr@);
            }
            let (level, rest) = consume_ellipsis(&c.cdr);
            if level > 0 {
                let expanded = match render_template_repetition(&c.car, level, captures) {
                    Ok(x) => x,
                    Err(e) => {
                        return Err(e);
                    },
                };
                let tail = match render_template(rest, captures) {
                    Ok(x) => x,
                    Err(e) => {
                        return Err(e);
                    },
                };
                Ok(prepend_forms(expanded, tail))
            } else {
                let car = match render_template(&c.car, captures) {
                    Ok(x) => x,
                    Err(e) => {
                        return Err(e);
                    },
                };
                let cdr = match render_template(&c.cdr, captures) {
                    Ok(x) => x,
                    Err(e) => {
                        return Err(e);
                    },
                };
                proof {
                    lemma_view_span(car);
                    lemma_view_span(cdr);
                }
                Ok(SExpr::cons(car, cdr))
            }
        },
        _ => Ok(templates.duplicate()),
    }
}

/// What `name` captured, which is a sequence of repetitions.
fn repetitions<'a>(captures: &'a CaptureMap, name: &Symbol) -> (r: &'a Vec<CapturedSExpr>)
    requires
        is_many(captures@, name@),
    ensures
        captures_view(r@) == captures@[name@]->Many_0,
{
    match captures.get(name) {
        Some(CapturedSExpr::Many(items)) => {
            proof {
                assert(captures_view(items@) =~= captures@[name@]->Many_0);
            }
            items
        },
        _ => vstd::pervasive::unreached(),
    }
}

/// Renders `template` followed by `level` ellipses; see `render_rep`.
fn render_template_repetition(template: &SExpr<Id>, level: usize, captures: &CaptureMap) -> (r: Result<
    Vec<SExpr<Id>>,
    CompilationError,
>)
    requires
        spans_ok(template@),
    ensures
        match r {
            Ok(v) => render_rep(template@, level as nat, captures@) == Ok::<Seq<Form>, TransformError>(forms_view(v@)),
            Err(e) => render_rep(template@, level as nat, captures@) == Err::<Seq<Form>, TransformError>(e@),
        },
    decreases weight(template@), 2int, level, 0int,
{
    let ghost caps = captures@;
    if level == 0 {
        let x = match render_template(template, captures) {
            Ok(x) => x,
            Err(e) => {
                return Err(e);
            },
        };
        let mut v = Vec::new();
        v.push(x);
        assert(forms_view(v@) =~= seq![x@]);
        return Ok(v);
    }
    let no_literals: Vec<Symbol> = Vec::new();
    let mut occ: Vec<Symbol> = Vec::new();
    collect_capture_variables(template, &no_literals, &mut occ);
    assert(name_set(no_literals@) =~= Set::<Seq<char>>::empty());
    assert(names_of(occ@) =~= occurrences(template@, Set::empty()));
    let ghost occv = names_of(occ@);
    let mut packed: Vec<Symbol> = Vec::new();
    let mut i: usize = 0;
    assert(occv.take(0) =~= Seq::<Seq<char>>::empty());
    assert(names_of(packed@) =~= packed_of(occv.take(0), caps));
    while i < occ.len()
        invariant
            0 <= i <= occ@.len(),
            occv == names_of(occ@),
            caps == captures@,
            names_of(packed@) == packed_of(occv.take(i as int), caps),
        decreases occ@.len() - i,
    {
        assert(occv.take(i + 1).drop_last() =~= occv.take(i as int));
        assert(occv.take(i + 1).last() == occ@[i as int]@);
        match captures.get(&occ[i]) {
            Some(CapturedSExpr::Many(_)) => {
                packed.push(occ[i].duplicate());
                assert(names_of(packed@) =~= packed_of(occv.take(i + 1), caps));
            },
            _ => {},
        }
        i = i + 1;
    }
    assert(occv.take(occ@.len() as int) =~= occv);
    let ghost pk = names_of(packed@);
    proof {
        lemma_packed_many(occv, caps);
    }
    if packed.len() == 0 {
        proof {
            lemma_view_span(*template);
        }
        return Err(
            error(template.get_span(), String::from_str("Expected at least one repeated capture variable in ellipsis template")),
        );
    }
    let n = repetitions(captures, &packed[0]).len();
    let ghost nn = n as nat;
    let mut j: usize = 1;
    while j < packed.len()
        invariant
            1 <= j <= packed@.len(),
            pk == names_of(packed@),
            caps == captures@,
            level > 0,
            pk == packed_of(occurrences(template@, Set::empty()), caps),
            nn == n,
            n == many_len(caps[pk[0]]),
            forall|k: int| 0 <= k < pk.len() ==> is_many(caps, #[trigger] pk[k]),
            forall|k: int| 1 <= k < j ==> many_len(caps[#[trigger] pk[k]]) == n,
        decreases packed@.len() - j,
    {
        assert(pk[j as int] == packed@[j as int]@);
        assert(is_many(caps, pk[j as int]));
        let m = repetitions(captures, &packed[j]).len();
        if m != n {
            proof {
                lemma_view_span(*template);
                assert(pk[j as int] == packed@[j as int]@);
                lemma_first_mismatch(pk, caps, nn, j as int);
            }
            let mut reason = String::from_str("Incompatible ellipsis match counts for '");
            reason.append(packed[0].0.as_str());
            reason.append("' (");
            push_decimal(&mut reason, n as u64);
            reason.append(") and '");
            reason.append(packed[j].0.as_str());
            reason.append("' (");
            push_decimal(&mut reason, m as u64);
            reason.append(")");
            return Err(error(template.get_span(), reason));
        }
        j = j + 1;
    }
    proof {
        lemma_no_mismatch(pk, caps, nn);
    }
    let ghost total = render_rep_from(template@, (level - 1) as nat, caps, pk, 0, nn);
    let mut acc: Vec<SExpr<Id>> = Vec::new();
    let mut i: usize = 0;
    assert(render_rep(template@, level as nat, caps) == total);
    proof {
        match total {
            Ok(ys) => {
                assert(forms_view(acc@) + ys =~= ys);
            },
            Err(_) => {},
        }
    }
    while i < n
        invariant
            0 <= i <= n,
            caps == captures@,
            pk == names_of(packed@),
            n == nn,
            level > 0,
            spans_ok(template@),
            forall|k: int| 0 <= k < pk.len() ==> is_many(caps, #[trigger] pk[k]),
            forall|k: int| 0 <= k < pk.len() ==> many_len(caps[#[trigger] pk[k]]) == n,
            total == render_rep_from(template@, (level - 1) as nat, caps, pk, 0, nn),
            render_rep(template@, level as nat, caps) == total,
            match render_rep_from(template@, (level - 1) as nat, caps, pk, i as nat, nn) {
                Ok(ys) => total == Ok::<Seq<Form>, TransformError>(forms_view(acc@) + ys),
                Err(e) => total == Err::<Seq<Form>, TransformError>(e),
            },
        decreases n - i,
    {
        let mut sub = captures.duplicate();
        let mut m: usize = 0;
        while m < packed.len()
            invariant
                0 <= m <= packed@.len(),
                i < n,
                caps == captures@,
                pk == names_of(packed@),
                forall|k: int| 0 <= k < pk.len() ==> is_many(caps, #[trigger] pk[k]),
                forall|k: int| 0 <= k < pk.len() ==> many_len(caps[#[trigger] pk[k]]) == n,
                sub@ == caps_at(caps, pk.take(m as int), i as int),
            decreases packed@.len() - m,
        {
            assert(pk[m as int] == packed@[m as int]@);
            let items = repetitions(captures, &packed[m]);
            assert(captures_view(items@).len() == items@.len());
            let item = items[i].duplicate();
            proof {
                assert(captures_view(items@)[i as int] == item@);
            }
            sub.insert(packed[m].duplicate(), item);
            proof {
                assert(pk.take(m + 1) =~= pk.take(m as int).push(pk[m as int]));
                assert(sub@ =~= caps_at(caps, pk.take(m + 1), i as int));
            }
            m = m + 1;
        }
        assert(pk.take(pk.len() as int) =~= pk);
        let xs = match render_template_repetition(template, level - 1, &sub) {
            Ok(xs) => xs,
            Err(e) => {
                return Err(e);
            },
        };
        let ghost before = forms_view(acc@);
        let ghost xsv = forms_view(xs@);
        let mut xs = xs;
        acc.append(&mut xs);
        proof {
            assert(forms_view(acc@) =~= before + xsv);
            match render_rep_from(template@, (level - 1) as nat, caps, pk, (i + 1) as nat, nn) {
                Ok(ys) => {
                    assert(before + (xsv + ys) =~= before + xsv + ys);
                },
                Err(_) => {},
            }
        }
        i = i + 1;
    }
    proof {
        assert(forms_view(acc@) + Seq::<Form>::empty() =~= forms_view(acc@));
    }
    Ok(acc)
}

/// Every name that `packed_of` keeps captured under an ellipsis.
proof fn lemma_packed_many(occ: Seq<Seq<char>>, caps: Captures)
    ensures
        forall|k: int| 0 <= k < packed_of(occ, caps).len() ==> is_many(caps, #[trigger] packed_of(occ, caps)[k]),
    decreases occ.len(),
{
    if occ.len() > 0 {
        lemma_packed_many(occ.drop_last(), caps);
        let rest = packed_of(occ.drop_last(), caps);
        let p = packed_of(occ, caps);
        assert forall|k: int| 0 <= k < p.len() implies is_many(caps, #[trigger] p[k]) by {
            if k < rest.len() {
                assert(p[k] == rest[k]);
            }
        }
    }
}

proof fn lemma_first_mismatch(pk: Seq<Seq<char>>, caps: Captures, n: nat, j: int)
    requires
        1 <= j < pk.len(),
        many_len(caps[pk[j]]) != n,
        forall|k: int| 1 <= k < j ==> many_len(caps[#[trigger] pk[k]]) == n,
    ensures
        first_mismatch(pk, caps, n) == Some(j),
{
    let p = |c: int| 1 <= c < pk.len() && many_len(caps[pk[c]]) != n && forall|k: int| 1 <= k < c ==> many_len(caps[pk[k]]) == n;
    assert(p(j));
    let c = choose|c: int| 1 <= c < pk.len() && many_len(caps[pk[c]]) != n && forall|k: int| 1 <= k < c ==> many_len(caps[pk[k]]) == n;
    assert(p(c));
    if c < j {
        assert(many_len(caps[pk[c]]) == n);
    } else if c > j {
        assert(many_len(caps[pk[j]]) == n);
    }
}

proof fn lemma_no_mismatch(pk: Seq<Seq<char>>, caps: Captures, n: nat)
    requires
        forall|k: int| 1 <= k < pk.len() ==> many_len(caps[#[trigger] pk[k]]) == n,
    ensures
        first_mismatch(pk, caps, n) is None,
{
}

/// What a syntax rule holds: its pattern (the keyword left out), its template,
/// and the names of the literals.
pub type RuleView = (Form, Form, Set<Seq<char>>);

/// A rule of a `syntax-rules` transformer: a checked pattern and its template.
#[derive(Debug)]
pub struct SyntaxRule {
    pattern: SExpr<Id>,
    template: SExpr<Id>,
    literals: Vec<Symbol>,
}

impl View for SyntaxRule {
    type V = RuleView;

    closed spec fn view(&self) -> RuleView {
        (self.pattern@, self.template@, name_set(self.literals@))
    }
}

/// A copy of a sequence of symbols.
fn copy_symbols(v: &Vec<Symbol>) -> (r: Vec<Symbol>)
    ensures
        names_of(r@) == names_of(v@),
{
    let mut out: Vec<Symbol> = Vec::new();
    let mut i: usize = 0;
    while i < v.len()
        invariant
            i <= v.len(),
            names_of(out@) =~= names_of(v@.take(i as int)),
        decreases v.len() - i,
    {
        let ghost before = out@;
        out.push(v[i].duplicate());
        assert(v@.take(i + 1) =~= v@.take(i as int).push(v@[i as int]));
        assert(names_of(out@) =~= names_of(before).push(v@[i as int]@));
        assert(names_of(v@.take(i + 1)) =~= names_of(v@.take(i as int)).push(v@[i as int]@));
        i = i + 1;
    }
    assert(v@.take(v.len() as int) =~= v@);
    out
}

impl SyntaxRule {
    #[verifier::type_invariant]
    spec fn inv(&self) -> bool {
        &&& spans_ok(self.pattern@)
        &&& spans_ok(self.template@)
        &&& validate(self.pattern@, name_set(self.literals@), Set::empty()) is Ok
    }

    /// A rule from its pattern (the keyword left out) and template, once the
    /// pattern passes `validate` with no pattern variable seen yet; else the
    /// first error that `validate` finds.
    pub fn new(pattern: SExpr<Id>, template: SExpr<Id>, literals: Vec<Symbol>) -> (r: Result<SyntaxRule, CompilationError>)
        requires
            spans_ok(pattern@),
            spans_ok(template@),
        ensures
            match r {
                Ok(rule) => validate(pattern@, name_set(literals@), Set::empty()) is Ok && rule@ == (
                    pattern@,
                    template@,
                    name_set(literals@),
                ),
                Err(e) => validate(pattern@, name_set(literals@), Set::empty()) == Err::<Set<Seq<char>>, TransformError>(
                    e@,
                ),
            },
    {
        let mut seen: Vec<Symbol> = Vec::new();
        assert(name_set(seen@) =~= Set::<Seq<char>>::empty());
        match validate_pattern(&pattern, &literals, &mut seen) {
            Ok(()) => Ok(SyntaxRule { pattern, template, literals }),
            Err(e) => Err(e),
        }
    }

    /// The captures of the pattern matched against `target` (see `match_sub`),
    /// or `None` when it does not match.
    pub fn match_pattern(&self, target: &SExpr<Id>, bindings: &Bindings) -> (r: Option<CaptureMap>)
        requires
            spans_ok(target@),
        ensures
            match r {
                Some(c) => match_sub(self@.0, target@, self@.2, *bindings, Map::empty()) == Some(c@),
                None => match_sub(self@.0, target@, self@.2, *bindings, Map::empty()) is None,
            },
    {
        proof {
            use_type_invariant(self);
        }
        let mut captures = CaptureMap::new();
        if match_subpattern(&self.pattern, target, &self.literals, bindings, &mut captures) {
            Some(captures)
        } else {
            None
        }
    }

    /// The template rendered with `captures`; see `render`.
    pub fn render_template(&self, captures: &CaptureMap) -> (r: Result<SExpr<Id>, CompilationError>)
        ensures
            match r {
                Ok(x) => render(self@.1, captures@) == Ok::<Form, TransformError>(x@),
                Err(e) => render(self@.1, captures@) == Err::<Form, TransformError>(e@),
            },
    {
        proof {
            use_type_invariant(self);
        }
        render_template(&self.template, captures)
    }
}

/// What is wrong with a literal of `syntax-rules`, if anything: it must be an
/// identifier other than `...` and `_`.
pub open spec fn literal_error(l: Form) -> Option<TransformError> {
    match l {
        SExprView::Var(id, span) => if id.0 == "..."@ || id.0 == "_"@ {
            Some((span, "'"@ + form_text(l) + "' is not allowed in 'syntax-rules' literals"@))
        } else {
            None
        },
        _ => Some((l.span(), "Expected an identifier in 'syntax-rules' literals, but got: "@ + form_text(l))),
    }
}

/// The error of the first literal that has one.
pub open spec fn first_literal_error(ls: Seq<Form>) -> Option<TransformError>
    decreases ls.len(),
{
    if ls.len() == 0 {
        None
    } else {
        match literal_error(ls[0]) {
            Some(e) => Some(e),
            None => first_literal_error(ls.skip(1)),
        }
    }
}

/// The names of a sequence of identifiers.
pub open spec fn literal_names(ls: Seq<Form>) -> Set<Seq<char>>
    decreases ls.len(),
{
    if ls.len() == 0 {
        Set::empty()
    } else {
        literal_names(ls.skip(1)).insert(ls[0]->Var_0.0)
    }
}

/// One rule of `syntax-rules`: a list of a pattern and a template, the pattern
/// a list that starts with an identifier (the keyword, ignored) and whose rest
/// passes `validate`.
pub open spec fn rule_of(rp: Form, lits: Set<Seq<char>>) -> Result<RuleView, TransformError> {
    let bad = Err((rp.span(), "Invalid 'syntax-rules' rule: expected (pattern template)"@));
    match rp {
        SExprView::Cons(p, rest, _) => match *rest {
            SExprView::Cons(t, end, _) => if *end is Nil {
                match *p {
                    SExprView::Cons(k, pat, _) => if *k is Var {
                        match validate(*pat, lits, Set::empty()) {
                            Ok(_) => Ok((*pat, *t, lits)),
                            Err(e) => Err(e),
                        }
                    } else {
                        Err(((*k).span(), "'syntax-rules' pattern must start with an identifier, but got: "@ + form_text(*k)))
                    },
                    _ => Err(((*p).span(), "'syntax-rules' pattern must be a list"@)),
                }
            } else {
                bad
            },
            _ => bad,
        },
        _ => bad,
    }
}

/// The rules in order, or the error of the first one that has one.
pub open spec fn rules_of(rps: Seq<Form>, lits: Set<Seq<char>>) -> Result<Seq<RuleView>, TransformError>
    decreases rps.len(),
{
    if rps.len() == 0 {
        Ok(Seq::empty())
    } else {
        match rule_of(rps[0], lits) {
            Err(e) => Err(e),
            Ok(r) => match rules_of(rps.skip(1), lits) {
                Err(e) => Err(e),
                Ok(rs) => Ok(seq![r] + rs),
            },
        }
    }
}

/// The rules of a `(syntax-rules (literal ...) rule ...)` form, or the first
/// error: the form must be a list whose second element is a list; there must
/// be a rule; literals and rules must be proper lists; each literal must pass
/// `literal_error`, and each rule `rule_of`.
pub open spec fn syntax_rules(spec: Form) -> Result<Seq<RuleView>, TransformError> {
    let invalid = Err((spec.span(), "Invalid 'syntax-rules' form"@));
    match spec {
        SExprView::Cons(_, rest, _) => match *rest {
            SExprView::Cons(ll, rules, _) => if *ll is Cons || *ll is Nil {
                if !(*rules is Cons) {
                    Err(((*rules).span(), "Expected 'syntax-rules' to have at least one rule"@))
                } else if !(end_of(*ll) is Nil) {
                    Err(((*ll).span(), "Expected 'syntax-rules' literals to be a proper list"@))
                } else if !(end_of(*rules) is Nil) {
                    Err(((*rules).span(), "Expected 'syntax-rules' rules to be a proper list"@))
                } else {
                    match first_literal_error(items_of(*ll)) {
                        Some(e) => Err(e),
                        None => rules_of(items_of(*rules), literal_names(items_of(*ll))),
                    }
                }
            } else {
                invalid
            },
            _ => invalid,
        },
        _ => invalid,
    }
}

/// The first rule whose pattern matches `t`, with its captures.
pub open spec fn first_match(rules: Seq<RuleView>, t: Form, b: Bindings) -> Option<(RuleView, Captures)>
    decreases rules.len(),
{
    if rules.len() == 0 {
        None
    } else {
        match match_sub(rules[0].0, t, rules[0].2, b, Map::empty()) {
            Some(c) => Some((rules[0], c)),
            None => first_match(rules.skip(1), t, b),
        }
    }
}

/// A macro use transformed: `None` when it is not a list or no rule matches
/// what follows its keyword; else the template of the first rule that matches,
/// rendered with its captures.
pub open spec fn transformed(rules: Seq<RuleView>, app: Form, b: Bindings) -> Option<Result<Form, TransformError>> {
    match app {
        SExprView::Cons(_, d, _) => match first_match(rules, *d, b) {
            Some((r, c)) => Some(render(r.1, c)),
            None => None,
        },
        _ => None,
    }
}

/// The views of a sequence of rules.
pub open spec fn rules_view(v: Seq<SyntaxRule>) -> Seq<RuleView> {
    v.map_values(|r: SyntaxRule| r@)
}

/// Checks the literals of `syntax-rules`: their names, or the first error.
fn check_literals(list: &SExpr<Id>) -> (r: Result<Vec<Symbol>, CompilationError>)
    ensures
        match r {
            Ok(v) => first_literal_error(items_of(list@)) is None && name_set(v@) == literal_names(items_of(list@)),
            Err(e) => first_literal_error(items_of(list@)) == Some(e@),
        },
    decreases list,
{
    match list {
        SExpr::Cons(c, _) => {
            let ghost ls = items_of(list@);
            assert(ls.skip(1) =~= items_of(c.cdr@));
            let lit: &SExpr<Id> = &c.car;
            match lit {
                SExpr::Var(id, span) => {
                    if id.symbol.same(&Symbol::new("...")) || id.symbol.same(&Symbol::new("_")) {
                        let mut reason = String::from_str("'");
                        let text = lit.display();
                        reason.append(text.as_str());
                        reason.append("' is not allowed in 'syntax-rules' literals");
                        return Err(error(*span, reason));
                    }
                },
                _ => {
                    let mut reason = String::from_str("Expected an identifier in 'syntax-rules' literals, but got: ");
                    let text = lit.display();
                    reason.append(text.as_str());
                    proof {
                        lemma_view_span(*lit);
                    }
                    return Err(error(lit.get_span(), reason));
                },
            }
            let mut names = match check_literals(&c.cdr) {
                Ok(v) => v,
                Err(e) => {
                    return Err(e);
                },
            };
            let ghost before = names@;
            let name = match lit {
                SExpr::Var(id, _) => id.symbol.duplicate(),
                _ => vstd::pervasive::unreached(),
            };
            names.push(name);
            assert(names_of(names@) =~= names_of(before).push(name@));
            assert(name_set(names@) =~= name_set(before).insert(name@));
            Ok(names)
        },
        _ => {
            assert(items_of(list@) =~= Seq::<Form>::empty());
            Ok(Vec::new())
        },
    }
}

/// Builds the rules of `syntax-rules`: each one, or the first error.
fn build_rules(list: &SExpr<Id>, literals: &Vec<Symbol>) -> (r: Result<Vec<SyntaxRule>, CompilationError>)
    requires
        spans_ok(list@),
    ensures
        match r {
            Ok(v) => rules_of(items_of(list@), name_set(literals@)) == Ok::<Seq<RuleView>, TransformError>(rules_view(v@)),
            Err(e) => rules_of(items_of(list@), name_set(literals@)) == Err::<Seq<RuleView>, TransformError>(e@),
        },
    decreases list,
{
    match list {
        SExpr::Cons(c, _) => {
            let ghost ls = items_of(list@);
            assert(ls.skip(1) =~= items_of(c.cdr@));
            let rule_pair: &SExpr<Id> = &c.car;
            proof {
                lemma_view_span(*rule_pair);
                reveal_with_fuel(sexpr_view, 3);
                reveal_with_fuel(spans_ok, 4);
            }
            let (pattern, template) = match rule_pair {
                SExpr::Cons(rc, _) => match &*rc.cdr {
                    SExpr::Cons(tc, _) => match &*tc.cdr {
                        SExpr::Nil(_) => (&*rc.car, &*tc.car),
                        _ => {
                            return Err(error(rule_pair.get_span(), String::from_str("Invalid 'syntax-rules' rule: expected (pattern template)")));
                        },
                    },
                    _ => {
                        return Err(error(rule_pair.get_span(), String::from_str("Invalid 'syntax-rules' rule: expected (pattern template)")));
                    },
                },
                _ => {
                    return Err(error(rule_pair.get_span(), String::from_str("Invalid 'syntax-rules' rule: expected (pattern template)")));
                },
            };
            proof {
                lemma_view_span(*pattern);
            }
            let pc = match pattern {
                SExpr::Cons(pc, _) => pc,
                _ => {
                    return Err(error(pattern.get_span(), String::from_str("'syntax-rules' pattern must be a list")));
                },
            };
            match &*pc.car {
                SExpr::Var(..) => {},
                _ => {
                    let mut reason = String::from_str("'syntax-rules' pattern must start with an identifier, but got: ");
                    let text = pc.car.display();
                    reason.append(text.as_str());
                    proof {
                        lemma_view_span(*pc.car);
                    }
                    return Err(error(pc.car.get_span(), reason));
                },
            }
            let rule = match SyntaxRule::new(pc.cdr.duplicate(), template.duplicate(), copy_symbols(literals)) {
                Ok(rule) => rule,
                Err(e) => {
                    return Err(e);
                },
            };
            let mut rest = match build_rules(&c.cdr, literals) {
                Ok(v) => v,
                Err(e) => {
                    return Err(e);
                },
            };
            let ghost tail = rest@;
            rest.insert(0, rule);
            assert(rules_view(rest@) =~= seq![rule@] + rules_view(tail));
            Ok(rest)
        },
        _ => {
            assert(items_of(list@) =~= Seq::<Form>::empty());
            assert(rules_view(Seq::<SyntaxRule>::empty()) =~= Seq::<RuleView>::empty());
            Ok(Vec::new())
        },
    }
}

/// A `syntax-rules` macro: its rules, tried in order.
#[derive(Debug)]
pub struct Transformer {
    syntax_rules: Vec<SyntaxRule>,
}

impl View for Transformer {
    type V = Seq<RuleView>;

    closed spec fn view(&self) -> Seq<RuleView> {
        rules_view(self.syntax_rules@)
    }
}

impl Transformer {
    /// The transformer that a `(syntax-rules (literal ...) rule ...)` form
    /// describes; see `syntax_rules`.
    pub fn new(spec: &SExpr<Id>) -> (r: Result<Transformer, CompilationError>)
        requires
            spans_ok(spec@),
        ensures
            match r {
                Ok(t) => syntax_rules(spec@) == Ok::<Seq<RuleView>, TransformError>(t@),
                Err(e) => syntax_rules(spec@) == Err::<Seq<RuleView>, TransformError>(e@),
            },
    {
        proof {
            lemma_view_span(*spec);
            reveal_with_fuel(sexpr_view, 3);
            reveal_with_fuel(spans_ok, 3);
        }
        let (literals_list, rules) = match spec {
            SExpr::Cons(c, _) => match &*c.cdr {
                SExpr::Cons(c2, _) => match &*c2.car {
                    SExpr::Cons(..) | SExpr::Nil(_) => (&*c2.car, &*c2.cdr),
                    _ => {
                        return Err(error(spec.get_span(), String::from_str("Invalid 'syntax-rules' form")));
                    },
                },
                _ => {
                    return Err(error(spec.get_span(), String::from_str("Invalid 'syntax-rules' form")));
                },
            },
            _ => {
                return Err(error(spec.get_span(), String::from_str("Invalid 'syntax-rules' form")));
            },
        };
        proof {
            lemma_view_span(*literals_list);
            lemma_view_span(*rules);
            lemma_tail_view(*literals_list);
            lemma_tail_view(*rules);
        }
        if !matches!(rules, SExpr::Cons(..)) {
            return Err(error(rules.get_span(), String::from_str("Expected 'syntax-rules' to have at least one rule")));
        }
        if !is_proper_list(literals_list) {
            return Err(error(literals_list.get_span(), String::from_str("Expected 'syntax-rules' literals to be a proper list")));
        }
        if !is_proper_list(rules) {
            return Err(error(rules.get_span(), String::from_str("Expected 'syntax-rules' rules to be a proper list")));
        }
        let literals = match check_literals(literals_list) {
            Ok(v) => v,
            Err(e) => {
                return Err(e);
            },
        };
        match build_rules(rules, &literals) {
            Ok(syntax_rules) => Ok(Transformer { syntax_rules }),
            Err(e) => Err(e),
        }
    }

    /// Transforms a macro use: `None` when it is not a list or no rule
    /// matches what follows its keyword; else the template of the first rule
    /// that matches, rendered; see `transformed`.
    pub fn transform(&self, application: &SExpr<Id>, bindings: &Bindings) -> (r: Option<Result<SExpr<Id>, CompilationError>>)
        requires
            spans_ok(application@),
        ensures
            match r {
                None => transformed(self@, application@, *bindings) is None,
                Some(Ok(x)) => transformed(self@, application@, *bindings) == Some(Ok::<Form, TransformError>(x@)),
                Some(Err(e)) => transformed(self@, application@, *bindings) == Some(Err::<Form, TransformError>(e@)),
            },
    {
        let target = match application {
            SExpr::Cons(c, _) => &*c.cdr,
            _ => {
                return None;
            },
        };
        let ghost rs = self@;
        let mut i: usize = 0;
        while i < self.syntax_rules.len()
            invariant
                i <= self.syntax_rules.len(),
                rs == rules_view(self.syntax_rules@),
                spans_ok(target@),
                application@ matches SExprView::Cons(_, d, _) && *d == target@,
                first_match(rs, target@, *bindings) == first_match(rs.skip(i as int), target@, *bindings),
            decreases self.syntax_rules.len() - i,
        {
            let rule = &self.syntax_rules[i];
            assert(rs.skip(i as int)[0] == rule@);
            assert(rs.skip(i as int).skip(1) =~= rs.skip(i + 1));
            match rule.match_pattern(target, bindings) {
                Some(captures) => {
                    return Some(rule.render_template(&captures));
                },
                None => {},
            }
            i = i + 1;
        }
        assert(rs.skip(i as int) =~= Seq::<RuleView>::empty());
        None
    }
}

/// A pattern variable (an identifier that is neither a literal nor `_`)
/// matches any form and captures it whole.
pub proof fn law_variable_captures_form(
    id: IdView,
    span: Span,
    t: Form,
    lits: Set<Seq<char>>,
    b: Bindings,
    caps: Captures,
)
    requires
        !lits.contains(id.0),
        id.0 != "_"@,
    ensures
        match_sub(SExprView::Var(id, span), t, lits, b, caps) == Some(caps.insert(id.0, CaptureView::One(t))),
{
}

/// `_`, when it is not a literal, matches any form and captures nothing.
pub proof fn law_wildcard_matches_anything(id: IdView, span: Span, t: Form, lits: Set<Seq<char>>, b: Bindings, caps: Captures)
    requires
        id.0 == "_"@,
        !lits.contains(id.0),
    ensures
        match_sub(SExprView::Var(id, span), t, lits, b, caps) == Some(caps),
{
}

/// A macro use that is not a list is never transformed.
pub proof fn law_only_lists_are_transformed(rules: Seq<RuleView>, app: Form, b: Bindings)
    requires
        !(app is Cons),
    ensures
        transformed(rules, app, b) is None,
{
}

/// The first rule that matches decides: rules after it change nothing.
pub proof fn law_first_match_wins(rules: Seq<RuleView>, more: Seq<RuleView>, t: Form, b: Bindings)
    requires
        first_match(rules, t, b) is Some,
    ensures
        first_match(rules + more, t, b) == first_match(rules, t, b),
    decreases rules.len(),
{
    assert((rules + more)[0] == rules[0]);
    if match_sub(rules[0].0, t, rules[0].2, b, Map::empty()) is None {
        assert((rules + more).skip(1) =~= rules.skip(1) + more);
        law_first_match_wins(rules.skip(1), more, t, b);
    }
}

/// When no rule matches, more rules decide alone.
pub proof fn law_unmatched_rules_are_skipped(rules: Seq<RuleView>, more: Seq<RuleView>, t: Form, b: Bindings)
    requires
        first_match(rules, t, b) is None,
    ensures
        first_match(rules + more, t, b) == first_match(more, t, b),
    decreases rules.len(),
{
    if rules.len() == 0 {
        assert(rules + more =~= more);
    } else {
        assert((rules + more)[0] == rules[0]);
        assert((rules + more).skip(1) =~= rules.skip(1) + more);
        law_unmatched_rules_are_skipped(rules.skip(1), more, t, b);
    }
}

} // verus!
