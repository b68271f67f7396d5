use vstd::prelude::*;

use super::bindings::{Id, ScopeId, Scopes};
use super::ident::Duplicate;
use super::span::Span;
use super::util::{spec_elements, spec_tail};
use super::ident::Symbol;
use super::read::token::{escaped, push_chars, push_str_escaped};
use super::text::push_char;
use vstd::string::StringExecFns;

verus! {

/// A boolean literal.
#[derive(Debug, PartialEq, Eq, Hash, Clone, Copy)]
pub struct Bool(pub bool);

/// A numeric literal, kept as the decimal text it was written with
/// (for instance `-42.00` or `9.0001`).
#[derive(Debug, PartialEq, Eq, Hash)]
pub struct Num(pub String);

/// A character literal.
#[derive(Debug, PartialEq, Eq, Hash, Clone, Copy)]
pub struct Char(pub char);

/// A string literal, with its escapes already resolved.
#[derive(Debug, PartialEq, Eq, Hash)]
pub struct Str(pub String);

impl Clone for Num {
    fn clone(&self) -> (r: Self)
        ensures
            r == *self,
    {
        Num(self.0.clone())
    }
}

impl Clone for Str {
    fn clone(&self) -> (r: Self)
        ensures
            r == *self,
    {
        Str(self.0.clone())
    }
}

/// A pair cell.
#[derive(Debug, PartialEq, Hash)]
pub struct Cons<T> {
    pub car: Box<SExpr<T>>,
    pub cdr: Box<SExpr<T>>,
}

/// A vector literal `#( ... )`.
#[derive(Debug, PartialEq, Hash)]
pub struct Vector<T>(pub Vec<SExpr<T>>);

/// An s-expression whose variables are of type `T`, each node carrying its span.
#[derive(Debug, PartialEq, Hash)]
pub enum SExpr<T> {
    Var(T, Span),
    Cons(Cons<T>, Span),
    Nil(Span),
    Bool(Bool, Span),
    Num(Num, Span),
    Char(Char, Span),
    Str(Str, Span),
    Vector(Vector<T>, Span),
    Void(Span),
}

/// The mathematical value of an s-expression: strings are seen as character sequences
/// and variables through their own view.
pub enum SExprView<V> {
    Var(V, Span),
    Cons(Box<SExprView<V>>, Box<SExprView<V>>, Span),
    Nil(Span),
    Bool(bool, Span),
    Num(Seq<char>, Span),
    Char(char, Span),
    Str(Seq<char>, Span),
    Vector(Seq<SExprView<V>>, Span),
    Void(Span),
}

pub open spec fn sexpr_view<T: View>(e: SExpr<T>) -> SExprView<T::V>
    decreases e,
{
    match e {
        SExpr::Var(t, s) => SExprView::Var(t@, s),
        SExpr::Cons(c, s) => SExprView::Cons(
            Box::new(sexpr_view(*c.car)),
            Box::new(sexpr_view(*c.cdr)),
            s,
        ),
        SExpr::Nil(s) => SExprView::Nil(s),
        SExpr::Bool(b, s) => SExprView::Bool(b.0, s),
        SExpr::Num(n, s) => SExprView::Num(n.0@, s),
        SExpr::Char(c, s) => SExprView::Char(c.0, s),
        SExpr::Str(t, s) => SExprView::Str(t.0@, s),
        SExpr::Vector(v, s) => SExprView::Vector(
            Seq::new(
                v.0.len() as nat,
                |i: int| if 0 <= i < v.0.len() { sexpr_view(v.0[i]) } else { SExprView::Void(Span { lo: 0, hi: 0 }) },
            ),
            s,
        ),
        SExpr::Void(s) => SExprView::Void(s),
    }
}

impl<T: View> View for SExpr<T> {
    type V = SExprView<T::V>;

    open spec fn view(&self) -> SExprView<T::V> {
        sexpr_view(*self)
    }
}

impl<V> SExprView<V> {
    /// The span of the root node.
    pub open spec fn span(self) -> Span {
        match self {
            SExprView::Var(_, s) => s,
            SExprView::Cons(_, _, s) => s,
            SExprView::Nil(s) => s,
            SExprView::Bool(_, s) => s,
            SExprView::Num(_, s) => s,
            SExprView::Char(_, s) => s,
            SExprView::Str(_, s) => s,
            SExprView::Vector(_, s) => s,
            SExprView::Void(s) => s,
        }
    }

    /// The same node with the span of its root replaced.
    pub open spec fn with_span(self, span: Span) -> Self {
        match self {
            SExprView::Var(v, _) => SExprView::Var(v, span),
            SExprView::Cons(a, d, _) => SExprView::Cons(a, d, span),
            SExprView::Nil(_) => SExprView::Nil(span),
            SExprView::Bool(b, _) => SExprView::Bool(b, span),
            SExprView::Num(n, _) => SExprView::Num(n, span),
            SExprView::Char(c, _) => SExprView::Char(c, span),
            SExprView::Str(t, _) => SExprView::Str(t, span),
            SExprView::Vector(v, _) => SExprView::Vector(v, span),
            SExprView::Void(_) => SExprView::Void(span),
        }
    }

    /// A pair whose span joins the spans of its two parts.
    pub open spec fn pair(car: Self, cdr: Self) -> Self {
        SExprView::Cons(Box::new(car), Box::new(cdr), car.span().spec_combine(cdr.span()))
    }

    /// Whether the root is neither a pair, a vector nor a string.
    pub open spec fn atomic(self) -> bool {
        !(self is Cons || self is Vector || self is Str)
    }
}

impl<T> SExpr<T> {
    /// The span of the root node.
    pub fn get_span(&self) -> (r: Span)
        ensures
            r == match *self {
                SExpr::Var(_, s) => s,
                SExpr::Cons(_, s) => s,
                SExpr::Nil(s) => s,
                SExpr::Bool(_, s) => s,
                SExpr::Num(_, s) => s,
                SExpr::Char(_, s) => s,
                SExpr::Str(_, s) => s,
                SExpr::Vector(_, s) => s,
                SExpr::Void(s) => s,
            },
    {
        match self {
            SExpr::Var(_, span) => *span,
            SExpr::Cons(_, span) => *span,
            SExpr::Nil(span) => *span,
            SExpr::Bool(_, span) => *span,
            SExpr::Num(_, span) => *span,
            SExpr::Char(_, span) => *span,
            SExpr::Str(_, span) => *span,
            SExpr::Vector(_, span) => *span,
            SExpr::Void(span) => *span,
        }
    }

    /// Replaces the span of the root node.
    pub fn update_span(&mut self, span: Span)
        ensures
            *final(self) == match *old(self) {
                SExpr::Var(v, _) => SExpr::Var(v, span),
                SExpr::Cons(c, _) => SExpr::Cons(c, span),
                SExpr::Nil(_) => SExpr::Nil(span),
                SExpr::Bool(b, _) => SExpr::Bool(b, span),
                SExpr::Num(n, _) => SExpr::Num(n, span),
                SExpr::Char(c, _) => SExpr::Char(c, span),
                SExpr::Str(t, _) => SExpr::Str(t, span),
                SExpr::Vector(v, _) => SExpr::Vector(v, span),
                SExpr::Void(_) => SExpr::Void(span),
            },
    {
        match self {
            SExpr::Var(_, s) => *s = span,
            SExpr::Cons(_, s) => *s = span,
            SExpr::Nil(s) => *s = span,
            SExpr::Bool(_, s) => *s = span,
            SExpr::Num(_, s) => *s = span,
            SExpr::Char(_, s) => *s = span,
            SExpr::Str(_, s) => *s = span,
            SExpr::Vector(_, s) => *s = span,
            SExpr::Void(s) => *s = span,
        }
    }

    /// A pair of `car` and `cdr` spanning both.
    pub fn cons(car: SExpr<T>, cdr: SExpr<T>) -> (r: Self)
        ensures
            r == SExpr::Cons(
                Cons { car: Box::new(car), cdr: Box::new(cdr) },
                car.spec_span().spec_combine(cdr.spec_span()),
            ),
    {
        let start = car.get_span();
        let end = cdr.get_span();
        SExpr::Cons(Cons::new(car, cdr), start.combine(end))
    }

    /// The span of the root node.
    pub open spec fn spec_span(self) -> Span {
        match self {
            SExpr::Var(_, s) => s,
            SExpr::Cons(_, s) => s,
            SExpr::Nil(s) => s,
            SExpr::Bool(_, s) => s,
            SExpr::Num(_, s) => s,
            SExpr::Char(_, s) => s,
            SExpr::Str(_, s) => s,
            SExpr::Vector(_, s) => s,
            SExpr::Void(s) => s,
        }
    }

    /// Whether the root is neither a pair, a vector nor a string.
    pub fn is_atomic(&self) -> (r: bool)
        ensures
            r == !(self is Cons || self is Vector || self is Str),
    {
        match self {
            SExpr::Cons(..) | SExpr::Vector(..) | SExpr::Str(..) => false,
            _ => true,
        }
    }
}

impl<T> Cons<T> {
    /// A pair cell of `car` and `cdr`.
    pub fn new(car: SExpr<T>, cdr: SExpr<T>) -> (r: Self)
        ensures
            r == (Cons { car: Box::new(car), cdr: Box::new(cdr) }),
    {
        Cons { car: Box::new(car), cdr: Box::new(cdr) }
    }
}

/// Number of pairs along the chain of `cdr`s starting at `e`.
pub open spec fn spine_len<T>(e: SExpr<T>) -> nat
    decreases e,
{
    match e {
        SExpr::Cons(c, _) => 1 + spine_len(*c.cdr),
        _ => 0,
    }
}

/// Taking apart a pair into its two halves, by value or by reference.
pub trait ListAccess: Sized {
    /// The two halves of a pair, or `None` when the value is not a pair.
    spec fn spec_destruct(self) -> Option<(Self, Self)>;

    /// Number of pairs along the chain of second halves.
    spec fn list_len(self) -> nat;

    /// The second half of a pair has one pair fewer along its chain.
    proof fn lemma_destruct(self)
        ensures
            match self.spec_destruct() {
                Some((_, cdr)) => cdr.list_len() + 1 == self.list_len(),
                None => self.list_len() == 0,
            },
    ;

    /// The two halves of a pair, or `None` when the value is not a pair.
    fn try_destruct(self) -> (r: Option<(Self, Self)>)
        ensures
            r == self.spec_destruct(),
    ;
}

impl<T> ListAccess for SExpr<T> {
    open spec fn spec_destruct(self) -> Option<(Self, Self)> {
        match self {
            SExpr::Cons(c, _) => Some((*c.car, *c.cdr)),
            _ => None,
        }
    }

    open spec fn list_len(self) -> nat {
        spine_len(self)
    }

    proof fn lemma_destruct(self) {
    }

    fn try_destruct(self) -> (r: Option<(Self, Self)>) {
        match self {
            SExpr::Cons(Cons { car, cdr }, _) => Some((*car, *cdr)),
            _ => None,
        }
    }
}

impl<'a, T> ListAccess for &'a SExpr<T> {
    open spec fn spec_destruct(self) -> Option<(Self, Self)> {
        match *self {
            SExpr::Cons(c, _) => Some((&*c.car, &*c.cdr)),
            _ => None,
        }
    }

    open spec fn list_len(self) -> nat {
        spine_len(*self)
    }

    proof fn lemma_destruct(self) {
    }

    fn try_destruct(self) -> (r: Option<(Self, Self)>) {
        match self {
            SExpr::Cons(Cons { car, cdr }, _) => Some((&**car, &**cdr)),
            _ => None,
        }
    }
}

/// The same tree with every span set to `Span { lo: 0, hi: 0 }`.
pub open spec fn erase_spans<V>(e: SExprView<V>) -> SExprView<V>
    decreases e,
{
    let z = Span { lo: 0, hi: 0 };
    match e {
        SExprView::Var(v, _) => SExprView::Var(v, z),
        SExprView::Cons(a, d, _) => SExprView::Cons(
            Box::new(erase_spans(*a)),
            Box::new(erase_spans(*d)),
            z,
        ),
        SExprView::Nil(_) => SExprView::Nil(z),
        SExprView::Bool(b, _) => SExprView::Bool(b, z),
        SExprView::Num(n, _) => SExprView::Num(n, z),
        SExprView::Char(c, _) => SExprView::Char(c, z),
        SExprView::Str(t, _) => SExprView::Str(t, z),
        SExprView::Vector(v, _) => SExprView::Vector(
            Seq::new(v.len(), |i: int| if 0 <= i < v.len() { erase_spans(v[i]) } else { SExprView::Void(z) }),
            z,
        ),
        SExprView::Void(_) => SExprView::Void(z),
    }
}

/// An s-expression with its spans left out, so that trees compare by content alone.
#[derive(Debug, PartialEq)]
pub enum SExprWithoutSpans<T> {
    Var(T),
    Cons(Box<SExprWithoutSpans<T>>, Box<SExprWithoutSpans<T>>),
    Nil,
    Bool(Bool),
    Num(Num),
    Char(Char),
    Str(Str),
    Vector(Vec<SExprWithoutSpans<T>>),
    Void,
}

/// The tree of a span-free s-expression, every span taken as `Span { lo: 0, hi: 0 }`.
pub open spec fn bare_view<T: View>(e: SExprWithoutSpans<T>) -> SExprView<T::V>
    decreases e,
{
    let z = Span { lo: 0, hi: 0 };
    match e {
        SExprWithoutSpans::Var(t) => SExprView::Var(t@, z),
        SExprWithoutSpans::Cons(a, d) => SExprView::Cons(Box::new(bare_view(*a)), Box::new(bare_view(*d)), z),
        SExprWithoutSpans::Nil => SExprView::Nil(z),
        SExprWithoutSpans::Bool(b) => SExprView::Bool(b.0, z),
        SExprWithoutSpans::Num(n) => SExprView::Num(n.0@, z),
        SExprWithoutSpans::Char(c) => SExprView::Char(c.0, z),
        SExprWithoutSpans::Str(t) => SExprView::Str(t.0@, z),
        SExprWithoutSpans::Vector(v) => SExprView::Vector(
            Seq::new(v.len() as nat, |i: int| if 0 <= i < v.len() { bare_view(v[i]) } else { SExprView::Void(z) }),
            z,
        ),
        SExprWithoutSpans::Void => SExprView::Void(z),
    }
}

impl<T: View> View for SExprWithoutSpans<T> {
    type V = SExprView<T::V>;

    open spec fn view(&self) -> SExprView<T::V> {
        bare_view(*self)
    }
}

impl<T: Duplicate> SExpr<T> {
    /// The same tree without its spans: two trees that differ only in where they
    /// were read from give equal results.
    pub fn without_spans(&self) -> (r: SExprWithoutSpans<T>)
        ensures
            r@ == erase_spans(self@),
        decreases self,
    {
        match self {
            SExpr::Var(v, _) => {
                SExprWithoutSpans::Var(v.duplicate())
            },
            SExpr::Cons(c, _) => SExprWithoutSpans::Cons(
                Box::new(c.car.without_spans()),
                Box::new(c.cdr.without_spans()),
            ),
            SExpr::Nil(_) => SExprWithoutSpans::Nil,
            SExpr::Bool(b, _) => SExprWithoutSpans::Bool(*b),
            SExpr::Num(n, _) => SExprWithoutSpans::Num(n.clone()),
            SExpr::Char(c, _) => SExprWithoutSpans::Char(*c),
            SExpr::Str(t, _) => SExprWithoutSpans::Str(t.clone()),
            SExpr::Vector(v, _) => {
                let mut out: Vec<SExprWithoutSpans<T>> = Vec::new();
                let mut i: usize = 0;
                while i < v.0.len()
                    invariant
                        *self matches SExpr::Vector(w, _) && w == *v,
                        i <= v.0.len(),
                        out.len() == i,
                        forall|j: int| 0 <= j < i ==> bare_view(#[trigger] out[j]) == erase_spans(sexpr_view(v.0[j])),
                    decreases v.0.len() - i,
                {
                    let e = v.0[i].without_spans();
                    out.push(e);
                    i = i + 1;
                }
                let r = SExprWithoutSpans::Vector(out);
                assert(r@->Vector_0 =~= erase_spans(self@)->Vector_0);
                r
            },
            SExpr::Void(_) => SExprWithoutSpans::Void,
        }
    }
}

/// The view of an identifier: its name and its scope set.
pub type IdView = (Seq<char>, Set<ScopeId>);

/// The tree `e` with the scope set of every identifier in it passed through `f`
/// (inside pairs and vectors alike); everything else is unchanged.
pub open spec fn map_scopes(e: SExprView<IdView>, f: spec_fn(Set<ScopeId>) -> Set<ScopeId>) -> SExprView<IdView>
    decreases e,
{
    match e {
        SExprView::Var(id, s) => SExprView::Var((id.0, f(id.1)), s),
        SExprView::Cons(a, d, s) => SExprView::Cons(
            Box::new(map_scopes(*a, f)),
            Box::new(map_scopes(*d, f)),
            s,
        ),
        SExprView::Vector(v, s) => SExprView::Vector(
            Seq::new(v.len(), |i: int| if 0 <= i < v.len() { map_scopes(v[i], f) } else { SExprView::Void(s) }),
            s,
        ),
        _ => e,
    }
}

/// Adding `scope` to a scope set.
pub open spec fn add_to(scope: ScopeId) -> spec_fn(Set<ScopeId>) -> Set<ScopeId> {
    |s: Set<ScopeId>| s.insert(scope)
}

/// Adding `scope` to a scope set that lacks it, and removing it from one that has it.
pub open spec fn flip_in(scope: ScopeId) -> spec_fn(Set<ScopeId>) -> Set<ScopeId> {
    |s: Set<ScopeId>| if s.contains(scope) { s.remove(scope) } else { s.insert(scope) }
}

impl SExpr<Id> {
    /// Applies `op` to the scope set of every identifier in the tree.
    fn adjust_scope<F: Fn(&Scopes) -> Scopes>(self, op: &F, Ghost(g): Ghost<spec_fn(Set<ScopeId>) -> Set<ScopeId>>) -> (r: Self)
        requires
            forall|s: &Scopes| op.requires((s,)),
            forall|s: &Scopes, t: Scopes| op.ensures((s,), t) ==> t@ == g(s@),
        ensures
            r@ == map_scopes(self@, g),
        decreases self,
    {
        match self {
            SExpr::Var(id, span) => {
                let Id { symbol, scopes } = id;
                let scopes = op(&scopes);
                SExpr::Var(Id { symbol, scopes }, span)
            },
            SExpr::Cons(cons, span) => {
                let Cons { car, cdr } = cons;
                let car = (*car).adjust_scope(op, Ghost(g));
                let cdr = (*cdr).adjust_scope(op, Ghost(g));
                SExpr::Cons(Cons::new(car, cdr), span)
            },
            SExpr::Vector(vector, span) => {
                let ghost whole = vector;
                let Vector(mut items) = vector;
                let ghost orig = items@;
                let ghost n = orig.len();
                let mut rev: Vec<SExpr<Id>> = Vec::new();
                while items.len() > 0
                    invariant
                        self == SExpr::Vector(whole, span),
                        whole.0@ == orig,
                        n == orig.len(),
                        items@ == orig.take(items@.len() as int),
                        items@.len() + rev@.len() == n,
                        forall|s: &Scopes| op.requires((s,)),
                        forall|s: &Scopes, t: Scopes| op.ensures((s,), t) ==> t@ == g(s@),
                        forall|k: int| 0 <= k < rev@.len() ==> (#[trigger] rev@[k])@ == map_scopes(orig[n - 1 - k]@, g),
                    decreases items@.len(),
                {
                    let ghost k = items@.len() - 1;
                    let e = match items.pop() {
                        Some(e) => e,
                        None => vstd::pervasive::unreached(),
                    };
                    assert(e == orig[k]);
                    assert(items@ =~= orig.take(k));
                    proof {
                        assert(decreases_to!(self => self->Vector_0));
                        assert(decreases_to!(whole => whole.0));
                        assert(decreases_to!(whole.0 => whole.0@));
                        assert(decreases_to!(whole.0@ => whole.0@[k]));
                        assert(decreases_to!(self => e));
                    }
                    let e = e.adjust_scope(op, Ghost(g));
                    rev.push(e);
                }
                let mut out: Vec<SExpr<Id>> = Vec::new();
                while rev.len() > 0
                    invariant
                        rev@.len() + out@.len() == n,
                        forall|k: int| 0 <= k < rev@.len() ==> (#[trigger] rev@[k])@ == map_scopes(orig[n - 1 - k]@, g),
                        forall|k: int| 0 <= k < out@.len() ==> (#[trigger] out@[k])@ == map_scopes(orig[k]@, g),
                    decreases rev@.len(),
                {
                    let e = match rev.pop() {
                        Some(e) => e,
                        None => vstd::pervasive::unreached(),
                    };
                    out.push(e);
                }
                let r = SExpr::Vector(Vector(out), span);
                assert(r@->Vector_0 =~= map_scopes(self@, g)->Vector_0);
                r
            },
            other => other,
        }
    }

    /// Adds `scope` to the scope set of every identifier in the tree.
    pub fn add_scope(self, scope: ScopeId) -> (r: Self)
        ensures
            r@ == map_scopes(self@, add_to(scope)),
    {
        let op = |scopes: &Scopes| -> (r: Scopes)
            ensures
                r@ == scopes@.insert(scope),
            {
                let mut scopes = scopes.duplicate();
                scopes.insert(scope);
                scopes
            };
        self.adjust_scope(&op, Ghost(add_to(scope)))
    }

    /// Toggles `scope` in the scope set of every identifier in the tree: removed
    /// where present, added where absent.
    pub fn flip_scope(self, scope: ScopeId) -> (r: Self)
        ensures
            r@ == map_scopes(self@, flip_in(scope)),
    {
        let op = |scopes: &Scopes| -> (r: Scopes)
            ensures
                r@ == (if scopes@.contains(scope) { scopes@.remove(scope) } else { scopes@.insert(scope) }),
            {
                let mut scopes = scopes.duplicate();
                if scopes.contains(scope) {
                    scopes.remove(scope);
                } else {
                    scopes.insert(scope);
                }
                scopes
            };
        self.adjust_scope(&op, Ghost(flip_in(scope)))
    }
}

/// `f` followed by `g`.
pub open spec fn then(
    f: spec_fn(Set<ScopeId>) -> Set<ScopeId>,
    g: spec_fn(Set<ScopeId>) -> Set<ScopeId>,
) -> spec_fn(Set<ScopeId>) -> Set<ScopeId> {
    |s: Set<ScopeId>| g(f(s))
}

/// Mapping the scope sets twice is mapping them once by the composition.
pub proof fn lemma_map_scopes_then(
    e: SExprView<IdView>,
    f: spec_fn(Set<ScopeId>) -> Set<ScopeId>,
    g: spec_fn(Set<ScopeId>) -> Set<ScopeId>,
)
    ensures
        map_scopes(map_scopes(e, f), g) == map_scopes(e, then(f, g)),
    decreases e,
{
    match e {
        SExprView::Cons(a, d, _) => {
            lemma_map_scopes_then(*a, f, g);
            lemma_map_scopes_then(*d, f, g);
        },
        SExprView::Vector(v, _) => {
            assert forall|i: int| 0 <= i < v.len() implies map_scopes(map_scopes(v[i], f), g) == map_scopes(
                v[i],
                then(f, g),
            ) by {
                lemma_map_scopes_then(v[i], f, g);
            }
            assert(map_scopes(map_scopes(e, f), g)->Vector_0 =~= map_scopes(e, then(f, g))->Vector_0);
        },
        _ => {},
    }
}

/// Mapping every scope set to itself changes nothing.
pub proof fn lemma_map_scopes_unchanged(e: SExprView<IdView>, f: spec_fn(Set<ScopeId>) -> Set<ScopeId>)
    requires
        forall|s: Set<ScopeId>| #[trigger] f(s) == s,
    ensures
        map_scopes(e, f) == e,
    decreases e,
{
    match e {
        SExprView::Var(id, _) => {
            assert(f(id.1) == id.1);
        },
        SExprView::Cons(a, d, _) => {
            lemma_map_scopes_unchanged(*a, f);
            lemma_map_scopes_unchanged(*d, f);
        },
        SExprView::Vector(v, _) => {
            assert forall|i: int| 0 <= i < v.len() implies map_scopes(v[i], f) == v[i] by {
                lemma_map_scopes_unchanged(v[i], f);
            }
            assert(map_scopes(e, f)->Vector_0 =~= v);
        },
        _ => {},
    }
}

/// Flipping the same scope twice gives back the tree it started from.
pub proof fn law_flip_scope_involutive(e: SExprView<IdView>, scope: ScopeId)
    ensures
        map_scopes(map_scopes(e, flip_in(scope)), flip_in(scope)) == e,
{
    lemma_map_scopes_then(e, flip_in(scope), flip_in(scope));
    assert forall|s: Set<ScopeId>| #[trigger] then(flip_in(scope), flip_in(scope))(s) == s by {
        if s.contains(scope) {
            assert(s.remove(scope).insert(scope) =~= s);
        } else {
            assert(s.insert(scope).remove(scope) =~= s);
        }
    }
    lemma_map_scopes_unchanged(e, then(flip_in(scope), flip_in(scope)));
}

/// Adding a scope that was already added changes nothing more.
pub proof fn law_add_scope_idempotent(e: SExprView<IdView>, scope: ScopeId)
    ensures
        map_scopes(map_scopes(e, add_to(scope)), add_to(scope)) == map_scopes(e, add_to(scope)),
{
    lemma_map_scopes_then(e, add_to(scope), add_to(scope));
    assert(then(add_to(scope), add_to(scope)) =~= add_to(scope)) by {
        assert forall|s: Set<ScopeId>| #[trigger] then(add_to(scope), add_to(scope))(s) == add_to(scope)(s) by {
            assert(s.insert(scope).insert(scope) =~= s.insert(scope));
        }
    }
}

/// Adding two scopes gives the same tree in either order.
pub proof fn law_add_scope_commutes(e: SExprView<IdView>, a: ScopeId, b: ScopeId)
    ensures
        map_scopes(map_scopes(e, add_to(a)), add_to(b)) == map_scopes(map_scopes(e, add_to(b)), add_to(a)),
{
    lemma_map_scopes_then(e, add_to(a), add_to(b));
    lemma_map_scopes_then(e, add_to(b), add_to(a));
    assert(then(add_to(a), add_to(b)) =~= then(add_to(b), add_to(a))) by {
        assert forall|s: Set<ScopeId>| #[trigger] then(add_to(a), add_to(b))(s) == then(add_to(b), add_to(a))(s) by {
            assert(s.insert(a).insert(b) =~= s.insert(b).insert(a));
        }
    }
}

/// Whether `r` is `e` with every variable `t` replaced by a value that `f` may
/// return for `t`; spans and all other nodes stay as they are.
pub open spec fn vars_mapped<T, U, F: Fn(T) -> U>(e: SExpr<T>, r: SExpr<U>, f: F) -> bool
    decreases e,
{
    match e {
        SExpr::Var(t, s) => r matches SExpr::Var(u, s2) && s2 == s && f.ensures((t,), u),
        SExpr::Cons(c, s) => r matches SExpr::Cons(c2, s2) && s2 == s && vars_mapped(*c.car, *c2.car, f)
            && vars_mapped(*c.cdr, *c2.cdr, f),
        SExpr::Nil(s) => r == SExpr::<U>::Nil(s),
        SExpr::Bool(b, s) => r == SExpr::<U>::Bool(b, s),
        SExpr::Num(n, s) => r == SExpr::<U>::Num(n, s),
        SExpr::Char(c, s) => r == SExpr::<U>::Char(c, s),
        SExpr::Str(t, s) => r == SExpr::<U>::Str(t, s),
        SExpr::Vector(v, s) => r matches SExpr::Vector(w, s2) && s2 == s && w.0.len() == v.0.len() && forall|i: int|
            0 <= i < v.0.len() ==> vars_mapped(#[trigger] v.0[i], w.0[i], f),
        SExpr::Void(s) => r == SExpr::<U>::Void(s),
    }
}

impl<T> SExpr<T> {
    /// The same tree with every variable replaced by what `f` makes of it.
    pub fn map_var<U, F: Fn(T) -> U>(self, f: &F) -> (r: SExpr<U>)
        requires
            forall|t: T| f.requires((t,)),
        ensures
            vars_mapped(self, r, *f),
        decreases self,
    {
        match self {
            SExpr::Var(var, span) => SExpr::Var(f(var), span),
            SExpr::Cons(cons, span) => {
                let Cons { car, cdr } = cons;
                let car = (*car).map_var(f);
                let cdr = (*cdr).map_var(f);
                SExpr::Cons(Cons::new(car, cdr), span)
            },
            SExpr::Nil(span) => SExpr::Nil(span),
            SExpr::Bool(b, span) => SExpr::Bool(b, span),
            SExpr::Num(n, span) => SExpr::Num(n, span),
            SExpr::Char(c, span) => SExpr::Char(c, span),
            SExpr::Str(t, span) => SExpr::Str(t, span),
            SExpr::Vector(vector, span) => {
                let ghost whole = vector;
                let Vector(mut items) = vector;
                let ghost orig = items@;
                let ghost n = orig.len();
                let mut rev: Vec<SExpr<U>> = Vec::new();
                while items.len() > 0
                    invariant
                        self == SExpr::Vector(whole, span),
                        whole.0@ == orig,
                        n == orig.len(),
                        items@ == orig.take(items@.len() as int),
                        items@.len() + rev@.len() == n,
                        forall|t: T| f.requires((t,)),
                        forall|k: int| 0 <= k < rev@.len() ==> vars_mapped(orig[n - 1 - k], #[trigger] rev@[k], *f),
                    decreases items@.len(),
                {
                    let ghost k = items@.len() - 1;
                    let e = match items.pop() {
                        Some(e) => e,
                        None => vstd::pervasive::unreached(),
                    };
                    assert(e == orig[k]);
                    assert(items@ =~= orig.take(k));
                    proof {
                        assert(decreases_to!(self => self->Vector_0));
                        assert(decreases_to!(whole => whole.0));
                        assert(decreases_to!(whole.0 => whole.0@));
                        assert(decreases_to!(whole.0@ => whole.0@[k]));
                    }
                    let e = e.map_var(f);
                    rev.push(e);
                }
                let mut out: Vec<SExpr<U>> = Vec::new();
                while rev.len() > 0
                    invariant
                        rev@.len() + out@.len() == n,
                        forall|k: int| 0 <= k < rev@.len() ==> vars_mapped(orig[n - 1 - k], #[trigger] rev@[k], *f),
                        forall|k: int| 0 <= k < out@.len() ==> vars_mapped(orig[k], #[trigger] out@[k], *f),
                    decreases rev@.len(),
                {
                    let e = match rev.pop() {
                        Some(e) => e,
                        None => vstd::pervasive::unreached(),
                    };
                    out.push(e);
                }
                SExpr::Vector(Vector(out), span)
            },
            SExpr::Void(span) => SExpr::Void(span),
        }
    }
}

/// The list of `elems` ending in `tail`, each pair spanning its element and the rest.
pub open spec fn cons_list<T>(elems: Seq<SExpr<T>>, tail: SExpr<T>) -> SExpr<T>
    decreases elems.len(),
{
    if elems.len() == 0 {
        tail
    } else {
        let rest = cons_list(elems.skip(1), tail);
        SExpr::Cons(
            Cons { car: Box::new(elems[0]), cdr: Box::new(rest) },
            elems[0].spec_span().spec_combine(rest.spec_span()),
        )
    }
}

/// A list built from elements and a tail that is not a pair has those elements
/// and ends in that tail.
pub proof fn lemma_cons_list_elements<T>(elems: Seq<SExpr<T>>, tail: SExpr<T>)
    requires
        !(tail is Cons),
    ensures
        spec_elements(cons_list(elems, tail)) == elems,
        spec_tail(cons_list(elems, tail)) == tail,
    decreases elems.len(),
{
    if elems.len() > 0 {
        lemma_cons_list_elements(elems.skip(1), tail);
        assert(seq![elems[0]] + elems.skip(1) =~= elems);
    } else {
        assert(spec_elements(tail) =~= Seq::<SExpr<T>>::empty());
    }
}

impl<T> Cons<T> {
    /// The vector of the elements of this pair's list, spanning `span`, when the
    /// list is proper; `None` when it ends in something other than `()`.
    pub fn try_into_vector(self, span: Span) -> (r: Option<SExpr<T>>)
        ensures
            r is Some <==> spec_tail(*self.cdr) is Nil,
            r matches Some(x) ==> x matches SExpr::Vector(v, sp) && sp == span && v.0@ == seq![*self.car]
                + spec_elements(*self.cdr),
    {
        let ghost elems = seq![*self.car] + spec_elements(*self.cdr);
        let ghost end = spec_tail(*self.cdr);
        let Cons { car, cdr } = self;
        let mut vector: Vec<SExpr<T>> = Vec::new();
        vector.push(*car);
        let mut cur = *cdr;
        loop
            invariant
                elems == seq![*self.car] + spec_elements(*self.cdr),
                end == spec_tail(*self.cdr),
                vector@ + spec_elements(cur) == elems,
                spec_tail(cur) == end,
            decreases spine_len(cur),
        {
            match cur {
                SExpr::Cons(Cons { car, cdr }, _) => {
                    proof {
                        assert(spec_elements(cur) == seq![*car] + spec_elements(*cdr));
                        assert(vector@.push(*car) + spec_elements(*cdr) =~= vector@ + spec_elements(cur));
                    }
                    vector.push(*car);
                    cur = *cdr;
                },
                other => {
                    proof {
                        assert(spec_elements(other) =~= Seq::<SExpr<T>>::empty());
                        assert(vector@ =~= elems);
                    }
                    if let SExpr::Nil(_) = other {
                        return Some(SExpr::Vector(Vector(vector), span));
                    } else {
                        return None;
                    }
                },
            }
        }
    }
}

impl<T> Vector<T> {
    /// The proper list of this vector's elements; its closing `()` spans the last
    /// position of `span`.
    pub fn into_cons_list(self, span: Span) -> (r: SExpr<T>)
        requires
            span.hi >= 1,
        ensures
            r == cons_list(self.0@, SExpr::Nil(Span { lo: (span.hi - 1) as usize, hi: span.hi })),
    {
        let ghost orig = self.0@;
        let ghost nil = SExpr::<T>::Nil(Span { lo: (span.hi - 1) as usize, hi: span.hi });
        let Vector(mut items) = self;
        let mut prev: SExpr<T> = SExpr::Nil(Span { lo: span.hi - 1, hi: span.hi });
        assert(orig.skip(orig.len() as int) =~= Seq::<SExpr<T>>::empty());
        while items.len() > 0
            invariant
                items@ == orig.take(items@.len() as int),
                items@.len() <= orig.len(),
                prev == cons_list(orig.skip(items@.len() as int), nil),
            decreases items@.len(),
        {
            let ghost k = items@.len() - 1;
            let e = match items.pop() {
                Some(e) => e,
                None => vstd::pervasive::unreached(),
            };
            assert(e == orig[k]);
            assert(items@ =~= orig.take(k));
            assert(orig.skip(k).skip(1) =~= orig.skip(k + 1));
            prev = SExpr::cons(e, prev);
        }
        assert(orig.skip(0) =~= orig);
        prev
    }
}

/// Turning a vector into a list and that list back into a vector gives the
/// same elements: a non-empty list built by `into_cons_list` is proper, and its
/// elements are the vector's.
pub proof fn law_vector_list_roundtrip<T>(elems: Seq<SExpr<T>>, end: Span)
    requires
        elems.len() > 0,
    ensures
        cons_list(elems, SExpr::Nil(end)) matches SExpr::Cons(c, _) && spec_tail(*c.cdr) is Nil && seq![*c.car]
            + spec_elements(*c.cdr) == elems,
{
    lemma_cons_list_elements(elems, SExpr::Nil(end));
}

/// The tree `e` with every variable `v` replaced by `g(v)`.
pub open spec fn map_vars_view<V, W>(e: SExprView<V>, g: spec_fn(V) -> W) -> SExprView<W>
    decreases e,
{
    match e {
        SExprView::Var(v, s) => SExprView::Var(g(v), s),
        SExprView::Cons(a, d, s) => SExprView::Cons(
            Box::new(map_vars_view(*a, g)),
            Box::new(map_vars_view(*d, g)),
            s,
        ),
        SExprView::Nil(s) => SExprView::Nil(s),
        SExprView::Bool(b, s) => SExprView::Bool(b, s),
        SExprView::Num(n, s) => SExprView::Num(n, s),
        SExprView::Char(c, s) => SExprView::Char(c, s),
        SExprView::Str(t, s) => SExprView::Str(t, s),
        SExprView::Vector(v, s) => SExprView::Vector(
            Seq::new(v.len(), |i: int| if 0 <= i < v.len() { map_vars_view(v[i], g) } else { SExprView::Void(s) }),
            s,
        ),
        SExprView::Void(s) => SExprView::Void(s),
    }
}

/// When every value that `f` may return is `g` of its argument (both taken by
/// their views), a tree whose variables were mapped by `f` has the view of the
/// tree it came from mapped by `g`.
pub proof fn lemma_vars_mapped_view<T: View, U: View, F: Fn(T) -> U>(
    e: SExpr<T>,
    r: SExpr<U>,
    f: F,
    g: spec_fn(T::V) -> U::V,
)
    requires
        vars_mapped(e, r, f),
        forall|t: T, u: U| f.ensures((t,), u) ==> u@ == g(t@),
    ensures
        r@ == map_vars_view(e@, g),
    decreases e,
{
    match e {
        SExpr::Cons(c, _) => {
            let c2 = r->Cons_0;
            lemma_vars_mapped_view(*c.car, *c2.car, f, g);
            lemma_vars_mapped_view(*c.cdr, *c2.cdr, f, g);
        },
        SExpr::Vector(v, _) => {
            let w = r->Vector_0;
            assert forall|i: int| 0 <= i < v.0.len() implies sexpr_view(w.0[i]) == map_vars_view(
                sexpr_view(v.0[i]),
                g,
            ) by {
                lemma_vars_mapped_view(v.0[i], w.0[i], f, g);
            }
            assert(r@->Vector_0 =~= map_vars_view(e@, g)->Vector_0);
        },
        _ => {},
    }
}

/// The view of a tree keeps the span of its root.
pub proof fn lemma_view_span<T: View>(e: SExpr<T>)
    ensures
        e@.span() == e.spec_span(),
{
}

/// How a character literal is written: `#\space`, `#\newline`, or `#\` and the character.
pub open spec fn char_text(c: char) -> Seq<char> {
    if c == ' ' {
        seq!['#', '\\', 's', 'p', 'a', 'c', 'e']
    } else if c == '\n' {
        seq!['#', '\\', 'n', 'e', 'w', 'l', 'i', 'n', 'e']
    } else {
        seq!['#', '\\', c]
    }
}

/// How a datum is written: lists in parentheses with a dotted tail after ` . `,
/// vectors as `#(...)`, booleans as `#t` and `#f`, numbers as they were written
/// in the source, characters by `char_text`, strings quoted with their special
/// characters escaped, and the unspecified value as `#<void>`.
pub open spec fn datum_text(d: SExprView<Seq<char>>) -> Seq<char>
    decreases d, 0int,
{
    match d {
        SExprView::Var(s, _) => s,
        SExprView::Cons(a, t, _) => seq!['('] + datum_text(*a) + tail_text(*t),
        SExprView::Nil(_) => seq!['(', ')'],
        SExprView::Bool(b, _) => if b { seq!['#', 't'] } else { seq!['#', 'f'] },
        SExprView::Num(t, _) => t,
        SExprView::Char(c, _) => char_text(c),
        SExprView::Str(t, _) => seq!['"'] + escaped(t) + seq!['"'],
        SExprView::Vector(v, _) => seq!['#', '('] + items_text(v) + seq![')'],
        SExprView::Void(_) => seq!['#', '<', 'v', 'o', 'i', 'd', '>'],
    }
}

/// How the rest of a list is written after its first element.
pub open spec fn tail_text(d: SExprView<Seq<char>>) -> Seq<char>
    decreases d, 1int,
{
    match d {
        SExprView::Nil(_) => seq![')'],
        SExprView::Cons(a, t, _) => seq![' '] + datum_text(*a) + tail_text(*t),
        _ => seq![' ', '.', ' '] + datum_text(d) + seq![')'],
    }
}

/// The elements of a vector written one after the other, separated by spaces.
pub open spec fn items_text(v: Seq<SExprView<Seq<char>>>) -> Seq<char>
    decreases v, 2int,
{
    if v.len() == 0 {
        Seq::empty()
    } else if v.len() == 1 {
        datum_text(v[0])
    } else {
        datum_text(v[0]) + seq![' '] + items_text(v.skip(1))
    }
}

fn push_datum(out: &mut String, e: &SExpr<Symbol>)
    ensures
        final(out)@ == old(out)@ + datum_text(e@),
    decreases e, 0int,
{
    match e {
        SExpr::Var(s, _) => {
            out.append(s.0.as_str());
        },
        SExpr::Cons(c, _) => {
            push_char(out, '(');
            push_datum(out, &c.car);
            push_tail(out, &c.cdr);
            assert(final(out)@ =~= old(out)@ + datum_text(e@));
        },
        SExpr::Nil(_) => {
            push_chars(out, &['(', ')']);
            assert(['(', ')']@ =~= seq!['(', ')']);
        },
        SExpr::Bool(b, _) => {
            if b.0 {
                push_chars(out, &['#', 't']);
                assert(['#', 't']@ =~= seq!['#', 't']);
            } else {
                push_chars(out, &['#', 'f']);
                assert(['#', 'f']@ =~= seq!['#', 'f']);
            }
        },
        SExpr::Num(n, _) => {
            out.append(n.0.as_str());
        },
        SExpr::Char(c, _) => {
            if c.0 == ' ' {
                let cs = ['#', '\\', 's', 'p', 'a', 'c', 'e'];
                push_chars(out, &cs);
                assert(cs@ =~= char_text(c.0));
            } else if c.0 == '\n' {
                let cs = ['#', '\\', 'n', 'e', 'w', 'l', 'i', 'n', 'e'];
                push_chars(out, &cs);
                assert(cs@ =~= char_text(c.0));
            } else {
                let cs = ['#', '\\', c.0];
                push_chars(out, &cs);
                assert(cs@ =~= char_text(c.0));
            }
        },
        SExpr::Str(t, _) => {
            push_char(out, '"');
            push_str_escaped(out, &t.0);
            push_char(out, '"');
            assert(final(out)@ =~= old(out)@ + datum_text(e@));
        },
        SExpr::Vector(v, _) => {
            let ghost views = e@->Vector_0;
            push_chars(out, &['#', '(']);
            assert(['#', '(']@ =~= seq!['#', '(']);
            let ghost start = out@;
            let n = v.0.len();
            let mut i: usize = 0;
            assert(views.skip(0) =~= views);
            while i < n
                invariant
                    *e matches SExpr::Vector(w, _) && w == *v,
                    n == v.0@.len(),
                    views.len() == n,
                    forall|j: int| 0 <= j < n ==> #[trigger] views[j] == sexpr_view(v.0@[j]),
                    i <= n,
                    out@ + items_text(views.skip(i as int)) == start + items_text(views),
                decreases n - i,
            {
                let ghost before = out@;
                let ghost rest = views.skip(i as int);
                assert(rest[0] == views[i as int]);
                push_datum(out, &v.0[i]);
                if i + 1 < n {
                    push_char(out, ' ');
                    assert(rest.skip(1) =~= views.skip(i + 1));
                    assert(out@ + items_text(views.skip(i + 1)) =~= before + items_text(rest));
                } else {
                    assert(views.skip(i + 1) =~= Seq::<SExprView<Seq<char>>>::empty());
                    assert(out@ + items_text(views.skip(i + 1)) =~= before + items_text(rest));
                }
                i = i + 1;
            }
            assert(views.skip(n as int) =~= Seq::<SExprView<Seq<char>>>::empty());
            push_char(out, ')');
            assert(final(out)@ =~= old(out)@ + datum_text(e@));
        },
        SExpr::Void(_) => {
            let cs = ['#', '<', 'v', 'o', 'i', 'd', '>'];
            push_chars(out, &cs);
            assert(cs@ =~= seq!['#', '<', 'v', 'o', 'i', 'd', '>']);
        },
    }
}

fn push_tail(out: &mut String, e: &SExpr<Symbol>)
    ensures
        final(out)@ == old(out)@ + tail_text(e@),
    decreases e, 1int,
{
    match e {
        SExpr::Nil(_) => {
            push_char(out, ')');
            assert(final(out)@ =~= old(out)@ + tail_text(e@));
        },
        SExpr::Cons(c, _) => {
            push_char(out, ' ');
            push_datum(out, &c.car);
            push_tail(out, &c.cdr);
            assert(final(out)@ =~= old(out)@ + tail_text(e@));
        },
        _ => {
            push_chars(out, &[' ', '.', ' ']);
            assert([' ', '.', ' ']@ =~= seq![' ', '.', ' ']);
            push_datum(out, e);
            push_char(out, ')');
            assert(final(out)@ =~= old(out)@ + tail_text(e@));
        },
    }
}

impl SExpr<Symbol> {
    /// The datum as text, written as `datum_text` describes.
    pub fn display(&self) -> (r: String)
        ensures
            r@ == datum_text(self@),
    {
        let mut out = String::new();
        push_datum(&mut out, self);
        assert(out@ =~= datum_text(self@));
        out
    }
}

/// The name of an identifier, its scopes left out.
pub open spec fn id_name(id: IdView) -> Seq<char> {
    id.0
}

/// How a syntax form is written: as `datum_text` writes it, each identifier
/// as its name.
pub open spec fn form_text(e: SExprView<IdView>) -> Seq<char> {
    datum_text(map_vars_view(e, |id: IdView| id_name(id)))
}

impl SExpr<Id> {
    /// The form as text, written as `form_text` describes.
    pub fn display(&self) -> (r: String)
        ensures
            r@ == form_text(self@),
    {
        let name = |id: Id| -> (s: Symbol)
            ensures
                s@ == id@.0,
            { id.symbol };
        let copy = self.duplicate();
        let d = copy.map_var(&name);
        proof {
            lemma_vars_mapped_view(copy, d, name, |id: IdView| id_name(id));
        }
        d.display()
    }
}

impl<T: Duplicate> Duplicate for SExpr<T> {
    /// A deep copy of the tree.
    fn duplicate(&self) -> (r: SExpr<T>)
        decreases self,
    {
        match self {
            SExpr::Var(v, s) => SExpr::Var(v.duplicate(), *s),
            SExpr::Cons(c, s) => SExpr::Cons(Cons::new(c.car.duplicate(), c.cdr.duplicate()), *s),
            SExpr::Nil(s) => SExpr::Nil(*s),
            SExpr::Bool(b, s) => SExpr::Bool(*b, *s),
            SExpr::Num(n, s) => SExpr::Num(n.clone(), *s),
            SExpr::Char(c, s) => SExpr::Char(*c, *s),
            SExpr::Str(t, s) => SExpr::Str(t.clone(), *s),
            SExpr::Vector(v, s) => {
                let mut out: Vec<SExpr<T>> = Vec::new();
                let mut i: usize = 0;
                while i < v.0.len()
                    invariant
                        *self matches SExpr::Vector(w, _) && w == *v,
                        i <= v.0.len(),
                        out.len() == i,
                        forall|j: int| 0 <= j < i ==> sexpr_view(#[trigger] out[j]) == sexpr_view(v.0[j]),
                    decreases v.0.len() - i,
                {
                    let e = v.0[i].duplicate();
                    out.push(e);
                    i = i + 1;
                }
                let r = SExpr::Vector(Vector(out), *s);
                assert(r@->Vector_0 =~= self@->Vector_0);
                r
            },
            SExpr::Void(s) => SExpr::Void(*s),
        }
    }
}

impl<T: Duplicate> Clone for SExpr<T> {
    fn clone(&self) -> (r: Self)
        ensures
            r@ == self@,
    {
        self.duplicate()
    }
}

} // verus!
