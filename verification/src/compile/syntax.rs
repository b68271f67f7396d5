use vstd::prelude::*;
use vstd::string::StringExecFns;

use super::bindings::{ScopeId, Scopes};
use super::ident::Duplicate;
use super::sexpr::{add_to, flip_in};

verus! {

/// A syntax tree of the first expander: identifiers carry the scopes they were
/// seen in, symbols are plain data.
#[derive(Debug, PartialEq)]
pub enum SExpr {
    Id(Id),
    Cons(Box<Cons>),
    Symbol(Symbol),
    Nil,
    Bool(Bool),
    Num(Num),
}

/// An identifier: a symbol and its scope set.
#[derive(Debug, PartialEq, Eq, Hash)]
pub struct Id {
    pub symbol: Symbol,
    pub scopes: Scopes,
}

/// A pair cell.
#[derive(Debug, PartialEq)]
pub struct Cons {
    pub car: SExpr,
    pub cdr: SExpr,
}

/// A name.
#[derive(Debug, PartialEq, Eq, Hash)]
pub struct Symbol(String);

/// A boolean literal.
#[derive(Debug, PartialEq, Eq, Clone, Copy)]
pub struct Bool(bool);

/// A numeric literal.
#[derive(Debug, PartialEq, Eq, Clone, Copy)]
pub struct Num(u32);

/// The mathematical value of a syntax tree.
pub enum SyntaxView {
    Id(Seq<char>, Set<ScopeId>),
    Cons(Box<SyntaxView>, Box<SyntaxView>),
    Symbol(Seq<char>),
    Nil,
    Bool(bool),
    Num(u32),
}

impl View for Symbol {
    type V = Seq<char>;

    closed spec fn view(&self) -> Seq<char> {
        self.0@
    }
}

impl View for Bool {
    type V = bool;

    closed spec fn view(&self) -> bool {
        self.0
    }
}

impl View for Num {
    type V = u32;

    closed spec fn view(&self) -> u32 {
        self.0
    }
}

impl View for Id {
    type V = (Seq<char>, Set<ScopeId>);

    open spec fn view(&self) -> (Seq<char>, Set<ScopeId>) {
        (self.symbol@, self.scopes@)
    }
}

pub open spec fn syntax_view(e: SExpr) -> SyntaxView
    decreases e,
{
    match e {
        SExpr::Id(id) => SyntaxView::Id(id.symbol@, id.scopes@),
        SExpr::Cons(c) => SyntaxView::Cons(Box::new(syntax_view(c.car)), Box::new(syntax_view(c.cdr))),
        SExpr::Symbol(s) => SyntaxView::Symbol(s@),
        SExpr::Nil => SyntaxView::Nil,
        SExpr::Bool(b) => SyntaxView::Bool(b@),
        SExpr::Num(n) => SyntaxView::Num(n@),
    }
}

impl View for SExpr {
    type V = SyntaxView;

    open spec fn view(&self) -> SyntaxView {
        syntax_view(*self)
    }
}

impl Symbol {
    /// A symbol with the given text.
    pub fn new(symbol: &str) -> (r: Symbol)
        ensures
            r@ == symbol@,
    {
        Symbol(String::from_str(symbol))
    }
}

impl Duplicate for Symbol {
    fn duplicate(&self) -> (r: Symbol) {
        Symbol(self.0.clone())
    }
}

impl Clone for Symbol {
    fn clone(&self) -> (r: Self)
        ensures
            r@ == self@,
    {
        self.duplicate()
    }
}

impl Id {
    /// An identifier with no scopes.
    pub fn new(symbol: &str) -> (r: Id)
        ensures
            r@ == (symbol@, Set::<ScopeId>::empty()),
    {
        Id { symbol: Symbol::new(symbol), scopes: Scopes::new() }
    }

    /// An identifier seen in exactly the given scopes.
    pub fn with_scope<const N: usize>(symbol: &str, scopes: [ScopeId; N]) -> (r: Id)
        ensures
            r@ == (symbol@, scopes@.to_set()),
    {
        Id { symbol: Symbol::new(symbol), scopes: Scopes::from_array(scopes) }
    }
}

impl Duplicate for Id {
    fn duplicate(&self) -> (r: Id) {
        Id { symbol: self.symbol.duplicate(), scopes: self.scopes.duplicate() }
    }
}

impl Clone for Id {
    fn clone(&self) -> (r: Self)
        ensures
            r@ == self@,
    {
        self.duplicate()
    }
}

impl Duplicate for SExpr {
    fn duplicate(&self) -> (r: SExpr)
        decreases self,
    {
        match self {
            SExpr::Id(id) => SExpr::Id(id.duplicate()),
            SExpr::Cons(c) => SExpr::new_cons(c.car.duplicate(), c.cdr.duplicate()),
            SExpr::Symbol(s) => SExpr::Symbol(s.duplicate()),
            SExpr::Nil => SExpr::Nil,
            SExpr::Bool(b) => SExpr::Bool(*b),
            SExpr::Num(n) => SExpr::Num(*n),
        }
    }
}

impl Clone for SExpr {
    fn clone(&self) -> (r: Self)
        ensures
            r@ == self@,
    {
        self.duplicate()
    }
}

/// The tree with every symbol turned into an identifier without scopes.
pub open spec fn to_syntax(e: SyntaxView) -> SyntaxView
    decreases e,
{
    match e {
        SyntaxView::Symbol(s) => SyntaxView::Id(s, Set::empty()),
        SyntaxView::Cons(a, d) => SyntaxView::Cons(Box::new(to_syntax(*a)), Box::new(to_syntax(*d))),
        _ => e,
    }
}

/// The tree with every identifier turned into its bare symbol.
pub open spec fn to_datum(e: SyntaxView) -> SyntaxView
    decreases e,
{
    match e {
        SyntaxView::Id(s, _) => SyntaxView::Symbol(s),
        SyntaxView::Cons(a, d) => SyntaxView::Cons(Box::new(to_datum(*a)), Box::new(to_datum(*d))),
        _ => e,
    }
}

/// The tree with the scope set of every identifier passed through `f`.
pub open spec fn map_scopes(e: SyntaxView, f: spec_fn(Set<ScopeId>) -> Set<ScopeId>) -> SyntaxView
    decreases e,
{
    match e {
        SyntaxView::Id(s, scopes) => SyntaxView::Id(s, f(scopes)),
        SyntaxView::Cons(a, d) => SyntaxView::Cons(Box::new(map_scopes(*a, f)), Box::new(map_scopes(*d, f))),
        _ => e,
    }
}

impl SExpr {
    /// An identifier with no scopes.
    pub fn new_id(symbol: &str) -> (r: SExpr)
        ensures
            r@ == SyntaxView::Id(symbol@, Set::empty()),
    {
        SExpr::Id(Id::new(symbol))
    }

    /// An identifier seen in exactly the given scopes.
    pub fn new_id_with_scope<const N: usize>(symbol: &str, scopes: [ScopeId; N]) -> (r: SExpr)
        ensures
            r@ == SyntaxView::Id(symbol@, scopes@.to_set()),
    {
        SExpr::Id(Id::with_scope(symbol, scopes))
    }

    /// A pair of `car` and `cdr`.
    pub fn new_cons(car: SExpr, cdr: SExpr) -> (r: SExpr)
        ensures
            r@ == SyntaxView::Cons(Box::new(car@), Box::new(cdr@)),
    {
        SExpr::Cons(Box::new(Cons { car, cdr }))
    }

    /// A symbol.
    pub fn new_symbol(symbol: &str) -> (r: SExpr)
        ensures
            r@ == SyntaxView::Symbol(symbol@),
    {
        SExpr::Symbol(Symbol::new(symbol))
    }

    /// A boolean.
    pub fn new_bool(val: bool) -> (r: SExpr)
        ensures
            r@ == SyntaxView::Bool(val),
    {
        SExpr::Bool(Bool(val))
    }

    /// A number.
    pub fn new_num(val: u32) -> (r: SExpr)
        ensures
            r@ == SyntaxView::Num(val),
    {
        SExpr::Num(Num(val))
    }

    /// The tree with every symbol turned into an identifier without scopes.
    pub fn coerce_to_syntax(&self) -> (r: SExpr)
        ensures
            r@ == to_syntax(self@),
        decreases self,
    {
        match self {
            SExpr::Symbol(symbol) => SExpr::Id(Id { symbol: symbol.duplicate(), scopes: Scopes::new() }),
            SExpr::Cons(cons) => SExpr::new_cons(cons.car.coerce_to_syntax(), cons.cdr.coerce_to_syntax()),
            _ => self.duplicate(),
        }
    }

    /// The tree with every identifier turned into its symbol, its scopes dropped.
    pub fn coerce_to_datum(&self) -> (r: SExpr)
        ensures
            r@ == to_datum(self@),
        decreases self,
    {
        match self {
            SExpr::Id(id) => SExpr::Symbol(id.symbol.duplicate()),
            SExpr::Cons(cons) => SExpr::new_cons(cons.car.coerce_to_datum(), cons.cdr.coerce_to_datum()),
            _ => self.duplicate(),
        }
    }

    /// Applies `op` to the scope set of every identifier in the tree.
    fn adjust_scope<F: Fn(&Scopes) -> Scopes>(&self, op: &F, Ghost(g): Ghost<spec_fn(Set<ScopeId>) -> Set<ScopeId>>) -> (r: SExpr)
        requires
            forall|s: &Scopes| op.requires((s,)),
            forall|s: &Scopes, t: Scopes| op.ensures((s,), t) ==> t@ == g(s@),
        ensures
            r@ == map_scopes(self@, g),
        decreases self,
    {
        match self {
            SExpr::Id(id) => SExpr::Id(Id { symbol: id.symbol.duplicate(), scopes: op(&id.scopes) }),
            SExpr::Cons(cons) => SExpr::new_cons(
                cons.car.adjust_scope(op, Ghost(g)),
                cons.cdr.adjust_scope(op, Ghost(g)),
            ),
            _ => self.duplicate(),
        }
    }

    /// Adds `scope` to the scope set of every identifier in the tree.
    pub fn add_scope(&self, scope: ScopeId) -> (r: SExpr)
        ensures
            r@ == map_scopes(self@, add_to(scope)),
    {
        let op = |scopes: &Scopes| -> (r: Scopes)
            ensures
                r@ == scopes@.insert(scope),
            {
                let mut scopes = scopes.duplicate();
                scopes.insert(scope);
                scopes
            };
        self.adjust_scope(&op, Ghost(add_to(scope)))
    }

    /// Toggles `scope` in the scope set of every identifier in the tree.
    pub fn flip_scope(&self, scope: ScopeId) -> (r: SExpr)
        ensures
            r@ == map_scopes(self@, flip_in(scope)),
    {
        let op = |scopes: &Scopes| -> (r: Scopes)
            ensures
                r@ == (if scopes@.contains(scope) { scopes@.remove(scope) } else { scopes@.insert(scope) }),
            {
                let mut scopes = scopes.duplicate();
                if scopes.contains(scope) {
                    scopes.remove(scope);
                } else {
                    scopes.insert(scope);
                }
                scopes
            };
        self.adjust_scope(&op, Ghost(flip_in(scope)))
    }
}

/// Turning a tree into syntax and then into a datum gives the same datum as
/// turning it into a datum directly.
pub proof fn law_datum_of_syntax(e: SyntaxView)
    ensures
        to_datum(to_syntax(e)) == to_datum(e),
    decreases e,
{
    if let SyntaxView::Cons(a, d) = e {
        law_datum_of_syntax(*a);
        law_datum_of_syntax(*d);
    }
}

/// Turning a tree into a datum twice is the same as once.
pub proof fn law_to_datum_idempotent(e: SyntaxView)
    ensures
        to_datum(to_datum(e)) == to_datum(e),
    decreases e,
{
    if let SyntaxView::Cons(a, d) = e {
        law_to_datum_idempotent(*a);
        law_to_datum_idempotent(*d);
    }
}

/// Turning a tree into syntax twice is the same as once.
pub proof fn law_to_syntax_idempotent(e: SyntaxView)
    ensures
        to_syntax(to_syntax(e)) == to_syntax(e),
    decreases e,
{
    if let SyntaxView::Cons(a, d) = e {
        law_to_syntax_idempotent(*a);
        law_to_syntax_idempotent(*d);
    }
}

/// A datum (a tree without identifiers) comes back unchanged from syntax.
pub proof fn law_syntax_of_datum_roundtrip(e: SyntaxView)
    ensures
        to_datum(to_syntax(to_datum(e))) == to_datum(e),
{
    law_datum_of_syntax(to_datum(e));
    law_to_datum_idempotent(e);
}

/// Mapping the scope sets twice is mapping them once by the composition.
pub proof fn lemma_map_scopes_twice(
    e: SyntaxView,
    f: spec_fn(Set<ScopeId>) -> Set<ScopeId>,
    g: spec_fn(Set<ScopeId>) -> Set<ScopeId>,
)
    ensures
        map_scopes(map_scopes(e, f), g) == map_scopes(e, |s: Set<ScopeId>| g(f(s))),
    decreases e,
{
    if let SyntaxView::Cons(a, d) = e {
        lemma_map_scopes_twice(*a, f, g);
        lemma_map_scopes_twice(*d, f, g);
    }
}

/// Mapping every scope set to itself changes nothing.
pub proof fn lemma_map_scopes_same(e: SyntaxView, f: spec_fn(Set<ScopeId>) -> Set<ScopeId>)
    requires
        forall|s: Set<ScopeId>| #[trigger] f(s) == s,
    ensures
        map_scopes(e, f) == e,
    decreases e,
{
    match e {
        SyntaxView::Id(_, scopes) => {
            assert(f(scopes) == scopes);
        },
        SyntaxView::Cons(a, d) => {
            lemma_map_scopes_same(*a, f);
            lemma_map_scopes_same(*d, f);
        },
        _ => {},
    }
}

/// Flipping the same scope twice gives back the tree it started from.
pub proof fn law_flip_scope_involutive(e: SyntaxView, scope: ScopeId)
    ensures
        map_scopes(map_scopes(e, flip_in(scope)), flip_in(scope)) == e,
{
    let flip = flip_in(scope);
    lemma_map_scopes_twice(e, flip, flip);
    let twice = |s: Set<ScopeId>| flip(flip(s));
    assert forall|s: Set<ScopeId>| #[trigger] twice(s) == s by {
        if s.contains(scope) {
            assert(s.remove(scope).insert(scope) =~= s);
        } else {
            assert(s.insert(scope).remove(scope) =~= s);
        }
    }
    lemma_map_scopes_same(e, twice);
}

} // verus!
