use vstd::prelude::*;
use vstd::string::StringExecFns;

verus! {

/// A name as written in the source or as produced by the compiler.
#[derive(Debug, PartialEq, Eq, Hash)]
pub struct Symbol(pub String);

impl View for Symbol {
    type V = Seq<char>;

    open spec fn view(&self) -> Seq<char> {
        self.0@
    }
}

/// Values that can be copied so that the copy has the same view.
pub trait Duplicate: View + Sized {
    /// A copy with the same view.
    fn duplicate(&self) -> (r: Self)
        ensures
            r@ == self@,
    ;
}

impl Symbol {
    /// Makes a symbol with the given text.
    pub fn new(symbol: &str) -> (r: Symbol)
        ensures
            r@ == symbol@,
    {
        Symbol(String::from_str(symbol))
    }

    /// Whether two symbols have the same text.
    pub fn same(&self, other: &Symbol) -> (r: bool)
        ensures
            r == (self@ == other@),
    {
        self.0 == other.0
    }
}

impl Duplicate for Symbol {
    fn duplicate(&self) -> (r: Symbol) {
        Symbol(self.0.clone())
    }
}

impl Clone for Symbol {
    fn clone(&self) -> (r: Self)
        ensures
            r@ == self@,
    {
        self.duplicate()
    }
}

/// The outcome of resolving an identifier after alpha conversion.
#[derive(Debug, PartialEq, Eq, Hash, Clone)]
pub enum ResolvedSymbol {
    Bound { symbol: Symbol, binding: Symbol },
    Free { symbol: Symbol },
    Literal { symbol: Symbol },
}

/// The mathematical value of a resolved symbol: the written name, and for a
/// bound one the binding it refers to.
pub enum ResolvedView {
    Bound(Seq<char>, Seq<char>),
    Free(Seq<char>),
    Literal(Seq<char>),
}

impl View for ResolvedSymbol {
    type V = ResolvedView;

    open spec fn view(&self) -> ResolvedView {
        match *self {
            ResolvedSymbol::Bound { symbol, binding } => ResolvedView::Bound(symbol@, binding@),
            ResolvedSymbol::Free { symbol } => ResolvedView::Free(symbol@),
            ResolvedSymbol::Literal { symbol } => ResolvedView::Literal(symbol@),
        }
    }
}

/// How a resolved symbol is written: a bound one as its binding, a free one as
/// its name followed by `:free`, a literal one as its name.
pub open spec fn resolved_text(r: ResolvedView) -> Seq<char> {
    match r {
        ResolvedView::Bound(_, b) => b,
        ResolvedView::Free(s) => s + ":free"@,
        ResolvedView::Literal(s) => s,
    }
}

impl ResolvedSymbol {
    /// The resolved symbol as text (see `resolved_text`).
    pub fn display(&self) -> (r: String)
        ensures
            r@ == resolved_text(self@),
    {
        match self {
            ResolvedSymbol::Bound { binding, .. } => binding.0.clone(),
            ResolvedSymbol::Free { symbol } => {
                let mut out = symbol.0.clone();
                out.append(":free");
                out
            },
            ResolvedSymbol::Literal { symbol } => symbol.0.clone(),
        }
    }
}

impl ResolvedVar {
    /// The variable as text: a bound one as its binding, a free one as its name
    /// followed by `:free`.
    pub fn display(&self) -> (r: String)
        ensures
            r@ == match self@.1 {
                Some(b) => b,
                None => self@.0 + ":free"@,
            },
    {
        match self {
            ResolvedVar::Bound { binding, .. } => binding.0.clone(),
            ResolvedVar::Free { symbol } => {
                let mut out = symbol.0.clone();
                out.append(":free");
                out
            },
        }
    }
}

impl Duplicate for ResolvedSymbol {
    fn duplicate(&self) -> (r: ResolvedSymbol) {
        match self {
            ResolvedSymbol::Bound { symbol, binding } => ResolvedSymbol::Bound {
                symbol: symbol.duplicate(),
                binding: binding.duplicate(),
            },
            ResolvedSymbol::Free { symbol } => ResolvedSymbol::Free { symbol: symbol.duplicate() },
            ResolvedSymbol::Literal { symbol } => ResolvedSymbol::Literal { symbol: symbol.duplicate() },
        }
    }
}

/// A variable reference: a resolved symbol that is not a literal.
#[derive(Debug, PartialEq, Eq, Hash)]
pub enum ResolvedVar {
    Bound { symbol: Symbol, binding: Symbol },
    Free { symbol: Symbol },
}

impl View for ResolvedVar {
    /// The written name, and the binding it refers to (`None` for a free variable).
    type V = (Seq<char>, Option<Seq<char>>);

    open spec fn view(&self) -> (Seq<char>, Option<Seq<char>>) {
        match *self {
            ResolvedVar::Bound { symbol, binding } => (symbol@, Some(binding@)),
            ResolvedVar::Free { symbol } => (symbol@, None),
        }
    }
}

impl Duplicate for ResolvedVar {
    fn duplicate(&self) -> (r: ResolvedVar) {
        match self {
            ResolvedVar::Bound { symbol, binding } => ResolvedVar::Bound {
                symbol: symbol.duplicate(),
                binding: binding.duplicate(),
            },
            ResolvedVar::Free { symbol } => ResolvedVar::Free { symbol: symbol.duplicate() },
        }
    }
}

impl Clone for ResolvedVar {
    fn clone(&self) -> (r: Self)
        ensures
            r@ == self@,
    {
        self.duplicate()
    }
}

impl ResolvedSymbol {
    /// The name as written in the source, whatever the resolution.
    pub open spec fn source_symbol(self) -> Symbol {
        match self {
            ResolvedSymbol::Bound { symbol, .. } => symbol,
            ResolvedSymbol::Free { symbol } => symbol,
            ResolvedSymbol::Literal { symbol } => symbol,
        }
    }

    /// The written name of a resolved symbol.
    pub fn into_symbol(self) -> (r: Symbol)
        ensures
            r == self.source_symbol(),
    {
        match self {
            ResolvedSymbol::Bound { symbol, .. } => symbol,
            ResolvedSymbol::Free { symbol } => symbol,
            ResolvedSymbol::Literal { symbol } => symbol,
        }
    }

    /// Turns a bound or free symbol into a variable; a literal is handed back as the error.
    pub fn try_into_var(self) -> (r: Result<ResolvedVar, ResolvedSymbol>)
        ensures
            match self {
                ResolvedSymbol::Bound { symbol, binding } => r == Ok::<ResolvedVar, ResolvedSymbol>(
                    ResolvedVar::Bound { symbol, binding },
                ),
                ResolvedSymbol::Free { symbol } => r == Ok::<ResolvedVar, ResolvedSymbol>(
                    ResolvedVar::Free { symbol },
                ),
                ResolvedSymbol::Literal { .. } => r == Err::<ResolvedVar, ResolvedSymbol>(self),
            },
    {
        match self {
            ResolvedSymbol::Bound { symbol, binding } => Ok(ResolvedVar::Bound { symbol, binding }),
            ResolvedSymbol::Free { symbol } => Ok(ResolvedVar::Free { symbol }),
            ResolvedSymbol::Literal { .. } => Err(self),
        }
    }
}

impl From<ResolvedSymbol> for Symbol {
    fn from(value: ResolvedSymbol) -> (r: Symbol) {
        value.into_symbol()
    }
}

impl vstd::std_specs::convert::FromSpecImpl<ResolvedSymbol> for Symbol {
    open spec fn obeys_from_spec() -> bool {
        true
    }

    open spec fn from_spec(value: ResolvedSymbol) -> Symbol {
        value.source_symbol()
    }
}

} // verus!
