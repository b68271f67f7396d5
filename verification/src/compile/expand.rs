use vstd::prelude::*;

use super::bindings::{Bindings, Id, Scopes};
use super::ident::Symbol;
use super::sexpr::{lemma_vars_mapped_view, map_vars_view, IdView, SExpr, SExprView};

verus! {

/// How deep macro uses may nest before expansion gives up.
pub const MAX_MACRO_DEPTH: u16 = 1024;

/// Where a form stands: at the top level, in an expression, or in a body.
#[derive(PartialEq, Clone, Copy, Eq, Hash, Debug)]
pub enum SyntaxContext {
    TopLevel,
    Expression,
    Body,
}

/// The context of expansion: where the form stands and how deep in macro uses.
#[derive(PartialEq, Clone, Copy, Eq, Hash, Debug)]
pub struct Context {
    pub syntax_ctx: SyntaxContext,
    pub depth: u16,
}

impl Context {
    /// A context for `syntax_ctx` outside any macro use.
    pub fn new(syntax_ctx: SyntaxContext) -> (r: Context)
        ensures
            r == (Context { syntax_ctx, depth: 0 }),
    {
        Context { syntax_ctx, depth: 0 }
    }

    /// The same depth in another syntactic position.
    pub fn with_syntax_ctx(self, syntax_ctx: SyntaxContext) -> (r: Context)
        ensures
            r == (Context { syntax_ctx, ..self }),
    {
        Context { syntax_ctx, ..self }
    }

    /// One macro use deeper.
    pub fn increment_depth(&mut self)
        requires
            old(self).depth < u16::MAX,
        ensures
            *final(self) == (Context { depth: (old(self).depth + 1) as u16, ..*old(self) }),
    {
        self.depth = self.depth + 1;
    }
}

/// The identifier view of a symbol read from the source: its name, seen in the core scope only.
pub open spec fn core_id(s: Seq<char>) -> IdView {
    (s, set![Bindings::CORE_SCOPE])
}

/// Turns a datum into syntax: every symbol becomes an identifier seen in the core scope.
pub fn introduce(sexpr: SExpr<Symbol>) -> (r: SExpr<Id>)
    ensures
        r@ == map_vars_view(sexpr@, |s: Seq<char>| core_id(s)),
{
    let f = |symbol: Symbol| -> (id: Id)
        ensures
            id@ == core_id(symbol@),
        {
            let scopes = Scopes::from_array([Bindings::CORE_SCOPE]);
            proof {
                assert([Bindings::CORE_SCOPE]@.to_set() =~= set![Bindings::CORE_SCOPE]) by {
                    assert([Bindings::CORE_SCOPE]@ =~= seq![Bindings::CORE_SCOPE]);
                }
            }
            Id { symbol, scopes }
        };
    let r = sexpr.map_var(&f);
    proof {
        lemma_vars_mapped_view(sexpr, r, f, |s: Seq<char>| core_id(s));
    }
    r
}

} // verus!
