use vstd::prelude::*;

use crate::compile::anf::Expr;
use crate::compile::pass::aliasing::{aliased_expr, propagate_aliases, AliasRule};
use crate::compile::pass::census_collection::{collect_census, expr_uses};

verus! {

/// Copy propagation: wherever `(let ((x y)) ..)` binds `x` to the value of
/// the variable `y`, and neither is ever assigned, later references to `x`
/// refer to `y` instead; the `let` itself stays.
pub fn propagate_copies(expr: Expr) -> (r: Expr)
    requires
        forall|k: Seq<char>| #[trigger] expr_uses(expr@, k) <= usize::MAX,
    ensures
        r@ == aliased_expr(AliasRule::Copies, expr@, Map::empty(), expr@).0,
{
    let census = collect_census(&expr);
    propagate_aliases(AliasRule::Copies, expr, &census)
}

} // verus!
