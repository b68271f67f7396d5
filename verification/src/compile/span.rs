use vstd::prelude::*;
use vstd::string::StringExecFns;

use super::text::{decimal, push_decimal};

verus! {

/// A half-open range of byte offsets `[lo, hi)` into the source text.
#[derive(Clone, Copy, PartialEq, Eq, Debug, Hash)]
pub struct Span {
    pub lo: usize,
    pub hi: usize,
}

pub open spec fn min_nat(a: usize, b: usize) -> usize {
    if a <= b { a } else { b }
}

pub open spec fn max_nat(a: usize, b: usize) -> usize {
    if a >= b { a } else { b }
}

impl Span {
    /// The smallest span that covers both spans.
    pub open spec fn spec_combine(self, other: Self) -> Self {
        Span { lo: min_nat(self.lo, other.lo), hi: max_nat(self.hi, other.hi) }
    }

    /// Joins two spans into the smallest span that covers both.
    pub fn combine(self, other: Self) -> (r: Self)
        ensures
            r == self.spec_combine(other),
    {
        Span {
            lo: if self.lo <= other.lo { self.lo } else { other.lo },
            hi: if self.hi >= other.hi { self.hi } else { other.hi },
        }
    }

    /// How a span is shown: `lo: <lo>, hi: <hi>`.
    pub open spec fn spec_display(self) -> Seq<char> {
        "lo: "@ + decimal(self.lo as nat) + ", hi: "@ + decimal(self.hi as nat)
    }

    /// The span as text, `lo: <lo>, hi: <hi>`.
    pub fn display(&self) -> (r: String)
        ensures
            r@ == self.spec_display(),
    {
        let mut out = String::new();
        out.append("lo: ");
        push_decimal(&mut out, self.lo as u64);
        out.append(", hi: ");
        push_decimal(&mut out, self.hi as u64);
        assert(out@ =~= self.spec_display());
        out
    }
}

/// Joining spans does not depend on their order.
pub proof fn law_combine_commutative(a: Span, b: Span)
    ensures
        a.spec_combine(b) == b.spec_combine(a),
{
}

/// Joining spans can be regrouped freely.
pub proof fn law_combine_associative(a: Span, b: Span, c: Span)
    ensures
        a.spec_combine(b).spec_combine(c) == a.spec_combine(b.spec_combine(c)),
{
}

/// Joining a span with itself gives it back.
pub proof fn law_combine_idempotent(a: Span)
    ensures
        a.spec_combine(a) == a,
{
}

/// The joined span starts no later and ends no earlier than either operand.
pub proof fn law_combine_covers(a: Span, b: Span)
    ensures
        a.spec_combine(b).lo <= a.lo,
        a.spec_combine(b).lo <= b.lo,
        a.spec_combine(b).hi >= a.hi,
        a.spec_combine(b).hi >= b.hi,
{
}

} // verus!
