use vstd::prelude::*;
use vstd::string::StringExecFns;

use super::text::{decimal, push_decimal};

verus! {

/// A place in the source text: its line, the index where it starts and how many
/// characters it covers. Places are ordered by line, then index, then width.
#[derive(Clone, Copy, PartialEq, Eq, Debug)]
pub struct SourceLoc {
    pub line: usize,
    pub idx: usize,
    pub width: usize,
}

impl SourceLoc {
    /// Whether `self` comes before `other`: by line, then index, then width.
    pub open spec fn before(self, other: SourceLoc) -> bool {
        ||| self.line < other.line
        ||| self.line == other.line && self.idx < other.idx
        ||| self.line == other.line && self.idx == other.idx && self.width < other.width
    }

    /// The place that starts where the earlier of the two starts and reaches to
    /// the end of the later one.
    pub open spec fn spec_combine(self, other: SourceLoc) -> SourceLoc {
        let (first, last) = if other.before(self) { (other, self) } else { (self, other) };
        SourceLoc { line: first.line, idx: first.idx, width: (last.idx - first.idx + last.width) as usize }
    }

    /// Whether the later of the two places starts no earlier than the other, and
    /// their joined width fits in a `usize`.
    pub open spec fn can_combine(self, other: SourceLoc) -> bool {
        let (first, last) = if other.before(self) { (other, self) } else { (self, other) };
        first.idx <= last.idx && last.idx - first.idx + last.width <= usize::MAX
    }

    fn comes_before(&self, other: &SourceLoc) -> (r: bool)
        ensures
            r == self.before(*other),
    {
        self.line < other.line || (self.line == other.line && (self.idx < other.idx || (self.idx == other.idx
            && self.width < other.width)))
    }

    /// Joins two places into one that covers both.
    pub fn combine(self, other: SourceLoc) -> (r: SourceLoc)
        requires
            self.can_combine(other),
        ensures
            r == self.spec_combine(other),
    {
        let (first, last) = if other.comes_before(&self) {
            (other, self)
        } else {
            (self, other)
        };
        SourceLoc { line: first.line, idx: first.idx, width: last.idx - first.idx + last.width }
    }

    /// How a place is shown: `line: <line>, idx: <idx>`.
    pub open spec fn spec_display(self) -> Seq<char> {
        "line: "@ + decimal(self.line as nat) + ", idx: "@ + decimal(self.idx as nat)
    }

    /// The place as text, `line: <line>, idx: <idx>`.
    pub fn display(&self) -> (r: String)
        ensures
            r@ == self.spec_display(),
    {
        let mut out = String::new();
        out.append("line: ");
        push_decimal(&mut out, self.line as u64);
        out.append(", idx: ");
        push_decimal(&mut out, self.idx as u64);
        assert(out@ =~= self.spec_display());
        out
    }
}

/// Joining two places does not depend on their order.
pub proof fn law_source_loc_combine_commutative(a: SourceLoc, b: SourceLoc)
    ensures
        a.can_combine(b) == b.can_combine(a),
        a.spec_combine(b) == b.spec_combine(a),
{
}

/// Joining a place with a later one that starts no earlier gives the place
/// that starts where the earlier one starts and ends where the later one
/// ends, in either order of the arguments.
pub proof fn law_source_loc_combine_spans(a: SourceLoc, b: SourceLoc)
    requires
        !b.before(a),
        a.idx <= b.idx,
        b.idx - a.idx + b.width <= usize::MAX,
    ensures
        a.can_combine(b),
        b.can_combine(a),
        a.spec_combine(b) == (SourceLoc { line: a.line, idx: a.idx, width: (b.idx - a.idx + b.width) as usize }),
        b.spec_combine(a) == a.spec_combine(b),
        a.spec_combine(b).idx + a.spec_combine(b).width == b.idx + b.width,
{
}

/// A place joined with itself keeps its start and width.
pub proof fn law_source_loc_combine_self(a: SourceLoc)
    ensures
        a.can_combine(a),
        a.spec_combine(a) == a,
{
}

} // verus!
