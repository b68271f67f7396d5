use vstd::prelude::*;
use vstd::string::StringExecFns;

use super::text::{decimal, push_decimal};

verus! {

/// A place in the source text: its line, its column and how many characters it covers.
#[derive(Clone, Copy, Debug, PartialEq, Eq)]
pub struct SourceLoc {
    pub line: usize,
    pub col: usize,
    pub width: usize,
}

impl SourceLoc {
    /// How a place is shown: `line: <line>, col: <col>`.
    pub open spec fn spec_display(self) -> Seq<char> {
        "line: "@ + decimal(self.line as nat) + ", col: "@ + decimal(self.col as nat)
    }

    /// The place as text, `line: <line>, col: <col>`.
    pub fn display(&self) -> (r: String)
        ensures
            r@ == self.spec_display(),
    {
        let mut out = String::new();
        out.append("line: ");
        push_decimal(&mut out, self.line as u64);
        out.append(", col: ");
        push_decimal(&mut out, self.col as u64);
        assert(out@ =~= self.spec_display());
        out
    }
}

} // verus!
