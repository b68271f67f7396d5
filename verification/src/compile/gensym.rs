use vstd::prelude::*;
use vstd::string::StringExecFns;

use super::ident::Symbol;
use super::text::{decimal, lemma_decimal_digits, lemma_decimal_injective, push_char, push_decimal};

verus! {

/// A source of fresh names: each name carries a hint and a count that no earlier
/// name of the same source carries.
#[derive(Debug)]
pub struct GenSym {
    counter: u64,
}

/// The name made for `hint` as the `n`-th fresh name: `<hint>:<n>`.
pub open spec fn fresh_text(hint: Seq<char>, n: nat) -> Seq<char> {
    hint + seq![':'] + decimal(n)
}

impl GenSym {
    /// How many names this source has made.
    pub closed spec fn count(&self) -> nat {
        self.counter as nat
    }

    /// A source that has made no names yet.
    pub fn new() -> (r: GenSym)
        ensures
            r.count() == 0,
    {
        GenSym { counter: 0 }
    }

    /// A name not made before by this source: the hint, a colon and the new count.
    pub fn fresh(&mut self, hint: &str) -> (r: Symbol)
        requires
            old(self).count() < u64::MAX,
        ensures
            final(self).count() == old(self).count() + 1,
            r@ == fresh_text(hint@, final(self).count()),
    {
        self.counter = self.counter + 1;
        let mut text = String::from_str(hint);
        push_char(&mut text, ':');
        push_decimal(&mut text, self.counter);
        Symbol(text)
    }
}

impl Default for GenSym {
    fn default() -> (r: GenSym)
        ensures
            r.count() == 0,
    {
        GenSym::new()
    }
}

/// Names made with different counts differ, whatever their hints: the count
/// follows the last colon of the name.
pub proof fn law_fresh_distinct(h1: Seq<char>, n: nat, h2: Seq<char>, m: nat)
    requires
        fresh_text(h1, n) == fresh_text(h2, m),
    ensures
        h1 == h2,
        n == m,
{
    let t = fresh_text(h1, n);
    lemma_decimal_digits(n);
    lemma_decimal_digits(m);
    if h1.len() < h2.len() {
        let t2 = fresh_text(h2, m);
        assert(t2.len() == t.len());
        assert(t2[h2.len() as int] == ':');
        assert(h2.len() < t.len());
        assert(t[h2.len() as int] == decimal(n)[h2.len() - h1.len() - 1]);
    } else if h2.len() < h1.len() {
        let t2 = fresh_text(h2, m);
        assert(t2.len() == t.len());
        assert(t2[h1.len() as int] == ':');
        assert(t2[h1.len() as int] == decimal(m)[h1.len() - h2.len() - 1]);
    }
    assert(h1 =~= t.take(h1.len() as int));
    assert(h2 =~= t.take(h2.len() as int));
    assert(decimal(n) =~= t.skip(h1.len() as int + 1));
    assert(decimal(m) =~= t.skip(h2.len() as int + 1));
    lemma_decimal_injective(n, m);
}

} // verus!
