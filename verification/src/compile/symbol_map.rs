use vstd::prelude::*;

use super::assoc::{assoc_map, keys_unique, lemma_assoc_dom, lemma_assoc_push, lemma_assoc_update, lemma_assoc_value};
use super::ident::Symbol;

verus! {

spec fn entry_key<V: View>() -> spec_fn((Symbol, V)) -> Seq<char> {
    |e: (Symbol, V)| e.0@
}

spec fn entry_value<V: View>() -> spec_fn((Symbol, V)) -> V::V {
    |e: (Symbol, V)| e.1@
}

/// A map from symbols, by their text, to values.
#[derive(Debug)]
pub struct SymbolMap<V: View> {
    entries: Vec<(Symbol, V)>,
}

impl<V: View> View for SymbolMap<V> {
    type V = Map<Seq<char>, V::V>;

    closed spec fn view(&self) -> Map<Seq<char>, V::V> {
        assoc_map(self.entries@, entry_key::<V>(), entry_value::<V>())
    }
}

impl<V: View> SymbolMap<V> {
    #[verifier::type_invariant]
    spec fn inv(&self) -> bool {
        keys_unique(self.entries@, entry_key::<V>())
    }

    /// The empty map.
    pub fn new() -> (r: SymbolMap<V>)
        ensures
            r@ == Map::<Seq<char>, V::V>::empty(),
    {
        SymbolMap { entries: Vec::new() }
    }

    fn find(&self, name: &Symbol) -> (r: Option<usize>)
        ensures
            match r {
                Some(i) => i < self.entries@.len() && self.entries@[i as int].0@ == name@,
                None => !self@.dom().contains(name@),
            },
    {
        let mut i: usize = 0;
        while i < self.entries.len()
            invariant
                0 <= i <= self.entries@.len(),
                forall|j: int| 0 <= j < i ==> (#[trigger] self.entries@[j]).0@ != name@,
            decreases self.entries@.len() - i,
        {
            if self.entries[i].0.same(name) {
                return Some(i);
            }
            i = i + 1;
        }
        proof {
            lemma_assoc_dom(self.entries@, entry_key::<V>(), entry_value::<V>(), name@);
        }
        None
    }

    /// The value of `name`, if it has one.
    pub fn get(&self, name: &Symbol) -> (r: Option<&V>)
        ensures
            match r {
                Some(v) => self@.dom().contains(name@) && v@ == self@[name@],
                None => !self@.dom().contains(name@),
            },
    {
        proof {
            use_type_invariant(self);
        }
        match self.find(name) {
            Some(i) => {
                proof {
                    lemma_assoc_value(self.entries@, entry_key::<V>(), entry_value::<V>(), i as int);
                }
                Some(&self.entries[i].1)
            },
            None => None,
        }
    }

    /// Gives `name` the value `v`, replacing the one it had.
    pub fn insert(&mut self, name: Symbol, v: V)
        ensures
            final(self)@ == old(self)@.insert(name@, v@),
    {
        proof {
            use_type_invariant(&*self);
        }
        let mut entries = Vec::new();
        std::mem::swap(&mut entries, &mut self.entries);
        let ghost before = entries@;
        let mut i: usize = 0;
        while i < entries.len()
            invariant
                0 <= i <= entries@.len(),
                entries@ == before,
                before == old(self).entries@,
                keys_unique(before, entry_key::<V>()),
                forall|j: int| 0 <= j < i ==> (#[trigger] entries@[j]).0@ != name@,
            decreases entries@.len() - i,
        {
            if entries[i].0.same(&name) {
                proof {
                    lemma_assoc_update(before, entry_key::<V>(), entry_value::<V>(), i as int, (name, v));
                }
                entries.set(i, (name, v));
                *self = SymbolMap { entries };
                return;
            }
            i = i + 1;
        }
        proof {
            lemma_assoc_dom(before, entry_key::<V>(), entry_value::<V>(), name@);
            lemma_assoc_push(before, entry_key::<V>(), entry_value::<V>(), (name, v));
        }
        entries.push((name, v));
        *self = SymbolMap { entries };
    }
}

/// What `get` gives after `insert`: the inserted value for the inserted name,
/// and for every other name what it gave before.
pub proof fn law_get_after_insert<W>(m: Map<Seq<char>, W>, name: Seq<char>, v: W, other: Seq<char>)
    ensures
        m.insert(name, v).dom().contains(name),
        m.insert(name, v)[name] == v,
        other != name ==> m.insert(name, v).dom().contains(other) == m.dom().contains(other),
        other != name && m.dom().contains(other) ==> m.insert(name, v)[other] == m[other],
{
}

} // verus!
