use vstd::prelude::*;

use super::assoc::{assoc_map, keys_unique, lemma_assoc_dom, lemma_assoc_push, lemma_assoc_update, lemma_assoc_value};
use super::ident::{Duplicate, Symbol};

verus! {

/// What is known of one variable: how often it is used and whether it is assigned again.
#[derive(Debug)]
struct VarMeta {
    use_count: usize,
    is_rebound: bool,
}

#[derive(Debug)]
struct CensusEntry {
    name: Symbol,
    meta: VarMeta,
}

spec fn name_key() -> spec_fn(CensusEntry) -> Seq<char> {
    |e: CensusEntry| e.name@
}

spec fn facts_of() -> spec_fn(CensusEntry) -> (nat, bool) {
    |e: CensusEntry| (e.meta.use_count as nat, e.meta.is_rebound)
}

/// For each variable seen, its number of uses and whether it is assigned again.
#[derive(Debug)]
pub struct Census {
    data: Vec<CensusEntry>,
}

impl View for Census {
    type V = Map<Seq<char>, (nat, bool)>;

    closed spec fn view(&self) -> Map<Seq<char>, (nat, bool)> {
        assoc_map(self.data@, name_key(), facts_of())
    }
}

/// How often the variable named `k` is used: 0 when it was never seen.
pub open spec fn uses(m: Map<Seq<char>, (nat, bool)>, k: Seq<char>) -> nat {
    if m.dom().contains(k) {
        m[k].0
    } else {
        0
    }
}

/// Whether the variable named `k` is assigned again: false when it was never seen.
pub open spec fn rebound(m: Map<Seq<char>, (nat, bool)>, k: Seq<char>) -> bool {
    if m.dom().contains(k) {
        m[k].1
    } else {
        false
    }
}

/// The census after one more use of `k`.
pub open spec fn after_use(m: Map<Seq<char>, (nat, bool)>, k: Seq<char>) -> Map<Seq<char>, (nat, bool)> {
    m.insert(k, (uses(m, k) + 1, rebound(m, k)))
}

/// The census after `k` is seen assigned again.
pub open spec fn after_rebound(m: Map<Seq<char>, (nat, bool)>, k: Seq<char>) -> Map<Seq<char>, (nat, bool)> {
    m.insert(k, (uses(m, k), true))
}

/// `a - b`, or zero where `b` is the larger.
pub open spec fn sat_sub(a: nat, b: nat) -> nat {
    if a >= b {
        (a - b) as nat
    } else {
        0
    }
}

/// The census after one use of `k` is forgotten: its count drops by one, but
/// not below zero.
pub open spec fn after_unuse(m: Map<Seq<char>, (nat, bool)>, k: Seq<char>) -> Map<Seq<char>, (nat, bool)> {
    if m.dom().contains(k) {
        m.insert(k, (sat_sub(m[k].0, 1), m[k].1))
    } else {
        m
    }
}

impl Census {
    #[verifier::type_invariant]
    spec fn inv(&self) -> bool {
        keys_unique(self.data@, name_key())
    }

    /// A census that has seen no variable.
    pub fn new() -> (r: Census)
        ensures
            r@ == Map::<Seq<char>, (nat, bool)>::empty(),
    {
        Census { data: Vec::new() }
    }

    /// Where the entry of `symbol` is, if there is one.
    fn find(&self, symbol: &Symbol) -> (r: Option<usize>)
        ensures
            match r {
                Some(i) => i < self.data@.len() && self.data@[i as int].name@ == symbol@,
                None => !self@.dom().contains(symbol@),
            },
    {
        let mut i: usize = 0;
        while i < self.data.len()
            invariant
                0 <= i <= self.data@.len(),
                forall|j: int| 0 <= j < i ==> (#[trigger] self.data@[j]).name@ != symbol@,
            decreases self.data@.len() - i,
        {
            if self.data[i].name.same(symbol) {
                return Some(i);
            }
            i = i + 1;
        }
        proof {
            lemma_assoc_dom(self.data@, name_key(), facts_of(), symbol@);
        }
        None
    }

    /// Records one more use of `symbol`.
    pub fn track_use(&mut self, symbol: &Symbol)
        requires
            uses(old(self)@, symbol@) < usize::MAX,
        ensures
            final(self)@ == after_use(old(self)@, symbol@),
    {
        proof {
            use_type_invariant(&*self);
        }
        match self.find(symbol) {
            Some(i) => {
                proof {
                    lemma_assoc_value(self.data@, name_key(), facts_of(), i as int);
                }
                let meta = VarMeta {
                    use_count: self.data[i].meta.use_count + 1,
                    is_rebound: self.data[i].meta.is_rebound,
                };
                let entry = CensusEntry { name: symbol.duplicate(), meta };
                proof {
                    lemma_assoc_update(self.data@, name_key(), facts_of(), i as int, entry);
                }
                self.replace(i, entry);
            },
            None => {
                let entry = CensusEntry { name: symbol.duplicate(), meta: VarMeta { use_count: 1, is_rebound: false } };
                proof {
                    lemma_assoc_push(self.data@, name_key(), facts_of(), entry);
                }
                self.append(entry);
            },
        }
    }

    /// Records that `symbol` is assigned again.
    pub fn track_rebound(&mut self, symbol: &Symbol)
        ensures
            final(self)@ == after_rebound(old(self)@, symbol@),
    {
        proof {
            use_type_invariant(&*self);
        }
        match self.find(symbol) {
            Some(i) => {
                proof {
                    lemma_assoc_value(self.data@, name_key(), facts_of(), i as int);
                }
                let meta = VarMeta { use_count: self.data[i].meta.use_count, is_rebound: true };
                let entry = CensusEntry { name: symbol.duplicate(), meta };
                proof {
                    lemma_assoc_update(self.data@, name_key(), facts_of(), i as int, entry);
                }
                self.replace(i, entry);
            },
            None => {
                let entry = CensusEntry { name: symbol.duplicate(), meta: VarMeta { use_count: 0, is_rebound: true } };
                proof {
                    lemma_assoc_push(self.data@, name_key(), facts_of(), entry);
                }
                self.append(entry);
            },
        }
    }

    /// Forgets one use of `symbol`: its count drops by one, but not below zero.
    pub fn untrack_use(&mut self, symbol: &Symbol)
        ensures
            final(self)@ == after_unuse(old(self)@, symbol@),
    {
        proof {
            use_type_invariant(&*self);
        }
        if let Some(i) = self.find(symbol) {
            proof {
                lemma_assoc_value(self.data@, name_key(), facts_of(), i as int);
            }
            let count = self.data[i].meta.use_count;
            let meta = VarMeta {
                use_count: if count > 0 {
                    count - 1
                } else {
                    0
                },
                is_rebound: self.data[i].meta.is_rebound,
            };
            let entry = CensusEntry { name: symbol.duplicate(), meta };
            proof {
                lemma_assoc_update(self.data@, name_key(), facts_of(), i as int, entry);
            }
            self.replace(i, entry);
        }
    }

    fn replace(&mut self, i: usize, entry: CensusEntry)
        requires
            i < old(self).data@.len(),
            keys_unique(old(self).data@.update(i as int, entry), name_key()),
        ensures
            final(self).data@ == old(self).data@.update(i as int, entry),
    {
        let mut data = Vec::new();
        std::mem::swap(&mut data, &mut self.data);
        data.set(i, entry);
        *self = Census { data };
    }

    fn append(&mut self, entry: CensusEntry)
        requires
            keys_unique(old(self).data@.push(entry), name_key()),
        ensures
            final(self).data@ == old(self).data@.push(entry),
    {
        let mut data = Vec::new();
        std::mem::swap(&mut data, &mut self.data);
        data.push(entry);
        *self = Census { data };
    }

    /// How often `symbol` is used: 0 when it was never seen.
    pub fn use_count(&self, symbol: &Symbol) -> (r: usize)
        ensures
            r == uses(self@, symbol@),
    {
        proof {
            use_type_invariant(self);
        }
        match self.find(symbol) {
            Some(i) => {
                proof {
                    lemma_assoc_value(self.data@, name_key(), facts_of(), i as int);
                }
                self.data[i].meta.use_count
            },
            None => 0,
        }
    }

    /// Whether `symbol` is assigned again: false when it was never seen.
    pub fn is_rebound(&self, symbol: &Symbol) -> (r: bool)
        ensures
            r == rebound(self@, symbol@),
    {
        proof {
            use_type_invariant(self);
        }
        match self.find(symbol) {
            Some(i) => {
                proof {
                    lemma_assoc_value(self.data@, name_key(), facts_of(), i as int);
                }
                self.data[i].meta.is_rebound
            },
            None => false,
        }
    }
}

impl Default for Census {
    fn default() -> (r: Census)
        ensures
            r@ == Map::<Seq<char>, (nat, bool)>::empty(),
    {
        Census::new()
    }
}

/// One more use of a variable raises its count by one and leaves every other
/// count, and every reassignment mark, as it was.
pub proof fn law_track_use(m: Map<Seq<char>, (nat, bool)>, k: Seq<char>, other: Seq<char>)
    ensures
        uses(after_use(m, k), k) == uses(m, k) + 1,
        other != k ==> uses(after_use(m, other), k) == uses(m, k),
        rebound(after_use(m, other), k) == rebound(m, k),
{
}

/// Marking a variable as assigned again sets its mark and leaves every count,
/// and every other mark, as it was.
pub proof fn law_track_rebound(m: Map<Seq<char>, (nat, bool)>, k: Seq<char>, other: Seq<char>)
    ensures
        rebound(after_rebound(m, k), k),
        other != k ==> rebound(after_rebound(m, other), k) == rebound(m, k),
        uses(after_rebound(m, other), k) == uses(m, k),
{
}

/// One step of tracking: a use of a variable, or its assignment.
pub enum CensusStep {
    Use(Seq<char>),
    Rebound(Seq<char>),
}

/// The census after the steps, in order, starting from `m`: each use as
/// `track_use` records it, each assignment as `track_rebound` records it.
pub open spec fn after_steps(m: Map<Seq<char>, (nat, bool)>, steps: Seq<CensusStep>) -> Map<Seq<char>, (nat, bool)>
    decreases steps.len(),
{
    if steps.len() == 0 {
        m
    } else {
        let m1 = after_steps(m, steps.drop_last());
        match steps.last() {
            CensusStep::Use(k) => after_use(m1, k),
            CensusStep::Rebound(k) => after_rebound(m1, k),
        }
    }
}

/// How many of the steps are uses of `k`.
pub open spec fn uses_among(steps: Seq<CensusStep>, k: Seq<char>) -> nat
    decreases steps.len(),
{
    if steps.len() == 0 {
        0
    } else {
        uses_among(steps.drop_last(), k) + if steps.last() == CensusStep::Use(k) {
            1nat
        } else {
            0nat
        }
    }
}

/// Starting from an empty census (`Census::new` or `default`), after any
/// sequence of `track_use` and `track_rebound` calls the count of `k` is the
/// number of those calls that were uses of `k`; assignments and uses of other
/// names leave it as it is.
pub proof fn law_use_count_counts_uses(steps: Seq<CensusStep>, k: Seq<char>)
    ensures
        uses(after_steps(Map::empty(), steps), k) == uses_among(steps, k),
    decreases steps.len(),
{
    if steps.len() > 0 {
        law_use_count_counts_uses(steps.drop_last(), k);
    }
}

/// A census that has seen nothing counts no use and marks nothing.
pub proof fn law_census_empty(k: Seq<char>)
    ensures
        uses(Map::empty(), k) == 0,
        !rebound(Map::empty(), k),
{
}

} // verus!
