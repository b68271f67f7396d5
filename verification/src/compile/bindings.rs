use vstd::prelude::*;

use super::assoc::{self, assoc_map, lemma_assoc_dom, lemma_assoc_push, lemma_assoc_update, lemma_assoc_value};
use super::ident::{Duplicate, Symbol};
use super::text::{decimal, lemma_decimal_digits, lemma_decimal_injective, push_decimal, string_of};

verus! {

broadcast use vstd::seq_lib::group_seq_properties;

pub type ScopeId = u64;

/// A finite set of scope ids, kept as a strictly increasing list so that
/// equal sets have equal representations.
#[derive(Debug, PartialEq, Eq, Hash)]
pub struct Scopes {
    ids: Vec<ScopeId>,
}

pub open spec fn strictly_increasing(s: Seq<u64>) -> bool {
    forall|i: int, j: int| 0 <= i < j < s.len() ==> s[i] < s[j]
}

proof fn lemma_increasing_no_dup(s: Seq<u64>)
    requires
        strictly_increasing(s),
    ensures
        s.no_duplicates(),
        s.to_set().len() == s.len(),
        s.to_set().finite(),
{
    assert(s.no_duplicates());
    s.unique_seq_to_set();
}

impl View for Scopes {
    type V = Set<ScopeId>;

    closed spec fn view(&self) -> Set<ScopeId> {
        self.ids@.to_set()
    }
}

impl Scopes {
    #[verifier::type_invariant]
    spec fn inv(&self) -> bool {
        strictly_increasing(self.ids@)
    }

    /// The empty scope set.
    pub fn new() -> (r: Scopes)
        ensures
            r@ == Set::<ScopeId>::empty(),
    {
        let r = Scopes { ids: Vec::new() };
        assert(r.ids@.to_set() =~= Set::<ScopeId>::empty());
        r
    }

    /// Number of scopes in the set.
    pub fn len(&self) -> (r: usize)
        ensures
            r == self@.len(),
            self@.finite(),
    {
        proof {
            use_type_invariant(self);
            lemma_increasing_no_dup(self.ids@);
        }
        self.ids.len()
    }

    /// Whether `scope` is in the set.
    pub fn contains(&self, scope: ScopeId) -> (r: bool)
        ensures
            r == self@.contains(scope),
    {
        let mut i: usize = 0;
        while i < self.ids.len()
            invariant
                0 <= i <= self.ids@.len(),
                forall|j: int| 0 <= j < i ==> self.ids@[j] != scope,
            decreases self.ids@.len() - i,
        {
            if self.ids[i] == scope {
                assert(self.ids@.to_set().contains(scope)) by {
                    assert(self.ids@.contains(scope));
                }
                return true;
            }
            i = i + 1;
        }
        assert(!self.ids@.contains(scope));
        false
    }

    /// Adds `scope` to the set.
    pub fn insert(&mut self, scope: ScopeId)
        ensures
            final(self)@ == old(self)@.insert(scope),
    {
        proof {
            use_type_invariant(&*self);
        }
        let mut i: usize = 0;
        while i < self.ids.len() && self.ids[i] < scope
            invariant
                0 <= i <= self.ids@.len(),
                strictly_increasing(self.ids@),
                forall|j: int| 0 <= j < i ==> self.ids@[j] < scope,
            decreases self.ids@.len() - i,
        {
            i = i + 1;
        }
        if i < self.ids.len() && self.ids[i] == scope {
            assert(self.ids@.to_set().insert(scope) =~= self.ids@.to_set()) by {
                assert(self.ids@.contains(scope));
            }
            return;
        }
        let ghost old_ids = self.ids@;
        let mut ids = Vec::new();
        std::mem::swap(&mut ids, &mut self.ids);
        ids.insert(i, scope);
        assert(ids@ == old_ids.insert(i as int, scope));
        assert(strictly_increasing(ids@)) by {
            assert forall|a: int, b: int| 0 <= a < b < ids@.len() implies ids@[a] < ids@[b] by {
                if a < i && b > i {
                    assert(ids@[b] == old_ids[b - 1]);
                    if (i as int) < old_ids.len() {
                        assert(old_ids[i as int] > scope);
                        assert(old_ids[i as int] <= old_ids[b - 1] || b - 1 == i);
                    }
                }
                if a == i && b > i {
                    assert(ids@[b] == old_ids[b - 1]);
                    assert(old_ids[i as int] > scope);
                    assert(old_ids[i as int] <= old_ids[b - 1] || b - 1 == i);
                }
            }
        }
        assert(ids@.to_set() =~= old_ids.to_set().insert(scope)) by {
            assert forall|x: u64| ids@.to_set().contains(x) implies old_ids.to_set().insert(scope).contains(x) by {
                let k = choose|k: int| 0 <= k < ids@.len() && ids@[k] == x;
                if k < i {
                    assert(old_ids[k] == x);
                } else if k > i {
                    assert(old_ids[k - 1] == x);
                }
            }
            assert forall|x: u64| old_ids.to_set().insert(scope).contains(x) implies ids@.to_set().contains(x) by {
                if x == scope {
                    assert(ids@[i as int] == scope);
                } else {
                    let k = choose|k: int| 0 <= k < old_ids.len() && old_ids[k] == x;
                    if k < i {
                        assert(ids@[k] == x);
                    } else {
                        assert(ids@[k + 1] == x);
                    }
                }
            }
        }
        self.ids = ids;
    }

    /// Removes `scope` from the set.
    pub fn remove(&mut self, scope: ScopeId)
        ensures
            final(self)@ == old(self)@.remove(scope),
    {
        proof {
            use_type_invariant(&*self);
        }
        let mut i: usize = 0;
        while i < self.ids.len() && self.ids[i] != scope
            invariant
                0 <= i <= self.ids@.len(),
                forall|j: int| 0 <= j < i ==> self.ids@[j] != scope,
            decreases self.ids@.len() - i,
        {
            i = i + 1;
        }
        if i == self.ids.len() {
            assert(self.ids@.to_set().remove(scope) =~= self.ids@.to_set());
            return;
        }
        let ghost old_ids = self.ids@;
        let mut ids = Vec::new();
        std::mem::swap(&mut ids, &mut self.ids);
        ids.remove(i);
        assert(ids@ == old_ids.remove(i as int));
        assert(strictly_increasing(ids@)) by {
            assert forall|a: int, b: int| 0 <= a < b < ids@.len() implies ids@[a] < ids@[b] by {
                if a < i && b >= i {
                    assert(ids@[b] == old_ids[b + 1]);
                }
            }
        }
        assert(ids@.to_set() =~= old_ids.to_set().remove(scope)) by {
            assert forall|x: u64| ids@.to_set().contains(x) implies old_ids.to_set().remove(scope).contains(x) by {
                let k = choose|k: int| 0 <= k < ids@.len() && ids@[k] == x;
                if k < i {
                    assert(old_ids[k] == x);
                    assert(old_ids[k] < old_ids[i as int]);
                } else {
                    assert(old_ids[k + 1] == x);
                    assert(old_ids[k + 1] > old_ids[i as int]);
                }
            }
            assert forall|x: u64| old_ids.to_set().remove(scope).contains(x) implies ids@.to_set().contains(x) by {
                let k = choose|k: int| 0 <= k < old_ids.len() && old_ids[k] == x;
                if k < i {
                    assert(ids@[k] == x);
                } else {
                    assert(k != i);
                    assert(ids@[k - 1] == x);
                }
            }
        }
        self.ids = ids;
    }

    /// Whether every scope of this set is in `other`.
    pub fn is_subset(&self, other: &Scopes) -> (r: bool)
        ensures
            r == self@.subset_of(other@),
    {
        let mut i: usize = 0;
        while i < self.ids.len()
            invariant
                0 <= i <= self.ids@.len(),
                forall|j: int| 0 <= j < i ==> other@.contains(#[trigger] self.ids@[j]),
            decreases self.ids@.len() - i,
        {
            if !other.contains(self.ids[i]) {
                assert(self@.contains(self.ids@[i as int]));
                return false;
            }
            i = i + 1;
        }
        assert forall|x: u64| self@.contains(x) implies other@.contains(x) by {
            let k = choose|k: int| 0 <= k < self.ids@.len() && self.ids@[k] == x;
        }
        true
    }

    /// Whether both sets hold the same scopes.
    pub fn same(&self, other: &Scopes) -> (r: bool)
        ensures
            r == (self@ == other@),
    {
        let a = self.is_subset(other);
        let b = other.is_subset(self);
        proof {
            if a && b {
                assert(self@ =~= other@);
            }
        }
        a && b
    }
}

impl Duplicate for Scopes {
    /// A copy of this set.
    fn duplicate(&self) -> (r: Scopes) {
        proof {
            use_type_invariant(self);
        }
        let ids = self.ids.clone();
        assert(ids@ =~= self.ids@);
        Scopes { ids }
    }
}

impl Scopes {
    /// The set holding exactly the given scopes.
    pub fn from_array<const N: usize>(scopes: [ScopeId; N]) -> (r: Scopes)
        ensures
            r@ == scopes@.to_set(),
    {
        let mut r = Scopes::new();
        let mut i: usize = 0;
        while i < N
            invariant
                0 <= i <= N,
                N == scopes@.len(),
                r@ == scopes@.take(i as int).to_set(),
            decreases N - i,
        {
            r.insert(scopes[i]);
            proof {
                assert(scopes@.take(i + 1) =~= scopes@.take(i as int).push(scopes@[i as int]));
                scopes@.take(i as int).lemma_push_to_set_commute(scopes@[i as int]);
            }
            i = i + 1;
        }
        assert(scopes@.take(N as int) =~= scopes@);
        r
    }
}

impl Clone for Scopes {
    fn clone(&self) -> (r: Self)
        ensures
            r@ == self@,
    {
        self.duplicate()
    }
}

/// An identifier: a symbol together with the set of scopes it was seen in.
#[derive(Debug, PartialEq, Eq, Hash)]
pub struct Id {
    pub symbol: Symbol,
    pub scopes: Scopes,
}

impl View for Id {
    type V = (Seq<char>, Set<ScopeId>);

    open spec fn view(&self) -> (Seq<char>, Set<ScopeId>) {
        (self.symbol@, self.scopes@)
    }
}

impl Id {
    /// An identifier with the given name and scopes.
    pub fn new<const N: usize>(symbol: &str, scopes: [ScopeId; N]) -> (r: Id)
        ensures
            r@ == (symbol@, scopes@.to_set()),
    {
        Id { symbol: Symbol::new(symbol), scopes: Scopes::from_array(scopes) }
    }

}

impl Duplicate for Id {
    /// A copy of this identifier.
    fn duplicate(&self) -> (r: Id) {
        Id { symbol: self.symbol.duplicate(), scopes: self.scopes.duplicate() }
    }
}

impl Clone for Id {
    fn clone(&self) -> (r: Self)
        ensures
            r@ == self@,
    {
        self.duplicate()
    }
}

/// The key of a binding: a name and the exact scope set it was bound in.
pub type BindingKey = (Seq<char>, Set<ScopeId>);

/// The binding table as a map from keys to the symbols they are bound to.
pub type BindingTable = Map<BindingKey, Seq<char>>;

#[derive(Debug)]
struct BindingEntry {
    name: Symbol,
    scopes: Scopes,
    target: Symbol,
}

spec fn entry_key(e: BindingEntry) -> BindingKey {
    (e.name@, e.scopes@)
}

spec fn key_of() -> spec_fn(BindingEntry) -> BindingKey {
    |e: BindingEntry| entry_key(e)
}

spec fn target_of() -> spec_fn(BindingEntry) -> Seq<char> {
    |e: BindingEntry| e.target@
}

spec fn table_of(s: Seq<BindingEntry>) -> BindingTable {
    assoc_map(s, key_of(), target_of())
}

spec fn entry_matches(e: BindingEntry, id: BindingKey) -> bool {
    e.name@ == id.0 && e.scopes@.subset_of(id.1)
}

spec fn keys_unique(s: Seq<BindingEntry>) -> bool {
    assoc::keys_unique(s, key_of())
}

proof fn lemma_table_dom(s: Seq<BindingEntry>, k: BindingKey)
    ensures
        table_of(s).dom().contains(k) <==> exists|i: int| 0 <= i < s.len() && entry_key(s[i]) == k,
{
    lemma_assoc_dom(s, key_of(), target_of(), k);
}

proof fn lemma_table_value(s: Seq<BindingEntry>, i: int)
    requires
        keys_unique(s),
        0 <= i < s.len(),
    ensures
        table_of(s).dom().contains(entry_key(s[i])),
        table_of(s)[entry_key(s[i])] == s[i].target@,
{
    lemma_assoc_value(s, key_of(), target_of(), i);
}

proof fn lemma_table_update(s: Seq<BindingEntry>, i: int, e: BindingEntry)
    requires
        keys_unique(s),
        0 <= i < s.len(),
        entry_key(e) == entry_key(s[i]),
    ensures
        keys_unique(s.update(i, e)),
        table_of(s.update(i, e)) == table_of(s).insert(entry_key(e), e.target@),
{
    lemma_assoc_update(s, key_of(), target_of(), i, e);
}

proof fn lemma_table_push(s: Seq<BindingEntry>, e: BindingEntry)
    requires
        keys_unique(s),
        !table_of(s).dom().contains(entry_key(e)),
    ensures
        keys_unique(s.push(e)),
        table_of(s.push(e)) == table_of(s).insert(entry_key(e), e.target@),
{
    lemma_assoc_push(s, key_of(), target_of(), e);
}

/// The entry that resolution settles on, scanning the entries in order: the
/// last one among the candidates with the largest scope set.
spec fn pick(s: Seq<BindingEntry>, id: BindingKey) -> Option<int>
    decreases s.len(),
{
    if s.len() == 0 {
        None
    } else {
        let prev = pick(s.drop_last(), id);
        if entry_matches(s.last(), id) && (prev matches Some(b) ==> s[b].scopes@.len() <= s.last().scopes@.len()) {
            Some(s.len() - 1)
        } else {
            prev
        }
    }
}

proof fn lemma_pick_matches(s: Seq<BindingEntry>, id: BindingKey)
    ensures
        pick(s, id) matches Some(b) ==> 0 <= b < s.len() && entry_matches(s[b], id),
    decreases s.len(),
{
    if s.len() > 0 {
        lemma_pick_matches(s.drop_last(), id);
    }
}

proof fn lemma_pick_push_other(s: Seq<BindingEntry>, e: BindingEntry, id: BindingKey)
    requires
        !entry_matches(e, id),
    ensures
        pick(s.push(e), id) == pick(s, id),
        pick(s, id) matches Some(b) ==> s.push(e)[b] == s[b],
{
    assert(s.push(e).drop_last() =~= s);
    lemma_pick_bound(s, id);
}

proof fn lemma_pick_update_other(s: Seq<BindingEntry>, i: int, e: BindingEntry, id: BindingKey)
    requires
        0 <= i < s.len(),
        !entry_matches(e, id),
        !entry_matches(s[i], id),
    ensures
        pick(s.update(i, e), id) == pick(s, id),
        pick(s, id) matches Some(b) ==> s.update(i, e)[b] == s[b],
    decreases s.len(),
{
    lemma_pick_matches(s, id);
    let u = s.update(i, e);
    if i == s.len() - 1 {
        assert(u.drop_last() =~= s.drop_last());
    } else {
        assert(u.drop_last() =~= s.drop_last().update(i, e));
        lemma_pick_update_other(s.drop_last(), i, e, id);
        lemma_pick_matches(s.drop_last(), id);
    }
}

proof fn lemma_pick_bound(s: Seq<BindingEntry>, id: BindingKey)
    ensures
        pick(s, id) matches Some(b) ==> 0 <= b < s.len(),
    decreases s.len(),
{
    if s.len() > 0 {
        lemma_pick_bound(s.drop_last(), id);
    }
}

/// Whether the binding keyed by `k` may be what `id` resolves to:
/// same name, and all of its scopes are among the identifier's scopes.
pub open spec fn is_candidate(t: BindingTable, id: BindingKey, k: BindingKey) -> bool {
    &&& t.dom().contains(k)
    &&& k.0 == id.0
    &&& k.1.subset_of(id.1)
}

/// A candidate whose scope set is at least as large as that of every other candidate.
pub open spec fn is_best_candidate(t: BindingTable, id: BindingKey, k: BindingKey) -> bool {
    &&& is_candidate(t, id, k)
    &&& forall|k2: BindingKey| is_candidate(t, id, k2) ==> k2.1.len() <= k.1.len()
}

/// The scopes and the symbol that binding resolution hands back for an identifier.
pub open spec fn resolves_to(t: BindingTable, id: BindingKey, r: Option<BindingKey>) -> bool {
    match r {
        None => forall|k: BindingKey| !is_candidate(t, id, k),
        Some(res) => {
            &&& is_best_candidate(t, id, (id.0, res.1))
            &&& res.0 == t[(id.0, res.1)]
        },
    }
}

/// Binding table of the expander: which symbol each identifier (name plus scope set)
/// is bound to, plus the counters for fresh scopes and fresh symbols.
#[derive(Debug)]
pub struct Bindings {
    symbols: Vec<BindingEntry>,
    scope_counter: ScopeId,
    gen_sym_counter: u64,
}

impl Bindings {
    #[verifier::type_invariant]
    spec fn inv(&self) -> bool {
        keys_unique(self.symbols@)
    }

    /// The bindings, keyed by name and exact scope set.
    /// What `id` resolves to: the bound symbol and the scope set of the binding.
    /// Among candidates with equally large scope sets, the one made last wins.
    pub closed spec fn resolution(&self, id: BindingKey) -> Option<BindingKey> {
        match pick(self.symbols@, id) {
            Some(b) => Some((self.symbols@[b].target@, self.symbols@[b].scopes@)),
            None => None,
        }
    }

    pub closed spec fn table(&self) -> BindingTable {
        table_of(self.symbols@)
    }

    /// The last scope id handed out (0 before any).
    pub closed spec fn scope_counter(&self) -> ScopeId {
        self.scope_counter
    }

    /// The number of symbols generated so far.
    pub closed spec fn gen_sym_counter(&self) -> u64 {
        self.gen_sym_counter
    }

    /// The scope of the core forms.
    pub const CORE_SCOPE: ScopeId = 0;

    /// Names bound in the core scope to themselves.
    pub const CORE_BINDINGS: [&'static str; 16] = [
        "let-syntax",
        "letrec-syntax",
        "syntax-rules",
        "quote",
        "quote-syntax",
        "if",
        "lambda",
        "define",
        "define-syntax",
        "set!",
        "begin",
        "list",
        "cons",
        "first",
        "second",
        "rest",
    ];

    /// The key under which `Bindings::new` binds the `i`-th core name.
    pub open spec fn core_key(i: int) -> BindingKey {
        (Self::CORE_BINDINGS[i]@, set![Self::CORE_SCOPE])
    }

    /// A table that binds each core name, in the core scope, to itself.
    pub fn new() -> (r: Bindings)
        ensures
            forall|k: BindingKey|
                r.table().dom().contains(k) <==> exists|i: int| 0 <= i < 16 && k == Self::core_key(i),
            forall|k: BindingKey| r.table().dom().contains(k) ==> r.table()[k] == k.0,
            r.scope_counter() == Self::CORE_SCOPE,
            r.gen_sym_counter() == 0,
    {
        let mut bindings = Bindings {
            symbols: Vec::new(),
            scope_counter: Self::CORE_SCOPE,
            gen_sym_counter: 0,
        };
        let mut i: usize = 0;
        while i < 16
            invariant
                0 <= i <= 16,
                bindings.scope_counter() == Self::CORE_SCOPE,
                bindings.gen_sym_counter() == 0,
                forall|k: BindingKey|
                    bindings.table().dom().contains(k) <==> exists|j: int| 0 <= j < i && k == Self::core_key(j),
                forall|k: BindingKey| bindings.table().dom().contains(k) ==> bindings.table()[k] == k.0,
            decreases 16 - i,
        {
            let name = Self::CORE_BINDINGS[i];
            let id = Id::new(name, [Self::CORE_SCOPE]);
            assert(id@ == Self::core_key(i as int)) by {
                assert(seq![Self::CORE_SCOPE].to_set() =~= set![Self::CORE_SCOPE]);
                assert([Self::CORE_SCOPE]@ =~= seq![Self::CORE_SCOPE]);
            }
            let target = Symbol::new(name);
            let ghost before = bindings.table();
            bindings.add_binding(&id, &target);
            assert forall|k: BindingKey|
                bindings.table().dom().contains(k) <==> exists|j: int| 0 <= j < i + 1 && k == Self::core_key(j) by {
                if k == Self::core_key(i as int) {
                } else if exists|j: int| 0 <= j < i + 1 && k == Self::core_key(j) {
                    let j = choose|j: int| 0 <= j < i + 1 && k == Self::core_key(j);
                    assert(j < i);
                }
            }
            i = i + 1;
        }
        bindings
    }

    /// A fresh scope id, never handed out before by this table.
    pub fn new_scope_id(&mut self) -> (r: ScopeId)
        requires
            old(self).scope_counter() < u64::MAX,
        ensures
            r == old(self).scope_counter() + 1,
            final(self).scope_counter() == r,
            final(self).table() == old(self).table(),
            final(self).gen_sym_counter() == old(self).gen_sym_counter(),
    {
        proof {
            use_type_invariant(&*self);
        }
        self.scope_counter = self.scope_counter + 1;
        self.scope_counter
    }

    /// The text of the symbol generated as the `n`-th one for a hint named `hint`.
    pub open spec fn gen_sym_text(n: nat, hint: Seq<char>) -> Seq<char> {
        "gensym_"@ + decimal(n) + ":"@ + hint
    }

    /// A fresh symbol named after `hint`, numbered by a counter private to this table.
    pub fn gen_sym(&mut self, hint: &Id) -> (r: Symbol)
        requires
            old(self).gen_sym_counter() < u64::MAX,
        ensures
            final(self).gen_sym_counter() == old(self).gen_sym_counter() + 1,
            r@ == Self::gen_sym_text(final(self).gen_sym_counter() as nat, hint.symbol@),
            final(self).table() == old(self).table(),
            final(self).scope_counter() == old(self).scope_counter(),
    {
        proof {
            use_type_invariant(&*self);
        }
        self.gen_sym_counter = self.gen_sym_counter + 1;
        let mut s = string_of("gensym_");
        push_decimal(&mut s, self.gen_sym_counter);
        s.append(":");
        s.append(hint.symbol.0.as_str());
        Symbol(s)
    }

    /// Binds `id` (its name under exactly its scope set) to `symbol`, replacing any
    /// earlier binding of the same name and scope set.
    #[verifier::loop_isolation(false)]
    pub fn add_binding(&mut self, id: &Id, symbol: &Symbol)
        ensures
            final(self).table() == old(self).table().insert(id@, symbol@),
            forall|j: BindingKey|
                !(j.0 == id@.0 && id@.1.subset_of(j.1)) ==> #[trigger] final(self).resolution(j) == old(self).resolution(j),
            final(self).scope_counter() == old(self).scope_counter(),
            final(self).gen_sym_counter() == old(self).gen_sym_counter(),
    {
        proof {
            use_type_invariant(&*self);
        }
        let entry = BindingEntry {
            name: id.symbol.duplicate(),
            scopes: id.scopes.duplicate(),
            target: symbol.duplicate(),
        };
        let mut i: usize = 0;
        while i < self.symbols.len()
            invariant
                0 <= i <= self.symbols@.len(),
                keys_unique(self.symbols@),
                self.symbols@ == old(self).symbols@,
                self.scope_counter == old(self).scope_counter,
                self.gen_sym_counter == old(self).gen_sym_counter,
                forall|j: int| 0 <= j < i ==> entry_key(#[trigger] self.symbols@[j]) != id@,
            decreases self.symbols@.len() - i,
        {
            if self.symbols[i].name.same(&id.symbol) && self.symbols[i].scopes.same(&id.scopes) {
                proof {
                    lemma_table_update(self.symbols@, i as int, entry);
                }
                let mut symbols = Vec::new();
                std::mem::swap(&mut symbols, &mut self.symbols);
                let ghost s0 = symbols@;
                let ghost e0 = entry;
                symbols.set(i, entry);
                *self = Bindings {
                    symbols,
                    scope_counter: self.scope_counter,
                    gen_sym_counter: self.gen_sym_counter,
                };
                proof {
                    assert(self.symbols@ == s0.update(i as int, e0));
                    assert forall|j: BindingKey| !(j.0 == id@.0 && id@.1.subset_of(j.1)) implies #[trigger] self.resolution(j)
                        == old(self).resolution(j) by {
                        lemma_pick_update_other(s0, i as int, e0, j);
                    }
                }
                return;
            }
            i = i + 1;
        }
        proof {
            lemma_table_dom(self.symbols@, id@);
            lemma_table_push(self.symbols@, entry);
        }
        let mut symbols = Vec::new();
        std::mem::swap(&mut symbols, &mut self.symbols);
        let ghost s0 = symbols@;
        let ghost e0 = entry;
        symbols.push(entry);
        *self = Bindings {
            symbols,
            scope_counter: self.scope_counter,
            gen_sym_counter: self.gen_sym_counter,
        };
        proof {
            assert(self.symbols@ == s0.push(e0));
            assert forall|j: BindingKey| !(j.0 == id@.0 && id@.1.subset_of(j.1)) implies #[trigger] self.resolution(j)
                == old(self).resolution(j) by {
                lemma_pick_push_other(s0, e0, j);
            }
        }
    }

    /// Resolves `id` to the binding of its name whose scope set is the largest
    /// subset of the identifier's scopes; `None` when no binding of the name has
    /// its scopes among the identifier's. The result carries the bound symbol and
    /// that scope set. Among equally large candidate scope sets the binding made
    /// last is taken; see `resolution`.
    pub fn resolve(&self, id: &Id) -> (r: Option<Id>)
        ensures
            resolves_to(self.table(), id@, match r { Some(res) => Some(res@), None => None }),
            self.resolution(id@) == match r { Some(res) => Some(res@), None => None },
    {
        proof {
            use_type_invariant(self);
        }
        let ghost s = self.symbols@;
        let mut best: Option<usize> = None;
        let mut best_len: usize = 0;
        let mut i: usize = 0;
        while i < self.symbols.len()
            invariant
                0 <= i <= s.len(),
                s == self.symbols@,
                keys_unique(s),
                id.scopes@.finite(),
                match best {
                    Some(b) => pick(s.take(i as int), id@) == Some(b as int),
                    None => pick(s.take(i as int), id@) is None,
                },
                best is None ==> forall|j: int| 0 <= j < i ==> !entry_matches(#[trigger] s[j], id@),
                best matches Some(b) ==> {
                    &&& b < i
                    &&& entry_matches(s[b as int], id@)
                    &&& best_len == s[b as int].scopes@.len()
                    &&& forall|j: int| 0 <= j < i && entry_matches(#[trigger] s[j], id@) ==> s[j].scopes@.len() <= best_len
                },
            decreases s.len() - i,
        {
            let e = &self.symbols[i];
            assert(s.take(i + 1).drop_last() =~= s.take(i as int));
            assert(s.take(i + 1).last() == s[i as int]);
            if e.name.same(&id.symbol) && e.scopes.is_subset(&id.scopes) {
                let l = e.scopes.len();
                match best {
                    None => {
                        best = Some(i);
                        best_len = l;
                    },
                    Some(_) => {
                        if l >= best_len {
                            best = Some(i);
                            best_len = l;
                        }
                    },
                }
            }
            i = i + 1;
        }
        let ghost t = self.table();
        assert(s.take(s.len() as int) =~= s);
        match best {
            None => {
                assert forall|k: BindingKey| !is_candidate(t, id@, k) by {
                    lemma_table_dom(s, k);
                    if t.dom().contains(k) {
                        let j = choose|j: int| 0 <= j < s.len() && entry_key(s[j]) == k;
                        assert(!entry_matches(#[trigger] s[j], id@));
                    }
                }
                None
            },
            Some(b) => {
                let e = &self.symbols[b];
                let res = Id { symbol: e.target.duplicate(), scopes: e.scopes.duplicate() };
                proof {
                    lemma_table_value(s, b as int);
                    assert(entry_key(s[b as int]) == (id.symbol@, res.scopes@));
                    assert forall|k2: BindingKey| is_candidate(t, id@, k2) implies k2.1.len() <= res.scopes@.len() by {
                        lemma_table_dom(s, k2);
                        let j = choose|j: int| 0 <= j < s.len() && entry_key(s[j]) == k2;
                        assert(entry_matches(s[j], id@));
                    }
                }
                Some(res)
            },
        }
    }

    /// The scopes of the binding `id` resolves to.
    pub fn resolve_scopes(&self, id: &Id) -> (r: Option<Scopes>)
        ensures
            resolves_to(self.table(), id@, match r { Some(res) => Some((self.table()[(id@.0, res@)], res@)), None => None }),
            match r {
                Some(res) => self.resolution(id@) matches Some(k) && res@ == k.1,
                None => self.resolution(id@) is None,
            },
    {
        match self.resolve(id) {
            Some(res) => Some(res.scopes),
            None => None,
        }
    }

    /// The symbol `id` resolves to.
    pub fn resolve_sym(&self, id: &Id) -> (r: Option<Symbol>)
        ensures
            r is None <==> forall|k: BindingKey| !is_candidate(self.table(), id@, k),
            r matches Some(sym) ==> exists|k: BindingKey|
                is_best_candidate(self.table(), id@, k) && sym@ == self.table()[k],
            match r {
                Some(sym) => self.resolution(id@) matches Some(k) && sym@ == k.0,
                None => self.resolution(id@) is None,
            },
    {
        match self.resolve(id) {
            Some(res) => Some(res.symbol),
            None => None,
        }
    }
}

/// An identifier resolves to the binding most recently made for it: once `id` is
/// bound to `s`, its own key is the one best candidate, so it resolves to `s` with
/// its own scope set, whatever else the table holds.
pub proof fn law_resolve_after_add(t: BindingTable, id: BindingKey, s: Seq<char>)
    requires
        id.1.finite(),
    ensures
        forall|k: BindingKey| is_best_candidate(t.insert(id, s), id, k) <==> k == id,
        forall|r: Option<BindingKey>|
            resolves_to(t.insert(id, s), id, r) <==> r == Some::<BindingKey>((s, id.1)),
{
    let t2 = t.insert(id, s);
    assert forall|k: BindingKey| is_candidate(t2, id, k) implies k.1.len() <= id.1.len() by {
        vstd::set_lib::lemma_len_subset(k.1, id.1);
    }
    assert forall|k: BindingKey| is_best_candidate(t2, id, k) implies k == id by {
        assert(is_candidate(t2, id, id));
        vstd::set_lib::lemma_len_subset(k.1, id.1);
        vstd::set_lib::lemma_subset_equality(k.1, id.1);
    }
    assert forall|r: Option<BindingKey>| resolves_to(t2, id, r) implies r == Some::<BindingKey>((s, id.1)) by {
        assert(is_candidate(t2, id, id));
        if let Some(res) = r {
            assert((id.0, res.1) == id);
        }
    }
}

/// Binding one name never changes what an identifier with another name resolves to.
pub proof fn law_resolve_other_name(t: BindingTable, id: BindingKey, other: BindingKey, s: Seq<char>)
    requires
        other.0 != id.0,
    ensures
        forall|k: BindingKey| is_candidate(t.insert(other, s), id, k) <==> is_candidate(t, id, k),
        forall|r: Option<BindingKey>| resolves_to(t.insert(other, s), id, r) <==> resolves_to(t, id, r),
{
    let t2 = t.insert(other, s);
    assert forall|k: BindingKey| is_candidate(t2, id, k) <==> is_candidate(t, id, k) by {
        if k == other {
        }
    }
    assert forall|r: Option<BindingKey>| resolves_to(t2, id, r) <==> resolves_to(t, id, r) by {
        if let Some(res) = r {
            assert((id.0, res.1) != other);
        }
    }
}

/// Scope ids handed out by `new_scope_id` rise strictly: `new_scope_id` gives
/// the counter plus one and leaves the counter at that value, `Bindings::new`
/// starts it at `CORE_SCOPE`, and no other operation changes it. So while the
/// counter is below its maximum, the next id exceeds the core scope and every
/// id handed out before, all of which are at most the counter.
pub proof fn law_new_scope_id_fresh(b: Bindings, handed_out: Set<ScopeId>)
    requires
        b.scope_counter() < u64::MAX,
        forall|s: ScopeId| #[trigger] handed_out.contains(s) ==> s <= b.scope_counter(),
    ensures
        b.scope_counter() + 1 > Bindings::CORE_SCOPE,
        forall|s: ScopeId| #[trigger] handed_out.contains(s) ==> s < b.scope_counter() + 1,
{
}

/// A binding whose scope set is not among an identifier's scopes (or whose
/// name differs) never changes what that identifier may resolve to.
pub proof fn law_resolve_unrelated_binding(t: BindingTable, id: BindingKey, other: BindingKey, s: Seq<char>)
    requires
        !(other.0 == id.0 && other.1.subset_of(id.1)),
    ensures
        forall|k: BindingKey| is_candidate(t.insert(other, s), id, k) <==> is_candidate(t, id, k),
        forall|r: Option<BindingKey>| resolves_to(t.insert(other, s), id, r) <==> resolves_to(t, id, r),
{
    let t2 = t.insert(other, s);
    assert forall|k: BindingKey| is_candidate(t2, id, k) <==> is_candidate(t, id, k) by {
        if k == other {
        }
    }
    assert forall|r: Option<BindingKey>| resolves_to(t2, id, r) <==> resolves_to(t, id, r) by {
        if let Some(res) = r {
            if (id.0, res.1) == other {
                assert(!is_candidate(t2, id, (id.0, res.1)));
                assert(!is_candidate(t, id, (id.0, res.1)));
            }
        }
    }
}

/// Generated symbols never coincide unless they carry the same number and hint:
/// the counter that `gen_sym` increments makes each generated symbol new.
pub proof fn law_gen_sym_distinct(n: nat, m: nat, h1: Seq<char>, h2: Seq<char>)
    requires
        Bindings::gen_sym_text(n, h1) == Bindings::gen_sym_text(m, h2),
    ensures
        n == m,
        h1 == h2,
{
    reveal_strlit("gensym_");
    reveal_strlit(":");
    let a = Bindings::gen_sym_text(n, h1);
    let b = Bindings::gen_sym_text(m, h2);
    let d1 = decimal(n);
    let d2 = decimal(m);
    lemma_decimal_digits(n);
    lemma_decimal_digits(m);
    assert(a =~= "gensym_"@ + (d1 + (":"@ + h1)));
    assert(b =~= "gensym_"@ + (d2 + (":"@ + h2)));
    if d1.len() < d2.len() {
        assert(a[7 + d1.len() as int] == ':');
        assert(b[7 + d1.len() as int] == d2[d1.len() as int]);
    } else if d2.len() < d1.len() {
        assert(b[7 + d2.len() as int] == ':');
        assert(a[7 + d2.len() as int] == d1[d2.len() as int]);
    } else {
        assert(d1 =~= a.subrange(7, 7 + d1.len() as int));
        assert(d2 =~= b.subrange(7, 7 + d2.len() as int));
        lemma_decimal_injective(n, m);
        assert(h1 =~= a.skip(8 + d1.len() as int));
        assert(h2 =~= b.skip(8 + d2.len() as int));
    }
}

} // verus!
