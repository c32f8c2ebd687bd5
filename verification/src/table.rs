//! Association tables over a vector of entries with distinct keys.
use vstd::prelude::*;

verus! {

/// A key of a table: what tells it apart from the others is its `id`.
pub trait TableKey: Sized {
    type Id;

    spec fn id(&self) -> Self::Id;

    fn same_key(&self, other: &Self) -> (r: bool)
        ensures
            r == (self.id() == other.id()),
    ;
}

impl TableKey for i64 {
    type Id = i64;

    open spec fn id(&self) -> i64 {
        *self
    }

    fn same_key(&self, other: &Self) -> (r: bool) {
        *self == *other
    }
}

impl TableKey for String {
    type Id = Seq<char>;

    open spec fn id(&self) -> Seq<char> {
        self@
    }

    fn same_key(&self, other: &Self) -> (r: bool) {
        *self == *other
    }
}

impl TableKey for (i64, String) {
    type Id = (i64, Seq<char>);

    open spec fn id(&self) -> (i64, Seq<char>) {
        (self.0, self.1@)
    }

    fn same_key(&self, other: &Self) -> (r: bool) {
        self.0 == other.0 && self.1 == other.1
    }
}

impl TableKey for (i64, i64, String) {
    type Id = (i64, i64, Seq<char>);

    open spec fn id(&self) -> (i64, i64, Seq<char>) {
        (self.0, self.1, self.2@)
    }

    fn same_key(&self, other: &Self) -> (r: bool) {
        self.0 == other.0 && self.1 == other.1 && self.2 == other.2
    }
}

/// The map that a list of entries describes; a later entry replaces an earlier one.
pub open spec fn entries_map<K: TableKey, V>(s: Seq<(K, V)>) -> Map<K::Id, V>
    decreases s.len(),
{
    if s.len() == 0 {
        Map::empty()
    } else {
        entries_map(s.drop_last()).insert(s.last().0.id(), s.last().1)
    }
}

/// No two entries have the same key.
pub open spec fn distinct<K: TableKey, V>(s: Seq<(K, V)>) -> bool {
    forall|i: int, j: int|
        #![trigger s[i], s[j]]
        0 <= i < j < s.len() ==> s[i].0.id() != s[j].0.id()
}

/// The keys of the map are those of the entries.
pub proof fn lemma_entries_domain<K: TableKey, V>(s: Seq<(K, V)>)
    ensures
        forall|k: K::Id| #[trigger]
            entries_map(s).contains_key(k) ==> exists|i: int|
                0 <= i < s.len() && #[trigger] s[i].0.id() == k,
        forall|i: int|
            0 <= i < s.len() ==> entries_map(s).contains_key(#[trigger] s[i].0.id()),
    decreases s.len(),
{
    if s.len() > 0 {
        let t = s.drop_last();
        lemma_entries_domain(t);
        assert forall|k: K::Id| #[trigger] entries_map(s).contains_key(k) implies exists|i: int|
            0 <= i < s.len() && #[trigger] s[i].0.id() == k by {
            if k == s.last().0.id() {
                assert(s[s.len() - 1].0.id() == k);
            } else {
                assert(entries_map(t).contains_key(k));
                let i = choose|i: int| 0 <= i < t.len() && #[trigger] t[i].0.id() == k;
                assert(s[i].0.id() == k);
            }
        }
        assert forall|i: int| 0 <= i < s.len() implies entries_map(s).contains_key(
            #[trigger] s[i].0.id(),
        ) by {
            if i < s.len() - 1 {
                assert(t[i].0.id() == s[i].0.id());
            }
        }
    }
}

/// Where the keys are distinct, each entry's value is what the map holds under its key.
pub proof fn lemma_entries_values<K: TableKey, V>(s: Seq<(K, V)>)
    requires
        distinct(s),
    ensures
        forall|i: int| 0 <= i < s.len() ==> entries_map(s)[(#[trigger] s[i]).0.id()] == s[i].1,
    decreases s.len(),
{
    if s.len() > 0 {
        let t = s.drop_last();
        assert(distinct(t)) by {
            assert forall|i: int, j: int|
                #![trigger t[i], t[j]]
                0 <= i < j < t.len() implies t[i].0.id() != t[j].0.id() by {
                assert(s[i].0.id() != s[j].0.id());
            }
        }
        lemma_entries_values(t);
        assert forall|i: int| 0 <= i < s.len() implies entries_map(s)[(#[trigger] s[i]).0.id()]
            == s[i].1 by {
            if i < s.len() - 1 {
                assert(t[i] == s[i]);
                assert(s[i].0.id() != s[s.len() - 1].0.id());
            }
        }
    }
}

/// The last entry taken off a list of distinct entries is in the map of the list and not in
/// the map of the rest.
pub proof fn lemma_entries_pop<K: TableKey, V>(s: Seq<(K, V)>)
    requires
        distinct(s),
        s.len() > 0,
    ensures
        distinct(s.drop_last()),
        entries_map(s) == entries_map(s.drop_last()).insert(s.last().0.id(), s.last().1),
        !entries_map(s.drop_last()).contains_key(s.last().0.id()),
        forall|k: K::Id| #[trigger]
            entries_map(s.drop_last()).contains_key(k) ==> entries_map(s).contains_key(k)
                && entries_map(s)[k] == entries_map(s.drop_last())[k],
{
    let t = s.drop_last();
    assert forall|i: int, j: int|
        #![trigger t[i], t[j]]
        0 <= i < j < t.len() implies t[i].0.id() != t[j].0.id() by {
        assert(s[i].0.id() != s[j].0.id());
    }
    lemma_entries_domain(t);
    if entries_map(t).contains_key(s.last().0.id()) {
        let i = choose|i: int| 0 <= i < t.len() && #[trigger] t[i].0.id() == s.last().0.id();
        assert(s[i].0.id() != s[s.len() - 1].0.id());
    }
}

/// The map of distinct entries has as many keys as there are entries.
pub proof fn lemma_entries_len<K: TableKey, V>(s: Seq<(K, V)>)
    requires
        distinct(s),
    ensures
        entries_map(s).dom().finite(),
        entries_map(s).dom().len() == s.len(),
    decreases s.len(),
{
    if s.len() > 0 {
        lemma_entries_pop(s);
        lemma_entries_len(s.drop_last());
        assert(entries_map(s).dom() =~= entries_map(s.drop_last()).dom().insert(s.last().0.id()));
    } else {
        assert(entries_map(s).dom() =~= Set::empty());
    }
}

/// Two lists of distinct entries describe the same map where each entry of one is in the other.
proof fn lemma_same_map<K: TableKey, V>(s: Seq<(K, V)>, m: Map<K::Id, V>)
    requires
        distinct(s),
        forall|k: K::Id| #[trigger]
            m.contains_key(k) ==> exists|i: int|
                0 <= i < s.len() && #[trigger] s[i].0.id() == k,
        forall|i: int|
            0 <= i < s.len() ==> m.contains_key((#[trigger] s[i]).0.id()) && m[s[i].0.id()]
                == s[i].1,
    ensures
        entries_map(s) == m,
{
    lemma_entries_domain(s);
    lemma_entries_values(s);
    assert forall|k: K::Id| entries_map(s).contains_key(k) == m.contains_key(k) by {
        if entries_map(s).contains_key(k) {
            let i = choose|i: int| 0 <= i < s.len() && #[trigger] s[i].0.id() == k;
            assert(m.contains_key(s[i].0.id()));
        }
        if m.contains_key(k) {
            let i = choose|i: int| 0 <= i < s.len() && #[trigger] s[i].0.id() == k;
            assert(entries_map(s).contains_key(s[i].0.id()));
        }
    }
    assert forall|k: K::Id| entries_map(s).contains_key(k) implies entries_map(s)[k] == m[k] by {
        let i = choose|i: int| 0 <= i < s.len() && #[trigger] s[i].0.id() == k;
        assert(entries_map(s)[s[i].0.id()] == s[i].1);
        assert(m[s[i].0.id()] == s[i].1);
    }
    assert(entries_map(s) =~= m);
}

/// A table from keys to values.
#[verifier::reject_recursive_types(K)]
pub struct Table<K: TableKey, V> {
    entries: Vec<(K, V)>,
}

impl<K: TableKey, V> View for Table<K, V> {
    type V = Map<K::Id, V>;

    closed spec fn view(&self) -> Map<K::Id, V> {
        entries_map(self.entries@)
    }
}

impl<K: TableKey, V> Table<K, V> {
    #[verifier::type_invariant]
    spec fn keys_are_distinct(self) -> bool {
        distinct(self.entries@)
    }

    pub fn new() -> (r: Self)
        ensures
            r@ == Map::<K::Id, V>::empty(),
    {
        Table { entries: Vec::new() }
    }

    /// The position of a key, or the number of entries where it has none.
    fn position(&self, key: &K) -> (p: usize)
        ensures
            p <= self.entries@.len(),
            p < self.entries@.len() ==> self.entries@[p as int].0.id() == key.id(),
            p == self.entries@.len() ==> !self@.contains_key(key.id()),
    {
        let mut p: usize = 0;
        while p < self.entries.len()
            invariant
                p <= self.entries@.len(),
                forall|i: int| 0 <= i < p ==> (#[trigger] self.entries@[i]).0.id() != key.id(),
            decreases self.entries@.len() - p,
        {
            if self.entries[p].0.same_key(key) {
                return p;
            }
            p = p + 1;
        }
        proof {
            lemma_entries_domain(self.entries@);
            if self@.contains_key(key.id()) {
                let i = choose|i: int|
                    0 <= i < self.entries@.len() && #[trigger] self.entries@[i].0.id() == key.id();
                assert(self.entries@[i].0.id() != key.id());
            }
        }
        p
    }

    /// The value under a key.
    pub fn get(&self, key: &K) -> (r: Option<&V>)
        ensures
            r == if self@.contains_key(key.id()) {
                Some(&self@[key.id()])
            } else {
                None
            },
    {
        proof {
            use_type_invariant(self);
            lemma_entries_domain(self.entries@);
            lemma_entries_values(self.entries@);
        }
        let p = self.position(key);
        if p < self.entries.len() {
            Some(&self.entries[p].1)
        } else {
            None
        }
    }

    /// Sets the value under a key.
    pub fn insert(&mut self, key: K, value: V)
        ensures
            final(self)@ == old(self)@.insert(key.id(), value),
    {
        proof {
            use_type_invariant(&*self);
        }
        let p = self.position(&key);
        let ghost before = self.entries@;
        let ghost id = key.id();
        let mut entries: Vec<(K, V)> = Vec::new();
        std::mem::swap(&mut entries, &mut self.entries);
        if p < entries.len() {
            entries.set(p, (key, value));
            proof {
                assert forall|i: int, j: int|
                    #![trigger entries@[i], entries@[j]]
                    0 <= i < j < entries@.len() implies entries@[i].0.id()
                    != entries@[j].0.id() by {
                    assert(before[i].0.id() != before[j].0.id());
                }
                lemma_entries_domain(before);
                lemma_entries_values(before);
                let m = entries_map(before).insert(id, value);
                assert forall|k: K::Id| #[trigger] m.contains_key(k) implies exists|i: int|
                    0 <= i < entries@.len() && #[trigger] entries@[i].0.id() == k by {
                    if k == id {
                        assert(entries@[p as int].0.id() == k);
                    } else {
                        let i = choose|i: int|
                            0 <= i < before.len() && #[trigger] before[i].0.id() == k;
                        assert(entries@[i].0.id() == k);
                    }
                }
                assert forall|i: int| 0 <= i < entries@.len() implies m.contains_key(
                    (#[trigger] entries@[i]).0.id(),
                ) && m[entries@[i].0.id()] == entries@[i].1 by {
                    if i != p {
                        assert(before[i] == entries@[i]);
                        assert(before[i].0.id() != before[p as int].0.id());
                    }
                }
                lemma_same_map(entries@, m);
            }
        } else {
            entries.push((key, value));
            proof {
                assert(entries@.drop_last() =~= before);
                lemma_entries_domain(before);
                assert forall|i: int, j: int|
                    #![trigger entries@[i], entries@[j]]
                    0 <= i < j < entries@.len() implies entries@[i].0.id()
                    != entries@[j].0.id() by {
                    assert(before[i].0.id() == entries@[i].0.id());
                    if j < before.len() {
                        assert(before[j].0.id() == entries@[j].0.id());
                    } else {
                        assert(entries_map(before).contains_key(before[i].0.id()));
                    }
                }
            }
        }
        self.entries = entries;
    }

    /// Takes the value under a key out of the table.
    pub fn remove(&mut self, key: &K) -> (r: Option<V>)
        ensures
            final(self)@ == old(self)@.remove(key.id()),
            r == if old(self)@.contains_key(key.id()) {
                Some(old(self)@[key.id()])
            } else {
                None
            },
    {
        proof {
            use_type_invariant(&*self);
        }
        let p = self.position(key);
        let ghost before = self.entries@;
        proof {
            lemma_entries_domain(before);
            lemma_entries_values(before);
        }
        if p < self.entries.len() {
            let mut entries: Vec<(K, V)> = Vec::new();
            std::mem::swap(&mut entries, &mut self.entries);
            let entry = entries.remove(p);
            proof {
                let m = entries_map(before).remove(key.id());
                assert forall|i: int, j: int|
                    #![trigger entries@[i], entries@[j]]
                    0 <= i < j < entries@.len() implies entries@[i].0.id()
                    != entries@[j].0.id() by {
                    let a = if i < p { i } else { i + 1 };
                    let b = if j < p { j } else { j + 1 };
                    assert(before[a] == entries@[i]);
                    assert(before[b] == entries@[j]);
                }
                assert forall|k: K::Id| #[trigger] m.contains_key(k) implies exists|i: int|
                    0 <= i < entries@.len() && #[trigger] entries@[i].0.id() == k by {
                    let i = choose|i: int| 0 <= i < before.len() && #[trigger] before[i].0.id() == k;
                    let a = if i < p { i } else { i - 1 };
                    assert(entries@[a].0.id() == k);
                }
                assert forall|i: int| 0 <= i < entries@.len() implies m.contains_key(
                    (#[trigger] entries@[i]).0.id(),
                ) && m[entries@[i].0.id()] == entries@[i].1 by {
                    let a = if i < p { i } else { i + 1 };
                    assert(before[a] == entries@[i]);
                    assert(before[p as int].0.id() == key.id());
                }
                lemma_same_map(entries@, m);
            }
            self.entries = entries;
            Some(entry.1)
        } else {
            proof {
                assert(self@.remove(key.id()) =~= self@);
            }
            None
        }
    }

    /// Empties the table and hands out its entries.
    pub fn take_entries(&mut self) -> (r: Vec<(K, V)>)
        ensures
            final(self)@ == Map::<K::Id, V>::empty(),
            distinct(r@),
            entries_map(r@) == old(self)@,
    {
        proof {
            use_type_invariant(&*self);
        }
        let mut entries: Vec<(K, V)> = Vec::new();
        std::mem::swap(&mut entries, &mut self.entries);
        entries
    }

    /// The table as a list of entries.
    pub fn entries(&self) -> (r: &Vec<(K, V)>)
        ensures
            distinct(r@),
            entries_map(r@) == self@,
    {
        proof {
            use_type_invariant(self);
        }
        &self.entries
    }
}

} // verus!
