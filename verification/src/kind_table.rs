//! Sets and tables keyed by syntax-node kind names.
use vstd::prelude::*;

use crate::text::str_eq;

verus! {

/// The names of a sequence of kind names.
pub open spec fn names_of(kinds: Seq<&'static str>) -> Seq<Seq<char>> {
    kinds.map_values(|k: &'static str| k@)
}

/// The set of names that a sequence of kind names holds.
pub open spec fn set_of(kinds: Seq<&'static str>) -> Set<Seq<char>>
    decreases kinds.len(),
{
    if kinds.len() == 0 {
        Set::empty()
    } else {
        set_of(kinds.drop_last()).insert(kinds[kinds.len() - 1]@)
    }
}

/// A set of kind names, each held once.
pub struct KindSet {
    kinds: Vec<&'static str>,
}

impl View for KindSet {
    type V = Set<Seq<char>>;

    closed spec fn view(&self) -> Set<Seq<char>> {
        set_of(self.kinds@)
    }
}

proof fn lemma_set_of_contains(kinds: Seq<&'static str>, name: Seq<char>)
    ensures
        set_of(kinds).contains(name) <==> exists|i: int|
            0 <= i < kinds.len() && (#[trigger] kinds[i])@ == name,
    decreases kinds.len(),
{
    if kinds.len() > 0 {
        lemma_set_of_contains(kinds.drop_last(), name);
        if set_of(kinds.drop_last()).contains(name) {
            let i = choose|i: int| 0 <= i < kinds.len() - 1 && (#[trigger] kinds.drop_last()[i])@
                == name;
            assert(kinds[i] == kinds.drop_last()[i]);
        }
        if exists|i: int| 0 <= i < kinds.len() && (#[trigger] kinds[i])@ == name {
            let i = choose|i: int| 0 <= i < kinds.len() && (#[trigger] kinds[i])@ == name;
            if i < kinds.len() - 1 {
                assert(kinds.drop_last()[i] == kinds[i]);
            }
        }
    }
}

proof fn lemma_set_of_finite(kinds: Seq<&'static str>)
    ensures
        set_of(kinds).finite(),
    decreases kinds.len(),
{
    if kinds.len() > 0 {
        lemma_set_of_finite(kinds.drop_last());
    }
}

impl KindSet {
    /// The empty set.
    pub fn new() -> (r: KindSet)
        ensures
            r@ == Set::<Seq<char>>::empty(),
    {
        KindSet { kinds: Vec::new() }
    }

    /// Whether the name is in the set.
    pub fn contains(&self, kind: &str) -> (r: bool)
        ensures
            r == self@.contains(kind@),
    {
        let n = self.kinds.len();
        proof {
            lemma_set_of_contains(self.kinds@, kind@);
        }
        for i in 0..n
            invariant
                n == self.kinds@.len(),
                forall|k: int| 0 <= k < i ==> (#[trigger] self.kinds@[k])@ != kind@,
        {
            if str_eq(self.kinds[i], kind) {
                assert((self.kinds@[i as int])@ == kind@);
                proof {
                    lemma_set_of_contains(self.kinds@, kind@);
                }
                return true;
            }
        }
        false
    }

    /// Whether the set is empty.
    pub fn is_empty(&self) -> (r: bool)
        ensures
            r == (self@ == Set::<Seq<char>>::empty()),
    {
        proof {
            if self.kinds@.len() > 0 {
                lemma_set_of_contains(self.kinds@, self.kinds@[0]@);
                assert(self@.contains(self.kinds@[0]@));
            } else {
                assert(self@ =~= Set::<Seq<char>>::empty());
            }
        }
        self.kinds.len() == 0
    }

    /// Adds a name.
    pub fn insert(&mut self, kind: &'static str)
        ensures
            final(self)@ == old(self)@.insert(kind@),
    {
        if !self.contains(kind) {
            self.kinds.push(kind);
            proof {
                assert(self.kinds@.drop_last() =~= old(self).kinds@);
            }
        } else {
            assert(old(self)@.insert(kind@) =~= old(self)@);
        }
    }

    /// Adds every name of the slice.
    pub fn extend(&mut self, kinds: &[&'static str])
        ensures
            final(self)@ == old(self)@.union(set_of(kinds@)),
    {
        let n = kinds.len();
        for i in 0..n
            invariant
                n == kinds@.len(),
                self@ == old(self)@.union(set_of(kinds@.take(i as int))),
        {
            self.insert(kinds[i]);
            proof {
                assert(kinds@.take(i + 1).drop_last() =~= kinds@.take(i as int));
                assert(self@ =~= old(self)@.union(set_of(kinds@.take(i + 1))));
            }
        }
        proof {
            assert(kinds@.take(n as int) =~= kinds@);
        }
    }
}

/// The table that a sequence of entries makes, a later entry overriding an
/// earlier one with the same name.
pub open spec fn table_of<V>(entries: Seq<(&'static str, V)>) -> Map<Seq<char>, V>
    decreases entries.len(),
{
    if entries.len() == 0 {
        Map::empty()
    } else {
        let last = entries[entries.len() - 1];
        table_of(entries.drop_last()).insert(last.0@, last.1)
    }
}

/// A table from kind names to values, each name held once.
pub struct KindTable<V> {
    entries: Vec<(&'static str, V)>,
}

impl<V> View for KindTable<V> {
    type V = Map<Seq<char>, V>;

    closed spec fn view(&self) -> Map<Seq<char>, V> {
        table_of(self.entries@)
    }
}

/// The names of a table's entries are those of its keys, and each key maps
/// to the value of the last entry with its name.
proof fn lemma_table_of_lookup<V>(entries: Seq<(&'static str, V)>, name: Seq<char>, i: int)
    requires
        0 <= i < entries.len(),
        entries[i].0@ == name,
        forall|j: int| i < j < entries.len() ==> (#[trigger] entries[j]).0@ != name,
    ensures
        table_of(entries).contains_key(name),
        table_of(entries)[name] == entries[i].1,
    decreases entries.len(),
{
    if i < entries.len() - 1 {
        lemma_table_of_lookup(entries.drop_last(), name, i);
        assert(entries.drop_last()[i] == entries[i]);
    }
}

proof fn lemma_table_of_absent<V>(entries: Seq<(&'static str, V)>, name: Seq<char>)
    requires
        forall|j: int| 0 <= j < entries.len() ==> (#[trigger] entries[j]).0@ != name,
    ensures
        !table_of(entries).contains_key(name),
    decreases entries.len(),
{
    if entries.len() > 0 {
        assert forall|j: int| 0 <= j < entries.len() - 1 implies (
        #[trigger] entries.drop_last()[j]).0@ != name by {
            assert(entries.drop_last()[j] == entries[j]);
        }
        lemma_table_of_absent(entries.drop_last(), name);
    }
}

impl<V> KindTable<V> {
    /// The empty table.
    pub fn new() -> (r: KindTable<V>)
        ensures
            r@ == Map::<Seq<char>, V>::empty(),
    {
        KindTable { entries: Vec::new() }
    }

    /// The value for a name, if the table holds one.
    pub fn get(&self, kind: &str) -> (r: Option<&V>)
        ensures
            self@.contains_key(kind@) ==> r == Some(&self@[kind@]),
            !self@.contains_key(kind@) ==> r is None,
    {
        let n = self.entries.len();
        let mut i = n;
        while i > 0
            invariant
                n == self.entries@.len(),
                i <= n,
                forall|j: int| i <= j < n ==> (#[trigger] self.entries@[j]).0@ != kind@,
            decreases i,
        {
            i = i - 1;
            if str_eq(self.entries[i].0, kind) {
                proof {
                    lemma_table_of_lookup(self.entries@, kind@, i as int);
                }
                return Some(&self.entries[i].1);
            }
        }
        proof {
            lemma_table_of_absent(self.entries@, kind@);
        }
        None
    }

    /// Whether the table holds the name.
    pub fn contains_key(&self, kind: &str) -> (r: bool)
        ensures
            r == self@.contains_key(kind@),
    {
        self.get(kind).is_some()
    }

    /// Whether the table is empty.
    pub fn is_empty(&self) -> (r: bool)
        ensures
            r == (self@ == Map::<Seq<char>, V>::empty()),
    {
        proof {
            if self.entries@.len() > 0 {
                let e = self.entries@;
                let last = e[e.len() - 1];
                assert(table_of(e).contains_key(last.0@));
            } else {
                assert(self@ =~= Map::<Seq<char>, V>::empty());
            }
        }
        self.entries.len() == 0
    }

    /// Sets the value for a name.
    pub fn insert(&mut self, kind: &'static str, value: V)
        ensures
            final(self)@ == old(self)@.insert(kind@, value),
    {
        let ghost name = kind@;
        self.entries.push((kind, value));
        proof {
            assert(self.entries@.drop_last() =~= old(self).entries@);
        }
    }
}

/// The table after inserting each pair in turn.
pub open spec fn insert_all<V>(m: Map<Seq<char>, V>, pairs: Seq<(&'static str, V)>) -> Map<
    Seq<char>,
    V,
>
    decreases pairs.len(),
{
    if pairs.len() == 0 {
        m
    } else {
        let last = pairs[pairs.len() - 1];
        insert_all(m, pairs.drop_last()).insert(last.0@, last.1)
    }
}

impl<V: Copy> KindTable<V> {
    /// Sets the value of every pair of the slice, in order.
    pub fn insert_pairs(&mut self, pairs: &[(&'static str, V)])
        ensures
            final(self)@ == insert_all(old(self)@, pairs@),
    {
        let n = pairs.len();
        for i in 0..n
            invariant
                n == pairs@.len(),
                self@ == insert_all(old(self)@, pairs@.take(i as int)),
        {
            let (k, v) = pairs[i];
            self.insert(k, v);
            proof {
                assert(pairs@.take(i + 1).drop_last() =~= pairs@.take(i as int));
            }
        }
        proof {
            assert(pairs@.take(n as int) =~= pairs@);
        }
    }
}

} // verus!
