//! A small string-keyed table with a `Map` view.
//!
//! Entries are kept in insertion order in a vector, with unique keys; keyed
//! operations are specified against the abstract map, iteration against the
//! entry sequence.

use vstd::prelude::*;

use crate::text::str_equal;

verus! {

/// The map denoted by an entry sequence: later entries win.
pub open spec fn assoc_map<V>(s: Seq<(String, V)>) -> Map<Seq<char>, V>
    decreases s.len(),
{
    if s.len() == 0 {
        Map::empty()
    } else {
        assoc_map(s.drop_last()).insert(s.last().0@, s.last().1)
    }
}

/// No two entries share a key.
pub open spec fn unique_keys<V>(s: Seq<(String, V)>) -> bool {
    forall|i: int, j: int| 0 <= i < j < s.len() ==> s[i].0@ != s[j].0@
}

/// A key is in the map exactly when some entry carries it.
pub proof fn lemma_assoc_contains<V>(s: Seq<(String, V)>, k: Seq<char>)
    ensures
        assoc_map(s).contains_key(k) <==> exists|i: int| 0 <= i < s.len() && s[i].0@ == k,
    decreases s.len(),
{
    if s.len() > 0 {
        lemma_assoc_contains(s.drop_last(), k);
        if s.last().0@ == k {
            assert(s[s.len() - 1].0@ == k);
        } else if assoc_map(s).contains_key(k) {
            let i = choose|i: int| 0 <= i < s.drop_last().len() && s.drop_last()[i].0@ == k;
            assert(s[i].0@ == k);
        } else if exists|i: int| 0 <= i < s.len() && s[i].0@ == k {
            let i = choose|i: int| 0 <= i < s.len() && s[i].0@ == k;
            assert(s.drop_last()[i].0@ == k);
        }
    }
}

/// With unique keys, the map sends each entry's key to its value.
pub proof fn lemma_assoc_get<V>(s: Seq<(String, V)>, i: int)
    requires
        unique_keys(s),
        0 <= i < s.len(),
    ensures
        assoc_map(s).contains_key(s[i].0@),
        assoc_map(s)[s[i].0@] == s[i].1,
    decreases s.len(),
{
    if i < s.len() - 1 {
        assert(unique_keys(s.drop_last()));
        lemma_assoc_get(s.drop_last(), i);
        assert(s.drop_last()[i] == s[i]);
        assert(s.last().0@ != s[i].0@);
    }
}

/// Removing an entry removes exactly its key from the map.
proof fn lemma_assoc_remove<V>(s: Seq<(String, V)>, i: int)
    requires
        unique_keys(s),
        0 <= i < s.len(),
    ensures
        assoc_map(s.remove(i)) == assoc_map(s).remove(s[i].0@),
    decreases s.len(),
{
    if i == s.len() - 1 {
        assert(s.remove(i) =~= s.drop_last());
        lemma_assoc_contains(s.drop_last(), s[i].0@);
        assert(!assoc_map(s.drop_last()).contains_key(s[i].0@));
        assert(assoc_map(s.drop_last()).insert(s.last().0@, s.last().1).remove(s[i].0@)
            =~= assoc_map(s.drop_last()));
    } else {
        assert(unique_keys(s.drop_last()));
        lemma_assoc_remove(s.drop_last(), i);
        assert(s.remove(i).drop_last() =~= s.drop_last().remove(i));
        assert(s.remove(i).last() == s.last());
        assert(assoc_map(s.remove(i)) == assoc_map(s.drop_last().remove(i)).insert(
            s.last().0@,
            s.last().1,
        ));
        assert(s[i].0@ != s.last().0@);
        assert(assoc_map(s.drop_last()).remove(s[i].0@).insert(s.last().0@, s.last().1)
            =~= assoc_map(s.drop_last()).insert(s.last().0@, s.last().1).remove(s[i].0@));
    }
}

/// A table from strings to values, with unique keys.
#[derive(Debug)]
pub struct Dict<V> {
    entries: Vec<(String, V)>,
}

impl<V> Dict<V> {
    /// The entries in insertion order.
    pub closed spec fn items(&self) -> Seq<(String, V)> {
        self.entries@
    }

    /// The abstract map the table denotes.
    pub open spec fn table(&self) -> Map<Seq<char>, V> {
        assoc_map(self.items())
    }

    /// Key uniqueness, maintained by every operation.
    pub closed spec fn wf(&self) -> bool {
        unique_keys(self.entries@)
    }

    /// A key is in the table exactly when some entry carries it.
    pub proof fn lemma_table_contains(&self, k: Seq<char>)
        ensures
            self.table().contains_key(k) <==> exists|i: int|
                0 <= i < self.items().len() && self.items()[i].0@ == k,
    {
        lemma_assoc_contains(self.items(), k);
    }

    /// The table sends each entry's key to its value.
    pub proof fn lemma_table_index(&self, i: int)
        requires
            self.wf(),
            0 <= i < self.items().len(),
        ensures
            self.table().contains_key(self.items()[i].0@),
            self.table()[self.items()[i].0@] == self.items()[i].1,
    {
        lemma_assoc_get(self.items(), i);
    }

    /// An empty table.
    pub fn new() -> (d: Dict<V>)
        ensures
            d.wf(),
            d.table() == Map::<Seq<char>, V>::empty(),
            d.items() == Seq::<(String, V)>::empty(),
    {
        let d = Dict { entries: Vec::new() };
        proof {
            assert(d.table() =~= Map::<Seq<char>, V>::empty());
        }
        d
    }

    /// How many entries the table holds.
    pub fn len(&self) -> (n: usize)
        ensures
            n == self.items().len(),
    {
        self.entries.len()
    }

    /// The key of the entry at a position.
    pub fn key_at(&self, i: usize) -> (k: &String)
        requires
            i < self.items().len(),
        ensures
            *k == self.items()[i as int].0,
    {
        &self.entries[i].0
    }

    /// The value of the entry at a position.
    pub fn value_at(&self, i: usize) -> (v: &V)
        requires
            i < self.items().len(),
        ensures
            *v == self.items()[i as int].1,
    {
        &self.entries[i].1
    }

    /// Position of a key's entry, if the key is present.
    fn position(&self, key: &str) -> (r: Option<usize>)
        ensures
            match r {
                Some(i) => i < self.items().len() && self.items()[i as int].0@ == key@,
                None => !self.table().contains_key(key@),
            },
    {
        let n = self.entries.len();
        let mut i: usize = 0;
        while i < n
            invariant
                0 <= i <= n,
                n == self.items().len(),
                forall|j: int| 0 <= j < i ==> self.items()[j].0@ != key@,
            decreases n - i,
        {
            if str_equal(self.entries[i].0.as_str(), key) {
                return Some(i);
            }
            i += 1;
        }
        proof {
            self.lemma_table_contains(key@);
        }
        None
    }

    /// Look a key up.
    pub fn get(&self, key: &str) -> (r: Option<&V>)
        requires
            self.wf(),
        ensures
            match r {
                Some(v) => self.table().contains_key(key@) && *v == self.table()[key@],
                None => !self.table().contains_key(key@),
            },
    {
        match self.position(key) {
            Some(i) => {
                proof {
                    self.lemma_table_index(i as int);
                }
                Some(&self.entries[i].1)
            },
            None => None,
        }
    }

    /// Whether a key is present.
    pub fn contains(&self, key: &str) -> (r: bool)
        requires
            self.wf(),
        ensures
            r == self.table().contains_key(key@),
    {
        self.get(key).is_some()
    }

    /// Insert a value under a key, replacing any entry the key had.
    pub fn insert(&mut self, key: String, value: V)
        requires
            old(self).wf(),
        ensures
            final(self).wf(),
            final(self).table() == old(self).table().insert(key@, value),
            !old(self).table().contains_key(key@) ==> final(self).items() == old(
                self,
            ).items().push((key, value)),
    {
        let ghost old_items = self.entries@;
        match self.position(key.as_str()) {
            Some(i) => {
                proof {
                    self.lemma_table_contains(key@);
                    lemma_assoc_remove(old_items, i as int);
                }
                self.entries.remove(i);
                proof {
                    assert(unique_keys(self.entries@)) by {
                        assert(forall|p: int, q: int|
                            0 <= p < q < self.entries@.len() ==> self.entries@[p].0@
                                != self.entries@[q].0@) by {
                            assert(forall|p: int|
                                0 <= p < self.entries@.len() ==> #[trigger] self.entries@[p]
                                    == if p < i {
                                    old_items[p]
                                } else {
                                    old_items[p + 1]
                                });
                        }
                    }
                    assert(forall|j: int|
                        0 <= j < self.entries@.len() ==> #[trigger] self.entries@[j].0@ != key@)
                        by {
                        assert(forall|p: int|
                            0 <= p < self.entries@.len() ==> #[trigger] self.entries@[p]
                                == if p < i {
                                old_items[p]
                            } else {
                                old_items[p + 1]
                            });
                    }
                }
                let ghost mid_items = self.entries@;
                self.entries.push((key, value));
                proof {
                    assert(self.entries@.drop_last() =~= mid_items);
                    assert(unique_keys(self.entries@));
                    assert(self.table() =~= old(self).table().insert(key@, value));
                }
            },
            None => {
                proof {
                    self.lemma_table_contains(key@);
                }
                self.entries.push((key, value));
                proof {
                    assert(self.entries@.drop_last() =~= old_items);
                    assert(unique_keys(self.entries@)) by {
                        lemma_assoc_contains(old_items, key@);
                    }
                }
            },
        }
    }
}

} // verus!
